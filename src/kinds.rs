//! The 34 kinds of playable tile (the three suits, winds and dragons), and a
//! hand held as the number of tiles of each kind.

use vstd::multiset::Multiset;
use vstd::prelude::*;

use crate::tile::{tile_category, tile_is_valid, Tile};

verus! {

/// The number of kinds of tile that melds are made of.
pub const KINDS: usize = 34;

/// A tile that can stand in a meld: a wind, a dragon, or a suit tile
/// numbered 1 to 9.
pub open spec fn is_playable(t: Tile) -> bool {
    tile_is_valid(t) && !(tile_category(t) is FLOWER)
}

/// The tile of each kind: the tong, wan and tiao suits from 1 to 9, then
/// the four winds and the three dragons.
pub open spec fn kind_tile(k: int) -> Tile {
    if k < 9 {
        Tile::TONG((k + 1) as u8)
    } else if k < 18 {
        Tile::WAN((k - 8) as u8)
    } else if k < 27 {
        Tile::TIAO((k - 17) as u8)
    } else if k == 27 {
        Tile::EAST
    } else if k == 28 {
        Tile::SOUTH
    } else if k == 29 {
        Tile::WEST
    } else if k == 30 {
        Tile::NORTH
    } else if k == 31 {
        Tile::CENTRAL
    } else if k == 32 {
        Tile::PROSPERITY
    } else {
        Tile::BLANK
    }
}

/// The kind of a playable tile.
pub open spec fn tile_kind(t: Tile) -> int {
    match t {
        Tile::TONG(v) => v - 1,
        Tile::WAN(v) => v + 8,
        Tile::TIAO(v) => v + 17,
        Tile::EAST => 27,
        Tile::SOUTH => 28,
        Tile::WEST => 29,
        Tile::NORTH => 30,
        Tile::CENTRAL => 31,
        Tile::PROSPERITY => 32,
        Tile::BLANK => 33,
        _ => 0,
    }
}

/// The kinds at which a run of three suit tiles can start (values 1 to 7).
pub open spec fn is_run_start(k: int) -> bool {
    (0 <= k <= 6) || (9 <= k <= 15) || (18 <= k <= 24)
}

/// The tiles that a table of counts per kind stands for.
pub open spec fn counts_multiset(c: Seq<u8>) -> Multiset<Tile> {
    Multiset::from_map(Map::new(|t: Tile| is_playable(t), |t: Tile| c[tile_kind(t)] as nat))
}

pub proof fn lemma_kind_of_tile(t: Tile)
    requires
        is_playable(t),
    ensures
        0 <= tile_kind(t) < KINDS,
        kind_tile(tile_kind(t)) == t,
{
}

pub proof fn lemma_tile_of_kind(k: int)
    requires
        0 <= k < KINDS,
    ensures
        is_playable(kind_tile(k)),
        tile_kind(kind_tile(k)) == k,
{
}

/// There are finitely many playable tiles.
pub proof fn lemma_playable_finite()
    ensures
        Set::new(|t: Tile| is_playable(t)).finite(),
{
    let range = vstd::set_lib::set_int_range(0, KINDS as int);
    vstd::set_lib::lemma_int_range(0, KINDS as int);
    range.lemma_map_finite(|k: int| kind_tile(k));
    let image = range.map(|k: int| kind_tile(k));
    assert forall|t: Tile| is_playable(t) implies image.contains(t) by {
        lemma_kind_of_tile(t);
        assert(range.contains(tile_kind(t)));
    }
    assert forall|t: Tile| image.contains(t) implies is_playable(t) by {
        let k = choose|k: int| range.contains(k) && kind_tile(k) == t;
        lemma_tile_of_kind(k);
    }
    assert(Set::new(|t: Tile| is_playable(t)) =~= image);
}

/// The number of tiles of one playable tile's kind is what the table says.
pub proof fn lemma_counts_multiset_count(c: Seq<u8>, t: Tile)
    ensures
        counts_multiset(c).count(t) == if is_playable(t) {
            c[tile_kind(t)] as nat
        } else {
            0
        },
{
    broadcast use vstd::multiset::group_multiset_axioms;

    lemma_playable_finite();
    let m = Map::new(|t: Tile| is_playable(t), |t: Tile| c[tile_kind(t)] as nat);
    assert(m.dom() =~= Set::new(|t: Tile| is_playable(t)));
}

/// Setting the count of one kind sets the multiplicity of its tile.
pub proof fn lemma_counts_update(c: Seq<u8>, k: int, v: u8)
    requires
        c.len() == KINDS,
        0 <= k < KINDS,
    ensures
        counts_multiset(c.update(k, v)) == counts_multiset(c).update(kind_tile(k), v as nat),
{
    broadcast use vstd::multiset::group_multiset_axioms;

    let m1 = counts_multiset(c.update(k, v));
    let m2 = counts_multiset(c).update(kind_tile(k), v as nat);
    lemma_tile_of_kind(k);
    assert forall|t: Tile| m1.count(t) == m2.count(t) by {
        lemma_counts_multiset_count(c.update(k, v), t);
        lemma_counts_multiset_count(c, t);
        if t == kind_tile(k) {
            vstd::multiset::lemma_update_same(counts_multiset(c), t, v as nat);
        } else {
            vstd::multiset::lemma_update_different(counts_multiset(c), kind_tile(k), v as nat, t);
            if is_playable(t) {
                lemma_kind_of_tile(t);
            }
        }
    }
    assert(m1 =~= m2);
}

/// One more tile of a kind is that tile inserted.
pub proof fn lemma_counts_increment(c: Seq<u8>, k: int)
    requires
        c.len() == KINDS,
        0 <= k < KINDS,
        c[k] < 255,
    ensures
        counts_multiset(c.update(k, (c[k] + 1) as u8)) == counts_multiset(c).insert(kind_tile(k)),
{
    broadcast use vstd::multiset::group_multiset_axioms;

    let m = counts_multiset(c);
    lemma_counts_update(c, k, (c[k] + 1) as u8);
    lemma_tile_of_kind(k);
    lemma_counts_multiset_count(c, kind_tile(k));
    assert forall|t: Tile| #[trigger] m.update(kind_tile(k), (c[k] + 1) as nat).count(t) == m.insert(
        kind_tile(k),
    ).count(t) by {
        if t == kind_tile(k) {
            vstd::multiset::lemma_update_same(m, t, (c[k] + 1) as nat);
        } else {
            vstd::multiset::lemma_update_different(m, kind_tile(k), (c[k] + 1) as nat, t);
        }
    }
    assert(m.update(kind_tile(k), (c[k] + 1) as nat) =~= m.insert(kind_tile(k)));
}

/// The counts of an empty table stand for no tile at all.
pub proof fn lemma_counts_zero(c: Seq<u8>)
    requires
        c.len() == KINDS,
        forall|k: int| 0 <= k < KINDS ==> c[k] == 0,
    ensures
        counts_multiset(c) == Multiset::<Tile>::empty(),
{
    broadcast use vstd::multiset::group_multiset_axioms;

    assert forall|t: Tile| counts_multiset(c).count(t) == 0 by {
        lemma_counts_multiset_count(c, t);
        if is_playable(t) {
            lemma_kind_of_tile(t);
        }
    }
    assert(counts_multiset(c) =~= Multiset::empty());
}

/// The kind of a tile, or `None` for a flower, a season, or a suit tile
/// whose number is not between 1 and 9.
pub fn kind_of(t: Tile) -> (r: Option<usize>)
    ensures
        r == (if is_playable(t) {
            Some(tile_kind(t) as usize)
        } else {
            None::<usize>
        }),
{
    match t {
        Tile::TONG(v) => if 1 <= v && v <= 9 {
            Some(v as usize - 1)
        } else {
            None
        },
        Tile::WAN(v) => if 1 <= v && v <= 9 {
            Some(v as usize + 8)
        } else {
            None
        },
        Tile::TIAO(v) => if 1 <= v && v <= 9 {
            Some(v as usize + 17)
        } else {
            None
        },
        Tile::EAST => Some(27),
        Tile::SOUTH => Some(28),
        Tile::WEST => Some(29),
        Tile::NORTH => Some(30),
        Tile::CENTRAL => Some(31),
        Tile::PROSPERITY => Some(32),
        Tile::BLANK => Some(33),
        _ => None,
    }
}

/// The tile of a kind.
pub fn tile_of_kind(k: usize) -> (r: Tile)
    requires
        k < KINDS,
    ensures
        r == kind_tile(k as int),
{
    if k < 9 {
        Tile::TONG((k + 1) as u8)
    } else if k < 18 {
        Tile::WAN((k - 8) as u8)
    } else if k < 27 {
        Tile::TIAO((k - 17) as u8)
    } else if k == 27 {
        Tile::EAST
    } else if k == 28 {
        Tile::SOUTH
    } else if k == 29 {
        Tile::WEST
    } else if k == 30 {
        Tile::NORTH
    } else if k == 31 {
        Tile::CENTRAL
    } else if k == 32 {
        Tile::PROSPERITY
    } else {
        Tile::BLANK
    }
}

/// Counts the tiles of each kind; `None` when a tile is not playable.
pub fn tile_counts(tiles: &Vec<Tile>) -> (r: Option<Vec<u8>>)
    requires
        tiles.len() < 256,
    ensures
        match r {
            Some(c) => {
                &&& c@.len() == KINDS
                &&& counts_multiset(c@) == tiles@.to_multiset()
                &&& forall|i: int| 0 <= i < tiles.len() ==> is_playable(#[trigger] tiles@[i])
            },
            None => exists|i: int| 0 <= i < tiles.len() && !is_playable(#[trigger] tiles@[i]),
        },
{
    broadcast use vstd::seq_lib::group_to_multiset_ensures;

    let mut c: Vec<u8> = Vec::new();
    let mut k: usize = 0;
    while k < KINDS
        invariant
            k <= KINDS,
            c@.len() == k,
            forall|j: int| 0 <= j < k ==> c@[j] == 0,
        decreases KINDS - k,
    {
        c.push(0);
        k = k + 1;
    }
    proof {
        lemma_counts_zero(c@);
        assert(tiles@.subrange(0, 0) =~= Seq::<Tile>::empty());
    }
    let mut i: usize = 0;
    while i < tiles.len()
        invariant
            i <= tiles.len(),
            tiles.len() < 256,
            c@.len() == KINDS,
            forall|j: int| 0 <= j < KINDS ==> c@[j] <= i,
            counts_multiset(c@) == tiles@.subrange(0, i as int).to_multiset(),
            forall|j: int| 0 <= j < i ==> is_playable(#[trigger] tiles@[j]),
        decreases tiles.len() - i,
    {
        let t = tiles[i];
        match kind_of(t) {
            Some(k) => {
                proof {
                    lemma_kind_of_tile(t);
                    lemma_counts_increment(c@, k as int);
                    assert(tiles@.subrange(0, i + 1) =~= tiles@.subrange(0, i as int).push(t));
                }
                let n = c[k];
                c.set(k, n + 1);
                proof {
                    tiles@.subrange(0, i as int).to_multiset_ensures();
                }
            },
            None => {
                return None;
            },
        }
        i = i + 1;
    }
    proof {
        assert(tiles@.subrange(0, tiles.len() as int) =~= tiles@);
    }
    Some(c)
}

} // verus!
