//! Winning hands that do not follow the shape of four melds and an eye.

use vstd::multiset::Multiset;
use vstd::prelude::*;

use crate::group::GroupedTiles;
use crate::kinds::{
    counts_multiset, is_playable, kind_of, kind_tile, lemma_counts_increment,
    lemma_counts_multiset_count, lemma_counts_zero, lemma_kind_of_tile, lemma_playable_finite,
    lemma_tile_of_kind, tile_kind, tile_of_kind, KINDS,
};
use crate::meld::{Eye, MahjongCombination};
use crate::tile::Tile;

verus! {

/// A terminal or honour tile: a wind, a dragon, or a 1 or 9 of a suit.
pub open spec fn is_orphan(t: Tile) -> bool {
    match t {
        Tile::EAST | Tile::SOUTH | Tile::WEST | Tile::NORTH => true,
        Tile::CENTRAL | Tile::PROSPERITY | Tile::BLANK => true,
        Tile::TONG(v) | Tile::WAN(v) | Tile::TIAO(v) => v == 1 || v == 9,
        _ => false,
    }
}

/// The thirteen terminal and honour tiles, one of each.
pub open spec fn orphans() -> Multiset<Tile> {
    Multiset::from_set(Set::new(|t: Tile| is_orphan(t)))
}

/// The tiles `s` are the Thirteen Orphans with `e` as the tile held twice:
/// each terminal and honour tile once, and `e`, one of them, once more.
pub open spec fn is_thirteen_orphans_with(s: Seq<Tile>, e: Tile) -> bool {
    &&& is_orphan(e)
    &&& s.to_multiset() == orphans().insert(e)
}

pub proof fn lemma_orphans_count(t: Tile)
    ensures
        orphans().count(t) == if is_orphan(t) {
            1nat
        } else {
            0nat
        },
{
    broadcast use vstd::multiset::group_multiset_axioms;
    broadcast use vstd::set_lib::lemma_set_subset_finite;

    lemma_playable_finite();
    let s = Set::new(|t: Tile| is_orphan(t));
    assert(s.subset_of(Set::new(|t: Tile| is_playable(t))));
    let m = Map::new(|k: Tile| s.contains(k), |v: Tile| 1nat);
    assert(m.dom() =~= s);
}

/// What the Thirteen Orphans with eye `e` asks of a table of counts.
proof fn lemma_orphans_counts(c: Seq<u8>, e: Tile)
    requires
        c.len() == KINDS,
        is_orphan(e),
        counts_multiset(c) == orphans().insert(e),
    ensures
        forall|j: int|
            0 <= j < KINDS ==> #[trigger] c[j] == (if is_orphan(kind_tile(j)) {
                1int
            } else {
                0int
            }) + (if j == tile_kind(e) {
                1int
            } else {
                0int
            }),
{
    broadcast use vstd::multiset::group_multiset_axioms;

    lemma_kind_of_tile(e);
    assert forall|j: int| 0 <= j < KINDS implies #[trigger] c[j] == (if is_orphan(kind_tile(j)) {
        1int
    } else {
        0int
    }) + (if j == tile_kind(e) {
        1int
    } else {
        0int
    }) by {
        lemma_tile_of_kind(j);
        lemma_counts_multiset_count(c, kind_tile(j));
        lemma_orphans_count(kind_tile(j));
    }
}

/// Whether the tile of kind `k` is a terminal or an honour.
fn is_orphan_kind(k: usize) -> (r: bool)
    requires
        k < KINDS,
    ensures
        r == is_orphan(kind_tile(k as int)),
{
    k == 0 || k == 8 || k == 9 || k == 17 || k == 18 || k >= 26
}

/// Recognises the Thirteen Orphans: the thirteen terminal and honour tiles
/// with exactly one of them held twice. Returns it with that tile as the
/// eye, by comparing counts, without any search.
pub fn is_13_orphans(tiles: &GroupedTiles) -> (r: Option<MahjongCombination>)
    ensures
        match r {
            Some(MahjongCombination::ThirteenOrphans(eye)) => is_thirteen_orphans_with(
                tiles.all(),
                eye.0,
            ),
            Some(_) => false,
            None => forall|e: Tile| !is_thirteen_orphans_with(tiles.all(), e),
        },
{
    broadcast use vstd::multiset::group_multiset_axioms;
    broadcast use vstd::seq_lib::lemma_multiset_commutative;
    broadcast use vstd::seq_lib::group_to_multiset_ensures;

    let all = tiles.tiles();
    let mut c: Vec<u8> = Vec::new();
    let mut k: usize = 0;
    while k < KINDS
        invariant
            k <= KINDS,
            c@.len() == k,
            forall|j: int| 0 <= j < k ==> c@[j] == 0,
        decreases KINDS - k,
    {
        c.push(0);
        k = k + 1;
    }
    proof {
        lemma_counts_zero(c@);
        assert(all@.subrange(0, 0) =~= Seq::<Tile>::empty());
    }
    let mut i: usize = 0;
    while i < all.len()
        invariant
            i <= all.len(),
            all@ == tiles.all(),
            c@.len() == KINDS,
            forall|j: int| 0 <= j < KINDS ==> c@[j] <= 2,
            counts_multiset(c@) == all@.subrange(0, i as int).to_multiset(),
        decreases all.len() - i,
    {
        let t = all[i];
        proof {
            assert(all@ =~= all@.subrange(0, i as int) + all@.subrange(i as int, all.len() as int));
            let head = all@.subrange(0, i as int);
            let rest = all@.subrange(i as int, all.len() as int);
            assert(rest[0] == t);
            assert(rest.contains(t));
            rest.to_multiset_ensures();
            vstd::seq_lib::lemma_multiset_commutative(head, rest);
            assert(all@.to_multiset().count(t) == all@.subrange(0, i as int).to_multiset().count(t)
                + all@.subrange(i as int, all.len() as int).to_multiset().count(t));
            lemma_orphans_count(t);
        }
        match kind_of(t) {
            Some(k) => {
                proof {
                    lemma_kind_of_tile(t);
                    lemma_counts_multiset_count(c@, t);
                }
                if c[k] == 2 {
                    // A third copy of one tile.
                    proof {
                        assert forall|e: Tile| !is_thirteen_orphans_with(tiles.all(), e) by {
                            if is_thirteen_orphans_with(tiles.all(), e) {
                                assert(orphans().insert(e).count(t) >= 3);
                            }
                        }
                    }
                    return None;
                }
                proof {
                    lemma_counts_increment(c@, k as int);
                    assert(all@.subrange(0, i + 1) =~= all@.subrange(0, i as int).push(t));
                    all@.subrange(0, i as int).to_multiset_ensures();
                }
                let n = c[k];
                c.set(k, n + 1);
            },
            None => {
                proof {
                    assert forall|e: Tile| !is_thirteen_orphans_with(tiles.all(), e) by {
                        if is_thirteen_orphans_with(tiles.all(), e) {
                            assert(orphans().insert(e).count(t) >= 1);
                        }
                    }
                }
                return None;
            },
        }
        i = i + 1;
    }
    proof {
        assert(all@.subrange(0, all.len() as int) =~= all@);
    }
    let mut eye: Option<usize> = None;
    let mut k: usize = 0;
    while k < KINDS
        invariant
            k <= KINDS,
            all@ == tiles.all(),
            c@.len() == KINDS,
            counts_multiset(c@) == all@.to_multiset(),
            forall|j: int|
                0 <= j < k ==> #[trigger] c@[j] == (if is_orphan(kind_tile(j)) {
                    1int
                } else {
                    0int
                }) + (if eye == Some(j as usize) {
                    1int
                } else {
                    0int
                }),
            match eye {
                Some(x) => x < k && is_orphan(kind_tile(x as int)),
                None => true,
            },
        decreases KINDS - k,
    {
        let base: u8 = if is_orphan_kind(k) {
            1
        } else {
            0
        };
        if c[k] == base {
        } else if base == 1 && c[k] == 2 && eye.is_none() {
            eye = Some(k);
        } else {
            proof {
                assert forall|e: Tile| !is_thirteen_orphans_with(tiles.all(), e) by {
                    if is_thirteen_orphans_with(tiles.all(), e) {
                        lemma_orphans_counts(c@, e);
                        lemma_kind_of_tile(e);
                        if let Some(x) = eye {
                            assert(c@[x as int] == 2);
                        }
                    }
                }
            }
            return None;
        }
        k = k + 1;
    }
    match eye {
        Some(x) => {
            let e = tile_of_kind(x);
            proof {
                lemma_tile_of_kind(x as int);
                assert forall|t: Tile| counts_multiset(c@).count(t) == orphans().insert(e).count(t) by {
                    lemma_counts_multiset_count(c@, t);
                    lemma_orphans_count(t);
                    if is_playable(t) {
                        lemma_kind_of_tile(t);
                        assert(c@[tile_kind(t)] == (if is_orphan(kind_tile(tile_kind(t))) {
                            1int
                        } else {
                            0int
                        }) + (if eye == Some(tile_kind(t) as usize) {
                            1int
                        } else {
                            0int
                        }));
                    }
                }
                assert(counts_multiset(c@) =~= orphans().insert(e));
            }
            Some(MahjongCombination::ThirteenOrphans(Eye(e)))
        },
        None => {
            proof {
                assert forall|e: Tile| !is_thirteen_orphans_with(tiles.all(), e) by {
                    if is_thirteen_orphans_with(tiles.all(), e) {
                        lemma_orphans_counts(c@, e);
                        lemma_kind_of_tile(e);
                        lemma_tile_of_kind(tile_kind(e));
                        assert(c@[tile_kind(e)] == 2);
                    }
                }
            }
            None
        },
    }
}

} // verus!
