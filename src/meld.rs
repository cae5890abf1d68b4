//! Melds, the eye, and the combinations a winning hand resolves into.

use vstd::multiset::Multiset;
use vstd::prelude::*;

use crate::kinds::{is_playable, is_run_start, kind_of, kind_tile, lemma_tile_of_kind, KINDS};
use crate::tile::{tile_category, tile_value, Tile};

verus! {

/// Whether a quad was declared publicly.
#[derive(Debug, Clone, Copy, PartialEq, Eq, Structural, Hash)]
pub enum QuadStatus {
    Open,
    Closed,
}

/// A closed group of tiles within a hand.
#[derive(Debug, Clone, Copy, PartialEq, Eq, Hash)]
pub enum Meld {
    /// Three consecutive tiles of one suit.
    Sequence([Tile; 3]),
    /// Three identical tiles.
    Triplet([Tile; 3]),
    /// Four identical tiles, declared openly or concealed.
    Quad([Tile; 4], QuadStatus),
}

/// The pair that completes a standard winning hand: one tile, held twice.
#[derive(Debug, Clone, Copy, PartialEq, Eq, Structural, Hash)]
pub struct Eye(pub Tile);

/// A complete winning hand.
#[non_exhaustive]
#[derive(Debug, Clone, Copy, PartialEq, Eq, Hash)]
pub enum MahjongCombination {
    /// Four melds and an eye.
    Melds([Meld; 4], Eye),
    /// The thirteen terminal and honour tiles, one of them held twice.
    ThirteenOrphans(Eye),
}

/// Three tiles of one suit with consecutive numbers, lowest first.
pub open spec fn is_run(a: Seq<Tile>) -> bool {
    &&& a.len() == 3
    &&& tile_category(a[0]).is_suit()
    &&& tile_category(a[1]) == tile_category(a[0])
    &&& tile_category(a[2]) == tile_category(a[0])
    &&& tile_value(a[0]) is Some
    &&& 1 <= tile_value(a[0])->0 <= 7
    &&& tile_value(a[1]) == Some((tile_value(a[0])->0 + 1) as u8)
    &&& tile_value(a[2]) == Some((tile_value(a[0])->0 + 2) as u8)
}

/// Tiles that are all the same playable tile.
pub open spec fn is_set_of_one(a: Seq<Tile>) -> bool {
    &&& a.len() > 0
    &&& is_playable(a[0])
    &&& forall|i: int| 0 <= i < a.len() ==> #[trigger] a[i] == a[0]
}

/// A meld of the right shape: a run of three, three identical tiles, or four.
pub open spec fn meld_is_valid(m: Meld) -> bool {
    match m {
        Meld::Sequence(a) => is_run(a@),
        Meld::Triplet(a) => is_set_of_one(a@),
        Meld::Quad(a, _) => is_set_of_one(a@),
    }
}

/// The tiles of a meld.
pub open spec fn meld_multiset(m: Meld) -> Multiset<Tile> {
    match m {
        Meld::Sequence(a) => Multiset::empty().insert(a[0]).insert(a[1]).insert(a[2]),
        Meld::Triplet(a) => Multiset::empty().insert(a[0]).insert(a[1]).insert(a[2]),
        Meld::Quad(a, _) => Multiset::empty().insert(a[0]).insert(a[1]).insert(a[2]).insert(a[3]),
    }
}

/// The tiles of a sequence of melds.
pub open spec fn melds_multiset(ms: Seq<Meld>) -> Multiset<Tile>
    decreases ms.len(),
{
    if ms.len() == 0 {
        Multiset::empty()
    } else {
        meld_multiset(ms[0]).add(melds_multiset(ms.drop_first()))
    }
}

/// The triplet of the tile of kind `k`.
pub open spec fn triplet_meld(k: int) -> Meld {
    Meld::Triplet([kind_tile(k), kind_tile(k), kind_tile(k)])
}

/// The run of three that starts at the tile of kind `k`.
pub open spec fn run_meld(k: int) -> Meld {
    Meld::Sequence([kind_tile(k), kind_tile(k + 1), kind_tile(k + 2)])
}

pub proof fn lemma_melds_multiset_concat(a: Seq<Meld>, b: Seq<Meld>)
    ensures
        melds_multiset(a + b) == melds_multiset(a).add(melds_multiset(b)),
    decreases a.len(),
{
    broadcast use vstd::multiset::group_multiset_axioms;

    if a.len() == 0 {
        assert(a + b =~= b);
        assert(melds_multiset(a).add(melds_multiset(b)) =~= melds_multiset(b));
    } else {
        assert((a + b).drop_first() =~= a.drop_first() + b);
        lemma_melds_multiset_concat(a.drop_first(), b);
        assert(melds_multiset(a + b) =~= melds_multiset(a).add(melds_multiset(b)));
    }
}

pub proof fn lemma_melds_multiset_prepend(m: Meld, rest: Seq<Meld>)
    ensures
        melds_multiset(seq![m] + rest) == meld_multiset(m).add(melds_multiset(rest)),
{
    assert((seq![m] + rest).drop_first() =~= rest);
}

pub proof fn lemma_triplet_meld(k: int)
    requires
        0 <= k < KINDS,
    ensures
        meld_is_valid(triplet_meld(k)),
        meld_multiset(triplet_meld(k)) == Multiset::<Tile>::empty().insert(kind_tile(k)).insert(
            kind_tile(k),
        ).insert(kind_tile(k)),
{
    lemma_tile_of_kind(k);
    let a = [kind_tile(k), kind_tile(k), kind_tile(k)];
    assert(a@ =~= seq![kind_tile(k), kind_tile(k), kind_tile(k)]);
}

pub proof fn lemma_run_meld(k: int)
    requires
        is_run_start(k),
    ensures
        meld_is_valid(run_meld(k)),
        meld_multiset(run_meld(k)) == Multiset::<Tile>::empty().insert(kind_tile(k)).insert(
            kind_tile(k + 1),
        ).insert(kind_tile(k + 2)),
{
    let a = [kind_tile(k), kind_tile(k + 1), kind_tile(k + 2)];
    assert(a@ =~= seq![kind_tile(k), kind_tile(k + 1), kind_tile(k + 2)]);
}

impl Meld {
    /// Whether the meld has the shape its kind asks for.
    pub fn is_valid(&self) -> (r: bool)
        ensures
            r == meld_is_valid(*self),
    {
        match self {
            Meld::Sequence(a) => {
                match (kind_of(a[0]), kind_of(a[1]), kind_of(a[2])) {
                    (Some(_), Some(_), Some(_)) => {
                        let r = match (a[0], a[1], a[2]) {
                            (Tile::TONG(v0), Tile::TONG(v1), Tile::TONG(v2))
                            | (Tile::WAN(v0), Tile::WAN(v1), Tile::WAN(v2))
                            | (Tile::TIAO(v0), Tile::TIAO(v1), Tile::TIAO(v2)) => {
                                v0 <= 7 && v1 == v0 + 1 && v2 == v0 + 2
                            },
                            _ => false,
                        };
                        r
                    },
                    _ => false,
                }
            },
            Meld::Triplet(a) => {
                kind_of(a[0]).is_some() && a[1] == a[0] && a[2] == a[0]
            },
            Meld::Quad(a, _) => {
                kind_of(a[0]).is_some() && a[1] == a[0] && a[2] == a[0] && a[3] == a[0]
            },
        }
    }
}

} // verus!
