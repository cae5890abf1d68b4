//! A hand, and the lazy enumeration of the ways to read it as four melds and
//! an eye.

use vstd::multiset::Multiset;
use vstd::prelude::*;

use crate::group::{group_by_category, is_grouping_of, GroupedTiles};
use crate::kinds::{
    counts_multiset, is_playable, kind_tile, lemma_counts_multiset_count, lemma_kind_of_tile,
    lemma_tile_of_kind, tile_counts, KINDS,
};
use crate::meld::{meld_is_valid, meld_multiset, melds_multiset, Eye, MahjongCombination, Meld};
use crate::search::{
    find_nth, is_closed_meld, lemma_pow3_monotonic, lemma_readings_complete, lemma_readings_len,
    pow3, readings,
};
use crate::tile::Tile;

verus! {

/// A hand: the concealed tiles not yet assigned to melds, and the melds
/// already declared, in the order they were declared.
pub struct MahjongHand {
    pub closed: GroupedTiles,
    pub open: Vec<Meld>,
}

impl MahjongHand {
    /// A hand of the given concealed tiles and declared melds.
    pub fn new(closed: &Vec<Tile>, open: Vec<Meld>) -> (r: MahjongHand)
        ensures
            is_grouping_of(r.closed, closed@),
            r.closed.all().to_multiset() == closed@.to_multiset(),
            r.closed.wf(),
            r.open@ == open@,
    {
        MahjongHand { closed: group_by_category(closed), open }
    }

    /// Whether every concealed tile has been assigned.
    pub fn is_complete(&self) -> (r: bool)
        ensures
            r == (self.closed.all().len() == 0),
    {
        self.closed.winds.len() == 0 && self.closed.dragons.len() == 0
            && self.closed.tongs.len() == 0 && self.closed.wans.len() == 0
            && self.closed.tiaos.len() == 0 && self.closed.flowers.len() == 0
            && self.closed.seasons.len() == 0
    }
}

/// Every tile of a hand: the concealed ones and those of the declared melds.
pub open spec fn hand_multiset(h: MahjongHand) -> Multiset<Tile> {
    h.closed.all().to_multiset().add(melds_multiset(h.open@))
}

/// The table of counts per kind of a sequence of playable tiles.
pub open spec fn counts_of(s: Seq<Tile>) -> Seq<u8> {
    choose|c: Seq<u8>| c.len() == KINDS && counts_multiset(c) == s.to_multiset()
}

/// A hand that can be searched: at most four declared melds, all of valid
/// shape, just enough playable concealed tiles to complete the other melds
/// and the eye, and no more than the four copies of any tile that a set has.
pub open spec fn is_searchable(h: MahjongHand) -> bool {
    &&& h.open@.len() <= 4
    &&& forall|i: int| 0 <= i < h.open@.len() ==> meld_is_valid(#[trigger] h.open@[i])
    &&& forall|i: int| 0 <= i < h.closed.all().len() ==> is_playable(#[trigger] h.closed.all()[i])
    &&& h.closed.all().len() == 3 * (4 - h.open@.len()) + 2
    &&& forall|t: Tile| #[trigger] hand_multiset(h).count(t) <= 4
}

/// The combination of four melds and an eye.
pub open spec fn combine(ms: Seq<Meld>, e: Tile) -> MahjongCombination {
    MahjongCombination::Melds([ms[0], ms[1], ms[2], ms[3]], Eye(e))
}

/// Every reading of a hand as four melds and an eye, in search order: the
/// declared melds come first, then those found among the concealed tiles.
/// A hand that cannot be searched has none.
pub open spec fn decompositions(h: MahjongHand) -> Seq<MahjongCombination> {
    if is_searchable(h) {
        let closed = h.closed.all();
        readings(counts_of(closed), None, closed.len()).map_values(
            |r: (Seq<Meld>, Tile)| combine(h.open@ + r.0, r.1),
        )
    } else {
        Seq::empty()
    }
}

/// Two tables of counts that stand for the same tiles are the same.
pub proof fn lemma_counts_unique(c1: Seq<u8>, c2: Seq<u8>)
    requires
        c1.len() == KINDS,
        c2.len() == KINDS,
        counts_multiset(c1) == counts_multiset(c2),
    ensures
        c1 == c2,
{
    assert forall|k: int| 0 <= k < KINDS implies c1[k] == c2[k] by {
        lemma_tile_of_kind(k);
        lemma_counts_multiset_count(c1, kind_tile(k));
        lemma_counts_multiset_count(c2, kind_tile(k));
    }
    assert(c1 =~= c2);
}

/// The table of counts of playable tiles exists.
pub proof fn lemma_counts_of(s: Seq<Tile>)
    requires
        s.len() < 256,
        forall|i: int| 0 <= i < s.len() ==> is_playable(#[trigger] s[i]),
    ensures
        counts_of(s).len() == KINDS,
        counts_multiset(counts_of(s)) == s.to_multiset(),
{
    broadcast use vstd::seq_lib::group_to_multiset_ensures;
    broadcast use vstd::multiset::group_multiset_axioms;

    let m = s.to_multiset();
    let c = Seq::new(KINDS as nat, |k: int| m.count(kind_tile(k)) as u8);
    assert forall|t: Tile| counts_multiset(c).count(t) == m.count(t) by {
        lemma_counts_multiset_count(c, t);
        if is_playable(t) {
            lemma_kind_of_tile(t);
            vstd::multiset::axiom_count_le_len(m, t);
            assert(m.len() == s.len());
        } else if m.count(t) > 0 {
            let i = choose|i: int| 0 <= i < s.len() && s[i] == t;
            assert(is_playable(s[i]));
        }
    }
    assert(counts_multiset(c) =~= m);
    assert(c.len() == KINDS && counts_multiset(c) == s.to_multiset());
}

/// Completeness of a decomposition: its melds and its eye, counted twice,
/// hold exactly the tiles of the hand, none added, dropped or duplicated.
pub proof fn decomposition_uses_every_tile(hand: MahjongHand, i: int)
    requires
        0 <= i < decompositions(hand).len(),
    ensures
        match decompositions(hand)[i] {
            MahjongCombination::Melds(ms, eye) => melds_multiset(ms@).insert(eye.0).insert(eye.0)
                == hand_multiset(hand),
            _ => false,
        },
{
    broadcast use vstd::multiset::group_multiset_axioms;

    let closed = hand.closed.all();
    lemma_counts_of(closed);
    let c = counts_of(closed);
    let rs = readings(c, None, closed.len());
    crate::search::lemma_readings_sound(c, None, closed.len());
    let r = rs[i];
    assert(crate::search::reading_sound(c, None, closed.len(), r));
    let all = hand.open@ + r.0;
    let ms = [all[0], all[1], all[2], all[3]];
    assert(ms@ =~= all);
    crate::meld::lemma_melds_multiset_concat(hand.open@, r.0);
    assert(melds_multiset(ms@).insert(r.1).insert(r.1) =~= hand_multiset(hand));
}

/// Shape validity of a decomposition: each of its four melds is a run of
/// three in one suit, or three or four identical tiles.
pub proof fn decomposition_shapes_are_valid(hand: MahjongHand, i: int)
    requires
        0 <= i < decompositions(hand).len(),
    ensures
        match decompositions(hand)[i] {
            MahjongCombination::Melds(ms, _) => forall|j: int|
                0 <= j < 4 ==> meld_is_valid(#[trigger] ms@[j]),
            _ => false,
        },
{
    let closed = hand.closed.all();
    lemma_counts_of(closed);
    let c = counts_of(closed);
    let rs = readings(c, None, closed.len());
    crate::search::lemma_readings_sound(c, None, closed.len());
    let r = rs[i];
    assert(crate::search::reading_sound(c, None, closed.len(), r));
    let all = hand.open@ + r.0;
    let ms = [all[0], all[1], all[2], all[3]];
    assert(ms@ =~= all);
    assert forall|j: int| 0 <= j < 4 implies meld_is_valid(#[trigger] ms@[j]) by {
        if j >= hand.open@.len() {
            assert(all[j] == r.0[j - hand.open@.len()]);
        }
    }
}

/// A tile of a closed meld is playable.
proof fn lemma_closed_meld_tiles(m: Meld, x: Tile)
    requires
        is_closed_meld(m),
        meld_multiset(m).count(x) > 0,
    ensures
        is_playable(x),
{
    broadcast use vstd::multiset::group_multiset_axioms;

    match m {
        Meld::Sequence(a) => {
            assert(x == a[0] || x == a[1] || x == a[2]);
        },
        Meld::Triplet(a) => {
            assert(a@[1] == a@[0] && a@[2] == a@[0]);
            assert(x == a[0] || x == a[1] || x == a[2]);
        },
        Meld::Quad(_, _) => {},
    }
}

/// Closed melds hold three tiles each.
proof fn lemma_closed_melds_len(ms: Seq<Meld>)
    requires
        forall|i: int| 0 <= i < ms.len() ==> is_closed_meld(#[trigger] ms[i]),
    ensures
        melds_multiset(ms).len() == 3 * ms.len(),
    decreases ms.len(),
{
    broadcast use vstd::multiset::group_multiset_axioms;

    if ms.len() > 0 {
        assert forall|i: int| 0 <= i < ms.drop_first().len() implies is_closed_meld(
            #[trigger] ms.drop_first()[i],
        ) by {
            assert(ms.drop_first()[i] == ms[i + 1]);
        }
        lemma_closed_melds_len(ms.drop_first());
        assert(is_closed_meld(ms[0]));
    }
}

/// Every decomposition is found: whenever the concealed tiles are exactly
/// some runs and triplets, as many as the declared melds leave to be found,
/// and a pair of one playable tile, and the hand holds no more than four
/// copies of any tile, the enumeration yields a decomposition
/// with the declared melds first, then those runs and triplets in some
/// order, and that eye.
pub proof fn every_decomposition_is_found(hand: MahjongHand, ms: Seq<Meld>, e: Tile)
    requires
        hand.open@.len() + ms.len() == 4,
        forall|i: int| 0 <= i < hand.open@.len() ==> meld_is_valid(#[trigger] hand.open@[i]),
        forall|i: int| 0 <= i < ms.len() ==> is_closed_meld(#[trigger] ms[i]),
        is_playable(e),
        melds_multiset(ms).insert(e).insert(e) == hand.closed.all().to_multiset(),
        forall|t: Tile| #[trigger] hand_multiset(hand).count(t) <= 4,
    ensures
        exists|j: int|
            0 <= j < decompositions(hand).len() && match #[trigger] decompositions(hand)[j] {
                MahjongCombination::Melds(found, eye) => {
                    &&& eye.0 == e
                    &&& found@.subrange(0, hand.open@.len() as int) == hand.open@
                    &&& found@.subrange(hand.open@.len() as int, 4).to_multiset()
                        == ms.to_multiset()
                },
                _ => false,
            },
{
    broadcast use vstd::multiset::group_multiset_axioms;
    broadcast use vstd::seq_lib::group_to_multiset_ensures;

    let closed = hand.closed.all();
    lemma_closed_melds_len(ms);
    assert(closed.len() == closed.to_multiset().len());
    assert forall|i: int| 0 <= i < closed.len() implies is_playable(#[trigger] closed[i]) by {
        let x = closed[i];
        assert(closed.contains(x));
        assert(closed.to_multiset().count(x) > 0);
        if x != e {
            assert(melds_multiset(ms).count(x) > 0);
            let k = crate::search::lemma_meld_holding(ms, x);
            lemma_closed_meld_tiles(ms[k], x);
        }
    }
    assert(is_searchable(hand));
    lemma_counts_of(closed);
    let c = counts_of(closed);
    let n = closed.len();
    lemma_readings_complete(c, None, n, ms, e);
    let rs = readings(c, None, n);
    let j = choose|j: int|
        0 <= j < rs.len() && (#[trigger] rs[j]).0.to_multiset() == ms.to_multiset() && rs[j].1
            == e;
    crate::search::lemma_readings_sound(c, None, n);
    assert(crate::search::reading_sound(c, None, n, rs[j]));
    let all = hand.open@ + rs[j].0;
    let found = [all[0], all[1], all[2], all[3]];
    assert(found@ =~= all);
    assert(found@.subrange(0, hand.open@.len() as int) =~= hand.open@);
    assert(found@.subrange(hand.open@.len() as int, 4) =~= rs[j].0);
    assert(decompositions(hand)[j] == MahjongCombination::Melds(found, Eye(e)));
}

/// Determinism: two enumerations started on the same hand yield the same
/// decompositions in the same order.
pub proof fn enumeration_is_deterministic(
    hand: MahjongHand,
    first: PossibleCombinationsIterator,
    second: PossibleCombinationsIterator,
)
    requires
        first.decompositions() == decompositions(hand),
        second.decompositions() == decompositions(hand),
    ensures
        first.decompositions() == second.decompositions(),
{
}

/// A lazy, single-pass enumeration of the decompositions of a hand. Nothing
/// is computed ahead: each pull runs the backtracking search from its start,
/// passes over the decompositions already yielded, and stops at the next one,
/// so a caller that stops early never pays for the rest.
pub struct PossibleCombinationsIterator {
    counts: Vec<u8>,
    open: Vec<Meld>,
    tiles: usize,
    searchable: bool,
    index: usize,
}

impl PossibleCombinationsIterator {
    /// The decompositions this enumeration yields, in order.
    pub closed spec fn decompositions(&self) -> Seq<MahjongCombination> {
        if self.searchable {
            readings(self.counts@, None, self.tiles as nat).map_values(
                |r: (Seq<Meld>, Tile)| combine(self.open@ + r.0, r.1),
            )
        } else {
            Seq::empty()
        }
    }

    /// How many decompositions have been yielded so far.
    pub closed spec fn position(&self) -> nat {
        self.index as nat
    }

    /// The internal state is consistent.
    pub closed spec fn wf(&self) -> bool {
        self.searchable ==> {
            &&& self.counts@.len() == KINDS
            &&& self.open@.len() <= 4
            &&& self.tiles == 3 * (4 - self.open@.len()) + 2
        }
    }

    /// An enumeration that yields nothing.
    fn exhausted() -> (r: PossibleCombinationsIterator)
        ensures
            r.wf(),
            r.position() == 0,
            r.decompositions() == Seq::<MahjongCombination>::empty(),
    {
        PossibleCombinationsIterator {
            counts: Vec::new(),
            open: Vec::new(),
            tiles: 0,
            searchable: false,
            index: 0,
        }
    }

    /// The next decomposition, or `None` once all have been yielded.
    pub fn next(&mut self) -> (r: Option<MahjongCombination>)
        requires
            old(self).wf(),
        ensures
            final(self).wf(),
            final(self).decompositions() == old(self).decompositions(),
            old(self).position() < old(self).decompositions().len() ==> {
                &&& r == Some(old(self).decompositions()[old(self).position() as int])
                &&& final(self).position() == old(self).position() + 1
            },
            old(self).position() >= old(self).decompositions().len() ==> {
                &&& r is None
                &&& final(self).position() == old(self).position()
            },
    {
        if !self.searchable {
            return None;
        }
        let ghost rs = readings(self.counts@, None, self.tiles as nat);
        let mut skip = self.index;
        let found = find_nth(&mut self.counts, None, self.tiles, &mut skip);
        match found {
            Some((melds, e)) => {
                proof {
                    crate::search::lemma_readings_sound(self.counts@, None, self.tiles as nat);
                    assert(crate::search::reading_sound(self.counts@, None, self.tiles as nat, rs[self.index as int]));
                    lemma_readings_len(self.counts@, None, self.tiles as nat);
                    lemma_pow3_monotonic(self.tiles as nat, 14);
                    reveal_with_fuel(pow3, 15);
                }
                let mut all: Vec<Meld> = Vec::new();
                let mut i: usize = 0;
                while i < self.open.len()
                    invariant
                        i <= self.open@.len(),
                        all@ == self.open@.subrange(0, i as int),
                    decreases self.open@.len() - i,
                {
                    all.push(self.open[i]);
                    proof {
                        assert(self.open@.subrange(0, i + 1) =~= self.open@.subrange(0, i as int).push(self.open@[i as int]));
                    }
                    i = i + 1;
                }
                let mut j: usize = 0;
                while j < melds.len()
                    invariant
                        j <= melds@.len(),
                        all@ == self.open@ + melds@.subrange(0, j as int),
                    decreases melds@.len() - j,
                {
                    all.push(melds[j]);
                    proof {
                        assert(melds@.subrange(0, j + 1) =~= melds@.subrange(0, j as int).push(melds@[j as int]));
                    }
                    j = j + 1;
                }
                proof {
                    assert(self.open@.subrange(0, self.open@.len() as int) =~= self.open@);
                    assert(melds@.subrange(0, melds@.len() as int) =~= melds@);
                }
                self.index = self.index + 1;
                Some(MahjongCombination::Melds([all[0], all[1], all[2], all[3]], Eye(e)))
            },
            None => None,
        }
    }
}

/// The tiles of a valid meld.
fn meld_tile_vec(m: &Meld) -> (r: Vec<Tile>)
    requires
        meld_is_valid(*m),
    ensures
        r@.to_multiset() == meld_multiset(*m),
        r@.len() <= 4,
        forall|i: int| 0 <= i < r@.len() ==> is_playable(#[trigger] r@[i]),
{
    broadcast use vstd::seq_lib::group_to_multiset_ensures;
    broadcast use vstd::multiset::group_multiset_axioms;

    let mut r: Vec<Tile> = Vec::new();
    match m {
        Meld::Sequence(a) | Meld::Triplet(a) => {
            proof {
                assert(a@[1] == a[1] && a@[2] == a[2]);
            }
            r.push(a[0]);
            r.push(a[1]);
            r.push(a[2]);
            proof {
                assert(r@ =~= seq![a[0]].push(a[1]).push(a[2]));
                assert(seq![a[0]] =~= Seq::<Tile>::empty().push(a[0]));
                Seq::<Tile>::empty().to_multiset_ensures();
            }
        },
        Meld::Quad(a, _) => {
            proof {
                assert(a@[1] == a[1] && a@[2] == a[2] && a@[3] == a[3]);
            }
            r.push(a[0]);
            r.push(a[1]);
            r.push(a[2]);
            r.push(a[3]);
            proof {
                assert(r@ =~= seq![a[0]].push(a[1]).push(a[2]).push(a[3]));
                assert(seq![a[0]] =~= Seq::<Tile>::empty().push(a[0]));
                Seq::<Tile>::empty().to_multiset_ensures();
            }
        },
    }
    r
}

/// Whether no tile occurs more than four times among the concealed tiles and
/// the declared melds.
fn at_most_four_of_each(closed: &Vec<Tile>, open: &Vec<Meld>) -> (r: bool)
    requires
        closed@.len() <= 14,
        open@.len() <= 4,
        forall|i: int| 0 <= i < closed@.len() ==> is_playable(#[trigger] closed@[i]),
        forall|i: int| 0 <= i < open@.len() ==> meld_is_valid(#[trigger] open@[i]),
    ensures
        r == forall|t: Tile| #[trigger] closed@.to_multiset().add(melds_multiset(open@)).count(t)
            <= 4,
{
    broadcast use vstd::seq_lib::group_to_multiset_ensures;
    broadcast use vstd::seq_lib::lemma_multiset_commutative;
    broadcast use vstd::multiset::group_multiset_axioms;

    let mut all: Vec<Tile> = Vec::new();
    let mut i: usize = 0;
    while i < closed.len()
        invariant
            i <= closed@.len(),
            all@ == closed@.subrange(0, i as int),
        decreases closed@.len() - i,
    {
        all.push(closed[i]);
        proof {
            assert(closed@.subrange(0, i + 1) =~= closed@.subrange(0, i as int).push(closed@[i as int]));
        }
        i = i + 1;
    }
    proof {
        assert(closed@.subrange(0, closed@.len() as int) =~= closed@);
        assert(open@.subrange(0, 0) =~= Seq::<Meld>::empty());
        assert(closed@.to_multiset().add(melds_multiset(Seq::<Meld>::empty())) =~= closed@.to_multiset());
    }
    let mut j: usize = 0;
    while j < open.len()
        invariant
            j <= open@.len(),
            open@.len() <= 4,
            forall|i: int| 0 <= i < open@.len() ==> meld_is_valid(#[trigger] open@[i]),
            all@.len() <= 14 + 4 * j,
            forall|i: int| 0 <= i < all@.len() ==> is_playable(#[trigger] all@[i]),
            all@.to_multiset() == closed@.to_multiset().add(
                melds_multiset(open@.subrange(0, j as int)),
            ),
        decreases open@.len() - j,
    {
        let tiles = meld_tile_vec(&open[j]);
        let ghost before = all@;
        let mut k: usize = 0;
        while k < tiles.len()
            invariant
                k <= tiles@.len(),
                tiles@.len() <= 4,
                all@ == before + tiles@.subrange(0, k as int),
                forall|i: int| 0 <= i < tiles@.len() ==> is_playable(#[trigger] tiles@[i]),
                forall|i: int| 0 <= i < before.len() ==> is_playable(#[trigger] before[i]),
            decreases tiles@.len() - k,
        {
            all.push(tiles[k]);
            proof {
                assert(tiles@.subrange(0, k + 1) =~= tiles@.subrange(0, k as int).push(tiles@[k as int]));
            }
            k = k + 1;
        }
        proof {
            assert(tiles@.subrange(0, tiles@.len() as int) =~= tiles@);
            assert forall|i: int| 0 <= i < all@.len() implies is_playable(#[trigger] all@[i]) by {
                if i >= before.len() {
                    assert(all@[i] == tiles@[i - before.len()]);
                }
            }
            let done = open@.subrange(0, j as int);
            assert(open@.subrange(0, j + 1) =~= done + seq![open@[j as int]]);
            crate::meld::lemma_melds_multiset_concat(done, seq![open@[j as int]]);
            assert(seq![open@[j as int]].drop_first() =~= Seq::<Meld>::empty());
            assert(melds_multiset(Seq::<Meld>::empty()) == Multiset::<Tile>::empty());
            assert(melds_multiset(seq![open@[j as int]]) =~= meld_multiset(open@[j as int]));
            vstd::seq_lib::lemma_multiset_commutative(before, tiles@);
            assert(all@ == before + tiles@);
            assert(all@.to_multiset() =~= closed@.to_multiset().add(
                melds_multiset(open@.subrange(0, j + 1)),
            ));
        }
        j = j + 1;
    }
    proof {
        assert(open@.subrange(0, open@.len() as int) =~= open@);
    }
    match tile_counts(&all) {
        Some(c) => {
            let mut k: usize = 0;
            while k < KINDS
                invariant
                    k <= KINDS,
                    c@.len() == KINDS,
                    counts_multiset(c@) == closed@.to_multiset().add(melds_multiset(open@)),
                    forall|x: int| 0 <= x < k ==> c@[x] <= 4,
                decreases KINDS - k,
            {
                if c[k] > 4 {
                    proof {
                        lemma_tile_of_kind(k as int);
                        lemma_counts_multiset_count(c@, kind_tile(k as int));
                        assert(!(closed@.to_multiset().add(melds_multiset(open@)).count(
                            kind_tile(k as int),
                        ) <= 4));
                    }
                    return false;
                }
                k = k + 1;
            }
            proof {
                assert forall|t: Tile| #[trigger] closed@.to_multiset().add(
                    melds_multiset(open@),
                ).count(t) <= 4 by {
                    lemma_counts_multiset_count(c@, t);
                    if is_playable(t) {
                        lemma_kind_of_tile(t);
                    }
                }
            }
            true
        },
        None => {
            proof {
                assert(false);
            }
            false
        },
    }
}

/// Starts the lazy enumeration of the decompositions of a hand.
pub fn iter_possible_combinations(hand: &MahjongHand) -> (r: PossibleCombinationsIterator)
    ensures
        r.wf(),
        r.position() == 0,
        r.decompositions() == decompositions(*hand),
{
    if hand.open.len() > 4 {
        return PossibleCombinationsIterator::exhausted();
    }
    let mut i: usize = 0;
    while i < hand.open.len()
        invariant
            i <= hand.open@.len(),
            forall|j: int| 0 <= j < i ==> meld_is_valid(#[trigger] hand.open@[j]),
        decreases hand.open@.len() - i,
    {
        if !hand.open[i].is_valid() {
            return PossibleCombinationsIterator::exhausted();
        }
        i = i + 1;
    }
    let closed = hand.closed.tiles();
    let needed = 3 * (4 - hand.open.len()) + 2;
    if closed.len() != needed {
        return PossibleCombinationsIterator::exhausted();
    }
    match tile_counts(&closed) {
        Some(counts) => {
            proof {
                assert(hand_multiset(*hand) == closed@.to_multiset().add(melds_multiset(hand.open@)));
            }
            if !at_most_four_of_each(&closed, &hand.open) {
                return PossibleCombinationsIterator::exhausted();
            }
            proof {
                let c = counts_of(closed@);
                assert(counts@.len() == KINDS && counts_multiset(counts@) == closed@.to_multiset());
                lemma_counts_unique(c, counts@);
            }
            let mut open: Vec<Meld> = Vec::new();
            let mut j: usize = 0;
            while j < hand.open.len()
                invariant
                    j <= hand.open@.len(),
                    open@ == hand.open@.subrange(0, j as int),
                decreases hand.open@.len() - j,
            {
                open.push(hand.open[j]);
                proof {
                    assert(hand.open@.subrange(0, j + 1) =~= hand.open@.subrange(0, j as int).push(hand.open@[j as int]));
                }
                j = j + 1;
            }
            proof {
                assert(hand.open@.subrange(0, hand.open@.len() as int) =~= hand.open@);
            }
            PossibleCombinationsIterator { counts, open, tiles: needed, searchable: true, index: 0 }
        },
        None => PossibleCombinationsIterator::exhausted(),
    }
}

} // verus!
