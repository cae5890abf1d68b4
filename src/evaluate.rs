//! Finding the best-scoring reading of a hand.

use vstd::prelude::*;

use crate::hand::{decompositions, iter_possible_combinations, MahjongHand};
use crate::meld::MahjongCombination;
use crate::score::{combination_tags, score_combination, tag_if, MahjongScore, WinFlags};
use crate::special::{is_13_orphans, is_thirteen_orphans_with};

verus! {

/// The value a caller's rules give each scoring pattern, and how the values
/// of the patterns of one hand are combined.
#[derive(Debug, Clone, Copy, PartialEq, Eq)]
pub struct ScoreTable {
    pub thirteen_orphans: u32,
    pub major_four_winds: u32,
    pub major_three_dragons: u32,
    pub minor_four_winds: u32,
    pub minor_three_dragons: u32,
    /// The value of `Pure`, whatever the category.
    pub pure: u32,
    pub all_triplets: u32,
    pub all_sequences: u32,
    pub all_quads: u32,
    pub matching_season: u32,
    pub matching_flower: u32,
    pub all_concealed: u32,
    pub self_drawn: u32,
    pub last_tile: u32,
    pub robbing_the_kong: u32,
    /// Count only the most valuable pattern, rather than the sum of all.
    pub highest_only: bool,
}

impl ScoreTable {
    /// The value of one pattern.
    pub open spec fn value_of(&self, tag: MahjongScore) -> u32 {
        match tag {
            MahjongScore::ThirteenOrphans => self.thirteen_orphans,
            MahjongScore::MajorFourWinds => self.major_four_winds,
            MahjongScore::MajorThreeDragons => self.major_three_dragons,
            MahjongScore::MinorFourWinds => self.minor_four_winds,
            MahjongScore::MinorThreeDragons => self.minor_three_dragons,
            MahjongScore::Pure(_) => self.pure,
            MahjongScore::AllTriplets => self.all_triplets,
            MahjongScore::AllSequences => self.all_sequences,
            MahjongScore::AllQuads => self.all_quads,
            MahjongScore::MatchingSeason => self.matching_season,
            MahjongScore::MatchingFlower => self.matching_flower,
            MahjongScore::AllConcealed => self.all_concealed,
            MahjongScore::SelfDrawn => self.self_drawn,
            MahjongScore::LastTile => self.last_tile,
            MahjongScore::RobbingTheKong => self.robbing_the_kong,
        }
    }

    /// The sum of the values of the patterns.
    pub open spec fn sum_of(&self, tags: Seq<MahjongScore>) -> nat
        decreases tags.len(),
    {
        if tags.len() == 0 {
            0
        } else {
            self.sum_of(tags.drop_last()) + self.value_of(tags.last()) as nat
        }
    }

    /// The greatest value among the patterns, 0 for none.
    pub open spec fn max_of(&self, tags: Seq<MahjongScore>) -> nat
        decreases tags.len(),
    {
        if tags.len() == 0 {
            0
        } else {
            let rest = self.max_of(tags.drop_last());
            let v = self.value_of(tags.last()) as nat;
            if v > rest {
                v
            } else {
                rest
            }
        }
    }

    /// The total of a set of patterns under these rules.
    pub open spec fn total_of(&self, tags: Seq<MahjongScore>) -> nat {
        if self.highest_only {
            self.max_of(tags)
        } else {
            self.sum_of(tags)
        }
    }

    /// The value of one pattern.
    pub fn value(&self, tag: MahjongScore) -> (r: u32)
        ensures
            r == self.value_of(tag),
    {
        match tag {
            MahjongScore::ThirteenOrphans => self.thirteen_orphans,
            MahjongScore::MajorFourWinds => self.major_four_winds,
            MahjongScore::MajorThreeDragons => self.major_three_dragons,
            MahjongScore::MinorFourWinds => self.minor_four_winds,
            MahjongScore::MinorThreeDragons => self.minor_three_dragons,
            MahjongScore::Pure(_) => self.pure,
            MahjongScore::AllTriplets => self.all_triplets,
            MahjongScore::AllSequences => self.all_sequences,
            MahjongScore::AllQuads => self.all_quads,
            MahjongScore::MatchingSeason => self.matching_season,
            MahjongScore::MatchingFlower => self.matching_flower,
            MahjongScore::AllConcealed => self.all_concealed,
            MahjongScore::SelfDrawn => self.self_drawn,
            MahjongScore::LastTile => self.last_tile,
            MahjongScore::RobbingTheKong => self.robbing_the_kong,
        }
    }

    /// The total of a set of patterns under these rules.
    pub fn total(&self, tags: &Vec<MahjongScore>) -> (r: u64)
        requires
            tags@.len() <= u32::MAX,
        ensures
            r == self.total_of(tags@),
    {
        let mut sum: u64 = 0;
        let mut max: u64 = 0;
        let mut i: usize = 0;
        while i < tags.len()
            invariant
                i <= tags@.len(),
                tags@.len() <= u32::MAX,
                sum == self.sum_of(tags@.subrange(0, i as int)),
                max == self.max_of(tags@.subrange(0, i as int)),
                sum <= i * 0xFFFF_FFFFu64,
            decreases tags@.len() - i,
        {
            proof {
                let next = tags@.subrange(0, i + 1);
                assert(next.drop_last() =~= tags@.subrange(0, i as int));
                assert(next.last() == tags@[i as int]);
            }
            let v = self.value(tags[i]) as u64;
            sum = sum + v;
            if v > max {
                max = v;
            }
            i = i + 1;
        }
        proof {
            assert(tags@.subrange(0, tags@.len() as int) =~= tags@);
        }
        if self.highest_only {
            max
        } else {
            sum
        }
    }
}

/// The value of a winning combination under the rules.
#[verifier::opaque]
pub open spec fn combination_value(c: MahjongCombination, flags: WinFlags, table: ScoreTable) -> nat {
    table.total_of(combination_tags(c, flags))
}

/// The best of the combinations, with its value: the first of those of
/// greatest value, in order; `None` when there are none.
pub open spec fn best_of(ds: Seq<MahjongCombination>, flags: WinFlags, table: ScoreTable) -> Option<
    (MahjongCombination, nat),
>
    decreases ds.len(),
{
    if ds.len() == 0 {
        None
    } else {
        let d = ds.last();
        let v = combination_value(d, flags, table);
        match best_of(ds.drop_last(), flags, table) {
            Some((b, bv)) => if bv >= v {
                Some((b, bv))
            } else {
                Some((d, v))
            },
            None => Some((d, v)),
        }
    }
}

/// The choice among decompositions is the first of greatest value: the value
/// returned is that of a decomposition at some position, no decomposition is
/// worth more, and every one before that position is worth less.
pub proof fn best_is_first_maximum(ds: Seq<MahjongCombination>, flags: WinFlags, table: ScoreTable)
    ensures
        ds.len() == 0 ==> best_of(ds, flags, table) is None,
        ds.len() > 0 ==> exists|i: int|
            {
                &&& 0 <= i < ds.len()
                &&& best_of(ds, flags, table) == Some(
                    (ds[i], combination_value(ds[i], flags, table)),
                )
                &&& forall|j: int|
                    0 <= j < ds.len() ==> combination_value(#[trigger] ds[j], flags, table)
                        <= combination_value(ds[i], flags, table)
                &&& forall|j: int|
                    0 <= j < i ==> combination_value(#[trigger] ds[j], flags, table)
                        < combination_value(ds[i], flags, table)
            },
    decreases ds.len(),
{
    if ds.len() > 0 {
        let rest = ds.drop_last();
        best_is_first_maximum(rest, flags, table);
        let last = ds.len() - 1;
        let v = combination_value(ds[last], flags, table);
        if rest.len() == 0 {
            assert(best_of(ds, flags, table) == Some((ds[last], v)));
        } else {
            let i0 = choose|i: int|
                {
                    &&& 0 <= i < rest.len()
                    &&& best_of(rest, flags, table) == Some(
                        (rest[i], combination_value(rest[i], flags, table)),
                    )
                    &&& forall|j: int|
                        0 <= j < rest.len() ==> combination_value(#[trigger] rest[j], flags, table)
                            <= combination_value(rest[i], flags, table)
                    &&& forall|j: int|
                        0 <= j < i ==> combination_value(#[trigger] rest[j], flags, table)
                            < combination_value(rest[i], flags, table)
                };
            let bv = combination_value(rest[i0], flags, table);
            if bv >= v {
                assert forall|j: int| 0 <= j < ds.len() implies combination_value(
                    #[trigger] ds[j],
                    flags,
                    table,
                ) <= combination_value(ds[i0], flags, table) by {
                    if j < last {
                        assert(ds[j] == rest[j]);
                    }
                }
                assert forall|j: int| 0 <= j < i0 implies combination_value(
                    #[trigger] ds[j],
                    flags,
                    table,
                ) < combination_value(ds[i0], flags, table) by {
                    assert(ds[j] == rest[j]);
                }
                assert(ds[i0] == rest[i0]);
            } else {
                assert forall|j: int| 0 <= j < ds.len() implies combination_value(
                    #[trigger] ds[j],
                    flags,
                    table,
                ) <= combination_value(ds[last], flags, table) by {
                    if j < last {
                        assert(ds[j] == rest[j]);
                    }
                }
                assert forall|j: int| 0 <= j < last implies combination_value(
                    #[trigger] ds[j],
                    flags,
                    table,
                ) < combination_value(ds[last], flags, table) by {
                    assert(ds[j] == rest[j]);
                }
            }
        }
    }
}

broadcast proof fn lemma_tag_if_len(b: bool, t: MahjongScore)
    ensures
        #[trigger] tag_if(b, t).len() <= 1,
{
    reveal(tag_if);
}

/// A combination never has more than fifteen patterns.
proof fn lemma_combination_tags_len(c: MahjongCombination, flags: WinFlags)
    ensures
        combination_tags(c, flags).len() <= 15,
{
    broadcast use lemma_tag_if_len;

}

/// The result of the search with its value as a mathematical integer.
pub open spec fn with_nat_value(r: Option<(MahjongCombination, u64)>) -> Option<
    (MahjongCombination, nat),
> {
    match r {
        Some((c, v)) => Some((c, v as nat)),
        None => None,
    }
}

/// The best-scoring reading of a hand. A special hand is looked for first,
/// and wins outright; otherwise every decomposition is scored and the first
/// of greatest value is returned; `None` when the hand is not complete.
pub fn find_highest_scoring_hand(hand: &MahjongHand, flags: &WinFlags, table: &ScoreTable) -> (r:
    Option<(MahjongCombination, u64)>)
    ensures
        (exists|e| is_thirteen_orphans_with(hand.closed.all(), e)) ==> match r {
            Some((MahjongCombination::ThirteenOrphans(eye), v)) => {
                &&& is_thirteen_orphans_with(hand.closed.all(), eye.0)
                &&& v == combination_value(
                    MahjongCombination::ThirteenOrphans(eye),
                    *flags,
                    *table,
                )
            },
            _ => false,
        },
        !(exists|e| is_thirteen_orphans_with(hand.closed.all(), e)) ==> with_nat_value(r)
            == best_of(decompositions(*hand), *flags, *table),
{
    proof {
        reveal(combination_value);
    }
    if let Some(special) = is_13_orphans(&hand.closed) {
        // A special hand wins immediately, without any search.
        let tags = score_combination(&special, flags);
        proof {
            lemma_combination_tags_len(special, *flags);
        }
        let v = table.total(&tags);
        return Some((special, v));
    }
    let ghost ds = decompositions(*hand);
    let mut it = iter_possible_combinations(hand);
    let mut best: Option<(MahjongCombination, u64)> = None;
    loop
        invariant
            it.wf(),
            it.decompositions() == ds,
            it.position() <= ds.len(),
            with_nat_value(best) == best_of(ds.take(it.position() as int), *flags, *table),
        ensures
            with_nat_value(best) == best_of(ds, *flags, *table),
        decreases ds.len() - it.position(),
    {
        let ghost p = it.position() as int;
        match it.next() {
            None => {
                proof {
                    assert(ds.take(p) =~= ds);
                }
                break;
            },
            Some(d) => {
                let tags = score_combination(&d, flags);
                proof {
                    reveal(combination_value);
                    lemma_combination_tags_len(d, *flags);
                    assert(ds.take(p + 1).drop_last() =~= ds.take(p));
                    assert(ds.take(p + 1).last() == d);
                }
                let v = table.total(&tags);
                best = match best {
                    Some((b, bv)) => if bv >= v {
                        Some((b, bv))
                    } else {
                        Some((d, v))
                    },
                    None => Some((d, v)),
                };
            },
        }
    }
    best
}

} // verus!
