//! The named scoring patterns that apply to a winning hand, and the rule
//! table that values them.

use vstd::prelude::*;

use crate::category::{FlowerCategory, HonourCategory, TileCategory};
use crate::meld::{Eye, MahjongCombination, Meld};
use crate::tile::{tile_category, tile_direction, IsTile, Tile};

verus! {

/// A named scoring pattern.
#[derive(Debug, Clone, Copy, PartialEq, Eq, Structural, Hash)]
#[non_exhaustive]
pub enum MahjongScore {
    ThirteenOrphans,
    MajorFourWinds,
    MajorThreeDragons,
    MinorFourWinds,
    MinorThreeDragons,
    Pure(TileCategory),
    AllTriplets,
    AllSequences,
    /// Also known as the 18 Arhats.
    AllQuads,
    MatchingSeason,
    MatchingFlower,
    AllConcealed,
    SelfDrawn,
    /// Also known as the Moon From the Bottom of the Sea.
    LastTile,
    RobbingTheKong,
}

/// The circumstances of a win, passed through to the score.
pub struct WinFlags {
    /// The winning tile was drawn from the wall.
    pub self_drawn: bool,
    /// No meld was declared openly.
    pub concealed: bool,
    /// The win came on the last tile.
    pub last_tile: bool,
    /// The win came by robbing a kong.
    pub robbed_kong: bool,
    /// The winner's seat, 1 to 4 for East to North.
    pub seat: u8,
    /// The flowers and seasons the winner has set aside.
    pub bonus: Vec<Tile>,
}

/// The tiles of a meld.
pub open spec fn meld_tiles(m: Meld) -> Seq<Tile> {
    match m {
        Meld::Sequence(a) => a@,
        Meld::Triplet(a) => a@,
        Meld::Quad(a, _) => a@,
    }
}

/// The tile a triplet or quad is made of.
pub open spec fn pung_tile(m: Meld) -> Option<Tile> {
    match m {
        Meld::Sequence(_) => None,
        Meld::Triplet(a) => Some(a[0]),
        Meld::Quad(a, _) => Some(a[0]),
    }
}

/// Some meld is a triplet or quad of `t`.
pub open spec fn has_pung(ms: Seq<Meld>, t: Tile) -> bool {
    exists|i: int| 0 <= i < ms.len() && pung_tile(#[trigger] ms[i]) == Some(t)
}

/// Triplets or quads of all four winds.
pub open spec fn is_major_four_winds(ms: Seq<Meld>) -> bool {
    has_pung(ms, Tile::EAST) && has_pung(ms, Tile::SOUTH) && has_pung(ms, Tile::WEST) && has_pung(
        ms,
        Tile::NORTH,
    )
}

/// A wind eye, triplets or quads of the three other winds, and none of the
/// eye's own wind.
pub open spec fn is_minor_four_winds(ms: Seq<Meld>, e: Tile) -> bool {
    &&& tile_category(e) == TileCategory::HONOUR(HonourCategory::WIND)
    &&& !has_pung(ms, e)
    &&& (e == Tile::EAST || has_pung(ms, Tile::EAST))
    &&& (e == Tile::SOUTH || has_pung(ms, Tile::SOUTH))
    &&& (e == Tile::WEST || has_pung(ms, Tile::WEST))
    &&& (e == Tile::NORTH || has_pung(ms, Tile::NORTH))
}

/// Triplets or quads of all three dragons.
pub open spec fn is_major_three_dragons(ms: Seq<Meld>) -> bool {
    has_pung(ms, Tile::CENTRAL) && has_pung(ms, Tile::PROSPERITY) && has_pung(ms, Tile::BLANK)
}

/// A dragon eye, triplets or quads of the two other dragons, and none of the
/// eye's own dragon.
pub open spec fn is_minor_three_dragons(ms: Seq<Meld>, e: Tile) -> bool {
    &&& tile_category(e) == TileCategory::HONOUR(HonourCategory::DRAGON)
    &&& !has_pung(ms, e)
    &&& (e == Tile::CENTRAL || has_pung(ms, Tile::CENTRAL))
    &&& (e == Tile::PROSPERITY || has_pung(ms, Tile::PROSPERITY))
    &&& (e == Tile::BLANK || has_pung(ms, Tile::BLANK))
}

/// Every tile of every meld is of category `c`.
pub open spec fn all_in_category(ms: Seq<Meld>, c: TileCategory) -> bool {
    forall|i: int, j: int|
        0 <= i < ms.len() && 0 <= j < meld_tiles(ms[i]).len() ==> tile_category(
            #[trigger] meld_tiles(ms[i])[j],
        ) == c
}

/// Every meld is a triplet or a quad.
pub open spec fn is_all_triplets(ms: Seq<Meld>) -> bool {
    ms.len() > 0 && forall|i: int| 0 <= i < ms.len() ==> !(#[trigger] ms[i] is Sequence)
}

/// Every meld is a sequence.
pub open spec fn is_all_sequences(ms: Seq<Meld>) -> bool {
    ms.len() > 0 && forall|i: int| 0 <= i < ms.len() ==> #[trigger] ms[i] is Sequence
}

/// Every meld is a quad.
pub open spec fn is_all_quads(ms: Seq<Meld>) -> bool {
    ms.len() > 0 && forall|i: int| 0 <= i < ms.len() ==> #[trigger] ms[i] is Quad
}

/// A bonus tile of category `c` set aside matches the winner's seat.
pub open spec fn has_matching_bonus(flags: WinFlags, c: FlowerCategory) -> bool {
    exists|i: int|
        0 <= i < flags.bonus@.len() && tile_category(#[trigger] flags.bonus@[i])
            == TileCategory::FLOWER(c) && tile_direction(flags.bonus@[i]) == Some(flags.seat)
}

/// `seq![t]` when `b` holds, else nothing.
#[verifier::opaque]
pub open spec fn tag_if(b: bool, t: MahjongScore) -> Seq<MahjongScore> {
    if b {
        seq![t]
    } else {
        Seq::empty()
    }
}

/// The patterns that come from the circumstances of the win.
pub open spec fn situational_tags(flags: WinFlags) -> Seq<MahjongScore> {
    tag_if(has_matching_bonus(flags, FlowerCategory::SEASON), MahjongScore::MatchingSeason)
        + tag_if(has_matching_bonus(flags, FlowerCategory::FLOWER), MahjongScore::MatchingFlower)
        + tag_if(flags.concealed, MahjongScore::AllConcealed)
        + tag_if(flags.self_drawn, MahjongScore::SelfDrawn)
        + tag_if(flags.last_tile, MahjongScore::LastTile)
        + tag_if(flags.robbed_kong, MahjongScore::RobbingTheKong)
}

/// The patterns of a hand of melds `ms` and eye `e`, in a fixed order.
pub open spec fn melds_tags(ms: Seq<Meld>, e: Tile, flags: WinFlags) -> Seq<MahjongScore> {
    tag_if(is_major_four_winds(ms), MahjongScore::MajorFourWinds)
        + tag_if(is_major_three_dragons(ms), MahjongScore::MajorThreeDragons)
        + tag_if(is_minor_four_winds(ms, e), MahjongScore::MinorFourWinds)
        + tag_if(is_minor_three_dragons(ms, e), MahjongScore::MinorThreeDragons)
        + tag_if(all_in_category(ms, tile_category(e)), MahjongScore::Pure(tile_category(e)))
        + tag_if(is_all_triplets(ms), MahjongScore::AllTriplets)
        + tag_if(is_all_sequences(ms), MahjongScore::AllSequences)
        + tag_if(is_all_quads(ms), MahjongScore::AllQuads)
        + situational_tags(flags)
}

/// The patterns of a winning combination.
pub open spec fn combination_tags(c: MahjongCombination, flags: WinFlags) -> Seq<MahjongScore> {
    match c {
        MahjongCombination::Melds(ms, eye) => melds_tags(ms@, eye.0, flags),
        MahjongCombination::ThirteenOrphans(_) => seq![MahjongScore::ThirteenOrphans]
            + situational_tags(flags),
    }
}

/// Whether some meld is a triplet or quad of `t`.
fn find_pung(melds: &[Meld], t: Tile) -> (r: bool)
    ensures
        r == has_pung(melds@, t),
{
    let mut i: usize = 0;
    while i < melds.len()
        invariant
            i <= melds@.len(),
            forall|j: int| 0 <= j < i ==> pung_tile(#[trigger] melds@[j]) != Some(t),
        decreases melds@.len() - i,
    {
        let found = match melds[i] {
            Meld::Sequence(_) => false,
            Meld::Triplet(a) => a[0] == t,
            Meld::Quad(a, _) => a[0] == t,
        };
        if found {
            return true;
        }
        i = i + 1;
    }
    false
}

/// Whether every tile of the meld is of category `c`.
fn meld_in_category(m: &Meld, c: TileCategory) -> (r: bool)
    ensures
        r == forall|j: int|
            0 <= j < meld_tiles(*m).len() ==> tile_category(#[trigger] meld_tiles(*m)[j]) == c,
{
    match m {
        Meld::Sequence(a) | Meld::Triplet(a) => {
            let r = a[0].category() == c && a[1].category() == c && a[2].category() == c;
            proof {
                if r {
                    assert forall|j: int| 0 <= j < 3 implies tile_category(#[trigger] a@[j]) == c by {
                        if j == 1 {
                        } else if j == 2 {
                        }
                    }
                }
            }
            r
        },
        Meld::Quad(a, _) => {
            let r = a[0].category() == c && a[1].category() == c && a[2].category() == c
                && a[3].category() == c;
            proof {
                if r {
                    assert forall|j: int| 0 <= j < 4 implies tile_category(#[trigger] a@[j]) == c by {
                        if j == 1 {
                        } else if j == 2 {
                        } else if j == 3 {
                        }
                    }
                }
            }
            r
        },
    }
}

/// Whether every tile of every meld is of category `c`.
fn melds_in_category(melds: &[Meld], c: TileCategory) -> (r: bool)
    ensures
        r == all_in_category(melds@, c),
{
    let mut i: usize = 0;
    while i < melds.len()
        invariant
            i <= melds@.len(),
            forall|k: int, j: int|
                0 <= k < i && 0 <= j < meld_tiles(melds@[k]).len() ==> tile_category(
                    #[trigger] meld_tiles(melds@[k])[j],
                ) == c,
        decreases melds@.len() - i,
    {
        if !meld_in_category(&melds[i], c) {
            return false;
        }
        i = i + 1;
    }
    true
}

/// Whether a bonus tile of category `c` matches the seat.
fn find_matching_bonus(flags: &WinFlags, c: FlowerCategory) -> (r: bool)
    ensures
        r == has_matching_bonus(*flags, c),
{
    let mut i: usize = 0;
    while i < flags.bonus.len()
        invariant
            i <= flags.bonus@.len(),
            forall|j: int|
                0 <= j < i ==> !(tile_category(#[trigger] flags.bonus@[j]) == TileCategory::FLOWER(c)
                    && tile_direction(flags.bonus@[j]) == Some(flags.seat)),
        decreases flags.bonus@.len() - i,
    {
        let t = flags.bonus[i];
        if t.category() == TileCategory::FLOWER(c) && t.direction() == Some(flags.seat) {
            return true;
        }
        i = i + 1;
    }
    false
}

/// Appends `t` when `b` holds.
fn push_if(tags: &mut Vec<MahjongScore>, b: bool, t: MahjongScore)
    ensures
        final(tags)@ == old(tags)@ + tag_if(b, t),
{
    reveal(tag_if);
    if b {
        tags.push(t);
        proof {
            assert(final(tags)@ =~= old(tags)@ + tag_if(b, t));
        }
    } else {
        proof {
            assert(old(tags)@ =~= old(tags)@ + tag_if(b, t));
        }
    }
}

/// Appends the patterns that come from the circumstances of the win.
fn push_situational(tags: &mut Vec<MahjongScore>, flags: &WinFlags)
    ensures
        final(tags)@ == old(tags)@ + situational_tags(*flags),
{
    let ghost start = tags@;
    let season = find_matching_bonus(flags, FlowerCategory::SEASON);
    let flower = find_matching_bonus(flags, FlowerCategory::FLOWER);
    let ghost s1 = tag_if(season, MahjongScore::MatchingSeason);
    let ghost s2 = tag_if(flower, MahjongScore::MatchingFlower);
    let ghost s3 = tag_if(flags.concealed, MahjongScore::AllConcealed);
    let ghost s4 = tag_if(flags.self_drawn, MahjongScore::SelfDrawn);
    let ghost s5 = tag_if(flags.last_tile, MahjongScore::LastTile);
    let ghost s6 = tag_if(flags.robbed_kong, MahjongScore::RobbingTheKong);
    push_if(tags, season, MahjongScore::MatchingSeason);
    push_if(tags, flower, MahjongScore::MatchingFlower);
    push_if(tags, flags.concealed, MahjongScore::AllConcealed);
    push_if(tags, flags.self_drawn, MahjongScore::SelfDrawn);
    push_if(tags, flags.last_tile, MahjongScore::LastTile);
    push_if(tags, flags.robbed_kong, MahjongScore::RobbingTheKong);
    proof {
        assert(tags@ == start + s1 + s2 + s3 + s4 + s5 + s6);
        assert(situational_tags(*flags) == s1 + s2 + s3 + s4 + s5 + s6);
        assert(start + s1 + s2 + s3 + s4 + s5 + s6 =~= start + (s1 + s2 + s3 + s4 + s5 + s6));
    }
}

/// The patterns of a hand of melds and an eye, with the circumstances of the
/// win passed through, in a fixed order.
pub fn score_melds(melds: &[Meld], eye: &Eye, flags: &WinFlags) -> (r: Vec<MahjongScore>)
    ensures
        r@ == melds_tags(melds@, eye.0, *flags),
{
    let e = eye.0;
    let east = find_pung(melds, Tile::EAST);
    let south = find_pung(melds, Tile::SOUTH);
    let west = find_pung(melds, Tile::WEST);
    let north = find_pung(melds, Tile::NORTH);
    let central = find_pung(melds, Tile::CENTRAL);
    let prosperity = find_pung(melds, Tile::PROSPERITY);
    let blank = find_pung(melds, Tile::BLANK);
    let eye_pung = find_pung(melds, e);
    let category = e.category();
    let mut no_sequence = true;
    let mut only_sequences = true;
    let mut only_quads = true;
    let mut i: usize = 0;
    while i < melds.len()
        invariant
            i <= melds@.len(),
            no_sequence == forall|j: int| 0 <= j < i ==> !(#[trigger] melds@[j] is Sequence),
            only_sequences == forall|j: int| 0 <= j < i ==> #[trigger] melds@[j] is Sequence,
            only_quads == forall|j: int| 0 <= j < i ==> #[trigger] melds@[j] is Quad,
        decreases melds@.len() - i,
    {
        match melds[i] {
            Meld::Sequence(_) => {
                no_sequence = false;
                only_quads = false;
            },
            Meld::Triplet(_) => {
                only_sequences = false;
                only_quads = false;
            },
            Meld::Quad(_, _) => {
                only_sequences = false;
            },
        }
        i = i + 1;
    }
    let some = melds.len() > 0;
    let mut tags: Vec<MahjongScore> = Vec::new();
    let ghost start = tags@;
    push_if(&mut tags, east && south && west && north, MahjongScore::MajorFourWinds);
    push_if(&mut tags, central && prosperity && blank, MahjongScore::MajorThreeDragons);
    push_if(
        &mut tags,
        category == TileCategory::HONOUR(HonourCategory::WIND) && !eye_pung
            && (e == Tile::EAST || east) && (e == Tile::SOUTH || south)
            && (e == Tile::WEST || west) && (e == Tile::NORTH || north),
        MahjongScore::MinorFourWinds,
    );
    push_if(
        &mut tags,
        category == TileCategory::HONOUR(HonourCategory::DRAGON) && !eye_pung
            && (e == Tile::CENTRAL || central) && (e == Tile::PROSPERITY || prosperity)
            && (e == Tile::BLANK || blank),
        MahjongScore::MinorThreeDragons,
    );
    push_if(&mut tags, melds_in_category(melds, category), MahjongScore::Pure(category));
    push_if(&mut tags, some && no_sequence, MahjongScore::AllTriplets);
    push_if(&mut tags, some && only_sequences, MahjongScore::AllSequences);
    push_if(&mut tags, some && only_quads, MahjongScore::AllQuads);
    push_situational(&mut tags, flags);
    proof {
        assert(tags@ =~= start + melds_tags(melds@, eye.0, *flags));
    }
    tags
}

/// The patterns of a winning combination, with the circumstances of the win
/// passed through.
pub fn score_combination(combination: &MahjongCombination, flags: &WinFlags) -> (r: Vec<
    MahjongScore,
>)
    ensures
        r@ == combination_tags(*combination, *flags),
{
    match combination {
        MahjongCombination::Melds(melds, eye) => score_melds(melds, eye, flags),
        MahjongCombination::ThirteenOrphans(_) => {
            let mut tags: Vec<MahjongScore> = Vec::new();
            tags.push(MahjongScore::ThirteenOrphans);
            let ghost start = tags@;
            push_situational(&mut tags, flags);
            proof {
                assert(tags@ =~= seq![MahjongScore::ThirteenOrphans] + situational_tags(*flags));
            }
            tags
        },
    }
}

} // verus!
