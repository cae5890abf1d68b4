use mahjong_tiles::{
    find_highest_scoring_hand, group_by_category, is_13_orphans, iter_possible_combinations,
    score_combination, score_melds, Eye, MahjongCombination, MahjongHand, MahjongScore, Meld,
    QuadStatus, ScoreTable, Tile, TileCategory, WinFlags,
};

fn no_flags() -> WinFlags {
    WinFlags {
        self_drawn: false,
        concealed: false,
        last_tile: false,
        robbed_kong: false,
        seat: 1,
        bonus: vec![],
    }
}

fn table(all_triplets: u32, pure: u32, highest_only: bool) -> ScoreTable {
    ScoreTable {
        thirteen_orphans: 13,
        major_four_winds: 13,
        major_three_dragons: 8,
        minor_four_winds: 6,
        minor_three_dragons: 5,
        pure,
        all_triplets,
        all_sequences: 1,
        all_quads: 13,
        matching_season: 1,
        matching_flower: 1,
        all_concealed: 1,
        self_drawn: 1,
        last_tile: 1,
        robbing_the_kong: 1,
        highest_only,
    }
}

fn decompositions_of(hand: &MahjongHand) -> Vec<MahjongCombination> {
    let mut it = iter_possible_combinations(hand);
    let mut out = Vec::new();
    while let Some(d) = it.next() {
        out.push(d);
    }
    out
}

fn trip(t: Tile) -> Meld {
    Meld::Triplet([t, t, t])
}

fn scenario_a_tiles() -> Vec<Tile> {
    vec![
        Tile::TONG(1),
        Tile::TONG(2),
        Tile::TONG(3),
        Tile::WAN(4),
        Tile::WAN(4),
        Tile::WAN(4),
        Tile::TIAO(5),
        Tile::TIAO(6),
        Tile::TIAO(7),
        Tile::EAST,
        Tile::EAST,
        Tile::EAST,
        Tile::CENTRAL,
        Tile::CENTRAL,
    ]
}

fn orphans_tiles() -> Vec<Tile> {
    vec![
        Tile::TIAO(1),
        Tile::TIAO(9),
        Tile::WAN(1),
        Tile::WAN(9),
        Tile::TONG(1),
        Tile::TONG(9),
        Tile::EAST,
        Tile::SOUTH,
        Tile::WEST,
        Tile::NORTH,
        Tile::CENTRAL,
        Tile::PROSPERITY,
        Tile::BLANK,
        Tile::EAST,
    ]
}

#[test]
fn scenario_mixed_hand_has_one_reading() {
    let hand = MahjongHand::new(&scenario_a_tiles(), vec![]);
    let ds = decompositions_of(&hand);
    let melds = [
        Meld::Sequence([Tile::TONG(1), Tile::TONG(2), Tile::TONG(3)]),
        trip(Tile::WAN(4)),
        Meld::Sequence([Tile::TIAO(5), Tile::TIAO(6), Tile::TIAO(7)]),
        trip(Tile::EAST),
    ];
    assert_eq!(ds, vec![MahjongCombination::Melds(melds, Eye(Tile::CENTRAL))]);
    let tags = score_melds(&melds, &Eye(Tile::CENTRAL), &no_flags());
    assert!(!tags.iter().any(|t| matches!(t, MahjongScore::Pure(_))));
    assert!(!tags.contains(&MahjongScore::AllTriplets));
    assert!(tags.is_empty());
}

#[test]
fn scenario_thirteen_orphans() {
    let hand = MahjongHand::new(&orphans_tiles(), vec![]);
    let special = is_13_orphans(&hand.closed);
    assert_eq!(special, Some(MahjongCombination::ThirteenOrphans(Eye(Tile::EAST))));
    let best = find_highest_scoring_hand(&hand, &no_flags(), &table(3, 2, false));
    assert_eq!(
        best,
        Some((MahjongCombination::ThirteenOrphans(Eye(Tile::EAST)), 13))
    );
}

#[test]
fn scenario_thirteen_tiles_do_not_win() {
    let mut tiles = scenario_a_tiles();
    tiles.pop();
    let hand = MahjongHand::new(&tiles, vec![]);
    assert!(decompositions_of(&hand).is_empty());
    assert_eq!(find_highest_scoring_hand(&hand, &no_flags(), &table(3, 2, false)), None);
}

#[test]
fn scenario_pure_triplets() {
    let tiles = vec![
        Tile::TONG(1),
        Tile::TONG(1),
        Tile::TONG(1),
        Tile::TONG(3),
        Tile::TONG(3),
        Tile::TONG(3),
        Tile::TONG(5),
        Tile::TONG(5),
        Tile::TONG(5),
        Tile::TONG(7),
        Tile::TONG(7),
        Tile::TONG(7),
        Tile::TONG(9),
        Tile::TONG(9),
    ];
    let hand = MahjongHand::new(&tiles, vec![]);
    let ds = decompositions_of(&hand);
    assert_eq!(ds.len(), 1);
    let tags = score_combination(&ds[0], &no_flags());
    assert!(tags.contains(&MahjongScore::Pure(TileCategory::TONG)));
    assert!(tags.contains(&MahjongScore::AllTriplets));
    assert_eq!(tags, vec![MahjongScore::Pure(TileCategory::TONG), MahjongScore::AllTriplets]);
    let best = find_highest_scoring_hand(&hand, &no_flags(), &table(3, 2, false));
    assert_eq!(best, Some((ds[0], 5)));
    let best_only = find_highest_scoring_hand(&hand, &no_flags(), &table(3, 2, true));
    assert_eq!(best_only, Some((ds[0], 3)));
}

#[test]
fn ambiguous_hand_enumerated_in_search_order() {
    let tiles = vec![
        Tile::TONG(1),
        Tile::TONG(1),
        Tile::TONG(1),
        Tile::TONG(2),
        Tile::TONG(2),
        Tile::TONG(2),
        Tile::TONG(3),
        Tile::TONG(3),
        Tile::TONG(3),
        Tile::WAN(5),
        Tile::WAN(5),
        Tile::WAN(5),
        Tile::EAST,
        Tile::EAST,
    ];
    let hand = MahjongHand::new(&tiles, vec![]);
    let run = Meld::Sequence([Tile::TONG(1), Tile::TONG(2), Tile::TONG(3)]);
    let expected = vec![
        MahjongCombination::Melds(
            [trip(Tile::TONG(1)), trip(Tile::TONG(2)), trip(Tile::TONG(3)), trip(Tile::WAN(5))],
            Eye(Tile::EAST),
        ),
        MahjongCombination::Melds([run, run, run, trip(Tile::WAN(5))], Eye(Tile::EAST)),
    ];
    assert_eq!(decompositions_of(&hand), expected);
    // Enumerating twice gives the same sequence.
    assert_eq!(decompositions_of(&hand), expected);
    // The first reading scores more with all-triplets valued.
    let best = find_highest_scoring_hand(&hand, &no_flags(), &table(3, 2, false));
    assert_eq!(best, Some((expected[0], 3)));
    // With every pattern worth nothing, the first reading wins the tie.
    let zero = ScoreTable {
        thirteen_orphans: 0,
        major_four_winds: 0,
        major_three_dragons: 0,
        minor_four_winds: 0,
        minor_three_dragons: 0,
        pure: 0,
        all_triplets: 0,
        all_sequences: 0,
        all_quads: 0,
        matching_season: 0,
        matching_flower: 0,
        all_concealed: 0,
        self_drawn: 0,
        last_tile: 0,
        robbing_the_kong: 0,
        highest_only: false,
    };
    assert_eq!(find_highest_scoring_hand(&hand, &no_flags(), &zero), Some((expected[0], 0)));
}

#[test]
fn pair_taken_from_three_of_a_kind() {
    let tiles = vec![
        Tile::TONG(1),
        Tile::TONG(1),
        Tile::TONG(1),
        Tile::TONG(2),
        Tile::TONG(3),
        Tile::WAN(5),
        Tile::WAN(5),
        Tile::WAN(5),
        Tile::TIAO(7),
        Tile::TIAO(7),
        Tile::TIAO(7),
        Tile::SOUTH,
        Tile::SOUTH,
        Tile::SOUTH,
    ];
    let hand = MahjongHand::new(&tiles, vec![]);
    let ds = decompositions_of(&hand);
    assert_eq!(
        ds,
        vec![MahjongCombination::Melds(
            [
                Meld::Sequence([Tile::TONG(1), Tile::TONG(2), Tile::TONG(3)]),
                trip(Tile::WAN(5)),
                trip(Tile::TIAO(7)),
                trip(Tile::SOUTH),
            ],
            Eye(Tile::TONG(1)),
        )]
    );
}

#[test]
fn open_melds_come_first() {
    let quad = Meld::Quad([Tile::WAN(2); 4], QuadStatus::Open);
    let closed = vec![
        Tile::TONG(4),
        Tile::TONG(5),
        Tile::TONG(6),
        Tile::TIAO(8),
        Tile::TIAO(8),
        Tile::TIAO(8),
        Tile::NORTH,
        Tile::NORTH,
        Tile::NORTH,
        Tile::BLANK,
        Tile::BLANK,
    ];
    let hand = MahjongHand::new(&closed, vec![quad]);
    let ds = decompositions_of(&hand);
    assert_eq!(
        ds,
        vec![MahjongCombination::Melds(
            [
                quad,
                Meld::Sequence([Tile::TONG(4), Tile::TONG(5), Tile::TONG(6)]),
                trip(Tile::TIAO(8)),
                trip(Tile::NORTH),
            ],
            Eye(Tile::BLANK),
        )]
    );
}

#[test]
fn malformed_open_meld_gives_nothing() {
    let bad = Meld::Sequence([Tile::EAST, Tile::SOUTH, Tile::WEST]);
    let closed = vec![
        Tile::TONG(4),
        Tile::TONG(5),
        Tile::TONG(6),
        Tile::TIAO(8),
        Tile::TIAO(8),
        Tile::TIAO(8),
        Tile::NORTH,
        Tile::NORTH,
        Tile::NORTH,
        Tile::BLANK,
        Tile::BLANK,
    ];
    let hand = MahjongHand::new(&closed, vec![bad]);
    assert!(decompositions_of(&hand).is_empty());
    assert!(!bad.is_valid());
    assert!(Meld::Quad([Tile::WAN(2); 4], QuadStatus::Closed).is_valid());
    assert!(!Meld::Sequence([Tile::TONG(8), Tile::TONG(9), Tile::TONG(10)]).is_valid());
    assert!(!Meld::Triplet([Tile::PLUM; 3]).is_valid());
}

#[test]
fn flowers_in_closed_tiles_give_nothing() {
    let mut tiles = scenario_a_tiles();
    tiles[0] = Tile::PLUM;
    let hand = MahjongHand::new(&tiles, vec![]);
    assert!(decompositions_of(&hand).is_empty());
}

#[test]
fn exhausted_enumeration_stays_empty() {
    let hand = MahjongHand::new(&scenario_a_tiles(), vec![]);
    let mut it = iter_possible_combinations(&hand);
    assert!(it.next().is_some());
    assert!(it.next().is_none());
    assert!(it.next().is_none());
}

#[test]
fn orphans_need_exactly_one_duplicate() {
    let mut tiles = orphans_tiles();
    tiles[13] = Tile::TONG(5);
    let hand = MahjongHand::new(&tiles, vec![]);
    assert_eq!(is_13_orphans(&hand.closed), None);
    let mut short = orphans_tiles();
    short.pop();
    assert_eq!(is_13_orphans(&group_by_category(&short)), None);
    let mut two_pairs = orphans_tiles();
    two_pairs[0] = Tile::SOUTH;
    assert_eq!(is_13_orphans(&group_by_category(&two_pairs)), None);
    let mut blank_pair = orphans_tiles();
    blank_pair[13] = Tile::BLANK;
    assert_eq!(
        is_13_orphans(&group_by_category(&blank_pair)),
        Some(MahjongCombination::ThirteenOrphans(Eye(Tile::BLANK)))
    );
}

#[test]
fn wind_and_dragon_patterns() {
    let winds = [trip(Tile::EAST), trip(Tile::SOUTH), trip(Tile::WEST), trip(Tile::NORTH)];
    assert_eq!(
        score_melds(&winds, &Eye(Tile::TONG(1)), &no_flags()),
        vec![MahjongScore::MajorFourWinds, MahjongScore::AllTriplets]
    );
    let minor_winds = [
        trip(Tile::EAST),
        trip(Tile::SOUTH),
        trip(Tile::WEST),
        Meld::Sequence([Tile::WAN(1), Tile::WAN(2), Tile::WAN(3)]),
    ];
    assert_eq!(
        score_melds(&minor_winds, &Eye(Tile::NORTH), &no_flags()),
        vec![MahjongScore::MinorFourWinds]
    );
    let dragons = [
        trip(Tile::CENTRAL),
        trip(Tile::PROSPERITY),
        Meld::Sequence([Tile::TONG(1), Tile::TONG(2), Tile::TONG(3)]),
        trip(Tile::WAN(9)),
    ];
    assert_eq!(
        score_melds(&dragons, &Eye(Tile::BLANK), &no_flags()),
        vec![MahjongScore::MinorThreeDragons]
    );
    let major_dragons = [
        trip(Tile::CENTRAL),
        trip(Tile::PROSPERITY),
        trip(Tile::BLANK),
        Meld::Sequence([Tile::TONG(1), Tile::TONG(2), Tile::TONG(3)]),
    ];
    assert_eq!(
        score_melds(&major_dragons, &Eye(Tile::WAN(2)), &no_flags()),
        vec![MahjongScore::MajorThreeDragons]
    );
}

#[test]
fn shape_patterns() {
    let runs = [
        Meld::Sequence([Tile::TIAO(1), Tile::TIAO(2), Tile::TIAO(3)]),
        Meld::Sequence([Tile::TIAO(4), Tile::TIAO(5), Tile::TIAO(6)]),
        Meld::Sequence([Tile::TIAO(7), Tile::TIAO(8), Tile::TIAO(9)]),
        Meld::Sequence([Tile::TIAO(1), Tile::TIAO(2), Tile::TIAO(3)]),
    ];
    assert_eq!(
        score_melds(&runs, &Eye(Tile::TIAO(5)), &no_flags()),
        vec![MahjongScore::Pure(TileCategory::TIAO), MahjongScore::AllSequences]
    );
    let quads = [
        Meld::Quad([Tile::WAN(1); 4], QuadStatus::Open),
        Meld::Quad([Tile::WAN(2); 4], QuadStatus::Closed),
        Meld::Quad([Tile::TONG(3); 4], QuadStatus::Open),
        Meld::Quad([Tile::EAST; 4], QuadStatus::Open),
    ];
    assert_eq!(
        score_melds(&quads, &Eye(Tile::WAN(5)), &no_flags()),
        vec![MahjongScore::AllTriplets, MahjongScore::AllQuads]
    );
}

#[test]
fn situational_patterns_pass_through() {
    let flags = WinFlags {
        self_drawn: true,
        concealed: true,
        last_tile: true,
        robbed_kong: true,
        seat: 2,
        bonus: vec![Tile::ORCHID, Tile::SUMMER, Tile::PLUM],
    };
    let melds = [
        Meld::Sequence([Tile::TONG(1), Tile::TONG(2), Tile::TONG(3)]),
        trip(Tile::WAN(4)),
        Meld::Sequence([Tile::TIAO(5), Tile::TIAO(6), Tile::TIAO(7)]),
        trip(Tile::EAST),
    ];
    assert_eq!(
        score_melds(&melds, &Eye(Tile::CENTRAL), &flags),
        vec![
            MahjongScore::MatchingSeason,
            MahjongScore::MatchingFlower,
            MahjongScore::AllConcealed,
            MahjongScore::SelfDrawn,
            MahjongScore::LastTile,
            MahjongScore::RobbingTheKong,
        ]
    );
    let other_seat = WinFlags { seat: 3, ..flags };
    assert_eq!(
        score_melds(&melds, &Eye(Tile::CENTRAL), &other_seat),
        vec![
            MahjongScore::AllConcealed,
            MahjongScore::SelfDrawn,
            MahjongScore::LastTile,
            MahjongScore::RobbingTheKong,
        ]
    );
    let orphans = MahjongCombination::ThirteenOrphans(Eye(Tile::EAST));
    assert_eq!(
        score_combination(&orphans, &WinFlags { self_drawn: true, ..no_flags() }),
        vec![MahjongScore::ThirteenOrphans, MahjongScore::SelfDrawn]
    );
}

#[test]
fn score_table_totals() {
    let t = table(3, 2, false);
    let tags = vec![MahjongScore::Pure(TileCategory::WAN), MahjongScore::AllTriplets, MahjongScore::SelfDrawn];
    assert_eq!(t.total(&tags), 6);
    assert_eq!(table(3, 2, true).total(&tags), 3);
    assert_eq!(t.total(&vec![]), 0);
    assert_eq!(t.value(MahjongScore::MajorFourWinds), 13);
}

#[test]
fn grouping_by_category() {
    let tiles = vec![
        Tile::EAST,
        Tile::TONG(1),
        Tile::SOUTH,
        Tile::TIAO(5),
        Tile::WAN(9),
        Tile::TONG(1),
        Tile::PLUM,
        Tile::SPRING,
        Tile::CENTRAL,
    ];
    let g = group_by_category(&tiles);
    assert_eq!(g.winds, vec![Tile::EAST, Tile::SOUTH]);
    assert_eq!(g.dragons, vec![Tile::CENTRAL]);
    assert_eq!(g.tongs, vec![Tile::TONG(1), Tile::TONG(1)]);
    assert_eq!(g.tiaos, vec![Tile::TIAO(5)]);
    assert_eq!(g.wans, vec![Tile::WAN(9)]);
    assert_eq!(g.flowers, vec![Tile::PLUM]);
    assert_eq!(g.seasons, vec![Tile::SPRING]);
    assert_eq!(g.len(), 9);
    assert_eq!(g.hash_set().len(), 8);
    assert_eq!(group_by_category(&vec![]).len(), 0);
}

#[test]
fn completeness_of_closed_tiles() {
    let empty = MahjongHand::new(&vec![], vec![]);
    assert!(empty.is_complete());
    let hand = MahjongHand::new(&scenario_a_tiles(), vec![]);
    assert!(!hand.is_complete());
}

fn meld_tiles(m: &Meld) -> Vec<Tile> {
    match m {
        Meld::Sequence(a) | Meld::Triplet(a) => a.to_vec(),
        Meld::Quad(a, _) => a.to_vec(),
    }
}

fn sorted_names(tiles: &[Tile]) -> Vec<String> {
    let mut names: Vec<String> = tiles.iter().map(|t| format!("{:?}", t)).collect();
    names.sort();
    names
}

#[test]
fn decompositions_use_every_tile_once() {
    let tiles = vec![
        Tile::TONG(1),
        Tile::TONG(1),
        Tile::TONG(1),
        Tile::TONG(2),
        Tile::TONG(2),
        Tile::TONG(2),
        Tile::TONG(3),
        Tile::TONG(3),
        Tile::TONG(3),
        Tile::WAN(5),
        Tile::WAN(5),
        Tile::WAN(5),
        Tile::EAST,
        Tile::EAST,
    ];
    let hand = MahjongHand::new(&tiles, vec![]);
    let ds = decompositions_of(&hand);
    assert_eq!(ds.len(), 2);
    for d in ds {
        match d {
            MahjongCombination::Melds(melds, eye) => {
                let mut used: Vec<Tile> = melds.iter().flat_map(meld_tiles).collect();
                used.push(eye.0);
                used.push(eye.0);
                assert_eq!(sorted_names(&used), sorted_names(&tiles));
                assert!(melds.iter().all(|m| m.is_valid()));
            }
            _ => panic!("a standard hand reads as melds"),
        }
    }
}

#[test]
fn major_patterns_exclude_minor_ones() {
    let dragons = [
        trip(Tile::CENTRAL),
        trip(Tile::PROSPERITY),
        trip(Tile::BLANK),
        trip(Tile::TONG(1)),
    ];
    assert_eq!(
        score_melds(&dragons, &Eye(Tile::CENTRAL), &no_flags()),
        vec![MahjongScore::MajorThreeDragons, MahjongScore::AllTriplets]
    );
    let winds = [trip(Tile::EAST), trip(Tile::SOUTH), trip(Tile::WEST), trip(Tile::NORTH)];
    assert_eq!(
        score_melds(&winds, &Eye(Tile::EAST), &no_flags()),
        vec![
            MahjongScore::MajorFourWinds,
            MahjongScore::Pure(mahjong_tiles::TileCategory::HONOUR(
                mahjong_tiles::HonourCategory::WIND
            )),
            MahjongScore::AllTriplets,
        ]
    );
}

#[test]
fn five_copies_of_a_tile_give_nothing() {
    let tiles = vec![
        Tile::CENTRAL,
        Tile::CENTRAL,
        Tile::CENTRAL,
        Tile::PROSPERITY,
        Tile::PROSPERITY,
        Tile::PROSPERITY,
        Tile::BLANK,
        Tile::BLANK,
        Tile::BLANK,
        Tile::TONG(1),
        Tile::TONG(1),
        Tile::TONG(1),
        Tile::CENTRAL,
        Tile::CENTRAL,
    ];
    let hand = MahjongHand::new(&tiles, vec![]);
    assert!(decompositions_of(&hand).is_empty());
    assert_eq!(find_highest_scoring_hand(&hand, &no_flags(), &table(3, 2, false)), None);
    // A declared quad and one more copy among the concealed tiles make five.
    let quad = Meld::Quad([Tile::WAN(2); 4], QuadStatus::Open);
    let closed = vec![
        Tile::WAN(2),
        Tile::WAN(3),
        Tile::WAN(4),
        Tile::TIAO(8),
        Tile::TIAO(8),
        Tile::TIAO(8),
        Tile::NORTH,
        Tile::NORTH,
        Tile::NORTH,
        Tile::BLANK,
        Tile::BLANK,
    ];
    assert!(decompositions_of(&MahjongHand::new(&closed, vec![quad])).is_empty());
}
