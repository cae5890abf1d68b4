//! Mahjong tiles, and the analysis of winning hands: grouping tiles by
//! category, decomposing a hand into four melds and an eye, recognising
//! special hands, and scoring the result against named patterns.

pub mod category;
pub mod evaluate;
pub mod group;
pub mod hand;
pub mod kinds;
pub mod meld;
pub mod score;
pub mod search;
pub mod special;
pub mod tile;
pub mod value;

pub use category::{FlowerCategory, HonourCategory, TileCategory};
pub use evaluate::{find_highest_scoring_hand, ScoreTable};
pub use group::{group_by_category, GroupedTiles};
pub use hand::{iter_possible_combinations, MahjongHand, PossibleCombinationsIterator};
pub use meld::{Eye, MahjongCombination, Meld, QuadStatus};
pub use score::{score_combination, score_melds, MahjongScore, WinFlags};
pub use special::is_13_orphans;
pub use tile::{IsTile, Tile};
pub use value::HasChineseValue;
