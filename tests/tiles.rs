use std::cmp::Ordering;

use mahjong_tiles::{
    FlowerCategory, HasChineseValue, HonourCategory, IsTile, Tile, TileCategory,
};

#[test]
fn tiles_compare_by_value() {
    assert_eq!(Tile::EAST, Tile::EAST);
    assert_ne!(Tile::EAST, Tile::SOUTH);
    assert_ne!(Tile::EAST, Tile::TONG(1));
    assert_eq!(Tile::TONG(1), Tile::TONG(1));
    assert_ne!(Tile::TONG(1), Tile::TONG(2));
    assert_ne!(Tile::TONG(1), Tile::WAN(1));
    assert_ne!(Tile::TONG(1), Tile::TIAO(1));
}

#[test]
fn honours_are_unordered() {
    assert_eq!(Tile::EAST.partial_cmp(&Tile::EAST), None);
    assert_eq!(Tile::EAST.partial_cmp(&Tile::SOUTH), None);
    assert_eq!(Tile::CENTRAL.partial_cmp(&Tile::PROSPERITY), None);
    assert!(!(Tile::EAST < Tile::EAST));
    assert!(!(Tile::EAST <= Tile::EAST));
    assert!(!(Tile::EAST < Tile::TONG(1)));
    assert!(!(Tile::CENTRAL < Tile::PROSPERITY));
    assert_eq!(Tile::PLUM.partial_cmp(&Tile::ORCHID), None);
}

#[test]
fn suit_tiles_ordered_within_suit() {
    assert_eq!(Tile::TONG(1).partial_cmp(&Tile::TONG(1)), Some(Ordering::Equal));
    assert_eq!(Tile::TONG(1).partial_cmp(&Tile::TONG(2)), Some(Ordering::Less));
    assert_eq!(Tile::TONG(9).partial_cmp(&Tile::TONG(1)), Some(Ordering::Greater));
    assert!(Tile::TONG(1) < Tile::TONG(2));
    assert!(Tile::TONG(1) <= Tile::TONG(1));
    assert!(Tile::TONG(9) >= Tile::TONG(1));
    assert_eq!(Tile::TONG(1).partial_cmp(&Tile::WAN(1)), None);
    assert!(!(Tile::TONG(9) >= Tile::WAN(1)));
    assert_eq!(Tile::TONG(1).partial_cmp(&Tile::CENTRAL), None);
}

#[test]
fn adding_to_tiles() {
    assert_eq!(Tile::TONG(1) + 1, Some(Tile::TONG(2)));
    assert_eq!(Tile::TONG(1) + 8, Some(Tile::TONG(9)));
    assert_eq!(Tile::TONG(9) + 1, None);
    assert_eq!(Tile::TONG(9) + 0, Some(Tile::TONG(9)));
    assert_eq!(Tile::WAN(1) + 2, Some(Tile::WAN(3)));
    assert_eq!(Tile::TIAO(9) + 2, None);
    assert_eq!(Tile::TONG(9) + 255, None);
    assert_eq!(Tile::PLUM + 1, None);
    assert_eq!(Tile::EAST + 1, None);
    assert_eq!(Tile::CENTRAL + 1, None);
    assert_eq!(Tile::SPRING + 1, None);
}

#[test]
fn subtracting_from_tiles() {
    assert_eq!(Tile::TONG(1) - 1, None);
    assert_eq!(Tile::TONG(1) - 0, Some(Tile::TONG(1)));
    assert_eq!(Tile::TONG(2) - 1, Some(Tile::TONG(1)));
    assert_eq!(Tile::WAN(9) - 2, Some(Tile::WAN(7)));
    assert_eq!(Tile::TIAO(9) - 8, Some(Tile::TIAO(1)));
    assert_eq!(Tile::TONG(9) - 255, None);
    assert_eq!(Tile::EAST - 1, None);
    assert_eq!(Tile::SPRING - 1, None);
}

#[test]
fn tile_metadata() {
    assert_eq!(Tile::CENTRAL.category(), TileCategory::HONOUR(HonourCategory::DRAGON));
    assert_eq!(Tile::EAST.category(), TileCategory::HONOUR(HonourCategory::WIND));
    assert_eq!(Tile::TIAO(5).category(), TileCategory::TIAO);
    assert_eq!(Tile::WAN(9).category(), TileCategory::WAN);
    assert_eq!(Tile::PLUM.category(), TileCategory::FLOWER(FlowerCategory::FLOWER));
    assert_eq!(Tile::WINTER.category(), TileCategory::FLOWER(FlowerCategory::SEASON));
    assert_eq!(Tile::CENTRAL.value(), None);
    assert_eq!(Tile::TIAO(5).value(), Some(5));
    assert_eq!(Tile::EAST.direction(), Some(1));
    assert_eq!(Tile::BAMBOO.direction(), Some(4));
    assert_eq!(Tile::SUMMER.direction(), Some(2));
    assert_eq!(Tile::BLANK.direction(), None);
    assert!(Tile::EAST.is_honour());
    assert!(!Tile::TONG(3).is_honour());
    assert!(Tile::TONG(3).is_number());
    assert!(Tile::ORCHID.is_flower());
    assert!(!Tile::BLANK.is_flower());
}

#[test]
fn svg_names() {
    assert_eq!(Tile::BLANK.svg_name(), "honour-blank");
    assert_eq!(Tile::CENTRAL.svg_name(), "honour-central");
    assert_eq!(Tile::EAST.svg_name(), "honour-east");
    assert_eq!(Tile::PROSPERITY.svg_name(), "honour-prosperity");
    assert_eq!(Tile::TIAO(5).svg_name(), "tiao-5");
    assert_eq!(Tile::TONG(1).svg_name(), "tong-1");
    assert_eq!(Tile::WAN(9).svg_name(), "wan-9");
}

#[test]
fn chinese_names() {
    assert_eq!(Tile::BLANK.unique_name(), "白");
    assert_eq!(Tile::CENTRAL.unique_name(), "中");
    assert_eq!(Tile::EAST.unique_name(), "东");
    assert_eq!(Tile::PROSPERITY.unique_name(), "发");
    assert_eq!(Tile::TIAO(5).unique_name(), "五条");
    assert_eq!(Tile::TONG(1).unique_name(), "一筒");
    assert_eq!(Tile::WAN(9).unique_name(), "九万");
    assert_eq!(Tile::ORCHID.unique_name(), "兰");
    assert_eq!(Tile::PLUM.unique_name(), "梅");
    assert_eq!(Tile::CHRYSANTHEMUM.unique_name(), "菊");
    assert_eq!(Tile::BAMBOO.unique_name(), "竹");
}

#[test]
fn category_names() {
    assert_eq!(TileCategory::TONG.category_name(), "tong");
    assert_eq!(TileCategory::HONOUR(HonourCategory::DRAGON).category_name(), "honour");
    assert_eq!(TileCategory::FLOWER(FlowerCategory::SEASON).category_name(), "season");
    assert_eq!(TileCategory::WAN.category_name_chinese(), "万");
    assert_eq!(TileCategory::HONOUR(HonourCategory::WIND).category_name_chinese(), "四风");
    assert_eq!(TileCategory::FLOWER(FlowerCategory::FLOWER).category_name_chinese(), "花");
}

#[test]
fn chinese_numerals() {
    assert_eq!(1u8.chinese_value(), '一');
    assert_eq!(5u8.chinese_value(), '五');
    assert_eq!(9u8.chinese_value(), '九');
}

#[test]
fn new_valued_tiles() {
    assert_eq!(Tile::new_valued(TileCategory::TONG, 3), Tile::TONG(3));
    assert_eq!(Tile::new_valued(TileCategory::WAN, 7), Tile::WAN(7));
    assert_eq!(Tile::new_valued(TileCategory::TIAO, 1), Tile::TIAO(1));
}
