use vstd::prelude::*;

use crate::category::{FlowerCategory, HonourCategory, TileCategory};
use crate::value::{ascii_digit, ascii_digit_str, chinese_digit, chinese_digit_str};

verus! {

/// A single Mahjong tile.
#[derive(Debug, Clone, Copy, PartialEq, Eq, Structural, Hash)]
pub enum Tile {
    /// The East wind.
    EAST,
    /// The South wind.
    SOUTH,
    /// The West wind.
    WEST,
    /// The North wind.
    NORTH,
    /// The Central dragon, also known as the Red.
    CENTRAL,
    /// The Prosperity dragon, also known as the Green.
    PROSPERITY,
    /// The Blank dragon, also known as the White.
    BLANK,
    /// The Tong tiles, numbered 1 to 9.
    TONG(u8),
    /// The Wan tiles, numbered 1 to 9.
    WAN(u8),
    /// The Tiao tiles, numbered 1 to 9.
    TIAO(u8),
    /// The Plum flower for Winter.
    PLUM,
    /// The Orchid flower for Spring.
    ORCHID,
    /// The Chrysanthemum flower for Autumn.
    CHRYSANTHEMUM,
    /// The Bamboo flower for Summer.
    BAMBOO,
    /// The Spring season.
    SPRING,
    /// The Summer season.
    SUMMER,
    /// The Autumn season.
    AUTUMN,
    /// The Winter season.
    WINTER,
}

/// The category a tile belongs to.
pub open spec fn tile_category(t: Tile) -> TileCategory {
    match t {
        Tile::EAST | Tile::SOUTH | Tile::WEST | Tile::NORTH => TileCategory::HONOUR(
            HonourCategory::WIND,
        ),
        Tile::CENTRAL | Tile::PROSPERITY | Tile::BLANK => TileCategory::HONOUR(
            HonourCategory::DRAGON,
        ),
        Tile::TONG(_) => TileCategory::TONG,
        Tile::WAN(_) => TileCategory::WAN,
        Tile::TIAO(_) => TileCategory::TIAO,
        Tile::PLUM | Tile::ORCHID | Tile::CHRYSANTHEMUM | Tile::BAMBOO => TileCategory::FLOWER(
            FlowerCategory::FLOWER,
        ),
        Tile::SPRING | Tile::SUMMER | Tile::AUTUMN | Tile::WINTER => TileCategory::FLOWER(
            FlowerCategory::SEASON,
        ),
    }
}

/// The number printed on a suit tile; honours and flowers have none.
pub open spec fn tile_value(t: Tile) -> Option<u8> {
    match t {
        Tile::TONG(v) | Tile::WAN(v) | Tile::TIAO(v) => Some(v),
        _ => None,
    }
}

/// The seat direction (1 to 4, East to North) of a wind, flower or season.
pub open spec fn tile_direction(t: Tile) -> Option<u8> {
    match t {
        Tile::EAST | Tile::SPRING | Tile::PLUM => Some(1u8),
        Tile::SOUTH | Tile::SUMMER | Tile::ORCHID => Some(2u8),
        Tile::WEST | Tile::AUTUMN | Tile::CHRYSANTHEMUM => Some(3u8),
        Tile::NORTH | Tile::WINTER | Tile::BAMBOO => Some(4u8),
        _ => None,
    }
}

/// A tile exists in a real set: a suit tile carries a number from 1 to 9.
pub open spec fn tile_is_valid(t: Tile) -> bool {
    match tile_value(t) {
        Some(v) => 1 <= v <= 9,
        None => true,
    }
}

/// The suit tile of `category` numbered `value`.
pub open spec fn valued_tile(category: TileCategory, value: u8) -> Tile {
    match category {
        TileCategory::TONG => Tile::TONG(value),
        TileCategory::WAN => Tile::WAN(value),
        _ => Tile::TIAO(value),
    }
}

/// The Chinese name of a tile.
pub open spec fn tile_unique_name(t: Tile) -> Seq<char> {
    match t {
        Tile::EAST => "东"@,
        Tile::SOUTH => "南"@,
        Tile::WEST => "西"@,
        Tile::NORTH => "北"@,
        Tile::CENTRAL => "中"@,
        Tile::PROSPERITY => "发"@,
        Tile::BLANK => "白"@,
        Tile::TONG(v) | Tile::WAN(v) | Tile::TIAO(v) => seq![chinese_digit(v)] + tile_category(
            t,
        ).chinese_name_of(),
        Tile::PLUM => "梅"@,
        Tile::ORCHID => "兰"@,
        Tile::CHRYSANTHEMUM => "菊"@,
        Tile::BAMBOO => "竹"@,
        Tile::SPRING => "春"@,
        Tile::SUMMER => "夏"@,
        Tile::AUTUMN => "秋"@,
        Tile::WINTER => "冬"@,
    }
}

/// The name under which a tile's artwork is filed: the category name, a
/// dash, then the tile's own name in lower case or its number.
pub open spec fn tile_svg_name(t: Tile) -> Seq<char> {
    tile_category(t).name_of() + "-"@ + match t {
        Tile::EAST => "east"@,
        Tile::SOUTH => "south"@,
        Tile::WEST => "west"@,
        Tile::NORTH => "north"@,
        Tile::CENTRAL => "central"@,
        Tile::PROSPERITY => "prosperity"@,
        Tile::BLANK => "blank"@,
        Tile::TONG(v) | Tile::WAN(v) | Tile::TIAO(v) => seq![ascii_digit(v)],
        _ => Seq::empty(),
    }
}

/// The tile `n` places further along its suit, if there is one.
pub open spec fn tile_plus(t: Tile, n: u8) -> Option<Tile> {
    match tile_value(t) {
        Some(v) => if v + n <= 9 {
            Some(valued_tile(tile_category(t), (v + n) as u8))
        } else {
            None
        },
        None => None,
    }
}

/// The tile `n` places back along its suit, if there is one.
pub open spec fn tile_minus(t: Tile, n: u8) -> Option<Tile> {
    match tile_value(t) {
        Some(v) => if n < v {
            Some(valued_tile(tile_category(t), (v - n) as u8))
        } else {
            None
        },
        None => None,
    }
}

/// How two tiles compare: suit tiles of one suit by their numbers; any other
/// pair is unordered.
pub open spec fn tile_partial_cmp(a: Tile, b: Tile) -> Option<std::cmp::Ordering> {
    if tile_category(a) == tile_category(b) && tile_category(a).is_suit() {
        let (x, y) = (tile_value(a)->0, tile_value(b)->0);
        if x < y {
            Some(std::cmp::Ordering::Less)
        } else if x == y {
            Some(std::cmp::Ordering::Equal)
        } else {
            Some(std::cmp::Ordering::Greater)
        }
    } else {
        None
    }
}

impl Tile {
    /// Create a new Mahjong tile with a value.
    pub fn new_valued(category: TileCategory, value: u8) -> (r: Tile)
        requires
            category.is_suit(),
        ensures
            r == valued_tile(category, value),
    {
        match category {
            TileCategory::TONG => Tile::TONG(value),
            TileCategory::WAN => Tile::WAN(value),
            _ => Tile::TIAO(value),
        }
    }
}

impl std::ops::Add<u8> for Tile {
    type Output = Option<Tile>;

    fn add(self, other: u8) -> (r: Option<Tile>) {
        match self {
            Tile::TONG(v) | Tile::WAN(v) | Tile::TIAO(v) => {
                if v as u16 + other as u16 > 9 {
                    None
                } else {
                    Some(Tile::new_valued(self.category(), v + other))
                }
            },
            _ => None,
        }
    }
}

impl vstd::std_specs::ops::AddSpecImpl<u8> for Tile {
    open spec fn obeys_add_spec() -> bool {
        true
    }

    open spec fn add_req(self, rhs: u8) -> bool {
        true
    }

    open spec fn add_spec(self, rhs: u8) -> Option<Tile> {
        tile_plus(self, rhs)
    }
}

impl std::ops::Sub<u8> for Tile {
    type Output = Option<Tile>;

    fn sub(self, other: u8) -> (r: Option<Tile>) {
        match self {
            Tile::TONG(v) | Tile::WAN(v) | Tile::TIAO(v) => {
                if other < v {
                    Some(Tile::new_valued(self.category(), v - other))
                } else {
                    None
                }
            },
            _ => None,
        }
    }
}

impl vstd::std_specs::ops::SubSpecImpl<u8> for Tile {
    open spec fn obeys_sub_spec() -> bool {
        true
    }

    open spec fn sub_req(self, rhs: u8) -> bool {
        true
    }

    open spec fn sub_spec(self, rhs: u8) -> Option<Tile> {
        tile_minus(self, rhs)
    }
}

impl PartialOrd for Tile {
    fn partial_cmp(&self, other: &Tile) -> (r: Option<std::cmp::Ordering>) {
        match (self, other) {
            (Tile::TONG(x), Tile::TONG(y)) | (Tile::WAN(x), Tile::WAN(y)) | (
                Tile::TIAO(x),
                Tile::TIAO(y),
            ) => {
                if *x < *y {
                    Some(std::cmp::Ordering::Less)
                } else if *x == *y {
                    Some(std::cmp::Ordering::Equal)
                } else {
                    Some(std::cmp::Ordering::Greater)
                }
            },
            _ => None,
        }
    }
}

impl vstd::std_specs::cmp::PartialOrdSpecImpl for Tile {
    open spec fn obeys_partial_cmp_spec() -> bool {
        true
    }

    open spec fn partial_cmp_spec(&self, other: &Tile) -> Option<std::cmp::Ordering> {
        tile_partial_cmp(*self, *other)
    }
}

/// What a Mahjong tile offers: its category, number, direction and names.
pub trait IsTile: PartialOrd + Eq + std::fmt::Debug + std::hash::Hash {
    /// The category of the tile.
    spec fn spec_category(&self) -> TileCategory;

    /// The number of the tile, if it has one.
    spec fn spec_value(&self) -> Option<u8>;

    /// The direction of the tile, if it has one.
    spec fn spec_direction(&self) -> Option<u8>;

    /// Whether the tile can be named: a suit tile carries a number from 1 to 9.
    spec fn spec_is_valid(&self) -> bool;

    /// The Chinese name of the tile.
    spec fn spec_unique_name(&self) -> Seq<char>;

    /// The name of the tile's artwork.
    spec fn spec_svg_name(&self) -> Seq<char>;

    /// Returns the Chinese name of the tile.
    fn unique_name(&self) -> (r: String)
        requires
            self.spec_is_valid(),
        ensures
            r@ == self.spec_unique_name(),
    ;

    /// Returns the category of the tile.
    fn category(&self) -> (r: TileCategory)
        ensures
            r == self.spec_category(),
    ;

    /// Returns the value of the tile, if it has one.
    fn value(&self) -> (r: Option<u8>)
        ensures
            r == self.spec_value(),
    ;

    /// Returns the direction of the tile, if it has one.
    /// This only applies to the Winds, Flowers and Seasons.
    fn direction(&self) -> (r: Option<u8>)
        ensures
            r == self.spec_direction(),
    ;

    /// Returns whether the tile is an honour tile.
    fn is_honour(&self) -> (r: bool)
        ensures
            r == (self.spec_category() is HONOUR),
    {
        matches!(self.category(), TileCategory::HONOUR(_))
    }

    /// Returns whether the tile is a number tile.
    fn is_number(&self) -> (r: bool)
        ensures
            r == self.spec_category().is_suit(),
    {
        matches!(self.category(), TileCategory::TONG | TileCategory::WAN | TileCategory::TIAO)
    }

    /// Returns whether the tile is a flower tile.
    fn is_flower(&self) -> (r: bool)
        ensures
            r == (self.spec_category() is FLOWER),
    {
        matches!(self.category(), TileCategory::FLOWER(_))
    }

    /// Get the SVG name for this tile; flowers and seasons have no artwork.
    fn svg_name(&self) -> (r: String)
        requires
            self.spec_is_valid(),
            !(self.spec_category() is FLOWER),
        ensures
            r@ == self.spec_svg_name(),
    ;
}

impl IsTile for Tile {
    open spec fn spec_category(&self) -> TileCategory {
        tile_category(*self)
    }

    open spec fn spec_value(&self) -> Option<u8> {
        tile_value(*self)
    }

    open spec fn spec_direction(&self) -> Option<u8> {
        tile_direction(*self)
    }

    open spec fn spec_is_valid(&self) -> bool {
        tile_is_valid(*self)
    }

    open spec fn spec_unique_name(&self) -> Seq<char> {
        tile_unique_name(*self)
    }

    open spec fn spec_svg_name(&self) -> Seq<char> {
        tile_svg_name(*self)
    }

    /// Returns the chinese name for the tile.
    fn unique_name(&self) -> (r: String) {
        let name = match self {
            Tile::EAST => "东",
            Tile::SOUTH => "南",
            Tile::WEST => "西",
            Tile::NORTH => "北",
            Tile::CENTRAL => "中",
            Tile::PROSPERITY => "发",
            Tile::BLANK => "白",
            Tile::TIAO(v) | Tile::TONG(v) | Tile::WAN(v) => {
                let mut name = String::from_str(chinese_digit_str(*v));
                name.append(self.category().category_name_chinese());
                return name;
            },
            Tile::PLUM => "梅",
            Tile::ORCHID => "兰",
            Tile::CHRYSANTHEMUM => "菊",
            Tile::BAMBOO => "竹",
            Tile::SPRING => "春",
            Tile::SUMMER => "夏",
            Tile::AUTUMN => "秋",
            Tile::WINTER => "冬",
        };
        String::from_str(name)
    }

    fn category(&self) -> (r: TileCategory) {
        match self {
            Tile::EAST | Tile::SOUTH | Tile::WEST | Tile::NORTH => {
                TileCategory::HONOUR(HonourCategory::WIND)
            },
            Tile::CENTRAL | Tile::PROSPERITY | Tile::BLANK => {
                TileCategory::HONOUR(HonourCategory::DRAGON)
            },
            Tile::TONG(_) => TileCategory::TONG,
            Tile::WAN(_) => TileCategory::WAN,
            Tile::TIAO(_) => TileCategory::TIAO,
            Tile::PLUM | Tile::ORCHID | Tile::CHRYSANTHEMUM | Tile::BAMBOO => {
                TileCategory::FLOWER(FlowerCategory::FLOWER)
            },
            Tile::SPRING | Tile::SUMMER | Tile::AUTUMN | Tile::WINTER => {
                TileCategory::FLOWER(FlowerCategory::SEASON)
            },
        }
    }

    fn value(&self) -> (r: Option<u8>) {
        match self {
            Tile::TONG(v) | Tile::WAN(v) | Tile::TIAO(v) => Some(*v),
            _ => None,
        }
    }

    fn direction(&self) -> (r: Option<u8>) {
        match self {
            Tile::EAST | Tile::SPRING | Tile::PLUM => Some(1),
            Tile::SOUTH | Tile::SUMMER | Tile::ORCHID => Some(2),
            Tile::WEST | Tile::AUTUMN | Tile::CHRYSANTHEMUM => Some(3),
            Tile::NORTH | Tile::WINTER | Tile::BAMBOO => Some(4),
            _ => None,
        }
    }

    fn svg_name(&self) -> (r: String) {
        let mut name = String::from_str(self.category().category_name());
        name.append("-");
        let own = match self {
            Tile::EAST => "east",
            Tile::SOUTH => "south",
            Tile::WEST => "west",
            Tile::NORTH => "north",
            Tile::CENTRAL => "central",
            Tile::PROSPERITY => "prosperity",
            Tile::BLANK => "blank",
            Tile::TONG(v) | Tile::WAN(v) | Tile::TIAO(v) => ascii_digit_str(*v),
            _ => "",
        };
        name.append(own);
        name
    }
}

} // verus!
