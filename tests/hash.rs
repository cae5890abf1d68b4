use std::collections::hash_map::DefaultHasher;
use std::collections::HashSet;
use std::hash::{Hash, Hasher};

use mahjong_tiles::Tile;

#[test]
fn assert_unique_hashes() {
    let mut tiles = vec![
        Tile::EAST,
        Tile::SOUTH,
        Tile::WEST,
        Tile::NORTH,
        Tile::CENTRAL,
        Tile::PROSPERITY,
        Tile::BLANK,
        Tile::PLUM,
        Tile::ORCHID,
        Tile::CHRYSANTHEMUM,
        Tile::BAMBOO,
        Tile::SPRING,
        Tile::SUMMER,
        Tile::AUTUMN,
        Tile::WINTER,
    ];

    (1..=9).for_each(|i| {
        tiles.push(Tile::TONG(i));
        tiles.push(Tile::WAN(i));
        tiles.push(Tile::TIAO(i));
    });

    let hashes: HashSet<u64> = tiles
        .iter()
        .map(|t| {
            let mut hasher = DefaultHasher::new();
            t.hash(&mut hasher);
            hasher.finish()
        })
        .collect();

    assert_eq!(hashes.len(), tiles.len());
}

#[test]
fn equal_tiles_hash_alike() {
    let hash_of = |t: Tile| {
        let mut hasher = DefaultHasher::new();
        t.hash(&mut hasher);
        hasher.finish()
    };
    assert_eq!(hash_of(Tile::TONG(4)), hash_of(Tile::TONG(4)));
    assert_eq!(hash_of(Tile::EAST), hash_of(Tile::EAST));
}
