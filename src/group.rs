//! Tiles grouped by category, and the hand they belong to.

use vstd::prelude::*;

use crate::category::{FlowerCategory, HonourCategory, TileCategory};
use crate::tile::{tile_category, IsTile, Tile};

verus! {

/// A collection of tiles grouped by category.
#[derive(Debug, Clone, Default, PartialEq, Eq)]
pub struct GroupedTiles {
    pub winds: Vec<Tile>,
    pub dragons: Vec<Tile>,
    pub tongs: Vec<Tile>,
    pub tiaos: Vec<Tile>,
    pub wans: Vec<Tile>,
    pub flowers: Vec<Tile>,
    pub seasons: Vec<Tile>,
}

/// The tiles of `s` in category `c`, in their order.
pub open spec fn of_category(s: Seq<Tile>, c: TileCategory) -> Seq<Tile> {
    s.filter(|t: Tile| tile_category(t) == c)
}

/// The distinct tiles of `s`, each once, in the order of first appearance.
pub open spec fn distinct_of(s: Seq<Tile>) -> Seq<Tile>
    decreases s.len(),
{
    if s.len() == 0 {
        Seq::empty()
    } else {
        let before = distinct_of(s.drop_last());
        if before.contains(s.last()) {
            before
        } else {
            before.push(s.last())
        }
    }
}

impl GroupedTiles {
    /// All the tiles held, bucket by bucket: winds, dragons, tongs, wans,
    /// tiaos, flowers, seasons.
    pub open spec fn all(&self) -> Seq<Tile> {
        self.winds@ + self.dragons@ + self.tongs@ + self.wans@ + self.tiaos@ + self.flowers@
            + self.seasons@
    }

    /// Every bucket holds only tiles of its own category.
    pub open spec fn wf(&self) -> bool {
        &&& forall|i: int| 0 <= i < self.winds.len() ==> tile_category(#[trigger] self.winds@[i])
            == TileCategory::HONOUR(HonourCategory::WIND)
        &&& forall|i: int| 0 <= i < self.dragons.len() ==> tile_category(#[trigger] self.dragons@[i])
            == TileCategory::HONOUR(HonourCategory::DRAGON)
        &&& forall|i: int| 0 <= i < self.tongs.len() ==> tile_category(#[trigger] self.tongs@[i])
            == TileCategory::TONG
        &&& forall|i: int| 0 <= i < self.wans.len() ==> tile_category(#[trigger] self.wans@[i])
            == TileCategory::WAN
        &&& forall|i: int| 0 <= i < self.tiaos.len() ==> tile_category(#[trigger] self.tiaos@[i])
            == TileCategory::TIAO
        &&& forall|i: int| 0 <= i < self.flowers.len() ==> tile_category(#[trigger] self.flowers@[i])
            == TileCategory::FLOWER(FlowerCategory::FLOWER)
        &&& forall|i: int| 0 <= i < self.seasons.len() ==> tile_category(#[trigger] self.seasons@[i])
            == TileCategory::FLOWER(FlowerCategory::SEASON)
    }

    /// Get the total number of tiles in the grouped tiles.
    pub fn len(&self) -> (r: usize)
        requires
            self.all().len() <= usize::MAX,
        ensures
            r == self.all().len(),
    {
        self.winds.len() + self.dragons.len() + self.tongs.len() + self.tiaos.len()
            + self.wans.len() + self.flowers.len() + self.seasons.len()
    }

    /// All the tiles held, bucket by bucket.
    pub fn tiles(&self) -> (r: Vec<Tile>)
        ensures
            r@ == self.all(),
    {
        let mut r: Vec<Tile> = Vec::new();
        append_all(&mut r, &self.winds);
        append_all(&mut r, &self.dragons);
        append_all(&mut r, &self.tongs);
        append_all(&mut r, &self.wans);
        append_all(&mut r, &self.tiaos);
        append_all(&mut r, &self.flowers);
        append_all(&mut r, &self.seasons);
        r
    }

    /// The distinct tiles held, each once, in the order of their first
    /// appearance bucket by bucket.
    pub fn hash_set(&self) -> (r: Vec<Tile>)
        ensures
            r@ == distinct_of(self.all()),
            r@.no_duplicates(),
            r@.to_set() == self.all().to_set(),
    {
        let all = self.tiles();
        let mut r: Vec<Tile> = Vec::new();
        let mut i: usize = 0;
        while i < all.len()
            invariant
                i <= all.len(),
                all@ == self.all(),
                r@ == distinct_of(all@.subrange(0, i as int)),
                r@.no_duplicates(),
                r@.to_set() == all@.subrange(0, i as int).to_set(),
            decreases all.len() - i,
        {
            let t = all[i];
            let mut found = false;
            let mut j: usize = 0;
            while j < r.len()
                invariant
                    j <= r.len(),
                    found == exists|k: int| 0 <= k < j && r@[k] == t,
                decreases r.len() - j,
            {
                if r[j] == t {
                    found = true;
                }
                j = j + 1;
            }
            proof {
                assert(all@.subrange(0, i + 1) =~= all@.subrange(0, i as int).push(t));
                assert(all@.subrange(0, i + 1).drop_last() =~= all@.subrange(0, i as int));
                if found {
                    let k = choose|k: int| 0 <= k < r@.len() && r@[k] == t;
                    assert(r@.contains(t));
                } else {
                    assert(!r@.contains(t));
                }
                vstd::seq_lib::lemma_seq_contains_after_push(all@.subrange(0, i as int), t, t);
                all@.subrange(0, i as int).lemma_push_to_set_commute(t);
            }
            if !found {
                proof {
                    r@.lemma_push_to_set_commute(t);
                }
                r.push(t);
            } else {
                proof {
                    assert(r@.to_set().contains(t));
                    assert(r@.to_set().insert(t) =~= r@.to_set());
                }
            }
            i = i + 1;
        }
        proof {
            assert(all@.subrange(0, all.len() as int) =~= all@);
        }
        r
    }
}

/// Appends every tile of `src` to `dst`.
fn append_all(dst: &mut Vec<Tile>, src: &Vec<Tile>)
    ensures
        final(dst)@ == old(dst)@ + src@,
{
    let mut i: usize = 0;
    while i < src.len()
        invariant
            i <= src.len(),
            dst@ == old(dst)@ + src@.subrange(0, i as int),
        decreases src.len() - i,
    {
        dst.push(src[i]);
        proof {
            assert(src@.subrange(0, i + 1) =~= src@.subrange(0, i as int).push(src@[i as int]));
        }
        i = i + 1;
    }
    proof {
        assert(src@.subrange(0, src.len() as int) =~= src@);
    }
}

proof fn lemma_of_category_push(s: Seq<Tile>, t: Tile, c: TileCategory)
    ensures
        of_category(s.push(t), c) == if tile_category(t) == c {
            of_category(s, c).push(t)
        } else {
            of_category(s, c)
        },
{
    broadcast use Seq::lemma_filter_push;

}

proof fn lemma_insert_middle(a: Seq<Tile>, b: Seq<Tile>, t: Tile)
    ensures
        (a + seq![t] + b).to_multiset() == (a + b).to_multiset().insert(t),
{
    broadcast use vstd::seq_lib::group_to_multiset_ensures;
    broadcast use vstd::seq_lib::lemma_multiset_commutative;

    assert(a + seq![t] + b =~= a.push(t) + b);
    assert((a.push(t) + b).to_multiset() =~= (a + b).to_multiset().insert(t));
}

/// `g` holds the tiles `s`, each bucket those of its category in the order
/// of `s`.
pub open spec fn is_grouping_of(g: GroupedTiles, s: Seq<Tile>) -> bool {
    &&& g.winds@ == of_category(s, TileCategory::HONOUR(HonourCategory::WIND))
    &&& g.dragons@ == of_category(s, TileCategory::HONOUR(HonourCategory::DRAGON))
    &&& g.tongs@ == of_category(s, TileCategory::TONG)
    &&& g.wans@ == of_category(s, TileCategory::WAN)
    &&& g.tiaos@ == of_category(s, TileCategory::TIAO)
    &&& g.flowers@ == of_category(s, TileCategory::FLOWER(FlowerCategory::FLOWER))
    &&& g.seasons@ == of_category(s, TileCategory::FLOWER(FlowerCategory::SEASON))
}

/// Partitions tiles into category buckets, in input order, keeping duplicates.
pub fn group_by_category(tiles: &Vec<Tile>) -> (r: GroupedTiles)
    ensures
        r.wf(),
        is_grouping_of(r, tiles@),
        r.all().to_multiset() == tiles@.to_multiset(),
{
    broadcast use vstd::seq_lib::group_to_multiset_ensures;
    broadcast use vstd::seq_lib::lemma_multiset_commutative;

    let mut r = GroupedTiles {
        winds: Vec::new(),
        dragons: Vec::new(),
        tongs: Vec::new(),
        tiaos: Vec::new(),
        wans: Vec::new(),
        flowers: Vec::new(),
        seasons: Vec::new(),
    };
    let mut i: usize = 0;
    proof {
        assert(tiles@.subrange(0, 0) =~= Seq::<Tile>::empty());
        assert(r.all() =~= Seq::<Tile>::empty());
    }
    while i < tiles.len()
        invariant
            i <= tiles.len(),
            r.winds@ == of_category(
                tiles@.subrange(0, i as int),
                TileCategory::HONOUR(HonourCategory::WIND),
            ),
            r.dragons@ == of_category(
                tiles@.subrange(0, i as int),
                TileCategory::HONOUR(HonourCategory::DRAGON),
            ),
            r.tongs@ == of_category(tiles@.subrange(0, i as int), TileCategory::TONG),
            r.wans@ == of_category(tiles@.subrange(0, i as int), TileCategory::WAN),
            r.tiaos@ == of_category(tiles@.subrange(0, i as int), TileCategory::TIAO),
            r.flowers@ == of_category(
                tiles@.subrange(0, i as int),
                TileCategory::FLOWER(FlowerCategory::FLOWER),
            ),
            r.seasons@ == of_category(
                tiles@.subrange(0, i as int),
                TileCategory::FLOWER(FlowerCategory::SEASON),
            ),
            r.wf(),
            r.all().to_multiset() == tiles@.subrange(0, i as int).to_multiset(),
        decreases tiles.len() - i,
    {
        let t = tiles[i];
        let ghost before = r;
        proof {
            assert(tiles@.subrange(0, i + 1) =~= tiles@.subrange(0, i as int).push(t));
            tiles@.subrange(0, i as int).to_multiset_ensures();
            let s = tiles@.subrange(0, i as int);
            lemma_of_category_push(s, t, TileCategory::HONOUR(HonourCategory::WIND));
            lemma_of_category_push(s, t, TileCategory::HONOUR(HonourCategory::DRAGON));
            lemma_of_category_push(s, t, TileCategory::TONG);
            lemma_of_category_push(s, t, TileCategory::WAN);
            lemma_of_category_push(s, t, TileCategory::TIAO);
            lemma_of_category_push(s, t, TileCategory::FLOWER(FlowerCategory::FLOWER));
            lemma_of_category_push(s, t, TileCategory::FLOWER(FlowerCategory::SEASON));
        }
        match t.category() {
            TileCategory::HONOUR(HonourCategory::WIND) => {
                r.winds.push(t);
                proof {
                    let a = before.winds@;
                    let b = before.dragons@ + before.tongs@ + before.wans@ + before.tiaos@ + before.flowers@ + before.seasons@;
                    assert(r.all() =~= a + seq![t] + b);
                    assert(before.all() =~= a + b);
                    lemma_insert_middle(a, b, t);
                }
            },
            TileCategory::HONOUR(HonourCategory::DRAGON) => {
                r.dragons.push(t);
                proof {
                    let a = before.winds@ + before.dragons@;
                    let b = before.tongs@ + before.wans@ + before.tiaos@ + before.flowers@ + before.seasons@;
                    assert(r.all() =~= a + seq![t] + b);
                    assert(before.all() =~= a + b);
                    lemma_insert_middle(a, b, t);
                }
            },
            TileCategory::TONG => {
                r.tongs.push(t);
                proof {
                    let a = before.winds@ + before.dragons@ + before.tongs@;
                    let b = before.wans@ + before.tiaos@ + before.flowers@ + before.seasons@;
                    assert(r.all() =~= a + seq![t] + b);
                    assert(before.all() =~= a + b);
                    lemma_insert_middle(a, b, t);
                }
            },
            TileCategory::WAN => {
                r.wans.push(t);
                proof {
                    let a = before.winds@ + before.dragons@ + before.tongs@ + before.wans@;
                    let b = before.tiaos@ + before.flowers@ + before.seasons@;
                    assert(r.all() =~= a + seq![t] + b);
                    assert(before.all() =~= a + b);
                    lemma_insert_middle(a, b, t);
                }
            },
            TileCategory::TIAO => {
                r.tiaos.push(t);
                proof {
                    let a = before.winds@ + before.dragons@ + before.tongs@ + before.wans@ + before.tiaos@;
                    let b = before.flowers@ + before.seasons@;
                    assert(r.all() =~= a + seq![t] + b);
                    assert(before.all() =~= a + b);
                    lemma_insert_middle(a, b, t);
                }
            },
            TileCategory::FLOWER(FlowerCategory::FLOWER) => {
                r.flowers.push(t);
                proof {
                    let a = before.winds@ + before.dragons@ + before.tongs@ + before.wans@ + before.tiaos@ + before.flowers@;
                    let b = before.seasons@;
                    assert(r.all() =~= a + seq![t] + b);
                    assert(before.all() =~= a + b);
                    lemma_insert_middle(a, b, t);
                }
            },
            TileCategory::FLOWER(FlowerCategory::SEASON) => {
                r.seasons.push(t);
                proof {
                    let a = before.winds@ + before.dragons@ + before.tongs@ + before.wans@ + before.tiaos@ + before.flowers@ + before.seasons@;
                    let b = Seq::<Tile>::empty();
                    assert(r.all() =~= a + seq![t] + b);
                    assert(before.all() =~= a + b);
                    lemma_insert_middle(a, b, t);
                }
            },
        }
        i = i + 1;
    }
    proof {
        assert(tiles@.subrange(0, tiles.len() as int) =~= tiles@);
    }
    r
}

} // verus!
