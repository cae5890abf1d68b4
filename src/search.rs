//! The backtracking search that reads a table of tile counts as melds and an
//! eye.
//!
//! Kinds are taken in a fixed order: the tong, wan and tiao suits by
//! ascending number, then the winds and the dragons. At each step a tile of
//! the lowest kind still held must be used, by one of three moves tried in a
//! fixed order: as the eye (when no eye is taken yet and exactly two are
//! held), as a triplet (when three or more are held), or as the start of a
//! run of three in its suit. Each move removes two or three tiles, so the
//! search ends.

use vstd::multiset::Multiset;
use vstd::prelude::*;

use crate::kinds::{
    counts_multiset, is_run_start, kind_tile, lemma_counts_multiset_count, lemma_counts_zero,
    lemma_tile_of_kind, tile_kind, tile_of_kind, KINDS,
};
use crate::meld::{
    lemma_melds_multiset_prepend, lemma_run_meld, lemma_triplet_meld, meld_is_valid,
    meld_multiset, melds_multiset, run_meld, triplet_meld, Meld,
};
use crate::tile::Tile;

verus! {

/// The first kind at or after `k` of which a tile is held, or `KINDS`.
pub open spec fn first_held(c: Seq<u8>, k: int) -> int
    decreases KINDS - k,
{
    if k >= KINDS {
        KINDS as int
    } else if c[k] > 0 {
        k
    } else {
        first_held(c, k + 1)
    }
}

/// The counts with one tile less of each of the three kinds from `k` on.
pub open spec fn without_run(c: Seq<u8>, k: int) -> Seq<u8> {
    c.update(k, (c[k] - 1) as u8).update(k + 1, (c[k + 1] - 1) as u8).update(
        k + 2,
        (c[k + 2] - 1) as u8,
    )
}

/// Puts `m` in front of the melds of every reading.
pub open spec fn prepend_meld(m: Meld, rs: Seq<(Seq<Meld>, Tile)>) -> Seq<(Seq<Meld>, Tile)> {
    rs.map_values(|r: (Seq<Meld>, Tile)| (seq![m] + r.0, r.1))
}

/// Every way, in search order, to read `n` tiles counted by `c` as melds
/// and an eye, when `eye` is the eye already taken (if any). A reading is
/// the melds in the order they were found, and the eye.
pub open spec fn readings(c: Seq<u8>, eye: Option<Tile>, n: nat) -> Seq<(Seq<Meld>, Tile)>
    decreases n,
{
    let k = first_held(c, 0);
    if k >= KINDS {
        if n == 0 && eye is Some {
            seq![(Seq::<Meld>::empty(), eye->0)]
        } else {
            Seq::empty()
        }
    } else {
        let by_eye = if eye is None && c[k] == 2 && n >= 2 {
            readings(c.update(k, (c[k] - 2) as u8), Some(kind_tile(k)), (n - 2) as nat)
        } else {
            Seq::empty()
        };
        let by_triplet = if c[k] >= 3 && n >= 3 {
            prepend_meld(triplet_meld(k), readings(c.update(k, (c[k] - 3) as u8), eye, (n - 3) as nat))
        } else {
            Seq::empty()
        };
        let by_run = if is_run_start(k) && c[k + 1] > 0 && c[k + 2] > 0 && n >= 3 {
            prepend_meld(run_meld(k), readings(without_run(c, k), eye, (n - 3) as nat))
        } else {
            Seq::empty()
        };
        by_eye + by_triplet + by_run
    }
}

pub proof fn lemma_first_held(c: Seq<u8>, j: int)
    requires
        0 <= j <= KINDS,
        c.len() == KINDS,
    ensures
        j <= first_held(c, j) <= KINDS,
        first_held(c, j) < KINDS ==> c[first_held(c, j)] > 0,
        forall|i: int| j <= i < first_held(c, j) ==> c[i] == 0,
    decreases KINDS - j,
{
    if j < KINDS && c[j] == 0 {
        lemma_first_held(c, j + 1);
    }
}

/// The first kind of which a tile is held, or `KINDS` when none is.
fn find_first_held(c: &Vec<u8>) -> (k: usize)
    requires
        c@.len() == KINDS,
    ensures
        k == first_held(c@, 0),
{
    let mut k: usize = 0;
    while k < KINDS && c[k] == 0
        invariant
            k <= KINDS,
            c@.len() == KINDS,
            first_held(c@, 0) == first_held(c@, k as int),
        decreases KINDS - k,
    {
        k = k + 1;
    }
    k
}

/// Finds the reading at position `*skip` of `readings(c, eye, n)`. When
/// there are fewer readings, returns `None` and lowers `*skip` by their
/// number. The counts are the same on return as on entry.
pub(crate) fn find_nth(c: &mut Vec<u8>, eye: Option<Tile>, n: usize, skip: &mut usize) -> (r: Option<
    (Vec<Meld>, Tile),
>)
    requires
        old(c)@.len() == KINDS,
    ensures
        final(c)@ == old(c)@,
        ({
            let rs = readings(old(c)@, eye, n as nat);
            match r {
                Some(found) => *old(skip) < rs.len() && found.0@ == rs[*old(skip) as int].0
                    && found.1 == rs[*old(skip) as int].1,
                None => *old(skip) >= rs.len() && *final(skip) == *old(skip) - rs.len(),
            }
        }),
    decreases n,
{
    let ghost c0 = c@;
    let k = find_first_held(c);
    proof {
        lemma_first_held(c0, 0);
    }
    if k >= KINDS {
        if n == 0 {
            match eye {
                Some(e) => {
                    if *skip == 0 {
                        return Some((Vec::new(), e));
                    }
                    *skip = *skip - 1;
                    return None;
                },
                None => {
                    return None;
                },
            }
        }
        return None;
    }
    let ghost kk = k as int;
    let ghost by_eye = if eye is None && c0[kk] == 2 && n >= 2 {
        readings(c0.update(kk, (c0[kk] - 2) as u8), Some(kind_tile(kk)), (n - 2) as nat)
    } else {
        Seq::empty()
    };
    let ghost by_triplet = if c0[kk] >= 3 && n >= 3 {
        prepend_meld(triplet_meld(kk), readings(c0.update(kk, (c0[kk] - 3) as u8), eye, (n - 3) as nat))
    } else {
        Seq::empty()
    };
    let ghost by_run = if is_run_start(kk) && c0[kk + 1] > 0 && c0[kk + 2] > 0 && n >= 3 {
        prepend_meld(run_meld(kk), readings(without_run(c0, kk), eye, (n - 3) as nat))
    } else {
        Seq::empty()
    };
    assert(readings(c0, eye, n as nat) == by_eye + by_triplet + by_run);
    let ghost skip0 = *skip;
    let held = c[k];
    if eye.is_none() && held == 2 && n >= 2 {
        c.set(k, held - 2);
        let r = find_nth(c, Some(tile_of_kind(k)), n - 2, skip);
        c.set(k, held);
        proof {
            assert(c@ =~= c0);
        }
        if r.is_some() {
            return r;
        }
    }
    assert(*skip == skip0 - by_eye.len());
    if held >= 3 && n >= 3 {
        c.set(k, held - 3);
        let r = find_nth(c, eye, n - 3, skip);
        c.set(k, held);
        proof {
            assert(c@ =~= c0);
        }
        match r {
            Some((mut melds, e)) => {
                let ghost inner = melds@;
                let t = tile_of_kind(k);
                melds.insert(0, Meld::Triplet([t, t, t]));
                proof {
                    assert(melds@ =~= seq![triplet_meld(kk)] + inner);
                }
                return Some((melds, e));
            },
            None => {},
        }
    }
    assert(*skip == skip0 - by_eye.len() - by_triplet.len());
    if k + 2 < KINDS && is_start_of_run(k) && c[k + 1] > 0 && c[k + 2] > 0 && n >= 3 {
        let h1 = c[k + 1];
        let h2 = c[k + 2];
        c.set(k, held - 1);
        c.set(k + 1, h1 - 1);
        c.set(k + 2, h2 - 1);
        proof {
            assert(c@ =~= without_run(c0, kk));
        }
        let r = find_nth(c, eye, n - 3, skip);
        c.set(k, held);
        c.set(k + 1, h1);
        c.set(k + 2, h2);
        proof {
            assert(c@ =~= c0);
        }
        match r {
            Some((mut melds, e)) => {
                let ghost inner = melds@;
                melds.insert(
                    0,
                    Meld::Sequence([tile_of_kind(k), tile_of_kind(k + 1), tile_of_kind(k + 2)]),
                );
                proof {
                    assert(melds@ =~= seq![run_meld(kk)] + inner);
                }
                return Some((melds, e));
            },
            None => {},
        }
    }
    None
}

/// A reading of the tiles counted by `c` is sound: its melds have valid
/// shapes, they and the eye hold exactly the tiles counted, and there are as
/// many melds as the `n` tiles make.
pub open spec fn reading_sound(c: Seq<u8>, eye: Option<Tile>, n: nat, r: (Seq<Meld>, Tile)) -> bool {
    &&& forall|i: int| 0 <= i < r.0.len() ==> meld_is_valid(#[trigger] r.0[i])
    &&& match eye {
        Some(e) => {
            &&& r.1 == e
            &&& melds_multiset(r.0) == counts_multiset(c)
            &&& 3 * r.0.len() == n
        },
        None => {
            &&& melds_multiset(r.0).insert(r.1).insert(r.1) == counts_multiset(c)
            &&& 3 * r.0.len() + 2 == n
        },
    }
}

/// Taking one tile of kind `k` out of the table.
pub proof fn lemma_counts_take(c: Seq<u8>, k: int)
    requires
        c.len() == KINDS,
        0 <= k < KINDS,
        c[k] >= 1,
    ensures
        counts_multiset(c) == counts_multiset(c.update(k, (c[k] - 1) as u8)).insert(kind_tile(k)),
{
    let c1 = c.update(k, (c[k] - 1) as u8);
    crate::kinds::lemma_counts_increment(c1, k);
    assert(c1.update(k, (c1[k] + 1) as u8) =~= c);
}

pub proof fn lemma_readings_sound(c: Seq<u8>, eye: Option<Tile>, n: nat)
    requires
        c.len() == KINDS,
    ensures
        forall|j: int|
            0 <= j < readings(c, eye, n).len() ==> reading_sound(
                c,
                eye,
                n,
                #[trigger] readings(c, eye, n)[j],
            ),
    decreases n,
{
    broadcast use vstd::multiset::group_multiset_axioms;

    let rs = readings(c, eye, n);
    let k = first_held(c, 0);
    lemma_first_held(c, 0);
    if k >= KINDS {
        lemma_counts_zero(c);
        assert(melds_multiset(Seq::<Meld>::empty()) == Multiset::<Tile>::empty());
        return;
    }
    lemma_tile_of_kind(k);
    let t = kind_tile(k);
    let by_eye = if eye is None && c[k] == 2 && n >= 2 {
        readings(c.update(k, (c[k] - 2) as u8), Some(kind_tile(k)), (n - 2) as nat)
    } else {
        Seq::empty()
    };
    let by_triplet = if c[k] >= 3 && n >= 3 {
        prepend_meld(triplet_meld(k), readings(c.update(k, (c[k] - 3) as u8), eye, (n - 3) as nat))
    } else {
        Seq::empty()
    };
    let by_run = if is_run_start(k) && c[k + 1] > 0 && c[k + 2] > 0 && n >= 3 {
        prepend_meld(run_meld(k), readings(without_run(c, k), eye, (n - 3) as nat))
    } else {
        Seq::empty()
    };
    assert(rs == by_eye + by_triplet + by_run);
    assert forall|j: int| 0 <= j < rs.len() implies reading_sound(c, eye, n, #[trigger] rs[j]) by {
        if j < by_eye.len() {
            let c1 = c.update(k, (c[k] - 1) as u8);
            let c2 = c.update(k, (c[k] - 2) as u8);
            lemma_readings_sound(c2, Some(t), (n - 2) as nat);
            lemma_counts_take(c, k);
            lemma_counts_take(c1, k);
            assert(c1.update(k, (c1[k] - 1) as u8) =~= c2);
            assert(rs[j] == by_eye[j]);
        } else if j < by_eye.len() + by_triplet.len() {
            let jj = j - by_eye.len();
            let c1 = c.update(k, (c[k] - 1) as u8);
            let c2 = c.update(k, (c[k] - 2) as u8);
            let c3 = c.update(k, (c[k] - 3) as u8);
            let inner = readings(c3, eye, (n - 3) as nat);
            lemma_readings_sound(c3, eye, (n - 3) as nat);
            lemma_counts_take(c, k);
            lemma_counts_take(c1, k);
            lemma_counts_take(c2, k);
            assert(c1.update(k, (c1[k] - 1) as u8) =~= c2);
            assert(c2.update(k, (c2[k] - 1) as u8) =~= c3);
            lemma_triplet_meld(k);
            let r0 = inner[jj];
            assert(rs[j] == (seq![triplet_meld(k)] + r0.0, r0.1));
            lemma_melds_multiset_prepend(triplet_meld(k), r0.0);
            let r = rs[j];
            assert forall|i: int| 0 <= i < r.0.len() implies meld_is_valid(#[trigger] r.0[i]) by {
                if i > 0 {
                    assert(r.0[i] == r0.0[i - 1]);
                }
            }
            match eye {
                Some(e) => {
                    assert(melds_multiset(r.0) =~= counts_multiset(c));
                },
                None => {
                    assert(melds_multiset(r.0).insert(r.1).insert(r.1) =~= counts_multiset(c));
                },
            }
        } else {
            let jj = j - by_eye.len() - by_triplet.len();
            let c1 = c.update(k, (c[k] - 1) as u8);
            let c2 = c1.update(k + 1, (c1[k + 1] - 1) as u8);
            let c3 = c2.update(k + 2, (c2[k + 2] - 1) as u8);
            assert(c3 =~= without_run(c, k));
            let inner = readings(c3, eye, (n - 3) as nat);
            lemma_readings_sound(c3, eye, (n - 3) as nat);
            lemma_counts_take(c, k);
            lemma_counts_take(c1, k + 1);
            lemma_counts_take(c2, k + 2);
            lemma_run_meld(k);
            let r0 = inner[jj];
            assert(rs[j] == (seq![run_meld(k)] + r0.0, r0.1));
            lemma_melds_multiset_prepend(run_meld(k), r0.0);
            let r = rs[j];
            assert forall|i: int| 0 <= i < r.0.len() implies meld_is_valid(#[trigger] r.0[i]) by {
                if i > 0 {
                    assert(r.0[i] == r0.0[i - 1]);
                }
            }
            match eye {
                Some(e) => {
                    assert(melds_multiset(r.0) =~= counts_multiset(c));
                },
                None => {
                    assert(melds_multiset(r.0).insert(r.1).insert(r.1) =~= counts_multiset(c));
                },
            }
        }
    }
}

/// A meld that can be found among concealed tiles: a run or a triplet of
/// valid shape.
pub open spec fn is_closed_meld(m: Meld) -> bool {
    meld_is_valid(m) && !(m is Quad)
}

/// Some meld of `ms` holds the tile `t`.
pub proof fn lemma_meld_holding(ms: Seq<Meld>, t: Tile) -> (i: int)
    requires
        melds_multiset(ms).count(t) > 0,
    ensures
        0 <= i < ms.len(),
        meld_multiset(ms[i]).count(t) > 0,
    decreases ms.len(),
{
    broadcast use vstd::multiset::group_multiset_axioms;

    if meld_multiset(ms[0]).count(t) > 0 {
        0
    } else {
        let j = lemma_meld_holding(ms.drop_first(), t);
        j + 1
    }
}

/// Taking one meld out of a sequence takes its tiles out of the whole.
proof fn lemma_melds_multiset_remove(ms: Seq<Meld>, i: int)
    requires
        0 <= i < ms.len(),
    ensures
        melds_multiset(ms) == meld_multiset(ms[i]).add(melds_multiset(ms.remove(i))),
    decreases ms.len(),
{
    broadcast use vstd::multiset::group_multiset_axioms;

    if i == 0 {
        assert(ms.remove(0) =~= ms.drop_first());
    } else {
        lemma_melds_multiset_remove(ms.drop_first(), i - 1);
        assert(ms.remove(i).drop_first() =~= ms.drop_first().remove(i - 1));
        assert(ms.remove(i)[0] == ms[0]);
        assert(melds_multiset(ms) =~= meld_multiset(ms[i]).add(melds_multiset(ms.remove(i))));
    }
}

/// A closed meld that holds the lowest kind held, and whose tiles are all
/// held, is the triplet of that kind or the run that starts at it.
proof fn lemma_lowest_meld(c: Seq<u8>, m: Meld)
    requires
        c.len() == KINDS,
        first_held(c, 0) < KINDS,
        is_closed_meld(m),
        meld_multiset(m).count(kind_tile(first_held(c, 0))) > 0,
        meld_multiset(m).subset_of(counts_multiset(c)),
    ensures
        m == triplet_meld(first_held(c, 0)) || (is_run_start(first_held(c, 0)) && m == run_meld(
            first_held(c, 0),
        )),
{
    broadcast use vstd::multiset::group_multiset_axioms;
    broadcast use vstd::array::group_array_axioms;

    let k = first_held(c, 0);
    lemma_first_held(c, 0);
    lemma_tile_of_kind(k);
    let t = kind_tile(k);
    match m {
        Meld::Triplet(a) => {
            assert(a[0] == t || a[1] == t || a[2] == t);
            assert(a@[1] == a@[0] && a@[2] == a@[0]);
            assert(a =~= [t, t, t]);
        },
        Meld::Sequence(a) => {
            let s = a[0];
            assert(counts_multiset(c).count(s) > 0);
            lemma_counts_multiset_count(c, s);
            crate::kinds::lemma_kind_of_tile(s);
            crate::kinds::lemma_kind_of_tile(a[1]);
            crate::kinds::lemma_kind_of_tile(a[2]);
            assert(tile_kind(s) >= k);
            assert(a[0] == t || a[1] == t || a[2] == t);
            assert(s == t);
            assert(a =~= [kind_tile(k), kind_tile(k + 1), kind_tile(k + 2)]);
        },
        Meld::Quad(_, _) => {},
    }
}

/// Taking the tiles of one meld out of both sides of an equation.
proof fn lemma_take_meld(
    whole: Multiset<Tile>,
    meld: Multiset<Tile>,
    rest: Multiset<Tile>,
    left: Multiset<Tile>,
    eye: Option<Tile>,
    e: Tile,
)
    requires
        whole == left.add(meld),
        match eye {
            Some(_) => whole == meld.add(rest),
            None => whole == meld.add(rest).insert(e).insert(e),
        },
    ensures
        match eye {
            Some(_) => rest == left,
            None => rest.insert(e).insert(e) == left,
        },
{
    broadcast use vstd::multiset::group_multiset_axioms;

    match eye {
        Some(_) => {
            assert forall|x: Tile| #[trigger] rest.count(x) == left.count(x) by {
                assert(whole.count(x) == left.count(x) + meld.count(x));
                assert(whole.count(x) == meld.count(x) + rest.count(x));
            }
            assert(rest =~= left);
        },
        None => {
            assert forall|x: Tile| #[trigger] rest.insert(e).insert(e).count(x) == left.count(x) by {
                assert(whole.count(x) == left.count(x) + meld.count(x));
                assert(whole.count(x) == meld.add(rest).insert(e).insert(e).count(x));
                assert(meld.add(rest).insert(e).insert(e).count(x) == meld.count(x) + rest.insert(
                    e,
                ).insert(e).count(x));
            }
            assert(rest.insert(e).insert(e) =~= left);
        },
    }
}

/// Taking the eye out of both sides of an equation.
proof fn lemma_take_eye(a: Multiset<Tile>, b: Multiset<Tile>, t: Tile)
    requires
        a.insert(t).insert(t) == b.insert(t).insert(t),
    ensures
        a == b,
{
    broadcast use vstd::multiset::group_multiset_axioms;

    assert forall|x: Tile| #[trigger] a.count(x) == b.count(x) by {
        assert(a.insert(t).insert(t).count(x) == b.insert(t).insert(t).count(x));
        if x == t {
            vstd::multiset::lemma_insert_increases_count_by_1(a, t);
            vstd::multiset::lemma_insert_increases_count_by_1(a.insert(t), t);
            vstd::multiset::lemma_insert_increases_count_by_1(b, t);
            vstd::multiset::lemma_insert_increases_count_by_1(b.insert(t), t);
        } else {
            vstd::multiset::lemma_insert_other_elements_unchanged(a, t, x);
            vstd::multiset::lemma_insert_other_elements_unchanged(a.insert(t), t, x);
            vstd::multiset::lemma_insert_other_elements_unchanged(b, t, x);
            vstd::multiset::lemma_insert_other_elements_unchanged(b.insert(t), t, x);
        }
    }
    assert(a =~= b);
}

/// `ms` and `e` are a reading of the `n` tiles counted by `c` as closed
/// melds and an eye, when `eye` is the eye already taken (if any).
pub open spec fn is_reading_of(c: Seq<u8>, eye: Option<Tile>, n: nat, ms: Seq<Meld>, e: Tile) -> bool {
    &&& c.len() == KINDS
    &&& forall|i: int| 0 <= i < ms.len() ==> is_closed_meld(#[trigger] ms[i])
    &&& match eye {
        Some(x) => {
            &&& e == x
            &&& melds_multiset(ms) == counts_multiset(c)
            &&& 3 * ms.len() == n
        },
        None => {
            &&& melds_multiset(ms).insert(e).insert(e) == counts_multiset(c)
            &&& 3 * ms.len() + 2 == n
        },
    }
}

/// Some reading of `rs` has the melds of `ms`, in some order, and eye `e`.
pub open spec fn is_found_in(rs: Seq<(Seq<Meld>, Tile)>, ms: Seq<Meld>, e: Tile) -> bool {
    exists|j: int|
        0 <= j < rs.len() && (#[trigger] rs[j]).0.to_multiset() == ms.to_multiset() && rs[j].1
            == e
}

/// The readings of a table of counts, split by the first move.
proof fn lemma_readings_split(c: Seq<u8>, eye: Option<Tile>, n: nat)
    requires
        c.len() == KINDS,
        first_held(c, 0) < KINDS,
    ensures
        ({
            let k = first_held(c, 0);
            let by_eye = if eye is None && c[k] == 2 && n >= 2 {
                readings(c.update(k, (c[k] - 2) as u8), Some(kind_tile(k)), (n - 2) as nat)
            } else {
                Seq::empty()
            };
            let by_triplet = if c[k] >= 3 && n >= 3 {
                prepend_meld(
                    triplet_meld(k),
                    readings(c.update(k, (c[k] - 3) as u8), eye, (n - 3) as nat),
                )
            } else {
                Seq::empty()
            };
            let by_run = if is_run_start(k) && c[k + 1] > 0 && c[k + 2] > 0 && n >= 3 {
                prepend_meld(run_meld(k), readings(without_run(c, k), eye, (n - 3) as nat))
            } else {
                Seq::empty()
            };
            readings(c, eye, n) == by_eye + by_triplet + by_run
        }),
{
}

/// The meld `ms[i]` taken out of a reading leaves a reading of what
/// remains, once its tiles `meld` are taken from the table `c` to give `left`.
proof fn lemma_reading_without(
    c: Seq<u8>,
    eye: Option<Tile>,
    n: nat,
    ms: Seq<Meld>,
    e: Tile,
    i: int,
    left: Seq<u8>,
)
    requires
        is_reading_of(c, eye, n, ms, e),
        0 <= i < ms.len(),
        left.len() == KINDS,
        counts_multiset(c) == counts_multiset(left).add(meld_multiset(ms[i])),
    ensures
        is_reading_of(left, eye, (n - 3) as nat, ms.remove(i), e),
        ms.to_multiset() == ms.remove(i).to_multiset().insert(ms[i]),
        n >= 3,
{
    broadcast use vstd::multiset::group_multiset_axioms;
    broadcast use vstd::seq_lib::group_to_multiset_ensures;

    let rest = ms.remove(i);
    lemma_melds_multiset_remove(ms, i);
    assert forall|j: int| 0 <= j < rest.len() implies is_closed_meld(#[trigger] rest[j]) by {
        if j < i {
            assert(rest[j] == ms[j]);
        } else {
            assert(rest[j] == ms[j + 1]);
        }
    }
    assert(ms.to_multiset() =~= rest.to_multiset().insert(ms[i]));
    lemma_take_meld(
        counts_multiset(c),
        meld_multiset(ms[i]),
        melds_multiset(rest),
        counts_multiset(left),
        eye,
        e,
    );
}

/// Completeness when the lowest kind is used by a triplet of the reading.
proof fn lemma_complete_by_triplet(
    c: Seq<u8>,
    eye: Option<Tile>,
    n: nat,
    ms: Seq<Meld>,
    e: Tile,
    i: int,
)
    requires
        is_reading_of(c, eye, n, ms, e),
        first_held(c, 0) < KINDS,
        0 <= i < ms.len(),
        ms[i] == triplet_meld(first_held(c, 0)),
    ensures
        is_found_in(readings(c, eye, n), ms, e),
    decreases n, 1nat,
{
    broadcast use vstd::multiset::group_multiset_axioms;
    broadcast use vstd::seq_lib::group_to_multiset_ensures;
    broadcast use vstd::seq_lib::lemma_multiset_commutative;

    let k = first_held(c, 0);
    lemma_first_held(c, 0);
    lemma_tile_of_kind(k);
    let t = kind_tile(k);
    let m = ms[i];
    lemma_triplet_meld(k);
    lemma_counts_multiset_count(c, t);
    lemma_melds_multiset_remove(ms, i);
    assert(meld_multiset(m).count(t) == 3);
    assert(counts_multiset(c).count(t) >= 3);
    let c1 = c.update(k, (c[k] - 1) as u8);
    let c2 = c.update(k, (c[k] - 2) as u8);
    let c3 = c.update(k, (c[k] - 3) as u8);
    lemma_counts_take(c, k);
    lemma_counts_take(c1, k);
    lemma_counts_take(c2, k);
    assert(c1.update(k, (c1[k] - 1) as u8) =~= c2);
    assert(c2.update(k, (c2[k] - 1) as u8) =~= c3);
    assert(counts_multiset(c) =~= counts_multiset(c3).add(meld_multiset(m)));
    lemma_reading_without(c, eye, n, ms, e, i, c3);
    let rest = ms.remove(i);
    lemma_readings_complete(c3, eye, (n - 3) as nat, rest, e);
    let inner = readings(c3, eye, (n - 3) as nat);
    let jj = choose|jj: int|
        0 <= jj < inner.len() && (#[trigger] inner[jj]).0.to_multiset() == rest.to_multiset()
            && inner[jj].1 == e;
    lemma_readings_split(c, eye, n);
    let by_eye = if eye is None && c[k] == 2 && n >= 2 {
        readings(c.update(k, (c[k] - 2) as u8), Some(kind_tile(k)), (n - 2) as nat)
    } else {
        Seq::empty()
    };
    let by_triplet = prepend_meld(triplet_meld(k), inner);
    let rs = readings(c, eye, n);
    let j = by_eye.len() + jj;
    assert(rs[j] == by_triplet[jj]);
    assert(rs[j] == (seq![m] + inner[jj].0, e));
    assert((seq![m] + inner[jj].0).to_multiset() =~= ms.to_multiset());
    assert(0 <= j < rs.len() && rs[j].0.to_multiset() == ms.to_multiset() && rs[j].1 == e);
}

/// Completeness when the lowest kind starts a run of the reading.
proof fn lemma_complete_by_run(c: Seq<u8>, eye: Option<Tile>, n: nat, ms: Seq<Meld>, e: Tile, i: int)
    requires
        is_reading_of(c, eye, n, ms, e),
        first_held(c, 0) < KINDS,
        is_run_start(first_held(c, 0)),
        0 <= i < ms.len(),
        ms[i] == run_meld(first_held(c, 0)),
    ensures
        is_found_in(readings(c, eye, n), ms, e),
    decreases n, 1nat,
{
    broadcast use vstd::multiset::group_multiset_axioms;
    broadcast use vstd::seq_lib::group_to_multiset_ensures;
    broadcast use vstd::seq_lib::lemma_multiset_commutative;

    let k = first_held(c, 0);
    lemma_first_held(c, 0);
    lemma_tile_of_kind(k);
    lemma_tile_of_kind(k + 1);
    lemma_tile_of_kind(k + 2);
    let m = ms[i];
    lemma_run_meld(k);
    lemma_melds_multiset_remove(ms, i);
    lemma_counts_multiset_count(c, kind_tile(k));
    lemma_counts_multiset_count(c, kind_tile(k + 1));
    lemma_counts_multiset_count(c, kind_tile(k + 2));
    assert(meld_multiset(m).count(kind_tile(k + 1)) > 0);
    assert(meld_multiset(m).count(kind_tile(k + 2)) > 0);
    assert(counts_multiset(c).count(kind_tile(k + 1)) > 0);
    assert(counts_multiset(c).count(kind_tile(k + 2)) > 0);
    let c1 = c.update(k, (c[k] - 1) as u8);
    let c2 = c1.update(k + 1, (c1[k + 1] - 1) as u8);
    let c3 = c2.update(k + 2, (c2[k + 2] - 1) as u8);
    assert(c3 =~= without_run(c, k));
    lemma_counts_take(c, k);
    lemma_counts_take(c1, k + 1);
    lemma_counts_take(c2, k + 2);
    assert(counts_multiset(c) =~= counts_multiset(c3).add(meld_multiset(m)));
    lemma_reading_without(c, eye, n, ms, e, i, c3);
    let rest = ms.remove(i);
    lemma_readings_complete(c3, eye, (n - 3) as nat, rest, e);
    let inner = readings(c3, eye, (n - 3) as nat);
    let jj = choose|jj: int|
        0 <= jj < inner.len() && (#[trigger] inner[jj]).0.to_multiset() == rest.to_multiset()
            && inner[jj].1 == e;
    lemma_readings_split(c, eye, n);
    let by_eye = if eye is None && c[k] == 2 && n >= 2 {
        readings(c.update(k, (c[k] - 2) as u8), Some(kind_tile(k)), (n - 2) as nat)
    } else {
        Seq::empty()
    };
    let by_triplet = if c[k] >= 3 && n >= 3 {
        prepend_meld(triplet_meld(k), readings(c.update(k, (c[k] - 3) as u8), eye, (n - 3) as nat))
    } else {
        Seq::empty()
    };
    let by_run = prepend_meld(run_meld(k), inner);
    let rs = readings(c, eye, n);
    let j = by_eye.len() + by_triplet.len() + jj;
    assert(rs[j] == by_run[jj]);
    assert(rs[j] == (seq![m] + inner[jj].0, e));
    assert((seq![m] + inner[jj].0).to_multiset() =~= ms.to_multiset());
    assert(0 <= j < rs.len() && rs[j].0.to_multiset() == ms.to_multiset() && rs[j].1 == e);
}

/// Completeness when no meld of the reading holds the lowest kind: it is
/// the eye.
proof fn lemma_complete_by_eye(c: Seq<u8>, eye: Option<Tile>, n: nat, ms: Seq<Meld>, e: Tile)
    requires
        is_reading_of(c, eye, n, ms, e),
        first_held(c, 0) < KINDS,
        melds_multiset(ms).count(kind_tile(first_held(c, 0))) == 0,
    ensures
        is_found_in(readings(c, eye, n), ms, e),
    decreases n, 1nat,
{
    broadcast use vstd::multiset::group_multiset_axioms;

    let k = first_held(c, 0);
    lemma_first_held(c, 0);
    lemma_tile_of_kind(k);
    let t = kind_tile(k);
    lemma_counts_multiset_count(c, t);
    assert(eye is None);
    assert(e == t);
    assert(c[k] == 2);
    let c1 = c.update(k, (c[k] - 1) as u8);
    let c2 = c.update(k, (c[k] - 2) as u8);
    lemma_counts_take(c, k);
    lemma_counts_take(c1, k);
    assert(c1.update(k, (c1[k] - 1) as u8) =~= c2);
    lemma_take_eye(melds_multiset(ms), counts_multiset(c2), t);
    lemma_readings_complete(c2, Some(t), (n - 2) as nat, ms, e);
    lemma_readings_split(c, eye, n);
    let by_eye = readings(c2, Some(t), (n - 2) as nat);
    let rs = readings(c, eye, n);
    let jj = choose|jj: int|
        0 <= jj < by_eye.len() && (#[trigger] by_eye[jj]).0.to_multiset() == ms.to_multiset()
            && by_eye[jj].1 == e;
    assert(rs[jj] == by_eye[jj]);
    assert(0 <= jj < rs.len() && rs[jj].0.to_multiset() == ms.to_multiset() && rs[jj].1 == e);
}

/// Every reading of the tiles as closed melds and an eye is found by the
/// search, with its melds in some order.
pub proof fn lemma_readings_complete(c: Seq<u8>, eye: Option<Tile>, n: nat, ms: Seq<Meld>, e: Tile)
    requires
        is_reading_of(c, eye, n, ms, e),
    ensures
        is_found_in(readings(c, eye, n), ms, e),
    decreases n, 2nat,
{
    broadcast use vstd::multiset::group_multiset_axioms;
    broadcast use vstd::seq_lib::group_to_multiset_ensures;

    let rs = readings(c, eye, n);
    let k = first_held(c, 0);
    lemma_first_held(c, 0);
    if ms.len() > 0 {
        let m0 = ms[0];
        assert(melds_multiset(ms) == meld_multiset(m0).add(melds_multiset(ms.drop_first())));
    }
    if k >= KINDS {
        lemma_counts_zero(c);
        if ms.len() > 0 {
            let a0 = match ms[0] {
                Meld::Sequence(a) => a[0],
                Meld::Triplet(a) => a[0],
                Meld::Quad(a, _) => a[0],
            };
            assert(meld_multiset(ms[0]).count(a0) > 0);
            assert(melds_multiset(ms).count(a0) > 0);
            if eye is None {
                assert(melds_multiset(ms).insert(e).insert(e).count(a0) > 0);
            }
        }
        if eye is None {
            assert(melds_multiset(ms).insert(e).insert(e).count(e) > 0);
        }
        assert(ms.len() == 0);
        assert(rs[0].0.to_multiset() =~= ms.to_multiset());
        assert(0 < rs.len() && rs[0].0.to_multiset() == ms.to_multiset() && rs[0].1 == e);
        return;
    }
    let t = kind_tile(k);
    if melds_multiset(ms).count(t) > 0 {
        let i = lemma_meld_holding(ms, t);
        lemma_melds_multiset_remove(ms, i);
        assert(meld_multiset(ms[i]).subset_of(counts_multiset(c)));
        lemma_lowest_meld(c, ms[i]);
        if ms[i] == triplet_meld(k) {
            lemma_complete_by_triplet(c, eye, n, ms, e, i);
        } else {
            lemma_complete_by_run(c, eye, n, ms, e, i);
        }
    } else {
        lemma_complete_by_eye(c, eye, n, ms, e);
    }
}

/// Three to the power `n`.
pub open spec fn pow3(n: nat) -> nat
    decreases n,
{
    if n == 0 {
        1
    } else {
        3 * pow3((n - 1) as nat)
    }
}

pub proof fn lemma_pow3_monotonic(a: nat, b: nat)
    requires
        a <= b,
    ensures
        pow3(a) <= pow3(b),
    decreases b - a,
{
    if a < b {
        lemma_pow3_monotonic(a, (b - 1) as nat);
    }
}

/// There are at most `3^n` readings of `n` tiles.
pub proof fn lemma_readings_len(c: Seq<u8>, eye: Option<Tile>, n: nat)
    ensures
        readings(c, eye, n).len() <= pow3(n),
    decreases n,
{
    let k = first_held(c, 0);
    if k < KINDS && n >= 2 {
        lemma_readings_len(c.update(k, (c[k] - 2) as u8), Some(kind_tile(k)), (n - 2) as nat);
        lemma_pow3_monotonic((n - 2) as nat, (n - 1) as nat);
        if n >= 3 {
            lemma_readings_len(c.update(k, (c[k] - 3) as u8), eye, (n - 3) as nat);
            lemma_readings_len(without_run(c, k), eye, (n - 3) as nat);
            lemma_pow3_monotonic((n - 3) as nat, (n - 1) as nat);
        }
    }
}

/// Whether a run of three can start at kind `k`.
fn is_start_of_run(k: usize) -> (r: bool)
    ensures
        r == is_run_start(k as int),
{
    k <= 6 || (9 <= k && k <= 15) || (18 <= k && k <= 24)
}

} // verus!
