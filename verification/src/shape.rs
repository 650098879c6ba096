//! Shape classification by sorted squared-distance fingerprints.
//!
//! A four-point subset is characterized by its six pairwise distances in
//! non-decreasing order. Five reference fingerprints are fixed; a tuple
//! matches one when every sorted distance lies within an absolute tolerance
//! of 0.01 of the reference distance. On squared scaled distances (see
//! [`crate::geometry`]) that tolerance band becomes the open integer interval
//! (((f - 0.01) * 100000)^2, ((f + 0.01) * 100000)^2), so the whole
//! classification is decided exactly.

use vstd::prelude::*;
use vstd::multiset::Multiset;
use vstd::relations::sorted_by;
use vstd::relations::total_ordering;
use vstd::seq_lib::lemma_sorted_unique;
use crate::geometry::spec_dist2;
use crate::geometry::dist2;

verus! {

/// Number of reference fingerprints.
pub const NUM_CLASSES: usize = 5;

/// Squared scaled diameter cutoff: a tuple whose largest squared distance
/// exceeds (2.66 * 100000)^2 matches no fingerprint and is culled early.
pub const CUTOFF2: u64 = 70756000000;

/// Lower window bound ((F_m[t] - 0.01) * 100000)^2 of fingerprint `m`,
/// component `t`.
pub open spec fn spec_lo(m: int, t: int) -> int {
    if m == 0 {
        if t <= 2 { 9801000000 } else if t == 3 { 29652840000 } else if t == 4 { 39601000000 } else { 69471780625 }
    } else if m == 1 {
        if t <= 3 { 9801000000 } else if t == 4 { 29652840000 } else { 39601000000 }
    } else if m == 2 {
        if t <= 2 { 9801000000 } else if t == 3 { 29652840000 } else if t == 4 { 29652840000 } else { 69471780625 }
    } else if m == 3 {
        if t <= 2 { 9801000000 } else if t == 3 { 29652840000 } else if t == 4 { 29652840000 } else { 39601000000 }
    } else {
        if t <= 2 { 9801000000 } else if t == 3 { 19718057241 } else if t == 4 { 39601000000 } else { 49553431236 }
    }
}

/// Upper window bound ((F_m[t] + 0.01) * 100000)^2 of fingerprint `m`,
/// component `t`.
pub open spec fn spec_hi(m: int, t: int) -> int {
    if m == 0 {
        if t <= 2 { 10201000000 } else if t == 3 { 30345640000 } else if t == 4 { 40401000000 } else { 70530080625 }
    } else if m == 1 {
        if t <= 3 { 10201000000 } else if t == 4 { 30345640000 } else { 40401000000 }
    } else if m == 2 {
        if t <= 2 { 10201000000 } else if t == 3 { 30345640000 } else if t == 4 { 30345640000 } else { 70530080625 }
    } else if m == 3 {
        if t <= 2 { 10201000000 } else if t == 3 { 30345640000 } else if t == 4 { 30345640000 } else { 40401000000 }
    } else {
        if t <= 2 { 10201000000 } else if t == 3 { 20283741241 } else if t == 4 { 40401000000 } else { 50447855236 }
    }
}

/// Lower window bound of fingerprint `m`, component `t`.
pub fn window_lo(m: usize, t: usize) -> (r: u64)
    requires
        m < 5,
        t < 6,
    ensures
        r as int == spec_lo(m as int, t as int),
{
    if m == 0 {
        if t <= 2 { 9801000000 } else if t == 3 { 29652840000 } else if t == 4 { 39601000000 } else { 69471780625 }
    } else if m == 1 {
        if t <= 3 { 9801000000 } else if t == 4 { 29652840000 } else { 39601000000 }
    } else if m == 2 {
        if t <= 2 { 9801000000 } else if t == 3 { 29652840000 } else if t == 4 { 29652840000 } else { 69471780625 }
    } else if m == 3 {
        if t <= 2 { 9801000000 } else if t == 3 { 29652840000 } else if t == 4 { 29652840000 } else { 39601000000 }
    } else {
        if t <= 2 { 9801000000 } else if t == 3 { 19718057241 } else if t == 4 { 39601000000 } else { 49553431236 }
    }
}

/// Upper window bound of fingerprint `m`, component `t`.
pub fn window_hi(m: usize, t: usize) -> (r: u64)
    requires
        m < 5,
        t < 6,
    ensures
        r as int == spec_hi(m as int, t as int),
{
    if m == 0 {
        if t <= 2 { 10201000000 } else if t == 3 { 30345640000 } else if t == 4 { 40401000000 } else { 70530080625 }
    } else if m == 1 {
        if t <= 3 { 10201000000 } else if t == 4 { 30345640000 } else { 40401000000 }
    } else if m == 2 {
        if t <= 2 { 10201000000 } else if t == 3 { 30345640000 } else if t == 4 { 30345640000 } else { 70530080625 }
    } else if m == 3 {
        if t <= 2 { 10201000000 } else if t == 3 { 30345640000 } else if t == 4 { 30345640000 } else { 40401000000 }
    } else {
        if t <= 2 { 10201000000 } else if t == 3 { 20283741241 } else if t == 4 { 40401000000 } else { 50447855236 }
    }
}

/// The ordering by which fingerprints are sorted.
pub open spec fn le64() -> spec_fn(u64, u64) -> bool {
    |x: u64, y: u64| x <= y
}

pub proof fn lemma_le64_total_ordering()
    ensures
        total_ordering(le64()),
{
    assert forall|x: u64| #[trigger] le64()(x, x) by {}
}

/// The six squared distances of a tuple, in enumeration order.
pub open spec fn spec_tuple_dists(i: int, j: int, k: int, l: int) -> Seq<u64> {
    seq![
        spec_dist2(i, j) as u64,
        spec_dist2(i, k) as u64,
        spec_dist2(i, l) as u64,
        spec_dist2(j, k) as u64,
        spec_dist2(j, l) as u64,
        spec_dist2(k, l) as u64,
    ]
}

/// The six squared distances of a tuple in non-decreasing order: the exact
/// fingerprint of the tuple's shape.
pub open spec fn spec_sorted_dists(i: int, j: int, k: int, l: int) -> Seq<u64> {
    spec_tuple_dists(i, j, k, l).sort_by(le64())
}

/// Sorted fingerprint `s` matches reference class `m`: every component lies
/// strictly inside its tolerance window.
pub open spec fn spec_fits(m: int, s: Seq<u64>) -> bool {
    forall|t: int| 0 <= t < 6 ==> spec_lo(m, t) < #[trigger] s[t] && s[t] < spec_hi(m, t)
}

/// The first reference class at or after `m` that the sorted fingerprint `s`
/// matches.
pub open spec fn spec_first_fit(s: Seq<u64>, m: int) -> Option<int>
    decreases 5 - m,
{
    if m < 0 || m >= 5 {
        None
    } else if spec_fits(m, s) {
        Some(m)
    } else {
        spec_first_fit(s, m + 1)
    }
}

/// Classification of a four-point tuple: `None` when the diameter cutoff
/// fires or no fingerprint matches, otherwise the first matching class.
pub open spec fn spec_classify(i: int, j: int, k: int, l: int) -> Option<int> {
    let s = spec_sorted_dists(i, j, k, l);
    if s[5] > CUTOFF2 {
        None
    } else {
        spec_first_fit(s, 0)
    }
}

/// A first-fit scan yields one of the reference classes at or after `m`.
pub proof fn lemma_first_fit_range(s: Seq<u64>, m: int)
    ensures
        (match spec_first_fit(s, m) {
            Some(x) => 0 <= x < 5,
            None => true,
        }),
    decreases 5 - m,
{
    if m < 0 || m >= 5 {
    } else if spec_fits(m, s) {
    } else {
        lemma_first_fit_range(s, m + 1);
    }
}

/// A classification result always names one of the five reference classes.
pub proof fn lemma_classify_range(i: int, j: int, k: int, l: int)
    ensures
        (match spec_classify(i, j, k, l) {
            Some(m) => 0 <= m < 5,
            None => true,
        }),
{
    lemma_first_fit_range(spec_sorted_dists(i, j, k, l), 0);
}

/// A first-fit scan returns the least matching class at or after `m`, and
/// fails exactly when no class at or after `m` matches.
proof fn lemma_first_fit_sound(s: Seq<u64>, m: int)
    requires
        0 <= m <= 5,
    ensures
        (match spec_first_fit(s, m) {
            Some(x) => m <= x < 5 && spec_fits(x, s) && (forall|m2: int|
                m <= m2 < x ==> !#[trigger] spec_fits(m2, s)),
            None => forall|m2: int| m <= m2 < 5 ==> !#[trigger] spec_fits(m2, s),
        }),
    decreases 5 - m,
{
    if m < 5 && !spec_fits(m, s) {
        lemma_first_fit_sound(s, m + 1);
    }
}

/// Classifier soundness: a tuple is classified as the least reference class
/// whose tolerance windows all hold of its sorted fingerprint, and rejected
/// exactly when the diameter cutoff fires or no class fits.
pub proof fn lemma_classifier_soundness(i: int, j: int, k: int, l: int)
    ensures
        (match spec_classify(i, j, k, l) {
            Some(m) => !(spec_sorted_dists(i, j, k, l)[5] > CUTOFF2) && spec_fits(
                m,
                spec_sorted_dists(i, j, k, l),
            ) && (forall|m2: int|
                0 <= m2 < m ==> !#[trigger] spec_fits(m2, spec_sorted_dists(i, j, k, l))),
            None => (spec_sorted_dists(i, j, k, l)[5] > CUTOFF2) || (forall|m2: int|
                0 <= m2 < 5 ==> !#[trigger] spec_fits(m2, spec_sorted_dists(i, j, k, l))),
        }),
{
    lemma_first_fit_sound(spec_sorted_dists(i, j, k, l), 0);
}

/// Insert `x` into the sorted vector `v`, keeping it sorted.
fn insert_sorted(v: &mut Vec<u64>, x: u64)
    requires
        sorted_by(old(v)@, le64()),
        old(v)@.len() < 6,
    ensures
        final(v)@.len() == old(v)@.len() + 1,
        sorted_by(final(v)@, le64()),
        final(v)@.to_multiset() == old(v)@.to_multiset().insert(x),
{
    let ghost orig = v@;
    let mut idx: usize = 0;
    while idx < v.len() && v[idx] <= x
        invariant
            v@ == orig,
            idx <= v@.len(),
            forall|a: int| 0 <= a < idx ==> orig[a] <= x,
        decreases v@.len() - idx,
    {
        idx += 1;
    }
    v.insert(idx, x);
    proof {
        orig.insert_ensures(idx as int, x);
        vstd::seq_lib::to_multiset_insert(orig, idx as int, x);
        assert forall|a: int, b: int| 0 <= a < b < v@.len() implies #[trigger] le64()(
            v@[a],
            v@[b],
        ) by {
            assert(sorted_by(orig, le64()));
            let ii = idx as int;
            if b < ii {
                assert(v@[a] == orig[a] && v@[b] == orig[b]);
                assert(le64()(orig[a], orig[b]));
            } else if ii < a {
                assert(v@[a] == orig[a - 1] && v@[b] == orig[b - 1]);
                assert(le64()(orig[a - 1], orig[b - 1]));
            } else if a < ii && b == ii {
                assert(v@[a] == orig[a] && v@[b] == x);
                assert(orig[a] <= x);
            } else if a == ii {
                assert(v@[a] == x && v@[b] == orig[b - 1]);
                assert(!(orig[ii] <= x));
                if ii < b - 1 {
                    assert(le64()(orig[ii], orig[b - 1]));
                }
            } else {
                assert(a < ii && ii < b);
                assert(v@[a] == orig[a] && v@[b] == orig[b - 1]);
                assert(orig[a] <= x);
                assert(le64()(orig[a], orig[b - 1]));
            }
        }
    }
}

/// Sorted fingerprint check of class `m` against every tolerance window.
fn fits(ds: &Vec<u64>, m: usize) -> (r: bool)
    requires
        ds@.len() == 6,
        m < 5,
    ensures
        r == spec_fits(m as int, ds@),
{
    let mut t: usize = 0;
    while t < 6
        invariant
            t <= 6,
            ds@.len() == 6,
            m < 5,
            forall|t2: int|
                0 <= t2 < t ==> spec_lo(m as int, t2) < #[trigger] ds@[t2] && ds@[t2] < spec_hi(
                    m as int,
                    t2,
                ),
        decreases 6 - t,
    {
        let d = ds[t];
        if d <= window_lo(m, t) || d >= window_hi(m, t) {
            return false;
        }
        t += 1;
    }
    true
}

/// Classify the four-point tuple `(i, j, k, l)` by its sorted distance
/// fingerprint: the first matching reference class, or `None` when the tuple
/// matches no fingerprint.
pub fn classify(i: usize, j: usize, k: usize, l: usize) -> (r: Option<usize>)
    requires
        i < 35,
        j < 35,
        k < 35,
        l < 35,
    ensures
        (match r {
            Some(m) => m < 5 && spec_classify(i as int, j as int, k as int, l as int) == Some(
                m as int,
            ),
            None => spec_classify(i as int, j as int, k as int, l as int) is None,
        }),
{
    let d0 = dist2(i, j);
    let d1 = dist2(i, k);
    let d2 = dist2(i, l);
    let d3 = dist2(j, k);
    let d4 = dist2(j, l);
    let d5 = dist2(k, l);
    let mut ds: Vec<u64> = Vec::new();
    insert_sorted(&mut ds, d0);
    insert_sorted(&mut ds, d1);
    insert_sorted(&mut ds, d2);
    insert_sorted(&mut ds, d3);
    insert_sorted(&mut ds, d4);
    insert_sorted(&mut ds, d5);
    proof {
        let tup = spec_tuple_dists(i as int, j as int, k as int, l as int);
        assert(tup =~= Seq::<u64>::empty().push(d0).push(d1).push(d2).push(d3).push(d4).push(d5));
        broadcast use vstd::seq_lib::group_to_multiset_ensures;

        assert(Seq::<u64>::empty().to_multiset() =~= Multiset::<u64>::empty());
        assert(ds@.to_multiset() =~= tup.to_multiset());
        lemma_le64_total_ordering();
        tup.lemma_sort_by_ensures(le64());
        lemma_sorted_unique(ds@, tup.sort_by(le64()), le64());
        assert(ds@ == spec_sorted_dists(i as int, j as int, k as int, l as int));
    }
    if ds[5] > CUTOFF2 {
        return None;
    }
    let ghost s = spec_sorted_dists(i as int, j as int, k as int, l as int);
    let mut m: usize = 0;
    while m < 5
        invariant
            m <= 5,
            ds@.len() == 6,
            ds@ == s,
            s == spec_sorted_dists(i as int, j as int, k as int, l as int),
            !(s[5] > CUTOFF2),
            spec_first_fit(s, 0) == spec_first_fit(s, m as int),
        decreases 5 - m,
    {
        if fits(&ds, m) {
            proof {
                assert(spec_fits(m as int, s));
                assert(spec_first_fit(s, m as int) == Some(m as int));
            }
            return Some(m);
        }
        m += 1;
    }
    None
}

} // verus!
