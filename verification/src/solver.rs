//! Candidate generation and backtracking search.
//!
//! Nine candidate buckets hold position masks, one bucket per puzzle piece.
//! Bucket 0 is a fixed list of five three-point candidates; buckets 1..=4
//! receive the four-point tuples matching fingerprints 0..=3; buckets 5..=8
//! all receive the tuples matching fingerprint 4 (four indistinguishable
//! pieces of the same shape). The search assigns one candidate per bucket in
//! order so that the chosen masks are pairwise disjoint and together cover
//! all 35 lattice points.

use vstd::prelude::*;
use vstd::pervasive::VecAdditionalExecFns;
use crate::geometry::spec_is_planar;
use crate::geometry::spec_in_plane;
use crate::geometry::spec_mask3;
use crate::geometry::spec_mask4;
use crate::geometry::plane_mask;
use crate::shape::spec_classify;
use crate::shape::classify;

verus! {

/// Mask with all 35 points occupied: the target of the search.
pub const FULL_MASK: u64 = 0x7FFFFFFFF;

/// Number of puzzle pieces, i.e. of candidate buckets.
pub const NUM_PIECES: usize = 9;

/// Tuple indices are strictly increasing point indices.
pub open spec fn spec_valid_tuple(i: int, j: int, k: int, l: int) -> bool {
    0 <= i && i < j && j < k && k < l && l < 35
}

/// Fingerprint class `m` feeds candidate bucket `b`.
pub open spec fn spec_targets(m: int, b: int) -> bool {
    if m == 4 {
        5 <= b <= 8
    } else {
        b == m + 1
    }
}

/// During generation, tuple `(i, j, k, l)` deposits its mask into bucket `b`.
pub open spec fn spec_emits(b: int, i: int, j: int, k: int, l: int) -> bool {
    &&& spec_valid_tuple(i, j, k, l)
    &&& spec_is_planar(i, j, k, l)
    &&& (match spec_classify(i, j, k, l) {
        Some(m) => spec_targets(m, b),
        None => false,
    })
}

/// The five fixed three-point candidates of bucket 0.
pub open spec fn spec_base_masks() -> Seq<u64> {
    seq![
        spec_mask3(0, 1, 2),
        spec_mask3(1, 2, 3),
        spec_mask3(5, 6, 7),
        spec_mask3(9, 10, 11),
        spec_mask3(19, 20, 21),
    ]
}

/// A generated catalogue is correct: bucket 0 holds the five fixed base
/// candidates, every other bucket holds exactly the masks of the tuples that
/// emit into it, and the four buckets of the shared shape are identical.
pub open spec fn catalogue_ok(bks: Seq<Seq<u64>>) -> bool {
    &&& bks.len() == 9
    &&& bks[0] == spec_base_masks()
    &&& (forall|b: int, mask: u64|
        1 <= b < 9 ==> (#[trigger] bks[b].contains(mask) <==> (exists|
            i: int,
            j: int,
            k: int,
            l: int,
        |
            #[trigger] spec_emits(b, i, j, k, l) && mask == spec_mask4(i, j, k, l))))
    &&& bks[5] == bks[6]
    &&& bks[6] == bks[7]
    &&& bks[7] == bks[8]
}

/// A complete disjoint selection exists from `level` on, starting from the
/// occupancy `prev`.
pub open spec fn solvable(bks: Seq<Seq<u64>>, level: int, prev: u64) -> bool
    decreases 9 - level,
{
    if level >= 9 {
        prev == FULL_MASK
    } else {
        exists|idx: int|
            0 <= idx < bks[level].len() && (prev & #[trigger] bks[level][idx]) == 0 && solvable(
                bks,
                level + 1,
                prev | bks[level][idx],
            )
    }
}

/// The recorded choices from `level` on select in-range candidates that are
/// disjoint from `prev` and from each other and that, together with `prev`,
/// cover the full lattice.
pub open spec fn selection_ok(bks: Seq<Seq<u64>>, ch: Seq<usize>, level: int, prev: u64) -> bool
    decreases 9 - level,
{
    if level >= 9 {
        prev == FULL_MASK
    } else {
        ch[level] < bks[level].len() && (prev & bks[level][ch[level] as int]) == 0 && selection_ok(
            bks,
            ch,
            level + 1,
            prev | bks[level][ch[level] as int],
        )
    }
}

/// Whether the selection holds from `level` on depends only on the choices
/// from `level` on.
proof fn lemma_selection_ok_agrees(
    bks: Seq<Seq<u64>>,
    ch1: Seq<usize>,
    ch2: Seq<usize>,
    level: int,
    prev: u64,
)
    requires
        selection_ok(bks, ch1, level, prev),
        forall|c: int| level <= c < 9 ==> ch1[c] == ch2[c],
    ensures
        selection_ok(bks, ch2, level, prev),
    decreases 9 - level,
{
    if level < 9 {
        lemma_selection_ok_agrees(bks, ch1, ch2, level + 1, prev | bks[level][ch1[level] as int]);
    }
}

/// Choice vector `a` is lexicographically at most `b` on the levels from
/// `level` up.
pub open spec fn choices_leq(a: Seq<usize>, b: Seq<usize>, level: int) -> bool
    decreases 9 - level,
{
    if level >= 9 {
        true
    } else {
        a[level] < b[level] || (a[level] == b[level] && choices_leq(a, b, level + 1))
    }
}

/// Any recorded valid selection witnesses solvability.
pub proof fn lemma_selection_solvable(bks: Seq<Seq<u64>>, ch: Seq<usize>, level: int, prev: u64)
    requires
        selection_ok(bks, ch, level, prev),
        0 <= level <= 9,
    ensures
        solvable(bks, level, prev),
    decreases 9 - level,
{
    if level < 9 {
        lemma_selection_solvable(bks, ch, level + 1, prev | bks[level][ch[level] as int]);
        let idx = ch[level] as int;
        assert(0 <= idx < bks[level].len() && (prev & bks[level][idx]) == 0 && solvable(
            bks,
            level + 1,
            prev | bks[level][idx],
        ));
    }
}

/// Lexicographic comparison from `level` reads only the entries from `level`
/// up.
proof fn lemma_choices_leq_agrees(a1: Seq<usize>, a2: Seq<usize>, b: Seq<usize>, level: int)
    requires
        choices_leq(a1, b, level),
        forall|c: int| level <= c < 9 ==> a1[c] == a2[c],
    ensures
        choices_leq(a2, b, level),
    decreases 9 - level,
{
    if level < 9 && a1[level] == b[level] {
        lemma_choices_leq_agrees(a1, a2, b, level + 1);
    }
}

/// Tuple `(i2, j2, k2, l2)` precedes the bound `(i, j, k, l)` in the
/// lexicographic enumeration order of the generator.
pub open spec fn lex_before(
    i2: int,
    j2: int,
    k2: int,
    l2: int,
    i: int,
    j: int,
    k: int,
    l: int,
) -> bool {
    ||| i2 < i
    ||| (i2 == i && j2 < j)
    ||| (i2 == i && j2 == j && k2 < k)
    ||| (i2 == i && j2 == j && k2 == k && l2 < l)
}

/// Generation invariant: the buckets reflect exactly the tuples strictly
/// before the bound `(i, j, k, l)` in enumeration order.
pub open spec fn gen_upto(
    sold: Seq<Seq<u64>>,
    snew: Seq<Seq<u64>>,
    i: int,
    j: int,
    k: int,
    l: int,
) -> bool {
    &&& snew.len() == 9
    &&& snew[0] == sold[0]
    &&& (forall|b: int, mask: u64|
        1 <= b < 9 ==> (#[trigger] snew[b].contains(mask) <==> (exists|
            i2: int,
            j2: int,
            k2: int,
            l2: int,
        |
            #[trigger] spec_emits(b, i2, j2, k2, l2) && lex_before(i2, j2, k2, l2, i, j, k, l)
                && mask == spec_mask4(i2, j2, k2, l2))))
    &&& snew[5] == snew[6]
    &&& snew[6] == snew[7]
    &&& snew[7] == snew[8]
}

/// An element is in a pushed sequence iff it is the new element or was
/// already present.
proof fn lemma_push_contains<A>(s: Seq<A>, v: A, x: A)
    ensures
        s.push(v).contains(x) <==> (s.contains(x) || x == v),
{
    if s.contains(x) {
        let n = choose|n: int| 0 <= n < s.len() && s[n] == x;
        assert(s.push(v)[n] == x);
    }
    assert(s.push(v)[s.len() as int] == v);
    if s.push(v).contains(x) && x != v {
        let n = choose|n: int| 0 <= n < s.push(v).len() && s.push(v)[n] == x;
        assert(s[n] == x);
    }
}

/// Moving the enumeration bound without passing any valid tuple preserves the
/// generation invariant.
proof fn lemma_gen_upto_rebound(
    sold: Seq<Seq<u64>>,
    snew: Seq<Seq<u64>>,
    i1: int,
    j1: int,
    k1: int,
    l1: int,
    i2: int,
    j2: int,
    k2: int,
    l2: int,
)
    requires
        gen_upto(sold, snew, i1, j1, k1, l1),
        forall|a: int, b: int, c: int, d: int|
            spec_valid_tuple(a, b, c, d) ==> (#[trigger] lex_before(a, b, c, d, i1, j1, k1, l1)
                <==> lex_before(a, b, c, d, i2, j2, k2, l2)),
    ensures
        gen_upto(sold, snew, i2, j2, k2, l2),
{
    assert forall|b: int, mask: u64| 1 <= b < 9 implies (#[trigger] snew[b].contains(mask) <==> (
    exists|a2: int, b2: int, c2: int, d2: int|
        #[trigger] spec_emits(b, a2, b2, c2, d2) && lex_before(a2, b2, c2, d2, i2, j2, k2, l2)
            && mask == spec_mask4(a2, b2, c2, d2))) by {
        if snew[b].contains(mask) {
            let (a2, b2, c2, d2) = choose|a2: int, b2: int, c2: int, d2: int|
                #[trigger] spec_emits(b, a2, b2, c2, d2) && lex_before(
                    a2,
                    b2,
                    c2,
                    d2,
                    i1,
                    j1,
                    k1,
                    l1,
                ) && mask == spec_mask4(a2, b2, c2, d2);
            assert(spec_valid_tuple(a2, b2, c2, d2));
            assert(spec_emits(b, a2, b2, c2, d2) && lex_before(a2, b2, c2, d2, i2, j2, k2, l2)
                && mask == spec_mask4(a2, b2, c2, d2));
        }
        if exists|a2: int, b2: int, c2: int, d2: int|
            #[trigger] spec_emits(b, a2, b2, c2, d2) && lex_before(a2, b2, c2, d2, i2, j2, k2, l2)
                && mask == spec_mask4(a2, b2, c2, d2) {
            let (a2, b2, c2, d2) = choose|a2: int, b2: int, c2: int, d2: int|
                #[trigger] spec_emits(b, a2, b2, c2, d2) && lex_before(
                    a2,
                    b2,
                    c2,
                    d2,
                    i2,
                    j2,
                    k2,
                    l2,
                ) && mask == spec_mask4(a2, b2, c2, d2);
            assert(spec_valid_tuple(a2, b2, c2, d2));
            assert(spec_emits(b, a2, b2, c2, d2) && lex_before(a2, b2, c2, d2, i1, j1, k1, l1)
                && mask == spec_mask4(a2, b2, c2, d2));
        }
    }
}

/// Piece number occupying point `p` after classes 0..c have painted the
/// board in order: `c2 + 1` for the last class `c2` below `c` whose chosen
/// mask covers `p`, or 0 when none does.
pub open spec fn spec_owner(bks: Seq<Seq<u64>>, ch: Seq<usize>, c: int, p: int) -> int
    decreases c,
{
    if c <= 0 {
        0
    } else if ((bks[c - 1][ch[c - 1] as int] >> (p as u64)) & 1u64) == 1u64 {
        c
    } else {
        spec_owner(bks, ch, c - 1, p)
    }
}

/// The puzzle state: nine candidate buckets of position masks and the index
/// chosen per bucket by the last successful search.
pub struct PyramidSolver {
    /// Candidate masks per piece class, in generation order.
    pub buckets: Vec<Vec<u64>>,
    /// Chosen candidate index per piece class.
    pub choices: Vec<usize>,
}

impl PyramidSolver {
    /// The candidate catalogue as a sequence of mask sequences.
    pub open spec fn bks(self) -> Seq<Seq<u64>> {
        Seq::new(9, |b: int| self.buckets@[b]@)
    }

    /// Structural well-formedness: nine buckets, nine choice slots.
    pub open spec fn wf(self) -> bool {
        self.buckets@.len() == 9 && self.choices@.len() == 9
    }

    /// A fresh solver: empty buckets, zero choices.
    pub fn new() -> (r: PyramidSolver)
        ensures
            r.wf(),
            forall|b: int| 0 <= b < 9 ==> #[trigger] r.bks()[b].len() == 0,
            forall|c: int| 0 <= c < 9 ==> #[trigger] r.choices@[c] == 0,
    {
        let mut buckets: Vec<Vec<u64>> = Vec::new();
        let mut choices: Vec<usize> = Vec::new();
        let mut b: usize = 0;
        while b < 9
            invariant
                buckets@.len() == b,
                choices@.len() == b,
                b <= 9,
                forall|q: int| 0 <= q < b ==> #[trigger] buckets@[q]@.len() == 0,
                forall|q: int| 0 <= q < b ==> #[trigger] choices@[q] == 0,
            decreases 9 - b,
        {
            buckets.push(Vec::new());
            choices.push(0);
            b += 1;
        }
        PyramidSolver { buckets, choices }
    }

    /// Mask of a three-point subset.
    pub fn set3(i: usize, j: usize, k: usize) -> (r: u64)
        requires
            i < 35,
            j < 35,
            k < 35,
        ensures
            r == spec_mask3(i as int, j as int, k as int),
    {
        (1u64 << (i as u64)) | (1u64 << (j as u64)) | (1u64 << (k as u64))
    }

    /// Mask of a four-point subset.
    pub fn set4(i: usize, j: usize, k: usize, l: usize) -> (r: u64)
        requires
            i < 35,
            j < 35,
            k < 35,
            l < 35,
        ensures
            r == spec_mask4(i as int, j as int, k as int, l as int),
    {
        (1u64 << (i as u64)) | (1u64 << (j as u64)) | (1u64 << (k as u64)) | (1u64 << (l as u64))
    }

    /// All four points belong to coplanar group `plane_idx`.
    pub fn in_plane(plane_idx: usize, i: usize, j: usize, k: usize, l: usize) -> (r: bool)
        requires
            plane_idx < 21,
            i < 35,
            j < 35,
            k < 35,
            l < 35,
        ensures
            r == spec_in_plane(plane_idx as int, i as int, j as int, k as int, l as int),
    {
        let pm = plane_mask(plane_idx);
        ((pm >> (i as u64)) & 1u64 == 1u64) && ((pm >> (j as u64)) & 1u64 == 1u64) && ((pm >> (
        k as u64)) & 1u64 == 1u64) && ((pm >> (l as u64)) & 1u64 == 1u64)
    }

    /// Some coplanar group contains all four points.
    pub fn is_planar(i: usize, j: usize, k: usize, l: usize) -> (r: bool)
        requires
            i < 35,
            j < 35,
            k < 35,
            l < 35,
        ensures
            r == spec_is_planar(i as int, j as int, k as int, l as int),
    {
        let mut p: usize = 0;
        while p < 21
            invariant
                p <= 21,
                i < 35,
                j < 35,
                k < 35,
                l < 35,
                forall|q: int|
                    0 <= q < p ==> !#[trigger] spec_in_plane(q, i as int, j as int, k as int, l as int),
            decreases 21 - p,
        {
            if Self::in_plane(p, i, j, k, l) {
                return true;
            }
            p += 1;
        }
        false
    }

    /// Classify the tuple `(i, j, k, l)` and append its mask to the candidate
    /// bucket(s) of the matching fingerprint, if any.
    pub fn match_distances(&mut self, i: usize, j: usize, k: usize, l: usize)
        requires
            old(self).wf(),
            i < 35,
            j < 35,
            k < 35,
            l < 35,
        ensures
            final(self).wf(),
            final(self).choices == old(self).choices,
            forall|b: int|
                0 <= b < 9 ==> #[trigger] final(self).bks()[b] == (match spec_classify(
                    i as int,
                    j as int,
                    k as int,
                    l as int,
                ) {
                    Some(m) => if spec_targets(m, b) {
                        old(self).bks()[b].push(
                            spec_mask4(i as int, j as int, k as int, l as int),
                        )
                    } else {
                        old(self).bks()[b]
                    },
                    None => old(self).bks()[b],
                }),
    {
        match classify(i, j, k, l) {
            None => {
                proof {
                    assert forall|b: int| 0 <= b < 9 implies #[trigger] self.bks()[b] == old(
                        self,
                    ).bks()[b] by {}
                }
            },
            Some(m) => {
                let pos = Self::set4(i, j, k, l);
                if m == 4 {
                    self.buckets[5].push(pos);
                    self.buckets[6].push(pos);
                    self.buckets[7].push(pos);
                    self.buckets[8].push(pos);
                } else {
                    self.buckets[m + 1].push(pos);
                }
            },
        }
    }

    /// Fill bucket 0 with the five fixed three-point candidates.
    pub fn initialize(&mut self)
        requires
            old(self).wf(),
        ensures
            final(self).wf(),
            final(self).choices == old(self).choices,
            final(self).bks()[0] == spec_base_masks(),
            forall|b: int| 1 <= b < 9 ==> #[trigger] final(self).bks()[b] == old(self).bks()[b],
    {
        let mut base: Vec<u64> = Vec::new();
        base.push(Self::set3(0, 1, 2));
        base.push(Self::set3(1, 2, 3));
        base.push(Self::set3(5, 6, 7));
        base.push(Self::set3(9, 10, 11));
        base.push(Self::set3(19, 20, 21));
        proof {
            assert(base@ =~= spec_base_masks());
        }
        self.buckets.set(0, base);
    }

    /// Enumerate every strictly increasing four-point tuple, keep the planar
    /// ones, classify them, and deposit the accepted masks into the buckets.
    pub fn precompute(&mut self)
        requires
            old(self).wf(),
            forall|b: int| 1 <= b < 9 ==> #[trigger] old(self).bks()[b].len() == 0,
        ensures
            final(self).wf(),
            final(self).choices == old(self).choices,
            final(self).bks()[0] == old(self).bks()[0],
            forall|b: int, mask: u64|
                1 <= b < 9 ==> (#[trigger] final(self).bks()[b].contains(mask) <==> (exists|
                    i: int,
                    j: int,
                    k: int,
                    l: int,
                |
                    #[trigger] spec_emits(b, i, j, k, l) && mask == spec_mask4(i, j, k, l))),
            final(self).bks()[5] == final(self).bks()[6],
            final(self).bks()[6] == final(self).bks()[7],
            final(self).bks()[7] == final(self).bks()[8],
    {
        let ghost sold = old(self).bks();
        proof {
            assert forall|b: int, mask: u64| 1 <= b < 9 implies !#[trigger] sold[b].contains(
                mask,
            ) by {}
            assert(self.bks()[5] =~= self.bks()[6]);
            assert(self.bks()[6] =~= self.bks()[7]);
            assert(self.bks()[7] =~= self.bks()[8]);
        }
        let mut i: usize = 0;
        while i < 32
            invariant
                self.wf(),
                i <= 32,
                self.choices == old(self).choices,
                gen_upto(sold, self.bks(), i as int, 0, 0, 0),
                self.bks()[0] == sold[0],
            decreases 32 - i,
        {
            let mut j: usize = i + 1;
            while j < 33
                invariant
                    self.wf(),
                    i < 32,
                    i < j <= 33,
                    self.choices == old(self).choices,
                    gen_upto(sold, self.bks(), i as int, j as int, 0, 0),
                    self.bks()[0] == sold[0],
                decreases 33 - j,
            {
                let mut k: usize = j + 1;
                while k < 34
                    invariant
                        self.wf(),
                        i < 32,
                        i < j < 33,
                        j < k <= 34,
                        self.choices == old(self).choices,
                        gen_upto(sold, self.bks(), i as int, j as int, k as int, 0),
                        self.bks()[0] == sold[0],
                    decreases 34 - k,
                {
                    let mut l: usize = k + 1;
                    while l < 35
                        invariant
                            self.wf(),
                            i < 32,
                            i < j < 33,
                            j < k < 34,
                            k < l <= 35,
                            self.choices == old(self).choices,
                            gen_upto(sold, self.bks(), i as int, j as int, k as int, l as int),
                            self.bks()[0] == sold[0],
                        decreases 35 - l,
                    {
                        let ghost before = self.bks();
                        if Self::is_planar(i, j, k, l) {
                            self.match_distances(i, j, k, l);
                        }
                        proof {
                            let ii = i as int;
                            let jj = j as int;
                            let kk = k as int;
                            let ll = l as int;
                            crate::shape::lemma_classify_range(ii, jj, kk, ll);
                            assert(self.bks()[0] == before[0]);
                            assert(self.bks()[5] == self.bks()[6] && self.bks()[6] == self.bks()[7]
                                && self.bks()[7] == self.bks()[8]);
                            assert forall|b: int, mask: u64| 1 <= b < 9 implies (
                            #[trigger] self.bks()[b].contains(mask) <==> (exists|
                                i2: int,
                                j2: int,
                                k2: int,
                                l2: int,
                            |
                                #[trigger] spec_emits(b, i2, j2, k2, l2) && lex_before(
                                    i2,
                                    j2,
                                    k2,
                                    l2,
                                    ii,
                                    jj,
                                    kk,
                                    ll + 1,
                                ) && mask == spec_mask4(i2, j2, k2, l2))) by {
                                lemma_push_contains(
                                    before[b],
                                    spec_mask4(ii, jj, kk, ll),
                                    mask,
                                );
                                if self.bks()[b].contains(mask) {
                                    if before[b].contains(mask) {
                                        let (a2, b2, c2, d2) = choose|
                                            a2: int,
                                            b2: int,
                                            c2: int,
                                            d2: int,
                                        |
                                            #[trigger] spec_emits(b, a2, b2, c2, d2) && lex_before(
                                                a2,
                                                b2,
                                                c2,
                                                d2,
                                                ii,
                                                jj,
                                                kk,
                                                ll,
                                            ) && mask == spec_mask4(a2, b2, c2, d2);
                                        assert(lex_before(a2, b2, c2, d2, ii, jj, kk, ll + 1));
                                    } else {
                                        assert(mask == spec_mask4(ii, jj, kk, ll));
                                        assert(spec_emits(b, ii, jj, kk, ll));
                                        assert(lex_before(ii, jj, kk, ll, ii, jj, kk, ll + 1));
                                    }
                                }
                                if exists|i2: int, j2: int, k2: int, l2: int|
                                    #[trigger] spec_emits(b, i2, j2, k2, l2) && lex_before(
                                        i2,
                                        j2,
                                        k2,
                                        l2,
                                        ii,
                                        jj,
                                        kk,
                                        ll + 1,
                                    ) && mask == spec_mask4(i2, j2, k2, l2) {
                                    let (a2, b2, c2, d2) = choose|
                                        a2: int,
                                        b2: int,
                                        c2: int,
                                        d2: int,
                                    |
                                        #[trigger] spec_emits(b, a2, b2, c2, d2) && lex_before(
                                            a2,
                                            b2,
                                            c2,
                                            d2,
                                            ii,
                                            jj,
                                            kk,
                                            ll + 1,
                                        ) && mask == spec_mask4(a2, b2, c2, d2);
                                    if lex_before(a2, b2, c2, d2, ii, jj, kk, ll) {
                                        assert(before[b].contains(mask));
                                        assert(self.bks()[b].contains(mask));
                                    } else {
                                        assert(a2 == ii && b2 == jj && c2 == kk && d2 == ll);
                                        assert(self.bks()[b].contains(mask));
                                    }
                                }
                            }
                        }
                        l += 1;
                    }
                    proof {
                        lemma_gen_upto_rebound(
                            sold,
                            self.bks(),
                            i as int,
                            j as int,
                            k as int,
                            35,
                            i as int,
                            j as int,
                            k as int + 1,
                            0,
                        );
                    }
                    k += 1;
                }
                proof {
                    lemma_gen_upto_rebound(
                        sold,
                        self.bks(),
                        i as int,
                        j as int,
                        34,
                        0,
                        i as int,
                        j as int + 1,
                        0,
                        0,
                    );
                }
                j += 1;
            }
            proof {
                lemma_gen_upto_rebound(
                    sold,
                    self.bks(),
                    i as int,
                    33,
                    0,
                    0,
                    i as int + 1,
                    0,
                    0,
                    0,
                );
            }
            i += 1;
        }
        proof {
            lemma_gen_upto_rebound(sold, self.bks(), 32, 0, 0, 0, 35, 0, 0, 0);
            assert forall|b: int, mask: u64| 1 <= b < 9 implies (
            #[trigger] self.bks()[b].contains(mask) <==> (exists|i: int, j: int, k: int, l: int|
                #[trigger] spec_emits(b, i, j, k, l) && mask == spec_mask4(i, j, k, l))) by {
                if exists|i: int, j: int, k: int, l: int|
                    #[trigger] spec_emits(b, i, j, k, l) && mask == spec_mask4(i, j, k, l) {
                    let (a2, b2, c2, d2) = choose|a2: int, b2: int, c2: int, d2: int|
                        #[trigger] spec_emits(b, a2, b2, c2, d2) && mask == spec_mask4(
                            a2,
                            b2,
                            c2,
                            d2,
                        );
                    assert(lex_before(a2, b2, c2, d2, 35, 0, 0, 0));
                }
            }
        }
    }

    /// Depth-first search from `level` on, starting from the occupancy
    /// `prev`. Returns whether a complete disjoint covering selection exists;
    /// on success the chosen index of every level from `level` up is
    /// recorded.
    pub fn search(&mut self, level: usize, prev: u64) -> (r: bool)
        requires
            old(self).wf(),
            level <= 9,
        ensures
            final(self).wf(),
            final(self).buckets == old(self).buckets,
            r == solvable(old(self).bks(), level as int, prev),
            r ==> selection_ok(final(self).bks(), final(self).choices@, level as int, prev),
            r ==> (forall|ch2: Seq<usize>|
                #[trigger] selection_ok(final(self).bks(), ch2, level as int, prev)
                    ==> choices_leq(final(self).choices@, ch2, level as int)),
            r ==> final(self).choices@.subrange(0, level as int) == old(self).choices@.subrange(
                0,
                level as int,
            ),
            !r ==> final(self).choices == old(self).choices,
        decreases 9 - level,
    {
        if level == 9 {
            return prev == FULL_MASK;
        }
        let n = self.buckets[level].len();
        let mut index: usize = 0;
        while index < n
            invariant
                self.wf(),
                level < 9,
                n == self.bks()[level as int].len(),
                self.buckets == old(self).buckets,
                self.choices == old(self).choices,
                index <= n,
                forall|q: int|
                    0 <= q < index ==> !((prev & #[trigger] self.bks()[level as int][q]) == 0
                        && solvable(self.bks(), level as int + 1, prev | self.bks()[
                        level as int][q])),
            decreases n - index,
        {
            let pos = self.buckets[level][index];
            if prev & pos == 0 {
                let ghost ch_before = self.choices@;
                if self.search(level + 1, prev | pos) {
                    let ghost ch_rec = self.choices@;
                    self.choices.set(level, index);
                    proof {
                        assert(self.bks() =~= old(self).bks());
                        lemma_selection_ok_agrees(
                            self.bks(),
                            ch_rec,
                            self.choices@,
                            level as int + 1,
                            prev | pos,
                        );
                        assert(self.choices@[level as int] == index);
                        assert(selection_ok(self.bks(), self.choices@, level as int, prev));
                        assert((prev & self.bks()[level as int][index as int]) == 0 && solvable(
                            self.bks(),
                            level as int + 1,
                            prev | self.bks()[level as int][index as int],
                        ));
                        assert(solvable(old(self).bks(), level as int, prev));
                        assert(self.choices@.subrange(0, level as int) =~= old(
                            self,
                        ).choices@.subrange(0, level as int));
                        let lv = level as int;
                        assert forall|ch2: Seq<usize>| #[trigger] selection_ok(
                            self.bks(),
                            ch2,
                            lv,
                            prev,
                        ) implies choices_leq(self.choices@, ch2, lv) by {
                            let c2 = ch2[lv] as int;
                            lemma_selection_solvable(
                                self.bks(),
                                ch2,
                                lv + 1,
                                prev | self.bks()[lv][c2],
                            );
                            assert(!(c2 < index));
                            if ch2[lv] == index {
                                assert(selection_ok(self.bks(), ch2, lv + 1, prev | pos));
                                assert(choices_leq(ch_rec, ch2, lv + 1));
                                lemma_choices_leq_agrees(ch_rec, self.choices@, ch2, lv + 1);
                            }
                        }
                    }
                    return true;
                }
                proof {
                    assert(self.bks() =~= old(self).bks());
                }
            }
            index += 1;
        }
        proof {
            assert(!solvable(self.bks(), level as int, prev));
        }
        false
    }

    /// Build the candidate catalogue and search from an empty board.
    pub fn solve(&mut self) -> (r: bool)
        requires
            old(self).wf(),
            forall|b: int| 0 <= b < 9 ==> #[trigger] old(self).bks()[b].len() == 0,
        ensures
            final(self).wf(),
            catalogue_ok(final(self).bks()),
            r == solvable(final(self).bks(), 0, 0),
            r ==> selection_ok(final(self).bks(), final(self).choices@, 0, 0),
            r ==> (forall|ch2: Seq<usize>|
                #[trigger] selection_ok(final(self).bks(), ch2, 0, 0) ==> choices_leq(
                    final(self).choices@,
                    ch2,
                    0,
                )),
    {
        self.initialize();
        self.precompute();
        self.search(0, 0)
    }

    /// Per-point piece numbers of the chosen assignment: entry `p` holds
    /// `c + 1` for the last class `c` whose chosen mask covers point `p`, or
    /// 0 when no chosen mask covers it.
    pub fn occupancy(&self) -> (r: Vec<usize>)
        requires
            self.wf(),
            forall|c: int| 0 <= c < 9 ==> #[trigger] self.choices@[c] < self.bks()[c].len(),
        ensures
            r@.len() == 35,
            forall|p: int|
                0 <= p < 35 ==> #[trigger] r@[p] == spec_owner(self.bks(), self.choices@, 9, p),
    {
        let mut occ: Vec<usize> = Vec::new();
        let mut p: usize = 0;
        while p < 35
            invariant
                occ@.len() == p,
                p <= 35,
                forall|q: int| 0 <= q < p ==> #[trigger] occ@[q] == 0,
            decreases 35 - p,
        {
            occ.push(0);
            p += 1;
        }
        let mut c: usize = 0;
        while c < 9
            invariant
                self.wf(),
                forall|c2: int| 0 <= c2 < 9 ==> #[trigger] self.choices@[c2] < self.bks()[c2].len(),
                c <= 9,
                occ@.len() == 35,
                forall|q: int|
                    0 <= q < 35 ==> #[trigger] occ@[q] == spec_owner(
                        self.bks(),
                        self.choices@,
                        c as int,
                        q,
                    ),
            decreases 9 - c,
        {
            let pos = self.buckets[c][self.choices[c]];
            let mut p2: usize = 0;
            while p2 < 35
                invariant
                    self.wf(),
                    c < 9,
                    p2 <= 35,
                    occ@.len() == 35,
                    pos == self.bks()[c as int][self.choices@[c as int] as int],
                    forall|q: int|
                        0 <= q < p2 ==> #[trigger] occ@[q] == spec_owner(
                            self.bks(),
                            self.choices@,
                            c as int + 1,
                            q,
                        ),
                    forall|q: int|
                        p2 <= q < 35 ==> #[trigger] occ@[q] == spec_owner(
                            self.bks(),
                            self.choices@,
                            c as int,
                            q,
                        ),
                decreases 35 - p2,
            {
                if (pos >> (p2 as u64)) & 1u64 == 1u64 {
                    occ.set(p2, c + 1);
                }
                p2 += 1;
            }
            c += 1;
        }
        occ
    }
}

} // verus!
