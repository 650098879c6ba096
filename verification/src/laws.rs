//! Global properties of a successful solution: coverage, disjointness and
//! population counts of the chosen masks.

use vstd::prelude::*;
use vstd::set_lib::set_int_range;
use vstd::set_lib::lemma_int_range;
use crate::geometry::spec_mask3;
use crate::geometry::spec_mask4;
use crate::solver::FULL_MASK;
use crate::solver::selection_ok;
use crate::solver::catalogue_ok;
use crate::solver::spec_base_masks;
use crate::solver::spec_emits;
use crate::solver::spec_valid_tuple;
use crate::solver::spec_owner;
use crate::solver::choices_leq;

verus! {

/// The mask chosen at `level`.
pub open spec fn chosen_mask(bks: Seq<Seq<u64>>, ch: Seq<usize>, level: int) -> u64 {
    bks[level][ch[level] as int]
}

/// OR of the chosen masks from `level` on.
pub open spec fn or_from(bks: Seq<Seq<u64>>, ch: Seq<usize>, level: int) -> u64
    decreases 9 - level,
{
    if level < 0 || level >= 9 {
        0u64
    } else {
        chosen_mask(bks, ch, level) | or_from(bks, ch, level + 1)
    }
}

/// The set of point indices covered by a mask.
pub open spec fn mask_points(m: u64) -> Set<int> {
    Set::new(|p: int| 0 <= p < 35 && ((m >> (p as u64)) & 1u64) == 1u64)
}

/// A selection that succeeds from `level` on covers, together with the
/// occupancy it started from, the whole lattice.
pub proof fn lemma_selection_covers(bks: Seq<Seq<u64>>, ch: Seq<usize>, level: int, prev: u64)
    requires
        selection_ok(bks, ch, level, prev),
        0 <= level <= 9,
    ensures
        (prev | or_from(bks, ch, level)) == FULL_MASK,
    decreases 9 - level,
{
    if level >= 9 {
        assert((prev | 0u64) == prev) by (bit_vector);
    } else {
        let pos = chosen_mask(bks, ch, level);
        lemma_selection_covers(bks, ch, level + 1, prev | pos);
        let rest = or_from(bks, ch, level + 1);
        assert(((prev | pos) | rest) == (prev | (pos | rest))) by (bit_vector);
    }
}

/// Coverage: in any successful solution the OR of the nine chosen masks is
/// the full 35-point mask.
pub proof fn lemma_coverage(bks: Seq<Seq<u64>>, ch: Seq<usize>)
    requires
        selection_ok(bks, ch, 0, 0),
    ensures
        or_from(bks, ch, 0) == FULL_MASK,
{
    lemma_selection_covers(bks, ch, 0, 0);
    let x = or_from(bks, ch, 0);
    assert((0u64 | x) == x) by (bit_vector);
}

/// A selection that succeeds from `level` on picks masks disjoint from the
/// occupancy it started from and pairwise disjoint among themselves.
pub proof fn lemma_selection_disjoint(bks: Seq<Seq<u64>>, ch: Seq<usize>, level: int, prev: u64)
    requires
        selection_ok(bks, ch, level, prev),
        0 <= level <= 9,
    ensures
        forall|a: int| level <= a < 9 ==> (prev & #[trigger] chosen_mask(bks, ch, a)) == 0,
        forall|a: int, b: int|
            #![trigger chosen_mask(bks, ch, a), chosen_mask(bks, ch, b)]
            level <= a < b < 9 ==> (chosen_mask(bks, ch, a) & chosen_mask(bks, ch, b)) == 0,
    decreases 9 - level,
{
    if level < 9 {
        let pos = chosen_mask(bks, ch, level);
        lemma_selection_disjoint(bks, ch, level + 1, prev | pos);
        assert forall|a: int| level < a < 9 implies (prev & #[trigger] chosen_mask(bks, ch, a))
            == 0 && (pos & chosen_mask(bks, ch, a)) == 0 by {
            let ma = chosen_mask(bks, ch, a);
            assert(((prev | pos) & ma) == 0 ==> (prev & ma) == 0 && (pos & ma) == 0)
                by (bit_vector);
        }
    }
}

/// Disjointness: in any successful solution the pairwise AND of the chosen
/// masks is zero.
pub proof fn lemma_disjointness(bks: Seq<Seq<u64>>, ch: Seq<usize>)
    requires
        selection_ok(bks, ch, 0, 0),
    ensures
        forall|a: int, b: int|
            #![trigger chosen_mask(bks, ch, a), chosen_mask(bks, ch, b)]
            0 <= a < b < 9 ==> (chosen_mask(bks, ch, a) & chosen_mask(bks, ch, b)) == 0,
{
    lemma_selection_disjoint(bks, ch, 0, 0);
}

/// The chosen index at every level of a successful selection is in range.
pub proof fn lemma_selection_in_range(bks: Seq<Seq<u64>>, ch: Seq<usize>, level: int, prev: u64)
    requires
        selection_ok(bks, ch, level, prev),
        0 <= level <= 9,
    ensures
        forall|c: int| level <= c < 9 ==> #[trigger] ch[c] < bks[c].len(),
    decreases 9 - level,
{
    if level < 9 {
        lemma_selection_in_range(bks, ch, level + 1, prev | chosen_mask(bks, ch, level));
    }
}

/// A three-point mask of distinct points covers exactly those three points.
pub proof fn lemma_mask3_points(a: int, b: int, c: int)
    requires
        0 <= a < 35,
        0 <= b < 35,
        0 <= c < 35,
        a != b,
        a != c,
        b != c,
    ensures
        mask_points(spec_mask3(a, b, c)) == set![a, b, c],
        mask_points(spec_mask3(a, b, c)).len() == 3,
{
    let au = a as u64;
    let bu = b as u64;
    let cu = c as u64;
    assert forall|p: int| 0 <= p < 64 implies ((#[trigger] (spec_mask3(a, b, c) >> (p as u64)) & 1u64
        == 1u64) <==> (p == a || p == b || p == c)) by {
        let pu = p as u64;
        assert(((((1u64 << au) | (1u64 << bu) | (1u64 << cu)) >> pu) & 1u64 == 1u64) <==> (pu == au
            || pu == bu || pu == cu)) by (bit_vector)
            requires
                au < 35,
                bu < 35,
                cu < 35,
                pu < 64,
        ;
    }
    assert(mask_points(spec_mask3(a, b, c)) =~= set![a, b, c]);
    broadcast use vstd::set::axiom_set_insert_len;

    assert(set![a, b, c].len() == 3);
}

/// A four-point mask of a valid tuple covers exactly its four points.
pub proof fn lemma_mask4_points(i: int, j: int, k: int, l: int)
    requires
        spec_valid_tuple(i, j, k, l),
    ensures
        mask_points(spec_mask4(i, j, k, l)) == set![i, j, k, l],
        mask_points(spec_mask4(i, j, k, l)).len() == 4,
{
    let iu = i as u64;
    let ju = j as u64;
    let ku = k as u64;
    let lu = l as u64;
    assert forall|p: int| 0 <= p < 64 implies ((#[trigger] (spec_mask4(i, j, k, l) >> (p as u64))
        & 1u64 == 1u64) <==> (p == i || p == j || p == k || p == l)) by {
        let pu = p as u64;
        assert(((((1u64 << iu) | (1u64 << ju) | (1u64 << ku) | (1u64 << lu)) >> pu) & 1u64 == 1u64)
            <==> (pu == iu || pu == ju || pu == ku || pu == lu)) by (bit_vector)
            requires
                iu < 35,
                ju < 35,
                ku < 35,
                lu < 35,
                pu < 64,
        ;
    }
    assert(mask_points(spec_mask4(i, j, k, l)) =~= set![i, j, k, l]);
    broadcast use vstd::set::axiom_set_insert_len;

    assert(set![i, j, k, l].len() == 4);
}

/// Population: against a correct catalogue, a successful selection picks a
/// three-point mask for class 0 and four-point masks for classes 1..=8, for a
/// total population of 35 covered points.
pub proof fn lemma_population(bks: Seq<Seq<u64>>, ch: Seq<usize>)
    requires
        catalogue_ok(bks),
        selection_ok(bks, ch, 0, 0),
    ensures
        mask_points(chosen_mask(bks, ch, 0)).len() == 3,
        forall|c: int| 1 <= c < 9 ==> #[trigger] mask_points(chosen_mask(bks, ch, c)).len() == 4,
        mask_points(chosen_mask(bks, ch, 0)).len() + mask_points(chosen_mask(bks, ch, 1)).len()
            + mask_points(chosen_mask(bks, ch, 2)).len() + mask_points(chosen_mask(bks, ch, 3)).len()
            + mask_points(chosen_mask(bks, ch, 4)).len() + mask_points(chosen_mask(bks, ch, 5)).len()
            + mask_points(chosen_mask(bks, ch, 6)).len() + mask_points(chosen_mask(bks, ch, 7)).len()
            + mask_points(chosen_mask(bks, ch, 8)).len() == 35,
{
    lemma_selection_in_range(bks, ch, 0, 0);
    assert(bks[0] == spec_base_masks());
    let m0 = chosen_mask(bks, ch, 0);
    assert(ch[0] < 5);
    if ch[0] == 0 {
        lemma_mask3_points(0, 1, 2);
    } else if ch[0] == 1 {
        lemma_mask3_points(1, 2, 3);
    } else if ch[0] == 2 {
        lemma_mask3_points(5, 6, 7);
    } else if ch[0] == 3 {
        lemma_mask3_points(9, 10, 11);
    } else {
        lemma_mask3_points(19, 20, 21);
    }
    assert(mask_points(m0).len() == 3);
    assert forall|c: int| 1 <= c < 9 implies #[trigger] mask_points(chosen_mask(bks, ch, c)).len()
        == 4 by {
        let mc = chosen_mask(bks, ch, c);
        assert(bks[c][ch[c] as int] == mc && ch[c] < bks[c].len());
        assert(bks[c].contains(mc));
        let (i, j, k, l) = choose|i: int, j: int, k: int, l: int|
            #[trigger] spec_emits(c, i, j, k, l) && mc == spec_mask4(i, j, k, l);
        lemma_mask4_points(i, j, k, l);
    }
}

/// The full-coverage mask covers exactly the 35 lattice points.
pub proof fn lemma_full_mask_points()
    ensures
        mask_points(FULL_MASK) == set_int_range(0, 35),
        mask_points(FULL_MASK).len() == 35,
{
    assert forall|p: int| 0 <= p < 64 implies ((#[trigger] (FULL_MASK >> (p as u64)) & 1u64 == 1u64)
        <==> p < 35) by {
        let pu = p as u64;
        assert((((0x7FFFFFFFFu64) >> pu) & 1u64 == 1u64) <==> pu < 35) by (bit_vector)
            requires
                pu < 64,
        ;
    }
    assert(mask_points(FULL_MASK) =~= set_int_range(0, 35));
    lemma_int_range(0, 35);
}

/// Lexicographic order on choice vectors is antisymmetric on the levels from
/// `level` up.
proof fn lemma_choices_leq_antisymmetric(a: Seq<usize>, b: Seq<usize>, level: int)
    requires
        0 <= level <= 9,
        choices_leq(a, b, level),
        choices_leq(b, a, level),
    ensures
        forall|c: int| level <= c < 9 ==> a[c] == b[c],
    decreases 9 - level,
{
    if level < 9 {
        assert(a[level] == b[level]);
        lemma_choices_leq_antisymmetric(a, b, level + 1);
    }
}

/// Determinism: two selections that are both valid and both lexicographically
/// minimal — as every selection the search records is — agree on every level,
/// so repeated searches over the same catalogue report the same choices.
pub proof fn lemma_determinism(bks: Seq<Seq<u64>>, a: Seq<usize>, b: Seq<usize>)
    requires
        selection_ok(bks, a, 0, 0),
        selection_ok(bks, b, 0, 0),
        forall|ch2: Seq<usize>| #[trigger] selection_ok(bks, ch2, 0, 0) ==> choices_leq(a, ch2, 0),
        forall|ch2: Seq<usize>| #[trigger] selection_ok(bks, ch2, 0, 0) ==> choices_leq(b, ch2, 0),
    ensures
        forall|c: int| 0 <= c < 9 ==> a[c] == b[c],
{
    lemma_choices_leq_antisymmetric(a, b, 0);
}

/// When no class at or after `c` covers point `p`, the final owner is
/// decided by the classes below `c`.
proof fn lemma_owner_step(bks: Seq<Seq<u64>>, ch: Seq<usize>, c: int, p: int)
    requires
        0 <= c <= 9,
        forall|c2: int|
            c <= c2 < 9 ==> ((#[trigger] chosen_mask(bks, ch, c2) >> (p as u64)) & 1u64) != 1u64,
    ensures
        spec_owner(bks, ch, 9, p) == spec_owner(bks, ch, c, p),
    decreases 9 - c,
{
    if c < 9 {
        lemma_owner_step(bks, ch, c + 1, p);
        assert(chosen_mask(bks, ch, c) == bks[c][ch[c] as int]);
    }
}

/// A positive owner names a class whose chosen mask covers the point.
proof fn lemma_owner_bit(bks: Seq<Seq<u64>>, ch: Seq<usize>, c: int, p: int)
    requires
        0 <= c <= 9,
    ensures
        0 <= spec_owner(bks, ch, c, p) <= c,
        spec_owner(bks, ch, c, p) > 0 ==> ((chosen_mask(bks, ch, spec_owner(bks, ch, c, p) - 1) >> (
        p as u64)) & 1u64) == 1u64,
    decreases c,
{
    if c > 0 {
        lemma_owner_bit(bks, ch, c - 1, p);
        assert(chosen_mask(bks, ch, c - 1) == bks[c - 1][ch[c - 1] as int]);
    }
}

/// Reporter soundness: under a successful selection, the reported piece
/// number of a point names exactly the class whose chosen mask covers it.
pub proof fn lemma_owner_partition(bks: Seq<Seq<u64>>, ch: Seq<usize>)
    requires
        selection_ok(bks, ch, 0, 0),
    ensures
        forall|p: int, c: int|
            0 <= p < 35 && 0 <= c < 9 ==> ((spec_owner(bks, ch, 9, p) == c + 1) <==> (
            #[trigger] (chosen_mask(bks, ch, c) >> (p as u64)) & 1u64) == 1u64),
{
    lemma_disjointness(bks, ch);
    assert forall|p: int, c: int| 0 <= p < 35 && 0 <= c < 9 implies ((spec_owner(bks, ch, 9, p) == c
        + 1) <==> (#[trigger] (chosen_mask(bks, ch, c) >> (p as u64)) & 1u64) == 1u64) by {
        let pu = p as u64;
        if ((chosen_mask(bks, ch, c) >> pu) & 1u64) == 1u64 {
            let mc = chosen_mask(bks, ch, c);
            assert forall|c2: int| c + 1 <= c2 < 9 implies ((#[trigger] chosen_mask(bks, ch, c2)
                >> pu) & 1u64) != 1u64 by {
                let m2 = chosen_mask(bks, ch, c2);
                assert((mc & m2) == 0);
                assert((mc & m2) == 0 && ((mc >> pu) & 1u64) == 1u64 ==> ((m2 >> pu) & 1u64)
                    != 1u64) by (bit_vector);
            }
            lemma_owner_step(bks, ch, c + 1, p);
            assert(chosen_mask(bks, ch, c) == bks[c][ch[c] as int]);
            assert(spec_owner(bks, ch, c + 1, p) == c + 1);
        }
        if spec_owner(bks, ch, 9, p) == c + 1 {
            lemma_owner_bit(bks, ch, 9, p);
        }
    }
}

} // verus!
