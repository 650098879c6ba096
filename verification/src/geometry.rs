//! Fixed geometry of the 35-point tetrahedral lattice.
//!
//! The lattice stacks four triangular layers and an apex; every coordinate of
//! every point is an exact multiple of 1/100000. Coordinates are therefore
//! kept as integers scaled by 100000, and the squared distance between two
//! points is an exact integer scaled by 10^10. All geometric tests in this
//! crate are decided on these exact values; no rounding is involved anywhere.

use vstd::prelude::*;

verus! {

/// Number of lattice points.
pub const NUM_POINTS: usize = 35;

/// Number of coplanar point groups.
pub const NUM_PLANES: usize = 21;

/// Scaled coordinates (x, y, z) of lattice point `i`, each multiplied by 100000.
pub open spec fn spec_coords(i: int) -> (int, int, int) {
    if i == 0 {
        (0, 0, 0)
    } else if i == 1 {
        (100000, 0, 0)
    } else if i == 2 {
        (200000, 0, 0)
    } else if i == 3 {
        (300000, 0, 0)
    } else if i == 4 {
        (400000, 0, 0)
    } else if i == 5 {
        (50000, 86600, 0)
    } else if i == 6 {
        (150000, 86600, 0)
    } else if i == 7 {
        (250000, 86600, 0)
    } else if i == 8 {
        (350000, 86600, 0)
    } else if i == 9 {
        (100000, 173200, 0)
    } else if i == 10 {
        (200000, 173200, 0)
    } else if i == 11 {
        (300000, 173200, 0)
    } else if i == 12 {
        (150000, 259800, 0)
    } else if i == 13 {
        (250000, 259800, 0)
    } else if i == 14 {
        (200000, 346400, 0)
    } else if i == 15 {
        (50000, 28867, 81650)
    } else if i == 16 {
        (150000, 28867, 81650)
    } else if i == 17 {
        (250000, 28867, 81650)
    } else if i == 18 {
        (350000, 28867, 81650)
    } else if i == 19 {
        (100000, 115467, 81650)
    } else if i == 20 {
        (200000, 115467, 81650)
    } else if i == 21 {
        (300000, 115467, 81650)
    } else if i == 22 {
        (150000, 202067, 81650)
    } else if i == 23 {
        (250000, 202067, 81650)
    } else if i == 24 {
        (200000, 288667, 81650)
    } else if i == 25 {
        (100000, 57734, 163300)
    } else if i == 26 {
        (200000, 57734, 163300)
    } else if i == 27 {
        (300000, 57734, 163300)
    } else if i == 28 {
        (150000, 144334, 163300)
    } else if i == 29 {
        (250000, 144334, 163300)
    } else if i == 30 {
        (200000, 230934, 163300)
    } else if i == 31 {
        (150000, 86601, 244950)
    } else if i == 32 {
        (250000, 86601, 244950)
    } else if i == 33 {
        (200000, 173201, 244950)
    } else {
        (200000, 115468, 326600)
    }
}

/// Scaled coordinates of lattice point `i`.
pub fn coords(i: usize) -> (r: (i64, i64, i64))
    requires
        i < 35,
    ensures
        (r.0 as int, r.1 as int, r.2 as int) == spec_coords(i as int),
        0 <= r.0 <= 400000,
        0 <= r.1 <= 346400,
        0 <= r.2 <= 326600,
{
    if i == 0 {
        (0, 0, 0)
    } else if i == 1 {
        (100000, 0, 0)
    } else if i == 2 {
        (200000, 0, 0)
    } else if i == 3 {
        (300000, 0, 0)
    } else if i == 4 {
        (400000, 0, 0)
    } else if i == 5 {
        (50000, 86600, 0)
    } else if i == 6 {
        (150000, 86600, 0)
    } else if i == 7 {
        (250000, 86600, 0)
    } else if i == 8 {
        (350000, 86600, 0)
    } else if i == 9 {
        (100000, 173200, 0)
    } else if i == 10 {
        (200000, 173200, 0)
    } else if i == 11 {
        (300000, 173200, 0)
    } else if i == 12 {
        (150000, 259800, 0)
    } else if i == 13 {
        (250000, 259800, 0)
    } else if i == 14 {
        (200000, 346400, 0)
    } else if i == 15 {
        (50000, 28867, 81650)
    } else if i == 16 {
        (150000, 28867, 81650)
    } else if i == 17 {
        (250000, 28867, 81650)
    } else if i == 18 {
        (350000, 28867, 81650)
    } else if i == 19 {
        (100000, 115467, 81650)
    } else if i == 20 {
        (200000, 115467, 81650)
    } else if i == 21 {
        (300000, 115467, 81650)
    } else if i == 22 {
        (150000, 202067, 81650)
    } else if i == 23 {
        (250000, 202067, 81650)
    } else if i == 24 {
        (200000, 288667, 81650)
    } else if i == 25 {
        (100000, 57734, 163300)
    } else if i == 26 {
        (200000, 57734, 163300)
    } else if i == 27 {
        (300000, 57734, 163300)
    } else if i == 28 {
        (150000, 144334, 163300)
    } else if i == 29 {
        (250000, 144334, 163300)
    } else if i == 30 {
        (200000, 230934, 163300)
    } else if i == 31 {
        (150000, 86601, 244950)
    } else if i == 32 {
        (250000, 86601, 244950)
    } else if i == 33 {
        (200000, 173201, 244950)
    } else {
        (200000, 115468, 326600)
    }
}

/// The square of an integer.
pub open spec fn sq(x: int) -> int {
    x * x
}

/// Exact squared distance between points `i` and `j`, scaled by 10^10.
pub open spec fn spec_dist2(i: int, j: int) -> int {
    let (x1, y1, z1) = spec_coords(i);
    let (x2, y2, z2) = spec_coords(j);
    sq(x1 - x2) + sq(y1 - y2) + sq(z1 - z2)
}

/// Exact squared distance between points `i` and `j`, scaled by 10^10.
pub fn dist2(i: usize, j: usize) -> (r: u64)
    requires
        i < 35,
        j < 35,
    ensures
        r as int == spec_dist2(i as int, j as int),
{
    let (x1, y1, z1) = coords(i);
    let (x2, y2, z2) = coords(j);
    let dx = x1 - x2;
    let dy = y1 - y2;
    let dz = z1 - z2;
    proof {
        assert(0 <= dx * dx <= 160000000000 && 0 <= dy * dy <= 160000000000 && 0 <= dz * dz
            <= 160000000000) by (nonlinear_arith)
            requires
                -400000 <= dx <= 400000,
                -400000 <= dy <= 400000,
                -400000 <= dz <= 400000,
        ;
    }
    (dx * dx + dy * dy + dz * dz) as u64
}

/// Bit mask over point indices of coplanar group `p`: bit `i` is set iff
/// point `i` belongs to the group. The groups are stored as sets, so a point
/// appears at most once however often the source tables repeat it.
pub open spec fn spec_plane_mask(p: int) -> u64 {
    if p == 0 {
        0x7fff
    } else if p == 1 {
        0x1ff8000
    } else if p == 2 {
        0x7e000000
    } else if p == 3 {
        0x6d348d221
    } else if p == 4 {
        0x124912442
    } else if p == 5 {
        0x8220884
    } else if p == 6 {
        0x58e07801f
    } else if p == 7 {
        0x2303801e0
    } else if p == 8 {
        0x40c00e00
    } else if p == 9 {
        0x769a46910
    } else if p == 10 {
        0x94521488
    } else if p == 11 {
        0x2090244
    } else if p == 12 {
        0x781e0
    } else if p == 13 {
        0xe380e00
    } else if p == 14 {
        0x1b0c03000
    } else if p == 15 {
        0x148a442
    } else if p == 16 {
        0x52910884
    } else if p == 17 {
        0x2a4220108
    } else if p == 18 {
        0x1a41488
    } else if p == 19 {
        0x68520244
    } else {
        0x314090022
    }
}

/// Bit mask over point indices of coplanar group `p`.
pub fn plane_mask(p: usize) -> (r: u64)
    requires
        p < 21,
    ensures
        r == spec_plane_mask(p as int),
{
    if p == 0 {
        0x7fff
    } else if p == 1 {
        0x1ff8000
    } else if p == 2 {
        0x7e000000
    } else if p == 3 {
        0x6d348d221
    } else if p == 4 {
        0x124912442
    } else if p == 5 {
        0x8220884
    } else if p == 6 {
        0x58e07801f
    } else if p == 7 {
        0x2303801e0
    } else if p == 8 {
        0x40c00e00
    } else if p == 9 {
        0x769a46910
    } else if p == 10 {
        0x94521488
    } else if p == 11 {
        0x2090244
    } else if p == 12 {
        0x781e0
    } else if p == 13 {
        0xe380e00
    } else if p == 14 {
        0x1b0c03000
    } else if p == 15 {
        0x148a442
    } else if p == 16 {
        0x52910884
    } else if p == 17 {
        0x2a4220108
    } else if p == 18 {
        0x1a41488
    } else if p == 19 {
        0x68520244
    } else {
        0x314090022
    }
}

/// Point `i` belongs to coplanar group `p`.
pub open spec fn spec_in_group(p: int, i: int) -> bool {
    (spec_plane_mask(p) >> (i as u64)) & 1u64 == 1u64
}

/// All four points belong to coplanar group `p`.
pub open spec fn spec_in_plane(p: int, i: int, j: int, k: int, l: int) -> bool {
    spec_in_group(p, i) && spec_in_group(p, j) && spec_in_group(p, k) && spec_in_group(p, l)
}

/// Some coplanar group contains all four points.
pub open spec fn spec_is_planar(i: int, j: int, k: int, l: int) -> bool {
    exists|p: int| 0 <= p < 21 && spec_in_plane(p, i, j, k, l)
}

/// Mask with the single bit `i` set.
pub open spec fn spec_bit(i: int) -> u64 {
    1u64 << (i as u64)
}

/// Mask of a three-point subset.
pub open spec fn spec_mask3(a: int, b: int, c: int) -> u64 {
    spec_bit(a) | spec_bit(b) | spec_bit(c)
}

/// Mask of a four-point subset.
pub open spec fn spec_mask4(i: int, j: int, k: int, l: int) -> u64 {
    spec_bit(i) | spec_bit(j) | spec_bit(k) | spec_bit(l)
}

} // verus!
