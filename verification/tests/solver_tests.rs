use pyramid_solver::geometry::dist2;
use pyramid_solver::shape::classify;
use pyramid_solver::solver::PyramidSolver;
use pyramid_solver::solver::FULL_MASK;

/// Unit spacing of the lattice: squared distances are scaled by 10^10.
#[test]
fn distance_unit() {
    assert_eq!(dist2(0, 1), 10_000_000_000);
    assert_eq!(dist2(0, 2), 40_000_000_000);
    // d(0, 14) = sqrt(2^2 + 3.464^2), just short of 4.
    assert_eq!(dist2(0, 14), 159_992_960_000);
}

#[test]
fn distance_symmetric() {
    assert_eq!(dist2(3, 17), dist2(17, 3));
    assert_eq!(dist2(5, 5), 0);
}

#[test]
fn planarity_positive() {
    // The base row lies in the bottom layer, the first coplanar group.
    assert!(PyramidSolver::is_planar(0, 1, 2, 3));
}

#[test]
fn planarity_negative() {
    // Points 0, 1, 2 of the bottom row together with 19 of the second layer
    // lie in no coplanar group.
    assert!(!PyramidSolver::is_planar(0, 1, 2, 19));
}

#[test]
fn planarity_base_row_with_apex() {
    // A slanted face of the pyramid contains the whole front base row and the
    // apex, so this quadruple is planar.
    assert!(PyramidSolver::is_planar(0, 1, 2, 34));
}

#[test]
fn in_plane_checks() {
    assert!(PyramidSolver::in_plane(0, 0, 1, 2, 3));
    assert!(!PyramidSolver::in_plane(1, 0, 1, 2, 3));
    assert!(PyramidSolver::in_plane(6, 0, 1, 2, 34));
}

#[test]
fn classifier_positive() {
    // Sorted distances (1, 1, 1, 1, 1.732, 2): the second fingerprint.
    assert_eq!(classify(0, 1, 2, 5), Some(1));
}

#[test]
fn classifier_cutoff_reject() {
    // The base row spans a distance of 3, beyond the 2.66 diameter cutoff.
    assert_eq!(classify(0, 1, 2, 3), None);
}

#[test]
fn classifier_no_fit_reject() {
    // Within the cutoff but matching no fingerprint.
    assert_eq!(classify(0, 1, 2, 9), None);
}

#[test]
fn classifier_one_example_per_class() {
    assert_eq!(classify(0, 1, 2, 7), Some(0));
    assert_eq!(classify(0, 1, 6, 7), Some(2));
    assert_eq!(classify(0, 1, 6, 9), Some(3));
    assert_eq!(classify(1, 5, 16, 26), Some(4));
}

#[test]
fn masks() {
    assert_eq!(PyramidSolver::set3(0, 1, 2), 0b111);
    assert_eq!(PyramidSolver::set3(19, 20, 21), (1u64 << 19) | (1u64 << 20) | (1u64 << 21));
    assert_eq!(PyramidSolver::set4(0, 1, 2, 5), 39);
}

#[test]
fn bucket0_content() {
    let mut s = PyramidSolver::new();
    s.initialize();
    assert_eq!(s.buckets[0], vec![7, 14, 224, 3584, 3670016]);
}

#[test]
fn match_distances_deposits() {
    let mut s = PyramidSolver::new();
    s.match_distances(0, 1, 2, 5);
    assert_eq!(s.buckets[2], vec![39]);
    for b in [0usize, 1, 3, 4, 5, 6, 7, 8] {
        assert!(s.buckets[b].is_empty());
    }
}

#[test]
fn match_distances_quadruplicates() {
    let mut s = PyramidSolver::new();
    s.match_distances(1, 5, 16, 26);
    let pos = PyramidSolver::set4(1, 5, 16, 26);
    for b in 5..9 {
        assert_eq!(s.buckets[b], vec![pos]);
    }
    for b in 0..5 {
        assert!(s.buckets[b].is_empty());
    }
}

#[test]
fn generated_bucket_lengths() {
    let mut s = PyramidSolver::new();
    s.initialize();
    s.precompute();
    let lens: Vec<usize> = s.buckets.iter().map(|b| b.len()).collect();
    assert_eq!(lens, vec![5, 384, 336, 96, 168, 96, 96, 96, 96]);
    assert_eq!(s.buckets[5], s.buckets[6]);
    assert_eq!(s.buckets[6], s.buckets[7]);
    assert_eq!(s.buckets[7], s.buckets[8]);
}

#[test]
fn search_base_level() {
    let mut s = PyramidSolver::new();
    assert!(s.search(9, FULL_MASK));
    assert!(!s.search(9, 7));
}

#[test]
fn search_on_empty_catalogue_fails() {
    let mut s = PyramidSolver::new();
    assert!(!s.search(0, 0));
    assert_eq!(s.choices, vec![0; 9]);
}

#[test]
fn end_to_end() {
    let mut s = PyramidSolver::new();
    assert!(s.solve());
    assert_eq!(s.choices, vec![0, 216, 81, 24, 157, 26, 33, 65, 89]);

    // The chosen masks are pairwise disjoint and cover the full lattice.
    let masks: Vec<u64> = (0..9).map(|c| s.buckets[c][s.choices[c]]).collect();
    let mut union: u64 = 0;
    for &m in &masks {
        assert_eq!(union & m, 0);
        union |= m;
    }
    assert_eq!(union, FULL_MASK);

    // Class 0 places three points, every other class four.
    assert_eq!(masks[0].count_ones(), 3);
    for c in 1..9 {
        assert_eq!(masks[c].count_ones(), 4);
    }

    // The reported per-point piece numbers group back into the chosen masks.
    let occ = s.occupancy();
    assert_eq!(
        occ,
        vec![
            1, 1, 1, 4, 3, 6, 7, 4, 3, 2, 7, 8, 2, 7, 2, 6, 6, 6, 3, 2, 4, 9, 4, 8, 7, 5, 5, 3, 8,
            9, 8, 9, 5, 9, 5
        ]
    );
    for p in 0..35 {
        let piece = occ[p];
        assert!((1..=9).contains(&piece));
        assert_eq!((masks[piece - 1] >> p) & 1, 1);
    }
}

#[test]
fn determinism() {
    let mut a = PyramidSolver::new();
    let mut b = PyramidSolver::new();
    assert!(a.solve());
    assert!(b.solve());
    assert_eq!(a.choices, b.choices);
    assert_eq!(a.buckets, b.buckets);
    assert_eq!(a.occupancy(), b.occupancy());
}
