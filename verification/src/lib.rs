//! Verified solver for a tetrahedral sphere-stacking puzzle: cover the 35
//! lattice points of a five-layer triangular pyramid with nine rigid planar
//! pieces, one piece per candidate bucket, so that the pieces are pairwise
//! disjoint and together occupy every point.

pub mod geometry;
pub mod shape;
pub mod solver;
pub mod laws;
