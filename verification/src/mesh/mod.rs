//! Mesh data structure and the algorithms that run on it.
pub mod half_edge;
pub mod face_split;
pub mod fan;
pub mod ring;
pub mod flip;
pub mod soup;
pub mod cut;
pub mod regions;
pub mod stats;
pub mod obj_loader;
pub mod delaunay;
pub mod knot;
pub mod boundary;
pub mod grid;
pub mod euler;

use vstd::prelude::*;

verus! {

/// Triangle as three vertex indices (v0, v1, v2).
pub type TriIndex = (usize, usize, usize);

/// Quad as four vertex indices (v00, v10, v11, v01).
pub type QuadIndex = (usize, usize, usize, usize);

} // verus!
