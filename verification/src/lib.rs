//! A point quadtree over an integer grid, with several ways of storing the
//! points of a node and of collecting the answer to a range query.

use vstd::prelude::*;

pub mod geometry;
pub mod model;
pub mod storage;
pub mod basic_implementation;
pub mod unsafe_implementation;
pub mod smallvec_implementation;
pub mod query_optimization;
pub mod laws;

verus! {

/// The number of points that a node of the fixed strategies holds itself.
pub const CAPACITY: usize = 4;

} // verus!
