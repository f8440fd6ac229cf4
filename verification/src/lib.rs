//! Deterministic huge-page region allocation with NUMA-node fallback.
//!
//! The library plans the virtual address of every page of a region up
//! front, drives each page through a map / bind / lock / commit pipeline,
//! and fills a region from a preferred NUMA node first, falling back to a
//! secondary node once the preferred node is exhausted.  A region is
//! all-or-nothing: on failure every page acquired so far is released.

use vstd::prelude::*;

pub mod coordinator;
pub mod errors;
pub mod region;
pub mod page;
pub mod planner;
pub mod sim;

verus! {

} // verus!
