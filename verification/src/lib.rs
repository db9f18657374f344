use vstd::prelude::*;

pub mod chart;
pub mod config;
pub mod eval;
pub mod freshness;
pub mod markers;
pub mod models;
pub mod proximity;
pub mod regime;
pub mod scan;
pub mod scoring;
pub mod sidecar;
pub mod text;
pub mod universe;
pub mod watchlist;

verus! {
} // verus!
