//! Histogram support for dense multi-dimensional numeric samples.
//!
//! The crate infers bin boundaries from one-dimensional samples with a set of
//! classical bin-width strategies (square root, Rice, Sturges,
//! Freedman-Diaconis and an automatic choice between the last two), combines
//! one partition per axis into a rectangular grid, and accumulates
//! observation counts per grid cell. Quantile interpolation strategies are
//! provided both for direct use and for the quartile estimates that the
//! Freedman-Diaconis rule relies on.
use vstd::prelude::*;

pub mod errors;
pub mod intmath;
pub mod sorting;
pub mod bins;
pub mod strategies;
pub mod histograms;
pub mod interpolate;

verus! {

/// This is a public type that cannot be constructed outside this crate: it
/// can appear in public signatures, and any item that demands one is closed
/// to other crates.
pub struct PrivateMarker {
    _seal: (),
}

} // verus!
