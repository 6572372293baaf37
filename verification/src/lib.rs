//! Math and stats routines over n-dimensional integer arrays, in the style of
//! a numeric array library: element-wise maps, reductions, cumulative scans,
//! order statistics and discrete convolution, with verified contracts.
//!
//! The dense n-dimensional storage itself comes from the `ndarray` crate and
//! is reached only through the trusted boundary in [`arrays`]; every
//! computation on the elements is verified. Parallel reduction variants go
//! through `rayon` and `crossbeam` behind the trusted items in [`parallel`].

pub mod arrays;
pub mod math;
pub mod parallel;
pub mod seq_ops;
pub mod stats;
