//! Multi-scalar multiplication on the groups of BLS12-381 by Pippenger's bucket
//! method.
//!
//! Given bases `B_i` and scalars `s_i`, `multiexp` computes the sum of the products
//! `s_i * B_i`. The bits of the scalars are cut into windows; within a window every
//! base is added to the bucket of its digit, and the buckets are folded by running
//! sums, so that no base is ever multiplied. The windows are joined by doubling.
//!
//! The curve arithmetic is that of the `pairing` crate. The verifier does not see
//! into it: each operation has a name (`curve`), and the result of every function
//! here is stated exactly as a term over these names (`model`).
//!
//! - `curve`, `scalar`: points and scalars of `pairing`, and what is trusted of them.
//! - `density`: which slots of the scalars are active.
//! - `source`: cursors over the bases.
//! - `model`: what a scan, a window and the joined windows compute, and when they
//!   fail.
//! - `engine`: the sum of one window.
//! - `composer`: the width of the windows, their joining, and `multiexp`.
//! - `weights`, `laws`, `reading`: the multiplication gives every base the weight
//!   of its scalar, whatever the width of the windows; in every commutative group
//!   it equals the direct evaluation.
//! - `exclusion`: inactive slots take no part.
//! - `failures`: when the multiplication fails, and with which error.

pub mod composer;
pub mod curve;
pub mod density;
pub mod engine;
pub mod exclusion;
pub mod failures;
pub mod laws;
pub mod model;
pub mod reading;
pub mod scalar;
pub mod source;
pub mod weights;

pub use crate::composer::{
    join_windows, multiexp, multiexp_from, multiexp_inner, window_above, window_width,
};
pub use crate::curve::AffinePoint;
pub use crate::density::{DensityTracker, FullDensity, QueryDensity};
pub use crate::engine::{window_sum, window_sum_from};
pub use crate::source::{Source, SourceBuilder, SynthesisError};
