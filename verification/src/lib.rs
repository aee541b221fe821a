//! Verified core of the TROP (Triply Robust Panel) estimator.
//!
//! Everything the estimator decides, selects, indexes, counts or orders lives
//! here; the floating-point kernels and the C entry points are ordinary Rust
//! around it.  A floating-point number enters this crate as its IEEE-754
//! binary64 encoding, a `u64`, which is enough to classify, compare, copy and
//! route it.  Where a function needs arithmetic, the caller supplies it as a
//! function on encodings, and the contract says what it is applied to and what
//! becomes of the result.
pub mod agreement;
pub mod alternating;
pub mod arithmetic;
pub mod bits;
pub mod bootstrap;
pub mod caching;
pub mod crossval;
pub mod determined;
pub mod distance;
pub mod entry;
pub mod error;
pub mod estimation;
pub mod fit;
pub mod inference;
pub mod joint;
pub mod joint_determined;
pub mod kernels;
pub mod loocv;
pub mod matrix;
pub mod minimum;
pub mod model;
pub mod panel;
pub mod rao_wu;
pub mod replication;
pub mod rng;
pub mod search;
pub mod selection;
pub mod survey;
pub mod tuned;
pub mod tuning;
pub mod twostep;
pub mod variance;
pub mod weights;
pub mod workers;

pub use error::{TropError, TropResult};
