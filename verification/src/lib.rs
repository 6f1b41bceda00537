//! Mathematical core of a five-token automated market maker whose trading
//! curve is the intersection of a hypersphere (bounding total reserves) and a
//! hyperplane (bounding a depeg limit).
//!
//! All quantities are unsigned fixed-point numbers with 48 fractional bits
//! held in a `u128` (80 integer bits).  The crate provides
//! * the fixed-point arithmetic layer (`fixed`),
//! * closed-form tick parameter derivation (`tick`),
//! * the quadratic solver for tick-boundary crossings (`quadratic`),
//! * the invariant evaluator (`evaluator`), and
//! * the Newton-Raphson solver that quotes a swap output preserving the
//!   combined sphere-plus-plane invariant (`torus`).
//!
//! Every operation is a pure function of its arguments: results are
//! bit-identical across machines, and every loop has a fixed iteration bound.

pub mod config;
pub mod errors;
pub mod evaluator;
pub mod fixed;
pub mod quadratic;
pub mod tick;
pub mod torus;
