//! Bookkeeping for a seed-driven fuzzing harness: a fixed-memory estimator of
//! how many distinct outputs a target has produced, the log of every
//! `(seed, output)` pair that fed it, and the controllers that record and
//! replay that log.

pub mod digest;
pub mod estimate;
pub mod estimator;
pub mod fuzz;
pub mod outcome;
pub mod replay;
pub mod snapshot;
