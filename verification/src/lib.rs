//! Core of a two-channel VU meter: a bounded-memory sliding-window RMS
//! estimator over fixed-point samples, with time-indexed queries.
//!
//! Samples enter as fixed-point values scaled by `SCALE` (16384 per unit);
//! sums of squares are maintained incrementally per channel over a window of
//! 0.3 seconds, and queries return the integer square root of the windowed
//! mean, still scaled by `SCALE`. The surrounding application converts
//! device floats to fixed point on the way in and divides by `SCALE` on the
//! way out.

pub mod isqrt;
pub mod laws;
pub mod processor;
pub mod window;

pub use window::SCALE;
