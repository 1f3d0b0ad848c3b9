//! A verified escape-time engine for exploring the Mandelbrot set.
//!
//! The engine evaluates, per pixel of a viewport, whether the orbit of
//! `z -> z*z + c` stays within the escape radius for a given iteration
//! limit.  Coordinates are saturating fixed-point numbers whose fractional
//! width is chosen per backend, so the same iteration rule serves a
//! single-precision, a double-precision, two lane-batched, and an
//! arbitrary-precision backend.  Rows of the result grid are computed
//! either sequentially or on one worker thread per row, and a lifecycle
//! event stream reports progress to an optional observer.

pub mod bounded;
pub mod compute;
pub mod events;
pub mod fixed;
pub mod viewport;

pub use fixed::MAX_FRAC_BITS;
