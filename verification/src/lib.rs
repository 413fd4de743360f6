//! Oscilloscope-style rendering of sampled signals.
//!
//! The crate turns time-series numeric data (audio samples, envelopes,
//! constant thresholds) into a bounded list of drawing commands for a
//! fixed-size pixel grid. Amplitudes and pixel coordinates are carried as
//! fixed-point integers with [`num::ONE`] units per pixel and per unit of
//! amplitude, so every reduction and coordinate transform is exact integer
//! arithmetic with a proved contract.

pub mod color;
pub mod coord;
pub mod geom;
pub mod grid;
pub mod model;
pub mod num;
pub mod reduce;
pub mod render;
