//! A multi-channel digital delay (echo) effect for block-based audio
//! processing.
//!
//! Samples and parameters are fixed-point values in millionths: the value
//! `1_000_000` stands for a gain of one, or for one millisecond of delay
//! time. The engine owns one circular, power-of-two-sized delay line per
//! channel and transforms blocks of samples in place.

pub mod buffer_view;
pub mod delay;
pub mod effect;
pub mod fixed;
pub mod model;
pub mod pow2;

pub use fixed::SCALE;
