//! Hand-drawn outlines and fills.
//!
//! Outlines are geometry: an element becomes a path with jitter, which is stroked. Fills are a
//! style that each backend draws in its own way.

pub mod coverage;
pub mod damping;
pub mod directions;
pub mod fill;
pub mod limit;
pub mod options;
pub mod pass;
pub mod repeat;
pub mod rng;
pub mod rough;
pub mod walk;
