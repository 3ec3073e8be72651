//! A focus timer: a bar that fills from left to right over a chosen duration.
//!
//! Time is counted in whole milliseconds and lengths in integer units chosen
//! by the caller, so every quantity here is exact.
pub mod progress;
pub mod geometry;
pub mod duration;
pub mod widget;
