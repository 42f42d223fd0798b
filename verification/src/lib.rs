//! A text-mode oscilloscope core: timestamped samples arrive as text lines,
//! are kept in a rolling time window, and are mapped onto an ASCII grid that
//! a terminal front end redraws in place.
//!
//! Time is measured in milliseconds and sample values in thousandths of a
//! unit, so that the whole pipeline is exact integer arithmetic.

pub mod buffer;
pub mod config;
pub mod engine;
pub mod grid;
pub mod parse;
pub mod sample;
