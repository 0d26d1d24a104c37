//! Live-sensor stream parsing and rendering.
//!
//! The library turns the line-oriented text report of a hardware-sensor
//! utility into complete samples (fan speed, CPU die temperature, GPU die
//! temperature) and formats those samples for a full-screen display.  All of
//! the logic — marker detection, field pattern matching, decimal parsing and
//! line formatting — is verified; terminal handling and process plumbing live
//! outside the library.

pub mod laws;
pub mod number;
pub mod parser;
pub mod render;
pub mod text;
