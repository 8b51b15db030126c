//! Platform-neutral core logic for FadeWire: calibration curves, the
//! integer parts of the per-axis signal path, the mixer's target
//! resolution, and the decisions of the daemon's drive loop.

use vstd::prelude::*;

pub mod calibration;
pub mod cli;
pub mod config;
pub mod engine;
pub mod filter;
pub mod hid;
pub mod mixer;
pub mod paths;
pub mod pulse;
pub mod state;
pub mod text;

verus! {

/// The fader HID report (vendor page 0xFF00, report id 2) carries up to
/// eight signed 16-bit little-endian axes of raw wiper mV.
pub const MAX_AXES: usize = 8;

} // verus!
