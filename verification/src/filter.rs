//! The integer stages of the per-axis signal path from a raw HID reading to
//! an applied volume %.
//!
//! The mute detent is gated on the *instantaneous* raw reading (the smoothed
//! value lags a slow pull) and latched with [`MUTE_EXIT_BAND`] so boundary
//! jitter can't flicker the mute.

use vstd::prelude::*;

verus! {

/// A raw jump beyond this (mV) is real movement, not noise — track it exactly.
/// Wiper noise is ~±15 mV; the firmware's rest band is 30 mV.
pub const SNAP_BAND: i32 = 60;

/// The mute dead zone unlatches only this far (mV) above its threshold.
pub const MUTE_EXIT_BAND: i32 = 15;

/// The mute-detent latch after one raw reading: with the detent enabled
/// (`mute_raw > 0`), a reading below `mute_raw` latches it, a reading more
/// than [`MUTE_EXIT_BAND`] above `mute_raw` releases it, and a reading in
/// between keeps the previous state. With the detent off it is never latched.
pub fn next_mute_zone(in_mute_zone: bool, raw: i32, mute_raw: i32) -> (r: bool)
    requires
        mute_raw > 0 && raw >= mute_raw ==> mute_raw + MUTE_EXIT_BAND <= i32::MAX,
    ensures
        mute_raw <= 0 ==> !r,
        mute_raw > 0 && raw < mute_raw ==> r,
        mute_raw > 0 && raw > mute_raw + MUTE_EXIT_BAND ==> !r,
        mute_raw > 0 && mute_raw <= raw <= mute_raw + MUTE_EXIT_BAND ==> r == in_mute_zone,
{
    if mute_raw > 0 {
        if raw < mute_raw {
            true
        } else if raw > mute_raw + MUTE_EXIT_BAND {
            false
        } else {
            in_mute_zone
        }
    } else {
        false
    }
}

} // verus!
