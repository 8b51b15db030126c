//! Volume arithmetic of the PulseAudio-compatible mixer backend: volumes are
//! written on the pulse scale (`norm * pct / 100`, where `norm` is the
//! server's normal volume) and the server applies the perceptual curve.

use vstd::prelude::*;

verus! {

/// The write for a level: the channel count (at least one) and the
/// per-channel raw volume, `norm * min(pct, 100) / 100`.
pub fn volume_for(norm: u32, channels: u8, pct: u32) -> (r: (u8, u32))
    ensures
        r.0 == (if channels < 1 { 1 } else { channels }),
        r.1 as int == norm as int * (if pct < 100 { pct as int } else { 100 }) / 100,
{
    let p: u64 = if pct < 100 { pct as u64 } else { 100 };
    assert(norm as u64 * p <= norm as u64 * 100) by (nonlinear_arith)
        requires
            p <= 100,
    ;
    let raw: u64 = norm as u64 * p / 100;
    assert(raw <= norm) by (nonlinear_arith)
        requires
            raw == norm as u64 * p / 100,
            p <= 100,
    ;
    let c: u8 = if channels < 1 { 1 } else { channels };
    (c, raw as u32)
}

/// A volume read back as a percentage of normal: `avg * 100 / norm`,
/// truncated to 32 bits.
pub fn to_pct(avg: u32, norm: u32) -> (r: u32)
    requires
        norm > 0,
    ensures
        r == ((avg as int * 100) / norm as int) as u32,
{
    let q: u64 = avg as u64 * 100 / norm as u64;
    q as u32
}

} // verus!
