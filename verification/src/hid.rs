//! The fader HID device: report parsing, device selection, and status
//! deduplication for the reader thread (which itself runs in the
//! application).
//!
//! The device emits a vendor-page report (page 0xFF00, report id 2) of up to
//! eight signed 16-bit LE axes carrying raw wiper mV (~0..3300). Matching is
//! transport-agnostic — USB and BLE both surface as hidraw — and keys off the
//! vendor usage first (BLE may present a different PID):
//!   1. usage page 0xFF00 + usage 0x0001, preferring VID 0x1d50;
//!   2. any device on the vendor page, preferring VID 0x1d50.

use vstd::prelude::*;

use crate::MAX_AXES;

verus! {

/// The fader unit's USB vendor id.
pub const VID: u16 = 0x1d50;

/// The report id of the fader report.
pub const REPORT_ID: u8 = 0x02;

/// The vendor usage page the fader report lives on.
pub const USAGE_PAGE: u16 = 0xFF00;

/// What the reader thread tells the engine.
#[derive(Clone, Debug, PartialEq, Eq)]
pub enum HidEvent {
    /// One fader report: `axes[..count]` are valid.
    Axes { axes: [i32; MAX_AXES], count: usize },
    /// Connection state changed (deduplicated).
    Status { connected: bool, message: String },
}

/// The value of a signed 16-bit little-endian pair of bytes.
pub open spec fn le_i16(lo: u8, hi: u8) -> int {
    if hi < 128 {
        hi * 256 + lo
    } else {
        hi * 256 + lo - 65536
    }
}

/// The number of axes a report of `n` bytes carries.
pub open spec fn axis_count(n: int) -> int {
    if (n - 1) / 2 < MAX_AXES { (n - 1) / 2 } else { MAX_AXES as int }
}

/// Decode the first `n` bytes of `buf` as read from the device. A report of
/// at least three bytes with the fader report id yields its axes (the rest
/// of the array zero); anything else (a timeout, another report) yields
/// nothing.
pub fn parse_report(buf: &[u8], n: usize) -> (r: Option<HidEvent>)
    requires
        n <= buf@.len(),
    ensures
        r is Some <==> n >= 3 && buf@[0] == REPORT_ID,
        r matches Some(e) ==> (e matches HidEvent::Axes { axes, count } && count == axis_count(
            n as int,
        ) && (forall|i: int| 0 <= i < count ==> #[trigger] axes@[i] == le_i16(buf@[1 + 2 * i], buf@[2 + 2 * i]))
            && forall|i: int| count <= i < MAX_AXES ==> #[trigger] axes@[i] == 0),
{
    if n < 3 || buf[0] != REPORT_ID {
        return None;
    }
    let half: usize = (n - 1) / 2;
    let count: usize = if half < MAX_AXES { half } else { MAX_AXES };
    let mut axes = [0i32; MAX_AXES];
    let mut i: usize = 0;
    while i < count
        invariant
            i <= count,
            count == axis_count(n as int),
            count <= MAX_AXES,
            2 * count + 1 <= n,
            n <= buf@.len(),
            axes@.len() == MAX_AXES,
            forall|k: int| 0 <= k < i ==> #[trigger] axes@[k] == le_i16(buf@[1 + 2 * k], buf@[2 + 2 * k]),
            forall|k: int| i <= k < MAX_AXES ==> #[trigger] axes@[k] == 0,
        decreases count - i,
    {
        let lo: u8 = buf[1 + 2 * i];
        let hi: u8 = buf[2 + 2 * i];
        let u: i32 = hi as i32 * 256 + lo as i32;
        let v: i32 = if hi < 128 {
            u
        } else {
            u - 65536
        };
        axes.set(i, v);
        i += 1;
    }
    Some(HidEvent::Axes { axes, count })
}


/// The identity fields of a HID device the selection reads.
#[derive(Clone, Copy, Debug, PartialEq, Eq, Structural)]
pub struct DeviceSummary {
    pub usage_page: u16,
    pub usage: u16,
    pub vendor_id: u16,
}

/// The fader usage on the vendor page from the fader unit's vendor.
pub open spec fn exact_match(d: DeviceSummary) -> bool {
    d.usage_page == USAGE_PAGE && d.usage == 1 && d.vendor_id == VID
}

/// The fader usage on the vendor page, any vendor.
pub open spec fn usage_match(d: DeviceSummary) -> bool {
    d.usage_page == USAGE_PAGE && d.usage == 1
}

/// Another usage on the vendor page from the fader unit's vendor.
pub open spec fn page_ours(d: DeviceSummary) -> bool {
    d.usage_page == USAGE_PAGE && d.usage != 1 && d.vendor_id == VID
}

/// Another usage on the vendor page from another vendor.
pub open spec fn page_any(d: DeviceSummary) -> bool {
    d.usage_page == USAGE_PAGE && d.usage != 1 && d.vendor_id != VID
}

/// The index of the first device at or after `i` that satisfies `p`.
pub open spec fn first_where(devs: Seq<DeviceSummary>, p: spec_fn(DeviceSummary) -> bool, i: nat) -> Option<nat>
    decreases devs.len() - i,
{
    if i >= devs.len() {
        None
    } else if p(devs[i as int]) {
        Some(i)
    } else {
        first_where(devs, p, i + 1)
    }
}

/// The device the reader opens, by preference: the first exact match; else
/// the first device with the fader usage; else the first other vendor-page
/// device of the fader unit's vendor; else the first other vendor-page
/// device.
pub open spec fn pick_spec(devs: Seq<DeviceSummary>) -> Option<nat> {
    match first_where(devs, |d: DeviceSummary| exact_match(d), 0) {
        Some(i) => Some(i),
        None => match first_where(devs, |d: DeviceSummary| usage_match(d), 0) {
            Some(i) => Some(i),
            None => match first_where(devs, |d: DeviceSummary| page_ours(d), 0) {
                Some(i) => Some(i),
                None => first_where(devs, |d: DeviceSummary| page_any(d), 0),
            },
        },
    }
}

proof fn lemma_first_where_skip(
    devs: Seq<DeviceSummary>,
    p: spec_fn(DeviceSummary) -> bool,
    i: nat,
    j: nat,
)
    requires
        i <= j <= devs.len(),
        forall|k: int| i <= k < j ==> !p(#[trigger] devs[k]),
    ensures
        first_where(devs, p, i) == first_where(devs, p, j),
    decreases j - i,
{
    if i < j {
        lemma_first_where_skip(devs, p, i + 1, j);
    }
}

proof fn lemma_first_where(devs: Seq<DeviceSummary>, p: spec_fn(DeviceSummary) -> bool, i: nat)
    ensures
        match first_where(devs, p, i) {
            Some(j) => i <= j < devs.len() && p(devs[j as int]) && forall|k: int|
                i <= k < j ==> !p(#[trigger] devs[k]),
            None => forall|k: int| i <= k < devs.len() ==> !p(#[trigger] devs[k]),
        },
    decreases devs.len() - i,
{
    if i < devs.len() && !p(devs[i as int]) {
        lemma_first_where(devs, p, i + 1);
    }
}

/// The chosen device always sits on the vendor usage page 0xFF00, and one
/// is chosen whenever some device does; a device carrying the fader usage
/// (0x0001) is preferred over any other on the page, and among those the
/// first from vendor 0x1d50 is taken when there is one.
pub proof fn lemma_pick_on_vendor_page(devs: Seq<DeviceSummary>)
    ensures
        pick_spec(devs) matches Some(i) ==> i < devs.len() && devs[i as int].usage_page == 0xFF00,
        pick_spec(devs) is None <==> forall|k: int|
            0 <= k < devs.len() ==> (#[trigger] devs[k]).usage_page != 0xFF00,
        (exists|k: int|
            0 <= k < devs.len() && (#[trigger] devs[k]).usage_page == 0xFF00 && devs[k].usage == 1)
            ==> (pick_spec(devs) matches Some(i) && devs[i as int].usage == 1),
        (exists|k: int|
            0 <= k < devs.len() && (#[trigger] devs[k]).usage_page == 0xFF00 && devs[k].usage == 1
                && devs[k].vendor_id == 0x1d50) ==> (pick_spec(devs) matches Some(i)
            && devs[i as int].usage == 1 && devs[i as int].vendor_id == 0x1d50 && forall|k: int|
            0 <= k < i ==> !((#[trigger] devs[k]).usage_page == 0xFF00 && devs[k].usage == 1
                && devs[k].vendor_id == 0x1d50)),
{
    let ex = |d: DeviceSummary| exact_match(d);
    let us = |d: DeviceSummary| usage_match(d);
    let po = |d: DeviceSummary| page_ours(d);
    let pa = |d: DeviceSummary| page_any(d);
    lemma_first_where(devs, ex, 0);
    lemma_first_where(devs, us, 0);
    lemma_first_where(devs, po, 0);
    lemma_first_where(devs, pa, 0);
    if pick_spec(devs) is None {
        assert forall|k: int| 0 <= k < devs.len() implies (#[trigger] devs[k]).usage_page != 0xFF00 by {
            assert(!us(devs[k]) && !po(devs[k]) && !pa(devs[k]));
        }
    }
}

/// The index of the device to open, or `None` when no device is on the
/// vendor page.
pub fn find_fader(devs: &[DeviceSummary]) -> (r: Option<usize>)
    ensures
        match r {
            Some(i) => pick_spec(devs@) == Some(i as nat),
            None => pick_spec(devs@) is None,
        },
        r matches Some(i) ==> i < devs@.len() && devs@[i as int].usage_page == 0xFF00,
        r is None <==> forall|k: int|
            0 <= k < devs@.len() ==> (#[trigger] devs@[k]).usage_page != 0xFF00,
{
    proof {
        lemma_pick_on_vendor_page(devs@);
    }
    let ghost ex = |d: DeviceSummary| exact_match(d);
    let ghost us = |d: DeviceSummary| usage_match(d);
    let ghost po = |d: DeviceSummary| page_ours(d);
    let ghost pa = |d: DeviceSummary| page_any(d);
    let mut usage_any: Option<usize> = None;
    let mut ours: Option<usize> = None;
    let mut any: Option<usize> = None;
    let mut i: usize = 0;
    while i < devs.len()
        invariant
            i <= devs@.len(),
            ex == (|d: DeviceSummary| exact_match(d)),
            us == (|d: DeviceSummary| usage_match(d)),
            po == (|d: DeviceSummary| page_ours(d)),
            pa == (|d: DeviceSummary| page_any(d)),
            forall|k: int| 0 <= k < i ==> !exact_match(#[trigger] devs@[k]),
            first_where(devs@, ex, 0) == first_where(devs@, ex, i as nat),
            match usage_any {
                Some(u) => first_where(devs@, us, 0) == Some(u as nat),
                None => first_where(devs@, us, 0) == first_where(devs@, us, i as nat),
            },
            match ours {
                Some(u) => first_where(devs@, po, 0) == Some(u as nat),
                None => first_where(devs@, po, 0) == first_where(devs@, po, i as nat),
            },
            match any {
                Some(u) => first_where(devs@, pa, 0) == Some(u as nat),
                None => first_where(devs@, pa, 0) == first_where(devs@, pa, i as nat),
            },
        decreases devs.len() - i,
    {
        let d = devs[i];
        if d.usage_page == USAGE_PAGE {
            if d.usage == 1 {
                if d.vendor_id == VID {
                    return Some(i);
                }
                if usage_any.is_none() {
                    usage_any = Some(i);
                }
            } else if d.vendor_id == VID {
                if ours.is_none() {
                    ours = Some(i);
                }
            } else {
                if any.is_none() {
                    any = Some(i);
                }
            }
        }
        i += 1;
    }
    proof {
        assert(first_where(devs@, ex, i as nat) is None);
    }
    match usage_any {
        Some(u) => Some(u),
        None => match ours {
            Some(u) => Some(u),
            None => any,
        },
    }
}

/// One status report's effect: the message recorded next, and whether an
/// event is sent (only when the message differs from the last one sent).
pub open spec fn status_step(last: Seq<char>, message: Seq<char>) -> (Seq<char>, bool) {
    (message, last != message)
}

/// Two status reports in a row with the same message send only the first:
/// the reader doesn't spam the engine with the same state every retry.
pub proof fn lemma_status_deduplicated(last: Seq<char>, message: Seq<char>)
    ensures
        !status_step(status_step(last, message).0, message).1,
{
}

/// Emit a status change unless it repeats the last message sent: returns
/// the event to send (or `None` for a repeat) and records the message.
pub fn send_status(last: &mut String, connected: bool, message: &str) -> (r: Option<HidEvent>)
    ensures
        (final(last)@, r is Some) == status_step(old(last)@, message@),
        r matches Some(e) ==> (e matches HidEvent::Status { connected: c, message: m } && c
            == connected && m@ == message@),
{
    let m = String::from_str(message);
    if *last == m {
        return None;
    }
    *last = m.clone();
    Some(HidEvent::Status { connected, message: m })
}

} // verus!
