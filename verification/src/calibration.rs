//! Per-fader calibration: the captured raw range plus the taper preset that
//! maps a raw reading to a volume percentage between the ends.
//!
//! The taper presets are the inverse of the Bourns slide-pot output-vs-travel
//! curves (value-fraction % -> volume %), so physical travel maps roughly
//! linearly onto volume even though the pot's electrical output is compressed
//! near the top of its throw.
//!
//! Curve points are computed in exact integer arithmetic: each raw point is
//! `lo + f * (hi - lo) / 100` rounded to the nearest integer, halves away from
//! zero.

use vstd::prelude::*;

verus! {

/// Which taper preset maps the raw value to a percentage.
#[derive(Clone, Copy, Debug, PartialEq, Eq, Structural)]
pub enum Taper {
    /// A "linear" (B-curve) pot, corrected for its compressed top of travel.
    Linear,
    /// An audio (A-curve) pot.
    Audio,
    /// No correction: raw maps straight to percent.
    Straight,
}

impl Default for Taper {
    fn default() -> (r: Self)
        ensures
            r == Taper::Linear,
    {
        Taper::Linear
    }
}

/// A fader's captured range, taper, and mute dead zone.
#[derive(Clone, Copy, Debug, PartialEq, Eq, Structural)]
pub struct Calibration {
    /// Raw reading at the bottom of travel (mV).
    pub min: i32,
    /// Raw reading at the top of travel (mV).
    pub max: i32,
    pub taper: Taper,
    /// Mute dead zone (raw mV): while the *instantaneous* raw reading sits
    /// below this, output is forced to 0% — a mixer-style mute detent at the
    /// bottom of the throw. `0` = off.
    pub mute_raw: i32,
}

impl Default for Calibration {
    fn default() -> (r: Self)
        ensures
            r == (Calibration { min: 4, max: 3215, taper: Taper::Linear, mute_raw: 0 }),
    {
        Calibration { min: 4, max: 3215, taper: Taper::Linear, mute_raw: 0 }
    }
}

/// The control points of a taper preset, as (value-fraction %, volume %).
pub open spec fn shape(t: Taper) -> Seq<(int, int)> {
    match t {
        Taper::Linear => seq![
            (0, 0), (1, 10), (4, 20), (10, 30), (30, 40), (50, 50),
            (63, 60), (78, 70), (92, 80), (98, 90), (100, 100),
        ],
        Taper::Audio => seq![
            (0, 0), (1, 10), (3, 20), (6, 30), (10, 40), (15, 50),
            (22, 60), (38, 70), (65, 80), (90, 90), (100, 100),
        ],
        Taper::Straight => seq![(0, 0), (100, 100)],
    }
}

/// The raw range the curve spans: the captured ends in ascending order, or
/// the full scale `0..3250` when fewer than two mV were captured.
pub open spec fn curve_span(c: Calibration) -> (int, int) {
    let lo: int = if c.min <= c.max { c.min as int } else { c.max as int };
    let hi: int = if c.min <= c.max { c.max as int } else { c.min as int };
    if hi - lo < 2 { (0, 3250) } else { (lo, hi) }
}

/// `x / 100` rounded to the nearest integer, halves away from zero.
pub open spec fn round_hundredths(x: int) -> int {
    if x >= 0 { (x + 50) / 100 } else { -((-x + 50) / 100) }
}

/// The raw reading at value-fraction `f` % of the span `lo..hi`.
pub open spec fn raw_point(lo: int, hi: int, f: int) -> int {
    round_hundredths(lo * 100 + f * (hi - lo))
}

/// The raw readings of the preset's control points, before sanitizing.
pub open spec fn raw_points(c: Calibration) -> Seq<int> {
    Seq::new(
        shape(c.taper).len(),
        |i: int| raw_point(curve_span(c).0, curve_span(c).1, shape(c.taper)[i].0),
    )
}

/// Point `i` after the sanitize pass: each raw value is raised to one above
/// its (already sanitized) predecessor when it does not exceed it.
pub open spec fn sanitized_at(s: Seq<int>, i: nat) -> int
    decreases i,
{
    if i == 0 {
        s[0]
    } else {
        let prev: int = sanitized_at(s, (i - 1) as nat);
        if s[i as int] <= prev { prev + 1 } else { s[i as int] }
    }
}

/// The (raw -> %) lookup table of a calibration.
pub open spec fn curve_spec(c: Calibration) -> Seq<(int, int)> {
    Seq::new(
        shape(c.taper).len(),
        |i: int| (sanitized_at(raw_points(c), i as nat), shape(c.taper)[i].1),
    )
}

/// The captured range's width fits in an `i32`.
pub open spec fn span_fits(c: Calibration) -> bool {
    (if c.min <= c.max { c.max - c.min } else { c.min - c.max }) <= i32::MAX
}

/// Building the curve stays within `i32`: the width of the range fits and no
/// sanitized raw value exceeds `i32::MAX`.
pub open spec fn curve_fits(c: Calibration) -> bool {
    &&& span_fits(c)
    &&& forall|i: int| 0 <= i < curve_spec(c).len() ==> #[trigger] curve_spec(c)[i].0 <= i32::MAX
}

/// The curve as a sequence of integer pairs.
pub open spec fn curve_view(v: Seq<(i32, i32)>) -> Seq<(int, int)> {
    Seq::new(v.len(), |i: int| (v[i].0 as int, v[i].1 as int))
}

fn shape_points(t: Taper) -> (r: Vec<(i64, i32)>)
    ensures
        r@.len() == shape(t).len(),
        forall|i: int|
            0 <= i < r@.len() ==> r@[i].0 as int == shape(t)[i].0 && r@[i].1 as int == shape(
                t,
            )[i].1,
{
    match t {
        Taper::Linear => vec![
            (0, 0), (1, 10), (4, 20), (10, 30), (30, 40), (50, 50),
            (63, 60), (78, 70), (92, 80), (98, 90), (100, 100),
        ],
        Taper::Audio => vec![
            (0, 0), (1, 10), (3, 20), (6, 30), (10, 40), (15, 50),
            (22, 60), (38, 70), (65, 80), (90, 90), (100, 100),
        ],
        Taper::Straight => vec![(0, 0), (100, 100)],
    }
}

proof fn lemma_round_between(lo: int, hi: int, x: int)
    requires
        lo * 100 <= x <= hi * 100,
    ensures
        lo <= round_hundredths(x) <= hi,
{
}

proof fn lemma_round_exact(x: int)
    ensures
        round_hundredths(x * 100) == x,
{
    if x >= 0 {
        assert((x * 100 + 50) / 100 == x);
    } else {
        assert((-(x * 100) + 50) / 100 == -x);
    }
}

proof fn lemma_raw_point_between(lo: int, hi: int, f: int)
    requires
        lo <= hi,
        0 <= f <= 100,
    ensures
        lo <= raw_point(lo, hi, f) <= hi,
{
    assert(0 <= f * (hi - lo) <= 100 * (hi - lo)) by (nonlinear_arith)
        requires
            lo <= hi,
            0 <= f <= 100,
    ;
    lemma_round_between(lo, hi, lo * 100 + f * (hi - lo));
}

proof fn lemma_sanitized_step(s: Seq<int>, i: nat)
    requires
        i + 1 < s.len(),
    ensures
        sanitized_at(s, i) < sanitized_at(s, (i + 1) as nat),
        sanitized_at(s, (i + 1) as nat) >= s[i + 1 as int],
{
}

proof fn lemma_sanitized_increasing(s: Seq<int>, i: nat, j: nat)
    requires
        i < j < s.len(),
    ensures
        sanitized_at(s, i) < sanitized_at(s, j),
    decreases j - i,
{
    lemma_sanitized_step(s, (j - 1) as nat);
    if i + 1 < j {
        lemma_sanitized_increasing(s, i, (j - 1) as nat);
    }
}

proof fn lemma_sanitized_at_least(s: Seq<int>, i: nat)
    requires
        i < s.len(),
    ensures
        sanitized_at(s, i) >= s[i as int],
{
    if i > 0 {
        lemma_sanitized_step(s, (i - 1) as nat);
    }
}

proof fn lemma_sanitized_bounded(s: Seq<int>, i: nat, m: int)
    requires
        i < s.len(),
        forall|k: int| 0 <= k <= i ==> s[k] <= m,
    ensures
        sanitized_at(s, i) <= m + i,
    decreases i,
{
    if i > 0 {
        lemma_sanitized_bounded(s, (i - 1) as nat, m);
    }
}

proof fn lemma_raw_points_between(c: Calibration, k: int)
    requires
        0 <= k < shape(c.taper).len(),
    ensures
        curve_span(c).0 <= raw_points(c)[k] <= curve_span(c).1,
        k == 0 ==> raw_points(c)[k] == curve_span(c).0,
        k == shape(c.taper).len() - 1 ==> raw_points(c)[k] == curve_span(c).1,
{
    let (lo, hi) = curve_span(c);
    assert(0 <= shape(c.taper)[k].0 <= 100) by {
        match c.taper {
            Taper::Linear => {},
            Taper::Audio => {},
            Taper::Straight => {},
        }
    }
    assert(shape(c.taper)[0].0 == 0 && shape(c.taper)[shape(c.taper).len() - 1].0 == 100) by {
        match c.taper {
            Taper::Linear => {},
            Taper::Audio => {},
            Taper::Straight => {},
        }
    }
    lemma_raw_point_between(lo, hi, shape(c.taper)[k].0);
    lemma_round_exact(lo);
    lemma_round_exact(hi);
    assert(lo * 100 + 0 * (hi - lo) == lo * 100);
    assert(lo * 100 + 100 * (hi - lo) == hi * 100);
}

/// Every curve starts at the low end of its span at 0 %, ends at 100 % no
/// lower than the high end of its span, its raw values strictly increase
/// and its percentages never decrease.
pub proof fn lemma_curve_shape(c: Calibration)
    ensures
        curve_spec(c).len() >= 2,
        curve_spec(c)[0] == (curve_span(c).0, 0int),
        curve_spec(c).last().1 == 100,
        curve_spec(c).last().0 >= curve_span(c).1,
        forall|i: int, j: int|
            0 <= i < j < curve_spec(c).len() ==> #[trigger] curve_spec(c)[i].0 < #[trigger] curve_spec(
                c,
            )[j].0 && curve_spec(c)[i].1 <= curve_spec(c)[j].1,
{
    let s = raw_points(c);
    let n: nat = shape(c.taper).len();
    assert(n >= 2 && shape(c.taper)[0].1 == 0 && shape(c.taper)[n - 1].1 == 100) by {
        match c.taper {
            Taper::Linear => {},
            Taper::Audio => {},
            Taper::Straight => {},
        }
    }
    assert forall|i: int, j: int| 0 <= i < j < n implies shape(c.taper)[i].1 <= shape(c.taper)[j].1 by {
        match c.taper {
            Taper::Linear => {},
            Taper::Audio => {},
            Taper::Straight => {},
        }
    }
    lemma_raw_points_between(c, 0);
    lemma_raw_points_between(c, n - 1);
    lemma_sanitized_at_least(s, (n - 1) as nat);
    assert forall|i: int, j: int| 0 <= i < j < n implies #[trigger] curve_spec(c)[i].0 < #[trigger] curve_spec(
        c,
    )[j].0 by {
        lemma_sanitized_increasing(s, i as nat, j as nat);
    }
}

/// Each taper preset passes through its published control points: the
/// Linear and Audio curves have eleven points whose volumes climb 0, 10,
/// ..., 100 %, the Straight curve has two (0 % and 100 %), and point `i`
/// sits at the preset's value fraction of the span (Linear: 0, 1, 4, 10,
/// 30, 50, 63, 78, 92, 98, 100 %; Audio: 0, 1, 3, 6, 10, 15, 22, 38, 65,
/// 90, 100 %; Straight: 0, 100 %) before sanitizing.
pub proof fn lemma_preset_control_points(c: Calibration)
    ensures
        c.taper != Taper::Straight ==> curve_spec(c).len() == 11 && forall|i: int|
            0 <= i < 11 ==> #[trigger] curve_spec(c)[i].1 == 10 * i,
        c.taper == Taper::Straight ==> curve_spec(c).len() == 2 && curve_spec(c)[0].1 == 0
            && curve_spec(c)[1].1 == 100,
        c.taper == Taper::Linear ==> forall|i: int|
            0 <= i < 11 ==> #[trigger] raw_points(c)[i] == raw_point(
                curve_span(c).0,
                curve_span(c).1,
                seq![0int, 1, 4, 10, 30, 50, 63, 78, 92, 98, 100][i],
            ),
        c.taper == Taper::Audio ==> forall|i: int|
            0 <= i < 11 ==> #[trigger] raw_points(c)[i] == raw_point(
                curve_span(c).0,
                curve_span(c).1,
                seq![0int, 1, 3, 6, 10, 15, 22, 38, 65, 90, 100][i],
            ),
        c.taper == Taper::Straight ==> raw_points(c)[0] == curve_span(c).0 && raw_points(c)[1]
            == curve_span(c).1,
{
    match c.taper {
        Taper::Linear => {
            assert forall|i: int| 0 <= i < 11 implies #[trigger] curve_spec(c)[i].1 == 10 * i by {
                assert(shape(c.taper)[i].1 == 10 * i);
            }
        },
        Taper::Audio => {
            assert forall|i: int| 0 <= i < 11 implies #[trigger] curve_spec(c)[i].1 == 10 * i by {
                assert(shape(c.taper)[i].1 == 10 * i);
            }
        },
        Taper::Straight => {
            lemma_raw_points_between(c, 0);
            lemma_raw_points_between(c, 1);
        },
    }
}

/// A calibration whose width fits in `i32` and whose ends lie at least ten
/// below `i32::MAX` builds its curve without overflow.
pub proof fn lemma_curve_fits(c: Calibration)
    requires
        span_fits(c),
        c.min <= i32::MAX - 10,
        c.max <= i32::MAX - 10,
    ensures
        curve_fits(c),
{
    let s = raw_points(c);
    let n: nat = shape(c.taper).len();
    let hi: int = curve_span(c).1;
    assert(n <= 11) by {
        match c.taper {
            Taper::Linear => {},
            Taper::Audio => {},
            Taper::Straight => {},
        }
    }
    assert forall|k: int| 0 <= k < n implies s[k] <= hi by {
        lemma_raw_points_between(c, k);
    }
    assert forall|i: int| 0 <= i < n implies #[trigger] curve_spec(c)[i].0 <= i32::MAX by {
        lemma_sanitized_bounded(s, i as nat, hi);
    }
}

/// The curve's sanitized raw values in 64 bits, before the range check.
fn wide_curve(c: &Calibration) -> (r: Vec<(i64, i32)>)
    ensures
        r@.len() == curve_spec(*c).len(),
        forall|k: int|
            0 <= k < r@.len() ==> (#[trigger] r@[k]).0 as int == curve_spec(*c)[k].0 && r@[k].1 as int
                == curve_spec(*c)[k].1,
{
    let (mut lo, mut hi): (i64, i64) = if c.min <= c.max {
        (c.min as i64, c.max as i64)
    } else {
        (c.max as i64, c.min as i64)
    };
    if hi - lo < 2 {
        lo = 0;
        hi = 3250;
    }
    let ghost span = curve_span(*c);
    assert(span == (lo as int, hi as int));
    let pts = shape_points(c.taper);
    let ghost raws = raw_points(*c);
    let d: i64 = hi - lo;
    let mut out: Vec<(i64, i32)> = Vec::new();
    let n: usize = pts.len();
    let mut i: usize = 0;
    while i < n
        invariant
            i <= n,
            n == pts@.len(),
            n == shape(c.taper).len(),
            forall|k: int|
                0 <= k < n ==> pts@[k].0 as int == shape(c.taper)[k].0 && pts@[k].1 as int == shape(
                    c.taper,
                )[k].1,
            raws == raw_points(*c),
            span == (lo as int, hi as int),
            span == curve_span(*c),
            i32::MIN <= lo <= hi <= i32::MAX,
            d == hi - lo,
            out@.len() == i,
            forall|k: int|
                0 <= k < i ==> (#[trigger] out@[k]).0 as int == raws[k] && out@[k].1 as int
                    == shape(c.taper)[k].1 && lo <= out@[k].0 <= hi,
        decreases n - i,
    {
        let (f, v) = pts[i];
        proof {
            assert(0 <= f <= 100) by {
                match c.taper {
                    Taper::Linear => {},
                    Taper::Audio => {},
                    Taper::Straight => {},
                }
            }
            lemma_raw_point_between(lo as int, hi as int, f as int);
            assert(0 <= f * d <= 100 * d) by (nonlinear_arith)
                requires
                    0 <= f <= 100,
                    0 <= d,
            ;
        }
        let x: i64 = lo * 100 + f * d;
        let r: i64 = if x >= 0 {
            (x + 50) / 100
        } else {
            -((-x + 50) / 100)
        };
        assert(r == raw_point(lo as int, hi as int, f as int));
        assert(shape(c.taper)[i as int].0 == f as int);
        assert(raws[i as int] == raw_point(span.0, span.1, shape(c.taper)[i as int].0));
        out.push((r, v));
        i += 1;
    }
    assert forall|k: int| 0 <= k < n implies #[trigger] raws[k] <= hi by {
        assert(out@[k].0 as int == raws[k]);
    }
    proof {
        assert(n <= 11) by {
            match c.taper {
                Taper::Linear => {},
                Taper::Audio => {},
                Taper::Straight => {},
            }
        }
    }
    i = 1;
    while i < n
        invariant
            1 <= i <= n,
            n == out@.len(),
            n == shape(c.taper).len(),
            raws == raw_points(*c),
            raws.len() == n,
            n <= 11,
            hi <= i32::MAX,
            forall|k: int| 0 <= k < n ==> #[trigger] raws[k] <= hi,
            forall|k: int| 0 <= k < n ==> #[trigger] out@[k].1 as int == shape(c.taper)[k].1,
            forall|k: int| 0 <= k < i ==> #[trigger] out@[k].0 as int == sanitized_at(raws, k as nat),
            forall|k: int| i <= k < n ==> #[trigger] out@[k].0 as int == raws[k],
        decreases n - i,
    {
        let prev: i64 = out[i - 1].0;
        let cur = out[i];
        proof {
            lemma_sanitized_bounded(raws, (i - 1) as nat, hi as int);
        }
        if cur.0 <= prev {
            out.set(i, (prev + 1, cur.1));
        }
        i += 1;
    }
    out
}

impl Calibration {
    /// The piecewise (raw -> %) lookup table, or `None` when building it
    /// would leave `i32` (the range is wider than `i32::MAX`, or a
    /// sanitized raw value would pass `i32::MAX`).
    pub fn checked_curve(&self) -> (r: Option<Vec<(i32, i32)>>)
        ensures
            r is Some <==> curve_fits(*self),
            r matches Some(v) ==> curve_view(v@) == curve_spec(*self),
            r matches Some(v) ==> (if self.taper == Taper::Straight {
                v@.len() == 2 && v@[0].1 == 0 && v@[1].1 == 100
            } else {
                v@.len() == 11 && forall|i: int| 0 <= i < 11 ==> #[trigger] v@[i].1 == 10 * i
            }),
    {
        proof {
            lemma_preset_control_points(*self);
        }
        let width: i64 = if self.min <= self.max {
            self.max as i64 - self.min as i64
        } else {
            self.min as i64 - self.max as i64
        };
        if width > i32::MAX as i64 {
            return None;
        }
        let wide = wide_curve(self);
        let n: usize = wide.len();
        proof {
            lemma_curve_shape(*self);
        }
        if wide[n - 1].0 > i32::MAX as i64 {
            proof {
                assert(curve_spec(*self)[n - 1].0 > i32::MAX);
            }
            return None;
        }
        proof {
            assert forall|k: int| 0 <= k < n implies #[trigger] curve_spec(*self)[k].0 <= i32::MAX by {
                if k < n - 1 {
                    assert(curve_spec(*self)[k].0 < curve_spec(*self)[n - 1].0);
                }
            }
        }
        let mut out: Vec<(i32, i32)> = Vec::new();
        let mut i: usize = 0;
        while i < n
            invariant
                i <= n,
                n == wide@.len(),
                n == curve_spec(*self).len(),
                curve_fits(*self),
                forall|k: int|
                    0 <= k < n ==> (#[trigger] wide@[k]).0 as int == curve_spec(*self)[k].0
                        && wide@[k].1 as int == curve_spec(*self)[k].1,
                out@.len() == i,
                forall|k: int|
                    0 <= k < i ==> (#[trigger] out@[k]).0 as int == curve_spec(*self)[k].0
                        && out@[k].1 as int == curve_spec(*self)[k].1,
            decreases n - i,
        {
            let (raw, pct) = wide[i];
            proof {
                lemma_raw_points_between(*self, 0);
                lemma_sanitized_at_least(raw_points(*self), i as nat);
                lemma_raw_points_between(*self, i as int);
                assert(curve_span(*self).0 >= i32::MIN);
                assert(raw as int >= raw_points(*self)[i as int]);
            }
            out.push((raw as i32, pct));
            i += 1;
        }
        proof {
            assert(curve_view(out@) =~= curve_spec(*self));
        }
        Some(out)
    }

    /// Build the piecewise (raw -> %) lookup table: one point per control
    /// point of the taper preset, raw values strictly increasing.
    pub fn build_curve(&self) -> (r: Vec<(i32, i32)>)
        requires
            curve_fits(*self),
        ensures
            curve_view(r@) == curve_spec(*self),
            if self.taper == Taper::Straight {
                r@.len() == 2 && r@[0].1 == 0 && r@[1].1 == 100
            } else {
                r@.len() == 11 && forall|i: int| 0 <= i < 11 ==> #[trigger] r@[i].1 == 10 * i
            },
    {
        match self.checked_curve() {
            Some(v) => v,
            None => {
                proof {
                    assert(false);
                }
                Vec::new()
            },
        }
    }
}

/// Where a raw value falls on a (raw -> %) curve: the integer decision of
/// the piecewise-linear lookup, which clamps to the end points.
#[derive(Clone, Copy, Debug, PartialEq, Eq)]
pub enum CurveSegment {
    /// The curve has no points.
    Empty,
    /// At or below the first point, or above the last: that end's percentage.
    Clamped(i32),
    /// Between two consecutive points `lo` and `hi`; the value lies above
    /// `lo`'s raw value and at or below `hi`'s.
    Between { lo: (i32, i32), hi: (i32, i32) },
}

/// The index of the first point at or after `i` whose raw value is at least `v`.
pub open spec fn first_reaching(curve: Seq<(i32, i32)>, v: i32, i: nat) -> Option<nat>
    decreases curve.len() - i,
{
    if i >= curve.len() {
        None
    } else if v <= curve[i as int].0 {
        Some(i)
    } else {
        first_reaching(curve, v, i + 1)
    }
}

/// The segment of `curve` that the raw value `v` falls on.
pub open spec fn segment_spec(curve: Seq<(i32, i32)>, v: i32) -> CurveSegment {
    if curve.len() == 0 {
        CurveSegment::Empty
    } else if v <= curve[0].0 {
        CurveSegment::Clamped(curve[0].1)
    } else {
        match first_reaching(curve, v, 1) {
            Some(j) => CurveSegment::Between { lo: curve[j - 1], hi: curve[j as int] },
            None => CurveSegment::Clamped(curve.last().1),
        }
    }
}

proof fn lemma_first_reaching(curve: Seq<(i32, i32)>, v: i32, i: nat)
    requires
        forall|k: int| 1 <= k < i ==> v > #[trigger] curve[k].0,
        1 <= i,
        v > curve[0].0,
    ensures
        first_reaching(curve, v, i) matches Some(j) ==> i <= j < curve.len() && v <= curve[j as int].0
            && curve[j - 1].0 < v,
    decreases curve.len() - i,
{
    if i < curve.len() && v > curve[i as int].0 {
        lemma_first_reaching(curve, v, i + 1);
    }
}

proof fn lemma_first_reaching_none(curve: Seq<(i32, i32)>, v: i32, i: nat)
    requires
        forall|k: int| i <= k < curve.len() ==> v > #[trigger] curve[k].0,
    ensures
        first_reaching(curve, v, i) is None,
    decreases curve.len() - i,
{
    if i < curve.len() {
        lemma_first_reaching_none(curve, v, i + 1);
    }
}

/// The lookup clamps to the end points: on a curve whose raw values
/// increase, a value at or below the first point yields the first point's
/// percentage and a value above the last point yields the last point's.
pub proof fn lemma_segment_clamps(curve: Seq<(i32, i32)>, v: i32)
    requires
        curve.len() > 0,
        forall|i: int, j: int| 0 <= i < j < curve.len() ==> #[trigger] curve[i].0 < #[trigger] curve[j].0,
    ensures
        v <= curve[0].0 ==> segment_spec(curve, v) == CurveSegment::Clamped(curve[0].1),
        v > curve.last().0 ==> segment_spec(curve, v) == CurveSegment::Clamped(curve.last().1),
{
    if v > curve.last().0 {
        assert forall|k: int| 1 <= k < curve.len() implies v > #[trigger] curve[k].0 by {
            if k < curve.len() - 1 {
                assert(curve[k].0 < curve[curve.len() - 1].0);
            }
        }
        lemma_first_reaching_none(curve, v, 1);
        if curve.len() > 1 {
            assert(curve[0].0 < curve[curve.len() - 1].0);
        }
    }
}

/// Locate `v` on the curve: the first point at or above it, clamped at both
/// ends.
pub fn curve_segment(curve: &[(i32, i32)], v: i32) -> (r: CurveSegment)
    ensures
        r == segment_spec(curve@, v),
        r matches CurveSegment::Between { lo, hi } ==> lo.0 < v <= hi.0,
{
    if curve.len() == 0 {
        return CurveSegment::Empty;
    }
    if v <= curve[0].0 {
        return CurveSegment::Clamped(curve[0].1);
    }
    proof {
        lemma_first_reaching(curve@, v, 1);
    }
    let mut i: usize = 1;
    while i < curve.len()
        invariant
            1 <= i <= curve.len(),
            v > curve@[0].0,
            first_reaching(curve@, v, 1) == first_reaching(curve@, v, i as nat),
            first_reaching(curve@, v, 1) matches Some(j) ==> curve@[j - 1].0 < v,
        decreases curve.len() - i,
    {
        if v <= curve[i].0 {
            return CurveSegment::Between { lo: curve[i - 1], hi: curve[i] };
        }
        i += 1;
    }
    CurveSegment::Clamped(curve[curve.len() - 1].1)
}

} // verus!
