use fadewire_core::calibration::{curve_segment, Calibration, CurveSegment, Taper};

#[test]
fn degenerate_range_falls_back_to_full_scale() {
    let cal = Calibration {
        min: 500,
        max: 501,
        taper: Taper::Straight,
        mute_raw: 0,
    };
    let curve = cal.build_curve();
    assert_eq!(curve.first().unwrap().0, 0);
    assert_eq!(curve.last().unwrap().0, 3250);
}

#[test]
fn curve_raw_values_strictly_increase() {
    // A tiny (but non-degenerate) range would collapse control points
    // without the sanitize pass.
    let cal = Calibration {
        min: 0,
        max: 5,
        taper: Taper::Linear,
        mute_raw: 0,
    };
    let curve = cal.build_curve();
    for w in curve.windows(2) {
        assert!(w[1].0 > w[0].0, "non-increasing: {:?}", curve);
    }
}

#[test]
fn default_calibration_values() {
    let cal = Calibration::default();
    assert_eq!(cal.min, 4);
    assert_eq!(cal.max, 3215);
    assert_eq!(cal.taper, Taper::Linear);
    assert_eq!(cal.mute_raw, 0);
    assert_eq!(Taper::default(), Taper::Linear);
}

#[test]
fn straight_curve_spans_the_range() {
    let cal = Calibration {
        min: 0,
        max: 3300,
        taper: Taper::Straight,
        mute_raw: 0,
    };
    assert_eq!(cal.build_curve(), vec![(0, 0), (3300, 100)]);
}

#[test]
fn linear_curve_points_round_half_away_from_zero() {
    // 0..3300: 1% of 3300 = 33, 4% = 132, 63% = 2079, 98% = 3234.
    let cal = Calibration {
        min: 0,
        max: 3300,
        taper: Taper::Linear,
        mute_raw: 0,
    };
    assert_eq!(
        cal.build_curve(),
        vec![
            (0, 0),
            (33, 10),
            (132, 20),
            (330, 30),
            (990, 40),
            (1650, 50),
            (2079, 60),
            (2574, 70),
            (3036, 80),
            (3234, 90),
            (3300, 100),
        ]
    );
    // Degenerate span 0..3250: 1% = 32.5 rounds up to 33.
    let deg = Calibration {
        min: 7,
        max: 7,
        taper: Taper::Linear,
        mute_raw: 0,
    };
    assert_eq!(deg.build_curve()[1], (33, 10));
}

#[test]
fn audio_curve_and_reversed_ends() {
    // min above max: the ends are swapped before scaling.
    let cal = Calibration {
        min: 1100,
        max: 100,
        taper: Taper::Audio,
        mute_raw: 0,
    };
    let curve = cal.build_curve();
    assert_eq!(curve.len(), 11);
    assert_eq!(curve[0], (100, 0));
    assert_eq!(curve[2], (130, 20));
    assert_eq!(curve[7], (480, 70));
    assert_eq!(curve[10], (1100, 100));
}

#[test]
fn negative_range_rounds_away_from_zero() {
    // -105..-100: 1% of 5 = 0.05 -> -104.95 -> -105; sanitized to -104.
    let cal = Calibration {
        min: -105,
        max: -100,
        taper: Taper::Linear,
        mute_raw: 0,
    };
    let curve = cal.build_curve();
    assert_eq!(curve[0], (-105, 0));
    assert_eq!(curve[1], (-104, 10));
    assert_eq!(curve[10].1, 100);
    for w in curve.windows(2) {
        assert!(w[1].0 > w[0].0);
    }
}

#[test]
fn tiny_range_is_sanitized_upward() {
    let cal = Calibration {
        min: 0,
        max: 5,
        taper: Taper::Linear,
        mute_raw: 0,
    };
    let curve = cal.build_curve();
    let raws: Vec<i32> = curve.iter().map(|p| p.0).collect();
    // raw points 0,0,0,1,2,3,3,4,5,5,5 -> 0,1,2,3,4,5,6,7,8,9,10
    assert_eq!(raws, vec![0, 1, 2, 3, 4, 5, 6, 7, 8, 9, 10]);
}

#[test]
fn segment_clamps_past_the_ends() {
    let curve = Calibration::default().build_curve();
    assert_eq!(curve_segment(&curve, -100), CurveSegment::Clamped(0));
    assert_eq!(curve_segment(&curve, 0), CurveSegment::Clamped(0));
    assert_eq!(curve_segment(&curve, 4), CurveSegment::Clamped(0));
    assert_eq!(curve_segment(&curve, 100_000), CurveSegment::Clamped(100));
    assert_eq!(curve_segment(&[], 5), CurveSegment::Empty);
}

#[test]
fn segment_finds_the_enclosing_points() {
    let curve = vec![(0, 0), (33, 10), (132, 20)];
    assert_eq!(
        curve_segment(&curve, 33),
        CurveSegment::Between { lo: (0, 0), hi: (33, 10) }
    );
    assert_eq!(
        curve_segment(&curve, 34),
        CurveSegment::Between { lo: (33, 10), hi: (132, 20) }
    );
    assert_eq!(curve_segment(&curve, 133), CurveSegment::Clamped(20));
}
