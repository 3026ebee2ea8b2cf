use charge_sim::curve::ChargeCurve;
use charge_sim::curve::ConfigError;
use charge_sim::curve::CurveError;
use charge_sim::curve::CurvePoint;
use charge_sim::quantities::Percentage;
use charge_sim::quantities::Power;

fn pt(hundredths: u32, kilowatts: i64) -> CurvePoint {
    CurvePoint::new(Percentage::new(hundredths), Power::from_kilowatts(kilowatts))
}

/// The Chevy Bolt curve from the vehicle catalog, in hundredths of a percent.
fn bolt_curve() -> ChargeCurve {
    ChargeCurve::new(vec![
        pt(0, 55),
        pt(5_000, 55),
        pt(7_000, 33),
        pt(9_300, 26),
        pt(10_000, 5),
    ])
    .unwrap()
}

#[test]
fn power_at_returns_stored_samples_exactly() {
    let curve = bolt_curve();
    for &(soc, kw) in &[(0u32, 55i64), (5_000, 55), (7_000, 33), (9_300, 26), (10_000, 5)] {
        let p = curve.power_at(Percentage::new(soc)).unwrap();
        assert_eq!(p.watts, kw * 1000);
    }
}

#[test]
fn power_at_interpolates_between_samples() {
    let curve = bolt_curve();
    // flat segment: anywhere between 0% and 50% reads 55 kW
    let p = curve.power_at(Percentage::new(2_500)).unwrap();
    assert_eq!(p.watts, 55_000);
    // descending segment 50% -> 70%: 55 kW down to 33 kW; at 60% exactly halfway
    let p = curve.power_at(Percentage::new(6_000)).unwrap();
    assert_eq!(p.watts, 55_000 - (55_000 - 33_000) / 2);
}

#[test]
fn power_at_rising_segment_exact_value() {
    let curve = ChargeCurve::new(vec![pt(0, 80), pt(800, 225), pt(10_000, 5)]).unwrap();
    // between 0% and 8%: 80 kW + (225-80) kW * 4/8 = 152.5 kW
    let p = curve.power_at(Percentage::new(400)).unwrap();
    assert_eq!(p.watts, 80_000 + (225_000 - 80_000) * 400 / 800);
    assert_eq!(p.watts, 152_500);
}

#[test]
fn power_at_outside_domain_is_an_error() {
    let curve = ChargeCurve::new(vec![pt(1_000, 100), pt(8_000, 50)]).unwrap();
    assert_eq!(curve.power_at(Percentage::new(500)), Err(CurveError::OutOfDomain));
    assert_eq!(curve.power_at(Percentage::new(9_000)), Err(CurveError::OutOfDomain));
    assert!(curve.power_at(Percentage::new(1_000)).is_ok());
    assert!(curve.power_at(Percentage::new(8_000)).is_ok());
}

#[test]
fn sub_curve_boundaries_match_parent() {
    let curve = bolt_curve();
    let sub = curve
        .sub_curve(Percentage::new(1_000), Percentage::new(8_000))
        .unwrap();
    let at_start = sub.power_at(Percentage::new(1_000)).unwrap();
    let at_end = sub.power_at(Percentage::new(8_000)).unwrap();
    assert_eq!(at_start, curve.power_at(Percentage::new(1_000)).unwrap());
    assert_eq!(at_end, curve.power_at(Percentage::new(8_000)).unwrap());
}

#[test]
fn sub_curve_keeps_interior_samples() {
    let curve = bolt_curve();
    let sub = curve
        .sub_curve(Percentage::new(1_000), Percentage::new(8_000))
        .unwrap();
    // synthesized boundary points around the original 50% and 70% samples
    assert_eq!(sub.data_points.len(), 4);
    assert_eq!(sub.data_points[0].state_of_charge.hundredths, 1_000);
    assert_eq!(sub.data_points[1], pt(5_000, 55));
    assert_eq!(sub.data_points[2], pt(7_000, 33));
    assert_eq!(sub.data_points[3].state_of_charge.hundredths, 8_000);
}

#[test]
fn sub_curve_rejects_bad_ranges() {
    let curve = bolt_curve();
    // out of order
    assert!(curve.sub_curve(Percentage::new(8_000), Percentage::new(1_000)).is_none());
    // empty range
    assert!(curve.sub_curve(Percentage::new(4_000), Percentage::new(4_000)).is_none());
    // end at the top of the domain has no bracketing segment
    assert!(curve.sub_curve(Percentage::new(1_000), Percentage::new(10_000)).is_none());
}

#[test]
fn average_power_of_straight_line_is_midpoint() {
    let curve = ChargeCurve::new(vec![pt(0, 100), pt(10_000, 200)]).unwrap();
    assert_eq!(curve.average_power().watts, 150_000);
}

#[test]
fn average_power_matches_numerical_integration() {
    let curve = bolt_curve();
    let exact = curve.average_power().watts as f64;
    // independent numerical integration of the piecewise-linear curve
    let samples: Vec<(f64, f64)> = curve
        .data_points
        .iter()
        .map(|p| (p.state_of_charge.hundredths as f64, p.charge_power.watts as f64))
        .collect();
    let mut integral = 0.0f64;
    let steps = 1_000_000;
    let span = samples.last().unwrap().0 - samples[0].0;
    for k in 0..steps {
        let x = samples[0].0 + span * (k as f64 + 0.5) / steps as f64;
        let mut y = 0.0;
        for w in samples.windows(2) {
            if w[0].0 <= x && x <= w[1].0 {
                y = w[0].1 + (w[1].1 - w[0].1) * (x - w[0].0) / (w[1].0 - w[0].0);
                break;
            }
        }
        integral += y;
    }
    let numeric = integral / steps as f64;
    assert!((exact - numeric).abs() < 50.0, "exact {exact} vs numeric {numeric}");
}

#[test]
fn curve_construction_rejects_malformed_samples() {
    assert_eq!(ChargeCurve::new(vec![]), Err(ConfigError::CurveTooShort));
    assert_eq!(ChargeCurve::new(vec![pt(0, 55)]), Err(ConfigError::CurveTooShort));
    assert_eq!(
        ChargeCurve::new(vec![pt(5_000, 55), pt(1_000, 55)]),
        Err(ConfigError::CurveNotIncreasing)
    );
    assert_eq!(
        ChargeCurve::new(vec![pt(0, 55), pt(0, 55)]),
        Err(ConfigError::CurveNotIncreasing)
    );
    assert_eq!(
        ChargeCurve::new(vec![
            pt(0, 55),
            CurvePoint::new(Percentage::new(10_000), Power::from_watts(-1)),
        ]),
        Err(ConfigError::CurvePowerOutOfRange)
    );
}
