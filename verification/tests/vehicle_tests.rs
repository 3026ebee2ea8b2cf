use std::rc::Rc;

use charge_sim::curve::ChargeCurve;
use charge_sim::curve::ConfigError;
use charge_sim::curve::CurvePoint;
use charge_sim::quantities::Energy;
use charge_sim::quantities::Percentage;
use charge_sim::quantities::Power;
use charge_sim::vehicle::ChargeError;
use charge_sim::vehicle::Vehicle;
use charge_sim::vehicle::VehicleSpec;

fn pt(hundredths: u32, kilowatts: i64) -> CurvePoint {
    CurvePoint::new(Percentage::new(hundredths), Power::from_kilowatts(kilowatts))
}

/// The KIA EV6 from the vehicle catalog: 77.4 kWh, full-domain curve.
fn ev6_spec() -> Rc<VehicleSpec> {
    let curve = ChargeCurve::new(vec![
        pt(0, 20),
        pt(200, 220),
        pt(4_500, 238),
        pt(5_000, 198),
        pt(5_500, 198),
        pt(6_000, 100),
        pt(7_000, 198),
        pt(7_800, 168),
        pt(8_000, 0),
        pt(8_200, 125),
        pt(10_000, 20),
    ])
    .unwrap();
    Rc::new(
        VehicleSpec::new(
            "KIA EV6 Long Range AWD".to_string(),
            Energy::from_watt_hours(77_400),
            curve,
            270,
        )
        .unwrap(),
    )
}

fn ev6_at_fraction(percent_hundredths: i128) -> Vehicle {
    let spec = ev6_spec();
    let capacity = spec.battery_max.watt_seconds;
    Vehicle::new(
        spec,
        Energy::from_watt_seconds(capacity * percent_hundredths / 10_000),
        Energy::from_watt_seconds(capacity * 8_000 / 10_000),
    )
    .unwrap()
}

#[test]
fn spec_construction_rejects_partial_curves() {
    let partial = ChargeCurve::new(vec![pt(1_000, 100), pt(8_000, 50)]).unwrap();
    let r = VehicleSpec::new("partial".to_string(), Energy::from_watt_hours(50_000), partial, 200);
    assert_eq!(r.unwrap_err(), ConfigError::CurveDoesNotSpanDomain);

    let full = ChargeCurve::new(vec![pt(0, 100), pt(10_000, 50)]).unwrap();
    let r = VehicleSpec::new("empty".to_string(), Energy::from_watt_hours(0), full, 200);
    assert_eq!(r.unwrap_err(), ConfigError::CapacityOutOfRange);
}

#[test]
fn vehicle_construction_rejects_negative_energy() {
    let spec = ev6_spec();
    let r = Vehicle::new(spec.clone(), Energy::from_watt_seconds(-1), Energy::from_watt_hours(1));
    assert_eq!(r.unwrap_err(), ConfigError::EnergyOutOfRange);
    let r = Vehicle::new(spec, Energy::from_watt_hours(1), Energy::from_watt_seconds(-1));
    assert_eq!(r.unwrap_err(), ConfigError::EnergyOutOfRange);
}

#[test]
fn state_of_charge_is_stored_over_capacity() {
    let v = ev6_at_fraction(1_000);
    assert_eq!(v.soc().hundredths, 1_000);
    assert_eq!(v.unplug_at_soc().hundredths, 8_000);
}

#[test]
fn state_of_charge_reads_zero_at_noise_floor() {
    let spec = ev6_spec();
    // one watt-hour of stored energy still reads as empty
    let v = Vehicle::new(spec, Energy::from_watt_hours(1), Energy::from_watt_hours(10_000))
        .unwrap();
    assert_eq!(v.soc().hundredths, 0);
}

#[test]
fn next_power_request_follows_curve_and_offer() {
    let v = ev6_at_fraction(1_000);
    // curve at 10%: between 2% (220 kW) and 45% (238 kW)
    let curve_watts = 220_000 + (238_000 - 220_000) * (1_000 - 200) / (4_500 - 200);
    // a generous offer: limited by the curve
    let p = v.next_power_request(Power::from_kilowatts(350)).unwrap();
    assert_eq!(p.watts, curve_watts);
    // a small offer: limited by the offer
    let p = v.next_power_request(Power::from_kilowatts(50)).unwrap();
    assert_eq!(p.watts, 50_000);
    // an offer below the floor: raised to the 5 kW minimum viable rate
    let p = v.next_power_request(Power::from_kilowatts(1)).unwrap();
    assert_eq!(p.watts, 5_000);
}

#[test]
fn next_power_request_is_none_at_threshold() {
    let v = ev6_at_fraction(8_000);
    assert!(v.next_power_request(Power::from_kilowatts(350)).is_none());
}

#[test]
fn charge_adds_power_times_duration() {
    let mut v = ev6_at_fraction(1_000);
    let before = v.current_charge.watt_seconds;
    let added = v.charge(Power::from_kilowatts(100), 60).unwrap();
    assert_eq!(added.watt_seconds, 100_000 * 60);
    assert_eq!(v.current_charge.watt_seconds, before + 100_000 * 60);
}

#[test]
fn charge_rejects_negative_power() {
    let mut v = ev6_at_fraction(1_000);
    let before = v.current_charge;
    let r = v.charge(Power::from_watts(-1), 60);
    assert_eq!(r.unwrap_err(), ChargeError::NegativePower);
    assert_eq!(v.current_charge, before);
}
