use std::rc::Rc;

use charge_sim::charger::Charger;
use charge_sim::charger::LoadSharingStrategy;
use charge_sim::curve::ChargeCurve;
use charge_sim::curve::ConfigError;
use charge_sim::curve::CurvePoint;
use charge_sim::quantities::Energy;
use charge_sim::quantities::Percentage;
use charge_sim::quantities::Power;
use charge_sim::vehicle::Vehicle;
use charge_sim::vehicle::VehicleSpec;

fn pt(hundredths: u32, kilowatts: i64) -> CurvePoint {
    CurvePoint::new(Percentage::new(hundredths), Power::from_kilowatts(kilowatts))
}

/// A flat 250 kW curve across the whole domain.
fn flat_spec() -> Rc<VehicleSpec> {
    let curve = ChargeCurve::new(vec![pt(0, 250), pt(10_000, 250)]).unwrap();
    Rc::new(
        VehicleSpec::new("flat".to_string(), Energy::from_watt_hours(100_000), curve, 300)
            .unwrap(),
    )
}

fn fresh_vehicle(spec: &Rc<VehicleSpec>) -> Vehicle {
    let capacity = spec.battery_max.watt_seconds;
    Vehicle::new(
        spec.clone(),
        Energy::from_watt_seconds(capacity / 10),
        Energy::from_watt_seconds(capacity * 8 / 10),
    )
    .unwrap()
}

#[test]
fn charger_construction_rejects_bad_parameters() {
    assert_eq!(
        Charger::new(Power::from_watts(-1), LoadSharingStrategy::Exclusive).unwrap_err(),
        ConfigError::GridOutOfRange
    );
    assert_eq!(
        Charger::new(
            Power::from_kilowatts(100),
            LoadSharingStrategy::Paired { number_of_plugs: 0 },
        )
        .unwrap_err(),
        ConfigError::PlugCountOutOfRange
    );
    assert_eq!(
        Charger::new(
            Power::from_kilowatts(100),
            LoadSharingStrategy::Granular {
                power_step: Power::from_watts(0),
                number_of_plugs: 4,
                max_per_plug: Power::from_kilowatts(100),
            },
        )
        .unwrap_err(),
        ConfigError::PowerStepOutOfRange
    );
    assert_eq!(
        Charger::new(
            Power::from_kilowatts(100),
            LoadSharingStrategy::Granular {
                power_step: Power::from_kilowatts(25),
                number_of_plugs: 4,
                max_per_plug: Power::from_watts(-5),
            },
        )
        .unwrap_err(),
        ConfigError::MaxPerPlugOutOfRange
    );
    // a 10 kW step against a 4 kW grid leaves a budget of zero whole steps,
    // and a 100 W step against a 1 kW grid leaves a budget of ten steps that
    // still cannot cover one 5 kW floored request: both would hold a vehicle
    // at zero allocation forever
    for (grid_w, step_w) in [(4_000i64, 10_000i64), (1_000, 100)] {
        assert_eq!(
            Charger::new(
                Power::from_watts(grid_w),
                LoadSharingStrategy::Granular {
                    power_step: Power::from_watts(step_w),
                    number_of_plugs: 4,
                    max_per_plug: Power::from_kilowatts(100),
                },
            )
            .unwrap_err(),
            ConfigError::GranularBudgetTooSmall
        );
    }
}

#[test]
fn plug_accounting() {
    let mut c = Charger::new(
        Power::from_kilowatts(300),
        LoadSharingStrategy::Split { number_of_plugs: 2 },
    )
    .unwrap();
    assert_eq!(c.num_plugs(), 2);
    assert!(c.has_free_plug());
    let spec = flat_spec();
    c.add_vehicle(fresh_vehicle(&spec), 0);
    assert!(c.has_free_plug());
    c.add_vehicle(fresh_vehicle(&spec), 1);
    assert!(!c.has_free_plug());
}

#[test]
fn exclusive_offers_the_full_grid_connection() {
    let spec = flat_spec();
    let mut c = Charger::new(Power::from_kilowatts(350), LoadSharingStrategy::Exclusive).unwrap();
    c.add_vehicle(fresh_vehicle(&spec), 0);
    c.update_power_requests();
    // the flat 250 kW curve is below the 350 kW offer
    assert_eq!(c.total_allocated_power().watts, 250_000);
}

#[test]
fn paired_boosts_only_while_more_than_half_the_plugs_are_free() {
    let spec = flat_spec();
    let mut c = Charger::new(
        Power::from_kilowatts(400),
        LoadSharingStrategy::Paired { number_of_plugs: 4 },
    )
    .unwrap();
    c.add_vehicle(fresh_vehicle(&spec), 0);
    c.update_power_requests();
    // one occupant, three of four plugs free: double the 100 kW even share
    assert_eq!(c.total_allocated_power().watts, 200_000);
    c.add_vehicle(fresh_vehicle(&spec), 1);
    c.update_power_requests();
    // two occupants, exactly half the plugs free: no boost, plain share each
    assert_eq!(c.total_allocated_power().watts, 200_000);
    c.add_vehicle(fresh_vehicle(&spec), 2);
    c.update_power_requests();
    // three occupants, one free plug: plain 100 kW share each
    assert_eq!(c.total_allocated_power().watts, 300_000);
}

#[test]
fn split_divides_evenly_regardless_of_occupancy() {
    let spec = flat_spec();
    let mut c = Charger::new(
        Power::from_kilowatts(400),
        LoadSharingStrategy::Split { number_of_plugs: 4 },
    )
    .unwrap();
    c.add_vehicle(fresh_vehicle(&spec), 0);
    c.update_power_requests();
    assert_eq!(c.total_allocated_power().watts, 100_000);
}

#[test]
fn granular_hands_out_steps_and_respects_the_budget() {
    let spec = flat_spec();
    let mut c = Charger::new(
        Power::from_kilowatts(100),
        LoadSharingStrategy::Granular {
            power_step: Power::from_kilowatts(25),
            number_of_plugs: 4,
            max_per_plug: Power::from_kilowatts(100),
        },
    )
    .unwrap();
    c.add_vehicle(fresh_vehicle(&spec), 0);
    c.add_vehicle(fresh_vehicle(&spec), 1);
    // fresh occupants start at zero; the very first re-evaluation already
    // grants each one whole step
    c.update_power_requests();
    assert_eq!(c.total_allocated_power().watts, 50_000);
    // both vehicles want far more than 25 kW; over several ticks the step
    // budget is handed out without ever exceeding the 100 kW grid connection
    for _ in 0..10 {
        c.update_power_requests();
        let total = c.total_allocated_power().watts;
        assert!(total <= 100_000, "granular overdraw: {total}");
    }
    assert_eq!(c.total_allocated_power().watts, 100_000);
}

#[test]
fn update_drops_vehicles_at_their_threshold() {
    let spec = flat_spec();
    let capacity = spec.battery_max.watt_seconds;
    let done = Vehicle::new(
        spec.clone(),
        Energy::from_watt_seconds(capacity * 8 / 10),
        Energy::from_watt_seconds(capacity * 8 / 10),
    )
    .unwrap();
    let mut c = Charger::new(Power::from_kilowatts(350), LoadSharingStrategy::Exclusive).unwrap();
    c.add_vehicle(done, 0);
    assert!(!c.has_free_plug());
    c.update_power_requests();
    assert!(c.has_free_plug());
    assert_eq!(c.total_allocated_power().watts, 0);
}

#[test]
fn charge_vehicles_returns_the_step_energy() {
    let spec = flat_spec();
    let mut c = Charger::new(
        Power::from_kilowatts(400),
        LoadSharingStrategy::Split { number_of_plugs: 2 },
    )
    .unwrap();
    c.add_vehicle(fresh_vehicle(&spec), 0);
    c.add_vehicle(fresh_vehicle(&spec), 1);
    c.update_power_requests();
    // each vehicle allocated 200 kW; 60 seconds of charging
    let e = c.charge_vehicles(60);
    assert_eq!(e.watt_seconds, 2 * 200_000 * 60);
}
