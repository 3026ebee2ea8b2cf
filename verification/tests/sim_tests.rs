use std::collections::VecDeque;
use std::rc::Rc;

use charge_sim::charger::Charger;
use charge_sim::charger::LoadSharingStrategy;
use charge_sim::curve::ChargeCurve;
use charge_sim::curve::ConfigError;
use charge_sim::curve::CurvePoint;
use charge_sim::quantities::Energy;
use charge_sim::quantities::Percentage;
use charge_sim::quantities::Power;
use charge_sim::sim::total_energy_dispensed;
use charge_sim::sim::Sim;
use charge_sim::sim::SimFrame;
use charge_sim::vehicle::Vehicle;
use charge_sim::vehicle::VehicleSpec;

fn pt(hundredths: u32, kilowatts: i64) -> CurvePoint {
    CurvePoint::new(Percentage::new(hundredths), Power::from_kilowatts(kilowatts))
}

/// The KIA EV6 from the vehicle catalog: 77.4 kWh.
fn ev6_spec() -> Rc<VehicleSpec> {
    let curve = ChargeCurve::new(vec![
        pt(0, 20),
        pt(200, 220),
        pt(4_500, 238),
        pt(5_000, 198),
        pt(5_500, 198),
        pt(6_000, 100),
        pt(7_000, 198),
        pt(7_800, 168),
        pt(8_000, 0),
        pt(8_200, 125),
        pt(10_000, 20),
    ])
    .unwrap();
    Rc::new(
        VehicleSpec::new(
            "KIA EV6 Long Range AWD".to_string(),
            Energy::from_watt_hours(77_400),
            curve,
            270,
        )
        .unwrap(),
    )
}

fn ev6_ten_to_eighty() -> Vehicle {
    let spec = ev6_spec();
    let capacity = spec.battery_max.watt_seconds;
    Vehicle::new(
        spec,
        Energy::from_watt_seconds(capacity / 10),
        Energy::from_watt_seconds(capacity * 8 / 10),
    )
    .unwrap()
}

fn exclusive_350() -> Charger {
    Charger::new(Power::from_kilowatts(350), LoadSharingStrategy::Exclusive).unwrap()
}

#[test]
fn new_rejects_bad_step_durations() {
    let r = Sim::new(VecDeque::new(), vec![exclusive_350()], 0);
    assert_eq!(r.unwrap_err(), ConfigError::StepDurationOutOfRange);
    let r = Sim::new(VecDeque::new(), vec![exclusive_350()], 1_000_000_000);
    assert_eq!(r.unwrap_err(), ConfigError::StepDurationOutOfRange);
}

#[test]
fn new_rejects_too_many_chargers() {
    let mut chargers = Vec::new();
    for _ in 0..100_001 {
        chargers.push(exclusive_350());
    }
    let r = Sim::new(VecDeque::new(), chargers, 60);
    assert_eq!(r.unwrap_err(), ConfigError::TooManyChargers);
}

#[test]
fn zero_chargers_is_invalid_and_yields_zero_frames() {
    let mut queue = VecDeque::new();
    queue.push_back(ev6_ten_to_eighty());
    queue.push_back(ev6_ten_to_eighty());
    let mut sim = Sim::new(queue, vec![], 60).unwrap();
    assert!(!sim.is_valid());
    let frames = sim.run(100_000);
    assert_eq!(frames.len(), 0);
}

#[test]
fn zero_vehicles_is_invalid_and_yields_zero_frames() {
    let mut sim = Sim::new(VecDeque::new(), vec![exclusive_350()], 60).unwrap();
    assert!(!sim.is_valid());
    let frames = sim.run(100_000);
    assert_eq!(frames.len(), 0);
}

#[test]
fn exclusive_charge_ten_to_eighty_terminates_near_target() {
    let mut queue = VecDeque::new();
    queue.push_back(ev6_ten_to_eighty());
    let mut sim = Sim::new(queue, vec![exclusive_350()], 60).unwrap();
    assert!(sim.is_valid());
    let frames = sim.run(1_000_000);
    assert!(sim.is_done(), "simulation did not finish");
    assert!(frames.len() < 1_000_000);
    // the vehicle charged from 10% to its 80% threshold: the energy delivered
    // is 70% of capacity, up to one step's worth of overshoot
    let capacity_ws: i128 = 77_400 * 3_600;
    let target = capacity_ws * 7 / 10;
    let one_step = 350_000 * 60;
    let total = total_energy_dispensed(&frames).unwrap().watt_seconds;
    assert!(total >= target, "undershoot: {total} < {target}");
    assert!(total <= target + one_step, "overshoot: {total} > {target} + {one_step}");
}

#[test]
fn energy_is_conserved_across_frames() {
    let mut queue = VecDeque::new();
    queue.push_back(ev6_ten_to_eighty());
    queue.push_back(ev6_ten_to_eighty());
    queue.push_back(ev6_ten_to_eighty());
    let chargers = vec![
        exclusive_350(),
        Charger::new(
            Power::from_kilowatts(100),
            LoadSharingStrategy::Granular {
                power_step: Power::from_kilowatts(25),
                number_of_plugs: 2,
                max_per_plug: Power::from_kilowatts(100),
            },
        )
        .unwrap(),
    ];
    let mut sim = Sim::new(queue, chargers, 60).unwrap();
    let frames = sim.run(1_000_000);
    assert!(sim.is_done());
    assert!(!frames.is_empty());
    let total = total_energy_dispensed(&frames).unwrap().watt_seconds;
    let mut by_allocation: i128 = 0;
    for frame in &frames {
        let mut frame_sum: i128 = 0;
        for v in &frame.vehicles_charging {
            frame_sum += v.allocated_power.watts as i128 * 60;
        }
        assert_eq!(frame.energy_dispensed.watt_seconds, frame_sum);
        by_allocation += frame_sum;
    }
    assert_eq!(total, by_allocation);
}

#[test]
fn granular_never_exceeds_its_grid_connection() {
    let mut queue = VecDeque::new();
    queue.push_back(ev6_ten_to_eighty());
    queue.push_back(ev6_ten_to_eighty());
    let chargers = vec![Charger::new(
        Power::from_kilowatts(100),
        LoadSharingStrategy::Granular {
            power_step: Power::from_kilowatts(25),
            number_of_plugs: 2,
            max_per_plug: Power::from_kilowatts(100),
        },
    )
    .unwrap()];
    let mut sim = Sim::new(queue, chargers, 60).unwrap();
    let frames = sim.run(1_000_000);
    assert!(sim.is_done());
    for frame in &frames {
        assert_eq!(frame.chargers.len(), 1);
        assert!(frame.chargers[0].active_power.watts <= 100_000);
    }
}

#[test]
fn identical_runs_produce_identical_frames() {
    let build = || {
        let mut queue = VecDeque::new();
        queue.push_back(ev6_ten_to_eighty());
        queue.push_back(ev6_ten_to_eighty());
        let chargers = vec![
            exclusive_350(),
            Charger::new(
                Power::from_kilowatts(200),
                LoadSharingStrategy::Paired { number_of_plugs: 2 },
            )
            .unwrap(),
        ];
        Sim::new(queue, chargers, 60).unwrap()
    };
    let frames_a: Vec<SimFrame> = build().run(1_000_000);
    let frames_b: Vec<SimFrame> = build().run(1_000_000);
    assert!(!frames_a.is_empty());
    assert_eq!(frames_a, frames_b);
}

#[test]
fn frames_carry_admission_order_and_charger_accounting() {
    let mut queue = VecDeque::new();
    queue.push_back(ev6_ten_to_eighty());
    queue.push_back(ev6_ten_to_eighty());
    queue.push_back(ev6_ten_to_eighty());
    let chargers = vec![
        Charger::new(
            Power::from_kilowatts(400),
            LoadSharingStrategy::Split { number_of_plugs: 2 },
        )
        .unwrap(),
        exclusive_350(),
    ];
    let mut sim = Sim::new(queue, chargers, 60).unwrap();
    let frames = sim.run(10);
    let first = &frames[0];
    // FIFO admission: the first charger's two plugs take ids 0 and 1, the
    // exclusive charger takes id 2
    let ids: Vec<usize> = first.vehicles_charging.iter().map(|v| v.vehicle_id).collect();
    assert_eq!(ids, vec![0, 1, 2]);
    assert_eq!(first.plugs_unused, 0);
    assert_eq!(first.duration_seconds, 60);
    assert_eq!(frames[1].duration_seconds, 120);
    for cf in &first.chargers {
        let grid: i64 = if cf.charger_id == 0 { 400_000 } else { 350_000 };
        assert_eq!(cf.unused_power.watts, grid - cf.active_power.watts);
    }
}

#[test]
fn run_respects_the_step_budget() {
    let mut queue = VecDeque::new();
    queue.push_back(ev6_ten_to_eighty());
    let mut sim = Sim::new(queue, vec![exclusive_350()], 60).unwrap();
    let frames = sim.run(3);
    assert_eq!(frames.len(), 3);
    assert!(!sim.is_done());
}
