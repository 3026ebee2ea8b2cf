use charge_sim::quantities::Energy;
use charge_sim::quantities::Percentage;
use charge_sim::quantities::Power;

#[test]
fn percentage_construction_saturates() {
    assert_eq!(Percentage::new(0).hundredths, 0);
    assert_eq!(Percentage::new(4_321).hundredths, 4_321);
    assert_eq!(Percentage::new(10_000).hundredths, 10_000);
    assert_eq!(Percentage::new(10_001).hundredths, 10_000);
    assert_eq!(Percentage::new(4_000_000_000).hundredths, 10_000);
}

#[test]
fn power_conversions_and_arithmetic() {
    assert_eq!(Power::from_kilowatts(350).watts, 350_000);
    assert_eq!(Power::from_watts(-7).watts, -7);
    assert_eq!(Power::from_kilowatts(5).plus(Power::from_kilowatts(7)).watts, 12_000);
    assert_eq!(Power::from_kilowatts(5).minus(Power::from_kilowatts(7)).watts, -2_000);
    assert_eq!(Power::from_kilowatts(300).divided_among(4).watts, 75_000);
    // truncating division: 100 kW over 3 plugs
    assert_eq!(Power::from_kilowatts(100).divided_among(3).watts, 33_333);
}

#[test]
fn power_times_duration_is_energy() {
    let e = Power::from_kilowatts(100).times_seconds(3_600);
    assert_eq!(e.watt_seconds, 360_000_000);
    // 100 kW for an hour is 100 kWh
    assert_eq!(e.watt_seconds, Energy::from_watt_hours(100_000).watt_seconds);
}

#[test]
fn energy_addition_and_overflow_check() {
    let a = Energy::from_watt_hours(10);
    let b = Energy::from_watt_hours(20);
    assert_eq!(a.plus(b).watt_seconds, 30 * 3_600);
    assert_eq!(a.checked_plus(b), Some(a.plus(b)));
    let huge = Energy::from_watt_seconds(i128::MAX);
    assert_eq!(huge.checked_plus(Energy::from_watt_seconds(1)), None);
    assert_eq!(huge.checked_plus(Energy::from_watt_seconds(-1)).unwrap().watt_seconds, i128::MAX - 1);
}

#[test]
fn percentage_of_energy_scales_a_capacity() {
    let capacity = Energy::from_watt_hours(77_400);
    let tenth = Percentage::new(1_000).of_energy(capacity);
    assert_eq!(tenth.watt_seconds, capacity.watt_seconds / 10);
    assert_eq!(Percentage::new(0).of_energy(capacity).watt_seconds, 0);
    assert_eq!(Percentage::new(10_000).of_energy(capacity).watt_seconds, capacity.watt_seconds);
    // rounds down to a whole watt-second
    let third = Percentage::new(3_333).of_energy(Energy::from_watt_seconds(3));
    assert_eq!(third.watt_seconds, 0);
}
