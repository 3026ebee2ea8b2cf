//! Unit-safe quantity types: state of charge as a bounded fixed-point
//! percentage, power in whole watts, and energy in whole watt-seconds.
//!
//! All arithmetic is exact integer arithmetic, so repeated curve lookups and
//! thousands of simulation steps accumulate no rounding drift.

use vstd::prelude::*;

verus! {

/// Number of hundredths of a percent in the full 0%..=100% scale.
pub const SOC_SCALE: u16 = 10_000;

/// Largest magnitude, in watts, accepted for a configured power value
/// (curve samples, grid connections, power steps): one gigawatt.
pub const POWER_LIMIT_WATTS: i64 = 1_000_000_000;

/// Minimum viable charge rate offered to a plugged-in vehicle: 5 kW.
pub const POWER_FLOOR_WATTS: i64 = 5_000;

/// Largest energy, in watt-seconds, accepted for a configured battery
/// capacity, starting charge or unplug threshold.
pub const ENERGY_LIMIT_WATT_SECONDS: i128 = 1_000_000_000_000_000_000;

/// Longest accepted simulation step: one day, in seconds.
pub const STEP_LIMIT_SECONDS: u64 = 86_400;

/// Stored energy at or below this level (one watt-hour, in watt-seconds)
/// reads as 0% state of charge, suppressing near-empty measurement noise.
pub const NOISE_FLOOR_WATT_SECONDS: i128 = 3_600;

/// Watt-seconds in one watt-hour.
pub const WATT_SECONDS_PER_WATT_HOUR: i64 = 3_600;

/// A ratio of a reference capacity, clamped to 0%..=100% and held in
/// hundredths of a percent so that curve lookups stay exact.
#[derive(Clone, Copy, Debug, PartialEq, Eq, Structural)]
pub struct Percentage {
    pub hundredths: u16,
}

impl Percentage {
    /// Within the 0%..=100% scale.
    pub open spec fn wf(self) -> bool {
        self.hundredths <= SOC_SCALE
    }

    /// This share of a reference energy, rounded down to a whole
    /// watt-second: used to turn a state-of-charge slider position into a
    /// stored-energy value.
    pub fn of_energy(self, reference: Energy) -> (r: Energy)
        requires
            self.wf(),
            0 <= reference.watt_seconds <= ENERGY_LIMIT_WATT_SECONDS,
        ensures
            r.watt_seconds == reference.watt_seconds * self.hundredths / (SOC_SCALE as int),
            0 <= r.watt_seconds <= reference.watt_seconds,
    {
        proof {
            assert(0 <= reference.watt_seconds * self.hundredths <= u128::MAX) by (nonlinear_arith)
                requires
                    0 <= reference.watt_seconds <= ENERGY_LIMIT_WATT_SECONDS,
                    0 <= self.hundredths <= SOC_SCALE,
            ;
            vstd::arithmetic::div_mod::lemma_div_of0(SOC_SCALE as int);
            vstd::arithmetic::div_mod::lemma_div_is_ordered(
                0,
                reference.watt_seconds * self.hundredths,
                SOC_SCALE as int,
            );
            vstd::arithmetic::mul::lemma_mul_inequality(
                self.hundredths as int,
                SOC_SCALE as int,
                reference.watt_seconds as int,
            );
            vstd::arithmetic::div_mod::lemma_div_is_ordered(
                reference.watt_seconds * self.hundredths,
                reference.watt_seconds * SOC_SCALE,
                SOC_SCALE as int,
            );
            vstd::arithmetic::div_mod::lemma_div_multiples_vanish(
                reference.watt_seconds as int,
                SOC_SCALE as int,
            );
            assert(reference.watt_seconds * self.hundredths == self.hundredths
                * reference.watt_seconds) by (nonlinear_arith);
            assert(reference.watt_seconds * SOC_SCALE == SOC_SCALE * reference.watt_seconds)
                by (nonlinear_arith);
        }
        let scaled: u128 = (reference.watt_seconds as u128) * (self.hundredths as u128);
        let q: u128 = scaled / (SOC_SCALE as u128);
        Energy { watt_seconds: q as i128 }
    }

    /// Saturating constructor: values above 100% clamp to 100%.
    pub fn new(hundredths: u32) -> (r: Percentage)
        ensures
            r.hundredths as int == if hundredths <= SOC_SCALE as u32 {
                hundredths as int
            } else {
                SOC_SCALE as int
            },
            r.wf(),
    {
        if hundredths <= SOC_SCALE as u32 {
            Percentage { hundredths: hundredths as u16 }
        } else {
            Percentage { hundredths: SOC_SCALE }
        }
    }
}

/// A signed power in whole watts.
#[derive(Clone, Copy, Debug, PartialEq, Eq, Structural)]
pub struct Power {
    pub watts: i64,
}

impl Power {
    pub fn from_watts(watts: i64) -> (r: Power)
        ensures
            r.watts == watts,
    {
        Power { watts }
    }

    pub fn from_kilowatts(kilowatts: i64) -> (r: Power)
        requires
            -9_000_000_000_000_000 <= kilowatts <= 9_000_000_000_000_000,
        ensures
            r.watts == kilowatts * 1000,
    {
        Power { watts: kilowatts * 1000 }
    }

    pub fn plus(self, other: Power) -> (r: Power)
        requires
            i64::MIN <= self.watts + other.watts <= i64::MAX,
        ensures
            r.watts == self.watts + other.watts,
    {
        Power { watts: self.watts + other.watts }
    }

    pub fn minus(self, other: Power) -> (r: Power)
        requires
            i64::MIN <= self.watts - other.watts <= i64::MAX,
        ensures
            r.watts == self.watts - other.watts,
    {
        Power { watts: self.watts - other.watts }
    }

    /// Even division of a nonnegative power across a number of plugs.
    pub fn divided_among(self, plugs: u32) -> (r: Power)
        requires
            plugs >= 1,
            self.watts >= 0,
        ensures
            r.watts == self.watts as int / plugs as int,
            0 <= r.watts <= self.watts,
    {
        let w: u64 = self.watts as u64;
        let q: u64 = w / (plugs as u64);
        Power { watts: q as i64 }
    }

    /// Energy delivered by holding this power for a number of seconds.
    /// Exact: a 64-bit watt count times a 64-bit second count always fits
    /// in the 128-bit watt-second count.
    pub fn times_seconds(self, seconds: u64) -> (r: Energy)
        ensures
            r.watt_seconds == self.watts * seconds,
    {
        proof {
            assert(i128::MIN <= self.watts * seconds <= i128::MAX) by (nonlinear_arith)
                requires
                    i64::MIN <= self.watts <= i64::MAX,
                    0 <= seconds <= u64::MAX,
            ;
        }
        Energy { watt_seconds: (self.watts as i128) * (seconds as i128) }
    }
}

/// A signed energy in whole watt-seconds. Energy only accumulates; it never
/// feeds back into discrete allocation decisions, but it is still held as an
/// exact integer so that totals over many steps stay exact.
#[derive(Clone, Copy, Debug, PartialEq, Eq, Structural)]
pub struct Energy {
    pub watt_seconds: i128,
}

impl Energy {
    pub fn zero() -> (r: Energy)
        ensures
            r.watt_seconds == 0,
    {
        Energy { watt_seconds: 0 }
    }

    pub fn from_watt_seconds(watt_seconds: i128) -> (r: Energy)
        ensures
            r.watt_seconds == watt_seconds,
    {
        Energy { watt_seconds }
    }

    pub fn from_watt_hours(watt_hours: i64) -> (r: Energy)
        ensures
            r.watt_seconds == watt_hours * WATT_SECONDS_PER_WATT_HOUR,
    {
        proof {
            assert(i128::MIN <= watt_hours * WATT_SECONDS_PER_WATT_HOUR <= i128::MAX)
                by (nonlinear_arith)
                requires
                    i64::MIN <= watt_hours <= i64::MAX,
            ;
        }
        Energy { watt_seconds: (watt_hours as i128) * (WATT_SECONDS_PER_WATT_HOUR as i128) }
    }

    pub fn plus(self, other: Energy) -> (r: Energy)
        requires
            i128::MIN <= self.watt_seconds + other.watt_seconds <= i128::MAX,
        ensures
            r.watt_seconds == self.watt_seconds + other.watt_seconds,
    {
        Energy { watt_seconds: self.watt_seconds + other.watt_seconds }
    }

    /// Overflow-checked addition, for totals over caller-supplied data.
    pub fn checked_plus(self, other: Energy) -> (r: Option<Energy>)
        ensures
            i128::MIN <= self.watt_seconds + other.watt_seconds <= i128::MAX ==> r == Some(
                Energy { watt_seconds: (self.watt_seconds + other.watt_seconds) as i128 },
            ),
            !(i128::MIN <= self.watt_seconds + other.watt_seconds <= i128::MAX) ==> r is None,
    {
        if other.watt_seconds >= 0 {
            if self.watt_seconds <= i128::MAX - other.watt_seconds {
                Some(Energy { watt_seconds: self.watt_seconds + other.watt_seconds })
            } else {
                None
            }
        } else {
            if self.watt_seconds >= i128::MIN - other.watt_seconds {
                Some(Energy { watt_seconds: self.watt_seconds + other.watt_seconds })
            } else {
                None
            }
        }
    }
}

} // verus!
