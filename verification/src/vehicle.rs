//! Vehicle catalog data and runtime charging entities: a vehicle tracks its
//! stored energy against a shared immutable spec, asks the spec's charge
//! curve for its next desired power, and advances its charge over a step.

use std::rc::Rc;

use vstd::pervasive::unreached;
use vstd::prelude::*;

use crate::curve::lemma_power_at_range;
use crate::curve::power_at_spec;
use crate::curve::soc_of;
use crate::curve::ChargeCurve;
use crate::curve::ConfigError;
use crate::quantities::Energy;
use crate::quantities::Percentage;
use crate::quantities::Power;
use crate::quantities::ENERGY_LIMIT_WATT_SECONDS;
use crate::quantities::NOISE_FLOOR_WATT_SECONDS;
use crate::quantities::POWER_FLOOR_WATTS;
use crate::quantities::POWER_LIMIT_WATTS;
use crate::quantities::SOC_SCALE;
use crate::quantities::STEP_LIMIT_SECONDS;

verus! {

/// Error from the charging step: charging must never remove energy.
#[derive(Clone, Copy, Debug, PartialEq, Eq, Structural)]
pub enum ChargeError {
    NegativePower,
}

/// Highest stored energy a vehicle can reach: the configured limit plus one
/// maximal step's worth of delivered energy.
pub open spec fn vehicle_energy_ceiling() -> int {
    ENERGY_LIMIT_WATT_SECONDS + POWER_LIMIT_WATTS * STEP_LIMIT_SECONDS
}

/// Immutable catalog data for one vehicle model, shared by reference across
/// the vehicles of that model.
#[derive(Debug)]
pub struct VehicleSpec {
    pub name: String,
    pub battery_max: Energy,
    pub charge_curve: ChargeCurve,
    /// Reference range figure, in miles.
    pub epa_miles: u32,
}

impl VehicleSpec {
    /// A valid spec: its curve spans the whole 0%..=100% domain, so every
    /// reachable state of charge has a defined power.
    pub open spec fn wf(self) -> bool {
        &&& self.charge_curve.wf()
        &&& self.charge_curve.spans_full_domain()
        &&& 0 < self.battery_max.watt_seconds <= ENERGY_LIMIT_WATT_SECONDS
    }

    /// Validating constructor: a curve that does not span the full domain or
    /// an out-of-range capacity is reported, not carried into the simulation.
    pub fn new(name: String, battery_max: Energy, charge_curve: ChargeCurve, epa_miles: u32) -> (r:
        Result<VehicleSpec, ConfigError>)
        requires
            charge_curve.wf(),
        ensures
            r matches Ok(s) ==> s == (VehicleSpec { name, battery_max, charge_curve, epa_miles })
                && s.wf(),
            r is Ok <==> (charge_curve.spans_full_domain() && 0 < battery_max.watt_seconds
                <= ENERGY_LIMIT_WATT_SECONDS),
            r == Err::<VehicleSpec, ConfigError>(ConfigError::CurveDoesNotSpanDomain)
                <==> !charge_curve.spans_full_domain(),
            r == Err::<VehicleSpec, ConfigError>(ConfigError::CapacityOutOfRange) <==> (
            charge_curve.spans_full_domain() && !(0 < battery_max.watt_seconds
                <= ENERGY_LIMIT_WATT_SECONDS)),
    {
        let n = charge_curve.data_points.len();
        if charge_curve.data_points[0].state_of_charge.hundredths != 0
            || charge_curve.data_points[n - 1].state_of_charge.hundredths != SOC_SCALE {
            return Err(ConfigError::CurveDoesNotSpanDomain);
        }
        if battery_max.watt_seconds <= 0 || battery_max.watt_seconds > ENERGY_LIMIT_WATT_SECONDS {
            return Err(ConfigError::CapacityOutOfRange);
        }
        Ok(VehicleSpec { name, battery_max, charge_curve, epa_miles })
    }
}

/// A charging entity: stored energy against a shared spec, and the absolute
/// energy threshold at which it unplugs.
#[derive(Debug)]
pub struct Vehicle {
    pub spec: Rc<VehicleSpec>,
    pub current_charge: Energy,
    pub unplug_at: Energy,
}

/// The vehicle's state of charge, in hundredths of a percent: stored energy
/// over capacity, reading as 0% at or below the noise floor and saturating
/// at 100%.
pub open spec fn soc_spec(v: Vehicle) -> int {
    if v.current_charge.watt_seconds <= NOISE_FLOOR_WATT_SECONDS {
        0
    } else {
        let raw = v.current_charge.watt_seconds * SOC_SCALE
            / v.spec.battery_max.watt_seconds as int;
        if raw > SOC_SCALE {
            SOC_SCALE as int
        } else {
            raw
        }
    }
}

/// The power the vehicle asks for when offered `offer` watts: nothing once
/// its threshold is reached, otherwise its curve's power at the current state
/// of charge, capped by the offer and raised to the minimum viable rate.
pub open spec fn next_request_spec(v: Vehicle, offer: int) -> Option<int> {
    if v.current_charge.watt_seconds >= v.unplug_at.watt_seconds {
        None
    } else {
        let p = power_at_spec(v.spec.charge_curve.data_points@, soc_spec(v));
        let capped = if p <= offer {
            p
        } else {
            offer
        };
        Some(
            if capped >= POWER_FLOOR_WATTS {
                capped
            } else {
                POWER_FLOOR_WATTS as int
            },
        )
    }
}

/// A vehicle's state of charge always lies on the percentage scale, so a
/// valid spec's full-domain curve always defines a power for it.
pub proof fn lemma_soc_in_scale(v: Vehicle)
    requires
        v.wf(),
    ensures
        0 <= soc_spec(v) <= SOC_SCALE,
{
    if v.current_charge.watt_seconds > NOISE_FLOOR_WATT_SECONDS {
        vstd::arithmetic::div_mod::lemma_div_pos_is_pos(
            v.current_charge.watt_seconds * SOC_SCALE,
            v.spec.battery_max.watt_seconds as int,
        );
        assert(v.current_charge.watt_seconds * SOC_SCALE >= 0) by (nonlinear_arith)
            requires
                v.current_charge.watt_seconds >= 0,
        ;
    }
}

/// Whatever is on offer, a granted charge request lies between the minimum
/// viable rate and the power limit: an actively charging vehicle always
/// progresses toward its threshold by at least the floor.
pub proof fn lemma_next_request_floor(v: Vehicle, offer: int)
    requires
        v.wf(),
    ensures
        next_request_spec(v, offer) matches Some(w) ==> POWER_FLOOR_WATTS <= w
            <= POWER_LIMIT_WATTS,
{
    if v.current_charge.watt_seconds < v.unplug_at.watt_seconds {
        lemma_soc_in_scale(v);
        lemma_power_at_range(v.spec.charge_curve.data_points@, soc_spec(v));
    }
}

impl Vehicle {
    pub open spec fn wf(self) -> bool {
        &&& self.spec.wf()
        &&& 0 <= self.current_charge.watt_seconds <= vehicle_energy_ceiling()
        &&& 0 <= self.unplug_at.watt_seconds <= ENERGY_LIMIT_WATT_SECONDS
    }

    /// Validating constructor: negative or over-limit energies are rejected.
    pub fn new(spec: Rc<VehicleSpec>, current_charge: Energy, unplug_at: Energy) -> (r: Result<
        Vehicle,
        ConfigError,
    >)
        requires
            spec.wf(),
        ensures
            r matches Ok(v) ==> v == (Vehicle { spec, current_charge, unplug_at }) && v.wf(),
            r is Ok <==> (0 <= current_charge.watt_seconds <= ENERGY_LIMIT_WATT_SECONDS && 0
                <= unplug_at.watt_seconds <= ENERGY_LIMIT_WATT_SECONDS),
            r is Err ==> r == Err::<Vehicle, ConfigError>(ConfigError::EnergyOutOfRange),
    {
        if current_charge.watt_seconds < 0 || current_charge.watt_seconds
            > ENERGY_LIMIT_WATT_SECONDS {
            return Err(ConfigError::EnergyOutOfRange);
        }
        if unplug_at.watt_seconds < 0 || unplug_at.watt_seconds > ENERGY_LIMIT_WATT_SECONDS {
            return Err(ConfigError::EnergyOutOfRange);
        }
        Ok(Vehicle { spec, current_charge, unplug_at })
    }

    /// Current state of charge.
    pub fn soc(&self) -> (r: Percentage)
        requires
            self.wf(),
        ensures
            r.hundredths == soc_spec(*self),
            r.wf(),
    {
        if self.current_charge.watt_seconds <= NOISE_FLOOR_WATT_SECONDS {
            return Percentage { hundredths: 0 };
        }
        proof {
            assert(self.current_charge.watt_seconds * SOC_SCALE <= u128::MAX) by (nonlinear_arith)
                requires
                    0 <= self.current_charge.watt_seconds <= vehicle_energy_ceiling(),
            ;
        }
        let raw: u128 = (self.current_charge.watt_seconds as u128) * (SOC_SCALE as u128) / (
        self.spec.battery_max.watt_seconds as u128);
        if raw > SOC_SCALE as u128 {
            Percentage { hundredths: SOC_SCALE }
        } else {
            Percentage { hundredths: raw as u16 }
        }
    }

    /// State of charge at which the vehicle will unplug.
    pub fn unplug_at_soc(&self) -> (r: Percentage)
        requires
            self.wf(),
        ensures
            r.hundredths == soc_spec(
                Vehicle {
                    spec: self.spec,
                    current_charge: self.unplug_at,
                    unplug_at: self.unplug_at,
                },
            ),
            r.wf(),
    {
        if self.unplug_at.watt_seconds <= NOISE_FLOOR_WATT_SECONDS {
            return Percentage { hundredths: 0 };
        }
        proof {
            assert(self.unplug_at.watt_seconds * SOC_SCALE <= u128::MAX) by (nonlinear_arith)
                requires
                    0 <= self.unplug_at.watt_seconds <= ENERGY_LIMIT_WATT_SECONDS,
            ;
        }
        let raw: u128 = (self.unplug_at.watt_seconds as u128) * (SOC_SCALE as u128) / (
        self.spec.battery_max.watt_seconds as u128);
        if raw > SOC_SCALE as u128 {
            Percentage { hundredths: SOC_SCALE }
        } else {
            Percentage { hundredths: raw as u16 }
        }
    }

    /// The vehicle's next charge request given the power on offer; `None`
    /// when it wants to disconnect.
    pub fn next_power_request(&self, charger_available: Power) -> (r: Option<Power>)
        requires
            self.wf(),
        ensures
            next_request_spec(*self, charger_available.watts as int) is None ==> r is None,
            next_request_spec(*self, charger_available.watts as int) matches Some(w) ==> (
            r matches Some(p) && p.watts == w && POWER_FLOOR_WATTS <= w <= POWER_LIMIT_WATTS),
    {
        if self.current_charge.watt_seconds >= self.unplug_at.watt_seconds {
            return None;
        }
        let soc = self.soc();
        proof {
            lemma_power_at_range(self.spec.charge_curve.data_points@, soc.hundredths as int);
        }
        let p = match self.spec.charge_curve.power_at(soc) {
            Ok(p) => p,
            Err(_) => unreached(),
        };
        let capped = if p.watts <= charger_available.watts {
            p.watts
        } else {
            charger_available.watts
        };
        let floored = if capped >= POWER_FLOOR_WATTS {
            capped
        } else {
            POWER_FLOOR_WATTS
        };
        Some(Power { watts: floored })
    }

    /// Advances the stored energy by `power * dt` and returns the energy
    /// added; negative power is an error and changes nothing.
    pub fn charge(&mut self, power: Power, dt_seconds: u64) -> (r: Result<Energy, ChargeError>)
        requires
            old(self).wf(),
            dt_seconds <= STEP_LIMIT_SECONDS,
            power.watts <= POWER_LIMIT_WATTS,
            old(self).current_charge.watt_seconds + power.watts * dt_seconds
                <= vehicle_energy_ceiling(),
        ensures
            power.watts >= 0 ==> (r matches Ok(e) && e.watt_seconds == power.watts * dt_seconds
                && *final(self) == (Vehicle {
                spec: old(self).spec,
                current_charge: Energy {
                    watt_seconds: (old(self).current_charge.watt_seconds + power.watts
                        * dt_seconds) as i128,
                },
                unplug_at: old(self).unplug_at,
            }) && final(self).wf()),
            power.watts < 0 ==> r == Err::<Energy, ChargeError>(ChargeError::NegativePower)
                && *final(self) == *old(self),
    {
        if power.watts < 0 {
            return Err(ChargeError::NegativePower);
        }
        proof {
            assert(0 <= power.watts * dt_seconds) by (nonlinear_arith)
                requires
                    power.watts >= 0,
                    dt_seconds >= 0,
            ;
        }
        let added = power.times_seconds(dt_seconds);
        self.current_charge = self.current_charge.plus(added);
        Ok(added)
    }
}

} // verus!
