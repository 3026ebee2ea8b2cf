//! Chargers: a fixed grid-connection budget divided across 1..N plugs by a
//! load-sharing strategy, re-evaluated every simulation step.

use vstd::arithmetic::div_mod::lemma_div_is_ordered;
use vstd::arithmetic::div_mod::lemma_div_multiples_vanish;
use vstd::arithmetic::div_mod::lemma_div_of0;
use vstd::arithmetic::mul::lemma_mul_inequality;
use vstd::prelude::*;

use vstd::pervasive::unreached;

use crate::curve::ConfigError;
use crate::quantities::Energy;
use crate::quantities::Power;
use crate::quantities::POWER_FLOOR_WATTS;
use crate::quantities::POWER_LIMIT_WATTS;
use crate::quantities::STEP_LIMIT_SECONDS;
use crate::vehicle::next_request_spec;
use crate::vehicle::vehicle_energy_ceiling;
use crate::vehicle::Vehicle;

verus! {

/// Most plugs one charger can expose.
pub const PLUG_LIMIT: u32 = 10_000;

/// How a charger divides its grid connection across its plugs.
#[derive(Clone, Copy, Debug, PartialEq, Eq, Structural)]
pub enum LoadSharingStrategy {
    /// Exactly one plug; the full grid connection goes to the occupant.
    Exclusive,
    /// N plugs; while more than half the plugs are free each active vehicle
    /// is offered double the even per-plug share (an idle partner plug
    /// boosts its neighbour), otherwise the plain share.
    Paired { number_of_plugs: u32 },
    /// N plugs, flat even division regardless of occupancy.
    Split { number_of_plugs: u32 },
    /// N plugs; whole steps of the grid budget are handed out one at a time,
    /// capped per plug, and never overdrawn. The budget of whole steps must
    /// cover the minimum viable rate, so a plugged-in vehicle is never held
    /// at zero allocation once budget frees up.
    Granular { power_step: Power, number_of_plugs: u32, max_per_plug: Power },
}

pub open spec fn plugs_of(s: LoadSharingStrategy) -> int {
    match s {
        LoadSharingStrategy::Exclusive => 1,
        LoadSharingStrategy::Paired { number_of_plugs } => number_of_plugs as int,
        LoadSharingStrategy::Split { number_of_plugs } => number_of_plugs as int,
        LoadSharingStrategy::Granular { number_of_plugs, .. } => number_of_plugs as int,
    }
}

pub open spec fn strategy_wf(s: LoadSharingStrategy) -> bool {
    match s {
        LoadSharingStrategy::Exclusive => true,
        LoadSharingStrategy::Paired { number_of_plugs } => 1 <= number_of_plugs <= PLUG_LIMIT,
        LoadSharingStrategy::Split { number_of_plugs } => 1 <= number_of_plugs <= PLUG_LIMIT,
        LoadSharingStrategy::Granular { power_step, number_of_plugs, max_per_plug } => {
            &&& 1 <= number_of_plugs <= PLUG_LIMIT
            &&& 0 < power_step.watts <= POWER_LIMIT_WATTS
            &&& 0 <= max_per_plug.watts <= POWER_LIMIT_WATTS
        },
    }
}

/// A vehicle occupying a plug, with the power currently allocated to it.
#[derive(Debug)]
pub struct ChargingVehicle {
    pub allocated_power: Power,
    pub vehicle_id: usize,
    pub vehicle: Vehicle,
}

pub open spec fn charging_vehicle_wf(cv: ChargingVehicle) -> bool {
    &&& cv.vehicle.wf()
    &&& 0 <= cv.allocated_power.watts <= POWER_LIMIT_WATTS
}

/// Whole steps needed to cover an allocation, rounding up.
pub open spec fn ceil_steps(alloc: int, step: int) -> int {
    (alloc + step - 1) / step
}

/// Steps of the budget consumed by the current allocations.
pub open spec fn consumed_steps(vs: Seq<ChargingVehicle>, step: int) -> int
    decreases vs.len(),
{
    if vs.len() == 0 {
        0
    } else {
        ceil_steps(vs[0].allocated_power.watts as int, step) + consumed_steps(
            vs.drop_first(),
            step,
        )
    }
}

/// Sum of the active allocations, in watts.
pub open spec fn total_allocated(vs: Seq<ChargingVehicle>) -> int
    decreases vs.len(),
{
    if vs.len() == 0 {
        0
    } else {
        vs[0].allocated_power.watts + total_allocated(vs.drop_first())
    }
}

/// Rounding an allocation up to whole steps is nonnegative, covers the
/// allocation, and stays within one step above it.
pub proof fn lemma_ceil_steps_bounds(alloc: int, step: int)
    requires
        0 <= alloc,
        1 <= step,
    ensures
        0 <= ceil_steps(alloc, step) <= alloc + 1,
        ceil_steps(alloc, step) * step >= alloc,
{
    lemma_div_of0(step);
    lemma_div_is_ordered(0, alloc + step - 1, step);
    lemma_mul_inequality(1, step, alloc + 1);
    assert((alloc + 1) * step >= alloc + step - 1) by (nonlinear_arith)
        requires
            step >= 1,
            alloc >= 0,
    ;
    lemma_div_is_ordered(alloc + step - 1, (alloc + 1) * step, step);
    lemma_div_multiples_vanish(alloc + 1, step);
    // ceil covers the allocation: alloc <= ceil * step
    let c = ceil_steps(alloc, step);
    vstd::arithmetic::div_mod::lemma_fundamental_div_mod(alloc + step - 1, step);
    assert(c * step == alloc + step - 1 - ((alloc + step - 1) % step));
    vstd::arithmetic::div_mod::lemma_mod_bound(alloc + step - 1, step);
}

pub proof fn lemma_consumed_steps_nonneg(vs: Seq<ChargingVehicle>, step: int)
    requires
        1 <= step,
        forall|i: int| 0 <= i < vs.len() ==> 0 <= (#[trigger] vs[i]).allocated_power.watts,
    ensures
        consumed_steps(vs, step) >= 0,
    decreases vs.len(),
{
    if vs.len() > 0 {
        lemma_ceil_steps_bounds(vs[0].allocated_power.watts as int, step);
        lemma_consumed_steps_nonneg(vs.drop_first(), step);
    }
}

/// Appending one vehicle adds its rounded-up allocation to the consumed steps.
pub proof fn lemma_consumed_steps_push(vs: Seq<ChargingVehicle>, x: ChargingVehicle, step: int)
    ensures
        consumed_steps(vs.push(x), step) == consumed_steps(vs, step) + ceil_steps(
            x.allocated_power.watts as int,
            step,
        ),
    decreases vs.len(),
{
    if vs.len() == 0 {
        assert(vs.push(x).drop_first() =~= vs);
    } else {
        assert(vs.push(x).drop_first() =~= vs.drop_first().push(x));
        lemma_consumed_steps_push(vs.drop_first(), x, step);
    }
}

/// The total allocation is covered by the consumed steps: each allocation is
/// at most its rounded-up step count times the step size.
pub proof fn lemma_total_within_consumed(vs: Seq<ChargingVehicle>, step: int)
    requires
        1 <= step,
        forall|i: int| 0 <= i < vs.len() ==> 0 <= (#[trigger] vs[i]).allocated_power.watts,
    ensures
        total_allocated(vs) <= consumed_steps(vs, step) * step,
    decreases vs.len(),
{
    if vs.len() == 0 {
    } else {
        let a = vs[0].allocated_power.watts as int;
        lemma_ceil_steps_bounds(a, step);
        lemma_total_within_consumed(vs.drop_first(), step);
        assert((ceil_steps(a, step) + consumed_steps(vs.drop_first(), step)) * step == ceil_steps(
            a,
            step,
        ) * step + consumed_steps(vs.drop_first(), step) * step) by (nonlinear_arith);
    }
}

/// A granular charger never overdraws its grid connection: the sum of the
/// power allocated across its plugs stays within the grid budget. This holds
/// of every well-formed granular charger, so in particular at the end of
/// every policy re-evaluation and every simulation step.
pub proof fn lemma_granular_within_grid(c: Charger)
    requires
        c.wf(),
        c.strategy is Granular,
    ensures
        total_allocated(c.currently_charging@) <= c.grid_connection.watts,
{
    let vs = c.currently_charging@;
    if let LoadSharingStrategy::Granular { power_step, .. } = c.strategy {
        let step = power_step.watts as int;
        let grid = c.grid_connection.watts as int;
        lemma_total_within_consumed(vs, step);
        lemma_consumed_steps_nonneg(vs, step);
        lemma_mul_inequality(consumed_steps(vs, step), grid / step, step);
        vstd::arithmetic::div_mod::lemma_fundamental_div_mod(grid, step);
        vstd::arithmetic::div_mod::lemma_mod_bound(grid, step);
        assert((grid / step) * step == step * (grid / step)) by (nonlinear_arith);
    }
}

/// Rounding up to whole steps is monotone in the allocation.
pub proof fn lemma_ceil_steps_monotone(a: int, b: int, step: int)
    requires
        a <= b,
        1 <= step,
    ensures
        ceil_steps(a, step) <= ceil_steps(b, step),
{
    lemma_div_is_ordered(a + step - 1, b + step - 1, step);
}

/// Zero allocations consume no budget steps.
pub proof fn lemma_consumed_steps_all_zero(vs: Seq<ChargingVehicle>, step: int)
    requires
        1 <= step,
        forall|k: int| 0 <= k < vs.len() ==> (#[trigger] vs[k]).allocated_power.watts == 0,
    ensures
        consumed_steps(vs, step) == 0,
    decreases vs.len(),
{
    if vs.len() > 0 {
        vstd::arithmetic::div_mod::lemma_basic_div(step - 1, step);
        assert(ceil_steps(0, step) == 0);
        assert forall|k: int| 0 <= k < vs.drop_first().len() implies (#[trigger] vs.drop_first()[k]).allocated_power.watts
            == 0 by {
            assert(vs.drop_first()[k] == vs[k + 1]);
        }
        lemma_consumed_steps_all_zero(vs.drop_first(), step);
    }
}

/// Under the Exclusive, Paired and Split strategies, every vehicle a
/// re-evaluation keeps is allocated at least the minimum viable rate,
/// whatever the offer: an actively charging vehicle always progresses toward
/// its finite threshold, which is what bounds a run of the simulation.
pub proof fn lemma_shared_update_floor(
    vs: Seq<ChargingVehicle>,
    offer: int,
    acc: Seq<ChargingVehicle>,
)
    requires
        forall|k: int| 0 <= k < vs.len() ==> (#[trigger] vs[k]).vehicle.wf(),
        forall|k: int| 0 <= k < acc.len() ==> (#[trigger] acc[k]).allocated_power.watts
            >= POWER_FLOOR_WATTS,
    ensures
        forall|k: int| 0 <= k < shared_update(vs, offer, acc).len() ==> (#[trigger] shared_update(
            vs,
            offer,
            acc,
        )[k]).allocated_power.watts >= POWER_FLOOR_WATTS,
    decreases vs.len(),
{
    if vs.len() == 0 {
        assert(shared_update(vs, offer, acc) == acc);
    } else {
        let cv = vs[0];
        assert forall|k: int| 0 <= k < vs.drop_first().len() implies (#[trigger] vs.drop_first()[k]).vehicle.wf() by {
            assert(vs.drop_first()[k] == vs[k + 1]);
        }
        crate::vehicle::lemma_next_request_floor(cv.vehicle, offer);
        match next_request_spec(cv.vehicle, offer) {
            Option::None => {
                lemma_shared_update_floor(vs.drop_first(), offer, acc);
                assert(shared_update(vs, offer, acc) == shared_update(
                    vs.drop_first(),
                    offer,
                    acc,
                ));
            },
            Option::Some(w) => {
                let pushed = acc.push(
                    ChargingVehicle {
                        allocated_power: Power { watts: w as i64 },
                        vehicle_id: cv.vehicle_id,
                        vehicle: cv.vehicle,
                    },
                );
                assert forall|k: int| 0 <= k < pushed.len() implies (#[trigger] pushed[k]).allocated_power.watts
                    >= POWER_FLOOR_WATTS by {
                    if k < acc.len() {
                        assert(pushed[k] == acc[k]);
                    }
                }
                lemma_shared_update_floor(vs.drop_first(), offer, pushed);
                assert(shared_update(vs, offer, acc) == shared_update(
                    vs.drop_first(),
                    offer,
                    pushed,
                ));
            },
        }
    }
}

/// A granular re-evaluation starting from all-zero allocations (as a freshly
/// admitted set of vehicles stands) grants at least one kept vehicle the
/// minimum viable rate: the whole-step budget covers one floored request by
/// construction, so vehicles are never all held at zero power across an
/// evaluation. Together with [`lemma_shared_update_floor`] this is the
/// progress fact behind a run's termination: some active vehicle always
/// moves toward its finite threshold by at least the floor.
pub proof fn lemma_granular_zero_progress(
    vs: Seq<ChargingVehicle>,
    consumed: int,
    budget: int,
    step: int,
    max_per_plug: int,
    acc: Seq<ChargingVehicle>,
)
    requires
        1 <= step <= POWER_LIMIT_WATTS,
        ceil_steps(POWER_FLOOR_WATTS as int, step) <= budget,
        forall|k: int| 0 <= k < vs.len() ==> (#[trigger] vs[k]).allocated_power.watts == 0,
        (exists|k: int|
            0 <= k < acc.len() && (#[trigger] acc[k]).allocated_power.watts
                >= POWER_FLOOR_WATTS) || (acc.len() == 0 && consumed == 0),
    ensures
        granular_update(vs, consumed, budget, step, max_per_plug, acc).0.len() > 0 ==> exists|k: int|
            0 <= k < granular_update(vs, consumed, budget, step, max_per_plug, acc).0.len() && (
            #[trigger] granular_update(
                vs,
                consumed,
                budget,
                step,
                max_per_plug,
                acc,
            ).0[k]).allocated_power.watts >= POWER_FLOOR_WATTS,
    decreases vs.len(),
{
    // the budget covers at least one whole step
    lemma_ceil_steps_bounds(POWER_FLOOR_WATTS as int, step);
    assert(ceil_steps(POWER_FLOOR_WATTS as int, step) >= 1) by (nonlinear_arith)
        requires
            ceil_steps(POWER_FLOOR_WATTS as int, step) * step >= POWER_FLOOR_WATTS,
            POWER_FLOOR_WATTS >= 1,
            1 <= step,
    ;
    vstd::arithmetic::div_mod::lemma_basic_div(step - 1, step);
    assert(ceil_steps(0, step) == 0);
    if vs.len() > 0 {
        let cv = vs[0];
        assert forall|k: int| 0 <= k < vs.drop_first().len() implies (#[trigger] vs.drop_first()[k]).allocated_power.watts
            == 0 by {
            assert(vs.drop_first()[k] == vs[k + 1]);
        }
        let alloc = cv.allocated_power.watts as int;
        let offer = if consumed < budget {
            if alloc + step <= max_per_plug {
                alloc + step
            } else {
                max_per_plug
            }
        } else {
            alloc
        };
        match next_request_spec(cv.vehicle, offer) {
            Option::None => {
                lemma_granular_zero_progress(
                    vs.drop_first(),
                    consumed - ceil_steps(alloc, step),
                    budget,
                    step,
                    max_per_plug,
                    acc,
                );
            },
            Option::Some(w) => {
                // a granted request is at least the floor, and no more than
                // one step above zero or the floor itself
                assert(w >= POWER_FLOOR_WATTS);
                if acc.len() == 0 && consumed == 0 {
                    // offer is at most one step, so the floored request fits
                    // in the whole budget and the vehicle is updated
                    assert(offer <= step);
                    assert(w <= if step >= POWER_FLOOR_WATTS {
                        step as int
                    } else {
                        POWER_FLOOR_WATTS as int
                    });
                    if step >= POWER_FLOOR_WATTS {
                        lemma_ceil_steps_monotone(w, step as int, step);
                        vstd::arithmetic::div_mod::lemma_fundamental_div_mod_converse(
                            2 * step - 1,
                            step,
                            1,
                            step - 1,
                        );
                        assert(ceil_steps(step as int, step) == 1);
                    } else {
                        lemma_ceil_steps_monotone(w, POWER_FLOOR_WATTS as int, step);
                    }
                    let claimed = consumed - ceil_steps(alloc, step) + ceil_steps(w, step);
                    assert(claimed <= budget);
                    let pushed = acc.push(
                        ChargingVehicle {
                            allocated_power: Power { watts: w as i64 },
                            vehicle_id: cv.vehicle_id,
                            vehicle: cv.vehicle,
                        },
                    );
                    assert(pushed[acc.len() as int].allocated_power.watts >= POWER_FLOOR_WATTS);
                    lemma_granular_zero_progress(
                        vs.drop_first(),
                        claimed,
                        budget,
                        step,
                        max_per_plug,
                        pushed,
                    );
                } else {
                    let witness = choose|k: int|
                        0 <= k < acc.len() && (#[trigger] acc[k]).allocated_power.watts
                            >= POWER_FLOOR_WATTS;
                    let claimed = consumed - ceil_steps(alloc, step) + ceil_steps(w, step);
                    if claimed <= budget {
                        let pushed = acc.push(
                            ChargingVehicle {
                                allocated_power: Power { watts: w as i64 },
                                vehicle_id: cv.vehicle_id,
                                vehicle: cv.vehicle,
                            },
                        );
                        assert(pushed[witness].allocated_power.watts >= POWER_FLOOR_WATTS);
                        lemma_granular_zero_progress(
                            vs.drop_first(),
                            claimed,
                            budget,
                            step,
                            max_per_plug,
                            pushed,
                        );
                    } else {
                        let pushed = acc.push(cv);
                        assert(pushed[witness].allocated_power.watts >= POWER_FLOOR_WATTS);
                        lemma_granular_zero_progress(
                            vs.drop_first(),
                            consumed,
                            budget,
                            step,
                            max_per_plug,
                            pushed,
                        );
                    }
                }
            },
        }
    }
}

/// Progress for a freshly loaded granular charger: if every occupant stands
/// at zero allocation, the next policy re-evaluation grants some kept
/// occupant at least the minimum viable rate.
pub proof fn lemma_granular_fresh_progress(
    grid: Power,
    strategy: LoadSharingStrategy,
    vs: Seq<ChargingVehicle>,
)
    requires
        0 <= grid.watts <= POWER_LIMIT_WATTS,
        strategy_wf(strategy),
        strategy is Granular,
        match strategy {
            LoadSharingStrategy::Granular { power_step, .. } => ceil_steps(
                POWER_FLOOR_WATTS as int,
                power_step.watts as int,
            ) <= grid.watts as int / power_step.watts as int,
            _ => true,
        },
        forall|k: int| 0 <= k < vs.len() ==> (#[trigger] vs[k]).allocated_power.watts == 0,
    ensures
        charger_update(grid, strategy, vs).len() > 0 ==> exists|k: int|
            0 <= k < charger_update(grid, strategy, vs).len() && (#[trigger] charger_update(
                grid,
                strategy,
                vs,
            )[k]).allocated_power.watts >= POWER_FLOOR_WATTS,
{
    if let LoadSharingStrategy::Granular { power_step, number_of_plugs: _, max_per_plug } =
        strategy {
        let step = power_step.watts as int;
        lemma_consumed_steps_all_zero(vs, step);
        lemma_granular_zero_progress(
            vs,
            0,
            grid.watts as int / step,
            step,
            max_per_plug.watts as int,
            Seq::empty(),
        );
    }
}

/// The power offered to every active vehicle under the non-granular
/// strategies, given how many plugs were occupied when the tick began.
pub open spec fn shared_offer(grid: int, s: LoadSharingStrategy, occupied: int) -> int {
    match s {
        LoadSharingStrategy::Exclusive => grid,
        LoadSharingStrategy::Paired { number_of_plugs } => {
            if 2 * (number_of_plugs - occupied) > number_of_plugs {
                2 * (grid / number_of_plugs as int)
            } else {
                grid / number_of_plugs as int
            }
        },
        LoadSharingStrategy::Split { number_of_plugs } => grid / number_of_plugs as int,
        LoadSharingStrategy::Granular { .. } => 0,
    }
}

/// One tick of a non-granular strategy: every vehicle is offered the same
/// power; those that decline are dropped, the rest take their request as the
/// new allocation, in place, in order.
pub open spec fn shared_update(
    vs: Seq<ChargingVehicle>,
    offer: int,
    acc: Seq<ChargingVehicle>,
) -> Seq<ChargingVehicle>
    decreases vs.len(),
{
    if vs.len() == 0 {
        acc
    } else {
        let cv = vs[0];
        match next_request_spec(cv.vehicle, offer) {
            Option::None => shared_update(vs.drop_first(), offer, acc),
            Option::Some(w) => shared_update(
                vs.drop_first(),
                offer,
                acc.push(
                    ChargingVehicle {
                        allocated_power: Power { watts: w as i64 },
                        vehicle_id: cv.vehicle_id,
                        vehicle: cv.vehicle,
                    },
                ),
            ),
        }
    }
}

/// One tick of the granular strategy. `consumed` counts the whole budget
/// steps claimed by current allocations. Each vehicle in turn is offered its
/// allocation plus one step (capped per plug) while unclaimed budget remains;
/// a request that would overdraw the step budget leaves the vehicle at its
/// previous allocation, and a vehicle that disconnects returns its rounded-up
/// steps to the pool before the next vehicle is considered.
pub open spec fn granular_update(
    vs: Seq<ChargingVehicle>,
    consumed: int,
    budget: int,
    step: int,
    max_per_plug: int,
    acc: Seq<ChargingVehicle>,
) -> (Seq<ChargingVehicle>, int)
    decreases vs.len(),
{
    if vs.len() == 0 {
        (acc, consumed)
    } else {
        let cv = vs[0];
        let alloc = cv.allocated_power.watts as int;
        let offer = if consumed < budget {
            if alloc + step <= max_per_plug {
                alloc + step
            } else {
                max_per_plug
            }
        } else {
            alloc
        };
        match next_request_spec(cv.vehicle, offer) {
            Option::None => granular_update(
                vs.drop_first(),
                consumed - ceil_steps(alloc, step),
                budget,
                step,
                max_per_plug,
                acc,
            ),
            Option::Some(w) => {
                let claimed = consumed - ceil_steps(alloc, step) + ceil_steps(w, step);
                if claimed <= budget {
                    granular_update(
                        vs.drop_first(),
                        claimed,
                        budget,
                        step,
                        max_per_plug,
                        acc.push(
                            ChargingVehicle {
                                allocated_power: Power { watts: w as i64 },
                                vehicle_id: cv.vehicle_id,
                                vehicle: cv.vehicle,
                            },
                        ),
                    )
                } else {
                    granular_update(
                        vs.drop_first(),
                        consumed,
                        budget,
                        step,
                        max_per_plug,
                        acc.push(cv),
                    )
                }
            },
        }
    }
}

/// A power source with a load-sharing policy and the vehicles currently
/// occupying its plugs.
#[derive(Debug)]
pub struct Charger {
    pub grid_connection: Power,
    pub strategy: LoadSharingStrategy,
    pub currently_charging: Vec<ChargingVehicle>,
}

/// The spec-level image of a charger: the same fields with the vehicle list
/// as a sequence, so that transitions over whole charger states can be
/// written as specification functions.
#[verifier::ext_equal]
pub ghost struct ChargerModel {
    pub grid_connection: Power,
    pub strategy: LoadSharingStrategy,
    pub currently_charging: Seq<ChargingVehicle>,
}

impl View for Charger {
    type V = ChargerModel;

    open spec fn view(&self) -> ChargerModel {
        ChargerModel {
            grid_connection: self.grid_connection,
            strategy: self.strategy,
            currently_charging: self.currently_charging@,
        }
    }
}

pub open spec fn charger_model_wf(m: ChargerModel) -> bool {
    &&& 0 <= m.grid_connection.watts <= POWER_LIMIT_WATTS
    &&& strategy_wf(m.strategy)
    &&& forall|i: int| 0 <= i < m.currently_charging.len() ==> charging_vehicle_wf(
        #[trigger] m.currently_charging[i],
    )
    &&& m.currently_charging.len() <= plugs_of(m.strategy)
    &&& match m.strategy {
        LoadSharingStrategy::Granular { power_step, .. } => {
            &&& consumed_steps(m.currently_charging, power_step.watts as int)
                <= m.grid_connection.watts as int / power_step.watts as int
            &&& ceil_steps(POWER_FLOOR_WATTS as int, power_step.watts as int)
                <= m.grid_connection.watts as int / power_step.watts as int
        },
        _ => true,
    }
}

/// The vehicle list a charger holds after one re-evaluation of its policy.
pub open spec fn charger_update(
    grid: Power,
    strategy: LoadSharingStrategy,
    vs: Seq<ChargingVehicle>,
) -> Seq<ChargingVehicle> {
    match strategy {
        LoadSharingStrategy::Granular { power_step, number_of_plugs, max_per_plug } => {
            let step = power_step.watts as int;
            granular_update(
                vs,
                consumed_steps(vs, step),
                grid.watts as int / step,
                step,
                max_per_plug.watts as int,
                Seq::empty(),
            ).0
        },
        _ => shared_update(
            vs,
            shared_offer(grid.watts as int, strategy, vs.len() as int),
            Seq::empty(),
        ),
    }
}

/// One vehicle after charging at its allocation for `dt` seconds.
pub open spec fn charged_vehicle(cv: ChargingVehicle, dt: int) -> ChargingVehicle {
    ChargingVehicle {
        allocated_power: cv.allocated_power,
        vehicle_id: cv.vehicle_id,
        vehicle: Vehicle {
            spec: cv.vehicle.spec,
            current_charge: Energy {
                watt_seconds: (cv.vehicle.current_charge.watt_seconds + cv.allocated_power.watts
                    * dt) as i128,
            },
            unplug_at: cv.vehicle.unplug_at,
        },
    }
}

/// The vehicle list after every occupant charged for `dt` seconds.
pub open spec fn charged_list(vs: Seq<ChargingVehicle>, dt: int) -> Seq<ChargingVehicle>
    decreases vs.len(),
{
    if vs.len() == 0 {
        Seq::empty()
    } else {
        seq![charged_vehicle(vs[0], dt)] + charged_list(vs.drop_first(), dt)
    }
}

/// Energy one charger dispenses in a step of `dt` seconds: the sum of
/// `allocation * dt` over its occupants.
pub open spec fn step_energy(vs: Seq<ChargingVehicle>, dt: int) -> int
    decreases vs.len(),
{
    if vs.len() == 0 {
        0
    } else {
        vs[0].allocated_power.watts * dt + step_energy(vs.drop_first(), dt)
    }
}

pub proof fn lemma_charged_list_push(vs: Seq<ChargingVehicle>, x: ChargingVehicle, dt: int)
    ensures
        charged_list(vs.push(x), dt) == charged_list(vs, dt).push(charged_vehicle(x, dt)),
    decreases vs.len(),
{
    if vs.len() == 0 {
        assert(vs.push(x).drop_first() =~= vs);
        assert(charged_list(vs.push(x), dt) =~= charged_list(vs, dt).push(
            charged_vehicle(x, dt),
        ));
    } else {
        assert(vs.push(x).drop_first() =~= vs.drop_first().push(x));
        lemma_charged_list_push(vs.drop_first(), x, dt);
        assert(charged_list(vs.push(x), dt) =~= charged_list(vs, dt).push(
            charged_vehicle(x, dt),
        ));
    }
}

pub proof fn lemma_step_energy_push(vs: Seq<ChargingVehicle>, x: ChargingVehicle, dt: int)
    ensures
        step_energy(vs.push(x), dt) == step_energy(vs, dt) + x.allocated_power.watts * dt,
    decreases vs.len(),
{
    if vs.len() == 0 {
        assert(vs.push(x).drop_first() =~= vs);
    } else {
        assert(vs.push(x).drop_first() =~= vs.drop_first().push(x));
        lemma_step_energy_push(vs.drop_first(), x, dt);
    }
}

/// A step's dispensed energy is nonnegative and bounded by the occupant
/// count times the largest single-vehicle step energy.
pub proof fn lemma_step_energy_bounds(vs: Seq<ChargingVehicle>, dt: int)
    requires
        0 <= dt <= STEP_LIMIT_SECONDS,
        forall|i: int| 0 <= i < vs.len() ==> 0 <= (#[trigger] vs[i]).allocated_power.watts
            <= POWER_LIMIT_WATTS,
    ensures
        0 <= step_energy(vs, dt) <= vs.len() * (POWER_LIMIT_WATTS * STEP_LIMIT_SECONDS),
    decreases vs.len(),
{
    if vs.len() > 0 {
        lemma_step_energy_bounds(vs.drop_first(), dt);
        assert(0 <= vs[0].allocated_power.watts * dt <= POWER_LIMIT_WATTS * STEP_LIMIT_SECONDS)
            by (nonlinear_arith)
            requires
                0 <= vs[0].allocated_power.watts <= POWER_LIMIT_WATTS,
                0 <= dt <= STEP_LIMIT_SECONDS,
        ;
        assert((vs.len() - 1) * (POWER_LIMIT_WATTS * STEP_LIMIT_SECONDS) + (POWER_LIMIT_WATTS
            * STEP_LIMIT_SECONDS) == vs.len() * (POWER_LIMIT_WATTS * STEP_LIMIT_SECONDS))
            by (nonlinear_arith);
    }
}

/// Charging changes no allocation: the consumed steps and the total
/// allocation of the charged list match the original's.
pub proof fn lemma_charged_preserves_alloc(vs: Seq<ChargingVehicle>, dt: int, step: int)
    ensures
        charged_list(vs, dt).len() == vs.len(),
        consumed_steps(charged_list(vs, dt), step) == consumed_steps(vs, step),
        total_allocated(charged_list(vs, dt)) == total_allocated(vs),
        forall|i: int| 0 <= i < vs.len() ==> #[trigger] charged_list(vs, dt)[i]
            == charged_vehicle(vs[i], dt),
    decreases vs.len(),
{
    if vs.len() > 0 {
        lemma_charged_preserves_alloc(vs.drop_first(), dt, step);
        assert(charged_list(vs, dt).drop_first() =~= charged_list(vs.drop_first(), dt));
    }
}

impl Charger {
    pub open spec fn wf(self) -> bool {
        charger_model_wf(self@)
    }

    /// Validating constructor: out-of-range grid connections and strategy
    /// parameters are reported, not carried into the simulation.
    pub fn new(grid_connection: Power, strategy: LoadSharingStrategy) -> (r: Result<
        Charger,
        ConfigError,
    >)
        ensures
            r matches Ok(c) ==> c.grid_connection == grid_connection && c.strategy == strategy
                && c.currently_charging@.len() == 0 && c.wf(),
            r is Ok <==> (0 <= grid_connection.watts <= POWER_LIMIT_WATTS && strategy_wf(strategy)
                && match strategy {
                LoadSharingStrategy::Granular { power_step, .. } => ceil_steps(
                    POWER_FLOOR_WATTS as int,
                    power_step.watts as int,
                ) <= grid_connection.watts as int / power_step.watts as int,
                _ => true,
            }),
            r == Err::<Charger, ConfigError>(ConfigError::GridOutOfRange) <==> !(0
                <= grid_connection.watts <= POWER_LIMIT_WATTS),
            r == Err::<Charger, ConfigError>(ConfigError::PlugCountOutOfRange) <==> (0
                <= grid_connection.watts <= POWER_LIMIT_WATTS && match strategy {
                LoadSharingStrategy::Exclusive => false,
                LoadSharingStrategy::Paired { number_of_plugs } => !(1 <= number_of_plugs
                    <= PLUG_LIMIT),
                LoadSharingStrategy::Split { number_of_plugs } => !(1 <= number_of_plugs
                    <= PLUG_LIMIT),
                LoadSharingStrategy::Granular { number_of_plugs, .. } => !(1 <= number_of_plugs
                    <= PLUG_LIMIT),
            }),
            r == Err::<Charger, ConfigError>(ConfigError::PowerStepOutOfRange) <==> (0
                <= grid_connection.watts <= POWER_LIMIT_WATTS && match strategy {
                LoadSharingStrategy::Granular { power_step, number_of_plugs, .. } => 1
                    <= number_of_plugs <= PLUG_LIMIT && !(0 < power_step.watts
                    <= POWER_LIMIT_WATTS),
                _ => false,
            }),
            r == Err::<Charger, ConfigError>(ConfigError::MaxPerPlugOutOfRange) <==> (0
                <= grid_connection.watts <= POWER_LIMIT_WATTS && match strategy {
                LoadSharingStrategy::Granular { power_step, number_of_plugs, max_per_plug } => 1
                    <= number_of_plugs <= PLUG_LIMIT && 0 < power_step.watts <= POWER_LIMIT_WATTS
                    && !(0 <= max_per_plug.watts <= POWER_LIMIT_WATTS),
                _ => false,
            }),
            r == Err::<Charger, ConfigError>(ConfigError::GranularBudgetTooSmall) <==> (0
                <= grid_connection.watts <= POWER_LIMIT_WATTS && strategy_wf(strategy)
                && match strategy {
                LoadSharingStrategy::Granular { power_step, .. } => !(ceil_steps(
                    POWER_FLOOR_WATTS as int,
                    power_step.watts as int,
                ) <= grid_connection.watts as int / power_step.watts as int),
                _ => false,
            }),
    {
        if grid_connection.watts < 0 || grid_connection.watts > POWER_LIMIT_WATTS {
            return Err(ConfigError::GridOutOfRange);
        }
        match strategy {
            LoadSharingStrategy::Exclusive => {},
            LoadSharingStrategy::Paired { number_of_plugs } => {
                if number_of_plugs < 1 || number_of_plugs > PLUG_LIMIT {
                    return Err(ConfigError::PlugCountOutOfRange);
                }
            },
            LoadSharingStrategy::Split { number_of_plugs } => {
                if number_of_plugs < 1 || number_of_plugs > PLUG_LIMIT {
                    return Err(ConfigError::PlugCountOutOfRange);
                }
            },
            LoadSharingStrategy::Granular { power_step, number_of_plugs, max_per_plug } => {
                if number_of_plugs < 1 || number_of_plugs > PLUG_LIMIT {
                    return Err(ConfigError::PlugCountOutOfRange);
                }
                if power_step.watts <= 0 || power_step.watts > POWER_LIMIT_WATTS {
                    return Err(ConfigError::PowerStepOutOfRange);
                }
                if max_per_plug.watts < 0 || max_per_plug.watts > POWER_LIMIT_WATTS {
                    return Err(ConfigError::MaxPerPlugOutOfRange);
                }
                // the whole-step budget must cover at least one floored
                // request, or a vehicle could sit at zero allocation forever
                let floor_steps: u64 = ((POWER_FLOOR_WATTS + power_step.watts - 1) as u64) / (
                power_step.watts as u64);
                let budget: u64 = (grid_connection.watts as u64) / (power_step.watts as u64);
                if floor_steps > budget {
                    return Err(ConfigError::GranularBudgetTooSmall);
                }
            },
        }
        Ok(Charger { grid_connection, strategy, currently_charging: Vec::new() })
    }

    /// Number of plugs the strategy exposes.
    pub fn num_plugs(&self) -> (r: u32)
        ensures
            r as int == plugs_of(self.strategy),
    {
        match self.strategy {
            LoadSharingStrategy::Exclusive => 1,
            LoadSharingStrategy::Paired { number_of_plugs } => number_of_plugs,
            LoadSharingStrategy::Split { number_of_plugs } => number_of_plugs,
            LoadSharingStrategy::Granular { number_of_plugs, .. } => number_of_plugs,
        }
    }

    pub fn has_free_plug(&self) -> (r: bool)
        requires
            self.wf(),
        ensures
            r == (self.currently_charging@.len() < plugs_of(self.strategy)),
    {
        let plugs = self.num_plugs();
        self.currently_charging.len() < plugs as usize
    }

    /// Plugs a waiting vehicle into a free slot with no power allocated yet;
    /// its first allocation comes from the next policy evaluation.
    pub fn add_vehicle(&mut self, vehicle: Vehicle, id: usize)
        requires
            old(self).wf(),
            vehicle.wf(),
            old(self).currently_charging@.len() < plugs_of(old(self).strategy),
        ensures
            final(self).grid_connection == old(self).grid_connection,
            final(self).strategy == old(self).strategy,
            final(self).currently_charging@ == old(self).currently_charging@.push(
                ChargingVehicle { allocated_power: Power { watts: 0 }, vehicle_id: id, vehicle },
            ),
            final(self).wf(),
    {
        proof {
            if let LoadSharingStrategy::Granular { power_step, .. } = self.strategy {
                let step = power_step.watts as int;
                lemma_consumed_steps_push(
                    self.currently_charging@,
                    ChargingVehicle { allocated_power: Power { watts: 0 }, vehicle_id: id, vehicle },
                    step,
                );
                vstd::arithmetic::div_mod::lemma_basic_div(step - 1, step);
                assert(ceil_steps(0, step) == 0);
            }
        }
        self.currently_charging.push(
            ChargingVehicle { allocated_power: Power { watts: 0 }, vehicle_id: id, vehicle },
        );
    }

    /// Sum of the power currently allocated across this charger's plugs.
    pub fn total_allocated_power(&self) -> (r: Power)
        requires
            self.wf(),
        ensures
            r.watts == total_allocated(self.currently_charging@),
            0 <= r.watts <= plugs_of(self.strategy) * POWER_LIMIT_WATTS,
    {
        let ghost vs = self.currently_charging@;
        let n = self.currently_charging.len();
        let mut acc: i64 = 0;
        let mut i: usize = 0;
        proof {
            assert(vs.skip(0) =~= vs);
        }
        while i < n
            invariant
                self.wf(),
                vs == self.currently_charging@,
                n == vs.len(),
                0 <= i <= n,
                acc + total_allocated(vs.skip(i as int)) == total_allocated(vs),
                0 <= acc <= i * POWER_LIMIT_WATTS,
            decreases n - i,
        {
            proof {
                assert(vs.skip(i as int)[0] == vs[i as int]);
                assert(vs.skip(i as int).drop_first() =~= vs.skip(i + 1));
            }
            acc = acc + self.currently_charging[i].allocated_power.watts;
            i = i + 1;
        }
        proof {
            assert(vs.skip(n as int) =~= Seq::<ChargingVehicle>::empty());
            assert(n as int * POWER_LIMIT_WATTS <= plugs_of(self.strategy) * POWER_LIMIT_WATTS)
                by (nonlinear_arith)
                requires
                    n as int <= plugs_of(self.strategy),
            ;
        }
        Power { watts: acc }
    }

    /// Re-evaluates the load-sharing policy: every occupant is offered power
    /// per the strategy; vehicles that decline are dropped from the active
    /// set, the rest have their allocation updated in place, in stable order.
    pub fn update_power_requests(&mut self)
        requires
            old(self).wf(),
        ensures
            final(self).grid_connection == old(self).grid_connection,
            final(self).strategy == old(self).strategy,
            final(self).currently_charging@ == charger_update(
                old(self).grid_connection,
                old(self).strategy,
                old(self).currently_charging@,
            ),
            final(self).currently_charging@.len() <= old(self).currently_charging@.len(),
            final(self).wf(),
            forall|i: int|
                0 <= i < final(self).currently_charging@.len()
                    ==> (#[trigger] final(self).currently_charging@[i]).vehicle.current_charge.watt_seconds
                    < final(self).currently_charging@[i].vehicle.unplug_at.watt_seconds,
    {
        let ghost orig = self.currently_charging@;
        let list = self.currently_charging.split_off(0);
        proof {
            assert(list@ =~= orig);
        }
        match self.strategy {
            LoadSharingStrategy::Exclusive => {
                let out = apply_shared_offer(list, self.grid_connection);
                self.currently_charging = out;
            },
            LoadSharingStrategy::Paired { number_of_plugs } => {
                let occupied = list.len() as u32;
                let per = self.grid_connection.divided_among(number_of_plugs);
                let offer = if 2 * (number_of_plugs - occupied) > number_of_plugs {
                    per.plus(per)
                } else {
                    per
                };
                let out = apply_shared_offer(list, offer);
                self.currently_charging = out;
            },
            LoadSharingStrategy::Split { number_of_plugs } => {
                let offer = self.grid_connection.divided_among(number_of_plugs);
                let out = apply_shared_offer(list, offer);
                self.currently_charging = out;
            },
            LoadSharingStrategy::Granular { power_step, number_of_plugs: _, max_per_plug } => {
                let out = apply_granular(list, self.grid_connection, power_step, max_per_plug);
                self.currently_charging = out;
            },
        }
    }

    /// Advances every occupant by `dt` seconds at its current allocation and
    /// returns the energy dispensed this step.
    pub fn charge_vehicles(&mut self, dt: u64) -> (r: Energy)
        requires
            old(self).wf(),
            dt <= STEP_LIMIT_SECONDS,
            forall|i: int|
                0 <= i < old(self).currently_charging@.len()
                    ==> (#[trigger] old(self).currently_charging@[i]).vehicle.current_charge.watt_seconds
                    < old(self).currently_charging@[i].vehicle.unplug_at.watt_seconds,
        ensures
            final(self).grid_connection == old(self).grid_connection,
            final(self).strategy == old(self).strategy,
            final(self).currently_charging@ == charged_list(
                old(self).currently_charging@,
                dt as int,
            ),
            r.watt_seconds == step_energy(old(self).currently_charging@, dt as int),
            final(self).wf(),
    {
        let ghost orig = self.currently_charging@;
        let ghost dt_i = dt as int;
        let ghost step_i: int = match self.strategy {
            LoadSharingStrategy::Granular { power_step, .. } => power_step.watts as int,
            _ => 1,
        };
        let mut input = self.currently_charging.split_off(0);
        let mut out: Vec<ChargingVehicle> = Vec::new();
        let mut total = Energy::zero();
        proof {
            assert(input@ =~= orig);
            assert(out@ =~= charged_list(orig.take(0), dt_i));
            assert(orig.skip(0) =~= orig);
        }
        while input.len() > 0
            invariant
                dt_i == dt as int,
                dt <= STEP_LIMIT_SECONDS,
                orig.len() <= PLUG_LIMIT,
                out@.len() + input@.len() == orig.len(),
                input@ == orig.skip(out@.len() as int),
                forall|k: int| 0 <= k < orig.len() ==> charging_vehicle_wf(#[trigger] orig[k]),
                forall|k: int| 0 <= k < orig.len() ==> (#[trigger] orig[k]).vehicle.current_charge.watt_seconds
                    < orig[k].vehicle.unplug_at.watt_seconds,
                out@ == charged_list(orig.take(out@.len() as int), dt_i),
                forall|k: int| 0 <= k < out@.len() ==> charging_vehicle_wf(#[trigger] out@[k]),
                total.watt_seconds == step_energy(orig.take(out@.len() as int), dt_i),
                0 <= total.watt_seconds <= out@.len() * (POWER_LIMIT_WATTS * STEP_LIMIT_SECONDS),
            decreases input.len(),
        {
            let ghost done = out@.len() as int;
            let ghost prev = input@;
            let cv = input.remove(0);
            proof {
                assert(cv == orig[done]);
                assert(prev.drop_first() =~= input@);
                assert(input@ =~= orig.skip(done + 1));
                assert(0 <= cv.allocated_power.watts * dt_i <= POWER_LIMIT_WATTS
                    * STEP_LIMIT_SECONDS) by (nonlinear_arith)
                    requires
                        0 <= cv.allocated_power.watts <= POWER_LIMIT_WATTS,
                        0 <= dt_i <= STEP_LIMIT_SECONDS,
                ;
            }
            let allocated_power = cv.allocated_power;
            let vehicle_id = cv.vehicle_id;
            let mut vehicle = cv.vehicle;
            let added = match vehicle.charge(allocated_power, dt) {
                Ok(e) => e,
                Err(_) => unreached(),
            };
            out.push(ChargingVehicle { allocated_power, vehicle_id, vehicle });
            proof {
                assert(i128::MIN <= total.watt_seconds + added.watt_seconds <= i128::MAX)
                    by (nonlinear_arith)
                    requires
                        0 <= total.watt_seconds <= done * (POWER_LIMIT_WATTS * STEP_LIMIT_SECONDS),
                        0 <= added.watt_seconds <= POWER_LIMIT_WATTS * STEP_LIMIT_SECONDS,
                        0 <= done <= PLUG_LIMIT,
                ;
            }
            total = total.plus(added);
            proof {
                assert(orig.take(done + 1) =~= orig.take(done).push(orig[done]));
                lemma_charged_list_push(orig.take(done), orig[done], dt_i);
                lemma_step_energy_push(orig.take(done), orig[done], dt_i);
                assert(out@[out@.len() - 1] == charged_vehicle(orig[done], dt_i));
                assert(out@ =~= charged_list(orig.take(done + 1), dt_i));
                assert(done * (POWER_LIMIT_WATTS * STEP_LIMIT_SECONDS) + (POWER_LIMIT_WATTS
                    * STEP_LIMIT_SECONDS) == (done + 1) * (POWER_LIMIT_WATTS * STEP_LIMIT_SECONDS))
                    by (nonlinear_arith);
            }
        }
        proof {
            assert(orig.take(out@.len() as int) =~= orig);
        }
        self.currently_charging = out;
        proof {
            lemma_charged_preserves_alloc(orig, dt_i, step_i);
        }
        total
    }
}

/// Applies one shared offer to every occupant in order: those that decline
/// are dropped, the rest take their request as the new allocation.
fn apply_shared_offer(input: Vec<ChargingVehicle>, offer: Power) -> (out: Vec<ChargingVehicle>)
    requires
        forall|i: int| 0 <= i < input@.len() ==> charging_vehicle_wf(#[trigger] input@[i]),
    ensures
        out@ == shared_update(input@, offer.watts as int, Seq::empty()),
        out@.len() <= input@.len(),
        forall|i: int| 0 <= i < out@.len() ==> charging_vehicle_wf(#[trigger] out@[i]),
        forall|i: int| 0 <= i < out@.len() ==> (#[trigger] out@[i]).vehicle.current_charge.watt_seconds
            < out@[i].vehicle.unplug_at.watt_seconds,
        forall|i: int| 0 <= i < out@.len() ==> POWER_FLOOR_WATTS <= (#[trigger] out@[i]).allocated_power.watts,
{
    let ghost orig = input@;
    let ghost offer_i = offer.watts as int;
    let mut input = input;
    let mut out: Vec<ChargingVehicle> = Vec::new();
    proof {
        assert(out@ =~= Seq::<ChargingVehicle>::empty());
    }
    while input.len() > 0
        invariant
            offer_i == offer.watts as int,
            forall|i: int| 0 <= i < input@.len() ==> charging_vehicle_wf(#[trigger] input@[i]),
            shared_update(orig, offer_i, Seq::empty()) == shared_update(input@, offer_i, out@),
            out@.len() + input@.len() <= orig.len(),
            forall|i: int| 0 <= i < out@.len() ==> charging_vehicle_wf(#[trigger] out@[i]),
            forall|i: int| 0 <= i < out@.len() ==> (#[trigger] out@[i]).vehicle.current_charge.watt_seconds
                < out@[i].vehicle.unplug_at.watt_seconds,
            forall|i: int| 0 <= i < out@.len() ==> POWER_FLOOR_WATTS <= (#[trigger] out@[i]).allocated_power.watts,
        decreases input.len(),
    {
        let ghost prev = input@;
        let cv = input.remove(0);
        proof {
            assert(prev.drop_first() =~= input@);
            assert(cv == prev[0]);
        }
        match cv.vehicle.next_power_request(offer) {
            Option::None => {},
            Option::Some(p) => {
                out.push(
                    ChargingVehicle {
                        allocated_power: p,
                        vehicle_id: cv.vehicle_id,
                        vehicle: cv.vehicle,
                    },
                );
            },
        }
    }
    proof {
        assert(input@ =~= Seq::<ChargingVehicle>::empty());
    }
    out
}

/// Rounds an allocation up to whole power steps.
fn ceil_div_watts(alloc: i64, step: i64) -> (r: u64)
    requires
        0 <= alloc <= POWER_LIMIT_WATTS,
        1 <= step <= POWER_LIMIT_WATTS,
    ensures
        r as int == ceil_steps(alloc as int, step as int),
        r <= POWER_LIMIT_WATTS + 1,
{
    proof {
        lemma_ceil_steps_bounds(alloc as int, step as int);
    }
    ((alloc + step - 1) as u64) / (step as u64)
}

/// Applies one granular tick: hands out whole budget steps one at a time,
/// capped per plug, never overdrawing the step budget, and returns a
/// disconnecting vehicle's rounded-up steps to the pool.
fn apply_granular(
    input: Vec<ChargingVehicle>,
    grid: Power,
    power_step: Power,
    max_per_plug: Power,
) -> (out: Vec<ChargingVehicle>)
    requires
        0 <= grid.watts <= POWER_LIMIT_WATTS,
        0 < power_step.watts <= POWER_LIMIT_WATTS,
        0 <= max_per_plug.watts <= POWER_LIMIT_WATTS,
        input@.len() <= PLUG_LIMIT,
        forall|i: int| 0 <= i < input@.len() ==> charging_vehicle_wf(#[trigger] input@[i]),
        consumed_steps(input@, power_step.watts as int) <= grid.watts as int
            / power_step.watts as int,
    ensures
        out@ == granular_update(
            input@,
            consumed_steps(input@, power_step.watts as int),
            grid.watts as int / power_step.watts as int,
            power_step.watts as int,
            max_per_plug.watts as int,
            Seq::empty(),
        ).0,
        out@.len() <= input@.len(),
        forall|i: int| 0 <= i < out@.len() ==> charging_vehicle_wf(#[trigger] out@[i]),
        forall|i: int| 0 <= i < out@.len() ==> (#[trigger] out@[i]).vehicle.current_charge.watt_seconds
            < out@[i].vehicle.unplug_at.watt_seconds,
        consumed_steps(out@, power_step.watts as int) <= grid.watts as int
            / power_step.watts as int,
{
    let ghost orig = input@;
    let ghost step_i = power_step.watts as int;
    let ghost budget_i = grid.watts as int / power_step.watts as int;
    let ghost maxp_i = max_per_plug.watts as int;
    let step_w = power_step.watts;
    let budget: u64 = (grid.watts as u64) / (step_w as u64);
    // steps claimed by the current allocations
    let mut consumed: u64 = 0;
    let mut i: usize = 0;
    let n = input.len();
    proof {
        assert(input@.skip(0) =~= input@);
        lemma_div_of0(step_i);
        lemma_div_is_ordered(0, grid.watts as int, step_i);
        vstd::arithmetic::div_mod::lemma_div_nonincreasing(grid.watts as int, step_i);
    }
    while i < n
        invariant
            n == input@.len(),
            n <= PLUG_LIMIT,
            0 <= i <= n,
            1 <= step_w <= POWER_LIMIT_WATTS,
            step_i == step_w as int,
            forall|k: int| 0 <= k < input@.len() ==> charging_vehicle_wf(#[trigger] input@[k]),
            consumed + consumed_steps(input@.skip(i as int), step_i) == consumed_steps(
                input@,
                step_i,
            ),
            consumed_steps(input@, step_i) <= budget as int,
            budget <= POWER_LIMIT_WATTS,
            consumed <= budget,
        decreases n - i,
    {
        proof {
            assert(input@.skip(i as int)[0] == input@[i as int]);
            assert(input@.skip(i as int).drop_first() =~= input@.skip(i + 1));
            assert forall|k: int| 0 <= k < input@.skip(i + 1).len() implies 0 <= (
            #[trigger] input@.skip(i + 1)[k]).allocated_power.watts by {
                assert(input@.skip(i + 1)[k] == input@[k + i + 1]);
            }
            lemma_consumed_steps_nonneg(input@.skip(i + 1), step_i);
        }
        let c = ceil_div_watts(input[i].allocated_power.watts, step_w);
        consumed = consumed + c;
        i = i + 1;
    }
    proof {
        assert(input@.skip(n as int) =~= Seq::<ChargingVehicle>::empty());
    }
    let mut input = input;
    let mut out: Vec<ChargingVehicle> = Vec::new();
    proof {
        assert(out@ =~= Seq::<ChargingVehicle>::empty());
        lemma_consumed_steps_nonneg(input@, step_i);
    }
    while input.len() > 0
        invariant
            1 <= step_w <= POWER_LIMIT_WATTS,
            step_i == step_w as int,
            budget_i == budget as int,
            budget <= POWER_LIMIT_WATTS,
            maxp_i == max_per_plug.watts as int,
            0 <= max_per_plug.watts <= POWER_LIMIT_WATTS,
            forall|k: int| 0 <= k < input@.len() ==> charging_vehicle_wf(#[trigger] input@[k]),
            granular_update(orig, consumed_steps(orig, step_i), budget_i, step_i, maxp_i, Seq::empty())
                == granular_update(input@, consumed as int, budget_i, step_i, maxp_i, out@),
            consumed as int == consumed_steps(out@, step_i) + consumed_steps(input@, step_i),
            consumed <= budget,
            out@.len() + input@.len() <= orig.len(),
            forall|k: int| 0 <= k < out@.len() ==> charging_vehicle_wf(#[trigger] out@[k]),
            forall|k: int| 0 <= k < out@.len() ==> (#[trigger] out@[k]).vehicle.current_charge.watt_seconds
                < out@[k].vehicle.unplug_at.watt_seconds,
        decreases input.len(),
    {
        let ghost prev = input@;
        let cv = input.remove(0);
        proof {
            assert(prev.drop_first() =~= input@);
            assert(cv == prev[0]);
            lemma_consumed_steps_nonneg(input@, step_i);
            lemma_consumed_steps_nonneg(out@, step_i);
            lemma_ceil_steps_bounds(cv.allocated_power.watts as int, step_i);
        }
        let alloc = cv.allocated_power.watts;
        let a_steps = ceil_div_watts(alloc, step_w);
        let offer_w: i64 = if consumed < budget {
            let bump = alloc + step_w;
            if bump <= max_per_plug.watts {
                bump
            } else {
                max_per_plug.watts
            }
        } else {
            alloc
        };
        match cv.vehicle.next_power_request(Power { watts: offer_w }) {
            Option::None => {
                consumed = consumed - a_steps;
            },
            Option::Some(p) => {
                let w_steps = ceil_div_watts(p.watts, step_w);
                let claimed = consumed - a_steps + w_steps;
                if claimed <= budget {
                    consumed = claimed;
                    let ghost out_before = out@;
                    out.push(
                        ChargingVehicle {
                            allocated_power: p,
                            vehicle_id: cv.vehicle_id,
                            vehicle: cv.vehicle,
                        },
                    );
                    proof {
                        lemma_consumed_steps_push(out_before, out@[out@.len() - 1], step_i);
                    }
                } else {
                    let ghost out_before = out@;
                    out.push(cv);
                    proof {
                        lemma_consumed_steps_push(out_before, cv, step_i);
                    }
                }
            },
        }
    }
    proof {
        assert(input@ =~= Seq::<ChargingVehicle>::empty());
    }
    out
}

} // verus!
