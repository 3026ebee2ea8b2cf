//! The simulation orchestrator: a FIFO queue of waiting vehicles, a list of
//! chargers, and a fixed step duration. Each step admits waiting vehicles
//! onto free plugs, re-evaluates every charger's allocation policy, charges
//! every active vehicle, and emits one immutable frame.
//!
//! The whole step transition is mirrored by the specification function
//! [`spec_step`], so a simulation's frame trace is a mathematical function of
//! its starting state: two runs from identical states produce identical
//! traces.

use std::collections::VecDeque;

use vstd::pervasive::unreached;
use vstd::prelude::*;

use crate::charger::charged_list;
use crate::charger::charger_model_wf;
use crate::charger::charger_update;
use crate::charger::plugs_of;
use crate::charger::step_energy;
use crate::charger::Charger;
use crate::charger::ChargerModel;
use crate::charger::ChargingVehicle;
use crate::charger::PLUG_LIMIT;
use crate::curve::ConfigError;
use crate::quantities::Energy;
use crate::quantities::Percentage;
use crate::quantities::Power;
use crate::quantities::POWER_LIMIT_WATTS;
use crate::quantities::STEP_LIMIT_SECONDS;
use crate::vehicle::soc_spec;
use crate::vehicle::Vehicle;

verus! {

broadcast use vstd::std_specs::vecdeque::group_vec_dequeue_axioms;

/// Most chargers one simulation can hold.
pub const CHARGER_LIMIT: usize = 100_000;

/// One charger's share of a frame: its allocated and unused power.
#[derive(Clone, Copy, Debug, PartialEq, Eq, Structural)]
pub struct ChargerFrame {
    pub charger_id: usize,
    pub active_power: Power,
    pub unused_power: Power,
}

/// One vehicle's share of a frame, keyed by the identifier assigned at
/// admission time.
#[derive(Clone, Copy, Debug, PartialEq, Eq, Structural)]
pub struct VehicleChargeFrame {
    pub soc: Percentage,
    pub allocated_power: Power,
    pub vehicle_id: usize,
}

/// An immutable snapshot emitted once per step.
#[derive(Clone, Debug, PartialEq)]
pub struct SimFrame {
    pub energy_dispensed: Energy,
    pub chargers: Vec<ChargerFrame>,
    pub vehicles_charging: Vec<VehicleChargeFrame>,
    pub plugs_unused: u32,
    pub duration_seconds: u64,
}

/// The spec-level image of a frame.
#[verifier::ext_equal]
pub ghost struct FrameModel {
    pub energy_dispensed: int,
    pub chargers: Seq<ChargerFrame>,
    pub vehicles_charging: Seq<VehicleChargeFrame>,
    pub plugs_unused: int,
    pub duration_seconds: int,
}

impl View for SimFrame {
    type V = FrameModel;

    open spec fn view(&self) -> FrameModel {
        FrameModel {
            energy_dispensed: self.energy_dispensed.watt_seconds as int,
            chargers: self.chargers@,
            vehicles_charging: self.vehicles_charging@,
            plugs_unused: self.plugs_unused as int,
            duration_seconds: self.duration_seconds as int,
        }
    }
}

/// The spec-level image of a whole simulation.
#[verifier::ext_equal]
pub ghost struct SimModel {
    pub vehicles: Seq<Vehicle>,
    pub current_id: int,
    pub chargers: Seq<ChargerModel>,
    pub simulation_step_seconds: int,
    pub simulation_time_seconds: int,
}

/// The simulation orchestrator.
#[derive(Debug)]
pub struct Sim {
    /// Vehicles waiting for a plug, in first-come-first-served order.
    pub vehicles: VecDeque<Vehicle>,
    /// Next identifier to hand to an admitted vehicle.
    pub current_id: usize,
    pub chargers: Vec<Charger>,
    /// Length of simulated time each step covers.
    pub simulation_step_seconds: u64,
    /// Total simulated time so far.
    pub simulation_time_seconds: u64,
}

pub open spec fn models_of(cs: Seq<Charger>) -> Seq<ChargerModel> {
    Seq::new(cs.len(), |i: int| cs[i]@)
}

pub open spec fn frames_of(fs: Seq<SimFrame>) -> Seq<FrameModel> {
    Seq::new(fs.len(), |i: int| fs[i]@)
}

impl View for Sim {
    type V = SimModel;

    open spec fn view(&self) -> SimModel {
        SimModel {
            vehicles: self.vehicles@,
            current_id: self.current_id as int,
            chargers: models_of(self.chargers@),
            simulation_step_seconds: self.simulation_step_seconds as int,
            simulation_time_seconds: self.simulation_time_seconds as int,
        }
    }
}

pub open spec fn sim_model_wf(m: SimModel) -> bool {
    &&& forall|i: int| 0 <= i < m.vehicles.len() ==> (#[trigger] m.vehicles[i]).wf()
    &&& forall|i: int| 0 <= i < m.chargers.len() ==> charger_model_wf(#[trigger] m.chargers[i])
    &&& m.chargers.len() <= CHARGER_LIMIT
    &&& 1 <= m.simulation_step_seconds <= STEP_LIMIT_SECONDS
    &&& 0 <= m.current_id && m.current_id + m.vehicles.len() <= usize::MAX
    &&& 0 <= m.simulation_time_seconds <= u64::MAX
}

/// The simulation may run: it has at least one charger and at least one
/// vehicle.
pub open spec fn sim_valid(m: SimModel) -> bool {
    m.chargers.len() > 0 && m.vehicles.len() > 0
}

/// The simulation has finished: the queue is empty and every charger is idle.
pub open spec fn sim_done(m: SimModel) -> bool {
    m.vehicles.len() == 0 && forall|i: int|
        0 <= i < m.chargers.len() ==> (#[trigger] m.chargers[i]).currently_charging.len() == 0
}

/// Admission onto one charger: while it has a free plug and the queue is
/// non-empty, the queue's head is plugged in and receives the next identifier.
pub open spec fn admit_into(c: ChargerModel, queue: Seq<Vehicle>, id: int) -> (
    ChargerModel,
    Seq<Vehicle>,
    int,
)
    decreases queue.len(),
{
    if queue.len() == 0 || c.currently_charging.len() >= plugs_of(c.strategy) {
        (c, queue, id)
    } else {
        admit_into(
            ChargerModel {
                grid_connection: c.grid_connection,
                strategy: c.strategy,
                currently_charging: c.currently_charging.push(
                    ChargingVehicle {
                        allocated_power: Power { watts: 0 },
                        vehicle_id: id as usize,
                        vehicle: queue[0],
                    },
                ),
            },
            queue.drop_first(),
            id + 1,
        )
    }
}

/// Admission across all chargers, in order.
pub open spec fn admit_all(cs: Seq<ChargerModel>, queue: Seq<Vehicle>, id: int) -> (
    Seq<ChargerModel>,
    Seq<Vehicle>,
    int,
)
    decreases cs.len(),
{
    if cs.len() == 0 {
        (Seq::empty(), queue, id)
    } else {
        let head = admit_into(cs[0], queue, id);
        let rest = admit_all(cs.drop_first(), head.1, head.2);
        (seq![head.0] + rest.0, rest.1, rest.2)
    }
}

/// A charger after one policy re-evaluation.
pub open spec fn updated_charger(c: ChargerModel) -> ChargerModel {
    ChargerModel {
        grid_connection: c.grid_connection,
        strategy: c.strategy,
        currently_charging: charger_update(c.grid_connection, c.strategy, c.currently_charging),
    }
}

/// A charger after its occupants charged for `dt` seconds.
pub open spec fn charged_charger(c: ChargerModel, dt: int) -> ChargerModel {
    ChargerModel {
        grid_connection: c.grid_connection,
        strategy: c.strategy,
        currently_charging: charged_list(c.currently_charging, dt),
    }
}

pub open spec fn map_updated(cs: Seq<ChargerModel>) -> Seq<ChargerModel>
    decreases cs.len(),
{
    if cs.len() == 0 {
        Seq::empty()
    } else {
        seq![updated_charger(cs[0])] + map_updated(cs.drop_first())
    }
}

pub open spec fn map_charged(cs: Seq<ChargerModel>, dt: int) -> Seq<ChargerModel>
    decreases cs.len(),
{
    if cs.len() == 0 {
        Seq::empty()
    } else {
        seq![charged_charger(cs[0], dt)] + map_charged(cs.drop_first(), dt)
    }
}

/// Energy all chargers dispense in one step of `dt` seconds.
pub open spec fn chargers_energy(cs: Seq<ChargerModel>, dt: int) -> int
    decreases cs.len(),
{
    if cs.len() == 0 {
        0
    } else {
        step_energy(cs[0].currently_charging, dt) + chargers_energy(cs.drop_first(), dt)
    }
}

/// One occupant's appearance in a frame.
pub open spec fn summary_of(cv: ChargingVehicle) -> VehicleChargeFrame {
    VehicleChargeFrame {
        soc: Percentage { hundredths: soc_spec(cv.vehicle) as u16 },
        allocated_power: cv.allocated_power,
        vehicle_id: cv.vehicle_id,
    }
}

pub open spec fn summaries(vs: Seq<ChargingVehicle>) -> Seq<VehicleChargeFrame> {
    Seq::new(vs.len(), |i: int| summary_of(vs[i]))
}

/// Frame entries for every active vehicle, charger by charger.
pub open spec fn all_summaries(cs: Seq<ChargerModel>) -> Seq<VehicleChargeFrame>
    decreases cs.len(),
{
    if cs.len() == 0 {
        Seq::empty()
    } else {
        summaries(cs[0].currently_charging) + all_summaries(cs.drop_first())
    }
}

/// Count of plugs without an occupant, over all chargers.
pub open spec fn unused_plugs(cs: Seq<ChargerModel>) -> int
    decreases cs.len(),
{
    if cs.len() == 0 {
        0
    } else {
        (plugs_of(cs[0].strategy) - cs[0].currently_charging.len()) + unused_plugs(
            cs.drop_first(),
        )
    }
}

/// Per-charger frame entries: allocated power against the grid connection.
pub open spec fn charger_frames(cs: Seq<ChargerModel>) -> Seq<ChargerFrame> {
    Seq::new(
        cs.len(),
        |i: int|
            ChargerFrame {
                charger_id: i as usize,
                active_power: Power {
                    watts: crate::charger::total_allocated(cs[i].currently_charging) as i64,
                },
                unused_power: Power {
                    watts: (cs[i].grid_connection.watts - crate::charger::total_allocated(
                        cs[i].currently_charging,
                    )) as i64,
                },
            },
    )
}

/// Addition on the elapsed-time counter, saturating at the largest
/// representable count of seconds.
pub open spec fn sat_add_u64(a: int, b: int) -> int {
    if a + b <= u64::MAX {
        a + b
    } else {
        u64::MAX as int
    }
}

/// One simulation step as a mathematical function of the state: admission,
/// re-allocation, charging, and the emitted frame.
pub open spec fn spec_step(m: SimModel) -> (SimModel, FrameModel) {
    let admitted = admit_all(m.chargers, m.vehicles, m.current_id);
    let cs1 = admitted.0;
    let cs2 = map_updated(cs1);
    let cs3 = map_charged(cs2, m.simulation_step_seconds);
    let energy = chargers_energy(cs2, m.simulation_step_seconds);
    let elapsed = sat_add_u64(m.simulation_time_seconds, m.simulation_step_seconds);
    (
        SimModel {
            vehicles: admitted.1,
            current_id: admitted.2,
            chargers: cs3,
            simulation_step_seconds: m.simulation_step_seconds,
            simulation_time_seconds: elapsed,
        },
        FrameModel {
            energy_dispensed: energy,
            chargers: charger_frames(cs3),
            vehicles_charging: all_summaries(cs3),
            plugs_unused: unused_plugs(cs3),
            duration_seconds: elapsed,
        },
    )
}

/// The state after stepping until done or until the fuel runs out.
pub open spec fn run_state(m: SimModel, fuel: nat) -> SimModel
    decreases fuel,
{
    if fuel == 0 || sim_done(m) {
        m
    } else {
        run_state(spec_step(m).0, (fuel - 1) as nat)
    }
}

/// The frames emitted by stepping until done or until the fuel runs out.
pub open spec fn run_trace(m: SimModel, fuel: nat) -> Seq<FrameModel>
    decreases fuel,
{
    if fuel == 0 || sim_done(m) {
        Seq::empty()
    } else {
        seq![spec_step(m).1] + run_trace(spec_step(m).0, (fuel - 1) as nat)
    }
}

/// Every occupant of the charger is still below its unplug threshold, as is
/// the case right after a policy re-evaluation.
pub open spec fn all_below_threshold(m: ChargerModel) -> bool {
    forall|k: int| 0 <= k < m.currently_charging.len() ==> (#[trigger] m.currently_charging[k]).vehicle.current_charge.watt_seconds
        < m.currently_charging[k].vehicle.unplug_at.watt_seconds
}




pub proof fn lemma_all_summaries_push(cs: Seq<ChargerModel>, c: ChargerModel)
    ensures
        all_summaries(cs.push(c)) == all_summaries(cs) + summaries(c.currently_charging),
    decreases cs.len(),
{
    if cs.len() == 0 {
        assert(cs.push(c).drop_first() =~= cs);
        assert(all_summaries(cs.push(c)) =~= all_summaries(cs) + summaries(c.currently_charging));
    } else {
        assert(cs.push(c).drop_first() =~= cs.drop_first().push(c));
        lemma_all_summaries_push(cs.drop_first(), c);
        assert(all_summaries(cs.push(c)) =~= all_summaries(cs) + summaries(c.currently_charging));
    }
}

impl Sim {
    pub open spec fn wf(self) -> bool {
        sim_model_wf(self@)
    }

    /// Validating constructor: the step duration must be positive and within
    /// the limit, and the charger list within the supported count.
    pub fn new(vehicles: VecDeque<Vehicle>, chargers: Vec<Charger>, step_seconds: u64) -> (r:
        Result<Sim, ConfigError>)
        requires
            forall|i: int| 0 <= i < vehicles@.len() ==> (#[trigger] vehicles@[i]).wf(),
            forall|i: int| 0 <= i < chargers@.len() ==> (#[trigger] chargers@[i]).wf(),
        ensures
            r matches Ok(s) ==> s.vehicles@ == vehicles@,
            r matches Ok(s) ==> s.current_id == 0,
            r matches Ok(s) ==> s.chargers@ == chargers@,
            r matches Ok(s) ==> s.simulation_step_seconds == step_seconds,
            r matches Ok(s) ==> s.simulation_time_seconds == 0,
            r matches Ok(s) ==> s.wf(),
            r is Ok <==> (1 <= step_seconds <= STEP_LIMIT_SECONDS && chargers@.len()
                <= CHARGER_LIMIT),
            r == Err::<Sim, ConfigError>(ConfigError::StepDurationOutOfRange) <==> !(1
                <= step_seconds <= STEP_LIMIT_SECONDS),
            r == Err::<Sim, ConfigError>(ConfigError::TooManyChargers) <==> (1 <= step_seconds
                <= STEP_LIMIT_SECONDS && chargers@.len() > CHARGER_LIMIT),
    {
        if step_seconds < 1 || step_seconds > STEP_LIMIT_SECONDS {
            return Err(ConfigError::StepDurationOutOfRange);
        }
        if chargers.len() > CHARGER_LIMIT {
            return Err(ConfigError::TooManyChargers);
        }
        proof {
            assert forall|i: int| 0 <= i < chargers@.len() implies charger_model_wf(
                #[trigger] models_of(chargers@)[i],
            ) by {
                assert(models_of(chargers@)[i] == chargers@[i]@);
            }
            assert(vstd::std_specs::vecdeque::spec_vec_dequeue_len(&vehicles)
                == vehicles@.len());
        }
        Ok(
            Sim {
                vehicles,
                current_id: 0,
                chargers,
                simulation_step_seconds: step_seconds,
                simulation_time_seconds: 0,
            },
        )
    }

    /// The simulation can run only with at least one charger and at least
    /// one vehicle; a degenerate configuration produces no frames.
    pub fn is_valid(&self) -> (r: bool)
        ensures
            r == sim_valid(self@),
    {
        self.chargers.len() > 0 && self.vehicles.len() > 0
    }

    /// Done when the waiting queue is empty and every charger is idle.
    pub fn is_done(&self) -> (r: bool)
        ensures
            r == sim_done(self@),
    {
        if self.vehicles.len() > 0 {
            return false;
        }
        let n = self.chargers.len();
        let mut i: usize = 0;
        while i < n
            invariant
                n == self.chargers@.len(),
                0 <= i <= n,
                forall|k: int| 0 <= k < i ==> (#[trigger] self.chargers@[k]).currently_charging@.len()
                    == 0,
            decreases n - i,
        {
            if self.chargers[i].currently_charging.len() > 0 {
                assert(self@.chargers[i as int].currently_charging.len() > 0);
                return false;
            }
            i = i + 1;
        }
        proof {
            assert forall|k: int| 0 <= k < self@.chargers.len() implies (#[trigger] self@.chargers[k]).currently_charging.len()
                == 0 by {
                assert(self@.chargers[k] == self.chargers@[k]@);
            }
        }
        true
    }

    /// Admission: while any charger has a free plug and the queue is
    /// non-empty, the queue's head takes the plug and gets the next
    /// monotonically increasing identifier. Chargers are visited in order.
    fn admit_vehicles(&mut self)
        requires
            old(self).wf(),
        ensures
            models_of(final(self).chargers@) == admit_all(
                old(self)@.chargers,
                old(self)@.vehicles,
                old(self)@.current_id,
            ).0,
            final(self).vehicles@ == admit_all(
                old(self)@.chargers,
                old(self)@.vehicles,
                old(self)@.current_id,
            ).1,
            final(self).current_id as int == admit_all(
                old(self)@.chargers,
                old(self)@.vehicles,
                old(self)@.current_id,
            ).2,
            final(self).simulation_step_seconds == old(self).simulation_step_seconds,
            final(self).simulation_time_seconds == old(self).simulation_time_seconds,
            final(self).wf(),
    {
        let ghost cs0 = models_of(self.chargers@);
        let ghost q0 = self.vehicles@;
        let ghost id0 = self.current_id as int;
        let ghost step0 = self.simulation_step_seconds;
        let ghost time0 = self.simulation_time_seconds;
        let ghost total_chargers = self.chargers@.len();
        let mut input = self.chargers.split_off(0);
        let mut done: Vec<Charger> = Vec::new();
        proof {
            assert(input@ =~= old(self).chargers@);
            assert(models_of(input@) =~= cs0);
            assert(models_of(done@) =~= Seq::<ChargerModel>::empty());
            assert(models_of(done@) + admit_all(models_of(input@), q0, id0).0 =~= admit_all(
                cs0,
                q0,
                id0,
            ).0);
            assert forall|k: int| 0 <= k < input@.len() implies (#[trigger] input@[k]).wf() by {
                assert(input@[k]@ == cs0[k]);
            }
        }
        while input.len() > 0
            invariant
                admit_all(cs0, q0, id0).0 == models_of(done@) + admit_all(
                    models_of(input@),
                    self.vehicles@,
                    self.current_id as int,
                ).0,
                admit_all(cs0, q0, id0).1 == admit_all(
                    models_of(input@),
                    self.vehicles@,
                    self.current_id as int,
                ).1,
                admit_all(cs0, q0, id0).2 == admit_all(
                    models_of(input@),
                    self.vehicles@,
                    self.current_id as int,
                ).2,
                forall|k: int| 0 <= k < done@.len() ==> (#[trigger] done@[k]).wf(),
                forall|k: int| 0 <= k < input@.len() ==> (#[trigger] input@[k]).wf(),
                forall|k: int| 0 <= k < self.vehicles@.len() ==> (#[trigger] self.vehicles@[k]).wf(),
                self.current_id + self.vehicles@.len() <= usize::MAX,
                done@.len() + input@.len() == total_chargers,
                total_chargers <= CHARGER_LIMIT,
                self.simulation_step_seconds == step0,
                self.simulation_time_seconds == time0,
            decreases input.len(),
        {
            let ghost prev_models = models_of(input@);
            let ghost q_entry = self.vehicles@;
            let ghost id_entry = self.current_id as int;
            let mut c = input.remove(0);
            proof {
                assert(c@ == prev_models[0]);
                assert(models_of(input@) =~= prev_models.drop_first());
            }
            let ghost c_entry = c@;
            while c.has_free_plug() && self.vehicles.len() > 0
                invariant
                    c.wf(),
                    forall|k: int| 0 <= k < self.vehicles@.len() ==> (#[trigger] self.vehicles@[k]).wf(),
                    self.current_id + self.vehicles@.len() <= usize::MAX,
                    admit_into(c_entry, q_entry, id_entry) == admit_into(
                        c@,
                        self.vehicles@,
                        self.current_id as int,
                    ),
                    self.simulation_step_seconds == step0,
                    self.simulation_time_seconds == time0,
                decreases self.vehicles@.len(),
            {
                let ghost c_before = c@;
                let ghost q_before = self.vehicles@;
                let ghost id_before = self.current_id as int;
                let v = match self.vehicles.pop_front() {
                    Option::Some(v) => v,
                    Option::None => unreached(),
                };
                proof {
                    assert(v == q_before[0]);
                    assert(self.vehicles@ =~= q_before.drop_first());
                    assert forall|k: int| 0 <= k < self.vehicles@.len() implies (
                    #[trigger] self.vehicles@[k]).wf() by {
                        assert(self.vehicles@[k] == q_before[k + 1]);
                    }
                }
                c.add_vehicle(v, self.current_id);
                self.current_id = self.current_id + 1;
                proof {
                    assert(c@ =~= (ChargerModel {
                        grid_connection: c_before.grid_connection,
                        strategy: c_before.strategy,
                        currently_charging: c_before.currently_charging.push(
                            ChargingVehicle {
                                allocated_power: Power { watts: 0 },
                                vehicle_id: id_before as usize,
                                vehicle: q_before[0],
                            },
                        ),
                    }));
                    assert(admit_into(c_before, q_before, id_before) == admit_into(
                        c@,
                        self.vehicles@,
                        self.current_id as int,
                    ));
                }
            }
            proof {
                assert(admit_into(c@, self.vehicles@, self.current_id as int) == (
                    c@,
                    self.vehicles@,
                    self.current_id as int,
                ));
            }
            let ghost done_before = done@;
            done.push(c);
            proof {
                assert(models_of(done@) =~= models_of(done_before).push(c@));
                let head = admit_into(prev_models[0], q_entry, id_entry);
                let rest = admit_all(models_of(input@), self.vehicles@, self.current_id as int);
                assert(admit_all(prev_models, q_entry, id_entry).0 == seq![head.0] + rest.0);
                assert(models_of(done_before).push(c@) + rest.0 =~= models_of(done_before) + (seq![
                    head.0,
                ] + rest.0));
            }
        }
        proof {
            assert(models_of(input@) =~= Seq::<ChargerModel>::empty());
            assert(admit_all(models_of(input@), self.vehicles@, self.current_id as int).0 =~= Seq::<
                ChargerModel,
            >::empty());
            assert(models_of(done@) + Seq::<ChargerModel>::empty() =~= models_of(done@));
        }
        self.chargers = done;
        proof {
            assert forall|i: int| 0 <= i < self@.chargers.len() implies charger_model_wf(
                #[trigger] self@.chargers[i],
            ) by {
                assert(self@.chargers[i] == self.chargers@[i]@);
            }
        }
    }

    /// Re-allocation: every charger re-evaluates its policy, dropping
    /// vehicles that signal completion.
    fn update_all(&mut self)
        requires
            old(self).wf(),
        ensures
            models_of(final(self).chargers@) == map_updated(models_of(old(self).chargers@)),
            final(self).vehicles@ == old(self).vehicles@,
            final(self).current_id == old(self).current_id,
            final(self).simulation_step_seconds == old(self).simulation_step_seconds,
            final(self).simulation_time_seconds == old(self).simulation_time_seconds,
            final(self).wf(),
            forall|i: int| 0 <= i < final(self).chargers@.len() ==> all_below_threshold(
                #[trigger] final(self).chargers@[i]@,
            ),
    {
        let ghost cs0 = models_of(self.chargers@);
        let ghost total_chargers = self.chargers@.len();
        let mut input = self.chargers.split_off(0);
        let mut done: Vec<Charger> = Vec::new();
        proof {
            assert(input@ =~= old(self).chargers@);
            assert(models_of(input@) =~= cs0);
            assert(models_of(done@) =~= Seq::<ChargerModel>::empty());
            assert(models_of(done@) + map_updated(models_of(input@)) =~= map_updated(cs0));
            assert forall|k: int| 0 <= k < input@.len() implies (#[trigger] input@[k]).wf() by {
                assert(input@[k]@ == cs0[k]);
            }
        }
        while input.len() > 0
            invariant
                map_updated(cs0) == models_of(done@) + map_updated(models_of(input@)),
                forall|k: int| 0 <= k < done@.len() ==> (#[trigger] done@[k]).wf(),
                forall|k: int| 0 <= k < input@.len() ==> (#[trigger] input@[k]).wf(),
                forall|k: int| 0 <= k < done@.len() ==> all_below_threshold(
                    (#[trigger] done@[k])@,
                ),
                done@.len() + input@.len() == total_chargers,
            decreases input.len(),
        {
            let ghost prev_models = models_of(input@);
            let mut c = input.remove(0);
            proof {
                assert(c@ == prev_models[0]);
                assert(models_of(input@) =~= prev_models.drop_first());
            }
            let ghost c_before = c@;
            c.update_power_requests();
            let ghost done_before = done@;
            done.push(c);
            proof {
                assert(c@ =~= updated_charger(c_before));
                assert(models_of(done@) =~= models_of(done_before).push(c@));
                assert(models_of(done_before).push(updated_charger(prev_models[0])) + map_updated(
                    models_of(input@),
                ) =~= models_of(done_before) + (seq![updated_charger(prev_models[0])] + map_updated(
                    models_of(input@),
                )));
            }
        }
        proof {
            assert(models_of(input@) =~= Seq::<ChargerModel>::empty());
            assert(map_updated(models_of(input@)) =~= Seq::<ChargerModel>::empty());
            assert(models_of(done@) + Seq::<ChargerModel>::empty() =~= models_of(done@));
        }
        self.chargers = done;
        proof {
            assert forall|i: int| 0 <= i < self@.chargers.len() implies charger_model_wf(
                #[trigger] self@.chargers[i],
            ) by {
                assert(self@.chargers[i] == self.chargers@[i]@);
            }
        }
    }

    /// Charging: every occupant advances by `dt` seconds at its allocation;
    /// the step's dispensed energy is the sum over all chargers.
    fn charge_all(&mut self, dt: u64) -> (r: Energy)
        requires
            old(self).wf(),
            dt <= STEP_LIMIT_SECONDS,
            forall|i: int| 0 <= i < old(self).chargers@.len() ==> all_below_threshold(
                (#[trigger] old(self).chargers@[i])@,
            ),
        ensures
            models_of(final(self).chargers@) == map_charged(
                models_of(old(self).chargers@),
                dt as int,
            ),
            r.watt_seconds == chargers_energy(models_of(old(self).chargers@), dt as int),
            final(self).vehicles@ == old(self).vehicles@,
            final(self).current_id == old(self).current_id,
            final(self).simulation_step_seconds == old(self).simulation_step_seconds,
            final(self).simulation_time_seconds == old(self).simulation_time_seconds,
            final(self).wf(),
    {
        let ghost cs0 = models_of(self.chargers@);
        let ghost dt_i = dt as int;
        let ghost total_chargers = self.chargers@.len();
        let mut input = self.chargers.split_off(0);
        let mut done: Vec<Charger> = Vec::new();
        let mut total = Energy::zero();
        proof {
            assert(input@ =~= old(self).chargers@);
            assert(models_of(input@) =~= cs0);
            assert(models_of(done@) =~= Seq::<ChargerModel>::empty());
            assert(models_of(done@) + map_charged(models_of(input@), dt_i) =~= map_charged(
                cs0,
                dt_i,
            ));
            assert forall|k: int| 0 <= k < input@.len() implies (#[trigger] input@[k]).wf() by {
                assert(input@[k]@ == cs0[k]);
            }
            assert forall|k: int| 0 <= k < input@.len() implies all_below_threshold(
                (#[trigger] input@[k])@,
            ) by {
                assert(input@[k] == old(self).chargers@[k]);
            }
        }
        while input.len() > 0
            invariant
                dt_i == dt as int,
                dt <= STEP_LIMIT_SECONDS,
                map_charged(cs0, dt_i) == models_of(done@) + map_charged(
                    models_of(input@),
                    dt_i,
                ),
                total.watt_seconds + chargers_energy(models_of(input@), dt_i) == chargers_energy(
                    cs0,
                    dt_i,
                ),
                forall|k: int| 0 <= k < done@.len() ==> (#[trigger] done@[k]).wf(),
                forall|k: int| 0 <= k < input@.len() ==> (#[trigger] input@[k]).wf(),
                forall|k: int| 0 <= k < input@.len() ==> all_below_threshold(
                    (#[trigger] input@[k])@,
                ),
                done@.len() + input@.len() == total_chargers,
                total_chargers <= CHARGER_LIMIT,
                0 <= total.watt_seconds <= done@.len() * ((PLUG_LIMIT * POWER_LIMIT_WATTS)
                    * STEP_LIMIT_SECONDS),
            decreases input.len(),
        {
            let ghost prev_models = models_of(input@);
            let mut c = input.remove(0);
            proof {
                assert(c@ == prev_models[0]);
                assert(models_of(input@) =~= prev_models.drop_first());
                crate::charger::lemma_step_energy_bounds(c@.currently_charging, dt_i);
                assert(c@.currently_charging.len() * (POWER_LIMIT_WATTS * STEP_LIMIT_SECONDS)
                    <= PLUG_LIMIT * (POWER_LIMIT_WATTS * STEP_LIMIT_SECONDS)) by (nonlinear_arith)
                    requires
                        0 <= c@.currently_charging.len() <= PLUG_LIMIT,
                ;
            }
            let ghost c_before = c@;
            let e = c.charge_vehicles(dt);
            let ghost done_before = done@;
            proof {
                assert(i128::MIN <= total.watt_seconds + e.watt_seconds <= i128::MAX)
                    by (nonlinear_arith)
                    requires
                        0 <= total.watt_seconds <= done_before.len() * ((PLUG_LIMIT
                            * POWER_LIMIT_WATTS) * STEP_LIMIT_SECONDS),
                        0 <= e.watt_seconds <= PLUG_LIMIT * (POWER_LIMIT_WATTS
                            * STEP_LIMIT_SECONDS),
                        0 <= done_before.len() <= CHARGER_LIMIT,
                ;
            }
            total = total.plus(e);
            done.push(c);
            proof {
                assert(c@ =~= charged_charger(c_before, dt_i));
                assert(models_of(done@) =~= models_of(done_before).push(c@));
                assert(models_of(done_before).push(charged_charger(prev_models[0], dt_i))
                    + map_charged(models_of(input@), dt_i) =~= models_of(done_before) + (seq![
                    charged_charger(prev_models[0], dt_i),
                ] + map_charged(models_of(input@), dt_i)));
                assert(done_before.len() * ((PLUG_LIMIT * POWER_LIMIT_WATTS) * STEP_LIMIT_SECONDS)
                    + PLUG_LIMIT * (POWER_LIMIT_WATTS * STEP_LIMIT_SECONDS) == done@.len() * ((
                PLUG_LIMIT * POWER_LIMIT_WATTS) * STEP_LIMIT_SECONDS)) by (nonlinear_arith)
                    requires
                        done@.len() == done_before.len() + 1,
                ;
            }
        }
        proof {
            assert(models_of(input@) =~= Seq::<ChargerModel>::empty());
            assert(map_charged(models_of(input@), dt_i) =~= Seq::<ChargerModel>::empty());
            assert(models_of(done@) + Seq::<ChargerModel>::empty() =~= models_of(done@));
        }
        self.chargers = done;
        proof {
            assert forall|i: int| 0 <= i < self@.chargers.len() implies charger_model_wf(
                #[trigger] self@.chargers[i],
            ) by {
                assert(self@.chargers[i] == self.chargers@[i]@);
            }
        }
        total
    }
}


/// Builds the per-charger frame entries: allocated power against the grid.
fn collect_charger_frames(chargers: &Vec<Charger>) -> (out: Vec<ChargerFrame>)
    requires
        forall|i: int| 0 <= i < chargers@.len() ==> (#[trigger] chargers@[i]).wf(),
    ensures
        out@ == charger_frames(models_of(chargers@)),
{
    let ghost cs = models_of(chargers@);
    let n = chargers.len();
    let mut out: Vec<ChargerFrame> = Vec::new();
    let mut i: usize = 0;
    while i < n
        invariant
            n == chargers@.len(),
            cs == models_of(chargers@),
            forall|k: int| 0 <= k < chargers@.len() ==> (#[trigger] chargers@[k]).wf(),
            0 <= i <= n,
            out@.len() == i,
            forall|k: int| 0 <= k < i ==> #[trigger] out@[k] == charger_frames(cs)[k],
        decreases n - i,
    {
        let c = &chargers[i];
        let active = c.total_allocated_power();
        proof {
            assert(cs[i as int] == chargers@[i as int]@);
            assert(plugs_of(c.strategy) * POWER_LIMIT_WATTS <= PLUG_LIMIT * POWER_LIMIT_WATTS)
                by (nonlinear_arith)
                requires
                    0 <= plugs_of(c.strategy) <= PLUG_LIMIT,
            ;
        }
        let unused = c.grid_connection.minus(active);
        out.push(ChargerFrame { charger_id: i, active_power: active, unused_power: unused });
        i = i + 1;
    }
    proof {
        assert(out@ =~= charger_frames(cs));
    }
    out
}

/// Builds the per-vehicle frame entries, charger by charger, in plug order.
fn collect_summaries(chargers: &Vec<Charger>) -> (out: Vec<VehicleChargeFrame>)
    requires
        forall|i: int| 0 <= i < chargers@.len() ==> (#[trigger] chargers@[i]).wf(),
    ensures
        out@ == all_summaries(models_of(chargers@)),
{
    let ghost cs = models_of(chargers@);
    let n = chargers.len();
    let mut out: Vec<VehicleChargeFrame> = Vec::new();
    let mut i: usize = 0;
    proof {
        assert(cs.take(0) =~= Seq::<ChargerModel>::empty());
        assert(out@ =~= all_summaries(cs.take(0)));
    }
    while i < n
        invariant
            n == chargers@.len(),
            cs == models_of(chargers@),
            forall|k: int| 0 <= k < chargers@.len() ==> (#[trigger] chargers@[k]).wf(),
            0 <= i <= n,
            out@ == all_summaries(cs.take(i as int)),
        decreases n - i,
    {
        let c = &chargers[i];
        proof {
            assert(cs[i as int] == chargers@[i as int]@);
        }
        let ghost base = out@;
        let ghost vs = c.currently_charging@;
        let m = c.currently_charging.len();
        let mut j: usize = 0;
        proof {
            assert(base + summaries(vs).take(0) =~= base);
        }
        while j < m
            invariant
                m == c.currently_charging@.len(),
                vs == c.currently_charging@,
                c.wf(),
                0 <= j <= m,
                out@ == base + summaries(vs).take(j as int),
            decreases m - j,
        {
            let cv = &c.currently_charging[j];
            let soc = cv.vehicle.soc();
            out.push(
                VehicleChargeFrame {
                    soc,
                    allocated_power: cv.allocated_power,
                    vehicle_id: cv.vehicle_id,
                },
            );
            proof {
                assert(summaries(vs)[j as int] == summary_of(vs[j as int]));
                assert(out@ =~= base + summaries(vs).take(j + 1));
            }
            j = j + 1;
        }
        proof {
            assert(summaries(vs).take(m as int) =~= summaries(vs));
            assert(cs.take(i + 1) =~= cs.take(i as int).push(cs[i as int]));
            lemma_all_summaries_push(cs.take(i as int), cs[i as int]);
            assert(out@ =~= all_summaries(cs.take(i + 1)));
        }
        i = i + 1;
    }
    proof {
        assert(cs.take(n as int) =~= cs);
    }
    out
}

/// Counts the plugs without an occupant across all chargers.
fn count_unused_plugs(chargers: &Vec<Charger>) -> (out: u32)
    requires
        forall|i: int| 0 <= i < chargers@.len() ==> (#[trigger] chargers@[i]).wf(),
        chargers@.len() <= CHARGER_LIMIT,
    ensures
        out as int == unused_plugs(models_of(chargers@)),
{
    let ghost cs = models_of(chargers@);
    let n = chargers.len();
    let mut acc: u32 = 0;
    let mut i: usize = 0;
    proof {
        assert(cs.skip(0) =~= cs);
    }
    while i < n
        invariant
            n == chargers@.len(),
            n <= CHARGER_LIMIT,
            cs == models_of(chargers@),
            forall|k: int| 0 <= k < chargers@.len() ==> (#[trigger] chargers@[k]).wf(),
            0 <= i <= n,
            acc + unused_plugs(cs.skip(i as int)) == unused_plugs(cs),
            acc <= i * PLUG_LIMIT,
        decreases n - i,
    {
        proof {
            assert(cs.skip(i as int)[0] == cs[i as int]);
            assert(cs.skip(i as int).drop_first() =~= cs.skip(i + 1));
            assert(cs[i as int] == chargers@[i as int]@);
        }
        let c = &chargers[i];
        let plugs = c.num_plugs();
        let occupied = c.currently_charging.len() as u32;
        let free = plugs - occupied;
        proof {
            assert(acc + free <= (i + 1) * PLUG_LIMIT && (i + 1) * PLUG_LIMIT <= CHARGER_LIMIT
                * PLUG_LIMIT) by (nonlinear_arith)
                requires
                    acc <= i * PLUG_LIMIT,
                    0 <= free <= PLUG_LIMIT,
                    0 <= i < CHARGER_LIMIT,
            ;
        }
        acc = acc + free;
        i = i + 1;
    }
    proof {
        assert(cs.skip(n as int) =~= Seq::<ChargerModel>::empty());
    }
    acc
}


impl Sim {
    /// One simulation step: admission, re-allocation, charging, frame
    /// emission. The new state and the frame are exactly the images of the
    /// old state under [`spec_step`].
    pub fn step(&mut self) -> (frame: SimFrame)
        requires
            old(self).wf(),
        ensures
            final(self)@ == spec_step(old(self)@).0,
            frame@ == spec_step(old(self)@).1,
            final(self).wf(),
    {
        let ghost m0 = self@;
        self.admit_vehicles();
        let ghost cs1 = models_of(self.chargers@);
        self.update_all();
        let ghost cs2 = models_of(self.chargers@);
        let dt = self.simulation_step_seconds;
        let total = self.charge_all(dt);
        let ghost cs3 = models_of(self.chargers@);
        let elapsed = if self.simulation_time_seconds <= u64::MAX - dt {
            self.simulation_time_seconds + dt
        } else {
            u64::MAX
        };
        self.simulation_time_seconds = elapsed;
        proof {
            assert forall|i: int| 0 <= i < self.chargers@.len() implies (
            #[trigger] self.chargers@[i]).wf() by {
                assert(self@.chargers[i] == self.chargers@[i]@);
            }
        }
        let frame_chargers = collect_charger_frames(&self.chargers);
        let frame_vehicles = collect_summaries(&self.chargers);
        let plugs_unused = count_unused_plugs(&self.chargers);
        let frame = SimFrame {
            energy_dispensed: total,
            chargers: frame_chargers,
            vehicles_charging: frame_vehicles,
            plugs_unused,
            duration_seconds: elapsed,
        };
        proof {
            assert(self@ =~= spec_step(m0).0);
            assert(frame@ =~= spec_step(m0).1);
        }
        frame
    }

    /// Runs the simulation until it is done, but for at most `max_steps`
    /// steps, and returns the emitted frames. An invalid configuration (no
    /// chargers or no vehicles) yields no frames and changes nothing.
    ///
    /// The step budget bounds the loop explicitly. A bound on the number of
    /// steps a valid configuration needs is not proved here, but the progress
    /// facts behind one are: under the non-granular strategies every kept
    /// vehicle charges at no less than the minimum viable rate
    /// ([`crate::charger::lemma_shared_update_floor`]); a granular charger
    /// never holds a freshly admitted set of vehicles at zero power
    /// ([`crate::charger::lemma_granular_zero_progress`]), because charger
    /// construction rejects step budgets that cannot cover one floored
    /// request; and every unplug threshold is a finite energy. Once a run is
    /// done, a larger budget changes neither the frames nor the state
    /// ([`lemma_run_trace_stable`], [`lemma_run_stable`]).
    pub fn run(&mut self, max_steps: usize) -> (frames: Vec<SimFrame>)
        requires
            old(self).wf(),
        ensures
            !sim_valid(old(self)@) ==> *final(self) == *old(self) && frames@.len() == 0,
            sim_valid(old(self)@) ==> frames_of(frames@) == run_trace(
                old(self)@,
                max_steps as nat,
            ) && final(self)@ == run_state(old(self)@, max_steps as nat),
            final(self).wf(),
    {
        let mut frames: Vec<SimFrame> = Vec::new();
        if !self.is_valid() {
            return frames;
        }
        let ghost m0 = self@;
        let mut steps: usize = 0;
        proof {
            assert(frames_of(frames@) =~= run_trace(m0, 0));
        }
        while steps < max_steps && !self.is_done()
            invariant
                self.wf(),
                0 <= steps <= max_steps,
                self@ == run_state(m0, steps as nat),
                frames_of(frames@) == run_trace(m0, steps as nat),
            decreases max_steps - steps,
        {
            let ghost before = frames@;
            let frame = self.step();
            frames.push(frame);
            proof {
                lemma_run_snoc(m0, steps as nat);
                assert(frames_of(frames@) =~= frames_of(before).push(frame@));
            }
            steps = steps + 1;
        }
        proof {
            if steps < max_steps {
                lemma_run_stable(m0, steps as nat, max_steps as nat);
            }
        }
        frames
    }
}

/// Stepping one more time from a not-yet-done state appends that state's
/// frame to the trace.
pub proof fn lemma_run_snoc(m: SimModel, n: nat)
    requires
        !sim_done(run_state(m, n)),
    ensures
        run_state(m, n + 1) == spec_step(run_state(m, n)).0,
        run_trace(m, n + 1) == run_trace(m, n).push(spec_step(run_state(m, n)).1),
    decreases n,
{
    if sim_done(m) {
        assert(run_state(m, n) == m);
    } else if n == 0 {
        assert(run_state(m, 1) == run_state(spec_step(m).0, 0));
        assert(run_trace(m, 1) == seq![spec_step(m).1] + run_trace(spec_step(m).0, 0));
        assert(run_trace(spec_step(m).0, 0) =~= Seq::<FrameModel>::empty());
        assert(run_trace(m, 1) =~= run_trace(m, 0).push(spec_step(run_state(m, 0)).1));
    } else {
        lemma_run_snoc(spec_step(m).0, (n - 1) as nat);
        assert(run_state(m, n + 1) == run_state(spec_step(m).0, n));
        assert(run_state(m, n) == run_state(spec_step(m).0, (n - 1) as nat));
        assert(run_trace(m, n + 1) == seq![spec_step(m).1] + run_trace(spec_step(m).0, n));
        assert(run_trace(m, n) == seq![spec_step(m).1] + run_trace(spec_step(m).0, (n - 1) as nat));
        assert(seq![spec_step(m).1] + run_trace(spec_step(m).0, (n - 1) as nat).push(
            spec_step(run_state(m, n)).1,
        ) =~= (seq![spec_step(m).1] + run_trace(spec_step(m).0, (n - 1) as nat)).push(
            spec_step(run_state(m, n)).1,
        ));
    }
}

/// Once the simulation is done, further fuel changes neither the state nor
/// the trace.
pub proof fn lemma_run_stable(m: SimModel, n: nat, f: nat)
    requires
        n <= f,
        sim_done(run_state(m, n)),
    ensures
        run_state(m, f) == run_state(m, n),
        run_trace(m, f) == run_trace(m, n),
    decreases n,
{
    if sim_done(m) {
        assert(run_state(m, n) == m);
        assert(run_state(m, f) == m);
        assert(run_trace(m, f) =~= run_trace(m, n));
    } else if n == 0 {
        // run_state(m, 0) == m, which is not done: contradiction
        assert(false);
    } else {
        lemma_run_stable(spec_step(m).0, (n - 1) as nat, (f - 1) as nat);
    }
}

/// Energy reported by a sequence of frames, summed.
pub open spec fn frames_energy(fs: Seq<FrameModel>) -> int
    decreases fs.len(),
{
    if fs.len() == 0 {
        0
    } else {
        fs[0].energy_dispensed + frames_energy(fs.drop_first())
    }
}

/// `allocated_power * dt` summed over one frame's vehicle entries.
pub open spec fn frame_alloc_energy(fs: Seq<VehicleChargeFrame>, dt: int) -> int
    decreases fs.len(),
{
    if fs.len() == 0 {
        0
    } else {
        fs[0].allocated_power.watts * dt + frame_alloc_energy(fs.drop_first(), dt)
    }
}

/// `allocated_power * dt` summed over all (frame, vehicle) pairs.
pub open spec fn frames_alloc_energy(fs: Seq<FrameModel>, dt: int) -> int
    decreases fs.len(),
{
    if fs.len() == 0 {
        0
    } else {
        frame_alloc_energy(fs[0].vehicles_charging, dt) + frames_alloc_energy(
            fs.drop_first(),
            dt,
        )
    }
}

proof fn lemma_frame_alloc_energy_concat(a: Seq<VehicleChargeFrame>, b: Seq<VehicleChargeFrame>, dt: int)
    ensures
        frame_alloc_energy(a + b, dt) == frame_alloc_energy(a, dt) + frame_alloc_energy(b, dt),
    decreases a.len(),
{
    if a.len() == 0 {
        assert(a + b =~= b);
    } else {
        assert((a + b).drop_first() =~= a.drop_first() + b);
        lemma_frame_alloc_energy_concat(a.drop_first(), b, dt);
    }
}

/// The frame entries of a charged vehicle list carry the allocations that
/// produced the step's energy.
proof fn lemma_summaries_energy(vs: Seq<ChargingVehicle>, dt: int)
    ensures
        frame_alloc_energy(summaries(charged_list(vs, dt)), dt) == step_energy(vs, dt),
    decreases vs.len(),
{
    if vs.len() == 0 {
        assert(charged_list(vs, dt) =~= Seq::<ChargingVehicle>::empty());
        assert(summaries(charged_list(vs, dt)) =~= Seq::<VehicleChargeFrame>::empty());
    } else {
        let cl = charged_list(vs, dt);
        assert(cl[0] == crate::charger::charged_vehicle(vs[0], dt));
        assert(summaries(cl)[0] == summary_of(cl[0]));
        assert(summaries(cl).drop_first() =~= summaries(cl.drop_first()));
        assert(cl.drop_first() =~= charged_list(vs.drop_first(), dt));
        lemma_summaries_energy(vs.drop_first(), dt);
    }
}

/// A step's dispensed energy equals the sum of `allocation * dt` over the
/// vehicle entries of the frame it emits.
proof fn lemma_chargers_frame_energy(cs: Seq<ChargerModel>, dt: int)
    ensures
        frame_alloc_energy(all_summaries(map_charged(cs, dt)), dt) == chargers_energy(cs, dt),
    decreases cs.len(),
{
    if cs.len() == 0 {
        assert(map_charged(cs, dt) =~= Seq::<ChargerModel>::empty());
        assert(all_summaries(map_charged(cs, dt)) =~= Seq::<VehicleChargeFrame>::empty());
    } else {
        let mc = map_charged(cs, dt);
        assert(mc[0] == charged_charger(cs[0], dt));
        assert(mc.drop_first() =~= map_charged(cs.drop_first(), dt));
        assert(all_summaries(mc) == summaries(mc[0].currently_charging) + all_summaries(
            mc.drop_first(),
        ));
        lemma_frame_alloc_energy_concat(
            summaries(mc[0].currently_charging),
            all_summaries(mc.drop_first()),
            dt,
        );
        lemma_summaries_energy(cs[0].currently_charging, dt);
        lemma_chargers_frame_energy(cs.drop_first(), dt);
    }
}

/// Conservation: over any run, the total energy the frames report equals the
/// sum of `allocated_power * step_duration` over all (frame, vehicle) pairs.
pub proof fn lemma_energy_conservation(m: SimModel, fuel: nat)
    ensures
        frames_energy(run_trace(m, fuel)) == frames_alloc_energy(
            run_trace(m, fuel),
            m.simulation_step_seconds,
        ),
    decreases fuel,
{
    if fuel == 0 || sim_done(m) {
    } else {
        let f = spec_step(m).1;
        let m1 = spec_step(m).0;
        let rest = run_trace(m1, (fuel - 1) as nat);
        let tr = run_trace(m, fuel);
        assert(tr == seq![f] + rest);
        assert(tr[0] == f);
        assert(tr.drop_first() =~= rest);
        let admitted = admit_all(m.chargers, m.vehicles, m.current_id);
        let cs2 = map_updated(admitted.0);
        lemma_chargers_frame_energy(cs2, m.simulation_step_seconds);
        lemma_energy_conservation(m1, (fuel - 1) as nat);
        assert(m1.simulation_step_seconds == m.simulation_step_seconds);
    }
}

/// Determinism: the frame trace is a function of the starting state alone,
/// so two runs from identical inputs produce identical frame sequences.
pub proof fn lemma_run_deterministic(a: SimModel, b: SimModel, fuel: nat)
    requires
        a == b,
    ensures
        run_trace(a, fuel) == run_trace(b, fuel),
{
}

/// Determinism across step budgets: once a run has reached the done state,
/// running with any sufficient budget yields the same frame sequence.
pub proof fn lemma_run_trace_stable(m: SimModel, f1: nat, f2: nat)
    requires
        sim_done(run_state(m, f1)),
        sim_done(run_state(m, f2)),
    ensures
        run_trace(m, f1) == run_trace(m, f2),
{
    if f1 <= f2 {
        lemma_run_stable(m, f1, f2);
    } else {
        lemma_run_stable(m, f2, f1);
    }
}

proof fn lemma_frames_energy_nonneg(fs: Seq<FrameModel>)
    requires
        forall|i: int| 0 <= i < fs.len() ==> (#[trigger] fs[i]).energy_dispensed >= 0,
    ensures
        frames_energy(fs) >= 0,
    decreases fs.len(),
{
    if fs.len() > 0 {
        assert forall|i: int| 0 <= i < fs.drop_first().len() implies (#[trigger] fs.drop_first()[i]).energy_dispensed
            >= 0 by {
            assert(fs.drop_first()[i] == fs[i + 1]);
        }
        lemma_frames_energy_nonneg(fs.drop_first());
    }
}

/// Aggregate total over a run's frames, for summary display: the sum of the
/// energy dispensed per step, or `None` if it cannot be represented.
pub fn total_energy_dispensed(frames: &Vec<SimFrame>) -> (r: Option<Energy>)
    requires
        forall|i: int| 0 <= i < frames@.len() ==> (#[trigger] frames@[i]).energy_dispensed.watt_seconds
            >= 0,
    ensures
        frames_energy(frames_of(frames@)) <= i128::MAX ==> (r matches Some(e)
            && e.watt_seconds == frames_energy(frames_of(frames@))),
        frames_energy(frames_of(frames@)) > i128::MAX ==> r is None,
{
    let ghost fs = frames_of(frames@);
    let n = frames.len();
    let mut acc = Energy::zero();
    let mut i: usize = 0;
    proof {
        assert(fs.skip(0) =~= fs);
    }
    while i < n
        invariant
            n == frames@.len(),
            fs == frames_of(frames@),
            forall|k: int| 0 <= k < frames@.len() ==> (#[trigger] frames@[k]).energy_dispensed.watt_seconds
                >= 0,
            0 <= i <= n,
            acc.watt_seconds + frames_energy(fs.skip(i as int)) == frames_energy(fs),
            acc.watt_seconds >= 0,
        decreases n - i,
    {
        proof {
            assert(fs.skip(i as int)[0] == fs[i as int]);
            assert(fs.skip(i as int).drop_first() =~= fs.skip(i + 1));
            assert(fs[i as int] == frames@[i as int]@);
            assert forall|k: int| 0 <= k < fs.skip(i + 1).len() implies (#[trigger] fs.skip(
                i + 1,
            )[k]).energy_dispensed >= 0 by {
                assert(fs.skip(i + 1)[k] == fs[k + i + 1]);
                assert(fs[k + i + 1] == frames@[k + i + 1]@);
            }
            lemma_frames_energy_nonneg(fs.skip(i + 1));
        }
        let e = frames[i].energy_dispensed;
        match acc.checked_plus(e) {
            Option::Some(sum) => {
                acc = sum;
            },
            Option::None => {
                return None;
            },
        }
        i = i + 1;
    }
    proof {
        assert(fs.skip(n as int) =~= Seq::<FrameModel>::empty());
    }
    Some(acc)
}

} // verus!
