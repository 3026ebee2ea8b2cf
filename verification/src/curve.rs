//! Piecewise-linear charge curves: ordered calibration samples mapping state
//! of charge to achievable charge power, with point lookup by linear
//! interpolation, interval averaging, and sub-range extraction.

use vstd::arithmetic::div_mod::lemma_div_is_ordered;
use vstd::arithmetic::div_mod::lemma_div_multiples_vanish;
use vstd::arithmetic::div_mod::lemma_div_of0;
use vstd::arithmetic::mul::lemma_mul_inequality;
use vstd::arithmetic::mul::lemma_mul_nonnegative;
use vstd::pervasive::unreached;
use vstd::prelude::*;

use crate::quantities::Percentage;
use crate::quantities::Power;
use crate::quantities::POWER_LIMIT_WATTS;
use crate::quantities::SOC_SCALE;

verus! {

/// Lookup of a state of charge outside the curve's sampled domain.
#[derive(Clone, Copy, Debug, PartialEq, Eq, Structural)]
pub enum CurveError {
    OutOfDomain,
}

/// Rejected configuration, reported at construction time.
#[derive(Clone, Copy, Debug, PartialEq, Eq, Structural)]
pub enum ConfigError {
    /// A charge curve needs at least two samples.
    CurveTooShort,
    /// Curve samples must have strictly increasing states of charge, each
    /// within the 0%..=100% scale.
    CurveNotIncreasing,
    /// A curve sample's power must lie in `0..=POWER_LIMIT_WATTS`.
    CurvePowerOutOfRange,
    /// A vehicle's curve must span the full 0%..=100% domain.
    CurveDoesNotSpanDomain,
    /// A battery capacity must be positive and within the energy limit.
    CapacityOutOfRange,
    /// A stored-energy value must be nonnegative and within the energy limit.
    EnergyOutOfRange,
    /// A grid connection must lie in `0..=POWER_LIMIT_WATTS`.
    GridOutOfRange,
    /// A strategy's plug count must lie in `1..=PLUG_LIMIT`.
    PlugCountOutOfRange,
    /// A granular power step must lie in `1..=POWER_LIMIT_WATTS`.
    PowerStepOutOfRange,
    /// A granular per-plug cap must lie in `0..=POWER_LIMIT_WATTS`.
    MaxPerPlugOutOfRange,
    /// A granular charger's whole-step budget must cover the minimum viable
    /// rate; otherwise a vehicle could wait at zero allocation forever.
    GranularBudgetTooSmall,
    /// A step duration must lie in `1..=STEP_LIMIT_SECONDS`.
    StepDurationOutOfRange,
    /// At most `CHARGER_LIMIT` chargers take part in one simulation.
    TooManyChargers,
}

/// One calibration sample of a vehicle's charging behaviour.
#[derive(Clone, Copy, Debug, PartialEq, Eq, Structural)]
pub struct CurvePoint {
    pub state_of_charge: Percentage,
    pub charge_power: Power,
}

impl CurvePoint {
    pub fn new(state_of_charge: Percentage, charge_power: Power) -> (r: CurvePoint)
        ensures
            r == (CurvePoint { state_of_charge, charge_power }),
    {
        CurvePoint { state_of_charge, charge_power }
    }
}

/// A sample's state of charge, in hundredths of a percent.
pub open spec fn soc_of(p: CurvePoint) -> int {
    p.state_of_charge.hundredths as int
}

/// A sample's power, in watts.
pub open spec fn power_of(p: CurvePoint) -> int {
    p.charge_power.watts as int
}

/// A valid sample sequence: at least two samples, states of charge strictly
/// increasing and on the percentage scale, powers within the configured range.
pub open spec fn points_wf(ps: Seq<CurvePoint>) -> bool {
    &&& ps.len() >= 2
    &&& forall|i: int| 0 <= i < ps.len() ==> soc_of(#[trigger] ps[i]) <= SOC_SCALE
    &&& forall|i: int| 0 <= i < ps.len() ==> 0 <= power_of(#[trigger] ps[i]) <= POWER_LIMIT_WATTS
    &&& forall|i: int| 0 <= i < ps.len() - 1 ==> soc_of(#[trigger] ps[i]) < soc_of(ps[i + 1])
}

/// The sampled domain covers this state of charge.
pub open spec fn in_domain(ps: Seq<CurvePoint>, soc: int) -> bool {
    soc_of(ps[0]) <= soc <= soc_of(ps[ps.len() - 1])
}

/// Index of the segment bracketing `soc`, searching from sample `i`: the
/// first `b >= i` whose successor sample lies strictly above `soc`, capped
/// at the last segment.
pub open spec fn bracket_from(ps: Seq<CurvePoint>, soc: int, i: int) -> int
    decreases ps.len() - i,
{
    if i + 2 >= ps.len() || soc < soc_of(ps[i + 1]) {
        i
    } else {
        bracket_from(ps, soc, i + 1)
    }
}

/// Linear interpolation between two samples, with the division arranged so
/// that its operands are always nonnegative.
pub open spec fn lerp(a: CurvePoint, b: CurvePoint, soc: int) -> int {
    if power_of(b) >= power_of(a) {
        power_of(a) + (power_of(b) - power_of(a)) * (soc - soc_of(a)) / (soc_of(b) - soc_of(a))
    } else {
        power_of(a) - (power_of(a) - power_of(b)) * (soc - soc_of(a)) / (soc_of(b) - soc_of(a))
    }
}

/// The power the curve defines at `soc`: the exact sample power where a
/// sample exists, otherwise the interpolation across the bracketing segment.
pub open spec fn power_at_spec(ps: Seq<CurvePoint>, soc: int) -> int {
    let b = bracket_from(ps, soc, 0);
    if soc_of(ps[b]) == soc {
        power_of(ps[b])
    } else if soc_of(ps[b + 1]) == soc {
        power_of(ps[b + 1])
    } else {
        lerp(ps[b], ps[b + 1], soc)
    }
}

/// States of charge increase strictly with the sample index.
pub proof fn lemma_soc_increasing(ps: Seq<CurvePoint>, i: int, j: int)
    requires
        points_wf(ps),
        0 <= i < j < ps.len(),
    ensures
        soc_of(ps[i]) < soc_of(ps[j]),
    decreases j - i,
{
    if i + 1 < j {
        lemma_soc_increasing(ps, i + 1, j);
    }
}

/// Where the bracketing search lands: between `i` and the last segment,
/// with `soc` inside the segment found.
pub proof fn lemma_bracket_props(ps: Seq<CurvePoint>, soc: int, i: int)
    requires
        points_wf(ps),
        0 <= i <= ps.len() - 2,
        soc_of(ps[i]) <= soc,
        soc <= soc_of(ps[ps.len() - 1]),
    ensures
        i <= bracket_from(ps, soc, i) <= ps.len() - 2,
        soc_of(ps[bracket_from(ps, soc, i)]) <= soc,
        soc <= soc_of(ps[bracket_from(ps, soc, i) + 1]),
        bracket_from(ps, soc, i) + 1 < ps.len() - 1 ==> soc < soc_of(ps[bracket_from(ps, soc, i) + 1]),
    decreases ps.len() - i,
{
    if !(i + 2 >= ps.len() || soc < soc_of(ps[i + 1])) {
        lemma_bracket_props(ps, soc, i + 1);
    }
}

/// The interpolated value lies between the powers of the two samples.
pub proof fn lemma_lerp_bounds(a: CurvePoint, b: CurvePoint, soc: int)
    requires
        soc_of(a) < soc < soc_of(b),
    ensures
        power_of(a) <= power_of(b) ==> power_of(a) <= lerp(a, b, soc) <= power_of(b),
        power_of(b) <= power_of(a) ==> power_of(b) <= lerp(a, b, soc) <= power_of(a),
{
    let x = soc - soc_of(a);
    let y = soc_of(b) - soc_of(a);
    if power_of(b) >= power_of(a) {
        let d = power_of(b) - power_of(a);
        lemma_mul_nonnegative(d, x);
        lemma_div_of0(y);
        lemma_div_is_ordered(0, d * x, y);
        lemma_mul_inequality(x, y, d);
        lemma_div_is_ordered(d * x, d * y, y);
        lemma_div_multiples_vanish(d, y);
        assert(d * x / y <= d * y / y);
    } else {
        let d = power_of(a) - power_of(b);
        lemma_mul_nonnegative(d, x);
        lemma_div_of0(y);
        lemma_div_is_ordered(0, d * x, y);
        lemma_mul_inequality(x, y, d);
        lemma_div_is_ordered(d * x, d * y, y);
        lemma_div_multiples_vanish(d, y);
        assert(d * x / y <= d * y / y);
    }
}

/// Anywhere in the domain, the curve's power lies within the configured range.
pub proof fn lemma_power_at_range(ps: Seq<CurvePoint>, soc: int)
    requires
        points_wf(ps),
        in_domain(ps, soc),
    ensures
        0 <= power_at_spec(ps, soc) <= POWER_LIMIT_WATTS,
{
    lemma_bracket_props(ps, soc, 0);
    let b = bracket_from(ps, soc, 0);
    if soc_of(ps[b]) != soc && soc_of(ps[b + 1]) != soc {
        lemma_lerp_bounds(ps[b], ps[b + 1], soc);
    }
}

/// The bracketing search, started at or left of a sample with this exact
/// state of charge, lands on that sample's segment.
proof fn lemma_bracket_at_sample(ps: Seq<CurvePoint>, j: int, i: int)
    requires
        points_wf(ps),
        0 <= j < ps.len(),
        0 <= i <= ps.len() - 2,
        i <= j,
    ensures
        bracket_from(ps, soc_of(ps[j]), i) == if j < ps.len() - 1 {
            j
        } else {
            ps.len() - 2
        },
    decreases ps.len() - i,
{
    let soc = soc_of(ps[j]);
    if i + 2 >= ps.len() {
        // i is the last segment; j is len - 2 or len - 1
    } else if soc < soc_of(ps[i + 1]) {
        // the search stops at i, so no sample below index i + 1 exceeds soc:
        // j <= i, and with i <= j this gives j == i
        if j > i {
            lemma_soc_increasing(ps, i + 1, j + 0) // j >= i + 1
        }
    } else {
        if j == i {
            lemma_soc_increasing(ps, i, i + 1);
            assert(false);
        }
        lemma_bracket_at_sample(ps, j, i + 1);
    }
}

/// Looking up the state of charge of any stored sample returns exactly that
/// sample's power.
pub proof fn lemma_power_at_sample(ps: Seq<CurvePoint>, j: int)
    requires
        points_wf(ps),
        0 <= j < ps.len(),
    ensures
        power_at_spec(ps, soc_of(ps[j])) == power_of(ps[j]),
{
    lemma_bracket_at_sample(ps, j, 0);
    if j == ps.len() - 1 {
        lemma_soc_increasing(ps, j - 1, j);
    }
}

/// Twice the trapezoidal integral of the curve over its first `i` segments:
/// the sum of `(power_k + power_{k+1}) * (soc_{k+1} - soc_k)`.
pub open spec fn weighted_sum_to(ps: Seq<CurvePoint>, i: int) -> int
    decreases i,
{
    if i <= 0 {
        0
    } else {
        weighted_sum_to(ps, i - 1) + (power_of(ps[i - 1]) + power_of(ps[i])) * (soc_of(ps[i])
            - soc_of(ps[i - 1]))
    }
}

/// The length-weighted trapezoidal average of the curve's power over its
/// whole sampled span.
pub open spec fn average_power_spec(ps: Seq<CurvePoint>) -> int {
    weighted_sum_to(ps, ps.len() - 1) / (2 * (soc_of(ps[ps.len() - 1]) - soc_of(ps[0])))
}

/// The trapezoidal sum is nonnegative and at most twice the power limit
/// times the span it covers.
pub proof fn lemma_weighted_sum_bounds(ps: Seq<CurvePoint>, i: int)
    requires
        points_wf(ps),
        0 <= i < ps.len(),
    ensures
        0 <= weighted_sum_to(ps, i) <= 2 * POWER_LIMIT_WATTS * (soc_of(ps[i]) - soc_of(ps[0])),
    decreases i,
{
    if i > 0 {
        lemma_weighted_sum_bounds(ps, i - 1);
        let gap = soc_of(ps[i]) - soc_of(ps[i - 1]);
        let term = (power_of(ps[i - 1]) + power_of(ps[i])) * gap;
        lemma_mul_nonnegative(power_of(ps[i - 1]) + power_of(ps[i]), gap);
        lemma_mul_inequality(power_of(ps[i - 1]) + power_of(ps[i]), 2 * POWER_LIMIT_WATTS, gap);
        assert(2 * POWER_LIMIT_WATTS * (soc_of(ps[i - 1]) - soc_of(ps[0])) + 2 * POWER_LIMIT_WATTS
            * gap == 2 * POWER_LIMIT_WATTS * (soc_of(ps[i]) - soc_of(ps[0]))) by (nonlinear_arith)
            requires
                gap == soc_of(ps[i]) - soc_of(ps[i - 1]),
        ;
        assert(term <= 2 * POWER_LIMIT_WATTS * gap) by (nonlinear_arith)
            requires
                (power_of(ps[i - 1]) + power_of(ps[i])) * gap <= gap * (2 * POWER_LIMIT_WATTS),
                term == (power_of(ps[i - 1]) + power_of(ps[i])) * gap,
        ;
    }
}

/// Over a well-formed curve the trapezoidal sum fits comfortably in a
/// machine word: it never exceeds twice the power limit times the full scale.
pub proof fn lemma_weighted_sum_span_bound(ps: Seq<CurvePoint>, i: int)
    requires
        points_wf(ps),
        0 <= i < ps.len(),
    ensures
        0 <= weighted_sum_to(ps, i) <= 2 * POWER_LIMIT_WATTS * SOC_SCALE,
{
    lemma_weighted_sum_bounds(ps, i);
    if i > 0 {
        lemma_soc_increasing(ps, 0, i);
    }
    assert(2 * POWER_LIMIT_WATTS * (soc_of(ps[i]) - soc_of(ps[0])) <= 2 * POWER_LIMIT_WATTS
        * SOC_SCALE) by (nonlinear_arith)
        requires
            0 <= soc_of(ps[i]) - soc_of(ps[0]) <= SOC_SCALE,
    ;
}

/// The trapezoidal average lies within the configured power range.
pub proof fn lemma_average_power_range(ps: Seq<CurvePoint>)
    requires
        points_wf(ps),
    ensures
        0 <= average_power_spec(ps) <= POWER_LIMIT_WATTS,
{
    let n = ps.len() as int;
    lemma_soc_increasing(ps, 0, n - 1);
    let span = soc_of(ps[n - 1]) - soc_of(ps[0]);
    let wsum = weighted_sum_to(ps, n - 1);
    lemma_weighted_sum_bounds(ps, n - 1);
    lemma_div_of0(2 * span);
    lemma_div_is_ordered(0, wsum, 2 * span);
    lemma_div_is_ordered(wsum, 2 * POWER_LIMIT_WATTS * span, 2 * span);
    lemma_div_multiples_vanish(POWER_LIMIT_WATTS as int, 2 * span);
    assert(2 * POWER_LIMIT_WATTS * span == POWER_LIMIT_WATTS * (2 * span)) by (nonlinear_arith);
}

/// The elements the sub-range extraction keeps from the first `i` samples:
/// those strictly between the two requested bounds.
pub open spec fn mids_to(ps: Seq<CurvePoint>, s: int, e: int, i: int) -> Seq<CurvePoint>
    decreases i,
{
    if i <= 0 {
        Seq::empty()
    } else {
        mids_to(ps, s, e, i - 1) + if s < soc_of(ps[i - 1]) && soc_of(ps[i - 1]) < e {
            seq![ps[i - 1]]
        } else {
            Seq::empty()
        }
    }
}

/// The sub-range extraction is defined for bounds in order, each lying in a
/// bracketing segment of the parent curve.
pub open spec fn sub_curve_defined(ps: Seq<CurvePoint>, s: int, e: int) -> bool {
    &&& soc_of(ps[0]) <= s
    &&& s < e
    &&& e < soc_of(ps[ps.len() - 1])
}

/// The samples of the extracted sub-range: a point synthesized at each bound
/// by interpolation, with every original sample strictly between the bounds
/// preserved in between.
pub open spec fn sub_points_spec(ps: Seq<CurvePoint>, s: int, e: int) -> Seq<CurvePoint> {
    seq![
        CurvePoint {
            state_of_charge: Percentage { hundredths: s as u16 },
            charge_power: Power { watts: power_at_spec(ps, s) as i64 },
        },
    ] + mids_to(ps, s, e, ps.len() as int) + seq![
        CurvePoint {
            state_of_charge: Percentage { hundredths: e as u16 },
            charge_power: Power { watts: power_at_spec(ps, e) as i64 },
        },
    ]
}

/// The kept middle samples lie strictly between the bounds, stay strictly
/// increasing, and inherit the parent's power range.
proof fn lemma_mids_props(ps: Seq<CurvePoint>, s: int, e: int, i: int)
    requires
        points_wf(ps),
        0 <= i <= ps.len(),
    ensures
        forall|k: int| 0 <= k < mids_to(ps, s, e, i).len() ==> s < soc_of(
            #[trigger] mids_to(ps, s, e, i)[k],
        ) < e,
        forall|k: int| 0 <= k < mids_to(ps, s, e, i).len() ==> 0 <= power_of(
            #[trigger] mids_to(ps, s, e, i)[k],
        ) <= POWER_LIMIT_WATTS,
        forall|k: int| 0 <= k < mids_to(ps, s, e, i).len() - 1 ==> soc_of(
            #[trigger] mids_to(ps, s, e, i)[k],
        ) < soc_of(mids_to(ps, s, e, i)[k + 1]),
        i >= 1 && mids_to(ps, s, e, i).len() > 0 ==> soc_of(
            mids_to(ps, s, e, i)[mids_to(ps, s, e, i).len() - 1],
        ) <= soc_of(ps[i - 1]),
    decreases i,
{
    if i > 0 {
        lemma_mids_props(ps, s, e, i - 1);
        let m0 = mids_to(ps, s, e, i - 1);
        let m = mids_to(ps, s, e, i);
        if s < soc_of(ps[i - 1]) && soc_of(ps[i - 1]) < e {
            assert(m == m0 + seq![ps[i - 1]]);
            assert(forall|k: int| 0 <= k < m0.len() ==> #[trigger] m[k] == m0[k]);
            assert(m[m.len() - 1] == ps[i - 1]);
            if m0.len() > 0 {
                lemma_soc_increasing(ps, i - 2, i - 1);
            }
        } else {
            assert(m0 + Seq::<CurvePoint>::empty() =~= m0);
        }
    }
}

/// An ordered piecewise-linear function from state of charge to achievable
/// charge power.
#[derive(Clone, Debug, PartialEq)]
pub struct ChargeCurve {
    pub data_points: Vec<CurvePoint>,
}

impl ChargeCurve {
    pub open spec fn wf(self) -> bool {
        points_wf(self.data_points@)
    }

    /// The samples cover the whole 0%..=100% domain.
    pub open spec fn spans_full_domain(self) -> bool {
        &&& soc_of(self.data_points@[0]) == 0
        &&& soc_of(self.data_points@[self.data_points@.len() - 1]) == SOC_SCALE
    }

    /// Validating constructor: rejects malformed sample sequences instead of
    /// letting lookups fail later.
    pub fn new(data_points: Vec<CurvePoint>) -> (r: Result<ChargeCurve, ConfigError>)
        ensures
            r matches Ok(c) ==> c.data_points@ == data_points@ && c.wf(),
            r is Ok <==> points_wf(data_points@),
            r == Err::<ChargeCurve, ConfigError>(ConfigError::CurveTooShort) <==> data_points@.len() < 2,
            r == Err::<ChargeCurve, ConfigError>(ConfigError::CurvePowerOutOfRange) <==> (
            data_points@.len() >= 2 && exists|i: int|
                0 <= i < data_points@.len() && !(0 <= power_of(#[trigger] data_points@[i])
                    <= POWER_LIMIT_WATTS)),
            r == Err::<ChargeCurve, ConfigError>(ConfigError::CurveNotIncreasing) <==> (
            data_points@.len() >= 2 && (forall|i: int|
                0 <= i < data_points@.len() ==> 0 <= power_of(#[trigger] data_points@[i])
                    <= POWER_LIMIT_WATTS) && !((forall|i: int|
                0 <= i < data_points@.len() ==> soc_of(#[trigger] data_points@[i]) <= SOC_SCALE)
                && (forall|i: int|
                0 <= i < data_points@.len() - 1 ==> soc_of(#[trigger] data_points@[i]) < soc_of(
                    data_points@[i + 1],
                )))),
    {
        if data_points.len() < 2 {
            return Err(ConfigError::CurveTooShort);
        }
        let n = data_points.len();
        let mut i: usize = 0;
        while i < n
            invariant
                n == data_points@.len(),
                n >= 2,
                0 <= i <= n,
                forall|k: int| 0 <= k < i ==> 0 <= power_of(#[trigger] data_points@[k])
                    <= POWER_LIMIT_WATTS,
            decreases n - i,
        {
            let w = data_points[i].charge_power.watts;
            if w < 0 || w > POWER_LIMIT_WATTS {
                assert(!(0 <= power_of(data_points@[i as int]) <= POWER_LIMIT_WATTS));
                return Err(ConfigError::CurvePowerOutOfRange);
            }
            i = i + 1;
        }
        let mut i: usize = 0;
        while i < n
            invariant
                n == data_points@.len(),
                n >= 2,
                0 <= i <= n,
                forall|k: int| 0 <= k < n ==> 0 <= power_of(#[trigger] data_points@[k])
                    <= POWER_LIMIT_WATTS,
                forall|k: int| 0 <= k < i ==> soc_of(#[trigger] data_points@[k]) <= SOC_SCALE,
                forall|k: int| 0 <= k < i && k + 1 < n ==> soc_of(#[trigger] data_points@[k])
                    < soc_of(data_points@[k + 1]),
            decreases n - i,
        {
            let h = data_points[i].state_of_charge.hundredths;
            if h > SOC_SCALE {
                assert(!(soc_of(data_points@[i as int]) <= SOC_SCALE));
                return Err(ConfigError::CurveNotIncreasing);
            }
            if i + 1 < n {
                if data_points[i + 1].state_of_charge.hundredths <= h {
                    assert(!(soc_of(data_points@[i as int]) < soc_of(data_points@[i as int + 1])));
                    return Err(ConfigError::CurveNotIncreasing);
                }
            }
            i = i + 1;
        }
        Ok(ChargeCurve { data_points })
    }

    /// The power this curve defines at `soc`: the sample's own power where a
    /// sample exists at `soc`, otherwise the linear interpolation between the
    /// two bracketing samples; out-of-domain lookups report an error.
    pub fn power_at(&self, soc: Percentage) -> (r: Result<Power, CurveError>)
        requires
            self.wf(),
        ensures
            in_domain(self.data_points@, soc.hundredths as int) ==> (r matches Ok(p)
                && p.watts == power_at_spec(self.data_points@, soc.hundredths as int)),
            !in_domain(self.data_points@, soc.hundredths as int) ==> r == Err::<
                Power,
                CurveError,
            >(CurveError::OutOfDomain),
    {
        let ghost ps = self.data_points@;
        let ghost soc_i = soc.hundredths as int;
        let n = self.data_points.len();
        let s = soc.hundredths;
        if s < self.data_points[0].state_of_charge.hundredths
            || s > self.data_points[n - 1].state_of_charge.hundredths {
            return Err(CurveError::OutOfDomain);
        }
        proof {
            lemma_bracket_props(ps, soc_i, 0);
        }
        let mut i: usize = 0;
        while i + 2 < n && s >= self.data_points[i + 1].state_of_charge.hundredths
            invariant
                self.wf(),
                ps == self.data_points@,
                n == ps.len(),
                0 <= i <= n - 2,
                in_domain(ps, soc_i),
                soc_i == s,
                soc_of(ps[i as int]) <= soc_i,
                bracket_from(ps, soc_i, 0) == bracket_from(ps, soc_i, i as int),
            decreases n - i,
        {
            i = i + 1;
        }
        let ghost b = bracket_from(ps, soc_i, 0);
        proof {
            assert(bracket_from(ps, soc_i, i as int) == i);
        }
        let a = self.data_points[i];
        let c = self.data_points[i + 1];
        if a.state_of_charge.hundredths == s {
            return Ok(a.charge_power);
        }
        if c.state_of_charge.hundredths == s {
            return Ok(c.charge_power);
        }
        proof {
            assert(soc_of(ps[b]) < soc_i < soc_of(ps[b + 1]));
            lemma_lerp_bounds(a, c, soc_i);
        }
        let y: u64 = (c.state_of_charge.hundredths - a.state_of_charge.hundredths) as u64;
        let x: u64 = (s - a.state_of_charge.hundredths) as u64;
        if c.charge_power.watts >= a.charge_power.watts {
            let d: u64 = (c.charge_power.watts - a.charge_power.watts) as u64;
            proof {
                lemma_mul_nonnegative(d as int, x as int);
                lemma_mul_inequality(x as int, y as int, d as int);
                lemma_div_of0(y as int);
                lemma_div_is_ordered(0, d as int * x as int, y as int);
                lemma_div_is_ordered(d as int * x as int, d as int * y as int, y as int);
                lemma_div_multiples_vanish(d as int, y as int);
                assert(d * x <= u64::MAX) by (nonlinear_arith)
                    requires
                        0 <= d <= POWER_LIMIT_WATTS,
                        0 <= x <= SOC_SCALE,
                ;
            }
            let q: u64 = (d * x) / y;
            Ok(Power { watts: a.charge_power.watts + (q as i64) })
        } else {
            let d: u64 = (a.charge_power.watts - c.charge_power.watts) as u64;
            proof {
                lemma_mul_nonnegative(d as int, x as int);
                lemma_mul_inequality(x as int, y as int, d as int);
                lemma_div_of0(y as int);
                lemma_div_is_ordered(0, d as int * x as int, y as int);
                lemma_div_is_ordered(d as int * x as int, d as int * y as int, y as int);
                lemma_div_multiples_vanish(d as int, y as int);
                assert(d * x <= u64::MAX) by (nonlinear_arith)
                    requires
                        0 <= d <= POWER_LIMIT_WATTS,
                        0 <= x <= SOC_SCALE,
                ;
            }
            let q: u64 = (d * x) / y;
            Ok(Power { watts: a.charge_power.watts - (q as i64) })
        }
    }

    /// The length-weighted trapezoidal average of the curve's power across
    /// its sampled span: the sum of the trapezoid areas over adjacent sample
    /// pairs, divided by the span's length.
    #[verifier::rlimit(50)]
    pub fn average_power(&self) -> (r: Power)
        requires
            self.wf(),
        ensures
            r.watts == average_power_spec(self.data_points@),
            0 <= r.watts <= POWER_LIMIT_WATTS,
    {
        let ghost ps = self.data_points@;
        let n = self.data_points.len();
        let mut sum: i64 = 0;
        let mut i: usize = 1;
        proof {
            lemma_weighted_sum_bounds(ps, 0);
        }
        while i < n
            invariant
                self.wf(),
                ps == self.data_points@,
                n == ps.len(),
                1 <= i <= n,
                sum == weighted_sum_to(ps, i - 1),
                0 <= sum <= 2 * POWER_LIMIT_WATTS * SOC_SCALE,
            decreases n - i,
        {
            let a = self.data_points[i - 1];
            let b = self.data_points[i];
            proof {
                lemma_weighted_sum_span_bound(ps, i as int);
                assert(0 <= (power_of(ps[i - 1]) + power_of(ps[i as int])) * (soc_of(ps[i as int])
                    - soc_of(ps[i - 1])) <= 2 * POWER_LIMIT_WATTS * SOC_SCALE) by (nonlinear_arith)
                    requires
                        0 <= power_of(ps[i - 1]) + power_of(ps[i as int]) <= 2 * POWER_LIMIT_WATTS,
                        0 <= soc_of(ps[i as int]) - soc_of(ps[i - 1]) <= SOC_SCALE,
                ;
            }
            let term: i64 = (a.charge_power.watts + b.charge_power.watts) * ((
            b.state_of_charge.hundredths - a.state_of_charge.hundredths) as i64);
            sum = sum + term;
            i = i + 1;
        }
        let first = self.data_points[0];
        let last = self.data_points[n - 1];
        proof {
            lemma_soc_increasing(ps, 0, n - 1);
            lemma_average_power_range(ps);
        }
        let span: u64 = (last.state_of_charge.hundredths - first.state_of_charge.hundredths) as u64;
        let q: u64 = (sum as u64) / (2 * span);
        proof {
            assert(q == average_power_spec(ps));
        }
        Power { watts: q as i64 }
    }

    /// Extracts the sub-range of the curve between two states of charge: a
    /// new valid curve whose boundary points are synthesized by interpolation
    /// and whose interior keeps every original sample strictly between the
    /// bounds. Returns `None` when the bounds are out of order or outside the
    /// parent's bracketing segments.
    pub fn sub_curve(&self, start: Percentage, end: Percentage) -> (r: Option<ChargeCurve>)
        requires
            self.wf(),
        ensures
            sub_curve_defined(self.data_points@, start.hundredths as int, end.hundredths as int)
                ==> (r matches Some(c) && c.data_points@ == sub_points_spec(
                self.data_points@,
                start.hundredths as int,
                end.hundredths as int,
            ) && c.wf()),
            !sub_curve_defined(self.data_points@, start.hundredths as int, end.hundredths as int)
                ==> r is None,
    {
        let ghost ps = self.data_points@;
        let ghost s = start.hundredths as int;
        let ghost e = end.hundredths as int;
        let n = self.data_points.len();
        if !(self.data_points[0].state_of_charge.hundredths <= start.hundredths
            && start.hundredths < end.hundredths
            && end.hundredths < self.data_points[n - 1].state_of_charge.hundredths) {
            return None;
        }
        let start_power = match self.power_at(start) {
            Ok(p) => p,
            Err(_) => unreached(),
        };
        let end_power = match self.power_at(end) {
            Ok(p) => p,
            Err(_) => unreached(),
        };
        let mut out: Vec<CurvePoint> = Vec::new();
        out.push(CurvePoint { state_of_charge: start, charge_power: start_power });
        let mut i: usize = 0;
        while i < n
            invariant
                self.wf(),
                ps == self.data_points@,
                n == ps.len(),
                0 <= i <= n,
                out@ == seq![
                    CurvePoint {
                        state_of_charge: Percentage { hundredths: s as u16 },
                        charge_power: Power { watts: power_at_spec(ps, s) as i64 },
                    },
                ] + mids_to(ps, s, e, i as int),
                s == start.hundredths as int,
                e == end.hundredths as int,
            decreases n - i,
        {
            let p = self.data_points[i];
            if start.hundredths < p.state_of_charge.hundredths
                && p.state_of_charge.hundredths < end.hundredths {
                out.push(p);
            }
            proof {
                assert(mids_to(ps, s, e, i + 1) == mids_to(ps, s, e, i as int) + if s < soc_of(
                    ps[i as int],
                ) && soc_of(ps[i as int]) < e {
                    seq![ps[i as int]]
                } else {
                    Seq::<CurvePoint>::empty()
                });
                assert(out@ == seq![
                    CurvePoint {
                        state_of_charge: Percentage { hundredths: s as u16 },
                        charge_power: Power { watts: power_at_spec(ps, s) as i64 },
                    },
                ] + mids_to(ps, s, e, i + 1));
            }
            i = i + 1;
        }
        out.push(CurvePoint { state_of_charge: end, charge_power: end_power });
        proof {
            assert(out@ == sub_points_spec(ps, s, e));
            lemma_sub_points_wf(ps, s, e);
        }
        Some(ChargeCurve { data_points: out })
    }
}

/// The extracted sub-range is itself a valid curve.
pub proof fn lemma_sub_points_wf(ps: Seq<CurvePoint>, s: int, e: int)
    requires
        points_wf(ps),
        sub_curve_defined(ps, s, e),
    ensures
        points_wf(sub_points_spec(ps, s, e)),
    {
    let sub = sub_points_spec(ps, s, e);
    let m = mids_to(ps, s, e, ps.len() as int);
    lemma_mids_props(ps, s, e, ps.len() as int);
    lemma_soc_increasing(ps, 0, ps.len() - 1);
    lemma_power_at_range(ps, s);
    lemma_power_at_range(ps, e);
    assert(soc_of(sub[0]) == s);
    assert(soc_of(sub[sub.len() - 1]) == e);
    assert forall|k: int| 0 <= k < sub.len() - 1 implies soc_of(#[trigger] sub[k]) < soc_of(
        sub[k + 1],
    ) by {
        if 1 <= k < sub.len() - 2 {
            assert(sub[k] == m[k - 1]);
            assert(sub[k + 1] == m[k]);
        } else if k == 0 && sub.len() > 2 {
            assert(sub[1] == m[0]);
        } else if k == sub.len() - 2 && sub.len() > 2 {
            assert(sub[k] == m[k - 1]);
        }
    }
}

/// Boundary consistency: a sub-curve agrees with its parent curve at both of
/// its boundary states of charge.
pub proof fn lemma_sub_curve_boundary(ps: Seq<CurvePoint>, s: int, e: int)
    requires
        points_wf(ps),
        sub_curve_defined(ps, s, e),
    ensures
        power_at_spec(sub_points_spec(ps, s, e), s) == power_at_spec(ps, s),
        power_at_spec(sub_points_spec(ps, s, e), e) == power_at_spec(ps, e),
{
    let sub = sub_points_spec(ps, s, e);
    lemma_sub_points_wf(ps, s, e);
    lemma_power_at_range(ps, s);
    lemma_power_at_range(ps, e);
    assert(soc_of(sub[0]) == s);
    assert(soc_of(sub[sub.len() - 1]) == e);
    lemma_power_at_sample(sub, 0);
    lemma_power_at_sample(sub, sub.len() - 1);
}

} // verus!
