//! Simulation of a diatomic molecule's bond length.
//!
//! A caller chooses a potential model and an element, a duration, a
//! timestep and a temperature; the module derives the initial state from
//! the temperature by equipartition, advances it with a fixed-timestep
//! velocity-Verlet integrator whose force law is the model's, and returns
//! six parallel series (time, displacement, distance, potential, kinetic
//! and total energy).  The distance series is the displacement series
//! shifted by a constant offset so that it is non-negative.
//!
//! Every quantity is an `Fx` fixed-point scalar, and every public function
//! is specified exactly against the spec-level mirror of the arithmetic.

use crate::elements::get_element_properties;
use crate::elements::spec_element_properties;
use crate::elements::ElementProperties;
use crate::fixed::clamp_i;
use crate::fixed::fabs;
use crate::fixed::fadd;
use crate::fixed::fcbrt;
use crate::fixed::fdiv;
use crate::fixed::fexp;
use crate::fixed::fln;
use crate::fixed::fmul;
use crate::fixed::fneg;
use crate::fixed::fold_min;
use crate::fixed::fold_min_spec;
use crate::fixed::fmin;
use crate::fixed::fpowi;
use crate::fixed::fsqrt;
use crate::fixed::fsub;
use crate::fixed::tdiv;
use crate::fixed::Fx;
use crate::fixed::HALF_UNITS;
use crate::fixed::SCALE;
use vstd::prelude::*;

verus! {

/// The closed set of potential models.
#[derive(Clone, Copy, PartialEq, Eq, Structural, Debug)]
pub enum SimModel {
    Harmonic,
    Morse,
    LennardJones,
}

/// The typed failures of a run; all are detected before integration
/// starts.
#[derive(Clone, Copy, PartialEq, Eq, Structural, Debug)]
pub enum SimError {
    /// The element symbol is absent from the property table.
    UnknownElement,
    /// The model name is outside the closed set of three.
    UnknownModel,
    /// The initial-state derivation hit a domain error (a negative
    /// square-root argument, a non-positive logarithm argument, or a
    /// degenerate well) for the chosen temperature.
    InvalidInitialCondition,
    /// A non-positive timestep, a duration below one timestep, or a step
    /// count beyond the enforced maximum.
    InvalidParameters,
}

/// Cap on the number of integration steps of one run, so that a caller's
/// duration/timestep ratio cannot demand unbounded memory.
pub const MAX_STEPS: u128 = 1_000_000;

pub const TWO_UNITS: i128 = 2_000_000_000_000;

pub const NEG_TWO_UNITS: i128 = -2_000_000_000_000;

pub const TWELVE_UNITS: i128 = 12_000_000_000_000;

/// Ten percent above one: the margin of the distance offset.
pub const OFFSET_FACTOR_UNITS: i128 = 1_100_000_000_000;

/// Largest scalar the cube root accepts.
pub const CBRT_DOM_UNITS: i128 = 100_000_000_000_000;

/// The model a name denotes, if any.
pub open spec fn spec_model(s: Seq<char>) -> Option<SimModel> {
    if s == "harmonic"@ {
        Some(SimModel::Harmonic)
    } else if s == "morse"@ {
        Some(SimModel::Morse)
    } else if s == "lennard-jones"@ {
        Some(SimModel::LennardJones)
    } else {
        None
    }
}

/// Resolve a model name against the closed set.
pub fn parse_model(model: &str) -> (r: Option<SimModel>)
    ensures
        r == spec_model(model@),
{
    let m: String = model.to_owned();
    if m == "harmonic".to_owned() {
        Some(SimModel::Harmonic)
    } else if m == "morse".to_owned() {
        Some(SimModel::Morse)
    } else if m == "lennard-jones".to_owned() {
        Some(SimModel::LennardJones)
    } else {
        None
    }
}

/// The caller's choice of model, element, duration, timestep and
/// temperature; immutable once constructed.
pub struct SimulationParameters {
    pub model: String,
    pub element: String,
    pub duration: Fx,
    pub timestep: Fx,
    pub temperature: Fx,
}

impl SimulationParameters {
    pub open spec fn wf(self) -> bool {
        self.duration.wf() && self.timestep.wf() && self.temperature.wf()
    }

    pub fn new(model: String, element: String, duration: Fx, timestep: Fx, temperature: Fx) -> (r:
        SimulationParameters)
        ensures
            r.model == model,
            r.element == element,
            r.duration == duration,
            r.timestep == timestep,
            r.temperature == temperature,
    {
        SimulationParameters { model, element, duration, timestep, temperature }
    }

    pub fn model(&self) -> (r: String)
        ensures
            r == self.model,
    {
        self.model.clone()
    }

    pub fn element(&self) -> (r: String)
        ensures
            r == self.element,
    {
        self.element.clone()
    }

    pub fn duration(&self) -> (r: Fx)
        ensures
            r == self.duration,
    {
        self.duration
    }

    pub fn timestep(&self) -> (r: Fx)
        ensures
            r == self.timestep,
    {
        self.timestep
    }

    pub fn temperature(&self) -> (r: Fx)
        ensures
            r == self.temperature,
    {
        self.temperature
    }
}

/// One snapshot of the integrator: eight scalars evolved in lockstep.
#[derive(Clone, Copy, PartialEq, Eq, Structural, Debug)]
pub struct SimulationState {
    pub time: Fx,
    pub displacement: Fx,
    pub force: Fx,
    pub acceleration: Fx,
    pub velocity: Fx,
    pub kinetic_e: Fx,
    pub potential_e: Fx,
    pub total_e: Fx,
}

impl SimulationState {
    pub open spec fn wf(self) -> bool {
        &&& self.time.wf()
        &&& self.displacement.wf()
        &&& self.force.wf()
        &&& self.acceleration.wf()
        &&& self.velocity.wf()
        &&& self.kinetic_e.wf()
        &&& self.potential_e.wf()
        &&& self.total_e.wf()
    }
}

/// The force of the chosen potential at displacement `r`.
pub open spec fn force_of(model: SimModel, p: ElementProperties, r: Fx) -> Fx {
    match model {
        SimModel::Harmonic => fmul(fneg(p.k_au), r),
        SimModel::Morse => {
            let e = fexp(fneg(fmul(p.alpha_au, r)));
            fmul(fmul(fmul(fmul(Fx { v: NEG_TWO_UNITS }, p.d_au), p.alpha_au), e), fsub(Fx { v: SCALE }, e))
        },
        SimModel::LennardJones => {
            let sden = fadd(r, p.rstr_au);
            let so = fdiv(p.rstr_au, sden);
            fmul(
                fmul(fdiv(Fx { v: TWELVE_UNITS }, sden), p.eps_au),
                fsub(fpowi(so, 12), fpowi(so, 6)),
            )
        },
    }
}

/// The potential energy of the chosen model at displacement `r`.
pub open spec fn potential_of(model: SimModel, p: ElementProperties, r: Fx) -> Fx {
    match model {
        SimModel::Harmonic => fmul(fmul(Fx { v: HALF_UNITS }, p.k_au), fpowi(r, 2)),
        SimModel::Morse => {
            let e = fexp(fneg(fmul(p.alpha_au, r)));
            fmul(p.d_au, fpowi(fsub(Fx { v: SCALE }, e), 2))
        },
        SimModel::LennardJones => {
            let sden = fadd(r, p.rstr_au);
            let so = fdiv(p.rstr_au, sden);
            fmul(
                p.eps_au,
                fadd(
                    fsub(fpowi(so, 12), fmul(Fx { v: TWO_UNITS }, fpowi(so, 6))),
                    Fx { v: SCALE },
                ),
            )
        },
    }
}

fn eval_force(model: SimModel, p: &ElementProperties, r: Fx) -> (f: Fx)
    requires
        p.wf(),
        r.wf(),
    ensures
        f == force_of(model, *p, r),
        f.wf(),
{
    match model {
        SimModel::Harmonic => p.k_au.negate().times(r),
        SimModel::Morse => {
            let e = p.alpha_au.times(r).negate().exp_fx();
            Fx { v: NEG_TWO_UNITS }.times(p.d_au).times(p.alpha_au).times(e).times(
                Fx { v: SCALE }.minus(e),
            )
        },
        SimModel::LennardJones => {
            let sden = r.plus(p.rstr_au);
            let so = p.rstr_au.div_by(sden);
            Fx { v: TWELVE_UNITS }.div_by(sden).times(p.eps_au).times(so.powi(12).minus(so.powi(6)))
        },
    }
}

fn eval_potential(model: SimModel, p: &ElementProperties, r: Fx) -> (u: Fx)
    requires
        p.wf(),
        r.wf(),
    ensures
        u == potential_of(model, *p, r),
        u.wf(),
{
    match model {
        SimModel::Harmonic => Fx { v: HALF_UNITS }.times(p.k_au).times(r.powi(2)),
        SimModel::Morse => {
            let e = p.alpha_au.times(r).negate().exp_fx();
            p.d_au.times(Fx { v: SCALE }.minus(e).powi(2))
        },
        SimModel::LennardJones => {
            let sden = r.plus(p.rstr_au);
            let so = p.rstr_au.div_by(sden);
            p.eps_au.times(
                so.powi(12).minus(Fx { v: TWO_UNITS }.times(so.powi(6))).plus(Fx { v: SCALE }),
            )
        },
    }
}

/// The state at time zero for an initial displacement `r0`: velocity and
/// kinetic energy are zero, force and potential follow the model's closed
/// forms, and the total energy equals the potential energy.
pub open spec fn state_at_zero(model: SimModel, p: ElementProperties, r0: Fx) -> SimulationState {
    let f0 = force_of(model, p, r0);
    let pe0 = potential_of(model, p, r0);
    SimulationState {
        time: Fx { v: 0 },
        displacement: r0,
        force: f0,
        acceleration: fdiv(f0, p.m_au),
        velocity: Fx { v: 0 },
        kinetic_e: Fx { v: 0 },
        potential_e: pe0,
        total_e: pe0,
    }
}

/// The thermal seed: the squared harmonic displacement drawn from
/// equipartition is `seed_per_k` times the temperature, already in atomic
/// length units; negative (a temperature below zero) means the square root
/// has no value.
pub open spec fn spec_seed_arg(p: ElementProperties, temp: Fx) -> Fx {
    fmul(p.seed_per_k, temp)
}

/// The initial state of the chosen model, or `None` on a domain error.
pub open spec fn init_state_spec(model: SimModel, p: ElementProperties, temp: Fx) -> Option<
    SimulationState,
> {
    match model {
        SimModel::Harmonic => {
            let arg = spec_seed_arg(p, temp);
            if arg.v < 0 {
                None
            } else {
                Some(state_at_zero(model, p, fsqrt(arg)))
            }
        },
        SimModel::Morse => {
            if p.d_au.v <= 0 {
                None
            } else {
                let arg = fmul(p.morse_per_k, temp);
                if arg.v < 0 {
                    None
                } else {
                    let base = fsub(Fx { v: SCALE }, fsqrt(arg));
                    if base.v <= 0 {
                        None
                    } else {
                        Some(state_at_zero(model, p, fdiv(fln(base), fneg(p.alpha_au))))
                    }
                }
            }
        },
        SimModel::LennardJones => {
            let arg = spec_seed_arg(p, temp);
            if arg.v < 0 {
                None
            } else {
                let r0h = fsqrt(arg);
                let two_eps = fmul(Fx { v: TWO_UNITS }, p.eps_au);
                if two_eps.v <= 0 || two_eps.v > CBRT_DOM_UNITS {
                    None
                } else {
                    let tw = fsqrt(fsqrt(fcbrt(two_eps)));
                    let inner = fadd(fmul(fsqrt(p.k_au), r0h), fsqrt(two_eps));
                    if inner.v <= 0 || inner.v > CBRT_DOM_UNITS {
                        None
                    } else {
                        let im = fdiv(Fx { v: SCALE }, fsqrt(fcbrt(inner)));
                        let r0 = fmul(p.rstr_au, fsub(fmul(tw, im), Fx { v: SCALE }));
                        Some(state_at_zero(model, p, r0))
                    }
                }
            }
        },
    }
}

impl SimulationState {
    /// Harmonic initial state: displacement from equipartition,
    /// `r0 = sqrt(seed_per_k * T)`; fails only when the square-root
    /// argument is negative.
    pub fn init_harmonic_oscillator(properties: ElementProperties, temperature: Fx) -> (r: Result<
        SimulationState,
        SimError,
    >)
        requires
            properties.wf(),
            temperature.wf(),
        ensures
            (match r {
                Ok(s) => init_state_spec(SimModel::Harmonic, properties, temperature) == Some(s)
                    && s.wf(),
                Err(e) => init_state_spec(SimModel::Harmonic, properties, temperature) is None && e
                    == SimError::InvalidInitialCondition,
            }),
    {
        let arg = properties.seed_per_k.times(temperature);
        if arg.v < 0 {
            return Err(SimError::InvalidInitialCondition);
        }
        let r0 = arg.sqrt_fx();
        Ok(Self::at_zero(SimModel::Harmonic, &properties, r0))
    }

    /// Morse initial state: the harmonic seed inverted through the Morse
    /// energy relation, `r0 = ln(1 - sqrt(kB T / d_si)) / (-alpha)`; fails
    /// on a degenerate well or when the inversion leaves its domain
    /// (temperature at or beyond the well depth).
    pub fn init_morse_potential(properties: ElementProperties, temperature: Fx) -> (r: Result<
        SimulationState,
        SimError,
    >)
        requires
            properties.wf(),
            temperature.wf(),
        ensures
            (match r {
                Ok(s) => init_state_spec(SimModel::Morse, properties, temperature) == Some(s)
                    && s.wf(),
                Err(e) => init_state_spec(SimModel::Morse, properties, temperature) is None && e
                    == SimError::InvalidInitialCondition,
            }),
    {
        if properties.d_au.v <= 0 {
            return Err(SimError::InvalidInitialCondition);
        }
        let arg = properties.morse_per_k.times(temperature);
        if arg.v < 0 {
            return Err(SimError::InvalidInitialCondition);
        }
        let base = Fx { v: SCALE }.minus(arg.sqrt_fx());
        if base.v <= 0 {
            return Err(SimError::InvalidInitialCondition);
        }
        let r0 = base.ln_fx().div_by(properties.alpha_au.negate());
        Ok(Self::at_zero(SimModel::Morse, &properties, r0))
    }

    /// Lennard-Jones initial state: the harmonic seed mapped through the
    /// closed-form 12-6 displacement relation against `r*` and the well
    /// depth; fails when the seed is negative, the well is degenerate, or
    /// a root argument leaves the representable domain.
    pub fn init_lennard_jones(properties: ElementProperties, temperature: Fx) -> (r: Result<
        SimulationState,
        SimError,
    >)
        requires
            properties.wf(),
            temperature.wf(),
        ensures
            (match r {
                Ok(s) => init_state_spec(SimModel::LennardJones, properties, temperature) == Some(
                    s,
                ) && s.wf(),
                Err(e) => init_state_spec(SimModel::LennardJones, properties, temperature) is None
                    && e == SimError::InvalidInitialCondition,
            }),
    {
        let arg = properties.seed_per_k.times(temperature);
        if arg.v < 0 {
            return Err(SimError::InvalidInitialCondition);
        }
        let r0h = arg.sqrt_fx();
        let two_eps = Fx { v: TWO_UNITS }.times(properties.eps_au);
        if two_eps.v <= 0 || two_eps.v > CBRT_DOM_UNITS {
            return Err(SimError::InvalidInitialCondition);
        }
        let tw = two_eps.cbrt_fx().sqrt_fx().sqrt_fx();
        let inner = properties.k_au.sqrt_fx().times(r0h).plus(two_eps.sqrt_fx());
        if inner.v <= 0 || inner.v > CBRT_DOM_UNITS {
            return Err(SimError::InvalidInitialCondition);
        }
        let im = Fx { v: SCALE }.div_by(inner.cbrt_fx().sqrt_fx());
        let r0 = properties.rstr_au.times(tw.times(im).minus(Fx { v: SCALE }));
        Ok(Self::at_zero(SimModel::LennardJones, &properties, r0))
    }

    fn at_zero(model: SimModel, p: &ElementProperties, r0: Fx) -> (s: SimulationState)
        requires
            p.wf(),
            r0.wf(),
        ensures
            s == state_at_zero(model, *p, r0),
            s.wf(),
    {
        let f0 = eval_force(model, p, r0);
        let pe0 = eval_potential(model, p, r0);
        SimulationState {
            time: Fx { v: 0 },
            displacement: r0,
            force: f0,
            acceleration: f0.div_by(p.m_au),
            velocity: Fx { v: 0 },
            kinetic_e: Fx { v: 0 },
            potential_e: pe0,
            total_e: pe0,
        }
    }
}

/// One velocity-Verlet step: half-step position, force and acceleration
/// there, velocity update, full position update, force, acceleration and
/// energies at the new position, and the time advanced by `dt`.
pub open spec fn step_spec(model: SimModel, p: ElementProperties, dt: Fx, s: SimulationState) -> SimulationState {
    let half = Fx { v: HALF_UNITS };
    let rhalf = fadd(s.displacement, fmul(fmul(s.velocity, dt), half));
    let f1 = force_of(model, p, rhalf);
    let a1 = fdiv(f1, p.m_au);
    let v = fadd(s.velocity, fmul(a1, dt));
    let rnew = fadd(rhalf, fmul(fmul(v, dt), half));
    let f2 = force_of(model, p, rnew);
    let ke = fmul(fmul(fmul(half, p.m_au), v), v);
    let pe = potential_of(model, p, rnew);
    SimulationState {
        time: fadd(s.time, dt),
        displacement: rnew,
        force: f2,
        acceleration: fdiv(f2, p.m_au),
        velocity: v,
        kinetic_e: ke,
        potential_e: pe,
        total_e: fadd(ke, pe),
    }
}

/// The state after `n` steps from `s0`.
pub open spec fn run_state(
    model: SimModel,
    p: ElementProperties,
    dt: Fx,
    s0: SimulationState,
    n: nat,
) -> SimulationState
    decreases n,
{
    if n == 0 {
        s0
    } else {
        step_spec(model, p, dt, run_state(model, p, dt, s0, (n - 1) as nat))
    }
}

fn advance(model: SimModel, p: &ElementProperties, dt: Fx, s: SimulationState) -> (t:
    SimulationState)
    requires
        p.wf(),
        dt.wf(),
        s.wf(),
    ensures
        t == step_spec(model, *p, dt, s),
        t.wf(),
{
    let half = Fx { v: HALF_UNITS };
    let rhalf = s.displacement.plus(s.velocity.times(dt).times(half));
    let f1 = eval_force(model, p, rhalf);
    let a1 = f1.div_by(p.m_au);
    let v = s.velocity.plus(a1.times(dt));
    let rnew = rhalf.plus(v.times(dt).times(half));
    let f2 = eval_force(model, p, rnew);
    let ke = half.times(p.m_au).times(v).times(v);
    let pe = eval_potential(model, p, rnew);
    SimulationState {
        time: s.time.plus(dt),
        displacement: rnew,
        force: f2,
        acceleration: f2.div_by(p.m_au),
        velocity: v,
        kinetic_e: ke,
        potential_e: pe,
        total_e: ke.plus(pe),
    }
}

/// Every field a step produces comes out of a clamping operation, so a
/// step of any state is in range.
proof fn lemma_step_wf(model: SimModel, p: ElementProperties, dt: Fx, s: SimulationState)
    requires
        p.wf(),
    ensures
        step_spec(model, p, dt, s).wf(),
{
    let half = Fx { v: HALF_UNITS };
    let rhalf = fadd(s.displacement, fmul(fmul(s.velocity, dt), half));
    let f1 = force_of(model, p, rhalf);
    let a1 = fdiv(f1, p.m_au);
    let v = fadd(s.velocity, fmul(a1, dt));
    let rnew = fadd(rhalf, fmul(fmul(v, dt), half));
    lemma_force_wf(model, p, rhalf);
    lemma_force_wf(model, p, rnew);
    lemma_potential_wf(model, p, rnew);
}

proof fn lemma_force_wf(model: SimModel, p: ElementProperties, r: Fx)
    ensures
        force_of(model, p, r).wf(),
{
}

proof fn lemma_potential_wf(model: SimModel, p: ElementProperties, r: Fx)
    ensures
        potential_of(model, p, r).wf(),
{
}

/// States along a run stay in range.
proof fn lemma_run_state_wf(
    model: SimModel,
    p: ElementProperties,
    dt: Fx,
    s0: SimulationState,
    n: nat,
)
    requires
        p.wf(),
        s0.wf(),
    ensures
        run_state(model, p, dt, s0, n).wf(),
    decreases n,
{
    if n > 0 {
        lemma_run_state_wf(model, p, dt, s0, (n - 1) as nat);
        lemma_step_wf(model, p, dt, run_state(model, p, dt, s0, (n - 1) as nat));
    }
}

proof fn lemma_fold_min_wf(s: Seq<Fx>, acc: Fx)
    requires
        acc.wf(),
        forall|i: int| 0 <= i < s.len() ==> (#[trigger] s[i]).wf(),
    ensures
        fold_min_spec(s, acc).wf(),
    decreases s.len(),
{
    if s.len() > 0 {
        assert(s[0].wf());
        assert forall|i: int| 0 <= i < s.skip(1).len() implies (#[trigger] s.skip(1)[i]).wf() by {
            assert(s.skip(1)[i] == s[i + 1]);
        }
        lemma_fold_min_wf(s.skip(1), fmin(acc, s[0]));
    }
}

proof fn lemma_fold_min_le(s: Seq<Fx>, acc: Fx)
    ensures
        fold_min_spec(s, acc).v <= acc.v,
        forall|i: int| 0 <= i < s.len() ==> fold_min_spec(s, acc).v <= (#[trigger] s[i]).v,
    decreases s.len(),
{
    if s.len() > 0 {
        lemma_fold_min_le(s.skip(1), fmin(acc, s[0]));
        assert forall|i: int| 0 <= i < s.len() implies fold_min_spec(s, acc).v <= (
        #[trigger] s[i]).v by {
            if i == 0 {
                assert(fold_min_spec(s, acc).v <= fmin(acc, s[0]).v);
            } else {
                assert(s.skip(1)[i - 1] == s[i]);
            }
        }
    }
}

/// The displacement series of a run, one sample per state.
pub open spec fn displacement_seq(
    model: SimModel,
    p: ElementProperties,
    dt: Fx,
    s0: SimulationState,
    len: nat,
) -> Seq<Fx> {
    Seq::new(len, |i: int| run_state(model, p, dt, s0, i as nat).displacement)
}

/// The constant shift applied to the distance series: `1.1 * |min|` when
/// the smallest pre-offset distance is negative, zero otherwise.
pub open spec fn offset_spec(
    model: SimModel,
    p: ElementProperties,
    dt: Fx,
    s0: SimulationState,
    steps: nat,
) -> Fx {
    let m = fold_min_spec(displacement_seq(model, p, dt, s0, (steps + 1) as nat), s0.displacement);
    if m.v < 0 {
        fmul(fabs(m), Fx { v: OFFSET_FACTOR_UNITS })
    } else {
        Fx { v: 0 }
    }
}

/// Six parallel series of one run, indexed by step number; all have
/// length `steps + 1`.
pub struct SimulationResult {
    pub times: Vec<Fx>,
    pub displacements: Vec<Fx>,
    pub distances: Vec<Fx>,
    pub potential_energies: Vec<Fx>,
    pub kinetic_energies: Vec<Fx>,
    pub total_energies: Vec<Fx>,
}

/// What a run of `steps` steps from `s0` at timestep `dt` returns: each
/// series samples the corresponding field of the step states, the distance
/// series is the displacement series shifted by the offset, and no
/// distance is negative.
pub open spec fn run_result_matches(
    r: SimulationResult,
    model: SimModel,
    p: ElementProperties,
    s0: SimulationState,
    dt: Fx,
    steps: nat,
) -> bool {
    let len = (steps + 1) as nat;
    let off = offset_spec(model, p, dt, s0, steps);
    &&& r.times@ == Seq::new(len, |i: int| run_state(model, p, dt, s0, i as nat).time)
    &&& r.displacements@ == displacement_seq(model, p, dt, s0, len)
    &&& r.distances@ == Seq::new(
        len,
        |i: int| fadd(run_state(model, p, dt, s0, i as nat).displacement, off),
    )
    &&& r.potential_energies@ == Seq::new(
        len,
        |i: int| run_state(model, p, dt, s0, i as nat).potential_e,
    )
    &&& r.kinetic_energies@ == Seq::new(
        len,
        |i: int| run_state(model, p, dt, s0, i as nat).kinetic_e,
    )
    &&& r.total_energies@ == Seq::new(
        len,
        |i: int| run_state(model, p, dt, s0, i as nat).total_e,
    )
    &&& forall|i: int| 0 <= i < r.distances@.len() ==> (#[trigger] r.distances@[i]).v >= 0
}

/// Distance-offset law: the shift makes every distance non-negative, and
/// each shifted sample is the displacement sample plus the one constant
/// offset (`1.1 * |min|` when the pre-offset minimum was negative, zero
/// otherwise).
pub proof fn lemma_distance_offset(
    model: SimModel,
    p: ElementProperties,
    dt: Fx,
    s0: SimulationState,
    steps: nat,
)
    requires
        p.wf(),
        s0.wf(),
    ensures
        forall|i: int|
            0 <= i <= steps ==> (#[trigger] fadd(
                run_state(model, p, dt, s0, i as nat).displacement,
                offset_spec(model, p, dt, s0, steps),
            )).v >= 0,
        fold_min_spec(displacement_seq(model, p, dt, s0, (steps + 1) as nat), s0.displacement).v
            < 0 ==> offset_spec(model, p, dt, s0, steps) == fmul(
            fabs(fold_min_spec(displacement_seq(model, p, dt, s0, (steps + 1) as nat), s0.displacement)),
            (Fx { v: OFFSET_FACTOR_UNITS }),
        ),
        fold_min_spec(displacement_seq(model, p, dt, s0, (steps + 1) as nat), s0.displacement).v
            >= 0 ==> offset_spec(model, p, dt, s0, steps) == (Fx { v: 0 }),
{
    let len = (steps + 1) as nat;
    let dseq = displacement_seq(model, p, dt, s0, len);
    let m = fold_min_spec(dseq, s0.displacement);
    let off = offset_spec(model, p, dt, s0, steps);
    assert forall|i: int| 0 <= i < dseq.len() implies (#[trigger] dseq[i]).wf() by {
        lemma_run_state_wf(model, p, dt, s0, i as nat);
    }
    lemma_fold_min_wf(dseq, s0.displacement);
    lemma_fold_min_le(dseq, s0.displacement);
    if m.v < 0 {
        let a = -m.v;
        assert(off == fmul(fabs(m), Fx { v: OFFSET_FACTOR_UNITS }));
        assert(off.v == clamp_i(tdiv(a * OFFSET_FACTOR_UNITS, SCALE as int)));
        assert(tdiv(a * OFFSET_FACTOR_UNITS, SCALE as int) == (a * OFFSET_FACTOR_UNITS) / (
        SCALE as int));
        vstd::arithmetic::div_mod::lemma_div_multiples_vanish(a as int, SCALE as int);
        vstd::arithmetic::div_mod::lemma_div_is_ordered(
            (SCALE as int) * (a as int),
            a * OFFSET_FACTOR_UNITS,
            SCALE as int,
        );
        assert(off.v >= a);
    }
    assert forall|i: int|
        0 <= i <= steps implies (#[trigger] fadd(
        run_state(model, p, dt, s0, i as nat).displacement,
        off,
    )).v >= 0 by {
        lemma_run_state_wf(model, p, dt, s0, i as nat);
        assert(dseq[i] == run_state(model, p, dt, s0, i as nat).displacement);
        assert(m.v <= dseq[i].v);
    }
}

/// Run the integrator for `steps` steps and assemble the six series,
/// including the distance shift.
pub fn run_simulation(
    model: SimModel,
    properties: &ElementProperties,
    state0: SimulationState,
    timestep: Fx,
    steps: usize,
) -> (r: SimulationResult)
    requires
        properties.wf(),
        state0.wf(),
        timestep.wf(),
    ensures
        run_result_matches(r, model, *properties, state0, timestep, steps as nat),
{
    let ghost p = *properties;
    let mut times: Vec<Fx> = Vec::new();
    let mut displacements: Vec<Fx> = Vec::new();
    let mut distances: Vec<Fx> = Vec::new();
    let mut potential_energies: Vec<Fx> = Vec::new();
    let mut kinetic_energies: Vec<Fx> = Vec::new();
    let mut total_energies: Vec<Fx> = Vec::new();
    times.push(state0.time);
    displacements.push(state0.displacement);
    distances.push(state0.displacement);
    potential_energies.push(state0.potential_e);
    kinetic_energies.push(state0.kinetic_e);
    total_energies.push(state0.total_e);
    let mut cur = state0;
    for n in 0..steps
        invariant
            properties.wf(),
            state0.wf(),
            timestep.wf(),
            p == *properties,
            cur == run_state(model, p, timestep, state0, n as nat),
            cur.wf(),
            times@.len() == n + 1,
            displacements@.len() == n + 1,
            distances@.len() == n + 1,
            potential_energies@.len() == n + 1,
            kinetic_energies@.len() == n + 1,
            total_energies@.len() == n + 1,
            forall|j: int|
                0 <= j <= n ==> (#[trigger] times@[j]) == run_state(
                    model,
                    p,
                    timestep,
                    state0,
                    j as nat,
                ).time,
            forall|j: int|
                0 <= j <= n ==> (#[trigger] displacements@[j]) == run_state(
                    model,
                    p,
                    timestep,
                    state0,
                    j as nat,
                ).displacement,
            forall|j: int|
                0 <= j <= n ==> (#[trigger] distances@[j]) == run_state(
                    model,
                    p,
                    timestep,
                    state0,
                    j as nat,
                ).displacement,
            forall|j: int|
                0 <= j <= n ==> (#[trigger] potential_energies@[j]) == run_state(
                    model,
                    p,
                    timestep,
                    state0,
                    j as nat,
                ).potential_e,
            forall|j: int|
                0 <= j <= n ==> (#[trigger] kinetic_energies@[j]) == run_state(
                    model,
                    p,
                    timestep,
                    state0,
                    j as nat,
                ).kinetic_e,
            forall|j: int|
                0 <= j <= n ==> (#[trigger] total_energies@[j]) == run_state(
                    model,
                    p,
                    timestep,
                    state0,
                    j as nat,
                ).total_e,
    {
        cur = advance(model, properties, timestep, cur);
        proof {
            assert(run_state(model, p, timestep, state0, (n + 1) as nat) == step_spec(
                model,
                p,
                timestep,
                run_state(model, p, timestep, state0, n as nat),
            ));
        }
        times.push(cur.time);
        displacements.push(cur.displacement);
        distances.push(cur.displacement);
        potential_energies.push(cur.potential_e);
        kinetic_energies.push(cur.kinetic_e);
        total_energies.push(cur.total_e);
    }
    let ghost len = (steps + 1) as nat;
    proof {
        assert(distances@ =~= displacement_seq(model, p, timestep, state0, len));
        assert(run_state(model, p, timestep, state0, 0) == state0);
    }
    let dfirst = distances[0];
    let m = fold_min(&distances, dfirst);
    proof {
        assert(fold_min_spec(distances@, dfirst) == fold_min_spec(
            distances@.skip(1),
            fmin(dfirst, distances@[0]),
        ));
        assert forall|i: int| 0 <= i < distances@.len() implies (#[trigger] distances@[i]).wf() by {
            lemma_run_state_wf(model, p, timestep, state0, i as nat);
        }
        lemma_fold_min_wf(distances@, dfirst);
    }
    let off = if m.v < 0 {
        m.abs_fx().times(Fx { v: OFFSET_FACTOR_UNITS })
    } else {
        Fx { v: 0 }
    };
    proof {
        assert(off == offset_spec(model, p, timestep, state0, steps as nat));
        lemma_distance_offset(model, p, timestep, state0, steps as nat);
    }
    let total = distances.len();
    let mut shifted: Vec<Fx> = Vec::new();
    for j in 0..total
        invariant
            properties.wf(),
            state0.wf(),
            timestep.wf(),
            p == *properties,
            off.wf(),
            total == distances@.len(),
            total == steps + 1,
            shifted@.len() == j,
            forall|t: int|
                0 <= t < total ==> (#[trigger] distances@[t]) == run_state(
                    model,
                    p,
                    timestep,
                    state0,
                    t as nat,
                ).displacement,
            forall|t: int|
                0 <= t < j ==> (#[trigger] shifted@[t]) == fadd(
                    run_state(model, p, timestep, state0, t as nat).displacement,
                    off,
                ),
    {
        let d = distances[j];
        proof {
            lemma_run_state_wf(model, p, timestep, state0, j as nat);
        }
        shifted.push(d.plus(off));
    }
    let r = SimulationResult {
        times,
        displacements,
        distances: shifted,
        potential_energies,
        kinetic_energies,
        total_energies,
    };
    proof {
        let offg = offset_spec(model, p, timestep, state0, steps as nat);
        assert(r.times@ =~= Seq::new(
            len,
            |i: int| run_state(model, p, timestep, state0, i as nat).time,
        ));
        assert(r.displacements@ =~= displacement_seq(model, p, timestep, state0, len));
        assert(r.distances@ =~= Seq::new(
            len,
            |i: int| fadd(run_state(model, p, timestep, state0, i as nat).displacement, offg),
        ));
        assert(r.potential_energies@ =~= Seq::new(
            len,
            |i: int| run_state(model, p, timestep, state0, i as nat).potential_e,
        ));
        assert(r.kinetic_energies@ =~= Seq::new(
            len,
            |i: int| run_state(model, p, timestep, state0, i as nat).kinetic_e,
        ));
        assert(r.total_energies@ =~= Seq::new(
            len,
            |i: int| run_state(model, p, timestep, state0, i as nat).total_e,
        ));
    }
    r
}

/// The number of integration steps of valid parameters:
/// `floor(duration / timestep)`.
pub open spec fn spec_steps(duration: Fx, timestep: Fx) -> int {
    duration.v / timestep.v
}

/// Valid run parameters: a positive timestep, a duration of at least one
/// timestep, and a step count within the enforced cap.
pub open spec fn params_valid(duration: Fx, timestep: Fx) -> bool {
    &&& timestep.v > 0
    &&& duration.v >= timestep.v
    &&& spec_steps(duration, timestep) <= MAX_STEPS
}

fn compute_steps(duration: Fx, timestep: Fx) -> (n: Option<usize>)
    requires
        duration.wf(),
        timestep.wf(),
    ensures
        (match n {
            Some(k) => params_valid(duration, timestep) && k == spec_steps(duration, timestep),
            None => !params_valid(duration, timestep),
        }),
{
    if timestep.v <= 0 {
        return None;
    }
    if duration.v < timestep.v {
        return None;
    }
    let q: u128 = (duration.v as u128) / (timestep.v as u128);
    if q > MAX_STEPS {
        return None;
    }
    Some(q as usize)
}

/// Integrate the harmonic oscillator from `state` over the duration and
/// timestep in `params` (the model and temperature fields are not read
/// here; the state is already initial).
pub fn simulate_harmonic_oscillator(state: SimulationState, params: &SimulationParameters) -> (r:
    Result<SimulationResult, SimError>)
    requires
        state.wf(),
        params.wf(),
    ensures
        spec_element_properties(params.element@) is None ==> r == Err::<
            SimulationResult,
            SimError,
        >(SimError::UnknownElement),
        spec_element_properties(params.element@) is Some && !params_valid(
            params.duration,
            params.timestep,
        ) ==> r == Err::<SimulationResult, SimError>(SimError::InvalidParameters),
        spec_element_properties(params.element@) is Some && params_valid(
            params.duration,
            params.timestep,
        ) ==> r is Ok && run_result_matches(
            r->Ok_0,
            SimModel::Harmonic,
            spec_element_properties(params.element@)->Some_0,
            state,
            params.timestep,
            spec_steps(params.duration, params.timestep) as nat,
        ),
{
    let properties = match get_element_properties(params.element.as_str()) {
        Some(p) => p,
        None => { return Err(SimError::UnknownElement) },
    };
    let steps = match compute_steps(params.duration, params.timestep) {
        Some(k) => k,
        None => { return Err(SimError::InvalidParameters) },
    };
    Ok(run_simulation(SimModel::Harmonic, &properties, state, params.timestep, steps))
}

/// Integrate the Morse potential from `state` over the duration and
/// timestep in `params`.
pub fn simulate_morse_potential(state: SimulationState, params: &SimulationParameters) -> (r:
    Result<SimulationResult, SimError>)
    requires
        state.wf(),
        params.wf(),
    ensures
        spec_element_properties(params.element@) is None ==> r == Err::<
            SimulationResult,
            SimError,
        >(SimError::UnknownElement),
        spec_element_properties(params.element@) is Some && !params_valid(
            params.duration,
            params.timestep,
        ) ==> r == Err::<SimulationResult, SimError>(SimError::InvalidParameters),
        spec_element_properties(params.element@) is Some && params_valid(
            params.duration,
            params.timestep,
        ) ==> r is Ok && run_result_matches(
            r->Ok_0,
            SimModel::Morse,
            spec_element_properties(params.element@)->Some_0,
            state,
            params.timestep,
            spec_steps(params.duration, params.timestep) as nat,
        ),
{
    let properties = match get_element_properties(params.element.as_str()) {
        Some(p) => p,
        None => { return Err(SimError::UnknownElement) },
    };
    let steps = match compute_steps(params.duration, params.timestep) {
        Some(k) => k,
        None => { return Err(SimError::InvalidParameters) },
    };
    Ok(run_simulation(SimModel::Morse, &properties, state, params.timestep, steps))
}

/// Integrate the Lennard-Jones potential from `state` over the duration
/// and timestep in `params`.
pub fn simulate_lennard_jones(state: SimulationState, params: &SimulationParameters) -> (r: Result<
    SimulationResult,
    SimError,
>)
    requires
        state.wf(),
        params.wf(),
    ensures
        spec_element_properties(params.element@) is None ==> r == Err::<
            SimulationResult,
            SimError,
        >(SimError::UnknownElement),
        spec_element_properties(params.element@) is Some && !params_valid(
            params.duration,
            params.timestep,
        ) ==> r == Err::<SimulationResult, SimError>(SimError::InvalidParameters),
        spec_element_properties(params.element@) is Some && params_valid(
            params.duration,
            params.timestep,
        ) ==> r is Ok && run_result_matches(
            r->Ok_0,
            SimModel::LennardJones,
            spec_element_properties(params.element@)->Some_0,
            state,
            params.timestep,
            spec_steps(params.duration, params.timestep) as nat,
        ),
{
    let properties = match get_element_properties(params.element.as_str()) {
        Some(p) => p,
        None => { return Err(SimError::UnknownElement) },
    };
    let steps = match compute_steps(params.duration, params.timestep) {
        Some(k) => k,
        None => { return Err(SimError::InvalidParameters) },
    };
    Ok(run_simulation(SimModel::LennardJones, &properties, state, params.timestep, steps))
}

/// `res` is the run that `params` describes: the element resolves, the
/// model name is one of the three, the parameters are valid, the initial
/// state derives from the temperature without a domain error, and the six
/// series match the velocity-Verlet run from that state.
pub open spec fn is_simulation_of(res: SimulationResult, params: SimulationParameters) -> bool {
    let lookup = spec_element_properties(params.element@);
    let model = spec_model(params.model@);
    &&& lookup is Some
    &&& model is Some
    &&& params_valid(params.duration, params.timestep)
    &&& init_state_spec(model->Some_0, lookup->Some_0, params.temperature) is Some
    &&& run_result_matches(
        res,
        model->Some_0,
        lookup->Some_0,
        init_state_spec(model->Some_0, lookup->Some_0, params.temperature)->Some_0,
        params.timestep,
        spec_steps(params.duration, params.timestep) as nat,
    )
}

/// Run one full simulation: resolve the element, resolve the model,
/// validate duration and timestep, derive the initial state from the
/// temperature, integrate, and shift the distance series.  The checks
/// happen in that order, so the first failing one names the error.
pub fn simulate_molecule(params: &SimulationParameters) -> (r: Result<SimulationResult, SimError>)
    requires
        params.wf(),
    ensures
        spec_element_properties(params.element@) is None ==> r == Err::<
            SimulationResult,
            SimError,
        >(SimError::UnknownElement),
        spec_element_properties(params.element@) is Some && spec_model(params.model@) is None
            ==> r == Err::<SimulationResult, SimError>(SimError::UnknownModel),
        spec_element_properties(params.element@) is Some && spec_model(params.model@) is Some
            && !params_valid(params.duration, params.timestep) ==> r == Err::<
            SimulationResult,
            SimError,
        >(SimError::InvalidParameters),
        spec_element_properties(params.element@) is Some && spec_model(params.model@) is Some
            && params_valid(params.duration, params.timestep) && init_state_spec(
            spec_model(params.model@)->Some_0,
            spec_element_properties(params.element@)->Some_0,
            params.temperature,
        ) is None ==> r == Err::<SimulationResult, SimError>(SimError::InvalidInitialCondition),
        spec_element_properties(params.element@) is Some && spec_model(params.model@) is Some
            && params_valid(params.duration, params.timestep) && init_state_spec(
            spec_model(params.model@)->Some_0,
            spec_element_properties(params.element@)->Some_0,
            params.temperature,
        ) is Some ==> r is Ok && is_simulation_of(r->Ok_0, *params),
        r is Ok ==> r->Ok_0.times@.len() == spec_steps(params.duration, params.timestep) + 1,
{
    let properties = match get_element_properties(params.element.as_str()) {
        Some(p) => p,
        None => { return Err(SimError::UnknownElement) },
    };
    let model = match parse_model(params.model.as_str()) {
        Some(m) => m,
        None => { return Err(SimError::UnknownModel) },
    };
    match compute_steps(params.duration, params.timestep) {
        Some(_) => (),
        None => { return Err(SimError::InvalidParameters) },
    };
    let initial = match model {
        SimModel::Harmonic => SimulationState::init_harmonic_oscillator(
            properties,
            params.temperature,
        ),
        SimModel::Morse => SimulationState::init_morse_potential(properties, params.temperature),
        SimModel::LennardJones => SimulationState::init_lennard_jones(
            properties,
            params.temperature,
        ),
    };
    let state0 = match initial {
        Ok(s) => s,
        Err(e) => { return Err(e) },
    };
    match model {
        SimModel::Harmonic => simulate_harmonic_oscillator(state0, params),
        SimModel::Morse => simulate_morse_potential(state0, params),
        SimModel::LennardJones => simulate_lennard_jones(state0, params),
    }
}

/// Initial-energy law: whenever an initial state derives from a
/// temperature, its clock and velocity are zero, its kinetic energy is
/// zero, and its total energy equals its potential energy.
pub proof fn lemma_initial_energy(model: SimModel, p: ElementProperties, temp: Fx)
    requires
        init_state_spec(model, p, temp) is Some,
    ensures
        (init_state_spec(model, p, temp)->Some_0).time.v == 0,
        (init_state_spec(model, p, temp)->Some_0).velocity.v == 0,
        (init_state_spec(model, p, temp)->Some_0).kinetic_e.v == 0,
        (init_state_spec(model, p, temp)->Some_0).potential_e == (init_state_spec(
            model,
            p,
            temp,
        )->Some_0).total_e,
{
}

/// Determinism law: two results of the same parameters carry identical
/// sequences, sample for sample.
pub proof fn lemma_simulation_deterministic(
    params: SimulationParameters,
    r1: SimulationResult,
    r2: SimulationResult,
)
    requires
        is_simulation_of(r1, params),
        is_simulation_of(r2, params),
    ensures
        r1.times@ == r2.times@,
        r1.displacements@ == r2.displacements@,
        r1.distances@ == r2.distances@,
        r1.potential_energies@ == r2.potential_energies@,
        r1.kinetic_energies@ == r2.kinetic_energies@,
        r1.total_energies@ == r2.total_energies@,
{
}

/// Sample-count law: every run of valid parameters yields exactly
/// `floor(duration / timestep) + 1` samples in each of the six series.
pub proof fn lemma_sample_count(params: SimulationParameters, r: SimulationResult)
    requires
        is_simulation_of(r, params),
    ensures
        r.times@.len() == spec_steps(params.duration, params.timestep) + 1,
        r.displacements@.len() == r.times@.len(),
        r.distances@.len() == r.times@.len(),
        r.potential_energies@.len() == r.times@.len(),
        r.kinetic_energies@.len() == r.times@.len(),
        r.total_energies@.len() == r.times@.len(),
{
}

} // verus!
