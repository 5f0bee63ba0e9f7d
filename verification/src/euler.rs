//! The solver of the Euler equations: two stages per step, geometry edits
//! between steps, convergence by a plateau of the thrust.

use vstd::prelude::*;
use crate::error::CfdError;
use crate::field::{Ambient, Numerics, SolidField, WallMode};
use crate::flow;
use crate::flow::{ambient_state, Cons, FlowMath, Prim};
use crate::ghosts;
use crate::ghosts::fill_ghosts;
use crate::grid;
use crate::grid::{copy_list, Grid};
use crate::monitor;
use crate::monitor::{MonitorMath, PlateauMonitor, CONVERGED_TOL};
use crate::nozzle;
use crate::nozzle::{column_reflect_supported, quasi1d_init, Start};
use crate::padded;
use crate::padded::{copy_ghost_band, gather, pad_solid, scatter};
use crate::refill;
use crate::refill::{apply_geometry_change, Flip, FlipLedger, LedgerMath};
use crate::report;
use crate::report::{exit_report, Report, ReportMath};
use crate::scalar::{Scalar, QUIET_NAN, ZERO};
use crate::sensor;
use crate::sensor::{apply_sponge, carbuncle_mask, sponge_reached, SensorMath};
use crate::setup;
use crate::setup::{check_setup, solid_matches, uniform_states, SolveSetup, State, StepInfo};
use crate::snapshot;
use crate::snapshot::{snapshot_from_prims, DisplayMath, Snapshot};
use crate::solver::Solver;
use crate::stage;
use crate::stage::run_stage;
use crate::text::Show;
use crate::update;
use crate::update::{compute_primitives, density_residual_f64, max_wave_speed, UpdateMath};

verus! {

/// The step whose residual the later ones are measured by.
pub const REFERENCE_STEP: u64 = 10;

/// The pattern of the smallest normal number.
pub const SMALLEST_NORMAL: u64 = 0x0010_0000_0000_0000;

/// Everything the solver computes in floating point.
pub trait SolverMath:
    UpdateMath
    + SensorMath
    + LedgerMath
    + MonitorMath
    + DisplayMath
    + ReportMath
    + Show
    + Send
    + Sync
{
    /// The time step that a wave speed allows.
    fn time_step(&self, cfl: Scalar, wave_speed: Scalar) -> Scalar;
}

/// The fastest wave crosses a cell `wmax` times per unit time.
pub open spec fn is_fastest<M: SolverMath>(
    m: &M,
    g: &Grid,
    w: Seq<Prim>,
    solid: Seq<bool>,
    gamma: Scalar,
    wmax: Scalar,
) -> bool {
    exists|inv_z: Seq<Scalar>, inv_r: Seq<Scalar>, speeds: Seq<Seq<Scalar>>, peak: Scalar|
        #[trigger]
        update::is_max_wave_speed(m, g, w, solid, gamma, inv_z, inv_r, speeds, peak, wmax)
}

/// `mask` marks the cells around shocks.
pub open spec fn is_mask<M: SolverMath>(m: &M, g: &Grid, w: Seq<Prim>, mask: Seq<bool>) -> bool {
    exists|shocks: Seq<bool>| #[trigger]
        sensor::are_shocks(m, g, w, shocks) && sensor::masks(g, shocks, mask)
}

/// A step from `u` is prepared: `filled` has its ghosts, `w` its primitives,
/// `mask` its shocks, and `dt` is the step that the fastest wave `wmax` allows.
pub open spec fn prepared<M: SolverMath>(
    m: &M,
    setup: &SolveSetup,
    solid: Seq<bool>,
    u: Seq<Cons>,
    filled: Seq<Cons>,
    w: Seq<Prim>,
    mask: Seq<bool>,
    wmax: Scalar,
    dt: Scalar,
) -> bool {
    let gamma = setup.gas.gamma;
    &&& ghosts::ghosts_filled(
        m,
        &setup.grid,
        solid,
        setup.gas,
        setup.chamber,
        setup.ambient,
        setup.numerics.wall_mode,
        u,
        filled,
    )
    &&& update::are_primitives(m, filled, gamma, w)
    &&& is_mask(m, &setup.grid, w, mask)
    &&& is_fastest(m, &setup.grid, w, solid, gamma, wmax)
    &&& call_ensures(M::time_step, (m, setup.numerics.cfl, wmax), dt)
}

fn prepare<M: SolverMath>(m: &M, setup: &SolveSetup, solid: &Vec<bool>, u: &mut Vec<Cons>) -> (r: (
    Vec<Prim>,
    Vec<bool>,
    Scalar,
    Scalar,
))
    requires
        setup.grid.wf(),
        solid.len() == setup.grid.padded_cells(),
        old(u).len() == setup.grid.padded_cells(),
    ensures
        final(u).len() == old(u).len(),
        r.0.len() == setup.grid.padded_cells(),
        r.1.len() == setup.grid.padded_cells(),
        prepared(m, setup, solid@, old(u)@, final(u)@, r.0@, r.1@, r.2, r.3),
{
    let g = &setup.grid;
    let gamma = setup.gas.gamma;
    fill_ghosts(m, u, g, solid, setup.gas, setup.chamber, setup.ambient, &setup.numerics);
    let w = compute_primitives(m, u, gamma);
    let mask = carbuncle_mask(m, &w, g);
    let wmax = max_wave_speed(m, &w, solid, g, gamma);
    let dt = m.time_step(setup.numerics.cfl, wmax);
    (w, mask, wmax, dt)
}

/// The way of two stages: `first` after the first, `second` with its ghosts and
/// `w2` its primitives, `raw` after the second, `damped` after the sponge and
/// `out` with the ghosts of `filled`; `reached` tells whether the flow was at the
/// sponge before it was damped.
pub open spec fn marched_by<M: SolverMath>(
    m: &M,
    setup: &SolveSetup,
    solid: Seq<bool>,
    filled: Seq<Cons>,
    w: Seq<Prim>,
    mask: Seq<bool>,
    dt: Scalar,
    first: Seq<Cons>,
    hits: int,
    second: Vec<Cons>,
    w2: Seq<Prim>,
    raw: Seq<Cons>,
    more: int,
    damped: Seq<Cons>,
    out: Seq<Cons>,
    reached: bool,
) -> bool {
    let g = &setup.grid;
    let n = setup.numerics;
    let gamma = setup.gas.gamma;
    &&& stage::is_stage(m, g, filled, None, w, solid, mask, n, gamma, dt, first, hits)
    &&& ghosts::ghosts_filled(
        m,
        g,
        solid,
        setup.gas,
        setup.chamber,
        setup.ambient,
        n.wall_mode,
        first,
        second@,
    )
    &&& update::are_primitives(m, second@, gamma, w2)
    &&& stage::is_stage(
        m,
        g,
        filled,
        Some(&second),
        w2,
        solid,
        mask,
        n,
        gamma,
        dt,
        raw,
        more,
    )
    &&& sensor::is_reached(
        m,
        g,
        setup.ambient,
        gamma,
        n.sponge_cells as int,
        raw,
        reached,
    )
    &&& sensor::is_sponged(
        m,
        g,
        dt,
        setup.ambient,
        gamma,
        n.sponge_cells as int,
        raw,
        damped,
    )
    &&& padded::ghosts_replaced(g, filled, damped, out)
}

/// Two stages take `filled` to `out`, the floors were needed `hits` times, and
/// `reached` tells whether the flow was at the sponge.
pub open spec fn is_marched<M: SolverMath>(
    m: &M,
    setup: &SolveSetup,
    solid: Seq<bool>,
    filled: Seq<Cons>,
    w: Seq<Prim>,
    mask: Seq<bool>,
    dt: Scalar,
    out: Seq<Cons>,
    hits: int,
    reached: bool,
) -> bool {
    exists|
        first: Seq<Cons>,
        h: int,
        second: Vec<Cons>,
        w2: Seq<Prim>,
        raw: Seq<Cons>,
        more: int,
        damped: Seq<Cons>,
    | #[trigger]
        marched_by(
            m,
            setup,
            solid,
            filled,
            w,
            mask,
            dt,
            first,
            h,
            second,
            w2,
            raw,
            more,
            damped,
            out,
            reached,
        ) && hits == h + more
}

fn march<M: SolverMath>(
    m: &M,
    setup: &SolveSetup,
    solid: &Vec<bool>,
    filled: &Vec<Cons>,
    w: &Vec<Prim>,
    mask: &Vec<bool>,
    dt: Scalar,
    floors: &mut u64,
) -> (r: (Vec<Cons>, bool))
    requires
        setup.grid.wf(),
        solid.len() == setup.grid.padded_cells(),
        filled.len() == setup.grid.padded_cells(),
        w.len() == setup.grid.padded_cells(),
        mask.len() == setup.grid.padded_cells(),
        *old(floors) + 2 * setup.grid.padded_cells() <= u64::MAX,
    ensures
        r.0.len() == filled.len(),
        *old(floors) <= *final(floors) <= *old(floors) + 2 * setup.grid.padded_cells(),
        is_marched(
            m,
            setup,
            solid@,
            filled@,
            w@,
            mask@,
            dt,
            r.0@,
            *final(floors) - *old(floors),
            r.1,
        ),
{
    let g = &setup.grid;
    let n = setup.numerics;
    let gamma = setup.gas.gamma;
    let mut u1 = run_stage(m, g, filled, None, w, solid, mask, n, gamma, dt, floors);
    let ghost first = u1@;
    let ghost mid = *floors;
    fill_ghosts(m, &mut u1, g, solid, setup.gas, setup.chamber, setup.ambient, &n);
    let w2 = compute_primitives(m, &u1, gamma);
    let mut out = run_stage(m, g, filled, Some(&u1), &w2, solid, mask, n, gamma, dt, floors);
    let ghost raw = out@;
    let reached = sponge_reached(m, &out, g, setup.ambient, setup.gas, n.sponge_cells);
    apply_sponge(m, &mut out, g, dt, setup.ambient, setup.gas, n.sponge_cells);
    let ghost damped = out@;
    copy_ghost_band(filled, &mut out, g);
    assert(marched_by(
        m,
        setup,
        solid@,
        filled@,
        w@,
        mask@,
        dt,
        first,
        mid - *old(floors),
        u1,
        w2@,
        raw,
        *floors - mid,
        damped,
        out@,
        reached,
    ));
    (out, reached)
}

/// The residual of a step from `before` to `after`, not yet relative.
pub open spec fn is_residual<M: SolverMath>(
    m: &M,
    before: Seq<Cons>,
    after: Seq<Cons>,
    solid: Seq<bool>,
    raw: Scalar,
) -> bool {
    exists|sum: Scalar| #[trigger]
        call_ensures(M::root, (m, sum), raw) && update::is_square_sum(
            m,
            before,
            after,
            solid,
            before.len() as int,
            sum,
        )
}

/// The text of a step that cannot be taken.
pub open spec fn is_divergence<M: Show>(m: &M, wmax: Scalar, dt: Scalar, s: Seq<char>) -> bool {
    exists|a: String, b: String|
        {
            &&& #[trigger] call_ensures(M::show_single, (m, wmax), a)
            &&& #[trigger] call_ensures(M::show_single, (m, dt), b)
            &&& s == "max wave speed "@ + a@ + ", dt "@ + b@
        }
}

fn divergence<M: Show>(m: &M, wmax: Scalar, dt: Scalar) -> (s: String)
    ensures
        is_divergence(m, wmax, dt, s@),
{
    let a = m.show_single(wmax);
    let b = m.show_single(dt);
    let mut s = "max wave speed ".to_owned();
    s.append(a.as_str());
    s.append(", dt ");
    s.append(b.as_str());
    s
}

/// A time step that can be taken.
pub open spec fn usable(dt: Scalar) -> bool {
    dt.finite() && (Scalar { bits: ZERO }).below(dt)
}

/// The text of a geometry that column reflection cannot work with.
pub open spec fn not_reflectable() -> Seq<char> {
    "column reflection needs at most one solid run per column"@
}

/// The geometry and the wall mode fit together.
pub open spec fn walls_fit(setup: &SolveSetup) -> bool {
    setup.numerics.wall_mode == WallMode::ColumnReflect ==> nozzle::one_solid_run(&setup.solid)
}

/// The solver of the Euler equations.
pub struct EulerSolver<M: SolverMath> {
    pub math: M,
    pub setup: SolveSetup,
    pub state: State,
    pub solid: Vec<bool>,
    pub info: StepInfo,
    pub ledger: FlipLedger,
    pub residual_ref: Scalar,
    pub pending_geometry: Option<SolidField>,
    pub monitor: PlateauMonitor,
    /// Which start the field was given; none without the quasi-one-dimensional one.
    pub start: Option<Start>,
    /// The flow has reached the sponge in some step.
    pub sponge_reached: bool,
}

/// An edit of the geometry takes the padded field from `u0` to `u1` and the
/// ledger from `l0` to `l1`.
pub open spec fn edited<M: SolverMath>(
    m: &M,
    setup: &SolveSetup,
    new_field: &SolidField,
    u0: Seq<Cons>,
    u1: Seq<Cons>,
    l0: FlipLedger,
    l1: FlipLedger,
) -> bool {
    exists|ua: Cons, v0: Seq<Cons>, v1: Seq<Cons>, flips: Seq<Flip>| #[trigger]
        refill::geometry_changed(
            m,
            &setup.solid,
            new_field,
            setup.gas.gamma,
            ua,
            u0,
            v0,
            v1,
            u1,
            flips,
            l0,
            l1,
        ) && flow::is_ambient_state(m, setup.ambient, setup.gas.gamma, ua)
}

/// `b` is the monitor `a` started over at time `t`.
pub open spec fn rearmed<M: MonitorMath>(
    m: &M,
    a: PlateauMonitor,
    t: Scalar,
    b: PlateauMonitor,
) -> bool {
    &&& b.armed()
    &&& b.window_time == a.window_time
    &&& b.sample_dt == a.sample_dt
    &&& b.tol == a.tol
    &&& call_ensures(M::plus, (m, t, a.sample_dt), b.next_sample)
}

/// The interior of `u` is set from `f`, cell by cell.
pub open spec fn is_initial<M: FlowMath, F: Fn(usize, usize) -> Prim>(
    m: &M,
    g: &Grid,
    f: F,
    gamma: Scalar,
    v: Seq<Cons>,
) -> bool {
    &&& v.len() == g.cells()
    &&& forall|iz: int, ir: int| #[trigger]
        g.inside(iz, ir) ==> is_initial_cell(m, f, gamma, iz, ir, v[g.at(iz, ir)])
}

/// `c` is the conserved state of what `f` gives for the cell (iz, ir).
pub open spec fn is_initial_cell<M: FlowMath, F: Fn(usize, usize) -> Prim>(
    m: &M,
    f: F,
    gamma: Scalar,
    iz: int,
    ir: int,
    c: Cons,
) -> bool {
    exists|w: Prim| #[trigger]
        call_ensures(f, (iz as usize, ir as usize), w) && call_ensures(
            M::conserved,
            (m, w, gamma),
            c,
        )
}

fn initial_cells<M: FlowMath, F: Fn(usize, usize) -> Prim>(
    m: &M,
    g: &Grid,
    f: F,
    gamma: Scalar,
) -> (v: Vec<Cons>)
    requires
        g.wf(),
        forall|iz: usize, ir: usize| iz < g.nz && ir < g.nr ==> #[trigger] call_requires(f, (iz, ir)),
    ensures
        is_initial(m, g, f, gamma, v@),
{
    let n: usize = g.len();
    let mut v: Vec<Cons> = Vec::new();
    let mut q: usize = 0;
    while q < n
        invariant
            g.wf(),
            n == g.cells(),
            q <= n,
            v.len() == q,
            forall|iz: usize, ir: usize|
                iz < g.nz && ir < g.nr ==> #[trigger] call_requires(f, (iz, ir)),
            forall|j: int|
                0 <= j < q ==> is_initial_cell(
                    m,
                    f,
                    gamma,
                    j % (g.nz as int),
                    j / (g.nz as int),
                    #[trigger] v[j],
                ),
        decreases n - q,
    {
        proof {
            grid::law_interior_positions(g.nz as int, g.nr as int, q as int);
        }
        let w = f(q % g.nz, q / g.nz);
        let c = m.conserved(w, gamma);
        assert(is_initial_cell(m, f, gamma, q as int % (g.nz as int), q as int / (g.nz as int), c));
        v.push(c);
        q = q + 1;
    }
    proof {
        assert forall|iz: int, ir: int| #[trigger] g.inside(iz, ir) implies is_initial_cell(
            m,
            f,
            gamma,
            iz,
            ir,
            v@[g.at(iz, ir)],
        ) by {
            grid::law_interior_layout(g.nz as int, g.nr as int, iz, ir);
            assert(v@[g.at(iz, ir)] == v[g.at(iz, ir)]);
        }
    }
    v
}

/// The quasi-one-dimensional start `start`, laid over `ambient`.
pub open spec fn is_quasi_start<M: SolverMath>(
    m: &M,
    setup: &SolveSetup,
    ambient: Seq<Cons>,
    u: Seq<Cons>,
    start: Start,
) -> bool {
    exists|r_open: Seq<Scalar>, rho_a: Scalar, us: Cons, v: Seq<Cons>| #[trigger]
        nozzle::is_start(
            m,
            &setup.solid,
            setup.gas.gamma,
            setup.chamber,
            setup.ambient,
            r_open,
            rho_a,
            us,
            v,
            start,
        ) && padded::interior_replaced(&setup.solid.grid, ambient, v, u)
}

/// The field a run starts from: the surroundings everywhere, with the
/// quasi-one-dimensional flow laid over where that is asked for.
pub open spec fn is_start_field<M: SolverMath>(
    m: &M,
    setup: &SolveSetup,
    ua: Cons,
    ambient: Seq<Cons>,
    u: Seq<Cons>,
    start: Option<Start>,
) -> bool {
    &&& flow::is_ambient_state(m, setup.ambient, setup.gas.gamma, ua)
    &&& ambient.len() == setup.grid.padded_cells()
    &&& forall|i: int| 0 <= i < ambient.len() ==> #[trigger] ambient[i] == ua
    &&& if setup.numerics.quasi1d_init {
        start matches Some(s) && is_quasi_start(m, setup, ambient, u, s)
    } else {
        u == ambient && start is None
    }
}

fn start_field<M: SolverMath>(m: &M, setup: &SolveSetup) -> (r: (Vec<Cons>, Option<Start>))
    requires
        setup.wf(),
        setup::matches_grid(&setup.solid, &setup.grid),
    ensures
        r.0.len() == setup.grid.padded_cells(),
        exists|ua: Cons, ambient: Seq<Cons>| #[trigger]
            is_start_field(m, setup, ua, ambient, r.0@, r.1),
{
    let ua = ambient_state(m, setup.ambient, setup.gas.gamma);
    let mut u = uniform_states(setup.grid.glen(), ua);
    let ghost ambient = u@;
    if setup.numerics.quasi1d_init {
        let start = quasi1d_init(
            m,
            &mut u,
            &setup.solid,
            setup.gas,
            setup.chamber,
            setup.ambient,
        );
        assert(is_quasi_start(m, setup, ambient, u@, start));
        let r = (u, Some(start));
        assert(is_start_field(m, setup, ua, ambient, r.0@, r.1));
        return r;
    }
    let r = (u, None);
    assert(is_start_field(m, setup, ua, ambient, r.0@, r.1));
    r
}

impl<M: SolverMath> EulerSolver<M> {
    /// The buffers fit the grid, the solid flags fit the geometry, a geometry
    /// that waits fits the grid, and the verdict is the monitor's.
    pub open spec fn wf(&self) -> bool {
        let n = self.setup.grid.padded_cells();
        &&& self.setup.wf()
        &&& self.setup.valid()
        &&& self.state.u_old.len() == n
        &&& self.state.u_new.len() == n
        &&& padded::is_padded_solid(&self.setup.solid, self.solid@)
        &&& self.pending_geometry matches Some(s) ==> s.grid.wf() && setup::matches_grid(
            &s,
            &self.setup.grid,
        )
        &&& self.monitor.wf()
        &&& self.monitor.windows <= self.info.step
        &&& self.info.converged == self.monitor.converged
    }

    /// One more step fits the counters.
    pub open spec fn has_room(&self) -> bool {
        &&& self.info.step + 1 <= u64::MAX
        &&& self.info.floor_activations + 2 * self.setup.grid.padded_cells() <= u64::MAX
    }

    /// Whether one more step fits the counters.
    pub fn can_step(&self) -> (r: bool)
        requires
            self.wf(),
        ensures
            r == self.has_room(),
    {
        let floors: u128 = self.info.floor_activations as u128;
        let cells: u128 = self.setup.grid.glen() as u128;
        self.info.step < u64::MAX && floors + 2 * cells <= u64::MAX as u128
    }

    /// A solver at rest before its first step, with the field its setup asks for.
    pub fn new(math: M, setup: SolveSetup) -> (r: Result<EulerSolver<M>, CfdError>)
        requires
            setup.wf(),
        ensures
            match r {
                Ok(s) => {
                    &&& setup.valid()
                    &&& s.wf()
                    &&& s.math == math
                    &&& s.setup == setup
                    &&& exists|ua: Cons, ambient: Seq<Cons>| #[trigger]
                        is_start_field(&math, &setup, ua, ambient, s.state.u_old@, s.start)
                    &&& !s.sponge_reached
                    &&& s.state.u_new@ == s.state.u_old@
                    &&& s.info.untouched()
                    &&& s.ledger.mass.bits == ZERO
                    &&& s.ledger.energy.bits == ZERO
                    &&& s.ledger.momentum_z.bits == ZERO
                    &&& s.ledger.momentum_r.bits == ZERO
                    &&& s.residual_ref.bits == QUIET_NAN
                    &&& s.pending_geometry is None
                    &&& s.monitor.armed()
                    &&& s.monitor.tol.bits == CONVERGED_TOL
                    &&& exists|t: Scalar| #[trigger]
                        call_ensures(
                            M::window_time_for,
                            (&math, setup.grid.z_edges@.last(), setup.gas.gamma),
                            t,
                        ) && s.monitor.window_time == monitor::sane_window(t)
                    &&& call_ensures(
                        M::sample_interval,
                        (&math, s.monitor.window_time),
                        s.monitor.sample_dt,
                    )
                    &&& s.monitor.next_sample == s.monitor.sample_dt
                },
                Err(e) => !setup.valid() && setup::is_setup_error(&math, &setup, e),
            },
    {
        match check_setup(&math, &setup) {
            Err(e) => Err(e),
            Ok(_) => {
                let solid = pad_solid(&setup.solid);
                let (u, start) = start_field(&math, &setup);
                let ghost (ua, ambient) = choose|ua: Cons, ambient: Seq<Cons>| #[trigger]
                    is_start_field(&math, &setup, ua, ambient, u@, start);
                let u_new = copy_list(&u);
                let monitor = PlateauMonitor::for_domain(
                    &math,
                    setup.grid.lz(),
                    setup.gas.gamma,
                    Scalar { bits: CONVERGED_TOL },
                );
                let s = EulerSolver {
                    math,
                    setup,
                    state: State { u_old: u, u_new },
                    solid,
                    info: StepInfo::start(),
                    ledger: FlipLedger::default(),
                    residual_ref: Scalar { bits: QUIET_NAN },
                    pending_geometry: None,
                    monitor,
                    start,
                    sponge_reached: false,
                };
                assert(is_start_field(&math, &setup, ua, ambient, s.state.u_old@, s.start));
                Ok(s)
            },
        }
    }
}

impl<M: SolverMath> EulerSolver<M> {
    /// Overwrites the interior with the states that `f` gives, cell by cell, and
    /// starts over at time zero.
    pub fn set_initial<F: Fn(usize, usize) -> Prim>(&mut self, f: F)
        requires
            old(self).wf(),
            forall|iz: usize, ir: usize|
                iz < old(self).setup.grid.nz && ir < old(self).setup.grid.nr
                    ==> #[trigger] call_requires(f, (iz, ir)),
        ensures
            final(self).wf(),
            exists|v: Seq<Cons>| #[trigger]
                is_initial(
                    &old(self).math,
                    &old(self).setup.grid,
                    f,
                    old(self).setup.gas.gamma,
                    v,
                ) && padded::interior_replaced(
                    &old(self).setup.grid,
                    old(self).state.u_old@,
                    v,
                    final(self).state.u_old@,
                ),
            final(self).state.u_new@ == final(self).state.u_old@,
            final(self).info == (StepInfo {
                time: Scalar { bits: ZERO },
                step: 0,
                converged: false,
                ..old(self).info
            }),
            final(self).residual_ref.bits == QUIET_NAN,
            rearmed(
                &old(self).math,
                old(self).monitor,
                Scalar { bits: ZERO },
                final(self).monitor,
            ),
            final(self).math == old(self).math,
            final(self).setup == old(self).setup,
            final(self).solid == old(self).solid,
            final(self).ledger == old(self).ledger,
            final(self).pending_geometry == old(self).pending_geometry,
            final(self).start == old(self).start,
            final(self).sponge_reached == old(self).sponge_reached,
    {
        let v = initial_cells(&self.math, &self.setup.grid, f, self.setup.gas.gamma);
        scatter(&self.setup.grid, &mut self.state.u_old, &v);
        self.state.u_new = copy_list(&self.state.u_old);
        self.info.time = Scalar { bits: ZERO };
        self.rearm(Scalar { bits: ZERO });
    }

    /// The setup of the run.
    pub fn setup(&self) -> (r: &SolveSetup)
        ensures
            *r == self.setup,
    {
        &self.setup
    }

    /// Another problem from time `t` on: the step count, the verdict and what
    /// the residual is measured by start over.
    fn rearm(&mut self, t: Scalar)
        ensures
            rearmed(&old(self).math, old(self).monitor, t, final(self).monitor),
            final(self).monitor.wf(),
            final(self).residual_ref.bits == QUIET_NAN,
            final(self).info == (StepInfo { step: 0, converged: false, ..old(self).info }),
            final(self).math == old(self).math,
            final(self).setup == old(self).setup,
            final(self).state == old(self).state,
            final(self).solid == old(self).solid,
            final(self).ledger == old(self).ledger,
            final(self).pending_geometry == old(self).pending_geometry,
            final(self).start == old(self).start,
            final(self).sponge_reached == old(self).sponge_reached,
    {
        self.monitor.reset(&self.math, t);
        self.residual_ref = Scalar { bits: QUIET_NAN };
        self.info.step = 0;
        self.info.converged = false;
    }

    /// The geometry that waited, if one did, has been taken over into `b`: the
    /// field was refilled, the ledger has the entries, and it is another problem.
    pub open spec fn drained(self, b: Self) -> bool {
        match self.pending_geometry {
            None => b == self,
            Some(field) => {
                &&& edited(
                    &self.math,
                    &self.setup,
                    &field,
                    self.state.u_old@,
                    b.state.u_old@,
                    self.ledger,
                    b.ledger,
                )
                &&& b.state.u_new == self.state.u_new
                &&& padded::is_padded_solid(&field, b.solid@)
                &&& b.setup == (SolveSetup { solid: field, ..self.setup })
                &&& rearmed(&self.math, self.monitor, self.info.time, b.monitor)
                &&& b.residual_ref.bits == QUIET_NAN
                &&& b.info == (StepInfo { step: 0, converged: false, ..self.info })
                &&& b.pending_geometry is None
                &&& b.math == self.math
                &&& b.start == self.start
                &&& b.sponge_reached == self.sponge_reached
            },
        }
    }

    fn drain_geometry(&mut self)
        requires
            old(self).wf(),
        ensures
            final(self).wf(),
            old(self).drained(*final(self)),
            final(self).pending_geometry is None,
    {
        let waiting = self.pending_geometry.take();
        match waiting {
            None => {},
            Some(field) => {
                let flips = apply_geometry_change(
                    &self.math,
                    &mut self.state.u_old,
                    &self.setup.solid,
                    &field,
                    self.setup.gas,
                    self.setup.ambient,
                    &mut self.ledger,
                );
                assert(edited(
                    &old(self).math,
                    &old(self).setup,
                    &field,
                    old(self).state.u_old@,
                    self.state.u_old@,
                    old(self).ledger,
                    self.ledger,
                ));
                self.solid = pad_solid(&field);
                self.setup.solid = field;
                self.rearm(self.info.time);
            },
        }
    }
}

/// The monitor after a step that ended at time `t` with the field `u`: offered
/// the thrust where a sample is due, else left alone.
pub open spec fn watched<M: SolverMath>(
    m: &M,
    setup: &SolveSetup,
    u: Seq<Cons>,
    t: Scalar,
    converged: bool,
    a: PlateauMonitor,
    b: PlateauMonitor,
) -> bool {
    if a.next_sample.at_most(t) {
        exists|r: Report| #[trigger]
            report::is_report(m, setup, u, converged, r) && a.updated(m, t, r.figures.thrust_n, b)
    } else {
        b == a
    }
}

/// What a step from `a` tells in `b`: one step more, the time, the floors, and
/// the residual relative to that of the reference step.
pub open spec fn told<M: SolverMath>(
    m: &M,
    a: StepInfo,
    ref_before: Scalar,
    raw: Scalar,
    dt: Scalar,
    hits: int,
    b: StepInfo,
    ref_after: Scalar,
) -> bool {
    &&& b.step == a.step + 1
    &&& call_ensures(M::plus, (m, a.time, dt), b.time)
    &&& b.dt == dt
    &&& b.floor_activations == a.floor_activations + hits
    &&& ref_after == if b.step == REFERENCE_STEP {
        raw.larger(Scalar { bits: SMALLEST_NORMAL })
    } else {
        ref_before
    }
    &&& if b.step >= REFERENCE_STEP {
        call_ensures(M::quotient, (m, raw, ref_after), b.residual)
    } else {
        b.residual.bits == QUIET_NAN
    }
}

impl<M: SolverMath> EulerSolver<M> {
    /// The step was refused with `e`, with no geometry waiting: the walls do not
    /// fit the wall mode, or there is no usable time step. The field has its
    /// ghosts filled in the second case and nothing else has changed.
    pub open spec fn stopped(self, b: Self, e: CfdError) -> bool {
        if !walls_fit(&self.setup) {
            &&& b == self
            &&& e matches CfdError::Geometry(s) && s@ == not_reflectable()
        } else {
            &&& b == (EulerSolver {
                state: State { u_old: b.state.u_old, u_new: self.state.u_new },
                ..self
            })
            &&& exists|w: Seq<Prim>, mask: Seq<bool>, wmax: Scalar, dt: Scalar|
                {
                    &&& #[trigger] prepared(
                        &self.math,
                        &self.setup,
                        self.solid@,
                        self.state.u_old@,
                        b.state.u_old@,
                        w,
                        mask,
                        wmax,
                        dt,
                    )
                    &&& !usable(dt)
                    &&& e matches CfdError::Diverged { step, detail } && step == self.info.step
                        && is_divergence(&self.math, wmax, dt, detail@)
                }
        }
    }

    /// The step was taken, with no geometry waiting, by way of the primitives
    /// `w`, the mask `mask`, the wave speed `wmax`, the time step `dt`, the raw
    /// residual `raw` and `hits` uses of the floors; `reached` tells whether the flow
    /// was at the sponge.
    pub open spec fn stepped_by(
        self,
        b: Self,
        w: Seq<Prim>,
        mask: Seq<bool>,
        wmax: Scalar,
        dt: Scalar,
        raw: Scalar,
        hits: int,
        reached: bool,
    ) -> bool {
        let m = &self.math;
        let filled = b.state.u_new@;
        let out = b.state.u_old@;
        &&& prepared(
            m,
            &self.setup,
            self.solid@,
            self.state.u_old@,
            filled,
            w,
            mask,
            wmax,
            dt,
        )
        &&& usable(dt)
        &&& is_marched(m, &self.setup, self.solid@, filled, w, mask, dt, out, hits, reached)
        &&& b.sponge_reached == (self.sponge_reached || reached)
        &&& is_residual(m, filled, out, self.solid@, raw)
        &&& told(
            m,
            self.info,
            self.residual_ref,
            raw,
            dt,
            hits,
            b.info,
            b.residual_ref,
        )
        &&& watched(
            m,
            &self.setup,
            out,
            b.info.time,
            self.info.converged,
            self.monitor,
            b.monitor,
        )
        &&& b.info.converged == b.monitor.converged
    }

    /// The step was taken, with no geometry waiting.
    pub open spec fn stepped(self, b: Self) -> bool {
        &&& walls_fit(&self.setup)
        &&& exists|
            w: Seq<Prim>,
            mask: Seq<bool>,
            wmax: Scalar,
            dt: Scalar,
            raw: Scalar,
            hits: int,
            reached: bool,
        | #[trigger]
            self.stepped_by(b, w, mask, wmax, dt, raw, hits, reached)
        &&& b.math == self.math
        &&& b.setup == self.setup
        &&& b.solid == self.solid
        &&& b.ledger == self.ledger
        &&& b.pending_geometry == self.pending_geometry
        &&& b.start == self.start
    }

    /// A step took the solver to `b` and gave `r`.
    pub open spec fn one_step(self, b: Self, r: Result<StepInfo, CfdError>) -> bool {
        exists|mid: Self| #[trigger]
            self.drained(mid) && match r {
                Ok(info) => mid.stepped(b) && info == b.info,
                Err(e) => mid.stopped(b, e),
            }
    }

    /// The step of a solver with no geometry waiting.
    fn advance(&mut self) -> (r: Result<StepInfo, CfdError>)
        requires
            old(self).wf(),
            old(self).has_room(),
            old(self).pending_geometry is None,
        ensures
            final(self).wf(),
            final(self).setup == old(self).setup,
            final(self).info.step <= old(self).info.step + 1,
            final(self).info.floor_activations <= old(self).info.floor_activations + 2 * old(
                self,
            ).setup.grid.padded_cells(),
            match r {
                Ok(info) => old(self).stepped(*final(self)) && info == final(self).info,
                Err(e) => old(self).stopped(*final(self), e),
            },
    {
        let ghost before = *self;
        if self.setup.numerics.wall_mode == WallMode::ColumnReflect && !column_reflect_supported(
            &self.setup.solid,
        ) {
            return Err(
                CfdError::Geometry(
                    "column reflection needs at most one solid run per column".to_owned(),
                ),
            );
        }
        let (w, mask, wmax, dt) = prepare(
            &self.math,
            &self.setup,
            &self.solid,
            &mut self.state.u_old,
        );
        if !dt.is_finite() || dt.le(Scalar { bits: ZERO }) {
            let detail = divergence(&self.math, wmax, dt);
            assert(!usable(dt));
            assert(prepared(
                &before.math,
                &before.setup,
                before.solid@,
                before.state.u_old@,
                self.state.u_old@,
                w@,
                mask@,
                wmax,
                dt,
            ));
            return Err(CfdError::Diverged { step: self.info.step, detail });
        }
        assert(usable(dt));
        let mut floors: u64 = self.info.floor_activations;
        let (next, reached) = march(
            &self.math,
            &self.setup,
            &self.solid,
            &self.state.u_old,
            &w,
            &mask,
            dt,
            &mut floors,
        );
        self.state.u_new = next;
        self.sponge_reached = self.sponge_reached || reached;
        let ghost hits = floors - before.info.floor_activations;
        let raw = density_residual_f64(
            &self.math,
            &self.state.u_old,
            &self.state.u_new,
            &self.solid,
        );
        self.state.swap();
        self.info.step = self.info.step + 1;
        self.info.time = self.math.plus(self.info.time, dt);
        self.info.dt = dt;
        self.info.floor_activations = floors;
        if self.info.step == REFERENCE_STEP {
            self.residual_ref = raw.max(Scalar { bits: SMALLEST_NORMAL });
        }
        self.info.residual =
        if self.info.step >= REFERENCE_STEP {
            self.math.quotient(raw, self.residual_ref)
        } else {
            Scalar { bits: QUIET_NAN }
        };
        if self.monitor.due(self.info.time) {
            let rep = exit_report(
                &self.math,
                &self.setup,
                &self.state.u_old,
                self.info.converged,
            );
            let verdict = self.monitor.update(&self.math, self.info.time, rep.figures.thrust_n);
            assert(report::is_report(
                &before.math,
                &before.setup,
                self.state.u_old@,
                before.info.converged,
                rep,
            ));
        }
        self.info.converged = self.monitor.converged();
        assert(before.stepped_by(*self, w@, mask@, wmax, dt, raw, hits, reached));
        Ok(self.info)
    }
}

/// Step `i` of a run was taken.
pub open spec fn took<M: SolverMath>(trail: Seq<EulerSolver<M>>, i: int) -> bool {
    trail[i].one_step(trail[i + 1], Ok(trail[i + 1].info))
}

/// `trail` holds the states of a run in which every step was taken and none but
/// the last could end it.
pub open spec fn is_trail<M: SolverMath>(trail: Seq<EulerSolver<M>>) -> bool {
    &&& trail.len() >= 1
    &&& forall|i: int| 0 <= i < trail.len() - 1 ==> #[trigger] took(trail, i)
    &&& forall|i: int| 1 <= i < trail.len() - 1 ==> !(#[trigger] trail[i]).info.converged
}

/// A run of at most `max_steps` along `trail` took the solver to `b` and gave `r`.
/// It ended early when it had converged, when a step failed, or when no step more
/// would have fitted the counters.
pub open spec fn ran_along<M: SolverMath>(
    trail: Seq<EulerSolver<M>>,
    max_steps: int,
    b: EulerSolver<M>,
    r: Result<StepInfo, CfdError>,
) -> bool {
    let taken = trail.len() - 1;
    &&& is_trail(trail)
    &&& match r {
        Ok(info) => {
            &&& b == trail.last()
            &&& info == b.info
            &&& taken <= max_steps
            &&& taken == max_steps || taken >= 1 && b.info.converged || !b.has_room()
        },
        Err(e) => {
            &&& taken < max_steps
            &&& taken >= 1 ==> !trail.last().info.converged
            &&& trail.last().one_step(b, Err(e))
        },
    }
}

proof fn lemma_trail_grows<M: SolverMath>(trail: Seq<EulerSolver<M>>, b: EulerSolver<M>)
    requires
        is_trail(trail),
        trail.len() >= 2 ==> !trail.last().info.converged,
        trail.last().one_step(b, Ok(b.info)),
    ensures
        is_trail(trail.push(b)),
{
    let longer = trail.push(b);
    assert forall|i: int| 0 <= i < longer.len() - 1 implies #[trigger] took(longer, i) by {
        if i < trail.len() - 1 {
            assert(took(trail, i));
        }
    }
}

impl<M: SolverMath> Solver for EulerSolver<M> {
    open spec fn sound(&self) -> bool {
        self.wf()
    }

    open spec fn ready(&self) -> bool {
        self.wf() && self.has_room()
    }

    /// Takes one step. A geometry that waits is taken over first.
    fn step(&mut self) -> (r: Result<StepInfo, CfdError>)
        ensures
            old(self).one_step(*final(self), r),
            final(self).info.step <= old(self).info.step + 1,
            final(self).info.floor_activations <= old(self).info.floor_activations + 2 * old(
                self,
            ).setup.grid.padded_cells(),
            final(self).setup.grid == old(self).setup.grid,
    {
        self.drain_geometry();
        let ghost mid = *self;
        assert(old(self).drained(mid));
        self.advance()
    }

    /// Takes steps until the run has converged, `max_steps` at most. A run whose
    /// counters are full ends there.
    fn run(&mut self, max_steps: u64) -> (r: Result<StepInfo, CfdError>)
        ensures
            exists|trail: Seq<EulerSolver<M>>| #[trigger]
                ran_along(trail, max_steps as int, *final(self), r) && trail[0] == *old(self),
    {
        let ghost mut trail = seq![*self];
        let mut info = self.info;
        let mut k: u64 = 0;
        while k < max_steps
            invariant
                k <= max_steps,
                self.wf(),
                is_trail(trail),
                trail.len() == k + 1,
                trail[0] == *old(self),
                trail.last() == *self,
                k >= 1 ==> !self.info.converged,
                info == self.info,
            decreases max_steps - k,
        {
            if !self.can_step() {
                assert(ran_along(trail, max_steps as int, *self, Ok(info)));
                return Ok(info);
            }
            match self.step() {
                Err(e) => {
                    assert(ran_along(trail, max_steps as int, *self, Err(e)));
                    return Err(e);
                },
                Ok(next) => {
                    proof {
                        lemma_trail_grows(trail, *self);
                        trail = trail.push(*self);
                    }
                    info = next;
                    k = k + 1;
                    if info.converged {
                        assert(ran_along(trail, max_steps as int, *self, Ok(info)));
                        return Ok(info);
                    }
                },
            }
        }
        assert(ran_along(trail, max_steps as int, *self, Ok(info)));
        Ok(info)
    }

    /// A display copy of the field.
    fn snapshot(&self) -> (r: Snapshot)
        ensures
            shows(*self, &r),
    {
        let v = gather(&self.setup.grid, &self.state.u_old);
        let prims = compute_primitives(&self.math, &v, self.setup.gas.gamma);
        snapshot_from_prims(&self.math, &self.setup, &prims, self.info)
    }

    /// The engineering figures of the field.
    fn report(&self) -> (r: Report)
        ensures
            report::is_report(
                &self.math,
                &self.setup,
                self.state.u_old@,
                self.info.converged,
                r,
            ),
    {
        exit_report(&self.math, &self.setup, &self.state.u_old, self.info.converged)
    }

    /// Changes the surroundings. The field stays: only the plume has to settle
    /// anew.
    fn set_ambient(&mut self, a: Ambient)
        ensures
            final(self).setup == (SolveSetup { ambient: a, ..old(self).setup }),
            rearmed(
                &old(self).math,
                old(self).monitor,
                old(self).info.time,
                final(self).monitor,
            ),
            final(self).residual_ref.bits == QUIET_NAN,
            final(self).info == (StepInfo { step: 0, converged: false, ..old(self).info }),
            final(self).math == old(self).math,
            final(self).state == old(self).state,
            final(self).solid == old(self).solid,
            final(self).ledger == old(self).ledger,
            final(self).pending_geometry == old(self).pending_geometry,
            final(self).start == old(self).start,
            final(self).sponge_reached == old(self).sponge_reached,
    {
        self.setup.ambient = a;
        self.rearm(self.info.time);
    }

    /// Hands over a geometry, which the next step takes in. One for another grid
    /// is refused.
    fn set_geometry(&mut self, solid: SolidField) -> (r: Result<(), CfdError>)
        ensures
            match r {
                Ok(_) => {
                    &&& setup::matches_grid(&solid, &old(self).setup.grid)
                    &&& *final(self) == (EulerSolver {
                        pending_geometry: Some(solid),
                        ..*old(self)
                    })
                },
                Err(e) => {
                    &&& !setup::matches_grid(&solid, &old(self).setup.grid)
                    &&& e matches CfdError::Geometry(s) && s@
                        == "solid field does not match grid"@
                    &&& *final(self) == *old(self)
                },
            },
    {
        if !solid_matches(&solid, &self.setup.grid) {
            return Err(CfdError::Geometry("solid field does not match grid".to_owned()));
        }
        self.pending_geometry = Some(solid);
        Ok(())
    }

    /// Changes the numerical options.
    fn set_numerics(&mut self, n: Numerics)
        ensures
            final(self).setup == (SolveSetup { numerics: n, ..old(self).setup }),
            *final(self) == (EulerSolver { setup: final(self).setup, ..*old(self) }),
    {
        self.setup.numerics = n;
    }

    /// Steps since the problem last changed.
    fn step_count(&self) -> (r: u64)
        ensures
            r == self.info.step,
    {
        self.info.step
    }
}

/// `r` is a display copy that the solver can give.
pub open spec fn shows<M: SolverMath>(s: EulerSolver<M>, r: &Snapshot) -> bool {
    exists|v: Seq<Cons>, prims: Seq<Prim>|
        {
            &&& #[trigger] padded::is_interior(&s.setup.grid, s.state.u_old@, v)
            &&& #[trigger] update::are_primitives(&s.math, v, s.setup.gas.gamma, prims)
            &&& snapshot::is_snapshot(&s.math, &s.setup, prims, s.info, r)
        }
}

/// The formulas of a display copy are functions: the same values give the same result.
pub open spec fn shows_functions<M: SolverMath>(m: &M) -> bool {
    &&& snapshot::are_functions(m)
    &&& forall|u: Cons, gamma: Scalar, x: Prim, y: Prim|
        {
            &&& #[trigger] call_ensures(M::primitives, (m, u, gamma), x)
            &&& #[trigger] call_ensures(M::primitives, (m, u, gamma), y)
        } ==> x == y
}

/// A change of the surroundings does not discard the field: where the formulas are
/// functions, a display copy after it shows the fields and ranges that one before it
/// has shown.
pub proof fn law_ambient_keeps_the_picture<M: SolverMath>(
    a: EulerSolver<M>,
    b: EulerSolver<M>,
    before: &Snapshot,
    after: &Snapshot,
)
    requires
        shows_functions(&a.math),
        a.wf(),
        b.setup == (SolveSetup { ambient: b.setup.ambient, ..a.setup }),
        b.math == a.math,
        b.state == a.state,
        shows(a, before),
        shows(b, after),
    ensures
        forall|i: int| 0 <= i < 8 ==> (#[trigger] before.fields[i])@ == after.fields[i]@,
        before.ranges@ == after.ranges@,
{
    let (v, prims) = choose|v: Seq<Cons>, prims: Seq<Prim>|
        {
            &&& #[trigger] padded::is_interior(&a.setup.grid, a.state.u_old@, v)
            &&& #[trigger] update::are_primitives(&a.math, v, a.setup.gas.gamma, prims)
            &&& snapshot::is_snapshot(&a.math, &a.setup, prims, a.info, before)
        };
    let (v2, prims2) = choose|v: Seq<Cons>, prims: Seq<Prim>|
        {
            &&& #[trigger] padded::is_interior(&b.setup.grid, b.state.u_old@, v)
            &&& #[trigger] update::are_primitives(&b.math, v, b.setup.gas.gamma, prims)
            &&& snapshot::is_snapshot(&b.math, &b.setup, prims, b.info, after)
        };
    let g = &a.setup.grid;
    assert forall|k: int| 0 <= k < v.len() implies v[k] == #[trigger] v2[k] by {
        grid::law_interior_positions(g.nz as int, g.nr as int, k);
        assert(g.inside(k % (g.nz as int), k / (g.nz as int)));
        assert(b.setup.grid.inside(k % (g.nz as int), k / (g.nz as int)));
    }
    assert(v =~= v2);
    assert(prims =~= prims2);
    snapshot::law_picture_ignores_ambient(
        &a.math,
        &a.setup,
        &b.setup,
        prims,
        a.info,
        b.info,
        before,
        after,
    );
}

/// The books change only when a geometry is taken in.
pub proof fn law_steps_leave_the_ledger<M: SolverMath>(
    a: EulerSolver<M>,
    b: EulerSolver<M>,
    r: Result<StepInfo, CfdError>,
)
    requires
        a.pending_geometry is None,
        a.one_step(b, r),
    ensures
        b.ledger == a.ledger,
{
}

/// A geometry that was handed over is in force after the next step, whether that
/// step could be taken or not, and nothing waits any more.
pub proof fn law_geometry_takes_effect<M: SolverMath>(
    a: EulerSolver<M>,
    b: EulerSolver<M>,
    r: Result<StepInfo, CfdError>,
)
    requires
        a.pending_geometry is Some,
        a.one_step(b, r),
    ensures
        b.setup.solid == a.pending_geometry->0,
        b.pending_geometry is None,
        r matches Ok(info) ==> info.step == 1,
{
}

/// A verdict belongs to one problem: a converged run has seen two windows since
/// the problem last changed.
pub proof fn law_convergence_takes_two_windows<M: SolverMath>(s: EulerSolver<M>)
    requires
        s.wf(),
        s.info.converged,
    ensures
        s.monitor.windows >= 2,
        s.info.step >= 2,
{
}

/// Column reflection never runs over a geometry it would damage.
pub proof fn law_reflection_is_gated<M: SolverMath>(
    a: EulerSolver<M>,
    b: EulerSolver<M>,
    r: Result<StepInfo, CfdError>,
)
    requires
        a.one_step(b, r),
        r is Ok,
        b.setup.numerics.wall_mode == WallMode::ColumnReflect,
    ensures
        nozzle::one_solid_run(&b.setup.solid),
{
}

/// A step is two stages over one time step. The first starts from the field with its
/// ghosts; its result gets its ghosts in turn, and the second takes the mean of the start
/// and one step from there. The mask of the start serves both, the outermost rows are
/// damped last, and the ghosts of the start come back.
pub proof fn law_steps_take_two_stages<M: SolverMath>(
    a: EulerSolver<M>,
    b: EulerSolver<M>,
    info: StepInfo,
) -> (r: (
    Seq<Prim>,
    Seq<bool>,
    Scalar,
    Scalar,
    Seq<Cons>,
    int,
    Vec<Cons>,
    Seq<Prim>,
    Seq<Cons>,
    int,
    Seq<Cons>,
))
    requires
        a.pending_geometry is None,
        a.one_step(b, Ok(info)),
    ensures
        ({
            let (w, mask, wmax, dt, first, h1, second, w2, raw, h2, damped) = r;
            let m = &a.math;
            let s = &a.setup;
            let g = &s.grid;
            let n = s.numerics;
            let gamma = s.gas.gamma;
            let start = b.state.u_new@;
            let end = b.state.u_old@;
            &&& info == b.info
            &&& b.setup == a.setup && b.solid == a.solid
            &&& ghosts::ghosts_filled(
                m,
                g,
                a.solid@,
                s.gas,
                s.chamber,
                s.ambient,
                n.wall_mode,
                a.state.u_old@,
                start,
            )
            &&& w.len() == start.len()
            &&& forall|i: int|
                0 <= i < w.len() ==> call_ensures(
                    M::primitives,
                    (m, start[i], gamma),
                    #[trigger] w[i],
                )
            &&& is_mask(m, g, w, mask)
            &&& is_fastest(m, g, w, a.solid@, gamma, wmax)
            &&& call_ensures(M::time_step, (m, n.cfl, wmax), dt)
            &&& dt.finite() && (Scalar { bits: ZERO }).below(dt)
            &&& stage::is_stage(m, g, start, None, w, a.solid@, mask, n, gamma, dt, first, h1)
            &&& ghosts::ghosts_filled(
                m,
                g,
                a.solid@,
                s.gas,
                s.chamber,
                s.ambient,
                n.wall_mode,
                first,
                second@,
            )
            &&& w2.len() == second.len()
            &&& forall|i: int|
                0 <= i < w2.len() ==> call_ensures(
                    M::primitives,
                    (m, second@[i], gamma),
                    #[trigger] w2[i],
                )
            &&& stage::is_stage(
                m,
                g,
                start,
                Some(&second),
                w2,
                a.solid@,
                mask,
                n,
                gamma,
                dt,
                raw,
                h2,
            )
            &&& sensor::is_sponged(
                m,
                g,
                dt,
                s.ambient,
                gamma,
                n.sponge_cells as int,
                raw,
                damped,
            )
            &&& forall|iz: int, ir: int| #[trigger]
                g.in_pad(iz, ir) ==> end[g.pad(iz, ir)] == if g.inside(iz, ir) {
                    damped[g.pad(iz, ir)]
                } else {
                    start[g.pad(iz, ir)]
                }
            &&& b.info.dt == dt
            &&& b.info.step == a.info.step + 1
            &&& b.info.floor_activations == a.info.floor_activations + h1 + h2
            &&& call_ensures(M::plus, (m, a.info.time, dt), b.info.time)
        }),
{
    let (w, mask, wmax, dt, raw_residual, hits, reached) = choose|
        w: Seq<Prim>,
        mask: Seq<bool>,
        wmax: Scalar,
        dt: Scalar,
        raw: Scalar,
        hits: int,
        reached: bool,
    | #[trigger]
        a.stepped_by(b, w, mask, wmax, dt, raw, hits, reached);
    let (first, h1, second, w2, raw, h2, damped) = choose|
        first: Seq<Cons>,
        h: int,
        second: Vec<Cons>,
        w2: Seq<Prim>,
        raw: Seq<Cons>,
        more: int,
        damped: Seq<Cons>,
    | #[trigger]
        marched_by(
            &a.math,
            &a.setup,
            a.solid@,
            b.state.u_new@,
            w,
            mask,
            dt,
            first,
            h,
            second,
            w2,
            raw,
            more,
            damped,
            b.state.u_old@,
            reached,
        ) && hits == h + more;
    (w, mask, wmax, dt, first, h1, second, w2, raw, h2, damped)
}

/// What a step tells of the change: before the reference step there is no residual, at it
/// the residual is measured by itself, and from then on by that of the reference step,
/// which is kept; it is the root of the squared changes of density over the fluid.
pub proof fn law_residuals_are_relative<M: SolverMath>(
    a: EulerSolver<M>,
    b: EulerSolver<M>,
    info: StepInfo,
) -> (r: (Scalar, Scalar))
    requires
        a.pending_geometry is None,
        a.one_step(b, Ok(info)),
    ensures
        update::is_square_sum(
            &a.math,
            b.state.u_new@,
            b.state.u_old@,
            a.solid@,
            b.state.u_new@.len() as int,
            r.0,
        ),
        call_ensures(M::root, (&a.math, r.0), r.1),
        info.step < 10 ==> info.residual.nan() && b.residual_ref == a.residual_ref,
        info.step == 10 ==> call_ensures(
            M::quotient,
            (&a.math, r.1, b.residual_ref),
            info.residual,
        ) && !b.residual_ref.below(Scalar { bits: SMALLEST_NORMAL }) && ((Scalar {
            bits: SMALLEST_NORMAL,
        }).at_most(r.1) ==> b.residual_ref == r.1),
        info.step > 10 ==> call_ensures(
            M::quotient,
            (&a.math, r.1, a.residual_ref),
            info.residual,
        ) && b.residual_ref == a.residual_ref,
{
    let (w, mask, wmax, dt, raw, hits, reached) = choose|
        w: Seq<Prim>,
        mask: Seq<bool>,
        wmax: Scalar,
        dt: Scalar,
        raw: Scalar,
        hits: int,
        reached: bool,
    | #[trigger]
        a.stepped_by(b, w, mask, wmax, dt, raw, hits, reached);
    let sum = choose|sum: Scalar| #[trigger]
        call_ensures(M::root, (&a.math, sum), raw) && update::is_square_sum(
            &a.math,
            b.state.u_new@,
            b.state.u_old@,
            a.solid@,
            b.state.u_new@.len() as int,
            sum,
        );
    (sum, raw)
}

/// A step fails for its walls or for its time step and for nothing else. It leaves the
/// problem, the clock and the verdict alone, and a time step that fails is not finite or
/// not above zero.
pub proof fn law_failed_steps_change_nothing<M: SolverMath>(
    a: EulerSolver<M>,
    b: EulerSolver<M>,
    e: CfdError,
)
    requires
        a.pending_geometry is None,
        a.one_step(b, Err(e)),
    ensures
        b.info == a.info,
        b.setup == a.setup,
        b.ledger == a.ledger,
        b.monitor == a.monitor,
        b.residual_ref == a.residual_ref,
        e is Geometry ==> a.setup.numerics.wall_mode == WallMode::ColumnReflect
            && !nozzle::one_solid_run(&a.setup.solid) && b == a,
        e is Geometry || e is Diverged,
        e matches CfdError::Diverged { step, .. } ==> step == a.info.step && exists|
            wmax: Scalar,
            dt: Scalar,
        | #[trigger]
            call_ensures(M::time_step, (&a.math, a.setup.numerics.cfl, wmax), dt) && (!dt.finite()
                || !(Scalar { bits: ZERO }).below(dt)),
{
    if walls_fit(&a.setup) {
        let (w, mask, wmax, dt) = choose|
            w: Seq<Prim>,
            mask: Seq<bool>,
            wmax: Scalar,
            dt: Scalar,
        |
            {
                &&& #[trigger] prepared(
                    &a.math,
                    &a.setup,
                    a.solid@,
                    a.state.u_old@,
                    b.state.u_old@,
                    w,
                    mask,
                    wmax,
                    dt,
                )
                &&& !usable(dt)
                &&& e matches CfdError::Diverged { step, detail } && step == a.info.step
                    && is_divergence(&a.math, wmax, dt, detail@)
            };
        assert(call_ensures(M::time_step, (&a.math, a.setup.numerics.cfl, wmax), dt));
    }
}

/// The verdict follows the thrust: a step offers the monitor the thrust of the field it
/// leaves, at the time it leaves it, where a sample is due, and nothing otherwise.
pub proof fn law_the_monitor_watches_the_thrust<M: SolverMath>(
    a: EulerSolver<M>,
    b: EulerSolver<M>,
    info: StepInfo,
)
    requires
        a.pending_geometry is None,
        a.one_step(b, Ok(info)),
    ensures
        info.converged == b.monitor.converged,
        !a.monitor.next_sample.at_most(info.time) ==> b.monitor == a.monitor,
        a.monitor.next_sample.at_most(info.time) ==> exists|r: Report| #[trigger]
            report::is_report(&a.math, &a.setup, b.state.u_old@, a.info.converged, r)
                && a.monitor.updated(&a.math, info.time, r.figures.thrust_n, b.monitor),
{
}

/// Once the flow has been at the damped rows the run says so for good; a step finds out
/// before it damps them.
pub proof fn law_reaching_the_sponge_is_kept<M: SolverMath>(
    a: EulerSolver<M>,
    b: EulerSolver<M>,
    info: StepInfo,
) -> (r: (Seq<Cons>, Seq<Cons>, bool))
    requires
        a.pending_geometry is None,
        a.one_step(b, Ok(info)),
    ensures
        a.sponge_reached ==> b.sponge_reached,
        b.sponge_reached == (a.sponge_reached || r.2),
        sensor::is_reached(
            &a.math,
            &a.setup.grid,
            a.setup.ambient,
            a.setup.gas.gamma,
            a.setup.numerics.sponge_cells as int,
            r.0,
            r.2,
        ),
        sensor::is_sponged(
            &a.math,
            &a.setup.grid,
            info.dt,
            a.setup.ambient,
            a.setup.gas.gamma,
            a.setup.numerics.sponge_cells as int,
            r.0,
            r.1,
        ),
        forall|iz: int, ir: int| #[trigger]
            a.setup.grid.inside(iz, ir) && a.setup.grid.in_pad(iz, ir)
                ==> b.state.u_old@[a.setup.grid.pad(iz, ir)] == r.1[a.setup.grid.pad(iz, ir)],
{
    let (w, mask, wmax, dt, raw_residual, hits, reached) = choose|
        w: Seq<Prim>,
        mask: Seq<bool>,
        wmax: Scalar,
        dt: Scalar,
        raw: Scalar,
        hits: int,
        reached: bool,
    | #[trigger]
        a.stepped_by(b, w, mask, wmax, dt, raw, hits, reached);
    let (first, h1, second, w2, raw, h2, damped) = choose|
        first: Seq<Cons>,
        h: int,
        second: Vec<Cons>,
        w2: Seq<Prim>,
        raw: Seq<Cons>,
        more: int,
        damped: Seq<Cons>,
    | #[trigger]
        marched_by(
            &a.math,
            &a.setup,
            a.solid@,
            b.state.u_new@,
            w,
            mask,
            dt,
            first,
            h,
            second,
            w2,
            raw,
            more,
            damped,
            b.state.u_old@,
            reached,
        ) && hits == h + more;
    (raw, damped, reached)
}

/// Solid cells do not move: through a step a solid cell outside the damped rows that is
/// above the floors keeps the state that it had when its ghosts were filled.
pub proof fn law_solid_cells_stay<M: SolverMath>(
    a: EulerSolver<M>,
    b: EulerSolver<M>,
    info: StepInfo,
    iz: int,
    ir: int,
)
    requires
        a.wf(),
        a.pending_geometry is None,
        a.one_step(b, Ok(info)),
        a.setup.grid.inside(iz, ir),
        ir + a.setup.numerics.sponge_cells < a.setup.grid.nr,
        a.solid@[a.setup.grid.pad(iz, ir)],
        ({
            let c = b.state.u_new@[a.setup.grid.pad(iz, ir)];
            &&& c.rho.finite() && c.mz.finite() && c.mr.finite() && c.e.finite()
            &&& (Scalar { bits: flow::RHO_MIN }).below(c.rho)
            &&& forall|kinetic: Scalar, p: Scalar| #[trigger]
                call_ensures(M::kinetic, (&a.math, c.rho, c.mz, c.mr), kinetic)
                    && #[trigger] call_ensures(
                    M::pressure,
                    (&a.math, c.e, kinetic, a.setup.gas.gamma),
                    p,
                ) ==> p.finite() && (Scalar { bits: flow::P_MIN_ABS }).below(p)
        }),
        b.state.u_new@.len() == a.setup.grid.padded_cells(),
    ensures
        b.state.u_old@[a.setup.grid.pad(iz, ir)] == b.state.u_new@[a.setup.grid.pad(iz, ir)],
{
    let m = &a.math;
    let g = &a.setup.grid;
    let n = a.setup.numerics;
    let gamma = a.setup.gas.gamma;
    let k = g.pad(iz, ir);
    let start = b.state.u_new@;
    grid::law_padded_layout(g.nz as int, g.nr as int, iz, ir);
    assert(g.in_pad(iz, ir));
    let (w, mask, wmax, dt, first, h1, second, w2, raw, h2, damped) = law_steps_take_two_stages(
        a,
        b,
        info,
    );
    let (rhs, plain, redone, flags, inv_z, rows) = stage::law_stages_advance_fluid_cells(
        m,
        g,
        start,
        Some(&second),
        w2,
        a.solid@,
        mask,
        n,
        gamma,
        dt,
        raw,
        h2,
        k,
    );
    update::law_redone_cells_use_first_order(
        m,
        g,
        w2,
        a.solid@,
        mask,
        n,
        gamma,
        dt,
        inv_z,
        rows,
        start,
        Some(&second),
        plain,
        redone,
        iz,
        ir,
    );
    assert(redone[k] == start[k]);
    update::law_floors_by_value(m, redone[k], gamma, raw[k], flags[k]);
    assert(raw[k] == start[k]);
    sensor::law_sponge_spares_inner_rows(
        m,
        g,
        dt,
        a.setup.ambient,
        gamma,
        n.sponge_cells as int,
        raw,
        damped,
        iz,
        ir,
    );
}

/// A run that does not ask for another start begins in the surroundings at rest, in every
/// cell.
pub proof fn law_runs_start_in_the_surroundings<M: SolverMath>(
    m: &M,
    setup: &SolveSetup,
    ua: Cons,
    ambient: Seq<Cons>,
    u: Seq<Cons>,
    start: Option<Start>,
    k: int,
) -> (rho: Scalar)
    requires
        is_start_field(m, setup, ua, ambient, u, start),
        !setup.numerics.quasi1d_init,
        0 <= k < setup.grid.padded_cells(),
    ensures
        start is None,
        u.len() == setup.grid.padded_cells(),
        call_ensures(M::gas_density, (m, setup.ambient.p, setup.ambient.t), rho),
        call_ensures(
            M::conserved,
            (
                m,
                Prim {
                    rho,
                    uz: Scalar { bits: ZERO },
                    ur: Scalar { bits: ZERO },
                    p: setup.ambient.p,
                },
                setup.gas.gamma,
            ),
            u[k],
        ),
{
    choose|rho: Scalar| #[trigger]
        call_ensures(M::gas_density, (m, setup.ambient.p, setup.ambient.t), rho) && call_ensures(
            M::conserved,
            (m, flow::still(rho, setup.ambient.p), setup.gas.gamma),
            ua,
        )
}

/// A run takes its steps one after the other: without a geometry that waits, the step
/// count grows by one with each, up to the most that was asked for.
pub proof fn law_runs_count_their_steps<M: SolverMath>(
    trail: Seq<EulerSolver<M>>,
    max_steps: int,
    b: EulerSolver<M>,
    info: StepInfo,
    i: int,
)
    requires
        ran_along(trail, max_steps, b, Ok(info)),
        trail[0].pending_geometry is None,
        0 <= i < trail.len(),
    ensures
        trail[i].pending_geometry is None,
        trail[i].info.step == trail[0].info.step + i,
        trail[i].setup == trail[0].setup,
        b.info.step <= trail[0].info.step + max_steps,
        info == b.info,
    decreases i,
{
    let last = trail.len() - 1;
    if i > 0 {
        law_runs_count_their_steps(trail, max_steps, b, info, i - 1);
        assert(took(trail, i - 1));
        law_steps_take_two_stages(trail[i - 1], trail[i], trail[i].info);
    }
    lemma_counts(trail, last);
}

proof fn lemma_counts<M: SolverMath>(trail: Seq<EulerSolver<M>>, i: int)
    requires
        is_trail(trail),
        trail[0].pending_geometry is None,
        0 <= i < trail.len(),
    ensures
        trail[i].pending_geometry is None,
        trail[i].info.step == trail[0].info.step + i,
    decreases i,
{
    if i > 0 {
        lemma_counts(trail, i - 1);
        assert(took(trail, i - 1));
        law_steps_take_two_stages(trail[i - 1], trail[i], trail[i].info);
    }
}

/// The time step is what the fastest wave allows: no fluid cell of the field that the step
/// starts from has a wave that crosses its own widths faster than the speed it is made of.
pub proof fn law_time_steps_obey_the_fastest_wave<M: SolverMath>(
    a: EulerSolver<M>,
    b: EulerSolver<M>,
    info: StepInfo,
    iz: int,
    ir: int,
) -> (r: (Prim, Scalar, Scalar, Scalar, Scalar, Scalar))
    requires
        a.wf(),
        a.pending_geometry is None,
        a.one_step(b, Ok(info)),
        b.state.u_new@.len() == a.setup.grid.padded_cells(),
        a.setup.grid.inside(iz, ir),
        !a.solid@[a.setup.grid.pad(iz, ir)],
    ensures
        ({
            let (w, inv_z, inv_r, speed, peak, wmax) = r;
            let m = &a.math;
            let g = &a.setup.grid;
            &&& call_ensures(
                M::primitives,
                (m, b.state.u_new@[g.pad(iz, ir)], a.setup.gas.gamma),
                w,
            )
            &&& call_ensures(M::inverse, (m, g.z.width[iz + 2]), inv_z)
            &&& call_ensures(M::inverse, (m, g.r.width[ir + 2]), inv_r)
            &&& call_ensures(M::wave_speed, (m, w, inv_z, inv_r, a.setup.gas.gamma), speed)
            &&& !speed.nan() ==> speed.at_most(peak)
            &&& call_ensures(M::narrow, (m, peak), wmax)
            &&& call_ensures(M::time_step, (m, a.setup.numerics.cfl, wmax), info.dt)
        }),
{
    let m = &a.math;
    let g = &a.setup.grid;
    let k = g.pad(iz, ir);
    let gamma = a.setup.gas.gamma;
    grid::law_padded_layout(g.nz as int, g.nr as int, iz, ir);
    let (w, mask, wmax, dt, first, h1, second, w2, raw, h2, damped) = law_steps_take_two_stages(
        a,
        b,
        info,
    );
    let (inv_z, inv_r, speeds, peak) = choose|
        inv_z: Seq<Scalar>,
        inv_r: Seq<Scalar>,
        speeds: Seq<Seq<Scalar>>,
        peak: Scalar,
    | #[trigger]
        update::is_max_wave_speed(
            m,
            g,
            w,
            a.solid@,
            gamma,
            inv_z,
            inv_r,
            speeds,
            peak,
            wmax,
        );
    update::law_no_wave_outruns_the_peak(
        m,
        g,
        w,
        a.solid@,
        gamma,
        inv_z,
        inv_r,
        speeds,
        peak,
        wmax,
        iz,
        ir,
    );
    (w[k], inv_z[iz], inv_r[ir], speeds[ir][iz], peak, wmax)
}

/// The shocks of the field that a step starts from are masked in both of its stages.
pub proof fn law_steps_mask_their_shocks<M: SolverMath>(
    a: EulerSolver<M>,
    b: EulerSolver<M>,
    info: StepInfo,
) -> (r: (Seq<Prim>, Seq<bool>, Seq<bool>, Seq<Cons>, int, Vec<Cons>, Seq<Prim>, Seq<Cons>, int))
    requires
        a.pending_geometry is None,
        a.one_step(b, Ok(info)),
    ensures
        ({
            let (w, shocks, mask, first, h1, second, w2, raw, h2) = r;
            let m = &a.math;
            let g = &a.setup.grid;
            let n = a.setup.numerics;
            let gamma = a.setup.gas.gamma;
            let start = b.state.u_new@;
            let dt = info.dt;
            &&& w.len() == start.len()
            &&& forall|i: int|
                0 <= i < w.len() ==> call_ensures(
                    M::primitives,
                    (m, start[i], gamma),
                    #[trigger] w[i],
                )
            &&& sensor::are_shocks(m, g, w, shocks)
            &&& sensor::masks(g, shocks, mask)
            &&& stage::is_stage(m, g, start, None, w, a.solid@, mask, n, gamma, dt, first, h1)
            &&& stage::is_stage(
                m,
                g,
                start,
                Some(&second),
                w2,
                a.solid@,
                mask,
                n,
                gamma,
                dt,
                raw,
                h2,
            )
        }),
{
    let (w, mask, wmax, dt, first, h1, second, w2, raw, h2, damped) = law_steps_take_two_stages(
        a,
        b,
        info,
    );
    let shocks = choose|shocks: Seq<bool>| #[trigger]
        sensor::are_shocks(&a.math, &a.setup.grid, w, shocks) && sensor::masks(
            &a.setup.grid,
            shocks,
            mask,
        );
    (w, shocks, mask, first, h1, second, w2, raw, h2)
}

/// A monitor that starts over forgets its windows, keeps its settings and takes its next
/// sample one interval after the moment.
pub proof fn law_monitors_start_over<M: MonitorMath>(
    m: &M,
    a: PlateauMonitor,
    t: Scalar,
    b: PlateauMonitor,
)
    requires
        rearmed(m, a, t, b),
    ensures
        call_ensures(M::plus, (m, t, a.sample_dt), b.next_sample),
        b.window_time == a.window_time && b.sample_dt == a.sample_dt && b.tol == a.tol,
        b.windows == 0,
{
}

} // verus!
