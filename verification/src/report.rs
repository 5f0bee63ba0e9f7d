//! Engineering figures of a nozzle, in SI units, and how far they can be
//! relied on.

use vstd::prelude::*;
use crate::field::{Confidence, GasModel, RefScales, SolidField};
use crate::flow::{Cons, Prim};
use crate::grid;
use crate::grid::Grid;
use crate::mach;
use crate::mach::mach_from_area_ratio;
use crate::nozzle;
use crate::nozzle::{open_radius_profile, NozzleMath};
use crate::scalar::{Scalar, INFINITE, QUIET_NAN, ZERO};
use crate::setup;
use crate::setup::SolveSetup;

verus! {

/// The pattern of the smallest mass flow that is a flow, 1e-30.
pub const FLOW_MIN: u64 = 0x39B4_484B_FEEB_C2A0;

/// The pattern of the lowest pressure ratio at which a flow can separate, 0.4.
pub const SEPARATION_MIN: u64 = 0x3FD9_9999_9999_999A;

/// The pattern of the fewest cells that resolve a throat radius, 20.
pub const CELLS_MIN: u64 = 0x4034_0000_0000_0000;

/// Integrals over the exit plane.
#[derive(Debug, Clone, Copy, PartialEq)]
pub struct ExitSums {
    pub mass_flow: Scalar,
    pub thrust: Scalar,
    pub mach: Scalar,
    pub pressure: Scalar,
    pub area: Scalar,
}

/// Engineering figures in SI units.
#[derive(Debug, Clone, Copy, PartialEq)]
pub struct Figures {
    pub mass_flow_kg_s: Scalar,
    pub thrust_n: Scalar,
    pub thrust_coefficient: Scalar,
    pub c_star_m_s: Scalar,
    pub discharge_coefficient: Scalar,
    pub exit_mach: Scalar,
    pub exit_pressure_pa: Scalar,
    pub exit_pressure_ratio: Scalar,
    pub ideal_exit_mach: Scalar,
    pub cells_per_throat_radius: Scalar,
}

/// Figures with their standing.
#[derive(Debug, Clone, Copy, PartialEq)]
pub struct Report {
    pub figures: Figures,
    pub converged: bool,
    pub confidence: Confidence,
}

/// The floating-point formulas of the report.
pub trait ReportMath: NozzleMath {
    /// Area of a ring of the exit plane.
    fn exit_ring(&self, r_center: Scalar, dr: Scalar) -> Scalar;

    /// `sum` plus the mass that flows through an area.
    fn add_flow(&self, sum: Scalar, rho: Scalar, u: Scalar, area: Scalar) -> Scalar;

    /// `sum` plus the momentum that flows through an area and what pushes on it.
    fn add_thrust(
        &self,
        sum: Scalar,
        rho: Scalar,
        u: Scalar,
        p: Scalar,
        p_ambient: Scalar,
        area: Scalar,
    ) -> Scalar;

    /// The Mach number of a velocity.
    fn stream_mach(&self, uz: Scalar, ur: Scalar, sound: Scalar) -> Scalar;

    /// `sum` plus a value times an area.
    fn add_weighted(&self, sum: Scalar, value: Scalar, area: Scalar) -> Scalar;

    /// `sum` plus an area.
    fn add_ring(&self, sum: Scalar, area: Scalar) -> Scalar;

    /// One value over another.
    fn ratio_of(&self, a: Scalar, b: Scalar) -> Scalar;

    /// Area of a circle.
    fn circle_area(&self, r: Scalar) -> Scalar;

    /// A mass flow in kilograms a second.
    fn flow_in_si(&self, flow: Scalar, refs: RefScales) -> Scalar;

    /// A force in newtons.
    fn force_in_si(&self, force: Scalar, refs: RefScales) -> Scalar;

    /// A pressure in pascals.
    fn pressure_in_si(&self, p: Scalar, refs: RefScales) -> Scalar;

    /// The characteristic velocity of a mass flow, in kilograms a second, through a
    /// throat.
    fn characteristic_velocity(
        &self,
        throat_area: Scalar,
        flow_si: Scalar,
        refs: RefScales,
    ) -> Scalar;

    /// The characteristic velocity of an ideal nozzle.
    fn ideal_velocity(&self, gas: GasModel, refs: RefScales) -> Scalar;

    /// The pressure ratio below which a flow of this Mach number separates, before its
    /// floor.
    fn separation_limit(&self, mach: Scalar) -> Scalar;
}

/// No value is a number.
pub open spec fn no_figures() -> Figures {
    let nan = Scalar { bits: QUIET_NAN };
    Figures {
        mass_flow_kg_s: nan,
        thrust_n: nan,
        thrust_coefficient: nan,
        c_star_m_s: nan,
        discharge_coefficient: nan,
        exit_mach: nan,
        exit_pressure_pa: nan,
        exit_pressure_ratio: nan,
        ideal_exit_mach: nan,
        cells_per_throat_radius: nan,
    }
}

/// The report where there is nothing to report on.
pub open spec fn blank(converged: bool) -> Report {
    Report { figures: no_figures(), converged, confidence: Confidence::NotConverged }
}

/// The report where there is nothing to report on.
pub fn blank_report(converged: bool) -> (r: Report)
    ensures
        r == blank(converged),
{
    let nan = Scalar { bits: QUIET_NAN };
    Report {
        figures: Figures {
            mass_flow_kg_s: nan,
            thrust_n: nan,
            thrust_coefficient: nan,
            c_star_m_s: nan,
            discharge_coefficient: nan,
            exit_mach: nan,
            exit_pressure_pa: nan,
            exit_pressure_ratio: nan,
            ideal_exit_mach: nan,
            cells_per_throat_radius: nan,
        },
        converged,
        confidence: Confidence::NotConverged,
    }
}

/// The pressure at the exit is so low that the flow may leave the wall: below the limit
/// for its Mach number, which is held at its floor.
pub open spec fn may_separate(f: Figures, limit: Scalar) -> bool {
    f.exit_pressure_ratio.below(limit.larger(Scalar { bits: SEPARATION_MIN }))
}

/// Whether the flow may leave the wall.
pub fn separation_likely(f: Figures, limit: Scalar) -> (r: bool)
    ensures
        r == may_separate(f, limit),
{
    f.exit_pressure_ratio.lt(limit.max(Scalar { bits: SEPARATION_MIN }))
}

/// The standing of figures: first whether the run has converged, then whether
/// the flow is likely to separate, then whether the throat is resolved.
pub open spec fn standing(converged: bool, f: Figures, limit: Scalar) -> Confidence {
    if !converged {
        Confidence::NotConverged
    } else if may_separate(f, limit) {
        Confidence::SeparationLikely
    } else if f.cells_per_throat_radius.below(Scalar { bits: CELLS_MIN }) {
        Confidence::Underresolved
    } else {
        Confidence::Valid
    }
}

/// The standing of figures.
pub fn judge(converged: bool, f: Figures, limit: Scalar) -> (r: Confidence)
    ensures
        r == standing(converged, f, limit),
{
    if !converged {
        Confidence::NotConverged
    } else if separation_likely(f, limit) {
        Confidence::SeparationLikely
    } else if f.cells_per_throat_radius.lt(Scalar { bits: CELLS_MIN }) {
        Confidence::Underresolved
    } else {
        Confidence::Valid
    }
}

/// The narrowest of the first `n` openings.
pub open spec fn narrowest(r_open: Seq<Scalar>, n: int) -> Scalar
    decreases n,
{
    if n <= 0 {
        Scalar { bits: INFINITE }
    } else {
        narrowest(r_open, n - 1).smaller(r_open[n - 1])
    }
}

fn find_narrowest(r_open: &Vec<Scalar>, n: usize) -> (r: Scalar)
    requires
        n <= r_open.len(),
    ensures
        r == narrowest(r_open@, n as int),
{
    let mut r = Scalar { bits: INFINITE };
    let mut i: usize = 0;
    while i < n
        invariant
            i <= n <= r_open.len(),
            r == narrowest(r_open@, i as int),
        decreases n - i,
    {
        r = r.min(r_open[i]);
        i = i + 1;
    }
    r
}

/// A ring of the exit plane with the state `w` takes `rest` to `sums`: the mass flow, the
/// thrust, the Mach number and the pressure weighted with the area, and the area.
pub open spec fn adds_row<M: ReportMath>(
    m: &M,
    r_center: Scalar,
    dr: Scalar,
    p_ambient: Scalar,
    rest: ExitSums,
    w: Prim,
    sound: Scalar,
    sums: ExitSums,
) -> bool {
    exists|da: Scalar, mach: Scalar|
        {
            &&& #[trigger] call_ensures(M::exit_ring, (m, r_center, dr), da)
            &&& #[trigger] call_ensures(M::stream_mach, (m, w.uz, w.ur, sound), mach)
            &&& call_ensures(M::add_flow, (m, rest.mass_flow, w.rho, w.uz, da), sums.mass_flow)
            &&& call_ensures(
                M::add_thrust,
                (m, rest.thrust, w.rho, w.uz, w.p, p_ambient, da),
                sums.thrust,
            )
            &&& call_ensures(M::add_weighted, (m, rest.mach, mach, da), sums.mach)
            &&& call_ensures(M::add_weighted, (m, rest.pressure, w.p, da), sums.pressure)
            &&& call_ensures(M::add_ring, (m, rest.area, da), sums.area)
        }
}

fn add_row<M: ReportMath>(
    m: &M,
    r_center: Scalar,
    dr: Scalar,
    p_ambient: Scalar,
    rest: ExitSums,
    w: Prim,
    sound: Scalar,
) -> (sums: ExitSums)
    ensures
        adds_row(m, r_center, dr, p_ambient, rest, w, sound, sums),
{
    let da = m.exit_ring(r_center, dr);
    let mach = m.stream_mach(w.uz, w.ur, sound);
    ExitSums {
        mass_flow: m.add_flow(rest.mass_flow, w.rho, w.uz, da),
        thrust: m.add_thrust(rest.thrust, w.rho, w.uz, w.p, p_ambient, da),
        mach: m.add_weighted(rest.mach, mach, da),
        pressure: m.add_weighted(rest.pressure, w.p, da),
        area: m.add_ring(rest.area, da),
    }
}

/// Row `ir` of the exit plane takes `rest` to `sums`.
pub open spec fn exit_step<M: ReportMath>(
    m: &M,
    g: &Grid,
    u: Cons,
    gamma: Scalar,
    p_ambient: Scalar,
    ir: int,
    rest: ExitSums,
    w: Prim,
    sound: Scalar,
    sums: ExitSums,
) -> bool {
    &&& call_ensures(M::primitives, (m, u, gamma), w)
    &&& call_ensures(M::sound_speed, (m, w, gamma), sound)
    &&& adds_row(m, g.r.centre[ir + 2], g.r.width[ir + 2], p_ambient, rest, w, sound, sums)
}

/// Nothing summed yet.
pub open spec fn no_sums() -> ExitSums {
    let zero = Scalar { bits: ZERO };
    ExitSums { mass_flow: zero, thrust: zero, mach: zero, pressure: zero, area: zero }
}

/// `sums` are the integrals over the fluid cells among the first `n` rows of
/// column `iz`.
pub open spec fn are_exit_sums<M: ReportMath>(
    m: &M,
    g: &Grid,
    field: &SolidField,
    u: Seq<Cons>,
    gamma: Scalar,
    p_ambient: Scalar,
    iz: int,
    n: int,
    sums: ExitSums,
) -> bool
    decreases n,
{
    if n <= 0 {
        sums == no_sums()
    } else if field.solid(g.at(iz, n - 1)) {
        are_exit_sums(m, g, field, u, gamma, p_ambient, iz, n - 1, sums)
    } else {
        exists|rest: ExitSums, w: Prim, sound: Scalar| #[trigger]
            exit_step(
                m,
                g,
                u[g.pad(iz, n - 1)],
                gamma,
                p_ambient,
                n - 1,
                rest,
                w,
                sound,
                sums,
            ) && are_exit_sums(m, g, field, u, gamma, p_ambient, iz, n - 1, rest)
    }
}

fn exit_sums<M: ReportMath>(
    m: &M,
    g: &Grid,
    field: &SolidField,
    u: &Vec<Cons>,
    gamma: Scalar,
    p_ambient: Scalar,
    iz: usize,
) -> (sums: ExitSums)
    requires
        g.wf(),
        field.fraction.len() == g.cells(),
        u.len() == g.padded_cells(),
        iz < g.nz,
    ensures
        are_exit_sums(m, g, field, u@, gamma, p_ambient, iz as int, g.nr as int, sums),
{
    let zero = Scalar { bits: ZERO };
    let mut sums = ExitSums {
        mass_flow: zero,
        thrust: zero,
        mach: zero,
        pressure: zero,
        area: zero,
    };
    let mut ir: usize = 0;
    while ir < g.nr
        invariant
            g.wf(),
            field.fraction.len() == g.cells(),
            u.len() == g.padded_cells(),
            iz < g.nz,
            ir <= g.nr,
            are_exit_sums(m, g, field, u@, gamma, p_ambient, iz as int, ir as int, sums),
        decreases g.nr - ir,
    {
        let ghost rest = sums;
        if field.is_solid(g.idx(iz, ir)) {
            ir = ir + 1;
        } else {
            proof {
                grid::lemma_products_fit(g.nz as int, g.nr as int);
            }
            let c = u[g.gidx(iz as isize, ir as isize)];
            let w = m.primitives(c, gamma);
            let sound = m.sound_speed(w, gamma);
            sums = add_row(m, g.r_center(ir), g.dr(ir), p_ambient, sums, w, sound);
            ir = ir + 1;
            assert(exit_step(
                m,
                g,
                u@[g.pad(iz as int, ir - 1)],
                gamma,
                p_ambient,
                ir - 1,
                rest,
                w,
                sound,
                sums,
            ));
        }
    }
    sums
}

/// There is a plane to integrate over and a flow through it.
pub open spec fn flows(sums: ExitSums) -> bool {
    &&& !sums.area.at_most(Scalar { bits: ZERO })
    &&& !(Scalar { bits: sums.mass_flow.magnitude() as u64 }).below(Scalar { bits: FLOW_MIN })
}

/// The figures that follow from a mass flow, a thrust, the throat and the pressure at the
/// exit: the flow, the force and the pressure in SI units, the force over the area of the
/// throat, the characteristic velocity, the pressure over that of the surroundings, and
/// the throat radius in cells.
pub open spec fn are_scaled<M: ReportMath>(
    m: &M,
    setup: &SolveSetup,
    flow: Scalar,
    thrust: Scalar,
    r_throat: Scalar,
    throat_area: Scalar,
    exit_p: Scalar,
    f: Figures,
) -> bool {
    let refs = setup.refs;
    &&& call_ensures(M::circle_area, (m, r_throat), throat_area)
    &&& call_ensures(M::flow_in_si, (m, flow, refs), f.mass_flow_kg_s)
    &&& call_ensures(M::force_in_si, (m, thrust, refs), f.thrust_n)
    &&& call_ensures(M::ratio_of, (m, thrust, throat_area), f.thrust_coefficient)
    &&& call_ensures(
        M::characteristic_velocity,
        (m, throat_area, f.mass_flow_kg_s, refs),
        f.c_star_m_s,
    )
    &&& call_ensures(M::pressure_in_si, (m, exit_p, refs), f.exit_pressure_pa)
    &&& call_ensures(M::ratio_of, (m, exit_p, setup.ambient.p), f.exit_pressure_ratio)
    &&& call_ensures(M::ratio_of, (m, r_throat, setup.grid.dr_min), f.cells_per_throat_radius)
}

/// The figures of the integrals over the exit plane: the exit Mach number and pressure are
/// means over its area, and the discharge coefficient is the ideal over the actual
/// characteristic velocity.
pub open spec fn are_figures<M: ReportMath>(
    m: &M,
    setup: &SolveSetup,
    sums: ExitSums,
    r_throat: Scalar,
    ideal_mach: Scalar,
    f: Figures,
) -> bool {
    exists|throat_area: Scalar, exit_p: Scalar, ideal: Scalar|
        {
            &&& #[trigger] are_scaled(
                m,
                setup,
                sums.mass_flow,
                sums.thrust,
                r_throat,
                throat_area,
                exit_p,
                f,
            )
            &&& call_ensures(M::ratio_of, (m, sums.pressure, sums.area), exit_p)
            &&& #[trigger] call_ensures(M::ideal_velocity, (m, setup.gas, setup.refs), ideal)
            &&& call_ensures(M::ratio_of, (m, ideal, f.c_star_m_s), f.discharge_coefficient)
            &&& call_ensures(M::ratio_of, (m, sums.mach, sums.area), f.exit_mach)
            &&& f.ideal_exit_mach == ideal_mach
        }
}

/// Figures that follow from a mass flow, a thrust, the throat and the pressure at the
/// exit, with the discharge coefficient and the Mach numbers that are handed over.
pub(crate) fn scaled_figures<M: ReportMath>(
    m: &M,
    setup: &SolveSetup,
    flow: Scalar,
    thrust: Scalar,
    r_throat: Scalar,
    throat_area: Scalar,
    exit_p: Scalar,
    discharge: Scalar,
    exit_mach: Scalar,
    ideal_mach: Scalar,
) -> (f: Figures)
    requires
        call_ensures(M::circle_area, (m, r_throat), throat_area),
    ensures
        are_scaled(m, setup, flow, thrust, r_throat, throat_area, exit_p, f),
        f.discharge_coefficient == discharge,
        f.exit_mach == exit_mach,
        f.ideal_exit_mach == ideal_mach,
{
    let mass_flow_kg_s = m.flow_in_si(flow, setup.refs);
    Figures {
        mass_flow_kg_s,
        thrust_n: m.force_in_si(thrust, setup.refs),
        thrust_coefficient: m.ratio_of(thrust, throat_area),
        c_star_m_s: m.characteristic_velocity(throat_area, mass_flow_kg_s, setup.refs),
        discharge_coefficient: discharge,
        exit_mach,
        exit_pressure_pa: m.pressure_in_si(exit_p, setup.refs),
        exit_pressure_ratio: m.ratio_of(exit_p, setup.ambient.p),
        ideal_exit_mach: ideal_mach,
        cells_per_throat_radius: m.ratio_of(r_throat, setup.grid.dr_min),
    }
}

fn figures_of<M: ReportMath>(
    m: &M,
    setup: &SolveSetup,
    sums: ExitSums,
    r_throat: Scalar,
    ideal_mach: Scalar,
) -> (f: Figures)
    ensures
        are_figures(m, setup, sums, r_throat, ideal_mach, f),
{
    let exit_p = m.ratio_of(sums.pressure, sums.area);
    let exit_mach = m.ratio_of(sums.mach, sums.area);
    let ideal = m.ideal_velocity(setup.gas, setup.refs);
    let throat_area = m.circle_area(r_throat);
    let nan = Scalar { bits: QUIET_NAN };
    let mut f = scaled_figures(
        m,
        setup,
        sums.mass_flow,
        sums.thrust,
        r_throat,
        throat_area,
        exit_p,
        nan,
        exit_mach,
        ideal_mach,
    );
    f.discharge_coefficient = m.ratio_of(ideal, f.c_star_m_s);
    assert(are_scaled(
        m,
        setup,
        sums.mass_flow,
        sums.thrust,
        r_throat,
        throat_area,
        exit_p,
        f,
    ));
    f
}

/// `r` is made of the integrals over the exit plane.
pub open spec fn is_full_report<M: ReportMath>(
    m: &M,
    setup: &SolveSetup,
    sums: ExitSums,
    r_throat: Scalar,
    r_exit: Scalar,
    ratio: Scalar,
    ideal: Scalar,
    limit: Scalar,
    converged: bool,
    r: Report,
) -> bool {
    &&& call_ensures(M::area_ratio, (m, r_exit, r_throat), ratio)
    &&& mach::is_mach_at(m, ratio, setup.gas.gamma, true, ideal)
    &&& are_figures(m, setup, sums, r_throat, ideal, r.figures)
    &&& call_ensures(M::separation_limit, (m, r.figures.exit_mach), limit)
    &&& r.converged == converged
    &&& r.confidence == standing(converged, r.figures, limit)
}

/// `r` reports on a flow with these openings.
pub open spec fn reports_on<M: ReportMath>(
    m: &M,
    setup: &SolveSetup,
    u: Seq<Cons>,
    converged: bool,
    r_open: Seq<Scalar>,
    r: Report,
) -> bool {
    let zero = Scalar { bits: ZERO };
    match nozzle::lip_of(&setup.solid) {
        None => r == blank(converged),
        Some(lip) => {
            let r_throat = narrowest(r_open, lip + 1);
            let r_exit = r_open[lip];
            if !zero.below(r_throat) || !zero.below(r_exit) {
                r == blank(converged)
            } else {
                exists|sums: ExitSums| #[trigger]
                    are_exit_sums(
                        m,
                        &setup.grid,
                        &setup.solid,
                        u,
                        setup.gas.gamma,
                        setup.ambient.p,
                        lip,
                        setup.grid.nr as int,
                        sums,
                    ) && if flows(sums) {
                        exists|ratio: Scalar, ideal: Scalar, limit: Scalar| #[trigger]
                            is_full_report(
                                m,
                                setup,
                                sums,
                                r_throat,
                                r_exit,
                                ratio,
                                ideal,
                                limit,
                                converged,
                                r,
                            )
                    } else {
                        r == blank(converged)
                    }
            }
        },
    }
}

/// `r` is the report on the padded field `u`: blank where no column has a wall,
/// where the bore is shut or where nothing flows through the exit plane, and
/// else made of the integrals over the exit plane.
pub open spec fn is_report<M: ReportMath>(
    m: &M,
    setup: &SolveSetup,
    u: Seq<Cons>,
    converged: bool,
    r: Report,
) -> bool {
    exists|r_open: Seq<Scalar>| #[trigger]
        nozzle::are_open_radii(m, &setup.solid, r_open) && reports_on(
            m,
            setup,
            u,
            converged,
            r_open,
            r,
        )
}

/// Reports on the padded field `u`.
pub fn exit_report<M: ReportMath>(
    m: &M,
    setup: &SolveSetup,
    u: &Vec<Cons>,
    converged: bool,
) -> (r: Report)
    requires
        setup.wf(),
        setup::matches_grid(&setup.solid, &setup.grid),
        u.len() == setup.grid.padded_cells(),
    ensures
        is_report(m, setup, u@, converged, r),
{
    let zero = Scalar { bits: ZERO };
    let g = &setup.grid;
    let (r_open, edge) = open_radius_profile(m, &setup.solid);
    match edge {
        None => {
            let r = blank_report(converged);
            assert(reports_on(m, setup, u@, converged, r_open@, r));
            r
        },
        Some(lip) => {
            let r_throat = find_narrowest(&r_open, lip + 1);
            let r_exit = r_open[lip];
            if !zero.lt(r_throat) || !zero.lt(r_exit) {
                let r = blank_report(converged);
                assert(reports_on(m, setup, u@, converged, r_open@, r));
                return r;
            }
            let sums = exit_sums(m, g, &setup.solid, u, setup.gas.gamma, setup.ambient.p, lip);
            if sums.area.le(zero) || sums.mass_flow.abs().lt(Scalar { bits: FLOW_MIN }) {
                let r = blank_report(converged);
                assert(!flows(sums));
                assert(reports_on(m, setup, u@, converged, r_open@, r));
                return r;
            }
            assert(flows(sums));
            let ratio = m.area_ratio(r_exit, r_throat);
            let ideal = mach_from_area_ratio(m, ratio, setup.gas.gamma, true);
            let figures = figures_of(m, setup, sums, r_throat, ideal);
            let limit = m.separation_limit(figures.exit_mach);
            let r = Report { figures, converged, confidence: judge(converged, figures, limit) };
            assert(is_full_report(
                m,
                setup,
                sums,
                r_throat,
                r_exit,
                ratio,
                ideal,
                limit,
                converged,
                r,
            ));
            assert(reports_on(m, setup, u@, converged, r_open@, r));
            r
        },
    }
}

/// Nothing but a converged run earns more than the lowest standing.
pub proof fn law_unconverged_reports_stand_lowest<M: ReportMath>(
    m: &M,
    setup: &SolveSetup,
    u: Seq<Cons>,
    r: Report,
)
    requires
        is_report(m, setup, u, false, r),
    ensures
        !r.converged,
        r.confidence == Confidence::NotConverged,
{
}

/// The formulas give one value each for the state of a cell and for the area of a ring,
/// rings have no negative area, thrust does not rise with what pushes back nor fall with
/// what was summed before, and a larger force is no smaller in newtons.
pub open spec fn pushes_back<M: ReportMath>(m: &M, g: &Grid, refs: RefScales) -> bool {
    &&& forall|u: Cons, gamma: Scalar, a: Prim, b: Prim| #[trigger]
        call_ensures(M::primitives, (m, u, gamma), a) && #[trigger] call_ensures(
            M::primitives,
            (m, u, gamma),
            b,
        ) ==> a == b
    &&& forall|r: Scalar, dr: Scalar, a: Scalar, b: Scalar| #[trigger]
        call_ensures(M::exit_ring, (m, r, dr), a) && #[trigger] call_ensures(
            M::exit_ring,
            (m, r, dr),
            b,
        ) ==> a == b
    &&& forall|ir: int, a: Scalar|
        0 <= ir < g.nr && #[trigger] call_ensures(
            M::exit_ring,
            (m, g.r.centre[ir + 2], g.r.width[ir + 2]),
            a,
        ) ==> (Scalar { bits: ZERO }).at_most(a)
    &&& forall|
        s1: Scalar,
        s2: Scalar,
        rho: Scalar,
        v: Scalar,
        p: Scalar,
        p1: Scalar,
        p2: Scalar,
        area: Scalar,
        t1: Scalar,
        t2: Scalar,
    |
        {
            &&& #[trigger] call_ensures(M::add_thrust, (m, s1, rho, v, p, p1, area), t1)
            &&& #[trigger] call_ensures(M::add_thrust, (m, s2, rho, v, p, p2, area), t2)
            &&& (Scalar { bits: ZERO }).at_most(area)
            &&& p1.at_most(p2)
            &&& !s1.below(s2)
        } ==> !t1.below(t2)
    &&& forall|a: Scalar, b: Scalar, x: Scalar, y: Scalar|
        {
            &&& #[trigger] call_ensures(M::force_in_si, (m, a, refs), x)
            &&& #[trigger] call_ensures(M::force_in_si, (m, b, refs), y)
            &&& !a.below(b)
        } ==> !x.below(y)
}

proof fn lemma_sums_fall_with_the_surroundings<M: ReportMath>(
    m: &M,
    g: &Grid,
    field: &SolidField,
    u: Seq<Cons>,
    gamma: Scalar,
    refs: RefScales,
    p1: Scalar,
    p2: Scalar,
    iz: int,
    n: int,
    s1: ExitSums,
    s2: ExitSums,
)
    requires
        pushes_back(m, g, refs),
        n <= g.nr,
        p1.at_most(p2),
        are_exit_sums(m, g, field, u, gamma, p1, iz, n, s1),
        are_exit_sums(m, g, field, u, gamma, p2, iz, n, s2),
    ensures
        !s1.thrust.below(s2.thrust),
    decreases n,
{
    if n > 0 {
        if field.solid(g.at(iz, n - 1)) {
            lemma_sums_fall_with_the_surroundings(
                m,
                g,
                field,
                u,
                gamma,
                refs,
                p1,
                p2,
                iz,
                n - 1,
                s1,
                s2,
            );
        } else {
            let c = u[g.pad(iz, n - 1)];
            let (r1, w1, c1) = choose|rest: ExitSums, w: Prim, sound: Scalar| #[trigger]
                exit_step(m, g, c, gamma, p1, n - 1, rest, w, sound, s1) && are_exit_sums(
                    m,
                    g,
                    field,
                    u,
                    gamma,
                    p1,
                    iz,
                    n - 1,
                    rest,
                );
            let (r2, w2, c2) = choose|rest: ExitSums, w: Prim, sound: Scalar| #[trigger]
                exit_step(m, g, c, gamma, p2, n - 1, rest, w, sound, s2) && are_exit_sums(
                    m,
                    g,
                    field,
                    u,
                    gamma,
                    p2,
                    iz,
                    n - 1,
                    rest,
                );
            lemma_sums_fall_with_the_surroundings(
                m,
                g,
                field,
                u,
                gamma,
                refs,
                p1,
                p2,
                iz,
                n - 1,
                r1,
                r2,
            );
        }
    }
}

/// What leaves the nozzle pushes it, the surroundings push back: of one field, the thrust
/// reported does not rise when the pressure of the surroundings does.
pub proof fn law_thrust_falls_with_the_surroundings<M: ReportMath>(
    m: &M,
    setup: &SolveSetup,
    higher: &SolveSetup,
    u: Seq<Cons>,
    converged: bool,
    still: bool,
    r1: Report,
    r2: Report,
)
    requires
        pushes_back(m, &setup.grid, setup.refs),
        higher.grid == setup.grid,
        higher.solid == setup.solid,
        higher.gas == setup.gas,
        higher.refs == setup.refs,
        setup.ambient.p.at_most(higher.ambient.p),
        is_report(m, setup, u, converged, r1),
        is_report(m, higher, u, still, r2),
    ensures
        !r1.figures.thrust_n.below(r2.figures.thrust_n),
{
    let o1 = choose|r_open: Seq<Scalar>| #[trigger]
        nozzle::are_open_radii(m, &setup.solid, r_open) && reports_on(
            m,
            setup,
            u,
            converged,
            r_open,
            r1,
        );
    let o2 = choose|r_open: Seq<Scalar>| #[trigger]
        nozzle::are_open_radii(m, &higher.solid, r_open) && reports_on(
            m,
            higher,
            u,
            still,
            r_open,
            r2,
        );
    let nan = Scalar { bits: QUIET_NAN };
    assert(nan.nan());
    if r1.figures.thrust_n != nan && r2.figures.thrust_n != nan {
        let lip = nozzle::lip_of(&setup.solid)->0;
        let p1 = setup.ambient.p;
        let p2 = higher.ambient.p;
        let gamma = setup.gas.gamma;
        let nr = setup.grid.nr as int;
        let s1 = choose|sums: ExitSums| #[trigger]
            are_exit_sums(m, &setup.grid, &setup.solid, u, gamma, p1, lip, nr, sums) && if flows(
                sums,
            ) {
                exists|ratio: Scalar, ideal: Scalar, limit: Scalar| #[trigger]
                    is_full_report(
                        m,
                        setup,
                        sums,
                        narrowest(o1, lip + 1),
                        o1[lip],
                        ratio,
                        ideal,
                        limit,
                        converged,
                        r1,
                    )
            } else {
                r1 == blank(converged)
            };
        let s2 = choose|sums: ExitSums| #[trigger]
            are_exit_sums(m, &setup.grid, &setup.solid, u, gamma, p2, lip, nr, sums) && if flows(
                sums,
            ) {
                exists|ratio: Scalar, ideal: Scalar, limit: Scalar| #[trigger]
                    is_full_report(
                        m,
                        higher,
                        sums,
                        narrowest(o2, lip + 1),
                        o2[lip],
                        ratio,
                        ideal,
                        limit,
                        still,
                        r2,
                    )
            } else {
                r2 == blank(still)
            };
        lemma_sums_fall_with_the_surroundings(
            m,
            &setup.grid,
            &setup.solid,
            u,
            gamma,
            setup.refs,
            p1,
            p2,
            lip,
            nr,
            s1,
            s2,
        );
        assert(call_ensures(M::force_in_si, (m, s1.thrust, setup.refs), r1.figures.thrust_n));
        assert(call_ensures(M::force_in_si, (m, s2.thrust, setup.refs), r2.figures.thrust_n));
    }
}

/// What one row of the exit plane adds: nothing where it is solid, and else the flow of
/// its axial momentum through its ring, the thrust of that flow and of its pressure
/// against that of the surroundings, its Mach number and its pressure by the area of the
/// ring, and that area.
pub proof fn law_rows_of_the_exit_plane<M: ReportMath>(
    m: &M,
    g: &Grid,
    field: &SolidField,
    u: Seq<Cons>,
    gamma: Scalar,
    p_ambient: Scalar,
    iz: int,
    ir: int,
    sums: ExitSums,
) -> (r: (ExitSums, Prim, Scalar, Scalar, Scalar))
    requires
        0 <= ir,
        are_exit_sums(m, g, field, u, gamma, p_ambient, iz, ir + 1, sums),
    ensures
        are_exit_sums(m, g, field, u, gamma, p_ambient, iz, ir, r.0),
        field.solid(g.at(iz, ir)) ==> r.0 == sums,
        !field.solid(g.at(iz, ir)) ==> {
            let (rest, w, sound, ring, mach) = r;
            &&& call_ensures(M::primitives, (m, u[g.pad(iz, ir)], gamma), w)
            &&& call_ensures(M::sound_speed, (m, w, gamma), sound)
            &&& call_ensures(M::exit_ring, (m, g.r.centre[ir + 2], g.r.width[ir + 2]), ring)
            &&& call_ensures(M::stream_mach, (m, w.uz, w.ur, sound), mach)
            &&& call_ensures(M::add_flow, (m, rest.mass_flow, w.rho, w.uz, ring), sums.mass_flow)
            &&& call_ensures(
                M::add_thrust,
                (m, rest.thrust, w.rho, w.uz, w.p, p_ambient, ring),
                sums.thrust,
            )
            &&& call_ensures(M::add_weighted, (m, rest.mach, mach, ring), sums.mach)
            &&& call_ensures(M::add_weighted, (m, rest.pressure, w.p, ring), sums.pressure)
            &&& call_ensures(M::add_ring, (m, rest.area, ring), sums.area)
        },
        ir == 0 ==> {
            &&& r.0.mass_flow.bits == ZERO
            &&& r.0.thrust.bits == ZERO
            &&& r.0.mach.bits == ZERO
            &&& r.0.pressure.bits == ZERO
            &&& r.0.area.bits == ZERO
        },
{
    let c = u[g.pad(iz, ir)];
    if field.solid(g.at(iz, ir)) {
        let w = arbitrary();
        (sums, w, sums.area, sums.area, sums.area)
    } else {
        let (rest, w, sound) = choose|rest: ExitSums, w: Prim, sound: Scalar| #[trigger]
            exit_step(m, g, c, gamma, p_ambient, ir, rest, w, sound, sums) && are_exit_sums(
                m,
                g,
                field,
                u,
                gamma,
                p_ambient,
                iz,
                ir,
                rest,
            );
        let (ring, mach) = choose|ring: Scalar, mach: Scalar|
            {
                &&& #[trigger] call_ensures(
                    M::exit_ring,
                    (m, g.r.centre[ir + 2], g.r.width[ir + 2]),
                    ring,
                )
                &&& #[trigger] call_ensures(M::stream_mach, (m, w.uz, w.ur, sound), mach)
                &&& call_ensures(
                    M::add_flow,
                    (m, rest.mass_flow, w.rho, w.uz, ring),
                    sums.mass_flow,
                )
                &&& call_ensures(
                    M::add_thrust,
                    (m, rest.thrust, w.rho, w.uz, w.p, p_ambient, ring),
                    sums.thrust,
                )
                &&& call_ensures(M::add_weighted, (m, rest.mach, mach, ring), sums.mach)
                &&& call_ensures(M::add_weighted, (m, rest.pressure, w.p, ring), sums.pressure)
                &&& call_ensures(M::add_ring, (m, rest.area, ring), sums.area)
            };
        (rest, w, sound, ring, mach)
    }
}

/// The throat is the narrowest opening up to the lip.
pub proof fn law_the_throat_is_narrowest(r_open: Seq<Scalar>, n: int, i: int)
    requires
        0 <= i < n <= r_open.len(),
    ensures
        !r_open[i].below(narrowest(r_open, n)),
        narrowest(r_open, n).bits == INFINITE || exists|j: int|
            0 <= j < n && narrowest(r_open, n) == #[trigger] r_open[j],
    decreases n,
{
    if i < n - 1 {
        law_the_throat_is_narrowest(r_open, n - 1, i);
    } else if n > 1 {
        law_the_throat_is_narrowest(r_open, n - 1, 0);
    }
    lemma_narrowest_is_a_number(r_open, n - 1);
    lemma_narrowest_is_a_number(r_open, n);
    let a = narrowest(r_open, n - 1);
    let b = r_open[n - 1];
    assert(narrowest(r_open, n) == a || narrowest(r_open, n) == b);
}

proof fn lemma_narrowest_is_a_number(r_open: Seq<Scalar>, n: int)
    ensures
        !narrowest(r_open, n).nan(),
    decreases n,
{
    if n > 0 {
        lemma_narrowest_is_a_number(r_open, n - 1);
    }
}

/// Figures of a flow are made of the integrals over the plane of the lip: flow and force
/// in SI units, the force over the throat's area, the mean Mach number and pressure over
/// the plane's area, the pressure over that of the surroundings, the ideal over the actual
/// characteristic velocity, the ideal Mach number of the exit's area over the throat's,
/// and the throat's radius in cells. Without a wall, an open bore or a flow there are
/// none.
pub proof fn law_figures_of_a_report<M: ReportMath>(
    m: &M,
    setup: &SolveSetup,
    u: Seq<Cons>,
    converged: bool,
    r: Report,
) -> (w: (Seq<Scalar>, ExitSums, Scalar, Scalar, Scalar, Scalar))
    requires
        is_report(m, setup, u, converged, r),
    ensures
        r.converged == converged,
        nozzle::are_open_radii(m, &setup.solid, w.0),
        nozzle::lip_of(&setup.solid) is None ==> r == blank(converged),
        nozzle::lip_of(&setup.solid) matches Some(lip) ==> {
            let f = r.figures;
            let (open, sums, throat_area, exit_p, ideal, ratio) = w;
            let throat = narrowest(open, lip + 1);
            let zero = Scalar { bits: ZERO };
            &&& !zero.below(throat) || !zero.below(open[lip]) ==> r == blank(converged)
            &&& zero.below(throat) && zero.below(open[lip]) ==> {
                &&& are_exit_sums(
                    m,
                    &setup.grid,
                    &setup.solid,
                    u,
                    setup.gas.gamma,
                    setup.ambient.p,
                    lip,
                    setup.grid.nr as int,
                    sums,
                )
                &&& sums.area.at_most(zero) || (Scalar {
                    bits: sums.mass_flow.magnitude() as u64,
                }).below(Scalar { bits: FLOW_MIN }) ==> r == blank(converged)
                &&& !sums.area.at_most(zero) && !(Scalar {
                    bits: sums.mass_flow.magnitude() as u64,
                }).below(Scalar { bits: FLOW_MIN }) ==> {
                    &&& call_ensures(M::circle_area, (m, throat), throat_area)
                    &&& call_ensures(M::flow_in_si, (m, sums.mass_flow, setup.refs), f.mass_flow_kg_s)
                    &&& call_ensures(M::force_in_si, (m, sums.thrust, setup.refs), f.thrust_n)
                    &&& call_ensures(
                        M::ratio_of,
                        (m, sums.thrust, throat_area),
                        f.thrust_coefficient,
                    )
                    &&& call_ensures(
                        M::characteristic_velocity,
                        (m, throat_area, f.mass_flow_kg_s, setup.refs),
                        f.c_star_m_s,
                    )
                    &&& call_ensures(M::ideal_velocity, (m, setup.gas, setup.refs), ideal)
                    &&& call_ensures(
                        M::ratio_of,
                        (m, ideal, f.c_star_m_s),
                        f.discharge_coefficient,
                    )
                    &&& call_ensures(M::ratio_of, (m, sums.mach, sums.area), f.exit_mach)
                    &&& call_ensures(M::ratio_of, (m, sums.pressure, sums.area), exit_p)
                    &&& call_ensures(M::pressure_in_si, (m, exit_p, setup.refs), f.exit_pressure_pa)
                    &&& call_ensures(
                        M::ratio_of,
                        (m, exit_p, setup.ambient.p),
                        f.exit_pressure_ratio,
                    )
                    &&& call_ensures(M::area_ratio, (m, open[lip], throat), ratio)
                    &&& mach::is_mach_at(m, ratio, setup.gas.gamma, true, f.ideal_exit_mach)
                    &&& call_ensures(
                        M::ratio_of,
                        (m, throat, setup.grid.dr_min),
                        f.cells_per_throat_radius,
                    )
                }
            }
        },
{
    let open = choose|r_open: Seq<Scalar>| #[trigger]
        nozzle::are_open_radii(m, &setup.solid, r_open) && reports_on(
            m,
            setup,
            u,
            converged,
            r_open,
            r,
        );
    let lip = nozzle::lip_of(&setup.solid)->0;
    let throat = narrowest(open, lip + 1);
    let sums = choose|sums: ExitSums| #[trigger]
        are_exit_sums(
            m,
            &setup.grid,
            &setup.solid,
            u,
            setup.gas.gamma,
            setup.ambient.p,
            lip,
            setup.grid.nr as int,
            sums,
        ) && if flows(sums) {
            exists|ratio: Scalar, ideal: Scalar, limit: Scalar| #[trigger]
                is_full_report(
                    m,
                    setup,
                    sums,
                    throat,
                    open[lip],
                    ratio,
                    ideal,
                    limit,
                    converged,
                    r,
                )
        } else {
            r == blank(converged)
        };
    let (ratio, ideal_mach, limit) = choose|ratio: Scalar, ideal: Scalar, limit: Scalar| #[trigger]
        is_full_report(m, setup, sums, throat, open[lip], ratio, ideal, limit, converged, r);
    let (throat_area, exit_p, ideal) = choose|throat_area: Scalar, exit_p: Scalar, ideal: Scalar|
        {
            &&& #[trigger] are_scaled(
                m,
                setup,
                sums.mass_flow,
                sums.thrust,
                throat,
                throat_area,
                exit_p,
                r.figures,
            )
            &&& call_ensures(M::ratio_of, (m, sums.pressure, sums.area), exit_p)
            &&& #[trigger] call_ensures(M::ideal_velocity, (m, setup.gas, setup.refs), ideal)
            &&& call_ensures(M::ratio_of, (m, ideal, r.figures.c_star_m_s), r.figures.discharge_coefficient)
            &&& call_ensures(M::ratio_of, (m, sums.mach, sums.area), r.figures.exit_mach)
            &&& r.figures.ideal_exit_mach == ideal_mach
        };
    (open, sums, throat_area, exit_p, ideal, ratio)
}

/// What a standing tells: the figures are valid only of a converged run whose exit
/// pressure is below neither the limit of its Mach number nor the lowest at which a flow
/// can separate, over a throat of enough cells; and each lesser standing has its reason.
pub proof fn law_standings_have_reasons<M: ReportMath>(
    m: &M,
    setup: &SolveSetup,
    u: Seq<Cons>,
    converged: bool,
    r: Report,
)
    requires
        is_report(m, setup, u, converged, r),
        r != blank(converged),
    ensures
        exists|limit: Scalar|
            {
                let ratio = r.figures.exit_pressure_ratio;
                let low = ratio.below(Scalar { bits: SEPARATION_MIN }) || ratio.below(limit);
                let coarse = r.figures.cells_per_throat_radius.below(Scalar { bits: CELLS_MIN });
                &&& #[trigger] call_ensures(M::separation_limit, (m, r.figures.exit_mach), limit)
                &&& r.confidence == Confidence::Valid <==> converged && !low && !coarse
                &&& r.confidence == Confidence::Underresolved <==> converged && !low && coarse
                &&& r.confidence == Confidence::SeparationLikely <==> converged && low
                &&& r.confidence == Confidence::NotConverged <==> !converged
            },
{
    let low = Scalar { bits: SEPARATION_MIN };
    assert(!low.nan());
}

} // verus!
