//! An analytic preview behind the same interface as the solver: one-dimensional
//! flow inside the nozzle and a drawn plume behind it.

use vstd::prelude::*;
use crate::error::CfdError;
use crate::field::{Ambient, Confidence, Numerics, SolidField};
use crate::flow;
use crate::flow::Prim;
use crate::grid;
use crate::grid::{Grid, GridMath};
use crate::mach;
use crate::mach::mach_by_bisection;
use crate::monitor::MonitorMath;
use crate::nozzle;
use crate::nozzle::find_wall;
use crate::report;
use crate::report::{
    blank_report, scaled_figures, separation_likely, Figures, Report, ReportMath,
};
use crate::scalar::{Scalar, INFINITE, ONE, QUIET_NAN, ZERO};
use crate::setup;
use crate::setup::{solid_matches, SolveSetup, StepInfo};
use crate::snapshot;
use crate::snapshot::{snapshot_from_prims, DisplayMath, Snapshot};
use crate::solver::Solver;

verus! {

/// The pattern of the fixed time step, 0.05.
pub const DT: u64 = 0x3FA9_9999_9999_999A;

/// The pattern of the time step in cell-data precision.
pub const DT_SINGLE: u64 = 0x3FA9_9999_A000_0000;

/// The pattern of the smallest residual, 1e-4.
pub const RESIDUAL_MIN: u64 = 0x3F1A_36E2_EB1C_432D;

/// The pattern of the residual below which the preview has settled, 1e-3.
pub const RESIDUAL_SETTLED: u64 = 0x3F50_624D_D2F1_A9FC;

/// The pattern of the smallest throat radius, 1e-6.
pub const THROAT_FLOOR: u64 = 0x3EB0_C6F7_A0B5_ED8D;

/// The pattern of the lowest ambient pressure, 1e-9.
pub const AMBIENT_FLOOR: u64 = 0x3E11_2E0B_E826_D695;

/// The step from which on a residual is told.
pub const FIRST_RESIDUAL: u64 = 10;

/// What is known of the flow at the nozzle exit.
#[derive(Debug, Clone, Copy, PartialEq)]
pub struct Exit {
    pub radius: Scalar,
    pub mach: Scalar,
    pub pressure: Scalar,
    pub velocity: Scalar,
}

/// The drawn plume at one station.
#[derive(Debug, Clone, Copy, PartialEq)]
pub struct Plume {
    /// Distance from the lip.
    pub past_lip: Scalar,
    /// Distance of the Mach disk from the lip.
    pub disk: Scalar,
    /// Outer radius of the plume.
    pub edge: Scalar,
    /// Radius of the slow core behind the disk.
    pub core: Scalar,
}

/// The floating-point formulas of the preview.
pub trait MockMath: ReportMath + MonitorMath + DisplayMath + Send {
    /// Pressure of an isentropic stream of a Mach number.
    fn exit_pressure(&self, mach: Scalar, gamma: Scalar) -> Scalar;

    /// Velocity of an isentropic stream of a Mach number.
    fn exit_velocity(&self, mach: Scalar, gamma: Scalar) -> Scalar;

    /// How far the front that left the lip has come.
    fn front(&self, z_lip: Scalar, velocity: Scalar, time: Scalar) -> Scalar;

    /// The state inside the nozzle, where the wall runs from `r_wall` to `r_next`
    /// over one cell.
    fn bore_state(
        &self,
        mach: Scalar,
        r: Scalar,
        r_wall: Scalar,
        r_next: Scalar,
        dz: Scalar,
        gamma: Scalar,
    ) -> Prim;

    /// The plume at the station `z`.
    fn plume(
        &self,
        z: Scalar,
        z_lip: Scalar,
        lz: Scalar,
        exit: Exit,
        p_ambient: Scalar,
    ) -> Plume;

    /// The state in the slow core behind the Mach disk.
    fn core_state(&self, r: Scalar, plume: Plume, p_ambient: Scalar, gamma: Scalar) -> Prim;

    /// The state in the rest of the plume.
    fn plume_state(
        &self,
        r: Scalar,
        plume: Plume,
        exit: Exit,
        p_ambient: Scalar,
        time: Scalar,
        gamma: Scalar,
    ) -> Prim;

    /// The residual at a time, when the problem last changed at `since`.
    fn settling(&self, time: Scalar, since: Scalar) -> Scalar;

    /// The mass flow through a choked throat.
    fn choked_flow(&self, throat_area: Scalar, gamma: Scalar) -> Scalar;

    /// The thrust of a mass flow that leaves through an area.
    fn preview_thrust(
        &self,
        flow: Scalar,
        velocity: Scalar,
        p: Scalar,
        p_ambient: Scalar,
        area: Scalar,
    ) -> Scalar;
}

/// The ideal figures of a nozzle: a choked throat, the isentropic exit, and nothing lost.
pub open spec fn are_ideal_figures<M: MockMath>(
    m: &M,
    setup: &SolveSetup,
    exit: Exit,
    r_throat: Scalar,
    f: Figures,
) -> bool {
    exists|throat_area: Scalar, exit_area: Scalar, flow: Scalar, thrust: Scalar|
        {
            &&& #[trigger] call_ensures(M::circle_area, (m, exit.radius), exit_area)
            &&& call_ensures(M::choked_flow, (m, throat_area, setup.gas.gamma), flow)
            &&& call_ensures(
                M::preview_thrust,
                (m, flow, exit.velocity, exit.pressure, setup.ambient.p, exit_area),
                thrust,
            )
            &&& #[trigger] report::are_scaled(
                m,
                setup,
                flow,
                thrust,
                r_throat,
                throat_area,
                exit.pressure,
                f,
            )
            &&& f.discharge_coefficient.bits == ONE
            &&& f.exit_mach == exit.mach
            &&& f.ideal_exit_mach == exit.mach
        }
}

fn ideal_figures<M: MockMath>(
    m: &M,
    setup: &SolveSetup,
    exit: Exit,
    r_throat: Scalar,
) -> (f: Figures)
    ensures
        are_ideal_figures(m, setup, exit, r_throat, f),
{
    let throat_area = m.circle_area(r_throat);
    let exit_area = m.circle_area(exit.radius);
    let flow = m.choked_flow(throat_area, setup.gas.gamma);
    let thrust = m.preview_thrust(
        flow,
        exit.velocity,
        exit.pressure,
        setup.ambient.p,
        exit_area,
    );
    let one = Scalar { bits: ONE };
    scaled_figures(
        m,
        setup,
        flow,
        thrust,
        r_throat,
        throat_area,
        exit.pressure,
        one,
        exit.mach,
        exit.mach,
    )
}

/// `r` is the bore radius of column `iz`: the lower face of its first solid cell,
/// at least one cell, or infinite where the column has no solid.
pub open spec fn is_bore_radius<M: GridMath>(
    m: &M,
    g: &Grid,
    field: &SolidField,
    iz: int,
    r: Scalar,
) -> bool {
    let wall = nozzle::wall_from(field, iz, 0);
    if wall < g.nr {
        exists|face: Scalar| #[trigger]
            call_ensures(M::narrow, (m, g.r_edges[wall]), face) && r == face.larger(g.r.width[2])
    } else {
        r.bits == INFINITE
    }
}

/// `r_open` are the bore radii of all columns.
pub open spec fn are_bore_radii<M: GridMath>(
    m: &M,
    g: &Grid,
    field: &SolidField,
    r_open: Seq<Scalar>,
) -> bool {
    &&& r_open.len() == g.nz
    &&& forall|iz: int|
        0 <= iz < r_open.len() ==> is_bore_radius(m, g, field, iz, #[trigger] r_open[iz])
}

fn bore_radii<M: GridMath>(m: &M, g: &Grid, field: &SolidField) -> (r_open: Vec<Scalar>)
    requires
        g.wf(),
        field.wf(),
        field.grid.nz == g.nz,
        field.grid.nr == g.nr,
    ensures
        are_bore_radii(m, g, field, r_open@),
{
    let mut r_open: Vec<Scalar> = Vec::new();
    let mut iz: usize = 0;
    while iz < g.nz
        invariant
            g.wf(),
            field.wf(),
            field.grid.nz == g.nz,
            field.grid.nr == g.nr,
            iz <= g.nz,
            r_open.len() == iz,
            forall|j: int| 0 <= j < iz ==> is_bore_radius(m, g, field, j, #[trigger] r_open[j]),
        decreases g.nz - iz,
    {
        let wall: usize = find_wall(field, iz);
        if wall < g.nr {
            let face = g.r_face(m, wall);
            r_open.push(face.max(g.dr(0)));
        } else {
            r_open.push(Scalar { bits: INFINITE });
        }
        iz = iz + 1;
    }
    r_open
}

/// The last of the first `n` columns with a finite bore.
pub open spec fn last_bored(r_open: Seq<Scalar>, n: int) -> Option<usize>
    decreases n,
{
    if n <= 0 {
        None
    } else if r_open[n - 1].finite() {
        Some((n - 1) as usize)
    } else {
        last_bored(r_open, n - 1)
    }
}

fn find_lip(r_open: &Vec<Scalar>) -> (lip: Option<usize>)
    ensures
        lip == last_bored(r_open@, r_open.len() as int),
        lip matches Some(l) ==> l < r_open.len(),
{
    let mut lip: Option<usize> = None;
    let mut i: usize = 0;
    while i < r_open.len()
        invariant
            i <= r_open.len(),
            lip == last_bored(r_open@, i as int),
            lip matches Some(l) ==> l < i,
        decreases r_open.len() - i,
    {
        if r_open[i].is_finite() {
            lip = Some(i);
        }
        i = i + 1;
    }
    lip
}

/// The first of the narrowest among the first `n` bores, and its radius.
pub open spec fn first_narrowest(r_open: Seq<Scalar>, n: int) -> (usize, Scalar)
    decreases n,
{
    if n <= 0 {
        (0, Scalar { bits: INFINITE })
    } else {
        let best = first_narrowest(r_open, n - 1);
        if r_open[n - 1].below(best.1) {
            ((n - 1) as usize, r_open[n - 1])
        } else {
            best
        }
    }
}

fn find_throat(r_open: &Vec<Scalar>, n: usize) -> (best: (usize, Scalar))
    requires
        n <= r_open.len(),
    ensures
        best == first_narrowest(r_open@, n as int),
{
    let mut at: usize = 0;
    let mut r = Scalar { bits: INFINITE };
    let mut i: usize = 0;
    while i < n
        invariant
            i <= n <= r_open.len(),
            (at, r) == first_narrowest(r_open@, i as int),
        decreases n - i,
    {
        if r_open[i].lt(r) {
            at = i;
            r = r_open[i];
        }
        i = i + 1;
    }
    (at, r)
}

/// The preview.
pub struct MockSolver<M: MockMath> {
    pub math: M,
    pub setup: SolveSetup,
    pub info: StepInfo,
    pub r_open: Vec<Scalar>,
    pub lip: Option<usize>,
    pub i_throat: usize,
    pub r_throat: Scalar,
    pub t_change: Scalar,
}

/// The exit follows from the bore at the lip and the throat.
pub open spec fn is_exit<M: MockMath>(
    m: &M,
    lr: Scalar,
    r_lip: Scalar,
    r_throat: Scalar,
    gamma: Scalar,
    ratio: Scalar,
    exit: Exit,
) -> bool {
    &&& exit.radius == r_lip.smaller(lr).larger(r_throat)
    &&& call_ensures(M::area_ratio, (m, exit.radius, r_throat), ratio)
    &&& mach::is_mach_by_bisection(
        m,
        ratio.larger(Scalar { bits: ONE }),
        gamma,
        true,
        exit.mach,
    )
    &&& call_ensures(M::exit_pressure, (m, exit.mach, gamma), exit.pressure)
    &&& call_ensures(M::exit_velocity, (m, exit.mach, gamma), exit.velocity)
}

fn find_exit<M: MockMath>(
    m: &M,
    lr: Scalar,
    r_lip: Scalar,
    r_throat: Scalar,
    gamma: Scalar,
) -> (exit: Exit)
    ensures
        exists|ratio: Scalar| #[trigger] is_exit(m, lr, r_lip, r_throat, gamma, ratio, exit),
{
    let radius = r_lip.min(lr).max(r_throat);
    let ratio = m.area_ratio(radius, r_throat);
    let mach = mach_by_bisection(m, ratio.max(Scalar { bits: ONE }), gamma, true);
    let pressure = m.exit_pressure(mach, gamma);
    let velocity = m.exit_velocity(mach, gamma);
    let exit = Exit { radius, mach, pressure, velocity };
    assert(is_exit(m, lr, r_lip, r_throat, gamma, ratio, exit));
    exit
}

/// Zero in every component.
pub open spec fn nothing() -> Prim {
    let zero = Scalar { bits: ZERO };
    Prim { rho: zero, uz: zero, ur: zero, p: zero }
}

impl<M: MockMath> MockSolver<M> {
    /// The profile belongs to the geometry.
    pub open spec fn wf(&self) -> bool {
        &&& self.setup.wf()
        &&& setup::matches_grid(&self.setup.solid, &self.setup.grid)
        &&& are_bore_radii(&self.math, &self.setup.grid, &self.setup.solid, self.r_open@)
        &&& self.lip == last_bored(self.r_open@, self.r_open.len() as int)
        &&& self.lip matches Some(l) ==> l < self.r_open.len() && self.has_throat(l as int)
    }

    /// The throat is the first of the narrowest bores up to the lip.
    pub open spec fn has_throat(&self, lip: int) -> bool {
        let best = first_narrowest(self.r_open@, lip + 1);
        &&& self.i_throat == best.0
        &&& self.r_throat == best.1.larger(Scalar { bits: THROAT_FLOOR })
    }

    /// Finds the bore, the lip and the throat of the geometry.
    fn recompute_profile(&mut self)
        requires
            old(self).setup.wf(),
            setup::matches_grid(&old(self).setup.solid, &old(self).setup.grid),
        ensures
            final(self).wf(),
            final(self).math == old(self).math,
            final(self).setup == old(self).setup,
            final(self).info == old(self).info,
            final(self).t_change == old(self).t_change,
            final(self).lip is None ==> final(self).i_throat == old(self).i_throat,
            final(self).lip is None ==> final(self).r_throat == old(self).r_throat,
    {
        self.r_open = bore_radii(&self.math, &self.setup.grid, &self.setup.solid);
        self.lip = find_lip(&self.r_open);
        match self.lip {
            None => {},
            Some(lip) => {
                let (at, r) = find_throat(&self.r_open, lip + 1);
                self.i_throat = at;
                self.r_throat = r.max(Scalar { bits: THROAT_FLOOR });
            },
        }
    }

    /// A preview at time zero.
    pub fn new(math: M, setup: SolveSetup) -> (r: Result<MockSolver<M>, CfdError>)
        requires
            setup.wf(),
        ensures
            match r {
                Ok(s) => {
                    &&& setup::matches_grid(&setup.solid, &setup.grid)
                    &&& s.wf()
                    &&& s.math == math
                    &&& s.setup == setup
                    &&& s.info.step == 0
                    &&& s.info.time.bits == ZERO
                    &&& s.info.dt.bits == DT_SINGLE
                    &&& s.info.residual.bits == QUIET_NAN
                    &&& !s.info.converged
                    &&& s.info.floor_activations == 0
                    &&& s.t_change.bits == ZERO
                    &&& s.lip is None ==> s.i_throat == 0 && s.r_throat.bits == ZERO
                },
                Err(e) => {
                    &&& !setup::matches_grid(&setup.solid, &setup.grid)
                    &&& e matches CfdError::Geometry(s) && s@
                        == "solid field does not match grid"@
                },
            },
    {
        if !solid_matches(&setup.solid, &setup.grid) {
            return Err(CfdError::Geometry("solid field does not match grid".to_owned()));
        }
        let zero = Scalar { bits: ZERO };
        let mut s = MockSolver {
            math,
            setup,
            info: StepInfo {
                step: 0,
                time: zero,
                dt: Scalar { bits: DT_SINGLE },
                residual: Scalar { bits: QUIET_NAN },
                converged: false,
                floor_activations: 0,
            },
            r_open: Vec::new(),
            lip: None,
            i_throat: 0,
            r_throat: zero,
            t_change: zero,
        };
        s.recompute_profile();
        Ok(s)
    }

    /// `w` is the ambient state.
    pub open spec fn is_ambient(&self, w: Prim) -> bool {
        let a = self.setup.ambient;
        exists|rho: Scalar| #[trigger]
            call_ensures(M::gas_density, (&self.math, a.p, a.t), rho) && w == flow::still(
                rho,
                a.p,
            )
    }

    fn ambient_prim(&self) -> (w: Prim)
        ensures
            self.is_ambient(w),
    {
        let a = self.setup.ambient;
        let rho = self.math.gas_density(a.p, a.t);
        Prim { rho, uz: Scalar { bits: ZERO }, ur: Scalar { bits: ZERO }, p: a.p }
    }

    /// The wall of the column after `iz`, held at the lip: its own where that one
    /// has none, and no narrower than the throat.
    pub open spec fn next_wall(&self, iz: int, lip: int, r_wall: Scalar) -> Scalar {
        let next = self.r_open[grid::lesser(iz + 1, lip)];
        (if next.finite() {
            next
        } else {
            r_wall
        }).larger(self.r_throat)
    }

    /// The state inside the nozzle: one-dimensional flow within the bore, the
    /// surroundings outside of it and where the wall has a gap.
    pub open spec fn is_bore_cell(&self, lip: int, iz: int, ir: int, w: Prim) -> bool {
        let g = &self.setup.grid;
        let r = g.r.centre[ir + 2];
        let r_wall = self.r_open[iz].larger(self.r_throat);
        if !self.r_open[iz].finite() || r_wall.below(r) {
            self.is_ambient(w)
        } else {
            exists|ratio: Scalar, mach: Scalar| #[trigger]
                self.is_bore_state(lip, iz, r, r_wall, ratio, mach, w)
        }
    }

    /// `w` is the one-dimensional flow of a Mach number in column `iz`.
    pub open spec fn is_bore_state(
        &self,
        lip: int,
        iz: int,
        r: Scalar,
        r_wall: Scalar,
        ratio: Scalar,
        mach: Scalar,
        w: Prim,
    ) -> bool {
        let m = &self.math;
        let gamma = self.setup.gas.gamma;
        &&& call_ensures(M::area_ratio, (m, r_wall, self.r_throat), ratio)
        &&& mach::is_mach_by_bisection(
            m,
            ratio.larger(Scalar { bits: ONE }),
            gamma,
            iz > self.i_throat,
            mach,
        )
        &&& call_ensures(
            M::bore_state,
            (
                m,
                mach,
                r,
                r_wall,
                self.next_wall(iz, lip, r_wall),
                self.setup.grid.z.width[iz + 2],
                gamma,
            ),
            w,
        )
    }

    fn bore_cell(&self, lip: usize, iz: usize, ir: usize) -> (w: Prim)
        requires
            self.wf(),
            self.lip == Some(lip),
            iz <= lip,
            ir < self.setup.grid.nr,
        ensures
            self.is_bore_cell(lip as int, iz as int, ir as int, w),
    {
        let g = &self.setup.grid;
        let m = &self.math;
        let gamma = self.setup.gas.gamma;
        let r = g.r_center(ir);
        let r_wall = self.r_open[iz].max(self.r_throat);
        if !self.r_open[iz].is_finite() || r_wall.lt(r) {
            return self.ambient_prim();
        }
        let ratio = m.area_ratio(r_wall, self.r_throat);
        let mach = mach_by_bisection(
            m,
            ratio.max(Scalar { bits: ONE }),
            gamma,
            iz > self.i_throat,
        );
        let after: usize = if iz + 1 < lip {
            iz + 1
        } else {
            lip
        };
        let next = self.r_open[after];
        let r_next = (if next.is_finite() {
            next
        } else {
            r_wall
        }).max(self.r_throat);
        let w = m.bore_state(mach, r, r_wall, r_next, g.dz(iz), gamma);
        assert(r_next == self.next_wall(iz as int, lip as int, r_wall));
        assert(self.is_bore_state(lip as int, iz as int, r, r_wall, ratio, mach, w));
        w
    }

    /// The state behind the nozzle: the surroundings past the front and outside
    /// of the plume, the slow core behind the Mach disk, and else the plume.
    pub open spec fn is_plume_cell(
        &self,
        exit: Exit,
        z_lip: Scalar,
        reach: Scalar,
        plume: Plume,
        iz: int,
        ir: int,
        w: Prim,
    ) -> bool {
        let g = &self.setup.grid;
        let m = &self.math;
        let gamma = self.setup.gas.gamma;
        let z = g.z.centre[iz + 2];
        let r = g.r.centre[ir + 2];
        let p_a = self.setup.ambient.p.larger(Scalar { bits: AMBIENT_FLOOR });
        &&& call_ensures(M::front, (m, z_lip, exit.velocity, self.info.time), reach)
        &&& if reach.below(z) {
            self.is_ambient(w)
        } else {
            &&& call_ensures(M::plume, (m, z, z_lip, g.z_edges@.last(), exit, p_a), plume)
            &&& if plume.edge.below(r) {
                self.is_ambient(w)
            } else if plume.disk.below(plume.past_lip) && r.below(plume.core) {
                call_ensures(M::core_state, (m, r, plume, p_a, gamma), w)
            } else {
                call_ensures(
                    M::plume_state,
                    (m, r, plume, exit, p_a, self.info.time, gamma),
                    w,
                )
            }
        }
    }

    /// The state of the cell (iz, ir).
    pub open spec fn is_cell(&self, iz: int, ir: int, w: Prim) -> bool {
        let g = &self.setup.grid;
        if self.setup.solid.solid(g.at(iz, ir)) {
            w == nothing()
        } else {
            match self.lip {
                None => self.is_ambient(w),
                Some(lip) => if iz <= lip {
                    self.is_bore_cell(lip as int, iz, ir, w)
                } else {
                    exists|
                        ratio: Scalar,
                        exit: Exit,
                        z_lip: Scalar,
                        reach: Scalar,
                        plume: Plume,
                    |
                        {
                            &&& #[trigger] is_exit(
                                &self.math,
                                g.r_edges@.last(),
                                self.r_open[lip as int],
                                self.r_throat,
                                self.setup.gas.gamma,
                                ratio,
                                exit,
                            )
                            &&& call_ensures(
                                M::narrow,
                                (&self.math, g.z_edges[lip + 1]),
                                z_lip,
                            )
                            &&& #[trigger] self.is_plume_cell(
                                exit,
                                z_lip,
                                reach,
                                plume,
                                iz,
                                ir,
                                w,
                            )
                        }
                },
            }
        }
    }

    /// The analytic state of the cell (iz, ir).
    pub fn prim_at(&self, iz: usize, ir: usize) -> (w: Prim)
        requires
            self.wf(),
            self.setup.grid.inside(iz as int, ir as int),
        ensures
            self.is_cell(iz as int, ir as int, w),
    {
        let g = &self.setup.grid;
        let m = &self.math;
        let gamma = self.setup.gas.gamma;
        let zero = Scalar { bits: ZERO };
        if self.setup.solid.is_solid(g.idx(iz, ir)) {
            return Prim { rho: zero, uz: zero, ur: zero, p: zero };
        }
        match self.lip {
            None => self.ambient_prim(),
            Some(lip) => {
                if iz <= lip {
                    return self.bore_cell(lip, iz, ir);
                }
                let exit = find_exit(m, g.lr(), self.r_open[lip], self.r_throat, gamma);
                let z_lip = g.z_face(m, lip + 1);
                let p_a = self.setup.ambient.p.max(Scalar { bits: AMBIENT_FLOOR });
                let z = g.z_center(iz);
                let r = g.r_center(ir);
                let reach = m.front(z_lip, exit.velocity, self.info.time);
                if reach.lt(z) {
                    let w = self.ambient_prim();
                    let ghost any = Plume { past_lip: zero, disk: zero, edge: zero, core: zero };
                    assert(self.is_plume_cell(exit, z_lip, reach, any, iz as int, ir as int, w));
                    return w;
                }
                let plume = m.plume(z, z_lip, g.lz(), exit, p_a);
                let w = if plume.edge.lt(r) {
                    self.ambient_prim()
                } else if plume.disk.lt(plume.past_lip) && r.lt(plume.core) {
                    m.core_state(r, plume, p_a, gamma)
                } else {
                    m.plume_state(r, plume, exit, p_a, self.info.time, gamma)
                };
                assert(self.is_plume_cell(exit, z_lip, reach, plume, iz as int, ir as int, w));
                w
            },
        }
    }

    /// `prims` are the states of all cells.
    pub open spec fn are_cells(&self, prims: Seq<Prim>) -> bool {
        let g = &self.setup.grid;
        &&& prims.len() == g.cells()
        &&& forall|iz: int, ir: int| #[trigger]
            g.inside(iz, ir) ==> self.is_cell(iz, ir, prims[g.at(iz, ir)])
    }

    fn all_prims(&self) -> (prims: Vec<Prim>)
        requires
            self.wf(),
        ensures
            self.are_cells(prims@),
    {
        let g = &self.setup.grid;
        let n: usize = g.len();
        let mut prims: Vec<Prim> = Vec::new();
        let mut q: usize = 0;
        while q < n
            invariant
                self.wf(),
                g == &self.setup.grid,
                n == g.cells(),
                q <= n,
                prims.len() == q,
                forall|j: int|
                    0 <= j < q ==> self.is_cell(
                        j % (g.nz as int),
                        j / (g.nz as int),
                        #[trigger] prims[j],
                    ),
            decreases n - q,
        {
            proof {
                grid::law_interior_positions(g.nz as int, g.nr as int, q as int);
            }
            let w = self.prim_at(q % g.nz, q / g.nz);
            prims.push(w);
            q = q + 1;
        }
        proof {
            assert forall|iz: int, ir: int| #[trigger] g.inside(iz, ir) implies self.is_cell(
                iz,
                ir,
                prims@[g.at(iz, ir)],
            ) by {
                grid::law_interior_layout(g.nz as int, g.nr as int, iz, ir);
                assert(prims@[g.at(iz, ir)] == prims[g.at(iz, ir)]);
            }
        }
        prims
    }

    /// `r` is the report of the preview: blank without a nozzle, else its ideal
    /// figures.
    pub open spec fn is_preview_report(&self, r: Report) -> bool {
        match self.lip {
            None => r == report::blank(self.info.converged),
            Some(lip) => {
                &&& exists|ratio: Scalar, exit: Exit, limit: Scalar|
                    {
                        &&& #[trigger] is_exit(
                            &self.math,
                            self.setup.grid.r_edges@.last(),
                            self.r_open[lip as int],
                            self.r_throat,
                            self.setup.gas.gamma,
                            ratio,
                            exit,
                        )
                        &&& are_ideal_figures(&self.math, &self.setup, exit, self.r_throat, r.figures)
                        &&& #[trigger] call_ensures(
                            M::separation_limit,
                            (&self.math, exit.mach),
                            limit,
                        )
                        &&& r.confidence == if !self.info.converged {
                            Confidence::NotConverged
                        } else if report::may_separate(r.figures, limit) {
                            Confidence::SeparationLikely
                        } else {
                            Confidence::Valid
                        }
                    }
                &&& r.converged == self.info.converged
            },
        }
    }

    /// A step of the preview from this state leads to `b`.
    pub open spec fn previewed(self, b: Self) -> bool {
        &&& b == (MockSolver { info: b.info, ..self })
        &&& b.info.step == self.info.step + 1
        &&& call_ensures(M::plus, (&self.math, self.info.time, Scalar { bits: DT }), b.info.time)
        &&& b.info.dt.bits == DT_SINGLE
        &&& b.info.floor_activations == self.info.floor_activations
        &&& if b.info.step >= FIRST_RESIDUAL {
            exists|raw: Scalar| #[trigger]
                call_ensures(M::settling, (&self.math, b.info.time, self.t_change), raw)
                    && b.info.residual == raw.larger(Scalar { bits: RESIDUAL_MIN })
        } else {
            b.info.residual.bits == QUIET_NAN
        }
        &&& b.info.converged == (b.info.step >= FIRST_RESIDUAL && b.info.residual.below(
            Scalar { bits: RESIDUAL_SETTLED },
        ))
    }
}

/// Step `i` of a run of the preview was taken.
pub open spec fn previewed_at<M: MockMath>(trail: Seq<MockSolver<M>>, i: int) -> bool {
    trail[i].previewed(trail[i + 1])
}

/// A run of at most `max_steps` along `trail` took the preview to `b`. It ended
/// early when it had settled, or when its counter was full.
pub open spec fn ran_along<M: MockMath>(
    trail: Seq<MockSolver<M>>,
    max_steps: int,
    b: MockSolver<M>,
) -> bool {
    let taken = trail.len() - 1;
    &&& trail.len() >= 1
    &&& forall|i: int| 0 <= i < trail.len() - 1 ==> #[trigger] previewed_at(trail, i)
    &&& forall|i: int| 1 <= i < trail.len() - 1 ==> !(#[trigger] trail[i]).info.converged
    &&& b == trail.last()
    &&& taken <= max_steps
    &&& taken == max_steps || taken >= 1 && b.info.converged || b.info.step == u64::MAX
}

impl<M: MockMath> Solver for MockSolver<M> {
    open spec fn sound(&self) -> bool {
        self.wf()
    }

    open spec fn ready(&self) -> bool {
        self.wf() && self.info.step < u64::MAX
    }

    /// Moves the preview on by the fixed time step.
    fn step(&mut self) -> (r: Result<StepInfo, CfdError>)
        ensures
            old(self).previewed(*final(self)),
            r == Ok::<StepInfo, CfdError>(final(self).info),
    {
        self.info.step = self.info.step + 1;
        self.info.time = self.math.plus(self.info.time, Scalar { bits: DT });
        self.info.dt = Scalar { bits: DT_SINGLE };
        if self.info.step >= FIRST_RESIDUAL {
            let raw = self.math.settling(self.info.time, self.t_change);
            self.info.residual = raw.max(Scalar { bits: RESIDUAL_MIN });
        } else {
            self.info.residual = Scalar { bits: QUIET_NAN };
        }
        self.info.converged = self.info.step >= FIRST_RESIDUAL && self.info.residual.lt(
            Scalar { bits: RESIDUAL_SETTLED },
        );
        Ok(self.info)
    }

    /// Moves the preview on until it has settled, `max_steps` at most. A run whose
    /// counter is full ends there.
    fn run(&mut self, max_steps: u64) -> (r: Result<StepInfo, CfdError>)
        ensures
            r == Ok::<StepInfo, CfdError>(final(self).info),
            exists|trail: Seq<MockSolver<M>>| #[trigger]
                ran_along(trail, max_steps as int, *final(self)) && trail[0] == *old(self),
    {
        let ghost mut trail = seq![*self];
        let mut k: u64 = 0;
        while k < max_steps
            invariant
                k <= max_steps,
                self.wf(),
                trail.len() == k + 1,
                trail[0] == *old(self),
                trail.last() == *self,
                k >= 1 ==> !self.info.converged,
                forall|i: int| 0 <= i < trail.len() - 1 ==> #[trigger] previewed_at(trail, i),
                forall|i: int| 1 <= i < trail.len() - 1 ==> !(#[trigger] trail[i]).info.converged,
            decreases max_steps - k,
        {
            if self.info.step == u64::MAX {
                assert(ran_along(trail, max_steps as int, *self));
                return Ok(self.info);
            }
            let ghost shorter = trail;
            let taken = self.step();
            k = k + 1;
            proof {
                trail = trail.push(*self);
                assert forall|i: int| 0 <= i < trail.len() - 1 implies #[trigger] previewed_at(
                    trail,
                    i,
                ) by {
                    if i < shorter.len() - 1 {
                        assert(previewed_at(shorter, i));
                    }
                }
            }
            if self.info.converged {
                assert(ran_along(trail, max_steps as int, *self));
                return Ok(self.info);
            }
        }
        assert(ran_along(trail, max_steps as int, *self));
        Ok(self.info)
    }

    /// A display copy of the preview.
    fn snapshot(&self) -> (r: Snapshot)
        ensures
            exists|prims: Seq<Prim>| #[trigger]
                self.are_cells(prims) && snapshot::is_snapshot(
                    &self.math,
                    &self.setup,
                    prims,
                    self.info,
                    &r,
                ),
    {
        let prims = self.all_prims();
        snapshot_from_prims(&self.math, &self.setup, &prims, self.info)
    }

    /// The ideal figures of the nozzle.
    fn report(&self) -> (r: Report)
        ensures
            self.is_preview_report(r),
    {
        let g = &self.setup.grid;
        match self.lip {
            None => blank_report(self.info.converged),
            Some(lip) => {
                let exit = find_exit(
                    &self.math,
                    g.lr(),
                    self.r_open[lip],
                    self.r_throat,
                    self.setup.gas.gamma,
                );
                let figures = ideal_figures(&self.math, &self.setup, exit, self.r_throat);
                let limit = self.math.separation_limit(exit.mach);
                let confidence = if !self.info.converged {
                    Confidence::NotConverged
                } else if separation_likely(figures, limit) {
                    Confidence::SeparationLikely
                } else {
                    Confidence::Valid
                };
                Report { figures, converged: self.info.converged, confidence }
            },
        }
    }

    /// Changes the surroundings; the residual starts over.
    fn set_ambient(&mut self, a: Ambient)
        ensures
            *final(self) == (MockSolver {
                setup: SolveSetup { ambient: a, ..old(self).setup },
                t_change: old(self).info.time,
                info: StepInfo { converged: false, ..old(self).info },
                ..*old(self)
            }),
    {
        self.setup.ambient = a;
        self.t_change = self.info.time;
        self.info.converged = false;
    }

    /// Changes the geometry; the residual starts over. One for another grid is
    /// refused.
    fn set_geometry(&mut self, solid: SolidField) -> (r: Result<(), CfdError>)
        ensures
            match r {
                Ok(_) => {
                    &&& setup::matches_grid(&solid, &old(self).setup.grid)
                    &&& final(self).setup == (SolveSetup { solid, ..old(self).setup })
                    &&& final(self).t_change == old(self).info.time
                    &&& final(self).info == (StepInfo { converged: false, ..old(self).info })
                    &&& final(self).math == old(self).math
                    &&& final(self).lip is None ==> final(self).i_throat == old(self).i_throat
                        && final(self).r_throat == old(self).r_throat
                },
                Err(e) => {
                    &&& !setup::matches_grid(&solid, &old(self).setup.grid)
                    &&& e matches CfdError::Geometry(s) && s@
                        == "solid field does not match grid"@
                    &&& *final(self) == *old(self)
                },
            },
    {
        if !solid_matches(&solid, &self.setup.grid) {
            return Err(CfdError::Geometry("solid field does not match grid".to_owned()));
        }
        self.setup.solid = solid;
        self.recompute_profile();
        self.t_change = self.info.time;
        self.info.converged = false;
        Ok(())
    }

    /// Changes the numerical options.
    fn set_numerics(&mut self, n: Numerics)
        ensures
            *final(self) == (MockSolver {
                setup: SolveSetup { numerics: n, ..old(self).setup },
                ..*old(self)
            }),
    {
        self.setup.numerics = n;
    }

    /// Steps since the start.
    fn step_count(&self) -> (r: u64)
        ensures
            r == self.info.step,
    {
        self.info.step
    }
}

/// Without a nozzle the preview shows the surroundings in every fluid cell.
pub proof fn law_no_wall_no_plume<M: MockMath>(s: MockSolver<M>, prims: Seq<Prim>, iz: int, ir: int)
    requires
        s.wf(),
        s.are_cells(prims),
        forall|i: int| 0 <= i < s.r_open.len() ==> !(#[trigger] s.r_open[i]).finite(),
        s.setup.grid.inside(iz, ir),
        !s.setup.solid.solid(s.setup.grid.at(iz, ir)),
    ensures
        s.is_ambient(prims[s.setup.grid.at(iz, ir)]),
{
    lemma_none_bored(s.r_open@, s.r_open.len() as int);
}

proof fn lemma_none_bored(r_open: Seq<Scalar>, n: int)
    requires
        0 <= n <= r_open.len(),
        forall|i: int| 0 <= i < r_open.len() ==> !(#[trigger] r_open[i]).finite(),
    ensures
        last_bored(r_open, n) is None,
    decreases n,
{
    if n > 0 {
        lemma_none_bored(r_open, n - 1);
    }
}

/// A bore ends at the wall: its radius is the lower face of the first solid cell of its
/// column, or one cell where that is less, and without a wall it has none.
pub proof fn law_bores_end_at_the_wall<M: GridMath>(
    m: &M,
    g: &Grid,
    field: &SolidField,
    r_open: Seq<Scalar>,
    iz: int,
    wall: int,
) -> (face: Scalar)
    requires
        g.wf(),
        field.wf(),
        field.grid.nz == g.nz,
        field.grid.nr == g.nr,
        are_bore_radii(m, g, field, r_open),
        0 <= iz < g.nz,
        0 <= wall <= g.nr,
        wall < g.nr ==> field.solid(field.grid.at(iz, wall)),
        forall|ir: int| 0 <= ir < wall ==> !field.solid(#[trigger] field.grid.at(iz, ir)),
    ensures
        wall == g.nr ==> r_open[iz].bits == INFINITE,
        wall < g.nr ==> {
            &&& call_ensures(M::narrow, (m, g.r_edges[wall]), face)
            &&& g.r.width[2].at_most(face) ==> r_open[iz] == face
            &&& face.below(g.r.width[2]) ==> r_open[iz] == g.r.width[2]
        },
{
    assert(is_bore_radius(m, g, field, iz, r_open[iz]));
    nozzle::lemma_wall(field, iz, 0);
    let found = nozzle::wall_from(field, iz, 0);
    if found < wall {
        assert(!field.solid(field.grid.at(iz, found)));
    }
    if wall < found {
        assert(field.solid(field.grid.at(iz, wall)));
    }
    if wall < g.nr {
        choose|face: Scalar| #[trigger]
            call_ensures(M::narrow, (m, g.r_edges[wall]), face) && r_open[iz] == face.larger(
                g.r.width[2],
            )
    } else {
        Scalar { bits: ZERO }
    }
}

/// The nozzle of the preview ends at the last column with a wall, and its throat is no wider
/// than any column up to there and as wide as one of them, a lower limit apart.
pub proof fn law_the_preview_has_the_narrowest_throat<M: MockMath>(s: MockSolver<M>, iz: int)
    requires
        s.wf(),
        0 <= iz < s.r_open.len(),
        s.r_open[iz].finite(),
    ensures
        s.lip matches Some(l) && {
            &&& iz <= l < s.r_open.len()
            &&& s.r_open[l as int].finite()
            &&& s.i_throat <= l
            &&& s.r_open[s.i_throat as int].at_most(s.r_open[iz])
            &&& (Scalar { bits: THROAT_FLOOR }).at_most(s.r_open[s.i_throat as int])
                ==> s.r_throat.equals(s.r_open[s.i_throat as int])
            &&& s.r_open[s.i_throat as int].below(Scalar { bits: THROAT_FLOOR })
                ==> s.r_throat.bits == THROAT_FLOOR
            &&& forall|j: int|
                0 <= j < s.i_throat ==> !(#[trigger] s.r_open[j]).at_most(
                    s.r_open[s.i_throat as int],
                )
        },
{
    lemma_last_bored(s.r_open@, s.r_open.len() as int, iz);
    let l: int = s.lip->0 as int;
    lemma_first_narrowest(s.r_open@, l + 1, iz);
}

proof fn lemma_last_bored(r_open: Seq<Scalar>, n: int, iz: int)
    requires
        0 <= iz < n <= r_open.len(),
        r_open[iz].finite(),
        r_open.len() <= usize::MAX,
    ensures
        last_bored(r_open, n) matches Some(l) && iz <= l < n && r_open[l as int].finite(),
    decreases n,
{
    if !r_open[n - 1].finite() {
        lemma_last_bored(r_open, n - 1, iz);
    }
}

proof fn lemma_first_narrowest(r_open: Seq<Scalar>, n: int, iz: int)
    requires
        0 <= iz < n <= r_open.len(),
        r_open[iz].finite(),
        r_open.len() <= usize::MAX,
    ensures
        ({
            let best = first_narrowest(r_open, n);
            &&& best.0 < n
            &&& best.1 == r_open[best.0 as int]
            &&& best.1.at_most(r_open[iz])
            &&& best.1.below(Scalar { bits: INFINITE })
            &&& forall|j: int| 0 <= j < best.0 ==> !(#[trigger] r_open[j]).at_most(best.1)
        }),
    decreases n,
{
    let before = first_narrowest(r_open, n - 1);
    lemma_narrowest_so_far(r_open, n - 1);
    if iz < n - 1 {
        lemma_first_narrowest(r_open, n - 1, iz);
    }
}

proof fn lemma_narrowest_so_far(r_open: Seq<Scalar>, n: int)
    requires
        0 <= n <= r_open.len(),
        r_open.len() <= usize::MAX,
    ensures
        ({
            let best = first_narrowest(r_open, n);
            &&& best.1.bits == INFINITE || best.0 < n && best.1 == r_open[best.0 as int]
            &&& best.1.at_most(Scalar { bits: INFINITE })
            &&& forall|j: int| 0 <= j < n ==> !(#[trigger] r_open[j]).below(best.1)
            &&& forall|j: int|
                0 <= j < best.0 && j < n ==> !(#[trigger] r_open[j]).at_most(best.1)
            &&& best.1.bits == INFINITE ==> best.0 == 0
        }),
    decreases n,
{
    if n > 0 {
        lemma_narrowest_so_far(r_open, n - 1);
    }
}

/// Up to the lip the preview is one-dimensional flow within the wall: the Mach number of
/// the column's area over that of the throat, below the speed of sound up to the throat and
/// above it from there on; outside the wall it is the surroundings at rest.
pub proof fn law_the_preview_fills_the_bore<M: MockMath>(
    s: MockSolver<M>,
    prims: Seq<Prim>,
    iz: int,
    ir: int,
    lip: usize,
    r_wall: Scalar,
) -> (r: (Scalar, Scalar, Scalar))
    requires
        s.wf(),
        s.are_cells(prims),
        s.setup.grid.inside(iz, ir),
        !s.setup.solid.solid(s.setup.grid.at(iz, ir)),
        s.lip == Some(lip),
        iz <= lip,
        r_wall == s.r_open[iz].larger(s.r_throat),
    ensures
        ({
            let w = prims[s.setup.grid.at(iz, ir)];
            let centre = s.setup.grid.r.centre[ir + 2];
            let (ratio, mach, r_next) = r;
            let ambient = s.setup.ambient;
            if s.r_open[iz].finite() && !r_wall.below(centre) {
                &&& call_ensures(M::area_ratio, (&s.math, r_wall, s.r_throat), ratio)
                &&& mach::is_mach_by_bisection(
                    &s.math,
                    ratio.larger(Scalar { bits: ONE }),
                    s.setup.gas.gamma,
                    iz > s.i_throat,
                    mach,
                )
                &&& iz < lip && s.r_open[iz + 1].finite() ==> r_next == s.r_open[iz + 1].larger(
                    s.r_throat,
                )
                &&& iz == lip ==> r_next == r_wall
                &&& call_ensures(
                    M::bore_state,
                    (
                        &s.math,
                        mach,
                        centre,
                        r_wall,
                        r_next,
                        s.setup.grid.z.width[iz + 2],
                        s.setup.gas.gamma,
                    ),
                    w,
                )
            } else {
                &&& call_ensures(M::gas_density, (&s.math, ambient.p, ambient.t), w.rho)
                &&& w.uz.bits == ZERO && w.ur.bits == ZERO && w.p == ambient.p
            }
        }),
{
    let w = prims[s.setup.grid.at(iz, ir)];
    let centre = s.setup.grid.r.centre[ir + 2];
    assert(s.is_cell(iz, ir, w));
    if s.r_open[iz].finite() && !r_wall.below(centre) {
        let (ratio, mach) = choose|ratio: Scalar, mach: Scalar| #[trigger]
            s.is_bore_state(lip as int, iz, centre, r_wall, ratio, mach, w);
        (ratio, mach, s.next_wall(iz, lip as int, r_wall))
    } else {
        (r_wall, r_wall, r_wall)
    }
}

/// The exit of the preview has the radius of the bore at the lip, no more than the box and
/// no less than the throat, and the isentropic flow of its area over that of the throat.
pub proof fn law_the_preview_expands_to_its_exit<M: MockMath>(
    m: &M,
    lr: Scalar,
    r_lip: Scalar,
    r_throat: Scalar,
    gamma: Scalar,
    ratio: Scalar,
    exit: Exit,
)
    requires
        is_exit(m, lr, r_lip, r_throat, gamma, ratio, exit),
    ensures
        r_throat.at_most(r_lip) && r_lip.at_most(lr) ==> exit.radius == r_lip,
        lr.below(r_lip) && r_throat.at_most(lr) ==> exit.radius == lr,
        r_lip.at_most(lr) && r_lip.below(r_throat) ==> exit.radius == r_throat,
        call_ensures(M::area_ratio, (m, exit.radius, r_throat), ratio),
        (Scalar { bits: ONE }).at_most(ratio) ==> mach::is_mach_by_bisection(
            m,
            ratio,
            gamma,
            true,
            exit.mach,
        ),
        call_ensures(M::exit_pressure, (m, exit.mach, gamma), exit.pressure),
        call_ensures(M::exit_velocity, (m, exit.mach, gamma), exit.velocity),
{
}

/// Behind the lip the preview shows a plume: the surroundings past the front and outside the
/// plume's edge, and within it the state of the plume, or that of the core behind the Mach
/// disk.
pub proof fn law_the_preview_draws_its_plume<M: MockMath>(
    s: MockSolver<M>,
    prims: Seq<Prim>,
    iz: int,
    ir: int,
    lip: usize,
) -> (r: (Exit, Scalar, Scalar, Scalar, Plume))
    requires
        s.wf(),
        s.are_cells(prims),
        s.setup.grid.inside(iz, ir),
        !s.setup.solid.solid(s.setup.grid.at(iz, ir)),
        s.lip == Some(lip),
        iz > lip,
        (Scalar { bits: AMBIENT_FLOOR }).at_most(s.setup.ambient.p),
    ensures
        ({
            let w = prims[s.setup.grid.at(iz, ir)];
            let g = &s.setup.grid;
            let z = g.z.centre[iz + 2];
            let centre = g.r.centre[ir + 2];
            let ambient = s.setup.ambient;
            let (exit, ratio, z_lip, reach, plume) = r;
            &&& is_exit(
                &s.math,
                g.r_edges[g.nr as int],
                s.r_open[lip as int],
                s.r_throat,
                s.setup.gas.gamma,
                ratio,
                exit,
            )
            &&& call_ensures(M::narrow, (&s.math, g.z_edges[lip + 1]), z_lip)
            &&& call_ensures(M::front, (&s.math, z_lip, exit.velocity, s.info.time), reach)
            &&& !reach.below(z) ==> call_ensures(
                M::plume,
                (&s.math, z, z_lip, g.z_edges[g.nz as int], exit, ambient.p),
                plume,
            )
            &&& reach.below(z) || plume.edge.below(centre) ==> {
                &&& call_ensures(M::gas_density, (&s.math, ambient.p, ambient.t), w.rho)
                &&& w.uz.bits == ZERO && w.ur.bits == ZERO && w.p == ambient.p
            }
            &&& !reach.below(z) && !plume.edge.below(centre) && plume.disk.below(plume.past_lip)
                && centre.below(plume.core) ==> call_ensures(
                M::core_state,
                (&s.math, centre, plume, ambient.p, s.setup.gas.gamma),
                w,
            )
            &&& !reach.below(z) && !plume.edge.below(centre) && !(plume.disk.below(plume.past_lip)
                && centre.below(plume.core)) ==> call_ensures(
                M::plume_state,
                (&s.math, centre, plume, exit, ambient.p, s.info.time, s.setup.gas.gamma),
                w,
            )
        }),
{
    let w = prims[s.setup.grid.at(iz, ir)];
    let g = &s.setup.grid;
    assert(s.is_cell(iz, ir, w));
    let (ratio, exit, z_lip, reach, plume) = choose|
        ratio: Scalar,
        exit: Exit,
        z_lip: Scalar,
        reach: Scalar,
        plume: Plume,
    |
        {
            &&& #[trigger] is_exit(
                &s.math,
                g.r_edges@.last(),
                s.r_open[lip as int],
                s.r_throat,
                s.setup.gas.gamma,
                ratio,
                exit,
            )
            &&& call_ensures(M::narrow, (&s.math, g.z_edges[lip + 1]), z_lip)
            &&& #[trigger] s.is_plume_cell(exit, z_lip, reach, plume, iz, ir, w)
        };
    if reach.below(g.z.centre[iz + 2]) {
        let p = Plume { edge: Scalar { bits: QUIET_NAN }, ..plume };
        (exit, ratio, z_lip, reach, p)
    } else {
        (exit, ratio, z_lip, reach, plume)
    }
}

/// The preview reports the ideal nozzle: the flow that a choked throat lets through, and the
/// thrust of that flow at the exit; its standing follows from the residual and the exit.
pub proof fn law_the_preview_reports_the_ideal<M: MockMath>(
    s: MockSolver<M>,
    r: Report,
    lip: usize,
) -> (v: (Exit, Scalar, Scalar, Scalar, Scalar, Scalar))
    requires
        s.wf(),
        s.lip == Some(lip),
        s.is_preview_report(r),
    ensures
        ({
            let (exit, ratio, throat_area, exit_area, flow, thrust) = v;
            let refs = s.setup.refs;
            let f = r.figures;
            &&& is_exit(
                &s.math,
                s.setup.grid.r_edges[s.setup.grid.nr as int],
                s.r_open[lip as int],
                s.r_throat,
                s.setup.gas.gamma,
                ratio,
                exit,
            )
            &&& call_ensures(M::circle_area, (&s.math, s.r_throat), throat_area)
            &&& call_ensures(M::circle_area, (&s.math, exit.radius), exit_area)
            &&& call_ensures(M::choked_flow, (&s.math, throat_area, s.setup.gas.gamma), flow)
            &&& call_ensures(
                M::preview_thrust,
                (&s.math, flow, exit.velocity, exit.pressure, s.setup.ambient.p, exit_area),
                thrust,
            )
            &&& call_ensures(M::flow_in_si, (&s.math, flow, refs), f.mass_flow_kg_s)
            &&& call_ensures(M::force_in_si, (&s.math, thrust, refs), f.thrust_n)
            &&& call_ensures(M::ratio_of, (&s.math, thrust, throat_area), f.thrust_coefficient)
            &&& call_ensures(M::pressure_in_si, (&s.math, exit.pressure, refs), f.exit_pressure_pa)
            &&& f.exit_mach == exit.mach && f.ideal_exit_mach == exit.mach
            &&& f.discharge_coefficient.bits == ONE
            &&& r.converged == s.info.converged
            &&& r.confidence is NotConverged <==> !s.info.converged
        }),
{
    let m = &s.math;
    let setup = &s.setup;
    let (ratio, exit, limit) = choose|ratio: Scalar, exit: Exit, limit: Scalar|
        {
            &&& #[trigger] is_exit(
                m,
                setup.grid.r_edges@.last(),
                s.r_open[lip as int],
                s.r_throat,
                setup.gas.gamma,
                ratio,
                exit,
            )
            &&& are_ideal_figures(m, setup, exit, s.r_throat, r.figures)
            &&& #[trigger] call_ensures(M::separation_limit, (m, exit.mach), limit)
            &&& r.confidence == if !s.info.converged {
                Confidence::NotConverged
            } else if report::may_separate(r.figures, limit) {
                Confidence::SeparationLikely
            } else {
                Confidence::Valid
            }
        };
    let f = r.figures;
    let (throat_area, exit_area, flow, thrust) = choose|
        throat_area: Scalar,
        exit_area: Scalar,
        flow: Scalar,
        thrust: Scalar,
    |
        {
            &&& #[trigger] call_ensures(M::circle_area, (m, exit.radius), exit_area)
            &&& call_ensures(M::choked_flow, (m, throat_area, setup.gas.gamma), flow)
            &&& call_ensures(
                M::preview_thrust,
                (m, flow, exit.velocity, exit.pressure, setup.ambient.p, exit_area),
                thrust,
            )
            &&& #[trigger] report::are_scaled(
                m,
                setup,
                flow,
                thrust,
                s.r_throat,
                throat_area,
                exit.pressure,
                f,
            )
            &&& f.discharge_coefficient.bits == ONE
            &&& f.exit_mach == exit.mach
            &&& f.ideal_exit_mach == exit.mach
        };
    (exit, ratio, throat_area, exit_area, flow, thrust)
}

/// A run of the preview counts its steps and keeps its problem, and one that was not cut
/// short took as many steps as it was given.
pub proof fn law_preview_runs_count_their_steps<M: MockMath>(
    trail: Seq<MockSolver<M>>,
    max_steps: int,
    b: MockSolver<M>,
)
    requires
        ran_along(trail, max_steps, b),
    ensures
        b.info.step == trail[0].info.step + trail.len() - 1,
        b.info.step <= trail[0].info.step + max_steps,
        b.info.step < trail[0].info.step + max_steps ==> b.info.converged || b.info.step
            == u64::MAX,
        b.setup == trail[0].setup,
        b.r_open == trail[0].r_open,
        b.t_change == trail[0].t_change,
        b.info.converged && trail.len() > 1 ==> b.info.step >= 10 && b.info.residual.below(
            Scalar { bits: RESIDUAL_SETTLED },
        ),
{
    lemma_preview_steps(trail, trail.len() - 1);
    if trail.len() > 1 {
        assert(previewed_at(trail, trail.len() - 2));
    }
}

proof fn lemma_preview_steps<M: MockMath>(trail: Seq<MockSolver<M>>, i: int)
    requires
        0 <= i < trail.len(),
        forall|i: int| 0 <= i < trail.len() - 1 ==> #[trigger] previewed_at(trail, i),
    ensures
        trail[i].info.step == trail[0].info.step + i,
        trail[i].setup == trail[0].setup,
        trail[i].r_open == trail[0].r_open,
        trail[i].t_change == trail[0].t_change,
    decreases i,
{
    if i > 0 {
        lemma_preview_steps(trail, i - 1);
        assert(previewed_at(trail, i - 1));
    }
}

/// A solid cell of the preview shows nothing: zero in every component.
pub proof fn law_solid_cells_show_nothing<M: MockMath>(
    s: MockSolver<M>,
    prims: Seq<Prim>,
    iz: int,
    ir: int,
)
    requires
        s.are_cells(prims),
        s.setup.grid.inside(iz, ir),
        s.setup.solid.solid(s.setup.grid.at(iz, ir)),
    ensures
        ({
            let w = prims[s.setup.grid.at(iz, ir)];
            &&& w.rho.bits == ZERO
            &&& w.uz.bits == ZERO
            &&& w.ur.bits == ZERO
            &&& w.p.bits == ZERO
        }),
{
    assert(s.is_cell(iz, ir, prims[s.setup.grid.at(iz, ir)]));
}

} // verus!
