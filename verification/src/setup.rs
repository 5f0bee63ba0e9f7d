//! What a solve is given and what it tells about its progress.

use vstd::prelude::*;
use crate::error;
use crate::error::CfdError;
use crate::field::{Ambient, Chamber, GasModel, Numerics, RefScales, SolidField};
use crate::flow::Cons;
use crate::grid::Grid;
use crate::scalar::{Scalar, ONE, QUIET_NAN, ZERO};
use crate::sweep;
use crate::text;
use crate::text::{decimal_text, Show};

verus! {

/// The fewest columns a solve can work with.
pub const MIN_COLUMNS: usize = 4;

/// Everything a solve is given.
#[derive(Debug, Clone)]
pub struct SolveSetup {
    pub grid: Grid,
    pub solid: SolidField,
    pub gas: GasModel,
    pub chamber: Chamber,
    pub ambient: Ambient,
    pub numerics: Numerics,
    pub refs: RefScales,
}

/// What a step tells.
#[derive(Debug, Clone, Copy, PartialEq)]
pub struct StepInfo {
    pub step: u64,
    pub time: Scalar,
    pub dt: Scalar,
    pub residual: Scalar,
    pub converged: bool,
    pub floor_activations: u64,
}

impl StepInfo {
    /// Nothing has happened yet.
    pub open spec fn untouched(self) -> bool {
        &&& self.step == 0
        &&& self.time.bits == ZERO
        &&& self.dt.bits == ZERO
        &&& self.residual.bits == QUIET_NAN
        &&& !self.converged
        &&& self.floor_activations == 0
    }

    /// Before the first step.
    pub fn start() -> (r: StepInfo)
        ensures
            r.untouched(),
    {
        StepInfo {
            step: 0,
            time: Scalar { bits: ZERO },
            dt: Scalar { bits: ZERO },
            residual: Scalar { bits: QUIET_NAN },
            converged: false,
            floor_activations: 0,
        }
    }
}

/// The solid field belongs to the grid.
pub open spec fn matches_grid(solid: &SolidField, g: &Grid) -> bool {
    solid.grid.same_grid(g) && solid.fraction.len() == g.cells()
}

/// Whether the solid field belongs to the grid.
pub fn solid_matches(solid: &SolidField, g: &Grid) -> (r: bool)
    requires
        g.wf(),
    ensures
        r == matches_grid(solid, g),
{
    solid.grid == *g && solid.fraction.len() == g.len()
}

impl SolveSetup {
    /// The grid is large enough, the solid field belongs to it and the gas is a gas.
    pub open spec fn valid(&self) -> bool {
        &&& self.grid.nz >= MIN_COLUMNS
        &&& matches_grid(&self.solid, &self.grid)
        &&& (Scalar { bits: ONE }).below(self.gas.gamma)
    }

    /// Grid and solid field are well formed, each for itself.
    pub open spec fn wf(&self) -> bool {
        self.grid.wf() && self.solid.grid.wf()
    }
}

/// The text of a grid that is too small.
pub open spec fn too_small(nz: int, nr: int) -> Seq<char> {
    "grid too small: "@ + text::decimal(nz) + "x"@ + text::decimal(nr)
}

/// `e` is the error of a setup: first the size of the grid, then the solid
/// field, then the gas.
pub open spec fn is_setup_error<S: Show>(m: &S, setup: &SolveSetup, e: CfdError) -> bool {
    if setup.grid.nz < MIN_COLUMNS {
        e matches CfdError::Grid(s) && s@ == too_small(
            setup.grid.nz as int,
            setup.grid.nr as int,
        )
    } else if !matches_grid(&setup.solid, &setup.grid) {
        e matches CfdError::Geometry(s) && s@ == "solid field does not match grid"@
    } else {
        e matches CfdError::Parameter(s) && error::is_shown(m, "gamma = "@, setup.gas.gamma, s@)
    }
}

/// Checks a setup before a solve.
pub fn check_setup<S: Show>(m: &S, setup: &SolveSetup) -> (r: Result<(), CfdError>)
    requires
        setup.wf(),
    ensures
        match r {
            Ok(_) => setup.valid(),
            Err(e) => !setup.valid() && is_setup_error(m, setup, e),
        },
{
    let g = &setup.grid;
    if g.nz < MIN_COLUMNS {
        let mut s = "grid too small: ".to_owned();
        s.append(decimal_text(g.nz as u64).as_str());
        s.append("x");
        s.append(decimal_text(g.nr as u64).as_str());
        assert(s@ =~= too_small(g.nz as int, g.nr as int));
        return Err(CfdError::Grid(s));
    }
    if !solid_matches(&setup.solid, g) {
        return Err(CfdError::Geometry("solid field does not match grid".to_owned()));
    }
    if !(Scalar { bits: ONE }).lt(setup.gas.gamma) {
        return Err(CfdError::Parameter(error::shown(m, "gamma = ", setup.gas.gamma)));
    }
    Ok(())
}

/// The two buffers of a time step.
#[derive(Debug)]
pub struct State {
    pub u_old: Vec<Cons>,
    pub u_new: Vec<Cons>,
}

/// A list of `n` equal states.
pub fn uniform_states(n: usize, u: Cons) -> (r: Vec<Cons>)
    ensures
        r.len() == n,
        forall|i: int| 0 <= i < n ==> #[trigger] r[i] == u,
{
    let mut r: Vec<Cons> = Vec::new();
    let mut i: usize = 0;
    while i < n
        invariant
            i <= n,
            r.len() == i,
            forall|j: int| 0 <= j < i ==> #[trigger] r[j] == u,
        decreases n - i,
    {
        r.push(u);
        i = i + 1;
    }
    r
}

/// A list of `n` states that are zero in every component.
pub fn zero_states(n: usize) -> (r: Vec<Cons>)
    ensures
        r.len() == n,
        forall|i: int| 0 <= i < n ==> #[trigger] r[i] == sweep::no_flux(),
{
    let zero = Scalar { bits: ZERO };
    uniform_states(n, Cons { rho: zero, mz: zero, mr: zero, e: zero })
}

impl State {
    /// Two zeroed buffers for the padded cells of a grid.
    pub fn new(g: &Grid) -> (r: State)
        requires
            g.wf(),
        ensures
            r.u_old.len() == g.padded_cells(),
            r.u_new.len() == g.padded_cells(),
            forall|i: int| 0 <= i < r.u_old.len() ==> #[trigger] r.u_old[i] == sweep::no_flux(),
            forall|i: int| 0 <= i < r.u_new.len() ==> #[trigger] r.u_new[i] == sweep::no_flux(),
    {
        State { u_old: zero_states(g.glen()), u_new: zero_states(g.glen()) }
    }

    /// Exchanges the two buffers.
    pub fn swap(&mut self)
        ensures
            final(self).u_old == old(self).u_new,
            final(self).u_new == old(self).u_old,
    {
        std::mem::swap(&mut self.u_old, &mut self.u_new);
    }
}

/// A setup is refused for its first fault: a grid of fewer than four columns, a solid field
/// that is not the grid's, a ratio of specific heats that is not above one; and for nothing
/// else.
pub proof fn law_setups_are_refused_for_a_fault<S: Show>(
    m: &S,
    setup: &SolveSetup,
    r: Result<(), CfdError>,
)
    requires
        call_ensures(check_setup::<S>, (m, setup), r),
        setup.wf(),
    ensures
        r matches Err(CfdError::Grid(_)) <==> setup.grid.nz < 4,
        r matches Err(CfdError::Geometry(_)) <==> setup.grid.nz >= 4 && !(
        setup.solid.grid.same_grid(&setup.grid) && setup.solid.fraction.len()
            == setup.grid.nz * setup.grid.nr),
        r matches Err(CfdError::Parameter(_)) <==> setup.grid.nz >= 4
            && setup.solid.grid.same_grid(&setup.grid) && setup.solid.fraction.len()
            == setup.grid.nz * setup.grid.nr && !(Scalar { bits: ONE }).below(setup.gas.gamma),
        r is Ok <==> setup.grid.nz >= 4 && setup.solid.grid.same_grid(&setup.grid)
            && setup.solid.fraction.len() == setup.grid.nz * setup.grid.nr && (Scalar {
            bits: ONE,
        }).below(setup.gas.gamma),
{
}

} // verus!
