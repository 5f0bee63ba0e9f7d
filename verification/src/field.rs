//! What a solve is set up from: the solid field, the numerical options and the
//! physical parameters.

use vstd::prelude::*;
use crate::grid;
use crate::grid::{copy_list, Grid};
use crate::scalar::{Scalar, HALF, ZERO};

verus! {

/// The pattern of the default Courant number, 0.4 in single precision.
pub const CFL_DEFAULT: u64 = 0x3FD9_9999_A000_0000;

/// Rows of damping next to the radial far field, unless chosen otherwise.
pub const SPONGE_DEFAULT: usize = 24;

/// Whether rows are rings around the axis or flat strips.
#[derive(Debug, Clone, Copy, PartialEq, Eq, Structural)]
pub enum Geometry {
    Axisymmetric,
    Planar,
}

/// How face states are formed from cell averages.
#[derive(Debug, Clone, Copy, PartialEq, Eq, Structural)]
pub enum Reconstruction {
    FirstOrder,
    Muscl,
}

/// How radial fluid/solid faces are treated.
#[derive(Debug, Clone, Copy, PartialEq, Eq, Structural)]
pub enum WallMode {
    Mirror,
    ColumnReflect,
}

/// Which solver drives the display.
#[derive(Debug, Clone, Copy, PartialEq, Eq, Structural)]
pub enum SolverKind {
    Mock,
    Real,
}

/// Which approximate Riemann solver the faces use.
#[derive(Debug, Clone, Copy, PartialEq, Eq, Structural)]
pub enum FluxMode {
    Hllc,
    HllRadial,
    Hll,
}

/// Slope limiter of the reconstruction.
#[derive(Debug, Clone, Copy, PartialEq, Eq, Structural)]
pub enum Limiter {
    Unlimited,
    Minmod,
    VanLeer,
}

/// How far a report can be relied on.
#[derive(Debug, Clone, Copy, PartialEq, Eq, Structural)]
pub enum Confidence {
    Valid,
    SeparationLikely,
    Underresolved,
    NotConverged,
}

/// Ratio of specific heats and specific gas constant.
#[derive(Debug, Clone, Copy, PartialEq)]
pub struct GasModel {
    pub gamma: Scalar,
    pub r_specific_si: Scalar,
}

/// Surroundings, relative to the chamber.
#[derive(Debug, Clone, Copy, PartialEq)]
pub struct Ambient {
    pub p: Scalar,
    pub t: Scalar,
}

/// Stagnation state of the feed.
#[derive(Debug, Clone, Copy, PartialEq)]
pub struct Chamber {
    pub p0: Scalar,
    pub t0: Scalar,
}

/// Factors from solver units to SI.
#[derive(Debug, Clone, Copy, PartialEq)]
pub struct RefScales {
    pub l_m: Scalar,
    pub p_pa: Scalar,
    pub rho_kg_m3: Scalar,
    pub u_m_s: Scalar,
    pub t_k: Scalar,
    pub time_s: Scalar,
}

/// Numerical options of a solve.
#[derive(Debug, Clone, Copy, PartialEq)]
pub struct Numerics {
    pub cfl: Scalar,
    pub limiter: Limiter,
    pub geometry: Geometry,
    pub reconstruction: Reconstruction,
    pub wall_mode: WallMode,
    pub flux_mode: FluxMode,
    pub quasi1d_init: bool,
    pub sponge_cells: usize,
}

impl Default for Numerics {
    fn default() -> (r: Numerics)
        ensures
            r.cfl.bits == CFL_DEFAULT,
            r.limiter == Limiter::Minmod,
            r.geometry == Geometry::Axisymmetric,
            r.reconstruction == Reconstruction::Muscl,
            r.wall_mode == WallMode::Mirror,
            r.flux_mode == FluxMode::Hllc,
            r.quasi1d_init,
            r.sponge_cells == SPONGE_DEFAULT,
    {
        Numerics {
            cfl: Scalar { bits: CFL_DEFAULT },
            limiter: Limiter::Minmod,
            geometry: Geometry::Axisymmetric,
            reconstruction: Reconstruction::Muscl,
            wall_mode: WallMode::Mirror,
            flux_mode: FluxMode::Hllc,
            quasi1d_init: true,
            sponge_cells: SPONGE_DEFAULT,
        }
    }
}

/// The solid fraction of every interior cell: all that the solver knows about
/// geometry. Cells at or above one half are frozen.
#[derive(Debug, PartialEq)]
pub struct SolidField {
    pub grid: Grid,
    pub fraction: Vec<Scalar>,
}

impl Clone for SolidField {
    fn clone(&self) -> (r: SolidField)
        ensures
            grid::identical(&r.grid, &self.grid),
            r.fraction@ == self.fraction@,
            self.wf() ==> r.wf(),
    {
        SolidField { grid: self.grid.clone(), fraction: copy_list(&self.fraction) }
    }
}

impl SolidField {
    /// One fraction per interior cell.
    pub open spec fn wf(&self) -> bool {
        self.grid.wf() && self.fraction.len() == self.grid.cells()
    }

    /// The cell at interior position `k` is solid.
    pub open spec fn solid(&self, k: int) -> bool {
        (Scalar { bits: HALF }).at_most(self.fraction[k])
    }

    /// Whether the cell at interior position `idx` is solid.
    pub fn is_solid(&self, idx: usize) -> (r: bool)
        requires
            idx < self.fraction.len(),
        ensures
            r == self.solid(idx as int),
    {
        (Scalar { bits: HALF }).le(self.fraction[idx])
    }

    /// No solid anywhere.
    pub fn empty(grid: Grid) -> (r: SolidField)
        requires
            grid.wf(),
        ensures
            r.wf(),
            r.grid == grid,
            forall|k: int| 0 <= k < r.fraction.len() ==> (#[trigger] r.fraction[k]).bits == ZERO,
            forall|k: int| 0 <= k < r.fraction.len() ==> !(#[trigger] r.solid(k)),
    {
        let n: usize = grid.len();
        let mut fraction: Vec<Scalar> = Vec::new();
        let mut k: usize = 0;
        while k < n
            invariant
                k <= n,
                fraction.len() == k,
                forall|j: int| 0 <= j < k ==> (#[trigger] fraction[j]).bits == ZERO,
            decreases n - k,
        {
            fraction.push(Scalar { bits: ZERO });
            k = k + 1;
        }
        SolidField { grid, fraction }
    }
}

/// A displayed quantity.
#[derive(Debug, Clone, Copy, PartialEq, Eq, Hash, Structural)]
pub enum FieldKind {
    Density,
    Pressure,
    Temperature,
    Mach,
    VelocityZ,
    VelocityR,
    Speed,
    Schlieren,
}

impl FieldKind {
    /// The position of the quantity among a snapshot's fields.
    pub open spec fn place(self) -> int {
        match self {
            FieldKind::Density => 0,
            FieldKind::Pressure => 1,
            FieldKind::Temperature => 2,
            FieldKind::Mach => 3,
            FieldKind::VelocityZ => 4,
            FieldKind::VelocityR => 5,
            FieldKind::Speed => 6,
            FieldKind::Schlieren => 7,
        }
    }

    /// Name and unit.
    pub open spec fn caption(self) -> Seq<char> {
        match self {
            FieldKind::Density => "Density [kg/m³]"@,
            FieldKind::Pressure => "Pressure [Pa]"@,
            FieldKind::Temperature => "Temperature [K]"@,
            FieldKind::Mach => "Mach"@,
            FieldKind::VelocityZ => "Velocity z [m/s]"@,
            FieldKind::VelocityR => "Velocity r [m/s]"@,
            FieldKind::Speed => "Speed [m/s]"@,
            FieldKind::Schlieren => "Schlieren"@,
        }
    }

    /// All quantities, each at its own position.
    pub fn all() -> (r: [FieldKind; 8])
        ensures
            forall|i: int| 0 <= i < 8 ==> (#[trigger] r@[i]).place() == i,
            forall|k: FieldKind| r@.contains(k),
    {
        let r = [
            FieldKind::Density,
            FieldKind::Pressure,
            FieldKind::Temperature,
            FieldKind::Mach,
            FieldKind::VelocityZ,
            FieldKind::VelocityR,
            FieldKind::Speed,
            FieldKind::Schlieren,
        ];
        assert forall|k: FieldKind| r@.contains(k) by {
            assert(r@[k.place()] == k);
        }
        r
    }

    /// The position of the quantity among a snapshot's fields.
    pub fn index(self) -> (r: usize)
        ensures
            r == self.place(),
            r < 8,
    {
        match self {
            FieldKind::Density => 0,
            FieldKind::Pressure => 1,
            FieldKind::Temperature => 2,
            FieldKind::Mach => 3,
            FieldKind::VelocityZ => 4,
            FieldKind::VelocityR => 5,
            FieldKind::Speed => 6,
            FieldKind::Schlieren => 7,
        }
    }

    /// Name and unit for display.
    pub fn label(self) -> (r: &'static str)
        ensures
            r@ == self.caption(),
    {
        match self {
            FieldKind::Density => "Density [kg/m³]",
            FieldKind::Pressure => "Pressure [Pa]",
            FieldKind::Temperature => "Temperature [K]",
            FieldKind::Mach => "Mach",
            FieldKind::VelocityZ => "Velocity z [m/s]",
            FieldKind::VelocityR => "Velocity r [m/s]",
            FieldKind::Speed => "Speed [m/s]",
            FieldKind::Schlieren => "Schlieren",
        }
    }

    /// Whether the quantity takes both signs.
    pub fn is_signed(self) -> (r: bool)
        ensures
            r == (self == FieldKind::VelocityZ || self == FieldKind::VelocityR),
    {
        matches!(self, FieldKind::VelocityZ | FieldKind::VelocityR)
    }
}

/// No two quantities share a place or a caption.
pub proof fn law_quantities_are_told_apart(a: FieldKind, b: FieldKind)
    requires
        a.place() == b.place() || a.caption() == b.caption(),
    ensures
        a == b,
{
    reveal_strlit("Density [kg/m³]");
    reveal_strlit("Pressure [Pa]");
    reveal_strlit("Temperature [K]");
    reveal_strlit("Mach");
    reveal_strlit("Velocity z [m/s]");
    reveal_strlit("Velocity r [m/s]");
    reveal_strlit("Speed [m/s]");
    reveal_strlit("Schlieren");
    if a.caption() == b.caption() {
        assert(a.caption()[0] == b.caption()[0]);
        assert(a.caption().len() == b.caption().len());
        if a.caption().len() == 16 {
            assert(a.caption()[9] == b.caption()[9]);
        }
    }
}

} // verus!
