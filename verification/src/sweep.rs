//! The axial and radial sweeps.
//!
//! Each sweep adds the flux balance of every fluid cell to the right-hand side.
//! Solid cells and ghost cells are left alone.

use vstd::prelude::*;
use crate::field::{FluxMode, Geometry, Numerics, WallMode};
use crate::flow;
use crate::flow::{wall_flux_r, wall_flux_z, Cons, Prim, Side};
use crate::grid;
use crate::grid::{Grid, GridMath};
use crate::parallel::par_collect;
use crate::riemann;
use crate::riemann::{fluid_face_flux, FaceGeom, FaceMath, Four};
use crate::scalar::{Scalar, ZERO};

verus! {

/// One row of cell data.
pub type Row = Vec<Cons>;

/// The floating-point formulas of the flux balances.
pub trait SweepMath: FaceMath + GridMath {
    /// One over a width.
    fn inverse(&self, width: Scalar) -> Scalar;

    /// `c` plus the flux times the inverse width, in every component.
    fn gain(&self, c: Cons, flux: Cons, inverse: Scalar) -> Cons;

    /// `c` minus the flux times the inverse width, in every component.
    fn lose(&self, c: Cons, flux: Cons, inverse: Scalar) -> Cons;

    /// `c` minus the difference of two fluxes times the inverse width.
    fn planar_balance(&self, c: Cons, lo: Cons, hi: Cons, inverse: Scalar) -> Cons;

    /// `c` minus the difference of two radius-weighted fluxes and the pressure
    /// source, in one bracket, over the row's width and centre radius.
    fn ring_balance(
        &self,
        c: Cons,
        lo: Cons,
        p_lo: Scalar,
        hi: Cons,
        p_hi: Scalar,
        r_lo: Scalar,
        r_hi: Scalar,
        r_center: Scalar,
        inverse: Scalar,
    ) -> Cons;
}

/// The positions around axial face `f`: cell centres and the face itself.
pub open spec fn is_z_geom<M: GridMath>(m: &M, g: &Grid, f: int, fg: FaceGeom) -> bool {
    &&& fg.x0 == g.z.centre[f]
    &&& fg.x1 == g.z.centre[f + 1]
    &&& fg.x2 == g.z.centre[f + 2]
    &&& fg.x3 == g.z.centre[f + 3]
    &&& call_ensures(M::narrow, (m, g.z_edges[f]), fg.face)
}

/// Positions around every axial face.
pub fn z_face_geom<M: GridMath>(m: &M, g: &Grid) -> (r: Vec<FaceGeom>)
    requires
        g.wf(),
    ensures
        r.len() == g.nz + 1,
        forall|f: int| 0 <= f < r.len() ==> is_z_geom(m, g, f, #[trigger] r[f]),
{
    let mut r: Vec<FaceGeom> = Vec::new();
    let mut f: usize = 0;
    while f <= g.nz
        invariant
            g.wf(),
            f <= g.nz + 1,
            r.len() == f,
            forall|j: int| 0 <= j < f ==> is_z_geom(m, g, j, #[trigger] r[j]),
        decreases g.nz + 1 - f,
    {
        let fg = FaceGeom {
            x0: g.z.centre[f],
            x1: g.z.centre[f + 1],
            x2: g.z.centre[f + 2],
            x3: g.z.centre[f + 3],
            face: g.z_face(m, f),
        };
        r.push(fg);
        f = f + 1;
    }
    r
}

/// The positions around radial face `f`: shell centroids around an axis, cell
/// centres otherwise, and the face itself.
pub open spec fn is_r_geom<M: GridMath>(
    m: &M,
    g: &Grid,
    axisym: bool,
    f: int,
    fg: FaceGeom,
) -> bool {
    let x = if axisym {
        g.r.centroid@
    } else {
        g.r.centre@
    };
    &&& fg.x0 == x[f]
    &&& fg.x1 == x[f + 1]
    &&& fg.x2 == x[f + 2]
    &&& fg.x3 == x[f + 3]
    &&& call_ensures(M::narrow, (m, g.r_edges[f]), fg.face)
}

/// Positions around every radial face.
pub fn r_face_geom<M: GridMath>(m: &M, g: &Grid, axisym: bool) -> (r: Vec<FaceGeom>)
    requires
        g.wf(),
    ensures
        r.len() == g.nr + 1,
        forall|f: int| 0 <= f < r.len() ==> is_r_geom(m, g, axisym, f, #[trigger] r[f]),
{
    let mut r: Vec<FaceGeom> = Vec::new();
    let x = if axisym {
        &g.r.centroid
    } else {
        &g.r.centre
    };
    let mut f: usize = 0;
    while f <= g.nr
        invariant
            g.wf(),
            x@ == (if axisym {
                g.r.centroid@
            } else {
                g.r.centre@
            }),
            f <= g.nr + 1,
            r.len() == f,
            forall|j: int| 0 <= j < f ==> is_r_geom(m, g, axisym, j, #[trigger] r[j]),
        decreases g.nr + 1 - f,
    {
        let fg = FaceGeom {
            x0: x[f],
            x1: x[f + 1],
            x2: x[f + 2],
            x3: x[f + 3],
            face: g.r_face(m, f),
        };
        r.push(fg);
        f = f + 1;
    }
    r
}

/// Cell data around the axial face between columns `f - 1` and `f` of a row.
pub open spec fn axial_four<T>(g: &Grid, x: Seq<T>, f: int, ir: int) -> Four<T> {
    Four {
        a: x[g.pad(f - 2, ir)],
        b: x[g.pad(f - 1, ir)],
        c: x[g.pad(f, ir)],
        d: x[g.pad(f + 1, ir)],
    }
}

/// Cell data around the radial face between rows `j` and `j + 1` of a column.
pub open spec fn radial_four<T>(g: &Grid, x: Seq<T>, iz: int, j: int) -> Four<T> {
    Four {
        a: x[g.pad(iz, j - 1)],
        b: x[g.pad(iz, j)],
        c: x[g.pad(iz, j + 1)],
        d: x[g.pad(iz, j + 2)],
    }
}

/// `f` is the flux through an axial face next to fluid. A face between fluid and
/// solid is a wall in every wall mode.
pub open spec fn is_axial_flux<M: SweepMath>(
    m: &M,
    w: Four<Prim>,
    solid: Four<bool>,
    fg: FaceGeom,
    n: Numerics,
    gamma: Scalar,
    f: Cons,
) -> bool {
    if !solid.b && !solid.c {
        exists|p: Scalar| #[trigger]
            riemann::is_fluid_flux(
                m,
                w,
                solid,
                fg,
                riemann::axial_hll(n.flux_mode),
                n,
                gamma,
                f,
                p,
            )
    } else if !solid.b {
        exists|out: Cons| #[trigger]
            flow::is_wall_flux_z(m, w.b, Side::Low, gamma, out) && f == out.orientation(Side::Low)
    } else if !solid.c {
        exists|out: Cons| #[trigger]
            flow::is_wall_flux_z(m, w.c, Side::High, gamma, out) && f == out.orientation(
                Side::High,
            )
    } else {
        f == no_flux()
    }
}

/// No flux at all.
pub open spec fn no_flux() -> Cons {
    let zero = Scalar { bits: ZERO };
    Cons { rho: zero, mz: zero, mr: zero, e: zero }
}

/// Flux through an axial face; none between two solid cells.
pub fn axial_flux<M: SweepMath>(
    m: &M,
    w: Four<Prim>,
    solid: Four<bool>,
    fg: FaceGeom,
    n: Numerics,
    gamma: Scalar,
) -> (f: Cons)
    ensures
        is_axial_flux(m, w, solid, fg, n, gamma, f),
{
    if !solid.b && !solid.c {
        let (f, p) = fluid_face_flux(m, w, solid, fg, n.flux_mode == FluxMode::Hll, n, gamma);
        assert(riemann::is_fluid_flux(
            m,
            w,
            solid,
            fg,
            riemann::axial_hll(n.flux_mode),
            n,
            gamma,
            f,
            p,
        ));
        f
    } else if !solid.b {
        wall_flux_z(m, w.b, Side::Low, gamma).oriented(Side::Low)
    } else if !solid.c {
        wall_flux_z(m, w.c, Side::High, gamma).oriented(Side::High)
    } else {
        let zero = Scalar { bits: ZERO };
        Cons { rho: zero, mz: zero, mr: zero, e: zero }
    }
}

/// `f` is the flux through a radial face and `p` the pressure there. With column
/// reflection a wall face is treated like any other.
pub open spec fn is_radial_flux<M: SweepMath>(
    m: &M,
    w: Four<Prim>,
    solid: Four<bool>,
    masked: bool,
    fg: FaceGeom,
    n: Numerics,
    gamma: Scalar,
    f: Cons,
    p: Scalar,
) -> bool {
    let turned = Four {
        a: w.a.rotated(),
        b: w.b.rotated(),
        c: w.c.rotated(),
        d: w.d.rotated(),
    };
    if solid.b && solid.c {
        f == no_flux() && p.bits == ZERO
    } else if (!solid.b && !solid.c) || n.wall_mode == WallMode::ColumnReflect {
        riemann::is_fluid_flux(
            m,
            turned,
            solid,
            fg,
            riemann::radial_hll(n.flux_mode) || masked,
            n,
            gamma,
            f.rotated(),
            p,
        )
    } else if !solid.b {
        p == f.mr && exists|out: Cons| #[trigger]
            flow::is_wall_flux_r(m, w.b, Side::Low, gamma, out) && f == out.orientation(Side::Low)
    } else {
        p == f.mr && exists|out: Cons| #[trigger]
            flow::is_wall_flux_r(m, w.c, Side::High, gamma, out) && f == out.orientation(
                Side::High,
            )
    }
}

/// Flux through a radial face, and the pressure there.
pub fn radial_flux<M: SweepMath>(
    m: &M,
    w: Four<Prim>,
    solid: Four<bool>,
    masked: bool,
    fg: FaceGeom,
    n: Numerics,
    gamma: Scalar,
) -> (r: (Cons, Scalar))
    ensures
        is_radial_flux(m, w, solid, masked, fg, n, gamma, r.0, r.1),
{
    if solid.b && solid.c {
        let zero = Scalar { bits: ZERO };
        return (Cons { rho: zero, mz: zero, mr: zero, e: zero }, zero);
    }
    if (!solid.b && !solid.c) || n.wall_mode == WallMode::ColumnReflect {
        let turned = Four {
            a: w.a.rotate(),
            b: w.b.rotate(),
            c: w.c.rotate(),
            d: w.d.rotate(),
        };
        let hll = n.flux_mode == FluxMode::Hll || n.flux_mode == FluxMode::HllRadial || masked;
        let (f, p) = fluid_face_flux(m, turned, solid, fg, hll, n, gamma);
        assert(f.rotated().rotated() == f);
        (f.rotate(), p)
    } else if !solid.b {
        let f = wall_flux_r(m, w.b, Side::Low, gamma).oriented(Side::Low);
        (f, f.mr)
    } else {
        let f = wall_flux_r(m, w.c, Side::High, gamma).oriented(Side::High);
        (f, f.mr)
    }
}

/// The axial faces of row `ir` carry `flux`.
pub open spec fn are_row_fluxes<M: SweepMath>(
    m: &M,
    g: &Grid,
    w: Seq<Prim>,
    solid: Seq<bool>,
    n: Numerics,
    gamma: Scalar,
    zg: Seq<FaceGeom>,
    ir: int,
    flux: Seq<Cons>,
) -> bool {
    &&& flux.len() == g.nz + 1
    &&& forall|f: int|
        0 <= f <= g.nz ==> is_axial_flux(
            m,
            axial_four(g, w, f, ir),
            axial_four(g, solid, f, ir),
            zg[f],
            n,
            gamma,
            #[trigger] flux[f],
        )
}

/// The balance of the axial fluxes in one cell: a fluid cell gains what comes
/// through its low face and loses what goes through its high face.
pub open spec fn is_axial_balance<M: SweepMath>(
    m: &M,
    inverse: Scalar,
    solid: bool,
    before: Cons,
    low: Cons,
    high: Cons,
    after: Cons,
) -> bool {
    if solid {
        after == before
    } else {
        exists|mid: Cons| #[trigger]
            call_ensures(M::gain, (m, before, low, inverse), mid) && call_ensures(
                M::lose,
                (m, mid, high, inverse),
                after,
            )
    }
}

/// Row `ir` of the right-hand side after the axial sweep: the two cells of a
/// face see one and the same flux.
pub open spec fn is_swept_row<M: SweepMath>(
    m: &M,
    g: &Grid,
    w: Seq<Prim>,
    solid: Seq<bool>,
    n: Numerics,
    gamma: Scalar,
    inverses: Seq<Scalar>,
    zg: Seq<FaceGeom>,
    rhs: Seq<Cons>,
    ir: int,
    row: Seq<Cons>,
) -> bool {
    &&& row.len() == g.nz
    &&& exists|flux: Seq<Cons>| #[trigger]
        are_row_fluxes(m, g, w, solid, n, gamma, zg, ir, flux) && forall|iz: int|
            0 <= iz < g.nz ==> is_axial_balance(
                m,
                inverses[iz],
                solid[g.pad(iz, ir)],
                rhs[g.pad(iz, ir)],
                flux[iz],
                flux[iz + 1],
                #[trigger] row[iz],
            )
}

pub(crate) fn axial_stencil<T: Copy>(g: &Grid, x: &Vec<T>, f: usize, ir: usize) -> (r: Four<T>)
    requires
        g.wf(),
        x.len() == g.padded_cells(),
        f <= g.nz,
        ir < g.nr,
    ensures
        r == axial_four(g, x@, f as int, ir as int),
{
    proof {
        grid::lemma_products_fit(g.nz as int, g.nr as int);
    }
    let i: isize = f as isize;
    let j: isize = ir as isize;
    Four {
        a: x[g.gidx(i - 2, j)],
        b: x[g.gidx(i - 1, j)],
        c: x[g.gidx(i, j)],
        d: x[g.gidx(i + 1, j)],
    }
}

fn radial_stencil<T: Copy>(g: &Grid, x: &Vec<T>, iz: usize, j: isize) -> (r: Four<T>)
    requires
        g.wf(),
        x.len() == g.padded_cells(),
        iz < g.nz,
        -1 <= j < g.nr,
    ensures
        r == radial_four(g, x@, iz as int, j as int),
{
    proof {
        grid::lemma_products_fit(g.nz as int, g.nr as int);
    }
    let i: isize = iz as isize;
    Four {
        a: x[g.gidx(i, j - 1)],
        b: x[g.gidx(i, j)],
        c: x[g.gidx(i, j + 1)],
        d: x[g.gidx(i, j + 2)],
    }
}

fn sweep_row_z<M: SweepMath>(
    m: &M,
    g: &Grid,
    w: &Vec<Prim>,
    solid: &Vec<bool>,
    n: Numerics,
    gamma: Scalar,
    inverses: &Vec<Scalar>,
    zg: &Vec<FaceGeom>,
    rhs: &Vec<Cons>,
    ir: usize,
) -> (row: Vec<Cons>)
    requires
        g.wf(),
        w.len() == g.padded_cells(),
        solid.len() == g.padded_cells(),
        rhs.len() == g.padded_cells(),
        inverses.len() == g.nz,
        zg.len() == g.nz + 1,
        ir < g.nr,
    ensures
        is_swept_row(
            m,
            g,
            w@,
            solid@,
            n,
            gamma,
            inverses@,
            zg@,
            rhs@,
            ir as int,
            row@,
        ),
{
    let mut flux: Vec<Cons> = Vec::new();
    let mut f: usize = 0;
    while f <= g.nz
        invariant
            g.wf(),
            w.len() == g.padded_cells(),
            solid.len() == g.padded_cells(),
            zg.len() == g.nz + 1,
            ir < g.nr,
            f <= g.nz + 1,
            flux.len() == f,
            forall|j: int|
                0 <= j < f ==> is_axial_flux(
                    m,
                    axial_four(g, w@, j, ir as int),
                    axial_four(g, solid@, j, ir as int),
                    zg[j],
                    n,
                    gamma,
                    #[trigger] flux[j],
                ),
        decreases g.nz + 1 - f,
    {
        let s = axial_stencil(g, w, f, ir);
        let sol = axial_stencil(g, solid, f, ir);
        flux.push(axial_flux(m, s, sol, zg[f], n, gamma));
        f = f + 1;
    }
    assert(are_row_fluxes(m, g, w@, solid@, n, gamma, zg@, ir as int, flux@));
    proof {
        grid::lemma_products_fit(g.nz as int, g.nr as int);
    }
    let mut row: Vec<Cons> = Vec::new();
    let mut iz: usize = 0;
    while iz < g.nz
        invariant
            g.wf(),
            g.nz + 4 <= isize::MAX,
            g.nr + 4 <= isize::MAX,
            solid.len() == g.padded_cells(),
            rhs.len() == g.padded_cells(),
            inverses.len() == g.nz,
            flux.len() == g.nz + 1,
            ir < g.nr,
            iz <= g.nz,
            row.len() == iz,
            forall|j: int|
                0 <= j < iz ==> is_axial_balance(
                    m,
                    inverses[j],
                    solid[g.pad(j, ir as int)],
                    rhs[g.pad(j, ir as int)],
                    flux[j],
                    flux[j + 1],
                    #[trigger] row[j],
                ),
        decreases g.nz - iz,
    {
        let i: usize = g.gidx(iz as isize, ir as isize);
        let before = rhs[i];
        let after = if solid[i] {
            before
        } else {
            let mid = m.gain(before, flux[iz], inverses[iz]);
            m.lose(mid, flux[iz + 1], inverses[iz])
        };
        row.push(after);
        iz = iz + 1;
    }
    row
}

/// One over every column width.
pub open spec fn are_inverses<M: SweepMath>(m: &M, widths: Seq<Scalar>, r: Seq<Scalar>) -> bool {
    &&& r.len() == widths.len() - 4
    &&& forall|i: int|
        0 <= i < r.len() ==> call_ensures(M::inverse, (m, widths[i + 2]), #[trigger] r[i])
}

/// One over every interior width of a padded axis.
pub fn inverses<M: SweepMath>(m: &M, widths: &Vec<Scalar>) -> (r: Vec<Scalar>)
    requires
        widths.len() >= 4,
    ensures
        are_inverses(m, widths@, r@),
{
    let n: usize = widths.len() - 4;
    let mut r: Vec<Scalar> = Vec::new();
    let mut i: usize = 0;
    while i < n
        invariant
            n == widths.len() - 4,
            i <= n,
            r.len() == i,
            forall|j: int|
                0 <= j < i ==> call_ensures(M::inverse, (m, widths[j + 2]), #[trigger] r[j]),
        decreases n - i,
    {
        r.push(m.inverse(widths[i + 2]));
        i = i + 1;
    }
    r
}

/// `after` is `before` with its interior rows replaced by `rows`.
pub open spec fn rows_replaced(
    g: &Grid,
    before: Seq<Cons>,
    rows: Seq<Vec<Cons>>,
    after: Seq<Cons>,
) -> bool {
    &&& after.len() == before.len()
    &&& rows.len() == g.nr
    &&& forall|iz: int, ir: int| #[trigger]
        g.in_pad(iz, ir) ==> after[g.pad(iz, ir)] == if g.inside(iz, ir) {
            rows[ir]@[iz]
        } else {
            before[g.pad(iz, ir)]
        }
}

fn put_rows(g: &Grid, u: &mut Vec<Cons>, rows: &Vec<Vec<Cons>>)
    requires
        g.wf(),
        old(u).len() == g.padded_cells(),
        rows.len() == g.nr,
        forall|ir: int| 0 <= ir < rows.len() ==> (#[trigger] rows[ir]).len() == g.nz,
    ensures
        rows_replaced(g, old(u)@, rows@, final(u)@),
{
    let n: usize = g.glen();
    let snz: usize = g.snz();
    let ghost before = u@;
    let mut q: usize = 0;
    proof {
        grid::lemma_products_fit(g.nz as int, g.nr as int);
    }
    while q < n
        invariant
            g.wf(),
            n == g.padded_cells(),
            snz == g.nz + 4,
            u.len() == n,
            before.len() == n,
            rows.len() == g.nr,
            forall|ir: int| 0 <= ir < rows.len() ==> (#[trigger] rows[ir]).len() == g.nz,
            q <= n,
            forall|j: int|
                0 <= j < n ==> #[trigger] u[j] == if j < q && g.inside(
                    j % (snz as int) - 2,
                    j / (snz as int) - 2,
                ) {
                    rows[j / (snz as int) - 2]@[j % (snz as int) - 2]
                } else {
                    before[j]
                },
        decreases n - q,
    {
        proof {
            grid::law_padded_positions(g.nz as int, g.nr as int, q as int);
        }
        let column: usize = q % snz;
        let row: usize = q / snz;
        if column >= 2 && column - 2 < g.nz && row >= 2 && row - 2 < g.nr {
            let value = rows[row - 2][column - 2];
            u.set(q, value);
        }
        q = q + 1;
    }
    proof {
        assert forall|iz: int, ir: int| #[trigger] g.in_pad(iz, ir) implies u@[g.pad(iz, ir)]
            == if g.inside(iz, ir) {
            rows[ir]@[iz]
        } else {
            before[g.pad(iz, ir)]
        } by {
            grid::law_padded_layout(g.nz as int, g.nr as int, iz, ir);
            assert(u@[g.pad(iz, ir)] == u[g.pad(iz, ir)]);
        }
    }
}

spec fn is_row_job<M: SweepMath>(
    m: &M,
    g: &Grid,
    w: Seq<Prim>,
    solid: Seq<bool>,
    n: Numerics,
    gamma: Scalar,
    inverses: Seq<Scalar>,
    zg: Seq<FaceGeom>,
    rhs: Seq<Cons>,
    ir: usize,
    row: Row,
) -> bool {
    is_swept_row(m, g, w, solid, n, gamma, inverses, zg, rhs, ir as int, row@)
}

/// The right-hand side after the axial sweep.
pub open spec fn swept_z<M: SweepMath>(
    m: &M,
    g: &Grid,
    w: Seq<Prim>,
    solid: Seq<bool>,
    n: Numerics,
    gamma: Scalar,
    inverses: Seq<Scalar>,
    zg: Seq<FaceGeom>,
    rows: Seq<Vec<Cons>>,
    before: Seq<Cons>,
    after: Seq<Cons>,
) -> bool {
    &&& are_inverses(m, g.z.width@, inverses)
    &&& zg.len() == g.nz + 1
    &&& forall|f: int| 0 <= f <= g.nz ==> is_z_geom(m, g, f, #[trigger] zg[f])
    &&& rows.len() == g.nr
    &&& forall|ir: int|
        0 <= ir < g.nr ==> is_swept_row(
            m,
            g,
            w,
            solid,
            n,
            gamma,
            inverses,
            zg,
            before,
            ir,
            (#[trigger] rows[ir])@,
        )
    &&& rows_replaced(g, before, rows, after)
}

/// Axial sweep: adds the balance of the axial fluxes of every fluid cell.
pub fn sweep_z<M: SweepMath + Sync>(
    m: &M,
    w: &Vec<Prim>,
    solid: &Vec<bool>,
    g: &Grid,
    n: Numerics,
    gamma: Scalar,
    rhs: &mut Vec<Cons>,
)
    requires
        g.wf(),
        w.len() == g.padded_cells(),
        solid.len() == g.padded_cells(),
        old(rhs).len() == g.padded_cells(),
    ensures
        final(rhs).len() == old(rhs).len(),
        exists|inverses: Seq<Scalar>, zg: Seq<FaceGeom>, rows: Seq<Vec<Cons>>| #[trigger]
            swept_z(
                m,
                g,
                w@,
                solid@,
                n,
                gamma,
                inverses,
                zg,
                rows,
                old(rhs)@,
                final(rhs)@,
            ),
{
    let ghost before = rhs@;
    let inv = inverses(m, &g.z.width);
    let zg = z_face_geom(m, g);
    let from: &Vec<Cons> = rhs;
    let job = |ir: usize| -> (row: Row)
        requires
            ir < g.nr,
        ensures
            is_row_job(m, g, w@, solid@, n, gamma, inv@, zg@, from@, ir, row),
        { sweep_row_z(m, g, w, solid, n, gamma, &inv, &zg, from, ir) };
    let rows = par_collect(g.nr, job);
    put_rows(g, rhs, &rows);
    proof {
        assert(swept_z(m, g, w@, solid@, n, gamma, inv@, zg@, rows@, before, rhs@));
    }
}

/// Lengths of a row that its flux balance needs.
#[derive(Debug, Clone, Copy, PartialEq)]
pub struct RowGeom {
    pub inverse: Scalar,
    pub r_lo: Scalar,
    pub r_hi: Scalar,
    pub r_center: Scalar,
}

/// The lengths are those of row `ir`.
pub open spec fn is_row_geom<M: SweepMath>(m: &M, g: &Grid, ir: int, rr: RowGeom) -> bool {
    &&& call_ensures(M::inverse, (m, g.r.width[ir + 2]), rr.inverse)
    &&& call_ensures(M::narrow, (m, g.r_edges[ir]), rr.r_lo)
    &&& call_ensures(M::narrow, (m, g.r_edges[ir + 1]), rr.r_hi)
    &&& rr.r_center == g.r.centre[ir + 2]
}

pub(crate) fn row_geom<M: SweepMath>(m: &M, g: &Grid, ir: usize) -> (rr: RowGeom)
    requires
        g.wf(),
        ir < g.nr,
    ensures
        is_row_geom(m, g, ir as int, rr),
{
    RowGeom {
        inverse: m.inverse(g.dr(ir)),
        r_lo: g.r_face(m, ir),
        r_hi: g.r_face(m, ir + 1),
        r_center: g.r_center(ir),
    }
}

/// A cell on either side of the radial face above row `j` is masked.
pub open spec fn face_masked(g: &Grid, mask: Seq<bool>, iz: int, j: int) -> bool {
    mask[g.pad(iz, j)] || mask[g.pad(iz, j + 1)]
}

/// Flux and pressure at the radial face above row `j` of column `iz`.
pub open spec fn is_radial_face<M: SweepMath>(
    m: &M,
    g: &Grid,
    w: Seq<Prim>,
    solid: Seq<bool>,
    mask: Seq<bool>,
    n: Numerics,
    gamma: Scalar,
    fg: FaceGeom,
    iz: int,
    j: int,
    f: Cons,
    p: Scalar,
) -> bool {
    is_radial_flux(
        m,
        radial_four(g, w, iz, j),
        radial_four(g, solid, iz, j),
        face_masked(g, mask, iz, j),
        fg,
        n,
        gamma,
        f,
        p,
    )
}

/// The balance of the radial fluxes in one cell. Around an axis the fluxes are
/// weighted with their radii and the pressure source goes into the same bracket.
pub open spec fn is_radial_balance<M: SweepMath>(
    m: &M,
    n: Numerics,
    rr: RowGeom,
    before: Cons,
    lo: Cons,
    p_lo: Scalar,
    hi: Cons,
    p_hi: Scalar,
    after: Cons,
) -> bool {
    if n.geometry == Geometry::Axisymmetric {
        call_ensures(
            M::ring_balance,
            (
                m,
                before,
                lo,
                p_lo,
                hi,
                p_hi,
                rr.r_lo,
                rr.r_hi,
                rr.r_center,
                rr.inverse,
            ),
            after,
        )
    } else {
        call_ensures(M::planar_balance, (m, before, lo, hi, rr.inverse), after)
    }
}

/// What the radial sweep does to the cell (iz, ir).
pub open spec fn is_radial_cell<M: SweepMath>(
    m: &M,
    g: &Grid,
    w: Seq<Prim>,
    solid: Seq<bool>,
    mask: Seq<bool>,
    n: Numerics,
    gamma: Scalar,
    rr: RowGeom,
    fg_lo: FaceGeom,
    fg_hi: FaceGeom,
    before: Cons,
    iz: int,
    ir: int,
    after: Cons,
) -> bool {
    if solid[g.pad(iz, ir)] {
        after == before
    } else {
        exists|lo: Cons, p_lo: Scalar, hi: Cons, p_hi: Scalar|
            {
                &&& #[trigger] is_radial_face(
                    m,
                    g,
                    w,
                    solid,
                    mask,
                    n,
                    gamma,
                    fg_lo,
                    iz,
                    ir - 1,
                    lo,
                    p_lo,
                )
                &&& #[trigger] is_radial_face(
                    m,
                    g,
                    w,
                    solid,
                    mask,
                    n,
                    gamma,
                    fg_hi,
                    iz,
                    ir,
                    hi,
                    p_hi,
                )
                &&& is_radial_balance(m, n, rr, before, lo, p_lo, hi, p_hi, after)
            }
    }
}

pub(crate) fn radial_face<M: SweepMath>(
    m: &M,
    g: &Grid,
    w: &Vec<Prim>,
    solid: &Vec<bool>,
    mask: &Vec<bool>,
    n: Numerics,
    gamma: Scalar,
    fg: FaceGeom,
    iz: usize,
    j: isize,
) -> (r: (Cons, Scalar))
    requires
        g.wf(),
        w.len() == g.padded_cells(),
        solid.len() == g.padded_cells(),
        mask.len() == g.padded_cells(),
        iz < g.nz,
        -1 <= j < g.nr,
    ensures
        is_radial_face(m, g, w@, solid@, mask@, n, gamma, fg, iz as int, j as int, r.0, r.1),
{
    proof {
        grid::lemma_products_fit(g.nz as int, g.nr as int);
    }
    let s = radial_stencil(g, w, iz, j);
    let sol = radial_stencil(g, solid, iz, j);
    let masked = mask[g.gidx(iz as isize, j)] || mask[g.gidx(iz as isize, j + 1)];
    radial_flux(m, s, sol, masked, fg, n, gamma)
}

pub(crate) fn radial_balance<M: SweepMath>(
    m: &M,
    n: Numerics,
    rr: RowGeom,
    before: Cons,
    lo: Cons,
    p_lo: Scalar,
    hi: Cons,
    p_hi: Scalar,
) -> (after: Cons)
    ensures
        is_radial_balance(m, n, rr, before, lo, p_lo, hi, p_hi, after),
{
    if n.geometry == Geometry::Axisymmetric {
        m.ring_balance(
            before,
            lo,
            p_lo,
            hi,
            p_hi,
            rr.r_lo,
            rr.r_hi,
            rr.r_center,
            rr.inverse,
        )
    } else {
        m.planar_balance(before, lo, hi, rr.inverse)
    }
}

/// Row `ir` of the right-hand side after the radial sweep.
pub open spec fn is_radial_row<M: SweepMath>(
    m: &M,
    g: &Grid,
    w: Seq<Prim>,
    solid: Seq<bool>,
    mask: Seq<bool>,
    n: Numerics,
    gamma: Scalar,
    rg: Seq<FaceGeom>,
    rhs: Seq<Cons>,
    ir: int,
    row: Seq<Cons>,
) -> bool {
    &&& row.len() == g.nz
    &&& exists|rr: RowGeom| #[trigger]
        is_row_geom(m, g, ir, rr) && forall|iz: int|
            0 <= iz < g.nz ==> is_radial_cell(
                m,
                g,
                w,
                solid,
                mask,
                n,
                gamma,
                rr,
                rg[ir],
                rg[ir + 1],
                rhs[g.pad(iz, ir)],
                iz,
                ir,
                #[trigger] row[iz],
            )
}

fn sweep_row_r<M: SweepMath>(
    m: &M,
    g: &Grid,
    w: &Vec<Prim>,
    solid: &Vec<bool>,
    mask: &Vec<bool>,
    n: Numerics,
    gamma: Scalar,
    rg: &Vec<FaceGeom>,
    rhs: &Vec<Cons>,
    ir: usize,
) -> (row: Vec<Cons>)
    requires
        g.wf(),
        w.len() == g.padded_cells(),
        solid.len() == g.padded_cells(),
        mask.len() == g.padded_cells(),
        rhs.len() == g.padded_cells(),
        rg.len() == g.nr + 1,
        ir < g.nr,
    ensures
        is_radial_row(m, g, w@, solid@, mask@, n, gamma, rg@, rhs@, ir as int, row@),
{
    proof {
        grid::lemma_products_fit(g.nz as int, g.nr as int);
    }
    let rr = row_geom(m, g, ir);
    let mut row: Vec<Cons> = Vec::new();
    let mut iz: usize = 0;
    while iz < g.nz
        invariant
            g.wf(),
            g.nz + 4 <= isize::MAX,
            g.nr + 4 <= isize::MAX,
            w.len() == g.padded_cells(),
            solid.len() == g.padded_cells(),
            mask.len() == g.padded_cells(),
            rhs.len() == g.padded_cells(),
            rg.len() == g.nr + 1,
            ir < g.nr,
            iz <= g.nz,
            row.len() == iz,
            forall|j: int|
                0 <= j < iz ==> is_radial_cell(
                    m,
                    g,
                    w@,
                    solid@,
                    mask@,
                    n,
                    gamma,
                    rr,
                    rg[ir as int],
                    rg[ir + 1],
                    rhs[g.pad(j, ir as int)],
                    j,
                    ir as int,
                    #[trigger] row[j],
                ),
        decreases g.nz - iz,
    {
        let i: usize = g.gidx(iz as isize, ir as isize);
        let before = rhs[i];
        let after = if solid[i] {
            before
        } else {
            let (lo, p_lo) = radial_face(
                m,
                g,
                w,
                solid,
                mask,
                n,
                gamma,
                rg[ir],
                iz,
                ir as isize - 1,
            );
            let (hi, p_hi) = radial_face(
                m,
                g,
                w,
                solid,
                mask,
                n,
                gamma,
                rg[ir + 1],
                iz,
                ir as isize,
            );
            radial_balance(m, n, rr, before, lo, p_lo, hi, p_hi)
        };
        row.push(after);
        iz = iz + 1;
    }
    row
}

spec fn is_radial_job<M: SweepMath>(
    m: &M,
    g: &Grid,
    w: Seq<Prim>,
    solid: Seq<bool>,
    mask: Seq<bool>,
    n: Numerics,
    gamma: Scalar,
    rg: Seq<FaceGeom>,
    rhs: Seq<Cons>,
    ir: usize,
    row: Row,
) -> bool {
    is_radial_row(m, g, w, solid, mask, n, gamma, rg, rhs, ir as int, row@)
}

/// The right-hand side after the radial sweep.
pub open spec fn swept_r<M: SweepMath>(
    m: &M,
    g: &Grid,
    w: Seq<Prim>,
    solid: Seq<bool>,
    mask: Seq<bool>,
    n: Numerics,
    gamma: Scalar,
    rg: Seq<FaceGeom>,
    rows: Seq<Vec<Cons>>,
    before: Seq<Cons>,
    after: Seq<Cons>,
) -> bool {
    &&& rg.len() == g.nr + 1
    &&& forall|f: int|
        0 <= f <= g.nr ==> is_r_geom(
            m,
            g,
            n.geometry == Geometry::Axisymmetric,
            f,
            #[trigger] rg[f],
        )
    &&& rows.len() == g.nr
    &&& forall|ir: int|
        0 <= ir < g.nr ==> is_radial_row(
            m,
            g,
            w,
            solid,
            mask,
            n,
            gamma,
            rg,
            before,
            ir,
            (#[trigger] rows[ir])@,
        )
    &&& rows_replaced(g, before, rows, after)
}

/// Radial sweep: adds the balance of the radial fluxes of every fluid cell,
/// around an axis together with the pressure source.
pub fn sweep_r<M: SweepMath + Sync>(
    m: &M,
    w: &Vec<Prim>,
    solid: &Vec<bool>,
    mask: &Vec<bool>,
    g: &Grid,
    n: Numerics,
    gamma: Scalar,
    rhs: &mut Vec<Cons>,
)
    requires
        g.wf(),
        w.len() == g.padded_cells(),
        solid.len() == g.padded_cells(),
        mask.len() == g.padded_cells(),
        old(rhs).len() == g.padded_cells(),
    ensures
        final(rhs).len() == old(rhs).len(),
        exists|rg: Seq<FaceGeom>, rows: Seq<Vec<Cons>>| #[trigger]
            swept_r(
                m,
                g,
                w@,
                solid@,
                mask@,
                n,
                gamma,
                rg,
                rows,
                old(rhs)@,
                final(rhs)@,
            ),
{
    let ghost before = rhs@;
    let rg = r_face_geom(m, g, n.geometry == Geometry::Axisymmetric);
    let from: &Vec<Cons> = rhs;
    let job = |ir: usize| -> (row: Row)
        requires
            ir < g.nr,
        ensures
            is_radial_job(m, g, w@, solid@, mask@, n, gamma, rg@, from@, ir, row),
        { sweep_row_r(m, g, w, solid, mask, n, gamma, &rg, from, ir) };
    let rows = par_collect(g.nr, job);
    put_rows(g, rhs, &rows);
    proof {
        assert(swept_r(m, g, w@, solid@, mask@, n, gamma, rg@, rows@, before, rhs@));
    }
}

/// The formulas of fluid faces and walls are functions: the same values give the
/// same result.
pub open spec fn are_functions<M: SweepMath>(m: &M) -> bool {
    &&& riemann::are_functions(m)
    &&& forall|rho: Scalar, u: Scalar, p: Scalar, gamma: Scalar, r1: Scalar, r2: Scalar|
        {
            &&& #[trigger] call_ensures(M::wall_pressure, (m, rho, u, p, gamma), r1)
            &&& #[trigger] call_ensures(M::wall_pressure, (m, rho, u, p, gamma), r2)
        } ==> r1 == r2
}

/// The two rows beside a radial face see one flux and one pressure, where the
/// formulas are functions: what one row loses through the face the other gains.
pub proof fn law_rows_share_their_face<M: SweepMath>(
    m: &M,
    g: &Grid,
    w: Seq<Prim>,
    solid: Seq<bool>,
    mask: Seq<bool>,
    n: Numerics,
    gamma: Scalar,
    fg: FaceGeom,
    iz: int,
    ir: int,
    below: Cons,
    p_below: Scalar,
    above: Cons,
    p_above: Scalar,
)
    requires
        are_functions(m),
        is_radial_face(m, g, w, solid, mask, n, gamma, fg, iz, ir, below, p_below),
        is_radial_face(m, g, w, solid, mask, n, gamma, fg, iz, (ir + 1) - 1, above, p_above),
    ensures
        above == below,
        p_above == p_below,
{
    let s = radial_four(g, w, iz, ir);
    let sol = radial_four(g, solid, iz, ir);
    let masked = face_masked(g, mask, iz, ir);
    let turned = Four {
        a: s.a.rotated(),
        b: s.b.rotated(),
        c: s.c.rotated(),
        d: s.d.rotated(),
    };
    if sol.b && sol.c {
    } else if (!sol.b && !sol.c) || n.wall_mode == WallMode::ColumnReflect {
        riemann::law_fluid_face_has_one_flux(
            m,
            turned,
            sol,
            fg,
            riemann::radial_hll(n.flux_mode) || masked,
            n,
            gamma,
            below.rotated(),
            p_below,
            above.rotated(),
            p_above,
        );
        assert(below.rotated().rotated() == below);
        assert(above.rotated().rotated() == above);
    } else if !sol.b {
        lemma_one_wall_flux(m, s.b, Side::Low, gamma, below, above);
    } else {
        lemma_one_wall_flux(m, s.c, Side::High, gamma, below, above);
    }
}

proof fn lemma_one_wall_flux<M: SweepMath>(
    m: &M,
    q: Prim,
    side: Side,
    gamma: Scalar,
    f1: Cons,
    f2: Cons,
)
    requires
        are_functions(m),
        exists|out: Cons| #[trigger]
            flow::is_wall_flux_r(m, q, side, gamma, out) && f1 == out.orientation(side),
        exists|out: Cons| #[trigger]
            flow::is_wall_flux_r(m, q, side, gamma, out) && f2 == out.orientation(side),
    ensures
        f1 == f2,
{
    let o1 = choose|out: Cons| #[trigger]
        flow::is_wall_flux_r(m, q, side, gamma, out) && f1 == out.orientation(side);
    let o2 = choose|out: Cons| #[trigger]
        flow::is_wall_flux_r(m, q, side, gamma, out) && f2 == out.orientation(side);
    assert(o1.mr == o2.mr);
}

/// A sweep leaves the right-hand side of solid cells as it was.
pub proof fn law_sweeps_spare_solid<M: SweepMath>(
    m: &M,
    g: &Grid,
    w: Seq<Prim>,
    solid: Seq<bool>,
    mask: Seq<bool>,
    n: Numerics,
    gamma: Scalar,
    inverses: Seq<Scalar>,
    zg: Seq<FaceGeom>,
    z_rows: Seq<Vec<Cons>>,
    rg: Seq<FaceGeom>,
    r_rows: Seq<Vec<Cons>>,
    before: Seq<Cons>,
    mid: Seq<Cons>,
    after: Seq<Cons>,
    iz: int,
    ir: int,
)
    requires
        g.wf(),
        swept_z(m, g, w, solid, n, gamma, inverses, zg, z_rows, before, mid),
        swept_r(m, g, w, solid, mask, n, gamma, rg, r_rows, mid, after),
        g.inside(iz, ir),
        solid[g.pad(iz, ir)],
    ensures
        after[g.pad(iz, ir)] == before[g.pad(iz, ir)],
{
    assert(g.in_pad(iz, ir));
    assert(is_swept_row(
        m,
        g,
        w,
        solid,
        n,
        gamma,
        inverses,
        zg,
        before,
        ir,
        z_rows[ir]@,
    ));
    let flux = choose|flux: Seq<Cons>| #[trigger]
        are_row_fluxes(m, g, w, solid, n, gamma, zg, ir, flux) && forall|iz: int|
            0 <= iz < g.nz ==> is_axial_balance(
                m,
                inverses[iz],
                solid[g.pad(iz, ir)],
                before[g.pad(iz, ir)],
                flux[iz],
                flux[iz + 1],
                #[trigger] z_rows[ir]@[iz],
            );
    assert(z_rows[ir]@[iz] == before[g.pad(iz, ir)]);
    assert(is_radial_row(m, g, w, solid, mask, n, gamma, rg, mid, ir, r_rows[ir]@));
    let rr = choose|rr: RowGeom| #[trigger]
        is_row_geom(m, g, ir, rr) && forall|iz: int|
            0 <= iz < g.nz ==> is_radial_cell(
                m,
                g,
                w,
                solid,
                mask,
                n,
                gamma,
                rr,
                rg[ir],
                rg[ir + 1],
                mid[g.pad(iz, ir)],
                iz,
                ir,
                #[trigger] r_rows[ir]@[iz],
            );
    assert(r_rows[ir]@[iz] == mid[g.pad(iz, ir)]);
}

/// A wall across the axis pushes the fluid away from itself, on whichever side the fluid
/// lies: nothing but z momentum passes, and in the fixed orientation of the sweep that is
/// the star pressure of the fluid against the wall, held at its floor and never turned
/// around.
pub proof fn law_axial_walls_push_back<M: SweepMath>(
    m: &M,
    w: Four<Prim>,
    solid: Four<bool>,
    fg: FaceGeom,
    n: Numerics,
    gamma: Scalar,
    f: Cons,
)
    requires
        is_axial_flux(m, w, solid, fg, n, gamma, f),
        solid.b != solid.c,
    ensures
        f.rho.magnitude() == 0 && f.mr.magnitude() == 0 && f.e.magnitude() == 0,
        (Scalar { bits: flow::P_MIN_ABS }).at_most(f.mz),
        (Scalar { bits: ZERO }).below(f.mz),
        solid.c ==> exists|ps: Scalar| #[trigger]
            call_ensures(M::wall_pressure, (m, w.b.rho, w.b.uz, w.b.p, gamma), ps) && f.mz
                == ps.larger(Scalar { bits: flow::P_MIN_ABS }),
        solid.b ==> exists|ps: Scalar| #[trigger]
            call_ensures(M::wall_pressure, (m, w.c.rho, w.c.uz.negated(), w.c.p, gamma), ps)
                && f.mz == ps.larger(Scalar { bits: flow::P_MIN_ABS }),
{
}

/// A wall around the axis pushes the fluid away from itself, on whichever side the fluid
/// lies: nothing but r momentum passes, in the fixed orientation of the sweep that is the
/// star pressure of the fluid against the wall, held at its floor and never turned around,
/// and it is the pressure at the face.
pub proof fn law_radial_walls_push_back<M: SweepMath>(
    m: &M,
    w: Four<Prim>,
    solid: Four<bool>,
    masked: bool,
    fg: FaceGeom,
    n: Numerics,
    gamma: Scalar,
    f: Cons,
    p: Scalar,
)
    requires
        is_radial_flux(m, w, solid, masked, fg, n, gamma, f, p),
        solid.b != solid.c,
        n.wall_mode == WallMode::Mirror,
    ensures
        f.rho.magnitude() == 0 && f.mz.magnitude() == 0 && f.e.magnitude() == 0,
        p == f.mr,
        (Scalar { bits: flow::P_MIN_ABS }).at_most(f.mr),
        (Scalar { bits: ZERO }).below(f.mr),
        solid.c ==> exists|ps: Scalar| #[trigger]
            call_ensures(M::wall_pressure, (m, w.b.rho, w.b.ur, w.b.p, gamma), ps) && f.mr
                == ps.larger(Scalar { bits: flow::P_MIN_ABS }),
        solid.b ==> exists|ps: Scalar| #[trigger]
            call_ensures(M::wall_pressure, (m, w.c.rho, w.c.ur.negated(), w.c.p, gamma), ps)
                && f.mr == ps.larger(Scalar { bits: flow::P_MIN_ABS }),
{
}

/// The two fluxes hold equal values.
pub open spec fn equal_fluxes(a: Cons, b: Cons) -> bool {
    a.rho.equals(b.rho) && a.mz.equals(b.mz) && a.mr.equals(b.mr) && a.e.equals(b.e)
}

/// The formulas know gas at rest: nothing but its pressure passes a face, a wall feels
/// that pressure, and no slope comes out of equal values.
pub open spec fn knows_rest<M: SweepMath>(m: &M, q: Prim, gamma: Scalar) -> bool {
    &&& forall|f: Cons| #[trigger]
        call_ensures(M::analytic_flux, (m, q, gamma), f) ==> f.rho.magnitude() == 0 && f.mz == q.p
            && f.mr.magnitude() == 0 && f.e.magnitude() == 0
    &&& forall|u: Scalar, ps: Scalar| #[trigger]
        call_ensures(M::wall_pressure, (m, q.rho, u, q.p, gamma), ps) && u.magnitude() == 0 ==> ps
            == q.p
    &&& forall|a: Scalar, xa: Scalar, xb: Scalar, d: Scalar| #[trigger]
        call_ensures(M::difference, (m, a, a, xa, xb), d) ==> d.magnitude() == 0
    &&& forall|a: Scalar, b: Scalar, x: Scalar| #[trigger]
        call_ensures(M::half_sum, (m, a, b), x) && a.magnitude() == 0 && b.magnitude() == 0
            ==> x.magnitude() == 0
    &&& forall|a: Scalar, b: Scalar, x: Scalar| #[trigger]
        call_ensures(M::product, (m, a, b), x) && a.magnitude() == 0 && b.magnitude() == 0
            ==> x.magnitude() == 0
    &&& forall|a: Scalar, k: Scalar, x: Scalar, face: Scalar, r: Scalar| #[trigger]
        call_ensures(M::extrapolate, (m, a, k, x, face), r) && k.magnitude() == 0 ==> r == a
}

/// The formulas of the balances add nothing to `c` where the two faces of a cell agree.
pub open spec fn balances_cancel<M: SweepMath>(m: &M, c: Cons) -> bool {
    &&& forall|lo: Cons, hi: Cons, inverse: Scalar, mid: Cons, after: Cons|
        {
            &&& #[trigger] call_ensures(M::gain, (m, c, lo, inverse), mid)
            &&& #[trigger] call_ensures(M::lose, (m, mid, hi, inverse), after)
            &&& equal_fluxes(lo, hi)
        } ==> after == c
    &&& forall|lo: Cons, hi: Cons, inverse: Scalar, after: Cons| #[trigger]
        call_ensures(M::planar_balance, (m, c, lo, hi, inverse), after) && equal_fluxes(lo, hi)
            ==> after == c
    &&& forall|
        lo: Cons,
        p_lo: Scalar,
        hi: Cons,
        p_hi: Scalar,
        r_lo: Scalar,
        r_hi: Scalar,
        r: Scalar,
        inverse: Scalar,
        after: Cons,
    | #[trigger]
        call_ensures(
            M::ring_balance,
            (m, c, lo, p_lo, hi, p_hi, r_lo, r_hi, r, inverse),
            after,
        ) && equal_fluxes(lo, hi) && lo.rho.magnitude() == 0 && lo.mz.magnitude() == 0
            && lo.e.magnitude() == 0 && p_lo == lo.mr && p_hi == hi.mr ==> after == c
}

proof fn lemma_rest_is_reconstructed<M: SweepMath>(
    m: &M,
    q: Prim,
    gamma: Scalar,
    solid: Four<bool>,
    fg: FaceGeom,
    n: Numerics,
    ql: Prim,
    qr: Prim,
)
    requires
        knows_rest(m, q, gamma),
        riemann::are_flux_states(m, Four { a: q, b: q, c: q, d: q }, solid, fg, n, ql, qr),
    ensures
        ql == q,
        qr == q,
{
    let s = Four { a: q, b: q, c: q, d: q };
    let (left, right) = choose|left: Prim, right: Prim|
        {
            &&& #[trigger] riemann::are_face_states(
                m,
                s,
                solid,
                fg,
                n.reconstruction,
                n.limiter,
                left,
                right,
            )
            &&& if n.reconstruction == crate::field::Reconstruction::Muscl && (left.unphysical()
                || right.unphysical()) {
                ql == s.b && qr == s.c
            } else {
                ql == left && qr == right
            }
        };
    assert forall|a: Scalar, xa: Scalar, xb: Scalar, xc: Scalar, r: Scalar| #[trigger]
        riemann::is_reconstructed(m, a, a, a, xa, xb, xc, fg.face, n.limiter, r) implies r == a by {
        let (dm, dp, k) = choose|dm: Scalar, dp: Scalar, k: Scalar|
            {
                &&& #[trigger] call_ensures(M::difference, (m, a, a, xa, xb), dm)
                &&& #[trigger] call_ensures(M::difference, (m, a, a, xb, xc), dp)
                &&& riemann::is_slope(m, dm, dp, n.limiter, k)
                &&& #[trigger] call_ensures(M::extrapolate, (m, a, k, xb, fg.face), r)
            };
        assert(k.magnitude() == 0);
    }
}

proof fn lemma_rest_fluid_flux<M: SweepMath>(
    m: &M,
    q: Prim,
    gamma: Scalar,
    solid: Four<bool>,
    fg: FaceGeom,
    hll: bool,
    n: Numerics,
    f: Cons,
    p: Scalar,
)
    requires
        knows_rest(m, q, gamma),
        !q.rho.nan() && !q.uz.nan() && !q.ur.nan() && !q.p.nan(),
        riemann::is_fluid_flux(
            m,
            Four { a: q, b: q, c: q, d: q },
            solid,
            fg,
            hll,
            n,
            gamma,
            f,
            p,
        ),
    ensures
        f.rho.magnitude() == 0 && f.mz == q.p && f.mr.magnitude() == 0 && f.e.magnitude() == 0,
        p == q.p,
{
    let s = Four { a: q, b: q, c: q, d: q };
    let (ql, qr) = choose|ql: Prim, qr: Prim| #[trigger]
        riemann::are_flux_states(m, s, solid, fg, n, ql, qr) && if riemann::equal_states(ql, qr) {
            call_ensures(M::analytic_flux, (m, ql, gamma), f) && p == ql.p
        } else if hll {
            exists|sl: Scalar, sr: Scalar| #[trigger]
                riemann::is_hll(m, ql, qr, gamma, sl, sr, f, p)
        } else {
            exists|sl: Scalar, sr: Scalar, contact: Scalar| #[trigger]
                riemann::is_hllc(m, ql, qr, gamma, sl, sr, contact, f, p)
        };
    lemma_rest_is_reconstructed(m, q, gamma, solid, fg, n, ql, qr);
}

/// Gas at rest stays at rest: in gas of one density and one pressure that does not move,
/// around solid of any shape, on any grid and in any mode, the two sweeps add nothing to
/// the right-hand side of any cell. The formulas are to know gas at rest, and their
/// balances are to add nothing where the two faces of a cell agree.
pub proof fn law_rest_stays_at_rest<M: SweepMath>(
    m: &M,
    g: &Grid,
    w: Seq<Prim>,
    solid: Seq<bool>,
    mask: Seq<bool>,
    n: Numerics,
    gamma: Scalar,
    inverses: Seq<Scalar>,
    zg: Seq<FaceGeom>,
    z_rows: Seq<Vec<Cons>>,
    rg: Seq<FaceGeom>,
    r_rows: Seq<Vec<Cons>>,
    before: Seq<Cons>,
    mid: Seq<Cons>,
    after: Seq<Cons>,
    q: Prim,
    c: Cons,
    iz: int,
    ir: int,
)
    requires
        g.wf(),
        swept_z(m, g, w, solid, n, gamma, inverses, zg, z_rows, before, mid),
        swept_r(m, g, w, solid, mask, n, gamma, rg, r_rows, mid, after),
        q.uz.bits == ZERO && q.ur.bits == ZERO,
        q.rho.finite() && q.p.finite(),
        (Scalar { bits: flow::P_MIN_ABS }).below(q.p),
        w.len() == g.padded_cells(),
        forall|k: int| 0 <= k < w.len() ==> #[trigger] w[k] == q,
        knows_rest(m, q, gamma),
        balances_cancel(m, c),
        g.inside(iz, ir),
        before[g.pad(iz, ir)] == c,
    ensures
        mid[g.pad(iz, ir)] == c,
        after[g.pad(iz, ir)] == c,
{
    let four = Four { a: q, b: q, c: q, d: q };
    assert(q.rotated() == q);
    assert(g.in_pad(iz, ir));
    assert forall|i: int, j: int| -2 <= i < g.nz + 2 && -2 <= j < g.nr + 2 implies #[trigger] w[g.pad(
        i,
        j,
    )] == q by {
        grid::law_padded_layout(g.nz as int, g.nr as int, i, j);
    }
    assert(is_swept_row(
        m,
        g,
        w,
        solid,
        n,
        gamma,
        inverses,
        zg,
        before,
        ir,
        z_rows[ir]@,
    ));
    let flux = choose|flux: Seq<Cons>| #[trigger]
        are_row_fluxes(m, g, w, solid, n, gamma, zg, ir, flux) && forall|iz: int|
            0 <= iz < g.nz ==> is_axial_balance(
                m,
                inverses[iz],
                solid[g.pad(iz, ir)],
                before[g.pad(iz, ir)],
                flux[iz],
                flux[iz + 1],
                #[trigger] z_rows[ir]@[iz],
            );
    if !solid[g.pad(iz, ir)] {
        assert forall|k: int| iz <= k <= iz + 1 implies (#[trigger] flux[k]).rho.magnitude() == 0
            && flux[k].mz == q.p && flux[k].mr.magnitude() == 0 && flux[k].e.magnitude() == 0 by {
            let sol = axial_four(g, solid, k, ir);
            assert(axial_four(g, w, k, ir) == four);
            assert(is_axial_flux(m, four, sol, zg[k], n, gamma, flux[k]));
            if !sol.b && !sol.c {
                let p = choose|p: Scalar| #[trigger]
                    riemann::is_fluid_flux(
                        m,
                        four,
                        sol,
                        zg[k],
                        riemann::axial_hll(n.flux_mode),
                        n,
                        gamma,
                        flux[k],
                        p,
                    );
                lemma_rest_fluid_flux(
                    m,
                    q,
                    gamma,
                    sol,
                    zg[k],
                    riemann::axial_hll(n.flux_mode),
                    n,
                    flux[k],
                    p,
                );
            } else {
                law_axial_walls_push_back(m, four, sol, zg[k], n, gamma, flux[k]);
                assert(q.uz.negated().magnitude() == 0);
            }
        }
        assert(flux[iz].mz == q.p && flux[iz + 1].mz == q.p);
        assert(equal_fluxes(flux[iz], flux[iz + 1]));
        assert(is_axial_balance(
            m,
            inverses[iz],
            solid[g.pad(iz, ir)],
            before[g.pad(iz, ir)],
            flux[iz],
            flux[iz + 1],
            z_rows[ir]@[iz],
        ));
    }
    assert(z_rows[ir]@[iz] == c);
    assert(mid[g.pad(iz, ir)] == c);
    assert(is_radial_row(m, g, w, solid, mask, n, gamma, rg, mid, ir, r_rows[ir]@));
    let rr = choose|rr: RowGeom| #[trigger]
        is_row_geom(m, g, ir, rr) && forall|iz: int|
            0 <= iz < g.nz ==> is_radial_cell(
                m,
                g,
                w,
                solid,
                mask,
                n,
                gamma,
                rr,
                rg[ir],
                rg[ir + 1],
                mid[g.pad(iz, ir)],
                iz,
                ir,
                #[trigger] r_rows[ir]@[iz],
            );
    let last = r_rows[ir]@[iz];
    assert(is_radial_cell(
        m,
        g,
        w,
        solid,
        mask,
        n,
        gamma,
        rr,
        rg[ir],
        rg[ir + 1],
        c,
        iz,
        ir,
        last,
    ));
    if !solid[g.pad(iz, ir)] {
        let (lo, p_lo, hi, p_hi) = choose|lo: Cons, p_lo: Scalar, hi: Cons, p_hi: Scalar|
            {
                &&& #[trigger] is_radial_face(
                    m,
                    g,
                    w,
                    solid,
                    mask,
                    n,
                    gamma,
                    rg[ir],
                    iz,
                    ir - 1,
                    lo,
                    p_lo,
                )
                &&& #[trigger] is_radial_face(
                    m,
                    g,
                    w,
                    solid,
                    mask,
                    n,
                    gamma,
                    rg[ir + 1],
                    iz,
                    ir,
                    hi,
                    p_hi,
                )
                &&& is_radial_balance(m, n, rr, c, lo, p_lo, hi, p_hi, last)
            };
        lemma_rest_radial_face(m, g, w, solid, mask, n, gamma, rg[ir], iz, ir - 1, lo, p_lo, q);
        lemma_rest_radial_face(m, g, w, solid, mask, n, gamma, rg[ir + 1], iz, ir, hi, p_hi, q);
        assert(equal_fluxes(lo, hi));
    }
    assert(last == c);
}

proof fn lemma_rest_radial_face<M: SweepMath>(
    m: &M,
    g: &Grid,
    w: Seq<Prim>,
    solid: Seq<bool>,
    mask: Seq<bool>,
    n: Numerics,
    gamma: Scalar,
    fg: FaceGeom,
    iz: int,
    j: int,
    f: Cons,
    p: Scalar,
    q: Prim,
)
    requires
        0 <= iz < g.nz,
        -1 <= j < g.nr,
        forall|i: int, k: int|
            -2 <= i < g.nz + 2 && -2 <= k < g.nr + 2 ==> #[trigger] w[g.pad(i, k)] == q,
        q.uz.bits == ZERO && q.ur.bits == ZERO,
        q.rho.finite() && q.p.finite(),
        (Scalar { bits: flow::P_MIN_ABS }).below(q.p),
        knows_rest(m, q, gamma),
        is_radial_face(m, g, w, solid, mask, n, gamma, fg, iz, j, f, p),
        !solid[g.pad(iz, j)] || !solid[g.pad(iz, j + 1)],
    ensures
        f.rho.magnitude() == 0 && f.mz.magnitude() == 0 && f.mr == q.p && f.e.magnitude() == 0,
        p == q.p,
{
    let four = Four { a: q, b: q, c: q, d: q };
    let sol = radial_four(g, solid, iz, j);
    let masked = face_masked(g, mask, iz, j);
    assert(radial_four(g, w, iz, j) == four);
    assert(q.rotated() == q);
    assert(is_radial_flux(m, four, sol, masked, fg, n, gamma, f, p));
    if (!sol.b && !sol.c) || n.wall_mode == WallMode::ColumnReflect {
        lemma_rest_fluid_flux(
            m,
            q,
            gamma,
            sol,
            fg,
            riemann::radial_hll(n.flux_mode) || masked,
            n,
            f.rotated(),
            p,
        );
    } else {
        law_radial_walls_push_back(m, four, sol, masked, fg, n, gamma, f, p);
        assert(q.ur.negated().magnitude() == 0);
    }
}

/// What a fluid cell gains in the axial sweep comes through its low face, what it loses
/// goes through its high face, each over its own width. The flux of a face is made of the
/// two columns on either side of it in the same row, at their centres.
pub proof fn law_axial_cells_balance_their_faces<M: SweepMath>(
    m: &M,
    g: &Grid,
    w: Seq<Prim>,
    solid: Seq<bool>,
    n: Numerics,
    gamma: Scalar,
    inverses: Seq<Scalar>,
    zg: Seq<FaceGeom>,
    rows: Seq<Vec<Cons>>,
    before: Seq<Cons>,
    after: Seq<Cons>,
    iz: int,
    ir: int,
) -> (r: (Cons, Cons, Cons, Scalar))
    requires
        g.wf(),
        swept_z(m, g, w, solid, n, gamma, inverses, zg, rows, before, after),
        g.inside(iz, ir),
        !solid[g.pad(iz, ir)],
    ensures
        ({
            let (lo, hi, mid, inverse) = r;
            &&& call_ensures(M::inverse, (m, g.z.width[iz + 2]), inverse)
            &&& call_ensures(M::gain, (m, before[g.pad(iz, ir)], lo, inverse), mid)
            &&& call_ensures(M::lose, (m, mid, hi, inverse), after[g.pad(iz, ir)])
            &&& zg[iz].x0 == g.z.centre[iz] && zg[iz].x1 == g.z.centre[iz + 1]
            &&& zg[iz].x2 == g.z.centre[iz + 2] && zg[iz].x3 == g.z.centre[iz + 3]
            &&& call_ensures(M::narrow, (m, g.z_edges[iz]), zg[iz].face)
            &&& is_axial_flux(
                m,
                Four {
                    a: w[g.pad(iz - 2, ir)],
                    b: w[g.pad(iz - 1, ir)],
                    c: w[g.pad(iz, ir)],
                    d: w[g.pad(iz + 1, ir)],
                },
                Four {
                    a: solid[g.pad(iz - 2, ir)],
                    b: solid[g.pad(iz - 1, ir)],
                    c: solid[g.pad(iz, ir)],
                    d: solid[g.pad(iz + 1, ir)],
                },
                zg[iz],
                n,
                gamma,
                lo,
            )
            &&& is_axial_flux(
                m,
                Four {
                    a: w[g.pad(iz - 1, ir)],
                    b: w[g.pad(iz, ir)],
                    c: w[g.pad(iz + 1, ir)],
                    d: w[g.pad(iz + 2, ir)],
                },
                Four {
                    a: solid[g.pad(iz - 1, ir)],
                    b: solid[g.pad(iz, ir)],
                    c: solid[g.pad(iz + 1, ir)],
                    d: solid[g.pad(iz + 2, ir)],
                },
                zg[iz + 1],
                n,
                gamma,
                hi,
            )
        }),
{
    assert(g.in_pad(iz, ir));
    assert(is_swept_row(
        m,
        g,
        w,
        solid,
        n,
        gamma,
        inverses,
        zg,
        before,
        ir,
        rows[ir]@,
    ));
    let flux = choose|flux: Seq<Cons>| #[trigger]
        are_row_fluxes(m, g, w, solid, n, gamma, zg, ir, flux) && forall|iz: int|
            0 <= iz < g.nz ==> is_axial_balance(
                m,
                inverses[iz],
                solid[g.pad(iz, ir)],
                before[g.pad(iz, ir)],
                flux[iz],
                flux[iz + 1],
                #[trigger] rows[ir]@[iz],
            );
    let last = rows[ir]@[iz];
    assert(is_axial_balance(
        m,
        inverses[iz],
        solid[g.pad(iz, ir)],
        before[g.pad(iz, ir)],
        flux[iz],
        flux[iz + 1],
        last,
    ));
    let mid = choose|mid: Cons| #[trigger]
        call_ensures(M::gain, (m, before[g.pad(iz, ir)], flux[iz], inverses[iz]), mid)
            && call_ensures(M::lose, (m, mid, flux[iz + 1], inverses[iz]), last);
    assert(is_z_geom(m, g, iz, zg[iz]));
    assert(is_axial_flux(
        m,
        axial_four(g, w, iz, ir),
        axial_four(g, solid, iz, ir),
        zg[iz],
        n,
        gamma,
        flux[iz],
    ));
    assert(is_axial_flux(
        m,
        axial_four(g, w, iz + 1, ir),
        axial_four(g, solid, iz + 1, ir),
        zg[iz + 1],
        n,
        gamma,
        flux[iz + 1],
    ));
    assert(call_ensures(M::inverse, (m, g.z.width[iz + 2]), inverses[iz]));
    (flux[iz], flux[iz + 1], mid, inverses[iz])
}

/// What the radial sweep does to a fluid cell comes from the faces below and above it. The
/// flux of a face is made of the two rows on either side of it in the same column, at
/// their centroids around an axis and at their centres otherwise; it goes without contact
/// resolution where a cell beside it is masked. Around an axis the two fluxes and the two
/// pressures go in with the radii of their faces and that of the cell.
pub proof fn law_radial_cells_balance_their_faces<M: SweepMath>(
    m: &M,
    g: &Grid,
    w: Seq<Prim>,
    solid: Seq<bool>,
    mask: Seq<bool>,
    n: Numerics,
    gamma: Scalar,
    rg: Seq<FaceGeom>,
    rows: Seq<Vec<Cons>>,
    before: Seq<Cons>,
    after: Seq<Cons>,
    iz: int,
    ir: int,
) -> (r: (Cons, Scalar, Cons, Scalar, RowGeom))
    requires
        g.wf(),
        swept_r(m, g, w, solid, mask, n, gamma, rg, rows, before, after),
        g.inside(iz, ir),
        !solid[g.pad(iz, ir)],
    ensures
        ({
            let (lo, p_lo, hi, p_hi, rr) = r;
            &&& call_ensures(M::inverse, (m, g.r.width[ir + 2]), rr.inverse)
            &&& call_ensures(M::narrow, (m, g.r_edges[ir]), rr.r_lo)
            &&& call_ensures(M::narrow, (m, g.r_edges[ir + 1]), rr.r_hi)
            &&& n.geometry == Geometry::Planar ==> call_ensures(
                M::planar_balance,
                (m, before[g.pad(iz, ir)], lo, hi, rr.inverse),
                after[g.pad(iz, ir)],
            )
            &&& n.geometry == Geometry::Axisymmetric ==> call_ensures(
                M::ring_balance,
                (
                    m,
                    before[g.pad(iz, ir)],
                    lo,
                    p_lo,
                    hi,
                    p_hi,
                    rr.r_lo,
                    rr.r_hi,
                    g.r.centre[ir + 2],
                    rr.inverse,
                ),
                after[g.pad(iz, ir)],
            )
            &&& n.geometry == Geometry::Axisymmetric ==> {
                &&& rg[ir].x0 == g.r.centroid[ir] && rg[ir].x1 == g.r.centroid[ir + 1]
                &&& rg[ir].x2 == g.r.centroid[ir + 2] && rg[ir].x3 == g.r.centroid[ir + 3]
            }
            &&& n.geometry == Geometry::Planar ==> {
                &&& rg[ir].x0 == g.r.centre[ir] && rg[ir].x1 == g.r.centre[ir + 1]
                &&& rg[ir].x2 == g.r.centre[ir + 2] && rg[ir].x3 == g.r.centre[ir + 3]
            }
            &&& call_ensures(M::narrow, (m, g.r_edges[ir]), rg[ir].face)
            &&& is_radial_flux(
                m,
                Four {
                    a: w[g.pad(iz, ir - 2)],
                    b: w[g.pad(iz, ir - 1)],
                    c: w[g.pad(iz, ir)],
                    d: w[g.pad(iz, ir + 1)],
                },
                Four {
                    a: solid[g.pad(iz, ir - 2)],
                    b: solid[g.pad(iz, ir - 1)],
                    c: solid[g.pad(iz, ir)],
                    d: solid[g.pad(iz, ir + 1)],
                },
                mask[g.pad(iz, ir - 1)] || mask[g.pad(iz, ir)],
                rg[ir],
                n,
                gamma,
                lo,
                p_lo,
            )
            &&& is_radial_flux(
                m,
                Four {
                    a: w[g.pad(iz, ir - 1)],
                    b: w[g.pad(iz, ir)],
                    c: w[g.pad(iz, ir + 1)],
                    d: w[g.pad(iz, ir + 2)],
                },
                Four {
                    a: solid[g.pad(iz, ir - 1)],
                    b: solid[g.pad(iz, ir)],
                    c: solid[g.pad(iz, ir + 1)],
                    d: solid[g.pad(iz, ir + 2)],
                },
                mask[g.pad(iz, ir)] || mask[g.pad(iz, ir + 1)],
                rg[ir + 1],
                n,
                gamma,
                hi,
                p_hi,
            )
        }),
{
    assert(g.in_pad(iz, ir));
    assert(is_radial_row(m, g, w, solid, mask, n, gamma, rg, before, ir, rows[ir]@));
    let rr = choose|rr: RowGeom| #[trigger]
        is_row_geom(m, g, ir, rr) && forall|iz: int|
            0 <= iz < g.nz ==> is_radial_cell(
                m,
                g,
                w,
                solid,
                mask,
                n,
                gamma,
                rr,
                rg[ir],
                rg[ir + 1],
                before[g.pad(iz, ir)],
                iz,
                ir,
                #[trigger] rows[ir]@[iz],
            );
    let last = rows[ir]@[iz];
    assert(is_radial_cell(
        m,
        g,
        w,
        solid,
        mask,
        n,
        gamma,
        rr,
        rg[ir],
        rg[ir + 1],
        before[g.pad(iz, ir)],
        iz,
        ir,
        last,
    ));
    let (lo, p_lo, hi, p_hi) = choose|lo: Cons, p_lo: Scalar, hi: Cons, p_hi: Scalar|
        {
            &&& #[trigger] is_radial_face(
                m,
                g,
                w,
                solid,
                mask,
                n,
                gamma,
                rg[ir],
                iz,
                ir - 1,
                lo,
                p_lo,
            )
            &&& #[trigger] is_radial_face(
                m,
                g,
                w,
                solid,
                mask,
                n,
                gamma,
                rg[ir + 1],
                iz,
                ir,
                hi,
                p_hi,
            )
            &&& is_radial_balance(m, n, rr, before[g.pad(iz, ir)], lo, p_lo, hi, p_hi, last)
        };
    assert(is_r_geom(m, g, n.geometry == Geometry::Axisymmetric, ir, rg[ir]));
    (lo, p_lo, hi, p_hi, rr)
}

/// Supersonic flow marches: at first order, where all waves of a fluid cell and of the
/// fluid cells before and behind it in its row run downstream, the axial sweep carries in
/// the exact flux of the cell before it and carries out its own, and nothing of the cell
/// behind it matters.
pub proof fn law_supersonic_rows_march<M: SweepMath>(
    m: &M,
    g: &Grid,
    w: Seq<Prim>,
    solid: Seq<bool>,
    n: Numerics,
    gamma: Scalar,
    inverses: Seq<Scalar>,
    zg: Seq<FaceGeom>,
    rows: Seq<Vec<Cons>>,
    before: Seq<Cons>,
    after: Seq<Cons>,
    iz: int,
    ir: int,
) -> (r: (Cons, Cons, Cons, Scalar))
    requires
        g.wf(),
        swept_z(m, g, w, solid, n, gamma, inverses, zg, rows, before, after),
        g.inside(iz, ir),
        n.reconstruction == crate::field::Reconstruction::FirstOrder,
        !solid[g.pad(iz - 1, ir)] && !solid[g.pad(iz, ir)] && !solid[g.pad(iz + 1, ir)],
        forall|i: int, x: Scalar|
            iz - 1 <= i <= iz + 1 && #[trigger] call_ensures(
                M::slowest_wave,
                (m, w[g.pad(i, ir)], gamma),
                x,
            ) ==> (Scalar { bits: ZERO }).at_most(x),
    ensures
        call_ensures(M::analytic_flux, (m, w[g.pad(iz - 1, ir)], gamma), r.0),
        call_ensures(M::analytic_flux, (m, w[g.pad(iz, ir)], gamma), r.1),
        call_ensures(M::inverse, (m, g.z.width[iz + 2]), r.3),
        call_ensures(M::gain, (m, before[g.pad(iz, ir)], r.0, r.3), r.2),
        call_ensures(M::lose, (m, r.2, r.1, r.3), after[g.pad(iz, ir)]),
{
    let r = law_axial_cells_balance_their_faces(
        m,
        g,
        w,
        solid,
        n,
        gamma,
        inverses,
        zg,
        rows,
        before,
        after,
        iz,
        ir,
    );
    lemma_upwind_face(m, axial_four(g, w, iz, ir), axial_four(g, solid, iz, ir), zg[iz], n, gamma, r.0);
    lemma_upwind_face(
        m,
        axial_four(g, w, iz + 1, ir),
        axial_four(g, solid, iz + 1, ir),
        zg[iz + 1],
        n,
        gamma,
        r.1,
    );
    r
}

proof fn lemma_upwind_face<M: SweepMath>(
    m: &M,
    s: Four<Prim>,
    sol: Four<bool>,
    fg: FaceGeom,
    n: Numerics,
    gamma: Scalar,
    f: Cons,
)
    requires
        n.reconstruction == crate::field::Reconstruction::FirstOrder,
        !sol.b && !sol.c,
        is_axial_flux(m, s, sol, fg, n, gamma, f),
        forall|x: Scalar| #[trigger]
            call_ensures(M::slowest_wave, (m, s.b, gamma), x) ==> (Scalar { bits: ZERO }).at_most(
                x,
            ),
        forall|x: Scalar| #[trigger]
            call_ensures(M::slowest_wave, (m, s.c, gamma), x) ==> (Scalar { bits: ZERO }).at_most(
                x,
            ),
    ensures
        call_ensures(M::analytic_flux, (m, s.b, gamma), f),
{
    let hll = riemann::axial_hll(n.flux_mode);
    let p = choose|p: Scalar| #[trigger]
        riemann::is_fluid_flux(m, s, sol, fg, hll, n, gamma, f, p);
    riemann::law_supersonic_flow_is_upwind(m, s, sol, fg, hll, n, gamma, f, p);
}

/// The same across the axis: where all waves of a fluid cell and of its fluid neighbours
/// below and above run outwards, what comes in through the lower face is the exact flux
/// of the cell below and what goes out through the upper one is the cell's own, with the
/// two momenta in their own places.
pub proof fn law_supersonic_columns_march<M: SweepMath>(
    m: &M,
    g: &Grid,
    w: Seq<Prim>,
    solid: Seq<bool>,
    mask: Seq<bool>,
    n: Numerics,
    gamma: Scalar,
    rg: Seq<FaceGeom>,
    rows: Seq<Vec<Cons>>,
    before: Seq<Cons>,
    after: Seq<Cons>,
    iz: int,
    ir: int,
) -> (r: (Cons, Cons, Scalar))
    requires
        g.wf(),
        swept_r(m, g, w, solid, mask, n, gamma, rg, rows, before, after),
        g.inside(iz, ir),
        n.geometry == Geometry::Planar,
        n.reconstruction == crate::field::Reconstruction::FirstOrder,
        !solid[g.pad(iz, ir - 1)] && !solid[g.pad(iz, ir)] && !solid[g.pad(iz, ir + 1)],
        forall|q: Prim, x: Scalar| #[trigger]
            call_ensures(M::slowest_wave, (m, q, gamma), x) && (exists|j: int|
                ir - 1 <= j <= ir + 1 && q.rho == (#[trigger] w[g.pad(iz, j)]).rho && q.uz
                    == w[g.pad(iz, j)].ur && q.ur == w[g.pad(iz, j)].uz && q.p == w[g.pad(
                    iz,
                    j,
                )].p) ==> (Scalar { bits: ZERO }).at_most(x),
    ensures
        ({
            let below = w[g.pad(iz, ir - 1)];
            let here = w[g.pad(iz, ir)];
            let (lo, hi, inverse) = r;
            &&& call_ensures(
                M::analytic_flux,
                (m, Prim { rho: below.rho, uz: below.ur, ur: below.uz, p: below.p }, gamma),
                Cons { rho: lo.rho, mz: lo.mr, mr: lo.mz, e: lo.e },
            )
            &&& call_ensures(
                M::analytic_flux,
                (m, Prim { rho: here.rho, uz: here.ur, ur: here.uz, p: here.p }, gamma),
                Cons { rho: hi.rho, mz: hi.mr, mr: hi.mz, e: hi.e },
            )
            &&& call_ensures(M::inverse, (m, g.r.width[ir + 2]), inverse)
            &&& call_ensures(
                M::planar_balance,
                (m, before[g.pad(iz, ir)], lo, hi, inverse),
                after[g.pad(iz, ir)],
            )
        }),
{
    let (lo, p_lo, hi, p_hi, rr) = law_radial_cells_balance_their_faces(
        m,
        g,
        w,
        solid,
        mask,
        n,
        gamma,
        rg,
        rows,
        before,
        after,
        iz,
        ir,
    );
    let a = w[g.pad(iz, ir - 1)];
    let b = w[g.pad(iz, ir)];
    let c = w[g.pad(iz, ir + 1)];
    let s1 = radial_four(g, w, iz, ir - 1);
    let s2 = radial_four(g, w, iz, ir);
    let t1 = Four {
        a: s1.a.rotated(),
        b: s1.b.rotated(),
        c: s1.c.rotated(),
        d: s1.d.rotated(),
    };
    let t2 = Four {
        a: s2.a.rotated(),
        b: s2.b.rotated(),
        c: s2.c.rotated(),
        d: s2.d.rotated(),
    };
    assert(t1.b.rho == a.rho && t1.c.rho == b.rho && t2.b.rho == b.rho && t2.c.rho == c.rho);
    let m1 = face_masked(g, mask, iz, ir - 1);
    let m2 = face_masked(g, mask, iz, ir);
    let hll = riemann::radial_hll(n.flux_mode);
    riemann::law_supersonic_flow_is_upwind(
        m,
        t1,
        radial_four(g, solid, iz, ir - 1),
        rg[ir],
        hll || m1,
        n,
        gamma,
        lo.rotated(),
        p_lo,
    );
    riemann::law_supersonic_flow_is_upwind(
        m,
        t2,
        radial_four(g, solid, iz, ir),
        rg[ir + 1],
        hll || m2,
        n,
        gamma,
        hi.rotated(),
        p_hi,
    );
    (lo, hi, rr.inverse)
}

/// Which faces go without contact resolution: axial ones in one mode alone, radial ones
/// also in the mode for them and wherever a mask asks for it. At first order the flux
/// between two subsonic fluid cells is then that of the average state.
pub proof fn law_modes_choose_the_flux<M: SweepMath>(
    m: &M,
    w: Four<Prim>,
    solid: Four<bool>,
    masked: bool,
    fg: FaceGeom,
    n: Numerics,
    gamma: Scalar,
    fz: Cons,
    fr: Cons,
    p: Scalar,
)
    requires
        !solid.b && !solid.c,
        n.reconstruction == crate::field::Reconstruction::FirstOrder,
        is_axial_flux(m, w, solid, fg, n, gamma, fz),
        is_radial_flux(m, w, solid, masked, fg, n, gamma, fr, p),
        !w.b.rho.equals(w.c.rho),
    ensures
        n.flux_mode == FluxMode::Hll ==> exists|sl: Scalar, sr: Scalar, pz: Scalar| #[trigger]
            riemann::is_hll(m, w.b, w.c, gamma, sl, sr, fz, pz),
        n.flux_mode != FluxMode::Hll ==> exists|
            sl: Scalar,
            sr: Scalar,
            contact: Scalar,
            pz: Scalar,
        | #[trigger]
            riemann::is_hllc(m, w.b, w.c, gamma, sl, sr, contact, fz, pz),
        n.flux_mode == FluxMode::Hll || n.flux_mode == FluxMode::HllRadial || masked ==> exists|
            sl: Scalar,
            sr: Scalar,
        | #[trigger]
            riemann::is_hll(
                m,
                Prim { rho: w.b.rho, uz: w.b.ur, ur: w.b.uz, p: w.b.p },
                Prim { rho: w.c.rho, uz: w.c.ur, ur: w.c.uz, p: w.c.p },
                gamma,
                sl,
                sr,
                Cons { rho: fr.rho, mz: fr.mr, mr: fr.mz, e: fr.e },
                p,
            ),
        n.flux_mode == FluxMode::Hllc && !masked ==> exists|
            sl: Scalar,
            sr: Scalar,
            contact: Scalar,
        | #[trigger]
            riemann::is_hllc(
                m,
                Prim { rho: w.b.rho, uz: w.b.ur, ur: w.b.uz, p: w.b.p },
                Prim { rho: w.c.rho, uz: w.c.ur, ur: w.c.uz, p: w.c.p },
                gamma,
                sl,
                sr,
                contact,
                Cons { rho: fr.rho, mz: fr.mr, mr: fr.mz, e: fr.e },
                p,
            ),
{
}

} // verus!
