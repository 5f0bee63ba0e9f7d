//! Surface pressure integrals over immersed bodies.
//!
//! The force on a body is the sum, over its faces with the fluid, of the wall
//! momentum flux that the sweeps take from the fluid there.

use vstd::prelude::*;
use crate::field::{GasModel, Geometry, Numerics, SolidField, WallMode};
use crate::flow;
use crate::flow::{wall_flux_r, wall_flux_z, Cons, FlowMath, Prim, Side};
use crate::grid;
use crate::grid::{Grid, GridMath};
use crate::riemann::{FaceGeom, Four};
use crate::scalar::{Scalar, ZERO};
use crate::sweep;
use crate::sweep::SweepMath;

verus! {

/// The floating-point formulas of the force sums.
pub trait ForceMath: FlowMath + GridMath {
    /// Area of a ring of this width at a radius.
    fn ring_area(&self, r: Scalar, width: Scalar) -> Scalar;

    /// `sum` plus `push` times `area`.
    fn add_push(&self, sum: Scalar, push: Scalar, area: Scalar) -> Scalar;

    /// `sum` plus `area`.
    fn add_area(&self, sum: Scalar, area: Scalar) -> Scalar;
}

/// Pressure force on a set of solid cells, the area it acts on and the number of
/// faces.
#[derive(Debug, Clone, Copy, PartialEq)]
pub struct SurfaceForce {
    pub f_z: Scalar,
    pub f_r: Scalar,
    pub area: Scalar,
    pub faces: usize,
}

impl Default for SurfaceForce {
    fn default() -> (r: SurfaceForce)
        ensures
            r == nothing(),
    {
        let zero = Scalar { bits: ZERO };
        SurfaceForce { f_z: zero, f_r: zero, area: zero, faces: 0 }
    }
}

/// No force on no face.
pub open spec fn nothing() -> SurfaceForce {
    let zero = Scalar { bits: ZERO };
    SurfaceForce { f_z: zero, f_r: zero, area: zero, faces: 0 }
}

/// A face between a fluid and a solid cell. It lies above the cell at (iz, ir):
/// in z when `axial`, else in r. `side` is where the fluid lies.
#[derive(Debug, Clone, Copy, PartialEq, Eq, Structural)]
pub struct WallFace {
    pub axial: bool,
    pub iz: usize,
    pub ir: usize,
    pub fluid: usize,
    pub solid: usize,
    pub side: Side,
}

/// The axial face above (iz, ir), if one of its cells is fluid and the other is
/// a chosen solid cell.
pub open spec fn axial_face(
    field: &SolidField,
    chosen: Seq<bool>,
    iz: int,
    ir: int,
) -> Option<WallFace> {
    wall_face(field, chosen, true, iz, ir, field.grid.at(iz, ir), field.grid.at(iz + 1, ir))
}

/// The radial face above (iz, ir), if one of its cells is fluid and the other is
/// a chosen solid cell.
pub open spec fn radial_face(
    field: &SolidField,
    chosen: Seq<bool>,
    iz: int,
    ir: int,
) -> Option<WallFace> {
    wall_face(field, chosen, false, iz, ir, field.grid.at(iz, ir), field.grid.at(iz, ir + 1))
}

/// The face between two cells, if one is fluid and the other a chosen solid cell.
pub open spec fn wall_face(
    field: &SolidField,
    chosen: Seq<bool>,
    axial: bool,
    iz: int,
    ir: int,
    lo: int,
    hi: int,
) -> Option<WallFace> {
    if field.solid(lo) == field.solid(hi) {
        None
    } else {
        let (fluid, solid, side) = if field.solid(hi) {
            (lo, hi, Side::Low)
        } else {
            (hi, lo, Side::High)
        };
        if chosen[solid] {
            Some(
                WallFace {
                    axial,
                    iz: iz as usize,
                    ir: ir as usize,
                    fluid: fluid as usize,
                    solid: solid as usize,
                    side,
                },
            )
        } else {
            None
        }
    }
}

/// The list with an item appended, if there is one.
pub open spec fn with(list: Seq<WallFace>, item: Option<WallFace>) -> Seq<WallFace> {
    match item {
        Some(f) => list.push(f),
        None => list,
    }
}

/// The axial faces in row-major order: all rows below `ir`, and the first `iz`
/// of row `ir`.
pub open spec fn axial_faces(
    field: &SolidField,
    chosen: Seq<bool>,
    ir: int,
    iz: int,
) -> Seq<WallFace>
    decreases ir, iz,
{
    if iz > 0 {
        with(axial_faces(field, chosen, ir, iz - 1), axial_face(field, chosen, iz - 1, ir))
    } else if ir > 0 {
        axial_faces(field, chosen, ir - 1, field.grid.nz - 1)
    } else {
        Seq::empty()
    }
}

/// `list` followed by the radial faces in row-major order: all rows below `ir`,
/// and the first `iz` of row `ir`.
pub open spec fn radial_faces(
    field: &SolidField,
    chosen: Seq<bool>,
    list: Seq<WallFace>,
    ir: int,
    iz: int,
) -> Seq<WallFace>
    decreases ir, iz,
{
    if iz > 0 {
        with(
            radial_faces(field, chosen, list, ir, iz - 1),
            radial_face(field, chosen, iz - 1, ir),
        )
    } else if ir > 0 {
        radial_faces(field, chosen, list, ir - 1, field.grid.nz as int)
    } else {
        list
    }
}

/// All faces between the fluid and the chosen solid cells: the axial ones, then
/// the radial ones. Faces on the edge of the domain are none of them.
pub open spec fn wall_faces(field: &SolidField, chosen: Seq<bool>) -> Seq<WallFace> {
    radial_faces(
        field,
        chosen,
        axial_faces(field, chosen, field.grid.nr as int, 0),
        field.grid.nr - 1,
        0,
    )
}

/// The face lies on the grid and its fluid cell is an interior cell.
pub open spec fn on_grid(g: &Grid, f: WallFace) -> bool {
    &&& g.inside(f.iz as int, f.ir as int)
    &&& !f.axial ==> f.ir + 1 < g.nr
    &&& f.fluid < g.cells()
    &&& f.solid < g.cells()
}

fn find_face(
    field: &SolidField,
    chosen: &Vec<bool>,
    axial: bool,
    iz: usize,
    ir: usize,
) -> (r: Option<WallFace>)
    requires
        field.wf(),
        chosen.len() == field.grid.cells(),
        field.grid.inside(iz as int, ir as int),
        axial ==> iz + 1 < field.grid.nz,
        !axial ==> ir + 1 < field.grid.nr,
    ensures
        r == (if axial {
            axial_face(field, chosen@, iz as int, ir as int)
        } else {
            radial_face(field, chosen@, iz as int, ir as int)
        }),
        r matches Some(f) ==> on_grid(&field.grid, f) && f.axial == axial,
{
    let g = &field.grid;
    let lo: usize = g.idx(iz, ir);
    let hi: usize = if axial {
        g.idx(iz + 1, ir)
    } else {
        g.idx(iz, ir + 1)
    };
    let ls = field.is_solid(lo);
    let hs = field.is_solid(hi);
    if ls == hs {
        return None;
    }
    let (fluid, solid, side) = if hs {
        (lo, hi, Side::Low)
    } else {
        (hi, lo, Side::High)
    };
    if chosen[solid] {
        Some(WallFace { axial, iz, ir, fluid, solid, side })
    } else {
        None
    }
}

/// Lists the faces between the fluid and the chosen solid cells.
pub fn list_wall_faces(field: &SolidField, chosen: &Vec<bool>) -> (list: Vec<WallFace>)
    requires
        field.wf(),
        chosen.len() == field.grid.cells(),
    ensures
        list@ == wall_faces(field, chosen@),
        forall|i: int| 0 <= i < list.len() ==> on_grid(&field.grid, #[trigger] list[i]),
{
    let g = &field.grid;
    let mut list: Vec<WallFace> = Vec::new();
    let mut ir: usize = 0;
    while ir < g.nr
        invariant
            field.wf(),
            g == &field.grid,
            chosen.len() == g.cells(),
            ir <= g.nr,
            list@ == axial_faces(field, chosen@, ir as int, 0),
            forall|i: int| 0 <= i < list.len() ==> on_grid(g, #[trigger] list[i]),
        decreases g.nr - ir,
    {
        let mut iz: usize = 0;
        while iz + 1 < g.nz
            invariant
                field.wf(),
                g == &field.grid,
                chosen.len() == g.cells(),
                ir < g.nr,
                iz + 1 <= g.nz,
                list@ == axial_faces(field, chosen@, ir as int, iz as int),
                forall|i: int| 0 <= i < list.len() ==> on_grid(g, #[trigger] list[i]),
            decreases g.nz - iz,
        {
            match find_face(field, chosen, true, iz, ir) {
                Some(f) => {
                    list.push(f);
                },
                None => {},
            }
            iz = iz + 1;
        }
        ir = ir + 1;
    }
    let ghost axial = list@;
    ir = 0;
    while ir + 1 < g.nr
        invariant
            field.wf(),
            g == &field.grid,
            chosen.len() == g.cells(),
            ir + 1 <= g.nr,
            axial == axial_faces(field, chosen@, g.nr as int, 0),
            list@ == radial_faces(field, chosen@, axial, ir as int, 0),
            forall|i: int| 0 <= i < list.len() ==> on_grid(g, #[trigger] list[i]),
        decreases g.nr - ir,
    {
        let mut iz: usize = 0;
        while iz < g.nz
            invariant
                field.wf(),
                g == &field.grid,
                chosen.len() == g.cells(),
                ir + 1 < g.nr,
                iz <= g.nz,
                list@ == radial_faces(field, chosen@, axial, ir as int, iz as int),
                forall|i: int| 0 <= i < list.len() ==> on_grid(g, #[trigger] list[i]),
            decreases g.nz - iz,
        {
            match find_face(field, chosen, false, iz, ir) {
                Some(f) => {
                    list.push(f);
                },
                None => {},
            }
            iz = iz + 1;
        }
        ir = ir + 1;
    }
    list
}

/// `da` is the area of a face of this width at a radius: a ring, or a strip of unit
/// depth.
pub open spec fn is_area_at<M: ForceMath>(
    m: &M,
    geometry: Geometry,
    r: Scalar,
    width: Scalar,
    da: Scalar,
) -> bool {
    match geometry {
        Geometry::Axisymmetric => call_ensures(M::ring_area, (m, r, width), da),
        Geometry::Planar => da == width,
    }
}

fn area_at<M: ForceMath>(m: &M, geometry: Geometry, r: Scalar, width: Scalar) -> (da: Scalar)
    ensures
        is_area_at(m, geometry, r, width, da),
{
    match geometry {
        Geometry::Axisymmetric => m.ring_area(r, width),
        Geometry::Planar => width,
    }
}

/// `da` is the area of a face: at the centre of its row, or at its own radius.
pub open spec fn is_area<M: ForceMath>(
    m: &M,
    g: &Grid,
    geometry: Geometry,
    f: WallFace,
    da: Scalar,
) -> bool {
    if f.axial {
        is_area_at(m, geometry, g.r.centre[f.ir + 2], g.r.width[f.ir + 2], da)
    } else {
        exists|r: Scalar| #[trigger]
            call_ensures(M::narrow, (m, g.r_edges[f.ir + 1]), r) && is_area_at(
                m,
                geometry,
                r,
                g.z.width[f.iz + 2],
                da,
            )
    }
}

/// `flux` is what the wall at a face takes from the fluid.
pub open spec fn is_push<M: ForceMath>(
    m: &M,
    w: Seq<Prim>,
    gamma: Scalar,
    f: WallFace,
    flux: Cons,
) -> bool {
    if f.axial {
        flow::is_wall_flux_z(m, w[f.fluid as int], f.side, gamma, flux)
    } else {
        flow::is_wall_flux_r(m, w[f.fluid as int], f.side, gamma, flux)
    }
}

/// A face of area `da` at which the wall takes `flux` takes the sums from `a` to `b`:
/// an axial face pushes in z, a radial one in r.
pub open spec fn adds<M: ForceMath>(
    m: &M,
    f: WallFace,
    a: SurfaceForce,
    da: Scalar,
    flux: Cons,
    b: SurfaceForce,
) -> bool {
    &&& call_ensures(M::add_area, (m, a.area, da), b.area)
    &&& b.faces == a.faces + 1
    &&& if f.axial {
        &&& call_ensures(M::add_push, (m, a.f_z, flux.mz, da), b.f_z)
        &&& b.f_r == a.f_r
    } else {
        &&& call_ensures(M::add_push, (m, a.f_r, flux.mr, da), b.f_r)
        &&& b.f_z == a.f_z
    }
}

/// One face takes the sums from `a` to `b`.
pub open spec fn adds_face<M: ForceMath>(
    m: &M,
    g: &Grid,
    w: Seq<Prim>,
    gamma: Scalar,
    geometry: Geometry,
    f: WallFace,
    a: SurfaceForce,
    b: SurfaceForce,
) -> bool {
    exists|da: Scalar, flux: Cons|
        {
            &&& #[trigger] is_area(m, g, geometry, f, da)
            &&& #[trigger] is_push(m, w, gamma, f, flux)
            &&& adds(m, f, a, da, flux, b)
        }
}

/// `sum` is the force over the first `n` faces.
pub open spec fn is_force<M: ForceMath>(
    m: &M,
    g: &Grid,
    w: Seq<Prim>,
    gamma: Scalar,
    geometry: Geometry,
    faces: Seq<WallFace>,
    n: int,
    sum: SurfaceForce,
) -> bool
    decreases n,
{
    if n <= 0 {
        sum == nothing()
    } else {
        exists|rest: SurfaceForce| #[trigger]
            adds_face(m, g, w, gamma, geometry, faces[n - 1], rest, sum) && is_force(
                m,
                g,
                w,
                gamma,
                geometry,
                faces,
                n - 1,
                rest,
            )
    }
}

/// `chosen` holds what the predicate answers for every solid cell.
pub open spec fn is_choice<F: Fn(usize) -> bool>(
    field: &SolidField,
    body: F,
    chosen: Seq<bool>,
) -> bool {
    &&& chosen.len() == field.grid.cells()
    &&& forall|k: int|
        0 <= k < chosen.len() && field.solid(k) ==> call_ensures(
            body,
            (k as usize,),
            #[trigger] chosen[k],
        )
}

fn choose_cells<F: Fn(usize) -> bool>(field: &SolidField, body: F) -> (chosen: Vec<bool>)
    requires
        field.wf(),
        forall|k: usize|
            k < field.grid.cells() && field.solid(k as int) ==> #[trigger] call_requires(body, (k,)),
    ensures
        is_choice(field, body, chosen@),
{
    let n: usize = field.grid.len();
    let mut chosen: Vec<bool> = Vec::new();
    let mut k: usize = 0;
    while k < n
        invariant
            field.wf(),
            n == field.grid.cells(),
            forall|k: usize|
                k < field.grid.cells() && field.solid(k as int) ==> #[trigger] call_requires(
                    body,
                    (k,),
                ),
            k <= n,
            chosen.len() == k,
            forall|j: int|
                0 <= j < k && field.solid(j) ==> call_ensures(
                    body,
                    (j as usize,),
                    #[trigger] chosen[j],
                ),
        decreases n - k,
    {
        if field.is_solid(k) {
            chosen.push(body(k));
        } else {
            chosen.push(false);
        }
        k = k + 1;
    }
    chosen
}

/// `out` is the force on the chosen solid cells.
pub open spec fn is_force_on<M: ForceMath>(
    m: &M,
    w: Seq<Prim>,
    field: &SolidField,
    gamma: Scalar,
    geometry: Geometry,
    chosen: Seq<bool>,
    out: SurfaceForce,
) -> bool {
    let faces = wall_faces(field, chosen);
    &&& is_force(m, &field.grid, w, gamma, geometry, faces, faces.len() as int, out)
    &&& out.faces == faces.len()
}

/// `out` is the force on the solid cells that `body` selects.
pub open spec fn is_surface_force<M: ForceMath, F: Fn(usize) -> bool>(
    m: &M,
    w: Seq<Prim>,
    field: &SolidField,
    gamma: Scalar,
    geometry: Geometry,
    body: F,
    out: SurfaceForce,
) -> bool {
    exists|chosen: Seq<bool>| #[trigger]
        is_choice(field, body, chosen) && is_force_on(m, w, field, gamma, geometry, chosen, out)
}

/// Pressure force on the solid cells that `body` selects, over their faces with
/// the fluid. `w` holds the primitives of the interior cells.
pub fn surface_pressure_force<M: ForceMath, F: Fn(usize) -> bool>(
    m: &M,
    w: &Vec<Prim>,
    solid: &SolidField,
    gas: GasModel,
    geometry: Geometry,
    body: F,
) -> (out: SurfaceForce)
    requires
        solid.wf(),
        w.len() == solid.grid.cells(),
        forall|k: usize|
            k < solid.grid.cells() && solid.solid(k as int) ==> #[trigger] call_requires(
                body,
                (k,),
            ),
    ensures
        is_surface_force(m, w@, solid, gas.gamma, geometry, body, out),
{
    let g = &solid.grid;
    let chosen = choose_cells(solid, body);
    let list = list_wall_faces(solid, &chosen);
    let mut out = SurfaceForce::default();
    let mut i: usize = 0;
    while i < list.len()
        invariant
            solid.wf(),
            g == &solid.grid,
            w.len() == g.cells(),
            forall|j: int| 0 <= j < list.len() ==> on_grid(g, #[trigger] list[j]),
            i <= list.len(),
            out.faces == i,
            is_force(m, g, w@, gas.gamma, geometry, list@, i as int, out),
        decreases list.len() - i,
    {
        let f = list[i];
        let ghost rest = out;
        assert(on_grid(g, list@[i as int]));
        if f.axial {
            let da = area_at(m, geometry, g.r_center(f.ir), g.dr(f.ir));
            let flux = wall_flux_z(m, w[f.fluid], f.side, gas.gamma);
            assert(is_area(m, g, geometry, f, da));
            out = SurfaceForce {
                f_z: m.add_push(out.f_z, flux.mz, da),
                f_r: out.f_r,
                area: m.add_area(out.area, da),
                faces: out.faces + 1,
            };
            assert(is_push(m, w@, gas.gamma, f, flux));
        } else {
            let r = g.r_face(m, f.ir + 1);
            let da = area_at(m, geometry, r, g.dz(f.iz));
            let flux = wall_flux_r(m, w[f.fluid], f.side, gas.gamma);
            assert(is_area(m, g, geometry, f, da));
            out = SurfaceForce {
                f_z: out.f_z,
                f_r: m.add_push(out.f_r, flux.mr, da),
                area: m.add_area(out.area, da),
                faces: out.faces + 1,
            };
            assert(is_push(m, w@, gas.gamma, f, flux));
        }
        i = i + 1;
        assert(adds_face(m, g, w@, gas.gamma, geometry, list@[i - 1], rest, out));
    }
    out
}

/// A selection with no solid cell in it has no face.
pub proof fn law_empty_selection_has_no_face(field: &SolidField, chosen: Seq<bool>)
    requires
        field.wf(),
        chosen.len() == field.grid.cells(),
        forall|k: int| 0 <= k < chosen.len() && field.solid(k) ==> !#[trigger] chosen[k],
    ensures
        wall_faces(field, chosen).len() == 0,
{
    lemma_axial_none(field, chosen, field.grid.nr as int, 0);
    lemma_radial_none(
        field,
        chosen,
        axial_faces(field, chosen, field.grid.nr as int, 0),
        field.grid.nr - 1,
        0,
    );
}

proof fn lemma_axial_none(field: &SolidField, chosen: Seq<bool>, ir: int, iz: int)
    requires
        field.wf(),
        chosen.len() == field.grid.cells(),
        forall|k: int| 0 <= k < chosen.len() && field.solid(k) ==> !#[trigger] chosen[k],
        0 <= ir <= field.grid.nr,
        0 <= iz < field.grid.nz,
        iz > 0 ==> ir < field.grid.nr,
    ensures
        axial_faces(field, chosen, ir, iz).len() == 0,
    decreases ir, iz,
{
    let g = &field.grid;
    if iz > 0 {
        lemma_axial_none(field, chosen, ir, iz - 1);
        grid::law_interior_layout(g.nz as int, g.nr as int, iz - 1, ir);
        grid::law_interior_layout(g.nz as int, g.nr as int, iz, ir);
    } else if ir > 0 {
        lemma_axial_none(field, chosen, ir - 1, g.nz - 1);
    }
}

proof fn lemma_radial_none(
    field: &SolidField,
    chosen: Seq<bool>,
    list: Seq<WallFace>,
    ir: int,
    iz: int,
)
    requires
        field.wf(),
        chosen.len() == field.grid.cells(),
        forall|k: int| 0 <= k < chosen.len() && field.solid(k) ==> !#[trigger] chosen[k],
        list.len() == 0,
        0 <= ir < field.grid.nr,
        0 <= iz <= field.grid.nz,
        iz > 0 ==> ir + 1 < field.grid.nr,
    ensures
        radial_faces(field, chosen, list, ir, iz).len() == 0,
    decreases ir, iz,
{
    let g = &field.grid;
    if iz > 0 {
        lemma_radial_none(field, chosen, list, ir, iz - 1);
        grid::law_interior_layout(g.nz as int, g.nr as int, iz - 1, ir);
        grid::law_interior_layout(g.nz as int, g.nr as int, iz - 1, ir + 1);
    } else if ir > 0 {
        lemma_radial_none(field, chosen, list, ir - 1, g.nz as int);
    }
}

/// Every face of a list takes its state from a fluid cell.
spec fn from_fluid(field: &SolidField, faces: Seq<WallFace>) -> bool {
    forall|i: int|
        0 <= i < faces.len() ==> (#[trigger] faces[i]).fluid < field.grid.cells() && !field.solid(
            faces[i].fluid as int,
        )
}

proof fn lemma_face_is_from_fluid(
    field: &SolidField,
    chosen: Seq<bool>,
    axial: bool,
    iz: int,
    ir: int,
    lo: int,
    hi: int,
    list: Seq<WallFace>,
)
    requires
        field.wf(),
        0 <= lo < field.grid.cells(),
        0 <= hi < field.grid.cells(),
        from_fluid(field, list),
    ensures
        from_fluid(field, with(list, wall_face(field, chosen, axial, iz, ir, lo, hi))),
{
    grid::lemma_products_fit(field.grid.nz as int, field.grid.nr as int);
    let longer = with(list, wall_face(field, chosen, axial, iz, ir, lo, hi));
    assert forall|i: int| 0 <= i < longer.len() implies (#[trigger] longer[i]).fluid
        < field.grid.cells() && !field.solid(longer[i].fluid as int) by {
        if i < list.len() {
            assert(longer[i] == list[i]);
        }
    }
}

proof fn lemma_axial_from_fluid(field: &SolidField, chosen: Seq<bool>, ir: int, iz: int)
    requires
        field.wf(),
        0 <= ir <= field.grid.nr,
        0 <= iz < field.grid.nz,
        iz > 0 ==> ir < field.grid.nr,
    ensures
        from_fluid(field, axial_faces(field, chosen, ir, iz)),
    decreases ir, iz,
{
    let g = &field.grid;
    if iz > 0 {
        lemma_axial_from_fluid(field, chosen, ir, iz - 1);
        grid::law_interior_layout(g.nz as int, g.nr as int, iz - 1, ir);
        grid::law_interior_layout(g.nz as int, g.nr as int, iz, ir);
        lemma_face_is_from_fluid(
            field,
            chosen,
            true,
            iz - 1,
            ir,
            g.at(iz - 1, ir),
            g.at(iz, ir),
            axial_faces(field, chosen, ir, iz - 1),
        );
    } else if ir > 0 {
        lemma_axial_from_fluid(field, chosen, ir - 1, g.nz - 1);
    }
}

proof fn lemma_radial_from_fluid(
    field: &SolidField,
    chosen: Seq<bool>,
    list: Seq<WallFace>,
    ir: int,
    iz: int,
)
    requires
        field.wf(),
        from_fluid(field, list),
        0 <= ir < field.grid.nr,
        0 <= iz <= field.grid.nz,
        iz > 0 ==> ir + 1 < field.grid.nr,
    ensures
        from_fluid(field, radial_faces(field, chosen, list, ir, iz)),
    decreases ir, iz,
{
    let g = &field.grid;
    if iz > 0 {
        lemma_radial_from_fluid(field, chosen, list, ir, iz - 1);
        grid::law_interior_layout(g.nz as int, g.nr as int, iz - 1, ir);
        grid::law_interior_layout(g.nz as int, g.nr as int, iz - 1, ir + 1);
        lemma_face_is_from_fluid(
            field,
            chosen,
            false,
            iz - 1,
            ir,
            g.at(iz - 1, ir),
            g.at(iz - 1, ir + 1),
            radial_faces(field, chosen, list, ir, iz - 1),
        );
    } else if ir > 0 {
        lemma_radial_from_fluid(field, chosen, list, ir - 1, g.nz as int);
    }
}

/// The formulas of the force sums are functions: the same values give the same result.
pub open spec fn are_functions<M: ForceMath>(m: &M) -> bool {
    &&& forall|rho: Scalar, u: Scalar, p: Scalar, gamma: Scalar, x: Scalar, y: Scalar|
        {
            &&& #[trigger] call_ensures(M::wall_pressure, (m, rho, u, p, gamma), x)
            &&& #[trigger] call_ensures(M::wall_pressure, (m, rho, u, p, gamma), y)
        } ==> x == y
    &&& forall|r: Scalar, x: Scalar, y: Scalar|
        {
            &&& #[trigger] call_ensures(M::narrow, (m, r), x)
            &&& #[trigger] call_ensures(M::narrow, (m, r), y)
        } ==> x == y
    &&& forall|r: Scalar, width: Scalar, x: Scalar, y: Scalar|
        {
            &&& #[trigger] call_ensures(M::ring_area, (m, r, width), x)
            &&& #[trigger] call_ensures(M::ring_area, (m, r, width), y)
        } ==> x == y
    &&& forall|sum: Scalar, push: Scalar, area: Scalar, x: Scalar, y: Scalar|
        {
            &&& #[trigger] call_ensures(M::add_push, (m, sum, push, area), x)
            &&& #[trigger] call_ensures(M::add_push, (m, sum, push, area), y)
        } ==> x == y
    &&& forall|sum: Scalar, area: Scalar, x: Scalar, y: Scalar|
        {
            &&& #[trigger] call_ensures(M::add_area, (m, sum, area), x)
            &&& #[trigger] call_ensures(M::add_area, (m, sum, area), y)
        } ==> x == y
}

proof fn lemma_one_area<M: ForceMath>(
    m: &M,
    g: &Grid,
    geometry: Geometry,
    f: WallFace,
    a: Scalar,
    b: Scalar,
)
    requires
        are_functions(m),
        is_area(m, g, geometry, f, a),
        is_area(m, g, geometry, f, b),
    ensures
        a == b,
{
    if !f.axial {
        let edge = g.r_edges[f.ir + 1];
        let width = g.z.width[f.iz + 2];
        let r1 = choose|r: Scalar| #[trigger]
            call_ensures(M::narrow, (m, edge), r) && is_area_at(m, geometry, r, width, a);
        let r2 = choose|r: Scalar| #[trigger]
            call_ensures(M::narrow, (m, edge), r) && is_area_at(m, geometry, r, width, b);
        assert(r1 == r2);
    }
}

/// The sums after a face depend on the sums before it and on the state of its fluid
/// cell alone.
proof fn lemma_one_sum<M: ForceMath>(
    m: &M,
    g: &Grid,
    w1: Seq<Prim>,
    w2: Seq<Prim>,
    gamma: Scalar,
    geometry: Geometry,
    f: WallFace,
    before: SurfaceForce,
    a: SurfaceForce,
    b: SurfaceForce,
)
    requires
        are_functions(m),
        w1[f.fluid as int] == w2[f.fluid as int],
        adds_face(m, g, w1, gamma, geometry, f, before, a),
        adds_face(m, g, w2, gamma, geometry, f, before, b),
    ensures
        a == b,
{
    let (da1, flux1) = choose|da: Scalar, flux: Cons|
        {
            &&& #[trigger] is_area(m, g, geometry, f, da)
            &&& #[trigger] is_push(m, w1, gamma, f, flux)
            &&& adds(m, f, before, da, flux, a)
        };
    let (da2, flux2) = choose|da: Scalar, flux: Cons|
        {
            &&& #[trigger] is_area(m, g, geometry, f, da)
            &&& #[trigger] is_push(m, w2, gamma, f, flux)
            &&& adds(m, f, before, da, flux, b)
        };
    lemma_one_area(m, g, geometry, f, da1, da2);
    assert(flux1 == flux2);
}

proof fn lemma_one_force<M: ForceMath>(
    m: &M,
    field: &SolidField,
    w1: Seq<Prim>,
    w2: Seq<Prim>,
    gamma: Scalar,
    geometry: Geometry,
    faces: Seq<WallFace>,
    n: int,
    a: SurfaceForce,
    b: SurfaceForce,
)
    requires
        are_functions(m),
        from_fluid(field, faces),
        forall|k: int|
            0 <= k < field.grid.cells() && !field.solid(k) ==> #[trigger] w1[k] == w2[k],
        0 <= n <= faces.len(),
        is_force(m, &field.grid, w1, gamma, geometry, faces, n, a),
        is_force(m, &field.grid, w2, gamma, geometry, faces, n, b),
    ensures
        a == b,
    decreases n,
{
    if n > 0 {
        let g = &field.grid;
        let f = faces[n - 1];
        let rest1 = choose|rest: SurfaceForce| #[trigger]
            adds_face(m, g, w1, gamma, geometry, f, rest, a) && is_force(
                m,
                g,
                w1,
                gamma,
                geometry,
                faces,
                n - 1,
                rest,
            );
        let rest2 = choose|rest: SurfaceForce| #[trigger]
            adds_face(m, g, w2, gamma, geometry, f, rest, b) && is_force(
                m,
                g,
                w2,
                gamma,
                geometry,
                faces,
                n - 1,
                rest,
            );
        lemma_one_force(m, field, w1, w2, gamma, geometry, faces, n - 1, rest1, rest2);
        assert(w1[f.fluid as int] == w2[f.fluid as int]);
        lemma_one_sum(m, g, w1, w2, gamma, geometry, f, rest1, a, b);
    }
}

proof fn lemma_axial_by_solid(
    field: &SolidField,
    one: Seq<bool>,
    other: Seq<bool>,
    ir: int,
    iz: int,
)
    requires
        field.wf(),
        forall|k: int|
            0 <= k < field.grid.cells() && #[trigger] field.solid(k) ==> one[k] == other[k],
        0 <= ir <= field.grid.nr,
        0 <= iz < field.grid.nz,
        iz > 0 ==> ir < field.grid.nr,
    ensures
        axial_faces(field, one, ir, iz) == axial_faces(field, other, ir, iz),
    decreases ir, iz,
{
    let g = &field.grid;
    if iz > 0 {
        lemma_axial_by_solid(field, one, other, ir, iz - 1);
        grid::law_interior_layout(g.nz as int, g.nr as int, iz - 1, ir);
        grid::law_interior_layout(g.nz as int, g.nr as int, iz, ir);
    } else if ir > 0 {
        lemma_axial_by_solid(field, one, other, ir - 1, g.nz - 1);
    }
}

proof fn lemma_radial_by_solid(
    field: &SolidField,
    one: Seq<bool>,
    other: Seq<bool>,
    list: Seq<WallFace>,
    ir: int,
    iz: int,
)
    requires
        field.wf(),
        forall|k: int|
            0 <= k < field.grid.cells() && #[trigger] field.solid(k) ==> one[k] == other[k],
        0 <= ir < field.grid.nr,
        0 <= iz <= field.grid.nz,
        iz > 0 ==> ir + 1 < field.grid.nr,
    ensures
        radial_faces(field, one, list, ir, iz) == radial_faces(field, other, list, ir, iz),
    decreases ir, iz,
{
    let g = &field.grid;
    if iz > 0 {
        lemma_radial_by_solid(field, one, other, list, ir, iz - 1);
        grid::law_interior_layout(g.nz as int, g.nr as int, iz - 1, ir);
        grid::law_interior_layout(g.nz as int, g.nr as int, iz - 1, ir + 1);
    } else if ir > 0 {
        lemma_radial_by_solid(field, one, other, list, ir - 1, g.nz as int);
    }
}

/// The entries of solid cells are never read: where the formulas and the predicate are
/// functions, the forces on one selection in two fields that agree on the fluid cells
/// are equal.
pub proof fn law_force_reads_fluid_only<M: ForceMath, F: Fn(usize) -> bool>(
    m: &M,
    w1: Seq<Prim>,
    w2: Seq<Prim>,
    field: &SolidField,
    gamma: Scalar,
    geometry: Geometry,
    body: F,
    a: SurfaceForce,
    b: SurfaceForce,
)
    requires
        are_functions(m),
        field.wf(),
        forall|k: int|
            0 <= k < field.grid.cells() && !field.solid(k) ==> #[trigger] w1[k] == w2[k],
        forall|k: usize, x: bool, y: bool|
            {
                &&& #[trigger] call_ensures(body, (k,), x)
                &&& #[trigger] call_ensures(body, (k,), y)
            } ==> x == y,
        is_surface_force(m, w1, field, gamma, geometry, body, a),
        is_surface_force(m, w2, field, gamma, geometry, body, b),
    ensures
        a == b,
{
    let c1 = choose|chosen: Seq<bool>| #[trigger]
        is_choice(field, body, chosen) && is_force_on(m, w1, field, gamma, geometry, chosen, a);
    let c2 = choose|chosen: Seq<bool>| #[trigger]
        is_choice(field, body, chosen) && is_force_on(m, w2, field, gamma, geometry, chosen, b);
    let g = &field.grid;
    assert forall|k: int| 0 <= k < g.cells() && #[trigger] field.solid(k) implies c1[k]
        == c2[k] by {
        assert(call_ensures(body, (k as usize,), c1[k]));
        assert(call_ensures(body, (k as usize,), c2[k]));
    }
    lemma_axial_by_solid(field, c1, c2, g.nr as int, 0);
    let axial = axial_faces(field, c1, g.nr as int, 0);
    lemma_radial_by_solid(field, c1, c2, axial, g.nr - 1, 0);
    lemma_axial_from_fluid(field, c1, g.nr as int, 0);
    lemma_radial_from_fluid(field, c1, axial, g.nr - 1, 0);
    let faces = wall_faces(field, c1);
    lemma_one_force(m, field, w1, w2, gamma, geometry, faces, faces.len() as int, a, b);
}

/// Two selections that have no solid cell in common, and the one of the solid cells of
/// either.
pub open spec fn shared_out(
    field: &SolidField,
    all: Seq<bool>,
    one: Seq<bool>,
    other: Seq<bool>,
) -> bool {
    &&& all.len() == field.grid.cells()
    &&& one.len() == field.grid.cells()
    &&& other.len() == field.grid.cells()
    &&& forall|k: int|
        0 <= k < all.len() && #[trigger] field.solid(k) ==> all[k] == (one[k] || other[k]) && !(
        one[k] && other[k])
}

/// The sum of what the first `n` faces are worth.
spec fn tally(faces: Seq<WallFace>, worth: spec_fn(WallFace) -> int, n: int) -> int
    decreases n,
{
    if n <= 0 {
        0
    } else {
        tally(faces, worth, n - 1) + worth(faces[n - 1])
    }
}

spec fn total(faces: Seq<WallFace>, worth: spec_fn(WallFace) -> int) -> int {
    tally(faces, worth, faces.len() as int)
}

proof fn lemma_tally_prefix(
    faces: Seq<WallFace>,
    f: WallFace,
    worth: spec_fn(WallFace) -> int,
    n: int,
)
    requires
        0 <= n <= faces.len(),
    ensures
        tally(faces.push(f), worth, n) == tally(faces, worth, n),
    decreases n,
{
    if n > 0 {
        lemma_tally_prefix(faces, f, worth, n - 1);
    }
}

/// A face that one of two lists and their union take on keeps the totals in balance.
proof fn lemma_total_of_next(
    field: &SolidField,
    all: Seq<bool>,
    one: Seq<bool>,
    other: Seq<bool>,
    worth: spec_fn(WallFace) -> int,
    axial: bool,
    iz: int,
    ir: int,
    lo: int,
    hi: int,
    l_all: Seq<WallFace>,
    l_one: Seq<WallFace>,
    l_other: Seq<WallFace>,
)
    requires
        shared_out(field, all, one, other),
        0 <= lo < field.grid.cells(),
        0 <= hi < field.grid.cells(),
        total(l_all, worth) == total(l_one, worth) + total(l_other, worth),
    ensures
        total(with(l_all, wall_face(field, all, axial, iz, ir, lo, hi)), worth) == total(
            with(l_one, wall_face(field, one, axial, iz, ir, lo, hi)),
            worth,
        ) + total(with(l_other, wall_face(field, other, axial, iz, ir, lo, hi)), worth),
{
    if field.solid(lo) != field.solid(hi) {
        let solid = if field.solid(hi) {
            hi
        } else {
            lo
        };
        assert(field.solid(solid));
        match wall_face(field, all, axial, iz, ir, lo, hi) {
            Some(f) => {
                lemma_tally_prefix(l_all, f, worth, l_all.len() as int);
                lemma_tally_prefix(l_one, f, worth, l_one.len() as int);
                lemma_tally_prefix(l_other, f, worth, l_other.len() as int);
            },
            None => {},
        }
    }
}

proof fn lemma_axial_totals(
    field: &SolidField,
    all: Seq<bool>,
    one: Seq<bool>,
    other: Seq<bool>,
    worth: spec_fn(WallFace) -> int,
    ir: int,
    iz: int,
)
    requires
        field.wf(),
        shared_out(field, all, one, other),
        0 <= ir <= field.grid.nr,
        0 <= iz < field.grid.nz,
        iz > 0 ==> ir < field.grid.nr,
    ensures
        total(axial_faces(field, all, ir, iz), worth) == total(
            axial_faces(field, one, ir, iz),
            worth,
        ) + total(axial_faces(field, other, ir, iz), worth),
    decreases ir, iz,
{
    let g = &field.grid;
    if iz > 0 {
        lemma_axial_totals(field, all, one, other, worth, ir, iz - 1);
        grid::law_interior_layout(g.nz as int, g.nr as int, iz - 1, ir);
        grid::law_interior_layout(g.nz as int, g.nr as int, iz, ir);
        lemma_total_of_next(
            field,
            all,
            one,
            other,
            worth,
            true,
            iz - 1,
            ir,
            g.at(iz - 1, ir),
            g.at(iz, ir),
            axial_faces(field, all, ir, iz - 1),
            axial_faces(field, one, ir, iz - 1),
            axial_faces(field, other, ir, iz - 1),
        );
    } else if ir > 0 {
        lemma_axial_totals(field, all, one, other, worth, ir - 1, g.nz - 1);
    }
}

proof fn lemma_radial_totals(
    field: &SolidField,
    all: Seq<bool>,
    one: Seq<bool>,
    other: Seq<bool>,
    worth: spec_fn(WallFace) -> int,
    l_all: Seq<WallFace>,
    l_one: Seq<WallFace>,
    l_other: Seq<WallFace>,
    ir: int,
    iz: int,
)
    requires
        field.wf(),
        shared_out(field, all, one, other),
        total(l_all, worth) == total(l_one, worth) + total(l_other, worth),
        0 <= ir < field.grid.nr,
        0 <= iz <= field.grid.nz,
        iz > 0 ==> ir + 1 < field.grid.nr,
    ensures
        total(radial_faces(field, all, l_all, ir, iz), worth) == total(
            radial_faces(field, one, l_one, ir, iz),
            worth,
        ) + total(radial_faces(field, other, l_other, ir, iz), worth),
    decreases ir, iz,
{
    let g = &field.grid;
    if iz > 0 {
        lemma_radial_totals(field, all, one, other, worth, l_all, l_one, l_other, ir, iz - 1);
        grid::law_interior_layout(g.nz as int, g.nr as int, iz - 1, ir);
        grid::law_interior_layout(g.nz as int, g.nr as int, iz - 1, ir + 1);
        lemma_total_of_next(
            field,
            all,
            one,
            other,
            worth,
            false,
            iz - 1,
            ir,
            g.at(iz - 1, ir),
            g.at(iz - 1, ir + 1),
            radial_faces(field, all, l_all, ir, iz - 1),
            radial_faces(field, one, l_one, ir, iz - 1),
            radial_faces(field, other, l_other, ir, iz - 1),
        );
    } else if ir > 0 {
        lemma_radial_totals(
            field,
            all,
            one,
            other,
            worth,
            l_all,
            l_one,
            l_other,
            ir - 1,
            g.nz as int,
        );
    }
}

proof fn lemma_totals(
    field: &SolidField,
    all: Seq<bool>,
    one: Seq<bool>,
    other: Seq<bool>,
    worth: spec_fn(WallFace) -> int,
)
    requires
        field.wf(),
        shared_out(field, all, one, other),
    ensures
        total(wall_faces(field, all), worth) == total(wall_faces(field, one), worth) + total(
            wall_faces(field, other),
            worth,
        ),
{
    let g = &field.grid;
    lemma_axial_totals(field, all, one, other, worth, g.nr as int, 0);
    lemma_radial_totals(
        field,
        all,
        one,
        other,
        worth,
        axial_faces(field, all, g.nr as int, 0),
        axial_faces(field, one, g.nr as int, 0),
        axial_faces(field, other, g.nr as int, 0),
        g.nr - 1,
        0,
    );
}

proof fn lemma_count(faces: Seq<WallFace>, n: int)
    requires
        0 <= n <= faces.len(),
    ensures
        tally(faces, |f: WallFace| 1, n) == n,
    decreases n,
{
    if n > 0 {
        lemma_count(faces, n - 1);
    }
}

/// Two selections that have no solid cell in common share out the faces of both:
/// their counts add up to the count over the solid cells of either.
pub proof fn law_faces_are_shared_out(
    field: &SolidField,
    all: Seq<bool>,
    one: Seq<bool>,
    other: Seq<bool>,
)
    requires
        field.wf(),
        shared_out(field, all, one, other),
    ensures
        wall_faces(field, all).len() == wall_faces(field, one).len() + wall_faces(
            field,
            other,
        ).len(),
{
    lemma_totals(field, all, one, other, |f: WallFace| 1);
    lemma_count(wall_faces(field, all), wall_faces(field, all).len() as int);
    lemma_count(wall_faces(field, one), wall_faces(field, one).len() as int);
    lemma_count(wall_faces(field, other), wall_faces(field, other).len() as int);
}

/// The sums add without rounding: in the measure `value` of the values and `work` of a
/// push on an area, what is added is what the sum grows by.
pub open spec fn adds_exactly<M: ForceMath>(
    m: &M,
    value: spec_fn(Scalar) -> int,
    work: spec_fn(Scalar, Scalar) -> int,
) -> bool {
    &&& value(Scalar { bits: ZERO }) == 0
    &&& forall|sum: Scalar, push: Scalar, area: Scalar, x: Scalar| #[trigger]
        call_ensures(M::add_push, (m, sum, push, area), x) ==> value(x) == value(sum) + work(
            push,
            area,
        )
    &&& forall|sum: Scalar, area: Scalar, x: Scalar| #[trigger]
        call_ensures(M::add_area, (m, sum, area), x) ==> value(x) == value(sum) + value(area)
}

spec fn area_of<M: ForceMath>(m: &M, g: &Grid, geometry: Geometry, f: WallFace) -> Scalar {
    choose|da: Scalar| is_area(m, g, geometry, f, da)
}

spec fn push_of<M: ForceMath>(m: &M, w: Seq<Prim>, gamma: Scalar, f: WallFace) -> Cons {
    choose|flux: Cons| is_push(m, w, gamma, f, flux)
}

spec fn worth_z<M: ForceMath>(
    m: &M,
    g: &Grid,
    w: Seq<Prim>,
    gamma: Scalar,
    geometry: Geometry,
    work: spec_fn(Scalar, Scalar) -> int,
) -> spec_fn(WallFace) -> int {
    |f: WallFace|
        if f.axial {
            work(push_of(m, w, gamma, f).mz, area_of(m, g, geometry, f))
        } else {
            0
        }
}

spec fn worth_r<M: ForceMath>(
    m: &M,
    g: &Grid,
    w: Seq<Prim>,
    gamma: Scalar,
    geometry: Geometry,
    work: spec_fn(Scalar, Scalar) -> int,
) -> spec_fn(WallFace) -> int {
    |f: WallFace|
        if f.axial {
            0
        } else {
            work(push_of(m, w, gamma, f).mr, area_of(m, g, geometry, f))
        }
}

spec fn worth_area<M: ForceMath>(
    m: &M,
    g: &Grid,
    geometry: Geometry,
    value: spec_fn(Scalar) -> int,
) -> spec_fn(WallFace) -> int {
    |f: WallFace| value(area_of(m, g, geometry, f))
}

proof fn lemma_force_is_total<M: ForceMath>(
    m: &M,
    g: &Grid,
    w: Seq<Prim>,
    gamma: Scalar,
    geometry: Geometry,
    faces: Seq<WallFace>,
    n: int,
    sum: SurfaceForce,
    value: spec_fn(Scalar) -> int,
    work: spec_fn(Scalar, Scalar) -> int,
)
    requires
        are_functions(m),
        adds_exactly(m, value, work),
        is_force(m, g, w, gamma, geometry, faces, n, sum),
    ensures
        value(sum.f_z) == tally(faces, worth_z(m, g, w, gamma, geometry, work), n),
        value(sum.f_r) == tally(faces, worth_r(m, g, w, gamma, geometry, work), n),
        value(sum.area) == tally(faces, worth_area(m, g, geometry, value), n),
    decreases n,
{
    if n > 0 {
        let f = faces[n - 1];
        let rest = choose|rest: SurfaceForce| #[trigger]
            adds_face(m, g, w, gamma, geometry, f, rest, sum) && is_force(
                m,
                g,
                w,
                gamma,
                geometry,
                faces,
                n - 1,
                rest,
            );
        lemma_force_is_total(m, g, w, gamma, geometry, faces, n - 1, rest, value, work);
        let (da, flux) = choose|da: Scalar, flux: Cons|
            {
                &&& #[trigger] is_area(m, g, geometry, f, da)
                &&& #[trigger] is_push(m, w, gamma, f, flux)
                &&& adds(m, f, rest, da, flux, sum)
            };
        lemma_one_area(m, g, geometry, f, da, area_of(m, g, geometry, f));
        assert(is_push(m, w, gamma, f, push_of(m, w, gamma, f)));
        assert(flux == push_of(m, w, gamma, f));
    }
}

/// The forces on two selections that have no solid cell in common add up to the force
/// on the solid cells of either, but for rounding: in any measure of the values in
/// which the sums add exactly, the components and the areas add up.
pub proof fn law_forces_add_up<M: ForceMath>(
    m: &M,
    w: Seq<Prim>,
    field: &SolidField,
    gamma: Scalar,
    geometry: Geometry,
    all: Seq<bool>,
    one: Seq<bool>,
    other: Seq<bool>,
    f_all: SurfaceForce,
    f_one: SurfaceForce,
    f_other: SurfaceForce,
    value: spec_fn(Scalar) -> int,
    work: spec_fn(Scalar, Scalar) -> int,
)
    requires
        are_functions(m),
        adds_exactly(m, value, work),
        field.wf(),
        shared_out(field, all, one, other),
        is_force_on(m, w, field, gamma, geometry, all, f_all),
        is_force_on(m, w, field, gamma, geometry, one, f_one),
        is_force_on(m, w, field, gamma, geometry, other, f_other),
    ensures
        f_all.faces == f_one.faces + f_other.faces,
        value(f_all.f_z) == value(f_one.f_z) + value(f_other.f_z),
        value(f_all.f_r) == value(f_one.f_r) + value(f_other.f_r),
        value(f_all.area) == value(f_one.area) + value(f_other.area),
{
    let g = &field.grid;
    law_faces_are_shared_out(field, all, one, other);
    lemma_totals(field, all, one, other, worth_z(m, g, w, gamma, geometry, work));
    lemma_totals(field, all, one, other, worth_r(m, g, w, gamma, geometry, work));
    lemma_totals(field, all, one, other, worth_area(m, g, geometry, value));
    let l_all = wall_faces(field, all);
    let l_one = wall_faces(field, one);
    let l_other = wall_faces(field, other);
    let n_all = l_all.len() as int;
    let n_one = l_one.len() as int;
    let n_other = l_other.len() as int;
    lemma_force_is_total(m, g, w, gamma, geometry, l_all, n_all, f_all, value, work);
    lemma_force_is_total(m, g, w, gamma, geometry, l_one, n_one, f_one, value, work);
    lemma_force_is_total(m, g, w, gamma, geometry, l_other, n_other, f_other, value, work);
}

/// The face lies between two interior cells, the one at its place and the next along its
/// axis, of which one is fluid and the other a chosen solid cell, and tells which is which.
pub open spec fn is_wall(field: &SolidField, chosen: Seq<bool>, f: WallFace) -> bool {
    let g = &field.grid;
    let iz = f.iz as int;
    let ir = f.ir as int;
    let lo = g.at(iz, ir);
    let hi = if f.axial {
        g.at(iz + 1, ir)
    } else {
        g.at(iz, ir + 1)
    };
    &&& g.inside(iz, ir)
    &&& f.axial ==> iz + 1 < g.nz
    &&& !f.axial ==> ir + 1 < g.nr
    &&& field.solid(lo) != field.solid(hi)
    &&& field.solid(hi) ==> f.fluid == lo && f.solid == hi && f.side == Side::Low
    &&& field.solid(lo) ==> f.fluid == hi && f.solid == lo && f.side == Side::High
    &&& chosen[f.solid as int]
}

/// The face comes before a place in the order of the list: rows first, then columns.
spec fn comes_before(f: WallFace, ir: int, iz: int) -> bool {
    f.ir < ir || (f.ir == ir && f.iz < iz)
}

/// All faces of a list are walls before a place, and no two of them are one.
spec fn listed_well(
    field: &SolidField,
    chosen: Seq<bool>,
    faces: Seq<WallFace>,
    start: int,
    axial: bool,
    ir: int,
    iz: int,
) -> bool {
    &&& 0 <= start <= faces.len()
    &&& forall|i: int|
        0 <= i < faces.len() ==> is_wall(field, chosen, #[trigger] faces[i]) && faces[i].axial == (if i
            < start {
            true
        } else {
            axial
        }) && (i >= start ==> comes_before(faces[i], ir, iz))
    &&& forall|i: int, j: int|
        0 <= i < j < faces.len() ==> !((#[trigger] faces[i]).axial == (#[trigger] faces[j]).axial
            && faces[i].iz == faces[j].iz && faces[i].ir == faces[j].ir)
}

proof fn lemma_axial_listed_well(field: &SolidField, chosen: Seq<bool>, ir: int, iz: int)
    requires
        field.wf(),
        0 <= ir <= field.grid.nr,
        0 <= iz < field.grid.nz,
        iz > 0 ==> ir < field.grid.nr,
    ensures
        listed_well(field, chosen, axial_faces(field, chosen, ir, iz), 0, true, ir, iz),
    decreases ir, iz,
{
    let g = &field.grid;
    grid::lemma_products_fit(g.nz as int, g.nr as int);
    let list = axial_faces(field, chosen, ir, iz);
    if iz > 0 {
        lemma_axial_listed_well(field, chosen, ir, iz - 1);
        grid::law_interior_layout(g.nz as int, g.nr as int, iz - 1, ir);
        grid::law_interior_layout(g.nz as int, g.nr as int, iz, ir);
        let short = axial_faces(field, chosen, ir, iz - 1);
        assert forall|i: int| 0 <= i < list.len() implies is_wall(field, chosen, #[trigger] list[i])
            && list[i].axial && comes_before(list[i], ir, iz) by {
            if i < short.len() {
                assert(list[i] == short[i]);
            }
        }
        assert forall|i: int, j: int| 0 <= i < j < list.len() implies !((#[trigger] list[i]).axial
            == (#[trigger] list[j]).axial && list[i].iz == list[j].iz && list[i].ir
            == list[j].ir) by {
            assert(list[i] == short[i]);
            if j < short.len() {
                assert(list[j] == short[j]);
            }
        }
    } else if ir > 0 {
        lemma_axial_listed_well(field, chosen, ir - 1, g.nz - 1);
        assert forall|i: int| 0 <= i < list.len() implies is_wall(field, chosen, #[trigger] list[i])
            && list[i].axial && comes_before(list[i], ir, iz) by {}
    }
}

proof fn lemma_radial_listed_well(
    field: &SolidField,
    chosen: Seq<bool>,
    list: Seq<WallFace>,
    ir: int,
    iz: int,
)
    requires
        field.wf(),
        listed_well(
            field,
            chosen,
            list,
            list.len() as int,
            false,
            0,
            0,
        ),
        0 <= ir < field.grid.nr,
        0 <= iz <= field.grid.nz,
        iz > 0 ==> ir + 1 < field.grid.nr,
    ensures
        listed_well(
            field,
            chosen,
            radial_faces(field, chosen, list, ir, iz),
            list.len() as int,
            false,
            ir,
            iz,
        ),
    decreases ir, iz,
{
    let g = &field.grid;
    grid::lemma_products_fit(g.nz as int, g.nr as int);
    let long = radial_faces(field, chosen, list, ir, iz);
    let start = list.len() as int;
    if iz > 0 {
        lemma_radial_listed_well(field, chosen, list, ir, iz - 1);
        grid::law_interior_layout(g.nz as int, g.nr as int, iz - 1, ir);
        grid::law_interior_layout(g.nz as int, g.nr as int, iz - 1, ir + 1);
        let short = radial_faces(field, chosen, list, ir, iz - 1);
        assert forall|i: int| 0 <= i < long.len() implies is_wall(field, chosen, #[trigger] long[i])
            && long[i].axial == (i < start) && (i >= start ==> comes_before(long[i], ir, iz)) by {
            if i < short.len() {
                assert(long[i] == short[i]);
            }
        }
        assert forall|i: int, j: int| 0 <= i < j < long.len() implies !((#[trigger] long[i]).axial
            == (#[trigger] long[j]).axial && long[i].iz == long[j].iz && long[i].ir
            == long[j].ir) by {
            assert(long[i] == short[i]);
            if j < short.len() {
                assert(long[j] == short[j]);
            }
        }
    } else if ir > 0 {
        lemma_radial_listed_well(field, chosen, list, ir - 1, g.nz as int);
        assert forall|i: int| 0 <= i < long.len() implies is_wall(field, chosen, #[trigger] long[i])
            && long[i].axial == (i < start) && (i >= start ==> comes_before(long[i], ir, iz)) by {}
    }
}

/// Every face that is listed is a wall of a chosen cell, and none is listed twice.
pub proof fn law_listed_faces_are_walls(field: &SolidField, chosen: Seq<bool>, i: int, j: int)
    requires
        field.wf(),
        0 <= i < wall_faces(field, chosen).len(),
        0 <= j < wall_faces(field, chosen).len(),
    ensures
        is_wall(field, chosen, wall_faces(field, chosen)[i]),
        ({
            let a = wall_faces(field, chosen)[i];
            let b = wall_faces(field, chosen)[j];
            a.axial == b.axial && a.iz == b.iz && a.ir == b.ir ==> i == j
        }),
{
    let g = &field.grid;
    let axial = axial_faces(field, chosen, g.nr as int, 0);
    lemma_axial_listed_well(field, chosen, g.nr as int, 0);
    assert forall|k: int| 0 <= k < axial.len() implies is_wall(field, chosen, #[trigger] axial[k])
        && axial[k].axial by {}
    lemma_radial_listed_well(field, chosen, axial, g.nr - 1, 0);
}

proof fn lemma_axial_is_listed(
    field: &SolidField,
    chosen: Seq<bool>,
    ir: int,
    iz: int,
    tz: int,
    tr: int,
) -> (i: int)
    requires
        field.wf(),
        0 <= ir <= field.grid.nr,
        0 <= iz < field.grid.nz,
        iz > 0 ==> ir < field.grid.nr,
        0 <= tz < field.grid.nz - 1,
        0 <= tr,
        tr < ir || (tr == ir && tz < iz),
        axial_face(field, chosen, tz, tr) is Some,
    ensures
        0 <= i < axial_faces(field, chosen, ir, iz).len(),
        axial_faces(field, chosen, ir, iz)[i] == axial_face(field, chosen, tz, tr)->0,
    decreases ir, iz,
{
    if iz > 0 {
        if tr == ir && tz == iz - 1 {
            axial_faces(field, chosen, ir, iz - 1).len() as int
        } else {
            lemma_axial_is_listed(field, chosen, ir, iz - 1, tz, tr)
        }
    } else {
        lemma_axial_is_listed(field, chosen, ir - 1, field.grid.nz - 1, tz, tr)
    }
}

proof fn lemma_radial_keeps(
    field: &SolidField,
    chosen: Seq<bool>,
    list: Seq<WallFace>,
    ir: int,
    iz: int,
)
    ensures
        radial_faces(field, chosen, list, ir, iz).len() >= list.len(),
        forall|i: int|
            0 <= i < list.len() ==> #[trigger] radial_faces(field, chosen, list, ir, iz)[i]
                == list[i],
    decreases ir, iz,
{
    if iz > 0 {
        lemma_radial_keeps(field, chosen, list, ir, iz - 1);
    } else if ir > 0 {
        lemma_radial_keeps(field, chosen, list, ir - 1, field.grid.nz as int);
    }
}

proof fn lemma_radial_is_listed(
    field: &SolidField,
    chosen: Seq<bool>,
    list: Seq<WallFace>,
    ir: int,
    iz: int,
    tz: int,
    tr: int,
) -> (i: int)
    requires
        field.wf(),
        0 <= ir < field.grid.nr,
        0 <= iz <= field.grid.nz,
        0 <= tz < field.grid.nz,
        0 <= tr,
        tr < ir || (tr == ir && tz < iz),
        radial_face(field, chosen, tz, tr) is Some,
    ensures
        0 <= i < radial_faces(field, chosen, list, ir, iz).len(),
        radial_faces(field, chosen, list, ir, iz)[i] == radial_face(field, chosen, tz, tr)->0,
    decreases ir, iz,
{
    if iz > 0 {
        if tr == ir && tz == iz - 1 {
            radial_faces(field, chosen, list, ir, iz - 1).len() as int
        } else {
            lemma_radial_is_listed(field, chosen, list, ir, iz - 1, tz, tr)
        }
    } else {
        lemma_radial_is_listed(field, chosen, list, ir - 1, field.grid.nz as int, tz, tr)
    }
}

/// Every wall of a chosen cell is listed: wherever one of two interior cells next to
/// each other is fluid and the other a chosen solid cell, the face between them is.
pub proof fn law_walls_are_listed(
    field: &SolidField,
    chosen: Seq<bool>,
    axial: bool,
    iz: int,
    ir: int,
) -> (i: int)
    requires
        field.wf(),
        field.grid.inside(iz, ir),
        axial ==> iz + 1 < field.grid.nz,
        !axial ==> ir + 1 < field.grid.nr,
        ({
            let lo = field.grid.at(iz, ir);
            let hi = if axial {
                field.grid.at(iz + 1, ir)
            } else {
                field.grid.at(iz, ir + 1)
            };
            ||| field.solid(lo) && !field.solid(hi) && chosen[lo]
            ||| field.solid(hi) && !field.solid(lo) && chosen[hi]
        }),
    ensures
        0 <= i < wall_faces(field, chosen).len(),
        wall_faces(field, chosen)[i].axial == axial,
        wall_faces(field, chosen)[i].iz == iz,
        wall_faces(field, chosen)[i].ir == ir,
{
    let g = &field.grid;
    let list = axial_faces(field, chosen, g.nr as int, 0);
    if axial {
        let i = lemma_axial_is_listed(field, chosen, g.nr as int, 0, iz, ir);
        lemma_radial_keeps(field, chosen, list, g.nr - 1, 0);
        i
    } else {
        lemma_radial_is_listed(field, chosen, list, g.nr - 1, 0, iz, ir)
    }
}

proof fn lemma_force_at<M: ForceMath>(
    m: &M,
    g: &Grid,
    w: Seq<Prim>,
    gamma: Scalar,
    geometry: Geometry,
    faces: Seq<WallFace>,
    n: int,
    i: int,
    sum: SurfaceForce,
) -> (r: (SurfaceForce, SurfaceForce))
    requires
        0 <= i < n,
        is_force(m, g, w, gamma, geometry, faces, n, sum),
    ensures
        is_force(m, g, w, gamma, geometry, faces, i, r.0),
        is_force(m, g, w, gamma, geometry, faces, i + 1, r.1),
        adds_face(m, g, w, gamma, geometry, faces[i], r.0, r.1),
        i + 1 == n ==> r.1 == sum,
    decreases n,
{
    let rest = choose|rest: SurfaceForce| #[trigger]
        adds_face(m, g, w, gamma, geometry, faces[n - 1], rest, sum) && is_force(
            m,
            g,
            w,
            gamma,
            geometry,
            faces,
            n - 1,
            rest,
        );
    if i == n - 1 {
        (rest, sum)
    } else {
        lemma_force_at(m, g, w, gamma, geometry, faces, n - 1, i, rest)
    }
}

/// The force on a body is what the fluid loses at its walls. At each of its faces the sum
/// grows by the momentum normal to the face that the sweep takes from the fluid there,
/// turned out of the fluid, times the area of the face: that of the ring at the row's
/// centre for an axial face and at the face's own radius for a radial one around an axis,
/// else the width of the face. The other component stays as it is.
pub proof fn law_forces_are_what_the_sweeps_take<M: ForceMath + SweepMath>(
    m: &M,
    w: Seq<Prim>,
    field: &SolidField,
    gamma: Scalar,
    geometry: Geometry,
    chosen: Seq<bool>,
    out: SurfaceForce,
    i: int,
    states: Four<Prim>,
    solids: Four<bool>,
    masked: bool,
    fg: FaceGeom,
    n: Numerics,
    flux: Cons,
    p: Scalar,
) -> (r: (SurfaceForce, SurfaceForce, Scalar, Scalar))
    requires
        field.wf(),
        is_force_on(m, w, field, gamma, geometry, chosen, out),
        0 <= i < wall_faces(field, chosen).len(),
        ({
            let g = &field.grid;
            let f = wall_faces(field, chosen)[i];
            let lo = g.at(f.iz as int, f.ir as int);
            let hi = if f.axial {
                g.at(f.iz + 1, f.ir as int)
            } else {
                g.at(f.iz as int, f.ir + 1)
            };
            &&& states.b == w[lo] && states.c == w[hi]
            &&& solids.b == field.solid(lo) && solids.c == field.solid(hi)
            &&& f.axial ==> sweep::is_axial_flux(m, states, solids, fg, n, gamma, flux)
            &&& !f.axial ==> n.wall_mode == WallMode::Mirror && sweep::is_radial_flux(
                m,
                states,
                solids,
                masked,
                fg,
                n,
                gamma,
                flux,
                p,
            )
        }),
        forall|rho: Scalar, u: Scalar, q: Scalar, x: Scalar, y: Scalar|
            {
                &&& #[trigger] call_ensures(M::wall_pressure, (m, rho, u, q, gamma), x)
                &&& #[trigger] call_ensures(M::wall_pressure, (m, rho, u, q, gamma), y)
            } ==> x == y,
    ensures
        ({
            let g = &field.grid;
            let faces = wall_faces(field, chosen);
            let f = faces[i];
            let (before, after, da, rf) = r;
            let taken = if f.axial {
                flux.mz
            } else {
                flux.mr
            };
            let push = if solids.c {
                taken
            } else {
                taken.negated()
            };
            &&& is_force(m, g, w, gamma, geometry, faces, i, before)
            &&& is_force(m, g, w, gamma, geometry, faces, i + 1, after)
            &&& i == 0 ==> before.f_z.bits == ZERO && before.f_r.bits == ZERO && before.area.bits
                == ZERO && before.faces == 0
            &&& i + 1 == faces.len() ==> after == out
            &&& after.faces == before.faces + 1
            &&& call_ensures(M::add_area, (m, before.area, da), after.area)
            &&& f.axial ==> {
                &&& call_ensures(M::add_push, (m, before.f_z, push, da), after.f_z)
                &&& after.f_r == before.f_r
                &&& geometry == Geometry::Axisymmetric ==> call_ensures(
                    M::ring_area,
                    (m, g.r.centre[f.ir + 2], g.r.width[f.ir + 2]),
                    da,
                )
                &&& geometry == Geometry::Planar ==> da == g.r.width[f.ir + 2]
            }
            &&& !f.axial ==> {
                &&& call_ensures(M::add_push, (m, before.f_r, push, da), after.f_r)
                &&& after.f_z == before.f_z
                &&& call_ensures(M::narrow, (m, g.r_edges[f.ir + 1]), rf)
                &&& geometry == Geometry::Axisymmetric ==> call_ensures(
                    M::ring_area,
                    (m, rf, g.z.width[f.iz + 2]),
                    da,
                )
                &&& geometry == Geometry::Planar ==> da == g.z.width[f.iz + 2]
            }
        }),
{
    let g = &field.grid;
    let faces = wall_faces(field, chosen);
    let f = faces[i];
    law_listed_faces_are_walls(field, chosen, i, i);
    let (before, after) = lemma_force_at(
        m,
        g,
        w,
        gamma,
        geometry,
        faces,
        faces.len() as int,
        i,
        out,
    );
    let (da, took) = choose|da: Scalar, took: Cons|
        {
            &&& #[trigger] is_area(m, g, geometry, f, da)
            &&& #[trigger] is_push(m, w, gamma, f, took)
            &&& adds(m, f, before, da, took, after)
        };
    let rf = choose|r: Scalar| #[trigger]
        call_ensures(M::narrow, (m, g.r_edges[f.ir + 1]), r) && is_area_at(
            m,
            geometry,
            r,
            g.z.width[f.iz + 2],
            da,
        );
    if f.axial {
        sweep::law_axial_walls_push_back(m, states, solids, fg, n, gamma, flux);
    } else {
        sweep::law_radial_walls_push_back(m, states, solids, masked, fg, n, gamma, flux, p);
    }
    (before, after, da, rf)
}

/// What is chosen is what the predicate answers: the force on the cells that a predicate
/// selects is the force on a selection that holds its answer at every solid cell.
pub proof fn law_predicates_select_solid_cells<M: ForceMath, F: Fn(usize) -> bool>(
    m: &M,
    w: Seq<Prim>,
    field: &SolidField,
    gamma: Scalar,
    geometry: Geometry,
    body: F,
    out: SurfaceForce,
) -> (chosen: Seq<bool>)
    requires
        is_surface_force(m, w, field, gamma, geometry, body, out),
    ensures
        chosen.len() == field.grid.cells(),
        forall|k: int|
            0 <= k < chosen.len() && field.solid(k) ==> call_ensures(
                body,
                (k as usize,),
                #[trigger] chosen[k],
            ),
        is_force_on(m, w, field, gamma, geometry, chosen, out),
        out.faces == wall_faces(field, chosen).len(),
{
    choose|chosen: Seq<bool>| #[trigger]
        is_choice(field, body, chosen) && is_force_on(m, w, field, gamma, geometry, chosen, out)
}

} // verus!
