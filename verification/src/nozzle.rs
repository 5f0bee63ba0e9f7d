//! Is the geometry a nozzle, and what does a run start from.

use vstd::prelude::*;
use crate::field::{Ambient, Chamber, GasModel, SolidField};
use crate::flow;
use crate::flow::{Cons, FlowMath, Prim};
use crate::grid;
use crate::grid::GridMath;
use crate::mach;
use crate::mach::{mach_from_area_ratio, MachMath};
use crate::padded;
use crate::padded::scatter;
use crate::scalar::{Scalar, ONE, ZERO};

verus! {

/// The pattern of the smallest throat radius that counts as open, 1e-9.
pub const THROAT_MIN: u64 = 0x3E11_2E0B_E826_D695;

/// Cells past the lip over which the jet is blended into the surroundings.
pub const BLEND_CELLS: usize = 4;

/// A one-dimensional stream: density, axial velocity, pressure.
#[derive(Debug, Clone, Copy, PartialEq)]
pub struct Stream {
    pub rho: Scalar,
    pub u: Scalar,
    pub p: Scalar,
}

/// The floating-point formulas of the quasi-one-dimensional start.
pub trait NozzleMath: FlowMath + GridMath + MachMath {
    /// Adds the open part of a row to the open area of its column.
    fn add_open_row(
        &self,
        area: Scalar,
        fraction: Scalar,
        r_center: Scalar,
        dr: Scalar,
    ) -> Scalar;

    /// The radius of a round opening with an area.
    fn open_radius(&self, area: Scalar) -> Scalar;

    /// Mach number of a stream expanded from the chamber to pressure `p`.
    fn expansion_mach(&self, p: Scalar, chamber: Chamber, gamma: Scalar) -> Scalar;

    /// Static temperature of a stream of a Mach number from the chamber.
    fn stream_temperature(&self, mach: Scalar, chamber: Chamber, gamma: Scalar) -> Scalar;

    /// The distance of two values.
    fn departure(&self, a: Scalar, b: Scalar) -> Scalar;

    /// The departure from a temperature that still counts as the same.
    fn temperature_tolerance(&self, t: Scalar) -> Scalar;

    /// The stream of a Mach number from the chamber.
    fn isentropic_stream(&self, mach: Scalar, chamber: Chamber, gamma: Scalar) -> Stream;

    /// Area of an opening relative to the throat's, from the two radii.
    fn area_ratio(&self, r: Scalar, r_throat: Scalar) -> Scalar;

    /// The stream `k` of five steps from `exit` towards the surroundings.
    fn blend(&self, k: usize, exit: Stream, rho: Scalar, p: Scalar) -> Stream;
}

/// The number of runs of consecutive fluid cells among the first `n` rows of a
/// column.
pub open spec fn fluid_runs(field: &SolidField, iz: int, n: int) -> int
    decreases n,
{
    if n <= 0 {
        0
    } else {
        fluid_runs(field, iz, n - 1) + if !field.solid(field.grid.at(iz, n - 1)) && (n == 1
            || field.solid(field.grid.at(iz, n - 2))) {
            1int
        } else {
            0
        }
    }
}

/// Number of runs of consecutive fluid cells in column `iz`.
pub fn fluid_runs_in_column(field: &SolidField, iz: usize) -> (runs: usize)
    requires
        field.wf(),
        iz < field.grid.nz,
    ensures
        runs == fluid_runs(field, iz as int, field.grid.nr as int),
{
    let g = &field.grid;
    let mut runs: usize = 0;
    let mut prev_solid = true;
    let mut ir: usize = 0;
    while ir < g.nr
        invariant
            field.wf(),
            g == &field.grid,
            iz < g.nz,
            ir <= g.nr,
            runs <= ir,
            runs == fluid_runs(field, iz as int, ir as int),
            prev_solid == (ir == 0 || field.solid(g.at(iz as int, ir - 1))),
        decreases g.nr - ir,
    {
        let s = field.is_solid(g.idx(iz, ir));
        if prev_solid && !s {
            runs = runs + 1;
        }
        prev_solid = s;
        ir = ir + 1;
    }
    runs
}

/// No column has solid above fluid above solid.
pub open spec fn one_solid_run(field: &SolidField) -> bool {
    forall|iz: int, a: int, b: int, c: int|
        #![trigger field.grid.at(iz, a), field.grid.at(iz, b), field.grid.at(iz, c)]
        0 <= iz < field.grid.nz && 0 <= a < b < c < field.grid.nr && field.solid(
            field.grid.at(iz, a),
        ) && !field.solid(field.grid.at(iz, b)) ==> !field.solid(field.grid.at(iz, c))
}

/// What is known after the first `n` rows of a column with at most one run.
spec fn run_state(field: &SolidField, iz: int, n: int, runs: int, prev_solid: bool) -> bool {
    let g = &field.grid;
    &&& prev_solid == (n > 0 && field.solid(g.at(iz, n - 1)))
    &&& runs == 0 ==> forall|a: int| 0 <= a < n ==> !field.solid(#[trigger] g.at(iz, a))
    &&& runs == 1 && !prev_solid ==> exists|a: int, b: int|
        #![trigger g.at(iz, a), g.at(iz, b)]
        0 <= a < b < n && field.solid(g.at(iz, a)) && !field.solid(g.at(iz, b))
    &&& forall|a: int, b: int, c: int|
        #![trigger g.at(iz, a), g.at(iz, b), g.at(iz, c)]
        0 <= a < b < c < n && field.solid(g.at(iz, a)) && !field.solid(g.at(iz, b))
            ==> !field.solid(g.at(iz, c))
}

/// Whether every column has at most one run of solid cells, which column
/// reflection depends on.
pub fn column_reflect_supported(field: &SolidField) -> (r: bool)
    requires
        field.wf(),
    ensures
        r == one_solid_run(field),
{
    let g = &field.grid;
    let mut iz: usize = 0;
    while iz < g.nz
        invariant
            field.wf(),
            g == &field.grid,
            iz <= g.nz,
            forall|jz: int, a: int, b: int, c: int|
                #![trigger g.at(jz, a), g.at(jz, b), g.at(jz, c)]
                0 <= jz < iz && 0 <= a < b < c < g.nr && field.solid(g.at(jz, a)) && !field.solid(
                    g.at(jz, b),
                ) ==> !field.solid(g.at(jz, c)),
        decreases g.nz - iz,
    {
        let mut runs: usize = 0;
        let mut prev_solid = false;
        let mut ir: usize = 0;
        while ir < g.nr
            invariant
                field.wf(),
                g == &field.grid,
                iz < g.nz,
                ir <= g.nr,
                runs <= 1,
                run_state(field, iz as int, ir as int, runs as int, prev_solid),
            decreases g.nr - ir,
        {
            let s = field.is_solid(g.idx(iz, ir));
            let ghost here = g.at(iz as int, ir as int);
            if s && !prev_solid {
                if runs == 1 {
                    proof {
                        let (a, b) = choose|a: int, b: int|
                            #![trigger g.at(iz as int, a), g.at(iz as int, b)]
                            0 <= a < b < ir && field.solid(g.at(iz as int, a)) && !field.solid(
                                g.at(iz as int, b),
                            );
                        assert(field.solid(g.at(iz as int, a)) && !field.solid(
                            g.at(iz as int, b),
                        ) && field.solid(g.at(iz as int, ir as int)));
                    }
                    return false;
                }
                runs = runs + 1;
            }
            proof {
                if !s && prev_solid {
                    assert(field.solid(g.at(iz as int, ir - 1)) && !field.solid(
                        g.at(iz as int, ir as int),
                    ));
                }
                assert(run_state(field, iz as int, ir + 1, runs as int, s));
            }
            prev_solid = s;
            ir = ir + 1;
        }
        iz = iz + 1;
    }
    true
}

/// Column `iz` contains solid.
pub open spec fn has_solid(field: &SolidField, iz: int) -> bool {
    exists|ir: int| 0 <= ir < field.grid.nr && field.solid(#[trigger] field.grid.at(iz, ir))
}

/// The last column among the first `n` that contains solid.
pub open spec fn lip_below(field: &SolidField, n: int) -> Option<int>
    decreases n,
{
    if n <= 0 {
        None
    } else if has_solid(field, n - 1) {
        Some(n - 1)
    } else {
        lip_below(field, n - 1)
    }
}

/// The last column that contains solid.
pub open spec fn lip_of(field: &SolidField) -> Option<int> {
    lip_below(field, field.grid.nz as int)
}

/// `area` is the open area of the first `n` rows of column `iz`.
pub open spec fn is_open_area<M: NozzleMath>(
    m: &M,
    field: &SolidField,
    iz: int,
    n: int,
    area: Scalar,
) -> bool
    decreases n,
{
    let g = &field.grid;
    if n <= 0 {
        area.bits == ZERO
    } else {
        exists|rest: Scalar|
            {
                &&& #[trigger] call_ensures(
                    M::add_open_row,
                    (
                        m,
                        rest,
                        field.fraction[g.at(iz, n - 1)],
                        g.r.centre[n + 1],
                        g.r.width[n + 1],
                    ),
                    area,
                )
                &&& is_open_area(m, field, iz, n - 1, rest)
            }
    }
}

/// `r` is the open radius of column `iz`.
pub open spec fn is_open_radius<M: NozzleMath>(
    m: &M,
    field: &SolidField,
    iz: int,
    r: Scalar,
) -> bool {
    exists|area: Scalar| #[trigger]
        call_ensures(M::open_radius, (m, area), r) && is_open_area(
            m,
            field,
            iz,
            field.grid.nr as int,
            area,
        )
}

/// `r_open` holds the open radius of every column.
pub open spec fn are_open_radii<M: NozzleMath>(
    m: &M,
    field: &SolidField,
    r_open: Seq<Scalar>,
) -> bool {
    &&& r_open.len() == field.grid.nz
    &&& forall|iz: int|
        0 <= iz < r_open.len() ==> is_open_radius(m, field, iz, #[trigger] r_open[iz])
}

/// Open radius of every column, and the last column with solid.
pub fn open_radius_profile<M: NozzleMath>(
    m: &M,
    field: &SolidField,
) -> (r: (Vec<Scalar>, Option<usize>))
    requires
        field.wf(),
    ensures
        are_open_radii(m, field, r.0@),
        r.1 is Some <==> lip_of(field) is Some,
        r.1 matches Some(lip) ==> lip_of(field) == Some(lip as int) && lip < field.grid.nz,
{
    let g = &field.grid;
    let mut r_open: Vec<Scalar> = Vec::new();
    let mut lip: Option<usize> = None;
    let mut iz: usize = 0;
    while iz < g.nz
        invariant
            field.wf(),
            g == &field.grid,
            iz <= g.nz,
            r_open.len() == iz,
            forall|j: int| 0 <= j < iz ==> is_open_radius(m, field, j, #[trigger] r_open[j]),
            lip is Some <==> lip_below(field, iz as int) is Some,
            lip matches Some(l) ==> lip_below(field, iz as int) == Some(l as int) && l < iz,
        decreases g.nz - iz,
    {
        let mut area = Scalar { bits: ZERO };
        let mut any_solid = false;
        let mut ir: usize = 0;
        while ir < g.nr
            invariant
                field.wf(),
                g == &field.grid,
                iz < g.nz,
                ir <= g.nr,
                is_open_area(m, field, iz as int, ir as int, area),
                any_solid <==> exists|jr: int|
                    0 <= jr < ir && field.solid(#[trigger] g.at(iz as int, jr)),
            decreases g.nr - ir,
        {
            let idx: usize = g.idx(iz, ir);
            let ghost rest = area;
            area = m.add_open_row(area, field.fraction[idx], g.r_center(ir), g.dr(ir));
            let s = field.is_solid(idx);
            ir = ir + 1;
            proof {
                assert(call_ensures(
                    M::add_open_row,
                    (
                        m,
                        rest,
                        field.fraction[g.at(iz as int, ir - 1)],
                        g.r.centre[ir + 1],
                        g.r.width[ir + 1],
                    ),
                    area,
                ));
                if s {
                    assert(field.solid(g.at(iz as int, ir - 1)));
                }
            }
            any_solid = any_solid || s;
        }
        let r = m.open_radius(area);
        r_open.push(r);
        assert(is_open_radius(m, field, iz as int, r));
        assert(any_solid <==> has_solid(field, iz as int));
        if any_solid {
            lip = Some(iz);
        }
        iz = iz + 1;
    }
    (r_open, lip)
}

/// The throat among columns `0..=n`: a later column replaces an earlier one when
/// it is no wider.
pub open spec fn throat_upto(r_open: Seq<Scalar>, n: int) -> int
    decreases n,
{
    if n <= 0 {
        0
    } else if r_open[n].at_most(r_open[throat_upto(r_open, n - 1)]) {
        n
    } else {
        throat_upto(r_open, n - 1)
    }
}

/// The columns up to the lip converge to the throat and diverge from it.
pub open spec fn converges_then_diverges(r_open: Seq<Scalar>, lip: int, throat: int) -> bool {
    &&& forall|i: int| 0 <= i < throat ==> !(#[trigger] r_open[i]).below(r_open[i + 1])
    &&& forall|i: int| throat <= i < lip ==> !r_open[i + 1].below(#[trigger] r_open[i])
}

/// The geometry is a nozzle: there is an upstream chamber, every column from the
/// inlet to the lip has exactly one run of fluid, and the open radius converges
/// to a true interior constriction and diverges from it.
pub open spec fn is_nozzle(field: &SolidField, r_open: Seq<Scalar>) -> bool {
    &&& lip_of(field) is Some
    &&& ({
        let lip = lip_of(field)->0;
        let throat = throat_upto(r_open, lip);
        let r_t = r_open[throat];
        &&& lip >= 2
        &&& forall|iz: int|
            0 <= iz <= lip ==> #[trigger] fluid_runs(field, iz, field.grid.nr as int) == 1
        &&& throat != 0
        &&& throat != lip
        &&& !r_t.at_most(Scalar { bits: THROAT_MIN })
        &&& !r_open[0].smaller(r_open[lip]).at_most(r_t)
        &&& converges_then_diverges(r_open, lip, throat)
    })
}

/// The open radius of every column, the lip and the throat of a nozzle.
#[derive(Debug, Clone)]
pub struct NozzleProfile {
    pub r_open: Vec<Scalar>,
    pub lip: usize,
    pub i_throat: usize,
}

/// Whether given open radii and lip make a nozzle, and where its throat is.
pub fn nozzle_gate(
    field: &SolidField,
    r_open: &Vec<Scalar>,
    lip: Option<usize>,
) -> (r: Option<usize>)
    requires
        field.wf(),
        r_open.len() == field.grid.nz,
        lip is Some <==> lip_of(field) is Some,
        lip matches Some(l) ==> lip_of(field) == Some(l as int) && l < field.grid.nz,
    ensures
        r is Some <==> is_nozzle(field, r_open@),
        r matches Some(t) ==> t == throat_upto(r_open@, lip_of(field)->0) && t < lip_of(field)->0,
{
    let lip: usize = match lip {
        None => {
            return None;
        },
        Some(l) => l,
    };
    if lip < 2 {
        return None;
    }
    let mut iz: usize = 0;
    while iz <= lip
        invariant
            field.wf(),
            iz <= lip + 1,
            lip < field.grid.nz,
            lip_of(field) == Some(lip as int),
            forall|j: int|
                0 <= j < iz ==> #[trigger] fluid_runs(field, j, field.grid.nr as int) == 1,
        decreases lip + 1 - iz,
    {
        if fluid_runs_in_column(field, iz) != 1 {
            return None;
        }
        iz = iz + 1;
    }
    let mut throat: usize = 0;
    let mut i: usize = 0;
    while i < lip
        invariant
            i <= lip,
            lip < r_open.len(),
            throat <= i,
            throat == throat_upto(r_open@, i as int),
        decreases lip - i,
    {
        i = i + 1;
        if r_open[i].le(r_open[throat]) {
            throat = i;
        }
    }
    let r_t = r_open[throat];
    if throat == 0 || throat == lip || r_t.le(Scalar { bits: THROAT_MIN }) {
        return None;
    }
    if r_open[0].min(r_open[lip]).le(r_t) {
        return None;
    }
    let mut i: usize = 0;
    while i < throat
        invariant
            i <= throat,
            throat < lip,
            lip < r_open.len(),
            lip_of(field) == Some(lip as int),
            throat == throat_upto(r_open@, lip as int),
            forall|j: int| 0 <= j < i ==> !(#[trigger] r_open[j]).below(r_open[j + 1]),
        decreases throat - i,
    {
        if r_open[i].lt(r_open[i + 1]) {
            return None;
        }
        i = i + 1;
    }
    while i < lip
        invariant
            throat <= i <= lip,
            lip < r_open.len(),
            lip_of(field) == Some(lip as int),
            throat == throat_upto(r_open@, lip as int),
            forall|j: int| throat <= j < i ==> !r_open[j + 1].below(#[trigger] r_open[j]),
        decreases lip - i,
    {
        if r_open[i + 1].lt(r_open[i]) {
            return None;
        }
        i = i + 1;
    }
    Some(throat)
}

/// The nozzle that the solid field forms, if it forms one.
pub fn nozzle_profile<M: NozzleMath>(m: &M, field: &SolidField) -> (r: Option<NozzleProfile>)
    requires
        field.wf(),
    ensures
        match r {
            Some(p) => {
                &&& are_open_radii(m, field, p.r_open@)
                &&& is_nozzle(field, p.r_open@)
                &&& lip_of(field) == Some(p.lip as int)
                &&& p.i_throat == throat_upto(p.r_open@, p.lip as int)
            },
            None => exists|r_open: Seq<Scalar>| #[trigger]
                are_open_radii(m, field, r_open) && !is_nozzle(field, r_open),
        },
{
    let (r_open, lip) = open_radius_profile(m, field);
    match nozzle_gate(field, &r_open, lip) {
        Some(i_throat) => match lip {
            Some(lip) => Some(NozzleProfile { r_open, lip, i_throat }),
            None => None,
        },
        None => None,
    }
}

/// On radii that are numbers the throat is the last of the narrowest columns up
/// to the lip.
pub proof fn law_throat_is_last_narrowest(r_open: Seq<Scalar>, lip: int, i: int)
    requires
        0 <= i <= lip < r_open.len(),
        forall|j: int| 0 <= j <= lip ==> !(#[trigger] r_open[j]).nan(),
    ensures
        0 <= throat_upto(r_open, lip) <= lip,
        r_open[throat_upto(r_open, lip)].at_most(r_open[i]),
        throat_upto(r_open, lip) < i ==> r_open[throat_upto(r_open, lip)].below(r_open[i]),
    decreases lip,
{
    if lip > 0 {
        law_throat_is_last_narrowest(r_open, lip - 1, 0);
        if i < lip {
            law_throat_is_last_narrowest(r_open, lip - 1, i);
        }
    }
}

/// Up to the lip of a nozzle no column is blocked and none has a second opening;
/// the throat is narrower than both ends.
pub proof fn law_nozzle_has_interior_throat(field: &SolidField, r_open: Seq<Scalar>)
    requires
        field.wf(),
        r_open.len() == field.grid.nz,
        is_nozzle(field, r_open),
        forall|j: int| 0 <= j < r_open.len() ==> !(#[trigger] r_open[j]).nan(),
    ensures
        ({
            let lip = lip_of(field)->0;
            let throat = throat_upto(r_open, lip);
            &&& 0 < throat < lip < field.grid.nz
            &&& r_open[throat].below(r_open[0])
            &&& r_open[throat].below(r_open[lip])
        }),
{
    lemma_lip_inside(field, field.grid.nz as int);
    let lip = lip_of(field)->0;
    law_throat_is_last_narrowest(r_open, lip, 0);
    law_throat_is_last_narrowest(r_open, lip, lip);
}

proof fn lemma_lip_inside(field: &SolidField, n: int)
    ensures
        lip_below(field, n) matches Some(l) ==> 0 <= l < n && has_solid(field, l) && forall|j: int|
            l < j < n ==> !#[trigger] has_solid(field, j),
    decreases n,
{
    if n > 0 && !has_solid(field, n - 1) {
        lemma_lip_inside(field, n - 1);
    }
}

/// What a cell starts from.
#[derive(Debug, Clone, Copy, PartialEq)]
pub enum Zone {
    /// The surroundings at rest.
    Ambient,
    /// The stream of its column.
    Column,
    /// The blend between the lip and the surroundings.
    Blend,
}

/// Which start a run was given.
#[derive(Debug, Clone, Copy, PartialEq)]
pub enum Start {
    /// The geometry is a nozzle with this lip and this throat column.
    Nozzle { lip: usize, i_throat: usize },
    /// A uniform stream of this Mach number.
    Freestream { mach: Scalar },
    /// The surroundings at rest.
    Rest,
}

/// The first solid row of a column at or above `ir`, the row count when there is none.
pub open spec fn wall_from(field: &SolidField, iz: int, ir: int) -> int
    decreases field.grid.nr - ir,
{
    if ir >= field.grid.nr || field.solid(field.grid.at(iz, ir)) {
        ir
    } else {
        wall_from(field, iz, ir + 1)
    }
}

/// What the cell (iz, ir) of a nozzle starts from. Up to the lip it is the
/// stream where the cell lies below the wall of its column (in a column without
/// solid, within the open radius); over a few columns past the lip it is the
/// blend within the lip radius; elsewhere, and in solid, the surroundings.
pub open spec fn zone(
    field: &SolidField,
    r_open: Seq<Scalar>,
    lip: int,
    iz: int,
    ir: int,
) -> Zone {
    let g = &field.grid;
    let wall = wall_from(field, iz, 0);
    if field.solid(g.at(iz, ir)) {
        Zone::Ambient
    } else if iz <= lip {
        if (wall < g.nr && ir < wall) || (wall >= g.nr && g.r.centre[ir + 2].at_most(
            r_open[iz],
        )) {
            Zone::Column
        } else {
            Zone::Ambient
        }
    } else if iz <= lip + BLEND_CELLS && g.r.centre[ir + 2].at_most(r_open[lip]) {
        Zone::Blend
    } else {
        Zone::Ambient
    }
}

/// The lowest solid row of column `iz`, or the number of rows.
pub fn find_wall(field: &SolidField, iz: usize) -> (b: usize)
    requires
        field.wf(),
        iz < field.grid.nz,
    ensures
        b == wall_from(field, iz as int, 0),
        b <= field.grid.nr,
{
    let g = &field.grid;
    let mut b: usize = 0;
    while b < g.nr && !field.is_solid(g.idx(iz, b))
        invariant
            field.wf(),
            g == &field.grid,
            iz < g.nz,
            b <= g.nr,
            wall_from(field, iz as int, b as int) == wall_from(field, iz as int, 0),
        decreases g.nr - b,
    {
        b = b + 1;
    }
    b
}

/// What the cell (iz, ir) of a nozzle starts from.
pub fn start_zone(
    field: &SolidField,
    r_open: &Vec<Scalar>,
    lip: usize,
    iz: usize,
    ir: usize,
) -> (z: Zone)
    requires
        field.wf(),
        r_open.len() == field.grid.nz,
        lip < field.grid.nz,
        field.grid.inside(iz as int, ir as int),
    ensures
        z == zone(field, r_open@, lip as int, iz as int, ir as int),
{
    let g = &field.grid;
    if field.is_solid(g.idx(iz, ir)) {
        return Zone::Ambient;
    }
    if iz <= lip {
        let wall: usize = find_wall(field, iz);
        let inside = if wall < g.nr {
            ir < wall
        } else {
            g.r_center(ir).le(r_open[iz])
        };
        if inside {
            Zone::Column
        } else {
            Zone::Ambient
        }
    } else if iz - lip <= BLEND_CELLS && g.r_center(ir).le(r_open[lip]) {
        Zone::Blend
    } else {
        Zone::Ambient
    }
}

/// `u` is the cell state of a stream.
pub open spec fn is_stream_state<M: NozzleMath>(m: &M, st: Stream, gamma: Scalar, u: Cons) -> bool {
    exists|rho: Scalar, v: Scalar, p: Scalar|
        {
            &&& #[trigger] call_ensures(M::narrow, (m, st.rho), rho)
            &&& #[trigger] call_ensures(M::narrow, (m, st.u), v)
            &&& #[trigger] call_ensures(M::narrow, (m, st.p), p)
            &&& call_ensures(
                M::conserved,
                (m, Prim { rho, uz: v, ur: Scalar { bits: ZERO }, p }, gamma),
                u,
            )
        }
}

fn stream_state<M: NozzleMath>(m: &M, st: Stream, gamma: Scalar) -> (u: Cons)
    ensures
        is_stream_state(m, st, gamma, u),
{
    let rho = m.narrow(st.rho);
    let v = m.narrow(st.u);
    let p = m.narrow(st.p);
    m.conserved(Prim { rho, uz: v, ur: Scalar { bits: ZERO }, p }, gamma)
}

/// `mach` is the Mach number of column `i`: exactly one at the throat, subsonic
/// upstream of it, supersonic downstream.
pub open spec fn is_column_mach<M: NozzleMath>(
    m: &M,
    r_open: Seq<Scalar>,
    throat: int,
    gamma: Scalar,
    i: int,
    mach: Scalar,
) -> bool {
    if i == throat {
        mach.bits == ONE
    } else {
        exists|ratio: Scalar| #[trigger]
            call_ensures(M::area_ratio, (m, r_open[i], r_open[throat]), ratio) && mach::is_mach_at(
                m,
                ratio,
                gamma,
                i > throat,
                mach,
            )
    }
}

/// `st` is the stream of column `i`.
pub open spec fn is_column_stream<M: NozzleMath>(
    m: &M,
    r_open: Seq<Scalar>,
    throat: int,
    chamber: Chamber,
    gamma: Scalar,
    i: int,
    st: Stream,
) -> bool {
    exists|mach: Scalar| #[trigger]
        call_ensures(M::isentropic_stream, (m, mach, chamber, gamma), st) && is_column_mach(
            m,
            r_open,
            throat,
            gamma,
            i,
            mach,
        )
}

/// `u` is the state `k` columns past the lip.
pub open spec fn is_blend_state<M: NozzleMath>(
    m: &M,
    k: int,
    exit: Stream,
    rho_a: Scalar,
    ambient: Ambient,
    gamma: Scalar,
    u: Cons,
) -> bool {
    exists|st: Stream| #[trigger]
        call_ensures(M::blend, (m, k as usize, exit, rho_a, ambient.p), st) && is_stream_state(
            m,
            st,
            gamma,
            u,
        )
}

/// The states that a nozzle start is made of: the surroundings, one stream and
/// state for each column up to the lip, one state for each column of the blend.
pub open spec fn are_nozzle_states<M: NozzleMath>(
    m: &M,
    gamma: Scalar,
    chamber: Chamber,
    ambient: Ambient,
    r_open: Seq<Scalar>,
    lip: int,
    throat: int,
    rho_a: Scalar,
    streams: Seq<Stream>,
    columns: Seq<Cons>,
    blends: Seq<Cons>,
) -> bool {
    &&& streams.len() == lip + 1
    &&& columns.len() == lip + 1
    &&& blends.len() == grid::lesser(BLEND_CELLS as int, r_open.len() - 1 - lip)
    &&& forall|i: int|
        0 <= i <= lip ==> is_column_stream(
            m,
            r_open,
            throat,
            chamber,
            gamma,
            i,
            #[trigger] streams[i],
        )
    &&& forall|i: int| 0 <= i <= lip ==> is_stream_state(m, streams[i], gamma, #[trigger] columns[i])
    &&& forall|j: int|
        0 <= j < blends.len() ==> is_blend_state(
            m,
            j + 1,
            streams[lip],
            rho_a,
            ambient,
            gamma,
            #[trigger] blends[j],
        )
}

/// `v` is the interior that a nozzle starts from.
pub open spec fn is_nozzle_start(
    field: &SolidField,
    r_open: Seq<Scalar>,
    lip: int,
    ua: Cons,
    columns: Seq<Cons>,
    blends: Seq<Cons>,
    v: Seq<Cons>,
) -> bool {
    let g = &field.grid;
    &&& v.len() == g.cells()
    &&& forall|iz: int, ir: int| #[trigger]
        g.inside(iz, ir) ==> v[g.at(iz, ir)] == match zone(field, r_open, lip, iz, ir) {
            Zone::Ambient => ua,
            Zone::Column => columns[iz],
            Zone::Blend => blends[iz - lip - 1],
        }
}

/// `v` is a uniform stream around the solid, which holds the surroundings.
pub open spec fn is_uniform_start(field: &SolidField, ua: Cons, us: Cons, v: Seq<Cons>) -> bool {
    let g = &field.grid;
    &&& v.len() == g.cells()
    &&& forall|k: int|
        0 <= k < v.len() ==> #[trigger] v[k] == if field.solid(k) {
            ua
        } else {
            us
        }
}

/// `mach` is the Mach number of the expansion from the chamber to the
/// surroundings, which is defined when the ambient pressure is positive and
/// below the chamber's.
pub open spec fn expands(chamber: Chamber, ambient: Ambient) -> bool {
    (Scalar { bits: ZERO }).below(ambient.p) && !chamber.p0.at_most(ambient.p)
}

/// A stream of this Mach number from the chamber is what the surroundings are:
/// supersonic, and of the same temperature.
pub open spec fn is_the_stream<M: NozzleMath>(
    m: &M,
    chamber: Chamber,
    ambient: Ambient,
    gamma: Scalar,
    mach: Scalar,
    t: Scalar,
    off: Scalar,
    tolerance: Scalar,
) -> bool {
    &&& call_ensures(M::stream_temperature, (m, mach, chamber, gamma), t)
    &&& call_ensures(M::departure, (m, ambient.t, t), off)
    &&& call_ensures(M::temperature_tolerance, (m, t), tolerance)
}

/// The interior `v` and what it was started as, for geometry that is no nozzle.
pub open spec fn generic_start<M: NozzleMath>(
    m: &M,
    field: &SolidField,
    gamma: Scalar,
    chamber: Chamber,
    ambient: Ambient,
    ua: Cons,
    v: Seq<Cons>,
    start: Start,
) -> bool {
    match start {
        Start::Nozzle { .. } => false,
        Start::Freestream { mach } => {
            &&& expands(chamber, ambient)
            &&& call_ensures(M::expansion_mach, (m, ambient.p, chamber, gamma), mach)
            &&& (Scalar { bits: ONE }).at_most(mach)
            &&& exists|t: Scalar, off: Scalar, tolerance: Scalar| #[trigger]
                is_the_stream(m, chamber, ambient, gamma, mach, t, off, tolerance) && off.at_most(
                    tolerance,
                )
            &&& exists|st: Stream, us: Cons|
                {
                    &&& #[trigger] call_ensures(
                        M::isentropic_stream,
                        (m, mach, chamber, gamma),
                        st,
                    )
                    &&& is_stream_state(m, st, gamma, us)
                    &&& #[trigger] is_uniform_start(field, ua, us, v)
                }
        },
        Start::Rest => {
            &&& is_uniform_start(field, ua, ua, v)
            &&& expands(chamber, ambient) ==> exists|mach: Scalar|
                {
                    &&& #[trigger] call_ensures(
                        M::expansion_mach,
                        (m, ambient.p, chamber, gamma),
                        mach,
                    )
                    &&& !(Scalar { bits: ONE }).at_most(mach) || exists|
                        t: Scalar,
                        off: Scalar,
                        tolerance: Scalar,
                    | #[trigger]
                        is_the_stream(m, chamber, ambient, gamma, mach, t, off, tolerance)
                            && !off.at_most(tolerance)
                }
        },
    }
}

/// The interior `v` and what it was started as.
pub open spec fn is_start<M: NozzleMath>(
    m: &M,
    field: &SolidField,
    gamma: Scalar,
    chamber: Chamber,
    ambient: Ambient,
    r_open: Seq<Scalar>,
    rho_a: Scalar,
    ua: Cons,
    v: Seq<Cons>,
    start: Start,
) -> bool {
    &&& are_open_radii(m, field, r_open)
    &&& call_ensures(M::gas_density, (m, ambient.p, ambient.t), rho_a)
    &&& call_ensures(M::conserved, (m, flow::still(rho_a, ambient.p), gamma), ua)
    &&& if is_nozzle(field, r_open) {
        let lip = lip_of(field)->0;
        let throat = throat_upto(r_open, lip);
        &&& start == (Start::Nozzle { lip: lip as usize, i_throat: throat as usize })
        &&& exists|streams: Seq<Stream>, columns: Seq<Cons>, blends: Seq<Cons>|
            {
                &&& #[trigger] are_nozzle_states(
                    m,
                    gamma,
                    chamber,
                    ambient,
                    r_open,
                    lip,
                    throat,
                    rho_a,
                    streams,
                    columns,
                    blends,
                )
                &&& is_nozzle_start(field, r_open, lip, ua, columns, blends, v)
            }
    } else {
        generic_start(m, field, gamma, chamber, ambient, ua, v, start)
    }
}

fn uniform_cells(field: &SolidField, ua: Cons, us: Cons) -> (v: Vec<Cons>)
    requires
        field.wf(),
    ensures
        is_uniform_start(field, ua, us, v@),
{
    let n: usize = field.grid.len();
    let mut v: Vec<Cons> = Vec::new();
    let mut k: usize = 0;
    while k < n
        invariant
            field.wf(),
            n == field.grid.cells(),
            k <= n,
            v.len() == k,
            forall|j: int|
                0 <= j < k ==> #[trigger] v[j] == if field.solid(j) {
                    ua
                } else {
                    us
                },
        decreases n - k,
    {
        if field.is_solid(k) {
            v.push(ua);
        } else {
            v.push(us);
        }
        k = k + 1;
    }
    v
}

fn start_generic<M: NozzleMath>(
    m: &M,
    field: &SolidField,
    gamma: Scalar,
    chamber: Chamber,
    ambient: Ambient,
    ua: Cons,
) -> (r: (Vec<Cons>, Start))
    requires
        field.wf(),
    ensures
        r.0.len() == field.grid.cells(),
        generic_start(m, field, gamma, chamber, ambient, ua, r.0@, r.1),
{
    if (Scalar { bits: ZERO }).lt(ambient.p) && !chamber.p0.le(ambient.p) {
        let mach = m.expansion_mach(ambient.p, chamber, gamma);
        if (Scalar { bits: ONE }).le(mach) {
            let t = m.stream_temperature(mach, chamber, gamma);
            let off = m.departure(ambient.t, t);
            let tolerance = m.temperature_tolerance(t);
            assert(is_the_stream(m, chamber, ambient, gamma, mach, t, off, tolerance));
            if off.le(tolerance) {
                let st = m.isentropic_stream(mach, chamber, gamma);
                let us = stream_state(m, st, gamma);
                let v = uniform_cells(field, ua, us);
                assert(is_uniform_start(field, ua, us, v@));
                return (v, Start::Freestream { mach });
            }
        }
    }
    (uniform_cells(field, ua, ua), Start::Rest)
}

fn nozzle_states<M: NozzleMath>(
    m: &M,
    gamma: Scalar,
    chamber: Chamber,
    ambient: Ambient,
    r_open: &Vec<Scalar>,
    lip: usize,
    throat: usize,
    rho_a: Scalar,
) -> (r: (Vec<Cons>, Vec<Cons>))
    requires
        throat <= lip < r_open.len(),
    ensures
        exists|streams: Seq<Stream>| #[trigger]
            are_nozzle_states(
                m,
                gamma,
                chamber,
                ambient,
                r_open@,
                lip as int,
                throat as int,
                rho_a,
                streams,
                r.0@,
                r.1@,
            ),
{
    let r_t = r_open[throat];
    let mut streams: Vec<Stream> = Vec::new();
    let mut columns: Vec<Cons> = Vec::new();
    let mut i: usize = 0;
    while i <= lip
        invariant
            throat <= lip < r_open.len(),
            r_t == r_open[throat as int],
            i <= lip + 1,
            streams.len() == i,
            columns.len() == i,
            forall|j: int|
                0 <= j < i ==> is_column_stream(
                    m,
                    r_open@,
                    throat as int,
                    chamber,
                    gamma,
                    j,
                    #[trigger] streams[j],
                ),
            forall|j: int|
                0 <= j < i ==> is_stream_state(m, streams[j], gamma, #[trigger] columns[j]),
        decreases lip + 1 - i,
    {
        let mach = if i == throat {
            Scalar { bits: ONE }
        } else {
            let ratio = m.area_ratio(r_open[i], r_t);
            mach_from_area_ratio(m, ratio, gamma, i > throat)
        };
        assert(is_column_mach(m, r_open@, throat as int, gamma, i as int, mach));
        let st = m.isentropic_stream(mach, chamber, gamma);
        assert(is_column_stream(m, r_open@, throat as int, chamber, gamma, i as int, st));
        let u = stream_state(m, st, gamma);
        streams.push(st);
        columns.push(u);
        i = i + 1;
    }
    let exit = streams[lip];
    let mut blends: Vec<Cons> = Vec::new();
    let mut k: usize = 1;
    while k <= BLEND_CELLS && lip + k < r_open.len()
        invariant
            lip < r_open.len(),
            1 <= k <= BLEND_CELLS + 1,
            blends.len() == k - 1,
            k > 1 ==> lip + k - 1 < r_open.len(),
            forall|j: int|
                0 <= j < blends.len() ==> is_blend_state(
                    m,
                    j + 1,
                    exit,
                    rho_a,
                    ambient,
                    gamma,
                    #[trigger] blends[j],
                ),
        decreases BLEND_CELLS + 1 - k,
    {
        let st = m.blend(k, exit, rho_a, ambient.p);
        let u = stream_state(m, st, gamma);
        assert(call_ensures(M::blend, (m, k as int as usize, exit, rho_a, ambient.p), st));
        assert(is_blend_state(m, k as int, exit, rho_a, ambient, gamma, u));
        blends.push(u);
        k = k + 1;
    }
    let r = (columns, blends);
    proof {
        assert(are_nozzle_states(
            m,
            gamma,
            chamber,
            ambient,
            r_open@,
            lip as int,
            throat as int,
            rho_a,
            streams@,
            r.0@,
            r.1@,
        ));
    }
    r
}

fn nozzle_cells(
    field: &SolidField,
    r_open: &Vec<Scalar>,
    lip: usize,
    ua: Cons,
    columns: &Vec<Cons>,
    blends: &Vec<Cons>,
) -> (v: Vec<Cons>)
    requires
        field.wf(),
        r_open.len() == field.grid.nz,
        lip < field.grid.nz,
        columns.len() == lip + 1,
        blends.len() == grid::lesser(BLEND_CELLS as int, r_open.len() - 1 - lip),
    ensures
        is_nozzle_start(field, r_open@, lip as int, ua, columns@, blends@, v@),
{
    let g = &field.grid;
    let n: usize = g.len();
    let mut v: Vec<Cons> = Vec::new();
    let mut k: usize = 0;
    while k < n
        invariant
            field.wf(),
            g == &field.grid,
            n == g.cells(),
            r_open.len() == g.nz,
            lip < g.nz,
            columns.len() == lip + 1,
            blends.len() == grid::lesser(BLEND_CELLS as int, r_open.len() - 1 - lip),
            k <= n,
            v.len() == k,
            forall|j: int|
                0 <= j < k ==> {
                    let iz = j % (g.nz as int);
                    #[trigger] v[j] == match zone(
                        field,
                        r_open@,
                        lip as int,
                        iz,
                        j / (g.nz as int),
                    ) {
                        Zone::Ambient => ua,
                        Zone::Column => columns[iz],
                        Zone::Blend => blends[iz - lip - 1],
                    }
                },
        decreases n - k,
    {
        proof {
            grid::law_interior_positions(g.nz as int, g.nr as int, k as int);
        }
        let iz: usize = k % g.nz;
        let ir: usize = k / g.nz;
        let value = match start_zone(field, r_open, lip, iz, ir) {
            Zone::Ambient => ua,
            Zone::Column => columns[iz],
            Zone::Blend => blends[iz - lip - 1],
        };
        v.push(value);
        k = k + 1;
    }
    proof {
        assert forall|iz: int, ir: int| #[trigger] g.inside(iz, ir) implies v@[g.at(iz, ir)]
            == match zone(field, r_open@, lip as int, iz, ir) {
            Zone::Ambient => ua,
            Zone::Column => columns[iz],
            Zone::Blend => blends[iz - lip - 1],
        } by {
            grid::law_interior_layout(g.nz as int, g.nr as int, iz, ir);
            assert(v@[g.at(iz, ir)] == v[g.at(iz, ir)]);
        }
    }
    v
}

/// Fills the interior for the start of a run and tells how: with the
/// quasi-one-dimensional stream of a nozzle where the geometry is one, else with
/// a uniform stream where that is what the surroundings are, else with the
/// surroundings at rest.
pub fn quasi1d_init<M: NozzleMath>(
    m: &M,
    u: &mut Vec<Cons>,
    field: &SolidField,
    gas: GasModel,
    chamber: Chamber,
    ambient: Ambient,
) -> (start: Start)
    requires
        field.wf(),
        old(u).len() == field.grid.padded_cells(),
    ensures
        final(u).len() == old(u).len(),
        exists|r_open: Seq<Scalar>, rho_a: Scalar, ua: Cons, v: Seq<Cons>| #[trigger]
            is_start(m, field, gas.gamma, chamber, ambient, r_open, rho_a, ua, v, start)
                && padded::interior_replaced(&field.grid, old(u)@, v, final(u)@),
{
    let rho_a = m.gas_density(ambient.p, ambient.t);
    let zero = Scalar { bits: ZERO };
    let ua = m.conserved(Prim { rho: rho_a, uz: zero, ur: zero, p: ambient.p }, gas.gamma);
    let (r_open, lip) = open_radius_profile(m, field);
    let gate = nozzle_gate(field, &r_open, lip);
    let (v, start) = match (gate, lip) {
        (Some(i_throat), Some(lip)) => {
            let (columns, blends) = nozzle_states(
                m,
                gas.gamma,
                chamber,
                ambient,
                &r_open,
                lip,
                i_throat,
                rho_a,
            );
            let v = nozzle_cells(field, &r_open, lip, ua, &columns, &blends);
            (v, Start::Nozzle { lip, i_throat })
        },
        _ => start_generic(m, field, gas.gamma, chamber, ambient, ua),
    };
    proof {
        assert(is_start(
            m,
            field,
            gas.gamma,
            chamber,
            ambient,
            r_open@,
            rho_a,
            ua,
            v@,
            start,
        ));
    }
    scatter(&field.grid, u, &v);
    start
}

/// A start never puts anything but the surroundings into a solid cell.
pub proof fn law_start_leaves_solid_ambient<M: NozzleMath>(
    m: &M,
    field: &SolidField,
    gamma: Scalar,
    chamber: Chamber,
    ambient: Ambient,
    r_open: Seq<Scalar>,
    rho_a: Scalar,
    ua: Cons,
    v: Seq<Cons>,
    start: Start,
    k: int,
)
    requires
        field.wf(),
        is_start(m, field, gamma, chamber, ambient, r_open, rho_a, ua, v, start),
        0 <= k < field.grid.cells(),
        field.solid(k),
    ensures
        v[k] == ua,
{
    let g = &field.grid;
    grid::law_interior_positions(g.nz as int, g.nr as int, k);
    assert(g.inside(k % (g.nz as int), k / (g.nz as int)));
    if !is_nozzle(field, r_open) {
        match start {
            Start::Nozzle { .. } => {},
            Start::Freestream { mach } => {
                let (st, us) = choose|st: Stream, us: Cons|
                    {
                        &&& #[trigger] call_ensures(
                            M::isentropic_stream,
                            (m, mach, chamber, gamma),
                            st,
                        )
                        &&& is_stream_state(m, st, gamma, us)
                        &&& #[trigger] is_uniform_start(field, ua, us, v)
                    };
                assert(v[k] == ua);
            },
            Start::Rest => {
                assert(v[k] == ua);
            },
        }
    }
}

/// The lip is the last column with a wall in it: it holds solid, and no column behind it
/// does. Without a lip there is no solid at all.
pub proof fn law_the_lip_is_last(field: &SolidField, iz: int, ir: int)
    requires
        field.grid.inside(iz, ir),
    ensures
        lip_of(field) matches Some(lip) ==> {
            &&& 0 <= lip < field.grid.nz
            &&& exists|jr: int|
                0 <= jr < field.grid.nr && field.solid(#[trigger] field.grid.at(lip, jr))
            &&& iz > lip ==> !field.solid(field.grid.at(iz, ir))
        },
        lip_of(field) is None ==> !field.solid(field.grid.at(iz, ir)),
{
    lemma_lip_inside(field, field.grid.nz as int);
    lemma_no_lip(field, field.grid.nz as int);
    if field.solid(field.grid.at(iz, ir)) {
        assert(has_solid(field, iz));
    }
}

proof fn lemma_no_lip(field: &SolidField, n: int)
    ensures
        lip_below(field, n) is None ==> forall|j: int| 0 <= j < n ==> !#[trigger] has_solid(field, j),
    decreases n,
{
    if n > 0 {
        lemma_no_lip(field, n - 1);
    }
}

/// The open area of a column grows row by row from the axis, each row by its own solid
/// fraction, centre and width; its radius is that of the whole of it.
pub proof fn law_open_areas_add_up<M: NozzleMath>(
    m: &M,
    field: &SolidField,
    r_open: Seq<Scalar>,
    iz: int,
    ir: int,
) -> (r: (Scalar, Scalar, Scalar))
    requires
        are_open_radii(m, field, r_open),
        field.grid.inside(iz, ir),
    ensures
        call_ensures(M::open_radius, (m, r.0), r_open[iz]),
        call_ensures(
            M::add_open_row,
            (
                m,
                r.1,
                field.fraction[field.grid.at(iz, ir)],
                field.grid.r.centre[ir + 2],
                field.grid.r.width[ir + 2],
            ),
            r.2,
        ),
        ir == 0 ==> r.1.bits == ZERO,
        ir + 1 == field.grid.nr ==> r.2 == r.0,
        is_open_area(m, field, iz, ir, r.1),
        is_open_area(m, field, iz, ir + 1, r.2),
{
    assert(is_open_radius(m, field, iz, r_open[iz]));
    let area = choose|area: Scalar| #[trigger]
        call_ensures(M::open_radius, (m, area), r_open[iz]) && is_open_area(
            m,
            field,
            iz,
            field.grid.nr as int,
            area,
        );
    let (rest, sum) = lemma_open_rows(m, field, iz, field.grid.nr as int, ir, area);
    (area, rest, sum)
}

proof fn lemma_open_rows<M: NozzleMath>(
    m: &M,
    field: &SolidField,
    iz: int,
    n: int,
    ir: int,
    area: Scalar,
) -> (r: (Scalar, Scalar))
    requires
        0 <= ir < n,
        is_open_area(m, field, iz, n, area),
    ensures
        is_open_area(m, field, iz, ir, r.0),
        is_open_area(m, field, iz, ir + 1, r.1),
        call_ensures(
            M::add_open_row,
            (
                m,
                r.0,
                field.fraction[field.grid.at(iz, ir)],
                field.grid.r.centre[ir + 2],
                field.grid.r.width[ir + 2],
            ),
            r.1,
        ),
        ir + 1 == n ==> r.1 == area,
    decreases n,
{
    let g = &field.grid;
    let rest = choose|rest: Scalar|
        {
            &&& #[trigger] call_ensures(
                M::add_open_row,
                (
                    m,
                    rest,
                    field.fraction[g.at(iz, n - 1)],
                    g.r.centre[n + 1],
                    g.r.width[n + 1],
                ),
                area,
            )
            &&& is_open_area(m, field, iz, n - 1, rest)
        };
    if ir == n - 1 {
        (rest, area)
    } else {
        lemma_open_rows(m, field, iz, n - 1, ir, rest)
    }
}

/// What the runs of fluid in a column count: none where all of it is solid, and one exactly
/// where its fluid is all the rows between two of them.
pub proof fn law_runs_of_fluid(field: &SolidField, iz: int, n: int)
    requires
        0 <= n,
    ensures
        fluid_runs(field, iz, n) >= 0,
        fluid_runs(field, iz, n) == 0 <==> forall|j: int|
            0 <= j < n ==> field.solid(#[trigger] field.grid.at(iz, j)),
        fluid_runs(field, iz, n) == 1 <==> exists|a: int, b: int| #[trigger]
            fluid_between(field, iz, n, a, b),
    decreases n,
{
    if n > 0 {
        law_runs_of_fluid(field, iz, n - 1);
        let g = &field.grid;
        let here = field.solid(g.at(iz, n - 1));
        if n > 1 {
            assert(g.at(iz, n - 2) == g.at(iz, n - 2));
        }
        if fluid_runs(field, iz, n) == 1 {
            if fluid_runs(field, iz, n - 1) == 0 {
                assert(!here);
                assert(fluid_between(field, iz, n, n - 1, n));
            } else {
                let (a, b) = choose|a: int, b: int| #[trigger]
                    fluid_between(field, iz, n - 1, a, b);
                if here {
                    assert(fluid_between(field, iz, n, a, b));
                } else {
                    assert(!field.solid(g.at(iz, n - 2)));
                    assert(b == n - 1);
                    assert(fluid_between(field, iz, n, a, n));
                }
            }
        }
        if exists|a: int, b: int| #[trigger] fluid_between(field, iz, n, a, b) {
            let (a, b) = choose|a: int, b: int| #[trigger] fluid_between(field, iz, n, a, b);
            if b == n {
                assert(!here);
                if a == n - 1 {
                    assert(forall|j: int|
                        0 <= j < n - 1 ==> field.solid(#[trigger] field.grid.at(iz, j)));
                } else {
                    assert(fluid_between(field, iz, n - 1, a, n - 1));
                    assert(!field.solid(g.at(iz, n - 2)));
                }
            } else {
                assert(here);
                assert(fluid_between(field, iz, n - 1, a, b));
            }
            assert(fluid_runs(field, iz, n) == 1);
        }
        if fluid_runs(field, iz, n) == 0 {
            assert(fluid_runs(field, iz, n - 1) == 0);
            assert forall|j: int| 0 <= j < n implies field.solid(#[trigger] g.at(iz, j)) by {
                if j == n - 1 && !here {
                    if n > 1 {
                        assert(field.solid(g.at(iz, n - 2)));
                    }
                }
            }
        }
    }
}

/// Of the first `n` rows of a column exactly those from `a` to before `b` are fluid, and
/// there are some.
pub open spec fn fluid_between(field: &SolidField, iz: int, n: int, a: int, b: int) -> bool {
    &&& 0 <= a < b <= n
    &&& forall|j: int|
        0 <= j < n ==> (field.solid(#[trigger] field.grid.at(iz, j)) <==> !(a <= j < b))
}

/// A nozzle opens once in every column up to its lip, narrows to its throat and widens
/// behind it.
pub proof fn law_nozzles_narrow_and_widen(field: &SolidField, r_open: Seq<Scalar>, i: int)
    requires
        field.wf(),
        r_open.len() == field.grid.nz,
        is_nozzle(field, r_open),
        forall|j: int| 0 <= j < r_open.len() ==> !(#[trigger] r_open[j]).nan(),
        lip_of(field) matches Some(lip) && 0 <= i < lip,
    ensures
        ({
            let throat = throat_upto(r_open, lip_of(field)->0);
            &&& i < throat ==> r_open[i + 1].at_most(r_open[i])
            &&& throat <= i ==> r_open[i].at_most(r_open[i + 1])
            &&& (Scalar { bits: THROAT_MIN }).below(r_open[throat])
            &&& exists|a: int, b: int| #[trigger]
                fluid_between(field, i, field.grid.nr as int, a, b)
        }),
{
    let lip = lip_of(field)->0;
    let throat = throat_upto(r_open, lip);
    lemma_lip_inside(field, field.grid.nz as int);
    law_nozzle_has_interior_throat(field, r_open);
    law_runs_of_fluid(field, i, field.grid.nr as int);
    assert(fluid_runs(field, i, field.grid.nr as int) == 1);
    assert(!(Scalar { bits: THROAT_MIN }).nan());
    assert(!r_open[i].nan() && !r_open[i + 1].nan() && !r_open[throat].nan());
}

/// The start of a nozzle, cell by cell. Up to the lip a fluid cell below the first wall of
/// its column holds the stream of that column: sonic at the throat, subsonic before it and
/// supersonic behind it, by the area of the column over that of the throat, along the axis
/// and with nothing across it. Over four columns behind the lip, within its radius, it
/// holds that stream as far blended into the surroundings as it lies behind. Everything
/// else is the surroundings at rest.
pub proof fn law_nozzle_starts<M: NozzleMath>(
    m: &M,
    field: &SolidField,
    gamma: Scalar,
    chamber: Chamber,
    ambient: Ambient,
    r_open: Seq<Scalar>,
    rho_a: Scalar,
    ua: Cons,
    v: Seq<Cons>,
    start: Start,
    iz: int,
    ir: int,
) -> (r: (Scalar, Scalar, Stream, Stream, Prim))
    requires
        field.wf(),
        is_start(m, field, gamma, chamber, ambient, r_open, rho_a, ua, v, start),
        is_nozzle(field, r_open),
        field.grid.inside(iz, ir),
    ensures
        ({
            let g = &field.grid;
            let lip = lip_of(field)->0;
            let throat = throat_upto(r_open, lip);
            let here = v[g.at(iz, ir)];
            let r_here = g.r.centre[ir + 2];
            let clear = forall|j: int| 0 <= j <= ir ==> !field.solid(#[trigger] g.at(iz, j));
            let walled = exists|j: int| 0 <= j < g.nr && field.solid(#[trigger] g.at(iz, j));
            let stream = iz <= lip && clear && (walled || r_here.at_most(r_open[iz]));
            let blended = lip < iz <= lip + 4 && !field.solid(g.at(iz, ir)) && r_here.at_most(
                r_open[lip],
            );
            let (ratio, mach, st, mixed, w) = r;
            let zero = Scalar { bits: ZERO };
            &&& start == (Start::Nozzle { lip: lip as usize, i_throat: throat as usize })
            &&& call_ensures(M::gas_density, (m, ambient.p, ambient.t), rho_a)
            &&& call_ensures(
                M::conserved,
                (m, Prim { rho: rho_a, uz: zero, ur: zero, p: ambient.p }, gamma),
                ua,
            )
            &&& !stream && !blended ==> here == ua
            &&& stream || blended ==> {
                let column = if stream {
                    iz
                } else {
                    lip
                };
                &&& column == throat ==> mach.bits == ONE
                &&& column != throat ==> call_ensures(
                    M::area_ratio,
                    (m, r_open[column], r_open[throat]),
                    ratio,
                ) && mach::is_mach_at(m, ratio, gamma, column > throat, mach)
                &&& call_ensures(M::isentropic_stream, (m, mach, chamber, gamma), st)
                &&& stream ==> mixed == st
                &&& blended ==> call_ensures(
                    M::blend,
                    (m, (iz - lip) as usize, st, rho_a, ambient.p),
                    mixed,
                )
                &&& call_ensures(M::narrow, (m, mixed.rho), w.rho)
                &&& call_ensures(M::narrow, (m, mixed.u), w.uz)
                &&& w.ur.bits == ZERO
                &&& call_ensures(M::narrow, (m, mixed.p), w.p)
                &&& call_ensures(M::conserved, (m, w, gamma), here)
            }
        }),
{
    let g = &field.grid;
    let lip = lip_of(field)->0;
    let throat = throat_upto(r_open, lip);
    lemma_lip_inside(field, g.nz as int);
    let (streams, columns, blends) = choose|
        streams: Seq<Stream>,
        columns: Seq<Cons>,
        blends: Seq<Cons>,
    |
        {
            &&& #[trigger] are_nozzle_states(
                m,
                gamma,
                chamber,
                ambient,
                r_open,
                lip,
                throat,
                rho_a,
                streams,
                columns,
                blends,
            )
            &&& is_nozzle_start(field, r_open, lip, ua, columns, blends, v)
        };
    let z = zone(field, r_open, lip, iz, ir);
    let here = v[g.at(iz, ir)];
    lemma_wall(field, iz, 0);
    let wall = wall_from(field, iz, 0);
    let clear = forall|j: int| 0 <= j <= ir ==> !field.solid(#[trigger] g.at(iz, j));
    let walled = exists|j: int| 0 <= j < g.nr && field.solid(#[trigger] g.at(iz, j));
    if wall < g.nr {
        assert(field.solid(g.at(iz, wall)));
    }
    assert(walled <==> wall < g.nr);
    assert(clear <==> ir < wall) by {
        if ir >= wall {
            assert(field.solid(g.at(iz, wall)));
        }
    }
    assert(g.at(iz, ir) == g.at(iz, ir));
    assert(here == match z {
        Zone::Ambient => ua,
        Zone::Column => columns[iz],
        Zone::Blend => blends[iz - lip - 1],
    });
    let column = if z is Column {
        iz
    } else {
        lip
    };
    let st = streams[column];
    assert(is_column_stream(m, r_open, throat, chamber, gamma, column, st));
    let mach = choose|mach: Scalar| #[trigger]
        call_ensures(M::isentropic_stream, (m, mach, chamber, gamma), st) && is_column_mach(
            m,
            r_open,
            throat,
            gamma,
            column,
            mach,
        );
    let ratio = choose|ratio: Scalar| #[trigger]
        call_ensures(M::area_ratio, (m, r_open[column], r_open[throat]), ratio)
            && mach::is_mach_at(m, ratio, gamma, column > throat, mach);
    let mixed = if z is Blend {
        assert(is_blend_state(m, iz - lip, streams[lip], rho_a, ambient, gamma, blends[iz - lip - 1]));
        choose|st: Stream| #[trigger]
            call_ensures(M::blend, (m, (iz - lip) as usize, streams[lip], rho_a, ambient.p), st)
                && is_stream_state(m, st, gamma, here)
    } else {
        st
    };
    if z is Column {
        assert(is_stream_state(m, streams[iz], gamma, columns[iz]));
    }
    let (rho, u, p) = choose|rho: Scalar, u: Scalar, p: Scalar|
        {
            &&& #[trigger] call_ensures(M::narrow, (m, mixed.rho), rho)
            &&& #[trigger] call_ensures(M::narrow, (m, mixed.u), u)
            &&& #[trigger] call_ensures(M::narrow, (m, mixed.p), p)
            &&& call_ensures(
                M::conserved,
                (m, Prim { rho, uz: u, ur: Scalar { bits: ZERO }, p }, gamma),
                here,
            )
        };
    (ratio, mach, st, mixed, Prim { rho, uz: u, ur: Scalar { bits: ZERO }, p })
}

pub proof fn lemma_wall(field: &SolidField, iz: int, ir: int)
    requires
        0 <= ir <= field.grid.nr,
    ensures
        ir <= wall_from(field, iz, ir) <= field.grid.nr,
        wall_from(field, iz, ir) < field.grid.nr ==> field.solid(
            field.grid.at(iz, wall_from(field, iz, ir)),
        ),
        forall|j: int|
            ir <= j < wall_from(field, iz, ir) ==> !field.solid(#[trigger] field.grid.at(iz, j)),
    decreases field.grid.nr - ir,
{
    if ir < field.grid.nr && !field.solid(field.grid.at(iz, ir)) {
        lemma_wall(field, iz, ir + 1);
    }
}

/// The start of what is no nozzle is uniform around the solid: a stream only where the
/// surroundings are what the chamber expands to, at sonic speed or faster and as warm;
/// else the surroundings at rest.
pub proof fn law_other_starts_are_uniform<M: NozzleMath>(
    m: &M,
    field: &SolidField,
    gamma: Scalar,
    chamber: Chamber,
    ambient: Ambient,
    r_open: Seq<Scalar>,
    rho_a: Scalar,
    ua: Cons,
    v: Seq<Cons>,
    start: Start,
    k: int,
)
    requires
        is_start(m, field, gamma, chamber, ambient, r_open, rho_a, ua, v, start),
        !is_nozzle(field, r_open),
        0 <= k < field.grid.cells(),
        !field.solid(k),
    ensures
        !(start is Nozzle),
        start is Rest ==> v[k] == ua,
        start matches Start::Freestream { mach } ==> {
            &&& (Scalar { bits: ZERO }).below(ambient.p)
            &&& !chamber.p0.at_most(ambient.p)
            &&& (Scalar { bits: ONE }).at_most(mach)
            &&& call_ensures(M::expansion_mach, (m, ambient.p, chamber, gamma), mach)
            &&& exists|t: Scalar, off: Scalar, tolerance: Scalar|
                {
                    &&& #[trigger] call_ensures(M::stream_temperature, (m, mach, chamber, gamma), t)
                    &&& #[trigger] call_ensures(M::departure, (m, ambient.t, t), off)
                    &&& #[trigger] call_ensures(M::temperature_tolerance, (m, t), tolerance)
                    &&& off.at_most(tolerance)
                }
            &&& exists|st: Stream| #[trigger]
                call_ensures(M::isentropic_stream, (m, mach, chamber, gamma), st)
                    && is_stream_state(m, st, gamma, v[k])
        },
{
    if let Start::Freestream { mach } = start {
        let (st, us) = choose|st: Stream, us: Cons|
            {
                &&& #[trigger] call_ensures(M::isentropic_stream, (m, mach, chamber, gamma), st)
                &&& is_stream_state(m, st, gamma, us)
                &&& #[trigger] is_uniform_start(field, ua, us, v)
            };
        assert(v[k] == us);
        let (t, off, tolerance) = choose|t: Scalar, off: Scalar, tolerance: Scalar| #[trigger]
            is_the_stream(m, chamber, ambient, gamma, mach, t, off, tolerance) && off.at_most(
                tolerance,
            );
        assert(call_ensures(M::stream_temperature, (m, mach, chamber, gamma), t));
    }
}

/// A bore may run straight: columns that never widen up to the throat and never narrow from
/// it on converge and diverge, equal ones among them, and no others do.
pub proof fn law_straight_runs_are_allowed(r_open: Seq<Scalar>, lip: int, throat: int)
    requires
        0 <= throat <= lip < r_open.len(),
        forall|j: int| 0 <= j < r_open.len() ==> !(#[trigger] r_open[j]).nan(),
    ensures
        converges_then_diverges(r_open, lip, throat) <==> {
            &&& forall|i: int|
                0 <= i < throat ==> r_open[i + 1].at_most(#[trigger] r_open[i])
            &&& forall|i: int|
                throat <= i < lip ==> (#[trigger] r_open[i]).at_most(r_open[i + 1])
        },
{
    assert forall|i: int| 0 <= i < lip implies (!(#[trigger] r_open[i]).below(r_open[i + 1])
        <==> r_open[i + 1].at_most(r_open[i])) && (!r_open[i + 1].below(r_open[i])
        <==> r_open[i].at_most(r_open[i + 1])) by {
        assert(!r_open[i].nan() && !r_open[i + 1].nan());
    }
}

} // verus!
