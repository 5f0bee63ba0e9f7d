//! What a stage does cell by cell: primitives, time step, update, floors.

use vstd::prelude::*;
use crate::field::{Geometry, Numerics, Reconstruction};
use crate::flow::{Cons, FlowMath, Prim, P_MIN_ABS, RHO_MIN};
use crate::grid;
use crate::grid::Grid;
use crate::padded;
use crate::parallel::par_collect;
use crate::riemann::FaceGeom;
use crate::scalar::{Scalar, ZERO};
use crate::sweep;
use crate::sweep::SweepMath;

verus! {

/// The floating-point formulas of the cell updates.
pub trait UpdateMath: SweepMath {
    /// The state after a full step from `u`.
    fn advance(&self, u: Cons, rhs: Cons, dt: Scalar) -> Cons;

    /// The mean of `u0` and the state after a full step from `u1`.
    fn combine(&self, u0: Cons, u1: Cons, rhs: Cons, dt: Scalar) -> Cons;

    /// Minus the difference of two fluxes times the inverse width.
    fn axial_rate(&self, lo: Cons, hi: Cons, inverse: Scalar) -> Cons;

    /// Kinetic energy at a density and momenta.
    fn kinetic(&self, rho: Scalar, mz: Scalar, mr: Scalar) -> Scalar;

    /// Pressure from the total and the kinetic energy.
    fn pressure(&self, e: Scalar, kinetic: Scalar, gamma: Scalar) -> Scalar;

    /// Total energy at a pressure.
    fn energy_at(&self, p: Scalar, kinetic: Scalar, gamma: Scalar) -> Scalar;

    /// How often per unit time the fastest wave crosses a cell.
    fn wave_speed(
        &self,
        w: Prim,
        inverse_dz: Scalar,
        inverse_dr: Scalar,
        gamma: Scalar,
    ) -> Scalar;

    /// `sum` plus the square of the difference of two densities.
    fn add_square(&self, sum: Scalar, a: Scalar, b: Scalar) -> Scalar;

    /// Square root.
    fn root(&self, x: Scalar) -> Scalar;
}

/// `w` holds the primitives of `u`, ghost cells and all.
pub open spec fn are_primitives<M: FlowMath>(
    m: &M,
    u: Seq<Cons>,
    gamma: Scalar,
    w: Seq<Prim>,
) -> bool {
    &&& w.len() == u.len()
    &&& forall|i: int|
        0 <= i < w.len() ==> call_ensures(M::primitives, (m, u[i], gamma), #[trigger] w[i])
}

/// Primitives of every padded cell.
pub fn compute_primitives<M: FlowMath + Sync>(m: &M, u: &Vec<Cons>, gamma: Scalar) -> (w: Vec<Prim>)
    ensures
        are_primitives(m, u@, gamma, w@),
{
    let job = |i: usize| -> (w: Prim)
        requires
            i < u.len(),
        ensures
            call_ensures(M::primitives, (m, u@[i as int], gamma), w),
        { m.primitives(u[i], gamma) };
    par_collect(u.len(), job)
}

/// `v` is the state of one cell after the first stage.
pub open spec fn is_advanced<M: UpdateMath>(
    m: &M,
    solid: bool,
    u: Cons,
    rhs: Cons,
    dt: Scalar,
    v: Cons,
) -> bool {
    if solid {
        v == u
    } else {
        call_ensures(M::advance, (m, u, rhs, dt), v)
    }
}

/// First stage: fluid cells advance by a full step, solid cells stay.
pub fn accumulate<M: UpdateMath + Sync>(
    m: &M,
    u0: &Vec<Cons>,
    rhs: &Vec<Cons>,
    dt: Scalar,
    solid: &Vec<bool>,
) -> (out: Vec<Cons>)
    requires
        rhs.len() == u0.len(),
        solid.len() == u0.len(),
    ensures
        out.len() == u0.len(),
        forall|i: int|
            0 <= i < out.len() ==> is_advanced(m, solid[i], u0[i], rhs[i], dt, #[trigger] out[i]),
{
    let job = |i: usize| -> (v: Cons)
        requires
            i < u0.len(),
        ensures
            is_advanced(m, solid@[i as int], u0@[i as int], rhs@[i as int], dt, v),
        {
            if solid[i] {
                u0[i]
            } else {
                m.advance(u0[i], rhs[i], dt)
            }
        };
    par_collect(u0.len(), job)
}

/// `v` is the state of one cell after the second stage.
pub open spec fn is_combined<M: UpdateMath>(
    m: &M,
    solid: bool,
    u0: Cons,
    u1: Cons,
    rhs: Cons,
    dt: Scalar,
    v: Cons,
) -> bool {
    if solid {
        v == u0
    } else {
        call_ensures(M::combine, (m, u0, u1, rhs, dt), v)
    }
}

/// Second stage: fluid cells take the mean of the start and a full step from the
/// first stage, solid cells stay.
pub fn accumulate2<M: UpdateMath + Sync>(
    m: &M,
    u0: &Vec<Cons>,
    u1: &Vec<Cons>,
    rhs: &Vec<Cons>,
    dt: Scalar,
    solid: &Vec<bool>,
) -> (out: Vec<Cons>)
    requires
        u1.len() == u0.len(),
        rhs.len() == u0.len(),
        solid.len() == u0.len(),
    ensures
        out.len() == u0.len(),
        forall|i: int|
            0 <= i < out.len() ==> is_combined(
                m,
                solid[i],
                u0[i],
                u1[i],
                rhs[i],
                dt,
                #[trigger] out[i],
            ),
{
    let job = |i: usize| -> (v: Cons)
        requires
            i < u0.len(),
        ensures
            is_combined(
                m,
                solid@[i as int],
                u0@[i as int],
                u1@[i as int],
                rhs@[i as int],
                dt,
                v,
            ),
        {
            if solid[i] {
                u0[i]
            } else {
                m.combine(u0[i], u1[i], rhs[i], dt)
            }
        };
    par_collect(u0.len(), job)
}

/// Density, momenta and energy are finite.
pub open spec fn all_finite(u: Cons) -> bool {
    u.rho.finite() && u.mz.finite() && u.mr.finite() && u.e.finite()
}

/// A state with kinetic energy `kinetic` and pressure `p` is at a floor or not
/// finite.
pub open spec fn spoiled(u: Cons, p: Scalar) -> bool {
    ||| !(Scalar { bits: RHO_MIN }).below(u.rho)
    ||| !(Scalar { bits: P_MIN_ABS }).below(p)
    ||| !all_finite(u)
}

/// What the floors make of one cell: `v` the state, `hit` whether anything was
/// changed.
pub open spec fn is_floored<M: UpdateMath>(
    m: &M,
    u: Cons,
    gamma: Scalar,
    kinetic: Scalar,
    p: Scalar,
    v: Cons,
    hit: bool,
) -> bool {
    let zero = Scalar { bits: ZERO };
    let thin = !(Scalar { bits: RHO_MIN }).below(u.rho) || !u.rho.finite();
    let wild = !u.mz.finite() || !u.mr.finite();
    let cold = !(Scalar { bits: P_MIN_ABS }).below(p) || !p.finite();
    &&& v.rho == if thin {
        Scalar { bits: RHO_MIN }
    } else {
        u.rho
    }
    &&& v.mz == if wild {
        zero
    } else {
        u.mz
    }
    &&& v.mr == if wild {
        zero
    } else {
        u.mr
    }
    &&& call_ensures(M::kinetic, (m, v.rho, v.mz, v.mr), kinetic)
    &&& call_ensures(M::pressure, (m, u.e, kinetic, gamma), p)
    &&& if cold {
        call_ensures(M::energy_at, (m, Scalar { bits: P_MIN_ABS }, kinetic, gamma), v.e)
    } else {
        v.e == u.e
    }
    &&& hit == (thin || wild || cold)
}

/// What the floors make of one cell.
pub open spec fn floors_to<M: UpdateMath>(
    m: &M,
    u: Cons,
    gamma: Scalar,
    v: Cons,
    hit: bool,
) -> bool {
    exists|kinetic: Scalar, p: Scalar| #[trigger] is_floored(m, u, gamma, kinetic, p, v, hit)
}

/// Holds one cell above the floors. Returns whether anything was changed.
pub fn floor_cell<M: UpdateMath>(m: &M, u: Cons, gamma: Scalar) -> (r: (Cons, bool))
    ensures
        floors_to(m, u, gamma, r.0, r.1),
{
    let zero = Scalar { bits: ZERO };
    let rho_min = Scalar { bits: RHO_MIN };
    let p_min = Scalar { bits: P_MIN_ABS };
    let thin = !rho_min.lt(u.rho) || !u.rho.is_finite();
    let rho = if thin {
        rho_min
    } else {
        u.rho
    };
    let wild = !u.mz.is_finite() || !u.mr.is_finite();
    let mz = if wild {
        zero
    } else {
        u.mz
    };
    let mr = if wild {
        zero
    } else {
        u.mr
    };
    let kinetic = m.kinetic(rho, mz, mr);
    let p = m.pressure(u.e, kinetic, gamma);
    let cold = !p_min.lt(p) || !p.is_finite();
    let e = if cold {
        m.energy_at(p_min, kinetic, gamma)
    } else {
        u.e
    };
    let v = Cons { rho, mz, mr, e };
    let hit = thin || wild || cold;
    assert(is_floored(m, u, gamma, kinetic, p, v, hit));
    (v, hit)
}

/// How many of the first `n` flags are set.
pub open spec fn hits(flags: Seq<bool>, n: int) -> int
    decreases n,
{
    if n <= 0 {
        0
    } else {
        hits(flags, n - 1) + if flags[n - 1] {
            1int
        } else {
            0
        }
    }
}

/// Every cell held above the floors, `flags` telling which were changed.
pub open spec fn all_floored<M: UpdateMath>(
    m: &M,
    u: Seq<Cons>,
    gamma: Scalar,
    flags: Seq<bool>,
    v: Seq<Cons>,
) -> bool {
    &&& v.len() == u.len()
    &&& flags.len() == u.len()
    &&& forall|i: int|
        0 <= i < v.len() ==> floors_to(m, u[i], gamma, #[trigger] v[i], flags[i])
}

/// Holds every cell above the floors and counts the cells that were changed.
pub fn enforce_positivity<M: UpdateMath + Sync>(
    m: &M,
    u: &mut Vec<Cons>,
    gamma: Scalar,
    floors: &mut u64,
)
    requires
        *old(floors) + old(u).len() <= u64::MAX,
    ensures
        final(u).len() == old(u).len(),
        exists|flags: Seq<bool>| #[trigger]
            all_floored(m, old(u)@, gamma, flags, final(u)@) && *final(floors) == *old(floors)
                + hits(flags, flags.len() as int),
{
    let ghost u0 = u@;
    let ghost f0 = *floors;
    let from: &Vec<Cons> = u;
    let job = |i: usize| -> (r: (Cons, bool))
        requires
            i < from.len(),
        ensures
            floors_to(m, from@[i as int], gamma, r.0, r.1),
        { floor_cell(m, from[i], gamma) };
    let pairs = par_collect(from.len(), job);
    let mut out: Vec<Cons> = Vec::new();
    let ghost mut flags: Seq<bool> = Seq::empty();
    let mut i: usize = 0;
    while i < pairs.len()
        invariant
            pairs.len() == u0.len(),
            f0 + u0.len() <= u64::MAX,
            i <= pairs.len(),
            out.len() == i,
            flags.len() == i,
            forall|j: int|
                0 <= j < pairs.len() ==> floors_to(
                    m,
                    u0[j],
                    gamma,
                    (#[trigger] pairs[j]).0,
                    pairs[j].1,
                ),
            forall|j: int| 0 <= j < i ==> floors_to(m, u0[j], gamma, #[trigger] out[j], flags[j]),
            0 <= hits(flags, i as int) <= i,
            *floors == f0 + hits(flags, i as int),
        decreases pairs.len() - i,
    {
        let (v, hit) = pairs[i];
        let ghost was = flags;
        out.push(v);
        if hit {
            *floors = *floors + 1;
        }
        proof {
            flags = flags.push(hit);
            lemma_hits_prefix(was, hit, i as int);
        }
        i = i + 1;
    }
    assert(all_floored(m, u0, gamma, flags, out@));
    *u = out;
}

proof fn lemma_hits_prefix(flags: Seq<bool>, hit: bool, n: int)
    requires
        0 <= n <= flags.len(),
    ensures
        hits(flags.push(hit), n) == hits(flags, n),
    decreases n,
{
    if n > 0 {
        lemma_hits_prefix(flags, hit, n - 1);
    }
}

/// A cell that was changed, and no other, counts: without a hit nothing changes.
pub proof fn law_floors_spare_sound_cells<M: UpdateMath>(m: &M, u: Cons, gamma: Scalar, v: Cons)
    requires
        floors_to(m, u, gamma, v, false),
    ensures
        v == u,
{
}

/// After the floors density and momenta are finite and density is not below its
/// floor.
pub proof fn law_floored_cells_are_sound<M: UpdateMath>(
    m: &M,
    u: Cons,
    gamma: Scalar,
    v: Cons,
    hit: bool,
)
    requires
        floors_to(m, u, gamma, v, hit),
    ensures
        v.rho.finite(),
        v.mz.finite(),
        v.mr.finite(),
        (Scalar { bits: RHO_MIN }).at_most(v.rho),
{
}

/// The formulas of the floors are functions: the same values give the same result.
pub open spec fn floors_are_functions<M: UpdateMath>(m: &M) -> bool {
    &&& forall|rho: Scalar, mz: Scalar, mr: Scalar, a: Scalar, b: Scalar|
        {
            &&& #[trigger] call_ensures(M::kinetic, (m, rho, mz, mr), a)
            &&& #[trigger] call_ensures(M::kinetic, (m, rho, mz, mr), b)
        } ==> a == b
    &&& forall|e: Scalar, kinetic: Scalar, gamma: Scalar, a: Scalar, b: Scalar|
        {
            &&& #[trigger] call_ensures(M::pressure, (m, e, kinetic, gamma), a)
            &&& #[trigger] call_ensures(M::pressure, (m, e, kinetic, gamma), b)
        } ==> a == b
    &&& forall|p: Scalar, kinetic: Scalar, gamma: Scalar, a: Scalar, b: Scalar|
        {
            &&& #[trigger] call_ensures(M::energy_at, (m, p, kinetic, gamma), a)
            &&& #[trigger] call_ensures(M::energy_at, (m, p, kinetic, gamma), b)
        } ==> a == b
}

proof fn lemma_cell_settles<M: UpdateMath>(
    m: &M,
    u: Cons,
    gamma: Scalar,
    v: Cons,
    hit: bool,
    w: Cons,
    again: bool,
)
    requires
        floors_are_functions(m),
        floors_to(m, u, gamma, v, hit),
        floors_to(m, v, gamma, w, again),
    ensures
        w == v,
{
    let (k1, p1) = choose|kinetic: Scalar, p: Scalar| #[trigger]
        is_floored(m, u, gamma, kinetic, p, v, hit);
    let (k2, p2) = choose|kinetic: Scalar, p: Scalar| #[trigger]
        is_floored(m, v, gamma, kinetic, p, w, again);
    let floor = Scalar { bits: RHO_MIN };
    assert(w.rho == v.rho) by {
        if !floor.below(v.rho) {
            assert(v.rho.order() == floor.order());
            assert(v.rho.bits == floor.bits);
        }
    }
    assert(k1 == k2);
}

/// The floors settle at once: where their formulas are functions, holding every cell
/// above the floors a second time changes nothing.
pub proof fn law_floors_settle<M: UpdateMath>(
    m: &M,
    u: Seq<Cons>,
    gamma: Scalar,
    flags: Seq<bool>,
    v: Seq<Cons>,
    again: Seq<bool>,
    w: Seq<Cons>,
)
    requires
        floors_are_functions(m),
        all_floored(m, u, gamma, flags, v),
        all_floored(m, v, gamma, again, w),
    ensures
        w == v,
{
    assert forall|i: int| 0 <= i < w.len() implies w[i] == #[trigger] v[i] by {
        assert(floors_to(m, u[i], gamma, v[i], flags[i]));
        assert(floors_to(m, v[i], gamma, w[i], again[i]));
        lemma_cell_settles(m, u[i], gamma, v[i], flags[i], w[i], again[i]);
    }
    assert(w =~= v);
}

/// `sum` is the sum over the first `n` fluid cells of the squared change of
/// density.
pub open spec fn is_square_sum<M: UpdateMath>(
    m: &M,
    u0: Seq<Cons>,
    u1: Seq<Cons>,
    solid: Seq<bool>,
    n: int,
    sum: Scalar,
) -> bool
    decreases n,
{
    if n <= 0 {
        sum.bits == ZERO
    } else if solid[n - 1] {
        is_square_sum(m, u0, u1, solid, n - 1, sum)
    } else {
        exists|rest: Scalar| #[trigger]
            call_ensures(M::add_square, (m, rest, u0[n - 1].rho, u1[n - 1].rho), sum)
                && is_square_sum(m, u0, u1, solid, n - 1, rest)
    }
}

/// Root of the summed squared change of density over the fluid cells.
pub fn density_residual_f64<M: UpdateMath>(
    m: &M,
    u0: &Vec<Cons>,
    u1: &Vec<Cons>,
    solid: &Vec<bool>,
) -> (r: Scalar)
    requires
        u1.len() == u0.len(),
        solid.len() == u0.len(),
    ensures
        exists|sum: Scalar| #[trigger]
            call_ensures(M::root, (m, sum), r) && is_square_sum(
                m,
                u0@,
                u1@,
                solid@,
                u0.len() as int,
                sum,
            ),
{
    let mut sum = Scalar { bits: ZERO };
    let mut i: usize = 0;
    while i < u0.len()
        invariant
            u1.len() == u0.len(),
            solid.len() == u0.len(),
            i <= u0.len(),
            is_square_sum(m, u0@, u1@, solid@, i as int, sum),
        decreases u0.len() - i,
    {
        let ghost rest = sum;
        if !solid[i] {
            sum = m.add_square(sum, u0[i].rho, u1[i].rho);
        }
        i = i + 1;
        assert(!solid@[i - 1] ==> call_ensures(
            M::add_square,
            (m, rest, u0@[i - 1].rho, u1@[i - 1].rho),
            sum,
        ));
    }
    m.root(sum)
}

/// `speeds` holds the wave speed of every fluid cell.
pub open spec fn are_wave_speeds<M: UpdateMath>(
    m: &M,
    g: &Grid,
    w: Seq<Prim>,
    solid: Seq<bool>,
    gamma: Scalar,
    inv_z: Seq<Scalar>,
    inv_r: Seq<Scalar>,
    speeds: Seq<Seq<Scalar>>,
) -> bool {
    &&& speeds.len() == g.nr
    &&& forall|iz: int, ir: int| #[trigger]
        g.inside(iz, ir) && !solid[g.pad(iz, ir)] ==> call_ensures(
            M::wave_speed,
            (m, w[g.pad(iz, ir)], inv_z[iz], inv_r[ir], gamma),
            speeds[ir][iz],
        )
}

/// `peak` is the largest of the wave speeds, or zero when none is larger. Speeds
/// that are not numbers do not count.
pub open spec fn is_peak(
    g: &Grid,
    solid: Seq<bool>,
    speeds: Seq<Seq<Scalar>>,
    peak: Scalar,
) -> bool {
    &&& !peak.nan()
    &&& !peak.below(Scalar { bits: ZERO })
    &&& forall|iz: int, ir: int| #[trigger]
        g.inside(iz, ir) && !solid[g.pad(iz, ir)] ==> !peak.below(speeds[ir][iz])
    &&& peak.bits == ZERO || exists|iz: int, ir: int| #[trigger]
        g.inside(iz, ir) && !solid[g.pad(iz, ir)] && peak == speeds[ir][iz]
}

/// The wave speeds of one row and the largest of them.
pub open spec fn is_row_peak<M: UpdateMath>(
    m: &M,
    g: &Grid,
    w: Seq<Prim>,
    solid: Seq<bool>,
    gamma: Scalar,
    inv_z: Seq<Scalar>,
    inv_r: Scalar,
    ir: int,
    speeds: Seq<Scalar>,
    peak: Scalar,
) -> bool {
    &&& speeds.len() == g.nz
    &&& forall|iz: int|
        0 <= iz < g.nz && !solid[g.pad(iz, ir)] ==> call_ensures(
            M::wave_speed,
            (m, w[g.pad(iz, ir)], inv_z[iz], inv_r, gamma),
            #[trigger] speeds[iz],
        )
    &&& !peak.nan()
    &&& !peak.below(Scalar { bits: ZERO })
    &&& forall|iz: int|
        0 <= iz < g.nz && !solid[g.pad(iz, ir)] ==> !peak.below(#[trigger] speeds[iz])
    &&& peak.bits == ZERO || exists|iz: int|
        0 <= iz < g.nz && !solid[g.pad(iz, ir)] && peak == #[trigger] speeds[iz]
}

fn row_peak<M: UpdateMath>(
    m: &M,
    g: &Grid,
    w: &Vec<Prim>,
    solid: &Vec<bool>,
    gamma: Scalar,
    inv_z: &Vec<Scalar>,
    inv_r: Scalar,
    ir: usize,
) -> (r: (Vec<Scalar>, Scalar))
    requires
        g.wf(),
        w.len() == g.padded_cells(),
        solid.len() == g.padded_cells(),
        inv_z.len() == g.nz,
        ir < g.nr,
    ensures
        is_row_peak(m, g, w@, solid@, gamma, inv_z@, inv_r, ir as int, r.0@, r.1),
{
    proof {
        grid::lemma_products_fit(g.nz as int, g.nr as int);
    }
    let mut peak = Scalar { bits: ZERO };
    let mut speeds: Vec<Scalar> = Vec::new();
    let mut iz: usize = 0;
    while iz < g.nz
        invariant
            g.wf(),
            g.nz + 4 <= isize::MAX,
            g.nr + 4 <= isize::MAX,
            w.len() == g.padded_cells(),
            solid.len() == g.padded_cells(),
            inv_z.len() == g.nz,
            ir < g.nr,
            iz <= g.nz,
            speeds.len() == iz,
            forall|j: int|
                0 <= j < iz && !solid[g.pad(j, ir as int)] ==> call_ensures(
                    M::wave_speed,
                    (m, w[g.pad(j, ir as int)], inv_z[j], inv_r, gamma),
                    #[trigger] speeds[j],
                ),
            !peak.nan(),
            !peak.below(Scalar { bits: ZERO }),
            forall|j: int|
                0 <= j < iz && !solid[g.pad(j, ir as int)] ==> !peak.below(#[trigger] speeds[j]),
            peak.bits == ZERO || exists|j: int|
                0 <= j < iz && !solid[g.pad(j, ir as int)] && peak == #[trigger] speeds[j],
        decreases g.nz - iz,
    {
        let i: usize = g.gidx(iz as isize, ir as isize);
        let ghost was = speeds@;
        let ghost old_peak = peak;
        let s = if solid[i] {
            Scalar { bits: ZERO }
        } else {
            m.wave_speed(w[i], inv_z[iz], inv_r, gamma)
        };
        speeds.push(s);
        if !solid[i] && peak.lt(s) {
            peak = s;
        }
        proof {
            assert(speeds@[iz as int] == s);
            if peak == old_peak && old_peak.bits != ZERO {
                let j = choose|j: int|
                    0 <= j < iz && !solid[g.pad(j, ir as int)] && old_peak == #[trigger] was[j];
                assert(speeds@[j] == peak);
            }
        }
        iz = iz + 1;
    }
    (speeds, peak)
}

/// `r` is the largest wave speed over the fluid cells, in cell-data precision.
pub open spec fn is_max_wave_speed<M: UpdateMath>(
    m: &M,
    g: &Grid,
    w: Seq<Prim>,
    solid: Seq<bool>,
    gamma: Scalar,
    inv_z: Seq<Scalar>,
    inv_r: Seq<Scalar>,
    speeds: Seq<Seq<Scalar>>,
    peak: Scalar,
    r: Scalar,
) -> bool {
    &&& sweep::are_inverses(m, g.z.width@, inv_z)
    &&& sweep::are_inverses(m, g.r.width@, inv_r)
    &&& are_wave_speeds(m, g, w, solid, gamma, inv_z, inv_r, speeds)
    &&& is_peak(g, solid, speeds, peak)
    &&& call_ensures(M::narrow, (m, peak), r)
}

/// Largest wave speed over the fluid cells, each measured against its own cell.
pub fn max_wave_speed<M: UpdateMath + Sync>(
    m: &M,
    w: &Vec<Prim>,
    solid: &Vec<bool>,
    g: &Grid,
    gamma: Scalar,
) -> (r: Scalar)
    requires
        g.wf(),
        w.len() == g.padded_cells(),
        solid.len() == g.padded_cells(),
    ensures
        exists|
            inv_z: Seq<Scalar>,
            inv_r: Seq<Scalar>,
            speeds: Seq<Seq<Scalar>>,
            peak: Scalar,
        | #[trigger]
            is_max_wave_speed(m, g, w@, solid@, gamma, inv_z, inv_r, speeds, peak, r),
{
    let inv_z = sweep::inverses(m, &g.z.width);
    let inv_r = sweep::inverses(m, &g.r.width);
    let job = |ir: usize| -> (r: (Vec<Scalar>, Scalar))
        requires
            ir < g.nr,
        ensures
            is_peak_job(m, g, w@, solid@, gamma, inv_z@, inv_r@, ir, r),
        { row_peak(m, g, w, solid, gamma, &inv_z, inv_r[ir], ir) };
    let rows = par_collect(g.nr, job);
    let ghost speeds: Seq<Seq<Scalar>> = Seq::new(rows@.len(), |ir: int| rows@[ir].0@);
    let mut peak = Scalar { bits: ZERO };
    let mut ir: usize = 0;
    while ir < rows.len()
        invariant
            g.wf(),
            rows.len() == g.nr,
            ir <= g.nr,
            speeds == Seq::new(rows@.len(), |ir: int| rows@[ir].0@),
            forall|j: int|
                0 <= j < rows.len() ==> is_peak_job(
                    m,
                    g,
                    w@,
                    solid@,
                    gamma,
                    inv_z@,
                    inv_r@,
                    j as usize,
                    #[trigger] rows[j],
                ),
            !peak.nan(),
            !peak.below(Scalar { bits: ZERO }),
            forall|iz: int, jr: int| #[trigger]
                g.inside(iz, jr) && jr < ir && !solid[g.pad(iz, jr)] ==> !peak.below(
                    speeds[jr][iz],
                ),
            peak.bits == ZERO || exists|iz: int, jr: int| #[trigger]
                g.inside(iz, jr) && !solid[g.pad(iz, jr)] && peak == speeds[jr][iz],
        decreases rows.len() - ir,
    {
        let row = rows[ir].1;
        let ghost old_peak = peak;
        peak = peak.max(row);
        proof {
            assert(is_peak_job(
                m,
                g,
                w@,
                solid@,
                gamma,
                inv_z@,
                inv_r@,
                ir as int as usize,
                rows@[ir as int],
            ));
            assert(speeds[ir as int] == rows@[ir as int].0@);
            assert forall|iz: int, jr: int| #[trigger]
                g.inside(iz, jr) && jr < ir + 1 && !solid[g.pad(iz, jr)] implies !peak.below(
                speeds[jr][iz],
            ) by {
                if jr == ir {
                    assert(!row.below(rows@[ir as int].0@[iz]));
                }
            }
            if peak == row && row.bits != ZERO {
                let iz = choose|iz: int|
                    0 <= iz < g.nz && !solid[g.pad(iz, ir as int)] && row
                        == #[trigger] rows@[ir as int].0@[iz];
                assert(g.inside(iz, ir as int));
            }
        }
        ir = ir + 1;
    }
    proof {
        assert forall|iz: int, jr: int| #[trigger]
            g.inside(iz, jr) && !solid[g.pad(iz, jr)] implies call_ensures(
            M::wave_speed,
            (m, w[g.pad(iz, jr)], inv_z[iz], inv_r[jr], gamma),
            speeds[jr][iz],
        ) by {
            assert(is_peak_job(
                m,
                g,
                w@,
                solid@,
                gamma,
                inv_z@,
                inv_r@,
                jr as usize,
                rows@[jr],
            ));
            assert(speeds[jr][iz] == rows@[jr].0@[iz]);
        }
    }
    let r = m.narrow(peak);
    assert(is_max_wave_speed(
        m,
        g,
        w@,
        solid@,
        gamma,
        inv_z@,
        inv_r@,
        speeds,
        peak,
        r,
    ));
    r
}

spec fn is_peak_job<M: UpdateMath>(
    m: &M,
    g: &Grid,
    w: Seq<Prim>,
    solid: Seq<bool>,
    gamma: Scalar,
    inv_z: Seq<Scalar>,
    inv_r: Seq<Scalar>,
    ir: usize,
    r: (Vec<Scalar>, Scalar),
) -> bool {
    is_row_peak(m, g, w, solid, gamma, inv_z, inv_r[ir as int], ir as int, r.0@, r.1)
}

/// Numerics with first-order reconstruction.
pub open spec fn at_first_order(n: Numerics) -> Numerics {
    Numerics { reconstruction: Reconstruction::FirstOrder, ..n }
}

/// Positions that first-order reconstruction never reads.
pub open spec fn no_geom() -> FaceGeom {
    let zero = Scalar { bits: ZERO };
    FaceGeom { x0: zero, x1: zero, x2: zero, x3: zero, face: zero }
}

/// The four first-order face fluxes of a cell and the update made from them.
pub open spec fn is_first_order_update<M: UpdateMath>(
    m: &M,
    g: &Grid,
    w: Seq<Prim>,
    solid: Seq<bool>,
    mask: Seq<bool>,
    n: Numerics,
    gamma: Scalar,
    dt: Scalar,
    inverse_z: Scalar,
    rr: sweep::RowGeom,
    u0: Cons,
    u1: Option<Cons>,
    iz: int,
    ir: int,
    f_lo: Cons,
    f_hi: Cons,
    g_lo: Cons,
    p_lo: Scalar,
    g_hi: Cons,
    p_hi: Scalar,
    axial: Cons,
    rate: Cons,
    v: Cons,
) -> bool {
    let fo = at_first_order(n);
    &&& sweep::is_axial_flux(
        m,
        sweep::axial_four(g, w, iz, ir),
        sweep::axial_four(g, solid, iz, ir),
        no_geom(),
        fo,
        gamma,
        f_lo,
    )
    &&& sweep::is_axial_flux(
        m,
        sweep::axial_four(g, w, iz + 1, ir),
        sweep::axial_four(g, solid, iz + 1, ir),
        no_geom(),
        fo,
        gamma,
        f_hi,
    )
    &&& sweep::is_radial_face(
        m,
        g,
        w,
        solid,
        mask,
        fo,
        gamma,
        no_geom(),
        iz,
        ir - 1,
        g_lo,
        p_lo,
    )
    &&& sweep::is_radial_face(m, g, w, solid, mask, fo, gamma, no_geom(), iz, ir, g_hi, p_hi)
    &&& call_ensures(M::axial_rate, (m, f_lo, f_hi, inverse_z), axial)
    &&& sweep::is_radial_balance(m, n, rr, axial, g_lo, p_lo, g_hi, p_hi, rate)
    &&& match u1 {
        None => call_ensures(M::advance, (m, u0, rate, dt), v),
        Some(b) => call_ensures(M::combine, (m, u0, b, rate, dt), v),
    }
}

/// `v` is a cell's update with first-order fluxes.
pub open spec fn is_first_order_cell<M: UpdateMath>(
    m: &M,
    g: &Grid,
    w: Seq<Prim>,
    solid: Seq<bool>,
    mask: Seq<bool>,
    n: Numerics,
    gamma: Scalar,
    dt: Scalar,
    inverse_z: Scalar,
    rr: sweep::RowGeom,
    u0: Cons,
    u1: Option<Cons>,
    iz: int,
    ir: int,
    v: Cons,
) -> bool {
    exists|
        f_lo: Cons,
        f_hi: Cons,
        g_lo: Cons,
        p_lo: Scalar,
        g_hi: Cons,
        p_hi: Scalar,
        axial: Cons,
        rate: Cons,
    | #[trigger]
        is_first_order_update(
            m,
            g,
            w,
            solid,
            mask,
            n,
            gamma,
            dt,
            inverse_z,
            rr,
            u0,
            u1,
            iz,
            ir,
            f_lo,
            f_hi,
            g_lo,
            p_lo,
            g_hi,
            p_hi,
            axial,
            rate,
            v,
        )
}

fn first_order_cell<M: UpdateMath>(
    m: &M,
    g: &Grid,
    w: &Vec<Prim>,
    solid: &Vec<bool>,
    mask: &Vec<bool>,
    n: Numerics,
    gamma: Scalar,
    dt: Scalar,
    inverse_z: Scalar,
    rr: sweep::RowGeom,
    u0: Cons,
    u1: Option<Cons>,
    iz: usize,
    ir: usize,
) -> (v: Cons)
    requires
        g.wf(),
        w.len() == g.padded_cells(),
        solid.len() == g.padded_cells(),
        mask.len() == g.padded_cells(),
        g.inside(iz as int, ir as int),
    ensures
        is_first_order_cell(
            m,
            g,
            w@,
            solid@,
            mask@,
            n,
            gamma,
            dt,
            inverse_z,
            rr,
            u0,
            u1,
            iz as int,
            ir as int,
            v,
        ),
{
    proof {
        grid::lemma_products_fit(g.nz as int, g.nr as int);
    }
    let zero = Scalar { bits: ZERO };
    let fg = FaceGeom { x0: zero, x1: zero, x2: zero, x3: zero, face: zero };
    let fo = Numerics {
        cfl: n.cfl,
        limiter: n.limiter,
        geometry: n.geometry,
        reconstruction: Reconstruction::FirstOrder,
        wall_mode: n.wall_mode,
        flux_mode: n.flux_mode,
        quasi1d_init: n.quasi1d_init,
        sponge_cells: n.sponge_cells,
    };
    assert(fo == at_first_order(n));
    let f_lo = sweep::axial_flux(
        m,
        sweep::axial_stencil(g, w, iz, ir),
        sweep::axial_stencil(g, solid, iz, ir),
        fg,
        fo,
        gamma,
    );
    let f_hi = sweep::axial_flux(
        m,
        sweep::axial_stencil(g, w, iz + 1, ir),
        sweep::axial_stencil(g, solid, iz + 1, ir),
        fg,
        fo,
        gamma,
    );
    let (g_lo, p_lo) = sweep::radial_face(
        m,
        g,
        w,
        solid,
        mask,
        fo,
        gamma,
        fg,
        iz,
        ir as isize - 1,
    );
    let (g_hi, p_hi) = sweep::radial_face(m, g, w, solid, mask, fo, gamma, fg, iz, ir as isize);
    let axial = m.axial_rate(f_lo, f_hi, inverse_z);
    let rate = sweep::radial_balance(m, n, rr, axial, g_lo, p_lo, g_hi, p_hi);
    let v = match u1 {
        None => m.advance(u0, rate, dt),
        Some(b) => m.combine(u0, b, rate, dt),
    };
    assert(is_first_order_update(
        m,
        g,
        w@,
        solid@,
        mask@,
        n,
        gamma,
        dt,
        inverse_z,
        rr,
        u0,
        u1,
        iz as int,
        ir as int,
        f_lo,
        f_hi,
        g_lo,
        p_lo,
        g_hi,
        p_hi,
        axial,
        rate,
        v,
    ));
    v
}

/// `bad` tells whether a state is at a floor or not finite.
pub open spec fn is_verdict<M: UpdateMath>(m: &M, u: Cons, gamma: Scalar, bad: bool) -> bool {
    exists|kinetic: Scalar, p: Scalar|
        {
            &&& #[trigger] call_ensures(M::kinetic, (m, u.rho, u.mz, u.mr), kinetic)
            &&& #[trigger] call_ensures(M::pressure, (m, u.e, kinetic, gamma), p)
            &&& bad == spoiled(u, p)
        }
}

fn judge<M: UpdateMath>(m: &M, u: Cons, gamma: Scalar) -> (bad: bool)
    ensures
        is_verdict(m, u, gamma, bad),
{
    let kinetic = m.kinetic(u.rho, u.mz, u.mr);
    let p = m.pressure(u.e, kinetic, gamma);
    !(Scalar { bits: RHO_MIN }).lt(u.rho) || !(Scalar { bits: P_MIN_ABS }).lt(p) || !(
    u.rho.is_finite() && u.mz.is_finite() && u.mr.is_finite() && u.e.is_finite())
}

/// The entry of a list that may be absent.
pub open spec fn entry(u1: Option<&Vec<Cons>>, i: int) -> Option<Cons> {
    match u1 {
        None => None,
        Some(v) => Some(v@[i]),
    }
}

/// What the redo makes of the cell (iz, ir): a sound or solid cell stays, a
/// spoiled one is updated with first-order fluxes.
pub open spec fn is_redone<M: UpdateMath>(
    m: &M,
    g: &Grid,
    w: Seq<Prim>,
    solid: Seq<bool>,
    mask: Seq<bool>,
    n: Numerics,
    gamma: Scalar,
    dt: Scalar,
    inv_z: Seq<Scalar>,
    rows: Seq<sweep::RowGeom>,
    u0: Seq<Cons>,
    u1: Option<&Vec<Cons>>,
    before: Cons,
    iz: int,
    ir: int,
    after: Cons,
) -> bool {
    if solid[g.pad(iz, ir)] {
        after == before
    } else {
        exists|bad: bool| #[trigger]
            is_verdict(m, before, gamma, bad) && if bad {
                is_first_order_cell(
                    m,
                    g,
                    w,
                    solid,
                    mask,
                    n,
                    gamma,
                    dt,
                    inv_z[iz],
                    rows[ir],
                    u0[g.pad(iz, ir)],
                    entry(u1, g.pad(iz, ir)),
                    iz,
                    ir,
                    after,
                )
            } else {
                after == before
            }
    }
}

/// The state after the redo. Ghost cells stay.
pub open spec fn all_redone<M: UpdateMath>(
    m: &M,
    g: &Grid,
    w: Seq<Prim>,
    solid: Seq<bool>,
    mask: Seq<bool>,
    n: Numerics,
    gamma: Scalar,
    dt: Scalar,
    inv_z: Seq<Scalar>,
    rows: Seq<sweep::RowGeom>,
    u0: Seq<Cons>,
    u1: Option<&Vec<Cons>>,
    before: Seq<Cons>,
    after: Seq<Cons>,
) -> bool {
    &&& sweep::are_inverses(m, g.z.width@, inv_z)
    &&& rows.len() == g.nr
    &&& forall|ir: int| 0 <= ir < g.nr ==> sweep::is_row_geom(m, g, ir, #[trigger] rows[ir])
    &&& after.len() == before.len()
    &&& forall|iz: int, ir: int| #[trigger]
        g.in_pad(iz, ir) ==> if g.inside(iz, ir) {
            is_redone(
                m,
                g,
                w,
                solid,
                mask,
                n,
                gamma,
                dt,
                inv_z,
                rows,
                u0,
                u1,
                before[g.pad(iz, ir)],
                iz,
                ir,
                after[g.pad(iz, ir)],
            )
        } else {
            after[g.pad(iz, ir)] == before[g.pad(iz, ir)]
        }
}

/// Recomputes every fluid cell whose update landed at a floor, with first-order
/// fluxes on all four faces and the same step. `u1` is the first-stage result in
/// the second stage.
pub fn redo_first_order<M: UpdateMath>(
    m: &M,
    out: &mut Vec<Cons>,
    u0: &Vec<Cons>,
    u1: Option<&Vec<Cons>>,
    w: &Vec<Prim>,
    solid: &Vec<bool>,
    mask: &Vec<bool>,
    g: &Grid,
    n: Numerics,
    gamma: Scalar,
    dt: Scalar,
)
    requires
        g.wf(),
        old(out).len() == g.padded_cells(),
        u0.len() == g.padded_cells(),
        u1 matches Some(v) ==> v.len() == g.padded_cells(),
        w.len() == g.padded_cells(),
        solid.len() == g.padded_cells(),
        mask.len() == g.padded_cells(),
    ensures
        final(out).len() == old(out).len(),
        exists|inv_z: Seq<Scalar>, rows: Seq<sweep::RowGeom>| #[trigger]
            all_redone(
                m,
                g,
                w@,
                solid@,
                mask@,
                n,
                gamma,
                dt,
                inv_z,
                rows,
                u0@,
                u1,
                old(out)@,
                final(out)@,
            ),
{
    proof {
        grid::lemma_products_fit(g.nz as int, g.nr as int);
    }
    let ghost before = out@;
    let inv_z = sweep::inverses(m, &g.z.width);
    let mut rows: Vec<sweep::RowGeom> = Vec::new();
    let mut ir: usize = 0;
    while ir < g.nr
        invariant
            g.wf(),
            ir <= g.nr,
            rows.len() == ir,
            forall|j: int| 0 <= j < ir ==> sweep::is_row_geom(m, g, j, #[trigger] rows[j]),
        decreases g.nr - ir,
    {
        rows.push(sweep::row_geom(m, g, ir));
        ir = ir + 1;
    }
    let total: usize = g.len();
    let mut k: usize = 0;
    while k < total
        invariant
            g.wf(),
            total == g.cells(),
            g.nz + 4 <= isize::MAX,
            g.nr + 4 <= isize::MAX,
            out.len() == g.padded_cells(),
            before.len() == g.padded_cells(),
            u0.len() == g.padded_cells(),
            u1 matches Some(v) ==> v.len() == g.padded_cells(),
            w.len() == g.padded_cells(),
            solid.len() == g.padded_cells(),
            mask.len() == g.padded_cells(),
            inv_z.len() == g.nz,
            rows.len() == g.nr,
            k <= total,
            forall|iz: int, ir: int| #[trigger]
                g.in_pad(iz, ir) ==> if g.inside(iz, ir) && g.at(iz, ir) < k {
                    is_redone(
                        m,
                        g,
                        w@,
                        solid@,
                        mask@,
                        n,
                        gamma,
                        dt,
                        inv_z@,
                        rows@,
                        u0@,
                        u1,
                        before[g.pad(iz, ir)],
                        iz,
                        ir,
                        out[g.pad(iz, ir)],
                    )
                } else {
                    out[g.pad(iz, ir)] == before[g.pad(iz, ir)]
                },
        decreases total - k,
    {
        proof {
            grid::law_interior_positions(g.nz as int, g.nr as int, k as int);
        }
        let iz: usize = k % g.nz;
        let ir: usize = k / g.nz;
        let i: usize = g.gidx(iz as isize, ir as isize);
        let ghost was = out@;
        assert(g.in_pad(iz as int, ir as int));
        if !solid[i] {
            let bad = judge(m, out[i], gamma);
            if bad {
                let b: Option<Cons> = match u1 {
                    None => None,
                    Some(v) => Some(v[i]),
                };
                let v = first_order_cell(
                    m,
                    g,
                    w,
                    solid,
                    mask,
                    n,
                    gamma,
                    dt,
                    inv_z[iz],
                    rows[ir],
                    u0[i],
                    b,
                    iz,
                    ir,
                );
                out.set(i, v);
            }
        }
        proof {
            assert(is_redone(
                m,
                g,
                w@,
                solid@,
                mask@,
                n,
                gamma,
                dt,
                inv_z@,
                rows@,
                u0@,
                u1,
                before[i as int],
                iz as int,
                ir as int,
                out@[i as int],
            ));
            assert forall|jz: int, jr: int| #[trigger] g.in_pad(jz, jr) implies if g.inside(jz, jr)
                && g.at(jz, jr) < k + 1 {
                is_redone(
                    m,
                    g,
                    w@,
                    solid@,
                    mask@,
                    n,
                    gamma,
                    dt,
                    inv_z@,
                    rows@,
                    u0@,
                    u1,
                    before[g.pad(jz, jr)],
                    jz,
                    jr,
                    out@[g.pad(jz, jr)],
                )
            } else {
                out@[g.pad(jz, jr)] == before[g.pad(jz, jr)]
            } by {
                padded::lemma_pad_bounds(g, jz, jr);
                if g.pad(jz, jr) == i {
                    padded::lemma_pad_injective(g, jz, jr, iz as int, ir as int);
                } else {
                    assert(out@[g.pad(jz, jr)] == was[g.pad(jz, jr)]);
                    if g.inside(jz, jr) {
                        grid::law_interior_layout(g.nz as int, g.nr as int, jz, jr);
                    }
                }
            }
        }
        k = k + 1;
    }
    proof {
        assert forall|jz: int, jr: int| #[trigger] g.in_pad(jz, jr) implies if g.inside(jz, jr) {
            is_redone(
                m,
                g,
                w@,
                solid@,
                mask@,
                n,
                gamma,
                dt,
                inv_z@,
                rows@,
                u0@,
                u1,
                before[g.pad(jz, jr)],
                jz,
                jr,
                out@[g.pad(jz, jr)],
            )
        } else {
            out@[g.pad(jz, jr)] == before[g.pad(jz, jr)]
        } by {
            if g.inside(jz, jr) {
                padded::lemma_at_bounds(g, jz, jr);
            }
        }
        assert(all_redone(
            m,
            g,
            w@,
            solid@,
            mask@,
            n,
            gamma,
            dt,
            inv_z@,
            rows@,
            u0@,
            u1,
            before,
            out@,
        ));
    }
}

/// What the floors do to a cell, value by value: a density that is not above its floor or
/// not finite becomes the floor, both momenta become zero where one of them is not finite,
/// and where the pressure that is left is not above its floor or not finite the energy
/// becomes that of the floor; everything else stays, and any of these is a hit.
pub proof fn law_floors_by_value<M: UpdateMath>(
    m: &M,
    u: Cons,
    gamma: Scalar,
    v: Cons,
    hit: bool,
) -> (r: (Scalar, Scalar))
    requires
        floors_to(m, u, gamma, v, hit),
    ensures
        ({
            let (kinetic, p) = r;
            let thin = !(Scalar { bits: RHO_MIN }).below(u.rho) || !u.rho.finite();
            let wild = !u.mz.finite() || !u.mr.finite();
            let cold = !(Scalar { bits: P_MIN_ABS }).below(p) || !p.finite();
            &&& call_ensures(M::kinetic, (m, v.rho, v.mz, v.mr), kinetic)
            &&& call_ensures(M::pressure, (m, u.e, kinetic, gamma), p)
            &&& thin ==> v.rho.bits == RHO_MIN
            &&& !thin ==> v.rho == u.rho
            &&& wild ==> v.mz.bits == ZERO && v.mr.bits == ZERO
            &&& !wild ==> v.mz == u.mz && v.mr == u.mr
            &&& cold ==> call_ensures(
                M::energy_at,
                (m, Scalar { bits: P_MIN_ABS }, kinetic, gamma),
                v.e,
            )
            &&& !cold ==> v.e == u.e
            &&& hit <==> thin || wild || cold
        }),
{
    let (kinetic, p) = choose|kinetic: Scalar, p: Scalar| #[trigger]
        is_floored(m, u, gamma, kinetic, p, v, hit);
    (kinetic, p)
}

/// The count of the floors is the number of cells that were changed: none where no flag is
/// set, all where every flag is, and one flag more is one more.
pub proof fn law_hits_count_the_flags(flags: Seq<bool>, n: int)
    requires
        0 <= n <= flags.len(),
    ensures
        0 <= hits(flags, n) <= n,
        hits(flags, n) == 0 <==> forall|i: int| 0 <= i < n ==> !#[trigger] flags[i],
        hits(flags, n) == n <==> forall|i: int| 0 <= i < n ==> #[trigger] flags[i],
        n < flags.len() && flags[n] ==> hits(flags, n + 1) == hits(flags, n) + 1,
        n < flags.len() && !flags[n] ==> hits(flags, n + 1) == hits(flags, n),
    decreases n,
{
    if n > 0 {
        law_hits_count_the_flags(flags, n - 1);
    }
}

/// A redone cell takes first-order fluxes through all four of its faces, each between the
/// cells on either side of it, whatever the reconstruction of the run: the axial rate over
/// the cell's own width, then the radial balance, and one step from the start of the
/// stage. A cell that is solid or sound is left alone.
pub proof fn law_redone_cells_use_first_order<M: UpdateMath>(
    m: &M,
    g: &Grid,
    w: Seq<Prim>,
    solid: Seq<bool>,
    mask: Seq<bool>,
    n: Numerics,
    gamma: Scalar,
    dt: Scalar,
    inv_z: Seq<Scalar>,
    rows: Seq<sweep::RowGeom>,
    u0: Seq<Cons>,
    u1: Option<&Vec<Cons>>,
    before: Seq<Cons>,
    after: Seq<Cons>,
    iz: int,
    ir: int,
) -> (r: (bool, Cons, Cons, Cons, Scalar, Cons, Scalar, Cons, Cons, FaceGeom, Numerics))
    requires
        g.wf(),
        g.inside(iz, ir),
        all_redone(m, g, w, solid, mask, n, gamma, dt, inv_z, rows, u0, u1, before, after),
    ensures
        ({
            let k = g.pad(iz, ir);
            let (bad, f_lo, f_hi, g_lo, p_lo, g_hi, p_hi, axial, rate, fg, fo) = r;
            let rr = rows[ir];
            &&& fo.reconstruction == Reconstruction::FirstOrder
            &&& fo == (Numerics { reconstruction: fo.reconstruction, ..n })
            &&& solid[k] ==> after[k] == before[k]
            &&& !solid[k] ==> exists|kinetic: Scalar, p: Scalar|
                {
                    &&& #[trigger] call_ensures(
                        M::kinetic,
                        (m, before[k].rho, before[k].mz, before[k].mr),
                        kinetic,
                    )
                    &&& #[trigger] call_ensures(M::pressure, (m, before[k].e, kinetic, gamma), p)
                    &&& bad <==> !(Scalar { bits: RHO_MIN }).below(before[k].rho) || !(Scalar {
                        bits: P_MIN_ABS,
                    }).below(p) || !before[k].rho.finite() || !before[k].mz.finite()
                        || !before[k].mr.finite() || !before[k].e.finite()
                }
            &&& !solid[k] && !bad ==> after[k] == before[k]
            &&& !solid[k] && bad ==> {
                &&& sweep::is_axial_flux(
                    m,
                    crate::riemann::Four {
                        a: w[g.pad(iz - 2, ir)],
                        b: w[g.pad(iz - 1, ir)],
                        c: w[g.pad(iz, ir)],
                        d: w[g.pad(iz + 1, ir)],
                    },
                    crate::riemann::Four {
                        a: solid[g.pad(iz - 2, ir)],
                        b: solid[g.pad(iz - 1, ir)],
                        c: solid[g.pad(iz, ir)],
                        d: solid[g.pad(iz + 1, ir)],
                    },
                    fg,
                    fo,
                    gamma,
                    f_lo,
                )
                &&& sweep::is_axial_flux(
                    m,
                    crate::riemann::Four {
                        a: w[g.pad(iz - 1, ir)],
                        b: w[g.pad(iz, ir)],
                        c: w[g.pad(iz + 1, ir)],
                        d: w[g.pad(iz + 2, ir)],
                    },
                    crate::riemann::Four {
                        a: solid[g.pad(iz - 1, ir)],
                        b: solid[g.pad(iz, ir)],
                        c: solid[g.pad(iz + 1, ir)],
                        d: solid[g.pad(iz + 2, ir)],
                    },
                    fg,
                    fo,
                    gamma,
                    f_hi,
                )
                &&& sweep::is_radial_flux(
                    m,
                    crate::riemann::Four {
                        a: w[g.pad(iz, ir - 2)],
                        b: w[g.pad(iz, ir - 1)],
                        c: w[g.pad(iz, ir)],
                        d: w[g.pad(iz, ir + 1)],
                    },
                    crate::riemann::Four {
                        a: solid[g.pad(iz, ir - 2)],
                        b: solid[g.pad(iz, ir - 1)],
                        c: solid[g.pad(iz, ir)],
                        d: solid[g.pad(iz, ir + 1)],
                    },
                    mask[g.pad(iz, ir - 1)] || mask[g.pad(iz, ir)],
                    fg,
                    fo,
                    gamma,
                    g_lo,
                    p_lo,
                )
                &&& sweep::is_radial_flux(
                    m,
                    crate::riemann::Four {
                        a: w[g.pad(iz, ir - 1)],
                        b: w[g.pad(iz, ir)],
                        c: w[g.pad(iz, ir + 1)],
                        d: w[g.pad(iz, ir + 2)],
                    },
                    crate::riemann::Four {
                        a: solid[g.pad(iz, ir - 1)],
                        b: solid[g.pad(iz, ir)],
                        c: solid[g.pad(iz, ir + 1)],
                        d: solid[g.pad(iz, ir + 2)],
                    },
                    mask[g.pad(iz, ir)] || mask[g.pad(iz, ir + 1)],
                    fg,
                    fo,
                    gamma,
                    g_hi,
                    p_hi,
                )
                &&& call_ensures(M::inverse, (m, g.z.width[iz + 2]), inv_z[iz])
                &&& call_ensures(M::axial_rate, (m, f_lo, f_hi, inv_z[iz]), axial)
                &&& call_ensures(M::inverse, (m, g.r.width[ir + 2]), rr.inverse)
                &&& call_ensures(M::narrow, (m, g.r_edges[ir]), rr.r_lo)
                &&& call_ensures(M::narrow, (m, g.r_edges[ir + 1]), rr.r_hi)
                &&& n.geometry == Geometry::Planar ==> call_ensures(
                    M::planar_balance,
                    (m, axial, g_lo, g_hi, rr.inverse),
                    rate,
                )
                &&& n.geometry == Geometry::Axisymmetric ==> call_ensures(
                    M::ring_balance,
                    (
                        m,
                        axial,
                        g_lo,
                        p_lo,
                        g_hi,
                        p_hi,
                        rr.r_lo,
                        rr.r_hi,
                        g.r.centre[ir + 2],
                        rr.inverse,
                    ),
                    rate,
                )
                &&& u1 is None ==> call_ensures(M::advance, (m, u0[k], rate, dt), after[k])
                &&& u1 matches Some(b) ==> call_ensures(
                    M::combine,
                    (m, u0[k], b@[k], rate, dt),
                    after[k],
                )
            }
        }),
{
    let k = g.pad(iz, ir);
    assert(g.in_pad(iz, ir));
    assert(is_redone(
        m,
        g,
        w,
        solid,
        mask,
        n,
        gamma,
        dt,
        inv_z,
        rows,
        u0,
        u1,
        before[k],
        iz,
        ir,
        after[k],
    ));
    assert(sweep::is_row_geom(m, g, ir, rows[ir]));
    assert(call_ensures(M::inverse, (m, g.z.width[iz + 2]), inv_z[iz]));
    let bad = choose|bad: bool| #[trigger]
        is_verdict(m, before[k], gamma, bad) && if bad {
            is_first_order_cell(
                m,
                g,
                w,
                solid,
                mask,
                n,
                gamma,
                dt,
                inv_z[iz],
                rows[ir],
                u0[k],
                entry(u1, k),
                iz,
                ir,
                after[k],
            )
        } else {
            after[k] == before[k]
        };
    let (f_lo, f_hi, g_lo, p_lo, g_hi, p_hi, axial, rate) = choose|
        f_lo: Cons,
        f_hi: Cons,
        g_lo: Cons,
        p_lo: Scalar,
        g_hi: Cons,
        p_hi: Scalar,
        axial: Cons,
        rate: Cons,
    | #[trigger]
        is_first_order_update(
            m,
            g,
            w,
            solid,
            mask,
            n,
            gamma,
            dt,
            inv_z[iz],
            rows[ir],
            u0[k],
            entry(u1, k),
            iz,
            ir,
            f_lo,
            f_hi,
            g_lo,
            p_lo,
            g_hi,
            p_hi,
            axial,
            rate,
            after[k],
        );
    (bad, f_lo, f_hi, g_lo, p_lo, g_hi, p_hi, axial, rate, no_geom(), at_first_order(n))
}

/// No wave outruns the largest: the wave speed of every fluid cell, over its own two
/// widths, is a number only up to the peak, and the peak is one of them or zero.
pub proof fn law_no_wave_outruns_the_peak<M: UpdateMath>(
    m: &M,
    g: &Grid,
    w: Seq<Prim>,
    solid: Seq<bool>,
    gamma: Scalar,
    inv_z: Seq<Scalar>,
    inv_r: Seq<Scalar>,
    speeds: Seq<Seq<Scalar>>,
    peak: Scalar,
    top: Scalar,
    iz: int,
    ir: int,
)
    requires
        g.wf(),
        g.inside(iz, ir),
        !solid[g.pad(iz, ir)],
        is_max_wave_speed(m, g, w, solid, gamma, inv_z, inv_r, speeds, peak, top),
    ensures
        call_ensures(M::inverse, (m, g.z.width[iz + 2]), inv_z[iz]),
        call_ensures(M::inverse, (m, g.r.width[ir + 2]), inv_r[ir]),
        call_ensures(
            M::wave_speed,
            (m, w[g.pad(iz, ir)], inv_z[iz], inv_r[ir], gamma),
            speeds[ir][iz],
        ),
        !speeds[ir][iz].nan() ==> speeds[ir][iz].at_most(peak),
        (Scalar { bits: ZERO }).at_most(peak),
        peak.bits == ZERO || exists|jz: int, jr: int| #[trigger]
            g.inside(jz, jr) && !solid[g.pad(jz, jr)] && peak == speeds[jr][jz],
        call_ensures(M::narrow, (m, peak), top),
{
    assert(g.inside(iz, ir) && !solid[g.pad(iz, ir)]);
}

/// The residual counts each fluid cell once: a solid cell adds nothing, a fluid cell the
/// square of what its density changed by, and where no density has changed there is none.
pub proof fn law_residuals_count_fluid_cells<M: UpdateMath>(
    m: &M,
    u0: Seq<Cons>,
    u1: Seq<Cons>,
    solid: Seq<bool>,
    n: int,
    sum: Scalar,
)
    requires
        is_square_sum(m, u0, u1, solid, n, sum),
    ensures
        n == 0 ==> sum.bits == ZERO,
        n > 0 && solid[n - 1] ==> is_square_sum(m, u0, u1, solid, n - 1, sum),
        n > 0 && !solid[n - 1] ==> exists|rest: Scalar| #[trigger]
            call_ensures(M::add_square, (m, rest, u0[n - 1].rho, u1[n - 1].rho), sum)
                && is_square_sum(m, u0, u1, solid, n - 1, rest),
        ({
            &&& forall|rest: Scalar, a: Scalar, x: Scalar| #[trigger]
                call_ensures(M::add_square, (m, rest, a, a), x) ==> x == rest
            &&& forall|i: int| 0 <= i < n && !solid[i] ==> (#[trigger] u0[i]).rho == u1[i].rho
        }) ==> sum.bits == ZERO,
    decreases n,
{
    if n > 0 {
        if solid[n - 1] {
            law_residuals_count_fluid_cells(m, u0, u1, solid, n - 1, sum);
        } else {
            let rest = choose|rest: Scalar| #[trigger]
                call_ensures(M::add_square, (m, rest, u0[n - 1].rho, u1[n - 1].rho), sum)
                    && is_square_sum(m, u0, u1, solid, n - 1, rest);
            law_residuals_count_fluid_cells(m, u0, u1, solid, n - 1, rest);
        }
    }
}

} // verus!
