//! One stage of the two-stage time step.

use vstd::prelude::*;
use crate::field::Numerics;
use crate::flow::{Cons, Prim};
use crate::grid::Grid;
use crate::riemann::FaceGeom;
use crate::scalar::Scalar;
use crate::setup::zero_states;
use crate::sweep;
use crate::sweep::{sweep_r, sweep_z, SweepMath};
use crate::update;
use crate::update::{accumulate, accumulate2, enforce_positivity, redo_first_order, UpdateMath};

verus! {

/// The axial sweep takes the rates `before` to `after`.
pub open spec fn axially_swept<M: SweepMath>(
    m: &M,
    g: &Grid,
    w: Seq<Prim>,
    solid: Seq<bool>,
    n: Numerics,
    gamma: Scalar,
    before: Seq<Cons>,
    after: Seq<Cons>,
) -> bool {
    exists|inverses: Seq<Scalar>, zg: Seq<FaceGeom>, rows: Seq<Vec<Cons>>| #[trigger]
        sweep::swept_z(m, g, w, solid, n, gamma, inverses, zg, rows, before, after)
}

/// The radial sweep takes the rates `before` to `after`.
pub open spec fn radially_swept<M: SweepMath>(
    m: &M,
    g: &Grid,
    w: Seq<Prim>,
    solid: Seq<bool>,
    mask: Seq<bool>,
    n: Numerics,
    gamma: Scalar,
    before: Seq<Cons>,
    after: Seq<Cons>,
) -> bool {
    exists|rg: Seq<FaceGeom>, rows: Seq<Vec<Cons>>| #[trigger]
        sweep::swept_r(m, g, w, solid, mask, n, gamma, rg, rows, before, after)
}

/// Zero in every component everywhere.
pub open spec fn all_zero(u: Seq<Cons>) -> bool {
    forall|i: int| 0 <= i < u.len() ==> #[trigger] u[i] == sweep::no_flux()
}

/// `rhs` are the rates of change: both sweeps, from zero.
pub open spec fn are_rates<M: SweepMath>(
    m: &M,
    g: &Grid,
    w: Seq<Prim>,
    solid: Seq<bool>,
    mask: Seq<bool>,
    n: Numerics,
    gamma: Scalar,
    rhs: Seq<Cons>,
) -> bool {
    exists|zero: Seq<Cons>, mid: Seq<Cons>|
        {
            &&& #[trigger] axially_swept(m, g, w, solid, n, gamma, zero, mid)
            &&& zero.len() == g.padded_cells()
            &&& all_zero(zero)
            &&& radially_swept(m, g, w, solid, mask, n, gamma, mid, rhs)
        }
}

fn rates<M: SweepMath + Sync>(
    m: &M,
    g: &Grid,
    w: &Vec<Prim>,
    solid: &Vec<bool>,
    mask: &Vec<bool>,
    n: Numerics,
    gamma: Scalar,
) -> (rhs: Vec<Cons>)
    requires
        g.wf(),
        w.len() == g.padded_cells(),
        solid.len() == g.padded_cells(),
        mask.len() == g.padded_cells(),
    ensures
        rhs.len() == g.padded_cells(),
        are_rates(m, g, w@, solid@, mask@, n, gamma, rhs@),
{
    let mut rhs = zero_states(g.glen());
    let ghost zero = rhs@;
    sweep_z(m, w, solid, g, n, gamma, &mut rhs);
    let ghost mid = rhs@;
    sweep_r(m, w, solid, mask, g, n, gamma, &mut rhs);
    assert(axially_swept(m, g, w@, solid@, n, gamma, zero, mid));
    assert(radially_swept(m, g, w@, solid@, mask@, n, gamma, mid, rhs@));
    rhs
}

/// `v` is the raw result of a stage: an Euler step from `u0` in the first, the
/// mean of `u0` and an Euler step from `u1` in the second.
pub open spec fn accumulated<M: UpdateMath>(
    m: &M,
    u0: Seq<Cons>,
    u1: Option<&Vec<Cons>>,
    rhs: Seq<Cons>,
    dt: Scalar,
    solid: Seq<bool>,
    v: Seq<Cons>,
) -> bool {
    &&& v.len() == u0.len()
    &&& match u1 {
        None => forall|i: int|
            0 <= i < v.len() ==> update::is_advanced(
                m,
                solid[i],
                u0[i],
                rhs[i],
                dt,
                #[trigger] v[i],
            ),
        Some(b) => forall|i: int|
            0 <= i < v.len() ==> update::is_combined(
                m,
                solid[i],
                u0[i],
                b@[i],
                rhs[i],
                dt,
                #[trigger] v[i],
            ),
    }
}

/// The cells of `before` that landed on the floors were redone at first order.
pub open spec fn rescued<M: UpdateMath>(
    m: &M,
    g: &Grid,
    w: Seq<Prim>,
    solid: Seq<bool>,
    mask: Seq<bool>,
    n: Numerics,
    gamma: Scalar,
    dt: Scalar,
    u0: Seq<Cons>,
    u1: Option<&Vec<Cons>>,
    before: Seq<Cons>,
    after: Seq<Cons>,
) -> bool {
    exists|inv_z: Seq<Scalar>, rows: Seq<sweep::RowGeom>| #[trigger]
        update::all_redone(
            m,
            g,
            w,
            solid,
            mask,
            n,
            gamma,
            dt,
            inv_z,
            rows,
            u0,
            u1,
            before,
            after,
        )
}

/// `v` holds `u` lifted to the floors, and `hits` counts the cells that were
/// lifted.
pub open spec fn lifted<M: UpdateMath>(
    m: &M,
    u: Seq<Cons>,
    gamma: Scalar,
    v: Seq<Cons>,
    hits: int,
) -> bool {
    exists|flags: Seq<bool>| #[trigger]
        update::all_floored(m, u, gamma, flags, v) && hits == update::hits(
            flags,
            flags.len() as int,
        )
}

/// `v` is the result of a stage by way of the rates `rhs`, the raw result `raw`
/// and the rescued one `redone`.
pub open spec fn stage_by<M: UpdateMath>(
    m: &M,
    g: &Grid,
    u0: Seq<Cons>,
    u1: Option<&Vec<Cons>>,
    w: Seq<Prim>,
    solid: Seq<bool>,
    mask: Seq<bool>,
    n: Numerics,
    gamma: Scalar,
    dt: Scalar,
    rhs: Seq<Cons>,
    raw: Seq<Cons>,
    redone: Seq<Cons>,
    v: Seq<Cons>,
    hits: int,
) -> bool {
    &&& are_rates(m, g, w, solid, mask, n, gamma, rhs)
    &&& accumulated(m, u0, u1, rhs, dt, solid, raw)
    &&& rescued(m, g, w, solid, mask, n, gamma, dt, u0, u1, raw, redone)
    &&& lifted(m, redone, gamma, v, hits)
}

/// `v` is the result of a stage with the primitives `w`: rates, update, redo at
/// first order where that failed, and last the floors, which `hits` cells needed.
pub open spec fn is_stage<M: UpdateMath>(
    m: &M,
    g: &Grid,
    u0: Seq<Cons>,
    u1: Option<&Vec<Cons>>,
    w: Seq<Prim>,
    solid: Seq<bool>,
    mask: Seq<bool>,
    n: Numerics,
    gamma: Scalar,
    dt: Scalar,
    v: Seq<Cons>,
    hits: int,
) -> bool {
    exists|rhs: Seq<Cons>, raw: Seq<Cons>, redone: Seq<Cons>| #[trigger]
        stage_by(m, g, u0, u1, w, solid, mask, n, gamma, dt, rhs, raw, redone, v, hits)
}

/// Runs one stage and adds the cells that needed the floors to `floors`.
pub fn run_stage<M: UpdateMath + Sync>(
    m: &M,
    g: &Grid,
    u0: &Vec<Cons>,
    u1: Option<&Vec<Cons>>,
    w: &Vec<Prim>,
    solid: &Vec<bool>,
    mask: &Vec<bool>,
    n: Numerics,
    gamma: Scalar,
    dt: Scalar,
    floors: &mut u64,
) -> (v: Vec<Cons>)
    requires
        g.wf(),
        u0.len() == g.padded_cells(),
        u1 matches Some(b) ==> b.len() == g.padded_cells(),
        w.len() == g.padded_cells(),
        solid.len() == g.padded_cells(),
        mask.len() == g.padded_cells(),
        *old(floors) + g.padded_cells() <= u64::MAX,
    ensures
        v.len() == g.padded_cells(),
        *old(floors) <= *final(floors) <= *old(floors) + g.padded_cells(),
        is_stage(
            m,
            g,
            u0@,
            u1,
            w@,
            solid@,
            mask@,
            n,
            gamma,
            dt,
            v@,
            *final(floors) - *old(floors),
        ),
{
    let rhs = rates(m, g, w, solid, mask, n, gamma);
    let mut v = match u1 {
        None => accumulate(m, u0, &rhs, dt, solid),
        Some(b) => accumulate2(m, u0, b, &rhs, dt, solid),
    };
    let ghost raw = v@;
    redo_first_order(m, &mut v, u0, u1, w, solid, mask, g, n, gamma, dt);
    let ghost redone = v@;
    enforce_positivity(m, &mut v, gamma, floors);
    proof {
        let flags = choose|flags: Seq<bool>| #[trigger]
            update::all_floored(m, redone, gamma, flags, v@) && *floors == *old(floors)
                + update::hits(flags, flags.len() as int);
        lemma_hits_bounds(flags, flags.len() as int);
        assert(lifted(m, redone, gamma, v@, *floors - *old(floors)));
        assert(rescued(m, g, w@, solid@, mask@, n, gamma, dt, u0@, u1, raw, redone));
        assert(accumulated(m, u0@, u1, rhs@, dt, solid@, raw));
        assert(stage_by(
            m,
            g,
            u0@,
            u1,
            w@,
            solid@,
            mask@,
            n,
            gamma,
            dt,
            rhs@,
            raw,
            redone,
            v@,
            *floors - *old(floors),
        ));
    }
    v
}

proof fn lemma_hits_bounds(flags: Seq<bool>, n: int)
    requires
        0 <= n <= flags.len(),
    ensures
        0 <= update::hits(flags, n) <= n,
    decreases n,
{
    if n > 0 {
        lemma_hits_bounds(flags, n - 1);
    }
}

/// What a stage does to a cell: a fluid cell goes one full step from the start in the
/// first stage, and to the mean of the start and one full step from the first stage in
/// the second; a solid cell stays where it started. Then come the redo and, last of all,
/// the floors, which count.
pub proof fn law_stages_advance_fluid_cells<M: UpdateMath>(
    m: &M,
    g: &Grid,
    u0: Seq<Cons>,
    u1: Option<&Vec<Cons>>,
    w: Seq<Prim>,
    solid: Seq<bool>,
    mask: Seq<bool>,
    n: Numerics,
    gamma: Scalar,
    dt: Scalar,
    v: Seq<Cons>,
    hits: int,
    k: int,
) -> (r: (Seq<Cons>, Seq<Cons>, Seq<Cons>, Seq<bool>, Seq<Scalar>, Seq<sweep::RowGeom>))
    requires
        is_stage(m, g, u0, u1, w, solid, mask, n, gamma, dt, v, hits),
        0 <= k < u0.len(),
    ensures
        ({
            let (rhs, raw, redone, flags, inv_z, rows) = r;
            &&& are_rates(m, g, w, solid, mask, n, gamma, rhs)
            &&& solid[k] ==> raw[k] == u0[k]
            &&& !solid[k] && u1 is None ==> call_ensures(
                M::advance,
                (m, u0[k], rhs[k], dt),
                raw[k],
            )
            &&& u1 matches Some(b) ==> (!solid[k] ==> call_ensures(
                M::combine,
                (m, u0[k], b@[k], rhs[k], dt),
                raw[k],
            ))
            &&& update::all_redone(
                m,
                g,
                w,
                solid,
                mask,
                n,
                gamma,
                dt,
                inv_z,
                rows,
                u0,
                u1,
                raw,
                redone,
            )
            &&& v.len() == redone.len() == flags.len()
            &&& k < v.len() ==> update::floors_to(m, redone[k], gamma, v[k], flags[k])
            &&& hits == update::hits(flags, flags.len() as int)
        }),
{
    let (rhs, raw, redone) = choose|rhs: Seq<Cons>, raw: Seq<Cons>, redone: Seq<Cons>| #[trigger]
        stage_by(m, g, u0, u1, w, solid, mask, n, gamma, dt, rhs, raw, redone, v, hits);
    let flags = choose|flags: Seq<bool>| #[trigger]
        update::all_floored(m, redone, gamma, flags, v) && hits == update::hits(
            flags,
            flags.len() as int,
        );
    let (inv_z, rows) = choose|inv_z: Seq<Scalar>, rows: Seq<sweep::RowGeom>| #[trigger]
        update::all_redone(
            m,
            g,
            w,
            solid,
            mask,
            n,
            gamma,
            dt,
            inv_z,
            rows,
            u0,
            u1,
            raw,
            redone,
        );
    (rhs, raw, redone, flags, inv_z, rows)
}

/// The rates of a stage are made of both sweeps over nothing: what a cell gains and loses
/// along z, and then across it.
pub proof fn law_rates_take_both_sweeps<M: SweepMath>(
    m: &M,
    g: &Grid,
    w: Seq<Prim>,
    solid: Seq<bool>,
    mask: Seq<bool>,
    n: Numerics,
    gamma: Scalar,
    rhs: Seq<Cons>,
    k: int,
) -> (r: (
    Seq<Cons>,
    Seq<Cons>,
    Seq<Scalar>,
    Seq<FaceGeom>,
    Seq<Vec<Cons>>,
    Seq<FaceGeom>,
    Seq<Vec<Cons>>,
))
    requires
        are_rates(m, g, w, solid, mask, n, gamma, rhs),
        0 <= k < g.padded_cells(),
    ensures
        r.0[k].rho.bits == 0 && r.0[k].mz.bits == 0 && r.0[k].mr.bits == 0 && r.0[k].e.bits == 0,
        sweep::swept_z(m, g, w, solid, n, gamma, r.2, r.3, r.4, r.0, r.1),
        sweep::swept_r(m, g, w, solid, mask, n, gamma, r.5, r.6, r.1, rhs),
{
    let (zero, mid) = choose|zero: Seq<Cons>, mid: Seq<Cons>|
        {
            &&& #[trigger] axially_swept(m, g, w, solid, n, gamma, zero, mid)
            &&& zero.len() == g.padded_cells()
            &&& all_zero(zero)
            &&& radially_swept(m, g, w, solid, mask, n, gamma, mid, rhs)
        };
    let (inverses, zg, z_rows) = choose|
        inverses: Seq<Scalar>,
        zg: Seq<FaceGeom>,
        rows: Seq<Vec<Cons>>,
    | #[trigger]
        sweep::swept_z(m, g, w, solid, n, gamma, inverses, zg, rows, zero, mid);
    let (rg, r_rows) = choose|rg: Seq<FaceGeom>, rows: Seq<Vec<Cons>>| #[trigger]
        sweep::swept_r(m, g, w, solid, mask, n, gamma, rg, rows, mid, rhs);
    assert(zero[k] == sweep::no_flux());
    (zero, mid, inverses, zg, z_rows, rg, r_rows)
}

/// Gas at rest stays at rest: a stage leaves every cell of a field that holds one gas at
/// rest as it was, whatever bodies stand in it, where the formulas know such gas, no rate
/// makes no change and the gas is above the floors.
pub proof fn law_stages_keep_rest<M: UpdateMath>(
    m: &M,
    g: &Grid,
    u0: Seq<Cons>,
    u1: Option<&Vec<Cons>>,
    w: Seq<Prim>,
    solid: Seq<bool>,
    mask: Seq<bool>,
    n: Numerics,
    gamma: Scalar,
    dt: Scalar,
    v: Seq<Cons>,
    hits: int,
    q: Prim,
    c: Cons,
    iz: int,
    ir: int,
)
    requires
        g.wf(),
        is_stage(m, g, u0, u1, w, solid, mask, n, gamma, dt, v, hits),
        q.uz.bits == 0 && q.ur.bits == 0,
        q.rho.finite() && q.p.finite(),
        (Scalar { bits: crate::flow::P_MIN_ABS }).below(q.p),
        w.len() == g.padded_cells(),
        u0.len() == g.padded_cells(),
        forall|k: int| 0 <= k < w.len() ==> #[trigger] w[k] == q,
        forall|k: int| 0 <= k < u0.len() ==> #[trigger] u0[k] == c,
        u1 matches Some(b) ==> forall|k: int| 0 <= k < u0.len() ==> #[trigger] b@[k] == c,
        sweep::knows_rest(m, q, gamma),
        ({
            let zero = Scalar { bits: 0 };
            let still = Cons { rho: zero, mz: zero, mr: zero, e: zero };
            &&& sweep::balances_cancel(m, still)
            &&& forall|x: Cons| #[trigger] call_ensures(M::advance, (m, c, still, dt), x) ==> x == c
            &&& forall|x: Cons| #[trigger]
                call_ensures(M::combine, (m, c, c, still, dt), x) ==> x == c
        }),
        c.rho.finite() && c.mz.finite() && c.mr.finite() && c.e.finite(),
        (Scalar { bits: crate::flow::RHO_MIN }).below(c.rho),
        forall|kinetic: Scalar, p: Scalar| #[trigger]
            call_ensures(M::kinetic, (m, c.rho, c.mz, c.mr), kinetic) && #[trigger] call_ensures(
                M::pressure,
                (m, c.e, kinetic, gamma),
                p,
            ) ==> p.finite() && (Scalar { bits: crate::flow::P_MIN_ABS }).below(p),
        g.inside(iz, ir),
    ensures
        v[g.pad(iz, ir)] == c,
{
    let k = g.pad(iz, ir);
    crate::grid::law_padded_layout(g.nz as int, g.nr as int, iz, ir);
    let (rhs, raw, redone, flags, inv_z, rows) = law_stages_advance_fluid_cells(
        m,
        g,
        u0,
        u1,
        w,
        solid,
        mask,
        n,
        gamma,
        dt,
        v,
        hits,
        k,
    );
    let (zero, mid, inverses, zg, z_rows, rg, r_rows) = law_rates_take_both_sweeps(
        m,
        g,
        w,
        solid,
        mask,
        n,
        gamma,
        rhs,
        k,
    );
    let nil = Scalar { bits: 0 };
    let still = Cons { rho: nil, mz: nil, mr: nil, e: nil };
    assert(zero[k] == still);
    sweep::law_rest_stays_at_rest(
        m,
        g,
        w,
        solid,
        mask,
        n,
        gamma,
        inverses,
        zg,
        z_rows,
        rg,
        r_rows,
        zero,
        mid,
        rhs,
        q,
        still,
        iz,
        ir,
    );
    assert(raw[k] == c);
    let done = update::law_redone_cells_use_first_order(
        m,
        g,
        w,
        solid,
        mask,
        n,
        gamma,
        dt,
        inv_z,
        rows,
        u0,
        u1,
        raw,
        redone,
        iz,
        ir,
    );
    assert(redone[k] == c);
    update::law_floors_by_value(m, redone[k], gamma, v[k], flags[k]);
}

} // verus!
