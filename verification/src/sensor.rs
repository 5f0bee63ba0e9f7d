//! The shock sensor and the far-field damping.

use vstd::prelude::*;
use crate::field::{Ambient, GasModel};
use crate::flow;
use crate::flow::{ambient_state, Cons, FlowMath, Prim};
use crate::grid;
use crate::grid::{Grid, GridMath};
use crate::scalar::{Scalar, INFINITE, ONE, ZERO};

verus! {

/// The floating-point formulas of sensor and damping.
pub trait SensorMath: FlowMath + GridMath {
    /// The pressure below which a low next to the high `p` counts as a shock.
    fn shock_limit(&self, p: Scalar) -> Scalar;

    /// Strength of the damping over one step at radius `r_center`, in a layer
    /// from radius `entry` to the outer edge `edge`.
    fn damping(
        &self,
        dt: Scalar,
        ambient: Ambient,
        gamma: Scalar,
        entry: Scalar,
        edge: Scalar,
        r_center: Scalar,
    ) -> Scalar;

    /// The pressure above which the flow is more than the surroundings at `p`.
    fn entry_limit(&self, p: Scalar) -> Scalar;

    /// `u` moved towards `target` by a part `strength` of the way.
    fn relax(&self, u: Cons, target: Cons, strength: Scalar) -> Cons;
}

/// The lowest of the pressures from two columns before (iz, ir) to two after,
/// over the first `d`.
pub open spec fn window_low(g: &Grid, w: Seq<Prim>, iz: int, ir: int, d: int) -> Scalar
    decreases d,
{
    if d <= 0 {
        Scalar { bits: INFINITE }
    } else {
        window_low(g, w, iz, ir, d - 1).smaller(w[g.pad(iz + d - 3, ir)].p)
    }
}

/// The highest of the pressures from two columns before (iz, ir) to two after,
/// over the first `d`, no lower than zero.
pub open spec fn window_high(g: &Grid, w: Seq<Prim>, iz: int, ir: int, d: int) -> Scalar
    decreases d,
{
    if d <= 0 {
        Scalar { bits: ZERO }
    } else {
        window_high(g, w, iz, ir, d - 1).larger(w[g.pad(iz + d - 3, ir)].p)
    }
}

/// The axial velocity falls across the window around (iz, ir).
pub open spec fn compressing(g: &Grid, w: Seq<Prim>, iz: int, ir: int) -> bool {
    w[g.pad(iz + 2, ir)].uz.below(w[g.pad(iz - 2, ir)].uz)
}

/// `shock` tells whether a shock lies at (iz, ir): the flow is compressed and
/// the pressure in the window spans more than a smooth flow would.
pub open spec fn is_shock<M: SensorMath>(
    m: &M,
    g: &Grid,
    w: Seq<Prim>,
    iz: int,
    ir: int,
    shock: bool,
) -> bool {
    exists|limit: Scalar| #[trigger]
        call_ensures(M::shock_limit, (m, window_high(g, w, iz, ir, 5)), limit) && shock == (
        compressing(g, w, iz, ir) && window_low(g, w, iz, ir, 5).below(limit))
}

/// `shocks` tells for every interior cell whether a shock lies there.
pub open spec fn are_shocks<M: SensorMath>(
    m: &M,
    g: &Grid,
    w: Seq<Prim>,
    shocks: Seq<bool>,
) -> bool {
    &&& shocks.len() == g.cells()
    &&& forall|iz: int, ir: int| #[trigger]
        g.inside(iz, ir) ==> is_shock(m, g, w, iz, ir, shocks[g.at(iz, ir)])
}

/// A shock lies at column `iz` of row `ir`, which exists.
pub open spec fn shock_at(g: &Grid, shocks: Seq<bool>, iz: int, ir: int) -> bool {
    0 <= iz < g.nz && shocks[g.at(iz, ir)]
}

/// The mask of the shocks: each widened by one cell along its row, ghost cells
/// never masked.
pub open spec fn masks(g: &Grid, shocks: Seq<bool>, mask: Seq<bool>) -> bool {
    &&& mask.len() == g.padded_cells()
    &&& forall|iz: int, ir: int| #[trigger]
        g.in_pad(iz, ir) ==> mask[g.pad(iz, ir)] == (g.inside(iz, ir) && (shock_at(
            g,
            shocks,
            iz - 1,
            ir,
        ) || shock_at(g, shocks, iz, ir) || shock_at(g, shocks, iz + 1, ir)))
}

fn find_shock<M: SensorMath>(m: &M, g: &Grid, w: &Vec<Prim>, iz: usize, ir: usize) -> (r: bool)
    requires
        g.wf(),
        w.len() == g.padded_cells(),
        g.inside(iz as int, ir as int),
    ensures
        is_shock(m, g, w@, iz as int, ir as int, r),
{
    proof {
        grid::lemma_products_fit(g.nz as int, g.nr as int);
    }
    let mut low = Scalar { bits: INFINITE };
    let mut high = Scalar { bits: ZERO };
    let i: isize = iz as isize;
    let j: isize = ir as isize;
    let mut d: isize = 0;
    while d < 5
        invariant
            g.wf(),
            g.nz + 4 <= isize::MAX,
            g.nr + 4 <= isize::MAX,
            w.len() == g.padded_cells(),
            g.inside(iz as int, ir as int),
            i == iz,
            j == ir,
            0 <= d <= 5,
            low == window_low(g, w@, iz as int, ir as int, d as int),
            high == window_high(g, w@, iz as int, ir as int, d as int),
        decreases 5 - d,
    {
        let p = w[g.gidx(i + d - 2, j)].p;
        low = low.min(p);
        high = high.max(p);
        d = d + 1;
    }
    let after = w[g.gidx(i + 2, j)].uz;
    let before = w[g.gidx(i - 2, j)].uz;
    let limit = m.shock_limit(high);
    after.lt(before) && low.lt(limit)
}

/// Marks the cells next to a captured shock; their radial fluxes do without
/// contact resolution.
pub fn carbuncle_mask<M: SensorMath>(m: &M, w: &Vec<Prim>, g: &Grid) -> (mask: Vec<bool>)
    requires
        g.wf(),
        w.len() == g.padded_cells(),
    ensures
        exists|shocks: Seq<bool>| #[trigger]
            are_shocks(m, g, w@, shocks) && masks(g, shocks, mask@),
{
    let total: usize = g.len();
    let mut shocks: Vec<bool> = Vec::new();
    let mut k: usize = 0;
    while k < total
        invariant
            g.wf(),
            total == g.cells(),
            w.len() == g.padded_cells(),
            k <= total,
            shocks.len() == k,
            forall|j: int|
                0 <= j < k ==> is_shock(
                    m,
                    g,
                    w@,
                    j % (g.nz as int),
                    j / (g.nz as int),
                    #[trigger] shocks[j],
                ),
        decreases total - k,
    {
        proof {
            grid::law_interior_positions(g.nz as int, g.nr as int, k as int);
        }
        shocks.push(find_shock(m, g, w, k % g.nz, k / g.nz));
        k = k + 1;
    }
    proof {
        assert forall|iz: int, ir: int| #[trigger] g.inside(iz, ir) implies is_shock(
            m,
            g,
            w@,
            iz,
            ir,
            shocks@[g.at(iz, ir)],
        ) by {
            grid::law_interior_layout(g.nz as int, g.nr as int, iz, ir);
            assert(shocks@[g.at(iz, ir)] == shocks[g.at(iz, ir)]);
        }
        assert(are_shocks(m, g, w@, shocks@));
        grid::lemma_products_fit(g.nz as int, g.nr as int);
    }
    widen(g, &shocks)
}

fn widen(g: &Grid, shocks: &Vec<bool>) -> (mask: Vec<bool>)
    requires
        g.wf(),
        shocks.len() == g.cells(),
    ensures
        masks(g, shocks@, mask@),
{
    let n: usize = g.glen();
    let snz: usize = g.snz();
    let mut mask: Vec<bool> = Vec::new();
    let mut q: usize = 0;
    proof {
        grid::lemma_products_fit(g.nz as int, g.nr as int);
    }
    while q < n
        invariant
            g.wf(),
            n == g.padded_cells(),
            snz == g.nz + 4,
            shocks.len() == g.cells(),
            q <= n,
            mask.len() == q,
            forall|j: int|
                0 <= j < q ==> ({
                    let iz = j % (snz as int) - 2;
                    let ir = j / (snz as int) - 2;
                    #[trigger] mask[j] == (g.inside(iz, ir) && (shock_at(g, shocks@, iz - 1, ir)
                        || shock_at(g, shocks@, iz, ir) || shock_at(g, shocks@, iz + 1, ir)))
                }),
        decreases n - q,
    {
        proof {
            grid::law_padded_positions(g.nz as int, g.nr as int, q as int);
        }
        let column: usize = q % snz;
        let row: usize = q / snz;
        let value = if column >= 2 && column - 2 < g.nz && row >= 2 && row - 2 < g.nr {
            let iz: usize = column - 2;
            let ir: usize = row - 2;
            (iz > 0 && shocks[g.idx(iz - 1, ir)]) || shocks[g.idx(iz, ir)] || (iz + 1 < g.nz
                && shocks[g.idx(iz + 1, ir)])
        } else {
            false
        };
        mask.push(value);
        q = q + 1;
    }
    proof {
        assert forall|iz: int, ir: int| #[trigger] g.in_pad(iz, ir) implies mask@[g.pad(iz, ir)]
            == (g.inside(iz, ir) && (shock_at(g, shocks@, iz - 1, ir) || shock_at(
            g,
            shocks@,
            iz,
            ir,
        ) || shock_at(g, shocks@, iz + 1, ir))) by {
            grid::law_padded_layout(g.nz as int, g.nr as int, iz, ir);
            assert(mask@[g.pad(iz, ir)] == mask[g.pad(iz, ir)]);
        }
    }
    mask
}

/// An expansion is never masked: where the axial velocity falls nowhere in a
/// row, no cell of the row is marked.
pub proof fn law_expansions_are_not_masked<M: SensorMath>(
    m: &M,
    g: &Grid,
    w: Seq<Prim>,
    shocks: Seq<bool>,
    mask: Seq<bool>,
    iz: int,
    ir: int,
)
    requires
        g.wf(),
        are_shocks(m, g, w, shocks),
        masks(g, shocks, mask),
        g.inside(iz, ir),
        forall|jz: int| 0 <= jz < g.nz ==> !#[trigger] compressing(g, w, jz, ir),
    ensures
        !mask[g.pad(iz, ir)],
{
    assert(g.in_pad(iz, ir));
    assert(!compressing(g, w, iz, ir));
    assert(g.inside(iz, ir));
    if iz > 0 {
        assert(!compressing(g, w, iz - 1, ir));
        assert(g.inside(iz - 1, ir));
    }
    if iz + 1 < g.nz {
        assert(!compressing(g, w, iz + 1, ir));
        assert(g.inside(iz + 1, ir));
    }
}

/// The rows of the damping layer: the outermost `cells`, all rows at most.
pub open spec fn sponge_start(g: &Grid, cells: int) -> int {
    g.nr - grid::lesser(cells, g.nr as int)
}

/// `strength` is the strength of the damping in row `ir`, no more than all of
/// the way.
pub open spec fn is_strength<M: SensorMath>(
    m: &M,
    g: &Grid,
    dt: Scalar,
    ambient: Ambient,
    gamma: Scalar,
    entry: Scalar,
    edge: Scalar,
    ir: int,
    strength: Scalar,
) -> bool {
    exists|raw: Scalar| #[trigger]
        call_ensures(
            M::damping,
            (m, dt, ambient, gamma, entry, edge, g.r.centre[ir + 2]),
            raw,
        ) && strength == raw.smaller(Scalar { bits: ONE })
}

/// The state after damping: cells of the outermost rows are moved towards the
/// surroundings `ua`, everything else stays.
pub open spec fn sponged<M: SensorMath>(
    m: &M,
    g: &Grid,
    dt: Scalar,
    ambient: Ambient,
    gamma: Scalar,
    cells: int,
    ua: Cons,
    entry: Scalar,
    edge: Scalar,
    strengths: Seq<Scalar>,
    before: Seq<Cons>,
    after: Seq<Cons>,
) -> bool {
    let start = sponge_start(g, cells);
    &&& flow::is_ambient_state(m, ambient, gamma, ua)
    &&& call_ensures(M::narrow, (m, g.r_edges[start]), entry)
    &&& call_ensures(M::narrow, (m, g.r_edges@.last()), edge)
    &&& strengths.len() == g.nr
    &&& forall|ir: int|
        start <= ir < g.nr ==> is_strength(
            m,
            g,
            dt,
            ambient,
            gamma,
            entry,
            edge,
            ir,
            #[trigger] strengths[ir],
        )
    &&& after.len() == before.len()
    &&& forall|iz: int, ir: int| #[trigger]
        g.in_pad(iz, ir) ==> if g.inside(iz, ir) && ir >= start {
            call_ensures(
                M::relax,
                (m, before[g.pad(iz, ir)], ua, strengths[ir]),
                after[g.pad(iz, ir)],
            )
        } else {
            after[g.pad(iz, ir)] == before[g.pad(iz, ir)]
        }
}

/// The state after the damping of `cells` rows; zero switches it off.
pub open spec fn is_sponged<M: SensorMath>(
    m: &M,
    g: &Grid,
    dt: Scalar,
    ambient: Ambient,
    gamma: Scalar,
    cells: int,
    before: Seq<Cons>,
    after: Seq<Cons>,
) -> bool {
    if cells == 0 {
        after == before
    } else {
        exists|ua: Cons, entry: Scalar, edge: Scalar, strengths: Seq<Scalar>| #[trigger]
            sponged(
                m,
                g,
                dt,
                ambient,
                gamma,
                cells,
                ua,
                entry,
                edge,
                strengths,
                before,
                after,
            )
    }
}

/// Damps the outermost rows towards the surroundings, so that the radial far
/// field does not reflect. The downstream boundary is never damped.
pub fn apply_sponge<M: SensorMath>(
    m: &M,
    u: &mut Vec<Cons>,
    g: &Grid,
    dt: Scalar,
    ambient: Ambient,
    gas: GasModel,
    cells: usize,
)
    requires
        g.wf(),
        old(u).len() == g.padded_cells(),
    ensures
        final(u).len() == old(u).len(),
        is_sponged(m, g, dt, ambient, gas.gamma, cells as int, old(u)@, final(u)@),
{
    if cells == 0 {
        return;
    }
    proof {
        grid::lemma_products_fit(g.nz as int, g.nr as int);
    }
    let ghost before = u@;
    let depth: usize = if cells < g.nr {
        cells
    } else {
        g.nr
    };
    let start: usize = g.nr - depth;
    let ua = ambient_state(m, ambient, gas.gamma);
    let entry = g.r_face(m, start);
    let edge = m.narrow(g.lr());
    let mut strengths: Vec<Scalar> = Vec::new();
    let mut ir: usize = 0;
    while ir < g.nr
        invariant
            g.wf(),
            start <= g.nr,
            ir <= g.nr,
            strengths.len() == ir,
            forall|j: int|
                start <= j < ir ==> is_strength(
                    m,
                    g,
                    dt,
                    ambient,
                    gas.gamma,
                    entry,
                    edge,
                    j,
                    #[trigger] strengths[j],
                ),
        decreases g.nr - ir,
    {
        if ir < start {
            strengths.push(Scalar { bits: ZERO });
        } else {
            let raw = m.damping(dt, ambient, gas.gamma, entry, edge, g.r_center(ir));
            strengths.push(raw.min(Scalar { bits: ONE }));
        }
        ir = ir + 1;
    }
    let n: usize = g.glen();
    let snz: usize = g.snz();
    let mut q: usize = 0;
    while q < n
        invariant
            g.wf(),
            n == g.padded_cells(),
            snz == g.nz + 4,
            start <= g.nr,
            strengths.len() == g.nr,
            u.len() == n,
            before.len() == n,
            q <= n,
            forall|j: int|
                0 <= j < n ==> ({
                    let iz = j % (snz as int) - 2;
                    let ir = j / (snz as int) - 2;
                    if j < q && g.inside(iz, ir) && ir >= start {
                        call_ensures(M::relax, (m, before[j], ua, strengths[ir]), #[trigger] u[j])
                    } else {
                        u[j] == before[j]
                    }
                }),
        decreases n - q,
    {
        proof {
            grid::law_padded_positions(g.nz as int, g.nr as int, q as int);
        }
        let column: usize = q % snz;
        let row: usize = q / snz;
        if column >= 2 && column - 2 < g.nz && row >= 2 && row - 2 < g.nr && row - 2 >= start {
            let value = m.relax(u[q], ua, strengths[row - 2]);
            u.set(q, value);
        }
        q = q + 1;
    }
    proof {
        assert forall|iz: int, ir: int| #[trigger] g.in_pad(iz, ir) implies if g.inside(iz, ir)
            && ir >= start {
            call_ensures(
                M::relax,
                (m, before[g.pad(iz, ir)], ua, strengths[ir]),
                u@[g.pad(iz, ir)],
            )
        } else {
            u@[g.pad(iz, ir)] == before[g.pad(iz, ir)]
        } by {
            grid::law_padded_layout(g.nz as int, g.nr as int, iz, ir);
            assert(u@[g.pad(iz, ir)] == u[g.pad(iz, ir)]);
        }
        assert(sponged(
            m,
            g,
            dt,
            ambient,
            gas.gamma,
            cells as int,
            ua,
            entry,
            edge,
            strengths@,
            before,
            u@,
        ));
    }
}

/// `reached` tells whether a cell of the first row of the layer has a pressure
/// above `limit`; `prims` are the primitives of that row.
pub open spec fn row_reaches<M: SensorMath>(
    m: &M,
    g: &Grid,
    ambient: Ambient,
    gamma: Scalar,
    cells: int,
    u: Seq<Cons>,
    limit: Scalar,
    prims: Seq<Prim>,
    reached: bool,
) -> bool {
    let start = sponge_start(g, cells);
    &&& call_ensures(M::entry_limit, (m, ambient.p), limit)
    &&& prims.len() == g.nz
    &&& forall|iz: int|
        0 <= iz < g.nz ==> call_ensures(
            M::primitives,
            (m, u[g.pad(iz, start)], gamma),
            #[trigger] prims[iz],
        )
    &&& reached == exists|iz: int| 0 <= iz < g.nz && limit.below((#[trigger] prims[iz]).p)
}

/// `reached` tells whether the flow has reached a layer of `cells` rows.
pub open spec fn is_reached<M: SensorMath>(
    m: &M,
    g: &Grid,
    ambient: Ambient,
    gamma: Scalar,
    cells: int,
    u: Seq<Cons>,
    reached: bool,
) -> bool {
    if cells == 0 {
        !reached
    } else {
        exists|limit: Scalar, prims: Seq<Prim>| #[trigger]
            row_reaches(m, g, ambient, gamma, cells, u, limit, prims, reached)
    }
}

/// Whether the flow has reached the damped rows: then the far field is too small
/// and the damping spoils the flow. Without damped rows there is nothing to reach.
pub fn sponge_reached<M: SensorMath>(
    m: &M,
    u: &Vec<Cons>,
    g: &Grid,
    ambient: Ambient,
    gas: GasModel,
    cells: usize,
) -> (reached: bool)
    requires
        g.wf(),
        u.len() == g.padded_cells(),
    ensures
        is_reached(m, g, ambient, gas.gamma, cells as int, u@, reached),
{
    if cells == 0 {
        return false;
    }
    proof {
        grid::lemma_products_fit(g.nz as int, g.nr as int);
    }
    let depth: usize = if cells < g.nr {
        cells
    } else {
        g.nr
    };
    let start: usize = g.nr - depth;
    let limit = m.entry_limit(ambient.p);
    let mut prims: Vec<Prim> = Vec::new();
    let mut reached = false;
    let mut iz: usize = 0;
    while iz < g.nz
        invariant
            g.wf(),
            u.len() == g.padded_cells(),
            start < g.nr,
            iz <= g.nz,
            prims.len() == iz,
            forall|j: int|
                0 <= j < iz ==> call_ensures(
                    M::primitives,
                    (m, u@[g.pad(j, start as int)], gas.gamma),
                    #[trigger] prims[j],
                ),
            reached == exists|j: int| 0 <= j < iz && limit.below((#[trigger] prims[j]).p),
        decreases g.nz - iz,
    {
        proof {
            grid::lemma_products_fit(g.nz as int, g.nr as int);
        }
        let ghost was = prims@;
        let w = m.primitives(u[g.gidx(iz as isize, start as isize)], gas.gamma);
        prims.push(w);
        let above = limit.lt(w.p);
        proof {
            assert(prims@[iz as int] == w);
            assert forall|j: int| 0 <= j < iz implies #[trigger] prims@[j] == was[j] by {}
            if reached {
                let j = choose|j: int| 0 <= j < iz && limit.below((#[trigger] was[j]).p);
                assert(limit.below(prims@[j].p));
            }
        }
        reached = reached || above;
        iz = iz + 1;
    }
    assert(row_reaches(m, g, ambient, gas.gamma, cells as int, u@, limit, prims@, reached));
    reached
}

/// Damping leaves every row below the layer as it was.
pub proof fn law_sponge_spares_inner_rows<M: SensorMath>(
    m: &M,
    g: &Grid,
    dt: Scalar,
    ambient: Ambient,
    gamma: Scalar,
    cells: int,
    before: Seq<Cons>,
    after: Seq<Cons>,
    iz: int,
    ir: int,
)
    requires
        g.wf(),
        0 <= cells,
        is_sponged(m, g, dt, ambient, gamma, cells, before, after),
        g.inside(iz, ir),
        ir + cells < g.nr,
    ensures
        after[g.pad(iz, ir)] == before[g.pad(iz, ir)],
{
    assert(g.in_pad(iz, ir));
}

/// A cell is masked exactly when one of the interior cells next to it along its row, or
/// itself, holds a shock: the axial velocity falls from two columns before it to two
/// behind it, and the lowest of the five pressures there is below the limit of the
/// highest.
pub proof fn law_masks_mark_shocks<M: SensorMath>(
    m: &M,
    g: &Grid,
    w: Seq<Prim>,
    shocks: Seq<bool>,
    mask: Seq<bool>,
    iz: int,
    ir: int,
) -> (r: (Scalar, Scalar, Scalar))
    requires
        g.wf(),
        are_shocks(m, g, w, shocks),
        masks(g, shocks, mask),
        g.inside(iz, ir),
    ensures
        mask[g.pad(iz, ir)] <==> (iz > 0 && shocks[g.at(iz - 1, ir)]) || shocks[g.at(iz, ir)] || (iz
            + 1 < g.nz && shocks[g.at(iz + 1, ir)]),
        ({
            let (low, high, limit) = r;
            &&& call_ensures(M::shock_limit, (m, high), limit)
            &&& forall|j: int|
                iz - 2 <= j <= iz + 2 ==> !(#[trigger] w[g.pad(j, ir)]).p.below(low)
                    && !high.below(w[g.pad(j, ir)].p)
            &&& low.bits == INFINITE || exists|j: int|
                iz - 2 <= j <= iz + 2 && low == (#[trigger] w[g.pad(j, ir)]).p
            &&& high.bits == ZERO || exists|j: int|
                iz - 2 <= j <= iz + 2 && high == (#[trigger] w[g.pad(j, ir)]).p
            &&& shocks[g.at(iz, ir)] <==> w[g.pad(iz + 2, ir)].uz.below(w[g.pad(iz - 2, ir)].uz)
                && low.below(limit)
        }),
{
    assert(g.in_pad(iz, ir));
    assert(is_shock(m, g, w, iz, ir, shocks[g.at(iz, ir)]));
    let high = window_high(g, w, iz, ir, 5);
    let low = window_low(g, w, iz, ir, 5);
    let limit = choose|limit: Scalar| #[trigger]
        call_ensures(M::shock_limit, (m, high), limit) && shocks[g.at(iz, ir)] == (compressing(
            g,
            w,
            iz,
            ir,
        ) && low.below(limit));
    lemma_window(g, w, iz, ir, 5);
    (low, high, limit)
}

proof fn lemma_window(g: &Grid, w: Seq<Prim>, iz: int, ir: int, d: int)
    requires
        0 <= d,
    ensures
        !window_low(g, w, iz, ir, d).nan(),
        !window_high(g, w, iz, ir, d).nan(),
        forall|j: int|
            iz - 2 <= j < iz - 2 + d ==> !(#[trigger] w[g.pad(j, ir)]).p.below(
                window_low(g, w, iz, ir, d),
            ) && !window_high(g, w, iz, ir, d).below(w[g.pad(j, ir)].p),
        window_low(g, w, iz, ir, d).bits == INFINITE || exists|j: int|
            iz - 2 <= j < iz - 2 + d && window_low(g, w, iz, ir, d) == (#[trigger] w[g.pad(j, ir)]).p,
        window_high(g, w, iz, ir, d).bits == ZERO || exists|j: int|
            iz - 2 <= j < iz - 2 + d && window_high(g, w, iz, ir, d) == (#[trigger] w[g.pad(
                j,
                ir,
            )]).p,
    decreases d,
{
    if d > 0 {
        lemma_window(g, w, iz, ir, d - 1);
        let p = w[g.pad(iz + d - 3, ir)].p;
        assert(window_low(g, w, iz, ir, d) == window_low(g, w, iz, ir, d - 1) || window_low(
            g,
            w,
            iz,
            ir,
            d,
        ) == p);
        assert(window_high(g, w, iz, ir, d) == window_high(g, w, iz, ir, d - 1) || window_high(
            g,
            w,
            iz,
            ir,
            d,
        ) == p);
    }
}

/// Damping pulls the cells of the outermost rows towards the surroundings at rest, each by
/// the strength of its own radius in the layer, and never past them.
pub proof fn law_sponge_pulls_to_the_surroundings<M: SensorMath>(
    m: &M,
    g: &Grid,
    dt: Scalar,
    ambient: Ambient,
    gamma: Scalar,
    cells: int,
    before: Seq<Cons>,
    after: Seq<Cons>,
    iz: int,
    ir: int,
) -> (r: (Scalar, Cons, Scalar, Scalar, Scalar, Scalar))
    requires
        g.wf(),
        0 < cells <= g.nr,
        is_sponged(m, g, dt, ambient, gamma, cells, before, after),
        g.inside(iz, ir),
        ir + cells >= g.nr,
    ensures
        ({
            let (rho, ua, entry, edge, raw, strength) = r;
            let zero = Scalar { bits: ZERO };
            let one = Scalar { bits: ONE };
            &&& call_ensures(M::gas_density, (m, ambient.p, ambient.t), rho)
            &&& call_ensures(
                M::conserved,
                (m, Prim { rho, uz: zero, ur: zero, p: ambient.p }, gamma),
                ua,
            )
            &&& call_ensures(M::narrow, (m, g.r_edges[g.nr - cells]), entry)
            &&& call_ensures(M::narrow, (m, g.r_edges[g.nr as int]), edge)
            &&& call_ensures(
                M::damping,
                (m, dt, ambient, gamma, entry, edge, g.r.centre[ir + 2]),
                raw,
            )
            &&& raw.at_most(one) ==> strength == raw
            &&& !raw.at_most(one) ==> strength == one
            &&& call_ensures(
                M::relax,
                (m, before[g.pad(iz, ir)], ua, strength),
                after[g.pad(iz, ir)],
            )
        }),
{
    let (ua, entry, edge, strengths) = choose|
        ua: Cons,
        entry: Scalar,
        edge: Scalar,
        strengths: Seq<Scalar>,
    | #[trigger]
        sponged(m, g, dt, ambient, gamma, cells, ua, entry, edge, strengths, before, after);
    let rho = choose|rho: Scalar| #[trigger]
        call_ensures(M::gas_density, (m, ambient.p, ambient.t), rho) && call_ensures(
            M::conserved,
            (m, flow::still(rho, ambient.p), gamma),
            ua,
        );
    assert(is_strength(m, g, dt, ambient, gamma, entry, edge, ir, strengths[ir]));
    let raw = choose|raw: Scalar| #[trigger]
        call_ensures(
            M::damping,
            (m, dt, ambient, gamma, entry, edge, g.r.centre[ir + 2]),
            raw,
        ) && strengths[ir] == raw.smaller(Scalar { bits: ONE });
    assert(g.in_pad(iz, ir));
    assert(!(Scalar { bits: ONE }).nan());
    (rho, ua, entry, edge, raw, strengths[ir])
}

/// The flow has reached the damped rows exactly when a cell of the innermost of them has a
/// pressure above the limit of the surroundings.
pub proof fn law_the_sponge_is_reached<M: SensorMath>(
    m: &M,
    g: &Grid,
    ambient: Ambient,
    gamma: Scalar,
    cells: int,
    u: Seq<Cons>,
    reached: bool,
) -> (r: (Scalar, Seq<Prim>))
    requires
        g.wf(),
        0 <= cells <= g.nr,
        is_reached(m, g, ambient, gamma, cells, u, reached),
    ensures
        cells == 0 ==> !reached,
        cells > 0 ==> {
            &&& call_ensures(M::entry_limit, (m, ambient.p), r.0)
            &&& r.1.len() == g.nz
            &&& forall|iz: int|
                0 <= iz < g.nz ==> call_ensures(
                    M::primitives,
                    (m, u[g.pad(iz, g.nr - cells)], gamma),
                    #[trigger] r.1[iz],
                )
            &&& reached <==> exists|iz: int| 0 <= iz < g.nz && r.0.below((#[trigger] r.1[iz]).p)
        },
{
    let (limit, prims) = choose|limit: Scalar, prims: Seq<Prim>| #[trigger]
        row_reaches(m, g, ambient, gamma, cells, u, limit, prims, reached);
    (limit, prims)
}

} // verus!
