//! Edits of the solid field in the middle of a run.
//!
//! Cells that close lose their contents. Cells that open are filled, at rest,
//! wave by wave from the fluid next to them; a cell that no wave reaches takes
//! the nearest fluid there is. Every cell that changes is booked once.

use vstd::prelude::*;
use vstd::seq_lib::*;
use crate::field::{Ambient, GasModel, SolidField};
use crate::flow;
use crate::flow::{ambient_state, Cons, FlowMath, Prim};
use crate::grid;
use crate::grid::{Grid, GridMath};
use crate::padded;
use crate::padded::{gather, scatter};
use crate::scalar::{Scalar, ZERO};
use crate::walk;
use crate::walk::{nearest_marked, UNMET};

verus! {

/// A cell that changed between fluid and solid, with the state that left with it
/// or came into it.
#[derive(Debug, Clone, Copy, PartialEq)]
pub struct Flip {
    pub cell: usize,
    pub closing: bool,
    pub state: Cons,
}

/// Fluid before, solid after.
pub open spec fn closes(old_field: &SolidField, new_field: &SolidField, k: int) -> bool {
    !old_field.solid(k) && new_field.solid(k)
}

/// Solid before, fluid after.
pub open spec fn opens(old_field: &SolidField, new_field: &SolidField, k: int) -> bool {
    old_field.solid(k) && !new_field.solid(k)
}

/// Fluid before and after.
pub open spec fn stays(old_field: &SolidField, new_field: &SolidField, k: int) -> bool {
    !old_field.solid(k) && !new_field.solid(k)
}

/// The trusted neighbours of a cell among the first `d` directions, in order.
pub open spec fn sources(g: &Grid, valid: Seq<bool>, k: int, d: int) -> Seq<usize>
    decreases d,
{
    if d <= 0 {
        Seq::empty()
    } else {
        match grid::neighbour(g.nz as int, g.nr as int, k, d - 1) {
            Some(j) => if valid[j] {
                sources(g, valid, k, d - 1).push(j as usize)
            } else {
                sources(g, valid, k, d - 1)
            },
            None => sources(g, valid, k, d - 1),
        }
    }
}

/// `out` is gas at rest with the mean density `rho` and the mean pressure `p` of
/// the source cells.
pub open spec fn averages<M: FlowMath>(
    m: &M,
    gamma: Scalar,
    s: Seq<Cons>,
    from: Seq<usize>,
    ws: Seq<Prim>,
    rhos: Vec<Scalar>,
    ps: Vec<Scalar>,
    rho: Scalar,
    p: Scalar,
    out: Cons,
) -> bool {
    &&& ws.len() == from.len()
    &&& rhos@.len() == from.len()
    &&& ps@.len() == from.len()
    &&& forall|i: int|
        0 <= i < from.len() ==> {
            &&& call_ensures(M::primitives, (m, s[from[i] as int], gamma), #[trigger] ws[i])
            &&& rhos@[i] == ws[i].rho
            &&& ps@[i] == ws[i].p
        }
    &&& call_ensures(M::mean, (m, &rhos), rho)
    &&& call_ensures(M::mean, (m, &ps), p)
    &&& call_ensures(M::conserved, (m, flow::still(rho, p), gamma), out)
}

/// `out` is gas at rest, averaged over the source cells.
pub open spec fn is_fill<M: FlowMath>(
    m: &M,
    gamma: Scalar,
    s: Seq<Cons>,
    from: Seq<usize>,
    out: Cons,
) -> bool {
    exists|ws: Seq<Prim>, rhos: Vec<Scalar>, ps: Vec<Scalar>, rho: Scalar, p: Scalar| #[trigger]
        averages(m, gamma, s, from, ws, rhos, ps, rho, p, out)
}

/// An opened cell that is still empty and has trusted fluid next to it.
pub open spec fn fillable(
    old_field: &SolidField,
    new_field: &SolidField,
    valid: Seq<bool>,
    k: int,
) -> bool {
    &&& opens(old_field, new_field, k)
    &&& !valid[k]
    &&& sources(&new_field.grid, valid, k, 4).len() > 0
}

/// Some cell can be filled.
pub open spec fn some_fillable(
    old_field: &SolidField,
    new_field: &SolidField,
    valid: Seq<bool>,
) -> bool {
    exists|k: int|
        0 <= k < new_field.grid.cells() && #[trigger] fillable(old_field, new_field, valid, k)
}

/// What one wave does to one cell.
pub open spec fn wave_at<M: FlowMath>(
    m: &M,
    old_field: &SolidField,
    new_field: &SolidField,
    gamma: Scalar,
    v0: Seq<bool>,
    s0: Seq<Cons>,
    v1: Seq<bool>,
    s1: Seq<Cons>,
    k: int,
) -> bool {
    if fillable(old_field, new_field, v0, k) {
        v1[k] && is_fill(m, gamma, s0, sources(&new_field.grid, v0, k, 4), s1[k])
    } else {
        v1[k] == v0[k] && s1[k] == s0[k]
    }
}

/// One wave: every cell that can be filled is filled from what was there before
/// the wave, and nothing else changes.
pub open spec fn wave<M: FlowMath>(
    m: &M,
    old_field: &SolidField,
    new_field: &SolidField,
    gamma: Scalar,
    v0: Seq<bool>,
    s0: Seq<Cons>,
    v1: Seq<bool>,
    s1: Seq<Cons>,
) -> bool {
    &&& v1.len() == new_field.grid.cells()
    &&& s1.len() == new_field.grid.cells()
    &&& forall|k: int|
        0 <= k < new_field.grid.cells() ==> #[trigger] wave_at(
            m,
            old_field,
            new_field,
            gamma,
            v0,
            s0,
            v1,
            s1,
            k,
        )
}

/// The field before the first wave: closed cells hold the ambient state `ua`,
/// and the fluid that was there before and still is can be trusted.
pub open spec fn surveyed(
    old_field: &SolidField,
    new_field: &SolidField,
    ua: Cons,
    u0: Seq<Cons>,
    valid: Seq<bool>,
    s: Seq<Cons>,
) -> bool {
    &&& valid.len() == new_field.grid.cells()
    &&& s.len() == new_field.grid.cells()
    &&& forall|k: int|
        0 <= k < valid.len() ==> #[trigger] valid[k] == stays(old_field, new_field, k)
    &&& forall|k: int|
        0 <= k < s.len() ==> #[trigger] s[k] == if closes(old_field, new_field, k) {
            ua
        } else {
            u0[k]
        }
}

/// The field after `n` waves, each of which filled something.
pub open spec fn after_waves<M: FlowMath>(
    m: &M,
    old_field: &SolidField,
    new_field: &SolidField,
    gamma: Scalar,
    ua: Cons,
    u0: Seq<Cons>,
    n: nat,
    valid: Seq<bool>,
    s: Seq<Cons>,
) -> bool
    decreases n,
{
    if n == 0 {
        surveyed(old_field, new_field, ua, u0, valid, s)
    } else {
        exists|v0: Seq<bool>, s0: Seq<Cons>|
            {
                &&& #[trigger] wave(m, old_field, new_field, gamma, v0, s0, valid, s)
                &&& some_fillable(old_field, new_field, v0)
                &&& after_waves(m, old_field, new_field, gamma, ua, u0, (n - 1) as nat, v0, s0)
            }
    }
}

/// The field after as many waves as fill anything.
pub open spec fn flooded<M: FlowMath>(
    m: &M,
    old_field: &SolidField,
    new_field: &SolidField,
    gamma: Scalar,
    ua: Cons,
    u0: Seq<Cons>,
    valid: Seq<bool>,
    s: Seq<Cons>,
) -> bool {
    &&& !some_fillable(old_field, new_field, valid)
    &&& exists|n: nat| #[trigger]
        after_waves(m, old_field, new_field, gamma, ua, u0, n, valid, s)
}

/// `out` is gas at rest with the density and pressure of `u`.
pub open spec fn is_stilled<M: FlowMath>(m: &M, gamma: Scalar, u: Cons, out: Cons) -> bool {
    exists|w: Prim| #[trigger]
        call_ensures(M::primitives, (m, u, gamma), w) && call_ensures(
            M::conserved,
            (m, flow::still(w.rho, w.p), gamma),
            out,
        )
}

/// A cell that no wave has reached.
pub open spec fn sealed(
    old_field: &SolidField,
    new_field: &SolidField,
    valid: Seq<bool>,
    k: int,
) -> bool {
    opens(old_field, new_field, k) && !valid[k]
}

/// What becomes of one cell after the waves.
pub open spec fn sealed_at<M: FlowMath>(
    m: &M,
    old_field: &SolidField,
    new_field: &SolidField,
    gamma: Scalar,
    ua: Cons,
    valid: Seq<bool>,
    s: Seq<Cons>,
    near: Seq<usize>,
    u1: Seq<Cons>,
    k: int,
) -> bool {
    if sealed(old_field, new_field, valid, k) {
        if near[k] == UNMET {
            u1[k] == ua
        } else {
            is_stilled(m, gamma, s[near[k] as int], u1[k])
        }
    } else {
        u1[k] == s[k]
    }
}

/// Cells that no wave has reached take the nearest trusted fluid, at rest, or
/// the ambient state where there is no trusted fluid at all.
pub open spec fn sealed_cells_filled<M: FlowMath>(
    m: &M,
    old_field: &SolidField,
    new_field: &SolidField,
    gamma: Scalar,
    ua: Cons,
    valid: Seq<bool>,
    s: Seq<Cons>,
    u1: Seq<Cons>,
) -> bool {
    &&& u1.len() == s.len()
    &&& if exists|k: int|
        0 <= k < s.len() && #[trigger] sealed(old_field, new_field, valid, k) {
        exists|near: Seq<usize>|
            #[trigger] walk::is_nearest(&new_field.grid, valid, near) && forall|k: int|
                0 <= k < s.len() ==> #[trigger] sealed_at(
                    m,
                    old_field,
                    new_field,
                    gamma,
                    ua,
                    valid,
                    s,
                    near,
                    u1,
                    k,
                )
    } else {
        u1 == s
    }
}

/// The interior after an edit of the solid field.
pub open spec fn refilled<M: FlowMath>(
    m: &M,
    old_field: &SolidField,
    new_field: &SolidField,
    gamma: Scalar,
    ua: Cons,
    u0: Seq<Cons>,
    u1: Seq<Cons>,
) -> bool {
    exists|valid: Seq<bool>, s: Seq<Cons>|
        {
            &&& #[trigger] flooded(m, old_field, new_field, gamma, ua, u0, valid, s)
            &&& sealed_cells_filled(m, old_field, new_field, gamma, ua, valid, s, u1)
        }
}

/// Some entry is about cell `k`.
pub open spec fn booked(flips: Seq<Flip>, k: int) -> bool {
    exists|i: int| 0 <= i < flips.len() && (#[trigger] flips[i]).cell == k
}

/// One entry for every cell that closed or opened and none for any other: the
/// state that a closing cell lost, the state that an opening cell received.
pub open spec fn books(
    old_field: &SolidField,
    new_field: &SolidField,
    u0: Seq<Cons>,
    u1: Seq<Cons>,
    flips: Seq<Flip>,
) -> bool {
    &&& forall|i: int, j: int|
        0 <= i < j < flips.len() ==> (#[trigger] flips[i]).cell != (#[trigger] flips[j]).cell
    &&& forall|i: int|
        0 <= i < flips.len() ==> {
            let f = #[trigger] flips[i];
            &&& f.cell < new_field.grid.cells()
            &&& if f.closing {
                closes(old_field, new_field, f.cell as int) && f.state == u0[f.cell as int]
            } else {
                opens(old_field, new_field, f.cell as int) && f.state == u1[f.cell as int]
            }
        }
    &&& forall|k: int|
        0 <= k < new_field.grid.cells() && (closes(old_field, new_field, k) || opens(
            old_field,
            new_field,
            k,
        )) ==> #[trigger] booked(flips, k)
}

/// The cells stand in ascending order, which is row by row.
pub open spec fn ascends(cells: Seq<usize>) -> bool {
    forall|i: int, j: int| 0 <= i < j < cells.len() ==> #[trigger] cells[i] < #[trigger] cells[j]
}

/// `cells` are the cells that close, in ascending order.
pub open spec fn lists_closing(
    old_field: &SolidField,
    new_field: &SolidField,
    cells: Seq<usize>,
) -> bool {
    &&& ascends(cells)
    &&& forall|i: int|
        0 <= i < cells.len() ==> #[trigger] cells[i] < new_field.grid.cells() && closes(
            old_field,
            new_field,
            cells[i] as int,
        )
    &&& forall|k: int|
        0 <= k < new_field.grid.cells() && #[trigger] closes(old_field, new_field, k)
            ==> cells.contains(k as usize)
}

/// `cells` are the cells that the next wave fills, in ascending order.
pub open spec fn lists_wave(
    old_field: &SolidField,
    new_field: &SolidField,
    valid: Seq<bool>,
    cells: Seq<usize>,
) -> bool {
    &&& ascends(cells)
    &&& forall|i: int|
        0 <= i < cells.len() ==> #[trigger] cells[i] < new_field.grid.cells() && fillable(
            old_field,
            new_field,
            valid,
            cells[i] as int,
        )
    &&& forall|k: int|
        0 <= k < new_field.grid.cells() && #[trigger] fillable(old_field, new_field, valid, k)
            ==> cells.contains(k as usize)
}

/// `cells` are the cells that no wave has reached, in ascending order.
pub open spec fn lists_sealed(
    old_field: &SolidField,
    new_field: &SolidField,
    valid: Seq<bool>,
    cells: Seq<usize>,
) -> bool {
    &&& ascends(cells)
    &&& forall|i: int|
        0 <= i < cells.len() ==> #[trigger] cells[i] < new_field.grid.cells() && sealed(
            old_field,
            new_field,
            valid,
            cells[i] as int,
        )
    &&& forall|k: int|
        0 <= k < new_field.grid.cells() && #[trigger] sealed(old_field, new_field, valid, k)
            ==> cells.contains(k as usize)
}

/// A wave takes the trusted cells from `v0` to `v1` and the booked cells from
/// `before` to `after`.
pub open spec fn wave_booked(
    old_field: &SolidField,
    new_field: &SolidField,
    v0: Seq<bool>,
    before: Seq<usize>,
    cells: Seq<usize>,
    v1: Seq<bool>,
    after: Seq<usize>,
) -> bool {
    &&& lists_wave(old_field, new_field, v0, cells)
    &&& after == before + cells
    &&& v1.len() == new_field.grid.cells()
    &&& forall|k: int|
        0 <= k < v1.len() ==> #[trigger] v1[k] == (v0[k] || fillable(
            old_field,
            new_field,
            v0,
            k,
        ))
}

/// The cells booked after `n` waves, in their order: those that close, then those
/// of each wave in turn.
pub open spec fn booked_after(
    old_field: &SolidField,
    new_field: &SolidField,
    n: nat,
    valid: Seq<bool>,
    cells: Seq<usize>,
) -> bool
    decreases n,
{
    if n == 0 {
        &&& lists_closing(old_field, new_field, cells)
        &&& valid.len() == new_field.grid.cells()
        &&& forall|k: int|
            0 <= k < valid.len() ==> #[trigger] valid[k] == stays(old_field, new_field, k)
    } else {
        exists|v0: Seq<bool>, before: Seq<usize>, wave: Seq<usize>| #[trigger]
            wave_booked(old_field, new_field, v0, before, wave, valid, cells) && booked_after(
                old_field,
                new_field,
                (n - 1) as nat,
                v0,
                before,
            )
    }
}

/// The cells of a list of entries.
pub open spec fn cells_of(flips: Seq<Flip>) -> Seq<usize> {
    Seq::new(flips.len(), |i: int| flips[i].cell)
}

/// The books after all waves and the cells that none of them reached.
pub open spec fn closed_books(
    old_field: &SolidField,
    new_field: &SolidField,
    n: nat,
    valid: Seq<bool>,
    before: Seq<usize>,
    rest: Seq<usize>,
    flips: Seq<Flip>,
) -> bool {
    &&& booked_after(old_field, new_field, n, valid, before)
    &&& !some_fillable(old_field, new_field, valid)
    &&& lists_sealed(old_field, new_field, valid, rest)
    &&& cells_of(flips) == before + rest
}

/// The order of the entries: the cells that close, then the cells of each wave in
/// turn, then the cells that no wave has reached, each of them in ascending order.
pub open spec fn in_order(
    old_field: &SolidField,
    new_field: &SolidField,
    flips: Seq<Flip>,
) -> bool {
    exists|n: nat, valid: Seq<bool>, before: Seq<usize>, rest: Seq<usize>| #[trigger]
        closed_books(old_field, new_field, n, valid, before, rest, flips)
}

proof fn lemma_booked_push(flips: Seq<Flip>, f: Flip)
    ensures
        forall|k: int| #[trigger]
            booked(flips.push(f), k) <==> booked(flips, k) || k == f.cell,
{
    let after = flips.push(f);
    assert forall|k: int| booked(flips, k) || k == f.cell implies #[trigger] booked(after, k) by {
        if booked(flips, k) {
            let i = choose|i: int| 0 <= i < flips.len() && (#[trigger] flips[i]).cell == k;
            assert(after[i].cell == k);
        } else {
            assert(after[flips.len() as int].cell == k);
        }
    }
    assert forall|k: int| #[trigger] booked(after, k) implies booked(flips, k) || k == f.cell by {
        let i = choose|i: int| 0 <= i < after.len() && (#[trigger] after[i]).cell == k;
        if i < flips.len() {
            assert(flips[i].cell == k);
        }
    }
}

/// The trusted neighbours of a cell, in order.
fn trusted_neighbours(g: &Grid, valid: &Vec<bool>, k: usize) -> (r: Vec<usize>)
    requires
        g.wf(),
        valid.len() == g.cells(),
        k < g.cells(),
    ensures
        r@ == sources(g, valid@, k as int, 4),
        forall|i: int| 0 <= i < r.len() ==> #[trigger] r[i] < g.cells(),
{
    let mut r: Vec<usize> = Vec::new();
    let mut d: usize = 0;
    while d < 4
        invariant
            g.wf(),
            valid.len() == g.cells(),
            k < g.cells(),
            d <= 4,
            r@ == sources(g, valid@, k as int, d as int),
            forall|i: int| 0 <= i < r.len() ==> #[trigger] r[i] < g.cells(),
        decreases 4 - d,
    {
        match g.neighbour(k, d) {
            Some(j) => {
                if valid[j] {
                    r.push(j);
                }
            },
            None => {},
        }
        d = d + 1;
    }
    r
}

/// Gas at rest, averaged over the source cells.
fn average<M: FlowMath>(m: &M, gamma: Scalar, u: &Vec<Cons>, from: &Vec<usize>) -> (out: Cons)
    requires
        forall|i: int| 0 <= i < from.len() ==> #[trigger] from[i] < u.len(),
    ensures
        is_fill(m, gamma, u@, from@, out),
{
    let mut rhos: Vec<Scalar> = Vec::new();
    let mut ps: Vec<Scalar> = Vec::new();
    let ghost mut ws: Seq<Prim> = Seq::empty();
    let mut i: usize = 0;
    while i < from.len()
        invariant
            i <= from.len(),
            rhos.len() == i,
            ps.len() == i,
            ws.len() == i,
            forall|j: int| 0 <= j < from.len() ==> #[trigger] from[j] < u.len(),
            forall|j: int|
                0 <= j < i ==> {
                    &&& call_ensures(M::primitives, (m, u[from[j] as int], gamma), #[trigger] ws[j])
                    &&& rhos@[j] == ws[j].rho
                    &&& ps@[j] == ws[j].p
                },
        decreases from.len() - i,
    {
        let w = m.primitives(u[from[i]], gamma);
        rhos.push(w.rho);
        ps.push(w.p);
        proof {
            ws = ws.push(w);
        }
        i = i + 1;
    }
    let rho = m.mean(&rhos);
    let p = m.mean(&ps);
    let zero = Scalar { bits: ZERO };
    let out = m.conserved(Prim { rho, uz: zero, ur: zero, p }, gamma);
    assert(averages(m, gamma, u@, from@, ws, rhos, ps, rho, p, out));
    out
}

/// `open` lists the cells that still have to be filled, in ascending order.
spec fn lists_open(
    old_field: &SolidField,
    new_field: &SolidField,
    valid: Seq<bool>,
    open: Seq<usize>,
) -> bool {
    &&& forall|i: int|
        0 <= i < open.len() ==> #[trigger] open[i] < new_field.grid.cells() && sealed(
            old_field,
            new_field,
            valid,
            open[i] as int,
        )
    &&& forall|i: int, j: int| 0 <= i < j < open.len() ==> #[trigger] open[i] < #[trigger] open[j]
    &&& forall|k: int|
        0 <= k < new_field.grid.cells() && #[trigger] sealed(old_field, new_field, valid, k)
            ==> open.contains(k as usize)
}

/// The entries made so far: every closed cell and every opened cell that is
/// filled, once.
spec fn books_so_far(
    old_field: &SolidField,
    new_field: &SolidField,
    valid: Seq<bool>,
    u0: Seq<Cons>,
    s: Seq<Cons>,
    flips: Seq<Flip>,
) -> bool {
    &&& forall|i: int, j: int|
        0 <= i < j < flips.len() ==> (#[trigger] flips[i]).cell != (#[trigger] flips[j]).cell
    &&& forall|i: int|
        0 <= i < flips.len() ==> {
            let f = #[trigger] flips[i];
            &&& f.cell < new_field.grid.cells()
            &&& if f.closing {
                closes(old_field, new_field, f.cell as int) && f.state == u0[f.cell as int]
            } else {
                opens(old_field, new_field, f.cell as int) && f.state == s[f.cell as int]
            }
        }
    &&& forall|k: int|
        0 <= k < new_field.grid.cells() ==> (#[trigger] booked(flips, k) <==> closes(
            old_field,
            new_field,
            k,
        ) || (opens(old_field, new_field, k) && valid[k]))
}

/// Both fields are over one grid.
pub open spec fn same_cells(old_field: &SolidField, new_field: &SolidField) -> bool {
    &&& old_field.wf()
    &&& new_field.wf()
    &&& old_field.grid.nz == new_field.grid.nz
    &&& old_field.grid.nr == new_field.grid.nr
}

/// Finds the cells that close, open and stay; closed cells get the ambient state.
fn survey(
    old_field: &SolidField,
    new_field: &SolidField,
    ua: Cons,
    u: &mut Vec<Cons>,
) -> (r: (Vec<bool>, Vec<usize>, Vec<Flip>))
    requires
        same_cells(old_field, new_field),
        old(u).len() == new_field.grid.cells(),
    ensures
        surveyed(old_field, new_field, ua, old(u)@, r.0@, final(u)@),
        lists_open(old_field, new_field, r.0@, r.1@),
        books_so_far(old_field, new_field, r.0@, old(u)@, final(u)@, r.2@),
        lists_closing(old_field, new_field, cells_of(r.2@)),
{
    let n: usize = new_field.grid.len();
    let ghost u0 = u@;
    let mut valid: Vec<bool> = Vec::new();
    let mut open: Vec<usize> = Vec::new();
    let mut flips: Vec<Flip> = Vec::new();
    let mut k: usize = 0;
    while k < n
        invariant
            same_cells(old_field, new_field),
            n == new_field.grid.cells(),
            n <= isize::MAX,
            u0.len() == n,
            u.len() == n,
            k <= n,
            valid.len() == k,
            forall|i: int| 0 <= i < k ==> #[trigger] valid[i] == stays(old_field, new_field, i),
            forall|i: int|
                0 <= i < n ==> #[trigger] u[i] == if i < k && closes(old_field, new_field, i) {
                    ua
                } else {
                    u0[i]
                },
            forall|i: int|
                0 <= i < open.len() ==> #[trigger] open[i] < k && opens(
                    old_field,
                    new_field,
                    open[i] as int,
                ),
            forall|i: int, j: int|
                0 <= i < j < open.len() ==> #[trigger] open[i] < #[trigger] open[j],
            forall|i: int|
                0 <= i < k && #[trigger] opens(old_field, new_field, i) ==> open@.contains(
                    i as usize,
                ),
            forall|i: int, j: int|
                0 <= i < j < flips.len() ==> (#[trigger] flips[i]).cell
                    < (#[trigger] flips[j]).cell,
            forall|i: int|
                0 <= i < flips.len() ==> (#[trigger] flips[i]).cell < k && flips[i].closing
                    && closes(old_field, new_field, flips[i].cell as int) && flips[i].state
                    == u0[flips[i].cell as int],
            forall|i: int|
                0 <= i < k && closes(old_field, new_field, i) ==> #[trigger] booked(flips@, i),
        decreases n - k,
    {
        let before = old_field.is_solid(k);
        let after = new_field.is_solid(k);
        valid.push(!before && !after);
        let ghost open0 = open@;
        let ghost flips0 = flips@;
        if !before && after {
            let f = Flip { cell: k, closing: true, state: u[k] };
            flips.push(f);
            u.set(k, ua);
            proof {
                lemma_booked_push(flips0, f);
            }
        } else if before && !after {
            open.push(k);
            proof {
                assert(open@[open0.len() as int] == k);
            }
        }
        proof {
            assert forall|i: int|
                0 <= i < k + 1 && #[trigger] opens(old_field, new_field, i) implies open@.contains(
                i as usize,
            ) by {
                if i < k {
                    assert(open0.contains(i as usize));
                    let t = choose|t: int| 0 <= t < open0.len() && open0[t] == i;
                    assert(open@[t] == i);
                }
            }
        }
        k = k + 1;
    }
    proof {
        assert forall|i: int|
            0 <= i < n && #[trigger] sealed(old_field, new_field, valid@, i) implies open@.contains(
            i as usize,
        ) by {
            assert(opens(old_field, new_field, i));
        }
        assert forall|i: int| 0 <= i < n implies (#[trigger] booked(flips@, i) <==> closes(
            old_field,
            new_field,
            i,
        ) || (opens(old_field, new_field, i) && valid@[i])) by {
            if booked(flips@, i) {
                let t = choose|t: int| 0 <= t < flips@.len() && (#[trigger] flips@[t]).cell == i;
                assert(closes(old_field, new_field, flips@[t].cell as int));
            }
        }
        let cells = cells_of(flips@);
        assert forall|i: int, j: int| 0 <= i < j < cells.len() implies #[trigger] cells[i]
            < #[trigger] cells[j] by {
            assert(flips@[i].cell < flips@[j].cell);
        }
        assert forall|i: int| 0 <= i < cells.len() implies #[trigger] cells[i]
            < new_field.grid.cells() && closes(old_field, new_field, cells[i] as int) by {
            assert(flips@[i].cell < n);
        }
        assert forall|i: int|
            0 <= i < n && #[trigger] closes(old_field, new_field, i) implies cells.contains(
            i as usize,
        ) by {
            assert(booked(flips@, i));
            let t = choose|t: int| 0 <= t < flips@.len() && (#[trigger] flips@[t]).cell == i;
            assert(cells[t] == i as usize);
        }
    }
    (valid, open, flips)
}

/// One wave. Returns the cells that are still open.
fn run_wave<M: FlowMath>(
    m: &M,
    old_field: &SolidField,
    new_field: &SolidField,
    gamma: Scalar,
    u: &mut Vec<Cons>,
    valid: &mut Vec<bool>,
    open: &Vec<usize>,
    flips: &mut Vec<Flip>,
    Ghost(u0): Ghost<Seq<Cons>>,
) -> (still: Vec<usize>)
    requires
        same_cells(old_field, new_field),
        old(u).len() == new_field.grid.cells(),
        old(valid).len() == new_field.grid.cells(),
        lists_open(old_field, new_field, old(valid)@, open@),
        books_so_far(old_field, new_field, old(valid)@, u0, old(u)@, old(flips)@),
    ensures
        wave(
            m,
            old_field,
            new_field,
            gamma,
            old(valid)@,
            old(u)@,
            final(valid)@,
            final(u)@,
        ),
        lists_open(old_field, new_field, final(valid)@, still@),
        books_so_far(old_field, new_field, final(valid)@, u0, final(u)@, final(flips)@),
        exists|cells: Seq<usize>| #[trigger]
            lists_wave(old_field, new_field, old(valid)@, cells) && cells_of(final(flips)@)
                == cells_of(old(flips)@) + cells,
        still.len() <= open.len(),
        still.len() == open.len() ==> !some_fillable(old_field, new_field, old(valid)@),
        still.len() < open.len() ==> some_fillable(old_field, new_field, old(valid)@),
{
    let g = &new_field.grid;
    let ghost n = g.cells();
    let ghost v0 = valid@;
    let ghost s0 = u@;
    let ghost f0 = flips@;
    let mut fills: Vec<usize> = Vec::new();
    let mut states: Vec<Cons> = Vec::new();
    let mut still: Vec<usize> = Vec::new();
    let mut i: usize = 0;
    while i < open.len()
        invariant
            same_cells(old_field, new_field),
            g == &new_field.grid,
            n == g.cells(),
            u.len() == n,
            valid.len() == n,
            u@ == s0,
            valid@ == v0,
            flips@ == f0,
            lists_open(old_field, new_field, v0, open@),
            i <= open.len(),
            fills.len() + still.len() == i,
            states.len() == fills.len(),
            forall|a: int|
                0 <= a < fills.len() ==> #[trigger] fills[a] < n && fillable(
                    old_field,
                    new_field,
                    v0,
                    fills[a] as int,
                ) && is_fill(
                    m,
                    gamma,
                    s0,
                    sources(g, v0, fills[a] as int, 4),
                    states[a],
                ),
            forall|a: int|
                0 <= a < still.len() ==> #[trigger] still[a] < n && sealed(
                    old_field,
                    new_field,
                    v0,
                    still[a] as int,
                ) && !fillable(old_field, new_field, v0, still[a] as int),
            forall|a: int|
                0 <= a < fills.len() && i < open.len() ==> #[trigger] fills[a] < open[i as int],
            forall|a: int|
                0 <= a < still.len() && i < open.len() ==> #[trigger] still[a] < open[i as int],
            forall|a: int, b: int| 0 <= a < b < fills.len() ==> #[trigger] fills[a]
                < #[trigger] fills[b],
            forall|a: int, b: int| 0 <= a < b < still.len() ==> #[trigger] still[a]
                < #[trigger] still[b],
            forall|a: int|
                0 <= a < i ==> fills@.contains(#[trigger] open[a]) || still@.contains(open[a]),
        decreases open.len() - i,
    {
        let k: usize = open[i];
        let from = trusted_neighbours(g, valid, k);
        let ghost fills0 = fills@;
        let ghost still0 = still@;
        if from.len() > 0 {
            let state = average(m, gamma, u, &from);
            fills.push(k);
            states.push(state);
            proof {
                assert(fills@[fills0.len() as int] == k);
            }
        } else {
            still.push(k);
            proof {
                assert(still@[still0.len() as int] == k);
            }
        }
        proof {
            assert forall|a: int| 0 <= a < i + 1 implies fills@.contains(#[trigger] open@[a])
                || still@.contains(open@[a]) by {
                if a < i {
                    if fills0.contains(open@[a]) {
                        let t = choose|t: int| 0 <= t < fills0.len() && fills0[t] == open@[a];
                        assert(fills@[t] == open@[a]);
                    } else {
                        let t = choose|t: int| 0 <= t < still0.len() && still0[t] == open@[a];
                        assert(still@[t] == open@[a]);
                    }
                }
            }
        }
        i = i + 1;
    }
    proof {
        if fills.len() > 0 {
            assert(fillable(old_field, new_field, v0, fills[0] as int));
        }
        if fills.len() == 0 {
            assert forall|k: int| 0 <= k < n implies !#[trigger] fillable(
                old_field,
                new_field,
                v0,
                k,
            ) by {
                if fillable(old_field, new_field, v0, k) {
                    assert(sealed(old_field, new_field, v0, k));
                    assert(open@.contains(k as usize));
                    let a = choose|a: int| 0 <= a < open@.len() && open@[a] == k;
                    assert(still@.contains(open@[a]));
                    let t = choose|t: int| 0 <= t < still@.len() && still@[t] == k;
                    assert(!fillable(old_field, new_field, v0, still@[t] as int));
                }
            }
        }
        assert forall|k: int| 0 <= k < n && fillable(old_field, new_field, v0, k) implies
            fills@.contains(k as usize) by {
            assert(sealed(old_field, new_field, v0, k));
            assert(open@.contains(k as usize));
            let a = choose|a: int| 0 <= a < open@.len() && open@[a] == k;
            if still@.contains(open@[a]) {
                let t = choose|t: int| 0 <= t < still@.len() && still@[t] == k;
                assert(!fillable(old_field, new_field, v0, still@[t] as int));
            }
        }
    }
    let mut c: usize = 0;
    assert(cells_of(f0) =~= cells_of(f0) + fills@.take(0));
    while c < fills.len()
        invariant
            cells_of(flips@) == cells_of(f0) + fills@.take(c as int),
            n == new_field.grid.cells(),
            u.len() == n,
            valid.len() == n,
            s0.len() == n,
            v0.len() == n,
            c <= fills.len(),
            states.len() == fills.len(),
            forall|a: int|
                0 <= a < fills.len() ==> #[trigger] fills[a] < n && fillable(
                    old_field,
                    new_field,
                    v0,
                    fills[a] as int,
                ),
            forall|a: int, b: int| 0 <= a < b < fills.len() ==> #[trigger] fills[a]
                < #[trigger] fills[b],
            forall|a: int|
                0 <= a < c ==> valid[#[trigger] fills[a] as int] && u[fills[a] as int] == states[a],
            forall|k: int|
                0 <= k < n && !(#[trigger] fills@.take(c as int).contains(k as usize))
                    ==> valid[k] == v0[k] && u[k] == s0[k],
            books_so_far(old_field, new_field, valid@, u0, u@, flips@),
        decreases fills.len() - c,
    {
        let k: usize = fills[c];
        let ghost valid1 = valid@;
        let ghost u1 = u@;
        let ghost flips1 = flips@;
        let f = Flip { cell: k, closing: false, state: states[c] };
        proof {
            assert(!fills@.take(c as int).contains(k)) by {
                if fills@.take(c as int).contains(k) {
                    let t = choose|t: int|
                        0 <= t < fills@.take(c as int).len() && fills@.take(c as int)[t] == k;
                    assert(fills@[t] == k);
                }
            }
            let kk = k as int;
            assert(!fills@.take(c as int).contains(kk as usize));
            assert(fillable(old_field, new_field, v0, kk));
            assert(!valid1[kk]);
            assert(!booked(flips1, k as int));
            lemma_booked_push(flips1, f);
        }
        u.set(k, states[c]);
        valid.set(k, true);
        flips.push(f);
        proof {
            assert(cells_of(flips@) =~= cells_of(flips1).push(k));
            assert(fills@.take(c + 1) =~= fills@.take(c as int).push(k));
            assert(cells_of(flips@) =~= cells_of(f0) + fills@.take(c + 1));
            assert forall|j: int|
                0 <= j < n && !(#[trigger] fills@.take(c + 1).contains(j as usize)) implies valid@[j]
                == v0[j] && u@[j] == s0[j] by {
                assert(fills@.take(c + 1)[c as int] == k);
                assert(j != k) by {
                    if j == k {
                        assert(fills@.take(c + 1).contains(k));
                    }
                }
                assert(!fills@.take(c as int).contains(j as usize)) by {
                    if fills@.take(c as int).contains(j as usize) {
                        let t = choose|t: int|
                            0 <= t < fills@.take(c as int).len() && fills@.take(c as int)[t]
                                == j as usize;
                        assert(fills@.take(c + 1)[t] == j as usize);
                    }
                }
            }
            assert forall|a: int, b: int| 0 <= a < b < flips@.len() implies (
            #[trigger] flips@[a]).cell != (#[trigger] flips@[b]).cell by {
                if b == flips1.len() {
                    if flips1[a].cell == k {
                        assert(booked(flips1, k as int));
                    }
                }
            }
            assert forall|a: int| 0 <= a < flips@.len() implies {
                let e = #[trigger] flips@[a];
                &&& e.cell < new_field.grid.cells()
                &&& if e.closing {
                    closes(old_field, new_field, e.cell as int) && e.state == u0[e.cell as int]
                } else {
                    opens(old_field, new_field, e.cell as int) && e.state == u@[e.cell as int]
                }
            } by {
                if a < flips1.len() {
                    assert(flips@[a] == flips1[a]);
                    if flips1[a].cell == k {
                        assert(booked(flips1, k as int));
                    }
                }
            }
        }
        c = c + 1;
    }
    proof {
        assert(fills@.take(fills@.len() as int) =~= fills@);
        assert(lists_wave(old_field, new_field, v0, fills@));
        assert forall|k: int| 0 <= k < n implies #[trigger] wave_at(
            m,
            old_field,
            new_field,
            gamma,
            v0,
            s0,
            valid@,
            u@,
            k,
        ) by {
            if fillable(old_field, new_field, v0, k) {
                assert(fills@.contains(k as usize));
                let t = choose|t: int| 0 <= t < fills@.len() && fills@[t] == k;
                assert(valid@[fills@[t] as int]);
                assert(is_fill(m, gamma, s0, sources(g, v0, fills@[t] as int, 4), states@[t]));
            } else {
                if fills@.contains(k as usize) {
                    let t = choose|t: int| 0 <= t < fills@.len() && fills@[t] == k;
                    assert(fillable(old_field, new_field, v0, fills@[t] as int));
                }
                assert(!fills@.take(fills@.len() as int).contains(k as usize));
            }
        }
        assert forall|a: int| 0 <= a < still@.len() implies #[trigger] still@[a] < n && sealed(
            old_field,
            new_field,
            valid@,
            still@[a] as int,
        ) by {
            assert(wave_at(m, old_field, new_field, gamma, v0, s0, valid@, u@, still@[a] as int));
        }
        assert forall|k: int|
            0 <= k < n && #[trigger] sealed(old_field, new_field, valid@, k) implies still@.contains(
            k as usize,
        ) by {
            assert(wave_at(m, old_field, new_field, gamma, v0, s0, valid@, u@, k));
            assert(sealed(old_field, new_field, v0, k));
            assert(open@.contains(k as usize));
            let a = choose|a: int| 0 <= a < open@.len() && open@[a] == k;
            if fills@.contains(open@[a]) {
                let t = choose|t: int| 0 <= t < fills@.len() && fills@[t] == k;
                assert(fillable(old_field, new_field, v0, fills@[t] as int));
            }
        }
    }
    still
}

/// Fills the cells that no wave has reached.
fn fill_sealed<M: FlowMath>(
    m: &M,
    old_field: &SolidField,
    new_field: &SolidField,
    gamma: Scalar,
    ua: Cons,
    u: &mut Vec<Cons>,
    valid: &Vec<bool>,
    open: &Vec<usize>,
    flips: &mut Vec<Flip>,
    Ghost(u0): Ghost<Seq<Cons>>,
)
    requires
        same_cells(old_field, new_field),
        old(u).len() == new_field.grid.cells(),
        valid.len() == new_field.grid.cells(),
        lists_open(old_field, new_field, valid@, open@),
        books_so_far(old_field, new_field, valid@, u0, old(u)@, old(flips)@),
        forall|k: int|
            0 <= k < valid.len() && #[trigger] valid[k] ==> !new_field.solid(k),
    ensures
        sealed_cells_filled(
            m,
            old_field,
            new_field,
            gamma,
            ua,
            valid@,
            old(u)@,
            final(u)@,
        ),
        books(old_field, new_field, u0, final(u)@, final(flips)@),
        cells_of(final(flips)@) == cells_of(old(flips)@) + open@,
        lists_sealed(old_field, new_field, valid@, open@),
{
    let g = &new_field.grid;
    let ghost n = g.cells();
    let ghost s = u@;
    let ghost f0 = flips@;
    if open.len() == 0 {
        proof {
            assert forall|k: int| 0 <= k < n implies !#[trigger] sealed(
                old_field,
                new_field,
                valid@,
                k,
            ) by {
                if sealed(old_field, new_field, valid@, k) {
                    assert(open@.contains(k as usize));
                }
            }
            assert forall|k: int|
                0 <= k < n && (closes(old_field, new_field, k) || opens(
                    old_field,
                    new_field,
                    k,
                )) implies #[trigger] booked(flips@, k) by {
                assert(!sealed(old_field, new_field, valid@, k));
            }
            assert(cells_of(flips@) =~= cells_of(f0) + open@);
        }
        return;
    }
    let near = nearest_marked(g, valid);
    let mut c: usize = 0;
    proof {
        assert(open@.take(0) =~= Seq::empty());
        assert(cells_of(f0) =~= cells_of(f0) + open@.take(0));
        walk::lemma_nearest_is_marked(g, valid@, near@, open@[0] as int);
    }
    while c < open.len()
        invariant
            cells_of(flips@) == cells_of(f0) + open@.take(c as int),
            same_cells(old_field, new_field),
            g == &new_field.grid,
            n == g.cells(),
            s.len() == n,
            u.len() == n,
            valid.len() == n,
            near.len() == n,
            c <= open.len(),
            walk::is_nearest(g, valid@, near@),
            lists_open(old_field, new_field, valid@, open@),
            forall|a: int|
                0 <= a < c ==> #[trigger] sealed_at(
                    m,
                    old_field,
                    new_field,
                    gamma,
                    ua,
                    valid@,
                    s,
                    near@,
                    u@,
                    open@[a] as int,
                ),
            forall|k: int|
                0 <= k < n && !(#[trigger] open@.take(c as int).contains(k as usize)) ==> u[k]
                    == s[k],
            forall|a: int, b: int|
                0 <= a < b < flips.len() ==> (#[trigger] flips[a]).cell
                    != (#[trigger] flips[b]).cell,
            forall|a: int|
                0 <= a < flips.len() ==> {
                    let f = #[trigger] flips[a];
                    &&& f.cell < new_field.grid.cells()
                    &&& if f.closing {
                        closes(old_field, new_field, f.cell as int) && f.state
                            == u0[f.cell as int]
                    } else {
                        opens(old_field, new_field, f.cell as int) && f.state == u[f.cell as int]
                    }
                },
            forall|k: int|
                0 <= k < n ==> (#[trigger] booked(flips@, k) <==> closes(old_field, new_field, k)
                    || (opens(old_field, new_field, k) && valid[k]) || open@.take(
                    c as int,
                ).contains(k as usize)),
        decreases open.len() - c,
    {
        let k: usize = open[c];
        let ghost kk = k as int;
        let ghost u1 = u@;
        let ghost flips1 = flips@;
        let src: usize = near[k];
        proof {
            walk::lemma_nearest_is_marked(g, valid@, near@, kk);
            lemma_take_grows(open@, c as int);
            assert(!open@.take(c as int).contains(kk as usize)) by {
                if open@.take(c as int).contains(kk as usize) {
                    let t = choose|t: int|
                        0 <= t < open@.take(c as int).len() && open@.take(c as int)[t] == k;
                    assert(open@[t] == k);
                }
            }
            assert(sealed(old_field, new_field, valid@, kk));
            assert(!booked(flips1, kk));
        }
        let fill = if src == UNMET {
            ua
        } else {
            proof {
                let ss = src as int;
                assert(!open@.take(c as int).contains(ss as usize)) by {
                    if open@.take(c as int).contains(ss as usize) {
                        let t = choose|t: int|
                            0 <= t < open@.take(c as int).len() && open@.take(c as int)[t] == src;
                        assert(open@[t] == src);
                        assert(sealed(old_field, new_field, valid@, open@[t] as int));
                    }
                }
                assert(u1[ss] == s[ss]);
            }
            let w = m.primitives(u[src], gamma);
            let zero = Scalar { bits: ZERO };
            m.conserved(Prim { rho: w.rho, uz: zero, ur: zero, p: w.p }, gamma)
        };
        let f = Flip { cell: k, closing: false, state: fill };
        u.set(k, fill);
        flips.push(f);
        proof {
            assert(cells_of(flips@) =~= cells_of(flips1).push(k));
            assert(open@.take(c + 1) =~= open@.take(c as int).push(k));
            assert(cells_of(flips@) =~= cells_of(f0) + open@.take(c + 1));
            lemma_booked_push(flips1, f);
            assert forall|a: int| 0 <= a < c + 1 implies #[trigger] sealed_at(
                m,
                old_field,
                new_field,
                gamma,
                ua,
                valid@,
                s,
                near@,
                u@,
                open@[a] as int,
            ) by {
                if a < c {
                    assert(sealed_at(
                        m,
                        old_field,
                        new_field,
                        gamma,
                        ua,
                        valid@,
                        s,
                        near@,
                        u1,
                        open@[a] as int,
                    ));
                    assert(open@[a] < open@[c as int]);
                }
            }
            assert forall|a: int, b: int| 0 <= a < b < flips@.len() implies (
            #[trigger] flips@[a]).cell != (#[trigger] flips@[b]).cell by {
                if b == flips1.len() {
                    if flips1[a].cell == k {
                        assert(booked(flips1, kk));
                    }
                }
            }
            assert forall|a: int| 0 <= a < flips@.len() implies {
                let e = #[trigger] flips@[a];
                &&& e.cell < new_field.grid.cells()
                &&& if e.closing {
                    closes(old_field, new_field, e.cell as int) && e.state == u0[e.cell as int]
                } else {
                    opens(old_field, new_field, e.cell as int) && e.state == u@[e.cell as int]
                }
            } by {
                if a < flips1.len() {
                    assert(flips@[a] == flips1[a]);
                    if flips1[a].cell == k {
                        assert(booked(flips1, kk));
                    }
                }
            }
        }
        c = c + 1;
    }
    proof {
        assert(open@.take(open@.len() as int) =~= open@);
        assert(sealed(old_field, new_field, valid@, open@[0] as int));
        assert forall|k: int| 0 <= k < s.len() implies #[trigger] sealed_at(
            m,
            old_field,
            new_field,
            gamma,
            ua,
            valid@,
            s,
            near@,
            u@,
            k,
        ) by {
            if sealed(old_field, new_field, valid@, k) {
                assert(open@.contains(k as usize));
                let t = choose|t: int| 0 <= t < open@.len() && open@[t] == k;
                assert(sealed_at(
                    m,
                    old_field,
                    new_field,
                    gamma,
                    ua,
                    valid@,
                    s,
                    near@,
                    u@,
                    open@[t] as int,
                ));
            } else {
                assert(!open@.take(open@.len() as int).contains(k as usize)) by {
                    if open@.contains(k as usize) {
                        let t = choose|t: int| 0 <= t < open@.len() && open@[t] == k as usize;
                        assert(sealed(old_field, new_field, valid@, open@[t] as int));
                    }
                }
            }
        }
        assert forall|k: int|
            0 <= k < n && (closes(old_field, new_field, k) || opens(
                old_field,
                new_field,
                k,
            )) implies #[trigger] booked(flips@, k) by {
            if sealed(old_field, new_field, valid@, k) {
                assert(open@.contains(k as usize));
            }
        }
    }
}

proof fn lemma_take_grows(open: Seq<usize>, c: int)
    requires
        0 <= c < open.len(),
    ensures
        forall|x: usize| #[trigger]
            open.take(c + 1).contains(x) <==> open.take(c).contains(x) || x == open[c],
{
    assert(open.take(c + 1) =~= open.take(c).push(open[c]));
    assert forall|x: usize| open.take(c).contains(x) || x == open[c] implies #[trigger] open.take(
        c + 1,
    ).contains(x) by {
        if open.take(c).contains(x) {
            let t = choose|t: int| 0 <= t < open.take(c).len() && open.take(c)[t] == x;
            assert(open.take(c + 1)[t] == x);
        } else {
            assert(open.take(c + 1)[c] == x);
        }
    }
    assert forall|x: usize| #[trigger] open.take(c + 1).contains(x) implies open.take(c).contains(x)
        || x == open[c] by {
        let taken = open.take(c + 1);
        let t = choose|t: int| 0 <= t < taken.len() && taken[t] == x;
        if t < c {
            assert(open.take(c)[t] == x);
        }
    }
}

proof fn lemma_waves_stay_fluid<M: FlowMath>(
    m: &M,
    old_field: &SolidField,
    new_field: &SolidField,
    gamma: Scalar,
    ua: Cons,
    u0: Seq<Cons>,
    n: nat,
    valid: Seq<bool>,
    s: Seq<Cons>,
)
    requires
        after_waves(m, old_field, new_field, gamma, ua, u0, n, valid, s),
    ensures
        valid.len() == new_field.grid.cells(),
        s.len() == new_field.grid.cells(),
        forall|k: int| 0 <= k < valid.len() && #[trigger] valid[k] ==> !new_field.solid(k),
        forall|k: int|
            0 <= k < valid.len() && stays(old_field, new_field, k) ==> #[trigger] valid[k] && s[k]
                == u0[k],
        forall|k: int|
            0 <= k < s.len() && !opens(old_field, new_field, k) ==> #[trigger] s[k] == if closes(
                old_field,
                new_field,
                k,
            ) {
                ua
            } else {
                u0[k]
            },
    decreases n,
{
    if n > 0 {
        let (v0, s0) = choose|v0: Seq<bool>, s0: Seq<Cons>|
            {
                &&& #[trigger] wave(m, old_field, new_field, gamma, v0, s0, valid, s)
                &&& some_fillable(old_field, new_field, v0)
                &&& after_waves(m, old_field, new_field, gamma, ua, u0, (n - 1) as nat, v0, s0)
            };
        lemma_waves_stay_fluid(m, old_field, new_field, gamma, ua, u0, (n - 1) as nat, v0, s0);
        assert forall|k: int| 0 <= k < valid.len() && #[trigger] valid[k] implies !new_field.solid(
            k,
        ) by {
            assert(wave_at(m, old_field, new_field, gamma, v0, s0, valid, s, k));
        }
        assert forall|k: int|
            0 <= k < valid.len() && stays(old_field, new_field, k) implies #[trigger] valid[k]
            && s[k] == u0[k] by {
            assert(wave_at(m, old_field, new_field, gamma, v0, s0, valid, s, k));
        }
        assert forall|k: int|
            0 <= k < s.len() && !opens(old_field, new_field, k) implies #[trigger] s[k]
            == if closes(old_field, new_field, k) {
            ua
        } else {
            u0[k]
        } by {
            assert(wave_at(m, old_field, new_field, gamma, v0, s0, valid, s, k));
        }
    }
}

/// Closes and fills the interior for an edit of the solid field.
pub fn refill_interior<M: FlowMath>(
    m: &M,
    old_field: &SolidField,
    new_field: &SolidField,
    gamma: Scalar,
    ua: Cons,
    u: &mut Vec<Cons>,
) -> (flips: Vec<Flip>)
    requires
        same_cells(old_field, new_field),
        old(u).len() == new_field.grid.cells(),
    ensures
        final(u).len() == old(u).len(),
        refilled(m, old_field, new_field, gamma, ua, old(u)@, final(u)@),
        books(old_field, new_field, old(u)@, final(u)@, flips@),
        in_order(old_field, new_field, flips@),
{
    let ghost u0 = u@;
    let (mut valid, mut open, mut flips) = survey(old_field, new_field, ua, u);
    let ghost mut n: nat = 0;
    let mut done = open.len() == 0;
    proof {
        assert(after_waves(m, old_field, new_field, gamma, ua, u0, n, valid@, u@));
        assert(booked_after(old_field, new_field, n, valid@, cells_of(flips@)));
        if done {
            assert forall|k: int| 0 <= k < new_field.grid.cells() implies !#[trigger] fillable(
                old_field,
                new_field,
                valid@,
                k,
            ) by {
                if fillable(old_field, new_field, valid@, k) {
                    assert(sealed(old_field, new_field, valid@, k));
                    assert(open@.contains(k as usize));
                }
            }
        }
    }
    while !done
        invariant
            same_cells(old_field, new_field),
            u.len() == new_field.grid.cells(),
            valid.len() == new_field.grid.cells(),
            after_waves(m, old_field, new_field, gamma, ua, u0, n, valid@, u@),
            booked_after(old_field, new_field, n, valid@, cells_of(flips@)),
            lists_open(old_field, new_field, valid@, open@),
            books_so_far(old_field, new_field, valid@, u0, u@, flips@),
            done ==> !some_fillable(old_field, new_field, valid@),
        decreases
                open.len(),
                if done {
                    0int
                } else {
                    1int
                },
    {
        let ghost v1 = valid@;
        let ghost s1 = u@;
        let ghost f1 = flips@;
        let still = run_wave(
            m,
            old_field,
            new_field,
            gamma,
            u,
            &mut valid,
            &open,
            &mut flips,
            Ghost(u0),
        );
        let ghost cells = choose|cells: Seq<usize>| #[trigger]
            lists_wave(old_field, new_field, v1, cells) && cells_of(flips@) == cells_of(f1) + cells;
        if still.len() == open.len() {
            proof {
                assert(cells =~= Seq::empty()) by {
                    if cells.len() > 0 {
                        assert(fillable(old_field, new_field, v1, cells[0] as int));
                    }
                }
                assert(cells_of(flips@) =~= cells_of(f1));
                assert forall|k: int| 0 <= k < new_field.grid.cells() implies valid@[k] == v1[k]
                    && u@[k] == s1[k] by {
                    assert(wave_at(m, old_field, new_field, gamma, v1, s1, valid@, u@, k));
                    assert(!fillable(old_field, new_field, v1, k));
                }
                assert(valid@ =~= v1);
                assert(u@ =~= s1);
            }
            done = true;
        } else {
            proof {
                assert(after_waves(m, old_field, new_field, gamma, ua, u0, n, v1, s1));
                assert forall|k: int| 0 <= k < valid@.len() implies #[trigger] valid@[k] == (v1[k]
                    || fillable(old_field, new_field, v1, k)) by {
                    assert(wave_at(m, old_field, new_field, gamma, v1, s1, valid@, u@, k));
                }
                assert(wave_booked(
                    old_field,
                    new_field,
                    v1,
                    cells_of(f1),
                    cells,
                    valid@,
                    cells_of(flips@),
                ));
                assert(booked_after(old_field, new_field, n, v1, cells_of(f1)));
                n = n + 1;
                assert((n - 1) as nat == n - 1);
                assert(booked_after(old_field, new_field, n, valid@, cells_of(flips@)));
                assert(after_waves(m, old_field, new_field, gamma, ua, u0, n, valid@, u@));
            }
        }
        open = still;
    }
    proof {
        assert(flooded(m, old_field, new_field, gamma, ua, u0, valid@, u@));
        lemma_waves_stay_fluid(m, old_field, new_field, gamma, ua, u0, n, valid@, u@);
    }
    let ghost before = cells_of(flips@);
    fill_sealed(m, old_field, new_field, gamma, ua, u, &valid, &open, &mut flips, Ghost(u0));
    assert(closed_books(old_field, new_field, n, valid@, before, open@, flips@));
    flips
}

/// The floating-point sums of the ledger.
pub trait LedgerMath: GridMath {
    /// `balance` plus `amount` times `volume`.
    fn credit(&self, balance: Scalar, amount: Scalar, volume: Scalar) -> Scalar;

    /// `balance` minus `amount` times `volume`.
    fn debit(&self, balance: Scalar, amount: Scalar, volume: Scalar) -> Scalar;
}

/// What edits of the solid field have added to the fluid and taken from it.
#[derive(Debug, Clone, Copy, PartialEq)]
pub struct FlipLedger {
    pub mass: Scalar,
    pub energy: Scalar,
    pub momentum_z: Scalar,
    pub momentum_r: Scalar,
}

impl Default for FlipLedger {
    fn default() -> (r: FlipLedger)
        ensures
            r.mass.bits == ZERO,
            r.energy.bits == ZERO,
            r.momentum_z.bits == ZERO,
            r.momentum_r.bits == ZERO,
    {
        let zero = Scalar { bits: ZERO };
        FlipLedger { mass: zero, energy: zero, momentum_z: zero, momentum_r: zero }
    }
}

/// `vol` is the volume of the cell at interior position `k`.
pub open spec fn is_volume<M: GridMath>(m: &M, g: &Grid, k: int, vol: Scalar) -> bool {
    let iz = k % (g.nz as int);
    let ir = k / (g.nz as int);
    call_ensures(
        M::volume,
        (m, g.r_edges[ir], g.r_edges[ir + 1], g.z_edges[iz], g.z_edges[iz + 1]),
        vol,
    )
}

/// One entry takes the ledger from `a` to `b`. A closing cell takes its mass,
/// momentum and energy out; a filled cell is at rest and brings mass and energy.
pub open spec fn enters<M: LedgerMath>(
    m: &M,
    g: &Grid,
    a: FlipLedger,
    f: Flip,
    b: FlipLedger,
) -> bool {
    exists|vol: Scalar| #[trigger]
        is_volume(m, g, f.cell as int, vol) && if f.closing {
            &&& call_ensures(M::debit, (m, a.mass, f.state.rho, vol), b.mass)
            &&& call_ensures(M::debit, (m, a.momentum_z, f.state.mz, vol), b.momentum_z)
            &&& call_ensures(M::debit, (m, a.momentum_r, f.state.mr, vol), b.momentum_r)
            &&& call_ensures(M::debit, (m, a.energy, f.state.e, vol), b.energy)
        } else {
            &&& call_ensures(M::credit, (m, a.mass, f.state.rho, vol), b.mass)
            &&& call_ensures(M::credit, (m, a.energy, f.state.e, vol), b.energy)
            &&& b.momentum_z == a.momentum_z
            &&& b.momentum_r == a.momentum_r
        }
}

/// The first `n` entries, one after another, take the ledger from `a` to `b`.
pub open spec fn enter_all<M: LedgerMath>(
    m: &M,
    g: &Grid,
    a: FlipLedger,
    flips: Seq<Flip>,
    n: int,
    b: FlipLedger,
) -> bool
    decreases n,
{
    if n <= 0 {
        a == b
    } else {
        exists|mid: FlipLedger| #[trigger]
            enters(m, g, mid, flips[n - 1], b) && enter_all(m, g, a, flips, n - 1, mid)
    }
}

/// Books the entries.
fn enter_flips<M: LedgerMath>(m: &M, g: &Grid, ledger: &mut FlipLedger, flips: &Vec<Flip>)
    requires
        g.wf(),
        forall|i: int| 0 <= i < flips.len() ==> (#[trigger] flips[i]).cell < g.cells(),
    ensures
        enter_all(m, g, *old(ledger), flips@, flips.len() as int, *final(ledger)),
{
    let ghost before = *ledger;
    let mut i: usize = 0;
    while i < flips.len()
        invariant
            g.wf(),
            i <= flips.len(),
            forall|j: int| 0 <= j < flips.len() ==> (#[trigger] flips[j]).cell < g.cells(),
            enter_all(m, g, before, flips@, i as int, *ledger),
        decreases flips.len() - i,
    {
        let f = flips[i];
        let ghost mid = *ledger;
        proof {
            grid::law_interior_positions(g.nz as int, g.nr as int, f.cell as int);
        }
        let vol = g.cell_vol(m, f.cell % g.nz, f.cell / g.nz);
        assert(is_volume(m, g, f.cell as int, vol));
        if f.closing {
            ledger.mass = m.debit(ledger.mass, f.state.rho, vol);
            ledger.momentum_z = m.debit(ledger.momentum_z, f.state.mz, vol);
            ledger.momentum_r = m.debit(ledger.momentum_r, f.state.mr, vol);
            ledger.energy = m.debit(ledger.energy, f.state.e, vol);
        } else {
            ledger.mass = m.credit(ledger.mass, f.state.rho, vol);
            ledger.energy = m.credit(ledger.energy, f.state.e, vol);
        }
        i = i + 1;
        assert(enters(m, g, mid, flips@[i - 1], *ledger));
    }
}

/// An edit of the solid field, on padded data: the interior is closed and
/// refilled, the ghost cells stay, and the ledger takes the entries.
pub open spec fn geometry_changed<M: FlowMath + LedgerMath>(
    m: &M,
    old_field: &SolidField,
    new_field: &SolidField,
    gamma: Scalar,
    ua: Cons,
    u0: Seq<Cons>,
    v0: Seq<Cons>,
    v1: Seq<Cons>,
    u1: Seq<Cons>,
    flips: Seq<Flip>,
    l0: FlipLedger,
    l1: FlipLedger,
) -> bool {
    &&& padded::is_interior(&new_field.grid, u0, v0)
    &&& refilled(m, old_field, new_field, gamma, ua, v0, v1)
    &&& padded::interior_replaced(&new_field.grid, u0, v1, u1)
    &&& books(old_field, new_field, v0, v1, flips)
    &&& in_order(old_field, new_field, flips)
    &&& enter_all(m, &new_field.grid, l0, flips, flips.len() as int, l1)
}

/// Applies an edit of the solid field to padded data and books it. Returns the
/// entries.
pub fn apply_geometry_change<M: FlowMath + LedgerMath>(
    m: &M,
    u: &mut Vec<Cons>,
    old_field: &SolidField,
    new_field: &SolidField,
    gas: GasModel,
    ambient: Ambient,
    ledger: &mut FlipLedger,
) -> (flips: Vec<Flip>)
    requires
        same_cells(old_field, new_field),
        old(u).len() == new_field.grid.padded_cells(),
    ensures
        final(u).len() == old(u).len(),
        exists|ua: Cons, v0: Seq<Cons>, v1: Seq<Cons>| #[trigger]
            geometry_changed(
                m,
                old_field,
                new_field,
                gas.gamma,
                ua,
                old(u)@,
                v0,
                v1,
                final(u)@,
                flips@,
                *old(ledger),
                *final(ledger),
            ) && flow::is_ambient_state(m, ambient, gas.gamma, ua),
{
    let ghost u0 = u@;
    let ghost l0 = *ledger;
    let ua = ambient_state(m, ambient, gas.gamma);
    let mut v = gather(&new_field.grid, u);
    let ghost v0 = v@;
    let flips = refill_interior(m, old_field, new_field, gas.gamma, ua, &mut v);
    scatter(&new_field.grid, u, &v);
    enter_flips(m, &new_field.grid, ledger, &flips);
    proof {
        assert(geometry_changed(
            m,
            old_field,
            new_field,
            gas.gamma,
            ua,
            u0,
            v0,
            v@,
            u@,
            flips@,
            l0,
            *ledger,
        ));
    }
    flips
}

proof fn lemma_source_counts(g: &Grid, valid: Seq<bool>, k: int, e: int, d: int)
    requires
        0 <= e < d,
        grid::neighbour(g.nz as int, g.nr as int, k, e) is Some,
        valid[grid::neighbour(g.nz as int, g.nr as int, k, e)->0],
    ensures
        sources(g, valid, k, d).len() > 0,
    decreases d,
{
    if e < d - 1 {
        lemma_source_counts(g, valid, k, e, d - 1);
    }
}

/// The waves run to completion: next to a cell that no wave has reached there is
/// nothing but solid and other cells that no wave has reached.
pub proof fn law_waves_complete<M: FlowMath>(
    m: &M,
    old_field: &SolidField,
    new_field: &SolidField,
    gamma: Scalar,
    ua: Cons,
    u0: Seq<Cons>,
    valid: Seq<bool>,
    s: Seq<Cons>,
    k: int,
    d: int,
)
    requires
        same_cells(old_field, new_field),
        flooded(m, old_field, new_field, gamma, ua, u0, valid, s),
        0 <= k < new_field.grid.cells(),
        sealed(old_field, new_field, valid, k),
        0 <= d < 4,
        grid::neighbour(new_field.grid.nz as int, new_field.grid.nr as int, k, d) is Some,
    ensures
        ({
            let j = grid::neighbour(
                new_field.grid.nz as int,
                new_field.grid.nr as int,
                k,
                d,
            )->0;
            new_field.solid(j) || sealed(old_field, new_field, valid, j)
        }),
{
    let g = &new_field.grid;
    let j = grid::neighbour(g.nz as int, g.nr as int, k, d)->0;
    let n = choose|n: nat| #[trigger]
        after_waves(m, old_field, new_field, gamma, ua, u0, n, valid, s);
    lemma_waves_stay_fluid(m, old_field, new_field, gamma, ua, u0, n, valid, s);
    grid::law_neighbour_is_mutual(g.nz as int, g.nr as int, k, d);
    if valid[j] {
        lemma_source_counts(g, valid, k, d, 4);
        assert(fillable(old_field, new_field, valid, k));
    }
}

/// Fluid that was fluid before an edit is left exactly as it was.
pub proof fn law_untouched_fluid<M: FlowMath>(
    m: &M,
    old_field: &SolidField,
    new_field: &SolidField,
    gamma: Scalar,
    ua: Cons,
    u0: Seq<Cons>,
    u1: Seq<Cons>,
    k: int,
)
    requires
        same_cells(old_field, new_field),
        refilled(m, old_field, new_field, gamma, ua, u0, u1),
        0 <= k < new_field.grid.cells(),
        stays(old_field, new_field, k),
    ensures
        u1[k] == u0[k],
{
    let (valid, s) = choose|valid: Seq<bool>, s: Seq<Cons>|
        {
            &&& #[trigger] flooded(m, old_field, new_field, gamma, ua, u0, valid, s)
            &&& sealed_cells_filled(m, old_field, new_field, gamma, ua, valid, s, u1)
        };
    let n = choose|n: nat| #[trigger]
        after_waves(m, old_field, new_field, gamma, ua, u0, n, valid, s);
    lemma_waves_stay_fluid(m, old_field, new_field, gamma, ua, u0, n, valid, s);
    assert(valid[k] && s[k] == u0[k]);
    if exists|k: int| 0 <= k < s.len() && #[trigger] sealed(old_field, new_field, valid, k) {
        let near = choose|near: Seq<usize>|
            #[trigger] walk::is_nearest(&new_field.grid, valid, near) && forall|k: int|
                0 <= k < s.len() ==> #[trigger] sealed_at(
                    m,
                    old_field,
                    new_field,
                    gamma,
                    ua,
                    valid,
                    s,
                    near,
                    u1,
                    k,
                );
        assert(sealed_at(m, old_field, new_field, gamma, ua, valid, s, near, u1, k));
    }
}

/// The sum of an amount over the first `n` cells that are fluid.
pub open spec fn fluid_total(
    field: &SolidField,
    u: Seq<Cons>,
    amount: spec_fn(int, Cons) -> int,
    n: int,
) -> int
    decreases n,
{
    if n <= 0 {
        0
    } else {
        fluid_total(field, u, amount, n - 1) + if field.solid(n - 1) {
            0
        } else {
            amount(n - 1, u[n - 1])
        }
    }
}

/// The sum of an amount over the first `n` entries, closing cells counted
/// negatively.
pub open spec fn flip_total(
    flips: Seq<Flip>,
    amount: spec_fn(int, Cons) -> int,
    n: int,
) -> int
    decreases n,
{
    if n <= 0 {
        0
    } else {
        flip_total(flips, amount, n - 1) + if flips[n - 1].closing {
            -amount(flips[n - 1].cell as int, flips[n - 1].state)
        } else {
            amount(flips[n - 1].cell as int, flips[n - 1].state)
        }
    }
}

spec fn range_sum(d: spec_fn(int) -> int, n: int) -> int
    decreases n,
{
    if n <= 0 {
        0
    } else {
        range_sum(d, n - 1) + d(n - 1)
    }
}

spec fn listed_before(flips: Seq<Flip>, c: int, k: int) -> bool {
    exists|i: int| 0 <= i < c && (#[trigger] flips[i]).cell == k
}

/// The part of `d` on the cells of the first `c` entries.
spec fn part(d: spec_fn(int) -> int, flips: Seq<Flip>, c: int) -> spec_fn(int) -> int {
    |k: int|
        if listed_before(flips, c, k) {
            d(k)
        } else {
            0
        }
}

proof fn lemma_range_sum_differs_once(
    a: spec_fn(int) -> int,
    b: spec_fn(int) -> int,
    n: int,
    c: int,
)
    requires
        forall|k: int| 0 <= k < n && k != c ==> #[trigger] a(k) == b(k),
    ensures
        range_sum(b, n) - range_sum(a, n) == if 0 <= c < n {
            b(c) - a(c)
        } else {
            0
        },
    decreases n,
{
    if n > 0 {
        lemma_range_sum_differs_once(a, b, n - 1, c);
        if c != n - 1 {
            assert(a(n - 1) == b(n - 1));
        }
    }
}

proof fn lemma_flip_total_is_part(
    d: spec_fn(int) -> int,
    flips: Seq<Flip>,
    amount: spec_fn(int, Cons) -> int,
    c: int,
    n: int,
)
    requires
        0 <= c <= flips.len(),
        forall|i: int, j: int|
            0 <= i < j < flips.len() ==> (#[trigger] flips[i]).cell != (#[trigger] flips[j]).cell,
        forall|i: int|
            0 <= i < flips.len() ==> (#[trigger] flips[i]).cell < n && d(flips[i].cell as int)
                == if flips[i].closing {
                -amount(flips[i].cell as int, flips[i].state)
            } else {
                amount(flips[i].cell as int, flips[i].state)
            },
    ensures
        range_sum(part(d, flips, c), n) == flip_total(flips, amount, c),
    decreases c,
{
    if c > 0 {
        lemma_flip_total_is_part(d, flips, amount, c - 1, n);
        let a = part(d, flips, c - 1);
        let b = part(d, flips, c);
        let k = flips[c - 1].cell as int;
        assert forall|j: int| 0 <= j < n && j != k implies #[trigger] a(j) == b(j) by {
            if listed_before(flips, c, j) {
                let i = choose|i: int| 0 <= i < c && (#[trigger] flips[i]).cell == j;
                assert(i < c - 1);
                assert(listed_before(flips, c - 1, j));
            }
            if listed_before(flips, c - 1, j) {
                let i = choose|i: int| 0 <= i < c - 1 && (#[trigger] flips[i]).cell == j;
                assert(flips[i].cell == j);
                assert(listed_before(flips, c, j));
            }
        }
        assert(!listed_before(flips, c - 1, k)) by {
            if listed_before(flips, c - 1, k) {
                let i = choose|i: int| 0 <= i < c - 1 && (#[trigger] flips[i]).cell == k;
                assert(flips[i].cell != flips[c - 1].cell);
            }
        }
        assert(listed_before(flips, c, k)) by {
            assert(flips[c - 1].cell == k);
        }
        lemma_range_sum_differs_once(a, b, n, k);
    } else {
        assert forall|k: int| 0 <= k < n implies #[trigger] part(d, flips, 0)(k) == 0 by {}
        lemma_range_sum_zero(part(d, flips, 0), n);
    }
}

proof fn lemma_range_sum_zero(d: spec_fn(int) -> int, n: int)
    requires
        forall|k: int| 0 <= k < n ==> #[trigger] d(k) == 0,
    ensures
        range_sum(d, n) == 0,
    decreases n,
{
    if n > 0 {
        lemma_range_sum_zero(d, n - 1);
    }
}

proof fn lemma_range_sum_equal(a: spec_fn(int) -> int, b: spec_fn(int) -> int, n: int)
    requires
        forall|k: int| 0 <= k < n ==> #[trigger] a(k) == b(k),
    ensures
        range_sum(a, n) == range_sum(b, n),
    decreases n,
{
    if n > 0 {
        lemma_range_sum_equal(a, b, n - 1);
        assert(a(n - 1) == b(n - 1));
    }
}

/// How much cell `k` adds to the change of the fluid total.
spec fn change_at(
    old_field: &SolidField,
    new_field: &SolidField,
    u0: Seq<Cons>,
    u1: Seq<Cons>,
    amount: spec_fn(int, Cons) -> int,
) -> spec_fn(int) -> int {
    |k: int|
        (if new_field.solid(k) {
            0
        } else {
            amount(k, u1[k])
        }) - (if old_field.solid(k) {
            0
        } else {
            amount(k, u0[k])
        })
}

proof fn lemma_change_is_range_sum(
    old_field: &SolidField,
    new_field: &SolidField,
    u0: Seq<Cons>,
    u1: Seq<Cons>,
    amount: spec_fn(int, Cons) -> int,
    n: int,
)
    ensures
        fluid_total(new_field, u1, amount, n) - fluid_total(old_field, u0, amount, n) == range_sum(
            change_at(old_field, new_field, u0, u1, amount),
            n,
        ),
    decreases n,
{
    if n > 0 {
        lemma_change_is_range_sum(old_field, new_field, u0, u1, amount, n - 1);
    }
}

/// The ledger accounts for everything: whatever amount is attached to cell
/// states, its total over the fluid after an edit is its total before plus what
/// the entries say was filled in less what they say was closed off.
pub proof fn law_ledger_balances<M: FlowMath>(
    m: &M,
    old_field: &SolidField,
    new_field: &SolidField,
    gamma: Scalar,
    ua: Cons,
    u0: Seq<Cons>,
    u1: Seq<Cons>,
    flips: Seq<Flip>,
    amount: spec_fn(int, Cons) -> int,
)
    requires
        same_cells(old_field, new_field),
        refilled(m, old_field, new_field, gamma, ua, u0, u1),
        books(old_field, new_field, u0, u1, flips),
    ensures
        fluid_total(new_field, u1, amount, new_field.grid.cells()) == fluid_total(
            old_field,
            u0,
            amount,
            new_field.grid.cells(),
        ) + flip_total(flips, amount, flips.len() as int),
{
    let n = new_field.grid.cells();
    let d = change_at(old_field, new_field, u0, u1, amount);
    lemma_change_is_range_sum(old_field, new_field, u0, u1, amount, n);
    lemma_flip_total_is_part(d, flips, amount, flips.len() as int, n);
    let p = part(d, flips, flips.len() as int);
    assert forall|k: int| 0 <= k < n implies #[trigger] d(k) == p(k) by {
        if !listed_before(flips, flips.len() as int, k) {
            assert(!booked(flips, k));
            if stays(old_field, new_field, k) {
                law_untouched_fluid(m, old_field, new_field, gamma, ua, u0, u1, k);
            }
        }
    }
    lemma_range_sum_equal(d, p, n);
}

/// What becomes of a cell that does not open: fluid that stays fluid and solid that stays
/// solid keep their state, and a cell that closes holds the state it was given for that.
pub proof fn law_cells_that_do_not_open<M: FlowMath>(
    m: &M,
    old_field: &SolidField,
    new_field: &SolidField,
    gamma: Scalar,
    ua: Cons,
    u0: Seq<Cons>,
    u1: Seq<Cons>,
    k: int,
)
    requires
        refilled(m, old_field, new_field, gamma, ua, u0, u1),
        0 <= k < new_field.grid.cells(),
    ensures
        old_field.solid(k) == new_field.solid(k) ==> u1[k] == u0[k],
        !old_field.solid(k) && new_field.solid(k) ==> u1[k] == ua,
{
    let (valid, s) = choose|valid: Seq<bool>, s: Seq<Cons>|
        {
            &&& #[trigger] flooded(m, old_field, new_field, gamma, ua, u0, valid, s)
            &&& sealed_cells_filled(m, old_field, new_field, gamma, ua, valid, s, u1)
        };
    let n = choose|n: nat| #[trigger]
        after_waves(m, old_field, new_field, gamma, ua, u0, n, valid, s);
    lemma_waves_stay_fluid(m, old_field, new_field, gamma, ua, u0, n, valid, s);
    assert(!opens(old_field, new_field, k) ==> s[k] == if closes(old_field, new_field, k) {
        ua
    } else {
        u0[k]
    });
    if exists|j: int| 0 <= j < s.len() && #[trigger] sealed(old_field, new_field, valid, j) {
        let near = choose|near: Seq<usize>|
            #[trigger] walk::is_nearest(&new_field.grid, valid, near) && forall|k: int|
                0 <= k < s.len() ==> #[trigger] sealed_at(
                    m,
                    old_field,
                    new_field,
                    gamma,
                    ua,
                    valid,
                    s,
                    near,
                    u1,
                    k,
                );
        assert(sealed_at(m, old_field, new_field, gamma, ua, valid, s, near, u1, k));
    }
}

/// A cell that opens holds gas at rest, or the state of the surroundings where there is no
/// fluid to take it from.
pub proof fn law_opened_cells_are_at_rest<M: FlowMath>(
    m: &M,
    old_field: &SolidField,
    new_field: &SolidField,
    gamma: Scalar,
    ua: Cons,
    u0: Seq<Cons>,
    u1: Seq<Cons>,
    k: int,
)
    requires
        refilled(m, old_field, new_field, gamma, ua, u0, u1),
        0 <= k < new_field.grid.cells(),
        old_field.solid(k) && !new_field.solid(k),
    ensures
        u1[k] == ua || exists|q: Prim| #[trigger]
            call_ensures(M::conserved, (m, q, gamma), u1[k]) && q.uz.bits == ZERO && q.ur.bits
                == ZERO,
{
    let (valid, s) = choose|valid: Seq<bool>, s: Seq<Cons>|
        {
            &&& #[trigger] flooded(m, old_field, new_field, gamma, ua, u0, valid, s)
            &&& sealed_cells_filled(m, old_field, new_field, gamma, ua, valid, s, u1)
        };
    let n = choose|n: nat| #[trigger]
        after_waves(m, old_field, new_field, gamma, ua, u0, n, valid, s);
    lemma_waves_stay_fluid(m, old_field, new_field, gamma, ua, u0, n, valid, s);
    lemma_waves_fill_with_rest(m, old_field, new_field, gamma, ua, u0, n, valid, s, k);
    if exists|j: int| 0 <= j < s.len() && #[trigger] sealed(old_field, new_field, valid, j) {
        let near = choose|near: Seq<usize>|
            #[trigger] walk::is_nearest(&new_field.grid, valid, near) && forall|k: int|
                0 <= k < s.len() ==> #[trigger] sealed_at(
                    m,
                    old_field,
                    new_field,
                    gamma,
                    ua,
                    valid,
                    s,
                    near,
                    u1,
                    k,
                );
        assert(sealed_at(m, old_field, new_field, gamma, ua, valid, s, near, u1, k));
        if sealed(old_field, new_field, valid, k) && near[k] != UNMET {
            let from = s[near[k] as int];
            let w = choose|w: Prim| #[trigger]
                call_ensures(M::primitives, (m, from, gamma), w) && call_ensures(
                    M::conserved,
                    (m, flow::still(w.rho, w.p), gamma),
                    u1[k],
                );
            assert(call_ensures(M::conserved, (m, flow::still(w.rho, w.p), gamma), u1[k]));
        }
    } else {
        assert(!sealed(old_field, new_field, valid, k));
    }
}

proof fn lemma_waves_fill_with_rest<M: FlowMath>(
    m: &M,
    old_field: &SolidField,
    new_field: &SolidField,
    gamma: Scalar,
    ua: Cons,
    u0: Seq<Cons>,
    n: nat,
    valid: Seq<bool>,
    s: Seq<Cons>,
    k: int,
)
    requires
        after_waves(m, old_field, new_field, gamma, ua, u0, n, valid, s),
        0 <= k < new_field.grid.cells(),
        opens(old_field, new_field, k),
    ensures
        valid[k] ==> exists|q: Prim| #[trigger]
            call_ensures(M::conserved, (m, q, gamma), s[k]) && q.uz.bits == ZERO && q.ur.bits
                == ZERO,
    decreases n,
{
    if n > 0 {
        let (v0, s0) = choose|v0: Seq<bool>, s0: Seq<Cons>|
            {
                &&& #[trigger] wave(m, old_field, new_field, gamma, v0, s0, valid, s)
                &&& some_fillable(old_field, new_field, v0)
                &&& after_waves(m, old_field, new_field, gamma, ua, u0, (n - 1) as nat, v0, s0)
            };
        lemma_waves_fill_with_rest(
            m,
            old_field,
            new_field,
            gamma,
            ua,
            u0,
            (n - 1) as nat,
            v0,
            s0,
            k,
        );
        assert(wave_at(m, old_field, new_field, gamma, v0, s0, valid, s, k));
        if fillable(old_field, new_field, v0, k) {
            let from = sources(&new_field.grid, v0, k, 4);
            let (ws, rhos, ps, rho, p) = choose|
                ws: Seq<Prim>,
                rhos: Vec<Scalar>,
                ps: Vec<Scalar>,
                rho: Scalar,
                p: Scalar,
            | #[trigger]
                averages(m, gamma, s0, from, ws, rhos, ps, rho, p, s[k]);
            assert(call_ensures(M::conserved, (m, flow::still(rho, p), gamma), s[k]));
        }
    }
}

/// The first wave: a cell that opens next to fluid that stays takes the mean density and
/// the mean pressure of exactly those of its neighbours that were fluid and still are, and
/// is at rest.
pub proof fn law_opened_cells_take_the_mean<M: FlowMath>(
    m: &M,
    old_field: &SolidField,
    new_field: &SolidField,
    gamma: Scalar,
    ua: Cons,
    u0: Seq<Cons>,
    u1: Seq<Cons>,
    k: int,
    d: int,
) -> (r: (Seq<usize>, Seq<Prim>, Vec<Scalar>, Vec<Scalar>, Scalar, Scalar))
    requires
        same_cells(old_field, new_field),
        refilled(m, old_field, new_field, gamma, ua, u0, u1),
        0 <= k < new_field.grid.cells(),
        old_field.solid(k) && !new_field.solid(k),
        0 <= d < 4,
        ({
            let g = &new_field.grid;
            grid::neighbour(g.nz as int, g.nr as int, k, d) matches Some(j) && !old_field.solid(j)
                && !new_field.solid(j)
        }),
    ensures
        ({
            let (from, ws, rhos, ps, rho, p) = r;
            let zero = Scalar { bits: ZERO };
            &&& ws.len() == from.len() && rhos.len() == from.len() && ps.len() == from.len()
            &&& forall|i: int|
                0 <= i < from.len() ==> call_ensures(
                    M::primitives,
                    (m, u0[from[i] as int], gamma),
                    #[trigger] ws[i],
                ) && rhos[i] == ws[i].rho && ps[i] == ws[i].p
            &&& call_ensures(M::mean, (m, &rhos), rho)
            &&& call_ensures(M::mean, (m, &ps), p)
            &&& call_ensures(
                M::conserved,
                (m, Prim { rho, uz: zero, ur: zero, p }, gamma),
                u1[k],
            )
        }),
        forall|i: int|
            0 <= i < r.0.len() ==> {
                &&& grid::adjacent(
                    new_field.grid.nz as int,
                    new_field.grid.nr as int,
                    k,
                    #[trigger] r.0[i] as int,
                )
                &&& !old_field.solid(r.0[i] as int)
                &&& !new_field.solid(r.0[i] as int)
            },
        forall|e: int|
            0 <= e < 4 ==> (#[trigger] grid::neighbour(
                new_field.grid.nz as int,
                new_field.grid.nr as int,
                k,
                e,
            ) matches Some(j) ==> (!old_field.solid(j) && !new_field.solid(j) ==> r.0.contains(
                j as usize,
            ))),
        r.0.no_duplicates(),
{
    let g = &new_field.grid;
    grid::lemma_products_fit(g.nz as int, g.nr as int);
    let (valid, s) = choose|valid: Seq<bool>, s: Seq<Cons>|
        {
            &&& #[trigger] flooded(m, old_field, new_field, gamma, ua, u0, valid, s)
            &&& sealed_cells_filled(m, old_field, new_field, gamma, ua, valid, s, u1)
        };
    let n = choose|n: nat| #[trigger]
        after_waves(m, old_field, new_field, gamma, ua, u0, n, valid, s);
    let (v0, s0) = lemma_first_wave(m, old_field, new_field, gamma, ua, u0, n, valid, s, k, d);
    let from = sources(g, v0, k, 4);
    lemma_sources_are_neighbours(g, v0, k, 4);
    let (ws, rhos, ps, rho, p) = choose|
        ws: Seq<Prim>,
        rhos: Vec<Scalar>,
        ps: Vec<Scalar>,
        rho: Scalar,
        p: Scalar,
    | #[trigger]
        averages(m, gamma, s0, from, ws, rhos, ps, rho, p, s[k]);
    assert(u1[k] == s[k]) by {
        if exists|j: int| 0 <= j < s.len() && #[trigger] sealed(old_field, new_field, valid, j) {
            let near = choose|near: Seq<usize>|
                #[trigger] walk::is_nearest(&new_field.grid, valid, near) && forall|k: int|
                    0 <= k < s.len() ==> #[trigger] sealed_at(
                        m,
                        old_field,
                        new_field,
                        gamma,
                        ua,
                        valid,
                        s,
                        near,
                        u1,
                        k,
                    );
            lemma_waves_stay_fluid(m, old_field, new_field, gamma, ua, u0, n, valid, s);
            assert(sealed_at(m, old_field, new_field, gamma, ua, valid, s, near, u1, k));
        }
    }
    assert forall|i: int| 0 <= i < from.len() implies call_ensures(
        M::primitives,
        (m, u0[from[i] as int], gamma),
        #[trigger] ws[i],
    ) && rhos[i] == ws[i].rho && ps[i] == ws[i].p by {
        let j = from[i] as int;
        assert(v0[j]);
        assert(s0[j] == u0[j]);
    }
    assert forall|e: int| 0 <= e < 4 implies (#[trigger] grid::neighbour(
        g.nz as int,
        g.nr as int,
        k,
        e,
    ) matches Some(j) ==> (!old_field.solid(j) && !new_field.solid(j) ==> from.contains(
        j as usize,
    ))) by {
        if let Some(j) = grid::neighbour(g.nz as int, g.nr as int, k, e) {
            grid::law_neighbour_is_mutual(g.nz as int, g.nr as int, k, e);
            assert(v0[j] == stays(old_field, new_field, j));
        }
    }
    (from, ws, rhos, ps, rho, p)
}

proof fn lemma_sources_are_neighbours(g: &Grid, valid: Seq<bool>, k: int, d: int)
    requires
        g.wf(),
        0 <= k < g.cells(),
        0 <= d <= 4,
    ensures
        forall|i: int|
            0 <= i < sources(g, valid, k, d).len() ==> {
                let j = #[trigger] sources(g, valid, k, d)[i] as int;
                &&& 0 <= j < g.cells()
                &&& valid[j]
                &&& grid::adjacent(g.nz as int, g.nr as int, k, j)
                &&& exists|e: int|
                    0 <= e < d && #[trigger] grid::neighbour(g.nz as int, g.nr as int, k, e) == Some(
                        j,
                    )
            },
        forall|e: int|
            0 <= e < d ==> (#[trigger] grid::neighbour(g.nz as int, g.nr as int, k, e) matches Some(
                j,
            ) ==> (valid[j] ==> sources(g, valid, k, d).contains(j as usize))),
        sources(g, valid, k, d).no_duplicates(),
    decreases d,
{
    grid::lemma_products_fit(g.nz as int, g.nr as int);
    if d > 0 {
        let nz = g.nz as int;
        let nr = g.nr as int;
        lemma_sources_are_neighbours(g, valid, k, d - 1);
        let short = sources(g, valid, k, d - 1);
        let long = sources(g, valid, k, d);
        match grid::neighbour(nz, nr, k, d - 1) {
            Some(j) => {
                grid::law_neighbour_is_mutual(nz, nr, k, d - 1);
                if valid[j] {
                    assert(long == short.push(j as usize));
                    assert(long[short.len() as int] == j as usize);
                    assert forall|e: int| 0 <= e < d implies (#[trigger] grid::neighbour(
                        nz,
                        nr,
                        k,
                        e,
                    ) matches Some(i) ==> (valid[i] ==> long.contains(i as usize))) by {
                        if e < d - 1 {
                            if let Some(i) = grid::neighbour(nz, nr, k, e) {
                                if valid[i] {
                                    assert(short.contains(i as usize));
                                    let at = choose|at: int|
                                        0 <= at < short.len() && short[at] == i as usize;
                                    assert(long[at] == i as usize);
                                }
                            }
                        }
                    }
                    assert forall|i: int| 0 <= i < long.len() implies {
                        let j = #[trigger] long[i] as int;
                        &&& 0 <= j < g.cells()
                        &&& valid[j]
                        &&& grid::adjacent(nz, nr, k, j)
                        &&& exists|e: int|
                            0 <= e < d && #[trigger] grid::neighbour(nz, nr, k, e) == Some(j)
                    } by {
                        if i < short.len() {
                            assert(long[i] == short[i]);
                        }
                    }
                    assert(long.no_duplicates()) by {
                        assert forall|a: int, b: int|
                            0 <= a < long.len() && 0 <= b < long.len() && a != b implies long[a]
                            != long[b] by {
                            lemma_directions_differ(nz, nr, k);
                            if a < short.len() && b < short.len() {
                                assert(short[a] != short[b]);
                            } else if a < short.len() {
                                assert(short[a] as int != j);
                            } else if b < short.len() {
                                assert(short[b] as int != j);
                            }
                        }
                    }
                } else {
                    assert(long == short);
                }
            },
            None => {
                assert(long == short);
            },
        }
    }
}

proof fn lemma_directions_differ(nz: int, nr: int, k: int)
    requires
        0 < nz,
        0 <= k < nz * nr,
    ensures
        forall|a: int, b: int|
            0 <= a < 4 && 0 <= b < 4 && a != b && #[trigger] grid::neighbour(nz, nr, k, a) is Some
                && #[trigger] grid::neighbour(nz, nr, k, b) is Some ==> grid::neighbour(
                nz,
                nr,
                k,
                a,
            ) != grid::neighbour(nz, nr, k, b),
{
    if nz == 1 {
        assert(k % 1 == 0);
    }
}

proof fn lemma_first_wave<M: FlowMath>(
    m: &M,
    old_field: &SolidField,
    new_field: &SolidField,
    gamma: Scalar,
    ua: Cons,
    u0: Seq<Cons>,
    n: nat,
    valid: Seq<bool>,
    s: Seq<Cons>,
    k: int,
    d: int,
) -> (r: (Seq<bool>, Seq<Cons>))
    requires
        same_cells(old_field, new_field),
        after_waves(m, old_field, new_field, gamma, ua, u0, n, valid, s),
        n > 0 || !some_fillable(old_field, new_field, valid),
        0 <= k < new_field.grid.cells(),
        opens(old_field, new_field, k),
        0 <= d < 4,
        ({
            let g = &new_field.grid;
            grid::neighbour(g.nz as int, g.nr as int, k, d) matches Some(j) && stays(
                old_field,
                new_field,
                j,
            )
        }),
    ensures
        surveyed(old_field, new_field, ua, u0, r.0, r.1),
        valid[k],
        is_fill(m, gamma, r.1, sources(&new_field.grid, r.0, k, 4), s[k]),
    decreases n,
{
    let g = &new_field.grid;
    let j = grid::neighbour(g.nz as int, g.nr as int, k, d)->0;
    grid::law_neighbour_is_mutual(g.nz as int, g.nr as int, k, d);
    if n == 0 {
        assert(valid[j]);
        lemma_source_counts(g, valid, k, d, 4);
        assert(fillable(old_field, new_field, valid, k));
        (valid, s)
    } else {
        let (v0, s0) = choose|v0: Seq<bool>, s0: Seq<Cons>|
            {
                &&& #[trigger] wave(m, old_field, new_field, gamma, v0, s0, valid, s)
                &&& some_fillable(old_field, new_field, v0)
                &&& after_waves(m, old_field, new_field, gamma, ua, u0, (n - 1) as nat, v0, s0)
            };
        assert(wave_at(m, old_field, new_field, gamma, v0, s0, valid, s, k));
        if n == 1 {
            assert(v0[j]);
            lemma_source_counts(g, v0, k, d, 4);
            assert(fillable(old_field, new_field, v0, k));
            (v0, s0)
        } else {
            lemma_first_wave(
                m,
                old_field,
                new_field,
                gamma,
                ua,
                u0,
                (n - 1) as nat,
                v0,
                s0,
                k,
                d,
            )
        }
    }
}

/// The ledger is conserved: where its sums are exact in a measure, what it books of the
/// mass and of the energy of an edit is what the fluid as a whole has gained, each cell by
/// the volume between its own edges; what it books of the momenta is what the cells that
/// closed took with them.
pub proof fn law_ledger_books_what_the_fluid_gains<M: FlowMath + LedgerMath>(
    m: &M,
    old_field: &SolidField,
    new_field: &SolidField,
    gamma: Scalar,
    ua: Cons,
    u0: Seq<Cons>,
    v0: Seq<Cons>,
    v1: Seq<Cons>,
    u1: Seq<Cons>,
    flips: Seq<Flip>,
    l0: FlipLedger,
    l1: FlipLedger,
    value: spec_fn(Scalar) -> int,
    work: spec_fn(Scalar, Scalar) -> int,
    volume: spec_fn(int) -> Scalar,
)
    requires
        same_cells(old_field, new_field),
        geometry_changed(
            m,
            old_field,
            new_field,
            gamma,
            ua,
            u0,
            v0,
            v1,
            u1,
            flips,
            l0,
            l1,
        ),
        forall|a: Scalar, x: Scalar, y: Scalar, b: Scalar| #[trigger]
            call_ensures(M::credit, (m, a, x, y), b) ==> value(b) == value(a) + work(x, y),
        forall|a: Scalar, x: Scalar, y: Scalar, b: Scalar| #[trigger]
            call_ensures(M::debit, (m, a, x, y), b) ==> value(b) == value(a) - work(x, y),
        forall|iz: int, ir: int, v: Scalar|
            new_field.grid.inside(iz, ir) && #[trigger] call_ensures(
                M::volume,
                (
                    m,
                    new_field.grid.r_edges[ir],
                    new_field.grid.r_edges[ir + 1],
                    new_field.grid.z_edges[iz],
                    new_field.grid.z_edges[iz + 1],
                ),
                v,
            ) ==> v == volume(new_field.grid.at(iz, ir)),
    ensures
        ({
            let n = new_field.grid.cells();
            let mass = |k: int, c: Cons| work(c.rho, volume(k));
            let energy = |k: int, c: Cons| work(c.e, volume(k));
            &&& value(l1.mass) - value(l0.mass) == fluid_total(new_field, v1, mass, n)
                - fluid_total(old_field, v0, mass, n)
            &&& value(l1.energy) - value(l0.energy) == fluid_total(new_field, v1, energy, n)
                - fluid_total(old_field, v0, energy, n)
        }),
        value(l1.momentum_z) == value(l0.momentum_z) - closing_total(
            flips,
            |k: int, c: Cons| work(c.mz, volume(k)),
            flips.len() as int,
        ),
        value(l1.momentum_r) == value(l0.momentum_r) - closing_total(
            flips,
            |k: int, c: Cons| work(c.mr, volume(k)),
            flips.len() as int,
        ),
{
    let mass = |k: int, c: Cons| work(c.rho, volume(k));
    let energy = |k: int, c: Cons| work(c.e, volume(k));
    law_ledger_balances(m, old_field, new_field, gamma, ua, v0, v1, flips, mass);
    law_ledger_balances(m, old_field, new_field, gamma, ua, v0, v1, flips, energy);
    lemma_entries_are_exact(
        m,
        new_field,
        flips,
        l0,
        flips.len() as int,
        l1,
        value,
        work,
        volume,
    );
}

/// The sum of an amount over those of the first `n` entries whose cells close.
pub open spec fn closing_total(
    flips: Seq<Flip>,
    amount: spec_fn(int, Cons) -> int,
    n: int,
) -> int
    decreases n,
{
    if n <= 0 {
        0
    } else {
        closing_total(flips, amount, n - 1) + if flips[n - 1].closing {
            amount(flips[n - 1].cell as int, flips[n - 1].state)
        } else {
            0
        }
    }
}

proof fn lemma_entries_are_exact<M: LedgerMath>(
    m: &M,
    new_field: &SolidField,
    flips: Seq<Flip>,
    l0: FlipLedger,
    n: int,
    l1: FlipLedger,
    value: spec_fn(Scalar) -> int,
    work: spec_fn(Scalar, Scalar) -> int,
    volume: spec_fn(int) -> Scalar,
)
    requires
        new_field.wf(),
        0 <= n <= flips.len(),
        forall|i: int| 0 <= i < flips.len() ==> (#[trigger] flips[i]).cell < new_field.grid.cells(),
        enter_all(m, &new_field.grid, l0, flips, n, l1),
        forall|a: Scalar, x: Scalar, y: Scalar, b: Scalar| #[trigger]
            call_ensures(M::credit, (m, a, x, y), b) ==> value(b) == value(a) + work(x, y),
        forall|a: Scalar, x: Scalar, y: Scalar, b: Scalar| #[trigger]
            call_ensures(M::debit, (m, a, x, y), b) ==> value(b) == value(a) - work(x, y),
        forall|iz: int, ir: int, v: Scalar|
            new_field.grid.inside(iz, ir) && #[trigger] call_ensures(
                M::volume,
                (
                    m,
                    new_field.grid.r_edges[ir],
                    new_field.grid.r_edges[ir + 1],
                    new_field.grid.z_edges[iz],
                    new_field.grid.z_edges[iz + 1],
                ),
                v,
            ) ==> v == volume(new_field.grid.at(iz, ir)),
    ensures
        value(l1.mass) == value(l0.mass) + flip_total(
            flips,
            |k: int, c: Cons| work(c.rho, volume(k)),
            n,
        ),
        value(l1.energy) == value(l0.energy) + flip_total(
            flips,
            |k: int, c: Cons| work(c.e, volume(k)),
            n,
        ),
        value(l1.momentum_z) == value(l0.momentum_z) - closing_total(
            flips,
            |k: int, c: Cons| work(c.mz, volume(k)),
            n,
        ),
        value(l1.momentum_r) == value(l0.momentum_r) - closing_total(
            flips,
            |k: int, c: Cons| work(c.mr, volume(k)),
            n,
        ),
    decreases n,
{
    if n > 0 {
        let g = &new_field.grid;
        let f = flips[n - 1];
        let mid = choose|mid: FlipLedger| #[trigger]
            enters(m, g, mid, f, l1) && enter_all(m, g, l0, flips, n - 1, mid);
        lemma_entries_are_exact(m, new_field, flips, l0, n - 1, mid, value, work, volume);
        let k = f.cell as int;
        grid::law_interior_positions(g.nz as int, g.nr as int, k);
        let vol = choose|vol: Scalar| #[trigger]
            is_volume(m, g, k, vol) && if f.closing {
                &&& call_ensures(M::debit, (m, mid.mass, f.state.rho, vol), l1.mass)
                &&& call_ensures(M::debit, (m, mid.momentum_z, f.state.mz, vol), l1.momentum_z)
                &&& call_ensures(M::debit, (m, mid.momentum_r, f.state.mr, vol), l1.momentum_r)
                &&& call_ensures(M::debit, (m, mid.energy, f.state.e, vol), l1.energy)
            } else {
                &&& call_ensures(M::credit, (m, mid.mass, f.state.rho, vol), l1.mass)
                &&& call_ensures(M::credit, (m, mid.energy, f.state.e, vol), l1.energy)
                &&& l1.momentum_z == mid.momentum_z
                &&& l1.momentum_r == mid.momentum_r
            };
        let iz = k % (g.nz as int);
        let ir = k / (g.nz as int);
        assert(g.inside(iz, ir));
        assert(vol == volume(k));
    }
}

} // verus!
