//! Moving cell data between the interior and the padded layout.

use vstd::prelude::*;
use crate::field::SolidField;
use crate::grid;
use crate::grid::Grid;
use crate::scalar::{Scalar, HALF};

verus! {

/// Two padded coordinate pairs with one position are the same pair.
pub proof fn lemma_pad_injective(g: &Grid, iz: int, ir: int, jz: int, jr: int)
    requires
        g.wf(),
        g.in_pad(iz, ir),
        g.in_pad(jz, jr),
        g.pad(iz, ir) == g.pad(jz, jr),
    ensures
        iz == jz,
        ir == jr,
{
    grid::law_padded_layout(g.nz as int, g.nr as int, iz, ir);
    grid::law_padded_layout(g.nz as int, g.nr as int, jz, jr);
}

/// Padded positions are within the padded layout.
pub proof fn lemma_pad_bounds(g: &Grid, iz: int, ir: int)
    requires
        g.wf(),
        g.in_pad(iz, ir),
    ensures
        0 <= g.pad(iz, ir) < g.padded_cells(),
{
    grid::law_padded_layout(g.nz as int, g.nr as int, iz, ir);
}

/// Interior positions are within the interior.
pub proof fn lemma_at_bounds(g: &Grid, iz: int, ir: int)
    requires
        g.wf(),
        g.inside(iz, ir),
    ensures
        0 <= g.at(iz, ir) < g.cells(),
{
    grid::law_interior_layout(g.nz as int, g.nr as int, iz, ir);
}

/// `v` holds the interior of the padded data `u`.
pub open spec fn is_interior<T>(g: &Grid, u: Seq<T>, v: Seq<T>) -> bool {
    &&& v.len() == g.cells()
    &&& forall|iz: int, ir: int| #[trigger]
        g.inside(iz, ir) ==> v[g.at(iz, ir)] == u[g.pad(iz, ir)]
}

/// `after` is `before` with its interior replaced by `v`.
pub open spec fn interior_replaced<T>(g: &Grid, before: Seq<T>, v: Seq<T>, after: Seq<T>) -> bool {
    &&& after.len() == before.len()
    &&& forall|iz: int, ir: int| #[trigger]
        g.in_pad(iz, ir) ==> after[g.pad(iz, ir)] == if g.inside(iz, ir) {
            v[g.at(iz, ir)]
        } else {
            before[g.pad(iz, ir)]
        }
}

/// The interior of padded data, row-major.
pub fn gather<T: Copy>(g: &Grid, u: &Vec<T>) -> (v: Vec<T>)
    requires
        g.wf(),
        u.len() == g.padded_cells(),
    ensures
        is_interior(g, u@, v@),
{
    let n: usize = g.len();
    let mut v: Vec<T> = Vec::new();
    let mut k: usize = 0;
    while k < n
        invariant
            g.wf(),
            n == g.cells(),
            n <= isize::MAX,
            u.len() == g.padded_cells(),
            k <= n,
            v.len() == k,
            forall|j: int|
                0 <= j < k ==> #[trigger] v[j] == u[g.pad(j % (g.nz as int), j / (g.nz as int))],
        decreases n - k,
    {
        proof {
            grid::law_interior_positions(g.nz as int, g.nr as int, k as int);
        }
        let iz: usize = k % g.nz;
        let ir: usize = k / g.nz;
        assert(iz < g.nz && ir < g.nr);
        assert(g.nz <= isize::MAX && g.nr <= isize::MAX) by {
            grid::lemma_products_fit(g.nz as int, g.nr as int);
        }
        let slot: usize = g.gidx(iz as isize, ir as isize);
        v.push(u[slot]);
        k = k + 1;
    }
    assert forall|iz: int, ir: int| #[trigger] g.inside(iz, ir) implies v@[g.at(iz, ir)]
        == u@[g.pad(iz, ir)] by {
        grid::law_interior_layout(g.nz as int, g.nr as int, iz, ir);
        assert(v@[g.at(iz, ir)] == u@[g.pad(iz, ir)]);
    }
    v
}

/// Puts interior data back into its places; ghost cells stay as they are.
pub fn scatter<T: Copy>(g: &Grid, u: &mut Vec<T>, v: &Vec<T>)
    requires
        g.wf(),
        old(u).len() == g.padded_cells(),
        v.len() == g.cells(),
    ensures
        interior_replaced(g, old(u)@, v@, final(u)@),
{
    let n: usize = g.len();
    let ghost before = u@;
    let mut k: usize = 0;
    while k < n
        invariant
            g.wf(),
            n == g.cells(),
            n <= isize::MAX,
            u.len() == g.padded_cells(),
            u.len() == before.len(),
            v.len() == n,
            k <= n,
            forall|iz: int, ir: int| #[trigger]
                g.in_pad(iz, ir) ==> u[g.pad(iz, ir)] == if g.inside(iz, ir) && g.at(iz, ir) < k {
                    v[g.at(iz, ir)]
                } else {
                    before[g.pad(iz, ir)]
                },
        decreases n - k,
    {
        proof {
            grid::law_interior_positions(g.nz as int, g.nr as int, k as int);
            grid::lemma_products_fit(g.nz as int, g.nr as int);
        }
        let iz: usize = k % g.nz;
        let ir: usize = k / g.nz;
        let slot: usize = g.gidx(iz as isize, ir as isize);
        let ghost was = u@;
        u.set(slot, v[k]);
        proof {
            assert forall|jz: int, jr: int| #[trigger] g.in_pad(jz, jr) implies u@[g.pad(jz, jr)]
                == if g.inside(jz, jr) && g.at(jz, jr) < k + 1 {
                v[g.at(jz, jr)]
            } else {
                before[g.pad(jz, jr)]
            } by {
                lemma_pad_bounds(g, jz, jr);
                if g.pad(jz, jr) == slot {
                    lemma_pad_injective(g, jz, jr, iz as int, ir as int);
                } else {
                    if g.inside(jz, jr) {
                        grid::law_interior_layout(g.nz as int, g.nr as int, jz, jr);
                    }
                }
            }
        }
        k = k + 1;
    }
    proof {
        assert forall|jz: int, jr: int| #[trigger] g.in_pad(jz, jr) implies u@[g.pad(jz, jr)]
            == if g.inside(jz, jr) {
            v[g.at(jz, jr)]
        } else {
            before[g.pad(jz, jr)]
        } by {
            if g.inside(jz, jr) {
                lemma_at_bounds(g, jz, jr);
            }
        }
    }
}

/// A coordinate held inside `0..n`.
pub open spec fn held(i: int, n: int) -> int {
    if i < 0 {
        0
    } else if i >= n {
        n - 1
    } else {
        i
    }
}

fn hold(i: isize, n: usize) -> (r: usize)
    requires
        n >= 1,
        n <= isize::MAX,
    ensures
        r == held(i as int, n as int),
{
    if i < 0 {
        0
    } else if i as usize >= n {
        n - 1
    } else {
        i as usize
    }
}

/// `out` is the solid field by threshold, with the edge cells repeated into the
/// ghost cells.
pub open spec fn is_padded_solid(solid: &SolidField, out: Seq<bool>) -> bool {
    let g = &solid.grid;
    &&& out.len() == g.padded_cells()
    &&& forall|iz: int, ir: int| #[trigger]
        g.in_pad(iz, ir) ==> out[g.pad(iz, ir)] == solid.solid(
            g.at(held(iz, g.nz as int), held(ir, g.nr as int)),
        )
}

/// Thresholds the solid fractions and repeats the edge into the ghost cells.
pub fn pad_solid(solid: &SolidField) -> (out: Vec<bool>)
    requires
        solid.wf(),
    ensures
        is_padded_solid(solid, out@),
{
    let g = &solid.grid;
    let n: usize = g.glen();
    let snz: usize = g.snz();
    let mut out: Vec<bool> = Vec::new();
    let mut q: usize = 0;
    proof {
        grid::lemma_products_fit(g.nz as int, g.nr as int);
    }
    while q < n
        invariant
            solid.wf(),
            g == &solid.grid,
            n == g.padded_cells(),
            snz == g.nz + 4,
            g.nz + 4 <= isize::MAX,
            g.nr + 4 <= isize::MAX,
            q <= n,
            out.len() == q,
            forall|j: int|
                0 <= j < q ==> #[trigger] out[j] == solid.solid(
                    g.at(
                        held(j % (snz as int) - 2, g.nz as int),
                        held(j / (snz as int) - 2, g.nr as int),
                    ),
                ),
        decreases n - q,
    {
        proof {
            grid::law_padded_positions(g.nz as int, g.nr as int, q as int);
        }
        let column: usize = q % snz;
        let row: usize = q / snz;
        let cz: usize = hold(column as isize - 2, g.nz);
        let cr: usize = hold(row as isize - 2, g.nr);
        out.push(solid.is_solid(g.idx(cz, cr)));
        q = q + 1;
    }
    proof {
        assert forall|iz: int, ir: int| #[trigger] g.in_pad(iz, ir) implies out@[g.pad(iz, ir)]
            == solid.solid(g.at(held(iz, g.nz as int), held(ir, g.nr as int))) by {
            grid::law_padded_layout(g.nz as int, g.nr as int, iz, ir);
            assert(out@[g.pad(iz, ir)] == out[g.pad(iz, ir)]);
        }
    }
    out
}

/// `after` has the ghost cells of `src` and the interior of `before`.
pub open spec fn ghosts_replaced<T>(g: &Grid, src: Seq<T>, before: Seq<T>, after: Seq<T>) -> bool {
    &&& after.len() == before.len()
    &&& forall|iz: int, ir: int| #[trigger]
        g.in_pad(iz, ir) ==> after[g.pad(iz, ir)] == if g.inside(iz, ir) {
            before[g.pad(iz, ir)]
        } else {
            src[g.pad(iz, ir)]
        }
}

/// Copies the ghost cells of `src`, leaving the interior of `dst` as it is.
pub fn copy_ghost_band<T: Copy>(src: &Vec<T>, dst: &mut Vec<T>, g: &Grid)
    requires
        g.wf(),
        src.len() == g.padded_cells(),
        old(dst).len() == g.padded_cells(),
    ensures
        ghosts_replaced(g, src@, old(dst)@, final(dst)@),
{
    let n: usize = g.glen();
    let snz: usize = g.snz();
    let ghost before = dst@;
    let mut q: usize = 0;
    proof {
        grid::lemma_products_fit(g.nz as int, g.nr as int);
    }
    while q < n
        invariant
            g.wf(),
            n == g.padded_cells(),
            snz == g.nz + 4,
            g.nz + 4 <= isize::MAX,
            g.nr + 4 <= isize::MAX,
            src.len() == n,
            dst.len() == n,
            before.len() == n,
            q <= n,
            forall|j: int|
                0 <= j < n ==> #[trigger] dst[j] == if j < q && !g.inside(
                    j % (snz as int) - 2,
                    j / (snz as int) - 2,
                ) {
                    src[j]
                } else {
                    before[j]
                },
        decreases n - q,
    {
        proof {
            grid::law_padded_positions(g.nz as int, g.nr as int, q as int);
        }
        let column: usize = q % snz;
        let row: usize = q / snz;
        let interior = column >= 2 && column - 2 < g.nz && row >= 2 && row - 2 < g.nr;
        if !interior {
            dst.set(q, src[q]);
        }
        q = q + 1;
    }
    proof {
        assert forall|iz: int, ir: int| #[trigger] g.in_pad(iz, ir) implies dst@[g.pad(iz, ir)]
            == if g.inside(iz, ir) {
            before[g.pad(iz, ir)]
        } else {
            src[g.pad(iz, ir)]
        } by {
            grid::law_padded_layout(g.nz as int, g.nr as int, iz, ir);
            assert(dst@[g.pad(iz, ir)] == dst[g.pad(iz, ir)]);
        }
    }
}

/// What is put into the padded layout is found there again, and the cells around it stay.
pub proof fn law_gathering_undoes_scattering<T>(
    g: &Grid,
    before: Seq<T>,
    v: Seq<T>,
    after: Seq<T>,
    back: Seq<T>,
    iz: int,
    ir: int,
)
    requires
        g.wf(),
        v.len() == g.cells(),
        interior_replaced(g, before, v, after),
        is_interior(g, after, back),
        -2 <= iz < g.nz + 2,
        -2 <= ir < g.nr + 2,
    ensures
        back == v,
        iz < 0 || iz >= g.nz || ir < 0 || ir >= g.nr ==> after[g.pad(iz, ir)] == before[g.pad(
            iz,
            ir,
        )],
        after.len() == before.len(),
{
    assert(g.in_pad(iz, ir));
    assert forall|k: int| 0 <= k < v.len() implies back[k] == v[k] by {
        grid::law_interior_positions(g.nz as int, g.nr as int, k);
        let jz: int = k % (g.nz as int);
        let jr: int = k / (g.nz as int);
        assert(g.inside(jz, jr));
        assert(g.in_pad(jz, jr));
    }
    assert(back =~= v);
}

/// The ghost cells of a padded solid field repeat the nearest cell of the grid: a cell
/// before the first column is as that one, and so on all four sides, and a cell of the grid
/// is solid where half of it is.
pub proof fn law_padded_solids_repeat_their_edge(
    solid: &SolidField,
    out: Seq<bool>,
    iz: int,
    ir: int,
)
    requires
        solid.wf(),
        solid.grid.nz > 0 && solid.grid.nr > 0,
        is_padded_solid(solid, out),
        -2 <= iz < solid.grid.nz + 2,
        -2 <= ir < solid.grid.nr + 2,
    ensures
        ({
            let g = &solid.grid;
            &&& iz < 0 ==> out[g.pad(iz, ir)] == out[g.pad(0, ir)]
            &&& iz >= g.nz ==> out[g.pad(iz, ir)] == out[g.pad(g.nz - 1, ir)]
            &&& ir < 0 ==> out[g.pad(iz, ir)] == out[g.pad(iz, 0)]
            &&& ir >= g.nr ==> out[g.pad(iz, ir)] == out[g.pad(iz, g.nr - 1)]
            &&& 0 <= iz < g.nz && 0 <= ir < g.nr ==> out[g.pad(iz, ir)] == (Scalar {
                bits: HALF,
            }).at_most(solid.fraction[g.at(iz, ir)])
        }),
{
    let g = &solid.grid;
    assert(g.in_pad(iz, ir));
    assert(g.in_pad(0, ir) && g.in_pad(g.nz - 1, ir));
    assert(g.in_pad(iz, 0) && g.in_pad(iz, g.nr - 1));
}

/// Copying the ghost cells takes those of the one and leaves the grid cells of the other.
pub proof fn law_ghost_bands_leave_the_grid<T>(
    g: &Grid,
    src: Seq<T>,
    before: Seq<T>,
    after: Seq<T>,
    iz: int,
    ir: int,
)
    requires
        ghosts_replaced(g, src, before, after),
        -2 <= iz < g.nz + 2,
        -2 <= ir < g.nr + 2,
    ensures
        0 <= iz < g.nz && 0 <= ir < g.nr ==> after[g.pad(iz, ir)] == before[g.pad(iz, ir)],
        iz < 0 || iz >= g.nz || ir < 0 || ir >= g.nr ==> after[g.pad(iz, ir)] == src[g.pad(
            iz,
            ir,
        )],
{
    assert(g.in_pad(iz, ir));
}

} // verus!
