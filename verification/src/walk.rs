//! The nearest marked cell of every cell, by a breadth-first walk.
//!
//! The walk starts from all marked cells at once and passes through every cell.
//! Each cell takes over the marked cell of the neighbour that met it first.

use vstd::prelude::*;
use vstd::seq_lib::*;
use crate::grid;
use crate::grid::Grid;

verus! {

/// The entry of a cell that the walk does not meet.
pub const UNMET: usize = usize::MAX;

/// The marked cells among the first `n`, in ascending order.
pub open spec fn marked_cells(marked: Seq<bool>, n: int) -> Seq<usize>
    decreases n,
{
    if n <= 0 {
        Seq::empty()
    } else if marked[n - 1] {
        marked_cells(marked, n - 1).push((n - 1) as usize)
    } else {
        marked_cells(marked, n - 1)
    }
}

/// Where step number `x` of the walk leads: from the cell met at `x / 4` in
/// direction `x % 4`.
pub open spec fn step_end(g: &Grid, order: Seq<usize>, x: int) -> Option<int> {
    grid::neighbour(g.nz as int, g.nr as int, order[x / 4] as int, x % 4)
}

/// The cell at `t` is `j`, and was met at the start or no later than by step `x`.
pub open spec fn met_at(
    order: Seq<usize>,
    from: Seq<int>,
    sources: int,
    j: int,
    x: int,
    t: int,
) -> bool {
    0 <= t < order.len() && order[t] == j && (t < sources || from[t] <= x)
}

/// The cell at `t` was met by one of the first `e` steps, from an earlier cell.
pub open spec fn met_by_step(
    g: &Grid,
    order: Seq<usize>,
    from: Seq<int>,
    e: int,
    t: int,
) -> bool {
    0 <= from[t] < e && from[t] < 4 * t && step_end(g, order, from[t]) == Some(order[t] as int)
}

/// Wherever step `x` leads has been met no later than by it.
pub open spec fn step_done(
    g: &Grid,
    order: Seq<usize>,
    from: Seq<int>,
    sources: int,
    x: int,
) -> bool {
    step_end(g, order, x) is Some ==> exists|t: int| #[trigger]
        met_at(order, from, sources, step_end(g, order, x)->0, x, t)
}

/// The cell at `t` has the marked cell of the one that met it; a marked cell has
/// itself.
pub open spec fn carried(
    order: Seq<usize>,
    from: Seq<int>,
    near: Seq<usize>,
    sources: int,
    t: int,
) -> bool {
    near[order[t] as int] == if t < sources {
        order[t]
    } else {
        near[order[from[t] / 4] as int]
    }
}

/// The cells in the order in which the walk meets them, `from` naming the step
/// that met each of the later ones, when the first `e` steps are done.
///
/// The marked cells come first, in ascending order. After that the steps run in
/// the order of the cells they start from and, for one cell, left, right, below
/// and above; a cell is met by the first step that leads to it.
#[verifier::opaque]
pub open spec fn is_walk(
    g: &Grid,
    marked: Seq<bool>,
    order: Seq<usize>,
    from: Seq<int>,
    e: int,
) -> bool {
    let v = marked_cells(marked, g.cells());
    &&& v.len() <= order.len()
    &&& order.len() == from.len()
    &&& 0 <= e <= 4 * order.len()
    &&& forall|t: int| 0 <= t < v.len() ==> #[trigger] order[t] == v[t]
    &&& forall|t: int| 0 <= t < order.len() ==> #[trigger] order[t] < g.cells()
    &&& forall|s: int, t: int|
        0 <= s < t < order.len() ==> #[trigger] order[s] != #[trigger] order[t]
    &&& forall|t: int|
        v.len() <= t < order.len() ==> #[trigger] met_by_step(g, order, from, e, t)
    &&& forall|s: int, t: int|
        v.len() <= s < t < order.len() ==> #[trigger] from[s] < #[trigger] from[t]
    &&& forall|x: int|
        0 <= x < e ==> #[trigger] step_done(g, order, from, v.len() as int, x)
}

/// A walk with all its steps done.
pub open spec fn is_whole_walk(
    g: &Grid,
    marked: Seq<bool>,
    order: Seq<usize>,
    from: Seq<int>,
) -> bool {
    is_walk(g, marked, order, from, 4 * order.len() as int)
}

/// `near` holds for every cell the marked cell that the walk brings to it.
#[verifier::opaque]
pub open spec fn carries(
    g: &Grid,
    marked: Seq<bool>,
    order: Seq<usize>,
    from: Seq<int>,
    near: Seq<usize>,
) -> bool {
    let v = marked_cells(marked, g.cells());
    &&& near.len() == g.cells()
    &&& forall|t: int|
        0 <= t < order.len() ==> #[trigger] carried(order, from, near, v.len() as int, t)
    &&& forall|t: int| 0 <= t < order.len() ==> near[#[trigger] order[t] as int] != UNMET
    &&& forall|k: int|
        0 <= k < near.len() && #[trigger] near[k] != UNMET ==> order.contains(k as usize)
    &&& forall|k: int| 0 <= k < near.len() ==> #[trigger] near[k] < g.cells() || near[k] == UNMET
}

/// `near` is what the whole walk brings to the cells.
pub open spec fn is_nearest(g: &Grid, marked: Seq<bool>, near: Seq<usize>) -> bool {
    exists|order: Seq<usize>, from: Seq<int>| #[trigger]
        is_whole_walk(g, marked, order, from) && carries(g, marked, order, from, near)
}

proof fn lemma_marked_cells(marked: Seq<bool>, n: int)
    requires
        0 <= n <= marked.len(),
        n <= usize::MAX,
    ensures
        forall|t: int|
            0 <= t < marked_cells(marked, n).len() ==> #[trigger] marked_cells(marked, n)[t] < n
                && marked[marked_cells(marked, n)[t] as int],
        forall|s: int, t: int|
            0 <= s < t < marked_cells(marked, n).len() ==> #[trigger] marked_cells(marked, n)[s]
                < #[trigger] marked_cells(marked, n)[t],
        forall|k: int|
            0 <= k < n && marked[k] ==> #[trigger] marked_cells(marked, n).contains(k as usize),
    decreases n,
{
    if n > 0 {
        lemma_marked_cells(marked, n - 1);
        let p = marked_cells(marked, n - 1);
        let v = marked_cells(marked, n);
        assert forall|k: int| 0 <= k < n && marked[k] implies #[trigger] v.contains(
            k as usize,
        ) by {
            if k == n - 1 {
                assert(v[v.len() - 1] == k);
            } else {
                assert(p.contains(k as usize));
                let t = choose|t: int| 0 <= t < p.len() && p[t] == k;
                assert(v[t] == k);
            }
        }
    }
}

/// For every cell the marked cell that a breadth-first walk brings to it.
pub fn nearest_marked(g: &Grid, marked: &Vec<bool>) -> (near: Vec<usize>)
    requires
        g.wf(),
        marked.len() == g.cells(),
    ensures
        is_nearest(g, marked@, near@),
{
    broadcast use group_to_multiset_ensures;

    let n: usize = g.len();
    let mut near: Vec<usize> = Vec::new();
    let mut order: Vec<usize> = Vec::new();
    let mut k: usize = 0;
    while k < n
        invariant
            g.wf(),
            n == g.cells(),
            n <= isize::MAX,
            marked.len() == n,
            k <= n,
            near.len() == k,
            order@ == marked_cells(marked@, k as int),
            forall|j: int|
                0 <= j < k ==> #[trigger] near[j] == if marked[j] {
                    j as usize
                } else {
                    UNMET
                },
        decreases n - k,
    {
        if marked[k] {
            near.push(k);
            order.push(k);
        } else {
            near.push(UNMET);
        }
        k = k + 1;
    }
    let ghost mut from: Seq<int> = Seq::new(order@.len(), |t: int| -1);
    let mut h: usize = 0;
    proof {
        lemma_walk_starts(g, marked@, order@, from, near@);
    }
    while h < order.len()
        invariant
            g.wf(),
            n == g.cells(),
            n <= isize::MAX,
            near.len() == n,
            h <= order.len(),
            is_walk(g, marked@, order@, from, 4 * h),
            carries(g, marked@, order@, from, near@),
        decreases near@.to_multiset().count(UNMET) + order.len() - h,
    {
        let cur: usize = order[h];
        let ghost left = near@.to_multiset().count(UNMET) + order.len() - h;
        proof {
            lemma_order_inside(g, marked@, order@, from, 4 * h as int, h as int);
        }
        let mut d: usize = 0;
        while d < 4
            invariant
                g.wf(),
                n == g.cells(),
                n <= isize::MAX,
                near.len() == n,
                d <= 4,
                h < order.len(),
                cur == order[h as int],
                cur < n,
                is_walk(g, marked@, order@, from, 4 * h + d),
                carries(g, marked@, order@, from, near@),
                left == near@.to_multiset().count(UNMET) + order.len() - h,
            decreases 4 - d,
        {
            let ghost x = 4 * h + d;
            assert(x / 4 == h && x % 4 == d);
            match g.neighbour(cur, d) {
                Some(j) => {
                    assert(step_end(g, order@, x) == Some(j as int));
                    if near[j] == UNMET {
                        proof {
                            lemma_unmet_is_new(g, marked@, order@, from, near@, j);
                            lemma_walk_grows(g, marked@, order@, from, j, x);
                            lemma_carries_on(g, marked@, order@, from, near@, j, x);
                            near@.to_multiset_ensures();
                            order@.to_multiset_ensures();
                            lemma_unmet_count_drops(near@, j as int, near@[cur as int]);
                            from = from.push(x);
                        }
                        near.set(j, near[cur]);
                        order.push(j);
                    } else {
                        proof {
                            lemma_met_before(g, marked@, order@, from, near@, j, x);
                        }
                    }
                },
                None => {
                    proof {
                        assert(step_end(g, order@, x) is None);
                        lemma_walk_stalls(g, marked@, order@, from, x);
                    }
                },
            }
            d = d + 1;
        }
        h = h + 1;
    }
    assert(is_whole_walk(g, marked@, order@, from));
    near
}

proof fn lemma_unmet_count_drops(near: Seq<usize>, j: int, b: usize)
    requires
        0 <= j < near.len(),
        near[j] == UNMET,
        b != UNMET,
    ensures
        near.update(j, b).to_multiset().count(UNMET) + 1 == near.to_multiset().count(UNMET),
{
    broadcast use group_to_multiset_ensures;

    assert(near.contains(UNMET));
}

proof fn lemma_walk_starts(
    g: &Grid,
    marked: Seq<bool>,
    order: Seq<usize>,
    from: Seq<int>,
    near: Seq<usize>,
)
    requires
        g.wf(),
        marked.len() == g.cells(),
        near.len() == g.cells(),
        g.cells() <= isize::MAX,
        order == marked_cells(marked, g.cells()),
        from.len() == order.len(),
        forall|j: int|
            0 <= j < near.len() ==> #[trigger] near[j] == if marked[j] {
                j as usize
            } else {
                UNMET
            },
    ensures
        is_walk(g, marked, order, from, 0),
        carries(g, marked, order, from, near),
{
    reveal(is_walk);
    reveal(carries);
    lemma_marked_cells(marked, g.cells());
}

proof fn lemma_order_inside(
    g: &Grid,
    marked: Seq<bool>,
    order: Seq<usize>,
    from: Seq<int>,
    e: int,
    t: int,
)
    requires
        is_walk(g, marked, order, from, e),
        0 <= t < order.len(),
    ensures
        order[t] < g.cells(),
{
    reveal(is_walk);
}

proof fn lemma_unmet_is_new(
    g: &Grid,
    marked: Seq<bool>,
    order: Seq<usize>,
    from: Seq<int>,
    near: Seq<usize>,
    j: usize,
)
    requires
        carries(g, marked, order, from, near),
        j < near.len(),
        near[j as int] == UNMET,
    ensures
        !order.contains(j),
{
    reveal(carries);
    if order.contains(j) {
        let t = choose|t: int| 0 <= t < order.len() && order[t] == j;
        assert(near[order[t] as int] != UNMET);
    }
}

proof fn lemma_walk_stalls(
    g: &Grid,
    marked: Seq<bool>,
    order: Seq<usize>,
    from: Seq<int>,
    x: int,
)
    requires
        is_walk(g, marked, order, from, x),
        0 <= x < 4 * order.len(),
        step_end(g, order, x) is None,
    ensures
        is_walk(g, marked, order, from, x + 1),
{
    reveal(is_walk);
    let v = marked_cells(marked, g.cells());
    assert(step_done(g, order, from, v.len() as int, x));
    assert forall|t: int| v.len() <= t < order.len() implies #[trigger] met_by_step(
        g,
        order,
        from,
        x + 1,
        t,
    ) by {
        assert(met_by_step(g, order, from, x, t));
    }
}

proof fn lemma_met_before(
    g: &Grid,
    marked: Seq<bool>,
    order: Seq<usize>,
    from: Seq<int>,
    near: Seq<usize>,
    j: usize,
    x: int,
)
    requires
        g.cells() <= isize::MAX,
        is_walk(g, marked, order, from, x),
        carries(g, marked, order, from, near),
        0 <= x < 4 * order.len(),
        j < near.len(),
        near[j as int] != UNMET,
        step_end(g, order, x) == Some(j as int),
    ensures
        is_walk(g, marked, order, from, x + 1),
{
    reveal(is_walk);
    reveal(carries);
    let v = marked_cells(marked, g.cells());
    assert(order.contains(j));
    let t = choose|t: int| 0 <= t < order.len() && order[t] == j;
    if t >= v.len() {
        assert(met_by_step(g, order, from, x, t));
    }
    assert(met_at(order, from, v.len() as int, step_end(g, order, x)->0, x, t));
    assert(step_done(g, order, from, v.len() as int, x));
    assert forall|t: int| v.len() <= t < order.len() implies #[trigger] met_by_step(
        g,
        order,
        from,
        x + 1,
        t,
    ) by {
        assert(met_by_step(g, order, from, x, t));
    }
}

proof fn lemma_carries_on(
    g: &Grid,
    marked: Seq<bool>,
    order: Seq<usize>,
    from: Seq<int>,
    near: Seq<usize>,
    j: usize,
    x: int,
)
    requires
        g.cells() <= isize::MAX,
        is_walk(g, marked, order, from, x),
        carries(g, marked, order, from, near),
        0 <= x < 4 * order.len(),
        j < near.len(),
        !order.contains(j),
    ensures
        near[order[x / 4] as int] != UNMET,
        carries(
            g,
            marked,
            order.push(j),
            from.push(x),
            near.update(j as int, near[order[x / 4] as int]),
        ),
{
    reveal(is_walk);
    reveal(carries);
    let v = marked_cells(marked, g.cells());
    let h = x / 4;
    let order1 = order.push(j);
    let from1 = from.push(x);
    let near1 = near.update(j as int, near[order[h] as int]);
    assert forall|t: int| 0 <= t < order.len() implies #[trigger] order[t] != j by {
        assert(order.contains(order[t]));
    }
    assert forall|t: int| 0 <= t < order1.len() implies #[trigger] carried(
        order1,
        from1,
        near1,
        v.len() as int,
        t,
    ) by {
        if t < order.len() {
            assert(carried(order, from, near, v.len() as int, t));
            assert(order1[t] == order[t]);
            if t >= v.len() {
                assert(met_by_step(g, order, from, x, t));
                assert(from1[t] == from[t]);
                assert(order1[from[t] / 4] == order[from[t] / 4]);
                assert(order[from[t] / 4] != j);
            }
        } else {
            assert(order1[h] == order[h]);
            assert(order[h] != j);
        }
    }
    assert forall|k: int| 0 <= k < near1.len() && #[trigger] near1[k] != UNMET implies
        order1.contains(k as usize) by {
        if k == j {
            assert(order1[order.len() as int] == j);
        } else {
            assert(near[k] != UNMET);
            let t = choose|t: int| 0 <= t < order.len() && order[t] == k;
            assert(order1[t] == k);
        }
    }
    assert forall|t: int| 0 <= t < order1.len() implies near1[#[trigger] order1[t] as int]
        != UNMET by {
        if t < order.len() {
            assert(order1[t] == order[t]);
        }
    }
}

proof fn lemma_walk_grows(
    g: &Grid,
    marked: Seq<bool>,
    order: Seq<usize>,
    from: Seq<int>,
    j: usize,
    x: int,
)
    requires
        is_walk(g, marked, order, from, x),
        0 <= x < 4 * order.len(),
        j < g.cells(),
        !order.contains(j),
        step_end(g, order, x) == Some(j as int),
    ensures
        is_walk(g, marked, order.push(j), from.push(x), x + 1),
{
    reveal(is_walk);
    let v = marked_cells(marked, g.cells());
    let order1 = order.push(j);
    let from1 = from.push(x);
    assert forall|s: int, t: int| 0 <= s < t < order1.len() implies #[trigger] order1[s]
        != #[trigger] order1[t] by {
        if t == order.len() {
            assert(order.contains(order[s]));
        } else {
            assert(order[s] != order[t]);
        }
    }
    assert forall|t: int| v.len() <= t < order1.len() implies #[trigger] met_by_step(
        g,
        order1,
        from1,
        x + 1,
        t,
    ) by {
        if t < order.len() {
            assert(met_by_step(g, order, from, x, t));
            assert(from1[t] == from[t]);
            assert(order1[from[t] / 4] == order[from[t] / 4]);
        } else {
            assert(order1[x / 4] == order[x / 4]);
        }
    }
    assert forall|s: int, t: int| v.len() <= s < t < order1.len() implies #[trigger] from1[s]
        < #[trigger] from1[t] by {
        assert(met_by_step(g, order, from, x, s));
        if t < order.len() {
            assert(from[s] < from[t]);
        }
    }
    assert forall|y: int| 0 <= y < x + 1 implies #[trigger] step_done(
        g,
        order1,
        from1,
        v.len() as int,
        y,
    ) by {
        assert(order1[y / 4] == order[y / 4]);
        assert(step_end(g, order1, y) == step_end(g, order, y));
        if y < x {
            assert(step_done(g, order, from, v.len() as int, y));
            if step_end(g, order, y) is Some {
                let t = choose|t: int| #[trigger]
                    met_at(order, from, v.len() as int, step_end(g, order, y)->0, y, t);
                assert(met_at(order1, from1, v.len() as int, step_end(g, order1, y)->0, y, t));
            }
        } else {
            assert(step_end(g, order1, y) == Some(j as int));
            assert(order1[order.len() as int] == j);
            assert(from1[order.len() as int] == x);
            let t = order.len() as int;
            assert(met_at(order1, from1, v.len() as int, step_end(g, order1, y)->0, y, t));
        }
    }
}

/// The number of face-to-face steps between two cells of an open grid.
pub open spec fn distance(nz: int, a: int, b: int) -> int {
    gap(a % nz, b % nz) + gap(a / nz, b / nz)
}

/// The distance of two integers.
pub open spec fn gap(a: int, b: int) -> int {
    if a <= b {
        b - a
    } else {
        a - b
    }
}

/// How many steps the walk has made from a marked cell to the cell at `t`.
spec fn level(from: Seq<int>, sources: int, t: int) -> int
    decreases t,
{
    if t < sources || t <= 0 || from[t] < 0 || from[t] / 4 >= t {
        0
    } else {
        level(from, sources, from[t] / 4) + 1
    }
}

proof fn lemma_level_increases(
    g: &Grid,
    marked: Seq<bool>,
    order: Seq<usize>,
    from: Seq<int>,
    s: int,
    t: int,
)
    requires
        is_whole_walk(g, marked, order, from),
        0 <= s <= t < order.len(),
    ensures
        ({
            let v = marked_cells(marked, g.cells()).len() as int;
            0 <= level(from, v, s) <= level(from, v, t)
        }),
    decreases t,
{
    let v = marked_cells(marked, g.cells()).len() as int;
    let e = 4 * order.len() as int;
    assert(t >= v ==> met_by_step(g, order, from, e, t)) by {
        reveal(is_walk);
    }
    assert(s >= v ==> met_by_step(g, order, from, e, s)) by {
        reveal(is_walk);
    }
    if t >= v {
        lemma_level_increases(g, marked, order, from, from[t] / 4, from[t] / 4);
        if s >= v {
            assert(s < t ==> from[s] < from[t]) by {
                reveal(is_walk);
            }
            assert(from[s] / 4 <= from[t] / 4);
            lemma_level_increases(g, marked, order, from, from[s] / 4, from[t] / 4);
        }
    }
}

proof fn lemma_neighbour_distance(nz: int, nr: int, k: int, d: int, b: int)
    requires
        0 < nz,
        0 <= k < nz * nr,
        0 <= d < 4,
        grid::neighbour(nz, nr, k, d) is Some,
    ensures
        distance(nz, grid::neighbour(nz, nr, k, d)->0, b) <= distance(nz, k, b) + 1,
{
    grid::law_interior_positions(nz, nr, k);
    let iz = k % nz;
    let ir = k / nz;
    grid::law_neighbour_coordinates(nz, nr, iz, ir);
    if d == 0 {
        grid::law_interior_layout(nz, nr, iz - 1, ir);
    } else if d == 1 {
        grid::law_interior_layout(nz, nr, iz + 1, ir);
    } else if d == 2 {
        grid::law_interior_layout(nz, nr, iz, ir - 1);
    } else {
        grid::law_interior_layout(nz, nr, iz, ir + 1);
    }
}

/// A cell other than `b` has a neighbour nearer to `b`, and is a neighbour of it.
proof fn lemma_nearer_neighbour(nz: int, nr: int, k: int, b: int) -> (r: (int, int))
    requires
        0 < nz,
        0 <= k < nz * nr,
        0 <= b < nz * nr,
        k != b,
    ensures
        0 <= r.0 < nz * nr,
        0 <= r.1 < 4,
        grid::neighbour(nz, nr, r.0, r.1) == Some(k),
        distance(nz, r.0, b) == distance(nz, k, b) - 1,
{
    grid::law_interior_positions(nz, nr, k);
    grid::law_interior_positions(nz, nr, b);
    let iz = k % nz;
    let ir = k / nz;
    let bz = b % nz;
    let br = b / nz;
    if iz > bz {
        grid::law_interior_layout(nz, nr, iz - 1, ir);
        grid::law_neighbour_coordinates(nz, nr, iz - 1, ir);
        (grid::cell(nz, iz - 1, ir), 1)
    } else if iz < bz {
        grid::law_interior_layout(nz, nr, iz + 1, ir);
        grid::law_neighbour_coordinates(nz, nr, iz + 1, ir);
        (grid::cell(nz, iz + 1, ir), 0)
    } else if ir > br {
        grid::law_interior_layout(nz, nr, iz, ir - 1);
        grid::law_neighbour_coordinates(nz, nr, iz, ir - 1);
        (grid::cell(nz, iz, ir - 1), 3)
    } else {
        assert(ir != br);
        grid::law_interior_layout(nz, nr, iz, ir + 1);
        grid::law_neighbour_coordinates(nz, nr, iz, ir + 1);
        (grid::cell(nz, iz, ir + 1), 2)
    }
}

/// What the walk brings to the cell at `t` is marked and no further away than
/// the walk has gone.
proof fn lemma_carried_is_close(
    g: &Grid,
    marked: Seq<bool>,
    order: Seq<usize>,
    from: Seq<int>,
    near: Seq<usize>,
    t: int,
)
    requires
        g.wf(),
        marked.len() == g.cells(),
        g.cells() <= isize::MAX,
        is_whole_walk(g, marked, order, from),
        carries(g, marked, order, from, near),
        0 <= t < order.len(),
    ensures
        ({
            let v = marked_cells(marked, g.cells()).len() as int;
            let source = near[order[t] as int] as int;
            &&& 0 <= source < g.cells()
            &&& marked[source]
            &&& distance(g.nz as int, order[t] as int, source) <= level(from, v, t)
        }),
    decreases t,
{
    let v = marked_cells(marked, g.cells());
    let e = 4 * order.len() as int;
    lemma_marked_cells(marked, g.cells());
    assert(carried(order, from, near, v.len() as int, t)) by {
        reveal(carries);
    }
    assert(order[t] < g.cells()) by {
        reveal(is_walk);
    }
    if t < v.len() {
        assert(order[t] == v[t]) by {
            reveal(is_walk);
        }
    } else {
        assert(met_by_step(g, order, from, e, t)) by {
            reveal(is_walk);
        }
        let h = from[t] / 4;
        lemma_carried_is_close(g, marked, order, from, near, h);
        assert(order[h] < g.cells()) by {
            reveal(is_walk);
        }
        lemma_neighbour_distance(
            g.nz as int,
            g.nr as int,
            order[h] as int,
            from[t] % 4,
            near[order[t] as int] as int,
        );
    }
}

/// The walk comes to every cell in no more steps than the cell is away from any
/// marked cell.
proof fn lemma_reached_early(
    g: &Grid,
    marked: Seq<bool>,
    order: Seq<usize>,
    from: Seq<int>,
    k: int,
    b: int,
) -> (t: int)
    requires
        g.wf(),
        marked.len() == g.cells(),
        g.cells() <= isize::MAX,
        is_whole_walk(g, marked, order, from),
        0 <= k < g.cells(),
        0 <= b < g.cells(),
        marked[b],
    ensures
        0 <= t < order.len(),
        order[t] == k,
        level(from, marked_cells(marked, g.cells()).len() as int, t) <= distance(
            g.nz as int,
            k,
            b,
        ),
    decreases distance(g.nz as int, k, b),
{
    let v = marked_cells(marked, g.cells());
    let nz = g.nz as int;
    let nr = g.nr as int;
    if k == b {
        lemma_marked_cells(marked, g.cells());
        assert(v.contains(k as usize));
        let t = choose|t: int| 0 <= t < v.len() && v[t] == k;
        assert(order[t] == v[t] && v.len() <= order.len()) by {
            reveal(is_walk);
        }
        t
    } else {
        let (j, d) = lemma_nearer_neighbour(nz, nr, k, b);
        let h = lemma_reached_early(g, marked, order, from, j, b);
        let x = 4 * h + d;
        assert(x / 4 == h && x % 4 == d);
        assert(step_end(g, order, x) == Some(k));
        assert(step_done(g, order, from, v.len() as int, x)) by {
            reveal(is_walk);
        }
        let t = choose|t: int| #[trigger]
            met_at(order, from, v.len() as int, step_end(g, order, x)->0, x, t);
        assert(met_at(order, from, v.len() as int, step_end(g, order, x)->0, x, t));
        lemma_level_increases(g, marked, order, from, h, h);
        if t >= v.len() {
            assert(met_by_step(g, order, from, 4 * order.len() as int, t)) by {
                reveal(is_walk);
            }
            assert(from[t] / 4 <= h);
            lemma_level_increases(g, marked, order, from, from[t] / 4, h);
        }
        t
    }
}

/// What a cell gets is a marked cell.
pub proof fn lemma_nearest_is_marked(g: &Grid, marked: Seq<bool>, near: Seq<usize>, k: int)
    requires
        g.wf(),
        marked.len() == g.cells(),
        is_nearest(g, marked, near),
        0 <= k < g.cells(),
    ensures
        near.len() == g.cells(),
        near[k] != UNMET ==> near[k] < g.cells() && marked[near[k] as int],
{
    grid::lemma_products_fit(g.nz as int, g.nr as int);
    let (order, from) = choose|order: Seq<usize>, from: Seq<int>| #[trigger]
        is_whole_walk(g, marked, order, from) && carries(g, marked, order, from, near);
    assert(near.len() == g.cells()) by {
        reveal(carries);
    }
    if near[k] != UNMET {
        assert(order.contains(k as usize)) by {
            reveal(carries);
        }
        let t = choose|t: int| 0 <= t < order.len() && order[t] == k;
        lemma_carried_is_close(g, marked, order, from, near, t);
    }
}

/// As soon as one cell is marked, every cell gets a marked cell, and no marked
/// cell is nearer to it than the one it gets.
pub proof fn law_nearest_is_nearest(g: &Grid, marked: Seq<bool>, near: Seq<usize>, k: int, b: int)
    requires
        g.wf(),
        marked.len() == g.cells(),
        is_nearest(g, marked, near),
        0 <= k < g.cells(),
        0 <= b < g.cells(),
        marked[b],
    ensures
        near[k] != UNMET,
        near[k] < g.cells(),
        marked[near[k] as int],
        distance(g.nz as int, k, near[k] as int) <= distance(g.nz as int, k, b),
{
    grid::lemma_products_fit(g.nz as int, g.nr as int);
    let (order, from) = choose|order: Seq<usize>, from: Seq<int>| #[trigger]
        is_whole_walk(g, marked, order, from) && carries(g, marked, order, from, near);
    let t = lemma_reached_early(g, marked, order, from, k, b);
    lemma_carried_is_close(g, marked, order, from, near, t);
}

/// Without a marked cell no cell gets one.
pub proof fn law_nothing_marked(g: &Grid, marked: Seq<bool>, near: Seq<usize>, k: int)
    requires
        g.wf(),
        marked.len() == g.cells(),
        is_nearest(g, marked, near),
        0 <= k < g.cells(),
        forall|b: int| 0 <= b < g.cells() ==> !#[trigger] marked[b],
    ensures
        near[k] == UNMET,
{
    lemma_nearest_is_marked(g, marked, near, k);
}

} // verus!
