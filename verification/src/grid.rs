//! The tensor-product, axisymmetric (z, r) grid of cell edges.
//!
//! Interior cells are stored row-major with z contiguous. Two layers of ghost
//! cells surround them in the padded layout; ghost widths mirror the interior.

use vstd::prelude::*;
use vstd::arithmetic::div_mod::*;
use crate::error;
use crate::error::CfdError;
use crate::scalar::{Scalar, INFINITE, ZERO};
use crate::text::Show;

verus! {

/// Ghost width on each side of each axis.
pub const NG: usize = 2;

/// The floating-point formulas that a grid is built from.
pub trait GridMath {
    /// The width of the cell between two edges.
    fn width(&self, lo: Scalar, hi: Scalar) -> Scalar;

    /// The midpoint of two edges.
    fn centre(&self, lo: Scalar, hi: Scalar) -> Scalar;

    /// The volume centroid of the shell between two radii.
    fn centroid(&self, lo: Scalar, hi: Scalar) -> Scalar;

    /// The centre of the cell below one with centre `c`, from the two widths.
    fn centre_below(&self, c: Scalar, below: Scalar, here: Scalar) -> Scalar;

    /// The centre of the cell above one with centre `c`, from the two widths.
    fn centre_above(&self, c: Scalar, here: Scalar, above: Scalar) -> Scalar;

    /// The edge one width above another.
    fn next_edge(&self, edge: Scalar, width: Scalar) -> Scalar;

    /// The edge `i` steps from zero.
    fn multiple(&self, i: usize, step: Scalar) -> Scalar;

    /// The value rounded to the precision of the cell data.
    fn narrow(&self, x: Scalar) -> Scalar;

    /// The volume of a cell over two pi.
    fn volume(&self, r_lo: Scalar, r_hi: Scalar, z_lo: Scalar, z_hi: Scalar) -> Scalar;
}

/// One of the two grid directions.
#[derive(Clone, Copy, Debug, PartialEq, Eq, Structural)]
pub enum Axis {
    Z,
    R,
}

/// Why an edge list is no grid axis.
#[derive(Clone, Copy, Debug, PartialEq)]
pub enum EdgeFault {
    /// Fewer than two entries.
    TooFew { axis: Axis, entries: usize },
    /// The first edge is not zero.
    FirstNotZero { axis: Axis, first: Scalar },
    /// An edge that is not finite or not above the one before it.
    NotIncreasing { axis: Axis, index: usize, before: Scalar, after: Scalar },
}

/// The edge at `i` is finite and above its predecessor.
pub open spec fn rises_at(edges: Seq<Scalar>, i: int) -> bool {
    edges[i].finite() && edges[i - 1].below(edges[i])
}

/// A list of cell edges: at least one cell, from exactly zero, strictly
/// increasing and finite.
pub open spec fn is_axis(edges: Seq<Scalar>) -> bool {
    &&& edges.len() >= 2
    &&& edges[0].equals(Scalar { bits: ZERO })
    &&& forall|i: int| 1 <= i < edges.len() ==> #[trigger] rises_at(edges, i)
}

/// `fault` is the first thing wrong with the edges of `axis`.
pub open spec fn is_first_fault(axis: Axis, edges: Seq<Scalar>, fault: EdgeFault) -> bool {
    match fault {
        EdgeFault::TooFew { axis: a, entries } => a == axis && entries == edges.len()
            && edges.len() < 2,
        EdgeFault::FirstNotZero { axis: a, first } => a == axis && edges.len() >= 2 && first
            == edges[0] && !edges[0].equals(Scalar { bits: ZERO }),
        EdgeFault::NotIncreasing { axis: a, index, before, after } => {
            &&& a == axis
            &&& 1 <= index < edges.len()
            &&& edges[0].equals(Scalar { bits: ZERO })
            &&& before == edges[index - 1]
            &&& after == edges[index as int]
            &&& !rises_at(edges, index as int)
            &&& forall|j: int| 1 <= j < index ==> #[trigger] rises_at(edges, j)
        },
    }
}

/// The smallest of a list of values, infinity when the list is empty.
pub open spec fn least(s: Seq<Scalar>) -> Scalar
    decreases s.len(),
{
    if s.len() == 0 {
        Scalar { bits: INFINITE }
    } else {
        least(s.drop_last()).smaller(s.last())
    }
}

/// The smaller of two integers.
pub open spec fn lesser(a: int, b: int) -> int {
    if a <= b {
        a
    } else {
        b
    }
}

/// A copy of a list of values.
pub fn copy_list<T: Copy>(v: &Vec<T>) -> (r: Vec<T>)
    ensures
        r@ == v@,
{
    let mut r: Vec<T> = Vec::new();
    let mut i: usize = 0;
    while i < v.len()
        invariant
            i <= v.len(),
            r@ == v@.take(i as int),
        decreases v.len() - i,
    {
        r.push(v[i]);
        i = i + 1;
        assert(v@.take(i as int) =~= v@.take(i - 1).push(v@[i - 1]));
    }
    assert(v@.take(v@.len() as int) =~= v@);
    r
}

/// Widths, centres and centroids of one axis, padded with two cells on each side.
#[derive(Debug)]
pub struct PaddedAxis {
    pub width: Vec<Scalar>,
    pub centre: Vec<Scalar>,
    pub centroid: Vec<Scalar>,
}

impl Clone for PaddedAxis {
    fn clone(&self) -> (r: PaddedAxis)
        ensures
            r.width@ == self.width@,
            r.centre@ == self.centre@,
            r.centroid@ == self.centroid@,
    {
        PaddedAxis {
            width: copy_list(&self.width),
            centre: copy_list(&self.centre),
            centroid: copy_list(&self.centroid),
        }
    }
}

/// The interior part of a padded axis comes from the edges.
pub open spec fn interior_from_edges<M: GridMath>(
    m: &M,
    e: Seq<Scalar>,
    w: Seq<Scalar>,
    c: Seq<Scalar>,
    v: Seq<Scalar>,
) -> bool {
    forall|p: int|
        2 <= p < e.len() + 1 ==> {
            &&& call_ensures(M::width, (m, e[p - 2], e[p - 1]), #[trigger] w[p])
            &&& call_ensures(M::centre, (m, e[p - 2], e[p - 1]), c[p])
            &&& call_ensures(M::centroid, (m, e[p - 2], e[p - 1]), v[p])
        }
}

/// Ghost widths mirror the interior widths; with fewer cells than ghost layers
/// the outermost interior cell is repeated.
pub open spec fn ghost_widths_mirror(w: Seq<Scalar>) -> bool {
    let n = w.len() - 4;
    &&& w[1] == w[2]
    &&& w[0] == w[2 + lesser(1, n - 1)]
    &&& w[n + 2] == w[n + 1]
    &&& w[n + 3] == w[n + 2 - lesser(2, n)]
}

/// Low-side ghost positions are the interior ones reflected across zero.
pub open spec fn low_side_reflected(c: Seq<Scalar>) -> bool {
    let n = c.len() - 4;
    &&& c[1] == c[2].negated()
    &&& c[0] == c[2 + lesser(1, n - 1)].negated()
}

/// Low-side ghost centres step outward by half the two adjacent widths.
pub open spec fn low_side_stepped<M: GridMath>(
    m: &M,
    w: Seq<Scalar>,
    c: Seq<Scalar>,
    v: Seq<Scalar>,
) -> bool {
    &&& call_ensures(M::centre_below, (m, c[2], w[1], w[2]), c[1])
    &&& call_ensures(M::centre_below, (m, c[1], w[0], w[1]), c[0])
    &&& v[1] == c[1]
    &&& v[0] == c[0]
}

/// High-side ghost centres step outward, and their centroids are those of the
/// shells between the edges continued by the ghost widths.
pub open spec fn high_side_stepped<M: GridMath>(
    m: &M,
    e: Seq<Scalar>,
    w: Seq<Scalar>,
    c: Seq<Scalar>,
    v: Seq<Scalar>,
) -> bool {
    let n = e.len() - 1;
    &&& call_ensures(M::centre_above, (m, c[n + 1], w[n + 1], w[n + 2]), c[n + 2])
    &&& call_ensures(M::centre_above, (m, c[n + 2], w[n + 2], w[n + 3]), c[n + 3])
    &&& exists|e1: Scalar, e2: Scalar|
        {
            &&& #[trigger] call_ensures(M::next_edge, (m, e[n], w[n + 2]), e1)
            &&& #[trigger] call_ensures(M::next_edge, (m, e1, w[n + 3]), e2)
            &&& call_ensures(M::centroid, (m, e[n], e1), v[n + 2])
            &&& call_ensures(M::centroid, (m, e1, e2), v[n + 3])
        }
}

/// A padded axis is what the edges give.
pub open spec fn pads<M: GridMath>(
    m: &M,
    e: Seq<Scalar>,
    mirror_low: bool,
    w: Seq<Scalar>,
    c: Seq<Scalar>,
    v: Seq<Scalar>,
) -> bool {
    &&& w.len() == e.len() + 3
    &&& c.len() == e.len() + 3
    &&& v.len() == e.len() + 3
    &&& interior_from_edges(m, e, w, c, v)
    &&& ghost_widths_mirror(w)
    &&& if mirror_low {
        low_side_reflected(c) && low_side_reflected(v)
    } else {
        low_side_stepped(m, w, c, v)
    }
    &&& high_side_stepped(m, e, w, c, v)
}

/// Padded widths, centres and volume centroids of one axis. `mirror_low`
/// reflects the low-side ghost positions across zero exactly, which the r axis
/// needs for its mirror rows.
pub fn pad_axis<M: GridMath>(m: &M, edges: &Vec<Scalar>, mirror_low: bool) -> (r: PaddedAxis)
    requires
        2 <= edges.len() < usize::MAX - 4,
    ensures
        pads(m, edges@, mirror_low, r.width@, r.centre@, r.centroid@),
{
    let n: usize = edges.len() - 1;
    let blank = Scalar { bits: ZERO };
    let mut w: Vec<Scalar> = Vec::new();
    let mut c: Vec<Scalar> = Vec::new();
    let mut v: Vec<Scalar> = Vec::new();
    w.push(blank);
    w.push(blank);
    c.push(blank);
    c.push(blank);
    v.push(blank);
    v.push(blank);
    let mut i: usize = 0;
    while i < n
        invariant
            n == edges.len() - 1,
            i <= n,
            w.len() == i + 2,
            c.len() == i + 2,
            v.len() == i + 2,
            forall|p: int|
                2 <= p < i + 2 ==> {
                    &&& call_ensures(M::width, (m, edges[p - 2], edges[p - 1]), #[trigger] w[p])
                    &&& call_ensures(M::centre, (m, edges[p - 2], edges[p - 1]), c[p])
                    &&& call_ensures(M::centroid, (m, edges[p - 2], edges[p - 1]), v[p])
                },
        decreases n - i,
    {
        w.push(m.width(edges[i], edges[i + 1]));
        c.push(m.centre(edges[i], edges[i + 1]));
        v.push(m.centroid(edges[i], edges[i + 1]));
        i = i + 1;
    }
    let ghost (w0, c0, v0) = (w@, c@, v@);
    assert(interior_from_edges(m, edges@, w0, c0, v0)) by {
        assert forall|p: int| 2 <= p < edges@.len() + 1 implies {
            &&& call_ensures(M::width, (m, edges@[p - 2], edges@[p - 1]), #[trigger] w0[p])
            &&& call_ensures(M::centre, (m, edges@[p - 2], edges@[p - 1]), c0[p])
            &&& call_ensures(M::centroid, (m, edges@[p - 2], edges@[p - 1]), v0[p])
        } by {
            assert(w0[p] == w[p]);
        }
    }
    let second: usize = if n == 1 {
        2
    } else {
        3
    };
    let last_but_one: usize = if n == 1 {
        2
    } else {
        n
    };
    w.set(1, w[2]);
    w.set(0, w[second]);
    w.push(w[n + 1]);
    w.push(w[last_but_one]);
    if mirror_low {
        c.set(1, c[2].neg());
        v.set(1, v[2].neg());
        c.set(0, c[second].neg());
        v.set(0, v[second].neg());
    } else {
        let near = m.centre_below(c[2], w[1], w[2]);
        let far = m.centre_below(near, w[0], w[1]);
        c.set(1, near);
        c.set(0, far);
        v.set(1, near);
        v.set(0, far);
    }
    let near = m.centre_above(c[n + 1], w[n + 1], w[n + 2]);
    let far = m.centre_above(near, w[n + 2], w[n + 3]);
    let e1 = m.next_edge(edges[n], w[n + 2]);
    let e2 = m.next_edge(e1, w[n + 3]);
    let v1 = m.centroid(edges[n], e1);
    let v2 = m.centroid(e1, e2);
    c.push(near);
    c.push(far);
    v.push(v1);
    v.push(v2);
    proof {
        assert(call_ensures(M::next_edge, (m, edges@[n as int], w@[n + 2]), e1));
        assert(call_ensures(M::next_edge, (m, e1, w@[n + 3]), e2));
        assert(high_side_stepped(m, edges@, w@, c@, v@));
        assert forall|p: int| 2 <= p < edges.len() + 1 implies w0[p] == #[trigger] w@[p] && c0[p]
            == c@[p] && v0[p] == v@[p] by {}
        assert(ghost_widths_mirror(w@));
    }
    PaddedAxis { width: w, centre: c, centroid: v }
}

/// `fault` is the first fault of the edge lists.
pub open spec fn is_edge_fault(
    z_edges: Seq<Scalar>,
    r_edges: Seq<Scalar>,
    fault: EdgeFault,
) -> bool {
    is_first_fault(Axis::Z, z_edges, fault) || is_axis(z_edges) && is_first_fault(
        Axis::R,
        r_edges,
        fault,
    )
}

/// Checks one edge list.
pub fn check_axis(axis: Axis, edges: &Vec<Scalar>) -> (r: Result<(), EdgeFault>)
    ensures
        match r {
            Ok(_) => is_axis(edges@),
            Err(fault) => is_first_fault(axis, edges@, fault),
        },
{
    if edges.len() < 2 {
        return Err(EdgeFault::TooFew { axis, entries: edges.len() });
    }
    if !edges[0].same(Scalar { bits: ZERO }) {
        return Err(EdgeFault::FirstNotZero { axis, first: edges[0] });
    }
    let mut i: usize = 1;
    while i < edges.len()
        invariant
            1 <= i <= edges.len(),
            edges.len() >= 2,
            edges[0].equals(Scalar { bits: ZERO }),
            forall|j: int| 1 <= j < i ==> #[trigger] rises_at(edges@, j),
        decreases edges.len() - i,
    {
        if !(edges[i].is_finite() && edges[i - 1].lt(edges[i])) {
            return Err(
                EdgeFault::NotIncreasing {
                    axis,
                    index: i,
                    before: edges[i - 1],
                    after: edges[i],
                },
            );
        }
        assert(rises_at(edges@, i as int));
        i = i + 1;
    }
    Ok(())
}

/// The smallest of the values between two positions.
fn least_of(s: &Vec<Scalar>, from: usize, to: usize) -> (r: Scalar)
    requires
        from <= to <= s.len(),
    ensures
        r == least(s@.subrange(from as int, to as int)),
{
    let mut r = Scalar { bits: INFINITE };
    let mut i: usize = from;
    assert(s@.subrange(from as int, from as int) =~= Seq::empty());
    while i < to
        invariant
            from <= i <= to <= s.len(),
            r == least(s@.subrange(from as int, i as int)),
        decreases to - i,
    {
        assert(s@.subrange(from as int, i + 1).drop_last() =~= s@.subrange(from as int, i as int));
        r = r.min(s[i]);
        i = i + 1;
    }
    r
}

/// Tensor-product grid of cell edges, graded or uniform. Lengths are in throat
/// radii; `r_edges[0]` is the axis.
#[derive(Debug)]
pub struct Grid {
    pub nz: usize,
    pub nr: usize,
    pub z_edges: Vec<Scalar>,
    pub r_edges: Vec<Scalar>,
    pub z: PaddedAxis,
    pub r: PaddedAxis,
    pub dz_min: Scalar,
    pub dr_min: Scalar,
    pub uniform: bool,
}

/// Position of interior cell (iz, ir) among the interior cells.
pub open spec fn cell(nz: int, iz: int, ir: int) -> int {
    ir * nz + iz
}

/// Position of cell (iz, ir) in the padded layout.
pub open spec fn padded_cell(nz: int, iz: int, ir: int) -> int {
    (ir + 2) * (nz + 4) + (iz + 2)
}

/// The first cell whose upper edge is not at or below `x`, the last cell when
/// there is none.
pub open spec fn is_cell_at(edges: Seq<Scalar>, x: Scalar, i: int) -> bool {
    &&& 0 <= i < edges.len() - 1
    &&& forall|j: int| 0 < j <= i ==> (#[trigger] edges[j]).at_most(x)
    &&& i < edges.len() - 2 ==> !edges[i + 1].at_most(x)
}

fn cell_at(edges: &Vec<Scalar>, x: Scalar) -> (i: usize)
    requires
        edges.len() >= 2,
    ensures
        is_cell_at(edges@, x, i as int),
{
    let mut i: usize = 0;
    while i + 2 < edges.len() && edges[i + 1].le(x)
        invariant
            i + 1 < edges.len(),
            forall|j: int| 0 < j <= i ==> (#[trigger] edges[j]).at_most(x),
        decreases edges.len() - i,
    {
        i = i + 1;
    }
    i
}

/// Both lists hold equal values.
pub open spec fn equal_lists(a: Seq<Scalar>, b: Seq<Scalar>) -> bool {
    a.len() == b.len() && forall|i: int| 0 <= i < a.len() ==> (#[trigger] a[i]).equals(b[i])
}

fn lists_equal(a: &Vec<Scalar>, b: &Vec<Scalar>) -> (r: bool)
    ensures
        r == equal_lists(a@, b@),
{
    if a.len() != b.len() {
        return false;
    }
    let mut i: usize = 0;
    while i < a.len()
        invariant
            i <= a.len(),
            a.len() == b.len(),
            forall|j: int| 0 <= j < i ==> (#[trigger] a[j]).equals(b[j]),
        decreases a.len() - i,
    {
        if !a[i].same(b[i]) {
            return false;
        }
        i = i + 1;
    }
    true
}

/// Rows are disjoint and ordered: an interior coordinate pair and its position
/// determine each other.
pub proof fn law_interior_layout(nz: int, nr: int, iz: int, ir: int)
    requires
        0 <= iz < nz,
        0 <= ir < nr,
    ensures
        0 <= cell(nz, iz, ir) < nz * nr,
        cell(nz, iz, ir) / nz == ir,
        cell(nz, iz, ir) % nz == iz,
{
    lemma_cell_bounds(nz, nr, iz, ir);
    lemma_fundamental_div_mod_converse(cell(nz, iz, ir), nz, ir, iz);
    assert(nr * nz == nz * nr) by (nonlinear_arith);
}

/// Every interior position is that of exactly one interior coordinate pair.
pub proof fn law_interior_positions(nz: int, nr: int, k: int)
    requires
        0 < nz,
        0 <= k < nz * nr,
    ensures
        0 <= k % nz < nz,
        0 <= k / nz < nr,
        cell(nz, k % nz, k / nz) == k,
{
    lemma_fundamental_div_mod(k, nz);
    let q = k / nz;
    let r = k % nz;
    assert(0 <= r < nz);
    assert(0 <= q && q < nr) by (nonlinear_arith)
        requires
            k == nz * q + r,
            0 <= r < nz,
            0 <= k < nz * nr,
    ;
    assert(q * nz == nz * q) by (nonlinear_arith);
}

/// Padded coordinates and padded positions determine each other.
pub proof fn law_padded_layout(nz: int, nr: int, iz: int, ir: int)
    requires
        0 <= nz,
        0 <= nr,
        -2 <= iz < nz + 2,
        -2 <= ir < nr + 2,
    ensures
        0 <= padded_cell(nz, iz, ir) < (nz + 4) * (nr + 4),
        padded_cell(nz, iz, ir) / (nz + 4) == ir + 2,
        padded_cell(nz, iz, ir) % (nz + 4) == iz + 2,
{
    law_interior_layout(nz + 4, nr + 4, iz + 2, ir + 2);
}

/// Every padded position is that of exactly one padded coordinate pair.
pub proof fn law_padded_positions(nz: int, nr: int, k: int)
    requires
        0 <= nz,
        0 <= nr,
        0 <= k < (nz + 4) * (nr + 4),
    ensures
        -2 <= k % (nz + 4) - 2 < nz + 2,
        -2 <= k / (nz + 4) - 2 < nr + 2,
        padded_cell(nz, k % (nz + 4) - 2, k / (nz + 4) - 2) == k,
{
    law_interior_positions(nz + 4, nr + 4, k);
}

proof fn lemma_cell_bounds(nz: int, nr: int, iz: int, ir: int)
    requires
        0 <= iz < nz,
        0 <= ir < nr,
    ensures
        0 <= cell(nz, iz, ir) < nr * nz,
        0 <= ir * nz <= cell(nz, iz, ir),
{
    assert(0 <= ir * nz && ir * nz + iz < nr * nz) by (nonlinear_arith)
        requires
            0 <= iz < nz,
            0 <= ir < nr,
    ;
}

/// Interior counts are within the padded ones.
pub proof fn lemma_products_fit(nz: int, nr: int)
    requires
        0 <= nz,
        0 <= nr,
    ensures
        0 <= nz * nr <= (nz + 4) * (nr + 4),
        nz + 4 <= (nz + 4) * (nr + 4),
        nr + 4 <= (nz + 4) * (nr + 4),
        nz * nr == nr * nz,
{
    assert(0 <= nz * nr <= (nz + 4) * (nr + 4) && nz + 4 <= (nz + 4) * (nr + 4) && nr + 4 <= (nz
        + 4) * (nr + 4) && nz * nr == nr * nz) by (nonlinear_arith)
        requires
            0 <= nz,
            0 <= nr,
    ;
}

impl Grid {
    /// The lengths agree and every position fits the machine.
    pub open spec fn wf(&self) -> bool {
        &&& self.nz >= 1
        &&& self.nr >= 1
        &&& self.z_edges.len() == self.nz + 1
        &&& self.r_edges.len() == self.nr + 1
        &&& self.z.width.len() == self.nz + 4
        &&& self.z.centre.len() == self.nz + 4
        &&& self.z.centroid.len() == self.nz + 4
        &&& self.r.width.len() == self.nr + 4
        &&& self.r.centre.len() == self.nr + 4
        &&& self.r.centroid.len() == self.nr + 4
        &&& (self.nz + 4) * (self.nr + 4) <= isize::MAX
    }

    /// The number of interior cells.
    pub open spec fn cells(&self) -> int {
        self.nz * self.nr
    }

    /// The number of cells in the padded layout.
    pub open spec fn padded_cells(&self) -> int {
        (self.nz + 4) * (self.nr + 4)
    }

    /// The position of an interior cell.
    pub open spec fn at(&self, iz: int, ir: int) -> int {
        cell(self.nz as int, iz, ir)
    }

    /// The position of a cell in the padded layout.
    pub open spec fn pad(&self, iz: int, ir: int) -> int {
        padded_cell(self.nz as int, iz, ir)
    }

    /// Interior coordinates.
    pub open spec fn inside(&self, iz: int, ir: int) -> bool {
        0 <= iz < self.nz && 0 <= ir < self.nr
    }

    /// Coordinates of the padded layout.
    pub open spec fn in_pad(&self, iz: int, ir: int) -> bool {
        -2 <= iz < self.nz + 2 && -2 <= ir < self.nr + 2
    }

    /// The grid is what `m` makes of the two edge lists.
    pub open spec fn built_from<M: GridMath>(
        &self,
        m: &M,
        z_edges: Seq<Scalar>,
        r_edges: Seq<Scalar>,
        uniform: bool,
    ) -> bool {
        &&& self.wf()
        &&& self.z_edges@ == z_edges
        &&& self.r_edges@ == r_edges
        &&& pads(m, z_edges, false, self.z.width@, self.z.centre@, self.z.centroid@)
        &&& pads(m, r_edges, true, self.r.width@, self.r.centre@, self.r.centroid@)
        &&& self.dz_min == least(self.z.width@.subrange(2, self.nz + 2))
        &&& self.dr_min == least(self.r.width@.subrange(2, self.nr + 2))
        &&& self.uniform == uniform
    }

    fn build<M: GridMath>(
        m: &M,
        z_edges: Vec<Scalar>,
        r_edges: Vec<Scalar>,
        uniform: bool,
    ) -> (g: Grid)
        requires
            z_edges.len() >= 2,
            r_edges.len() >= 2,
            (z_edges.len() + 3) * (r_edges.len() + 3) <= isize::MAX,
        ensures
            g.built_from(m, z_edges@, r_edges@, uniform),
    {
        let nz: usize = z_edges.len() - 1;
        let nr: usize = r_edges.len() - 1;
        proof {
            lemma_products_fit(nz as int, nr as int);
        }
        let z = pad_axis(m, &z_edges, false);
        let r = pad_axis(m, &r_edges, true);
        let dz_min = least_of(&z.width, NG, NG + nz);
        let dr_min = least_of(&r.width, NG, NG + nr);
        Grid { nz, nr, z_edges, r_edges, z, r, dz_min, dr_min, uniform }
    }

    /// Arbitrary cell edges, one list per axis. Each list needs at least two
    /// entries, must start at zero and be strictly increasing and finite.
    pub fn from_edges<M: GridMath + Show>(
        m: &M,
        z_edges: Vec<Scalar>,
        r_edges: Vec<Scalar>,
    ) -> (res: Result<Grid, CfdError>)
        requires
            (z_edges.len() + 3) * (r_edges.len() + 3) <= isize::MAX,
        ensures
            match res {
                Ok(g) => {
                    &&& is_axis(z_edges@)
                    &&& is_axis(r_edges@)
                    &&& g.built_from(m, z_edges@, r_edges@, false)
                },
                Err(e) => exists|fault: EdgeFault|
                    {
                        &&& #[trigger] is_edge_fault(z_edges@, r_edges@, fault)
                        &&& e matches CfdError::Grid(s) && error::describes(m, fault, s@)
                    },
            },
    {
        match check_axis(Axis::Z, &z_edges) {
            Ok(_) => {},
            Err(fault) => {
                assert(is_edge_fault(z_edges@, r_edges@, fault));
                return Err(fault.to_error(m));
            },
        }
        match check_axis(Axis::R, &r_edges) {
            Ok(_) => {},
            Err(fault) => {
                assert(is_edge_fault(z_edges@, r_edges@, fault));
                return Err(fault.to_error(m));
            },
        }
        Ok(Grid::build(m, z_edges, r_edges, false))
    }

    /// Equal spacing on each axis.
    pub fn uniform<M: GridMath>(m: &M, nz: usize, nr: usize, dz: Scalar, dr: Scalar) -> (g: Grid)
        requires
            nz > 0,
            nr > 0,
            dz.finite(),
            dr.finite(),
            (Scalar { bits: ZERO }).below(dz),
            (Scalar { bits: ZERO }).below(dr),
            (nz + 4) * (nr + 4) <= isize::MAX,
        ensures
            g.nz == nz,
            g.nr == nr,
            g.built_from(m, g.z_edges@, g.r_edges@, true),
            forall|i: int|
                0 <= i <= nz ==> call_ensures(
                    M::multiple,
                    (m, i as usize, dz),
                    #[trigger] g.z_edges[i],
                ),
            forall|i: int|
                0 <= i <= nr ==> call_ensures(
                    M::multiple,
                    (m, i as usize, dr),
                    #[trigger] g.r_edges[i],
                ),
    {
        proof {
            lemma_products_fit(nz as int, nr as int);
        }
        let z_edges = multiples(m, nz, dz);
        let r_edges = multiples(m, nr, dr);
        Grid::build(m, z_edges, r_edges, true)
    }

    /// Interior cell count.
    pub fn len(&self) -> (r: usize)
        requires
            self.wf(),
        ensures
            r == self.cells(),
            r <= isize::MAX,
    {
        proof {
            lemma_products_fit(self.nz as int, self.nr as int);
        }
        self.nz * self.nr
    }

    /// Whether there is no interior cell; never so on a grid.
    pub fn is_empty(&self) -> (r: bool)
        requires
            self.wf(),
        ensures
            r == (self.cells() == 0),
    {
        self.len() == 0
    }

    /// Row-major interior index, z contiguous.
    pub fn idx(&self, iz: usize, ir: usize) -> (r: usize)
        requires
            self.wf(),
            self.inside(iz as int, ir as int),
        ensures
            r == self.at(iz as int, ir as int),
            r < self.cells(),
    {
        proof {
            lemma_products_fit(self.nz as int, self.nr as int);
            lemma_cell_bounds(self.nz as int, self.nr as int, iz as int, ir as int);
        }
        ir * self.nz + iz
    }

    /// Padded row stride.
    pub fn snz(&self) -> (r: usize)
        requires
            self.wf(),
        ensures
            r == self.nz + 4,
    {
        proof {
            lemma_products_fit(self.nz as int, self.nr as int);
        }
        self.nz + 2 * NG
    }

    /// Padded row count.
    pub fn snr(&self) -> (r: usize)
        requires
            self.wf(),
        ensures
            r == self.nr + 4,
    {
        proof {
            lemma_products_fit(self.nz as int, self.nr as int);
        }
        self.nr + 2 * NG
    }

    /// Cell count of the padded layout.
    pub fn glen(&self) -> (r: usize)
        requires
            self.wf(),
        ensures
            r == self.padded_cells(),
    {
        self.snz() * self.snr()
    }

    /// Padded index. Negative coordinates reach the ghost cells.
    pub fn gidx(&self, iz: isize, ir: isize) -> (r: usize)
        requires
            self.wf(),
            self.in_pad(iz as int, ir as int),
        ensures
            r == self.pad(iz as int, ir as int),
            r < self.padded_cells(),
    {
        proof {
            lemma_products_fit(self.nz as int, self.nr as int);
            lemma_cell_bounds(self.nz + 4, self.nr + 4, iz + 2, ir + 2);
            assert((self.nr + 4) * (self.nz + 4) == (self.nz + 4) * (self.nr + 4))
                by (nonlinear_arith);
        }
        let row: usize = (ir + 2) as usize;
        let column: usize = (iz + 2) as usize;
        row * self.snz() + column
    }
}

impl Grid {
    /// Cell edges in z.
    pub fn z_edges(&self) -> (r: &Vec<Scalar>)
        ensures
            r@ == self.z_edges@,
    {
        &self.z_edges
    }

    /// Cell edges in r; the first is the axis.
    pub fn r_edges(&self) -> (r: &Vec<Scalar>)
        ensures
            r@ == self.r_edges@,
    {
        &self.r_edges
    }

    /// Width of column `iz`.
    pub fn dz(&self, iz: usize) -> (r: Scalar)
        requires
            self.wf(),
            iz < self.nz,
        ensures
            r == self.z.width[iz + 2],
    {
        self.z.width[NG + iz]
    }

    /// Width of row `ir`.
    pub fn dr(&self, ir: usize) -> (r: Scalar)
        requires
            self.wf(),
            ir < self.nr,
        ensures
            r == self.r.width[ir + 2],
    {
        self.r.width[NG + ir]
    }

    /// Finest column width.
    pub fn dz_min(&self) -> (r: Scalar)
        ensures
            r == self.dz_min,
    {
        self.dz_min
    }

    /// Finest row width.
    pub fn dr_min(&self) -> (r: Scalar)
        ensures
            r == self.dr_min,
    {
        self.dr_min
    }

    /// Lower face of column `iz`, in cell-data precision.
    pub fn z_face<M: GridMath>(&self, m: &M, iz: usize) -> (r: Scalar)
        requires
            self.wf(),
            iz <= self.nz,
        ensures
            call_ensures(M::narrow, (m, self.z_edges[iz as int]), r),
    {
        m.narrow(self.z_edges[iz])
    }

    /// Lower face radius of row `ir`, in cell-data precision.
    pub fn r_face<M: GridMath>(&self, m: &M, ir: usize) -> (r: Scalar)
        requires
            self.wf(),
            ir <= self.nr,
        ensures
            call_ensures(M::narrow, (m, self.r_edges[ir as int]), r),
    {
        m.narrow(self.r_edges[ir])
    }

    /// Centre of column `iz`.
    pub fn z_center(&self, iz: usize) -> (r: Scalar)
        requires
            self.wf(),
            iz < self.nz,
        ensures
            r == self.z.centre[iz + 2],
    {
        self.z.centre[NG + iz]
    }

    /// Mean of the two face radii of row `ir`.
    pub fn r_center(&self, ir: usize) -> (r: Scalar)
        requires
            self.wf(),
            ir < self.nr,
        ensures
            r == self.r.centre[ir + 2],
    {
        self.r.centre[NG + ir]
    }

    /// Width of a padded column.
    pub fn dz_g(&self, iz: isize) -> (r: Scalar)
        requires
            self.wf(),
            -2 <= iz < self.nz + 2,
        ensures
            r == self.z.width[iz + 2],
    {
        proof {
            lemma_products_fit(self.nz as int, self.nr as int);
        }
        self.z.width[(iz + 2) as usize]
    }

    /// Width of a padded row.
    pub fn dr_g(&self, ir: isize) -> (r: Scalar)
        requires
            self.wf(),
            -2 <= ir < self.nr + 2,
        ensures
            r == self.r.width[ir + 2],
    {
        proof {
            lemma_products_fit(self.nz as int, self.nr as int);
        }
        self.r.width[(ir + 2) as usize]
    }

    /// Centre of a padded column.
    pub fn z_center_g(&self, iz: isize) -> (r: Scalar)
        requires
            self.wf(),
            -2 <= iz < self.nz + 2,
        ensures
            r == self.z.centre[iz + 2],
    {
        proof {
            lemma_products_fit(self.nz as int, self.nr as int);
        }
        self.z.centre[(iz + 2) as usize]
    }

    /// Mean face radius of a padded row, mirrored below the axis.
    pub fn r_center_g(&self, ir: isize) -> (r: Scalar)
        requires
            self.wf(),
            -2 <= ir < self.nr + 2,
        ensures
            r == self.r.centre[ir + 2],
    {
        proof {
            lemma_products_fit(self.nz as int, self.nr as int);
        }
        self.r.centre[(ir + 2) as usize]
    }

    /// Volume centroid of a padded row, mirrored below the axis. Radial
    /// reconstruction uses these positions.
    pub fn r_centroid_g(&self, ir: isize) -> (r: Scalar)
        requires
            self.wf(),
            -2 <= ir < self.nr + 2,
        ensures
            r == self.r.centroid[ir + 2],
    {
        proof {
            lemma_products_fit(self.nz as int, self.nr as int);
        }
        self.r.centroid[(ir + 2) as usize]
    }

    /// Cell volume over two pi, from the exact edges.
    pub fn cell_vol<M: GridMath>(&self, m: &M, iz: usize, ir: usize) -> (r: Scalar)
        requires
            self.wf(),
            self.inside(iz as int, ir as int),
        ensures
            call_ensures(
                M::volume,
                (
                    m,
                    self.r_edges[ir as int],
                    self.r_edges[ir + 1],
                    self.z_edges[iz as int],
                    self.z_edges[iz + 1],
                ),
                r,
            ),
    {
        m.volume(self.r_edges[ir], self.r_edges[ir + 1], self.z_edges[iz], self.z_edges[iz + 1])
    }

    /// Domain length.
    pub fn lz(&self) -> (r: Scalar)
        requires
            self.wf(),
        ensures
            r == self.z_edges@.last(),
    {
        self.z_edges[self.nz]
    }

    /// Domain radius.
    pub fn lr(&self) -> (r: Scalar)
        requires
            self.wf(),
        ensures
            r == self.r_edges@.last(),
    {
        self.r_edges[self.nr]
    }

    /// Interior column containing coordinate `z`, clamped into range.
    pub fn z_cell_at(&self, z: Scalar) -> (i: usize)
        requires
            self.wf(),
        ensures
            is_cell_at(self.z_edges@, z, i as int),
    {
        cell_at(&self.z_edges, z)
    }

    /// Interior row containing radius `r`, clamped into range.
    pub fn r_cell_at(&self, r: Scalar) -> (i: usize)
        requires
            self.wf(),
        ensures
            is_cell_at(self.r_edges@, r, i as int),
    {
        cell_at(&self.r_edges, r)
    }

    /// Whether the grid was built with equal spacing. For display only.
    pub fn is_uniform(&self) -> (r: bool)
        ensures
            r == self.uniform,
    {
        self.uniform
    }

    /// The same cells with the same edges.
    pub open spec fn same_grid(&self, o: &Grid) -> bool {
        &&& self.nz == o.nz
        &&& self.nr == o.nr
        &&& equal_lists(self.z_edges@, o.z_edges@)
        &&& equal_lists(self.r_edges@, o.r_edges@)
    }
}

/// The grids agree in every value.
pub open spec fn identical(a: &Grid, b: &Grid) -> bool {
    &&& a.nz == b.nz
    &&& a.nr == b.nr
    &&& a.z_edges@ == b.z_edges@
    &&& a.r_edges@ == b.r_edges@
    &&& a.z.width@ == b.z.width@
    &&& a.z.centre@ == b.z.centre@
    &&& a.z.centroid@ == b.z.centroid@
    &&& a.r.width@ == b.r.width@
    &&& a.r.centre@ == b.r.centre@
    &&& a.r.centroid@ == b.r.centroid@
    &&& a.dz_min == b.dz_min
    &&& a.dr_min == b.dr_min
    &&& a.uniform == b.uniform
}

impl Clone for Grid {
    fn clone(&self) -> (r: Grid)
        ensures
            identical(&r, self),
            self.wf() ==> r.wf(),
    {
        Grid {
            nz: self.nz,
            nr: self.nr,
            z_edges: copy_list(&self.z_edges),
            r_edges: copy_list(&self.r_edges),
            z: self.z.clone(),
            r: self.r.clone(),
            dz_min: self.dz_min,
            dr_min: self.dr_min,
            uniform: self.uniform,
        }
    }
}

impl PartialEq for Grid {
    fn eq(&self, o: &Grid) -> (r: bool) {
        self.nz == o.nz && self.nr == o.nr && lists_equal(&self.z_edges, &o.z_edges)
            && lists_equal(&self.r_edges, &o.r_edges)
    }
}

impl vstd::std_specs::cmp::PartialEqSpecImpl for Grid {
    open spec fn obeys_eq_spec() -> bool {
        true
    }

    open spec fn eq_spec(&self, o: &Grid) -> bool {
        self.same_grid(o)
    }
}

/// A coordinate inside a grid axis lies in the cell that is found for it: at or
/// above the cell's lower edge and below its upper edge.
pub proof fn law_cell_at_contains(edges: Seq<Scalar>, x: Scalar, i: int)
    requires
        is_axis(edges),
        edges[0].at_most(x),
        x.below(edges.last()),
        is_cell_at(edges, x, i),
    ensures
        edges[i].at_most(x),
        x.below(edges[i + 1]),
{
    if i < edges.len() - 2 {
        assert(rises_at(edges, i + 1));
    }
}

/// The neighbour of interior position `k` in direction `d`: left, right, below
/// and above, in that order.
pub open spec fn neighbour(nz: int, nr: int, k: int, d: int) -> Option<int> {
    if d == 0 && k % nz > 0 {
        Some(k - 1)
    } else if d == 1 && k % nz + 1 < nz {
        Some(k + 1)
    } else if d == 2 && k / nz > 0 {
        Some(k - nz)
    } else if d == 3 && k / nz + 1 < nr {
        Some(k + nz)
    } else {
        None
    }
}

/// Two interior positions share a face.
pub open spec fn adjacent(nz: int, nr: int, i: int, j: int) -> bool {
    exists|d: int| 0 <= d < 4 && #[trigger] neighbour(nz, nr, i, d) == Some(j)
}

/// The neighbour of a coordinate pair differs from it by one step.
pub proof fn law_neighbour_coordinates(nz: int, nr: int, iz: int, ir: int)
    requires
        0 <= iz < nz,
        0 <= ir < nr,
    ensures
        ({
            let k = cell(nz, iz, ir);
            &&& neighbour(nz, nr, k, 0) == (if iz > 0 {
                Some(cell(nz, iz - 1, ir))
            } else {
                None
            })
            &&& neighbour(nz, nr, k, 1) == (if iz + 1 < nz {
                Some(cell(nz, iz + 1, ir))
            } else {
                None
            })
            &&& neighbour(nz, nr, k, 2) == (if ir > 0 {
                Some(cell(nz, iz, ir - 1))
            } else {
                None
            })
            &&& neighbour(nz, nr, k, 3) == (if ir + 1 < nr {
                Some(cell(nz, iz, ir + 1))
            } else {
                None
            })
        }),
{
    law_interior_layout(nz, nr, iz, ir);
    assert((ir - 1) * nz == ir * nz - nz) by (nonlinear_arith);
    assert((ir + 1) * nz == ir * nz + nz) by (nonlinear_arith);
}

/// A neighbour is an interior cell, and the cell is a neighbour of it.
pub proof fn law_neighbour_is_mutual(nz: int, nr: int, k: int, d: int)
    requires
        0 < nz,
        0 <= k < nz * nr,
        0 <= d < 4,
        neighbour(nz, nr, k, d) is Some,
    ensures
        0 <= neighbour(nz, nr, k, d)->0 < nz * nr,
        neighbour(nz, nr, k, d)->0 != k,
        adjacent(nz, nr, neighbour(nz, nr, k, d)->0, k),
{
    law_interior_positions(nz, nr, k);
    let iz = k % nz;
    let ir = k / nz;
    law_neighbour_coordinates(nz, nr, iz, ir);
    if d == 0 {
        law_interior_layout(nz, nr, iz - 1, ir);
        law_neighbour_coordinates(nz, nr, iz - 1, ir);
        assert(neighbour(nz, nr, k - 1, 1) == Some(k));
    } else if d == 1 {
        law_interior_layout(nz, nr, iz + 1, ir);
        law_neighbour_coordinates(nz, nr, iz + 1, ir);
        assert(neighbour(nz, nr, k + 1, 0) == Some(k));
    } else if d == 2 {
        law_interior_layout(nz, nr, iz, ir - 1);
        law_neighbour_coordinates(nz, nr, iz, ir - 1);
        assert(neighbour(nz, nr, k - nz, 3) == Some(k));
    } else {
        law_interior_layout(nz, nr, iz, ir + 1);
        law_neighbour_coordinates(nz, nr, iz, ir + 1);
        assert(neighbour(nz, nr, k + nz, 2) == Some(k));
    }
}

impl Grid {
    /// The neighbour of an interior cell in one of the four directions: left,
    /// right, below and above, in that order.
    pub fn neighbour(&self, k: usize, d: usize) -> (r: Option<usize>)
        requires
            self.wf(),
            k < self.cells(),
            d < 4,
        ensures
            r == (match neighbour(self.nz as int, self.nr as int, k as int, d as int) {
                Some(j) => Some(j as usize),
                None => None,
            }),
            r matches Some(j) ==> j < self.cells() && neighbour(
                self.nz as int,
                self.nr as int,
                k as int,
                d as int,
            ) == Some(j as int) && adjacent(self.nz as int, self.nr as int, k as int, j as int),
    {
        let iz: usize = k % self.nz;
        let ir: usize = k / self.nz;
        proof {
            lemma_products_fit(self.nz as int, self.nr as int);
            law_interior_positions(self.nz as int, self.nr as int, k as int);
            if neighbour(self.nz as int, self.nr as int, k as int, d as int) is Some {
                law_neighbour_is_mutual(self.nz as int, self.nr as int, k as int, d as int);
            }
        }
        if d == 0 {
            if iz > 0 {
                Some(k - 1)
            } else {
                None
            }
        } else if d == 1 {
            if iz + 1 < self.nz {
                Some(k + 1)
            } else {
                None
            }
        } else if d == 2 {
            if ir > 0 {
                Some(k - self.nz)
            } else {
                None
            }
        } else {
            if ir + 1 < self.nr {
                Some(k + self.nz)
            } else {
                None
            }
        }
    }
}

/// Equally spaced edges from zero.
fn multiples<M: GridMath>(m: &M, n: usize, step: Scalar) -> (r: Vec<Scalar>)
    requires
        n < usize::MAX,
    ensures
        r.len() == n + 1,
        forall|i: int|
            0 <= i <= n ==> call_ensures(M::multiple, (m, i as usize, step), #[trigger] r[i]),
{
    let mut r: Vec<Scalar> = Vec::new();
    let mut i: usize = 0;
    while i <= n
        invariant
            i <= n + 1,
            n < usize::MAX,
            r.len() == i,
            forall|j: int|
                0 <= j < i ==> call_ensures(M::multiple, (m, j as usize, step), #[trigger] r[j]),
        decreases n + 1 - i,
    {
        r.push(m.multiple(i, step));
        i = i + 1;
    }
    r
}

/// Every interior cell of a grid lies between its own two edges, along both axes: its
/// width, its centre and its centroid are theirs.
pub proof fn law_cells_lie_between_their_edges<M: GridMath>(
    m: &M,
    g: &Grid,
    z_edges: Seq<Scalar>,
    r_edges: Seq<Scalar>,
    uniform: bool,
    iz: int,
    ir: int,
)
    requires
        g.built_from(m, z_edges, r_edges, uniform),
        g.inside(iz, ir),
    ensures
        call_ensures(M::width, (m, z_edges[iz], z_edges[iz + 1]), g.z.width[iz + 2]),
        call_ensures(M::centre, (m, z_edges[iz], z_edges[iz + 1]), g.z.centre[iz + 2]),
        call_ensures(M::centroid, (m, z_edges[iz], z_edges[iz + 1]), g.z.centroid[iz + 2]),
        call_ensures(M::width, (m, r_edges[ir], r_edges[ir + 1]), g.r.width[ir + 2]),
        call_ensures(M::centre, (m, r_edges[ir], r_edges[ir + 1]), g.r.centre[ir + 2]),
        call_ensures(M::centroid, (m, r_edges[ir], r_edges[ir + 1]), g.r.centroid[ir + 2]),
{
    assert(g.z.width@[iz + 2] == g.z.width[iz + 2]);
    assert(g.r.width@[ir + 2] == g.r.width[ir + 2]);
}

/// The axis is a mirror: the ghost cell as far below it as a cell is above it has its
/// width, and its centre and centroid with the other sign.
pub proof fn law_the_axis_is_a_mirror<M: GridMath>(
    m: &M,
    g: &Grid,
    z_edges: Seq<Scalar>,
    r_edges: Seq<Scalar>,
    uniform: bool,
    k: int,
)
    requires
        g.built_from(m, z_edges, r_edges, uniform),
        0 <= k < 2,
        k < g.nr,
    ensures
        g.r.width[1 - k] == g.r.width[2 + k],
        g.r.centre[1 - k] == g.r.centre[2 + k].negated(),
        g.r.centroid[1 - k] == g.r.centroid[2 + k].negated(),
{
}

/// Ghost cells past the other three sides are as wide as the interior cells they mirror,
/// and their centres follow outwards, each from the last by the two widths; centroids past
/// the outer edge are those of the shells that the widths make.
pub proof fn law_ghost_cells_continue_the_grid<M: GridMath>(
    m: &M,
    g: &Grid,
    z_edges: Seq<Scalar>,
    r_edges: Seq<Scalar>,
    uniform: bool,
) -> (r: (Scalar, Scalar))
    requires
        g.built_from(m, z_edges, r_edges, uniform),
        g.nz >= 2,
        g.nr >= 2,
    ensures
        ({
            let n = g.nz as int;
            let k = g.nr as int;
            let (e1, e2) = r;
            &&& g.z.width[1] == g.z.width[2] && g.z.width[0] == g.z.width[3]
            &&& g.z.width[n + 2] == g.z.width[n + 1] && g.z.width[n + 3] == g.z.width[n]
            &&& g.r.width[k + 2] == g.r.width[k + 1] && g.r.width[k + 3] == g.r.width[k]
            &&& call_ensures(
                M::centre_below,
                (m, g.z.centre[2], g.z.width[1], g.z.width[2]),
                g.z.centre[1],
            )
            &&& call_ensures(
                M::centre_below,
                (m, g.z.centre[1], g.z.width[0], g.z.width[1]),
                g.z.centre[0],
            )
            &&& call_ensures(
                M::centre_above,
                (m, g.z.centre[n + 1], g.z.width[n + 1], g.z.width[n + 2]),
                g.z.centre[n + 2],
            )
            &&& call_ensures(
                M::centre_above,
                (m, g.z.centre[n + 2], g.z.width[n + 2], g.z.width[n + 3]),
                g.z.centre[n + 3],
            )
            &&& call_ensures(
                M::centre_above,
                (m, g.r.centre[k + 1], g.r.width[k + 1], g.r.width[k + 2]),
                g.r.centre[k + 2],
            )
            &&& call_ensures(
                M::centre_above,
                (m, g.r.centre[k + 2], g.r.width[k + 2], g.r.width[k + 3]),
                g.r.centre[k + 3],
            )
            &&& call_ensures(M::next_edge, (m, r_edges[k], g.r.width[k + 2]), e1)
            &&& call_ensures(M::next_edge, (m, e1, g.r.width[k + 3]), e2)
            &&& call_ensures(M::centroid, (m, r_edges[k], e1), g.r.centroid[k + 2])
            &&& call_ensures(M::centroid, (m, e1, e2), g.r.centroid[k + 3])
        }),
{
    let w = g.r.width@;
    let c = g.r.centre@;
    let v = g.r.centroid@;
    let k = g.nr as int;
    assert(high_side_stepped(m, r_edges, w, c, v));
    assert(high_side_stepped(m, z_edges, g.z.width@, g.z.centre@, g.z.centroid@));
    let (e1, e2) = choose|e1: Scalar, e2: Scalar|
        {
            &&& #[trigger] call_ensures(M::next_edge, (m, r_edges[k], w[k + 2]), e1)
            &&& #[trigger] call_ensures(M::next_edge, (m, e1, w[k + 3]), e2)
            &&& call_ensures(M::centroid, (m, r_edges[k], e1), v[k + 2])
            &&& call_ensures(M::centroid, (m, e1, e2), v[k + 3])
        };
    (e1, e2)
}

/// The smallest widths of a grid are those of some of its interior cells, and no interior
/// cell is narrower.
pub proof fn law_smallest_widths<M: GridMath>(
    m: &M,
    g: &Grid,
    z_edges: Seq<Scalar>,
    r_edges: Seq<Scalar>,
    uniform: bool,
    iz: int,
    ir: int,
)
    requires
        g.built_from(m, z_edges, r_edges, uniform),
        g.inside(iz, ir),
    ensures
        !g.z.width[iz + 2].below(g.dz_min),
        !g.r.width[ir + 2].below(g.dr_min),
        g.dz_min.bits == INFINITE || exists|j: int|
            0 <= j < g.nz && g.dz_min == #[trigger] g.z.width@[j + 2],
        g.dr_min.bits == INFINITE || exists|j: int|
            0 <= j < g.nr && g.dr_min == #[trigger] g.r.width@[j + 2],
{
    let z = g.z.width@.subrange(2, g.nz + 2);
    let r = g.r.width@.subrange(2, g.nr + 2);
    lemma_least(z, iz);
    lemma_least(r, ir);
    if g.dz_min.bits != INFINITE {
        let j = choose|j: int| 0 <= j < z.len() && least(z) == #[trigger] z[j];
        assert(g.dz_min == g.z.width@[j + 2]);
    }
    if g.dr_min.bits != INFINITE {
        let j = choose|j: int| 0 <= j < r.len() && least(r) == #[trigger] r[j];
        assert(g.dr_min == g.r.width@[j + 2]);
    }
}

proof fn lemma_least(s: Seq<Scalar>, i: int)
    ensures
        !least(s).nan(),
        0 <= i < s.len() ==> !s[i].below(least(s)),
        least(s).bits == INFINITE || exists|j: int| 0 <= j < s.len() && least(s) == #[trigger] s[j],
    decreases s.len(),
{
    if s.len() > 0 {
        let short = s.drop_last();
        lemma_least(short, i);
        if 0 <= i < short.len() {
            assert(short[i] == s[i]);
        }
        if least(s) == least(short) && least(short).bits != INFINITE {
            let j = choose|j: int| 0 <= j < short.len() && least(short) == #[trigger] short[j];
            assert(s[j] == short[j]);
        }
        assert(least(s) == least(short) || least(s) == s[s.len() - 1]);
    }
}

/// The edges of an axis start at zero and go up all the way, finite throughout.
pub proof fn law_axes_go_up(edges: Seq<Scalar>, i: int, j: int)
    requires
        is_axis(edges),
        0 <= i < j < edges.len(),
    ensures
        edges[0].magnitude() == 0,
        edges[i].finite() && edges[j].finite(),
        edges[i].below(edges[j]),
    decreases j - i,
{
    assert(rises_at(edges, j));
    if i > 0 {
        assert(rises_at(edges, i));
    }
    if j > i + 1 {
        law_axes_go_up(edges, i, j - 1);
    }
}

/// A fault of an edge list is the first there is: everything before it is in order, and it
/// itself is not.
pub proof fn law_faults_come_first(axis: Axis, edges: Seq<Scalar>, fault: EdgeFault)
    requires
        is_first_fault(axis, edges, fault),
    ensures
        !is_axis(edges),
        fault is TooFew ==> edges.len() < 2,
        fault is FirstNotZero ==> edges.len() >= 2 && edges[0].magnitude() != 0,
        fault matches EdgeFault::NotIncreasing { index, before, after, .. } ==> {
            &&& edges[0].magnitude() == 0
            &&& before == edges[index - 1] && after == edges[index as int]
            &&& !after.finite() || !before.below(after)
            &&& forall|j: int|
                1 <= j < index ==> (#[trigger] edges[j]).finite() && edges[j - 1].below(edges[j])
        },
{
    if let EdgeFault::NotIncreasing { index, before, after, .. } = fault {
        assert(!rises_at(edges, index as int));
        assert forall|j: int| 1 <= j < index implies (#[trigger] edges[j]).finite() && edges[j
            - 1].below(edges[j]) by {
            assert(rises_at(edges, j));
        }
    }
}

/// Two grids that agree in every value are cut alike and lay their cells out alike.
pub proof fn law_copies_are_cut_alike(a: &Grid, b: &Grid, i: int, iz: int, ir: int)
    requires
        identical(a, b),
    ensures
        a.at(iz, ir) == b.at(iz, ir),
        a.pad(iz, ir) == b.pad(iz, ir),
        a.inside(iz, ir) <==> b.inside(iz, ir),
        a.z_edges.len() == b.z_edges.len() && a.r_edges.len() == b.r_edges.len(),
        0 <= i < a.z_edges.len() ==> a.z_edges[i] == b.z_edges[i],
        0 <= i < a.r_edges.len() ==> a.r_edges[i] == b.r_edges[i],
        0 <= i < a.z.width.len() ==> a.z.width[i] == b.z.width[i],
        0 <= i < a.r.width.len() ==> a.r.width[i] == b.r.width[i],
        0 <= i < a.z.centre.len() ==> a.z.centre[i] == b.z.centre[i],
        0 <= i < a.r.centre.len() ==> a.r.centre[i] == b.r.centre[i],
        a.dz_min == b.dz_min && a.dr_min == b.dr_min && a.uniform == b.uniform,
{
}

} // verus!
