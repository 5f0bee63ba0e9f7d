//! The spacing of a domain around a solid: fine across the solid, coarser beyond.

use vstd::prelude::*;
use crate::error;
use crate::error::CfdError;
use crate::field::SolidField;
use crate::grid;
use crate::grid::{EdgeFault, Grid, GridMath};
use crate::scalar::{Scalar, ONE, ZERO};
use crate::text;
use crate::text::{decimal_text, Show};

verus! {

/// The pattern of the usual growth from cell to cell, 1.05.
pub const GROWTH: u64 = 0x3FF0_CCCC_CCCC_CCCD;

/// The pattern of the usual margin in cells, 8.
pub const MARGIN_CELLS: u64 = 0x4020_0000_0000_0000;

/// The pattern of the usual cap on a cell, 6 times the finest.
pub const MAX_RATIO: u64 = 0x4018_0000_0000_0000;

/// How to space a domain.
#[derive(Debug, Clone, Copy, PartialEq)]
pub struct GradeSpec {
    pub base_dz: Scalar,
    pub base_dr: Scalar,
    pub lz: Scalar,
    pub lr: Scalar,
    pub growth: Scalar,
    pub margin_cells: Scalar,
    pub max_ratio: Scalar,
}

/// The floating-point formulas of the spacing.
pub trait GradeMath: GridMath + Show {
    /// Where the fine cells end: a margin of cells beyond `end`.
    fn hold_end(&self, end: Scalar, margin_cells: Scalar, base: Scalar) -> Scalar;

    /// The cells of width `base` that reach to `end`, one at least.
    fn cells_to(&self, end: Scalar, base: Scalar) -> usize;

    /// The cells of about width `base` that divide `len`, one at least.
    fn cells_in(&self, len: Scalar, base: Scalar) -> usize;

    /// The width of each of `n` cells over `len`.
    fn even_width(&self, len: Scalar, n: usize) -> Scalar;

    /// What is left of `len` beyond `held`.
    fn left_over(&self, len: Scalar, held: Scalar) -> Scalar;

    /// A width times a factor.
    fn grown(&self, width: Scalar, factor: Scalar) -> Scalar;

    /// The sum of two lengths.
    fn sum(&self, a: Scalar, b: Scalar) -> Scalar;

    /// The factor from one length to another.
    fn stretch(&self, to: Scalar, from: Scalar) -> Scalar;

    /// The edge a stretched width beyond another.
    fn stretched_edge(&self, edge: Scalar, width: Scalar, factor: Scalar) -> Scalar;
}

impl GradeSpec {
    /// A spec with the usual growth, margin and cap.
    pub fn new(base_dz: Scalar, base_dr: Scalar, lz: Scalar, lr: Scalar) -> (r: GradeSpec)
        ensures
            r == (GradeSpec {
                base_dz,
                base_dr,
                lz,
                lr,
                growth: Scalar { bits: GROWTH },
                margin_cells: Scalar { bits: MARGIN_CELLS },
                max_ratio: Scalar { bits: MAX_RATIO },
            }),
    {
        GradeSpec {
            base_dz,
            base_dr,
            lz,
            lr,
            growth: Scalar { bits: GROWTH },
            margin_cells: Scalar { bits: MARGIN_CELLS },
            max_ratio: Scalar { bits: MAX_RATIO },
        }
    }

    /// Positive spacings that fit the extents, a growth and a cap of at least one,
    /// and no infinite value but perhaps the margin.
    pub open spec fn valid(self) -> bool {
        let zero = Scalar { bits: ZERO };
        let one = Scalar { bits: ONE };
        &&& zero.below(self.base_dz)
        &&& zero.below(self.base_dr)
        &&& self.base_dz.at_most(self.lz)
        &&& self.base_dr.at_most(self.lr)
        &&& one.at_most(self.growth)
        &&& zero.at_most(self.margin_cells)
        &&& one.at_most(self.max_ratio)
        &&& self.base_dz.finite()
        &&& self.base_dr.finite()
        &&& self.lz.finite()
        &&& self.lr.finite()
        &&& self.growth.finite()
        &&& self.max_ratio.finite()
    }

    /// Whether the spec can be used.
    pub fn is_valid(&self) -> (r: bool)
        ensures
            r == self.valid(),
    {
        let zero = Scalar { bits: ZERO };
        let one = Scalar { bits: ONE };
        zero.lt(self.base_dz) && zero.lt(self.base_dr) && self.base_dz.le(self.lz)
            && self.base_dr.le(self.lr) && one.le(self.growth) && zero.le(self.margin_cells)
            && one.le(self.max_ratio) && self.base_dz.is_finite() && self.base_dr.is_finite()
            && self.lz.is_finite() && self.lr.is_finite() && self.growth.is_finite()
            && self.max_ratio.is_finite()
    }
}

/// A field of a text for debugging.
pub open spec fn shows_field<S: Show>(m: &S, name: Seq<char>, x: Scalar, s: Seq<char>) -> bool {
    exists|a: String| #[trigger] call_ensures(S::show_debug, (m, x), a) && s == name + ": "@ + a@
}

fn show_field<S: Show>(m: &S, name: &str, x: Scalar) -> (s: String)
    ensures
        shows_field(m, name@, x, s@),
{
    let a = m.show_debug(x);
    let mut s = name.to_owned();
    s.append(": ");
    s.append(a.as_str());
    s
}

/// `s` lists the seven fields of a spec.
pub open spec fn shows_spec<S: Show>(
    m: &S,
    g: GradeSpec,
    f: Seq<Seq<char>>,
    s: Seq<char>,
) -> bool {
    &&& f.len() == 7
    &&& shows_field(m, "base_dz"@, g.base_dz, f[0])
    &&& shows_field(m, "base_dr"@, g.base_dr, f[1])
    &&& shows_field(m, "lz"@, g.lz, f[2])
    &&& shows_field(m, "lr"@, g.lr, f[3])
    &&& shows_field(m, "growth"@, g.growth, f[4])
    &&& shows_field(m, "margin_cells"@, g.margin_cells, f[5])
    &&& shows_field(m, "max_ratio"@, g.max_ratio, f[6])
    &&& s == "invalid GradeSpec: GradeSpec { "@ + f[0] + ", "@ + f[1] + ", "@ + f[2] + ", "@ + f[3]
        + ", "@ + f[4] + ", "@ + f[5] + ", "@ + f[6] + " }"@
}

/// `s` is the text of a spec that cannot be used.
pub open spec fn tells_spec<S: Show>(m: &S, g: GradeSpec, s: Seq<char>) -> bool {
    exists|f: Seq<Seq<char>>| #[trigger] shows_spec(m, g, f, s)
}

fn spec_text<S: Show>(m: &S, g: &GradeSpec) -> (s: String)
    ensures
        tells_spec(m, *g, s@),
{
    let f0 = show_field(m, "base_dz", g.base_dz);
    let f1 = show_field(m, "base_dr", g.base_dr);
    let f2 = show_field(m, "lz", g.lz);
    let f3 = show_field(m, "lr", g.lr);
    let f4 = show_field(m, "growth", g.growth);
    let f5 = show_field(m, "margin_cells", g.margin_cells);
    let f6 = show_field(m, "max_ratio", g.max_ratio);
    let mut s = "invalid GradeSpec: GradeSpec { ".to_owned();
    s.append(f0.as_str());
    s.append(", ");
    s.append(f1.as_str());
    s.append(", ");
    s.append(f2.as_str());
    s.append(", ");
    s.append(f3.as_str());
    s.append(", ");
    s.append(f4.as_str());
    s.append(", ");
    s.append(f5.as_str());
    s.append(", ");
    s.append(f6.as_str());
    s.append(" }");
    let ghost f = seq![f0@, f1@, f2@, f3@, f4@, f5@, f6@];
    assert(shows_spec(m, *g, f, s@));
    s
}

/// `edges` are the first `n + 1` multiples of `step`.
pub open spec fn are_multiples<M: GridMath>(
    m: &M,
    step: Scalar,
    n: int,
    edges: Seq<Scalar>,
) -> bool {
    &&& edges.len() == n + 1
    &&& forall|i: int|
        0 <= i <= n ==> call_ensures(M::multiple, (m, i as usize, step), #[trigger] edges[i])
}

fn multiples<M: GridMath>(m: &M, step: Scalar, n: usize) -> (edges: Vec<Scalar>)
    ensures
        are_multiples(m, step, n as int, edges@),
{
    let mut edges: Vec<Scalar> = Vec::new();
    let mut i: usize = 0;
    while i < n
        invariant
            i <= n,
            edges@.len() == i,
            forall|j: int|
                0 <= j < i ==> call_ensures(
                    M::multiple,
                    (m, j as usize, step),
                    #[trigger] edges@[j],
                ),
        decreases n - i,
    {
        edges.push(m.multiple(i, step));
        i = i + 1;
    }
    edges.push(m.multiple(n, step));
    edges
}

/// Cell `i` of the growing block fits, and the next one grows from it up to the
/// cap.
pub open spec fn grows_at<M: GradeMath>(
    m: &M,
    rest: Scalar,
    growth: Scalar,
    cap: Scalar,
    w: Seq<Scalar>,
    acc: Seq<Scalar>,
    i: int,
) -> bool {
    &&& call_ensures(M::sum, (m, acc[i], w[i]), acc[i + 1])
    &&& acc[i + 1].at_most(rest)
    &&& exists|next: Scalar| #[trigger]
        call_ensures(M::grown, (m, w[i], growth), next) && w[i + 1] == next.smaller(cap)
}

/// `w` are the widths of the growing block and the one that no longer fits, and
/// `acc` their running sums.
pub open spec fn are_widths<M: GradeMath>(
    m: &M,
    rest: Scalar,
    first: Scalar,
    growth: Scalar,
    cap: Scalar,
    w: Seq<Scalar>,
    acc: Seq<Scalar>,
) -> bool {
    &&& w.len() >= 1
    &&& acc.len() == w.len()
    &&& w[0] == first
    &&& acc[0].bits == ZERO
    &&& forall|i: int| 0 <= i < w.len() - 1 ==> #[trigger] grows_at(m, rest, growth, cap, w, acc, i)
    &&& w.len() - 1 == usize::MAX || exists|next: Scalar| #[trigger]
        call_ensures(M::sum, (m, acc.last(), w.last()), next) && !next.at_most(rest)
}

proof fn lemma_grows_extends<M: GradeMath>(
    m: &M,
    rest: Scalar,
    growth: Scalar,
    cap: Scalar,
    w: Seq<Scalar>,
    acc: Seq<Scalar>,
    w2: Seq<Scalar>,
    acc2: Seq<Scalar>,
)
    requires
        w.len() >= 1,
        acc.len() == w.len(),
        w2 == w.push(w2.last()),
        w2.len() == w.len() + 1,
        acc2 == acc.push(acc2.last()),
        acc2.len() == acc.len() + 1,
        forall|i: int|
            0 <= i < w.len() - 1 ==> #[trigger] grows_at(m, rest, growth, cap, w, acc, i),
        grows_at(m, rest, growth, cap, w2, acc2, w.len() - 1),
    ensures
        forall|i: int|
            0 <= i < w2.len() - 1 ==> #[trigger] grows_at(m, rest, growth, cap, w2, acc2, i),
{
    assert forall|i: int| 0 <= i < w2.len() - 1 implies #[trigger] grows_at(
        m,
        rest,
        growth,
        cap,
        w2,
        acc2,
        i,
    ) by {
        if i < w.len() - 1 {
            assert(grows_at(m, rest, growth, cap, w, acc, i));
        }
    }
}

/// The widths that fit, and their sum.
fn growing_block<M: GradeMath>(
    m: &M,
    rest: Scalar,
    first: Scalar,
    growth: Scalar,
    cap: Scalar,
) -> (r: (Vec<Scalar>, Scalar))
    ensures
        exists|w: Seq<Scalar>, acc: Seq<Scalar>| #[trigger]
            are_widths(m, rest, first, growth, cap, w, acc) && r.0@ == w.drop_last() && r.1
                == acc.last(),
{
    let mut widths: Vec<Scalar> = Vec::new();
    let mut w = first;
    let mut total = Scalar { bits: ZERO };
    let ghost mut ws: Seq<Scalar> = seq![first];
    let ghost mut acc: Seq<Scalar> = seq![total];
    while widths.len() < usize::MAX
        invariant_except_break
            ws.len() == widths.len() + 1,
            ws.last() == w,
            acc.len() == ws.len(),
            acc.last() == total,
            ws[0] == first,
            acc[0].bits == ZERO,
            widths@ == ws.drop_last(),
            forall|i: int|
                0 <= i < ws.len() - 1 ==> #[trigger] grows_at(m, rest, growth, cap, ws, acc, i),
        ensures
            are_widths(m, rest, first, growth, cap, ws, acc),
            widths@ == ws.drop_last(),
            total == acc.last(),
        decreases usize::MAX - widths.len(),
    {
        let next = m.sum(total, w);
        if !next.le(rest) {
            assert(call_ensures(M::sum, (m, acc.last(), ws.last()), next));
            break;
        }
        let grown = m.grown(w, growth);
        let ghost ws0 = ws;
        let ghost acc0 = acc;
        widths.push(w);
        total = next;
        proof {
            ws = ws.push(grown.smaller(cap));
            acc = acc.push(next);
            assert(call_ensures(M::grown, (m, w, growth), grown));
            assert(grows_at(m, rest, growth, cap, ws, acc, ws0.len() - 1));
            lemma_grows_extends(m, rest, growth, cap, ws0, acc0, ws, acc);
        }
        w = grown.min(cap);
    }
    (widths, total)
}

/// Edge `i` of the tail is a stretched width beyond the one before it.
pub open spec fn stretches_at<M: GradeMath>(
    m: &M,
    widths: Seq<Scalar>,
    factor: Scalar,
    tail: Seq<Scalar>,
    i: int,
) -> bool {
    call_ensures(M::stretched_edge, (m, tail[i], widths[i], factor), tail[i + 1])
}

/// The edges of an axis that is held fine and then grows.
pub open spec fn is_graded<M: GradeMath>(
    m: &M,
    base: Scalar,
    len: Scalar,
    n_base: int,
    fine: Seq<Scalar>,
    widths: Seq<Scalar>,
    factor: Scalar,
    tail: Seq<Scalar>,
    edges: Seq<Scalar>,
) -> bool {
    &&& are_multiples(m, base, n_base, fine)
    &&& tail.len() == widths.len() + 1
    &&& call_ensures(M::multiple, (m, n_base as usize, base), tail[0])
    &&& forall|i: int| 0 <= i < widths.len() ==> #[trigger] stretches_at(m, widths, factor, tail, i)
    &&& edges.len() == fine.len() + widths.len()
    &&& edges == (fine + tail.subrange(1, tail.len() as int)).update(edges.len() - 1, len)
}

/// The growing block of an axis and the factor it is stretched by.
pub open spec fn is_block<M: GradeMath>(
    m: &M,
    rest: Scalar,
    first: Scalar,
    growth: Scalar,
    cap: Scalar,
    widths: Seq<Scalar>,
    factor: Scalar,
) -> bool {
    exists|w: Seq<Scalar>, acc: Seq<Scalar>|
        {
            &&& #[trigger] are_widths(m, rest, first, growth, cap, w, acc)
            &&& widths == w.drop_last()
            &&& call_ensures(M::stretch, (m, rest, acc.last()), factor)
        }
}

/// The numbers that an axis is made from.
pub open spec fn axis_plan<M: GradeMath>(
    m: &M,
    hold_end: Scalar,
    base: Scalar,
    len: Scalar,
    growth: Scalar,
    n_base: usize,
    held: Scalar,
    rest: Scalar,
    first: Scalar,
) -> bool {
    &&& call_ensures(
        M::cells_to,
        (m, hold_end.held_between(Scalar { bits: ZERO }, len), base),
        n_base,
    )
    &&& call_ensures(M::multiple, (m, n_base, base), held)
    &&& call_ensures(M::left_over, (m, len, held), rest)
    &&& call_ensures(M::grown, (m, base, growth), first)
}

/// `edges` are those of an axis: even where there is no room or no wish to grow,
/// else held fine up to `hold_end` and growing behind it, stretched to end at
/// `len`.
pub open spec fn is_graded_axis<M: GradeMath>(
    m: &M,
    hold_end: Scalar,
    base: Scalar,
    len: Scalar,
    growth: Scalar,
    max_ratio: Scalar,
    n_base: usize,
    held: Scalar,
    rest: Scalar,
    first: Scalar,
    edges: Seq<Scalar>,
) -> bool {
    &&& axis_plan(m, hold_end, base, len, growth, n_base, held, rest, first)
    &&& if rest.below(first) || growth.at_most(Scalar { bits: ONE }) {
        exists|n: usize, step: Scalar|
            {
                &&& #[trigger] call_ensures(M::cells_in, (m, len, base), n)
                &&& #[trigger] call_ensures(M::even_width, (m, len, n), step)
                &&& are_multiples(m, step, n as int, edges)
            }
    } else {
        exists|
            cap: Scalar,
            widths: Seq<Scalar>,
            factor: Scalar,
            fine: Seq<Scalar>,
            tail: Seq<Scalar>,
        |
            {
                &&& call_ensures(M::grown, (m, base, max_ratio), cap)
                &&& #[trigger] is_block(m, rest, first, growth, cap, widths, factor)
                &&& #[trigger] is_graded(
                    m,
                    base,
                    len,
                    n_base as int,
                    fine,
                    widths,
                    factor,
                    tail,
                    edges,
                )
            }
    }
}

/// The edges of one axis.
pub fn graded_axis<M: GradeMath>(
    m: &M,
    hold_end: Scalar,
    base: Scalar,
    len: Scalar,
    growth: Scalar,
    max_ratio: Scalar,
) -> (edges: Vec<Scalar>)
    requires
        (Scalar { bits: ZERO }).at_most(len),
    ensures
        exists|n_base: usize, held: Scalar, rest: Scalar, first: Scalar| #[trigger]
            is_graded_axis(
                m,
                hold_end,
                base,
                len,
                growth,
                max_ratio,
                n_base,
                held,
                rest,
                first,
                edges@,
            ),
{
    let n_base: usize = m.cells_to(hold_end.clamp(Scalar { bits: ZERO }, len), base);
    let held = m.multiple(n_base, base);
    let rest = m.left_over(len, held);
    let first = m.grown(base, growth);
    assert(axis_plan(m, hold_end, base, len, growth, n_base, held, rest, first));
    if rest.lt(first) || growth.le(Scalar { bits: ONE }) {
        let n: usize = m.cells_in(len, base);
        let step = m.even_width(len, n);
        let edges = multiples(m, step, n);
        assert(is_graded_axis(
            m,
            hold_end,
            base,
            len,
            growth,
            max_ratio,
            n_base,
            held,
            rest,
            first,
            edges@,
        ));
        return edges;
    }
    let mut edges = multiples(m, base, n_base);
    let ghost fine = edges@;
    let cap = m.grown(base, max_ratio);
    let (widths, total) = growing_block(m, rest, first, growth, cap);
    let factor = m.stretch(rest, total);
    assert(is_block(m, rest, first, growth, cap, widths@, factor));
    let mut e = held;
    let ghost mut tail: Seq<Scalar> = seq![held];
    let mut i: usize = 0;
    while i < widths.len()
        invariant
            i <= widths.len(),
            tail.len() == i + 1,
            tail[0] == held,
            tail.last() == e,
            fine.len() >= 1,
            edges@ == fine + tail.subrange(1, tail.len() as int),
            forall|j: int| 0 <= j < i ==> #[trigger] stretches_at(m, widths@, factor, tail, j),
        decreases widths.len() - i,
    {
        let ghost tail0 = tail;
        let next = m.stretched_edge(e, widths[i], factor);
        edges.push(next);
        proof {
            tail = tail.push(next);
            assert(edges@ =~= fine + tail.subrange(1, tail.len() as int));
            assert forall|j: int| 0 <= j < i + 1 implies #[trigger] stretches_at(
                m,
                widths@,
                factor,
                tail,
                j,
            ) by {
                if j < i {
                    assert(stretches_at(m, widths@, factor, tail0, j));
                }
            }
        }
        e = next;
        i = i + 1;
    }
    let last: usize = edges.len() - 1;
    edges.set(last, len);
    assert(is_graded(
        m,
        base,
        len,
        n_base as int,
        fine,
        widths@,
        factor,
        tail,
        edges@,
    ));
    assert(is_graded_axis(
        m,
        hold_end,
        base,
        len,
        growth,
        max_ratio,
        n_base,
        held,
        rest,
        first,
        edges@,
    ));
    edges
}

/// The farthest upper edge of a cell with any solid, among the first `n` cells.
pub open spec fn solid_end(field: &SolidField, axial: bool, n: int) -> Scalar
    decreases n,
{
    let g = &field.grid;
    if n <= 0 {
        Scalar { bits: ZERO }
    } else if (Scalar { bits: ZERO }).below(field.fraction[n - 1]) {
        solid_end(field, axial, n - 1).larger(
            if axial {
                g.z_edges[(n - 1) % (g.nz as int) + 1]
            } else {
                g.r_edges[(n - 1) / (g.nz as int) + 1]
            },
        )
    } else {
        solid_end(field, axial, n - 1)
    }
}

fn find_ends(field: &SolidField) -> (r: (Scalar, Scalar))
    requires
        field.wf(),
    ensures
        r.0 == solid_end(field, true, field.grid.cells()),
        r.1 == solid_end(field, false, field.grid.cells()),
{
    let g = &field.grid;
    let n: usize = g.len();
    let zero = Scalar { bits: ZERO };
    let mut z_hi = zero;
    let mut r_hi = zero;
    let mut k: usize = 0;
    while k < n
        invariant
            field.wf(),
            g == &field.grid,
            n == g.cells(),
            zero.bits == ZERO,
            k <= n,
            z_hi == solid_end(field, true, k as int),
            r_hi == solid_end(field, false, k as int),
        decreases n - k,
    {
        proof {
            grid::law_interior_positions(g.nz as int, g.nr as int, k as int);
        }
        if zero.lt(field.fraction[k]) {
            z_hi = z_hi.max(g.z_edges[k % g.nz + 1]);
            r_hi = r_hi.max(g.r_edges[k / g.nz + 1]);
        }
        k = k + 1;
    }
    (z_hi, r_hi)
}

/// An axis of the graded domain.
pub open spec fn is_spaced<M: GradeMath>(
    m: &M,
    end: Scalar,
    margin_cells: Scalar,
    base: Scalar,
    len: Scalar,
    growth: Scalar,
    max_ratio: Scalar,
    hold_end: Scalar,
    edges: Seq<Scalar>,
) -> bool {
    &&& call_ensures(M::hold_end, (m, end, margin_cells, base), hold_end)
    &&& exists|n_base: usize, held: Scalar, rest: Scalar, first: Scalar| #[trigger]
        is_graded_axis(
            m,
            hold_end,
            base,
            len,
            growth,
            max_ratio,
            n_base,
            held,
            rest,
            first,
            edges,
        )
}

/// The two axes of the graded domain.
pub open spec fn are_spaced<M: GradeMath>(
    m: &M,
    field: &SolidField,
    spec: GradeSpec,
    z_hold: Scalar,
    r_hold: Scalar,
    z_edges: Seq<Scalar>,
    r_edges: Seq<Scalar>,
) -> bool {
    &&& is_spaced(
        m,
        solid_end(field, true, field.grid.cells()),
        spec.margin_cells,
        spec.base_dz,
        spec.lz,
        spec.growth,
        spec.max_ratio,
        z_hold,
        z_edges,
    )
    &&& is_spaced(
        m,
        solid_end(field, false, field.grid.cells()),
        spec.margin_cells,
        spec.base_dr,
        spec.lr,
        spec.growth,
        spec.max_ratio,
        r_hold,
        r_edges,
    )
}

/// The edges make a grid whose cells can be counted.
pub open spec fn countable(z_edges: Seq<Scalar>, r_edges: Seq<Scalar>) -> bool {
    (z_edges.len() + 3) * (r_edges.len() + 3) <= isize::MAX
}

/// The text of a grid with more cells than can be counted.
pub open spec fn too_large(nz: int, nr: int) -> Seq<char> {
    "grid too large: "@ + text::decimal(nz) + "x"@ + text::decimal(nr)
}

/// `e` is the error of edge lists that make no grid.
pub open spec fn is_edge_error<M: GradeMath>(
    m: &M,
    z_edges: Seq<Scalar>,
    r_edges: Seq<Scalar>,
    e: CfdError,
) -> bool {
    if countable(z_edges, r_edges) {
        exists|fault: EdgeFault|
            {
                &&& #[trigger] grid::is_edge_fault(z_edges, r_edges, fault)
                &&& e matches CfdError::Grid(s) && error::describes(m, fault, s@)
            }
    } else {
        e matches CfdError::Grid(s) && s@ == too_large(
            z_edges.len() as int,
            r_edges.len() as int,
        )
    }
}

/// Spaces a domain around a solid: fine from the origin through the solid and a
/// margin, growing beyond, out to the extents.
pub fn grade_from_solid<M: GradeMath>(m: &M, field: &SolidField, spec: &GradeSpec) -> (r: Result<
    Grid,
    CfdError,
>)
    requires
        field.wf(),
    ensures
        match r {
            Ok(g) => {
                &&& spec.valid()
                &&& exists|
                    z_hold: Scalar,
                    r_hold: Scalar,
                    z_edges: Seq<Scalar>,
                    r_edges: Seq<Scalar>,
                |
                    {
                        &&& #[trigger] are_spaced(
                            m,
                            field,
                            *spec,
                            z_hold,
                            r_hold,
                            z_edges,
                            r_edges,
                        )
                        &&& grid::is_axis(z_edges)
                        &&& grid::is_axis(r_edges)
                        &&& g.built_from(m, z_edges, r_edges, false)
                    }
            },
            Err(e) => if spec.valid() {
                exists|
                    z_hold: Scalar,
                    r_hold: Scalar,
                    z_edges: Seq<Scalar>,
                    r_edges: Seq<Scalar>,
                | #[trigger]
                    are_spaced(m, field, *spec, z_hold, r_hold, z_edges, r_edges) && is_edge_error(
                        m,
                        z_edges,
                        r_edges,
                        e,
                    )
            } else {
                e matches CfdError::Parameter(s) && tells_spec(m, *spec, s@)
            },
        },
{
    if !spec.is_valid() {
        return Err(CfdError::Parameter(spec_text(m, spec)));
    }
    let (z_end, r_end) = find_ends(field);
    let z_hold = m.hold_end(z_end, spec.margin_cells, spec.base_dz);
    let r_hold = m.hold_end(r_end, spec.margin_cells, spec.base_dr);
    let z_edges = graded_axis(
        m,
        z_hold,
        spec.base_dz,
        spec.lz,
        spec.growth,
        spec.max_ratio,
    );
    let r_edges = graded_axis(
        m,
        r_hold,
        spec.base_dr,
        spec.lr,
        spec.growth,
        spec.max_ratio,
    );
    let ghost zs = z_edges@;
    let ghost rs = r_edges@;
    assert(are_spaced(m, field, *spec, z_hold, r_hold, zs, rs));
    let nz: usize = z_edges.len();
    let nr: usize = r_edges.len();
    if !can_count(nz, nr) {
        let mut s = "grid too large: ".to_owned();
        s.append(decimal_text(nz as u64).as_str());
        s.append("x");
        s.append(decimal_text(nr as u64).as_str());
        assert(s@ =~= too_large(zs.len() as int, rs.len() as int));
        let e = CfdError::Grid(s);
        assert(is_edge_error(m, zs, rs, e));
        return Err(e);
    }
    match Grid::from_edges(m, z_edges, r_edges) {
        Ok(g) => Ok(g),
        Err(e) => {
            assert(is_edge_error(m, zs, rs, e));
            Err(e)
        },
    }
}

fn can_count(nz: usize, nr: usize) -> (r: bool)
    ensures
        r == ((nz + 3) * (nr + 3) <= isize::MAX),
{
    proof {
        lemma_product(nz as int, nr as int);
    }
    if nz > usize::MAX - 3 || nr > usize::MAX - 3 {
        return false;
    }
    let product: u128 = (nz + 3) as u128 * (nr + 3) as u128;
    product <= isize::MAX as u128
}

proof fn lemma_product(a: int, b: int)
    requires
        0 <= a,
        0 <= b,
    ensures
        a + 3 <= (a + 3) * (b + 3),
        b + 3 <= (a + 3) * (b + 3),
        a + 3 <= 0xffff_ffff_ffff_ffff && b + 3 <= 0xffff_ffff_ffff_ffff ==> (a + 3) * (b + 3)
            <= u128::MAX,
{
    assert(a + 3 <= (a + 3) * (b + 3) && b + 3 <= (a + 3) * (b + 3)) by (nonlinear_arith)
        requires
            0 <= a,
            0 <= b,
    ;
    if a + 3 <= 0xffff_ffff_ffff_ffff && b + 3 <= 0xffff_ffff_ffff_ffff {
        assert((a + 3) * (b + 3) <= 0xffff_ffff_ffff_ffff * 0xffff_ffff_ffff_ffff)
            by (nonlinear_arith)
            requires
                0 <= a,
                0 <= b,
                a + 3 <= 0xffff_ffff_ffff_ffff,
                b + 3 <= 0xffff_ffff_ffff_ffff,
        ;
    }
}

/// An axis that grows ends exactly at its length, and its fine cells lie exactly
/// on the multiples of the base.
pub proof fn law_graded_axis_keeps_both_ends<M: GradeMath>(
    m: &M,
    base: Scalar,
    len: Scalar,
    n_base: int,
    fine: Seq<Scalar>,
    widths: Seq<Scalar>,
    factor: Scalar,
    tail: Seq<Scalar>,
    edges: Seq<Scalar>,
    i: int,
)
    requires
        is_graded(m, base, len, n_base, fine, widths, factor, tail, edges),
        n_base >= 0,
        widths.len() > 0,
        0 <= i <= n_base,
    ensures
        edges.last() == len,
        call_ensures(M::multiple, (m, i as usize, base), edges[i]),
{
    assert(edges[i] == fine[i]);
}

/// No cell of the growing block is wider than the cap, before it is stretched.
pub proof fn law_growth_is_capped<M: GradeMath>(
    m: &M,
    rest: Scalar,
    first: Scalar,
    growth: Scalar,
    cap: Scalar,
    w: Seq<Scalar>,
    acc: Seq<Scalar>,
    i: int,
)
    requires
        are_widths(m, rest, first, growth, cap, w, acc),
        1 <= i < w.len(),
        !cap.nan(),
    ensures
        w[i].at_most(cap),
{
    assert(grows_at(m, rest, growth, cap, w, acc, i - 1));
}

/// The fine cells of both axes reach past the solid: the end they are held to lies at or
/// beyond the upper edges of every cell with any solid in it, and it is one of those edges
/// or the origin.
pub proof fn law_ends_lie_beyond_the_solid(field: &SolidField, axial: bool, iz: int, ir: int)
    requires
        field.wf(),
        field.grid.inside(iz, ir),
        (Scalar { bits: ZERO }).below(field.fraction[field.grid.at(iz, ir)]),
    ensures
        ({
            let end = solid_end(field, axial, field.grid.cells());
            let edge = if axial {
                field.grid.z_edges[iz + 1]
            } else {
                field.grid.r_edges[ir + 1]
            };
            !end.below(edge) && (Scalar { bits: ZERO }).at_most(end)
        }),
        solid_end(field, axial, field.grid.cells()).bits == ZERO || exists|jz: int, jr: int|
            {
                &&& #[trigger] field.grid.inside(jz, jr)
                &&& (Scalar { bits: ZERO }).below(field.fraction[field.grid.at(jz, jr)])
                &&& solid_end(field, axial, field.grid.cells()) == if axial {
                    field.grid.z_edges[jz + 1]
                } else {
                    field.grid.r_edges[jr + 1]
                }
            },
{
    let g = &field.grid;
    grid::law_interior_layout(g.nz as int, g.nr as int, iz, ir);
    lemma_solid_end(field, axial, g.cells(), g.at(iz, ir));
}

proof fn lemma_solid_end(field: &SolidField, axial: bool, n: int, k: int)
    requires
        field.wf(),
        0 <= n <= field.grid.cells(),
    ensures
        ({
            let g = &field.grid;
            let end = solid_end(field, axial, n);
            &&& (Scalar { bits: ZERO }).at_most(end)
            &&& 0 <= k < n && (Scalar { bits: ZERO }).below(field.fraction[k]) ==> !end.below(
                if axial {
                    g.z_edges[k % (g.nz as int) + 1]
                } else {
                    g.r_edges[k / (g.nz as int) + 1]
                },
            )
        }),
        solid_end(field, axial, n).bits == ZERO || exists|jz: int, jr: int|
            {
                &&& #[trigger] field.grid.inside(jz, jr)
                &&& (Scalar { bits: ZERO }).below(field.fraction[field.grid.at(jz, jr)])
                &&& solid_end(field, axial, n) == if axial {
                    field.grid.z_edges[jz + 1]
                } else {
                    field.grid.r_edges[jr + 1]
                }
            },
    decreases n,
{
    if n > 0 {
        let g = &field.grid;
        lemma_solid_end(field, axial, n - 1, k);
        grid::law_interior_positions(g.nz as int, g.nr as int, n - 1);
        let jz = (n - 1) % (g.nz as int);
        let jr = (n - 1) / (g.nz as int);
        assert(g.inside(jz, jr));
        assert(g.at(jz, jr) == n - 1);
    }
}

/// How the cells of the growing block widen: the first is one growth wider than the fine
/// ones, each one after it one growth wider than the last as far as the cap allows, they
/// are taken as long as their sum fits the rest, and the next would not fit.
pub proof fn law_cells_widen_by_the_growth<M: GradeMath>(
    m: &M,
    rest: Scalar,
    first: Scalar,
    growth: Scalar,
    cap: Scalar,
    w: Seq<Scalar>,
    acc: Seq<Scalar>,
    i: int,
) -> (next: Scalar)
    requires
        are_widths(m, rest, first, growth, cap, w, acc),
        0 <= i < w.len() - 1,
    ensures
        w[0] == first,
        acc[0].bits == ZERO,
        call_ensures(M::sum, (m, acc[i], w[i]), acc[i + 1]),
        acc[i + 1].at_most(rest),
        call_ensures(M::grown, (m, w[i], growth), next),
        next.at_most(cap) ==> w[i + 1] == next,
        cap.below(next) ==> w[i + 1] == cap,
        w.len() - 1 < usize::MAX ==> exists|over: Scalar| #[trigger]
            call_ensures(M::sum, (m, acc.last(), w.last()), over) && !over.at_most(rest),
{
    assert(grows_at(m, rest, growth, cap, w, acc, i));
    choose|next: Scalar| #[trigger]
        call_ensures(M::grown, (m, w[i], growth), next) && w[i + 1] == next.smaller(cap)
}

/// Behind the fine cells each edge lies a stretched width beyond the one before it, and
/// the last one is the end of the axis.
pub proof fn law_growing_edges_follow_each_other<M: GradeMath>(
    m: &M,
    base: Scalar,
    len: Scalar,
    n_base: int,
    fine: Seq<Scalar>,
    widths: Seq<Scalar>,
    factor: Scalar,
    tail: Seq<Scalar>,
    edges: Seq<Scalar>,
    i: int,
) -> (from: Scalar)
    requires
        is_graded(m, base, len, n_base, fine, widths, factor, tail, edges),
        0 <= n_base <= usize::MAX,
        0 <= i < widths.len(),
    ensures
        edges.len() == n_base + 1 + widths.len(),
        edges[n_base + widths.len()] == len,
        i + 1 < widths.len() ==> call_ensures(
            M::stretched_edge,
            (m, from, widths[i], factor),
            edges[n_base + i + 1],
        ),
        i > 0 ==> from == edges[n_base + i],
        i == 0 ==> call_ensures(M::multiple, (m, n_base as usize, base), from),
{
    assert(stretches_at(m, widths, factor, tail, i));
    let plain = fine + tail.subrange(1, tail.len() as int);
    assert(plain.len() == edges.len());
    if i + 1 < widths.len() {
        assert(plain[n_base + i + 1] == tail[i + 1]);
    }
    if i > 0 {
        assert(plain[n_base + i] == tail[i]);
    }
    tail[i]
}

/// How an axis is planned: as many fine cells as reach the end they are held to, within
/// the axis; what is left of it is for cells that grow, one growth wider at first and the
/// cap wide at most. Where that first one does not fit, or nothing is to grow, the axis is
/// divided evenly.
pub proof fn law_axes_are_fine_then_growing<M: GradeMath>(
    m: &M,
    hold_end: Scalar,
    base: Scalar,
    len: Scalar,
    growth: Scalar,
    max_ratio: Scalar,
    n_base: usize,
    held: Scalar,
    rest: Scalar,
    first: Scalar,
    edges: Seq<Scalar>,
) -> (r: (usize, Scalar, Scalar, Seq<Scalar>, Scalar, Seq<Scalar>, Seq<Scalar>, Seq<Scalar>, Seq<
    Scalar,
>))
    requires
        is_graded_axis(
            m,
            hold_end,
            base,
            len,
            growth,
            max_ratio,
            n_base,
            held,
            rest,
            first,
            edges,
        ),
    ensures
        ({
            let (n, step, cap, widths, factor, fine, tail, w, acc) = r;
            let zero = Scalar { bits: ZERO };
            let one = Scalar { bits: ONE };
            &&& zero.at_most(hold_end) && hold_end.at_most(len) ==> call_ensures(
                M::cells_to,
                (m, hold_end, base),
                n_base,
            )
            &&& zero.at_most(len) && len.below(hold_end) ==> call_ensures(
                M::cells_to,
                (m, len, base),
                n_base,
            )
            &&& call_ensures(M::multiple, (m, n_base, base), held)
            &&& call_ensures(M::left_over, (m, len, held), rest)
            &&& call_ensures(M::grown, (m, base, growth), first)
            &&& rest.below(first) || growth.at_most(one) ==> {
                &&& call_ensures(M::cells_in, (m, len, base), n)
                &&& call_ensures(M::even_width, (m, len, n), step)
                &&& edges.len() == n + 1
                &&& forall|i: int|
                    0 <= i <= n ==> call_ensures(
                        M::multiple,
                        (m, i as usize, step),
                        #[trigger] edges[i],
                    )
            }
            &&& !rest.below(first) && !growth.at_most(one) ==> {
                &&& call_ensures(M::grown, (m, base, max_ratio), cap)
                &&& are_widths(m, rest, first, growth, cap, w, acc)
                &&& widths == w.drop_last()
                &&& call_ensures(M::stretch, (m, rest, acc.last()), factor)
                &&& is_graded(
                    m,
                    base,
                    len,
                    n_base as int,
                    fine,
                    widths,
                    factor,
                    tail,
                    edges,
                )
            }
        }),
{
    let (n, step) = choose|n: usize, step: Scalar|
        {
            &&& #[trigger] call_ensures(M::cells_in, (m, len, base), n)
            &&& #[trigger] call_ensures(M::even_width, (m, len, n), step)
            &&& are_multiples(m, step, n as int, edges)
        };
    let (cap, widths, factor, fine, tail) = choose|
        cap: Scalar,
        widths: Seq<Scalar>,
        factor: Scalar,
        fine: Seq<Scalar>,
        tail: Seq<Scalar>,
    |
        {
            &&& call_ensures(M::grown, (m, base, max_ratio), cap)
            &&& #[trigger] is_block(m, rest, first, growth, cap, widths, factor)
            &&& #[trigger] is_graded(
                m,
                base,
                len,
                n_base as int,
                fine,
                widths,
                factor,
                tail,
                edges,
            )
        };
    let (w, acc) = choose|w: Seq<Scalar>, acc: Seq<Scalar>|
        {
            &&& #[trigger] are_widths(m, rest, first, growth, cap, w, acc)
            &&& widths == w.drop_last()
            &&& call_ensures(M::stretch, (m, rest, acc.last()), factor)
        };
    (n, step, cap, widths, factor, fine, tail, w, acc)
}

/// Each axis of a domain is spaced by its own numbers: z by the axial base and length and
/// the end of the solid along z, r by the radial ones.
pub proof fn law_axes_have_their_own_numbers<M: GradeMath>(
    m: &M,
    field: &SolidField,
    spec: GradeSpec,
    z_hold: Scalar,
    r_hold: Scalar,
    z_edges: Seq<Scalar>,
    r_edges: Seq<Scalar>,
) -> (r: (usize, Scalar, Scalar, Scalar, usize, Scalar, Scalar, Scalar))
    requires
        are_spaced(m, field, spec, z_hold, r_hold, z_edges, r_edges),
    ensures
        call_ensures(
            M::hold_end,
            (m, solid_end(field, true, field.grid.cells()), spec.margin_cells, spec.base_dz),
            z_hold,
        ),
        call_ensures(
            M::hold_end,
            (m, solid_end(field, false, field.grid.cells()), spec.margin_cells, spec.base_dr),
            r_hold,
        ),
        is_graded_axis(
            m,
            z_hold,
            spec.base_dz,
            spec.lz,
            spec.growth,
            spec.max_ratio,
            r.0,
            r.1,
            r.2,
            r.3,
            z_edges,
        ),
        is_graded_axis(
            m,
            r_hold,
            spec.base_dr,
            spec.lr,
            spec.growth,
            spec.max_ratio,
            r.4,
            r.5,
            r.6,
            r.7,
            r_edges,
        ),
{
    let (a, b, c, d) = choose|n_base: usize, held: Scalar, rest: Scalar, first: Scalar| #[trigger]
        is_graded_axis(
            m,
            z_hold,
            spec.base_dz,
            spec.lz,
            spec.growth,
            spec.max_ratio,
            n_base,
            held,
            rest,
            first,
            z_edges,
        );
    let (e, f, g, h) = choose|n_base: usize, held: Scalar, rest: Scalar, first: Scalar| #[trigger]
        is_graded_axis(
            m,
            r_hold,
            spec.base_dr,
            spec.lr,
            spec.growth,
            spec.max_ratio,
            n_base,
            held,
            rest,
            first,
            r_edges,
        );
    (a, b, c, d, e, f, g, h)
}

} // verus!
