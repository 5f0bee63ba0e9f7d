//! Exact shares of cells that a closed polygon covers.
//!
//! Each column cuts the polygon to its strip, and each cell cuts the strip to
//! its rows and takes the area that is left.

use vstd::prelude::*;
use crate::error::CfdError;
use crate::field::{RefScales, SolidField};
use crate::grid;
use crate::grid::{Grid, GridMath};
use crate::profile;
use crate::profile::{show_point, Point, ProfileFault, WallProfile};
use crate::scalar::{Scalar, ONE, ZERO};
use crate::text;
use crate::text::{decimal_text, Show};

verus! {

/// The pattern of the largest finite number.
pub const LARGEST: u64 = 0x7FEF_FFFF_FFFF_FFFF;

/// The pattern of the lowest finite number.
pub const LOWEST: u64 = 0xFFEF_FFFF_FFFF_FFFF;

/// A half-plane that a polygon is cut to.
#[derive(Debug, Clone, Copy, PartialEq)]
pub enum Half {
    Beyond(Scalar),
    Before(Scalar),
    Above(Scalar),
    Under(Scalar),
}

/// The floating-point formulas of the rasterizer.
pub trait RasterMath: GridMath + Show {
    /// The distance from `lower` up to `upper`.
    fn depth(&self, upper: Scalar, lower: Scalar) -> Scalar;

    /// Where the edge from `a` to `b`, at these depths, meets the border.
    fn crossing(&self, a: Point, b: Point, da: Scalar, db: Scalar) -> Point;

    /// Adds the cross product of an edge to a sum.
    fn add_cross(&self, sum: Scalar, a: Point, b: Point) -> Scalar;

    /// Half the magnitude of a value.
    fn half_magnitude(&self, x: Scalar) -> Scalar;

    /// An area relative to that of a cell with these edges.
    fn share(&self, area: Scalar, za: Scalar, zb: Scalar, ra: Scalar, rb: Scalar) -> Scalar;

    /// One over a length.
    fn reciprocal(&self, length: Scalar) -> Scalar;

    /// A point in other units.
    fn scaled(&self, p: Point, factor: Scalar) -> Point;

    /// A radius one unit higher.
    fn one_above(&self, r: Scalar) -> Scalar;
}

/// The place after `i` around a polygon of `n` points.
pub open spec fn around(i: int, n: int) -> int {
    if i + 1 < n {
        i + 1
    } else {
        0
    }
}

/// The edge from point `i` on runs through the border.
pub open spec fn crosses(d: Seq<Scalar>, i: int) -> bool {
    let zero = Scalar { bits: ZERO };
    let a = d[i];
    let b = d[around(i, d.len() as int)];
    (zero.below(a) && b.below(zero)) || (a.below(zero) && zero.below(b))
}

/// The first `n` points of a polygon cut at depth zero, where `x` are the
/// crossings.
pub open spec fn cut(
    input: Seq<Point>,
    d: Seq<Scalar>,
    x: Seq<Point>,
    n: int,
) -> Seq<Point>
    decreases n,
{
    if n <= 0 {
        Seq::empty()
    } else {
        let kept = if (Scalar { bits: ZERO }).at_most(d[n - 1]) {
            cut(input, d, x, n - 1).push(input[n - 1])
        } else {
            cut(input, d, x, n - 1)
        };
        if crosses(d, n - 1) {
            kept.push(x[n - 1])
        } else {
            kept
        }
    }
}

/// `d` is how far a point lies inside a half-plane.
pub open spec fn is_depth<M: RasterMath>(m: &M, half: Half, p: Point, d: Scalar) -> bool {
    match half {
        Half::Beyond(z) => call_ensures(M::depth, (m, p.z, z), d),
        Half::Before(z) => call_ensures(M::depth, (m, z, p.z), d),
        Half::Above(r) => call_ensures(M::depth, (m, p.r, r), d),
        Half::Under(r) => call_ensures(M::depth, (m, r, p.r), d),
    }
}

fn depth_in<M: RasterMath>(m: &M, half: Half, p: Point) -> (d: Scalar)
    ensures
        is_depth(m, half, p, d),
{
    match half {
        Half::Beyond(z) => m.depth(p.z, z),
        Half::Before(z) => m.depth(z, p.z),
        Half::Above(r) => m.depth(p.r, r),
        Half::Under(r) => m.depth(r, p.r),
    }
}

/// The depths and crossings of a polygon.
pub open spec fn is_cut_by<M: RasterMath>(
    m: &M,
    input: Seq<Point>,
    half: Half,
    d: Seq<Scalar>,
    x: Seq<Point>,
) -> bool {
    let n = input.len() as int;
    &&& d.len() == n
    &&& x.len() == n
    &&& forall|i: int| 0 <= i < n ==> is_depth(m, half, input[i], #[trigger] d[i])
    &&& forall|i: int|
        0 <= i < n && crosses(d, i) ==> call_ensures(
            M::crossing,
            (m, input[i], input[around(i, n)], d[i], d[around(i, n)]),
            #[trigger] x[i],
        )
}

/// `out` is the part of a polygon inside a half-plane.
pub open spec fn is_clipped<M: RasterMath>(
    m: &M,
    input: Seq<Point>,
    half: Half,
    out: Seq<Point>,
) -> bool {
    exists|d: Seq<Scalar>, x: Seq<Point>| #[trigger]
        is_cut_by(m, input, half, d, x) && out == cut(input, d, x, input.len() as int)
}

fn clip_half<M: RasterMath>(m: &M, input: &Vec<Point>, half: Half) -> (out: Vec<Point>)
    ensures
        is_clipped(m, input@, half, out@),
{
    let n: usize = input.len();
    let zero = Scalar { bits: ZERO };
    let mut d: Vec<Scalar> = Vec::new();
    let mut i: usize = 0;
    while i < n
        invariant
            n == input.len(),
            i <= n,
            d.len() == i,
            forall|j: int| 0 <= j < i ==> is_depth(m, half, input@[j], #[trigger] d[j]),
        decreases n - i,
    {
        d.push(depth_in(m, half, input[i]));
        i = i + 1;
    }
    let mut out: Vec<Point> = Vec::new();
    let ghost mut x: Seq<Point> = Seq::empty();
    i = 0;
    while i < n
        invariant
            n == input.len(),
            d.len() == n,
            zero.bits == ZERO,
            i <= n,
            x.len() == i,
            out@ == cut(input@, d@, x, i as int),
            forall|j: int|
                0 <= j < i && crosses(d@, j) ==> call_ensures(
                    M::crossing,
                    (
                        m,
                        input@[j],
                        input@[around(j, n as int)],
                        d@[j],
                        d@[around(j, n as int)],
                    ),
                    #[trigger] x[j],
                ),
        decreases n - i,
    {
        let ghost was = x;
        let a = input[i];
        let next: usize = if i + 1 < n {
            i + 1
        } else {
            0
        };
        let b = input[next];
        let da = d[i];
        let db = d[next];
        if zero.le(da) {
            out.push(a);
        }
        if (zero.lt(da) && db.lt(zero)) || (da.lt(zero) && zero.lt(db)) {
            let c = m.crossing(a, b, da, db);
            out.push(c);
            proof {
                x = x.push(c);
            }
        } else {
            proof {
                x = x.push(a);
            }
        }
        proof {
            lemma_cut_prefix(input@, d@, was, x, i as int);
        }
        i = i + 1;
    }
    assert(is_cut_by(m, input@, half, d@, x));
    out
}

proof fn lemma_cut_prefix(
    input: Seq<Point>,
    d: Seq<Scalar>,
    a: Seq<Point>,
    b: Seq<Point>,
    n: int,
)
    requires
        0 <= n <= a.len(),
        a.len() <= b.len(),
        forall|i: int| 0 <= i < n ==> a[i] == #[trigger] b[i],
    ensures
        cut(input, d, a, n) == cut(input, d, b, n),
    decreases n,
{
    if n > 0 {
        lemma_cut_prefix(input, d, a, b, n - 1);
    }
}

/// `sum` is the sum of the cross products of the first `n` edges.
pub open spec fn is_cross_sum<M: RasterMath>(
    m: &M,
    poly: Seq<Point>,
    n: int,
    sum: Scalar,
) -> bool
    decreases n,
{
    if n <= 0 {
        sum.bits == ZERO
    } else {
        exists|rest: Scalar| #[trigger]
            call_ensures(
                M::add_cross,
                (m, rest, poly[n - 1], poly[around(n - 1, poly.len() as int)]),
                sum,
            ) && is_cross_sum(m, poly, n - 1, rest)
    }
}

/// `area` is the area of a polygon, zero for less than a triangle.
pub open spec fn is_area<M: RasterMath>(m: &M, poly: Seq<Point>, area: Scalar) -> bool {
    if poly.len() < 3 {
        area.bits == ZERO
    } else {
        exists|sum: Scalar| #[trigger]
            call_ensures(M::half_magnitude, (m, sum), area) && is_cross_sum(
                m,
                poly,
                poly.len() as int,
                sum,
            )
    }
}

fn polygon_area<M: RasterMath>(m: &M, poly: &Vec<Point>) -> (area: Scalar)
    ensures
        is_area(m, poly@, area),
{
    let n: usize = poly.len();
    if n < 3 {
        return Scalar { bits: ZERO };
    }
    let mut sum = Scalar { bits: ZERO };
    let mut i: usize = 0;
    while i < n
        invariant
            n == poly.len(),
            i <= n,
            is_cross_sum(m, poly@, i as int, sum),
        decreases n - i,
    {
        let ghost rest = sum;
        let next: usize = if i + 1 < n {
            i + 1
        } else {
            0
        };
        sum = m.add_cross(sum, poly[i], poly[next]);
        i = i + 1;
        assert(call_ensures(
            M::add_cross,
            (m, rest, poly@[i - 1], poly@[around(i - 1, poly@.len() as int)]),
            sum,
        ));
    }
    m.half_magnitude(sum)
}

/// One of the two coordinates of a point.
pub open spec fn coordinate(p: Point, axial: bool) -> Scalar {
    if axial {
        p.z
    } else {
        p.r
    }
}

/// The least coordinate of the first `n` points.
pub open spec fn low(pts: Seq<Point>, axial: bool, n: int) -> Scalar
    decreases n,
{
    if n <= 0 {
        Scalar { bits: LARGEST }
    } else {
        low(pts, axial, n - 1).smaller(coordinate(pts[n - 1], axial))
    }
}

/// The greatest coordinate of the first `n` points.
pub open spec fn high(pts: Seq<Point>, axial: bool, n: int) -> Scalar
    decreases n,
{
    if n <= 0 {
        Scalar { bits: LOWEST }
    } else {
        high(pts, axial, n - 1).larger(coordinate(pts[n - 1], axial))
    }
}

fn bounds(pts: &Vec<Point>, axial: bool) -> (r: (Scalar, Scalar))
    ensures
        r.0 == low(pts@, axial, pts.len() as int),
        r.1 == high(pts@, axial, pts.len() as int),
{
    let mut lo = Scalar { bits: LARGEST };
    let mut hi = Scalar { bits: LOWEST };
    let mut i: usize = 0;
    while i < pts.len()
        invariant
            i <= pts.len(),
            lo == low(pts@, axial, i as int),
            hi == high(pts@, axial, i as int),
        decreases pts.len() - i,
    {
        let x = if axial {
            pts[i].z
        } else {
            pts[i].r
        };
        lo = lo.min(x);
        hi = hi.max(x);
        i = i + 1;
    }
    (lo, hi)
}

/// Every vertex is finite.
pub open spec fn all_finite(pts: Seq<Point>) -> bool {
    forall|i: int| 0 <= i < pts.len() ==> (#[trigger] pts[i]).z.finite() && pts[i].r.finite()
}

proof fn lemma_low_high(pts: Seq<Point>, axial: bool, n: int)
    requires
        all_finite(pts),
        0 < n <= pts.len(),
    ensures
        low(pts, axial, n).at_most(high(pts, axial, n)),
        low(pts, axial, n).finite(),
        high(pts, axial, n).finite(),
    decreases n,
{
    assert(pts[n - 1].z.finite() && pts[n - 1].r.finite());
    if n > 1 {
        lemma_low_high(pts, axial, n - 1);
    } else {
        assert(low(pts, axial, 0) == (Scalar { bits: LARGEST }));
        assert(high(pts, axial, 0) == (Scalar { bits: LOWEST }));
    }
}

/// `k` cells have their upper edges at or below `x`.
pub open spec fn ends_before(edges: Seq<Scalar>, x: Scalar, k: int) -> bool {
    &&& 0 <= k <= edges.len() - 1
    &&& forall|j: int| 1 <= j <= k ==> (#[trigger] edges[j]).at_most(x)
    &&& k < edges.len() - 1 ==> !edges[k + 1].at_most(x)
}

fn count_ends(edges: &Vec<Scalar>, x: Scalar) -> (k: usize)
    requires
        edges.len() >= 1,
    ensures
        ends_before(edges@, x, k as int),
{
    let mut k: usize = 0;
    while k + 1 < edges.len() && edges[k + 1].le(x)
        invariant
            k < edges.len(),
            forall|j: int| 1 <= j <= k ==> (#[trigger] edges[j]).at_most(x),
        decreases edges.len() - k,
    {
        k = k + 1;
    }
    k
}

/// `k` cells have their lower edges below `x`.
pub open spec fn starts_below(edges: Seq<Scalar>, x: Scalar, k: int) -> bool {
    &&& 0 <= k <= edges.len() - 1
    &&& forall|j: int| 0 <= j < k ==> (#[trigger] edges[j]).below(x)
    &&& k < edges.len() - 1 ==> !edges[k].below(x)
}

fn count_starts(edges: &Vec<Scalar>, x: Scalar) -> (k: usize)
    requires
        edges.len() >= 1,
    ensures
        starts_below(edges@, x, k as int),
{
    let mut k: usize = 0;
    while k + 1 < edges.len() && edges[k].lt(x)
        invariant
            k < edges.len(),
            forall|j: int| 0 <= j < k ==> (#[trigger] edges[j]).below(x),
        decreases edges.len() - k,
    {
        k = k + 1;
    }
    k
}

/// The cells of an axis that the interval from `lo` to `hi` reaches.
pub open spec fn window(edges: Seq<Scalar>, lo: Scalar, hi: Scalar, a: int, b: int) -> bool {
    ends_before(edges, lo, a) && starts_below(edges, hi, b)
}

/// The interval from `lo` to `hi` misses an axis.
pub open spec fn misses(edges: Seq<Scalar>, lo: Scalar, hi: Scalar) -> bool {
    hi.at_most(edges[0]) || edges.last().at_most(lo)
}

/// On an axis whose edges rise, the window of a polygon that meets it is not
/// reversed.
pub proof fn law_window_is_ordered(
    edges: Seq<Scalar>,
    poly: Seq<Point>,
    axial: bool,
    a: int,
    b: int,
)
    requires
        grid::is_axis(edges),
        is_polygon(poly),
        ({
            let lo = low(poly, axial, poly.len() as int);
            let hi = high(poly, axial, poly.len() as int);
            !misses(edges, lo, hi) && window(edges, lo, hi, a, b)
        }),
    ensures
        a <= b,
        a < edges.len() - 1,
{
    let lo = low(poly, axial, poly.len() as int);
    let hi = high(poly, axial, poly.len() as int);
    lemma_low_high(poly, axial, poly.len() as int);
    if a >= 1 {
        assert(edges[a].at_most(lo));
        if b < a {
            assert(!edges[b].below(hi));
            lemma_axis_rises(edges, b, a);
        }
    }
}

/// The edges of an axis rise.
pub proof fn lemma_axis_rises(edges: Seq<Scalar>, i: int, j: int)
    requires
        grid::is_axis(edges),
        0 <= i < j < edges.len(),
    ensures
        edges[i].below(edges[j]),
    decreases j - i,
{
    assert(grid::rises_at(edges, j));
    if i < j - 1 {
        lemma_axis_rises(edges, i, j - 1);
    }
}

/// `x` held between `lo` and `hi`.
pub open spec fn held(x: int, lo: int, hi: int) -> int {
    if x < lo {
        lo
    } else if x > hi {
        hi
    } else {
        x
    }
}

fn hold(x: usize, lo: usize, hi: usize) -> (r: usize)
    ensures
        r == held(x as int, lo as int, hi as int),
{
    if x < lo {
        lo
    } else if x > hi {
        hi
    } else {
        x
    }
}

/// `f` is the share of a cell, for the part `cell` of the strip inside of it.
pub open spec fn is_share<M: RasterMath>(
    m: &M,
    cell: Seq<Point>,
    za: Scalar,
    zb: Scalar,
    ra: Scalar,
    rb: Scalar,
    area: Scalar,
    f: Scalar,
) -> bool {
    &&& is_area(m, cell, area)
    &&& if (Scalar { bits: ZERO }).below(area) {
        exists|raw: Scalar| #[trigger]
            call_ensures(M::share, (m, area, za, zb, ra, rb), raw) && call_ensures(
                M::narrow,
                (m, raw.held_between(Scalar { bits: ZERO }, Scalar { bits: ONE })),
                f,
            )
    } else {
        f.bits == ZERO
    }
}

/// `f` is the share of the cell with these edges that the strip covers.
pub open spec fn is_covered<M: RasterMath>(
    m: &M,
    strip: Seq<Point>,
    za: Scalar,
    zb: Scalar,
    ra: Scalar,
    rb: Scalar,
    f: Scalar,
) -> bool {
    exists|upper: Seq<Point>, cell: Seq<Point>, area: Scalar|
        {
            &&& #[trigger] is_clipped(m, strip, Half::Above(ra), upper)
            &&& is_clipped(m, upper, Half::Under(rb), cell)
            &&& #[trigger] is_share(m, cell, za, zb, ra, rb, area, f)
        }
}

fn covered<M: RasterMath>(
    m: &M,
    strip: &Vec<Point>,
    za: Scalar,
    zb: Scalar,
    ra: Scalar,
    rb: Scalar,
) -> (f: Scalar)
    ensures
        is_covered(m, strip@, za, zb, ra, rb, f),
{
    let upper = clip_half(m, strip, Half::Above(ra));
    let cell = clip_half(m, &upper, Half::Under(rb));
    let area = polygon_area(m, &cell);
    let zero = Scalar { bits: ZERO };
    let f = if zero.lt(area) {
        let raw = m.share(area, za, zb, ra, rb);
        m.narrow(raw.hold(zero, Scalar { bits: ONE }))
    } else {
        zero
    };
    assert(is_share(m, cell@, za, zb, ra, rb, area, f));
    f
}

/// `col` are the shares of a column that the strip covers: those of the rows that
/// the strip reaches, zero in the others.
pub open spec fn is_strip_column<M: RasterMath>(
    m: &M,
    g: &Grid,
    iz: int,
    ir0: int,
    ir1: int,
    strip: Seq<Point>,
    col: Seq<Scalar>,
) -> bool {
    &&& col.len() == g.nr
    &&& if strip.len() < 3 {
        forall|ir: int| 0 <= ir < col.len() ==> (#[trigger] col[ir]).bits == ZERO
    } else {
        exists|a: int, b: int| #[trigger]
            window(
                g.r_edges@,
                low(strip, false, strip.len() as int),
                high(strip, false, strip.len() as int),
                a,
                b,
            ) && ({
                let jr0 = held(a, ir0, ir1);
                let jr1 = held(b, jr0, ir1);
                forall|ir: int|
                    0 <= ir < col.len() ==> if jr0 <= ir < jr1 {
                        is_covered(
                            m,
                            strip,
                            g.z_edges[iz],
                            g.z_edges[iz + 1],
                            g.r_edges[ir],
                            g.r_edges[ir + 1],
                            #[trigger] col[ir],
                        )
                    } else {
                        col[ir].bits == ZERO
                    }
            })
    }
}

/// `col` are the shares of column `iz` that the polygon covers.
pub open spec fn is_column<M: RasterMath>(
    m: &M,
    g: &Grid,
    poly: Seq<Point>,
    iz: int,
    ir0: int,
    ir1: int,
    col: Seq<Scalar>,
) -> bool {
    exists|left: Seq<Point>, strip: Seq<Point>|
        {
            &&& #[trigger] is_clipped(m, poly, Half::Beyond(g.z_edges[iz]), left)
            &&& is_clipped(m, left, Half::Before(g.z_edges[iz + 1]), strip)
            &&& #[trigger] is_strip_column(m, g, iz, ir0, ir1, strip, col)
        }
}

fn column<M: RasterMath>(
    m: &M,
    g: &Grid,
    poly: &Vec<Point>,
    iz: usize,
    ir0: usize,
    ir1: usize,
) -> (col: Vec<Scalar>)
    requires
        g.wf(),
        iz < g.nz,
        ir0 <= g.nr,
        ir1 <= g.nr,
    ensures
        is_column(m, g, poly@, iz as int, ir0 as int, ir1 as int, col@),
{
    let za = g.z_edges[iz];
    let zb = g.z_edges[iz + 1];
    let left = clip_half(m, poly, Half::Beyond(za));
    let strip = clip_half(m, &left, Half::Before(zb));
    let mut jr0: usize = 0;
    let mut jr1: usize = 0;
    let ghost mut a: int = 0;
    let ghost mut b: int = 0;
    if strip.len() >= 3 {
        let (lo, hi) = bounds(&strip, false);
        let ka: usize = count_ends(&g.r_edges, lo);
        let kb: usize = count_starts(&g.r_edges, hi);
        jr0 = hold(ka, ir0, ir1);
        jr1 = hold(kb, jr0, ir1);
        proof {
            a = ka as int;
            b = kb as int;
        }
    }
    let mut col: Vec<Scalar> = Vec::new();
    let mut ir: usize = 0;
    while ir < g.nr
        invariant
            g.wf(),
            iz < g.nz,
            za == g.z_edges[iz as int],
            zb == g.z_edges[iz + 1],
            ir <= g.nr,
            col.len() == ir,
            forall|j: int|
                0 <= j < ir ==> if jr0 <= j < jr1 {
                    is_covered(
                        m,
                        strip@,
                        za,
                        zb,
                        g.r_edges[j],
                        g.r_edges[j + 1],
                        #[trigger] col@[j],
                    )
                } else {
                    col@[j].bits == ZERO
                },
        decreases g.nr - ir,
    {
        if jr0 <= ir && ir < jr1 {
            let f = covered(m, &strip, za, zb, g.r_edges[ir], g.r_edges[ir + 1]);
            col.push(f);
        } else {
            col.push(Scalar { bits: ZERO });
        }
        ir = ir + 1;
    }
    proof {
        if strip.len() >= 3 {
            assert(window(
                g.r_edges@,
                low(strip@, false, strip.len() as int),
                high(strip@, false, strip.len() as int),
                a,
                b,
            ));
        }
        assert(is_strip_column(
            m,
            g,
            iz as int,
            ir0 as int,
            ir1 as int,
            strip@,
            col@,
        ));
    }
    col
}

/// The shares inside the window of the polygon, zero outside of it.
pub open spec fn is_windowed<M: RasterMath>(
    m: &M,
    g: &Grid,
    poly: Seq<Point>,
    iz0: int,
    iz1: int,
    ir0: int,
    ir1: int,
    cols: Seq<Vec<Scalar>>,
    fraction: Seq<Scalar>,
) -> bool {
    let n = poly.len() as int;
    &&& window(g.z_edges@, low(poly, true, n), high(poly, true, n), iz0, iz1)
    &&& window(g.r_edges@, low(poly, false, n), high(poly, false, n), ir0, ir1)
    &&& cols.len() == g.nz
    &&& forall|iz: int|
        iz0 <= iz < iz1 ==> is_column(m, g, poly, iz, ir0, ir1, (#[trigger] cols[iz])@)
    &&& forall|iz: int, ir: int| #[trigger]
        g.inside(iz, ir) ==> fraction[g.at(iz, ir)] == if iz0 <= iz < iz1 {
            cols[iz]@[ir]
        } else {
            Scalar { bits: ZERO }
        }
}

/// `fraction` are the shares that a polygon covers.
pub open spec fn is_raster<M: RasterMath>(
    m: &M,
    g: &Grid,
    poly: Seq<Point>,
    fraction: Seq<Scalar>,
) -> bool {
    let n = poly.len() as int;
    &&& fraction.len() == g.cells()
    &&& if misses(g.z_edges@, low(poly, true, n), high(poly, true, n)) || misses(
        g.r_edges@,
        low(poly, false, n),
        high(poly, false, n),
    ) {
        forall|k: int| 0 <= k < fraction.len() ==> (#[trigger] fraction[k]).bits == ZERO
    } else {
        exists|iz0: int, iz1: int, ir0: int, ir1: int, cols: Seq<Vec<Scalar>>| #[trigger]
            is_windowed(m, g, poly, iz0, iz1, ir0, ir1, cols, fraction)
    }
}

/// A polygon that can be rasterized.
pub open spec fn is_polygon(poly: Seq<Point>) -> bool {
    poly.len() >= 3 && all_finite(poly)
}

/// `e` is the error of a polygon: too few vertices, or the first that is not
/// finite.
pub open spec fn is_polygon_error<M: RasterMath>(m: &M, poly: Seq<Point>, e: CfdError) -> bool {
    if poly.len() < 3 {
        e matches CfdError::Geometry(s) && s@ == "polygon needs at least 3 vertices, has "@
            + text::decimal(poly.len() as int)
    } else {
        exists|i: int, pair: Seq<char>|
            {
                &&& 0 <= i < poly.len()
                &&& !(poly[i].z.finite() && poly[i].r.finite())
                &&& forall|j: int|
                    0 <= j < i ==> (#[trigger] poly[j]).z.finite() && poly[j].r.finite()
                &&& #[trigger] profile::shows_point(m, poly[i], pair)
                &&& e matches CfdError::Geometry(s) && s@ == "polygon vertex "@ + text::decimal(i)
                    + " not finite: "@ + pair
            }
    }
}

fn check_polygon<M: RasterMath>(m: &M, poly: &Vec<Point>) -> (r: Result<(), CfdError>)
    ensures
        match r {
            Ok(_) => is_polygon(poly@),
            Err(e) => !is_polygon(poly@) && is_polygon_error(m, poly@, e),
        },
{
    let n: usize = poly.len();
    if n < 3 {
        let mut s = "polygon needs at least 3 vertices, has ".to_owned();
        s.append(decimal_text(n as u64).as_str());
        return Err(CfdError::Geometry(s));
    }
    let mut i: usize = 0;
    while i < n
        invariant
            n == poly.len(),
            n >= 3,
            i <= n,
            forall|j: int| 0 <= j < i ==> (#[trigger] poly@[j]).z.finite() && poly@[j].r.finite(),
        decreases n - i,
    {
        if !(poly[i].z.is_finite() && poly[i].r.is_finite()) {
            let pair = show_point(m, poly[i]);
            let mut s = "polygon vertex ".to_owned();
            s.append(decimal_text(i as u64).as_str());
            s.append(" not finite: ");
            s.append(pair.as_str());
            let ghost at = i as int;
            assert(profile::shows_point(m, poly@[at], pair@));
            assert(!(poly@[at].z.finite() && poly@[at].r.finite()));
            return Err(CfdError::Geometry(s));
        }
        i = i + 1;
    }
    Ok(())
}

fn zeros(n: usize) -> (r: Vec<Scalar>)
    ensures
        r.len() == n,
        forall|k: int| 0 <= k < n ==> (#[trigger] r[k]).bits == ZERO,
{
    let mut r: Vec<Scalar> = Vec::new();
    let mut k: usize = 0;
    while k < n
        invariant
            k <= n,
            r.len() == k,
            forall|j: int| 0 <= j < k ==> (#[trigger] r[j]).bits == ZERO,
        decreases n - k,
    {
        r.push(Scalar { bits: ZERO });
        k = k + 1;
    }
    r
}

fn all_columns<M: RasterMath>(
    m: &M,
    g: &Grid,
    poly: &Vec<Point>,
    iz0: usize,
    iz1: usize,
    ir0: usize,
    ir1: usize,
) -> (cols: Vec<Vec<Scalar>>)
    requires
        g.wf(),
        ir0 <= g.nr,
        ir1 <= g.nr,
        iz1 <= g.nz,
    ensures
        cols.len() == g.nz,
        forall|iz: int|
            iz0 <= iz < iz1 ==> is_column(
                m,
                g,
                poly@,
                iz,
                ir0 as int,
                ir1 as int,
                (#[trigger] cols@[iz])@,
            ),
{
    let mut cols: Vec<Vec<Scalar>> = Vec::new();
    let mut iz: usize = 0;
    while iz < g.nz
        invariant
            g.wf(),
            ir0 <= g.nr,
            ir1 <= g.nr,
            iz1 <= g.nz,
            iz <= g.nz,
            cols.len() == iz,
            forall|j: int|
                iz0 <= j < iz1 && j < iz ==> is_column(
                    m,
                    g,
                    poly@,
                    j,
                    ir0 as int,
                    ir1 as int,
                    (#[trigger] cols@[j])@,
                ),
        decreases g.nz - iz,
    {
        if iz0 <= iz && iz < iz1 {
            cols.push(column(m, g, poly, iz, ir0, ir1));
        } else {
            cols.push(Vec::new());
        }
        iz = iz + 1;
    }
    cols
}

fn polygon_fractions<M: RasterMath>(m: &M, poly: &Vec<Point>, g: &Grid) -> (fraction: Vec<Scalar>)
    requires
        g.wf(),
        is_polygon(poly@),
    ensures
        is_raster(m, g, poly@, fraction@),
{
    let n: usize = g.len();
    let (zmin, zmax) = bounds(poly, true);
    let (rmin, rmax) = bounds(poly, false);
    if zmax.le(g.z_edges[0]) || g.z_edges[g.nz].le(zmin) || rmax.le(g.r_edges[0])
        || g.r_edges[g.nr].le(rmin) {
        return zeros(n);
    }
    let iz0: usize = count_ends(&g.z_edges, zmin);
    let iz1: usize = count_starts(&g.z_edges, zmax);
    let ir0: usize = count_ends(&g.r_edges, rmin);
    let ir1: usize = count_starts(&g.r_edges, rmax);
    let cols = all_columns(m, g, poly, iz0, iz1, ir0, ir1);
    let mut fraction: Vec<Scalar> = Vec::new();
    let mut k: usize = 0;
    while k < n
        invariant
            g.wf(),
            n == g.cells(),
            cols.len() == g.nz,
            forall|iz: int|
                iz0 <= iz < iz1 ==> is_column(
                    m,
                    g,
                    poly@,
                    iz,
                    ir0 as int,
                    ir1 as int,
                    (#[trigger] cols@[iz])@,
                ),
            k <= n,
            fraction.len() == k,
            forall|j: int|
                0 <= j < k ==> #[trigger] fraction@[j] == (if iz0 <= j % (g.nz as int) < iz1 {
                    cols@[j % (g.nz as int)]@[j / (g.nz as int)]
                } else {
                    Scalar { bits: ZERO }
                }),
        decreases n - k,
    {
        proof {
            grid::law_interior_positions(g.nz as int, g.nr as int, k as int);
        }
        let iz: usize = k % g.nz;
        let ir: usize = k / g.nz;
        if iz0 <= iz && iz < iz1 {
            assert(cols@[iz as int]@.len() == g.nr);
            let col = &cols[iz];
            fraction.push(col[ir]);
        } else {
            fraction.push(Scalar { bits: ZERO });
        }
        k = k + 1;
    }
    proof {
        assert forall|iz: int, ir: int| #[trigger] g.inside(iz, ir) implies fraction@[g.at(iz, ir)]
            == (if iz0 <= iz < iz1 {
            cols@[iz]@[ir]
        } else {
            Scalar { bits: ZERO }
        }) by {
            grid::law_interior_layout(g.nz as int, g.nr as int, iz, ir);
        }
        assert(is_windowed(
            m,
            g,
            poly@,
            iz0 as int,
            iz1 as int,
            ir0 as int,
            ir1 as int,
            cols@,
            fraction@,
        ));
    }
    fraction
}

/// Rasterizes a closed polygon into the shares of the cells that it covers.
pub fn rasterize_solid_polygon<M: RasterMath>(m: &M, poly: &Vec<Point>, g: &Grid) -> (r: Result<
    SolidField,
    CfdError,
>)
    requires
        g.wf(),
    ensures
        match r {
            Ok(f) => {
                &&& is_polygon(poly@)
                &&& f.wf()
                &&& grid::identical(&f.grid, g)
                &&& is_raster(m, g, poly@, f.fraction@)
            },
            Err(e) => !is_polygon(poly@) && is_polygon_error(m, poly@, e),
        },
{
    match check_polygon(m, poly) {
        Err(e) => Err(e),
        Ok(_) => {
            let fraction = polygon_fractions(m, poly, g);
            Ok(SolidField { grid: g.clone(), fraction })
        },
    }
}

/// The highest of `top` and the first `n` radii.
pub open spec fn highest(top: Scalar, pts: Seq<Point>, n: int) -> Scalar
    decreases n,
{
    if n <= 0 {
        top
    } else {
        highest(top, pts, n - 1).larger(pts[n - 1].r)
    }
}

/// `poly` is the region above a wall in grid units: the wall, closed above the
/// top of the grid.
pub open spec fn is_region_above<M: RasterMath>(
    m: &M,
    pts: Seq<Point>,
    g: &Grid,
    refs: RefScales,
    factor: Scalar,
    wall: Seq<Point>,
    top: Scalar,
    poly: Seq<Point>,
) -> bool {
    &&& call_ensures(M::reciprocal, (m, refs.l_m), factor)
    &&& wall.len() == pts.len()
    &&& forall|i: int|
        0 <= i < wall.len() ==> call_ensures(M::scaled, (m, pts[i], factor), #[trigger] wall[i])
    &&& call_ensures(
        M::one_above,
        (m, highest(g.r_edges@.last(), wall, wall.len() as int)),
        top,
    )
    &&& poly == wall.push(Point { z: wall.last().z, r: top }).push(
        Point { z: wall[0].z, r: top },
    )
}

fn region_above<M: RasterMath>(m: &M, p: &WallProfile, g: &Grid, refs: RefScales) -> (poly: Vec<
    Point,
>)
    requires
        g.wf(),
        p.valid(),
    ensures
        exists|factor: Scalar, wall: Seq<Point>, top: Scalar| #[trigger]
            is_region_above(m, p.points@, g, refs, factor, wall, top, poly@),
{
    let factor = m.reciprocal(refs.l_m);
    let n: usize = p.points.len();
    let mut poly: Vec<Point> = Vec::new();
    let mut over = g.lr();
    let mut i: usize = 0;
    while i < n
        invariant
            n == p.points.len(),
            i <= n,
            poly.len() == i,
            forall|j: int|
                0 <= j < i ==> call_ensures(
                    M::scaled,
                    (m, p.points@[j], factor),
                    #[trigger] poly@[j],
                ),
            over == highest(g.r_edges@.last(), poly@, i as int),
        decreases n - i,
    {
        let ghost was = poly@;
        let q = m.scaled(p.points[i], factor);
        poly.push(q);
        over = over.max(q.r);
        proof {
            lemma_highest_prefix(g.r_edges@.last(), was, poly@, i as int);
        }
        i = i + 1;
    }
    let ghost wall = poly@;
    let top = m.one_above(over);
    let first = poly[0].z;
    let last = poly[n - 1].z;
    poly.push(Point { z: last, r: top });
    poly.push(Point { z: first, r: top });
    assert(is_region_above(m, p.points@, g, refs, factor, wall, top, poly@));
    poly
}

proof fn lemma_highest_prefix(top: Scalar, a: Seq<Point>, b: Seq<Point>, n: int)
    requires
        0 <= n <= a.len(),
        a.len() <= b.len(),
        forall|i: int| 0 <= i < n ==> a[i] == #[trigger] b[i],
    ensures
        highest(top, a, n) == highest(top, b, n),
    decreases n,
{
    if n > 0 {
        lemma_highest_prefix(top, a, b, n - 1);
    }
}

/// The unit of length is one.
pub open spec fn has_length_unit(refs: RefScales) -> bool {
    refs.l_m.finite() && (Scalar { bits: ZERO }).below(refs.l_m)
}

/// `e` is the error of a wall that is no profile, or of a missing unit of length.
pub open spec fn is_wall_error<M: RasterMath>(
    m: &M,
    p: &WallProfile,
    refs: RefScales,
    e: CfdError,
) -> bool {
    if !p.valid() {
        exists|f: ProfileFault|
            {
                &&& #[trigger] profile::is_profile_fault(p.points@, p.throat_index as int, f)
                &&& e matches CfdError::Geometry(s) && profile::tells(m, f, s@)
            }
    } else {
        exists|a: String| #[trigger]
            call_ensures(M::show, (m, refs.l_m), a) && (e matches CfdError::Parameter(s) && s@
                == "RefScales.l_m = "@ + a@)
    }
}

/// Rasterizes a wall: everything at or above it is solid; before its first point
/// and behind its last one there is fluid.
pub fn rasterize<M: RasterMath>(m: &M, p: &WallProfile, g: &Grid, refs: RefScales) -> (r: Result<
    SolidField,
    CfdError,
>)
    requires
        g.wf(),
    ensures
        match r {
            Ok(f) => {
                &&& p.valid()
                &&& has_length_unit(refs)
                &&& f.wf()
                &&& grid::identical(&f.grid, g)
                &&& exists|factor: Scalar, wall: Seq<Point>, top: Scalar, poly: Seq<Point>|
                    #[trigger]
                    is_region_above(m, p.points@, g, refs, factor, wall, top, poly) && is_polygon(
                        poly,
                    ) && is_raster(m, g, poly, f.fraction@)
            },
            Err(e) => if p.valid() && has_length_unit(refs) {
                exists|factor: Scalar, wall: Seq<Point>, top: Scalar, poly: Seq<Point>| #[trigger]
                    is_region_above(m, p.points@, g, refs, factor, wall, top, poly) && !is_polygon(
                        poly,
                    ) && is_polygon_error(m, poly, e)
            } else {
                is_wall_error(m, p, refs, e)
            },
        },
{
    match p.validate(m) {
        Err(e) => {
            return Err(e);
        },
        Ok(_) => {},
    }
    if !(refs.l_m.is_finite() && (Scalar { bits: ZERO }).lt(refs.l_m)) {
        let a = m.show(refs.l_m);
        let mut s = "RefScales.l_m = ".to_owned();
        s.append(a.as_str());
        return Err(CfdError::Parameter(s));
    }
    let poly = region_above(m, p, g, refs);
    rasterize_solid_polygon(m, &poly, g)
}

/// A cell beside the polygon's bounding box is fluid.
pub proof fn law_outside_the_box_is_fluid<M: RasterMath>(
    m: &M,
    g: &Grid,
    poly: Seq<Point>,
    fraction: Seq<Scalar>,
    iz: int,
    ir: int,
)
    requires
        g.wf(),
        grid::is_axis(g.z_edges@),
        is_polygon(poly),
        is_raster(m, g, poly, fraction),
        g.inside(iz, ir),
        g.z_edges[iz + 1].at_most(low(poly, true, poly.len() as int)) || high(
            poly,
            true,
            poly.len() as int,
        ).at_most(g.z_edges[iz]),
    ensures
        fraction[g.at(iz, ir)].bits == ZERO,
{
    let n = poly.len() as int;
    let zmin = low(poly, true, n);
    let zmax = high(poly, true, n);
    grid::law_interior_layout(g.nz as int, g.nr as int, iz, ir);
    if !(misses(g.z_edges@, zmin, zmax) || misses(
        g.r_edges@,
        low(poly, false, n),
        high(poly, false, n),
    )) {
        let (iz0, iz1, ir0, ir1, cols) = choose|
            iz0: int,
            iz1: int,
            ir0: int,
            ir1: int,
            cols: Seq<Vec<Scalar>>,
        | #[trigger]
            is_windowed(m, g, poly, iz0, iz1, ir0, ir1, cols, fraction);
        if iz0 <= iz < iz1 {
            assert(g.z_edges@[iz].below(zmax));
            assert(!g.z_edges@[iz0 + 1].at_most(zmin));
            if iz0 < iz {
                lemma_axis_rises(g.z_edges@, iz0 + 1, iz + 1);
            }
        }
    }
}

/// Clipping keeps what is inside and drops what is outside: a polygon of which no point
/// lies outside a half-plane comes out as it is, and one of which every point lies outside
/// comes out empty.
pub proof fn law_clipping_keeps_the_inside<M: RasterMath>(
    m: &M,
    input: Seq<Point>,
    half: Half,
    out: Seq<Point>,
)
    requires
        is_clipped(m, input, half, out),
        forall|a: Scalar, b: Scalar, d: Scalar| #[trigger]
            call_ensures(M::depth, (m, a, b), d) ==> {
                &&& b.at_most(a) ==> (Scalar { bits: ZERO }).at_most(d)
                &&& a.below(b) ==> d.below(Scalar { bits: ZERO })
            },
    ensures
        (forall|i: int|
            0 <= i < input.len() ==> match half {
                Half::Beyond(z) => z.at_most((#[trigger] input[i]).z),
                Half::Before(z) => input[i].z.at_most(z),
                Half::Above(r) => r.at_most(input[i].r),
                Half::Under(r) => input[i].r.at_most(r),
            }) ==> out == input,
        (forall|i: int|
            0 <= i < input.len() ==> match half {
                Half::Beyond(z) => (#[trigger] input[i]).z.below(z),
                Half::Before(z) => z.below(input[i].z),
                Half::Above(r) => input[i].r.below(r),
                Half::Under(r) => r.below(input[i].r),
            }) ==> out.len() == 0,
{
    let (d, x) = choose|d: Seq<Scalar>, x: Seq<Point>| #[trigger]
        is_cut_by(m, input, half, d, x) && out == cut(input, d, x, input.len() as int);
    let n = input.len() as int;
    let zero = Scalar { bits: ZERO };
    assert forall|i: int| 0 <= i < n implies is_depth(m, half, input[i], #[trigger] d[i]) by {}
    if forall|i: int|
        0 <= i < input.len() ==> match half {
            Half::Beyond(z) => z.at_most((#[trigger] input[i]).z),
            Half::Before(z) => input[i].z.at_most(z),
            Half::Above(r) => r.at_most(input[i].r),
            Half::Under(r) => input[i].r.at_most(r),
        } {
        assert forall|i: int| 0 <= i < n implies zero.at_most(#[trigger] d[i]) by {
            assert(is_depth(m, half, input[i], d[i]));
        }
        lemma_cut_keeps_all(input, d, x, n);
        assert(input.take(n) =~= input);
    }
    if forall|i: int|
        0 <= i < input.len() ==> match half {
            Half::Beyond(z) => (#[trigger] input[i]).z.below(z),
            Half::Before(z) => z.below(input[i].z),
            Half::Above(r) => input[i].r.below(r),
            Half::Under(r) => r.below(input[i].r),
        } {
        assert forall|i: int| 0 <= i < n implies (#[trigger] d[i]).below(zero) by {
            assert(is_depth(m, half, input[i], d[i]));
        }
        lemma_cut_keeps_none(input, d, x, n);
    }
}

proof fn lemma_cut_keeps_all(input: Seq<Point>, d: Seq<Scalar>, x: Seq<Point>, n: int)
    requires
        0 <= n <= input.len(),
        d.len() == input.len(),
        forall|i: int| 0 <= i < d.len() ==> (Scalar { bits: ZERO }).at_most(#[trigger] d[i]),
    ensures
        cut(input, d, x, n) == input.take(n),
    decreases n,
{
    if n > 0 {
        lemma_cut_keeps_all(input, d, x, n - 1);
        assert((Scalar { bits: ZERO }).at_most(d[n - 1]));
        assert((Scalar { bits: ZERO }).at_most(d[around(n - 1, d.len() as int)]));
        assert(!crosses(d, n - 1));
        assert(input.take(n) =~= input.take(n - 1).push(input[n - 1]));
    } else {
        assert(input.take(0) =~= Seq::<Point>::empty());
    }
}

proof fn lemma_cut_keeps_none(input: Seq<Point>, d: Seq<Scalar>, x: Seq<Point>, n: int)
    requires
        0 <= n <= input.len(),
        d.len() == input.len(),
        forall|i: int| 0 <= i < d.len() ==> (#[trigger] d[i]).below(Scalar { bits: ZERO }),
    ensures
        cut(input, d, x, n).len() == 0,
    decreases n,
{
    if n > 0 {
        lemma_cut_keeps_none(input, d, x, n - 1);
        assert(d[n - 1].below(Scalar { bits: ZERO }));
        assert(d[around(n - 1, d.len() as int)].below(Scalar { bits: ZERO }));
        assert(!crosses(d, n - 1));
    }
}

/// What comes out of clipping, point by point: every point is one of the polygon's that
/// does not lie outside, or the crossing of one of its edges whose ends lie on either side
/// of the border.
pub proof fn law_clipped_points_come_from_the_polygon<M: RasterMath>(
    m: &M,
    input: Seq<Point>,
    half: Half,
    out: Seq<Point>,
    k: int,
) -> (r: (int, int, Scalar, Scalar))
    requires
        is_clipped(m, input, half, out),
        0 <= k < out.len(),
    ensures
        ({
            let (i, j, di, dj) = r;
            let zero = Scalar { bits: ZERO };
            &&& 0 <= i < input.len()
            &&& j == if i + 1 < input.len() {
                i + 1
            } else {
                0
            }
            &&& match half {
                Half::Beyond(z) => call_ensures(M::depth, (m, input[i].z, z), di) && call_ensures(
                    M::depth,
                    (m, input[j].z, z),
                    dj,
                ),
                Half::Before(z) => call_ensures(M::depth, (m, z, input[i].z), di) && call_ensures(
                    M::depth,
                    (m, z, input[j].z),
                    dj,
                ),
                Half::Above(q) => call_ensures(M::depth, (m, input[i].r, q), di) && call_ensures(
                    M::depth,
                    (m, input[j].r, q),
                    dj,
                ),
                Half::Under(q) => call_ensures(M::depth, (m, q, input[i].r), di) && call_ensures(
                    M::depth,
                    (m, q, input[j].r),
                    dj,
                ),
            }
            &&& {
                ||| out[k] == input[i] && zero.at_most(di)
                ||| {
                    &&& zero.below(di) && dj.below(zero) || di.below(zero) && zero.below(dj)
                    &&& call_ensures(M::crossing, (m, input[i], input[j], di, dj), out[k])
                }
            }
        }),
{
    let (d, x) = choose|d: Seq<Scalar>, x: Seq<Point>| #[trigger]
        is_cut_by(m, input, half, d, x) && out == cut(input, d, x, input.len() as int);
    let n = input.len() as int;
    let i = lemma_cut_source(input, d, x, n, k);
    let j = around(i, n);
    assert(is_depth(m, half, input[i], d[i]));
    assert(is_depth(m, half, input[j], d[j]));
    assert(crosses(d, i) ==> call_ensures(
        M::crossing,
        (m, input[i], input[around(i, n)], d[i], d[around(i, n)]),
        x[i],
    ));
    (i, j, d[i], d[j])
}

proof fn lemma_cut_source(
    input: Seq<Point>,
    d: Seq<Scalar>,
    x: Seq<Point>,
    n: int,
    k: int,
) -> (i: int)
    requires
        0 <= n <= input.len(),
        0 <= k < cut(input, d, x, n).len(),
    ensures
        0 <= i < n,
        ({
            ||| cut(input, d, x, n)[k] == input[i] && (Scalar { bits: ZERO }).at_most(d[i])
            ||| cut(input, d, x, n)[k] == x[i] && crosses(d, i)
        }),
    decreases n,
{
    let short = cut(input, d, x, n - 1);
    if k < short.len() {
        lemma_cut_source(input, d, x, n - 1, k)
    } else {
        n - 1
    }
}

/// The bounding box of a polygon holds all of its points and none of its sides is free of
/// them.
pub proof fn law_bounds_are_tight(poly: Seq<Point>, axial: bool, i: int)
    requires
        all_finite(poly),
        0 <= i < poly.len(),
    ensures
        ({
            let lo = low(poly, axial, poly.len() as int);
            let hi = high(poly, axial, poly.len() as int);
            let x = if axial {
                poly[i].z
            } else {
                poly[i].r
            };
            &&& lo.at_most(x) && x.at_most(hi)
        }),
        exists|j: int|
            0 <= j < poly.len() && low(poly, axial, poly.len() as int).equals(
                if axial {
                    (#[trigger] poly[j]).z
                } else {
                    poly[j].r
                },
            ),
        exists|j: int|
            0 <= j < poly.len() && high(poly, axial, poly.len() as int).equals(
                if axial {
                    (#[trigger] poly[j]).z
                } else {
                    poly[j].r
                },
            ),
{
    lemma_bounds_hold(poly, axial, poly.len() as int, i);
}

proof fn lemma_bounds_hold(poly: Seq<Point>, axial: bool, n: int, i: int)
    requires
        all_finite(poly),
        0 < n <= poly.len(),
    ensures
        low(poly, axial, n).finite() && high(poly, axial, n).finite(),
        0 <= i < n ==> low(poly, axial, n).at_most(coordinate(poly[i], axial)) && coordinate(
            poly[i],
            axial,
        ).at_most(high(poly, axial, n)),
        exists|j: int|
            0 <= j < n && low(poly, axial, n).equals(coordinate(#[trigger] poly[j], axial)),
        exists|j: int|
            0 <= j < n && high(poly, axial, n).equals(coordinate(#[trigger] poly[j], axial)),
    decreases n,
{
    let c = coordinate(poly[n - 1], axial);
    assert(poly[n - 1].z.finite() && poly[n - 1].r.finite());
    assert(c.finite());
    if n > 1 {
        lemma_bounds_hold(poly, axial, n - 1, i);
        let j = choose|j: int|
            0 <= j < n - 1 && low(poly, axial, n - 1).equals(
                coordinate(#[trigger] poly[j], axial),
            );
        let k = choose|k: int|
            0 <= k < n - 1 && high(poly, axial, n - 1).equals(
                coordinate(#[trigger] poly[k], axial),
            );
        assert(low(poly, axial, n).equals(c) || low(poly, axial, n).equals(
            coordinate(poly[j], axial),
        ));
        assert(high(poly, axial, n).equals(c) || high(poly, axial, n).equals(
            coordinate(poly[k], axial),
        ));
    } else {
        let far = Scalar { bits: LARGEST };
        let deep = Scalar { bits: LOWEST };
        assert(c.order() <= far.order());
        assert(deep.order() <= c.order());
        assert(low(poly, axial, 0) == far);
        assert(high(poly, axial, 0) == deep);
        assert(low(poly, axial, n).equals(c));
        assert(high(poly, axial, n).equals(c));
    }
}

/// The area of a polygon goes once around it: each point with the next, and the last with
/// the first.
pub proof fn law_areas_go_around<M: RasterMath>(
    m: &M,
    poly: Seq<Point>,
    n: int,
    sum: Scalar,
) -> (rest: Scalar)
    requires
        0 < n <= poly.len(),
        is_cross_sum(m, poly, n, sum),
    ensures
        is_cross_sum(m, poly, n - 1, rest),
        n == 1 ==> rest.bits == ZERO,
        n < poly.len() ==> call_ensures(M::add_cross, (m, rest, poly[n - 1], poly[n]), sum),
        n == poly.len() ==> call_ensures(M::add_cross, (m, rest, poly[n - 1], poly[0]), sum),
{
    choose|rest: Scalar| #[trigger]
        call_ensures(
            M::add_cross,
            (m, rest, poly[n - 1], poly[around(n - 1, poly.len() as int)]),
            sum,
        ) && is_cross_sum(m, poly, n - 1, rest)
}

proof fn lemma_window_cells(edges: Seq<Scalar>, lo: Scalar, hi: Scalar, a: int, b: int, i: int)
    requires
        grid::is_axis(edges),
        window(edges, lo, hi, a, b),
        0 <= i < edges.len() - 1,
    ensures
        a <= i <==> !edges[i + 1].at_most(lo),
        i < b <==> edges[i].below(hi),
{
    if a <= i && edges[i + 1].at_most(lo) {
        if a < i {
            lemma_axis_rises(edges, a + 1, i + 1);
        }
    }
    if b <= i && edges[i].below(hi) {
        if b < i {
            lemma_axis_rises(edges, b, i);
        }
    }
}

/// The share of a cell that a polygon covers, for a cell that the polygon's bounding box
/// and the part of it over the cell's column both reach: the polygon is clipped to the
/// cell's own four edges, and its area there relative to the cell's is held between
/// nothing and all of it.
pub proof fn law_cells_are_covered_by_area<M: RasterMath>(
    m: &M,
    g: &Grid,
    poly: Seq<Point>,
    fraction: Seq<Scalar>,
    iz: int,
    ir: int,
) -> (r: (Seq<Point>, Seq<Point>, Seq<Point>, Seq<Point>, Scalar, Scalar))
    requires
        g.wf(),
        grid::is_axis(g.z_edges@),
        grid::is_axis(g.r_edges@),
        is_raster(m, g, poly, fraction),
        g.inside(iz, ir),
        ({
            let n = poly.len() as int;
            &&& !g.z_edges[iz + 1].at_most(low(poly, true, n))
            &&& g.z_edges[iz].below(high(poly, true, n))
            &&& !g.r_edges[ir + 1].at_most(low(poly, false, n))
            &&& g.r_edges[ir].below(high(poly, false, n))
            &&& !misses(g.z_edges@, low(poly, true, n), high(poly, true, n))
            &&& !misses(g.r_edges@, low(poly, false, n), high(poly, false, n))
        }),
    ensures
        ({
            let (left, strip, upper, cell, area, raw) = r;
            let f = fraction[g.at(iz, ir)];
            let n = strip.len() as int;
            let zero = Scalar { bits: ZERO };
            let one = Scalar { bits: ONE };
            &&& is_clipped(m, poly, Half::Beyond(g.z_edges[iz]), left)
            &&& is_clipped(m, left, Half::Before(g.z_edges[iz + 1]), strip)
            &&& n < 3 ==> f.bits == ZERO
            &&& n >= 3 && !g.r_edges[ir + 1].at_most(low(strip, false, n)) && g.r_edges[ir].below(
                high(strip, false, n),
            ) ==> {
                &&& is_clipped(m, strip, Half::Above(g.r_edges[ir]), upper)
                &&& is_clipped(m, upper, Half::Under(g.r_edges[ir + 1]), cell)
                &&& is_area(m, cell, area)
                &&& !zero.below(area) ==> f.bits == ZERO
                &&& zero.below(area) ==> {
                    &&& call_ensures(
                        M::share,
                        (
                            m,
                            area,
                            g.z_edges[iz],
                            g.z_edges[iz + 1],
                            g.r_edges[ir],
                            g.r_edges[ir + 1],
                        ),
                        raw,
                    )
                    &&& zero.at_most(raw) && raw.at_most(one) ==> call_ensures(
                        M::narrow,
                        (m, raw),
                        f,
                    )
                    &&& raw.below(zero) ==> call_ensures(M::narrow, (m, zero), f)
                    &&& one.below(raw) ==> call_ensures(M::narrow, (m, one), f)
                }
            }
        }),
{
    let n = poly.len() as int;
    let (iz0, iz1, ir0, ir1, cols) = choose|
        iz0: int,
        iz1: int,
        ir0: int,
        ir1: int,
        cols: Seq<Vec<Scalar>>,
    | #[trigger]
        is_windowed(m, g, poly, iz0, iz1, ir0, ir1, cols, fraction);
    lemma_window_cells(
        g.z_edges@,
        low(poly, true, n),
        high(poly, true, n),
        iz0,
        iz1,
        iz,
    );
    lemma_window_cells(
        g.r_edges@,
        low(poly, false, n),
        high(poly, false, n),
        ir0,
        ir1,
        ir,
    );
    let col = cols[iz]@;
    assert(is_column(m, g, poly, iz, ir0, ir1, col));
    let (left, strip) = choose|left: Seq<Point>, strip: Seq<Point>|
        {
            &&& #[trigger] is_clipped(m, poly, Half::Beyond(g.z_edges[iz]), left)
            &&& is_clipped(m, left, Half::Before(g.z_edges[iz + 1]), strip)
            &&& #[trigger] is_strip_column(m, g, iz, ir0, ir1, strip, col)
        };
    let k = strip.len() as int;
    let za = g.z_edges[iz];
    let zb = g.z_edges[iz + 1];
    let ra = g.r_edges[ir];
    let rb = g.r_edges[ir + 1];
    if k >= 3 {
        let (a, b) = choose|a: int, b: int| #[trigger]
            window(g.r_edges@, low(strip, false, k), high(strip, false, k), a, b) && ({
                let jr0 = held(a, ir0, ir1);
                let jr1 = held(b, jr0, ir1);
                forall|ir: int|
                    0 <= ir < col.len() ==> if jr0 <= ir < jr1 {
                        is_covered(
                            m,
                            strip,
                            g.z_edges[iz],
                            g.z_edges[iz + 1],
                            g.r_edges[ir],
                            g.r_edges[ir + 1],
                            #[trigger] col[ir],
                        )
                    } else {
                        col[ir].bits == ZERO
                    }
            });
        lemma_window_cells(
            g.r_edges@,
            low(strip, false, k),
            high(strip, false, k),
            a,
            b,
            ir,
        );
        if !rb.at_most(low(strip, false, k)) && ra.below(high(strip, false, k)) {
            assert(is_covered(m, strip, za, zb, ra, rb, col[ir]));
        }
    } else {
        assert(col[ir].bits == ZERO);
    }
    let (upper, cell, area) = choose|upper: Seq<Point>, cell: Seq<Point>, area: Scalar|
        {
            &&& #[trigger] is_clipped(m, strip, Half::Above(ra), upper)
            &&& is_clipped(m, upper, Half::Under(rb), cell)
            &&& #[trigger] is_share(m, cell, za, zb, ra, rb, area, col[ir])
        };
    let raw = choose|raw: Scalar| #[trigger]
        call_ensures(M::share, (m, area, za, zb, ra, rb), raw) && call_ensures(
            M::narrow,
            (m, raw.held_between(Scalar { bits: ZERO }, Scalar { bits: ONE })),
            col[ir],
        );
    (left, strip, upper, cell, area, raw)
}

/// A cell above or below the polygon's bounding box is fluid, and so is every cell of a
/// grid that the box misses.
pub proof fn law_above_the_box_is_fluid<M: RasterMath>(
    m: &M,
    g: &Grid,
    poly: Seq<Point>,
    fraction: Seq<Scalar>,
    iz: int,
    ir: int,
)
    requires
        g.wf(),
        grid::is_axis(g.z_edges@),
        grid::is_axis(g.r_edges@),
        is_polygon(poly),
        is_raster(m, g, poly, fraction),
        g.inside(iz, ir),
        g.r_edges[ir + 1].at_most(low(poly, false, poly.len() as int)) || high(
            poly,
            false,
            poly.len() as int,
        ).at_most(g.r_edges[ir]),
    ensures
        fraction[g.at(iz, ir)].bits == ZERO,
{
    let n = poly.len() as int;
    grid::law_interior_layout(g.nz as int, g.nr as int, iz, ir);
    lemma_low_high(poly, false, n);
    if !(misses(g.z_edges@, low(poly, true, n), high(poly, true, n)) || misses(
        g.r_edges@,
        low(poly, false, n),
        high(poly, false, n),
    )) {
        let (iz0, iz1, ir0, ir1, cols) = choose|
            iz0: int,
            iz1: int,
            ir0: int,
            ir1: int,
            cols: Seq<Vec<Scalar>>,
        | #[trigger]
            is_windowed(m, g, poly, iz0, iz1, ir0, ir1, cols, fraction);
        lemma_window_cells(
            g.r_edges@,
            low(poly, false, n),
            high(poly, false, n),
            ir0,
            ir1,
            ir,
        );
        law_window_is_ordered(g.r_edges@, poly, false, ir0, ir1);
        if iz0 <= iz < iz1 {
            let col = cols[iz]@;
            assert(is_column(m, g, poly, iz, ir0, ir1, col));
            let (left, strip) = choose|left: Seq<Point>, strip: Seq<Point>|
                {
                    &&& #[trigger] is_clipped(m, poly, Half::Beyond(g.z_edges[iz]), left)
                    &&& is_clipped(m, left, Half::Before(g.z_edges[iz + 1]), strip)
                    &&& #[trigger] is_strip_column(m, g, iz, ir0, ir1, strip, col)
                };
            assert(col[ir].bits == ZERO);
        }
    }
}

/// The region that a wall bounds from below is the wall, in grid units and in its order,
/// closed over a level above it: up from its last point, and down onto its first. The
/// level lies one above everything that the grid and the wall reach.
pub proof fn law_walls_are_closed_from_above<M: RasterMath>(
    m: &M,
    pts: Seq<Point>,
    g: &Grid,
    refs: RefScales,
    factor: Scalar,
    wall: Seq<Point>,
    top: Scalar,
    poly: Seq<Point>,
    i: int,
) -> (reach: Scalar)
    requires
        pts.len() > 0,
        is_region_above(m, pts, g, refs, factor, wall, top, poly),
        0 <= i < pts.len(),
    ensures
        ({
            let n = pts.len() as int;
            &&& poly.len() == n + 2
            &&& call_ensures(M::reciprocal, (m, refs.l_m), factor)
            &&& call_ensures(M::scaled, (m, pts[i], factor), poly[i])
            &&& poly[n].z == poly[n - 1].z && poly[n].r == top
            &&& poly[n + 1].z == poly[0].z && poly[n + 1].r == top
            &&& call_ensures(M::one_above, (m, reach), top)
            &&& !reach.below(poly[i].r)
            &&& !reach.below(g.r_edges@.last())
        }),
{
    let n = wall.len() as int;
    lemma_highest(g.r_edges@.last(), wall, n, i);
    assert(poly[i] == wall[i]);
    highest(g.r_edges@.last(), wall, n)
}

proof fn lemma_highest(top: Scalar, pts: Seq<Point>, n: int, i: int)
    requires
        0 <= n <= pts.len(),
    ensures
        highest(top, pts, n).nan() ==> top.nan() && (0 <= i < n ==> pts[i].r.nan()),
        !highest(top, pts, n).below(top),
        0 <= i < n ==> !highest(top, pts, n).below(pts[i].r),
    decreases n,
{
    if n > 0 {
        lemma_highest(top, pts, n - 1, i);
    }
}

/// Less than a triangle has no area.
pub proof fn law_less_than_a_triangle_has_no_area<M: RasterMath>(
    m: &M,
    poly: Seq<Point>,
    area: Scalar,
)
    requires
        is_area(m, poly, area),
        poly.len() <= 2,
    ensures
        area.bits == ZERO,
{
}

} // verus!
