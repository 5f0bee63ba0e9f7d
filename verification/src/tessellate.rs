//! Queries on a wall curve, and the polylines made from it.

use vstd::prelude::*;
use crate::contour::{ContourKind, NozzleSpec};
use crate::curve::{BellGeometry, CurveMath, NozzleCurve, Piece, CHAMBER_LEN_RT};
use crate::error::CfdError;
use crate::profile;
use crate::profile::{Point, ProfileFault, WallProfile};
use crate::scalar::{Scalar, ONE, ZERO};

verus! {

/// The pattern of the distance below which two stations are the same, 1e-12.
pub const HAIR: u64 = 0x3D71_9799_812D_EA11;

/// The pattern of the usual turn per segment, 2 degrees.
pub const MAX_TURN_DEG: u64 = 0x4000_0000_0000_0000;

/// The usual cap on the points of a polyline.
pub const MAX_POINTS: usize = 4096;

/// The pattern of the smallest normal number.
pub const SMALLEST_NORMAL: u64 = 0x0010_0000_0000_0000;

/// The pieces up to the throat.
pub const CONVERGING_PIECES: usize = 3;

/// The floating-point formulas of the polylines.
pub trait PolylineMath: CurveMath {
    /// The usual tolerance for cells of a size.
    fn cell_tolerance(&self, cell: Scalar) -> Scalar;

    /// How far `to` lies beyond `from`.
    fn advance(&self, from: Scalar, to: Scalar) -> Scalar;

    /// The parameter after `k` of `n` steps.
    fn step_share(&self, k: usize, n: usize) -> Scalar;

    /// A count reduced in proportion to a cap on the total, rounded down.
    fn shrunk(&self, count: usize, cap: u128, total: u128) -> usize;

    /// A point in metres.
    fn in_metres(&self, p: Point, r_throat: Scalar) -> Point;

    /// Sample `k` of `n` on the upstream arc.
    fn upstream_sample(&self, spec: NozzleSpec, z_t: Scalar, k: usize, n: usize) -> Point;

    /// Sample `k` of `n` on the downstream arc up to a wall angle in degrees.
    fn downstream_sample(
        &self,
        arc: Scalar,
        angle_deg: Scalar,
        z_t: Scalar,
        k: usize,
        n: usize,
    ) -> Point;

    /// Sample `k` of `n` on the parabola of a bell.
    fn bell_sample(&self, b: BellGeometry, z_t: Scalar, k: usize, n: usize) -> Point;
}

/// `end` is the end of piece `i`, and `limit` a hair beyond its station.
pub open spec fn ends_at<M: CurveMath>(
    m: &M,
    v: Seq<Piece>,
    i: int,
    end: Point,
    limit: Scalar,
) -> bool {
    v[i].has_point(m, Scalar { bits: ONE }, end) && call_ensures(M::hair_beyond, (m, end.z), limit)
}

/// The station `z` lies behind piece `i`.
pub open spec fn passes<M: CurveMath>(m: &M, v: Seq<Piece>, z: Scalar, i: int) -> bool {
    exists|end: Point, limit: Scalar| #[trigger]
        ends_at(m, v, i, end, limit) && !z.at_most(limit)
}

/// Piece `i` is the first that the station `z` does not lie behind; the number of
/// pieces where there is none.
pub open spec fn is_first_reached<M: CurveMath>(m: &M, v: Seq<Piece>, z: Scalar, i: int) -> bool {
    &&& 0 <= i <= v.len()
    &&& forall|j: int| 0 <= j < i ==> #[trigger] passes(m, v, z, j)
    &&& i < v.len() ==> exists|end: Point, limit: Scalar| #[trigger]
        ends_at(m, v, i, end, limit) && z.at_most(limit)
}

fn first_reached<M: CurveMath>(m: &M, v: &Vec<Piece>, z: Scalar) -> (i: usize)
    ensures
        is_first_reached(m, v@, z, i as int),
{
    let mut i: usize = 0;
    while i < v.len()
        invariant
            i <= v.len(),
            forall|j: int| 0 <= j < i ==> #[trigger] passes(m, v@, z, j),
        decreases v.len() - i,
    {
        let end = v[i].end(m);
        let limit = m.hair_beyond(end.z);
        let ghost at = i as int;
        assert(ends_at(m, v@, at, end, limit));
        if z.le(limit) {
            return i;
        }
        assert(passes(m, v@, z, at));
        i = i + 1;
    }
    i
}

/// `r` is the radius in metres at the station `zr`, in throat radii, that piece
/// `i` gives.
pub open spec fn is_piece_radius<M: CurveMath>(
    m: &M,
    v: Seq<Piece>,
    i: int,
    zc: Scalar,
    rt: Scalar,
    last: Point,
    r: Option<Scalar>,
) -> bool {
    if i < v.len() {
        exists|x: Option<Scalar>|
            {
                &&& #[trigger] v[i].has_radius(m, zc, x)
                &&& r is Some <==> x is Some
                &&& x is Some ==> call_ensures(M::times, (m, x->0, rt), r->0)
            }
    } else {
        r is Some && call_ensures(M::times, (m, last.r, rt), r->0)
    }
}

/// The ends of the pieces.
pub open spec fn are_ends<M: CurveMath>(m: &M, v: Seq<Piece>, first: Point, last: Point) -> bool {
    &&& v.len() > 0
    &&& v[0].has_point(m, Scalar { bits: ZERO }, first)
    &&& v.last().has_point(m, Scalar { bits: ONE }, last)
}

/// The radius at a station in throat radii: none outside of the curve.
pub open spec fn is_curve_radius<M: CurveMath>(
    m: &M,
    v: Seq<Piece>,
    zr: Scalar,
    rt: Scalar,
    first: Point,
    last: Point,
    before: Scalar,
    beyond: Scalar,
    i: int,
    r: Option<Scalar>,
) -> bool {
    &&& are_ends(m, v, first, last)
    &&& call_ensures(M::hair_before, (m, first.z), before)
    &&& call_ensures(M::hair_beyond, (m, last.z), beyond)
    &&& if before.at_most(zr) && zr.at_most(beyond) {
        let zc = zr.held_between(first.z, last.z);
        is_first_reached(m, v, zc, i) && is_piece_radius(m, v, i, zc, rt, last, r)
    } else {
        r is None
    }
}

/// The direction at a station in throat radii: none outside of the curve.
pub open spec fn is_curve_direction<M: CurveMath>(
    m: &M,
    v: Seq<Piece>,
    zr: Scalar,
    first: Point,
    last: Point,
    before: Scalar,
    beyond: Scalar,
    i: int,
    d: Option<Point>,
) -> bool {
    &&& are_ends(m, v, first, last)
    &&& call_ensures(M::hair_before, (m, first.z), before)
    &&& call_ensures(M::hair_beyond, (m, last.z), beyond)
    &&& if before.at_most(zr) && zr.at_most(beyond) {
        let zc = zr.held_between(first.z, last.z);
        &&& d is Some
        &&& is_first_reached(m, v, zc, i)
        &&& if i < v.len() {
            v[i].has_direction(m, zc, d->0)
        } else {
            v.last().has_direction(m, last.z, d->0)
        }
    } else {
        d is None
    }
}

impl NozzleCurve {
    /// `r` is the radius of the wall at the station `z`, both in metres.
    pub open spec fn has_radius_at<M: CurveMath>(
        self,
        m: &M,
        z: Scalar,
        r: Option<Scalar>,
    ) -> bool {
        ||| {
            &&& r is None
            &&& exists|e: CfdError| #[trigger] self.laid_out(m, Err(e))
        }
        ||| exists|
            v: Vec<Piece>,
            zr: Scalar,
            first: Point,
            last: Point,
            before: Scalar,
            beyond: Scalar,
            i: int,
        |
            {
                &&& #[trigger] self.laid_out(m, Ok(v))
                &&& call_ensures(M::over, (m, z, self.spec.throat_radius_m), zr)
                &&& #[trigger] is_curve_radius(
                    m,
                    v@,
                    zr,
                    self.spec.throat_radius_m,
                    first,
                    last,
                    before,
                    beyond,
                    i,
                    r,
                )
            }
    }

    /// The radius of the wall at the station `z`, both in metres.
    pub fn radius_at<M: CurveMath>(&self, m: &M, z: Scalar) -> (r: Option<Scalar>)
        ensures
            self.has_radius_at(m, z, r),
    {
        let rt = self.spec.throat_radius_m;
        let zr = m.over(z, rt);
        let v = match self.pieces(m) {
            Err(e) => {
                assert(self.laid_out(m, Err(e)));
                return None;
            },
            Ok(v) => v,
        };
        let n: usize = v.len();
        let first = v[0].start(m);
        let last = v[n - 1].end(m);
        let before = m.hair_before(first.z);
        let beyond = m.hair_beyond(last.z);
        assert(are_ends(m, v@, first, last));
        if !(before.le(zr) && zr.le(beyond)) {
            assert(is_curve_radius(m, v@, zr, rt, first, last, before, beyond, 0, None));
            return None;
        }
        let zc = zr.hold(first.z, last.z);
        let i: usize = first_reached(m, &v, zc);
        let ghost at = i as int;
        if i < n {
            let x = v[i].radius_at(m, zc);
            let r = match x {
                None => None,
                Some(y) => Some(m.times(y, rt)),
            };
            assert(v@[at].has_radius(m, zc, x));
            assert(is_piece_radius(m, v@, at, zc, rt, last, r));
            assert(is_curve_radius(m, v@, zr, rt, first, last, before, beyond, at, r));
            return r;
        }
        let r = Some(m.times(last.r, rt));
        assert(is_piece_radius(m, v@, at, zc, rt, last, r));
        assert(is_curve_radius(m, v@, zr, rt, first, last, before, beyond, at, r));
        r
    }

    /// `d` is the direction of the wall at the station `z` in metres.
    pub open spec fn has_direction_at<M: CurveMath>(
        self,
        m: &M,
        z: Scalar,
        d: Option<Point>,
    ) -> bool {
        ||| {
            &&& d is None
            &&& exists|e: CfdError| #[trigger] self.laid_out(m, Err(e))
        }
        ||| exists|
            v: Vec<Piece>,
            zr: Scalar,
            first: Point,
            last: Point,
            before: Scalar,
            beyond: Scalar,
            i: int,
        |
            {
                &&& #[trigger] self.laid_out(m, Ok(v))
                &&& call_ensures(M::over, (m, z, self.spec.throat_radius_m), zr)
                &&& #[trigger] is_curve_direction(
                    m,
                    v@,
                    zr,
                    first,
                    last,
                    before,
                    beyond,
                    i,
                    d,
                )
            }
    }

    /// The unit direction of the wall at the station `z` in metres; none outside
    /// of the curve.
    pub fn tangent_at<M: CurveMath>(&self, m: &M, z: Scalar) -> (d: Option<Point>)
        ensures
            self.has_direction_at(m, z, d),
    {
        let zr = m.over(z, self.spec.throat_radius_m);
        let v = match self.pieces(m) {
            Err(e) => {
                assert(self.laid_out(m, Err(e)));
                return None;
            },
            Ok(v) => v,
        };
        let n: usize = v.len();
        let first = v[0].start(m);
        let last = v[n - 1].end(m);
        let before = m.hair_before(first.z);
        let beyond = m.hair_beyond(last.z);
        assert(are_ends(m, v@, first, last));
        if !(before.le(zr) && zr.le(beyond)) {
            assert(is_curve_direction(m, v@, zr, first, last, before, beyond, 0, None));
            return None;
        }
        let zc = zr.hold(first.z, last.z);
        let i: usize = first_reached(m, &v, zc);
        let d = if i < n {
            v[i].tangent_at(m, zc)
        } else {
            v[n - 1].tangent_at(m, last.z)
        };
        let r = Some(d);
        assert(is_curve_direction(m, v@, zr, first, last, before, beyond, i as int, r));
        r
    }
}

/// How dense a polyline is.
#[derive(Debug, Clone, Copy, PartialEq)]
pub struct Tessellation {
    pub chord_tol_m: Scalar,
    pub max_turn_deg: Scalar,
    pub max_points: usize,
}

impl Tessellation {
    /// A polyline that suits cells of a size.
    pub fn from_cell_size<M: PolylineMath>(m: &M, dz_m: Scalar, dr_m: Scalar) -> (t: Tessellation)
        ensures
            ({
                let cell = Scalar { bits: dz_m.smaller(dr_m).magnitude() as u64 };
                call_ensures(
                    M::cell_tolerance,
                    (m, cell.larger(Scalar { bits: SMALLEST_NORMAL })),
                    t.chord_tol_m,
                )
            }),
            t.max_turn_deg.bits == MAX_TURN_DEG,
            t.max_points == MAX_POINTS,
    {
        let cell = dz_m.min(dr_m).abs();
        Tessellation {
            chord_tol_m: m.cell_tolerance(cell.max(Scalar { bits: SMALLEST_NORMAL })),
            max_turn_deg: Scalar { bits: MAX_TURN_DEG },
            max_points: MAX_POINTS,
        }
    }
}

/// The sum of the first `n` counts.
pub open spec fn total(c: Seq<usize>, n: int) -> int
    decreases n,
{
    if n <= 0 {
        0
    } else {
        total(c, n - 1) + c[n - 1]
    }
}

fn sum_up(c: &Vec<usize>) -> (s: u128)
    requires
        c.len() <= 16,
    ensures
        s == total(c@, c.len() as int),
{
    let mut s: u128 = 0;
    let mut i: usize = 0;
    while i < c.len()
        invariant
            c.len() <= 16,
            i <= c.len(),
            s == total(c@, i as int),
            s <= i * 0xffff_ffff_ffff_ffff,
        decreases c.len() - i,
    {
        s = s + c[i] as u128;
        i = i + 1;
    }
    s
}

/// The last of the largest among the first `n` counts that exceed their floors.
pub open spec fn largest(c: Seq<usize>, floors: Seq<usize>, n: int) -> Option<int>
    decreases n,
{
    if n <= 0 {
        None
    } else {
        let best = largest(c, floors, n - 1);
        if c[n - 1] > floors[n - 1] && (best is None || c[n - 1] >= c[best->0]) {
            Some(n - 1)
        } else {
            best
        }
    }
}

proof fn lemma_largest(c: Seq<usize>, floors: Seq<usize>, n: int)
    requires
        0 <= n <= c.len(),
        c.len() == floors.len(),
    ensures
        largest(c, floors, n) matches Some(i) ==> 0 <= i < n && c[i] > floors[i],
        largest(c, floors, n) is None ==> forall|i: int| 0 <= i < n ==> #[trigger] c[i] <= floors[i],
    decreases n,
{
    if n > 0 {
        lemma_largest(c, floors, n - 1);
    }
}

fn find_largest(c: &Vec<usize>, floors: &Vec<usize>) -> (r: Option<usize>)
    requires
        c.len() == floors.len(),
    ensures
        r is Some <==> largest(c@, floors@, c.len() as int) is Some,
        r matches Some(i) ==> largest(c@, floors@, c.len() as int) == Some(i as int) && i < c.len()
            && c[i as int] > floors[i as int],
{
    let mut best: Option<usize> = None;
    let mut i: usize = 0;
    while i < c.len()
        invariant
            c.len() == floors.len(),
            i <= c.len(),
            best is Some <==> largest(c@, floors@, i as int) is Some,
            best matches Some(b) ==> largest(c@, floors@, i as int) == Some(b as int) && b < i
                && c[b as int] > floors[b as int],
        decreases c.len() - i,
    {
        let larger = match best {
            None => true,
            Some(b) => c[i] >= c[b],
        };
        if c[i] > floors[i] && larger {
            best = Some(i);
        }
        i = i + 1;
    }
    best
}

proof fn lemma_total_update(c: Seq<usize>, i: int, n: int)
    requires
        0 <= i < c.len(),
        0 <= n <= c.len(),
        c[i] > 0,
    ensures
        total(c.update(i, (c[i] - 1) as usize), n) == total(c, n) - if i < n {
            1int
        } else {
            0
        },
    decreases n,
{
    if n > 0 {
        lemma_total_update(c, i, n - 1);
    }
}

proof fn lemma_total_monotone(a: Seq<usize>, b: Seq<usize>, n: int)
    requires
        0 <= n <= a.len(),
        a.len() == b.len(),
        forall|i: int| 0 <= i < n ==> #[trigger] a[i] <= b[i],
    ensures
        total(a, n) <= total(b, n),
        0 <= total(b, n),
    decreases n,
{
    if n > 0 {
        lemma_total_monotone(a, b, n - 1);
        assert(a[n - 1] <= b[n - 1]);
    }
}

/// The counts shaved one by one at the last of the largest, until they fit the
/// cap or stand at their floors; `fuel` bounds the number of cuts.
pub open spec fn shaved(c: Seq<usize>, floors: Seq<usize>, cap: int, fuel: nat) -> Seq<usize>
    decreases fuel,
{
    if fuel == 0 || total(c, c.len() as int) <= cap {
        c
    } else {
        match largest(c, floors, c.len() as int) {
            None => c,
            Some(i) => shaved(c.update(i, (c[i] - 1) as usize), floors, cap, (fuel - 1) as nat),
        }
    }
}

/// What exceeds the cap.
pub open spec fn excess(c: Seq<usize>, cap: int) -> nat {
    if total(c, c.len() as int) > cap {
        (total(c, c.len() as int) - cap) as nat
    } else {
        0
    }
}

/// Shaving leaves every count at or above its floor, and the counts fit the cap
/// as long as the floors do.
pub proof fn law_shaving_fits(c: Seq<usize>, floors: Seq<usize>, cap: int, fuel: nat)
    requires
        c.len() == floors.len(),
        forall|i: int| 0 <= i < c.len() ==> #[trigger] c[i] >= floors[i],
        total(floors, floors.len() as int) <= cap,
        fuel >= excess(c, cap),
    ensures
        shaved(c, floors, cap, fuel).len() == c.len(),
        forall|i: int|
            0 <= i < c.len() ==> #[trigger] shaved(c, floors, cap, fuel)[i] >= floors[i],
        total(shaved(c, floors, cap, fuel), c.len() as int) <= cap,
    decreases fuel,
{
    if total(c, c.len() as int) > cap {
        lemma_largest(c, floors, c.len() as int);
        match largest(c, floors, c.len() as int) {
            None => {
                lemma_total_monotone(c, floors, c.len() as int);
            },
            Some(i) => {
                let next = c.update(i, (c[i] - 1) as usize);
                lemma_total_update(c, i, c.len() as int);
                assert forall|j: int| 0 <= j < next.len() implies #[trigger] next[j]
                    >= floors[j] by {
                    assert(c[j] >= floors[j]);
                }
                law_shaving_fits(next, floors, cap, (fuel - 1) as nat);
                assert forall|j: int| 0 <= j < c.len() implies #[trigger] shaved(
                    c,
                    floors,
                    cap,
                    fuel,
                )[j] >= floors[j] by {
                    assert(shaved(next, floors, cap, (fuel - 1) as nat)[j] >= floors[j]);
                }
            },
        }
    }
}

fn shave(counts: Vec<usize>, floors: &Vec<usize>, cap: u128) -> (r: Vec<usize>)
    requires
        counts.len() == floors.len(),
        counts.len() <= 16,
    ensures
        r@ == shaved(counts@, floors@, cap as int, excess(counts@, cap as int)),
        r.len() == counts.len(),
{
    let mut c = counts;
    let mut sum: u128 = sum_up(&c);
    while sum > cap
        invariant
            c.len() == floors.len(),
            c.len() == counts.len(),
            c.len() <= 16,
            sum == total(c@, c.len() as int),
            shaved(c@, floors@, cap as int, excess(c@, cap as int)) == shaved(
                counts@,
                floors@,
                cap as int,
                excess(counts@, cap as int),
            ),
        decreases sum,
    {
        match find_largest(&c, floors) {
            None => {
                return c;
            },
            Some(i) => {
                let ghost was = c@;
                proof {
                    lemma_total_update(c@, i as int, c.len() as int);
                }
                let x: usize = c[i] - 1;
                c.set(i, x);
                sum = sum - 1;
                assert(c@ == was.update(i as int, (was[i as int] - 1) as usize));
            },
        }
    }
    c
}

/// The cap on the segments: one less than the points, but no less than the
/// floors need.
pub open spec fn segment_cap(max_points: usize, floors: Seq<usize>) -> int {
    let least = total(floors, floors.len() as int);
    if max_points >= 1 && max_points - 1 > least {
        max_points - 1
    } else {
        least
    }
}

/// Every count was reduced in proportion, down to its floor at most.
pub open spec fn are_shrunk<M: PolylineMath>(
    m: &M,
    counts: Seq<usize>,
    floors: Seq<usize>,
    cap: int,
    less: Seq<usize>,
) -> bool {
    &&& less.len() == counts.len()
    &&& forall|i: int|
        0 <= i < counts.len() ==> is_shrunk(
            m,
            counts[i],
            cap,
            total(counts, counts.len() as int),
            floors[i],
            #[trigger] less[i],
        )
}

/// A count was reduced in proportion, down to its floor at most.
pub open spec fn is_shrunk<M: PolylineMath>(
    m: &M,
    count: usize,
    cap: int,
    sum: int,
    floor: usize,
    less: usize,
) -> bool {
    exists|x: usize| #[trigger]
        call_ensures(M::shrunk, (m, count, cap as u128, sum as u128), x) && less == (if x > floor {
            x
        } else {
            floor
        })
}

/// `fitted` are the counts, reduced where they exceed the cap: first in
/// proportion, then one by one.
pub open spec fn are_fitted<M: PolylineMath>(
    m: &M,
    counts: Seq<usize>,
    floors: Seq<usize>,
    max_points: usize,
    fitted: Seq<usize>,
) -> bool {
    let cap = segment_cap(max_points, floors);
    if total(counts, counts.len() as int) <= cap {
        fitted == counts
    } else {
        exists|less: Seq<usize>| #[trigger]
            are_shrunk(m, counts, floors, cap, less) && fitted == shaved(
                less,
                floors,
                cap,
                excess(less, cap),
            )
    }
}

/// Fits counts under a cap on the points.
pub fn fit_counts<M: PolylineMath>(
    m: &M,
    counts: Vec<usize>,
    floors: &Vec<usize>,
    max_points: usize,
) -> (fitted: Vec<usize>)
    requires
        counts.len() == floors.len(),
        counts.len() <= 16,
    ensures
        are_fitted(m, counts@, floors@, max_points, fitted@),
        fitted.len() == counts.len(),
{
    let least: u128 = sum_up(floors);
    let cap: u128 = if max_points >= 1 && (max_points - 1) as u128 > least {
        (max_points - 1) as u128
    } else {
        least
    };
    let sum: u128 = sum_up(&counts);
    if sum <= cap {
        return counts;
    }
    let mut less: Vec<usize> = Vec::new();
    let mut i: usize = 0;
    while i < counts.len()
        invariant
            counts.len() == floors.len(),
            cap == segment_cap(max_points, floors@),
            sum == total(counts@, counts.len() as int),
            i <= counts.len(),
            less.len() == i,
            forall|j: int|
                0 <= j < i ==> is_shrunk(
                    m,
                    counts@[j],
                    cap as int,
                    sum as int,
                    floors@[j],
                    #[trigger] less@[j],
                ),
        decreases counts.len() - i,
    {
        let x: usize = m.shrunk(counts[i], cap, sum);
        let y: usize = if x > floors[i] {
            x
        } else {
            floors[i]
        };
        assert(is_shrunk(m, counts@[i as int], cap as int, sum as int, floors@[i as int], y));
        less.push(y);
        i = i + 1;
    }
    assert(are_shrunk(m, counts@, floors@, cap as int, less@));
    shave(less, floors, cap)
}

/// The fitted counts stay at or above their floors and under the cap, as long as
/// they started at or above the floors.
pub proof fn law_fitted_counts_keep_the_cap<M: PolylineMath>(
    m: &M,
    counts: Seq<usize>,
    floors: Seq<usize>,
    max_points: usize,
    fitted: Seq<usize>,
)
    requires
        counts.len() == floors.len(),
        forall|i: int| 0 <= i < counts.len() ==> #[trigger] counts[i] >= floors[i],
        are_fitted(m, counts, floors, max_points, fitted),
    ensures
        fitted.len() == counts.len(),
        forall|i: int| 0 <= i < counts.len() ==> #[trigger] fitted[i] >= floors[i],
        total(fitted, fitted.len() as int) <= segment_cap(max_points, floors),
{
    let cap = segment_cap(max_points, floors);
    if total(counts, counts.len() as int) > cap {
        let less = choose|less: Seq<usize>| #[trigger]
            are_shrunk(m, counts, floors, cap, less) && fitted == shaved(
                less,
                floors,
                cap,
                excess(less, cap),
            );
        assert forall|i: int| 0 <= i < less.len() implies #[trigger] less[i] >= floors[i] by {
            assert(is_shrunk(
                m,
                counts[i],
                cap,
                total(counts, counts.len() as int),
                floors[i],
                less[i],
            ));
        }
        law_shaving_fits(less, floors, cap, excess(less, cap));
        assert(fitted.len() == counts.len());
        assert forall|i: int| 0 <= i < counts.len() implies #[trigger] fitted[i] >= floors[i] by {
            assert(shaved(less, floors, cap, excess(less, cap))[i] >= floors[i]);
        }
    }
}

/// The point `p` is added where it lies beyond the last one.
pub open spec fn push_step<M: PolylineMath>(
    m: &M,
    pts: Seq<Point>,
    p: Point,
    after: Seq<Point>,
) -> bool {
    if pts.len() == 0 {
        after == pts.push(p)
    } else {
        exists|d: Scalar| #[trigger]
            call_ensures(M::advance, (m, pts.last().z, p.z), d) && after == if (Scalar {
                bits: HAIR,
            }).below(d) {
                pts.push(p)
            } else {
                pts
            }
    }
}

/// `pts` are the first `n` candidates without those that do not advance.
pub open spec fn thinned<M: PolylineMath>(m: &M, cands: Seq<Point>, n: int, pts: Seq<Point>) -> bool
    decreases n,
{
    if n <= 0 {
        pts.len() == 0
    } else {
        exists|rest: Seq<Point>| #[trigger]
            push_step(m, rest, cands[n - 1], pts) && thinned(m, cands, n - 1, rest)
    }
}

/// `out` are the points in metres.
pub open spec fn are_metres<M: PolylineMath>(
    m: &M,
    pts: Seq<Point>,
    rt: Scalar,
    out: Seq<Point>,
) -> bool {
    &&& out.len() == pts.len()
    &&& forall|i: int|
        0 <= i < out.len() ==> call_ensures(M::in_metres, (m, pts[i], rt), #[trigger] out[i])
}

/// A profile is made of candidates: thinned, in metres, with the throat at the
/// last point that stands after the first `upto` candidates, and checked.
pub open spec fn is_finished<M: PolylineMath>(
    m: &M,
    cands: Seq<Point>,
    upto: int,
    rt: Scalar,
    pts: Seq<Point>,
    out: Seq<Point>,
    throat: int,
    r: Result<WallProfile, CfdError>,
) -> bool {
    &&& thinned(m, cands, cands.len() as int, pts)
    &&& 0 <= throat < pts.len()
    &&& thinned(m, cands, upto, pts.take(throat + 1))
    &&& are_metres(m, pts, rt, out)
    &&& match r {
        Ok(p) => p.valid() && p.points@ == out && p.throat_index == throat,
        Err(e) => exists|f: ProfileFault|
            {
                &&& #[trigger] profile::is_profile_fault(out, throat, f)
                &&& e matches CfdError::Geometry(s) && profile::tells(m, f, s@)
            },
    }
}

fn finish<M: PolylineMath>(m: &M, cands: &Vec<Point>, upto: usize, rt: Scalar) -> (r: Result<
    WallProfile,
    CfdError,
>)
    requires
        1 <= upto <= cands.len(),
    ensures
        exists|pts: Seq<Point>, out: Seq<Point>, throat: int| #[trigger]
            is_finished(m, cands@, upto as int, rt, pts, out, throat, r),
{
    let mut pts: Vec<Point> = Vec::new();
    let mut throat: usize = 0;
    let mut i: usize = 0;
    while i < cands.len()
        invariant
            1 <= upto <= cands.len(),
            i <= cands.len(),
            i >= 1 ==> pts.len() >= 1,
            thinned(m, cands@, i as int, pts@),
            i >= upto ==> throat < pts.len() && thinned(
                m,
                cands@,
                upto as int,
                pts@.take(throat + 1),
            ),
        decreases cands.len() - i,
    {
        let ghost rest = pts@;
        let p = cands[i];
        let k: usize = pts.len();
        if k == 0 {
            pts.push(p);
        } else {
            let d = m.advance(pts[k - 1].z, p.z);
            if (Scalar { bits: HAIR }).lt(d) {
                pts.push(p);
            }
            assert(call_ensures(M::advance, (m, rest.last().z, p.z), d));
        }
        i = i + 1;
        assert(push_step(m, rest, cands@[i - 1], pts@));
        if i == upto {
            throat = pts.len() - 1;
            assert(pts@.take(throat + 1) =~= pts@);
        } else {
            proof {
                if i > upto {
                    assert(pts@.take(throat + 1) =~= rest.take(throat + 1));
                }
            }
        }
    }
    let ghost thin = pts@;
    let mut out: Vec<Point> = Vec::new();
    i = 0;
    while i < pts.len()
        invariant
            pts@ == thin,
            i <= pts.len(),
            out.len() == i,
            forall|j: int|
                0 <= j < i ==> call_ensures(M::in_metres, (m, thin[j], rt), #[trigger] out@[j]),
        decreases pts.len() - i,
    {
        out.push(m.in_metres(pts[i], rt));
        i = i + 1;
    }
    let ghost metres = out@;
    assert(are_metres(m, thin, rt, metres));
    let p = WallProfile { points: out, throat_index: throat };
    let r = match p.validate(m) {
        Ok(_) => Ok(p),
        Err(e) => Err(e),
    };
    assert(is_finished(m, cands@, upto as int, rt, thin, metres, throat as int, r));
    r
}

/// `s` are the samples of a piece in `n` steps, without its start.
pub open spec fn are_samples<M: PolylineMath>(
    m: &M,
    piece: Piece,
    n: int,
    s: Seq<Point>,
) -> bool {
    &&& s.len() == n
    &&& forall|k: int| 0 <= k < n ==> is_sample(m, piece, k + 1, n, #[trigger] s[k])
}

/// `p` is the point of a piece after `k` of `n` steps.
pub open spec fn is_sample<M: PolylineMath>(m: &M, piece: Piece, k: int, n: int, p: Point) -> bool {
    exists|t: Scalar| #[trigger]
        call_ensures(M::step_share, (m, k as usize, n as usize), t) && piece.has_point(m, t, p)
}

/// The samples of all pieces one after the other.
pub open spec fn joined(parts: Seq<Seq<Point>>, n: int) -> Seq<Point>
    decreases n,
{
    if n <= 0 {
        Seq::empty()
    } else {
        joined(parts, n - 1) + parts[n - 1]
    }
}

/// The candidates of a polyline: the start and the samples of every piece.
pub open spec fn are_candidates<M: PolylineMath>(
    m: &M,
    v: Seq<Piece>,
    counts: Seq<usize>,
    start: Point,
    parts: Seq<Seq<Point>>,
    cands: Seq<Point>,
) -> bool {
    &&& v[0].has_point(m, Scalar { bits: ZERO }, start)
    &&& parts.len() == v.len()
    &&& forall|i: int|
        0 <= i < v.len() ==> are_samples(m, v[i], counts[i] as int, #[trigger] parts[i])
    &&& cands == seq![start] + joined(parts, parts.len() as int)
}

proof fn lemma_joined_prefix(a: Seq<Seq<Point>>, b: Seq<Seq<Point>>, n: int)
    requires
        0 <= n <= a.len(),
        a.len() <= b.len(),
        forall|i: int| 0 <= i < n ==> a[i] == #[trigger] b[i],
    ensures
        joined(a, n) == joined(b, n),
    decreases n,
{
    if n > 0 {
        lemma_joined_prefix(a, b, n - 1);
        assert(a[n - 1] == b[n - 1]);
    }
}

/// The samples of `v`, and how many candidates stand up to the throat.
fn candidates<M: PolylineMath>(m: &M, v: &Vec<Piece>, counts: &Vec<usize>) -> (r: (
    Vec<Point>,
    usize,
))
    requires
        v.len() == 5,
        counts.len() == 5,
    ensures
        exists|start: Point, parts: Seq<Seq<Point>>|
            {
                &&& #[trigger] are_candidates(m, v@, counts@, start, parts, r.0@)
                &&& r.1 == 1 + joined(parts, CONVERGING_PIECES as int).len()
            },
        1 <= r.1 <= r.0.len(),
{
    let start = v[0].start(m);
    let mut cands: Vec<Point> = Vec::new();
    cands.push(start);
    let mut upto: usize = 1;
    let ghost mut parts: Seq<Seq<Point>> = Seq::empty();
    let mut i: usize = 0;
    while i < 5
        invariant
            v.len() == 5,
            counts.len() == 5,
            i <= 5,
            parts.len() == i,
            forall|j: int|
                0 <= j < i ==> are_samples(m, v@[j], counts@[j] as int, #[trigger] parts[j]),
            cands@ == seq![start] + joined(parts, i as int),
            1 <= upto <= cands.len(),
            i >= CONVERGING_PIECES ==> upto == 1 + joined(parts, CONVERGING_PIECES as int).len(),
        decreases 5 - i,
    {
        let n: usize = counts[i];
        let ghost base = cands@;
        let ghost mut part: Seq<Point> = Seq::empty();
        let mut k: usize = 0;
        while k < n
            invariant
                v.len() == 5,
                i < 5,
                k <= n,
                part.len() == k,
                cands@ == base + part,
                forall|j: int|
                    0 <= j < k ==> is_sample(
                        m,
                        v@[i as int],
                        j + 1,
                        n as int,
                        #[trigger] part[j],
                    ),
            decreases n - k,
        {
            k = k + 1;
            let t = m.step_share(k, n);
            let p = v[i].point_at(m, t);
            assert(is_sample(m, v@[i as int], k as int, n as int, p));
            cands.push(p);
            proof {
                part = part.push(p);
                assert(cands@ =~= base + part);
            }
        }
        let ghost shorter = parts;
        proof {
            parts = parts.push(part);
            lemma_joined_prefix(shorter, parts, i as int);
            if i >= CONVERGING_PIECES {
                lemma_joined_prefix(shorter, parts, CONVERGING_PIECES as int);
            }
            assert(cands@ =~= seq![start] + joined(parts, i + 1));
        }
        i = i + 1;
        if i == CONVERGING_PIECES {
            upto = cands.len();
        }
    }
    let r = (cands, upto);
    assert(are_candidates(m, v@, counts@, start, parts, r.0@));
    r
}

/// The counts that the pieces ask for, and their floors.
pub open spec fn are_counts<M: PolylineMath>(
    m: &M,
    v: Seq<Piece>,
    tol: Scalar,
    max_turn_deg: Scalar,
    counts: Seq<usize>,
    floors: Seq<usize>,
) -> bool {
    &&& counts.len() == v.len()
    &&& floors.len() == v.len()
    &&& forall|i: int|
        0 <= i < v.len() ==> v[i].has_segments(m, tol, max_turn_deg, #[trigger] counts[i])
            && counts[i] >= v[i].fewest()
    &&& forall|i: int| 0 <= i < v.len() ==> #[trigger] floors[i] == v[i].fewest()
}

/// The way from a curve to a profile.
pub open spec fn is_tessellated<M: PolylineMath>(
    m: &M,
    c: NozzleCurve,
    t: Tessellation,
    v: Vec<Piece>,
    raw: Scalar,
    counts: Seq<usize>,
    floors: Seq<usize>,
    fitted: Seq<usize>,
    start: Point,
    parts: Seq<Seq<Point>>,
    cands: Seq<Point>,
    pts: Seq<Point>,
    out: Seq<Point>,
    throat: int,
    r: Result<WallProfile, CfdError>,
) -> bool {
    let rt = c.spec.throat_radius_m;
    &&& c.laid_out(m, Ok(v))
    &&& call_ensures(M::over, (m, t.chord_tol_m, rt), raw)
    &&& are_counts(
        m,
        v@,
        raw.larger(Scalar { bits: SMALLEST_NORMAL }),
        t.max_turn_deg,
        counts,
        floors,
    )
    &&& are_fitted(m, counts, floors, t.max_points, fitted)
    &&& are_candidates(m, v@, fitted, start, parts, cands)
    &&& is_finished(
        m,
        cands,
        (1 + joined(parts, CONVERGING_PIECES as int).len()) as int,
        rt,
        pts,
        out,
        throat,
        r,
    )
}

/// The outcome of making a polyline of a curve.
pub open spec fn tessellates<M: PolylineMath>(
    m: &M,
    c: NozzleCurve,
    t: Tessellation,
    r: Result<WallProfile, CfdError>,
) -> bool {
    ||| r matches Err(e) && c.laid_out(m, Err(e))
    ||| exists|
        v: Vec<Piece>,
        raw: Scalar,
        counts: Seq<usize>,
        floors: Seq<usize>,
        fitted: Seq<usize>,
        start: Point,
        parts: Seq<Seq<Point>>,
        cands: Seq<Point>,
        pts: Seq<Point>,
        out: Seq<Point>,
        throat: int,
    | #[trigger]
        is_tessellated(
            m,
            c,
            t,
            v,
            raw,
            counts,
            floors,
            fitted,
            start,
            parts,
            cands,
            pts,
            out,
            throat,
            r,
        )
}

fn piece_counts<M: PolylineMath>(m: &M, v: &Vec<Piece>, tol: Scalar, max_turn_deg: Scalar) -> (r: (
    Vec<usize>,
    Vec<usize>,
))
    ensures
        are_counts(m, v@, tol, max_turn_deg, r.0@, r.1@),
        r.0.len() == v.len(),
        r.1.len() == v.len(),
{
    let mut counts: Vec<usize> = Vec::new();
    let mut floors: Vec<usize> = Vec::new();
    let mut i: usize = 0;
    while i < v.len()
        invariant
            i <= v.len(),
            counts.len() == i,
            floors.len() == i,
            forall|j: int|
                0 <= j < i ==> v@[j].has_segments(m, tol, max_turn_deg, #[trigger] counts@[j])
                    && counts@[j] >= v@[j].fewest(),
            forall|j: int| 0 <= j < i ==> #[trigger] floors@[j] == v@[j].fewest(),
        decreases v.len() - i,
    {
        counts.push(v[i].segments(m, tol, max_turn_deg));
        floors.push(v[i].min_segments());
        i = i + 1;
    }
    (counts, floors)
}

impl NozzleCurve {
    /// The polyline of the wall with as many points as a tolerance asks for.
    pub fn tessellate<M: PolylineMath>(&self, m: &M, t: &Tessellation) -> (r: Result<
        WallProfile,
        CfdError,
    >)
        ensures
            tessellates(m, *self, *t, r),
            r matches Ok(p) ==> p.valid(),
    {
        let rt = self.spec.throat_radius_m;
        let v = match self.pieces(m) {
            Err(e) => {
                return Err(e);
            },
            Ok(v) => v,
        };
        let raw = m.over(t.chord_tol_m, rt);
        let (counts, floors) = piece_counts(
            m,
            &v,
            raw.max(Scalar { bits: SMALLEST_NORMAL }),
            t.max_turn_deg,
        );
        let ghost counts0 = counts@;
        let fitted = fit_counts(m, counts, &floors, t.max_points);
        let (cands, upto) = candidates(m, &v, &fitted);
        let ghost w = choose|start: Point, parts: Seq<Seq<Point>>|
            {
                &&& #[trigger] are_candidates(m, v@, fitted@, start, parts, cands@)
                &&& upto == 1 + joined(parts, CONVERGING_PIECES as int).len()
            };
        let r = finish(m, &cands, upto, rt);
        proof {
            let (pts, out, throat) = choose|pts: Seq<Point>, out: Seq<Point>, throat: int|
                #[trigger]
                is_finished(m, cands@, upto as int, rt, pts, out, throat, r);
            assert(is_tessellated(
                m,
                *self,
                *t,
                v,
                raw,
                counts0,
                floors@,
                fitted@,
                w.0,
                w.1,
                cands@,
                pts,
                out,
                throat,
                r,
            ));
        }
        r
    }
}

/// A polyline has no more points than the cap, or than its floors need.
pub proof fn law_points_keep_the_cap<M: PolylineMath>(
    m: &M,
    c: NozzleCurve,
    t: Tessellation,
    v: Vec<Piece>,
    raw: Scalar,
    counts: Seq<usize>,
    floors: Seq<usize>,
    fitted: Seq<usize>,
    start: Point,
    parts: Seq<Seq<Point>>,
    cands: Seq<Point>,
    pts: Seq<Point>,
    out: Seq<Point>,
    throat: int,
    p: WallProfile,
)
    requires
        v.len() == 5,
        is_tessellated(
            m,
            c,
            t,
            v,
            raw,
            counts,
            floors,
            fitted,
            start,
            parts,
            cands,
            pts,
            out,
            throat,
            Ok(p),
        ),
    ensures
        p.points.len() <= 1 + segment_cap(t.max_points, floors),
{
    assert forall|i: int| 0 <= i < counts.len() implies #[trigger] counts[i] >= floors[i] by {
        assert(floors[i] == v@[i].fewest());
    }
    law_fitted_counts_keep_the_cap(m, counts, floors, t.max_points, fitted);
    lemma_joined_len(m, v@, fitted, parts, 5);
    lemma_thinned_len(m, cands, cands.len() as int, pts);
}

proof fn lemma_joined_len<M: PolylineMath>(
    m: &M,
    v: Seq<Piece>,
    counts: Seq<usize>,
    parts: Seq<Seq<Point>>,
    n: int,
)
    requires
        0 <= n <= parts.len(),
        parts.len() == v.len(),
        counts.len() == v.len(),
        forall|i: int|
            0 <= i < v.len() ==> are_samples(m, v[i], counts[i] as int, #[trigger] parts[i]),
    ensures
        joined(parts, n).len() == total(counts, n),
    decreases n,
{
    if n > 0 {
        lemma_joined_len(m, v, counts, parts, n - 1);
        assert(are_samples(m, v[n - 1], counts[n - 1] as int, parts[n - 1]));
    }
}

proof fn lemma_thinned_len<M: PolylineMath>(m: &M, cands: Seq<Point>, n: int, pts: Seq<Point>)
    requires
        0 <= n <= cands.len(),
        thinned(m, cands, n, pts),
    ensures
        pts.len() <= n,
    decreases n,
{
    if n > 0 {
        let rest = choose|rest: Seq<Point>| #[trigger]
            push_step(m, rest, cands[n - 1], pts) && thinned(m, cands, n - 1, rest);
        lemma_thinned_len(m, cands, n - 1, rest);
    }
}

/// The number of samples that a budget asks for.
pub open spec fn budget(samples: usize) -> usize {
    if samples > 64 {
        samples
    } else {
        64
    }
}

/// The samples on either arc under a budget.
pub open spec fn arc_count(samples: usize) -> usize {
    budget(samples) / 8
}

/// The samples on the parabola under a budget: what the arcs and the four corners
/// leave, and no fewer than sixteen.
pub open spec fn parabola_count(samples: usize) -> int {
    let left = budget(samples) - (2 * arc_count(samples) + 4);
    if left > 16 {
        left
    } else {
        16
    }
}

/// `s` are the samples of the upstream arc.
pub open spec fn are_upstream<M: PolylineMath>(
    m: &M,
    spec: NozzleSpec,
    z_t: Scalar,
    n: usize,
    s: Seq<Point>,
) -> bool {
    &&& s.len() == n
    &&& forall|k: int|
        0 <= k < n ==> call_ensures(
            M::upstream_sample,
            (m, spec, z_t, (k + 1) as usize, n),
            #[trigger] s[k],
        )
}

fn upstream<M: PolylineMath>(m: &M, spec: NozzleSpec, z_t: Scalar, n: usize) -> (s: Vec<Point>)
    ensures
        are_upstream(m, spec, z_t, n, s@),
{
    let mut s: Vec<Point> = Vec::new();
    let mut k: usize = 0;
    while k < n
        invariant
            k <= n,
            s.len() == k,
            forall|j: int|
                0 <= j < k ==> call_ensures(
                    M::upstream_sample,
                    (m, spec, z_t, (j + 1) as usize, n),
                    #[trigger] s@[j],
                ),
        decreases n - k,
    {
        k = k + 1;
        s.push(m.upstream_sample(spec, z_t, k, n));
    }
    s
}

/// `s` are the samples of the downstream arc up to a wall angle.
pub open spec fn are_downstream<M: PolylineMath>(
    m: &M,
    arc: Scalar,
    angle_deg: Scalar,
    z_t: Scalar,
    n: usize,
    s: Seq<Point>,
) -> bool {
    &&& s.len() == n
    &&& forall|k: int|
        0 <= k < n ==> call_ensures(
            M::downstream_sample,
            (m, arc, angle_deg, z_t, (k + 1) as usize, n),
            #[trigger] s[k],
        )
}

fn downstream<M: PolylineMath>(
    m: &M,
    arc: Scalar,
    angle_deg: Scalar,
    z_t: Scalar,
    n: usize,
) -> (s: Vec<Point>)
    ensures
        are_downstream(m, arc, angle_deg, z_t, n, s@),
{
    let mut s: Vec<Point> = Vec::new();
    let mut k: usize = 0;
    while k < n
        invariant
            k <= n,
            s.len() == k,
            forall|j: int|
                0 <= j < k ==> call_ensures(
                    M::downstream_sample,
                    (m, arc, angle_deg, z_t, (j + 1) as usize, n),
                    #[trigger] s@[j],
                ),
        decreases n - k,
    {
        k = k + 1;
        s.push(m.downstream_sample(arc, angle_deg, z_t, k, n));
    }
    s
}

/// `s` are the samples of the parabola of a bell.
pub open spec fn are_bell_samples<M: PolylineMath>(
    m: &M,
    b: BellGeometry,
    z_t: Scalar,
    n: int,
    s: Seq<Point>,
) -> bool {
    &&& s.len() == n
    &&& forall|k: int|
        0 <= k < n ==> call_ensures(
            M::bell_sample,
            (m, b, z_t, (k + 1) as usize, n as usize),
            #[trigger] s[k],
        )
}

fn bell_samples<M: PolylineMath>(m: &M, b: BellGeometry, z_t: Scalar, n: usize) -> (s: Vec<Point>)
    ensures
        are_bell_samples(m, b, z_t, n as int, s@),
{
    let mut s: Vec<Point> = Vec::new();
    let mut k: usize = 0;
    while k < n
        invariant
            k <= n,
            s.len() == k,
            forall|j: int|
                0 <= j < k ==> call_ensures(
                    M::bell_sample,
                    (m, b, z_t, (j + 1) as usize, n),
                    #[trigger] s@[j],
                ),
        decreases n - k,
    {
        k = k + 1;
        s.push(m.bell_sample(b, z_t, k, n));
    }
    s
}

/// The candidates before the downstream arc: the head, the shoulder and the start
/// of the upstream arc, and the samples on it.
pub open spec fn are_fixed_head<M: PolylineMath>(
    m: &M,
    c: NozzleCurve,
    samples: usize,
    z_t: Scalar,
    rc: Scalar,
    up: Point,
    ups: Seq<Point>,
    head: Seq<Point>,
) -> bool {
    &&& call_ensures(M::throat_station, (m, c.spec, c.chamber_len_rt), z_t)
    &&& call_ensures(M::square_root, (m, c.spec.contraction_ratio), rc)
    &&& call_ensures(M::upstream_tangency, (m, c.spec, z_t), up)
    &&& are_upstream(m, c.spec, z_t, arc_count(samples), ups)
    &&& head == seq![
        Point { z: Scalar { bits: ZERO }, r: rc },
        Point { z: c.chamber_len_rt, r: rc },
        up,
    ] + ups
}

/// The candidates behind the throat of a cone: the arc, and the lip.
pub open spec fn is_fixed_cone<M: PolylineMath>(
    m: &M,
    c: NozzleCurve,
    samples: usize,
    half_angle_deg: Scalar,
    z_t: Scalar,
    length: Scalar,
    lip: Point,
    downs: Seq<Point>,
    tail: Seq<Point>,
) -> bool {
    let s = c.spec;
    &&& are_downstream(m, s.throat_arc_down, half_angle_deg, z_t, arc_count(samples), downs)
    &&& call_ensures(M::cone_length, (m, s.area_ratio, s.throat_arc_down, half_angle_deg), length)
    &&& call_ensures(M::farther, (m, z_t, length), lip.z)
    &&& call_ensures(M::square_root, (m, s.area_ratio), lip.r)
    &&& tail == downs.push(lip)
}

/// The candidates behind the throat of a bell: the arc, and the parabola.
pub open spec fn is_fixed_bell<M: PolylineMath>(
    m: &M,
    c: NozzleCurve,
    samples: usize,
    z_t: Scalar,
    b: BellGeometry,
    downs: Seq<Point>,
    bells: Seq<Point>,
    tail: Seq<Point>,
) -> bool {
    let s = c.spec;
    &&& c.has_bell(m, Ok(b))
    &&& are_downstream(m, s.throat_arc_down, b.theta_n_deg, z_t, arc_count(samples), downs)
    &&& are_bell_samples(m, b, z_t, parabola_count(samples), bells)
    &&& tail == downs + bells
}

/// The candidates behind the throat.
pub open spec fn are_fixed_tail<M: PolylineMath>(
    m: &M,
    c: NozzleCurve,
    samples: usize,
    z_t: Scalar,
    tail: Seq<Point>,
) -> bool {
    match c.spec.contour {
        ContourKind::Conical { half_angle_deg } => exists|
            length: Scalar,
            lip: Point,
            downs: Seq<Point>,
        | #[trigger]
            is_fixed_cone(m, c, samples, half_angle_deg, z_t, length, lip, downs, tail),
        _ => exists|b: BellGeometry, downs: Seq<Point>, bells: Seq<Point>| #[trigger]
            is_fixed_bell(m, c, samples, z_t, b, downs, bells, tail),
    }
}

/// The way from a curve and a budget to a profile.
pub open spec fn is_sampled<M: PolylineMath>(
    m: &M,
    c: NozzleCurve,
    samples: usize,
    z_t: Scalar,
    rc: Scalar,
    up: Point,
    ups: Seq<Point>,
    head: Seq<Point>,
    tail: Seq<Point>,
    pts: Seq<Point>,
    out: Seq<Point>,
    throat: int,
    r: Result<WallProfile, CfdError>,
) -> bool {
    &&& c.checked(m, Ok(()))
    &&& are_fixed_head(m, c, samples, z_t, rc, up, ups, head)
    &&& are_fixed_tail(m, c, samples, z_t, tail)
    &&& is_finished(
        m,
        head + tail,
        head.len() as int,
        c.spec.throat_radius_m,
        pts,
        out,
        throat,
        r,
    )
}

/// The outcome of sampling a curve under a budget.
pub open spec fn samples_to<M: PolylineMath>(
    m: &M,
    c: NozzleCurve,
    samples: usize,
    r: Result<WallProfile, CfdError>,
) -> bool {
    ||| r matches Err(e) && c.laid_out(m, Err(e))
    ||| exists|
        z_t: Scalar,
        rc: Scalar,
        up: Point,
        ups: Seq<Point>,
        head: Seq<Point>,
        tail: Seq<Point>,
        pts: Seq<Point>,
        out: Seq<Point>,
        throat: int,
    | #[trigger]
        is_sampled(m, c, samples, z_t, rc, up, ups, head, tail, pts, out, throat, r)
}

fn fixed_head<M: PolylineMath>(
    m: &M,
    c: NozzleCurve,
    samples: usize,
    z_t: Scalar,
    arcs: usize,
) -> (head: Vec<Point>)
    requires
        arcs == arc_count(samples),
        call_ensures(M::throat_station, (m, c.spec, c.chamber_len_rt), z_t),
    ensures
        exists|rc: Scalar, up: Point, ups: Seq<Point>| #[trigger]
            are_fixed_head(m, c, samples, z_t, rc, up, ups, head@),
        head.len() >= 3,
{
    let rc = m.square_root(c.spec.contraction_ratio);
    let up = m.upstream_tangency(c.spec, z_t);
    let mut ups = upstream(m, c.spec, z_t, arcs);
    let ghost samples_up = ups@;
    let mut head: Vec<Point> = Vec::new();
    head.push(Point { z: Scalar { bits: ZERO }, r: rc });
    head.push(Point { z: c.chamber_len_rt, r: rc });
    head.push(up);
    head.append(&mut ups);
    assert(head@ =~= seq![
        Point { z: Scalar { bits: ZERO }, r: rc },
        Point { z: c.chamber_len_rt, r: rc },
        up,
    ] + samples_up);
    assert(are_fixed_head(m, c, samples, z_t, rc, up, samples_up, head@));
    head
}

fn fixed_tail<M: PolylineMath>(
    m: &M,
    c: NozzleCurve,
    samples: usize,
    z_t: Scalar,
    arcs: usize,
    rest: usize,
) -> (r: Result<Vec<Point>, CfdError>)
    requires
        arcs == arc_count(samples),
        rest == parabola_count(samples),
    ensures
        match r {
            Ok(tail) => are_fixed_tail(m, c, samples, z_t, tail@),
            Err(e) => !(c.spec.contour is Conical) && c.has_bell(m, Err(e)),
        },
{
    let s = c.spec;
    match s.contour {
        ContourKind::Conical { half_angle_deg } => {
            let mut tail = downstream(m, s.throat_arc_down, half_angle_deg, z_t, arcs);
            let ghost downs = tail@;
            let length = m.cone_length(s.area_ratio, s.throat_arc_down, half_angle_deg);
            let lip = Point { z: m.farther(z_t, length), r: m.square_root(s.area_ratio) };
            tail.push(lip);
            assert(is_fixed_cone(
                m,
                c,
                samples,
                half_angle_deg,
                z_t,
                length,
                lip,
                downs,
                tail@,
            ));
            Ok(tail)
        },
        _ => {
            let b = match c.bell(m) {
                Err(e) => {
                    return Err(e);
                },
                Ok(b) => b,
            };
            let mut tail = downstream(m, s.throat_arc_down, b.theta_n_deg, z_t, arcs);
            let ghost downs = tail@;
            let mut parabola = bell_samples(m, b, z_t, rest);
            let ghost bells = parabola@;
            tail.append(&mut parabola);
            assert(is_fixed_bell(m, c, samples, z_t, b, downs, bells, tail@));
            Ok(tail)
        },
    }
}

impl NozzleCurve {
    /// The polyline of the wall under a budget of samples.
    pub fn tessellate_fixed<M: PolylineMath>(&self, m: &M, samples: usize) -> (r: Result<
        WallProfile,
        CfdError,
    >)
        ensures
            samples_to(m, *self, samples, r),
            r matches Ok(p) ==> p.valid(),
    {
        match self.validate(m) {
            Err(e) => {
                return Err(e);
            },
            Ok(_) => {},
        }
        let n: usize = if samples > 64 {
            samples
        } else {
            64
        };
        let arcs: usize = n / 8;
        let corners: usize = arcs + arcs + 4;
        let rest: usize = if n > corners && n - corners > 16 {
            n - corners
        } else {
            16
        };
        let z_t = self.throat_z_rt(m);
        let mut cands = fixed_head(m, *self, samples, z_t, arcs);
        let ghost head = cands@;
        let ghost w = choose|rc: Scalar, up: Point, ups: Seq<Point>| #[trigger]
            are_fixed_head(m, *self, samples, z_t, rc, up, ups, head);
        let upto: usize = cands.len();
        let mut tail = match fixed_tail(m, *self, samples, z_t, arcs, rest) {
            Err(e) => {
                return Err(e);
            },
            Ok(tail) => tail,
        };
        let ghost behind = tail@;
        cands.append(&mut tail);
        let r = finish(m, &cands, upto, self.spec.throat_radius_m);
        proof {
            assert(cands@ == head + behind);
            let rt = self.spec.throat_radius_m;
            let (pts, out, throat) = choose|pts: Seq<Point>, out: Seq<Point>, throat: int|
                #[trigger]
                is_finished(m, cands@, upto as int, rt, pts, out, throat, r);
            assert(is_sampled(
                m,
                *self,
                samples,
                z_t,
                w.0,
                w.1,
                w.2,
                head,
                behind,
                pts,
                out,
                throat,
                r,
            ));
        }
        r
    }
}

/// Every budget up to 64 gives the polyline of 64 samples.
pub proof fn law_small_budgets_are_one<M: PolylineMath>(
    m: &M,
    c: NozzleCurve,
    samples: usize,
    r: Result<WallProfile, CfdError>,
)
    requires
        samples <= 64,
    ensures
        samples_to(m, c, samples, r) <==> samples_to(m, c, 64, r),
{
    assert(budget(samples) == budget(64));
    if samples_to(m, c, samples, r) {
        lemma_same_samples(m, c, samples, 64, r);
    }
    if samples_to(m, c, 64, r) {
        lemma_same_samples(m, c, 64, samples, r);
    }
}

proof fn lemma_same_tail<M: PolylineMath>(
    m: &M,
    c: NozzleCurve,
    a: usize,
    b: usize,
    z_t: Scalar,
    tail: Seq<Point>,
)
    requires
        budget(a) == budget(b),
        are_fixed_tail(m, c, a, z_t, tail),
    ensures
        are_fixed_tail(m, c, b, z_t, tail),
{
    match c.spec.contour {
        ContourKind::Conical { half_angle_deg } => {
            let (length, lip, downs) = choose|length: Scalar, lip: Point, downs: Seq<Point>|
                #[trigger]
                is_fixed_cone(m, c, a, half_angle_deg, z_t, length, lip, downs, tail);
            assert(is_fixed_cone(m, c, b, half_angle_deg, z_t, length, lip, downs, tail));
        },
        _ => {
            let (bell, downs, bells) = choose|
                bell: BellGeometry,
                downs: Seq<Point>,
                bells: Seq<Point>,
            | #[trigger]
                is_fixed_bell(m, c, a, z_t, bell, downs, bells, tail);
            assert(is_fixed_bell(m, c, b, z_t, bell, downs, bells, tail));
        },
    }
}

proof fn lemma_same_samples<M: PolylineMath>(
    m: &M,
    c: NozzleCurve,
    a: usize,
    b: usize,
    r: Result<WallProfile, CfdError>,
)
    requires
        budget(a) == budget(b),
        samples_to(m, c, a, r),
    ensures
        samples_to(m, c, b, r),
{
    if !(r matches Err(e) && c.laid_out(m, Err(e))) {
        let (z_t, rc, up, ups, head, tail, pts, out, throat) = choose|
            z_t: Scalar,
            rc: Scalar,
            up: Point,
            ups: Seq<Point>,
            head: Seq<Point>,
            tail: Seq<Point>,
            pts: Seq<Point>,
            out: Seq<Point>,
            throat: int,
        | #[trigger]
            is_sampled(m, c, a, z_t, rc, up, ups, head, tail, pts, out, throat, r);
        lemma_same_tail(m, c, a, b, z_t, tail);
        assert(are_fixed_head(m, c, b, z_t, rc, up, ups, head));
        assert(is_sampled(m, c, b, z_t, rc, up, ups, head, tail, pts, out, throat, r));
    }
}

proof fn lemma_thinned_from<M: PolylineMath>(
    m: &M,
    cands: Seq<Point>,
    n: int,
    pts: Seq<Point>,
    j: int,
)
    requires
        0 <= n <= cands.len(),
        thinned(m, cands, n, pts),
        0 <= j < pts.len(),
    ensures
        exists|i: int| 0 <= i < n && #[trigger] cands[i] == pts[j],
    decreases n,
{
    if n > 0 {
        let rest = choose|rest: Seq<Point>| #[trigger]
            push_step(m, rest, cands[n - 1], pts) && thinned(m, cands, n - 1, rest);
        if j < rest.len() {
            lemma_thinned_from(m, cands, n - 1, rest, j);
            let i = choose|i: int| 0 <= i < n - 1 && #[trigger] cands[i] == rest[j];
            assert(cands[i] == pts[j]);
        } else {
            assert(cands[n - 1] == pts[j]);
        }
    }
}

/// The last candidate lies beyond all before it, by more than a hair.
pub open spec fn last_advances<M: PolylineMath>(m: &M, cands: Seq<Point>) -> bool {
    forall|i: int, d: Scalar|
        0 <= i < cands.len() - 1 && #[trigger] call_ensures(
            M::advance,
            (m, cands[i].z, cands.last().z),
            d,
        ) ==> (Scalar { bits: HAIR }).below(d)
}

proof fn lemma_last_stays<M: PolylineMath>(m: &M, cands: Seq<Point>, pts: Seq<Point>)
    requires
        cands.len() > 0,
        last_advances(m, cands),
        thinned(m, cands, cands.len() as int, pts),
    ensures
        pts.len() > 0,
        pts.last() == cands.last(),
{
    let n = cands.len() as int;
    let rest = choose|rest: Seq<Point>| #[trigger]
        push_step(m, rest, cands[n - 1], pts) && thinned(m, cands, n - 1, rest);
    if rest.len() > 0 {
        lemma_thinned_from(m, cands, n - 1, rest, rest.len() - 1);
        let i = choose|i: int| 0 <= i < n - 1 && #[trigger] cands[i] == rest[rest.len() - 1];
        assert(cands[i] == rest.last());
    }
}

/// Thinning the first candidates reads no others.
proof fn lemma_thinned_prefix<M: PolylineMath>(
    m: &M,
    cands: Seq<Point>,
    k: int,
    n: int,
    pts: Seq<Point>,
)
    requires
        0 <= n <= k <= cands.len(),
    ensures
        thinned(m, cands, n, pts) <==> thinned(m, cands.take(k), n, pts),
    decreases n,
{
    let few = cands.take(k);
    if n > 0 {
        assert(few[n - 1] == cands[n - 1]);
        if thinned(m, cands, n, pts) {
            let rest = choose|rest: Seq<Point>| #[trigger]
                push_step(m, rest, cands[n - 1], pts) && thinned(m, cands, n - 1, rest);
            lemma_thinned_prefix(m, cands, k, n - 1, rest);
            assert(push_step(m, rest, few[n - 1], pts) && thinned(m, few, n - 1, rest));
        }
        if thinned(m, few, n, pts) {
            let rest = choose|rest: Seq<Point>| #[trigger]
                push_step(m, rest, few[n - 1], pts) && thinned(m, few, n - 1, rest);
            lemma_thinned_prefix(m, cands, k, n - 1, rest);
            assert(push_step(m, rest, cands[n - 1], pts) && thinned(m, cands, n - 1, rest));
        }
    }
}

/// `idx` tells which of the first `n` candidates the points are: they keep their order.
spec fn picks(cands: Seq<Point>, n: int, pts: Seq<Point>, idx: Seq<int>) -> bool {
    &&& idx.len() == pts.len()
    &&& forall|j: int| 0 <= j < idx.len() ==> 0 <= #[trigger] idx[j] < n && cands[idx[j]] == pts[j]
    &&& forall|i: int, j: int| 0 <= i < j < idx.len() ==> #[trigger] idx[i] < #[trigger] idx[j]
}

/// What thinning the first `n` candidates keeps, it has kept of the first `k`, or took
/// from behind them.
proof fn lemma_picks<M: PolylineMath>(
    m: &M,
    cands: Seq<Point>,
    k: int,
    n: int,
    pts: Seq<Point>,
) -> (r: (Seq<Point>, Seq<int>))
    requires
        0 <= k <= n <= cands.len(),
        thinned(m, cands, n, pts),
    ensures
        thinned(m, cands, k, r.0),
        r.0.len() <= pts.len(),
        pts.take(r.0.len() as int) == r.0,
        picks(cands, n, pts, r.1),
        forall|j: int| 0 <= j < pts.len() ==> (j < r.0.len() <==> #[trigger] r.1[j] < k),
    decreases n,
{
    if n <= 0 {
        assert(pts.take(0) =~= pts);
        (pts, Seq::empty())
    } else {
        let rest = choose|rest: Seq<Point>| #[trigger]
            push_step(m, rest, cands[n - 1], pts) && thinned(m, cands, n - 1, rest);
        let (h, idx) = lemma_picks(
            m,
            cands,
            if k == n {
                n - 1
            } else {
                k
            },
            n - 1,
            rest,
        );
        let longer = if pts.len() == rest.len() {
            idx
        } else {
            idx.push(n - 1)
        };
        assert(picks(cands, n, pts, longer)) by {
            assert forall|j: int| 0 <= j < longer.len() implies 0 <= #[trigger] longer[j] < n
                && cands[longer[j]] == pts[j] by {
                if j < idx.len() {
                    assert(longer[j] == idx[j]);
                    assert(pts[j] == rest[j]);
                }
            }
            assert forall|i: int, j: int| 0 <= i < j < longer.len() implies #[trigger] longer[i]
                < #[trigger] longer[j] by {
                assert(longer[i] == idx[i]);
                if j < idx.len() {
                    assert(longer[j] == idx[j]);
                }
            }
        }
        if k == n {
            assert(pts.take(pts.len() as int) =~= pts);
            (pts, longer)
        } else {
            assert(pts.take(h.len() as int) =~= rest.take(h.len() as int));
            assert forall|j: int| 0 <= j < pts.len() implies (j < h.len() <==> #[trigger] longer[j]
                < k) by {
                if j < idx.len() {
                    assert(longer[j] == idx[j]);
                }
            }
            (h, longer)
        }
    }
}

/// Whether a station advances on another is a function of the two.
pub open spec fn advance_is_function<M: PolylineMath>(m: &M) -> bool {
    forall|a: Scalar, b: Scalar, x: Scalar, y: Scalar|
        {
            &&& #[trigger] call_ensures(M::advance, (m, a, b), x)
            &&& #[trigger] call_ensures(M::advance, (m, a, b), y)
        } ==> x == y
}

proof fn lemma_one_thinning<M: PolylineMath>(
    m: &M,
    cands: Seq<Point>,
    n: int,
    a: Seq<Point>,
    b: Seq<Point>,
)
    requires
        advance_is_function(m),
        0 <= n <= cands.len(),
        thinned(m, cands, n, a),
        thinned(m, cands, n, b),
    ensures
        a == b,
    decreases n,
{
    if n <= 0 {
        assert(a =~= b);
    } else {
        let ra = choose|rest: Seq<Point>| #[trigger]
            push_step(m, rest, cands[n - 1], a) && thinned(m, cands, n - 1, rest);
        let rb = choose|rest: Seq<Point>| #[trigger]
            push_step(m, rest, cands[n - 1], b) && thinned(m, cands, n - 1, rest);
        lemma_one_thinning(m, cands, n - 1, ra, rb);
    }
}

/// The throat point is the last sample of the upstream arc, where that lies beyond the
/// candidates before it.
proof fn lemma_throat_is_last_of_head<M: PolylineMath>(
    m: &M,
    head: Seq<Point>,
    tail: Seq<Point>,
    pts: Seq<Point>,
    throat: int,
)
    requires
        head.len() > 0,
        0 <= throat < pts.len(),
        thinned(m, head + tail, head.len() as int, pts.take(throat + 1)),
        last_advances(m, head),
    ensures
        pts[throat] == head.last(),
{
    let n = head.len() as int;
    assert((head + tail).take(n) =~= head);
    lemma_thinned_prefix(m, head + tail, n, n, pts.take(throat + 1));
    lemma_last_stays(m, head, pts.take(throat + 1));
    assert(pts[throat] == pts.take(throat + 1).last());
}

/// The throat point has the throat radius, where the formulas give it one: the
/// last sample of the upstream arc has radius one and lies beyond the candidates
/// before it, and one throat radius is the throat radius in metres.
pub proof fn law_throat_has_its_radius<M: PolylineMath>(
    m: &M,
    c: NozzleCurve,
    samples: usize,
    z_t: Scalar,
    rc: Scalar,
    up: Point,
    ups: Seq<Point>,
    head: Seq<Point>,
    tail: Seq<Point>,
    pts: Seq<Point>,
    out: Seq<Point>,
    throat: int,
    p: WallProfile,
)
    requires
        is_sampled(m, c, samples, z_t, rc, up, ups, head, tail, pts, out, throat, Ok(p)),
        forall|q: Point| #[trigger]
            call_ensures(
                M::upstream_sample,
                (m, c.spec, z_t, arc_count(samples), arc_count(samples)),
                q,
            ) ==> q.r.bits == ONE,
        last_advances(m, head),
        forall|q: Point, o: Point| #[trigger]
            call_ensures(M::in_metres, (m, q, c.spec.throat_radius_m), o) && q.r.bits == ONE
                ==> o.r == c.spec.throat_radius_m,
    ensures
        p.points[p.throat_index as int].r == c.spec.throat_radius_m,
{
    assert(arc_count(samples) >= 8);
    assert(ups.last() == ups[arc_count(samples) - 1]);
    assert(head.last() == ups.last());
    lemma_throat_is_last_of_head(m, head, tail, pts, throat);
    assert(call_ensures(M::in_metres, (m, pts[throat], c.spec.throat_radius_m), out[throat]));
}

/// The formulas let the radius fall on the way to the throat: the upstream arc starts no
/// higher than the chamber, its first sample is no higher than its start, and no sample
/// is higher than the one before it.
pub open spec fn samples_fall<M: PolylineMath>(
    m: &M,
    spec: NozzleSpec,
    z_t: Scalar,
    n: usize,
) -> bool {
    &&& forall|rc: Scalar, up: Point|
        {
            &&& #[trigger] call_ensures(M::square_root, (m, spec.contraction_ratio), rc)
            &&& #[trigger] call_ensures(M::upstream_tangency, (m, spec, z_t), up)
        } ==> up.r.at_most(rc)
    &&& forall|up: Point, q: Point|
        {
            &&& #[trigger] call_ensures(M::upstream_tangency, (m, spec, z_t), up)
            &&& #[trigger] call_ensures(M::upstream_sample, (m, spec, z_t, 1usize, n), q)
        } ==> q.r.at_most(up.r)
    &&& forall|j: usize, k: usize, p: Point, q: Point|
        {
            &&& 1 <= j < k <= n
            &&& #[trigger] call_ensures(M::upstream_sample, (m, spec, z_t, j, n), p)
            &&& #[trigger] call_ensures(M::upstream_sample, (m, spec, z_t, k, n), q)
        } ==> q.r.at_most(p.r)
}

/// The formulas let the radius rise on the downstream arc: it starts no lower than the
/// upstream one ends, and no sample is lower than one before it.
pub open spec fn arc_rises<M: PolylineMath>(
    m: &M,
    spec: NozzleSpec,
    angle_deg: Scalar,
    z_t: Scalar,
    n: usize,
) -> bool {
    let arc = spec.throat_arc_down;
    &&& forall|p: Point, q: Point|
        {
            &&& #[trigger] call_ensures(M::upstream_sample, (m, spec, z_t, n, n), p)
            &&& #[trigger] call_ensures(
                M::downstream_sample,
                (m, arc, angle_deg, z_t, 1usize, n),
                q,
            )
        } ==> p.r.at_most(q.r)
    &&& forall|j: usize, k: usize, p: Point, q: Point|
        {
            &&& 1 <= j < k <= n
            &&& #[trigger] call_ensures(M::downstream_sample, (m, arc, angle_deg, z_t, j, n), p)
            &&& #[trigger] call_ensures(M::downstream_sample, (m, arc, angle_deg, z_t, k, n), q)
        } ==> p.r.at_most(q.r)
}

/// The formulas let the radius rise on the parabola: it starts no lower than the arc
/// ends, no sample is lower than one before it, and the last one has the radius of the
/// lip.
pub open spec fn parabola_rises<M: PolylineMath>(
    m: &M,
    spec: NozzleSpec,
    b: BellGeometry,
    z_t: Scalar,
    n: usize,
    k: usize,
    lip: Scalar,
) -> bool {
    let arc = spec.throat_arc_down;
    &&& forall|p: Point, q: Point|
        {
            &&& #[trigger] call_ensures(
                M::downstream_sample,
                (m, arc, b.theta_n_deg, z_t, n, n),
                p,
            )
            &&& #[trigger] call_ensures(M::bell_sample, (m, b, z_t, 1usize, k), q)
        } ==> p.r.at_most(q.r)
    &&& forall|i: usize, j: usize, p: Point, q: Point|
        {
            &&& 1 <= i < j <= k
            &&& #[trigger] call_ensures(M::bell_sample, (m, b, z_t, i, k), p)
            &&& #[trigger] call_ensures(M::bell_sample, (m, b, z_t, j, k), q)
        } ==> p.r.at_most(q.r)
    &&& forall|q: Point| #[trigger]
        call_ensures(M::bell_sample, (m, b, z_t, k, k), q) ==> q.r == lip
}

/// The formulas let the radius rise from the throat to the lip, whose radius is `lip`.
pub open spec fn samples_rise<M: PolylineMath>(
    m: &M,
    c: NozzleCurve,
    samples: usize,
    z_t: Scalar,
    lip: Scalar,
) -> bool {
    let n = arc_count(samples);
    match c.spec.contour {
        ContourKind::Conical { half_angle_deg } => {
            &&& arc_rises(m, c.spec, half_angle_deg, z_t, n)
            &&& forall|p: Point| #[trigger]
                call_ensures(
                    M::downstream_sample,
                    (m, c.spec.throat_arc_down, half_angle_deg, z_t, n, n),
                    p,
                ) ==> p.r.at_most(lip)
            &&& forall|re: Scalar| #[trigger]
                call_ensures(M::square_root, (m, c.spec.area_ratio), re) ==> re == lip
        },
        _ => forall|b: BellGeometry|
            #![trigger c.has_bell(m, Ok(b))]
            c.has_bell(m, Ok(b)) ==> arc_rises(m, c.spec, b.theta_n_deg, z_t, n)
                && parabola_rises(m, c.spec, b, z_t, n, parabola_count(samples) as usize, lip),
    }
}

/// In metres no lower radius becomes a higher one, and that of the lip becomes the exit
/// radius.
pub open spec fn metres_keep_order<M: PolylineMath>(
    m: &M,
    spec: NozzleSpec,
    lip: Scalar,
    exit: Scalar,
) -> bool {
    let rt = spec.throat_radius_m;
    &&& forall|a: Point, b: Point, x: Point, y: Point|
        {
            &&& a.r.at_most(b.r)
            &&& #[trigger] call_ensures(M::in_metres, (m, a, rt), x)
            &&& #[trigger] call_ensures(M::in_metres, (m, b, rt), y)
        } ==> x.r.at_most(y.r)
    &&& forall|a: Point, x: Point| #[trigger]
        call_ensures(M::in_metres, (m, a, rt), x) && a.r == lip ==> x.r == exit
}

proof fn lemma_head_falls<M: PolylineMath>(
    m: &M,
    c: NozzleCurve,
    samples: usize,
    z_t: Scalar,
    rc: Scalar,
    up: Point,
    ups: Seq<Point>,
    head: Seq<Point>,
    i: int,
    j: int,
)
    requires
        are_fixed_head(m, c, samples, z_t, rc, up, ups, head),
        samples_fall(m, c.spec, z_t, arc_count(samples)),
        0 <= i <= j < head.len(),
    ensures
        head[j].r.at_most(head[i].r),
{
    let n = arc_count(samples);
    assert(n >= 8);
    assert(up.r.at_most(rc));
    assert(call_ensures(M::upstream_sample, (m, c.spec, z_t, 1usize, n), ups[0]));
    assert(ups[0].r.at_most(up.r));
    if j >= 3 {
        let b = (j - 3 + 1) as usize;
        assert(call_ensures(M::upstream_sample, (m, c.spec, z_t, b, n), ups[j - 3]));
        assert(head[j] == ups[j - 3]);
        if j > 3 {
            assert(ups[j - 3].r.at_most(ups[0].r));
        }
        if i >= 3 {
            let a = (i - 3 + 1) as usize;
            assert(call_ensures(M::upstream_sample, (m, c.spec, z_t, a, n), ups[i - 3]));
            assert(head[i] == ups[i - 3]);
        }
    }
}

proof fn lemma_arc_rises<M: PolylineMath>(
    m: &M,
    spec: NozzleSpec,
    angle_deg: Scalar,
    z_t: Scalar,
    n: usize,
    last: Point,
    downs: Seq<Point>,
)
    requires
        n >= 1,
        arc_rises(m, spec, angle_deg, z_t, n),
        are_downstream(m, spec.throat_arc_down, angle_deg, z_t, n, downs),
        call_ensures(M::upstream_sample, (m, spec, z_t, n, n), last),
    ensures
        forall|j: int| 0 <= j < n ==> last.r.at_most((#[trigger] downs[j]).r),
        forall|i: int, j: int|
            0 <= i <= j < n ==> (#[trigger] downs[i]).r.at_most((#[trigger] downs[j]).r),
{
    let arc = spec.throat_arc_down;
    assert(call_ensures(M::downstream_sample, (m, arc, angle_deg, z_t, 1usize, n), downs[0]));
    assert forall|j: int| 0 <= j < n implies last.r.at_most((#[trigger] downs[j]).r) by {
        let k = (j + 1) as usize;
        assert(call_ensures(M::downstream_sample, (m, arc, angle_deg, z_t, k, n), downs[j]));
        assert(last.r.at_most(downs[0].r));
        if j > 0 {
            assert(downs[0].r.at_most(downs[j].r));
        }
    }
    assert forall|i: int, j: int| 0 <= i <= j < n implies (#[trigger] downs[i]).r.at_most(
        (#[trigger] downs[j]).r,
    ) by {
        let a = (i + 1) as usize;
        let b = (j + 1) as usize;
        assert(call_ensures(M::downstream_sample, (m, arc, angle_deg, z_t, a, n), downs[i]));
        assert(call_ensures(M::downstream_sample, (m, arc, angle_deg, z_t, b, n), downs[j]));
        assert(last.r.at_most(downs[i].r));
    }
}

proof fn lemma_tail_rises<M: PolylineMath>(
    m: &M,
    c: NozzleCurve,
    samples: usize,
    z_t: Scalar,
    lip: Scalar,
    last: Point,
    tail: Seq<Point>,
)
    requires
        are_fixed_tail(m, c, samples, z_t, tail),
        call_ensures(
            M::upstream_sample,
            (m, c.spec, z_t, arc_count(samples), arc_count(samples)),
            last,
        ),
        samples_rise(m, c, samples, z_t, lip),
    ensures
        tail.len() > 0,
        tail.last().r == lip,
        forall|j: int| 0 <= j < tail.len() ==> last.r.at_most((#[trigger] tail[j]).r),
        forall|i: int, j: int|
            0 <= i <= j < tail.len() ==> (#[trigger] tail[i]).r.at_most((#[trigger] tail[j]).r),
{
    let n = arc_count(samples);
    assert(n >= 8);
    match c.spec.contour {
        ContourKind::Conical { half_angle_deg } => {
            let (length, end, downs) = choose|length: Scalar, end: Point, downs: Seq<Point>|
                #[trigger]
                is_fixed_cone(m, c, samples, half_angle_deg, z_t, length, end, downs, tail);
            lemma_arc_rises(m, c.spec, half_angle_deg, z_t, n, last, downs);
            assert(downs[n - 1].r.at_most(lip)) by {
                assert(call_ensures(
                    M::downstream_sample,
                    (m, c.spec.throat_arc_down, half_angle_deg, z_t, n, n),
                    downs[n - 1],
                ));
            }
            assert forall|i: int, j: int| 0 <= i <= j < tail.len() implies (
            #[trigger] tail[i]).r.at_most((#[trigger] tail[j]).r) by {
                if j < n {
                    assert(downs[i].r.at_most(downs[j].r));
                } else if i < n {
                    assert(downs[i].r.at_most(downs[n - 1].r));
                }
            }
            assert forall|j: int| 0 <= j < tail.len() implies last.r.at_most(
                (#[trigger] tail[j]).r,
            ) by {
                assert(last.r.at_most(downs[0].r));
                assert(tail[0].r.at_most(tail[j].r));
            }
        },
        _ => {
            let (b, downs, bells) = choose|
                b: BellGeometry,
                downs: Seq<Point>,
                bells: Seq<Point>,
            | #[trigger]
                is_fixed_bell(m, c, samples, z_t, b, downs, bells, tail);
            lemma_arc_rises(m, c.spec, b.theta_n_deg, z_t, n, last, downs);
            let k = parabola_count(samples) as usize;
            assert(k == parabola_count(samples));
            assert(parabola_rises(m, c.spec, b, z_t, n, k, lip));
            assert(call_ensures(
                M::downstream_sample,
                (m, c.spec.throat_arc_down, b.theta_n_deg, z_t, n, n),
                downs[n - 1],
            ));
            assert(call_ensures(M::bell_sample, (m, b, z_t, 1usize, k), bells[0]));
            assert(downs[n - 1].r.at_most(bells[0].r));
            assert(call_ensures(M::bell_sample, (m, b, z_t, k, k), bells[k - 1]));
            assert forall|i: int, j: int| 0 <= i <= j < k implies (#[trigger] bells[i]).r.at_most(
                (#[trigger] bells[j]).r,
            ) by {
                let a = (i + 1) as usize;
                let e = (j + 1) as usize;
                assert(call_ensures(M::bell_sample, (m, b, z_t, a, k), bells[i]));
                assert(call_ensures(M::bell_sample, (m, b, z_t, e, k), bells[j]));
                if i > 0 {
                    assert(bells[0].r.at_most(bells[i].r));
                }
            }
            assert forall|i: int, j: int| 0 <= i <= j < tail.len() implies (
            #[trigger] tail[i]).r.at_most((#[trigger] tail[j]).r) by {
                if j < n {
                    assert(downs[i].r.at_most(downs[j].r));
                } else if i >= n {
                    assert(bells[i - n].r.at_most(bells[j - n].r));
                } else {
                    assert(downs[i].r.at_most(downs[n - 1].r));
                    assert(bells[0].r.at_most(bells[j - n].r));
                }
            }
            assert forall|j: int| 0 <= j < tail.len() implies last.r.at_most(
                (#[trigger] tail[j]).r,
            ) by {
                assert(last.r.at_most(downs[0].r));
                assert(tail[0].r.at_most(tail[j].r));
            }
        },
    }
}

/// The wall falls to the throat, rises behind it and ends at the exit radius, where the
/// formulas let the samples of every piece do so, the throat and the lip lie beyond the
/// candidates before them, and the scaling to metres keeps the order.
pub proof fn law_wall_falls_and_rises<M: PolylineMath>(
    m: &M,
    c: NozzleCurve,
    samples: usize,
    z_t: Scalar,
    rc: Scalar,
    up: Point,
    ups: Seq<Point>,
    head: Seq<Point>,
    tail: Seq<Point>,
    pts: Seq<Point>,
    out: Seq<Point>,
    throat: int,
    p: WallProfile,
    lip: Scalar,
    exit: Scalar,
)
    requires
        is_sampled(m, c, samples, z_t, rc, up, ups, head, tail, pts, out, throat, Ok(p)),
        advance_is_function(m),
        samples_fall(m, c.spec, z_t, arc_count(samples)),
        samples_rise(m, c, samples, z_t, lip),
        metres_keep_order(m, c.spec, lip, exit),
        last_advances(m, head),
        last_advances(m, head + tail),
    ensures
        forall|i: int, j: int|
            0 <= i <= j <= p.throat_index ==> (#[trigger] p.points[j]).r.at_most(
                (#[trigger] p.points[i]).r,
            ),
        forall|i: int, j: int|
            p.throat_index <= i <= j < p.points.len() ==> (#[trigger] p.points[i]).r.at_most(
                (#[trigger] p.points[j]).r,
            ),
        p.points@.last().r == exit,
{
    let n = head.len() as int;
    let cands = head + tail;
    let rt = c.spec.throat_radius_m;
    assert(arc_count(samples) >= 8);
    assert(head.last() == ups[arc_count(samples) - 1]);
    lemma_throat_is_last_of_head(m, head, tail, pts, throat);
    lemma_tail_rises(m, c, samples, z_t, lip, head.last(), tail);
    lemma_last_stays(m, cands, pts);
    assert(cands.last() == tail.last());
    let (h, idx) = lemma_picks(m, cands, n, cands.len() as int, pts);
    lemma_one_thinning(m, cands, n, h, pts.take(throat + 1));
    assert(h.len() == throat + 1);
    assert forall|i: int, j: int| 0 <= i <= j <= throat implies (#[trigger] p.points[j]).r.at_most(
        (#[trigger] p.points[i]).r,
    ) by {
        assert(idx[i] < n && idx[j] < n);
        assert(idx[i] <= idx[j]);
        lemma_head_falls(m, c, samples, z_t, rc, up, ups, head, idx[i], idx[j]);
        assert(cands[idx[i]] == head[idx[i]] && cands[idx[j]] == head[idx[j]]);
        assert(call_ensures(M::in_metres, (m, pts[i], rt), out[i]));
        assert(call_ensures(M::in_metres, (m, pts[j], rt), out[j]));
    }
    assert forall|i: int, j: int| throat <= i <= j < p.points.len() implies (
    #[trigger] p.points[i]).r.at_most((#[trigger] p.points[j]).r) by {
        assert(call_ensures(M::in_metres, (m, pts[i], rt), out[i]));
        assert(call_ensures(M::in_metres, (m, pts[j], rt), out[j]));
        if i > throat {
            assert(idx[i] >= n && idx[j] >= n);
            assert(idx[i] <= idx[j]);
            assert(cands[idx[i]] == tail[idx[i] - n] && cands[idx[j]] == tail[idx[j] - n]);
            assert(tail[idx[i] - n].r.at_most(tail[idx[j] - n].r));
        } else if j > throat {
            assert(idx[j] >= n);
            assert(cands[idx[j]] == tail[idx[j] - n]);
            assert(head.last().r.at_most(tail[idx[j] - n].r));
        } else {
            lemma_head_falls(m, c, samples, z_t, rc, up, ups, head, n - 1, n - 1);
        }
    }
    assert(call_ensures(M::in_metres, (m, pts.last(), rt), out[pts.len() - 1]));
}

/// The polyline of the wall of a spec under a budget of samples.
pub fn generate_contour<M: PolylineMath>(m: &M, spec: &NozzleSpec, samples: usize) -> (r: Result<
    WallProfile,
    CfdError,
>)
    ensures
        samples_to(
            m,
            (NozzleCurve { spec: *spec, chamber_len_rt: Scalar { bits: CHAMBER_LEN_RT } }),
            samples,
            r,
        ),
        r matches Ok(p) ==> p.valid(),
{
    NozzleCurve::new(*spec).tessellate_fixed(m, samples)
}

/// The radius of a wall at a station is that of the first of its pieces that does not end
/// before it, read at the station in throat radii and held within the wall, and scaled back
/// by the throat's radius. A station more than a hair outside of the wall has none.
pub proof fn law_radii_come_from_their_piece<M: CurveMath>(
    m: &M,
    c: NozzleCurve,
    z: Scalar,
    r: Option<Scalar>,
) -> (w: (Vec<Piece>, Scalar, Point, Point, Scalar, Scalar, int, Option<Scalar>))
    requires
        c.has_radius_at(m, z, r),
        !(r is None && exists|e: CfdError| #[trigger] c.laid_out(m, Err(e))),
    ensures
        ({
            let (v, zr, first, last, before, beyond, i, x) = w;
            let rt = c.spec.throat_radius_m;
            let zc = zr.held_between(first.z, last.z);
            let within = before.at_most(zr) && zr.at_most(beyond);
            &&& c.laid_out(m, Ok(v))
            &&& call_ensures(M::over, (m, z, rt), zr)
            &&& v.len() > 0
            &&& v[0].has_point(m, Scalar { bits: ZERO }, first)
            &&& v[v.len() - 1].has_point(m, Scalar { bits: ONE }, last)
            &&& call_ensures(M::hair_before, (m, first.z), before)
            &&& call_ensures(M::hair_beyond, (m, last.z), beyond)
            &&& !within ==> r is None
            &&& within ==> {
                &&& 0 <= i <= v.len()
                &&& i < v.len() ==> v[i].has_radius(m, zc, x) && (r is Some <==> x is Some)
                &&& i < v.len() && x is Some ==> call_ensures(M::times, (m, x->0, rt), r->0)
                &&& i == v.len() ==> r is Some && call_ensures(M::times, (m, last.r, rt), r->0)
            }
        }),
        ({
            let (v, zr, first, last, before, beyond, i, x) = w;
            let zc = zr.held_between(first.z, last.z);
            before.at_most(zr) && zr.at_most(beyond) ==> {
                &&& forall|j: int| 0 <= j < i ==> #[trigger] passes(m, v@, zc, j)
                &&& i < v.len() ==> exists|end: Point, limit: Scalar|
                    {
                        &&& #[trigger] ends_at(m, v@, i, end, limit)
                        &&& zc.at_most(limit)
                    }
            }
        }),
{
    let (v, zr, first, last, before, beyond, i) = choose|
        v: Vec<Piece>,
        zr: Scalar,
        first: Point,
        last: Point,
        before: Scalar,
        beyond: Scalar,
        i: int,
    |
        {
            &&& #[trigger] c.laid_out(m, Ok(v))
            &&& call_ensures(M::over, (m, z, c.spec.throat_radius_m), zr)
            &&& #[trigger] is_curve_radius(
                m,
                v@,
                zr,
                c.spec.throat_radius_m,
                first,
                last,
                before,
                beyond,
                i,
                r,
            )
        };
    let zc = zr.held_between(first.z, last.z);
    let x = choose|x: Option<Scalar>|
        {
            &&& #[trigger] v@[i].has_radius(m, zc, x)
            &&& r is Some <==> x is Some
            &&& x is Some ==> call_ensures(M::times, (m, x->0, c.spec.throat_radius_m), r->0)
        };
    (v, zr, first, last, before, beyond, i, x)
}

/// A piece that a station has passed ends more than a hair before it.
pub proof fn law_passed_pieces_end_before<M: CurveMath>(m: &M, v: Seq<Piece>, z: Scalar, i: int) -> (r: (
    Point,
    Scalar,
))
    requires
        passes(m, v, z, i),
    ensures
        v[i].has_point(m, Scalar { bits: ONE }, r.0),
        call_ensures(M::hair_beyond, (m, r.0.z), r.1),
        !z.at_most(r.1),
{
    let (end, limit) = choose|end: Point, limit: Scalar| #[trigger]
        ends_at(m, v, i, end, limit) && !z.at_most(limit);
    (end, limit)
}

/// The points of a polyline are candidates in their order, the first of them always, and
/// each lies more than a hair beyond the one before it.
pub proof fn law_polylines_advance<M: PolylineMath>(
    m: &M,
    cands: Seq<Point>,
    n: int,
    pts: Seq<Point>,
    i: int,
)
    requires
        thinned(m, cands, n, pts),
        0 < n <= cands.len(),
        0 <= i < pts.len(),
    ensures
        pts[0] == cands[0],
        exists|j: int| i <= j < n && pts[i] == #[trigger] cands[j],
        i > 0 ==> exists|d: Scalar| #[trigger]
            call_ensures(M::advance, (m, pts[i - 1].z, pts[i].z), d) && (Scalar {
                bits: HAIR,
            }).below(d),
    decreases n,
{
    let rest = choose|rest: Seq<Point>| #[trigger]
        push_step(m, rest, cands[n - 1], pts) && thinned(m, cands, n - 1, rest);
    lemma_thinned_is_short(m, cands, n - 1, rest);
    if rest.len() > 0 {
        if i < rest.len() {
            law_polylines_advance(m, cands, n - 1, rest, i);
            assert(rest[i] == pts[i]);
            if i > 0 {
                assert(rest[i - 1] == pts[i - 1]);
            }
        } else {
            law_polylines_advance(m, cands, n - 1, rest, 0);
            assert(pts[i] == cands[n - 1]);
            assert(pts[i - 1] == rest.last());
        }
        assert(pts[0] == rest[0]);
    } else {
        assert(n == 1);
    }
}

proof fn lemma_thinned_is_short<M: PolylineMath>(m: &M, cands: Seq<Point>, n: int, pts: Seq<Point>)
    requires
        thinned(m, cands, n, pts),
        0 <= n <= cands.len(),
    ensures
        pts.len() <= n,
        n > 0 ==> pts.len() > 0,
    decreases n,
{
    if n > 0 {
        let rest = choose|rest: Seq<Point>| #[trigger]
            push_step(m, rest, cands[n - 1], pts) && thinned(m, cands, n - 1, rest);
        lemma_thinned_is_short(m, cands, n - 1, rest);
    }
}

/// The candidates of a polyline: the start of the wall, then the samples of its pieces one
/// after the other, each piece in as many even steps of its parameter as it was given.
pub proof fn law_candidates_step_through_the_pieces<M: PolylineMath>(
    m: &M,
    v: Seq<Piece>,
    counts: Seq<usize>,
    start: Point,
    parts: Seq<Seq<Point>>,
    cands: Seq<Point>,
    i: int,
    k: int,
) -> (t: Scalar)
    requires
        are_candidates(m, v, counts, start, parts, cands),
        0 <= i < v.len(),
        counts.len() == v.len(),
        0 <= k < counts[i],
    ensures
        cands[0] == start,
        v[0].has_point(m, Scalar { bits: ZERO }, start),
        cands.len() == 1 + total(counts, v.len() as int),
        0 <= total(counts, i) + k + 1 < cands.len(),
        call_ensures(M::step_share, (m, (k + 1) as usize, counts[i]), t),
        v[i].has_point(m, t, cands[1 + total(counts, i) + k]),
{
    assert(are_samples(m, v[i], counts[i] as int, parts[i]));
    assert(is_sample(m, v[i], k + 1, counts[i] as int, parts[i][k]));
    lemma_joined_at(m, v, counts, parts, v.len() as int, i, k);
    assert(cands[0] == start);
    assert(cands[1 + total(counts, i) + k] == parts[i][k]);
    choose|t: Scalar| #[trigger]
        call_ensures(M::step_share, (m, (k + 1) as usize, counts[i]), t) && v[i].has_point(
            m,
            t,
            parts[i][k],
        )
}

proof fn lemma_joined_at<M: PolylineMath>(
    m: &M,
    v: Seq<Piece>,
    counts: Seq<usize>,
    parts: Seq<Seq<Point>>,
    n: int,
    i: int,
    k: int,
)
    requires
        0 <= n <= v.len(),
        parts.len() == v.len(),
        counts.len() == v.len(),
        forall|j: int|
            0 <= j < v.len() ==> are_samples(m, v[j], counts[j] as int, #[trigger] parts[j]),
    ensures
        joined(parts, n).len() == total(counts, n),
        0 <= total(counts, n),
        0 <= i < n && 0 <= k < counts[i] ==> 0 <= total(counts, i) && total(counts, i) + k
            < total(counts, n) && joined(parts, n)[total(counts, i) + k] == parts[i][k],
    decreases n,
{
    if n > 0 {
        lemma_joined_at(m, v, counts, parts, n - 1, i, k);
        assert(are_samples(m, v[n - 1], counts[n - 1] as int, parts[n - 1]));
        if i == n - 1 && 0 <= k < counts[i] {
            assert(joined(parts, n)[total(counts, i) + k] == parts[i][k]);
        }
    }
}

/// The points of a profile are the points of its polyline in metres, and its throat is the
/// last of those that come from the candidates up to the throat.
pub proof fn law_profiles_are_in_metres<M: PolylineMath>(
    m: &M,
    cands: Seq<Point>,
    upto: int,
    rt: Scalar,
    pts: Seq<Point>,
    out: Seq<Point>,
    throat: int,
    p: WallProfile,
    i: int,
)
    requires
        is_finished(m, cands, upto, rt, pts, out, throat, Ok(p)),
        0 <= i < pts.len(),
    ensures
        p.points.len() == pts.len(),
        call_ensures(M::in_metres, (m, pts[i], rt), p.points[i]),
        p.throat_index == throat,
        thinned(m, cands, cands.len() as int, pts),
        thinned(m, cands, upto, pts.take(p.throat_index + 1)),
{
    assert(out[i] == p.points@[i]);
}

/// The budget of a polyline with a fixed number of samples: sixty-four at least; an eighth
/// of it for each arc; for a bell's parabola what both arcs and four corners leave of it,
/// and sixteen at least.
pub proof fn law_budgets_are_shared_out(samples: usize)
    ensures
        samples >= 64 ==> arc_count(samples) == samples / 8,
        samples < 64 ==> arc_count(samples) == 8,
        parabola_count(samples) >= 16,
        samples >= 64 ==> parabola_count(samples) == samples - 2 * (samples / 8) - 4,
        samples < 64 ==> parabola_count(samples) == 44,
{
}

/// The candidates of a polyline with a fixed number of samples: the head, the end of the
/// chamber and the start of the upstream arc, the samples of that arc, then those of the
/// downstream arc up to the wall's angle, and last the lip of a cone or the samples of a
/// bell's parabola.
pub proof fn law_fixed_candidates<M: PolylineMath>(
    m: &M,
    c: NozzleCurve,
    samples: usize,
    z_t: Scalar,
    rc: Scalar,
    up: Point,
    ups: Seq<Point>,
    head: Seq<Point>,
    tail: Seq<Point>,
    k: int,
) -> (r: (Scalar, BellGeometry))
    requires
        are_fixed_head(m, c, samples, z_t, rc, up, ups, head),
        are_fixed_tail(m, c, samples, z_t, tail),
        0 <= k < arc_count(samples),
    ensures
        ({
            let s = c.spec;
            let n = arc_count(samples);
            let (length, b) = r;
            &&& call_ensures(M::throat_station, (m, s, c.chamber_len_rt), z_t)
            &&& call_ensures(M::square_root, (m, s.contraction_ratio), rc)
            &&& call_ensures(M::upstream_tangency, (m, s, z_t), up)
            &&& head.len() == n + 3
            &&& head[0].z.bits == ZERO && head[0].r == rc
            &&& head[1].z == c.chamber_len_rt && head[1].r == rc
            &&& head[2] == up
            &&& call_ensures(M::upstream_sample, (m, s, z_t, (k + 1) as usize, n), head[3 + k])
            &&& s.contour matches ContourKind::Conical { half_angle_deg } ==> {
                &&& tail.len() == n + 1
                &&& call_ensures(
                    M::downstream_sample,
                    (m, s.throat_arc_down, half_angle_deg, z_t, (k + 1) as usize, n),
                    tail[k],
                )
                &&& call_ensures(
                    M::cone_length,
                    (m, s.area_ratio, s.throat_arc_down, half_angle_deg),
                    length,
                )
                &&& call_ensures(M::farther, (m, z_t, length), tail[n as int].z)
                &&& call_ensures(M::square_root, (m, s.area_ratio), tail[n as int].r)
            }
            &&& !(s.contour is Conical) ==> {
                &&& tail.len() == n + parabola_count(samples)
                &&& c.has_bell(m, Ok(b))
                &&& call_ensures(
                    M::downstream_sample,
                    (m, s.throat_arc_down, b.theta_n_deg, z_t, (k + 1) as usize, n),
                    tail[k],
                )
                &&& forall|j: int|
                    0 <= j < parabola_count(samples) ==> call_ensures(
                        M::bell_sample,
                        (m, b, z_t, (j + 1) as usize, parabola_count(samples) as usize),
                        #[trigger] tail[n + j],
                    )
            }
        }),
{
    let n = arc_count(samples);
    assert(head[3 + k] == ups[k]);
    match c.spec.contour {
        ContourKind::Conical { half_angle_deg } => {
            let (length, lip, downs) = choose|length: Scalar, lip: Point, downs: Seq<Point>|
                #[trigger]
                is_fixed_cone(m, c, samples, half_angle_deg, z_t, length, lip, downs, tail);
            assert(tail[k] == downs[k]);
            let b = arbitrary();
            (length, b)
        },
        _ => {
            let (b, downs, bells) = choose|b: BellGeometry, downs: Seq<Point>, bells: Seq<Point>|
                #[trigger]
                is_fixed_bell(m, c, samples, z_t, b, downs, bells, tail);
            assert(tail[k] == downs[k]);
            assert forall|j: int| 0 <= j < parabola_count(samples) implies call_ensures(
                M::bell_sample,
                (m, b, z_t, (j + 1) as usize, parabola_count(samples) as usize),
                #[trigger] tail[n + j],
            ) by {
                assert(tail[n + j] == bells[j]);
            }
            (z_t, b)
        },
    }
}

/// Counts that fit their cap are left alone; others are reduced in proportion first, and
/// never below their floors.
pub proof fn law_counts_that_fit_stay<M: PolylineMath>(
    m: &M,
    counts: Seq<usize>,
    floors: Seq<usize>,
    max_points: usize,
    fitted: Seq<usize>,
)
    requires
        are_fitted(m, counts, floors, max_points, fitted),
        total(counts, counts.len() as int) < max_points || total(counts, counts.len() as int)
            <= total(floors, floors.len() as int),
    ensures
        fitted == counts,
{
    lemma_total_monotone(counts, counts, counts.len() as int);
    lemma_total_monotone(floors, floors, floors.len() as int);
}

/// The direction of the wall at a station is that of the first piece that reaches it, at the
/// station in throat radii held within the curve; there is none beyond a hair outside of it.
pub proof fn law_directions_come_from_their_piece<M: CurveMath>(
    m: &M,
    c: NozzleCurve,
    z: Scalar,
    d: Option<Point>,
) -> (w: (Vec<Piece>, Scalar, Point, Point, Scalar, Scalar, int))
    requires
        c.has_direction_at(m, z, d),
        !(d is None && exists|e: CfdError| #[trigger] c.laid_out(m, Err(e))),
    ensures
        ({
            let (v, zr, first, last, before, beyond, i) = w;
            let within = before.at_most(zr) && zr.at_most(beyond);
            let zc = zr.held_between(first.z, last.z);
            &&& c.laid_out(m, Ok(v))
            &&& call_ensures(M::over, (m, z, c.spec.throat_radius_m), zr)
            &&& v.len() > 0
            &&& v[0].has_point(m, Scalar { bits: ZERO }, first)
            &&& v[v.len() - 1].has_point(m, Scalar { bits: ONE }, last)
            &&& call_ensures(M::hair_before, (m, first.z), before)
            &&& call_ensures(M::hair_beyond, (m, last.z), beyond)
            &&& d is Some <==> within
            &&& within ==> {
                &&& 0 <= i <= v.len()
                &&& i < v.len() ==> v[i].has_direction(m, zc, d->0)
                &&& i == v.len() ==> v[v.len() - 1].has_direction(m, last.z, d->0)
                &&& forall|j: int| 0 <= j < i ==> #[trigger] passes(m, v@, zc, j)
            }
        }),
{
    let (v, zr, first, last, before, beyond, i) = choose|
        v: Vec<Piece>,
        zr: Scalar,
        first: Point,
        last: Point,
        before: Scalar,
        beyond: Scalar,
        i: int,
    |
        {
            &&& #[trigger] c.laid_out(m, Ok(v))
            &&& call_ensures(M::over, (m, z, c.spec.throat_radius_m), zr)
            &&& #[trigger] is_curve_direction(m, v@, zr, first, last, before, beyond, i, d)
        };
    (v, zr, first, last, before, beyond, i)
}

/// The tolerance of a profile is in throat radii: pieces are divided by the tolerance in
/// metres over the throat radius, or by the smallest normal number where that is less.
pub proof fn law_tolerances_are_in_throat_radii<M: PolylineMath>(
    m: &M,
    c: NozzleCurve,
    t: Tessellation,
    v: Vec<Piece>,
    raw: Scalar,
    counts: Seq<usize>,
    floors: Seq<usize>,
    fitted: Seq<usize>,
    start: Point,
    parts: Seq<Seq<Point>>,
    cands: Seq<Point>,
    pts: Seq<Point>,
    out: Seq<Point>,
    throat: int,
    r: Result<WallProfile, CfdError>,
)
    requires
        is_tessellated(
            m,
            c,
            t,
            v,
            raw,
            counts,
            floors,
            fitted,
            start,
            parts,
            cands,
            pts,
            out,
            throat,
            r,
        ),
    ensures
        call_ensures(M::over, (m, t.chord_tol_m, c.spec.throat_radius_m), raw),
        (Scalar { bits: SMALLEST_NORMAL }).at_most(raw) ==> are_counts(
            m,
            v@,
            raw,
            t.max_turn_deg,
            counts,
            floors,
        ),
        raw.below(Scalar { bits: SMALLEST_NORMAL }) ==> are_counts(
            m,
            v@,
            Scalar { bits: SMALLEST_NORMAL },
            t.max_turn_deg,
            counts,
            floors,
        ),
        are_fitted(m, counts, floors, t.max_points, fitted),
        are_candidates(m, v@, fitted, start, parts, cands),
{
}

} // verus!
