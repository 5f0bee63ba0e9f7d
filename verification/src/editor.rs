//! Editing a wall point by point.

use vstd::prelude::*;
use crate::error::CfdError;
use crate::grid::copy_list;
use crate::profile;
use crate::profile::{first_beyond, Point, ProfileFault, ProfileMath, WallProfile};
use crate::scalar::{Scalar, ONE, ZERO};

verus! {

/// The floating-point formulas of the editors.
pub trait EditMath: ProfileMath {
    /// The length from `a` to `b`.
    fn span(&self, a: Scalar, b: Scalar) -> Scalar;

    /// The distance at which a click hits a point, for a wall of this length.
    fn hit_radius(&self, extent: Scalar) -> Scalar;

    /// The least distance between stations, for a wall of this length.
    fn least_gap(&self, extent: Scalar) -> Scalar;

    /// The least radius, for a wall of this length.
    fn least_radius(&self, extent: Scalar) -> Scalar;

    /// The station a gap beyond `z`.
    fn beyond(&self, z: Scalar, gap: Scalar) -> Scalar;

    /// The station a gap before `z`.
    fn ahead_of(&self, z: Scalar, gap: Scalar) -> Scalar;

    /// The station halfway from `a` to `b`.
    fn halfway(&self, a: Scalar, b: Scalar) -> Scalar;

    /// The squared distance of two points.
    fn squared_distance(&self, a: Point, b: Point) -> Scalar;

    /// The square of a value.
    fn squared(&self, x: Scalar) -> Scalar;

    /// The highest radius that keeps a margin to the top of the domain.
    fn ceiling(&self, lr: Scalar, margin: Scalar) -> Scalar;
}

/// The nearest of the first `n` candidates that are no farther than `limit`, the
/// first of equals.
pub open spec fn nearest_within(d: Seq<Scalar>, limit: Scalar, n: int) -> Option<usize>
    decreases n,
{
    if n <= 0 {
        None
    } else {
        let best = nearest_within(d, limit, n - 1);
        if d[n - 1].at_most(limit) && (best is None || d[n - 1].below(d[best->0 as int])) {
            Some((n - 1) as usize)
        } else {
            best
        }
    }
}

/// `r` is the point that a click at `world` hits.
pub open spec fn is_hit<M: EditMath>(
    m: &M,
    pts: Seq<Point>,
    world: Point,
    tol: Scalar,
    limit: Scalar,
    d: Seq<Scalar>,
    r: Option<usize>,
) -> bool {
    &&& call_ensures(M::squared, (m, tol), limit)
    &&& d.len() == pts.len()
    &&& forall|i: int|
        0 <= i < d.len() ==> call_ensures(
            M::squared_distance,
            (m, pts[i], world),
            #[trigger] d[i],
        )
    &&& r == nearest_within(d, limit, d.len() as int)
}

/// The nearest point within `tol` of `world`.
pub fn nearest_point<M: EditMath>(
    m: &M,
    pts: &Vec<Point>,
    world: Point,
    tol: Scalar,
) -> (r: Option<usize>)
    ensures
        exists|limit: Scalar, d: Seq<Scalar>| #[trigger]
            is_hit(m, pts@, world, tol, limit, d, r),
        r matches Some(i) ==> i < pts.len(),
{
    let limit = m.squared(tol);
    let mut d: Vec<Scalar> = Vec::new();
    let mut best: Option<usize> = None;
    let mut i: usize = 0;
    while i < pts.len()
        invariant
            i <= pts.len(),
            d.len() == i,
            forall|j: int|
                0 <= j < i ==> call_ensures(
                    M::squared_distance,
                    (m, pts[j], world),
                    #[trigger] d[j],
                ),
            best == nearest_within(d@, limit, i as int),
            best matches Some(b) ==> b < i,
        decreases pts.len() - i,
    {
        let x = m.squared_distance(pts[i], world);
        let ghost was = d@;
        d.push(x);
        proof {
            lemma_nearest_prefix(was, d@, limit, i as int);
        }
        let closer = match best {
            None => true,
            Some(b) => x.lt(d[b]),
        };
        if x.le(limit) && closer {
            best = Some(i);
        }
        i = i + 1;
    }
    assert(is_hit(m, pts@, world, tol, limit, d@, best));
    best
}

proof fn lemma_nearest_prefix(a: Seq<Scalar>, b: Seq<Scalar>, limit: Scalar, n: int)
    requires
        0 <= n <= a.len(),
        a.len() <= b.len(),
        forall|i: int| 0 <= i < n ==> a[i] == #[trigger] b[i],
    ensures
        nearest_within(a, limit, n) == nearest_within(b, limit, n),
        nearest_within(a, limit, n) matches Some(i) ==> i < n,
    decreases n,
{
    if n > 0 {
        lemma_nearest_prefix(a, b, limit, n - 1);
    }
}

/// A hit is within the limit and nothing is nearer; without a hit nothing is
/// within the limit.
pub proof fn law_hit_is_nearest(d: Seq<Scalar>, limit: Scalar, n: int, j: int)
    requires
        0 <= j < n <= d.len(),
        n <= usize::MAX,
        d[j].at_most(limit),
    ensures
        nearest_within(d, limit, n) is Some,
        ({
            let best = nearest_within(d, limit, n)->0 as int;
            &&& 0 <= best < n
            &&& d[best].at_most(limit)
            &&& d[best].at_most(d[j])
        }),
    decreases n,
{
    lemma_nearest_in_range(d, limit, n - 1);
    if j < n - 1 {
        law_hit_is_nearest(d, limit, n - 1, j);
    }
}

proof fn lemma_nearest_in_range(d: Seq<Scalar>, limit: Scalar, n: int)
    requires
        0 <= n <= d.len(),
        n <= usize::MAX,
    ensures
        nearest_within(d, limit, n) matches Some(i) ==> i < n && d[i as int].at_most(limit),
    decreases n,
{
    if n > 0 {
        lemma_nearest_in_range(d, limit, n - 1);
    }
}

/// The first of the lowest among the first `n` points.
pub open spec fn lowest(pts: Seq<Point>, n: int) -> int
    decreases n,
{
    if n <= 1 {
        0
    } else {
        let best = lowest(pts, n - 1);
        if pts[n - 1].r.below(pts[best].r) {
            n - 1
        } else {
            best
        }
    }
}

/// The first of the lowest points.
pub fn lowest_point(pts: &Vec<Point>) -> (k: usize)
    ensures
        k == lowest(pts@, pts.len() as int),
        pts.len() > 0 ==> k < pts.len(),
{
    let mut k: usize = 0;
    let mut i: usize = 1;
    while i < pts.len()
        invariant
            1 <= i,
            pts.len() > 0 ==> i <= pts.len() && k < i,
            pts.len() == 0 ==> i == 1,
            k == lowest(pts@, i as int),
        decreases pts.len() - i,
    {
        if pts[i].r.lt(pts[k].r) {
            k = i;
        }
        i = i + 1;
    }
    k
}

/// The lowest point is at or below every other, as long as the radii are numbers.
pub proof fn law_throat_is_lowest(pts: Seq<Point>, n: int, j: int)
    requires
        0 <= j < n <= pts.len(),
        forall|i: int| 0 <= i < n ==> !(#[trigger] pts[i]).r.nan(),
    ensures
        0 <= lowest(pts, n) < n,
        pts[lowest(pts, n)].r.at_most(pts[j].r),
        j < lowest(pts, n) ==> pts[lowest(pts, n)].r.below(pts[j].r),
    decreases n,
{
    if n > 1 {
        if j < n - 1 {
            law_throat_is_lowest(pts, n - 1, j);
        } else {
            law_throat_is_lowest(pts, n - 1, 0);
        }
    }
}

/// The profile of edited points: their throat is the lowest of them. It is
/// refused when they make no wall.
pub open spec fn is_profile_of<M: EditMath>(
    m: &M,
    pts: Seq<Point>,
    r: Result<WallProfile, CfdError>,
) -> bool {
    match r {
        Ok(p) => {
            &&& profile::is_wall(pts)
            &&& p.points@ == pts
            &&& p.throat_index == lowest(pts, pts.len() as int)
        },
        Err(e) => {
            &&& !profile::is_wall(pts)
            &&& exists|f: ProfileFault|
                {
                    &&& #[trigger] profile::is_profile_fault(pts, lowest(pts, pts.len() as int), f)
                    &&& e matches CfdError::Geometry(s) && profile::tells(m, f, s@)
                }
        },
    }
}

/// Makes a profile of edited points.
pub fn profile_of<M: EditMath>(m: &M, pts: &Vec<Point>) -> (r: Result<WallProfile, CfdError>)
    ensures
        is_profile_of(m, pts@, r),
        r matches Ok(p) ==> p.valid(),
{
    let p = WallProfile { points: copy_list(pts), throat_index: lowest_point(pts) };
    match p.validate(m) {
        Ok(_) => Ok(p),
        Err(e) => Err(e),
    }
}

/// The points around `i` make a wall and leave room for it.
pub open spec fn wall_around(pts: Seq<Point>, i: int) -> bool {
    &&& pts.len() >= 2
    &&& 0 <= i < pts.len()
    &&& forall|j: int| 0 <= j < pts.len() && j != i ==> profile::sound_point(#[trigger] pts[j])
    &&& forall|j: int|
        1 <= j < pts.len() && j != i && j != i + 1 ==> #[trigger] profile::rises(pts, j)
    &&& 0 < i < pts.len() - 1 ==> pts[i - 1].z.below(pts[i + 1].z)
}

/// A point put strictly between its neighbours completes a wall.
pub proof fn lemma_point_completes_wall(pts: Seq<Point>, i: int, p: Point)
    requires
        wall_around(pts, i),
        profile::sound_point(p),
        i > 0 ==> pts[i - 1].z.below(p.z),
        i < pts.len() - 1 ==> p.z.below(pts[i + 1].z),
    ensures
        profile::is_wall(pts.update(i, p)),
{
    let after = pts.update(i, p);
    assert forall|j: int| 0 <= j < after.len() implies profile::sound_point(#[trigger] after[j]) by {
        if j != i {
            assert(profile::sound_point(pts[j]));
        }
    }
    assert forall|j: int| 1 <= j < after.len() implies #[trigger] profile::rises(after, j) by {
        if j != i && j != i + 1 {
            assert(profile::rises(pts, j));
        }
    }
}

/// A wall with one more point inserted is a wall around that point.
pub proof fn lemma_insertion_leaves_wall_around(pts: Seq<Point>, k: int, p: Point)
    requires
        profile::is_wall(pts),
        0 <= k <= pts.len(),
    ensures
        wall_around(pts.insert(k, p), k),
{
    let after = pts.insert(k, p);
    assert forall|j: int| 0 <= j < after.len() && j != k implies profile::sound_point(
        #[trigger] after[j],
    ) by {
        if j < k {
            assert(profile::sound_point(pts[j]));
        } else {
            assert(profile::sound_point(pts[j - 1]));
        }
    }
    assert forall|j: int|
        1 <= j < after.len() && j != k && j != k + 1 implies #[trigger] profile::rises(after, j) by {
        if j < k {
            assert(profile::rises(pts, j));
        } else {
            assert(profile::rises(pts, j - 1));
        }
    }
    if 0 < k < after.len() - 1 {
        profile::law_stations_rise(pts, k - 1, k);
    }
}

/// A wall stays one around each of its points.
pub proof fn lemma_wall_is_wall_around(pts: Seq<Point>, i: int)
    requires
        profile::is_wall(pts),
        0 <= i < pts.len(),
    ensures
        wall_around(pts, i),
{
    if 0 < i < pts.len() - 1 {
        profile::law_stations_rise(pts, i - 1, i + 1);
    }
}

/// A wall of more than two points without one of them is a wall.
pub proof fn law_removal_keeps_wall(pts: Seq<Point>, i: int)
    requires
        profile::is_wall(pts),
        pts.len() > 2,
        0 <= i < pts.len(),
    ensures
        profile::is_wall(pts.remove(i)),
{
    let after = pts.remove(i);
    assert forall|j: int| 0 <= j < after.len() implies profile::sound_point(#[trigger] after[j]) by {
        if j < i {
            assert(profile::sound_point(pts[j]));
        } else {
            assert(profile::sound_point(pts[j + 1]));
        }
    }
    assert forall|j: int| 1 <= j < after.len() implies #[trigger] profile::rises(after, j) by {
        if j < i {
            assert(profile::rises(pts, j));
        } else if j == i {
            profile::law_stations_rise(pts, i - 1, i + 1);
        } else {
            assert(profile::rises(pts, j + 1));
        }
    }
}

/// The selection after point `i` was removed.
pub open spec fn selection_without(selection: Option<usize>, i: usize) -> Option<usize> {
    match selection {
        Some(s) => if s == i {
            None
        } else if s > i {
            Some((s - 1) as usize)
        } else {
            Some(s)
        },
        None => None,
    }
}

/// The selection after point `i` was removed.
pub fn deselect(selection: Option<usize>, i: usize) -> (r: Option<usize>)
    ensures
        r == selection_without(selection, i),
{
    match selection {
        Some(s) => {
            if s == i {
                None
            } else if s > i {
                Some(s - 1)
            } else {
                Some(s)
            }
        },
        None => None,
    }
}

/// The editor of a wall: its points, the selected one and the hit tolerance.
#[derive(Debug, PartialEq)]
pub struct Editor {
    pub points: Vec<Point>,
    pub selection: Option<usize>,
    pub hit_radius: Scalar,
}

impl Clone for Editor {
    fn clone(&self) -> (r: Editor)
        ensures
            r.points@ == self.points@,
            r.selection == self.selection,
            r.hit_radius == self.hit_radius,
    {
        Editor {
            points: copy_list(&self.points),
            selection: self.selection,
            hit_radius: self.hit_radius,
        }
    }
}

/// `extent` is the length of a wall: one where it has none.
pub open spec fn is_extent<M: EditMath>(m: &M, pts: Seq<Point>, extent: Scalar) -> bool {
    if pts.len() > 0 && pts[0].z.below(pts.last().z) {
        call_ensures(M::span, (m, pts[0].z, pts.last().z), extent)
    } else {
        extent.bits == ONE
    }
}

fn extent_of<M: EditMath>(m: &M, pts: &Vec<Point>) -> (extent: Scalar)
    ensures
        is_extent(m, pts@, extent),
{
    let n: usize = pts.len();
    if n > 0 && pts[0].z.lt(pts[n - 1].z) {
        m.span(pts[0].z, pts[n - 1].z)
    } else {
        Scalar { bits: ONE }
    }
}

/// Where a dragged point ends up: between its neighbours, each at its distance,
/// or halfway between two that are too close for that.
pub open spec fn drag_station(
    n: int,
    i: int,
    z: Scalar,
    lo: Scalar,
    hi: Scalar,
    mid: Scalar,
) -> Scalar {
    if 0 < i < n - 1 && hi.below(lo) {
        mid
    } else {
        let lifted = if i > 0 {
            z.larger(lo)
        } else {
            z
        };
        if i < n - 1 {
            lifted.smaller(hi)
        } else {
            lifted
        }
    }
}

/// The length, the gap, the least radius and the places beside the neighbours
/// that are computed to drag point `i`.
pub open spec fn are_places<M: EditMath>(
    m: &M,
    pts: Seq<Point>,
    i: int,
    extent: Scalar,
    gap: Scalar,
    floor: Scalar,
    lo: Scalar,
    hi: Scalar,
    mid: Scalar,
) -> bool {
    let n = pts.len() as int;
    &&& is_extent(m, pts, extent)
    &&& call_ensures(M::least_gap, (m, extent), gap)
    &&& call_ensures(M::least_radius, (m, extent), floor)
    &&& i > 0 ==> call_ensures(M::beyond, (m, pts[i - 1].z, gap), lo)
    &&& i < n - 1 ==> call_ensures(M::ahead_of, (m, pts[i + 1].z, gap), hi)
    &&& 0 < i < n - 1 && hi.below(lo) ==> call_ensures(
        M::halfway,
        (m, pts[i - 1].z, pts[i + 1].z),
        mid,
    )
}

/// Point `i` was dragged to `world`, with what was computed for it.
pub open spec fn dragged<M: EditMath>(
    m: &M,
    pts: Seq<Point>,
    i: int,
    world: Point,
    extent: Scalar,
    gap: Scalar,
    floor: Scalar,
    lo: Scalar,
    hi: Scalar,
    mid: Scalar,
    after: Seq<Point>,
) -> bool {
    &&& are_places(m, pts, i, extent, gap, floor, lo, hi, mid)
    &&& after == pts.update(
        i,
        Point {
            z: drag_station(pts.len() as int, i, world.z, lo, hi, mid),
            r: world.r.larger(floor),
        },
    )
}

/// A drag takes the points from `pts` to `after`.
pub open spec fn is_dragged<M: EditMath>(
    m: &M,
    pts: Seq<Point>,
    i: int,
    world: Point,
    after: Seq<Point>,
) -> bool {
    exists|extent: Scalar, gap: Scalar, floor: Scalar, lo: Scalar, hi: Scalar, mid: Scalar|
        #[trigger]
        dragged(m, pts, i, world, extent, gap, floor, lo, hi, mid, after)
}

/// What a drag computed was not lost in rounding: the places beside the
/// neighbours differ from them, and the least radius is a radius.
pub open spec fn gap_survives(
    pts: Seq<Point>,
    i: int,
    floor: Scalar,
    lo: Scalar,
    hi: Scalar,
    mid: Scalar,
) -> bool {
    let n = pts.len() as int;
    &&& floor.finite()
    &&& (Scalar { bits: ZERO }).below(floor)
    &&& i > 0 ==> lo.finite() && pts[i - 1].z.below(lo)
    &&& i < n - 1 ==> hi.finite() && hi.below(pts[i + 1].z)
    &&& 0 < i < n - 1 && hi.below(lo) ==> {
        &&& mid.finite()
        &&& pts[i - 1].z.below(mid)
        &&& mid.below(pts[i + 1].z)
    }
}

/// Nothing that a drag of point `i` computes is lost in rounding.
pub open spec fn drag_is_exact<M: EditMath>(m: &M, pts: Seq<Point>, i: int) -> bool {
    forall|extent: Scalar, gap: Scalar, floor: Scalar, lo: Scalar, hi: Scalar, mid: Scalar|
        #[trigger]
        are_places(m, pts, i, extent, gap, floor, lo, hi, mid) ==> gap_survives(
            pts,
            i,
            floor,
            lo,
            hi,
            mid,
        )
}

/// A drag to a finite place completes a wall around the dragged point.
proof fn lemma_drag_completes_wall<M: EditMath>(
    m: &M,
    pts: Seq<Point>,
    i: int,
    world: Point,
    after: Seq<Point>,
)
    requires
        wall_around(pts, i),
        is_dragged(m, pts, i, world, after),
        drag_is_exact(m, pts, i),
        world.finite(),
    ensures
        profile::is_wall(after),
        after.len() == pts.len(),
{
    let (extent, gap, floor, lo, hi, mid) = choose|
        extent: Scalar,
        gap: Scalar,
        floor: Scalar,
        lo: Scalar,
        hi: Scalar,
        mid: Scalar,
    | #[trigger]
        dragged(m, pts, i, world, extent, gap, floor, lo, hi, mid, after);
    assert(are_places(m, pts, i, extent, gap, floor, lo, hi, mid));
    lemma_point_completes_wall(pts, i, after[i]);
}

/// A drag to a finite place keeps a wall, as long as what it computes is not lost
/// in rounding.
pub proof fn law_drag_keeps_wall<M: EditMath>(
    m: &M,
    pts: Seq<Point>,
    i: int,
    world: Point,
    after: Seq<Point>,
)
    requires
        profile::is_wall(pts),
        0 <= i < pts.len(),
        is_dragged(m, pts, i, world, after),
        drag_is_exact(m, pts, i),
        world.finite(),
    ensures
        profile::is_wall(after),
        after.len() == pts.len(),
{
    lemma_wall_is_wall_around(pts, i);
    lemma_drag_completes_wall(m, pts, i, world, after);
}

/// The list after a point was inserted in order, before it is dragged into place.
pub open spec fn is_inserted<M: EditMath>(
    m: &M,
    pts: Seq<Point>,
    world: Point,
    k: int,
    extent: Scalar,
    floor: Scalar,
    longer: Seq<Point>,
) -> bool {
    &&& profile::leading(pts, world.z, k)
    &&& is_extent(m, pts, extent)
    &&& call_ensures(M::least_radius, (m, extent), floor)
    &&& longer == pts.insert(k, Point { z: world.z, r: world.r.larger(floor) })
}

/// A point at `world` was inserted as point `k` and dragged into place.
pub open spec fn is_insertion<M: EditMath>(
    m: &M,
    pts: Seq<Point>,
    world: Point,
    k: int,
    after: Seq<Point>,
) -> bool {
    exists|extent: Scalar, floor: Scalar, longer: Seq<Point>|
        {
            &&& #[trigger] is_inserted(m, pts, world, k, extent, floor, longer)
            &&& is_dragged(m, longer, k, longer[k], after)
        }
}

/// Nothing that the insertion of a point at `world` computes is lost in rounding.
pub open spec fn insertion_is_exact<M: EditMath>(m: &M, pts: Seq<Point>, world: Point) -> bool {
    forall|k: int, extent: Scalar, floor: Scalar, longer: Seq<Point>| #[trigger]
        is_inserted(m, pts, world, k, extent, floor, longer) ==> floor.finite() && drag_is_exact(
            m,
            longer,
            k,
        )
}

/// A point inserted at a finite place keeps a wall, as long as what that computes
/// is not lost in rounding.
pub proof fn law_insertion_keeps_wall<M: EditMath>(
    m: &M,
    pts: Seq<Point>,
    world: Point,
    k: int,
    after: Seq<Point>,
)
    requires
        profile::is_wall(pts),
        is_insertion(m, pts, world, k, after),
        insertion_is_exact(m, pts, world),
        world.finite(),
    ensures
        profile::is_wall(after),
        after.len() == pts.len() + 1,
{
    let (extent, floor, longer) = choose|extent: Scalar, floor: Scalar, longer: Seq<Point>|
        {
            &&& #[trigger] is_inserted(m, pts, world, k, extent, floor, longer)
            &&& is_dragged(m, longer, k, longer[k], after)
        };
    lemma_insertion_leaves_wall_around(pts, k, longer[k]);
    lemma_drag_completes_wall(m, longer, k, longer[k], after);
}

/// `after` is `pts` after one edit: a drag or an insertion to a finite place, of
/// which nothing is lost in rounding, a removal that leaves two points, or an
/// edit that was refused.
pub open spec fn is_edit<M: EditMath>(m: &M, pts: Seq<Point>, after: Seq<Point>) -> bool {
    ||| exists|i: int, world: Point|
        {
            &&& 0 <= i < pts.len()
            &&& world.finite()
            &&& drag_is_exact(m, pts, i)
            &&& #[trigger] is_dragged(m, pts, i, world, after)
        }
    ||| exists|world: Point, k: int|
        {
            &&& world.finite()
            &&& insertion_is_exact(m, pts, world)
            &&& #[trigger] is_insertion(m, pts, world, k, after)
        }
    ||| exists|i: int| 0 <= i < pts.len() && 2 < pts.len() && after == #[trigger] pts.remove(i)
    ||| after == pts
}

/// A wall that was edited any number of times, in any order, is still a wall, and
/// its points make a profile.
pub proof fn law_edits_keep_wall<M: EditMath>(m: &M, trail: Seq<Seq<Point>>, j: int)
    requires
        0 <= j < trail.len(),
        profile::is_wall(trail[0]),
        forall|s: int|
            1 <= s < trail.len() ==> is_edit(m, trail[s - 1], #[trigger] trail[s]),
    ensures
        profile::is_wall(trail[j]),
        forall|r: Result<WallProfile, CfdError>| #[trigger]
            is_profile_of(m, trail[j], r) ==> r is Ok,
    decreases j,
{
    if 0 < j {
        law_edits_keep_wall(m, trail, j - 1);
        let pts = trail[j - 1];
        let after = trail[j];
        assert(is_edit(m, pts, after));
        if exists|i: int, world: Point|
            {
                &&& 0 <= i < pts.len()
                &&& world.finite()
                &&& drag_is_exact(m, pts, i)
                &&& #[trigger] is_dragged(m, pts, i, world, after)
            } {
            let (i, world) = choose|i: int, world: Point|
                {
                    &&& 0 <= i < pts.len()
                    &&& world.finite()
                    &&& drag_is_exact(m, pts, i)
                    &&& #[trigger] is_dragged(m, pts, i, world, after)
                };
            law_drag_keeps_wall(m, pts, i, world, after);
        } else if exists|world: Point, k: int|
            {
                &&& world.finite()
                &&& insertion_is_exact(m, pts, world)
                &&& #[trigger] is_insertion(m, pts, world, k, after)
            } {
            let (world, k) = choose|world: Point, k: int|
                {
                    &&& world.finite()
                    &&& insertion_is_exact(m, pts, world)
                    &&& #[trigger] is_insertion(m, pts, world, k, after)
                };
            law_insertion_keeps_wall(m, pts, world, k, after);
        } else if after != pts {
            let i = choose|i: int|
                0 <= i < pts.len() && 2 < pts.len() && after == #[trigger] pts.remove(i);
            law_removal_keeps_wall(pts, i);
        }
    }
}

impl Editor {
    /// An editor of a profile's points.
    pub fn from_profile<M: EditMath>(m: &M, p: &WallProfile) -> (r: Editor)
        ensures
            r.points@ == p.points@,
            r.selection is None,
            exists|extent: Scalar| #[trigger]
                is_extent(m, p.points@, extent) && call_ensures(
                    M::hit_radius,
                    (m, extent),
                    r.hit_radius,
                ),
    {
        let extent = extent_of(m, &p.points);
        Editor { points: copy_list(&p.points), selection: None, hit_radius: m.hit_radius(extent) }
    }

    /// The profile of the points, with the throat at the lowest of them.
    pub fn to_profile<M: EditMath>(&self, m: &M) -> (r: Result<WallProfile, CfdError>)
        ensures
            is_profile_of(m, self.points@, r),
            r matches Ok(p) ==> p.valid(),
    {
        profile_of(m, &self.points)
    }

    /// The nearest point within `tol` of `world`.
    pub fn hit_test<M: EditMath>(&self, m: &M, world: Point, tol: Scalar) -> (r: Option<usize>)
        ensures
            exists|limit: Scalar, d: Seq<Scalar>| #[trigger]
                is_hit(m, self.points@, world, tol, limit, d, r),
            r matches Some(i) ==> i < self.points.len(),
    {
        nearest_point(m, &self.points, world, tol)
    }

    /// Moves point `i` to `world`, held between its neighbours and off the axis,
    /// and selects it. Nothing happens when there is no such point.
    pub fn drag<M: EditMath>(&mut self, m: &M, i: usize, world: Point)
        ensures
            final(self).hit_radius == old(self).hit_radius,
            final(self).points.len() == old(self).points.len(),
            if i < old(self).points.len() {
                &&& final(self).selection == Some(i)
                &&& is_dragged(m, old(self).points@, i as int, world, final(self).points@)
                &&& profile::is_wall(old(self).points@) && world.finite() && drag_is_exact(
                    m,
                    old(self).points@,
                    i as int,
                ) ==> profile::is_wall(final(self).points@)
            } else {
                *final(self) == *old(self)
            },
    {
        let n: usize = self.points.len();
        if i >= n {
            return ;
        }
        let ghost pts = self.points@;
        let extent = extent_of(m, &self.points);
        let gap = m.least_gap(extent);
        let floor = m.least_radius(extent);
        let zero = Scalar { bits: ZERO };
        let lo = if i > 0 {
            m.beyond(self.points[i - 1].z, gap)
        } else {
            zero
        };
        let hi = if i + 1 < n {
            m.ahead_of(self.points[i + 1].z, gap)
        } else {
            zero
        };
        let ghost mut mid = zero;
        let z = if i > 0 && i + 1 < n && hi.lt(lo) {
            let half = m.halfway(self.points[i - 1].z, self.points[i + 1].z);
            proof {
                mid = half;
            }
            half
        } else {
            let lifted = if i > 0 {
                world.z.max(lo)
            } else {
                world.z
            };
            if i + 1 < n {
                lifted.min(hi)
            } else {
                lifted
            }
        };
        let p = Point { z, r: world.r.max(floor) };
        self.points.set(i, p);
        self.selection = Some(i);
        assert(dragged(
            m,
            pts,
            i as int,
            world,
            extent,
            gap,
            floor,
            lo,
            hi,
            mid,
            self.points@,
        ));
        proof {
            if profile::is_wall(pts) && world.finite() && drag_is_exact(m, pts, i as int) {
                law_drag_keeps_wall(m, pts, i as int, world, self.points@);
            }
        }
    }

    /// Inserts a point at `world`, in order, drags it into place and selects it.
    pub fn insert<M: EditMath>(&mut self, m: &M, world: Point)
        requires
            old(self).points.len() < usize::MAX,
        ensures
            final(self).hit_radius == old(self).hit_radius,
            final(self).points.len() == old(self).points.len() + 1,
            exists|k: int|
                {
                    &&& #[trigger] is_insertion(
                        m,
                        old(self).points@,
                        world,
                        k,
                        final(self).points@,
                    )
                    &&& final(self).selection == Some(k as usize)
                },
            profile::is_wall(old(self).points@) && world.finite() && insertion_is_exact(
                m,
                old(self).points@,
                world,
            ) ==> profile::is_wall(final(self).points@),
    {
        let ghost pts = self.points@;
        let k: usize = first_beyond(&self.points, world.z);
        let extent = extent_of(m, &self.points);
        let floor = m.least_radius(extent);
        let p = Point { z: world.z, r: world.r.max(floor) };
        self.points.insert(k, p);
        let ghost longer = self.points@;
        assert(is_inserted(m, pts, world, k as int, extent, floor, longer));
        assert(longer[k as int] == p);
        self.drag(m, k, p);
        assert(is_insertion(m, pts, world, k as int, self.points@));
        proof {
            if profile::is_wall(pts) && world.finite() && insertion_is_exact(m, pts, world) {
                law_insertion_keeps_wall(m, pts, world, k as int, self.points@);
            }
        }
    }

    /// Removes point `i`. Two points stay in any case.
    pub fn remove(&mut self, i: usize)
        ensures
            final(self).hit_radius == old(self).hit_radius,
            if i < old(self).points.len() && old(self).points.len() > 2 {
                &&& final(self).points@ == old(self).points@.remove(i as int)
                &&& final(self).selection == selection_without(old(self).selection, i)
            } else {
                *final(self) == *old(self)
            },
            profile::is_wall(old(self).points@) ==> profile::is_wall(final(self).points@),
    {
        if i >= self.points.len() || self.points.len() <= 2 {
            return ;
        }
        proof {
            if profile::is_wall(self.points@) {
                law_removal_keeps_wall(self.points@, i as int);
            }
        }
        let gone = self.points.remove(i);
        self.selection = deselect(self.selection, i);
    }
}

/// A dragged point lands under the cursor as long as that lies between its neighbours with
/// a gap to both and not below the least radius; past a gap it stops there, and all other
/// points stay.
pub proof fn law_dragged_points_follow_the_cursor<M: EditMath>(
    m: &M,
    pts: Seq<Point>,
    i: int,
    world: Point,
    after: Seq<Point>,
    j: int,
) -> (r: (Scalar, Scalar, Scalar, Scalar, Scalar))
    requires
        is_dragged(m, pts, i, world, after),
        0 <= i < pts.len(),
        0 <= j < pts.len(),
        world.finite(),
    ensures
        ({
            let (extent, gap, floor, lo, hi) = r;
            let n = pts.len() as int;
            &&& after.len() == n
            &&& j != i ==> after[j] == pts[j]
            &&& pts[0].z.below(pts[n - 1].z) ==> call_ensures(
                M::span,
                (m, pts[0].z, pts[n - 1].z),
                extent,
            )
            &&& call_ensures(M::least_gap, (m, extent), gap)
            &&& call_ensures(M::least_radius, (m, extent), floor)
            &&& i > 0 ==> call_ensures(M::beyond, (m, pts[i - 1].z, gap), lo)
            &&& i < n - 1 ==> call_ensures(M::ahead_of, (m, pts[i + 1].z, gap), hi)
            &&& (i > 0 ==> lo.at_most(world.z)) && (i < n - 1 ==> world.z.at_most(hi))
                ==> after[i].z == world.z
            &&& i > 0 && world.z.below(lo) && (i < n - 1 ==> lo.at_most(hi)) ==> after[i].z == lo
            &&& i < n - 1 && hi.below(world.z) && (i > 0 ==> lo.at_most(hi)) ==> after[i].z == hi
            &&& floor.at_most(world.r) ==> after[i].r == world.r
            &&& world.r.below(floor) ==> after[i].r == floor
        }),
{
    let (extent, gap, floor, lo, hi, mid) = choose|
        extent: Scalar,
        gap: Scalar,
        floor: Scalar,
        lo: Scalar,
        hi: Scalar,
        mid: Scalar,
    | #[trigger]
        dragged(m, pts, i, world, extent, gap, floor, lo, hi, mid, after);
    (extent, gap, floor, lo, hi)
}

/// An inserted point takes its place in the order of the stations, and the others keep
/// theirs.
pub proof fn law_inserted_points_keep_the_others<M: EditMath>(
    m: &M,
    pts: Seq<Point>,
    world: Point,
    k: int,
    after: Seq<Point>,
    j: int,
)
    requires
        is_insertion(m, pts, world, k, after),
        0 <= j < pts.len(),
    ensures
        after.len() == pts.len() + 1,
        0 <= k <= pts.len(),
        j < k ==> after[j] == pts[j] && pts[j].z.at_most(world.z),
        j >= k ==> after[j + 1] == pts[j],
        j == k ==> !pts[j].z.at_most(world.z),
{
    let (extent, floor, longer) = choose|extent: Scalar, floor: Scalar, longer: Seq<Point>|
        {
            &&& #[trigger] is_inserted(m, pts, world, k, extent, floor, longer)
            &&& is_dragged(m, longer, k, longer[k], after)
        };
    let (e2, gap, f2, lo, hi, mid) = choose|
        extent: Scalar,
        gap: Scalar,
        floor: Scalar,
        lo: Scalar,
        hi: Scalar,
        mid: Scalar,
    | #[trigger]
        dragged(m, longer, k, longer[k], extent, gap, floor, lo, hi, mid, after);
    if j < k {
        assert(longer[j] == pts[j]);
    } else {
        assert(longer[j + 1] == pts[j]);
    }
}

/// A click picks a point within the tolerance to which no other is nearer, and none where
/// there is none within it.
pub proof fn law_clicks_pick_the_nearest_point<M: EditMath>(
    m: &M,
    pts: Seq<Point>,
    world: Point,
    tol: Scalar,
    limit: Scalar,
    d: Seq<Scalar>,
    r: Option<usize>,
    j: int,
)
    requires
        pts.len() <= usize::MAX,
        is_hit(m, pts, world, tol, limit, d, r),
        0 <= j < pts.len(),
    ensures
        call_ensures(M::squared, (m, tol), limit),
        call_ensures(M::squared_distance, (m, pts[j], world), d[j]),
        d[j].at_most(limit) ==> r is Some && d[r->0 as int].at_most(d[j]),
        r matches Some(i) ==> i < pts.len() && d[i as int].at_most(limit),
{
    lemma_nearest_in_range(d, limit, d.len() as int);
    if d[j].at_most(limit) {
        law_hit_is_nearest(d, limit, d.len() as int, j);
    }
}

/// The selection follows its point when another is removed, and is lost with its own.
pub proof fn law_selections_follow_their_points(
    pts: Seq<Point>,
    selection: Option<usize>,
    i: usize,
)
    requires
        i < pts.len() <= usize::MAX,
        selection matches Some(s) ==> s < pts.len(),
    ensures
        selection == Some(i) ==> selection_without(selection, i) is None,
        selection is None ==> selection_without(selection, i) is None,
        selection matches Some(s) ==> (s != i ==> (selection_without(selection, i) matches Some(t)
            && pts.remove(i as int)[t as int] == pts[s as int])),
{
}

/// Of points that are equally near, a click picks the first.
pub proof fn law_clicks_pick_the_first_of_equals<M: EditMath>(
    m: &M,
    pts: Seq<Point>,
    world: Point,
    tol: Scalar,
    limit: Scalar,
    d: Seq<Scalar>,
    r: Option<usize>,
    j: int,
)
    requires
        pts.len() <= usize::MAX,
        is_hit(m, pts, world, tol, limit, d, r),
        r matches Some(i) && 0 <= j < i,
    ensures
        !d[j].at_most(d[r->0 as int]),
{
    lemma_first_of_equals(d, limit, d.len() as int, j);
}

proof fn lemma_first_of_equals(d: Seq<Scalar>, limit: Scalar, n: int, j: int)
    requires
        0 <= n <= d.len(),
        n <= usize::MAX,
        nearest_within(d, limit, n) matches Some(i) && 0 <= j < i,
    ensures
        !d[j].at_most(d[nearest_within(d, limit, n)->0 as int]),
    decreases n,
{
    let best = nearest_within(d, limit, n - 1);
    lemma_nearest_in_range(d, limit, n - 1);
    if d[n - 1].at_most(limit) && (best is None || d[n - 1].below(d[best->0 as int])) {
        if d[j].at_most(limit) {
            law_hit_is_nearest(d, limit, n - 1, j);
        }
    } else {
        lemma_first_of_equals(d, limit, n - 1, j);
    }
}

} // verus!
