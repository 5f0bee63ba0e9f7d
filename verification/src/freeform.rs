//! Drawing a wall freely inside the box that the domain leaves for it.

use vstd::prelude::*;
use crate::editor;
use crate::editor::{deselect, nearest_point, profile_of, EditMath};
use crate::error::CfdError;
use crate::grid::copy_list;
use crate::profile;
use crate::profile::{first_beyond, Point, WallProfile};
use crate::scalar::{Scalar, ZERO};

verus! {

/// The pattern of the usual least radius, 0.15.
pub const R_MIN: u64 = 0x3FC3_3333_3333_3333;

/// The pattern of the usual margin to the top, 1.5.
pub const R_MARGIN: u64 = 0x3FF8_0000_0000_0000;

/// The pattern of the usual least distance between stations, 1e-3.
pub const Z_GAP: u64 = 0x3F50_624D_D2F1_A9FC;

/// The fewest points a drawn wall can be reduced to. The ends are protected, so
/// that this leaves one to remove.
pub const MIN_POINTS: usize = 3;

/// The box a drawn wall has to stay in.
#[derive(Debug, Clone, Copy, PartialEq)]
pub struct FreeformBounds {
    pub lz: Scalar,
    pub lr: Scalar,
    pub r_min: Scalar,
    pub r_margin: Scalar,
    pub z_gap: Scalar,
}

impl FreeformBounds {
    /// The box has a length and a lower radius.
    pub open spec fn wf(self) -> bool {
        (Scalar { bits: ZERO }).at_most(self.lz) && !self.r_min.nan()
    }

    /// The box is finite and leaves room above the axis.
    pub open spec fn usable(self) -> bool {
        &&& self.wf()
        &&& self.lz.finite()
        &&& self.r_min.finite()
        &&& (Scalar { bits: ZERO }).below(self.r_min)
    }

    /// The usual box of a domain.
    pub fn for_domain(lz: Scalar, lr: Scalar) -> (r: FreeformBounds)
        ensures
            r.lz == lz,
            r.lr == lr,
            r.r_min.bits == R_MIN,
            r.r_margin.bits == R_MARGIN,
            r.z_gap.bits == Z_GAP,
            (Scalar { bits: ZERO }).at_most(lz) ==> r.wf(),
            (Scalar { bits: ZERO }).at_most(lz) && lz.finite() ==> r.usable(),
    {
        FreeformBounds {
            lz,
            lr,
            r_min: Scalar { bits: R_MIN },
            r_margin: Scalar { bits: R_MARGIN },
            z_gap: Scalar { bits: Z_GAP },
        }
    }

    /// `held` is the radius `r` held inside the box; a box that is lower than
    /// its margin collapses to its least radius.
    pub open spec fn holds_radius<M: EditMath>(self, m: &M, r: Scalar, held: Scalar) -> bool {
        exists|top: Scalar| #[trigger]
            call_ensures(M::ceiling, (m, self.lr, self.r_margin), top) && held == r.held_between(
                self.r_min,
                top.larger(self.r_min),
            )
    }

    fn clamp_r<M: EditMath>(&self, m: &M, r: Scalar) -> (held: Scalar)
        requires
            self.wf(),
        ensures
            self.holds_radius(m, r, held),
            !r.nan() ==> self.r_min.at_most(held),
    {
        let top = m.ceiling(self.lr, self.r_margin);
        r.clamp(self.r_min, top.max(self.r_min))
    }
}

/// The editor of a drawn wall.
#[derive(Debug, PartialEq)]
pub struct FreeformEditor {
    pub points: Vec<Point>,
    pub selection: Option<usize>,
    pub bounds: FreeformBounds,
}

impl Clone for FreeformEditor {
    fn clone(&self) -> (r: FreeformEditor)
        ensures
            r.points@ == self.points@,
            r.selection == self.selection,
            r.bounds == self.bounds,
    {
        FreeformEditor {
            points: copy_list(&self.points),
            selection: self.selection,
            bounds: self.bounds,
        }
    }
}

/// Where a dragged point ends up: between its neighbours, each at its distance,
/// and inside the box at the ends. Between two neighbours that are too close for
/// that it is halfway. An end that has no room for the distance stands at the
/// border of the box, or at its distance from a neighbour that is not inside.
pub open spec fn drawn_station(
    pts: Seq<Point>,
    i: int,
    z: Scalar,
    lo: Scalar,
    hi: Scalar,
    mid: Scalar,
) -> Scalar {
    let n = pts.len() as int;
    if !hi.below(lo) {
        z.held_between(lo.smaller(hi), hi.larger(lo))
    } else if 0 < i < n - 1 {
        mid
    } else if i == 0 {
        if n > 1 && !lo.below(pts[1].z) {
            hi
        } else {
            lo
        }
    } else {
        if pts[i - 1].z.below(hi) {
            hi
        } else {
            lo
        }
    }
}

/// Point `i` was dragged to `world`, with the places beside the neighbours that
/// were computed for it.
pub open spec fn drawn<M: EditMath>(
    m: &M,
    b: FreeformBounds,
    pts: Seq<Point>,
    i: int,
    world: Point,
    lo: Scalar,
    hi: Scalar,
    mid: Scalar,
    after: Seq<Point>,
) -> bool {
    let n = pts.len() as int;
    &&& if i > 0 {
        call_ensures(M::beyond, (m, pts[i - 1].z, b.z_gap), lo)
    } else {
        lo.bits == ZERO
    }
    &&& if i < n - 1 {
        call_ensures(M::ahead_of, (m, pts[i + 1].z, b.z_gap), hi)
    } else {
        hi == b.lz
    }
    &&& hi.below(lo) && 0 < i < n - 1 ==> call_ensures(
        M::halfway,
        (m, pts[i - 1].z, pts[i + 1].z),
        mid,
    )
    &&& after.len() == n
    &&& after == pts.update(i, after[i])
    &&& after[i].z == drawn_station(pts, i, world.z, lo, hi, mid)
    &&& b.holds_radius(m, world.r, after[i].r)
}

/// A drag takes the points from `pts` to `after`.
pub open spec fn is_drawn<M: EditMath>(
    m: &M,
    b: FreeformBounds,
    pts: Seq<Point>,
    i: int,
    world: Point,
    after: Seq<Point>,
) -> bool {
    exists|lo: Scalar, hi: Scalar, mid: Scalar| #[trigger]
        drawn(m, b, pts, i, world, lo, hi, mid, after)
}

/// Nothing that is computed beside the stations of `pts` is lost in rounding: the
/// places beyond and ahead of a station differ from it, what is halfway between
/// two stations differs from both, and the highest radius is a number.
pub open spec fn exact_enough<M: EditMath>(m: &M, b: FreeformBounds, pts: Seq<Point>) -> bool {
    &&& forall|top: Scalar| #[trigger]
        call_ensures(M::ceiling, (m, b.lr, b.r_margin), top) ==> top.finite()
    &&& forall|i: int, x: Scalar|
        0 <= i < pts.len() && #[trigger] call_ensures(M::beyond, (m, pts[i].z, b.z_gap), x)
            ==> x.finite() && pts[i].z.below(x)
    &&& forall|i: int, x: Scalar|
        0 <= i < pts.len() && #[trigger] call_ensures(M::ahead_of, (m, pts[i].z, b.z_gap), x)
            ==> x.finite() && x.below(pts[i].z)
    &&& forall|i: int, j: int, x: Scalar|
        0 <= i < j < pts.len() && #[trigger] call_ensures(M::halfway, (m, pts[i].z, pts[j].z), x)
            ==> x.finite() && pts[i].z.below(x) && x.below(pts[j].z)
}

proof fn lemma_held_radius<M: EditMath>(m: &M, b: FreeformBounds, r: Scalar, held: Scalar)
    requires
        b.usable(),
        r.finite(),
        b.holds_radius(m, r, held),
        forall|top: Scalar| #[trigger]
            call_ensures(M::ceiling, (m, b.lr, b.r_margin), top) ==> top.finite(),
    ensures
        held.finite(),
        (Scalar { bits: ZERO }).below(held),
{
}

/// A drag to a finite place completes a wall around the dragged point, where the
/// places that it computed are not lost in rounding.
proof fn lemma_drawing_completes_wall<M: EditMath>(
    m: &M,
    b: FreeformBounds,
    pts: Seq<Point>,
    i: int,
    world: Point,
    lo: Scalar,
    hi: Scalar,
    mid: Scalar,
    after: Seq<Point>,
)
    requires
        b.usable(),
        editor::wall_around(pts, i),
        drawn(m, b, pts, i, world, lo, hi, mid, after),
        world.z.finite(),
        world.r.finite(),
        forall|top: Scalar| #[trigger]
            call_ensures(M::ceiling, (m, b.lr, b.r_margin), top) ==> top.finite(),
        i > 0 ==> lo.finite() && pts[i - 1].z.below(lo),
        i < pts.len() - 1 ==> hi.finite() && hi.below(pts[i + 1].z),
        0 < i < pts.len() - 1 && hi.below(lo) ==> mid.finite() && pts[i - 1].z.below(mid)
            && mid.below(pts[i + 1].z),
    ensures
        profile::is_wall(after),
{
    lemma_held_radius(m, b, world.r, after[i].r);
    editor::lemma_point_completes_wall(pts, i, after[i]);
}

/// A drag to a finite place keeps a wall, as long as nothing is lost in rounding.
pub proof fn law_drawing_keeps_wall<M: EditMath>(
    m: &M,
    b: FreeformBounds,
    pts: Seq<Point>,
    i: int,
    world: Point,
    after: Seq<Point>,
)
    requires
        b.usable(),
        profile::is_wall(pts),
        0 <= i < pts.len(),
        is_drawn(m, b, pts, i, world, after),
        exact_enough(m, b, pts),
        world.z.finite(),
        world.r.finite(),
    ensures
        profile::is_wall(after),
{
    let (lo, hi, mid) = choose|lo: Scalar, hi: Scalar, mid: Scalar| #[trigger]
        drawn(m, b, pts, i, world, lo, hi, mid, after);
    editor::lemma_wall_is_wall_around(pts, i);
    if i > 0 {
        assert(call_ensures(M::beyond, (m, pts[i - 1].z, b.z_gap), lo));
    }
    if i < pts.len() - 1 {
        assert(call_ensures(M::ahead_of, (m, pts[i + 1].z, b.z_gap), hi));
    }
    if 0 < i < pts.len() - 1 && hi.below(lo) {
        assert(call_ensures(M::halfway, (m, pts[i - 1].z, pts[i + 1].z), mid));
    }
    lemma_drawing_completes_wall(m, b, pts, i, world, lo, hi, mid, after);
}

/// Where a new point goes: behind the points at or before its station, or before
/// the last point where that stands at the border of the box.
pub open spec fn is_new_place(pts: Seq<Point>, z: Scalar, lz: Scalar, k: int) -> bool {
    exists|lead: int| #[trigger]
        profile::leading(pts, z, lead) && k == if lead > 0 && lead == pts.len() && lz.at_most(
            pts[lead - 1].z,
        ) {
            lead - 1
        } else {
            lead
        }
}

/// A point at `world` was inserted as point `k`.
pub open spec fn is_drawn_in<M: EditMath>(
    m: &M,
    b: FreeformBounds,
    pts: Seq<Point>,
    world: Point,
    k: int,
    after: Seq<Point>,
) -> bool {
    let z = world.z.held_between(Scalar { bits: ZERO }, b.lz);
    &&& is_new_place(pts, z, b.lz, k)
    &&& exists|r: Scalar|
        {
            &&& #[trigger] b.holds_radius(m, world.r, r)
            &&& is_drawn(
                m,
                b,
                pts.insert(k, Point { z, r }),
                k,
                Point { z, r: world.r },
                after,
            )
        }
}

/// A point inserted at a finite place keeps a wall, as long as nothing is lost in
/// rounding.
pub proof fn law_drawn_insertion_keeps_wall<M: EditMath>(
    m: &M,
    b: FreeformBounds,
    pts: Seq<Point>,
    world: Point,
    k: int,
    after: Seq<Point>,
)
    requires
        b.usable(),
        profile::is_wall(pts),
        is_drawn_in(m, b, pts, world, k, after),
        exact_enough(m, b, pts),
        world.z.finite(),
        world.r.finite(),
    ensures
        profile::is_wall(after),
        after.len() == pts.len() + 1,
{
    let z = world.z.held_between(Scalar { bits: ZERO }, b.lz);
    let r = choose|r: Scalar|
        {
            &&& #[trigger] b.holds_radius(m, world.r, r)
            &&& is_drawn(
                m,
                b,
                pts.insert(k, Point { z, r }),
                k,
                Point { z, r: world.r },
                after,
            )
        };
    let p = Point { z, r };
    let q = Point { z, r: world.r };
    let longer = pts.insert(k, p);
    let (lo, hi, mid) = choose|lo: Scalar, hi: Scalar, mid: Scalar| #[trigger]
        drawn(m, b, longer, k, q, lo, hi, mid, after);
    editor::lemma_insertion_leaves_wall_around(pts, k, p);
    if k > 0 {
        assert(longer[k - 1] == pts[k - 1]);
        assert(call_ensures(M::beyond, (m, pts[k - 1].z, b.z_gap), lo));
    }
    if k < pts.len() {
        assert(longer[k + 1] == pts[k]);
        assert(call_ensures(M::ahead_of, (m, pts[k].z, b.z_gap), hi));
    }
    if 0 < k < pts.len() && hi.below(lo) {
        assert(call_ensures(M::halfway, (m, pts[k - 1].z, pts[k].z), mid));
    }
    lemma_drawing_completes_wall(m, b, longer, k, q, lo, hi, mid, after);
}

/// A dragged point keeps the margins of the box: its radius is at least the
/// least one and at most the highest one, and an end whose neighbour is inside
/// the box stays inside the box.
pub proof fn law_drawing_stays_in_the_box<M: EditMath>(
    m: &M,
    b: FreeformBounds,
    pts: Seq<Point>,
    i: int,
    world: Point,
    lo: Scalar,
    hi: Scalar,
    mid: Scalar,
    after: Seq<Point>,
)
    requires
        b.wf(),
        0 <= i < pts.len(),
        drawn(m, b, pts, i, world, lo, hi, mid, after),
        !world.r.nan(),
        !world.z.nan(),
    ensures
        b.r_min.at_most(after[i].r),
        exists|top: Scalar| #[trigger]
            call_ensures(M::ceiling, (m, b.lr, b.r_margin), top) && after[i].r.at_most(
                top.larger(b.r_min),
            ),
        i == 0 && !hi.nan() && (pts.len() > 1 ==> (Scalar { bits: ZERO }).below(pts[1].z)) ==> (
        Scalar { bits: ZERO }).at_most(after[i].z),
        i == pts.len() - 1 && !lo.nan() && (i > 0 ==> pts[i - 1].z.below(b.lz))
            ==> after[i].z.at_most(b.lz),
{
}

/// Every point was pulled into the box.
pub open spec fn pulled_in<M: EditMath>(
    m: &M,
    b: FreeformBounds,
    before: Seq<Point>,
    after: Seq<Point>,
) -> bool {
    &&& after.len() == before.len()
    &&& forall|i: int| 0 <= i < after.len() ==> pulled_point(m, b, before[i], #[trigger] after[i])
}

/// One point was pulled into the box.
pub open spec fn pulled_point<M: EditMath>(m: &M, b: FreeformBounds, p: Point, q: Point) -> bool {
    &&& q.z == p.z.held_between(Scalar { bits: ZERO }, b.lz)
    &&& b.holds_radius(m, p.r, q.r)
}

/// Point `i` was pushed on where it was too close to the one before it.
pub open spec fn pushed_on<M: EditMath>(
    m: &M,
    b: FreeformBounds,
    before: Seq<Point>,
    after: Seq<Point>,
    i: int,
) -> bool {
    exists|lo: Scalar| #[trigger]
        call_ensures(M::beyond, (m, after[i - 1].z, b.z_gap), lo) && after[i] == (Point {
            z: if before[i].z.below(lo) {
                lo
            } else {
                before[i].z
            },
            r: before[i].r,
        })
}

/// The points were spread from the first one on.
pub open spec fn spread<M: EditMath>(
    m: &M,
    b: FreeformBounds,
    before: Seq<Point>,
    after: Seq<Point>,
) -> bool {
    &&& after.len() == before.len()
    &&& before.len() > 0 ==> after[0] == before[0]
    &&& forall|i: int| 1 <= i < after.len() ==> #[trigger] pushed_on(m, b, before, after, i)
}

/// Point `i` was taken back: the last one to the border of the box, another one
/// where the point behind it was taken back and came too close.
pub open spec fn taken_back<M: EditMath>(
    m: &M,
    b: FreeformBounds,
    before: Seq<Point>,
    after: Seq<Point>,
    i: int,
) -> bool {
    if i == before.len() - 1 {
        after[i] == (Point {
            z: if b.lz.below(before[i].z) {
                b.lz
            } else {
                before[i].z
            },
            r: before[i].r,
        })
    } else if after[i + 1].z.below(before[i + 1].z) {
        exists|hi: Scalar| #[trigger]
            call_ensures(M::ahead_of, (m, after[i + 1].z, b.z_gap), hi) && after[i] == (Point {
                z: if hi.below(before[i].z) {
                    hi
                } else {
                    before[i].z
                },
                r: before[i].r,
            })
    } else {
        after[i] == before[i]
    }
}

/// The points that the spreading has pushed out of the box were taken back, from
/// the last one on.
pub open spec fn pressed<M: EditMath>(
    m: &M,
    b: FreeformBounds,
    before: Seq<Point>,
    after: Seq<Point>,
) -> bool {
    &&& after.len() == before.len()
    &&& forall|i: int| 0 <= i < after.len() ==> #[trigger] taken_back(m, b, before, after, i)
}

/// The points were fitted into a new box: pulled in, spread, and those that the
/// spreading has pushed out taken back.
pub open spec fn is_fitted<M: EditMath>(
    m: &M,
    b: FreeformBounds,
    pts: Seq<Point>,
    mid: Seq<Point>,
    wide: Seq<Point>,
    after: Seq<Point>,
) -> bool {
    &&& pulled_in(m, b, pts, mid)
    &&& spread(m, b, mid, wide)
    &&& pressed(m, b, wide, after)
}

/// After the box has changed, every radius is inside of it.
pub proof fn law_new_box_holds_radii<M: EditMath>(
    m: &M,
    b: FreeformBounds,
    pts: Seq<Point>,
    mid: Seq<Point>,
    wide: Seq<Point>,
    after: Seq<Point>,
    i: int,
)
    requires
        b.wf(),
        is_fitted(m, b, pts, mid, wide, after),
        0 <= i < after.len(),
        !pts[i].r.nan(),
    ensures
        b.r_min.at_most(after[i].r),
        exists|top: Scalar| #[trigger]
            call_ensures(M::ceiling, (m, b.lr, b.r_margin), top) && after[i].r.at_most(
                top.larger(b.r_min),
            ),
{
    lemma_radius_is_pulled(m, b, pts, mid, wide, after, i);
}

proof fn lemma_radius_is_pulled<M: EditMath>(
    m: &M,
    b: FreeformBounds,
    pts: Seq<Point>,
    mid: Seq<Point>,
    wide: Seq<Point>,
    after: Seq<Point>,
    i: int,
)
    requires
        is_fitted(m, b, pts, mid, wide, after),
        0 <= i < after.len(),
    ensures
        b.holds_radius(m, pts[i].r, after[i].r),
{
    assert(pulled_point(m, b, pts[i], mid[i]));
    if i > 0 {
        assert(pushed_on(m, b, mid, wide, i));
    }
    assert(taken_back(m, b, wide, after, i));
}

/// `x` is the place of `k` gaps before the border of the box.
pub open spec fn is_place_before<M: EditMath>(m: &M, b: FreeformBounds, k: int, x: Scalar) -> bool
    decreases k,
{
    if k <= 0 {
        x == b.lz
    } else {
        exists|y: Scalar| #[trigger]
            call_ensures(M::ahead_of, (m, y, b.z_gap), x) && is_place_before(m, b, k - 1, y)
    }
}

/// The gaps between `n` points fit into the box.
pub open spec fn gaps_fit<M: EditMath>(m: &M, b: FreeformBounds, n: int) -> bool {
    forall|k: int, x: Scalar|
        0 <= k < n && #[trigger] is_place_before(m, b, k, x) ==> (Scalar { bits: ZERO }).at_most(x)
}

proof fn lemma_spread_rises<M: EditMath>(
    m: &M,
    b: FreeformBounds,
    pts: Seq<Point>,
    mid: Seq<Point>,
    wide: Seq<Point>,
    i: int,
)
    requires
        b.usable(),
        pulled_in(m, b, pts, mid),
        spread(m, b, mid, wide),
        exact_enough(m, b, wide),
        forall|j: int| 0 <= j < pts.len() ==> (#[trigger] pts[j]).z.finite(),
        0 <= i < wide.len(),
    ensures
        wide[i].z.finite(),
        (Scalar { bits: ZERO }).at_most(wide[i].z),
        i > 0 ==> wide[i - 1].z.below(wide[i].z),
    decreases i,
{
    assert(pulled_point(m, b, pts[i], mid[i]));
    assert(pts[i].z.finite());
    if i > 0 {
        lemma_spread_rises(m, b, pts, mid, wide, i - 1);
        assert(pushed_on(m, b, mid, wide, i));
    }
}

proof fn lemma_pressed<M: EditMath>(
    m: &M,
    b: FreeformBounds,
    pts: Seq<Point>,
    mid: Seq<Point>,
    wide: Seq<Point>,
    after: Seq<Point>,
    i: int,
)
    requires
        b.usable(),
        is_fitted(m, b, pts, mid, wide, after),
        exact_enough(m, b, wide),
        exact_enough(m, b, after),
        forall|j: int| 0 <= j < pts.len() ==> (#[trigger] pts[j]).z.finite(),
        0 <= i < after.len(),
    ensures
        after[i].z.finite(),
        after[i].z.at_most(b.lz),
        after[i].z.at_most(wide[i].z),
        i < after.len() - 1 ==> after[i].z.below(after[i + 1].z),
        after[i].z.below(wide[i].z) ==> is_place_before(m, b, after.len() - 1 - i, after[i].z),
        !after[i].z.below(wide[i].z) ==> after[i] == wide[i],
    decreases after.len() - i,
{
    assert(taken_back(m, b, wide, after, i));
    lemma_spread_rises(m, b, pts, mid, wide, i);
    if i < after.len() - 1 {
        lemma_pressed(m, b, pts, mid, wide, after, i + 1);
        lemma_spread_rises(m, b, pts, mid, wide, i + 1);
        if after[i + 1].z.below(wide[i + 1].z) {
            let hi = choose|hi: Scalar| #[trigger]
                call_ensures(M::ahead_of, (m, after[i + 1].z, b.z_gap), hi) && after[i]
                    == (Point {
                    z: if hi.below(wide[i].z) {
                        hi
                    } else {
                        wide[i].z
                    },
                    r: wide[i].r,
                });
            assert(hi.below(after[i + 1].z));
            let k = after.len() - 1 - i;
            assert(is_place_before(m, b, k - 1, after[i + 1].z) && call_ensures(
                M::ahead_of,
                (m, after[i + 1].z, b.z_gap),
                hi,
            ));
            assert(is_place_before(m, b, k, hi));
        }
    }
}

/// A new box keeps a wall: points that end up at one station are spread until the
/// stations rise again, as long as nothing is lost in rounding.
pub proof fn law_new_box_keeps_wall<M: EditMath>(
    m: &M,
    b: FreeformBounds,
    pts: Seq<Point>,
    mid: Seq<Point>,
    wide: Seq<Point>,
    after: Seq<Point>,
)
    requires
        b.usable(),
        profile::is_wall(pts),
        is_fitted(m, b, pts, mid, wide, after),
        exact_enough(m, b, wide),
        exact_enough(m, b, after),
    ensures
        profile::is_wall(after),
{
    assert forall|j: int| 0 <= j < pts.len() implies (#[trigger] pts[j]).z.finite() by {
        assert(profile::sound_point(pts[j]));
    }
    assert forall|i: int| 0 <= i < after.len() implies profile::sound_point(#[trigger] after[i]) by {
        assert(profile::sound_point(pts[i]));
        lemma_pressed(m, b, pts, mid, wide, after, i);
        lemma_radius_is_pulled(m, b, pts, mid, wide, after, i);
        lemma_held_radius(m, b, pts[i].r, after[i].r);
    }
    assert forall|i: int| 1 <= i < after.len() implies #[trigger] profile::rises(after, i) by {
        lemma_pressed(m, b, pts, mid, wide, after, i - 1);
    }
}

/// After the box has changed, every point is inside of it and the stations rise,
/// wherever the gaps between the points fit into the box and nothing is lost in
/// rounding.
pub proof fn law_new_box_holds_stations<M: EditMath>(
    m: &M,
    b: FreeformBounds,
    pts: Seq<Point>,
    mid: Seq<Point>,
    wide: Seq<Point>,
    after: Seq<Point>,
    i: int,
)
    requires
        b.usable(),
        is_fitted(m, b, pts, mid, wide, after),
        exact_enough(m, b, wide),
        exact_enough(m, b, after),
        gaps_fit(m, b, pts.len() as int),
        forall|j: int| 0 <= j < pts.len() ==> (#[trigger] pts[j]).z.finite(),
        0 <= i < after.len(),
    ensures
        (Scalar { bits: ZERO }).at_most(after[i].z),
        after[i].z.at_most(b.lz),
        i > 0 ==> after[i - 1].z.below(after[i].z),
{
    lemma_pressed(m, b, pts, mid, wide, after, i);
    lemma_spread_rises(m, b, pts, mid, wide, i);
    if i > 0 {
        lemma_pressed(m, b, pts, mid, wide, after, i - 1);
    }
}

/// Nothing that fitting `pts` into a box computes is lost in rounding.
pub open spec fn fitting_is_exact<M: EditMath>(
    m: &M,
    b: FreeformBounds,
    pts: Seq<Point>,
) -> bool {
    forall|mid: Seq<Point>, wide: Seq<Point>, after: Seq<Point>| #[trigger]
        is_fitted(m, b, pts, mid, wide, after) ==> exact_enough(m, b, wide) && exact_enough(
            m,
            b,
            after,
        )
}

/// Points that were fitted into a box.
pub open spec fn is_refit<M: EditMath>(
    m: &M,
    b: FreeformBounds,
    pts: Seq<Point>,
    after: Seq<Point>,
) -> bool {
    exists|mid: Seq<Point>, wide: Seq<Point>| #[trigger]
        is_fitted(m, b, pts, mid, wide, after)
}

/// `after` is what `before`, a box and the points in it, became by one edit: a drag
/// or an insertion to a finite place, a removal between the ends that leaves three
/// points, a new box, of all of which nothing is lost in rounding, or an edit that
/// was refused.
pub open spec fn is_redrawn<M: EditMath>(
    m: &M,
    before: (FreeformBounds, Seq<Point>),
    after: (FreeformBounds, Seq<Point>),
) -> bool {
    let (b, pts) = before;
    ||| {
        &&& after.0 == b
        &&& b.usable()
        &&& exact_enough(m, b, pts)
        &&& exists|i: int, world: Point|
            0 <= i < pts.len() && world.finite() && #[trigger] is_drawn(
                m,
                b,
                pts,
                i,
                world,
                after.1,
            )
    }
    ||| {
        &&& after.0 == b
        &&& b.usable()
        &&& exact_enough(m, b, pts)
        &&& exists|world: Point, k: int|
            world.finite() && #[trigger] is_drawn_in(m, b, pts, world, k, after.1)
    }
    ||| {
        &&& after.0 == b
        &&& MIN_POINTS < pts.len()
        &&& exists|i: int| 0 < i < pts.len() - 1 && after.1 == #[trigger] pts.remove(i)
    }
    ||| {
        &&& after.0.usable()
        &&& fitting_is_exact(m, after.0, pts)
        &&& is_refit(m, after.0, pts, after.1)
    }
    ||| after == before
}

/// A drawn wall that was edited any number of times, in any order, is still a wall,
/// and its points make a profile.
pub proof fn law_drawn_edits_keep_wall<M: EditMath>(
    m: &M,
    trail: Seq<(FreeformBounds, Seq<Point>)>,
    j: int,
)
    requires
        0 <= j < trail.len(),
        profile::is_wall(trail[0].1),
        forall|s: int|
            1 <= s < trail.len() ==> is_redrawn(m, trail[s - 1], #[trigger] trail[s]),
    ensures
        profile::is_wall(trail[j].1),
        forall|r: Result<WallProfile, CfdError>| #[trigger]
            editor::is_profile_of(m, trail[j].1, r) ==> r is Ok,
    decreases j,
{
    if 0 < j {
        law_drawn_edits_keep_wall(m, trail, j - 1);
        assert(is_redrawn(m, trail[j - 1], trail[j]));
        lemma_redrawn_keeps_wall(m, trail[j - 1], trail[j]);
    }
}

proof fn lemma_redrawn_keeps_wall<M: EditMath>(
    m: &M,
    before: (FreeformBounds, Seq<Point>),
    after: (FreeformBounds, Seq<Point>),
)
    requires
        profile::is_wall(before.1),
        is_redrawn(m, before, after),
    ensures
        profile::is_wall(after.1),
{
    let (b, pts) = before;
    if after.0 == b && b.usable() && exact_enough(m, b, pts) && exists|i: int, world: Point|
        0 <= i < pts.len() && world.finite() && #[trigger] is_drawn(m, b, pts, i, world, after.1) {
        let (i, world) = choose|i: int, world: Point|
            0 <= i < pts.len() && world.finite() && #[trigger] is_drawn(
                m,
                b,
                pts,
                i,
                world,
                after.1,
            );
        law_drawing_keeps_wall(m, b, pts, i, world, after.1);
    } else if after.0 == b && b.usable() && exact_enough(m, b, pts) && exists|
        world: Point,
        k: int,
    |
        world.finite() && #[trigger] is_drawn_in(m, b, pts, world, k, after.1) {
        let (world, k) = choose|world: Point, k: int|
            world.finite() && #[trigger] is_drawn_in(m, b, pts, world, k, after.1);
        law_drawn_insertion_keeps_wall(m, b, pts, world, k, after.1);
    } else if MIN_POINTS < pts.len() && exists|i: int|
        0 < i < pts.len() - 1 && after.1 == #[trigger] pts.remove(i) {
        let i = choose|i: int| 0 < i < pts.len() - 1 && after.1 == #[trigger] pts.remove(i);
        editor::law_removal_keeps_wall(pts, i);
    } else if after.0.usable() && fitting_is_exact(m, after.0, pts) && is_refit(
        m,
        after.0,
        pts,
        after.1,
    ) {
        let (mid, wide) = choose|mid: Seq<Point>, wide: Seq<Point>| #[trigger]
            is_fitted(m, after.0, pts, mid, wide, after.1);
        law_new_box_keeps_wall(m, after.0, pts, mid, wide, after.1);
    }
}

impl FreeformEditor {
    /// Takes over the points of a polyline.
    pub fn new(points: Vec<Point>, bounds: FreeformBounds) -> (r: FreeformEditor)
        ensures
            r.points == points,
            r.selection is None,
            r.bounds == bounds,
    {
        FreeformEditor { points, selection: None, bounds }
    }

    /// The points.
    pub fn points(&self) -> (r: &Vec<Point>)
        ensures
            *r == self.points,
    {
        &self.points
    }

    /// The selected point.
    pub fn selection(&self) -> (r: Option<usize>)
        ensures
            r == self.selection,
    {
        self.selection
    }

    /// The box.
    pub fn bounds(&self) -> (r: FreeformBounds)
        ensures
            r == self.bounds,
    {
        self.bounds
    }

    /// Spreads the points from the first one on.
    fn spread_points<M: EditMath>(&mut self, m: &M)
        ensures
            spread(m, old(self).bounds, old(self).points@, final(self).points@),
            final(self).bounds == old(self).bounds,
            final(self).selection == old(self).selection,
    {
        let ghost mid = self.points@;
        let bounds = self.bounds;
        let n: usize = self.points.len();
        let mut i: usize = 1;
        while i < n
            invariant
                n == mid.len(),
                self.points.len() == n,
                self.bounds == bounds,
                bounds == old(self).bounds,
                self.selection == old(self).selection,
                1 <= i,
                n > 0 ==> i <= n && self.points@[0] == mid[0],
                forall|j: int|
                    1 <= j < i ==> #[trigger] pushed_on(m, bounds, mid, self.points@, j),
                forall|j: int| i <= j < n ==> #[trigger] self.points@[j] == mid[j],
            decreases n - i,
        {
            let ghost was = self.points@;
            let lo = m.beyond(self.points[i - 1].z, bounds.z_gap);
            let p = self.points[i];
            if p.z.lt(lo) {
                self.points.set(i, Point { z: lo, r: p.r });
            }
            proof {
                assert(call_ensures(
                    M::beyond,
                    (m, self.points@[i - 1].z, bounds.z_gap),
                    lo,
                ));
                assert(pushed_on(m, bounds, mid, self.points@, i as int));
                assert forall|j: int| 1 <= j < i implies #[trigger] pushed_on(
                    m,
                    bounds,
                    mid,
                    self.points@,
                    j,
                ) by {
                    assert(pushed_on(m, bounds, mid, was, j));
                }
            }
            i = i + 1;
        }
    }

    /// Takes the points back that stand outside of the box, from the last one on.
    fn press_points<M: EditMath>(&mut self, m: &M)
        ensures
            pressed(m, old(self).bounds, old(self).points@, final(self).points@),
            final(self).bounds == old(self).bounds,
            final(self).selection == old(self).selection,
    {
        let ghost wide = self.points@;
        let bounds = self.bounds;
        let n: usize = self.points.len();
        if n == 0 {
            return ;
        }
        let p = self.points[n - 1];
        let mut moved = bounds.lz.lt(p.z);
        if moved {
            self.points.set(n - 1, Point { z: bounds.lz, r: p.r });
        }
        let mut i: usize = n - 1;
        assert(taken_back(m, bounds, wide, self.points@, n - 1));
        while i > 0
            invariant
                n == wide.len(),
                self.points.len() == n,
                self.bounds == bounds,
                bounds == old(self).bounds,
                self.selection == old(self).selection,
                i < n,
                moved == self.points@[i as int].z.below(wide[i as int].z),
                forall|j: int|
                    i <= j < n ==> #[trigger] taken_back(m, bounds, wide, self.points@, j),
                forall|j: int| 0 <= j < i ==> #[trigger] self.points@[j] == wide[j],
            decreases i,
        {
            let ghost was = self.points@;
            let ghost at = i as int;
            let p = self.points[i - 1];
            if moved {
                let hi = m.ahead_of(self.points[i].z, bounds.z_gap);
                moved = hi.lt(p.z);
                if moved {
                    self.points.set(i - 1, Point { z: hi, r: p.r });
                }
                assert(self.points@[at] == was[at]);
                assert(call_ensures(M::ahead_of, (m, self.points@[at].z, bounds.z_gap), hi));
            }
            i = i - 1;
            proof {
                assert(taken_back(m, bounds, wide, self.points@, i as int));
                assert forall|j: int| i < j < n implies #[trigger] taken_back(
                    m,
                    bounds,
                    wide,
                    self.points@,
                    j,
                ) by {
                    assert(taken_back(m, bounds, wide, was, j));
                    assert(self.points@[j] == was[j]);
                    if j + 1 < n {
                        assert(self.points@[j + 1] == was[j + 1]);
                    }
                }
            }
        }
    }

    /// Changes the box, pulls the points into it, spreads those that end up too
    /// close and takes those back that this pushes out. A wall stays one, as long
    /// as nothing is lost in rounding.
    pub fn set_bounds<M: EditMath>(&mut self, m: &M, bounds: FreeformBounds)
        requires
            bounds.wf(),
        ensures
            final(self).bounds == bounds,
            final(self).selection == old(self).selection,
            is_refit(m, bounds, old(self).points@, final(self).points@),
            profile::is_wall(old(self).points@) && bounds.usable() && fitting_is_exact(
                m,
                bounds,
                old(self).points@,
            ) ==> profile::is_wall(final(self).points@),
    {
        self.bounds = bounds;
        let ghost pts = self.points@;
        let n: usize = self.points.len();
        let zero = Scalar { bits: ZERO };
        let mut i: usize = 0;
        while i < n
            invariant
                bounds.wf(),
                zero.bits == ZERO,
                n == pts.len(),
                self.points.len() == n,
                self.bounds == bounds,
                self.selection == old(self).selection,
                i <= n,
                forall|j: int|
                    0 <= j < i ==> pulled_point(m, bounds, pts[j], #[trigger] self.points@[j]),
                forall|j: int| i <= j < n ==> #[trigger] self.points@[j] == pts[j],
            decreases n - i,
        {
            let p = self.points[i];
            let q = Point { z: p.z.clamp(zero, bounds.lz), r: bounds.clamp_r(m, p.r) };
            self.points.set(i, q);
            i = i + 1;
        }
        let ghost mid = self.points@;
        assert(pulled_in(m, bounds, pts, mid));
        self.spread_points(m);
        let ghost wide = self.points@;
        self.press_points(m);
        assert(is_fitted(m, bounds, pts, mid, wide, self.points@));
        proof {
            if profile::is_wall(pts) && bounds.usable() && fitting_is_exact(m, bounds, pts) {
                law_new_box_keeps_wall(m, bounds, pts, mid, wide, self.points@);
            }
        }
    }

    /// The nearest point within `tol` of `world`.
    pub fn hit_test<M: EditMath>(&self, m: &M, world: Point, tol: Scalar) -> (r: Option<usize>)
        ensures
            exists|limit: Scalar, d: Seq<Scalar>| #[trigger]
                editor::is_hit(m, self.points@, world, tol, limit, d, r),
            r matches Some(i) ==> i < self.points.len(),
    {
        nearest_point(m, &self.points, world, tol)
    }

    /// Moves point `i` to `world`, held between its neighbours and inside the
    /// box, and selects it. Nothing happens when there is no such point. A wall
    /// stays one, as long as nothing is lost in rounding.
    pub fn drag<M: EditMath>(&mut self, m: &M, i: usize, world: Point)
        requires
            old(self).bounds.wf(),
        ensures
            final(self).bounds == old(self).bounds,
            final(self).points.len() == old(self).points.len(),
            if i < old(self).points.len() {
                &&& final(self).selection == Some(i)
                &&& is_drawn(
                    m,
                    old(self).bounds,
                    old(self).points@,
                    i as int,
                    world,
                    final(self).points@,
                )
            } else {
                *final(self) == *old(self)
            },
            profile::is_wall(old(self).points@) && old(self).bounds.usable() && exact_enough(
                m,
                old(self).bounds,
                old(self).points@,
            ) && world.z.finite() && world.r.finite() ==> profile::is_wall(final(self).points@),
    {
        let n: usize = self.points.len();
        if i >= n {
            return ;
        }
        let ghost pts = self.points@;
        let gap = self.bounds.z_gap;
        let lo = if i > 0 {
            m.beyond(self.points[i - 1].z, gap)
        } else {
            Scalar { bits: ZERO }
        };
        let hi = if i + 1 < n {
            m.ahead_of(self.points[i + 1].z, gap)
        } else {
            self.bounds.lz
        };
        let ghost mut mid = lo;
        let z = if !hi.lt(lo) {
            world.z.hold(lo.min(hi), hi.max(lo))
        } else if i > 0 && i + 1 < n {
            let half = m.halfway(self.points[i - 1].z, self.points[i + 1].z);
            proof {
                mid = half;
            }
            half
        } else if i == 0 {
            if n > 1 && !lo.lt(self.points[1].z) {
                hi
            } else {
                lo
            }
        } else {
            if self.points[i - 1].z.lt(hi) {
                hi
            } else {
                lo
            }
        };
        let p = Point { z, r: self.bounds.clamp_r(m, world.r) };
        self.points.set(i, p);
        self.selection = Some(i);
        proof {
            assert(drawn(m, self.bounds, pts, i as int, world, lo, hi, mid, self.points@));
            if profile::is_wall(pts) && self.bounds.usable() && exact_enough(m, self.bounds, pts)
                && world.z.finite() && world.r.finite() {
                law_drawing_keeps_wall(m, self.bounds, pts, i as int, world, self.points@);
            }
        }
    }

    /// Inserts a point at `world`, in order and inside the box, selects it and
    /// returns its place. A wall stays one, as long as nothing is lost in
    /// rounding.
    pub fn insert<M: EditMath>(&mut self, m: &M, world: Point) -> (k: usize)
        requires
            old(self).bounds.wf(),
            old(self).points.len() < usize::MAX,
        ensures
            final(self).bounds == old(self).bounds,
            final(self).points.len() == old(self).points.len() + 1,
            final(self).selection == Some(k),
            is_drawn_in(
                m,
                old(self).bounds,
                old(self).points@,
                world,
                k as int,
                final(self).points@,
            ),
            profile::is_wall(old(self).points@) && old(self).bounds.usable() && exact_enough(
                m,
                old(self).bounds,
                old(self).points@,
            ) && world.z.finite() && world.r.finite() ==> profile::is_wall(final(self).points@),
    {
        let ghost pts = self.points@;
        let z = world.z.clamp(Scalar { bits: ZERO }, self.bounds.lz);
        let lead: usize = first_beyond(&self.points, z);
        let k: usize = if lead > 0 && lead == self.points.len() && self.bounds.lz.le(
            self.points[lead - 1].z,
        ) {
            lead - 1
        } else {
            lead
        };
        assert(profile::leading(pts, z, lead as int));
        let r = self.bounds.clamp_r(m, world.r);
        self.points.insert(k, Point { z, r });
        self.drag(m, k, Point { z, r: world.r });
        proof {
            assert(self.bounds.holds_radius(m, world.r, r));
            assert(is_drawn_in(m, self.bounds, pts, world, k as int, self.points@));
            if profile::is_wall(pts) && self.bounds.usable() && exact_enough(m, self.bounds, pts)
                && world.z.finite() && world.r.finite() {
                law_drawn_insertion_keeps_wall(
                    m,
                    self.bounds,
                    pts,
                    world,
                    k as int,
                    self.points@,
                );
            }
        }
        k
    }

    /// Removes point `i` and says whether it did. The ends stay, and so do the
    /// last three points. A wall stays one.
    pub fn remove(&mut self, i: usize) -> (gone: bool)
        ensures
            final(self).bounds == old(self).bounds,
            gone == (0 < i && i + 1 < old(self).points.len() && old(self).points.len()
                > MIN_POINTS),
            if gone {
                &&& final(self).points@ == old(self).points@.remove(i as int)
                &&& final(self).selection == editor::selection_without(old(self).selection, i)
            } else {
                *final(self) == *old(self)
            },
            profile::is_wall(old(self).points@) ==> profile::is_wall(final(self).points@),
    {
        let n: usize = self.points.len();
        if i == 0 || i >= n || i + 1 >= n || n <= MIN_POINTS {
            return false;
        }
        let ghost pts = self.points@;
        let p = self.points.remove(i);
        self.selection = deselect(self.selection, i);
        proof {
            if profile::is_wall(pts) {
                editor::law_removal_keeps_wall(pts, i as int);
            }
        }
        true
    }

    /// The profile of the points, with the throat at the lowest of them.
    pub fn to_profile<M: EditMath>(&self, m: &M) -> (r: Result<WallProfile, CfdError>)
        ensures
            editor::is_profile_of(m, self.points@, r),
            r matches Ok(p) ==> p.valid(),
    {
        profile_of(m, &self.points)
    }
}

/// A dragged point of a drawn wall lands under the cursor as long as that lies in the box
/// and between its neighbours with the gap to both; past one of them it stops there, and
/// all other points stay.
pub proof fn law_drawn_points_follow_the_cursor<M: EditMath>(
    m: &M,
    b: FreeformBounds,
    pts: Seq<Point>,
    i: int,
    world: Point,
    after: Seq<Point>,
    j: int,
) -> (r: (Scalar, Scalar, Scalar))
    requires
        is_drawn(m, b, pts, i, world, after),
        0 <= i < pts.len(),
        0 <= j < pts.len(),
        b.wf(),
    ensures
        ({
            let (lo, hi, top) = r;
            let n = pts.len() as int;
            &&& after.len() == n
            &&& j != i ==> after[j] == pts[j]
            &&& i > 0 ==> call_ensures(M::beyond, (m, pts[i - 1].z, b.z_gap), lo)
            &&& i == 0 ==> lo.bits == ZERO
            &&& i < n - 1 ==> call_ensures(M::ahead_of, (m, pts[i + 1].z, b.z_gap), hi)
            &&& i == n - 1 ==> hi == b.lz
            &&& lo.at_most(world.z) && world.z.at_most(hi) ==> after[i].z == world.z
            &&& lo.at_most(hi) && world.z.below(lo) ==> after[i].z == lo
            &&& lo.at_most(hi) && hi.below(world.z) ==> after[i].z == hi
            &&& call_ensures(M::ceiling, (m, b.lr, b.r_margin), top)
            &&& b.r_min.at_most(world.r) && world.r.at_most(top) ==> after[i].r == world.r
            &&& world.r.below(b.r_min) ==> after[i].r == b.r_min
            &&& b.r_min.at_most(top) && top.below(world.r) ==> after[i].r == top
        }),
{
    let (lo, hi, mid) = choose|lo: Scalar, hi: Scalar, mid: Scalar| #[trigger]
        drawn(m, b, pts, i, world, lo, hi, mid, after);
    let top = choose|top: Scalar| #[trigger]
        call_ensures(M::ceiling, (m, b.lr, b.r_margin), top) && after[i].r
            == world.r.held_between(b.r_min, top.larger(b.r_min));
    if j != i {
        assert(pts.update(i, after[i])[j] == pts[j]);
    }
    (lo, hi, top)
}

/// A point inserted into a drawn wall takes its place in the order of the stations, within
/// the box, and the others keep theirs.
pub proof fn law_drawn_insertions_keep_the_others<M: EditMath>(
    m: &M,
    b: FreeformBounds,
    pts: Seq<Point>,
    world: Point,
    k: int,
    after: Seq<Point>,
    j: int,
)
    requires
        is_drawn_in(m, b, pts, world, k, after),
        0 <= j < pts.len(),
        (Scalar { bits: ZERO }).at_most(world.z) && world.z.at_most(b.lz),
    ensures
        after.len() == pts.len() + 1,
        0 <= k <= pts.len(),
        j < k ==> after[j] == pts[j] && pts[j].z.at_most(world.z),
        j >= k ==> after[j + 1] == pts[j],
        j >= k && pts[j].z.below(b.lz) && j == k ==> !pts[j].z.at_most(world.z),
{
    let z = world.z.held_between(Scalar { bits: ZERO }, b.lz);
    assert(z == world.z);
    let r = choose|r: Scalar|
        {
            &&& #[trigger] b.holds_radius(m, world.r, r)
            &&& is_drawn(
                m,
                b,
                pts.insert(k, Point { z, r }),
                k,
                Point { z, r: world.r },
                after,
            )
        };
    let longer = pts.insert(k, Point { z, r });
    let lead = choose|lead: int| #[trigger]
        profile::leading(pts, z, lead) && k == if lead > 0 && lead == pts.len() && b.lz.at_most(
            pts[lead - 1].z,
        ) {
            lead - 1
        } else {
            lead
        };
    let (lo, hi, mid) = choose|lo: Scalar, hi: Scalar, mid: Scalar| #[trigger]
        drawn(m, b, longer, k, Point { z, r: world.r }, lo, hi, mid, after);
    if j < k {
        assert(longer[j] == pts[j]);
        assert(longer.update(k, after[k])[j] == longer[j]);
    } else {
        assert(longer[j + 1] == pts[j]);
        assert(longer.update(k, after[k])[j + 1] == longer[j + 1]);
    }
}

/// A box that holds a wall already leaves it alone: no point moves where all of them are
/// inside and none is closer to the one before it than the gap.
pub proof fn law_boxes_leave_walls_that_fit<M: EditMath>(
    m: &M,
    b: FreeformBounds,
    pts: Seq<Point>,
    mid: Seq<Point>,
    wide: Seq<Point>,
    after: Seq<Point>,
)
    requires
        is_fitted(m, b, pts, mid, wide, after),
        b.wf(),
        forall|i: int|
            0 <= i < pts.len() ==> {
                &&& (Scalar { bits: ZERO }).at_most((#[trigger] pts[i]).z)
                &&& pts[i].z.at_most(b.lz)
                &&& b.r_min.at_most(pts[i].r)
                &&& forall|top: Scalar| #[trigger]
                    call_ensures(M::ceiling, (m, b.lr, b.r_margin), top) ==> pts[i].r.at_most(top)
            },
        forall|i: int, lo: Scalar|
            1 <= i < pts.len() && #[trigger] call_ensures(
                M::beyond,
                (m, pts[i - 1].z, b.z_gap),
                lo,
            ) ==> lo.at_most(pts[i].z),
    ensures
        after == pts,
{
    assert forall|i: int| 0 <= i < pts.len() implies mid[i] == pts[i] by {
        assert(pulled_point(m, b, pts[i], mid[i]));
        assert((Scalar { bits: ZERO }).at_most(pts[i].z));
        let top = choose|top: Scalar| #[trigger]
            call_ensures(M::ceiling, (m, b.lr, b.r_margin), top) && mid[i].r
                == pts[i].r.held_between(b.r_min, top.larger(b.r_min));
        assert(pts[i].r.at_most(top));
    }
    assert(mid =~= pts);
    lemma_spread_stays(m, b, pts, wide, pts.len() as int);
    assert(wide =~= pts);
    lemma_pressed_stays(m, b, pts, after, 0);
    assert(after =~= pts);
}

proof fn lemma_spread_stays<M: EditMath>(
    m: &M,
    b: FreeformBounds,
    pts: Seq<Point>,
    wide: Seq<Point>,
    n: int,
)
    requires
        spread(m, b, pts, wide),
        0 <= n <= pts.len(),
        forall|i: int, lo: Scalar|
            1 <= i < pts.len() && #[trigger] call_ensures(
                M::beyond,
                (m, pts[i - 1].z, b.z_gap),
                lo,
            ) ==> lo.at_most(pts[i].z),
    ensures
        forall|i: int| 0 <= i < n ==> #[trigger] wide[i] == pts[i],
    decreases n,
{
    if n > 1 {
        lemma_spread_stays(m, b, pts, wide, n - 1);
        assert(pushed_on(m, b, pts, wide, n - 1));
        assert(wide[n - 2] == pts[n - 2]);
        let lo = choose|lo: Scalar| #[trigger]
            call_ensures(M::beyond, (m, wide[n - 2].z, b.z_gap), lo) && wide[n - 1] == (Point {
                z: if pts[n - 1].z.below(lo) {
                    lo
                } else {
                    pts[n - 1].z
                },
                r: pts[n - 1].r,
            });
        assert(lo.at_most(pts[n - 1].z));
        assert(wide[n - 1] == pts[n - 1]);
    }
}

proof fn lemma_pressed_stays<M: EditMath>(
    m: &M,
    b: FreeformBounds,
    pts: Seq<Point>,
    after: Seq<Point>,
    i: int,
)
    requires
        pressed(m, b, pts, after),
        0 <= i <= pts.len(),
        forall|j: int| 0 <= j < pts.len() ==> (#[trigger] pts[j]).z.at_most(b.lz),
    ensures
        forall|j: int| i <= j < pts.len() ==> #[trigger] after[j] == pts[j],
    decreases pts.len() - i,
{
    if i < pts.len() {
        lemma_pressed_stays(m, b, pts, after, i + 1);
        assert(taken_back(m, b, pts, after, i));
        assert(pts[i].z.at_most(b.lz));
        if i + 1 < pts.len() {
            assert(after[i + 1] == pts[i + 1]);
        }
        assert(after[i] == pts[i]);
    }
}

} // verus!
