//! A wall as a polyline over the axis.

use vstd::prelude::*;
use crate::error::CfdError;
use crate::grid::copy_list;
use crate::scalar::{Scalar, ZERO};
use crate::text;
use crate::text::{decimal_text, Show};

verus! {

/// A point of the half-plane: axial station and radius.
#[derive(Debug, Clone, Copy, PartialEq)]
pub struct Point {
    pub z: Scalar,
    pub r: Scalar,
}

impl Point {
    /// Both coordinates are finite.
    pub open spec fn finite(self) -> bool {
        self.z.finite() && self.r.finite()
    }
}

/// The floating-point formulas of a polyline.
pub trait ProfileMath: Show {
    /// The radius at the station `z` of the segment from `a` to `b`.
    fn radius_between(&self, a: Point, b: Point, z: Scalar) -> Scalar;
}

/// A polyline with rising stations and positive radii. It is both what is drawn
/// and what is solved on.
#[derive(Debug, PartialEq)]
pub struct WallProfile {
    pub points: Vec<Point>,
    pub throat_index: usize,
}

impl Clone for WallProfile {
    fn clone(&self) -> (r: WallProfile)
        ensures
            r.points@ == self.points@,
            r.throat_index == self.throat_index,
    {
        WallProfile { points: copy_list(&self.points), throat_index: self.throat_index }
    }
}

/// What is wrong with a profile.
#[derive(Debug, Clone, Copy, PartialEq)]
pub enum ProfileFault {
    TooFew { count: usize },
    NotFinite { index: usize, point: Point },
    NotPositive { index: usize, r: Scalar },
    NotIncreasing { index: usize, before: Scalar, after: Scalar },
    ThroatOutOfRange { throat: usize, count: usize },
}

/// The point can be a point of a wall.
pub open spec fn sound_point(p: Point) -> bool {
    p.z.finite() && p.r.finite() && (Scalar { bits: ZERO }).below(p.r)
}

/// The station of point `i` lies beyond that of the point before it.
pub open spec fn rises(pts: Seq<Point>, i: int) -> bool {
    !pts[i].z.at_most(pts[i - 1].z)
}

/// The points make a wall.
pub open spec fn is_wall(pts: Seq<Point>) -> bool {
    &&& pts.len() >= 2
    &&& forall|i: int| 0 <= i < pts.len() ==> sound_point(#[trigger] pts[i])
    &&& forall|i: int| 1 <= i < pts.len() ==> #[trigger] rises(pts, i)
}

/// `fault` is the first fault: the number of points, then the points in order,
/// then the order of the stations, then the throat.
pub open spec fn is_profile_fault(pts: Seq<Point>, throat: int, fault: ProfileFault) -> bool {
    match fault {
        ProfileFault::TooFew { count } => count == pts.len() && pts.len() < 2,
        ProfileFault::NotFinite { index, point } => {
            &&& pts.len() >= 2
            &&& index < pts.len()
            &&& point == pts[index as int]
            &&& !(point.z.finite() && point.r.finite())
            &&& forall|j: int| 0 <= j < index ==> sound_point(#[trigger] pts[j])
        },
        ProfileFault::NotPositive { index, r } => {
            &&& pts.len() >= 2
            &&& index < pts.len()
            &&& pts[index as int].z.finite()
            &&& r == pts[index as int].r
            &&& r.finite()
            &&& !(Scalar { bits: ZERO }).below(r)
            &&& forall|j: int| 0 <= j < index ==> sound_point(#[trigger] pts[j])
        },
        ProfileFault::NotIncreasing { index, before, after } => {
            &&& pts.len() >= 2
            &&& forall|j: int| 0 <= j < pts.len() ==> sound_point(#[trigger] pts[j])
            &&& 1 <= index < pts.len()
            &&& before == pts[index - 1].z
            &&& after == pts[index as int].z
            &&& !rises(pts, index as int)
            &&& forall|j: int| 1 <= j < index ==> #[trigger] rises(pts, j)
        },
        ProfileFault::ThroatOutOfRange { throat: t, count } => {
            &&& is_wall(pts)
            &&& t == throat
            &&& count == pts.len()
            &&& throat >= pts.len()
        },
    }
}

/// The text of a fault.
pub open spec fn tells<S: Show>(m: &S, fault: ProfileFault, s: Seq<char>) -> bool {
    match fault {
        ProfileFault::TooFew { count } => s == "profile needs at least 2 points, has "@
            + text::decimal(count as int),
        ProfileFault::NotFinite { index, point } => exists|pair: Seq<char>| #[trigger]
            shows_point(m, point, pair) && s == "point "@ + text::decimal(index as int)
                + " is not finite: "@ + pair,
        ProfileFault::NotPositive { index, r } => exists|a: String| #[trigger]
            call_ensures(S::show, (m, r), a) && s == "point "@ + text::decimal(index as int)
                + " has r = "@ + a@ + " <= 0"@,
        ProfileFault::NotIncreasing { index, before, after } => exists|a: String, b: String|
            {
                &&& #[trigger] call_ensures(S::show, (m, before), a)
                &&& #[trigger] call_ensures(S::show, (m, after), b)
                &&& s == "z not strictly increasing at point "@ + text::decimal(index as int)
                    + ": "@ + a@ + " -> "@ + b@
            },
        ProfileFault::ThroatOutOfRange { throat, count } => s == "throat_index "@ + text::decimal(
            throat as int,
        ) + " out of range (len "@ + text::decimal(count as int) + ")"@,
    }
}

/// The text of a point.
pub open spec fn shows_point<S: Show>(m: &S, p: Point, s: Seq<char>) -> bool {
    exists|a: String, b: String|
        {
            &&& #[trigger] call_ensures(S::show_debug, (m, p.z), a)
            &&& #[trigger] call_ensures(S::show_debug, (m, p.r), b)
            &&& s == "["@ + a@ + ", "@ + b@ + "]"@
        }
}

/// The text of a point.
pub fn show_point<S: Show>(m: &S, p: Point) -> (s: String)
    ensures
        shows_point(m, p, s@),
{
    let a = m.show_debug(p.z);
    let b = m.show_debug(p.r);
    let mut s = "[".to_owned();
    s.append(a.as_str());
    s.append(", ");
    s.append(b.as_str());
    s.append("]");
    s
}

impl ProfileFault {
    /// The fault in words.
    pub fn text<S: Show>(&self, m: &S) -> (s: String)
        ensures
            tells(m, *self, s@),
    {
        match *self {
            ProfileFault::TooFew { count } => {
                let mut s = "profile needs at least 2 points, has ".to_owned();
                s.append(decimal_text(count as u64).as_str());
                s
            },
            ProfileFault::NotFinite { index, point } => {
                let pair = show_point(m, point);
                let mut s = "point ".to_owned();
                s.append(decimal_text(index as u64).as_str());
                s.append(" is not finite: ");
                s.append(pair.as_str());
                assert(shows_point(m, point, pair@));
                s
            },
            ProfileFault::NotPositive { index, r } => {
                let a = m.show(r);
                let mut s = "point ".to_owned();
                s.append(decimal_text(index as u64).as_str());
                s.append(" has r = ");
                s.append(a.as_str());
                s.append(" <= 0");
                s
            },
            ProfileFault::NotIncreasing { index, before, after } => {
                let a = m.show(before);
                let b = m.show(after);
                let mut s = "z not strictly increasing at point ".to_owned();
                s.append(decimal_text(index as u64).as_str());
                s.append(": ");
                s.append(a.as_str());
                s.append(" -> ");
                s.append(b.as_str());
                s
            },
            ProfileFault::ThroatOutOfRange { throat, count } => {
                let mut s = "throat_index ".to_owned();
                s.append(decimal_text(throat as u64).as_str());
                s.append(" out of range (len ");
                s.append(decimal_text(count as u64).as_str());
                s.append(")");
                s
            },
        }
    }
}

/// The number of leading points with a station at or below `z`.
pub open spec fn leading(pts: Seq<Point>, z: Scalar, k: int) -> bool {
    &&& 0 <= k <= pts.len()
    &&& forall|j: int| 0 <= j < k ==> (#[trigger] pts[j]).z.at_most(z)
    &&& k < pts.len() ==> !pts[k].z.at_most(z)
}

/// Finds the first point beyond the station `z`.
pub fn first_beyond(pts: &Vec<Point>, z: Scalar) -> (k: usize)
    ensures
        leading(pts@, z, k as int),
{
    let mut k: usize = 0;
    while k < pts.len() && pts[k].z.le(z)
        invariant
            k <= pts.len(),
            forall|j: int| 0 <= j < k ==> (#[trigger] pts[j]).z.at_most(z),
        decreases pts.len() - k,
    {
        k = k + 1;
    }
    k
}

impl WallProfile {
    /// A wall with its throat in range.
    pub open spec fn valid(&self) -> bool {
        is_wall(self.points@) && self.throat_index < self.points.len()
    }

    /// The station `z` is outside of the profile.
    pub open spec fn misses(&self, z: Scalar) -> bool {
        ||| self.points.len() < 2
        ||| z.below(self.points[0].z)
        ||| self.points[self.points.len() - 1].z.below(z)
    }

    /// `r` is the radius at the station `z`: that of the end points beyond them
    /// and that of the segment in between.
    pub open spec fn has_radius<M: ProfileMath>(&self, m: &M, z: Scalar, r: Scalar) -> bool {
        exists|k: int| #[trigger]
            leading(self.points@, z, k) && if k == 0 {
                r == self.points[0].r
            } else if k == self.points.len() {
                r == self.points[k - 1].r
            } else {
                call_ensures(
                    M::radius_between,
                    (m, self.points[k - 1], self.points[k], z),
                    r,
                )
            }
    }

    /// The radius at the station `z`, none outside of the profile.
    pub fn radius_at<M: ProfileMath>(&self, m: &M, z: Scalar) -> (r: Option<Scalar>)
        ensures
            match r {
                None => self.misses(z),
                Some(r) => !self.misses(z) && self.has_radius(m, z, r),
            },
    {
        let n: usize = self.points.len();
        if n < 2 || z.lt(self.points[0].z) || self.points[n - 1].z.lt(z) {
            return None;
        }
        let k: usize = first_beyond(&self.points, z);
        let ghost at = k as int;
        assert(leading(self.points@, z, at));
        if k == 0 {
            return Some(self.points[0].r);
        }
        if k == n {
            return Some(self.points[n - 1].r);
        }
        Some(m.radius_between(self.points[k - 1], self.points[k], z))
    }

    /// The first fault of the profile.
    pub fn find_fault(&self) -> (r: Option<ProfileFault>)
        ensures
            match r {
                None => self.valid(),
                Some(f) => !self.valid() && is_profile_fault(
                    self.points@,
                    self.throat_index as int,
                    f,
                ),
            },
    {
        let n: usize = self.points.len();
        if n < 2 {
            return Some(ProfileFault::TooFew { count: n });
        }
        let mut i: usize = 0;
        while i < n
            invariant
                n == self.points.len(),
                n >= 2,
                i <= n,
                forall|j: int| 0 <= j < i ==> sound_point(#[trigger] self.points@[j]),
            decreases n - i,
        {
            let p = self.points[i];
            if !(p.z.is_finite() && p.r.is_finite()) {
                assert(!sound_point(self.points@[i as int]));
                return Some(ProfileFault::NotFinite { index: i, point: p });
            }
            if p.r.le(Scalar { bits: ZERO }) {
                assert(!sound_point(self.points@[i as int]));
                return Some(ProfileFault::NotPositive { index: i, r: p.r });
            }
            i = i + 1;
        }
        i = 1;
        while i < n
            invariant
                n == self.points.len(),
                1 <= i <= n,
                forall|j: int| 0 <= j < n ==> sound_point(#[trigger] self.points@[j]),
                forall|j: int| 1 <= j < i ==> #[trigger] rises(self.points@, j),
            decreases n - i,
        {
            let before = self.points[i - 1].z;
            let after = self.points[i].z;
            if after.le(before) {
                assert(!rises(self.points@, i as int));
                return Some(ProfileFault::NotIncreasing { index: i, before, after });
            }
            i = i + 1;
        }
        if self.throat_index >= n {
            return Some(
                ProfileFault::ThroatOutOfRange { throat: self.throat_index, count: n },
            );
        }
        None
    }

    /// Checks the profile.
    pub fn validate<S: Show>(&self, m: &S) -> (r: Result<(), CfdError>)
        ensures
            match r {
                Ok(_) => self.valid(),
                Err(e) => {
                    &&& !self.valid()
                    &&& exists|f: ProfileFault|
                        {
                            &&& #[trigger] is_profile_fault(
                                self.points@,
                                self.throat_index as int,
                                f,
                            )
                            &&& e matches CfdError::Geometry(s) && tells(m, f, s@)
                        }
                },
            },
    {
        match self.find_fault() {
            None => Ok(()),
            Some(f) => Err(CfdError::Geometry(f.text(m))),
        }
    }
}

/// The stations of a wall rise from each point to every later one.
pub proof fn law_stations_rise(pts: Seq<Point>, i: int, j: int)
    requires
        is_wall(pts),
        0 <= i < j < pts.len(),
    ensures
        pts[i].z.below(pts[j].z),
    decreases j - i,
{
    assert(rises(pts, j));
    assert(sound_point(pts[j]) && sound_point(pts[j - 1]));
    if i < j - 1 {
        law_stations_rise(pts, i, j - 1);
    }
}

/// Between its ends a wall has one segment around every station, and the radius
/// is taken from that segment.
pub proof fn law_segment_brackets_station(p: &WallProfile, z: Scalar, k: int)
    requires
        is_wall(p.points@),
        p.points[0].z.at_most(z),
        z.below(p.points[p.points.len() - 1].z),
        leading(p.points@, z, k),
    ensures
        1 <= k < p.points.len(),
        p.points[k - 1].z.at_most(z),
        z.below(p.points[k].z),
{
    assert(p.points@[0].z.at_most(z));
    assert(sound_point(p.points@[p.points.len() - 1]));
    if k == p.points.len() {
        assert(p.points@[k - 1].z.at_most(z));
    }
    assert(sound_point(p.points@[k]));
}

/// A wall goes through its points: where a segment has the radius of its first point at
/// that point's station, the radius at the station of a point is that point's.
pub proof fn law_walls_go_through_their_points<M: ProfileMath>(
    m: &M,
    p: &WallProfile,
    i: int,
    r: Scalar,
)
    requires
        is_wall(p.points@),
        0 <= i < p.points.len(),
        p.has_radius(m, p.points[i].z, r),
        forall|a: Point, b: Point, x: Scalar| #[trigger]
            call_ensures(M::radius_between, (m, a, b, a.z), x) ==> x == a.r,
    ensures
        r == p.points[i].r,
{
    let pts = p.points@;
    let z = pts[i].z;
    let k = choose|k: int| #[trigger]
        leading(pts, z, k) && if k == 0 {
            r == p.points[0].r
        } else if k == p.points.len() {
            r == p.points[k - 1].r
        } else {
            call_ensures(M::radius_between, (m, p.points[k - 1], p.points[k], z), r)
        };
    assert(sound_point(pts[i]));
    if k <= i {
        assert(!pts[k].z.at_most(z));
        if k < i {
            law_stations_rise(pts, k, i);
        }
    }
    if k > i + 1 {
        law_stations_rise(pts, i, k - 1);
        assert(pts[k - 1].z.at_most(z));
    }
    assert(k == i + 1);
}

/// Outside of its ends a wall has no radius, and within them it has one.
pub proof fn law_walls_end_at_their_ends(p: &WallProfile, z: Scalar)
    requires
        is_wall(p.points@),
        !z.nan(),
    ensures
        p.misses(z) <==> z.below(p.points[0].z) || p.points[p.points.len() - 1].z.below(z),
{
}

/// A fault of a profile is so, and everything that is checked before it is in order.
pub proof fn law_profile_faults_are_so(pts: Seq<Point>, throat: int, f: ProfileFault)
    requires
        is_profile_fault(pts, throat, f),
        0 <= throat,
    ensures
        match f {
            ProfileFault::TooFew { count } => count == pts.len() && pts.len() < 2,
            ProfileFault::NotFinite { index, point } => point == pts[index as int] && (
            !point.z.finite() || !point.r.finite()),
            ProfileFault::NotPositive { index, r } => r == pts[index as int].r && r.finite()
                && !(Scalar { bits: ZERO }).below(r),
            ProfileFault::NotIncreasing { index, before, after } => index >= 1 && before
                == pts[index - 1].z && after == pts[index as int].z && after.at_most(before),
            ProfileFault::ThroatOutOfRange { throat: t, count } => t == throat && count
                == pts.len() && t >= count,
        },
        !(f is ThroatOutOfRange) ==> !is_wall(pts),
{
    if let ProfileFault::NotIncreasing { index, .. } = f {
        assert(sound_point(pts[index as int]));
        assert(sound_point(pts[index - 1]));
        assert(!rises(pts, index as int));
    }
    if let ProfileFault::NotFinite { index, .. } = f {
        assert(!sound_point(pts[index as int]));
    }
    if let ProfileFault::NotPositive { index, .. } = f {
        assert(!sound_point(pts[index as int]));
    }
}

} // verus!
