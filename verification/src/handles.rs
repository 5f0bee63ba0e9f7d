//! The handles by which a nozzle wall is edited.
//!
//! A wall has one handle for each number that can be dragged. A drag towards a
//! place stops at the last wall that can still be built.

use vstd::prelude::*;
use crate::contour::{ContourKind, NozzleSpec};
use crate::curve::{BellGeometry, CurveMath, NozzleCurve, Piece, MINUS_ONE, PARAMETER_HIGH};
use crate::error;
use crate::error::CfdError;
use crate::profile::Point;
use crate::scalar::{Scalar, ONE, ZERO};
use crate::text;
use crate::text::{decimal_text, Show};

verus! {

/// The pattern of the smallest length and radius that a drag asks for, 1e-6.
pub const SMALLEST_LENGTH: u64 = 0x3EB0_C6F7_A0B5_ED8D;

/// The pattern of 0.1 degrees.
pub const TENTH: u64 = 0x3FB9_9999_9999_999A;

/// The pattern of 0.2 degrees.
pub const FIFTH: u64 = 0x3FC9_9999_9999_999A;

/// The pattern of 89 degrees.
pub const STEEP: u64 = 0x4056_4000_0000_0000;

/// The pattern of 89.9 degrees.
pub const STEEPEST: u64 = 0x4056_7999_9999_999A;

/// The halvings of a search for the last wall that can be built.
pub const DRAG_HALVINGS: usize = 40;

/// The halvings of a search for a half angle.
pub const ANGLE_HALVINGS: usize = 60;

/// The last of the pieces that may only fall.
pub const LAST_FALLING: usize = 2;

/// The numbers of a wall that can be edited.
#[derive(Debug, Clone, Copy, PartialEq, Eq, Hash, Structural)]
pub enum HandleId {
    ChamberRadius,
    ChamberEnd,
    ConvergeAngle,
    ThroatArcUp,
    ThroatArcDown,
    ThetaN,
    ThetaE,
    ExitLip,
    ControlPoint,
}

/// The name of a handle.
pub open spec fn handle_name(id: HandleId) -> Seq<char> {
    match id {
        HandleId::ChamberRadius => "chamber radius"@,
        HandleId::ChamberEnd => "chamber end"@,
        HandleId::ConvergeAngle => "converge half-angle"@,
        HandleId::ThroatArcUp => "throat arc R1"@,
        HandleId::ThroatArcDown => "throat arc R2"@,
        HandleId::ThetaN => "theta_n"@,
        HandleId::ThetaE => "theta_e"@,
        HandleId::ExitLip => "exit lip"@,
        HandleId::ControlPoint => "control point Q"@,
    }
}

impl HandleId {
    /// The name of the handle.
    pub fn label(self) -> (r: &'static str)
        ensures
            r@ == handle_name(self),
    {
        match self {
            HandleId::ChamberRadius => "chamber radius",
            HandleId::ChamberEnd => "chamber end",
            HandleId::ConvergeAngle => "converge half-angle",
            HandleId::ThroatArcUp => "throat arc R1",
            HandleId::ThroatArcDown => "throat arc R2",
            HandleId::ThetaN => "theta_n",
            HandleId::ThetaE => "theta_e",
            HandleId::ExitLip => "exit lip",
            HandleId::ControlPoint => "control point Q",
        }
    }
}

/// How a handle is drawn and picked.
#[derive(Debug, Clone, Copy, PartialEq)]
pub enum HandleKind {
    /// Drawn at its anchor.
    Point,
    /// Drawn beside its anchor along a direction, and dragged by angle.
    Tangent { dir: Point },
    /// Drawn, never picked.
    Derived,
}

/// A handle, in throat radii.
#[derive(Debug, Clone, Copy, PartialEq)]
pub struct Handle {
    pub id: HandleId,
    pub kind: HandleKind,
    pub anchor: Point,
    pub value: Scalar,
    pub unit: &'static str,
    pub pickable: bool,
}

/// Where a drag ended, and why it went no further.
#[derive(Debug, Clone, PartialEq)]
pub struct DragOutcome {
    pub curve: NozzleCurve,
    pub clamped: Option<String>,
}

/// The floating-point formulas of the handles.
pub trait HandleMath: CurveMath {
    /// The middle of the converging cone.
    fn converge_middle(&self, shoulder: Point, up: Point) -> Point;

    /// The point of a throat arc at half of a wall angle in radians.
    fn arc_middle(&self, z_t: Scalar, radius: Scalar, sign: Scalar, angle: Scalar) -> Point;

    /// The downstream direction at a wall angle in radians.
    fn along(&self, angle: Scalar) -> Point;

    /// The upstream direction at a wall angle in radians.
    fn against(&self, angle: Scalar) -> Point;

    /// The square of a radius.
    fn area_of(&self, r: Scalar) -> Scalar;

    /// The angle in degrees down from the shoulder to a point.
    fn converge_angle(&self, shoulder: Point, world: Point) -> Scalar;

    /// The radius of the arc whose middle lies at a height, by its wall angle in
    /// radians.
    fn arc_through(&self, angle: Scalar, r: Scalar) -> Scalar;

    /// The angle in degrees up from an anchor to a point behind it.
    fn angle_behind(&self, anchor: Point, world: Point) -> Scalar;

    /// The angle in degrees down from an anchor to a point before it.
    fn angle_before(&self, anchor: Point, world: Point) -> Scalar;

    /// How far a station lies behind the throat.
    fn past_throat(&self, z: Scalar, z_t: Scalar) -> Scalar;

    /// The value a share of the way from one to another.
    fn part_way(&self, from: Scalar, to: Scalar, share: Scalar) -> Scalar;

    /// The middle of an interval.
    fn middle(&self, lo: Scalar, hi: Scalar) -> Scalar;
}

/// A handle holds these values.
pub open spec fn is_handle(
    h: Handle,
    id: HandleId,
    kind: HandleKind,
    anchor: Point,
    value: Scalar,
    unit: Seq<char>,
) -> bool {
    &&& h.id == id
    &&& h.kind == kind
    &&& h.anchor == anchor
    &&& h.value == value
    &&& h.unit@ == unit
    &&& h.pickable == (id != HandleId::ControlPoint)
}

fn point_handle(id: HandleId, anchor: Point, value: Scalar, unit: &'static str) -> (h: Handle)
    requires
        id != HandleId::ControlPoint,
    ensures
        is_handle(h, id, HandleKind::Point, anchor, value, unit@),
{
    Handle { id, kind: HandleKind::Point, anchor, value, unit, pickable: true }
}

/// Text that tells of a span of a piece.
pub open spec fn tells_span<S: Show>(
    m: &S,
    before: Seq<char>,
    i: int,
    behind: Seq<char>,
    x: Scalar,
    y: Scalar,
    s: Seq<char>,
) -> bool {
    exists|a: String, b: String|
        {
            &&& #[trigger] call_ensures(S::show, (m, x), a)
            &&& #[trigger] call_ensures(S::show, (m, y), b)
            &&& s == before + text::decimal(i) + behind + a@ + " -> "@ + b@ + ")"@
        }
}

fn tell_span<S: Show>(m: &S, before: &str, i: usize, behind: &str, x: Scalar, y: Scalar) -> (s:
    String)
    ensures
        tells_span(m, before@, i as int, behind@, x, y, s@),
{
    let a = m.show(x);
    let b = m.show(y);
    let mut s = before.to_owned();
    s.append(decimal_text(i as u64).as_str());
    s.append(behind);
    s.append(a.as_str());
    s.append(" -> ");
    s.append(b.as_str());
    s.append(")");
    assert(s@ == before@ + text::decimal(i as int) + behind@ + a@ + " -> "@ + b@ + ")"@);
    s
}

/// The ends of piece `i`, and the radius that its end may reach, with a hair to
/// spare.
pub open spec fn spans<M: CurveMath>(
    m: &M,
    v: Seq<Piece>,
    i: int,
    a: Point,
    b: Point,
    limit: Scalar,
) -> bool {
    &&& v[i].has_point(m, Scalar { bits: ZERO }, a)
    &&& v[i].has_point(m, Scalar { bits: ONE }, b)
    &&& if i <= LAST_FALLING {
        call_ensures(M::hair_beyond, (m, a.r), limit)
    } else {
        call_ensures(M::hair_before, (m, a.r), limit)
    }
}

/// Piece `i` advances, and falls before the throat or rises behind it.
pub open spec fn goes_well(i: int, a: Point, b: Point, limit: Scalar) -> bool {
    &&& a.z.below(b.z)
    &&& if i <= LAST_FALLING {
        !limit.below(b.r)
    } else {
        !b.r.below(limit)
    }
}

/// Piece `i` was found to go well.
pub open spec fn fits<M: CurveMath>(m: &M, v: Seq<Piece>, i: int) -> bool {
    exists|a: Point, b: Point, limit: Scalar| #[trigger]
        spans(m, v, i, a, b, limit) && goes_well(i, a, b, limit)
}

/// Text that tells what is wrong with piece `i`.
pub open spec fn tells_misfit<M: CurveMath>(m: &M, i: int, a: Point, b: Point, s: Seq<char>) -> bool {
    if !a.z.below(b.z) {
        tells_span(m, "wall piece "@, i, " does not advance in z ("@, a.z, b.z, s)
    } else if i <= LAST_FALLING {
        tells_span(m, "converging wall piece "@, i, " widens ("@, a.r, b.r, s)
    } else {
        tells_span(m, "diverging wall piece "@, i, " narrows ("@, a.r, b.r, s)
    }
}

/// Piece `i` is the first that does not go well.
pub open spec fn is_misfit<M: CurveMath>(
    m: &M,
    v: Seq<Piece>,
    i: int,
    a: Point,
    b: Point,
    limit: Scalar,
    e: CfdError,
) -> bool {
    &&& 0 <= i < v.len()
    &&& forall|j: int| 0 <= j < i ==> #[trigger] fits(m, v, j)
    &&& spans(m, v, i, a, b, limit)
    &&& !goes_well(i, a, b, limit)
    &&& e matches CfdError::Geometry(s) && tells_misfit(m, i, a, b, s@)
}

/// The verdict on the pieces of a wall.
pub open spec fn is_shape_verdict<M: CurveMath>(
    m: &M,
    v: Seq<Piece>,
    r: Result<(), CfdError>,
) -> bool {
    match r {
        Ok(_) => forall|j: int| 0 <= j < v.len() ==> #[trigger] fits(m, v, j),
        Err(e) => exists|i: int, a: Point, b: Point, limit: Scalar| #[trigger]
            is_misfit(m, v, i, a, b, limit, e),
    }
}

fn check_shape<M: CurveMath>(m: &M, v: &Vec<Piece>) -> (r: Result<(), CfdError>)
    ensures
        is_shape_verdict(m, v@, r),
{
    let mut i: usize = 0;
    while i < v.len()
        invariant
            i <= v.len(),
            forall|j: int| 0 <= j < i ==> #[trigger] fits(m, v@, j),
        decreases v.len() - i,
    {
        let a = v[i].start(m);
        let b = v[i].end(m);
        let falling = i <= LAST_FALLING;
        let limit = if falling {
            m.hair_beyond(a.r)
        } else {
            m.hair_before(a.r)
        };
        let ghost at = i as int;
        assert(spans(m, v@, at, a, b, limit));
        let advances = a.z.lt(b.z);
        let keeps = if falling {
            !limit.lt(b.r)
        } else {
            !b.r.lt(limit)
        };
        if !(advances && keeps) {
            let s = if !advances {
                tell_span(m, "wall piece ", i, " does not advance in z (", a.z, b.z)
            } else if falling {
                tell_span(m, "converging wall piece ", i, " widens (", a.r, b.r)
            } else {
                tell_span(m, "diverging wall piece ", i, " narrows (", a.r, b.r)
            };
            let e = CfdError::Geometry(s);
            assert(is_misfit(m, v@, at, a, b, limit, e));
            return Err(e);
        }
        assert(fits(m, v@, at));
        i = i + 1;
    }
    Ok(())
}

/// The bracket of a half angle after one halving.
pub open spec fn narrows<M: HandleMath>(
    m: &M,
    area_ratio: Scalar,
    arc: Scalar,
    length: Scalar,
    lo: Scalar,
    hi: Scalar,
    mid: Scalar,
    reach: Scalar,
    lo2: Scalar,
    hi2: Scalar,
) -> bool {
    &&& call_ensures(M::middle, (m, lo, hi), mid)
    &&& call_ensures(M::cone_length, (m, area_ratio, arc, mid), reach)
    &&& if length.below(reach) {
        lo2 == mid && hi2 == hi
    } else {
        lo2 == lo && hi2 == mid
    }
}

/// `lo` to `hi` is the bracket of a half angle after `n` halvings.
pub open spec fn is_angle_bracket<M: HandleMath>(
    m: &M,
    area_ratio: Scalar,
    arc: Scalar,
    length: Scalar,
    n: int,
    lo: Scalar,
    hi: Scalar,
) -> bool
    decreases n,
{
    if n <= 0 {
        lo.bits == FIFTH && hi.bits == STEEP
    } else {
        exists|lo0: Scalar, hi0: Scalar, mid: Scalar, reach: Scalar| #[trigger]
            narrows(m, area_ratio, arc, length, lo0, hi0, mid, reach, lo, hi)
                && is_angle_bracket(m, area_ratio, arc, length, n - 1, lo0, hi0)
    }
}

/// The lengths of the flattest and of the steepest cone.
pub open spec fn are_reaches<M: HandleMath>(
    m: &M,
    area_ratio: Scalar,
    arc: Scalar,
    longest: Scalar,
    shortest: Scalar,
) -> bool {
    &&& call_ensures(M::cone_length, (m, area_ratio, arc, Scalar { bits: FIFTH }), longest)
    &&& call_ensures(M::cone_length, (m, area_ratio, arc, Scalar { bits: STEEP }), shortest)
}

/// `x` is the half angle of the cone of a length.
pub open spec fn is_half_angle<M: HandleMath>(
    m: &M,
    area_ratio: Scalar,
    arc: Scalar,
    length: Scalar,
    x: Scalar,
) -> bool {
    exists|longest: Scalar, shortest: Scalar|
        {
            &&& #[trigger] are_reaches(m, area_ratio, arc, longest, shortest)
            &&& if longest.at_most(length) {
                x.bits == FIFTH
            } else if length.at_most(shortest) {
                x.bits == STEEP
            } else {
                exists|lo: Scalar, hi: Scalar| #[trigger]
                    call_ensures(M::middle, (m, lo, hi), x) && is_angle_bracket(
                        m,
                        area_ratio,
                        arc,
                        length,
                        ANGLE_HALVINGS as int,
                        lo,
                        hi,
                    )
            }
        }
}

fn cone_angle_for_length<M: HandleMath>(
    m: &M,
    area_ratio: Scalar,
    arc: Scalar,
    length: Scalar,
) -> (x: Scalar)
    ensures
        is_half_angle(m, area_ratio, arc, length, x),
{
    let mut lo = Scalar { bits: FIFTH };
    let mut hi = Scalar { bits: STEEP };
    let longest = m.cone_length(area_ratio, arc, lo);
    let shortest = m.cone_length(area_ratio, arc, hi);
    assert(are_reaches(m, area_ratio, arc, longest, shortest));
    if longest.le(length) {
        return lo;
    }
    if length.le(shortest) {
        return hi;
    }
    let mut n: usize = 0;
    while n < ANGLE_HALVINGS
        invariant
            n <= ANGLE_HALVINGS,
            is_angle_bracket(m, area_ratio, arc, length, n as int, lo, hi),
        decreases ANGLE_HALVINGS - n,
    {
        let ghost lo0 = lo;
        let ghost hi0 = hi;
        let mid = m.middle(lo, hi);
        let reach = m.cone_length(area_ratio, arc, mid);
        if length.lt(reach) {
            lo = mid;
        } else {
            hi = mid;
        }
        n = n + 1;
        assert(narrows(m, area_ratio, arc, length, lo0, hi0, mid, reach, lo, hi));
    }
    m.middle(lo, hi)
}

impl NozzleCurve {
    /// The verdict on the shape of the wall.
    pub open spec fn has_feasibility<M: CurveMath>(self, m: &M, r: Result<(), CfdError>) -> bool {
        ||| r matches Err(e) && self.laid_out(m, Err(e))
        ||| exists|v: Vec<Piece>| #[trigger] self.laid_out(m, Ok(v)) && is_shape_verdict(m, v@, r)
    }

    /// Whether the wall can be built: a sound spec whose pieces advance, fall to the
    /// throat and rise behind it.
    pub fn feasible<M: CurveMath>(&self, m: &M) -> (r: Result<(), CfdError>)
        ensures
            self.has_feasibility(m, r),
    {
        let v = match self.pieces(m) {
            Err(e) => {
                return Err(e);
            },
            Ok(v) => v,
        };
        assert(self.laid_out(m, Ok(v)));
        check_shape(m, &v)
    }

    /// `x` is the length behind the throat as a share of the reference length.
    pub open spec fn has_length_fraction<M: CurveMath>(self, m: &M, x: Scalar) -> bool {
        match self.spec.contour {
            ContourKind::ParabolicBell { bell_percent } => x == bell_percent,
            ContourKind::DirectBell { length_fraction, .. } => x == length_fraction,
            ContourKind::Conical { .. } => {
                ||| {
                    &&& x.bits == ONE
                    &&& exists|e: CfdError| #[trigger] self.has_divergent_len(m, Err(e))
                }
                ||| exists|l: Scalar, reference: Scalar|
                    {
                        &&& #[trigger] self.has_divergent_len(m, Ok(l))
                        &&& #[trigger] call_ensures(
                            M::reference_length,
                            (m, self.spec.area_ratio),
                            reference,
                        )
                        &&& call_ensures(M::over, (m, l, reference), x)
                    }
            },
        }
    }

    /// The length behind the throat as a share of the reference length.
    pub fn length_fraction<M: CurveMath>(&self, m: &M) -> (x: Scalar)
        ensures
            self.has_length_fraction(m, x),
    {
        match self.spec.contour {
            ContourKind::ParabolicBell { bell_percent } => bell_percent,
            ContourKind::DirectBell { length_fraction, .. } => length_fraction,
            ContourKind::Conical { .. } => {
                match self.divergent_len_rt(m) {
                    Err(e) => {
                        assert(self.has_divergent_len(m, Err(e)));
                        Scalar { bits: ONE }
                    },
                    Ok(l) => {
                        assert(self.has_divergent_len(m, Ok(l)));
                        let reference = m.reference_length(self.spec.area_ratio);
                        m.over(l, reference)
                    },
                }
            },
        }
    }

    /// The values behind the four handles before the throat arc.
    pub open spec fn has_upstream_numbers<M: HandleMath>(
        self,
        m: &M,
        z_t: Scalar,
        rc: Scalar,
        beta: Scalar,
        up: Point,
    ) -> bool {
        let s = self.spec;
        &&& call_ensures(M::throat_station, (m, s, self.chamber_len_rt), z_t)
        &&& call_ensures(M::square_root, (m, s.contraction_ratio), rc)
        &&& call_ensures(M::radians, (m, s.converge_half_angle_deg), beta)
        &&& call_ensures(M::upstream_tangency, (m, s, z_t), up)
    }

    /// The four handles that every wall begins with.
    pub open spec fn has_upstream_handles<M: HandleMath>(
        self,
        m: &M,
        z_t: Scalar,
        rc: Scalar,
        beta: Scalar,
        up: Point,
        mid: Point,
        crest: Point,
        v: Seq<Handle>,
    ) -> bool {
        let s = self.spec;
        let head = Point { z: Scalar { bits: ZERO }, r: rc };
        let shoulder = Point { z: self.chamber_len_rt, r: rc };
        let kind = HandleKind::Point;
        &&& self.has_upstream_numbers(m, z_t, rc, beta, up)
        &&& call_ensures(M::converge_middle, (m, shoulder, up), mid)
        &&& call_ensures(
            M::arc_middle,
            (m, z_t, s.throat_arc_up, Scalar { bits: MINUS_ONE }, beta),
            crest,
        )
        &&& is_handle(v[0], HandleId::ChamberRadius, kind, head, s.contraction_ratio, "ε_c"@)
        &&& is_handle(v[1], HandleId::ChamberEnd, kind, shoulder, self.chamber_len_rt, "r_t"@)
        &&& is_handle(
            v[2],
            HandleId::ConvergeAngle,
            kind,
            mid,
            s.converge_half_angle_deg,
            "°"@,
        )
        &&& is_handle(v[3], HandleId::ThroatArcUp, kind, crest, s.throat_arc_up, "R_t"@)
    }

    /// The two handles that a cone has besides.
    pub open spec fn has_cone_handles<M: HandleMath>(
        self,
        m: &M,
        half_angle_deg: Scalar,
        z_t: Scalar,
        alpha: Scalar,
        crest: Point,
        length: Scalar,
        lip: Point,
        v: Seq<Handle>,
    ) -> bool {
        let s = self.spec;
        let kind = HandleKind::Point;
        &&& v.len() == 6
        &&& call_ensures(M::radians, (m, half_angle_deg), alpha)
        &&& call_ensures(
            M::arc_middle,
            (m, z_t, s.throat_arc_down, Scalar { bits: ONE }, alpha),
            crest,
        )
        &&& self.has_divergent_len(m, Ok(length))
        &&& call_ensures(M::farther, (m, z_t, length), lip.z)
        &&& call_ensures(M::square_root, (m, s.area_ratio), lip.r)
        &&& is_handle(v[4], HandleId::ThroatArcDown, kind, crest, s.throat_arc_down, "R_t"@)
        &&& is_handle(v[5], HandleId::ExitLip, kind, lip, s.area_ratio, "ε"@)
    }

    /// The angles of a bell in radians, and the directions of its wall.
    pub open spec fn has_bell_directions<M: HandleMath>(
        self,
        m: &M,
        b: BellGeometry,
        tn: Scalar,
        te: Scalar,
        behind: Point,
        before: Point,
    ) -> bool {
        &&& self.has_bell(m, Ok(b))
        &&& call_ensures(M::radians, (m, b.theta_n_deg), tn)
        &&& call_ensures(M::radians, (m, b.theta_e_deg), te)
        &&& call_ensures(M::along, (m, tn), behind)
        &&& call_ensures(M::against, (m, te), before)
    }

    /// The five handles that a bell has besides.
    pub open spec fn has_bell_handles<M: HandleMath>(
        self,
        m: &M,
        z_t: Scalar,
        b: BellGeometry,
        tn: Scalar,
        crest: Point,
        n: Point,
        q: Point,
        e: Point,
        behind: Point,
        before: Point,
        v: Seq<Handle>,
    ) -> bool {
        let s = self.spec;
        let kind = HandleKind::Point;
        &&& v.len() == 9
        &&& exists|te: Scalar| #[trigger] self.has_bell_directions(m, b, tn, te, behind, before)
        &&& call_ensures(
            M::arc_middle,
            (m, z_t, s.throat_arc_down, Scalar { bits: ONE }, tn),
            crest,
        )
        &&& call_ensures(M::shifted, (m, b.n, z_t), n)
        &&& call_ensures(M::shifted, (m, b.q, z_t), q)
        &&& call_ensures(M::shifted, (m, b.e, z_t), e)
        &&& is_handle(v[4], HandleId::ThroatArcDown, kind, crest, s.throat_arc_down, "R_t"@)
        &&& is_handle(
            v[5],
            HandleId::ThetaN,
            HandleKind::Tangent { dir: behind },
            n,
            b.theta_n_deg,
            "°"@,
        )
        &&& is_handle(
            v[6],
            HandleId::ThetaE,
            HandleKind::Tangent { dir: before },
            e,
            b.theta_e_deg,
            "°"@,
        )
        &&& is_handle(v[7], HandleId::ExitLip, kind, e, s.area_ratio, "ε"@)
        &&& is_handle(v[8], HandleId::ControlPoint, HandleKind::Derived, q, b.q.z, "r_t"@)
    }

    /// The handles behind the throat.
    pub open spec fn has_downstream_handles<M: HandleMath>(
        self,
        m: &M,
        z_t: Scalar,
        v: Seq<Handle>,
    ) -> bool {
        match self.spec.contour {
            ContourKind::Conical { half_angle_deg } => exists|
                alpha: Scalar,
                crest: Point,
                length: Scalar,
                lip: Point,
            | #[trigger]
                self.has_cone_handles(m, half_angle_deg, z_t, alpha, crest, length, lip, v),
            _ => exists|
                b: BellGeometry,
                tn: Scalar,
                crest: Point,
                n: Point,
                q: Point,
                e: Point,
                behind: Point,
                before: Point,
            | #[trigger]
                self.has_bell_handles(m, z_t, b, tn, crest, n, q, e, behind, before, v),
        }
    }

    /// `v` are the handles of the wall.
    pub open spec fn are_handles<M: HandleMath>(self, m: &M, v: Seq<Handle>) -> bool {
        exists|z_t: Scalar, rc: Scalar, beta: Scalar, up: Point, mid: Point, crest: Point|
            #[trigger]
            self.has_upstream_handles(m, z_t, rc, beta, up, mid, crest, v)
                && self.has_downstream_handles(m, z_t, v)
    }

    /// The handles of the wall: nine for a bell, six for a cone.
    pub fn handles<M: HandleMath>(&self, m: &M) -> (r: Result<Vec<Handle>, CfdError>)
        ensures
            match r {
                Ok(v) => {
                    &&& self.checked(m, Ok(()))
                    &&& self.are_handles(m, v@)
                    &&& v.len() == if self.spec.contour is Conical {
                        6int
                    } else {
                        9
                    }
                },
                Err(e) => self.laid_out(m, Err(e)),
            },
    {
        match self.validate(m) {
            Err(e) => {
                return Err(e);
            },
            Ok(_) => {},
        }
        let s = self.spec;
        let rc = m.square_root(s.contraction_ratio);
        let beta = m.radians(s.converge_half_angle_deg);
        let z_t = self.throat_z_rt(m);
        let up = m.upstream_tangency(s, z_t);
        let head = Point { z: Scalar { bits: ZERO }, r: rc };
        let shoulder = Point { z: self.chamber_len_rt, r: rc };
        let mid = m.converge_middle(shoulder, up);
        let top = m.arc_middle(z_t, s.throat_arc_up, Scalar { bits: MINUS_ONE }, beta);
        assert(self.has_upstream_numbers(m, z_t, rc, beta, up));
        let mut v: Vec<Handle> = Vec::new();
        v.push(point_handle(HandleId::ChamberRadius, head, s.contraction_ratio, "ε_c"));
        v.push(point_handle(HandleId::ChamberEnd, shoulder, self.chamber_len_rt, "r_t"));
        v.push(point_handle(HandleId::ConvergeAngle, mid, s.converge_half_angle_deg, "°"));
        v.push(point_handle(HandleId::ThroatArcUp, top, s.throat_arc_up, "R_t"));
        match s.contour {
            ContourKind::Conical { half_angle_deg } => {
                let alpha = m.radians(half_angle_deg);
                let crest = m.arc_middle(z_t, s.throat_arc_down, Scalar { bits: ONE }, alpha);
                let length = match self.divergent_len_rt(m) {
                    Err(e) => {
                        return Err(e);
                    },
                    Ok(l) => l,
                };
                let lip = Point { z: m.farther(z_t, length), r: m.square_root(s.area_ratio) };
                v.push(point_handle(HandleId::ThroatArcDown, crest, s.throat_arc_down, "R_t"));
                v.push(point_handle(HandleId::ExitLip, lip, s.area_ratio, "ε"));
                assert(self.has_cone_handles(
                    m,
                    half_angle_deg,
                    z_t,
                    alpha,
                    crest,
                    length,
                    lip,
                    v@,
                ));
            },
            _ => {
                let b = match self.bell(m) {
                    Err(e) => {
                        return Err(e);
                    },
                    Ok(b) => b,
                };
                let tn = m.radians(b.theta_n_deg);
                let te = m.radians(b.theta_e_deg);
                let n = m.shifted(b.n, z_t);
                let q = m.shifted(b.q, z_t);
                let e = m.shifted(b.e, z_t);
                let crest = m.arc_middle(z_t, s.throat_arc_down, Scalar { bits: ONE }, tn);
                let behind = m.along(tn);
                let before = m.against(te);
                assert(self.has_bell_directions(m, b, tn, te, behind, before));
                v.push(point_handle(HandleId::ThroatArcDown, crest, s.throat_arc_down, "R_t"));
                v.push(
                    Handle {
                        id: HandleId::ThetaN,
                        kind: HandleKind::Tangent { dir: behind },
                        anchor: n,
                        value: b.theta_n_deg,
                        unit: "°",
                        pickable: true,
                    },
                );
                v.push(
                    Handle {
                        id: HandleId::ThetaE,
                        kind: HandleKind::Tangent { dir: before },
                        anchor: e,
                        value: b.theta_e_deg,
                        unit: "°",
                        pickable: true,
                    },
                );
                v.push(point_handle(HandleId::ExitLip, e, s.area_ratio, "ε"));
                v.push(
                    Handle {
                        id: HandleId::ControlPoint,
                        kind: HandleKind::Derived,
                        anchor: q,
                        value: b.q.z,
                        unit: "r_t",
                        pickable: false,
                    },
                );
                assert(self.has_bell_handles(m, z_t, b, tn, crest, n, q, e, behind, before, v@));
            },
        }
        assert(self.has_upstream_handles(m, z_t, rc, beta, up, mid, top, v@));
        Ok(v)
    }

    /// The corners of the control polygon.
    pub open spec fn are_corners<M: CurveMath>(
        self,
        m: &M,
        b: BellGeometry,
        z_t: Scalar,
        p: Seq<Point>,
    ) -> bool {
        &&& self.has_bell(m, Ok(b))
        &&& call_ensures(M::throat_station, (m, self.spec, self.chamber_len_rt), z_t)
        &&& p.len() == 3
        &&& call_ensures(M::shifted, (m, b.n, z_t), p[0])
        &&& call_ensures(M::shifted, (m, b.q, z_t), p[1])
        &&& call_ensures(M::shifted, (m, b.e, z_t), p[2])
    }

    /// `p` is the control polygon of the bell.
    pub open spec fn has_polygon<M: CurveMath>(self, m: &M, p: Seq<Point>) -> bool {
        exists|b: BellGeometry, z_t: Scalar| #[trigger] self.are_corners(m, b, z_t, p)
    }

    /// The control polygon of a bell; a cone has none.
    pub fn control_polygon<M: CurveMath>(&self, m: &M) -> (r: Option<[Point; 3]>)
        ensures
            match r {
                Some(p) => self.has_polygon(m, p@),
                None => exists|e: CfdError| #[trigger] self.has_bell(m, Err(e)),
            },
    {
        let b = match self.bell(m) {
            Err(e) => {
                assert(self.has_bell(m, Err(e)));
                return None;
            },
            Ok(b) => b,
        };
        let z_t = self.throat_z_rt(m);
        let n = m.shifted(b.n, z_t);
        let q = m.shifted(b.q, z_t);
        let e = m.shifted(b.e, z_t);
        let p = [n, q, e];
        assert(p@ =~= seq![n, q, e]);
        assert(self.are_corners(m, b, z_t, p@));
        assert(self.has_polygon(m, p@));
        Some(p)
    }

    /// `x` is an angle of the bell, zero where there is none.
    pub open spec fn has_bell_angle<M: CurveMath>(self, m: &M, at_throat: bool, x: Scalar) -> bool {
        ||| {
            &&& x.bits == ZERO
            &&& exists|e: CfdError| #[trigger] self.has_bell(m, Err(e))
        }
        ||| exists|b: BellGeometry| #[trigger]
            self.has_bell(m, Ok(b)) && x == if at_throat {
                b.theta_n_deg
            } else {
                b.theta_e_deg
            }
    }

    fn bell_angle<M: CurveMath>(&self, m: &M, at_throat: bool) -> (x: Scalar)
        ensures
            self.has_bell_angle(m, at_throat, x),
    {
        match self.bell(m) {
            Err(e) => {
                assert(self.has_bell(m, Err(e)));
                Scalar { bits: ZERO }
            },
            Ok(b) => {
                assert(self.has_bell(m, Ok(b)));
                if at_throat {
                    b.theta_n_deg
                } else {
                    b.theta_e_deg
                }
            },
        }
    }

    /// The second number that the exit lip carries.
    pub open spec fn lip_number(self) -> Scalar {
        match self.spec.contour {
            ContourKind::Conical { half_angle_deg } => half_angle_deg,
            ContourKind::ParabolicBell { bell_percent } => bell_percent,
            ContourKind::DirectBell { length_fraction, .. } => length_fraction,
        }
    }

    /// `p` are the numbers that a handle carries now.
    pub open spec fn has_param<M: CurveMath>(self, m: &M, id: HandleId, p: (Scalar, Scalar)) -> bool {
        let s = self.spec;
        let zero = Scalar { bits: ZERO };
        match id {
            HandleId::ChamberRadius => p == (s.contraction_ratio, zero),
            HandleId::ChamberEnd => p == (self.chamber_len_rt, zero),
            HandleId::ConvergeAngle => p == (s.converge_half_angle_deg, zero),
            HandleId::ThroatArcUp => p == (s.throat_arc_up, zero),
            HandleId::ThroatArcDown => p == (s.throat_arc_down, zero),
            HandleId::ThetaN => self.has_bell_angle(m, true, p.0) && p.1 == zero,
            HandleId::ThetaE => self.has_bell_angle(m, false, p.0) && p.1 == zero,
            HandleId::ExitLip => p == (s.area_ratio, self.lip_number()),
            HandleId::ControlPoint => p == (zero, zero),
        }
    }

    fn handle_param<M: CurveMath>(&self, m: &M, id: HandleId) -> (p: (Scalar, Scalar))
        ensures
            self.has_param(m, id, p),
    {
        let s = self.spec;
        let zero = Scalar { bits: ZERO };
        match id {
            HandleId::ChamberRadius => (s.contraction_ratio, zero),
            HandleId::ChamberEnd => (self.chamber_len_rt, zero),
            HandleId::ConvergeAngle => (s.converge_half_angle_deg, zero),
            HandleId::ThroatArcUp => (s.throat_arc_up, zero),
            HandleId::ThroatArcDown => (s.throat_arc_down, zero),
            HandleId::ThetaN => (self.bell_angle(m, true), zero),
            HandleId::ThetaE => (self.bell_angle(m, false), zero),
            HandleId::ExitLip => match s.contour {
                ContourKind::Conical { half_angle_deg } => (s.area_ratio, half_angle_deg),
                ContourKind::ParabolicBell { bell_percent } => (s.area_ratio, bell_percent),
                ContourKind::DirectBell { length_fraction, .. } => (s.area_ratio, length_fraction),
            },
            HandleId::ControlPoint => (zero, zero),
        }
    }

    /// `x` is the angle that a cursor asks of an end of the bell, as measured from
    /// the anchor there.
    pub open spec fn asks_bell_angle<M: HandleMath>(
        self,
        m: &M,
        at_throat: bool,
        world: Point,
        b: BellGeometry,
        z_t: Scalar,
        anchor: Point,
        x: Scalar,
    ) -> bool {
        &&& self.has_bell(m, Ok(b))
        &&& call_ensures(M::throat_station, (m, self.spec, self.chamber_len_rt), z_t)
        &&& if at_throat {
            &&& call_ensures(M::shifted, (m, b.n, z_t), anchor)
            &&& call_ensures(M::angle_behind, (m, anchor, world), x)
        } else {
            &&& call_ensures(M::shifted, (m, b.e, z_t), anchor)
            &&& call_ensures(M::angle_before, (m, anchor, world), x)
        }
    }

    /// The outcome of asking for an angle of the bell.
    pub open spec fn wants_bell_angle<M: HandleMath>(
        self,
        m: &M,
        at_throat: bool,
        world: Point,
        p: Option<(Scalar, Scalar)>,
    ) -> bool {
        let least = Scalar {
            bits: if at_throat {
                FIFTH
            } else {
                TENTH
            },
        };
        match p {
            None => exists|e: CfdError| #[trigger] self.has_bell(m, Err(e)),
            Some(w) => w.1.bits == ZERO && exists|
                b: BellGeometry,
                z_t: Scalar,
                anchor: Point,
                x: Scalar,
            | #[trigger]
                self.asks_bell_angle(m, at_throat, world, b, z_t, anchor, x) && w.0
                    == x.held_between(least, Scalar { bits: STEEP }),
        }
    }

    fn want_bell_angle<M: HandleMath>(&self, m: &M, at_throat: bool, world: Point) -> (p: Option<
        (Scalar, Scalar),
    >)
        ensures
            self.wants_bell_angle(m, at_throat, world, p),
    {
        let b = match self.bell(m) {
            Err(e) => {
                assert(self.has_bell(m, Err(e)));
                return None;
            },
            Ok(b) => b,
        };
        let z_t = self.throat_z_rt(m);
        let zero = Scalar { bits: ZERO };
        let steep = Scalar { bits: STEEP };
        if at_throat {
            let anchor = m.shifted(b.n, z_t);
            let x = m.angle_behind(anchor, world);
            assert(self.asks_bell_angle(m, at_throat, world, b, z_t, anchor, x));
            Some((x.hold(Scalar { bits: FIFTH }, steep), zero))
        } else {
            let anchor = m.shifted(b.e, z_t);
            let x = m.angle_before(anchor, world);
            assert(self.asks_bell_angle(m, at_throat, world, b, z_t, anchor, x));
            Some((x.hold(Scalar { bits: TENTH }, steep), zero))
        }
    }

    /// `x` is the radius that a cursor asks of a throat arc with a wall angle.
    pub open spec fn asks_arc<M: HandleMath>(
        self,
        m: &M,
        angle_deg: Scalar,
        r: Scalar,
        x: Scalar,
    ) -> bool {
        exists|angle: Scalar, raw: Scalar|
            {
                &&& #[trigger] call_ensures(M::radians, (m, angle_deg), angle)
                &&& #[trigger] call_ensures(M::arc_through, (m, angle, r), raw)
                &&& x == raw.larger(Scalar { bits: SMALLEST_LENGTH })
            }
    }

    fn ask_arc<M: HandleMath>(&self, m: &M, angle_deg: Scalar, r: Scalar) -> (x: Scalar)
        ensures
            self.asks_arc(m, angle_deg, r, x),
    {
        let angle = m.radians(angle_deg);
        m.arc_through(angle, r).max(Scalar { bits: SMALLEST_LENGTH })
    }

    /// `x` is the area ratio of a circle through the cursor, above one.
    pub open spec fn asks_area<M: HandleMath>(self, m: &M, r: Scalar, x: Scalar) -> bool {
        exists|raw: Scalar| #[trigger]
            call_ensures(M::area_of, (m, r), raw) && x == raw.larger(
                Scalar { bits: PARAMETER_HIGH },
            )
    }

    fn ask_area<M: HandleMath>(&self, m: &M, r: Scalar) -> (x: Scalar)
        ensures
            self.asks_area(m, r, x),
    {
        m.area_of(r).max(Scalar { bits: PARAMETER_HIGH })
    }

    /// The numbers that a cursor asks of the exit lip.
    pub open spec fn asks_lip<M: HandleMath>(
        self,
        m: &M,
        world: Point,
        z_t: Scalar,
        raw: Scalar,
        w: (Scalar, Scalar),
    ) -> bool {
        let length = raw.larger(Scalar { bits: SMALLEST_LENGTH });
        &&& self.asks_area(m, world.r, w.0)
        &&& call_ensures(M::throat_station, (m, self.spec, self.chamber_len_rt), z_t)
        &&& call_ensures(M::past_throat, (m, world.z, z_t), raw)
        &&& if self.spec.contour is Conical {
            is_half_angle(m, w.0, self.spec.throat_arc_down, length, w.1)
        } else {
            exists|reference: Scalar| #[trigger]
                call_ensures(M::reference_length, (m, w.0), reference) && call_ensures(
                    M::over,
                    (m, length, reference),
                    w.1,
                )
        }
    }

    fn ask_lip<M: HandleMath>(&self, m: &M, world: Point) -> (w: (Scalar, Scalar))
        ensures
            exists|z_t: Scalar, raw: Scalar| #[trigger] self.asks_lip(m, world, z_t, raw, w),
    {
        let area = self.ask_area(m, world.r);
        let z_t = self.throat_z_rt(m);
        let raw = m.past_throat(world.z, z_t);
        let length = raw.max(Scalar { bits: SMALLEST_LENGTH });
        let second = match self.spec.contour {
            ContourKind::Conical { .. } => cone_angle_for_length(
                m,
                area,
                self.spec.throat_arc_down,
                length,
            ),
            _ => {
                let reference = m.reference_length(area);
                m.over(length, reference)
            },
        };
        let w = (area, second);
        assert(self.asks_lip(m, world, z_t, raw, w));
        w
    }

    /// `x` is the half angle that a cursor asks of the converging cone.
    pub open spec fn asks_converge_angle<M: HandleMath>(
        self,
        m: &M,
        world: Point,
        x: Scalar,
    ) -> bool {
        exists|rc: Scalar, raw: Scalar|
            {
                &&& #[trigger] call_ensures(M::square_root, (m, self.spec.contraction_ratio), rc)
                &&& #[trigger] call_ensures(
                    M::converge_angle,
                    (m, Point { z: self.chamber_len_rt, r: rc }, world),
                    raw,
                )
                &&& x == raw.held_between(Scalar { bits: TENTH }, Scalar { bits: STEEPEST })
            }
    }

    /// `p` are the numbers that a cursor asks of a handle: none of the control
    /// point, nor where the wall behind the throat cannot be solved.
    pub open spec fn wants<M: HandleMath>(
        self,
        m: &M,
        id: HandleId,
        cursor: Point,
        p: Option<(Scalar, Scalar)>,
    ) -> bool {
        let world = folded(cursor);
        let first = (p->0).0;
        let alone = p is Some && (p->0).1.bits == ZERO;
        match id {
            HandleId::ChamberRadius => alone && self.asks_area(m, world.r, first),
            HandleId::ChamberEnd => alone && first == world.z.larger(
                Scalar { bits: SMALLEST_LENGTH },
            ),
            HandleId::ConvergeAngle => alone && self.asks_converge_angle(m, world, first),
            HandleId::ThroatArcUp => alone && self.asks_arc(
                m,
                self.spec.converge_half_angle_deg,
                world.r,
                first,
            ),
            HandleId::ThroatArcDown => match p {
                None => exists|e: CfdError| #[trigger] self.has_angles(m, Err(e)),
                Some(_) => alone && exists|a: (Scalar, Scalar)| #[trigger]
                    self.has_angles(m, Ok(a)) && self.asks_arc(m, a.0, world.r, first),
            },
            HandleId::ThetaN => self.wants_bell_angle(m, true, world, p),
            HandleId::ThetaE => self.wants_bell_angle(m, false, world, p),
            HandleId::ExitLip => p is Some && exists|z_t: Scalar, raw: Scalar| #[trigger]
                self.asks_lip(m, world, z_t, raw, p->0),
            HandleId::ControlPoint => p is None,
        }
    }

    fn param_from_world<M: HandleMath>(&self, m: &M, id: HandleId, cursor: Point) -> (p: Option<
        (Scalar, Scalar),
    >)
        ensures
            self.wants(m, id, cursor, p),
    {
        let world = Point { z: cursor.z, r: cursor.r.abs() };
        assert(world == folded(cursor));
        let zero = Scalar { bits: ZERO };
        match id {
            HandleId::ChamberRadius => Some((self.ask_area(m, world.r), zero)),
            HandleId::ChamberEnd => Some(
                (world.z.max(Scalar { bits: SMALLEST_LENGTH }), zero),
            ),
            HandleId::ConvergeAngle => {
                let rc = m.square_root(self.spec.contraction_ratio);
                let raw = m.converge_angle(Point { z: self.chamber_len_rt, r: rc }, world);
                let x = raw.hold(Scalar { bits: TENTH }, Scalar { bits: STEEPEST });
                assert(self.asks_converge_angle(m, world, x));
                Some((x, zero))
            },
            HandleId::ThroatArcUp => Some(
                (self.ask_arc(m, self.spec.converge_half_angle_deg, world.r), zero),
            ),
            HandleId::ThroatArcDown => {
                match self.divergent_angles_deg(m) {
                    Err(e) => {
                        assert(self.has_angles(m, Err(e)));
                        None
                    },
                    Ok(a) => {
                        assert(self.has_angles(m, Ok(a)));
                        Some((self.ask_arc(m, a.0, world.r), zero))
                    },
                }
            },
            HandleId::ThetaN => self.want_bell_angle(m, true, world),
            HandleId::ThetaE => self.want_bell_angle(m, false, world),
            HandleId::ExitLip => {
                let w = self.ask_lip(m, world);
                let p = Some(w);
                assert(p->0 == w);
                p
            },
            HandleId::ControlPoint => None,
        }
    }

    /// `c` is the wall with an angle of its bell set by hand, which makes it a bell
    /// of given angles; the same wall where there is no bell.
    pub open spec fn has_hand_set_angle<M: CurveMath>(
        self,
        m: &M,
        at_throat: bool,
        x: Scalar,
        c: NozzleCurve,
    ) -> bool {
        ||| {
            &&& c == self
            &&& exists|e: CfdError| #[trigger] self.has_bell(m, Err(e))
        }
        ||| exists|b: BellGeometry, fraction: Scalar|
            {
                &&& #[trigger] self.has_bell(m, Ok(b))
                &&& #[trigger] self.has_length_fraction(m, fraction)
                &&& c == self.with_contour(
                    ContourKind::DirectBell {
                        theta_n_deg: if at_throat {
                            x
                        } else {
                            b.theta_n_deg
                        },
                        theta_e_deg: if at_throat {
                            b.theta_e_deg
                        } else {
                            x
                        },
                        length_fraction: fraction,
                    },
                )
            }
    }

    /// The wall with another contour.
    pub open spec fn with_contour(self, contour: ContourKind) -> NozzleCurve {
        NozzleCurve {
            spec: NozzleSpec { contour, ..self.spec },
            chamber_len_rt: self.chamber_len_rt,
        }
    }

    /// The contour with another number at the exit lip.
    pub open spec fn contour_with(self, x: Scalar) -> ContourKind {
        match self.spec.contour {
            ContourKind::Conical { .. } => ContourKind::Conical { half_angle_deg: x },
            ContourKind::ParabolicBell { .. } => ContourKind::ParabolicBell { bell_percent: x },
            ContourKind::DirectBell { theta_n_deg, theta_e_deg, .. } => ContourKind::DirectBell {
                theta_n_deg,
                theta_e_deg,
                length_fraction: x,
            },
        }
    }

    /// `c` is the wall with the numbers of a handle set.
    pub open spec fn has_set<M: CurveMath>(
        self,
        m: &M,
        id: HandleId,
        p: (Scalar, Scalar),
        c: NozzleCurve,
    ) -> bool {
        let s = self.spec;
        let len = self.chamber_len_rt;
        match id {
            HandleId::ChamberRadius => c == (NozzleCurve {
                spec: NozzleSpec { contraction_ratio: p.0, ..s },
                chamber_len_rt: len,
            }),
            HandleId::ChamberEnd => c == (NozzleCurve { spec: s, chamber_len_rt: p.0 }),
            HandleId::ConvergeAngle => c == (NozzleCurve {
                spec: NozzleSpec { converge_half_angle_deg: p.0, ..s },
                chamber_len_rt: len,
            }),
            HandleId::ThroatArcUp => c == (NozzleCurve {
                spec: NozzleSpec { throat_arc_up: p.0, ..s },
                chamber_len_rt: len,
            }),
            HandleId::ThroatArcDown => c == (NozzleCurve {
                spec: NozzleSpec { throat_arc_down: p.0, ..s },
                chamber_len_rt: len,
            }),
            HandleId::ThetaN => self.has_hand_set_angle(m, true, p.0, c),
            HandleId::ThetaE => self.has_hand_set_angle(m, false, p.0, c),
            HandleId::ExitLip => c == (NozzleCurve {
                spec: NozzleSpec { area_ratio: p.0, contour: self.contour_with(p.1), ..s },
                chamber_len_rt: len,
            }),
            HandleId::ControlPoint => c == self,
        }
    }

    fn set_angle<M: CurveMath>(&self, m: &M, at_throat: bool, x: Scalar) -> (c: NozzleCurve)
        ensures
            self.has_hand_set_angle(m, at_throat, x, c),
    {
        let mut c = *self;
        match self.bell(m) {
            Err(e) => {
                assert(self.has_bell(m, Err(e)));
            },
            Ok(b) => {
                assert(self.has_bell(m, Ok(b)));
                let length_fraction = self.length_fraction(m);
                let (theta_n_deg, theta_e_deg) = if at_throat {
                    (x, b.theta_e_deg)
                } else {
                    (b.theta_n_deg, x)
                };
                c.spec.contour = ContourKind::DirectBell {
                    theta_n_deg,
                    theta_e_deg,
                    length_fraction,
                };
            },
        }
        c
    }

    fn with_param<M: CurveMath>(&self, m: &M, id: HandleId, p: (Scalar, Scalar)) -> (c: NozzleCurve)
        ensures
            self.has_set(m, id, p, c),
    {
        let mut c = *self;
        match id {
            HandleId::ChamberRadius => {
                c.spec.contraction_ratio = p.0;
            },
            HandleId::ChamberEnd => {
                c.chamber_len_rt = p.0;
            },
            HandleId::ConvergeAngle => {
                c.spec.converge_half_angle_deg = p.0;
            },
            HandleId::ThroatArcUp => {
                c.spec.throat_arc_up = p.0;
            },
            HandleId::ThroatArcDown => {
                c.spec.throat_arc_down = p.0;
            },
            HandleId::ThetaN => {
                return self.set_angle(m, true, p.0);
            },
            HandleId::ThetaE => {
                return self.set_angle(m, false, p.0);
            },
            HandleId::ExitLip => {
                c.spec.area_ratio = p.0;
                c.spec.contour = match self.spec.contour {
                    ContourKind::Conical { .. } => ContourKind::Conical { half_angle_deg: p.1 },
                    ContourKind::ParabolicBell { .. } => ContourKind::ParabolicBell {
                        bell_percent: p.1,
                    },
                    ContourKind::DirectBell { theta_n_deg, theta_e_deg, .. } => {
                        ContourKind::DirectBell { theta_n_deg, theta_e_deg, length_fraction: p.1 }
                    },
                };
            },
            HandleId::ControlPoint => {},
        }
        c
    }

    /// `trial` is the wall with the numbers of a handle a share of the way to those
    /// asked for.
    pub open spec fn has_trial<M: HandleMath>(
        self,
        m: &M,
        id: HandleId,
        have: (Scalar, Scalar),
        want: (Scalar, Scalar),
        share: Scalar,
        p: (Scalar, Scalar),
        trial: NozzleCurve,
    ) -> bool {
        &&& call_ensures(M::part_way, (m, have.0, want.0, share), p.0)
        &&& call_ensures(M::part_way, (m, have.1, want.1, share), p.1)
        &&& self.has_set(m, id, p, trial)
    }

    fn try_share<M: HandleMath>(
        &self,
        m: &M,
        id: HandleId,
        have: (Scalar, Scalar),
        want: (Scalar, Scalar),
        share: Scalar,
    ) -> (r: ((Scalar, Scalar), NozzleCurve))
        ensures
            self.has_trial(m, id, have, want, share, r.0, r.1),
    {
        let p = (m.part_way(have.0, want.0, share), m.part_way(have.1, want.1, share));
        (p, self.with_param(m, id, p))
    }

    /// The state of a search after one more trial.
    pub open spec fn searches<M: HandleMath>(
        self,
        m: &M,
        id: HandleId,
        have: (Scalar, Scalar),
        want: (Scalar, Scalar),
        before: Search,
        mid: Scalar,
        p: (Scalar, Scalar),
        trial: NozzleCurve,
        after: Search,
    ) -> bool {
        &&& call_ensures(M::middle, (m, before.lo, before.hi), mid)
        &&& self.has_trial(m, id, have, want, mid, p, trial)
        &&& {
            ||| {
                &&& trial.has_feasibility(m, Ok(()))
                &&& after == (Search { lo: mid, hi: before.hi, best: trial })
            }
            ||| {
                &&& exists|e: CfdError| #[trigger] trial.has_feasibility(m, Err(e))
                &&& after == (Search { lo: before.lo, hi: mid, best: before.best })
            }
        }
    }

    /// `state` is the state of a search after `n` trials.
    pub open spec fn has_search<M: HandleMath>(
        self,
        m: &M,
        id: HandleId,
        have: (Scalar, Scalar),
        want: (Scalar, Scalar),
        n: int,
        state: Search,
    ) -> bool
        decreases n,
    {
        if n <= 0 {
            state == (Search { lo: Scalar { bits: ZERO }, hi: Scalar { bits: ONE }, best: self })
        } else {
            exists|before: Search, mid: Scalar, p: (Scalar, Scalar), trial: NozzleCurve| #[trigger]
                self.searches(m, id, have, want, before, mid, p, trial, state) && self.has_search(
                    m,
                    id,
                    have,
                    want,
                    n - 1,
                    before,
                )
        }
    }

    fn search<M: HandleMath>(
        &self,
        m: &M,
        id: HandleId,
        have: (Scalar, Scalar),
        want: (Scalar, Scalar),
    ) -> (state: Search)
        ensures
            self.has_search(m, id, have, want, DRAG_HALVINGS as int, state),
    {
        let mut state = Search {
            lo: Scalar { bits: ZERO },
            hi: Scalar { bits: ONE },
            best: *self,
        };
        let mut n: usize = 0;
        while n < DRAG_HALVINGS
            invariant
                n <= DRAG_HALVINGS,
                self.has_search(m, id, have, want, n as int, state),
            decreases DRAG_HALVINGS - n,
        {
            let ghost before = state;
            let mid = m.middle(state.lo, state.hi);
            let (p, trial) = self.try_share(m, id, have, want, mid);
            match trial.feasible(m) {
                Ok(_) => {
                    state = Search { lo: mid, hi: state.hi, best: trial };
                },
                Err(e) => {
                    assert(trial.has_feasibility(m, Err(e)));
                    state = Search { lo: state.lo, hi: mid, best: state.best };
                },
            }
            n = n + 1;
            assert(self.searches(m, id, have, want, before, mid, p, trial, state));
        }
        state
    }

    /// A drag that asks for numbers: the wall asked for where it can be built, else
    /// the last one found on the way to it, with the reason.
    pub open spec fn has_pull<M: HandleMath>(
        self,
        m: &M,
        id: HandleId,
        world: Point,
        want: (Scalar, Scalar),
        have: (Scalar, Scalar),
        p: (Scalar, Scalar),
        full: NozzleCurve,
        out: DragOutcome,
    ) -> bool {
        &&& self.wants(m, id, world, Some(want))
        &&& self.has_param(m, id, have)
        &&& self.has_trial(m, id, have, want, Scalar { bits: ONE }, p, full)
        &&& match out.clamped {
            None => full.has_feasibility(m, Ok(())) && out.curve == full,
            Some(why) => {
                &&& exists|e: CfdError| #[trigger]
                    full.has_feasibility(m, Err(e)) && why@ == error::message_of(e)
                &&& exists|state: Search| #[trigger]
                    self.has_search(m, id, have, want, DRAG_HALVINGS as int, state) && out.curve
                        == state.best
            },
        }
    }

    /// The outcome of a drag.
    pub open spec fn has_drag<M: HandleMath>(
        self,
        m: &M,
        id: HandleId,
        world: Point,
        out: DragOutcome,
    ) -> bool {
        ||| {
            &&& self.wants(m, id, world, None)
            &&& out.curve == self
            &&& out.clamped is None
        }
        ||| exists|
            want: (Scalar, Scalar),
            have: (Scalar, Scalar),
            p: (Scalar, Scalar),
            full: NozzleCurve,
        | #[trigger]
            self.has_pull(m, id, world, want, have, p, full, out)
    }

    /// Drags a handle towards a place in throat radii, as far as the wall can be
    /// built.
    pub fn drag_handle<M: HandleMath>(&self, m: &M, id: HandleId, world: Point) -> (out:
        DragOutcome)
        ensures
            self.has_drag(m, id, world, out),
            out.clamped is None ==> match id {
                HandleId::ChamberRadius => exists|raw: Scalar| #[trigger]
                    call_ensures(M::area_of, (m, Scalar { bits: world.r.magnitude() as u64 }), raw)
                        && call_ensures(
                        M::part_way,
                        (
                            m,
                            self.spec.contraction_ratio,
                            raw.larger(Scalar { bits: PARAMETER_HIGH }),
                            Scalar { bits: ONE },
                        ),
                        out.curve.spec.contraction_ratio,
                    ),
                HandleId::ChamberEnd => call_ensures(
                    M::part_way,
                    (
                        m,
                        self.chamber_len_rt,
                        world.z.larger(Scalar { bits: SMALLEST_LENGTH }),
                        Scalar { bits: ONE },
                    ),
                    out.curve.chamber_len_rt,
                ),
                HandleId::ConvergeAngle => exists|rc: Scalar, raw: Scalar|
                    {
                        &&& #[trigger] call_ensures(M::square_root, (m, self.spec.contraction_ratio), rc)
                        &&& #[trigger] call_ensures(
                            M::converge_angle,
                            (
                                m,
                                Point { z: self.chamber_len_rt, r: rc },
                                Point { z: world.z, r: Scalar { bits: world.r.magnitude() as u64 } },
                            ),
                            raw,
                        )
                        &&& call_ensures(
                            M::part_way,
                            (
                                m,
                                self.spec.converge_half_angle_deg,
                                raw.held_between(Scalar { bits: TENTH }, Scalar { bits: STEEPEST }),
                                Scalar { bits: ONE },
                            ),
                            out.curve.spec.converge_half_angle_deg,
                        )
                    },
                HandleId::ThroatArcUp => exists|angle: Scalar, raw: Scalar|
                    {
                        &&& #[trigger] call_ensures(
                            M::radians,
                            (m, self.spec.converge_half_angle_deg),
                            angle,
                        )
                        &&& #[trigger] call_ensures(
                            M::arc_through,
                            (m, angle, Scalar { bits: world.r.magnitude() as u64 }),
                            raw,
                        )
                        &&& call_ensures(
                            M::part_way,
                            (
                                m,
                                self.spec.throat_arc_up,
                                raw.larger(Scalar { bits: SMALLEST_LENGTH }),
                                Scalar { bits: ONE },
                            ),
                            out.curve.spec.throat_arc_up,
                        )
                    },
                HandleId::ThroatArcDown => {
                    ||| out.curve == *self && exists|e: CfdError| #[trigger] self.has_angles(m, Err(e))
                    ||| exists|a: (Scalar, Scalar), angle: Scalar, raw: Scalar|
                        {
                            &&& #[trigger] self.has_angles(m, Ok(a))
                            &&& #[trigger] call_ensures(M::radians, (m, a.0), angle)
                            &&& #[trigger] call_ensures(
                                M::arc_through,
                                (m, angle, Scalar { bits: world.r.magnitude() as u64 }),
                                raw,
                            )
                            &&& call_ensures(
                                M::part_way,
                                (
                                    m,
                                    self.spec.throat_arc_down,
                                    raw.larger(Scalar { bits: SMALLEST_LENGTH }),
                                    Scalar { bits: ONE },
                                ),
                                out.curve.spec.throat_arc_down,
                            )
                        }
                },
                HandleId::ThetaN => {
                    ||| out.curve == *self && exists|e: CfdError| #[trigger] self.has_bell(m, Err(e))
                    ||| exists|
                        b: BellGeometry,
                        z_t: Scalar,
                        anchor: Point,
                        x: Scalar,
                        have: Scalar,
                        got: Scalar,
                        far: BellGeometry,
                        share: Scalar,
                    |
                        {
                            &&& #[trigger] self.has_bell(m, Ok(b))
                            &&& #[trigger] call_ensures(
                                M::throat_station,
                                (m, self.spec, self.chamber_len_rt),
                                z_t,
                            )
                            &&& #[trigger] call_ensures(M::shifted, (m, b.n, z_t), anchor)
                            &&& #[trigger] call_ensures(
                                M::angle_behind,
                                (
                                    m,
                                    anchor,
                                    Point { z: world.z, r: Scalar { bits: world.r.magnitude() as u64 } },
                                ),
                                x,
                            )
                            &&& #[trigger] call_ensures(
                                M::part_way,
                                (
                                    m,
                                    have,
                                    x.held_between(Scalar { bits: FIFTH }, Scalar { bits: STEEP }),
                                    Scalar { bits: ONE },
                                ),
                                got,
                            )
                            &&& #[trigger] self.has_bell(m, Ok(far))
                            &&& #[trigger] self.has_length_fraction(m, share)
                            &&& out.curve.spec.contour == (ContourKind::DirectBell {
                                theta_n_deg: got,
                                theta_e_deg: far.theta_e_deg,
                                length_fraction: share,
                            })
                        }
                },
                HandleId::ThetaE => {
                    ||| out.curve == *self && exists|e: CfdError| #[trigger] self.has_bell(m, Err(e))
                    ||| exists|
                        b: BellGeometry,
                        z_t: Scalar,
                        anchor: Point,
                        x: Scalar,
                        have: Scalar,
                        got: Scalar,
                        far: BellGeometry,
                        share: Scalar,
                    |
                        {
                            &&& #[trigger] self.has_bell(m, Ok(b))
                            &&& #[trigger] call_ensures(
                                M::throat_station,
                                (m, self.spec, self.chamber_len_rt),
                                z_t,
                            )
                            &&& #[trigger] call_ensures(M::shifted, (m, b.e, z_t), anchor)
                            &&& #[trigger] call_ensures(
                                M::angle_before,
                                (
                                    m,
                                    anchor,
                                    Point { z: world.z, r: Scalar { bits: world.r.magnitude() as u64 } },
                                ),
                                x,
                            )
                            &&& #[trigger] call_ensures(
                                M::part_way,
                                (
                                    m,
                                    have,
                                    x.held_between(Scalar { bits: TENTH }, Scalar { bits: STEEP }),
                                    Scalar { bits: ONE },
                                ),
                                got,
                            )
                            &&& #[trigger] self.has_bell(m, Ok(far))
                            &&& #[trigger] self.has_length_fraction(m, share)
                            &&& out.curve.spec.contour == (ContourKind::DirectBell {
                                theta_n_deg: far.theta_n_deg,
                                theta_e_deg: got,
                                length_fraction: share,
                            })
                        }
                },
                HandleId::ExitLip => exists|raw: Scalar, z_t: Scalar, past: Scalar|
                    {
                        &&& #[trigger] call_ensures(
                            M::area_of,
                            (m, Scalar { bits: world.r.magnitude() as u64 }),
                            raw,
                        )
                        &&& #[trigger] call_ensures(
                            M::throat_station,
                            (m, self.spec, self.chamber_len_rt),
                            z_t,
                        )
                        &&& #[trigger] call_ensures(M::past_throat, (m, world.z, z_t), past)
                        &&& call_ensures(
                            M::part_way,
                            (
                                m,
                                self.spec.area_ratio,
                                raw.larger(Scalar { bits: PARAMETER_HIGH }),
                                Scalar { bits: ONE },
                            ),
                            out.curve.spec.area_ratio,
                        )
                        &&& match (self.spec.contour, out.curve.spec.contour) {
                            (
                                ContourKind::Conical { half_angle_deg },
                                ContourKind::Conical { half_angle_deg: got },
                            ) => exists|x: Scalar| #[trigger]
                                is_half_angle(
                                    m,
                                    raw.larger(Scalar { bits: PARAMETER_HIGH }),
                                    self.spec.throat_arc_down,
                                    past.larger(Scalar { bits: SMALLEST_LENGTH }),
                                    x,
                                ) && call_ensures(
                                    M::part_way,
                                    (m, half_angle_deg, x, Scalar { bits: ONE }),
                                    got,
                                ),
                            (
                                ContourKind::ParabolicBell { bell_percent },
                                ContourKind::ParabolicBell { bell_percent: got },
                            ) => exists|reference: Scalar, x: Scalar|
                                {
                                    &&& #[trigger] call_ensures(
                                        M::reference_length,
                                        (m, raw.larger(Scalar { bits: PARAMETER_HIGH })),
                                        reference,
                                    )
                                    &&& #[trigger] call_ensures(
                                        M::over,
                                        (m, past.larger(Scalar { bits: SMALLEST_LENGTH }), reference),
                                        x,
                                    )
                                    &&& call_ensures(
                                        M::part_way,
                                        (m, bell_percent, x, Scalar { bits: ONE }),
                                        got,
                                    )
                                },
                            (
                                ContourKind::DirectBell { theta_n_deg, theta_e_deg, length_fraction },
                                ContourKind::DirectBell {
                                    theta_n_deg: n,
                                    theta_e_deg: e,
                                    length_fraction: got,
                                },
                            ) => n == theta_n_deg && e == theta_e_deg && exists|reference: Scalar, x: Scalar|
                                {
                                    &&& #[trigger] call_ensures(
                                        M::reference_length,
                                        (m, raw.larger(Scalar { bits: PARAMETER_HIGH })),
                                        reference,
                                    )
                                    &&& #[trigger] call_ensures(
                                        M::over,
                                        (m, past.larger(Scalar { bits: SMALLEST_LENGTH }), reference),
                                        x,
                                    )
                                    &&& call_ensures(
                                        M::part_way,
                                        (m, length_fraction, x, Scalar { bits: ONE }),
                                        got,
                                    )
                                },
                            _ => false,
                        }
                    },
                HandleId::ControlPoint => out.curve == *self,
            },
    {
        let want = match self.param_from_world(m, id, world) {
            None => {
                let out = DragOutcome { curve: *self, clamped: None };
                proof {
                    law_free_drags_end_at_the_cursor(m, *self, id, world, out);
                }
                return out;
            },
            Some(want) => want,
        };
        let have = self.handle_param(m, id);
        let (p, full) = self.try_share(m, id, have, want, Scalar { bits: ONE });
        match full.feasible(m) {
            Ok(_) => {
                let out = DragOutcome { curve: full, clamped: None };
                assert(self.has_pull(m, id, world, want, have, p, full, out));
                proof {
                    law_free_drags_end_at_the_cursor(m, *self, id, world, out);
                }
                out
            },
            Err(e) => {
                let state = self.search(m, id, have, want);
                let out = DragOutcome { curve: state.best, clamped: Some(e.message()) };
                assert(full.has_feasibility(m, Err(e)));
                assert(self.has_pull(m, id, world, want, have, p, full, out));
                out
            },
        }
    }

    /// Two walls agree in all that a handle does not carry.
    pub open spec fn agrees_beside(self, id: HandleId, c: NozzleCurve) -> bool {
        let s = self.spec;
        let t = c.spec;
        &&& t.throat_radius_m == s.throat_radius_m
        &&& id != HandleId::ChamberRadius ==> t.contraction_ratio == s.contraction_ratio
        &&& id != HandleId::ChamberEnd ==> c.chamber_len_rt == self.chamber_len_rt
        &&& id != HandleId::ConvergeAngle ==> t.converge_half_angle_deg == s.converge_half_angle_deg
        &&& id != HandleId::ThroatArcUp ==> t.throat_arc_up == s.throat_arc_up
        &&& id != HandleId::ThroatArcDown ==> t.throat_arc_down == s.throat_arc_down
        &&& id != HandleId::ExitLip ==> t.area_ratio == s.area_ratio
        &&& !(id == HandleId::ExitLip || id == HandleId::ThetaN || id == HandleId::ThetaE)
            ==> t.contour == s.contour
    }
}

/// The state of a search between a wall and one that cannot be built.
#[derive(Debug, Clone, Copy, PartialEq)]
pub struct Search {
    pub lo: Scalar,
    pub hi: Scalar,
    pub best: NozzleCurve,
}

/// A place on the upper side of the axis.
pub open spec fn folded(p: Point) -> Point {
    Point { z: p.z, r: Scalar { bits: p.r.magnitude() as u64 } }
}

proof fn lemma_search_is_feasible<M: HandleMath>(
    m: &M,
    c: NozzleCurve,
    id: HandleId,
    have: (Scalar, Scalar),
    want: (Scalar, Scalar),
    n: int,
    state: Search,
)
    requires
        c.has_search(m, id, have, want, n, state),
    ensures
        state.best == c || state.best.has_feasibility(m, Ok(())),
        c.agrees_beside(id, state.best),
    decreases n,
{
    if n > 0 {
        let (before, mid, p, trial) = choose|
            before: Search,
            mid: Scalar,
            p: (Scalar, Scalar),
            trial: NozzleCurve,
        | #[trigger]
            c.searches(m, id, have, want, before, mid, p, trial, state) && c.has_search(
                m,
                id,
                have,
                want,
                n - 1,
                before,
            );
        lemma_search_is_feasible(m, c, id, have, want, n - 1, before);
    }
}

/// A drag never breaks a wall: what it ends at can be built, or is the wall that it
/// started from.
pub proof fn law_drags_end_at_buildable_walls<M: HandleMath>(
    m: &M,
    c: NozzleCurve,
    id: HandleId,
    world: Point,
    out: DragOutcome,
)
    requires
        c.has_drag(m, id, world, out),
    ensures
        out.curve == c || out.curve.has_feasibility(m, Ok(())),
{
    if !(c.wants(m, id, world, None) && out.curve == c && out.clamped is None) {
        let (want, have, p, full) = choose|
            want: (Scalar, Scalar),
            have: (Scalar, Scalar),
            p: (Scalar, Scalar),
            full: NozzleCurve,
        | #[trigger]
            c.has_pull(m, id, world, want, have, p, full, out);
        if out.clamped is Some {
            let state = choose|state: Search| #[trigger]
                c.has_search(m, id, have, want, DRAG_HALVINGS as int, state) && out.curve
                    == state.best;
            lemma_search_is_feasible(m, c, id, have, want, DRAG_HALVINGS as int, state);
        }
    }
}

/// A drag leaves all that its handle does not carry, the throat radius above all.
pub proof fn law_drags_leave_the_rest<M: HandleMath>(
    m: &M,
    c: NozzleCurve,
    id: HandleId,
    world: Point,
    out: DragOutcome,
)
    requires
        c.has_drag(m, id, world, out),
    ensures
        c.agrees_beside(id, out.curve),
        out.curve.spec.throat_radius_m == c.spec.throat_radius_m,
{
    if !(c.wants(m, id, world, None) && out.curve == c && out.clamped is None) {
        let (want, have, p, full) = choose|
            want: (Scalar, Scalar),
            have: (Scalar, Scalar),
            p: (Scalar, Scalar),
            full: NozzleCurve,
        | #[trigger]
            c.has_pull(m, id, world, want, have, p, full, out);
        if out.clamped is Some {
            let state = choose|state: Search| #[trigger]
                c.has_search(m, id, have, want, DRAG_HALVINGS as int, state) && out.curve
                    == state.best;
            lemma_search_is_feasible(m, c, id, have, want, DRAG_HALVINGS as int, state);
        }
    }
}

/// The control point follows from the rest: it is drawn, never picked, and a drag
/// of it does nothing.
pub proof fn law_control_point_stays<M: HandleMath>(
    m: &M,
    c: NozzleCurve,
    world: Point,
    out: DragOutcome,
)
    requires
        c.has_drag(m, HandleId::ControlPoint, world, out),
    ensures
        out.curve == c,
        out.clamped is None,
{
}

/// Exactly the control point cannot be picked.
pub proof fn law_only_the_control_point_is_derived<M: HandleMath>(
    m: &M,
    c: NozzleCurve,
    v: Seq<Handle>,
    i: int,
)
    requires
        c.are_handles(m, v),
        0 <= i < v.len(),
    ensures
        v[i].pickable <==> v[i].id != HandleId::ControlPoint,
        v[i].kind is Derived <==> v[i].id == HandleId::ControlPoint,
{
    let (z_t, rc, beta, up, mid, crest) = choose|
        z_t: Scalar,
        rc: Scalar,
        beta: Scalar,
        up: Point,
        mid: Point,
        crest: Point,
    | #[trigger]
        c.has_upstream_handles(m, z_t, rc, beta, up, mid, crest, v) && c.has_downstream_handles(
            m,
            z_t,
            v,
        );
    assert(i == 0 || i == 1 || i == 2 || i == 3 || i == 4 || i == 5 || i == 6 || i == 7 || i == 8);
}

/// A drag that is not clamped ends with what its handle carries at the cursor: the
/// chamber radius at its height, the chamber end at its station, each angle in its
/// direction, each arc and the exit lip through it. Where the wall behind the throat
/// cannot be solved it stays, and so does the control point.
pub proof fn law_free_drags_end_at_the_cursor<M: HandleMath>(
    m: &M,
    c: NozzleCurve,
    id: HandleId,
    cursor: Point,
    out: DragOutcome,
)
    requires
        c.has_drag(m, id, cursor, out),
        out.clamped is None,
    ensures
        match id {
            HandleId::ChamberRadius => exists|raw: Scalar| #[trigger]
                call_ensures(M::area_of, (m, Scalar { bits: cursor.r.magnitude() as u64 }), raw)
                    && call_ensures(
                    M::part_way,
                    (
                        m,
                        c.spec.contraction_ratio,
                        raw.larger(Scalar { bits: PARAMETER_HIGH }),
                        Scalar { bits: ONE },
                    ),
                    out.curve.spec.contraction_ratio,
                ),
            HandleId::ChamberEnd => call_ensures(
                M::part_way,
                (
                    m,
                    c.chamber_len_rt,
                    cursor.z.larger(Scalar { bits: SMALLEST_LENGTH }),
                    Scalar { bits: ONE },
                ),
                out.curve.chamber_len_rt,
            ),
            HandleId::ConvergeAngle => exists|rc: Scalar, raw: Scalar|
                {
                    &&& #[trigger] call_ensures(M::square_root, (m, c.spec.contraction_ratio), rc)
                    &&& #[trigger] call_ensures(
                        M::converge_angle,
                        (
                            m,
                            Point { z: c.chamber_len_rt, r: rc },
                            Point { z: cursor.z, r: Scalar { bits: cursor.r.magnitude() as u64 } },
                        ),
                        raw,
                    )
                    &&& call_ensures(
                        M::part_way,
                        (
                            m,
                            c.spec.converge_half_angle_deg,
                            raw.held_between(Scalar { bits: TENTH }, Scalar { bits: STEEPEST }),
                            Scalar { bits: ONE },
                        ),
                        out.curve.spec.converge_half_angle_deg,
                    )
                },
            HandleId::ThroatArcUp => exists|angle: Scalar, raw: Scalar|
                {
                    &&& #[trigger] call_ensures(
                        M::radians,
                        (m, c.spec.converge_half_angle_deg),
                        angle,
                    )
                    &&& #[trigger] call_ensures(
                        M::arc_through,
                        (m, angle, Scalar { bits: cursor.r.magnitude() as u64 }),
                        raw,
                    )
                    &&& call_ensures(
                        M::part_way,
                        (
                            m,
                            c.spec.throat_arc_up,
                            raw.larger(Scalar { bits: SMALLEST_LENGTH }),
                            Scalar { bits: ONE },
                        ),
                        out.curve.spec.throat_arc_up,
                    )
                },
            HandleId::ThroatArcDown => {
                ||| out.curve == c && exists|e: CfdError| #[trigger] c.has_angles(m, Err(e))
                ||| exists|a: (Scalar, Scalar), angle: Scalar, raw: Scalar|
                    {
                        &&& #[trigger] c.has_angles(m, Ok(a))
                        &&& #[trigger] call_ensures(M::radians, (m, a.0), angle)
                        &&& #[trigger] call_ensures(
                            M::arc_through,
                            (m, angle, Scalar { bits: cursor.r.magnitude() as u64 }),
                            raw,
                        )
                        &&& call_ensures(
                            M::part_way,
                            (
                                m,
                                c.spec.throat_arc_down,
                                raw.larger(Scalar { bits: SMALLEST_LENGTH }),
                                Scalar { bits: ONE },
                            ),
                            out.curve.spec.throat_arc_down,
                        )
                    }
            },
            HandleId::ThetaN => {
                ||| out.curve == c && exists|e: CfdError| #[trigger] c.has_bell(m, Err(e))
                ||| exists|
                    b: BellGeometry,
                    z_t: Scalar,
                    anchor: Point,
                    x: Scalar,
                    have: Scalar,
                    got: Scalar,
                    far: BellGeometry,
                    share: Scalar,
                |
                    {
                        &&& #[trigger] c.has_bell(m, Ok(b))
                        &&& #[trigger] call_ensures(
                            M::throat_station,
                            (m, c.spec, c.chamber_len_rt),
                            z_t,
                        )
                        &&& #[trigger] call_ensures(M::shifted, (m, b.n, z_t), anchor)
                        &&& #[trigger] call_ensures(
                            M::angle_behind,
                            (
                                m,
                                anchor,
                                Point { z: cursor.z, r: Scalar { bits: cursor.r.magnitude() as u64 } },
                            ),
                            x,
                        )
                        &&& #[trigger] call_ensures(
                            M::part_way,
                            (
                                m,
                                have,
                                x.held_between(Scalar { bits: FIFTH }, Scalar { bits: STEEP }),
                                Scalar { bits: ONE },
                            ),
                            got,
                        )
                        &&& #[trigger] c.has_bell(m, Ok(far))
                        &&& #[trigger] c.has_length_fraction(m, share)
                        &&& out.curve.spec.contour == (ContourKind::DirectBell {
                            theta_n_deg: got,
                            theta_e_deg: far.theta_e_deg,
                            length_fraction: share,
                        })
                    }
            },
            HandleId::ThetaE => {
                ||| out.curve == c && exists|e: CfdError| #[trigger] c.has_bell(m, Err(e))
                ||| exists|
                    b: BellGeometry,
                    z_t: Scalar,
                    anchor: Point,
                    x: Scalar,
                    have: Scalar,
                    got: Scalar,
                    far: BellGeometry,
                    share: Scalar,
                |
                    {
                        &&& #[trigger] c.has_bell(m, Ok(b))
                        &&& #[trigger] call_ensures(
                            M::throat_station,
                            (m, c.spec, c.chamber_len_rt),
                            z_t,
                        )
                        &&& #[trigger] call_ensures(M::shifted, (m, b.e, z_t), anchor)
                        &&& #[trigger] call_ensures(
                            M::angle_before,
                            (
                                m,
                                anchor,
                                Point { z: cursor.z, r: Scalar { bits: cursor.r.magnitude() as u64 } },
                            ),
                            x,
                        )
                        &&& #[trigger] call_ensures(
                            M::part_way,
                            (
                                m,
                                have,
                                x.held_between(Scalar { bits: TENTH }, Scalar { bits: STEEP }),
                                Scalar { bits: ONE },
                            ),
                            got,
                        )
                        &&& #[trigger] c.has_bell(m, Ok(far))
                        &&& #[trigger] c.has_length_fraction(m, share)
                        &&& out.curve.spec.contour == (ContourKind::DirectBell {
                            theta_n_deg: far.theta_n_deg,
                            theta_e_deg: got,
                            length_fraction: share,
                        })
                    }
            },
            HandleId::ExitLip => exists|raw: Scalar, z_t: Scalar, past: Scalar|
                {
                    &&& #[trigger] call_ensures(
                        M::area_of,
                        (m, Scalar { bits: cursor.r.magnitude() as u64 }),
                        raw,
                    )
                    &&& #[trigger] call_ensures(
                        M::throat_station,
                        (m, c.spec, c.chamber_len_rt),
                        z_t,
                    )
                    &&& #[trigger] call_ensures(M::past_throat, (m, cursor.z, z_t), past)
                    &&& call_ensures(
                        M::part_way,
                        (
                            m,
                            c.spec.area_ratio,
                            raw.larger(Scalar { bits: PARAMETER_HIGH }),
                            Scalar { bits: ONE },
                        ),
                        out.curve.spec.area_ratio,
                    )
                    &&& match (c.spec.contour, out.curve.spec.contour) {
                        (
                            ContourKind::Conical { half_angle_deg },
                            ContourKind::Conical { half_angle_deg: got },
                        ) => exists|x: Scalar| #[trigger]
                            is_half_angle(
                                m,
                                raw.larger(Scalar { bits: PARAMETER_HIGH }),
                                c.spec.throat_arc_down,
                                past.larger(Scalar { bits: SMALLEST_LENGTH }),
                                x,
                            ) && call_ensures(
                                M::part_way,
                                (m, half_angle_deg, x, Scalar { bits: ONE }),
                                got,
                            ),
                        (
                            ContourKind::ParabolicBell { bell_percent },
                            ContourKind::ParabolicBell { bell_percent: got },
                        ) => exists|reference: Scalar, x: Scalar|
                            {
                                &&& #[trigger] call_ensures(
                                    M::reference_length,
                                    (m, raw.larger(Scalar { bits: PARAMETER_HIGH })),
                                    reference,
                                )
                                &&& #[trigger] call_ensures(
                                    M::over,
                                    (m, past.larger(Scalar { bits: SMALLEST_LENGTH }), reference),
                                    x,
                                )
                                &&& call_ensures(
                                    M::part_way,
                                    (m, bell_percent, x, Scalar { bits: ONE }),
                                    got,
                                )
                            },
                        (
                            ContourKind::DirectBell { theta_n_deg, theta_e_deg, length_fraction },
                            ContourKind::DirectBell {
                                theta_n_deg: n,
                                theta_e_deg: e,
                                length_fraction: got,
                            },
                        ) => n == theta_n_deg && e == theta_e_deg && exists|reference: Scalar, x: Scalar|
                            {
                                &&& #[trigger] call_ensures(
                                    M::reference_length,
                                    (m, raw.larger(Scalar { bits: PARAMETER_HIGH })),
                                    reference,
                                )
                                &&& #[trigger] call_ensures(
                                    M::over,
                                    (m, past.larger(Scalar { bits: SMALLEST_LENGTH }), reference),
                                    x,
                                )
                                &&& call_ensures(
                                    M::part_way,
                                    (m, length_fraction, x, Scalar { bits: ONE }),
                                    got,
                                )
                            },
                        _ => false,
                    }
                },
            HandleId::ControlPoint => out.curve == c,
        },
{
    if !(c.wants(m, id, cursor, None) && out.curve == c) {
        let (want, have, p, full) = choose|
            want: (Scalar, Scalar),
            have: (Scalar, Scalar),
            p: (Scalar, Scalar),
            full: NozzleCurve,
        | #[trigger]
            c.has_pull(m, id, cursor, want, have, p, full, out);
        assert(c.has_trial(m, id, have, want, Scalar { bits: ONE }, p, full));
        if id == HandleId::ExitLip {
            let (z_t, past) = choose|z_t: Scalar, past: Scalar| #[trigger]
                c.asks_lip(m, folded(cursor), z_t, past, want);
            assert(call_ensures(M::past_throat, (m, cursor.z, z_t), past));
            assert(call_ensures(
                M::part_way,
                (m, c.lip_number(), want.1, Scalar { bits: ONE }),
                p.1,
            ));
        }
    }
}

/// A drag that is clamped stops at the brink: the wall asked for cannot be built, for
/// the reason given, and what it ends at is the wall it started from or one that can be
/// built a share of the way, with one a larger share of the way that cannot.
pub proof fn law_clamped_drags_stop_at_the_brink<M: HandleMath>(
    m: &M,
    c: NozzleCurve,
    id: HandleId,
    cursor: Point,
    out: DragOutcome,
    why: String,
) -> (r: (
    (Scalar, Scalar),
    (Scalar, Scalar),
    NozzleCurve,
    CfdError,
    Scalar,
    Scalar,
    (Scalar, Scalar),
    (Scalar, Scalar),
    (Scalar, Scalar),
    NozzleCurve,
    CfdError,
))
    requires
        c.has_drag(m, id, cursor, out),
        out.clamped == Some(why),
    ensures
        c.wants(m, id, cursor, Some(r.1)),
        c.has_param(m, id, r.0),
        c.has_trial(m, id, r.0, r.1, Scalar { bits: ONE }, r.6, r.2),
        r.2.has_feasibility(m, Err(r.3)),
        why@ == error::message_of(r.3),
        ({
            ||| r.4.bits == ZERO && out.curve == c
            ||| {
                &&& out.curve.has_feasibility(m, Ok(()))
                &&& c.has_trial(m, id, r.0, r.1, r.4, r.7, out.curve)
            }
        }),
        ({
            ||| r.5.bits == ONE
            ||| {
                &&& c.has_trial(m, id, r.0, r.1, r.5, r.8, r.9)
                &&& r.9.has_feasibility(m, Err(r.10))
            }
        }),
{
    let (want, have, p, full) = choose|
        want: (Scalar, Scalar),
        have: (Scalar, Scalar),
        p: (Scalar, Scalar),
        full: NozzleCurve,
    | #[trigger]
        c.has_pull(m, id, cursor, want, have, p, full, out);
    let e = choose|e: CfdError| #[trigger]
        full.has_feasibility(m, Err(e)) && why@ == error::message_of(e);
    let state = choose|state: Search| #[trigger]
        c.has_search(m, id, have, want, DRAG_HALVINGS as int, state) && out.curve == state.best;
    lemma_search_brackets(m, c, id, have, want, DRAG_HALVINGS as int, state);
    assert(c.has_trial(m, id, have, want, Scalar { bits: ONE }, p, full));
    let q = choose|q: (Scalar, Scalar)| #[trigger]
        c.has_trial(m, id, have, want, state.lo, q, state.best);
    let (s, trial, x) = choose|s: (Scalar, Scalar), trial: NozzleCurve, x: CfdError| #[trigger]
        c.has_trial(m, id, have, want, state.hi, s, trial)
            && #[trigger] trial.has_feasibility(m, Err(x));
    (have, want, full, e, state.lo, state.hi, p, q, s, trial, x)
}

proof fn lemma_search_brackets<M: HandleMath>(
    m: &M,
    c: NozzleCurve,
    id: HandleId,
    have: (Scalar, Scalar),
    want: (Scalar, Scalar),
    n: int,
    state: Search,
)
    requires
        c.has_search(m, id, have, want, n, state),
    ensures
        ({
            ||| state.lo.bits == ZERO && state.best == c
            ||| {
                &&& state.best.has_feasibility(m, Ok(()))
                &&& exists|p: (Scalar, Scalar)| #[trigger]
                    c.has_trial(m, id, have, want, state.lo, p, state.best)
            }
        }),
        ({
            ||| state.hi.bits == ONE
            ||| exists|p: (Scalar, Scalar), trial: NozzleCurve, e: CfdError| #[trigger]
                c.has_trial(m, id, have, want, state.hi, p, trial)
                    && #[trigger] trial.has_feasibility(m, Err(e))
        }),
    decreases n,
{
    if n > 0 {
        let (before, mid, p, trial) = choose|
            before: Search,
            mid: Scalar,
            p: (Scalar, Scalar),
            trial: NozzleCurve,
        | #[trigger]
            c.searches(m, id, have, want, before, mid, p, trial, state) && c.has_search(
                m,
                id,
                have,
                want,
                n - 1,
                before,
            );
        lemma_search_brackets(m, c, id, have, want, n - 1, before);
        assert(c.has_trial(m, id, have, want, mid, p, trial));
    }
}

/// The half angle found for a length fits it: the flattest for all lengths from that of
/// its own cone on, the steepest for all up to that of its own, and else the middle of
/// two angles of which the lower gives a cone too long and the upper one that is not.
pub proof fn law_half_angles_fit_their_lengths<M: HandleMath>(
    m: &M,
    area_ratio: Scalar,
    arc: Scalar,
    length: Scalar,
    x: Scalar,
)
    requires
        is_half_angle(m, area_ratio, arc, length, x),
    ensures
        ({
            ||| x.bits == FIFTH && exists|reach: Scalar| #[trigger]
                call_ensures(M::cone_length, (m, area_ratio, arc, x), reach) && reach.at_most(
                    length,
                )
            ||| x.bits == STEEP && exists|reach: Scalar| #[trigger]
                call_ensures(M::cone_length, (m, area_ratio, arc, x), reach) && length.at_most(
                    reach,
                )
            ||| exists|lo: Scalar, hi: Scalar, long: Scalar, short: Scalar|
                {
                    &&& #[trigger] call_ensures(M::middle, (m, lo, hi), x)
                    &&& #[trigger] call_ensures(M::cone_length, (m, area_ratio, arc, lo), long)
                    &&& #[trigger] call_ensures(M::cone_length, (m, area_ratio, arc, hi), short)
                    &&& !long.at_most(length)
                    &&& !length.below(short)
                }
        }),
{
    let (longest, shortest) = choose|longest: Scalar, shortest: Scalar|
        {
            &&& #[trigger] are_reaches(m, area_ratio, arc, longest, shortest)
            &&& if longest.at_most(length) {
                x.bits == FIFTH
            } else if length.at_most(shortest) {
                x.bits == STEEP
            } else {
                exists|lo: Scalar, hi: Scalar| #[trigger]
                    call_ensures(M::middle, (m, lo, hi), x) && is_angle_bracket(
                        m,
                        area_ratio,
                        arc,
                        length,
                        ANGLE_HALVINGS as int,
                        lo,
                        hi,
                    )
            }
        };
    assert(x == (Scalar { bits: x.bits }));
    if !longest.at_most(length) && !length.at_most(shortest) {
        let (lo, hi) = choose|lo: Scalar, hi: Scalar| #[trigger]
            call_ensures(M::middle, (m, lo, hi), x) && is_angle_bracket(
                m,
                area_ratio,
                arc,
                length,
                ANGLE_HALVINGS as int,
                lo,
                hi,
            );
        lemma_angle_bracket(
            m,
            area_ratio,
            arc,
            length,
            ANGLE_HALVINGS as int,
            lo,
            hi,
            longest,
            shortest,
        );
    }
}

proof fn lemma_angle_bracket<M: HandleMath>(
    m: &M,
    area_ratio: Scalar,
    arc: Scalar,
    length: Scalar,
    n: int,
    lo: Scalar,
    hi: Scalar,
    longest: Scalar,
    shortest: Scalar,
)
    requires
        is_angle_bracket(m, area_ratio, arc, length, n, lo, hi),
        are_reaches(m, area_ratio, arc, longest, shortest),
        !longest.at_most(length),
        !length.at_most(shortest),
    ensures
        exists|long: Scalar| #[trigger]
            call_ensures(M::cone_length, (m, area_ratio, arc, lo), long) && !long.at_most(length),
        exists|short: Scalar| #[trigger]
            call_ensures(M::cone_length, (m, area_ratio, arc, hi), short) && !length.below(short),
    decreases n,
{
    if n <= 0 {
        assert(lo == (Scalar { bits: FIFTH }));
        assert(hi == (Scalar { bits: STEEP }));
    } else {
        let (lo0, hi0, mid, reach) = choose|
            lo0: Scalar,
            hi0: Scalar,
            mid: Scalar,
            reach: Scalar,
        | #[trigger]
            narrows(m, area_ratio, arc, length, lo0, hi0, mid, reach, lo, hi) && is_angle_bracket(
                m,
                area_ratio,
                arc,
                length,
                n - 1,
                lo0,
                hi0,
            );
        lemma_angle_bracket(m, area_ratio, arc, length, n - 1, lo0, hi0, longest, shortest);
    }
}

/// A wall that can be built runs forward, falls through its first three pieces and rises
/// behind them, up to a hair.
pub proof fn law_buildable_walls_fall_and_rise<M: CurveMath>(m: &M, c: NozzleCurve, i: int) -> (r: (
    Vec<Piece>,
    Point,
    Point,
))
    requires
        c.has_feasibility(m, Ok(())),
    ensures
        c.laid_out(m, Ok(r.0)),
        0 <= i < r.0.len() ==> {
            &&& r.0[i].has_point(m, Scalar { bits: ZERO }, r.1)
            &&& r.0[i].has_point(m, Scalar { bits: ONE }, r.2)
            &&& r.1.z.below(r.2.z)
            &&& i <= 2 ==> exists|limit: Scalar| #[trigger]
                call_ensures(M::hair_beyond, (m, r.1.r), limit) && !limit.below(r.2.r)
            &&& i > 2 ==> exists|limit: Scalar| #[trigger]
                call_ensures(M::hair_before, (m, r.1.r), limit) && !r.2.r.below(limit)
        },
{
    let v = choose|v: Vec<Piece>| #[trigger]
        c.laid_out(m, Ok(v)) && is_shape_verdict(m, v@, Ok(()));
    if 0 <= i < v.len() {
        assert(fits(m, v@, i));
    }
    let (a, b, limit) = choose|a: Point, b: Point, limit: Scalar| #[trigger]
        spans(m, v@, i, a, b, limit) && goes_well(i, a, b, limit);
    (v, a, b)
}

/// A wall whose pieces can be laid out is turned down only for a piece that stands still
/// or runs back, that widens before the throat or that narrows behind it.
pub proof fn law_unbuildable_walls_have_a_bad_piece<M: CurveMath>(
    m: &M,
    c: NozzleCurve,
    e: CfdError,
)
    requires
        c.has_feasibility(m, Err(e)),
        !c.laid_out(m, Err(e)),
    ensures
        exists|v: Vec<Piece>, i: int, a: Point, b: Point|
            {
                &&& #[trigger] c.laid_out(m, Ok(v))
                &&& 0 <= i < v.len()
                &&& #[trigger] v[i].has_point(m, Scalar { bits: ZERO }, a)
                &&& #[trigger] v[i].has_point(m, Scalar { bits: ONE }, b)
                &&& {
                    ||| !a.z.below(b.z)
                    ||| i <= 2 && exists|limit: Scalar| #[trigger]
                        call_ensures(M::hair_beyond, (m, a.r), limit) && limit.below(b.r)
                    ||| i > 2 && exists|limit: Scalar| #[trigger]
                        call_ensures(M::hair_before, (m, a.r), limit) && b.r.below(limit)
                }
            },
{
    let v = choose|v: Vec<Piece>| #[trigger]
        c.laid_out(m, Ok(v)) && is_shape_verdict(m, v@, Err(e));
    let (i, a, b, limit) = choose|i: int, a: Point, b: Point, limit: Scalar| #[trigger]
        is_misfit(m, v@, i, a, b, limit, e);
    assert(v[i].has_point(m, Scalar { bits: ZERO }, a));
    assert(v[i].has_point(m, Scalar { bits: ONE }, b));
}

/// The handles before the throat sit on the wall: the chamber radius at the head, the
/// chamber end at the shoulder, the converging angle half way down from the shoulder to
/// the arc, and the arc's own on its crest; each shows the number it stands for.
pub proof fn law_upstream_handles_sit_on_the_wall<M: HandleMath>(
    m: &M,
    c: NozzleCurve,
    v: Seq<Handle>,
) -> (r: (Scalar, Scalar, Point))
    requires
        c.are_handles(m, v),
    ensures
        call_ensures(M::throat_station, (m, c.spec, c.chamber_len_rt), r.0),
        call_ensures(M::radians, (m, c.spec.converge_half_angle_deg), r.1),
        call_ensures(M::upstream_tangency, (m, c.spec, r.0), r.2),
        v[0].id == HandleId::ChamberRadius,
        v[0].value == c.spec.contraction_ratio,
        v[0].anchor.z.bits == ZERO,
        call_ensures(M::square_root, (m, c.spec.contraction_ratio), v[0].anchor.r),
        v[1].id == HandleId::ChamberEnd,
        v[1].value == c.chamber_len_rt,
        v[1].anchor.z == c.chamber_len_rt,
        v[1].anchor.r == v[0].anchor.r,
        v[2].id == HandleId::ConvergeAngle,
        v[2].value == c.spec.converge_half_angle_deg,
        call_ensures(M::converge_middle, (m, v[1].anchor, r.2), v[2].anchor),
        v[3].id == HandleId::ThroatArcUp,
        v[3].value == c.spec.throat_arc_up,
        call_ensures(
            M::arc_middle,
            (m, r.0, c.spec.throat_arc_up, Scalar { bits: MINUS_ONE }, r.1),
            v[3].anchor,
        ),
        v[4].id == HandleId::ThroatArcDown,
        v[4].value == c.spec.throat_arc_down,
        forall|i: int| 0 <= i < 5 ==> (#[trigger] v[i]).kind is Point && v[i].pickable,
{
    let (z_t, rc, beta, up, mid, crest) = choose|
        z_t: Scalar,
        rc: Scalar,
        beta: Scalar,
        up: Point,
        mid: Point,
        crest: Point,
    | #[trigger]
        c.has_upstream_handles(m, z_t, rc, beta, up, mid, crest, v) && c.has_downstream_handles(
            m,
            z_t,
            v,
        );
    assert forall|i: int| 0 <= i < 5 implies (#[trigger] v[i]).kind is Point && v[i].pickable by {
        assert(i == 0 || i == 1 || i == 2 || i == 3 || i == 4);
    }
    (z_t, beta, up)
}

/// The handles behind the throat of a cone: the arc's on its crest at the half angle, and
/// the lip's at the end of the wall, on the circle of the area ratio.
pub proof fn law_cone_handles_sit_on_the_wall<M: HandleMath>(
    m: &M,
    c: NozzleCurve,
    v: Seq<Handle>,
    half_angle_deg: Scalar,
) -> (r: (Scalar, Scalar, Scalar))
    requires
        c.are_handles(m, v),
        c.spec.contour == (ContourKind::Conical { half_angle_deg }),
    ensures
        v.len() == 6,
        call_ensures(M::throat_station, (m, c.spec, c.chamber_len_rt), r.0),
        call_ensures(M::radians, (m, half_angle_deg), r.1),
        call_ensures(
            M::arc_middle,
            (m, r.0, c.spec.throat_arc_down, Scalar { bits: ONE }, r.1),
            v[4].anchor,
        ),
        c.has_divergent_len(m, Ok(r.2)),
        v[5].id == HandleId::ExitLip,
        v[5].kind is Point,
        v[5].value == c.spec.area_ratio,
        call_ensures(M::farther, (m, r.0, r.2), v[5].anchor.z),
        call_ensures(M::square_root, (m, c.spec.area_ratio), v[5].anchor.r),
{
    let (z_t, rc, beta, up, mid, top) = choose|
        z_t: Scalar,
        rc: Scalar,
        beta: Scalar,
        up: Point,
        mid: Point,
        top: Point,
    | #[trigger]
        c.has_upstream_handles(m, z_t, rc, beta, up, mid, top, v) && c.has_downstream_handles(
            m,
            z_t,
            v,
        );
    let (alpha, crest, length, lip) = choose|
        alpha: Scalar,
        crest: Point,
        length: Scalar,
        lip: Point,
    | #[trigger]
        c.has_cone_handles(m, half_angle_deg, z_t, alpha, crest, length, lip, v);
    (z_t, alpha, length)
}

/// The handles behind the throat of a bell: the angle at the throat where the arc meets
/// the bell and pointing downstream, the angle at the exit and the lip at its end, the
/// former pointing upstream, and the control point where their tangents meet.
pub proof fn law_bell_handles_sit_on_the_wall<M: HandleMath>(
    m: &M,
    c: NozzleCurve,
    v: Seq<Handle>,
) -> (r: (Scalar, BellGeometry, Scalar, Scalar))
    requires
        c.are_handles(m, v),
        !(c.spec.contour is Conical),
    ensures
        v.len() == 9,
        call_ensures(M::throat_station, (m, c.spec, c.chamber_len_rt), r.0),
        c.has_bell(m, Ok(r.1)),
        call_ensures(M::radians, (m, r.1.theta_n_deg), r.2),
        call_ensures(M::radians, (m, r.1.theta_e_deg), r.3),
        call_ensures(
            M::arc_middle,
            (m, r.0, c.spec.throat_arc_down, Scalar { bits: ONE }, r.2),
            v[4].anchor,
        ),
        v[5].id == HandleId::ThetaN,
        v[5].value == r.1.theta_n_deg,
        call_ensures(M::shifted, (m, r.1.n, r.0), v[5].anchor),
        v[5].kind matches HandleKind::Tangent { dir } && call_ensures(M::along, (m, r.2), dir),
        v[6].id == HandleId::ThetaE,
        v[6].value == r.1.theta_e_deg,
        call_ensures(M::shifted, (m, r.1.e, r.0), v[6].anchor),
        v[6].kind matches HandleKind::Tangent { dir } && call_ensures(M::against, (m, r.3), dir),
        v[7].id == HandleId::ExitLip,
        v[7].kind is Point,
        v[7].value == c.spec.area_ratio,
        v[7].anchor == v[6].anchor,
        v[8].id == HandleId::ControlPoint,
        v[8].kind is Derived && !v[8].pickable,
        v[8].value == r.1.q.z,
        call_ensures(M::shifted, (m, r.1.q, r.0), v[8].anchor),
{
    let (z_t, rc, beta, up, mid, top) = choose|
        z_t: Scalar,
        rc: Scalar,
        beta: Scalar,
        up: Point,
        mid: Point,
        top: Point,
    | #[trigger]
        c.has_upstream_handles(m, z_t, rc, beta, up, mid, top, v) && c.has_downstream_handles(
            m,
            z_t,
            v,
        );
    let (b, tn, crest, n, q, e, behind, before) = choose|
        b: BellGeometry,
        tn: Scalar,
        crest: Point,
        n: Point,
        q: Point,
        e: Point,
        behind: Point,
        before: Point,
    | #[trigger]
        c.has_bell_handles(m, z_t, b, tn, crest, n, q, e, behind, before, v);
    let te = choose|te: Scalar| #[trigger]
        c.has_bell_directions(m, b, tn, te, behind, before);
    (z_t, b, tn, te)
}

/// A handle that is let go where it was picked up does not move: where squares undo
/// roots and an arc goes through its own crest, a free drag of the chamber radius, the
/// chamber end or the upstream arc to its own anchor asks for the number that it shows,
/// once that is one a drag can ask for.
pub proof fn law_handles_rest_where_they_are_drawn<M: HandleMath>(
    m: &M,
    c: NozzleCurve,
    v: Seq<Handle>,
    i: int,
    out: DragOutcome,
)
    requires
        c.are_handles(m, v),
        i == 0 || i == 1 || i == 3,
        c.has_drag(m, v[i].id, v[i].anchor, out),
        out.clamped is None,
        forall|x: Scalar, root: Scalar, square: Scalar| #[trigger]
            call_ensures(M::square_root, (m, x), root) && #[trigger] call_ensures(
                M::area_of,
                (m, Scalar { bits: root.magnitude() as u64 }),
                square,
            ) ==> square == x,
        forall|a: Scalar, b: Scalar| #![auto]
            call_ensures(M::radians, (m, c.spec.converge_half_angle_deg), a) && call_ensures(
                M::radians,
                (m, c.spec.converge_half_angle_deg),
                b,
            ) ==> a == b,
        forall|z: Scalar, radius: Scalar, angle: Scalar, crest: Point, back: Scalar| #[trigger]
            call_ensures(
                M::arc_middle,
                (m, z, radius, Scalar { bits: MINUS_ONE }, angle),
                crest,
            ) && #[trigger] call_ensures(
                M::arc_through,
                (m, angle, Scalar { bits: crest.r.magnitude() as u64 }),
                back,
            ) ==> back == radius,
        i == 0 ==> v[i].value.larger(Scalar { bits: PARAMETER_HIGH }) == v[i].value,
        i != 0 ==> v[i].value.larger(Scalar { bits: SMALLEST_LENGTH }) == v[i].value,
        forall|x: Scalar, y: Scalar| #[trigger]
            call_ensures(M::part_way, (m, x, x, Scalar { bits: ONE }), y) ==> y == x,
    ensures
        out.curve == c,
{
    let (z_t, rc, beta, up, mid, crest) = choose|
        z_t: Scalar,
        rc: Scalar,
        beta: Scalar,
        up: Point,
        mid: Point,
        crest: Point,
    | #[trigger]
        c.has_upstream_handles(m, z_t, rc, beta, up, mid, crest, v) && c.has_downstream_handles(
            m,
            z_t,
            v,
        );
    law_free_drags_end_at_the_cursor(m, c, v[i].id, v[i].anchor, out);
    law_drags_leave_the_rest(m, c, v[i].id, v[i].anchor, out);
    let s = c.spec;
    let t = out.curve.spec;
    assert(t.contour == s.contour && t.area_ratio == s.area_ratio);
    if i == 0 {
        assert(t.contraction_ratio == s.contraction_ratio);
    } else if i == 1 {
        assert(out.curve.chamber_len_rt == c.chamber_len_rt);
    } else {
        assert(t.throat_arc_up == s.throat_arc_up);
    }
    assert(t == s);
}

/// The numbers of a handle are the wall's own: setting them to what they are changes
/// nothing, and what is set is what the handle carries from then on. The handles of a
/// bell's angles carry those of the bell.
pub proof fn law_handles_carry_what_they_set<M: CurveMath>(
    m: &M,
    c: NozzleCurve,
    id: HandleId,
    now: (Scalar, Scalar),
    p: (Scalar, Scalar),
    same: NozzleCurve,
    after: NozzleCurve,
    q: (Scalar, Scalar),
)
    requires
        c.has_param(m, id, now),
        c.has_set(m, id, now, same),
        c.has_set(m, id, p, after),
        after.has_param(m, id, q),
    ensures
        !(id is ThetaN || id is ThetaE) ==> same == c,
        !(id is ThetaN || id is ThetaE || id is ControlPoint) ==> q.0 == p.0,
        id is ExitLip ==> q.1 == p.1,
        id is ThetaN ==> now.0.bits == ZERO || exists|b: BellGeometry| #[trigger]
            c.has_bell(m, Ok(b)) && now.0 == b.theta_n_deg,
        id is ThetaE ==> now.0.bits == ZERO || exists|b: BellGeometry| #[trigger]
            c.has_bell(m, Ok(b)) && now.0 == b.theta_e_deg,
        id is ThetaN && after != c ==> (after.spec.contour matches ContourKind::DirectBell {
            theta_n_deg,
            theta_e_deg,
            ..
        } && theta_n_deg == p.0 && exists|b: BellGeometry| #[trigger]
            c.has_bell(m, Ok(b)) && theta_e_deg == b.theta_e_deg),
        id is ThetaE && after != c ==> (after.spec.contour matches ContourKind::DirectBell {
            theta_n_deg,
            theta_e_deg,
            ..
        } && theta_e_deg == p.0 && exists|b: BellGeometry| #[trigger]
            c.has_bell(m, Ok(b)) && theta_n_deg == b.theta_n_deg),
{
}

/// A bracket of half angles is halved at its middle: the half stays whose ends reach past
/// the length and short of it.
pub proof fn law_brackets_are_halved<M: HandleMath>(
    m: &M,
    area_ratio: Scalar,
    arc: Scalar,
    length: Scalar,
    lo: Scalar,
    hi: Scalar,
    mid: Scalar,
    reach: Scalar,
    lo2: Scalar,
    hi2: Scalar,
)
    requires
        narrows(m, area_ratio, arc, length, lo, hi, mid, reach, lo2, hi2),
    ensures
        call_ensures(M::middle, (m, lo, hi), mid),
        call_ensures(M::cone_length, (m, area_ratio, arc, mid), reach),
        length.below(reach) ==> lo2 == mid && hi2 == hi,
        reach.at_most(length) ==> lo2 == lo && hi2 == mid,
{
}

} // verus!
