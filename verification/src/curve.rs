//! The wall of a nozzle as a curve of lines, arcs and a parabola.

use vstd::prelude::*;
use crate::contour;
use crate::contour::{ContourKind, ContourMath, NozzleSpec};
use crate::error::CfdError;
use crate::profile::Point;
use crate::rao;
use crate::rao::{rao_angles, RaoMath};
use crate::scalar::{Scalar, ONE, ZERO};
use crate::text::Show;

verus! {

/// The pattern of the usual length of the chamber, two throat radii.
pub const CHAMBER_LEN_RT: u64 = 0x4000_0000_0000_0000;

/// The pattern of minus one.
pub const MINUS_ONE: u64 = 0xBFF0_0000_0000_0000;

/// The pattern of the slack below a curve parameter, -1e-9.
pub const PARAMETER_LOW: u64 = 0xBE11_2E0B_E826_D695;

/// The pattern of the slack above a curve parameter, 1 + 1e-9.
pub const PARAMETER_HIGH: u64 = 0x3FF0_0000_0044_B830;

/// A wall: a spec and the length of its chamber in throat radii.
#[derive(Debug, Clone, Copy, PartialEq)]
pub struct NozzleCurve {
    pub spec: NozzleSpec,
    pub chamber_len_rt: Scalar,
}

/// One piece of the wall, in throat radii from the chamber head.
#[derive(Debug, Clone, Copy, PartialEq)]
pub enum Piece {
    Line { a: Point, b: Point },
    /// An arc at the throat, by its wall angle; the sign is minus one upstream.
    ThroatArc { z_t: Scalar, radius: Scalar, sign: Scalar, phi0: Scalar, phi1: Scalar },
    Bezier { n: Point, q: Point, e: Point },
}

/// The three points of a bell, measured from the throat, and its two angles.
#[derive(Debug, Clone, Copy, PartialEq)]
pub struct BellGeometry {
    pub n: Point,
    pub q: Point,
    pub e: Point,
    pub theta_n_deg: Scalar,
    pub theta_e_deg: Scalar,
}

/// The three coefficients of a quadratic.
#[derive(Debug, Clone, Copy, PartialEq)]
pub struct Quadratic {
    pub a: Scalar,
    pub b: Scalar,
    pub c: Scalar,
}

/// The floating-point formulas of the curve.
pub trait CurveMath: ContourMath + RaoMath {
    /// The station of the throat.
    fn throat_station(&self, spec: NozzleSpec, chamber_len: Scalar) -> Scalar;

    /// An angle in radians.
    fn radians(&self, deg: Scalar) -> Scalar;

    /// Where the converging cone meets the upstream arc.
    fn upstream_tangency(&self, spec: NozzleSpec, z_t: Scalar) -> Point;

    /// Where the downstream arc has turned by an angle.
    fn downstream_tangency(&self, arc: Scalar, angle_deg: Scalar, z_t: Scalar) -> Point;

    /// The length of a cone from the throat to the exit.
    fn cone_length(&self, area_ratio: Scalar, arc: Scalar, half_angle_deg: Scalar) -> Scalar;

    /// The length of the reference cone that bells are measured by.
    fn reference_length(&self, area_ratio: Scalar) -> Scalar;

    /// A product.
    fn times(&self, a: Scalar, b: Scalar) -> Scalar;

    /// A quotient.
    fn over(&self, a: Scalar, b: Scalar) -> Scalar;

    /// A sum of two stations.
    fn farther(&self, a: Scalar, b: Scalar) -> Scalar;

    /// The three points of a bell.
    fn bell_points(
        &self,
        arc: Scalar,
        exit: Scalar,
        length: Scalar,
        theta_n_deg: Scalar,
        theta_e_deg: Scalar,
    ) -> (Point, Point, Point);

    /// A point moved along the axis.
    fn shifted(&self, p: Point, z: Scalar) -> Point;

    /// The point of a line at a parameter.
    fn line_point(&self, a: Point, b: Point, t: Scalar) -> Point;

    /// The point of an arc at a parameter.
    fn arc_point(
        &self,
        z_t: Scalar,
        radius: Scalar,
        sign: Scalar,
        phi0: Scalar,
        phi1: Scalar,
        t: Scalar,
    ) -> Point;

    /// The point of a parabola at a parameter.
    fn bezier_point(&self, n: Point, q: Point, e: Point, t: Scalar) -> Point;

    /// The angle that an arc turns by.
    fn arc_turn(&self, phi0: Scalar, phi1: Scalar) -> Scalar;

    /// The angle that a parabola turns by.
    fn bezier_turn(&self, n: Point, q: Point, e: Point) -> Scalar;

    /// The segments that keep each turn within a limit in degrees.
    fn turn_segments(&self, turn: Scalar, max_turn_deg: Scalar) -> usize;

    /// The segments, not yet whole, that keep an arc within a tolerance.
    fn arc_segments(&self, radius: Scalar, phi0: Scalar, phi1: Scalar, tol: Scalar) -> Scalar;

    /// The segments, not yet whole, that keep a parabola within a tolerance.
    fn bezier_segments(&self, n: Point, q: Point, e: Point, tol: Scalar) -> Scalar;

    /// A number of segments rounded up, one at least.
    fn whole_segments(&self, x: Scalar) -> usize;

    /// The radius of a line at a station.
    fn line_radius(&self, a: Point, b: Point, z: Scalar) -> Scalar;

    /// The radius of an arc at a station.
    fn arc_radius(&self, z_t: Scalar, radius: Scalar, sign: Scalar, z: Scalar) -> Scalar;

    /// The radius of a parabola at a parameter.
    fn bezier_radius(&self, n: Point, q: Point, e: Point, t: Scalar) -> Scalar;

    /// The unit direction of a line.
    fn line_direction(&self, a: Point, b: Point) -> Point;

    /// The unit direction of an arc at a station.
    fn arc_direction(&self, z_t: Scalar, radius: Scalar, sign: Scalar, z: Scalar) -> Point;

    /// The unit direction of a parabola at a parameter.
    fn bezier_direction(&self, n: Point, q: Point, e: Point, t: Scalar) -> Point;

    /// The quadratic whose root is the parameter of a station.
    fn station_quadratic(&self, n: Scalar, q: Scalar, e: Scalar, z: Scalar) -> Quadratic;

    /// The leading coefficient below which a quadratic of this scale counts as linear.
    fn linear_limit(&self, scale: Scalar) -> Scalar;

    /// The root of the linear rest of a quadratic.
    fn linear_root(&self, b: Scalar, c: Scalar) -> Scalar;

    /// The discriminant of a quadratic.
    fn discriminant(&self, k: Quadratic) -> Scalar;

    /// Minus half the sum of the linear coefficient and the root of the discriminant.
    fn root_seed(&self, b: Scalar, root: Scalar) -> Scalar;

    /// A station a hair before another.
    fn hair_before(&self, z: Scalar) -> Scalar;

    /// A station a hair beyond another.
    fn hair_beyond(&self, z: Scalar) -> Scalar;
}

impl Piece {
    /// The piece is a line.
    pub open spec fn straight(self) -> bool {
        self is Line
    }

    /// Whether the piece is a line.
    pub fn is_straight(&self) -> (r: bool)
        ensures
            r == self.straight(),
    {
        match *self {
            Piece::Line { .. } => true,
            _ => false,
        }
    }

    /// `p` is the point of the piece at the parameter `t`.
    pub open spec fn has_point<M: CurveMath>(self, m: &M, t: Scalar, p: Point) -> bool {
        match self {
            Piece::Line { a, b } => call_ensures(M::line_point, (m, a, b, t), p),
            Piece::ThroatArc { z_t, radius, sign, phi0, phi1 } => call_ensures(
                M::arc_point,
                (m, z_t, radius, sign, phi0, phi1, t),
                p,
            ),
            Piece::Bezier { n, q, e } => call_ensures(M::bezier_point, (m, n, q, e, t), p),
        }
    }

    /// The point of the piece at the parameter `t`.
    pub fn point_at<M: CurveMath>(&self, m: &M, t: Scalar) -> (p: Point)
        ensures
            self.has_point(m, t, p),
    {
        match *self {
            Piece::Line { a, b } => m.line_point(a, b, t),
            Piece::ThroatArc { z_t, radius, sign, phi0, phi1 } => {
                m.arc_point(z_t, radius, sign, phi0, phi1, t)
            },
            Piece::Bezier { n, q, e } => m.bezier_point(n, q, e, t),
        }
    }

    /// The first point.
    pub fn start<M: CurveMath>(&self, m: &M) -> (p: Point)
        ensures
            self.has_point(m, Scalar { bits: ZERO }, p),
    {
        self.point_at(m, Scalar { bits: ZERO })
    }

    /// The last point.
    pub fn end<M: CurveMath>(&self, m: &M) -> (p: Point)
        ensures
            self.has_point(m, Scalar { bits: ONE }, p),
    {
        self.point_at(m, Scalar { bits: ONE })
    }

    /// `turn` is the angle that the piece turns by.
    pub open spec fn turns<M: CurveMath>(self, m: &M, turn: Scalar) -> bool {
        match self {
            Piece::Line { .. } => turn.bits == ZERO,
            Piece::ThroatArc { z_t, radius, sign, phi0, phi1 } => call_ensures(
                M::arc_turn,
                (m, phi0, phi1),
                turn,
            ),
            Piece::Bezier { n, q, e } => call_ensures(M::bezier_turn, (m, n, q, e), turn),
        }
    }

    /// The angle in radians that the piece turns by.
    pub fn turn<M: CurveMath>(&self, m: &M) -> (turn: Scalar)
        ensures
            self.turns(m, turn),
    {
        match *self {
            Piece::Line { .. } => Scalar { bits: ZERO },
            Piece::ThroatArc { z_t, radius, sign, phi0, phi1 } => m.arc_turn(phi0, phi1),
            Piece::Bezier { n, q, e } => m.bezier_turn(n, q, e),
        }
    }

    /// The fewest segments: one for a line, two for a curve.
    pub open spec fn fewest(self) -> usize {
        if self.straight() {
            1
        } else {
            2
        }
    }

    /// The fewest segments.
    pub fn min_segments(&self) -> (n: usize)
        ensures
            n == self.fewest(),
    {
        if self.is_straight() {
            1
        } else {
            2
        }
    }

    /// `x` is the number of segments, not yet whole, that a tolerance asks for.
    pub open spec fn asks_for<M: CurveMath>(self, m: &M, tol: Scalar, x: Scalar) -> bool {
        match self {
            Piece::Line { .. } => x.bits == ONE,
            Piece::ThroatArc { z_t, radius, sign, phi0, phi1 } => call_ensures(
                M::arc_segments,
                (m, radius, phi0, phi1, tol),
                x,
            ),
            Piece::Bezier { n, q, e } => call_ensures(M::bezier_segments, (m, n, q, e, tol), x),
        }
    }

    /// `n` segments are enough for the turn and for the tolerance: the larger of
    /// both numbers and of the fewest.
    pub open spec fn is_count<M: CurveMath>(
        self,
        m: &M,
        tol: Scalar,
        max_turn_deg: Scalar,
        turn: Scalar,
        by_turn: usize,
        x: Scalar,
        by_chord: usize,
        n: usize,
    ) -> bool {
        &&& self.turns(m, turn)
        &&& call_ensures(M::turn_segments, (m, turn, max_turn_deg), by_turn)
        &&& self.asks_for(m, tol, x)
        &&& if x.finite() {
            call_ensures(M::whole_segments, (m, x), by_chord)
        } else {
            by_chord == 2
        }
        &&& n == most(by_chord, by_turn, self.fewest())
    }

    /// `n` is the number of segments of the piece.
    pub open spec fn has_segments<M: CurveMath>(
        self,
        m: &M,
        tol: Scalar,
        max_turn_deg: Scalar,
        n: usize,
    ) -> bool {
        if self.straight() {
            n == 1
        } else {
            exists|turn: Scalar, by_turn: usize, x: Scalar, by_chord: usize| #[trigger]
                self.is_count(m, tol, max_turn_deg, turn, by_turn, x, by_chord, n)
        }
    }

    /// The segments that keep both the tolerance and the turn.
    pub fn segments<M: CurveMath>(&self, m: &M, tol: Scalar, max_turn_deg: Scalar) -> (n: usize)
        ensures
            self.has_segments(m, tol, max_turn_deg, n),
            n >= self.fewest(),
    {
        if self.is_straight() {
            return 1;
        }
        let turn = self.turn(m);
        let by_turn: usize = m.turn_segments(turn, max_turn_deg);
        let x = match *self {
            Piece::Line { .. } => Scalar { bits: ONE },
            Piece::ThroatArc { z_t, radius, sign, phi0, phi1 } => {
                m.arc_segments(radius, phi0, phi1, tol)
            },
            Piece::Bezier { n, q, e } => m.bezier_segments(n, q, e, tol),
        };
        let by_chord: usize = if x.is_finite() {
            m.whole_segments(x)
        } else {
            2
        };
        let fewest: usize = self.min_segments();
        let larger: usize = if by_chord > by_turn {
            by_chord
        } else {
            by_turn
        };
        let n: usize = if larger > fewest {
            larger
        } else {
            fewest
        };
        assert(self.is_count(m, tol, max_turn_deg, turn, by_turn, x, by_chord, n));
        n
    }

    /// `r` is the radius at the station `z`, if the piece has one there.
    pub open spec fn has_radius<M: CurveMath>(self, m: &M, z: Scalar, r: Option<Scalar>) -> bool {
        match self {
            Piece::Line { a, b } => {
                &&& r is Some
                &&& if b.z.at_most(a.z) {
                    r == Some(a.r)
                } else {
                    call_ensures(M::line_radius, (m, a, b, z), r->0)
                }
            },
            Piece::ThroatArc { z_t, radius, sign, phi0, phi1 } => {
                &&& r is Some
                &&& call_ensures(M::arc_radius, (m, z_t, radius, sign, z), r->0)
            },
            Piece::Bezier { n, q, e } => exists|t: Option<Scalar>|
                {
                    &&& #[trigger] is_parameter(m, n.z, q.z, e.z, z, t)
                    &&& r is Some <==> t is Some
                    &&& t is Some ==> call_ensures(M::bezier_radius, (m, n, q, e, t->0), r->0)
                },
        }
    }

    /// The radius at the station `z`.
    pub fn radius_at<M: CurveMath>(&self, m: &M, z: Scalar) -> (r: Option<Scalar>)
        ensures
            self.has_radius(m, z, r),
    {
        match *self {
            Piece::Line { a, b } => {
                if b.z.le(a.z) {
                    Some(a.r)
                } else {
                    Some(m.line_radius(a, b, z))
                }
            },
            Piece::ThroatArc { z_t, radius, sign, phi0, phi1 } => {
                Some(m.arc_radius(z_t, radius, sign, z))
            },
            Piece::Bezier { n, q, e } => {
                let t = bezier_t_at_z(m, n.z, q.z, e.z, z);
                match t {
                    None => None,
                    Some(x) => Some(m.bezier_radius(n, q, e, x)),
                }
            },
        }
    }

    /// `d` is the unit direction at the station `z`.
    pub open spec fn has_direction<M: CurveMath>(self, m: &M, z: Scalar, d: Point) -> bool {
        match self {
            Piece::Line { a, b } => call_ensures(M::line_direction, (m, a, b), d),
            Piece::ThroatArc { z_t, radius, sign, phi0, phi1 } => call_ensures(
                M::arc_direction,
                (m, z_t, radius, sign, z),
                d,
            ),
            Piece::Bezier { n, q, e } => exists|t: Option<Scalar>| #[trigger]
                is_parameter(m, n.z, q.z, e.z, z, t) && call_ensures(
                    M::bezier_direction,
                    (m, n, q, e, or_zero(t)),
                    d,
                ),
        }
    }

    /// The unit direction at the station `z`.
    pub fn tangent_at<M: CurveMath>(&self, m: &M, z: Scalar) -> (d: Point)
        ensures
            self.has_direction(m, z, d),
    {
        match *self {
            Piece::Line { a, b } => m.line_direction(a, b),
            Piece::ThroatArc { z_t, radius, sign, phi0, phi1 } => {
                m.arc_direction(z_t, radius, sign, z)
            },
            Piece::Bezier { n, q, e } => {
                let t = bezier_t_at_z(m, n.z, q.z, e.z, z);
                let x = match t {
                    None => Scalar { bits: ZERO },
                    Some(x) => x,
                };
                m.bezier_direction(n, q, e, x)
            },
        }
    }
}

/// The largest of three numbers.
pub open spec fn most(a: usize, b: usize, c: usize) -> usize {
    if a >= b && a >= c {
        a
    } else if b >= c {
        b
    } else {
        c
    }
}

/// A parameter, or zero where there is none.
pub open spec fn or_zero(t: Option<Scalar>) -> Scalar {
    match t {
        Some(x) => x,
        None => Scalar { bits: ZERO },
    }
}

/// `t` is a parameter of a curve, with a little slack.
pub open spec fn in_reach(t: Scalar) -> bool {
    (Scalar { bits: PARAMETER_LOW }).at_most(t) && t.at_most(Scalar { bits: PARAMETER_HIGH })
}

/// `t` held between the ends of a curve.
pub open spec fn between_ends(t: Scalar) -> Scalar {
    t.held_between(Scalar { bits: ZERO }, Scalar { bits: ONE })
}

/// The scale of a quadratic: the size of its linear coefficient, and no less than one.
pub open spec fn scale_of(b: Scalar) -> Scalar {
    (Scalar { bits: b.magnitude() as u64 }).larger(Scalar { bits: ONE })
}

/// `h` is the auxiliary value from which both roots follow without cancellation: the
/// root of the discriminant has the sign of the linear coefficient.
pub open spec fn is_seed<M: CurveMath>(m: &M, b: Scalar, disc: Scalar, h: Scalar) -> bool {
    exists|root: Scalar| #[trigger]
        call_ensures(M::square_root, (m, disc), root) && call_ensures(
            M::root_seed,
            (
                m,
                b,
                if (Scalar { bits: ZERO }).at_most(b) {
                    root
                } else {
                    root.negated()
                },
            ),
            h,
        )
}

/// The two candidates for the root of a quadratic.
pub open spec fn are_roots<M: CurveMath>(
    m: &M,
    k: Quadratic,
    disc: Scalar,
    h: Scalar,
    t0: Scalar,
    t1: Scalar,
) -> bool {
    &&& is_seed(m, k.b, disc, h)
    &&& call_ensures(M::over, (m, h, k.a), t0)
    &&& if h.equals(Scalar { bits: ZERO }) {
        call_ensures(M::over, (m, h, k.a), t1)
    } else {
        call_ensures(M::over, (m, k.c, h), t1)
    }
}

/// `t` is the parameter with the station `z` on a parabola with these stations:
/// from the linear rest where the quadratic is as good as linear, else the first
/// of the two roots that is a parameter; none where there is no such root.
pub open spec fn is_parameter_of<M: CurveMath>(
    m: &M,
    k: Quadratic,
    limit: Scalar,
    t: Option<Scalar>,
) -> bool {
    let zero = Scalar { bits: ZERO };
    &&& call_ensures(M::linear_limit, (m, scale_of(k.b)), limit)
    &&& if (Scalar { bits: k.a.magnitude() as u64 }).below(limit) {
        if zero.below(Scalar { bits: k.b.magnitude() as u64 }) {
            &&& t is Some
            &&& exists|x: Scalar| #[trigger]
                call_ensures(M::linear_root, (m, k.b, k.c), x) && t == Some(between_ends(x))
        } else {
            t is None
        }
    } else {
        exists|disc: Scalar| #[trigger]
            call_ensures(M::discriminant, (m, k), disc) && if disc.below(zero) {
                t is None
            } else {
                exists|h: Scalar, t0: Scalar, t1: Scalar| #[trigger]
                    are_roots(m, k, disc, h, t0, t1) && t == (if in_reach(t0) {
                        Some(between_ends(t0))
                    } else if in_reach(t1) {
                        Some(between_ends(t1))
                    } else {
                        None
                    })
            }
    }
}

/// `t` is the parameter with the station `z` on a parabola with these stations.
pub open spec fn is_parameter<M: CurveMath>(
    m: &M,
    n: Scalar,
    q: Scalar,
    e: Scalar,
    z: Scalar,
    t: Option<Scalar>,
) -> bool {
    exists|k: Quadratic, limit: Scalar|
        {
            &&& #[trigger] call_ensures(M::station_quadratic, (m, n, q, e, z), k)
            &&& #[trigger] is_parameter_of(m, k, limit, t)
        }
}

fn bezier_t_at_z<M: CurveMath>(m: &M, n: Scalar, q: Scalar, e: Scalar, z: Scalar) -> (t: Option<
    Scalar,
>)
    ensures
        is_parameter(m, n, q, e, z, t),
{
    let zero = Scalar { bits: ZERO };
    let one = Scalar { bits: ONE };
    let k = m.station_quadratic(n, q, e, z);
    let limit = m.linear_limit(k.b.abs().max(one));
    if k.a.abs().lt(limit) {
        if zero.lt(k.b.abs()) {
            let x = m.linear_root(k.b, k.c);
            let t = Some(x.hold(zero, one));
            assert(is_parameter_of(m, k, limit, t));
            return t;
        }
        assert(is_parameter_of(m, k, limit, None));
        return None;
    }
    let disc = m.discriminant(k);
    if disc.lt(zero) {
        assert(is_parameter_of(m, k, limit, None));
        return None;
    }
    let root = m.square_root(disc);
    let h = m.root_seed(
        k.b,
        if zero.le(k.b) {
            root
        } else {
            root.neg()
        },
    );
    assert(is_seed(m, k.b, disc, h));
    let t0 = m.over(h, k.a);
    let t1 = if h.same(zero) {
        m.over(h, k.a)
    } else {
        m.over(k.c, h)
    };
    assert(are_roots(m, k, disc, h, t0, t1));
    let low = Scalar { bits: PARAMETER_LOW };
    let high = Scalar { bits: PARAMETER_HIGH };
    let t = if low.le(t0) && t0.le(high) {
        Some(t0.hold(zero, one))
    } else if low.le(t1) && t1.le(high) {
        Some(t1.hold(zero, one))
    } else {
        None
    };
    assert(is_parameter_of(m, k, limit, t));
    t
}

/// A parameter lies between the ends of its curve.
pub proof fn law_parameters_are_held<M: CurveMath>(
    m: &M,
    n: Scalar,
    q: Scalar,
    e: Scalar,
    z: Scalar,
    t: Option<Scalar>,
)
    requires
        is_parameter(m, n, q, e, z, t),
        t is Some,
        !(t->0).nan(),
    ensures
        (Scalar { bits: ZERO }).at_most(t->0),
        (t->0).at_most(Scalar { bits: ONE }),
{
}

/// What the bell's points are out of order by.
pub open spec fn which_way(n: Point, q: Point) -> Seq<char> {
    if q.z.at_most(n.z) {
        "too long"@
    } else {
        "too short"@
    }
}

/// The shown values of a bell that does not close.
pub open spec fn shows_disorder<M: CurveMath>(
    m: &M,
    n: Point,
    q: Point,
    e: Point,
    length: Scalar,
    ratio: Scalar,
    theta_n_deg: Scalar,
    theta_e_deg: Scalar,
    v: Seq<String>,
) -> bool {
    &&& v.len() == 7
    &&& call_ensures(M::show_rounded, (m, n.z), v[0])
    &&& call_ensures(M::show_rounded, (m, q.z), v[1])
    &&& call_ensures(M::show_rounded, (m, e.z), v[2])
    &&& call_ensures(M::show_rounded, (m, length), v[3])
    &&& call_ensures(M::show_rounded, (m, ratio), v[4])
    &&& call_ensures(M::show, (m, theta_n_deg), v[5])
    &&& call_ensures(M::show, (m, theta_e_deg), v[6])
}

/// The text of a bell that does not close, made of shown values.
pub open spec fn disorder_text(v: Seq<String>, way: Seq<char>) -> Seq<char> {
    "bell control point out of order (N_z="@ + v[0]@ + ", Q_z="@ + v[1]@ + ", E_z="@ + v[2]@
        + "): length "@ + v[3]@ + " r_t is "@ + way + " for area ratio "@ + v[4]@ + " at theta_n "@
        + v[5]@ + " / theta_e "@ + v[6]@
}

/// The text of a bell that does not close.
pub open spec fn tells_disorder<M: CurveMath>(
    m: &M,
    n: Point,
    q: Point,
    e: Point,
    length: Scalar,
    exit: Scalar,
    theta_n_deg: Scalar,
    theta_e_deg: Scalar,
    s: Seq<char>,
) -> bool {
    exists|ratio: Scalar, v: Seq<String>|
        {
            &&& #[trigger] call_ensures(M::times, (m, exit, exit), ratio)
            &&& #[trigger] shows_disorder(
                m,
                n,
                q,
                e,
                length,
                ratio,
                theta_n_deg,
                theta_e_deg,
                v,
            )
            &&& s == disorder_text(v, which_way(n, q))
        }
}

fn tell_disorder<M: CurveMath>(
    m: &M,
    n: Point,
    q: Point,
    e: Point,
    length: Scalar,
    exit: Scalar,
    theta_n_deg: Scalar,
    theta_e_deg: Scalar,
) -> (s: String)
    ensures
        tells_disorder(m, n, q, e, length, exit, theta_n_deg, theta_e_deg, s@),
{
    let ratio = m.times(exit, exit);
    let v0 = m.show_rounded(n.z);
    let v1 = m.show_rounded(q.z);
    let v2 = m.show_rounded(e.z);
    let v3 = m.show_rounded(length);
    let v4 = m.show_rounded(ratio);
    let v5 = m.show(theta_n_deg);
    let v6 = m.show(theta_e_deg);
    let mut s = "bell control point out of order (N_z=".to_owned();
    s.append(v0.as_str());
    s.append(", Q_z=");
    s.append(v1.as_str());
    s.append(", E_z=");
    s.append(v2.as_str());
    s.append("): length ");
    s.append(v3.as_str());
    s.append(" r_t is ");
    if q.z.le(n.z) {
        s.append("too long");
    } else {
        s.append("too short");
    }
    s.append(" for area ratio ");
    s.append(v4.as_str());
    s.append(" at theta_n ");
    s.append(v5.as_str());
    s.append(" / theta_e ");
    s.append(v6.as_str());
    let ghost v = seq![v0, v1, v2, v3, v4, v5, v6];
    assert(shows_disorder(m, n, q, e, length, ratio, theta_n_deg, theta_e_deg, v));
    assert(s@ == disorder_text(v, which_way(n, q)));
    s
}

/// The text of angles that do not fall towards the exit.
pub open spec fn tells_angles<S: Show>(
    m: &S,
    theta_n_deg: Scalar,
    theta_e_deg: Scalar,
    s: Seq<char>,
) -> bool {
    exists|a: String, b: String|
        {
            &&& #[trigger] call_ensures(S::show, (m, theta_n_deg), a)
            &&& #[trigger] call_ensures(S::show, (m, theta_e_deg), b)
            &&& s == "theta_n ("@ + a@ + ") must exceed theta_e ("@ + b@ + ")"@
        }
}

fn tell_angles<S: Show>(m: &S, theta_n_deg: Scalar, theta_e_deg: Scalar) -> (s: String)
    ensures
        tells_angles(m, theta_n_deg, theta_e_deg, s@),
{
    let a = m.show(theta_n_deg);
    let b = m.show(theta_e_deg);
    let mut s = "theta_n (".to_owned();
    s.append(a.as_str());
    s.append(") must exceed theta_e (");
    s.append(b.as_str());
    s.append(")");
    s
}

impl BellGeometry {
    /// The outcome of solving a bell: its angles have to fall towards the exit,
    /// and its control point has to lie between the tangency and the exit.
    pub open spec fn solved_by<M: CurveMath>(
        m: &M,
        arc: Scalar,
        exit: Scalar,
        length: Scalar,
        theta_n_deg: Scalar,
        theta_e_deg: Scalar,
        tn: Scalar,
        te: Scalar,
        pts: (Point, Point, Point),
        r: Result<BellGeometry, CfdError>,
    ) -> bool {
        let (n, q, e) = pts;
        &&& call_ensures(M::radians, (m, theta_n_deg), tn)
        &&& call_ensures(M::radians, (m, theta_e_deg), te)
        &&& if tn.at_most(te) {
            r matches Err(err) && (err matches CfdError::Geometry(s) && tells_angles(
                m,
                theta_n_deg,
                theta_e_deg,
                s@,
            ))
        } else {
            &&& call_ensures(
                M::bell_points,
                (m, arc, exit, length, theta_n_deg, theta_e_deg),
                pts,
            )
            &&& if n.z.below(q.z) && q.z.below(e.z) {
                r == Ok::<BellGeometry, CfdError>(
                    BellGeometry { n, q, e, theta_n_deg, theta_e_deg },
                )
            } else {
                r matches Err(err) && (err matches CfdError::Geometry(s) && tells_disorder(
                    m,
                    n,
                    q,
                    e,
                    length,
                    exit,
                    theta_n_deg,
                    theta_e_deg,
                    s@,
                ))
            }
        }
    }

    /// The outcome of solving a bell.
    pub open spec fn solved<M: CurveMath>(
        m: &M,
        arc: Scalar,
        exit: Scalar,
        length: Scalar,
        theta_n_deg: Scalar,
        theta_e_deg: Scalar,
        r: Result<BellGeometry, CfdError>,
    ) -> bool {
        exists|tn: Scalar, te: Scalar, pts: (Point, Point, Point)| #[trigger]
            BellGeometry::solved_by(
                m,
                arc,
                exit,
                length,
                theta_n_deg,
                theta_e_deg,
                tn,
                te,
                pts,
                r,
            )
    }

    /// Solves the three points of a bell.
    pub fn solve<M: CurveMath>(
        m: &M,
        arc: Scalar,
        exit: Scalar,
        length: Scalar,
        theta_n_deg: Scalar,
        theta_e_deg: Scalar,
    ) -> (r: Result<BellGeometry, CfdError>)
        ensures
            BellGeometry::solved(m, arc, exit, length, theta_n_deg, theta_e_deg, r),
    {
        let tn = m.radians(theta_n_deg);
        let te = m.radians(theta_e_deg);
        if tn.le(te) {
            let r = Err(CfdError::Geometry(tell_angles(m, theta_n_deg, theta_e_deg)));
            let ghost any = Point { z: tn, r: te };
            assert(BellGeometry::solved_by(
                m,
                arc,
                exit,
                length,
                theta_n_deg,
                theta_e_deg,
                tn,
                te,
                (any, any, any),
                r,
            ));
            return r;
        }
        let pts = m.bell_points(arc, exit, length, theta_n_deg, theta_e_deg);
        let (n, q, e) = pts;
        let r = if n.z.lt(q.z) && q.z.lt(e.z) {
            Ok(BellGeometry { n, q, e, theta_n_deg, theta_e_deg })
        } else {
            Err(
                CfdError::Geometry(
                    tell_disorder(m, n, q, e, length, exit, theta_n_deg, theta_e_deg),
                ),
            )
        };
        assert(BellGeometry::solved_by(
            m,
            arc,
            exit,
            length,
            theta_n_deg,
            theta_e_deg,
            tn,
            te,
            pts,
            r,
        ));
        r
    }
}

/// The control point of a bell lies strictly between its tangency and its exit.
pub proof fn law_bell_points_are_ordered<M: CurveMath>(
    m: &M,
    arc: Scalar,
    exit: Scalar,
    length: Scalar,
    theta_n_deg: Scalar,
    theta_e_deg: Scalar,
    b: BellGeometry,
)
    requires
        BellGeometry::solved(m, arc, exit, length, theta_n_deg, theta_e_deg, Ok(b)),
    ensures
        b.n.z.below(b.q.z),
        b.q.z.below(b.e.z),
        b.theta_n_deg == theta_n_deg,
        b.theta_e_deg == theta_e_deg,
{
}

impl NozzleCurve {
    /// A wall with the usual chamber.
    pub fn new(spec: NozzleSpec) -> (r: NozzleCurve)
        ensures
            r.spec == spec,
            r.chamber_len_rt.bits == CHAMBER_LEN_RT,
    {
        NozzleCurve { spec, chamber_len_rt: Scalar { bits: CHAMBER_LEN_RT } }
    }

    /// The outcome of checking the wall: its spec, then its chamber.
    pub open spec fn checked<M: CurveMath>(self, m: &M, r: Result<(), CfdError>) -> bool {
        match r {
            Ok(_) => self.spec.has_verdict(m, None) && contour::positive(self.chamber_len_rt),
            Err(e) => {
                ||| self.spec.checked(m, Err(e))
                ||| {
                    &&& self.spec.has_verdict(m, None)
                    &&& !contour::positive(self.chamber_len_rt)
                    &&& e matches CfdError::Geometry(s) && contour::says(
                        m,
                        "chamber_len_rt = "@,
                        self.chamber_len_rt,
                        " (must be > 0)"@,
                        s@,
                    )
                }
            },
        }
    }

    /// Checks the wall.
    pub fn validate<M: CurveMath>(&self, m: &M) -> (r: Result<(), CfdError>)
        ensures
            self.checked(m, r),
    {
        match self.spec.validate(m) {
            Err(e) => {
                return Err(e);
            },
            Ok(_) => {},
        }
        if !(self.chamber_len_rt.is_finite() && (Scalar { bits: ZERO }).lt(self.chamber_len_rt)) {
            let a = m.show(self.chamber_len_rt);
            let mut s = "chamber_len_rt = ".to_owned();
            s.append(a.as_str());
            s.append(" (must be > 0)");
            return Err(CfdError::Geometry(s));
        }
        Ok(())
    }

    /// The station of the throat.
    pub fn throat_z_rt<M: CurveMath>(&self, m: &M) -> (z: Scalar)
        ensures
            call_ensures(M::throat_station, (m, self.spec, self.chamber_len_rt), z),
    {
        m.throat_station(self.spec, self.chamber_len_rt)
    }

    /// The length and the angles of the bell.
    pub open spec fn has_bell_numbers<M: CurveMath>(
        self,
        m: &M,
        reference: Scalar,
        length: Scalar,
        angles: (Scalar, Scalar),
    ) -> bool {
        &&& call_ensures(M::reference_length, (m, self.spec.area_ratio), reference)
        &&& match self.spec.contour {
            ContourKind::Conical { .. } => false,
            ContourKind::ParabolicBell { bell_percent } => {
                &&& rao::are_rao_angles(m, self.spec.area_ratio, bell_percent, angles)
                &&& call_ensures(M::times, (m, bell_percent, reference), length)
            },
            ContourKind::DirectBell { theta_n_deg, theta_e_deg, length_fraction } => {
                &&& angles == (theta_n_deg, theta_e_deg)
                &&& call_ensures(M::times, (m, length_fraction, reference), length)
            },
        }
    }

    /// The outcome of solving the bell: a cone has none.
    pub open spec fn has_bell<M: CurveMath>(
        self,
        m: &M,
        r: Result<BellGeometry, CfdError>,
    ) -> bool {
        if self.spec.contour is Conical {
            r matches Err(e) && (e matches CfdError::Geometry(s) && s@
                == "a conical contour has no Bezier control point"@)
        } else {
            exists|reference: Scalar, length: Scalar, angles: (Scalar, Scalar), exit: Scalar|
                {
                    &&& #[trigger] self.has_bell_numbers(m, reference, length, angles)
                    &&& #[trigger] call_ensures(
                        M::square_root,
                        (m, self.spec.area_ratio),
                        exit,
                    )
                    &&& BellGeometry::solved(
                        m,
                        self.spec.throat_arc_down,
                        exit,
                        length,
                        angles.0,
                        angles.1,
                        r,
                    )
                }
        }
    }

    /// The three points of the bell.
    pub fn bell<M: CurveMath>(&self, m: &M) -> (r: Result<BellGeometry, CfdError>)
        ensures
            self.has_bell(m, r),
    {
        let s = self.spec;
        let numbers = match s.contour {
            ContourKind::Conical { .. } => {
                return Err(
                    CfdError::Geometry("a conical contour has no Bezier control point".to_owned()),
                );
            },
            ContourKind::ParabolicBell { bell_percent } => {
                let angles = rao_angles(m, s.area_ratio, bell_percent);
                let reference = m.reference_length(s.area_ratio);
                (reference, m.times(bell_percent, reference), angles)
            },
            ContourKind::DirectBell { theta_n_deg, theta_e_deg, length_fraction } => {
                let reference = m.reference_length(s.area_ratio);
                (reference, m.times(length_fraction, reference), (theta_n_deg, theta_e_deg))
            },
        };
        let exit = m.square_root(s.area_ratio);
        assert(self.has_bell_numbers(m, numbers.0, numbers.1, numbers.2));
        let angles = numbers.2;
        BellGeometry::solve(m, s.throat_arc_down, exit, numbers.1, angles.0, angles.1)
    }

    /// The outcome of reading the angles: those of the bell, or the half angle of
    /// the cone for both.
    pub open spec fn has_angles<M: CurveMath>(
        self,
        m: &M,
        r: Result<(Scalar, Scalar), CfdError>,
    ) -> bool {
        match self.spec.contour {
            ContourKind::Conical { half_angle_deg } => match r {
                Ok(a) => self.checked(m, Ok(())) && a == (half_angle_deg, half_angle_deg),
                Err(e) => self.checked(m, Err(e)),
            },
            _ => match r {
                Ok(a) => exists|b: BellGeometry| #[trigger]
                    self.has_bell(m, Ok(b)) && a == (b.theta_n_deg, b.theta_e_deg),
                Err(e) => self.has_bell(m, Err(e)),
            },
        }
    }

    /// The wall angles in degrees behind the throat and at the exit.
    pub fn divergent_angles_deg<M: CurveMath>(&self, m: &M) -> (r: Result<
        (Scalar, Scalar),
        CfdError,
    >)
        ensures
            self.has_angles(m, r),
    {
        match self.spec.contour {
            ContourKind::Conical { half_angle_deg } => {
                match self.validate(m) {
                    Err(e) => Err(e),
                    Ok(_) => Ok((half_angle_deg, half_angle_deg)),
                }
            },
            _ => {
                match self.bell(m) {
                    Err(e) => Err(e),
                    Ok(b) => {
                        assert(self.has_bell(m, Ok(b)));
                        Ok((b.theta_n_deg, b.theta_e_deg))
                    },
                }
            },
        }
    }

    /// The wall angle at the exit in degrees.
    pub fn exit_angle_deg<M: CurveMath>(&self, m: &M) -> (r: Result<Scalar, CfdError>)
        ensures
            match r {
                Ok(x) => exists|a: (Scalar, Scalar)| #[trigger]
                    self.has_angles(m, Ok(a)) && x == a.1,
                Err(e) => self.has_angles(m, Err(e)),
            },
    {
        match self.divergent_angles_deg(m) {
            Err(e) => Err(e),
            Ok(a) => {
                assert(self.has_angles(m, Ok(a)));
                Ok(a.1)
            },
        }
    }

    /// The steepest wall angle behind the throat in degrees.
    pub fn max_wall_angle_deg<M: CurveMath>(&self, m: &M) -> (r: Result<Scalar, CfdError>)
        ensures
            match r {
                Ok(x) => exists|a: (Scalar, Scalar)| #[trigger]
                    self.has_angles(m, Ok(a)) && x == a.0,
                Err(e) => self.has_angles(m, Err(e)),
            },
    {
        match self.divergent_angles_deg(m) {
            Err(e) => Err(e),
            Ok(a) => {
                assert(self.has_angles(m, Ok(a)));
                Ok(a.0)
            },
        }
    }

    /// The outcome of measuring the diverging section.
    pub open spec fn has_divergent_len<M: CurveMath>(
        self,
        m: &M,
        r: Result<Scalar, CfdError>,
    ) -> bool {
        match self.spec.contour {
            ContourKind::Conical { half_angle_deg } => match r {
                Ok(x) => self.checked(m, Ok(())) && call_ensures(
                    M::cone_length,
                    (m, self.spec.area_ratio, self.spec.throat_arc_down, half_angle_deg),
                    x,
                ),
                Err(e) => self.checked(m, Err(e)),
            },
            _ => match r {
                Ok(x) => exists|b: BellGeometry| #[trigger]
                    self.has_bell(m, Ok(b)) && x == b.e.z,
                Err(e) => self.has_bell(m, Err(e)),
            },
        }
    }

    /// The length from the throat to the exit in throat radii.
    pub fn divergent_len_rt<M: CurveMath>(&self, m: &M) -> (r: Result<Scalar, CfdError>)
        ensures
            self.has_divergent_len(m, r),
    {
        match self.spec.contour {
            ContourKind::Conical { half_angle_deg } => {
                match self.validate(m) {
                    Err(e) => Err(e),
                    Ok(_) => Ok(
                        m.cone_length(
                            self.spec.area_ratio,
                            self.spec.throat_arc_down,
                            half_angle_deg,
                        ),
                    ),
                }
            },
            _ => {
                match self.bell(m) {
                    Err(e) => Err(e),
                    Ok(b) => {
                        assert(self.has_bell(m, Ok(b)));
                        Ok(b.e.z)
                    },
                }
            },
        }
    }

    /// The length of the nozzle in metres.
    pub fn length_m<M: CurveMath>(&self, m: &M) -> (r: Result<Scalar, CfdError>)
        ensures
            match r {
                Ok(x) => exists|z: Scalar, l: Scalar, total: Scalar|
                    {
                        &&& #[trigger] call_ensures(
                            M::throat_station,
                            (m, self.spec, self.chamber_len_rt),
                            z,
                        )
                        &&& self.has_divergent_len(m, Ok(l))
                        &&& #[trigger] call_ensures(M::farther, (m, z, l), total)
                        &&& call_ensures(M::times, (m, total, self.spec.throat_radius_m), x)
                    },
                Err(e) => self.has_divergent_len(m, Err(e)),
            },
    {
        let z = self.throat_z_rt(m);
        match self.divergent_len_rt(m) {
            Err(e) => Err(e),
            Ok(l) => {
                let total = m.farther(z, l);
                Ok(m.times(total, self.spec.throat_radius_m))
            },
        }
    }

    /// The three pieces up to the throat: chamber, converging cone, upstream arc.
    pub open spec fn has_converging<M: CurveMath>(
        self,
        m: &M,
        z_t: Scalar,
        rc: Scalar,
        beta: Scalar,
        up: Point,
        v: Seq<Piece>,
    ) -> bool {
        let zero = Scalar { bits: ZERO };
        let head = Point { z: zero, r: rc };
        let shoulder = Point { z: self.chamber_len_rt, r: rc };
        &&& call_ensures(M::throat_station, (m, self.spec, self.chamber_len_rt), z_t)
        &&& call_ensures(M::square_root, (m, self.spec.contraction_ratio), rc)
        &&& call_ensures(M::radians, (m, self.spec.converge_half_angle_deg), beta)
        &&& call_ensures(M::upstream_tangency, (m, self.spec, z_t), up)
        &&& v.len() == 5
        &&& v[0] == (Piece::Line { a: head, b: shoulder })
        &&& v[1] == (Piece::Line { a: shoulder, b: up })
        &&& v[2] == (Piece::ThroatArc {
            z_t,
            radius: self.spec.throat_arc_up,
            sign: Scalar { bits: MINUS_ONE },
            phi0: beta,
            phi1: zero,
        })
    }

    /// The downstream arc.
    pub open spec fn downstream_arc(self, z_t: Scalar, angle: Scalar) -> Piece {
        Piece::ThroatArc {
            z_t,
            radius: self.spec.throat_arc_down,
            sign: Scalar { bits: ONE },
            phi0: Scalar { bits: ZERO },
            phi1: angle,
        }
    }

    /// The two pieces of a cone behind the throat.
    pub open spec fn has_cone<M: CurveMath>(
        self,
        m: &M,
        half_angle_deg: Scalar,
        z_t: Scalar,
        alpha: Scalar,
        from: Point,
        length: Scalar,
        to: Point,
        v: Seq<Piece>,
    ) -> bool {
        &&& call_ensures(M::radians, (m, half_angle_deg), alpha)
        &&& call_ensures(
            M::downstream_tangency,
            (m, self.spec.throat_arc_down, half_angle_deg, z_t),
            from,
        )
        &&& call_ensures(
            M::cone_length,
            (m, self.spec.area_ratio, self.spec.throat_arc_down, half_angle_deg),
            length,
        )
        &&& call_ensures(M::farther, (m, z_t, length), to.z)
        &&& call_ensures(M::square_root, (m, self.spec.area_ratio), to.r)
        &&& v[3] == self.downstream_arc(z_t, alpha)
        &&& v[4] == (Piece::Line { a: from, b: to })
    }

    /// The two pieces of a bell behind the throat.
    pub open spec fn has_bell_pieces<M: CurveMath>(
        self,
        m: &M,
        z_t: Scalar,
        b: BellGeometry,
        tn: Scalar,
        v: Seq<Piece>,
    ) -> bool {
        &&& self.has_bell(m, Ok(b))
        &&& call_ensures(M::radians, (m, b.theta_n_deg), tn)
        &&& v[3] == self.downstream_arc(z_t, tn)
        &&& v[4] matches Piece::Bezier { n, q, e } && call_ensures(M::shifted, (m, b.n, z_t), n)
            && call_ensures(M::shifted, (m, b.q, z_t), q) && call_ensures(
            M::shifted,
            (m, b.e, z_t),
            e,
        )
    }

    /// `v` are the pieces of the wall.
    pub open spec fn are_pieces<M: CurveMath>(self, m: &M, v: Seq<Piece>) -> bool {
        exists|z_t: Scalar, rc: Scalar, beta: Scalar, up: Point| #[trigger]
            self.has_converging(m, z_t, rc, beta, up, v) && match self.spec.contour {
                ContourKind::Conical { half_angle_deg } => exists|
                    alpha: Scalar,
                    from: Point,
                    length: Scalar,
                    to: Point,
                | #[trigger]
                    self.has_cone(m, half_angle_deg, z_t, alpha, from, length, to, v),
                _ => exists|b: BellGeometry, tn: Scalar| #[trigger]
                    self.has_bell_pieces(m, z_t, b, tn, v),
            }
    }

    /// The outcome of laying out the pieces.
    pub open spec fn laid_out<M: CurveMath>(
        self,
        m: &M,
        r: Result<Vec<Piece>, CfdError>,
    ) -> bool {
        match r {
            Ok(v) => self.checked(m, Ok(())) && self.are_pieces(m, v@),
            Err(e) => self.checked(m, Err(e)) || self.checked(m, Ok(())) && !(
            self.spec.contour is Conical) && self.has_bell(m, Err(e)),
        }
    }

    /// The pieces of the wall from the chamber head to the exit.
    pub fn pieces<M: CurveMath>(&self, m: &M) -> (r: Result<Vec<Piece>, CfdError>)
        ensures
            self.laid_out(m, r),
            r matches Ok(v) ==> v.len() == 5,
    {
        match self.validate(m) {
            Err(e) => {
                return Err(e);
            },
            Ok(_) => {},
        }
        let s = self.spec;
        let zero = Scalar { bits: ZERO };
        let z_t = self.throat_z_rt(m);
        let rc = m.square_root(s.contraction_ratio);
        let beta = m.radians(s.converge_half_angle_deg);
        let up = m.upstream_tangency(s, z_t);
        let head = Point { z: zero, r: rc };
        let shoulder = Point { z: self.chamber_len_rt, r: rc };
        let mut v: Vec<Piece> = Vec::new();
        v.push(Piece::Line { a: head, b: shoulder });
        v.push(Piece::Line { a: shoulder, b: up });
        v.push(
            Piece::ThroatArc {
                z_t,
                radius: s.throat_arc_up,
                sign: Scalar { bits: MINUS_ONE },
                phi0: beta,
                phi1: zero,
            },
        );
        match s.contour {
            ContourKind::Conical { half_angle_deg } => {
                let alpha = m.radians(half_angle_deg);
                let from = m.downstream_tangency(s.throat_arc_down, half_angle_deg, z_t);
                let length = m.cone_length(s.area_ratio, s.throat_arc_down, half_angle_deg);
                let to = Point { z: m.farther(z_t, length), r: m.square_root(s.area_ratio) };
                v.push(
                    Piece::ThroatArc {
                        z_t,
                        radius: s.throat_arc_down,
                        sign: Scalar { bits: ONE },
                        phi0: zero,
                        phi1: alpha,
                    },
                );
                v.push(Piece::Line { a: from, b: to });
                assert(self.has_converging(m, z_t, rc, beta, up, v@));
                assert(self.has_cone(m, half_angle_deg, z_t, alpha, from, length, to, v@));
            },
            _ => {
                let b = match self.bell(m) {
                    Err(e) => {
                        return Err(e);
                    },
                    Ok(b) => b,
                };
                let tn = m.radians(b.theta_n_deg);
                let n = m.shifted(b.n, z_t);
                let q = m.shifted(b.q, z_t);
                let e = m.shifted(b.e, z_t);
                v.push(
                    Piece::ThroatArc {
                        z_t,
                        radius: s.throat_arc_down,
                        sign: Scalar { bits: ONE },
                        phi0: zero,
                        phi1: tn,
                    },
                );
                v.push(Piece::Bezier { n, q, e });
                assert(self.has_converging(m, z_t, rc, beta, up, v@));
                assert(self.has_bell_pieces(m, z_t, b, tn, v@));
            },
        }
        Ok(v)
    }
}

/// The wall from head to exit: along the chamber at its radius, from its end straight to
/// where the upstream arc begins, around that arc into the throat, out of it around the
/// downstream arc, and on along the cone to the exit's radius or along the bell's parabola,
/// moved to the throat.
pub proof fn law_walls_run_from_head_to_exit<M: CurveMath>(
    m: &M,
    c: NozzleCurve,
    v: Seq<Piece>,
) -> (r: (Scalar, Scalar, Scalar, Point, Scalar, Point, Scalar, Point, BellGeometry))
    requires
        c.are_pieces(m, v),
    ensures
        ({
            let (z_t, rc, beta, up, angle, from, length, to, b) = r;
            let zero = Scalar { bits: ZERO };
            let s = c.spec;
            let shoulder = Point { z: c.chamber_len_rt, r: rc };
            &&& v.len() == 5
            &&& call_ensures(M::throat_station, (m, s, c.chamber_len_rt), z_t)
            &&& call_ensures(M::square_root, (m, s.contraction_ratio), rc)
            &&& call_ensures(M::radians, (m, s.converge_half_angle_deg), beta)
            &&& call_ensures(M::upstream_tangency, (m, s, z_t), up)
            &&& v[0] == (Piece::Line { a: Point { z: zero, r: rc }, b: shoulder })
            &&& v[1] == (Piece::Line { a: shoulder, b: up })
            &&& v[2] == (Piece::ThroatArc {
                z_t,
                radius: s.throat_arc_up,
                sign: Scalar { bits: MINUS_ONE },
                phi0: beta,
                phi1: zero,
            })
            &&& v[3] == (Piece::ThroatArc {
                z_t,
                radius: s.throat_arc_down,
                sign: Scalar { bits: ONE },
                phi0: zero,
                phi1: angle,
            })
            &&& s.contour matches ContourKind::Conical { half_angle_deg } ==> {
                &&& call_ensures(M::radians, (m, half_angle_deg), angle)
                &&& v[4] == (Piece::Line { a: from, b: to })
                &&& call_ensures(
                    M::downstream_tangency,
                    (m, s.throat_arc_down, half_angle_deg, z_t),
                    from,
                )
                &&& call_ensures(
                    M::cone_length,
                    (m, s.area_ratio, s.throat_arc_down, half_angle_deg),
                    length,
                )
                &&& call_ensures(M::farther, (m, z_t, length), to.z)
                &&& call_ensures(M::square_root, (m, s.area_ratio), to.r)
            }
            &&& !(s.contour is Conical) ==> {
                &&& c.has_bell(m, Ok(b))
                &&& call_ensures(M::radians, (m, b.theta_n_deg), angle)
                &&& v[4] matches Piece::Bezier { n, q, e } && {
                    &&& call_ensures(M::shifted, (m, b.n, z_t), n)
                    &&& call_ensures(M::shifted, (m, b.q, z_t), q)
                    &&& call_ensures(M::shifted, (m, b.e, z_t), e)
                }
            }
        }),
{
    let (z_t, rc, beta, up) = choose|z_t: Scalar, rc: Scalar, beta: Scalar, up: Point| #[trigger]
        c.has_converging(m, z_t, rc, beta, up, v) && match c.spec.contour {
            ContourKind::Conical { half_angle_deg } => exists|
                alpha: Scalar,
                from: Point,
                length: Scalar,
                to: Point,
            | #[trigger]
                c.has_cone(m, half_angle_deg, z_t, alpha, from, length, to, v),
            _ => exists|b: BellGeometry, tn: Scalar| #[trigger]
                c.has_bell_pieces(m, z_t, b, tn, v),
        };
    let (b, tn) = choose|b: BellGeometry, tn: Scalar| #[trigger]
        c.has_bell_pieces(m, z_t, b, tn, v);
    match c.spec.contour {
        ContourKind::Conical { half_angle_deg } => {
            let (alpha, from, length, to) = choose|
                alpha: Scalar,
                from: Point,
                length: Scalar,
                to: Point,
            | #[trigger]
                c.has_cone(m, half_angle_deg, z_t, alpha, from, length, to, v);
            (z_t, rc, beta, up, alpha, from, length, to, b)
        },
        _ => (z_t, rc, beta, up, tn, up, z_t, up, b),
    }
}

/// The wall is closed: where a line ends at its ends, and the upstream arc begins where
/// the cone before it ends, each of its first three pieces ends where the next begins; both
/// arcs meet where the throat is.
pub proof fn law_walls_are_closed<M: CurveMath>(
    m: &M,
    c: NozzleCurve,
    v: Seq<Piece>,
    throat: Point,
    p: Point,
    q: Point,
    i: int,
)
    requires
        c.are_pieces(m, v),
        0 <= i < 3,
        v[i].has_point(m, Scalar { bits: ONE }, p),
        v[i + 1].has_point(m, Scalar { bits: ZERO }, q),
        forall|a: Point, b: Point, x: Point| #[trigger]
            call_ensures(M::line_point, (m, a, b, Scalar { bits: ZERO }), x) ==> x == a,
        forall|a: Point, b: Point, x: Point| #[trigger]
            call_ensures(M::line_point, (m, a, b, Scalar { bits: ONE }), x) ==> x == b,
        forall|z_t: Scalar, beta: Scalar, up: Point, x: Point|
            {
                &&& #[trigger] call_ensures(M::upstream_tangency, (m, c.spec, z_t), up)
                &&& #[trigger] call_ensures(
                    M::arc_point,
                    (
                        m,
                        z_t,
                        c.spec.throat_arc_up,
                        Scalar { bits: MINUS_ONE },
                        beta,
                        Scalar { bits: ZERO },
                        Scalar { bits: ZERO },
                    ),
                    x,
                )
                &&& call_ensures(M::radians, (m, c.spec.converge_half_angle_deg), beta)
            } ==> x == up,
        forall|z_t: Scalar, radius: Scalar, sign: Scalar, phi: Scalar, x: Point| #[trigger]
            call_ensures(
                M::arc_point,
                (m, z_t, radius, sign, phi, Scalar { bits: ZERO }, Scalar { bits: ONE }),
                x,
            ) && call_ensures(M::throat_station, (m, c.spec, c.chamber_len_rt), z_t) ==> x
                == throat,
        forall|z_t: Scalar, radius: Scalar, sign: Scalar, phi: Scalar, x: Point| #[trigger]
            call_ensures(
                M::arc_point,
                (m, z_t, radius, sign, Scalar { bits: ZERO }, phi, Scalar { bits: ZERO }),
                x,
            ) && call_ensures(M::throat_station, (m, c.spec, c.chamber_len_rt), z_t) ==> x
                == throat,
    ensures
        p == q,
{
    let r = law_walls_run_from_head_to_exit(m, c, v);
    assert(i == 0 || i == 1 || i == 2);
}

/// The bell of a wall: its length is its share of the reference length of its area ratio,
/// its angles are given or those of the tables at that ratio and share, and its three
/// points follow from the downstream arc, the exit's radius, the length and both angles.
/// It has to be steeper at the throat than at the exit, and its control point has to lie
/// between its ends.
pub proof fn law_bells_follow_their_numbers<M: CurveMath>(
    m: &M,
    c: NozzleCurve,
    b: BellGeometry,
) -> (r: (Scalar, Scalar, Scalar, Scalar, Scalar))
    requires
        c.has_bell(m, Ok(b)),
    ensures
        ({
            let (reference, length, exit, tn, te) = r;
            let s = c.spec;
            &&& !(s.contour is Conical)
            &&& call_ensures(M::reference_length, (m, s.area_ratio), reference)
            &&& s.contour matches ContourKind::ParabolicBell { bell_percent } ==> {
                &&& call_ensures(M::times, (m, bell_percent, reference), length)
                &&& rao::are_rao_angles(
                    m,
                    s.area_ratio,
                    bell_percent,
                    (b.theta_n_deg, b.theta_e_deg),
                )
            }
            &&& s.contour matches ContourKind::DirectBell {
                theta_n_deg,
                theta_e_deg,
                length_fraction,
            } ==> {
                &&& call_ensures(M::times, (m, length_fraction, reference), length)
                &&& b.theta_n_deg == theta_n_deg
                &&& b.theta_e_deg == theta_e_deg
            }
            &&& call_ensures(M::square_root, (m, s.area_ratio), exit)
            &&& call_ensures(M::radians, (m, b.theta_n_deg), tn)
            &&& call_ensures(M::radians, (m, b.theta_e_deg), te)
            &&& !tn.at_most(te)
            &&& call_ensures(
                M::bell_points,
                (m, s.throat_arc_down, exit, length, b.theta_n_deg, b.theta_e_deg),
                (b.n, b.q, b.e),
            )
            &&& b.n.z.below(b.q.z) && b.q.z.below(b.e.z)
        }),
{
    let (reference, length, angles, exit) = choose|
        reference: Scalar,
        length: Scalar,
        angles: (Scalar, Scalar),
        exit: Scalar,
    |
        {
            &&& #[trigger] c.has_bell_numbers(m, reference, length, angles)
            &&& #[trigger] call_ensures(M::square_root, (m, c.spec.area_ratio), exit)
            &&& BellGeometry::solved(
                m,
                c.spec.throat_arc_down,
                exit,
                length,
                angles.0,
                angles.1,
                Ok(b),
            )
        };
    let (tn, te, pts) = choose|tn: Scalar, te: Scalar, pts: (Point, Point, Point)| #[trigger]
        BellGeometry::solved_by(
            m,
            c.spec.throat_arc_down,
            exit,
            length,
            angles.0,
            angles.1,
            tn,
            te,
            pts,
            Ok(b),
        );
    assert(angles == (b.theta_n_deg, b.theta_e_deg));
    assert(pts == (b.n, b.q, b.e));
    (reference, length, exit, tn, te)
}

/// A bell that cannot be solved is as steep at the exit as at the throat, or has its
/// control point out of order; a cone has none.
pub proof fn law_unsolved_bells_have_reasons<M: CurveMath>(
    m: &M,
    arc: Scalar,
    exit: Scalar,
    length: Scalar,
    theta_n_deg: Scalar,
    theta_e_deg: Scalar,
    e: CfdError,
)
    requires
        BellGeometry::solved(m, arc, exit, length, theta_n_deg, theta_e_deg, Err(e)),
    ensures
        ({
            ||| exists|tn: Scalar, te: Scalar|
                {
                    &&& #[trigger] call_ensures(M::radians, (m, theta_n_deg), tn)
                    &&& #[trigger] call_ensures(M::radians, (m, theta_e_deg), te)
                    &&& tn.at_most(te)
                }
            ||| exists|pts: (Point, Point, Point)|
                {
                    &&& #[trigger] call_ensures(
                        M::bell_points,
                        (m, arc, exit, length, theta_n_deg, theta_e_deg),
                        pts,
                    )
                    &&& !(pts.0.z.below(pts.1.z) && pts.1.z.below(pts.2.z))
                }
        }),
{
    let (tn, te, pts) = choose|tn: Scalar, te: Scalar, pts: (Point, Point, Point)| #[trigger]
        BellGeometry::solved_by(
            m,
            arc,
            exit,
            length,
            theta_n_deg,
            theta_e_deg,
            tn,
            te,
            pts,
            Err(e),
        );
    assert(call_ensures(M::radians, (m, theta_n_deg), tn));
    assert(call_ensures(M::radians, (m, theta_e_deg), te));
}

/// The angles and the length behind the throat: a cone has its half angle twice and the
/// length of its cone, a bell the angles and the exit station of its own.
pub proof fn law_diverging_numbers<M: CurveMath>(
    m: &M,
    c: NozzleCurve,
    a: (Scalar, Scalar),
    l: Scalar,
)
    requires
        c.has_angles(m, Ok(a)),
        c.has_divergent_len(m, Ok(l)),
    ensures
        c.spec.contour matches ContourKind::Conical { half_angle_deg } ==> a.0 == half_angle_deg
            && a.1 == half_angle_deg && call_ensures(
            M::cone_length,
            (m, c.spec.area_ratio, c.spec.throat_arc_down, half_angle_deg),
            l,
        ),
        !(c.spec.contour is Conical) ==> exists|b: BellGeometry| #[trigger]
            c.has_bell(m, Ok(b)) && a.0 == b.theta_n_deg && a.1 == b.theta_e_deg,
        !(c.spec.contour is Conical) ==> exists|b: BellGeometry| #[trigger]
            c.has_bell(m, Ok(b)) && l == b.e.z,
{
}

/// A piece is divided as finely as its turn and its tolerance both ask for and no finer: a
/// line is one segment, a curve two at least.
pub proof fn law_segments_keep_turn_and_tolerance<M: CurveMath>(
    m: &M,
    piece: Piece,
    tol: Scalar,
    max_turn_deg: Scalar,
    n: usize,
) -> (r: (Scalar, usize, Scalar, usize))
    requires
        piece.has_segments(m, tol, max_turn_deg, n),
    ensures
        piece is Line ==> n == 1,
        !(piece is Line) ==> {
            let (turn, by_turn, x, by_chord) = r;
            &&& match piece {
                Piece::Line { .. } => false,
                Piece::ThroatArc { radius, phi0, phi1, .. } => {
                    &&& call_ensures(M::arc_turn, (m, phi0, phi1), turn)
                    &&& call_ensures(M::arc_segments, (m, radius, phi0, phi1, tol), x)
                },
                Piece::Bezier { n, q, e } => {
                    &&& call_ensures(M::bezier_turn, (m, n, q, e), turn)
                    &&& call_ensures(M::bezier_segments, (m, n, q, e, tol), x)
                },
            }
            &&& call_ensures(M::turn_segments, (m, turn, max_turn_deg), by_turn)
            &&& x.finite() ==> call_ensures(M::whole_segments, (m, x), by_chord)
            &&& !x.finite() ==> by_chord == 2
            &&& n >= 2 && n >= by_turn && n >= by_chord
            &&& n == 2 || n == by_turn || n == by_chord
        },
{
    let (turn, by_turn, x, by_chord) = choose|
        turn: Scalar,
        by_turn: usize,
        x: Scalar,
        by_chord: usize,
    | #[trigger]
        piece.is_count(m, tol, max_turn_deg, turn, by_turn, x, by_chord, n);
    (turn, by_turn, x, by_chord)
}

/// A piece gives back its own ends: where its formula has the radius of an end at that
/// end's station, so has the piece.
pub proof fn law_radii_at_the_ends_of_a_line<M: CurveMath>(
    m: &M,
    a: Point,
    b: Point,
    at_start: Option<Scalar>,
    at_end: Option<Scalar>,
)
    requires
        (Piece::Line { a, b }).has_radius(m, a.z, at_start),
        (Piece::Line { a, b }).has_radius(m, b.z, at_end),
        forall|r: Scalar| #[trigger] call_ensures(M::line_radius, (m, a, b, a.z), r) ==> r == a.r,
        forall|r: Scalar| #[trigger] call_ensures(M::line_radius, (m, a, b, b.z), r) ==> r == b.r,
    ensures
        at_start == Some(a.r),
        !b.z.at_most(a.z) ==> at_end == Some(b.r),
{
}

/// The radius and the direction of a parabola are those at the parameter of the station:
/// from the linear rest where the quadratic of its stations is as good as linear, else the
/// first of its two roots that lies on the curve, with a little slack, and none where
/// there is no such root; held between the curve's ends.
pub proof fn law_parabolas_are_read_at_their_stations<M: CurveMath>(
    m: &M,
    n: Point,
    q: Point,
    e: Point,
    z: Scalar,
    r: Option<Scalar>,
) -> (w: (Quadratic, Option<Scalar>, Scalar, Scalar, Scalar, Scalar))
    requires
        (Piece::Bezier { n, q, e }).has_radius(m, z, r),
    ensures
        ({
            let (k, t, limit, disc, t0, t1) = w;
            let zero = Scalar { bits: ZERO };
            let one = Scalar { bits: ONE };
            let low = Scalar { bits: PARAMETER_LOW };
            let high = Scalar { bits: PARAMETER_HIGH };
            let flat = (Scalar { bits: k.a.magnitude() as u64 }).below(limit);
            &&& call_ensures(M::station_quadratic, (m, n.z, q.z, e.z, z), k)
            &&& r is Some <==> t is Some
            &&& t matches Some(x) ==> call_ensures(M::bezier_radius, (m, n, q, e, x), r->0)
            &&& flat ==> (t is Some <==> k.b.magnitude() > 0 && !k.b.nan())
            &&& flat && t is Some ==> exists|x: Scalar| #[trigger]
                call_ensures(M::linear_root, (m, k.b, k.c), x) && (zero.at_most(x) && x.at_most(one)
                    ==> t == Some(x))
            &&& !flat ==> call_ensures(M::discriminant, (m, k), disc)
            &&& !flat && disc.below(zero) ==> t is None
            &&& !flat && !disc.below(zero) ==> {
                let first = low.at_most(t0) && t0.at_most(high);
                let second = low.at_most(t1) && t1.at_most(high);
                &&& first && zero.at_most(t0) && t0.at_most(one) ==> t == Some(t0)
                &&& !first && second && zero.at_most(t1) && t1.at_most(one) ==> t == Some(t1)
                &&& t is Some <==> first || second
            }
        }),
{
    let t = choose|t: Option<Scalar>|
        {
            &&& #[trigger] is_parameter(m, n.z, q.z, e.z, z, t)
            &&& r is Some <==> t is Some
            &&& t is Some ==> call_ensures(M::bezier_radius, (m, n, q, e, t->0), r->0)
        };
    let (k, limit) = choose|k: Quadratic, limit: Scalar|
        {
            &&& #[trigger] call_ensures(M::station_quadratic, (m, n.z, q.z, e.z, z), k)
            &&& #[trigger] is_parameter_of(m, k, limit, t)
        };
    let zero = Scalar { bits: ZERO };
    let disc = choose|disc: Scalar| #[trigger]
        call_ensures(M::discriminant, (m, k), disc) && if disc.below(zero) {
            t is None
        } else {
            exists|h: Scalar, t0: Scalar, t1: Scalar| #[trigger]
                are_roots(m, k, disc, h, t0, t1) && t == (if in_reach(t0) {
                    Some(between_ends(t0))
                } else if in_reach(t1) {
                    Some(between_ends(t1))
                } else {
                    None
                })
        };
    let (h, t0, t1) = choose|h: Scalar, t0: Scalar, t1: Scalar| #[trigger]
        are_roots(m, k, disc, h, t0, t1) && t == (if in_reach(t0) {
            Some(between_ends(t0))
        } else if in_reach(t1) {
            Some(between_ends(t1))
        } else {
            None
        });
    (k, t, limit, disc, t0, t1)
}

/// The two roots of a quadratic follow from one auxiliary value without cancellation: the
/// root of the discriminant has the sign of the linear coefficient; the one root is that
/// value over the leading coefficient, the other the last coefficient over it, and they
/// fall together where it vanishes.
pub proof fn law_roots_do_not_cancel<M: CurveMath>(
    m: &M,
    k: Quadratic,
    disc: Scalar,
    h: Scalar,
    t0: Scalar,
    t1: Scalar,
) -> (root: Scalar)
    requires
        are_roots(m, k, disc, h, t0, t1),
    ensures
        call_ensures(M::square_root, (m, disc), root),
        (Scalar { bits: ZERO }).at_most(k.b) ==> call_ensures(M::root_seed, (m, k.b, root), h),
        k.b.below(Scalar { bits: ZERO }) ==> call_ensures(
            M::root_seed,
            (m, k.b, root.negated()),
            h,
        ),
        call_ensures(M::over, (m, h, k.a), t0),
        h.magnitude() != 0 ==> call_ensures(M::over, (m, k.c, h), t1),
        h.magnitude() == 0 ==> call_ensures(M::over, (m, h, k.a), t1),
{
    choose|root: Scalar| #[trigger]
        call_ensures(M::square_root, (m, disc), root) && call_ensures(
            M::root_seed,
            (
                m,
                k.b,
                if (Scalar { bits: ZERO }).at_most(k.b) {
                    root
                } else {
                    root.negated()
                },
            ),
            h,
        )
}

/// A piece is tangent to itself: a line has the direction from its one end to the other, an
/// arc that at the station, and a parabola that at the parameter with the station.
pub proof fn law_directions_follow_their_piece<M: CurveMath>(
    m: &M,
    piece: Piece,
    z: Scalar,
    d: Point,
) -> (t: Option<Scalar>)
    requires
        piece.has_direction(m, z, d),
    ensures
        match piece {
            Piece::Line { a, b } => call_ensures(M::line_direction, (m, a, b), d),
            Piece::ThroatArc { z_t, radius, sign, phi0, phi1 } => call_ensures(
                M::arc_direction,
                (m, z_t, radius, sign, z),
                d,
            ),
            Piece::Bezier { n, q, e } => {
                &&& is_parameter(m, n.z, q.z, e.z, z, t)
                &&& t matches Some(x) ==> call_ensures(M::bezier_direction, (m, n, q, e, x), d)
                &&& t is None ==> call_ensures(
                    M::bezier_direction,
                    (m, n, q, e, Scalar { bits: ZERO }),
                    d,
                )
            },
        },
{
    match piece {
        Piece::Bezier { n, q, e } => choose|t: Option<Scalar>| #[trigger]
            is_parameter(m, n.z, q.z, e.z, z, t) && call_ensures(
                M::bezier_direction,
                (m, n, q, e, or_zero(t)),
                d,
            ),
        _ => None,
    }
}

/// A bell whose control point is not ahead of its start is too long for its angles; one
/// whose control point is not short of its end is too short.
pub proof fn law_bells_are_too_long_or_too_short(n: Point, q: Point)
    ensures
        q.z.at_most(n.z) <==> which_way(n, q) == "too long"@,
        !q.z.at_most(n.z) <==> which_way(n, q) == "too short"@,
{
    reveal_strlit("too long");
    reveal_strlit("too short");
    assert("too long"@.len() != "too short"@.len());
}

} // verus!
