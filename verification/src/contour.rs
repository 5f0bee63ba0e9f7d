//! The numbers that describe a nozzle, and which of them make one.

use vstd::prelude::*;
use crate::error::CfdError;
use crate::scalar::{Scalar, ONE, ZERO};
use crate::text::Show;

verus! {

/// The pattern of 90 degrees.
pub const RIGHT_ANGLE: u64 = 0x4056_8000_0000_0000;

/// The pattern of the shortest bell of the table, 0.6.
pub const BELL_LOW: u64 = 0x3FE3_3333_3333_3333;

/// The pattern of the longest bell of the table, 0.9.
pub const BELL_HIGH: u64 = 0x3FEC_CCCC_CCCC_CCCD;

/// The pattern of the longest bell with measured angles, 1.5.
pub const LENGTH_HIGH: u64 = 0x3FF8_0000_0000_0000;

/// The shape of the diverging section.
#[derive(Debug, Clone, Copy, PartialEq)]
pub enum ContourKind {
    Conical { half_angle_deg: Scalar },
    /// A parabolic bell whose angles come from the table.
    ParabolicBell { bell_percent: Scalar },
    /// A parabolic bell with measured angles.
    DirectBell { theta_n_deg: Scalar, theta_e_deg: Scalar, length_fraction: Scalar },
}

/// The numbers that describe a nozzle. Arc radii are in units of the throat
/// radius.
#[derive(Debug, Clone, Copy, PartialEq)]
pub struct NozzleSpec {
    pub throat_radius_m: Scalar,
    pub area_ratio: Scalar,
    pub contraction_ratio: Scalar,
    pub converge_half_angle_deg: Scalar,
    pub throat_arc_up: Scalar,
    pub throat_arc_down: Scalar,
    pub contour: ContourKind,
}

/// The floating-point formulas of the checks.
pub trait ContourMath: Show {
    /// Square root.
    fn square_root(&self, x: Scalar) -> Scalar;

    /// The radius at which a throat arc has turned the wall by an angle.
    fn arc_rise(&self, arc: Scalar, angle_deg: Scalar) -> Scalar;
}

/// What is wrong with a spec.
#[derive(Debug, Clone, Copy, PartialEq)]
pub enum SpecFault {
    ThroatRadius { x: Scalar },
    AreaRatio { x: Scalar },
    ContractionRatio { x: Scalar },
    ConvergeAngle { x: Scalar },
    ArcUp { x: Scalar },
    ArcDown { x: Scalar },
    ChamberTooNarrow { chamber: Scalar, tangency: Scalar },
    ConeAngle { x: Scalar },
    ConeTooSmall { area_ratio: Scalar },
    BellPercent { x: Scalar },
    ThetaN { x: Scalar },
    ThetaE { theta_e: Scalar, theta_n: Scalar },
    LengthFraction { x: Scalar },
}

/// A positive number.
pub open spec fn positive(x: Scalar) -> bool {
    x.finite() && (Scalar { bits: ZERO }).below(x)
}

/// A number above one.
pub open spec fn above_one(x: Scalar) -> bool {
    x.finite() && (Scalar { bits: ONE }).below(x)
}

/// An angle between nothing and a right angle.
pub open spec fn acute(x: Scalar) -> bool {
    (Scalar { bits: ZERO }).below(x) && x.below(Scalar { bits: RIGHT_ANGLE })
}

fn is_positive(x: Scalar) -> (r: bool)
    ensures
        r == positive(x),
{
    x.is_finite() && (Scalar { bits: ZERO }).lt(x)
}

fn is_above_one(x: Scalar) -> (r: bool)
    ensures
        r == above_one(x),
{
    x.is_finite() && (Scalar { bits: ONE }).lt(x)
}

fn is_acute(x: Scalar) -> (r: bool)
    ensures
        r == acute(x),
{
    (Scalar { bits: ZERO }).lt(x) && x.lt(Scalar { bits: RIGHT_ANGLE })
}

/// The first of the plain numbers that is out of its range.
pub open spec fn size_fault(s: NozzleSpec) -> Option<SpecFault> {
    if !positive(s.throat_radius_m) {
        Some(SpecFault::ThroatRadius { x: s.throat_radius_m })
    } else if !above_one(s.area_ratio) {
        Some(SpecFault::AreaRatio { x: s.area_ratio })
    } else if !above_one(s.contraction_ratio) {
        Some(SpecFault::ContractionRatio { x: s.contraction_ratio })
    } else if !acute(s.converge_half_angle_deg) {
        Some(SpecFault::ConvergeAngle { x: s.converge_half_angle_deg })
    } else if !positive(s.throat_arc_up) {
        Some(SpecFault::ArcUp { x: s.throat_arc_up })
    } else if !positive(s.throat_arc_down) {
        Some(SpecFault::ArcDown { x: s.throat_arc_down })
    } else {
        None
    }
}

/// What is wrong with the shape. A cone has to clear the throat arc: its exit
/// radius is `exit` and the arc ends at `tangency`.
pub open spec fn shape_fault(s: NozzleSpec, exit: Scalar, tangency: Scalar) -> Option<SpecFault> {
    match s.contour {
        ContourKind::Conical { half_angle_deg } => if !acute(half_angle_deg) {
            Some(SpecFault::ConeAngle { x: half_angle_deg })
        } else if exit.at_most(tangency) {
            Some(SpecFault::ConeTooSmall { area_ratio: s.area_ratio })
        } else {
            None
        },
        ContourKind::ParabolicBell { bell_percent } => if (Scalar { bits: BELL_LOW }).at_most(
            bell_percent,
        ) && bell_percent.at_most(Scalar { bits: BELL_HIGH }) {
            None
        } else {
            Some(SpecFault::BellPercent { x: bell_percent })
        },
        ContourKind::DirectBell { theta_n_deg, theta_e_deg, length_fraction } => if !acute(
            theta_n_deg,
        ) {
            Some(SpecFault::ThetaN { x: theta_n_deg })
        } else if !((Scalar { bits: ZERO }).below(theta_e_deg) && theta_e_deg.below(
            theta_n_deg,
        )) {
            Some(SpecFault::ThetaE { theta_e: theta_e_deg, theta_n: theta_n_deg })
        } else if !(positive(length_fraction) && length_fraction.at_most(
            Scalar { bits: LENGTH_HIGH },
        )) {
            Some(SpecFault::LengthFraction { x: length_fraction })
        } else {
            None
        },
    }
}

/// The contour is a cone with an acute angle.
pub open spec fn is_plain_cone(s: NozzleSpec) -> bool {
    s.contour matches ContourKind::Conical { half_angle_deg } && acute(half_angle_deg)
}

/// The half angle of a cone.
pub open spec fn cone_angle(s: NozzleSpec) -> Scalar {
    match s.contour {
        ContourKind::Conical { half_angle_deg } => half_angle_deg,
        _ => Scalar { bits: ZERO },
    }
}

/// `fault` is the first fault of a spec: its plain numbers, then the chamber,
/// whose radius `chamber` has to clear the upstream arc at `tangency`, then the
/// shape.
pub open spec fn is_spec_verdict<M: ContourMath>(
    m: &M,
    s: NozzleSpec,
    chamber: Scalar,
    tangency: Scalar,
    exit: Scalar,
    cone_tangency: Scalar,
    fault: Option<SpecFault>,
) -> bool {
    match size_fault(s) {
        Some(f) => fault == Some(f),
        None => {
            &&& call_ensures(
                M::arc_rise,
                (m, s.throat_arc_up, s.converge_half_angle_deg),
                tangency,
            )
            &&& call_ensures(M::square_root, (m, s.contraction_ratio), chamber)
            &&& if chamber.at_most(tangency) {
                fault == Some(SpecFault::ChamberTooNarrow { chamber, tangency })
            } else {
                &&& is_plain_cone(s) ==> {
                    &&& call_ensures(
                        M::arc_rise,
                        (m, s.throat_arc_down, cone_angle(s)),
                        cone_tangency,
                    )
                    &&& call_ensures(M::square_root, (m, s.area_ratio), exit)
                }
                &&& fault == shape_fault(s, exit, cone_tangency)
            }
        },
    }
}

/// A value with words before and behind it.
pub open spec fn says<S: Show>(
    m: &S,
    before: Seq<char>,
    x: Scalar,
    behind: Seq<char>,
    s: Seq<char>,
) -> bool {
    exists|a: String| #[trigger] call_ensures(S::show, (m, x), a) && s == before + a@ + behind
}

fn say<S: Show>(m: &S, before: &str, x: Scalar, behind: &str) -> (s: String)
    ensures
        says(m, before@, x, behind@, s@),
{
    let a = m.show(x);
    let mut s = before.to_owned();
    s.append(a.as_str());
    s.append(behind);
    s
}

/// The text of a fault.
pub open spec fn tells<S: Show>(m: &S, fault: SpecFault, s: Seq<char>) -> bool {
    match fault {
        SpecFault::ThroatRadius { x } => says(m, "throat_radius_m = "@, x, ""@, s),
        SpecFault::AreaRatio { x } => says(m, "area_ratio = "@, x, " (must be > 1)"@, s),
        SpecFault::ContractionRatio { x } => says(
            m,
            "contraction_ratio = "@,
            x,
            " (must be > 1)"@,
            s,
        ),
        SpecFault::ConvergeAngle { x } => says(m, "converge_half_angle_deg = "@, x, ""@, s),
        SpecFault::ArcUp { x } => says(m, "throat_arc_up = "@, x, ""@, s),
        SpecFault::ArcDown { x } => says(m, "throat_arc_down = "@, x, ""@, s),
        SpecFault::ChamberTooNarrow { chamber, tangency } => exists|a: String, b: String|
            {
                &&& #[trigger] call_ensures(S::show_rounded, (m, chamber), a)
                &&& #[trigger] call_ensures(S::show_rounded, (m, tangency), b)
                &&& s == "chamber radius "@ + a@
                    + " r_t does not clear the upstream throat arc (tangency at "@ + b@
                    + " r_t); increase contraction_ratio or reduce throat_arc_up"@
            },
        SpecFault::ConeAngle { x } => says(m, "cone half_angle_deg = "@, x, ""@, s),
        SpecFault::ConeTooSmall { area_ratio } => says(
            m,
            "area_ratio "@,
            area_ratio,
            " too small: exit radius sits inside the downstream throat arc"@,
            s,
        ),
        SpecFault::BellPercent { x } => says(
            m,
            "bell_percent = "@,
            x,
            " (supported range 0.6..=0.9)"@,
            s,
        ),
        SpecFault::ThetaN { x } => says(m, "theta_n_deg = "@, x, ""@, s),
        SpecFault::ThetaE { theta_e, theta_n } => exists|a: String, b: String|
            {
                &&& #[trigger] call_ensures(S::show, (m, theta_e), a)
                &&& #[trigger] call_ensures(S::show, (m, theta_n), b)
                &&& s == "theta_e_deg = "@ + a@ + " (must be in 0 < theta_e < theta_n = "@ + b@
                    + "; a zero exit angle leaves the length unbounded)"@
            },
        SpecFault::LengthFraction { x } => says(
            m,
            "length_fraction = "@,
            x,
            " (supported range 0.0..=1.5 of the 15 deg reference cone)"@,
            s,
        ),
    }
}

impl SpecFault {
    /// The fault in words.
    pub fn text<S: Show>(&self, m: &S) -> (s: String)
        ensures
            tells(m, *self, s@),
    {
        match *self {
            SpecFault::ThroatRadius { x } => say(m, "throat_radius_m = ", x, ""),
            SpecFault::AreaRatio { x } => say(m, "area_ratio = ", x, " (must be > 1)"),
            SpecFault::ContractionRatio { x } => {
                say(m, "contraction_ratio = ", x, " (must be > 1)")
            },
            SpecFault::ConvergeAngle { x } => say(m, "converge_half_angle_deg = ", x, ""),
            SpecFault::ArcUp { x } => say(m, "throat_arc_up = ", x, ""),
            SpecFault::ArcDown { x } => say(m, "throat_arc_down = ", x, ""),
            SpecFault::ChamberTooNarrow { chamber, tangency } => {
                let a = m.show_rounded(chamber);
                let b = m.show_rounded(tangency);
                let mut s = "chamber radius ".to_owned();
                s.append(a.as_str());
                s.append(" r_t does not clear the upstream throat arc (tangency at ");
                s.append(b.as_str());
                s.append(" r_t); increase contraction_ratio or reduce throat_arc_up");
                s
            },
            SpecFault::ConeAngle { x } => say(m, "cone half_angle_deg = ", x, ""),
            SpecFault::ConeTooSmall { area_ratio } => {
                say(
                    m,
                    "area_ratio ",
                    area_ratio,
                    " too small: exit radius sits inside the downstream throat arc",
                )
            },
            SpecFault::BellPercent { x } => {
                say(m, "bell_percent = ", x, " (supported range 0.6..=0.9)")
            },
            SpecFault::ThetaN { x } => say(m, "theta_n_deg = ", x, ""),
            SpecFault::ThetaE { theta_e, theta_n } => {
                let a = m.show(theta_e);
                let b = m.show(theta_n);
                let mut s = "theta_e_deg = ".to_owned();
                s.append(a.as_str());
                s.append(" (must be in 0 < theta_e < theta_n = ");
                s.append(b.as_str());
                s.append("; a zero exit angle leaves the length unbounded)");
                s
            },
            SpecFault::LengthFraction { x } => {
                say(
                    m,
                    "length_fraction = ",
                    x,
                    " (supported range 0.0..=1.5 of the 15 deg reference cone)",
                )
            },
        }
    }
}

impl NozzleSpec {
    fn find_size_fault(&self) -> (r: Option<SpecFault>)
        ensures
            r == size_fault(*self),
    {
        if !is_positive(self.throat_radius_m) {
            Some(SpecFault::ThroatRadius { x: self.throat_radius_m })
        } else if !is_above_one(self.area_ratio) {
            Some(SpecFault::AreaRatio { x: self.area_ratio })
        } else if !is_above_one(self.contraction_ratio) {
            Some(SpecFault::ContractionRatio { x: self.contraction_ratio })
        } else if !is_acute(self.converge_half_angle_deg) {
            Some(SpecFault::ConvergeAngle { x: self.converge_half_angle_deg })
        } else if !is_positive(self.throat_arc_up) {
            Some(SpecFault::ArcUp { x: self.throat_arc_up })
        } else if !is_positive(self.throat_arc_down) {
            Some(SpecFault::ArcDown { x: self.throat_arc_down })
        } else {
            None
        }
    }

    fn find_shape_fault(&self, exit: Scalar, tangency: Scalar) -> (r: Option<SpecFault>)
        ensures
            r == shape_fault(*self, exit, tangency),
    {
        match self.contour {
            ContourKind::Conical { half_angle_deg } => {
                if !is_acute(half_angle_deg) {
                    Some(SpecFault::ConeAngle { x: half_angle_deg })
                } else if exit.le(tangency) {
                    Some(SpecFault::ConeTooSmall { area_ratio: self.area_ratio })
                } else {
                    None
                }
            },
            ContourKind::ParabolicBell { bell_percent } => {
                if (Scalar { bits: BELL_LOW }).le(bell_percent) && bell_percent.le(
                    Scalar { bits: BELL_HIGH },
                ) {
                    None
                } else {
                    Some(SpecFault::BellPercent { x: bell_percent })
                }
            },
            ContourKind::DirectBell { theta_n_deg, theta_e_deg, length_fraction } => {
                if !is_acute(theta_n_deg) {
                    Some(SpecFault::ThetaN { x: theta_n_deg })
                } else if !((Scalar { bits: ZERO }).lt(theta_e_deg) && theta_e_deg.lt(
                    theta_n_deg,
                )) {
                    Some(SpecFault::ThetaE { theta_e: theta_e_deg, theta_n: theta_n_deg })
                } else if !(is_positive(length_fraction) && length_fraction.le(
                    Scalar { bits: LENGTH_HIGH },
                )) {
                    Some(SpecFault::LengthFraction { x: length_fraction })
                } else {
                    None
                }
            },
        }
    }

    /// `fault` is the first fault of the spec.
    pub open spec fn has_verdict<M: ContourMath>(self, m: &M, fault: Option<SpecFault>) -> bool {
        exists|chamber: Scalar, tangency: Scalar, exit: Scalar, cone_tangency: Scalar| #[trigger]
            is_spec_verdict(m, self, chamber, tangency, exit, cone_tangency, fault)
    }

    /// The first fault of the spec.
    pub fn find_fault<M: ContourMath>(&self, m: &M) -> (fault: Option<SpecFault>)
        ensures
            self.has_verdict(m, fault),
    {
        let zero = Scalar { bits: ZERO };
        match self.find_size_fault() {
            Some(f) => {
                assert(is_spec_verdict(m, *self, zero, zero, zero, zero, Some(f)));
                return Some(f);
            },
            None => {},
        }
        let tangency = m.arc_rise(self.throat_arc_up, self.converge_half_angle_deg);
        let chamber = m.square_root(self.contraction_ratio);
        if chamber.le(tangency) {
            let fault = Some(SpecFault::ChamberTooNarrow { chamber, tangency });
            assert(is_spec_verdict(m, *self, chamber, tangency, zero, zero, fault));
            return fault;
        }
        let mut exit = zero;
        let mut cone_tangency = zero;
        match self.contour {
            ContourKind::Conical { half_angle_deg } => {
                if is_acute(half_angle_deg) {
                    cone_tangency = m.arc_rise(self.throat_arc_down, half_angle_deg);
                    exit = m.square_root(self.area_ratio);
                }
            },
            _ => {},
        }
        let fault = self.find_shape_fault(exit, cone_tangency);
        assert(is_spec_verdict(m, *self, chamber, tangency, exit, cone_tangency, fault));
        fault
    }

    /// The outcome of checking the spec.
    pub open spec fn checked<M: ContourMath>(self, m: &M, r: Result<(), CfdError>) -> bool {
        match r {
            Ok(_) => self.has_verdict(m, None),
            Err(e) => exists|f: SpecFault|
                {
                    &&& #[trigger] self.has_verdict(m, Some(f))
                    &&& e matches CfdError::Geometry(s) && tells(m, f, s@)
                },
        }
    }

    /// Checks the spec.
    pub fn validate<M: ContourMath>(&self, m: &M) -> (r: Result<(), CfdError>)
        ensures
            self.checked(m, r),
    {
        match self.find_fault(m) {
            None => Ok(()),
            Some(f) => {
                assert(self.has_verdict(m, Some(f)));
                Err(CfdError::Geometry(f.text(m)))
            },
        }
    }
}

/// A spec that passes has positive lengths, ratios above one and angles inside
/// the quadrant; a bell with measured angles is steeper at the throat than at the
/// exit, where it still opens.
pub proof fn law_sound_specs_are_in_range<M: ContourMath>(m: &M, s: NozzleSpec)
    requires
        s.has_verdict(m, None),
    ensures
        positive(s.throat_radius_m),
        above_one(s.area_ratio),
        above_one(s.contraction_ratio),
        acute(s.converge_half_angle_deg),
        positive(s.throat_arc_up),
        positive(s.throat_arc_down),
        s.contour matches ContourKind::DirectBell { theta_n_deg, theta_e_deg, length_fraction }
            ==> (Scalar { bits: ZERO }).below(theta_e_deg) && theta_e_deg.below(theta_n_deg)
            && length_fraction.at_most(Scalar { bits: LENGTH_HIGH }),
{
}

/// What a sound spec clears: the chamber is wider than the upstream arc rises, a cone's
/// exit wider than the downstream arc, its angle and those of a bell lie inside the
/// quadrant, and a bell's length within its range.
pub proof fn law_sound_specs_clear_their_arcs<M: ContourMath>(m: &M, s: NozzleSpec) -> (r: (
    Scalar,
    Scalar,
    Scalar,
    Scalar,
))
    requires
        s.has_verdict(m, None),
    ensures
        ({
            let (chamber, tangency, exit, cone_tangency) = r;
            let zero = Scalar { bits: ZERO };
            let right = Scalar { bits: RIGHT_ANGLE };
            &&& call_ensures(M::square_root, (m, s.contraction_ratio), chamber)
            &&& call_ensures(
                M::arc_rise,
                (m, s.throat_arc_up, s.converge_half_angle_deg),
                tangency,
            )
            &&& !chamber.at_most(tangency)
            &&& zero.below(s.throat_radius_m) && s.throat_radius_m.finite()
            &&& (Scalar { bits: ONE }).below(s.area_ratio) && s.area_ratio.finite()
            &&& (Scalar { bits: ONE }).below(s.contraction_ratio) && s.contraction_ratio.finite()
            &&& zero.below(s.converge_half_angle_deg) && s.converge_half_angle_deg.below(right)
            &&& zero.below(s.throat_arc_up) && s.throat_arc_up.finite()
            &&& zero.below(s.throat_arc_down) && s.throat_arc_down.finite()
            &&& match s.contour {
                ContourKind::Conical { half_angle_deg } => {
                    &&& zero.below(half_angle_deg) && half_angle_deg.below(right)
                    &&& call_ensures(M::square_root, (m, s.area_ratio), exit)
                    &&& call_ensures(
                        M::arc_rise,
                        (m, s.throat_arc_down, half_angle_deg),
                        cone_tangency,
                    )
                    &&& !exit.at_most(cone_tangency)
                },
                ContourKind::ParabolicBell { bell_percent } => {
                    &&& (Scalar { bits: BELL_LOW }).at_most(bell_percent)
                    &&& bell_percent.at_most(Scalar { bits: BELL_HIGH })
                },
                ContourKind::DirectBell { theta_n_deg, theta_e_deg, length_fraction } => {
                    &&& zero.below(theta_e_deg)
                    &&& theta_e_deg.below(theta_n_deg)
                    &&& theta_n_deg.below(right)
                    &&& zero.below(length_fraction)
                    &&& length_fraction.at_most(Scalar { bits: LENGTH_HIGH })
                },
            }
        }),
{
    let (chamber, tangency, exit, cone_tangency) = choose|
        chamber: Scalar,
        tangency: Scalar,
        exit: Scalar,
        cone_tangency: Scalar,
    | #[trigger]
        is_spec_verdict(m, s, chamber, tangency, exit, cone_tangency, None);
    (chamber, tangency, exit, cone_tangency)
}

/// What a fault tells is so: each names a number of the spec that is out of its range, or
/// an arc that is not cleared.
pub proof fn law_faults_are_so<M: ContourMath>(m: &M, s: NozzleSpec, f: SpecFault)
    requires
        s.has_verdict(m, Some(f)),
    ensures
        ({
            let zero = Scalar { bits: ZERO };
            let one = Scalar { bits: ONE };
            let right = Scalar { bits: RIGHT_ANGLE };
            match f {
                SpecFault::ThroatRadius { x } => x == s.throat_radius_m && !(x.finite()
                    && zero.below(x)),
                SpecFault::AreaRatio { x } => x == s.area_ratio && !(x.finite() && one.below(x)),
                SpecFault::ContractionRatio { x } => x == s.contraction_ratio && !(x.finite()
                    && one.below(x)),
                SpecFault::ConvergeAngle { x } => x == s.converge_half_angle_deg && !(zero.below(x)
                    && x.below(right)),
                SpecFault::ArcUp { x } => x == s.throat_arc_up && !(x.finite() && zero.below(x)),
                SpecFault::ArcDown { x } => x == s.throat_arc_down && !(x.finite()
                    && zero.below(x)),
                SpecFault::ChamberTooNarrow { chamber, tangency } => {
                    &&& call_ensures(M::square_root, (m, s.contraction_ratio), chamber)
                    &&& call_ensures(
                        M::arc_rise,
                        (m, s.throat_arc_up, s.converge_half_angle_deg),
                        tangency,
                    )
                    &&& chamber.at_most(tangency)
                },
                SpecFault::ConeAngle { x } => s.contour == (ContourKind::Conical {
                    half_angle_deg: x,
                }) && !(zero.below(x) && x.below(right)),
                SpecFault::ConeTooSmall { area_ratio } => area_ratio == s.area_ratio
                    && s.contour is Conical,
                SpecFault::BellPercent { x } => s.contour == (ContourKind::ParabolicBell {
                    bell_percent: x,
                }) && !((Scalar { bits: BELL_LOW }).at_most(x) && x.at_most(
                    Scalar { bits: BELL_HIGH },
                )),
                SpecFault::ThetaN { x } => s.contour is DirectBell && !(zero.below(x) && x.below(
                    right,
                )),
                SpecFault::ThetaE { theta_e, theta_n } => s.contour is DirectBell && !(zero.below(
                    theta_e,
                ) && theta_e.below(theta_n)),
                SpecFault::LengthFraction { x } => s.contour is DirectBell && !(zero.below(x)
                    && x.finite() && x.at_most(Scalar { bits: LENGTH_HIGH })),
            }
        }),
{
}

} // verus!
