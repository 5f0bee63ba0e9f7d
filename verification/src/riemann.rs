//! Face states and face fluxes.
//!
//! States are in the frame of the face: the first velocity is normal to it.

use vstd::prelude::*;
use crate::field::{FluxMode, Limiter, Numerics, Reconstruction};
use crate::flow::{Cons, FlowMath, Prim};
use crate::scalar::{Scalar, ZERO};

verus! {

/// Positions of the four cells around a face, and of the face.
#[derive(Debug, Clone, Copy, PartialEq)]
pub struct FaceGeom {
    pub x0: Scalar,
    pub x1: Scalar,
    pub x2: Scalar,
    pub x3: Scalar,
    pub face: Scalar,
}

/// One value in each of the four cells around a face, in ascending order. The
/// face lies between `b` and `c`.
#[derive(Debug, Clone, Copy, PartialEq)]
pub struct Four<T> {
    pub a: T,
    pub b: T,
    pub c: T,
    pub d: T,
}

/// The floating-point formulas at a face.
pub trait FaceMath: FlowMath {
    /// The difference from `a` at `xa` to `b` at `xb`, per length.
    fn difference(&self, a: Scalar, b: Scalar, xa: Scalar, xb: Scalar) -> Scalar;

    /// Half the sum of two differences.
    fn half_sum(&self, dm: Scalar, dp: Scalar) -> Scalar;

    /// The product of two differences.
    fn product(&self, dm: Scalar, dp: Scalar) -> Scalar;

    /// Twice the product of two differences over their sum.
    fn harmonic(&self, dm: Scalar, dp: Scalar) -> Scalar;

    /// The value at the face from the cell at `x` and the slope in it.
    fn extrapolate(&self, value: Scalar, slope: Scalar, x: Scalar, face: Scalar) -> Scalar;

    /// Exact flux of one state.
    fn analytic_flux(&self, q: Prim, gamma: Scalar) -> Cons;

    /// Speed of the slowest wave of a state: its velocity less that of sound.
    fn slowest_wave(&self, q: Prim, gamma: Scalar) -> Scalar;

    /// Speed of the fastest wave of a state: its velocity and that of sound.
    fn fastest_wave(&self, q: Prim, gamma: Scalar) -> Scalar;

    /// Speed of the contact between the two waves.
    fn contact_speed(&self, ql: Prim, qr: Prim, sl: Scalar, sr: Scalar) -> Scalar;

    /// Flux between the wave of speed `s` that bounds `q` and the contact.
    fn star_flux(&self, q: Prim, s: Scalar, contact: Scalar, gamma: Scalar) -> Cons;

    /// Pressure between the wave of speed `s` that bounds `q` and the contact.
    fn star_pressure(&self, q: Prim, s: Scalar, contact: Scalar) -> Scalar;

    /// Flux of the average state between the two waves.
    fn average_flux(
        &self,
        ql: Prim,
        qr: Prim,
        sl: Scalar,
        sr: Scalar,
        gamma: Scalar,
    ) -> Cons;

    /// Pressure of the average state between the two waves.
    fn average_pressure(
        &self,
        ql: Prim,
        qr: Prim,
        sl: Scalar,
        sr: Scalar,
        gamma: Scalar,
    ) -> Scalar;
}

/// Zero when the arguments disagree in sign, else the smaller in magnitude. Of
/// arguments that are not both numbers, the second.
pub open spec fn limited(a: Scalar, b: Scalar) -> Scalar {
    if a.nan() || b.nan() {
        b
    } else if a.order() == 0 || b.order() == 0 || (a.order() > 0) != (b.order() > 0) {
        Scalar { bits: ZERO }
    } else if a.magnitude() < b.magnitude() {
        a
    } else {
        b
    }
}

/// Zero when the arguments disagree in sign, else the smaller in magnitude.
pub fn minmod(a: Scalar, b: Scalar) -> (r: Scalar)
    ensures
        r == limited(a, b),
{
    let zero = Scalar { bits: ZERO };
    if a.is_nan() || b.is_nan() {
        b
    } else if a.same(zero) || b.same(zero) || zero.lt(a) != zero.lt(b) {
        zero
    } else if a.abs().lt(b.abs()) {
        a
    } else {
        b
    }
}

/// A limited slope never points against either difference and never exceeds one.
pub proof fn law_limited_slope_is_bounded(a: Scalar, b: Scalar)
    requires
        !a.nan(),
        !b.nan(),
    ensures
        !limited(a, b).nan(),
        limited(a, b).magnitude() <= a.magnitude(),
        limited(a, b).magnitude() <= b.magnitude(),
        limited(a, b).order() > 0 ==> a.order() > 0 && b.order() > 0,
        limited(a, b).order() < 0 ==> a.order() < 0 && b.order() < 0,
{
}

/// `s` is the slope that the limiter makes of the differences on both sides.
pub open spec fn is_slope<M: FaceMath>(
    m: &M,
    dm: Scalar,
    dp: Scalar,
    limiter: Limiter,
    s: Scalar,
) -> bool {
    match limiter {
        Limiter::Unlimited => call_ensures(M::half_sum, (m, dm, dp), s),
        Limiter::Minmod => s == limited(dm, dp),
        Limiter::VanLeer => exists|product: Scalar| #[trigger]
            call_ensures(M::product, (m, dm, dp), product) && if (Scalar {
                bits: ZERO,
            }).below(product) {
                call_ensures(M::harmonic, (m, dm, dp), s)
            } else {
                s.bits == ZERO
            },
    }
}

fn slope<M: FaceMath>(m: &M, dm: Scalar, dp: Scalar, limiter: Limiter) -> (s: Scalar)
    ensures
        is_slope(m, dm, dp, limiter, s),
{
    match limiter {
        Limiter::Unlimited => m.half_sum(dm, dp),
        Limiter::Minmod => minmod(dm, dp),
        Limiter::VanLeer => {
            let zero = Scalar { bits: ZERO };
            let product = m.product(dm, dp);
            if zero.lt(product) {
                m.harmonic(dm, dp)
            } else {
                zero
            }
        },
    }
}

/// `r` is the value at `face` of the middle one of three cells.
pub open spec fn is_reconstructed<M: FaceMath>(
    m: &M,
    a: Scalar,
    b: Scalar,
    c: Scalar,
    xa: Scalar,
    xb: Scalar,
    xc: Scalar,
    face: Scalar,
    limiter: Limiter,
    r: Scalar,
) -> bool {
    exists|dm: Scalar, dp: Scalar, s: Scalar|
        {
            &&& #[trigger] call_ensures(M::difference, (m, a, b, xa, xb), dm)
            &&& #[trigger] call_ensures(M::difference, (m, b, c, xb, xc), dp)
            &&& is_slope(m, dm, dp, limiter, s)
            &&& #[trigger] call_ensures(M::extrapolate, (m, b, s, xb, face), r)
        }
}

fn reconstruct<M: FaceMath>(
    m: &M,
    a: Scalar,
    b: Scalar,
    c: Scalar,
    xa: Scalar,
    xb: Scalar,
    xc: Scalar,
    face: Scalar,
    limiter: Limiter,
) -> (r: Scalar)
    ensures
        is_reconstructed(m, a, b, c, xa, xb, xc, face, limiter, r),
{
    let dm = m.difference(a, b, xa, xb);
    let dp = m.difference(b, c, xb, xc);
    let s = slope(m, dm, dp, limiter);
    m.extrapolate(b, s, xb, face)
}

/// `r` is the state at `face` of the middle one of three cells.
pub open spec fn is_face_state<M: FaceMath>(
    m: &M,
    a: Prim,
    b: Prim,
    c: Prim,
    xa: Scalar,
    xb: Scalar,
    xc: Scalar,
    face: Scalar,
    limiter: Limiter,
    r: Prim,
) -> bool {
    &&& is_reconstructed(m, a.rho, b.rho, c.rho, xa, xb, xc, face, limiter, r.rho)
    &&& is_reconstructed(m, a.uz, b.uz, c.uz, xa, xb, xc, face, limiter, r.uz)
    &&& is_reconstructed(m, a.ur, b.ur, c.ur, xa, xb, xc, face, limiter, r.ur)
    &&& is_reconstructed(m, a.p, b.p, c.p, xa, xb, xc, face, limiter, r.p)
}

fn face_state<M: FaceMath>(
    m: &M,
    a: Prim,
    b: Prim,
    c: Prim,
    xa: Scalar,
    xb: Scalar,
    xc: Scalar,
    face: Scalar,
    limiter: Limiter,
) -> (r: Prim)
    ensures
        is_face_state(m, a, b, c, xa, xb, xc, face, limiter, r),
{
    Prim {
        rho: reconstruct(m, a.rho, b.rho, c.rho, xa, xb, xc, face, limiter),
        uz: reconstruct(m, a.uz, b.uz, c.uz, xa, xb, xc, face, limiter),
        ur: reconstruct(m, a.ur, b.ur, c.ur, xa, xb, xc, face, limiter),
        p: reconstruct(m, a.p, b.p, c.p, xa, xb, xc, face, limiter),
    }
}

/// The pair of face states. Solid in the stencil of a side drops that side to
/// its cell average; first order takes both cell averages.
pub open spec fn are_face_states<M: FaceMath>(
    m: &M,
    s: Four<Prim>,
    solid: Four<bool>,
    fg: FaceGeom,
    recon: Reconstruction,
    limiter: Limiter,
    left: Prim,
    right: Prim,
) -> bool {
    let first = recon == Reconstruction::FirstOrder;
    &&& if first || solid.a || solid.c {
        left == s.b
    } else {
        is_face_state(m, s.a, s.b, s.c, fg.x0, fg.x1, fg.x2, fg.face, limiter, left)
    }
    &&& if first || solid.b || solid.d {
        right == s.c
    } else {
        is_face_state(m, s.b, s.c, s.d, fg.x1, fg.x2, fg.x3, fg.face, limiter, right)
    }
}

/// The states on both sides of a face.
pub fn muscl_face_states<M: FaceMath>(
    m: &M,
    s: Four<Prim>,
    solid: Four<bool>,
    fg: FaceGeom,
    recon: Reconstruction,
    limiter: Limiter,
) -> (r: (Prim, Prim))
    ensures
        are_face_states(m, s, solid, fg, recon, limiter, r.0, r.1),
{
    if recon == Reconstruction::FirstOrder {
        return (s.b, s.c);
    }
    let left = if solid.a || solid.c {
        s.b
    } else {
        face_state(m, s.a, s.b, s.c, fg.x0, fg.x1, fg.x2, fg.face, limiter)
    };
    let right = if solid.b || solid.d {
        s.c
    } else {
        face_state(m, s.b, s.c, s.d, fg.x1, fg.x2, fg.x3, fg.face, limiter)
    };
    (left, right)
}

/// The speeds of the outermost waves between two states: the slower of the slowest
/// waves and the faster of the fastest.
pub open spec fn are_speeds<M: FaceMath>(
    m: &M,
    ql: Prim,
    qr: Prim,
    gamma: Scalar,
    sl: Scalar,
    sr: Scalar,
) -> bool {
    &&& exists|a: Scalar, b: Scalar|
        {
            &&& #[trigger] call_ensures(M::slowest_wave, (m, ql, gamma), a)
            &&& #[trigger] call_ensures(M::slowest_wave, (m, qr, gamma), b)
            &&& sl == a.smaller(b)
        }
    &&& exists|a: Scalar, b: Scalar|
        {
            &&& #[trigger] call_ensures(M::fastest_wave, (m, ql, gamma), a)
            &&& #[trigger] call_ensures(M::fastest_wave, (m, qr, gamma), b)
            &&& sr == a.larger(b)
        }
}

fn outer_speeds<M: FaceMath>(m: &M, ql: Prim, qr: Prim, gamma: Scalar) -> (r: (Scalar, Scalar))
    ensures
        are_speeds(m, ql, qr, gamma, r.0, r.1),
{
    let sl = m.slowest_wave(ql, gamma).min(m.slowest_wave(qr, gamma));
    let sr = m.fastest_wave(ql, gamma).max(m.fastest_wave(qr, gamma));
    (sl, sr)
}

/// The flux with contact resolution: the exact flux of one side when both waves
/// run to the other, else that of the star state on the face's side of the
/// contact. `p` is the pressure at the face.
pub open spec fn is_hllc<M: FaceMath>(
    m: &M,
    ql: Prim,
    qr: Prim,
    gamma: Scalar,
    sl: Scalar,
    sr: Scalar,
    contact: Scalar,
    f: Cons,
    p: Scalar,
) -> bool {
    let zero = Scalar { bits: ZERO };
    &&& are_speeds(m, ql, qr, gamma, sl, sr)
    &&& if zero.at_most(sl) {
        call_ensures(M::analytic_flux, (m, ql, gamma), f) && p == ql.p
    } else if sr.at_most(zero) {
        call_ensures(M::analytic_flux, (m, qr, gamma), f) && p == qr.p
    } else {
        &&& call_ensures(M::contact_speed, (m, ql, qr, sl, sr), contact)
        &&& if zero.at_most(contact) {
            call_ensures(M::star_flux, (m, ql, sl, contact, gamma), f) && call_ensures(
                M::star_pressure,
                (m, ql, sl, contact),
                p,
            )
        } else {
            call_ensures(M::star_flux, (m, qr, sr, contact, gamma), f) && call_ensures(
                M::star_pressure,
                (m, qr, sr, contact),
                p,
            )
        }
    }
}

/// Flux with contact resolution, and the pressure at the face.
pub fn hllc_flux_p<M: FaceMath>(m: &M, ql: Prim, qr: Prim, gamma: Scalar) -> (r: (Cons, Scalar))
    ensures
        exists|sl: Scalar, sr: Scalar, contact: Scalar| #[trigger]
            is_hllc(m, ql, qr, gamma, sl, sr, contact, r.0, r.1),
{
    let zero = Scalar { bits: ZERO };
    let (sl, sr) = outer_speeds(m, ql, qr, gamma);
    if zero.le(sl) {
        let r = (m.analytic_flux(ql, gamma), ql.p);
        assert(is_hllc(m, ql, qr, gamma, sl, sr, zero, r.0, r.1));
        return r;
    }
    if sr.le(zero) {
        let r = (m.analytic_flux(qr, gamma), qr.p);
        assert(is_hllc(m, ql, qr, gamma, sl, sr, zero, r.0, r.1));
        return r;
    }
    let contact = m.contact_speed(ql, qr, sl, sr);
    let r = if zero.le(contact) {
        (m.star_flux(ql, sl, contact, gamma), m.star_pressure(ql, sl, contact))
    } else {
        (m.star_flux(qr, sr, contact, gamma), m.star_pressure(qr, sr, contact))
    };
    assert(is_hllc(m, ql, qr, gamma, sl, sr, contact, r.0, r.1));
    r
}

/// Flux with contact resolution.
pub fn hllc_flux<M: FaceMath>(m: &M, ql: Prim, qr: Prim, gamma: Scalar) -> (f: Cons)
    ensures
        exists|sl: Scalar, sr: Scalar, contact: Scalar, p: Scalar| #[trigger]
            is_hllc(m, ql, qr, gamma, sl, sr, contact, f, p),
{
    hllc_flux_p(m, ql, qr, gamma).0
}

/// The flux without contact resolution: the exact flux of one side when both
/// waves run to the other, else that of the average state between them.
pub open spec fn is_hll<M: FaceMath>(
    m: &M,
    ql: Prim,
    qr: Prim,
    gamma: Scalar,
    sl: Scalar,
    sr: Scalar,
    f: Cons,
    p: Scalar,
) -> bool {
    let zero = Scalar { bits: ZERO };
    &&& are_speeds(m, ql, qr, gamma, sl, sr)
    &&& if zero.at_most(sl) {
        call_ensures(M::analytic_flux, (m, ql, gamma), f) && p == ql.p
    } else if sr.at_most(zero) {
        call_ensures(M::analytic_flux, (m, qr, gamma), f) && p == qr.p
    } else {
        call_ensures(M::average_flux, (m, ql, qr, sl, sr, gamma), f) && call_ensures(
            M::average_pressure,
            (m, ql, qr, sl, sr, gamma),
            p,
        )
    }
}

/// Flux without contact resolution, and the pressure at the face.
pub fn hll_flux_p<M: FaceMath>(m: &M, ql: Prim, qr: Prim, gamma: Scalar) -> (r: (Cons, Scalar))
    ensures
        exists|sl: Scalar, sr: Scalar| #[trigger]
            is_hll(m, ql, qr, gamma, sl, sr, r.0, r.1),
{
    let zero = Scalar { bits: ZERO };
    let (sl, sr) = outer_speeds(m, ql, qr, gamma);
    let r = if zero.le(sl) {
        (m.analytic_flux(ql, gamma), ql.p)
    } else if sr.le(zero) {
        (m.analytic_flux(qr, gamma), qr.p)
    } else {
        (
            m.average_flux(ql, qr, sl, sr, gamma),
            m.average_pressure(ql, qr, sl, sr, gamma),
        )
    };
    assert(is_hll(m, ql, qr, gamma, sl, sr, r.0, r.1));
    r
}

/// Flux without contact resolution.
pub fn hll_flux<M: FaceMath>(m: &M, ql: Prim, qr: Prim, gamma: Scalar) -> (f: Cons)
    ensures
        exists|sl: Scalar, sr: Scalar, p: Scalar| #[trigger]
            is_hll(m, ql, qr, gamma, sl, sr, f, p),
{
    hll_flux_p(m, ql, qr, gamma).0
}

/// The states hold equal values.
pub open spec fn equal_states(a: Prim, b: Prim) -> bool {
    a.rho.equals(b.rho) && a.uz.equals(b.uz) && a.ur.equals(b.ur) && a.p.equals(b.p)
}

fn states_equal(a: Prim, b: Prim) -> (r: bool)
    ensures
        r == equal_states(a, b),
{
    a.rho.same(b.rho) && a.uz.same(b.uz) && a.ur.same(b.ur) && a.p.same(b.p)
}

/// The states a flux is computed from: the reconstructed pair, or, when either
/// of them is at a floor, both cell averages. A one-sided fallback would give
/// the two cells different fluxes.
pub open spec fn are_flux_states<M: FaceMath>(
    m: &M,
    s: Four<Prim>,
    solid: Four<bool>,
    fg: FaceGeom,
    n: Numerics,
    ql: Prim,
    qr: Prim,
) -> bool {
    exists|left: Prim, right: Prim|
        {
            &&& #[trigger] are_face_states(
                m,
                s,
                solid,
                fg,
                n.reconstruction,
                n.limiter,
                left,
                right,
            )
            &&& if n.reconstruction == Reconstruction::Muscl && (left.unphysical()
                || right.unphysical()) {
                ql == s.b && qr == s.c
            } else {
                ql == left && qr == right
            }
        }
}

/// `f` is the flux through a face between two fluid cells and `p` the pressure
/// there. Two equal states have the exact flux of their state, which keeps a
/// uniform region uniform.
pub open spec fn is_fluid_flux<M: FaceMath>(
    m: &M,
    s: Four<Prim>,
    solid: Four<bool>,
    fg: FaceGeom,
    use_hll: bool,
    n: Numerics,
    gamma: Scalar,
    f: Cons,
    p: Scalar,
) -> bool {
    exists|ql: Prim, qr: Prim| #[trigger]
        are_flux_states(m, s, solid, fg, n, ql, qr) && if equal_states(ql, qr) {
            call_ensures(M::analytic_flux, (m, ql, gamma), f) && p == ql.p
        } else if use_hll {
            exists|sl: Scalar, sr: Scalar| #[trigger] is_hll(m, ql, qr, gamma, sl, sr, f, p)
        } else {
            exists|sl: Scalar, sr: Scalar, contact: Scalar| #[trigger]
                is_hllc(m, ql, qr, gamma, sl, sr, contact, f, p)
        }
}

/// Flux through a face between two fluid cells, and the pressure there.
pub fn fluid_face_flux<M: FaceMath>(
    m: &M,
    s: Four<Prim>,
    solid: Four<bool>,
    fg: FaceGeom,
    use_hll: bool,
    n: Numerics,
    gamma: Scalar,
) -> (r: (Cons, Scalar))
    ensures
        is_fluid_flux(m, s, solid, fg, use_hll, n, gamma, r.0, r.1),
{
    let (left, right) = muscl_face_states(m, s, solid, fg, n.reconstruction, n.limiter);
    let fallback = n.reconstruction == Reconstruction::Muscl && (left.nonphysical()
        || right.nonphysical());
    let ql = if fallback {
        s.b
    } else {
        left
    };
    let qr = if fallback {
        s.c
    } else {
        right
    };
    assert(are_flux_states(m, s, solid, fg, n, ql, qr));
    if states_equal(ql, qr) {
        (m.analytic_flux(ql, gamma), ql.p)
    } else if use_hll {
        hll_flux_p(m, ql, qr, gamma)
    } else {
        hllc_flux_p(m, ql, qr, gamma)
    }
}

/// Whether axial faces use the flux without contact resolution.
pub open spec fn axial_hll(mode: FluxMode) -> bool {
    mode == FluxMode::Hll
}

/// Whether radial faces always use the flux without contact resolution.
pub open spec fn radial_hll(mode: FluxMode) -> bool {
    mode == FluxMode::Hll || mode == FluxMode::HllRadial
}

/// In a uniform region the flux is the exact flux of the state, whatever the
/// mode: at first order two equal cells have nothing to be resolved.
pub proof fn law_uniform_flow_has_exact_flux<M: FaceMath>(
    m: &M,
    q: Prim,
    solid: Four<bool>,
    fg: FaceGeom,
    use_hll: bool,
    n: Numerics,
    gamma: Scalar,
    f: Cons,
    p: Scalar,
)
    requires
        n.reconstruction == Reconstruction::FirstOrder,
        equal_states(q, q),
        is_fluid_flux(
            m,
            (Four { a: q, b: q, c: q, d: q }),
            solid,
            fg,
            use_hll,
            n,
            gamma,
            f,
            p,
        ),
    ensures
        call_ensures(M::analytic_flux, (m, q, gamma), f),
        p == q.p,
{
}

/// The formulas of a face are functions: the same values give the same result.
pub open spec fn are_functions<M: FaceMath>(m: &M) -> bool {
    &&& forall|a: Scalar, b: Scalar, xa: Scalar, xb: Scalar, x: Scalar, y: Scalar|
        {
            &&& #[trigger] call_ensures(M::difference, (m, a, b, xa, xb), x)
            &&& #[trigger] call_ensures(M::difference, (m, a, b, xa, xb), y)
        } ==> x == y
    &&& forall|a: Scalar, b: Scalar, x: Scalar, y: Scalar|
        {
            &&& #[trigger] call_ensures(M::half_sum, (m, a, b), x)
            &&& #[trigger] call_ensures(M::half_sum, (m, a, b), y)
        } ==> x == y
    &&& forall|a: Scalar, b: Scalar, x: Scalar, y: Scalar|
        {
            &&& #[trigger] call_ensures(M::product, (m, a, b), x)
            &&& #[trigger] call_ensures(M::product, (m, a, b), y)
        } ==> x == y
    &&& forall|a: Scalar, b: Scalar, x: Scalar, y: Scalar|
        {
            &&& #[trigger] call_ensures(M::harmonic, (m, a, b), x)
            &&& #[trigger] call_ensures(M::harmonic, (m, a, b), y)
        } ==> x == y
    &&& forall|a: Scalar, slope: Scalar, xa: Scalar, face: Scalar, x: Scalar, y: Scalar|
        {
            &&& #[trigger] call_ensures(M::extrapolate, (m, a, slope, xa, face), x)
            &&& #[trigger] call_ensures(M::extrapolate, (m, a, slope, xa, face), y)
        } ==> x == y
    &&& forall|q: Prim, gamma: Scalar, x: Cons, y: Cons|
        {
            &&& #[trigger] call_ensures(M::analytic_flux, (m, q, gamma), x)
            &&& #[trigger] call_ensures(M::analytic_flux, (m, q, gamma), y)
        } ==> x == y
    &&& forall|q: Prim, gamma: Scalar, x: Scalar, y: Scalar|
        {
            &&& #[trigger] call_ensures(M::slowest_wave, (m, q, gamma), x)
            &&& #[trigger] call_ensures(M::slowest_wave, (m, q, gamma), y)
        } ==> x == y
    &&& forall|q: Prim, gamma: Scalar, x: Scalar, y: Scalar|
        {
            &&& #[trigger] call_ensures(M::fastest_wave, (m, q, gamma), x)
            &&& #[trigger] call_ensures(M::fastest_wave, (m, q, gamma), y)
        } ==> x == y
    &&& forall|ql: Prim, qr: Prim, sl: Scalar, sr: Scalar, x: Scalar, y: Scalar|
        {
            &&& #[trigger] call_ensures(M::contact_speed, (m, ql, qr, sl, sr), x)
            &&& #[trigger] call_ensures(M::contact_speed, (m, ql, qr, sl, sr), y)
        } ==> x == y
    &&& forall|q: Prim, sk: Scalar, contact: Scalar, gamma: Scalar, x: Cons, y: Cons|
        {
            &&& #[trigger] call_ensures(M::star_flux, (m, q, sk, contact, gamma), x)
            &&& #[trigger] call_ensures(M::star_flux, (m, q, sk, contact, gamma), y)
        } ==> x == y
    &&& forall|q: Prim, sk: Scalar, contact: Scalar, x: Scalar, y: Scalar|
        {
            &&& #[trigger] call_ensures(M::star_pressure, (m, q, sk, contact), x)
            &&& #[trigger] call_ensures(M::star_pressure, (m, q, sk, contact), y)
        } ==> x == y
    &&& forall|ql: Prim, qr: Prim, sl: Scalar, sr: Scalar, gamma: Scalar, x: Cons, y: Cons|
        {
            &&& #[trigger] call_ensures(M::average_flux, (m, ql, qr, sl, sr, gamma), x)
            &&& #[trigger] call_ensures(M::average_flux, (m, ql, qr, sl, sr, gamma), y)
        } ==> x == y
    &&& forall|ql: Prim, qr: Prim, sl: Scalar, sr: Scalar, gamma: Scalar, x: Scalar, y: Scalar|
        {
            &&& #[trigger] call_ensures(M::average_pressure, (m, ql, qr, sl, sr, gamma), x)
            &&& #[trigger] call_ensures(M::average_pressure, (m, ql, qr, sl, sr, gamma), y)
        } ==> x == y
}

proof fn lemma_one_reconstruction<M: FaceMath>(
    m: &M,
    a: Scalar,
    b: Scalar,
    c: Scalar,
    xa: Scalar,
    xb: Scalar,
    xc: Scalar,
    face: Scalar,
    limiter: Limiter,
    r1: Scalar,
    r2: Scalar,
)
    requires
        are_functions(m),
        is_reconstructed(m, a, b, c, xa, xb, xc, face, limiter, r1),
        is_reconstructed(m, a, b, c, xa, xb, xc, face, limiter, r2),
    ensures
        r1 == r2,
{
    let (dm1, dp1, s1) = choose|dm: Scalar, dp: Scalar, s: Scalar|
        {
            &&& #[trigger] call_ensures(M::difference, (m, a, b, xa, xb), dm)
            &&& #[trigger] call_ensures(M::difference, (m, b, c, xb, xc), dp)
            &&& is_slope(m, dm, dp, limiter, s)
            &&& #[trigger] call_ensures(M::extrapolate, (m, b, s, xb, face), r1)
        };
    let (dm2, dp2, s2) = choose|dm: Scalar, dp: Scalar, s: Scalar|
        {
            &&& #[trigger] call_ensures(M::difference, (m, a, b, xa, xb), dm)
            &&& #[trigger] call_ensures(M::difference, (m, b, c, xb, xc), dp)
            &&& is_slope(m, dm, dp, limiter, s)
            &&& #[trigger] call_ensures(M::extrapolate, (m, b, s, xb, face), r2)
        };
    assert(dm1 == dm2);
    assert(dp1 == dp2);
    assert(s1 == s2);
}

proof fn lemma_one_face_state<M: FaceMath>(
    m: &M,
    a: Prim,
    b: Prim,
    c: Prim,
    xa: Scalar,
    xb: Scalar,
    xc: Scalar,
    face: Scalar,
    limiter: Limiter,
    r1: Prim,
    r2: Prim,
)
    requires
        are_functions(m),
        is_face_state(m, a, b, c, xa, xb, xc, face, limiter, r1),
        is_face_state(m, a, b, c, xa, xb, xc, face, limiter, r2),
    ensures
        r1 == r2,
{
    lemma_one_reconstruction(m, a.rho, b.rho, c.rho, xa, xb, xc, face, limiter, r1.rho, r2.rho);
    lemma_one_reconstruction(m, a.uz, b.uz, c.uz, xa, xb, xc, face, limiter, r1.uz, r2.uz);
    lemma_one_reconstruction(m, a.ur, b.ur, c.ur, xa, xb, xc, face, limiter, r1.ur, r2.ur);
    lemma_one_reconstruction(m, a.p, b.p, c.p, xa, xb, xc, face, limiter, r1.p, r2.p);
}

proof fn lemma_one_pair_of_states<M: FaceMath>(
    m: &M,
    s: Four<Prim>,
    solid: Four<bool>,
    fg: FaceGeom,
    n: Numerics,
    l1: Prim,
    r1: Prim,
    l2: Prim,
    r2: Prim,
)
    requires
        are_functions(m),
        are_flux_states(m, s, solid, fg, n, l1, r1),
        are_flux_states(m, s, solid, fg, n, l2, r2),
    ensures
        l1 == l2,
        r1 == r2,
{
    let limiter = n.limiter;
    let (a1, b1) = choose|left: Prim, right: Prim|
        {
            &&& #[trigger] are_face_states(
                m,
                s,
                solid,
                fg,
                n.reconstruction,
                n.limiter,
                left,
                right,
            )
            &&& if n.reconstruction == Reconstruction::Muscl && (left.unphysical()
                || right.unphysical()) {
                l1 == s.b && r1 == s.c
            } else {
                l1 == left && r1 == right
            }
        };
    let (a2, b2) = choose|left: Prim, right: Prim|
        {
            &&& #[trigger] are_face_states(
                m,
                s,
                solid,
                fg,
                n.reconstruction,
                n.limiter,
                left,
                right,
            )
            &&& if n.reconstruction == Reconstruction::Muscl && (left.unphysical()
                || right.unphysical()) {
                l2 == s.b && r2 == s.c
            } else {
                l2 == left && r2 == right
            }
        };
    let first = n.reconstruction == Reconstruction::FirstOrder;
    if !(first || solid.a || solid.c) {
        lemma_one_face_state(m, s.a, s.b, s.c, fg.x0, fg.x1, fg.x2, fg.face, limiter, a1, a2);
    }
    if !(first || solid.b || solid.d) {
        lemma_one_face_state(m, s.b, s.c, s.d, fg.x1, fg.x2, fg.x3, fg.face, limiter, b1, b2);
    }
}

proof fn lemma_one_pair_of_speeds<M: FaceMath>(
    m: &M,
    ql: Prim,
    qr: Prim,
    gamma: Scalar,
    sl1: Scalar,
    sr1: Scalar,
    sl2: Scalar,
    sr2: Scalar,
)
    requires
        are_functions(m),
        are_speeds(m, ql, qr, gamma, sl1, sr1),
        are_speeds(m, ql, qr, gamma, sl2, sr2),
    ensures
        sl1 == sl2,
        sr1 == sr2,
{
}

/// A face between two fluid cells has one flux and one pressure, where the
/// formulas are functions.
pub proof fn law_fluid_face_has_one_flux<M: FaceMath>(
    m: &M,
    s: Four<Prim>,
    solid: Four<bool>,
    fg: FaceGeom,
    use_hll: bool,
    n: Numerics,
    gamma: Scalar,
    f1: Cons,
    p1: Scalar,
    f2: Cons,
    p2: Scalar,
)
    requires
        are_functions(m),
        is_fluid_flux(m, s, solid, fg, use_hll, n, gamma, f1, p1),
        is_fluid_flux(m, s, solid, fg, use_hll, n, gamma, f2, p2),
    ensures
        f1 == f2,
        p1 == p2,
{
    let (ql, qr) = choose|ql: Prim, qr: Prim| #[trigger]
        are_flux_states(m, s, solid, fg, n, ql, qr) && if equal_states(ql, qr) {
            call_ensures(M::analytic_flux, (m, ql, gamma), f1) && p1 == ql.p
        } else if use_hll {
            exists|sl: Scalar, sr: Scalar| #[trigger] is_hll(m, ql, qr, gamma, sl, sr, f1, p1)
        } else {
            exists|sl: Scalar, sr: Scalar, contact: Scalar| #[trigger]
                is_hllc(m, ql, qr, gamma, sl, sr, contact, f1, p1)
        };
    let (rl, rr) = choose|ql: Prim, qr: Prim| #[trigger]
        are_flux_states(m, s, solid, fg, n, ql, qr) && if equal_states(ql, qr) {
            call_ensures(M::analytic_flux, (m, ql, gamma), f2) && p2 == ql.p
        } else if use_hll {
            exists|sl: Scalar, sr: Scalar| #[trigger] is_hll(m, ql, qr, gamma, sl, sr, f2, p2)
        } else {
            exists|sl: Scalar, sr: Scalar, contact: Scalar| #[trigger]
                is_hllc(m, ql, qr, gamma, sl, sr, contact, f2, p2)
        };
    lemma_one_pair_of_states(m, s, solid, fg, n, ql, qr, rl, rr);
    if !equal_states(ql, qr) {
        if use_hll {
            let (sl1, sr1) = choose|sl: Scalar, sr: Scalar| #[trigger]
                is_hll(m, ql, qr, gamma, sl, sr, f1, p1);
            let (sl2, sr2) = choose|sl: Scalar, sr: Scalar| #[trigger]
                is_hll(m, ql, qr, gamma, sl, sr, f2, p2);
            lemma_one_pair_of_speeds(m, ql, qr, gamma, sl1, sr1, sl2, sr2);
        } else {
            let (sl1, sr1, c1) = choose|sl: Scalar, sr: Scalar, contact: Scalar| #[trigger]
                is_hllc(m, ql, qr, gamma, sl, sr, contact, f1, p1);
            let (sl2, sr2, c2) = choose|sl: Scalar, sr: Scalar, contact: Scalar| #[trigger]
                is_hllc(m, ql, qr, gamma, sl, sr, contact, f2, p2);
            lemma_one_pair_of_speeds(m, ql, qr, gamma, sl1, sr1, sl2, sr2);
        }
    }
}

/// Where a field runs straight through three cells, with the slope `s` on both sides, the
/// value at the face is that of the straight line through the middle cell, whatever the
/// limiter: a linear field is reproduced. The formulas are to give back a slope that
/// both sides agree on.
pub proof fn law_straight_fields_are_reproduced<M: FaceMath>(
    m: &M,
    a: Scalar,
    b: Scalar,
    c: Scalar,
    xa: Scalar,
    xb: Scalar,
    xc: Scalar,
    face: Scalar,
    limiter: Limiter,
    s: Scalar,
    r: Scalar,
)
    requires
        is_reconstructed(m, a, b, c, xa, xb, xc, face, limiter, r),
        !s.nan(),
        s.order() != 0,
        forall|d: Scalar| #[trigger] call_ensures(M::difference, (m, a, b, xa, xb), d) ==> d == s,
        forall|d: Scalar| #[trigger] call_ensures(M::difference, (m, b, c, xb, xc), d) ==> d == s,
        forall|x: Scalar| #[trigger] call_ensures(M::half_sum, (m, s, s), x) ==> x == s,
        forall|x: Scalar| #[trigger]
            call_ensures(M::product, (m, s, s), x) ==> (Scalar { bits: ZERO }).below(x),
        forall|x: Scalar| #[trigger] call_ensures(M::harmonic, (m, s, s), x) ==> x == s,
    ensures
        call_ensures(M::extrapolate, (m, b, s, xb, face), r),
{
}

/// At an extremum, where the differences on both sides disagree in sign, a limited
/// reconstruction is flat: it adds no new extremum.
pub proof fn law_extrema_are_flat<M: FaceMath>(
    m: &M,
    a: Scalar,
    b: Scalar,
    c: Scalar,
    xa: Scalar,
    xb: Scalar,
    xc: Scalar,
    face: Scalar,
    limiter: Limiter,
    r: Scalar,
)
    requires
        is_reconstructed(m, a, b, c, xa, xb, xc, face, limiter, r),
        limiter != Limiter::Unlimited,
        forall|d1: Scalar, d2: Scalar|
            {
                &&& #[trigger] call_ensures(M::difference, (m, a, b, xa, xb), d1)
                &&& #[trigger] call_ensures(M::difference, (m, b, c, xb, xc), d2)
            } ==> !d1.nan() && !d2.nan() && (d1.order() <= 0 <= d2.order() || d2.order() <= 0
                <= d1.order()),
        forall|d1: Scalar, d2: Scalar, x: Scalar| #[trigger]
            call_ensures(M::product, (m, d1, d2), x) && (d1.order() <= 0 <= d2.order()
                || d2.order() <= 0 <= d1.order()) ==> !(Scalar { bits: ZERO }).below(x),
    ensures
        call_ensures(M::extrapolate, (m, b, Scalar { bits: ZERO }, xb, face), r),
{
}

/// No side of a face looks through a solid cell, and at first order no side looks beyond
/// its own cell.
pub proof fn law_states_do_not_see_through_solid<M: FaceMath>(
    m: &M,
    s: Four<Prim>,
    solid: Four<bool>,
    fg: FaceGeom,
    recon: Reconstruction,
    limiter: Limiter,
    left: Prim,
    right: Prim,
)
    requires
        are_face_states(m, s, solid, fg, recon, limiter, left, right),
    ensures
        solid.a || solid.c || recon == Reconstruction::FirstOrder ==> left == s.b,
        solid.b || solid.d || recon == Reconstruction::FirstOrder ==> right == s.c,
{
}

/// Between cells the density of a side at the face is the middle one's own value carried
/// along its slope: the left side starts from the cell before the face, the right side
/// from the cell behind it, and so does every other quantity.
pub proof fn law_sides_start_from_their_cells<M: FaceMath>(
    m: &M,
    s: Four<Prim>,
    solid: Four<bool>,
    fg: FaceGeom,
    limiter: Limiter,
    left: Prim,
    right: Prim,
)
    requires
        are_face_states(m, s, solid, fg, Reconstruction::Muscl, limiter, left, right),
        !solid.a && !solid.b && !solid.c && !solid.d,
        forall|v: Scalar, k: Scalar, x: Scalar, r: Scalar| #[trigger]
            call_ensures(M::extrapolate, (m, v, k, x, fg.face), r) && (x == fg.x1 || x == fg.x2)
                ==> r == v,
    ensures
        left == s.b,
        right == s.c,
{
}

/// The left side of a face depends on the three cells around the one before the face, the
/// right side on the three around the one behind it.
pub proof fn law_sides_read_three_cells<M: FaceMath>(
    m: &M,
    s: Four<Prim>,
    t: Four<Prim>,
    solid: Four<bool>,
    fg: FaceGeom,
    recon: Reconstruction,
    limiter: Limiter,
    l1: Prim,
    r1: Prim,
    l2: Prim,
    r2: Prim,
)
    requires
        are_functions(m),
        are_face_states(m, s, solid, fg, recon, limiter, l1, r1),
        are_face_states(m, t, solid, fg, recon, limiter, l2, r2),
    ensures
        s.a == t.a && s.b == t.b && s.c == t.c ==> l1 == l2,
        s.b == t.b && s.c == t.c && s.d == t.d ==> r1 == r2,
{
    if !(recon == Reconstruction::FirstOrder || solid.a || solid.c) && s.a == t.a && s.b == t.b
        && s.c == t.c {
        lemma_one_face_state(m, s.a, s.b, s.c, fg.x0, fg.x1, fg.x2, fg.face, limiter, l1, l2);
    }
    if !(recon == Reconstruction::FirstOrder || solid.b || solid.d) && s.b == t.b && s.c == t.c
        && s.d == t.d {
        lemma_one_face_state(m, s.b, s.c, s.d, fg.x1, fg.x2, fg.x3, fg.face, limiter, r1, r2);
    }
}

/// A face where a side fell below a floor sees the two cells beside it and no others: the
/// flux is that of first order.
pub proof fn law_bad_faces_fall_back<M: FaceMath>(
    m: &M,
    s: Four<Prim>,
    solid: Four<bool>,
    fg: FaceGeom,
    n: Numerics,
    ql: Prim,
    qr: Prim,
)
    requires
        are_flux_states(m, s, solid, fg, n, ql, qr),
    ensures
        n.reconstruction == Reconstruction::FirstOrder ==> ql == s.b && qr == s.c,
        !(Scalar { bits: crate::flow::RHO_MIN }).below(ql.rho) || !(Scalar {
            bits: crate::flow::P_MIN_ABS,
        }).below(ql.p) || !(Scalar { bits: crate::flow::RHO_MIN }).below(qr.rho) || !(Scalar {
            bits: crate::flow::P_MIN_ABS,
        }).below(qr.p) ==> ql == s.b && qr == s.c,
{
}

/// Nothing runs upstream in supersonic flow: where every wave of both states runs to the
/// high side the flux and the pressure are those of the low side, and the other way
/// round, with or without contact resolution.
pub proof fn law_supersonic_flow_is_upwind<M: FaceMath>(
    m: &M,
    s: Four<Prim>,
    solid: Four<bool>,
    fg: FaceGeom,
    use_hll: bool,
    n: Numerics,
    gamma: Scalar,
    f: Cons,
    p: Scalar,
)
    requires
        n.reconstruction == Reconstruction::FirstOrder,
        is_fluid_flux(m, s, solid, fg, use_hll, n, gamma, f, p),
    ensures
        (forall|q: Prim, x: Scalar| #[trigger]
            call_ensures(M::slowest_wave, (m, q, gamma), x) && (q == s.b || q == s.c) ==> (Scalar {
                bits: ZERO,
            }).at_most(x)) ==> call_ensures(M::analytic_flux, (m, s.b, gamma), f) && p == s.b.p,
        (forall|q: Prim, x: Scalar, y: Scalar|
            {
                &&& #[trigger] call_ensures(M::slowest_wave, (m, q, gamma), x)
                &&& #[trigger] call_ensures(M::fastest_wave, (m, q, gamma), y)
                &&& q == s.b || q == s.c
            } ==> x.below(Scalar { bits: ZERO }) && y.at_most(Scalar { bits: ZERO })) && !(
        s.b.rho.equals(s.c.rho) && s.b.uz.equals(s.c.uz) && s.b.ur.equals(s.c.ur) && s.b.p.equals(
            s.c.p,
        )) ==> call_ensures(M::analytic_flux, (m, s.c, gamma), f) && p == s.c.p,
{
}

/// In subsonic flow the flux with contact resolution is that of the side that the contact
/// does not run towards: between the slowest wave and a contact that runs to the high
/// side it is that of the low side, and the other way round.
pub proof fn law_contact_picks_the_side<M: FaceMath>(
    m: &M,
    ql: Prim,
    qr: Prim,
    gamma: Scalar,
    slow_l: Scalar,
    slow_r: Scalar,
    fast_l: Scalar,
    fast_r: Scalar,
    sl: Scalar,
    sr: Scalar,
    c: Scalar,
    contact: Scalar,
    f: Cons,
    p: Scalar,
)
    requires
        are_functions(m),
        is_hllc(m, ql, qr, gamma, sl, sr, c, f, p),
        call_ensures(M::slowest_wave, (m, ql, gamma), slow_l),
        call_ensures(M::slowest_wave, (m, qr, gamma), slow_r),
        call_ensures(M::fastest_wave, (m, ql, gamma), fast_l),
        call_ensures(M::fastest_wave, (m, qr, gamma), fast_r),
        !slow_l.nan() && !slow_r.nan() && !fast_l.nan() && !fast_r.nan(),
        slow_l.below(Scalar { bits: ZERO }) || slow_r.below(Scalar { bits: ZERO }),
        (Scalar { bits: ZERO }).below(fast_l) || (Scalar { bits: ZERO }).below(fast_r),
        call_ensures(M::contact_speed, (m, ql, qr, sl, sr), contact),
    ensures
        sl.at_most(slow_l) && sl.at_most(slow_r) && (sl == slow_l || sl == slow_r),
        fast_l.at_most(sr) && fast_r.at_most(sr) && (sr == fast_l || sr == fast_r),
        (Scalar { bits: ZERO }).at_most(contact) ==> {
            &&& call_ensures(M::star_flux, (m, ql, sl, contact, gamma), f)
            &&& call_ensures(M::star_pressure, (m, ql, sl, contact), p)
        },
        !(Scalar { bits: ZERO }).at_most(contact) ==> {
            &&& call_ensures(M::star_flux, (m, qr, sr, contact, gamma), f)
            &&& call_ensures(M::star_pressure, (m, qr, sr, contact), p)
        },
{
}

/// In subsonic flow the flux without contact resolution is that of the average state
/// between the outermost waves.
pub proof fn law_average_lies_between_the_waves<M: FaceMath>(
    m: &M,
    ql: Prim,
    qr: Prim,
    gamma: Scalar,
    slow_l: Scalar,
    slow_r: Scalar,
    fast_l: Scalar,
    fast_r: Scalar,
    sl: Scalar,
    sr: Scalar,
    f: Cons,
    p: Scalar,
)
    requires
        are_functions(m),
        is_hll(m, ql, qr, gamma, sl, sr, f, p),
        call_ensures(M::slowest_wave, (m, ql, gamma), slow_l),
        call_ensures(M::slowest_wave, (m, qr, gamma), slow_r),
        call_ensures(M::fastest_wave, (m, ql, gamma), fast_l),
        call_ensures(M::fastest_wave, (m, qr, gamma), fast_r),
        !slow_l.nan() && !slow_r.nan() && !fast_l.nan() && !fast_r.nan(),
        slow_l.below(Scalar { bits: ZERO }) || slow_r.below(Scalar { bits: ZERO }),
        (Scalar { bits: ZERO }).below(fast_l) || (Scalar { bits: ZERO }).below(fast_r),
    ensures
        sl.at_most(slow_l) && sl.at_most(slow_r) && (sl == slow_l || sl == slow_r),
        fast_l.at_most(sr) && fast_r.at_most(sr) && (sr == fast_l || sr == fast_r),
        call_ensures(M::average_flux, (m, ql, qr, sl, sr, gamma), f),
        call_ensures(M::average_pressure, (m, ql, qr, sl, sr, gamma), p),
{
}

/// One of the four quantities of a state.
pub open spec fn quantity_of(q: Prim, which: int) -> Scalar {
    if which == 0 {
        q.rho
    } else if which == 1 {
        q.uz
    } else if which == 2 {
        q.ur
    } else {
        q.p
    }
}

/// A quantity that runs straight through the four cells around a face meets it from both
/// sides on that line, each side from its own cell and its own position.
pub proof fn law_straight_quantities_meet_the_face<M: FaceMath>(
    m: &M,
    s: Four<Prim>,
    solid: Four<bool>,
    fg: FaceGeom,
    limiter: Limiter,
    left: Prim,
    right: Prim,
    which: int,
    k: Scalar,
)
    requires
        are_face_states(m, s, solid, fg, Reconstruction::Muscl, limiter, left, right),
        !solid.a && !solid.b && !solid.c && !solid.d,
        0 <= which < 4,
        !k.nan(),
        k.order() != 0,
        forall|d: Scalar| #[trigger]
            call_ensures(
                M::difference,
                (m, quantity_of(s.a, which), quantity_of(s.b, which), fg.x0, fg.x1),
                d,
            ) ==> d == k,
        forall|d: Scalar| #[trigger]
            call_ensures(
                M::difference,
                (m, quantity_of(s.b, which), quantity_of(s.c, which), fg.x1, fg.x2),
                d,
            ) ==> d == k,
        forall|d: Scalar| #[trigger]
            call_ensures(
                M::difference,
                (m, quantity_of(s.c, which), quantity_of(s.d, which), fg.x2, fg.x3),
                d,
            ) ==> d == k,
        forall|x: Scalar| #[trigger] call_ensures(M::half_sum, (m, k, k), x) ==> x == k,
        forall|x: Scalar| #[trigger]
            call_ensures(M::product, (m, k, k), x) ==> (Scalar { bits: ZERO }).below(x),
        forall|x: Scalar| #[trigger] call_ensures(M::harmonic, (m, k, k), x) ==> x == k,
    ensures
        call_ensures(
            M::extrapolate,
            (m, quantity_of(s.b, which), k, fg.x1, fg.face),
            quantity_of(left, which),
        ),
        call_ensures(
            M::extrapolate,
            (m, quantity_of(s.c, which), k, fg.x2, fg.face),
            quantity_of(right, which),
        ),
{
    let (a, b, c, d) = (
        quantity_of(s.a, which),
        quantity_of(s.b, which),
        quantity_of(s.c, which),
        quantity_of(s.d, which),
    );
    law_straight_fields_are_reproduced(
        m,
        a,
        b,
        c,
        fg.x0,
        fg.x1,
        fg.x2,
        fg.face,
        limiter,
        k,
        quantity_of(left, which),
    );
    law_straight_fields_are_reproduced(
        m,
        b,
        c,
        d,
        fg.x1,
        fg.x2,
        fg.x3,
        fg.face,
        limiter,
        k,
        quantity_of(right, which),
    );
}

/// Without a limiter a slope is half the sum of the differences; the smooth limiter takes
/// their harmonic mean where they agree in sign.
pub proof fn law_slopes_between_the_differences<M: FaceMath>(
    m: &M,
    dm: Scalar,
    dp: Scalar,
    unlimited: Scalar,
    smooth: Scalar,
)
    requires
        is_slope(m, dm, dp, Limiter::Unlimited, unlimited),
        is_slope(m, dm, dp, Limiter::VanLeer, smooth),
    ensures
        call_ensures(M::half_sum, (m, dm, dp), unlimited),
        (forall|x: Scalar| #[trigger]
            call_ensures(M::product, (m, dm, dp), x) ==> (Scalar { bits: ZERO }).below(x))
            ==> call_ensures(M::harmonic, (m, dm, dp), smooth),
        (forall|x: Scalar| #[trigger]
            call_ensures(M::product, (m, dm, dp), x) ==> !(Scalar { bits: ZERO }).below(x))
            ==> smooth.bits == ZERO,
{
}

} // verus!
