//! Cell states and the formulas that act on them.
//!
//! Everything is relative to the chamber: the gas constant is one and pressure
//! is density times temperature. The formulas themselves are floating point and
//! come in through [`FlowMath`]; what is decided from their results, and where
//! the results go, is decided here.

use vstd::prelude::*;
use crate::field::{Ambient, Chamber};
use crate::scalar::{Scalar, ZERO};

verus! {

/// The pattern of the density floor, 1e-8 in single precision.
pub const RHO_MIN: u64 = 0x3E45_798E_E000_0000;

/// The pattern of the pressure floor, 1e-6 in single precision.
pub const P_MIN_ABS: u64 = 0x3EB0_C6F7_A000_0000;

/// Conserved state of a cell: density, momentum in z and r, total energy.
#[derive(Debug, Clone, Copy, PartialEq)]
pub struct Cons {
    pub rho: Scalar,
    pub mz: Scalar,
    pub mr: Scalar,
    pub e: Scalar,
}

/// Primitive state of a cell: density, velocity in z and r, pressure. In a frame
/// rotated to a radial face the two velocities change places.
#[derive(Debug, Clone, Copy, PartialEq)]
pub struct Prim {
    pub rho: Scalar,
    pub uz: Scalar,
    pub ur: Scalar,
    pub p: Scalar,
}

/// The side of a face on which the fluid lies.
#[derive(Debug, Clone, Copy, PartialEq, Eq, Structural)]
pub enum Side {
    Low,
    High,
}

/// The floating-point formulas of the flow.
pub trait FlowMath {
    /// Primitive state of a conserved one.
    fn primitives(&self, u: Cons, gamma: Scalar) -> Prim;

    /// Conserved state of a primitive one.
    fn conserved(&self, w: Prim, gamma: Scalar) -> Cons;

    /// Density of a gas at a pressure and a temperature.
    fn gas_density(&self, p: Scalar, t: Scalar) -> Scalar;

    /// Speed of sound of a state.
    fn sound_speed(&self, w: Prim, gamma: Scalar) -> Scalar;

    /// Star pressure of the mirrored Riemann problem at a wall. `u` is the velocity
    /// out of the fluid.
    fn wall_pressure(&self, rho: Scalar, u: Scalar, p: Scalar, gamma: Scalar) -> Scalar;

    /// The invariant that runs upstream out of a state.
    fn upstream_invariant(&self, w: Prim, gamma: Scalar) -> Scalar;

    /// Discriminant of the stagnation inlet.
    fn inlet_discriminant(&self, back: Scalar, chamber: Chamber, gamma: Scalar) -> Scalar;

    /// Speed of sound at the stagnation inlet.
    fn inlet_sound_speed(&self, back: Scalar, discriminant: Scalar, gamma: Scalar) -> Scalar;

    /// Velocity at the stagnation inlet.
    fn inlet_velocity(&self, back: Scalar, sound: Scalar, gamma: Scalar) -> Scalar;

    /// Pressure at the stagnation inlet.
    fn inlet_pressure(&self, sound: Scalar, chamber: Chamber, gamma: Scalar) -> Scalar;

    /// Density at the stagnation inlet.
    fn inlet_density(&self, p: Scalar, sound: Scalar, gamma: Scalar) -> Scalar;

    /// Density after an isentropic change of pressure.
    fn isentropic_density(&self, rho: Scalar, from: Scalar, to: Scalar, gamma: Scalar) -> Scalar;

    /// Velocity behind the outgoing wave that takes the state to density `rho`
    /// and pressure `p`.
    fn outgoing_velocity(
        &self,
        u: Scalar,
        sound: Scalar,
        rho: Scalar,
        p: Scalar,
        gamma: Scalar,
    ) -> Scalar;

    /// The mean of a list of values.
    fn mean(&self, values: &Vec<Scalar>) -> Scalar;
}

impl Cons {
    /// The state seen in a mirror on the axis: radial momentum changes sign.
    pub open spec fn reflected(self) -> Cons {
        Cons { mr: self.mr.negated(), ..self }
    }

    /// The state seen in a mirror on the axis.
    pub fn reflect(self) -> (r: Cons)
        ensures
            r == self.reflected(),
    {
        Cons { rho: self.rho, mz: self.mz, mr: self.mr.neg(), e: self.e }
    }

    /// The flux with its two momentum components exchanged.
    pub open spec fn rotated(self) -> Cons {
        Cons { rho: self.rho, mz: self.mr, mr: self.mz, e: self.e }
    }

    /// The flux with its two momentum components exchanged.
    pub fn rotate(self) -> (r: Cons)
        ensures
            r == self.rotated(),
    {
        Cons { rho: self.rho, mz: self.mr, mr: self.mz, e: self.e }
    }

    /// Every component with its sign flipped when the fluid lies on the high side.
    pub open spec fn orientation(self, side: Side) -> Cons {
        match side {
            Side::Low => self,
            Side::High => Cons {
                rho: self.rho.negated(),
                mz: self.mz.negated(),
                mr: self.mr.negated(),
                e: self.e.negated(),
            },
        }
    }

    /// The flux turned into the fixed orientation of the sweeps.
    pub fn oriented(self, side: Side) -> (r: Cons)
        ensures
            r == self.orientation(side),
    {
        match side {
            Side::Low => self,
            Side::High => Cons {
                rho: self.rho.neg(),
                mz: self.mz.neg(),
                mr: self.mr.neg(),
                e: self.e.neg(),
            },
        }
    }
}

impl Prim {
    /// The state in the frame of the other sweep direction.
    pub open spec fn rotated(self) -> Prim {
        Prim { rho: self.rho, uz: self.ur, ur: self.uz, p: self.p }
    }

    /// The state in the frame of the other sweep direction.
    pub fn rotate(self) -> (r: Prim)
        ensures
            r == self.rotated(),
    {
        Prim { rho: self.rho, uz: self.ur, ur: self.uz, p: self.p }
    }

    /// At or below a floor, or not a number.
    pub open spec fn unphysical(self) -> bool {
        ||| !(Scalar { bits: RHO_MIN }).below(self.rho)
        ||| !(Scalar { bits: P_MIN_ABS }).below(self.p)
    }

    /// Whether density or pressure is at or below its floor. A value that is not
    /// a number counts as below.
    pub fn nonphysical(self) -> (r: bool)
        ensures
            r == self.unphysical(),
    {
        !(Scalar { bits: RHO_MIN }).lt(self.rho) || !(Scalar { bits: P_MIN_ABS }).lt(self.p)
    }
}

/// The gas of density `rho` and pressure `p` at rest.
pub open spec fn still(rho: Scalar, p: Scalar) -> Prim {
    Prim { rho, uz: Scalar { bits: ZERO }, ur: Scalar { bits: ZERO }, p }
}

/// `u` is the surroundings at rest.
pub open spec fn is_ambient_state<M: FlowMath>(
    m: &M,
    a: Ambient,
    gamma: Scalar,
    u: Cons,
) -> bool {
    exists|rho: Scalar|
        #[trigger] call_ensures(M::gas_density, (m, a.p, a.t), rho) && call_ensures(
            M::conserved,
            (m, still(rho, a.p), gamma),
            u,
        )
}

/// The surroundings at rest.
pub fn ambient_state<M: FlowMath>(m: &M, a: Ambient, gamma: Scalar) -> (u: Cons)
    ensures
        is_ambient_state(m, a, gamma, u),
{
    let rho = m.gas_density(a.p, a.t);
    let zero = Scalar { bits: ZERO };
    let w = Prim { rho, uz: zero, ur: zero, p: a.p };
    m.conserved(w, gamma)
}

/// A component normal to a wall, turned between its own axis and the direction out
/// of the fluid.
pub open spec fn outward(x: Scalar, side: Side) -> Scalar {
    match side {
        Side::Low => x,
        Side::High => x.negated(),
    }
}

/// The push of a wall: the star pressure, no lower than the pressure floor, out of
/// the fluid.
pub open spec fn wall_push(star: Scalar, side: Side) -> Scalar {
    outward(star.larger(Scalar { bits: P_MIN_ABS }), side)
}

/// `f` is the flux that a wall normal to z takes from the fluid: z momentum
/// alone; mass, radial momentum and energy are exactly zero.
pub open spec fn is_wall_flux_z<M: FlowMath>(
    m: &M,
    w: Prim,
    side: Side,
    gamma: Scalar,
    f: Cons,
) -> bool {
    exists|ps: Scalar|
        #[trigger] call_ensures(
            M::wall_pressure,
            (m, w.rho, outward(w.uz, side), w.p, gamma),
            ps,
        ) && f == (Cons {
            rho: Scalar { bits: ZERO },
            mz: wall_push(ps, side),
            mr: Scalar { bits: ZERO },
            e: Scalar { bits: ZERO },
        })
}

/// `f` is the flux that a wall normal to r takes from the fluid: r momentum
/// alone; mass, axial momentum and energy are exactly zero.
pub open spec fn is_wall_flux_r<M: FlowMath>(
    m: &M,
    w: Prim,
    side: Side,
    gamma: Scalar,
    f: Cons,
) -> bool {
    exists|ps: Scalar|
        #[trigger] call_ensures(
            M::wall_pressure,
            (m, w.rho, outward(w.ur, side), w.p, gamma),
            ps,
        ) && f == (Cons {
            rho: Scalar { bits: ZERO },
            mz: Scalar { bits: ZERO },
            mr: wall_push(ps, side),
            e: Scalar { bits: ZERO },
        })
}

fn turn_outward(x: Scalar, side: Side) -> (r: Scalar)
    ensures
        r == outward(x, side),
{
    match side {
        Side::Low => x,
        Side::High => x.neg(),
    }
}

/// Flux at an axial fluid/solid face. `side` is where the fluid lies.
pub fn wall_flux_z<M: FlowMath>(m: &M, w: Prim, side: Side, gamma: Scalar) -> (f: Cons)
    ensures
        is_wall_flux_z(m, w, side, gamma, f),
{
    let ps = m.wall_pressure(w.rho, turn_outward(w.uz, side), w.p, gamma);
    let push = turn_outward(ps.max(Scalar { bits: P_MIN_ABS }), side);
    let zero = Scalar { bits: ZERO };
    Cons { rho: zero, mz: push, mr: zero, e: zero }
}

/// Flux at a radial fluid/solid face. `side` is where the fluid lies.
pub fn wall_flux_r<M: FlowMath>(m: &M, w: Prim, side: Side, gamma: Scalar) -> (f: Cons)
    ensures
        is_wall_flux_r(m, w, side, gamma, f),
{
    let ps = m.wall_pressure(w.rho, turn_outward(w.ur, side), w.p, gamma);
    let push = turn_outward(ps.max(Scalar { bits: P_MIN_ABS }), side);
    let zero = Scalar { bits: ZERO };
    Cons { rho: zero, mz: zero, mr: push, e: zero }
}

/// A wall lets nothing through and does not drag: only the momentum normal to it is taken,
/// and that is the pressure on it, no lower than the floor, out of the fluid.
pub proof fn law_walls_take_pressure_alone<M: FlowMath>(
    m: &M,
    w: Prim,
    gamma: Scalar,
    z_low: Cons,
    z_high: Cons,
    r_low: Cons,
    r_high: Cons,
) -> (p: (Scalar, Scalar, Scalar, Scalar))
    requires
        is_wall_flux_z(m, w, Side::Low, gamma, z_low),
        is_wall_flux_z(m, w, Side::High, gamma, z_high),
        is_wall_flux_r(m, w, Side::Low, gamma, r_low),
        is_wall_flux_r(m, w, Side::High, gamma, r_high),
    ensures
        z_low.rho.bits == ZERO && z_low.mr.bits == ZERO && z_low.e.bits == ZERO,
        z_high.rho.bits == ZERO && z_high.mr.bits == ZERO && z_high.e.bits == ZERO,
        r_low.rho.bits == ZERO && r_low.mz.bits == ZERO && r_low.e.bits == ZERO,
        r_high.rho.bits == ZERO && r_high.mz.bits == ZERO && r_high.e.bits == ZERO,
        call_ensures(M::wall_pressure, (m, w.rho, w.uz, w.p, gamma), p.0),
        call_ensures(M::wall_pressure, (m, w.rho, w.uz.negated(), w.p, gamma), p.1),
        call_ensures(M::wall_pressure, (m, w.rho, w.ur, w.p, gamma), p.2),
        call_ensures(M::wall_pressure, (m, w.rho, w.ur.negated(), w.p, gamma), p.3),
        (Scalar { bits: P_MIN_ABS }).at_most(p.0) ==> z_low.mz == p.0,
        (Scalar { bits: P_MIN_ABS }).at_most(p.1) ==> z_high.mz == p.1.negated(),
        (Scalar { bits: P_MIN_ABS }).at_most(p.2) ==> r_low.mr == p.2,
        (Scalar { bits: P_MIN_ABS }).at_most(p.3) ==> r_high.mr == p.3.negated(),
        (Scalar { bits: P_MIN_ABS }).at_most(z_low.mz),
        (Scalar { bits: P_MIN_ABS }).at_most(z_high.mz.negated()),
        (Scalar { bits: P_MIN_ABS }).at_most(r_low.mr),
        (Scalar { bits: P_MIN_ABS }).at_most(r_high.mr.negated()),
{
    let a = choose|ps: Scalar| #[trigger]
        call_ensures(M::wall_pressure, (m, w.rho, outward(w.uz, Side::Low), w.p, gamma), ps)
            && z_low == (Cons {
            rho: Scalar { bits: ZERO },
            mz: wall_push(ps, Side::Low),
            mr: Scalar { bits: ZERO },
            e: Scalar { bits: ZERO },
        });
    let b = choose|ps: Scalar| #[trigger]
        call_ensures(M::wall_pressure, (m, w.rho, outward(w.uz, Side::High), w.p, gamma), ps)
            && z_high == (Cons {
            rho: Scalar { bits: ZERO },
            mz: wall_push(ps, Side::High),
            mr: Scalar { bits: ZERO },
            e: Scalar { bits: ZERO },
        });
    let c = choose|ps: Scalar| #[trigger]
        call_ensures(M::wall_pressure, (m, w.rho, outward(w.ur, Side::Low), w.p, gamma), ps)
            && r_low == (Cons {
            rho: Scalar { bits: ZERO },
            mz: Scalar { bits: ZERO },
            mr: wall_push(ps, Side::Low),
            e: Scalar { bits: ZERO },
        });
    let d = choose|ps: Scalar| #[trigger]
        call_ensures(M::wall_pressure, (m, w.rho, outward(w.ur, Side::High), w.p, gamma), ps)
            && r_high == (Cons {
            rho: Scalar { bits: ZERO },
            mz: Scalar { bits: ZERO },
            mr: wall_push(ps, Side::High),
            e: Scalar { bits: ZERO },
        });
    (a, b, c, d)
}

/// The two sides of a wall are mirrors of each other: where the formulas are functions, the
/// mirrored state on the other side is pushed as hard the other way.
pub proof fn law_walls_are_mirrors<M: FlowMath>(
    m: &M,
    w: Prim,
    mirrored: Prim,
    gamma: Scalar,
    low: Cons,
    high: Cons,
)
    requires
        is_wall_flux_z(m, w, Side::Low, gamma, low),
        is_wall_flux_z(m, mirrored, Side::High, gamma, high),
        mirrored == (Prim { uz: w.uz.negated(), ..w }),
        forall|rho: Scalar, u: Scalar, p: Scalar, a: Scalar, b: Scalar|
            #[trigger] call_ensures(M::wall_pressure, (m, rho, u, p, gamma), a)
                && #[trigger] call_ensures(M::wall_pressure, (m, rho, u, p, gamma), b) ==> a == b,
    ensures
        high.mz == low.mz.negated(),
        high.rho == low.rho && high.mr == low.mr && high.e == low.e,
{
    assert(w.uz.negated().negated() == w.uz);
    assert(outward(mirrored.uz, Side::High) == outward(w.uz, Side::Low));
}

/// Walls of the two directions do the same to the flow that they turn.
pub proof fn law_walls_do_not_know_their_direction<M: FlowMath>(
    m: &M,
    w: Prim,
    side: Side,
    gamma: Scalar,
    f: Cons,
)
    ensures
        is_wall_flux_z(m, w, side, gamma, f) <==> is_wall_flux_r(
            m,
            (Prim { rho: w.rho, uz: w.ur, ur: w.uz, p: w.p }),
            side,
            gamma,
            (Cons { rho: f.rho, mz: f.mr, mr: f.mz, e: f.e }),
        ),
{
}

/// Turning, mirroring and orienting are each undone by doing them again, and leave density
/// and pressure or energy where they are.
pub proof fn law_turns_are_undone_by_turning(u: Cons, w: Prim, side: Side)
    ensures
        u.reflected().reflected() == u,
        u.rotated().rotated() == u,
        u.orientation(side).orientation(side) == u,
        w.rotated().rotated() == w,
        u.reflected().rho == u.rho && u.reflected().mz == u.mz && u.reflected().e == u.e,
        u.reflected().mr == u.mr.negated(),
        u.rotated().rho == u.rho && u.rotated().e == u.e,
        u.rotated().mz == u.mr && u.rotated().mr == u.mz,
        w.rotated().rho == w.rho && w.rotated().p == w.p,
        w.rotated().uz == w.ur && w.rotated().ur == w.uz,
        u.orientation(Side::Low) == u,
        u.orientation(Side::High).mz == u.mz.negated(),
        u.orientation(Side::High).rho == u.rho.negated(),
{
}

/// A state is physical only with a density and a pressure that are numbers above their
/// floors, and more of either leaves it so.
pub proof fn law_physical_states_are_above_their_floors(w: Prim, more: Prim)
    requires
        !w.unphysical(),
        w.rho.at_most(more.rho),
        w.p.at_most(more.p),
    ensures
        !w.rho.nan() && !w.p.nan(),
        (Scalar { bits: ZERO }).below(w.rho),
        (Scalar { bits: ZERO }).below(w.p),
        (Scalar { bits: RHO_MIN }).below(w.rho),
        (Scalar { bits: P_MIN_ABS }).below(w.p),
        !more.unphysical(),
        (Prim { p: Scalar { bits: P_MIN_ABS }, ..w }).unphysical(),
        (Prim { rho: Scalar { bits: RHO_MIN }, ..w }).unphysical(),
{
}

/// The surroundings are at rest with the pressure they were given and the density that goes
/// with it and their temperature.
pub proof fn law_the_surroundings_are_at_rest<M: FlowMath>(
    m: &M,
    a: Ambient,
    gamma: Scalar,
    u: Cons,
) -> (w: Prim)
    requires
        is_ambient_state(m, a, gamma, u),
    ensures
        call_ensures(M::conserved, (m, w, gamma), u),
        call_ensures(M::gas_density, (m, a.p, a.t), w.rho),
        w.p == a.p,
        w.uz.bits == ZERO && w.ur.bits == ZERO,
{
    let rho = choose|rho: Scalar| #[trigger]
        call_ensures(M::gas_density, (m, a.p, a.t), rho) && call_ensures(
            M::conserved,
            (m, still(rho, a.p), gamma),
            u,
        );
    still(rho, a.p)
}

} // verus!
