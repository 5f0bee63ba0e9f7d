//! Boundary conditions: what the ghost cells hold before every stage.

use vstd::prelude::*;
use crate::field::{Ambient, Chamber, GasModel, Numerics, WallMode};
use crate::flow;
use crate::flow::{ambient_state, Cons, FlowMath, Prim};
use crate::grid;
use crate::grid::Grid;
use crate::padded;
use crate::scalar::{Scalar, ZERO};

verus! {

/// The pattern of the floor under the inlet's speed of sound, 1e-6 in single
/// precision.
pub const INLET_SOUND_FLOOR: u64 = 0x3EB0_C6F7_A000_0000;

/// The values along the construction of an inlet state. The discriminant, the
/// speed of sound and the velocity are each held above a floor.
pub open spec fn inlet_chain<M: FlowMath>(
    m: &M,
    w: Prim,
    chamber: Chamber,
    gamma: Scalar,
    back: Scalar,
    discriminant: Scalar,
    sound: Scalar,
    velocity: Scalar,
    out: Prim,
) -> bool {
    let zero = Scalar { bits: ZERO };
    let a = sound.larger(Scalar { bits: INLET_SOUND_FLOOR });
    &&& call_ensures(M::upstream_invariant, (m, w, gamma), back)
    &&& call_ensures(M::inlet_discriminant, (m, back, chamber, gamma), discriminant)
    &&& call_ensures(
        M::inlet_sound_speed,
        (m, back, discriminant.larger(zero), gamma),
        sound,
    )
    &&& call_ensures(M::inlet_velocity, (m, back, a, gamma), velocity)
    &&& call_ensures(M::inlet_pressure, (m, a, chamber, gamma), out.p)
    &&& call_ensures(M::inlet_density, (m, out.p, a, gamma), out.rho)
    &&& out.uz == velocity.larger(zero)
    &&& out.ur == zero
}

/// `out` is the subsonic stagnation inlet state next to the interior state `w`.
pub open spec fn is_inlet<M: FlowMath>(
    m: &M,
    w: Prim,
    chamber: Chamber,
    gamma: Scalar,
    out: Prim,
) -> bool {
    exists|back: Scalar, discriminant: Scalar, sound: Scalar, velocity: Scalar| #[trigger]
        inlet_chain(m, w, chamber, gamma, back, discriminant, sound, velocity, out)
}

/// The stagnation inlet state next to an interior state.
pub fn inlet_state<M: FlowMath>(m: &M, w: Prim, chamber: Chamber, gamma: Scalar) -> (out: Prim)
    ensures
        is_inlet(m, w, chamber, gamma, out),
        !out.uz.below(Scalar { bits: ZERO }),
        out.ur == (Scalar { bits: ZERO }),
{
    let zero = Scalar { bits: ZERO };
    let back = m.upstream_invariant(w, gamma);
    let discriminant = m.inlet_discriminant(back, chamber, gamma);
    let sound = m.inlet_sound_speed(back, discriminant.max(zero), gamma);
    let a = sound.max(Scalar { bits: INLET_SOUND_FLOOR });
    let velocity = m.inlet_velocity(back, a, gamma);
    let p = m.inlet_pressure(a, chamber, gamma);
    let rho = m.inlet_density(p, a, gamma);
    let out = Prim { rho, uz: velocity.max(zero), ur: zero, p };
    assert(inlet_chain(
        m,
        w,
        chamber,
        gamma,
        back,
        discriminant,
        sound,
        velocity,
        out,
    ));
    out
}

/// `out` is the state behind the wave that takes `w` to ambient pressure: the
/// interior entropy, the given normal velocity `un`, and `behind` the wave.
pub open spec fn expands_to<M: FlowMath>(
    m: &M,
    w: Prim,
    un: Scalar,
    ambient: Ambient,
    gamma: Scalar,
    sound: Scalar,
    rho: Scalar,
    behind: Scalar,
) -> bool {
    &&& call_ensures(M::isentropic_density, (m, w.rho, w.p, ambient.p, gamma), rho)
    &&& call_ensures(M::outgoing_velocity, (m, un, sound, rho, ambient.p, gamma), behind)
}

/// `out` is the ghost state past an open boundary whose outward normal is z
/// (`axial`) or r. Flow that comes in is the surroundings at rest; flow that
/// goes out faster than sound is copied; slower flow is taken to ambient
/// pressure.
pub open spec fn is_open_ghost<M: FlowMath>(
    m: &M,
    u: Cons,
    ambient: Ambient,
    gamma: Scalar,
    axial: bool,
    w: Prim,
    sound: Scalar,
    rho: Scalar,
    behind: Scalar,
    out: Cons,
) -> bool {
    let zero = Scalar { bits: ZERO };
    let un = if axial {
        w.uz
    } else {
        w.ur
    };
    &&& call_ensures(M::primitives, (m, u, gamma), w)
    &&& if un.below(zero) {
        flow::is_ambient_state(m, ambient, gamma, out)
    } else {
        &&& call_ensures(M::sound_speed, (m, w, gamma), sound)
        &&& if sound.at_most(un) {
            out == u
        } else {
            &&& expands_to(m, w, un, ambient, gamma, sound, rho, behind)
            &&& call_ensures(
                M::conserved,
                (
                    m,
                    if axial {
                        Prim { rho, uz: behind, ur: w.ur, p: ambient.p }
                    } else {
                        Prim { rho, uz: w.uz, ur: behind, p: ambient.p }
                    },
                    gamma,
                ),
                out,
            )
        }
    }
}

/// `out` is a ghost state past an open boundary.
pub open spec fn is_outflow<M: FlowMath>(
    m: &M,
    u: Cons,
    ambient: Ambient,
    gamma: Scalar,
    axial: bool,
    out: Cons,
) -> bool {
    exists|w: Prim, sound: Scalar, rho: Scalar, behind: Scalar| #[trigger]
        is_open_ghost(m, u, ambient, gamma, axial, w, sound, rho, behind, out)
}

/// Ghost state past an open boundary whose outward normal is z (`axial`) or r.
pub fn open_ghost<M: FlowMath>(
    m: &M,
    u: Cons,
    ambient: Ambient,
    gamma: Scalar,
    axial: bool,
) -> (out: Cons)
    ensures
        is_outflow(m, u, ambient, gamma, axial, out),
{
    let zero = Scalar { bits: ZERO };
    let w = m.primitives(u, gamma);
    let un = if axial {
        w.uz
    } else {
        w.ur
    };
    if un.lt(zero) {
        let out = ambient_state(m, ambient, gamma);
        assert(is_open_ghost(m, u, ambient, gamma, axial, w, zero, zero, zero, out));
        return out;
    }
    let sound = m.sound_speed(w, gamma);
    if sound.le(un) {
        assert(is_open_ghost(m, u, ambient, gamma, axial, w, sound, zero, zero, u));
        return u;
    }
    let rho = m.isentropic_density(w.rho, w.p, ambient.p, gamma);
    let behind = m.outgoing_velocity(un, sound, rho, ambient.p, gamma);
    let state = if axial {
        Prim { rho, uz: behind, ur: w.ur, p: ambient.p }
    } else {
        Prim { rho, uz: w.uz, ur: behind, p: ambient.p }
    };
    let out = m.conserved(state, gamma);
    assert(is_open_ghost(m, u, ambient, gamma, axial, w, sound, rho, behind, out));
    out
}

/// `out` is the inlet ghost state next to the interior state `u`.
pub open spec fn is_inlet_ghost<M: FlowMath>(
    m: &M,
    u: Cons,
    chamber: Chamber,
    gamma: Scalar,
    out: Cons,
) -> bool {
    exists|w: Prim, b: Prim|
        {
            &&& #[trigger] call_ensures(M::primitives, (m, u, gamma), w)
            &&& is_inlet(m, w, chamber, gamma, b)
            &&& #[trigger] call_ensures(M::conserved, (m, b, gamma), out)
        }
}

fn inlet_ghost<M: FlowMath>(m: &M, u: Cons, chamber: Chamber, gamma: Scalar) -> (out: Cons)
    ensures
        is_inlet_ghost(m, u, chamber, gamma, out),
{
    let w = m.primitives(u, gamma);
    let b = inlet_state(m, w, chamber, gamma);
    m.conserved(b, gamma)
}

/// The ghost state left of row `ir`: behind a solid cell its copy, else the inlet.
pub open spec fn left_ghost<M: FlowMath>(
    m: &M,
    g: &Grid,
    solid: Seq<bool>,
    gas: GasModel,
    chamber: Chamber,
    u0: Seq<Cons>,
    ir: int,
    out: Cons,
) -> bool {
    if solid[g.pad(0, ir)] {
        out == u0[g.pad(0, ir)]
    } else {
        is_inlet_ghost(m, u0[g.pad(0, ir)], chamber, gas.gamma, out)
    }
}

/// The ghost state right of row `ir`: behind a solid cell its copy, else the outflow.
pub open spec fn right_ghost<M: FlowMath>(
    m: &M,
    g: &Grid,
    solid: Seq<bool>,
    gas: GasModel,
    ambient: Ambient,
    u0: Seq<Cons>,
    ir: int,
    out: Cons,
) -> bool {
    if solid[g.pad(g.nz - 1, ir)] {
        out == u0[g.pad(g.nz - 1, ir)]
    } else {
        is_outflow(m, u0[g.pad(g.nz - 1, ir)], ambient, gas.gamma, true, out)
    }
}

/// The ghost state above column `iz`: behind a solid cell its copy, else the far field.
pub open spec fn top_ghost<M: FlowMath>(
    m: &M,
    g: &Grid,
    solid: Seq<bool>,
    gas: GasModel,
    ambient: Ambient,
    u1: Seq<Cons>,
    iz: int,
    out: Cons,
) -> bool {
    if solid[g.pad(iz, g.nr - 1)] {
        out == u1[g.pad(iz, g.nr - 1)]
    } else {
        is_outflow(m, u1[g.pad(iz, g.nr - 1)], ambient, gas.gamma, false, out)
    }
}

/// What the boundary conditions put at (iz, ir).
pub open spec fn ghost_at<M: FlowMath>(
    m: &M,
    g: &Grid,
    solid: Seq<bool>,
    gas: GasModel,
    chamber: Chamber,
    ambient: Ambient,
    u0: Seq<Cons>,
    u1: Seq<Cons>,
    iz: int,
    ir: int,
) -> bool {
    let here = u1[g.pad(iz, ir)];
    if ir < 0 {
        here == u1[g.pad(iz, grid::lesser(-1 - ir, g.nr - 1))].reflected()
    } else if ir >= g.nr {
        here == u1[g.pad(iz, g.nr as int)] && (ir == g.nr ==> top_ghost(
            m,
            g,
            solid,
            gas,
            ambient,
            u1,
            iz,
            here,
        ))
    } else if iz < 0 {
        here == u1[g.pad(-1, ir)] && (iz == -1 ==> left_ghost(
            m,
            g,
            solid,
            gas,
            chamber,
            u0,
            ir,
            here,
        ))
    } else if iz >= g.nz {
        here == u1[g.pad(g.nz as int, ir)] && (iz == g.nz ==> right_ghost(
            m,
            g,
            solid,
            gas,
            ambient,
            u0,
            ir,
            here,
        ))
    } else {
        here == u0[g.pad(iz, ir)]
    }
}

/// Boundary conditions: both ghost layers of a side hold one state; rows below
/// the axis mirror the rows above it; corners follow from the sides in z; the
/// interior is left as it is.
pub open spec fn boundaries_filled<M: FlowMath>(
    m: &M,
    g: &Grid,
    solid: Seq<bool>,
    gas: GasModel,
    chamber: Chamber,
    ambient: Ambient,
    u0: Seq<Cons>,
    u1: Seq<Cons>,
) -> bool {
    &&& u1.len() == u0.len()
    &&& forall|iz: int, ir: int| #[trigger]
        g.in_pad(iz, ir) ==> ghost_at(m, g, solid, gas, chamber, ambient, u0, u1, iz, ir)
}

/// The state at (iz, ir) for an interior row, with the side ghosts given.
spec fn row_value(
    g: &Grid,
    u: Seq<Cons>,
    left: Seq<Cons>,
    right: Seq<Cons>,
    iz: int,
    ir: int,
) -> Cons {
    if iz < 0 {
        left[ir]
    } else if iz >= g.nz {
        right[ir]
    } else {
        u[g.pad(iz, ir)]
    }
}

fn row_state(
    g: &Grid,
    u: &Vec<Cons>,
    left: &Vec<Cons>,
    right: &Vec<Cons>,
    iz: isize,
    ir: usize,
) -> (r: Cons)
    requires
        g.wf(),
        u.len() == g.padded_cells(),
        left.len() == g.nr,
        right.len() == g.nr,
        -2 <= iz < g.nz + 2,
        ir < g.nr,
    ensures
        r == row_value(g, u@, left@, right@, iz as int, ir as int),
{
    proof {
        grid::lemma_products_fit(g.nz as int, g.nr as int);
    }
    if iz < 0 {
        left[ir]
    } else if iz as usize >= g.nz {
        right[ir]
    } else {
        u[g.gidx(iz, ir as isize)]
    }
}

/// Fills the ghost cells: axis mirror, stagnation inlet on open cells at the low
/// z end, outflow at the high z end, radial far field.
fn fill_boundaries<M: FlowMath>(
    m: &M,
    u: &mut Vec<Cons>,
    g: &Grid,
    solid: &Vec<bool>,
    gas: GasModel,
    chamber: Chamber,
    ambient: Ambient,
)
    requires
        g.wf(),
        old(u).len() == g.padded_cells(),
        solid.len() == g.padded_cells(),
    ensures
        boundaries_filled(m, g, solid@, gas, chamber, ambient, old(u)@, final(u)@),
{
    proof {
        grid::lemma_products_fit(g.nz as int, g.nr as int);
    }
    let ghost u0 = u@;
    let mut left: Vec<Cons> = Vec::new();
    let mut right: Vec<Cons> = Vec::new();
    let mut ir: usize = 0;
    while ir < g.nr
        invariant
            g.wf(),
            g.nz + 4 <= isize::MAX,
            g.nr + 4 <= isize::MAX,
            u.len() == g.padded_cells(),
            u@ == u0,
            solid.len() == g.padded_cells(),
            ir <= g.nr,
            left.len() == ir,
            right.len() == ir,
            forall|j: int|
                0 <= j < ir ==> left_ghost(m, g, solid@, gas, chamber, u0, j, #[trigger] left[j]),
            forall|j: int|
                0 <= j < ir ==> right_ghost(m, g, solid@, gas, ambient, u0, j, #[trigger] right[j]),
        decreases g.nr - ir,
    {
        let i0: usize = g.gidx(0, ir as isize);
        let l = if solid[i0] {
            u[i0]
        } else {
            inlet_ghost(m, u[i0], chamber, gas.gamma)
        };
        left.push(l);
        let i1: usize = g.gidx(g.nz as isize - 1, ir as isize);
        let r = if solid[i1] {
            u[i1]
        } else {
            open_ghost(m, u[i1], ambient, gas.gamma, true)
        };
        right.push(r);
        ir = ir + 1;
    }
    let mut top: Vec<Cons> = Vec::new();
    let snz: usize = g.snz();
    let mut c: usize = 0;
    while c < snz
        invariant
            g.wf(),
            snz == g.nz + 4,
            g.nz + 4 <= isize::MAX,
            g.nr + 4 <= isize::MAX,
            u.len() == g.padded_cells(),
            u@ == u0,
            solid.len() == g.padded_cells(),
            left.len() == g.nr,
            right.len() == g.nr,
            c <= snz,
            top.len() == c,
            forall|j: int|
                0 <= j < c ==> {
                    let below = row_value(g, u0, left@, right@, j - 2, g.nr - 1);
                    if solid[g.pad(j - 2, g.nr - 1)] {
                        #[trigger] top[j] == below
                    } else {
                        is_outflow(m, below, ambient, gas.gamma, false, top[j])
                    }
                },
        decreases snz - c,
    {
        let iz: isize = c as isize - 2;
        let below = row_state(g, u, &left, &right, iz, g.nr - 1);
        let i1: usize = g.gidx(iz, g.nr as isize - 1);
        let t = if solid[i1] {
            below
        } else {
            open_ghost(m, below, ambient, gas.gamma, false)
        };
        top.push(t);
        c = c + 1;
    }
    let n: usize = g.glen();
    let mut out: Vec<Cons> = Vec::new();
    let mut q: usize = 0;
    while q < n
        invariant
            g.wf(),
            n == g.padded_cells(),
            snz == g.nz + 4,
            g.nz + 4 <= isize::MAX,
            g.nr + 4 <= isize::MAX,
            u.len() == g.padded_cells(),
            u@ == u0,
            left.len() == g.nr,
            right.len() == g.nr,
            top.len() == snz,
            q <= n,
            out.len() == q,
            forall|j: int|
                0 <= j < q ==> #[trigger] out[j] == assembled(
                    g,
                    u0,
                    left@,
                    right@,
                    top@,
                    j % (snz as int) - 2,
                    j / (snz as int) - 2,
                ),
        decreases n - q,
    {
        proof {
            grid::law_padded_positions(g.nz as int, g.nr as int, q as int);
        }
        let column: usize = q % snz;
        let row: usize = q / snz;
        let iz: isize = column as isize - 2;
        let value = if row < 2 {
            let mirror: usize = if 1 - row < g.nr {
                1 - row
            } else {
                g.nr - 1
            };
            row_state(g, u, &left, &right, iz, mirror).reflect()
        } else if row - 2 >= g.nr {
            top[column]
        } else {
            row_state(g, u, &left, &right, iz, row - 2)
        };
        out.push(value);
        q = q + 1;
    }
    proof {
        assert forall|iz: int, ir: int| #[trigger] g.in_pad(iz, ir) implies out@[g.pad(iz, ir)]
            == assembled(g, u0, left@, right@, top@, iz, ir) by {
            grid::law_padded_layout(g.nz as int, g.nr as int, iz, ir);
            assert(out@[g.pad(iz, ir)] == out[g.pad(iz, ir)]);
        }
        assert forall|iz: int, ir: int| #[trigger] g.in_pad(iz, ir) implies ghost_at(
            m,
            g,
            solid@,
            gas,
            chamber,
            ambient,
            u0,
            out@,
            iz,
            ir,
        ) by {
            assert(g.in_pad(iz, g.nr - 1));
            assert(g.in_pad(iz, g.nr as int));
            assert(g.in_pad(-1, held_row(g, ir)));
            assert(g.in_pad(g.nz as int, held_row(g, ir)));
            if ir < 0 {
                assert(g.in_pad(iz, grid::lesser(-1 - ir, g.nr - 1)));
            } else if ir >= g.nr {
                assert(top@[iz + 2] == top[iz + 2]);
            } else if iz < 0 {
                assert(left@[ir] == left[ir]);
            } else if iz >= g.nz {
                assert(right@[ir] == right[ir]);
            }
        }
    }
    *u = out;
}

spec fn held_row(g: &Grid, ir: int) -> int {
    padded::held(ir, g.nr as int)
}

/// The state at (iz, ir), with the side and top ghosts given.
spec fn assembled(
    g: &Grid,
    u: Seq<Cons>,
    left: Seq<Cons>,
    right: Seq<Cons>,
    top: Seq<Cons>,
    iz: int,
    ir: int,
) -> Cons {
    if ir < 0 {
        row_value(g, u, left, right, iz, grid::lesser(-1 - ir, g.nr - 1)).reflected()
    } else if ir >= g.nr {
        top[iz + 2]
    } else {
        row_value(g, u, left, right, iz, ir)
    }
}

/// The first solid row of a column at or above `ir`, the row count when there is none.
pub open spec fn bore_from(g: &Grid, solid: Seq<bool>, iz: int, ir: int) -> int
    decreases g.nr - ir,
{
    if ir >= g.nr || solid[g.pad(iz, ir)] {
        ir
    } else {
        bore_from(g, solid, iz, ir + 1)
    }
}

/// The first solid row of a column from the axis, the row count when there is none.
pub open spec fn bore(g: &Grid, solid: Seq<bool>, iz: int) -> int {
    bore_from(g, solid, iz, 0)
}

/// The row that row `ir` sees in a mirror on the face below row `b`, no lower
/// than the axis row.
pub open spec fn mirror_row(b: int, ir: int) -> int {
    if 2 * b - 1 - ir > 0 {
        2 * b - 1 - ir
    } else {
        0
    }
}

/// What the mirror fill puts at (iz, ir). Rows are filled upward, so a source
/// row below the filled one is read as filled.
pub open spec fn column_at(
    g: &Grid,
    solid: Seq<bool>,
    u0: Seq<Cons>,
    u1: Seq<Cons>,
    iz: int,
    ir: int,
) -> bool {
    let b = bore(g, solid, iz);
    if b < g.nr && ir >= b {
        let src = mirror_row(b, ir);
        u1[g.pad(iz, ir)] == (if src < ir {
            u1[g.pad(iz, src)]
        } else {
            u0[g.pad(iz, src)]
        }).reflected()
    } else {
        u1[g.pad(iz, ir)] == u0[g.pad(iz, ir)]
    }
}

/// In every column, everything from the first solid row outward is the mirror
/// image of what lies below it.
pub open spec fn columns_reflected(
    g: &Grid,
    solid: Seq<bool>,
    u0: Seq<Cons>,
    u1: Seq<Cons>,
) -> bool {
    &&& u1.len() == u0.len()
    &&& forall|iz: int, ir: int| #[trigger] g.in_pad(iz, ir) ==> column_at(g, solid, u0, u1, iz, ir)
}

fn find_bore(g: &Grid, solid: &Vec<bool>, iz: isize) -> (b: usize)
    requires
        g.wf(),
        solid.len() == g.padded_cells(),
        -2 <= iz < g.nz + 2,
    ensures
        b == bore(g, solid@, iz as int),
        b <= g.nr,
{
    proof {
        grid::lemma_products_fit(g.nz as int, g.nr as int);
    }
    let mut b: usize = 0;
    while b < g.nr && !solid[g.gidx(iz, b as isize)]
        invariant
            g.wf(),
            g.nr + 4 <= isize::MAX,
            solid.len() == g.padded_cells(),
            -2 <= iz < g.nz + 2,
            b <= g.nr,
            bore_from(g, solid@, iz as int, b as int) == bore(g, solid@, iz as int),
        decreases g.nr - b,
    {
        b = b + 1;
    }
    b
}

spec fn mirrored_value(
    g: &Grid,
    u: Seq<Cons>,
    bores: Seq<usize>,
    iz: int,
    ir: int,
) -> Cons {
    let b = bores[iz + 2] as int;
    if b < g.nr && ir >= b {
        if b == 0 && ir > 0 {
            u[g.pad(iz, 0)].reflected().reflected()
        } else {
            u[g.pad(iz, mirror_row(b, ir))].reflected()
        }
    } else {
        u[g.pad(iz, ir)]
    }
}

/// Overwrites every solid cell with the mirror image of the fluid below the
/// bore, so that the bore face becomes a reflecting condition.
fn column_reflect_fill(u: &mut Vec<Cons>, g: &Grid, solid: &Vec<bool>)
    requires
        g.wf(),
        old(u).len() == g.padded_cells(),
        solid.len() == g.padded_cells(),
    ensures
        columns_reflected(g, solid@, old(u)@, final(u)@),
{
    proof {
        grid::lemma_products_fit(g.nz as int, g.nr as int);
    }
    let ghost u0 = u@;
    let snz: usize = g.snz();
    let mut bores: Vec<usize> = Vec::new();
    let mut c: usize = 0;
    while c < snz
        invariant
            g.wf(),
            snz == g.nz + 4,
            snz <= isize::MAX,
            solid.len() == g.padded_cells(),
            c <= snz,
            bores.len() == c,
            forall|j: int|
                0 <= j < c ==> #[trigger] bores[j] == bore(g, solid@, j - 2) && bores[j] <= g.nr,
        decreases snz - c,
    {
        bores.push(find_bore(g, solid, c as isize - 2));
        c = c + 1;
    }
    let n: usize = g.glen();
    let mut out: Vec<Cons> = Vec::new();
    let mut q: usize = 0;
    while q < n
        invariant
            g.wf(),
            n == g.padded_cells(),
            snz == g.nz + 4,
            g.nz + 4 <= isize::MAX,
            g.nr + 4 <= isize::MAX,
            u.len() == g.padded_cells(),
            u@ == u0,
            bores.len() == snz,
            forall|j: int| 0 <= j < snz ==> #[trigger] bores[j] <= g.nr,
            q <= n,
            out.len() == q,
            forall|j: int|
                0 <= j < q ==> #[trigger] out[j] == mirrored_value(
                    g,
                    u0,
                    bores@,
                    j % (snz as int) - 2,
                    j / (snz as int) - 2,
                ),
        decreases n - q,
    {
        proof {
            grid::law_padded_positions(g.nz as int, g.nr as int, q as int);
        }
        let column: usize = q % snz;
        let row: usize = q / snz;
        let iz: isize = column as isize - 2;
        let ir: isize = row as isize - 2;
        let b: usize = bores[column];
        let value = if b < g.nr && ir >= b as isize {
            if b == 0 && ir > 0 {
                u[g.gidx(iz, 0)].reflect().reflect()
            } else {
                let below: isize = b as isize - 1 - (ir - b as isize);
                let src: isize = if below > 0 {
                    below
                } else {
                    0
                };
                u[g.gidx(iz, src)].reflect()
            }
        } else {
            u[q]
        };
        out.push(value);
        q = q + 1;
    }
    proof {
        assert forall|iz: int, ir: int| #[trigger] g.in_pad(iz, ir) implies out@[g.pad(iz, ir)]
            == mirrored_value(g, u0, bores@, iz, ir) by {
            grid::law_padded_layout(g.nz as int, g.nr as int, iz, ir);
            assert(out@[g.pad(iz, ir)] == out[g.pad(iz, ir)]);
        }
        assert forall|iz: int, ir: int| #[trigger] g.in_pad(iz, ir) implies column_at(
            g,
            solid@,
            u0,
            out@,
            iz,
            ir,
        ) by {
            let b = bore(g, solid@, iz);
            assert(bores[iz + 2] == b);
            if b < g.nr && ir >= b {
                let src = mirror_row(b, ir);
                assert(g.in_pad(iz, src));
            }
        }
    }
    *u = out;
}

/// The ghost cells, and with column reflection the solid cells, before a stage.
pub open spec fn ghosts_filled<M: FlowMath>(
    m: &M,
    g: &Grid,
    solid: Seq<bool>,
    gas: GasModel,
    chamber: Chamber,
    ambient: Ambient,
    wall_mode: WallMode,
    u0: Seq<Cons>,
    u1: Seq<Cons>,
) -> bool {
    exists|mid: Seq<Cons>| #[trigger]
        boundaries_filled(m, g, solid, gas, chamber, ambient, u0, mid) && match wall_mode {
            WallMode::Mirror => u1 == mid,
            WallMode::ColumnReflect => columns_reflected(g, solid, mid, u1),
        }
}

/// Fills the ghost cells before a stage.
pub fn fill_ghosts<M: FlowMath>(
    m: &M,
    u: &mut Vec<Cons>,
    g: &Grid,
    solid: &Vec<bool>,
    gas: GasModel,
    chamber: Chamber,
    ambient: Ambient,
    n: &Numerics,
)
    requires
        g.wf(),
        old(u).len() == g.padded_cells(),
        solid.len() == g.padded_cells(),
    ensures
        final(u).len() == old(u).len(),
        ghosts_filled(
            m,
            g,
            solid@,
            gas,
            chamber,
            ambient,
            n.wall_mode,
            old(u)@,
            final(u)@,
        ),
{
    let ghost u0 = u@;
    fill_boundaries(m, u, g, solid, gas, chamber, ambient);
    let ghost mid = u@;
    assert(boundaries_filled(m, g, solid@, gas, chamber, ambient, u0, mid));
    if n.wall_mode == WallMode::ColumnReflect {
        column_reflect_fill(u, g, solid);
    }
}

/// With mirrored walls the interior is left exactly as it was.
pub proof fn law_mirror_walls_keep_interior<M: FlowMath>(
    m: &M,
    g: &Grid,
    solid: Seq<bool>,
    gas: GasModel,
    chamber: Chamber,
    ambient: Ambient,
    u0: Seq<Cons>,
    u1: Seq<Cons>,
    iz: int,
    ir: int,
)
    requires
        g.wf(),
        ghosts_filled(m, g, solid, gas, chamber, ambient, WallMode::Mirror, u0, u1),
        g.inside(iz, ir),
    ensures
        u1[g.pad(iz, ir)] == u0[g.pad(iz, ir)],
{
    assert(g.in_pad(iz, ir));
    assert(ghost_at(m, g, solid, gas, chamber, ambient, u0, u1, iz, ir));
}

/// Below the axis lies the mirror image of what is above it: density, axial
/// momentum and energy are the same, radial momentum has the other sign.
pub proof fn law_axis_mirror<M: FlowMath>(
    m: &M,
    g: &Grid,
    solid: Seq<bool>,
    gas: GasModel,
    chamber: Chamber,
    ambient: Ambient,
    u0: Seq<Cons>,
    u1: Seq<Cons>,
    iz: int,
    k: int,
)
    requires
        g.wf(),
        ghosts_filled(m, g, solid, gas, chamber, ambient, WallMode::Mirror, u0, u1),
        -2 <= iz < g.nz + 2,
        0 <= k < 2,
        k < g.nr,
    ensures
        ({
            let above = u1[g.pad(iz, k)];
            let below = u1[g.pad(iz, -1 - k)];
            &&& below.rho == above.rho
            &&& below.mz == above.mz
            &&& below.mr == above.mr.negated()
            &&& below.e == above.e
        }),
{
    assert(g.in_pad(iz, -1 - k));
    assert(ghost_at(m, g, solid, gas, chamber, ambient, u0, u1, iz, -1 - k));
}

/// A mirror used twice gives the state back.
pub proof fn law_reflection_undoes_itself(u: Cons)
    ensures
        u.reflected().reflected() == u,
{
}

/// Fluid is never overwritten by column reflection when no column has fluid
/// above solid.
pub proof fn law_column_reflection_spares_fluid(
    g: &Grid,
    solid: Seq<bool>,
    u0: Seq<Cons>,
    u1: Seq<Cons>,
    iz: int,
    ir: int,
)
    requires
        g.wf(),
        columns_reflected(g, solid, u0, u1),
        g.inside(iz, ir),
        !solid[g.pad(iz, ir)],
        forall|a: int, b: int|
            #![trigger g.in_pad(iz, a), g.in_pad(iz, b)]
            0 <= a < b < g.nr && solid[g.pad(iz, a)] ==> solid[g.pad(iz, b)],
    ensures
        u1[g.pad(iz, ir)] == u0[g.pad(iz, ir)],
{
    assert(g.in_pad(iz, ir));
    lemma_bore(g, solid, iz, 0);
    let b = bore(g, solid, iz);
    if b < g.nr && ir >= b {
        if ir > b {
            assert(g.in_pad(iz, b) && g.in_pad(iz, ir));
        }
    }
}

proof fn lemma_bore(g: &Grid, solid: Seq<bool>, iz: int, ir: int)
    requires
        0 <= ir <= g.nr,
    ensures
        ir <= bore_from(g, solid, iz, ir) <= g.nr,
        bore_from(g, solid, iz, ir) < g.nr ==> solid[g.pad(
            iz,
            bore_from(g, solid, iz, ir),
        )],
    decreases g.nr - ir,
{
    if ir < g.nr && !solid[g.pad(iz, ir)] {
        lemma_bore(g, solid, iz, ir + 1);
    }
}

/// The inlet: both ghosts before a row hold one state. Next to a fluid cell it is the gas
/// of the chamber as the upstream wave out of that cell lets it in, with no velocity
/// across the axis and none back into the chamber; behind a solid cell it is that cell's.
pub proof fn law_inlet_ghosts<M: FlowMath>(
    m: &M,
    g: &Grid,
    solid: Seq<bool>,
    gas: GasModel,
    chamber: Chamber,
    ambient: Ambient,
    u0: Seq<Cons>,
    u1: Seq<Cons>,
    ir: int,
    iz: int,
) -> (r: (Prim, Scalar, Scalar, Scalar, Scalar, Prim))
    requires
        g.wf(),
        ghosts_filled(m, g, solid, gas, chamber, ambient, WallMode::Mirror, u0, u1),
        0 <= ir < g.nr,
        iz == -1 || iz == -2,
    ensures
        solid[g.pad(0, ir)] ==> u1[g.pad(iz, ir)] == u0[g.pad(0, ir)],
        !solid[g.pad(0, ir)] ==> {
            let (w, back, discriminant, sound, velocity, b) = r;
            let zero = Scalar { bits: ZERO };
            let a = sound.larger(Scalar { bits: INLET_SOUND_FLOOR });
            &&& call_ensures(M::primitives, (m, u0[g.pad(0, ir)], gas.gamma), w)
            &&& call_ensures(M::upstream_invariant, (m, w, gas.gamma), back)
            &&& call_ensures(
                M::inlet_discriminant,
                (m, back, chamber, gas.gamma),
                discriminant,
            )
            &&& call_ensures(
                M::inlet_sound_speed,
                (m, back, discriminant.larger(zero), gas.gamma),
                sound,
            )
            &&& call_ensures(M::inlet_velocity, (m, back, a, gas.gamma), velocity)
            &&& call_ensures(M::inlet_pressure, (m, a, chamber, gas.gamma), b.p)
            &&& call_ensures(M::inlet_density, (m, b.p, a, gas.gamma), b.rho)
            &&& !b.uz.below(zero)
            &&& zero.at_most(velocity) ==> b.uz == velocity
            &&& b.ur.bits == ZERO
            &&& call_ensures(M::conserved, (m, b, gas.gamma), u1[g.pad(iz, ir)])
        },
{
    let u = u0[g.pad(0, ir)];
    assert(g.in_pad(-1, ir) && g.in_pad(iz, ir));
    assert(ghost_at(m, g, solid, gas, chamber, ambient, u0, u1, -1, ir));
    assert(ghost_at(m, g, solid, gas, chamber, ambient, u0, u1, iz, ir));
    let out = u1[g.pad(-1, ir)];
    let (w, b) = choose|w: Prim, b: Prim|
        {
            &&& #[trigger] call_ensures(M::primitives, (m, u, gas.gamma), w)
            &&& is_inlet(m, w, chamber, gas.gamma, b)
            &&& #[trigger] call_ensures(M::conserved, (m, b, gas.gamma), out)
        };
    let (back, discriminant, sound, velocity) = choose|
        back: Scalar,
        discriminant: Scalar,
        sound: Scalar,
        velocity: Scalar,
    | #[trigger]
        inlet_chain(m, w, chamber, gas.gamma, back, discriminant, sound, velocity, b);
    (w, back, discriminant, sound, velocity, b)
}

/// The open end: both ghosts behind a row hold one state. Behind a solid cell it is that
/// cell's. Where the flow comes back in it is the surroundings at rest; where it leaves
/// faster than sound it is the cell's own; else it is the gas of the cell taken to the
/// pressure of the surroundings, its velocity along z behind the outgoing wave and the
/// other as it was.
pub proof fn law_outflow_ghosts<M: FlowMath>(
    m: &M,
    g: &Grid,
    solid: Seq<bool>,
    gas: GasModel,
    chamber: Chamber,
    ambient: Ambient,
    u0: Seq<Cons>,
    u1: Seq<Cons>,
    ir: int,
    iz: int,
) -> (r: (Prim, Scalar, Scalar, Scalar))
    requires
        g.wf(),
        ghosts_filled(m, g, solid, gas, chamber, ambient, WallMode::Mirror, u0, u1),
        0 <= ir < g.nr,
        iz == g.nz || iz == g.nz + 1,
    ensures
        ({
            let u = u0[g.pad(g.nz - 1, ir)];
            let out = u1[g.pad(iz, ir)];
            let (w, sound, rho, behind) = r;
            let zero = Scalar { bits: ZERO };
            &&& solid[g.pad(g.nz - 1, ir)] ==> out == u
            &&& !solid[g.pad(g.nz - 1, ir)] ==> {
                &&& call_ensures(M::primitives, (m, u, gas.gamma), w)
                &&& w.uz.below(zero) ==> exists|still: Scalar| #[trigger]
                    call_ensures(M::gas_density, (m, ambient.p, ambient.t), still) && call_ensures(
                        M::conserved,
                        (m, Prim { rho: still, uz: zero, ur: zero, p: ambient.p }, gas.gamma),
                        out,
                    )
                &&& !w.uz.below(zero) ==> call_ensures(M::sound_speed, (m, w, gas.gamma), sound)
                &&& !w.uz.below(zero) && sound.at_most(w.uz) ==> out == u
                &&& !w.uz.below(zero) && !sound.at_most(w.uz) ==> {
                    &&& call_ensures(
                        M::isentropic_density,
                        (m, w.rho, w.p, ambient.p, gas.gamma),
                        rho,
                    )
                    &&& call_ensures(
                        M::outgoing_velocity,
                        (m, w.uz, sound, rho, ambient.p, gas.gamma),
                        behind,
                    )
                    &&& call_ensures(
                        M::conserved,
                        (m, Prim { rho, uz: behind, ur: w.ur, p: ambient.p }, gas.gamma),
                        out,
                    )
                }
            }
        }),
{
    let u = u0[g.pad(g.nz - 1, ir)];
    assert(g.in_pad(g.nz as int, ir) && g.in_pad(iz, ir));
    assert(ghost_at(m, g, solid, gas, chamber, ambient, u0, u1, g.nz as int, ir));
    assert(ghost_at(m, g, solid, gas, chamber, ambient, u0, u1, iz, ir));
    let out = u1[g.pad(g.nz as int, ir)];
    let (w, sound, rho, behind) = choose|w: Prim, sound: Scalar, rho: Scalar, behind: Scalar|
        #[trigger]
        is_open_ghost(m, u, ambient, gas.gamma, true, w, sound, rho, behind, out);
    (w, sound, rho, behind)
}

/// The far field: both ghosts above a column, ghost columns and all, hold one state, made
/// of the outermost row in the same way with the velocity across the axis.
pub proof fn law_far_field_ghosts<M: FlowMath>(
    m: &M,
    g: &Grid,
    solid: Seq<bool>,
    gas: GasModel,
    chamber: Chamber,
    ambient: Ambient,
    u0: Seq<Cons>,
    u1: Seq<Cons>,
    iz: int,
    ir: int,
) -> (r: (Prim, Scalar, Scalar, Scalar))
    requires
        g.wf(),
        ghosts_filled(m, g, solid, gas, chamber, ambient, WallMode::Mirror, u0, u1),
        -2 <= iz < g.nz + 2,
        ir == g.nr || ir == g.nr + 1,
    ensures
        ({
            let u = u1[g.pad(iz, g.nr - 1)];
            let out = u1[g.pad(iz, ir)];
            let (w, sound, rho, behind) = r;
            let zero = Scalar { bits: ZERO };
            &&& solid[g.pad(iz, g.nr - 1)] ==> out == u
            &&& !solid[g.pad(iz, g.nr - 1)] ==> {
                &&& call_ensures(M::primitives, (m, u, gas.gamma), w)
                &&& w.ur.below(zero) ==> exists|still: Scalar| #[trigger]
                    call_ensures(M::gas_density, (m, ambient.p, ambient.t), still) && call_ensures(
                        M::conserved,
                        (m, Prim { rho: still, uz: zero, ur: zero, p: ambient.p }, gas.gamma),
                        out,
                    )
                &&& !w.ur.below(zero) ==> call_ensures(M::sound_speed, (m, w, gas.gamma), sound)
                &&& !w.ur.below(zero) && sound.at_most(w.ur) ==> out == u
                &&& !w.ur.below(zero) && !sound.at_most(w.ur) ==> {
                    &&& call_ensures(
                        M::isentropic_density,
                        (m, w.rho, w.p, ambient.p, gas.gamma),
                        rho,
                    )
                    &&& call_ensures(
                        M::outgoing_velocity,
                        (m, w.ur, sound, rho, ambient.p, gas.gamma),
                        behind,
                    )
                    &&& call_ensures(
                        M::conserved,
                        (m, Prim { rho, uz: w.uz, ur: behind, p: ambient.p }, gas.gamma),
                        out,
                    )
                }
            }
        }),
{
    let u = u1[g.pad(iz, g.nr - 1)];
    assert(g.in_pad(iz, g.nr as int) && g.in_pad(iz, ir));
    assert(ghost_at(m, g, solid, gas, chamber, ambient, u0, u1, iz, g.nr as int));
    assert(ghost_at(m, g, solid, gas, chamber, ambient, u0, u1, iz, ir));
    let out = u1[g.pad(iz, g.nr as int)];
    let (w, sound, rho, behind) = choose|w: Prim, sound: Scalar, rho: Scalar, behind: Scalar|
        #[trigger]
        is_open_ghost(m, u, ambient, gas.gamma, false, w, sound, rho, behind, out);
    (w, sound, rho, behind)
}

/// Column reflection mirrors the bore: with the first solid row of a column at `b`, each
/// row from there on that has an image below the face holds that image, radial momentum
/// turned around, and the rows below the face stay.
pub proof fn law_columns_mirror_the_bore(
    g: &Grid,
    solid: Seq<bool>,
    u0: Seq<Cons>,
    u1: Seq<Cons>,
    iz: int,
    ir: int,
    b: int,
)
    requires
        g.wf(),
        columns_reflected(g, solid, u0, u1),
        -2 <= iz < g.nz + 2,
        -2 <= ir < g.nr + 2,
        0 <= b < g.nr,
        solid[g.pad(iz, b)],
        forall|j: int| 0 <= j < b ==> !solid[#[trigger] g.pad(iz, j)],
    ensures
        ir < b ==> u1[g.pad(iz, ir)] == u0[g.pad(iz, ir)],
        b <= ir && 0 <= 2 * b - 1 - ir ==> {
            let image = u0[g.pad(iz, 2 * b - 1 - ir)];
            let here = u1[g.pad(iz, ir)];
            &&& here.rho == image.rho
            &&& here.mz == image.mz
            &&& here.mr == image.mr.negated()
            &&& here.e == image.e
        },
{
    lemma_bore_is(g, solid, iz, 0, b);
    assert(g.in_pad(iz, ir));
    assert(column_at(g, solid, u0, u1, iz, ir));
    if b <= ir && 0 <= 2 * b - 1 - ir {
        assert(g.in_pad(iz, 2 * b - 1 - ir));
        assert(column_at(g, solid, u0, u1, iz, 2 * b - 1 - ir));
    }
}

proof fn lemma_bore_is(g: &Grid, solid: Seq<bool>, iz: int, ir: int, b: int)
    requires
        0 <= ir <= b < g.nr,
        solid[g.pad(iz, b)],
        forall|j: int| 0 <= j < b ==> !solid[#[trigger] g.pad(iz, j)],
    ensures
        bore_from(g, solid, iz, ir) == b,
    decreases b - ir,
{
    if ir < b {
        lemma_bore_is(g, solid, iz, ir + 1, b);
    }
}

} // verus!
