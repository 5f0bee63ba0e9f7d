//! Behaviour of the flow library on concrete values, with the formulas evaluated
//! in the machine's floating point.

use cfd::bodies::label_bodies;
use cfd::euler::{EulerSolver, SolverMath};
use cfd::field::{
    Ambient, Chamber, Confidence, FieldKind, FluxMode, GasModel, Geometry, Limiter, Numerics,
    Reconstruction, RefScales, SolidField, WallMode,
};
use cfd::flow::{wall_flux_r, wall_flux_z, Cons, FlowMath, Prim, Side, P_MIN_ABS, RHO_MIN};
use cfd::forces::{surface_pressure_force, ForceMath, SurfaceForce};
use cfd::ghosts::fill_ghosts;
use cfd::grid::{Grid, GridMath, NG};
use cfd::error::CfdError;
use cfd::mach::{mach_by_bisection, mach_from_area_ratio, MachMath};
use cfd::mock::{Exit, MockMath, MockSolver, Plume};
use cfd::monitor::{relative_drift, MonitorMath, PlateauMonitor, CONVERGED_TOL, SAMPLES_PER_WINDOW};
use cfd::nozzle::{
    column_reflect_supported, nozzle_profile, quasi1d_init, NozzleMath, Start, Stream,
};
use cfd::refill::{apply_geometry_change, refill_interior, FlipLedger, LedgerMath};
use cfd::report::{judge, Figures, ReportMath};
use cfd::riemann::{
    fluid_face_flux, hll_flux, hllc_flux, minmod, muscl_face_states, FaceGeom, FaceMath, Four,
};
use cfd::scalar::Scalar;
use cfd::sensor::{apply_sponge, carbuncle_mask, sponge_reached, SensorMath};
use cfd::setup::{SolveSetup, StepInfo};
use cfd::snapshot::{DisplayMath, Snapshot};
use cfd::solver::Solver;
use cfd::sweep::{sweep_r, sweep_z, SweepMath};
use cfd::text::Show;
use cfd::walk::nearest_marked;
use cfd::update::{
    accumulate, accumulate2, compute_primitives, density_residual_f64, enforce_positivity,
    floor_cell, max_wave_speed, redo_first_order, UpdateMath,
};

/// Floating point of the machine.
#[derive(Debug, Clone, Copy)]
struct Native;

/// Double-precision value of a scalar.
fn d(x: Scalar) -> f64 {
    f64::from_bits(x.bits)
}

/// Scalar of a double-precision value.
fn s(x: f64) -> Scalar {
    Scalar { bits: x.to_bits() }
}

/// Single-precision value of a scalar.
fn f(x: Scalar) -> f32 {
    d(x) as f32
}

/// Scalar of a single-precision value.
fn w(x: f32) -> Scalar {
    s(x as f64)
}

impl Show for Native {
    fn show(&self, x: Scalar) -> String {
        format!("{}", d(x))
    }

    fn show_single(&self, x: Scalar) -> String {
        format!("{}", d(x) as f32)
    }

    fn show_debug(&self, x: Scalar) -> String {
        format!("{:?}", d(x))
    }

    fn show_rounded(&self, x: Scalar) -> String {
        format!("{:.4}", d(x))
    }
}

impl GridMath for Native {
    fn width(&self, lo: Scalar, hi: Scalar) -> Scalar {
        w((d(hi) - d(lo)) as f32)
    }

    fn centre(&self, lo: Scalar, hi: Scalar) -> Scalar {
        w((0.5 * (d(lo) + d(hi))) as f32)
    }

    fn centroid(&self, lo: Scalar, hi: Scalar) -> Scalar {
        let (lo, hi) = (d(lo), d(hi));
        w(((2.0 / 3.0) * (hi * hi + hi * lo + lo * lo) / (hi + lo)) as f32)
    }

    fn centre_below(&self, c: Scalar, below: Scalar, here: Scalar) -> Scalar {
        w(f(c) - 0.5 * (f(below) + f(here)))
    }

    fn centre_above(&self, c: Scalar, here: Scalar, above: Scalar) -> Scalar {
        w(f(c) + 0.5 * (f(here) + f(above)))
    }

    fn next_edge(&self, edge: Scalar, width: Scalar) -> Scalar {
        s(d(edge) + d(width))
    }

    fn multiple(&self, i: usize, step: Scalar) -> Scalar {
        s(i as f64 * d(step))
    }

    fn narrow(&self, x: Scalar) -> Scalar {
        w(f(x))
    }

    fn volume(&self, r_lo: Scalar, r_hi: Scalar, z_lo: Scalar, z_hi: Scalar) -> Scalar {
        let (rl, rh, zl, zh) = (d(r_lo), d(r_hi), d(z_lo), d(z_hi));
        s(0.5 * (rl + rh) * (rh - rl) * (zh - zl))
    }
}

/// The components of a primitive state.
fn pr(q: Prim) -> [f32; 4] {
    [f(q.rho), f(q.uz), f(q.ur), f(q.p)]
}

/// The primitive state of its components.
fn prim(q: [f32; 4]) -> Prim {
    Prim { rho: w(q[0]), uz: w(q[1]), ur: w(q[2]), p: w(q[3]) }
}

/// The components of a conserved state.
fn co(u: Cons) -> [f32; 4] {
    [f(u.rho), f(u.mz), f(u.mr), f(u.e)]
}

/// The conserved state of its components.
fn cons(u: [f32; 4]) -> Cons {
    Cons { rho: w(u[0]), mz: w(u[1]), mr: w(u[2]), e: w(u[3]) }
}

/// Every component of two states taken together.
fn zip(a: [f32; 4], b: [f32; 4], op: impl Fn(f32, f32) -> f32) -> [f32; 4] {
    [op(a[0], b[0]), op(a[1], b[1]), op(a[2], b[2]), op(a[3], b[3])]
}

/// Conserved components of primitive ones.
fn to_cons(q: [f32; 4], gamma: f32) -> [f32; 4] {
    let [rho, un, ut, p] = q;
    [rho, rho * un, rho * ut, p / (gamma - 1.0) + 0.5 * rho * (un * un + ut * ut)]
}

/// Primitive components of conserved ones.
fn to_prim(u: [f32; 4], gamma: f32) -> [f32; 4] {
    let rho = u[0];
    let inv = 1.0 / rho;
    let uz = u[1] * inv;
    let ur = u[2] * inv;
    let p = (gamma - 1.0) * (u[3] - 0.5 * rho * (uz * uz + ur * ur));
    [rho, uz, ur, p]
}

/// Speed of sound.
fn sound(q: [f32; 4], gamma: f32) -> f32 {
    (gamma * q[3] / q[0]).sqrt()
}

/// Exact flux of one state.
fn exact_flux(q: [f32; 4], gamma: f32) -> [f32; 4] {
    let [rho, un, ut, p] = q;
    let e = p / (gamma - 1.0) + 0.5 * rho * (un * un + ut * ut);
    [rho * un, rho * un * un + p, rho * un * ut, un * (e + p)]
}

impl FlowMath for Native {
    fn primitives(&self, u: Cons, gamma: Scalar) -> Prim {
        prim(to_prim(co(u), f(gamma)))
    }

    fn conserved(&self, q: Prim, gamma: Scalar) -> Cons {
        cons(to_cons(pr(q), f(gamma)))
    }

    fn gas_density(&self, p: Scalar, t: Scalar) -> Scalar {
        w(f(p) / f(t))
    }

    fn sound_speed(&self, q: Prim, gamma: Scalar) -> Scalar {
        w(sound(pr(q), f(gamma)))
    }

    fn wall_pressure(&self, rho: Scalar, u: Scalar, p: Scalar, gamma: Scalar) -> Scalar {
        let (rho, un, p) = (f(rho), f(u), f(p));
        let a = (f(gamma) * p / rho).sqrt();
        let sl = -(un.abs() + a);
        w(p + rho * un * (un - sl))
    }

    fn upstream_invariant(&self, q: Prim, gamma: Scalar) -> Scalar {
        let g = f(gamma);
        w(f(q.uz) - 2.0 * sound(pr(q), g) / (g - 1.0))
    }

    fn inlet_discriminant(&self, back: Scalar, chamber: Chamber, gamma: Scalar) -> Scalar {
        let (g, rm) = (f(gamma), f(back));
        let a02 = g * f(chamber.t0);
        w((g + 1.0) * a02 / (g - 1.0) - 0.5 * (g - 1.0) * rm * rm)
    }

    fn inlet_sound_speed(&self, back: Scalar, discriminant: Scalar, gamma: Scalar) -> Scalar {
        let g = f(gamma);
        w((-f(back) + f(discriminant).sqrt()) / ((g + 1.0) / (g - 1.0)))
    }

    fn inlet_velocity(&self, back: Scalar, sound: Scalar, gamma: Scalar) -> Scalar {
        w(f(back) + 2.0 * f(sound) / (f(gamma) - 1.0))
    }

    fn inlet_pressure(&self, sound: Scalar, chamber: Chamber, gamma: Scalar) -> Scalar {
        let (g, ab) = (f(gamma), f(sound));
        let a02 = g * f(chamber.t0);
        w(f(chamber.p0) * (ab * ab / a02).powf(g / (g - 1.0)))
    }

    fn inlet_density(&self, p: Scalar, sound: Scalar, gamma: Scalar) -> Scalar {
        w(f(gamma) * f(p) / (f(sound) * f(sound)))
    }

    fn isentropic_density(&self, rho: Scalar, from: Scalar, to: Scalar, gamma: Scalar) -> Scalar {
        w(f(rho) * (f(to) / f(from)).powf(1.0 / f(gamma)))
    }

    fn outgoing_velocity(
        &self,
        u: Scalar,
        sound: Scalar,
        rho: Scalar,
        p: Scalar,
        gamma: Scalar,
    ) -> Scalar {
        let g = f(gamma);
        let ab = (g * f(p) / f(rho)).sqrt();
        w(f(u) + 2.0 * (f(sound) - ab) / (g - 1.0))
    }

    fn mean(&self, values: &Vec<Scalar>) -> Scalar {
        let mut sum = 0.0;
        for &v in values {
            sum += d(v);
        }
        w((sum / values.len() as f64) as f32)
    }
}

impl FaceMath for Native {
    fn difference(&self, a: Scalar, b: Scalar, xa: Scalar, xb: Scalar) -> Scalar {
        w((f(b) - f(a)) / (f(xb) - f(xa)))
    }

    fn half_sum(&self, dm: Scalar, dp: Scalar) -> Scalar {
        w(0.5 * (f(dm) + f(dp)))
    }

    fn product(&self, dm: Scalar, dp: Scalar) -> Scalar {
        w(f(dm) * f(dp))
    }

    fn harmonic(&self, dm: Scalar, dp: Scalar) -> Scalar {
        w(2.0 * f(dm) * f(dp) / (f(dm) + f(dp)))
    }

    fn extrapolate(&self, value: Scalar, slope: Scalar, x: Scalar, face: Scalar) -> Scalar {
        w(f(value) + f(slope) * (f(face) - f(x)))
    }

    fn analytic_flux(&self, q: Prim, gamma: Scalar) -> Cons {
        cons(exact_flux(pr(q), f(gamma)))
    }

    fn slowest_wave(&self, q: Prim, gamma: Scalar) -> Scalar {
        w(f(q.uz) - sound(pr(q), f(gamma)))
    }

    fn fastest_wave(&self, q: Prim, gamma: Scalar) -> Scalar {
        w(f(q.uz) + sound(pr(q), f(gamma)))
    }

    fn contact_speed(&self, ql: Prim, qr: Prim, sl: Scalar, sr: Scalar) -> Scalar {
        let ([rl, ul, _, pl], [rr, ur, _, p_r]) = (pr(ql), pr(qr));
        let ml = rl * (f(sl) - ul);
        let mr = rr * (f(sr) - ur);
        w((p_r - pl + ul * ml - ur * mr) / (ml - mr))
    }

    fn star_flux(&self, q: Prim, speed: Scalar, contact: Scalar, gamma: Scalar) -> Cons {
        let ([rho, u, v, p], sk, sm, g) = (pr(q), f(speed), f(contact), f(gamma));
        let mk = rho * (sk - u);
        let e = p / (g - 1.0) + 0.5 * rho * (u * u + v * v);
        let rs = mk / (sk - sm);
        let es = rs * (e / rho + (sm - u) * (sm + p / mk));
        let star = [rs, rs * sm, rs * v, es];
        let own = [rho, rho * u, rho * v, e];
        cons(zip(exact_flux(pr(q), g), zip(star, own, |a, b| sk * (a - b)), |a, b| a + b))
    }

    fn star_pressure(&self, q: Prim, speed: Scalar, contact: Scalar) -> Scalar {
        let [rho, u, _, p] = pr(q);
        w(p + rho * (f(speed) - u) * (f(contact) - u))
    }

    fn average_flux(&self, ql: Prim, qr: Prim, sl: Scalar, sr: Scalar, gamma: Scalar) -> Cons {
        let (l, r, sl, sr, g) = (pr(ql), pr(qr), f(sl), f(sr), f(gamma));
        let (ul, ur) = (to_cons(l, g), to_cons(r, g));
        let (fl, fr) = (exact_flux(l, g), exact_flux(r, g));
        let inv = 1.0 / (sr - sl);
        let mut out = [0.0; 4];
        for k in 0..4 {
            out[k] = (sr * fl[k] - sl * fr[k] + sl * sr * (ur[k] - ul[k])) * inv;
        }
        cons(out)
    }

    fn average_pressure(
        &self,
        ql: Prim,
        qr: Prim,
        sl: Scalar,
        sr: Scalar,
        gamma: Scalar,
    ) -> Scalar {
        let (l, r, sl, sr, g) = (pr(ql), pr(qr), f(sl), f(sr), f(gamma));
        let (ul, ur) = (to_cons(l, g), to_cons(r, g));
        let (fl, fr) = (exact_flux(l, g), exact_flux(r, g));
        let inv = 1.0 / (sr - sl);
        let mut mean = [0.0; 4];
        for k in 0..4 {
            mean[k] = (sr * ur[k] - sl * ul[k] + fl[k] - fr[k]) * inv;
        }
        w(to_prim(mean, g)[3])
    }
}

impl SweepMath for Native {
    fn inverse(&self, width: Scalar) -> Scalar {
        s(1.0 / d(width))
    }

    fn gain(&self, c: Cons, flux: Cons, inverse: Scalar) -> Cons {
        cons(zip(co(c), co(flux), |a, b| a + b * f(inverse)))
    }

    fn lose(&self, c: Cons, flux: Cons, inverse: Scalar) -> Cons {
        cons(zip(co(c), co(flux), |a, b| a - b * f(inverse)))
    }

    fn planar_balance(&self, c: Cons, lo: Cons, hi: Cons, inverse: Scalar) -> Cons {
        let change = zip(co(hi), co(lo), |h, l| (h - l) * f(inverse));
        cons(zip(co(c), change, |a, b| a - b))
    }

    fn ring_balance(
        &self,
        c: Cons,
        lo: Cons,
        p_lo: Scalar,
        hi: Cons,
        p_hi: Scalar,
        r_lo: Scalar,
        r_hi: Scalar,
        r_center: Scalar,
        inverse: Scalar,
    ) -> Cons {
        let (lo, hi, rl, rh) = (co(lo), co(hi), f(r_lo), f(r_hi));
        let source = [0.0, 0.0, 0.5 * (f(p_lo) + f(p_hi)), 0.0];
        let inv = f(inverse) / f(r_center);
        let mut out = co(c);
        for k in 0..4 {
            out[k] -= (rh * (hi[k] - source[k]) - rl * (lo[k] - source[k])) * inv;
        }
        cons(out)
    }
}

impl UpdateMath for Native {
    fn advance(&self, u: Cons, rhs: Cons, dt: Scalar) -> Cons {
        cons(zip(co(u), co(rhs), |a, r| a + f(dt) * r))
    }

    fn combine(&self, u0: Cons, u1: Cons, rhs: Cons, dt: Scalar) -> Cons {
        let sum = zip(co(u0), co(u1), |a, b| a + b);
        cons(zip(sum, co(rhs), |a, r| 0.5 * (a + f(dt) * r)))
    }

    fn axial_rate(&self, lo: Cons, hi: Cons, inverse: Scalar) -> Cons {
        cons(zip(co(hi), co(lo), |h, l| -(h - l) * f(inverse)))
    }

    fn kinetic(&self, rho: Scalar, mz: Scalar, mr: Scalar) -> Scalar {
        let (rho, mz, mr) = (f(rho), f(mz), f(mr));
        w(0.5 * (mz * mz + mr * mr) / rho)
    }

    fn pressure(&self, e: Scalar, kinetic: Scalar, gamma: Scalar) -> Scalar {
        w((f(gamma) - 1.0) * (f(e) - f(kinetic)))
    }

    fn energy_at(&self, p: Scalar, kinetic: Scalar, gamma: Scalar) -> Scalar {
        w(f(p) / (f(gamma) - 1.0) + f(kinetic))
    }

    fn wave_speed(
        &self,
        q: Prim,
        inverse_dz: Scalar,
        inverse_dr: Scalar,
        gamma: Scalar,
    ) -> Scalar {
        let a = (d(gamma) * d(q.p) / d(q.rho)).sqrt();
        s((d(q.uz).abs() + a) * d(inverse_dz) + (d(q.ur).abs() + a) * d(inverse_dr))
    }

    fn add_square(&self, sum: Scalar, a: Scalar, b: Scalar) -> Scalar {
        let off = d(b) - d(a);
        s(d(sum) + off * off)
    }

    fn root(&self, x: Scalar) -> Scalar {
        s(d(x).sqrt())
    }
}

impl SensorMath for Native {
    fn shock_limit(&self, p: Scalar) -> Scalar {
        w(0.7 * f(p))
    }

    fn entry_limit(&self, p: Scalar) -> Scalar {
        w(1.5 * f(p))
    }

    fn damping(
        &self,
        dt: Scalar,
        ambient: Ambient,
        gamma: Scalar,
        entry: Scalar,
        edge: Scalar,
        r_center: Scalar,
    ) -> Scalar {
        let a = (f(gamma) * f(ambient.t)).sqrt();
        let depth = f(edge) - f(entry);
        let peak = 12.0 * a / depth;
        let share = (f(r_center) - f(entry)) / depth;
        w(f(dt) * peak * share * share)
    }

    fn relax(&self, u: Cons, target: Cons, strength: Scalar) -> Cons {
        cons(zip(co(u), co(target), |a, t| a - f(strength) * (a - t)))
    }
}

impl LedgerMath for Native {
    fn credit(&self, balance: Scalar, amount: Scalar, volume: Scalar) -> Scalar {
        s(d(balance) + d(amount) * d(volume))
    }

    fn debit(&self, balance: Scalar, amount: Scalar, volume: Scalar) -> Scalar {
        s(d(balance) - d(amount) * d(volume))
    }
}

impl MachMath for Native {
    fn off_one(&self, ratio: Scalar) -> Scalar {
        s((d(ratio) - 1.0).abs())
    }

    fn sonic_part(&self, gamma: Scalar) -> Scalar {
        s(2.0 / (d(gamma) + 1.0))
    }

    fn rest_of_one(&self, part: Scalar) -> Scalar {
        s(1.0 - d(part))
    }

    fn subsonic_ratio(&self, ratio: Scalar) -> Scalar {
        s(d(ratio) * d(ratio))
    }

    fn supersonic_ratio(&self, ratio: Scalar, part: Scalar, rest: Scalar) -> Scalar {
        s(d(ratio).powf(2.0 * d(rest) / d(part)))
    }

    fn newton_seed(&self, p: Scalar, q: Scalar, scaled: Scalar) -> Scalar {
        let a = d(p).powf(1.0 / d(q));
        let r = (d(scaled) - 1.0) / (2.0 * a);
        s(1.0 / ((1.0 + r) + (r * (r + 2.0)).sqrt()))
    }

    fn newton_step(&self, x: Scalar, p: Scalar, q: Scalar, scaled: Scalar) -> Scalar {
        let (x, e, rr) = (d(x), 1.0 / d(q), d(scaled));
        let b = d(p) + d(q) * x;
        s(x - (b.powf(e) - rr * x) / (b.powf(e - 1.0) - rr))
    }

    fn subsonic_mach(&self, x: Scalar) -> Scalar {
        s(d(x).sqrt())
    }

    fn supersonic_mach(&self, x: Scalar) -> Scalar {
        s(1.0 / d(x).sqrt())
    }

    fn area_at(&self, mach: Scalar, gamma: Scalar) -> Scalar {
        let (m, g) = (d(mach), d(gamma));
        let e = (g + 1.0) / (2.0 * (g - 1.0));
        s((1.0 / m) * ((2.0 / (g + 1.0)) * (1.0 + 0.5 * (g - 1.0) * m * m)).powf(e))
    }

    fn midpoint(&self, lo: Scalar, hi: Scalar) -> Scalar {
        s(0.5 * (d(lo) + d(hi)))
    }
}

impl NozzleMath for Native {
    fn add_open_row(
        &self,
        area: Scalar,
        fraction: Scalar,
        r_center: Scalar,
        dr: Scalar,
    ) -> Scalar {
        s(d(area) + (1.0 - d(fraction)) * d(r_center) * d(dr))
    }

    fn open_radius(&self, area: Scalar) -> Scalar {
        s((2.0 * d(area)).sqrt())
    }

    fn expansion_mach(&self, p: Scalar, chamber: Chamber, gamma: Scalar) -> Scalar {
        let g = d(gamma);
        s((2.0 / (g - 1.0) * ((d(chamber.p0) / d(p)).powf((g - 1.0) / g) - 1.0)).sqrt())
    }

    fn stream_temperature(&self, mach: Scalar, chamber: Chamber, gamma: Scalar) -> Scalar {
        s(d(chamber.t0) / (1.0 + 0.5 * (d(gamma) - 1.0) * d(mach) * d(mach)))
    }

    fn departure(&self, a: Scalar, b: Scalar) -> Scalar {
        s((d(a) - d(b)).abs())
    }

    fn temperature_tolerance(&self, t: Scalar) -> Scalar {
        s(1e-3 * d(t))
    }

    fn isentropic_stream(&self, mach: Scalar, chamber: Chamber, gamma: Scalar) -> Stream {
        let (m, g, t0) = (d(mach), d(gamma), d(chamber.t0));
        let t = t0 / (1.0 + 0.5 * (g - 1.0) * m * m);
        let p = d(chamber.p0) * (t / t0).powf(g / (g - 1.0));
        Stream { rho: s(p / t), u: s(m * (g * t).sqrt()), p: s(p) }
    }

    fn area_ratio(&self, r: Scalar, r_throat: Scalar) -> Scalar {
        s((d(r) / d(r_throat)).powi(2))
    }

    fn blend(&self, k: usize, exit: Stream, rho: Scalar, p: Scalar) -> Stream {
        let t = k as f64 / 5.0;
        Stream {
            rho: s((1.0 - t) * d(exit.rho) + t * d(rho)),
            u: s((1.0 - t) * d(exit.u)),
            p: s((1.0 - t) * d(exit.p) + t * d(p)),
        }
    }
}

impl ReportMath for Native {
    fn exit_ring(&self, r_center: Scalar, dr: Scalar) -> Scalar {
        s(2.0 * std::f64::consts::PI * d(r_center) * d(dr))
    }

    fn add_flow(&self, sum: Scalar, rho: Scalar, u: Scalar, area: Scalar) -> Scalar {
        s(d(sum) + d(rho) * d(u) * d(area))
    }

    fn add_thrust(
        &self,
        sum: Scalar,
        rho: Scalar,
        u: Scalar,
        p: Scalar,
        p_ambient: Scalar,
        area: Scalar,
    ) -> Scalar {
        s(d(sum) + (d(rho) * d(u) * d(u) + d(p) - d(p_ambient)) * d(area))
    }

    fn stream_mach(&self, uz: Scalar, ur: Scalar, sound: Scalar) -> Scalar {
        s((d(uz) * d(uz) + d(ur).powi(2)).sqrt() / d(sound))
    }

    fn add_weighted(&self, sum: Scalar, value: Scalar, area: Scalar) -> Scalar {
        s(d(sum) + d(value) * d(area))
    }

    fn add_ring(&self, sum: Scalar, area: Scalar) -> Scalar {
        s(d(sum) + d(area))
    }

    fn ratio_of(&self, a: Scalar, b: Scalar) -> Scalar {
        s(d(a) / d(b))
    }

    fn circle_area(&self, r: Scalar) -> Scalar {
        s(std::f64::consts::PI * d(r) * d(r))
    }

    fn flow_in_si(&self, flow: Scalar, refs: RefScales) -> Scalar {
        s(d(flow) * d(refs.rho_kg_m3) * d(refs.u_m_s) * d(refs.l_m) * d(refs.l_m))
    }

    fn force_in_si(&self, force: Scalar, refs: RefScales) -> Scalar {
        s(d(force) * (d(refs.p_pa) * d(refs.l_m) * d(refs.l_m)))
    }

    fn pressure_in_si(&self, p: Scalar, refs: RefScales) -> Scalar {
        s(d(p) * d(refs.p_pa))
    }

    fn characteristic_velocity(
        &self,
        throat_area: Scalar,
        flow_si: Scalar,
        refs: RefScales,
    ) -> Scalar {
        let area_si = d(throat_area) * d(refs.l_m) * d(refs.l_m);
        s(d(refs.p_pa) * area_si / d(flow_si))
    }

    fn ideal_velocity(&self, gas: GasModel, refs: RefScales) -> Scalar {
        let g = d(gas.gamma);
        s((g * d(gas.r_specific_si) * d(refs.t_k)).sqrt()
            / (g * (2.0 / (g + 1.0)).powf((g + 1.0) / (2.0 * (g - 1.0)))))
    }

    fn separation_limit(&self, mach: Scalar) -> Scalar {
        s((1.88 * d(mach) - 1.0).powf(-0.64))
    }
}

impl MonitorMath for Native {
    fn window_time_for(&self, lz: Scalar, gamma: Scalar) -> Scalar {
        s(0.5 * d(lz) / reference_speed(d(gamma)))
    }

    fn sample_interval(&self, window_time: Scalar) -> Scalar {
        s(d(window_time) / SAMPLES_PER_WINDOW as f64)
    }

    fn plus(&self, a: Scalar, b: Scalar) -> Scalar {
        s(d(a) + d(b))
    }

    fn window_mean(&self, sum: Scalar) -> Scalar {
        s(d(sum) / SAMPLES_PER_WINDOW as f64)
    }

    fn distance(&self, a: Scalar, b: Scalar) -> Scalar {
        s((d(b) - d(a)).abs())
    }

    fn quotient(&self, a: Scalar, b: Scalar) -> Scalar {
        s(d(a) / d(b))
    }

    fn half(&self, x: Scalar) -> Scalar {
        s(0.5 * d(x))
    }
}

/// The fastest signal in a gas expanded from the chamber.
fn reference_speed(gamma: f64) -> f64 {
    (gamma * (gamma + 1.0) / (gamma - 1.0)).sqrt()
}

impl DisplayMath for Native {
    fn in_units(&self, x: Scalar, unit: Scalar) -> Scalar {
        w(f(x) * f(unit))
    }

    fn temperature(&self, p: Scalar, rho: Scalar) -> Scalar {
        w(f(p) / f(rho))
    }

    fn flow_speed(&self, uz: Scalar, ur: Scalar) -> Scalar {
        let (uz, ur) = (f(uz), f(ur));
        w((uz * uz + ur * ur).sqrt())
    }

    fn speed_ratio(&self, speed: Scalar, sound: Scalar) -> Scalar {
        w(f(speed) / f(sound))
    }

    fn gradient(
        &self,
        z_lo: Scalar,
        z_hi: Scalar,
        dz: Scalar,
        r_lo: Scalar,
        r_hi: Scalar,
        dr: Scalar,
    ) -> Scalar {
        let gz = (f(z_hi) - f(z_lo)) / (2.0 * f(dz));
        let gr = (f(r_hi) - f(r_lo)) / (2.0 * f(dr));
        w((gz * gz + gr * gr).sqrt())
    }

    fn relative(&self, value: Scalar, peak: Scalar) -> Scalar {
        w(f(value) / f(peak))
    }

    fn seconds(&self, time: Scalar, refs: RefScales) -> Scalar {
        s(d(time) * d(refs.time_s))
    }
}

impl ForceMath for Native {
    fn ring_area(&self, r: Scalar, width: Scalar) -> Scalar {
        s(2.0 * std::f64::consts::PI * d(r) * d(width))
    }

    fn add_push(&self, sum: Scalar, push: Scalar, area: Scalar) -> Scalar {
        s(d(sum) + d(push) * d(area))
    }

    fn add_area(&self, sum: Scalar, area: Scalar) -> Scalar {
        s(d(sum) + d(area))
    }
}

/// Density, pressure and speed of sound of an isentropic stream from the chamber.
fn isentropic(m: f64, g: f64) -> (f64, f64, f64) {
    let t = 1.0 / (1.0 + 0.5 * (g - 1.0) * m * m);
    let p = t.powf(g / (g - 1.0));
    (p / t, p, (g * t).sqrt())
}

impl MockMath for Native {
    fn exit_pressure(&self, mach: Scalar, gamma: Scalar) -> Scalar {
        s(isentropic(d(mach), d(gamma)).1)
    }

    fn exit_velocity(&self, mach: Scalar, gamma: Scalar) -> Scalar {
        s(d(mach) * isentropic(d(mach), d(gamma)).2)
    }

    fn front(&self, z_lip: Scalar, velocity: Scalar, time: Scalar) -> Scalar {
        s(d(z_lip) + d(velocity) * d(time))
    }

    fn bore_state(
        &self,
        mach: Scalar,
        r: Scalar,
        r_wall: Scalar,
        r_next: Scalar,
        dz: Scalar,
        gamma: Scalar,
    ) -> Prim {
        let (rho, p, a) = isentropic(d(mach), d(gamma));
        let u = d(mach) * a;
        let slope = (d(r_next) - d(r_wall)) / d(dz);
        let v = u * slope * (d(r) / d(r_wall)).clamp(0.0, 1.0);
        prim([rho as f32, u as f32, v as f32, p as f32])
    }

    fn plume(
        &self,
        z: Scalar,
        z_lip: Scalar,
        lz: Scalar,
        exit: Exit,
        p_ambient: Scalar,
    ) -> Plume {
        let (past, r_e, p_a) = (d(z) - d(z_lip), d(exit.radius), d(p_ambient));
        let npr = (d(exit.pressure) / p_a).clamp(0.05, 400.0);
        let disk = (0.67 * (1.0 / p_a).sqrt() * 2.0 * r_e)
            .max(2.0 * r_e)
            .min(0.9 * (d(lz) - d(z_lip)));
        let t = (past / disk).clamp(0.0, 1.0);
        let fatness = 1.0 + 0.9 * (npr.powf(0.25) - 1.0).clamp(-0.5, 1.2);
        let edge = r_e * (1.0 + (fatness - 1.0) * (4.0 * t * (1.0 - t)).sqrt());
        Plume { past_lip: s(past), disk: s(disk), edge: s(edge), core: s(0.4 * r_e) }
    }

    fn core_state(&self, r: Scalar, plume: Plume, p_ambient: Scalar, gamma: Scalar) -> Prim {
        let m = 0.35 * (1.0 - 0.4 * (d(r) / d(plume.edge)).powi(2));
        let (rho, p_i, a) = isentropic(m, d(gamma));
        let p = d(p_ambient).max(p_i);
        prim([(rho * p / p_i) as f32, (m * a) as f32, 0.0, p as f32])
    }

    fn plume_state(
        &self,
        r: Scalar,
        plume: Plume,
        exit: Exit,
        p_ambient: Scalar,
        time: Scalar,
        gamma: Scalar,
    ) -> Prim {
        let (r, r_b, r_e) = (d(r), d(plume.edge), d(exit.radius));
        let (p_e, p_a, m_e) = (d(exit.pressure), d(p_ambient), d(exit.mach));
        let npr = (p_e / p_a).clamp(0.05, 400.0);
        let t = (d(plume.past_lip) / d(plume.disk)).clamp(0.0, 1.0);
        let core = 1.0 - 0.4 * (r / r_b).powi(2);
        let m_c = m_e + (2.2 * npr.powf(0.15) - 1.0).max(0.2) * t;
        let m = (m_c * core).max(0.2);
        let (rho, p_i, a) = isentropic(m, d(gamma));
        let cell = 1.3 * r_e * (m_e * m_e - 1.0).max(0.1).sqrt();
        let phase = 0.4 * (0.6 * d(time)).sin();
        let cells = 1.0
            + 0.28
                * (-1.5 * t).exp()
                * (2.0 * std::f64::consts::PI * d(plume.past_lip) / cell + phase).sin();
        let p = (p_e * (1.0 - t) + p_a * t) * cells;
        let u = m * a;
        let v = u * (r / r_b) * 0.12 * (npr.powf(0.2)).clamp(0.5, 2.5) * (1.0 - t);
        prim([(rho * p / p_i) as f32, u as f32, v as f32, p as f32])
    }

    fn settling(&self, time: Scalar, since: Scalar) -> Scalar {
        s((-(d(time) - d(since))).exp())
    }

    fn choked_flow(&self, throat_area: Scalar, gamma: Scalar) -> Scalar {
        let g = d(gamma);
        let flow = g.sqrt() * (2.0 / (g + 1.0)).powf((g + 1.0) / (2.0 * (g - 1.0)));
        s(flow * d(throat_area))
    }

    fn preview_thrust(
        &self,
        flow: Scalar,
        velocity: Scalar,
        p: Scalar,
        p_ambient: Scalar,
        area: Scalar,
    ) -> Scalar {
        s(d(flow) * d(velocity) + (d(p) - d(p_ambient)) * d(area))
    }
}

impl SolverMath for Native {
    fn time_step(&self, cfl: Scalar, wave_speed: Scalar) -> Scalar {
        w(f(cfl) / f(wave_speed))
    }
}

// ---- helpers --------------------------------------------------------------

const M: Native = Native;
const GAMMA: f32 = 1.4;

type Four32 = [f32; 4];

fn uniform(nz: usize, nr: usize, dz: f32, dr: f32) -> Grid {
    Grid::uniform(&M, nz, nr, w(dz), w(dr))
}

fn from_edges(z: Vec<f64>, r: Vec<f64>) -> Result<Grid, CfdError> {
    let z: Vec<Scalar> = z.into_iter().map(s).collect();
    let r: Vec<Scalar> = r.into_iter().map(s).collect();
    Grid::from_edges(&M, z, r)
}

fn wall_z(q: Four32, sgn: f32, gamma: f32) -> Four32 {
    let side = if sgn > 0.0 { Side::Low } else { Side::High };
    co(wall_flux_z(&M, prim(q), side, w(gamma)))
}

fn wall_r(q: Four32, sgn: f32, gamma: f32) -> Four32 {
    let side = if sgn > 0.0 { Side::Low } else { Side::High };
    co(wall_flux_r(&M, prim(q), side, w(gamma)))
}

fn hllc(l: Four32, r: Four32, gamma: f32) -> Four32 {
    co(hllc_flux(&M, prim(l), prim(r), w(gamma)))
}

fn hll(l: Four32, r: Four32, gamma: f32) -> Four32 {
    co(hll_flux(&M, prim(l), prim(r), w(gamma)))
}

fn four<T: Copy>(x: [T; 4]) -> Four<T> {
    Four { a: x[0], b: x[1], c: x[2], d: x[3] }
}

fn even_spacing() -> FaceGeom {
    FaceGeom { x0: w(0.0), x1: w(1.0), x2: w(2.0), x3: w(3.0), face: w(1.5) }
}

fn muscl(
    cells: [Four32; 4],
    solid: [bool; 4],
    recon: Reconstruction,
    lim: Limiter,
) -> (Four32, Four32) {
    let q = four([prim(cells[0]), prim(cells[1]), prim(cells[2]), prim(cells[3])]);
    let (l, r) = muscl_face_states(&M, q, four(solid), even_spacing(), recon, lim);
    (pr(l), pr(r))
}

fn gas() -> GasModel {
    GasModel { gamma: w(1.4), r_specific_si: s(287.0) }
}

fn chamber() -> Chamber {
    Chamber { p0: w(1.0), t0: w(1.0) }
}

fn ambient() -> Ambient {
    Ambient { p: w(0.02), t: w(0.6) }
}

fn plain() -> Numerics {
    Numerics { quasi1d_init: false, ..Numerics::default() }
}

fn numerics(geometry: Geometry) -> Numerics {
    Numerics { geometry, quasi1d_init: false, sponge_cells: 0, ..Numerics::default() }
}

fn no_solid(g: &Grid) -> Vec<bool> {
    vec![false; g.glen()]
}

fn ambient_cons(a: &Ambient, gm: f32) -> Four32 {
    to_cons([f(a.p) / f(a.t), 0.0, 0.0, f(a.p)], gm)
}

fn filled_grid(g: &Grid, fill: impl Fn(usize, usize) -> Four32, gm: f32) -> Vec<Cons> {
    let mut u = vec![cons([0.0; 4]); g.glen()];
    for ir in 0..g.nr {
        for iz in 0..g.nz {
            u[g.gidx(iz as isize, ir as isize)] = cons(to_cons(fill(iz, ir), gm));
        }
    }
    u
}

fn ghosts(u: &mut Vec<Cons>, g: &Grid, a: Ambient) {
    fill_ghosts(&M, u, g, &no_solid(g), gas(), chamber(), a, &plain());
}

/// Deterministic pseudo-random numbers.
struct Rng(u64);

impl Rng {
    fn next(&mut self) -> f32 {
        self.0 = self.0.wrapping_mul(6364136223846793005).wrapping_add(1442695040888963407);
        ((self.0 >> 40) & 0xFF_FFFF) as f32 / 16_777_216.0
    }

    fn range(&mut self, lo: f32, hi: f32) -> f32 {
        lo + (hi - lo) * self.next()
    }
}

fn refs_from_chamber(r_t_m: f64, p0_pa: f64, t0_k: f64, gas: &GasModel) -> RefScales {
    let rho0 = p0_pa / (d(gas.r_specific_si) * t0_k);
    let u = (p0_pa / rho0).sqrt();
    RefScales {
        l_m: s(r_t_m),
        p_pa: s(p0_pa),
        rho_kg_m3: s(rho0),
        u_m_s: s(u),
        t_k: s(t0_k),
        time_s: s(r_t_m / u),
    }
}

// ---- flux and reconstruction ----------------------------------------------

/// Star state of the exact Riemann problem by Newton on the pressure function.
fn exact_star(rl: f64, ul: f64, pl: f64, rr: f64, ur: f64, p_r: f64, g: f64) -> (f64, f64) {
    let al = (g * pl / rl).sqrt();
    let ar = (g * p_r / rr).sqrt();
    let wave = |p: f64, rk: f64, pk: f64, ak: f64| -> (f64, f64) {
        if p > pk {
            let a_k = 2.0 / ((g + 1.0) * rk);
            let b_k = (g - 1.0) / (g + 1.0) * pk;
            let q = (a_k / (p + b_k)).sqrt();
            ((p - pk) * q, q * (1.0 - (p - pk) / (2.0 * (p + b_k))))
        } else {
            let ratio = p / pk;
            (
                2.0 * ak / (g - 1.0) * (ratio.powf((g - 1.0) / (2.0 * g)) - 1.0),
                1.0 / (rk * ak) * ratio.powf(-(g + 1.0) / (2.0 * g)),
            )
        }
    };
    let mut p = 0.5 * (pl + p_r);
    for _ in 0..60 {
        let (fl, dl) = wave(p, rl, pl, al);
        let (fr, dr) = wave(p, rr, p_r, ar);
        let step = (fl + fr + (ur - ul)) / (dl + dr);
        p -= step;
        if step.abs() < 1e-14 * p {
            break;
        }
    }
    let (fl, _) = wave(p, rl, pl, al);
    let (fr, _) = wave(p, rr, p_r, ar);
    let u = 0.5 * (ul + ur) + 0.5 * (fr - fl);
    (p, u)
}

const P_STAR: f64 = 0.3031301781;
const U_STAR: f64 = 0.9274526200;
const RHO_STAR_L: f64 = 0.4263194282;
const RHO_STAR_R: f64 = 0.2655737117;
const SHOCK_SPEED: f64 = 1.7521557320;

#[test]
fn exact_riemann_reproduces_sod_reference() {
    let (p, u) = exact_star(1.0, 0.0, 1.0, 0.125, 0.0, 0.1, 1.4);
    assert!((p - P_STAR).abs() < 1e-9, "p* = {p}");
    assert!((u - U_STAR).abs() < 1e-9, "u* = {u}");
    let rsl = 1.0 * (p / 1.0_f64).powf(1.0 / 1.4);
    let gr = (1.4 - 1.0) / (1.4 + 1.0);
    let rsr = 0.125 * ((p / 0.1 + gr) / (gr * p / 0.1 + 1.0));
    assert!((rsl - RHO_STAR_L).abs() < 1e-9, "rho*_L = {rsl}");
    assert!((rsr - RHO_STAR_R).abs() < 1e-9, "rho*_R = {rsr}");
}

#[test]
fn hllc_resolves_sod_star_contact_exactly() {
    let ql = [RHO_STAR_L as f32, U_STAR as f32, 0.0, P_STAR as f32];
    let qr = [RHO_STAR_R as f32, U_STAR as f32, 0.0, P_STAR as f32];
    let flux = hllc(ql, qr, 1.4);
    let e = P_STAR / 0.4 + 0.5 * RHO_STAR_L * U_STAR * U_STAR;
    let expect = [
        RHO_STAR_L * U_STAR,
        RHO_STAR_L * U_STAR * U_STAR + P_STAR,
        0.0,
        U_STAR * (e + P_STAR),
    ];
    for k in 0..4 {
        assert!(
            (flux[k] as f64 - expect[k]).abs() <= 1e-5 * expect[k].abs().max(1.0),
            "component {k}: got {}, want {}",
            flux[k],
            expect[k]
        );
    }
}

#[test]
fn hllc_and_hll_are_consistent_on_uniform_states() {
    let g = 1.4f32;
    for q in [[1.0, 0.0, 0.0, 1.0], [0.7, 2.0, -0.3, 0.4], [2.0, -1.5, 0.2, 3.0]] {
        let fa = exact_flux(q, g);
        for flux in [hllc(q, q, g), hll(q, q, g)] {
            for k in 0..4 {
                assert!((flux[k] - fa[k]).abs() <= 1e-6 * fa[k].abs().max(1.0));
            }
        }
    }
}

#[test]
fn hllc_upwinds_supersonic_states() {
    let g = 1.4f32;
    let ql = [1.0, 3.0, 0.1, 1.0];
    let qr = [0.5, 3.0, 0.0, 0.5];
    let flux = hllc(ql, qr, g);
    let fa = exact_flux(ql, g);
    for k in 0..4 {
        assert_eq!(flux[k], fa[k]);
    }
}

#[test]
fn muscl_reproduces_linear_field_exactly() {
    for lim in [Limiter::Minmod, Limiter::VanLeer, Limiter::Unlimited] {
        let mut cells = [[0.0f32; 4]; 4];
        for (i, c) in cells.iter_mut().enumerate() {
            for k in 0..4 {
                c[k] = 1.0 + 0.25 * i as f32 + 0.5 * k as f32;
            }
        }
        let (l, r) = muscl(cells, [false; 4], Reconstruction::Muscl, lim);
        for k in 0..4 {
            let face = 0.5 * (cells[1][k] + cells[2][k]);
            assert_eq!(l[k], face, "{lim:?} left k={k}");
            assert_eq!(r[k], face, "{lim:?} right k={k}");
        }
    }
}

#[test]
fn muscl_degrades_to_first_order_at_walls() {
    let cells = [
        [1.0, 0.0, 0.0, 1.0],
        [2.0, 1.0, 0.0, 2.0],
        [3.0, 2.0, 0.0, 3.0],
        [4.0, 3.0, 0.0, 4.0],
    ];
    let (l, _) =
        muscl(cells, [true, false, false, false], Reconstruction::Muscl, Limiter::Minmod);
    assert_eq!(l, cells[1]);
    let (_, r) =
        muscl(cells, [false, false, false, true], Reconstruction::Muscl, Limiter::Minmod);
    assert_eq!(r, cells[2]);
    let (l, r) = muscl(cells, [false; 4], Reconstruction::FirstOrder, Limiter::Minmod);
    assert_eq!(l, cells[1]);
    assert_eq!(r, cells[2]);
}

#[test]
fn prim_cons_round_trip_to_1e6_relative() {
    let g = w(1.4);
    let states: [Four32; 4] = [
        [1.0, 0.0, 0.0, 2.5],
        [0.125, 0.0, 0.0, 0.25],
        [2.0, 4.0, -1.0, 20.0],
        [1e-4, 1e-5, 2e-5, 3e-4],
    ];
    for u in states {
        let list = compute_primitives(&M, &vec![cons(u)], g);
        let v = co(M.conserved(list[0], g));
        for k in 0..4 {
            let scale = u[k].abs().max(1e-30);
            assert!((v[k] - u[k]).abs() / scale <= 1e-6, "{u:?} -> {v:?}");
        }
    }
}

#[test]
fn minmod_basics() {
    let mm = |a: f32, b: f32| f(minmod(w(a), w(b)));
    assert_eq!(mm(1.0, 2.0), 1.0);
    assert_eq!(mm(-2.0, -1.0), -1.0);
    assert_eq!(mm(1.0, -1.0), 0.0);
    assert_eq!(mm(0.0, 5.0), 0.0);
}

#[test]
fn a_face_that_overshoots_falls_back_to_the_cell_averages() {
    // The unlimited reconstruction of this jump leaves a negative pressure.
    let cells = [
        prim([1.0, 0.0, 0.0, 1.0]),
        prim([1.0, 0.0, 0.0, 0.01]),
        prim([1.0, 0.0, 0.0, 0.01]),
        prim([1.0, 0.0, 0.0, 1.0]),
    ];
    let n = Numerics { limiter: Limiter::Unlimited, ..plain() };
    let (l, _) = muscl_face_states(
        &M,
        four(cells),
        four([false; 4]),
        even_spacing(),
        n.reconstruction,
        n.limiter,
    );
    assert!(f(l.p) < 0.0);
    let (flux, p) =
        fluid_face_flux(&M, four(cells), four([false; 4]), even_spacing(), false, n, w(GAMMA));
    assert_eq!(co(flux), exact_flux(pr(cells[1]), GAMMA));
    assert_eq!(f(p), 0.01);
}

// ---- grid ------------------------------------------------------------------

#[test]
fn uniform_grid_matches_legacy_geometry() {
    let g = uniform(320, 200, 0.1449, 0.05);
    assert_eq!(g.len(), 64_000);
    assert_eq!(g.idx(3, 2), 2 * 320 + 3);
    assert_eq!(g.gidx(-2, -2), 0);
    for ir in 0..g.nr {
        assert!((f(g.r_center(ir)) - (ir as f32 + 0.5) * 0.05).abs() <= 1e-5);
        assert!((f(g.r_face(&M, ir)) - ir as f32 * 0.05).abs() <= 1e-5);
        assert!((f(g.dr(ir)) - 0.05).abs() <= 1e-7);
    }
    assert_eq!(f(g.r_face(&M, 0)), 0.0);
    assert!((f(g.dz_min()) - 0.1449).abs() <= 1e-7);
    assert!((d(g.cell_vol(&M, 0, 0)) - 0.025 * 0.05 * 0.1449).abs() < 1e-9);
    assert!(g.is_uniform());
    assert!(g.clone() == g);
}

#[test]
fn graded_grid_geometry_is_consistent() {
    let g = from_edges(vec![0.0, 1.0, 2.0, 3.5, 5.5], vec![0.0, 0.5, 1.0, 1.8, 3.0]).unwrap();
    assert_eq!((g.nz, g.nr), (4, 4));
    assert_eq!(f(g.dz(2)), 1.5);
    assert_eq!(f(g.dr(3)), 1.2);
    assert_eq!(d(g.lz()), 5.5);
    assert_eq!(d(g.lr()), 3.0);
    assert_eq!(f(g.r_center(2)), 1.4);
    let cv = d(g.r_centroid_g(2));
    let exact = (2.0 / 3.0) * (1.8f64.powi(3) - 1.0) / (1.8f64.powi(2) - 1.0);
    assert!((cv - exact).abs() < 1e-6);
    assert!(cv > 1.4);
    assert_eq!(g.dr_g(-1), g.dr(0));
    assert_eq!(g.dr_g(-2), g.dr(1));
    assert_eq!(f(g.r_center_g(-1)), -f(g.r_center(0)));
    assert_eq!(f(g.r_centroid_g(-2)), -f(g.r_centroid_g(1)));
    assert_eq!(g.dz_g(4), g.dz(3));
    assert_eq!(g.z_cell_at(s(0.2)), 0);
    assert_eq!(g.z_cell_at(s(3.4)), 2);
    assert_eq!(g.z_cell_at(s(99.0)), 3);
    assert_eq!(g.r_cell_at(s(-1.0)), 0);
    let vol = d(g.cell_vol(&M, 1, 2));
    assert!((vol - 0.5 * (1.0 + 1.8) * 0.8 * 1.0).abs() < 1e-12);
    assert!(!g.is_uniform());
}

#[test]
fn from_edges_rejects_bad_input() {
    assert!(from_edges(vec![0.0], vec![0.0, 1.0]).is_err());
    assert!(from_edges(vec![0.5, 1.0], vec![0.0, 1.0]).is_err());
    assert!(from_edges(vec![0.0, 1.0, 1.0], vec![0.0, 1.0]).is_err());
    assert!(from_edges(vec![0.0, 1.0], vec![0.0, f64::NAN]).is_err());
    assert!(from_edges(vec![0.0, 1.0, 2.0], vec![0.0, 1.0]).is_ok());
}

#[test]
fn edge_faults_say_what_is_wrong() {
    let text = |z: Vec<f64>, r: Vec<f64>| from_edges(z, r).err().unwrap().message();
    assert_eq!(text(vec![0.0], vec![0.0, 1.0]), "invalid grid: z_edges has 1 entries");
    assert_eq!(
        text(vec![0.0, 1.0], vec![0.5, 1.0]),
        "invalid grid: r_edges[0] = 0.5 (must be 0)"
    );
    assert_eq!(
        text(vec![0.0, 1.0, 1.0], vec![0.0, 1.0]),
        "invalid grid: z_edges not strictly increasing at 2: 1 -> 1"
    );
}

#[test]
fn neighbours_stay_inside_and_come_in_order() {
    let g = uniform(3, 2, 0.1, 0.1);
    let all = |k: usize| -> Vec<Option<usize>> { (0..4).map(|i| g.neighbour(k, i)).collect() };
    assert_eq!(all(0), vec![None, Some(1), None, Some(3)]);
    assert_eq!(all(4), vec![Some(3), Some(5), Some(1), None]);
}

// ---- forces ----------------------------------------------------------------

fn block(g: &Grid, iz: std::ops::Range<usize>, ir: std::ops::Range<usize>) -> SolidField {
    let mut field = SolidField::empty(g.clone());
    for j in ir {
        for i in iz.clone() {
            field.fraction[g.idx(i, j)] = w(1.0);
        }
    }
    field
}

fn everything(_: usize) -> bool {
    true
}

#[test]
fn quiescent_pressure_gives_zero_net_force() {
    let g = uniform(20, 12, 0.1, 0.1);
    let solid = block(&g, 5..11, 3..7);
    let q = vec![prim([1.0, 0.0, 0.0, 1.0]); g.len()];
    let force = surface_pressure_force(&M, &q, &solid, gas(), Geometry::Planar, everything);
    assert_eq!(force.faces, 2 * 4 + 2 * 6, "perimeter faces");
    assert!(d(force.f_z).abs() < 1e-12, "f_z = {}", d(force.f_z));
    assert!(d(force.f_r).abs() < 1e-12, "f_r = {}", d(force.f_r));
    let expect = 2.0 * 6.0 * 0.1 + 2.0 * 4.0 * 0.1;
    assert!((d(force.area) - expect).abs() / expect < 1e-6, "{} vs {expect}", d(force.area));
}

#[test]
fn pressure_difference_gives_the_projected_force() {
    let g = uniform(20, 12, 0.1, 0.1);
    let solid = block(&g, 5..11, 3..7);
    let mut q = vec![prim([1.0, 0.0, 0.0, 1.0]); g.len()];
    for ir in 0..g.nr {
        for iz in 0..5 {
            q[g.idx(iz, ir)] = prim([1.0, 0.0, 0.0, 2.0]);
        }
    }
    let force = surface_pressure_force(&M, &q, &solid, gas(), Geometry::Planar, everything);
    assert!((d(force.f_z) - (2.0 - 1.0) * 0.4).abs() < 1e-6, "f_z = {}", d(force.f_z));
    assert!(d(force.f_r).abs() < 1e-6, "f_r = {}", d(force.f_r));
}

#[test]
fn corner_contact_is_two_bodies() {
    let g = uniform(12, 12, 0.1, 0.1);
    let mut solid = SolidField::empty(g.clone());
    for (iz, ir) in [(3, 3), (3, 4), (4, 3), (5, 5), (5, 6), (6, 6)] {
        solid.fraction[g.idx(iz, ir)] = w(1.0);
    }
    let b = label_bodies(&solid);
    assert_eq!(b.count(), 2);
    assert_eq!(b.cells(0), 3);
    assert_eq!(b.cells(1), 3);
    assert_eq!(b.label(g.idx(3, 3)), Some(0));
    assert_eq!(b.label(g.idx(5, 5)), Some(1));
    assert_eq!(b.label(g.idx(0, 0)), None);
}

#[test]
fn per_body_selection_isolates_one_component() {
    let g = uniform(24, 12, 0.1, 0.1);
    let mut solid = SolidField::empty(g.clone());
    for iz in 3..6 {
        solid.fraction[g.idx(iz, 5)] = w(1.0);
    }
    for iz in 15..18 {
        solid.fraction[g.idx(iz, 5)] = w(1.0);
    }
    let bodies = label_bodies(&solid);
    assert_eq!(bodies.count(), 2);
    let mut q = vec![prim([1.0, 0.0, 0.0, 1.0]); g.len()];
    for ir in 0..g.nr {
        for iz in 0..15 {
            q[g.idx(iz, ir)] = prim([1.0, 0.0, 0.0, 3.0]);
        }
    }
    let f0 =
        surface_pressure_force(&M, &q, &solid, gas(), Geometry::Planar, bodies.selector(0));
    let f1 =
        surface_pressure_force(&M, &q, &solid, gas(), Geometry::Planar, bodies.selector(1));
    assert!(d(f0.f_z).abs() < 1e-6, "body 0 sits in uniform pressure: {}", d(f0.f_z));
    assert!((d(f1.f_z) - (3.0 - 1.0) * 0.1).abs() < 1e-6, "body 1 f_z = {}", d(f1.f_z));
    let all = surface_pressure_force(&M, &q, &solid, gas(), Geometry::Planar, everything);
    assert_eq!(all.faces, f0.faces + f1.faces);
}

#[test]
fn axisymmetric_areas_use_the_right_radius() {
    let g = uniform(10, 10, 0.1, 0.1);
    let mut solid = SolidField::empty(g.clone());
    solid.fraction[g.idx(5, 4)] = w(1.0);
    let q = vec![prim([1.0, 0.0, 0.0, 1.0]); g.len()];
    let force =
        surface_pressure_force(&M, &q, &solid, gas(), Geometry::Axisymmetric, everything);
    let tp = 2.0 * std::f64::consts::PI;
    let expect = 2.0 * tp * 0.45 * 0.1 + tp * 0.4 * 0.1 + tp * 0.5 * 0.1;
    assert!((d(force.area) - expect).abs() / expect < 1e-6, "{} vs {}", d(force.area), expect);
    assert!(d(force.f_z).abs() < 1e-12);
    assert!((d(force.f_r) + tp * 0.1 * (0.5 - 0.4)).abs() < 1e-6, "f_r = {}", d(force.f_r));
}

#[test]
fn bodies_come_largest_first() {
    let g = uniform(10, 4, 0.1, 0.1);
    let mut solid = SolidField::empty(g.clone());
    for (iz, ir) in [(0, 0), (3, 1), (4, 1), (5, 1), (8, 3), (9, 3)] {
        solid.fraction[g.idx(iz, ir)] = w(0.5);
    }
    let b = label_bodies(&solid);
    assert_eq!(b.by_size(), vec![1, 2, 0]);
    assert_eq!(b.cells(7), 0);
    assert_eq!(SurfaceForce::default().faces, 0);
}

// ---- sweeps and updates ------------------------------------------------------

/// Fills the ghost band with the nearest interior state.
fn fill_transmissive(u: &mut Vec<Cons>, g: &Grid) {
    let (nz, nr) = (g.nz as isize, g.nr as isize);
    for ir in 0..nr {
        let first = u[g.gidx(0, ir)];
        let last = u[g.gidx(nz - 1, ir)];
        for k in 1..=NG as isize {
            u[g.gidx(-k, ir)] = first;
            u[g.gidx(nz - 1 + k, ir)] = last;
        }
    }
    for k in 1..=NG as isize {
        for iz in -(NG as isize)..nz + NG as isize {
            let low = u[g.gidx(iz, 0)];
            u[g.gidx(iz, -k)] = low;
            let high = u[g.gidx(iz, nr - 1)];
            u[g.gidx(iz, nr - 1 + k)] = high;
        }
    }
}

fn uniform_state(g: &Grid, q: Four32) -> Vec<Cons> {
    vec![cons(to_cons(q, GAMMA)); g.glen()]
}

fn sweep_both(u: &Vec<Cons>, g: &Grid, n: Numerics) -> Vec<Cons> {
    let q = compute_primitives(&M, u, w(GAMMA));
    let solid = no_solid(g);
    let mask = no_solid(g);
    let mut rhs = vec![cons([0.0; 4]); g.glen()];
    sweep_z(&M, &q, &solid, g, n, w(GAMMA), &mut rhs);
    sweep_r(&M, &q, &solid, &mask, g, n, w(GAMMA), &mut rhs);
    rhs
}

fn assert_quiet(rhs: &[Cons], g: &Grid) {
    for ir in 0..g.nr {
        for iz in 0..g.nz {
            let c = co(rhs[g.gidx(iz as isize, ir as isize)]);
            assert_eq!(c, [0.0; 4], "rhs at ({iz},{ir}) = {c:?}");
        }
    }
}

#[test]
fn primitives_round_trip() {
    let g = uniform(4, 3, 0.1, 0.1);
    let q = [0.7, 1.3, -0.4, 0.9];
    let list = compute_primitives(&M, &uniform_state(&g, q), w(GAMMA));
    assert_eq!(list.len(), g.glen());
    for c in &list {
        let c = pr(*c);
        for k in 0..4 {
            assert!((c[k] - q[k]).abs() <= 1e-6 * q[k].abs().max(1.0));
        }
    }
}

#[test]
fn wave_speed_matches_hand_value() {
    let g = uniform(4, 3, 0.5, 0.25);
    let q = compute_primitives(&M, &uniform_state(&g, [1.0, 2.0, -1.0, 1.0]), w(GAMMA));
    let a = (GAMMA as f64).sqrt();
    let expect = (2.0 + a) / 0.5 + (1.0 + a) / 0.25;
    let got = d(max_wave_speed(&M, &q, &no_solid(&g), &g, w(GAMMA)));
    assert!((got - expect).abs() <= 1e-5 * expect, "got {got}, want {expect}");
}

#[test]
fn wave_speed_skips_solid_cells() {
    let g = uniform(4, 3, 0.5, 0.25);
    let mut q = compute_primitives(&M, &uniform_state(&g, [1.0, 2.0, -1.0, 1.0]), w(GAMMA));
    let mut solid = no_solid(&g);
    let hot = g.gidx(1, 1);
    q[hot] = prim([1.0, 1000.0, 0.0, 1.0]);
    solid[hot] = true;
    let a = (GAMMA as f64).sqrt();
    let expect = (2.0 + a) / 0.5 + (1.0 + a) / 0.25;
    let got = d(max_wave_speed(&M, &q, &solid, &g, w(GAMMA)));
    assert!((got - expect).abs() <= 1e-5 * expect, "got {got}, want {expect}");
}

#[test]
fn uniform_stream_gives_zero_rhs_planar() {
    let g = uniform(8, 6, 0.1, 0.07);
    let u = uniform_state(&g, [1.0, 0.3, 0.2, 1.0]);
    assert_quiet(&sweep_both(&u, &g, numerics(Geometry::Planar)), &g);
}

#[test]
fn quiescent_axisymmetric_rhs_is_bitwise_zero() {
    let g = uniform(8, 6, 0.1, 0.1);
    let u = uniform_state(&g, [1.0, 0.0, 0.0, 1.0]);
    assert_quiet(&sweep_both(&u, &g, numerics(Geometry::Axisymmetric)), &g);
}

#[test]
fn uniform_axial_flow_axisymmetric_rhs_is_bitwise_zero() {
    let g = uniform(8, 6, 0.1, 0.1);
    let u = uniform_state(&g, [1.0, 2.0, 0.0, 1.0]);
    assert_quiet(&sweep_both(&u, &g, numerics(Geometry::Axisymmetric)), &g);
}

#[test]
fn accumulate_and_accumulate2_respect_solid_and_ghosts() {
    let g = uniform(4, 3, 0.1, 0.1);
    let u0 = uniform_state(&g, [1.0, 1.0, 0.0, 1.0]);
    let mut rhs = vec![cons([0.0; 4]); g.glen()];
    let mut solid = no_solid(&g);
    let a = g.gidx(1, 1);
    let b = g.gidx(2, 1);
    rhs[a] = cons([1.0, 2.0, 3.0, 4.0]);
    rhs[b] = cons([1.0, 1.0, 1.0, 1.0]);
    solid[b] = true;
    let dt = 0.5f32;
    let u1 = accumulate(&M, &u0, &rhs, w(dt), &solid);
    for k in 0..4 {
        assert_eq!(co(u1[a])[k], co(u0[a])[k] + dt * co(rhs[a])[k]);
        assert_eq!(co(u1[b])[k], co(u0[b])[k]);
    }
    assert_eq!(u1[g.gidx(-1, -1)], u0[g.gidx(-1, -1)]);
    let u2 = accumulate2(&M, &u0, &u1, &rhs, w(dt), &solid);
    for k in 0..4 {
        let want = 0.5 * (co(u0[a])[k] + co(u1[a])[k] + dt * co(rhs[a])[k]);
        assert_eq!(co(u2[a])[k], want);
        assert_eq!(co(u2[b])[k], co(u0[b])[k]);
    }
}

#[test]
fn positivity_clamps_and_counts() {
    let g = uniform(4, 2, 0.1, 0.1);
    let mut u = uniform_state(&g, [1.0, 0.5, 0.0, 1.0]);
    let healthy = u[g.gidx(0, 0)];
    let neg_p = g.gidx(1, 0);
    let neg_rho = g.gidx(2, 0);
    u[neg_p] = cons([1.0, 0.0, 0.0, -0.5]);
    u[neg_rho] = cons([-1.0, 0.0, 0.0, 2.5]);
    let mut floors = 0u64;
    enforce_positivity(&M, &mut u, w(GAMMA), &mut floors);
    assert_eq!(floors, 2);
    assert_eq!(u[g.gidx(0, 0)], healthy, "healthy cell must be untouched bit-exactly");
    let p_min = f(Scalar { bits: P_MIN_ABS });
    let wp = to_prim(co(u[neg_p]), GAMMA);
    assert!(wp[3] >= p_min * 0.99 && wp[3] <= p_min * 1.01);
    assert_eq!(u[neg_rho].rho.bits, RHO_MIN);
    let before = u.clone();
    let mut floors2 = 0u64;
    enforce_positivity(&M, &mut u, w(GAMMA), &mut floors2);
    assert_eq!(u, before);
}

#[test]
fn wild_momentum_is_stopped_and_counted() {
    let mut u = vec![cons([1.0, f32::NAN, 2.0, 3.0]), cons([1.0, 1.0, 2.0, 30.0])];
    let mut floors = 5u64;
    enforce_positivity(&M, &mut u, w(GAMMA), &mut floors);
    assert_eq!(floors, 6);
    assert_eq!(co(u[0]), [1.0, 0.0, 0.0, 3.0]);
    assert_eq!(co(u[1]), [1.0, 1.0, 2.0, 30.0]);
}

#[test]
fn residual_is_f64_and_skips_solid() {
    let g = uniform(3, 2, 0.1, 0.1);
    let u0 = uniform_state(&g, [1.0, 0.0, 0.0, 1.0]);
    let mut u1 = u0.clone();
    let mut solid = no_solid(&g);
    let a = g.gidx(0, 0);
    let b = g.gidx(1, 0);
    u1[a].rho = w(f(u1[a].rho) + 3e-4);
    u1[b].rho = w(f(u1[b].rho) + 4e-4);
    assert!((d(density_residual_f64(&M, &u0, &u1, &solid)) - 5e-4).abs() < 2e-7);
    solid[b] = true;
    assert!((d(density_residual_f64(&M, &u0, &u1, &solid)) - 3e-4).abs() < 2e-7);
}

#[test]
fn a_cell_below_the_floors_is_redone_to_first_order() {
    let g = uniform(4, 2, 0.1, 0.1);
    let n = numerics(Geometry::Planar);
    let u0 = uniform_state(&g, [1.0, 0.5, 0.0, 1.0]);
    let q = compute_primitives(&M, &u0, w(GAMMA));
    let mut out = u0.clone();
    let bad = g.gidx(2, 1);
    let fine = g.gidx(1, 1);
    out[bad] = cons([-1.0, 0.0, 0.0, 1.0]);
    out[fine] = cons([2.0, 0.0, 0.0, 5.0]);
    redo_first_order(
        &M,
        &mut out,
        &u0,
        None,
        &q,
        &no_solid(&g),
        &no_solid(&g),
        &g,
        n,
        w(GAMMA),
        w(0.01),
    );
    // The stream is uniform, so the redone cell gets its old state back.
    assert_eq!(co(out[bad]), co(u0[bad]));
    assert_eq!(co(out[fine]), [2.0, 0.0, 0.0, 5.0]);
}

fn sod_exact_rho(x: f64, t: f64) -> f64 {
    let g = 1.4f64;
    let a_l = g.sqrt();
    let a_star_l = a_l * P_STAR.powf((g - 1.0) / (2.0 * g));
    let xi = (x - 0.5) / t;
    if xi < -a_l {
        1.0
    } else if xi < U_STAR - a_star_l {
        (2.0 / (g + 1.0) - (g - 1.0) / ((g + 1.0) * a_l) * xi).powf(2.0 / (g - 1.0))
    } else if xi < U_STAR {
        RHO_STAR_L
    } else if xi < SHOCK_SPEED {
        RHO_STAR_R
    } else {
        0.125
    }
}

/// One step of the shock tube: returns the state and the time step.
fn tube_step(u_old: &mut Vec<Cons>, g: &Grid, n: Numerics, floors: &mut u64) -> (Vec<Cons>, f32) {
    let solid = no_solid(g);
    fill_transmissive(u_old, g);
    let q = compute_primitives(&M, u_old, w(GAMMA));
    let dt = f(n.cfl) / f(max_wave_speed(&M, &q, &solid, g, w(GAMMA)));
    let rhs = sweep_both(u_old, g, n);
    let mut u1 = accumulate(&M, u_old, &rhs, w(dt), &solid);
    enforce_positivity(&M, &mut u1, w(GAMMA), floors);
    fill_transmissive(&mut u1, g);
    let rhs = sweep_both(&u1, g, n);
    let mut u_new = accumulate2(&M, u_old, &u1, &rhs, w(dt), &solid);
    enforce_positivity(&M, &mut u_new, w(GAMMA), floors);
    (u_new, dt)
}

fn tube() -> (Grid, Vec<Cons>) {
    let nz = 200usize;
    let g = uniform(nz, 1, 1.0 / nz as f32, 1.0 / nz as f32);
    let mut u = uniform_state(&g, [0.125, 0.0, 0.0, 0.1]);
    for iz in 0..nz / 2 {
        u[g.gidx(iz as isize, 0)] = cons(to_cons([1.0, 0.0, 0.0, 1.0], GAMMA));
    }
    (g, u)
}

/// Runs the shock tube to t >= 0.2; returns the L1 error of the density.
fn run_sod(n: Numerics) -> f64 {
    let (g, mut u_old) = tube();
    let nz = g.nz;
    let mut floors = 0u64;
    let mut t = 0.0f64;
    while t < 0.2 {
        let (u_new, dt) = tube_step(&mut u_old, &g, n, &mut floors);
        u_old = u_new;
        t += dt as f64;
    }
    assert_eq!(floors, 0, "Sod must not trip the positivity floors");
    let mut l1 = 0.0f64;
    let mut rho_max = 0.0f64;
    let mut rv_max = 0.0f64;
    for iz in 0..nz {
        let x = (iz as f64 + 0.5) / nz as f64;
        let wc = to_prim(co(u_old[g.gidx(iz as isize, 0)]), GAMMA);
        l1 += (wc[0] as f64 - sod_exact_rho(x, t)).abs() * d(g.dz(0));
        rho_max = rho_max.max(wc[0] as f64);
        rv_max = rv_max.max((wc[0] as f64 * wc[2] as f64).abs());
    }
    assert!(rho_max <= 1.001, "max rho = {rho_max}");
    assert!(rv_max <= 1e-8, "max|rho*v| = {rv_max}");
    l1
}

#[test]
fn sod_muscl_is_second_order_accurate() {
    let l1 = run_sod(numerics(Geometry::Planar));
    assert!(l1 <= 6.0e-3, "L1(rho) = {l1:.4e}");
}

#[test]
fn sod_first_order_flag_is_honoured() {
    let n =
        Numerics { reconstruction: Reconstruction::FirstOrder, ..numerics(Geometry::Planar) };
    let l1 = run_sod(n);
    assert!(l1 > 6.0e-3 && l1 < 2.5e-2, "first-order L1(rho) = {l1:.4e}");
}

#[test]
fn sod_flux_mode_flags_are_honoured() {
    for fm in [FluxMode::Hll, FluxMode::HllRadial] {
        let l1 = run_sod(Numerics { flux_mode: fm, ..numerics(Geometry::Planar) });
        assert!(l1 <= 8.0e-3, "{fm:?}: L1(rho) = {l1:.4e}");
    }
}

#[test]
fn sod_unlimited_survives() {
    let n = Numerics { limiter: Limiter::Unlimited, ..numerics(Geometry::Planar) };
    let (g, mut u_old) = tube();
    let mut floors = 0u64;
    for _ in 0..50 {
        let (u_new, dt) = tube_step(&mut u_old, &g, n, &mut floors);
        assert!(dt.is_finite() && dt > 0.0);
        u_old = u_new;
    }
    for c in &u_old {
        for x in co(*c) {
            assert!(x.is_finite());
        }
    }
}

// ---- preview solver ----------------------------------------------------------

fn demo_setup() -> SolveSetup {
    let grid = uniform(80, 50, 0.29, 0.1);
    let gas = GasModel { gamma: w(1.24), r_specific_si: s(378.0) };
    let mut solid = SolidField::empty(grid.clone());
    let lip = 30usize;
    for iz in 0..=lip {
        let r_wall = if iz < 10 {
            2.0
        } else if iz < 15 {
            2.0 - 0.2 * (iz - 10) as f32
        } else {
            1.0 + 0.12 * (iz - 15) as f32
        };
        for ir in 0..grid.nr {
            let r = f(grid.r_center(ir));
            if r > r_wall && r < 4.0 {
                solid.fraction[grid.idx(iz, ir)] = w(1.0);
            }
        }
    }
    SolveSetup {
        grid,
        solid,
        gas,
        chamber: chamber(),
        ambient: Ambient { p: w(101325.0 / 5.0e6), t: w(288.15 / 3200.0) },
        numerics: Numerics::default(),
        refs: refs_from_chamber(0.05, 5.0e6, 3200.0, &gas),
    }
}

#[test]
fn mock_produces_a_moving_supersonic_plume() {
    let mut m = MockSolver::new(M, demo_setup()).unwrap();
    m.step().unwrap();
    let early = m.snapshot();
    for _ in 0..200 {
        m.step().unwrap();
    }
    let late = m.snapshot();
    let mach_late = late.field(FieldKind::Mach);
    let mach_early = early.field(FieldKind::Mach);
    let far = late.grid.idx(70, 0);
    assert!(f(mach_late[far]) > 1.0, "no supersonic flow far downstream at t=10");
    assert!(f(mach_early[far]) < f(mach_late[far]), "plume did not advance");
    assert!(f(late.sample(FieldKind::Mach, 30, 0)) > 1.5);
    assert!(f(late.sample(FieldKind::Mach, 2, 0)) < 0.5);
    let p = f(late.sample(FieldKind::Pressure, 2, 0));
    assert!(p > 1.0e6 && p < 5.0e6, "chamber pressure {p} Pa implausible");
    for k in FieldKind::all() {
        let (lo, hi) = late.range(k);
        assert!(lo.is_finite() && hi.is_finite() && f(hi) >= f(lo));
    }
}

#[test]
fn mock_report_matches_quasi_1d_identities() {
    let mut m = MockSolver::new(M, demo_setup()).unwrap();
    for _ in 0..200 {
        m.step().unwrap();
    }
    let r = m.report();
    assert!(r.converged);
    let x = r.figures;
    let r_t = d(x.cells_per_throat_radius) * d(m.setup.grid.dr(0)) * d(m.setup.refs.l_m);
    let a_t_si = std::f64::consts::PI * r_t * r_t;
    assert!((d(x.c_star_m_s) * d(x.mass_flow_kg_s) / (5.0e6 * a_t_si) - 1.0).abs() < 1e-9);
    assert_eq!(d(x.discharge_coefficient), 1.0);
    assert!(d(x.exit_mach) > 1.0 && x.ideal_exit_mach == x.exit_mach);
    assert!(d(x.thrust_coefficient) > 0.5 && d(x.thrust_coefficient) < 2.5);
}

#[test]
fn mock_area_mach_round_trips() {
    for gamma in [1.2f64, 1.24, 1.4] {
        for m in [0.05f64, 0.3, 0.9, 1.5, 3.0, 8.0] {
            let got =
                d(mach_by_bisection(&M, s(area_ratio_of(m, gamma)), s(gamma), m > 1.0));
            assert!((got - m).abs() < 1e-6, "gamma {gamma} M {m} -> {got}");
        }
    }
    assert_eq!(d(mach_by_bisection(&M, s(1.0), s(1.4), true)), 1.0);
}

#[test]
fn mock_settles_and_a_change_starts_it_over() {
    let mut m = MockSolver::new(M, demo_setup()).unwrap();
    let info = m.run(1000).unwrap();
    assert!(info.converged && info.step < 1000);
    assert_eq!(m.report().confidence, Confidence::Valid);
    m.set_ambient(Ambient { p: w(0.5), t: w(0.6) });
    assert!(!m.info.converged);
    assert_eq!(m.report().confidence, Confidence::NotConverged);
    let other = uniform(3, 3, 0.1, 0.1);
    assert!(m.set_geometry(SolidField::empty(other)).is_err());
    m.set_geometry(SolidField::empty(m.setup.grid.clone())).unwrap();
    assert_eq!(pr(m.prim_at(70, 0))[3], 0.5);
    assert!(m.report().figures.thrust_n.is_nan());
    assert_eq!(m.step_count(), info.step);
}

// ---- monitor -----------------------------------------------------------------

fn tol() -> f64 {
    f64::from_bits(CONVERGED_TOL)
}

fn monitor(window: f64) -> PlateauMonitor {
    PlateauMonitor::new(&M, s(window), Scalar { bits: CONVERGED_TOL })
}

fn fire_step(
    m: &mut PlateauMonitor,
    dt: f64,
    n: u64,
    signal: impl Fn(f64) -> f64,
) -> Option<u64> {
    m.reset(&M, s(0.0));
    let mut t = 0.0;
    for step in 1..=n {
        t += dt;
        if m.update(&M, s(t), s(signal(t))) {
            return Some(step);
        }
    }
    None
}

#[test]
fn reference_speed_is_the_isentropic_maximum() {
    for &gamma in &[1.1f64, 1.2, 1.24, 1.4, 1.667] {
        let want = reference_speed(gamma);
        let h0 = gamma / (gamma - 1.0);
        let u_max = (2.0 * h0).sqrt();
        let mut best = 0.0f64;
        for i in 0..=200_000 {
            let u = u_max * i as f64 / 200_000.0;
            let a2 = h0 * (gamma - 1.0) - 0.5 * (gamma - 1.0) * u * u;
            if a2 > 0.0 {
                best = best.max(u + a2.sqrt());
            }
        }
        assert!((want - best).abs() <= 1e-4 * want, "gamma {gamma}: {want} vs {best}");
        assert!(want > gamma.sqrt());
    }
}

#[test]
fn constant_signal_fires_after_exactly_two_windows() {
    let mut m = monitor(1.0);
    let dt = d(m.sample_dt());
    let fired = fire_step(&mut m, dt, 1000, |_| 3.5).unwrap();
    assert_eq!(fired, 2 * SAMPLES_PER_WINDOW as u64);
    assert_eq!(m.windows(), 2);
    assert_eq!(d(m.last_drift()), 0.0);
}

#[test]
fn sampling_is_by_physical_time_not_step_count() {
    let mut coarse = monitor(1.0);
    let mut fine = monitor(1.0);
    let dt = d(coarse.sample_dt()) / 4.0;
    let a = fire_step(&mut coarse, dt * 4.0, 10_000, |_| 1.0).unwrap();
    let b = fire_step(&mut fine, dt, 10_000, |_| 1.0).unwrap();
    assert_eq!(b, 4 * a, "4x the steps for the same physical time");
    assert!(((b as f64 * dt) - (a as f64 * dt * 4.0)).abs() < 1e-12);
}

#[test]
fn coarse_dt_takes_one_sample_per_step() {
    let mut m = monitor(1.0);
    let dt = 10.0 * d(m.sample_dt());
    let fired = fire_step(&mut m, dt, 1000, |_| 2.0).unwrap();
    assert_eq!(fired, 2 * SAMPLES_PER_WINDOW as u64);
}

#[test]
fn limit_cycle_plateaus_on_the_mean_but_never_on_peak_to_peak() {
    let breathing = |t: f64| 1.0 + 0.05 * (t * 7.3).sin();
    let mut m = monitor(1.0);
    let dt = d(m.sample_dt()) / 8.0;
    assert!(fire_step(&mut m, dt, 100_000, breathing).is_some());
    let mut lo = f64::INFINITY;
    let mut hi = f64::NEG_INFINITY;
    for i in 0..100_000 {
        let v = breathing(90_000.0 + i as f64 * dt);
        lo = lo.min(v);
        hi = hi.max(v);
    }
    assert!(hi - lo > tol(), "late-time spread {}", hi - lo);
}

#[test]
fn a_ramp_does_not_fire() {
    let mut m = monitor(1.0);
    let dt = d(m.sample_dt());
    assert_eq!(fire_step(&mut m, dt, 500, |t| 1.0 + 0.1 * t), None);
    let mut m = monitor(1.0);
    let fired = fire_step(&mut m, dt, 100_000, |t| 1.0 - (-t / 20.0).exp()).unwrap();
    assert!(fired > 10 * SAMPLES_PER_WINDOW as u64, "fired at step {fired}");
}

#[test]
fn non_finite_samples_drop_the_window() {
    let mut m = monitor(1.0);
    let dt = d(m.sample_dt());
    assert_eq!(fire_step(&mut m, dt, 1000, |_| f64::NAN), None);
    assert!(m.last_mean().is_none());
    let mut m = monitor(1.0);
    let fired = fire_step(&mut m, dt, 1000, |t| if t < 5.0 { f64::NAN } else { 1.0 });
    assert!(fired.is_some());
}

#[test]
fn verdict_latches_until_reset() {
    let mut m = monitor(1.0);
    let dt = d(m.sample_dt());
    let mut t = 0.0;
    while !m.converged() {
        t += dt;
        m.update(&M, s(t), s(1.0));
    }
    for _ in 0..1000 {
        t += dt;
        assert!(m.update(&M, s(t), s(1.0 + 9.0 * t)));
    }
    m.reset(&M, s(t));
    assert!(!m.converged());
    assert_eq!(m.windows(), 0);
}

#[test]
fn degenerate_window_never_fires() {
    for bad in [0.0, -1.0, f64::NAN, f64::INFINITY] {
        let mut m = monitor(bad);
        assert_eq!(fire_step(&mut m, 1.0, 10_000, |_| 1.0), None, "window {bad}");
    }
}

#[test]
fn window_scales_with_the_domain() {
    let window = |lz: f64| {
        d(PlateauMonitor::for_domain(&M, s(lz), s(1.24), s(tol())).window_time())
    };
    let short = window(46.4);
    let long = window(282.0);
    assert!((long / short - 282.0 / 46.4).abs() < 1e-12);
    assert!((short - 0.5 * 46.4 / reference_speed(1.24)).abs() < 1e-12);
}

#[test]
fn relative_drift_is_scale_free_and_signed_safely() {
    let drift = |a: f64, b: f64| d(relative_drift(&M, s(a), s(b)));
    assert_eq!(drift(0.0, 0.0), 0.0);
    assert_eq!(drift(0.0, 1.0), 1.0);
    assert_eq!(drift(-1.0, 1.0), 2.0);
    assert!((drift(1000.0, 1001.0) - 1.0 / 1001.0).abs() < 1e-15);
    assert!(drift(1e-30, 0.0).is_finite());
}

// ---- walls and boundaries ------------------------------------------------------

#[test]
fn wall_flux_mass_and_energy_are_bit_exact_zero() {
    let mut rng = Rng(7);
    for _ in 0..100 {
        let q = [
            rng.range(0.01, 5.0),
            rng.range(-3.0, 3.0),
            rng.range(-3.0, 3.0),
            rng.range(0.01, 5.0),
        ];
        for sgn in [1.0f32, -1.0] {
            let fz = wall_z(q, sgn, 1.4);
            assert!(fz[0] == 0.0 && fz[2] == 0.0 && fz[3] == 0.0, "{fz:?}");
            assert!(fz[1].is_finite() && sgn * fz[1] > 0.0);
            let fr = wall_r(q, sgn, 1.4);
            assert!(fr[0] == 0.0 && fr[1] == 0.0 && fr[3] == 0.0, "{fr:?}");
            assert!(fr[2].is_finite() && sgn * fr[2] > 0.0);
        }
    }
}

#[test]
fn wall_flux_star_pressure_signs() {
    let gm = 1.4f32;
    let q = [1.0f32, 0.5, 0.2, 1.0];
    let a = (gm * q[3] / q[0]).sqrt();
    let ps = wall_z(q, 1.0, gm)[1];
    let expect = q[3] + q[0] * 0.5 * (2.0 * 0.5 + a);
    assert!((ps - expect).abs() <= 1e-6 * expect, "{ps} vs {expect}");
    assert!(ps > q[3]);
    let ps = wall_z(q, -1.0, gm)[1];
    let expect = -(q[3] - q[0] * 0.5 * a);
    assert!((ps - expect).abs() <= 1e-6 * expect.abs(), "{ps} vs {expect}");
    let q = [1.0f32, -10.0, 0.0, 1e-6];
    assert_eq!(wall_z(q, 1.0, gm)[1], f(Scalar { bits: P_MIN_ABS }));
    let q = [1.0f32, 9.0, 0.5, 1.0];
    let a = (gm * q[3] / q[0]).sqrt();
    let ps = wall_r(q, 1.0, gm)[2];
    let expect = q[3] + q[0] * 0.5 * (2.0 * 0.5 + a);
    assert!((ps - expect).abs() <= 1e-6 * expect, "{ps} vs {expect}");
}

#[test]
fn ghosts_axis_mirror_negates_radial_momentum() {
    let g = uniform(8, 6, 0.1, 0.05);
    let mut u = filled_grid(
        &g,
        |iz, ir| [1.0 + 0.1 * ir as f32, 0.3, 0.2 + 0.05 * iz as f32, 1.0 + 0.02 * iz as f32],
        1.4,
    );
    ghosts(&mut u, &g, ambient());
    for iz in 0..g.nz as isize {
        for k in 0..2isize {
            let interior = co(u[g.gidx(iz, k)]);
            let ghost = co(u[g.gidx(iz, -1 - k)]);
            assert_eq!(ghost[0], interior[0]);
            assert_eq!(ghost[1], interior[1]);
            assert_eq!(ghost[2], -interior[2]);
            assert_eq!(ghost[3], interior[3]);
        }
    }
}

#[test]
fn ghosts_inlet_matches_stagnation_construction() {
    let g = uniform(8, 4, 0.1, 0.05);
    let gm = 1.4f32;
    let wi = [0.9f32, 0.3, 0.05, 0.85];
    let mut u = filled_grid(&g, |_, _| wi, gm);
    ghosts(&mut u, &g, ambient());
    let (gg, p0, t0) = (1.4f64, 1.0f64, 1.0f64);
    let a02 = gg * t0;
    let ai = (gg * wi[3] as f64 / wi[0] as f64).sqrt();
    let rm = wi[1] as f64 - 2.0 * ai / (gg - 1.0);
    let disc = ((gg + 1.0) * a02 / (gg - 1.0) - 0.5 * (gg - 1.0) * rm * rm).max(0.0);
    let ab = (-rm + disc.sqrt()) / ((gg + 1.0) / (gg - 1.0));
    let ub = (rm + 2.0 * ab / (gg - 1.0)).max(0.0);
    let pb = p0 * (ab * ab / a02).powf(gg / (gg - 1.0));
    let rb = gg * pb / (ab * ab);
    for ir in 0..g.nr as isize {
        let wg = to_prim(co(u[g.gidx(-1, ir)]), gm);
        assert!((wg[0] as f64 - rb).abs() <= 1e-5 * rb, "rho {} vs {rb}", wg[0]);
        assert!((wg[1] as f64 - ub).abs() <= 1e-5 * ub.max(1.0), "u {} vs {ub}", wg[1]);
        assert_eq!(wg[2], 0.0, "inlet tangential velocity must be zero");
        assert!((wg[3] as f64 - pb).abs() <= 1e-5 * pb, "p {} vs {pb}", wg[3]);
        assert!(wg[3] <= 1.0 + 1e-5, "inlet p above stagnation");
        assert_eq!(u[g.gidx(-2, ir)], u[g.gidx(-1, ir)]);
    }
}

#[test]
fn ghosts_inlet_quiescent_chamber_reproduces_chamber_state() {
    let g = uniform(8, 2, 0.1, 0.05);
    let gm = 1.4f32;
    let mut u = filled_grid(&g, |_, _| [1.0, 0.0, 0.0, 1.0], gm);
    ghosts(&mut u, &g, Ambient { p: w(1.0), t: w(1.0) });
    let wg = to_prim(co(u[g.gidx(-1, 0)]), gm);
    assert!((wg[0] - 1.0).abs() <= 1e-5, "rho {}", wg[0]);
    assert!(wg[1].abs() <= 1e-5, "u {}", wg[1]);
    assert!((wg[3] - 1.0).abs() <= 1e-5, "p {}", wg[3]);
}

#[test]
fn ghosts_inlet_no_nan_under_reverse_flow() {
    let g = uniform(8, 2, 0.1, 0.05);
    let gm = 1.4f32;
    for i in 0..50 {
        let ui = -5.0 + 0.1 * i as f32;
        let mut u = filled_grid(&g, |_, _| [0.8, ui, 0.1, 0.7], gm);
        ghosts(&mut u, &g, ambient());
        let wg = to_prim(co(u[g.gidx(-1, 0)]), gm);
        assert!(wg.iter().all(|v| v.is_finite()), "u_i = {ui}: {wg:?}");
        assert!(wg[0] > 0.0 && wg[3] > 0.0, "u_i = {ui}: {wg:?}");
        assert!(wg[1] >= 0.0, "u_i = {ui}: inlet velocity clamped at zero");
    }
}

#[test]
fn ghosts_outflow_supersonic_copies_interior_exactly() {
    let g = uniform(8, 4, 0.1, 0.05);
    let mut u = filled_grid(&g, |_, _| [0.5, 2.5, 0.3, 0.4], 1.4);
    let interior = u[g.gidx(g.nz as isize - 1, 1)];
    ghosts(&mut u, &g, ambient());
    assert_eq!(u[g.gidx(g.nz as isize, 1)], interior);
    assert_eq!(u[g.gidx(g.nz as isize + 1, 1)], interior);
}

#[test]
fn ghosts_outflow_subsonic_imposes_ambient_pressure() {
    let g = uniform(8, 4, 0.1, 0.05);
    let gm = 1.4f32;
    let wi = [1.0f32, 0.3, 0.1, 0.9];
    let mut u = filled_grid(&g, |_, _| wi, gm);
    ghosts(&mut u, &g, Ambient { p: w(0.7), t: w(0.9) });
    let wg = to_prim(co(u[g.gidx(g.nz as isize, 1)]), gm);
    let rb = wi[0] as f64 * (0.7f64 / wi[3] as f64).powf(1.0 / 1.4);
    let ai = (1.4 * wi[3] as f64 / wi[0] as f64).sqrt();
    let ab = (1.4 * 0.7 / rb).sqrt();
    let ub = wi[1] as f64 + 2.0 * (ai - ab) / 0.4;
    assert!((wg[3] as f64 - 0.7).abs() <= 1e-5, "p_b = {}", wg[3]);
    assert!((wg[0] as f64 - rb).abs() <= 1e-5 * rb, "rho_b = {}", wg[0]);
    assert!((wg[1] as f64 - ub).abs() <= 1e-5 * ub.abs().max(1.0), "u_b = {}", wg[1]);
    assert!((wg[2] - wi[2]).abs() <= 1e-6, "v_b extrapolates v_i");
}

#[test]
fn ghosts_outflow_reversed_flow_uses_ambient_reservoir() {
    let g = uniform(8, 4, 0.1, 0.05);
    let gm = 1.4f32;
    let amb = ambient();
    let expect = ambient_cons(&amb, gm);
    let mut u = filled_grid(&g, |_, _| [0.8, -0.30, 0.4, 0.65], gm);
    ghosts(&mut u, &g, amb);
    assert_eq!(co(u[g.gidx(g.nz as isize, 1)]), expect);
    assert_eq!(co(u[g.gidx(g.nz as isize + 1, 1)]), expect);
    let mut u = filled_grid(&g, |_, _| [1.0, -2.0, 0.1, 0.06], gm);
    ghosts(&mut u, &g, amb);
    assert_eq!(co(u[g.gidx(g.nz as isize, 1)]), expect);
    let wi = [1.0f32, 0.0, 0.2, 0.9];
    let mut u = filled_grid(&g, |_, _| wi, gm);
    ghosts(&mut u, &g, amb);
    let wg = to_prim(co(u[g.gidx(g.nz as isize, 1)]), gm);
    assert!((wg[3] - f(amb.p)).abs() <= 1e-6, "p_b = {}", wg[3]);
    assert!((wg[2] - wi[2]).abs() <= 1e-6, "v_b extrapolates v_i at u = 0");
}

#[test]
fn ghosts_farfield_inflow_uses_ambient_reservoir() {
    let g = uniform(8, 4, 0.1, 0.05);
    let gm = 1.4f32;
    let amb = ambient();
    let top = g.nr as isize;
    let mut u = filled_grid(&g, |_, _| [0.5, 0.2, -0.1, 0.3], gm);
    ghosts(&mut u, &g, amb);
    let expect = ambient_cons(&amb, gm);
    assert_eq!(co(u[g.gidx(3, top)]), expect);
    assert_eq!(co(u[g.gidx(3, top + 1)]), expect);
    let wi = [0.5f32, 0.2, 0.1, 0.3];
    let mut u = filled_grid(&g, |_, _| wi, gm);
    ghosts(&mut u, &g, amb);
    let wg = to_prim(co(u[g.gidx(3, top)]), gm);
    assert!((wg[3] - f(amb.p)).abs() <= 1e-6, "p_b = {}", wg[3]);
    assert!((wg[1] - wi[1]).abs() <= 1e-6, "u_z is tangential here");
    let mut u = filled_grid(&g, |_, _| [0.5, 0.2, 2.0, 0.3], gm);
    let interior = u[g.gidx(3, top - 1)];
    ghosts(&mut u, &g, amb);
    assert_eq!(u[g.gidx(3, top)], interior);
}

#[test]
fn column_reflection_mirrors_the_bore() {
    let g = uniform(4, 4, 0.1, 0.1);
    let mut solid = no_solid(&g);
    for iz in -2..6isize {
        for ir in 2..6isize {
            solid[g.gidx(iz, ir)] = true;
        }
    }
    let mut u = filled_grid(&g, |_, ir| [1.0 + ir as f32, 0.1, 0.2, 1.0], 1.4);
    let n = Numerics { wall_mode: WallMode::ColumnReflect, ..plain() };
    fill_ghosts(&M, &mut u, &g, &solid, gas(), chamber(), ambient(), &n);
    for (ghost, source) in [(2, 1), (3, 0)] {
        let (a, b) = (co(u[g.gidx(1, ghost)]), co(u[g.gidx(1, source)]));
        assert_eq!(a, [b[0], b[1], -b[2], b[3]]);
    }
}

// ---- sponge and shock sensor -----------------------------------------------------

#[test]
fn sponge_integrated_strength_is_four_and_interior_untouched() {
    let g = uniform(4, 30, 0.1, 0.05);
    let gm = 1.4f32;
    let amb = ambient();
    let ua = ambient_cons(&amb, gm);
    let cells = 24usize;
    let mut u = vec![cons([0.0; 4]); g.glen()];
    for ir in 0..g.nr {
        for iz in 0..g.nz {
            u[g.gidx(iz as isize, ir as isize)] = cons([ua[0] + 1.0, ua[1], ua[2], ua[3]]);
        }
    }
    let before = u.clone();
    let dt = 1e-3f32;
    apply_sponge(&M, &mut u, &g, w(dt), amb, gas(), cells);
    let a_amb = (gm as f64 * d(amb.t)).sqrt();
    let mut total = 0.0f64;
    let mut prev = -1.0f64;
    for ir in 0..g.nr {
        let k = g.gidx(1, ir as isize);
        let decrement = d(before[k].rho) - d(u[k].rho);
        if ir < g.nr - cells {
            assert_eq!(decrement, 0.0, "row {ir} outside the sponge was touched");
        } else {
            assert!(decrement > prev, "sigma must grow with depth");
            prev = decrement;
            total += decrement / dt as f64 * (d(g.dr(ir)) / a_amb);
        }
    }
    assert!((total - 4.0).abs() < 0.1, "integrated sponge strength = {total}");
}

#[test]
fn sponge_zero_cells_is_a_no_op() {
    let g = uniform(4, 8, 0.1, 0.05);
    let mut u = filled_grid(
        &g,
        |iz, ir| [1.0 + 0.1 * ir as f32, 0.5, 0.2, 1.0 + 0.01 * iz as f32],
        1.4,
    );
    let before = u.clone();
    apply_sponge(&M, &mut u, &g, w(0.01), ambient(), gas(), 0);
    assert_eq!(u, before);
}

#[test]
fn carbuncle_mask_fires_three_cells_around_a_shock_only() {
    let g = uniform(30, 3, 0.1, 0.05);
    let mut q = vec![prim([1.0, 2.0, 0.0, 1.0]); g.glen()];
    for iz in 10..(g.nz as isize + NG as isize) {
        q[g.gidx(iz, 1)].p = w(0.5);
        q[g.gidx(iz, 1)].uz = w(1.0);
    }
    let mask = carbuncle_mask(&M, &q, &g);
    for iz in 0..g.nz as isize {
        let expect = (7..=12).contains(&iz);
        assert_eq!(mask[g.gidx(iz, 1)], expect, "row 1, iz = {iz}");
        assert!(!mask[g.gidx(iz, 0)], "row 0 must stay unmasked");
        assert!(!mask[g.gidx(iz, 2)], "row 2 must stay unmasked");
    }
}

#[test]
fn carbuncle_mask_quiet_on_steep_smooth_expansion() {
    let g = uniform(30, 3, 0.1, 0.05);
    let mut q = vec![prim([1.0, 0.5, 0.0, 1.0]); g.glen()];
    for ir in -2..(g.nr as isize + 2) {
        for iz in -2..(g.nz as isize + 2) {
            q[g.gidx(iz, ir)].p = w(0.87f32.powi(iz as i32 + 2));
            q[g.gidx(iz, ir)].uz = w(0.5 + 0.1 * (iz + 2) as f32);
        }
    }
    let mask = carbuncle_mask(&M, &q, &g);
    assert!(mask.iter().all(|&m| !m), "sensor fired on a smooth expansion");
}

#[test]
fn carbuncle_mask_quiet_on_smooth_pressure() {
    let g = uniform(20, 3, 0.1, 0.05);
    let mut q = vec![prim([1.0, 0.0, 0.0, 1.0]); g.glen()];
    for ir in -2..(g.nr as isize + 2) {
        for iz in -2..(g.nz as isize + 2) {
            q[g.gidx(iz, ir)].p = w(1.0 + 0.05 * ((iz * 3 + ir) % 2) as f32);
        }
    }
    let mask = carbuncle_mask(&M, &q, &g);
    assert!(mask.iter().all(|&m| !m));
}

// ---- area-Mach inversion -----------------------------------------------------------

fn area_ratio_of(m: f64, g: f64) -> f64 {
    (1.0 / m)
        * ((2.0 / (g + 1.0)) * (1.0 + 0.5 * (g - 1.0) * m * m))
            .powf((g + 1.0) / (2.0 * (g - 1.0)))
}

#[test]
fn mach_area_round_trip_to_1e11() {
    for g in [1.2f64, 1.24, 1.4] {
        for &m in &[
            0.005f64, 0.01, 0.05, 0.1, 0.3, 0.5, 0.7, 0.9, 0.99, 1.01, 1.1, 1.5, 2.0, 3.0, 5.0,
            8.0, 12.0, 15.0,
        ] {
            let back = d(mach_from_area_ratio(&M, s(area_ratio_of(m, g)), s(g), m > 1.0));
            assert!((back - m).abs() <= 1e-11 * m.max(1.0), "gamma {g}, M {m}: {back}");
        }
    }
}

#[test]
fn mach_area_sonic_guard_returns_one() {
    for g in [1.2f64, 1.24, 1.4] {
        for sup in [false, true] {
            for ratio in [1.0, 1.0 + 5e-7, 1.0 - 5e-7] {
                assert_eq!(d(mach_from_area_ratio(&M, s(ratio), s(g), sup)), 1.0);
            }
        }
    }
}

// ---- start field --------------------------------------------------------------------

fn cd_nozzle(g: &Grid, wall: impl Fn(usize) -> Option<usize>) -> SolidField {
    let mut field = SolidField::empty(g.clone());
    for iz in 0..g.nz {
        if let Some(row) = wall(iz) {
            for ir in row..g.nr {
                field.fraction[g.idx(iz, ir)] = w(1.0);
            }
        }
    }
    field
}

fn cd_wall(iz: usize) -> Option<usize> {
    match iz {
        0..=10 => Some(16),
        11..=20 => Some(16 - (iz - 10) * 8 / 10),
        21..=22 => Some(8),
        23..=40 => Some(8 + (iz - 22) * 6 / 18),
        _ => None,
    }
}

#[test]
fn quasi1d_fills_a_cd_nozzle_isentropically() {
    let g = uniform(60, 24, 0.1, 0.05);
    let gm = 1.4f32;
    let amb = ambient();
    let solid = cd_nozzle(&g, cd_wall);
    let mut u = vec![cons([0.0; 4]); g.glen()];
    let start = quasi1d_init(&M, &mut u, &solid, gas(), chamber(), amb);
    assert!(matches!(start, Start::Nozzle { lip: 40, i_throat: 24 }));
    let prim_at = |iz: usize, ir: usize| to_prim(co(u[g.gidx(iz as isize, ir as isize)]), gm);
    let q = prim_at(22, 0);
    let p_crit = (2.0f64 / 2.4).powf(3.5);
    assert!((q[3] as f64 - p_crit).abs() < 1e-5, "throat p = {} vs {p_crit}", q[3]);
    let a = (gm * q[3] / q[0]).sqrt();
    assert!((q[1] / a - 1.0).abs() < 1e-4, "throat M = {}", q[1] / a);
    let q = prim_at(5, 0);
    assert!(q[3] > 0.95 && q[1] > 0.0 && q[1] < 0.3, "chamber state {q:?}");
    let q = prim_at(40, 0);
    let a = (gm * q[3] / q[0]).sqrt();
    assert!(q[1] / a > 2.0 && q[1] / a < 3.0, "exit M = {}", q[1] / a);
    let q = prim_at(45, 20);
    assert!((q[3] - f(amb.p)).abs() < 1e-6, "outside-nozzle p = {}", q[3]);
    assert_eq!(co(u[g.gidx(50, 0)]), ambient_cons(&amb, gm));
    let mut prev = prim_at(40, 0)[3];
    for k in 1..=4usize {
        let p = prim_at(40 + k, 0)[3];
        assert!(
            p <= prev.max(f(amb.p)) + 1e-6 && p >= prev.min(f(amb.p)) - 1e-6,
            "blend cell {k} p = {p}"
        );
        prev = p;
    }
    for ir in 0..g.nr {
        for iz in 0..g.nz {
            let q = prim_at(iz, ir);
            assert!(
                q[0] > 0.0 && q[3] > 0.0 && q.iter().all(|v| v.is_finite()),
                "({iz}, {ir}): {q:?}"
            );
        }
    }
}

#[test]
fn quasi1d_falls_back_to_ambient_without_interior_throat() {
    let g = uniform(60, 24, 0.1, 0.05);
    let amb = ambient();
    let ua = ambient_cons(&amb, 1.4);
    let solid = cd_nozzle(&g, |iz| if iz <= 30 { Some(16 - iz / 5) } else { None });
    let mut u = vec![cons([0.0; 4]); g.glen()];
    quasi1d_init(&M, &mut u, &solid, gas(), chamber(), amb);
    for ir in 0..g.nr {
        for iz in 0..g.nz {
            if !solid.is_solid(g.idx(iz, ir)) {
                assert_eq!(co(u[g.gidx(iz as isize, ir as isize)]), ua, "({iz}, {ir})");
            }
        }
    }
    let empty = SolidField::empty(g.clone());
    let mut u = vec![cons([0.0; 4]); g.glen()];
    let start = quasi1d_init(&M, &mut u, &empty, gas(), chamber(), amb);
    assert!(matches!(start, Start::Rest));
    assert_eq!(co(u[g.gidx(30, 10)]), ua);
}

#[test]
fn column_reflect_gate_counts_solid_runs() {
    let g = uniform(20, 10, 0.1, 0.05);
    let noz = block(&g, 5..15, 6..10);
    assert!(column_reflect_supported(&noz));
    assert!(column_reflect_supported(&SolidField::empty(g.clone())));
    let mut disks = noz.clone();
    for iz in 8..11usize {
        disks.fraction[g.idx(iz, 2)] = w(1.0);
    }
    assert!(!column_reflect_supported(&disks));
}

#[test]
fn nozzle_gate_rejects_disk_array_and_baffles() {
    let g = uniform(60, 24, 0.1, 0.05);
    let mut disks = SolidField::empty(g.clone());
    for bz in 0..3usize {
        for br in 0..3usize {
            for iz in (10 + bz * 15)..(15 + bz * 15) {
                for ir in (4 + br * 6)..(8 + br * 6) {
                    disks.fraction[g.idx(iz, ir)] = w(1.0);
                }
            }
        }
    }
    assert!(nozzle_profile(&M, &disks).is_none(), "disk array is not a nozzle");
    let mut baffled = SolidField::empty(g.clone());
    for iz in 0..g.nz {
        baffled.fraction[g.idx(iz, g.nr - 1)] = w(1.0);
    }
    for &iz in &[20usize, 40] {
        for ir in 8..(g.nr - 1) {
            baffled.fraction[g.idx(iz, ir)] = w(1.0);
        }
    }
    assert!(nozzle_profile(&M, &baffled).is_none(), "baffled duct is not a nozzle");
    let mut floating = SolidField::empty(g.clone());
    for iz in 0..g.nz {
        floating.fraction[g.idx(iz, g.nr - 1)] = w(1.0);
    }
    for ir in 6..14usize {
        floating.fraction[g.idx(30, ir)] = w(1.0);
    }
    assert!(nozzle_profile(&M, &floating).is_none(), "floating baffle is not a nozzle");
}

#[test]
fn nozzle_gate_accepts_the_cd_nozzle() {
    let g = uniform(60, 24, 0.1, 0.05);
    let solid = cd_nozzle(&g, cd_wall);
    let p = nozzle_profile(&M, &solid).expect("this is a nozzle");
    assert_eq!(p.lip, 40);
    assert_eq!(p.i_throat, 24, "last argmin of the flat throat");
    assert!(d(p.r_open[p.i_throat]) < d(p.r_open[0]));
    assert!(d(p.r_open[p.i_throat]) < d(p.r_open[p.lip]));
}

#[test]
fn quasi1d_generic_fallback_freestream_only_on_the_isentrope() {
    let g = uniform(60, 24, 0.1, 0.05);
    let gm = 1.4f32;
    let mut disks = SolidField::empty(g.clone());
    for iz in 20..25usize {
        for ir in (6..10usize).chain(14..18) {
            disks.fraction[g.idx(iz, ir)] = w(1.0);
        }
    }
    let m_inf = 2.0f64;
    let t0 = 1.0 + 0.5 * 0.4 * m_inf * m_inf;
    let chamber2 = Chamber { p0: w(t0.powf(1.4 / 0.4) as f32), t0: w(t0 as f32) };
    let amb2 = Ambient { p: w(1.0), t: w(1.0) };
    let mut u = vec![cons([0.0; 4]); g.glen()];
    let start = quasi1d_init(&M, &mut u, &disks, gas(), chamber2, amb2);
    assert!(matches!(start, Start::Freestream { .. }));
    let q = to_prim(co(u[g.gidx(5, 5)]), gm);
    let u_inf = m_inf * 1.4f64.sqrt();
    assert!((q[0] as f64 - 1.0).abs() < 1e-4, "rho {}", q[0]);
    assert!((q[1] as f64 - u_inf).abs() < 1e-4 * u_inf, "u {}", q[1]);
    assert!((q[3] as f64 - 1.0).abs() < 1e-4, "p {}", q[3]);
    let amb = ambient();
    let mut u = vec![cons([0.0; 4]); g.glen()];
    quasi1d_init(&M, &mut u, &disks, gas(), chamber(), amb);
    assert_eq!(co(u[g.gidx(5, 5)]), ambient_cons(&amb, gm));
    assert_eq!(co(u[g.gidx(50, 20)]), ambient_cons(&amb, gm));
}

// ---- geometry change -------------------------------------------------------------------

fn totals(u: &[Cons], g: &Grid, solid: &SolidField) -> [f64; 4] {
    let mut t = [0.0f64; 4];
    for ir in 0..g.nr {
        for iz in 0..g.nz {
            if solid.is_solid(g.idx(iz, ir)) {
                continue;
            }
            let c = co(u[g.gidx(iz as isize, ir as isize)]);
            let vol = d(g.cell_vol(&M, iz, ir));
            for k in 0..4 {
                t[k] += c[k] as f64 * vol;
            }
        }
    }
    t
}

fn assert_booked(before: [f64; 4], after: [f64; 4], ledger: &FlipLedger) {
    let lines = [ledger.mass, ledger.momentum_z, ledger.momentum_r, ledger.energy];
    for k in 0..4 {
        let change = after[k] - before[k];
        assert!(
            (change - d(lines[k])).abs() <= 1e-12 * before[k].abs().max(1.0),
            "line {k}: {change} vs {}",
            d(lines[k])
        );
    }
}

fn change(
    u: &mut Vec<Cons>,
    old: &SolidField,
    new: &SolidField,
    amb: Ambient,
) -> FlipLedger {
    let mut ledger = FlipLedger::default();
    apply_geometry_change(&M, u, old, new, gas(), amb, &mut ledger);
    ledger
}

#[test]
fn geometry_close_books_removed_mass_on_the_ledger() {
    let g = uniform(10, 6, 0.1, 0.05);
    let old = SolidField::empty(g.clone());
    let new = block(&g, 4..7, 2..4);
    let mut u = filled_grid(
        &g,
        |iz, ir| [1.0 + 0.01 * (ir * 10 + iz) as f32, 0.2, -0.1, 1.0 + 0.005 * iz as f32],
        1.4,
    );
    let before = totals(&u, &g, &old);
    let ledger = change(&mut u, &old, &new, ambient());
    let after = totals(&u, &g, &new);
    assert!(d(ledger.mass) < 0.0, "closing cells must remove mass");
    assert!(d(ledger.momentum_z) < 0.0, "closing cells moving in +z must remove z-momentum");
    assert!(d(ledger.momentum_r) > 0.0, "closing cells moving in -r remove negative momentum");
    assert!(((after[0] - before[0]) - d(ledger.mass)).abs() <= 1e-12 * before[0]);
    assert!(((after[3] - before[3]) - d(ledger.energy)).abs() <= 1e-12 * before[3]);
    assert_booked(before, after, &ledger);
}

#[test]
fn geometry_open_fills_at_rest_from_neighbour_means() {
    let g = uniform(10, 6, 0.1, 0.05);
    let gm = 1.4f32;
    let old = block(&g, 4..7, 2..4);
    let new = SolidField::empty(g.clone());
    let amb = ambient();
    let mut u = filled_grid(
        &g,
        |iz, ir| [1.0 + 0.01 * (ir * 10 + iz) as f32, 0.4, -0.2, 1.0 + 0.005 * iz as f32],
        gm,
    );
    for ir in 2..=3usize {
        for iz in 4..=6usize {
            u[g.gidx(iz as isize, ir as isize)] = cons(ambient_cons(&amb, gm));
        }
    }
    let before = totals(&u, &g, &old);
    let ledger = change(&mut u, &old, &new, amb);
    let after = totals(&u, &g, &new);
    assert!(d(ledger.mass) > 0.0, "opening cells must add mass");
    assert_eq!(d(ledger.momentum_z), 0.0, "at-rest fills book zero z-momentum");
    assert_eq!(d(ledger.momentum_r), 0.0, "at-rest fills book zero r-momentum");
    assert_booked(before, after, &ledger);
    for ir in 2..=3usize {
        for iz in 4..=6usize {
            let c = co(u[g.gidx(iz as isize, ir as isize)]);
            assert_eq!(c[1], 0.0, "({iz}, {ir}) momentum z");
            assert_eq!(c[2], 0.0, "({iz}, {ir}) momentum r");
            assert!(c[0] > 0.0 && c[3] > 0.0);
        }
    }
    let wa = to_prim(co(u[g.gidx(3, 2)]), gm);
    let wb = to_prim(co(u[g.gidx(4, 1)]), gm);
    let wc = to_prim(co(u[g.gidx(4, 2)]), gm);
    assert!((wc[0] - 0.5 * (wa[0] + wb[0])).abs() <= 1e-6, "mean rho");
    assert!((wc[3] - 0.5 * (wa[3] + wb[3])).abs() <= 1e-6, "mean p");
}

#[test]
fn geometry_open_sealed_cavity_extrapolates_nearest_fluid_at_rest() {
    let g = uniform(10, 8, 0.1, 0.05);
    let gm = 1.4f32;
    let old = block(&g, 3..6, 2..5);
    let mut new = block(&g, 3..6, 2..5);
    new.fraction[g.idx(4, 3)] = w(0.0);
    let mut u = filled_grid(&g, |_, _| [0.9, 0.5, 0.1, 0.8], gm);
    let ledger = change(&mut u, &old, &new, ambient());
    let expect = to_cons([0.9, 0.0, 0.0, 0.8], gm);
    assert_eq!(co(u[g.gidx(4, 3)]), expect);
    let vol = d(g.cell_vol(&M, 4, 3));
    assert!(
        (d(ledger.mass) - 0.9f32 as f64 * vol).abs() <= 1e-12 * vol,
        "cavity mass on the ledger: {} vs {}",
        d(ledger.mass),
        0.9f32 as f64 * vol
    );
    assert_eq!(d(ledger.momentum_z), 0.0);
    assert_eq!(d(ledger.momentum_r), 0.0);
}

#[test]
fn geometry_open_large_block_refills_completely() {
    let g = uniform(48, 48, 0.05, 0.05);
    let gm = 1.4f32;
    let amb = ambient();
    let old = block(&g, 4..44, 4..44);
    let new = SolidField::empty(g.clone());
    let mut u = filled_grid(
        &g,
        |iz, ir| [1.0 + 0.001 * (ir + iz) as f32, 0.3, -0.1, 1.0 + 0.0005 * iz as f32],
        gm,
    );
    for ir in 4..=43usize {
        for iz in 4..=43usize {
            u[g.gidx(iz as isize, ir as isize)] = cons(ambient_cons(&amb, gm));
        }
    }
    let before = totals(&u, &g, &old);
    let ledger = change(&mut u, &old, &new, amb);
    let after = totals(&u, &g, &new);
    for ir in 4..=43usize {
        for iz in 4..=43usize {
            let c = co(u[g.gidx(iz as isize, ir as isize)]);
            let q = to_prim(c, gm);
            assert!(q[3] > 0.5, "({iz}, {ir}) left near ambient: p = {}", q[3]);
            assert_eq!(c[1], 0.0, "({iz}, {ir}) not at rest");
            assert_eq!(c[2], 0.0, "({iz}, {ir}) not at rest");
        }
    }
    assert_booked(before, after, &ledger);
}

#[test]
fn an_edit_without_any_fluid_left_fills_with_the_surroundings() {
    let g = uniform(4, 3, 0.1, 0.1);
    let old = block(&g, 0..4, 0..3);
    let mut new = old.clone();
    new.fraction[g.idx(1, 1)] = w(0.0);
    let mut u = vec![cons([9.0; 4]); g.glen()];
    let amb = ambient();
    change(&mut u, &old, &new, amb);
    assert_eq!(co(u[g.gidx(1, 1)]), ambient_cons(&amb, 1.4));
    assert_eq!(co(u[g.gidx(0, 0)]), [9.0; 4]);
}

// ---- solver ------------------------------------------------------------------------------

fn small_setup() -> SolveSetup {
    let grid = uniform(16, 8, 0.1, 0.1);
    let gas = gas();
    SolveSetup {
        solid: SolidField::empty(grid.clone()),
        grid,
        gas,
        chamber: chamber(),
        ambient: Ambient { p: w(1.0), t: w(1.0) },
        numerics: Numerics { quasi1d_init: false, sponge_cells: 0, ..Numerics::default() },
        refs: refs_from_chamber(0.05, 5.0e6, 3200.0, &gas),
    }
}

#[test]
fn gas_at_rest_stays_at_rest() {
    let mut solver = EulerSolver::new(M, small_setup()).unwrap();
    let info = solver.run(20).unwrap();
    assert_eq!(info.step, 20);
    assert_eq!(info.floor_activations, 0);
    let q = solver.snapshot();
    for iz in 0..16 {
        for ir in 0..8 {
            assert!(f(q.sample(FieldKind::Speed, iz, ir)).abs() < 1e-2);
        }
    }
}

#[test]
fn the_residual_counts_from_the_tenth_step() {
    let mut solver = EulerSolver::new(M, small_setup()).unwrap();
    solver.set_initial(|iz, _| {
        if iz < 8 {
            prim([1.0, 0.0, 0.0, 1.0])
        } else {
            prim([0.5, 0.0, 0.0, 0.5])
        }
    });
    for _ in 0..9 {
        assert!(solver.step().unwrap().residual.is_nan());
    }
    assert_eq!(d(solver.step().unwrap().residual), 1.0);
    assert_eq!(solver.step_count(), 10);
    solver.set_ambient(Ambient { p: w(0.9), t: w(1.0) });
    assert_eq!(solver.step_count(), 0);
    assert!(solver.step().unwrap().residual.is_nan());
}

#[test]
fn a_solver_refuses_what_it_cannot_run() {
    let message = |setup: SolveSetup| EulerSolver::new(M, setup).err().unwrap().message();
    let thin = uniform(3, 2, 0.1, 0.1);
    let mut setup = small_setup();
    setup.solid = SolidField::empty(thin.clone());
    assert_eq!(message(setup), "invalid geometry: solid field does not match grid");
    let mut setup = small_setup();
    setup.solid = SolidField::empty(thin.clone());
    setup.grid = thin;
    assert_eq!(message(setup), "invalid grid: grid too small: 3x2");
    let mut setup = small_setup();
    setup.gas.gamma = w(1.0);
    assert_eq!(message(setup), "invalid parameter: gamma = 1");
}

#[test]
fn column_reflection_is_refused_on_two_solid_runs() {
    let mut setup = small_setup();
    let g = setup.grid.clone();
    setup.solid.fraction[g.idx(4, 2)] = w(1.0);
    setup.solid.fraction[g.idx(4, 5)] = w(1.0);
    setup.numerics.wall_mode = WallMode::ColumnReflect;
    let mut solver = EulerSolver::new(M, setup).unwrap();
    let e = solver.step().err().unwrap();
    assert_eq!(
        e.message(),
        "invalid geometry: column reflection needs at most one solid run per column"
    );
}

#[test]
fn a_broken_state_is_reported_as_divergence() {
    let mut solver = EulerSolver::new(M, small_setup()).unwrap();
    solver.set_initial(|_, _| prim([1.0, f32::INFINITY, 0.0, 1.0]));
    match solver.step() {
        Err(CfdError::Diverged { step, detail }) => {
            assert_eq!(step, 0);
            assert!(detail.starts_with("max wave speed "), "{detail}");
        }
        other => panic!("{:?}", other.map(|i| i.step)),
    }
}

#[test]
fn new_geometry_waits_for_the_next_step() {
    let mut solver = EulerSolver::new(M, small_setup()).unwrap();
    solver.step().unwrap();
    let g = solver.setup().grid.clone();
    let mut solid = SolidField::empty(g.clone());
    solid.fraction[g.idx(8, 4)] = w(1.0);
    solver.set_geometry(solid).unwrap();
    assert!(!solver.setup().solid.is_solid(g.idx(8, 4)));
    solver.step().unwrap();
    assert!(solver.setup().solid.is_solid(g.idx(8, 4)));
    assert!(d(solver.ledger.mass) < 0.0);
    assert_eq!(solver.step_count(), 1);
}

#[test]
fn a_run_in_a_nozzle_converges_and_reports() {
    let grid = uniform(40, 24, 0.2, 0.05);
    let mut solid = SolidField::empty(grid.clone());
    for iz in 0..20usize {
        let row = match iz {
            0..=4 => 22,
            5..=9 => 22 - (iz - 4) * 2,
            _ => 12 + (iz - 9) / 2,
        };
        for ir in row..24 {
            solid.fraction[grid.idx(iz, ir)] = w(1.0);
        }
    }
    let gas = gas();
    let setup = SolveSetup {
        grid,
        solid,
        gas,
        chamber: chamber(),
        ambient: Ambient { p: w(0.1), t: w(0.6) },
        numerics: Numerics { sponge_cells: 4, ..Numerics::default() },
        refs: refs_from_chamber(0.05, 5.0e6, 3200.0, &gas),
    };
    let mut solver = EulerSolver::new(M, setup).unwrap();
    assert_eq!(solver.report().confidence, Confidence::NotConverged);
    let info = solver.run(4000).unwrap();
    assert!(info.converged, "not converged after {} steps", info.step);
    let r = solver.report();
    assert!(d(r.figures.exit_mach) > 1.0);
    assert!(d(r.figures.discharge_coefficient) > 0.8);
    assert_eq!(r.confidence, Confidence::Underresolved);
}

// ---- whole runs -------------------------------------------------------------------------------

/// Scales that leave every number as it is.
fn identity_refs() -> RefScales {
    RefScales {
        l_m: s(1.0),
        p_pa: s(1.0),
        rho_kg_m3: s(1.0),
        u_m_s: s(1.0),
        t_k: s(1.0),
        time_s: s(1.0),
    }
}

fn run_setup(solid: SolidField, stagnation: [f32; 2], around: [f32; 2], geometry: Geometry) -> SolveSetup {
    SolveSetup {
        grid: solid.grid.clone(),
        solid,
        gas: GasModel { gamma: w(1.4), r_specific_si: s(287.0) },
        chamber: Chamber { p0: w(stagnation[0]), t0: w(stagnation[1]) },
        ambient: Ambient { p: w(around[0]), t: w(around[1]) },
        numerics: Numerics {
            geometry,
            quasi1d_init: false,
            sponge_cells: 0,
            ..Numerics::default()
        },
        refs: identity_refs(),
    }
}

#[test]
fn t1_freestream() {
    let gamma = 1.4f64;
    let grid = uniform(64, 8, 0.05, 0.05);
    let (rho, u, p) = (1.0f64, 2.0f64, 1.0f64);
    let t = p / rho;
    let m2 = u * u / (gamma * t);
    let t0 = t * (1.0 + 0.5 * (gamma - 1.0) * m2);
    let p0 = p * (t0 / t).powf(gamma / (gamma - 1.0));
    let setup = run_setup(
        SolidField::empty(grid.clone()),
        [p0 as f32, t0 as f32],
        [p as f32, t as f32],
        Geometry::Planar,
    );
    let mut run = EulerSolver::new(M, setup).unwrap();
    run.set_initial(|_, _| prim([1.0, 2.0, 0.0, 1.0]));
    for _ in 0..200 {
        run.step().unwrap();
    }
    let snap = run.snapshot();
    let (mut e_rho, mut e_u, mut e_p, mut e_rv) = (0.0f64, 0.0f64, 0.0f64, 0.0f64);
    for ir in 0..grid.nr {
        for iz in 0..grid.nz {
            let density = d(snap.sample(FieldKind::Density, iz, ir));
            e_rho = e_rho.max((density - rho).abs());
            e_u = e_u.max((d(snap.sample(FieldKind::VelocityZ, iz, ir)) - u).abs());
            e_p = e_p.max((d(snap.sample(FieldKind::Pressure, iz, ir)) - p).abs());
            e_rv = e_rv.max((density * d(snap.sample(FieldKind::VelocityR, iz, ir))).abs());
        }
    }
    assert!(e_rho <= 1e-5, "max|rho-1| = {e_rho}");
    assert!(e_u <= 1e-5, "max|u-2| = {e_u}");
    assert!(e_p <= 1e-5, "max|p-1| = {e_p}");
    assert!(e_rv <= 1e-6, "max|rho*v| = {e_rv}");
}

#[test]
fn t4_sod() {
    let n = 200usize;
    let dz = 1.0 / n as f32;
    let grid = uniform(n, 2, dz, dz);
    let mut solid = SolidField::empty(grid.clone());
    for iz in 0..n {
        solid.fraction[grid.idx(iz, 1)] = w(1.0);
    }
    let setup = run_setup(solid, [1.0, 1.0], [0.1, 0.8], Geometry::Planar);
    let mut run = EulerSolver::new(M, setup).unwrap();
    run.set_initial(|iz, _| {
        let x = (iz as f32 + 0.5) / n as f32;
        if x < 0.5 {
            prim([1.0, 0.0, 0.0, 1.0])
        } else {
            prim([0.125, 0.0, 0.0, 0.1])
        }
    });
    let mut info = run.step().unwrap();
    while d(info.time) < 0.2 {
        info = run.step().unwrap();
    }
    let t = d(info.time);
    let snap = run.snapshot();
    let (mut l1, mut rho_max, mut rv_max, mut shock_x) = (0.0f64, 0.0f64, 0.0f64, 0.0f64);
    let mid = 0.5 * (0.2655737117 + 0.125);
    for iz in 0..n {
        let x = (iz as f64 + 0.5) / n as f64;
        let rho = d(snap.sample(FieldKind::Density, iz, 0));
        l1 += (rho - sod_exact_rho(x, t)).abs() * dz as f64;
        rho_max = rho_max.max(rho);
        rv_max = rv_max.max((rho * d(snap.sample(FieldKind::VelocityR, iz, 0))).abs());
        if rho > mid {
            shock_x = x;
        }
    }
    let shock_exact = 0.5 + 1.7521557320 * t;
    assert!(l1 <= 6.0e-3, "L1(rho) = {l1:.4e}");
    assert!((shock_x - shock_exact).abs() <= 1.5 * dz as f64, "{shock_x} vs {shock_exact}");
    assert!(rho_max <= 1.001, "max rho = {rho_max}");
    assert!(rv_max <= 1e-8, "max|rho*v| = {rv_max}: transverse flux leakage");
}

fn run_to_time(run: &mut EulerSolver<Native>, t_end: f64, max_steps: u64) -> StepInfo {
    let mut info = run.step().unwrap();
    let mut n = 1;
    while d(info.time) < t_end && n < max_steps {
        info = run.step().unwrap();
        n += 1;
    }
    assert!(d(info.time) >= t_end, "ran out of steps at t = {}", d(info.time));
    info
}

/// Mass and energy over the interior. Solid cells show zeros.
fn shown_totals(snap: &Snapshot, gamma: f64) -> (f64, f64) {
    let g = &snap.grid;
    let (mut mass, mut energy) = (0.0f64, 0.0f64);
    for ir in 0..g.nr {
        let vol = d(g.cell_vol(&M, 0, ir));
        for iz in 0..g.nz {
            let rho = d(snap.sample(FieldKind::Density, iz, ir));
            let p = d(snap.sample(FieldKind::Pressure, iz, ir));
            let uz = d(snap.sample(FieldKind::VelocityZ, iz, ir));
            let ur = d(snap.sample(FieldKind::VelocityR, iz, ir));
            mass += rho * vol;
            energy += (p / (gamma - 1.0) + 0.5 * rho * (uz * uz + ur * ur)) * vol;
        }
    }
    (mass, energy)
}

#[test]
fn t2_conservation_drift() {
    let gamma = 1.4f64;
    let grid = uniform(48, 48, 0.1, 0.1);
    let mut solid = SolidField::empty(grid.clone());
    for ir in 0..grid.nr {
        solid.fraction[grid.idx(0, ir)] = w(1.0);
        solid.fraction[grid.idx(grid.nz - 1, ir)] = w(1.0);
    }
    for iz in 0..grid.nz {
        solid.fraction[grid.idx(iz, grid.nr - 1)] = w(1.0);
    }
    let setup = run_setup(solid, [1.0, 1.0], [1.0, 1.0], Geometry::Axisymmetric);
    let mut run = EulerSolver::new(M, setup).unwrap();
    run.set_initial(|iz, ir| {
        let z = (iz as f32 + 0.5) * 0.1;
        let r = (ir as f32 + 0.5) * 0.1;
        let bump = 0.25 * (-((z - 2.4).powi(2) + (r - 2.0).powi(2)) / 0.36).exp();
        prim([1.0 + bump, 0.0, 0.0, 1.0 + bump])
    });
    let (m0, e0) = shown_totals(&run.snapshot(), gamma);
    let mut info = run.step().unwrap();
    for _ in 0..999 {
        info = run.step().unwrap();
    }
    let (m1, e1) = shown_totals(&run.snapshot(), gamma);
    let dm = ((m1 - m0) / m0).abs();
    let de = ((e1 - e0) / e0).abs();
    assert!(dm <= 2e-6, "mass drift {dm:.3e}");
    assert!(de <= 2e-6, "energy drift {de:.3e}");
    assert_eq!(info.floor_activations, 0);
}

/// L1 error of the density of a smooth bump carried along a strip of `n` cells.
fn advection_error(n: usize, limiter: Limiter) -> f64 {
    let gamma = 1.4f64;
    let grid = uniform(n, 2, 1.0 / n as f32, 1.0 / n as f32);
    let mut solid = SolidField::empty(grid.clone());
    for iz in 0..n {
        solid.fraction[grid.idx(iz, 1)] = w(1.0);
    }
    let bump = |x: f64| 1.0 + 0.2 * (-((x - 0.35) / 0.08).powi(2)).exp();
    let m = 2.0 / gamma.sqrt();
    let t0 = 1.0 + 0.5 * (gamma - 1.0) * m * m;
    let p0 = t0.powf(gamma / (gamma - 1.0));
    let mut setup = run_setup(solid, [p0 as f32, t0 as f32], [1.0, 1.0], Geometry::Planar);
    setup.numerics.limiter = limiter;
    let mut run = EulerSolver::new(M, setup).unwrap();
    run.set_initial(|iz, _| {
        let x = (iz as f64 + 0.5) / n as f64;
        prim([bump(x) as f32, 2.0, 0.0, 1.0])
    });
    let info = run_to_time(&mut run, 0.1, 10_000);
    let snap = run.snapshot();
    let mut l1 = 0.0f64;
    for iz in 0..n {
        let x = (iz as f64 + 0.5) / n as f64;
        let rho = d(snap.sample(FieldKind::Density, iz, 0));
        l1 += (rho - bump(x - 2.0 * d(info.time))).abs() / n as f64;
    }
    l1
}

#[test]
fn t3_order_of_accuracy() {
    let e100 = advection_error(100, Limiter::Unlimited);
    let e200 = advection_error(200, Limiter::Unlimited);
    let order_unlimited = (e100 / e200).log2();
    let e200 = advection_error(200, Limiter::Minmod);
    let e400 = advection_error(400, Limiter::Minmod);
    let order_limited = (e200 / e400).log2();
    assert!(order_unlimited >= 1.90, "unlimited order {order_unlimited:.3}");
    assert!(order_limited >= 1.50, "limited order {order_limited:.3}");
}

#[test]
fn t5_positivity_toro2() {
    let n = 200usize;
    let grid = uniform(n, 2, 1.0 / n as f32, 1.0 / n as f32);
    let mut solid = SolidField::empty(grid.clone());
    for iz in 0..n {
        solid.fraction[grid.idx(iz, 1)] = w(1.0);
    }
    let setup = run_setup(solid, [1.0, 1.0], [0.4, 0.4], Geometry::Planar);
    let mut run = EulerSolver::new(M, setup).unwrap();
    run.set_initial(|iz, _| {
        let x = (iz as f32 + 0.5) / n as f32;
        if x < 0.5 {
            prim([1.0, -2.0, 0.0, 0.4])
        } else {
            prim([1.0, 2.0, 0.0, 0.4])
        }
    });
    let info = run_to_time(&mut run, 0.15, 10_000);
    let snap = run.snapshot();
    let p_min = (0..n)
        .map(|iz| d(snap.sample(FieldKind::Pressure, iz, 0)))
        .fold(f64::INFINITY, f64::min);
    assert_eq!(info.floor_activations, 0, "floor activations must be exactly zero");
    assert!(p_min > 0.0 && p_min.is_finite());
}

#[test]
fn a_run_without_a_limit_ends_when_it_has_settled() {
    let mut preview = MockSolver::new(M, demo_setup()).unwrap();
    let info = preview.run(u64::MAX).unwrap();
    assert!(info.converged);
    assert_eq!(info.step, preview.step_count());
}

#[test]
fn a_run_with_full_counters_takes_no_step() {
    let mut solver = EulerSolver::new(M, small_setup()).unwrap();
    assert!(solver.can_step());
    solver.info.step = u64::MAX;
    assert!(!solver.can_step());
    let info = solver.run(3).unwrap();
    assert_eq!(info.step, u64::MAX);
    assert!(!info.converged);
}

#[test]
fn values_are_equal_as_numbers() {
    assert_eq!(s(0.0), s(-0.0));
    assert_ne!(s(f64::NAN), s(f64::NAN));
    assert_ne!(s(1.0), s(-1.0));
    let a = SurfaceForce { f_z: s(0.0), f_r: s(2.0), area: s(1.0), faces: 1 };
    assert_eq!(a, SurfaceForce { f_z: s(-0.0), ..a });
    let b = SurfaceForce { area: s(f64::NAN), ..a };
    assert_ne!(b, b);
    let g = uniform(4, 3, 0.1, 0.1);
    let field = SolidField::empty(g.clone());
    assert_eq!(field, field.clone());
    let mut other = field.clone();
    other.fraction[5] = w(0.25);
    assert_ne!(field, other);
}

#[test]
fn a_copy_of_a_picture_shows_the_same() {
    let snap = EulerSolver::new(M, small_setup()).unwrap().snapshot();
    let copy = snap.clone();
    assert_eq!(copy.fields, snap.fields);
    assert_eq!(copy.ranges, snap.ranges);
    assert_eq!(copy.step, snap.step);
    assert_eq!(copy.solid, snap.solid);
}

#[test]
fn a_picture_shows_each_quantity_in_its_unit() {
    let mut setup = small_setup();
    setup.refs = RefScales {
        l_m: s(1.0),
        p_pa: s(5.0),
        rho_kg_m3: s(2.0),
        u_m_s: s(3.0),
        t_k: s(7.0),
        time_s: s(1.0),
    };
    let gamma = f(setup.gas.gamma);
    let mut solver = EulerSolver::new(M, setup).unwrap();
    solver.set_initial(|_, _| prim([0.5, 3.0, 4.0, 0.25]));
    let snap = solver.snapshot();
    let (iz, ir) = (0..snap.grid.len())
        .map(|k| (k % snap.grid.nz, k / snap.grid.nz))
        .find(|&(iz, ir)| !snap.solid.is_solid(snap.grid.idx(iz, ir)))
        .unwrap();
    let at = |kind: FieldKind| f(snap.sample(kind, iz, ir));
    let close = |a: f32, b: f32| (a - b).abs() <= 1e-4 * b.abs();
    assert!(close(at(FieldKind::Density), 1.0));
    assert!(close(at(FieldKind::Pressure), 1.25));
    assert!(close(at(FieldKind::Temperature), 3.5));
    assert!(close(at(FieldKind::VelocityZ), 9.0));
    assert!(close(at(FieldKind::VelocityR), 12.0));
    assert!(close(at(FieldKind::Speed), 15.0));
    assert!(close(at(FieldKind::Mach), 5.0 / (gamma * 0.5).sqrt()));
}

#[test]
fn well_balanced() {
    let grid = uniform(32, 32, 0.1, 0.1);
    let mut solid = SolidField::empty(grid.clone());
    for ir in 0..grid.nr {
        solid.fraction[grid.idx(0, ir)] = w(1.0);
        solid.fraction[grid.idx(grid.nz - 1, ir)] = w(1.0);
    }
    for iz in 0..grid.nz {
        solid.fraction[grid.idx(iz, grid.nr - 1)] = w(1.0);
    }
    let setup = run_setup(solid, [1.0, 1.0], [1.0, 1.0], Geometry::Axisymmetric);
    let mut run = EulerSolver::new(M, setup).unwrap();
    run.set_initial(|_, _| prim([1.0, 0.0, 0.0, 1.0]));
    for _ in 0..100 {
        run.step().unwrap();
    }
    let snap = run.snapshot();
    let mut err = 0.0f64;
    for ir in 0..grid.nr {
        for iz in 0..grid.nz {
            if snap.solid.is_solid(snap.grid.idx(iz, ir)) {
                continue;
            }
            err = err.max((d(snap.sample(FieldKind::Density, iz, ir)) - 1.0).abs());
            err = err.max((d(snap.sample(FieldKind::Pressure, iz, ir)) - 1.0).abs());
            err = err.max(d(snap.sample(FieldKind::VelocityZ, iz, ir)).abs());
            err = err.max(d(snap.sample(FieldKind::VelocityR, iz, ir)).abs());
        }
    }
    assert!(err <= 1e-7, "quiescent uniform state drifted by {err:.3e}");
}

#[test]
fn fields_have_labels_and_signs() {
    let signed: Vec<&str> =
        FieldKind::all().iter().filter(|k| k.is_signed()).map(|k| k.label()).collect();
    assert_eq!(signed, vec!["Velocity z [m/s]", "Velocity r [m/s]"]);
    for (i, k) in FieldKind::all().iter().enumerate() {
        assert_eq!(k.index(), i);
    }
}

#[test]
fn the_centerline_is_the_first_row() {
    let solver = EulerSolver::new(M, small_setup()).unwrap();
    let snap = solver.snapshot();
    let line = snap.centerline(FieldKind::Pressure);
    assert_eq!(line.len(), 16);
    for (iz, p) in line.iter().enumerate() {
        assert_eq!(*p, snap.sample(FieldKind::Pressure, iz, 0));
    }
    assert_eq!(snap.field(FieldKind::Pressure)[3], line[3]);
    let (lo, hi) = snap.range(FieldKind::Pressure);
    assert!(d(lo) <= d(line[0]) && d(line[0]) <= d(hi));
}

#[test]
fn columns_stand_beside_each_other() {
    let g = uniform(4, 3, 0.5, 0.25);
    assert!(!g.is_empty());
    assert_eq!(f(g.z_center_g(0)), 0.25);
    assert_eq!(f(g.z_center_g(3)), 1.75);
    assert_eq!(f(g.z_center_g(-1)), -0.25);
    assert_eq!(f(g.z_center_g(4)), 2.25);
}

// ---- values, cells and labels --------------------------------------------------------------------

#[test]
fn scalars_order_like_the_doubles_they_stand_for() {
    let values = [
        f64::NEG_INFINITY,
        -1e300,
        -1.5,
        -f64::MIN_POSITIVE,
        -5e-324,
        -0.0,
        0.0,
        5e-324,
        f64::MIN_POSITIVE,
        1.0,
        1.5,
        1e300,
        f64::INFINITY,
        f64::NAN,
    ];
    for a in values {
        assert_eq!(s(a).is_nan(), a.is_nan());
        assert_eq!(s(a).is_finite(), a.is_finite());
        assert_eq!(s(a).abs().to_bits(), a.abs().to_bits());
        assert_eq!(s(a).neg().to_bits(), (-a).to_bits());
        for b in values {
            assert_eq!(s(a).lt(s(b)), a < b, "{a} < {b}");
            assert_eq!(s(a).le(s(b)), a <= b, "{a} <= {b}");
            assert_eq!(s(a).same(s(b)), a == b, "{a} == {b}");
            let (lo, hi) = (d(s(a).min(s(b))), d(s(a).max(s(b))));
            assert!(lo == a.min(b) || lo.is_nan() && a.min(b).is_nan(), "min of {a}, {b}: {lo}");
            assert!(hi == a.max(b) || hi.is_nan() && a.max(b).is_nan(), "max of {a}, {b}: {hi}");
            if a <= b {
                for x in values {
                    let held = d(s(x).clamp(s(a), s(b)));
                    assert!(held == x.clamp(a, b) || held.is_nan() && x.is_nan());
                }
            }
        }
    }
}

#[test]
fn integers_are_told_from_other_values() {
    for (x, n) in [(0.0, 0), (-0.0, 0), (7.0, 7), (-42.0, -42), (999_999_999_999_999.0, 999_999_999_999_999)] {
        assert_eq!(s(x).as_integer(), Some(n));
    }
    for x in [0.5, -1.25, 1e15, f64::NAN, f64::INFINITY, 5e-324] {
        assert_eq!(s(x).as_integer(), None, "{x}");
    }
}

#[test]
fn every_position_is_one_cell() {
    let g = uniform(5, 3, 0.1, 0.1);
    let mut seen = vec![false; g.len()];
    for ir in 0..g.nr {
        for iz in 0..g.nz {
            assert!(!std::mem::replace(&mut seen[g.idx(iz, ir)], true));
        }
    }
    assert!(seen.iter().all(|&x| x));
    let mut padded = vec![false; g.glen()];
    for ir in -2..5 {
        for iz in -2..7 {
            assert!(!std::mem::replace(&mut padded[g.gidx(iz, ir)], true));
        }
    }
    assert!(padded.iter().all(|&x| x));
}

#[test]
fn bodies_share_out_the_solid_cells() {
    let g = uniform(10, 4, 0.1, 0.1);
    let mut solid = SolidField::empty(g.clone());
    for (iz, ir) in [(0, 0), (3, 1), (4, 1), (5, 1), (8, 3), (9, 3)] {
        solid.fraction[g.idx(iz, ir)] = w(0.5);
    }
    let b = label_bodies(&solid);
    assert_eq!((0..b.count()).map(|i| b.cells(i)).sum::<usize>(), 6);
    assert_eq!(b.label(g.idx(0, 0)), Some(0));
    assert_eq!(b.label(g.idx(1, 0)), None);
}

#[test]
fn the_nearest_marked_cell_is_found() {
    let g = uniform(6, 2, 0.1, 0.1);
    let mut marked = vec![false; g.len()];
    marked[g.idx(0, 0)] = true;
    marked[g.idx(5, 1)] = true;
    let near = nearest_marked(&g, &marked);
    assert_eq!(near[g.idx(1, 1)], g.idx(0, 0));
    assert_eq!(near[g.idx(4, 0)], g.idx(5, 1));
    assert_eq!(near[g.idx(5, 1)], g.idx(5, 1));
}

// ---- what a run tells about itself ---------------------------------------------------------------

#[test]
fn a_solver_remembers_its_start() {
    let solver = EulerSolver::new(M, small_setup()).unwrap();
    assert_eq!(solver.start, None);
    let mut setup = small_setup();
    setup.numerics.quasi1d_init = true;
    let solver = EulerSolver::new(M, setup).unwrap();
    assert_eq!(solver.start, Some(Start::Rest));
}

#[test]
fn a_flow_at_the_sponge_is_noticed() {
    let g = uniform(6, 8, 0.1, 0.1);
    let around = Ambient { p: w(1.0), t: w(1.0) };
    let still = cons(to_cons([1.0, 0.0, 0.0, 1.0], 1.4));
    let mut u = vec![still; g.glen()];
    assert!(!sponge_reached(&M, &u, &g, around, gas(), 3));
    u[g.gidx(4, 4)] = cons(to_cons([2.0, 0.0, 0.0, 2.0], GAMMA));
    assert!(!sponge_reached(&M, &u, &g, around, gas(), 3));
    u[g.gidx(4, 5)] = cons(to_cons([2.0, 0.0, 0.0, 2.0], GAMMA));
    assert!(sponge_reached(&M, &u, &g, around, gas(), 3));
    assert!(!sponge_reached(&M, &u, &g, around, gas(), 0));
}

#[test]
fn closures_are_booked_before_fills_and_fills_wave_by_wave() {
    let g = uniform(6, 1, 0.1, 0.1);
    let mut old = SolidField::empty(g.clone());
    for iz in [2, 3, 4] {
        old.fraction[g.idx(iz, 0)] = w(1.0);
    }
    let mut new = SolidField::empty(g.clone());
    new.fraction[g.idx(0, 0)] = w(1.0);
    let mut u = vec![cons(to_cons([1.0, 0.0, 0.0, 1.0], GAMMA)); g.len()];
    let flips = refill_interior(&M, &old, &new, w(GAMMA), cons([0.0; 4]), &mut u);
    let cells: Vec<usize> = flips.iter().map(|f| f.cell).collect();
    assert_eq!(cells, vec![0, 2, 4, 3]);
    assert_eq!(flips.iter().filter(|f| f.closing).count(), 1);
}

#[test]
fn floors_applied_twice_change_nothing_more() {
    let (once, hit) = floor_cell(&M, cons([0.5, 0.2, 0.1, -3.0]), w(GAMMA));
    assert!(hit);
    let (twice, _) = floor_cell(&M, once, w(GAMMA));
    assert_eq!(twice, once);
    let mut cells = vec![
        cons([0.5, 0.2, 0.1, -3.0]),
        cons([-1.0, f32::NAN, 0.1, 2.0]),
        cons([1e-9, 3.0, 4.0, 1e-7]),
        cons([1.0, 0.5, 0.0, 2.5]),
    ];
    let mut floors = 0;
    enforce_positivity(&M, &mut cells, w(GAMMA), &mut floors);
    assert_eq!(floors, 3);
    let settled = cells.clone();
    enforce_positivity(&M, &mut cells, w(GAMMA), &mut floors);
    assert_eq!(cells, settled);
}

#[test]
fn a_change_of_the_surroundings_keeps_the_picture() {
    let mut solver = EulerSolver::new(M, small_setup()).unwrap();
    solver.run(5).unwrap();
    let before = solver.snapshot().fields;
    solver.set_ambient(Ambient { p: w(0.3), t: w(0.9) });
    assert_eq!(solver.snapshot().fields, before);
    assert_eq!(solver.step_count(), 0);
}

#[test]
fn disjoint_selections_share_out_the_faces() {
    let g = uniform(12, 6, 0.1, 0.1);
    let mut solid = SolidField::empty(g.clone());
    for iz in [2, 3, 4, 8] {
        solid.fraction[g.idx(iz, 2)] = w(1.0);
    }
    let mut q = vec![prim([1.0, 0.0, 0.0, 1.0]); g.len()];
    let faces = |q: &Vec<Prim>, pick: &dyn Fn(usize) -> bool| {
        surface_pressure_force(&M, q, &solid, gas(), Geometry::Planar, pick)
    };
    let (a, b) = (g.idx(2, 2), g.idx(8, 2));
    let both = faces(&q, &|k| k == a || k == b);
    let (one, other) = (faces(&q, &|k| k == a), faces(&q, &|k| k == b));
    assert_eq!(both.faces, one.faces + other.faces);
    assert!((d(both.f_r) - d(one.f_r) - d(other.f_r)).abs() < 1e-12);
    assert!((d(both.area) - d(one.area) - d(other.area)).abs() < 1e-12);
    // What stands in a solid cell is never read.
    q[a] = prim([f32::NAN; 4]);
    assert_eq!(faces(&q, &|k| k == a || k == b), both);
}

#[test]
fn figures_stand_by_their_limits() {
    let fine = Figures {
        mass_flow_kg_s: s(1.0),
        thrust_n: s(1.0),
        thrust_coefficient: s(1.0),
        c_star_m_s: s(1.0),
        discharge_coefficient: s(1.0),
        exit_mach: s(1.0),
        exit_pressure_pa: s(1.0),
        exit_pressure_ratio: s(0.41),
        ideal_exit_mach: s(1.0),
        cells_per_throat_radius: s(20.0),
    };
    let low = Figures { exit_pressure_ratio: s(0.39), ..fine };
    let coarse = Figures { cells_per_throat_radius: s(19.9), ..fine };
    assert_eq!(judge(true, fine, s(0.2)), Confidence::Valid);
    assert_eq!(judge(true, low, s(0.2)), Confidence::SeparationLikely);
    assert_eq!(judge(true, low, s(f64::NAN)), Confidence::SeparationLikely);
    assert_eq!(judge(true, fine, s(0.5)), Confidence::SeparationLikely);
    assert_eq!(judge(true, coarse, s(0.2)), Confidence::Underresolved);
    assert_eq!(judge(false, low, s(0.5)), Confidence::NotConverged);
}

#[test]
fn a_preview_separates_below_four_tenths_of_the_surroundings() {
    let mut preview = MockSolver::new(M, demo_setup()).unwrap();
    let around = d(preview.setup.ambient.p);
    let ratio = d(preview.report().figures.exit_pressure_ratio);
    for (wanted, standing) in [(0.39, Confidence::SeparationLikely), (0.41, Confidence::Valid)] {
        preview.set_ambient(Ambient { p: s(around * ratio / wanted), t: w(0.1) });
        assert!(preview.run(u64::MAX).unwrap().converged);
        let r = preview.report();
        assert!((d(r.figures.exit_pressure_ratio) - wanted).abs() < 1e-6);
        assert_eq!(r.confidence, standing);
    }
}
