//! Behaviour of the geometry library on concrete values, with the formulas
//! evaluated in the machine's floating point.

use cfd::contour::{ContourKind, ContourMath, NozzleSpec};
use cfd::curve::{BellGeometry, CurveMath, NozzleCurve, Quadratic, CHAMBER_LEN_RT};
use cfd::editor::{EditMath, Editor};
use cfd::error::CfdError;
use cfd::field::{RefScales, SolidField};
use cfd::freeform::{FreeformBounds, FreeformEditor, MIN_POINTS, R_MIN};
use cfd::grade::{grade_from_solid, graded_axis, GradeMath, GradeSpec};
use cfd::grid::{Grid, GridMath};
use cfd::handles::{DragOutcome, Handle, HandleId, HandleKind, HandleMath};
use cfd::profile::{Point, ProfileMath, WallProfile};
use cfd::rao::{rao_angles, RaoMath};
use cfd::raster::{rasterize, rasterize_solid_polygon, RasterMath};
use cfd::scalar::Scalar;
use cfd::tessellate::{
    fit_counts, generate_contour, PolylineMath, Tessellation, MAX_POINTS,
};
use cfd::text::Show;
use std::f64::consts::PI;

/// Floating point of the machine.
#[derive(Debug, Clone, Copy)]
struct Native;

/// Double-precision value of a scalar.
fn d(x: Scalar) -> f64 {
    f64::from_bits(x.bits)
}

/// Scalar of a double-precision value.
fn s(x: f64) -> Scalar {
    Scalar { bits: x.to_bits() }
}

/// Single-precision value of a scalar.
fn f(x: Scalar) -> f32 {
    d(x) as f32
}

/// Scalar of a single-precision value.
fn w(x: f32) -> Scalar {
    s(x as f64)
}

impl Show for Native {
    fn show(&self, x: Scalar) -> String {
        format!("{}", d(x))
    }

    fn show_single(&self, x: Scalar) -> String {
        format!("{}", d(x) as f32)
    }

    fn show_debug(&self, x: Scalar) -> String {
        format!("{:?}", d(x))
    }

    fn show_rounded(&self, x: Scalar) -> String {
        format!("{:.4}", d(x))
    }
}

impl GridMath for Native {
    fn width(&self, lo: Scalar, hi: Scalar) -> Scalar {
        w((d(hi) - d(lo)) as f32)
    }

    fn centre(&self, lo: Scalar, hi: Scalar) -> Scalar {
        w((0.5 * (d(lo) + d(hi))) as f32)
    }

    fn centroid(&self, lo: Scalar, hi: Scalar) -> Scalar {
        let (lo, hi) = (d(lo), d(hi));
        w(((2.0 / 3.0) * (hi * hi + hi * lo + lo * lo) / (hi + lo)) as f32)
    }

    fn centre_below(&self, c: Scalar, below: Scalar, here: Scalar) -> Scalar {
        w(f(c) - 0.5 * (f(below) + f(here)))
    }

    fn centre_above(&self, c: Scalar, here: Scalar, above: Scalar) -> Scalar {
        w(f(c) + 0.5 * (f(here) + f(above)))
    }

    fn next_edge(&self, edge: Scalar, width: Scalar) -> Scalar {
        s(d(edge) + d(width))
    }

    fn multiple(&self, i: usize, step: Scalar) -> Scalar {
        s(i as f64 * d(step))
    }

    fn narrow(&self, x: Scalar) -> Scalar {
        w(f(x))
    }

    fn volume(&self, r_lo: Scalar, r_hi: Scalar, z_lo: Scalar, z_hi: Scalar) -> Scalar {
        let (rl, rh, zl, zh) = (d(r_lo), d(r_hi), d(z_lo), d(z_hi));
        s(0.5 * (rl + rh) * (rh - rl) * (zh - zl))
    }
}

/// The point of two double-precision coordinates.
fn at(z: f64, r: f64) -> Point {
    Point { z: s(z), r: s(r) }
}

/// The coordinates of a point.
fn xy(p: Point) -> (f64, f64) {
    (d(p.z), d(p.r))
}

impl ProfileMath for Native {
    fn radius_between(&self, a: Point, b: Point, z: Scalar) -> Scalar {
        let t = (d(z) - d(a.z)) / (d(b.z) - d(a.z));
        s(d(a.r) + t * (d(b.r) - d(a.r)))
    }
}

impl EditMath for Native {
    fn span(&self, a: Scalar, b: Scalar) -> Scalar {
        s(d(b) - d(a))
    }

    fn hit_radius(&self, extent: Scalar) -> Scalar {
        s(0.02 * d(extent))
    }

    fn least_gap(&self, extent: Scalar) -> Scalar {
        s(1e-6 * d(extent))
    }

    fn least_radius(&self, extent: Scalar) -> Scalar {
        s(1e-6 * d(extent))
    }

    fn beyond(&self, z: Scalar, gap: Scalar) -> Scalar {
        s(d(z) + d(gap))
    }

    fn ahead_of(&self, z: Scalar, gap: Scalar) -> Scalar {
        s(d(z) - d(gap))
    }

    fn halfway(&self, a: Scalar, b: Scalar) -> Scalar {
        s(0.5 * (d(a) + d(b)))
    }

    fn squared_distance(&self, a: Point, b: Point) -> Scalar {
        s((d(a.z) - d(b.z)).powi(2) + (d(a.r) - d(b.r)).powi(2))
    }

    fn squared(&self, x: Scalar) -> Scalar {
        s(d(x) * d(x))
    }

    fn ceiling(&self, lr: Scalar, margin: Scalar) -> Scalar {
        s(d(lr) - d(margin))
    }
}

impl RasterMath for Native {
    fn depth(&self, upper: Scalar, lower: Scalar) -> Scalar {
        s(d(upper) - d(lower))
    }

    fn crossing(&self, a: Point, b: Point, da: Scalar, db: Scalar) -> Point {
        let t = d(da) / (d(da) - d(db));
        let ((az, ar), (bz, br)) = (xy(a), xy(b));
        at(az + t * (bz - az), ar + t * (br - ar))
    }

    fn add_cross(&self, sum: Scalar, a: Point, b: Point) -> Scalar {
        s(d(sum) + (d(a.z) * d(b.r) - d(b.z) * d(a.r)))
    }

    fn half_magnitude(&self, x: Scalar) -> Scalar {
        s(0.5 * d(x).abs())
    }

    fn share(&self, area: Scalar, za: Scalar, zb: Scalar, ra: Scalar, rb: Scalar) -> Scalar {
        s(d(area) / ((d(zb) - d(za)) * (d(rb) - d(ra))))
    }

    fn reciprocal(&self, length: Scalar) -> Scalar {
        s(1.0 / d(length))
    }

    fn scaled(&self, p: Point, factor: Scalar) -> Point {
        at(d(p.z) * d(factor), d(p.r) * d(factor))
    }

    fn one_above(&self, r: Scalar) -> Scalar {
        s(d(r) + 1.0)
    }
}

impl GradeMath for Native {
    fn hold_end(&self, end: Scalar, margin_cells: Scalar, base: Scalar) -> Scalar {
        s(d(end) + d(margin_cells) * d(base))
    }

    fn cells_to(&self, end: Scalar, base: Scalar) -> usize {
        (d(end) / d(base)).ceil().max(1.0) as usize
    }

    fn cells_in(&self, len: Scalar, base: Scalar) -> usize {
        (d(len) / d(base)).round().max(1.0) as usize
    }

    fn even_width(&self, len: Scalar, n: usize) -> Scalar {
        s(d(len) / n as f64)
    }

    fn left_over(&self, len: Scalar, held: Scalar) -> Scalar {
        s(d(len) - d(held))
    }

    fn grown(&self, width: Scalar, factor: Scalar) -> Scalar {
        s(d(width) * d(factor))
    }

    fn sum(&self, a: Scalar, b: Scalar) -> Scalar {
        s(d(a) + d(b))
    }

    fn stretch(&self, to: Scalar, from: Scalar) -> Scalar {
        s(d(to) / d(from))
    }

    fn stretched_edge(&self, edge: Scalar, width: Scalar, factor: Scalar) -> Scalar {
        s(d(edge) + d(width) * d(factor))
    }
}

impl RaoMath for Native {
    fn share_between(&self, x: Scalar, lo: Scalar, hi: Scalar) -> Scalar {
        s((d(x) - d(lo)) / (d(hi) - d(lo)))
    }

    fn log_share_between(&self, x: Scalar, lo: Scalar, hi: Scalar) -> Scalar {
        s((d(x).ln() - d(lo).ln()) / (d(hi).ln() - d(lo).ln()))
    }

    fn on_line(&self, a: Scalar, b: Scalar, share: Scalar) -> Scalar {
        s(d(a) + d(share) * (d(b) - d(a)))
    }
}

impl ContourMath for Native {
    fn square_root(&self, x: Scalar) -> Scalar {
        s(d(x).sqrt())
    }

    fn arc_rise(&self, arc: Scalar, angle_deg: Scalar) -> Scalar {
        s(1.0 + d(arc) * (1.0 - d(angle_deg).to_radians().cos()))
    }
}

/// A unit vector along a direction.
fn unit(z: f64, r: f64) -> Point {
    let m = z.hypot(r).max(f64::MIN_POSITIVE);
    at(z / m, r / m)
}

impl CurveMath for Native {
    fn throat_station(&self, spec: NozzleSpec, chamber_len: Scalar) -> Scalar {
        let beta = d(spec.converge_half_angle_deg).to_radians();
        let rc = d(spec.contraction_ratio).sqrt();
        let r1 = d(spec.throat_arc_up);
        let ra_up = 1.0 + r1 * (1.0 - beta.cos());
        s(d(chamber_len) + (rc - ra_up) / beta.tan() + r1 * beta.sin())
    }

    fn radians(&self, deg: Scalar) -> Scalar {
        s(d(deg).to_radians())
    }

    fn upstream_tangency(&self, spec: NozzleSpec, z_t: Scalar) -> Point {
        let beta = d(spec.converge_half_angle_deg).to_radians();
        let r1 = d(spec.throat_arc_up);
        at(d(z_t) - r1 * beta.sin(), 1.0 + r1 * (1.0 - beta.cos()))
    }

    fn downstream_tangency(&self, arc: Scalar, angle_deg: Scalar, z_t: Scalar) -> Point {
        let alpha = d(angle_deg).to_radians();
        at(d(z_t) + d(arc) * alpha.sin(), 1.0 + d(arc) * (1.0 - alpha.cos()))
    }

    fn cone_length(&self, area_ratio: Scalar, arc: Scalar, half_angle_deg: Scalar) -> Scalar {
        let alpha = d(half_angle_deg).to_radians();
        s(((d(area_ratio).sqrt() - 1.0) + d(arc) * (1.0 / alpha.cos() - 1.0)) / alpha.tan())
    }

    fn reference_length(&self, area_ratio: Scalar) -> Scalar {
        let a15 = 15.0f64.to_radians();
        s(((d(area_ratio).sqrt() - 1.0) + 1.5 * (1.0 / a15.cos() - 1.0)) / a15.tan())
    }

    fn times(&self, a: Scalar, b: Scalar) -> Scalar {
        s(d(a) * d(b))
    }

    fn over(&self, a: Scalar, b: Scalar) -> Scalar {
        s(d(a) / d(b))
    }

    fn farther(&self, a: Scalar, b: Scalar) -> Scalar {
        s(d(a) + d(b))
    }

    fn bell_points(
        &self,
        arc: Scalar,
        exit: Scalar,
        length: Scalar,
        theta_n_deg: Scalar,
        theta_e_deg: Scalar,
    ) -> (Point, Point, Point) {
        let (tn, te) = (d(theta_n_deg).to_radians(), d(theta_e_deg).to_radians());
        let nz = d(arc) * tn.sin();
        let nr = 1.0 + d(arc) * (1.0 - tn.cos());
        let (ez, er) = (d(length), d(exit));
        let (m1, m2) = (tn.tan(), te.tan());
        let c1 = nr - m1 * nz;
        let c2 = er - m2 * ez;
        let qz = (c2 - c1) / (m1 - m2);
        let qr = (m1 * c2 - m2 * c1) / (m1 - m2);
        (at(nz, nr), at(qz, qr), at(ez, er))
    }

    fn shifted(&self, p: Point, z: Scalar) -> Point {
        Point { z: s(d(z) + d(p.z)), r: p.r }
    }

    fn line_point(&self, a: Point, b: Point, t: Scalar) -> Point {
        let ((az, ar), (bz, br), t) = (xy(a), xy(b), d(t));
        at(az + t * (bz - az), ar + t * (br - ar))
    }

    fn arc_point(
        &self,
        z_t: Scalar,
        radius: Scalar,
        sign: Scalar,
        phi0: Scalar,
        phi1: Scalar,
        t: Scalar,
    ) -> Point {
        let phi = d(phi0) + d(t) * (d(phi1) - d(phi0));
        at(d(z_t) + d(sign) * d(radius) * phi.sin(), 1.0 + d(radius) * (1.0 - phi.cos()))
    }

    fn bezier_point(&self, n: Point, q: Point, e: Point, t: Scalar) -> Point {
        let t = d(t);
        let (a, b, c) = ((1.0 - t) * (1.0 - t), 2.0 * t * (1.0 - t), t * t);
        let ((nz, nr), (qz, qr), (ez, er)) = (xy(n), xy(q), xy(e));
        at(a * nz + b * qz + c * ez, a * nr + b * qr + c * er)
    }

    fn arc_turn(&self, phi0: Scalar, phi1: Scalar) -> Scalar {
        s((d(phi1) - d(phi0)).abs())
    }

    fn bezier_turn(&self, n: Point, q: Point, e: Point) -> Scalar {
        let ((nz, nr), (qz, qr), (ez, er)) = (xy(n), xy(q), xy(e));
        s(((er - qr).atan2(ez - qz) - (qr - nr).atan2(qz - nz)).abs())
    }

    fn turn_segments(&self, turn: Scalar, max_turn_deg: Scalar) -> usize {
        (d(turn).to_degrees() / d(max_turn_deg).max(1e-6)).ceil() as usize
    }

    fn arc_segments(&self, radius: Scalar, phi0: Scalar, phi1: Scalar, tol: Scalar) -> Scalar {
        let turn = (d(phi1) - d(phi0)).abs();
        let sec = 1.0 / d(phi0).abs().max(d(phi1).abs()).cos().max(1e-6);
        s(turn * (d(radius) * sec / (8.0 * d(tol))).sqrt())
    }

    fn bezier_segments(&self, n: Point, q: Point, e: Point, tol: Scalar) -> Scalar {
        let ((nz, nr), (qz, qr), (ez, er)) = (xy(n), xy(q), xy(e));
        let (bz, br) = (nz - 2.0 * qz + ez, nr - 2.0 * qr + er);
        let m = ((qr - nr) / (qz - nz)).abs().max(((er - qr) / (ez - qz)).abs());
        s(((br.abs() + m * bz.abs()) / (4.0 * d(tol))).sqrt())
    }

    fn whole_segments(&self, x: Scalar) -> usize {
        d(x).ceil().max(1.0) as usize
    }

    fn line_radius(&self, a: Point, b: Point, z: Scalar) -> Scalar {
        let ((az, ar), (bz, br)) = (xy(a), xy(b));
        let t = ((d(z) - az) / (bz - az)).clamp(0.0, 1.0);
        s(ar + t * (br - ar))
    }

    fn arc_radius(&self, z_t: Scalar, radius: Scalar, sign: Scalar, z: Scalar) -> Scalar {
        let sine = (d(sign) * (d(z) - d(z_t)) / d(radius)).clamp(-1.0, 1.0);
        s(1.0 + d(radius) * (1.0 - sine.asin().cos()))
    }

    fn bezier_radius(&self, n: Point, q: Point, e: Point, t: Scalar) -> Scalar {
        let t = d(t);
        let (a, b, c) = ((1.0 - t) * (1.0 - t), 2.0 * t * (1.0 - t), t * t);
        s(a * d(n.r) + b * d(q.r) + c * d(e.r))
    }

    fn line_direction(&self, a: Point, b: Point) -> Point {
        unit(d(b.z) - d(a.z), d(b.r) - d(a.r))
    }

    fn arc_direction(&self, z_t: Scalar, radius: Scalar, sign: Scalar, z: Scalar) -> Point {
        let sine = (d(sign) * (d(z) - d(z_t)) / d(radius)).clamp(-1.0, 1.0);
        unit(1.0, d(sign) * sine.asin().tan())
    }

    fn bezier_direction(&self, n: Point, q: Point, e: Point, t: Scalar) -> Point {
        let t = d(t);
        let ((nz, nr), (qz, qr), (ez, er)) = (xy(n), xy(q), xy(e));
        unit(
            2.0 * ((1.0 - t) * (qz - nz) + t * (ez - qz)),
            2.0 * ((1.0 - t) * (qr - nr) + t * (er - qr)),
        )
    }

    fn station_quadratic(&self, n: Scalar, q: Scalar, e: Scalar, z: Scalar) -> Quadratic {
        let (n, q, e, z) = (d(n), d(q), d(e), d(z));
        Quadratic { a: s(n - 2.0 * q + e), b: s(2.0 * (q - n)), c: s(n - z) }
    }

    fn linear_limit(&self, scale: Scalar) -> Scalar {
        s(1e-14 * d(scale))
    }

    fn linear_root(&self, b: Scalar, c: Scalar) -> Scalar {
        s(-d(c) / d(b))
    }

    fn discriminant(&self, k: Quadratic) -> Scalar {
        s(d(k.b) * d(k.b) - 4.0 * d(k.a) * d(k.c))
    }

    fn root_seed(&self, b: Scalar, root: Scalar) -> Scalar {
        s(-0.5 * (d(b) + d(root)))
    }

    fn hair_before(&self, z: Scalar) -> Scalar {
        s(d(z) - 1e-12)
    }

    fn hair_beyond(&self, z: Scalar) -> Scalar {
        s(d(z) + 1e-12)
    }
}

impl PolylineMath for Native {
    fn cell_tolerance(&self, cell: Scalar) -> Scalar {
        s(0.01 * d(cell))
    }

    fn advance(&self, from: Scalar, to: Scalar) -> Scalar {
        s(d(to) - d(from))
    }

    fn step_share(&self, k: usize, n: usize) -> Scalar {
        s(k as f64 / n as f64)
    }

    fn shrunk(&self, count: usize, cap: u128, total: u128) -> usize {
        (count as f64 * (cap as f64 / total as f64)).floor() as usize
    }

    fn in_metres(&self, p: Point, r_throat: Scalar) -> Point {
        at(d(p.z) * d(r_throat), d(p.r) * d(r_throat))
    }

    fn upstream_sample(&self, spec: NozzleSpec, z_t: Scalar, k: usize, n: usize) -> Point {
        let beta = d(spec.converge_half_angle_deg).to_radians();
        let r1 = d(spec.throat_arc_up);
        let phi = beta * (1.0 - k as f64 / n as f64);
        at(d(z_t) - r1 * phi.sin(), 1.0 + r1 * (1.0 - phi.cos()))
    }

    fn downstream_sample(
        &self,
        arc: Scalar,
        angle_deg: Scalar,
        z_t: Scalar,
        k: usize,
        n: usize,
    ) -> Point {
        let phi = d(angle_deg).to_radians() * k as f64 / n as f64;
        at(d(z_t) + d(arc) * phi.sin(), 1.0 + d(arc) * (1.0 - phi.cos()))
    }

    fn bell_sample(&self, b: BellGeometry, z_t: Scalar, k: usize, n: usize) -> Point {
        let t = k as f64 / n as f64;
        let (a, m, c) = ((1.0 - t) * (1.0 - t), 2.0 * t * (1.0 - t), t * t);
        let ((nz, nr), (qz, qr), (ez, er)) = (xy(b.n), xy(b.q), xy(b.e));
        at(d(z_t) + a * nz + m * qz + c * ez, a * nr + m * qr + c * er)
    }
}

impl HandleMath for Native {
    fn converge_middle(&self, shoulder: Point, up: Point) -> Point {
        at(0.5 * (d(shoulder.z) + d(up.z)), 0.5 * (d(shoulder.r) + d(up.r)))
    }

    fn arc_middle(&self, z_t: Scalar, radius: Scalar, sign: Scalar, angle: Scalar) -> Point {
        let phi = 0.5 * d(angle);
        at(d(z_t) + d(sign) * d(radius) * phi.sin(), 1.0 + d(radius) * (1.0 - phi.cos()))
    }

    fn along(&self, angle: Scalar) -> Point {
        at(d(angle).cos(), d(angle).sin())
    }

    fn against(&self, angle: Scalar) -> Point {
        at(-d(angle).cos(), -d(angle).sin())
    }

    fn area_of(&self, r: Scalar) -> Scalar {
        s(d(r) * d(r))
    }

    fn converge_angle(&self, shoulder: Point, world: Point) -> Scalar {
        let (dz, dr) = (d(world.z) - d(shoulder.z), d(shoulder.r) - d(world.r));
        s(dr.atan2(dz.max(1e-9)).to_degrees())
    }

    fn arc_through(&self, angle: Scalar, r: Scalar) -> Scalar {
        let k = 1.0 - (0.5 * d(angle)).cos();
        s((d(r) - 1.0) / k.max(1e-12))
    }

    fn angle_behind(&self, anchor: Point, world: Point) -> Scalar {
        let (dz, dr) = (d(world.z) - d(anchor.z), d(world.r) - d(anchor.r));
        s(dr.atan2(dz.max(1e-9)).to_degrees())
    }

    fn angle_before(&self, anchor: Point, world: Point) -> Scalar {
        let (dz, dr) = (d(anchor.z) - d(world.z), d(anchor.r) - d(world.r));
        s(dr.atan2(dz.max(1e-9)).to_degrees())
    }

    fn past_throat(&self, z: Scalar, z_t: Scalar) -> Scalar {
        s(d(z) - d(z_t))
    }

    fn part_way(&self, from: Scalar, to: Scalar, share: Scalar) -> Scalar {
        s(d(from) + d(share) * (d(to) - d(from)))
    }

    fn middle(&self, lo: Scalar, hi: Scalar) -> Scalar {
        s(0.5 * (d(lo) + d(hi)))
    }
}

// ---- helpers --------------------------------------------------------------

const M: Native = Native;

type P2 = [f64; 2];

/// A wall in doubles.
#[derive(Debug, Clone, PartialEq)]
struct Wall {
    points: Vec<P2>,
    throat_index: usize,
}

fn p2(p: Point) -> P2 {
    [d(p.z), d(p.r)]
}

fn pt(p: P2) -> Point {
    at(p[0], p[1])
}

fn wall(p: &WallProfile) -> Wall {
    Wall { points: p.points.iter().map(|&q| p2(q)).collect(), throat_index: p.throat_index }
}

fn profile(points: &[P2], throat_index: usize) -> WallProfile {
    WallProfile { points: points.iter().map(|&q| pt(q)).collect(), throat_index }
}

fn contour(spec: &NozzleSpec, samples: usize) -> Result<Wall, CfdError> {
    generate_contour(&M, spec, samples).map(|p| wall(&p))
}

fn conical(half_angle_deg: f64) -> ContourKind {
    ContourKind::Conical { half_angle_deg: s(half_angle_deg) }
}

fn parabolic(bell_percent: f64) -> ContourKind {
    ContourKind::ParabolicBell { bell_percent: s(bell_percent) }
}

fn direct(theta_n_deg: f64, theta_e_deg: f64, length_fraction: f64) -> ContourKind {
    ContourKind::DirectBell {
        theta_n_deg: s(theta_n_deg),
        theta_e_deg: s(theta_e_deg),
        length_fraction: s(length_fraction),
    }
}

fn nozzle(throat_radius_m: f64, area_ratio: f64, arc_down: f64, contour: ContourKind) -> NozzleSpec {
    NozzleSpec {
        throat_radius_m: s(throat_radius_m),
        area_ratio: s(area_ratio),
        contraction_ratio: s(4.0),
        converge_half_angle_deg: s(30.0),
        throat_arc_up: s(1.5),
        throat_arc_down: s(arc_down),
        contour,
    }
}

fn spec(contour: ContourKind, eps: f64) -> NozzleSpec {
    nozzle(0.05, eps, 0.382, contour)
}

fn angles(eps: f64, bell_percent: f64) -> (f64, f64) {
    let (n, e) = rao_angles(&M, s(eps), s(bell_percent));
    (d(n), d(e))
}

fn l_c15(area_ratio: f64) -> f64 {
    let s15 = 15.0f64.to_radians();
    ((area_ratio.sqrt() - 1.0) + 1.5 * (1.0 / s15.cos() - 1.0)) / s15.tan()
}

fn uniform(nz: usize, nr: usize, dz: f32, dr: f32) -> Grid {
    Grid::uniform(&M, nz, nr, w(dz), w(dr))
}

fn refs_lm(l_m: f64) -> RefScales {
    RefScales {
        l_m: s(l_m),
        p_pa: s(5e6),
        rho_kg_m3: s(4.13),
        u_m_s: s(1100.0),
        t_k: s(3200.0),
        time_s: s(l_m / 1100.0),
    }
}

fn text<T>(r: Result<T, CfdError>) -> String {
    r.err().unwrap().message()
}

fn slope_at(p: &Wall, i: usize) -> f64 {
    let pts = &p.points;
    let (a, b) = if i == 0 {
        (pts[0], pts[1])
    } else if i + 1 == pts.len() {
        (pts[i - 1], pts[i])
    } else {
        (pts[i - 1], pts[i + 1])
    };
    (b[1] - a[1]) / (b[0] - a[0])
}

fn nearest_to(p: &Wall, rt: f64, z: f64) -> usize {
    let mut best = 0;
    for i in 0..p.points.len() {
        if (p.points[i][0] / rt - z).abs() < (p.points[best][0] / rt - z).abs() {
            best = i;
        }
    }
    best
}

// ---- contour ----------------------------------------------------------------

#[test]
fn conical_throat_station_matches_reference() {
    let p = contour(&spec(conical(15.0), 8.0), 256).unwrap();
    let rt = 0.05;
    let throat = p.points[p.throat_index];
    assert!((throat[1] / rt - 1.0).abs() < 1e-12, "throat r = {}", throat[1] / rt);
    assert!((throat[0] / rt - 4.1339746).abs() < 1e-3, "z_t = {}", throat[0] / rt);
}

#[test]
fn conical_exit_lands_on_exact_length_and_radius() {
    let p = contour(&spec(conical(15.0), 8.0), 256).unwrap();
    let rt = 0.05;
    let last = *p.points.last().unwrap();
    assert!((last[1] - rt * 8.0f64.sqrt()).abs() < 1e-12 * rt);
    let alpha = 15.0f64.to_radians();
    let l_n = ((8.0f64.sqrt() - 1.0) + 0.382 * (1.0 / alpha.cos() - 1.0)) / alpha.tan();
    let z_span = (last[0] - p.points[p.throat_index][0]) / rt;
    assert!((z_span - l_n).abs() < 1e-12, "L_n = {z_span}, expected {l_n}");
    let m = slope_at(&p, p.points.len() - 1);
    assert!((m - alpha.tan()).abs() < 1e-9);
}

#[test]
fn bell_end_slopes_match_rao_angles() {
    let p = contour(&spec(parabolic(0.8), 25.0), 4096).unwrap();
    let rt = 0.05;
    let (tn, te) = angles(25.0, 0.8);
    let last = *p.points.last().unwrap();
    assert!((last[1] / rt - 5.0).abs() < 1e-12);
    let m_exit = slope_at(&p, p.points.len() - 1);
    assert!((m_exit - te.to_radians().tan()).abs() < 2e-3, "exit slope {m_exit}");
    let zt = p.points[p.throat_index][0] / rt;
    let i = nearest_to(&p, rt, zt + 0.382 * tn.to_radians().sin());
    let m_n = slope_at(&p, i);
    assert!((m_n - tn.to_radians().tan()).abs() < 2e-2, "junction slope {m_n}");
    let s15 = 15.0f64.to_radians();
    let reference = ((5.0 - 1.0) + 1.5 * (1.0 / s15.cos() - 1.0)) / s15.tan();
    let l_n = (last[0] - p.points[p.throat_index][0]) / rt;
    assert!((l_n - 0.8 * reference).abs() < 1e-9, "L_n = {l_n}, L_c15 = {reference}");
}

#[test]
fn bell_length_reference_is_independent_of_the_nozzle_throat_arc() {
    let a = nozzle(0.05, 25.0, 0.382, parabolic(0.8));
    let b = nozzle(0.05, 25.0, 0.300, parabolic(0.8));
    let len = |n: &NozzleSpec| {
        let p = contour(n, 512).unwrap();
        (p.points.last().unwrap()[0] - p.points[p.throat_index][0]) / 0.05
    };
    assert!((len(&a) - len(&b)).abs() < 1e-12, "{} vs {}", len(&a), len(&b));
    let s15 = 15.0f64.to_radians();
    let with_own_arc = 0.8 * ((4.0) + 0.382 * (1.0 / s15.cos() - 1.0)) / s15.tan();
    assert!((len(&a) / with_own_arc - 1.00983).abs() < 1e-4, "ratio {}", len(&a) / with_own_arc);
}

#[test]
fn direct_bell_reproduces_its_input_angles() {
    let p = contour(&nozzle(0.05, 34.3, 0.300, direct(32.0, 6.0, 0.76)), 4096).unwrap();
    let rt = 0.05;
    let last = *p.points.last().unwrap();
    assert!((last[1] / rt - 34.3f64.sqrt()).abs() < 1e-12);
    let m_exit = slope_at(&p, p.points.len() - 1).atan().to_degrees();
    assert!((m_exit - 6.0).abs() < 0.05, "exit angle {m_exit} deg");
    let zt = p.points[p.throat_index][0] / rt;
    let i = nearest_to(&p, rt, zt + 0.300 * 32.0f64.to_radians().sin());
    let m_n = slope_at(&p, i).atan().to_degrees();
    assert!((m_n - 32.0).abs() < 0.5, "junction angle {m_n} deg");
    let l_n = (last[0] - p.points[p.throat_index][0]) / rt;
    assert!((l_n - 0.76 * l_c15(34.3)).abs() < 1e-9, "L_n = {l_n}");
}

#[test]
fn direct_bell_rejects_impossible_angles() {
    let bad = |k: ContourKind| contour(&spec(k, 34.3), 256).is_err();
    assert!(bad(direct(6.0, 32.0, 0.76)));
    assert!(bad(direct(32.0, 6.0, 0.2)));
    assert!(bad(direct(32.0, 6.0, -1.0)));
    for lf in [0.76, 1.0, 1.5] {
        assert!(bad(direct(32.0, 0.0, lf)), "theta_e = 0 accepted at length_fraction {lf}");
    }
    assert!(bad(direct(32.0, 0.001, 1e9)));
}

#[test]
fn bell_rejection_message_says_which_way_to_move() {
    let msg = |eps: f64, tn: f64, te: f64, lf: f64| {
        text(contour(&spec(direct(tn, te, lf), eps), 256))
    };
    let short = msg(34.3, 32.0, 6.0, 0.2);
    assert!(short.contains("too short"), "{short}");
    let long = msg(1.2, 20.0, 6.0, 1.5);
    assert!(long.contains("too long"), "{long}");
}

#[test]
fn bell_monotone_in_z_and_r() {
    let p = contour(&spec(parabolic(0.8), 25.0), 512).unwrap();
    for i in p.throat_index..p.points.len() - 1 {
        assert!(p.points[i + 1][1] >= p.points[i][1] - 1e-15);
    }
    for i in 0..p.throat_index {
        assert!(p.points[i + 1][1] <= p.points[i][1] + 1e-15);
    }
}

#[test]
fn invalid_specs_are_rejected() {
    assert!(contour(&spec(conical(15.0), 0.9), 128).is_err());
    assert!(contour(&spec(parabolic(0.5), 25.0), 128).is_err());
    let mut n = spec(conical(15.0), 8.0);
    n.throat_radius_m = s(-1.0);
    assert!(contour(&n, 128).is_err());
    n = spec(conical(15.0), 8.0);
    n.contraction_ratio = s(1.05);
    assert!(contour(&n, 128).is_err());
}

#[test]
fn every_fault_of_a_spec_has_its_text() {
    let told = |change: &dyn Fn(&mut NozzleSpec)| {
        let mut n = spec(conical(15.0), 8.0);
        change(&mut n);
        text(n.validate(&M))
    };
    assert_eq!(
        told(&|n| n.throat_radius_m = s(-1.0)),
        "invalid geometry: throat_radius_m = -1"
    );
    assert_eq!(
        told(&|n| n.area_ratio = s(0.9)),
        "invalid geometry: area_ratio = 0.9 (must be > 1)"
    );
    assert_eq!(
        told(&|n| n.contraction_ratio = s(1.0)),
        "invalid geometry: contraction_ratio = 1 (must be > 1)"
    );
    assert_eq!(
        told(&|n| n.converge_half_angle_deg = s(90.0)),
        "invalid geometry: converge_half_angle_deg = 90"
    );
    assert_eq!(told(&|n| n.throat_arc_up = s(0.0)), "invalid geometry: throat_arc_up = 0");
    assert_eq!(told(&|n| n.throat_arc_down = s(0.0)), "invalid geometry: throat_arc_down = 0");
    assert_eq!(
        told(&|n| n.contraction_ratio = s(1.05)),
        "invalid geometry: chamber radius 1.0247 r_t does not clear the upstream throat arc \
         (tangency at 1.2010 r_t); increase contraction_ratio or reduce throat_arc_up"
    );
    assert_eq!(told(&|n| n.contour = conical(0.0)), "invalid geometry: cone half_angle_deg = 0");
    assert_eq!(
        told(&|n| n.area_ratio = s(1.01)),
        "invalid geometry: area_ratio 1.01 too small: exit radius sits inside the downstream \
         throat arc"
    );
    assert_eq!(
        told(&|n| n.contour = parabolic(0.5)),
        "invalid geometry: bell_percent = 0.5 (supported range 0.6..=0.9)"
    );
    assert_eq!(
        told(&|n| n.contour = direct(95.0, 6.0, 0.7)),
        "invalid geometry: theta_n_deg = 95"
    );
    assert_eq!(
        told(&|n| n.contour = direct(32.0, 0.0, 0.7)),
        "invalid geometry: theta_e_deg = 0 (must be in 0 < theta_e < theta_n = 32; a zero exit \
         angle leaves the length unbounded)"
    );
    assert_eq!(
        told(&|n| n.contour = direct(32.0, 6.0, 2.0)),
        "invalid geometry: length_fraction = 2 (supported range 0.0..=1.5 of the 15 deg \
         reference cone)"
    );
}

// ---- curve ------------------------------------------------------------------

fn curves() -> Vec<(&'static str, NozzleCurve)> {
    vec![
        ("demo cone", NozzleCurve::new(nozzle(0.05, 8.0, 0.382, conical(15.0)))),
        ("RS-25 80% bell", NozzleCurve::new(nozzle(0.138, 69.0, 0.382, parabolic(0.80)))),
        (
            "Raptor 2 measured bell",
            NozzleCurve::new(nozzle(0.115, 34.3, 0.300, direct(32.0, 6.0, 0.76))),
        ),
        ("Merlin Vac 75% bell", NozzleCurve::new(nozzle(0.128, 165.0, 0.382, parabolic(0.75)))),
    ]
}

fn rt_of(c: &NozzleCurve) -> f64 {
    d(c.spec.throat_radius_m)
}

fn for_cells(dz: f64, dr: f64) -> Tessellation {
    Tessellation::from_cell_size(&M, s(dz), s(dr))
}

fn drawn(c: &NozzleCurve, t: &Tessellation) -> Wall {
    wall(&c.tessellate(&M, t).unwrap())
}

fn radius(c: &NozzleCurve, z: f64) -> Option<f64> {
    c.radius_at(&M, s(z)).map(d)
}

fn tangent(c: &NozzleCurve, z: f64) -> P2 {
    p2(c.tangent_at(&M, s(z)).unwrap())
}

#[test]
fn tessellation_lies_on_the_analytic_curve_within_tolerance() {
    for (name, c) in curves() {
        let rt = rt_of(&c);
        let t = for_cells(0.145 * rt, 0.05 * rt);
        let p = drawn(&c, &t);
        let mut worst_vertex = 0.0f64;
        let mut worst_mid = 0.0f64;
        for pair in p.points.windows(2) {
            worst_vertex =
                worst_vertex.max((radius(&c, pair[0][0]).unwrap() - pair[0][1]).abs());
            let zm = 0.5 * (pair[0][0] + pair[1][0]);
            let rm = 0.5 * (pair[0][1] + pair[1][1]);
            worst_mid = worst_mid.max((radius(&c, zm).unwrap() - rm).abs());
        }
        let last = *p.points.last().unwrap();
        worst_vertex = worst_vertex.max((radius(&c, last[0]).unwrap() - last[1]).abs());
        assert!(worst_vertex < 1e-12 * rt, "{name}: off the curve ({worst_vertex:.3e} m)");
        assert!(worst_mid <= d(t.chord_tol_m), "{name}: chord deviation {worst_mid:.3e} m");
    }
}

#[test]
fn tessellation_is_monotone_with_the_throat_at_argmin_r() {
    for (name, c) in curves() {
        for cells_per_rt in [8.0, 14.0, 20.0, 40.0, 160.0] {
            for aspect in [1.0, 2.9, 8.0] {
                let rt = rt_of(&c);
                let dr = rt / cells_per_rt;
                let t = for_cells(aspect * dr, dr);
                let p = drawn(&c, &t);
                let here = format!("{name} @ {cells_per_rt} cells/r_t, aspect {aspect}");
                for pair in p.points.windows(2) {
                    assert!(pair[1][0] > pair[0][0], "{here}: z not strictly increasing");
                }
                let rmin = p.points.iter().map(|q| q[1]).fold(f64::MAX, f64::min);
                assert!((rmin / rt - 1.0).abs() < 1e-12, "{here}: min radius {}", rmin / rt);
                assert_eq!(
                    p.points.iter().filter(|q| q[1] <= rmin + 1e-15 * rt).count(),
                    1,
                    "{here}: throat is not a strict minimum"
                );
                assert!(
                    (p.points[p.throat_index][1] - rmin).abs() < 1e-15 * rt,
                    "{here}: throat_index does not point at the minimum"
                );
                assert!(p.points.len() <= t.max_points, "{here}: over the point cap");
            }
        }
    }
}

#[test]
fn analytic_angles_reproduce_their_inputs_exactly() {
    let c = NozzleCurve::new(nozzle(0.115, 34.3, 0.300, direct(32.0, 6.0, 0.76)));
    assert_eq!(c.divergent_angles_deg(&M).unwrap(), (s(32.0), s(6.0)));
    let z_e = d(c.length_m(&M).unwrap());
    let tg = tangent(&c, z_e);
    assert!((tg[1].atan2(tg[0]).to_degrees() - 6.0).abs() < 1e-9, "exit tangent {tg:?}");
    let cone = NozzleCurve::new(nozzle(0.05, 8.0, 0.382, conical(15.0)));
    assert_eq!(cone.divergent_angles_deg(&M).unwrap(), (s(15.0), s(15.0)));
    assert_eq!(d(c.max_wall_angle_deg(&M).unwrap()), 32.0);
    assert_eq!(d(c.exit_angle_deg(&M).unwrap()), 6.0);
}

#[test]
fn tessellation_reproduces_the_analytic_angles_within_the_turn_cap() {
    for (name, c) in curves() {
        let rt = rt_of(&c);
        let t = for_cells(0.145 * rt, 0.05 * rt);
        let p = drawn(&c, &t);
        let (tn, te) = c.divergent_angles_deg(&M).unwrap();
        let n = p.points.len();
        let (a, b) = (p.points[n - 2], p.points[n - 1]);
        let te_chord = ((b[1] - a[1]) / (b[0] - a[0])).atan().to_degrees();
        let tn_chord = (p.throat_index + 1..n - 1)
            .map(|i| {
                let (u, v) = (p.points[i - 1], p.points[i + 1]);
                ((v[1] - u[1]) / (v[0] - u[0])).atan().to_degrees()
            })
            .fold(f64::NEG_INFINITY, f64::max);
        assert!((te_chord - d(te)).abs() <= d(t.max_turn_deg), "{name}: exit {te_chord:.3}");
        assert!((tn_chord - d(tn)).abs() <= d(t.max_turn_deg), "{name}: junction {tn_chord:.3}");
    }
}

#[test]
fn halving_the_tolerance_does_not_move_the_wall() {
    for (name, c) in curves() {
        let rt = rt_of(&c);
        let base = for_cells(0.145 * rt, 0.05 * rt);
        let mut fine = base;
        fine.chord_tol_m = s(d(fine.chord_tol_m) * 0.5);
        fine.max_turn_deg = s(d(fine.max_turn_deg) * 0.5);
        let a = c.tessellate(&M, &base).unwrap();
        let b = c.tessellate(&M, &fine).unwrap();
        let z0 = d(a.points[0].z);
        let z1 = d(a.points.last().unwrap().z);
        let mut worst = 0.0f64;
        for k in 0..=2000 {
            let z = s(z0 + (z1 - z0) * k as f64 / 2000.0);
            if let (Some(ra), Some(rb)) = (a.radius_at(&M, z), b.radius_at(&M, z)) {
                worst = worst.max((d(ra) - d(rb)).abs() / rt);
            }
        }
        assert!(worst < 2.0 * d(base.chord_tol_m) / rt, "{name}: {worst:.3e} r_t");
    }
}

#[test]
fn the_point_cap_binds_and_the_wall_stays_valid() {
    for (name, c) in curves() {
        let t = Tessellation {
            chord_tol_m: s(1e-12),
            max_turn_deg: s(0.01),
            max_points: MAX_POINTS,
        };
        let p = drawn(&c, &t);
        assert!(
            p.points.len() <= t.max_points && p.points.len() > 1000,
            "{name}: {} points",
            p.points.len()
        );
        for pair in p.points.windows(2) {
            assert!(pair[1][0] > pair[0][0], "{name}: z not strictly increasing at the cap");
        }
    }
}

fn is_near_a_join(c: &NozzleCurve, z_rt: f64) -> bool {
    c.pieces(&M).unwrap().iter().any(|p| {
        (d(p.end(&M).z) - z_rt).abs() < 1e-3 || (d(p.start(&M).z) - z_rt).abs() < 1e-3
    })
}

#[test]
fn the_tangent_is_the_derivative_of_the_radius() {
    for (name, c) in curves() {
        let rt = rt_of(&c);
        let z1 = d(c.length_m(&M).unwrap());
        let h = 1e-7 * z1;
        let mut worst = 0.0f64;
        for k in 1..2000 {
            let z = z1 * k as f64 / 2000.0;
            let (Some(a), Some(b)) = (radius(&c, z - h), radius(&c, z + h)) else {
                continue;
            };
            let fd = (b - a) / (2.0 * h);
            let t = tangent(&c, z);
            let an = t[1] / t[0];
            if (fd - an).abs() > 0.05 && is_near_a_join(&c, z / rt) {
                continue;
            }
            worst = worst.max((fd - an).abs());
        }
        assert!(worst < 1e-4, "{name}: tangent disagrees with radius by {worst:.3e}");
        let z_t = d(c.throat_z_rt(&M)) * rt;
        assert!(tangent(&c, 0.5 * z_t)[1] <= 0.0, "{name}: the converging wall must not climb");
        assert!(
            tangent(&c, 0.5 * (z_t + z1))[1] > 0.0,
            "{name}: the diverging wall must climb"
        );
        let r1 = d(c.spec.throat_arc_up);
        assert!(
            tangent(&c, z_t - 0.3 * r1 * rt)[1] < 0.0,
            "{name}: the upstream throat arc must descend"
        );
        let r2 = d(c.spec.throat_arc_down);
        assert!(
            tangent(&c, z_t + 0.3 * r2 * rt)[1] > 0.0,
            "{name}: the downstream throat arc must climb"
        );
    }
}

#[test]
fn radius_at_is_bounded_and_the_bezier_inverts_exactly() {
    let c = curves()[1].1;
    let rt = rt_of(&c);
    assert_eq!(radius(&c, -1e-6 * rt - 1e-9), None);
    assert_eq!(radius(&c, d(c.length_m(&M).unwrap()) + 1e-6), None);
    assert!((radius(&c, 0.0).unwrap() / rt - 2.0).abs() < 1e-12);
    let b = c.bell(&M).unwrap();
    let (n, q, e) = (p2(b.n), p2(b.q), p2(b.e));
    let z_t = d(c.throat_z_rt(&M));
    let mut worst = 0.0f64;
    for k in 0..=1000 {
        let t = k as f64 / 1000.0;
        let (a, bb, cc) = ((1.0 - t) * (1.0 - t), 2.0 * t * (1.0 - t), t * t);
        let z = a * n[0] + bb * q[0] + cc * e[0] + z_t;
        let r = a * n[1] + bb * q[1] + cc * e[1];
        worst = worst.max((radius(&c, z * rt).unwrap() / rt - r).abs());
    }
    assert!(worst < 1e-10, "Bezier inversion worst |dr| {worst:.3e} r_t");
}

#[test]
fn counts_shrink_to_the_cap_and_keep_their_floors() {
    let floors = vec![1, 1, 2, 2, 2];
    assert_eq!(fit_counts(&M, vec![1, 1, 3, 3, 3], &floors, 12), vec![1, 1, 3, 3, 3]);
    let tight = fit_counts(&M, vec![1, 1, 40, 40, 400], &floors, 21);
    assert_eq!(tight.iter().sum::<usize>(), 20);
    assert!(tight.iter().zip(&floors).all(|(c, f)| c >= f));
    assert_eq!(fit_counts(&M, vec![9, 9, 9, 9, 9], &floors, 0), floors);
    // The last of the largest gives way first.
    assert_eq!(fit_counts(&M, vec![1, 1, 9, 9, 9], &floors, 25), vec![1, 1, 7, 7, 7]);
    assert_eq!(fit_counts(&M, vec![1, 1, 5, 5, 5], &floors, 15), vec![1, 1, 4, 4, 4]);
}

// ---- the fixed-sample wall ------------------------------------------------------

fn push(pts: &mut Vec<P2>, p: P2) {
    let dup = match pts.last() {
        Some(q) => !(p[0] - q[0] > 1e-12),
        None => false,
    };
    if !dup {
        pts.push(p);
    }
}

fn push_bell(pts: &mut Vec<P2>, z_t: f64, r2: f64, re: f64, l_n: f64, deg: (f64, f64), n: P2) {
    let (n_arc_dn, n_div) = (n[0] as usize, n[1] as usize);
    let (tn, te) = (deg.0.to_radians(), deg.1.to_radians());
    assert!(tn > te);
    let nz = r2 * tn.sin();
    let nr = 1.0 + r2 * (1.0 - tn.cos());
    let (ez, er) = (l_n, re);
    let (m1, m2) = (tn.tan(), te.tan());
    let c1 = nr - m1 * nz;
    let c2 = er - m2 * ez;
    let qz = (c2 - c1) / (m1 - m2);
    let qr = (m1 * c2 - m2 * c1) / (m1 - m2);
    assert!(nz < qz && qz < ez);
    for k in 1..=n_arc_dn {
        let phi = tn * k as f64 / n_arc_dn as f64;
        push(pts, [z_t + r2 * phi.sin(), 1.0 + r2 * (1.0 - phi.cos())]);
    }
    for k in 1..=n_div {
        let t = k as f64 / n_div as f64;
        let a = (1.0 - t) * (1.0 - t);
        let b = 2.0 * t * (1.0 - t);
        let c = t * t;
        push(pts, [z_t + a * nz + b * qz + c * ez, a * nr + b * qr + c * er]);
    }
}

/// The same wall, written out in one piece.
fn wall_in_one_piece(spec: &NozzleSpec, samples: usize) -> Wall {
    let rt = d(spec.throat_radius_m);
    let eps = d(spec.area_ratio);
    let re = eps.sqrt();
    let rc = d(spec.contraction_ratio).sqrt();
    let beta = d(spec.converge_half_angle_deg).to_radians();
    let r1 = d(spec.throat_arc_up);
    let r2 = d(spec.throat_arc_down);
    let ra_up = 1.0 + r1 * (1.0 - beta.cos());
    let z_t = 2.0 + (rc - ra_up) / beta.tan() + r1 * beta.sin();
    let n = samples.max(64);
    let n_arc_up = (n / 8).max(8);
    let n_arc_dn = (n / 8).max(8);
    let n_div = n.saturating_sub(n_arc_up + n_arc_dn + 4).max(16);
    let counts = [n_arc_dn as f64, n_div as f64];
    let mut pts: Vec<P2> = Vec::new();
    push(&mut pts, [0.0, rc]);
    push(&mut pts, [2.0, rc]);
    push(&mut pts, [z_t - r1 * beta.sin(), ra_up]);
    for k in 1..=n_arc_up {
        let phi = beta * (1.0 - k as f64 / n_arc_up as f64);
        push(&mut pts, [z_t - r1 * phi.sin(), 1.0 + r1 * (1.0 - phi.cos())]);
    }
    let throat_index = pts.len() - 1;
    match spec.contour {
        ContourKind::Conical { half_angle_deg } => {
            let alpha = d(half_angle_deg).to_radians();
            let l_n = ((re - 1.0) + r2 * (1.0 / alpha.cos() - 1.0)) / alpha.tan();
            for k in 1..=n_arc_dn {
                let phi = alpha * k as f64 / n_arc_dn as f64;
                push(&mut pts, [z_t + r2 * phi.sin(), 1.0 + r2 * (1.0 - phi.cos())]);
            }
            push(&mut pts, [z_t + l_n, re]);
        }
        ContourKind::ParabolicBell { bell_percent } => {
            let bp = d(bell_percent);
            push_bell(&mut pts, z_t, r2, re, bp * l_c15(eps), angles(eps, bp), counts);
        }
        ContourKind::DirectBell { theta_n_deg, theta_e_deg, length_fraction } => {
            let deg = (d(theta_n_deg), d(theta_e_deg));
            push_bell(&mut pts, z_t, r2, re, d(length_fraction) * l_c15(eps), deg, counts);
        }
    }
    for p in &mut pts {
        p[0] *= rt;
        p[1] *= rt;
    }
    Wall { points: pts, throat_index }
}

fn engines() -> Vec<(&'static str, NozzleSpec)> {
    vec![
        ("demo (15 deg cone)", nozzle(0.05, 8.0, 0.382, conical(15.0))),
        ("Merlin 1D", nozzle(0.131, 16.0, 0.382, parabolic(0.78))),
        ("F-1", nozzle(0.465, 16.0, 0.382, parabolic(0.75))),
        ("Raptor 2", nozzle(0.115, 34.3, 0.300, direct(32.0, 6.0, 0.76))),
        ("AJ10-190", nozzle(0.073, 55.0, 0.382, parabolic(0.78))),
        ("RS-25", nozzle(0.138, 69.0, 0.382, parabolic(0.80))),
        ("Merlin Vac", nozzle(0.128, 165.0, 0.382, parabolic(0.75))),
    ]
}

#[test]
fn curve_tessellation_is_bit_identical_to_the_legacy_generator() {
    for (name, n) in engines() {
        for samples in [64, 128, 256, 512, 1024, 4096] {
            let want = wall_in_one_piece(&n, samples);
            let got = contour(&n, samples).unwrap();
            assert_eq!(want.throat_index, got.throat_index, "{name} @ {samples}: throat_index");
            assert_eq!(want.points.len(), got.points.len(), "{name} @ {samples}: point count");
            for (i, (a, b)) in want.points.iter().zip(&got.points).enumerate() {
                assert_eq!(
                    a.map(f64::to_bits),
                    b.map(f64::to_bits),
                    "{name} @ {samples}: point {i} differs: {a:?} vs {b:?}"
                );
            }
        }
    }
}

#[test]
fn chamber_len_default_is_the_family_value() {
    assert_eq!(f64::from_bits(CHAMBER_LEN_RT), 2.0);
    let n = engines()[0].1;
    let c = NozzleCurve::new(n);
    assert_eq!(d(c.chamber_len_rt), 2.0);
    let mut long = c;
    long.chamber_len_rt = s(3.0);
    let a = wall(&c.tessellate_fixed(&M, 256).unwrap());
    let b = wall(&long.tessellate_fixed(&M, 256).unwrap());
    let dz =
        (b.points[b.throat_index][0] - a.points[a.throat_index][0]) / d(n.throat_radius_m);
    assert!((dz - 1.0).abs() < 1e-12, "throat moved by {dz} r_t, want 1.0");
}

#[test]
fn rao_table_anchors_are_frozen() {
    const ANCHORS: [(f64, f64, f64, f64); 5] = [
        (16.0, 0.78, 28.599_083_358_037_227, 10.177_759_785_030_357),
        (16.0, 0.75, 29.504_938_750_920_676, 10.978_615_177_913_806),
        (55.0, 0.78, 32.381_882_223_687_37, 7.963_372_780_037_542),
        (69.0, 0.80, 32.429_336_534_006_886, 7.267_665_866_498_278),
        (165.0, 0.75, 35.125, 8.05),
    ];
    for (eps, bp, tn, te) in ANCHORS {
        let (gn, ge) = angles(eps, bp);
        assert!(
            (gn - tn).abs() < 1e-12 && (ge - te).abs() < 1e-12,
            "rao_angles({eps}, {bp}) = ({gn}, {ge}), not ({tn}, {te})"
        );
    }
}

#[test]
fn throat_station_agrees_between_the_curve_and_the_frozen_tessellation() {
    for (name, n) in engines() {
        let rt = d(n.throat_radius_m);
        let c = NozzleCurve::new(n);
        let p = wall(&c.tessellate_fixed(&M, 256).unwrap());
        let from_polyline = p.points[p.throat_index][0] / rt;
        let z_t = d(c.throat_z_rt(&M));
        assert_eq!(from_polyline.to_bits(), z_t.to_bits(), "{name}: {z_t} vs {from_polyline}");
        assert!((p.points[p.throat_index][1] / rt - 1.0).abs() < 1e-15);
        assert!((radius(&c, z_t * rt).unwrap() / rt - 1.0).abs() < 1e-15);
    }
}

#[test]
fn bell_geometry_is_ordered_and_tangent_to_both_angles() {
    for (name, n) in engines() {
        let c = NozzleCurve::new(n);
        let Ok(b) = c.bell(&M) else {
            continue;
        };
        let (pn, pq, pe) = (p2(b.n), p2(b.q), p2(b.e));
        assert!(
            pn[0] < pq[0] && pq[0] < pe[0],
            "{name}: N_z {} < Q_z {} < E_z {} violated",
            pn[0],
            pq[0],
            pe[0]
        );
        let slope = |a: P2, z: P2| (z[1] - a[1]) / (z[0] - a[0]);
        assert!(
            (slope(pn, pq) - d(b.theta_n_deg).to_radians().tan()).abs() < 1e-12,
            "{name}: N->Q leg is not tangent at theta_n"
        );
        assert!(
            (slope(pq, pe) - d(b.theta_e_deg).to_radians().tan()).abs() < 1e-12,
            "{name}: Q->E leg is not tangent at theta_e"
        );
        assert!((pe[1] - d(n.area_ratio).sqrt()).abs() < 1e-12, "{name}: exit radius");
    }
}

#[test]
fn a_cone_has_no_bell_and_a_chamber_has_a_length() {
    let cone = curves()[0].1;
    assert_eq!(
        text(cone.bell(&M)),
        "invalid geometry: a conical contour has no Bezier control point"
    );
    let mut flat = cone;
    flat.chamber_len_rt = s(0.0);
    assert_eq!(
        text(flat.pieces(&M)),
        "invalid geometry: chamber_len_rt = 0 (must be > 0)"
    );
    assert!(flat.radius_at(&M, s(0.1)).is_none());
    assert!(flat.tangent_at(&M, s(0.1)).is_none());
    let crossed = BellGeometry::solve(&M, s(0.382), s(5.0), s(10.0), s(6.0), s(6.0));
    assert_eq!(text(crossed), "invalid geometry: theta_n (6) must exceed theta_e (6)");
}

// ---- editor --------------------------------------------------------------------------

fn three_points() -> WallProfile {
    profile(&[[0.0, 0.10], [0.10, 0.05], [0.30, 0.12]], 1)
}

#[test]
fn round_trip_preserves_points_and_recomputes_throat() {
    let e = Editor::from_profile(&M, &three_points());
    let p = e.to_profile(&M).unwrap();
    assert_eq!(wall(&p).points, wall(&three_points()).points);
    assert_eq!(p.throat_index, 1);
}

#[test]
fn drag_moves_throat_and_to_profile_tracks_it() {
    let mut e = Editor::from_profile(&M, &three_points());
    e.drag(&M, 2, pt([0.30, 0.01]));
    let p = e.to_profile(&M).unwrap();
    assert_eq!(p.throat_index, 2);
    assert_eq!(e.selection, Some(2));
}

#[test]
fn hit_test_picks_nearest_within_tol() {
    let e = Editor::from_profile(&M, &three_points());
    assert_eq!(e.hit_test(&M, pt([0.101, 0.049]), s(0.01)), Some(1));
    assert_eq!(e.hit_test(&M, pt([0.2, 0.2]), s(0.01)), None);
    assert_eq!(e.hit_test(&M, pt([0.02, 0.09]), s(1.0)), Some(0));
}

#[test]
fn drag_clamps_z_between_neighbours_and_r_positive() {
    let mut e = Editor::from_profile(&M, &three_points());
    e.drag(&M, 1, pt([-5.0, -3.0]));
    let p = wall(&e.to_profile(&M).unwrap());
    assert!(p.points[1][0] > p.points[0][0]);
    assert!(p.points[1][1] > 0.0);
    e.drag(&M, 1, pt([99.0, 0.05]));
    assert!(e.to_profile(&M).is_ok());
    assert!(d(e.points[1].z) < d(e.points[2].z));
}

#[test]
fn insert_keeps_z_order_and_remove_keeps_two_points() {
    let mut e = Editor::from_profile(&M, &three_points());
    e.insert(&M, pt([0.20, 0.08]));
    assert_eq!(e.points.len(), 4);
    assert!(e.to_profile(&M).is_ok());
    assert_eq!(e.selection, Some(2));
    e.insert(&M, pt([0.20, 0.09]));
    assert!(e.to_profile(&M).is_ok());
    for _ in 0..10 {
        e.remove(0);
    }
    assert_eq!(e.points.len(), 2);
    assert!(e.to_profile(&M).is_ok());
}

// ---- drawn walls ------------------------------------------------------------------------

fn for_domain(lz: f64, lr: f64) -> FreeformBounds {
    FreeformBounds::for_domain(s(lz), s(lr))
}

fn points_of(points: &[P2]) -> Vec<Point> {
    points.iter().map(|&q| pt(q)).collect()
}

fn drawn_editor() -> FreeformEditor {
    FreeformEditor::new(
        points_of(&[[0.0, 2.0], [4.0, 1.0], [10.0, 2.8]]),
        for_domain(46.4, 10.0),
    )
}

fn xs(e: &FreeformEditor) -> Vec<P2> {
    e.points().iter().map(|&q| p2(q)).collect()
}

#[test]
fn round_trip_preserves_points_and_finds_the_throat() {
    let e = drawn_editor();
    let p = e.to_profile(&M).unwrap();
    assert_eq!(wall(&p).points, xs(&e));
    assert_eq!(p.throat_index, 1);
}

#[test]
fn every_mutation_leaves_a_valid_profile() {
    let mut e = drawn_editor();
    e.drag(&M, 1, pt([-500.0, -500.0]));
    assert!(e.to_profile(&M).is_ok());
    e.drag(&M, 1, pt([500.0, 500.0]));
    assert!(e.to_profile(&M).is_ok());
    e.insert(&M, pt([2.0, 1.5]));
    assert!(e.to_profile(&M).is_ok());
    e.insert(&M, pt([2.0, 1.6]));
    assert!(e.to_profile(&M).is_ok());
    for i in (0..e.points().len()).rev() {
        e.remove(i);
        assert!(e.to_profile(&M).is_ok());
    }
    let n = e.points().len() - 1;
    e.drag(&M, n, pt([xs(&e)[n][0], 0.2]));
    assert_eq!(e.to_profile(&M).unwrap().throat_index, n);
}

#[test]
fn points_stay_inside_the_injected_bounds() {
    let mut e = drawn_editor();
    let b = e.bounds();
    e.drag(&M, 1, pt([4.0, 1e9]));
    assert!((xs(&e)[1][1] - (d(b.lr) - d(b.r_margin))).abs() < 1e-12);
    e.drag(&M, 1, pt([4.0, -1e9]));
    assert!((xs(&e)[1][1] - d(b.r_min)).abs() < 1e-12);
    e.drag(&M, 0, pt([-99.0, 2.0]));
    assert!(xs(&e)[0][0] >= 0.0);
    let n = e.points().len() - 1;
    e.drag(&M, n, pt([1e9, 2.0]));
    assert!(xs(&e)[n][0] <= d(b.lz) + 1e-12);
    for pair in xs(&e).windows(2) {
        assert!(pair[1][0] > pair[0][0]);
    }
    let mut tiny = FreeformEditor::new(points_of(&xs(&e)), for_domain(46.4, 1.0));
    tiny.drag(&M, 1, pt([4.0, 5.0]));
    assert!((xs(&tiny)[1][1] - f64::from_bits(R_MIN)).abs() < 1e-12);
}

#[test]
fn endpoints_are_protected_and_the_wall_keeps_a_floor() {
    let mut e = drawn_editor();
    e.insert(&M, pt([2.0, 1.5]));
    e.insert(&M, pt([6.0, 1.5]));
    let n = e.points().len();
    assert!(!e.remove(0), "first point must be protected");
    assert!(!e.remove(n - 1), "last point must be protected");
    assert_eq!(e.points().len(), n);
    while e.remove(1) {}
    assert_eq!(e.points().len(), MIN_POINTS);
    assert!(e.to_profile(&M).is_ok());
}

#[test]
fn shrinking_the_domain_pulls_the_wall_inside_it() {
    let mut e = FreeformEditor::new(
        points_of(&[[0.0, 8.3], [4.0, 1.0], [10.0, 8.3], [40.0, 8.3]]),
        for_domain(46.4, 27.0),
    );
    assert!(e.to_profile(&M).is_ok());
    e.set_bounds(&M, for_domain(12.0, 5.0));
    let b = e.bounds();
    for p in xs(&e) {
        assert!(p[0] >= 0.0 && p[0] <= d(b.lz) + 1e-9, "z {} outside", p[0]);
        assert!(
            p[1] >= d(b.r_min) - 1e-12 && p[1] <= d(b.lr) - d(b.r_margin) + 1e-12,
            "r {} outside the box",
            p[1]
        );
    }
    for pair in xs(&e).windows(2) {
        assert!(pair[1][0] > pair[0][0], "z collapsed at {pair:?}");
    }
    assert!(e.to_profile(&M).is_ok(), "still a valid profile after the shrink");
}

#[test]
fn hit_test_picks_the_nearest_within_tolerance() {
    let e = drawn_editor();
    assert_eq!(e.hit_test(&M, pt([4.05, 0.95]), s(0.2)), Some(1));
    assert_eq!(e.hit_test(&M, pt([7.0, 7.0]), s(0.2)), None);
    assert_eq!(e.hit_test(&M, pt([0.5, 1.9]), s(5.0)), Some(0));
}

#[test]
fn selection_follows_removal() {
    let mut e = drawn_editor();
    e.insert(&M, pt([2.0, 1.5]));
    e.insert(&M, pt([6.0, 1.5]));
    assert_eq!(e.selection(), Some(3));
    assert_eq!(e.points().len(), 5);
    assert!(e.remove(1));
    assert_eq!(e.selection(), Some(2));
    e.drag(&M, 1, pt([3.0, 1.2]));
    assert_eq!(e.selection(), Some(1));
    assert!(e.remove(1));
    assert_eq!(e.selection(), None);
    assert_eq!(e.points().len(), MIN_POINTS);
    e.drag(&M, 1, pt([3.0, 1.2]));
    assert!(!e.remove(1));
    assert_eq!(e.selection(), Some(1));
}

// ---- grading ------------------------------------------------------------------------------

fn axis(hold_end: f64, base: f64, len: f64, growth: f64, max_ratio: f64) -> Vec<f64> {
    graded_axis(&M, s(hold_end), s(base), s(len), s(growth), s(max_ratio))
        .into_iter()
        .map(d)
        .collect()
}

fn widths(edges: &[f64]) -> Vec<f64> {
    edges.windows(2).map(|pair| pair[1] - pair[0]).collect()
}

#[test]
fn axis_holds_base_then_grows_capped() {
    let e = axis(2.0, 0.1, 30.0, 1.05, 4.0);
    let wd = widths(&e);
    assert_eq!(e[0], 0.0);
    assert_eq!(*e.last().unwrap(), 30.0);
    for k in 0..20 {
        assert!((wd[k] - 0.1).abs() < 1e-12, "held cell {k}: {}", wd[k]);
    }
    for k in 21..wd.len() {
        let ratio = wd[k] / wd[k - 1];
        assert!(ratio <= 1.05 + 1e-9, "ratio {ratio} at {k}");
        assert!(ratio >= 1.0 - 1e-9, "shrinking at {k}");
        assert!(wd[k] <= 0.4 * 1.1, "cell {k} above cap: {}", wd[k]);
    }
    assert!(wd.len() < 200, "graded axis has {} cells vs 300 uniform", wd.len());
    for k in 1..e.len() {
        assert!(e[k] > e[k - 1]);
    }
}

#[test]
fn axis_uniform_when_hold_covers_domain() {
    let e = axis(9.99, 0.1, 10.0, 1.05, 4.0);
    let wd = widths(&e);
    assert_eq!(wd.len(), 100);
    for x in &wd {
        assert!((x - 0.1).abs() < 1e-12);
    }
    let e = axis(1.0, 0.1, 10.0, 1.0, 4.0);
    assert_eq!(widths(&e).len(), 100);
}

#[test]
fn grade_from_solid_holds_base_across_the_solid_span() {
    let base = uniform(100, 40, 0.1, 0.05);
    let mut field = SolidField::empty(base.clone());
    for ir in 10..40 {
        for iz in 10..30 {
            field.fraction[base.idx(iz, ir)] = w(1.0);
        }
    }
    let grade = GradeSpec::new(s(0.1), s(0.05), s(40.0), s(8.0));
    let g = grade_from_solid(&M, &field, &grade).unwrap();
    assert!((d(g.lz()) - 40.0).abs() < 1e-9);
    assert!((d(g.lr()) - 8.0).abs() < 1e-9);
    let z_hold = 3.0 + 0.8;
    let r_hold = 2.0 + 0.4;
    for iz in 0..g.nz {
        if d(g.z_edges()[iz + 1]) <= z_hold + 1e-9 {
            assert!((d(g.dz(iz)) - 0.1).abs() < 1e-6, "dz({iz}) = {}", d(g.dz(iz)));
        }
    }
    for ir in 0..g.nr {
        if d(g.r_edges()[ir + 1]) <= r_hold + 1e-9 {
            assert!((d(g.dr(ir)) - 0.05).abs() < 1e-6, "dr({ir}) = {}", d(g.dr(ir)));
        }
    }
    assert!(g.nz < 250, "nz = {}", g.nz);
    assert!(g.nr < 110, "nr = {}", g.nr);
    let empty = SolidField::empty(base);
    let g = grade_from_solid(&M, &empty, &grade).unwrap();
    assert!((d(g.lz()) - 40.0).abs() < 1e-9);
}

#[test]
fn grade_from_solid_holds_base_across_a_rasterized_bell() {
    let refs = refs_lm(0.138);
    let bells = [
        ("80% table bell, eps 25", 25.0f64, 0.382, parabolic(0.8)),
        ("measured bell, eps 34.3", 34.3, 0.300, direct(32.0, 6.0, 0.76)),
    ];
    for (name, area_ratio, arc, kind) in bells {
        let p = generate_contour(&M, &nozzle(0.138, area_ratio, arc, kind), 512).unwrap();
        let (dz, dr) = (0.145, 0.05);
        let base = uniform(260, 260, dz as f32, dr as f32);
        let solid = rasterize(&M, &p, &base, refs).unwrap();
        assert!(solid.fraction.iter().any(|&x| d(x) > 0.0), "{name}: nothing rasterized");
        let grade = GradeSpec::new(s(dz), s(dr), s(60.0), s(26.0));
        let g = grade_from_solid(&M, &solid, &grade).unwrap();
        assert!((d(g.lz()) - 60.0).abs() < 1e-9 && (d(g.lr()) - 26.0).abs() < 1e-9, "{name}");
        let z_end = d(p.points.last().unwrap().z) / d(refs.l_m);
        let r_end = area_ratio.sqrt();
        for iz in 0..g.nz {
            if d(g.z_edges()[iz + 1]) <= z_end {
                assert!((d(g.dz(iz)) - dz).abs() < 1e-6, "{name}: dz({iz}) {}", d(g.dz(iz)));
            }
        }
        for ir in 0..g.nr {
            if d(g.r_edges()[ir + 1]) <= r_end {
                assert!((d(g.dr(ir)) - dr).abs() < 1e-6, "{name}: dr({ir}) {}", d(g.dr(ir)));
            }
        }
        let even = (60.0 / dz).round() as usize * (26.0 / dr).round() as usize;
        assert!(g.len() < even, "{name}: graded {} vs uniform {even}", g.len());
    }
}

#[test]
fn a_grading_that_cannot_be_met_is_refused() {
    let field = SolidField::empty(uniform(4, 4, 0.1, 0.1));
    let mut grade = GradeSpec::new(s(0.1), s(0.05), s(40.0), s(8.0));
    grade.growth = s(0.9);
    assert_eq!(
        text(grade_from_solid(&M, &field, &grade)),
        "invalid parameter: invalid GradeSpec: GradeSpec { base_dz: 0.1, base_dr: 0.05, lz: 40.0, \
         lr: 8.0, growth: 0.9, margin_cells: 8.0, max_ratio: 6.0 }"
    );
}

// ---- profile ----------------------------------------------------------------------------------

#[test]
fn radius_at_interpolates_and_bounds() {
    let p = profile(&[[0.0, 2.0], [1.0, 1.0], [3.0, 2.0]], 1);
    let r = |z: f64| p.radius_at(&M, s(z)).map(d);
    assert!(p.validate(&M).is_ok());
    assert_eq!(r(-0.1), None);
    assert_eq!(r(3.1), None);
    assert!((r(0.5).unwrap() - 1.5).abs() < 1e-12);
    assert!((r(1.0).unwrap() - 1.0).abs() < 1e-12);
    assert!((r(2.0).unwrap() - 1.5).abs() < 1e-12);
    assert!((r(3.0).unwrap() - 2.0).abs() < 1e-12);
}

#[test]
fn profile_validation_rejects_bad_input() {
    let mut p = profile(&[[0.0, 2.0], [1.0, 1.0]], 5);
    assert!(p.validate(&M).is_err());
    p.throat_index = 1;
    assert!(p.validate(&M).is_ok());
    p.points[1].z = s(-1.0);
    assert!(p.validate(&M).is_err());
    p.points[1] = pt([1.0, -0.5]);
    assert!(p.validate(&M).is_err());
}

#[test]
fn every_fault_of_a_profile_has_its_text() {
    let told = |points: &[P2], throat: usize| text(profile(points, throat).validate(&M));
    assert_eq!(
        told(&[[0.0, 1.0]], 0),
        "invalid geometry: profile needs at least 2 points, has 1"
    );
    assert_eq!(
        told(&[[0.0, 1.0], [f64::NAN, 2.0]], 0),
        "invalid geometry: point 1 is not finite: [NaN, 2.0]"
    );
    assert_eq!(
        told(&[[0.0, -1.5], [1.0, 2.0]], 0),
        "invalid geometry: point 0 has r = -1.5 <= 0"
    );
    assert_eq!(
        told(&[[0.0, 1.0], [0.0, 2.0]], 0),
        "invalid geometry: z not strictly increasing at point 1: 0 -> 0"
    );
    assert_eq!(
        told(&[[0.0, 1.0], [1.0, 2.0]], 7),
        "invalid geometry: throat_index 7 out of range (len 2)"
    );
}

// ---- wall angles -----------------------------------------------------------------------------------

#[test]
fn log_linear_at_eps_25_80_percent() {
    let (tn, te) = angles(25.0, 0.8);
    assert!((tn - 29.4604).abs() < 5e-4, "theta_n = {tn}");
    assert!((te - 8.7248).abs() < 5e-4, "theta_e = {te}");
    assert!((tn - 29.400).abs() > 5e-2);
    assert!((te - 8.750).abs() > 2e-2);
}

#[test]
fn anchors_reproduce_exactly() {
    let (tn, te) = angles(20.0, 0.8);
    assert!((tn - 28.8).abs() < 1e-12 && (te - 9.0).abs() < 1e-12);
    let (tn, te) = angles(4.0, 0.6);
    assert!((tn - 26.5).abs() < 1e-12 && (te - 20.5).abs() < 1e-12);
    let (tn, te) = angles(100.0, 0.9);
    assert!((tn - 32.0).abs() < 1e-12 && (te - 6.0).abs() < 1e-12);
}

#[test]
fn inputs_clamp_to_table_range() {
    assert_eq!(angles(1.5, 0.8), angles(4.0, 0.8));
    assert_eq!(angles(500.0, 0.8), angles(100.0, 0.8));
    assert_eq!(angles(25.0, 0.2), angles(25.0, 0.6));
    assert_eq!(angles(25.0, 1.0), angles(25.0, 0.9));
}

#[test]
fn tn_exceeds_te_everywhere() {
    for i in 0..40 {
        let eps = 4.0 * (25.0f64).powf(i as f64 / 39.0);
        for j in 0..7 {
            let bp = 0.6 + 0.3 * j as f64 / 6.0;
            let (tn, te) = angles(eps, bp);
            assert!(tn > te + 1.0, "tn {tn} te {te} at eps {eps} bp {bp}");
        }
    }
}

#[test]
fn tn_60_row_is_monotone_in_eps() {
    let mut prev = 0.0;
    for i in 0..60 {
        let eps = 4.0 * (25.0f64).powf(i as f64 / 59.0);
        let (tn, _) = angles(eps, 0.6);
        assert!(tn >= prev - 1e-12, "tn not monotone at eps {eps}");
        prev = tn;
    }
}

// ---- rasterizer -----------------------------------------------------------------------------------------

#[test]
fn flat_wall_gives_exact_half_fraction() {
    let g = uniform(8, 8, 1.0, 0.5);
    let l_m = 0.05;
    let p = profile(&[[0.0, 2.25 * l_m], [8.0 * l_m, 2.25 * l_m]], 0);
    let field = rasterize(&M, &p, &g, refs_lm(l_m)).unwrap();
    let at_cell = |iz: usize, ir: usize| f(field.fraction[g.idx(iz, ir)]);
    for iz in 0..8 {
        for ir in 0..4 {
            assert_eq!(at_cell(iz, ir), 0.0, "iz {iz} ir {ir}");
        }
        assert!((at_cell(iz, 4) - 0.5).abs() < 1e-6);
        for ir in 5..8 {
            assert_eq!(at_cell(iz, ir), 1.0, "iz {iz} ir {ir}");
        }
    }
}

#[test]
fn sloped_wall_column_sums_are_exact() {
    let g = uniform(10, 12, 1.0, 1.0);
    let p = profile(&[[0.0, 2.0], [10.0, 7.0]], 0);
    let field = rasterize(&M, &p, &g, refs_lm(1.0)).unwrap();
    for iz in 0..10 {
        let mut solid: f64 = 0.0;
        for ir in 0..12 {
            solid += d(field.fraction[g.idx(iz, ir)]);
        }
        let z_mid = iz as f64 + 0.5;
        let expect = 12.0 - (2.0 + 0.5 * z_mid);
        assert!((solid - expect).abs() < 1e-5, "iz {iz}: {solid} vs {expect}");
    }
}

#[test]
fn beyond_profile_extent_is_fluid() {
    let g = uniform(10, 4, 1.0, 1.0);
    let p = profile(&[[2.0, 1.5], [6.0, 1.5]], 0);
    let field = rasterize(&M, &p, &g, refs_lm(1.0)).unwrap();
    for ir in 0..4 {
        for iz in [0, 1, 7, 9] {
            assert_eq!(f(field.fraction[g.idx(iz, ir)]), 0.0);
        }
    }
    assert_eq!(f(field.fraction[g.idx(3, 3)]), 1.0);
    assert_eq!(f(field.fraction[g.idx(3, 0)]), 0.0);
}

#[test]
fn degenerate_inputs_are_rejected() {
    assert!(Grid::from_edges(&M, vec![s(0.0)], vec![s(0.0), s(1.0)]).is_err());
    let g = uniform(4, 4, 1.0, 1.0);
    let raster = |points: &[P2]| rasterize_solid_polygon(&M, &points_of(points), &g);
    assert!(raster(&[[0.0, 0.0], [1.0, 0.0]]).is_err());
    assert!(raster(&[[0.0, 0.0], [1.0, 0.0], [f64::NAN, 1.0]]).is_err());
    assert_eq!(
        text(raster(&[[0.0, 0.0], [1.0, 0.0]])),
        "invalid geometry: polygon needs at least 3 vertices, has 2"
    );
    assert_eq!(
        text(raster(&[[0.0, 0.0], [1.0, 0.0], [f64::NAN, 1.0]])),
        "invalid geometry: polygon vertex 2 not finite: [NaN, 1.0]"
    );
    assert_eq!(
        text(rasterize(&M, &three_points(), &g, refs_lm(0.0))),
        "invalid parameter: RefScales.l_m = 0"
    );
}

fn disk(center: P2, radius: f64, n: usize) -> Vec<Point> {
    let step = 2.0 * PI / n as f64;
    let r_eff = radius * (step / step.sin()).sqrt();
    (0..n)
        .map(|k| {
            let a = step * k as f64;
            at(center[0] + r_eff * a.cos(), center[1] + r_eff * a.sin())
        })
        .collect()
}

#[test]
fn t0_disk_area_is_exact() {
    let g = uniform(72, 72, 1.0, 1.0);
    for r in [3.0, 4.0, 6.0, 8.0, 12.0, 20.0] {
        let poly = disk([32.0, 32.0], r, 2048);
        let field = rasterize_solid_polygon(&M, &poly, &g).unwrap();
        let mut area: f64 = 0.0;
        for x in &field.fraction {
            area += d(*x);
        }
        let exact = PI * r * r;
        let rel = (area - exact).abs() / exact;
        assert!(rel <= 5e-3, "R={r}: area {area}, exact {exact}, rel {rel}");
        assert!(rel <= 1e-5, "R={r}: rel {rel}: the areas are not exact");
    }
}

#[test]
fn t0_point_sampling_is_disqualified() {
    let radius = 3.0f64;
    let center = [32.0, 32.0];
    let mut area = 0.0;
    for iz in 0..72 {
        for ir in 0..72 {
            let d2 =
                (iz as f64 + 0.5 - center[0]).powi(2) + (ir as f64 + 0.5 - center[1]).powi(2);
            if d2 <= radius * radius {
                area += 1.0;
            }
        }
    }
    let rel = (area - PI * radius * radius) / (PI * radius * radius);
    assert!(rel > 0.08, "expected ~+13% error at R=3, got {rel}");
}

#[test]
fn t0_nozzle_throat_area_within_half_percent() {
    let refs = refs_lm(0.05);
    let g = uniform(240, 220, 0.0724, 0.025);
    let settings = [
        (conical(15.0), 4.0, 0.382),
        (conical(15.0), 8.0, 0.382),
        (conical(18.0), 16.0, 0.382),
        (parabolic(0.8), 8.0, 0.382),
        (parabolic(0.8), 25.0, 0.382),
        (direct(32.0, 6.0, 0.76), 34.3, 0.300),
    ];
    for (kind, area_ratio, arc) in settings {
        let p = generate_contour(&M, &nozzle(0.05, area_ratio, arc, kind), 512).unwrap();
        let field = rasterize(&M, &p, &g, refs).unwrap();
        let z_end = d(p.points.last().unwrap().z) / d(refs.l_m);
        let mut min_rw2 = f64::MAX;
        for iz in 0..g.nz {
            if d(g.z_edges()[iz + 1]) > z_end {
                break;
            }
            let mut acc: f64 = 0.0;
            for ir in 0..g.nr {
                acc += (1.0 - d(field.fraction[g.idx(iz, ir)])) * d(g.r_center(ir)) * d(g.dr(ir));
            }
            min_rw2 = min_rw2.min(2.0 * acc);
        }
        let rel = (min_rw2 - 1.0).abs();
        assert!(rel <= 5e-3, "{kind:?} eps={area_ratio}: A/A_t = {min_rw2:.5}, {rel:.2e}");
    }
}

// ---- handles ------------------------------------------------------------------------------------------------

fn walls() -> Vec<(&'static str, NozzleCurve)> {
    vec![
        ("demo cone", NozzleCurve::new(nozzle(0.05, 8.0, 0.382, conical(15.0)))),
        ("RS-25 table bell", NozzleCurve::new(nozzle(0.138, 69.0, 0.382, parabolic(0.80)))),
        (
            "Raptor 2 measured bell",
            NozzleCurve::new(nozzle(0.115, 34.3, 0.300, direct(32.0, 6.0, 0.76))),
        ),
    ]
}

fn handles(c: &NozzleCurve) -> Vec<Handle> {
    c.handles(&M).unwrap()
}

fn handle(c: &NozzleCurve, id: HandleId) -> Handle {
    handles(c).into_iter().find(|h| h.id == id).unwrap()
}

fn drag(c: &NozzleCurve, id: HandleId, world: P2) -> DragOutcome {
    c.drag_handle(&M, id, pt(world))
}

#[test]
fn a_bell_has_nine_handles_and_a_cone_six() {
    let bell = walls()[1].1;
    let h = handles(&bell);
    assert_eq!(h.len(), 9);
    assert_eq!(h.iter().filter(|x| x.pickable).count(), 8);
    let q = h.iter().find(|x| !x.pickable).unwrap();
    assert_eq!(q.id, HandleId::ControlPoint);
    assert_eq!(q.kind, HandleKind::Derived);
    let poly = bell.control_polygon(&M).unwrap();
    assert!(d(poly[0].z) < d(poly[1].z) && d(poly[1].z) < d(poly[2].z));
    assert_eq!(poly[1], q.anchor);
    let cone = walls()[0].1;
    let c = handles(&cone);
    assert_eq!(c.len(), 6);
    assert!(c.iter().all(|x| x.pickable));
    assert!(cone.control_polygon(&M).is_none());
}

#[test]
fn handle_anchors_sit_on_the_wall() {
    for (name, c) in walls() {
        let rt = rt_of(&c);
        for h in handles(&c) {
            if h.id == HandleId::ControlPoint {
                continue;
            }
            let a = p2(h.anchor);
            let r = radius(&c, a[0] * rt).unwrap() / rt;
            assert!((r - a[1]).abs() < 1e-9, "{name}: {:?} anchor {a:?} off the wall", h.id);
        }
    }
}

#[test]
fn dragging_a_handle_to_its_own_anchor_changes_nothing() {
    for (name, c) in walls() {
        for h in handles(&c) {
            if !h.pickable {
                continue;
            }
            let a = p2(h.anchor);
            let to = match h.kind {
                HandleKind::Tangent { dir } => {
                    let dir = p2(dir);
                    [a[0] + 0.3 * dir[0], a[1] + 0.3 * dir[1]]
                }
                _ => a,
            };
            let out = drag(&c, h.id, to);
            assert_eq!(out.clamped, None, "{name}: {:?} clamped on a null drag", h.id);
            let after = handle(&out.curve, h.id);
            let (was, is) = (d(h.value), d(after.value));
            assert!(
                (is - was).abs() <= 1e-6 * was.abs().max(1.0),
                "{name}: {:?} jumped {was} -> {is} on a null drag",
                h.id
            );
        }
    }
}

#[test]
fn every_handle_sweeps_its_clamped_range_without_producing_a_bad_wall() {
    let mut clamps = 0;
    for (name, c0) in walls() {
        let rt = rt_of(&c0);
        let t = for_cells(0.145 * rt, 0.05 * rt);
        for h0 in handles(&c0) {
            if !h0.pickable {
                continue;
            }
            let a = p2(h0.anchor);
            for k in 0..8 {
                let ang = std::f64::consts::TAU * k as f64 / 8.0;
                for step in 1..=11 {
                    let far = 0.05 * (1.6f64).powi(step);
                    let want =
                        [a[0] + far * ang.cos(), (a[1] + far * ang.sin()).max(0.0)];
                    let out = drag(&c0, h0.id, want);
                    clamps += out.clamped.is_some() as usize;
                    let here = format!("{name}/{:?} dir {k} step {step}", h0.id);
                    let p = match out.curve.tessellate(&M, &t) {
                        Ok(p) => wall(&p),
                        Err(e) => panic!("{here}: {}", e.message()),
                    };
                    for pair in p.points.windows(2) {
                        assert!(pair[1][0] > pair[0][0], "{here}: z not strictly increasing");
                    }
                    let rmin = p.points.iter().map(|q| q[1]).fold(f64::MAX, f64::min);
                    assert_eq!(
                        p.points.iter().filter(|q| q[1] <= rmin + 1e-15 * rt).count(),
                        1,
                        "{here}: throat is not a strict minimum"
                    );
                    assert!(
                        (p.points[p.throat_index][1] - rmin).abs() < 1e-15 * rt,
                        "{here}: throat_index does not point at argmin r"
                    );
                    assert!(
                        (rmin / rt - 1.0).abs() < 1e-9,
                        "{here}: throat radius moved to {} r_t",
                        rmin / rt
                    );
                    assert_eq!(out.curve.spec.throat_radius_m, c0.spec.throat_radius_m);
                }
            }
        }
    }
    assert!(clamps > 50, "only {clamps} drags were clamped: sweep too timid");
}

#[test]
fn a_theta_drag_converts_a_table_bell_to_a_measured_one() {
    let c = walls()[1].1;
    let (tn0, te0) = c.divergent_angles_deg(&M).unwrap();
    let (tn0, te0) = (d(tn0), d(te0));
    let a = p2(handle(&c, HandleId::ThetaN).anchor);
    let want = (tn0 - 2.0).to_radians();
    let out = drag(&c, HandleId::ThetaN, [a[0] + want.cos(), a[1] + want.sin()]);
    assert_eq!(out.clamped, None);
    let (tn1, te1) = out.curve.divergent_angles_deg(&M).unwrap();
    assert!((d(tn1) - (tn0 - 2.0)).abs() < 1e-9, "theta_n {tn0} -> {}", d(tn1));
    assert!((d(te1) - te0).abs() < 1e-12, "theta_e must not move: {te0} -> {}", d(te1));
    assert!(matches!(out.curve.spec.contour, ContourKind::DirectBell { .. }));
    assert!((d(out.curve.length_fraction(&M)) - 0.80).abs() < 1e-12);
}

#[test]
fn the_clamp_reports_the_infeasible_direction() {
    let c = walls()[2].1;
    let a = p2(handle(&c, HandleId::ExitLip).anchor);
    let out = drag(&c, HandleId::ExitLip, [a[0] * 0.55, a[1]]);
    let why = out.clamped.expect("dragging the lip to the throat must clamp");
    assert!(
        why.contains("too short") || why.contains("does not advance"),
        "clamp message must name the direction: {why}"
    );
    assert!(out.curve.feasible(&M).is_ok());
    assert!(d(out.curve.divergent_len_rt(&M).unwrap()) < d(c.divergent_len_rt(&M).unwrap()));
}

#[test]
fn the_cone_exit_lip_carries_the_half_angle_and_the_area_ratio() {
    let c = walls()[0].1;
    let z_t = d(c.throat_z_rt(&M));
    let eps = 12.0f64;
    let alpha = 20.0f64.to_radians();
    let l_n = ((eps.sqrt() - 1.0) + 0.382 * (1.0 / alpha.cos() - 1.0)) / alpha.tan();
    let out = drag(&c, HandleId::ExitLip, [z_t + l_n, eps.sqrt()]);
    assert_eq!(out.clamped, None);
    assert!((d(out.curve.spec.area_ratio) - eps).abs() < 1e-9);
    let half = d(out.curve.exit_angle_deg(&M).unwrap());
    assert!((half - 20.0).abs() < 1e-6, "half angle {half}");
}

#[test]
fn the_control_point_cannot_be_dragged() {
    for (_, c) in walls() {
        let out = drag(&c, HandleId::ControlPoint, [3.0, 3.0]);
        assert_eq!(out.curve, c);
        assert_eq!(out.clamped, None);
    }
}

#[test]
fn handles_have_names_and_units() {
    let bell = walls()[1].1;
    let h = handles(&bell);
    let labels: Vec<&str> = h.iter().map(|x| x.id.label()).collect();
    assert_eq!(
        labels,
        vec![
            "chamber radius",
            "chamber end",
            "converge half-angle",
            "throat arc R1",
            "throat arc R2",
            "theta_n",
            "theta_e",
            "exit lip",
            "control point Q",
        ]
    );
    let units: Vec<&str> = h.iter().map(|x| x.unit).collect();
    assert_eq!(units, vec!["ε_c", "r_t", "°", "R_t", "R_t", "°", "°", "ε", "r_t"]);
}

#[test]
fn a_wall_that_does_not_advance_cannot_be_built() {
    let mut c = walls()[0].1;
    assert!(c.feasible(&M).is_ok());
    c.spec.throat_arc_up = s(1e-20);
    let told = text(c.feasible(&M));
    assert!(
        told.starts_with("invalid geometry: wall piece 2 does not advance in z ("),
        "{told}"
    );
    c.chamber_len_rt = s(-1.0);
    assert_eq!(
        text(c.feasible(&M)),
        "invalid geometry: chamber_len_rt = -1 (must be > 0)"
    );
}

// ---- outside of the curve, and at the ends of a drawn wall ---------------------------------------

#[test]
fn there_is_no_tangent_outside_of_the_curve() {
    for (_, c) in curves() {
        let z_e = d(c.length_m(&M).unwrap());
        assert!(c.tangent_at(&M, s(-1.0)).is_none());
        assert!(c.tangent_at(&M, s(z_e + 1e-6)).is_none());
        assert!(c.tangent_at(&M, s(0.0)).is_some());
        assert!(c.tangent_at(&M, s(z_e)).is_some());
    }
}

fn rises_inside(e: &FreeformEditor, lz: f64) {
    for pair in xs(e).windows(2) {
        assert!(pair[1][0] > pair[0][0], "{:?}", xs(e));
    }
    for p in xs(e) {
        assert!(p[0] >= 0.0 && p[0] <= lz, "{:?}", xs(e));
    }
    assert!(e.to_profile(&M).is_ok());
}

#[test]
fn a_shrunk_box_holds_every_point() {
    let mut e = FreeformEditor::new(
        points_of(&[[0.0, 2.0], [4.0, 1.0], [20.0, 2.8], [40.0, 2.8]]),
        for_domain(46.4, 10.0),
    );
    e.set_bounds(&M, for_domain(12.0, 10.0));
    rises_inside(&e, 12.0);
    assert_eq!(xs(&e)[0], [0.0, 2.0]);
    assert_eq!(xs(&e)[1], [4.0, 1.0]);
    assert_eq!(xs(&e)[3][0], 12.0);
    for p in xs(&e) {
        assert!(p[1] >= 0.15 && p[1] <= 8.5);
    }
    e.set_bounds(&M, for_domain(0.5, 10.0));
    rises_inside(&e, 0.5);
}

#[test]
fn a_point_inserted_at_the_border_goes_before_the_last() {
    let mut e = FreeformEditor::new(
        points_of(&[[0.0, 2.0], [4.0, 1.0], [10.0, 2.8]]),
        for_domain(10.0, 10.0),
    );
    assert_eq!(e.insert(&M, pt([10.0, 2.0])), 2);
    assert_eq!(e.points().len(), 4);
    assert_eq!(xs(&e)[3], [10.0, 2.8]);
    rises_inside(&e, 10.0);
    for _ in 0..5 {
        e.insert(&M, pt([99.0, 2.0]));
        rises_inside(&e, 10.0);
        e.insert(&M, pt([-99.0, 2.0]));
        rises_inside(&e, 10.0);
    }
}

#[test]
fn an_end_without_room_stands_at_the_border() {
    let mut e = FreeformEditor::new(
        points_of(&[[0.0, 2.0], [0.0005, 1.0], [9.9995, 1.5], [9.9999, 2.8]]),
        for_domain(10.0, 10.0),
    );
    e.drag(&M, 3, pt([3.0, 2.0]));
    rises_inside(&e, 10.0);
    assert_eq!(xs(&e)[3][0], 10.0);
    e.drag(&M, 0, pt([5.0, 2.0]));
    rises_inside(&e, 10.0);
    assert_eq!(xs(&e)[0][0], 0.0);
}

#[test]
fn small_budgets_give_one_polyline() {
    for (_, c) in curves() {
        let p = wall(&c.tessellate_fixed(&M, 64).unwrap());
        for samples in [0, 1, 17, 63] {
            assert_eq!(wall(&c.tessellate_fixed(&M, samples).unwrap()), p);
        }
        assert_eq!(p.points[p.throat_index][1], rt_of(&c));
    }
}

#[test]
fn walls_and_editors_copy_and_compare() {
    let p = three_points();
    assert_eq!(p.clone(), p);
    let e = Editor::from_profile(&M, &p);
    let mut other = e.clone();
    assert_eq!(other, e);
    other.drag(&M, 1, pt([0.12, 0.04]));
    assert_ne!(other, e);
    let drawn = drawn_editor();
    let mut redrawn = drawn.clone();
    assert_eq!(redrawn, drawn);
    assert!(redrawn.remove(1) || redrawn == drawn);
    let curve = NozzleCurve::new(spec(ContourKind::Conical { half_angle_deg: s(15.0) }, 8.0));
    assert_eq!(curve, curve);
    let unknown = NozzleCurve { chamber_len_rt: s(f64::NAN), ..curve };
    assert_ne!(unknown, unknown);
    let flat = NozzleCurve { chamber_len_rt: s(0.0), ..curve };
    assert_eq!(flat, NozzleCurve { chamber_len_rt: s(-0.0), ..curve });
    let far = curve.drag_handle(&M, HandleId::ExitLip, pt([1e9, 1e9]));
    assert_eq!(far.clone(), far);
}

#[test]
fn a_drawn_wall_stays_a_wall_through_many_edits() {
    let mut e = drawn_editor();
    for k in 0..60usize {
        let x = (k * 37 % 50) as f64;
        match k % 4 {
            0 => {
                e.insert(&M, pt([x, 0.5 + 0.1 * x]));
            }
            1 => e.drag(&M, k % e.points().len(), pt([50.0 - x, 20.0 - x])),
            2 => e.set_bounds(&M, for_domain(30.0 + x, 6.0 + 0.1 * x)),
            _ => {
                e.remove(k % e.points().len());
            }
        }
        assert!(e.to_profile(&M).is_ok(), "after edit {k}");
    }
}
