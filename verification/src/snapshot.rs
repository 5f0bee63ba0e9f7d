//! Display copies of a field, in SI units.

use vstd::prelude::*;
use crate::field::{FieldKind, RefScales, SolidField};
use crate::flow::{FlowMath, Prim};
use crate::grid;
use crate::grid::{copy_list, Grid};
use crate::scalar::{Scalar, INFINITE, NEG_INFINITE, ZERO};
use crate::setup::{SolveSetup, StepInfo};

verus! {

/// The floating-point formulas of the displayed quantities.
pub trait DisplayMath: FlowMath {
    /// A value in a unit.
    fn in_units(&self, x: Scalar, unit: Scalar) -> Scalar;

    /// The temperature at a pressure and a density.
    fn temperature(&self, p: Scalar, rho: Scalar) -> Scalar;

    /// The speed of a velocity.
    fn flow_speed(&self, uz: Scalar, ur: Scalar) -> Scalar;

    /// A speed relative to that of sound.
    fn speed_ratio(&self, speed: Scalar, sound: Scalar) -> Scalar;

    /// Size of the density gradient from the neighbours in z and in r.
    fn gradient(
        &self,
        z_lo: Scalar,
        z_hi: Scalar,
        dz: Scalar,
        r_lo: Scalar,
        r_hi: Scalar,
        dr: Scalar,
    ) -> Scalar;

    /// A gradient relative to the largest.
    fn relative(&self, s: Scalar, peak: Scalar) -> Scalar;

    /// A time in seconds.
    fn seconds(&self, time: Scalar, refs: RefScales) -> Scalar;
}

/// Display copy of a field: eight quantities over the interior cells and the
/// range of each over the fluid.
#[derive(Debug)]
pub struct Snapshot {
    pub grid: Grid,
    pub solid: SolidField,
    pub step: u64,
    pub time_s: Scalar,
    pub residual: Scalar,
    pub converged: bool,
    pub fields: Vec<Vec<Scalar>>,
    pub ranges: Vec<(Scalar, Scalar)>,
}

impl Clone for Snapshot {
    fn clone(&self) -> (r: Snapshot)
        ensures
            grid::identical(&r.grid, &self.grid),
            grid::identical(&r.solid.grid, &self.solid.grid),
            r.solid.fraction@ == self.solid.fraction@,
            r.step == self.step,
            r.time_s == self.time_s,
            r.residual == self.residual,
            r.converged == self.converged,
            r.fields.len() == self.fields.len(),
            forall|i: int| 0 <= i < self.fields.len() ==> (#[trigger] r.fields[i])@ == self.fields[i]@,
            r.ranges@ == self.ranges@,
    {
        let mut fields: Vec<Vec<Scalar>> = Vec::new();
        let mut i: usize = 0;
        while i < self.fields.len()
            invariant
                i <= self.fields.len(),
                fields.len() == i,
                forall|j: int| 0 <= j < i ==> (#[trigger] fields[j])@ == self.fields[j]@,
            decreases self.fields.len() - i,
        {
            fields.push(copy_list(&self.fields[i]));
            i += 1;
        }
        Snapshot {
            grid: self.grid.clone(),
            solid: self.solid.clone(),
            step: self.step,
            time_s: self.time_s,
            residual: self.residual,
            converged: self.converged,
            fields,
            ranges: copy_list(&self.ranges),
        }
    }
}

impl Snapshot {
    /// Eight fields of one value per interior cell, and eight ranges.
    pub open spec fn wf(&self) -> bool {
        &&& self.grid.wf()
        &&& self.fields.len() == 8
        &&& self.ranges.len() == 8
        &&& forall|i: int| 0 <= i < 8 ==> (#[trigger] self.fields[i]).len() == self.grid.cells()
    }

    /// All values of a quantity.
    pub fn field(&self, k: FieldKind) -> (r: &Vec<Scalar>)
        requires
            self.wf(),
        ensures
            r@ == self.fields[k.place()]@,
    {
        &self.fields[k.index()]
    }

    /// Range of a quantity over the fluid.
    pub fn range(&self, k: FieldKind) -> (r: (Scalar, Scalar))
        requires
            self.wf(),
        ensures
            r == self.ranges[k.place()],
    {
        self.ranges[k.index()]
    }

    /// Value of a quantity in one cell.
    pub fn sample(&self, k: FieldKind, iz: usize, ir: usize) -> (r: Scalar)
        requires
            self.wf(),
            self.grid.inside(iz as int, ir as int),
        ensures
            r == self.fields[k.place()]@[self.grid.at(iz as int, ir as int)],
    {
        let i: usize = self.grid.idx(iz, ir);
        let f = &self.fields[k.index()];
        f[i]
    }

    /// Values of a quantity along the axis row, one per column.
    pub fn centerline(&self, k: FieldKind) -> (r: Vec<Scalar>)
        requires
            self.wf(),
        ensures
            r.len() == self.grid.nz,
            forall|iz: int|
                0 <= iz < r.len() ==> #[trigger] r[iz] == self.fields[k.place()]@[self.grid.at(
                    iz,
                    0,
                )],
    {
        let mut r: Vec<Scalar> = Vec::new();
        let mut iz: usize = 0;
        while iz < self.grid.nz
            invariant
                self.wf(),
                iz <= self.grid.nz,
                r.len() == iz,
                forall|j: int|
                    0 <= j < iz ==> #[trigger] r[j] == self.fields[k.place()]@[self.grid.at(j, 0)],
            decreases self.grid.nz - iz,
        {
            r.push(self.sample(k, iz, 0));
            iz = iz + 1;
        }
        r
    }
}

/// `x` is the value of a quantity of a state: density, pressure, temperature, velocity
/// and speed in their units, the Mach number as the speed relative to that of sound.
/// The density gradient is no quantity of one state, and zero here.
pub open spec fn is_quantity<M: DisplayMath>(
    m: &M,
    kind: FieldKind,
    w: Prim,
    gamma: Scalar,
    refs: RefScales,
    x: Scalar,
) -> bool {
    match kind {
        FieldKind::Density => call_ensures(M::in_units, (m, w.rho, refs.rho_kg_m3), x),
        FieldKind::Pressure => call_ensures(M::in_units, (m, w.p, refs.p_pa), x),
        FieldKind::Temperature => exists|t: Scalar| #[trigger]
            call_ensures(M::temperature, (m, w.p, w.rho), t) && call_ensures(
                M::in_units,
                (m, t, refs.t_k),
                x,
            ),
        FieldKind::Mach => exists|speed: Scalar, sound: Scalar|
            {
                &&& #[trigger] call_ensures(M::flow_speed, (m, w.uz, w.ur), speed)
                &&& #[trigger] call_ensures(M::sound_speed, (m, w, gamma), sound)
                &&& call_ensures(M::speed_ratio, (m, speed, sound), x)
            },
        FieldKind::VelocityZ => call_ensures(M::in_units, (m, w.uz, refs.u_m_s), x),
        FieldKind::VelocityR => call_ensures(M::in_units, (m, w.ur, refs.u_m_s), x),
        FieldKind::Speed => exists|speed: Scalar| #[trigger]
            call_ensures(M::flow_speed, (m, w.uz, w.ur), speed) && call_ensures(
                M::in_units,
                (m, speed, refs.u_m_s),
                x,
            ),
        FieldKind::Schlieren => x.bits == ZERO,
    }
}

fn quantity<M: DisplayMath>(
    m: &M,
    kind: FieldKind,
    w: Prim,
    gamma: Scalar,
    refs: RefScales,
) -> (x: Scalar)
    ensures
        is_quantity(m, kind, w, gamma, refs, x),
{
    match kind {
        FieldKind::Density => m.in_units(w.rho, refs.rho_kg_m3),
        FieldKind::Pressure => m.in_units(w.p, refs.p_pa),
        FieldKind::Temperature => m.in_units(m.temperature(w.p, w.rho), refs.t_k),
        FieldKind::Mach => m.speed_ratio(m.flow_speed(w.uz, w.ur), m.sound_speed(w, gamma)),
        FieldKind::VelocityZ => m.in_units(w.uz, refs.u_m_s),
        FieldKind::VelocityR => m.in_units(w.ur, refs.u_m_s),
        FieldKind::Speed => m.in_units(m.flow_speed(w.uz, w.ur), refs.u_m_s),
        FieldKind::Schlieren => Scalar { bits: ZERO },
    }
}

/// `f` is a pointwise quantity: zero in solid cells.
pub open spec fn is_pointwise<M: DisplayMath>(
    m: &M,
    setup: &SolveSetup,
    prims: Seq<Prim>,
    kind: FieldKind,
    f: Seq<Scalar>,
) -> bool {
    &&& f.len() == setup.grid.cells()
    &&& forall|k: int|
        0 <= k < f.len() ==> if setup.solid.solid(k) {
            (#[trigger] f[k]).bits == ZERO
        } else {
            is_quantity(m, kind, prims[k], setup.gas.gamma, setup.refs, f[k])
        }
}

/// The density that cell `k` sees at cell `j`: its own where `j` is solid.
pub open spec fn seen(setup: &SolveSetup, prims: Seq<Prim>, k: int, j: int) -> Scalar {
    if setup.solid.solid(j) {
        prims[k].rho
    } else {
        prims[j].rho
    }
}

/// The coordinate after `i`, held at the last of `n`.
pub open spec fn after(i: int, n: int) -> int {
    if i + 1 < n {
        i + 1
    } else {
        n - 1
    }
}

/// The coordinate before `i`, held at zero.
pub open spec fn before(i: int) -> int {
    if i > 0 {
        i - 1
    } else {
        0
    }
}

/// `s` is the size of the density gradient in the fluid cell (iz, ir).
pub open spec fn is_gradient<M: DisplayMath>(
    m: &M,
    setup: &SolveSetup,
    prims: Seq<Prim>,
    iz: int,
    ir: int,
    s: Scalar,
) -> bool {
    let g = &setup.grid;
    let k = g.at(iz, ir);
    call_ensures(
        M::gradient,
        (
            m,
            seen(setup, prims, k, g.at(before(iz), ir)),
            seen(setup, prims, k, g.at(after(iz, g.nz as int), ir)),
            g.z.width[iz + 2],
            seen(setup, prims, k, g.at(iz, before(ir))),
            seen(setup, prims, k, g.at(iz, after(ir, g.nr as int))),
            g.r.width[ir + 2],
        ),
        s,
    )
}

/// The largest of the first `n` values at fluid cells, no less than zero.
pub open spec fn peak_of(solid: &SolidField, s: Seq<Scalar>, n: int) -> Scalar
    decreases n,
{
    if n <= 0 {
        Scalar { bits: ZERO }
    } else if solid.solid(n - 1) {
        peak_of(solid, s, n - 1)
    } else {
        peak_of(solid, s, n - 1).larger(s[n - 1])
    }
}

/// `f` is the density gradient relative to its largest: zero in solid cells.
pub open spec fn is_schlieren<M: DisplayMath>(
    m: &M,
    setup: &SolveSetup,
    prims: Seq<Prim>,
    raw: Seq<Scalar>,
    f: Seq<Scalar>,
) -> bool {
    let g = &setup.grid;
    let peak = peak_of(&setup.solid, raw, g.cells());
    &&& raw.len() == g.cells()
    &&& f.len() == g.cells()
    &&& forall|iz: int, ir: int| #[trigger]
        g.inside(iz, ir) && !setup.solid.solid(g.at(iz, ir)) ==> is_gradient(
            m,
            setup,
            prims,
            iz,
            ir,
            raw[g.at(iz, ir)],
        )
    &&& forall|k: int|
        0 <= k < f.len() ==> if setup.solid.solid(k) {
            (#[trigger] f[k]).bits == ZERO
        } else if (Scalar { bits: ZERO }).below(peak) {
            call_ensures(M::relative, (m, raw[k], peak), f[k])
        } else {
            f[k] == raw[k]
        }
}

/// The lowest of the first `n` values at fluid cells.
pub open spec fn low_of(solid: &SolidField, f: Seq<Scalar>, n: int) -> Scalar
    decreases n,
{
    if n <= 0 {
        Scalar { bits: INFINITE }
    } else if solid.solid(n - 1) {
        low_of(solid, f, n - 1)
    } else {
        low_of(solid, f, n - 1).smaller(f[n - 1])
    }
}

/// The highest of the first `n` values at fluid cells.
pub open spec fn high_of(solid: &SolidField, f: Seq<Scalar>, n: int) -> Scalar
    decreases n,
{
    if n <= 0 {
        Scalar { bits: NEG_INFINITE }
    } else if solid.solid(n - 1) {
        high_of(solid, f, n - 1)
    } else {
        high_of(solid, f, n - 1).larger(f[n - 1])
    }
}

/// The range of a quantity over the fluid, zero to zero where there is none.
pub open spec fn range_of(solid: &SolidField, f: Seq<Scalar>) -> (Scalar, Scalar) {
    let lo = low_of(solid, f, f.len() as int);
    let hi = high_of(solid, f, f.len() as int);
    if hi.below(lo) {
        (Scalar { bits: ZERO }, Scalar { bits: ZERO })
    } else {
        (lo, hi)
    }
}

fn pointwise<M: DisplayMath>(
    m: &M,
    setup: &SolveSetup,
    prims: &Vec<Prim>,
    kind: FieldKind,
) -> (f: Vec<Scalar>)
    requires
        setup.grid.wf(),
        setup.solid.fraction.len() == setup.grid.cells(),
        prims.len() == setup.grid.cells(),
    ensures
        is_pointwise(m, setup, prims@, kind, f@),
{
    let n: usize = setup.grid.len();
    let mut f: Vec<Scalar> = Vec::new();
    let mut k: usize = 0;
    while k < n
        invariant
            n == setup.grid.cells(),
            setup.solid.fraction.len() == n,
            prims.len() == n,
            k <= n,
            f.len() == k,
            forall|j: int|
                0 <= j < k ==> if setup.solid.solid(j) {
                    (#[trigger] f[j]).bits == ZERO
                } else {
                    is_quantity(m, kind, prims[j], setup.gas.gamma, setup.refs, f[j])
                },
        decreases n - k,
    {
        if setup.solid.is_solid(k) {
            f.push(Scalar { bits: ZERO });
        } else {
            f.push(quantity(m, kind, prims[k], setup.gas.gamma, setup.refs));
        }
        k = k + 1;
    }
    f
}

fn seen_at(setup: &SolveSetup, prims: &Vec<Prim>, k: usize, j: usize) -> (r: Scalar)
    requires
        setup.solid.fraction.len() == prims.len(),
        k < prims.len(),
        j < prims.len(),
    ensures
        r == seen(setup, prims@, k as int, j as int),
{
    if setup.solid.is_solid(j) {
        prims[k].rho
    } else {
        prims[j].rho
    }
}

fn gradient_at<M: DisplayMath>(
    m: &M,
    setup: &SolveSetup,
    prims: &Vec<Prim>,
    iz: usize,
    ir: usize,
) -> (s: Scalar)
    requires
        setup.grid.wf(),
        setup.solid.fraction.len() == setup.grid.cells(),
        prims.len() == setup.grid.cells(),
        setup.grid.inside(iz as int, ir as int),
    ensures
        is_gradient(m, setup, prims@, iz as int, ir as int, s),
{
    let g = &setup.grid;
    let k: usize = g.idx(iz, ir);
    let z1: usize = if iz + 1 < g.nz {
        iz + 1
    } else {
        g.nz - 1
    };
    let z0: usize = if iz > 0 {
        iz - 1
    } else {
        0
    };
    let r1: usize = if ir + 1 < g.nr {
        ir + 1
    } else {
        g.nr - 1
    };
    let r0: usize = if ir > 0 {
        ir - 1
    } else {
        0
    };
    m.gradient(
        seen_at(setup, prims, k, g.idx(z0, ir)),
        seen_at(setup, prims, k, g.idx(z1, ir)),
        g.dz(iz),
        seen_at(setup, prims, k, g.idx(iz, r0)),
        seen_at(setup, prims, k, g.idx(iz, r1)),
        g.dr(ir),
    )
}

fn schlieren<M: DisplayMath>(m: &M, setup: &SolveSetup, prims: &Vec<Prim>) -> (f: Vec<Scalar>)
    requires
        setup.grid.wf(),
        setup.solid.fraction.len() == setup.grid.cells(),
        prims.len() == setup.grid.cells(),
    ensures
        exists|raw: Seq<Scalar>| #[trigger] is_schlieren(m, setup, prims@, raw, f@),
{
    let g = &setup.grid;
    let n: usize = g.len();
    let zero = Scalar { bits: ZERO };
    let mut raw: Vec<Scalar> = Vec::new();
    let mut peak = zero;
    let mut k: usize = 0;
    while k < n
        invariant
            g == &setup.grid,
            g.wf(),
            n == g.cells(),
            setup.solid.fraction.len() == n,
            prims.len() == n,
            k <= n,
            raw.len() == k,
            zero.bits == ZERO,
            peak == peak_of(&setup.solid, raw@, k as int),
            forall|j: int|
                0 <= j < k && !setup.solid.solid(j) ==> is_gradient(
                    m,
                    setup,
                    prims@,
                    j % (g.nz as int),
                    j / (g.nz as int),
                    #[trigger] raw[j],
                ),
        decreases n - k,
    {
        proof {
            grid::law_interior_positions(g.nz as int, g.nr as int, k as int);
        }
        let ghost was = raw@;
        if setup.solid.is_solid(k) {
            raw.push(zero);
        } else {
            let s = gradient_at(m, setup, prims, k % g.nz, k / g.nz);
            raw.push(s);
            peak = peak.max(s);
        }
        proof {
            lemma_peak_prefix(&setup.solid, was, raw@, k as int);
        }
        k = k + 1;
    }
    let scale = zero.lt(peak);
    let mut f: Vec<Scalar> = Vec::new();
    k = 0;
    while k < n
        invariant
            n == g.cells(),
            setup.solid.fraction.len() == n,
            raw.len() == n,
            zero.bits == ZERO,
            scale == zero.below(peak),
            k <= n,
            f.len() == k,
            forall|j: int|
                0 <= j < k ==> if setup.solid.solid(j) {
                    (#[trigger] f[j]).bits == ZERO
                } else if scale {
                    call_ensures(M::relative, (m, raw[j], peak), f[j])
                } else {
                    f[j] == raw[j]
                },
        decreases n - k,
    {
        if setup.solid.is_solid(k) {
            f.push(zero);
        } else if scale {
            f.push(m.relative(raw[k], peak));
        } else {
            f.push(raw[k]);
        }
        k = k + 1;
    }
    proof {
        assert forall|iz: int, ir: int| #[trigger]
            g.inside(iz, ir) && !setup.solid.solid(g.at(iz, ir)) implies is_gradient(
            m,
            setup,
            prims@,
            iz,
            ir,
            raw@[g.at(iz, ir)],
        ) by {
            grid::law_interior_layout(g.nz as int, g.nr as int, iz, ir);
            assert(raw@[g.at(iz, ir)] == raw[g.at(iz, ir)]);
        }
        assert(is_schlieren(m, setup, prims@, raw@, f@));
    }
    f
}

proof fn lemma_peak_prefix(solid: &SolidField, a: Seq<Scalar>, b: Seq<Scalar>, n: int)
    requires
        0 <= n <= a.len(),
        a.len() <= b.len(),
        forall|i: int| 0 <= i < n ==> a[i] == #[trigger] b[i],
    ensures
        peak_of(solid, a, n) == peak_of(solid, b, n),
    decreases n,
{
    if n > 0 {
        lemma_peak_prefix(solid, a, b, n - 1);
    }
}

fn find_range(solid: &SolidField, f: &Vec<Scalar>) -> (r: (Scalar, Scalar))
    requires
        solid.fraction.len() == f.len(),
    ensures
        r == range_of(solid, f@),
{
    let mut lo = Scalar { bits: INFINITE };
    let mut hi = Scalar { bits: NEG_INFINITE };
    let mut k: usize = 0;
    while k < f.len()
        invariant
            solid.fraction.len() == f.len(),
            k <= f.len(),
            lo == low_of(solid, f@, k as int),
            hi == high_of(solid, f@, k as int),
        decreases f.len() - k,
    {
        if !solid.is_solid(k) {
            lo = lo.min(f[k]);
            hi = hi.max(f[k]);
        }
        k = k + 1;
    }
    if hi.lt(lo) {
        (Scalar { bits: ZERO }, Scalar { bits: ZERO })
    } else {
        (lo, hi)
    }
}

/// The snapshot of interior primitives.
pub open spec fn is_snapshot<M: DisplayMath>(
    m: &M,
    setup: &SolveSetup,
    prims: Seq<Prim>,
    info: StepInfo,
    snap: &Snapshot,
) -> bool {
    &&& snap.wf()
    &&& grid::identical(&snap.grid, &setup.grid)
    &&& grid::identical(&snap.solid.grid, &setup.solid.grid)
    &&& snap.solid.fraction@ == setup.solid.fraction@
    &&& snap.step == info.step
    &&& call_ensures(M::seconds, (m, info.time, setup.refs), snap.time_s)
    &&& snap.residual == info.residual
    &&& snap.converged == info.converged
    &&& forall|kind: FieldKind|
        kind != FieldKind::Schlieren ==> #[trigger] is_pointwise(
            m,
            setup,
            prims,
            kind,
            snap.fields[kind.place()]@,
        )
    &&& exists|raw: Seq<Scalar>| #[trigger]
        is_schlieren(m, setup, prims, raw, snap.fields[FieldKind::Schlieren.place()]@)
    &&& forall|i: int|
        0 <= i < 8 ==> #[trigger] snap.ranges[i] == range_of(&setup.solid, snap.fields[i]@)
}

/// Makes the snapshot of interior primitives. The only place where solver units
/// become SI.
pub fn snapshot_from_prims<M: DisplayMath>(
    m: &M,
    setup: &SolveSetup,
    prims: &Vec<Prim>,
    info: StepInfo,
) -> (snap: Snapshot)
    requires
        setup.grid.wf(),
        setup.solid.fraction.len() == setup.grid.cells(),
        prims.len() == setup.grid.cells(),
    ensures
        is_snapshot(m, setup, prims@, info, &snap),
{
    let kinds = FieldKind::all();
    let mut fields: Vec<Vec<Scalar>> = Vec::new();
    let mut i: usize = 0;
    while i < 7
        invariant
            setup.grid.wf(),
            setup.solid.fraction.len() == setup.grid.cells(),
            prims.len() == setup.grid.cells(),
            forall|j: int| 0 <= j < 8 ==> (#[trigger] kinds@[j]).place() == j,
            i <= 7,
            fields.len() == i,
            forall|j: int|
                0 <= j < i ==> is_pointwise(m, setup, prims@, kinds@[j], (#[trigger] fields[j])@),
        decreases 7 - i,
    {
        fields.push(pointwise(m, setup, prims, kinds[i]));
        i = i + 1;
    }
    let ghost first = fields@;
    let relief = schlieren(m, setup, prims);
    let ghost raw = choose|raw: Seq<Scalar>| #[trigger]
        is_schlieren(m, setup, prims@, raw, relief@);
    fields.push(relief);
    let ghost fs = fields@;
    let mut ranges: Vec<(Scalar, Scalar)> = Vec::new();
    i = 0;
    while i < 8
        invariant
            setup.solid.fraction.len() == setup.grid.cells(),
            fields@ == fs,
            fs.len() == 8,
            forall|j: int| 0 <= j < 8 ==> (#[trigger] fs[j])@.len() == setup.grid.cells(),
            i <= 8,
            ranges.len() == i,
            forall|j: int|
                0 <= j < i ==> #[trigger] ranges[j] == range_of(&setup.solid, fs[j]@),
        decreases 8 - i,
    {
        assert(fs[i as int]@.len() == setup.grid.cells());
        ranges.push(find_range(&setup.solid, &fields[i]));
        i = i + 1;
    }
    let snap = Snapshot {
        grid: setup.grid.clone(),
        solid: setup.solid.clone(),
        step: info.step,
        time_s: m.seconds(info.time, setup.refs),
        residual: info.residual,
        converged: info.converged,
        fields,
        ranges,
    };
    proof {
        assert forall|kind: FieldKind| kind != FieldKind::Schlieren implies #[trigger] is_pointwise(
            m,
            setup,
            prims@,
            kind,
            snap.fields[kind.place()]@,
        ) by {
            let j = kind.place();
            assert(kinds@[j].place() == j);
            assert(kinds@[j] == kind);
            assert(fs[j] == first[j]);
        }
        assert(snap.fields[7] == relief);
        assert(is_schlieren(
            m,
            setup,
            prims@,
            raw,
            snap.fields[FieldKind::Schlieren.place()]@,
        ));
    }
    snap
}

/// The formulas of the displayed quantities are functions: the same values give the
/// same result.
pub open spec fn are_functions<M: DisplayMath>(m: &M) -> bool {
    &&& forall|a: Scalar, unit: Scalar, x: Scalar, y: Scalar|
        {
            &&& #[trigger] call_ensures(M::in_units, (m, a, unit), x)
            &&& #[trigger] call_ensures(M::in_units, (m, a, unit), y)
        } ==> x == y
    &&& forall|p: Scalar, rho: Scalar, x: Scalar, y: Scalar|
        {
            &&& #[trigger] call_ensures(M::temperature, (m, p, rho), x)
            &&& #[trigger] call_ensures(M::temperature, (m, p, rho), y)
        } ==> x == y
    &&& forall|uz: Scalar, ur: Scalar, x: Scalar, y: Scalar|
        {
            &&& #[trigger] call_ensures(M::flow_speed, (m, uz, ur), x)
            &&& #[trigger] call_ensures(M::flow_speed, (m, uz, ur), y)
        } ==> x == y
    &&& forall|speed: Scalar, sound: Scalar, x: Scalar, y: Scalar|
        {
            &&& #[trigger] call_ensures(M::speed_ratio, (m, speed, sound), x)
            &&& #[trigger] call_ensures(M::speed_ratio, (m, speed, sound), y)
        } ==> x == y
    &&& forall|w: Prim, gamma: Scalar, x: Scalar, y: Scalar|
        {
            &&& #[trigger] call_ensures(M::sound_speed, (m, w, gamma), x)
            &&& #[trigger] call_ensures(M::sound_speed, (m, w, gamma), y)
        } ==> x == y
    &&& forall|
        z0: Scalar,
        z1: Scalar,
        dz: Scalar,
        r0: Scalar,
        r1: Scalar,
        dr: Scalar,
        x: Scalar,
        y: Scalar,
    |
        {
            &&& #[trigger] call_ensures(M::gradient, (m, z0, z1, dz, r0, r1, dr), x)
            &&& #[trigger] call_ensures(M::gradient, (m, z0, z1, dz, r0, r1, dr), y)
        } ==> x == y
    &&& forall|a: Scalar, peak: Scalar, x: Scalar, y: Scalar|
        {
            &&& #[trigger] call_ensures(M::relative, (m, a, peak), x)
            &&& #[trigger] call_ensures(M::relative, (m, a, peak), y)
        } ==> x == y
}

proof fn lemma_one_relief<M: DisplayMath>(
    m: &M,
    setup: &SolveSetup,
    other: &SolveSetup,
    prims: Seq<Prim>,
    raw1: Seq<Scalar>,
    f1: Seq<Scalar>,
    raw2: Seq<Scalar>,
    f2: Seq<Scalar>,
)
    requires
        are_functions(m),
        setup.grid.wf(),
        other.grid == setup.grid,
        other.solid == setup.solid,
        is_schlieren(m, setup, prims, raw1, f1),
        is_schlieren(m, other, prims, raw2, f2),
    ensures
        f1 == f2,
{
    let g = &setup.grid;
    assert forall|k: int| 0 <= k < g.cells() && !setup.solid.solid(k) implies #[trigger] raw1[k]
        == raw2[k] by {
        grid::law_interior_positions(g.nz as int, g.nr as int, k);
        let iz = k % (g.nz as int);
        let ir = k / (g.nz as int);
        assert(g.inside(iz, ir));
        assert(other.grid.inside(iz, ir));
        assert(g.at(iz, ir) == k);
        assert(is_gradient(m, setup, prims, iz, ir, raw1[k]));
        assert(is_gradient(m, other, prims, iz, ir, raw2[k]));
    }
    lemma_one_peak(&setup.solid, raw1, raw2, g.cells());
    assert(f1 =~= f2);
}

proof fn lemma_one_peak(solid: &SolidField, a: Seq<Scalar>, b: Seq<Scalar>, n: int)
    requires
        forall|k: int| 0 <= k < n && !solid.solid(k) ==> #[trigger] a[k] == b[k],
    ensures
        peak_of(solid, a, n) == peak_of(solid, b, n),
    decreases n,
{
    if n > 0 {
        lemma_one_peak(solid, a, b, n - 1);
        assert(!solid.solid(n - 1) ==> a[n - 1] == b[n - 1]);
    }
}

/// The picture does not depend on the surroundings: where the formulas are functions,
/// two snapshots of one state show the same fields and ranges, whatever the
/// surroundings and the counts of steps are.
pub proof fn law_picture_ignores_ambient<M: DisplayMath>(
    m: &M,
    setup: &SolveSetup,
    other: &SolveSetup,
    prims: Seq<Prim>,
    info: StepInfo,
    later: StepInfo,
    a: &Snapshot,
    b: &Snapshot,
)
    requires
        are_functions(m),
        setup.grid.wf(),
        *other == (SolveSetup { ambient: other.ambient, ..*setup }),
        is_snapshot(m, setup, prims, info, a),
        is_snapshot(m, other, prims, later, b),
    ensures
        forall|i: int| 0 <= i < 8 ==> (#[trigger] a.fields[i])@ == b.fields[i]@,
        a.ranges@ == b.ranges@,
{
    assert forall|kind: FieldKind| #[trigger] a.fields[kind.place()]@ == b.fields[kind.place()]@ by {
        let f1 = a.fields[kind.place()]@;
        let f2 = b.fields[kind.place()]@;
        if kind == FieldKind::Schlieren {
            let raw1 = choose|raw: Seq<Scalar>| #[trigger] is_schlieren(m, setup, prims, raw, f1);
            let raw2 = choose|raw: Seq<Scalar>| #[trigger] is_schlieren(m, other, prims, raw, f2);
            lemma_one_relief(m, setup, other, prims, raw1, f1, raw2, f2);
        } else {
            assert(is_pointwise(m, setup, prims, kind, f1));
            assert(is_pointwise(m, other, prims, kind, f2));
            assert(f1 =~= f2);
        }
    }
    assert forall|i: int| 0 <= i < 8 implies (#[trigger] a.fields[i])@ == b.fields[i]@ by {
        let kinds = seq![
            FieldKind::Density,
            FieldKind::Pressure,
            FieldKind::Temperature,
            FieldKind::Mach,
            FieldKind::VelocityZ,
            FieldKind::VelocityR,
            FieldKind::Speed,
            FieldKind::Schlieren,
        ];
        assert(kinds[i].place() == i);
        assert(a.fields[kinds[i].place()]@ == b.fields[kinds[i].place()]@);
    }
    assert forall|i: int| 0 <= i < 8 implies a.ranges@[i] == #[trigger] b.ranges@[i] by {
        assert(a.fields[i]@ == b.fields[i]@);
        assert(a.ranges[i] == range_of(&setup.solid, a.fields[i]@));
        assert(b.ranges[i] == range_of(&other.solid, b.fields[i]@));
    }
    assert(a.ranges@ =~= b.ranges@);
}

/// The range of a quantity bounds it in every fluid cell, as long as its values
/// are numbers.
pub proof fn law_range_bounds_fluid(solid: &SolidField, f: Seq<Scalar>, k: int)
    requires
        0 <= k < f.len(),
        !solid.solid(k),
        forall|i: int| 0 <= i < f.len() ==> !(#[trigger] f[i]).nan(),
    ensures
        range_of(solid, f).0.at_most(f[k]),
        f[k].at_most(range_of(solid, f).1),
{
    lemma_low_high(solid, f, f.len() as int, k);
}

proof fn lemma_low_high(solid: &SolidField, f: Seq<Scalar>, n: int, k: int)
    requires
        0 <= k < n <= f.len(),
        !solid.solid(k),
        forall|i: int| 0 <= i < f.len() ==> !(#[trigger] f[i]).nan(),
    ensures
        low_of(solid, f, n).at_most(f[k]),
        f[k].at_most(high_of(solid, f, n)),
    decreases n,
{
    lemma_low_high_numbers(solid, f, n - 1);
    if k < n - 1 {
        lemma_low_high(solid, f, n - 1, k);
    }
}

proof fn lemma_low_high_numbers(solid: &SolidField, f: Seq<Scalar>, n: int)
    requires
        0 <= n <= f.len(),
        forall|i: int| 0 <= i < f.len() ==> !(#[trigger] f[i]).nan(),
    ensures
        !low_of(solid, f, n).nan(),
        !high_of(solid, f, n).nan(),
    decreases n,
{
    if n > 0 {
        lemma_low_high_numbers(solid, f, n - 1);
    }
}

/// The density gradient shown: the raw gradient of a fluid cell is made of the densities
/// of the cells before and behind it in z and below and above it in r, each by its own
/// place, over the cell's two widths; beyond the edge of the domain, and where the
/// neighbour is solid, of its own. It is shown relative to the largest over the fluid
/// where that is above zero, and solid cells show zero.
pub proof fn law_gradients_read_the_four_neighbours<M: DisplayMath>(
    m: &M,
    setup: &SolveSetup,
    prims: Seq<Prim>,
    info: StepInfo,
    snap: &Snapshot,
    iz: int,
    ir: int,
) -> (r: (Seq<Scalar>, Scalar))
    requires
        is_snapshot(m, setup, prims, info, snap),
        setup.grid.wf(),
        setup.grid.inside(iz, ir),
        !setup.solid.solid(setup.grid.at(iz, ir)),
    ensures
        ({
            let g = &setup.grid;
            let k = g.at(iz, ir);
            let own = prims[k].rho;
            let z_lo = if iz > 0 && !setup.solid.solid(g.at(iz - 1, ir)) {
                prims[g.at(iz - 1, ir)].rho
            } else {
                own
            };
            let z_hi = if iz + 1 < g.nz && !setup.solid.solid(g.at(iz + 1, ir)) {
                prims[g.at(iz + 1, ir)].rho
            } else {
                own
            };
            let r_lo = if ir > 0 && !setup.solid.solid(g.at(iz, ir - 1)) {
                prims[g.at(iz, ir - 1)].rho
            } else {
                own
            };
            let r_hi = if ir + 1 < g.nr && !setup.solid.solid(g.at(iz, ir + 1)) {
                prims[g.at(iz, ir + 1)].rho
            } else {
                own
            };
            let (raw, peak) = r;
            let shown = snap.fields[FieldKind::Schlieren.place()]@[k];
            &&& raw.len() == g.cells()
            &&& call_ensures(
                M::gradient,
                (m, z_lo, z_hi, g.z.width[iz + 2], r_lo, r_hi, g.r.width[ir + 2]),
                raw[k],
            )
            &&& !peak.below(raw[k])
            &&& (Scalar { bits: ZERO }).at_most(peak)
            &&& peak.bits == ZERO || exists|j: int|
                0 <= j < g.cells() && !setup.solid.solid(j) && peak == #[trigger] raw[j]
            &&& (Scalar { bits: ZERO }).below(peak) ==> call_ensures(
                M::relative,
                (m, raw[k], peak),
                shown,
            )
            &&& !(Scalar { bits: ZERO }).below(peak) ==> shown == raw[k]
        }),
{
    let g = &setup.grid;
    let k = g.at(iz, ir);
    let raw = choose|raw: Seq<Scalar>| #[trigger]
        is_schlieren(m, setup, prims, raw, snap.fields[FieldKind::Schlieren.place()]@);
    let peak = peak_of(&setup.solid, raw, g.cells());
    grid::law_interior_layout(g.nz as int, g.nr as int, iz, ir);
    lemma_peak_is_largest(&setup.solid, raw, g.cells(), k);
    assert(is_gradient(m, setup, prims, iz, ir, raw[k]));
    (raw, peak)
}

proof fn lemma_peak_is_largest(solid: &SolidField, s: Seq<Scalar>, n: int, k: int)
    requires
        n <= s.len(),
    ensures
        (Scalar { bits: ZERO }).at_most(peak_of(solid, s, n)),
        0 <= k < n && !solid.solid(k) ==> !peak_of(solid, s, n).below(s[k]),
        peak_of(solid, s, n).bits == ZERO || exists|j: int|
            0 <= j < n && !solid.solid(j) && peak_of(solid, s, n) == #[trigger] s[j],
    decreases n,
{
    if n > 0 {
        lemma_peak_is_largest(solid, s, n - 1, k);
    }
}

/// What the other quantities show of a fluid cell: its density, pressure and velocity in
/// their units, the temperature of its pressure and density, the speed of its velocity,
/// and that over the speed of sound. Solid cells show zero, in every quantity.
pub proof fn law_cells_show_their_state<M: DisplayMath>(
    m: &M,
    setup: &SolveSetup,
    prims: Seq<Prim>,
    info: StepInfo,
    snap: &Snapshot,
    k: int,
) -> (r: (Scalar, Scalar, Scalar, Scalar))
    requires
        is_snapshot(m, setup, prims, info, snap),
        0 <= k < setup.grid.cells(),
    ensures
        setup.solid.solid(k) ==> forall|i: int|
            0 <= i < 8 ==> (#[trigger] snap.fields[i])@[k].bits == ZERO,
        !setup.solid.solid(k) ==> {
            let w = prims[k];
            let refs = setup.refs;
            let (t, speed, again, sound) = r;
            &&& call_ensures(
                M::in_units,
                (m, w.rho, refs.rho_kg_m3),
                snap.fields[FieldKind::Density.place()]@[k],
            )
            &&& call_ensures(
                M::in_units,
                (m, w.p, refs.p_pa),
                snap.fields[FieldKind::Pressure.place()]@[k],
            )
            &&& call_ensures(
                M::in_units,
                (m, w.uz, refs.u_m_s),
                snap.fields[FieldKind::VelocityZ.place()]@[k],
            )
            &&& call_ensures(
                M::in_units,
                (m, w.ur, refs.u_m_s),
                snap.fields[FieldKind::VelocityR.place()]@[k],
            )
            &&& call_ensures(M::temperature, (m, w.p, w.rho), t)
            &&& call_ensures(
                M::in_units,
                (m, t, refs.t_k),
                snap.fields[FieldKind::Temperature.place()]@[k],
            )
            &&& call_ensures(M::flow_speed, (m, w.uz, w.ur), speed)
            &&& call_ensures(
                M::in_units,
                (m, speed, refs.u_m_s),
                snap.fields[FieldKind::Speed.place()]@[k],
            )
            &&& call_ensures(M::flow_speed, (m, w.uz, w.ur), again)
            &&& call_ensures(M::sound_speed, (m, w, setup.gas.gamma), sound)
            &&& call_ensures(
                M::speed_ratio,
                (m, again, sound),
                snap.fields[FieldKind::Mach.place()]@[k],
            )
        },
{
    assert(is_pointwise(
        m,
        setup,
        prims,
        FieldKind::Density,
        snap.fields[FieldKind::Density.place()]@,
    ));
    assert(is_pointwise(
        m,
        setup,
        prims,
        FieldKind::Pressure,
        snap.fields[FieldKind::Pressure.place()]@,
    ));
    assert(is_pointwise(
        m,
        setup,
        prims,
        FieldKind::VelocityZ,
        snap.fields[FieldKind::VelocityZ.place()]@,
    ));
    assert(is_pointwise(
        m,
        setup,
        prims,
        FieldKind::VelocityR,
        snap.fields[FieldKind::VelocityR.place()]@,
    ));
    let ft = snap.fields[FieldKind::Temperature.place()]@;
    assert(is_pointwise(m, setup, prims, FieldKind::Temperature, ft));
    let fs = snap.fields[FieldKind::Speed.place()]@;
    assert(is_pointwise(m, setup, prims, FieldKind::Speed, fs));
    let fm = snap.fields[FieldKind::Mach.place()]@;
    assert(is_pointwise(m, setup, prims, FieldKind::Mach, fm));
    let w = prims[k];
    let t = choose|t: Scalar| #[trigger]
        call_ensures(M::temperature, (m, w.p, w.rho), t) && call_ensures(
            M::in_units,
            (m, t, setup.refs.t_k),
            ft[k],
        );
    let speed = choose|speed: Scalar| #[trigger]
        call_ensures(M::flow_speed, (m, w.uz, w.ur), speed) && call_ensures(
            M::in_units,
            (m, speed, setup.refs.u_m_s),
            fs[k],
        );
    let (again, sound) = choose|speed: Scalar, sound: Scalar|
        {
            &&& #[trigger] call_ensures(M::flow_speed, (m, w.uz, w.ur), speed)
            &&& #[trigger] call_ensures(M::sound_speed, (m, w, setup.gas.gamma), sound)
            &&& call_ensures(M::speed_ratio, (m, speed, sound), fm[k])
        };
    if setup.solid.solid(k) {
        assert forall|i: int| 0 <= i < 8 implies (#[trigger] snap.fields[i])@[k].bits == ZERO by {
            assert(i == 0 || i == 1 || i == 2 || i == 3 || i == 4 || i == 5 || i == 6 || i == 7);
        }
    }
    (t, speed, again, sound)
}

/// The range shown of a quantity spans its values over the fluid: none of them lies
/// outside it, and each of its ends is one of them; where no cell is fluid it is zero to
/// zero.
pub proof fn law_ranges_span_the_fluid<M: DisplayMath>(
    m: &M,
    setup: &SolveSetup,
    prims: Seq<Prim>,
    info: StepInfo,
    snap: &Snapshot,
    i: int,
    k: int,
)
    requires
        is_snapshot(m, setup, prims, info, snap),
        0 <= i < 8,
        0 <= k < setup.grid.cells(),
        !setup.solid.solid(k),
        !snap.fields[i]@[k].nan(),
    ensures
        snap.ranges[i].0.at_most(snap.fields[i]@[k]),
        snap.fields[i]@[k].at_most(snap.ranges[i].1),
        snap.ranges[i].0.bits == INFINITE || exists|j: int|
            0 <= j < setup.grid.cells() && !setup.solid.solid(j) && snap.ranges[i].0
                == #[trigger] snap.fields[i]@[j],
        snap.ranges[i].1.bits == NEG_INFINITE || exists|j: int|
            0 <= j < setup.grid.cells() && !setup.solid.solid(j) && snap.ranges[i].1
                == #[trigger] snap.fields[i]@[j],
{
    let f = snap.fields[i]@;
    assert(snap.ranges[i] == range_of(&setup.solid, f));
    lemma_ends_are_extreme(&setup.solid, f, f.len() as int, k);
}

/// Where no cell is fluid there is no range.
pub proof fn law_no_fluid_no_range<M: DisplayMath>(
    m: &M,
    setup: &SolveSetup,
    prims: Seq<Prim>,
    info: StepInfo,
    snap: &Snapshot,
    i: int,
)
    requires
        is_snapshot(m, setup, prims, info, snap),
        0 <= i < 8,
        forall|k: int| 0 <= k < setup.grid.cells() ==> #[trigger] setup.solid.solid(k),
    ensures
        snap.ranges[i].0.bits == ZERO,
        snap.ranges[i].1.bits == ZERO,
{
    let f = snap.fields[i]@;
    assert(snap.ranges[i] == range_of(&setup.solid, f));
    lemma_no_ends(&setup.solid, f, f.len() as int);
    assert((Scalar { bits: NEG_INFINITE }).below(Scalar { bits: INFINITE }));
}

proof fn lemma_no_ends(solid: &SolidField, f: Seq<Scalar>, n: int)
    requires
        n <= f.len(),
        forall|k: int| 0 <= k < f.len() ==> #[trigger] solid.solid(k),
    ensures
        low_of(solid, f, n).bits == INFINITE,
        high_of(solid, f, n).bits == NEG_INFINITE,
    decreases n,
{
    if n > 0 {
        lemma_no_ends(solid, f, n - 1);
    }
}

proof fn lemma_ends_are_extreme(solid: &SolidField, f: Seq<Scalar>, n: int, k: int)
    requires
        n <= f.len(),
    ensures
        !low_of(solid, f, n).nan(),
        !high_of(solid, f, n).nan(),
        0 <= k < n && !solid.solid(k) && !f[k].nan() ==> low_of(solid, f, n).at_most(f[k])
            && f[k].at_most(high_of(solid, f, n)),
        low_of(solid, f, n).bits == INFINITE || exists|j: int|
            0 <= j < n && !solid.solid(j) && low_of(solid, f, n) == #[trigger] f[j],
        high_of(solid, f, n).bits == NEG_INFINITE || exists|j: int|
            0 <= j < n && !solid.solid(j) && high_of(solid, f, n) == #[trigger] f[j],
    decreases n,
{
    if n > 0 {
        lemma_ends_are_extreme(solid, f, n - 1, k);
    }
}

} // verus!
