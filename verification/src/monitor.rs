//! Convergence by a plateau of the trailing mean of one signal.
//!
//! The signal is sampled at fixed intervals of physical time, a fixed number of
//! samples makes a window, and the run has converged when the mean of a window
//! lies close to that of the window before it.

use vstd::prelude::*;
use crate::scalar::{Scalar, INFINITE, QUIET_NAN, ZERO};

verus! {

/// Samples in one window.
pub const SAMPLES_PER_WINDOW: usize = 16;

/// The pattern of the relative tolerance on the mean, 0.02.
pub const CONVERGED_TOL: u64 = 0x3F94_7AE1_47AE_147B;

/// The floating-point formulas of the monitor.
pub trait MonitorMath {
    /// Length of a window for a domain of length `lz` and a gas of ratio `gamma`.
    fn window_time_for(&self, lz: Scalar, gamma: Scalar) -> Scalar;

    /// The interval between the samples of a window.
    fn sample_interval(&self, window_time: Scalar) -> Scalar;

    /// The sum of two values.
    fn plus(&self, a: Scalar, b: Scalar) -> Scalar;

    /// The mean of a window from the sum of its samples.
    fn window_mean(&self, sum: Scalar) -> Scalar;

    /// The distance of two values.
    fn distance(&self, a: Scalar, b: Scalar) -> Scalar;

    /// The quotient of two values.
    fn quotient(&self, a: Scalar, b: Scalar) -> Scalar;

    /// Half a value.
    fn half(&self, x: Scalar) -> Scalar;
}

/// `r` is the distance of two values relative to the larger magnitude; two zeros
/// are no distance apart.
pub open spec fn is_relative_drift<M: MonitorMath>(m: &M, a: Scalar, b: Scalar, r: Scalar) -> bool {
    let zero = Scalar { bits: ZERO };
    let scale = (Scalar { bits: a.magnitude() as u64 }).larger(
        Scalar { bits: b.magnitude() as u64 },
    );
    exists|d: Scalar| #[trigger]
        call_ensures(M::distance, (m, a, b), d) && if scale.equals(zero) {
            r == if d.equals(zero) {
                zero
            } else {
                Scalar { bits: INFINITE }
            }
        } else {
            call_ensures(M::quotient, (m, d, scale), r)
        }
}

/// Distance of two values relative to the larger magnitude.
pub fn relative_drift<M: MonitorMath>(m: &M, a: Scalar, b: Scalar) -> (r: Scalar)
    ensures
        is_relative_drift(m, a, b, r),
{
    let zero = Scalar { bits: ZERO };
    let d = m.distance(a, b);
    let scale = a.abs().max(b.abs());
    if scale.same(zero) {
        if d.same(zero) {
            zero
        } else {
            Scalar { bits: INFINITE }
        }
    } else {
        m.quotient(d, scale)
    }
}

/// The monitor of one signal. The verdict latches until the monitor is reset.
#[derive(Debug, Clone, Copy, PartialEq)]
pub struct PlateauMonitor {
    pub window_time: Scalar,
    pub sample_dt: Scalar,
    pub tol: Scalar,
    pub next_sample: Scalar,
    pub sum: Scalar,
    pub count: usize,
    pub prev_mean: Option<Scalar>,
    pub last_mean: Option<Scalar>,
    pub last_drift: Scalar,
    pub windows: u64,
    pub converged: bool,
}

/// The length of a window: as given when that is a positive number, else
/// infinite, so that a degenerate domain never converges.
pub open spec fn sane_window(window_time: Scalar) -> Scalar {
    if window_time.finite() && (Scalar { bits: ZERO }).below(window_time) {
        window_time
    } else {
        Scalar { bits: INFINITE }
    }
}

impl PlateauMonitor {
    /// A window is never left full, a comparison needs a finished window, and a
    /// verdict needs two.
    pub open spec fn wf(&self) -> bool {
        &&& self.count < SAMPLES_PER_WINDOW
        &&& self.prev_mean is Some ==> self.windows >= 1
        &&& self.last_mean is Some <==> self.windows >= 1
        &&& self.converged ==> self.windows >= 2
    }

    /// Nothing sampled, no verdict.
    pub open spec fn armed(&self) -> bool {
        &&& self.sum.bits == ZERO
        &&& self.count == 0
        &&& self.prev_mean is None
        &&& self.last_mean is None
        &&& self.last_drift.bits == QUIET_NAN
        &&& self.windows == 0
        &&& !self.converged
    }

    /// A monitor with windows of the given length.
    pub fn new<M: MonitorMath>(m: &M, window_time: Scalar, tol: Scalar) -> (r: PlateauMonitor)
        ensures
            r.wf(),
            r.armed(),
            r.tol == tol,
            r.window_time == sane_window(window_time),
            call_ensures(M::sample_interval, (m, r.window_time), r.sample_dt),
            r.next_sample == r.sample_dt,
    {
        let zero = Scalar { bits: ZERO };
        let window_time = if window_time.is_finite() && zero.lt(window_time) {
            window_time
        } else {
            Scalar { bits: INFINITE }
        };
        let sample_dt = m.sample_interval(window_time);
        PlateauMonitor {
            window_time,
            sample_dt,
            tol,
            next_sample: sample_dt,
            sum: zero,
            count: 0,
            prev_mean: None,
            last_mean: None,
            last_drift: Scalar { bits: QUIET_NAN },
            windows: 0,
            converged: false,
        }
    }

    /// A monitor sized for a domain.
    pub fn for_domain<M: MonitorMath>(
        m: &M,
        lz: Scalar,
        gamma: Scalar,
        tol: Scalar,
    ) -> (r: PlateauMonitor)
        ensures
            r.wf(),
            r.armed(),
            r.tol == tol,
            exists|t: Scalar| #[trigger]
                call_ensures(M::window_time_for, (m, lz, gamma), t) && r.window_time
                    == sane_window(t),
            call_ensures(M::sample_interval, (m, r.window_time), r.sample_dt),
            r.next_sample == r.sample_dt,
    {
        let t = m.window_time_for(lz, gamma);
        PlateauMonitor::new(m, t, tol)
    }

    /// Forgets everything and starts over at physical time `t`.
    pub fn reset<M: MonitorMath>(&mut self, m: &M, t: Scalar)
        ensures
            final(self).wf(),
            final(self).armed(),
            final(self).window_time == old(self).window_time,
            final(self).sample_dt == old(self).sample_dt,
            final(self).tol == old(self).tol,
            call_ensures(M::plus, (m, t, old(self).sample_dt), final(self).next_sample),
    {
        self.next_sample = m.plus(t, self.sample_dt);
        self.sum = Scalar { bits: ZERO };
        self.count = 0;
        self.prev_mean = None;
        self.last_mean = None;
        self.last_drift = Scalar { bits: QUIET_NAN };
        self.windows = 0;
        self.converged = false;
    }

    /// Whether a sample is due at physical time `t`.
    pub fn due(&self, t: Scalar) -> (r: bool)
        ensures
            r == self.next_sample.at_most(t),
    {
        self.next_sample.le(t)
    }

    /// The clock after a sample at `t`: one interval on, or, when that is
    /// already past, one interval after `t`.
    pub open spec fn clock_after<M: MonitorMath>(self, m: &M, t: Scalar, next: Scalar) -> bool {
        exists|step: Scalar| #[trigger]
            call_ensures(M::plus, (m, self.next_sample, self.sample_dt), step) && if step.at_most(
                t,
            ) {
                call_ensures(M::plus, (m, t, self.sample_dt), next)
            } else {
                next == step
            }
    }

    /// A window closed on `sum`: `r` has its mean and, where there was a window
    /// to compare with, the drift and the verdict.
    pub open spec fn window_closed<M: MonitorMath>(self, m: &M, sum: Scalar, r: Self) -> bool {
        &&& r.sum.bits == ZERO
        &&& r.count == 0
        &&& r.windows == self.windows + 1
        &&& r.prev_mean is Some
        &&& r.last_mean == r.prev_mean
        &&& call_ensures(M::window_mean, (m, sum), r.prev_mean->0)
        &&& match self.prev_mean {
            Some(prev) => {
                &&& is_relative_drift(m, prev, r.prev_mean->0, r.last_drift)
                &&& exists|limit: Scalar| #[trigger]
                    call_ensures(M::half, (m, self.tol), limit) && r.converged == (self.converged
                        || r.last_drift.at_most(limit))
            },
            None => r.last_drift == self.last_drift && r.converged == self.converged,
        }
    }

    /// What an offered value does.
    pub open spec fn updated<M: MonitorMath>(self, m: &M, t: Scalar, x: Scalar, r: Self) -> bool {
        if !self.next_sample.at_most(t) {
            r == self
        } else if !x.finite() {
            &&& call_ensures(M::plus, (m, t, self.sample_dt), r.next_sample)
            &&& r == (PlateauMonitor {
                sum: Scalar { bits: ZERO },
                count: 0,
                prev_mean: None,
                next_sample: r.next_sample,
                ..self
            })
        } else {
            &&& r.window_time == self.window_time
            &&& r.sample_dt == self.sample_dt
            &&& r.tol == self.tol
            &&& self.clock_after(m, t, r.next_sample)
            &&& exists|sum: Scalar| #[trigger]
                call_ensures(M::plus, (m, self.sum, x), sum) && if self.count + 1
                    == SAMPLES_PER_WINDOW {
                    self.window_closed(m, sum, r)
                } else {
                    &&& r.sum == sum
                    &&& r.count == self.count + 1
                    &&& r.prev_mean == self.prev_mean
                    &&& r.last_mean == self.last_mean
                    &&& r.last_drift == self.last_drift
                    &&& r.windows == self.windows
                    &&& r.converged == self.converged
                }
        }
    }

    /// Offers the value `x` at physical time `t` and returns the verdict. The
    /// value is taken only when a sample is due; a value that is not finite
    /// throws the running window and the comparison away.
    pub fn update<M: MonitorMath>(&mut self, m: &M, t: Scalar, x: Scalar) -> (verdict: bool)
        requires
            old(self).wf(),
            old(self).windows < u64::MAX,
        ensures
            final(self).wf(),
            old(self).updated(m, t, x, *final(self)),
            verdict == final(self).converged,
    {
        let ghost before = *self;
        if !self.due(t) {
            return self.converged;
        }
        if !x.is_finite() {
            self.sum = Scalar { bits: ZERO };
            self.count = 0;
            self.prev_mean = None;
            self.next_sample = m.plus(t, self.sample_dt);
            return self.converged;
        }
        let sum = m.plus(self.sum, x);
        self.sum = sum;
        self.count = self.count + 1;
        let step = m.plus(self.next_sample, self.sample_dt);
        if step.le(t) {
            self.next_sample = m.plus(t, self.sample_dt);
        } else {
            self.next_sample = step;
        }
        assert(before.clock_after(m, t, self.next_sample));
        if self.count == SAMPLES_PER_WINDOW {
            let mean = m.window_mean(sum);
            self.sum = Scalar { bits: ZERO };
            self.count = 0;
            self.windows = self.windows + 1;
            match self.prev_mean {
                Some(prev) => {
                    self.last_drift = relative_drift(m, prev, mean);
                    let limit = m.half(self.tol);
                    if self.last_drift.le(limit) {
                        self.converged = true;
                    }
                    assert(call_ensures(M::half, (m, before.tol), limit));
                },
                None => {},
            }
            self.prev_mean = Some(mean);
            self.last_mean = Some(mean);
            assert(before.window_closed(m, sum, *self));
        }
        self.converged
    }

    /// The verdict.
    pub fn converged(&self) -> (r: bool)
        ensures
            r == self.converged,
    {
        self.converged
    }

    /// Length of a window.
    pub fn window_time(&self) -> (r: Scalar)
        ensures
            r == self.window_time,
    {
        self.window_time
    }

    /// Time between samples.
    pub fn sample_dt(&self) -> (r: Scalar)
        ensures
            r == self.sample_dt,
    {
        self.sample_dt
    }

    /// Windows finished since the last reset.
    pub fn windows(&self) -> (r: u64)
        ensures
            r == self.windows,
    {
        self.windows
    }

    /// Mean of the last finished window.
    pub fn last_mean(&self) -> (r: Option<Scalar>)
        ensures
            r == self.last_mean,
    {
        self.last_mean
    }

    /// Drift between the last two windows, not a number before there were two.
    pub fn last_drift(&self) -> (r: Scalar)
        ensures
            r == self.last_drift,
    {
        self.last_drift
    }
}

/// The verdict latches: no value that is offered takes it back.
pub proof fn law_verdict_latches<M: MonitorMath>(
    m: &M,
    a: PlateauMonitor,
    t: Scalar,
    x: Scalar,
    b: PlateauMonitor,
)
    requires
        a.updated(m, t, x, b),
        a.converged,
    ensures
        b.converged,
{
}

/// `trail` holds the monitors of a run without a reset, each the one before it
/// after some value was offered at some time.
pub open spec fn is_watch<M: MonitorMath>(
    m: &M,
    trail: Seq<PlateauMonitor>,
    offers: Seq<(Scalar, Scalar)>,
) -> bool {
    &&& trail.len() == offers.len() + 1
    &&& forall|i: int| 0 <= i < offers.len() ==> #[trigger] took_offer(m, trail, offers, i)
}

/// The monitor after offer `i` is the one before it, updated.
pub open spec fn took_offer<M: MonitorMath>(
    m: &M,
    trail: Seq<PlateauMonitor>,
    offers: Seq<(Scalar, Scalar)>,
    i: int,
) -> bool {
    trail[i].updated(m, offers[i].0, offers[i].1, trail[i + 1])
}

/// A verdict, once reached, stands until the monitor is reset, whatever values
/// are offered and however many.
pub proof fn law_verdict_stands_until_reset<M: MonitorMath>(
    m: &M,
    trail: Seq<PlateauMonitor>,
    offers: Seq<(Scalar, Scalar)>,
    i: int,
    j: int,
)
    requires
        is_watch(m, trail, offers),
        0 <= i <= j < trail.len(),
        trail[i].converged,
    ensures
        trail[j].converged,
    decreases j - i,
{
    if i < j {
        law_verdict_stands_until_reset(m, trail, offers, i, j - 1);
        assert(took_offer(m, trail, offers, j - 1));
        law_verdict_latches(m, trail[j - 1], offers[j - 1].0, offers[j - 1].1, trail[j]);
    }
}

/// A verdict takes two windows in a row: it is reached only when a window closes
/// and the window before it closed without a bad value in between.
pub proof fn law_verdict_takes_two_windows<M: MonitorMath>(
    m: &M,
    a: PlateauMonitor,
    t: Scalar,
    x: Scalar,
    b: PlateauMonitor,
)
    requires
        a.wf(),
        a.updated(m, t, x, b),
        !a.converged,
        b.converged,
    ensures
        a.count == SAMPLES_PER_WINDOW - 1,
        a.prev_mean is Some,
        b.windows >= 2,
{
}

/// A value that is not finite leaves no trace in the means: the next comparison
/// is between two windows that closed after it.
pub proof fn law_bad_value_restarts_comparison<M: MonitorMath>(
    m: &M,
    a: PlateauMonitor,
    t: Scalar,
    x: Scalar,
    b: PlateauMonitor,
)
    requires
        a.updated(m, t, x, b),
        a.next_sample.at_most(t),
        !x.finite(),
    ensures
        b.count == 0,
        b.prev_mean is None,
        b.converged == a.converged,
{
}

/// A degenerate domain never fires: a monitor made with a window that is not a
/// positive number samples nothing at any finite time, and stays without a
/// verdict. That the share of an infinite window is infinite is the formula's
/// part.
pub proof fn law_degenerate_window_never_fires<M: MonitorMath>(
    m: &M,
    window_time: Scalar,
    trail: Seq<PlateauMonitor>,
    offers: Seq<(Scalar, Scalar)>,
    j: int,
)
    requires
        !(window_time.finite() && (Scalar { bits: ZERO }).below(window_time)),
        forall|dt: Scalar| #[trigger]
            call_ensures(M::sample_interval, (m, Scalar { bits: INFINITE }), dt) ==> dt.bits
                == INFINITE,
        is_watch(m, trail, offers),
        forall|i: int| 0 <= i < offers.len() ==> (#[trigger] offers[i]).0.finite(),
        trail[0].armed(),
        call_ensures(M::sample_interval, (m, sane_window(window_time)), trail[0].sample_dt),
        trail[0].next_sample == trail[0].sample_dt,
        0 <= j < trail.len(),
    ensures
        trail[j] == trail[0],
        !trail[j].converged,
    decreases j,
{
    if 0 < j {
        law_degenerate_window_never_fires(m, window_time, trail, offers, j - 1);
        assert(took_offer(m, trail, offers, j - 1));
        let at = offers[j - 1].0;
        assert(sane_window(window_time) == Scalar { bits: INFINITE });
        assert(!trail[0].next_sample.at_most(at)) by {
            let far = trail[0].next_sample;
            assert(far.bits == INFINITE);
            assert(far.order() == INFINITE);
        }
    }
}

/// What a sample that is due and finite does: it is added to the window, and the sixteenth
/// closes it. The window's mean is that of its sum; where a window closed before it without
/// a bad value between, the drift is the distance of the two means over the larger of their
/// sizes, and half the tolerance or less of it is the verdict.
pub proof fn law_samples_fill_windows<M: MonitorMath>(
    m: &M,
    a: PlateauMonitor,
    t: Scalar,
    x: Scalar,
    b: PlateauMonitor,
) -> (r: (Scalar, Scalar, Scalar))
    requires
        a.wf(),
        a.updated(m, t, x, b),
        a.next_sample.at_most(t),
        x.finite(),
    ensures
        ({
            let (sum, apart, limit) = r;
            &&& call_ensures(M::plus, (m, a.sum, x), sum)
            &&& a.count < 15 ==> {
                &&& b.sum == sum
                &&& b.count == a.count + 1
                &&& b.windows == a.windows
                &&& b.prev_mean == a.prev_mean
                &&& b.last_mean == a.last_mean
                &&& b.converged == a.converged
            }
            &&& a.count == 15 ==> {
                &&& b.sum.bits == ZERO
                &&& b.count == 0
                &&& b.windows == a.windows + 1
                &&& b.last_mean matches Some(mean) && call_ensures(M::window_mean, (m, sum), mean)
                &&& b.prev_mean == b.last_mean
                &&& a.prev_mean is None ==> b.converged == a.converged
                &&& a.prev_mean matches Some(prev) ==> {
                    let mean = b.last_mean->0;
                    let p = Scalar { bits: prev.magnitude() as u64 };
                    let q = Scalar { bits: mean.magnitude() as u64 };
                    &&& call_ensures(M::distance, (m, prev, mean), apart)
                    &&& call_ensures(M::half, (m, a.tol), limit)
                    &&& p.magnitude() > 0 && p.at_most(q) ==> call_ensures(
                        M::quotient,
                        (m, apart, q),
                        b.last_drift,
                    ) || q == p
                    &&& p.magnitude() > 0 && q.at_most(p) ==> call_ensures(
                        M::quotient,
                        (m, apart, p),
                        b.last_drift,
                    )
                    &&& b.converged <==> a.converged || b.last_drift.at_most(limit)
                }
            }
        }),
{
    let sum = choose|sum: Scalar| #[trigger]
        call_ensures(M::plus, (m, a.sum, x), sum) && if a.count + 1 == SAMPLES_PER_WINDOW {
            a.window_closed(m, sum, b)
        } else {
            &&& b.sum == sum
            &&& b.count == a.count + 1
            &&& b.prev_mean == a.prev_mean
            &&& b.last_mean == a.last_mean
            &&& b.last_drift == a.last_drift
            &&& b.windows == a.windows
            &&& b.converged == a.converged
        };
    let limit = choose|limit: Scalar| #[trigger]
        call_ensures(M::half, (m, a.tol), limit) && b.converged == (a.converged
            || b.last_drift.at_most(limit));
    let prev = a.prev_mean->0;
    let mean = b.prev_mean->0;
    let zero = Scalar { bits: ZERO };
    let scale = (Scalar { bits: prev.magnitude() as u64 }).larger(
        Scalar { bits: mean.magnitude() as u64 },
    );
    let apart = choose|d: Scalar| #[trigger]
        call_ensures(M::distance, (m, prev, mean), d) && if scale.equals(zero) {
            b.last_drift == if d.equals(zero) {
                zero
            } else {
                Scalar { bits: INFINITE }
            }
        } else {
            call_ensures(M::quotient, (m, d, scale), b.last_drift)
        };
    (sum, apart, limit)
}

/// A signal that stands still converges: where a window closes on the mean of the window
/// before it, the verdict is reached, as long as a value is no distance from itself and no
/// distance is a small one.
pub proof fn law_steady_signals_converge<M: MonitorMath>(
    m: &M,
    a: PlateauMonitor,
    t: Scalar,
    x: Scalar,
    b: PlateauMonitor,
    mean: Scalar,
)
    requires
        a.wf(),
        a.updated(m, t, x, b),
        a.next_sample.at_most(t),
        x.finite(),
        a.count == 15,
        a.prev_mean == Some(mean),
        b.last_mean == Some(mean),
        forall|d: Scalar| #[trigger] call_ensures(M::distance, (m, mean, mean), d) ==> d.bits
            == ZERO,
        forall|s: Scalar, d: Scalar| #[trigger]
            call_ensures(M::quotient, (m, Scalar { bits: ZERO }, s), d) ==> d.bits == ZERO,
        forall|h: Scalar| #[trigger]
            call_ensures(M::half, (m, a.tol), h) ==> (Scalar { bits: ZERO }).at_most(h),
    ensures
        b.converged,
{
    let sum = choose|sum: Scalar| #[trigger]
        call_ensures(M::plus, (m, a.sum, x), sum) && a.window_closed(m, sum, b);
    assert(is_relative_drift(m, mean, mean, b.last_drift));
    let zero = Scalar { bits: ZERO };
    let scale = (Scalar { bits: mean.magnitude() as u64 }).larger(
        Scalar { bits: mean.magnitude() as u64 },
    );
    let d = choose|d: Scalar| #[trigger]
        call_ensures(M::distance, (m, mean, mean), d) && if scale.equals(zero) {
            b.last_drift == if d.equals(zero) {
                zero
            } else {
                Scalar { bits: INFINITE }
            }
        } else {
            call_ensures(M::quotient, (m, d, scale), b.last_drift)
        };
    assert(d == zero);
    assert(b.last_drift.bits == ZERO);
}

/// The clock of the samples: nothing happens before the next one is due, and after it the
/// next is one interval on, counted from the time at hand where that has passed already.
pub proof fn law_samples_keep_their_interval<M: MonitorMath>(
    m: &M,
    a: PlateauMonitor,
    t: Scalar,
    x: Scalar,
    b: PlateauMonitor,
) -> (step: Scalar)
    requires
        a.updated(m, t, x, b),
    ensures
        !a.next_sample.at_most(t) ==> b == a,
        a.next_sample.at_most(t) && x.finite() ==> {
            &&& call_ensures(M::plus, (m, a.next_sample, a.sample_dt), step)
            &&& !step.at_most(t) ==> b.next_sample == step
            &&& step.at_most(t) ==> call_ensures(M::plus, (m, t, a.sample_dt), b.next_sample)
        },
        a.next_sample.at_most(t) && !x.finite() ==> call_ensures(
            M::plus,
            (m, t, a.sample_dt),
            b.next_sample,
        ),
        b.window_time == a.window_time,
        b.sample_dt == a.sample_dt,
        b.tol == a.tol,
{
    choose|step: Scalar| #[trigger]
        call_ensures(M::plus, (m, a.next_sample, a.sample_dt), step) && if step.at_most(t) {
            call_ensures(M::plus, (m, t, a.sample_dt), b.next_sample)
        } else {
            b.next_sample == step
        }
}

} // verus!
