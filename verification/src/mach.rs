//! The Mach number of an isentropic stream at an area ratio.

use vstd::prelude::*;
use crate::scalar::{Scalar, ONE};

verus! {

/// The pattern of the distance from one at which a ratio counts as one, 1e-6.
pub const NEAR_ONE: u64 = 0x3EB0_C6F7_A0B5_ED8D;

/// The pattern of that distance for the preview, 1e-9.
pub const NEARER_ONE: u64 = 0x3E11_2E0B_E826_D695;

/// The pattern of the largest Mach number of the preview, 100.
pub const MACH_HIGH: u64 = 0x4059_0000_0000_0000;

/// The pattern of the smallest Mach number of the preview, 1e-6.
pub const MACH_LOW: u64 = 0x3EB0_C6F7_A0B5_ED8D;

/// Newton iterations.
pub const NEWTON_STEPS: usize = 8;

/// Halvings of the preview's bracket.
pub const HALVINGS: usize = 80;

/// The floating-point formulas of the area-Mach relation.
pub trait MachMath {
    /// The distance of a ratio from one.
    fn off_one(&self, ratio: Scalar) -> Scalar;

    /// The constant two over gamma plus one.
    fn sonic_part(&self, gamma: Scalar) -> Scalar;

    /// What is left of one.
    fn rest_of_one(&self, part: Scalar) -> Scalar;

    /// The scaled ratio below sonic speed: its square.
    fn subsonic_ratio(&self, ratio: Scalar) -> Scalar;

    /// The scaled ratio above sonic speed: its power to twice `rest` over `part`.
    fn supersonic_ratio(&self, ratio: Scalar, part: Scalar, rest: Scalar) -> Scalar;

    /// The closed-form guess that the iteration for the constants `p` and `q` and
    /// the scaled ratio starts from.
    fn newton_seed(&self, p: Scalar, q: Scalar, scaled: Scalar) -> Scalar;

    /// One Newton step.
    fn newton_step(&self, x: Scalar, p: Scalar, q: Scalar, scaled: Scalar) -> Scalar;

    /// The Mach number below sonic speed that a root stands for.
    fn subsonic_mach(&self, x: Scalar) -> Scalar;

    /// The Mach number above sonic speed that a root stands for.
    fn supersonic_mach(&self, x: Scalar) -> Scalar;

    /// The area ratio of a Mach number.
    fn area_at(&self, mach: Scalar, gamma: Scalar) -> Scalar;

    /// The midpoint of two values.
    fn midpoint(&self, lo: Scalar, hi: Scalar) -> Scalar;
}

/// The two constants and the scaled ratio of the area relation: on the supersonic
/// branch the constants change places.
pub open spec fn are_terms<M: MachMath>(
    m: &M,
    ratio: Scalar,
    gamma: Scalar,
    supersonic: bool,
    p: Scalar,
    q: Scalar,
    scaled: Scalar,
) -> bool {
    if supersonic {
        &&& call_ensures(M::sonic_part, (m, gamma), q)
        &&& call_ensures(M::rest_of_one, (m, q), p)
        &&& call_ensures(M::supersonic_ratio, (m, ratio, q, p), scaled)
    } else {
        &&& call_ensures(M::sonic_part, (m, gamma), p)
        &&& call_ensures(M::rest_of_one, (m, p), q)
        &&& call_ensures(M::subsonic_ratio, (m, ratio), scaled)
    }
}

/// `x` is reached after `n` Newton steps.
pub open spec fn is_iterate<M: MachMath>(
    m: &M,
    p: Scalar,
    q: Scalar,
    scaled: Scalar,
    n: int,
    x: Scalar,
) -> bool
    decreases n,
{
    if n <= 0 {
        call_ensures(M::newton_seed, (m, p, q, scaled), x)
    } else {
        exists|y: Scalar| #[trigger]
            call_ensures(M::newton_step, (m, y, p, q, scaled), x) && is_iterate(
                m,
                p,
                q,
                scaled,
                n - 1,
                y,
            )
    }
}

/// `r` is the Mach number that the root `x` stands for on one of the branches.
pub open spec fn is_mach_of<M: MachMath>(m: &M, x: Scalar, supersonic: bool, r: Scalar) -> bool {
    if supersonic {
        call_ensures(M::supersonic_mach, (m, x), r)
    } else {
        call_ensures(M::subsonic_mach, (m, x), r)
    }
}

/// `r` is the Mach number at an area ratio on one of the two branches: one where
/// the ratio is as good as one, else what the Newton iteration gives.
pub open spec fn is_mach_at<M: MachMath>(
    m: &M,
    ratio: Scalar,
    gamma: Scalar,
    supersonic: bool,
    r: Scalar,
) -> bool {
    exists|off: Scalar| #[trigger]
        call_ensures(M::off_one, (m, ratio), off) && if off.below(Scalar { bits: NEAR_ONE }) {
            r.bits == ONE
        } else {
            exists|p: Scalar, q: Scalar, scaled: Scalar, x: Scalar|
                {
                    &&& #[trigger] are_terms(m, ratio, gamma, supersonic, p, q, scaled)
                    &&& is_iterate(m, p, q, scaled, NEWTON_STEPS as int, x)
                    &&& #[trigger] is_mach_of(m, x, supersonic, r)
                }
        }
}

/// The Mach number at an area ratio on one of the two branches.
pub fn mach_from_area_ratio<M: MachMath>(
    m: &M,
    ratio: Scalar,
    gamma: Scalar,
    supersonic: bool,
) -> (r: Scalar)
    ensures
        is_mach_at(m, ratio, gamma, supersonic, r),
{
    let off = m.off_one(ratio);
    if off.lt(Scalar { bits: NEAR_ONE }) {
        return Scalar { bits: ONE };
    }
    let part = m.sonic_part(gamma);
    let rest = m.rest_of_one(part);
    let (p, q, scaled) = if supersonic {
        (rest, part, m.supersonic_ratio(ratio, part, rest))
    } else {
        (part, rest, m.subsonic_ratio(ratio))
    };
    assert(are_terms(m, ratio, gamma, supersonic, p, q, scaled));
    let mut x = m.newton_seed(p, q, scaled);
    let mut n: usize = 0;
    while n < NEWTON_STEPS
        invariant
            n <= NEWTON_STEPS,
            is_iterate(m, p, q, scaled, n as int, x),
        decreases NEWTON_STEPS - n,
    {
        let ghost y = x;
        x = m.newton_step(x, p, q, scaled);
        n = n + 1;
        assert(call_ensures(M::newton_step, (m, y, p, q, scaled), x));
    }
    let r = if supersonic {
        m.supersonic_mach(x)
    } else {
        m.subsonic_mach(x)
    };
    assert(is_mach_of(m, x, supersonic, r));
    r
}

/// Halving the bracket `lo` to `hi` once gives `lo2` to `hi2`. The area ratio
/// falls with the Mach number below sonic speed and rises above it.
pub open spec fn halves<M: MachMath>(
    m: &M,
    ratio: Scalar,
    gamma: Scalar,
    supersonic: bool,
    lo: Scalar,
    hi: Scalar,
    mid: Scalar,
    area: Scalar,
    lo2: Scalar,
    hi2: Scalar,
) -> bool {
    &&& call_ensures(M::midpoint, (m, lo, hi), mid)
    &&& call_ensures(M::area_at, (m, mid, gamma), area)
    &&& if ratio.below(area) == supersonic {
        lo2 == lo && hi2 == mid
    } else {
        lo2 == mid && hi2 == hi
    }
}

/// `lo` to `hi` is the bracket after `n` halvings.
pub open spec fn is_bracket<M: MachMath>(
    m: &M,
    ratio: Scalar,
    gamma: Scalar,
    supersonic: bool,
    n: int,
    lo: Scalar,
    hi: Scalar,
) -> bool
    decreases n,
{
    if n <= 0 {
        if supersonic {
            lo.bits == ONE && hi.bits == MACH_HIGH
        } else {
            lo.bits == MACH_LOW && hi.bits == ONE
        }
    } else {
        exists|lo0: Scalar, hi0: Scalar, mid: Scalar, area: Scalar| #[trigger]
            halves(m, ratio, gamma, supersonic, lo0, hi0, mid, area, lo, hi) && is_bracket(
                m,
                ratio,
                gamma,
                supersonic,
                n - 1,
                lo0,
                hi0,
            )
    }
}

/// `r` is the Mach number at an area ratio by bisection: one where the ratio is
/// as good as one, else the midpoint of the last bracket.
pub open spec fn is_mach_by_bisection<M: MachMath>(
    m: &M,
    ratio: Scalar,
    gamma: Scalar,
    supersonic: bool,
    r: Scalar,
) -> bool {
    exists|off: Scalar| #[trigger]
        call_ensures(M::off_one, (m, ratio), off) && if off.below(Scalar { bits: NEARER_ONE }) {
            r.bits == ONE
        } else {
            exists|lo: Scalar, hi: Scalar| #[trigger]
                call_ensures(M::midpoint, (m, lo, hi), r) && is_bracket(
                    m,
                    ratio,
                    gamma,
                    supersonic,
                    HALVINGS as int,
                    lo,
                    hi,
                )
        }
}

/// The Mach number at an area ratio by bisection.
pub fn mach_by_bisection<M: MachMath>(
    m: &M,
    ratio: Scalar,
    gamma: Scalar,
    supersonic: bool,
) -> (r: Scalar)
    ensures
        is_mach_by_bisection(m, ratio, gamma, supersonic, r),
{
    let off = m.off_one(ratio);
    let one = Scalar { bits: ONE };
    if off.lt(Scalar { bits: NEARER_ONE }) {
        return one;
    }
    let mut lo = if supersonic {
        one
    } else {
        Scalar { bits: MACH_LOW }
    };
    let mut hi = if supersonic {
        Scalar { bits: MACH_HIGH }
    } else {
        one
    };
    let mut n: usize = 0;
    while n < HALVINGS
        invariant
            n <= HALVINGS,
            is_bracket(m, ratio, gamma, supersonic, n as int, lo, hi),
        decreases HALVINGS - n,
    {
        let ghost lo0 = lo;
        let ghost hi0 = hi;
        let mid = m.midpoint(lo, hi);
        let area = m.area_at(mid, gamma);
        if ratio.lt(area) == supersonic {
            hi = mid;
        } else {
            lo = mid;
        }
        n = n + 1;
        assert(halves(m, ratio, gamma, supersonic, lo0, hi0, mid, area, lo, hi));
    }
    m.midpoint(lo, hi)
}

/// A ratio as good as one is that of sonic speed on both branches; elsewhere the branch
/// decides which of the two constants goes first, how the ratio is scaled and how the root
/// of the iteration is read.
pub proof fn law_branches_of_the_area_relation<M: MachMath>(
    m: &M,
    ratio: Scalar,
    gamma: Scalar,
    supersonic: bool,
    r: Scalar,
) -> (w: (Scalar, Scalar, Scalar, Scalar, Scalar))
    requires
        is_mach_at(m, ratio, gamma, supersonic, r),
    ensures
        ({
            let (off, part, rest, scaled, x) = w;
            &&& call_ensures(M::off_one, (m, ratio), off)
            &&& off.below(Scalar { bits: NEAR_ONE }) ==> r.bits == ONE
            &&& !off.below(Scalar { bits: NEAR_ONE }) ==> {
                &&& call_ensures(M::sonic_part, (m, gamma), part)
                &&& call_ensures(M::rest_of_one, (m, part), rest)
                &&& supersonic ==> {
                    &&& call_ensures(M::supersonic_ratio, (m, ratio, part, rest), scaled)
                    &&& is_iterate(m, rest, part, scaled, 8, x)
                    &&& call_ensures(M::supersonic_mach, (m, x), r)
                }
                &&& !supersonic ==> {
                    &&& call_ensures(M::subsonic_ratio, (m, ratio), scaled)
                    &&& is_iterate(m, part, rest, scaled, 8, x)
                    &&& call_ensures(M::subsonic_mach, (m, x), r)
                }
            }
        }),
{
    let off = choose|off: Scalar| #[trigger]
        call_ensures(M::off_one, (m, ratio), off) && if off.below(Scalar { bits: NEAR_ONE }) {
            r.bits == ONE
        } else {
            exists|p: Scalar, q: Scalar, scaled: Scalar, x: Scalar|
                {
                    &&& #[trigger] are_terms(m, ratio, gamma, supersonic, p, q, scaled)
                    &&& is_iterate(m, p, q, scaled, NEWTON_STEPS as int, x)
                    &&& #[trigger] is_mach_of(m, x, supersonic, r)
                }
        };
    let (p, q, scaled, x) = choose|p: Scalar, q: Scalar, scaled: Scalar, x: Scalar|
        {
            &&& #[trigger] are_terms(m, ratio, gamma, supersonic, p, q, scaled)
            &&& is_iterate(m, p, q, scaled, NEWTON_STEPS as int, x)
            &&& #[trigger] is_mach_of(m, x, supersonic, r)
        };
    if supersonic {
        (off, q, p, scaled, x)
    } else {
        (off, p, q, scaled, x)
    }
}

/// Once the iteration stands still it has its root: a step that changes nothing is made
/// for good.
pub proof fn law_iterates_keep_a_root<M: MachMath>(
    m: &M,
    p: Scalar,
    q: Scalar,
    scaled: Scalar,
    n: int,
    x: Scalar,
    root: Scalar,
)
    requires
        is_iterate(m, p, q, scaled, n, x),
        forall|y: Scalar| #[trigger] call_ensures(M::newton_seed, (m, p, q, scaled), y) ==> y == root,
        forall|y: Scalar| #[trigger]
            call_ensures(M::newton_step, (m, root, p, q, scaled), y) ==> y == root,
    ensures
        x == root,
    decreases n,
{
    if n > 0 {
        let y = choose|y: Scalar| #[trigger]
            call_ensures(M::newton_step, (m, y, p, q, scaled), x) && is_iterate(
                m,
                p,
                q,
                scaled,
                n - 1,
                y,
            );
        law_iterates_keep_a_root(m, p, q, scaled, n - 1, y, root);
    }
}

/// The bisection closes in on the ratio from both sides: the Mach number is the midpoint
/// of a bracket on its branch. Above sonic speed the area at its low end is not above the
/// ratio and that at its high end is; below it the other way round. An end that was never
/// moved is the end of the branch.
pub proof fn law_bisection_encloses_the_ratio<M: MachMath>(
    m: &M,
    ratio: Scalar,
    gamma: Scalar,
    supersonic: bool,
    r: Scalar,
)
    requires
        is_mach_by_bisection(m, ratio, gamma, supersonic, r),
    ensures
        ({
            ||| r.bits == ONE && exists|off: Scalar| #[trigger]
                call_ensures(M::off_one, (m, ratio), off) && off.below(Scalar { bits: NEARER_ONE })
            ||| exists|lo: Scalar, hi: Scalar|
                {
                    &&& #[trigger] call_ensures(M::midpoint, (m, lo, hi), r)
                    &&& {
                        ||| supersonic && lo.bits == ONE
                        ||| !supersonic && lo.bits == MACH_LOW
                        ||| exists|area: Scalar| #[trigger]
                            call_ensures(M::area_at, (m, lo, gamma), area) && ratio.below(area)
                                != supersonic
                    }
                    &&& {
                        ||| supersonic && hi.bits == MACH_HIGH
                        ||| !supersonic && hi.bits == ONE
                        ||| exists|area: Scalar| #[trigger]
                            call_ensures(M::area_at, (m, hi, gamma), area) && ratio.below(area)
                                == supersonic
                    }
                }
        }),
{
    let off = choose|off: Scalar| #[trigger]
        call_ensures(M::off_one, (m, ratio), off) && if off.below(Scalar { bits: NEARER_ONE }) {
            r.bits == ONE
        } else {
            exists|lo: Scalar, hi: Scalar| #[trigger]
                call_ensures(M::midpoint, (m, lo, hi), r) && is_bracket(
                    m,
                    ratio,
                    gamma,
                    supersonic,
                    HALVINGS as int,
                    lo,
                    hi,
                )
        };
    if !off.below(Scalar { bits: NEARER_ONE }) {
        let (lo, hi) = choose|lo: Scalar, hi: Scalar| #[trigger]
            call_ensures(M::midpoint, (m, lo, hi), r) && is_bracket(
                m,
                ratio,
                gamma,
                supersonic,
                HALVINGS as int,
                lo,
                hi,
            );
        lemma_bracket_encloses(m, ratio, gamma, supersonic, HALVINGS as int, lo, hi);
    }
}

proof fn lemma_bracket_encloses<M: MachMath>(
    m: &M,
    ratio: Scalar,
    gamma: Scalar,
    supersonic: bool,
    n: int,
    lo: Scalar,
    hi: Scalar,
)
    requires
        is_bracket(m, ratio, gamma, supersonic, n, lo, hi),
    ensures
        ({
            ||| supersonic && lo.bits == ONE
            ||| !supersonic && lo.bits == MACH_LOW
            ||| exists|area: Scalar| #[trigger]
                call_ensures(M::area_at, (m, lo, gamma), area) && ratio.below(area) != supersonic
        }),
        ({
            ||| supersonic && hi.bits == MACH_HIGH
            ||| !supersonic && hi.bits == ONE
            ||| exists|area: Scalar| #[trigger]
                call_ensures(M::area_at, (m, hi, gamma), area) && ratio.below(area) == supersonic
        }),
    decreases n,
{
    if n > 0 {
        let (lo0, hi0, mid, area) = choose|lo0: Scalar, hi0: Scalar, mid: Scalar, area: Scalar|
            #[trigger]
            halves(m, ratio, gamma, supersonic, lo0, hi0, mid, area, lo, hi) && is_bracket(
                m,
                ratio,
                gamma,
                supersonic,
                n - 1,
                lo0,
                hi0,
            );
        lemma_bracket_encloses(m, ratio, gamma, supersonic, n - 1, lo0, hi0);
        assert(call_ensures(M::area_at, (m, mid, gamma), area));
    }
}

} // verus!
