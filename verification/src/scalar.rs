//! Measured quantities as the solver's decisions see them.
//!
//! A [`Scalar`] is an IEEE-754 binary64 pattern. The decisions in this crate
//! compare, negate and pick measured values; they never add or multiply them, so
//! everything here is exact. The arithmetic that produces the values lives
//! outside and hands them over by their bits.

use vstd::prelude::*;
use vstd::arithmetic::div_mod::*;
use vstd::arithmetic::power2::*;
use vstd::bits::*;

verus! {

/// The sign bit of a pattern.
pub const SIGN: u64 = 0x8000_0000_0000_0000;

/// The magnitude of an infinity; larger magnitudes are not numbers.
pub const INFINITE: u64 = 0x7FF0_0000_0000_0000;

/// One past the largest fraction field.
pub const FRACTION: u64 = 0x10_0000_0000_0000;

/// The exponent field of the value one.
pub const EXPONENT_OF_ONE: u64 = 1023;

/// Integers at or above this magnitude are not recognised by [`Scalar::as_integer`].
pub const INTEGER_LIMIT: u64 = 1_000_000_000_000_000;

/// A binary64 value, held by its bit pattern. Two of them are equal when their
/// values are: both zeros are, and a value that is not a number equals nothing.
#[derive(Clone, Copy, Debug)]
pub struct Scalar {
    pub bits: u64,
}

impl PartialEq for Scalar {
    fn eq(&self, other: &Scalar) -> (r: bool) {
        self.same(*other)
    }
}

impl vstd::std_specs::cmp::PartialEqSpecImpl for Scalar {
    open spec fn obeys_eq_spec() -> bool {
        true
    }

    open spec fn eq_spec(&self, other: &Scalar) -> bool {
        self.equals(*other)
    }
}

/// The pattern of the zero with a clear sign bit.
pub const ZERO: u64 = 0;

/// The pattern of one half.
pub const HALF: u64 = 0x3FE0_0000_0000_0000;

/// The pattern of one.
pub const ONE: u64 = 0x3FF0_0000_0000_0000;

/// The pattern of negative infinity.
pub const NEG_INFINITE: u64 = 0xFFF0_0000_0000_0000;

/// The pattern of a quiet not-a-number.
pub const QUIET_NAN: u64 = 0x7FF8_0000_0000_0000;

/// A finite nonnegative magnitude read as a multiple of the smallest positive
/// value, two to the power minus 1074.
pub open spec fn magnitude_units(magnitude: int) -> int {
    let exponent = magnitude / (FRACTION as int);
    let fraction = magnitude % (FRACTION as int);
    if exponent == 0 {
        fraction
    } else {
        (FRACTION + fraction) * pow2((exponent - 1) as nat)
    }
}

impl Scalar {
    /// The sign bit is set.
    pub open spec fn negative(self) -> bool {
        self.bits >= SIGN
    }

    /// The pattern without its sign bit.
    pub open spec fn magnitude(self) -> int {
        if self.negative() {
            self.bits - SIGN
        } else {
            self.bits as int
        }
    }

    /// Not a number.
    pub open spec fn nan(self) -> bool {
        self.magnitude() > INFINITE
    }

    /// Neither infinite nor not-a-number.
    pub open spec fn finite(self) -> bool {
        self.magnitude() < INFINITE
    }

    /// The position of the value among all values that are numbers. Both zeros
    /// stand at zero.
    pub open spec fn order(self) -> int {
        if self.negative() {
            -self.magnitude()
        } else {
            self.magnitude()
        }
    }

    /// The finite value as a multiple of the smallest positive value.
    pub open spec fn units(self) -> int {
        if self.negative() {
            -magnitude_units(self.magnitude())
        } else {
            magnitude_units(self.magnitude())
        }
    }

    /// `self < other`; false when either is not a number.
    pub open spec fn below(self, other: Scalar) -> bool {
        !self.nan() && !other.nan() && self.order() < other.order()
    }

    /// `self <= other`; false when either is not a number.
    pub open spec fn at_most(self, other: Scalar) -> bool {
        !self.nan() && !other.nan() && self.order() <= other.order()
    }

    /// `self == other` as values; false when either is not a number.
    pub open spec fn equals(self, other: Scalar) -> bool {
        !self.nan() && !other.nan() && self.order() == other.order()
    }

    /// The smaller of two values; a value that is not a number loses to one that is.
    pub open spec fn smaller(self, other: Scalar) -> Scalar {
        if self.nan() {
            other
        } else if other.below(self) {
            other
        } else {
            self
        }
    }

    /// The larger of two values; a value that is not a number loses to one that is.
    pub open spec fn larger(self, other: Scalar) -> Scalar {
        if self.nan() {
            other
        } else if self.below(other) {
            other
        } else {
            self
        }
    }

    /// The value with its sign bit flipped.
    pub open spec fn negated(self) -> Scalar {
        Scalar {
            bits: if self.negative() {
                (self.bits - SIGN) as u64
            } else {
                (self.bits + SIGN) as u64
            },
        }
    }

    /// `self` held between `lo` and `hi`.
    pub open spec fn held_between(self, lo: Scalar, hi: Scalar) -> Scalar {
        if self.below(lo) {
            lo
        } else if hi.below(self) {
            hi
        } else {
            self
        }
    }

    /// The value of a bit pattern.
    pub fn from_bits(bits: u64) -> (r: Scalar)
        ensures
            r.bits == bits,
    {
        Scalar { bits }
    }

    /// The bit pattern of the value.
    pub fn to_bits(self) -> (r: u64)
        ensures
            r == self.bits,
    {
        self.bits
    }

    /// Whether the sign bit is set.
    pub fn is_sign_negative(self) -> (r: bool)
        ensures
            r == self.negative(),
    {
        self.bits >= SIGN
    }

    fn magnitude_bits(self) -> (r: u64)
        ensures
            r == self.magnitude(),
    {
        if self.bits >= SIGN {
            self.bits - SIGN
        } else {
            self.bits
        }
    }

    /// Whether the value is not a number.
    pub fn is_nan(self) -> (r: bool)
        ensures
            r == self.nan(),
    {
        self.magnitude_bits() > INFINITE
    }

    /// Whether the value is neither infinite nor not-a-number.
    pub fn is_finite(self) -> (r: bool)
        ensures
            r == self.finite(),
    {
        self.magnitude_bits() < INFINITE
    }

    /// `self < other`.
    pub fn lt(self, other: Scalar) -> (r: bool)
        ensures
            r == self.below(other),
    {
        if self.is_nan() || other.is_nan() {
            return false;
        }
        let a: u64 = self.magnitude_bits();
        let b: u64 = other.magnitude_bits();
        if self.is_sign_negative() {
            if other.is_sign_negative() {
                b < a
            } else {
                a != 0 || b != 0
            }
        } else {
            if other.is_sign_negative() {
                false
            } else {
                a < b
            }
        }
    }

    /// `self <= other`.
    pub fn le(self, other: Scalar) -> (r: bool)
        ensures
            r == self.at_most(other),
    {
        if self.is_nan() || other.is_nan() {
            return false;
        }
        !other.lt(self)
    }

    /// `self == other` as values: the two zeros are equal, and nothing equals a
    /// value that is not a number.
    pub fn same(self, other: Scalar) -> (r: bool)
        ensures
            r == self.equals(other),
    {
        self.le(other) && other.le(self)
    }

    /// The smaller of two values.
    pub fn min(self, other: Scalar) -> (r: Scalar)
        ensures
            r == self.smaller(other),
    {
        if self.is_nan() {
            other
        } else if other.lt(self) {
            other
        } else {
            self
        }
    }

    /// The larger of two values.
    pub fn max(self, other: Scalar) -> (r: Scalar)
        ensures
            r == self.larger(other),
    {
        if self.is_nan() {
            other
        } else if self.lt(other) {
            other
        } else {
            self
        }
    }

    /// `self` held between `lo` and `hi`.
    pub fn clamp(self, lo: Scalar, hi: Scalar) -> (r: Scalar)
        requires
            lo.at_most(hi),
        ensures
            r == self.held_between(lo, hi),
            !self.nan() ==> lo.at_most(r) && r.at_most(hi),
    {
        if self.lt(lo) {
            lo
        } else if hi.lt(self) {
            hi
        } else {
            self
        }
    }

    /// `self` held between two values that need not be in order: the lower one is
    /// looked at first.
    pub fn hold(self, lo: Scalar, hi: Scalar) -> (r: Scalar)
        ensures
            r == self.held_between(lo, hi),
    {
        if self.lt(lo) {
            lo
        } else if hi.lt(self) {
            hi
        } else {
            self
        }
    }

    /// The value with its sign bit flipped.
    pub fn neg(self) -> (r: Scalar)
        ensures
            r == self.negated(),
            r.order() == -self.order(),
            r.nan() == self.nan(),
            r.magnitude() == self.magnitude(),
    {
        if self.bits >= SIGN {
            Scalar { bits: self.bits - SIGN }
        } else {
            Scalar { bits: self.bits + SIGN }
        }
    }

    /// The value with its sign bit cleared.
    pub fn abs(self) -> (r: Scalar)
        ensures
            r.bits == self.magnitude(),
    {
        Scalar { bits: self.magnitude_bits() }
    }

    /// The integer a value stands for, when it stands for one below
    /// [`INTEGER_LIMIT`] in magnitude. Both zeros give zero.
    pub fn as_integer(self) -> (r: Option<i64>)
        ensures
            match r {
                Some(n) => {
                    &&& self.finite()
                    &&& self.units() == n * pow2(1074)
                    &&& -INTEGER_LIMIT < n < INTEGER_LIMIT
                },
                None => !self.finite() || forall|n: int|
                    -INTEGER_LIMIT < n < INTEGER_LIMIT ==> self.units() != #[trigger] (n
                        * pow2(1074)),
            },
    {
        let magnitude: u64 = self.magnitude_bits();
        if magnitude >= INFINITE {
            return None;
        }
        if magnitude == 0 {
            proof {
                assert(magnitude_units(0) == 0);
                assert(0 * pow2(1074) == 0);
            }
            return Some(0);
        }
        let exponent: u64 = magnitude / FRACTION;
        let fraction: u64 = magnitude % FRACTION;
        if exponent < EXPONENT_OF_ONE {
            proof {
                lemma_below_one(magnitude as int);
            }
            return None;
        }
        let shift: u64 = exponent - EXPONENT_OF_ONE;
        if shift > 49 {
            proof {
                lemma_above_limit(magnitude as int);
            }
            return None;
        }
        proof {
            lemma_pow2_bounds((52 - shift) as nat);
            lemma_u64_shl_is_mul(1, (52 - shift) as u64);
        }
        let unit: u64 = 1u64 << (52 - shift);
        let significand: u64 = FRACTION + fraction;
        let whole: u64 = significand / unit;
        proof {
            lemma_integral(magnitude as int, shift as int);
        }
        if significand % unit != 0 || whole >= INTEGER_LIMIT {
            return None;
        }
        if self.is_sign_negative() {
            proof {
                assert(-(whole * pow2(1074)) == (-whole) * pow2(1074)) by (nonlinear_arith);
            }
            Some(-(whole as i64))
        } else {
            Some(whole as i64)
        }
    }
}

proof fn lemma_pow2_bounds(k: nat)
    requires
        k <= 52,
    ensures
        1 <= pow2(k) <= FRACTION,
{
    lemma_pow2_pos(k);
    lemma2_to64_rest();
    if k < 52 {
        lemma_pow2_strictly_increases(k, 52);
    }
}

/// The bounds of a magnitude's units by its exponent field.
proof fn lemma_units_bounds(magnitude: int)
    requires
        0 <= magnitude,
    ensures
        ({
            let exponent = magnitude / (FRACTION as int);
            &&& exponent > 0 ==> FRACTION * pow2((exponent - 1) as nat) <= magnitude_units(
                magnitude,
            )
            &&& magnitude_units(magnitude) < FRACTION * pow2(exponent as nat)
            &&& 0 <= magnitude_units(magnitude)
        }),
{
    let exponent = magnitude / (FRACTION as int);
    let fraction = magnitude % (FRACTION as int);
    if exponent == 0 {
        lemma2_to64();
    } else {
        let p = pow2((exponent - 1) as nat) as int;
        lemma_pow2_pos((exponent - 1) as nat);
        lemma_pow2_unfold(exponent as nat);
        assert(FRACTION * p <= (FRACTION + fraction) * p < FRACTION * (2 * p)) by (nonlinear_arith)
            requires
                0 <= fraction < FRACTION,
                p > 0,
        ;
    }
}

/// The magnitude order is the order of the values that the magnitudes stand for.
proof fn lemma_units_increase(a: int, b: int)
    requires
        0 <= a < b,
    ensures
        magnitude_units(a) < magnitude_units(b),
{
    let ea = a / (FRACTION as int);
    let eb = b / (FRACTION as int);
    if ea == eb {
        let fa = a % (FRACTION as int);
        let fb = b % (FRACTION as int);
        if ea > 0 {
            let p = pow2((ea - 1) as nat) as int;
            lemma_pow2_pos((ea - 1) as nat);
            assert((FRACTION + fa) * p < (FRACTION + fb) * p) by (nonlinear_arith)
                requires
                    fa < fb,
                    p > 0,
            ;
        }
    } else {
        lemma_units_bounds(a);
        lemma_units_bounds(b);
        if ea < eb - 1 {
            lemma_pow2_strictly_increases(ea as nat, (eb - 1) as nat);
        }
        let p = pow2(ea as nat) as int;
        let q = pow2((eb - 1) as nat) as int;
        assert(FRACTION * p <= FRACTION * q) by (nonlinear_arith)
            requires
                p <= q,
        ;
    }
}

proof fn lemma_below_one(magnitude: int)
    requires
        0 < magnitude,
        magnitude / (FRACTION as int) < EXPONENT_OF_ONE,
    ensures
        forall|n: int| magnitude_units(magnitude) != #[trigger] (n * pow2(1074)),
        forall|n: int| -magnitude_units(magnitude) != #[trigger] (n * pow2(1074)),
{
    let exponent = magnitude / (FRACTION as int);
    lemma_units_bounds(magnitude);
    lemma_units_increase(0, magnitude);
    let units = magnitude_units(magnitude);
    let whole = pow2(1074) as int;
    assert(units < whole) by {
        lemma_pow2_adds(52, 1022);
        lemma2_to64_rest();
        if exponent < 1022 {
            lemma_pow2_strictly_increases(exponent as nat, 1022);
        }
        let p = pow2(exponent as nat) as int;
        let q = pow2(1022) as int;
        assert(FRACTION * p <= FRACTION * q) by (nonlinear_arith)
            requires
                p <= q,
        ;
    }
    assert forall|n: int| units != #[trigger] (n * pow2(1074)) by {
        assert(n * whole != units) by (nonlinear_arith)
            requires
                0 < units < whole,
        ;
    }
    assert forall|n: int| -units != #[trigger] (n * pow2(1074)) by {
        assert(n * whole != -units) by (nonlinear_arith)
            requires
                0 < units < whole,
        ;
    }
}

proof fn lemma_above_limit(magnitude: int)
    requires
        0 <= magnitude,
        magnitude / (FRACTION as int) > EXPONENT_OF_ONE + 49,
    ensures
        forall|n: int|
            -INTEGER_LIMIT < n < INTEGER_LIMIT ==> magnitude_units(magnitude) != #[trigger] (n
                * pow2(1074)),
        forall|n: int|
            -INTEGER_LIMIT < n < INTEGER_LIMIT ==> -magnitude_units(magnitude) != #[trigger] (n
                * pow2(1074)),
{
    let exponent = magnitude / (FRACTION as int);
    lemma_units_bounds(magnitude);
    let units = magnitude_units(magnitude);
    let whole = pow2(1074) as int;
    lemma_pow2_pos(1074);
    assert(units >= INTEGER_LIMIT * whole) by {
        lemma_pow2_adds(52, 1072);
        lemma_pow2_adds(50, 1074);
        lemma2_to64_rest();
        lemma2_to64();
        if exponent - 1 > 1072 {
            lemma_pow2_strictly_increases(1072, (exponent - 1) as nat);
        }
        let p = pow2((exponent - 1) as nat) as int;
        let q = pow2(1072) as int;
        assert(FRACTION * p >= FRACTION * q) by (nonlinear_arith)
            requires
                p >= q,
        ;
        assert(pow2(50) * whole >= INTEGER_LIMIT * whole) by (nonlinear_arith)
            requires
                pow2(50) >= INTEGER_LIMIT,
                whole > 0,
        ;
    }
    assert forall|n: int| -INTEGER_LIMIT < n < INTEGER_LIMIT implies units != #[trigger] (n
        * pow2(1074)) && -units != n * pow2(1074) by {
        assert(-(INTEGER_LIMIT * whole) < n * whole < INTEGER_LIMIT * whole) by (nonlinear_arith)
            requires
                -INTEGER_LIMIT < n < INTEGER_LIMIT,
                whole > 0,
        ;
    }
}

/// A significand scaled by at most its own width is an integer exactly when the
/// scale divides it, and the quotient is that integer.
proof fn lemma_integral(magnitude: int, shift: int)
    requires
        0 <= magnitude,
        0 <= shift <= 49,
        magnitude / (FRACTION as int) == EXPONENT_OF_ONE + shift,
    ensures
        ({
            let significand = FRACTION + magnitude % (FRACTION as int);
            let unit = pow2((52 - shift) as nat) as int;
            &&& significand % unit == 0 ==> magnitude_units(magnitude) == (significand / unit)
                * pow2(1074)
            &&& forall|n: int|
                magnitude_units(magnitude) == #[trigger] (n * pow2(1074)) ==> significand % unit
                    == 0 && n == significand / unit
            &&& forall|n: int|
                -magnitude_units(magnitude) == #[trigger] (n * pow2(1074)) ==> significand % unit
                    == 0 && -n == significand / unit
        }),
{
    let exponent = magnitude / (FRACTION as int);
    let significand = FRACTION + magnitude % (FRACTION as int);
    let unit = pow2((52 - shift) as nat) as int;
    let p = pow2((exponent - 1) as nat) as int;
    let whole = pow2(1074) as int;
    let units = magnitude_units(magnitude);
    lemma_pow2_pos((52 - shift) as nat);
    lemma_pow2_pos((exponent - 1) as nat);
    lemma_pow2_adds((52 - shift) as nat, (exponent - 1) as nat);
    assert(whole == unit * p);
    assert(units == significand * p);
    if significand % unit == 0 {
        let q = significand / unit;
        assert(significand == unit * q) by {
            lemma_fundamental_div_mod(significand, unit);
        }
        assert(units == q * whole) by (nonlinear_arith)
            requires
                units == significand * p,
                significand == unit * q,
                whole == unit * p,
        ;
    }
    assert forall|n: int| units == #[trigger] (n * pow2(1074)) implies significand % unit == 0
        && n == significand / unit by {
        assert(significand == n * unit) by (nonlinear_arith)
            requires
                significand * p == n * (unit * p),
                p > 0,
        ;
        lemma_fundamental_div_mod_converse(significand, unit, n, 0);
    }
    assert forall|n: int| -units == #[trigger] (n * pow2(1074)) implies significand % unit == 0
        && -n == significand / unit by {
        assert(significand == (-n) * unit) by (nonlinear_arith)
            requires
                -(significand * p) == n * (unit * p),
                p > 0,
        ;
        lemma_fundamental_div_mod_converse(significand, unit, -n, 0);
    }
}

/// The order of two finite values is the order of the numbers that they stand for.
pub proof fn law_order_is_value_order(a: Scalar, b: Scalar)
    requires
        a.finite(),
        b.finite(),
    ensures
        a.below(b) <==> a.units() < b.units(),
        a.at_most(b) <==> a.units() <= b.units(),
        a.equals(b) <==> a.units() == b.units(),
{
    lemma_units_bounds(a.magnitude());
    lemma_units_bounds(b.magnitude());
    assert(magnitude_units(0) == 0);
    if a.magnitude() > 0 {
        lemma_units_increase(0, a.magnitude());
    }
    if b.magnitude() > 0 {
        lemma_units_increase(0, b.magnitude());
    }
    if a.magnitude() < b.magnitude() {
        lemma_units_increase(a.magnitude(), b.magnitude());
    } else if b.magnitude() < a.magnitude() {
        lemma_units_increase(b.magnitude(), a.magnitude());
    }
}

/// The larger of two numbers is one of them and no lower than either, the smaller one of
/// them and no higher; beside a value that is not a number, a number wins.
pub proof fn law_extremes_bound_both(a: Scalar, b: Scalar)
    ensures
        a.larger(b) == a || a.larger(b) == b,
        a.smaller(b) == a || a.smaller(b) == b,
        !a.nan() && !b.nan() ==> a.at_most(a.larger(b)) && b.at_most(a.larger(b)),
        !a.nan() && !b.nan() ==> a.smaller(b).at_most(a) && a.smaller(b).at_most(b),
        a.nan() ==> a.larger(b) == b && a.smaller(b) == b,
        b.nan() && !a.nan() ==> a.larger(b) == a && a.smaller(b) == a,
{
}

/// A number held between two bounds lies between them and is left alone when it did, and a
/// value that is not a number stays what it is.
pub proof fn law_held_values_lie_between(x: Scalar, lo: Scalar, hi: Scalar)
    requires
        lo.at_most(hi),
    ensures
        !x.nan() ==> lo.at_most(x.held_between(lo, hi)) && x.held_between(lo, hi).at_most(hi),
        lo.at_most(x) && x.at_most(hi) ==> x.held_between(lo, hi) == x,
        x.held_between(lo, hi) == x || x.held_between(lo, hi) == lo || x.held_between(lo, hi)
            == hi,
        x.nan() ==> x.held_between(lo, hi) == x,
        x.at_most(lo) && !x.equals(lo) ==> x.held_between(lo, hi) == lo,
        hi.at_most(x) && !x.equals(hi) ==> x.held_between(lo, hi) == hi,
{
}

/// Negating turns the order round, keeps the size and is undone by negating again.
pub proof fn law_negation_turns_the_order(a: Scalar, b: Scalar)
    ensures
        a.below(b) <==> b.negated().below(a.negated()),
        a.at_most(b) <==> b.negated().at_most(a.negated()),
        a.negated().negated() == a,
        a.finite() ==> a.negated().finite() && a.negated().units() == -a.units(),
        a.nan() <==> a.negated().nan(),
{
}

} // verus!
