//! IEEE-754 binary64 numbers held by their bit patterns.
//!
//! A pattern has a sign bit, eleven exponent bits and fifty-two fraction
//! bits. Its numeric meaning is written down here as an exact integer, the
//! number counted in units of 2^-1074 (the smallest subnormal), and the
//! comparisons are proved against that meaning.
use vstd::prelude::*;
use vstd::arithmetic::div_mod::lemma_basic_div;
use vstd::arithmetic::div_mod::lemma_div_is_ordered;
use vstd::arithmetic::div_mod::lemma_div_multiples_vanish;
use vstd::arithmetic::div_mod::lemma_div_multiples_vanish_quotient;
use vstd::arithmetic::mul::lemma_mul_inequality;
use vstd::arithmetic::mul::lemma_mul_strict_inequality;
use vstd::arithmetic::power2::lemma2_to64;
use vstd::arithmetic::power2::lemma2_to64_rest;
use vstd::arithmetic::power2::lemma_pow2_adds;
use vstd::arithmetic::power2::lemma_pow2_pos;
use vstd::arithmetic::power2::lemma_pow2_strictly_increases;
use vstd::arithmetic::power2::lemma_pow2_unfold;
use vstd::arithmetic::power2::pow2;
use vstd::bits::lemma_u64_shr_is_div;

verus! {

/// The lowest pattern with the sign bit set: 2^63.
pub const SIGN_BIT: u64 = 0x8000_0000_0000_0000;

/// The number of fraction patterns, and the weight of the hidden bit: 2^52.
pub const FRACTION_SPAN: u64 = 0x0010_0000_0000_0000;

/// The number of exponent patterns: 2^11.
pub const EXPONENT_SPAN: u64 = 0x800;

/// The exponent pattern shared by the infinities and the NaNs.
pub const EXPONENT_TOP: u64 = 0x7ff;

/// The bits of the number one: exponent field 1023 and an empty fraction.
pub const ONE_BITS: u64 = 0x3ff0_0000_0000_0000;

/// The exponent field of the numbers from one up to two.
pub const EXPONENT_OF_ONE: u64 = 1023;

/// The number of units in one: the units are 2^-1074.
pub open spec fn units_in_one() -> nat {
    pow2(1074)
}

/// A binary64 number, held by its bits.
#[derive(Clone, Copy, Debug)]
pub struct Scalar {
    pub bits: u64,
}

impl Scalar {
    /// The sign bit is set.
    pub open spec fn negative(self) -> bool {
        self.bits >= SIGN_BIT
    }

    /// The bits without the sign.
    pub open spec fn pattern(self) -> nat {
        (self.bits % SIGN_BIT) as nat
    }

    /// The biased exponent field.
    pub open spec fn exponent(self) -> nat {
        ((self.bits / FRACTION_SPAN) % EXPONENT_SPAN) as nat
    }

    /// The fraction field.
    pub open spec fn fraction(self) -> nat {
        (self.bits % FRACTION_SPAN) as nat
    }

    /// Not a number: the top exponent with a fraction that is not zero.
    pub open spec fn spec_is_nan(self) -> bool {
        self.exponent() == EXPONENT_TOP && self.fraction() != 0
    }

    /// The absolute value in units of 2^-1074. A subnormal is its fraction;
    /// a normal number is its fraction under the hidden bit, doubled once for
    /// each exponent step above the first. An infinity gets the next number
    /// above every finite one by the same rule.
    pub open spec fn magnitude(self) -> nat {
        if self.exponent() == 0 {
            self.fraction()
        } else {
            ((FRACTION_SPAN + self.fraction()) * pow2((self.exponent() - 1) as nat)) as nat
        }
    }

    /// The number in units of 2^-1074. Both zeros have the value 0.
    pub open spec fn value(self) -> int {
        if self.negative() {
            -(self.magnitude() as int)
        } else {
            self.magnitude() as int
        }
    }

    /// The `<` of binary64: false whenever a NaN takes part.
    pub open spec fn spec_lt(self, other: Scalar) -> bool {
        !self.spec_is_nan() && !other.spec_is_nan() && self.value() < other.value()
    }

    /// The `>` of binary64.
    pub open spec fn spec_gt(self, other: Scalar) -> bool {
        other.spec_lt(self)
    }

    /// The whole part of the absolute value.
    pub open spec fn whole(self) -> nat {
        self.magnitude() / units_in_one()
    }

    /// The number cut off towards zero to a whole number, as far as `i32`
    /// reaches: beyond its ends the nearest end, and zero for a NaN.
    pub open spec fn spec_to_i32(self) -> i32 {
        if self.spec_is_nan() {
            0i32
        } else if self.negative() {
            if self.whole() >= 0x8000_0000 {
                i32::MIN
            } else {
                (-(self.whole() as int)) as i32
            }
        } else {
            if self.whole() >= 0x7fff_ffff {
                i32::MAX
            } else {
                self.whole() as i32
            }
        }
    }

    /// The number with these bits.
    pub fn from_bits(bits: u64) -> (s: Scalar)
        ensures
            s.bits == bits,
    {
        Scalar { bits }
    }

    /// The bits of this number.
    pub fn to_bits(self) -> (bits: u64)
        ensures
            bits == self.bits,
    {
        self.bits
    }

    /// Positive zero.
    pub fn zero() -> (s: Scalar)
        ensures
            s.bits == 0,
            !s.spec_is_nan(),
            s.value() == 0,
    {
        Scalar { bits: 0 }
    }

    /// The number one, 2^52 * 2^1022 units.
    pub fn one() -> (s: Scalar)
        ensures
            s.bits == ONE_BITS,
            !s.spec_is_nan(),
            !s.negative(),
            s.exponent() == 1023,
            s.fraction() == 0,
    {
        Scalar { bits: ONE_BITS }
    }

    #[verifier::when_used_as_spec(spec_is_nan)]
    pub fn is_nan(self) -> (r: bool)
        ensures
            r == self.spec_is_nan(),
    {
        let exponent: u64 = (self.bits / FRACTION_SPAN) % EXPONENT_SPAN;
        let fraction: u64 = self.bits % FRACTION_SPAN;
        exponent == EXPONENT_TOP && fraction != 0
    }

    /// `self < other` as binary64 decides it.
    #[verifier::when_used_as_spec(spec_lt)]
    pub fn lt(self, other: Scalar) -> (r: bool)
        ensures
            r == self.spec_lt(other),
    {
        if self.is_nan() || other.is_nan() {
            return false;
        }
        let a: u64 = self.bits % SIGN_BIT;
        let b: u64 = other.bits % SIGN_BIT;
        proof {
            lemma_pattern_orders_magnitude(self, other);
            lemma_pattern_orders_magnitude(other, self);
            lemma_zero_magnitude(self);
            lemma_zero_magnitude(other);
        }
        if self.bits >= SIGN_BIT {
            if other.bits >= SIGN_BIT {
                b < a
            } else {
                a != 0 || b != 0
            }
        } else {
            if other.bits >= SIGN_BIT {
                false
            } else {
                a < b
            }
        }
    }

    /// `self > other` as binary64 decides it.
    #[verifier::when_used_as_spec(spec_gt)]
    pub fn gt(self, other: Scalar) -> (r: bool)
        ensures
            r == self.spec_gt(other),
    {
        other.lt(self)
    }

    /// The number as an `i32`, cut off towards zero.
    #[verifier::when_used_as_spec(spec_to_i32)]
    pub fn to_i32(self) -> (n: i32)
        ensures
            n == self.spec_to_i32(),
    {
        if self.is_nan() {
            return 0;
        }
        let exponent: u64 = (self.bits / FRACTION_SPAN) % EXPONENT_SPAN;
        let fraction: u64 = self.bits % FRACTION_SPAN;
        let negative: bool = self.bits >= SIGN_BIT;
        if exponent < EXPONENT_OF_ONE {
            proof {
                lemma_whole_below_one(self);
            }
            return 0;
        }
        if exponent >= EXPONENT_OF_ONE + 31 {
            proof {
                lemma_whole_beyond_i32(self);
            }
            return if negative {
                i32::MIN
            } else {
                i32::MAX
            };
        }
        let shift: u64 = EXPONENT_OF_ONE + 52 - exponent;
        let significand: u64 = FRACTION_SPAN + fraction;
        let whole: u64 = significand >> shift;
        proof {
            lemma_whole_is_a_shift(self);
            lemma_u64_shr_is_div(significand, shift);
            assert(whole < 0x8000_0000) by (bit_vector)
                requires
                    whole == significand >> shift,
                    significand < 0x20_0000_0000_0000,
                    22 <= shift <= 52,
            ;
        }
        if negative {
            let wide: i64 = whole as i64;
            (-wide) as i32
        } else {
            whole as i32
        }
    }
}

/// The bits without the sign are the exponent field times 2^52 plus the
/// fraction field.
pub proof fn lemma_pattern_fields(x: Scalar)
    ensures
        x.pattern() == x.exponent() * FRACTION_SPAN + x.fraction(),
        x.exponent() < EXPONENT_SPAN,
        x.fraction() < FRACTION_SPAN,
{
}

/// Only the zero pattern has magnitude zero.
pub proof fn lemma_zero_magnitude(x: Scalar)
    ensures
        x.magnitude() == 0 <==> x.pattern() == 0,
{
    lemma_pattern_fields(x);
    if x.exponent() != 0 {
        let p = pow2((x.exponent() - 1) as nat);
        lemma_pow2_pos((x.exponent() - 1) as nat);
        lemma_mul_strict_inequality(0, FRACTION_SPAN + x.fraction(), p as int);
        assert(0 * (p as int) == 0);
        assert(x.pattern() >= FRACTION_SPAN) by (nonlinear_arith)
            requires
                x.pattern() == x.exponent() * FRACTION_SPAN + x.fraction(),
                x.exponent() >= 1,
        ;
    }
}

/// Two patterns stand for the same number only where they are the same
/// bits, or the two zeros.
pub proof fn lemma_value_names_the_number(x: Scalar, y: Scalar)
    ensures
        x.value() == y.value() <==> x.bits == y.bits || (x.pattern() == 0 && y.pattern() == 0),
{
    lemma_pattern_orders_magnitude(x, y);
    lemma_pattern_orders_magnitude(y, x);
    lemma_zero_magnitude(x);
    lemma_zero_magnitude(y);
}

/// `<` is a strict order: nothing is below itself, no two numbers are below
/// each other, and below goes through. Of two numbers that are not the same
/// one is below the other.
pub proof fn lemma_lt_is_a_strict_order(x: Scalar, y: Scalar, z: Scalar)
    ensures
        !x.spec_lt(x),
        x.spec_lt(y) ==> !y.spec_lt(x),
        x.spec_lt(y) && y.spec_lt(z) ==> x.spec_lt(z),
        !x.spec_is_nan() && !y.spec_is_nan() ==> x.spec_lt(y) || y.spec_lt(x) || x.value()
            == y.value(),
{
}

/// A number with an exponent field below that of one is below one: its
/// whole part is zero.
proof fn lemma_whole_below_one(x: Scalar)
    requires
        x.exponent() < EXPONENT_OF_ONE,
    ensures
        x.whole() == 0,
{
    let e = x.exponent();
    let span = FRACTION_SPAN as int;
    lemma_pattern_fields(x);
    lemma2_to64();
    lemma2_to64_rest();
    assert(pow2(52) == span);
    lemma_pow2_adds(52, e);
    assert(pow2(52 + e) == span * pow2(e)) by (nonlinear_arith)
        requires
            pow2(52 + e) == pow2(52) * pow2(e),
            pow2(52) == span,
    ;
    if 52 + e < 1074 {
        lemma_pow2_strictly_increases(52 + e, 1074);
    }
    assert(pow2(52 + e) <= pow2(1074));
    if e == 0 {
        assert(pow2(0) == 1);
        assert(x.magnitude() < span);
    } else {
        lemma_binade(x);
    }
    assert(x.magnitude() < pow2(1074));
    lemma_basic_div(x.magnitude() as int, pow2(1074) as int);
}

/// A number whose exponent field is 31 or more above that of one is at
/// least 2^31 in absolute value.
proof fn lemma_whole_beyond_i32(x: Scalar)
    requires
        x.exponent() >= EXPONENT_OF_ONE + 31,
    ensures
        x.whole() >= 0x8000_0000,
{
    let e = x.exponent();
    let below = (e - 1) as nat;
    let span = FRACTION_SPAN as int;
    let unit = pow2(1074) as int;
    lemma_binade(x);
    lemma2_to64();
    lemma2_to64_rest();
    assert(pow2(52) == span);
    assert(pow2(31) == 0x8000_0000);
    lemma_pow2_adds(52, below);
    assert(pow2(52 + below) == span * pow2(below)) by (nonlinear_arith)
        requires
            pow2(52 + below) == pow2(52) * pow2(below),
            pow2(52) == span,
    ;
    lemma_pow2_adds(31, 1074);
    assert(pow2(1105) == 0x8000_0000 * unit) by (nonlinear_arith)
        requires
            pow2(1105) == pow2(31) * pow2(1074),
            pow2(31) == 0x8000_0000,
            unit == pow2(1074),
    ;
    if 1105 < 52 + below {
        lemma_pow2_strictly_increases(1105, 52 + below);
    }
    assert(x.magnitude() >= 0x8000_0000 * unit);
    lemma_pow2_pos(1074);
    lemma_div_is_ordered(0x8000_0000 * unit, x.magnitude() as int, unit);
    lemma_div_multiples_vanish(0x8000_0000, unit);
    assert(0x8000_0000 * unit == unit * 0x8000_0000) by (nonlinear_arith);
}

/// Between one and 2^31 the whole part is the significand without its
/// lowest bits, as many as the exponent leaves behind the point.
proof fn lemma_whole_is_a_shift(x: Scalar)
    requires
        EXPONENT_OF_ONE <= x.exponent() < EXPONENT_OF_ONE + 31,
    ensures
        x.whole() == (FRACTION_SPAN + x.fraction()) / (pow2(
            (EXPONENT_OF_ONE + 52 - x.exponent()) as nat,
        ) as int),
{
    let e = x.exponent();
    let kept = pow2((e - 1) as nat) as int;
    let dropped = pow2((1075 - e) as nat) as int;
    let significand = (FRACTION_SPAN + x.fraction()) as int;
    lemma_pow2_pos((e - 1) as nat);
    lemma_pow2_pos((1075 - e) as nat);
    lemma_pow2_adds((e - 1) as nat, (1075 - e) as nat);
    assert(pow2(1074) == kept * dropped);
    lemma_div_multiples_vanish_quotient(kept, significand, dropped);
    assert(x.magnitude() == kept * significand) by (nonlinear_arith)
        requires
            x.magnitude() == significand * kept,
    ;
}

/// A number in the binade of exponent field `e >= 1` lies between
/// 2^52 * 2^(e-1) and 2^52 * 2^e, the upper end left out.
proof fn lemma_binade(x: Scalar)
    requires
        x.exponent() >= 1,
    ensures
        FRACTION_SPAN * pow2((x.exponent() - 1) as nat) <= x.magnitude(),
        x.magnitude() < FRACTION_SPAN * pow2(x.exponent()),
{
    let e = x.exponent();
    let p = pow2((e - 1) as nat) as int;
    let f = x.fraction() as int;
    let span = FRACTION_SPAN as int;
    lemma_pow2_pos((e - 1) as nat);
    lemma_pow2_unfold(e);
    assert(pow2(e) == 2 * p);
    lemma_mul_inequality(span, span + f, p);
    lemma_mul_strict_inequality(span + f, 2 * span, p);
    assert((2 * span) * p == span * (2 * p)) by (nonlinear_arith);
}

/// Among the bits without the sign, the order of the patterns is the order
/// of the magnitudes.
pub proof fn lemma_pattern_orders_magnitude(x: Scalar, y: Scalar)
    ensures
        x.pattern() < y.pattern() <==> x.magnitude() < y.magnitude(),
        x.pattern() == y.pattern() ==> x.magnitude() == y.magnitude(),
{
    lemma_pattern_fields(x);
    lemma_pattern_fields(y);
    if x.pattern() < y.pattern() {
        lemma_pattern_rises(x, y);
    } else if y.pattern() < x.pattern() {
        lemma_pattern_rises(y, x);
    } else {
        assert(x.exponent() == y.exponent() && x.fraction() == y.fraction());
    }
}

/// A higher pattern has a higher magnitude.
proof fn lemma_pattern_rises(x: Scalar, y: Scalar)
    requires
        x.pattern() < y.pattern(),
    ensures
        x.magnitude() < y.magnitude(),
{
    lemma_pattern_fields(x);
    lemma_pattern_fields(y);
    let ex = x.exponent();
    let ey = y.exponent();
    let span = FRACTION_SPAN as int;
    assert(ex <= ey) by (nonlinear_arith)
        requires
            x.pattern() == ex * span + x.fraction(),
            y.pattern() == ey * span + y.fraction(),
            x.pattern() < y.pattern(),
            y.fraction() < span,
    ;
    if ex == ey {
        assert(x.fraction() < y.fraction()) by (nonlinear_arith)
            requires
                x.pattern() == ex * span + x.fraction(),
                y.pattern() == ey * span + y.fraction(),
                x.pattern() < y.pattern(),
                ex == ey,
        ;
        if ex != 0 {
            let p = pow2((ex - 1) as nat) as int;
            lemma_pow2_pos((ex - 1) as nat);
            lemma_mul_strict_inequality(span + x.fraction(), span + y.fraction(), p);
        }
    } else {
        lemma_binade(y);
        lemma_pow2_pos((ey - 1) as nat);
        if ex == 0 {
            let p = pow2((ey - 1) as nat) as int;
            lemma_mul_inequality(1, p, span);
            assert(span * p == p * span) by (nonlinear_arith);
        } else {
            lemma_binade(x);
            if ex < ey - 1 {
                lemma_pow2_strictly_increases(ex, (ey - 1) as nat);
            }
            lemma_mul_inequality(pow2(ex) as int, pow2((ey - 1) as nat) as int, span);
            assert(span * pow2(ex) == pow2(ex) * span) by (nonlinear_arith);
            assert(span * pow2((ey - 1) as nat) == pow2((ey - 1) as nat) * span)
                by (nonlinear_arith);
        }
    }
}

} // verus!
