//! Double precision numbers, held by their bit patterns.
//!
//! The geometry of a scene is worked out in binary floating point by the
//! caller. What it hands over, a distance or an intensity, arrives here as
//! the 64 bits of an IEEE 754 double: one sign bit, eleven exponent bits and
//! fifty-two fraction bits. This module reads such a pattern as the exact
//! number it stands for, compares two of them, and multiplies one by a color
//! channel as double precision arithmetic does, all in integers.

use vstd::arithmetic::div_mod::{
    lemma_basic_div,
    lemma_div_by_multiple,
    lemma_div_denominator,
    lemma_div_multiples_vanish_quotient,
    lemma_fundamental_div_mod,
    lemma_truncate_middle,
};
use vstd::arithmetic::power2::{
    lemma2_to64,
    lemma2_to64_rest,
    lemma_pow2_adds,
    lemma_pow2_pos,
    lemma_pow2_strictly_increases,
    lemma_pow2_unfold,
    pow2,
};
use vstd::prelude::*;

verus! {

/// The weight of the lowest exponent bit in a pattern: two to the 52nd.
pub const FRACTION_UNIT: u64 = 0x10_0000_0000_0000;

/// The weight of the sign bit in a pattern: two to the 63rd.
pub const SIGN_UNIT: u64 = 0x8000_0000_0000_0000;

/// Two to the 53rd: a double keeps 53 binary digits of a number, so every
/// whole number below this one is a double.
pub const SIGNIFICAND_LIMIT: u64 = 0x20_0000_0000_0000;

/// The exponent field of the infinities and of the patterns that are not
/// numbers.
pub const EXPONENT_MAX: u64 = 0x7ff;

/// Every finite double is a whole number of units, a unit being two to the
/// minus `UNIT_EXPONENT`.
pub const UNIT_EXPONENT: u64 = 1074;

/// The exponent field of a pattern.
pub open spec fn exponent_of(bits: u64) -> int {
    (bits / FRACTION_UNIT) as int % 0x800
}

/// The fraction field of a pattern.
pub open spec fn fraction_of(bits: u64) -> int {
    bits as int % FRACTION_UNIT as int
}

/// Whether the sign bit of a pattern is set.
pub open spec fn negative(bits: u64) -> bool {
    bits >= SIGN_UNIT
}

/// Whether a pattern stands for no number at all.
pub open spec fn is_nan(bits: u64) -> bool {
    exponent_of(bits) == EXPONENT_MAX && fraction_of(bits) != 0
}

/// The absolute value of the double with the given fields, in units. With a
/// zero exponent field the fraction counts as it is; with any other, the
/// fraction gains a leading one and is doubled once for each step of the
/// exponent above one. An infinity is given the magnitude that its fields
/// would have as a number, which lies above every finite one.
pub open spec fn magnitude_of(exponent: int, fraction: int) -> int {
    if exponent <= 0 {
        fraction
    } else {
        (FRACTION_UNIT + fraction) * pow2((exponent - 1) as nat)
    }
}

/// The number that a pattern stands for, in units.
pub open spec fn units_of(bits: u64) -> int {
    let magnitude = magnitude_of(exponent_of(bits), fraction_of(bits));
    if negative(bits) {
        -magnitude
    } else {
        magnitude
    }
}

/// What is left of `value` between `0` and `255`.
pub open spec fn clamp_channel(value: int) -> int {
    if value < 0 {
        0
    } else if value > 255 {
        255
    } else {
        value
    }
}

/// How many of its low binary digits a whole number loses when it is held
/// as a double: none below `SIGNIFICAND_LIMIT`, and one more each time the
/// number doubles from there.
pub open spec fn excess_digits(n: nat) -> nat
    decreases n,
{
    if n < SIGNIFICAND_LIMIT {
        0
    } else {
        1 + excess_digits(n / 2)
    }
}

/// `n` rounded to a whole multiple of `unit`: to the nearest one, and of two
/// that are equally near to the even one.
pub open spec fn round_to_multiple(n: nat, unit: nat) -> nat {
    let below = n / unit;
    let rest = n % unit;
    if 2 * rest < unit || (2 * rest == unit && below % 2 == 0) {
        below * unit
    } else {
        (below + 1) * unit
    }
}

/// A whole number as double precision arithmetic keeps it: rounded to its
/// 53 leading binary digits.
pub open spec fn rounded(n: nat) -> nat {
    round_to_multiple(n, pow2(excess_digits(n)))
}

/// A color channel multiplied by a number of so many units in double
/// precision arithmetic, rounded down to a whole number and held to
/// `0..=255`. The product of the channel and the units is exact; double
/// precision keeps it `rounded`; a unit being two to the minus
/// `UNIT_EXPONENT`, the division brings the product back to ones and rounds
/// it down. What a negative number gives is negative or zero, and is held
/// to `0`.
pub open spec fn scale_channel(channel: int, units: int) -> int {
    if units < 0 {
        0
    } else {
        clamp_channel(
            rounded((channel * units) as nat) as int / pow2(UNIT_EXPONENT as nat) as int,
        )
    }
}

/// What `scale_channel` comes to for the number that `bits` stands for,
/// read off the fields of the pattern. A negative number, a zero channel or
/// a number below two to the minus 63rd gives `0`; a number from two
/// upwards gives `255`; between them the product of the channel and the
/// fraction with its leading one is rounded as a double and halved as often
/// as the exponent asks.
pub open spec fn scale_channel_by_fields(channel: int, bits: u64) -> int {
    let exponent = exponent_of(bits);
    if negative(bits) || channel == 0 || exponent + 64 <= 1075 {
        0
    } else if exponent >= 1075 {
        255
    } else {
        clamp_channel(
            rounded((channel * (FRACTION_UNIT + fraction_of(bits))) as nat) as int / pow2(
                (1075 - exponent) as nat,
            ) as int,
        )
    }
}

/// Whether `n` has `e` binary digits more than the 53 that a double keeps,
/// or, for `e == 0`, exactly 53.
pub open spec fn in_binade(n: nat, e: nat) -> bool {
    FRACTION_UNIT * pow2(e) <= n < SIGNIFICAND_LIMIT * pow2(e)
}

/// A number with `e` digits too many loses `e` digits.
pub proof fn lemma_excess_of_binade(n: nat, e: nat)
    requires
        in_binade(n, e),
    ensures
        excess_digits(n) == e,
    decreases e,
{
    lemma2_to64();
    if e == 0 {
        assert(pow2(0) == 1);
    } else {
        lemma_pow2_unfold(e);
        lemma_pow2_pos((e - 1) as nat);
        let half = pow2((e - 1) as nat);
        assert(FRACTION_UNIT * (2 * half) == 2 * (FRACTION_UNIT * half)) by (nonlinear_arith);
        assert(SIGNIFICAND_LIMIT * (2 * half) == 2 * (SIGNIFICAND_LIMIT * half))
            by (nonlinear_arith);
        assert(SIGNIFICAND_LIMIT <= FRACTION_UNIT * (2 * half)) by (nonlinear_arith)
            requires
                1 <= half,
        ;
        lemma_excess_of_binade(n / 2, (e - 1) as nat);
    }
}

/// A number of 53 digits or more has as many digits too many as it loses.
pub proof fn lemma_binade_of_excess(n: nat)
    requires
        FRACTION_UNIT <= n,
    ensures
        in_binade(n, excess_digits(n)),
    decreases n,
{
    lemma2_to64();
    if n < SIGNIFICAND_LIMIT {
        assert(pow2(0) == 1);
    } else {
        let e = excess_digits(n / 2);
        lemma_binade_of_excess(n / 2);
        lemma_pow2_unfold(e + 1);
        let half = pow2(e);
        assert(FRACTION_UNIT * (2 * half) == 2 * (FRACTION_UNIT * half)) by (nonlinear_arith);
        assert(SIGNIFICAND_LIMIT * (2 * half) == 2 * (SIGNIFICAND_LIMIT * half))
            by (nonlinear_arith);
    }
}

/// Doubling a number of 53 digits or more doubles what it is rounded to:
/// the same digits are kept. What such a number is rounded to has 53 digits
/// or more itself, and is at most twice the number.
pub proof fn lemma_rounded_scales(p: nat, k: nat)
    requires
        FRACTION_UNIT <= p,
    ensures
        rounded(p * pow2(k)) == rounded(p) * pow2(k),
        FRACTION_UNIT <= rounded(p) <= 2 * p,
{
    let e = excess_digits(p);
    let u = pow2(e) as int;
    let a = pow2(k) as int;
    let n = p as int;
    lemma_binade_of_excess(p);
    lemma_pow2_pos(e);
    lemma_pow2_pos(k);
    lemma_pow2_adds(e, k);
    assert(FRACTION_UNIT * (u * a) <= n * a < SIGNIFICAND_LIMIT * (u * a)) by (nonlinear_arith)
        requires
            FRACTION_UNIT * u <= n < SIGNIFICAND_LIMIT * u,
            0 < a,
    ;
    lemma_excess_of_binade((n * a) as nat, e + k);
    let below = n / u;
    let rest = n % u;
    lemma_fundamental_div_mod(n, u);
    lemma_div_multiples_vanish_quotient(a, n, u);
    lemma_truncate_middle(n, a, u);
    assert(a * n == n * a && a * u == u * a) by (nonlinear_arith);
    assert((n * a) / (u * a) == below);
    assert((n * a) % (u * a) == a * rest);
    assert(2 * (a * rest) < u * a <==> 2 * rest < u) by (nonlinear_arith)
        requires
            0 < a,
    ;
    assert(2 * (a * rest) == u * a <==> 2 * rest == u) by (nonlinear_arith)
        requires
            0 < a,
    ;
    assert(below * (u * a) == (below * u) * a && (below + 1) * (u * a) == ((below + 1) * u)
        * a) by (nonlinear_arith);
    assert(FRACTION_UNIT <= below) by (nonlinear_arith)
        requires
            n == u * below + rest,
            0 <= rest < u,
            FRACTION_UNIT * u <= n,
    ;
    assert(FRACTION_UNIT <= below * u && (below + 1) * u <= 2 * n) by (nonlinear_arith)
        requires
            n == u * below + rest,
            0 <= rest < u,
            FRACTION_UNIT <= below,
            1 <= u,
    ;
    assert(below * u <= (below + 1) * u) by (nonlinear_arith)
        requires
            0 <= u,
    ;
    assert(rounded(p) == below * u || rounded(p) == (below + 1) * u);
}

/// The magnitude grows with the fields, the exponent counting first.
pub proof fn lemma_magnitude_increases(e1: int, f1: int, e2: int, f2: int)
    requires
        0 <= e1,
        0 <= e2,
        0 <= f1 < FRACTION_UNIT,
        0 <= f2 < FRACTION_UNIT,
        e1 < e2 || (e1 == e2 && f1 < f2),
    ensures
        0 <= magnitude_of(e1, f1) < magnitude_of(e2, f2),
{
    let unit = FRACTION_UNIT as int;
    if e1 == e2 {
        if e1 != 0 {
            let p = pow2((e1 - 1) as nat) as int;
            lemma_pow2_pos((e1 - 1) as nat);
            assert(0 <= (unit + f1) * p < (unit + f2) * p) by (nonlinear_arith)
                requires
                    0 <= f1 < f2,
                    0 < p,
                    0 < unit,
            ;
        }
    } else {
        let q = pow2((e2 - 1) as nat) as int;
        lemma_pow2_pos((e2 - 1) as nat);
        assert(unit * q <= (unit + f2) * q && unit <= unit * q) by (nonlinear_arith)
            requires
                0 <= f2,
                0 < q,
                0 < unit,
        ;
        if e1 != 0 {
            let p = pow2((e1 - 1) as nat) as int;
            lemma_pow2_pos((e1 - 1) as nat);
            lemma_pow2_unfold(e1 as nat);
            if e1 < e2 - 1 {
                lemma_pow2_strictly_increases(e1 as nat, (e2 - 1) as nat);
            }
            assert(0 <= (unit + f1) * p < unit * (2 * p)) by (nonlinear_arith)
                requires
                    0 <= f1 < unit,
                    0 < p,
            ;
            assert(unit * (2 * p) <= unit * q) by (nonlinear_arith)
                requires
                    2 * p <= q,
                    0 < unit,
            ;
        }
    }
}

/// The fields of a pattern, and how they make up the pattern below its sign
/// bit.
pub proof fn lemma_fields(bits: u64)
    ensures
        0 <= exponent_of(bits) <= EXPONENT_MAX,
        0 <= fraction_of(bits) < FRACTION_UNIT,
        bits % SIGN_UNIT == exponent_of(bits) * FRACTION_UNIT + fraction_of(bits),
{
}

/// Below the sign bit, two patterns are in the order of their magnitudes.
pub proof fn lemma_magnitude_order(a: u64, b: u64)
    ensures
        a % SIGN_UNIT < b % SIGN_UNIT <==> magnitude_of(exponent_of(a), fraction_of(a))
            < magnitude_of(exponent_of(b), fraction_of(b)),
        a % SIGN_UNIT == 0 <==> magnitude_of(exponent_of(a), fraction_of(a)) == 0,
        0 <= magnitude_of(exponent_of(a), fraction_of(a)),
{
    lemma_fields(a);
    lemma_fields(b);
    let (ea, fa) = (exponent_of(a), fraction_of(a));
    let (eb, fb) = (exponent_of(b), fraction_of(b));
    if ea < eb || (ea == eb && fa < fb) {
        lemma_magnitude_increases(ea, fa, eb, fb);
    } else if eb < ea || (eb == ea && fb < fa) {
        lemma_magnitude_increases(eb, fb, ea, fa);
    }
    if 0 < ea || 0 < fa {
        lemma_magnitude_increases(0, 0, ea, fa);
    }
}

/// Scaling a channel can be read off the fields of the scalar.
pub proof fn lemma_scale_channel(channel: int, bits: u64)
    requires
        0 <= channel <= 255,
    ensures
        scale_channel(channel, units_of(bits)) == scale_channel_by_fields(channel, bits),
        0 <= scale_channel(channel, units_of(bits)) <= 255,
{
    lemma_fields(bits);
    lemma_magnitude_order(bits, bits);
    lemma2_to64();
    let exponent = exponent_of(bits);
    let magnitude = magnitude_of(exponent, fraction_of(bits));
    let unit = pow2(UNIT_EXPONENT as nat) as int;
    lemma_pow2_pos(UNIT_EXPONENT as nat);
    lemma_pow2_strictly_increases(63, UNIT_EXPONENT as nat);
    lemma2_to64_rest();
    if channel == 0 || magnitude == 0 {
        assert(channel * magnitude == 0) by (nonlinear_arith)
            requires
                channel == 0 || magnitude == 0,
        ;
        assert(pow2(0) == 1);
        assert(rounded(0) == 0);
        lemma_basic_div(0, unit);
    } else if !negative(bits) {
        let significand = if exponent == 0 {
            fraction_of(bits)
        } else {
            FRACTION_UNIT + fraction_of(bits)
        };
        let doublings = if exponent == 0 {
            0
        } else {
            exponent - 1
        };
        let product = channel * significand;
        assert(magnitude == significand * pow2(doublings as nat)) by {
            if exponent == 0 {
                assert(pow2(0) == 1);
                assert(significand * 1 == significand);
            }
        }
        assert(0 <= product <= 255 * (2 * FRACTION_UNIT) && (exponent != 0 ==> FRACTION_UNIT
            <= product)) by (nonlinear_arith)
            requires
                product == channel * significand,
                1 <= channel <= 255,
                0 <= significand < 2 * FRACTION_UNIT,
                exponent != 0 ==> FRACTION_UNIT <= significand,
        ;
        assert(channel * units_of(bits) == product * pow2(doublings as nat)) by (nonlinear_arith)
            requires
                units_of(bits) == significand * pow2(doublings as nat),
                product == channel * significand,
        ;
        if exponent == 0 {
            // below the smallest number with a leading one: the product is
            // far from reaching one
            assert(pow2(0) == 1);
            assert(product * 1 == product);
            lemma_rounded_below(product as nat);
            lemma_basic_div(rounded(product as nat) as int, unit);
        } else {
            lemma_rounded_scales(product as nat, doublings as nat);
            let kept_digits = rounded(product as nat) as int;
            if doublings >= UNIT_EXPONENT {
                let extra = pow2((doublings - UNIT_EXPONENT) as nat) as int;
                lemma_pow2_adds((doublings - UNIT_EXPONENT) as nat, UNIT_EXPONENT as nat);
                lemma_pow2_pos((doublings - UNIT_EXPONENT) as nat);
                assert(kept_digits * (extra * unit) == (kept_digits * extra) * unit)
                    by (nonlinear_arith);
                lemma_div_by_multiple(kept_digits * extra, unit);
                assert(kept_digits * extra >= 256) by (nonlinear_arith)
                    requires
                        kept_digits >= 256,
                        extra >= 1,
                ;
            } else {
                let halvings = UNIT_EXPONENT - doublings;
                let kept = pow2(doublings as nat) as int;
                let cut = pow2(halvings as nat) as int;
                lemma_pow2_adds(doublings as nat, halvings as nat);
                lemma_pow2_pos(doublings as nat);
                lemma_pow2_pos(halvings as nat);
                assert(unit == kept * cut);
                lemma_div_denominator(kept_digits * kept, kept, cut);
                lemma_div_by_multiple(kept_digits, kept);
                assert((kept_digits * kept) / unit == kept_digits / cut);
                if halvings >= 64 {
                    if halvings > 63 {
                        lemma_pow2_strictly_increases(63, halvings as nat);
                    }
                    lemma_basic_div(kept_digits, cut);
                }
            }
        }
    }
}

/// What a number is rounded to is at most twice the number.
pub proof fn lemma_rounded_below(n: nat)
    ensures
        rounded(n) <= 2 * n,
{
    if n < FRACTION_UNIT {
        lemma2_to64();
        assert(pow2(0) == 1);
        assert(excess_digits(n) == 0);
        assert(n as int / 1 == n && n as int % 1 == 0);
    } else {
        lemma_rounded_scales(n, 0);
    }
}

/// A double precision number that is not a NaN: a finite number or an
/// infinity, either of them with a sign.
#[derive(Clone, Copy, Debug)]
pub struct Double {
    bits: u64,
}

impl Double {
    /// The pattern of this number.
    pub closed spec fn bits(&self) -> u64 {
        self.bits
    }

    /// This number, in units: an integer. Both zeros have the value `0`.
    pub open spec fn units(&self) -> int {
        units_of(self.bits())
    }

    #[verifier::type_invariant]
    spec fn is_number(self) -> bool {
        !is_nan(self.bits)
    }

    /// Reads a pattern. A NaN is turned away: it would spoil every
    /// comparison made with it.
    pub fn from_bits(bits: u64) -> (number: Option<Double>)
        ensures
            number is None <==> is_nan(bits),
            number matches Some(d) ==> d.bits() == bits,
    {
        let exponent: u64 = (bits / FRACTION_UNIT) % 0x800;
        let fraction: u64 = bits % FRACTION_UNIT;
        if exponent == EXPONENT_MAX && fraction != 0 {
            None
        } else {
            Some(Double { bits })
        }
    }

    /// The pattern of this number.
    pub fn to_bits(&self) -> (bits: u64)
        ensures
            bits == self.bits(),
            !is_nan(bits),
    {
        proof {
            use_type_invariant(self);
        }
        self.bits
    }

    /// The number zero.
    pub fn zero() -> (number: Double)
        ensures
            number.bits() == 0,
            number.units() == 0,
    {
        Double { bits: 0 }
    }

    /// Whether this number is less than `other`.
    pub fn lt(&self, other: &Double) -> (less: bool)
        ensures
            less == (self.units() < other.units()),
    {
        proof {
            lemma_magnitude_order(self.bits, other.bits);
            lemma_magnitude_order(other.bits, self.bits);
        }
        let this: u64 = self.bits % SIGN_UNIT;
        let that: u64 = other.bits % SIGN_UNIT;
        if self.bits >= SIGN_UNIT {
            if other.bits >= SIGN_UNIT {
                that < this
            } else {
                this != 0 || that != 0
            }
        } else {
            if other.bits >= SIGN_UNIT {
                false
            } else {
                this < that
            }
        }
    }

    /// Multiplies a color channel by this number as double precision
    /// arithmetic does, rounds the product down to a whole number and holds
    /// it to `0..=255`.
    pub fn scale_channel(&self, channel: u8) -> (scaled: u8)
        ensures
            scaled == scale_channel(channel as int, self.units()),
    {
        proof {
            lemma_scale_channel(channel as int, self.bits);
            lemma_fields(self.bits);
        }
        let exponent: u64 = (self.bits / FRACTION_UNIT) % 0x800;
        let fraction: u64 = self.bits % FRACTION_UNIT;
        if self.bits >= SIGN_UNIT || channel == 0 || exponent + 64 <= 1075 {
            0
        } else if exponent >= 1075 {
            255
        } else {
            assert(FRACTION_UNIT <= channel * (FRACTION_UNIT + fraction) <= 255 * (2
                * FRACTION_UNIT)) by (nonlinear_arith)
                requires
                    1 <= channel <= 255,
                    fraction < FRACTION_UNIT,
            ;
            let product: u64 = channel as u64 * (FRACTION_UNIT + fraction);
            let kept: u64 = round_to_double(product);
            let halvings: u64 = 1075 - exponent;
            proof {
                vstd::bits::lemma_u64_shr_is_div(kept, halvings);
            }
            let quotient: u64 = kept >> halvings;
            if quotient > 255 {
                255
            } else {
                quotient as u8
            }
        }
    }
}

/// Rounds a whole number to its 53 leading binary digits.
fn round_to_double(n: u64) -> (kept: u64)
    requires
        n <= 255 * SIGNIFICAND_LIMIT,
    ensures
        kept == rounded(n as nat),
{
    let mut top: u64 = n;
    let mut unit: u64 = 1;
    let ghost mut excess: nat = 0;
    proof {
        lemma2_to64();
        assert(pow2(0) == 1);
    }
    while top >= SIGNIFICAND_LIMIT
        invariant
            unit == pow2(excess),
            1 <= unit <= 256,
            top == n / unit,
            n <= 255 * SIGNIFICAND_LIMIT,
            excess_digits(n as nat) == excess + excess_digits(top as nat),
        decreases top,
    {
        proof {
            lemma_fundamental_div_mod(n as int, unit as int);
            assert(unit <= 255) by (nonlinear_arith)
                requires
                    n == unit * (n / unit) + n % unit,
                    0 <= n % unit,
                    n / unit >= SIGNIFICAND_LIMIT,
                    n <= 255 * SIGNIFICAND_LIMIT,
                    1 <= unit,
                    SIGNIFICAND_LIMIT == 0x20_0000_0000_0000,
            ;
            lemma2_to64();
            if excess > 8 {
                lemma_pow2_strictly_increases(8, excess);
            }
            if excess < 7 {
                lemma_pow2_strictly_increases(excess + 1, 8);
            }
            lemma_div_denominator(n as int, unit as int, 2);
            lemma_pow2_unfold(excess + 1);
        }
        top = top / 2;
        unit = unit * 2;
        proof {
            excess = excess + 1;
        }
    }
    let rest: u64 = n % unit;
    proof {
        lemma_fundamental_div_mod(n as int, unit as int);
    }
    if 2 * rest < unit || (2 * rest == unit && top % 2 == 0) {
        assert(top * unit <= n) by (nonlinear_arith)
            requires
                n == unit * top + rest,
                0 <= rest,
        ;
        top * unit
    } else {
        assert((top + 1) * unit <= 2 * 255 * SIGNIFICAND_LIMIT) by (nonlinear_arith)
            requires
                n == unit * top + rest,
                0 <= rest < unit,
                unit <= 256,
                top < SIGNIFICAND_LIMIT,
                SIGNIFICAND_LIMIT == 0x20_0000_0000_0000,
        ;
        (top + 1) * unit
    }
}

} // verus!
