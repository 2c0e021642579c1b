//! Binary64 numbers as plain values.
//!
//! A [`Scalar`] is the 64-bit pattern of an IEEE 754 binary64 number. The library compares,
//! orders and prints such numbers exactly, and adds, multiplies, divides and rounds them as the
//! standard says: to the nearest number, ties to even.

use vstd::prelude::*;
use crate::digits;

verus! {

/// A binary64 number, kept as its bit pattern.
///
/// `==` compares bit patterns; [`Scalar::same_value`] compares numbers.
#[derive(Debug, Clone, Copy, PartialEq, Eq, Hash, Structural)]
pub struct Scalar {
    pub bits: u64,
}

/// The bit pattern of `1.0`.
pub const ONE_BITS: u64 = 0x3ff0_0000_0000_0000;

/// `2^52`.
pub const FRACTION_RANGE: u64 = 0x0010_0000_0000_0000;

/// `2^63`.
pub const SIGN_BIT: u64 = 0x8000_0000_0000_0000;

/// The quotient `a / b` rounded to the nearest integer, ties to even.
pub open spec fn half_even(a: nat, b: nat) -> nat {
    let q = a / b;
    let r = a % b;
    if 2 * r > b || (2 * r == b && q % 2 == 1) {
        q + 1
    } else {
        q
    }
}

impl Scalar {
    /// Whether the sign bit is set.
    pub open spec fn negative(self) -> bool {
        self.bits >= SIGN_BIT
    }

    /// The pattern without its sign bit.
    pub open spec fn magnitude(self) -> int {
        self.bits as int % SIGN_BIT as int
    }

    /// The biased exponent field.
    pub open spec fn exponent(self) -> int {
        self.magnitude() / FRACTION_RANGE as int
    }

    /// The fraction field.
    pub open spec fn fraction(self) -> int {
        self.magnitude() % FRACTION_RANGE as int
    }

    pub open spec fn nan(self) -> bool {
        self.exponent() == 2047 && self.fraction() != 0
    }

    pub open spec fn finite(self) -> bool {
        self.exponent() != 2047
    }

    /// The integer significand.
    pub open spec fn significand(self) -> nat {
        (if self.exponent() == 0 {
            self.fraction()
        } else {
            FRACTION_RANGE + self.fraction()
        }) as nat
    }

    /// The power of two that scales the significand, counted from `2^-1074`.
    pub open spec fn scale(self) -> nat {
        (if self.exponent() == 0 {
            0
        } else {
            self.exponent() - 1
        }) as nat
    }

    /// The absolute value as a multiple of `2^-1074`, the smallest positive binary64 number.
    ///
    /// Infinity takes the value one step above the largest finite number.
    pub open spec fn abs_units(self) -> nat {
        self.significand() * digits::two_pow(self.scale())
    }

    /// The value as a multiple of `2^-1074`.
    pub open spec fn units(self) -> int {
        if self.negative() {
            -(self.abs_units() as int)
        } else {
            self.abs_units() as int
        }
    }

    /// Numeric `<`: false where either side is not a number.
    pub open spec fn less(self, other: Scalar) -> bool {
        !self.nan() && !other.nan() && self.units() < other.units()
    }

    /// Numeric equality: false where either side is not a number, and both zeros are equal.
    pub open spec fn same(self, other: Scalar) -> bool {
        !self.nan() && !other.nan() && self.units() == other.units()
    }

    /// The smaller number; the other one where one side is not a number, and `self` on a tie.
    pub open spec fn least(self, other: Scalar) -> Scalar {
        if self.nan() || other.less(self) {
            other
        } else {
            self
        }
    }

    /// The larger number; the other one where one side is not a number, and `self` on a tie.
    pub open spec fn greatest(self, other: Scalar) -> Scalar {
        if self.nan() || self.less(other) {
            other
        } else {
            self
        }
    }

    /// `self` held between `lo` and `hi`; not-a-number stays as it is.
    pub open spec fn clamped(self, lo: Scalar, hi: Scalar) -> Scalar {
        if self.less(lo) {
            lo
        } else if hi.less(self) {
            hi
        } else {
            self
        }
    }

    /// The absolute value times `10^d`, rounded to an integer (ties to even).
    pub open spec fn rounded(self, d: nat) -> nat {
        half_even(self.abs_units() * digits::ten_pow(d), digits::two_pow(1074))
    }

    /// The numeral with `d` digits after the decimal point.
    #[verifier::opaque]
    pub open spec fn fixed(self, d: nat) -> Seq<char> {
        if self.nan() {
            "NaN"@
        } else if !self.finite() {
            if self.negative() {
                "-inf"@
            } else {
                "inf"@
            }
        } else {
            let n = self.rounded(d);
            let sign = if self.negative() {
                seq!['-']
            } else {
                Seq::empty()
            };
            if d == 0 {
                sign + digits::decimal(n)
            } else {
                (sign + digits::decimal(n / digits::ten_pow(d))).push('.') + digits::padded(
                    n % digits::ten_pow(d),
                    d,
                )
            }
        }
    }
}

/// Larger patterns are larger numbers.
pub proof fn lemma_magnitude_order(a: Scalar, b: Scalar)
    requires
        a.magnitude() < b.magnitude(),
    ensures
        a.abs_units() < b.abs_units(),
{
    let f = FRACTION_RANGE as int;
    let (ea, eb) = (a.exponent(), b.exponent());
    let (sa, sb) = (a.significand(), b.significand());
    let (ka, kb) = (a.scale(), b.scale());
    digits::lemma_two_pow_positive(ka);
    digits::lemma_two_pow_positive(kb);
    assert(0 <= ea <= eb < 2048);
    if ea == eb {
        assert(sa < sb);
        let p = digits::two_pow(ka);
        assert(sa * p < sb * p) by (nonlinear_arith)
            requires
                sa < sb,
                p >= 1,
        ;
    } else {
        assert(sb >= f);
        let pb = digits::two_pow(kb);
        if ea == 0 {
            assert(digits::two_pow(0) == 1);
            assert(sa * 1 == sa);
            assert(sb * pb >= sb) by (nonlinear_arith)
                requires
                    pb >= 1,
            ;
        } else {
            let pa = digits::two_pow(ka);
            digits::lemma_two_pow_monotone((ka + 1) as nat, kb);
            assert(digits::two_pow((ka + 1) as nat) == 2 * pa);
            assert(sa * pa < sb * pb) by (nonlinear_arith)
                requires
                    sa < 2 * f,
                    sb >= f,
                    pb >= 2 * pa,
                    pa >= 1,
                    f > 0,
            ;
        }
    }
}

/// Only the two zeros have the value zero.
pub proof fn lemma_zero(a: Scalar)
    ensures
        a.abs_units() == 0 <==> a.magnitude() == 0,
{
    digits::lemma_two_pow_positive(a.scale());
    if a.magnitude() == 0 {
        assert(a.significand() == 0);
        assert(0 * digits::two_pow(a.scale()) == 0);
    } else {
        let p = digits::two_pow(a.scale());
        let s = a.significand();
        assert(s > 0);
        assert(s * p > 0) by (nonlinear_arith)
            requires
                s > 0,
                p >= 1,
        ;
    }
}

/// Rounding a quotient does not change when the fraction is reduced.
pub proof fn lemma_half_even_reduces(a: nat, b: nat, c: nat)
    requires
        b > 0,
        c > 0,
    ensures
        half_even(a * c, b * c) == half_even(a, b),
{
    let q = a / b;
    let r = a % b;
    assert(a == q * b + r) by {
        vstd::arithmetic::div_mod::lemma_fundamental_div_mod(a as int, b as int);
        assert(b * q == q * b) by (nonlinear_arith);
    }
    assert(b * c > 0) by (nonlinear_arith)
        requires
            b > 0,
            c > 0,
    ;
    assert(a * c == q * (b * c) + r * c && 0 <= r * c < b * c) by (nonlinear_arith)
        requires
            a == q * b + r,
            0 <= r < b,
            c > 0,
    ;
    vstd::arithmetic::div_mod::lemma_fundamental_div_mod_converse(
        (a * c) as int,
        (b * c) as int,
        q as int,
        (r * c) as int,
    );
    assert((2 * r > b <==> 2 * (r * c) > b * c) && (2 * r == b <==> 2 * (r * c) == b * c))
        by (nonlinear_arith)
        requires
            c > 0,
    ;
}

/// An exact quotient needs no rounding.
pub proof fn lemma_half_even_exact(a: nat, b: nat)
    requires
        b > 0,
    ensures
        half_even(a * b, b) == a,
{
    vstd::arithmetic::div_mod::lemma_fundamental_div_mod_converse(
        (a * b) as int,
        b as int,
        a as int,
        0,
    );
}

impl Scalar {
    /// The number whose binary64 pattern is `bits`.
    pub fn from_bits(bits: u64) -> (s: Scalar)
        ensures
            s.bits == bits,
    {
        Scalar { bits }
    }

    /// The binary64 pattern.
    pub fn to_bits(self) -> (bits: u64)
        ensures
            bits == self.bits,
    {
        self.bits
    }

    /// `0.0`.
    pub fn zero() -> (s: Scalar)
        ensures
            s.bits == 0,
            s.units() == 0,
    {
        let s = Scalar { bits: 0 };
        proof {
            lemma_zero(s);
        }
        s
    }

    /// `1.0`.
    pub fn one() -> (s: Scalar)
        ensures
            s.bits == ONE_BITS,
    {
        Scalar { bits: ONE_BITS }
    }

    /// Whether the pattern is not a number.
    pub fn is_nan(self) -> (r: bool)
        ensures
            r == self.nan(),
    {
        let m: u64 = self.bits % SIGN_BIT;
        m / FRACTION_RANGE == 2047 && m % FRACTION_RANGE != 0
    }

    /// Whether the number is neither infinite nor not-a-number.
    pub fn is_finite(self) -> (r: bool)
        ensures
            r == self.finite(),
    {
        (self.bits % SIGN_BIT) / FRACTION_RANGE != 2047
    }

    /// Numeric `<`.
    pub fn lt(self, other: Scalar) -> (r: bool)
        ensures
            r == self.less(other),
    {
        if self.is_nan() || other.is_nan() {
            return false;
        }
        let a: u64 = self.bits % SIGN_BIT;
        let b: u64 = other.bits % SIGN_BIT;
        proof {
            lemma_zero(self);
            lemma_zero(other);
            if a < b {
                lemma_magnitude_order(self, other);
            } else if b < a {
                lemma_magnitude_order(other, self);
            } else {
                assert(self.abs_units() == other.abs_units());
            }
        }
        if self.bits >= SIGN_BIT {
            if other.bits >= SIGN_BIT {
                a > b
            } else {
                a != 0 || b != 0
            }
        } else if other.bits >= SIGN_BIT {
            false
        } else {
            a < b
        }
    }

    /// Numeric `==`.
    pub fn same_value(self, other: Scalar) -> (r: bool)
        ensures
            r == self.same(other),
    {
        !self.is_nan() && !other.is_nan() && !self.lt(other) && !other.lt(self)
    }

    /// The smaller of two numbers.
    pub fn min(self, other: Scalar) -> (r: Scalar)
        ensures
            r == self.least(other),
    {
        if self.is_nan() || other.lt(self) {
            other
        } else {
            self
        }
    }

    /// The larger of two numbers.
    pub fn max(self, other: Scalar) -> (r: Scalar)
        ensures
            r == self.greatest(other),
    {
        if self.is_nan() || self.lt(other) {
            other
        } else {
            self
        }
    }

    /// The number held between `lo` and `hi`.
    pub fn clamp(self, lo: Scalar, hi: Scalar) -> (r: Scalar)
        ensures
            r == self.clamped(lo, hi),
    {
        if self.lt(lo) {
            lo
        } else if hi.lt(self) {
            hi
        } else {
            self
        }
    }

    /// Appends the numeral with `d` digits after the decimal point.
    pub fn push_fixed(self, out: &mut String, d: usize)
        requires
            d <= 6,
        ensures
            final(out)@ == old(out)@ + self.fixed(d as nat),
    {
        proof {
            reveal(Scalar::fixed);
        }
        let m: u64 = self.bits % SIGN_BIT;
        let e: u64 = m / FRACTION_RANGE;
        let f: u64 = m % FRACTION_RANGE;
        let negative = self.bits >= SIGN_BIT;
        if e == 2047 {
            if f != 0 {
                out.append("NaN");
            } else if negative {
                out.append("-inf");
            } else {
                out.append("inf");
            }
            return;
        }
        let ghost start = out@;
        if negative {
            out.push('-');
        }
        let ghost sign = if self.negative() {
            seq!['-']
        } else {
            Seq::empty()
        };
        assert(out@ =~= start + sign);
        let sig: u64 = if e == 0 {
            f
        } else {
            FRACTION_RANGE + f
        };
        let shift: u64 = if e == 0 {
            0
        } else {
            e - 1
        };
        let ghost n = self.rounded(d as nat);
        if shift >= 1074 {
            let k: usize = (shift - 1074) as usize;
            digits::push_shifted_decimal(out, sig, k);
            proof {
                lemma_rounded_integer(self, k as nat, d as nat);
            }
            if d > 0 {
                out.push('.');
                digits::push_padded(out, 0, d);
            }
        } else {
            let pow: u128 = power_of_ten(d);
            let v: u128 = round_quotient(sig, pow, (1074 - shift) as usize);
            proof {
                lemma_rounded_fraction(self, (1074 - shift) as nat, d as nat);
            }
            digits::push_decimal(out, v / pow);
            if d > 0 {
                out.push('.');
                digits::push_padded(out, v % pow, d);
            } else {
                assert(digits::ten_pow(0) == 1);
                assert(v / pow == v);
            }
        }
        proof {
            if d == 0 {
                assert(digits::ten_pow(0) == 1);
                assert(self.fixed(d as nat) == sign + digits::decimal(n));
            } else {
                assert(self.fixed(d as nat) == (sign + digits::decimal(n / digits::ten_pow(d as nat)))
                    .push('.') + digits::padded(n % digits::ten_pow(d as nat), d as nat));
            }
        }
        assert(out@ =~= start + self.fixed(d as nat));
    }

    /// The numeral with `d` digits after the decimal point.
    pub fn to_fixed(self, d: usize) -> (out: String)
        requires
            d <= 6,
        ensures
            out@ == self.fixed(d as nat),
    {
        let mut out = String::new();
        self.push_fixed(&mut out, d);
        assert(out@ =~= self.fixed(d as nat));
        out
    }
}

/// A number that is a multiple of a power of two at least one is an integer.
proof fn lemma_rounded_integer(x: Scalar, k: nat, d: nat)
    requires
        x.scale() == 1074 + k,
    ensures
        x.rounded(d) == x.significand() * digits::two_pow(k) * digits::ten_pow(d),
        x.rounded(d) / digits::ten_pow(d) == x.significand() * digits::two_pow(k),
        x.rounded(d) % digits::ten_pow(d) == 0,
{
    let m = x.significand();
    let p = digits::two_pow(k);
    let b = digits::two_pow(1074);
    let t = digits::ten_pow(d);
    digits::lemma_two_pow_adds(k, 1074);
    digits::lemma_two_pow_positive(1074);
    digits::lemma_ten_pow_positive(d);
    assert(m * (p * b) * t == (m * p * t) * b) by (nonlinear_arith);
    lemma_half_even_exact(m * p * t, b);
    vstd::arithmetic::div_mod::lemma_fundamental_div_mod_converse(
        (m * p * t) as int,
        t as int,
        (m * p) as int,
        0,
    );
}

/// Below that, the rounded value is a reduced quotient.
proof fn lemma_rounded_fraction(x: Scalar, k: nat, d: nat)
    requires
        x.scale() + k == 1074,
    ensures
        x.rounded(d) == half_even(x.significand() * digits::ten_pow(d), digits::two_pow(k)),
{
    let m = x.significand();
    let p = digits::two_pow(x.scale());
    let t = digits::ten_pow(d);
    let b = digits::two_pow(k);
    digits::lemma_two_pow_adds(x.scale(), k);
    digits::lemma_two_pow_positive(x.scale());
    digits::lemma_two_pow_positive(k);
    assert(m * p * t == (m * t) * p) by (nonlinear_arith);
    assert(p * b == b * p) by (nonlinear_arith);
    lemma_half_even_reduces(m * t, b, p);
}

/// `10^d`.
fn power_of_ten(d: usize) -> (pow: u128)
    requires
        d <= 6,
    ensures
        pow == digits::ten_pow(d as nat),
        1 <= pow <= 1_000_000,
{
    proof {
        reveal_with_fuel(digits::ten_pow, 7);
    }
    if d == 0 {
        1
    } else if d == 1 {
        10
    } else if d == 2 {
        100
    } else if d == 3 {
        1_000
    } else if d == 4 {
        10_000
    } else if d == 5 {
        100_000
    } else {
        1_000_000
    }
}

proof fn lemma_two_pow_80()
    ensures
        digits::two_pow(80) == 0x1_0000_0000_0000_0000_0000,
{
    digits::lemma_two_pow_adds(40, 40);
    assert(digits::two_pow(40) == 0x100_0000_0000) by {
        reveal_with_fuel(digits::two_pow, 41);
    }
}

/// `sig * pow / 2^k`, rounded to the nearest integer (ties to even).
fn round_quotient(sig: u64, pow: u128, k: usize) -> (n: u128)
    requires
        sig < 0x0020_0000_0000_0000,
        pow <= 1_000_000,
        k > 0,
    ensures
        n == half_even(sig as nat * pow as nat, digits::two_pow(k as nat)),
{
    assert(sig * pow < 0x0020_0000_0000_0000 * 1_000_001) by (nonlinear_arith)
        requires
            sig < 0x0020_0000_0000_0000,
            pow <= 1_000_000,
    ;
    let a: u128 = sig as u128 * pow;
    let mut b: u128 = 1;
    let mut i: usize = 0;
    while i < k && i < 80
        invariant
            i <= k,
            i <= 80,
            b == digits::two_pow(i as nat),
            i < 80 ==> b < 0x1_0000_0000_0000_0000_0000,
            i == 80 ==> b == 0x1_0000_0000_0000_0000_0000,
        decreases 80 - i,
    {
        b = b * 2;
        i += 1;
        proof {
            digits::lemma_two_pow_monotone(i as nat, 80);
            lemma_two_pow_80();
            if i < 80 {
                digits::lemma_two_pow_monotone((i + 1) as nat, 80);
                assert(digits::two_pow((i + 1) as nat) == 2 * digits::two_pow(i as nat));
            }
        }
    }
    if i < k {
        proof {
            digits::lemma_two_pow_monotone(80, k as nat);
            let bk = digits::two_pow(k as nat);
            vstd::arithmetic::div_mod::lemma_basic_div(a as int, bk as int);
            vstd::arithmetic::div_mod::lemma_small_mod(a as nat, bk);
        }
        0
    } else {
        proof {
            digits::lemma_two_pow_positive(k as nat);
        }
        let q: u128 = a / b;
        let r: u128 = a % b;
        if 2 * r > b || (2 * r == b && q % 2 == 1) {
            q + 1
        } else {
            q
        }
    }
}

} // verus!
