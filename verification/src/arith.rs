//! Binary64 arithmetic, correctly rounded.
//!
//! Each operation computes the exact result and rounds it to the nearest binary64 number, ties
//! to even.

use vstd::prelude::*;
use vstd::arithmetic::div_mod::lemma_fundamental_div_mod;
use vstd::arithmetic::div_mod::lemma_fundamental_div_mod_converse;
use crate::digits;
use crate::scalar;
use crate::scalar::{Scalar, FRACTION_RANGE, SIGN_BIT};

verus! {

/// The magnitude pattern of infinity, `2047 * 2^52`.
pub const INFINITY_BITS: u64 = 0x7ff0_0000_0000_0000;

/// The pattern that stands for every result that is not a number.
pub const NAN_BITS: u64 = 0x7ff8_0000_0000_0000;

pub proof fn lemma_two_pow_53()
    ensures
        digits::two_pow(53) == 2 * FRACTION_RANGE,
        digits::two_pow(52) == FRACTION_RANGE,
{
    reveal_with_fuel(digits::two_pow, 54);
}

/// The least `k` for which `n / d < 2^(53 + k)`.
pub open spec fn binade(n: nat, d: nat) -> nat
    decreases n - d,
{
    if d == 0 || n < d * digits::two_pow(53) {
        0
    } else {
        proof {
            lemma_two_pow_53();
            assert(d * digits::two_pow(53) >= 2 * d) by (nonlinear_arith)
                requires
                    digits::two_pow(53) >= 2,
            ;
        }
        1 + binade(n, 2 * d)
    }
}

/// The magnitude pattern nearest to `n / d` multiples of `2^-1074`, ties to even.
pub open spec fn nearest(n: nat, d: nat) -> int {
    let k = binade(n, d);
    let p = k * FRACTION_RANGE + scalar::half_even(n, d * digits::two_pow(k));
    if p < INFINITY_BITS {
        p
    } else {
        INFINITY_BITS as int
    }
}

/// The number of binary digits of `p`.
pub open spec fn bit_length(p: nat) -> nat
    decreases p,
{
    if p == 0 {
        0
    } else {
        1 + bit_length(p / 2)
    }
}

/// `p / 2^s` rounded to the nearest integer, ties to even, where `sticky` tells that the exact
/// value lies above `p` by a part of one.
pub open spec fn round_shift(p: nat, s: nat, sticky: bool) -> nat {
    let b = digits::two_pow(s);
    let q = p / b;
    let r = p % b;
    if 2 * r > b || (2 * r == b && (sticky || q % 2 == 1)) {
        q + 1
    } else {
        q
    }
}

/// The scale of the result for a value of `p * 2^x`.
pub open spec fn result_scale(p: nat, x: int) -> nat {
    if bit_length(p) + x > 53 {
        (bit_length(p) + x - 53) as nat
    } else {
        0
    }
}

/// The magnitude pattern nearest to `p * 2^x`, or to a value above it by a part of `2^x`.
pub open spec fn pattern(p: nat, x: int, sticky: bool) -> int {
    let k = result_scale(p, x);
    let sig = if k <= x {
        p * digits::two_pow((x - k) as nat)
    } else {
        round_shift(p, (k - x) as nat, sticky)
    };
    let b = k * FRACTION_RANGE + sig;
    if b < INFINITY_BITS {
        b
    } else {
        INFINITY_BITS as int
    }
}

pub proof fn lemma_bit_length(p: nat)
    requires
        p > 0,
    ensures
        bit_length(p) > 0,
        digits::two_pow((bit_length(p) - 1) as nat) <= p,
        p < digits::two_pow(bit_length(p)),
    decreases p,
{
    if p == 1 {
        reveal_with_fuel(bit_length, 2);
        reveal_with_fuel(digits::two_pow, 2);
    } else {
        lemma_bit_length(p / 2);
        let l = bit_length(p / 2);
        assert(bit_length(p) == 1 + l);
        assert(digits::two_pow(l) == 2 * digits::two_pow((l - 1) as nat));
        assert(digits::two_pow((l + 1) as nat) == 2 * digits::two_pow(l));
    }
}

/// The binade is fixed by the two powers that bound the quotient.
pub proof fn lemma_binade(n: nat, d: nat, k: nat)
    requires
        d > 0,
        n < d * digits::two_pow(53 + k),
        k > 0 ==> n >= d * digits::two_pow((52 + k) as nat),
    ensures
        binade(n, d) == k,
    decreases k,
{
    if k > 0 {
        let j = (k - 1) as nat;
        assert(digits::two_pow(53 + k) == 2 * digits::two_pow(53 + j));
        assert(d * (2 * digits::two_pow(53 + j)) == (2 * d) * digits::two_pow(53 + j))
            by (nonlinear_arith);
        digits::lemma_two_pow_monotone(53, 52 + k);
        assert(d * digits::two_pow(53) <= d * digits::two_pow(52 + k)) by (nonlinear_arith)
            requires
                digits::two_pow(53) <= digits::two_pow(52 + k),
        ;
        if j > 0 {
            assert(digits::two_pow((52 + k) as nat) == 2 * digits::two_pow((52 + j) as nat));
            assert(d * (2 * digits::two_pow((52 + j) as nat)) == (2 * d) * digits::two_pow(
                (52 + j) as nat,
            )) by (nonlinear_arith);
        }
        lemma_binade(n, 2 * d, j);
    }
}

/// Cancels a positive factor.
proof fn lemma_cancel(a: nat, b: nat, c: nat)
    requires
        c > 0,
    ensures
        a * c < b * c <==> a < b,
        a * c <= b * c <==> a <= b,
{
    assert((a * c < b * c <==> a < b) && (a * c <= b * c <==> a <= b)) by (nonlinear_arith)
        requires
            c > 0,
    ;
}

/// The scale computed from the leading bits is the binade of the exact quotient.
proof fn lemma_result_scale(n: nat, d: nat, p: nat, px: nat, nx: nat)
    requires
        d > 0,
        p > 0,
        p == (n * digits::two_pow(nx)) / (d * digits::two_pow(px)),
    ensures
        binade(n, d) == result_scale(p, px - nx),
{
    let x = px - nx;
    let l = bit_length(p);
    lemma_bit_length(p);
    let tn = digits::two_pow(nx);
    let tp = digits::two_pow(px);
    digits::lemma_two_pow_positive(nx);
    digits::lemma_two_pow_positive(px);
    let a = n * tn;
    let b = d * tp;
    assert(b > 0) by (nonlinear_arith)
        requires
            b == d * tp,
            d > 0,
            tp > 0,
    ;
    lemma_fundamental_div_mod(a as int, b as int);
    let r = a % b;
    assert(a == b * p + r);
    // a < 2^l * b and a >= 2^(l-1) * b
    let hi = digits::two_pow(l);
    let lo = digits::two_pow((l - 1) as nat);
    assert(a < hi * b && a >= lo * b) by (nonlinear_arith)
        requires
            a == b * p + r,
            0 <= r < b,
            lo <= p < hi,
    ;
    digits::lemma_two_pow_adds(l, px);
    assert(hi * (d * tp) == d * (hi * tp)) by (nonlinear_arith);
    assert(a < d * digits::two_pow(l + px));
    let k = result_scale(p, x);
    // n * 2^nx < d * 2^(l + px) <= d * 2^(53 + k) * 2^nx
    digits::lemma_two_pow_monotone(l + px, 53 + k + nx);
    digits::lemma_two_pow_adds(53 + k, nx);
    let t = digits::two_pow(53 + k);
    assert(d * digits::two_pow(l + px) <= d * (t * tn)) by (nonlinear_arith)
        requires
            digits::two_pow(l + px) <= t * tn,
    ;
    assert(d * (t * tn) == (d * t) * tn) by (nonlinear_arith);
    lemma_cancel(n, d * t, tn);
    if k > 0 {
        let u = digits::two_pow((52 + k) as nat);
        assert(l - 1 + px == 52 + k + nx);
        digits::lemma_two_pow_adds((l - 1) as nat, px);
        digits::lemma_two_pow_adds((52 + k) as nat, nx);
        assert(lo * (d * tp) == d * (lo * tp)) by (nonlinear_arith);
        assert(d * (u * tn) == (d * u) * tn) by (nonlinear_arith);
        lemma_cancel(d * u, n, tn);
    }
    lemma_binade(n, d, k);
}

/// Rounding the leading bits with the sticky bit rounds the exact quotient.
proof fn lemma_round_shift(n: nat, d: nat, p: nat, px: nat, nx: nat, k: nat, sticky: bool)
    requires
        d > 0,
        p == (n * digits::two_pow(nx)) / (d * digits::two_pow(px)),
        sticky == ((n * digits::two_pow(nx)) % (d * digits::two_pow(px)) != 0),
        k + nx > px,
    ensures
        scalar::half_even(n, d * digits::two_pow(k)) == round_shift(
            p,
            (k + nx - px) as nat,
            sticky,
        ),
{
    let s = (k + nx - px) as nat;
    let tn = digits::two_pow(nx);
    let tp = digits::two_pow(px);
    let tk = digits::two_pow(k);
    let ts = digits::two_pow(s);
    digits::lemma_two_pow_positive(nx);
    digits::lemma_two_pow_positive(px);
    digits::lemma_two_pow_positive(k);
    digits::lemma_two_pow_positive(s);
    let a = n * tn;
    let b = d * tp;
    assert(b > 0) by (nonlinear_arith)
        requires
            b == d * tp,
            d > 0,
            tp > 0,
    ;
    lemma_fundamental_div_mod(a as int, b as int);
    let rr = a % b;
    lemma_fundamental_div_mod(p as int, ts as int);
    let q = p / ts;
    let r = p % ts;
    // Both denominators are the same number.
    digits::lemma_two_pow_adds(k, nx);
    digits::lemma_two_pow_adds(px, s);
    assert((d * tk) * tn == b * ts) by (nonlinear_arith)
        requires
            tk * tn == tp * ts,
            b == d * tp,
    ;
    assert(d * tk > 0) by (nonlinear_arith)
        requires
            d > 0,
            tk > 0,
    ;
    scalar::lemma_half_even_reduces(n, d * tk, tn);
    let m = b * ts;
    let rem = r * b + rr;
    assert(a == q * m + rem && 0 <= rem < m) by (nonlinear_arith)
        requires
            a == b * p + rr,
            0 <= rr < b,
            p == ts * q + r,
            0 <= r < ts,
            m == b * ts,
            rem == r * b + rr,
    ;
    lemma_fundamental_div_mod_converse(a as int, m as int, q as int, rem as int);
    let half = digits::two_pow((s - 1) as nat);
    assert(ts == 2 * half);
    assert((r > half ==> 2 * rem > m) && (r == half ==> (2 * rem > m <==> rr > 0) && (2 * rem == m
        <==> rr == 0)) && (r < half ==> 2 * rem < m)) by (nonlinear_arith)
        requires
            rem == r * b + rr,
            m == b * ts,
            ts == 2 * half,
            0 <= rr < b,
            b > 0,
    ;
}

/// The value is exact where no bits are dropped.
proof fn lemma_exact_shift(n: nat, d: nat, p: nat, px: nat, nx: nat, k: nat)
    requires
        d > 0,
        p == (n * digits::two_pow(nx)) / (d * digits::two_pow(px)),
        (n * digits::two_pow(nx)) % (d * digits::two_pow(px)) == 0,
        k + nx <= px,
    ensures
        scalar::half_even(n, d * digits::two_pow(k)) == p * digits::two_pow((px - nx - k) as nat),
{
    let e = (px - nx - k) as nat;
    let tn = digits::two_pow(nx);
    let tp = digits::two_pow(px);
    let tk = digits::two_pow(k);
    let te = digits::two_pow(e);
    digits::lemma_two_pow_positive(nx);
    digits::lemma_two_pow_positive(px);
    digits::lemma_two_pow_positive(k);
    let a = n * tn;
    let b = d * tp;
    assert(b > 0) by (nonlinear_arith)
        requires
            b == d * tp,
            d > 0,
            tp > 0,
    ;
    lemma_fundamental_div_mod(a as int, b as int);
    digits::lemma_two_pow_adds(k, nx);
    digits::lemma_two_pow_adds(k + nx, e);
    assert(k + nx + e == px);
    assert((d * tk) * tn > 0 && (p * te) * ((d * tk) * tn) == a) by (nonlinear_arith)
        requires
            a == b * p,
            b == d * tp,
            tp == (tk * tn) * te,
            d > 0,
            tk > 0,
            tn > 0,
    ;
    assert(d * tk > 0) by (nonlinear_arith)
        requires
            d > 0,
            tk > 0,
    ;
    scalar::lemma_half_even_reduces(n, d * tk, tn);
    scalar::lemma_half_even_exact(p * te, (d * tk) * tn);
}

/// The pattern of the leading bits is the pattern nearest to the exact quotient.
pub proof fn lemma_pattern(n: nat, d: nat, p: nat, px: nat, nx: nat, sticky: bool)
    requires
        d > 0,
        p > 0,
        p == (n * digits::two_pow(nx)) / (d * digits::two_pow(px)),
        sticky == ((n * digits::two_pow(nx)) % (d * digits::two_pow(px)) != 0),
        sticky ==> result_scale(p, px - nx) > px - nx,
    ensures
        nearest(n, d) == pattern(p, px - nx, sticky),
{
    let k = result_scale(p, px - nx);
    lemma_result_scale(n, d, p, px, nx);
    if k > px - nx {
        lemma_round_shift(n, d, p, px, nx, k, sticky);
    } else {
        lemma_exact_shift(n, d, p, px, nx, k);
    }
}

/// `2^k`.
pub(crate) fn power_of_two(k: u64) -> (p: u128)
    requires
        k <= 127,
    ensures
        p == digits::two_pow(k as nat),
{
    let mut p: u128 = 1;
    let mut i: u64 = 0;
    while i < k
        invariant
            i <= k <= 127,
            p == digits::two_pow(i as nat),
        decreases k - i,
    {
        proof {
            lemma_two_pow_127();
            digits::lemma_two_pow_monotone((i + 1) as nat, 127);
            assert(digits::two_pow((i + 1) as nat) == 2 * digits::two_pow(i as nat));
        }
        p = p * 2;
        i += 1;
    }
    p
}

proof fn lemma_two_pow_127()
    ensures
        digits::two_pow(127) == 0x8000_0000_0000_0000_0000_0000_0000_0000,
{
    digits::lemma_two_pow_adds(64, 63);
    lemma_two_pow_64();
}

proof fn lemma_two_pow_64()
    ensures
        digits::two_pow(64) == 0x1_0000_0000_0000_0000,
        digits::two_pow(63) == 0x8000_0000_0000_0000,
        digits::two_pow(61) == 256 * digits::two_pow(53),
        digits::two_pow(60) == 128 * digits::two_pow(53),
{
    reveal_with_fuel(digits::two_pow, 65);
}

/// Rounds `p * 2^x`, or a value above it by a part of `2^x`, to a magnitude pattern.
pub(crate) fn pack(p: u128, x: i64, sticky: bool) -> (m: u64)
    requires
        0 < p < 0x8000_0000_0000_0000_0000_0000_0000_0000,
        -4000 <= x <= 4000,
    ensures
        m == pattern(p as nat, x as int, sticky),
{
    let ghost len = bit_length(p as nat);
    proof {
        lemma_bit_length(p as nat);
        lemma_two_pow_127();
        if len > 127 {
            digits::lemma_two_pow_monotone(127, (len - 1) as nat);
        }
    }
    let mut l: i64 = 0;
    let mut rest: u128 = p;
    while rest > 0
        invariant
            0 <= l <= len,
            len <= 127,
            len == l + bit_length(rest as nat),
        decreases rest,
    {
        rest = rest / 2;
        l += 1;
    }
    let k: i64 = if l + x > 53 {
        l + x - 53
    } else {
        0
    };
    if k > 2046 {
        return INFINITY_BITS;
    }
    let sig: u128 = if k <= x {
        let e: u64 = (x - k) as u64;
        proof {
            // p < 2^l and l + e <= 53
            digits::lemma_two_pow_adds(l as nat, e as nat);
            digits::lemma_two_pow_monotone((l + e) as nat, 53);
            digits::lemma_two_pow_positive(e as nat);
            lemma_two_pow_53();
            let (pn, hn, en) = (p as nat, digits::two_pow(l as nat), digits::two_pow(e as nat));
            assert(pn * en <= hn * en) by (nonlinear_arith)
                requires
                    pn < hn,
            ;
        }
        p * power_of_two(e)
    } else {
        let s: i64 = k - x;
        if s >= 128 {
            proof {
                let b = digits::two_pow(s as nat);
                digits::lemma_two_pow_monotone(128, s as nat);
                assert(digits::two_pow(128) == 2 * digits::two_pow(127));
                vstd::arithmetic::div_mod::lemma_basic_div(p as int, b as int);
                vstd::arithmetic::div_mod::lemma_small_mod(p as nat, b);
            }
            0
        } else {
            let b: u128 = power_of_two(s as u64);
            proof {
                digits::lemma_two_pow_positive(s as nat);
                lemma_round_shift_bound(p as nat, x as int, sticky);
            }
            let q: u128 = p / b;
            let r: u128 = p % b;
            if r > b - r || (r == b - r && (sticky || q % 2 == 1)) {
                q + 1
            } else {
                q
            }
        }
    };
    proof {
        lemma_two_pow_53();
    }
    let m: u64 = k as u64 * FRACTION_RANGE + sig as u64;
    if m < INFINITY_BITS {
        m
    } else {
        INFINITY_BITS
    }
}

/// The rounded significand has at most 54 bits.
proof fn lemma_round_shift_bound(p: nat, x: int, sticky: bool)
    requires
        p > 0,
        result_scale(p, x) > x,
    ensures
        p / digits::two_pow((result_scale(p, x) - x) as nat) < digits::two_pow(53),
        round_shift(p, (result_scale(p, x) - x) as nat, sticky) <= digits::two_pow(53),
{
    let l = bit_length(p);
    lemma_bit_length(p);
    let s = (result_scale(p, x) - x) as nat;
    assert(s + 53 >= l);
    digits::lemma_two_pow_monotone(l, s + 53);
    digits::lemma_two_pow_adds(s, 53);
    digits::lemma_two_pow_positive(s);
    let b = digits::two_pow(s);
    let t = digits::two_pow(53);
    lemma_fundamental_div_mod(p as int, b as int);
    let q = p / b;
    let r = p % b;
    assert(q < t) by (nonlinear_arith)
        requires
            p == b * q + r,
            r >= 0,
            p < b * t,
            b > 0,
    ;
}

impl Scalar {
    /// Whether the number is infinite.
    pub open spec fn infinite(self) -> bool {
        self.exponent() == 2047 && self.fraction() == 0
    }

    /// The number with a given sign and magnitude pattern.
    pub open spec fn signed(negative: bool, magnitude: int) -> Scalar {
        Scalar {
            bits: ((if negative {
                SIGN_BIT as int
            } else {
                0
            }) + magnitude) as u64,
        }
    }

    /// The number nearest to an integer.
    #[verifier::opaque]
    pub open spec fn integer(n: nat) -> Scalar {
        Scalar::signed(false, nearest(n * digits::two_pow(1074), 1))
    }

    /// The number with its sign bit flipped.
    pub open spec fn negated(self) -> Scalar {
        Scalar::signed(!self.negative(), self.magnitude())
    }

    /// The number without its sign.
    pub open spec fn absolute(self) -> Scalar {
        Scalar::signed(false, self.magnitude())
    }

    /// `self + other`.
    #[verifier::opaque]
    pub open spec fn sum(self, other: Scalar) -> Scalar {
        if self.nan() || other.nan() || (self.infinite() && other.infinite() && self.negative()
            != other.negative()) {
            Scalar { bits: NAN_BITS }
        } else if self.infinite() {
            self
        } else if other.infinite() {
            other
        } else {
            let u = self.units() + other.units();
            if u == 0 {
                Scalar::signed(self.negative() && other.negative(), 0)
            } else if u < 0 {
                Scalar::signed(true, nearest((-u) as nat, 1))
            } else {
                Scalar::signed(false, nearest(u as nat, 1))
            }
        }
    }

    /// `self - other`.
    pub open spec fn difference(self, other: Scalar) -> Scalar {
        self.sum(other.negated())
    }

    /// `self * other`.
    #[verifier::opaque]
    pub open spec fn product(self, other: Scalar) -> Scalar {
        let negative = self.negative() != other.negative();
        if self.nan() || other.nan() || (self.infinite() && other.magnitude() == 0) || (
        other.infinite() && self.magnitude() == 0) {
            Scalar { bits: NAN_BITS }
        } else if self.infinite() || other.infinite() {
            Scalar::signed(negative, INFINITY_BITS as int)
        } else {
            Scalar::signed(
                negative,
                nearest(self.abs_units() * other.abs_units(), digits::two_pow(1074)),
            )
        }
    }

    /// `self / other`.
    #[verifier::opaque]
    pub open spec fn quotient(self, other: Scalar) -> Scalar {
        let negative = self.negative() != other.negative();
        if self.nan() || other.nan() || (self.infinite() && other.infinite()) || (self.magnitude()
            == 0 && other.magnitude() == 0) {
            Scalar { bits: NAN_BITS }
        } else if self.infinite() || other.magnitude() == 0 {
            Scalar::signed(negative, INFINITY_BITS as int)
        } else if other.infinite() {
            Scalar::signed(negative, 0)
        } else {
            Scalar::signed(
                negative,
                nearest(self.abs_units() * digits::two_pow(1074), other.abs_units()),
            )
        }
    }
}

pub proof fn lemma_nearest_range(n: nat, d: nat)
    ensures
        0 <= nearest(n, d) <= INFINITY_BITS,
{
    let k = binade(n, d);
    assert(k * FRACTION_RANGE >= 0) by (nonlinear_arith);
}

pub proof fn lemma_nearest_zero(d: nat)
    requires
        d > 0,
    ensures
        nearest(0, d) == 0,
{
    lemma_two_pow_53();
    assert(d * digits::two_pow(53) > 0) by (nonlinear_arith)
        requires
            d > 0,
            digits::two_pow(53) > 0,
    ;
    assert(digits::two_pow(0) == 1);
    assert(d * digits::two_pow(0) == d);
    vstd::arithmetic::div_mod::lemma_basic_div(0, d as int);
    vstd::arithmetic::div_mod::lemma_small_mod(0, d);
}

/// The fields make up the magnitude.
pub proof fn lemma_fields(a: Scalar)
    ensures
        a.magnitude() == a.scale() * FRACTION_RANGE + a.significand(),
        a.significand() < 2 * FRACTION_RANGE,
        a.scale() > 0 ==> a.significand() >= FRACTION_RANGE,
        a.scale() <= 2046,
        a.finite() ==> a.scale() <= 2045,
        0 <= a.magnitude() < SIGN_BIT,
{
}

/// A sum with a number far below the last place of the other is that other number.
proof fn lemma_absorbed(a: Scalar, t: nat, n: nat)
    requires
        a.finite(),
        a.scale() >= 61,
        t * 256 < digits::two_pow(a.scale()),
        n == a.abs_units() + t || n + t == a.abs_units(),
    ensures
        nearest(n, 1) == a.magnitude(),
{
    let k = a.scale();
    let s = a.significand();
    let p = digits::two_pow(k);
    let f = FRACTION_RANGE as nat;
    lemma_fields(a);
    lemma_two_pow_53();
    digits::lemma_two_pow_adds(53, k);
    digits::lemma_two_pow_adds(52, k);
    digits::lemma_two_pow_positive(k);
    let h = digits::two_pow((k - 1) as nat);
    assert(p == 2 * h);
    let q = digits::two_pow((k - 2) as nat);
    assert(h == 2 * q);
    if n == a.abs_units() + t {
        assert(f * p <= n && n < (2 * f) * p) by (nonlinear_arith)
            requires
                n == s * p + t,
                f <= s < 2 * f,
                t * 256 < p,
                t >= 0,
        ;
        lemma_binade(n, 1, k);
        lemma_fundamental_div_mod_converse(n as int, p as int, s as int, t as int);
        assert(1 * p == p);
    } else if t == 0 {
        assert(n == a.abs_units() + t);
    } else if s > f {
        assert(f * p <= n && n < (2 * f) * p && n == (s - 1) * p + (p - t)) by (nonlinear_arith)
            requires
                n + t == s * p,
                f < s < 2 * f,
                t * 256 < p,
                t > 0,
        ;
        lemma_binade(n, 1, k);
        lemma_fundamental_div_mod_converse(n as int, p as int, s - 1, p - t);
        assert(1 * p == p);
    } else {
        let j = (k - 1) as nat;
        digits::lemma_two_pow_adds(53, j);
        digits::lemma_two_pow_adds(52, j);
        assert(f * h <= n && n < (2 * f) * h && n == (2 * f - 1) * h + (h - t))
            by (nonlinear_arith)
            requires
                n + t == f * (2 * h),
                t * 256 < 2 * h,
                t > 0,
                f > 1,
        ;
        lemma_binade(n, 1, j);
        lemma_fundamental_div_mod_converse(n as int, h as int, 2 * f - 1, h - t);
        assert(1 * h == h);
    }
}

proof fn lemma_regroup(a: nat, b: nat, c: nat, d: nat, e: nat, f: nat)
    ensures
        ((a * b) * c) * ((d * e) * f) == ((a * e) * d) * ((b * c) * f),
{
    assert(((a * b) * c) * ((d * e) * f) == (a * e) * (b * c) * (d * f)) by (nonlinear_arith);
    assert(((a * e) * d) * ((b * c) * f) == (a * e) * (b * c) * (d * f)) by (nonlinear_arith);
}

/// A common factor leaves the quotient as it is and scales the remainder.
pub proof fn lemma_widened_quotient(a: nat, b: nat, c: nat)
    requires
        b > 0,
        c > 0,
    ensures
        (a * c) / (b * c) == a / b,
        (a * c) % (b * c) == (a % b) * c,
        (a % b) * c == 0 <==> a % b == 0,
{
    let q = a / b;
    let r = a % b;
    lemma_fundamental_div_mod(a as int, b as int);
    assert(a * c == q * (b * c) + r * c && 0 <= r * c < b * c && (r * c == 0 <==> r == 0))
        by (nonlinear_arith)
        requires
            a == b * q + r,
            0 <= r < b,
            c > 0,
    ;
    lemma_fundamental_div_mod_converse((a * c) as int, (b * c) as int, q as int, (r * c) as int);
}

/// The leading bits of a quotient of two numbers, and whether anything is left below them.
proof fn lemma_leading_quotient(
    sa: nat,
    ka: nat,
    sb: nat,
    kb: nat,
    t: nat,
    w: nat,
    p: nat,
    sticky: bool,
)
    requires
        sb > 0,
        w == (sa * digits::two_pow(t)) * 0x1_0000_0000_0000_0000,
        p == w / sb,
        p > 0,
        sticky == (w % sb != 0),
        bit_length(p) >= 64,
    ensures
        nearest((sa * digits::two_pow(ka)) * digits::two_pow(1074), sb * digits::two_pow(kb))
            == pattern(p, ka + 1010 - t - kb, sticky),
{
    let d = sb * digits::two_pow(kb);
    let n = (sa * digits::two_pow(ka)) * digits::two_pow(1074);
    let px = ka + 1074;
    let nx = 64 + t + kb;
    let pa = digits::two_pow(ka);
    let pb = digits::two_pow(kb);
    let p1074 = digits::two_pow(1074);
    let pt = digits::two_pow(t);
    let p64 = digits::two_pow(64);
    lemma_two_pow_64();
    digits::lemma_two_pow_adds(ka, 1074);
    digits::lemma_two_pow_adds(64, t);
    digits::lemma_two_pow_adds(64 + t, kb);
    digits::lemma_two_pow_positive(ka);
    digits::lemma_two_pow_positive(kb);
    digits::lemma_two_pow_positive(1074);
    let c = (pa * p1074) * pb;
    assert(c > 0) by (nonlinear_arith)
        requires
            c == (pa * p1074) * pb,
            pa > 0,
            pb > 0,
            p1074 > 0,
    ;
    lemma_regroup(sa, pa, p1074, p64, pt, pb);
    assert(n * digits::two_pow(nx) == w * c);
    assert(d * digits::two_pow(px) == sb * c) by (nonlinear_arith)
        requires
            d == sb * pb,
            digits::two_pow(px) == pa * p1074,
            c == (pa * p1074) * pb,
    ;
    assert(d > 0) by (nonlinear_arith)
        requires
            d == sb * pb,
            sb > 0,
            pb > 0,
    ;
    let r = w % sb;
    lemma_widened_quotient(w, sb, c);
    lemma_pattern(n, d, p, px, nx, sticky);
}

impl Scalar {
    /// The integer significand and its scale.
    pub(crate) fn decode(self) -> (r: (u64, u64))
        ensures
            r.0 == self.significand(),
            r.1 == self.scale(),
    {
        let m: u64 = self.bits % SIGN_BIT;
        let e: u64 = m / FRACTION_RANGE;
        let f: u64 = m % FRACTION_RANGE;
        if e == 0 {
            (f, 0)
        } else {
            (FRACTION_RANGE + f, e - 1)
        }
    }

    pub(crate) fn with_sign(negative: bool, magnitude: u64) -> (r: Scalar)
        requires
            magnitude < SIGN_BIT,
        ensures
            r == Scalar::signed(negative, magnitude as int),
    {
        if negative {
            Scalar { bits: SIGN_BIT + magnitude }
        } else {
            Scalar { bits: magnitude }
        }
    }

    /// Whether the number is infinite.
    pub fn is_infinite(self) -> (r: bool)
        ensures
            r == self.infinite(),
    {
        self.bits % SIGN_BIT == INFINITY_BITS
    }

    /// The number with its sign bit flipped.
    pub fn neg(self) -> (r: Scalar)
        ensures
            r == self.negated(),
    {
        Scalar::with_sign(self.bits < SIGN_BIT, self.bits % SIGN_BIT)
    }

    /// The number without its sign.
    pub fn abs(self) -> (r: Scalar)
        ensures
            r == self.absolute(),
    {
        Scalar { bits: self.bits % SIGN_BIT }
    }

    /// Adds finite numbers, of which `self` has the larger scale.
    fn add_aligned(self, other: Scalar) -> (r: Scalar)
        requires
            self.finite(),
            other.finite(),
            self.scale() >= other.scale(),
        ensures
            r == self.sum(other),
    {
        proof {
            reveal(Scalar::sum);
        }
        let (sa, ka) = self.decode();
        let (sb, kb) = other.decode();
        let na = self.bits >= SIGN_BIT;
        let nb = other.bits >= SIGN_BIT;
        proof {
            lemma_fields(self);
            lemma_fields(other);
            digits::lemma_two_pow_positive(kb as nat);
        }
        let ghost u = self.units() + other.units();
        let diff: u64 = ka - kb;
        if diff > 60 {
            proof {
                let t = other.abs_units();
                let p = digits::two_pow(ka as nat);
                let pb = digits::two_pow(kb as nat);
                lemma_two_pow_53();
                digits::lemma_two_pow_adds((kb + 61) as nat, (ka - kb - 61) as nat);
                digits::lemma_two_pow_adds(kb as nat, 61);
                digits::lemma_two_pow_positive((ka - kb - 61) as nat);
                lemma_two_pow_64();
                let w = digits::two_pow((ka - kb - 61) as nat);
                let f2 = digits::two_pow(53);
                assert(t * 256 < p) by (nonlinear_arith)
                    requires
                        t == sb * pb,
                        sb < f2,
                        p == (pb * (256 * f2)) * w,
                        w >= 1,
                        pb >= 1,
                ;
                let n = if u < 0 {
                    (-u) as nat
                } else {
                    u as nat
                };
                lemma_absorbed(self, 0, self.abs_units());
                assert(self.abs_units() > t) by (nonlinear_arith)
                    requires
                        self.abs_units() == sa * p,
                        sa >= 1,
                        t * 256 < p,
                ;
                lemma_absorbed(self, t, n);
            }
            return self;
        }
        let shift: u128 = power_of_two(diff);
        proof {
            lemma_two_pow_53();
            digits::lemma_two_pow_monotone(diff as nat, 60);
            lemma_two_pow_64();
            digits::lemma_two_pow_adds(diff as nat, kb as nat);
            assert(sa * shift <= 0x20_0000_0000_0000 * 0x1000_0000_0000_0000) by (nonlinear_arith)
                requires
                    sa <= 0x20_0000_0000_0000,
                    shift <= 0x1000_0000_0000_0000,
            ;
        }
        let a: u128 = sa as u128 * shift;
        let b: u128 = sb as u128;
        let (p, negative): (u128, bool) = if na == nb {
            (a + b, na)
        } else if a >= b {
            (a - b, na)
        } else {
            (b - a, nb)
        };
        proof {
            let pb = digits::two_pow(kb as nat);
            let sh = shift as nat;
            assert(self.abs_units() == (a as nat) * pb) by (nonlinear_arith)
                requires
                    self.abs_units() == sa as nat * (sh * pb),
                    a as nat == sa as nat * sh,
            ;
            let (ai, bi, pbi) = (a as int, b as int, pb as int);
            assert(ai * pbi + bi * pbi == (ai + bi) * pbi) by (nonlinear_arith);
            assert(ai * pbi - bi * pbi == (ai - bi) * pbi) by (nonlinear_arith);
            assert(bi * pbi - ai * pbi == (bi - ai) * pbi) by (nonlinear_arith);
            assert((p as int) * pbi == if negative {
                -u
            } else {
                u
            });
        }
        if p == 0 {
            proof {
                assert(0 * digits::two_pow(kb as nat) == 0);
            }
            return Scalar::with_sign(na && nb, 0);
        }
        let m: u64 = pack(p, kb as i64, false);
        proof {
            let pb = digits::two_pow(kb as nat);
            let n = p as nat * pb;
            assert(n > 0) by (nonlinear_arith)
                requires
                    n == p as nat * pb,
                    p > 0,
                    pb > 0,
            ;
            assert(digits::two_pow(0) == 1);
            assert(n * 1 == n);
            assert(1 * pb == pb);
            lemma_fundamental_div_mod_converse(n as int, pb as int, p as int, 0);
            lemma_pattern(n, 1, p as nat, kb as nat, 0, false);
            lemma_nearest_range(n, 1);
        }
        Scalar::with_sign(negative, m)
    }

    /// `self + other`.
    pub fn add(self, other: Scalar) -> (r: Scalar)
        ensures
            r == self.sum(other),
    {
        proof {
            reveal(Scalar::sum);
        }
        if self.is_nan() || other.is_nan() {
            return Scalar { bits: NAN_BITS };
        }
        if self.is_infinite() {
            if other.is_infinite() && (self.bits >= SIGN_BIT) != (other.bits >= SIGN_BIT) {
                return Scalar { bits: NAN_BITS };
            }
            return self;
        }
        if other.is_infinite() {
            return other;
        }
        let (_sa, ka) = self.decode();
        let (_sb, kb) = other.decode();
        if ka >= kb {
            self.add_aligned(other)
        } else {
            other.add_aligned(self)
        }
    }

    /// `self - other`.
    pub fn sub(self, other: Scalar) -> (r: Scalar)
        ensures
            r == self.difference(other),
    {
        self.add(other.neg())
    }

    /// `self * other`.
    pub fn mul(self, other: Scalar) -> (r: Scalar)
        ensures
            r == self.product(other),
    {
        proof {
            reveal(Scalar::product);
        }
        let negative = (self.bits >= SIGN_BIT) != (other.bits >= SIGN_BIT);
        if self.is_nan() || other.is_nan() || (self.is_infinite() && other.bits % SIGN_BIT == 0)
            || (other.is_infinite() && self.bits % SIGN_BIT == 0) {
            return Scalar { bits: NAN_BITS };
        }
        if self.is_infinite() || other.is_infinite() {
            return Scalar::with_sign(negative, INFINITY_BITS);
        }
        let (sa, ka) = self.decode();
        let (sb, kb) = other.decode();
        proof {
            lemma_fields(self);
            lemma_fields(other);
            assert(sa * sb <= 0x20_0000_0000_0000 * 0x20_0000_0000_0000) by (nonlinear_arith)
                requires
                    sa <= 0x20_0000_0000_0000,
                    sb <= 0x20_0000_0000_0000,
            ;
        }
        let p: u128 = sa as u128 * sb as u128;
        let ghost n = self.abs_units() * other.abs_units();
        let ghost d = digits::two_pow(1074);
        proof {
            digits::lemma_two_pow_positive(1074);
            lemma_nearest_range(n, d);
            let pa = digits::two_pow(ka as nat);
            let pb = digits::two_pow(kb as nat);
            digits::lemma_two_pow_adds(ka as nat, kb as nat);
            assert((sa as nat * pa) * (sb as nat * pb) == (sa as nat * sb as nat) * (pa * pb))
                by (nonlinear_arith);
            assert(n == p as nat * (pa * pb));
        }
        if p == 0 {
            proof {
                assert(n == 0);
                lemma_nearest_zero(d);
            }
            return Scalar::with_sign(negative, 0);
        }
        let m: u64 = pack(p, ka as i64 + kb as i64 - 1074, false);
        proof {
            let px = (ka + kb) as nat;
            let t = digits::two_pow(px);
            let c = d * t;
            digits::lemma_two_pow_positive(px);
            assert(c > 0) by (nonlinear_arith)
                requires
                    c == d * t,
                    d > 0,
                    t > 0,
            ;
            assert(n * d == p as nat * c) by (nonlinear_arith)
                requires
                    n == p as nat * t,
                    c == d * t,
            ;
            lemma_fundamental_div_mod_converse((n * d) as int, c as int, p as int, 0);
            lemma_pattern(n, d, p as nat, px, 1074, false);
        }
        Scalar::with_sign(negative, m)
    }

    /// Divides a finite number other than zero by another.
    fn div_finite(self, other: Scalar) -> (r: Scalar)
        requires
            self.finite(),
            other.finite(),
            self.magnitude() != 0,
            other.magnitude() != 0,
        ensures
            r == self.quotient(other),
    {
        proof {
            reveal(Scalar::quotient);
        }
        let negative = (self.bits >= SIGN_BIT) != (other.bits >= SIGN_BIT);
        let (sa, ka) = self.decode();
        let (sb, kb) = other.decode();
        proof {
            lemma_fields(self);
            lemma_fields(other);
        }
        let mut s: u64 = sa;
        let mut t: u64 = 0;
        proof {
            assert(digits::two_pow(0) == 1);
            assert(sa as nat * 1 == sa);
        }
        while s < FRACTION_RANGE
            invariant
                0 < s < 2 * FRACTION_RANGE,
                s == sa as nat * digits::two_pow(t as nat),
                t <= 52,
                s < FRACTION_RANGE ==> s >= digits::two_pow(t as nat),
                sa > 0,
            decreases 2 * FRACTION_RANGE - s,
        {
            proof {
                lemma_two_pow_53();
                if t >= 52 {
                    digits::lemma_two_pow_monotone(52, t as nat);
                }
                let w = digits::two_pow(t as nat);
                assert(digits::two_pow((t + 1) as nat) == 2 * w);
                assert(2 * (sa as nat * w) == sa as nat * (2 * w)) by (nonlinear_arith);
                assert(2 * w <= sa as nat * (2 * w)) by (nonlinear_arith)
                    requires
                        sa > 0,
                ;
            }
            s = s * 2;
            t += 1;
        }
        let wide: u128 = s as u128 * 0x1_0000_0000_0000_0000u128;
        let p: u128 = wide / sb as u128;
        let sticky = wide % sb as u128 != 0;
        let x: i64 = ka as i64 + 1010 - t as i64 - kb as i64;
        proof {
            assert(p >= 0x8000_0000_0000_0000) by (nonlinear_arith)
                requires
                    p as int == wide as int / sb as int,
                    wide >= FRACTION_RANGE * 0x1_0000_0000_0000_0000,
                    0 < sb < 2 * FRACTION_RANGE,
            ;
            assert(p <= wide) by (nonlinear_arith)
                requires
                    p as int == wide as int / sb as int,
                    sb > 0,
            ;
            lemma_bit_length(p as nat);
            let l = bit_length(p as nat);
            if l < 64 {
                digits::lemma_two_pow_monotone(l, 63);
                lemma_two_pow_64();
            }
        }
        let m: u64 = pack(p, x, sticky);
        proof {
            let d = other.abs_units();
            let n = self.abs_units() * digits::two_pow(1074);
            lemma_leading_quotient(
                sa as nat,
                ka as nat,
                sb as nat,
                kb as nat,
                t as nat,
                wide as nat,
                p as nat,
                sticky,
            );
            lemma_nearest_range(n, d);
        }
        Scalar::with_sign(negative, m)
    }

    /// `self / other`.
    pub fn div(self, other: Scalar) -> (r: Scalar)
        ensures
            r == self.quotient(other),
    {
        proof {
            reveal(Scalar::quotient);
        }
        let negative = (self.bits >= SIGN_BIT) != (other.bits >= SIGN_BIT);
        let za = self.bits % SIGN_BIT == 0;
        let zb = other.bits % SIGN_BIT == 0;
        if self.is_nan() || other.is_nan() || (self.is_infinite() && other.is_infinite()) || (za
            && zb) {
            return Scalar { bits: NAN_BITS };
        }
        if self.is_infinite() || zb {
            return Scalar::with_sign(negative, INFINITY_BITS);
        }
        if other.is_infinite() {
            return Scalar::with_sign(negative, 0);
        }
        if za {
            proof {
                let d = other.abs_units();
                scalar::lemma_zero(self);
                scalar::lemma_zero(other);
                assert(0 * digits::two_pow(1074) == 0);
                lemma_nearest_zero(d);
            }
            return Scalar::with_sign(negative, 0);
        }
        self.div_finite(other)
    }

    /// The binary64 number nearest to an integer.
    pub fn from_u64(n: u64) -> (r: Scalar)
        ensures
            r == Scalar::integer(n as nat),
    {
        proof {
            reveal(Scalar::integer);
        }
        let ghost t = digits::two_pow(1074);
        let ghost u = n as nat * t;
        proof {
            digits::lemma_two_pow_positive(1074);
            lemma_nearest_range(u, 1);
        }
        if n == 0 {
            proof {
                assert(0 * t == 0);
                lemma_nearest_zero(1);
            }
            return Scalar { bits: 0 };
        }
        let m: u64 = pack(n as u128, 1074, false);
        proof {
            assert(digits::two_pow(0) == 1);
            assert(u * 1 == u);
            assert(1 * t == t);
            lemma_fundamental_div_mod_converse(u as int, t as int, n as int, 0);
            lemma_pattern(u, 1, n as nat, 1074, 0, false);
        }
        Scalar::with_sign(false, m)
    }
}

} // verus!
