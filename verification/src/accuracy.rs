//! How far rounding moves a value.
//!
//! Values are multiples of `2^-1074`, and each operation is off by at most one part in `2^53` of
//! its exact result, or by half of the smallest positive number.

use vstd::prelude::*;
use vstd::arithmetic::div_mod::lemma_fundamental_div_mod;
use vstd::math::abs;
use crate::arith;
use crate::arith::INFINITY_BITS;
use crate::digits;
use crate::laws;
use crate::scalar;
use crate::scalar::{Scalar, FRACTION_RANGE};

verus! {

/// Twice the number of fractions, `2^53`: one rounding is off by one part in so many.
pub const PARTS: u64 = 0x20_0000_0000_0000;

/// `x` lies between `-e` and `e`.
pub open spec fn within(x: int, e: int) -> bool {
    -e <= x <= e
}

/// A magnitude pattern is that of the significand at its scale.
proof fn lemma_pattern_value(a: Scalar, k: nat, q: nat)
    requires
        a.magnitude() == k * FRACTION_RANGE + q,
        q <= 2 * FRACTION_RANGE,
        k > 0 ==> q >= FRACTION_RANGE,
        a.magnitude() < INFINITY_BITS,
    ensures
        a.finite(),
        a.abs_units() == q * digits::two_pow(k),
{
    arith::lemma_fields(a);
    let f = FRACTION_RANGE as nat;
    let s = a.scale();
    let g = a.significand();
    let p = digits::two_pow(k);
    if q == 2 * f {
        assert(s == k + 1 && g == f) by (nonlinear_arith)
            requires
                s * f + g == k * f + 2 * f,
                g < 2 * f,
                s > 0 ==> g >= f,
                f > 0,
                s >= 0,
                k >= 0,
        ;
        assert(digits::two_pow(k + 1) == 2 * p);
        assert(f * (2 * p) == (2 * f) * p) by (nonlinear_arith);
    } else {
        assert(s == k && g == q) by (nonlinear_arith)
            requires
                s * f + g == k * f + q,
                g < 2 * f,
                q < 2 * f,
                s > 0 ==> g >= f,
                k > 0 ==> q >= f,
                f > 0,
                s >= 0,
                k >= 0,
        ;
    }
}

/// An integer nearest to a ratio is off by at most one half.
proof fn lemma_half_even_error(a: nat, b: nat)
    requires
        b > 0,
    ensures
        within(2 * (scalar::half_even(a, b) * b - a), b as int),
        b == 1 ==> scalar::half_even(a, b) == a,
{
    let q = a / b;
    let r = a % b;
    lemma_fundamental_div_mod(a as int, b as int);
    assert(q * b == a - r && (q + 1) * b == a - r + b) by (nonlinear_arith)
        requires
            a == b * q + r,
    ;
}

/// Rounding is off by at most one part in `2^53`, or by half a unit.
pub proof fn lemma_nearest_error(n: nat, d: nat, a: Scalar)
    requires
        d > 0,
        a.magnitude() == arith::nearest(n, d),
        a.magnitude() < INFINITY_BITS,
    ensures
        a.finite(),
        within((a.abs_units() * d - n) * PARTS, n + d * FRACTION_RANGE),
        d == 1 ==> within((a.abs_units() - n) * PARTS, n as int),
{
    let k = arith::binade(n, d);
    let p = digits::two_pow(k);
    let b = d * p;
    let q = scalar::half_even(n, b);
    let f = FRACTION_RANGE as nat;
    laws::lemma_binade_bounds(n, d);
    arith::lemma_two_pow_53();
    digits::lemma_two_pow_positive(k);
    digits::lemma_two_pow_adds(53, k);
    assert(b > 0) by (nonlinear_arith)
        requires
            b == d * p,
            d > 0,
            p > 0,
    ;
    lemma_half_even_error(n, b);
    assert(q <= 2 * f) by {
        assert(n * 1 <= (2 * f) * b) by (nonlinear_arith)
            requires
                n < d * ((2 * f) * p),
                b == d * p,
        ;
        laws::lemma_half_even_monotone(n, b, 2 * f, 1);
        scalar::lemma_half_even_exact(2 * f, 1);
    }
    if k > 0 {
        digits::lemma_two_pow_adds(52, k);
        assert(f * b <= n * 1) by (nonlinear_arith)
            requires
                n >= d * (f * p),
                b == d * p,
        ;
        laws::lemma_half_even_monotone(f, 1, n, b);
        scalar::lemma_half_even_exact(f, 1);
    }
    lemma_pattern_value(a, k, q);
    let v = a.abs_units();
    let x = v * d - n;
    assert(x == q * b - n) by (nonlinear_arith)
        requires
            v == q * p,
            b == d * p,
            x == v * d - n,
    ;
    assert(within(x * PARTS, (b * f) as int)) by (nonlinear_arith)
        requires
            within(2 * x, b as int),
            PARTS == 2 * f,
            f > 0,
    ;
    if k > 0 {
        assert(b * f == f * b) by (nonlinear_arith);
    } else {
        assert(p == 1);
        assert(d * p == d) by (nonlinear_arith)
            requires
                p == 1,
        ;
    }
    if d == 1 {
        assert(v * d == v) by (nonlinear_arith)
            requires
                d == 1,
        ;
    }
}

/// A ratio up to a power of two that is a number rounds to a number up to that power.
pub proof fn lemma_nearest_bound(n: nat, d: nat, a: Scalar, e: nat)
    requires
        d > 0,
        a.magnitude() == arith::nearest(n, d),
        52 <= e <= 2097,
        n <= d * digits::two_pow(e),
    ensures
        a.magnitude() < INFINITY_BITS,
        a.finite(),
        a.abs_units() <= digits::two_pow(e),
{
    let f = FRACTION_RANGE as nat;
    let k = (e - 52) as nat;
    let hi = Scalar { bits: (k * FRACTION_RANGE + f) as u64 };
    laws::lemma_assembled(k, f);
    digits::lemma_two_pow_adds(52, k);
    arith::lemma_two_pow_53();
    let t = hi.abs_units();
    assert(t == digits::two_pow(e));
    assert(n * 1 <= t * d) by (nonlinear_arith)
        requires
            n <= d * t,
    ;
    laws::law_rounding_is_monotone(n, d, t, 1);
    laws::law_rounding_keeps_numbers(hi, 1);
    assert(t * 1 == t);
    arith::lemma_fields(hi);
    laws::lemma_order(a, hi);
    assert(hi.magnitude() < INFINITY_BITS);
}

/// A sum is off by at most one part in `2^53` of the exact sum.
pub proof fn law_sum_error(a: Scalar, b: Scalar)
    requires
        a.sum(b).finite(),
    ensures
        a.finite(),
        b.finite(),
        within(
            (a.sum(b).units() - (a.units() + b.units())) * PARTS,
            abs(a.units() + b.units()) as int,
        ),
{
    reveal(Scalar::sum);
    assert(a.finite() && b.finite());
    let u = a.units() + b.units();
    let s = a.sum(b);
    let n = abs(u);
    laws::lemma_sum_value(a, b);
    if u != 0 {
        lemma_finite_pattern(s);
        lemma_nearest_error(n, 1, s);
        let v = s.abs_units();
        if u < 0 {
            assert((s.units() - u) * PARTS == -((v - n) * PARTS)) by (nonlinear_arith)
                requires
                    s.units() == -v,
                    u == -n,
            ;
        }
    }
}

proof fn lemma_finite_pattern(a: Scalar)
    requires
        a.finite(),
    ensures
        a.magnitude() < INFINITY_BITS,
{
    arith::lemma_fields(a);
}

/// A sum up to a power of two that is a number is finite after rounding, and up to it.
pub proof fn law_sums_stay_finite(a: Scalar, b: Scalar, e: nat)
    requires
        a.finite(),
        b.finite(),
        52 <= e <= 2097,
        abs(a.units() + b.units()) <= digits::two_pow(e),
    ensures
        a.sum(b).finite(),
        a.sum(b).abs_units() <= digits::two_pow(e),
{
    let u = a.units() + b.units();
    laws::lemma_sum_value(a, b);
    if u != 0 {
        assert(1 * digits::two_pow(e) == digits::two_pow(e));
        lemma_nearest_bound(abs(u), 1, a.sum(b), e);
    }
}

/// A product is the exact product, rounded, with its sign.
pub proof fn lemma_product_value(a: Scalar, b: Scalar)
    requires
        a.finite(),
        b.finite(),
    ensures
        a.product(b).magnitude() == arith::nearest(
            abs(a.units() * b.units()),
            digits::two_pow(1074),
        ),
        a.units() * b.units() < 0 ==> a.product(b).negative(),
        a.units() * b.units() > 0 ==> !a.product(b).negative(),
{
    reveal(Scalar::product);
    let x = a.abs_units();
    let y = b.abs_units();
    let n = x * y;
    let m = a.units() * b.units();
    let negative = a.negative() != b.negative();
    assert(m == if negative {
        -(n as int)
    } else {
        n as int
    }) by (nonlinear_arith)
        requires
            m == a.units() * b.units(),
            n == x * y,
            a.units() == if a.negative() {
                -(x as int)
            } else {
                x as int
            },
            b.units() == if b.negative() {
                -(y as int)
            } else {
                y as int
            },
            negative == (a.negative() != b.negative()),
    ;
    let u = digits::two_pow(1074);
    assert(abs(m) == n);
    arith::lemma_nearest_range(n, u);
    laws::lemma_signed_magnitude(negative, arith::nearest(n, u));
}

/// A product is off by at most one part in `2^53` of the exact product, or by half a unit.
pub proof fn law_product_error(a: Scalar, b: Scalar)
    requires
        a.product(b).finite(),
    ensures
        a.finite(),
        b.finite(),
        within(
            (a.product(b).units() * digits::two_pow(1074) - a.units() * b.units()) * PARTS,
            abs(a.units() * b.units()) + digits::two_pow(1074) * FRACTION_RANGE,
        ),
{
    assert(a.finite() && b.finite()) by {
        reveal(Scalar::product);
        laws::lemma_signed_magnitude(a.negative() != b.negative(), INFINITY_BITS as int);
    }
    let u = digits::two_pow(1074);
    let r = a.product(b);
    let m = a.units() * b.units();
    let n = abs(m);
    digits::lemma_two_pow_positive(1074);
    lemma_product_value(a, b);
    lemma_finite_pattern(r);
    lemma_nearest_error(n, u, r);
    let v = r.abs_units();
    if m < 0 {
        assert((r.units() * u - m) * PARTS == -((v * u - n) * PARTS)) by (nonlinear_arith)
            requires
                r.units() == -v,
                m == -n,
        ;
    } else if m == 0 {
        arith::lemma_nearest_zero(u);
        scalar::lemma_zero(r);
    }
}

/// A product up to a power of two that is a number is finite after rounding, and up to it.
pub proof fn law_products_stay_finite(a: Scalar, b: Scalar, e: nat)
    requires
        a.finite(),
        b.finite(),
        52 <= e <= 2097,
        abs(a.units() * b.units()) <= digits::two_pow(1074) * digits::two_pow(e),
    ensures
        a.product(b).finite(),
        a.product(b).abs_units() <= digits::two_pow(e),
{
    digits::lemma_two_pow_positive(1074);
    lemma_product_value(a, b);
    lemma_nearest_bound(abs(a.units() * b.units()), digits::two_pow(1074), a.product(b), e);
}

/// A quotient by a positive number is off by at most one part in `2^53` of the exact quotient,
/// or by half a unit.
pub proof fn law_quotient_error(a: Scalar, b: Scalar)
    requires
        b.finite(),
        b.units() > 0,
        a.quotient(b).finite(),
    ensures
        a.finite(),
        within(
            (a.quotient(b).units() * b.units() - a.units() * digits::two_pow(1074)) * PARTS,
            a.abs_units() * digits::two_pow(1074) + b.units() * FRACTION_RANGE,
        ),
{
    reveal(Scalar::quotient);
    let u = digits::two_pow(1074);
    let n = a.abs_units() * u;
    let d = b.abs_units();
    let r = a.quotient(b);
    scalar::lemma_zero(b);
    laws::lemma_signed_magnitude(a.negative(), INFINITY_BITS as int);
    assert(a.finite());
    arith::lemma_nearest_range(n, d);
    laws::lemma_signed_magnitude(a.negative(), arith::nearest(n, d));
    lemma_finite_pattern(r);
    lemma_nearest_error(n, d, r);
    let v = r.abs_units();
    if a.negative() {
        assert((r.units() * d - a.units() * u) * PARTS == -((v * d - n) * PARTS))
            by (nonlinear_arith)
            requires
                r.units() == -v,
                a.units() == -a.abs_units(),
                n == a.abs_units() * u,
        ;
    }
}

/// A quotient up to a power of two that is a number is finite after rounding, and up to it.
pub proof fn law_quotients_stay_finite(a: Scalar, b: Scalar, e: nat)
    requires
        a.finite(),
        b.finite(),
        b.units() > 0,
        52 <= e <= 2097,
        a.abs_units() * digits::two_pow(1074) <= b.units() * digits::two_pow(e),
    ensures
        a.quotient(b).finite(),
        a.quotient(b).abs_units() <= digits::two_pow(e),
{
    reveal(Scalar::quotient);
    let n = a.abs_units() * digits::two_pow(1074);
    let d = b.abs_units();
    scalar::lemma_zero(b);
    arith::lemma_nearest_range(n, d);
    laws::lemma_signed_magnitude(a.negative(), arith::nearest(n, d));
    lemma_nearest_bound(n, d, a.quotient(b), e);
}

/// A number that is at least twice another after rounding is so in exact terms.
pub proof fn law_doubling_is_exact(a: Scalar, r: Scalar)
    requires
        a.finite(),
        r.finite(),
        arith::nearest(2 * a.abs_units(), 1) <= r.magnitude(),
    ensures
        2 * a.abs_units() <= r.abs_units(),
{
    let f = FRACTION_RANGE as nat;
    let k = a.scale();
    let s = a.significand();
    let p = digits::two_pow(k);
    let n = 2 * a.abs_units();
    arith::lemma_fields(a);
    arith::lemma_two_pow_53();
    digits::lemma_two_pow_positive(k);
    lemma_finite_pattern(r);
    assert(2 * (s * p) == s * (2 * p) && 2 * (s * p) == (2 * s) * p) by (nonlinear_arith);
    if s >= f {
        assert(digits::two_pow(k + 1) == 2 * p);
        digits::lemma_two_pow_adds(53, k + 1);
        digits::lemma_two_pow_adds(52, k + 1);
        assert(n < 1 * ((2 * f) * (2 * p)) && n >= 1 * (f * (2 * p))) by (nonlinear_arith)
            requires
                n == s * (2 * p),
                f <= s < 2 * f,
                p > 0,
        ;
        arith::lemma_binade(n, 1, k + 1);
        assert(1 * (2 * p) == 2 * p);
        scalar::lemma_half_even_exact(s, 2 * p);
        let m = (k + 1) * f + s;
        assert(m == k * f + f + s) by (nonlinear_arith)
            requires
                m == (k + 1) * f + s,
        ;
        assert(m < INFINITY_BITS);
        let b = Scalar { bits: m as u64 };
        lemma_pattern_value(b, k + 1, s);
        laws::lemma_order(b, r);
    } else {
        assert(p == 1 && k == 0);
        let b = Scalar { bits: (2 * s) as u64 };
        assert(b.magnitude() == 0 * FRACTION_RANGE + 2 * s);
        lemma_pattern_value(b, 0, 2 * s);
        laws::law_rounding_keeps_numbers(b, 1);
        assert(b.abs_units() * 1 == b.abs_units());
        laws::lemma_order(b, r);
    }
}

/// Two numbers that differ do so by at least one part in `2^54` of the larger one.
pub proof fn law_numbers_are_spaced(a: Scalar, b: Scalar)
    requires
        a.finite(),
        b.finite(),
        a.units() != b.units(),
        b.abs_units() <= a.abs_units(),
    ensures
        a.abs_units() <= abs(a.units() - b.units()) * 0x40_0000_0000_0000,
{
    let f = FRACTION_RANGE as nat;
    let (k, j) = (a.scale(), b.scale());
    let (s, t) = (a.significand(), b.significand());
    let (p, q) = (digits::two_pow(k), digits::two_pow(j));
    arith::lemma_fields(a);
    arith::lemma_fields(b);
    digits::lemma_two_pow_positive(k);
    digits::lemma_two_pow_positive(j);
    let (x, y) = (a.abs_units(), b.abs_units());
    if a.negative() == b.negative() {
        assert(abs(a.units() - b.units()) == x - y);
        laws::lemma_order(a, b);
        laws::lemma_order(b, a);
        if k == j {
            assert(x - y >= p) by (nonlinear_arith)
                requires
                    x == s * p,
                    y == t * p,
                    x > y,
                    p > 0,
            ;
            assert(x <= (x - y) * 0x40_0000_0000_0000) by (nonlinear_arith)
                requires
                    x == s * p,
                    s < 0x20_0000_0000_0000,
                    x - y >= p,
            ;
        } else {
            assert(j < k) by {
                if j > k {
                    assert(j * f >= (k + 1) * f) by (nonlinear_arith)
                        requires
                            j >= k + 1,
                    ;
                    assert((k + 1) * f == k * f + f) by (nonlinear_arith);
                }
            }
            let h = digits::two_pow((k - 1) as nat);
            assert(p == 2 * h);
            digits::lemma_two_pow_positive((k - 1) as nat);
            digits::lemma_two_pow_monotone(j, (k - 1) as nat);
            assert(y <= (2 * f - 1) * h) by (nonlinear_arith)
                requires
                    y == t * q,
                    t <= 2 * f - 1,
                    q <= h,
                    q > 0,
            ;
            assert(x - y >= h) by (nonlinear_arith)
                requires
                    x == s * (2 * h),
                    s >= f,
                    y <= (2 * f - 1) * h,
                    h > 0,
            ;
            assert(x <= (x - y) * 0x40_0000_0000_0000) by (nonlinear_arith)
                requires
                    x == s * (2 * h),
                    s < 0x20_0000_0000_0000,
                    x - y >= h,
            ;
        }
    } else {
        assert(abs(a.units() - b.units()) == x + y);
    }
}

} // verus!
