//! What rounding keeps.

use vstd::prelude::*;
use vstd::arithmetic::div_mod::lemma_fundamental_div_mod;
use crate::arith;
use crate::digits;
use crate::geometry::{Point, Transform};
use crate::scalar;
use crate::scalar::{Scalar, FRACTION_RANGE, ONE_BITS, SIGN_BIT};

verus! {

/// The binade of a ratio is the least scale at which it fits the significand.
pub proof fn lemma_binade_bounds(n: nat, d: nat)
    requires
        d > 0,
    ensures
        n < d * digits::two_pow(53 + arith::binade(n, d)),
        arith::binade(n, d) > 0 ==> n >= d * digits::two_pow((52 + arith::binade(n, d)) as nat),
    decreases n - d,
{
    arith::lemma_two_pow_53();
    if n < d * digits::two_pow(53) {
        assert(arith::binade(n, d) == 0);
    } else {
        assert(d * digits::two_pow(53) >= 2 * d) by (nonlinear_arith)
            requires
                digits::two_pow(53) >= 2,
        ;
        let k = arith::binade(n, 2 * d);
        assert(arith::binade(n, d) == 1 + k);
        lemma_binade_bounds(n, 2 * d);
        assert(digits::two_pow(53 + (k + 1)) == 2 * digits::two_pow(53 + k));
        let p = digits::two_pow(53 + k);
        assert((2 * d) * p == d * (2 * p)) by (nonlinear_arith);
        if k > 0 {
            assert(digits::two_pow((52 + (k + 1)) as nat) == 2 * digits::two_pow((52 + k) as nat));
            let q = digits::two_pow((52 + k) as nat);
            assert((2 * d) * q == d * (2 * q)) by (nonlinear_arith);
        }
    }
}

/// Rounding to an integer keeps the order.
pub proof fn lemma_half_even_monotone(a: nat, b: nat, c: nat, d: nat)
    requires
        b > 0,
        d > 0,
        a * d <= c * b,
    ensures
        scalar::half_even(a, b) <= scalar::half_even(c, d),
{
    let q = a / b;
    let r = a % b;
    let s = c / d;
    let t = c % d;
    lemma_fundamental_div_mod(a as int, b as int);
    lemma_fundamental_div_mod(c as int, d as int);
    assert(a == q * b + r && c == s * d + t) by (nonlinear_arith)
        requires
            a == b * q + r,
            c == d * s + t,
    ;
    if q > s {
        assert(false) by (nonlinear_arith)
            requires
                a * d <= c * b,
                a == q * b + r,
                c == s * d + t,
                q >= s + 1,
                t < d,
                r >= 0,
                b > 0,
                d > 0,
        ;
    } else if q == s {
        assert(r * d <= t * b) by (nonlinear_arith)
            requires
                a * d <= c * b,
                a == q * b + r,
                c == s * d + t,
                q == s,
        ;
        if 2 * r > b {
            assert(2 * t > d) by (nonlinear_arith)
                requires
                    r * d <= t * b,
                    2 * r > b,
                    b > 0,
                    d > 0,
            ;
        } else if 2 * r == b {
            assert(2 * t >= d) by (nonlinear_arith)
                requires
                    r * d <= t * b,
                    2 * r == b,
                    b > 0,
                    d > 0,
            ;
        }
    }
}

/// Rounding keeps the order: a larger value never rounds to a smaller number.
pub proof fn law_rounding_is_monotone(a: nat, b: nat, c: nat, d: nat)
    requires
        b > 0,
        d > 0,
        a * d <= c * b,
    ensures
        arith::nearest(a, b) <= arith::nearest(c, d),
{
    let j = arith::binade(a, b);
    let k = arith::binade(c, d);
    lemma_binade_bounds(a, b);
    lemma_binade_bounds(c, d);
    arith::lemma_two_pow_53();
    digits::lemma_two_pow_positive(j);
    digits::lemma_two_pow_positive(k);
    let f = FRACTION_RANGE as nat;
    let x = b * digits::two_pow(j);
    let y = d * digits::two_pow(k);
    assert(x > 0 && y > 0) by (nonlinear_arith)
        requires
            x == b * digits::two_pow(j),
            y == d * digits::two_pow(k),
            b > 0,
            d > 0,
            digits::two_pow(j) > 0,
            digits::two_pow(k) > 0,
    ;
    if j == k {
        let p = digits::two_pow(j);
        assert(a * y <= c * x) by (nonlinear_arith)
            requires
                a * d <= c * b,
                x == b * p,
                y == d * p,
                p > 0,
        ;
        lemma_half_even_monotone(a, x, c, y);
    } else if j < k {
        // The lesser value rounds to at most `2^53` units in its last place, the greater one to
        // at least `2^52`.
        digits::lemma_two_pow_adds(53, j);
        digits::lemma_two_pow_adds(52, k);
        let p = digits::two_pow(j);
        let q = digits::two_pow(k);
        assert(a * 1 <= (2 * f) * x) by (nonlinear_arith)
            requires
                a < b * ((2 * f) * p),
                x == b * p,
        ;
        lemma_half_even_monotone(a, x, 2 * f, 1);
        assert(f * y <= c * 1) by (nonlinear_arith)
            requires
                c >= d * (f * q),
                y == d * q,
        ;
        lemma_half_even_monotone(f, 1, c, y);
        scalar::lemma_half_even_exact(2 * f, 1);
        scalar::lemma_half_even_exact(f, 1);
        assert(j * f + 2 * f <= k * f + f) by (nonlinear_arith)
            requires
                j + 1 <= k,
        ;
    } else {
        digits::lemma_two_pow_monotone((53 + k) as nat, (52 + j) as nat);
        let p = digits::two_pow((52 + j) as nat);
        let q = digits::two_pow((53 + k) as nat);
        assert(false) by (nonlinear_arith)
            requires
                a * d <= c * b,
                a >= b * p,
                c < d * q,
                q <= p,
                b > 0,
                d > 0,
        ;
    }
}

/// A value that is a number rounds to itself.
pub proof fn law_rounding_keeps_numbers(a: Scalar, c: nat)
    requires
        a.finite(),
        c > 0,
    ensures
        arith::nearest(a.abs_units() * c, c) == a.magnitude(),
{
    let s = a.significand();
    let k = a.scale();
    let p = digits::two_pow(k);
    let n = a.abs_units() * c;
    arith::lemma_fields(a);
    arith::lemma_two_pow_53();
    digits::lemma_two_pow_positive(k);
    digits::lemma_two_pow_adds(53, k);
    assert(n < c * digits::two_pow(53 + k)) by (nonlinear_arith)
        requires
            n == (s * p) * c,
            s < digits::two_pow(53),
            digits::two_pow(53 + k) == digits::two_pow(53) * p,
            p > 0,
            c > 0,
    ;
    if k > 0 {
        digits::lemma_two_pow_adds(52, k);
        assert(n >= c * digits::two_pow((52 + k) as nat)) by (nonlinear_arith)
            requires
                n == (s * p) * c,
                s >= digits::two_pow(52),
                digits::two_pow((52 + k) as nat) == digits::two_pow(52) * p,
                p > 0,
                c > 0,
        ;
    }
    arith::lemma_binade(n, c, k);
    let d = c * p;
    assert(n == s * d && d > 0) by (nonlinear_arith)
        requires
            n == (s * p) * c,
            d == c * p,
            c > 0,
            p > 0,
    ;
    scalar::lemma_half_even_exact(s, d);
}

/// The value of `1.0`.
pub proof fn lemma_one()
    ensures
        (Scalar { bits: ONE_BITS }).finite(),
        !(Scalar { bits: ONE_BITS }).negative(),
        (Scalar { bits: ONE_BITS }).abs_units() == digits::two_pow(1074),
{
    let one = Scalar { bits: ONE_BITS };
    arith::lemma_two_pow_53();
    digits::lemma_two_pow_adds(52, 1022);
    assert(one.scale() == 1022 && one.significand() == FRACTION_RANGE);
}

/// A number is its sign and its magnitude.
pub proof fn lemma_signed(a: Scalar)
    ensures
        Scalar::signed(a.negative(), a.magnitude()) == a,
{
}

/// A number times 1 is the number.
pub proof fn law_one_is_neutral(a: Scalar)
    requires
        a.finite(),
    ensures
        a.product(Scalar { bits: ONE_BITS }) == a,
        (Scalar { bits: ONE_BITS }).product(a) == a,
{
    reveal(Scalar::product);
    lemma_one();
    digits::lemma_two_pow_positive(1074);
    let u = digits::two_pow(1074);
    law_rounding_keeps_numbers(a, u);
    assert(a.abs_units() * u == u * a.abs_units()) by (nonlinear_arith);
    lemma_signed(a);
}

/// A number plus 0 is the number, and zeros add up to zero.
pub proof fn law_zero_is_neutral(a: Scalar, z: Scalar)
    requires
        a.finite(),
        z.magnitude() == 0,
    ensures
        a.magnitude() != 0 ==> a.sum(z) == a && z.sum(a) == a,
        a.magnitude() == 0 ==> a.sum(z).magnitude() == 0 && z.sum(a).magnitude() == 0,
{
    reveal(Scalar::sum);
    scalar::lemma_zero(a);
    scalar::lemma_zero(z);
    law_rounding_keeps_numbers(a, 1);
    assert(a.abs_units() * 1 == a.abs_units());
    arith::lemma_nearest_zero(1);
    lemma_signed(a);
}

/// Zero times a finite number is zero.
pub proof fn law_zero_absorbs(a: Scalar, z: Scalar)
    requires
        a.finite(),
        z.magnitude() == 0,
    ensures
        a.product(z).magnitude() == 0,
        z.product(a).magnitude() == 0,
{
    reveal(Scalar::product);
    scalar::lemma_zero(z);
    digits::lemma_two_pow_positive(1074);
    arith::lemma_nearest_zero(digits::two_pow(1074));
    assert(a.abs_units() * 0 == 0);
    assert(0 * a.abs_units() == 0);
}

/// Rounding an exact value between two numbers gives a number between them.
pub proof fn lemma_between(n: nat, d: nat, lo: Scalar, hi: Scalar)
    requires
        d > 0,
        lo.finite(),
        hi.finite(),
        lo.abs_units() * d <= n,
        n <= hi.abs_units() * d,
    ensures
        lo.magnitude() <= arith::nearest(n, d) <= hi.magnitude(),
{
    law_rounding_keeps_numbers(lo, 1);
    law_rounding_keeps_numbers(hi, 1);
    assert(lo.abs_units() * 1 == lo.abs_units() && hi.abs_units() * 1 == hi.abs_units());
    assert(n * 1 == n);
    law_rounding_is_monotone(lo.abs_units(), 1, n, d);
    law_rounding_is_monotone(n, d, hi.abs_units(), 1);
}

/// The number with a given scale and a full significand.
pub proof fn lemma_assembled(k: nat, sig: nat)
    requires
        FRACTION_RANGE <= sig < 2 * FRACTION_RANGE,
        k <= 2045,
    ensures
        ({
            let a = Scalar { bits: (k * FRACTION_RANGE + sig) as u64 };
            &&& a.finite()
            &&& !a.negative()
            &&& a.scale() == k
            &&& a.significand() == sig
        }),
{
    let f = FRACTION_RANGE as int;
    let m = k * FRACTION_RANGE + sig;
    assert(m == (k + 1) * f + (sig - f)) by (nonlinear_arith)
        requires
            m == k * f + sig,
    ;
    assert((k + 1) * f <= 2046 * f) by (nonlinear_arith)
        requires
            k <= 2045,
            f > 0,
    ;
    vstd::arithmetic::div_mod::lemma_fundamental_div_mod_converse(
        m as int,
        f,
        (k + 1) as int,
        sig - f,
    );
}

/// Integers up to `2^53` are numbers.
pub proof fn law_small_integers_are_exact(n: nat)
    requires
        n < 2 * FRACTION_RANGE,
    ensures
        Scalar::integer(n).finite(),
        !Scalar::integer(n).negative(),
        Scalar::integer(n).abs_units() == n * digits::two_pow(1074),
{
    reveal(Scalar::integer);
    let u = digits::two_pow(1074);
    if n == 0 {
        arith::lemma_nearest_zero(1);
        assert(0 * u == 0);
        scalar::lemma_zero(Scalar { bits: 0 });
    } else {
        let l = arith::bit_length(n);
        arith::lemma_bit_length(n);
        arith::lemma_two_pow_53();
        if l > 53 {
            digits::lemma_two_pow_monotone(53, (l - 1) as nat);
        }
        let k = (l + 1021) as nat;
        let e = (53 - l) as nat;
        let p = digits::two_pow(e);
        let q = digits::two_pow(k);
        let sig = n * p;
        digits::lemma_two_pow_adds(e, k);
        digits::lemma_two_pow_adds(e, l);
        digits::lemma_two_pow_adds(e, (l - 1) as nat);
        digits::lemma_two_pow_positive(e);
        digits::lemma_two_pow_positive(k);
        assert(u == p * q);
        let hi = digits::two_pow(l);
        let lo = digits::two_pow((l - 1) as nat);
        assert(sig < 2 * FRACTION_RANGE && sig >= FRACTION_RANGE) by (nonlinear_arith)
            requires
                sig == n * p,
                lo <= n < hi,
                p > 0,
                p * hi == 2 * FRACTION_RANGE,
                p * lo == FRACTION_RANGE,
        ;
        let a = Scalar { bits: (k * FRACTION_RANGE + sig) as u64 };
        lemma_assembled(k, sig);
        assert(n * (p * q) == (n * p) * q) by (nonlinear_arith);
        assert(a.abs_units() == n * u);
        law_rounding_keeps_numbers(a, 1);
        assert(a.abs_units() * 1 == a.abs_units());
        lemma_signed(a);
    }
}

/// The order of numbers is that of their magnitudes.
pub proof fn lemma_order(a: Scalar, b: Scalar)
    ensures
        a.magnitude() <= b.magnitude() <==> a.abs_units() <= b.abs_units(),
{
    if a.magnitude() < b.magnitude() {
        scalar::lemma_magnitude_order(a, b);
    } else if b.magnitude() < a.magnitude() {
        scalar::lemma_magnitude_order(b, a);
    }
}

/// The magnitude pattern of a sum or product is that of a number.
pub proof fn lemma_signed_magnitude(negative: bool, m: int)
    requires
        0 <= m < SIGN_BIT,
    ensures
        Scalar::signed(negative, m).magnitude() == m,
        Scalar::signed(negative, m).negative() == negative,
{
}

/// Adding a number that is not negative does not make a number smaller, and taking it away does
/// not make it larger.
pub proof fn law_adding_does_not_shrink(a: Scalar, b: Scalar)
    requires
        a.finite(),
        b.finite(),
        b.units() >= 0,
    ensures
        !a.sum(b).nan(),
        a.units() <= a.sum(b).units(),
        !a.difference(b).nan(),
        a.difference(b).units() <= a.units(),
{
    lemma_sum_bound(a, b);
    let n = b.negated();
    assert(n.abs_units() == b.abs_units() && n.units() == -b.units());
    lemma_difference_bound(a, n);
}

proof fn lemma_sum_bound(a: Scalar, b: Scalar)
    requires
        a.finite(),
        b.finite(),
        b.units() >= 0,
    ensures
        !a.sum(b).nan(),
        a.units() <= a.sum(b).units(),
{
    reveal(Scalar::sum);
    let u = a.units() + b.units();
    let s = a.sum(b);
    law_rounding_keeps_numbers(a, 1);
    assert(a.abs_units() * 1 == a.abs_units());
    if u > 0 {
        let m = arith::nearest(u as nat, 1);
        arith::lemma_nearest_range(u as nat, 1);
        lemma_signed_magnitude(false, m);
        assert(s.magnitude() == m && !s.negative());
        if !a.negative() {
            law_rounding_is_monotone(a.abs_units(), 1, u as nat, 1);
            lemma_order(a, s);
        }
    } else if u < 0 {
        let m = arith::nearest((-u) as nat, 1);
        arith::lemma_nearest_range((-u) as nat, 1);
        lemma_signed_magnitude(true, m);
        assert(s.magnitude() == m && s.negative());
        law_rounding_is_monotone((-u) as nat, 1, a.abs_units(), 1);
        lemma_order(s, a);
    } else {
        arith::lemma_nearest_zero(1);
        scalar::lemma_zero(s);
    }
}

proof fn lemma_difference_bound(a: Scalar, b: Scalar)
    requires
        a.finite(),
        b.finite(),
        b.units() <= 0,
    ensures
        !a.sum(b).nan(),
        a.sum(b).units() <= a.units(),
{
    reveal(Scalar::sum);
    let u = a.units() + b.units();
    let s = a.sum(b);
    law_rounding_keeps_numbers(a, 1);
    assert(a.abs_units() * 1 == a.abs_units());
    if u > 0 {
        let m = arith::nearest(u as nat, 1);
        arith::lemma_nearest_range(u as nat, 1);
        lemma_signed_magnitude(false, m);
        assert(s.magnitude() == m && !s.negative());
        law_rounding_is_monotone(u as nat, 1, a.abs_units(), 1);
        lemma_order(s, a);
    } else if u < 0 {
        let m = arith::nearest((-u) as nat, 1);
        arith::lemma_nearest_range((-u) as nat, 1);
        lemma_signed_magnitude(true, m);
        assert(s.magnitude() == m && s.negative());
        if a.negative() {
            law_rounding_is_monotone(a.abs_units(), 1, (-u) as nat, 1);
            lemma_order(a, s);
        }
    } else {
        arith::lemma_nearest_zero(1);
        scalar::lemma_zero(s);
    }
}

/// A sum that is at least a number in exact terms is so after rounding.
pub proof fn law_sums_keep_lower_bounds(a: Scalar, b: Scalar, c: Scalar)
    requires
        a.finite(),
        b.finite(),
        c.finite(),
        0 <= c.units() <= a.units() + b.units(),
    ensures
        !a.sum(b).nan(),
        c.units() <= a.sum(b).units(),
{
    reveal(Scalar::sum);
    let u = a.units() + b.units();
    let s = a.sum(b);
    scalar::lemma_zero(c);
    if u > 0 {
        let m = arith::nearest(u as nat, 1);
        arith::lemma_nearest_range(u as nat, 1);
        lemma_signed_magnitude(false, m);
        law_rounding_keeps_numbers(c, 1);
        assert(c.abs_units() * 1 == c.abs_units());
        law_rounding_is_monotone(c.abs_units(), 1, u as nat, 1);
        lemma_order(c, s);
    } else {
        lemma_signed_magnitude(a.negative() && b.negative(), 0);
        scalar::lemma_zero(s);
    }
}

/// A sum is the exact sum, rounded, with its sign.
pub proof fn lemma_sum_value(a: Scalar, b: Scalar)
    requires
        a.finite(),
        b.finite(),
    ensures
        ({
            let u = a.units() + b.units();
            let s = a.sum(b);
            &&& !s.nan()
            &&& u == 0 ==> s.units() == 0 && s.finite()
            &&& u > 0 ==> !s.negative() && s.magnitude() == arith::nearest(u as nat, 1)
            &&& u < 0 ==> s.negative() && s.magnitude() == arith::nearest((-u) as nat, 1)
        }),
{
    reveal(Scalar::sum);
    let u = a.units() + b.units();
    let s = a.sum(b);
    if u > 0 {
        arith::lemma_nearest_range(u as nat, 1);
        lemma_signed_magnitude(false, arith::nearest(u as nat, 1));
    } else if u < 0 {
        arith::lemma_nearest_range((-u) as nat, 1);
        lemma_signed_magnitude(true, arith::nearest((-u) as nat, 1));
    } else {
        lemma_signed_magnitude(a.negative() && b.negative(), 0);
        scalar::lemma_zero(s);
    }
}

/// A sum that is at most a number in exact terms is so after rounding.
pub proof fn law_sums_keep_upper_bounds(a: Scalar, b: Scalar, c: Scalar)
    requires
        a.finite(),
        b.finite(),
        c.finite(),
        0 <= c.units(),
        a.units() + b.units() <= c.units(),
    ensures
        a.sum(b).units() <= c.units(),
{
    let u = a.units() + b.units();
    lemma_sum_value(a, b);
    scalar::lemma_zero(c);
    if u > 0 {
        law_rounding_keeps_numbers(c, 1);
        assert(c.abs_units() * 1 == c.abs_units());
        law_rounding_is_monotone(u as nat, 1, c.abs_units(), 1);
        lemma_order(a.sum(b), c);
    }
}

/// Adding the same number to two numbers keeps their order.
pub proof fn law_sums_keep_order(a: Scalar, b: Scalar, c: Scalar)
    requires
        a.finite(),
        b.finite(),
        c.finite(),
        a.units() <= b.units(),
    ensures
        !a.sum(c).nan(),
        !b.sum(c).nan(),
        a.sum(c).units() <= b.sum(c).units(),
{
    let s = a.sum(c);
    let t = b.sum(c);
    let u = a.units() + c.units();
    let v = b.units() + c.units();
    lemma_sum_value(a, c);
    lemma_sum_value(b, c);
    if u > 0 {
        law_rounding_is_monotone(u as nat, 1, v as nat, 1);
        lemma_order(s, t);
    } else if v < 0 {
        law_rounding_is_monotone((-v) as nat, 1, (-u) as nat, 1);
        lemma_order(t, s);
    }
}

/// A positive number times a number that is at least 1 does not get smaller.
pub proof fn law_scaling_up_does_not_shrink(a: Scalar, b: Scalar)
    requires
        (Scalar { bits: 0 }).less(a),
        !b.less(Scalar { bits: ONE_BITS }),
        !b.nan(),
    ensures
        !a.product(b).nan(),
        a.units() <= a.product(b).units(),
{
    reveal(Scalar::product);
    let zero = Scalar { bits: 0 };
    let one = Scalar { bits: ONE_BITS };
    let u = digits::two_pow(1074);
    let r = a.product(b);
    scalar::lemma_zero(zero);
    scalar::lemma_zero(a);
    scalar::lemma_zero(b);
    scalar::lemma_zero(r);
    lemma_one();
    digits::lemma_two_pow_positive(1074);
    if a.infinite() || b.infinite() {
        lemma_signed_magnitude(false, arith::INFINITY_BITS as int);
    } else {
        let n = a.abs_units() * b.abs_units();
        let m = arith::nearest(n, u);
        arith::lemma_nearest_range(n, u);
        lemma_signed_magnitude(false, m);
        law_rounding_keeps_numbers(a, u);
        assert((a.abs_units() * u) * u <= n * u) by (nonlinear_arith)
            requires
                n == a.abs_units() * b.abs_units(),
                b.abs_units() >= u,
                u > 0,
        ;
        law_rounding_is_monotone(a.abs_units() * u, u, n, u);
    }
    lemma_order(a, r);
}

/// The factors of a product can be exchanged.
pub proof fn law_product_commutes(a: Scalar, b: Scalar)
    ensures
        a.product(b) == b.product(a),
{
    reveal(Scalar::product);
    assert(a.abs_units() * b.abs_units() == b.abs_units() * a.abs_units()) by (nonlinear_arith);
}

/// A sum whose exact value is a number is that number.
pub proof fn law_exact_sums_are_kept(a: Scalar, b: Scalar, c: Scalar)
    requires
        a.finite(),
        b.finite(),
        c.finite(),
        a.units() + b.units() == c.units(),
    ensures
        a.sum(b).finite(),
        a.sum(b).units() == c.units(),
{
    reveal(Scalar::sum);
    law_rounding_keeps_numbers(c, 1);
    assert(c.abs_units() * 1 == c.abs_units());
    lemma_signed_magnitude(c.units() < 0, c.magnitude());
    lemma_signed_magnitude(a.negative() && b.negative(), 0);
    scalar::lemma_zero(a.sum(b));
    scalar::lemma_zero(c);
    lemma_order(a.sum(b), c);
}

/// A number plus 0 has the value of the number.
pub proof fn lemma_plus_zero(a: Scalar, z: Scalar)
    requires
        a.finite(),
        z.magnitude() == 0,
    ensures
        a.sum(z).finite(),
        a.sum(z).units() == a.units(),
        z.sum(a).finite(),
        z.sum(a).units() == a.units(),
{
    scalar::lemma_zero(z);
    law_exact_sums_are_kept(a, z, a);
    law_exact_sums_are_kept(z, a, a);
}

/// The identity keeps every point.
pub proof fn law_identity_keeps_points(t: Transform, p: Point)
    requires
        t.a.bits == ONE_BITS,
        t.b.bits == 0,
        t.c.bits == 0,
        t.d.bits == ONE_BITS,
        t.e.bits == 0,
        t.f.bits == 0,
        p.finite(),
    ensures
        t.image(p).x.units() == p.x.units(),
        t.image(p).y.units() == p.y.units(),
{
    law_one_is_neutral(p.x);
    law_one_is_neutral(p.y);
    law_zero_absorbs(p.x, t.b);
    law_zero_absorbs(p.y, t.c);
    lemma_plus_zero(p.x, t.c.product(p.y));
    lemma_plus_zero(p.y, t.b.product(p.x));
    lemma_plus_zero(p.x.sum(t.c.product(p.y)), t.e);
    lemma_plus_zero(t.b.product(p.x).sum(p.y), t.f);
    assert(t.a == Scalar { bits: ONE_BITS } && t.d == Scalar { bits: ONE_BITS });
}

} // verus!
