//! How the limit on strokes is kept.
//!
//! Every attempt that finds too many lines at least doubles their distance, and raises it by the
//! number of lines over the limit. A limit of five or more is reached well within the attempts,
//! for every box and every distance.

use vstd::prelude::*;
use vstd::math::abs;
use crate::accuracy;
use crate::accuracy::{within, PARTS};
use crate::arith;
use crate::digits;
use crate::geometry::{Rect, Vec2, TWO_BITS};
use crate::laws;
use crate::rounding;
use crate::scalar;
use crate::scalar::{Scalar, FRACTION_RANGE, ONE_BITS};
use crate::sketch::fill;
use crate::sketch::fill::{affordable, coarsened, covering, index_count, limit_of, ATTEMPTS};
use crate::sketch::rough;
use crate::style;
use crate::style::{SketchFill, SketchFillStyle};

verus! {

/// The number of units in `1.0`.
pub open spec fn unit() -> nat {
    digits::two_pow(1074)
}

/// The factor by which the distance is raised.
spec fn raise(k: (Scalar, Scalar), max: Scalar) -> Scalar {
    index_count(k).quotient(max).ceiled().greatest(Scalar { bits: TWO_BITS })
}

/// The size of the places that the indices cover, with what rounding may add to it.
spec fn size(lo: int, hi: int) -> int {
    (if lo < hi {
        hi - lo
    } else {
        0
    }) * PARTS + 6 * reach(lo, hi)
}

/// How far the places lie from the origin at most.
spec fn reach(lo: int, hi: int) -> nat {
    if abs(lo) < abs(hi) {
        abs(hi)
    } else {
        abs(lo)
    }
}

/// At an infinite distance there are no indices.
proof fn lemma_infinite_gap(lo: Scalar, hi: Scalar, gap: Scalar, max: Scalar)
    requires
        gap.infinite(),
        !gap.negative(),
        !max.nan(),
        max.units() >= 0,
    ensures
        affordable(covering(lo, hi, gap), max),
{
    reveal(Scalar::sum);
    reveal(Scalar::quotient);
    reveal(Scalar::floored);
    reveal(Scalar::ceiled);
    let back = gap.negated();
    assert(back.magnitude() == gap.magnitude() && back.negative());
    let a = lo.difference(gap);
    assert(a.nan() || a.infinite());
    let k = covering(lo, hi, gap);
    assert(k.0.nan());
    assert(k.0.negated().magnitude() == k.0.magnitude());
    let d = k.1.difference(k.0);
    assert(d.nan());
    let c = d.sum(Scalar { bits: ONE_BITS });
    assert(c.nan());
    scalar::lemma_zero(Scalar { bits: 0 });
}

/// An infinite number of indices makes the distance infinite.
proof fn lemma_infinite_count(k: (Scalar, Scalar), gap: Scalar, max: Scalar)
    requires
        !affordable(k, max),
        !index_count(k).finite(),
        max.finite(),
        max.units() > 0,
        (Scalar { bits: 0 }).less(gap),
    ensures
        gap.product(raise(k, max)).infinite(),
        !gap.product(raise(k, max)).negative(),
{
    reveal(Scalar::quotient);
    reveal(Scalar::product);
    reveal(Scalar::ceiled);
    let c = index_count(k);
    let zero = Scalar { bits: 0 };
    let two = Scalar { bits: TWO_BITS };
    scalar::lemma_zero(zero);
    scalar::lemma_zero(max);
    scalar::lemma_zero(gap);
    assert(!c.nan());
    assert(!c.negative());
    assert(c.infinite());
    let q = c.quotient(max);
    assert(q.infinite() && !q.negative());
    assert(two.magnitude() < q.magnitude());
    scalar::lemma_magnitude_order(two, q);
    assert(raise(k, max) == q);
}

/// A finite number of indices that is above a limit comes from finite numbers.
proof fn lemma_finite_parts(lo: Scalar, hi: Scalar, gap: Scalar, max: Scalar)
    requires
        !affordable(covering(lo, hi, gap), max),
        index_count(covering(lo, hi, gap)).finite(),
        max.finite(),
        max.units() > 0,
        gap.finite(),
        gap.units() > 0,
    ensures
        ({
            let k = covering(lo, hi, gap);
            &&& lo.finite()
            &&& hi.finite()
            &&& lo.difference(gap).finite()
            &&& hi.sum(gap).finite()
            &&& lo.difference(gap).quotient(gap).finite()
            &&& hi.sum(gap).quotient(gap).finite()
            &&& k.0.finite()
            &&& k.1.finite()
            &&& k.1.difference(k.0).finite()
            &&& index_count(k) == k.1.difference(k.0).sum(Scalar { bits: ONE_BITS })
            &&& max.units() < index_count(k).units()
        }),
{
    let k = covering(lo, hi, gap);
    let d = k.1.difference(k.0);
    let c = d.sum(Scalar { bits: ONE_BITS });
    scalar::lemma_zero(Scalar { bits: 0 });
    assert(index_count(k) == c);
    accuracy::law_sum_error(d, Scalar { bits: ONE_BITS });
    accuracy::law_sum_error(k.1, k.0.negated());
    assert(k.0.negated().magnitude() == k.0.magnitude());
    let a = lo.difference(gap);
    let b = hi.sum(gap);
    rounding::law_floor_and_ceiling_are_integers(a.quotient(gap));
    rounding::law_floor_and_ceiling_are_integers(b.quotient(gap));
    accuracy::law_quotient_error(a, gap);
    accuracy::law_quotient_error(b, gap);
    accuracy::law_sum_error(lo, gap.negated());
    accuracy::law_sum_error(hi, gap);
}

/// A multiple of a number by a positive factor.
proof fn lemma_cancel(a: int, b: int, c: nat)
    requires
        c > 0,
        a * c <= b * c,
    ensures
        a <= b,
{
    assert(a <= b) by (nonlinear_arith)
        requires
            c > 0,
            a * c <= b * c,
    ;
}

/// A quotient of a rounded sum is near the exact one.
proof fn lemma_edge(s: Scalar, x: int, gap: Scalar, m: nat)
    requires
        gap.finite(),
        gap.units() > 0,
        s.quotient(gap).finite(),
        within((s.units() - x) * PARTS, abs(x) as int),
        abs(x) <= m + gap.units(),
    ensures
        within(
            (s.quotient(gap).units() * gap.units() - x * unit()) * PARTS,
            (3 * m + 4 * gap.units()) * unit(),
        ),
{
    accuracy::law_quotient_error(s, gap);
    let u = unit();
    let g = gap.units();
    let v = s.units();
    let q = s.quotient(gap).units();
    digits::lemma_two_pow_monotone(52, 1074);
    arith::lemma_two_pow_53();
    assert(g * FRACTION_RANGE <= g * u) by (nonlinear_arith)
        requires
            FRACTION_RANGE <= u,
            g > 0,
    ;
    let e = m + g;
    let n = s.abs_units();
    assert(n <= 2 * e) by {
        assert(n == abs(v));
    }
    assert(n * u <= (2 * e) * u) by (nonlinear_arith)
        requires
            n <= 2 * e,
            u >= 0,
    ;
    let d = v - x;
    assert(within((d * PARTS) * u, e * u)) by (nonlinear_arith)
        requires
            within(d * PARTS, e),
            u >= 0,
    ;
    let f = q * g - v * u;
    assert((q * g - x * u) * PARTS == f * PARTS + (d * PARTS) * u) by (nonlinear_arith)
        requires
            f == q * g - v * u,
            d == v - x,
    ;
    assert((3 * m + 4 * g) * u == e * u + (2 * e) * u + g * u) by (nonlinear_arith)
        requires
            e == m + g,
    ;
}

/// The last index is near the exact quotient.
pub proof fn lemma_last(hi: Scalar, gap: Scalar, m: nat) -> (n: int)
    requires
        gap.finite(),
        gap.units() > 0,
        hi.sum(gap).finite(),
        hi.sum(gap).quotient(gap).finite(),
        hi.abs_units() <= m,
    ensures
        hi.sum(gap).quotient(gap).ceiled().units() == n * unit(),
        (hi.units() + gap.units()) * PARTS - 3 * m - 4 * gap.units() <= (n * gap.units()) * PARTS,
        (n * gap.units()) * PARTS <= (hi.units() + 2 * gap.units()) * PARTS + 3 * m + 4
            * gap.units(),
{
    let b = hi.sum(gap);
    let q = b.quotient(gap);
    let n = rounding::law_ceiling_is_next_integer(q);
    let u = unit();
    let g = gap.units();
    let x = hi.units() + g;
    digits::lemma_two_pow_positive(1074);
    accuracy::law_sum_error(hi, gap);
    lemma_edge(b, x, gap, m);
    let v = q.units();
    let e = 3 * m + 4 * g;
    assert((x * PARTS - e) * u <= ((n * g) * PARTS) * u) by (nonlinear_arith)
        requires
            within((v * g - x * u) * PARTS, e * u),
            v <= n * u,
            g > 0,
            u > 0,
    ;
    lemma_cancel(x * PARTS - e, (n * g) * PARTS, u);
    assert(((n * g) * PARTS) * u <= ((x + g) * PARTS + e) * u) by (nonlinear_arith)
        requires
            within((v * g - x * u) * PARTS, e * u),
            n * u <= v + u,
            g > 0,
            u > 0,
    ;
    lemma_cancel((n * g) * PARTS, (x + g) * PARTS + e, u);
    n
}

/// The first index is near the exact quotient.
pub proof fn lemma_first(lo: Scalar, gap: Scalar, m: nat) -> (n: int)
    requires
        gap.finite(),
        gap.units() > 0,
        lo.difference(gap).finite(),
        lo.difference(gap).quotient(gap).finite(),
        lo.abs_units() <= m,
    ensures
        lo.difference(gap).quotient(gap).floored().units() == n * unit(),
        (n * gap.units()) * PARTS <= (lo.units() - gap.units()) * PARTS + 3 * m + 4 * gap.units(),
        (lo.units() - 2 * gap.units()) * PARTS - 3 * m - 4 * gap.units() <= (n * gap.units())
            * PARTS,
{
    let b = lo.difference(gap);
    let q = b.quotient(gap);
    let n = rounding::law_floor_is_integer_before(q);
    let u = unit();
    let g = gap.units();
    let back = gap.negated();
    assert(back.magnitude() == gap.magnitude() && back.units() == -g);
    let x = lo.units() - g;
    digits::lemma_two_pow_positive(1074);
    accuracy::law_sum_error(lo, back);
    lemma_edge(b, x, gap, m);
    let v = q.units();
    let e = 3 * m + 4 * g;
    assert(((n * g) * PARTS) * u <= (x * PARTS + e) * u) by (nonlinear_arith)
        requires
            within((v * g - x * u) * PARTS, e * u),
            v >= n * u,
            g > 0,
            u > 0,
    ;
    lemma_cancel((n * g) * PARTS, x * PARTS + e, u);
    assert(((x - g) * PARTS - e) * u <= ((n * g) * PARTS) * u) by (nonlinear_arith)
        requires
            within((v * g - x * u) * PARTS, e * u),
            n * u >= v - u,
            g > 0,
            u > 0,
    ;
    lemma_cancel((x - g) * PARTS - e, (n * g) * PARTS, u);
    n
}

proof fn lemma_powers()
    ensures
        digits::two_pow(0) == 1,
        digits::two_pow(6) == 0x40,
        digits::two_pow(12) == 0x1000,
        digits::two_pow(64) == 0x1_0000_0000_0000_0000,
{
    reveal_with_fuel(digits::two_pow, 65);
}

/// An attempt that finds too many indices goes on with a wider distance, and stops where that
/// is wide enough.
proof fn lemma_goes_on(lo: Scalar, hi: Scalar, gap: Scalar, max: Scalar, n: nat)
    requires
        !affordable(covering(lo, hi, gap), max),
        n >= 2,
    ensures
        ({
            let wider = gap.product(raise(covering(lo, hi, gap), max));
            &&& coarsened(lo, hi, gap, max, n) == coarsened(lo, hi, wider, max, (n - 1) as nat)
            &&& affordable(covering(lo, hi, wider), max) ==> affordable(
                coarsened(lo, hi, gap, max, n).0,
                max,
            )
        }),
{
    let wider = gap.product(raise(covering(lo, hi, gap), max));
    if affordable(covering(lo, hi, wider), max) {
        fill::law_affordable_gap_is_kept(lo, hi, wider, max, (n - 1) as nat);
    }
}

/// The limit as a number.
pub proof fn lemma_limit(max: usize)
    requires
        max >= 1,
    ensures
        limit_of(max).finite(),
        limit_of(max).units() > 0,
        2 * limit_of(max).units() <= 3 * (max * unit()),
        2 * (max * unit()) <= 3 * limit_of(max).units(),
{
    reveal(Scalar::integer);
    let m = limit_of(max);
    let u = unit();
    let n = (max as nat) * u;
    digits::lemma_two_pow_positive(1074);
    arith::lemma_nearest_range(n, 1);
    laws::lemma_signed_magnitude(false, arith::nearest(n, 1));
    lemma_powers();
    digits::lemma_two_pow_adds(64, 1074);
    let t = digits::two_pow(1138);
    assert(n <= 1 * t && n > 0) by (nonlinear_arith)
        requires
            n == max * u,
            1 <= max < 0x1_0000_0000_0000_0000,
            t == 0x1_0000_0000_0000_0000 * u,
            u > 0,
    ;
    accuracy::lemma_nearest_bound(n, 1, m, 1138);
    accuracy::lemma_nearest_error(n, 1, m);
}

/// Finite indices of which there are too many, and their number less one.
spec fn over(k: (Scalar, Scalar), max: usize, d: int) -> bool {
    &&& k.0.finite()
    &&& k.1.finite()
    &&& k.1.difference(k.0).finite()
    &&& index_count(k).finite()
    &&& index_count(k) == k.1.difference(k.0).sum(Scalar { bits: ONE_BITS })
    &&& limit_of(max).units() < index_count(k).units()
    &&& k.1.units() - k.0.units() == d * unit()
}

/// Too many indices are more than the limit, or for a large limit than an eighth of it.
proof fn lemma_over(k: (Scalar, Scalar), max: usize, d: int)
    requires
        over(k, max, d),
        max >= 5,
    ensures
        d > 0,
        max < 0x20_0000_0000_0000 ==> d >= max,
        8 * (d + 1) > max,
        2 * (d * unit()) <= 3 * index_count(k).units(),
{
    let u = unit();
    let one = Scalar { bits: ONE_BITS };
    let m = limit_of(max);
    let back = k.0.negated();
    let s = k.1.difference(k.0);
    let c = index_count(k);
    digits::lemma_two_pow_positive(1074);
    laws::lemma_one();
    lemma_limit(max);
    assert(back.magnitude() == k.0.magnitude() && back.units() == -k.0.units());
    accuracy::law_sum_error(k.1, back);
    accuracy::law_sum_error(s, one);
    assert(max * u >= 5 * u) by (nonlinear_arith)
        requires
            max >= 5,
            u > 0,
    ;
    if d <= 0 {
        assert(d * u <= 0) by (nonlinear_arith)
            requires
                d <= 0,
                u > 0,
        ;
        scalar::lemma_zero(Scalar { bits: 0 });
        laws::law_sums_keep_upper_bounds(k.1, back, Scalar { bits: 0 });
        laws::law_sums_keep_upper_bounds(s, one, one);
        assert(false);
    }
    assert(d * u > 0) by (nonlinear_arith)
        requires
            d > 0,
            u > 0,
    ;
    laws::law_adding_does_not_shrink(s, one);
    if max < 0x20_0000_0000_0000 && d < max {
        let l = Scalar::integer((max - 1) as nat);
        laws::law_small_integers_are_exact((max - 1) as nat);
        laws::law_small_integers_are_exact(max as nat);
        assert(d * u <= (max - 1) * u) by (nonlinear_arith)
            requires
                d <= max - 1,
                u > 0,
        ;
        assert((max - 1) * u + u == max * u) by (nonlinear_arith);
        laws::law_sums_keep_upper_bounds(k.1, back, l);
        laws::law_sums_keep_upper_bounds(s, one, m);
        assert(false);
    }
    if 8 * (d + 1) <= max {
        assert(8 * (d * u) + 8 * u <= max * u) by (nonlinear_arith)
            requires
                8 * (d + 1) <= max,
                u > 0,
        ;
        assert(s.units() <= 2 * (d * u));
        assert(c.units() <= 2 * (s.units() + u));
        assert(false);
    }
}

/// What is known of an attempt that finds too many indices.
proof fn lemma_attempt(lo: Scalar, hi: Scalar, gap: Scalar, max: usize) -> (n: (int, int))
    requires
        !affordable(covering(lo, hi, gap), limit_of(max)),
        index_count(covering(lo, hi, gap)).finite(),
        gap.finite(),
        gap.units() > 0,
        max >= 5,
    ensures
        lo.finite(),
        hi.finite(),
        over(covering(lo, hi, gap), max, n.1 - n.0),
        covering(lo, hi, gap).0.units() == n.0 * unit(),
        covering(lo, hi, gap).1.units() == n.1 * unit(),
        ({
            let g = gap.units();
            let e = 3 * reach(lo.units(), hi.units()) + 4 * g;
            &&& (hi.units() + g) * PARTS - e <= (n.1 * g) * PARTS
            &&& (n.1 * g) * PARTS <= (hi.units() + 2 * g) * PARTS + e
            &&& (n.0 * g) * PARTS <= (lo.units() - g) * PARTS + e
            &&& (lo.units() - 2 * g) * PARTS - e <= (n.0 * g) * PARTS
        }),
{
    lemma_limit(max);
    lemma_finite_parts(lo, hi, gap, limit_of(max));
    let m = reach(lo.units(), hi.units());
    assert(abs(lo.units()) == lo.abs_units() && abs(hi.units()) == hi.abs_units());
    let a = lemma_first(lo, gap, m);
    let b = lemma_last(hi, gap, m);
    let u = unit();
    assert((b - a) * u == b * u - a * u) by (nonlinear_arith);
    (a, b)
}

/// The number of indices in terms of the size of the places.
proof fn lemma_number(lo: int, hi: int, g: int, n: (int, int))
    requires
        g > 0,
        ({
            let e = 3 * reach(lo, hi) + 4 * g;
            &&& (hi + g) * PARTS - e <= (n.1 * g) * PARTS
            &&& (n.1 * g) * PARTS <= (hi + 2 * g) * PARTS + e
            &&& (n.0 * g) * PARTS <= (lo - g) * PARTS + e
            &&& (lo - 2 * g) * PARTS - e <= (n.0 * g) * PARTS
        }),
    ensures
        ((n.1 - n.0) * g) * PARTS <= size(lo, hi) + 4 * (g * PARTS) + 8 * g,
        n.1 >= n.0 ==> size(lo, hi) <= ((n.1 - n.0) * g) * PARTS + 12 * reach(lo, hi),
{
    assert((n.1 - n.0) * g == n.1 * g - n.0 * g) by (nonlinear_arith);
    if n.1 >= n.0 {
        assert((n.1 - n.0) * g >= 0) by (nonlinear_arith)
            requires
                n.1 >= n.0,
                g > 0,
        ;
    }
}

/// An attempt over places that are small against the distance does not find too many indices.
proof fn lemma_small_size(x: int, g: int, d: int, max: usize)
    requires
        g > 0,
        max >= 5,
        16 * x <= (max * g) * PARTS,
        (d * g) * PARTS <= x + 4 * (g * PARTS) + 8 * g,
    ensures
        d < max,
        max >= 0x20_0000_0000_0000 ==> 8 * (d + 1) <= max,
{
    let a = max * g;
    let b = d * g;
    if d >= max {
        assert(a <= b && a >= 5 * g) by (nonlinear_arith)
            requires
                a == max * g,
                b == d * g,
                d >= max,
                max >= 5,
                g > 0,
        ;
        assert(false);
    }
    if max >= 0x20_0000_0000_0000 && 8 * (d + 1) > max {
        assert(a <= 8 * b + 8 * g && a >= 0x20_0000_0000_0000 * g) by (nonlinear_arith)
            requires
                a == max * g,
                b == d * g,
                8 * (d + 1) > max,
                max >= 0x20_0000_0000_0000,
                g > 0,
        ;
        assert(false);
    }
}

/// The factor is finite where the raised distance is, is at least two, and at least about the
/// ratio of the number of indices to the limit.
proof fn lemma_factor(k: (Scalar, Scalar), gap: Scalar, max: usize)
    requires
        index_count(k).finite(),
        limit_of(max).units() < index_count(k).units(),
        max >= 1,
        gap.product(raise(k, limit_of(max))).finite(),
    ensures
        raise(k, limit_of(max)).finite(),
        raise(k, limit_of(max)).units() >= 2 * unit(),
        2 * (index_count(k).units() * unit()) <= 3 * (raise(k, limit_of(max)).units() * limit_of(
            max,
        ).units()),
{
    let c = index_count(k);
    let m = limit_of(max);
    let q = c.quotient(m);
    let two = Scalar { bits: TWO_BITS };
    let r = raise(k, m);
    let u = unit();
    lemma_limit(max);
    lemma_two();
    accuracy::law_product_error(gap, r);
    assert(q.finite()) by {
        reveal(Scalar::quotient);
        reveal(Scalar::ceiled);
        scalar::lemma_zero(m);
        arith::lemma_nearest_range(c.abs_units() * digits::two_pow(1074), m.abs_units());
        laws::lemma_signed_magnitude(
            c.negative() != m.negative(),
            arith::nearest(c.abs_units() * digits::two_pow(1074), m.abs_units()),
        );
        if !q.finite() {
            assert(q.infinite());
            scalar::lemma_magnitude_order(two, q);
            assert(r == q);
        }
    }
    let n = rounding::law_ceiling_is_next_integer(q);
    accuracy::law_quotient_error(c, m);
    digits::lemma_two_pow_monotone(52, 1074);
    arith::lemma_two_pow_53();
    let x = c.units();
    let y = m.units();
    let v = q.units();
    assert(y * FRACTION_RANGE <= x * u) by (nonlinear_arith)
        requires
            FRACTION_RANGE <= u,
            0 < y < x,
    ;
    assert(x * u >= 0) by (nonlinear_arith)
        requires
            x >= 0,
    ;
    assert(2 * (x * u) <= 3 * (v * y));
    assert(v * y <= r.units() * y) by (nonlinear_arith)
        requires
            v <= r.units(),
            y > 0,
    ;
}

proof fn lemma_two()
    ensures
        (Scalar { bits: TWO_BITS }).finite(),
        (Scalar { bits: TWO_BITS }).units() == 2 * unit(),
{
    let two = Scalar { bits: TWO_BITS };
    arith::lemma_two_pow_53();
    digits::lemma_two_pow_adds(52, 1023);
    assert(digits::two_pow(1075) == 2 * digits::two_pow(1074));
    assert(two.scale() == 1023 && two.significand() == FRACTION_RANGE);
}

/// The raised distance is at least twice as large, and at least about the distance times the
/// factor.
proof fn lemma_raised(gap: Scalar, r: Scalar)
    requires
        gap.units() > 0,
        r.units() >= 2 * unit(),
        gap.product(r).finite(),
    ensures
        gap.product(r).units() >= 2 * gap.units(),
        2 * (gap.units() * r.units()) <= 3 * (gap.product(r).units() * unit()),
{
    accuracy::law_product_error(gap, r);
    accuracy::lemma_product_value(gap, r);
    let u = unit();
    let g = gap.units();
    let x = r.units();
    let w = gap.product(r);
    let n = g * x;
    digits::lemma_two_pow_positive(1074);
    assert(n >= 2 * (g * u) && n >= 2 * u && n > 0) by (nonlinear_arith)
        requires
            n == g * x,
            g >= 1,
            x >= 2 * u,
            u > 0,
    ;
    assert((2 * g) * u <= n * 1) by (nonlinear_arith)
        requires
            n >= 2 * (g * u),
    ;
    laws::law_rounding_is_monotone((2 * g) as nat, 1, n as nat, u);
    accuracy::law_doubling_is_exact(gap, w);
    assert(2 * (u * FRACTION_RANGE) == u * PARTS) by (nonlinear_arith)
        requires
            PARTS == 2 * FRACTION_RANGE,
    ;
}

/// The raised distance against the number of indices that were too many.
proof fn lemma_next(lo: Scalar, hi: Scalar, gap: Scalar, max: usize, d: int)
    requires
        over(covering(lo, hi, gap), max, d),
        max >= 5,
        gap.units() > 0,
        gap.product(raise(covering(lo, hi, gap), limit_of(max))).finite(),
    ensures
        ({
            let w = gap.product(raise(covering(lo, hi, gap), limit_of(max))).units();
            &&& w >= 2 * gap.units()
            &&& 16 * (gap.units() * d) <= 81 * (w * max)
        }),
{
    let k = covering(lo, hi, gap);
    let m = limit_of(max).units();
    let r = raise(k, limit_of(max));
    let w = gap.product(r).units();
    let u = unit();
    let g = gap.units();
    let c = index_count(k).units();
    let x = r.units();
    digits::lemma_two_pow_positive(1074);
    lemma_limit(max);
    lemma_over(k, max, d);
    lemma_factor(k, gap, max);
    lemma_raised(gap, r);
    assert(4 * ((g * c) * u) <= 6 * ((g * x) * m)) by (nonlinear_arith)
        requires
            2 * (c * u) <= 3 * (x * m),
            g > 0,
    ;
    assert(2 * ((g * x) * m) <= 3 * ((w * m) * u)) by (nonlinear_arith)
        requires
            2 * (g * x) <= 3 * (w * u),
            m > 0,
    ;
    assert((4 * (g * c)) * u <= (9 * (w * m)) * u) by (nonlinear_arith)
        requires
            4 * ((g * c) * u) <= 9 * ((w * m) * u),
    ;
    lemma_cancel(4 * (g * c), 9 * (w * m), u);
    assert(2 * ((g * d) * u) <= 3 * (g * c)) by (nonlinear_arith)
        requires
            2 * (d * u) <= 3 * c,
            g > 0,
    ;
    assert(2 * (w * m) <= 3 * ((w * max) * u)) by (nonlinear_arith)
        requires
            2 * m <= 3 * (max * u),
            w > 0,
    ;
    assert((16 * (g * d)) * u <= (81 * (w * max)) * u) by (nonlinear_arith)
        requires
            16 * ((g * d) * u) <= 81 * ((w * max) * u),
    ;
    lemma_cancel(16 * (g * d), 81 * (w * max), u);
}

/// Indices that are not the same are apart by a part of the distance of the places from the
/// origin.
proof fn lemma_apart(lo: Scalar, hi: Scalar, gap: Scalar, max: usize, n: (int, int))
    requires
        gap.units() > 0,
        over(covering(lo, hi, gap), max, n.1 - n.0),
        max >= 5,
        covering(lo, hi, gap).0.units() == n.0 * unit(),
        covering(lo, hi, gap).1.units() == n.1 * unit(),
        ({
            let g = gap.units();
            let e = 3 * reach(lo.units(), hi.units()) + 4 * g;
            &&& (hi.units() + g) * PARTS - e <= (n.1 * g) * PARTS
            &&& (n.1 * g) * PARTS <= (hi.units() + 2 * g) * PARTS + e
            &&& (n.0 * g) * PARTS <= (lo.units() - g) * PARTS + e
            &&& (lo.units() - 2 * g) * PARTS - e <= (n.0 * g) * PARTS
        }),
        reach(lo.units(), hi.units()) >= 8 * gap.units(),
    ensures
        reach(lo.units(), hi.units()) <= 4 * (((n.1 - n.0) * gap.units()) * PARTS),
{
    let k = covering(lo, hi, gap);
    let g = gap.units();
    let m = reach(lo.units(), hi.units());
    let d = n.1 - n.0;
    lemma_over(k, max, d);
    digits::lemma_two_pow_positive(1074);
    let u = unit();
    // One of the indices is large.
    let far: int = if abs(lo.units()) < abs(hi.units()) {
        n.1
    } else {
        n.0
    };
    assert(m <= 2 * abs(far * g));
    let (a, b) = if k.0.abs_units() <= k.1.abs_units() {
        (k.1, k.0)
    } else {
        (k.0, k.1)
    };
    assert(d * u > 0) by (nonlinear_arith)
        requires
            d > 0,
            u > 0,
    ;
    assert(abs(a.units() - b.units()) == d * u);
    accuracy::law_numbers_are_spaced(a, b);
    assert(abs(k.0.units()) <= a.abs_units() && abs(k.1.units()) <= a.abs_units());
    assert(within(far * u, (d * u) * 0x40_0000_0000_0000));
    assert(far * u <= (d * 0x40_0000_0000_0000) * u && (-far) * u <= (d * 0x40_0000_0000_0000) * u)
        by (nonlinear_arith)
        requires
            within(far * u, (d * u) * 0x40_0000_0000_0000),
    ;
    lemma_cancel(far, d * 0x40_0000_0000_0000, u);
    lemma_cancel(-far, d * 0x40_0000_0000_0000, u);
    assert(within(far * g, (d * g) * 0x40_0000_0000_0000)) by (nonlinear_arith)
        requires
            far <= d * 0x40_0000_0000_0000,
            -far <= d * 0x40_0000_0000_0000,
            g > 0,
    ;
}

/// The attempts come down to the limit where the size of the places is at most `2^j` times what
/// the limit allows, and more than `j` attempts are left.
proof fn lemma_comes_down(lo: Scalar, hi: Scalar, gap: Scalar, max: usize, n: nat, j: nat)
    requires
        (Scalar { bits: 0 }).less(gap),
        max >= 5,
        n >= j + 2,
        gap.finite() && lo.finite() && hi.finite() ==> 16 * size(lo.units(), hi.units())
            <= digits::two_pow(j) * ((max * gap.units()) * PARTS),
    ensures
        affordable(coarsened(lo, hi, gap, limit_of(max), n).0, limit_of(max)),
    decreases n,
{
    let k = covering(lo, hi, gap);
    let m = limit_of(max);
    let wider = gap.product(raise(k, m));
    lemma_limit(max);
    scalar::lemma_zero(Scalar { bits: 0 });
    if affordable(k, m) {
        fill::law_affordable_gap_is_kept(lo, hi, gap, m, n);
    } else {
        lemma_goes_on(lo, hi, gap, m, n);
        if !gap.finite() {
            lemma_infinite_gap(lo, hi, gap, m);
        } else if !index_count(k).finite() {
            lemma_infinite_count(k, gap, m);
            lemma_infinite_gap(lo, hi, wider, m);
        } else {
            let i = lemma_attempt(lo, hi, gap, max);
            let d = i.1 - i.0;
            let g = gap.units();
            lemma_over(k, max, d);
            lemma_number(lo.units(), hi.units(), g, i);
            if j == 0 {
                lemma_powers();
                assert(1 * ((max * g) * PARTS) == (max * g) * PARTS);
                lemma_small_size(size(lo.units(), hi.units()), g, d, max);
                assert(false);
            } else {
                lemma_wider(k, gap, max);
                if !wider.finite() {
                    lemma_infinite_gap(lo, hi, wider, m);
                } else {
                    lemma_next(lo, hi, gap, max, d);
                    let w = wider.units();
                    let p = digits::two_pow((j - 1) as nat);
                    assert(digits::two_pow(j) == 2 * p);
                    assert((2 * p) * ((max * g) * PARTS) <= p * ((max * w) * PARTS))
                        by (nonlinear_arith)
                        requires
                            w >= 2 * g,
                            p >= 0,
                            max >= 0,
                    ;
                    lemma_comes_down(lo, hi, wider, max, (n - 1) as nat, (j - 1) as nat);
                }
            }
        }
    }
}

/// A distance that is raised beyond the largest number is infinite.
proof fn lemma_wider(k: (Scalar, Scalar), gap: Scalar, max: usize)
    requires
        (Scalar { bits: 0 }).less(gap),
        max >= 1,
    ensures
        gap.product(raise(k, limit_of(max))).finite() || gap.product(
            raise(k, limit_of(max)),
        ).infinite(),
        !gap.product(raise(k, limit_of(max))).negative(),
{
    let r = raise(k, limit_of(max));
    fill::lemma_two_is_above_one();
    laws::law_scaling_up_does_not_shrink(gap, r);
    scalar::lemma_zero(Scalar { bits: 0 });
}

/// With a limit of at least five, one of the attempts comes down to it, whatever the places and
/// the distance.
pub proof fn law_attempts_come_down_to_the_limit(lo: Scalar, hi: Scalar, gap: Scalar, max: usize)
    requires
        (Scalar { bits: 0 }).less(gap),
        max >= 5,
    ensures
        affordable(
            coarsened(lo, hi, gap, limit_of(max), ATTEMPTS as nat).0,
            limit_of(max),
        ),
{
    let k = covering(lo, hi, gap);
    let m = limit_of(max);
    let wider = gap.product(raise(k, m));
    let n = ATTEMPTS as nat;
    lemma_limit(max);
    scalar::lemma_zero(Scalar { bits: 0 });
    lemma_powers();
    if affordable(k, m) {
        fill::law_affordable_gap_is_kept(lo, hi, gap, m, n);
    } else {
        lemma_goes_on(lo, hi, gap, m, n);
        if !gap.finite() {
            lemma_infinite_gap(lo, hi, gap, m);
        } else if !index_count(k).finite() {
            lemma_infinite_count(k, gap, m);
            lemma_infinite_gap(lo, hi, wider, m);
        } else {
            let i = lemma_attempt(lo, hi, gap, max);
            let d = i.1 - i.0;
            let (l, h, g) = (lo.units(), hi.units(), gap.units());
            lemma_over(k, max, d);
            lemma_number(l, h, g, i);
            if reach(l, h) < 8 * g {
                assert(max * g >= 5 * g) by (nonlinear_arith)
                    requires
                        max >= 5,
                        g > 0,
                ;
                lemma_comes_down(lo, hi, gap, max, n, 6);
            } else {
                lemma_apart(lo, hi, gap, max, i);
                lemma_wider(k, gap, max);
                if !wider.finite() {
                    lemma_infinite_gap(lo, hi, wider, m);
                } else {
                    lemma_next(lo, hi, gap, max, d);
                    let w = wider.units();
                    assert(g * d == d * g && w * max == max * w) by (nonlinear_arith);
                    assert(size(l, h) <= 49 * ((d * g) * PARTS));
                    assert(max * w >= 0) by (nonlinear_arith)
                        requires
                            w >= 0,
                            max >= 0,
                    ;
                    lemma_comes_down(lo, hi, wider, max, (n - 1) as nat, 12);
                }
            }
        }
    }
}

/// With a limit of at least five there are no more lines in a family than the limit.
pub proof fn law_families_keep_a_limit_from_five(
    b: Rect,
    u: Vec2,
    gap: Scalar,
    zig: bool,
    max: usize,
)
    requires
        (Scalar { bits: 0 }).less(gap),
        max >= 5,
    ensures
        fill::family(b, u, gap, zig, max).len() <= max,
{
    let (lo, hi) = fill::extent_along(b, fill::across(u));
    law_attempts_come_down_to_the_limit(lo, hi, gap, max);
    fill::law_families_stay_within_the_limit(b, u, gap, zig, max);
}

/// A usable distance is positive.
proof fn lemma_spaced(gap: Scalar)
    ensures
        (Scalar { bits: 0 }).less(style::spaced(gap)),
{
    let zero = Scalar { bits: 0 };
    let least = Scalar { bits: style::LEAST_GAP_BITS };
    let usual = Scalar { bits: style::GAP_BITS };
    scalar::lemma_zero(zero);
    scalar::lemma_magnitude_order(zero, least);
    scalar::lemma_magnitude_order(zero, usual);
}

/// With a limit of at least five a fill has no more strokes than the limit in each direction.
pub proof fn law_fills_keep_a_limit_from_five(b: Rect, f: SketchFill, turns: Seq<Vec2>, max: usize)
    requires
        max >= 5,
    ensures
        fill::families(b, f, turns, max).len() <= turns.len() * max,
    decreases turns.len(),
{
    if turns.len() > 0 {
        let n = (turns.len() - 1) as nat;
        let zig = f.style == SketchFillStyle::Zigzag;
        law_fills_keep_a_limit_from_five(b, f, turns.drop_last(), max);
        lemma_spaced(f.line_gap);
        law_families_keep_a_limit_from_five(
            b,
            turns.last(),
            style::spaced(f.line_gap),
            zig,
            max,
        );
        assert((n + 1) * max == n * max + max) by (nonlinear_arith);
    }
}

pub proof fn lemma_dot_rows(
    k: int,
    n: nat,
    m: int,
    width: nat,
    u: Vec2,
    gap_v: Scalar,
    gap_u: Scalar,
)
    ensures
        fill::dot_rows(k, n, m, width, u, gap_v, gap_u).len() == n * width,
    decreases n,
{
    if n > 0 {
        lemma_dot_rows(k, (n - 1) as nat, m, width, u, gap_v, gap_u);
        assert((n - 1) * width + width == n * width) by (nonlinear_arith);
    } else {
        assert(0 * width == 0);
    }
}

/// With a limit of at least five a fill has no more dots than the limit times itself.
pub proof fn law_dots_keep_a_limit_from_five(b: Rect, f: SketchFill, u: Vec2, max: usize)
    requires
        max >= 5,
    ensures
        fill::dot_lattice(b, f, u, max).len() <= max * max,
{
    let (u_lo, u_hi) = fill::extent_along(b, u);
    let (v_lo, v_hi) = fill::extent_along(b, fill::across(u));
    let gap = style::spaced(f.line_gap);
    lemma_spaced(f.line_gap);
    fill::lemma_extent(rough::corners(b), u, 4);
    fill::lemma_extent(rough::corners(b), fill::across(u), 4);
    law_attempts_come_down_to_the_limit(u_lo, u_hi, gap, max);
    law_attempts_come_down_to_the_limit(v_lo, v_hi, gap, max);
    fill::law_indices_stay_within_the_limit(u_lo, u_hi, gap, max);
    fill::law_indices_stay_within_the_limit(v_lo, v_hi, gap, max);
    let (k0, k1, gap_v) = fill::index_span(v_lo, v_hi, gap, max);
    let (m0, m1, gap_u) = fill::index_span(u_lo, u_hi, gap, max);
    let n = fill::span_len(k0, k1);
    let w = fill::span_len(m0, m1);
    lemma_dot_rows(k0, n, m0, w, u, gap_v, gap_u);
    assert(n * w <= max * max) by (nonlinear_arith)
        requires
            0 <= n <= max,
            0 <= w <= max,
    ;
}

} // verus!
