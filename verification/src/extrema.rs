//! Where an arc is extreme.
//!
//! An ellipse is extreme in the directions of its axes: at the multiples of a quarter turn. The
//! box of an arc needs those of them that its sweep passes, up to full turns.

use vstd::prelude::*;
use vstd::math::abs;
use crate::accuracy;
use crate::accuracy::{within, PARTS};
use crate::arith;
use crate::digits;
use crate::fit;
use crate::laws;
use crate::rounding;
use crate::scalar;
use crate::scalar::{Scalar, FRACTION_RANGE};

verus! {

/// The number of units in `1.0`.
pub open spec fn unit() -> nat {
    digits::two_pow(1074)
}

/// A quarter turn in units, as it stands in the code.
pub open spec fn quarter() -> int {
    (Scalar { bits: fit::QUARTER_BITS }).units()
}

/// The turns are multiples of the quarter turn.
pub proof fn lemma_turns()
    ensures
        (Scalar { bits: fit::TURN_BITS }).finite(),
        (Scalar { bits: fit::TURN_BITS }).units() == 4 * quarter(),
        (Scalar { bits: fit::HALF_TURN_BITS }).finite(),
        (Scalar { bits: fit::HALF_TURN_BITS }).units() == 2 * quarter(),
        (Scalar { bits: fit::QUARTER_BITS }).finite(),
        (Scalar { bits: fit::QUARTER_BACK_BITS }).finite(),
        (Scalar { bits: fit::QUARTER_BACK_BITS }).units() == -quarter(),
        unit() <= quarter(),
        100 * quarter() <= 158 * unit(),
        within(
            (quarter() * 10_000_000_000_000_000 - 15_707_963_267_948_966 * unit()) * PARTS,
            quarter() * 10_000_000_000_000_000,
        ),
{
    let w = digits::two_pow(1022);
    let q = Scalar { bits: fit::QUARTER_BITS };
    digits::lemma_two_pow_positive(1022);
    digits::lemma_two_pow_adds(1, 1022);
    digits::lemma_two_pow_adds(2, 1022);
    digits::lemma_two_pow_adds(52, 1022);
    arith::lemma_two_pow_53();
    assert(digits::two_pow(1) == 2 && digits::two_pow(2) == 4) by {
        reveal_with_fuel(digits::two_pow, 3);
    }
    assert(q.scale() == 1022 && q.significand() == 0x19_21fb_5444_2d18);
    let b = Scalar { bits: fit::QUARTER_BACK_BITS };
    assert(b.scale() == 1022 && b.significand() == 0x19_21fb_5444_2d18 && b.negative());
    let h = Scalar { bits: fit::HALF_TURN_BITS };
    assert(h.scale() == 1023 && h.significand() == 0x19_21fb_5444_2d18);
    let t = Scalar { bits: fit::TURN_BITS };
    assert(t.scale() == 1024 && t.significand() == 0x19_21fb_5444_2d18);
}

/// What the angles are measured by: one part in `2^53` of it is one rounding.
spec fn size(lo: Scalar) -> int {
    (lo.abs_units() + 4 * unit()) as int
}

/// An angle of a size at which nothing is rounded to infinity.
pub open spec fn ordinary(a: Scalar) -> bool {
    a.finite() && a.abs_units() <= digits::two_pow(2090)
}

proof fn lemma_powers()
    ensures
        digits::two_pow(2091) == 2 * digits::two_pow(2090),
        digits::two_pow(2092) == 4 * digits::two_pow(2090),
        digits::two_pow(2096) == 64 * digits::two_pow(2090),
        digits::two_pow(2090) >= 0x1_0000 * unit(),
        unit() >= 0x1_0000 * FRACTION_RANGE,
{
    digits::lemma_two_pow_adds(1, 2090);
    digits::lemma_two_pow_adds(2, 2090);
    digits::lemma_two_pow_adds(6, 2090);
    digits::lemma_two_pow_adds(16, 1074);
    digits::lemma_two_pow_monotone(1090, 2090);
    digits::lemma_two_pow_adds(16, 52);
    digits::lemma_two_pow_monotone(68, 1074);
    arith::lemma_two_pow_53();
    assert(digits::two_pow(1) == 2 && digits::two_pow(2) == 4 && digits::two_pow(6) == 64
        && digits::two_pow(16) == 0x1_0000) by {
        reveal_with_fuel(digits::two_pow, 17);
    }
}

/// The number of turns from `k` to the first angle from `lo` on.
proof fn lemma_count(k: Scalar, lo: Scalar) -> (c: int)
    requires
        ordinary(lo),
        k.finite(),
        abs(k.units()) <= 2 * quarter(),
    ensures
        ({
            let turn = Scalar { bits: fit::TURN_BITS };
            let n = lo.difference(k).quotient(turn).ceiled();
            let t = 4 * quarter();
            &&& n.finite()
            &&& n.units() == c * unit()
            &&& abs(c * t) <= 7 * size(lo)
            &&& (k.units() + c * t - lo.units()) * PARTS >= -4 * size(lo)
            &&& forall|m: int|
                #![trigger m * t]
                (k.units() + m * t - lo.units()) * PARTS >= 4 * size(lo) ==> c <= m
        }),
{
    lemma_turns();
    lemma_powers();
    digits::lemma_two_pow_positive(1074);
    let turn = Scalar { bits: fit::TURN_BITS };
    let back = k.negated();
    let u = unit();
    let t = 4 * quarter();
    let b = size(lo);
    assert(back.magnitude() == k.magnitude() && back.units() == -k.units());
    accuracy::law_sums_stay_finite(lo, back, 2091);
    accuracy::law_sum_error(lo, back);
    let d = lo.difference(k);
    let e = digits::two_pow(2091);
    assert(d.abs_units() * u <= t * e) by (nonlinear_arith)
        requires
            d.abs_units() <= e,
            0 <= u <= t,
    ;
    accuracy::law_quotients_stay_finite(d, turn, 2091);
    accuracy::law_quotient_error(d, turn);
    let q = d.quotient(turn);
    let c = rounding::law_ceiling_is_next_integer(q);
    let x = lo.units() - k.units();
    lemma_turn_count(d.units(), x, q.units(), c, t, b, u as int);
    c
}

/// The number of turns in terms of integers.
proof fn lemma_turn_count(d: int, x: int, q: int, c: int, t: int, b: int, u: int)
    requires
        within((d - x) * PARTS, abs(x) as int),
        abs(x) <= b,
        within((q * t - d * u) * PARTS, abs(d) * u + t * FRACTION_RANGE),
        q <= c * u < q + u,
        0 < u <= t,
        t <= 2 * b,
        0x1_0000 * FRACTION_RANGE <= u,
        u <= b,
    ensures
        abs(c * t) <= 7 * b,
        (c * t - x) * PARTS >= -4 * b,
        forall|m: int| #![trigger m * t] (m * t - x) * PARTS >= 4 * b ==> c <= m,
{
    let p = PARTS as int;
    assert(abs(d) <= 2 * b);
    let f = q * t - d * u;
    let bu = b * u;
    assert(abs(d) * u <= 2 * bu) by (nonlinear_arith)
        requires
            abs(d) <= 2 * b,
            bu == b * u,
            u > 0,
    ;
    assert(t * FRACTION_RANGE <= bu) by (nonlinear_arith)
        requires
            t <= 2 * b,
            0x1_0000 * FRACTION_RANGE <= u,
            bu == b * u,
            b >= 0,
            t >= 0,
    ;
    assert(within(f * p, 3 * bu));
    let g = d - x;
    assert(within((g * p) * u, bu)) by (nonlinear_arith)
        requires
            within(g * p, b),
            bu == b * u,
            u > 0,
    ;
    let h = q * t - x * u;
    assert(h * p == f * p + (g * p) * u) by (nonlinear_arith)
        requires
            h == q * t - x * u,
            f == q * t - d * u,
            g == d - x,
    ;
    assert(within(h * p, 4 * bu));
    // From below.
    let ct = c * t;
    assert(q * t <= ct * u && ct * u <= q * t + u * t) by (nonlinear_arith)
        requires
            q <= c * u < q + u,
            t > 0,
            ct == c * t,
    ;
    assert(((ct - x) * p) * u >= (-4 * b) * u) by (nonlinear_arith)
        requires
            h * p >= -4 * bu,
            h == q * t - x * u,
            q * t <= ct * u,
            p > 0,
            bu == b * u,
    ;
    assert((ct - x) * p >= -4 * b) by (nonlinear_arith)
        requires
            ((ct - x) * p) * u >= (-4 * b) * u,
            u > 0,
    ;
    assert(((ct - x - t) * p) * u <= (4 * b) * u) by (nonlinear_arith)
        requires
            h * p <= 4 * bu,
            h == q * t - x * u,
            ct * u <= q * t + u * t,
            p > 0,
            bu == b * u,
    ;
    assert((ct - x - t) * p <= 4 * b) by (nonlinear_arith)
        requires
            ((ct - x - t) * p) * u <= (4 * b) * u,
            u > 0,
    ;
    assert forall|m: int| #![trigger m * t] (m * t - x) * PARTS >= 4 * b implies c <= m by {
        let mt = m * t;
        if c > m {
            assert(mt * u < q * t) by (nonlinear_arith)
                requires
                    c * u < q + u,
                    c >= m + 1,
                    mt == m * t,
                    t > 0,
                    u > 0,
            ;
            assert(((mt - x) * p) * u < (4 * b) * u) by (nonlinear_arith)
                requires
                    mt * u < q * t,
                    h * p <= 4 * bu,
                    h == q * t - x * u,
                    bu == b * u,
                    p > 0,
            ;
            assert((mt - x) * p < 4 * b) by (nonlinear_arith)
                requires
                    ((mt - x) * p) * u < (4 * b) * u,
                    u > 0,
            ;
            assert(false);
        }
    }
}

/// The first angle from `lo` on that is `k` up to full turns, up to rounding.
proof fn lemma_next_angle(k: Scalar, lo: Scalar) -> (c: int)
    requires
        ordinary(lo),
        k.finite(),
        abs(k.units()) <= 2 * quarter(),
    ensures
        ({
            let theta = fit::next_angle(k, lo);
            let t = 4 * quarter();
            &&& theta.finite()
            &&& within((theta.units() - (k.units() + c * t)) * PARTS, 17 * size(lo))
            &&& abs(c * t) <= 7 * size(lo)
            &&& (k.units() + c * t - lo.units()) * PARTS >= -4 * size(lo)
            &&& forall|m: int|
                #![trigger m * t]
                (k.units() + m * t - lo.units()) * PARTS >= 4 * size(lo) ==> c <= m
        }),
{
    lemma_turns();
    lemma_powers();
    digits::lemma_two_pow_positive(1074);
    let c = lemma_count(k, lo);
    let turn = Scalar { bits: fit::TURN_BITS };
    let n = lo.difference(k).quotient(turn).ceiled();
    let u = unit();
    let t = 4 * quarter();
    let b = size(lo);
    let ct = c * t;
    let e = digits::two_pow(2096);
    assert(n.units() * t == ct * u) by (nonlinear_arith)
        requires
            n.units() == c * u,
            ct == c * t,
    ;
    let m = abs(ct);
    assert(abs(ct * u) == m * u) by (nonlinear_arith)
        requires
            m == ct || m == -ct,
            m >= 0,
            u > 0,
    ;
    assert(m * u <= u * e) by (nonlinear_arith)
        requires
            m <= e,
            u > 0,
    ;
    accuracy::law_products_stay_finite(n, turn, 2096);
    accuracy::law_product_error(n, turn);
    let p = n.product(turn);
    let x = p.units();
    assert(within((x - ct) * PARTS, 8 * b)) by {
        assert(within((x * u - ct * u) * PARTS, m * u + u * FRACTION_RANGE));
        assert(within((x - ct) * PARTS, m + FRACTION_RANGE)) by (nonlinear_arith)
            requires
                within((x * u - ct * u) * PARTS, m * u + u * FRACTION_RANGE),
                u > 0,
        ;
    }
    assert(abs(x) <= 8 * b);
    accuracy::law_sums_stay_finite(k, p, 2096);
    accuracy::law_sum_error(k, p);
    c
}

/// `10^16`.
pub const DECIMALS: u64 = 10_000_000_000_000_000;

/// A quarter turn in parts of `10^-16`.
pub const QUARTER_DECIMALS: u64 = 15_707_963_267_948_966;

/// How far angles between two ends may be off, in parts of `2^-53`.
pub open spec fn slack(a: Scalar, b: Scalar) -> int {
    (32 * (a.abs_units() + b.abs_units() + 8 * unit())) as int
}

/// An angle is `i` quarter turns, up to rounding; `e` bounds the error in parts of `2^-53`.
#[verifier::opaque]
pub open spec fn is_quarters(angle: Scalar, i: int, e: int) -> bool {
    &&& angle.finite()
    &&& within((angle.units() * DECIMALS - i * QUARTER_DECIMALS * unit()) * PARTS, e * DECIMALS)
}

/// `i` quarter turns lie between two angles, and not at their edge.
#[verifier::opaque]
pub open spec fn passes(a: Scalar, b: Scalar, i: int) -> bool {
    let (lo, hi) = if a.units() <= b.units() {
        (a, b)
    } else {
        (b, a)
    };
    &&& (i * QUARTER_DECIMALS * unit() - lo.units() * DECIMALS) * PARTS >= slack(a, b) * DECIMALS
    &&& (hi.units() * DECIMALS - i * QUARTER_DECIMALS * unit()) * PARTS >= slack(a, b) * DECIMALS
}

/// The quarter turns as they stand in the code and as decimal fractions.
proof fn lemma_decimals(i: int, m: int)
    requires
        abs(i * quarter()) <= m,
    ensures
        within(
            ((i * quarter()) * DECIMALS - i * QUARTER_DECIMALS * unit()) * PARTS,
            m * DECIMALS,
        ),
{
    lemma_turns();
    digits::lemma_two_pow_positive(1074);
    let q = quarter();
    let d: int = 10_000_000_000_000_000;
    let h: int = 15_707_963_267_948_966;
    let u = unit() as int;
    let e = q * d - h * u;
    let n = abs(i);
    let p = PARTS as int;
    assert(within(e * p, q * d));
    assert((i * q) * d - i * h * u == i * e) by (nonlinear_arith)
        requires
            e == q * d - h * u,
    ;
    assert(within((i * e) * p, (n * q) * d)) by (nonlinear_arith)
        requires
            within(e * p, q * d),
            i == n || i == -n,
            n >= 0,
    ;
    assert(n * q == abs(i * q)) by (nonlinear_arith)
        requires
            i == n || i == -n,
            n >= 0,
            q > 0,
    ;
    assert((n * q) * d <= m * d) by (nonlinear_arith)
        requires
            n * q <= m,
            d > 0,
    ;
}

/// How large the quarter turns between two angles are.
proof fn lemma_passed_size(a: Scalar, b: Scalar, i: int)
    requires
        passes(a, b, i),
    ensures
        abs(i * quarter()) <= 2 * (a.abs_units() + b.abs_units()),
{
    reveal(passes);
    lemma_turns();
    digits::lemma_two_pow_positive(1074);
    let q = quarter();
    let d: int = 10_000_000_000_000_000;
    let h: int = 15_707_963_267_948_966;
    let u = unit() as int;
    let m = (a.abs_units() + b.abs_units()) as int;
    let v = i * h * u;
    let p = PARTS as int;
    assert(within(v, m * d)) by {
        let (lo, hi) = if a.units() <= b.units() {
            (a.units(), b.units())
        } else {
            (b.units(), a.units())
        };
        assert((v - lo * d) * p >= 0);
        assert((hi * d - v) * p >= 0);
        assert(-m <= lo && hi <= m);
    }
    let n = abs(i);
    assert(abs(v) == (n * h) * u) by (nonlinear_arith)
        requires
            v == i * h * u,
            i == n || i == -n,
            n >= 0,
            u > 0,
            h > 0,
    ;
    assert(q * d <= 2 * (h * u));
    assert((n * q) * d <= 2 * ((n * h) * u)) by (nonlinear_arith)
        requires
            q * d <= 2 * (h * u),
            n >= 0,
    ;
    assert(abs(i * q) == n * q) by (nonlinear_arith)
        requires
            i == n || i == -n,
            n >= 0,
            q > 0,
    ;
}

/// Quarter turns between two angles as they stand in the code.
proof fn lemma_between_ends(lo: int, hi: int, x: int, v: int, m: int, s: int)
    requires
        (v - lo * DECIMALS) * PARTS >= s * DECIMALS,
        (hi * DECIMALS - v) * PARTS >= s * DECIMALS,
        within((x * DECIMALS - v) * PARTS, m * DECIMALS),
    ensures
        (x - lo) * PARTS >= s - m,
        (hi - x) * PARTS >= s - m,
{
    let d: int = 10_000_000_000_000_000;
    let p = PARTS as int;
    assert((x - lo) * d == (x * d - v) + (v - lo * d));
    assert((hi - x) * d == (hi * d - v) - (x * d - v));
    assert(((x - lo) * p) * d >= (s - m) * d);
    assert(((hi - x) * p) * d >= (s - m) * d);
}

/// An angle near quarter turns as they stand in the code is near the decimal fraction.
proof fn lemma_as_quarters(theta: Scalar, r: int, s: int)
    requires
        theta.finite(),
        within((theta.units() - r * quarter()) * PARTS, 17 * s),
        abs(r * quarter()) <= 8 * s,
    ensures
        is_quarters(theta, r, 25 * s),
{
    reveal(is_quarters);
    lemma_decimals(r, 8 * s);
    let d: int = 10_000_000_000_000_000;
    let p = PARTS as int;
    let y = r * quarter();
    let z = r * QUARTER_DECIMALS * unit();
    let th = theta.units();
    assert(th * d - z == (th - y) * d + (y * d - z));
    assert(within(((th - y) * p) * d, (17 * s) * d));
    assert((th * d - z) * p == ((th - y) * p) * d + (y * d - z) * p);
}

/// A multiple of the quarter turn from its rest and its full turns.
proof fn lemma_full_turns(i: int, j: int, n: int)
    requires
        i == 4 * n + j,
    ensures
        i * quarter() == j * quarter() + n * (4 * quarter()),
{
    let q = quarter();
    assert(i * q == j * q + n * (4 * q)) by (nonlinear_arith)
        requires
            i == 4 * n + j,
    ;
}

proof fn lemma_rest(k: Scalar, j: int)
    requires
        k.units() == j * quarter(),
        -1 <= j <= 2,
    ensures
        abs(k.units()) <= 2 * quarter(),
        quarter() > 0,
{
    lemma_turns();
    digits::lemma_two_pow_positive(1074);
    let q = quarter();
    assert(j == -1 || j == 0 || j == 1 || j == 2);
    assert(-1 * q == -q && 0 * q == 0 && 1 * q == q);
}

/// One of the axis directions: what the sweep passes is found.
proof fn lemma_found(k: Scalar, j: int, a: Scalar, b: Scalar, lo: Scalar, hi: Scalar, i: int) -> (
    r: int)
    requires
        ordinary(a),
        ordinary(b),
        (lo == a && hi == b) || (lo == b && hi == a),
        lo.units() <= hi.units(),
        passes(a, b, i),
        k.finite(),
        k.units() == j * quarter(),
        -1 <= j <= 2,
        (i - j) % 4 == 0,
    ensures
        fit::extremum(k, lo, hi) == seq![fit::next_angle(k, lo)],
        is_quarters(fit::next_angle(k, lo), r, slack(a, b)),
        (r - i) % 4 == 0,
{
    lemma_rest(k, j);
    let q = quarter();
    let t = 4 * q;
    let n = (i - j) / 4;
    let c = lemma_next_angle(k, lo);
    let theta = fit::next_angle(k, lo);
    let s = size(lo);
    lemma_full_turns(i, j, n);
    lemma_passed_size(a, b, i);
    let m = (2 * (a.abs_units() + b.abs_units())) as int;
    lemma_decimals(i, m);
    assert((i * q - lo.units()) * PARTS >= slack(a, b) - m && (hi.units() - i * q) * PARTS >= slack(
        a,
        b,
    ) - m) by {
        reveal(passes);
        lemma_between_ends(
            lo.units(),
            hi.units(),
            i * q,
            i * QUARTER_DECIMALS * unit(),
            m,
            slack(a, b),
        );
    }
    digits::lemma_two_pow_positive(1074);
    assert(slack(a, b) - m >= 25 * s);
    assert((k.units() + n * t - lo.units()) * PARTS >= 4 * s);
    assert(c <= n);
    assert(c * t <= n * t) by (nonlinear_arith)
        requires
            c <= n,
            t > 0,
    ;
    assert(theta.units() <= hi.units());
    let r = 4 * c + j;
    assert(r - i == 4 * (c - n));
    lemma_full_turns(r, j, c);
    lemma_turns();
    lemma_as_quarters(theta, r, s);
    lemma_looser(theta, r, 25 * s, slack(a, b));
    r
}

proof fn lemma_looser(theta: Scalar, r: int, s: int, e: int)
    requires
        is_quarters(theta, r, s),
        s <= e,
    ensures
        is_quarters(theta, r, e),
{
    reveal(is_quarters);
}

/// Every axis direction that the sweep of an arc passes is among its extreme angles, up to full
/// turns: where `i` quarter turns lie between the ends, some listed angle is a number of quarter
/// turns that differs from `i` by a multiple of four.
pub proof fn law_extrema_hold_each_axis(
    start: Scalar,
    sweep: Scalar,
    angles: Vec<Scalar>,
    i: int,
) -> (at: (int, int))
    requires
        call_ensures(fit::arc_extrema, (start, sweep), angles),
        ordinary(start),
        ordinary(start.sum(sweep)),
        !sweep.nan(),
        passes(start, start.sum(sweep), i),
    ensures
        0 <= at.0 < angles@.len(),
        is_quarters(angles@[at.0], at.1, slack(start, start.sum(sweep))),
        (at.1 - i) % 4 == 0,
{
    let end = start.sum(sweep);
    let (lo, hi) = fit::sweep_ends(start, sweep);
    lemma_ends(start, sweep);
    lemma_turns();
    lemma_axes();
    let n = lemma_places(start, sweep);
    if i % 4 == 0 {
        (2, lemma_found(Scalar { bits: 0 }, 0, start, end, lo, hi, i))
    } else if i % 4 == 2 {
        (n.0, lemma_found(Scalar { bits: fit::HALF_TURN_BITS }, 2, start, end, lo, hi, i))
    } else if i % 4 == 1 {
        (n.1, lemma_found(Scalar { bits: fit::QUARTER_BITS }, 1, start, end, lo, hi, i))
    } else {
        (n.2, lemma_found(Scalar { bits: fit::QUARTER_BACK_BITS }, -1, start, end, lo, hi, i))
    }
}

/// Where the axis directions stand in the list, if they do.
proof fn lemma_places(start: Scalar, sweep: Scalar) -> (n: (int, int, int))
    requires
        start.finite(),
        start.sum(sweep).finite(),
    ensures
        ({
            let (lo, hi) = fit::sweep_ends(start, sweep);
            let angles = fit::extreme_angles(start, sweep);
            let e0 = fit::extremum(Scalar { bits: 0 }, lo, hi);
            let e1 = fit::extremum(Scalar { bits: fit::HALF_TURN_BITS }, lo, hi);
            let e2 = fit::extremum(Scalar { bits: fit::QUARTER_BITS }, lo, hi);
            let e3 = fit::extremum(Scalar { bits: fit::QUARTER_BACK_BITS }, lo, hi);
            &&& e0.len() > 0 ==> 2 < angles.len() && angles[2] == e0[0]
            &&& e1.len() > 0 ==> 0 <= n.0 < angles.len() && angles[n.0] == e1[0]
            &&& e2.len() > 0 ==> 0 <= n.1 < angles.len() && angles[n.1] == e2[0]
            &&& e3.len() > 0 ==> 0 <= n.2 < angles.len() && angles[n.2] == e3[0]
        }),
{
    let (lo, hi) = fit::sweep_ends(start, sweep);
    let e0 = fit::extremum(Scalar { bits: 0 }, lo, hi);
    let e1 = fit::extremum(Scalar { bits: fit::HALF_TURN_BITS }, lo, hi);
    let e2 = fit::extremum(Scalar { bits: fit::QUARTER_BITS }, lo, hi);
    (2 + e0.len() as int, (2 + e0.len() + e1.len()) as int, (2 + e0.len() + e1.len() + e2.len())
        as int)
}

/// The axis directions as multiples of the quarter turn.
proof fn lemma_axes()
    ensures
        (Scalar { bits: 0 }).finite(),
        (Scalar { bits: 0 }).units() == 0 * quarter(),
        (Scalar { bits: fit::QUARTER_BITS }).units() == 1 * quarter(),
        (Scalar { bits: fit::HALF_TURN_BITS }).units() == 2 * quarter(),
        (Scalar { bits: fit::QUARTER_BACK_BITS }).units() == -1 * quarter(),
{
    lemma_turns();
    scalar::lemma_zero(Scalar { bits: 0 });
}

/// The lesser end of a sweep comes first.
proof fn lemma_ends(start: Scalar, sweep: Scalar)
    requires
        start.finite(),
        start.sum(sweep).finite(),
        !sweep.nan(),
    ensures
        ({
            let (lo, hi) = fit::sweep_ends(start, sweep);
            let end = start.sum(sweep);
            &&& (lo == start && hi == end) || (lo == end && hi == start)
            &&& lo.units() <= hi.units()
        }),
{
    accuracy::law_sum_error(start, sweep);
    scalar::lemma_zero(Scalar { bits: 0 });
    if sweep.units() >= 0 {
        laws::law_adding_does_not_shrink(start, sweep);
    } else {
        let b = sweep.negated();
        assert(b.magnitude() == sweep.magnitude() && b.negated() == sweep);
        laws::law_adding_does_not_shrink(start, b);
    }
}

/// An angle is a number of quarter turns and lies between two others, up to rounding.
pub open spec fn is_axis_between(angle: Scalar, a: Scalar, b: Scalar, i: int) -> bool {
    let (lo, hi) = if a.units() <= b.units() {
        (a, b)
    } else {
        (b, a)
    };
    &&& is_quarters(angle, i, slack(a, b))
    &&& angle.units() <= hi.units()
    &&& (angle.units() - lo.units()) * PARTS >= -slack(a, b)
}

/// An extreme angle that is no end of the sweep.
proof fn lemma_listed(k: Scalar, j: int, a: Scalar, b: Scalar, lo: Scalar, hi: Scalar) -> (r: int)
    requires
        ordinary(lo),
        (lo == a && hi == b) || (lo == b && hi == a),
        lo.units() <= hi.units(),
        k.finite(),
        k.units() == j * quarter(),
        -1 <= j <= 2,
        fit::extremum(k, lo, hi).len() > 0,
    ensures
        is_axis_between(fit::extremum(k, lo, hi)[0], a, b, r),
{
    lemma_rest(k, j);
    lemma_turns();
    digits::lemma_two_pow_positive(1074);
    let c = lemma_next_angle(k, lo);
    let r = 4 * c + j;
    let theta = fit::next_angle(k, lo);
    let s = size(lo);
    lemma_full_turns(r, j, c);
    lemma_as_quarters(theta, r, s);
    lemma_looser(theta, r, 25 * s, slack(a, b));
    let y = r * quarter();
    assert((theta.units() - lo.units()) * PARTS == (theta.units() - y) * PARTS + (y - lo.units())
        * PARTS);
    assert((theta.units() - lo.units()) * PARTS >= -21 * s);
    assert(fit::extremum(k, lo, hi) == seq![theta]);
    r
}

/// Which list an extreme angle that is no end of the sweep comes from.
proof fn lemma_which(start: Scalar, sweep: Scalar, n: int) -> (k: Scalar)
    requires
        start.finite(),
        start.sum(sweep).finite(),
        2 <= n < fit::extreme_angles(start, sweep).len(),
    ensures
        k == (Scalar { bits: 0 }) || k == (Scalar { bits: fit::HALF_TURN_BITS }) || k == (Scalar {
            bits: fit::QUARTER_BITS,
        }) || k == (Scalar { bits: fit::QUARTER_BACK_BITS }),
        ({
            let (lo, hi) = fit::sweep_ends(start, sweep);
            let e = fit::extremum(k, lo, hi);
            e.len() > 0 && fit::extreme_angles(start, sweep)[n] == e[0]
        }),
{
    let (lo, hi) = fit::sweep_ends(start, sweep);
    let e0 = fit::extremum(Scalar { bits: 0 }, lo, hi);
    let e1 = fit::extremum(Scalar { bits: fit::HALF_TURN_BITS }, lo, hi);
    let e2 = fit::extremum(Scalar { bits: fit::QUARTER_BITS }, lo, hi);
    if n < 2 + e0.len() {
        Scalar { bits: 0 }
    } else if n < 2 + e0.len() + e1.len() {
        Scalar { bits: fit::HALF_TURN_BITS }
    } else if n < 2 + e0.len() + e1.len() + e2.len() {
        Scalar { bits: fit::QUARTER_BITS }
    } else {
        Scalar { bits: fit::QUARTER_BACK_BITS }
    }
}

/// The extreme angles are the ends of the sweep, and beside them quarter turns between the ends:
/// the box of an arc is not larger than its points.
pub proof fn law_extrema_are_ends_or_axes(
    start: Scalar,
    sweep: Scalar,
    angles: Vec<Scalar>,
    n: int,
) -> (i: int)
    requires
        call_ensures(fit::arc_extrema, (start, sweep), angles),
        ordinary(start),
        ordinary(start.sum(sweep)),
        !sweep.nan(),
        0 <= n < angles@.len(),
    ensures
        n == 0 ==> angles@[n] == start,
        n == 1 ==> angles@[n] == start.sum(sweep),
        n >= 2 ==> is_axis_between(angles@[n], start, start.sum(sweep), i),
{
    if n < 2 {
        0
    } else {
        let (lo, hi) = fit::sweep_ends(start, sweep);
        lemma_ends(start, sweep);
        lemma_turns();
        lemma_axes();
        let k = lemma_which(start, sweep, n);
        let j = if k == (Scalar { bits: 0 }) {
            0
        } else if k == (Scalar { bits: fit::HALF_TURN_BITS }) {
            2
        } else if k == (Scalar { bits: fit::QUARTER_BITS }) {
            1int
        } else {
            -1
        };
        lemma_listed(k, j, start, start.sum(sweep), lo, hi)
    }
}

} // verus!
