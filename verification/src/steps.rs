//! How an arc is cut into curves.

use vstd::prelude::*;
use vstd::math::abs;
use crate::accuracy;
use crate::accuracy::{within, PARTS};
use crate::arith;
use crate::digits;
use crate::extrema;
use crate::extrema::{quarter, unit};
use crate::fit;
use crate::geometry::Vec2;
use crate::laws;
use crate::path2d;
use crate::path2d::{curve_count, curve_step, ArcPlan};
use crate::rounding;
use crate::scalar;
use crate::scalar::{Scalar, FRACTION_RANGE};

verus! {

/// The number of curves of an arc is positive and exact.
proof fn lemma_count(sweep: Scalar)
    ensures
        1 <= curve_count(sweep) <= 0xf_ffff_ffff_ffff,
        Scalar::integer(curve_count(sweep)).finite(),
        Scalar::integer(curve_count(sweep)).units() == curve_count(sweep) * unit(),
{
    reveal(Scalar::truncated);
    laws::law_small_integers_are_exact(curve_count(sweep));
}

/// An arc starts at its start and goes on in equal steps, which are the sweep from start to end
/// divided by their number; the sign of the step is that of the sweep.
pub proof fn law_arcs_are_cut_evenly(
    radii: Vec2,
    start: Scalar,
    end: Scalar,
    plan: ArcPlan,
    i: int,
) -> (step: Scalar)
    requires
        call_ensures(path2d::plan_arc, (radii, start, end), plan),
        1 <= i < plan.angles@.len(),
    ensures
        plan.angles@[0] == start,
        plan.angles@[i] == plan.angles@[i - 1].sum(step),
        ({
            let sweep = end.difference(start).units();
            let n = plan.angles@.len() - 1;
            step.finite() ==> abs(n * step.units() - sweep) * PARTS <= abs(sweep) + n
                * FRACTION_RANGE
        }),
        step.finite() && plan.quarter.finite() ==> abs(4 * plan.quarter.units() - step.units())
            * PARTS <= abs(step.units()) + 4 * FRACTION_RANGE,
{
    let sweep = end.difference(start);
    lemma_count(sweep);
    digits::lemma_two_pow_positive(1074);
    let n = curve_count(sweep);
    let step = curve_step(sweep);
    assert(plan.angles@.len() == n + 1);
    assert(path2d::stepped(start, step, 0) == start);
    assert(plan.angles@[i] == path2d::stepped(start, step, i as nat));
    let u = unit() as int;
    if step.finite() {
        let count = Scalar::integer(n);
        assert(n * u > 0) by (nonlinear_arith)
            requires
                n >= 1,
                u > 0,
        ;
        accuracy::law_quotient_error(sweep, count);
        let (x, v) = (step.units(), sweep.units());
        let m = sweep.abs_units() as int;
        let f = FRACTION_RANGE as int;
        assert(within((n * x - v) * PARTS, m + n * f)) by (nonlinear_arith)
            requires
                within((x * (n * u) - v * u) * PARTS, m * u + (n * u) * f),
                u > 0,
        ;
        if plan.quarter.finite() {
            lemma_four();
            let four = Scalar { bits: path2d::FOUR_BITS };
            accuracy::law_quotient_error(step, four);
            let y = plan.quarter.units();
            let k = step.abs_units() as int;
            assert(within((4 * y - x) * PARTS, k + 4 * f)) by (nonlinear_arith)
                requires
                    within((y * (4 * u) - x * u) * PARTS, k * u + (4 * u) * f),
                    u > 0,
            ;
        }
    }
    step
}

proof fn lemma_four()
    ensures
        (Scalar { bits: path2d::FOUR_BITS }).finite(),
        (Scalar { bits: path2d::FOUR_BITS }).units() == 4 * unit(),
{
    let four = Scalar { bits: path2d::FOUR_BITS };
    arith::lemma_two_pow_53();
    digits::lemma_two_pow_adds(52, 1024);
    digits::lemma_two_pow_adds(2, 1074);
    assert(digits::two_pow(2) == 4) by {
        reveal_with_fuel(digits::two_pow, 3);
    }
    assert(four.scale() == 1024 && four.significand() == FRACTION_RANGE);
}

/// An arc has as many curves as it needs quarter turns: no curve is longer than one, up to
/// rounding, and one curve less would not do.
pub proof fn law_curves_are_at_most_a_quarter_turn(sweep: Scalar)
    requires
        sweep.finite(),
        sweep.units() != 0,
        sweep.abs_units() <= 0x100_0000_0000 * unit(),
    ensures
        ({
            let n = curve_count(sweep);
            let size = sweep.abs_units();
            &&& (size - n * quarter()) * PARTS <= 2 * size + 2 * PARTS
            &&& n > 1 ==> ((n - 1) * quarter() - size) * PARTS <= 2 * size + 2 * PARTS
        }),
{
    extrema::lemma_turns();
    digits::lemma_two_pow_positive(1074);
    let a = sweep.absolute();
    assert(a.magnitude() == sweep.magnitude() && a.units() == sweep.abs_units());
    let q = Scalar { bits: path2d::QUARTER_BITS };
    assert(path2d::QUARTER_BITS == fit::QUARTER_BITS);
    let u = unit() as int;
    let g = quarter();
    let m = sweep.abs_units() as int;
    digits::lemma_two_pow_adds(41, 1074);
    assert(digits::two_pow(41) == 0x200_0000_0000) by {
        reveal_with_fuel(digits::two_pow, 42);
    }
    assert(m * u <= g * (0x200_0000_0000 * u)) by (nonlinear_arith)
        requires
            m <= 0x100_0000_0000 * u,
            u <= g,
            u > 0,
            m >= 0,
    ;
    accuracy::law_quotients_stay_finite(a, q, 1115);
    accuracy::law_quotient_error(a, q);
    let r = a.quotient(q);
    let c = rounding::law_ceiling_is_next_integer(r);
    let x = r.units();
    assert(!r.negative()) by {
        reveal(Scalar::quotient);
        scalar::lemma_zero(q);
        arith::lemma_nearest_range(a.abs_units() * digits::two_pow(1074), q.abs_units());
        laws::lemma_signed_magnitude(
            false,
            arith::nearest(a.abs_units() * digits::two_pow(1074), q.abs_units()),
        );
    }
    let k = r.ceiled();
    assert(c >= 0) by (nonlinear_arith)
        requires
            c * u >= x,
            x >= 0,
            u > 0,
    ;
    assert(c <= 0x201_0000_0000) by (nonlinear_arith)
        requires
            c * u < x + u,
            x <= 0x200_0000_0000 * u,
            u > 0,
    ;
    rounding::law_truncating_holds_integers(k, c, path2d::MOST_CURVES as nat);
    lemma_ceiled_sign(r);
    reveal(Scalar::truncated);
    let n = curve_count(sweep);
    assert(n == if c == 0 {
        1
    } else {
        c
    });
    let f = FRACTION_RANGE as int;
    lemma_sizes(x, c, n as int, m, g, u, f);
}

/// Rounding up keeps the sign of what is not negative.
proof fn lemma_ceiled_sign(r: Scalar)
    requires
        r.finite(),
        !r.negative(),
    ensures
        !r.ceiled().negative(),
{
    reveal(Scalar::ceiled);
    let w = r.whole() + 1;
    arith::lemma_nearest_range(w * digits::two_pow(1074), 1);
    laws::lemma_signed_magnitude(false, arith::nearest(w * digits::two_pow(1074), 1));
}

/// The number of curves against the size of the sweep.
proof fn lemma_sizes(x: int, c: int, n: int, m: int, g: int, u: int, f: int)
    requires
        u > 0,
        u <= g <= 2 * u,
        m > 0,
        within((x * g - m * u) * PARTS, m * u + g * f),
        2 * f == PARTS,
        x <= c * u < x + u,
        0 <= c <= n,
        n == c || (c == 0 && n == 1),
    ensures
        (m - n * g) * PARTS <= 2 * m + 2 * PARTS,
        n > 1 ==> ((n - 1) * g - m) * PARTS <= 2 * m + 2 * PARTS,
{
    let p = PARTS as int;
    let cg = c * g;
    assert(x * g <= cg * u && cg * u <= x * g + u * g) by (nonlinear_arith)
        requires
            x <= c * u < x + u,
            g > 0,
            cg == c * g,
    ;
    assert(g * f <= (2 * f) * u) by (nonlinear_arith)
        requires
            g <= 2 * u,
            f >= 0,
    ;
    let h = x * g - m * u;
    assert((m - cg) * u == m * u - cg * u) by (nonlinear_arith);
    assert((m - cg) * u <= -h);
    assert(((m - cg) * p) * u <= (m + 2 * f) * u) by (nonlinear_arith)
        requires
            (m - cg) * u <= -h,
            -(h * p) <= m * u + (2 * f) * u,
            p > 0,
    ;
    assert((m - cg) * p <= m + 2 * f) by (nonlinear_arith)
        requires
            ((m - cg) * p) * u <= (m + 2 * f) * u,
            u > 0,
    ;
    assert(n * g >= cg) by (nonlinear_arith)
        requires
            n >= c,
            g > 0,
            cg == c * g,
    ;
    if n > 1 {
        let dg = (n - 1) * g;
        assert(dg == cg - g) by (nonlinear_arith)
            requires
                n == c,
                dg == (n - 1) * g,
                cg == c * g,
        ;
        assert(((dg - m) * p) * u <= (m + 2 * f) * u) by (nonlinear_arith)
            requires
                dg == cg - g,
                cg * u <= x * g + u * g,
                h == x * g - m * u,
                h * p <= m * u + (2 * f) * u,
                p > 0,
        ;
        assert((dg - m) * p <= m + 2 * f) by (nonlinear_arith)
            requires
                ((dg - m) * p) * u <= (m + 2 * f) * u,
                u > 0,
        ;
    }
}

/// An arc that runs counterclockwise ends a full turn before its end: less by two pi, up to
/// rounding.
pub proof fn law_counterclockwise_arcs_end_a_turn_before(end: Scalar, r: Scalar)
    requires
        call_ensures(path2d::ccw_end, (end,), r),
        r.finite(),
    ensures
        abs(r.units() - (end.units() - 4 * quarter())) * PARTS <= abs(end.units()) + 4 * quarter(),
        within(
            (quarter() * 10_000_000_000_000_000 - 15_707_963_267_948_966 * unit()) * PARTS,
            quarter() * 10_000_000_000_000_000,
        ),
{
    extrema::lemma_turns();
    let turn = Scalar { bits: path2d::TURN_BITS };
    assert(path2d::TURN_BITS == fit::TURN_BITS);
    let back = turn.negated();
    assert(back.magnitude() == turn.magnitude() && back.units() == -turn.units());
    accuracy::law_sum_error(end, back);
    digits::lemma_two_pow_positive(1074);
}

} // verus!
