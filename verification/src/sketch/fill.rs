//! The strokes and dots of a hand-drawn fill.
//!
//! Lines and dots lie on a lattice that is anchored at the origin, so that shapes at different
//! places agree. They cover a box and go beyond it; the caller clips them to the shape.

use vstd::prelude::*;
use crate::arith;
use crate::digits;
use crate::geometry::{Point, Rect, Vec2, HALF_BITS, TWO_BITS};
use crate::laws;
use crate::rounding;
use crate::scalar;
use crate::scalar::{Scalar, ONE_BITS};
use crate::sketch::rough;
use crate::style;
use crate::style::{SketchFill, SketchFillStyle};

verus! {

/// The most strokes that one fill draws.
pub const HARD_CAP: usize = 20_000;

/// The bit pattern of `90.0`.
pub const RIGHT_ANGLE_BITS: u64 = 0x4056_8000_0000_0000;

/// The bit pattern of the number of radians in a degree.
pub const RADIANS_BITS: u64 = 0x3f91_df46_a252_9d39;

/// The bit pattern of the largest finite number.
pub const LARGEST_BITS: u64 = 0x7fef_ffff_ffff_ffff;

/// The bit pattern of the least finite number.
pub const LEAST_BITS: u64 = 0xffef_ffff_ffff_ffff;

/// The bit pattern of `1.5`.
pub const DOT_BITS: u64 = 0x3ff8_0000_0000_0000;

/// The bit pattern of `0.35`.
pub const LEAST_DOT_BITS: u64 = 0x3fd6_6666_6666_6666;

/// The bit pattern of `0.4`.
pub const MOST_DOT_BITS: u64 = 0x3fd9_9999_9999_999a;

/// The largest lattice index.
pub const INDEX_CAP: u64 = 0xf_ffff_ffff_ffff;

/// How often the distance between lines is raised.
pub const ATTEMPTS: usize = 16;

/// Whether the style is drawn as strokes.
pub fn is_stroke_style(f: &SketchFill) -> (r: bool)
    ensures
        r == (f.style != SketchFillStyle::Dots),
{
    match f.style {
        SketchFillStyle::Dots => false,
        _ => true,
    }
}

/// The directions of the line families in radians.
pub open spec fn family_angles(f: SketchFill) -> Seq<Scalar> {
    let rad = Scalar { bits: RADIANS_BITS };
    match f.style {
        SketchFillStyle::Dots => Seq::empty(),
        SketchFillStyle::CrossHatch => seq![
            f.angle.product(rad),
            f.angle.sum(Scalar { bits: RIGHT_ANGLE_BITS }).product(rad),
        ],
        _ => seq![f.angle.product(rad)],
    }
}

/// The directions of the line families in radians: one, two at right angles for a cross-hatch,
/// and none for dots.
pub fn stroke_angles(f: &SketchFill) -> (angles: Vec<Scalar>)
    ensures
        angles@ == family_angles(*f),
{
    let rad = Scalar { bits: RADIANS_BITS };
    let mut angles: Vec<Scalar> = Vec::new();
    match f.style {
        SketchFillStyle::Dots => {},
        SketchFillStyle::CrossHatch => {
            angles.push(f.angle.mul(rad));
            angles.push(f.angle.add(Scalar { bits: RIGHT_ANGLE_BITS }).mul(rad));
        },
        _ => {
            angles.push(f.angle.mul(rad));
        },
    }
    assert(angles@ =~= family_angles(*f));
    angles
}

/// The radius of a dot: grows with the line width, and leaves space between dots.
pub open spec fn dot_size(f: SketchFill) -> Scalar {
    f.pen().product(Scalar { bits: DOT_BITS }).greatest(Scalar { bits: LEAST_DOT_BITS }).least(
        style::spaced(f.line_gap).product(Scalar { bits: MOST_DOT_BITS }),
    )
}

/// Dots do not merge: their radius is at most two fifths of the distance between them.
pub proof fn law_dots_leave_space(f: SketchFill)
    ensures
        !style::spaced(f.line_gap).product(Scalar { bits: MOST_DOT_BITS }).less(dot_size(f)),
{
}

/// The radius of a dot.
pub fn dot_radius(f: &SketchFill) -> (r: Scalar)
    ensures
        r == dot_size(*f),
{
    f.weight().mul(Scalar { bits: DOT_BITS }).max(Scalar { bits: LEAST_DOT_BITS }).min(
        f.gap().mul(Scalar { bits: MOST_DOT_BITS }),
    )
}

/// The direction across lines of direction `u`.
pub open spec fn across(u: Vec2) -> Vec2 {
    Vec2 { x: u.y.negated(), y: u.x }
}

pub open spec fn dot_product(p: Point, u: Vec2) -> Scalar {
    p.x.product(u.x).sum(p.y.product(u.y))
}

fn dot(p: Point, u: Vec2) -> (r: Scalar)
    ensures
        r == dot_product(p, u),
{
    p.x.mul(u.x).add(p.y.mul(u.y))
}

/// The least of the first `n` corners along a direction.
pub open spec fn lowest(points: Seq<Point>, u: Vec2, n: nat) -> Scalar
    decreases n,
{
    if n == 0 || n > points.len() {
        Scalar { bits: LARGEST_BITS }
    } else {
        lowest(points, u, (n - 1) as nat).least(dot_product(points[n - 1], u))
    }
}

/// The greatest of the first `n` corners along a direction.
pub open spec fn highest(points: Seq<Point>, u: Vec2, n: nat) -> Scalar
    decreases n,
{
    if n == 0 || n > points.len() {
        Scalar { bits: LEAST_BITS }
    } else {
        highest(points, u, (n - 1) as nat).greatest(dot_product(points[n - 1], u))
    }
}

/// The extent of a box along a direction.
pub open spec fn extent_along(b: Rect, u: Vec2) -> (Scalar, Scalar) {
    (lowest(rough::corners(b), u, 4), highest(rough::corners(b), u, 4))
}

/// The extent of a box along a direction.
pub fn projection(b: Rect, u: Vec2) -> (r: (Scalar, Scalar))
    ensures
        r == extent_along(b, u),
{
    let points = rough::rect_points(b);
    let mut lo = Scalar { bits: LARGEST_BITS };
    let mut hi = Scalar { bits: LEAST_BITS };
    let mut i: usize = 0;
    while i < 4
        invariant
            i <= 4,
            points@ == rough::corners(b),
            lo == lowest(points@, u, i as nat),
            hi == highest(points@, u, i as nat),
        decreases 4 - i,
    {
        let d = dot(points[i], u);
        lo = lo.min(d);
        hi = hi.max(d);
        i += 1;
    }
    (lo, hi)
}

/// The first and the last index whose line can reach `[lo, hi]` at a distance.
pub open spec fn covering(lo: Scalar, hi: Scalar, gap: Scalar) -> (Scalar, Scalar) {
    (lo.difference(gap).quotient(gap).floored(), hi.sum(gap).quotient(gap).ceiled())
}

/// The number of indices.
pub open spec fn index_count(k: (Scalar, Scalar)) -> Scalar {
    k.1.difference(k.0).sum(Scalar { bits: ONE_BITS }).greatest(Scalar { bits: 0 })
}

/// The number of indices is within the limit.
pub open spec fn affordable(k: (Scalar, Scalar), max: Scalar) -> bool {
    !index_count(k).nan() && !max.nan() && !max.less(index_count(k))
}

/// The indices and the distance after at most `n` attempts.
pub open spec fn coarsened(lo: Scalar, hi: Scalar, gap: Scalar, max: Scalar, n: nat) -> (
    (Scalar, Scalar),
    Scalar,
)
    decreases n,
{
    let k = covering(lo, hi, gap);
    if affordable(k, max) {
        (k, gap)
    } else {
        let wider = gap.product(
            index_count(k).quotient(max).ceiled().greatest(Scalar { bits: TWO_BITS }),
        );
        if n <= 1 {
            (k, wider)
        } else {
            coarsened(lo, hi, wider, max, (n - 1) as nat)
        }
    }
}

/// The limit as a number, at least 1.
pub open spec fn limit_of(max: usize) -> Scalar {
    Scalar::integer(
        if max == 0 {
            1
        } else {
            max as nat
        },
    )
}

/// The indices that cover `[lo, hi]`, and the distance at which there are no more than `max`.
pub open spec fn index_span(lo: Scalar, hi: Scalar, gap: Scalar, max: usize) -> (int, int, Scalar) {
    let (k, wide) = coarsened(lo, hi, gap, limit_of(max), ATTEMPTS as nat);
    (k.0.truncated_signed(INDEX_CAP as nat), k.1.truncated_signed(INDEX_CAP as nat), wide)
}

/// The indices that cover `[lo, hi]`, and the distance, raised until there are no more than
/// `max`.
pub fn index_range(lo: Scalar, hi: Scalar, gap: Scalar, max: usize) -> (r: (i64, i64, Scalar))
    ensures
        (r.0 as int, r.1 as int, r.2) == index_span(lo, hi, gap, max),
        -0x10_0000_0000_0000 < r.0 < 0x10_0000_0000_0000,
        -0x10_0000_0000_0000 < r.1 < 0x10_0000_0000_0000,
{
    proof {
        reveal(Scalar::truncated);
    }
    let most = Scalar::from_u64(
        if max == 0 {
            1
        } else {
            max as u64
        },
    );
    let one = Scalar { bits: ONE_BITS };
    let two = Scalar { bits: TWO_BITS };
    let zero = Scalar { bits: 0 };
    let mut wide = gap;
    let mut k0 = zero;
    let mut k1 = zero;
    let mut i: usize = 0;
    let mut found = false;
    let ghost goal = coarsened(lo, hi, gap, most, ATTEMPTS as nat);
    while i < ATTEMPTS && !found
        invariant
            i <= ATTEMPTS,
            most == limit_of(max),
            one == (Scalar { bits: ONE_BITS }),
            two == (Scalar { bits: TWO_BITS }),
            zero == (Scalar { bits: 0 }),
            found ==> goal == ((k0, k1), wide),
            !found && i < ATTEMPTS ==> goal == coarsened(lo, hi, wide, most, (ATTEMPTS - i) as nat),
            !found && i == ATTEMPTS ==> goal == ((k0, k1), wide),
        decreases ATTEMPTS - i,
    {
        k0 = lo.sub(wide).div(wide).floor();
        k1 = hi.add(wide).div(wide).ceil();
        let count = k1.sub(k0).add(one).max(zero);
        if !count.is_nan() && !most.is_nan() && !most.lt(count) {
            found = true;
        } else {
            wide = wide.mul(count.div(most).ceil().max(two));
        }
        i += 1;
    }
    (k0.to_i64(INDEX_CAP), k1.to_i64(INDEX_CAP), wide)
}

/// A distance at which there are no more indices than allowed is kept.
pub proof fn law_affordable_gap_is_kept(lo: Scalar, hi: Scalar, gap: Scalar, max: Scalar, n: nat)
    requires
        affordable(covering(lo, hi, gap), max),
    ensures
        coarsened(lo, hi, gap, max, n) == (covering(lo, hi, gap), gap),
{
}

/// The sides are numbers, or neither of them is.
proof fn lemma_covering(lo: Scalar, hi: Scalar, gap: Scalar)
    requires
        !lo.nan(),
        !hi.nan(),
        (Scalar { bits: 0 }).less(gap),
    ensures
        covering(lo, hi, gap).0.nan() <==> covering(lo, hi, gap).1.nan(),
        covering(lo, hi, gap).0.finite() ==> covering(lo, hi, gap).0.excess() == 0,
        covering(lo, hi, gap).1.finite() ==> covering(lo, hi, gap).1.excess() == 0,
{
    let a = lo.difference(gap);
    let b = hi.sum(gap);
    let back = gap.negated();
    assert(back.magnitude() == gap.magnitude());
    assert(!gap.nan() && !back.nan());
    assert(back.finite() == gap.finite());
    assert(gap.finite() || gap.infinite());
    lemma_sum_values(lo, back);
    lemma_sum_values(hi, gap);
    lemma_quotient_values(a, gap);
    lemma_quotient_values(b, gap);
    rounding::law_floor_and_ceiling_are_integers(a.quotient(gap));
    rounding::law_floor_and_ceiling_are_integers(b.quotient(gap));
}

/// A number moved by a finite distance is a number, and by an infinite one it is infinite or
/// none.
proof fn lemma_sum_values(a: Scalar, d: Scalar)
    requires
        !a.nan(),
        !d.nan(),
    ensures
        d.finite() ==> !a.sum(d).nan(),
        !d.finite() ==> a.sum(d).nan() || a.sum(d).infinite(),
{
    reveal(Scalar::sum);
    assert(a.finite() || a.infinite());
    assert(d.finite() || d.infinite());
    let u = a.units() + d.units();
    arith::lemma_nearest_range((-u) as nat, 1);
    arith::lemma_nearest_range(u as nat, 1);
}

/// A quotient of numbers by a positive finite number is a number; one by infinity is so where
/// the dividend is finite.
proof fn lemma_quotient_values(a: Scalar, gap: Scalar)
    requires
        (Scalar { bits: 0 }).less(gap),
    ensures
        a.quotient(gap).nan() <==> a.nan() || (a.infinite() && gap.infinite()),
{
    reveal(Scalar::quotient);
    scalar::lemma_zero(Scalar { bits: 0 });
    scalar::lemma_zero(gap);
    arith::lemma_nearest_range(a.abs_units() * digits::two_pow(1074), gap.abs_units());
}

/// The distance stays positive while it grows.
proof fn lemma_coarsened(lo: Scalar, hi: Scalar, gap: Scalar, max: Scalar, n: nat) -> (wide: Scalar)
    requires
        (Scalar { bits: 0 }).less(gap),
    ensures
        (Scalar { bits: 0 }).less(wide),
        coarsened(lo, hi, gap, max, n).0 == covering(lo, hi, wide),
    decreases n,
{
    let k = covering(lo, hi, gap);
    if affordable(k, max) || n <= 1 {
        gap
    } else {
        let two = Scalar { bits: TWO_BITS };
        let by = index_count(k).quotient(max).ceiled().greatest(two);
        lemma_two_is_above_one();
        laws::law_scaling_up_does_not_shrink(gap, by);
        lemma_coarsened(lo, hi, gap.product(by), max, (n - 1) as nat)
    }
}

pub proof fn lemma_two_is_above_one()
    ensures
        !(Scalar { bits: TWO_BITS }).nan(),
        (Scalar { bits: ONE_BITS }).units() < (Scalar { bits: TWO_BITS }).units(),
{
    scalar::lemma_magnitude_order(Scalar { bits: ONE_BITS }, Scalar { bits: TWO_BITS });
}

/// Indices within the limit are no more than it as integers.
proof fn lemma_affordable_indices(k: (Scalar, Scalar), limit: nat)
    requires
        k.0.nan() <==> k.1.nan(),
        k.0.finite() ==> k.0.excess() == 0,
        k.1.finite() ==> k.1.excess() == 0,
        affordable(k, Scalar::integer(limit)),
        1 <= limit,
    ensures
        span_len(
            k.0.truncated_signed(INDEX_CAP as nat),
            k.1.truncated_signed(INDEX_CAP as nat),
        ) <= limit,
{
    reveal(Scalar::truncated);
    let cap = INDEX_CAP as nat;
    let t0 = k.0.truncated_signed(cap);
    let t1 = k.1.truncated_signed(cap);
    assert(-(cap as int) <= t0 <= cap && -(cap as int) <= t1 <= cap);
    if limit < 0x1f_ffff_ffff_ffff && t1 - t0 >= limit {
        laws::law_small_integers_are_exact(limit);
        if k.0.finite() && k.1.finite() {
            lemma_finite_count(k, limit);
        } else {
            lemma_infinite_count(k, limit);
        }
        assert(false);
    }
}

/// The count of finite indices that are more than the limit is above it.
proof fn lemma_finite_count(k: (Scalar, Scalar), limit: nat)
    requires
        k.0.finite(),
        k.1.finite(),
        k.0.excess() == 0,
        k.1.excess() == 0,
        1 <= limit < 0x1f_ffff_ffff_ffff,
        k.1.truncated_signed(INDEX_CAP as nat) - k.0.truncated_signed(INDEX_CAP as nat) >= limit,
    ensures
        Scalar::integer(limit).less(index_count(k)),
{
    let u = digits::two_pow(1074);
    digits::lemma_two_pow_positive(1074);
    let a = rounding::lemma_integer_value(k.0);
    let b = rounding::lemma_integer_value(k.1);
    rounding::law_truncating_holds_integers(k.0, a, INDEX_CAP as nat);
    rounding::law_truncating_holds_integers(k.1, b, INDEX_CAP as nat);
    assert(b - a >= limit);
    laws::law_small_integers_are_exact(limit);
    laws::law_small_integers_are_exact(limit + 1);
    let l = Scalar::integer(limit);
    let m = Scalar::integer(limit + 1);
    let n = k.0.negated();
    assert(n.magnitude() == k.0.magnitude());
    assert(n.units() == -k.0.units());
    assert(limit * u <= b * u - a * u) by (nonlinear_arith)
        requires
            b - a >= limit,
            u > 0,
    ;
    laws::law_sums_keep_lower_bounds(k.1, n, l);
    let d = k.1.difference(k.0);
    let one = Scalar { bits: ONE_BITS };
    let zero = Scalar { bits: 0 };
    laws::lemma_one();
    scalar::lemma_zero(zero);
    assert((limit + 1) * u == limit * u + u) by (nonlinear_arith);
    let c = d.sum(one);
    if d.finite() {
        laws::law_sums_keep_lower_bounds(d, one, m);
    } else {
        reveal(Scalar::sum);
        assert(c == d);
        scalar::lemma_magnitude_order(m, d);
    }
    assert(!c.less(zero));
}

/// Of infinite indices either there is at most one, or the count is infinite.
proof fn lemma_infinite_count(k: (Scalar, Scalar), limit: nat)
    requires
        k.0.nan() <==> k.1.nan(),
        !k.0.finite() || !k.1.finite(),
        1 <= limit < 0x1f_ffff_ffff_ffff,
        k.1.truncated_signed(INDEX_CAP as nat) - k.0.truncated_signed(INDEX_CAP as nat) >= limit,
    ensures
        Scalar::integer(limit).less(index_count(k)),
{
    reveal(Scalar::sum);
    reveal(Scalar::truncated);
    laws::law_small_integers_are_exact(limit);
    let l = Scalar::integer(limit);
    let n = k.0.negated();
    assert(n.magnitude() == k.0.magnitude() && n.negative() != k.0.negative());
    assert(k.0.absolute().magnitude() == k.0.magnitude());
    assert(k.1.absolute().magnitude() == k.1.magnitude());
    let d = k.1.difference(k.0);
    let zero = Scalar { bits: 0 };
    scalar::lemma_zero(zero);
    assert(d.infinite() && !d.negative());
    let c = d.sum(Scalar { bits: ONE_BITS });
    laws::lemma_one();
    assert(c == d);
    assert(l.magnitude() < d.magnitude());
    scalar::lemma_magnitude_order(l, d);
    assert(!c.less(zero));
}

/// The extent of a box is made of numbers.
pub proof fn lemma_extent(points: Seq<Point>, u: Vec2, n: nat)
    ensures
        !lowest(points, u, n).nan(),
        !highest(points, u, n).nan(),
    decreases n,
{
    if 0 < n <= points.len() {
        lemma_extent(points, u, (n - 1) as nat);
    }
}

proof fn lemma_family_lines(
    k: int,
    n: nat,
    u: Vec2,
    gap: Scalar,
    ends: (Scalar, Scalar),
    zig: bool,
)
    ensures
        family_lines(k, n, u, gap, ends, zig).len() <= n,
    decreases n,
{
    if n > 0 {
        lemma_family_lines(k, (n - 1) as nat, u, gap, ends, zig);
    }
}

/// Where one of the attempts comes down to the limit, there are no more indices than it.
pub proof fn law_indices_stay_within_the_limit(lo: Scalar, hi: Scalar, gap: Scalar, max: usize)
    requires
        !lo.nan(),
        !hi.nan(),
        (Scalar { bits: 0 }).less(gap),
        affordable(
            coarsened(lo, hi, gap, limit_of(max), ATTEMPTS as nat).0,
            limit_of(max),
        ),
    ensures
        ({
            let (k0, k1, wide) = index_span(lo, hi, gap, max);
            span_len(k0, k1) <= if max == 0 {
                1
            } else {
                max as nat
            }
        }),
{
    let wide = lemma_coarsened(lo, hi, gap, limit_of(max), ATTEMPTS as nat);
    lemma_covering(lo, hi, wide);
    lemma_affordable_indices(
        covering(lo, hi, wide),
        if max == 0 {
            1
        } else {
            max as nat
        },
    );
}

/// Where one of the attempts comes down to the limit, a family has no more lines than it.
pub proof fn law_families_stay_within_the_limit(
    b: Rect,
    u: Vec2,
    gap: Scalar,
    zig: bool,
    max: usize,
)
    requires
        (Scalar { bits: 0 }).less(gap),
        ({
            let (lo, hi) = extent_along(b, across(u));
            affordable(
                coarsened(lo, hi, gap, limit_of(max), ATTEMPTS as nat).0,
                limit_of(max),
            )
        }),
    ensures
        family(b, u, gap, zig, max).len() <= if max == 0 {
            1
        } else {
            max as nat
        },
{
    let (lo, hi) = extent_along(b, u);
    let (v_lo, v_hi) = extent_along(b, across(u));
    lemma_extent(rough::corners(b), across(u), 4);
    law_indices_stay_within_the_limit(v_lo, v_hi, gap, max);
    let (k0, k1, wide) = index_span(v_lo, v_hi, gap, max);
    let two = Scalar { bits: TWO_BITS };
    let ends = (lo.difference(wide.product(two)), hi.sum(wide.product(two)));
    lemma_family_lines(k0, span_len(k0, k1), u, wide, ends, zig);
}

/// An index as a number.
pub open spec fn index_number(k: int) -> Scalar {
    if k < 0 {
        Scalar::integer((-k) as nat).negated()
    } else {
        Scalar::integer(k as nat)
    }
}

fn number_of(k: i64) -> (r: Scalar)
    requires
        k > i64::MIN,
    ensures
        r == index_number(k as int),
{
    if k < 0 {
        Scalar::from_u64((-k) as u64).neg()
    } else {
        Scalar::from_u64(k as u64)
    }
}

/// The place of lattice index `k`: in the middle of its step.
pub open spec fn lattice(k: int, gap: Scalar) -> Scalar {
    index_number(k).product(gap).sum(gap.product(Scalar { bits: HALF_BITS }))
}

fn lattice_of(k: i64, gap: Scalar) -> (r: Scalar)
    requires
        k > i64::MIN,
    ensures
        r == lattice(k as int, gap),
{
    number_of(k).mul(gap).add(gap.mul(Scalar { bits: HALF_BITS }))
}

/// A point moved along a direction.
pub open spec fn moved(p: Point, u: Vec2, t: Scalar) -> Point {
    Point { x: p.x.sum(u.x.product(t)), y: p.y.sum(u.y.product(t)) }
}

fn move_along(p: Point, u: Vec2, t: Scalar) -> (q: Point)
    ensures
        q == moved(p, u, t),
{
    Point { x: p.x.add(u.x.mul(t)), y: p.y.add(u.y.mul(t)) }
}

pub open spec fn origin() -> Point {
    Point { x: Scalar { bits: 0 }, y: Scalar { bits: 0 } }
}

/// The points of a zigzag from `t` on: every half step to the other side.
pub open spec fn zigzag(
    base: Point,
    u: Vec2,
    v: Vec2,
    gap: Scalar,
    t: Scalar,
    end: Scalar,
    i: nat,
) -> Seq<Point>
    decreases
            (if end.units() >= t.units() {
                end.units() - t.units() + 1
            } else {
                0
            }),
{
    let half = Scalar { bits: HALF_BITS };
    if t.nan() || end.nan() || end.less(t) {
        Seq::empty()
    } else {
        let side = if i % 2 == 0 {
            gap.negated().product(half)
        } else {
            gap.product(half)
        };
        let next = t.sum(gap.product(half));
        let here = seq![moved(moved(base, u, t), v, side)];
        if t.less(next) {
            here + zigzag(base, u, v, gap, next, end, i + 1)
        } else {
            here
        }
    }
}

fn zigzag_points(base: Point, u: Vec2, v: Vec2, gap: Scalar, start: Scalar, end: Scalar) -> (points:
    Vec<Point>)
    ensures
        points@ == zigzag(base, u, v, gap, start, end, 0),
{
    let half = Scalar { bits: HALF_BITS };
    let mut points: Vec<Point> = Vec::new();
    let mut t = start;
    let mut even = true;
    let mut more = !t.is_nan() && !end.is_nan() && !end.lt(t);
    let ghost mut i: nat = 0;
    let ghost all = zigzag(base, u, v, gap, start, end, 0);
    proof {
        assert(points@ + zigzag(base, u, v, gap, t, end, 0) =~= all);
    }
    while more
        invariant
            half == (Scalar { bits: HALF_BITS }),
            even == (i % 2 == 0),
            more ==> !t.nan() && !end.nan() && !end.less(t),
            more ==> points@ + zigzag(base, u, v, gap, t, end, i) == all,
            !more ==> points@ == all,
        decreases
                (if end.units() >= t.units() && more {
                    end.units() - t.units() + 1
                } else {
                    0
                }),
    {
        let side = if even {
            gap.neg().mul(half)
        } else {
            gap.mul(half)
        };
        let ghost before = points@;
        let ghost here = moved(moved(base, u, t), v, side);
        points.push(move_along(move_along(base, u, t), v, side));
        let next = t.add(gap.mul(half));
        let onward = t.lt(next);
        proof {
            assert(points@ =~= before + seq![here]);
            let rest = zigzag(base, u, v, gap, next, end, i + 1);
            assert(before + (seq![here] + rest) =~= points@ + rest);
            assert(before + seq![here] =~= points@);
            if next.nan() || end.nan() || end.less(next) {
                assert(points@ + rest =~= points@);
            }
            i = i + 1;
        }
        more = onward && !next.is_nan() && !end.lt(next);
        t = next;
        even = !even;
    }
    points
}

/// Line `k` of a family: two points, or a zigzag.
pub open spec fn family_line(
    k: int,
    u: Vec2,
    gap: Scalar,
    ends: (Scalar, Scalar),
    zig: bool,
) -> Seq<Point> {
    let v = across(u);
    let base = moved(origin(), v, lattice(k, gap));
    if zig {
        zigzag(base, u, v, gap, ends.0, ends.1, 0)
    } else {
        seq![moved(base, u, ends.0), moved(base, u, ends.1)]
    }
}

/// The first `n` lines of a family from index `k` on; a zigzag of less than two points is left
/// out.
pub open spec fn family_lines(
    k: int,
    n: nat,
    u: Vec2,
    gap: Scalar,
    ends: (Scalar, Scalar),
    zig: bool,
) -> Seq<Seq<Point>>
    decreases n,
{
    if n == 0 {
        Seq::empty()
    } else {
        let rest = family_lines(k, (n - 1) as nat, u, gap, ends, zig);
        let line = family_line(k + n - 1, u, gap, ends, zig);
        if line.len() >= 2 {
            rest.push(line)
        } else {
            rest
        }
    }
}

/// The number of indices from `a` to `b`.
pub open spec fn span_len(a: int, b: int) -> nat {
    if a <= b {
        (b - a + 1) as nat
    } else {
        0
    }
}

/// A family of parallel lines of direction `u` that covers a box and goes beyond it.
pub open spec fn family(b: Rect, u: Vec2, gap: Scalar, zig: bool, max: usize) -> Seq<Seq<Point>> {
    let (lo, hi) = extent_along(b, u);
    let (v_lo, v_hi) = extent_along(b, across(u));
    let (k0, k1, wide) = index_span(v_lo, v_hi, gap, max);
    let two = Scalar { bits: TWO_BITS };
    let ends = (lo.difference(wide.product(two)), hi.sum(wide.product(two)));
    family_lines(k0, span_len(k0, k1), u, wide, ends, zig)
}

/// A family of parallel lines of direction `u`, given as its cosine and sine.
pub fn parallel_family(b: Rect, u: Vec2, gap: Scalar, zig: bool, max: usize) -> (lines: Vec<
    Vec<Point>,
>)
    ensures
        rough::point_views(lines@) == family(b, u, gap, zig, max),
{
    let v = Vec2 { x: u.y.neg(), y: u.x };
    let (lo, hi) = projection(b, u);
    let (v_lo, v_hi) = projection(b, v);
    let (k0, k1, wide) = index_range(v_lo, v_hi, gap, max);
    let two = Scalar { bits: TWO_BITS };
    let start = lo.sub(wide.mul(two));
    let end = hi.add(wide.mul(two));
    let mut lines: Vec<Vec<Point>> = Vec::new();
    let mut k: i64 = k0;
    let ghost ends = (start, end);
    assert(rough::point_views(lines@) =~= family_lines(k0 as int, 0, u, wide, ends, zig));
    while k <= k1
        invariant
            k0 <= k,
            k0 <= k1 ==> k <= k1 + 1,
            k0 > k1 ==> k == k0,
            -0x10_0000_0000_0000 < k0 < 0x10_0000_0000_0000,
            -0x10_0000_0000_0000 < k1 < 0x10_0000_0000_0000,
            v == across(u),
            ends == (start, end),
            rough::point_views(lines@) == family_lines(
                k0 as int,
                (k - k0) as nat,
                u,
                wide,
                ends,
                zig,
            ),
        decreases k1 - k + 1,
    {
        let zero = Scalar { bits: 0 };
        let base = move_along(Point { x: zero, y: zero }, v, lattice_of(k, wide));
        let line = if zig {
            zigzag_points(base, u, v, wide, start, end)
        } else {
            let mut line: Vec<Point> = Vec::new();
            line.push(move_along(base, u, start));
            line.push(move_along(base, u, end));
            assert(line@ =~= seq![moved(base, u, start), moved(base, u, end)]);
            line
        };
        let ghost views = rough::point_views(lines@);
        let ghost this = line@;
        if line.len() >= 2 {
            lines.push(line);
            assert(rough::point_views(lines@) =~= views.push(this));
        }
        k += 1;
    }
    lines
}

/// The families of a fill, given the cosines and sines of its directions.
pub open spec fn families(b: Rect, f: SketchFill, turns: Seq<Vec2>, max: usize) -> Seq<Seq<Point>>
    decreases turns.len(),
{
    if turns.len() == 0 {
        Seq::empty()
    } else {
        families(b, f, turns.drop_last(), max) + family(
            b,
            turns.last(),
            style::spaced(f.line_gap),
            f.style == SketchFillStyle::Zigzag,
            max,
        )
    }
}

/// The strokes of a fill that cover a box; `turns` are the cosines and sines of
/// [`stroke_angles`].
pub fn strokes(b: Rect, f: &SketchFill, turns: &Vec<Vec2>, max: usize) -> (lines: Vec<Vec<Point>>)
    ensures
        rough::point_views(lines@) == families(b, *f, turns@, max),
{
    let zig = match f.style {
        SketchFillStyle::Zigzag => true,
        _ => false,
    };
    let mut lines: Vec<Vec<Point>> = Vec::new();
    let mut i: usize = 0;
    assert(rough::point_views(lines@) =~= families(b, *f, turns@.take(0), max));
    while i < turns.len()
        invariant
            i <= turns@.len(),
            zig == (f.style == SketchFillStyle::Zigzag),
            rough::point_views(lines@) == families(b, *f, turns@.take(i as int), max),
        decreases turns.len() - i,
    {
        assert(turns@.take(i + 1).drop_last() =~= turns@.take(i as int));
        let mut more = parallel_family(b, turns[i], f.gap(), zig, max);
        let ghost views = rough::point_views(lines@);
        let ghost next = rough::point_views(more@);
        lines.append(&mut more);
        assert(rough::point_views(lines@) =~= views + next);
        i += 1;
    }
    assert(turns@.take(turns@.len() as int) =~= turns@);
    lines
}

/// The dots of one row.
pub open spec fn dot_row(base: Point, u: Vec2, m: int, n: nat, gap: Scalar) -> Seq<Point> {
    Seq::new(n, |j: int| moved(base, u, lattice(m + j, gap)))
}

/// The dots of the first `n` rows from row `k` on.
pub open spec fn dot_rows(
    k: int,
    n: nat,
    m: int,
    width: nat,
    u: Vec2,
    gap_v: Scalar,
    gap_u: Scalar,
) -> Seq<Point>
    decreases n,
{
    if n == 0 {
        Seq::empty()
    } else {
        dot_rows(k, (n - 1) as nat, m, width, u, gap_v, gap_u) + dot_row(
            moved(origin(), across(u), lattice(k + n - 1, gap_v)),
            u,
            m,
            width,
            gap_u,
        )
    }
}

/// The dots of a fill that cover a box.
pub open spec fn dot_lattice(b: Rect, f: SketchFill, u: Vec2, max: usize) -> Seq<Point> {
    let (u_lo, u_hi) = extent_along(b, u);
    let (v_lo, v_hi) = extent_along(b, across(u));
    let gap = style::spaced(f.line_gap);
    let (k0, k1, gap_v) = index_span(v_lo, v_hi, gap, max);
    let (m0, m1, gap_u) = index_span(u_lo, u_hi, gap, max);
    dot_rows(k0, span_len(k0, k1), m0, span_len(m0, m1), u, gap_v, gap_u)
}

/// The dots of a fill that cover a box, and their radius; `u` is the cosine and the sine of its
/// direction.
pub fn dots(b: Rect, f: &SketchFill, u: Vec2, max: usize) -> (r: (Vec<Point>, Scalar))
    ensures
        r.0@ == dot_lattice(b, *f, u, max),
        r.1 == dot_size(*f),
{
    let v = Vec2 { x: u.y.neg(), y: u.x };
    let zero = Scalar { bits: 0 };
    let (u_lo, u_hi) = projection(b, u);
    let (v_lo, v_hi) = projection(b, v);
    let (k0, k1, gap_v) = index_range(v_lo, v_hi, f.gap(), max);
    let (m0, m1, gap_u) = index_range(u_lo, u_hi, f.gap(), max);
    let ghost width = span_len(m0 as int, m1 as int);
    let mut points: Vec<Point> = Vec::new();
    let mut k: i64 = k0;
    assert(points@ =~= dot_rows(k0 as int, 0, m0 as int, width, u, gap_v, gap_u));
    while k <= k1
        invariant
            k0 <= k,
            k0 <= k1 ==> k <= k1 + 1,
            k0 > k1 ==> k == k0,
            -0x10_0000_0000_0000 < k0 < 0x10_0000_0000_0000,
            -0x10_0000_0000_0000 < k1 < 0x10_0000_0000_0000,
            -0x10_0000_0000_0000 < m0 < 0x10_0000_0000_0000,
            -0x10_0000_0000_0000 < m1 < 0x10_0000_0000_0000,
            v == across(u),
            zero == (Scalar { bits: 0 }),
            width == span_len(m0 as int, m1 as int),
            points@ == dot_rows(
                k0 as int,
                (k - k0) as nat,
                m0 as int,
                width,
                u,
                gap_v,
                gap_u,
            ),
        decreases k1 - k + 1,
    {
        let ghost before = points@;
        let base = move_along(Point { x: zero, y: zero }, v, lattice_of(k, gap_v));
        let ghost row = dot_row(base, u, m0 as int, width, gap_u);
        let mut m: i64 = m0;
        while m <= m1
            invariant
                m0 <= m,
                m0 <= m1 ==> m <= m1 + 1,
                m0 > m1 ==> m == m0,
                -0x10_0000_0000_0000 < m0 < 0x10_0000_0000_0000,
                -0x10_0000_0000_0000 < m1 < 0x10_0000_0000_0000,
                width == span_len(m0 as int, m1 as int),
                row == dot_row(base, u, m0 as int, width, gap_u),
                points@ == before + row.take(m - m0),
            decreases m1 - m + 1,
        {
            points.push(move_along(base, u, lattice_of(m, gap_u)));
            m += 1;
            assert(points@ =~= before + row.take(m - m0));
        }
        assert(points@ =~= before + row);
        k += 1;
    }
    (points, dot_radius(f))
}

} // verus!
