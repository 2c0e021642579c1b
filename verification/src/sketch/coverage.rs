//! Where the lines and dots of a fill stand.
//!
//! Line `k` of a family stands in the middle of step `k` of a lattice that starts at the origin.
//! The lines reach beyond both sides of the box.

use vstd::prelude::*;
use vstd::math::abs;
use crate::accuracy;
use crate::accuracy::{within, PARTS};
use crate::arith;
use crate::composition;
use crate::digits;
use crate::ellipse;
use crate::geometry::{Point, Rect, Vec2, HALF_BITS, TWO_BITS};
use crate::laws;
use crate::rounding;
use crate::scalar::{Scalar, FRACTION_RANGE};
use crate::sketch::fill;
use crate::sketch::fill::{affordable, coarsened, covering, index_number, lattice, limit_of};
use crate::sketch::limit;
use crate::sketch::limit::unit;
use crate::sketch::rough;

verus! {

proof fn lemma_half_value()
    ensures
        (Scalar { bits: HALF_BITS }).finite(),
        2 * (Scalar { bits: HALF_BITS }).units() == unit(),
{
    let h = Scalar { bits: HALF_BITS };
    digits::lemma_two_pow_adds(52, 1021);
    arith::lemma_two_pow_53();
    assert(digits::two_pow(1074) == 2 * digits::two_pow(1073));
    assert(h.scale() == 1021 && h.significand() == FRACTION_RANGE);
}

/// An index as a number.
proof fn lemma_index(k: int)
    requires
        abs(k) < 0x20_0000_0000_0000,
    ensures
        index_number(k).finite(),
        index_number(k).units() == k * unit(),
{
    let n = abs(k);
    laws::law_small_integers_are_exact(n);
    let a = Scalar::integer(n);
    assert(a.negated().magnitude() == a.magnitude() && a.negated().units() == -a.units());
    let u = unit();
    assert((-k) * u == -(k * u)) by (nonlinear_arith);
}

/// Line `k` stands in the middle of step `k`, `k` and a half times the distance from the origin,
/// up to rounding.
pub proof fn law_lines_stand_on_the_lattice(k: int, gap: Scalar)
    requires
        abs(k) < 0x20_0000_0000_0000,
        lattice(k, gap).finite(),
        gap.units() > 0,
    ensures
        gap.finite(),
        abs(2 * lattice(k, gap).units() - (2 * k + 1) * gap.units()) * PARTS <= 8 * ((abs(k) + 1)
            * gap.units()) + 4 * PARTS,
{
    let half = Scalar { bits: HALF_BITS };
    let i = index_number(k);
    let p = i.product(gap);
    let q = gap.product(half);
    lemma_index(k);
    lemma_half_value();
    accuracy::law_sum_error(p, q);
    accuracy::law_product_error(i, gap);
    accuracy::law_product_error(gap, half);
    digits::lemma_two_pow_positive(1074);
    let u = unit() as int;
    let g = gap.units();
    let n = abs(k) as int;
    let kg = k * g;
    assert(i.units() * g == kg * u) by (nonlinear_arith)
        requires
            i.units() == k * u,
            kg == k * g,
    ;
    composition::lemma_abs_mul(k, g);
    composition::lemma_abs_mul(kg, u);
    let x = p.units();
    let f = FRACTION_RANGE as int;
    assert(within((x - kg) * PARTS, n * g + f)) by (nonlinear_arith)
        requires
            within((x * u - kg * u) * PARTS, (n * g) * u + u * f),
            u > 0,
    ;
    let y = q.units();
    let h = half.units();
    composition::lemma_abs_mul(g, h);
    assert(within((2 * y - g) * PARTS, g + 2 * f)) by (nonlinear_arith)
        requires
            within((y * u - g * h) * PARTS, g * h + u * f),
            2 * h == u,
            u > 0,
    ;
    let s = p.sum(q).units();
    assert(within((s - (x + y)) * PARTS, abs(x + y) as int));
    lemma_lattice(s, x, y, kg, n * g, g, f);
    assert((2 * k + 1) * g == 2 * kg + g) by (nonlinear_arith)
        requires
            kg == k * g,
    ;
    assert((n + 1) * g == n * g + g) by (nonlinear_arith);
}

proof fn lemma_lattice(s: int, x: int, y: int, kg: int, ng: int, g: int, f: int)
    requires
        within((x - kg) * PARTS, ng + f),
        within((2 * y - g) * PARTS, g + 2 * f),
        within((s - (x + y)) * PARTS, abs(x + y) as int),
        abs(kg) <= ng,
        g > 0,
        2 * f == PARTS,
    ensures
        within((2 * s - (2 * kg + g)) * PARTS, 8 * (ng + g) + 4 * PARTS),
{
    assert(abs(x) <= 2 * ng + 1);
    assert(abs(y) <= g + 1);
}

/// An attempt that keeps the limit has the indices that cover the places at its distance.
proof fn lemma_kept(lo: Scalar, hi: Scalar, gap: Scalar, max: Scalar, n: nat)
    ensures
        affordable(coarsened(lo, hi, gap, max, n).0, max) ==> coarsened(lo, hi, gap, max, n).0
            == covering(lo, hi, coarsened(lo, hi, gap, max, n).1),
    decreases n,
{
    let k = covering(lo, hi, gap);
    if !affordable(k, max) && n > 1 {
        let wider = gap.product(
            fill::index_count(k).quotient(max).ceiled().greatest(
                Scalar { bits: TWO_BITS },
            ),
        );
        lemma_kept(lo, hi, wider, max, (n - 1) as nat);
    }
}

/// Places that are not far from the origin against a distance.
pub open spec fn near_enough(x: Scalar, gap: Scalar) -> bool {
    x.finite() && x.abs_units() <= 0x100_0000_0000 * gap.units()
}

/// The lines cover the box: the first one stands at or before its lower side, the last one at or
/// after its upper side.
pub proof fn law_lines_cover_the_box(
    lo: Scalar,
    hi: Scalar,
    gap: Scalar,
    max: usize,
    r: (i64, i64, Scalar),
)
    requires
        call_ensures(fill::index_range, (lo, hi, gap, max), r),
        (Scalar { bits: 0 }).less(gap),
        max >= 5,
        r.2.finite(),
        r.2.abs_units() <= digits::two_pow(2000),
        r.2.units() > 0,
        near_enough(lo, r.2),
        near_enough(hi, r.2),
    ensures
        (2 * r.0 + 1) * r.2.units() <= 2 * lo.units(),
        (2 * r.1 + 1) * r.2.units() >= 2 * hi.units(),
{
    let m = limit_of(max);
    let w = r.2;
    let n = fill::ATTEMPTS as nat;
    limit::law_attempts_come_down_to_the_limit(lo, hi, gap, max);
    lemma_kept(lo, hi, gap, m, n);
    let k = covering(lo, hi, w);
    assert(coarsened(lo, hi, gap, m, n).0 == k);
    lemma_edge_finite(lo, w, true);
    lemma_edge_finite(hi, w, false);
    let size = (0x100_0000_0000 * w.units()) as nat;
    let a = limit::lemma_first(lo, w, size);
    let b = limit::lemma_last(hi, w, size);
    let g = w.units();
    rounding::law_floor_and_ceiling_are_integers(lo.difference(w).quotient(w));
    rounding::law_floor_and_ceiling_are_integers(hi.sum(w).quotient(w));
    lemma_index_size(a, g, lo.units());
    lemma_index_size(b, g, hi.units());
    rounding::law_truncating_holds_integers(k.0, a, fill::INDEX_CAP as nat);
    rounding::law_truncating_holds_integers(k.1, b, fill::INDEX_CAP as nat);
    assert(r.0 == a && r.1 == b);
    assert((2 * a + 1) * g == 2 * (a * g) + g) by (nonlinear_arith);
    assert((2 * b + 1) * g == 2 * (b * g) + g) by (nonlinear_arith);
}

/// The indices of places that are not far are small.
proof fn lemma_index_size(n: int, g: int, x: int)
    requires
        g > 0,
        abs(x) <= 0x100_0000_0000 * g,
        abs(n * g - x) <= 4 * g + 0x100_0000_0000 * g,
    ensures
        abs(n) <= 0x300_0000_0000,
{
    composition::lemma_abs_mul(n, g);
    let m = abs(n);
    assert(m * g <= 0x201_0000_0000 * g);
    assert(m <= 0x201_0000_0000) by (nonlinear_arith)
        requires
            m * g <= 0x201_0000_0000 * g,
            g > 0,
    ;
}

/// The quotients that the indices come from are finite.
proof fn lemma_edge_finite(x: Scalar, w: Scalar, lower: bool)
    requires
        w.finite(),
        w.units() > 0,
        w.abs_units() <= digits::two_pow(2000),
        near_enough(x, w),
    ensures
        lower ==> x.difference(w).finite() && x.difference(w).quotient(w).finite(),
        !lower ==> x.sum(w).finite() && x.sum(w).quotient(w).finite(),
{
    let back = w.negated();
    assert(back.magnitude() == w.magnitude() && back.units() == -w.units());
    let y = if lower {
        back
    } else {
        w
    };
    let e = digits::two_pow(2000);
    digits::lemma_two_pow_adds(41, 2000);
    assert(digits::two_pow(41) == 0x200_0000_0000) by {
        reveal_with_fuel(digits::two_pow, 42);
    }
    accuracy::law_sums_stay_finite(x, y, 2041);
    accuracy::law_sum_error(x, y);
    let s = x.sum(y);
    let u = unit();
    digits::lemma_two_pow_adds(43, 1074);
    assert(digits::two_pow(43) == 0x800_0000_0000) by {
        reveal_with_fuel(digits::two_pow, 44);
    }
    let g = w.units();
    let n = s.abs_units();
    assert(n <= 0x800_0000_0000 * g);
    assert(n * u <= g * (0x800_0000_0000 * u)) by (nonlinear_arith)
        requires
            n <= 0x800_0000_0000 * g,
            u >= 0,
    ;
    accuracy::law_quotients_stay_finite(s, w, 1117);
}

/// The extent of a box along a direction holds each of its corners.
pub proof fn law_extents_hold_each_corner(b: Rect, u: Vec2, r: (Scalar, Scalar), i: int)
    requires
        call_ensures(fill::projection, (b, u), r),
        0 <= i < 4,
        fill::dot_product(rough::corners(b)[i], u).finite(),
    ensures
        !r.0.nan(),
        !r.1.nan(),
        r.0.units() <= fill::dot_product(rough::corners(b)[i], u).units() <= r.1.units(),
{
    lemma_extent(rough::corners(b), u, 4, i);
}

proof fn lemma_extent(points: Seq<Point>, u: Vec2, n: nat, i: int)
    requires
        n <= points.len(),
        0 <= i < n,
        fill::dot_product(points[i], u).finite(),
    ensures
        ({
            let d = fill::dot_product(points[i], u).units();
            fill::lowest(points, u, n).units() <= d <= fill::highest(points, u, n).units()
        }),
        !fill::lowest(points, u, n).nan(),
        !fill::highest(points, u, n).nan(),
    decreases n,
{
    fill::lemma_extent(points, u, n);
    fill::lemma_extent(points, u, (n - 1) as nat);
    if i < n - 1 {
        lemma_extent(points, u, (n - 1) as nat, i);
    }
}

/// Half of a distance, up to rounding.
proof fn lemma_half_gap(gap: Scalar)
    requires
        gap.product(Scalar { bits: HALF_BITS }).finite(),
        gap.units() > 0,
    ensures
        abs(2 * gap.product(Scalar { bits: HALF_BITS }).units() - gap.units()) * PARTS
            <= gap.units() + PARTS,
{
    let half = Scalar { bits: HALF_BITS };
    lemma_half_value();
    accuracy::law_product_error(gap, half);
    digits::lemma_two_pow_positive(1074);
    let u = unit() as int;
    let g = gap.units();
    let (y, h) = (gap.product(half).units(), half.units());
    let f = FRACTION_RANGE as int;
    composition::lemma_abs_mul(g, h);
    assert(within((2 * y - g) * PARTS, g + 2 * f)) by (nonlinear_arith)
        requires
            within((y * u - g * h) * PARTS, g * h + u * f),
            2 * h == u,
            u > 0,
    ;
}

/// A zigzag swings from side to side: its points stand on either side of its line in turn, each
/// half the distance away from it, and each half the distance further along it.
pub proof fn law_zigzags_swing(
    base: Point,
    u: Vec2,
    v: Vec2,
    gap: Scalar,
    t: Scalar,
    end: Scalar,
    i: nat,
    j: int,
) -> (at: (Scalar, Scalar))
    requires
        0 <= j < fill::zigzag(base, u, v, gap, t, end, i).len(),
        gap.units() > 0,
        gap.product(Scalar { bits: HALF_BITS }).finite(),
    ensures
        fill::zigzag(base, u, v, gap, t, end, i)[j] == fill::moved(
            fill::moved(base, u, at.0),
            v,
            at.1,
        ),
        j == 0 ==> at.0 == t,
        abs(2 * abs(at.1.units()) - gap.units()) * PARTS <= gap.units() + PARTS,
        gap.units() > 2 ==> (at.1.units() < 0 <==> (i + j) % 2 == 0),
        !end.less(at.0),
    decreases j,
{
    let half = Scalar { bits: HALF_BITS };
    let side = if i % 2 == 0 {
        gap.negated().product(half)
    } else {
        gap.product(half)
    };
    let next = t.sum(gap.product(half));
    lemma_half_gap(gap);
    lemma_opposite_half(gap);
    if j == 0 {
        (t, side)
    } else {
        let rest = fill::zigzag(base, u, v, gap, next, end, i + 1);
        assert(fill::zigzag(base, u, v, gap, t, end, i)[j] == rest[j - 1]);
        law_zigzags_swing(base, u, v, gap, next, end, i + 1, j - 1)
    }
}

/// Half of the opposite is the opposite of the half.
proof fn lemma_opposite_half(gap: Scalar)
    requires
        gap.product(Scalar { bits: HALF_BITS }).finite(),
    ensures
        gap.negated().product(Scalar { bits: HALF_BITS }).units() == -gap.product(
            Scalar { bits: HALF_BITS },
        ).units(),
{
    let half = Scalar { bits: HALF_BITS };
    ellipse::lemma_opposite_product(gap, half);
    let q = gap.product(half);
    assert(q.negated().magnitude() == q.magnitude() && q.negated().units() == -q.units());
}

/// Lines stand side by side across their direction.
pub proof fn law_lines_stand_across_their_direction(u: Vec2)
    ensures
        ({
            let v = fill::across(u);
            u.x.units() * v.x.units() + u.y.units() * v.y.units() == 0
        }),
        fill::across(u).y == u.x,
{
    let b = u.y.negated();
    assert(b.magnitude() == u.y.magnitude() && b.units() == -u.y.units());
    let (x, y) = (u.x.units(), u.y.units());
    assert(x * (-y) + y * x == 0) by (nonlinear_arith);
}

/// A family of straight lines has one for each step of the lattice: from the origin across to its
/// step, and from there along its direction from one end to the other.
pub proof fn law_families_have_a_line_for_each_step(
    k: int,
    n: nat,
    u: Vec2,
    gap: Scalar,
    ends: (Scalar, Scalar),
    i: int,
)
    requires
        0 <= i < n,
    ensures
        ({
            let lines = fill::family_lines(k, n, u, gap, ends, false);
            let base = fill::moved(fill::origin(), fill::across(u), lattice(k + i, gap));
            &&& lines.len() == n
            &&& lines[i].len() == 2
            &&& lines[i][0] == fill::moved(base, u, ends.0)
            &&& lines[i][1] == fill::moved(base, u, ends.1)
        }),
    decreases n,
{
    lemma_straight_lines(k, n, u, gap, ends);
    lemma_straight_lines(k, (n - 1) as nat, u, gap, ends);
    if i < n - 1 {
        law_families_have_a_line_for_each_step(k, (n - 1) as nat, u, gap, ends, i);
    }
}

proof fn lemma_straight_lines(k: int, n: nat, u: Vec2, gap: Scalar, ends: (Scalar, Scalar))
    ensures
        fill::family_lines(k, n, u, gap, ends, false).len() == n,
    decreases n,
{
    if n > 0 {
        lemma_straight_lines(k, (n - 1) as nat, u, gap, ends);
    }
}

/// Dots stand on a lattice: those of a row a step apart along the direction, the rows a step apart
/// across it.
pub proof fn law_dots_stand_on_a_lattice(
    k: int,
    n: nat,
    m: int,
    width: nat,
    u: Vec2,
    gap_v: Scalar,
    gap_u: Scalar,
    row: int,
    column: int,
)
    requires
        0 <= row < n,
        0 <= column < width,
    ensures
        ({
            let dots = fill::dot_rows(k, n, m, width, u, gap_v, gap_u);
            let base = fill::moved(fill::origin(), fill::across(u), lattice(k + row, gap_v));
            &&& dots.len() == n * width
            &&& 0 <= row * width + column < dots.len()
            &&& dots[row * width + column] == fill::moved(base, u, lattice(m + column, gap_u))
        }),
    decreases n,
{
    limit::lemma_dot_rows(k, n, m, width, u, gap_v, gap_u);
    limit::lemma_dot_rows(k, (n - 1) as nat, m, width, u, gap_v, gap_u);
    let r = row * width;
    let p = (n - 1) * width;
    assert(0 <= r <= p && n * width == p + width) by (nonlinear_arith)
        requires
            r == row * width,
            p == (n - 1) * width,
            0 <= row <= n - 1,
            width >= 0,
    ;
    if row < n - 1 {
        assert(r + width <= p) by (nonlinear_arith)
            requires
                r == row * width,
                p == (n - 1) * width,
                row + 1 <= n - 1,
                width >= 0,
        ;
        law_dots_stand_on_a_lattice(
            k,
            (n - 1) as nat,
            m,
            width,
            u,
            gap_v,
            gap_u,
            row,
            column,
        );
    } else {
        assert(r == p);
    }
}

} // verus!
