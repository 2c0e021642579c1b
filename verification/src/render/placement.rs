//! Where a text comes to stand.
//!
//! A layout has its origin at its top left corner. Its anchor, given by the alignment and the
//! baseline, goes to the position of the text, and the rest of it turns about that point.

use vstd::prelude::*;
use vstd::math::abs;
use crate::accuracy;
use crate::accuracy::PARTS;
use crate::arith;
use crate::composition;
use crate::composition::{least, unit};
use crate::digits;
use crate::geometry::{Point, Transform, Vec2, TWO_BITS};
use crate::laws;
use crate::render::raster;
use crate::render::raster::{one, shift, text_dx, turning, zero};
use crate::scalar;
use crate::scalar::{Scalar, FRACTION_RANGE};
use crate::text::layout::TextMetrics;
use crate::text::style::{TextAlign, TextStyle};

verus! {

/// Which part of the width, in halves, lies to the left of the anchor.
pub open spec fn halves(align: TextAlign) -> int {
    match align {
        TextAlign::Left | TextAlign::Justify => 0,
        TextAlign::Center => 1,
        TextAlign::Right => 2,
    }
}

/// Twice a coordinate of the image of the layout point `q`, times `1.0`: the position, and the
/// way from the anchor to the point in the direction `(a, c)`.
pub open spec fn placed(
    at: Scalar,
    a: int,
    c: int,
    q: Point,
    w: int,
    halves: int,
    down: int,
) -> int {
    2 * (at.units() * unit()) + (2 * q.x.units() - halves * w) * a + 2 * ((q.y.units() - down) * c)
}

/// What the error of a coordinate is measured by.
pub open spec fn reach(at: Scalar, a: int, c: int, q: Point, w: int, down: nat) -> nat {
    abs(at.units()) * unit() + (abs(q.x.units()) + abs(w)) * abs(a) + (abs(q.y.units()) + down)
        * abs(c)
}

/// How far a coordinate may be off: 42 parts in `2^53` of its terms, and some of the smallest
/// numbers.
pub open spec fn tolerance(at: Scalar, a: int, c: int, q: Point, w: int, down: nat) -> int {
    42 * reach(at, a, c, q, w, down) + PARTS * (2 * abs(a) + 2 * abs(c) + 24 * unit() + 32 * abs(
        q.x.units(),
    ) + 32 * abs(q.y.units()))
}

/// A number times 1 and another times 0 add up to the number.
proof fn lemma_pick(x: Scalar, y: Scalar)
    requires
        x.finite(),
        y.finite(),
    ensures
        one().product(x).sum(zero().product(y)).finite(),
        one().product(x).sum(zero().product(y)).units() == x.units(),
        zero().product(y).sum(one().product(x)).finite(),
        zero().product(y).sum(one().product(x)).units() == x.units(),
{
    laws::law_one_is_neutral(x);
    laws::law_zero_absorbs(y, zero());
    laws::lemma_plus_zero(x, zero().product(y));
}

/// The turn about the position.
proof fn lemma_outer(position: Point, turn: Vec2)
    requires
        position.finite(),
        turn.x.finite(),
        turn.y.finite(),
    ensures
        ({
            let t = shift(position.x, position.y).after(turning(turn));
            &&& t.a.units() == turn.x.units()
            &&& t.b.units() == turn.y.units()
            &&& t.c.units() == -turn.y.units()
            &&& t.d.units() == turn.x.units()
            &&& t.e.units() == position.x.units()
            &&& t.f.units() == position.y.units()
        }),
{
    let back = turn.y.negated();
    assert(back.magnitude() == turn.y.magnitude());
    assert(back.units() == -turn.y.units());
    lemma_pick(turn.x, turn.y);
    lemma_pick(turn.y, turn.x);
    lemma_pick(back, turn.x);
    lemma_pick(turn.x, back);
    lemma_origin(position);
}

/// The position is where the origin goes.
proof fn lemma_origin(position: Point)
    requires
        position.finite(),
    ensures
        one().product(zero()).sum(zero().product(zero())).sum(position.x).units()
            == position.x.units(),
        zero().product(zero()).sum(one().product(zero())).sum(position.y).units()
            == position.y.units(),
{
    scalar::lemma_zero(zero());
    lemma_pick(zero(), zero());
    let e = one().product(zero()).sum(zero().product(zero()));
    let f = zero().product(zero()).sum(one().product(zero()));
    scalar::lemma_zero(e);
    scalar::lemma_zero(f);
    laws::lemma_plus_zero(position.x, e);
    laws::lemma_plus_zero(position.y, f);
}

/// The way to the left edge, doubled.
proof fn lemma_dx(w: Scalar, align: TextAlign)
    requires
        w.finite(),
    ensures
        text_dx(w, align).finite(),
        abs(2 * text_dx(w, align).units() + halves(align) * w.units()) * PARTS <= abs(w.units())
            + PARTS,
        abs(text_dx(w, align).units()) <= abs(w.units()) + 1,
{
    let back = w.negated();
    assert(back.magnitude() == w.magnitude() && back.units() == -w.units());
    scalar::lemma_zero(zero());
    if align is Center {
        let two = Scalar { bits: TWO_BITS };
        let u = unit();
        lemma_two();
        digits::lemma_two_pow_positive(1074);
        assert(back.quotient(two).finite()) by {
            lemma_half_finite(back);
        }
        accuracy::law_quotient_error(back, two);
        let x = back.quotient(two).units();
        let n = abs(w.units());
        assert(abs(2 * x + w.units()) * PARTS <= n + PARTS) by {
            let d = x * (2 * u) - back.units() * u;
            assert(d == (2 * x + w.units()) * u) by (nonlinear_arith)
                requires
                    d == x * (2 * u) - back.units() * u,
                    back.units() == -w.units(),
            ;
            let g = 2 * x + w.units();
            assert(accuracy::within((g * u) * PARTS, n * u + (2 * u) * FRACTION_RANGE));
            assert(accuracy::within(g * PARTS, n + 2 * FRACTION_RANGE)) by (nonlinear_arith)
                requires
                    accuracy::within((g * u) * PARTS, n * u + (2 * u) * FRACTION_RANGE),
                    u > 0,
            ;
        }
    } else if align is Right {
        assert(2 * back.units() + 2 * w.units() == 0);
    }
}

pub proof fn lemma_two()
    ensures
        (Scalar { bits: TWO_BITS }).finite(),
        (Scalar { bits: TWO_BITS }).units() == 2 * unit(),
{
    let two = Scalar { bits: TWO_BITS };
    arith::lemma_two_pow_53();
    digits::lemma_two_pow_adds(52, 1023);
    assert(digits::two_pow(1075) == 2 * digits::two_pow(1074));
    assert(two.scale() == 1023 && two.significand() == FRACTION_RANGE);
}

/// Half of a finite number is finite.
pub proof fn lemma_half_finite(a: Scalar)
    requires
        a.finite(),
    ensures
        a.quotient(Scalar { bits: TWO_BITS }).finite(),
{
    reveal(Scalar::quotient);
    let two = Scalar { bits: TWO_BITS };
    lemma_two();
    digits::lemma_two_pow_positive(1074);
    scalar::lemma_zero(two);
    let n = a.abs_units() * unit();
    let d = two.abs_units();
    laws::law_rounding_keeps_numbers(a, unit());
    assert(n * unit() <= n * d) by (nonlinear_arith)
        requires
            unit() <= d,
            n >= 0,
    ;
    laws::law_rounding_is_monotone(n, d, n, unit());
    arith::lemma_nearest_range(n, d);
    laws::lemma_signed_magnitude(a.negative(), arith::nearest(n, d));
}

/// A coordinate of the image of a moved point, near its exact value.
proof fn lemma_moved(a: Scalar, c: Scalar, e: Scalar, dx: Scalar, dy: Scalar, q: Point)
    requires
        composition::at_once(a, c, e, shift(dx, dy), q).finite(),
    ensures
        ({
            let v = composition::at_once(a, c, e, shift(dx, dy), q).units();
            let (x, y) = (q.x.units(), q.y.units());
            let exact = (x + dx.units()) * a.units() + (y + dy.units()) * c.units() + e.units()
                * unit();
            let terms = (abs(x) + abs(dx.units())) * abs(a.units()) + (abs(y) + abs(dy.units()))
                * abs(c.units()) + abs(e.units()) * unit();
            abs(v * unit() - exact) * PARTS <= 10 * terms + FRACTION_RANGE * (24 * unit() + 32
                * abs(x) + 32 * abs(y))
        }),
{
    let t = shift(dx, dy);
    let u = unit() as int;
    let l = least();
    digits::lemma_two_pow_positive(1074);
    laws::lemma_one();
    scalar::lemma_zero(zero());
    composition::lemma_at_once(a, c, e, t, q);
    let v = composition::at_once(a, c, e, t, q).units();
    let (x, y) = (q.x.units(), q.y.units());
    let (m, n) = (abs(x), abs(y));
    let (p, r) = (abs(dx.units()), abs(dy.units()));
    let exact = (x + dx.units()) * a.units() + (y + dy.units()) * c.units() + e.units() * u;
    let terms = (m + p) * abs(a.units()) + (n + r) * abs(c.units()) + abs(e.units()) * u;
    assert(composition::exact(a, c, e, t, q) == exact * u) by {
        lemma_rows(x, y, dx.units(), dy.units(), a.units(), c.units(), e.units(), u);
    }
    assert(composition::terms(a, c, e, t, q) == terms * u) by {
        lemma_rows(
            m as int,
            n as int,
            p as int,
            r as int,
            abs(a.units()) as int,
            abs(c.units()) as int,
            abs(e.units()) as int,
            u,
        );
    }
    let k = FRACTION_RANGE as int;
    let s = composition::slack(4 * l, m, n, 8 * l * unit());
    assert(s == (k * (24 * u + 32 * m + 32 * n)) * u) by {
        assert(l == u * k);
        assert(8 * l * unit() == 8 * (l * u) && unit() * l == l * u && (4 * l) * m == 4 * (l * m)
            && (4 * l) * n == 4 * (l * n)) by (nonlinear_arith)
            requires
                u == unit(),
        ;
        assert((k * (24 * u + 32 * m + 32 * n)) * u == 24 * (l * u) + 32 * (l * m) + 32 * (l * n))
            by (nonlinear_arith)
            requires
                l == u * k,
        ;
    }
    let g = v * u - exact;
    assert(v * (unit() * unit()) - exact * u == g * u) by (nonlinear_arith)
        requires
            g == v * u - exact,
            u == unit(),
    ;
    composition::lemma_abs_mul(g, u);
    let b = 10 * terms + k * (24 * u + 32 * m + 32 * n);
    assert(abs(g) * PARTS <= b) by (nonlinear_arith)
        requires
            (abs(g) * u) * PARTS <= 10 * (terms * u) + (k * (24 * u + 32 * m + 32 * n)) * u,
            b == 10 * terms + k * (24 * u + 32 * m + 32 * n),
            u > 0,
    ;
}

/// The rows of a translation, taken apart.
proof fn lemma_rows(x: int, y: int, dx: int, dy: int, a: int, c: int, e: int, u: int)
    ensures
        (u * x + 0 * y + dx * u) * a + (0 * x + u * y + dy * u) * c + e * (u * u) == ((x + dx) * a
            + (y + dy) * c + e * u) * u,
{
    assert(0 * y == 0 && 0 * x == 0);
    assert((u * x + dx * u) * a == ((x + dx) * a) * u) by (nonlinear_arith);
    assert((u * y + dy * u) * c == ((y + dy) * c) * u) by (nonlinear_arith);
    assert(e * (u * u) == (e * u) * u) by (nonlinear_arith);
    let f = (x + dx) * a;
    let g = (y + dy) * c;
    let h = e * u;
    assert((f + g + h) * u == f * u + g * u + h * u) by (nonlinear_arith);
}

/// One coordinate of the image of a layout point.
proof fn lemma_placed(
    row: (Scalar, Scalar, Scalar),
    w: Scalar,
    align: TextAlign,
    anchor: Scalar,
    rise: Scalar,
    q: Point,
)
    requires
        w.finite(),
        anchor.finite(),
        rise.finite(),
        anchor.negated().difference(rise).finite(),
        composition::at_once(
            row.0,
            row.1,
            row.2,
            shift(text_dx(w, align), anchor.negated().difference(rise)),
            q,
        ).finite(),
    ensures
        ({
            let dy = anchor.negated().difference(rise);
            let v = composition::at_once(row.0, row.1, row.2, shift(text_dx(w, align), dy), q);
            let (a, c) = (row.0.units(), row.1.units());
            let down = anchor.units() + rise.units();
            let most = abs(anchor.units()) + abs(rise.units());
            abs(
                2 * (v.units() * unit()) - placed(
                    row.2,
                    a,
                    c,
                    q,
                    w.units(),
                    halves(align),
                    down,
                ),
            ) * PARTS <= tolerance(row.2, a, c, q, w.units(), most)
        }),
{
    let dx = text_dx(w, align);
    let dy = anchor.negated().difference(rise);
    let back = anchor.negated();
    let low = rise.negated();
    assert(back.magnitude() == anchor.magnitude() && back.units() == -anchor.units());
    assert(low.magnitude() == rise.magnitude() && low.units() == -rise.units());
    accuracy::law_sum_error(back, low);
    lemma_dx(w, align);
    digits::lemma_two_pow_positive(1074);
    lemma_moved(row.0, row.1, row.2, dx, dy, q);
    let v = composition::at_once(row.0, row.1, row.2, shift(dx, dy), q);
    lemma_together(
        v.units(),
        (row.0.units(), row.1.units(), row.2.units()),
        (q.x.units(), q.y.units()),
        (dx.units(), dy.units()),
        w.units(),
        halves(align),
        anchor.units() + rise.units(),
        abs(anchor.units()) + abs(rise.units()),
        unit() as int,
    );
}

/// The errors of the offsets and of the coordinate, put together.
proof fn lemma_together(
    v: int,
    row: (int, int, int),
    q: (int, int),
    d: (int, int),
    w: int,
    k: int,
    down: int,
    most: nat,
    u: int,
)
    requires
        u > 0,
        abs(down) <= most,
        abs(d.1 + down) * PARTS <= abs(down),
        abs(2 * d.0 + k * w) * PARTS <= abs(w) + PARTS,
        abs(d.0) <= abs(w) + 1,
        ({
            let (a, c, e) = row;
            let exact = (q.0 + d.0) * a + (q.1 + d.1) * c + e * u;
            let terms = (abs(q.0) + abs(d.0)) * abs(a) + (abs(q.1) + abs(d.1)) * abs(c) + abs(e)
                * u;
            abs(v * u - exact) * PARTS <= 10 * terms + FRACTION_RANGE * (24 * u + 32 * abs(q.0)
                + 32 * abs(q.1))
        }),
    ensures
        ({
            let (a, c, e) = row;
            let goal = 2 * (e * u) + (2 * q.0 - k * w) * a + 2 * ((q.1 - down) * c);
            let reach = abs(e) * u + (abs(q.0) + abs(w)) * abs(a) + (abs(q.1) + most) * abs(c);
            abs(2 * (v * u) - goal) * PARTS <= 42 * reach + PARTS * (2 * abs(a) + 2 * abs(c) + 24
                * u + 32 * abs(q.0) + 32 * abs(q.1))
        }),
{
    let (a, c, e) = row;
    let p = PARTS as int;
    let (m, n) = (abs(a) as int, abs(c) as int);
    let exact = (q.0 + d.0) * a + (q.1 + d.1) * c + e * u;
    let goal = 2 * (e * u) + (2 * q.0 - k * w) * a + 2 * ((q.1 - down) * c);
    let terms = (abs(q.0) + abs(d.0)) * m + (abs(q.1) + abs(d.1)) * n + abs(e) * u;
    let kw = k * w;
    let f = (2 * d.0 + kw) * a;
    let g = (d.1 + down) * c;
    assert(2 * exact - goal == f + 2 * g) by {
        assert((q.0 + d.0) * a == q.0 * a + d.0 * a) by (nonlinear_arith);
        assert((q.1 + d.1) * c == q.1 * c + d.1 * c) by (nonlinear_arith);
        assert((2 * q.0 - kw) * a == 2 * (q.0 * a) - kw * a) by (nonlinear_arith);
        assert((q.1 - down) * c == q.1 * c - down * c) by (nonlinear_arith);
        assert((2 * d.0 + kw) * a == 2 * (d.0 * a) + kw * a) by (nonlinear_arith);
        assert((d.1 + down) * c == d.1 * c + down * c) by (nonlinear_arith);
    }
    composition::lemma_abs_mul(2 * d.0 + kw, a);
    composition::lemma_abs_mul(d.1 + down, c);
    let x = abs(2 * d.0 + kw) as int;
    let y = abs(d.1 + down) as int;
    assert(abs(f) * p <= (abs(w) + p) * m) by (nonlinear_arith)
        requires
            abs(f) == x * m,
            x * p <= abs(w) + p,
            m >= 0,
    ;
    assert(abs(g) * p <= most * n) by (nonlinear_arith)
        requires
            abs(g) == y * n,
            y * p <= most,
            n >= 0,
    ;
    assert(abs(d.1) <= 2 * most) by {
        assert(y <= most) by (nonlinear_arith)
            requires
                y * p <= most,
                p >= 1,
                y >= 0,
        ;
    }
    let (w0, q0, q1) = (abs(w) as int, abs(q.0) as int, abs(q.1) as int);
    let (qm, wm, qn, bn) = (q0 * m, w0 * m, q1 * n, most * n);
    let eu = abs(e) * u;
    assert(terms <= qm + wm + m + qn + 2 * bn + eu) by {
        let (d0, d1) = (abs(d.0) as int, abs(d.1) as int);
        assert((q0 + d0) * m <= qm + wm + m) by (nonlinear_arith)
            requires
                d0 <= w0 + 1,
                qm == q0 * m,
                wm == w0 * m,
                m >= 0,
        ;
        assert((q1 + d1) * n <= qn + 2 * bn) by (nonlinear_arith)
            requires
                d1 <= 2 * most,
                qn == q1 * n,
                bn == most * n,
                n >= 0,
        ;
    }
    let reach = eu + (q0 + w0) * m + (q1 + most) * n;
    assert(reach == eu + qm + wm + qn + bn) by {
        assert((q0 + w0) * m == qm + wm) by (nonlinear_arith)
            requires
                qm == q0 * m,
                wm == w0 * m,
        ;
        assert((q1 + most) * n == qn + bn) by (nonlinear_arith)
            requires
                qn == q1 * n,
                bn == most * n,
        ;
    }
    assert((w0 + p) * m == wm + p * m) by (nonlinear_arith)
        requires
            wm == w0 * m,
    ;
    assert(eu >= 0 && qm >= 0 && wm >= 0 && qn >= 0 && bn >= 0) by (nonlinear_arith)
        requires
            eu == abs(e) * u,
            u > 0,
            qm == q0 * m,
            wm == w0 * m,
            qn == q1 * n,
            bn == most * n,
            q0 >= 0,
            w0 >= 0,
            q1 >= 0,
            m >= 0,
            n >= 0,
    ;
    let h = v * u - exact;
    assert(abs(2 * (v * u) - goal) <= 2 * abs(h) + abs(f) + 2 * abs(g));
    let z = 24 * u + 32 * q0 + 32 * q1;
    assert(PARTS * (2 * m + 2 * n + z) == 2 * (p * m) + 2 * (p * n) + p * z) by (nonlinear_arith)
        requires
            p == PARTS,
    ;
    assert(p * m >= 20 * m + p * m - p * m && 20 * m <= p * m) by (nonlinear_arith)
        requires
            p >= 20,
            m >= 0,
    ;
    assert(p * n >= 0) by (nonlinear_arith)
        requires
            p >= 0,
            n >= 0,
    ;
    assert(2 * (FRACTION_RANGE * z) == p * z) by (nonlinear_arith)
        requires
            p == 2 * FRACTION_RANGE,
    ;
}

/// A text is moved so that its anchor goes to its position, and turned about it: every point of
/// the layout comes to stand, from the position, where it stands from the anchor, turned by the
/// rotation. The anchor is at the left edge, in the middle or at the right edge, at the height of
/// the baseline, from which a shift raises the text.
pub proof fn law_anchors_go_to_the_position(
    position: Point,
    style: &TextStyle,
    m: &TextMetrics,
    turn: Vec2,
    t: Transform,
    q: Point,
)
    requires
        call_ensures(raster::text_transform, (position, style, m, turn), t),
        position.finite(),
        turn.x.finite(),
        turn.y.finite(),
        m.width.finite(),
        style.baseline.anchor(*m).finite(),
        style.baseline_shift.finite(),
        style.baseline.anchor(*m).negated().difference(style.baseline_shift).finite(),
        t.image(q).finite(),
    ensures
        ({
            let p = t.image(q);
            let (cos, sin) = (turn.x.units(), turn.y.units());
            let (w, k) = (m.width.units(), halves(style.align));
            let anchor = style.baseline.anchor(*m).units();
            let rise = style.baseline_shift.units();
            let most = abs(anchor) + abs(rise);
            let down = anchor + rise;
            &&& abs(2 * (p.x.units() * unit()) - placed(position.x, cos, -sin, q, w, k, down))
                * PARTS <= tolerance(position.x, cos, -sin, q, w, most)
            &&& abs(2 * (p.y.units() * unit()) - placed(position.y, sin, cos, q, w, k, down))
                * PARTS <= tolerance(position.y, sin, cos, q, w, most)
        }),
{
    lemma_outer(position, turn);
    let outer = shift(position.x, position.y).after(turning(turn));
    let anchor = style.baseline.anchor(*m);
    let rise = style.baseline_shift;
    lemma_placed((outer.a, outer.c, outer.e), m.width, style.align, anchor, rise, q);
    lemma_placed((outer.b, outer.d, outer.f), m.width, style.align, anchor, rise, q);
}

} // verus!
