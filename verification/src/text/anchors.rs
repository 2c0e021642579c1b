//! Where texts stand against their anchor.

use vstd::prelude::*;
use vstd::math::abs;
use crate::accuracy;
use crate::accuracy::{within, PARTS};
use crate::composition;
use crate::digits;
use crate::fit;
use crate::geometry::{HALF_BITS, TWO_BITS};
use crate::render::placement;
use crate::render::spans;
use crate::scalar;
use crate::scalar::{Scalar, FRACTION_RANGE};
use crate::text::layout;
use crate::text::layout::{LineMetrics, TextMetrics};
use crate::text::style::{TextAlign, TextBaseline, TextStyle};

verus! {

/// The number of units in `1.0`.
pub open spec fn unit() -> nat {
    digits::two_pow(1074)
}

/// A number is `k` hundredths of another, up to three parts in `2^53` and some of the smallest
/// numbers.
pub open spec fn is_share(x: Scalar, size: Scalar, k: int) -> bool {
    abs(100 * x.units() - k * size.units()) * PARTS <= 3 * (abs(k) * abs(size.units())) + 200 * PARTS
}

/// A constant of `k` hundredths.
spec fn is_hundredths(c: Scalar, k: int) -> bool {
    &&& c.finite()
    &&& c.units() > 0
    &&& within((100 * c.units() - k * unit()) * PARTS, k * unit())
}

/// A number times a constant.
proof fn lemma_share(size: Scalar, c: Scalar, k: int)
    requires
        is_hundredths(c, k),
        0 < k,
        size.product(c).finite(),
    ensures
        is_share(size.product(c), size, k),
{
    accuracy::law_product_error(size, c);
    digits::lemma_two_pow_positive(1074);
    let u = unit() as int;
    let p = PARTS as int;
    let f = FRACTION_RANGE as int;
    let x = size.product(c).units();
    let (s, v) = (size.units(), c.units());
    let n = abs(s) as int;
    composition::lemma_abs_mul(s, v);
    let d1 = x * u - s * v;
    let d2 = 100 * v - k * u;
    let g = 100 * x - k * s;
    assert(g * u == 100 * d1 + s * d2) by {
        assert((100 * x - k * s) * u == 100 * (x * u) - (k * s) * u) by (nonlinear_arith);
        assert(s * (100 * v - k * u) == 100 * (s * v) - (k * s) * u) by (nonlinear_arith);
    }
    let nv = n * v;
    let nk = n * (k * u);
    assert(within(s * (d2 * p), nk)) by (nonlinear_arith)
        requires
            within(d2 * p, k * u),
            s == n || s == -n,
            n >= 0,
            nk == n * (k * u),
    ;
    assert(100 * nv <= 2 * nk) by {
        assert(d2 <= k * u) by (nonlinear_arith)
            requires
                d2 * p <= k * u,
                p >= 1,
                k * u >= 0,
        ;
        assert(100 * nv <= 2 * nk) by (nonlinear_arith)
            requires
                100 * v <= 2 * (k * u),
                nv == n * v,
                nk == n * (k * u),
                n >= 0,
        ;
    }
    assert((g * p) * u == 100 * (d1 * p) + s * (d2 * p)) by {
        assert((g * p) * u == (g * u) * p) by (nonlinear_arith);
        assert(s * (d2 * p) == (s * d2) * p) by (nonlinear_arith);
    }
    let b = 3 * (k * n) + 100 * f;
    assert(b * u == 3 * nk + 100 * (u * f)) by (nonlinear_arith)
        requires
            b == 3 * (k * n) + 100 * f,
            nk == n * (k * u),
    ;
    assert(within(g * p, b)) by (nonlinear_arith)
        requires
            within((g * p) * u, b * u),
            u > 0,
    ;
    assert(k * n == abs(k) * abs(s));
}

/// Powers of two around the number of units in `1.0`.
proof fn lemma_powers()
    ensures
        digits::two_pow(1018) > 0,
        digits::two_pow(1019) == 2 * digits::two_pow(1018),
        digits::two_pow(1021) == 8 * digits::two_pow(1018),
        digits::two_pow(1022) == 16 * digits::two_pow(1018),
        digits::two_pow(1074) == 0x100_0000_0000_0000 * digits::two_pow(1018),
{
    digits::lemma_two_pow_positive(1018);
    digits::lemma_two_pow_adds(1, 1018);
    digits::lemma_two_pow_adds(3, 1018);
    digits::lemma_two_pow_adds(4, 1018);
    digits::lemma_two_pow_adds(56, 1018);
    assert(digits::two_pow(1) == 2 && digits::two_pow(3) == 8 && digits::two_pow(4) == 16) by {
        reveal_with_fuel(digits::two_pow, 5);
    }
    assert(digits::two_pow(56) == 0x100_0000_0000_0000) by {
        reveal_with_fuel(digits::two_pow, 57);
    }
}

/// The constants that heights are estimated with.
proof fn lemma_constants()
    ensures
        is_hundredths(Scalar { bits: spans::ALPHABETIC_BITS }, 85),
        is_hundredths(Scalar { bits: spans::HANGING_BITS }, 75),
        is_hundredths(Scalar { bits: spans::IDEOGRAPHIC_BITS }, 90),
        is_hundredths(Scalar { bits: spans::BLOCK_BITS }, 130),
        is_hundredths(Scalar { bits: HALF_BITS }, 50),
        is_hundredths(Scalar { bits: fit::ASCENT_BITS }, 80),
        is_hundredths(Scalar { bits: fit::DESCENT_BITS }, 20),
        is_hundredths(Scalar { bits: layout::HANGING_RATIO_BITS }, 80),
        is_hundredths(Scalar { bits: layout::IDEOGRAPHIC_RATIO_BITS }, 10),
{
    lemma_powers();
    let w = digits::two_pow(1018);
    assert(w == 1 * w);
    lemma_hundredths(Scalar { bits: spans::ALPHABETIC_BITS }, 0x1b_3333_3333_3333, 8, 85);
    lemma_hundredths(Scalar { bits: spans::HANGING_BITS }, 0x18_0000_0000_0000, 8, 75);
    lemma_hundredths(Scalar { bits: spans::IDEOGRAPHIC_BITS }, 0x1c_cccc_cccc_cccd, 8, 90);
    lemma_hundredths(Scalar { bits: spans::BLOCK_BITS }, 0x14_cccc_cccc_cccd, 16, 130);
    lemma_hundredths(Scalar { bits: HALF_BITS }, 0x10_0000_0000_0000, 8, 50);
    lemma_hundredths(Scalar { bits: fit::ASCENT_BITS }, 0x19_9999_9999_999a, 8, 80);
    lemma_hundredths(Scalar { bits: fit::DESCENT_BITS }, 0x19_9999_9999_999a, 2, 20);
    lemma_hundredths(Scalar { bits: layout::HANGING_RATIO_BITS }, 0x19_9999_9999_999a, 8, 80);
    lemma_hundredths(Scalar { bits: layout::IDEOGRAPHIC_RATIO_BITS }, 0x19_9999_9999_999a, 1, 10);
}

/// A constant from its significand and scale.
proof fn lemma_hundredths(c: Scalar, s: nat, p: nat, n: int)
    requires
        c.significand() == s,
        digits::two_pow(c.scale()) == p * digits::two_pow(1018),
        c.finite(),
        !c.negative(),
        s * p > 0,
        within(
            (100 * (s * p) - n * 0x100_0000_0000_0000) * 0x20_0000_0000_0000,
            n * 0x100_0000_0000_0000,
        ),
    ensures
        is_hundredths(c, n),
{
    lemma_powers();
    let w = digits::two_pow(1018) as int;
    let v = s * p;
    assert(s * (p * w) == v * w) by (nonlinear_arith)
        requires
            v == s * p,
    ;
    let k: int = 0x100_0000_0000_0000;
    let d = 100 * v - n * k;
    assert(100 * (v * w) - n * (k * w) == d * w) by (nonlinear_arith)
        requires
            d == 100 * v - n * k,
    ;
    assert(within((d * w) * 0x20_0000_0000_0000, n * (k * w))) by (nonlinear_arith)
        requires
            within(d * 0x20_0000_0000_0000, n * k),
            w > 0,
    ;
    assert(v * w > 0) by (nonlinear_arith)
        requires
            v > 0,
            w > 0,
    ;
}

/// How far the anchor of a text is below its top, in hundredths of the font size, where nothing
/// is known of its layout.
pub open spec fn estimated(baseline: TextBaseline) -> int {
    match baseline {
        TextBaseline::Top => 0,
        TextBaseline::Hanging => 75,
        TextBaseline::Middle => 50,
        TextBaseline::Alphabetic => 85,
        TextBaseline::Ideographic => 90,
        TextBaseline::Bottom => 130,
    }
}

/// Without a layout the anchor and the first baseline are estimated from the font size.
pub proof fn law_anchors_are_estimated_from_the_font_size(style: TextStyle)
    requires
        style.font_size.product(Scalar { bits: spans::BLOCK_BITS }).finite(),
        style.font_size.product(Scalar { bits: spans::ALPHABETIC_BITS }).finite(),
        spans::block_anchor(style, None).0.finite(),
    ensures
        is_share(
            spans::block_anchor(style, None).0,
            style.font_size,
            estimated(style.baseline),
        ),
        is_share(spans::block_anchor(style, None).1, style.font_size, 85),
{
    lemma_constants();
    let size = style.font_size;
    lemma_share(size, Scalar { bits: spans::ALPHABETIC_BITS }, 85);
    scalar::lemma_zero(Scalar { bits: 0 });
    match style.baseline {
        TextBaseline::Top => {
            let (k, n): (int, int) = (0, size.units());
            assert(k * n == 0 && abs(k) * abs(n) == 0) by (nonlinear_arith)
                requires
                    k == 0,
            ;
        },
        TextBaseline::Hanging => lemma_share(size, Scalar { bits: spans::HANGING_BITS }, 75),
        TextBaseline::Middle => lemma_share(size, Scalar { bits: HALF_BITS }, 50),
        TextBaseline::Alphabetic => {},
        TextBaseline::Ideographic => lemma_share(
            size,
            Scalar { bits: spans::IDEOGRAPHIC_BITS },
            90,
        ),
        TextBaseline::Bottom => lemma_share(size, Scalar { bits: spans::BLOCK_BITS }, 130),
    }
}

/// The anchor of a text is at its top, at its bottom, or at a baseline of its first line; the
/// middle is halfway between the ascent and the descent about the alphabetic one.
pub proof fn law_anchors_are_at_their_baseline(b: &TextBaseline, m: &TextMetrics, a: Scalar)
    requires
        call_ensures(TextBaseline::anchor_offset, (b, m), a),
        a.finite(),
    ensures
        match *b {
            TextBaseline::Top => a.units() == 0,
            TextBaseline::Hanging => a == m.hanging_baseline,
            TextBaseline::Alphabetic => a == m.alphabetic_baseline,
            TextBaseline::Ideographic => a == m.ideographic_baseline,
            TextBaseline::Bottom => a == m.height,
            TextBaseline::Middle => {
                let (base, up, down) = (
                    m.alphabetic_baseline.units(),
                    m.em_height_ascent.units(),
                    m.em_height_descent.units(),
                );
                abs(2 * a.units() - (2 * base - up + down)) * PARTS <= 8 * (abs(base) + abs(up)
                    + abs(down)) + 8 * PARTS
            },
        },
{
    scalar::lemma_zero(Scalar { bits: 0 });
    if *b == TextBaseline::Middle {
        lemma_middle(m.alphabetic_baseline, m.em_height_ascent, m.em_height_descent);
    }
}

proof fn lemma_middle(base: Scalar, up: Scalar, down: Scalar)
    requires
        base.difference(up.difference(down).product(Scalar { bits: HALF_BITS })).finite(),
    ensures
        ({
            let a = base.difference(up.difference(down).product(Scalar { bits: HALF_BITS }));
            abs(2 * a.units() - (2 * base.units() - up.units() + down.units())) * PARTS <= 8 * (abs(
                base.units(),
            ) + abs(up.units()) + abs(down.units())) + 8 * PARTS
        }),
{
    let half = Scalar { bits: HALF_BITS };
    let d = up.difference(down);
    let h = d.product(half);
    lemma_opposite(h);
    lemma_opposite(down);
    accuracy::law_sum_error(base, h.negated());
    accuracy::law_product_error(d, half);
    accuracy::law_sum_error(up, down.negated());
    lemma_constants();
    lemma_share(d, half, 50);
    let (x, y) = (h.units(), d.units());
    assert(abs(50) * abs(y) == 50 * abs(y));
    assert(abs(2 * x - y) * PARTS <= 3 * abs(y) + 4 * PARTS);
    lemma_add_middle(
        base.difference(h).units(),
        base.units(),
        up.units(),
        down.units(),
        x,
        y,
    );
}

proof fn lemma_add_middle(a: int, base: int, up: int, down: int, x: int, y: int)
    requires
        within((a - (base - x)) * PARTS, abs(base - x) as int),
        abs(2 * x - y) * PARTS <= 3 * abs(y) + 4 * PARTS,
        within((y - (up - down)) * PARTS, abs(up - down) as int),
    ensures
        abs(2 * a - (2 * base - up + down)) * PARTS <= 8 * (abs(base) + abs(up) + abs(down)) + 8
            * PARTS,
{
    let n = (abs(up) + abs(down)) as int;
    let b = abs(base) as int;
    let p: int = 0x20_0000_0000_0000;
    let e1 = a - (base - x);
    let e2 = 2 * x - y;
    let e3 = y - (up - down);
    let (q1, q2, q3) = (abs(e1) as int, abs(e2) as int, abs(e3) as int);
    let (m, z) = (abs(y) as int, abs(x) as int);
    assert(q3 * p <= n);
    assert(m <= n + q3);
    assert(q2 * p <= 3 * m + 4 * p);
    assert(2 * z <= m + q2);
    assert(q1 * p <= b + z);
    assert(2 * a - (2 * base - up + down) == 2 * e1 - e2 - e3);
    let d = abs(2 * e1 - e2 - e3) as int;
    assert(d <= 2 * q1 + q2 + q3);
    assert(d * p <= 8 * (b + n) + 8 * p) by {
        assert(d * p <= 2 * (q1 * p) + q2 * p + q3 * p);
    }
}

proof fn lemma_opposite(a: Scalar)
    ensures
        a.negated().units() == -a.units(),
        a.negated().finite() == a.finite(),
{
    assert(a.negated().magnitude() == a.magnitude());
}

/// The share of the height above the anchor of an estimated box, in hundredths.
pub open spec fn above(baseline: TextBaseline) -> int {
    match baseline {
        TextBaseline::Top => 0,
        TextBaseline::Middle => 50,
        TextBaseline::Bottom => 100,
        _ => 80,
    }
}

/// The hanging baseline is below the top of a line by four fifths of its ascent, the ideographic
/// one below the alphabetic one by a tenth of the descent.
pub proof fn law_baselines_are_shares_of_the_line(
    l: &layout::TextLayout,
    m: TextMetrics,
    line: LineMetrics,
)
    requires
        call_ensures(layout::layout_metrics, (l,), m),
        l.lines@.len() > 0,
        line == l.lines@[0].metrics,
        m.hanging_baseline.finite(),
        line.descent.product(Scalar { bits: layout::IDEOGRAPHIC_RATIO_BITS }).finite(),
    ensures
        is_share(m.hanging_baseline, line.ascent, 80),
        m.alphabetic_baseline == line.baseline,
        m.ideographic_baseline == line.baseline.sum(
            line.descent.product(Scalar { bits: layout::IDEOGRAPHIC_RATIO_BITS }),
        ),
        is_share(
            line.descent.product(Scalar { bits: layout::IDEOGRAPHIC_RATIO_BITS }),
            line.descent,
            10,
        ),
        m.width == l.width,
        m.height == l.height,
{
    lemma_constants();
    lemma_share(line.ascent, Scalar { bits: layout::HANGING_RATIO_BITS }, 80);
    lemma_share(line.descent, Scalar { bits: layout::IDEOGRAPHIC_RATIO_BITS }, 10);
}

/// A difference, up to rounding.
proof fn lemma_less(x: Scalar, d: Scalar)
    requires
        x.difference(d).finite(),
    ensures
        x.finite(),
        d.finite(),
        abs(x.difference(d).units() - (x.units() - d.units())) * PARTS <= abs(x.units()) + abs(
            d.units(),
        ),
{
    lemma_opposite(d);
    accuracy::law_sum_error(x, d.negated());
}

/// A sum, up to rounding.
proof fn lemma_more(x: Scalar, d: Scalar)
    requires
        x.sum(d).finite(),
    ensures
        x.finite(),
        d.finite(),
        abs(x.sum(d).units() - (x.units() + d.units())) * PARTS <= abs(x.units()) + abs(d.units()),
{
    accuracy::law_sum_error(x, d);
}

/// Half of a number, as a share.
proof fn lemma_half(w: Scalar)
    requires
        w.finite(),
    ensures
        w.quotient(Scalar { bits: TWO_BITS }).finite(),
        abs(2 * w.quotient(Scalar { bits: TWO_BITS }).units() - w.units()) * PARTS <= abs(w.units())
            + PARTS,
{
    let two = Scalar { bits: TWO_BITS };
    placement::lemma_half_finite(w);
    placement::lemma_two();
    digits::lemma_two_pow_positive(1074);
    accuracy::law_quotient_error(w, two);
    let u = unit() as int;
    let x = w.quotient(two).units();
    let v = w.units();
    let n = w.abs_units() as int;
    assert(within((2 * x - v) * PARTS, n + 2 * FRACTION_RANGE)) by (nonlinear_arith)
        requires
            within((x * (2 * u) - v * u) * PARTS, n * u + (2 * u) * FRACTION_RANGE),
            u > 0,
    ;
}

/// A side `d` away from a point, where `d` is a share of a length.
proof fn lemma_side(s: int, x: int, d: int, k: int, h: int)
    requires
        h >= 0,
        0 <= k <= 100,
        abs(s - (x + d)) * PARTS <= abs(x) + abs(d),
        abs(100 * d - k * h) * PARTS <= 300 * h + 200 * PARTS || abs(100 * d + k * h) * PARTS <= 300
            * h + 200 * PARTS,
    ensures
        abs(100 * d - k * h) * PARTS <= 300 * h + 200 * PARTS ==> abs(100 * (s - x) - k * h) * PARTS
            <= 600 * (abs(x) + h) + 600 * PARTS,
        abs(100 * d + k * h) * PARTS <= 300 * h + 200 * PARTS ==> abs(100 * (s - x) + k * h) * PARTS
            <= 600 * (abs(x) + h) + 600 * PARTS,
{
    let p: int = 0x20_0000_0000_0000;
    let kh = k * h;
    assert(0 <= kh <= 100 * h) by (nonlinear_arith)
        requires
            kh == k * h,
            0 <= k <= 100,
            h >= 0,
    ;
    let e = s - (x + d);
    let (q, m, n) = (abs(e) as int, abs(d) as int, abs(x) as int);
    assert(m <= 2 * h + 8) by {
        let r = if abs(100 * d - kh) * p <= 300 * h + 200 * p {
            abs(100 * d - kh) as int
        } else {
            abs(100 * d + kh) as int
        };
        assert(r * p <= 300 * h + 200 * p);
        assert(100 * m <= kh + r);
    }
    assert(q * p <= n + m);
    if abs(100 * d - kh) * p <= 300 * h + 200 * p {
        let r = abs(100 * d - kh) as int;
        let t = abs(100 * (s - x) - kh) as int;
        assert(t <= 100 * q + r);
        assert(t * p <= 100 * (q * p) + r * p);
    }
    if abs(100 * d + kh) * p <= 300 * h + 200 * p {
        let r = abs(100 * d + kh) as int;
        let t = abs(100 * (s - x) + kh) as int;
        assert(t <= 100 * q + r);
        assert(t * p <= 100 * (q * p) + r * p);
    }
}

/// A number stands `k` hundredths of a length above another, or below it where `k` is negative.
pub open spec fn is_above(s: Scalar, x: Scalar, k: int, h: Scalar) -> bool {
    abs(100 * (s.units() - x.units()) + k * h.units()) * PARTS <= 600 * (abs(x.units()) + abs(
        h.units(),
    )) + 600 * PARTS
}

/// The edges of an estimated text box: as far to the left of the anchor, and above it, as the
/// alignment and the baseline say, and for the rest of the width and the height beyond it.
pub proof fn law_text_boxes_lie_about_their_anchor(
    x: Scalar,
    w: Scalar,
    style: TextStyle,
    y: Scalar,
    h: Scalar,
)
    requires
        w.finite(),
        h.finite(),
        w.units() > 0,
        h.units() > 0,
        x.finite(),
        y.finite(),
        fit::text_columns(x, w, style.align).0.finite(),
        fit::text_columns(x, w, style.align).1.finite(),
        fit::text_rows(y, h, style.baseline).0.finite(),
        fit::text_rows(y, h, style.baseline).1.finite(),
    ensures
        is_above(
            fit::text_columns(x, w, style.align).0,
            x,
            50 * placement::halves(style.align),
            w,
        ),
        is_above(
            fit::text_columns(x, w, style.align).1,
            x,
            50 * placement::halves(style.align) - 100,
            w,
        ),
        is_above(fit::text_rows(y, h, style.baseline).0, y, above(style.baseline), h),
        is_above(fit::text_rows(y, h, style.baseline).1, y, above(style.baseline) - 100, h),
{
    lemma_half(w);
    lemma_half(h);
    lemma_constants();
    let two = Scalar { bits: TWO_BITS };
    match style.align {
        TextAlign::Left | TextAlign::Justify => {
            lemma_at(x, w);
            lemma_after(x, w, 100, w);
        },
        TextAlign::Center => {
            lemma_before(x, w.quotient(two), 50, w);
            lemma_after(x, w.quotient(two), 50, w);
        },
        TextAlign::Right => {
            lemma_before(x, w, 100, w);
            lemma_at(x, w);
        },
    }
    match style.baseline {
        TextBaseline::Top => {
            lemma_at(y, h);
            lemma_after(y, h, 100, h);
        },
        TextBaseline::Middle => {
            lemma_before(y, h.quotient(two), 50, h);
            lemma_after(y, h.quotient(two), 50, h);
        },
        TextBaseline::Bottom => {
            lemma_before(y, h, 100, h);
            lemma_at(y, h);
        },
        _ => {
            let (up, down) = (
                h.product(Scalar { bits: fit::ASCENT_BITS }),
                h.product(Scalar { bits: fit::DESCENT_BITS }),
            );
            lemma_less(y, up);
            lemma_more(y, down);
            lemma_share(h, Scalar { bits: fit::ASCENT_BITS }, 80);
            lemma_share(h, Scalar { bits: fit::DESCENT_BITS }, 20);
            lemma_before(y, up, 80, h);
            lemma_after(y, down, 20, h);
        },
    }
}

/// The anchor itself.
proof fn lemma_at(x: Scalar, h: Scalar)
    ensures
        is_above(x, x, 0, h),
{
    let (k, n): (int, int) = (0, h.units());
    assert(k * n == 0) by (nonlinear_arith)
        requires
            k == 0,
    ;
}

/// An edge before the anchor.
proof fn lemma_before(x: Scalar, d: Scalar, k: int, h: Scalar)
    requires
        x.difference(d).finite(),
        h.units() >= 0,
        0 <= k <= 100,
        abs(100 * d.units() - k * h.units()) * PARTS <= 300 * h.units() + 200 * PARTS,
    ensures
        is_above(x.difference(d), x, k, h),
{
    lemma_less(x, d);
    let (n, m) = (k, h.units());
    lemma_side(x.difference(d).units(), x.units(), -d.units(), n, m);
}

/// An edge after the anchor.
proof fn lemma_after(x: Scalar, d: Scalar, k: int, h: Scalar)
    requires
        x.sum(d).finite(),
        h.units() >= 0,
        0 <= k <= 100,
        abs(100 * d.units() - k * h.units()) * PARTS <= 300 * h.units() + 200 * PARTS,
    ensures
        is_above(x.sum(d), x, -k, h),
{
    lemma_more(x, d);
    let (n, m) = (k, h.units());
    lemma_side(x.sum(d).units(), x.units(), d.units(), n, m);
    assert((-n) * m == -(n * m)) by (nonlinear_arith);
}

} // verus!
