//! What the markup says.
//!
//! Each law tells a piece of markup that an output holds, in the words of SVG.

use vstd::prelude::*;
use vstd::math::abs;
use crate::accuracy;
use crate::accuracy::{within, PARTS};
use crate::digits;
use crate::geometry::{Point, Transform, Vec2, HALF_BITS};
use crate::render::markup;
use crate::render::shapes;
use crate::render::spans;
use crate::render::svg;
use crate::scalar;
use crate::scalar::{Scalar, FRACTION_RANGE};
use crate::sketch::directions::{DECIMALS, HALF_TURN_DECIMALS};
use crate::style;
use crate::style::{GradientStop, LineCap, LineJoin, SketchFill, SketchFillStyle, Stroke};
use crate::text::layout::TextMetrics;
use crate::text::style::{RichSpan, TextAlign, TextStyle};

verus! {

/// A text holds a piece.
pub open spec fn shows(text: Seq<char>, piece: Seq<char>) -> bool {
    exists|i: int|
        0 <= i <= text.len() - piece.len() && #[trigger] text.subrange(i, i + piece.len()) == piece
}

/// A text holds each of its parts.
proof fn lemma_shows(before: Seq<char>, piece: Seq<char>, after: Seq<char>)
    ensures
        shows(before + piece + after, piece),
{
    let i = before.len() as int;
    assert((before + piece + after).subrange(i, i + piece.len()) =~= piece);
}

/// What a part holds, the whole holds.
proof fn lemma_shows_in(before: Seq<char>, part: Seq<char>, after: Seq<char>, piece: Seq<char>)
    requires
        shows(part, piece),
    ensures
        shows(before + part + after, piece),
{
    let i = choose|i: int|
        0 <= i <= part.len() - piece.len() && #[trigger] part.subrange(i, i + piece.len()) == piece;
    let j = before.len() + i;
    let all = before + part + after;
    assert(all.subrange(j, j + piece.len()) =~= piece);
}

/// An attribute with its value.
pub open spec fn attribute(name: Seq<char>, value: Seq<char>) -> Seq<char> {
    name + seq!['=', '"'] + value + seq!['"']
}

/// Ends of lines are cut, round or square, and joints pointed, round or cut, as the stroke says.
pub proof fn law_strokes_tell_their_ends(s: &Stroke, r: String)
    requires
        call_ensures(markup::stroke_svg, (s,), r),
    ensures
        shows(
            r@,
            attribute(
                "stroke-linecap"@,
                match s.line_cap {
                    LineCap::Butt => "butt"@,
                    LineCap::Round => "round"@,
                    LineCap::Square => "square"@,
                },
            ),
        ),
        shows(
            r@,
            attribute(
                "stroke-linejoin"@,
                match s.line_join {
                    LineJoin::Miter => "miter"@,
                    LineJoin::Round => "round"@,
                    LineJoin::Bevel => "bevel"@,
                },
            ),
        ),
        shows(r@, attribute("stroke-width"@, s.width.fixed(2))),
        shows(r@, attribute("stroke-miterlimit"@, s.miter_limit.fixed(2))),
{
    reveal_strlit("stroke-linecap");
    reveal_strlit("stroke-linejoin");
    reveal_strlit("stroke-width");
    reveal_strlit("stroke-miterlimit");
    reveal_strlit(" stroke-width=\"");
    reveal_strlit("\" stroke-miterlimit=\"");
    reveal_strlit("\" stroke-linecap=\"");
    reveal_strlit("\" stroke-linejoin=\"");
    reveal_strlit("\"");
    let v = s@;
    let cap = markup::cap_name(v.line_cap);
    let join = markup::join_name(v.line_join);
    let head = markup::color_attr("stroke"@, v.color);
    let tail = markup::dash_attr(v);
    let w = attribute("stroke-width"@, v.width.fixed(2));
    let m = attribute("stroke-miterlimit"@, v.miter_limit.fixed(2));
    let c = attribute("stroke-linecap"@, cap);
    let j = attribute("stroke-linejoin"@, join);
    let sp = seq![' '];
    assert(r@ =~= (head + sp) + w + (sp + m + sp + c + sp + j + tail));
    lemma_shows(head + sp, w, sp + m + sp + c + sp + j + tail);
    assert(r@ =~= (head + sp + w + sp) + m + (sp + c + sp + j + tail));
    lemma_shows(head + sp + w + sp, m, sp + c + sp + j + tail);
    assert(r@ =~= (head + sp + w + sp + m + sp) + c + (sp + j + tail));
    lemma_shows(head + sp + w + sp + m + sp, c, sp + j + tail);
    assert(r@ =~= (head + sp + w + sp + m + sp + c + sp) + j + tail);
    lemma_shows(head + sp + w + sp + m + sp + c + sp, j, tail);
}

/// A text is anchored at its start, in its middle or at its end, as it is aligned.
pub proof fn law_texts_tell_their_anchor(
    spans: &Vec<RichSpan>,
    position: Point,
    style: &TextStyle,
    metrics: Option<TextMetrics>,
    r: String,
)
    requires
        call_ensures(spans::text_svg, (spans, position, style, metrics), r),
    ensures
        shows(
            r@,
            attribute(
                "text-anchor"@,
                match style.align {
                    TextAlign::Left | TextAlign::Justify => "start"@,
                    TextAlign::Center => "middle"@,
                    TextAlign::Right => "end"@,
                },
            ),
        ),
{
    reveal_strlit("text-anchor");
    reveal_strlit("\" text-anchor=\"");
    reveal_strlit("\" dominant-baseline=\"alphabetic\" font-family=\"");
    let name = spans::anchor_name(style.align);
    let piece = attribute("text-anchor"@, name);
    let head = spans::text_head(position, *style, metrics);
    let y = spans::block_top(position, *style, metrics).sum(
        spans::block_anchor(*style, metrics).1,
    );
    let before = "<text x=\""@ + position.x.fixed(2) + "\" y=\""@ + y.fixed(2) + seq!['"', ' '];
    let n = before.len() + piece.len();
    assert(head.take(n as int) =~= before + piece);
    let after = head.skip(n as int);
    assert(head =~= before + piece + after);
    lemma_shows(before, piece, after);
    let back = spans::background_markup(spans@, position, *style, metrics);
    let rest = markup::color_attr("fill"@, style.color) + spans::text_options(position, *style)
        + ">"@ + spans::text_body(spans@, position, *style, metrics) + "</text>\n"@;
    assert(r@ =~= back + head + rest);
    lemma_shows_in(back, head, rest, piece);
}

/// A group with a transform lists its coefficients by columns.
pub proof fn law_matrices_are_listed_by_columns(t: Transform)
    ensures
        ({
            let sp = seq![' '];
            shows(
                svg::matrix_markup(t),
                seq!['('] + t.a.fixed(6) + sp + t.b.fixed(6) + sp + t.c.fixed(6) + sp + t.d.fixed(6)
                    + sp + t.e.fixed(6) + sp + t.f.fixed(6) + seq![')'],
            )
        }),
{
    reveal_strlit("<g transform=\"matrix(");
    reveal_strlit(" ");
    reveal_strlit(")\">");
    let sp = seq![' '];
    let piece = seq!['('] + t.a.fixed(6) + sp + t.b.fixed(6) + sp + t.c.fixed(6) + sp + t.d.fixed(6)
        + sp + t.e.fixed(6) + sp + t.f.fixed(6) + seq![')'];
    let lead = "<g transform=\"matrix("@.drop_last();
    assert(svg::matrix_markup(t) =~= lead + piece + seq!['"', '>']);
    lemma_shows(lead, piece, seq!['"', '>']);
}

/// A linear gradient runs from its start to its end.
pub proof fn law_linear_gradients_run_from_start_to_end(
    id: usize,
    start: Point,
    end: Point,
    stops: &Vec<GradientStop>,
    d: String,
)
    requires
        call_ensures(markup::linear_svg, (id, start, end, stops), d),
    ensures
        shows(
            d@,
            attribute("x1"@, start.x.fixed(2)) + seq![' '] + attribute("y1"@, start.y.fixed(2))
                + seq![' '] + attribute("x2"@, end.x.fixed(2)) + seq![' '] + attribute(
                "y2"@,
                end.y.fixed(2),
            ),
        ),
        shows(d@, attribute("id"@, "grad"@ + digits::decimal(id as nat))),
        shows(d@, markup::stops_markup(stops@)),
{
    reveal_strlit("x1");
    reveal_strlit("y1");
    reveal_strlit("x2");
    reveal_strlit("y2");
    reveal_strlit("id");
    reveal_strlit("grad");
    reveal_strlit("<defs><linearGradient id=\"grad");
    reveal_strlit("\" gradientUnits=\"userSpaceOnUse\" x1=\"");
    reveal_strlit("\" y1=\"");
    reveal_strlit("\" x2=\"");
    reveal_strlit("\" y2=\"");
    reveal_strlit("\">");
    let piece = attribute("x1"@, start.x.fixed(2)) + seq![' '] + attribute(
        "y1"@,
        start.y.fixed(2),
    ) + seq![' '] + attribute("x2"@, end.x.fixed(2)) + seq![' '] + attribute("y2"@, end.y.fixed(2));
    let name = attribute("id"@, "grad"@ + digits::decimal(id as nat));
    let lead = "<defs><linearGradient id=\"grad"@.take(22);
    let units = "\" gradientUnits=\"userSpaceOnUse\" x1=\""@.subrange(1, 33);
    let list = markup::stops_markup(stops@);
    let tail = "</linearGradient></defs>"@;
    assert(d@ =~= lead + name + (units + piece + seq!['>'] + list + tail));
    lemma_shows(lead, name, units + piece + seq!['>'] + list + tail);
    assert(d@ =~= (lead + name + units) + piece + (seq!['>'] + list + tail));
    lemma_shows(lead + name + units, piece, seq!['>'] + list + tail);
    assert(d@ =~= (lead + name + units + piece + seq!['>']) + list + tail);
    lemma_shows(lead + name + units + piece + seq!['>'], list, tail);
}

/// A radial gradient lies about its center.
pub proof fn law_radial_gradients_lie_about_their_center(
    id: usize,
    center: Point,
    radius: Scalar,
    stops: &Vec<GradientStop>,
    d: String,
)
    requires
        call_ensures(markup::radial_svg, (id, center, radius, stops), d),
    ensures
        shows(
            d@,
            attribute("cx"@, center.x.fixed(2)) + seq![' '] + attribute("cy"@, center.y.fixed(2))
                + seq![' '] + attribute("r"@, radius.fixed(2)),
        ),
        shows(d@, attribute("id"@, "grad"@ + digits::decimal(id as nat))),
        shows(d@, markup::stops_markup(stops@)),
{
    reveal_strlit("cx");
    reveal_strlit("cy");
    reveal_strlit("r");
    reveal_strlit("id");
    reveal_strlit("grad");
    reveal_strlit("<defs><radialGradient id=\"grad");
    reveal_strlit("\" gradientUnits=\"userSpaceOnUse\" cx=\"");
    reveal_strlit("\" cy=\"");
    reveal_strlit("\" r=\"");
    reveal_strlit("\">");
    let piece = attribute("cx"@, center.x.fixed(2)) + seq![' '] + attribute(
        "cy"@,
        center.y.fixed(2),
    ) + seq![' '] + attribute("r"@, radius.fixed(2));
    let name = attribute("id"@, "grad"@ + digits::decimal(id as nat));
    let lead = "<defs><radialGradient id=\"grad"@.take(22);
    let units = "\" gradientUnits=\"userSpaceOnUse\" cx=\""@.subrange(1, 33);
    let list = markup::stops_markup(stops@);
    let tail = "</radialGradient></defs>"@;
    assert(d@ =~= lead + name + (units + piece + seq!['>'] + list + tail));
    lemma_shows(lead, name, units + piece + seq!['>'] + list + tail);
    assert(d@ =~= (lead + name + units) + piece + (seq!['>'] + list + tail));
    lemma_shows(lead + name + units, piece, seq!['>'] + list + tail);
    assert(d@ =~= (lead + name + units + piece + seq!['>']) + list + tail);
    lemma_shows(lead + name + units + piece + seq!['>'], list, tail);
}

/// The number of degrees in a radian.
proof fn lemma_degrees()
    ensures
        (Scalar { bits: markup::DEGREES_BITS }).finite(),
        (Scalar { bits: markup::DEGREES_BITS }).units() > 0,
        within(
            ((Scalar { bits: markup::DEGREES_BITS }).units() * 31_415_926_535_897_932
                - 1_800_000_000_000_000_000 * digits::two_pow(1074)) * PARTS,
            1_800_000_000_000_000_000 * digits::two_pow(1074) as int,
        ),
{
    let r = Scalar { bits: markup::DEGREES_BITS };
    let w = digits::two_pow(1027);
    digits::lemma_two_pow_positive(1027);
    digits::lemma_two_pow_adds(47, 1027);
    assert(digits::two_pow(47) == 0x8000_0000_0000) by {
        reveal_with_fuel(digits::two_pow, 48);
    }
    assert(r.scale() == 1027 && r.significand() == 0x1c_a5dc_1a63_c1f8);
}

/// An angle in degrees is 180 for each half turn, up to rounding.
proof fn lemma_in_degrees(a: Scalar)
    requires
        a.product(Scalar { bits: markup::DEGREES_BITS }).finite(),
    ensures
        in_degrees(a.product(Scalar { bits: markup::DEGREES_BITS }), a),
{
    let deg = Scalar { bits: markup::DEGREES_BITS };
    let u = digits::two_pow(1074) as int;
    let v = deg.units();
    let t = a.units();
    let n = a.abs_units() as int;
    let h = HALF_TURN_DECIMALS as int;
    let c = 180 * DECIMALS as int;
    let p = PARTS as int;
    let k = FRACTION_RANGE as int;
    lemma_degrees();
    digits::lemma_two_pow_positive(1074);
    accuracy::law_product_error(a, deg);
    let x = a.product(deg).units();
    assert(abs(t * v) == n * v) by (nonlinear_arith)
        requires
            t == n || t == -n,
            v > 0,
            n >= 0,
    ;
    let d1 = x * u - t * v;
    let d2 = v * h - c * u;
    assert(c == 1_800_000_000_000_000_000);
    assert(within(d2 * p, c * u));
    let g = x * h - t * c;
    assert(g * u == d1 * h + t * d2) by {
        assert((x * h - t * c) * u == (x * u) * h - (t * c) * u) by (nonlinear_arith);
        assert((x * u - t * v) * h == (x * u) * h - (t * v) * h) by (nonlinear_arith);
        assert(t * (v * h - c * u) == (t * v) * h - (t * c) * u) by (nonlinear_arith);
    }
    assert((g * p) * u == (d1 * p) * h + t * (d2 * p)) by (nonlinear_arith)
        requires
            g * u == d1 * h + t * d2,
    ;
    assert(within((d1 * p) * h, (n * v + u * k) * h)) by (nonlinear_arith)
        requires
            within(d1 * p, n * v + u * k),
            h > 0,
    ;
    assert(within(t * (d2 * p), n * (c * u))) by (nonlinear_arith)
        requires
            within(d2 * p, c * u),
            t == n || t == -n,
            n >= 0,
    ;
    assert(d2 <= c * u) by (nonlinear_arith)
        requires
            d2 * p <= c * u,
            p >= 1,
            c * u >= 0,
    ;
    assert((n * v + u * k) * h == n * (v * h) + u * (k * h)) by (nonlinear_arith);
    assert(n * (v * h) <= 2 * (n * (c * u))) by (nonlinear_arith)
        requires
            v * h <= 2 * (c * u),
            n >= 0,
    ;
    let b = 3 * (n * c) + k * h;
    assert(b * u == 3 * (n * (c * u)) + u * (k * h)) by (nonlinear_arith)
        requires
            b == 3 * (n * c) + k * h,
    ;
    assert(within(g * p, b)) by (nonlinear_arith)
        requires
            within((g * p) * u, b * u),
            u > 0,
    ;
    assert(x * HALF_TURN_DECIMALS - t * (180 * DECIMALS) == g);
}

/// A number is an angle in degrees: 180 for each half turn, up to three parts in `2^53` and some
/// of the smallest numbers.
pub open spec fn in_degrees(degrees: Scalar, angle: Scalar) -> bool {
    within(
        (degrees.units() * HALF_TURN_DECIMALS - angle.units() * (180 * DECIMALS)) * PARTS,
        3 * (angle.abs_units() * (180 * DECIMALS)) + FRACTION_RANGE * HALF_TURN_DECIMALS,
    )
}

/// A turn is given in degrees, about the point that it leaves where it is.
pub proof fn law_turns_are_in_degrees(angle: Scalar, about: Point, r: String) -> (degrees: Scalar)
    requires
        call_ensures(markup::rotation_svg, (angle, about), r),
        angle.product(Scalar { bits: markup::DEGREES_BITS }).finite(),
    ensures
        in_degrees(degrees, angle),
        shows(
            r@,
            seq!['('] + degrees.fixed(2) + seq![' '] + about.x.fixed(2) + seq![' ']
                + about.y.fixed(2) + seq![')'],
        ),
{
    lemma_in_degrees(angle);
    reveal_strlit("transform=\"rotate(");
    reveal_strlit(" ");
    reveal_strlit(")\"");
    let degrees = angle.product(Scalar { bits: markup::DEGREES_BITS });
    let piece = seq!['('] + degrees.fixed(2) + seq![' '] + about.x.fixed(2) + seq![' ']
        + about.y.fixed(2) + seq![')'];
    let lead = "transform=\"rotate("@.drop_last();
    assert(r@ =~= lead + piece + seq!['"']);
    lemma_shows(lead, piece, seq!['"']);
    degrees
}

/// The tile of a hand-drawn fill: a circle for dots; a line through its middle for a hachure,
/// another across it for a cross-hatch, and one that swings to the edge and back for a zigzag. It
/// is as wide and as high as the lines are apart, and turned by the angle of the fill.
pub proof fn law_tiles_draw_their_style(id: usize, f: &SketchFill, d: String)
    requires
        call_ensures(markup::pattern_svg, (id, f), d),
    ensures
        ({
            let gap = style::spaced(f.line_gap);
            let half = gap.product(Scalar { bits: HALF_BITS });
            let (g, h) = (gap.fixed(2), half.fixed(2));
            let across = seq!['M', ' ', '0', ' '] + h + seq![' ', 'H', ' '] + g;
            let down = seq!['M', ' '] + h + seq![' ', '0', ' ', 'V', ' '] + g;
            let swing = seq!['M', ' ', '0', ' '] + h + seq![' ', 'L', ' '] + h + seq![
                ' ',
                '0',
                ' ',
                'L',
                ' ',
            ] + g + seq![' '] + h;
            &&& shows(
                d@,
                match f.style {
                    SketchFillStyle::Dots => "<circle"@ + seq![' '] + attribute("cx"@, h) + seq![' ']
                        + attribute("cy"@, h) + seq![' '] + attribute("r"@, f.pen().fixed(2)),
                    SketchFillStyle::CrossHatch => attribute("d"@, across + seq![' '] + down),
                    SketchFillStyle::Zigzag => attribute("d"@, swing),
                    _ => attribute("d"@, across),
                },
            )
            &&& shows(d@, attribute("width"@, g) + seq![' '] + attribute("height"@, g))
            &&& shows(d@, seq!['('] + f.angle.fixed(2) + seq![')'])
        }),
{
    let gap = style::spaced(f.line_gap);
    let half = gap.product(Scalar { bits: HALF_BITS });
    let (g, h) = (gap.fixed(2), half.fixed(2));
    lemma_tile(*f);
    let tile = markup::tile_markup(*f);
    reveal_strlit("width");
    reveal_strlit("height");
    reveal_strlit("\" patternUnits=\"userSpaceOnUse\" width=\"");
    reveal_strlit("\" height=\"");
    reveal_strlit("\" patternTransform=\"rotate(");
    reveal_strlit(")\">");
    let size = attribute("width"@, g) + seq![' '] + attribute("height"@, g);
    let turn = seq!['('] + f.angle.fixed(2) + seq![')'];
    let head = "<defs><pattern id=\"grad"@ + digits::decimal(id as nat)
        + "\" patternUnits=\"userSpaceOnUse\" width=\""@.take(32);
    let middle = "\" patternTransform=\"rotate("@.subrange(1, 26);
    let tail = "</pattern></defs>"@;
    let end = seq!['"', '>'];
    assert(d@ =~= head + size + (middle + turn + end + tile + tail));
    lemma_shows(head, size, middle + turn + end + tile + tail);
    assert(d@ =~= (head + size + middle) + turn + (end + tile + tail));
    lemma_shows(head + size + middle, turn, end + tile + tail);
    assert(d@ =~= (head + size + middle + turn + end) + tile + tail);
    lemma_tile(*f);
    let piece = tile_piece(*f);
    lemma_shows_in(head + size + middle + turn + end, tile, tail, piece);
}

/// What the tile of a fill draws.
spec fn tile_piece(f: SketchFill) -> Seq<char> {
    let gap = style::spaced(f.line_gap);
    let half = gap.product(Scalar { bits: HALF_BITS });
    let (g, h) = (gap.fixed(2), half.fixed(2));
    let across = seq!['M', ' ', '0', ' '] + h + seq![' ', 'H', ' '] + g;
    let down = seq!['M', ' '] + h + seq![' ', '0', ' ', 'V', ' '] + g;
    let swing = seq!['M', ' ', '0', ' '] + h + seq![' ', 'L', ' '] + h + seq![
        ' ',
        '0',
        ' ',
        'L',
        ' ',
    ] + g + seq![' '] + h;
    match f.style {
        SketchFillStyle::Dots => "<circle"@ + seq![' '] + attribute("cx"@, h) + seq![' ']
            + attribute("cy"@, h) + seq![' '] + attribute("r"@, f.pen().fixed(2)),
        SketchFillStyle::CrossHatch => attribute("d"@, across + seq![' '] + down),
        SketchFillStyle::Zigzag => attribute("d"@, swing),
        _ => attribute("d"@, across),
    }
}

proof fn lemma_tile(f: SketchFill)
    ensures
        shows(markup::tile_markup(f), tile_piece(f)),
{
    reveal_strlit("<circle");
    reveal_strlit("cx");
    reveal_strlit("cy");
    reveal_strlit("r");
    reveal_strlit("d");
    reveal_strlit("<circle cx=\"");
    reveal_strlit("\" cy=\"");
    reveal_strlit("\" r=\"");
    reveal_strlit("\"");
    reveal_strlit("<path d=\"");
    reveal_strlit("\" fill=\"none\"");
    let piece = tile_piece(f);
    let m = markup::tile_markup(f);
    if f.style == SketchFillStyle::Dots {
        let after = markup::color_attr("fill"@, f.color) + "/>"@;
        assert(m =~= Seq::<char>::empty() + piece + after);
        lemma_shows(Seq::<char>::empty(), piece, after);
    } else {
        let gap = style::spaced(f.line_gap);
        let half = gap.product(Scalar { bits: HALF_BITS });
        let path = markup::tile_path(f.style, gap, half);
        lemma_tile_path(f);
        let after = "\" fill=\"none\""@.skip(1) + markup::color_attr("stroke"@, f.color)
            + " stroke-width=\""@ + f.pen().fixed(2) + "\"/>"@;
        assert(m =~= seq!['<', 'p', 'a', 't', 'h', ' '] + attribute("d"@, path) + after);
        lemma_shows(seq!['<', 'p', 'a', 't', 'h', ' '], piece, after);
    }
}

proof fn lemma_tile_path(f: SketchFill)
    requires
        f.style != SketchFillStyle::Dots,
    ensures
        ({
            let gap = style::spaced(f.line_gap);
            let half = gap.product(Scalar { bits: HALF_BITS });
            tile_piece(f) == attribute("d"@, markup::tile_path(f.style, gap, half))
        }),
{
    reveal_strlit("M 0 ");
    reveal_strlit(" H ");
    reveal_strlit(" M ");
    reveal_strlit(" 0 V ");
    reveal_strlit(" L ");
    reveal_strlit(" 0 L ");
    reveal_strlit(" ");
    let gap = style::spaced(f.line_gap);
    let half = gap.product(Scalar { bits: HALF_BITS });
    let (g, h) = (gap.fixed(2), half.fixed(2));
    let across = seq!['M', ' ', '0', ' '] + h + seq![' ', 'H', ' '] + g;
    let down = seq!['M', ' '] + h + seq![' ', '0', ' ', 'V', ' '] + g;
    let swing = seq!['M', ' ', '0', ' '] + h + seq![' ', 'L', ' '] + h + seq![
        ' ',
        '0',
        ' ',
        'L',
        ' ',
    ] + g + seq![' '] + h;
    let path = markup::tile_path(f.style, gap, half);
    match f.style {
        SketchFillStyle::CrossHatch => {
            assert(across + seq![' '] + down =~= path);
        },
        SketchFillStyle::Zigzag => {
            assert(swing =~= path);
        },
        _ => {
            assert(across =~= path);
        },
    }
}

/// A stop tells where it is and its color; what is translucent tells how much.
pub proof fn law_stops_tell_their_color(s: &GradientStop, r: String)
    requires
        call_ensures(markup::stop_svg, (s,), r),
    ensures
        shows(
            r@,
            attribute("offset"@, s.offset.fixed(3)) + seq![' '] + attribute(
                "stop-color"@,
                s.color.hex6(),
            ),
        ),
        s.color.a != 255 ==> shows(r@, attribute("stop-opacity"@, markup::alpha(s.color).fixed(3))),
{
    reveal_strlit("offset");
    reveal_strlit("stop-color");
    reveal_strlit("stop-opacity");
    reveal_strlit("<stop offset=\"");
    reveal_strlit("\" stop-color=\"");
    reveal_strlit("\"");
    reveal_strlit(" stop-opacity=\"");
    let piece = attribute("offset"@, s.offset.fixed(3)) + seq![' '] + attribute(
        "stop-color"@,
        s.color.hex6(),
    );
    let lead = seq!['<', 's', 't', 'o', 'p', ' '];
    let after = r@.skip((lead.len() + piece.len()) as int);
    assert(r@ =~= lead + piece + after);
    lemma_shows(lead, piece, after);
    if s.color.a != 255 {
        let more = attribute("stop-opacity"@, markup::alpha(s.color).fixed(3));
        assert(r@ =~= (lead + piece + seq![' ']) + more + " />"@);
        lemma_shows(lead + piece + seq![' '], more, " />"@);
    }
}

/// A line runs from its start to its end.
pub proof fn law_lines_run_from_start_to_end(start: Point, end: Point, r: String)
    requires
        call_ensures(shapes::line_open, (start, end), r),
    ensures
        shows(
            r@,
            "<line"@ + seq![' '] + attribute("x1"@, start.x.fixed(2)) + seq![' '] + attribute(
                "y1"@,
                start.y.fixed(2),
            ) + seq![' '] + attribute("x2"@, end.x.fixed(2)) + seq![' '] + attribute(
                "y2"@,
                end.y.fixed(2),
            ),
        ),
{
    reveal_strlit("<line");
    reveal_strlit("x1");
    reveal_strlit("y1");
    reveal_strlit("x2");
    reveal_strlit("y2");
    reveal_strlit("<line x1=\"");
    reveal_strlit("\" y1=\"");
    reveal_strlit("\" x2=\"");
    reveal_strlit("\" y2=\"");
    reveal_strlit("\" ");
    let piece = "<line"@ + seq![' '] + attribute("x1"@, start.x.fixed(2)) + seq![' '] + attribute(
        "y1"@,
        start.y.fixed(2),
    ) + seq![' '] + attribute("x2"@, end.x.fixed(2)) + seq![' '] + attribute("y2"@, end.y.fixed(2));
    assert(r@ =~= Seq::<char>::empty() + piece + seq![' ']);
    lemma_shows(Seq::<char>::empty(), piece, seq![' ']);
}

/// An ellipse lies about its center, turned about it.
pub proof fn law_ellipses_lie_about_their_center(
    center: Point,
    radii: Vec2,
    rotation: Scalar,
    r: String,
)
    requires
        call_ensures(shapes::ellipse_open, (center, radii, rotation), r),
    ensures
        shows(
            r@,
            "<ellipse"@ + seq![' '] + attribute("cx"@, center.x.fixed(2)) + seq![' '] + attribute(
                "cy"@,
                center.y.fixed(2),
            ) + seq![' '] + attribute("rx"@, radii.x.fixed(2)) + seq![' '] + attribute(
                "ry"@,
                radii.y.fixed(2),
            ),
        ),
        rotation.units() != 0 ==> shows(r@, markup::rotation(rotation, center)),
{
    reveal_strlit("<ellipse");
    reveal_strlit("cx");
    reveal_strlit("cy");
    reveal_strlit("rx");
    reveal_strlit("ry");
    reveal_strlit("<ellipse cx=\"");
    reveal_strlit("\" cy=\"");
    reveal_strlit("\" rx=\"");
    reveal_strlit("\" ry=\"");
    reveal_strlit("\" ");
    let piece = "<ellipse"@ + seq![' '] + attribute("cx"@, center.x.fixed(2)) + seq![' ']
        + attribute("cy"@, center.y.fixed(2)) + seq![' '] + attribute("rx"@, radii.x.fixed(2)) + seq![
        ' ',
    ] + attribute("ry"@, radii.y.fixed(2));
    let head = shapes::ellipse_frame_head(center, radii);
    assert(head =~= piece + seq![' ']);
    let after = r@.skip(piece.len() as int);
    assert(r@ =~= Seq::<char>::empty() + piece + after);
    lemma_shows(Seq::<char>::empty(), piece, after);
    scalar::lemma_zero(Scalar { bits: 0 });
    if rotation.units() != 0 {
        let turn = markup::rotation(rotation, center);
        assert(r@ =~= head + turn + " "@);
        lemma_shows(head, turn, " "@);
    }
}

/// A circle lies about its center.
pub proof fn law_circles_lie_about_their_center(center: Point, radius: Scalar, r: String)
    requires
        call_ensures(shapes::circle_open, (center, radius), r),
    ensures
        shows(
            r@,
            "<circle"@ + seq![' '] + attribute("cx"@, center.x.fixed(2)) + seq![' '] + attribute(
                "cy"@,
                center.y.fixed(2),
            ) + seq![' '] + attribute("r"@, radius.fixed(2)),
        ),
{
    reveal_strlit("<circle");
    reveal_strlit("cx");
    reveal_strlit("cy");
    reveal_strlit("r");
    reveal_strlit("<circle cx=\"");
    reveal_strlit("\" cy=\"");
    reveal_strlit("\" r=\"");
    reveal_strlit("\" ");
    let piece = "<circle"@ + seq![' '] + attribute("cx"@, center.x.fixed(2)) + seq![' ']
        + attribute("cy"@, center.y.fixed(2)) + seq![' '] + attribute("r"@, radius.fixed(2));
    assert(r@ =~= Seq::<char>::empty() + piece + seq![' ']);
    lemma_shows(Seq::<char>::empty(), piece, seq![' ']);
}

/// Where the first line of a text stands: its baseline is below the top of the block, and the
/// block is moved up from the position by the way to its anchor.
pub proof fn law_texts_stand_on_their_baseline(
    spans: &Vec<RichSpan>,
    position: Point,
    style: &TextStyle,
    metrics: Option<TextMetrics>,
    r: String,
) -> (y: Scalar)
    requires
        call_ensures(spans::text_svg, (spans, position, style, metrics), r),
        spans::block_top(position, *style, metrics).sum(
            spans::block_anchor(*style, metrics).1,
        ).finite(),
    ensures
        shows(r@, attribute("x"@, position.x.fixed(2)) + seq![' '] + attribute("y"@, y.fixed(2))),
        ({
            let (anchor, first) = spans::block_anchor(*style, metrics);
            let (p, a, b) = (position.y.units(), anchor.units(), first.units());
            abs(y.units() - (p - a + b)) * PARTS <= 3 * (abs(p) + abs(a) + abs(b))
        }),
{
    let (anchor, first) = spans::block_anchor(*style, metrics);
    let top = spans::block_top(position, *style, metrics);
    let y = top.sum(first);
    lemma_up_and_down(position.y, anchor, first);
    lemma_head(position, *style, metrics);
    let piece = attribute("x"@, position.x.fixed(2)) + seq![' '] + attribute("y"@, y.fixed(2));
    let head = spans::text_head(position, *style, metrics);
    let rear = spans::background_markup(spans@, position, *style, metrics);
    let rest = markup::color_attr("fill"@, style.color) + spans::text_options(position, *style)
        + ">"@ + spans::text_body(spans@, position, *style, metrics) + "</text>\n"@;
    assert(r@ =~= rear + head + rest);
    lemma_shows_in(rear, head, rest, piece);
    y
}

proof fn lemma_up_and_down(p: Scalar, a: Scalar, b: Scalar)
    requires
        p.difference(a).sum(b).finite(),
    ensures
        abs(p.difference(a).sum(b).units() - (p.units() - a.units() + b.units())) * PARTS <= 3 * (
        abs(p.units()) + abs(a.units()) + abs(b.units())),
{
    let back = a.negated();
    assert(back.magnitude() == a.magnitude() && back.units() == -a.units());
    accuracy::law_sum_error(p.difference(a), b);
    accuracy::law_sum_error(p, back);
}

proof fn lemma_head(position: Point, style: TextStyle, metrics: Option<TextMetrics>)
    ensures
        ({
            let y = spans::block_top(position, style, metrics).sum(
                spans::block_anchor(style, metrics).1,
            );
            shows(
                spans::text_head(position, style, metrics),
                attribute("x"@, position.x.fixed(2)) + seq![' '] + attribute("y"@, y.fixed(2)),
            )
        }),
{
    let y = spans::block_top(position, style, metrics).sum(spans::block_anchor(style, metrics).1);
    reveal_strlit("x");
    reveal_strlit("y");
    reveal_strlit("<text x=\"");
    reveal_strlit("\" y=\"");
    reveal_strlit("\" text-anchor=\"");
    let piece = attribute("x"@, position.x.fixed(2)) + seq![' '] + attribute("y"@, y.fixed(2));
    let head = spans::text_head(position, style, metrics);
    let before = seq!['<', 't', 'e', 'x', 't', ' '];
    let n = before.len() + piece.len();
    assert(head.take(n as int) =~= before + piece);
    let after = head.skip(n as int);
    assert(head =~= before + piece + after);
    lemma_shows(before, piece, after);
}

} // verus!
