//! Fragments of SVG markup.

use vstd::prelude::*;
use crate::chars;
use crate::digits;
use crate::geometry::{Color, Point, BYTE_BITS, HALF_BITS};
use crate::scalar::Scalar;
use crate::style;
use crate::style::{
    FillView, GradientStop, LineCap, LineJoin, SketchFill, SketchFillStyle, Stroke, StrokeView,
};

verus! {

/// The bit pattern of the number of degrees in a radian.
pub const DEGREES_BITS: u64 = 0x404c_a5dc_1a63_c1f8;

/// The string of a literal.
pub fn text(s: &str) -> (r: String)
    ensures
        r@ == s@,
{
    let mut r = String::new();
    r.append(s);
    assert(r@ =~= s@);
    r
}

/// The opacity of a color.
pub open spec fn alpha(c: Color) -> Scalar {
    Scalar::integer(c.a as nat).quotient(Scalar { bits: BYTE_BITS })
}

/// A color attribute; a translucent color has its opacity in an attribute of its own.
pub open spec fn color_attr(prefix: Seq<char>, c: Color) -> Seq<char> {
    let solid = " "@ + prefix + "=\""@ + c.hex6() + "\""@;
    if c.a == 255 {
        solid
    } else {
        solid + " "@ + prefix + "-opacity=\""@ + alpha(c).fixed(3) + "\""@
    }
}

/// A color attribute, with ` prefix-opacity` where the color is translucent.
pub fn color_attr_str(prefix: &str, c: Color) -> (s: String)
    ensures
        s@ == color_attr(prefix@, c),
{
    let mut s = text(" ");
    s.append(prefix);
    s.append("=\"");
    c.push_hex6(&mut s);
    s.append("\"");
    if c.a != 255 {
        let alpha = Scalar::from_u64(c.a as u64).div(Scalar { bits: BYTE_BITS });
        s.append(" ");
        s.append(prefix);
        s.append("-opacity=\"");
        alpha.push_fixed(&mut s, 3);
        s.append("\"");
    }
    s
}

/// The keyword of an underline and a strikethrough.
pub open spec fn decoration(underline: bool, strikethrough: bool) -> Seq<char> {
    if underline && strikethrough {
        "underline line-through"@
    } else if underline {
        "underline"@
    } else if strikethrough {
        "line-through"@
    } else {
        "none"@
    }
}

/// The `text-decoration` keyword of an underline and a strikethrough.
pub fn deco_keyword(underline: bool, strikethrough: bool) -> (s: &'static str)
    ensures
        s@ == decoration(underline, strikethrough),
{
    if underline {
        if strikethrough {
            "underline line-through"
        } else {
            "underline"
        }
    } else if strikethrough {
        "line-through"
    } else {
        "none"
    }
}

/// A gradient stop; a translucent one has its opacity in an attribute of its own.
pub open spec fn stop_markup(s: GradientStop) -> Seq<char> {
    let head = "<stop offset=\""@ + s.offset.fixed(3) + "\" stop-color=\""@ + s.color.hex6()
        + "\""@;
    let opacity = if s.color.a == 255 {
        Seq::empty()
    } else {
        " stop-opacity=\""@ + alpha(s.color).fixed(3) + "\""@
    };
    head + opacity + " />"@
}

/// A gradient stop.
pub fn stop_svg(s: &GradientStop) -> (r: String)
    ensures
        r@ == stop_markup(*s),
{
    let mut r = text("<stop offset=\"");
    s.offset.push_fixed(&mut r, 3);
    r.append("\" stop-color=\"");
    s.color.push_hex6(&mut r);
    r.append("\"");
    let ghost head = r@;
    if s.color.a != 255 {
        let alpha = Scalar::from_u64(s.color.a as u64).div(Scalar { bits: BYTE_BITS });
        let mut opacity = text(" stop-opacity=\"");
        alpha.push_fixed(&mut opacity, 3);
        opacity.append("\"");
        r.append(opacity.as_str());
    } else {
        assert(head + Seq::<char>::empty() =~= head);
    }
    r.append(" />");
    r
}

/// The stops of a gradient.
pub open spec fn stops_markup(stops: Seq<GradientStop>) -> Seq<char> {
    chars::flatten(Seq::new(stops.len(), |i: int| stop_markup(stops[i])))
}

/// The stops of a gradient.
pub fn stops_svg(stops: &Vec<GradientStop>) -> (r: String)
    ensures
        r@ == stops_markup(stops@),
{
    let mut r = String::new();
    let ghost all = Seq::new(stops@.len(), |i: int| stop_markup(stops@[i]));
    let mut i: usize = 0;
    assert(r@ =~= chars::flatten(all.take(0)));
    while i < stops.len()
        invariant
            i <= stops@.len(),
            all == Seq::new(stops@.len(), |i: int| stop_markup(stops@[i])),
            r@ == chars::flatten(all.take(i as int)),
        decreases stops.len() - i,
    {
        assert(all.take(i + 1).drop_last() =~= all.take(i as int));
        r.append(stop_svg(&stops[i]).as_str());
        i += 1;
    }
    assert(all.take(all.len() as int) =~= all);
    r
}

/// The definition of a linear gradient.
pub open spec fn linear_defs(
    id: nat,
    start: Point,
    end: Point,
    stops: Seq<GradientStop>,
) -> Seq<char> {
    "<defs><linearGradient id=\"grad"@ + digits::decimal(id)
        + "\" gradientUnits=\"userSpaceOnUse\" x1=\""@ + start.x.fixed(2) + "\" y1=\""@
        + start.y.fixed(2) + "\" x2=\""@ + end.x.fixed(2) + "\" y2=\""@ + end.y.fixed(2) + "\">"@
        + stops_markup(stops) + "</linearGradient></defs>"@
}

/// The definition of a radial gradient.
pub open spec fn radial_defs(
    id: nat,
    center: Point,
    radius: Scalar,
    stops: Seq<GradientStop>,
) -> Seq<char> {
    "<defs><radialGradient id=\"grad"@ + digits::decimal(id)
        + "\" gradientUnits=\"userSpaceOnUse\" cx=\""@ + center.x.fixed(2) + "\" cy=\""@
        + center.y.fixed(2) + "\" r=\""@ + radius.fixed(2) + "\">"@ + stops_markup(stops)
        + "</radialGradient></defs>"@
}

/// The definition of a linear gradient.
pub fn linear_svg(id: usize, start: Point, end: Point, stops: &Vec<GradientStop>) -> (d: String)
    ensures
        d@ == linear_defs(id as nat, start, end, stops@),
{
    let mut d = text("<defs><linearGradient id=\"grad");
    digits::push_decimal(&mut d, id as u128);
    d.append("\" gradientUnits=\"userSpaceOnUse\" x1=\"");
    start.x.push_fixed(&mut d, 2);
    d.append("\" y1=\"");
    start.y.push_fixed(&mut d, 2);
    d.append("\" x2=\"");
    end.x.push_fixed(&mut d, 2);
    d.append("\" y2=\"");
    end.y.push_fixed(&mut d, 2);
    d.append("\">");
    d.append(stops_svg(stops).as_str());
    d.append("</linearGradient></defs>");
    d
}

/// The definition of a radial gradient.
pub fn radial_svg(
    id: usize,
    center: Point,
    radius: Scalar,
    stops: &Vec<GradientStop>,
) -> (d: String)
    ensures
        d@ == radial_defs(id as nat, center, radius, stops@),
{
    let mut d = text("<defs><radialGradient id=\"grad");
    digits::push_decimal(&mut d, id as u128);
    d.append("\" gradientUnits=\"userSpaceOnUse\" cx=\"");
    center.x.push_fixed(&mut d, 2);
    d.append("\" cy=\"");
    center.y.push_fixed(&mut d, 2);
    d.append("\" r=\"");
    radius.push_fixed(&mut d, 2);
    d.append("\">");
    d.append(stops_svg(stops).as_str());
    d.append("</radialGradient></defs>");
    d
}

/// The path of a tile: a line through its middle, crossed by another or swinging to its edges.
pub open spec fn tile_path(style: SketchFillStyle, gap: Scalar, half: Scalar) -> Seq<char> {
    match style {
        SketchFillStyle::CrossHatch => "M 0 "@ + half.fixed(2) + " H "@ + gap.fixed(2) + " M "@
            + half.fixed(2) + " 0 V "@ + gap.fixed(2),
        SketchFillStyle::Zigzag => "M 0 "@ + half.fixed(2) + " L "@ + half.fixed(2) + " 0 L "@
            + gap.fixed(2) + " "@ + half.fixed(2),
        _ => "M 0 "@ + half.fixed(2) + " H "@ + gap.fixed(2),
    }
}

/// What a tile holds: dots, or lines of the fill's width.
pub open spec fn tile_markup(f: SketchFill) -> Seq<char> {
    let gap = style::spaced(f.line_gap);
    let half = gap.product(Scalar { bits: HALF_BITS });
    if f.style == SketchFillStyle::Dots {
        "<circle cx=\""@ + half.fixed(2) + "\" cy=\""@ + half.fixed(2) + "\" r=\""@
            + f.pen().fixed(2) + "\""@ + color_attr("fill"@, f.color) + "/>"@
    } else {
        "<path d=\""@ + tile_path(f.style, gap, half) + "\" fill=\"none\""@ + color_attr(
            "stroke"@,
            f.color,
        ) + " stroke-width=\""@ + f.pen().fixed(2) + "\"/>"@
    }
}

/// The definition of a hand-drawn fill: a tile, anchored at the origin and turned.
pub open spec fn pattern_defs(id: nat, f: SketchFill) -> Seq<char> {
    "<defs><pattern id=\"grad"@ + digits::decimal(id)
        + "\" patternUnits=\"userSpaceOnUse\" width=\""@ + style::spaced(f.line_gap).fixed(2)
        + "\" height=\""@ + style::spaced(f.line_gap).fixed(2) + "\" patternTransform=\"rotate("@
        + f.angle.fixed(2) + ")\">"@ + tile_markup(f) + "</pattern></defs>"@
}

fn tile_path_svg(style: SketchFillStyle, gap: Scalar, half: Scalar) -> (d: String)
    ensures
        d@ == tile_path(style, gap, half),
{
    let mut d = text("M 0 ");
    half.push_fixed(&mut d, 2);
    match style {
        SketchFillStyle::CrossHatch => {
            d.append(" H ");
            gap.push_fixed(&mut d, 2);
            d.append(" M ");
            half.push_fixed(&mut d, 2);
            d.append(" 0 V ");
            gap.push_fixed(&mut d, 2);
        },
        SketchFillStyle::Zigzag => {
            d.append(" L ");
            half.push_fixed(&mut d, 2);
            d.append(" 0 L ");
            gap.push_fixed(&mut d, 2);
            d.append(" ");
            half.push_fixed(&mut d, 2);
        },
        _ => {
            d.append(" H ");
            gap.push_fixed(&mut d, 2);
        },
    }
    d
}

fn tile_svg(f: &SketchFill) -> (t: String)
    ensures
        t@ == tile_markup(*f),
{
    let gap = f.gap();
    let half = gap.mul(Scalar { bits: HALF_BITS });
    match f.style {
        SketchFillStyle::Dots => {
            let mut t = text("<circle cx=\"");
            half.push_fixed(&mut t, 2);
            t.append("\" cy=\"");
            half.push_fixed(&mut t, 2);
            t.append("\" r=\"");
            f.weight().push_fixed(&mut t, 2);
            t.append("\"");
            t.append(color_attr_str("fill", f.color).as_str());
            t.append("/>");
            t
        },
        _ => {
            let mut t = text("<path d=\"");
            t.append(tile_path_svg(f.style, gap, half).as_str());
            t.append("\" fill=\"none\"");
            t.append(color_attr_str("stroke", f.color).as_str());
            t.append(" stroke-width=\"");
            f.weight().push_fixed(&mut t, 2);
            t.append("\"/>");
            t
        },
    }
}

/// The definition of a hand-drawn fill.
pub fn pattern_svg(id: usize, f: &SketchFill) -> (d: String)
    ensures
        d@ == pattern_defs(id as nat, *f),
{
    let mut d = text("<defs><pattern id=\"grad");
    digits::push_decimal(&mut d, id as u128);
    d.append("\" patternUnits=\"userSpaceOnUse\" width=\"");
    f.gap().push_fixed(&mut d, 2);
    d.append("\" height=\"");
    f.gap().push_fixed(&mut d, 2);
    d.append("\" patternTransform=\"rotate(");
    f.angle.push_fixed(&mut d, 2);
    d.append(")\">");
    d.append(tile_svg(f).as_str());
    d.append("</pattern></defs>");
    d
}

/// What the fill puts before the shape.
pub open spec fn fill_defs(fill: Option<FillView>, id: nat) -> Seq<char> {
    match fill {
        Some(FillView::Linear { start, end, stops }) => linear_defs(id, start, end, stops),
        Some(FillView::Radial { center, radius, stops }) => radial_defs(id, center, radius, stops),
        Some(FillView::Sketch(f)) => pattern_defs(id, f),
        _ => Seq::empty(),
    }
}

/// The number of gradients and patterns that the fill defines.
pub open spec fn fill_gradients(fill: Option<FillView>) -> nat {
    match fill {
        None => 0,
        Some(FillView::Solid(_)) => 0,
        _ => 1,
    }
}

/// The fill attributes.
pub open spec fn fill_attr(fill: Option<FillView>, id: nat) -> Seq<char> {
    match fill {
        None => " fill=\"none\""@,
        Some(FillView::Solid(c)) => color_attr("fill"@, c),
        _ => " fill=\"url(#grad"@ + digits::decimal(id) + ")\""@,
    }
}

pub open spec fn cap_name(cap: LineCap) -> Seq<char> {
    match cap {
        LineCap::Butt => "butt"@,
        LineCap::Round => "round"@,
        LineCap::Square => "square"@,
    }
}

pub open spec fn join_name(join: LineJoin) -> Seq<char> {
    match join {
        LineJoin::Miter => "miter"@,
        LineJoin::Round => "round"@,
        LineJoin::Bevel => "bevel"@,
    }
}

/// The dash attributes; none for a solid line.
pub open spec fn dash_attr(s: StrokeView) -> Seq<char> {
    if s.dash_array.len() == 0 {
        Seq::empty()
    } else {
        let dashes = " stroke-dasharray=\""@ + numbers(s.dash_array) + "\""@;
        if s.dash_offset.same(Scalar { bits: 0 }) {
            dashes
        } else {
            dashes + " stroke-dashoffset=\""@ + s.dash_offset.fixed(2) + "\""@
        }
    }
}

/// Numbers separated by commas.
pub open spec fn numbers(v: Seq<Scalar>) -> Seq<char> {
    chars::join(Seq::new(v.len(), |i: int| v[i].fixed(2)), ","@)
}

fn push_numbers(out: &mut String, v: &Vec<Scalar>)
    ensures
        final(out)@ == old(out)@ + numbers(v@),
{
    let ghost all = Seq::new(v@.len(), |i: int| v@[i].fixed(2));
    let ghost start = out@;
    let mut i: usize = 0;
    assert(start =~= start + chars::join(all.take(0), ","@));
    while i < v.len()
        invariant
            i <= v@.len(),
            all == Seq::new(v@.len(), |i: int| v@[i].fixed(2)),
            out@ == start + chars::join(all.take(i as int), ","@),
        decreases v.len() - i,
    {
        let ghost before = all.take(i as int);
        assert(all.take(i + 1).drop_last() =~= before);
        if i > 0 {
            out.append(",");
        }
        v[i].push_fixed(out, 2);
        i += 1;
        assert(out@ =~= start + chars::join(all.take(i as int), ","@));
    }
    assert(all.take(all.len() as int) =~= all);
}

fn dash_svg(s: &Stroke) -> (dash: String)
    ensures
        dash@ == dash_attr(s@),
{
    if s.dash_array.len() == 0 {
        let dash = String::new();
        assert(dash@ =~= Seq::<char>::empty());
        return dash;
    }
    let mut dash = text(" stroke-dasharray=\"");
    push_numbers(&mut dash, &s.dash_array);
    dash.append("\"");
    if !s.dash_offset.same_value(Scalar { bits: 0 }) {
        dash.append(" stroke-dashoffset=\"");
        s.dash_offset.push_fixed(&mut dash, 2);
        dash.append("\"");
    }
    dash
}

/// The stroke attributes.
pub open spec fn stroke_attr(s: StrokeView) -> Seq<char> {
    let head = color_attr("stroke"@, s.color) + " stroke-width=\""@ + s.width.fixed(2)
        + "\" stroke-miterlimit=\""@ + s.miter_limit.fixed(2) + "\" stroke-linecap=\""@
        + cap_name(s.line_cap) + "\" stroke-linejoin=\""@ + join_name(s.line_join) + "\""@;
    head + dash_attr(s)
}

/// Nothing without a stroke.
pub open spec fn optional_stroke_attr(s: Option<StrokeView>) -> Seq<char> {
    match s {
        Some(s) => stroke_attr(s),
        None => Seq::empty(),
    }
}

/// The stroke attributes.
pub fn stroke_svg(s: &Stroke) -> (r: String)
    ensures
        r@ == stroke_attr(s@),
{
    let cap = match s.line_cap {
        LineCap::Butt => "butt",
        LineCap::Round => "round",
        LineCap::Square => "square",
    };
    let join = match s.line_join {
        LineJoin::Miter => "miter",
        LineJoin::Round => "round",
        LineJoin::Bevel => "bevel",
    };
    let mut r = color_attr_str("stroke", s.color);
    r.append(" stroke-width=\"");
    s.width.push_fixed(&mut r, 2);
    r.append("\" stroke-miterlimit=\"");
    s.miter_limit.push_fixed(&mut r, 2);
    r.append("\" stroke-linecap=\"");
    r.append(cap);
    r.append("\" stroke-linejoin=\"");
    r.append(join);
    r.append("\"");
    r.append(dash_svg(s).as_str());
    r
}

/// Points as `x,y` separated by spaces.
pub open spec fn point_list(points: Seq<Point>) -> Seq<char> {
    chars::join(
        Seq::new(points.len(), |i: int| points[i].x.fixed(2) + ","@ + points[i].y.fixed(2)),
        " "@,
    )
}

/// Points as `x,y` separated by spaces.
pub fn points_svg(points: &Vec<Point>) -> (r: String)
    ensures
        r@ == point_list(points@),
{
    let ghost all = Seq::new(
        points@.len(),
        |i: int| points@[i].x.fixed(2) + ","@ + points@[i].y.fixed(2),
    );
    let mut r = String::new();
    let mut i: usize = 0;
    assert(r@ =~= chars::join(all.take(0), " "@));
    while i < points.len()
        invariant
            i <= points@.len(),
            all == Seq::new(
                points@.len(),
                |i: int| points@[i].x.fixed(2) + ","@ + points@[i].y.fixed(2),
            ),
            r@ == chars::join(all.take(i as int), " "@),
        decreases points.len() - i,
    {
        assert(all.take(i + 1).drop_last() =~= all.take(i as int));
        let mut p = String::new();
        points[i].x.push_fixed(&mut p, 2);
        assert(p@ =~= points@[i as int].x.fixed(2));
        p.append(",");
        points[i].y.push_fixed(&mut p, 2);
        if i > 0 {
            r.append(" ");
        }
        let ghost before = r@;
        r.append(p.as_str());
        i += 1;
        assert(r@ =~= chars::join(all.take(i as int), " "@));
    }
    assert(all.take(all.len() as int) =~= all);
    r
}

/// A turn about a point, in degrees.
pub open spec fn rotation(angle: Scalar, about: Point) -> Seq<char> {
    "transform=\"rotate("@ + angle.product(Scalar { bits: DEGREES_BITS }).fixed(2) + " "@
        + about.x.fixed(2) + " "@ + about.y.fixed(2) + ")\""@
}

/// A turn about a point, in degrees.
pub fn rotation_svg(angle: Scalar, about: Point) -> (r: String)
    ensures
        r@ == rotation(angle, about),
{
    let mut r = text("transform=\"rotate(");
    angle.mul(Scalar { bits: DEGREES_BITS }).push_fixed(&mut r, 2);
    r.append(" ");
    about.x.push_fixed(&mut r, 2);
    r.append(" ");
    about.y.push_fixed(&mut r, 2);
    r.append(")\"");
    r
}

} // verus!
