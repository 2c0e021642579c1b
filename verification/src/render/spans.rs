//! SVG markup of text.

use vstd::prelude::*;
use crate::chars;
use crate::digits;
use crate::geometry::{Point, HALF_BITS, TWO_BITS};
use crate::render::encode;
use crate::render::markup;
use crate::scalar::Scalar;
use crate::text::family;
use crate::text::layout::TextMetrics;
use crate::text::style::{FontWidth, RichSpan, TextAlign, TextBaseline, TextStyle};

verus! {

/// The bit pattern of `100.0`.
pub const HUNDRED_BITS: u64 = 0x4059_0000_0000_0000;

/// The bit pattern of the distance from `1.0` to the next number.
pub const EPSILON_BITS: u64 = 0x3cb0_0000_0000_0000;

/// The bit pattern of `1.2`.
pub const LEADING_BITS: u64 = 0x3ff3_3333_3333_3333;

/// The bit pattern of `0.85`.
pub const ALPHABETIC_BITS: u64 = 0x3feb_3333_3333_3333;

/// The bit pattern of `0.75`.
pub const HANGING_BITS: u64 = 0x3fe8_0000_0000_0000;

/// The bit pattern of `0.9`.
pub const IDEOGRAPHIC_BITS: u64 = 0x3fec_cccc_cccc_cccd;

/// The bit pattern of `1.3`.
pub const BLOCK_BITS: u64 = 0x3ff4_cccc_cccc_cccd;

/// The bit pattern of `0.6`.
pub const ADVANCE_BITS: u64 = 0x3fe3_3333_3333_3333;

/// The attribute, where it is needed.
pub open spec fn given(needed: bool, attr: Seq<char>) -> Seq<char> {
    if needed {
        attr
    } else {
        Seq::empty()
    }
}

/// An attribute, from its opening quote to its closing one.
pub open spec fn attr(lead: Seq<char>, value: Seq<char>) -> Seq<char> {
    lead + value + "\""@
}

fn attr_text(lead: &str, value: &str) -> (r: String)
    ensures
        r@ == attr(lead@, value@),
{
    let mut r = markup::text(lead);
    r.append(value);
    r.append("\"");
    r
}

fn number_text(lead: &str, v: Scalar, d: usize) -> (r: String)
    requires
        d <= 6,
    ensures
        r@ == attr(lead@, v.fixed(d as nat)),
{
    attr_text(lead, v.to_fixed(d).as_str())
}

fn push_given(out: &mut String, needed: bool, attr: &str)
    ensures
        final(out)@ == old(out)@ + given(needed, attr@),
{
    if needed {
        out.append(attr);
    }
    proof {
        assert(final(out)@ =~= old(out)@ + given(needed, attr@));
    }
}

/// The number of percent of the normal width.
pub open spec fn stretch(w: FontWidth) -> Scalar {
    Scalar { bits: w.ratio_bits() }.product(Scalar { bits: HUNDRED_BITS })
}

/// The font sizes differ.
pub open spec fn resized(a: Scalar, b: Scalar) -> bool {
    Scalar { bits: EPSILON_BITS }.less(a.difference(b).absolute())
}

/// The font-stretch value of a width.
pub open spec fn stretch_value(w: FontWidth) -> Seq<char> {
    stretch(w).fixed(0) + "%"@
}

fn stretch_text(w: FontWidth) -> (r: String)
    ensures
        r@ == stretch_value(w),
{
    let mut r = w.ratio().mul(Scalar { bits: HUNDRED_BITS }).to_fixed(0);
    r.append("%");
    r
}

/// The attributes in which a span differs from its block.
pub open spec fn span_attrs(span: TextStyle, base: TextStyle) -> Seq<char> {
    given(
        span.font_family@ != base.font_family@,
        attr(
            " font-family=\""@,
            encode::escaped(family::family_css(span.font_family@), true),
        ),
    ) + given(
        resized(span.font_size, base.font_size),
        attr(" font-size=\""@, span.font_size.fixed(2)),
    ) + given(span.color != base.color, markup::color_attr("fill"@, span.color)) + given(
        span.font_weight != base.font_weight,
        attr(" font-weight=\""@, digits::decimal(span.font_weight.number())),
    ) + given(
        span.font_style != base.font_style,
        attr(" font-style=\""@, span.font_style.name()),
    ) + given(
        span.font_width != base.font_width,
        attr(" font-stretch=\""@, stretch_value(span.font_width)),
    ) + given(
        !span.letter_spacing.same(base.letter_spacing),
        attr(" letter-spacing=\""@, span.letter_spacing.fixed(2)),
    ) + given(
        span.underline != base.underline || span.strikethrough != base.strikethrough,
        attr(" text-decoration=\""@, markup::decoration(span.underline, span.strikethrough)),
    )
}

fn weight_text(n: u64) -> (r: String)
    ensures
        r@ == digits::decimal(n as nat),
{
    let mut r = String::new();
    digits::push_decimal(&mut r, n as u128);
    assert(r@ =~= digits::decimal(n as nat));
    r
}

fn is_resized(a: Scalar, b: Scalar) -> (r: bool)
    ensures
        r == resized(a, b),
{
    (Scalar { bits: EPSILON_BITS }).lt(a.sub(b).abs())
}

/// The attributes in which a span differs from its block.
pub fn rich_span_attrs(span: &TextStyle, base: &TextStyle) -> (attrs: String)
    ensures
        attrs@ == span_attrs(*span, *base),
{
    let mut attrs = String::new();
    let renamed = !chars::same_text(span.font_family.as_str(), base.font_family.as_str());
    if renamed {
        let css = encode::escape_attr(span.font_family_css().as_str());
        attrs = attr_text(" font-family=\"", css.as_str());
    }
    assert(attrs@ =~= given(
        renamed,
        attr(
            " font-family=\""@,
            encode::escaped(family::family_css(span.font_family@), true),
        ),
    ));
    let size = number_text(" font-size=\"", span.font_size, 2);
    push_given(&mut attrs, is_resized(span.font_size, base.font_size), size.as_str());
    let color = markup::color_attr_str("fill", span.color);
    push_given(&mut attrs, span.color != base.color, color.as_str());
    let weight = attr_text(" font-weight=\"", weight_text(span.font_weight.value()).as_str());
    push_given(&mut attrs, span.font_weight != base.font_weight, weight.as_str());
    let slant = attr_text(" font-style=\"", span.font_style.as_str());
    push_given(&mut attrs, span.font_style != base.font_style, slant.as_str());
    let width = attr_text(" font-stretch=\"", stretch_text(span.font_width).as_str());
    push_given(&mut attrs, span.font_width != base.font_width, width.as_str());
    let spacing = number_text(" letter-spacing=\"", span.letter_spacing, 2);
    push_given(
        &mut attrs,
        !span.letter_spacing.same_value(base.letter_spacing),
        spacing.as_str(),
    );
    let decoration = attr_text(
        " text-decoration=\"",
        markup::deco_keyword(span.underline, span.strikethrough),
    );
    push_given(
        &mut attrs,
        span.underline != base.underline || span.strikethrough != base.strikethrough,
        decoration.as_str(),
    );
    attrs
}

/// A piece of a span, inside one line.
pub open spec fn fragment(piece: Seq<char>, span: TextStyle, base: TextStyle) -> Seq<char> {
    "<tspan"@ + span_attrs(span, base) + ">"@ + encode::escaped(piece, false) + "</tspan>"@
}

/// Opens a line.
pub open spec fn line_open(x: Scalar, dy: Scalar) -> Seq<char> {
    "<tspan x=\""@ + x.fixed(2) + "\" dy=\""@ + dy.fixed(2) + "\">"@
}

fn push_line_open(out: &mut String, x: Scalar, dy: Scalar)
    ensures
        final(out)@ == old(out)@ + line_open(x, dy),
{
    let mut line = markup::text("<tspan x=\"");
    x.push_fixed(&mut line, 2);
    line.append("\" dy=\"");
    dy.push_fixed(&mut line, 2);
    line.append("\">");
    out.append(line.as_str());
}

/// The content of a line: whether it is blank, and its fragments.
pub open spec fn piece_line(piece: Seq<char>, span: TextStyle, base: TextStyle) -> (
    bool,
    Seq<char>,
) {
    (piece.len() == 0, fragment(piece, span, base))
}

/// The pieces of a span, each on a line of its own.
pub open spec fn span_lines(span: RichSpan, base: TextStyle) -> Seq<(bool, Seq<char>)> {
    let pieces = chars::split(span.text@, '\n');
    Seq::new(pieces.len(), |i: int| piece_line(pieces[i], span.style, base))
}

/// The lines of the first `n` spans: each span goes on in the last line of those before it.
pub open spec fn text_lines(spans: Seq<RichSpan>, base: TextStyle, n: nat) -> Seq<
    (bool, Seq<char>),
>
    decreases n,
{
    if n == 0 || n > spans.len() {
        seq![(true, Seq::empty())]
    } else {
        continued(text_lines(spans, base, (n - 1) as nat), span_lines(spans[n - 1], base))
    }
}

/// The lines with others after them, the first of which goes on in the last line.
pub open spec fn continued(
    lines: Seq<(bool, Seq<char>)>,
    more: Seq<(bool, Seq<char>)>,
) -> Seq<(bool, Seq<char>)> {
    lines.drop_last().push(
        (lines.last().0 && more[0].0, lines.last().1 + more[0].1),
    ) + more.skip(1)
}

/// The lines without blank ones at the end; the first line stays.
pub open spec fn shown_lines(lines: Seq<(bool, Seq<char>)>) -> Seq<(bool, Seq<char>)>
    decreases lines.len(),
{
    if lines.len() > 1 && lines.last().0 {
        shown_lines(lines.drop_last())
    } else {
        lines
    }
}

/// A line; a blank one holds a space without width, so that it keeps its height.
pub open spec fn line_markup(line: (bool, Seq<char>), x: Scalar, dy: Scalar) -> Seq<char> {
    line_open(x, dy) + (if line.0 {
        "&#8203;"@
    } else {
        line.1
    }) + "</tspan>"@
}

/// The lines, each below the one before.
pub open spec fn lines_markup(
    lines: Seq<(bool, Seq<char>)>,
    x: Scalar,
    leading: Scalar,
) -> Seq<char> {
    chars::flatten(
        Seq::new(
            lines.len(),
            |i: int|
                line_markup(
                    lines[i],
                    x,
                    if i == 0 {
                        Scalar { bits: 0 }
                    } else {
                        leading
                    },
                ),
        ),
    )
}

/// The distance between lines: that of the style, that of the layout, or 1.2 times the size.
pub open spec fn leading(base: TextStyle, metrics: Option<TextMetrics>) -> Scalar {
    match base.line_height {
        Some(h) => h,
        None => match metrics {
            Some(m) if Scalar { bits: 0 }.less(m.line_height) => m.line_height,
            _ => base.font_size.product(Scalar { bits: LEADING_BITS }),
        },
    }
}

/// All text of the spans.
pub open spec fn content(spans: Seq<RichSpan>) -> Seq<char> {
    chars::flatten(Seq::new(spans.len(), |i: int| spans[i].text@))
}

/// The lines of the spans; nothing without text.
pub open spec fn spans_markup(
    spans: Seq<RichSpan>,
    x: Scalar,
    base: TextStyle,
    metrics: Option<TextMetrics>,
) -> Seq<char> {
    if content(spans).len() == 0 {
        Seq::empty()
    } else {
        lines_markup(
            shown_lines(text_lines(spans, base, spans.len())),
            x,
            leading(base, metrics),
        )
    }
}

/// All text of the spans.
pub fn plain_text(spans: &Vec<RichSpan>) -> (r: String)
    ensures
        r@ == content(spans@),
{
    let ghost all = Seq::new(spans@.len(), |i: int| spans@[i].text@);
    let mut r = String::new();
    let mut i: usize = 0;
    assert(r@ =~= chars::flatten(all.take(0)));
    while i < spans.len()
        invariant
            i <= spans@.len(),
            all == Seq::new(spans@.len(), |i: int| spans@[i].text@),
            r@ == chars::flatten(all.take(i as int)),
        decreases spans.len() - i,
    {
        assert(all.take(i + 1).drop_last() =~= all.take(i as int));
        r.append(spans[i].text.as_str());
        i += 1;
    }
    assert(all.take(all.len() as int) =~= all);
    r
}

/// The values of lines.
spec fn line_views(v: Seq<(bool, String)>) -> Seq<(bool, Seq<char>)> {
    Seq::new(v.len(), |i: int| (v[i].0, v[i].1@))
}

fn fragment_svg(piece: &Vec<char>, attrs: &String, span: &TextStyle, base: &TextStyle) -> (f:
    String)
    requires
        attrs@ == span_attrs(*span, *base),
    ensures
        f@ == fragment(piece@, *span, *base),
{
    let mut f = markup::text("<tspan");
    f.append(attrs.as_str());
    f.append(">");
    f.append(encode::escape_text(chars::to_text(piece).as_str()).as_str());
    f.append("</tspan>");
    f
}

/// Adds the lines of a span.
fn push_span(lines: &mut Vec<(bool, String)>, span: &RichSpan, base: &TextStyle)
    requires
        old(lines)@.len() > 0,
    ensures
        line_views(final(lines)@) == continued(line_views(old(lines)@), span_lines(*span, *base)),
        final(lines)@.len() > 0,
{
    let attrs = rich_span_attrs(&span.style, base);
    let pieces = chars::split_chars(&chars::to_chars(span.text.as_str()), '\n');
    let ghost all = span_lines(*span, *base);
    let ghost before = line_views(lines@);
    proof {
        chars::lemma_split_nonempty(span.text@, '\n');
        assert(all.len() == pieces@.len());
        assert(chars::views(pieces@)[0] == pieces@[0]@);
    }
    let first = fragment_svg(&pieces[0], &attrs, &span.style, base);
    match lines.pop() {
        Some((blank, mut body)) => {
            body.append(first.as_str());
            lines.push((blank && pieces[0].len() == 0, body));
        },
        None => {},
    }
    assert(line_views(lines@) =~= continued(before, all.take(1)));
    let mut i: usize = 1;
    while i < pieces.len()
        invariant
            1 <= i <= pieces@.len(),
            attrs@ == span_attrs(span.style, *base),
            all == span_lines(*span, *base),
            all.len() == pieces@.len(),
            chars::views(pieces@) == chars::split(span.text@, '\n'),
            before.len() > 0,
            lines@.len() > 0,
            line_views(lines@) == continued(before, all.take(i as int)),
        decreases pieces.len() - i,
    {
        assert(pieces@[i as int]@ == chars::views(pieces@)[i as int]);
        let ghost prior = line_views(lines@);
        let f = fragment_svg(&pieces[i], &attrs, &span.style, base);
        let blank = pieces[i].len() == 0;
        assert((blank, f@) == all[i as int]);
        lines.push((blank, f));
        assert(line_views(lines@) =~= prior.push(all[i as int]));
        i += 1;
        assert(line_views(lines@) =~= continued(before, all.take(i as int)));
    }
    assert(all.take(all.len() as int) =~= all);
}

/// Removes blank lines at the end.
fn drop_blank_lines(lines: &mut Vec<(bool, String)>)
    ensures
        line_views(final(lines)@) == shown_lines(line_views(old(lines)@)),
{
    let ghost goal = shown_lines(line_views(lines@));
    while lines.len() > 1 && lines[lines.len() - 1].0
        invariant
            goal == shown_lines(line_views(lines@)),
        decreases lines.len(),
    {
        let ghost prior = line_views(lines@);
        let _ = lines.pop();
        assert(line_views(lines@) =~= prior.drop_last());
    }
}

/// Writes lines, each below the one before.
fn lines_svg(lines: &Vec<(bool, String)>, x: Scalar, leading: Scalar) -> (out: String)
    ensures
        out@ == lines_markup(line_views(lines@), x, leading),
{
    let ghost views = line_views(lines@);
    let ghost all = Seq::new(
        views.len(),
        |i: int|
            line_markup(
                views[i],
                x,
                if i == 0 {
                    Scalar { bits: 0 }
                } else {
                    leading
                },
            ),
    );
    let mut out = String::new();
    let mut i: usize = 0;
    assert(out@ =~= chars::flatten(all.take(0)));
    while i < lines.len()
        invariant
            i <= lines@.len(),
            views == line_views(lines@),
            all == Seq::new(
                views.len(),
                |i: int|
                    line_markup(
                        views[i],
                        x,
                        if i == 0 {
                            Scalar { bits: 0 }
                        } else {
                            leading
                        },
                    ),
            ),
            out@ == chars::flatten(all.take(i as int)),
        decreases lines.len() - i,
    {
        assert(all.take(i + 1).drop_last() =~= all.take(i as int));
        let ghost before = out@;
        let dy = if i == 0 {
            Scalar { bits: 0 }
        } else {
            leading
        };
        push_line_open(&mut out, x, dy);
        if lines[i].0 {
            out.append("&#8203;");
        } else {
            out.append(lines[i].1.as_str());
        }
        out.append("</tspan>");
        assert(out@ =~= before + all[i as int]);
        i += 1;
    }
    assert(all.take(all.len() as int) =~= all);
    out
}

/// The lines of the spans, each piece in an element with the attributes of its own.
///
/// Line breaks at the end of the text add no lines, and a blank line keeps its height.
pub fn rich_text_tspans(
    spans: &Vec<RichSpan>,
    x: Scalar,
    base: &TextStyle,
    metrics: Option<TextMetrics>,
) -> (out: String)
    ensures
        out@ == spans_markup(spans@, x, *base, metrics),
{
    if chars::to_chars(plain_text(spans).as_str()).len() == 0 {
        let out = String::new();
        assert(out@ =~= Seq::<char>::empty());
        return out;
    }
    let leading = match base.line_height {
        Some(h) => h,
        None => match metrics {
            Some(m) => if (Scalar { bits: 0 }).lt(m.line_height) {
                m.line_height
            } else {
                base.font_size.mul(Scalar { bits: LEADING_BITS })
            },
            None => base.font_size.mul(Scalar { bits: LEADING_BITS }),
        },
    };
    let mut lines: Vec<(bool, String)> = Vec::new();
    lines.push((true, String::new()));
    let mut i: usize = 0;
    assert(line_views(lines@) =~= text_lines(spans@, *base, 0));
    while i < spans.len()
        invariant
            i <= spans@.len(),
            lines@.len() > 0,
            line_views(lines@) == text_lines(spans@, *base, i as nat),
        decreases spans.len() - i,
    {
        push_span(&mut lines, &spans[i], base);
        i += 1;
    }
    drop_blank_lines(&mut lines);
    lines_svg(&lines, x, leading)
}

/// The distance from the top of the block to the anchor, and to the first baseline.
///
/// Without a layout it is estimated from the font size.
pub open spec fn block_anchor(style: TextStyle, metrics: Option<TextMetrics>) -> (Scalar, Scalar) {
    match metrics {
        Some(m) => (style.baseline.anchor(m), m.alphabetic_baseline),
        None => {
            let size = style.font_size;
            let alphabetic = size.product(Scalar { bits: ALPHABETIC_BITS });
            (
                match style.baseline {
                    TextBaseline::Top => Scalar { bits: 0 },
                    TextBaseline::Hanging => size.product(Scalar { bits: HANGING_BITS }),
                    TextBaseline::Middle => size.product(Scalar { bits: HALF_BITS }),
                    TextBaseline::Alphabetic => alphabetic,
                    TextBaseline::Ideographic => size.product(Scalar { bits: IDEOGRAPHIC_BITS }),
                    TextBaseline::Bottom => size.product(Scalar { bits: BLOCK_BITS }),
                },
                alphabetic,
            )
        },
    }
}

/// The width and height of the block; estimated without a layout.
pub open spec fn block_size(
    spans: Seq<RichSpan>,
    style: TextStyle,
    metrics: Option<TextMetrics>,
) -> (Scalar, Scalar) {
    match metrics {
        Some(m) => (m.width, m.height),
        None => {
            let advance = style.font_size.product(Scalar { bits: ADVANCE_BITS });
            (
                Scalar::integer(content(spans).len()).product(advance).greatest(advance),
                style.font_size.product(Scalar { bits: BLOCK_BITS }),
            )
        },
    }
}

/// The top of the block.
pub open spec fn block_top(
    position: Point,
    style: TextStyle,
    metrics: Option<TextMetrics>,
) -> Scalar {
    position.y.difference(block_anchor(style, metrics).0)
}

/// The left edge of a block of a given width at an anchor.
pub open spec fn block_left(x: Scalar, width: Scalar, align: TextAlign) -> Scalar {
    match align {
        TextAlign::Right => x.difference(width),
        TextAlign::Center => x.difference(width.quotient(Scalar { bits: TWO_BITS })),
        _ => x,
    }
}

/// The rectangle behind the text, where it has a background color.
pub open spec fn background_markup(
    spans: Seq<RichSpan>,
    position: Point,
    style: TextStyle,
    metrics: Option<TextMetrics>,
) -> Seq<char> {
    match style.background_color {
        None => Seq::empty(),
        Some(c) => {
            let (w, h) = block_size(spans, style, metrics);
            "<rect x=\""@ + block_left(position.x, w, style.align).fixed(2) + "\" y=\""@
                + block_top(position, style, metrics).difference(style.baseline_shift).fixed(2)
                + "\" width=\""@ + w.fixed(2) + "\" height=\""@ + h.fixed(2) + "\""@
                + markup::color_attr("fill"@, c) + "/>\n"@
        },
    }
}

/// The `text-anchor` keyword.
pub open spec fn anchor_name(align: TextAlign) -> Seq<char> {
    match align {
        TextAlign::Center => "middle"@,
        TextAlign::Right => "end"@,
        _ => "start"@,
    }
}

/// The element needs a child for each line and span.
pub open spec fn is_rich(spans: Seq<RichSpan>) -> bool {
    content(spans).len() > 0 && (spans.len() > 1 || content(spans).contains('\n'))
}

/// Opens the text element, up to its fill.
pub open spec fn text_head(
    position: Point,
    style: TextStyle,
    metrics: Option<TextMetrics>,
) -> Seq<char> {
    "<text x=\""@ + position.x.fixed(2) + "\" y=\""@
        + block_top(position, style, metrics).sum(block_anchor(style, metrics).1).fixed(2)
        + "\" text-anchor=\""@ + anchor_name(style.align)
        + "\" dominant-baseline=\"alphabetic\" font-family=\""@
        + encode::escaped(family::family_css(style.font_family@), true) + "\" font-size=\""@
        + style.font_size.fixed(2) + "\" font-style=\""@ + style.font_style.name()
        + "\" font-weight=\""@ + digits::decimal(style.font_weight.number()) + "\""@
}

/// The optional attributes of the text element.
pub open spec fn text_options(position: Point, style: TextStyle) -> Seq<char> {
    given(
        style.font_width != FontWidth::Normal,
        attr(" font-stretch=\""@, stretch_value(style.font_width)),
    ) + given(
        !style.letter_spacing.same(Scalar { bits: 0 }),
        attr(" letter-spacing=\""@, style.letter_spacing.fixed(2)),
    ) + given(
        style.underline || style.strikethrough,
        attr(" text-decoration=\""@, markup::decoration(style.underline, style.strikethrough)),
    ) + given(
        style.line_height is Some,
        attr(" style=\"line-height:"@, style.line_height->0.fixed(2)),
    ) + given(
        !style.rotation.same(Scalar { bits: 0 }),
        " "@ + markup::rotation(style.rotation, position),
    ) + given(
        !style.baseline_shift.same(Scalar { bits: 0 }),
        attr(" baseline-shift=\""@, style.baseline_shift.negated().fixed(2) + "px"@),
    )
}

/// What the text element holds.
pub open spec fn text_body(
    spans: Seq<RichSpan>,
    position: Point,
    style: TextStyle,
    metrics: Option<TextMetrics>,
) -> Seq<char> {
    if is_rich(spans) {
        spans_markup(spans, position.x, style, metrics)
    } else {
        encode::escaped(content(spans), false)
    }
}

/// A text: its background, and a text element at the alphabetic baseline.
pub open spec fn text_markup(
    spans: Seq<RichSpan>,
    position: Point,
    style: TextStyle,
    metrics: Option<TextMetrics>,
) -> Seq<char> {
    background_markup(spans, position, style, metrics) + (text_head(position, style, metrics)
        + markup::color_attr("fill"@, style.color) + text_options(position, style) + ">"@
        + text_body(spans, position, style, metrics) + "</text>\n"@)
}

fn anchor_of(style: &TextStyle, metrics: Option<TextMetrics>) -> (r: (Scalar, Scalar))
    ensures
        r == block_anchor(*style, metrics),
{
    match metrics {
        Some(m) => (style.baseline.anchor_offset(&m), m.alphabetic_baseline),
        None => {
            let size = style.font_size;
            let alphabetic = size.mul(Scalar { bits: ALPHABETIC_BITS });
            let offset = match style.baseline {
                TextBaseline::Top => Scalar { bits: 0 },
                TextBaseline::Hanging => size.mul(Scalar { bits: HANGING_BITS }),
                TextBaseline::Middle => size.mul(Scalar { bits: HALF_BITS }),
                TextBaseline::Alphabetic => alphabetic,
                TextBaseline::Ideographic => size.mul(Scalar { bits: IDEOGRAPHIC_BITS }),
                TextBaseline::Bottom => size.mul(Scalar { bits: BLOCK_BITS }),
            };
            (offset, alphabetic)
        },
    }
}

fn background_svg(
    spans: &Vec<RichSpan>,
    position: Point,
    style: &TextStyle,
    metrics: Option<TextMetrics>,
) -> (r: String)
    ensures
        r@ == background_markup(spans@, position, *style, metrics),
{
    match style.background_color {
        None => {
            let r = String::new();
            assert(r@ =~= Seq::<char>::empty());
            r
        },
        Some(c) => {
            let (w, h) = match metrics {
                Some(m) => (m.width, m.height),
                None => {
                    let advance = style.font_size.mul(Scalar { bits: ADVANCE_BITS });
                    let count: usize = chars::to_chars(plain_text(spans).as_str()).len();
                    (
                        Scalar::from_u64(count as u64).mul(advance).max(advance),
                        style.font_size.mul(Scalar { bits: BLOCK_BITS }),
                    )
                },
            };
            let x = match style.align {
                TextAlign::Right => position.x.sub(w),
                TextAlign::Center => position.x.sub(w.div(Scalar { bits: TWO_BITS })),
                _ => position.x,
            };
            let y = position.y.sub(anchor_of(style, metrics).0).sub(style.baseline_shift);
            let mut r = markup::text("<rect x=\"");
            x.push_fixed(&mut r, 2);
            r.append("\" y=\"");
            y.push_fixed(&mut r, 2);
            r.append("\" width=\"");
            w.push_fixed(&mut r, 2);
            r.append("\" height=\"");
            h.push_fixed(&mut r, 2);
            r.append("\"");
            r.append(markup::color_attr_str("fill", c).as_str());
            r.append("/>\n");
            r
        },
    }
}

fn text_options_svg(position: Point, style: &TextStyle) -> (r: String)
    ensures
        r@ == text_options(position, *style),
{
    let mut r = String::new();
    let width = attr_text(" font-stretch=\"", stretch_text(style.font_width).as_str());
    push_given(&mut r, style.font_width != FontWidth::Normal, width.as_str());
    assert(r@ =~= given(
        style.font_width != FontWidth::Normal,
        attr(" font-stretch=\""@, stretch_value(style.font_width)),
    ));
    let spacing = number_text(" letter-spacing=\"", style.letter_spacing, 2);
    push_given(&mut r, !style.letter_spacing.same_value(Scalar { bits: 0 }), spacing.as_str());
    let decoration = attr_text(
        " text-decoration=\"",
        markup::deco_keyword(style.underline, style.strikethrough),
    );
    push_given(&mut r, style.underline || style.strikethrough, decoration.as_str());
    match style.line_height {
        Some(h) => {
            let height = number_text(" style=\"line-height:", h, 2);
            push_given(&mut r, true, height.as_str());
        },
        None => {
            push_given(&mut r, false, "");
        },
    }
    let mut turn = markup::text(" ");
    turn.append(markup::rotation_svg(style.rotation, position).as_str());
    push_given(&mut r, !style.rotation.same_value(Scalar { bits: 0 }), turn.as_str());
    let mut shift = style.baseline_shift.neg().to_fixed(2);
    shift.append("px");
    let shift = attr_text(" baseline-shift=\"", shift.as_str());
    push_given(&mut r, !style.baseline_shift.same_value(Scalar { bits: 0 }), shift.as_str());
    r
}

/// Whether a string holds a line break.
fn has_break(s: &str) -> (r: bool)
    ensures
        r == s@.contains('\n'),
{
    for c in it: s.chars()
        invariant
            it.seq() == s@,
            forall|j: int| 0 <= j < it.index() ==> s@[j] != '\n',
    {
        if c == '\n' {
            assert(s@[it.index() as int] == '\n');
            return true;
        }
    }
    false
}

fn text_head_svg(position: Point, style: &TextStyle, metrics: Option<TextMetrics>) -> (r: String)
    ensures
        r@ == text_head(position, *style, metrics),
{
    let (offset, alphabetic) = anchor_of(style, metrics);
    let y = position.y.sub(offset).add(alphabetic);
    let anchor = match style.align {
        TextAlign::Center => "middle",
        TextAlign::Right => "end",
        _ => "start",
    };
    let css = encode::escape_attr(style.font_family_css().as_str());
    let mut r = markup::text("<text x=\"");
    position.x.push_fixed(&mut r, 2);
    r.append("\" y=\"");
    y.push_fixed(&mut r, 2);
    r.append("\" text-anchor=\"");
    r.append(anchor);
    r.append("\" dominant-baseline=\"alphabetic\" font-family=\"");
    r.append(css.as_str());
    r.append("\" font-size=\"");
    style.font_size.push_fixed(&mut r, 2);
    r.append("\" font-style=\"");
    r.append(style.font_style.as_str());
    r.append("\" font-weight=\"");
    digits::push_decimal(&mut r, style.font_weight.value() as u128);
    r.append("\"");
    r
}

/// A text, with the metrics of its layout where there is one.
pub fn text_svg(
    spans: &Vec<RichSpan>,
    position: Point,
    style: &TextStyle,
    metrics: Option<TextMetrics>,
) -> (r: String)
    ensures
        r@ == text_markup(spans@, position, *style, metrics),
{
    let all = plain_text(spans);
    let mut r = text_head_svg(position, style, metrics);
    r.append(markup::color_attr_str("fill", style.color).as_str());
    r.append(text_options_svg(position, style).as_str());
    r.append(">");
    if chars::to_chars(all.as_str()).len() > 0 && (spans.len() > 1 || has_break(all.as_str())) {
        r.append(rich_text_tspans(spans, position.x, style, metrics).as_str());
    } else {
        r.append(encode::escape_text(all.as_str()).as_str());
    }
    r.append("</text>\n");
    let mut out = background_svg(spans, position, style, metrics);
    out.append(r.as_str());
    out
}

} // verus!
