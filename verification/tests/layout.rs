//! Layouts of real text: the engine shapes, the library does the rest.

use std::sync::Arc;

use lievisual::builder::Ctx;
use lievisual::fit::{element_bounds, Measure};
use lievisual::geometry::{Color, Point, Rect, Size};
use lievisual::scalar::Scalar;
use lievisual::scene::Element;
use lievisual::text::clusters::{match_parts, Cluster, PlacedGlyph, ShapedPart};
use lievisual::text::extract::{extract_lines, ink_rect, RawGlyph, RawLine, RawRun};
use lievisual::text::families::{font_families, FamilyName};
use lievisual::text::layout::{
    compute_text_offset, layout_metrics, LineMetrics, TextLayout, TextMeasure,
};
use lievisual::text::shaping::{
    parse_generic_family, span_ranges, span_requests, spans_to_lay_out, style_defaults,
    StyleChange,
};
use lievisual::text::style::{FontStyle, RichSpan, TextAlign, TextBaseline, TextStyle};
use parley::style::{FontFamily, FontFamilyName, LineHeight, StyleProperty};
use parley::{FontContext, LayoutContext};
use skrifa::MetadataProvider;

fn s(x: f64) -> Scalar {
    Scalar::from_bits(x.to_bits())
}

fn f(x: Scalar) -> f64 {
    f64::from_bits(x.to_bits())
}

fn single(x: f32) -> Scalar {
    s(f64::from(x))
}

fn rgba(c: Color) -> [u8; 4] {
    [c.r, c.g, c.b, c.a]
}

fn font(size: f64) -> TextStyle {
    TextStyle::new(Color::black(), s(size), "sans-serif".to_string())
}

fn span(text: &str, style: &TextStyle) -> RichSpan {
    RichSpan::new(text.to_string(), style.clone())
}

fn families(raw: &str) -> FontFamily<'static> {
    let names: Vec<FontFamilyName<'static>> = font_families(raw)
        .into_iter()
        .map(|family| match family {
            FamilyName::Named(name) => FontFamilyName::Named(name.into()),
            FamilyName::Generic(g) => {
                let all = parley::fontique::GenericFamily::all();
                FontFamilyName::Generic(
                    *all.iter().find(|o| parse_generic_family(&o.to_string()) == Some(g)).unwrap(),
                )
            }
        })
        .collect();
    FontFamily::List(names.into())
}

fn property(style: &TextStyle, change: StyleChange) -> StyleProperty<'static, [u8; 4]> {
    match change {
        StyleChange::Family => StyleProperty::FontFamily(families(&style.font_family)),
        StyleChange::Size => StyleProperty::FontSize(f(style.font_size) as f32),
        StyleChange::Brush => StyleProperty::Brush(rgba(style.color)),
        StyleChange::Weight => StyleProperty::FontWeight(parley::style::FontWeight::new(
            style.font_weight.value() as f32,
        )),
        StyleChange::Slant => StyleProperty::FontStyle(match style.font_style {
            FontStyle::Normal => parley::style::FontStyle::Normal,
            FontStyle::Italic => parley::style::FontStyle::Italic,
            FontStyle::Oblique => parley::style::FontStyle::Oblique(None),
        }),
        StyleChange::Width => StyleProperty::FontWidth(parley::style::FontWidth::from_ratio(
            f(style.font_width.ratio()) as f32,
        )),
        StyleChange::LineHeight(factor) => {
            StyleProperty::LineHeight(LineHeight::FontSizeRelative(f(factor) as f32))
        }
        StyleChange::LetterSpacing => StyleProperty::LetterSpacing(f(style.letter_spacing) as f32),
        StyleChange::Underline => StyleProperty::Underline(style.underline),
        StyleChange::UnderlineBrush => {
            StyleProperty::UnderlineBrush(style.underline_color.map(rgba))
        }
        StyleChange::Strikethrough => StyleProperty::Strikethrough(style.strikethrough),
        StyleChange::StrikethroughBrush => {
            StyleProperty::StrikethroughBrush(style.strikethrough_color.map(rgba))
        }
    }
}

fn ink(data: &[u8], index: u32, id: u32, size: f32) -> Option<Rect> {
    let font = skrifa::FontRef::from_index(data, index).ok()?;
    let at = skrifa::instance::LocationRef::default();
    let b = font
        .glyph_metrics(skrifa::instance::Size::new(size), at)
        .bounds(skrifa::GlyphId::new(id))?;
    Some(ink_rect(single(b.x_min), single(b.y_min), single(b.x_max), single(b.y_max)))
}

fn part(run: &parley::layout::GlyphRun<'_, [u8; 4]>) -> ShapedPart {
    let shaped = run.run();
    let font = shaped.font();
    ShapedPart {
        run: shaped.index(),
        clusters: shaped
            .visual_clusters()
            .map(|c| Cluster {
                start: c.text_range().start as u32,
                end: c.text_range().end as u32,
                glyphs: c.glyphs().count(),
            })
            .collect(),
        glyphs: run
            .positioned_glyphs()
            .map(|g| PlacedGlyph {
                id: g.id,
                x: single(g.x),
                y: single(g.y),
                advance: single(g.advance),
                ink: ink(font.data.data(), font.index, g.id, shaped.font_size()),
            })
            .collect(),
    }
}

fn raw_run(run: &parley::layout::GlyphRun<'_, [u8; 4]>, glyphs: Vec<RawGlyph>) -> RawRun {
    let shaped = run.run();
    let data = Arc::new(shaped.font().data.data().to_vec());
    let [r, g, b, a] = run.style().brush;
    RawRun {
        color: Color::rgba(r, g, b, a),
        font_index: shaped.font().index,
        font_size: single(shaped.font_size()),
        weight: single(shaped.font_attrs().weight.value()),
        italic: shaped.font_attrs().style != parley::fontique::FontStyle::Normal,
        font_data: data,
        glyphs,
    }
}

fn raw_line(line: &parley::layout::Line<'_, [u8; 4]>) -> RawLine {
    let m = line.metrics();
    let mut shaped = Vec::new();
    for item in line.items() {
        if let parley::layout::PositionedLayoutItem::GlyphRun(run) = item {
            shaped.push(run);
        }
    }
    let glyphs = match_parts(&shaped.iter().map(part).collect());
    let runs = shaped.iter().zip(glyphs).map(|(run, g)| raw_run(run, g)).collect();
    RawLine {
        metrics: LineMetrics {
            ascent: single(m.baseline - m.content_block_min_coord),
            descent: single(m.content_block_max_coord - m.baseline),
            baseline: single(m.baseline),
            line_height: single(m.line_height),
        },
        runs,
    }
}

fn layout(spans: &Vec<RichSpan>, max_width: Option<f64>) -> TextLayout {
    let spans = &spans_to_lay_out(spans);
    let ranges = span_ranges(spans).unwrap();
    let text: String = spans.iter().map(|s| s.text.as_str()).collect();
    let mut fonts = FontContext::new();
    let mut layouts = LayoutContext::new();
    let mut builder = layouts.ranged_builder(&mut fonts, &text, 1.0, true);
    let base = &spans[0].style;
    for change in style_defaults(base) {
        builder.push_default(property(base, change));
    }
    for request in span_requests(spans, &ranges) {
        let style = &spans[request.span].style;
        for change in request.changes {
            builder.push(property(style, change), request.start..request.end);
        }
    }
    let mut shaped = builder.build(&text);
    shaped.break_all_lines(max_width.map(|w| w as f32));
    shaped.align(
        match base.align {
            TextAlign::Left => parley::Alignment::Start,
            TextAlign::Center => parley::Alignment::Center,
            TextAlign::Right => parley::Alignment::End,
            TextAlign::Justify => parley::Alignment::Justify,
        },
        parley::AlignmentOptions::default(),
    );
    let lines: Vec<RawLine> = shaped.lines().map(|l| raw_line(&l)).collect();
    let (width, height) = (single(shaped.width()), single(shaped.height()));
    extract_lines(&lines, width, height, spans, &ranges)
}

fn measure(spans: &Vec<RichSpan>, max_width: Option<f64>) -> TextMeasure {
    let layout = layout(spans, max_width);
    let metrics = layout_metrics(&layout);
    TextMeasure {
        size: Size::new(metrics.width, metrics.height),
        metrics,
        layout: Arc::new(layout),
    }
}

fn layout_one(text: &str, style: &TextStyle, max_width: Option<f64>) -> TextLayout {
    layout(&vec![span(text, style)], max_width)
}

fn measure_one(text: &str, style: &TextStyle, max_width: Option<f64>) -> TextMeasure {
    measure(&vec![span(text, style)], max_width)
}

fn measure_metrics_basic() {
    let m = measure_one("Hi", &font(20.0), None);
    assert!(f(m.metrics.width) > 0.0);
    assert!(f(m.metrics.height) > 0.0);
    assert!(f(m.metrics.font_bounding_box_ascent) > 0.0);
    assert!(f(m.metrics.font_bounding_box_descent) >= 0.0);
    assert!(f(m.metrics.alphabetic_baseline) > 0.0);
    assert_eq!(m.size.width, m.metrics.width);
    assert_eq!(m.size.height, m.metrics.height);
}

#[test]
fn text_measure_metrics_basic() {
    measure_metrics_basic();
}

#[test]
fn tests_measure_metrics_basic() {
    measure_metrics_basic();
}

fn baseline_anchor_offsets_monotonic() {
    let m = measure_one("X", &font(20.0), None).metrics;
    let top = f(TextBaseline::Top.anchor_offset(&m));
    let alpha = f(TextBaseline::Alphabetic.anchor_offset(&m));
    let bottom = f(TextBaseline::Bottom.anchor_offset(&m));
    assert_eq!(top, 0.0);
    assert!(top < alpha && alpha < bottom);
    assert!(bottom <= f(m.height) + 1e-6);
}

#[test]
fn text_baseline_anchor_offsets_monotonic() {
    baseline_anchor_offsets_monotonic();
}

#[test]
fn tests_baseline_anchor_offsets_monotonic() {
    baseline_anchor_offsets_monotonic();
}

fn layout_text_uses_same_tls_context() {
    let m = measure_one("共享", &font(16.0), None);
    let l = layout_one("共享", &font(16.0), None);
    assert_eq!(l.width, m.metrics.width);
    assert_eq!(l.height, m.metrics.height);
}

#[test]
fn text_layout_text_uses_same_tls_context() {
    layout_text_uses_same_tls_context();
}

#[test]
fn tests_layout_text_uses_same_tls_context() {
    layout_text_uses_same_tls_context();
}

fn compute_text_offset_horizontal_alignment() {
    let layout = layout_one("Hello", &font(20.0), None);
    let x = |align| f(compute_text_offset(&layout, align, TextBaseline::Top).0);
    assert_eq!(x(TextAlign::Left), 0.0);
    assert!((x(TextAlign::Center) + f(layout.width) / 2.0).abs() < 1e-6);
    assert!((x(TextAlign::Right) + f(layout.width)).abs() < 1e-6);
}

#[test]
fn text_compute_text_offset_horizontal_alignment() {
    compute_text_offset_horizontal_alignment();
}

#[test]
fn tests_compute_text_offset_horizontal_alignment() {
    compute_text_offset_horizontal_alignment();
}

fn compute_text_offset_baselines_monotonic() {
    let layout = layout_one("Yg", &font(20.0), None);
    let y = |baseline| f(compute_text_offset(&layout, TextAlign::Left, baseline).1);
    let top = y(TextBaseline::Top);
    let middle = y(TextBaseline::Middle);
    let hanging = y(TextBaseline::Hanging);
    let alpha = y(TextBaseline::Alphabetic);
    let ideo = y(TextBaseline::Ideographic);
    let bottom = y(TextBaseline::Bottom);
    assert_eq!(top, 0.0);
    assert!(top > middle, "top({top}) > middle({middle})");
    assert!(middle > hanging, "middle({middle}) > hanging({hanging})");
    assert!(hanging > alpha, "hanging({hanging}) > alpha({alpha})");
    assert!(alpha > ideo, "alpha({alpha}) > ideo({ideo})");
    assert!(ideo > bottom, "ideo({ideo}) > bottom({bottom})");
}

#[test]
fn text_compute_text_offset_baselines_monotonic() {
    compute_text_offset_baselines_monotonic();
}

#[test]
fn tests_compute_text_offset_baselines_monotonic() {
    compute_text_offset_baselines_monotonic();
}

fn justify_offsets_like_left_and_layouts_multiline() {
    let layout = layout_one("Hello", &font(20.0), None);
    let (xj, _) = compute_text_offset(&layout, TextAlign::Justify, TextBaseline::Top);
    let (xl, _) = compute_text_offset(&layout, TextAlign::Left, TextBaseline::Top);
    assert_eq!(xj, xl);
    let style = font(16.0).with_align(TextAlign::Justify);
    let text = "The quick brown fox jumps over the lazy dog while padding enough to wrap.";
    let wrapped = layout_one(text, &style, Some(160.0));
    assert!(wrapped.lines.len() >= 2, "should produce multiple lines");
    assert!(f(wrapped.height) > f(layout_one("a", &style, None).height));
}

#[test]
fn text_justify_offsets_like_left_and_layouts_multiline() {
    justify_offsets_like_left_and_layouts_multiline();
}

#[test]
fn tests_justify_offsets_like_left_and_layouts_multiline() {
    justify_offsets_like_left_and_layouts_multiline();
}

fn rich_text_measures_and_layouts() {
    let m = measure(&vec![span("Hello", &font(20.0)), span(" World", &font(20.0))], None);
    assert!(f(m.metrics.width) > 0.0);
    assert!(f(m.metrics.height) > 0.0);
    assert_eq!(m.size.width, m.metrics.width);
    let plain = measure_one("Hello World", &font(20.0), None);
    assert!((f(m.metrics.width) - f(plain.metrics.width)).abs() < 1e-6);
}

#[test]
fn text_rich_text_measures_and_layouts() {
    rich_text_measures_and_layouts();
}

#[test]
fn tests_rich_text_measures_and_layouts() {
    rich_text_measures_and_layouts();
}

fn rich_text_mixed_styles_apply_ranges() {
    let m = measure(&vec![span("big", &font(40.0)), span("small", &font(12.0))], None);
    assert!(f(m.metrics.width) > 0.0);
    assert!(f(m.metrics.font_bounding_box_ascent) > 20.0);
    assert!(f(m.metrics.font_bounding_box_descent) >= 0.0);
    let small = measure_one("small", &font(12.0), None);
    assert!(
        f(m.metrics.height) > f(small.metrics.height),
        "mixed larger font should be taller: {} vs {}",
        f(m.metrics.height),
        f(small.metrics.height)
    );
}

#[test]
fn text_rich_text_mixed_styles_apply_ranges() {
    rich_text_mixed_styles_apply_ranges();
}

#[test]
fn tests_rich_text_mixed_styles_apply_ranges() {
    rich_text_mixed_styles_apply_ranges();
}

fn rich_text_empty_and_newline() {
    let empty = measure(&Vec::new(), None);
    assert!(f(empty.metrics.height) >= 0.0);
    let single = measure_one("ab", &font(16.0), None);
    let multi = measure_one("a\nb", &font(16.0), None);
    assert!(
        f(multi.metrics.height) > f(single.metrics.height),
        "rich text with newline should be taller: {} vs {}",
        f(multi.metrics.height),
        f(single.metrics.height)
    );
}

#[test]
fn text_rich_text_empty_and_newline() {
    rich_text_empty_and_newline();
}

#[test]
fn tests_rich_text_empty_and_newline() {
    rich_text_empty_and_newline();
}

fn rich_text_max_width_wraps() {
    let narrow = measure_one("aaaaaaaa aaaaaaaa", &font(16.0), Some(50.0));
    let wide = measure_one("aaaaaaaa aaaaaaaa", &font(16.0), None);
    assert!(
        f(narrow.metrics.height) > f(wide.metrics.height),
        "max_width should wrap and grow height: {} vs {}",
        f(narrow.metrics.height),
        f(wide.metrics.height)
    );
}

#[test]
fn text_rich_text_max_width_wraps() {
    rich_text_max_width_wraps();
}

#[test]
fn tests_rich_text_max_width_wraps() {
    rich_text_max_width_wraps();
}

fn caller_pattern_create_layout_then_offset() {
    let style = font(13.0).with_align(TextAlign::Center).with_baseline(TextBaseline::Middle);
    let text = "Hello Node";
    let layout = layout_one(text, &style, None);
    let (x_off, y_off) = compute_text_offset(&layout, TextAlign::Center, TextBaseline::Middle);
    let (cx, cy) = (100.0, 50.0);
    let (left, top) = (cx + f(x_off), cy + f(y_off));
    assert!((left - (cx - f(layout.width) / 2.0)).abs() < 1e-6);
    let ink = layout.ink_bounds();
    let ink_height = (f(ink.max_y()) - f(ink.min_y())).max(0.0);
    assert!((top - (cy - (f(ink.min_y()) + ink_height / 2.0))).abs() < 1e-6);
    let rich = measure_one(text, &style, None);
    assert!((f(rich.layout.width) - f(layout.width)).abs() < 1e-6);
    let node = Element::Text {
        spans: vec![span(text, &style)],
        position: Point::new(s(left), s(top)),
        style,
        layout: Some(rich.layout),
    };
    match node {
        Element::Text { layout, .. } => assert!(layout.is_some()),
        _ => unreachable!(),
    }
}

#[test]
fn text_caller_pattern_create_layout_then_offset() {
    caller_pattern_create_layout_then_offset();
}

#[test]
fn tests_caller_pattern_create_layout_then_offset() {
    caller_pattern_create_layout_then_offset();
}

fn letter_spacing_widens_measure() {
    let a = f(measure_one("Hello", &font(20.0), None).metrics.width);
    let spaced = font(20.0).with_letter_spacing(s(8.0));
    let b = f(measure_one("Hello", &spaced, None).metrics.width);
    assert!(b > a + 1.0, "letter_spacing should widen: base={a}, spaced={b}");
}

#[test]
fn text_letter_spacing_widens_measure() {
    letter_spacing_widens_measure();
}

#[test]
fn tests_letter_spacing_widens_measure() {
    letter_spacing_widens_measure();
}

fn decorations_do_not_change_size_but_render_rule() {
    let underlined = font(20.0)
        .with_underline(true)
        .with_underline_color(Some(Color::rgb(0, 0, 0xff)));
    let struck = font(20.0).with_strikethrough(true);
    let plain = f(measure_one("Hi", &font(20.0), None).metrics.width);
    assert!((plain - f(measure_one("Hi", &underlined, None).metrics.width)).abs() < 1e-6);
    assert!((plain - f(measure_one("Hi", &struck, None).metrics.width)).abs() < 1e-6);
}

#[test]
fn text_decorations_do_not_change_size_but_render_rule() {
    decorations_do_not_change_size_but_render_rule();
}

#[test]
fn tests_decorations_do_not_change_size_but_render_rule() {
    decorations_do_not_change_size_but_render_rule();
}

fn rich_text_mixed_decorations_apply_per_span() {
    let spaced = font(20.0).with_letter_spacing(s(6.0));
    let all_plain = f(measure_one("AB", &font(20.0), None).metrics.width);
    let all_spaced = f(measure_one("AB", &spaced, None).metrics.width);
    assert!(all_spaced > all_plain, "all-spaced should be wider");
    let spans = vec![span("A", &font(20.0)), span("B", &spaced)];
    let mixed = f(measure(&spans, None).metrics.width);
    assert!(
        mixed > all_plain && mixed < all_spaced,
        "mixed width should be in between: {all_plain}, {mixed}, {all_spaced}"
    );
}

#[test]
fn text_rich_text_mixed_decorations_apply_per_span() {
    rich_text_mixed_decorations_apply_per_span();
}

#[test]
fn tests_rich_text_mixed_decorations_apply_per_span() {
    rich_text_mixed_decorations_apply_per_span();
}

#[test]
fn measure_returns_size() {
    let ctx = Ctx::new().with_font(font(20.0));
    let m = measure_one("Hello", &ctx.font, None);
    assert!(f(m.size.width) > 0.0 && f(m.size.height) > 0.0);
    assert!(f(m.metrics.width) > 0.0);
}

#[test]
fn text_bounds_uses_real_measurement() {
    let el = Element::Text {
        spans: vec![span("Hello", &font(16.0))],
        position: Point::new(s(0.0), s(0.0)),
        style: font(16.0),
        layout: None,
    };
    let mut m = Measure::none();
    m.size = Some(measure_one("Hello", &font(16.0), None).size);
    let b = element_bounds(&el, &m).unwrap();
    assert!(f(b.width()) > 0.0 && f(b.height()) > 0.0, "got {b:?}");
}

#[test]
fn real_runs_are_cut_where_the_background_changes() {
    let plain = font(12.0);
    let marked = font(12.0).with_background_color(Some(Color::rgb(0xff, 0xff, 0xcc)));
    let layout = layout(
        &vec![span("pre ", &plain), span("marked", &marked), span(" post", &plain)],
        None,
    );
    let line = &layout.lines[0];
    let texts: Vec<&str> = line.runs.iter().map(|r| r.text.as_str()).collect();
    assert_eq!(texts, vec!["pre ", "marked", " post"]);
    let total: usize = line.runs.iter().map(|r| r.glyphs.len()).sum();
    assert_eq!(total, 15);
    assert_eq!(line.runs[0].background_color, None);
    assert_eq!(line.runs[1].background_color, Some(Color::rgb(0xff, 0xff, 0xcc)));
}

#[test]
fn real_runs_are_cut_where_the_color_changes() {
    let mut red = font(12.0);
    red.color = Color::rgb(0xff, 0, 0);
    let mut blue = font(12.0);
    blue.color = Color::rgb(0, 0, 0xff);
    let layout = layout(
        &vec![span("fn ", &red), span("name", &font(12.0)), span("() {}", &blue)],
        None,
    );
    let runs = &layout.lines[0].runs;
    let texts: Vec<&str> = runs.iter().map(|r| r.text.as_str()).collect();
    assert_eq!(texts, vec!["fn ", "name", "() {}"]);
    assert_eq!(runs[2].color, Color::rgb(0, 0, 0xff));
    let total: usize = runs.iter().map(|r| r.glyphs.len()).sum();
    assert_eq!(total, 12);
}

#[test]
fn real_runs_split_between_glyphs() {
    let layout = layout_one("abcdef", &font(12.0), None);
    let pieces = layout.lines[0].runs[0].split_at(&[2, 5]);
    let texts: Vec<&str> = pieces.iter().map(|p| p.text.as_str()).collect();
    assert_eq!(texts, vec!["ab", "cde", "f"]);
    let total: usize = pieces.iter().map(|p| p.glyphs.len()).sum();
    assert_eq!(total, 6);
}
