use std::sync::Arc;

use lievisual::geometry::{Color, Rect};
use lievisual::scalar::Scalar;
use lievisual::text::clusters::{match_parts, Cluster, PlacedGlyph, ShapedPart};
use lievisual::text::extract::{extract_lines, RawGlyph, RawLine, RawRun};
use lievisual::text::families::{choose_families, font_families, FamilyName};
use lievisual::text::layout::{
    compute_text_offset, layout_metrics, Glyph, LineMetrics, TextLayout, TextLine, TextRun,
};
use lievisual::text::shaping::{
    parse_generic_family, span_ranges, span_requests, spans_to_lay_out, style_changes,
    style_defaults, GenericFamily, StyleChange,
};
use lievisual::text::style::{
    FontStyle, FontWidth, RichSpan, TextAlign, TextBaseline, TextDecoration, TextStyle,
};
use lievisual::text::weight::FontWeight;

fn s(x: f64) -> Scalar {
    Scalar::from_bits(x.to_bits())
}

fn f(x: Scalar) -> f64 {
    f64::from_bits(x.to_bits())
}

fn rect(x0: f64, y0: f64, x1: f64, y1: f64) -> Rect {
    Rect::new(s(x0), s(y0), s(x1), s(y1))
}

fn font(size: f64) -> TextStyle {
    TextStyle::new(Color::black(), s(size), "sans-serif".to_string())
}

fn family(name: &str) -> String {
    TextStyle::new(Color::black(), s(12.0), name.to_string()).font_family_css()
}

#[test]
fn parses_keywords() {
    assert_eq!(FontWeight::parse("bold"), Some(FontWeight::Bold));
    assert_eq!(FontWeight::parse("normal"), Some(FontWeight::Normal));
    assert_eq!(FontWeight::parse("Thin"), Some(FontWeight::Thin));
    assert_eq!(FontWeight::parse("EXTRA-BOLD"), Some(FontWeight::ExtraBold));
    assert_eq!(FontWeight::parse("semi_bold"), Some(FontWeight::SemiBold));
    assert_eq!(FontWeight::parse("black"), Some(FontWeight::Black));
}

#[test]
fn parses_numeric() {
    assert_eq!(FontWeight::parse("100"), Some(FontWeight::Thin));
    assert_eq!(FontWeight::parse("400"), Some(FontWeight::Normal));
    assert_eq!(FontWeight::parse("700"), Some(FontWeight::Bold));
    assert_eq!(FontWeight::parse("750"), Some(FontWeight::ExtraBold));
    assert_eq!(FontWeight::parse(" 900 "), Some(FontWeight::Black));
}

#[test]
fn rejects_invalid() {
    assert_eq!(FontWeight::parse("xxx"), None);
    assert_eq!(FontWeight::parse(""), None);
    assert_eq!(FontWeight::parse("1000"), None);
    assert!(FontWeight::from_str("nope").is_err());
    assert_eq!(FontWeight::from_str("bold").unwrap(), FontWeight::Bold);
}

#[test]
fn numerals_in_other_forms() {
    assert_eq!(FontWeight::parse("4e2"), Some(FontWeight::Normal));
    assert_eq!(FontWeight::parse("+700.0"), Some(FontWeight::Bold));
    assert_eq!(FontWeight::parse(".7e3"), Some(FontWeight::Bold));
    assert_eq!(FontWeight::parse("e3"), None);
    assert_eq!(FontWeight::parse("-100"), None);
    assert_eq!(FontWeight::parse("-400"), None);
    assert_eq!(FontWeight::parse("4_00"), None);
    assert_eq!(FontWeight::parse("4000e-1"), Some(FontWeight::Normal));
    assert_eq!(FontWeight::parse("7.0E2"), Some(FontWeight::Bold));
    assert_eq!(FontWeight::parse("4e-9999999999999999999999"), None);
    assert_eq!(FontWeight::parse("-b-o_l-d-"), Some(FontWeight::Bold));
    assert_eq!(FontWeight::parse("99.9"), None);
    assert_eq!(FontWeight::parse("1e400"), None);
}

#[test]
fn font_styles_and_widths() {
    assert_eq!(FontStyle::parse("Italic"), Some(FontStyle::Italic));
    assert_eq!(FontStyle::parse("slanted"), None);
    assert_eq!(FontStyle::Oblique.as_str(), "oblique");
    assert_eq!(f(FontWidth::Condensed.ratio()), 0.75);
    assert_eq!(FontWidth::from_ratio(s(0.76)), FontWidth::Condensed);
    assert_eq!(FontWeight::from_value(s(640.0)), FontWeight::SemiBold);
}

#[test]
fn tests_font_family_css_normalizes_list() {
    assert_eq!(
        family("Helvetica Neue, Arial, sans-serif"),
        "'Helvetica Neue', Arial, sans-serif"
    );
}

#[test]
fn text_font_family_css_normalizes_list() {
    assert_eq!(
        family("Helvetica Neue, Arial, sans-serif"),
        "'Helvetica Neue', Arial, sans-serif"
    );
}

fn generics_stay_unquoted() {
    for g in ["sans-serif", "serif", "monospace", "cursive", "system-ui", "ui-monospace"] {
        assert_eq!(family(g), g);
    }
}

#[test]
fn tests_font_family_css_generic_stays_unquoted() {
    generics_stay_unquoted();
}

#[test]
fn text_font_family_css_generic_stays_unquoted() {
    generics_stay_unquoted();
}

fn quotes_spaces_and_non_ascii() {
    assert_eq!(family("Times New Roman"), "'Times New Roman'");
    assert_eq!(family("微软雅黑"), "'微软雅黑'");
    assert_eq!(family("Rock'n'Roll"), "'Rock\\'n\\'Roll'");
    assert_eq!(family(r"a\b"), r"'a\\b'");
}

#[test]
fn tests_font_family_css_quotes_spaces_and_non_ascii() {
    quotes_spaces_and_non_ascii();
}

#[test]
fn text_font_family_css_quotes_spaces_and_non_ascii() {
    quotes_spaces_and_non_ascii();
}

fn strips_user_quotes_and_keywords() {
    assert_eq!(family("\"Helvetica Neue\""), "'Helvetica Neue'");
    assert_eq!(family("inherit"), "'inherit'");
    assert_eq!(
        family("'Helvetica Neue', Arial, sans-serif"),
        "'Helvetica Neue', Arial, sans-serif"
    );
    assert_eq!(family("Arial, , serif"), "Arial, serif");
}

#[test]
fn only_paired_quotes_are_stripped() {
    assert_eq!(family("\""), "'\"'");
    assert_eq!(family("'"), "'\\''");
    assert_eq!(family("\"Arial"), "'\"Arial'");
    assert_eq!(family("''"), "''");
}

#[test]
fn a_normalized_list_stays_as_it_is() {
    for raw in ["Arial, serif", " Helvetica Neue ,,Arial", "inherit, MONOSPACE", "", "1st"] {
        let once = family(raw);
        assert_eq!(family(&once), once);
    }
}

#[test]
fn tests_font_family_css_strips_user_quotes_and_keywords() {
    strips_user_quotes_and_keywords();
}

#[test]
fn text_font_family_css_strips_user_quotes_and_keywords() {
    strips_user_quotes_and_keywords();
}

fn builder_defaults() {
    let st = font(12.0);
    assert_eq!(st.font_width, FontWidth::Normal);
    assert_eq!(st.letter_spacing, s(0.0));
    assert!(!st.underline);
    assert!(!st.strikethrough);
    assert_eq!(st.underline_color, None);
    assert_eq!(st.strikethrough_color, None);
    assert_eq!(st.baseline_shift, s(0.0));
    assert_eq!(st.background_color, None);
}

#[test]
fn tests_builder_defaults() {
    builder_defaults();
}

#[test]
fn text_builder_defaults() {
    builder_defaults();
}

fn baseline_shift_and_background_builders() {
    let st = font(12.0)
        .with_baseline_shift(s(6.0))
        .with_background_color(Some(Color::rgb(0xf0, 0xf0, 0xf0)));
    assert_eq!(st.baseline_shift, s(6.0));
    assert_eq!(st.background_color, Some(Color::rgb(0xf0, 0xf0, 0xf0)));
    assert_eq!(font(12.0).with_baseline_shift(s(-4.0)).baseline_shift, s(-4.0));
}

#[test]
fn tests_baseline_shift_and_background_builders() {
    baseline_shift_and_background_builders();
}

#[test]
fn text_baseline_shift_and_background_builders() {
    baseline_shift_and_background_builders();
}

fn a_layout() -> TextLayout {
    let m = LineMetrics {
        ascent: s(19.0),
        descent: s(5.0),
        baseline: s(19.0),
        line_height: s(24.0),
    };
    TextLayout {
        lines: vec![TextLine {
            runs: Vec::new(),
            bounds: rect(0.0, 0.0, 50.0, 24.0),
            metrics: m,
            ink_bounds: rect(0.0, 4.0, 50.0, 24.0),
        }],
        width: s(50.0),
        height: s(24.0),
        ink_bounds: rect(0.0, 4.0, 50.0, 24.0),
    }
}

#[test]
fn offsets_follow_the_alignment() {
    let layout = a_layout();
    let x = |align| f(compute_text_offset(&layout, align, TextBaseline::Top).0);
    assert_eq!(x(TextAlign::Left), 0.0);
    assert_eq!(x(TextAlign::Justify), 0.0);
    assert_eq!(x(TextAlign::Center), -25.0);
    assert_eq!(x(TextAlign::Right), -50.0);
}

#[test]
fn offsets_follow_the_baseline() {
    let layout = a_layout();
    let y = |baseline| f(compute_text_offset(&layout, TextAlign::Left, baseline).1);
    assert_eq!(y(TextBaseline::Top), 0.0);
    assert_eq!(y(TextBaseline::Middle), -14.0);
    assert_eq!(y(TextBaseline::Hanging), -(19.0 * 0.8));
    assert_eq!(y(TextBaseline::Alphabetic), -19.0);
    assert_eq!(y(TextBaseline::Ideographic), -(19.0 + 5.0 * 0.1));
    assert_eq!(y(TextBaseline::Bottom), -24.0);
    let m = layout_metrics(&layout);
    assert_eq!(f(TextBaseline::Top.anchor_offset(&m)), 0.0);
    assert_eq!(f(TextBaseline::Alphabetic.anchor_offset(&m)), 19.0);
    assert_eq!(f(TextBaseline::Middle.anchor_offset(&m)), 12.0);
    assert_eq!(f(TextBaseline::Bottom.anchor_offset(&m)), 24.0);
}

fn named(name: &str) -> FamilyName {
    FamilyName::Named(name.to_string())
}

#[test]
fn families_of_a_css_list() {
    assert_eq!(
        font_families("Arial, 'Times New Roman', SERIF, \"serif\","),
        vec![
            named("Arial"),
            named("Times New Roman"),
            FamilyName::Generic(GenericFamily::Serif),
            named("serif"),
        ]
    );
    assert_eq!(
        font_families("ui-sans-serif"),
        vec![FamilyName::Generic(GenericFamily::UiSansSerif)]
    );
    assert_eq!(font_families("Arial,,serif"), vec![named("Arial")]);
    assert_eq!(font_families("'open"), vec![named("'open")]);
    assert_eq!(font_families(""), vec![named("")]);
}

#[test]
fn families_are_chosen_from_parsed_items() {
    let items = vec![
        None,
        Some((false, "serif".to_string())),
        Some((true, "Math".to_string())),
        None,
    ];
    assert_eq!(
        choose_families("x", &items),
        vec![named("serif"), FamilyName::Generic(GenericFamily::Math)]
    );
    assert_eq!(choose_families("x", &vec![None]), vec![named("x")]);
}

#[test]
fn requests_leave_out_spans_without_text() {
    let bold = || font(12.0).with_weight(FontWeight::Bold);
    let spans = vec![
        RichSpan::new("a".to_string(), bold()),
        RichSpan::new(String::new(), font(9.0)),
        RichSpan::new("\u{e9}".to_string(), font(12.0)),
    ];
    let ranges = span_ranges(&spans).unwrap();
    let requests = span_requests(&spans, &ranges);
    assert_eq!(requests.len(), 1);
    assert_eq!((requests[0].span, requests[0].start, requests[0].end), (2, 1, 3));
    assert_eq!(requests[0].changes, vec![StyleChange::Weight]);
    assert_eq!(spans_to_lay_out(&spans), spans);
    let none = spans_to_lay_out(&Vec::new());
    assert_eq!(none, vec![RichSpan::new(String::new(), font(12.0))]);
}

#[test]
fn parts_of_a_run_take_its_clusters_in_turn() {
    let clusters = || {
        vec![
            Cluster { start: 0, end: 2, glyphs: 2 },
            Cluster { start: 2, end: 3, glyphs: 0 },
            Cluster { start: 3, end: 4, glyphs: 1 },
        ]
    };
    let glyph = |id| PlacedGlyph { id, x: s(1.0), y: s(2.0), advance: s(3.0), ink: None };
    let part = |run, ids: &[u32]| ShapedPart {
        run,
        clusters: clusters(),
        glyphs: ids.iter().map(|id| glyph(*id)).collect(),
    };
    let out = match_parts(&vec![part(0, &[7]), part(1, &[8]), part(0, &[9, 10, 11])]);
    let bytes: Vec<Vec<(u32, u32, u32)>> =
        out.iter().map(|p| p.iter().map(|g| (g.id, g.start, g.end)).collect()).collect();
    assert_eq!(bytes, vec![vec![(7, 0, 2)], vec![(8, 0, 2)], vec![(9, 0, 2), (10, 3, 4)]]);
}

#[test]
fn generic_families_by_name() {
    assert_eq!(parse_generic_family("monospace"), Some(GenericFamily::Monospace));
    assert_eq!(parse_generic_family("Sans-Serif"), Some(GenericFamily::SansSerif));
    assert_eq!(parse_generic_family("SYSTEMUI"), Some(GenericFamily::SystemUi));
    assert_eq!(parse_generic_family("Arial"), None);
}

#[test]
fn only_differences_are_told() {
    let base = font(12.0);
    assert!(style_changes(&base, &base).is_empty());
    let other = font(14.0).with_letter_spacing(s(1.0)).with_underline(true);
    assert_eq!(
        style_changes(&other, &base),
        vec![StyleChange::Size, StyleChange::LetterSpacing, StyleChange::Underline]
    );
    let tall = font(12.0).with_line_height(s(18.0));
    assert_eq!(style_changes(&tall, &base), vec![StyleChange::LineHeight(s(1.5))]);
    assert_eq!(style_defaults(&base).len(), 10);
    assert_eq!(style_defaults(&tall).len(), 11);
}

#[test]
fn ranges_count_bytes() {
    let spans = vec![
        RichSpan::new("a中".to_string(), font(12.0)),
        RichSpan::new("".to_string(), font(12.0)),
        RichSpan::new("é😀".to_string(), font(12.0)),
    ];
    assert_eq!(span_ranges(&spans), Some(vec![(0, 4), (4, 4), (4, 10)]));
}

fn raw_run(text: &str, from: usize, color: Color, x: f64) -> RawRun {
    RawRun {
        color,
        font_data: Arc::new(vec![1, 2, 3]),
        font_index: 0,
        font_size: s(12.0),
        weight: s(400.0),
        italic: false,
        glyphs: text
            .char_indices()
            .enumerate()
            .map(|(i, (o, c))| RawGlyph {
                id: i as u32 + 10,
                x: s(x + 5.0 * i as f64),
                y: s(10.0),
                advance: s(5.0),
                start: (from + o) as u32,
                end: (from + o + c.len_utf8()) as u32,
                ink: Some(rect(0.0, -8.0, 4.0, 2.0)),
            })
            .collect(),
    }
}

fn raw_line(runs: Vec<RawRun>) -> RawLine {
    RawLine {
        metrics: LineMetrics {
            ascent: s(10.0),
            descent: s(3.0),
            baseline: s(10.0),
            line_height: s(14.0),
        },
        runs,
    }
}

fn layout_of(spans: &Vec<RichSpan>, runs: Vec<RawRun>) -> TextLayout {
    let ranges = span_ranges(spans).unwrap();
    extract_lines(&vec![raw_line(runs)], s(75.0), s(14.0), spans, &ranges)
}

#[test]
fn background_only_span_does_not_leak_to_neighbours() {
    let plain = font(12.0);
    let marked = font(12.0).with_background_color(Some(Color::rgb(0xff, 0xff, 0xcc)));
    let spans = vec![
        RichSpan::new("pre ".to_string(), plain.clone()),
        RichSpan::new("marked".to_string(), marked),
        RichSpan::new(" post".to_string(), plain),
    ];
    let layout = layout_of(&spans, vec![raw_run("pre marked post", 0, Color::black(), 0.0)]);
    assert_eq!(layout.lines.len(), 1);
    let line = &layout.lines[0];
    assert!(line.runs.len() >= 3);
    let bg: Vec<_> = line.runs.iter().filter(|r| r.background_color.is_some()).collect();
    assert_eq!(bg.len(), 1);
    assert_eq!(bg[0].text, "marked");
    assert_eq!(f(bg[0].baseline_x), 20.0);
    assert!(line.runs.iter().all(|r| r.text != "pre marked post"));
    let total: usize = line.runs.iter().map(|r| r.glyphs.len()).sum();
    assert_eq!(total, 15);
}

#[test]
fn colored_ranges_keep_per_piece_text() {
    let red = TextStyle::new(Color::rgb(0xff, 0, 0), s(12.0), "sans-serif".to_string());
    let blue = TextStyle::new(Color::rgb(0, 0, 0xff), s(12.0), "sans-serif".to_string());
    let spans = vec![
        RichSpan::new("fn ".to_string(), red),
        RichSpan::new("name".to_string(), font(12.0)),
        RichSpan::new("() {}".to_string(), blue),
    ];
    let layout = layout_of(
        &spans,
        vec![
            raw_run("fn ", 0, Color::rgb(0xff, 0, 0), 0.0),
            raw_run("name", 3, Color::black(), 15.0),
            raw_run("() {}", 7, Color::rgb(0, 0, 0xff), 35.0),
        ],
    );
    let line = &layout.lines[0];
    let texts: Vec<&str> = line.runs.iter().map(|r| r.text.as_str()).collect();
    assert_eq!(texts, vec!["fn ", "name", "() {}"]);
    let total: usize = line.runs.iter().map(|r| r.glyphs.len()).sum();
    assert_eq!(total, 12);
    assert!(line.runs.iter().all(|r| r.glyphs[0].cluster == 0));
}

#[test]
fn lines_are_placed_below_each_other() {
    let link = font(12.0)
        .with_url(Some("u".to_string()))
        .with_underline(true)
        .with_baseline_shift(s(2.5));
    let spans = vec![RichSpan::new("ab\nc".to_string(), link)];
    let ranges = span_ranges(&spans).unwrap();
    let lines = vec![
        raw_line(vec![raw_run("ab", 0, Color::black(), 3.0)]),
        raw_line(vec![]),
        raw_line(vec![raw_run("c", 3, Color::black(), 0.0)]),
    ];
    let layout = extract_lines(&lines, s(20.0), s(42.0), &spans, &ranges);
    assert_eq!(layout.lines.len(), 2);
    assert_eq!(layout.lines[0].bounds, rect(3.0, 0.0, 8.0, 14.0));
    assert_eq!(f(layout.lines[1].bounds.min_y()), 28.0);
    let run = &layout.lines[0].runs[0];
    assert_eq!(run.url.as_deref(), Some("u"));
    assert_eq!(run.decoration, TextDecoration::Underline);
    assert_eq!(f(run.glyphs[0].x), 0.0);
    assert_eq!(f(run.glyphs[0].y), 7.5);
    assert_eq!(f(run.baseline_y), 7.5);
    assert_eq!(f(run.advance), 10.0);
    assert_eq!(f(layout.lines[0].ink_bounds.min_y()), 0.0);
    assert_eq!(f(layout.width), 20.0);
}

fn a_run(text: &str) -> TextRun {
    let glyphs: Vec<Glyph> = text
        .char_indices()
        .enumerate()
        .map(|(i, (o, _))| Glyph {
            id: i as u32,
            x: s(6.0 * i as f64),
            y: s(0.0),
            advance: s(6.0),
            cluster: o as u32,
        })
        .collect();
    TextRun {
        text: text.to_string(),
        font_data: Arc::new(Vec::new()),
        font_index: 0,
        font_size: s(12.0),
        font_weight_bold: false,
        font_style_italic: false,
        color: Color::black(),
        advance: s(6.0 * glyphs.len() as f64),
        glyphs,
        is_rtl: false,
        baseline_x: s(0.0),
        baseline_y: s(10.0),
        url: None,
        decoration: TextDecoration::Plain,
        baseline_shift: s(0.0),
        background_color: None,
    }
}

#[test]
fn split_at_partitions_glyphs_and_recomputes_metrics() {
    let run = a_run("abcdef");
    assert_eq!(run.glyphs.len(), 6);
    let pieces = run.split_at(&[5, 2, 2]);
    assert_eq!(pieces.len(), 3);
    let texts: Vec<&str> = pieces.iter().map(|p| p.text.as_str()).collect();
    assert_eq!(texts, vec!["ab", "cde", "f"]);
    let total: usize = pieces.iter().map(|p| p.glyphs.len()).sum();
    assert_eq!(total, 6);
    for p in &pieces {
        assert_eq!(p.glyphs[0].cluster, 0);
        let expect: f64 = p.glyphs.iter().map(|g| f(g.advance)).sum();
        assert!((f(p.advance) - expect).abs() < 1e-4);
    }
    assert!(f(pieces[0].baseline_x) <= f(pieces[1].baseline_x));
    assert!(f(pieces[1].baseline_x) <= f(pieces[2].baseline_x));
    assert_eq!(run.glyphs.len(), 6);
    assert_eq!(run.text, "abcdef");
}

#[test]
fn split_at_ignores_invalid_offsets() {
    let run = a_run("中文");
    assert_eq!(run.glyphs.len(), 2);
    let pieces = run.split_at(&[1, 3, 100]);
    let texts: Vec<&str> = pieces.iter().map(|p| p.text.as_str()).collect();
    assert_eq!(texts, vec!["中", "文"]);
    let same = run.split_at(&[0, 100]);
    assert_eq!(same.len(), 1);
    assert_eq!(same[0].text, run.text);
    assert_eq!(same[0].glyphs.len(), run.glyphs.len());
}
