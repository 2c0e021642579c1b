use std::sync::Arc;

use lievisual::geometry::{Color, Point, Rect, Transform, Vec2};
use lievisual::path::{BezPath, PathEl};
use lievisual::render::encode::{base64_encode, escape_attr, escape_text};
use lievisual::render::shapes::{arc_angles, arc_path_d, Outline};
use lievisual::render::svg::SvgRenderer;
use lievisual::render::{render_scene_ordered, RenderOp};
use lievisual::scalar::Scalar;
use lievisual::scene::{Clip, Element, Layer, ObjectFit, Scene, SceneImage, SceneNode};
use lievisual::style::{
    FillStrokeStyle, GradientStop, LinearGradient, RadialGradient, SketchFill, SketchFillStyle,
    Stroke,
};
use lievisual::text::layout::{LineMetrics, TextLayout, TextLine};
use lievisual::text::style::{
    FontStyle, FontWidth, RichSpan, TextAlign, TextBaseline, TextStyle,
};
use lievisual::text::weight::FontWeight;

fn s(x: f64) -> Scalar {
    Scalar::from_bits(x.to_bits())
}

fn f(x: Scalar) -> f64 {
    f64::from_bits(x.to_bits())
}

fn pt(x: f64, y: f64) -> Point {
    Point::new(s(x), s(y))
}

fn rect(x0: f64, y0: f64, x1: f64, y1: f64) -> Rect {
    Rect::new(s(x0), s(y0), s(x1), s(y1))
}

fn scene(w: f64, h: f64) -> Scene {
    Scene::new(s(w), s(h))
}

fn black() -> FillStrokeStyle {
    FillStrokeStyle::fill(Color::black())
}

fn font(size: f64) -> TextStyle {
    TextStyle::new(Color::black(), s(size), "sans-serif".to_string())
}

fn text(content: &str, x: f64, y: f64, style: TextStyle) -> SceneNode {
    Element::text(content.to_string(), pt(x, y), style, None).into()
}

fn kurbo_point(p: Point) -> kurbo::Point {
    kurbo::Point::new(f(p.x), f(p.y))
}

fn kurbo_path(path: &BezPath) -> kurbo::BezPath {
    let mut out = kurbo::BezPath::new();
    for el in path.elements() {
        out.push(match el {
            PathEl::MoveTo(p) => kurbo::PathEl::MoveTo(kurbo_point(*p)),
            PathEl::LineTo(p) => kurbo::PathEl::LineTo(kurbo_point(*p)),
            PathEl::QuadTo(a, p) => kurbo::PathEl::QuadTo(kurbo_point(*a), kurbo_point(*p)),
            PathEl::CurveTo(a, b, p) => {
                kurbo::PathEl::CurveTo(kurbo_point(*a), kurbo_point(*b), kurbo_point(*p))
            }
            PathEl::ClosePath => kurbo::PathEl::ClosePath,
        });
    }
    out
}

fn directions(angles: &[Scalar]) -> Vec<Vec2> {
    angles.iter().map(|a| Vec2::new(s(f(*a).cos()), s(f(*a).sin()))).collect()
}

fn outline(op: &RenderOp<'_>) -> Outline {
    Outline {
        data: op.path().map(|p| kurbo_path(&p).to_svg()).unwrap_or_default(),
        directions: directions(&op.angles()),
    }
}

fn draw(svg: &mut SvgRenderer, scene: &Scene) {
    let outlines: Vec<Outline> = render_scene_ordered(scene).iter().map(outline).collect();
    svg.render_scene(scene, &outlines);
}

fn render(scene: &Scene) -> String {
    let mut svg = SvgRenderer::new(scene.width, scene.height).with_background(scene.background);
    draw(&mut svg, scene);
    svg.into_string()
}

fn arc_d(center: Point, radii: Vec2, start: f64, sweep: f64, sector: bool) -> String {
    let angles = arc_angles(s(start), s(sweep));
    arc_path_d(center, radii, s(sweep), sector, &directions(&angles))
}

#[test]
fn scene_metadata_title_desc_scale() {
    let sc = scene(100.0, 50.0)
        .with_title("T".to_string())
        .with_description("D".to_string())
        .with_scale(s(2.0));
    let out = render(&sc);
    assert!(out.contains("<title>T</title>"));
    assert!(out.contains("<desc>D</desc>"));
    assert!(out.contains(r#"width="100.00" height="50.00" viewBox="0 0 50.00 25.00""#));
}

#[test]
fn titles_of_the_renderer_are_kept() {
    let sc = scene(10.0, 10.0).with_title("T".to_string()).with_description("D".to_string());
    let mut svg = SvgRenderer::new(s(10.0), s(10.0)).with_title("mine".to_string());
    draw(&mut svg, &sc);
    let out = svg.into_string();
    assert!(out.contains("<title>mine</title>\n<desc>D</desc>"));
}

#[test]
fn size_fallback_multiplies_scene_by_scale() {
    let sc = scene(100.0, 50.0).with_scale(s(2.0));
    let mut svg = SvgRenderer::new(s(0.0), s(0.0));
    draw(&mut svg, &sc);
    let out = svg.into_string();
    assert!(out.contains(r#"width="200.00" height="100.00" viewBox="0 0 100.00 50.00""#));
    assert!(out.contains(r##"width="100.00" height="50.00" fill="#ffffff""##));
}

#[test]
fn ellipse_rounded_rect_polygon_native_tags() {
    let mut sc = scene(200.0, 200.0);
    sc.push(Element::ellipse(pt(10.0, 10.0), Vec2::new(s(30.0), s(15.0)), s(0.0), black()).into());
    sc.push(Element::rounded_rect(rect(50.0, 50.0, 90.0, 70.0), s(5.0), black()).into());
    sc.push(Element::polygon(vec![pt(0.0, 0.0), pt(10.0, 0.0), pt(5.0, 10.0)], black()).into());
    let out = render(&sc);
    assert!(out.contains("<ellipse cx=\"10.00\" cy=\"10.00\" rx=\"30.00\" ry=\"15.00\""));
    assert!(out.contains(r#"<rect x="50.00" y="50.00" width="40.00" height="20.00" rx="5.00""#));
    assert!(out.contains("<polygon points=\"0.00,0.00 10.00,0.00 5.00,10.00\""));
}

#[test]
fn arc_and_pie_native_path() {
    let quarter = s(std::f64::consts::FRAC_PI_2);
    let mut sc = scene(100.0, 100.0);
    sc.push(
        Element::arc(
            pt(50.0, 50.0),
            Vec2::new(s(40.0), s(30.0)),
            s(0.0),
            quarter,
            Stroke::new(Color::black(), s(2.0)),
        )
        .into(),
    );
    sc.push(Element::pie(pt(50.0, 50.0), s(30.0), s(0.0), quarter, black()).into());
    let out = render(&sc);
    assert!(out.contains("A 40.00 30.00"));
    assert!(out.contains("M 50.00 50.00 L "));
    assert!(out.contains(" Z"));
    assert!(out.contains(r#"<path d="M 90.00 50.00 A 40.00 30.00 0 0 1 50.00 80.00""#));
}

#[test]
fn radial_gradient_and_dash() {
    let radial = RadialGradient {
        center: pt(50.0, 50.0),
        radius: s(20.0),
        stops: vec![
            GradientStop { offset: s(0.0), color: Color::white() },
            GradientStop { offset: s(1.0), color: Color::black() },
        ],
    };
    let mut sc = scene(100.0, 100.0);
    sc.push(
        Element::circle(
            pt(50.0, 50.0),
            s(20.0),
            FillStrokeStyle {
                fill: Some(radial.into()),
                stroke: Some(Stroke::dashed(Color::black(), s(1.0), vec![s(3.0), s(2.0)])),
            },
        )
        .into(),
    );
    let out = render(&sc);
    assert!(out.contains("<radialGradient"));
    assert!(out.contains("gradientUnits=\"userSpaceOnUse\""));
    assert!(out.contains("stroke-dasharray=\"3.00,2.00\""));
    assert!(out.contains("stroke-miterlimit=\"10.00\""));
}

#[test]
fn opacity_name_visibility() {
    let mut sc = scene(100.0, 100.0);
    sc.push_node(
        SceneNode::new(Element::rect(rect(0.0, 0.0, 10.0, 10.0), black()))
            .with_opacity(s(0.4))
            .with_name("a".to_string()),
    );
    sc.push_node(
        SceneNode::new(Element::rect(rect(20.0, 0.0, 30.0, 10.0), black())).with_visible(false),
    );
    let out = render(&sc);
    assert!(out.contains(r#"<g id="a">"#));
    assert!(out.contains(r#"<g opacity="0.400">"#));
    assert!(!out.contains(r#"x="20.00""#));
}

#[test]
fn text_escaping() {
    let mut sc = scene(100.0, 100.0);
    sc.push(text("a <b> & \"c\"", 1.0, 2.0, font(12.0)));
    assert!(render(&sc).contains("a &lt;b&gt; &amp; \"c\""));
}

#[test]
fn text_align_anchor() {
    let mut sc = scene(200.0, 100.0);
    sc.push(text("L", 10.0, 10.0, font(12.0).with_align(TextAlign::Left)));
    sc.push(text("C", 100.0, 10.0, font(12.0).with_align(TextAlign::Center)));
    sc.push(text("R", 190.0, 10.0, font(12.0).with_align(TextAlign::Right)));
    let out = render(&sc);
    assert!(out.contains(r#"text-anchor="start""#));
    assert!(out.contains(r#"text-anchor="middle""#));
    assert!(out.contains(r#"text-anchor="end""#));
}

#[test]
fn text_baseline_and_font_attrs() {
    let mut sc = scene(200.0, 100.0);
    sc.push(text(
        "b",
        10.0,
        10.0,
        font(12.0)
            .with_baseline(TextBaseline::Middle)
            .with_weight(FontWeight::Bold)
            .with_style(FontStyle::Italic)
            .with_line_height(s(18.0)),
    ));
    let out = render(&sc);
    assert!(out.contains(r#"dominant-baseline="alphabetic""#));
    assert!(out.contains(r#"font-weight="700""#));
    assert!(out.contains(r#"font-style="italic""#));
    assert!(out.contains(r#"style="line-height:18.00""#));
    assert!(out.contains(r#"<text x="10.00" y="14.20""#));
}

#[test]
fn node_and_layer_transform_matrix() {
    let mut sc = scene(100.0, 100.0);
    sc.push_node(
        SceneNode::new(Element::rect(rect(0.0, 0.0, 10.0, 10.0), black()))
            .with_transform(Transform::translate(s(5.0), s(7.0))),
    );
    sc.push_layer(
        Layer::new("l".to_string()).with_transform(Transform::translate(s(1.0), s(2.0))),
    );
    let out = render(&sc);
    assert!(out.contains(r#"matrix(1.000000 0.000000 0.000000 1.000000 5.000000 7.000000)"#));
    assert!(out.contains(r#"matrix(1.000000 0.000000 0.000000 1.000000 1.000000 2.000000)"#));
}

#[test]
fn layer_render_order_bottom_to_top() {
    let mut sc = scene(100.0, 100.0);
    sc.push(Element::rect(rect(0.0, 0.0, 10.0, 10.0), black()).into());
    sc.push_layer(Layer::new("bottom".to_string()).with_nodes(vec![SceneNode::new(
        Element::rect(rect(0.0, 0.0, 5.0, 5.0), black()),
    )]));
    sc.push_layer(Layer::new("top".to_string()).with_nodes(vec![SceneNode::new(
        Element::circle(pt(0.0, 0.0), s(1.0), black()),
    )]));
    let out = render(&sc);
    let base = out.find("width=\"10.00\"").unwrap();
    let bottom = out.find(r#"<g id="bottom">"#).unwrap();
    let top = out.find(r#"<g id="top">"#).unwrap();
    assert!(base < bottom && bottom < top);
}

#[test]
fn path_closed_vs_open() {
    let mut sc = scene(100.0, 100.0);
    sc.push(
        Element::Path {
            path: BezPath::from_vec(vec![
                PathEl::MoveTo(pt(0.0, 0.0)),
                PathEl::LineTo(pt(10.0, 0.0)),
            ]),
            style: FillStrokeStyle::stroke(Color::black(), s(1.0)),
            closed: false,
        }
        .into(),
    );
    sc.push(
        Element::Path {
            path: BezPath::from_vec(vec![
                PathEl::MoveTo(pt(20.0, 0.0)),
                PathEl::LineTo(pt(30.0, 0.0)),
                PathEl::LineTo(pt(25.0, 10.0)),
            ]),
            style: FillStrokeStyle::stroke(Color::black(), s(1.0)),
            closed: true,
        }
        .into(),
    );
    let out = render(&sc);
    assert!(out.contains(r#"d="M0,0 L10,0""#));
    assert!(out.contains(r#"d="M20,0 L30,0 L25,10 Z""#));
}

fn a_layout(width: f64, height: f64) -> Arc<TextLayout> {
    let m = LineMetrics { ascent: s(9.0), descent: s(3.0), baseline: s(9.5), line_height: s(14.0) };
    Arc::new(TextLayout {
        lines: vec![TextLine {
            runs: Vec::new(),
            bounds: rect(0.0, 0.0, width, height),
            metrics: m,
            ink_bounds: rect(0.0, 0.0, width, height),
        }],
        width: s(width),
        height: s(height),
        ink_bounds: rect(0.0, 0.0, width, height),
    })
}

#[test]
fn prelaid_text_ignores_layout_in_svg() {
    let mut sc = scene(100.0, 100.0);
    sc.push(
        Element::Text {
            spans: vec![RichSpan::new("hello".to_string(), font(12.0))],
            position: pt(1.0, 2.0),
            style: font(12.0),
            layout: Some(a_layout(31.25, 14.0)),
        }
        .into(),
    );
    let out = render(&sc);
    assert!(out.contains(">hello</text>"));
    assert!(!out.contains("path"));
}

#[test]
fn font_family_attr_is_css_normalized_and_xml_escaped() {
    let mut sc = scene(100.0, 100.0);
    let style = TextStyle::new(
        Color::black(),
        s(12.0),
        "Helvetica Neue, Rock & Roll, sans-serif".to_string(),
    );
    sc.push(text("x", 1.0, 2.0, style));
    let out = render(&sc);
    assert!(out.contains(r#"font-family="'Helvetica Neue', 'Rock &amp; Roll', sans-serif""#));
    assert!(!out.contains("&apos;"));
}

#[test]
fn text_decoration_spacing_stretch_emitted() {
    let mut sc = scene(100.0, 100.0);
    let style = font(12.0)
        .with_underline(true)
        .with_strikethrough(true)
        .with_letter_spacing(s(2.0))
        .with_font_width(FontWidth::Condensed);
    sc.push(text("x", 1.0, 2.0, style));
    let out = render(&sc);
    assert!(out.contains(r#"text-decoration="underline line-through""#));
    assert!(out.contains(r#"letter-spacing="2.00""#));
    assert!(out.contains(r#"font-stretch="75%""#));
}

#[test]
fn clip_emits_clip_path_and_wraps_subtree() {
    let mut sc = scene(100.0, 100.0);
    sc.push_node(
        SceneNode::new(Element::rect(
            rect(0.0, 0.0, 50.0, 50.0),
            FillStrokeStyle::fill(Color::rgb(0xff, 0x00, 0x00)),
        ))
        .with_clip(Clip::circle(pt(25.0, 25.0), s(10.0))),
    );
    let out = render(&sc);
    assert!(out.contains(
        r#"<clipPath id="clip0"><circle cx="25.00" cy="25.00" r="10.00"/></clipPath>"#
    ));
    assert!(out.contains(r#"<g clip-path="url(#clip0)">"#));
}

#[test]
fn all_clips_have_an_element() {
    let clips = vec![
        Clip::rect(rect(0.0, 0.0, 1.0, 2.0)),
        Clip::rounded_rect(rect(0.0, 0.0, 1.0, 2.0), s(0.5)),
        Clip::ellipse(pt(1.0, 2.0), Vec2::new(s(3.0), s(4.0)), s(0.5)),
        Clip::path(BezPath::from_vec(vec![PathEl::MoveTo(pt(1.0, 2.0))])),
    ];
    let mut sc = scene(10.0, 10.0);
    for c in clips {
        sc.push(SceneNode::group(vec![]).with_clip(c));
    }
    let out = render(&sc);
    assert!(out.contains(r#"clip0"><rect x="0.00" y="0.00" width="1.00" height="2.00"/></clip"#));
    assert!(out.contains(
        r#"clip1"><rect x="0.00" y="0.00" width="1.00" height="2.00" rx="0.50"/></clip"#
    ));
    assert!(out.contains(
        r#"clip2"><ellipse cx="1.00" cy="2.00" rx="3.00" ry="4.00" transform="rotate(28.65 1.00 2.00)" /></clip"#
    ));
    assert!(out.contains(r#"clip3"><path d="M1,2"/></clip"#));
}

#[test]
fn base64_encode_standard_vectors() {
    assert_eq!(base64_encode(b""), "");
    assert_eq!(base64_encode(b"f"), "Zg==");
    assert_eq!(base64_encode(b"fo"), "Zm8=");
    assert_eq!(base64_encode(b"foo"), "Zm9v");
    assert_eq!(base64_encode(b"foob"), "Zm9vYg==");
    assert_eq!(base64_encode(b"fooba"), "Zm9vYmE=");
    assert_eq!(base64_encode(b"foobar"), "Zm9vYmFy");
    assert_eq!(base64_encode(&[0xfb, 0xff, 0xfe]), "+//+");
}

#[test]
fn escaping_touches_only_markup() {
    assert_eq!(escape_text("a<b>&\"é"), "a&lt;b&gt;&amp;\"é");
    assert_eq!(escape_attr("a<b>&\"é"), "a&lt;b&gt;&amp;&quot;é");
}

fn test_image(w: u32, h: u32, fill: u8) -> SceneImage {
    let pixels = vec![fill; (w * h * 4) as usize];
    SceneImage::from_rgba8(w, h, pixels).unwrap()
}

#[test]
fn image_emits_data_uri_and_contain_meet() {
    let mut sc = scene(100.0, 100.0);
    sc.push(Element::image(test_image(4, 4, 255), rect(0.0, 0.0, 10.0, 20.0)).into());
    let out = render(&sc);
    assert!(out.contains(r#"href="data:image/png;base64,iVBORw0KGgo"#));
    assert!(out.contains(r#"width="10.00" height="20.00""#));
    assert!(out.contains(r#"preserveAspectRatio="xMidYMid meet""#));
}

#[test]
fn image_object_fit_none_uses_raw_pixel_size() {
    let mut sc = scene(100.0, 100.0);
    sc.push(
        Element::image(
            test_image(30, 40, 255).with_object_fit(ObjectFit::Original),
            rect(5.0, 6.0, 105.0, 106.0),
        )
        .into(),
    );
    let out = render(&sc);
    assert!(out.contains(r#"x="5.00" y="6.00" width="30.00" height="40.00""#));
    assert!(out.contains(r#"preserveAspectRatio="none""#));
}

#[test]
fn image_object_fit_fill_maps_to_none() {
    let mut sc = scene(100.0, 100.0);
    sc.push(
        Element::image(
            test_image(10, 10, 255).with_object_fit(ObjectFit::Fill),
            rect(0.0, 0.0, 10.0, 10.0),
        )
        .into(),
    );
    let out = render(&sc);
    assert!(out.contains(r#"width="10.00" height="10.00""#));
    assert!(out.contains(r#"preserveAspectRatio="none""#));
}

#[test]
fn image_respects_opacity() {
    let mut sc = scene(100.0, 100.0);
    sc.push_node(
        SceneNode::from(Element::image(test_image(10, 10, 255), rect(0.0, 0.0, 10.0, 10.0)))
            .with_opacity(s(0.5)),
    );
    assert!(render(&sc).contains(r#"opacity="0.500""#));
}

#[test]
fn text_baseline_shift_and_background_emitted() {
    let mut sc = scene(200.0, 100.0);
    sc.push(text("x²", 10.0, 50.0, font(12.0).with_baseline_shift(s(6.0))));
    let code = font(12.0).with_background_color(Some(Color::rgb(0xf0, 0xf0, 0xf0)));
    sc.push(text("code", 30.0, 50.0, code));
    let out = render(&sc);
    assert!(out.contains("baseline-shift=\"-6.00px\""));
    assert!(out.contains("<rect "));
    assert!(out.contains("fill=\"#f0f0f0\""));
}

#[test]
fn text_background_uses_layout_exact_size() {
    let style = font(12.0).with_background_color(Some(Color::rgb(0xf0, 0xf0, 0xf0)));
    let mut sc = scene(200.0, 100.0);
    sc.push(
        Element::Text {
            spans: vec![RichSpan::new("code".to_string(), style.clone())],
            position: pt(30.0, 50.0),
            style,
            layout: Some(a_layout(27.375, 14.5)),
        }
        .into(),
    );
    assert!(render(&sc).contains("width=\"27.38\" height=\"14.50\""));
}

#[test]
fn text_no_background_when_none() {
    let mut sc = scene(100.0, 100.0);
    sc.push(text("plain", 10.0, 50.0, font(12.0)));
    assert_eq!(render(&sc).matches("<rect ").count(), 1);
}

#[test]
fn text_background_uses_real_measurement() {
    let style = font(20.0).with_background_color(Some(Color::rgb(0xff, 0xff, 0x00)));
    let measured = 109.74;
    let mut sc = scene(300.0, 80.0);
    sc.push(
        Element::text(
            "Hello World".to_string(),
            pt(10.0, 40.0),
            style,
            Some(a_layout(measured, 27.24)),
        )
        .into(),
    );
    let out = render(&sc);
    let bg = out.lines().find(|l| l.contains("#ffff00")).unwrap();
    let w: f64 = bg
        .split("width=\"")
        .nth(1)
        .and_then(|t| t.split('"').next())
        .and_then(|t| t.parse().ok())
        .unwrap();
    assert!((w - measured).abs() < 0.5);
}

#[test]
fn falls_back_to_scene_size_and_background() {
    let mut sc = scene(300.0, 200.0).with_background(Color::rgb(0x00, 0x00, 0xff));
    sc.push(
        Element::rect(rect(0.0, 0.0, 10.0, 10.0), FillStrokeStyle::fill(Color::red())).into(),
    );
    let mut svg = SvgRenderer::new(s(0.0), s(0.0));
    draw(&mut svg, &sc);
    let out = svg.into_string();
    assert!(out.contains(r#"width="300.00" height="200.00" viewBox="0 0 300.00 200.00""#));
    assert!(out.contains(r##"fill="#0000ff""##));
}

#[test]
fn explicit_renderer_settings_win() {
    let sc = scene(300.0, 200.0).with_scale(s(3.0));
    let mut svg = SvgRenderer::new(s(50.0), s(40.0))
        .with_scale(s(2.0))
        .with_background(Color::green());
    draw(&mut svg, &sc);
    let out = svg.into_string();
    assert!(out.contains(r#"width="50.00" height="40.00" viewBox="0 0 25.00 20.00""#));
    assert!(out.contains(r##"fill="#00ff00""##));
    assert!(!out.contains(r#"viewBox="0 0 16.67"#));
}

#[test]
fn full_circle_arc_is_split_in_two() {
    let radii = Vec2::new(s(30.0), s(30.0));
    let d = arc_d(pt(50.0, 50.0), radii, 0.0, std::f64::consts::TAU, true);
    assert_eq!(d.matches(" A ").count(), 2);
    assert!(d.starts_with("M 50.00 50.00 L "));
    assert!(d.ends_with(" Z"));
    let open = arc_d(pt(50.0, 50.0), radii, 0.0, std::f64::consts::TAU, false);
    assert_eq!(open.matches(" A ").count(), 2);
    let normal = arc_d(pt(50.0, 50.0), radii, 0.0, std::f64::consts::FRAC_PI_2, true);
    assert_eq!(normal.matches(" A ").count(), 1);
    let back = arc_d(pt(50.0, 50.0), radii, 0.0, -4.0, false);
    assert!(back.contains("0 1 0"));
}

#[test]
fn gradient_stop_alpha_uses_stop_opacity() {
    let grad = LinearGradient {
        start: pt(0.0, 0.0),
        end: pt(100.0, 0.0),
        stops: vec![
            GradientStop { offset: s(0.0), color: Color::rgba(0xff, 0x00, 0x00, 128) },
            GradientStop { offset: s(1.0), color: Color::rgb(0x00, 0x00, 0xff) },
        ],
    };
    let mut sc = scene(100.0, 100.0);
    sc.push(
        Element::rect(
            rect(0.0, 0.0, 100.0, 100.0),
            FillStrokeStyle { fill: Some(grad.into()), stroke: None },
        )
        .into(),
    );
    let out = render(&sc);
    assert!(out.contains(r##"stop-color="#ff0000" stop-opacity="0.502""##));
    assert!(out.contains(r##"stop-color="#0000ff" />"##));
}

#[test]
fn gradient_paths_have_gradients_of_their_own() {
    let grad = || LinearGradient {
        start: pt(0.0, 0.0),
        end: pt(1.0, 0.0),
        stops: vec![GradientStop { offset: s(0.5), color: Color::black() }],
    };
    let path = || BezPath::from_vec(vec![PathEl::MoveTo(pt(0.0, 0.0)), PathEl::LineTo(pt(1.0, 2.0))]);
    let mut sc = scene(10.0, 10.0);
    sc.push(Element::GradientPath { path: path(), gradient: grad(), stroke: None }.into());
    sc.push(
        Element::GradientPath {
            path: path(),
            gradient: grad(),
            stroke: Some(Stroke::new(Color::black(), s(1.0))),
        }
        .into(),
    );
    let out = render(&sc);
    assert!(out.contains(r#"<linearGradient id="grad0""#));
    assert!(out.contains(r#"<linearGradient id="grad1""#));
    assert!(out.contains(r#"<path d="M0,0 L1,2 Z" fill="url(#grad0)" />"#));
    assert!(out.contains(r#"fill="url(#grad1)"  stroke="#));
}

#[test]
fn sketch_fills_are_patterns() {
    let f = SketchFill::new(Color::black()).with_style(SketchFillStyle::CrossHatch);
    let mut sc = scene(10.0, 10.0);
    sc.push(
        Element::rect(
            rect(0.0, 0.0, 5.0, 5.0),
            FillStrokeStyle { fill: Some(lievisual::style::Fill::Sketch(f)), stroke: None },
        )
        .into(),
    );
    let out = render(&sc);
    assert!(out.contains(
        r#"<pattern id="grad0" patternUnits="userSpaceOnUse" width="4.00" height="4.00" patternTransform="rotate(-41.00)"><path d="M 0 2.00 H 4.00 M 2.00 0 V 4.00" fill="none""#
    ));
    assert!(out.contains(r#"fill="url(#grad0)"/>"#));
}

#[test]
fn rich_text_spans_emit_tspan_with_own_style() {
    let mut sc = scene(300.0, 60.0);
    let red = TextStyle::new(Color::rgb(0xff, 0x00, 0x00), s(20.0), "sans-serif".to_string())
        .with_weight(FontWeight::Bold);
    let blue = TextStyle::new(Color::rgb(0x00, 0x00, 0xff), s(12.0), "sans-serif".to_string());
    sc.push(
        Element::rich_text(
            vec![
                RichSpan::new("red ".to_string(), red),
                RichSpan::new("blue".to_string(), blue),
            ],
            pt(10.0, 30.0),
            font(12.0),
            None,
        )
        .into(),
    );
    let out = render(&sc);
    assert!(out.contains("<tspan"));
    assert!(
        out.contains(r##"fill="#ff0000""##)
            && out.contains(r##"font-size="20.00""##)
            && out.contains(r##"font-weight="700""##)
    );
    assert!(out.contains(r##"fill="#0000ff""##));
    assert!(out.contains(">red </tspan>"));
    assert!(out.contains(">blue</tspan>"));

    let mut plain = scene(100.0, 30.0);
    plain.push(text("plain", 1.0, 2.0, font(12.0)));
    assert!(!render(&plain).contains("<tspan"));
}

#[test]
fn multiline_text_emits_line_tspans() {
    let mut sc = scene(100.0, 100.0);
    sc.push(text("line1\nline2", 5.0, 10.0, font(12.0)));
    let out = render(&sc);
    assert!(out.contains(">line1</tspan>"));
    assert!(out.contains(">line2</tspan>"));
    let lines: Vec<&str> = out.matches(r#"<tspan x="5.00" dy="#).collect();
    assert!(lines.len() >= 2);
    assert!(out.contains(
        r#"<tspan x="5.00" dy="0.00"><tspan>line1</tspan></tspan><tspan x="5.00" dy="14.40"><tspan>line2</tspan></tspan></text>"#
    ));
}

#[test]
fn blank_lines_keep_their_height() {
    let mut sc = scene(100.0, 100.0);
    sc.push(Element::text("a\n\nb\n".to_string(), pt(5.0, 9.0), font(10.0), None).into());
    assert!(render(&sc).contains(
        "><tspan x=\"5.00\" dy=\"0.00\"><tspan>a</tspan></tspan>\
         <tspan x=\"5.00\" dy=\"12.00\">&#8203;</tspan>\
         <tspan x=\"5.00\" dy=\"12.00\"><tspan>b</tspan></tspan></text>"
    ));
    let mut sc = scene(100.0, 100.0);
    sc.push(Element::text("\n\n".to_string(), pt(5.0, 9.0), font(10.0), None).into());
    assert!(render(&sc).contains("><tspan x=\"5.00\" dy=\"0.00\">&#8203;</tspan></text>"));
}

#[test]
fn spans_go_on_in_the_last_line() {
    let mut sc = scene(100.0, 100.0);
    let spans = vec![
        RichSpan::new("a\n".to_string(), font(10.0)),
        RichSpan::new("b".to_string(), font(10.0)),
    ];
    sc.push(Element::rich_text(spans, pt(5.0, 9.0), font(10.0), None).into());
    assert!(render(&sc).contains(
        "><tspan x=\"5.00\" dy=\"0.00\"><tspan>a</tspan></tspan>\
         <tspan x=\"5.00\" dy=\"12.00\"><tspan></tspan><tspan>b</tspan></tspan></text>"
    ));
}

#[test]
fn spans_without_text_have_no_lines() {
    let mut sc = scene(100.0, 100.0);
    let spans = vec![
        RichSpan::new(String::new(), font(12.0)),
        RichSpan::new(String::new(), font(20.0)),
    ];
    sc.push(Element::rich_text(spans, pt(1.0, 2.0), font(12.0), None).into());
    let out = render(&sc);
    assert!(out.contains("></text>"));
    assert!(!out.contains("tspan"));
}

#[test]
fn translucent_color_uses_fill_and_stroke_opacity() {
    let mut sc = scene(40.0, 40.0);
    sc.push(
        Element::rect(
            rect(0.0, 0.0, 40.0, 40.0),
            FillStrokeStyle {
                fill: Some(Color::rgba(0xff, 0x00, 0x00, 128).into()),
                stroke: Some(Stroke::new(Color::rgba(0x00, 0x00, 0xff, 128), s(2.0))),
            },
        )
        .into(),
    );
    let out = render(&sc);
    assert!(out.contains(r##"fill="#ff0000" fill-opacity="0.502""##));
    assert!(out.contains(r##"stroke="#0000ff" stroke-opacity="0.502""##));
    assert!(!out.contains("#ff000080") && !out.contains("#0000ff80"));
}

#[test]
fn a_whole_document() {
    let mut sc = scene(20.0, 10.0);
    sc.push(
        Element::line(pt(1.0, 2.0), pt(3.0, 4.0), Stroke::new(Color::black(), s(1.5))).into(),
    );
    assert_eq!(
        render(&sc),
        "<svg xmlns=\"http://www.w3.org/2000/svg\" width=\"20.00\" height=\"10.00\" viewBox=\"0 0 20.00 10.00\">\n\
         <rect x=\"0\" y=\"0\" width=\"20.00\" height=\"10.00\" fill=\"#ffffff\"/>\n\
         <line x1=\"1.00\" y1=\"2.00\" x2=\"3.00\" y2=\"4.00\"  fill=\"none\" stroke=\"#000000\" stroke-width=\"1.50\" stroke-miterlimit=\"10.00\" stroke-linecap=\"butt\" stroke-linejoin=\"miter\"/>\n\
         </svg>\n"
    );
}
