use lievisual::builder::Ctx;
use lievisual::geometry::{Color, Point, Rect, Vec2};
use lievisual::path::{BezPath, PathEl};
use lievisual::path2d::{plan_arc, Path2D};
use lievisual::scalar::Scalar;
use lievisual::scene::{Clip, Element, ObjectFit, Scene, SceneImage};
use lievisual::style::{Fill, GradientStop, LineCap, LineJoin, LinearGradient, Stroke};
use lievisual::text::style::{RichSpan, TextAlign, TextBaseline, TextStyle};

fn s(x: f64) -> Scalar {
    Scalar::from_bits(x.to_bits())
}

fn f(x: Scalar) -> f64 {
    f64::from_bits(x.to_bits())
}

fn pt(x: f64, y: f64) -> Point {
    Point::new(s(x), s(y))
}

fn rect(x0: f64, y0: f64, x1: f64, y1: f64) -> Rect {
    Rect::new(s(x0), s(y0), s(x1), s(y1))
}

fn font(color: Color, size: f64) -> TextStyle {
    TextStyle::new(color, s(size), "sans-serif".to_string())
}

fn default_ctx() -> Ctx {
    Ctx::new().with_fill(Color::rgb(0x33, 0x66, 0x99))
}

fn dir(angle: f64) -> Vec2 {
    Vec2::new(s(angle.cos()), s(angle.sin()))
}

#[test]
fn fill_text_anchors_and_color() {
    let ctx = default_ctx().with_font(font(Color::rgb(0xff, 0, 0), 24.0));
    match ctx.fill_text(s(50.0), s(50.0), "Hi".to_string(), None).element {
        Element::Text { spans, position, style, layout } => {
            assert_eq!(spans.len(), 1);
            assert_eq!(spans[0].text, "Hi");
            assert_eq!(spans[0].style.color, Color::rgb(0xff, 0, 0));
            assert_eq!(position, pt(50.0, 50.0));
            assert_eq!(style.font_size, s(24.0));
            if let Some(l) = layout {
                assert!(!l.lines.is_empty());
            }
        }
        _ => panic!("expected Text"),
    }
}

#[test]
fn text_color_independent_of_shape_fill() {
    let ctx = default_ctx().with_text_color(Color::rgb(0xff, 0, 0));
    match ctx.fill_text(s(0.0), s(0.0), "x".to_string(), None).element {
        Element::Text { spans, .. } => assert_eq!(spans[0].style.color, Color::rgb(0xff, 0, 0)),
        _ => panic!("expected Text"),
    }
    match ctx.fill_rect(s(0.0), s(0.0), s(1.0), s(1.0)).element {
        Element::Rect { style, .. } => {
            assert_eq!(style.fill, Some(Fill::Solid(Color::rgb(0x33, 0x66, 0x99))));
        }
        _ => panic!("expected Rect"),
    }
}

#[test]
fn rect_builders() {
    let ctx = default_ctx();
    match ctx.fill_rect(s(10.0), s(20.0), s(30.0), s(40.0)).element {
        Element::Rect { rect: r, style } => {
            assert_eq!(r, rect(10.0, 20.0, 40.0, 60.0));
            assert!(style.fill.is_some() && style.stroke.is_none());
        }
        _ => panic!("expected Rect"),
    }
    let ctx = Ctx::new().with_stroke(Stroke::new(Color::black(), s(2.0)));
    match ctx.stroke_rect(s(0.0), s(0.0), s(5.0), s(5.0)).element {
        Element::Rect { rect: r, style } => {
            assert_eq!(r, rect(0.0, 0.0, 5.0, 5.0));
            assert_eq!(style.stroke.as_ref().unwrap().width, s(2.0));
            assert!(style.fill.is_none());
        }
        _ => panic!("expected Rect"),
    }
}

#[test]
fn shape_builders() {
    let ctx = Ctx::new()
        .with_fill(Color::black())
        .with_stroke(Stroke::new(Color::black(), s(1.0)));
    assert!(matches!(
        ctx.line(s(0.0), s(0.0), s(1.0), s(1.0)).element,
        Element::Line { .. }
    ));
    assert!(matches!(
        ctx.polyline(&[(s(0.0), s(0.0)), (s(1.0), s(1.0)), (s(2.0), s(0.0))]).element,
        Element::Polyline { .. }
    ));
    assert!(matches!(
        ctx.polygon(&[(s(0.0), s(0.0)), (s(1.0), s(1.0)), (s(0.0), s(1.0))]).element,
        Element::Polygon { .. }
    ));
    assert!(matches!(
        ctx.fill_circle(s(0.0), s(0.0), s(5.0)).element,
        Element::Circle { .. }
    ));
    assert!(matches!(
        ctx.fill_ellipse(s(0.0), s(0.0), s(4.0), s(2.0), s(0.0)).element,
        Element::Ellipse { .. }
    ));
}

#[test]
fn path_builder() {
    let ctx = Ctx::new()
        .with_fill(Color::black())
        .with_stroke(Stroke::new(Color::black(), s(1.0)));
    let mut p = Path2D::new();
    p.move_to(s(0.0), s(0.0));
    p.line_to(s(1.0), s(0.0));
    p.line_to(s(1.0), s(1.0));
    p.close_path();
    match ctx.path(p.into_bezpath(), true).element {
        Element::Path { style, closed, path } => {
            assert!(closed);
            assert!(style.fill.is_some() && style.stroke.is_some());
            assert!(!path.is_empty());
        }
        _ => panic!("expected Path"),
    }
}

#[test]
fn elements_are_pushable() {
    let ctx = default_ctx();
    let mut scene = Scene::new(s(100.0), s(100.0));
    scene.push(ctx.fill_rect(s(0.0), s(0.0), s(10.0), s(10.0)));
    scene.push(ctx.fill_text(s(5.0), s(5.0), "ok".to_string(), None));
    assert_eq!(scene.nodes.len(), 2);
}

#[test]
fn path2d_fill_and_stroke_are_independent() {
    let ctx = Ctx::new()
        .with_fill(Color::red())
        .with_stroke(Stroke::new(Color::black(), s(2.0)));
    let mut p = Path2D::new();
    p.move_to(s(0.0), s(0.0));
    p.line_to(s(10.0), s(0.0));
    p.line_to(s(10.0), s(10.0));
    match &ctx.fill(&p).element {
        Element::Path { style, .. } => {
            assert!(style.fill.is_some());
            assert!(style.stroke.is_none());
        }
        _ => panic!("expected Path"),
    }
    match &ctx.stroke(&p).element {
        Element::Path { style, .. } => {
            assert!(style.fill.is_none());
            assert_eq!(style.stroke.as_ref().unwrap().width, s(2.0));
        }
        _ => panic!("expected Path"),
    }
    match &ctx.fill_stroke_path(&p).element {
        Element::Path { style, .. } => {
            assert!(style.fill.is_some() && style.stroke.is_some());
        }
        _ => panic!("expected Path"),
    }
}

#[test]
fn path2d_accumulates_segments() {
    let mut p = Path2D::new();
    p.move_to(s(0.0), s(0.0));
    p.line_to(s(10.0), s(0.0));
    p.quad_to(s(15.0), s(5.0), s(10.0), s(10.0));
    p.curve_to(s(5.0), s(15.0), s(0.0), s(15.0), s(0.0), s(10.0));
    p.close_path();
    assert!(p.is_closed());
    let els = p.as_bezpath().elements();
    assert!(els.iter().any(|e| matches!(e, PathEl::CurveTo(_, _, _))));
    assert!(els.iter().any(|e| matches!(e, PathEl::QuadTo(_, _))));
    assert!(els.iter().any(|e| matches!(e, PathEl::ClosePath)));
}

#[test]
fn path2d_line_to_on_empty_path_starts_subpath() {
    let mut p = Path2D::new();
    p.line_to(s(5.0), s(5.0));
    assert!(!p.as_bezpath().elements().is_empty());
    p.hline_to(s(10.0));
    p.vline_to(s(0.0));
    let els = p.as_bezpath().elements();
    assert_eq!(els.len(), 3);
    assert_eq!(els[0], PathEl::MoveTo(pt(5.0, 5.0)));
    assert_eq!(els[1], PathEl::LineTo(pt(10.0, 5.0)));
    assert_eq!(els[2], PathEl::LineTo(pt(10.0, 0.0)));
}

#[test]
fn path2d_arc_generates_bezier_segments() {
    let mut p = Path2D::new();
    let radii = Vec2::new(s(10.0), s(10.0));
    let plan = plan_arc(radii, s(0.0), s(std::f64::consts::FRAC_PI_2));
    let directions: Vec<Vec2> = plan.angles.iter().map(|a| dir(f(*a))).collect();
    p.ellipse(pt(0.0, 0.0), radii, dir(0.0), s(f(plan.quarter).tan()), &directions);
    let els = p.as_bezpath().elements().to_vec();
    assert!(els.iter().any(|e| matches!(e, PathEl::CurveTo(_, _, _))));
    let last = els.iter().rev().find_map(|e| match e {
        PathEl::CurveTo(_, _, p) | PathEl::LineTo(p) => Some(*p),
        _ => None,
    });
    let last = last.unwrap();
    assert!(f(last.x).abs() < 1e-9 && (f(last.y) - 10.0).abs() < 1e-9);
    assert_eq!(els.len(), 2);
}

#[test]
fn arcs_without_extent_add_nothing() {
    let radii = Vec2::new(s(10.0), s(10.0));
    assert!(plan_arc(radii, s(1.0), s(1.0)).angles.is_empty());
    assert!(plan_arc(radii, s(0.0), s(f64::INFINITY)).angles.is_empty());
    assert!(plan_arc(Vec2::new(s(f64::NAN), s(1.0)), s(0.0), s(1.0)).angles.is_empty());
    assert_eq!(plan_arc(radii, s(0.0), s(std::f64::consts::TAU)).angles.len(), 5);
    let mut p = Path2D::new();
    p.ellipse(pt(0.0, 0.0), radii, dir(0.0), s(0.0), &Vec::new());
    assert!(p.as_bezpath().is_empty());
}

#[test]
fn paths_are_moved_when_they_are_added() {
    let mut a = Path2D::new();
    a.rect(s(0.0), s(0.0), s(2.0), s(3.0));
    let mut b = Path2D::new();
    b.add_path(&a, Some(lievisual::geometry::Transform::translate(s(10.0), s(20.0))));
    let els = b.as_bezpath().elements();
    assert_eq!(els.len(), 5);
    assert_eq!(els[0], PathEl::MoveTo(pt(10.0, 20.0)));
    assert_eq!(els[2], PathEl::LineTo(pt(12.0, 23.0)));
    assert_eq!(els[4], PathEl::ClosePath);
    assert!(!b.is_closed());
    let c = Path2D::from_bezpath(b.into_bezpath());
    assert!(c.is_closed());
}

#[test]
fn node_attributes_are_applied() {
    let ctx = Ctx::new()
        .with_fill(Color::black())
        .with_alpha(s(0.5))
        .with_name("box".to_string())
        .with_z(3)
        .with_clip(Clip::rect(rect(0.0, 0.0, 10.0, 10.0)));
    let n = ctx.fill_rect(s(0.0), s(0.0), s(5.0), s(5.0));
    assert_eq!(n.opacity, s(0.5));
    assert_eq!(n.name.as_deref(), Some("box"));
    assert_eq!(n.z_index, 3);
    assert!(n.clip.is_some());
    assert!(n.transform.is_none());

    let n = ctx
        .clone()
        .translate(s(10.0), s(20.0))
        .fill_rect(s(0.0), s(0.0), s(5.0), s(5.0));
    let t = n.transform.unwrap();
    assert_eq!(t.apply_point(pt(1.0, 1.0)), pt(11.0, 21.0));
}

#[test]
fn transforms_compose() {
    let ctx = Ctx::new().translate(s(10.0), s(0.0)).scale(s(2.0));
    let t = ctx.fill_rect(s(0.0), s(0.0), s(1.0), s(1.0)).transform.unwrap();
    assert_eq!(t.apply_point(pt(1.0, 1.0)), pt(12.0, 2.0));
}

#[test]
fn fine_grained_stroke_settings() {
    let ctx = Ctx::new()
        .with_stroke(Stroke::new(Color::red(), s(3.0)))
        .with_line_cap(LineCap::Round)
        .with_line_join(LineJoin::Bevel)
        .with_miter_limit(s(4.0))
        .with_dash(vec![s(2.0), s(1.0)], s(0.5));

    let st = ctx.stroke.clone().unwrap();
    assert_eq!(st.color, Color::red());
    assert_eq!(st.width, s(3.0));
    assert_eq!(st.line_cap, LineCap::Round);
    assert_eq!(st.line_join, LineJoin::Bevel);
    assert_eq!(st.miter_limit, s(4.0));
    assert_eq!(st.dash_array, vec![s(2.0), s(1.0)]);
    assert_eq!(st.dash_offset, s(0.5));

    let s2 = ctx.with_line_width(s(7.0)).stroke.unwrap();
    assert_eq!(s2.width, s(7.0));
    assert_eq!(s2.color, Color::red());
    assert_eq!(s2.line_cap, LineCap::Round);

    let s3 = Ctx::new()
        .with_fill(Color::blue())
        .with_line_width(s(2.0))
        .stroke
        .unwrap();
    assert_eq!(s3.color, Color::blue());
    assert_eq!(s3.width, s(2.0));
}

fn red_gradient() -> LinearGradient {
    LinearGradient {
        start: pt(0.0, 0.0),
        end: pt(100.0, 0.0),
        stops: vec![GradientStop { offset: s(0.0), color: Color::red() }],
    }
}

#[test]
fn gradient_fill() {
    let ctx = Ctx::new().with_fill_gradient(Fill::LinearGradient(red_gradient()));
    match ctx.fill_rect(s(0.0), s(0.0), s(10.0), s(10.0)).element {
        Element::Rect { style, .. } => {
            assert!(matches!(style.fill, Some(Fill::LinearGradient(_))));
        }
        _ => panic!("expected Rect"),
    }
    let st = Ctx::new()
        .with_fill_gradient(Fill::LinearGradient(red_gradient()))
        .with_line_width(s(1.0))
        .stroke
        .unwrap();
    assert_eq!(st.color, Color::red());
}

#[test]
fn rich_text_spans_keep_their_styles() {
    let ctx = Ctx::new().with_font(font(Color::black(), 12.0));
    let spans = vec![
        RichSpan::new("bold ".to_string(), font(Color::red(), 20.0)),
        RichSpan::new("plain".to_string(), font(Color::blue(), 12.0)),
    ];
    match ctx.fill_rich_text(s(0.0), s(0.0), spans, None).element {
        Element::Text { spans, .. } => {
            assert_eq!(spans.len(), 2);
            assert_eq!(spans[0].style.color, Color::red());
            assert_eq!(spans[0].style.font_size, s(20.0));
            assert_eq!(spans[1].style.color, Color::blue());
        }
        _ => panic!("expected Text"),
    }
}

#[test]
fn draw_image_builders() {
    let img = SceneImage::from_rgba8(4, 2, vec![0u8; 4 * 2 * 4]).unwrap();
    let ctx = Ctx::new();
    match ctx.draw_image(img.clone(), s(1.0), s(2.0), s(100.0), s(50.0)).element {
        Element::Image { frame, .. } => {
            assert_eq!(frame, rect(1.0, 2.0, 101.0, 52.0));
        }
        _ => panic!("expected Image"),
    }
    match ctx.draw_image_at_size(img, s(1.0), s(2.0)).element {
        Element::Image { frame, .. } => {
            assert_eq!(frame, rect(1.0, 2.0, 5.0, 4.0));
        }
        _ => panic!("expected Image"),
    }
}

#[test]
fn image_opacity_follows_alpha() {
    let img = SceneImage::from_rgba8(1, 1, vec![0u8; 4]).unwrap();
    let node = Ctx::new().with_alpha(s(0.4)).draw_image_at_size(img, s(0.0), s(0.0));
    assert_eq!(node.opacity, s(0.4));
    match node.element {
        Element::Image { opacity, .. } => assert!((f(opacity) - 0.4).abs() < 1e-9),
        _ => panic!("expected Image"),
    }
}

#[test]
fn group_carries_context_attributes() {
    let ctx = Ctx::new().with_alpha(s(0.5)).translate(s(1.0), s(1.0));
    let child = ctx.fill_rect(s(0.0), s(0.0), s(1.0), s(1.0));
    let g = ctx.group(vec![child]);
    assert_eq!(g.opacity, s(0.5));
    assert!(g.transform.is_some());
    match g.element {
        Element::Group { children } => assert_eq!(children.len(), 1),
        _ => panic!("expected Group"),
    }
}

#[test]
fn layer_accepts_ctx_output() {
    let ctx = Ctx::new().with_fill(Color::black());
    let mut layer = ctx.clone().with_alpha(s(0.5)).layer("grid".to_string());
    layer.push(ctx.fill_rect(s(0.0), s(0.0), s(1.0), s(1.0)));
    assert_eq!(layer.nodes.len(), 1);
    assert_eq!(layer.name, "grid");
    assert_eq!(layer.opacity, s(0.5));
}

#[test]
fn pie_and_arc_helpers() {
    let ctx = Ctx::new()
        .with_fill(Color::red())
        .with_stroke(Stroke::new(Color::black(), s(1.0)));
    let quarter = s(std::f64::consts::FRAC_PI_2);
    match ctx.pie(s(5.0), s(5.0), s(10.0), s(0.0), quarter).element {
        Element::Pie { center, radius, .. } => {
            assert_eq!(center, pt(5.0, 5.0));
            assert_eq!(radius, s(10.0));
        }
        _ => panic!("expected Pie"),
    }
    match ctx.arc(s(5.0), s(5.0), s(10.0), s(20.0), s(0.0), quarter).element {
        Element::Arc { center, radii, .. } => {
            assert_eq!(center, pt(5.0, 5.0));
            assert_eq!(radii, Vec2::new(s(10.0), s(20.0)));
        }
        _ => panic!("expected Arc"),
    }
}

#[test]
fn round_rect_helper() {
    let ctx = Ctx::new().with_fill(Color::black());
    match ctx.round_rect(s(1.0), s(2.0), s(3.0), s(4.0), s(0.5)).element {
        Element::RoundedRect { rect: r, radius, .. } => {
            assert_eq!(r, rect(1.0, 2.0, 4.0, 6.0));
            assert_eq!(radius, s(0.5));
        }
        _ => panic!("expected RoundedRect"),
    }
}

#[test]
fn without_fill_or_stroke() {
    let ctx = Ctx::new()
        .with_fill(Color::red())
        .with_stroke(Stroke::new(Color::blue(), s(2.0)));
    match ctx
        .clone()
        .without_fill()
        .fill_stroke_rect(s(0.0), s(0.0), s(1.0), s(1.0))
        .element
    {
        Element::Rect { style, .. } => {
            assert!(style.fill.is_none() && style.stroke.is_some())
        }
        _ => panic!("expected Rect"),
    }
    match ctx
        .without_stroke()
        .fill_stroke_rect(s(0.0), s(0.0), s(1.0), s(1.0))
        .element
    {
        Element::Rect { style, .. } => {
            assert!(style.fill.is_some() && style.stroke.is_none())
        }
        _ => panic!("expected Rect"),
    }
}

#[test]
fn object_fit_is_orthogonal() {
    let img = SceneImage::from_rgba8(1, 1, vec![0u8; 4])
        .unwrap()
        .with_object_fit(ObjectFit::Cover);
    match Ctx::new().draw_image_at_size(img, s(0.0), s(0.0)).element {
        Element::Image { image, .. } => assert_eq!(image.object_fit, ObjectFit::Cover),
        _ => panic!("expected Image"),
    }
}

#[test]
fn text_is_anchored_and_wrapped_as_asked() {
    let ctx = default_ctx()
        .with_text_align(TextAlign::Right)
        .with_text_baseline(TextBaseline::Top)
        .with_max_width(s(40.0));
    assert_eq!(ctx.font.align, TextAlign::Right);
    assert_eq!(ctx.font.baseline, TextBaseline::Top);
    assert_eq!(ctx.font.max_width, Some(s(40.0)));
    assert_eq!(ctx.clone().without_max_width().font.max_width, None);
    match ctx.fill_text_max_width(s(1.0), s(2.0), "x".to_string(), s(9.0), None).element {
        Element::Text { style, spans, position, .. } => {
            assert_eq!(style.max_width, Some(s(9.0)));
            assert_eq!(spans[0].style.max_width, Some(s(9.0)));
            assert_eq!(position, pt(1.0, 2.0));
        }
        _ => panic!("expected Text"),
    }
}

#[test]
fn lines_keep_what_is_not_set() {
    let ctx = default_ctx().with_line_cap(LineCap::Round).with_line(Color::red(), s(3.0));
    let pen = ctx.stroke.as_ref().unwrap();
    assert_eq!((pen.color, pen.width, pen.line_cap), (Color::red(), s(3.0), LineCap::Round));
    match ctx.stroke_circle(s(1.0), s(2.0), s(3.0)).element {
        Element::Circle { center, radius, style } => {
            assert_eq!((center, radius), (pt(1.0, 2.0), s(3.0)));
            assert!(style.fill.is_none());
            assert_eq!(style.stroke, ctx.stroke);
        }
        _ => panic!("expected Circle"),
    }
}

#[test]
fn gradients_paint_paths() {
    let gradient = LinearGradient { start: pt(0.0, 0.0), end: pt(1.0, 0.0), stops: Vec::new() };
    let path = BezPath::from_vec(vec![PathEl::MoveTo(pt(0.0, 0.0)), PathEl::LineTo(pt(1.0, 1.0))]);
    match default_ctx().gradient_path(path, gradient).element {
        Element::GradientPath { path, gradient, stroke } => {
            assert_eq!(path.elements().len(), 2);
            assert_eq!(gradient.end, pt(1.0, 0.0));
            assert!(stroke.is_none());
        }
        _ => panic!("expected GradientPath"),
    }
}

#[test]
fn cubic_curves_start_where_none_was_begun() {
    let mut path = Path2D::new();
    path.bezier_curve_to(s(1.0), s(2.0), s(3.0), s(4.0), s(5.0), s(6.0));
    let node = default_ctx().fill(&path);
    match node.element {
        Element::Path { path, .. } => assert_eq!(
            path.elements(),
            &[
                PathEl::MoveTo(pt(1.0, 2.0)),
                PathEl::CurveTo(pt(1.0, 2.0), pt(3.0, 4.0), pt(5.0, 6.0)),
            ]
        ),
        _ => panic!("expected Path"),
    }
    assert!(matches!(default_ctx().fill(&path.clone()).element, Element::Path { .. }));
    assert!(matches!(
        default_ctx().fill(&Path2D::default()).element,
        Element::Path { path, .. } if path.elements().is_empty()
    ));
}
