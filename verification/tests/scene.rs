use std::sync::Arc;

use lievisual::geometry::{Color, Point, Rect, Transform, Vec2};
use lievisual::path::{BezPath, PathEl};
use lievisual::pixmap::Pixmap;
use lievisual::render::{render_scene_ordered, RenderOp};
use lievisual::scalar::Scalar;
use lievisual::scene::{Clip, Element, Layer, ObjectFit, Scene, SceneImage, SceneNode};
use lievisual::style::{Fill, FillStrokeStyle, GradientStop, RadialGradient, Stroke};
use lievisual::text::layout::{LineMetrics, TextLayout, TextLine};
use lievisual::text::style::{RichSpan, TextStyle};

fn s(x: f64) -> Scalar {
    Scalar::from_bits(x.to_bits())
}

fn f(x: Scalar) -> f64 {
    f64::from_bits(x.to_bits())
}

fn pt(x: f64, y: f64) -> Point {
    Point::new(s(x), s(y))
}

fn rect(x0: f64, y0: f64, x1: f64, y1: f64) -> Rect {
    Rect::new(s(x0), s(y0), s(x1), s(y1))
}

fn black() -> FillStrokeStyle {
    FillStrokeStyle::fill(Color::black())
}

fn font() -> TextStyle {
    TextStyle::new(Color::black(), s(12.0), "sans-serif".to_string())
}

fn rect_node(x: f64, z: i32) -> SceneNode {
    SceneNode::new(Element::rect(rect(x, 0.0, x + 1.0, 1.0), black())).with_z(z)
}

fn rect_x(node: &SceneNode) -> f64 {
    match &node.element {
        Element::Rect { rect, .. } => f(rect.min_x()),
        _ => panic!("expected rect"),
    }
}

fn a_layout() -> Arc<TextLayout> {
    let m = LineMetrics { ascent: s(9.0), descent: s(3.0), baseline: s(9.0), line_height: s(14.0) };
    Arc::new(TextLayout {
        lines: vec![TextLine {
            runs: Vec::new(),
            bounds: rect(0.0, 0.0, 10.0, 14.0),
            metrics: m,
            ink_bounds: rect(0.0, 0.0, 10.0, 14.0),
        }],
        width: s(10.0),
        height: s(14.0),
        ink_bounds: rect(0.0, 0.0, 10.0, 14.0),
    })
}

#[test]
fn push_accepts_element_and_scene_node() {
    let mut scene = Scene::new(s(100.0), s(100.0));
    scene.push(SceneNode::from(Element::rect(rect(0.0, 0.0, 1.0, 1.0), black())));
    scene.push(SceneNode::new(Element::rect(rect(0.0, 0.0, 1.0, 1.0), black())));
    assert_eq!(scene.nodes.len(), 2);
}

#[test]
fn builder_chaining() {
    let node = SceneNode::new(Element::circle(
        pt(1.0, 2.0),
        s(3.0),
        FillStrokeStyle::stroke(Color::black(), s(1.0)),
    ))
    .with_z(7)
    .with_transform(Transform::translate(s(1.0), s(2.0)))
    .with_opacity(s(0.5))
    .with_name("node-a".to_string())
    .with_visible(false);
    assert_eq!(node.z_index, 7);
    assert_eq!(node.transform, Some(Transform::translate(s(1.0), s(2.0))));
    assert_eq!(node.opacity, s(0.5));
    assert_eq!(node.name.as_deref(), Some("node-a"));
    assert!(!node.visible);
}

#[test]
fn node_defaults() {
    let node = SceneNode::new(Element::rect(rect(0.0, 0.0, 1.0, 1.0), black()));
    assert_eq!(node.opacity, s(1.0));
    assert!(node.name.is_none());
    assert!(node.visible);
}

#[test]
fn from_element_conversion() {
    let node: SceneNode =
        Element::line(pt(0.0, 0.0), pt(1.0, 1.0), Stroke::new(Color::black(), s(1.0))).into();
    assert_eq!(node.z_index, 0);
    assert!(node.transform.is_none());
}

#[test]
fn element_constructors() {
    let line = Stroke::new(Color::black(), s(1.0));
    let quarter = s(std::f64::consts::FRAC_PI_2);
    assert!(matches!(Element::rect(rect(0.0, 0.0, 10.0, 10.0), black()), Element::Rect { .. }));
    assert!(matches!(Element::circle(pt(1.0, 2.0), s(3.0), black()), Element::Circle { .. }));
    let e = Element::ellipse(pt(1.0, 2.0), Vec2::new(s(4.0), s(2.0)), s(0.1), black());
    assert!(matches!(e, Element::Ellipse { .. }));
    let rr = Element::rounded_rect(rect(0.0, 0.0, 10.0, 10.0), s(3.0), black());
    assert!(matches!(rr, Element::RoundedRect { .. }));
    let l = Element::line(pt(0.0, 0.0), pt(1.0, 1.0), line.clone());
    assert!(matches!(l, Element::Line { .. }));
    let p = Element::poly(vec![pt(0.0, 0.0), pt(1.0, 1.0)], line.clone());
    assert!(matches!(p, Element::Polyline { .. }));
    let pg = Element::polygon(vec![pt(0.0, 0.0), pt(1.0, 1.0), pt(0.0, 1.0)], black());
    assert!(matches!(pg, Element::Polygon { .. }));
    let a = Element::arc(pt(0.0, 0.0), Vec2::new(s(5.0), s(5.0)), s(0.0), quarter, line);
    assert!(matches!(a, Element::Arc { .. }));
    let pie = Element::pie(pt(0.0, 0.0), s(5.0), s(0.0), quarter, black());
    assert!(matches!(pie, Element::Pie { .. }));

    match Element::text("hi".to_string(), pt(0.0, 0.0), font(), Some(a_layout())) {
        Element::Text { spans, position, style, layout } => {
            assert_eq!(spans.len(), 1);
            assert_eq!(spans[0].text, "hi");
            assert_eq!(position, pt(0.0, 0.0));
            assert_eq!(style.font_size, s(12.0));
            let l = layout.unwrap();
            assert!(!l.lines.is_empty());
            assert!(f(l.width) > 0.0 && f(l.height) > 0.0);
        }
        _ => panic!("expected text"),
    }
    match Element::text(String::new(), pt(0.0, 0.0), font(), Some(a_layout())) {
        Element::Text { layout, .. } => assert!(layout.is_none()),
        _ => panic!("expected text"),
    }
}

#[test]
fn element_text_prelayouts() {
    match Element::text("Hello".to_string(), pt(0.0, 0.0), font(), Some(a_layout())) {
        Element::Text { layout: Some(l), .. } => {
            assert!(!l.lines.is_empty());
            assert!(f(l.width) > 0.0);
        }
        _ => panic!("expected Text"),
    }
    match Element::text(String::new(), pt(0.0, 0.0), font(), Some(a_layout())) {
        Element::Text { layout, .. } => assert!(layout.is_none()),
        _ => panic!("expected Text"),
    }
    let spans = vec![RichSpan::new("ab".to_string(), font())];
    match Element::rich_text(spans, pt(0.0, 0.0), font(), Some(a_layout())) {
        Element::Text { layout: Some(l), .. } => assert!(!l.lines.is_empty()),
        _ => panic!("expected Text"),
    }
    match Element::rich_text(vec![], pt(0.0, 0.0), font(), Some(a_layout())) {
        Element::Text { layout, .. } => assert!(layout.is_none()),
        _ => panic!("expected Text"),
    }
}

#[test]
fn stroke_dash_and_miter_defaults() {
    let st = Stroke::new(Color::black(), s(2.0));
    assert!(st.dash_array.is_empty());
    assert_eq!(st.dash_offset, s(0.0));
    assert_eq!(st.miter_limit, s(10.0));
    let d = Stroke::dashed(Color::black(), s(2.0), vec![s(4.0), s(2.0)]);
    assert_eq!(d.dash_array, vec![s(4.0), s(2.0)]);
}

#[test]
fn radial_gradient_into_fill() {
    let g = RadialGradient {
        center: pt(0.0, 0.0),
        radius: s(10.0),
        stops: vec![
            GradientStop { offset: s(0.0), color: Color::black() },
            GradientStop { offset: s(1.0), color: Color::white() },
        ],
    };
    let style = FillStrokeStyle::fill_gradient(g.into());
    assert!(matches!(style.fill, Some(Fill::RadialGradient(_))));
}

#[test]
fn clip_constructors() {
    let c = Clip::circle(pt(1.0, 2.0), s(5.0));
    assert!(matches!(c, Clip::Circle { radius, .. } if radius == s(5.0)));
    assert!(matches!(Clip::rect(rect(0.0, 0.0, 10.0, 20.0)), Clip::Rect(_)));
    let rr = Clip::rounded_rect(rect(0.0, 0.0, 10.0, 10.0), s(2.0));
    assert!(matches!(rr, Clip::RoundedRect { .. }));
    let e = Clip::ellipse(pt(0.0, 0.0), Vec2::new(s(3.0), s(4.0)), s(0.0));
    assert!(matches!(e, Clip::Ellipse { .. }));
    let bp = BezPath::from_vec(vec![PathEl::MoveTo(pt(0.0, 0.0)), PathEl::LineTo(pt(1.0, 0.0))]);
    assert!(matches!(Clip::path(bp), Clip::Path(_)));
}

#[test]
fn scene_node_clip_builder() {
    let node = rect_node(0.0, 0).with_clip(Clip::circle(pt(5.0, 5.0), s(3.0)));
    assert!(node.clip.is_some());
    assert!(rect_node(0.0, 0).clip.is_none());
}

#[test]
fn iter_ordered_sorts_z_ascending() {
    let mut scene = Scene::new(s(100.0), s(100.0));
    scene.push_node(rect_node(0.0, 5));
    scene.push_node(rect_node(0.0, -3));
    scene.push_node(rect_node(0.0, 1));
    let zs: Vec<i32> = scene.iter_ordered().iter().map(|i| scene.nodes[*i].z_index).collect();
    assert_eq!(zs, vec![-3, 1, 5]);
}

#[test]
fn ordered_is_stable_within_same_z() {
    let nodes = vec![rect_node(10.0, 0), rect_node(20.0, 0), rect_node(30.0, 0)];
    let xs: Vec<f64> = SceneNode::ordered(&nodes).iter().map(|i| rect_x(&nodes[*i])).collect();
    assert_eq!(xs, vec![10.0, 20.0, 30.0]);
}

#[test]
fn layer_iter_ordered_sorts_within_layer() {
    let layer = Layer::new("l".to_string()).with_nodes(vec![
        rect_node(0.0, 5),
        rect_node(0.0, -2),
        rect_node(0.0, 1),
    ]);
    let zs: Vec<i32> = layer.iter_ordered().iter().map(|i| layer.nodes[*i].z_index).collect();
    assert_eq!(zs, vec![-2, 1, 5]);
}

#[test]
fn scene_metadata_defaults_and_builders() {
    let scene = Scene::new(s(10.0), s(20.0))
        .with_title("图表".to_string())
        .with_description("示例".to_string())
        .with_scale(s(2.0));
    assert_eq!(scene.title.as_deref(), Some("图表"));
    assert_eq!(scene.description.as_deref(), Some("示例"));
    assert_eq!(scene.scale, s(2.0));
    assert_eq!(Scene::default().scale, s(1.0));
}

#[test]
fn scene_node_group_and_push_group() {
    let group = SceneNode::group(vec![rect_node(0.0, 0), rect_node(0.0, 1)]);
    match &group.element {
        Element::Group { children } => assert_eq!(children.len(), 2),
        _ => panic!("expected group"),
    }
    let mut scene = Scene::new(s(10.0), s(10.0));
    scene.push_group(vec![rect_node(0.0, 0)]);
    assert!(matches!(&scene.nodes[0].element, Element::Group { .. }));
}

#[test]
fn scene_push_layer_and_lookup() {
    let mut scene = Scene::new(s(100.0), s(100.0));
    scene.push_layer(Layer::new("grid".to_string()));
    scene.push_layer(Layer::new("data".to_string()).with_nodes(vec![rect_node(0.0, 0)]));
    assert_eq!(scene.layers().len(), 2);
    assert!(scene.layer("data").is_some());
    assert!(scene.layer("missing").is_none());
    scene.layer_mut("grid").unwrap().visible = false;
    assert!(!scene.layers[0].visible);
}

#[test]
fn scene_default_has_empty_layers() {
    assert!(Scene::new(s(10.0), s(10.0)).layers.is_empty());
}

#[test]
fn layer_defaults_and_builders() {
    let layer = Layer::new("data".to_string()).with_nodes(vec![rect_node(0.0, 1)]);
    assert_eq!(layer.name, "data");
    assert!(layer.visible);
    assert_eq!(layer.opacity, s(1.0));
    assert!(layer.transform.is_none());
    assert_eq!(layer.nodes.len(), 1);

    let l2 = Layer::new("x".to_string())
        .with_visible(false)
        .with_opacity(s(0.5))
        .with_transform(Transform::translate(s(1.0), s(2.0)));
    assert!(!l2.visible);
    assert_eq!(l2.opacity, s(0.5));
    assert_eq!(l2.transform, Some(Transform::translate(s(1.0), s(2.0))));
}

fn img(w: u32, h: u32) -> SceneImage {
    let px = vec![0u8; (w * h * 4) as usize];
    SceneImage::from_rgba8(w, h, px).unwrap()
}

#[test]
fn preserve_aspect_ratio_mapping() {
    let base = img(10, 10);
    assert_eq!(base.preserve_aspect_ratio(), "xMidYMid meet");
    assert_eq!(
        base.clone().with_object_fit(ObjectFit::Cover).preserve_aspect_ratio(),
        "xMidYMid slice"
    );
    assert_eq!(base.clone().with_object_fit(ObjectFit::Fill).preserve_aspect_ratio(), "none");
    assert_eq!(base.clone().with_object_fit(ObjectFit::Original).preserve_aspect_ratio(), "none");
}

#[test]
fn default_object_fit_is_contain() {
    assert_eq!(img(1, 1).object_fit, ObjectFit::Contain);
}

#[test]
fn from_rgba8_validates_dimensions() {
    assert!(SceneImage::from_rgba8(4, 4, vec![0u8; 64]).is_some());
    assert!(SceneImage::from_rgba8(4, 4, vec![0u8; 63]).is_none());
}

#[test]
fn from_png_roundtrips() {
    let pm = Pixmap::from_rgba8(2, 2, vec![255u8; 16]).unwrap();
    let png = pm.to_png();
    let img = SceneImage::from_png(&png).expect("a valid file");
    assert_eq!(img.width(), 2);
    assert_eq!(img.height(), 2);
    assert_eq!(img.pixmap.pixels(), pm.pixels());
}

#[test]
fn image_element_constructs() {
    match &Element::image(img(4, 4), rect(0.0, 0.0, 10.0, 10.0)) {
        Element::Image { image, frame, opacity } => {
            assert_eq!(image.width(), 4);
            assert_eq!(image.height(), 4);
            assert_eq!(frame.width(), s(10.0));
            assert_eq!(*opacity, s(1.0));
        }
        _ => panic!("expected image"),
    }
}

fn kinds(scene: &Scene) -> Vec<&'static str> {
    render_scene_ordered(scene)
        .iter()
        .map(|op| match op {
            RenderOp::PushTransform(_) => "+t",
            RenderOp::PopTransform => "-t",
            RenderOp::PushClip(_) => "+c",
            RenderOp::PopClip => "-c",
            RenderOp::PushOpacity(_) => "+o",
            RenderOp::PopOpacity => "-o",
            RenderOp::PushName(_) => "+n",
            RenderOp::PopName => "-n",
            RenderOp::Draw(_) => "draw",
        })
        .collect()
}

#[test]
fn scopes_nest_and_close() {
    let mut scene = Scene::new(s(10.0), s(10.0));
    scene.push(
        SceneNode::group(vec![
            rect_node(0.0, 1).with_name("n".to_string()),
            rect_node(0.0, 0),
            rect_node(0.0, 0).with_visible(false),
        ])
        .with_transform(Transform::identity())
        .with_clip(Clip::rect(rect(0.0, 0.0, 1.0, 1.0)))
        .with_opacity(s(0.5)),
    );
    scene.push_layer(Layer::new("l".to_string()).with_nodes(vec![rect_node(0.0, 0)]));
    scene.push_layer(Layer::new("h".to_string()).with_visible(false));
    assert_eq!(
        kinds(&scene),
        vec!["+t", "+c", "+o", "draw", "+n", "draw", "-n", "-o", "-c", "-t", "+n", "draw", "-n"]
    );
}
