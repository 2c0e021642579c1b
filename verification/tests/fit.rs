use lievisual::fit::{
    arc_box, arc_extrema, element_bounds, fit_scene, node_bounds, nodes_bounds, normalized,
    points_box, scene_bounds, text_box, union_all, FitOptions, Measure, SceneMeasure,
};
use lievisual::geometry::{Color, Point, Rect, Size, Transform, Vec2};
use lievisual::path::{BezPath, PathEl};
use lievisual::scalar::Scalar;
use lievisual::scene::{Element, Layer, ObjectFit, Scene, SceneImage, SceneNode};
use lievisual::style::{FillStrokeStyle, Stroke};
use lievisual::text::style::{TextAlign, TextBaseline, TextStyle};

fn s(x: f64) -> Scalar {
    Scalar::from_bits(x.to_bits())
}

fn f(x: Scalar) -> f64 {
    f64::from_bits(x.to_bits())
}

fn pt(x: f64, y: f64) -> Point {
    Point::new(s(x), s(y))
}

fn rect(x0: f64, y0: f64, x1: f64, y1: f64) -> Rect {
    Rect::new(s(x0), s(y0), s(x1), s(y1))
}

fn corners(b: Rect) -> (f64, f64, f64, f64) {
    (f(b.min_x()), f(b.min_y()), f(b.max_x()), f(b.max_y()))
}

fn rect_node(x0: f64, y0: f64, x1: f64, y1: f64) -> SceneNode {
    SceneNode::new(Element::rect(rect(x0, y0, x1, y1), FillStrokeStyle::default()))
}

fn scene_with(nodes: Vec<SceneNode>) -> Scene {
    let mut scene = Scene::new(s(0.0), s(0.0));
    scene.nodes = nodes;
    scene
}

fn unmeasured() -> SceneMeasure {
    SceneMeasure { nodes: Vec::new(), layers: Vec::new() }
}

fn bounds(scene: &Scene) -> Option<Rect> {
    scene_bounds(scene, &unmeasured())
}

fn fitted(scene: &mut Scene, opts: FitOptions) -> bool {
    fit_scene(scene, opts, &unmeasured())
}

fn arc(center: Point, radii: Vec2, start: f64, sweep: f64) -> Rect {
    let directions: Vec<Vec2> = arc_extrema(s(start), s(sweep))
        .iter()
        .map(|a| Vec2::new(s(f(*a).cos()), s(f(*a).sin())))
        .collect();
    arc_box(center, radii, &directions)
}

#[test]
fn element_bounds_includes_stroke_half_width() {
    let el = Element::rect(
        rect(0.0, 0.0, 100.0, 100.0),
        FillStrokeStyle { fill: None, stroke: Some(Stroke::new(Color::black(), s(10.0))) },
    );
    let b = element_bounds(&el, &Measure::none()).unwrap();
    assert_eq!(corners(b), (-5.0, -5.0, 105.0, 105.0));
}

#[test]
fn line_bounds_includes_stroke_half_width() {
    let el = Element::Line {
        start: pt(0.0, 0.0),
        end: pt(100.0, 0.0),
        style: Stroke::new(Color::black(), s(20.0)),
    };
    let b = element_bounds(&el, &Measure::none()).unwrap();
    assert_eq!(f(b.min_y()), -10.0);
    assert_eq!(f(b.max_y()), 10.0);
}

#[test]
fn node_bounds_applies_transform() {
    let node =
        rect_node(0.0, 0.0, 10.0, 10.0).with_transform(Transform::translate(s(100.0), s(50.0)));
    let b = node_bounds(&node, &Measure::none()).unwrap();
    assert_eq!(corners(b), (100.0, 50.0, 110.0, 60.0));
}

#[test]
fn node_bounds_applies_rotation() {
    let (sin, cos) = std::f64::consts::FRAC_PI_2.sin_cos();
    let node = rect_node(0.0, 0.0, 10.0, 10.0).with_transform(Transform::rotate(s(sin), s(cos)));
    let b = node_bounds(&node, &Measure::none()).unwrap();
    assert!((f(b.min_x()) + 10.0).abs() < 1e-9);
    assert!((f(b.max_x())).abs() < 1e-9);
    assert!((f(b.min_y())).abs() < 1e-9);
    assert!((f(b.max_y()) - 10.0).abs() < 1e-9);
}

#[test]
fn invisible_nodes_are_skipped() {
    let node = rect_node(0.0, 0.0, 1000.0, 1000.0).with_visible(false);
    assert_eq!(node_bounds(&node, &Measure::none()), None);
    assert_eq!(nodes_bounds(&vec![node], &Vec::new()), None);
}

#[test]
fn group_bounds_unions_children() {
    let g = SceneNode::new(Element::Group {
        children: vec![rect_node(0.0, 0.0, 10.0, 10.0), rect_node(90.0, 40.0, 100.0, 50.0)],
    });
    let b = node_bounds(&g, &Measure::none()).unwrap();
    assert_eq!(corners(b), (0.0, 0.0, 100.0, 50.0));
}

#[test]
fn arc_bounds_covers_only_the_swept_range() {
    let radii = Vec2::new(s(10.0), s(10.0));
    let b = arc(pt(0.0, 0.0), radii, 0.0, std::f64::consts::FRAC_PI_2);
    assert!((f(b.min_x()) - 0.0).abs() < 1e-9);
    assert!((f(b.min_y()) - 0.0).abs() < 1e-9);
    assert!((f(b.max_x()) - 10.0).abs() < 1e-9);
    assert!((f(b.max_y()) - 10.0).abs() < 1e-9);

    let half = arc(pt(0.0, 0.0), radii, 0.0, std::f64::consts::PI);
    assert!((f(half.min_y()) - 0.0).abs() < 1e-9);
    assert!((f(half.max_y()) - 10.0).abs() < 1e-9);
}

#[test]
fn arcs_that_run_backwards_have_the_same_box() {
    let radii = Vec2::new(s(10.0), s(20.0));
    let there = arc(pt(5.0, 5.0), radii, 0.5, 2.0);
    let back = arc(pt(5.0, 5.0), radii, 2.5, -2.0);
    assert!((f(there.min_x()) - f(back.min_x())).abs() < 1e-9);
    assert!((f(there.max_y()) - f(back.max_y())).abs() < 1e-9);
    assert!((f(there.max_y()) - 25.0).abs() < 1e-9);
    assert_eq!(arc_box(pt(1.0, 2.0), radii, &Vec::new()), rect(1.0, 2.0, 1.0, 2.0));
}

#[test]
fn image_none_fit_may_overflow_frame() {
    let img = SceneImage::from_rgba8(50, 20, vec![0u8; 50 * 20 * 4])
        .unwrap()
        .with_object_fit(ObjectFit::Original);
    let el = Element::Image { image: img, frame: rect(0.0, 0.0, 10.0, 10.0), opacity: s(1.0) };
    let b = element_bounds(&el, &Measure::none()).unwrap();
    assert_eq!((f(b.max_x()), f(b.max_y())), (50.0, 20.0));
}

#[test]
fn text_bounds_follow_the_anchor() {
    let style = TextStyle::new(Color::black(), s(16.0), "sans-serif".to_string());
    let turn = Vec2::new(s(1.0), s(0.0));
    let size = Some(Size::new(s(40.0), s(20.0)));
    let b = text_box(pt(100.0, 50.0), &style, size, turn).unwrap();
    assert_eq!(corners(b), (100.0, 34.0, 140.0, 54.0));
    let style = style.with_align(TextAlign::Center).with_baseline(TextBaseline::Middle);
    let b = text_box(pt(100.0, 50.0), &style, size, turn).unwrap();
    assert_eq!(corners(b), (80.0, 40.0, 120.0, 60.0));
    let style = style.with_align(TextAlign::Right).with_baseline(TextBaseline::Bottom);
    let b = text_box(pt(100.0, 50.0), &style, size, turn).unwrap();
    assert_eq!(corners(b), (60.0, 30.0, 100.0, 50.0));
    let style = style.with_rotation(s(std::f64::consts::PI));
    let b = text_box(pt(100.0, 50.0), &style, size, Vec2::new(s(-1.0), s(0.0))).unwrap();
    assert_eq!(corners(b), (100.0, 50.0, 140.0, 70.0));
    assert_eq!(text_box(pt(0.0, 0.0), &style, None, turn), None);
    assert_eq!(text_box(pt(0.0, 0.0), &style, Some(Size::new(s(0.0), s(5.0))), turn), None);
}

#[test]
fn a_positive_baseline_shift_raises_the_box() {
    let style = TextStyle::new(Color::black(), s(12.0), "sans-serif".to_string())
        .with_baseline(TextBaseline::Top)
        .with_baseline_shift(s(6.0));
    let size = Some(Size::new(s(100.0), s(20.0)));
    let b = text_box(pt(0.0, 50.0), &style, size, Vec2::new(s(1.0), s(0.0)));
    assert_eq!(b, Some(rect(0.0, 44.0, 100.0, 64.0)));
}

#[test]
fn shapes_without_area_have_no_box() {
    let none = Measure::none();
    let fill = FillStrokeStyle::default;
    let outline = || FillStrokeStyle::stroke(Color::black(), s(2.0));
    let flat = |st| Element::rect(rect(5.0, 5.0, 9.0, 5.0), st);
    assert_eq!(element_bounds(&Element::rect(rect(5.0, 5.0, 5.0, 5.0), fill()), &none), None);
    assert_eq!(element_bounds(&flat(fill()), &none), None);
    assert_eq!(element_bounds(&flat(outline()), &none), Some(rect(4.0, 4.0, 10.0, 6.0)));
    assert_eq!(element_bounds(&Element::circle(pt(1.0, 1.0), s(0.0), fill()), &none), None);
    let line = |w| Element::line(pt(0.0, 3.0), pt(8.0, 3.0), Stroke::new(Color::black(), s(w)));
    assert_eq!(element_bounds(&line(2.0), &none), Some(rect(-1.0, 2.0, 9.0, 4.0)));
    assert_eq!(element_bounds(&line(0.0), &none), None);
    let img = SceneImage::from_rgba8(1, 1, vec![0; 4]).unwrap();
    let framed = Element::image(img, rect(0.0, 0.0, 0.0, 7.0));
    assert_eq!(element_bounds(&framed, &none), None);
}

#[test]
fn measured_boxes_are_used() {
    let mut m = Measure::none();
    m.bounds = Some(rect(1.0, 2.0, 3.0, 4.0));
    let el = Element::Path {
        path: BezPath::from_vec(vec![PathEl::MoveTo(pt(1.0, 2.0)), PathEl::LineTo(pt(3.0, 4.0))]),
        style: FillStrokeStyle::stroke(Color::black(), s(2.0)),
        closed: false,
    };
    assert_eq!(corners(element_bounds(&el, &m).unwrap()), (0.0, 1.0, 4.0, 5.0));
    assert_eq!(element_bounds(&el, &Measure::none()), None);
    let empty = Element::Path {
        path: BezPath::new(),
        style: FillStrokeStyle::stroke(Color::black(), s(2.0)),
        closed: false,
    };
    assert_eq!(element_bounds(&empty, &m), None);
}

#[test]
fn points_that_are_not_finite_do_not_count() {
    let points = vec![pt(1.0, 2.0), pt(f64::NAN, 0.0), pt(5.0, -3.0)];
    assert_eq!(corners(points_box(&points).unwrap()), (1.0, -3.0, 5.0, 2.0));
    assert_eq!(points_box(&vec![pt(f64::INFINITY, 0.0)]), None);
    assert_eq!(union_all(&Vec::new()), None);
    assert_eq!(corners(normalized(rect(5.0, 6.0, 1.0, 2.0))), (1.0, 2.0, 5.0, 6.0));
}

#[test]
fn scene_bounds_covers_layers() {
    let mut scene = scene_with(vec![rect_node(0.0, 0.0, 10.0, 10.0)]);
    let mut layer = Layer::new("overlay".to_string());
    layer.push(rect_node(100.0, 100.0, 120.0, 120.0));
    scene.push_layer(layer);
    assert_eq!(corners(bounds(&scene).unwrap()), (0.0, 0.0, 120.0, 120.0));
}

#[test]
fn empty_scene_has_no_bounds() {
    assert_eq!(bounds(&scene_with(vec![])), None);
}

#[test]
fn fit_hugs_content_with_margin() {
    let mut scene = scene_with(vec![rect_node(20.0, 30.0, 120.0, 80.0)]);
    assert!(fitted(&mut scene, FitOptions::new().with_margin(s(8.0))));
    assert_eq!(f(scene.width), 116.0);
    assert_eq!(f(scene.height), 66.0);
    let b = bounds(&scene).unwrap();
    assert!((f(b.min_x()) - 8.0).abs() < 1e-9);
    assert!((f(b.min_y()) - 8.0).abs() < 1e-9);
}

#[test]
fn fit_never_upscales_by_default() {
    let mut scene = scene_with(vec![rect_node(0.0, 0.0, 100.0, 100.0)]);
    fitted(
        &mut scene,
        FitOptions::new().with_max_width(s(800.0)).with_max_height(s(600.0)).with_margin(s(8.0)),
    );
    assert!(f(scene.width) < 200.0 && f(scene.height) < 200.0);
}

#[test]
fn fit_upscales_when_requested() {
    let mut scene = scene_with(vec![rect_node(0.0, 0.0, 100.0, 100.0)]);
    fitted(
        &mut scene,
        FitOptions::new()
            .with_max_width(s(800.0))
            .with_max_height(s(600.0))
            .with_margin(s(8.0))
            .with_upscale(true),
    );
    assert!(f(scene.width) > 500.0 && f(scene.height) > 500.0);
}

#[test]
fn fit_single_axis_constraint_keeps_aspect() {
    let mut scene = scene_with(vec![rect_node(0.0, 0.0, 100.0, 100.0)]);
    fitted(
        &mut scene,
        FitOptions::new().with_max_width(s(500.0)).with_margin(s(8.0)).with_upscale(true),
    );
    assert!((f(scene.width) - 500.0).abs() < 1.0);
    assert!((f(scene.height) - 500.0).abs() < 1.0);

    let mut scene = scene_with(vec![rect_node(0.0, 0.0, 100.0, 100.0)]);
    fitted(
        &mut scene,
        FitOptions::new().with_max_height(s(500.0)).with_margin(s(8.0)).with_upscale(true),
    );
    assert!((f(scene.height) - 500.0).abs() < 1.0);
    assert!((f(scene.width) - 500.0).abs() < 1.0);
}

#[test]
fn fit_uses_uniform_scale() {
    let mut scene = scene_with(vec![rect_node(0.0, 0.0, 200.0, 100.0)]);
    fitted(
        &mut scene,
        FitOptions::new()
            .with_max_width(s(1000.0))
            .with_max_height(s(300.0))
            .with_margin(s(0.0))
            .with_upscale(true),
    );
    assert!((f(scene.width) - 600.0).abs() < 1e-6);
    assert!((f(scene.height) - 300.0).abs() < 1e-6);
}

#[test]
fn fit_tiny_constraint_keeps_positive_canvas() {
    let mut scene = scene_with(vec![rect_node(0.0, 0.0, 100.0, 100.0)]);
    fitted(
        &mut scene,
        FitOptions::new().with_max_width(s(4.0)).with_max_height(s(4.0)).with_margin(s(8.0)),
    );
    assert!(f(scene.width) > 0.0 && f(scene.height) > 0.0);
    assert!(f(scene.width).is_finite() && f(scene.height).is_finite());
}

#[test]
fn fit_empty_scene_uses_empty_size() {
    let mut scene = scene_with(vec![]);
    assert!(fitted(
        &mut scene,
        FitOptions::new().with_empty_size(Size::new(s(800.0), s(600.0)))
    ));
    assert_eq!((f(scene.width), f(scene.height)), (800.0, 600.0));

    let mut scene = Scene::new(s(123.0), s(456.0));
    assert!(!fitted(&mut scene, FitOptions::new()));
    assert_eq!((f(scene.width), f(scene.height)), (123.0, 456.0));
}

#[test]
fn fit_skips_wrapping_when_already_placed() {
    let mut scene = scene_with(vec![rect_node(0.0, 0.0, 100.0, 50.0)]);
    fitted(&mut scene, FitOptions::new());
    assert_eq!(scene.nodes.len(), 1);
    assert!(matches!(scene.nodes[0].element, Element::Rect { .. }));
    assert_eq!((f(scene.width), f(scene.height)), (100.0, 50.0));
}

#[test]
fn fit_moves_layers_together_with_nodes() {
    let mut scene = scene_with(vec![rect_node(1000.0, 1000.0, 1100.0, 1050.0)]);
    let mut layer = Layer::new("overlay".to_string());
    layer.push(rect_node(1000.0, 1000.0, 1100.0, 1050.0));
    scene.push_layer(layer);
    fitted(&mut scene, FitOptions::new().with_margin(s(5.0)));
    let b = bounds(&scene).unwrap();
    assert!((f(b.min_x()) - 5.0).abs() < 1e-6);
    assert!((f(b.min_y()) - 5.0).abs() < 1e-6);
    assert!((f(b.width()) - 100.0).abs() < 1e-6);
    assert!((f(b.height()) - 50.0).abs() < 1e-6);
}

#[test]
fn fit_composes_onto_existing_layer_transform() {
    let mut scene = Scene::new(s(0.0), s(0.0));
    let mut layer = Layer::new("shifted".to_string())
        .with_transform(Transform::translate(s(1000.0), s(0.0)));
    layer.push(rect_node(0.0, 0.0, 100.0, 50.0));
    scene.push_layer(layer);
    fitted(&mut scene, FitOptions::new().with_margin(s(5.0)));
    let b = bounds(&scene).unwrap();
    assert!((f(b.min_x()) - 5.0).abs() < 1e-6);
    assert!((f(b.min_y()) - 5.0).abs() < 1e-6);
}

#[test]
fn fit_scales_before_it_moves() {
    let mut scene = scene_with(vec![rect_node(100.0, 200.0, 300.0, 400.0)]);
    fitted(&mut scene, FitOptions::new().with_max_width(s(100.0)).with_max_height(s(100.0)));
    assert_eq!((f(scene.width), f(scene.height)), (100.0, 100.0));
    let b = bounds(&scene).unwrap();
    assert_eq!(corners(b), (0.0, 0.0, 100.0, 100.0));
}

#[test]
fn content_without_a_margin_starts_at_the_origin() {
    let mut scene = scene_with(vec![rect_node(0.1, -7.3, 33.7, 91.9)]);
    fitted(&mut scene, FitOptions::new().with_max_width(s(10.0)));
    let b = bounds(&scene).unwrap();
    assert_eq!((f(b.min_x()), f(b.min_y())), (0.0, 0.0));
}

#[test]
fn a_scaled_layer_is_scaled_after_its_own_transform() {
    let mut layer = Layer::new("l".to_string())
        .with_transform(Transform::translate(s(100.0), s(0.0)));
    layer.push(rect_node(0.0, 0.0, 40.0, 40.0));
    let mut scene = scene_with(Vec::new());
    scene.push_layer(layer);
    fitted(&mut scene, FitOptions::new().with_max_width(s(20.0)));
    let b = bounds(&scene).unwrap();
    assert_eq!(corners(b), (0.0, 0.0, 20.0, 20.0));
}
