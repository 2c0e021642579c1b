use lievisual::fit::{element_bounds, fit_scene, scene_bounds, FitOptions, Measure, SceneMeasure};
use lievisual::geometry::{Color, Point, Rect, Transform, Vec2};
use lievisual::path::{BezPath, PathEl};
use lievisual::render::render_scene_ordered;
use lievisual::render::shapes::Outline;
use lievisual::render::svg::SvgRenderer;
use lievisual::scalar::Scalar;
use lievisual::scene::{Clip, Element, Layer, Scene, SceneNode};
use lievisual::sketch::damping::NEARLY_LONG_BITS;
use lievisual::sketch::fill::{dots, index_range, is_stroke_style, stroke_angles, strokes, HARD_CAP};
use lievisual::sketch::options::{SketchKind, SketchKinds, SketchOptions};
use lievisual::sketch::pass::{refit_options, visit, Trace, Verdict, Visit};
use lievisual::sketch::rng::Rng;
use lievisual::sketch::rough::{
    arc_radicand, arc_sample_angles, dampening, ellipse_sweep, flatten_points, polyline,
    rect_points, rounded_outline, sample_arc, sample_count, CurveSample,
};
use lievisual::sketch::walk::{roughen_scene, roughen_scene_if, sketch_element};
use lievisual::style::{
    Fill, FillStrokeStyle, GradientStop, LinearGradient, SketchFill, SketchFillStyle, Stroke,
};
use lievisual::text::style::TextStyle;

fn s(x: f64) -> Scalar {
    Scalar::from_bits(x.to_bits())
}

fn f(x: Scalar) -> f64 {
    f64::from_bits(x.to_bits())
}

fn pt(x: f64, y: f64) -> Point {
    Point::new(s(x), s(y))
}

fn rect(x0: f64, y0: f64, x1: f64, y1: f64) -> Rect {
    Rect::new(s(x0), s(y0), s(x1), s(y1))
}

fn dir(angle: f64) -> Vec2 {
    Vec2::new(s(angle.cos()), s(angle.sin()))
}

fn lens(points: &[Point]) -> Vec<Scalar> {
    let n = points.len();
    (0..n)
        .map(|i| {
            let (a, b) = (points[i], points[(i + 1) % n]);
            s((f(b.x) - f(a.x)).hypot(f(b.y) - f(a.y)))
        })
        .collect()
}

fn draw(rng: &mut Rng, points: &[Point], closed: bool, opts: &SketchOptions) -> BezPath {
    let mut path = BezPath::new();
    polyline(rng, &mut path, &points.to_vec(), &lens(points), closed, opts);
    path
}

fn arc_points(trace: &Trace, step: Scalar) -> Vec<Point> {
    match trace {
        Trace::Arc { center, radii, rotation, start, sweep, lead, .. } => {
            let root = s(f(arc_radicand(*radii)).sqrt());
            let angles = arc_sample_angles(*radii, root, *start, *sweep, step);
            let directions: Vec<Vec2> = angles.iter().map(|a| dir(f(*a))).collect();
            let mut points: Vec<Point> = lead.iter().copied().collect();
            points.extend(sample_arc(*center, *radii, dir(f(*rotation)), &directions));
            points
        }
        _ => panic!("expected an arc"),
    }
}

fn kurbo_point(p: Point) -> kurbo::Point {
    kurbo::Point::new(f(p.x), f(p.y))
}

fn kurbo_path(path: &BezPath) -> kurbo::BezPath {
    let mut out = kurbo::BezPath::new();
    for el in path.elements() {
        out.push(match el {
            PathEl::MoveTo(p) => kurbo::PathEl::MoveTo(kurbo_point(*p)),
            PathEl::LineTo(p) => kurbo::PathEl::LineTo(kurbo_point(*p)),
            PathEl::QuadTo(a, p) => kurbo::PathEl::QuadTo(kurbo_point(*a), kurbo_point(*p)),
            PathEl::CurveTo(a, b, p) => {
                kurbo::PathEl::CurveTo(kurbo_point(*a), kurbo_point(*b), kurbo_point(*p))
            }
            PathEl::ClosePath => kurbo::PathEl::ClosePath,
        });
    }
    out
}

fn samples(path: &kurbo::BezPath, step: Scalar) -> Vec<CurveSample> {
    path.segments()
        .map(|seg| {
            let p0 = kurbo::ParamCurve::eval(&seg, 0.0);
            let cubic = seg.to_cubic();
            let n = sample_count(s(kurbo::ParamCurveArclen::arclen(&cubic, 0.5)), step);
            CurveSample {
                start: pt(p0.x, p0.y),
                points: (1..=n)
                    .map(|i| {
                        let p = kurbo::ParamCurve::eval(&cubic, i as f64 / n as f64);
                        pt(p.x, p.y)
                    })
                    .collect(),
            }
        })
        .collect()
}

fn parts_of(trace: &Trace, opts: &SketchOptions) -> Vec<Vec<Point>> {
    match trace {
        Trace::Nothing => Vec::new(),
        Trace::Points { points, .. } => vec![points.clone()],
        Trace::Arc { .. } => vec![arc_points(trace, opts.curve_step)],
        Trace::Rounded { rect, radius } => {
            let shape = kurbo::RoundedRect::new(
                f(rect.x0),
                f(rect.y0),
                f(rect.x1),
                f(rect.y1),
                f(*radius),
            );
            let path = kurbo::Shape::to_path(&shape, 0.1);
            let all = flatten_points(&samples(&path, opts.curve_step));
            vec![all.into_iter().next().unwrap_or_default()]
        }
        Trace::Path { path, .. } => flatten_points(&samples(&kurbo_path(path), opts.curve_step)),
    }
}

fn turn(opts: &SketchOptions) -> Vec2 {
    dir(f(opts.fill_angle).to_radians())
}

fn none(_: &Element) -> Measure {
    Measure::none()
}

fn clock() -> (u64, u32) {
    (0, 0)
}

fn distance(a: Point, b: Point) -> Scalar {
    s((f(b.x) - f(a.x)).hypot(f(b.y) - f(a.y)))
}

fn sketch(el: &Element, rng: &mut Rng, opts: &SketchOptions) -> Vec<Element> {
    let sample = |t: &Trace| parts_of(t, opts);
    sketch_element(el, rng, turn(opts), &none, &sample, &distance, opts)
}

fn verdict(node: &SceneNode, filter: &dyn Fn(&SceneNode) -> bool) -> Verdict {
    let children = match &node.element {
        Element::Group { children } => children.iter().map(|c| verdict(c, filter)).collect(),
        _ => Vec::new(),
    };
    Verdict { accepted: filter(node), children }
}

fn roughen_if(scene: &mut Scene, opts: &SketchOptions, filter: &dyn Fn(&SceneNode) -> bool) {
    let nodes: Vec<Verdict> = scene.nodes.iter().map(|n| verdict(n, filter)).collect();
    let layers: Vec<Vec<Verdict>> = scene
        .layers
        .iter()
        .map(|l| l.nodes.iter().map(|n| verdict(n, filter)).collect())
        .collect();
    let sample = |t: &Trace| parts_of(t, opts);
    let way = turn(opts);
    roughen_scene_if(scene, &nodes, &layers, &clock, way, &none, &sample, &distance, opts);
}

fn roughen(scene: &mut Scene, opts: &SketchOptions) {
    let sample = |t: &Trace| parts_of(t, opts);
    roughen_scene(scene, &clock, turn(opts), &none, &sample, &distance, opts);
}

fn with_bounds(el: &Element) -> Measure {
    let mut m = Measure::none();
    if let Element::Path { path, .. } = el {
        let b = kurbo::Shape::bounding_box(&kurbo_path(path));
        m.bounds = Some(rect(b.x0, b.y0, b.x1, b.y1));
    }
    if let Element::Group { children } = el {
        m.children = children.iter().map(|c| with_bounds(&c.element)).collect();
    }
    m
}

fn measured(scene: &Scene) -> SceneMeasure {
    SceneMeasure {
        nodes: scene.nodes.iter().map(|n| with_bounds(&n.element)).collect(),
        layers: Vec::new(),
    }
}

fn opts() -> SketchOptions {
    SketchOptions::new().with_seed(1)
}

fn hachure() -> SketchOptions {
    SketchOptions::new().with_fill(SketchFillStyle::Hachure)
}

fn stroked(r: Rect) -> SceneNode {
    Element::rect(r, FillStrokeStyle::stroke(Color::black(), s(1.0))).into()
}

fn scene_with(nodes: Vec<SceneNode>) -> Scene {
    let mut scene = Scene::new(s(400.0), s(300.0));
    scene.nodes = nodes;
    scene
}

fn colored_rect() -> Element {
    Element::rect(
        rect(0.0, 0.0, 100.0, 50.0),
        FillStrokeStyle {
            fill: Some(Fill::Solid(Color::rgb(0x33, 0x66, 0x99))),
            stroke: Some(Stroke::new(Color::black(), s(2.0))),
        },
    )
}

// Numbers.

#[test]
fn same_seed_yields_identical_stream() {
    let mut a = Rng::new(42);
    let mut b = Rng::new(42);
    let va: Vec<f64> = (0..32).map(|_| f(a.next_f64())).collect();
    let vb: Vec<f64> = (0..32).map(|_| f(b.next_f64())).collect();
    assert_eq!(va, vb);
}

#[test]
fn the_generator_is_mulberry32() {
    let mut rng = Rng::new(42);
    let mut state: u32 = 42;
    for _ in 0..100 {
        state = state.wrapping_add(0x6d2b79f5);
        let mut t = (state ^ (state >> 15)).wrapping_mul(state | 1);
        t ^= t.wrapping_add((t ^ (t >> 7)).wrapping_mul(t | 61));
        assert_eq!(rng.next_u32(), t ^ (t >> 14));
    }
    assert_eq!(Rng::new(0x92d4860c).next_u32(), 63);
    let mut high = Rng::new(42 + (1 << 40));
    assert_eq!(high.next_u32(), Rng::new(42).next_u32());
}

#[test]
fn different_seeds_diverge() {
    let mut a = Rng::new(1);
    let mut b = Rng::new(2);
    let n = (0..16).filter(|_| (f(a.next_f64()) - f(b.next_f64())).abs() > 0.1).count();
    assert!(n > 4);
}

#[test]
fn output_stays_in_unit_range() {
    let mut r = Rng::new(7);
    for _ in 0..10_000 {
        let v = f(r.next_f64());
        assert!((0.0..1.0).contains(&v));
    }
}

#[test]
fn range_respects_bounds() {
    let mut r = Rng::new(9);
    for _ in 0..1000 {
        let v = f(r.range(s(-3.0), s(5.0)));
        assert!((-3.0..5.0).contains(&v));
    }
}

#[test]
fn zero_roughness_means_no_jitter() {
    let mut r = Rng::new(3);
    for _ in 0..100 {
        assert_eq!(f(r.offset(s(2.0), s(0.0), s(1.0))), 0.0);
    }
}

fn nanos() -> u64 {
    std::time::SystemTime::now()
        .duration_since(std::time::UNIX_EPOCH)
        .map(|d| d.as_nanos() as u64)
        .unwrap_or(0x9e37_79b9)
}

#[test]
fn entropy_seeds_differ_within_one_process() {
    let mut a = Rng::from_entropy(nanos(), 0);
    let mut b = Rng::from_entropy(nanos(), 1);
    assert_ne!(a.next_u32(), b.next_u32());
    assert_ne!(Rng::from_entropy(7, 4).state, Rng::from_entropy(7, 5).state);
}

// Options.

#[test]
fn defaults_are_stable() {
    let o = SketchOptions::default();
    assert_eq!(f(o.roughness), 0.7);
    assert_eq!(f(o.bowing), 0.5);
    assert!(o.multistroke);
    assert!(o.fill.is_none());
    assert_eq!(o.kinds, SketchKinds::all());
    assert!(o.seed.is_none());
}

#[test]
fn streams_that_meet_once_part_again() {
    let mut a = Rng::new(0x12d4_060a);
    let mut b = Rng::new(0x12d4_060b);
    assert_eq!(a.next_u32(), 0x3f80_fe00);
    assert_eq!(b.next_u32(), 0x3f80_fe00);
    assert_ne!(a.next_u32(), b.next_u32());
}

#[test]
fn kinds_bitmask_roundtrips() {
    let k = SketchKinds::none()
        .with(SketchKind::Rect)
        .with(SketchKind::Circle)
        .without(SketchKind::Rect);
    assert!(!k.contains(SketchKind::Rect));
    assert!(k.contains(SketchKind::Circle));
    assert!(!k.is_empty());
    assert!(SketchKinds::none().is_empty());
    assert_eq!(
        SketchKinds::only(&[SketchKind::Pie]),
        SketchKinds::none().with(SketchKind::Pie)
    );
}

#[test]
fn sets_with_the_same_kinds_are_equal() {
    let kinds = [SketchKind::Circle, SketchKind::Pie];
    let left = SketchKinds::none()
        .with(SketchKind::Rect)
        .with(SketchKind::Circle)
        .without(SketchKind::Rect);
    assert_eq!(left, SketchKinds::only(&kinds[..1]));
    assert_eq!(SketchKinds::only(&kinds).bits, 0b1_0000_0100);
    assert_eq!(SketchKinds::only(&[]), SketchKinds::none());
}

fn a_text() -> Element {
    Element::text(
        "x".to_string(),
        pt(0.0, 0.0),
        TextStyle::new(Color::black(), s(12.0), "sans-serif".to_string()),
        None,
    )
}

#[test]
fn text_and_image_have_no_kind() {
    assert_eq!(SketchKind::of(&a_text()), None);
}

fn svg_of_plain_shapes(scene: &Scene) -> String {
    let outlines: Vec<Outline> = render_scene_ordered(scene)
        .iter()
        .map(|_| Outline { data: String::new(), directions: Vec::new() })
        .collect();
    let mut svg = SvgRenderer::new(s(120.0), s(80.0));
    svg.render_scene(scene, &outlines);
    svg.into_string()
}

#[test]
fn untouched_scene_renders_identically() {
    let mut b = Scene::new(s(120.0), s(80.0));
    b.push(SceneNode::new(Element::rect(
        rect(10.0, 10.0, 100.0, 60.0),
        FillStrokeStyle {
            fill: Some(Fill::Solid(Color::rgb(0xee, 0xee, 0xff))),
            stroke: Some(Stroke::new(Color::black(), s(1.5))),
        },
    )));
    let mut a = b.clone();
    roughen(&mut a, &opts().with_kinds(SketchKinds::none()));
    assert_eq!(svg_of_plain_shapes(&a), svg_of_plain_shapes(&b));
}

#[test]
fn arc_y_down_matches_svg_geometry() {
    let half_pi = std::f64::consts::FRAC_PI_2;
    let cases = [
        (300.0, 320.0, 70.0, 70.0, 0.0, half_pi),
        (300.0, 320.0, 70.0, 70.0, half_pi, half_pi),
        (300.0, 320.0, 70.0, 70.0, std::f64::consts::PI, -half_pi),
        (100.0, 100.0, 40.0, 20.0, 0.4, 2.7),
    ];
    for (x, y, rx, ry, start, sweep) in cases {
        let arc = kurbo::Arc::new((x, -y), (rx, ry), -start, -sweep, 0.0);
        let mut path = kurbo::Shape::to_path(&arc, 0.1);
        path.apply_affine(kurbo::Affine::new([1.0, 0.0, 0.0, -1.0, 0.0, 0.0]));
        let points: Vec<kurbo::Point> =
            path.elements().iter().filter_map(|el| el.end_point()).collect();
        assert!(points.len() >= 2, "arc path should have at least 2 points");
        let ends = sample_arc(
            pt(x, y),
            Vec2::new(s(rx), s(ry)),
            dir(0.0),
            &vec![dir(start), dir(start + sweep)],
        );
        for (got, expected) in [(points[0], ends[0]), (points[points.len() - 1], ends[1])] {
            assert!((got.x - f(expected.x)).abs() < 1e-6, "{got:?} {expected:?}");
            assert!((got.y - f(expected.y)).abs() < 1e-6, "{got:?} {expected:?}");
        }
    }
}

#[test]
fn no_kinds_leave_the_scene_as_it_is() {
    let mut scene = scene_with(vec![colored_rect().into()]);
    roughen(&mut scene, &opts().with_kinds(SketchKinds::none()));
    assert!(matches!(scene.nodes[0].element, Element::Rect { .. }));
}

#[test]
fn options_are_held_in_range() {
    let o = SketchOptions::new()
        .with_roughness(s(-1.0))
        .with_curve_step(s(0.1))
        .with_min_fill_area(s(-5.0))
        .with_max_fill_strokes(0)
        .with_bowing(s(2.5))
        .with_fill_gap(s(7.0));
    assert_eq!((f(o.bowing), f(o.fill_gap)), (2.5, 7.0));
    assert_eq!(f(o.roughness), 0.0);
    assert_eq!(f(o.curve_step), 0.5);
    assert_eq!(o.min_fill_area, Some(s(0.0)));
    assert_eq!(o.max_fill_strokes, 1);
}

// Outlines.

#[test]
fn dampening_dips_below_two_fifths_before_500() {
    let near = f64::from_bits(NEARLY_LONG_BITS);
    assert_eq!(f(dampening(s(near))), 0.4);
    assert!(f(dampening(s(f64::from_bits(NEARLY_LONG_BITS + 1)))) < 0.4);
    assert_eq!(f(dampening(s(500.0))), 0.399_933_999_999_999_9);
    assert_eq!(f(dampening(s(500.1))), 0.4);
    assert_eq!(f(dampening(s(f64::INFINITY))), 0.4);
    assert_eq!(f(dampening(s(-3.0))), 1.0);
    let mut last = 1.0;
    for i in 0..=4999 {
        let d = f(dampening(s(i as f64 / 10.0)));
        assert!(d <= last && d >= 0.4);
        last = d;
    }
}

#[test]
fn dampening_is_monotonic_and_bounded() {
    assert_eq!(f(dampening(s(10.0))), 1.0);
    assert_eq!(f(dampening(s(5000.0))), 0.4);
    assert!(f(dampening(s(350.0))) > 0.4 && f(dampening(s(350.0))) < 1.0);
    assert!(f(dampening(s(200.0))) >= f(dampening(s(400.0))));
    assert_eq!(f(dampening(s(350.0))), -0.001_666_8 * 350.0 + 1.233_334);
}

#[test]
fn same_seed_produces_identical_paths() {
    let points = [pt(0.0, 0.0), pt(100.0, 0.0), pt(100.0, 60.0), pt(0.0, 60.0)];
    let a = draw(&mut Rng::new(42), &points, true, &opts());
    let b = draw(&mut Rng::new(42), &points, true, &opts());
    assert_eq!(a.elements(), b.elements());
    assert!(!a.elements().is_empty());
}

#[test]
fn different_seeds_produce_different_paths() {
    let points = [pt(0.0, 0.0), pt(120.0, 40.0)];
    let a = draw(&mut Rng::new(1), &points, false, &opts());
    let b = draw(&mut Rng::new(2), &points, false, &opts());
    assert_ne!(a.elements(), b.elements());
}

#[test]
fn zero_roughness_reproduces_the_input_geometry() {
    let o = opts().with_roughness(s(0.0));
    let p = draw(&mut Rng::new(5), &[pt(0.0, 0.0), pt(10.0, 0.0)], false, &o);
    for el in p.elements() {
        if let PathEl::MoveTo(q) | PathEl::LineTo(q) | PathEl::CurveTo(_, _, q) = el {
            assert!(f(q.y).abs() < 1e-9);
        }
    }
}

fn moves(p: &BezPath) -> usize {
    p.elements().iter().filter(|el| matches!(el, PathEl::MoveTo(_))).count()
}

#[test]
fn multistroke_doubles_the_subpath_count() {
    let points = [pt(0.0, 0.0), pt(50.0, 0.0)];
    let one = draw(&mut Rng::new(3), &points, false, &opts().with_multistroke(false));
    let two = draw(&mut Rng::new(3), &points, false, &opts());
    assert_eq!(moves(&one), 1);
    assert_eq!(moves(&two), 2);
}

#[test]
fn closed_shapes_overshoot_the_starting_corner() {
    let o = opts().with_multistroke(false);
    let square = rect_points(rect(0.0, 0.0, 40.0, 40.0));
    let closed = draw(&mut Rng::new(8), &square, true, &o);
    let open = draw(&mut Rng::new(8), &square, false, &o);
    assert!(closed.elements().len() > open.elements().len());
    assert_eq!(open.elements().len(), 1 + 2 * 3);
    assert_eq!(closed.elements().len(), 1 + 2 * 5);
}

#[test]
fn flatten_keeps_subpaths_separate() {
    let mut p = kurbo::BezPath::new();
    p.move_to((0.0, 0.0));
    p.line_to((10.0, 0.0));
    p.move_to((20.0, 0.0));
    p.line_to((30.0, 0.0));
    let subs = flatten_points(&samples(&p, s(4.0)));
    assert_eq!(subs.len(), 2);
    assert_eq!(f(subs[0].first().unwrap().x), 0.0);
    assert_eq!(f(subs[1].first().unwrap().x), 20.0);
    assert_eq!(subs[0].len(), 4);
}

#[test]
fn ellipse_is_drawn_as_one_overshooting_stroke() {
    let el = Element::circle(
        pt(50.0, 50.0),
        s(20.0),
        FillStrokeStyle::stroke(Color::black(), s(1.0)),
    );
    let els = sketch(&el, &mut Rng::new(11), &opts());
    match &els[0] {
        Element::Path { path, .. } => {
            assert!(!path.elements().is_empty());
            assert!(matches!(path.elements()[0], PathEl::MoveTo(_)));
        }
        _ => panic!("expected Path"),
    }
    let (start, sweep) = ellipse_sweep(&mut Rng::new(11));
    assert!(f(start) < 0.0);
    assert!(f(sweep) > std::f64::consts::TAU);
}

#[test]
fn rounded_rect_sampling_follows_the_corner_radius() {
    let (r, radius) = rounded_outline(rect(0.0, 0.0, 100.0, 50.0), s(12.0));
    let parts = parts_of(&Trace::Rounded { rect: r, radius }, &opts().with_curve_step(s(12.0)));
    let pts = &parts[0];
    assert!(pts.len() >= 8);
    let b = lievisual::fit::points_box(pts).unwrap();
    assert!((f(b.width()) - 100.0).abs() < 0.5);
    assert!((f(b.height()) - 50.0).abs() < 0.5);
    assert_eq!(f(rounded_outline(rect(0.0, 0.0, 100.0, 50.0), s(80.0)).1), 25.0);
}

// Fills.

fn sf(style: SketchFillStyle) -> SketchFill {
    SketchFill::new(Color::black()).with_style(style)
}

fn lines(b: Rect, fill: &SketchFill, max: usize) -> Vec<Vec<Point>> {
    let turns: Vec<Vec2> = stroke_angles(fill).iter().map(|a| dir(f(*a))).collect();
    strokes(b, fill, &turns, max)
}

fn square() -> Rect {
    rect(0.0, 0.0, 100.0, 100.0)
}

#[test]
fn hachure_spacing_matches_the_gap() {
    let l = lines(square(), &sf(SketchFillStyle::Hachure), 10_000);
    assert!(l.len() > 30 && l.len() < 50);
    for line in &l {
        assert_eq!(line.len(), 2);
    }
}

#[test]
fn cross_hatch_has_two_families() {
    let one = lines(square(), &sf(SketchFillStyle::Hachure), 10_000).len();
    let two = lines(square(), &sf(SketchFillStyle::CrossHatch), 10_000).len();
    assert!(two >= one * 2 - 2);
}

#[test]
fn zigzag_lines_have_many_points() {
    let l = lines(square(), &sf(SketchFillStyle::Zigzag), 10_000);
    assert!(!l.is_empty());
    assert!(l.iter().all(|l| l.len() > 4));
}

#[test]
fn dots_style_emits_no_strokes() {
    let fill = sf(SketchFillStyle::Dots);
    assert!(lines(square(), &fill, 10_000).is_empty());
    assert!(!is_stroke_style(&fill));
    let (pts, r) = dots(square(), &fill, dir(f(fill.angle).to_radians()), 10_000);
    assert!(!pts.is_empty());
    assert!(f(r) > 0.0 && f(r) < 4.0);
}

#[test]
fn dots_reach_every_side_of_a_long_box() {
    let fill = SketchFill::new(Color::black())
        .with_style(SketchFillStyle::Dots)
        .with_angle(s(0.0))
        .with_gap(s(10.0));
    let (pts, _) = dots(rect(0.0, 0.0, 1000.0, 10.0), &fill, dir(0.0), 20);
    assert!(pts.iter().any(|p| f(p.x) >= 1000.0));
    assert!(pts.iter().any(|p| f(p.x) <= 0.0));
    assert!(pts.iter().any(|p| f(p.y) >= 10.0));
    assert!(pts.iter().any(|p| f(p.y) <= 0.0));
}

#[test]
fn close_dots_do_not_merge() {
    let fill = SketchFill::new(Color::black())
        .with_style(SketchFillStyle::Dots)
        .with_gap(s(0.5));
    let (_, r) = dots(rect(0.0, 0.0, 4.0, 4.0), &fill, dir(0.0), 20_000);
    assert_eq!(f(r), 0.5 * 0.4);
}

#[test]
fn a_limit_of_five_holds_everywhere() {
    let ends = [
        (-1.0, 1.0),
        (0.0, 0.0),
        (-1e300, 1e300),
        (-1.7e308, 1.7e308),
        (1e17, 1e17 + 64.0),
        (1e300, 1e300),
        (f64::NEG_INFINITY, f64::INFINITY),
        (3.0, -3.0),
    ];
    for (lo, hi) in ends {
        for gap in [5e-324, 1e-3, 4.0, 1e300] {
            for max in [5, 6, 100, usize::MAX] {
                let (k0, k1, _) = index_range(s(lo), s(hi), s(gap), max);
                assert!(((k1 - k0 + 1) as i128) <= max as i128);
            }
        }
    }
    let (k0, k1, _) = index_range(s(-1.0), s(1.0), s(4.0), 4);
    assert_eq!(k1 - k0 + 1, 5);
}

#[test]
fn cross_hatches_keep_the_limit_in_each_direction() {
    let fill = SketchFill::new(Color::black()).with_style(SketchFillStyle::CrossHatch);
    let turns: Vec<Vec2> = stroke_angles(&fill).iter().map(|a| dir(f(*a))).collect();
    let big = rect(-1e9, -1e9, 1e9, 1e9);
    assert!(strokes(big, &fill, &turns, 5).len() <= 10);
    let dotted = SketchFill::new(Color::black()).with_style(SketchFillStyle::Dots);
    assert!(dots(big, &dotted, dir(0.3), 5).0.len() <= 25);
}

#[test]
fn max_strokes_cap_coarsens_the_gap() {
    let fill = sf(SketchFillStyle::Hachure);
    assert!(lines(square(), &fill, 8).len() <= 8);
    assert!(lines(rect(0.0, 0.0, 4000.0, 4000.0), &fill, 8).len() <= 8);
}

#[test]
fn index_ranges_are_counted_with_both_ends() {
    let (k0, k1, gap) = index_range(s(0.0), s(10.0), s(1.0), 100);
    assert_eq!((k0, k1, f(gap)), (-1, 11, 1.0));
    let (k0, k1, gap) = index_range(s(0.0), s(10.0), s(1.0), 13);
    assert_eq!((k0, k1, f(gap)), (-1, 11, 1.0));
    let (k0, k1, gap) = index_range(s(0.0), s(10.0), s(1.0), 12);
    assert_eq!((k0, k1, f(gap)), (-1, 6, 2.0));
}

#[test]
fn degenerate_gap_is_guarded() {
    let bad = sf(SketchFillStyle::Hachure).with_gap(s(0.0));
    assert_eq!(f(bad.gap()), 4.0);
    assert!(f(bad.weight()) > 0.0);
}

#[test]
fn lattice_is_anchored_at_the_origin() {
    let fill = sf(SketchFillStyle::Hachure);
    let a = f(fill.angle).to_radians();
    let (vx, vy) = (-a.sin(), a.cos());
    let gap = f(fill.gap());
    for r in [
        rect(0.0, 0.0, 40.0, 40.0),
        rect(8.0, 8.0, 48.0, 48.0),
        rect(-33.0, 17.0, 61.0, 90.0),
    ] {
        for line in lines(r, &fill, HARD_CAP) {
            let t = (f(line[0].x) * vx + f(line[0].y) * vy) / gap;
            assert!((t.fract().abs() - 0.5).abs() < 1e-6);
        }
    }
}

// Elements.

#[test]
fn filled_and_stroked_shape_becomes_fill_plus_outline() {
    let els = sketch(&colored_rect(), &mut Rng::new(1), &hachure());
    assert_eq!(els.len(), 2);
    match &els[0] {
        Element::Rect { style, .. } => {
            assert!(matches!(style.fill, Some(Fill::Sketch(_))));
            assert!(style.stroke.is_none());
        }
        other => panic!("unexpected {other:?}"),
    }
    match &els[1] {
        Element::Path { style, closed, .. } => {
            assert!(style.fill.is_none());
            assert!(style.stroke.is_some());
            assert!(!closed);
        }
        other => panic!("unexpected {other:?}"),
    }
}

#[test]
fn fill_only_shape_gets_a_synthesised_outline() {
    let el = Element::rect(
        rect(0.0, 0.0, 10.0, 10.0),
        FillStrokeStyle::fill(Color::rgb(0xff, 0x00, 0x00)),
    );
    let els = sketch(&el, &mut Rng::new(2), &hachure());
    assert_eq!(els.len(), 2);
    if let Element::Path { style, .. } = &els[1] {
        assert_eq!(style.stroke.as_ref().unwrap().color, Color::rgb(0xff, 0x00, 0x00));
    } else {
        panic!("expected an outline");
    }
    let els = sketch(&el, &mut Rng::new(2), &hachure().with_outline_when_unstroked(false));
    assert_eq!(els.len(), 1);
}

#[test]
fn fill_is_untouched_when_no_style_is_requested() {
    let els = sketch(&colored_rect(), &mut Rng::new(3), &SketchOptions::default());
    assert_eq!(els.len(), 1);
    match &els[0] {
        Element::Path { style, .. } => {
            assert_eq!(style.fill, Some(Fill::Solid(Color::rgb(0x33, 0x66, 0x99))));
            assert!(style.stroke.is_some());
        }
        other => panic!("unexpected {other:?}"),
    }
}

fn tiny() -> Element {
    Element::polygon(
        vec![pt(0.0, 0.0), pt(10.0, 5.0), pt(0.0, 10.0)],
        FillStrokeStyle::fill(Color::rgb(0x33, 0x33, 0x33)),
    )
}

#[test]
fn small_fills_keep_their_solid_ink() {
    let o = hachure().with_min_fill_area(s(1000.0));
    let els = sketch(&tiny(), &mut Rng::new(6), &o);
    assert_eq!(els.len(), 1);
    if let Element::Path { style, .. } = &els[0] {
        assert_eq!(style.fill, Some(Fill::Solid(Color::rgb(0x33, 0x33, 0x33))));
    } else {
        panic!("expected a path");
    }
    let big = Element::rect(
        rect(0.0, 0.0, 100.0, 100.0),
        FillStrokeStyle::fill(Color::rgb(0x33, 0x66, 0x99)),
    );
    let els = sketch(&big, &mut Rng::new(6), &o);
    assert_eq!(els.len(), 2);
    assert!(matches!(els[0], Element::Rect { .. }));
}

#[test]
fn zero_min_fill_area_disables_the_guard() {
    let els = sketch(&tiny(), &mut Rng::new(6), &hachure().with_min_fill_area(s(0.0)));
    assert_eq!(els.len(), 2);
}

#[test]
fn large_shapes_widen_the_gap() {
    let el = Element::rect(rect(0.0, 0.0, 4000.0, 3000.0), FillStrokeStyle::fill(Color::black()));
    let els = sketch(&el, &mut Rng::new(6), &hachure().with_max_fill_strokes(10).with_fill_angle(s(0.0)));
    match &els[0] {
        Element::Rect { style, .. } => match &style.fill {
            Some(Fill::Sketch(fill)) => assert_eq!(f(fill.gap()), 400.0),
            other => panic!("unexpected {other:?}"),
        },
        other => panic!("unexpected {other:?}"),
    }
}

#[test]
fn text_and_image_are_never_sketched() {
    assert!(sketch(&a_text(), &mut Rng::new(4), &hachure()).is_empty());
    let node: SceneNode = a_text().into();
    assert_eq!(visit(&node, true, &hachure()), Visit::Skip);
}

#[test]
fn kinds_select_which_elements_are_sketched() {
    let mut scene = scene_with(vec![
        stroked(rect(0.0, 0.0, 10.0, 10.0)),
        Element::circle(
            pt(20.0, 20.0),
            s(5.0),
            FillStrokeStyle::stroke(Color::black(), s(1.0)),
        )
        .into(),
    ]);
    roughen(&mut scene, &opts().with_kinds(SketchKinds::only(&[SketchKind::Circle])));
    assert!(matches!(scene.nodes[0].element, Element::Rect { .. }));
    assert!(matches!(scene.nodes[1].element, Element::Path { .. }));
}

#[test]
fn predicate_skips_whole_subtrees() {
    let mut scene = scene_with(vec![SceneNode::group(vec![
        stroked(rect(0.0, 0.0, 10.0, 10.0)).with_name("keep".to_string()),
        stroked(rect(0.0, 0.0, 10.0, 10.0)).with_name("drop".to_string()),
    ])]);
    roughen_if(&mut scene, &opts(), &|n| n.name.as_deref() != Some("drop"));
    let Element::Group { children } = &scene.nodes[0].element else {
        panic!("expected Group");
    };
    assert!(matches!(children[0].element, Element::Path { .. }));
    assert!(matches!(children[1].element, Element::Rect { .. }));
}

#[test]
fn hidden_nodes_are_left_alone() {
    let mut scene = scene_with(vec![stroked(rect(0.0, 0.0, 10.0, 10.0)).with_visible(false)]);
    roughen(&mut scene, &opts());
    assert!(matches!(scene.nodes[0].element, Element::Rect { .. }));
}

#[test]
fn layers_are_visited_too() {
    let mut scene = scene_with(vec![]);
    let mut layer = Layer::new("grid".to_string());
    layer.push(stroked(rect(0.0, 0.0, 10.0, 10.0)));
    scene.push_layer(layer);
    roughen(&mut scene, &opts());
    assert!(matches!(scene.layers[0].nodes[0].element, Element::Path { .. }));
}

#[test]
fn node_attributes_survive_the_pass() {
    let mut scene = scene_with(vec![SceneNode::new(Element::rect(
        rect(0.0, 0.0, 10.0, 10.0),
        FillStrokeStyle {
            fill: Some(Fill::Solid(Color::black())),
            stroke: Some(Stroke::new(Color::black(), s(1.0))),
        },
    ))
    .with_transform(Transform::translate(s(5.0), s(5.0)))
    .with_opacity(s(0.5))
    .with_name("node".to_string())
    .with_clip(Clip::rect(rect(0.0, 0.0, 40.0, 40.0)))]);
    roughen(&mut scene, &hachure().with_seed(1));
    let n = &scene.nodes[0];
    assert!(n.transform.is_some() && n.clip.is_some());
    assert_eq!(n.opacity, s(0.5));
    assert_eq!(n.name.as_deref(), Some("node"));
    assert!(matches!(n.element, Element::Group { .. }));
}

#[test]
fn whole_scene_is_deterministic() {
    let build = || {
        scene_with(vec![
            Element::rect(
                rect(10.0, 10.0, 110.0, 60.0),
                FillStrokeStyle {
                    fill: Some(Fill::Solid(Color::rgb(0xee, 0xee, 0xff))),
                    stroke: Some(Stroke::new(Color::black(), s(1.5))),
                },
            )
            .into(),
            Element::circle(
                pt(200.0, 40.0),
                s(18.0),
                FillStrokeStyle::stroke(Color::black(), s(1.0)),
            )
            .into(),
        ])
    };
    let o = hachure().with_seed(2024);
    let mut a = build();
    let mut b = build();
    roughen(&mut a, &o);
    roughen(&mut b, &o);
    assert_eq!(format!("{:?}", a.nodes), format!("{:?}", b.nodes));
}

#[test]
fn passes_without_a_seed_start_from_the_clock() {
    let build = || scene_with(vec![stroked(rect(0.0, 0.0, 100.0, 50.0))]);
    let mut o = hachure();
    o.seed = None;
    let sample = |t: &Trace| parts_of(t, &o);
    let time = || (77_u64, 3_u32);
    let mut a = build();
    roughen_scene(&mut a, &time, turn(&o), &none, &sample, &distance, &o);
    let mut r = Rng::from_entropy(77, 3);
    let parts = sketch(&build().nodes[0].element, &mut r, &o);
    assert_eq!(format!("{:?}", a.nodes[0].element), format!("{:?}", parts[0]));
    let mut b = build();
    let later = || (77_u64, 4_u32);
    roughen_scene(&mut b, &later, turn(&o), &none, &sample, &distance, &o);
    assert_ne!(format!("{:?}", a.nodes), format!("{:?}", b.nodes));
}

#[test]
fn passes_ask_for_the_distances_round_each_part() {
    let el = Element::Polyline {
        points: vec![pt(0.0, 0.0), pt(3.0, 0.0), pt(3.0, 4.0)],
        style: Stroke::new(Color::black(), s(1.0)),
    };
    let asked = std::cell::RefCell::new(Vec::new());
    let o = hachure().with_seed(5);
    let sample = |t: &Trace| parts_of(t, &o);
    let measured = |p: Point, q: Point| {
        let d = distance(p, q);
        asked.borrow_mut().push(f(d));
        d
    };
    let out = sketch_element(&el, &mut Rng::new(5), turn(&o), &none, &sample, &measured, &o);
    assert_eq!(out.len(), 1);
    assert_eq!(*asked.borrow(), vec![3.0, 4.0, 5.0]);
}

#[test]
fn different_seeds_produce_different_scenes() {
    let build = || scene_with(vec![stroked(rect(0.0, 0.0, 100.0, 50.0))]);
    let mut a = build();
    let mut b = build();
    roughen(&mut a, &SketchOptions::new().with_seed(1));
    roughen(&mut b, &SketchOptions::new().with_seed(2));
    assert_ne!(format!("{:?}", a.nodes), format!("{:?}", b.nodes));
}

#[test]
fn roughened_bounds_stay_close_to_the_original() {
    let mut scene = scene_with(vec![Element::rect(
        rect(10.0, 10.0, 110.0, 60.0),
        FillStrokeStyle::stroke(Color::black(), s(2.0)),
    )
    .into()]);
    let before = scene_bounds(&scene, &measured(&scene)).unwrap();
    roughen(&mut scene, &SketchOptions::new().with_seed(7).with_roughness(s(2.0)));
    let after = scene_bounds(&scene, &measured(&scene)).unwrap();
    assert!(f(after.min_x()) < f(before.min_x()) && f(after.max_x()) > f(before.max_x()));
    assert!(f(after.width()) - f(before.width()) < 12.0);
}

#[test]
fn refit_is_idempotent() {
    let mut scene = scene_with(vec![Element::rect(
        rect(0.0, 0.0, 100.0, 50.0),
        FillStrokeStyle {
            fill: Some(Fill::Solid(Color::black())),
            stroke: Some(Stroke::new(Color::black(), s(3.0))),
        },
    )
    .into()]);
    roughen(&mut scene, &SketchOptions::new().with_seed(11).with_roughness(s(2.5)));
    let m = measured(&scene);
    fit_scene(&mut scene, refit_options(s(8.0)), &m);
    let (w, h) = (f(scene.width), f(scene.height));
    let b1 = scene_bounds(&scene, &measured(&scene)).unwrap();
    let m = measured(&scene);
    fit_scene(&mut scene, FitOptions::new().with_margin(s(8.0)), &m);
    assert!((f(scene.width) - w).abs() < 1.0 && (f(scene.height) - h).abs() < 1.0);
    let b2 = scene_bounds(&scene, &measured(&scene)).unwrap();
    assert!((f(b1.width()) - f(b2.width())).abs() < 1.0);
    assert_eq!(f(refit_options(s(-3.0)).margin), 0.0);
}

#[test]
fn gradient_degrades_to_its_last_stop() {
    let el = Element::GradientPath {
        path: BezPath::new(),
        gradient: LinearGradient {
            start: pt(0.0, 0.0),
            end: pt(10.0, 0.0),
            stops: vec![
                GradientStop { offset: s(0.0), color: Color::white() },
                GradientStop { offset: s(1.0), color: Color::rgb(0x12, 0x34, 0x56) },
            ],
        },
        stroke: None,
    };
    let els = sketch(&el, &mut Rng::new(1), &hachure());
    match &els[0] {
        Element::Path { style, .. } => match &style.fill {
            Some(Fill::Sketch(fill)) => assert_eq!(fill.color, Color::rgb(0x12, 0x34, 0x56)),
            other => panic!("unexpected {other:?}"),
        },
        other => panic!("unexpected {other:?}"),
    }
}

#[test]
fn already_sketched_fill_is_not_reprocessed() {
    let el = Element::rect(
        rect(0.0, 0.0, 10.0, 10.0),
        FillStrokeStyle {
            fill: Some(Fill::Sketch(SketchFill::new(Color::black()))),
            stroke: Some(Stroke::new(Color::black(), s(1.0))),
        },
    );
    let els = sketch(&el, &mut Rng::new(1), &hachure());
    assert_eq!(els.len(), 1);
    assert!(matches!(els[0], Element::Path { .. }));
}

#[test]
fn ellipse_and_pie_and_arc_are_all_sketchable() {
    let line = || Stroke::new(Color::black(), s(1.0));
    let style = || FillStrokeStyle::stroke(Color::black(), s(1.0));
    for el in [
        Element::ellipse(pt(10.0, 10.0), Vec2::new(s(20.0), s(10.0)), s(0.3), style()),
        Element::pie(pt(10.0, 10.0), s(20.0), s(0.0), s(1.0), style()),
        Element::arc(pt(10.0, 10.0), Vec2::new(s(20.0), s(20.0)), s(0.0), s(1.0), line()),
        Element::poly(vec![pt(0.0, 0.0), pt(10.0, 5.0), pt(4.0, 12.0)], line()),
        Element::rounded_rect(rect(0.0, 0.0, 30.0, 20.0), s(4.0), style()),
    ] {
        let els = sketch(&el, &mut Rng::new(5), &opts());
        assert_eq!(els.len(), 1);
        assert!(matches!(els[0], Element::Path { .. }));
    }
}

#[test]
fn groups_are_measured_through_their_children() {
    let g = Element::Group { children: vec![stroked(rect(0.0, 0.0, 10.0, 10.0))] };
    let b = element_bounds(&g, &Measure::none()).unwrap();
    assert_eq!(f(b.width()), 11.0);
}
