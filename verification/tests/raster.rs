use lievisual::geometry::{Color, Point, Rect, Transform, Vec2};
use lievisual::path::{BezPath, PathEl};
use lievisual::render::bitmap::{blit, frame_image, premultiply, resize_rgba8};
use lievisual::render::raster::{
    line_path, paint_color, paint_transform, pie_path, polygon_path, rect_path, run_origin,
    text_background, text_transform, RasterState,
};
use lievisual::scalar::Scalar;
use lievisual::scene::{ObjectFit, SceneImage};
use lievisual::text::layout::{layout_metrics, LineMetrics, TextLayout, TextLine};
use lievisual::text::style::{TextAlign, TextStyle};

fn s(x: f64) -> Scalar {
    Scalar::from_bits(x.to_bits())
}

fn f(x: Scalar) -> f64 {
    f64::from_bits(x.to_bits())
}

fn pt(x: f64, y: f64) -> Point {
    Point::new(s(x), s(y))
}

fn rect(x0: f64, y0: f64, x1: f64, y1: f64) -> Rect {
    Rect::new(s(x0), s(y0), s(x1), s(y1))
}

#[test]
fn transforms_and_opacities_nest() {
    let mut st = RasterState::new(200, s(100.0));
    assert_eq!(st.current_transform().apply_point(pt(10.0, 20.0)), pt(20.0, 40.0));
    let t = st.push_transform(Transform::translate(s(1.0), s(2.0)));
    assert_eq!(t.apply_point(pt(10.0, 20.0)), pt(22.0, 44.0));
    st.push_opacity(s(0.5));
    st.push_opacity(s(3.0));
    st.push_opacity(s(0.5));
    assert_eq!(f(st.current_opacity()), 0.25);
    st.pop_opacity();
    assert_eq!(f(st.current_opacity()), 0.5);
    let t = st.pop_transform();
    assert_eq!(t.apply_point(pt(10.0, 20.0)), pt(20.0, 40.0));
    st.pop_opacity();
    st.pop_opacity();
    assert_eq!(f(st.current_opacity()), 1.0);
    assert_eq!(RasterState::new(200, s(0.0)).current_transform(), Transform::identity());
}

#[test]
fn opacity_scales_alpha_alone() {
    assert_eq!(paint_color(Color::rgb(1, 2, 3), s(1.0)), Color::rgba(1, 2, 3, 255));
    assert_eq!(paint_color(Color::rgb(1, 2, 3), s(0.5)), Color::rgba(1, 2, 3, 127));
    assert_eq!(paint_color(Color::rgba(1, 2, 3, 100), s(2.0)).a, 200);
    assert_eq!(paint_color(Color::rgb(1, 2, 3), s(-1.0)).a, 0);
}

#[test]
fn gradients_stay_in_scene_coordinates() {
    let t = Transform::new(s(2.0), s(0.0), s(0.0), s(4.0), s(6.0), s(8.0));
    let inv = paint_transform(&t);
    assert_eq!(inv.apply_point(t.apply_point(pt(3.0, 5.0))), pt(3.0, 5.0));
    assert_eq!(paint_transform(&Transform::scale(s(0.0))), Transform::identity());
}

#[test]
fn shapes_as_paths() {
    let p = rect_path(rect(5.0, 6.0, 1.0, 2.0));
    assert_eq!(p.elements()[0], PathEl::MoveTo(pt(1.0, 2.0)));
    assert_eq!(p.elements()[2], PathEl::LineTo(pt(5.0, 6.0)));
    assert_eq!(p.elements().len(), 5);
    let pts = vec![pt(0.0, 0.0), pt(1.0, 1.0)];
    assert_eq!(line_path(&pts).elements().len(), 2);
    assert_eq!(polygon_path(&pts).elements()[2], PathEl::ClosePath);
    assert!(polygon_path(&Vec::new()).is_empty());
    let arc = BezPath::from_vec(vec![PathEl::MoveTo(pt(1.0, 0.0)), PathEl::LineTo(pt(0.0, 1.0))]);
    assert_eq!(
        pie_path(pt(0.0, 0.0), &arc).elements(),
        &[
            PathEl::MoveTo(pt(0.0, 0.0)),
            PathEl::LineTo(pt(1.0, 0.0)),
            PathEl::LineTo(pt(0.0, 1.0)),
            PathEl::ClosePath
        ]
    );
}

#[test]
fn text_is_placed_by_its_anchor() {
    let m = LineMetrics { ascent: s(9.0), descent: s(3.0), baseline: s(9.0), line_height: s(12.0) };
    let layout = TextLayout {
        lines: vec![TextLine {
            runs: Vec::new(),
            bounds: rect(0.0, 0.0, 40.0, 12.0),
            metrics: m,
            ink_bounds: rect(0.0, 0.0, 40.0, 12.0),
        }],
        width: s(40.0),
        height: s(12.0),
        ink_bounds: rect(0.0, 0.0, 40.0, 12.0),
    };
    let metrics = layout_metrics(&layout);
    let style = TextStyle::new(Color::black(), s(10.0), "serif".to_string())
        .with_align(TextAlign::Center)
        .with_baseline_shift(s(1.0));
    let t = text_transform(pt(100.0, 50.0), &style, &metrics, Vec2::new(s(1.0), s(0.0)));
    assert_eq!(t.apply_point(pt(0.0, 0.0)), pt(80.0, 40.0));
    assert_eq!(text_background(&t, &metrics), rect(80.0, 40.0, 120.0, 52.0));
}

#[test]
fn a_shifted_text_carries_its_runs_along() {
    let corner = pt(3.0, 14.0);
    assert_eq!(run_origin(corner, s(6.0), s(0.0)), corner);
    assert_eq!(run_origin(corner, s(6.0), s(6.0)), pt(3.0, 20.0));
}

fn machine_resize(src: &[u8], sw: u32, sh: u32, dw: u32, dh: u32) -> Vec<u8> {
    let mut out = Vec::new();
    for dy in 0..dh {
        for dx in 0..dw {
            let fy = ((dy as f64 + 0.5) * (sh as f64 / dh as f64) - 0.5).max(0.0);
            let fx = ((dx as f64 + 0.5) * (sw as f64 / dw as f64) - 0.5).max(0.0);
            let (y0, x0) = (fy.floor() as u32, fx.floor() as u32);
            let (y1, x1) = ((y0 + 1).min(sh - 1), (x0 + 1).min(sw - 1));
            let wy = (fy - fy.floor()).clamp(0.0, 1.0);
            let wx = (fx - fx.floor()).clamp(0.0, 1.0);
            for c in 0..4 {
                let at = |x: u32, y: u32| src[((y * sw + x) * 4 + c) as usize] as f64;
                let top = at(x0, y0) * (1.0 - wx) + at(x1, y0) * wx;
                let bot = at(x0, y1) * (1.0 - wx) + at(x1, y1) * wx;
                out.push((top * (1.0 - wy) + bot * wy).round() as u8);
            }
        }
    }
    out
}

#[test]
fn bitmaps_are_scaled_bilinearly() {
    let src: Vec<u8> = (0..5 * 3 * 4).map(|i| (i * 37 % 256) as u8).collect();
    assert_eq!(resize_rgba8(&src, 5, 3, 5, 3), src);
    for (w, h) in [(1, 1), (2, 7), (10, 6), (3, 2), (13, 1)] {
        assert_eq!(resize_rgba8(&src, 5, 3, w, h), machine_resize(&src, 5, 3, w, h));
    }
}

#[test]
fn a_rising_row_stays_rising() {
    let src = [0, 0, 0, 0, 100, 100, 100, 100];
    assert_eq!(
        resize_rgba8(&src, 2, 1, 4, 1),
        vec![0, 0, 0, 0, 25, 25, 25, 25, 75, 75, 75, 75, 100, 100, 100, 100]
    );
}

#[test]
fn colors_are_multiplied_by_alpha() {
    assert_eq!(
        premultiply(&vec![200, 100, 50, 128, 10, 20, 30, 255], s(1.0)),
        vec![100, 50, 25, 128, 10, 20, 30, 255]
    );
    assert_eq!(premultiply(&vec![255, 255, 255, 255], s(0.5)), vec![127, 127, 127, 127]);
}

#[test]
fn bitmaps_are_cut_at_the_frame() {
    let src: Vec<u8> = vec![1, 1, 1, 1, 2, 2, 2, 2, 3, 3, 3, 3, 4, 4, 4, 4];
    let out = blit(&src, 2, 2, 2, 2, 1, -1);
    assert_eq!(out, vec![0, 0, 0, 0, 3, 3, 3, 3, 0, 0, 0, 0, 0, 0, 0, 0]);
}

#[test]
fn images_are_placed_in_their_frame() {
    let img = |fit| {
        SceneImage::from_rgba8(2, 1, vec![10, 20, 30, 255, 40, 50, 60, 255])
            .unwrap()
            .with_object_fit(fit)
    };
    let frame = rect(5.0, 6.0, 9.0, 10.0);
    let r = frame_image(&img(ObjectFit::Original), frame, s(1.0)).unwrap();
    assert_eq!((r.width, r.height), (4, 4));
    assert_eq!(&r.pixels[0..12], &[10, 20, 30, 255, 40, 50, 60, 255, 0, 0, 0, 0]);
    assert_eq!(r.area, rect(5.0, 6.0, 9.0, 10.0));
    let r = frame_image(&img(ObjectFit::Contain), frame, s(1.0)).unwrap();
    assert_eq!(&r.pixels[0..16], &[0u8; 16]);
    assert_eq!(&r.pixels[16..24], &[10, 20, 30, 255, 18, 28, 38, 255]);
    assert_eq!(&r.pixels[48..64], &[0u8; 16]);
    let r = frame_image(&img(ObjectFit::Cover), frame, s(1.0)).unwrap();
    assert!(r.pixels.chunks(4).all(|p| p[3] == 255));
    let r = frame_image(&img(ObjectFit::Fill), frame, s(0.5)).unwrap();
    assert!(r.pixels.chunks(4).all(|p| p[3] == 127));
    let none = SceneImage::from_rgba8(0, 0, Vec::new()).unwrap();
    assert!(frame_image(&none, frame, s(1.0)).is_none());
}
