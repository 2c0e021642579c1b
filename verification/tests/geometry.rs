use lievisual::geometry::{Color, Point, PointExt, Rect, RectExt, Transform};
use lievisual::pixmap::{normalize_to_rgba8, Pixmap};
use lievisual::scalar::Scalar;

fn s(x: f64) -> Scalar {
    Scalar::from_bits(x.to_bits())
}

fn f(x: Scalar) -> f64 {
    f64::from_bits(x.to_bits())
}

fn pt(x: f64, y: f64) -> Point {
    Point::new(s(x), s(y))
}

fn rect(x0: f64, y0: f64, x1: f64, y1: f64) -> Rect {
    Rect::new(s(x0), s(y0), s(x1), s(y1))
}

#[test]
fn midpoint_min_max() {
    let a = pt(0.0, 0.0);
    let b = pt(10.0, 20.0);
    assert_eq!(a.midpoint(b), pt(5.0, 10.0));
    assert_eq!(a.min(b), pt(0.0, 0.0));
    assert_eq!(a.max(b), pt(10.0, 20.0));
    assert!(a.is_finite());
    assert!(!pt(f64::NAN, 0.0).is_finite());
}

#[test]
fn accessors_and_bounds() {
    let r = rect(2.0, 4.0, 12.0, 10.0);
    assert_eq!(f(r.min_x()), 2.0);
    assert_eq!(f(r.max_x()), 12.0);
    assert_eq!(f(r.min_y()), 4.0);
    assert_eq!(f(r.max_y()), 10.0);
    assert_eq!(f(r.width()), 10.0);
    assert_eq!(f(r.height()), 6.0);
}

#[test]
fn from_points_normalizes_opposite_corners() {
    let r = Rect::from_points(pt(5.0, 7.0), pt(1.0, 3.0));
    assert_eq!(r, rect(1.0, 3.0, 5.0, 7.0));
}

#[test]
fn union_and_inflate() {
    let a = rect(0.0, 0.0, 10.0, 10.0);
    let b = rect(5.0, 5.0, 15.0, 15.0);
    assert_eq!(a.union(b), rect(0.0, 0.0, 15.0, 15.0));
    assert_eq!(RectExt::union(&rect(10.0, 10.0, 0.0, 0.0), b), rect(0.0, 0.0, 15.0, 15.0));
    assert_eq!(a.inflate(s(2.0), s(2.0)), rect(-2.0, -2.0, 12.0, 12.0));
}

#[test]
fn contains_point() {
    let r = rect(0.0, 0.0, 10.0, 10.0);
    assert!(r.contains(pt(5.0, 5.0)));
    assert!(r.contains(pt(0.0, 0.0)));
    assert!(!r.contains(pt(10.0, 10.0)));
    assert!(!r.contains(pt(10.1, 5.0)));
    assert!(!r.contains(pt(5.0, -1.0)));
}

#[test]
fn rect_center_helper() {
    assert_eq!(rect(2.0, 4.0, 12.0, 10.0).center(), pt(7.0, 7.0));
}

#[test]
fn composition_applies_the_first_transform_first() {
    let t = Transform::translate(s(10.0), s(0.0));
    let k = Transform::scale(s(2.0));
    assert_eq!(t.then(&k).apply_point(pt(1.0, 1.0)), pt(22.0, 2.0));
    assert_eq!(k.then(&t).apply_point(pt(1.0, 1.0)), pt(12.0, 2.0));
    assert_eq!(Transform::identity().apply_point(pt(3.5, -4.0)), pt(3.5, -4.0));
    let r = Transform::rotate(s(1.0), s(0.0));
    assert_eq!(r.apply_point(pt(1.0, 0.0)).y, s(1.0));
}

#[test]
fn colors_in_hexadecimal() {
    assert_eq!(Color::rgb(0x33, 0x66, 0x99).to_hex(), "#336699");
    assert_eq!(Color::white().to_hex(), "#ffffff");
    assert_eq!(Color::rgba(1, 2, 3, 128).to_hex(), "#01020380");
}

#[test]
fn colors_from_components() {
    assert_eq!(Color::new(s(1.0), s(0.5), s(-3.0), s(7.0)), Color::rgba(255, 128, 0, 255));
    assert_eq!(Color::new(s(f64::NAN), s(0.0), s(0.0), s(1.0)), Color::black());
    for n in 0..=255u8 {
        assert_eq!(Color::to_channel(s(f64::from(n) / 255.0)), n);
    }
    assert_eq!(Color::default(), Color::transparent());
    assert_eq!(Transform::default().apply_point(pt(3.0, 4.0)), pt(0.0, 0.0));
}

#[test]
fn from_rgba8_validates_length() {
    assert!(Pixmap::from_rgba8(2, 2, vec![0u8; 16]).is_some());
    assert!(Pixmap::from_rgba8(2, 2, vec![0u8; 15]).is_none());
    assert!(Pixmap::from_rgba8(0, 0, vec![] as Vec<u8>).is_some());
}

#[test]
fn png_roundtrip() {
    let pixels: Vec<u8> = (0..4u32 * 3 * 3).map(|i| (i % 251) as u8).collect();
    let pm = Pixmap::from_rgba8(3, 3, pixels).unwrap();
    let png = pm.to_png();
    let back = Pixmap::decode_png(&png).unwrap();
    assert_eq!(back.width(), 3);
    assert_eq!(back.height(), 3);
    assert_eq!(back.pixels(), pm.pixels());
    assert_ne!(png.as_slice(), pm.pixels());
}

#[test]
fn decode_png_rejects_garbage() {
    assert!(Pixmap::decode_png(b"not a png").is_none());
}

fn encoded(color: png::ColorType, depth: png::BitDepth, data: &[u8], w: u32, h: u32) -> Vec<u8> {
    let mut out = Vec::new();
    let mut enc = png::Encoder::new(&mut out, w, h);
    enc.set_color(color);
    enc.set_depth(depth);
    let mut writer = enc.write_header().unwrap();
    writer.write_image_data(data).unwrap();
    drop(writer);
    out
}

#[test]
fn other_png_colors_become_rgba() {
    let gray = encoded(png::ColorType::Grayscale, png::BitDepth::Eight, &[7, 200], 2, 1);
    assert_eq!(
        Pixmap::decode_png(&gray).unwrap().pixels(),
        &[7, 7, 7, 255, 200, 200, 200, 255]
    );
    let rgb = encoded(png::ColorType::Rgb, png::BitDepth::Eight, &[1, 2, 3], 1, 1);
    assert_eq!(Pixmap::decode_png(&rgb).unwrap().pixels(), &[1, 2, 3, 255]);
    let deep = encoded(
        png::ColorType::GrayscaleAlpha,
        png::BitDepth::Sixteen,
        &[9, 99, 77, 11],
        1,
        1,
    );
    assert_eq!(Pixmap::decode_png(&deep).unwrap().pixels(), &[9, 9, 9, 77]);
}

#[test]
fn short_buffers_are_refused() {
    assert!(normalize_to_rgba8(&vec![1, 2, 3], 2, 8, 1, 1).is_some());
    assert!(normalize_to_rgba8(&vec![1, 2], 2, 8, 1, 1).is_none());
    assert_eq!(
        normalize_to_rgba8(&vec![1, 0, 2, 0, 3, 0, 4, 0], 6, 16, 1, 1),
        Some(vec![1, 2, 3, 4])
    );
}

#[test]
fn compositions_apply_in_turn_up_to_rounding() {
    let first = Transform::new(s(0.1), s(-0.7), s(1.3), s(0.3), s(11.1), s(-2.7));
    let second = Transform::new(s(-3.3), s(0.2), s(0.9), s(7.7), s(0.013), s(1e6));
    for (x, y) in [(0.3, 0.7), (-1e3, 12.5), (1e-9, 4e8)] {
        let p = pt(x, y);
        let once = first.then(&second).apply_point(p);
        let turns = second.apply_point(first.apply_point(p));
        let terms = |a: Scalar, c: Scalar, e: Scalar| {
            let (a, c, e) = (f(a).abs(), f(c).abs(), f(e).abs());
            let (x, y) = (x.abs(), y.abs());
            a * (0.1 * x + 1.3 * y + 11.1) + c * (0.7 * x + 0.3 * y + 2.7) + e
        };
        let part = 22.0 / (1u64 << 53) as f64;
        assert!(
            (f(once.x) - f(turns.x)).abs() <= part * terms(second.a, second.c, second.e)
        );
        assert!(
            (f(once.y) - f(turns.y)).abs() <= part * terms(second.b, second.d, second.f)
        );
    }
}
