//! Points, rectangles, affine transforms and colors.

use vstd::prelude::*;
use crate::digits;
use crate::scalar::{Scalar, ONE_BITS};

verus! {

/// The bit pattern of `0.5`.
pub const HALF_BITS: u64 = 0x3fe0_0000_0000_0000;

/// The bit pattern of `2.0`.
pub const TWO_BITS: u64 = 0x4000_0000_0000_0000;

/// The bit pattern of `255.0`.
pub const BYTE_BITS: u64 = 0x406f_e000_0000_0000;

/// A point, y pointing down.
#[derive(Debug, Clone, Copy, PartialEq, Eq, Structural)]
pub struct Point {
    pub x: Scalar,
    pub y: Scalar,
}

/// A pair of lengths along the axes.
#[derive(Debug, Clone, Copy, PartialEq, Eq, Structural)]
pub struct Vec2 {
    pub x: Scalar,
    pub y: Scalar,
}

/// A width and a height.
#[derive(Debug, Clone, Copy, PartialEq, Eq, Structural)]
pub struct Size {
    pub width: Scalar,
    pub height: Scalar,
}

/// An axis-aligned rectangle, given by two opposite corners.
#[derive(Debug, Clone, Copy, PartialEq, Eq, Structural)]
pub struct Rect {
    pub x0: Scalar,
    pub y0: Scalar,
    pub x1: Scalar,
    pub y1: Scalar,
}

impl Point {
    pub fn new(x: Scalar, y: Scalar) -> (p: Point)
        ensures
            p == (Point { x, y }),
    {
        Point { x, y }
    }

    /// Both coordinates are finite.
    pub open spec fn finite(self) -> bool {
        self.x.finite() && self.y.finite()
    }
}

impl Vec2 {
    pub fn new(x: Scalar, y: Scalar) -> (v: Vec2)
        ensures
            v == (Vec2 { x, y }),
    {
        Vec2 { x, y }
    }
}

impl Size {
    pub fn new(width: Scalar, height: Scalar) -> (s: Size)
        ensures
            s == (Size { width, height }),
    {
        Size { width, height }
    }
}

/// Convenience methods on points.
pub trait PointExt: Sized {
    /// Midpoint.
    fn midpoint(self, other: Self) -> Self;

    /// Whether both components are finite.
    fn is_finite(&self) -> bool;

    /// Component-wise minimum.
    fn min(self, other: Self) -> Self;

    /// Component-wise maximum.
    fn max(self, other: Self) -> Self;
}

impl PointExt for Point {
    fn midpoint(self, other: Point) -> (p: Point)
        ensures
            p.x == self.x.sum(other.x).quotient(Scalar { bits: TWO_BITS }),
            p.y == self.y.sum(other.y).quotient(Scalar { bits: TWO_BITS }),
    {
        let two = Scalar { bits: TWO_BITS };
        Point { x: self.x.add(other.x).div(two), y: self.y.add(other.y).div(two) }
    }

    fn is_finite(&self) -> (r: bool)
        ensures
            r == self.finite(),
    {
        self.x.is_finite() && self.y.is_finite()
    }

    fn min(self, other: Point) -> (p: Point)
        ensures
            p == (Point { x: self.x.least(other.x), y: self.y.least(other.y) }),
    {
        Point { x: self.x.min(other.x), y: self.y.min(other.y) }
    }

    fn max(self, other: Point) -> (p: Point)
        ensures
            p == (Point { x: self.x.greatest(other.x), y: self.y.greatest(other.y) }),
    {
        Point { x: self.x.max(other.x), y: self.y.max(other.y) }
    }
}

impl Rect {
    /// All four coordinates are finite.
    pub open spec fn finite(self) -> bool {
        self.x0.finite() && self.x1.finite() && self.y0.finite() && self.y1.finite()
    }

    /// The same extent with the lesser coordinates first.
    pub open spec fn ordered(self) -> Rect {
        Rect {
            x0: self.x0.least(self.x1),
            y0: self.y0.least(self.y1),
            x1: self.x0.greatest(self.x1),
            y1: self.y0.greatest(self.y1),
        }
    }

    /// The rectangle that takes the lesser first corner and the greater second corner of two.
    pub open spec fn joined(self, other: Rect) -> Rect {
        Rect {
            x0: self.x0.least(other.x0),
            y0: self.y0.least(other.y0),
            x1: self.x1.greatest(other.x1),
            y1: self.y1.greatest(other.y1),
        }
    }

    /// The rectangle moved out by `pad` on each side.
    pub open spec fn padded(self, pad: Scalar) -> Rect {
        Rect {
            x0: self.x0.difference(pad),
            y0: self.y0.difference(pad),
            x1: self.x1.sum(pad),
            y1: self.y1.sum(pad),
        }
    }

    pub fn new(x0: Scalar, y0: Scalar, x1: Scalar, y1: Scalar) -> (r: Rect)
        ensures
            r == (Rect { x0, y0, x1, y1 }),
    {
        Rect { x0, y0, x1, y1 }
    }

    /// The rectangle spanned by two points.
    pub fn from_points(p: Point, q: Point) -> (r: Rect)
        ensures
            r == (Rect { x0: p.x, y0: p.y, x1: q.x, y1: q.y }).ordered(),
    {
        Rect { x0: p.x.min(q.x), y0: p.y.min(q.y), x1: p.x.max(q.x), y1: p.y.max(q.y) }
    }

    /// The rectangle with a given corner and extent.
    pub fn from_origin_size(origin: Point, size: Size) -> (r: Rect)
        ensures
            r == (Rect {
                x0: origin.x,
                y0: origin.y,
                x1: origin.x.sum(size.width),
                y1: origin.y.sum(size.height),
            }).ordered(),
    {
        let far = Point { x: origin.x.add(size.width), y: origin.y.add(size.height) };
        Rect::from_points(origin, far)
    }

    pub fn min_x(&self) -> (r: Scalar)
        ensures
            r == self.ordered().x0,
    {
        self.x0.min(self.x1)
    }

    pub fn min_y(&self) -> (r: Scalar)
        ensures
            r == self.ordered().y0,
    {
        self.y0.min(self.y1)
    }

    pub fn max_x(&self) -> (r: Scalar)
        ensures
            r == self.ordered().x1,
    {
        self.x0.max(self.x1)
    }

    pub fn max_y(&self) -> (r: Scalar)
        ensures
            r == self.ordered().y1,
    {
        self.y0.max(self.y1)
    }

    /// The width; negative where the corners are in reverse order.
    pub fn width(&self) -> (r: Scalar)
        ensures
            r == self.x1.difference(self.x0),
    {
        self.x1.sub(self.x0)
    }

    /// The height; negative where the corners are in reverse order.
    pub fn height(&self) -> (r: Scalar)
        ensures
            r == self.y1.difference(self.y0),
    {
        self.y1.sub(self.y0)
    }

    /// The center point.
    pub fn center(&self) -> (p: Point)
        ensures
            p.x == (Scalar { bits: HALF_BITS }).product(self.x0.sum(self.x1)),
            p.y == (Scalar { bits: HALF_BITS }).product(self.y0.sum(self.y1)),
    {
        let half = Scalar { bits: HALF_BITS };
        Point { x: half.mul(self.x0.add(self.x1)), y: half.mul(self.y0.add(self.y1)) }
    }

    pub fn is_finite(&self) -> (r: bool)
        ensures
            r == self.finite(),
    {
        self.x0.is_finite() && self.x1.is_finite() && self.y0.is_finite() && self.y1.is_finite()
    }

    /// Expands by `width` to the left and right and by `height` up and down.
    pub fn inflate(&self, width: Scalar, height: Scalar) -> (r: Rect)
        ensures
            r == (Rect {
                x0: self.x0.difference(width),
                y0: self.y0.difference(height),
                x1: self.x1.sum(width),
                y1: self.y1.sum(height),
            }),
    {
        Rect {
            x0: self.x0.sub(width),
            y0: self.y0.sub(height),
            x1: self.x1.add(width),
            y1: self.y1.add(height),
        }
    }

    /// The rectangle from the lesser first corner to the greater second corner of two.
    pub fn union(&self, other: Rect) -> (r: Rect)
        ensures
            r == self.joined(other),
    {
        Rect {
            x0: self.x0.min(other.x0),
            y0: self.y0.min(other.y0),
            x1: self.x1.max(other.x1),
            y1: self.y1.max(other.y1),
        }
    }

    /// Whether a point lies inside; the right and bottom edges do not belong to the rectangle.
    pub fn contains(&self, p: Point) -> (r: bool)
        ensures
            r == ((self.x0.less(p.x) || self.x0.same(p.x)) && p.x.less(self.x1) && (self.y0.less(
                p.y,
            ) || self.y0.same(p.y)) && p.y.less(self.y1)),
    {
        (self.x0.lt(p.x) || self.x0.same_value(p.x)) && p.x.lt(self.x1) && (self.y0.lt(p.y)
            || self.y0.same_value(p.y)) && p.y.lt(self.y1)
    }
}

/// Convenience methods on rectangles.
pub trait RectExt: Sized {
    /// The bounding box of two rectangles.
    fn union(&self, other: Self) -> Rect;
}

impl RectExt for Rect {
    fn union(&self, other: Rect) -> (r: Rect)
        ensures
            r == self.ordered().joined(other.ordered()),
    {
        Rect {
            x0: self.min_x().min(other.min_x()),
            y0: self.min_y().min(other.min_y()),
            x1: self.max_x().max(other.max_x()),
            y1: self.max_y().max(other.max_y()),
        }
    }
}

/// A color with 8-bit red, green, blue and alpha channels.
#[derive(Debug, Clone, Copy, PartialEq, Eq, Structural)]
pub struct Color {
    pub r: u8,
    pub g: u8,
    pub b: u8,
    pub a: u8,
}

impl Default for Color {
    /// The transparent color.
    fn default() -> (c: Color)
        ensures
            c == (Color { r: 0, g: 0, b: 0, a: 0 }),
    {
        Color { r: 0, g: 0, b: 0, a: 0 }
    }
}

impl Color {
    /// The six-digit hexadecimal form of the color channels.
    pub open spec fn hex6(self) -> Seq<char> {
        seq!['#'] + digits::hex_byte(self.r) + digits::hex_byte(self.g) + digits::hex_byte(self.b)
    }

    /// The channel of a component between zero and one: the nearest of 256 steps, halves upward.
    pub open spec fn channel(x: Scalar) -> u8 {
        let unit = x.clamped(Scalar { bits: 0 }, Scalar { bits: ONE_BITS });
        unit.product(Scalar { bits: BYTE_BITS }).integral().truncated(255) as u8
    }

    /// The channel of a component; components outside of zero to one are clamped.
    pub fn to_channel(x: Scalar) -> (c: u8)
        ensures
            c == Color::channel(x),
    {
        let unit = x.clamp(Scalar { bits: 0 }, Scalar { bits: ONE_BITS });
        proof {
            reveal(Scalar::truncated);
        }
        unit.mul(Scalar { bits: BYTE_BITS }).round().to_u64(255) as u8
    }

    /// Color from components between zero and one.
    pub fn new(r: Scalar, g: Scalar, b: Scalar, a: Scalar) -> (c: Color)
        ensures
            c.r == Color::channel(r),
            c.g == Color::channel(g),
            c.b == Color::channel(b),
            c.a == Color::channel(a),
    {
        Color {
            r: Color::to_channel(r),
            g: Color::to_channel(g),
            b: Color::to_channel(b),
            a: Color::to_channel(a),
        }
    }

    /// Opaque color.
    pub fn rgb(r: u8, g: u8, b: u8) -> (c: Color)
        ensures
            c == (Color { r, g, b, a: 255 }),
    {
        Color { r, g, b, a: 255 }
    }

    /// Color with alpha.
    pub fn rgba(r: u8, g: u8, b: u8, a: u8) -> (c: Color)
        ensures
            c == (Color { r, g, b, a }),
    {
        Color { r, g, b, a }
    }

    pub fn r(&self) -> (v: u8)
        ensures
            v == self.r,
    {
        self.r
    }

    pub fn g(&self) -> (v: u8)
        ensures
            v == self.g,
    {
        self.g
    }

    pub fn b(&self) -> (v: u8)
        ensures
            v == self.b,
    {
        self.b
    }

    pub fn black() -> (c: Color)
        ensures
            c == (Color { r: 0, g: 0, b: 0, a: 255 }),
    {
        Color { r: 0, g: 0, b: 0, a: 255 }
    }

    pub fn white() -> (c: Color)
        ensures
            c == (Color { r: 255, g: 255, b: 255, a: 255 }),
    {
        Color { r: 255, g: 255, b: 255, a: 255 }
    }

    pub fn transparent() -> (c: Color)
        ensures
            c == (Color { r: 0, g: 0, b: 0, a: 0 }),
    {
        Color { r: 0, g: 0, b: 0, a: 0 }
    }

    pub fn red() -> (c: Color)
        ensures
            c == (Color { r: 255, g: 0, b: 0, a: 255 }),
    {
        Color { r: 255, g: 0, b: 0, a: 255 }
    }

    pub fn green() -> (c: Color)
        ensures
            c == (Color { r: 0, g: 255, b: 0, a: 255 }),
    {
        Color { r: 0, g: 255, b: 0, a: 255 }
    }

    pub fn blue() -> (c: Color)
        ensures
            c == (Color { r: 0, g: 0, b: 255, a: 255 }),
    {
        Color { r: 0, g: 0, b: 255, a: 255 }
    }

    /// Appends `#rrggbb`.
    pub fn push_hex6(&self, out: &mut String)
        ensures
            final(out)@ == old(out)@ + self.hex6(),
    {
        let ghost start = out@;
        out.push('#');
        digits::push_hex_byte(out, self.r);
        digits::push_hex_byte(out, self.g);
        digits::push_hex_byte(out, self.b);
        assert(out@ =~= start + self.hex6());
    }

    /// The CSS hexadecimal form: `#rrggbb` where opaque, else `#rrggbbaa`.
    pub fn to_hex(&self) -> (out: String)
        ensures
            out@ == (if self.a == 255 {
                self.hex6()
            } else {
                self.hex6() + digits::hex_byte(self.a)
            }),
    {
        let mut out = String::new();
        self.push_hex6(&mut out);
        assert(out@ =~= self.hex6());
        if self.a != 255 {
            digits::push_hex_byte(&mut out, self.a);
        }
        out
    }
}

/// A 2D affine transform: `x' = a x + c y + e`, `y' = b x + d y + f`.
#[derive(Debug, Clone, Copy, PartialEq, Eq, Structural)]
pub struct Transform {
    pub a: Scalar,
    pub b: Scalar,
    pub c: Scalar,
    pub d: Scalar,
    pub e: Scalar,
    pub f: Scalar,
}

impl Default for Transform {
    /// The transform that takes every point to the origin.
    fn default() -> (t: Transform)
        ensures
            t.a.bits == 0,
            t.b.bits == 0,
            t.c.bits == 0,
            t.d.bits == 0,
            t.e.bits == 0,
            t.f.bits == 0,
    {
        let zero = Scalar::zero();
        Transform { a: zero, b: zero, c: zero, d: zero, e: zero, f: zero }
    }
}

impl Transform {
    /// The matrix product `self * rhs`: the transform that applies `rhs` first.
    pub open spec fn after(self, rhs: Transform) -> Transform {
        Transform {
            a: self.a.product(rhs.a).sum(self.c.product(rhs.b)),
            b: self.b.product(rhs.a).sum(self.d.product(rhs.b)),
            c: self.a.product(rhs.c).sum(self.c.product(rhs.d)),
            d: self.b.product(rhs.c).sum(self.d.product(rhs.d)),
            e: self.a.product(rhs.e).sum(self.c.product(rhs.f)).sum(self.e),
            f: self.b.product(rhs.e).sum(self.d.product(rhs.f)).sum(self.f),
        }
    }

    /// The image of a point.
    pub open spec fn image(self, p: Point) -> Point {
        Point {
            x: self.a.product(p.x).sum(self.c.product(p.y)).sum(self.e),
            y: self.b.product(p.x).sum(self.d.product(p.y)).sum(self.f),
        }
    }

    pub fn new(a: Scalar, b: Scalar, c: Scalar, d: Scalar, e: Scalar, f: Scalar) -> (t: Transform)
        ensures
            t == (Transform { a, b, c, d, e, f }),
    {
        Transform { a, b, c, d, e, f }
    }

    /// The identity.
    pub fn identity() -> (t: Transform)
        ensures
            t.a.bits == ONE_BITS,
            t.d.bits == ONE_BITS,
            t.b.bits == 0,
            t.c.bits == 0,
            t.e.bits == 0,
            t.f.bits == 0,
    {
        Transform {
            a: Scalar::one(),
            b: Scalar::zero(),
            c: Scalar::zero(),
            d: Scalar::one(),
            e: Scalar::zero(),
            f: Scalar::zero(),
        }
    }

    /// Translation.
    pub fn translate(x: Scalar, y: Scalar) -> (t: Transform)
        ensures
            t.a.bits == ONE_BITS,
            t.d.bits == ONE_BITS,
            t.b.bits == 0,
            t.c.bits == 0,
            t.e == x,
            t.f == y,
    {
        Transform {
            a: Scalar::one(),
            b: Scalar::zero(),
            c: Scalar::zero(),
            d: Scalar::one(),
            e: x,
            f: y,
        }
    }

    /// Uniform scaling.
    pub fn scale(s: Scalar) -> (t: Transform)
        ensures
            t.a == s,
            t.d == s,
            t.b.bits == 0,
            t.c.bits == 0,
            t.e.bits == 0,
            t.f.bits == 0,
    {
        Transform {
            a: s,
            b: Scalar::zero(),
            c: Scalar::zero(),
            d: s,
            e: Scalar::zero(),
            f: Scalar::zero(),
        }
    }

    /// Rotation about the origin by the angle with the given sine and cosine.
    pub fn rotate(sin: Scalar, cos: Scalar) -> (t: Transform)
        ensures
            t.a == cos,
            t.b == sin,
            t.c == sin.negated(),
            t.d == cos,
            t.e.bits == 0,
            t.f.bits == 0,
    {
        Transform { a: cos, b: sin, c: sin.neg(), d: cos, e: Scalar::zero(), f: Scalar::zero() }
    }

    /// The matrix product `l * r`: the transform that applies `r` first.
    pub fn compose(l: &Transform, r: &Transform) -> (t: Transform)
        ensures
            t == l.after(*r),
    {
        Transform {
            a: l.a.mul(r.a).add(l.c.mul(r.b)),
            b: l.b.mul(r.a).add(l.d.mul(r.b)),
            c: l.a.mul(r.c).add(l.c.mul(r.d)),
            d: l.b.mul(r.c).add(l.d.mul(r.d)),
            e: l.a.mul(r.e).add(l.c.mul(r.f)).add(l.e),
            f: l.b.mul(r.e).add(l.d.mul(r.f)).add(l.f),
        }
    }

    /// The composition that applies `self` first and `rhs` after it.
    pub fn then(&self, rhs: &Transform) -> (t: Transform)
        ensures
            t == rhs.after(*self),
    {
        Transform::compose(rhs, self)
    }

    /// The image of a point.
    pub fn apply_point(&self, p: Point) -> (q: Point)
        ensures
            q == self.image(p),
    {
        Point {
            x: self.a.mul(p.x).add(self.c.mul(p.y)).add(self.e),
            y: self.b.mul(p.x).add(self.d.mul(p.y)).add(self.f),
        }
    }
}

} // verus!
