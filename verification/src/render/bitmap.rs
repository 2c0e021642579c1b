//! Bitmaps as they are painted: scaled, faded and placed in a frame.

use vstd::prelude::*;
use vstd::arithmetic::div_mod::lemma_fundamental_div_mod;
use crate::geometry::{Rect, HALF_BITS, TWO_BITS};
use crate::render::raster;
use crate::render::raster::MAX_SIDE;
use crate::scalar::{Scalar, ONE_BITS};
use crate::scene::{ObjectFit, SceneImage};

verus! {

/// The source coordinate of the middle of destination pixel `i`; the first source pixel reaches
/// to the left of its own middle.
pub open spec fn source_coord(i: nat, from: u32, to: u32) -> Scalar {
    Scalar::integer(i).sum(Scalar { bits: HALF_BITS }).product(
        Scalar::integer(from as nat).quotient(Scalar::integer(to as nat)),
    ).difference(Scalar { bits: HALF_BITS }).greatest(raster::zero())
}

/// The source pixel at or before a coordinate.
pub open spec fn pixel_before(f: Scalar, side: u32) -> nat {
    let n = f.floored().truncated(u32::MAX as nat);
    if n < side {
        n
    } else {
        (side - 1) as nat
    }
}

/// The source pixel after one; the last one has none.
pub open spec fn pixel_after(n: nat, side: u32) -> nat {
    if n + 1 < side {
        n + 1
    } else {
        (side - 1) as nat
    }
}

/// How far a coordinate lies between the two pixels around it.
pub open spec fn weight(f: Scalar) -> Scalar {
    f.difference(f.floored()).clamped(raster::zero(), raster::one())
}

/// The mean of two values at a distance `w` from the first.
pub open spec fn blend(a: Scalar, b: Scalar, w: Scalar) -> Scalar {
    a.product(raster::one().difference(w)).sum(b.product(w))
}

pub open spec fn byte_number(b: u8) -> Scalar {
    Scalar::integer(b as nat)
}

/// Channel `c` of pixel `(x, y)`.
pub open spec fn channel_at(src: Seq<u8>, width: u32, x: nat, y: nat, c: int) -> u8 {
    src[(y * width + x) * 4 + c]
}

/// Channel `c` of destination pixel `(x, y)`: bilinear between four source pixels.
pub open spec fn resized_channel(
    src: Seq<u8>,
    sw: u32,
    sh: u32,
    dw: u32,
    dh: u32,
    x: nat,
    y: nat,
    c: int,
) -> u8 {
    let fx = source_coord(x, sw, dw);
    let fy = source_coord(y, sh, dh);
    let x0 = pixel_before(fx, sw);
    let y0 = pixel_before(fy, sh);
    let x1 = pixel_after(x0, sw);
    let y1 = pixel_after(y0, sh);
    let top = blend(
        byte_number(channel_at(src, sw, x0, y0, c)),
        byte_number(channel_at(src, sw, x1, y0, c)),
        weight(fx),
    );
    let bottom = blend(
        byte_number(channel_at(src, sw, x0, y1, c)),
        byte_number(channel_at(src, sw, x1, y1, c)),
        weight(fx),
    );
    blend(top, bottom, weight(fy)).integral().truncated(255) as u8
}

/// A bitmap in another size; itself where the size is the same.
pub open spec fn resized(src: Seq<u8>, sw: u32, sh: u32, dw: u32, dh: u32) -> Seq<u8> {
    if sw == dw && sh == dh {
        src
    } else {
        Seq::new(
            (dw * dh * 4) as nat,
            |i: int|
                resized_channel(
                    src,
                    sw,
                    sh,
                    dw,
                    dh,
                    ((i / 4) % dw as int) as nat,
                    ((i / 4) / dw as int) as nat,
                    i % 4,
                ),
        )
    }
}

fn coord(i: u64, from: u32, to: u32) -> (f: Scalar)
    ensures
        f == source_coord(i as nat, from, to),
{
    let half = Scalar { bits: HALF_BITS };
    Scalar::from_u64(i).add(half).mul(
        Scalar::from_u64(from as u64).div(Scalar::from_u64(to as u64)),
    ).sub(half).max(Scalar { bits: 0 })
}

fn before(f: Scalar, side: u32) -> (n: usize)
    requires
        side > 0,
    ensures
        n == pixel_before(f, side),
        n < side,
{
    let n: u64 = f.floor().to_u64(u32::MAX as u64);
    if n < side as u64 {
        n as usize
    } else {
        (side - 1) as usize
    }
}

fn after(n: usize, side: u32) -> (m: usize)
    requires
        n < side,
    ensures
        m == pixel_after(n as nat, side),
        m < side,
{
    if n < (side - 1) as usize {
        n + 1
    } else {
        (side - 1) as usize
    }
}

fn weight_of(f: Scalar) -> (w: Scalar)
    ensures
        w == weight(f),
{
    f.sub(f.floor()).clamp(Scalar { bits: 0 }, Scalar { bits: ONE_BITS })
}

fn blend_of(a: Scalar, b: Scalar, w: Scalar) -> (r: Scalar)
    ensures
        r == blend(a, b, w),
{
    a.mul((Scalar { bits: ONE_BITS }).sub(w)).add(b.mul(w))
}

fn byte_at(src: &[u8], width: u32, height: u32, x: usize, y: usize, c: usize) -> (r: Scalar)
    requires
        src@.len() == width * height * 4,
        x < width,
        y < height,
        c < 4,
    ensures
        r == byte_number(channel_at(src@, width, x as nat, y as nat, c as int)),
{
    let len: usize = src.len();
    proof {
        lemma_pixel_index(x as int, y as int, width as int, height as int);
        assert(len == src@.len());
    }
    let row: usize = y * width as usize;
    let i: usize = (row + x) * 4 + c;
    Scalar::from_u64(src[i] as u64)
}

proof fn lemma_pixel_index(x: int, y: int, w: int, h: int)
    requires
        0 <= x < w,
        0 <= y < h,
    ensures
        0 <= y * w <= (y * w + x),
        (y * w + x) * 4 + 4 <= w * h * 4,
        y * w <= w * h,
{
    assert(0 <= y * w && y * w + x + 1 <= w * h) by (nonlinear_arith)
        requires
            0 <= x < w,
            0 <= y < h,
    ;
    let n = y * w + x;
    let t = w * h;
    assert((n + 1) * 4 <= t * 4);
}

proof fn lemma_pixel_coords(p: int, w: int, h: int)
    requires
        0 < w,
        0 <= p < w * h,
    ensures
        0 <= p % w < w,
        0 <= p / w < h,
{
    lemma_fundamental_div_mod(p, w);
    assert(p / w < h) by (nonlinear_arith)
        requires
            p == w * (p / w) + p % w,
            p < w * h,
            p % w >= 0,
            w > 0,
    ;
    assert(p / w >= 0) by (nonlinear_arith)
        requires
            p == w * (p / w) + p % w,
            p >= 0,
            p % w < w,
            w > 0,
    ;
}

proof fn lemma_pixel_count(w: int, h: int)
    requires
        0 <= w,
        0 <= h,
    ensures
        w * h * 4 == (w * h) * 4,
        0 <= w * h,
{
    assert(0 <= w * h) by (nonlinear_arith)
        requires
            0 <= w,
            0 <= h,
    ;
}

/// Scales an RGBA bitmap bilinearly.
pub fn resize_rgba8(src: &[u8], sw: u32, sh: u32, dw: u32, dh: u32) -> (out: Vec<u8>)
    requires
        src@.len() == sw * sh * 4,
        sw > 0,
        sh > 0,
        dw * dh * 4 <= usize::MAX,
    ensures
        out@ == resized(src@, sw, sh, dw, dh),
{
    let mut out: Vec<u8> = Vec::new();
    if sw == dw && sh == dh {
        let mut i: usize = 0;
        while i < src.len()
            invariant
                i <= src@.len(),
                out@ == src@.take(i as int),
            decreases src.len() - i,
        {
            out.push(src[i]);
            i += 1;
            assert(out@ =~= src@.take(i as int));
        }
        assert(src@.take(src@.len() as int) =~= src@);
        return out;
    }
    proof {
        lemma_pixel_count(dw as int, dh as int);
    }
    let count: usize = if dw == 0 || dh == 0 {
        0
    } else {
        proof {
            assert(dw * dh <= usize::MAX && dw <= dw * dh && dh <= dw * dh) by (nonlinear_arith)
                requires
                    dw > 0,
                    dh > 0,
                    (dw * dh) * 4 <= usize::MAX,
            ;
        }
        dw as usize * dh as usize
    };
    let ghost all = resized(src@, sw, sh, dw, dh);
    let mut p: usize = 0;
    proof {
        assert(count == dw * dh) by {
            if dw == 0 || dh == 0 {
                assert(dw * dh == 0) by (nonlinear_arith)
                    requires
                        dw == 0 || dh == 0,
                ;
            }
        }
        assert(out@ =~= all.take(0));
    }
    while p < count
        invariant
            p <= count,
            count == dw * dh,
            src@.len() == sw * sh * 4,
            sw > 0,
            sh > 0,
            !(sw == dw && sh == dh),
            all == resized(src@, sw, sh, dw, dh),
            all.len() == count * 4,
            out@ == all.take(p * 4),
        decreases count - p,
    {
        proof {
            assert(dw > 0) by (nonlinear_arith)
                requires
                    p < dw * dh,
                    p >= 0,
            ;
            lemma_pixel_coords(p as int, dw as int, dh as int);
        }
        let w: usize = dw as usize;
        let x: usize = p % w;
        let y: usize = p / w;
        let fx = coord(x as u64, sw, dw);
        let fy = coord(y as u64, sh, dh);
        let x0: usize = before(fx, sw);
        let y0: usize = before(fy, sh);
        let x1: usize = after(x0, sw);
        let y1: usize = after(y0, sh);
        let wx = weight_of(fx);
        let wy = weight_of(fy);
        let mut c: usize = 0;
        while c < 4
            invariant
                c <= 4,
                p < count,
                src@.len() == sw * sh * 4,
                x0 < sw,
                x1 < sw,
                y0 < sh,
                y1 < sh,
                !(sw == dw && sh == dh),
                all == resized(src@, sw, sh, dw, dh),
                all.len() == count * 4,
                x == p % w,
                y == p / w,
                w == dw,
                fx == source_coord(x as nat, sw, dw),
                fy == source_coord(y as nat, sh, dh),
                x0 == pixel_before(fx, sw),
                y0 == pixel_before(fy, sh),
                x1 == pixel_after(x0 as nat, sw),
                y1 == pixel_after(y0 as nat, sh),
                wx == weight(fx),
                wy == weight(fy),
                out@ == all.take(p * 4 + c),
            decreases 4 - c,
        {
            let top = blend_of(
                byte_at(src, sw, sh, x0, y0, c),
                byte_at(src, sw, sh, x1, y0, c),
                wx,
            );
            let bottom = blend_of(
                byte_at(src, sw, sh, x0, y1, c),
                byte_at(src, sw, sh, x1, y1, c),
                wx,
            );
            proof {
                reveal(Scalar::truncated);
            }
            let v: u8 = blend_of(top, bottom, wy).round().to_u64(255) as u8;
            proof {
                let i = p * 4 + c;
                assert(i / 4 == p && i % 4 == c);
                assert(v == all[i]);
            }
            out.push(v);
            c += 1;
            assert(out@ =~= all.take(p * 4 + c));
        }
        p += 1;
    }
    assert(out@ =~= all);
    out
}

/// Where an image lies in its frame: its size and the offset of its corner.
pub struct Placement {
    pub width: Scalar,
    pub height: Scalar,
    pub x: Scalar,
    pub y: Scalar,
}

/// Where an image lies in a frame of a given size.
pub open spec fn placement(
    fit: ObjectFit,
    fw: Scalar,
    fh: Scalar,
    iw: Scalar,
    ih: Scalar,
) -> Placement {
    let zero = raster::zero();
    let two = Scalar { bits: TWO_BITS };
    match fit {
        ObjectFit::Fill => Placement { width: fw, height: fh, x: zero, y: zero },
        ObjectFit::Original => Placement { width: iw, height: ih, x: zero, y: zero },
        _ => {
            let across = fw.quotient(iw);
            let down = fh.quotient(ih);
            let scale = if fit == ObjectFit::Cover {
                across.greatest(down)
            } else {
                across.least(down)
            };
            let w = iw.product(scale);
            let h = ih.product(scale);
            Placement {
                width: w,
                height: h,
                x: fw.difference(w).quotient(two),
                y: fh.difference(h).quotient(two),
            }
        },
    }
}

fn place(fit: ObjectFit, fw: Scalar, fh: Scalar, iw: Scalar, ih: Scalar) -> (r: (
    Scalar,
    Scalar,
    Scalar,
    Scalar,
))
    ensures
        r.0 == placement(fit, fw, fh, iw, ih).width,
        r.1 == placement(fit, fw, fh, iw, ih).height,
        r.2 == placement(fit, fw, fh, iw, ih).x,
        r.3 == placement(fit, fw, fh, iw, ih).y,
{
    let zero = Scalar { bits: 0 };
    let two = Scalar { bits: TWO_BITS };
    match fit {
        ObjectFit::Fill => (fw, fh, zero, zero),
        ObjectFit::Original => (iw, ih, zero, zero),
        _ => {
            let across = fw.div(iw);
            let down = fh.div(ih);
            let scale = match fit {
                ObjectFit::Cover => across.max(down),
                _ => across.min(down),
            };
            let w = iw.mul(scale);
            let h = ih.mul(scale);
            (w, h, fw.sub(w).div(two), fh.sub(h).div(two))
        },
    }
}

/// A length as a number of pixels, between 1 and the largest side.
pub open spec fn pixel_side(a: Scalar) -> nat {
    let n = a.ceiled().truncated(MAX_SIDE as nat);
    if n == 0 {
        1
    } else {
        n
    }
}

fn pixels_of(a: Scalar) -> (n: u32)
    ensures
        n == pixel_side(a),
        1 <= n <= MAX_SIDE,
{
    proof {
        reveal(Scalar::truncated);
    }
    let n: u64 = a.ceil().to_u64(MAX_SIDE);
    if n == 0 {
        1
    } else {
        n as u32
    }
}

/// The alpha channel with an opacity.
pub open spec fn faded_alpha(a: u8, opacity: Scalar) -> u8 {
    byte_number(a).product(opacity).truncated(255) as u8
}

/// A channel multiplied by alpha.
pub open spec fn multiplied(c: u8, a: u8) -> u8 {
    (c as int * a as int / 255) as u8
}

/// An RGBA bitmap with an opacity, its colors multiplied by alpha.
pub open spec fn premultiplied(rgba: Seq<u8>, opacity: Scalar) -> Seq<u8> {
    Seq::new(
        rgba.len(),
        |i: int|
            {
                let a = faded_alpha(rgba[i / 4 * 4 + 3], opacity);
                if i % 4 == 3 {
                    a
                } else {
                    multiplied(rgba[i], a)
                }
            },
    )
}

/// Multiplies the colors of an RGBA bitmap by its alpha and by an opacity.
pub fn premultiply(rgba: &Vec<u8>, opacity: Scalar) -> (out: Vec<u8>)
    requires
        rgba@.len() % 4 == 0,
    ensures
        out@ == premultiplied(rgba@, opacity),
{
    let len: usize = rgba.len();
    let mut out: Vec<u8> = Vec::new();
    let ghost all = premultiplied(rgba@, opacity);
    let mut i: usize = 0;
    assert(out@ =~= all.take(0));
    while i < len
        invariant
            i <= len,
            len == rgba@.len(),
            len % 4 == 0,
            i % 4 == 0,
            all == premultiplied(rgba@, opacity),
            out@ == all.take(i as int),
        decreases len - i,
    {
        proof {
            reveal(Scalar::truncated);
        }
        let a: u8 = Scalar::from_u64(rgba[i + 3] as u64).mul(opacity).to_u64(255) as u8;
        let r: u8 = multiply(rgba[i], a);
        let g: u8 = multiply(rgba[i + 1], a);
        let b: u8 = multiply(rgba[i + 2], a);
        out.push(r);
        out.push(g);
        out.push(b);
        out.push(a);
        proof {
            assert((i + 1) / 4 * 4 == i && (i + 2) / 4 * 4 == i && (i + 3) / 4 * 4 == i && i as int
                / 4 * 4 == i);
            assert(all[i as int] == r && all[i + 1] == g && all[i + 2] == b && all[i + 3] == a);
            assert(out@ =~= all.take(i + 4));
        }
        i += 4;
    }
    assert(out@ =~= all);
    out
}

fn multiply(c: u8, a: u8) -> (r: u8)
    ensures
        r == multiplied(c, a),
{
    proof {
        assert(c as int * a as int <= 255 * 255) by (nonlinear_arith)
            requires
                0 <= c <= 255,
                0 <= a <= 255,
        ;
        assert(0 <= c as int * a as int) by (nonlinear_arith)
            requires
                0 <= c,
                0 <= a,
        ;
    }
    ((c as u32 * a as u32) / 255) as u8
}

/// Byte `i` of a frame of the given width that holds a bitmap at an offset; transparent outside
/// the bitmap.
pub open spec fn framed_byte(
    src: Seq<u8>,
    sw: u32,
    sh: u32,
    fw: u32,
    ox: int,
    oy: int,
    i: int,
) -> u8 {
    let x = (i / 4) % fw as int - ox;
    let y = (i / 4) / fw as int - oy;
    if 0 <= x < sw && 0 <= y < sh {
        src[(y * sw + x) * 4 + i % 4]
    } else {
        0
    }
}

/// A frame that holds a bitmap at an offset.
pub open spec fn framed(
    src: Seq<u8>,
    sw: u32,
    sh: u32,
    fw: u32,
    fh: u32,
    ox: int,
    oy: int,
) -> Seq<u8> {
    Seq::new((fw * fh * 4) as nat, |i: int| framed_byte(src, sw, sh, fw, ox, oy, i))
}

/// Copies a bitmap into a transparent frame; what lies outside the frame is cut off.
pub fn blit(src: &Vec<u8>, sw: u32, sh: u32, fw: u32, fh: u32, ox: i64, oy: i64) -> (out: Vec<u8>)
    requires
        src@.len() == sw * sh * 4,
        fw <= MAX_SIDE,
        fh <= MAX_SIDE,
        fw * fh * 4 <= usize::MAX,
        -0x10_0000_0000_0000 < ox < 0x10_0000_0000_0000,
        -0x10_0000_0000_0000 < oy < 0x10_0000_0000_0000,
    ensures
        out@ == framed(src@, sw, sh, fw, fh, ox as int, oy as int),
{
    let len: usize = src.len();
    let mut out: Vec<u8> = Vec::new();
    let ghost all = framed(src@, sw, sh, fw, fh, ox as int, oy as int);
    proof {
        lemma_pixel_count(fw as int, fh as int);
        assert(fw * fh <= 65535 * 65535) by (nonlinear_arith)
            requires
                fw <= 65535,
                fh <= 65535,
        ;
    }
    let count: u64 = fw as u64 * fh as u64;
    let mut p: u64 = 0;
    assert(out@ =~= all.take(0));
    while p < count
        invariant
            p <= count,
            count == fw * fh,
            count <= 65535 * 65535,
            fw <= MAX_SIDE,
            fh <= MAX_SIDE,
            len == src@.len(),
            src@.len() == sw * sh * 4,
            -0x10_0000_0000_0000 < ox < 0x10_0000_0000_0000,
            -0x10_0000_0000_0000 < oy < 0x10_0000_0000_0000,
            all == framed(src@, sw, sh, fw, fh, ox as int, oy as int),
            all.len() == count * 4,
            out@ == all.take(p * 4),
        decreases count - p,
    {
        proof {
            assert(fw > 0) by (nonlinear_arith)
                requires
                    p < fw * fh,
                    p >= 0,
            ;
            lemma_pixel_coords(p as int, fw as int, fh as int);
        }
        let w: u64 = fw as u64;
        let x: i64 = (p % w) as i64 - ox;
        let y: i64 = (p / w) as i64 - oy;
        let inside = 0 <= x && x < sw as i64 && 0 <= y && y < sh as i64;
        let base: usize = if inside {
            proof {
                lemma_pixel_index(x as int, y as int, sw as int, sh as int);
            }
            (y as usize * sw as usize + x as usize) * 4
        } else {
            0
        };
        let mut c: usize = 0;
        while c < 4
            invariant
                c <= 4,
                p < count,
                len == src@.len(),
                src@.len() == sw * sh * 4,
                all == framed(src@, sw, sh, fw, fh, ox as int, oy as int),
                all.len() == count * 4,
                x == p as int % fw as int - ox,
                y == p as int / fw as int - oy,
                inside == (0 <= x < sw && 0 <= y < sh),
                inside ==> base == (y * sw + x) * 4 && base + 4 <= len,
                out@ == all.take(p * 4 + c),
            decreases 4 - c,
        {
            let v: u8 = if inside {
                src[base + c]
            } else {
                0
            };
            proof {
                let i = p * 4 + c;
                assert(i / 4 == p && i % 4 == c);
                assert(v == all[i]);
            }
            out.push(v);
            c += 1;
            assert(out@ =~= all.take(p * 4 + c));
        }
        p += 1;
    }
    assert(out@ =~= all);
    out
}

/// A bitmap that is painted into a rectangle, its colors multiplied by alpha.
#[derive(Debug)]
pub struct FrameImage {
    pub width: u32,
    pub height: u32,
    pub pixels: Vec<u8>,
    pub area: Rect,
}

/// A side of the frame, at least 1.
pub open spec fn frame_side(lo: Scalar, hi: Scalar) -> Scalar {
    hi.difference(lo).greatest(raster::one())
}

/// Where the image lies in its frame.
pub open spec fn image_placement(image: SceneImage, frame: Rect) -> Placement {
    placement(
        image.object_fit,
        frame_side(frame.x0, frame.x1),
        frame_side(frame.y0, frame.y1),
        Scalar::integer(image.pixmap.columns() as nat),
        Scalar::integer(image.pixmap.rows() as nat),
    )
}

/// The largest offset.
pub const OFFSET_CAP: u64 = 0xf_ffff_ffff_ffff;

/// The pixels of the frame.
pub open spec fn frame_bytes(image: SceneImage, frame: Rect, opacity: Scalar) -> Seq<u8> {
    let at = image_placement(image, frame);
    let dw = pixel_side(at.width) as u32;
    let dh = pixel_side(at.height) as u32;
    framed(
        premultiplied(
            resized(image.pixmap.rgba(), image.pixmap.columns(), image.pixmap.rows(), dw, dh),
            opacity.clamped(raster::zero(), raster::one()),
        ),
        dw,
        dh,
        pixel_side(frame_side(frame.x0, frame.x1)) as u32,
        pixel_side(frame_side(frame.y0, frame.y1)) as u32,
        at.x.floored().truncated_signed(OFFSET_CAP as nat),
        at.y.floored().truncated_signed(OFFSET_CAP as nat),
    )
}

/// The bitmaps that are made fit into memory.
pub open spec fn addressable(image: SceneImage, frame: Rect) -> bool {
    let at = image_placement(image, frame);
    &&& pixel_side(at.width) * pixel_side(at.height) * 4 <= usize::MAX
    &&& pixel_side(frame_side(frame.x0, frame.x1)) * pixel_side(frame_side(frame.y0, frame.y1)) * 4
        <= usize::MAX
}

/// The bitmap that an image paints into its frame; none for an image without pixels.
pub fn frame_image(image: &SceneImage, frame: Rect, opacity: Scalar) -> (r: Option<FrameImage>)
    requires
        addressable(*image, frame),
    ensures
        r is None <==> image.pixmap.columns() == 0 || image.pixmap.rows() == 0,
        r matches Some(f) ==> {
            let fw = frame_side(frame.x0, frame.x1);
            let fh = frame_side(frame.y0, frame.y1);
            &&& f.width == pixel_side(fw)
            &&& f.height == pixel_side(fh)
            &&& f.pixels@ == frame_bytes(*image, frame, opacity)
            &&& f.area == (Rect {
                x0: frame.ordered().x0,
                y0: frame.ordered().y0,
                x1: frame.ordered().x0.sum(fw),
                y1: frame.ordered().y0.sum(fh),
            })
        },
{
    let sw: u32 = image.width();
    let sh: u32 = image.height();
    if sw == 0 || sh == 0 {
        return None;
    }
    let one = Scalar { bits: ONE_BITS };
    let zero = Scalar { bits: 0 };
    let fw = frame.width().max(one);
    let fh = frame.height().max(one);
    let (w, h, x, y) = place(
        image.object_fit,
        fw,
        fh,
        Scalar::from_u64(sw as u64),
        Scalar::from_u64(sh as u64),
    );
    let dw: u32 = pixels_of(w);
    let dh: u32 = pixels_of(h);
    let frame_w: u32 = pixels_of(fw);
    let frame_h: u32 = pixels_of(fh);
    proof {
        lemma_pixel_count(dw as int, dh as int);
        lemma_pixel_count(sw as int, sh as int);
        assert(4 * sw * sh == (sw * sh) * 4) by (nonlinear_arith);
        reveal(Scalar::truncated);
    }
    let rgba = resize_rgba8(image.pixmap.pixels(), sw, sh, dw, dh);
    assert(rgba@.len() == (dw * dh) * 4);
    let src = premultiply(&rgba, opacity.clamp(zero, one));
    let ox: i64 = x.floor().to_i64(OFFSET_CAP);
    let oy: i64 = y.floor().to_i64(OFFSET_CAP);
    let pixels = blit(&src, dw, dh, frame_w, frame_h, ox, oy);
    let x0 = frame.min_x();
    let y0 = frame.min_y();
    Some(
        FrameImage {
            width: frame_w,
            height: frame_h,
            pixels,
            area: Rect { x0, y0, x1: x0.add(fw), y1: y0.add(fh) },
        },
    )
}

} // verus!
