//! RGBA8 bitmaps and their PNG encoding.
//!
//! Pixels are tightly packed, row by row from the top left, with plain (not premultiplied) alpha.

use vstd::prelude::*;
use crate::copy::copied;

verus! {

/// An RGBA8 bitmap; its pixels take `4 * width * height` bytes.
#[derive(Debug, PartialEq, Eq)]
pub struct Pixmap {
    width: u32,
    height: u32,
    pixels: Vec<u8>,
}

/// What a PNG file holds, as the `png` crate reads it: width, height, the codes of the color type
/// and of the bit depth, and the bytes of the image.
pub uninterp spec fn png_frame(bytes: Seq<u8>) -> Option<(u32, u32, u8, u8, Seq<u8>)>;

/// The samples of a pixel of a PNG color type.
pub open spec fn samples(color: u8) -> nat {
    if color == 2 {
        3
    } else if color == 4 {
        2
    } else if color == 6 {
        4
    } else {
        1
    }
}

/// The bytes that one sample is taken to have.
pub open spec fn sample_bytes(depth: u8) -> nat {
    if depth == 8 {
        1
    } else {
        2
    }
}

/// The first byte of sample `j` of pixel `i`.
pub open spec fn sample(data: Seq<u8>, color: u8, depth: u8, i: int, j: int) -> u8 {
    data[i * (samples(color) * sample_bytes(depth)) + j * sample_bytes(depth)]
}

/// Channel `j` of pixel `i` as RGBA8: gray stands for all three colors, and alpha is opaque where
/// the image has none.
pub open spec fn channel(data: Seq<u8>, color: u8, depth: u8, i: int, j: int) -> u8 {
    if color == 6 {
        sample(data, color, depth, i, j)
    } else if color == 2 {
        if j == 3 {
            255
        } else {
            sample(data, color, depth, i, j)
        }
    } else if color == 4 {
        if j == 3 {
            sample(data, color, depth, i, 1)
        } else {
            sample(data, color, depth, i, 0)
        }
    } else if j == 3 {
        255
    } else {
        sample(data, color, depth, i, 0)
    }
}

/// The image as RGBA8, or `None` where there are too few bytes for its size.
pub open spec fn normalized(data: Seq<u8>, color: u8, depth: u8, width: u32, height: u32) -> Option<
    Seq<u8>,
> {
    let n = width as nat * height as nat;
    if data.len() < n * (samples(color) * sample_bytes(depth)) {
        None
    } else {
        Some(Seq::new(4 * n, |k: int| channel(data, color, depth, k / 4, k % 4)))
    }
}

/// The bitmap in a PNG file.
pub open spec fn decoded(bytes: Seq<u8>) -> Option<(u32, u32, Seq<u8>)> {
    match png_frame(bytes) {
        None => None,
        Some((w, h, color, depth, data)) => match normalized(data, color, depth, w, h) {
            None => None,
            Some(px) => Some((w, h, px)),
        },
    }
}

/// Encodes RGBA8 pixels with `png::Encoder`.
///
/// Claimed: `png::Decoder` reads from the result the size, color type 6 (RGBA), depth 8 and bytes
/// that went in, since the encoding is lossless, as long as one row fits the decoder's default
/// limit of 64 MiB, and that it refuses the result where a row does not fit. The compressed bytes
/// themselves may differ between machines; nothing is claimed of them.
#[verifier::external_body]
fn encode_rgba8(width: u32, height: u32, pixels: &[u8]) -> (out: Vec<u8>)
    requires
        width > 0,
        height > 0,
        pixels@.len() == 4 * width * height,
    ensures
        width <= 0x100_0000 ==> png_frame(out@) == Some((width, height, 6u8, 8u8, pixels@)),
        width > 0x100_0000 ==> png_frame(out@) is None,
{
    let mut out: Vec<u8> = Vec::new();
    let mut encoder = png::Encoder::new(&mut out, width, height);
    encoder.set_color(png::ColorType::Rgba);
    encoder.set_depth(png::BitDepth::Eight);
    let mut writer = encoder.write_header().expect("PNG header");
    writer.write_image_data(pixels).expect("PNG image data");
    drop(writer);
    out
}

/// Decodes the first image of a PNG file with `png::Decoder`, without transformations.
///
/// Claimed: the result is a function of the bytes, and the codes are those of `png::ColorType` and
/// `png::BitDepth`. `None` stands for every failure of the decoder.
#[verifier::external_body]
fn decode_frame(bytes: &[u8]) -> (r: Option<(u32, u32, u8, u8, Vec<u8>)>)
    ensures
        r is None <==> png_frame(bytes@) is None,
        r matches Some(f) ==> png_frame(bytes@) == Some((f.0, f.1, f.2, f.3, f.4@)),
{
    let mut reader = png::Decoder::new(std::io::Cursor::new(bytes)).read_info().ok()?;
    let mut data = vec![0u8; reader.output_buffer_size()?];
    let info = reader.next_frame(&mut data).ok()?;
    data.truncate(info.buffer_size());
    let (color, depth) = reader.output_color_type();
    Some((info.width, info.height, color as u8, depth as u8, data))
}

/// Converts the bytes of an image to RGBA8: gray to the three colors, no alpha to opaque, and
/// samples of two bytes to their first one.
pub fn normalize_to_rgba8(data: &Vec<u8>, color: u8, depth: u8, width: u32, height: u32) -> (r:
    Option<Vec<u8>>)
    ensures
        r is None <==> normalized(data@, color, depth, width, height) is None,
        r matches Some(v) ==> normalized(data@, color, depth, width, height) == Some(v@),
{
    let spp: u128 = if color == 2 {
        3
    } else if color == 4 {
        2
    } else if color == 6 {
        4
    } else {
        1
    };
    let step: u128 = if depth == 8 {
        1
    } else {
        2
    };
    let stride: u128 = spp * step;
    proof {
        assert(width * height <= 0xffff_ffff * 0xffff_ffff) by (nonlinear_arith)
            requires
                width <= 0xffff_ffff,
                height <= 0xffff_ffff,
        ;
    }
    let n: u128 = width as u128 * height as u128;
    proof {
        assert(n * stride <= (0xffff_ffff * 0xffff_ffff) * 8) by (nonlinear_arith)
            requires
                n <= 0xffff_ffff * 0xffff_ffff,
                stride <= 8,
        ;
    }
    if (data.len() as u128) < n * stride {
        return None;
    }
    let ghost total = n as nat;
    proof {
        assert(n <= n * stride) by (nonlinear_arith)
            requires
                stride >= 1,
        ;
    }
    let count: usize = n as usize;
    let len: usize = data.len();
    let bytes: usize = step as usize;
    let jump: usize = stride as usize;
    let mut out: Vec<u8> = Vec::new();
    let mut i: usize = 0;
    let mut base: usize = 0;
    assert(0 * jump == 0);
    while i < count
        invariant
            i <= count,
            count == total,
            bytes == sample_bytes(depth),
            jump == samples(color) * sample_bytes(depth),
            base == i * jump,
            count * jump <= len,
            len == data@.len(),
            out@.len() == 4 * i,
            forall|k: int|
                0 <= k < 4 * i ==> #[trigger] out@[k] == channel(data@, color, depth, k / 4, k % 4),
        decreases count - i,
    {
        proof {
            assert((i + 1) * jump == i * jump + jump) by (nonlinear_arith);
            assert((i + 1) * jump <= count * jump) by (nonlinear_arith)
                requires
                    i + 1 <= count,
            ;
        }
        let (r, g, b, a): (u8, u8, u8, u8) = if color == 6 {
            (data[base], data[base + bytes], data[base + 2 * bytes], data[base + 3 * bytes])
        } else if color == 2 {
            (data[base], data[base + bytes], data[base + 2 * bytes], 255)
        } else if color == 4 {
            let v: u8 = data[base];
            (v, v, v, data[base + bytes])
        } else {
            let v: u8 = data[base];
            (v, v, v, 255)
        };
        let ghost before = out@;
        out.push(r);
        out.push(g);
        out.push(b);
        out.push(a);
        proof {
            assert forall|k: int| 0 <= k < 4 * (i + 1) implies #[trigger] out@[k] == channel(
                data@,
                color,
                depth,
                k / 4,
                k % 4,
            ) by {
                if k < 4 * i {
                    assert(out@[k] == before[k]);
                } else {
                    assert(k / 4 == i);
                    assert(k == 4 * i + k % 4);
                }
            }
        }
        base += jump;
        i += 1;
    }
    proof {
        assert(out@ =~= Seq::new(4 * total, |k: int| channel(data@, color, depth, k / 4, k % 4)));
    }
    Some(out)
}

/// RGBA8 bytes are already normalized.
pub proof fn lemma_rgba8_normalized(data: Seq<u8>, width: u32, height: u32)
    requires
        data.len() == 4 * width * height,
    ensures
        normalized(data, 6, 8, width, height) == Some(data),
{
    let n = width as nat * height as nat;
    assert(4 * width * height == n * 4) by (nonlinear_arith)
        requires
            n == width as nat * height as nat,
    ;
    let out = Seq::new(4 * n, |k: int| channel(data, 6, 8, k / 4, k % 4));
    assert forall|k: int| 0 <= k < 4 * n implies out[k] == data[k] by {
        assert(k / 4 * 4 + k % 4 * 1 == k);
    }
    assert(out =~= data);
}

impl Pixmap {
    #[verifier::type_invariant]
    closed spec fn well_formed(&self) -> bool {
        self.pixels@.len() == 4 * self.width * self.height
    }

    /// The width in pixels.
    pub closed spec fn columns(&self) -> u32 {
        self.width
    }

    /// The height in pixels.
    pub closed spec fn rows(&self) -> u32 {
        self.height
    }

    /// The bytes of the pixels.
    pub closed spec fn rgba(&self) -> Seq<u8> {
        self.pixels@
    }

    /// A bitmap of RGBA8 pixels; `None` where there are not `4 * width * height` bytes.
    pub fn from_rgba8(width: u32, height: u32, pixels: Vec<u8>) -> (r: Option<Pixmap>)
        ensures
            r is Some <==> pixels@.len() == 4 * width * height,
            r matches Some(p) ==> p.columns() == width && p.rows() == height && p.rgba()
                == pixels@,
    {
        proof {
            assert(width * height <= 0xffff_ffff * 0xffff_ffff) by (nonlinear_arith)
                requires
                    width <= 0xffff_ffff,
                    height <= 0xffff_ffff,
            ;
            assert(4 * width * height == (width * height) * 4) by (nonlinear_arith);
        }
        let expect: u128 = (width as u128 * height as u128) * 4;
        if pixels.len() as u128 != expect {
            return None;
        }
        Some(Pixmap { width, height, pixels })
    }

    /// Pixel width.
    pub fn width(&self) -> (w: u32)
        ensures
            w == self.columns(),
    {
        self.width
    }

    /// Pixel height.
    pub fn height(&self) -> (h: u32)
        ensures
            h == self.rows(),
    {
        self.height
    }

    /// The RGBA8 bytes.
    pub fn pixels(&self) -> (p: &[u8])
        ensures
            p@ == self.rgba(),
            p@.len() == 4 * self.columns() * self.rows(),
    {
        proof {
            use_type_invariant(self);
        }
        self.pixels.as_slice()
    }

    /// Encodes the bitmap as a PNG file.
    ///
    /// Decoding the file gives the bitmap back, up to the widest row that a decoder takes.
    pub fn to_png(&self) -> (out: Vec<u8>)
        requires
            self.columns() > 0,
            self.rows() > 0,
        ensures
            self.columns() <= 0x100_0000 ==> decoded(out@) == Some(
                (self.columns(), self.rows(), self.rgba()),
            ),
            self.columns() > 0x100_0000 ==> decoded(out@) is None,
    {
        proof {
            use_type_invariant(self);
            lemma_rgba8_normalized(self.pixels@, self.width, self.height);
        }
        encode_rgba8(self.width, self.height, self.pixels.as_slice())
    }

    /// Decodes a PNG file; `None` where it cannot be decoded.
    pub fn decode_png(bytes: &[u8]) -> (r: Option<Pixmap>)
        ensures
            r is None <==> decoded(bytes@) is None,
            r matches Some(p) ==> decoded(bytes@) == Some((p.columns(), p.rows(), p.rgba())),
    {
        match decode_frame(bytes) {
            None => None,
            Some((w, h, color, depth, data)) => match normalize_to_rgba8(
                &data,
                color,
                depth,
                w,
                h,
            ) {
                None => None,
                Some(rgba) => {
                    proof {
                        assert(4 * w * h == 4 * (w as nat * h as nat)) by (nonlinear_arith);
                    }
                    Pixmap::from_rgba8(w, h, rgba)
                },
            },
        }
    }
}

impl Clone for Pixmap {
    fn clone(&self) -> (r: Pixmap)
        ensures
            r.columns() == self.columns(),
            r.rows() == self.rows(),
            r.rgba() == self.rgba(),
    {
        proof {
            use_type_invariant(self);
        }
        Pixmap { width: self.width, height: self.height, pixels: copied(&self.pixels) }
    }
}

} // verus!
