//! Pixels and glyph bitmaps.
//!
//! A rasterized glyph arrives either as an 8-bit alpha mask (one byte per
//! pixel, tinted with a default color when painted) or as a pre-colored RGBA
//! bitmap (four bytes per pixel, premultiplied, never tinted). Before upload
//! every bitmap is rendered to premultiplied RGBA bytes.

use vstd::prelude::*;

verus! {

/// One RGBA pixel with premultiplied alpha.
#[derive(Clone, Copy, PartialEq, Eq, Structural, Debug)]
pub struct Rgba {
    pub r: u8,
    pub g: u8,
    pub b: u8,
    pub a: u8,
}

impl Rgba {
    /// The fully transparent pixel that blank atlas space holds.
    pub open spec fn spec_transparent() -> Rgba {
        Rgba { r: 0, g: 0, b: 0, a: 0 }
    }
}

/// How a glyph bitmap's bytes are to be read.
#[derive(Clone, Copy, PartialEq, Eq, Structural, Debug)]
pub enum GlyphContent {
    /// One byte per pixel: coverage, painted in the default color.
    Mask,
    /// Four bytes per pixel: premultiplied RGBA, painted as is.
    Color,
}

/// A rasterized glyph: dimensions, placement offsets relative to the pen
/// position, and the raw bytes in the layout that `content` names.
#[derive(Clone, Debug)]
pub struct GlyphBitmap {
    pub width: u32,
    pub height: u32,
    pub left: i32,
    pub top: i32,
    pub content: GlyphContent,
    pub data: Vec<u8>,
}

impl GlyphBitmap {
    /// Bytes per pixel of the raw data.
    pub open spec fn channels(&self) -> int {
        match self.content {
            GlyphContent::Mask => 1,
            GlyphContent::Color => 4,
        }
    }

    /// The raw bytes cover the stated dimensions exactly, and the rendered
    /// RGBA form (four bytes per pixel) fits in memory.
    pub open spec fn wf(&self) -> bool {
        &&& self.data.len() == self.width * self.height * self.channels()
        &&& self.width * self.height * 4 <= usize::MAX
    }

    /// The pixel at linear index `idx` (row-major) once painted with
    /// `default_color`: a mask byte premultiplies the default color and
    /// supplies the alpha; a color bitmap supplies all four bytes itself.
    pub open spec fn pixel(&self, default_color: Rgba, idx: int) -> Rgba {
        match self.content {
            GlyphContent::Mask => Rgba {
                r: premul(default_color.r, self.data[idx]),
                g: premul(default_color.g, self.data[idx]),
                b: premul(default_color.b, self.data[idx]),
                a: self.data[idx],
            },
            GlyphContent::Color => Rgba {
                r: self.data[4 * idx],
                g: self.data[4 * idx + 1],
                b: self.data[4 * idx + 2],
                a: self.data[4 * idx + 3],
            },
        }
    }

    /// The painted pixel in column `col` of row `row`.
    pub open spec fn pixel_at(&self, default_color: Rgba, col: int, row: int) -> Rgba {
        self.pixel(default_color, row * self.width + col)
    }
}

/// A color channel premultiplied by an alpha, rounded to nearest.
pub open spec fn premul(c: u8, a: u8) -> u8 {
    (((c * a) + 127) / 255) as u8
}

/// Computes `premul` on channel bytes.
fn premul_channel(c: u8, a: u8) -> (r: u8)
    ensures
        r == premul(c, a),
{
    proof {
        vstd::arithmetic::mul::lemma_mul_upper_bound(c as int, 255, a as int, 255);
    }
    (((c as u32) * (a as u32) + 127) / 255) as u8
}

/// Reads pixel `idx` out of a flat premultiplied-RGBA byte buffer.
pub open spec fn rgba_pixel(data: Seq<u8>, idx: int) -> Rgba {
    Rgba { r: data[4 * idx], g: data[4 * idx + 1], b: data[4 * idx + 2], a: data[4 * idx + 3] }
}

/// Whether the bitmap's raw bytes match its stated dimensions.
pub fn bitmap_is_wf(bitmap: &GlyphBitmap) -> (r: bool)
    ensures
        r == bitmap.wf(),
{
    proof {
        vstd::arithmetic::mul::lemma_mul_upper_bound(
            bitmap.width as int,
            u32::MAX as int,
            bitmap.height as int,
            u32::MAX as int,
        );
    }
    let pixel_count: u128 = (bitmap.width as u128) * (bitmap.height as u128);
    let rgba_len: u128 = pixel_count * 4;
    if rgba_len > usize::MAX as u128 {
        return false;
    }
    let expected: u128 = match bitmap.content {
        GlyphContent::Mask => pixel_count,
        GlyphContent::Color => rgba_len,
    };
    bitmap.data.len() as u128 == expected
}

/// Renders a glyph bitmap to premultiplied RGBA bytes, four per pixel,
/// painting mask pixels with the default color.
pub fn render_rgba(bitmap: &GlyphBitmap, default_color: Rgba) -> (out: Vec<u8>)
    requires
        bitmap.wf(),
    ensures
        out@.len() == bitmap.width * bitmap.height * 4,
        forall|idx: int|
            0 <= idx < bitmap.width * bitmap.height ==> rgba_pixel(out@, idx) == bitmap.pixel(
                default_color,
                idx,
            ),
{
    let pixel_count: usize = (bitmap.width as usize) * (bitmap.height as usize);
    let mut out: Vec<u8> = Vec::new();
    let mut i: usize = 0;
    while i < pixel_count
        invariant
            bitmap.wf(),
            pixel_count == bitmap.width * bitmap.height,
            i <= pixel_count,
            out@.len() == 4 * i,
            forall|idx: int|
                0 <= idx < i ==> rgba_pixel(out@, idx) == bitmap.pixel(default_color, idx),
        decreases pixel_count - i,
    {
        match bitmap.content {
            GlyphContent::Mask => {
                let coverage = bitmap.data[i];
                out.push(premul_channel(default_color.r, coverage));
                out.push(premul_channel(default_color.g, coverage));
                out.push(premul_channel(default_color.b, coverage));
                out.push(coverage);
            },
            GlyphContent::Color => {
                out.push(bitmap.data[4 * i]);
                out.push(bitmap.data[4 * i + 1]);
                out.push(bitmap.data[4 * i + 2]);
                out.push(bitmap.data[4 * i + 3]);
            },
        }
        i = i + 1;
    }
    out
}

} // verus!
