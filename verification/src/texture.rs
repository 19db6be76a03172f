//! The backing store: one square texture and a model of its pixels.
//!
//! The real pixels live in a GPU-visible texture managed by the backend. The
//! `image` field is this library's model of them: every verified write sends
//! bytes through a trusted upload wrapper and records the same pixels in the
//! model, so contracts downstream can speak about what the atlas shows.

use crate::ext_egui::{load_atlas_texture, texture_handle_id};
use crate::pixels::{render_rgba, GlyphBitmap, Rgba};
use vstd::prelude::*;

verus! {

/// The pixel positions of a square of the given side.
pub open spec fn square_domain(side: int) -> Set<(int, int)> {
    Set::new(|p: (int, int)| 0 <= p.0 < side && 0 <= p.1 < side)
}

/// Every pixel of the square transparent.
pub open spec fn blank_image(side: int) -> Map<(int, int), Rgba> {
    Map::new(
        |p: (int, int)| 0 <= p.0 < side && 0 <= p.1 < side,
        |p: (int, int)| Rgba::spec_transparent(),
    )
}

/// `img` with `bitmap` painted over the region whose top-left corner is
/// (x, y).
pub open spec fn blit(
    img: Map<(int, int), Rgba>,
    x: int,
    y: int,
    bitmap: GlyphBitmap,
    default_color: Rgba,
) -> Map<(int, int), Rgba> {
    Map::new(
        |p: (int, int)| img.dom().contains(p),
        |p: (int, int)|
            if x <= p.0 < x + bitmap.width && y <= p.1 < y + bitmap.height {
                bitmap.pixel_at(default_color, p.0 - x, p.1 - y)
            } else {
                img[p]
            },
    )
}

/// The GPU-visible square the glyph bitmaps are packed into, with the model
/// of its pixels. Only `create` pairs a handle with a side, so the side
/// field is the real texture's side and the trusted upload below leans on
/// it.
pub struct AtlasTexture {
    pub handle: egui::TextureHandle,
    pub id: egui::TextureId,
    pub side: usize,
    pub image: Ghost<Map<(int, int), Rgba>>,
}

/// Relies on egui::TextureHandle::set_partial: the width-by-height region
/// with top-left corner (x, y) is replaced with the given bytes, four per
/// pixel. The backend rejects a region that leaves the texture, which is
/// `t.side` pixels square (established by `create`), so the bounds are
/// required here.
#[verifier::external_body]
fn upload_region(
    t: &mut AtlasTexture,
    x: usize,
    y: usize,
    width: usize,
    height: usize,
    rgba: &Vec<u8>,
)
    requires
        rgba.len() == width * height * 4,
        x + width <= old(t).side,
        y + height <= old(t).side,
    ensures
        final(t).side == old(t).side,
        final(t).id == old(t).id,
        final(t).image == old(t).image,
{
    t.handle.set_partial(
        [x, y],
        egui::ColorImage::from_rgba_premultiplied([width, height], rgba),
        egui::TextureOptions::NEAREST,
    );
}

impl AtlasTexture {
    /// The model covers exactly the square, and a full upload's byte buffer
    /// fits in memory.
    pub open spec fn wf(&self) -> bool {
        &&& 0 < self.side
        &&& self.side * self.side * 4 <= usize::MAX
        &&& self.image@.dom() == square_domain(self.side as int)
    }

    /// Makes a transparent square texture of the given side.
    pub fn create(ctx: &egui::Context, side: usize) -> (t: AtlasTexture)
        requires
            0 < side,
            side * side * 4 <= usize::MAX,
        ensures
            t.wf(),
            t.side == side,
            t.image@ == blank_image(side as int),
    {
        let area: usize = side * side;
        let len: usize = area * 4;
        let mut rgba: Vec<u8> = Vec::new();
        while rgba.len() < len
            invariant
                rgba@.len() <= len,
            decreases len - rgba.len(),
        {
            rgba.push(0u8);
        }
        let handle = load_atlas_texture(ctx, side, &rgba);
        let id = texture_handle_id(&handle);
        let t = AtlasTexture { handle, id, side, image: Ghost(blank_image(side as int)) };
        proof {
            assert(t.image@.dom() =~= square_domain(side as int));
        }
        t
    }

    /// Uploads the bitmap's rendered pixels at (x, y) and records them in the
    /// model.
    pub fn write_bitmap(&mut self, x: u32, y: u32, bitmap: &GlyphBitmap, default_color: Rgba)
        requires
            old(self).wf(),
            bitmap.wf(),
            x + bitmap.width <= old(self).side,
            y + bitmap.height <= old(self).side,
        ensures
            final(self).wf(),
            final(self).side == old(self).side,
            final(self).id == old(self).id,
            final(self).image@ == blit(
                old(self).image@,
                x as int,
                y as int,
                *bitmap,
                default_color,
            ),
    {
        let rgba = render_rgba(bitmap, default_color);
        upload_region(
            self,
            x as usize,
            y as usize,
            bitmap.width as usize,
            bitmap.height as usize,
            &rgba,
        );
        let ghost updated = blit(self.image@, x as int, y as int, *bitmap, default_color);
        self.image = Ghost(updated);
        proof {
            assert(self.image@.dom() =~= square_domain(self.side as int));
        }
    }

    /// The identity a painter draws this texture by.
    pub fn texture_id(&self) -> (r: egui::TextureId)
        ensures
            r == self.id,
    {
        self.id
    }
}

} // verus!
