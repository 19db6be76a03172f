//! A glyph atlas cache for text rendering.
//!
//! Rasterized glyph bitmaps are packed into one square texture (the atlas) so
//! that a painter can draw each visible glyph from GPU-resident pixels instead
//! of rasterizing it again. The cache decides, for every requested glyph key,
//! whether a bitmap is already present, and otherwise rasterizes it, finds or
//! makes room for it (evicting stale entries or growing the atlas), uploads
//! the pixels, and hands back a small descriptor to paint from.

use vstd::prelude::*;

pub use cosmic_text;

pub mod atlas;
pub mod entry;
pub mod grow;
pub mod interact;
pub mod laws;
pub mod pixels;
pub mod place;
pub mod texture;

mod ext_egui;
mod ext_lru;
mod ext_packer;
mod ext_text;

verus! {

pub fn add(left: usize, right: usize) -> (sum: usize)
    requires
        left + right <= usize::MAX,
    ensures
        sum == left + right,
{
    left + right
}

} // verus!
