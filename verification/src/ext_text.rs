//! Trusted surface of the text stack: glyph keys and the rasterizer.
//!
//! A glyph is identified by `cosmic_text::CacheKey` (font, glyph index, size
//! and subpixel bucket). The key is opaque here; the cache only compares keys
//! for equality and hands them back to the rasterizer.

use crate::pixels::{GlyphBitmap, GlyphContent};
use vstd::prelude::*;

verus! {

#[verifier::external_type_specification]
#[verifier::external_body]
pub struct ExCacheKey(cosmic_text::CacheKey);

#[verifier::external_type_specification]
#[verifier::external_body]
pub struct ExFontSystem(cosmic_text::FontSystem);

#[verifier::external_type_specification]
#[verifier::external_body]
pub struct ExSwashCache(cosmic_text::SwashCache);

/// Relies on cosmic_text::CacheKey's derived PartialEq: it compares all
/// fields, which is equality of the keys themselves.
#[verifier::external_body]
pub(crate) fn key_eq(a: &cosmic_text::CacheKey, b: &cosmic_text::CacheKey) -> (r: bool)
    ensures
        r == (*a == *b),
{
    a == b
}

/// Relies on cosmic_text::SwashCache::get_image_uncached: it rasterizes the
/// glyph that `key` names with the fonts loaded in `font_system`. What comes
/// back depends on those fonts, so nothing is promised of it; callers check
/// the bitmap's shape themselves. A subpixel mask, which this library does
/// not paint, is reported as no image.
#[verifier::external_body]
pub(crate) fn rasterize(
    font_system: &mut cosmic_text::FontSystem,
    swash_cache: &mut cosmic_text::SwashCache,
    key: cosmic_text::CacheKey,
) -> (r: Option<GlyphBitmap>)
{
    let image = swash_cache.get_image_uncached(font_system, key)?;
    let content = match image.content {
        cosmic_text::SwashContent::Mask => GlyphContent::Mask,
        cosmic_text::SwashContent::Color => GlyphContent::Color,
        cosmic_text::SwashContent::SubpixelMask => return None,
    };
    let p = image.placement;
    Some(GlyphBitmap { width: p.width, height: p.height, left: p.left, top: p.top, content, data: image.data })
}

} // verus!
