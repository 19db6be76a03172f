//! Growing the atlas.
//!
//! When eviction cannot free enough space, the atlas side doubles (capped at
//! the device maximum). The packer keeps every allocation where it was, so
//! entries keep their regions; but the cache retains no pixels after upload,
//! so every surviving sized glyph is rasterized again and uploaded into the
//! fresh, larger texture at its old position. Keys are assumed stable: the
//! same key rasterizes to the same bitmap, which `grow_with_bitmaps` checks
//! by dimensions before writing.

use crate::atlas::{entry_ok, glyph_image_of, GlyphImage, TextureAtlas};
use crate::entry::{
    distinct_keys, entry_of, has_key, index_of_key, lemma_key_at, lemma_promote_at, Entry,
    SizedGlyph,
};
use crate::ext_lru::{lru_entries, lru_order, lru_peek, GlyphLru};
use crate::ext_packer::{packer_grow, packer_regions};
use crate::ext_text::rasterize;
use crate::pixels::{bitmap_is_wf, GlyphBitmap, Rgba};
use crate::place::{evicted_prefix, marked, placed_glyph, InsertOutcome};
use crate::texture::{blank_image, blit, AtlasTexture};
use vstd::prelude::*;

verus! {

/// Whether `order` holds a sized entry for `k` with exactly the bitmap's
/// dimensions: only then may the bitmap be painted at the entry's region.
pub open spec fn matching_entry(
    order: Seq<Entry>,
    k: cosmic_text::CacheKey,
    b: GlyphBitmap,
) -> bool {
    has_key(order, k) && match entry_of(order, k) {
        Some(g) => g.width == b.width && g.height == b.height,
        None => false,
    }
}

/// The atlas image after painting the supplied bitmaps over `base`, in
/// order: each bitmap whose key has a sized entry of the same dimensions
/// lands at that entry's region, the rest are ignored.
pub open spec fn regrow_image(
    base: Map<(int, int), Rgba>,
    order: Seq<Entry>,
    supplied: Seq<(cosmic_text::CacheKey, GlyphBitmap)>,
    default_color: Rgba,
) -> Map<(int, int), Rgba>
    decreases supplied.len(),
{
    if supplied.len() == 0 {
        base
    } else {
        let prev = regrow_image(base, order, supplied.drop_last(), default_color);
        let k = supplied.last().0;
        let b = supplied.last().1;
        if matching_entry(order, k, b) {
            match entry_of(order, k) {
                Some(g) => blit(prev, g.x as int, g.y as int, b, default_color),
                None => prev,
            }
        } else {
            prev
        }
    }
}

/// What a resolution that found no cached entry and returned no image left
/// behind: either nothing at all (no bitmap to cache), or only the
/// nothing-to-draw entry, or — only at the device maximum — evictions of an
/// unprotected prefix without an insertion.
pub open spec fn skipped_miss(
    before: TextureAtlas,
    after: TextureAtlas,
    key: cosmic_text::CacheKey,
) -> bool {
    ||| (after.order() == before.order() && after.in_use == before.in_use && after.texture
        == before.texture && after.packer == before.packer && after.atlas_side
        == before.atlas_side)
    ||| (after.order() == before.order().push((key, None)) && marked(
        before.in_use@,
        after.in_use@,
        key,
    ) && after.texture == before.texture && after.packer == before.packer && after.atlas_side
        == before.atlas_side)
    ||| ((exists|n: int| evicted_prefix(before.order(), before.in_use@, after.order(), n))
        && !has_key(after.order(), key) && after.in_use == before.in_use && after.atlas_side
        == after.max_texture_side)
}

/// The side the next growth step reaches: double, capped at the device
/// maximum.
pub open spec fn grown_side(a: TextureAtlas) -> int {
    if 2 * a.atlas_side <= a.max_texture_side {
        2 * a.atlas_side
    } else {
        a.max_texture_side as int
    }
}

impl TextureAtlas {
    /// Grows the atlas once: the side doubles (capped at the device
    /// maximum), the packer keeps every allocation, a fresh transparent
    /// texture replaces the old one, and each supplied bitmap whose key
    /// still has a sized entry of the same dimensions is uploaded again at
    /// that entry's region. Entries, recency order and frame protection are
    /// untouched. Growth at the maximum is impossible: the caller checks.
    pub fn grow_with_bitmaps(&mut self, supplied: &Vec<(cosmic_text::CacheKey, GlyphBitmap)>)
        requires
            old(self).wf(),
            old(self).atlas_side < old(self).max_texture_side,
            forall|i: int| 0 <= i < supplied@.len() ==> (#[trigger] supplied@[i]).1.wf(),
        ensures
            final(self).wf(),
            final(self).atlas_side == grown_side(*old(self)),
            old(self).atlas_side < final(self).atlas_side,
            final(self).order() == old(self).order(),
            final(self).in_use == old(self).in_use,
            final(self).max_texture_side == old(self).max_texture_side,
            final(self).default_color == old(self).default_color,
            final(self).ctx == old(self).ctx,
            packer_regions(final(self).packer) == packer_regions(old(self).packer),
            final(self).texture.image@ == regrow_image(
                blank_image(grown_side(*old(self))),
                old(self).order(),
                supplied@,
                old(self).default_color,
            ),
    {
        let doubled: usize = self.atlas_side * 2;
        let new_side: usize = if doubled <= self.max_texture_side {
            doubled
        } else {
            self.max_texture_side
        };
        proof {
            vstd::arithmetic::mul::lemma_mul_upper_bound(
                new_side as int,
                32767,
                new_side as int,
                32767,
            );
        }
        packer_grow(&mut self.packer, new_side as u32);
        self.atlas_side = new_side;
        self.texture = AtlasTexture::create(&self.ctx, new_side);
        proof {
            assert forall|j: int| 0 <= j < self.order().len() implies entry_ok(
                self.packer,
                self.atlas_side as int,
                #[trigger] self.order()[j],
            ) by {
                assert(entry_ok(old(self).packer, old(self).atlas_side as int, self.order()[j]));
            }
        }
        let ghost base = blank_image(new_side as int);
        let ghost order = self.order();
        let ghost dc = self.default_color;
        let mut i: usize = 0;
        while i < supplied.len()
            invariant
                self.wf(),
                i <= supplied@.len(),
                forall|j: int| 0 <= j < supplied@.len() ==> (#[trigger] supplied@[j]).1.wf(),
                self.atlas_side == new_side,
                self.order() == order,
                self.texture.image@ == regrow_image(base, order, supplied@.take(i as int), dc),
                self.in_use == old(self).in_use,
                self.max_texture_side == old(self).max_texture_side,
                self.default_color == old(self).default_color,
                dc == self.default_color,
                self.ctx == old(self).ctx,
                packer_regions(self.packer) == packer_regions(old(self).packer),
            decreases supplied@.len() - i,
        {
            let k = supplied[i].0;
            let b = &supplied[i].1;
            let ghost step = supplied@.take(i as int + 1);
            proof {
                assert(step.drop_last() =~= supplied@.take(i as int));
                assert(step.last() == supplied@[i as int]);
            }
            match lru_peek(&self.cache, &k) {
                Some(found) => {
                    match found {
                        Some(g) => {
                            if g.width == b.width && g.height == b.height {
                                proof {
                                    let j = index_of_key(order, k);
                                    lemma_key_at(order, k, j);
                                    assert(entry_ok(self.packer, self.atlas_side as int, order[j]));
                                }
                                self.texture.write_bitmap(g.x, g.y, b, self.default_color);
                            }
                        },
                        None => {},
                    }
                },
                None => {},
            }
            i = i + 1;
        }
        proof {
            assert(supplied@.take(supplied@.len() as int) =~= supplied@);
        }
    }

    /// Allocates in the texture atlas and returns a glyph image if
    /// applicable.
    ///
    /// A hit promotes the entry, protects the key for this frame, and
    /// returns its image (`None` for a glyph with nothing to draw). A miss
    /// rasterizes: no image or a malformed one caches nothing; an empty one
    /// becomes the nothing-to-draw entry; otherwise the bitmap is placed,
    /// evicting unprotected entries oldest-first, and growing the atlas —
    /// rasterizing every cached glyph again — when eviction cannot help.
    /// A glyph that does not fit even at the device maximum is skipped: the
    /// call returns `None` and caches nothing, rather than aborting.
    #[verifier::loop_isolation(false)]
    pub fn resolve(
        &mut self,
        cache_key: cosmic_text::CacheKey,
        font_system: &mut cosmic_text::FontSystem,
        swash_cache: &mut cosmic_text::SwashCache,
    ) -> (r: Option<GlyphImage>)
        requires
            old(self).wf(),
        ensures
            final(self).wf(),
            final(self).max_texture_side == old(self).max_texture_side,
            final(self).default_color == old(self).default_color,
            final(self).ctx == old(self).ctx,
            old(self).atlas_side <= final(self).atlas_side <= final(self).max_texture_side,
            has_key(old(self).order(), cache_key) ==> final(self).order() == crate::entry::promote_at(
                old(self).order(),
                index_of_key(old(self).order(), cache_key),
            ) && r == old(self).image_for(entry_of(old(self).order(), cache_key))
                && final(self).texture == old(self).texture && final(self).packer == old(self).packer
                && final(self).atlas_side == old(self).atlas_side
                && marked(old(self).in_use@, final(self).in_use@, cache_key),
            forall|k2: cosmic_text::CacheKey|
                old(self).in_use@.contains(k2) ==> final(self).in_use@.contains(k2),
            forall|k2: cosmic_text::CacheKey|
                has_key(old(self).order(), k2) && old(self).in_use@.contains(k2) ==> has_key(
                    final(self).order(),
                    k2,
                ) && entry_of(final(self).order(), k2) == entry_of(old(self).order(), k2),
            r matches Some(img) ==> has_key(final(self).order(), cache_key) && (entry_of(
                final(self).order(),
                cache_key,
            ) matches Some(g) && img == glyph_image_of(
                g,
                final(self).atlas_side,
                final(self).texture.id,
                final(self).default_color,
            )),
            r is None && !has_key(old(self).order(), cache_key) && has_key(
                final(self).order(),
                cache_key,
            ) ==> entry_of(final(self).order(), cache_key) == None::<SizedGlyph>,
            r is None && !has_key(old(self).order(), cache_key) ==> skipped_miss(
                *old(self),
                *final(self),
                cache_key,
            ),
    {
        match self.lookup(cache_key) {
            Some(cached) => {
                proof {
                    lemma_promote_at(
                        old(self).order(),
                        index_of_key(old(self).order(), cache_key),
                    );
                }
                return cached;
            },
            None => {},
        }
        let rasterized = rasterize(font_system, swash_cache, cache_key);
        let bitmap = match rasterized {
            None => {
                return None;
            },
            Some(b) => b,
        };
        if !bitmap_is_wf(&bitmap) {
            // A bitmap whose bytes do not match its stated dimensions cannot
            // be uploaded; treat it as a rasterization miss.
            return None;
        }
        if bitmap.width == 0 || bitmap.height == 0 {
            let outcome = self.insert_bitmap(cache_key, &bitmap);
            proof {
                lemma_key_at(self.order(), cache_key, self.order().len() - 1);
            }
            return None;
        }
        let ghost orig = *old(self);
        proof {
            assert(orig.order().skip(0) =~= orig.order());
        }
        let ghost mut evicted: int = 0;
        loop
            invariant
                self.wf(),
                bitmap.wf(),
                bitmap.width > 0,
                bitmap.height > 0,
                !has_key(self.order(), cache_key),
                !has_key(orig.order(), cache_key),
                self.max_texture_side == orig.max_texture_side,
                self.default_color == orig.default_color,
                self.ctx == orig.ctx,
                orig.atlas_side <= self.atlas_side <= self.max_texture_side,
                self.in_use == orig.in_use,
                evicted_prefix(orig.order(), orig.in_use@, self.order(), evicted),
                forall|k2: cosmic_text::CacheKey|
                    has_key(orig.order(), k2) && orig.in_use@.contains(k2) ==> has_key(
                        self.order(),
                        k2,
                    ) && entry_of(self.order(), k2) == entry_of(orig.order(), k2),
            decreases self.max_texture_side - self.atlas_side,
        {
            let ghost pre = *self;
            let outcome = self.insert_bitmap(cache_key, &bitmap);
            match outcome {
                InsertOutcome::Done(img) => {
                    proof {
                        match img {
                            Some(image) => {
                                let (n, g) = choose|n: int, g: SizedGlyph|
                                    placed_glyph(pre, *self, cache_key, bitmap, image, n, g);
                                lemma_key_at(
                                    self.order(),
                                    cache_key,
                                    self.order().len() - 1,
                                );
                            },
                            None => {
                                assert(false);
                            },
                        }
                    }
                    return img;
                },
                InsertOutcome::NeedsGrow => {
                    proof {
                        let n2 = choose|n2: int|
                            evicted_prefix(pre.order(), pre.in_use@, self.order(), n2);
                        assert(orig.order().skip(evicted).skip(n2) =~= orig.order().skip(
                            evicted + n2,
                        ));
                        assert forall|j: int| 0 <= j < evicted + n2 implies !orig.in_use@.contains(
                            (#[trigger] orig.order()[j]).0,
                        ) by {
                            if j >= evicted {
                                assert(pre.order()[j - evicted] == orig.order()[j]);
                                assert(!pre.in_use@.contains(pre.order()[j - evicted].0));
                            }
                        }
                        evicted = evicted + n2;
                    }
                    if self.atlas_side >= self.max_texture_side {
                        // Out of space at the device maximum: skip this
                        // glyph instead of aborting.
                        proof {
                            assert(evicted_prefix(
                                orig.order(),
                                orig.in_use@,
                                self.order(),
                                evicted,
                            ));
                            assert(skipped_miss(orig, *self, cache_key));
                        }
                        return None;
                    }
                    let supplied = collect_rerasterized(&self.cache, font_system, swash_cache);
                    self.grow_with_bitmaps(&supplied);
                },
            }
        }
    }
}

/// Rasterizes every sized entry of the cache again, keeping the results
/// whose bytes match their stated dimensions; growth paints these back into
/// the enlarged atlas. Each returned pair carries a distinct key that the
/// cache holds a sized entry for, and a well-formed bitmap.
fn collect_rerasterized(
    cache: &GlyphLru,
    font_system: &mut cosmic_text::FontSystem,
    swash_cache: &mut cosmic_text::SwashCache,
) -> (r: Vec<(cosmic_text::CacheKey, GlyphBitmap)>)
    requires
        distinct_keys(lru_order(*cache)),
    ensures
        forall|i: int| 0 <= i < r@.len() ==> (#[trigger] r@[i]).1.wf(),
        forall|i: int|
            0 <= i < r@.len() ==> has_key(lru_order(*cache), (#[trigger] r@[i]).0) && entry_of(
                lru_order(*cache),
                r@[i].0,
            ) is Some,
        forall|a: int, b: int| 0 <= a < b < r@.len() ==> (#[trigger] r@[a]).0 != (
        #[trigger] r@[b]).0,
{
    let entries = lru_entries(cache);
    let ghost order = lru_order(*cache);
    let mut out: Vec<(cosmic_text::CacheKey, GlyphBitmap)> = Vec::new();
    let mut i: usize = 0;
    while i < entries.len()
        invariant
            i <= entries@.len(),
            entries@ == order,
            distinct_keys(order),
            forall|j: int| 0 <= j < out@.len() ==> (#[trigger] out@[j]).1.wf(),
            forall|j: int|
                0 <= j < out@.len() ==> has_key(order, (#[trigger] out@[j]).0) && entry_of(
                    order,
                    out@[j].0,
                ) is Some,
            forall|j: int|
                0 <= j < out@.len() ==> exists|idx: int|
                    0 <= idx < i && (#[trigger] out@[j]).0 == order[idx].0,
            forall|a: int, b: int| 0 <= a < b < out@.len() ==> (#[trigger] out@[a]).0 != (
            #[trigger] out@[b]).0,
        decreases entries@.len() - i,
    {
        let (k, v) = entries[i];
        if v.is_some() {
            match rasterize(font_system, swash_cache, k) {
                Some(b) => {
                    if bitmap_is_wf(&b) {
                        let ghost before = out@;
                        proof {
                            lemma_key_at(order, k, i as int);
                        }
                        out.push((k, b));
                        proof {
                            assert forall|a: int, c: int|
                                0 <= a < c < out@.len() implies (#[trigger] out@[a]).0 != (
                            #[trigger] out@[c]).0 by {
                                if c == out@.len() - 1 {
                                    assert(out@[a] == before[a]);
                                    let idx = choose|idx: int|
                                        0 <= idx < i && (#[trigger] before[a]).0 == order[idx].0;
                                    assert(order[idx].0 != order[i as int].0);
                                } else {
                                    assert(out@[a] == before[a] && out@[c] == before[c]);
                                }
                            }
                            assert forall|j: int| 0 <= j < out@.len() implies exists|idx: int|
                                0 <= idx < i + 1 && (#[trigger] out@[j]).0 == order[idx].0 by {
                                if j < out@.len() - 1 {
                                    assert(out@[j] == before[j]);
                                    let idx = choose|idx: int|
                                        0 <= idx < i && (#[trigger] before[j]).0 == order[idx].0;
                                    assert(0 <= idx < i + 1 && out@[j].0 == order[idx].0);
                                } else {
                                    assert(out@[j].0 == order[i as int].0);
                                }
                            }
                        }
                    }
                },
                None => {},
            }
        }
        i = i + 1;
    }
    out
}

} // verus!
