//! Finding room for a glyph: allocation, lazy eviction, insertion.
//!
//! A miss that needs atlas space first asks the packer; while the packer
//! refuses, the least-recently-used entries are evicted one by one, strictly
//! in recency order. A key resolved this frame is protected: reaching one at
//! the least-recently-used end stops eviction, and the caller must grow the
//! atlas instead.

use crate::atlas::{
    entry_ok, entry_region, glyph_image_of, keys_contain, lemma_entries_ok_contained, mark_key,
    sized_ok, GlyphImage, TextureAtlas,
};
use crate::entry::{
    distinct_alloc_ids, entry_of, has_key, id_unused, lemma_drop_first, lemma_push_fresh, Entry,
    SizedGlyph,
};
use crate::ext_lru::{lru_peek_lru, lru_pop_lru, lru_put};
use crate::ext_packer::{
    packer_allocate, packer_deallocate, packer_regions, region_in_bounds, regions_disjoint,
};
use crate::pixels::{GlyphBitmap, GlyphContent};
use crate::texture::blit;
use vstd::prelude::*;

verus! {

/// `after` is what is left of `before` once its first `n` entries, none of
/// them protected by `in_use`, were evicted.
pub open spec fn evicted_prefix(
    before: Seq<Entry>,
    in_use: Seq<cosmic_text::CacheKey>,
    after: Seq<Entry>,
    n: int,
) -> bool {
    &&& 0 <= n <= before.len()
    &&& after == before.skip(n)
    &&& forall|j: int| 0 <= j < n ==> !in_use.contains((#[trigger] before[j]).0)
}

/// `after` holds `k` and everything `before` held.
pub open spec fn marked(
    before: Seq<cosmic_text::CacheKey>,
    after: Seq<cosmic_text::CacheKey>,
    k: cosmic_text::CacheKey,
) -> bool {
    forall|k2: cosmic_text::CacheKey| after.contains(k2) <==> before.contains(k2) || k2 == k
}

/// A successful insertion: after evicting an unprotected prefix of length
/// `n`, the glyph `g` was placed for `key` with the bitmap's dimensions and
/// placement, its pixels were painted into the atlas image, and the returned
/// image describes it at the (unchanged) atlas state.
pub open spec fn placed_glyph(
    before: TextureAtlas,
    after: TextureAtlas,
    key: cosmic_text::CacheKey,
    bitmap: GlyphBitmap,
    img: GlyphImage,
    n: int,
    g: SizedGlyph,
) -> bool {
    &&& evicted_prefix(before.order(), before.in_use@, after.order().drop_last(), n)
    &&& after.order() == before.order().skip(n).push((key, Some(g)))
    &&& g.width == bitmap.width
    &&& g.height == bitmap.height
    &&& g.left == bitmap.left
    &&& g.top == bitmap.top
    &&& g.colorable == (bitmap.content == GlyphContent::Mask)
    &&& region_in_bounds(entry_region(g), before.atlas_side as int)
    &&& sized_ok(after.packer, after.atlas_side as int, g)
    &&& after.texture.id == before.texture.id
    &&& img == glyph_image_of(g, before.atlas_side, before.texture.id, before.default_color)
    &&& after.texture.image@ == blit(
        before.texture.image@,
        g.x as int,
        g.y as int,
        bitmap,
        before.default_color,
    )
    &&& marked(before.in_use@, after.in_use@, key)
}

/// Some unprotected prefix was evicted and some glyph record was placed:
/// the shape a successful insertion always has.
pub open spec fn placed_some(
    before: TextureAtlas,
    after: TextureAtlas,
    key: cosmic_text::CacheKey,
    bitmap: GlyphBitmap,
    img: GlyphImage,
) -> bool {
    exists|n: int, g: SizedGlyph| placed_glyph(before, after, key, bitmap, img, n, g)
}

/// What inserting a rasterized bitmap did.
#[derive(Clone, Copy, PartialEq, Debug)]
pub enum InsertOutcome {
    /// The glyph is cached now; `None` means it has nothing to draw.
    Done(Option<GlyphImage>),
    /// No space: every evictable entry is gone or the least-recently-used
    /// entry is protected. The atlas must grow before retrying.
    NeedsGrow,
}

impl TextureAtlas {
    /// Asks the packer for a width-by-height region, evicting
    /// least-recently-used unprotected entries (and freeing their packer
    /// space) until the packer accepts, the cache runs empty, or the
    /// least-recently-used entry is protected.
    #[verifier::loop_isolation(false)]
    pub(crate) fn try_alloc_region(&mut self, width: u32, height: u32) -> (r: Option<
        (u32, u32, u32),
    >)
        requires
            old(self).wf(),
            0 < width,
            0 < height,
        ensures
            final(self).wf(),
            final(self).atlas_side == old(self).atlas_side,
            final(self).max_texture_side == old(self).max_texture_side,
            final(self).texture == old(self).texture,
            final(self).in_use == old(self).in_use,
            final(self).default_color == old(self).default_color,
            final(self).ctx == old(self).ctx,
            exists|n: int|
                evicted_prefix(
                    old(self).order(),
                    old(self).in_use@,
                    final(self).order(),
                    n,
                ),
            forall|k: cosmic_text::CacheKey|
                has_key(final(self).order(), k) ==> has_key(old(self).order(), k) && entry_of(
                    final(self).order(),
                    k,
                ) == entry_of(old(self).order(), k),
            forall|k: cosmic_text::CacheKey|
                has_key(old(self).order(), k) && old(self).in_use@.contains(k) ==> has_key(
                    final(self).order(),
                    k,
                ),
            r is None ==> final(self).order().len() == 0 || old(self).in_use@.contains(
                final(self).order()[0].0,
            ),
            r matches Some((id, x, y)) ==> packer_regions(final(self).packer).contains_key(id)
                && packer_regions(final(self).packer)[id] == (
            x as int,
            y as int,
            width as int,
            height as int,
            ) && region_in_bounds(
                (x as int, y as int, width as int, height as int),
                old(self).atlas_side as int,
            ) && id_unused(final(self).order(), id),
    {
        let ghost orig = *old(self);
        let ghost mut n: int = 0;
        proof {
            assert(orig.order().skip(0) =~= orig.order());
        }
        loop
            invariant
                self.wf(),
                0 < width,
                0 < height,
                self.atlas_side == orig.atlas_side,
                self.max_texture_side == orig.max_texture_side,
                self.texture == orig.texture,
                self.in_use == orig.in_use,
                self.default_color == orig.default_color,
                self.ctx == orig.ctx,
                orig.wf(),
                evicted_prefix(orig.order(), orig.in_use@, self.order(), n),
                forall|k: cosmic_text::CacheKey|
                    has_key(self.order(), k) ==> has_key(orig.order(), k) && entry_of(
                        self.order(),
                        k,
                    ) == entry_of(orig.order(), k),
                forall|k: cosmic_text::CacheKey|
                    has_key(orig.order(), k) && orig.in_use@.contains(k) ==> has_key(
                        self.order(),
                        k,
                    ),
            decreases self.order().len(),
        {
            let ghost regions_before = packer_regions(self.packer);
            let ghost order_now = self.order();
            let got = packer_allocate(&mut self.packer, width, height);
            match got {
                Some((id, x, y)) => {
                    proof {
                        assert forall|j: int| 0 <= j < order_now.len() implies entry_ok(
                            self.packer,
                            self.atlas_side as int,
                            #[trigger] order_now[j],
                        ) by {
                            match order_now[j].1 {
                                Some(g) => {
                                    assert(regions_before.contains_key(g.alloc_id));
                                    assert(g.alloc_id != id);
                                },
                                None => {},
                            }
                        }
                        assert forall|a: u32, b: u32|
                            packer_regions(self.packer).dom().contains(a) && packer_regions(
                                self.packer,
                            ).dom().contains(b) && a != b implies regions_disjoint(
                            #[trigger] packer_regions(self.packer)[a],
                            #[trigger] packer_regions(self.packer)[b],
                        ) by {
                            if a == id {
                                assert(regions_before.contains_key(b));
                            } else if b == id {
                                assert(regions_before.contains_key(a));
                            } else {
                                assert(regions_before.contains_key(a));
                                assert(regions_before.contains_key(b));
                            }
                        }
                        assert forall|j: int| 0 <= j < self.order().len() implies match (
                        #[trigger] self.order()[j]).1 {
                            Some(g) => g.alloc_id != id,
                            None => true,
                        } by {
                            match self.order()[j].1 {
                                Some(g) => {
                                    assert(entry_ok(self.packer, self.atlas_side as int, self.order()[j]));
                                    assert(regions_before.contains_key(g.alloc_id));
                                },
                                None => {},
                            }
                        }
                    }
                    return Some((id, x, y));
                },
                None => {},
            }
            let head = lru_peek_lru(&self.cache);
            match head {
                None => {
                    return None;
                },
                Some((k, _)) => {
                    if keys_contain(&self.in_use, &k) {
                        return None;
                    }
                },
            }
            let ghost s = self.order();
            let popped = lru_pop_lru(&mut self.cache);
            proof {
                lemma_drop_first(s);
                assert(orig.order().skip(n).drop_first() =~= orig.order().skip(n + 1));
            }
            match popped {
                None => {
                    proof {
                        assert(false);
                    }
                    return None;
                },
                Some((_, dropped)) => {
                    match dropped {
                        None => {
                            proof {
                                lemma_entries_ok_contained(
                                    self.packer,
                                    self.atlas_side as int,
                                    s,
                                    self.order(),
                                );
                            }
                        },
                        Some(g) => {
                            proof {
                                assert(entry_ok(self.packer, self.atlas_side as int, s[0]));
                            }
                            packer_deallocate(&mut self.packer, g.alloc_id);
                            proof {
                                assert forall|j: int| 0 <= j < self.order().len() implies entry_ok(
                                    self.packer,
                                    self.atlas_side as int,
                                    #[trigger] self.order()[j],
                                ) by {
                                    assert(self.order()[j] == s[j + 1]);
                                    match self.order()[j].1 {
                                        Some(h) => {
                                            assert(entry_ok(
                                                self.packer,
                                                self.atlas_side as int,
                                                s[j + 1],
                                            ) || h.alloc_id == g.alloc_id);
                                            assert(distinct_alloc_ids(s) && 0 <= 0 < j + 1
                                                < s.len());
                                            assert(h.alloc_id != g.alloc_id);
                                        },
                                        None => {},
                                    }
                                }
                            }
                        },
                    }
                    proof {
                        n = n + 1;
                    }
                },
            }
        }
    }

    /// Caches a freshly rasterized bitmap for `key`. A bitmap with no pixels
    /// becomes the nothing-to-draw entry. Otherwise the pixels are placed in
    /// the atlas (evicting unprotected entries oldest-first as needed) and
    /// the new entry is returned as an image; when neither space nor eviction
    /// suffices, nothing is cached and `NeedsGrow` says the atlas must grow.
    pub fn insert_bitmap(&mut self, key: cosmic_text::CacheKey, bitmap: &GlyphBitmap) -> (r:
        InsertOutcome)
        requires
            old(self).wf(),
            !has_key(old(self).order(), key),
            bitmap.wf(),
        ensures
            final(self).wf(),
            final(self).atlas_side == old(self).atlas_side,
            final(self).max_texture_side == old(self).max_texture_side,
            final(self).default_color == old(self).default_color,
            final(self).ctx == old(self).ctx,
            bitmap.width == 0 || bitmap.height == 0 ==> r == InsertOutcome::Done(
                None::<GlyphImage>,
            ) && final(self).order() == old(self).order().push((key, None)) && final(self).texture
                == old(self).texture && final(self).packer == old(self).packer && marked(
                old(self).in_use@,
                final(self).in_use@,
                key,
            ),
            bitmap.width > 0 && bitmap.height > 0 ==> r != InsertOutcome::Done(
                None::<GlyphImage>,
            ),
            r == InsertOutcome::NeedsGrow ==> final(self).texture == old(self).texture
                && final(self).in_use == old(self).in_use && !has_key(final(self).order(), key) && (exists|n: int|
                evicted_prefix(
                    old(self).order(),
                    old(self).in_use@,
                    final(self).order(),
                    n,
                )) && (final(self).order().len() == 0 || old(self).in_use@.contains(
                final(self).order()[0].0,
            )),
            r matches InsertOutcome::Done(Some(img)) ==> placed_some(
                *old(self),
                *final(self),
                key,
                *bitmap,
                img,
            ),
            forall|k: cosmic_text::CacheKey|
                has_key(old(self).order(), k) && old(self).in_use@.contains(k) ==> has_key(
                    final(self).order(),
                    k,
                ) && entry_of(final(self).order(), k) == entry_of(old(self).order(), k),
            has_key(final(self).order(), key) ==> final(self).in_use@.contains(key),
    {
        if bitmap.width == 0 || bitmap.height == 0 {
            let ghost s = self.order();
            lru_put(&mut self.cache, key, None);
            proof {
                lemma_push_fresh(s, key, None);
                assert forall|j: int| 0 <= j < self.order().len() implies entry_ok(
                    self.packer,
                    self.atlas_side as int,
                    #[trigger] self.order()[j],
                ) by {
                    if j < s.len() {
                        assert(self.order()[j] == s[j]);
                        assert(entry_ok(self.packer, self.atlas_side as int, s[j]));
                    } else {
                        assert(self.order()[j] == (key, None::<SizedGlyph>));
                    }
                }
                assert forall|a: int, b: int|
                    0 <= a < b < self.order().len() implies match (
                (#[trigger] self.order()[a]).1,
                (#[trigger] self.order()[b]).1,
                ) {
                    (Some(x), Some(y)) => x.alloc_id != y.alloc_id,
                    _ => true,
                } by {
                    if b < s.len() {
                        assert(self.order()[a] == s[a] && self.order()[b] == s[b]);
                        assert(distinct_alloc_ids(s));
                    } else {
                        assert(self.order()[b] == (key, None::<SizedGlyph>));
                    }
                }
            }
            mark_key(&mut self.in_use, key);
            return InsertOutcome::Done(None);
        }
        let ghost before = *old(self);
        let got = self.try_alloc_region(bitmap.width, bitmap.height);
        match got {
            None => InsertOutcome::NeedsGrow,
            Some((id, x, y)) => {
                self.texture.write_bitmap(x, y, bitmap, self.default_color);
                let g = SizedGlyph {
                    alloc_id: id,
                    x,
                    y,
                    width: bitmap.width,
                    height: bitmap.height,
                    left: bitmap.left,
                    top: bitmap.top,
                    colorable: matches!(bitmap.content, GlyphContent::Mask),
                };
                let ghost s = self.order();
                lru_put(&mut self.cache, key, Some(g));
                proof {
                    lemma_push_fresh(s, key, Some(g));
                    assert forall|j: int| 0 <= j < self.order().len() implies entry_ok(
                        self.packer,
                        self.atlas_side as int,
                        #[trigger] self.order()[j],
                    ) by {
                        if j < s.len() {
                            assert(self.order()[j] == s[j]);
                            assert(entry_ok(self.packer, self.atlas_side as int, s[j]));
                        } else {
                            assert(self.order()[j] == (key, Some(g)));
                        }
                    }
                    assert forall|a: int, b: int|
                        0 <= a < b < self.order().len() implies match (
                    (#[trigger] self.order()[a]).1,
                    (#[trigger] self.order()[b]).1,
                    ) {
                        (Some(p), Some(q)) => p.alloc_id != q.alloc_id,
                        _ => true,
                    } by {
                        if b < s.len() {
                            assert(self.order()[a] == s[a] && self.order()[b] == s[b]);
                            assert(distinct_alloc_ids(s));
                        } else {
                            assert(self.order()[b] == (key, Some(g)));
                            assert(self.order()[a] == s[a]);
                            assert(id_unused(s, id));
                        }
                    }
                }
                mark_key(&mut self.in_use, key);
                let img = GlyphImage {
                    texture: self.texture.texture_id(),
                    x: g.x,
                    y: g.y,
                    width: g.width,
                    height: g.height,
                    atlas_side: self.atlas_side,
                    left: g.left,
                    top: g.top,
                    colorable: g.colorable,
                    default_color: self.default_color,
                };
                proof {
                    let n0 = choose|n0: int|
                        evicted_prefix(before.order(), before.in_use@, s, n0);
                    assert(self.order().drop_last() =~= s);
                    assert(placed_glyph(before, *self, key, *bitmap, img, n0, g));
                    assert(placed_some(before, *self, key, *bitmap, img));
                }
                InsertOutcome::Done(Some(img))
            },
        }
    }
}

} // verus!
