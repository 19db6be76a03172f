//! The glyph atlas cache.
//!
//! `TextureAtlas` answers "give me a paintable image for glyph key K" for a
//! render pass. A hit promotes the entry and protects it for the rest of the
//! frame; a miss rasterizes, finds space (evicting the least-recently-used
//! unprotected entries when needed), uploads the pixels and caches the
//! placement. When no space can be freed the atlas side doubles, up to the
//! device maximum, and every surviving glyph is rasterized and uploaded
//! again.

use crate::entry::{
    distinct_alloc_ids, distinct_keys, entry_of, has_key, index_of_key, lemma_promote_at,
    promote_at, Entry, SizedGlyph,
};
use crate::ext_egui::device_max_texture_side;
use crate::ext_lru::{lru_get, lru_new, lru_order, lru_unbounded, GlyphLru};
use crate::ext_packer::{
    no_live_regions, packer_new, packer_regions, packer_side, region_in_bounds,
    regions_pairwise_disjoint, Region,
};
use crate::ext_text::key_eq;
use crate::pixels::Rgba;
use crate::texture::{blank_image, AtlasTexture};
use vstd::prelude::*;

verus! {

/// What a painter needs to draw one glyph from the atlas: the texture, the
/// glyph's region in it (in pixels, with the atlas side as the denominator of
/// the normalized coordinates), the placement offsets, and how to tint.
#[derive(Clone, Copy, PartialEq, Debug)]
pub struct GlyphImage {
    pub texture: egui::TextureId,
    pub x: u32,
    pub y: u32,
    pub width: u32,
    pub height: u32,
    pub atlas_side: usize,
    pub left: i32,
    pub top: i32,
    pub colorable: bool,
    pub default_color: Rgba,
}

/// The image a sized entry yields at a given atlas state.
pub open spec fn glyph_image_of(
    g: SizedGlyph,
    side: usize,
    texture: egui::TextureId,
    default_color: Rgba,
) -> GlyphImage {
    GlyphImage {
        texture,
        x: g.x,
        y: g.y,
        width: g.width,
        height: g.height,
        atlas_side: side,
        left: g.left,
        top: g.top,
        colorable: g.colorable,
        default_color,
    }
}

/// The atlas region a sized entry claims.
pub open spec fn entry_region(g: SizedGlyph) -> Region {
    (g.x as int, g.y as int, g.width as int, g.height as int)
}

/// The sized entry's handle is live in the packer, maps to the entry's
/// region, and that region lies inside the atlas square.
pub open spec fn sized_ok(p: etagere::BucketedAtlasAllocator, side: int, g: SizedGlyph) -> bool {
    &&& packer_regions(p).contains_key(g.alloc_id)
    &&& packer_regions(p)[g.alloc_id] == entry_region(g)
    &&& region_in_bounds(entry_region(g), side)
}

/// An entry is either the nothing-to-draw marker or a consistent sized
/// entry.
pub open spec fn entry_ok(p: etagere::BucketedAtlasAllocator, side: int, e: Entry) -> bool {
    match e.1 {
        Some(g) => sized_ok(p, side, g),
        None => true,
    }
}

/// Every entry of `s` is consistent with the packer and the atlas side.
pub open spec fn entries_ok(
    p: etagere::BucketedAtlasAllocator,
    side: int,
    s: Seq<Entry>,
) -> bool {
    forall|i: int| 0 <= i < s.len() ==> entry_ok(p, side, #[trigger] s[i])
}

/// Consistency carries over to any sequence whose entries all come from a
/// consistent one.
pub proof fn lemma_entries_ok_contained(
    p: etagere::BucketedAtlasAllocator,
    side: int,
    s: Seq<Entry>,
    t: Seq<Entry>,
)
    requires
        entries_ok(p, side, s),
        forall|j: int| 0 <= j < t.len() ==> s.contains(#[trigger] t[j]),
    ensures
        entries_ok(p, side, t),
{
    assert forall|j: int| 0 <= j < t.len() implies entry_ok(p, side, #[trigger] t[j]) by {
        let j0 = choose|j0: int| 0 <= j0 < s.len() && s[j0] == t[j];
        assert(entry_ok(p, side, s[j0]));
    }
}

/// The maximum side the atlas stores for a device-reported value: the
/// device's answer, never below the current side (growth is not undone) and
/// never above 32767. The upper cap has two grounds: the packer addresses
/// shelves with 16-bit coordinates (so no side of 65535 or more can be
/// managed at all), and a full atlas upload is a side-by-side-by-4 byte
/// buffer, which at 32767 still fits a 32-bit address space.
pub open spec fn clamped_max(queried: int, side: int) -> int {
    let capped = if queried > 32767 {
        32767 as int
    } else {
        queried
    };
    if capped < side {
        side
    } else {
        capped
    }
}

/// **The atlas is in physical pixels.**
pub struct TextureAtlas {
    pub packer: etagere::BucketedAtlasAllocator,
    pub cache: GlyphLru,
    pub in_use: Vec<cosmic_text::CacheKey>,
    pub atlas_side: usize,
    pub max_texture_side: usize,
    pub texture: AtlasTexture,
    pub ctx: egui::Context,
    pub default_color: Rgba,
}

impl TextureAtlas {
    /// The cached entries from least- to most-recently used.
    pub open spec fn order(&self) -> Seq<Entry> {
        lru_order(self.cache)
    }

    /// The image handed out for a cached entry at this atlas state.
    pub open spec fn image_for(&self, e: Option<SizedGlyph>) -> Option<GlyphImage> {
        match e {
            Some(g) => Some(
                glyph_image_of(g, self.atlas_side, self.texture.id, self.default_color),
            ),
            None => None,
        }
    }

    /// The cache's invariant: keys and packer handles are unique, the packer
    /// and the texture agree with the atlas side, the side sits between its
    /// starting value and the device maximum (capped as `clamped_max` says),
    /// live packer regions never overlap, and every sized entry maps to a
    /// live in-bounds region.
    pub open spec fn wf(&self) -> bool {
        &&& lru_unbounded(self.cache)
        &&& distinct_keys(self.order())
        &&& distinct_alloc_ids(self.order())
        &&& self.in_use@.no_duplicates()
        &&& self.texture.wf()
        &&& self.texture.side == self.atlas_side
        &&& packer_side(self.packer) == self.atlas_side as int
        &&& 256 <= self.atlas_side
        &&& self.atlas_side <= self.max_texture_side
        &&& self.max_texture_side <= 32767
        &&& regions_pairwise_disjoint(packer_regions(self.packer))
        &&& entries_ok(self.packer, self.atlas_side as int, self.order())
    }

    /// Makes an empty atlas of side 256 whose maximum side is the
    /// device-reported maximum at construction time, clamped as
    /// `clamped_max` says.
    pub fn new(ctx: egui::Context, default_color: Rgba) -> (atlas: TextureAtlas)
        ensures
            atlas.wf(),
            atlas.atlas_side == 256,
            atlas.order() == Seq::<Entry>::empty(),
            atlas.in_use@ == Seq::<cosmic_text::CacheKey>::empty(),
            atlas.default_color == default_color,
            atlas.texture.image@ == blank_image(256),
            packer_regions(atlas.packer) == no_live_regions(),
            exists|queried: usize| atlas.max_texture_side == clamped_max(queried as int, 256),
    {
        let queried = device_max_texture_side(&ctx);
        let max = clamp_queried_max(queried, 256);
        let packer = packer_new(256);
        let cache = lru_new();
        let texture = AtlasTexture::create(&ctx, 256);
        let atlas = TextureAtlas {
            packer,
            cache,
            in_use: Vec::new(),
            atlas_side: 256,
            max_texture_side: max,
            texture,
            ctx,
            default_color,
        };
        atlas
    }

    /// Looks `key` up. A miss changes nothing and yields the outer `None`; a
    /// hit promotes the entry to most-recently used, protects the key for
    /// this frame, and yields the entry's image (`Some(None)` for a glyph
    /// with nothing to draw).
    pub fn lookup(&mut self, key: cosmic_text::CacheKey) -> (r: Option<Option<GlyphImage>>)
        requires
            old(self).wf(),
        ensures
            final(self).wf(),
            final(self).atlas_side == old(self).atlas_side,
            final(self).max_texture_side == old(self).max_texture_side,
            final(self).texture == old(self).texture,
            final(self).packer == old(self).packer,
            final(self).default_color == old(self).default_color,
            final(self).ctx == old(self).ctx,
            !has_key(old(self).order(), key) ==> r == None::<Option<GlyphImage>> && final(self).order()
                == old(self).order() && final(self).in_use == old(self).in_use,
            has_key(old(self).order(), key) ==> final(self).order() == promote_at(
                old(self).order(),
                index_of_key(old(self).order(), key),
            ),
            has_key(old(self).order(), key) ==> r == Some(
                old(self).image_for(entry_of(old(self).order(), key)),
            ),
            has_key(old(self).order(), key) ==> forall|k2: cosmic_text::CacheKey|
                final(self).in_use@.contains(k2) <==> old(self).in_use@.contains(k2) || k2 == key,
    {
        let found = lru_get(&mut self.cache, &key);
        match found {
            None => None,
            Some(entry) => {
                proof {
                    lemma_promote_at(
                        lru_order(old(self).cache),
                        index_of_key(lru_order(old(self).cache), key),
                    );
                    lemma_entries_ok_contained(
                        self.packer,
                        self.atlas_side as int,
                        lru_order(old(self).cache),
                        lru_order(self.cache),
                    );
                }
                mark_key(&mut self.in_use, key);
                match entry {
                    None => Some(None),
                    Some(g) => Some(
                        Some(
                            GlyphImage {
                                texture: self.texture.texture_id(),
                                x: g.x,
                                y: g.y,
                                width: g.width,
                                height: g.height,
                                atlas_side: self.atlas_side,
                                left: g.left,
                                top: g.top,
                                colorable: g.colorable,
                                default_color: self.default_color,
                            },
                        ),
                    ),
                }
            },
        }
    }

    /// Ends the frame: every key resolved since the last call loses its
    /// protection and can be evicted again.
    pub fn trim(&mut self)
        requires
            old(self).wf(),
        ensures
            final(self).wf(),
            final(self).in_use@ == Seq::<cosmic_text::CacheKey>::empty(),
            final(self).order() == old(self).order(),
            final(self).atlas_side == old(self).atlas_side,
            final(self).max_texture_side == old(self).max_texture_side,
            final(self).texture == old(self).texture,
            final(self).packer == old(self).packer,
            final(self).default_color == old(self).default_color,
            final(self).ctx == old(self).ctx,
    {
        self.in_use = Vec::new();
    }

    /// Stores the clamp of a device-reported maximum texture side: the
    /// value itself, kept between the current side (growth is never undone)
    /// and the packer's limits. This is the verified half of a capacity
    /// update; `update_max_texture_side` feeds it the device's answer.
    pub fn set_max_texture_side(&mut self, queried: usize)
        requires
            old(self).wf(),
        ensures
            final(self).wf(),
            final(self).max_texture_side == clamped_max(
                queried as int,
                old(self).atlas_side as int,
            ),
            final(self).atlas_side == old(self).atlas_side,
            final(self).order() == old(self).order(),
            final(self).in_use == old(self).in_use,
            final(self).texture == old(self).texture,
            final(self).packer == old(self).packer,
            final(self).default_color == old(self).default_color,
            final(self).ctx == old(self).ctx,
    {
        self.max_texture_side = clamp_queried_max(queried, self.atlas_side);
    }

    /// Re-reads the device-reported maximum texture side and stores its
    /// clamp, as `set_max_texture_side` states it. Nothing else changes: a
    /// maximum below the current side forces no shrink or reflow.
    pub fn update_max_texture_side(&mut self)
        requires
            old(self).wf(),
        ensures
            final(self).wf(),
            exists|queried: usize|
                final(self).max_texture_side == clamped_max(
                    queried as int,
                    old(self).atlas_side as int,
                ),
            final(self).atlas_side == old(self).atlas_side,
            final(self).order() == old(self).order(),
            final(self).in_use == old(self).in_use,
            final(self).texture == old(self).texture,
            final(self).packer == old(self).packer,
            final(self).default_color == old(self).default_color,
            final(self).ctx == old(self).ctx,
    {
        let queried = device_max_texture_side(&self.ctx);
        self.set_max_texture_side(queried);
    }

    /// The texture a painter samples the glyphs from.
    pub fn atlas_texture(&self) -> (r: egui::TextureId)
        ensures
            r == self.texture.id,
    {
        self.texture.texture_id()
    }

    /// The atlas texture's side in physical pixels (the texture is square).
    pub fn atlas_texture_size(&self) -> (r: usize)
        ensures
            r == self.atlas_side,
    {
        self.atlas_side
    }
}

/// Computes `clamped_max` on a queried device maximum.
pub(crate) fn clamp_queried_max(queried: usize, side: usize) -> (r: usize)
    requires
        side <= 32767,
    ensures
        r == clamped_max(queried as int, side as int),
{
    let mut max: usize = queried;
    if max > 32767 {
        max = 32767;
    }
    if max < side {
        max = side;
    }
    max
}

/// Whether `keys` holds `k`.
pub(crate) fn keys_contain(keys: &Vec<cosmic_text::CacheKey>, k: &cosmic_text::CacheKey) -> (r:
    bool)
    ensures
        r == keys@.contains(*k),
{
    let mut i: usize = 0;
    while i < keys.len()
        invariant
            i <= keys@.len(),
            forall|j: int| 0 <= j < i ==> keys@[j] != *k,
        decreases keys@.len() - i,
    {
        if key_eq(&keys[i], k) {
            return true;
        }
        i = i + 1;
    }
    false
}

/// Adds `k` to `keys` unless it is already there.
pub(crate) fn mark_key(keys: &mut Vec<cosmic_text::CacheKey>, k: cosmic_text::CacheKey)
    requires
        old(keys)@.no_duplicates(),
    ensures
        final(keys)@.no_duplicates(),
        forall|k2: cosmic_text::CacheKey|
            final(keys)@.contains(k2) <==> old(keys)@.contains(k2) || k2 == k,
{
    if !keys_contain(keys, &k) {
        let ghost s = keys@;
        keys.push(k);
        proof {
            assert forall|k2: cosmic_text::CacheKey| keys@.contains(k2) implies s.contains(k2)
                || k2 == k by {
                let j = choose|j: int| 0 <= j < keys@.len() && keys@[j] == k2;
                if j < s.len() {
                    assert(s[j] == k2);
                }
            }
            assert forall|k2: cosmic_text::CacheKey| s.contains(k2) implies keys@.contains(k2) by {
                let j = choose|j: int| 0 <= j < s.len() && s[j] == k2;
                assert(keys@[j] == k2);
            }
            assert(keys@[s.len() as int] == k);
            assert(keys@.contains(k));
            assert forall|a: int, b: int|
                0 <= a < keys@.len() && 0 <= b < keys@.len() && a != b implies keys@[a] != keys@[b]
            by {
                if a < s.len() && b < s.len() {
                    assert(s[a] == keys@[a] && s[b] == keys@[b]);
                } else if a < s.len() {
                    assert(keys@[b] == k && keys@[a] == s[a]);
                    if s[a] == k {
                        assert(s.contains(k));
                        assert(false);
                    }
                } else if b < s.len() {
                    assert(keys@[a] == k && keys@[b] == s[b]);
                    if s[b] == k {
                        assert(s.contains(k));
                        assert(false);
                    }
                }
            }
        }
    }
}

} // verus!
