use cosmic_text::fontdb::{Weight, ID};
use cosmic_text::{CacheKey, CacheKeyFlags, FontSystem, SubpixelBin, SwashCache};
use egui_cosmic_text::atlas::{GlyphImage, TextureAtlas};
use egui_cosmic_text::entry::SizedGlyph;
use egui_cosmic_text::pixels::{GlyphBitmap, GlyphContent, Rgba};
use egui_cosmic_text::place::InsertOutcome;

fn key(n: u16) -> CacheKey {
    CacheKey {
        font_id: ID::dummy(),
        glyph_id: n,
        font_size_bits: 0,
        x_bin: SubpixelBin::Zero,
        y_bin: SubpixelBin::Zero,
        font_weight: Weight(400),
        flags: CacheKeyFlags::empty(),
    }
}

fn mask(width: u32, height: u32, coverage: u8) -> GlyphBitmap {
    GlyphBitmap {
        width,
        height,
        left: 1,
        top: 2,
        content: GlyphContent::Mask,
        data: vec![coverage; (width * height) as usize],
    }
}

fn white() -> Rgba {
    Rgba { r: 255, g: 255, b: 255, a: 255 }
}

fn atlas() -> TextureAtlas {
    TextureAtlas::new(egui::Context::default(), white())
}

fn atlas_with_max(max: usize) -> TextureAtlas {
    let ctx = egui::Context::default();
    let mut input = egui::RawInput::default();
    input.max_texture_side = Some(max);
    ctx.begin_pass(input);
    TextureAtlas::new(ctx, white())
}

#[test]
fn miss_then_hit_returns_the_same_placement() {
    let mut a = atlas();
    assert!(a.lookup(key(1)).is_none());
    let placed = match a.insert_bitmap(key(1), &mask(20, 20, 128)) {
        InsertOutcome::Done(Some(img)) => img,
        other => panic!("expected a placed glyph, got {:?}", other),
    };
    assert_eq!(placed.width, 20);
    assert_eq!(placed.height, 20);
    assert_eq!(placed.atlas_side, 256);
    assert_eq!(placed.left, 1);
    assert_eq!(placed.top, 2);
    assert!(placed.colorable);
    let hit = a.lookup(key(1)).expect("the inserted key must hit").expect("it is sized");
    assert_eq!(hit.texture, placed.texture);
    assert_eq!(hit.x, placed.x);
    assert_eq!(hit.y, placed.y);
    assert_eq!(hit.width, placed.width);
    assert_eq!(hit.height, placed.height);
}

#[test]
fn distinct_glyphs_get_disjoint_regions() {
    let mut a = atlas();
    let first = match a.insert_bitmap(key(1), &mask(20, 20, 1)) {
        InsertOutcome::Done(Some(img)) => img,
        other => panic!("unexpected {:?}", other),
    };
    let second = match a.insert_bitmap(key(2), &mask(20, 20, 2)) {
        InsertOutcome::Done(Some(img)) => img,
        other => panic!("unexpected {:?}", other),
    };
    let apart_horizontally =
        first.x + first.width <= second.x || second.x + second.width <= first.x;
    let apart_vertically =
        first.y + first.height <= second.y || second.y + second.height <= first.y;
    assert!(apart_horizontally || apart_vertically);
}

#[test]
fn empty_bitmap_is_negatively_cached() {
    let mut a = atlas();
    match a.insert_bitmap(key(7), &mask(0, 5, 0)) {
        InsertOutcome::Done(None) => {}
        other => panic!("unexpected {:?}", other),
    }
    // Every later resolution of the key answers from the cache: a hit whose
    // image is `None`, with nothing rasterized and nothing allocated.
    assert_eq!(a.lookup(key(7)), Some(None));
    assert_eq!(a.lookup(key(7)), Some(None));
}

#[test]
fn failed_rasterization_is_not_cached() {
    let mut a = atlas();
    let mut font_system = FontSystem::new();
    let mut swash_cache = SwashCache::new();
    // No face is registered under a dummy font ID, so rasterization yields
    // nothing; the key must stay uncached so a later call can retry.
    assert!(a.resolve(key(3), &mut font_system, &mut swash_cache).is_none());
    assert!(a.lookup(key(3)).is_none());
}

#[test]
fn least_recently_used_unprotected_entry_is_evicted_first() {
    let mut a = atlas();
    assert!(matches!(a.insert_bitmap(key(1), &mask(200, 200, 1)), InsertOutcome::Done(Some(_))));
    assert!(matches!(a.insert_bitmap(key(2), &mask(20, 20, 2)), InsertOutcome::Done(Some(_))));
    a.trim();
    // Touch key 1 again: key 2 is now the least recently used, and key 1 is
    // protected for this frame.
    assert!(a.lookup(key(1)).is_some());
    // No room for another 200x200 glyph: key 2 is evicted first (pure
    // recency order), then eviction stops at the protected key 1.
    assert!(matches!(a.insert_bitmap(key(3), &mask(200, 200, 3)), InsertOutcome::NeedsGrow));
    assert!(a.lookup(key(2)).is_none());
    assert!(a.lookup(key(1)).is_some());
}

#[test]
fn a_key_resolved_this_frame_is_never_evicted() {
    let mut a = atlas();
    assert!(matches!(a.insert_bitmap(key(1), &mask(200, 200, 1)), InsertOutcome::Done(Some(_))));
    // Key 1 is the sole entry and the only eviction candidate, but it was
    // resolved this frame: the cache demands growth instead.
    assert!(matches!(a.insert_bitmap(key(2), &mask(200, 200, 2)), InsertOutcome::NeedsGrow));
    assert!(a.lookup(key(1)).is_some());
}

#[test]
fn frame_boundary_makes_stale_keys_evictable() {
    let mut a = atlas();
    assert!(matches!(a.insert_bitmap(key(1), &mask(200, 200, 1)), InsertOutcome::Done(Some(_))));
    a.trim();
    // Key 1 was protected last frame but not resolved in this one: the same
    // insertion that demanded growth above now evicts it.
    assert!(matches!(a.insert_bitmap(key(2), &mask(200, 200, 2)), InsertOutcome::Done(Some(_))));
    assert!(a.lookup(key(1)).is_none());
    assert!(a.lookup(key(2)).is_some());
}

#[test]
fn entries_with_nothing_to_draw_are_evicted_without_packer_work() {
    let mut a = atlas();
    assert!(matches!(a.insert_bitmap(key(1), &mask(0, 0, 0)), InsertOutcome::Done(None)));
    assert!(matches!(a.insert_bitmap(key(2), &mask(200, 200, 2)), InsertOutcome::Done(Some(_))));
    a.trim();
    assert!(matches!(a.insert_bitmap(key(3), &mask(200, 200, 3)), InsertOutcome::Done(Some(_))));
    assert!(a.lookup(key(1)).is_none());
    assert!(a.lookup(key(2)).is_none());
}

#[test]
fn growth_doubles_the_side_and_keeps_placements() {
    let mut a = atlas();
    let bitmap = mask(20, 20, 77);
    let placed = match a.insert_bitmap(key(1), &bitmap) {
        InsertOutcome::Done(Some(img)) => img,
        other => panic!("unexpected {:?}", other),
    };
    assert_eq!(a.atlas_texture_size(), 256);
    a.grow_with_bitmaps(&vec![(key(1), bitmap)]);
    assert_eq!(a.atlas_texture_size(), 512);
    let after = a.lookup(key(1)).expect("still cached").expect("still sized");
    // The entry keeps its region and dimensions; only the denominator of the
    // normalized coordinates (the atlas side) and the backing texture change.
    assert_eq!(after.x, placed.x);
    assert_eq!(after.y, placed.y);
    assert_eq!(after.width, placed.width);
    assert_eq!(after.height, placed.height);
    assert_eq!(after.atlas_side, 512);
    assert_ne!(after.texture, placed.texture);
}

#[test]
fn growth_is_capped_at_the_device_maximum() {
    let mut a = atlas_with_max(1024);
    assert_eq!(a.max_texture_side, 1024);
    // A 900x900 glyph cannot fit at side 256 and there is nothing to evict.
    assert!(matches!(a.insert_bitmap(key(1), &mask(900, 900, 1)), InsertOutcome::NeedsGrow));
    a.grow_with_bitmaps(&vec![]);
    assert_eq!(a.atlas_texture_size(), 512);
    assert!(matches!(a.insert_bitmap(key(1), &mask(900, 900, 1)), InsertOutcome::NeedsGrow));
    a.grow_with_bitmaps(&vec![]);
    assert_eq!(a.atlas_texture_size(), 1024);
    assert!(matches!(a.insert_bitmap(key(1), &mask(900, 900, 1)), InsertOutcome::Done(Some(_))));
    // At the device maximum the next exhaustion is final: the cache reports
    // that growth would be needed, and growth past the maximum does not
    // exist.
    assert!(matches!(a.insert_bitmap(key(2), &mask(900, 900, 2)), InsertOutcome::NeedsGrow));
    assert_eq!(a.atlas_texture_size(), a.max_texture_side);
}

#[test]
fn many_glyphs_then_growth_keeps_every_placement() {
    let mut a = atlas();
    let mut placed = Vec::new();
    for n in 0..50u16 {
        match a.insert_bitmap(key(n), &mask(20, 20, (n % 200) as u8 + 1)) {
            InsertOutcome::Done(Some(img)) => placed.push(img),
            other => panic!("glyph {} did not fit without growth: {:?}", n, other),
        }
    }
    assert_eq!(a.atlas_texture_size(), 256);
    // Within the frame every key resolves to the same texture and region.
    for n in 0..50u16 {
        let hit = a.lookup(key(n)).expect("cached").expect("sized");
        let first = &placed[n as usize];
        assert_eq!(hit.texture, first.texture);
        assert_eq!((hit.x, hit.y, hit.width, hit.height), (first.x, first.y, 20, 20));
    }
    // All 50 keys are in use, so a glyph that needs their space cannot evict
    // anything: the cache demands growth instead.
    assert!(matches!(a.insert_bitmap(key(100), &mask(200, 200, 9)), InsertOutcome::NeedsGrow));
    let supplied: Vec<(CacheKey, GlyphBitmap)> =
        (0..50u16).map(|n| (key(n), mask(20, 20, (n % 200) as u8 + 1))).collect();
    a.grow_with_bitmaps(&supplied);
    assert_eq!(a.atlas_texture_size(), 512);
    // Every key still resolves, at its old region, against the new side.
    for n in 0..50u16 {
        let hit = a.lookup(key(n)).expect("still cached").expect("still sized");
        let first = &placed[n as usize];
        assert_eq!((hit.x, hit.y, hit.width, hit.height), (first.x, first.y, 20, 20));
        assert_eq!(hit.atlas_side, 512);
    }
    // The grown atlas now has room for the glyph that forced the growth.
    assert!(matches!(a.insert_bitmap(key(100), &mask(200, 200, 9)), InsertOutcome::Done(Some(_))));
}

#[test]
fn test() {
    println!("{}", std::mem::size_of::<Option<SizedGlyph>>());
    println!("{}", std::mem::size_of::<CacheKey>());
    println!("{}", std::mem::size_of::<GlyphImage>());
}

#[test]
fn queried_maximum_is_clamped_exactly() {
    let mut a = atlas();
    a.set_max_texture_side(4096);
    assert_eq!(a.max_texture_side, 4096);
    // Below the current side: growth is never undone, so the side floors it.
    a.set_max_texture_side(100);
    assert_eq!(a.max_texture_side, 256);
    // Beyond the packer's coordinate range: capped.
    a.set_max_texture_side(1000000);
    assert_eq!(a.max_texture_side, 32767);
}

#[test]
fn updated_device_maximum_is_reread() {
    let ctx = egui::Context::default();
    let mut a = TextureAtlas::new(ctx.clone(), white());
    assert_eq!(a.max_texture_side, 2048);
    let mut input = egui::RawInput::default();
    input.max_texture_side = Some(4096);
    ctx.begin_pass(input);
    a.update_max_texture_side();
    assert_eq!(a.max_texture_side, 4096);
}
