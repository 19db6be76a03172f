//! Laws of the cache: properties that hold across its operations.
//!
//! Eviction order and in-use protection are stated directly on
//! `TextureAtlas::try_alloc_region` and `TextureAtlas::insert_bitmap`: every
//! eviction removes an unprotected prefix of the recency order, so a key
//! resolved this frame is never evicted and ties are broken by pure recency.
//! The laws here state what needs more than one operation: promotion,
//! growth, and the frame boundary.

use crate::atlas::{entry_ok, entry_region, TextureAtlas};
use crate::entry::{
    distinct_alloc_ids, distinct_keys, entry_of, has_key, index_of_key, lemma_key_at,
    lemma_promote_at, promote_at, Entry,
};
use crate::ext_packer::{region_in_bounds, regions_disjoint};
use crate::grow::{grown_side, matching_entry, regrow_image};
use crate::pixels::{GlyphBitmap, Rgba};
use crate::texture::{blit, square_domain};
use vstd::prelude::*;

verus! {

/// The regions of any two sized entries are disjoint.
pub open spec fn entry_regions_disjoint(s: Seq<Entry>) -> bool {
    forall|i: int, j: int|
        0 <= i < j < s.len() ==> match ((#[trigger] s[i]).1, (#[trigger] s[j]).1) {
            (Some(g), Some(h)) => regions_disjoint(entry_region(g), entry_region(h)),
            _ => true,
        }
}

/// A well-formed atlas gives every pair of sized entries disjoint regions:
/// their packer handles differ and live packer regions never overlap.
pub proof fn lemma_wf_regions_disjoint(a: TextureAtlas)
    requires
        a.wf(),
    ensures
        entry_regions_disjoint(a.order()),
{
    let s = a.order();
    assert forall|i: int, j: int| 0 <= i < j < s.len() implies match (
    (#[trigger] s[i]).1,
    (#[trigger] s[j]).1,
    ) {
        (Some(g), Some(h)) => regions_disjoint(entry_region(g), entry_region(h)),
        _ => true,
    } by {
        match (s[i].1, s[j].1) {
            (Some(g), Some(h)) => {
                assert(entry_ok(a.packer, a.atlas_side as int, s[i]));
                assert(entry_ok(a.packer, a.atlas_side as int, s[j]));
                assert(g.alloc_id != h.alloc_id);
            },
            _ => {},
        }
    }
}

/// *Promotion.* Resolving a key moves its entry to the most-recently-used
/// end: afterwards it is more recently used than every other cached key,
/// whatever was resolved before.
pub proof fn lemma_promotion_most_recent(s: Seq<Entry>, k: cosmic_text::CacheKey)
    requires
        distinct_keys(s),
        has_key(s, k),
    ensures
        index_of_key(promote_at(s, index_of_key(s, k)), k) == s.len() - 1,
        forall|k2: cosmic_text::CacheKey|
            has_key(s, k2) && k2 != k ==> index_of_key(promote_at(s, index_of_key(s, k)), k2)
                < s.len() - 1,
{
    let i = index_of_key(s, k);
    lemma_promote_at(s, i);
    let t = promote_at(s, i);
    lemma_key_at(t, k, s.len() - 1);
    assert forall|k2: cosmic_text::CacheKey| has_key(s, k2) && k2 != k implies index_of_key(t, k2)
        < s.len() - 1 by {
        assert(has_key(t, k2));
        let j2 = index_of_key(t, k2);
        assert(0 <= j2 < t.len() && t[j2].0 == k2);
        if j2 == s.len() - 1 {
            assert(t[j2].0 == k);
            assert(false);
        }
    }
}

/// *Growth monotonicity and cap.* A growth step strictly enlarges the side,
/// exactly doubles it unless the device maximum cuts it short, and never
/// passes that maximum. At the maximum no growth step exists at all:
/// `grow_with_bitmaps` requires a side below it.
pub proof fn lemma_growth_monotone_and_capped(a: TextureAtlas)
    requires
        a.wf(),
        a.atlas_side < a.max_texture_side,
    ensures
        a.atlas_side < grown_side(a),
        grown_side(a) <= a.max_texture_side,
        grown_side(a) == 2 * a.atlas_side || grown_side(a) == a.max_texture_side,
{
}

/// *Frame boundary reset.* After the end of a frame nothing is protected:
/// a key resolved in the previous frame and not in this one is as evictable
/// as any other, since eviction is blocked only by the in-use set.
pub proof fn lemma_frame_boundary_reset(a: TextureAtlas, k: cosmic_text::CacheKey)
    requires
        a.in_use@ == Seq::<cosmic_text::CacheKey>::empty(),
    ensures
        !a.in_use@.contains(k),
{
    if a.in_use@.contains(k) {
        let j = choose|j: int| 0 <= j < a.in_use@.len() && a.in_use@[j] == k;
        assert(false);
    }
}

/// Painting the supplied bitmaps keeps the image's domain.
pub proof fn lemma_regrow_dom(
    base: Map<(int, int), Rgba>,
    order: Seq<Entry>,
    supplied: Seq<(cosmic_text::CacheKey, GlyphBitmap)>,
    default_color: Rgba,
)
    ensures
        regrow_image(base, order, supplied, default_color).dom() == base.dom(),
    decreases supplied.len(),
{
    if supplied.len() > 0 {
        lemma_regrow_dom(base, order, supplied.drop_last(), default_color);
        let prev = regrow_image(base, order, supplied.drop_last(), default_color);
        let k = supplied.last().0;
        let b = supplied.last().1;
        if matching_entry(order, k, b) {
            match entry_of(order, k) {
                Some(g) => {
                    assert(blit(prev, g.x as int, g.y as int, b, default_color).dom()
                        =~= prev.dom());
                },
                None => {},
            }
        }
    }
}

/// *Growth preserves content.* After a growth step, every sized entry whose
/// key was rasterized again to a bitmap of the entry's dimensions shows that
/// bitmap's pixels, unclipped, at its region: with stable keys (the same key
/// rasterizes to the same bitmap) the glyph's visual content is unchanged,
/// only the normalized coordinates move with the atlas side.
pub proof fn lemma_growth_preserves_content(
    base: Map<(int, int), Rgba>,
    order: Seq<Entry>,
    supplied: Seq<(cosmic_text::CacheKey, GlyphBitmap)>,
    default_color: Rgba,
    side: int,
    i: int,
)
    requires
        distinct_keys(order),
        entry_regions_disjoint(order),
        base.dom() == square_domain(side),
        forall|j: int|
            0 <= j < order.len() ==> match (#[trigger] order[j]).1 {
                Some(g) => region_in_bounds(entry_region(g), side),
                None => true,
            },
        forall|a: int, b: int|
            0 <= a < b < supplied.len() ==> (#[trigger] supplied[a]).0 != (
            #[trigger] supplied[b]).0,
        0 <= i < supplied.len(),
        matching_entry(order, supplied[i].0, supplied[i].1),
    ensures
        match entry_of(order, supplied[i].0) {
            Some(g) => forall|px: int, py: int|
                0 <= px < g.width && 0 <= py < g.height ==> regrow_image(
                    base,
                    order,
                    supplied,
                    default_color,
                )[(g.x + px, g.y + py)] == supplied[i].1.pixel_at(default_color, px, py),
            None => false,
        },
    decreases supplied.len(),
{
    let k = supplied[i].0;
    let b = supplied[i].1;
    let jk = index_of_key(order, k);
    lemma_key_at(order, k, jk);
    let g = entry_of(order, k)->Some_0;
    assert(entry_of(order, k) == Some(g));
    assert(region_in_bounds(entry_region(g), side));
    let out = regrow_image(base, order, supplied, default_color);
    let prev = regrow_image(base, order, supplied.drop_last(), default_color);
    lemma_regrow_dom(base, order, supplied.drop_last(), default_color);
    if i == supplied.len() - 1 {
        assert(out == blit(prev, g.x as int, g.y as int, b, default_color));
        assert forall|px: int, py: int| 0 <= px < g.width && 0 <= py < g.height implies out[
        (g.x + px, g.y + py)] == b.pixel_at(default_color, px, py) by {
            let p = (g.x + px, g.y + py);
            assert(square_domain(side).contains(p));
            assert(prev.dom().contains(p));
        }
    } else {
        assert(supplied.drop_last()[i] == supplied[i]);
        lemma_growth_preserves_content(
            base,
            order,
            supplied.drop_last(),
            default_color,
            side,
            i,
        );
        let k2 = supplied.last().0;
        let b2 = supplied.last().1;
        assert(supplied.last() == supplied[supplied.len() - 1]);
        assert(k2 != k);
        if matching_entry(order, k2, b2) {
            let j2 = index_of_key(order, k2);
            lemma_key_at(order, k2, j2);
            let g2 = entry_of(order, k2)->Some_0;
            assert(entry_of(order, k2) == Some(g2));
            assert(jk != j2);
            assert(regions_disjoint(entry_region(g), entry_region(g2))) by {
                if jk < j2 {
                    assert(entry_regions_disjoint(order) && 0 <= jk < j2 < order.len());
                } else {
                    assert(entry_regions_disjoint(order) && 0 <= j2 < jk < order.len());
                    assert(regions_disjoint(entry_region(g2), entry_region(g)));
                }
            }
            assert(out == blit(prev, g2.x as int, g2.y as int, b2, default_color));
            assert forall|px: int, py: int| 0 <= px < g.width && 0 <= py < g.height implies out[
            (g.x + px, g.y + py)] == b.pixel_at(default_color, px, py) by {
                let p = (g.x + px, g.y + py);
                assert(square_domain(side).contains(p));
                assert(prev.dom().contains(p));
                assert(g2.width == b2.width && g2.height == b2.height);
                assert(!(g2.x <= p.0 < g2.x + b2.width && g2.y <= p.1 < g2.y + b2.height));
                assert(out[p] == prev[p]);
            }
        }
    }
}

} // verus!
