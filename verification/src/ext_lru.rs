//! Trusted surface of the LRU store.
//!
//! The cache's recency bookkeeping is an `lru::LruCache` from glyph keys to
//! entries, used unbounded: nothing is ever dropped behind the cache's back,
//! eviction is this library's own decision. Each wrapper states what the call
//! does to `lru_order`, the entries from least- to most-recently used. The
//! store keeps one entry per key, so `index_of_key` names the position of a
//! key that `has_key` finds.

use crate::entry::{entry_of, has_key, index_of_key, promote_at, Entry, SizedGlyph};
use vstd::prelude::*;

verus! {

#[verifier::external_type_specification]
#[verifier::external_body]
#[verifier::reject_recursive_types(K)]
#[verifier::reject_recursive_types(V)]
#[verifier::reject_recursive_types(S)]
pub struct ExLruCache<K, V, S>(lru::LruCache<K, V, S>);

/// The LRU store from glyph keys to cache entries.
pub type GlyphLru = lru::LruCache<
    cosmic_text::CacheKey,
    Option<SizedGlyph>,
    std::collections::hash_map::RandomState,
>;

/// The entries of the store from least- to most-recently used.
pub uninterp spec fn lru_order(cache: GlyphLru) -> Seq<Entry>;

/// Whether the store was made without a capacity bound. A bounded store
/// drops its least-recently-used entry when a `put` overflows it; the
/// contracts below hold as stated only of an unbounded one.
pub uninterp spec fn lru_unbounded(cache: GlyphLru) -> bool;

/// Relies on lru::LruCache::unbounded_with_hasher: the new cache is empty
/// and never drops entries of its own accord.
#[verifier::external_body]
pub(crate) fn lru_new() -> (c: GlyphLru)
    ensures
        lru_order(c) == Seq::<Entry>::empty(),
        lru_unbounded(c),
{
    lru::LruCache::unbounded_with_hasher(std::collections::hash_map::RandomState::new())
}

/// Relies on lru::LruCache::get: it returns the value stored under a key
/// equal to `k`, moving that entry to the most-recently-used end, and leaves
/// the cache unchanged when no entry carries `k`.
#[verifier::external_body]
pub(crate) fn lru_get(c: &mut GlyphLru, k: &cosmic_text::CacheKey) -> (r: Option<
    Option<SizedGlyph>,
>)
    ensures
        lru_unbounded(*final(c)) == lru_unbounded(*old(c)),
        !has_key(lru_order(*old(c)), *k) ==> r == None::<Option<SizedGlyph>> && lru_order(*final(c))
            == lru_order(*old(c)),
        has_key(lru_order(*old(c)), *k) ==> r == Some(entry_of(lru_order(*old(c)), *k)),
        has_key(lru_order(*old(c)), *k) ==> lru_order(*final(c)) == promote_at(
            lru_order(*old(c)),
            index_of_key(lru_order(*old(c)), *k),
        ),
{
    c.get(k).copied()
}

/// Relies on lru::LruCache::put: in an unbounded store it stores `v` under
/// `k` at the most-recently-used end, replacing the entry that carried `k`
/// before, and drops nothing else.
#[verifier::external_body]
pub(crate) fn lru_put(c: &mut GlyphLru, k: cosmic_text::CacheKey, v: Option<SizedGlyph>)
    requires
        lru_unbounded(*old(c)),
    ensures
        lru_unbounded(*final(c)),
        !has_key(lru_order(*old(c)), k) ==> lru_order(*final(c)) == lru_order(*old(c)).push((k, v)),
        has_key(lru_order(*old(c)), k) ==> lru_order(*final(c)) == lru_order(*old(c)).remove(
            index_of_key(lru_order(*old(c)), k),
        ).push((k, v)),
{
    c.put(k, v);
}

/// Relies on lru::LruCache::peek_lru: it returns the least-recently-used
/// entry without touching the recency order.
#[verifier::external_body]
pub(crate) fn lru_peek_lru(c: &GlyphLru) -> (r: Option<Entry>)
    ensures
        lru_order(*c).len() == 0 ==> r == None::<Entry>,
        lru_order(*c).len() > 0 ==> r == Some(lru_order(*c)[0]),
{
    c.peek_lru().map(|(k, v)| (*k, *v))
}

/// Relies on lru::LruCache::pop_lru: it removes and returns the
/// least-recently-used entry.
#[verifier::external_body]
pub(crate) fn lru_pop_lru(c: &mut GlyphLru) -> (r: Option<Entry>)
    ensures
        lru_unbounded(*final(c)) == lru_unbounded(*old(c)),
        lru_order(*old(c)).len() == 0 ==> r == None::<Entry> && lru_order(*final(c)) == lru_order(
            *old(c),
        ),
        lru_order(*old(c)).len() > 0 ==> r == Some(lru_order(*old(c))[0]) && lru_order(*final(c))
            == lru_order(*old(c)).drop_first(),
{
    c.pop_lru()
}

/// Relies on lru::LruCache::peek: it returns the value stored under a key
/// equal to `k` without touching the recency order.
#[verifier::external_body]
pub(crate) fn lru_peek(c: &GlyphLru, k: &cosmic_text::CacheKey) -> (r: Option<Option<SizedGlyph>>)
    ensures
        !has_key(lru_order(*c), *k) ==> r == None::<Option<SizedGlyph>>,
        has_key(lru_order(*c), *k) ==> r == Some(entry_of(lru_order(*c), *k)),
{
    c.peek(k).copied()
}

/// Relies on lru::LruCache::iter: it visits every entry once, from most- to
/// least-recently used, without touching the recency order; reversed here to
/// match `lru_order`.
#[verifier::external_body]
pub(crate) fn lru_entries(c: &GlyphLru) -> (r: Vec<Entry>)
    ensures
        r@ == lru_order(*c),
{
    c.iter().rev().map(|(k, v)| (*k, *v)).collect()
}

} // verus!
