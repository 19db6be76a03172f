//! Cache entries and recency sequences.
//!
//! The cache's model is a sequence of key/entry pairs ordered from least- to
//! most-recently used. An entry is `None` for a glyph with no visual
//! footprint (the negative cache) and `Some` for a glyph whose pixels sit in
//! the atlas.

use vstd::prelude::*;

verus! {

/// A cached glyph with pixels in the atlas: the packer handle for later
/// deallocation, the region's top-left corner and dimensions, the
/// rasterizer-reported placement offsets, and whether the pixels are a mask
/// to tint at paint time.
#[derive(Clone, Copy, PartialEq, Eq, Structural, Debug)]
pub struct SizedGlyph {
    pub alloc_id: u32,
    pub x: u32,
    pub y: u32,
    pub width: u32,
    pub height: u32,
    pub left: i32,
    pub top: i32,
    pub colorable: bool,
}

/// One cache entry: the glyph key with either a sized glyph or the
/// nothing-to-draw marker.
pub type Entry = (cosmic_text::CacheKey, Option<SizedGlyph>);

/// Whether some entry of `s` carries the key `k`.
pub open spec fn has_key(s: Seq<Entry>, k: cosmic_text::CacheKey) -> bool {
    exists|i: int| 0 <= i < s.len() && (#[trigger] s[i]).0 == k
}

/// The position of the entry carrying `k`; meaningful when `has_key` holds
/// and the keys of `s` are distinct.
pub open spec fn index_of_key(s: Seq<Entry>, k: cosmic_text::CacheKey) -> int {
    choose|i: int| 0 <= i < s.len() && (#[trigger] s[i]).0 == k
}

/// No two entries of `s` carry the same key.
pub open spec fn distinct_keys(s: Seq<Entry>) -> bool {
    forall|i: int, j: int| 0 <= i < j < s.len() ==> (#[trigger] s[i]).0 != (#[trigger] s[j]).0
}

/// The entry stored under `k`; meaningful when `has_key` holds.
pub open spec fn entry_of(s: Seq<Entry>, k: cosmic_text::CacheKey) -> Option<SizedGlyph> {
    s[index_of_key(s, k)].1
}

/// The sequence with the entry at `i` moved to the most-recently-used end.
pub open spec fn promote_at(s: Seq<Entry>, i: int) -> Seq<Entry> {
    s.remove(i).push(s[i])
}

/// No two sized entries of `s` share a packer handle.
pub open spec fn distinct_alloc_ids(s: Seq<Entry>) -> bool {
    forall|i: int, j: int|
        0 <= i < j < s.len() ==> match ((#[trigger] s[i]).1, (#[trigger] s[j]).1) {
            (Some(a), Some(b)) => a.alloc_id != b.alloc_id,
            _ => true,
        }
}

/// No sized entry of `s` holds the packer handle `id`.
pub open spec fn id_unused(s: Seq<Entry>, id: u32) -> bool {
    forall|j: int|
        0 <= j < s.len() ==> match (#[trigger] s[j]).1 {
            Some(g) => g.alloc_id != id,
            None => true,
        }
}

/// With distinct keys, an entry seen at `j` is the one every key lookup
/// finds.
pub proof fn lemma_key_at(s: Seq<Entry>, k: cosmic_text::CacheKey, j: int)
    requires
        distinct_keys(s),
        0 <= j < s.len(),
        s[j].0 == k,
    ensures
        has_key(s, k),
        index_of_key(s, k) == j,
        entry_of(s, k) == s[j].1,
{
    assert(has_key(s, k));
    let j2 = index_of_key(s, k);
    if j2 != j {
        assert(s[j2].0 == k);
        assert(false);
    }
}

/// What moving the entry at `i` to the most-recently-used end does: length,
/// keys, entries and handles are all kept, only the order changes.
pub proof fn lemma_promote_at(s: Seq<Entry>, i: int)
    requires
        0 <= i < s.len(),
        distinct_keys(s),
    ensures
        promote_at(s, i).len() == s.len(),
        promote_at(s, i)[s.len() - 1] == s[i],
        forall|j: int| 0 <= j < i ==> #[trigger] promote_at(s, i)[j] == s[j],
        forall|j: int| i <= j < s.len() - 1 ==> #[trigger] promote_at(s, i)[j] == s[j + 1],
        forall|j: int| 0 <= j < s.len() ==> s.contains(#[trigger] promote_at(s, i)[j]),
        distinct_keys(promote_at(s, i)),
        distinct_alloc_ids(s) ==> distinct_alloc_ids(promote_at(s, i)),
        forall|k: cosmic_text::CacheKey| has_key(promote_at(s, i), k) <==> has_key(s, k),
        forall|k: cosmic_text::CacheKey|
            has_key(s, k) ==> entry_of(promote_at(s, i), k) == entry_of(s, k),
{
    s.remove_ensures(i);
    let t = promote_at(s, i);
    assert forall|j: int| 0 <= j < s.len() implies s.contains(#[trigger] t[j]) by {
        if j < i {
            assert(t[j] == s[j]);
        } else if j < s.len() - 1 {
            assert(t[j] == s[j + 1]);
        } else {
            assert(t[j] == s[i]);
        }
    }
    assert forall|a: int, b: int| 0 <= a < b < t.len() implies (#[trigger] t[a]).0 != (
    #[trigger] t[b]).0 by {
        let a0 = if a < i {
            a
        } else {
            a + 1
        };
        let b0 = if b < s.len() - 1 {
            if b < i {
                b
            } else {
                b + 1
            }
        } else {
            i
        };
        assert(t[a] == s[a0]);
        assert(t[b] == s[b0]);
        assert(a0 != b0);
    }
    if distinct_alloc_ids(s) {
        assert forall|a: int, b: int| 0 <= a < b < t.len() implies match ((#[trigger] t[a]).1, (
        #[trigger] t[b]).1) {
            (Some(x), Some(y)) => x.alloc_id != y.alloc_id,
            _ => true,
        } by {
            let a0 = if a < i {
                a
            } else {
                a + 1
            };
            let b0 = if b < s.len() - 1 {
                if b < i {
                    b
                } else {
                    b + 1
                }
            } else {
                i
            };
            assert(t[a] == s[a0]);
            assert(t[b] == s[b0]);
            assert(a0 != b0);
            if a0 < b0 {
                assert(distinct_alloc_ids(s) && 0 <= a0 < b0 < s.len());
            } else {
                assert(distinct_alloc_ids(s) && 0 <= b0 < a0 < s.len());
            }
        }
    }
    assert forall|k: cosmic_text::CacheKey| has_key(t, k) implies has_key(s, k) by {
        let j = choose|j: int| 0 <= j < t.len() && (#[trigger] t[j]).0 == k;
        assert(s.contains(t[j]));
        let j0 = choose|j0: int| 0 <= j0 < s.len() && s[j0] == t[j];
        assert(s[j0].0 == k);
    }
    assert forall|k: cosmic_text::CacheKey| has_key(s, k) implies has_key(t, k) by {
        let j0 = index_of_key(s, k);
        if j0 < i {
            assert(t[j0].0 == k);
        } else if j0 == i {
            assert(t[s.len() - 1].0 == k);
        } else {
            assert(t[j0 - 1].0 == k);
        }
    }
    assert forall|k: cosmic_text::CacheKey| has_key(s, k) implies entry_of(t, k) == entry_of(s, k)
    by {
        let j0 = index_of_key(s, k);
        assert(0 <= j0 < s.len() && s[j0].0 == k);
        lemma_key_at(s, k, j0);
        if j0 < i {
            lemma_key_at(t, k, j0);
        } else if j0 == i {
            lemma_key_at(t, k, s.len() - 1);
        } else {
            lemma_key_at(t, k, j0 - 1);
        }
    }
}

/// What dropping the least-recently-used entry does: the rest keeps its
/// order, its entries and its handles, and the dropped key is gone.
pub proof fn lemma_drop_first(s: Seq<Entry>)
    requires
        s.len() > 0,
        distinct_keys(s),
    ensures
        s.drop_first().len() == s.len() - 1,
        forall|j: int| 0 <= j < s.len() - 1 ==> #[trigger] s.drop_first()[j] == s[j + 1],
        forall|j: int| 0 <= j < s.len() - 1 ==> s.contains(#[trigger] s.drop_first()[j]),
        distinct_keys(s.drop_first()),
        distinct_alloc_ids(s) ==> distinct_alloc_ids(s.drop_first()),
        !has_key(s.drop_first(), s[0].0),
        forall|k: cosmic_text::CacheKey| has_key(s.drop_first(), k) ==> has_key(s, k) && k != s[0].0,
        forall|k: cosmic_text::CacheKey|
            has_key(s, k) && k != s[0].0 ==> has_key(s.drop_first(), k),
        forall|k: cosmic_text::CacheKey|
            has_key(s.drop_first(), k) ==> entry_of(s.drop_first(), k) == entry_of(s, k),
{
    let t = s.drop_first();
    assert forall|j: int| 0 <= j < s.len() - 1 implies s.contains(#[trigger] t[j]) by {
        assert(t[j] == s[j + 1]);
    }
    if has_key(t, s[0].0) {
        let j = choose|j: int| 0 <= j < t.len() && (#[trigger] t[j]).0 == s[0].0;
        assert(s[j + 1].0 == s[0].0);
        assert(false);
    }
    assert forall|k: cosmic_text::CacheKey| has_key(t, k) implies has_key(s, k) && k != s[0].0 by {
        let j = choose|j: int| 0 <= j < t.len() && (#[trigger] t[j]).0 == k;
        assert(s[j + 1].0 == k);
        if k == s[0].0 {
            assert(false);
        }
    }
    assert forall|k: cosmic_text::CacheKey| has_key(s, k) && k != s[0].0 implies has_key(t, k) by {
        let j = choose|j: int| 0 <= j < s.len() && (#[trigger] s[j]).0 == k;
        assert(j != 0);
        assert(t[j - 1].0 == k);
    }
    assert forall|k: cosmic_text::CacheKey| has_key(t, k) implies entry_of(t, k) == entry_of(s, k)
    by {
        let j = choose|j: int| 0 <= j < t.len() && (#[trigger] t[j]).0 == k;
        lemma_key_at(t, k, j);
        lemma_key_at(s, k, j + 1);
    }
}

/// What storing a fresh key at the most-recently-used end does: every other
/// key keeps its entry, and the new key's entry is the stored one.
pub proof fn lemma_push_fresh(s: Seq<Entry>, k: cosmic_text::CacheKey, v: Option<SizedGlyph>)
    requires
        distinct_keys(s),
        !has_key(s, k),
    ensures
        s.push((k, v)).len() == s.len() + 1,
        forall|j: int| 0 <= j < s.len() ==> #[trigger] s.push((k, v))[j] == s[j],
        s.push((k, v))[s.len() as int] == (k, v),
        distinct_keys(s.push((k, v))),
        forall|k2: cosmic_text::CacheKey|
            has_key(s.push((k, v)), k2) <==> has_key(s, k2) || k2 == k,
        entry_of(s.push((k, v)), k) == v,
        forall|k2: cosmic_text::CacheKey|
            has_key(s, k2) ==> entry_of(s.push((k, v)), k2) == entry_of(s, k2),
{
    let t = s.push((k, v));
    assert forall|a: int, b: int| 0 <= a < b < t.len() implies (#[trigger] t[a]).0 != (
    #[trigger] t[b]).0 by {
        if b < s.len() {
            assert(t[a] == s[a] && t[b] == s[b]);
        } else {
            assert(t[b] == (k, v));
            assert(t[a] == s[a]);
            if s[a].0 == k {
                assert(has_key(s, k));
                assert(false);
            }
        }
    }
    assert forall|k2: cosmic_text::CacheKey| has_key(t, k2) implies has_key(s, k2) || k2 == k by {
        let j = choose|j: int| 0 <= j < t.len() && (#[trigger] t[j]).0 == k2;
        if j < s.len() {
            assert(s[j].0 == k2);
        }
    }
    assert forall|k2: cosmic_text::CacheKey| has_key(s, k2) implies has_key(t, k2) by {
        let j = index_of_key(s, k2);
        assert(t[j].0 == k2);
    }
    assert(t[s.len() as int].0 == k);
    lemma_key_at(t, k, s.len() as int);
    assert forall|k2: cosmic_text::CacheKey| has_key(s, k2) implies entry_of(t, k2) == entry_of(
        s,
        k2,
    ) by {
        let j = index_of_key(s, k2);
        lemma_key_at(s, k2, j);
        lemma_key_at(t, k2, j);
    }
}

} // verus!
