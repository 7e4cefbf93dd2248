//! The bounded cache in which layouts are kept, least recently used first
//! to leave, and the hash by which blocks are told apart.
//!
//! The cache is `lru::LruCache`. Its contents are modelled as a sequence of
//! entries, each a key with the layout stored under it, from the most
//! recently used to the least recently used.

use vstd::prelude::*;
use crate::layout::{well_formed_layout, DisasmBasicBlockLayout};

verus! {

/// `lru::LruCache`, a bounded map that forgets what was used least recently.
/// Nothing inside it is visible to the verifier: what it holds is spoken of
/// through `lru_entries` and `lru_limit`.
#[verifier::external_type_specification]
#[verifier::external_body]
#[verifier::reject_recursive_types(K)]
#[verifier::reject_recursive_types(V)]
#[verifier::reject_recursive_types(S)]
pub struct ExLruCache<K, V, S>(lru::LruCache<K, V, S>);

/// `lru::DefaultHasher`, the hasher that an `lru::LruCache` is made with
/// unless it is given another. It is only carried along.
#[verifier::external_type_specification]
#[verifier::external_body]
pub struct ExDefaultHasher(lru::DefaultHasher);

/// What a cache of layouts holds: each key with the view of its layout, from
/// the most recently used entry to the least recently used. The cache holds
/// at most one entry under a key.
pub uninterp spec fn lru_entries(cache: lru::LruCache<(u8, u64), DisasmBasicBlockLayout>) -> Seq<
    ((u8, u64), Seq<(u64, usize, Seq<char>)>),
>;

/// The number of entries that a cache of layouts was made to hold at most.
pub uninterp spec fn lru_limit(cache: lru::LruCache<(u8, u64), DisasmBasicBlockLayout>) -> nat;

/// What `fasthash::metro::hash64` makes of a run of bytes: a 64-bit hash
/// with the seed zero, which depends on the bytes alone.
pub uninterp spec fn metro_hash64(data: Seq<u8>) -> u64;

/// The key of the entry at `index`.
pub open spec fn key_at(
    entries: Seq<((u8, u64), Seq<(u64, usize, Seq<char>)>)>,
    index: int,
) -> (u8, u64) {
    entries[index].0
}

/// Whether some entry has the key `key`.
pub open spec fn holds_key(
    entries: Seq<((u8, u64), Seq<(u64, usize, Seq<char>)>)>,
    key: (u8, u64),
) -> bool {
    exists|index: int| 0 <= index < entries.len() && #[trigger] key_at(entries, index) == key
}

/// The place of an entry with the key `key`, where there is one.
pub open spec fn index_of_key(
    entries: Seq<((u8, u64), Seq<(u64, usize, Seq<char>)>)>,
    key: (u8, u64),
) -> int {
    choose|index: int| 0 <= index < entries.len() && #[trigger] key_at(entries, index) == key
}

/// Whether no two entries share a key.
pub open spec fn distinct_keys(entries: Seq<((u8, u64), Seq<(u64, usize, Seq<char>)>)>) -> bool {
    forall|i: int, j: int|
        0 <= i < j < entries.len() ==> #[trigger] key_at(entries, i) != #[trigger] key_at(
            entries,
            j,
        )
}

/// The entries with the one at `index` moved to the front.
pub open spec fn moved_to_front(
    entries: Seq<((u8, u64), Seq<(u64, usize, Seq<char>)>)>,
    index: int,
) -> Seq<((u8, u64), Seq<(u64, usize, Seq<char>)>)> {
    seq![entries[index]] + entries.remove(index)
}

/// The entries after the one with the key `key` was used: it moves to the
/// front, and the others keep their order. Without such an entry nothing
/// changes.
pub open spec fn touched(
    entries: Seq<((u8, u64), Seq<(u64, usize, Seq<char>)>)>,
    key: (u8, u64),
) -> Seq<((u8, u64), Seq<(u64, usize, Seq<char>)>)> {
    if holds_key(entries, key) {
        moved_to_front(entries, index_of_key(entries, key))
    } else {
        entries
    }
}

/// The entries that stay when `layout` is stored under `key` in a cache that
/// holds at most `limit` entries: all but an entry with the same key;
/// without one, and with the cache full, all but the least recently used.
pub open spec fn kept(
    entries: Seq<((u8, u64), Seq<(u64, usize, Seq<char>)>)>,
    limit: nat,
    key: (u8, u64),
) -> Seq<((u8, u64), Seq<(u64, usize, Seq<char>)>)> {
    if holds_key(entries, key) {
        entries.remove(index_of_key(entries, key))
    } else if entries.len() == limit {
        entries.drop_last()
    } else {
        entries
    }
}

/// The entries after `layout` was stored under `key` in a cache that holds at
/// most `limit` entries: the new entry at the front, then those that stay.
pub open spec fn stored(
    entries: Seq<((u8, u64), Seq<(u64, usize, Seq<char>)>)>,
    limit: nat,
    key: (u8, u64),
    layout: Seq<(u64, usize, Seq<char>)>,
) -> Seq<((u8, u64), Seq<(u64, usize, Seq<char>)>)> {
    seq![(key, layout)] + kept(entries, limit, key)
}

/// What holds of the entries of every cache that keeps at most `limit`
/// layouts: there are no more than that, at most one under each key, and
/// each layout is without gaps.
pub open spec fn well_formed_entries(
    entries: Seq<((u8, u64), Seq<(u64, usize, Seq<char>)>)>,
    limit: nat,
) -> bool {
    &&& 0 < limit
    &&& entries.len() <= limit
    &&& distinct_keys(entries)
    &&& forall|index: int|
        0 <= index < entries.len() ==> well_formed_layout((#[trigger] entries[index]).1)
}

/// An empty cache for at most `limit` layouts, made by `lru::LruCache::new`.
#[verifier::external_body]
pub(crate) fn lru_new(limit: usize) -> (cache: lru::LruCache<(u8, u64), DisasmBasicBlockLayout>)
    requires
        0 < limit,
    ensures
        lru_entries(cache) == Seq::<((u8, u64), Seq<(u64, usize, Seq<char>)>)>::empty(),
        lru_limit(cache) == limit,
{
    lru::LruCache::new(std::num::NonZeroUsize::new(limit).unwrap())
}

/// The layout stored under `key`, through `lru::LruCache::get`: the call
/// finds the entry with that key, if there is one, and makes it the most
/// recently used.
#[verifier::external_body]
pub(crate) fn lru_get<'a>(
    cache: &'a mut lru::LruCache<(u8, u64), DisasmBasicBlockLayout>,
    key: &(u8, u64),
) -> (found: Option<&'a DisasmBasicBlockLayout>)
    ensures
        lru_limit(*final(cache)) == lru_limit(*old(cache)),
        lru_entries(*final(cache)) == touched(lru_entries(*old(cache)), *key),
        found is Some == holds_key(lru_entries(*old(cache)), *key),
        found matches Some(layout) ==> layout@ == lru_entries(*old(cache))[index_of_key(
            lru_entries(*old(cache)),
            *key,
        )].1,
{
    cache.get(key)
}

/// Stores `layout` under `key`, through `lru::LruCache::put`: the call
/// replaces the value of an entry with that key, or else adds an entry, after
/// dropping the least recently used one from a full cache; either way the
/// entry becomes the most recently used.
#[verifier::external_body]
pub(crate) fn lru_put(
    cache: &mut lru::LruCache<(u8, u64), DisasmBasicBlockLayout>,
    key: (u8, u64),
    layout: DisasmBasicBlockLayout,
)
    ensures
        lru_limit(*final(cache)) == lru_limit(*old(cache)),
        lru_entries(*final(cache)) == stored(
            lru_entries(*old(cache)),
            lru_limit(*old(cache)),
            key,
            layout@,
        ),
{
    cache.put(key, layout);
}

/// The content hash of a block's bytes, by `fasthash::metro::hash64`. The
/// call hashes the bytes with a fixed seed; nothing is claimed of the hash but
/// that equal bytes give the same one.
#[verifier::external_body]
pub(crate) fn content_hash(data: &[u8]) -> (hash: u64)
    ensures
        hash == metro_hash64(data@),
{
    fasthash::metro::hash64(data)
}

/// Where keys are distinct, the entry found under a key is the one that has
/// it.
pub proof fn lemma_index_of_key(
    entries: Seq<((u8, u64), Seq<(u64, usize, Seq<char>)>)>,
    key: (u8, u64),
    index: int,
)
    requires
        distinct_keys(entries),
        0 <= index < entries.len(),
        key_at(entries, index) == key,
    ensures
        holds_key(entries, key),
        index_of_key(entries, key) == index,
{
    let found = index_of_key(entries, key);
    if found < index {
        assert(key_at(entries, found) != key_at(entries, index));
    } else if index < found {
        assert(key_at(entries, index) != key_at(entries, found));
    }
}

/// Where the entry at `index` of the entries stands after the one at `at`
/// was moved to the front.
pub open spec fn place_after_move(at: int, index: int) -> int {
    if index == at {
        0
    } else if index < at {
        index + 1
    } else {
        index
    }
}

/// Moving an entry to the front keeps every entry, each at its new place,
/// and keeps the keys distinct.
pub proof fn lemma_moved_to_front(
    entries: Seq<((u8, u64), Seq<(u64, usize, Seq<char>)>)>,
    at: int,
)
    requires
        distinct_keys(entries),
        0 <= at < entries.len(),
    ensures
        moved_to_front(entries, at).len() == entries.len(),
        forall|index: int|
            0 <= index < entries.len() ==> moved_to_front(entries, at)[#[trigger] place_after_move(
                at,
                index,
            )] == entries[index],
        distinct_keys(moved_to_front(entries, at)),
{
    let after = moved_to_front(entries, at);
    assert forall|index: int| 0 <= index < entries.len() implies after[#[trigger] place_after_move(
        at,
        index,
    )] == entries[index] by {}
    assert forall|i: int, j: int| 0 <= i < j < after.len() implies #[trigger] key_at(after, i)
        != #[trigger] key_at(after, j) by {
        let from_i = if i == 0 {
            at
        } else if i <= at {
            i - 1
        } else {
            i
        };
        let from_j = if j <= at {
            j - 1
        } else {
            j
        };
        assert(after[i] == entries[from_i]);
        assert(after[j] == entries[from_j]);
        if from_i < from_j {
            assert(key_at(entries, from_i) != key_at(entries, from_j));
        } else {
            assert(key_at(entries, from_j) != key_at(entries, from_i));
        }
    }
}

/// Using the entry under one key changes nothing under any key: the same
/// keys are held, each with the same layout.
pub proof fn lemma_touched_keeps(
    entries: Seq<((u8, u64), Seq<(u64, usize, Seq<char>)>)>,
    key: (u8, u64),
    other: (u8, u64),
)
    requires
        distinct_keys(entries),
    ensures
        holds_key(touched(entries, key), other) == holds_key(entries, other),
        holds_key(entries, other) ==> touched(entries, key)[index_of_key(
            touched(entries, key),
            other,
        )] == entries[index_of_key(entries, other)],
{
    if holds_key(entries, key) {
        let at = index_of_key(entries, key);
        let after = moved_to_front(entries, at);
        lemma_moved_to_front(entries, at);
        if holds_key(entries, other) {
            let from = index_of_key(entries, other);
            let to = place_after_move(at, from);
            assert(after[to] == entries[from]);
            assert(key_at(after, to) == other);
            lemma_index_of_key(after, other, to);
        }
        if holds_key(after, other) {
            let to = index_of_key(after, other);
            let from = if to == 0 {
                at
            } else if to <= at {
                to - 1
            } else {
                to
            };
            assert(after[to] == entries[from]);
            assert(key_at(entries, from) == other);
        }
    }
}

/// Using an entry keeps the entries well formed.
pub proof fn lemma_touched_well_formed(
    entries: Seq<((u8, u64), Seq<(u64, usize, Seq<char>)>)>,
    limit: nat,
    key: (u8, u64),
)
    requires
        well_formed_entries(entries, limit),
    ensures
        well_formed_entries(touched(entries, key), limit),
        touched(entries, key).len() == entries.len(),
{
    if holds_key(entries, key) {
        let at = index_of_key(entries, key);
        let after = moved_to_front(entries, at);
        lemma_moved_to_front(entries, at);
        assert forall|index: int| 0 <= index < after.len() implies well_formed_layout(
            (#[trigger] after[index]).1,
        ) by {
            let from = if index == 0 {
                at
            } else if index <= at {
                index - 1
            } else {
                index
            };
            assert(after[index] == entries[from]);
        }
    }
}

/// The entries that stay when a layout is stored under `key` come from the
/// entries, keep their order, and do not hold `key`.
pub proof fn lemma_kept(
    entries: Seq<((u8, u64), Seq<(u64, usize, Seq<char>)>)>,
    limit: nat,
    key: (u8, u64),
)
    requires
        well_formed_entries(entries, limit),
    ensures
        kept(entries, limit, key).len() < limit,
        distinct_keys(kept(entries, limit, key)),
        !holds_key(kept(entries, limit, key), key),
        forall|index: int|
            0 <= index < kept(entries, limit, key).len() ==> well_formed_layout(
                (#[trigger] kept(entries, limit, key)[index]).1,
            ),
{
    let rest = kept(entries, limit, key);
    let at = index_of_key(entries, key);
    assert forall|index: int| 0 <= index < rest.len() implies rest[index] == entries[if holds_key(
        entries,
        key,
    ) && index >= at {
        index + 1
    } else {
        index
    }] by {}
    assert forall|i: int, j: int| 0 <= i < j < rest.len() implies #[trigger] key_at(rest, i)
        != #[trigger] key_at(rest, j) by {
        let from_i = if holds_key(entries, key) && i >= at {
            i + 1
        } else {
            i
        };
        let from_j = if holds_key(entries, key) && j >= at {
            j + 1
        } else {
            j
        };
        assert(rest[i] == entries[from_i]);
        assert(rest[j] == entries[from_j]);
        assert(key_at(entries, from_i) != key_at(entries, from_j));
    }
    assert forall|index: int| 0 <= index < rest.len() implies #[trigger] key_at(rest, index)
        != key by {
        if holds_key(entries, key) {
            if index >= at {
                assert(rest[index] == entries[index + 1]);
                assert(key_at(entries, at) != key_at(entries, index + 1));
            } else {
                assert(rest[index] == entries[index]);
                assert(key_at(entries, index) != key_at(entries, at));
            }
        } else {
            assert(rest[index] == entries[index]);
            assert(key_at(entries, index) != key);
        }
    }
    assert forall|index: int| 0 <= index < rest.len() implies well_formed_layout(
        (#[trigger] rest[index]).1,
    ) by {
        let from = if holds_key(entries, key) && index >= at {
            index + 1
        } else {
            index
        };
        assert(rest[index] == entries[from]);
    }
}

/// Storing a layout without gaps keeps the entries well formed, and puts the
/// layout under its key.
pub proof fn lemma_stored_well_formed(
    entries: Seq<((u8, u64), Seq<(u64, usize, Seq<char>)>)>,
    limit: nat,
    key: (u8, u64),
    layout: Seq<(u64, usize, Seq<char>)>,
)
    requires
        well_formed_entries(entries, limit),
        well_formed_layout(layout),
    ensures
        well_formed_entries(stored(entries, limit, key, layout), limit),
        holds_key(stored(entries, limit, key, layout), key),
        index_of_key(stored(entries, limit, key, layout), key) == 0,
        stored(entries, limit, key, layout)[0] == (key, layout),
{
    let rest = kept(entries, limit, key);
    let after = stored(entries, limit, key, layout);
    lemma_kept(entries, limit, key);
    assert forall|i: int, j: int| 0 <= i < j < after.len() implies #[trigger] key_at(after, i)
        != #[trigger] key_at(after, j) by {
        assert(after[j] == rest[j - 1]);
        assert(key_at(rest, j - 1) != key);
        if i > 0 {
            assert(after[i] == rest[i - 1]);
            assert(key_at(rest, i - 1) != key_at(rest, j - 1));
        }
    }
    assert forall|index: int| 0 <= index < after.len() implies well_formed_layout(
        (#[trigger] after[index]).1,
    ) by {
        if index > 0 {
            assert(after[index] == rest[index - 1]);
        }
    }
    assert(key_at(after, 0) == key);
    lemma_index_of_key(after, key, 0);
}

/// A full cache that takes in a new key gives up exactly its least recently
/// used entry: that key is gone, and every other key stays with its layout.
pub proof fn lemma_full_cache_evicts_least_recent(
    entries: Seq<((u8, u64), Seq<(u64, usize, Seq<char>)>)>,
    limit: nat,
    key: (u8, u64),
    layout: Seq<(u64, usize, Seq<char>)>,
    other: (u8, u64),
)
    requires
        well_formed_entries(entries, limit),
        well_formed_layout(layout),
        entries.len() == limit,
        !holds_key(entries, key),
    ensures
        stored(entries, limit, key, layout).len() == limit,
        !holds_key(stored(entries, limit, key, layout), key_at(entries, limit - 1)),
        other != key_at(entries, limit - 1) && holds_key(entries, other) ==> {
            &&& holds_key(stored(entries, limit, key, layout), other)
            &&& stored(entries, limit, key, layout)[index_of_key(
                stored(entries, limit, key, layout),
                other,
            )].1 == entries[index_of_key(entries, other)].1
        },
{
    let after = stored(entries, limit, key, layout);
    let last = key_at(entries, limit - 1);
    lemma_stored_well_formed(entries, limit, key, layout);
    assert(key_at(entries, limit - 1) != key);
    if holds_key(after, last) {
        let found = index_of_key(after, last);
        assert(found > 0);
        assert(after[found] == entries[found - 1]);
        assert(key_at(entries, found - 1) != key_at(entries, limit - 1));
    }
    if other != last && holds_key(entries, other) {
        let from = index_of_key(entries, other);
        assert(from < limit - 1);
        assert(after[from + 1] == entries[from]);
        assert(key_at(after, from + 1) == other);
        lemma_index_of_key(after, other, from + 1);
    }
}

/// A cache with room left, or one that already holds the key, gives up no
/// key when a layout is stored.
pub proof fn lemma_store_keeps_other_keys(
    entries: Seq<((u8, u64), Seq<(u64, usize, Seq<char>)>)>,
    limit: nat,
    key: (u8, u64),
    layout: Seq<(u64, usize, Seq<char>)>,
    other: (u8, u64),
)
    requires
        well_formed_entries(entries, limit),
        well_formed_layout(layout),
        entries.len() < limit || holds_key(entries, key),
        holds_key(entries, other),
    ensures
        holds_key(stored(entries, limit, key, layout), other),
        other != key ==> stored(entries, limit, key, layout)[index_of_key(
            stored(entries, limit, key, layout),
            other,
        )].1 == entries[index_of_key(entries, other)].1,
{
    let after = stored(entries, limit, key, layout);
    lemma_stored_well_formed(entries, limit, key, layout);
    if other != key {
        let from = index_of_key(entries, other);
        let to = if holds_key(entries, key) && from > index_of_key(entries, key) {
            from
        } else {
            from + 1
        };
        assert(after[to] == entries[from]);
        assert(key_at(after, to) == other);
        lemma_index_of_key(after, other, to);
    }
}

} // verus!
