//! The bounded listing cache: keyed by language and illustration id,
//! least-recently-used eviction, no expiry. Only fully built listings enter it.

use std::sync::Arc;
use cached::Cached;
use cached::SizedCache;
use vstd::prelude::*;
use crate::listing::{build_error, build_listing, is_listing_of, ArtworkListing, BuildError, BuildOptions};
use crate::text::{chars_of, push_str, string_of};
use crate::upstream::AjaxBody;

verus! {

#[verifier::external_type_specification]
#[verifier::external_body]
#[verifier::reject_recursive_types(K)]
#[verifier::reject_recursive_types(V)]
pub struct ExSizedCache<K, V>(SizedCache<K, V>);

/// An entry of the cache: its key and its listing.
pub type Entry = (Seq<char>, Arc<ArtworkListing>);

/// The entries of a `SizedCache`, from the most to the least recently used.
pub uninterp spec fn lru_entries(c: SizedCache<String, Arc<ArtworkListing>>) -> Seq<Entry>;

/// The size limit that a `SizedCache` was made with.
pub uninterp spec fn lru_capacity(c: SizedCache<String, Arc<ArtworkListing>>) -> nat;

/// Position of `key` among the entries, or -1.
pub open spec fn key_index(entries: Seq<Entry>, key: Seq<char>) -> int
    decreases entries.len(),
{
    if entries.len() == 0 {
        -1
    } else if entries[0].0 == key {
        0
    } else {
        let i = key_index(entries.skip(1), key);
        if i < 0 {
            -1
        } else {
            i + 1
        }
    }
}

/// The listing stored under `key`, if any.
pub open spec fn lookup(entries: Seq<Entry>, key: Seq<char>) -> Option<Arc<ArtworkListing>> {
    let i = key_index(entries, key);
    if 0 <= i < entries.len() {
        Some(entries[i].1)
    } else {
        None
    }
}

/// The entries after a lookup of `key`: a hit becomes the most recently used.
pub open spec fn after_get(entries: Seq<Entry>, key: Seq<char>) -> Seq<Entry> {
    let i = key_index(entries, key);
    if 0 <= i < entries.len() {
        seq![entries[i]] + entries.remove(i)
    } else {
        entries
    }
}

/// The entries after storing `value` under `key`: a present key keeps its
/// place and takes the new value; a new key goes first, and the least recently
/// used entry leaves when that exceeds the capacity.
pub open spec fn after_set(
    entries: Seq<Entry>,
    capacity: nat,
    key: Seq<char>,
    value: Arc<ArtworkListing>,
) -> Seq<Entry> {
    let i = key_index(entries, key);
    if 0 <= i < entries.len() {
        entries.update(i, (key, value))
    } else {
        let e = seq![(key, value)] + entries;
        if e.len() > capacity {
            e.drop_last()
        } else {
            e
        }
    }
}

/// Relies on `SizedCache::with_size`: an empty cache with that size limit
/// (it panics on zero).
#[verifier::external_body]
fn lru_new(size: usize) -> (r: SizedCache<String, Arc<ArtworkListing>>)
    requires
        size > 0,
    ensures
        lru_entries(r) == Seq::<Entry>::empty(),
        lru_capacity(r) == size,
{
    SizedCache::with_size(size)
}

/// Relies on `Cached::cache_get` of `SizedCache`: returns the value under the
/// key and moves that entry to the front of the use order.
#[verifier::external_body]
fn lru_get(c: &mut SizedCache<String, Arc<ArtworkListing>>, key: &String) -> (r: Option<
    Arc<ArtworkListing>,
>)
    ensures
        r == lookup(lru_entries(*old(c)), key@),
        lru_entries(*final(c)) == after_get(lru_entries(*old(c)), key@),
        lru_capacity(*final(c)) == lru_capacity(*old(c)),
{
    c.cache_get(key).cloned()
}

/// Relies on `Cached::cache_set` of `SizedCache`: replaces the value of a
/// present key in place, or puts a new key first and evicts the back entry
/// when the size limit is exceeded.
#[verifier::external_body]
fn lru_set(c: &mut SizedCache<String, Arc<ArtworkListing>>, key: String, value: Arc<ArtworkListing>)
    ensures
        lru_entries(*final(c)) == after_set(
            lru_entries(*old(c)),
            lru_capacity(*old(c)),
            key@,
            value,
        ),
        lru_capacity(*final(c)) == lru_capacity(*old(c)),
{
    c.cache_set(key, value);
}

/// No key appears twice among the entries.
pub open spec fn unique_keys(entries: Seq<Entry>) -> bool {
    forall|i: int, j: int| 0 <= i < j < entries.len() ==> entries[i].0 != entries[j].0
}

proof fn lemma_after_get_keeps(entries: Seq<Entry>, key: Seq<char>)
    requires
        unique_keys(entries),
    ensures
        unique_keys(after_get(entries, key)),
        after_get(entries, key).len() == entries.len(),
{
    lemma_key_index(entries, key);
    let i = key_index(entries, key);
    if 0 <= i < entries.len() {
        let r = entries.remove(i);
        let m = seq![entries[i]] + r;
        assert forall|a: int, b: int| 0 <= a < b < m.len() implies m[a].0 != m[b].0 by {
            let ia = if a == 0 { i } else if a - 1 < i { a - 1 } else { a };
            let ib = if b - 1 < i { b - 1 } else { b };
            assert(m[a] == entries[ia]);
            assert(m[b] == entries[ib]);
            assert(ia != ib);
        }
    }
}

proof fn lemma_after_set_keeps(
    entries: Seq<Entry>,
    capacity: nat,
    key: Seq<char>,
    value: Arc<ArtworkListing>,
)
    requires
        unique_keys(entries),
        capacity >= 1,
        entries.len() <= capacity,
    ensures
        unique_keys(after_set(entries, capacity, key, value)),
        after_set(entries, capacity, key, value).len() <= capacity,
{
    lemma_key_index(entries, key);
    let i = key_index(entries, key);
    if 0 <= i < entries.len() {
        let u = entries.update(i, (key, value));
        assert forall|a: int, b: int| 0 <= a < b < u.len() implies u[a].0 != u[b].0 by {
            assert(u[a].0 == entries[a].0);
            assert(u[b].0 == entries[b].0);
        }
    } else {
        let e = seq![(key, value)] + entries;
        assert forall|a: int, b: int| 0 <= a < b < e.len() implies e[a].0 != e[b].0 by {
            assert(e[b] == entries[b - 1]);
            if a > 0 {
                assert(e[a] == entries[a - 1]);
            }
        }
    }
}

/// The cache key of a listing: `{language}_{illustration id}`.
pub open spec fn listing_key(language: Seq<char>, illust_id: Seq<char>) -> Seq<char> {
    language + "_"@ + illust_id
}

/// Listings by language and illustration id.
pub struct ListingCache {
    store: SizedCache<String, Arc<ArtworkListing>>,
}

/// Capacity of the default cache.
pub const DEFAULT_CAPACITY: usize = 1024;

impl ListingCache {
    /// The entries, from the most to the least recently used.
    pub closed spec fn entries(&self) -> Seq<Entry> {
        lru_entries(self.store)
    }

    /// The number of entries the cache keeps.
    pub closed spec fn capacity(&self) -> nat {
        lru_capacity(self.store)
    }

    /// A positive capacity, no more entries than it, each key once.
    pub open spec fn wf(&self) -> bool {
        &&& self.capacity() >= 1
        &&& self.entries().len() <= self.capacity()
        &&& unique_keys(self.entries())
    }

    /// An empty cache of `capacity` entries.
    pub fn with_capacity(capacity: usize) -> (r: ListingCache)
        requires
            capacity > 0,
        ensures
            r.entries() == Seq::<Entry>::empty(),
            r.capacity() == capacity,
            r.wf(),
    {
        ListingCache { store: lru_new(capacity) }
    }

    /// An empty cache of the default capacity.
    pub fn new() -> (r: ListingCache)
        ensures
            r.entries() == Seq::<Entry>::empty(),
            r.capacity() == DEFAULT_CAPACITY,
            r.wf(),
    {
        ListingCache::with_capacity(DEFAULT_CAPACITY)
    }

    /// The cache key of a listing.
    pub fn key(language: &str, illust_id: &str) -> (r: String)
        ensures
            r@ == listing_key(language@, illust_id@),
    {
        let mut v = chars_of(language);
        push_str(&mut v, "_");
        push_str(&mut v, illust_id);
        string_of(&v)
    }

    /// The cached listing of `illust_id` in `language`, if any; a hit becomes
    /// the most recently used entry.
    pub fn lookup(&mut self, language: &str, illust_id: &str) -> (r: Option<Arc<ArtworkListing>>)
        ensures
            r == lookup(old(self).entries(), listing_key(language@, illust_id@)),
            final(self).entries() == after_get(
                old(self).entries(),
                listing_key(language@, illust_id@),
            ),
            final(self).capacity() == old(self).capacity(),
            old(self).wf() ==> final(self).wf(),
    {
        let key = ListingCache::key(language, illust_id);
        let r = lru_get(&mut self.store, &key);
        proof {
            if old(self).wf() {
                lemma_after_get_keeps(old(self).entries(), key@);
            }
        }
        r
    }

    /// Stores a listing under its language and illustration id.
    pub fn insert(&mut self, language: &str, illust_id: &str, listing: ArtworkListing) -> (r: Arc<
        ArtworkListing,
    >)
        ensures
            r == listing,
            final(self).entries() == after_set(
                old(self).entries(),
                old(self).capacity(),
                listing_key(language@, illust_id@),
                r,
            ),
            final(self).capacity() == old(self).capacity(),
            old(self).wf() ==> final(self).wf(),
    {
        let key = ListingCache::key(language, illust_id);
        let ghost k = key@;
        let shared = Arc::new(listing);
        lru_set(&mut self.store, key, shared.clone());
        proof {
            if old(self).wf() {
                lemma_after_set_keeps(old(self).entries(), old(self).capacity(), k, shared);
            }
        }
        shared
    }

    /// Builds the listing from a fetched response and caches it; a failed
    /// build leaves the cache as it was.
    pub fn build_and_insert(
        &mut self,
        illust_id: &str,
        language: &str,
        host: &str,
        options: &BuildOptions,
        body: AjaxBody,
    ) -> (r: Result<Arc<ArtworkListing>, BuildError>)
        ensures
            final(self).capacity() == old(self).capacity(),
            old(self).wf() ==> final(self).wf(),
            match r {
                Ok(l) => build_error(illust_id@, body) is None && is_listing_of(
                    *l,
                    illust_id@,
                    language@,
                    host@,
                    *options,
                    body,
                ) && l.wf() && final(self).entries() == after_set(
                    old(self).entries(),
                    old(self).capacity(),
                    listing_key(language@, illust_id@),
                    l,
                ),
                Err(e) => build_error(illust_id@, body) == Some(e) && final(self).entries()
                    == old(self).entries(),
            },
    {
        match build_listing(illust_id, language, host, options, body) {
            Ok(listing) => Ok(self.insert(language, illust_id, listing)),
            Err(e) => Err(e),
        }
    }
}

/// The entries after storing each `values[j]` under `keys[j]` in turn,
/// starting from an empty cache.
pub open spec fn filled(
    capacity: nat,
    keys: Seq<Seq<char>>,
    values: Seq<Arc<ArtworkListing>>,
) -> Seq<Entry>
    decreases keys.len(),
{
    if keys.len() == 0 || values.len() != keys.len() {
        Seq::empty()
    } else {
        after_set(
            filled(capacity, keys.drop_last(), values.drop_last()),
            capacity,
            keys.last(),
            values.last(),
        )
    }
}

pub open spec fn distinct_keys(keys: Seq<Seq<char>>) -> bool {
    forall|i: int, j: int| 0 <= i < j < keys.len() ==> keys[i] != keys[j]
}

proof fn lemma_key_index(entries: Seq<Entry>, key: Seq<char>)
    ensures
        -1 <= key_index(entries, key) < entries.len(),
        key_index(entries, key) >= 0 ==> entries[key_index(entries, key)].0 == key,
        forall|j: int|
            0 <= j < entries.len() && (key_index(entries, key) < 0 || j < key_index(
                entries,
                key,
            )) ==> (#[trigger] entries[j]).0 != key,
    decreases entries.len(),
{
    if entries.len() > 0 && entries[0].0 != key {
        lemma_key_index(entries.skip(1), key);
        assert forall|j: int|
            0 < j < entries.len() implies (#[trigger] entries[j]).0 == entries.skip(1)[j - 1].0 by {}
    }
}

proof fn lemma_key_index_at(entries: Seq<Entry>, key: Seq<char>, i: int)
    requires
        0 <= i < entries.len(),
        entries[i].0 == key,
        forall|j: int| 0 <= j < i ==> (#[trigger] entries[j]).0 != key,
    ensures
        key_index(entries, key) == i,
    decreases entries.len(),
{
    if i > 0 {
        assert(entries[0].0 != key);
        assert forall|j: int| 0 <= j < i - 1 implies (#[trigger] entries.skip(1)[j]).0 != key by {
            assert(entries.skip(1)[j] == entries[j + 1]);
        }
        lemma_key_index_at(entries.skip(1), key, i - 1);
    }
}

/// A second lookup of a key gives what the first one gave.
pub proof fn lemma_lookup_repeatable(entries: Seq<Entry>, key: Seq<char>)
    ensures
        lookup(after_get(entries, key), key) == lookup(entries, key),
{
    lemma_key_index(entries, key);
    let i = key_index(entries, key);
    if 0 <= i < entries.len() {
        let moved = seq![entries[i]] + entries.remove(i);
        lemma_key_index_at(moved, key, 0);
    }
}

/// A lookup right after storing a listing gives that listing.
pub proof fn lemma_lookup_after_insert(
    entries: Seq<Entry>,
    capacity: nat,
    key: Seq<char>,
    value: Arc<ArtworkListing>,
)
    requires
        capacity >= 1,
    ensures
        lookup(after_set(entries, capacity, key, value), key) == Some(value),
{
    lemma_key_index(entries, key);
    let i = key_index(entries, key);
    if 0 <= i < entries.len() {
        let updated = entries.update(i, (key, value));
        assert forall|j: int| 0 <= j < i implies (#[trigger] updated[j]).0 != key by {
            assert(updated[j] == entries[j]);
        }
        lemma_key_index_at(updated, key, i);
    } else {
        let e = seq![(key, value)] + entries;
        if e.len() > capacity {
            lemma_key_index_at(e.drop_last(), key, 0);
        } else {
            lemma_key_index_at(e, key, 0);
        }
    }
}

/// Storing distinct keys one after another into an empty cache keeps the
/// last `capacity` of them, the latest first.
pub proof fn lemma_filled(capacity: nat, keys: Seq<Seq<char>>, values: Seq<Arc<ArtworkListing>>)
    requires
        capacity >= 1,
        values.len() == keys.len(),
        distinct_keys(keys),
    ensures
        filled(capacity, keys, values).len() == if keys.len() < capacity {
            keys.len()
        } else {
            capacity
        },
        forall|t: int|
            0 <= t < filled(capacity, keys, values).len() ==> #[trigger] filled(
                capacity,
                keys,
                values,
            )[t] == (keys[keys.len() - 1 - t], values[keys.len() - 1 - t]),
    decreases keys.len(),
{
    if keys.len() > 0 {
        let ks = keys.drop_last();
        let vs = values.drop_last();
        assert(distinct_keys(ks)) by {
            assert forall|i: int, j: int| 0 <= i < j < ks.len() implies ks[i] != ks[j] by {
                assert(ks[i] == keys[i] && ks[j] == keys[j]);
            }
        }
        lemma_filled(capacity, ks, vs);
        let f = filled(capacity, ks, vs);
        let n = keys.len();
        lemma_key_index(f, keys.last());
        assert(key_index(f, keys.last()) < 0) by {
            if key_index(f, keys.last()) >= 0 {
                let t = key_index(f, keys.last());
                assert(f[t] == (ks[ks.len() - 1 - t], vs[ks.len() - 1 - t]));
                assert(keys[n - 2 - t] != keys[n - 1]);
            }
        }
        let e = seq![(keys.last(), values.last())] + f;
        assert forall|t: int| 0 <= t < e.len() implies #[trigger] e[t] == (
            keys[n - 1 - t],
            values[n - 1 - t],
        ) by {
            if t > 0 {
                assert(e[t] == f[t - 1]);
            }
        }
    }
}

/// After storing one more distinct key than the capacity into an empty
/// cache, the first key stored is gone and every later one is present.
pub proof fn lemma_evicts_least_recent(
    capacity: nat,
    keys: Seq<Seq<char>>,
    values: Seq<Arc<ArtworkListing>>,
)
    requires
        capacity >= 1,
        keys.len() == capacity + 1,
        values.len() == keys.len(),
        distinct_keys(keys),
    ensures
        lookup(filled(capacity, keys, values), keys[0]) is None,
        forall|j: int|
            1 <= j < keys.len() ==> lookup(filled(capacity, keys, values), #[trigger] keys[j])
                == Some(values[j]),
{
    lemma_filled(capacity, keys, values);
    let f = filled(capacity, keys, values);
    lemma_key_index(f, keys[0]);
    if key_index(f, keys[0]) >= 0 {
        let t = key_index(f, keys[0]);
        assert(f[t] == (keys[capacity - t], values[capacity - t]));
        assert(keys[0] != keys[capacity - t]);
    }
    assert forall|j: int| 1 <= j < keys.len() implies lookup(f, #[trigger] keys[j]) == Some(
        values[j],
    ) by {
        let t = capacity - j;
        assert(f[t] == (keys[j], values[j]));
        assert forall|u: int| 0 <= u < t implies (#[trigger] f[u]).0 != keys[j] by {
            assert(f[u] == (keys[capacity - u], values[capacity - u]));
            assert(keys[capacity - u] != keys[j]);
        }
        lemma_key_index_at(f, keys[j], t);
    }
}

} // verus!
