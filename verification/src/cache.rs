//! A bounded store of output bytes under 64-bit keys, with
//! least-recently-used eviction. The store itself is the `lru` crate's; what
//! is stated of it here is its order of use, which decides who leaves.

use lru::LruCache;
use vstd::prelude::*;

verus! {

/// What a cache holds: keys with their bytes, most recently used first.
pub type Entries = Seq<(u64, Seq<u8>)>;

/// The cache of the `lru` crate, carried as an opaque value.
#[verifier::external_type_specification]
#[verifier::external_body]
#[verifier::reject_recursive_types(K)]
#[verifier::reject_recursive_types(V)]
#[verifier::reject_recursive_types(S)]
pub struct ExLruCache<K, V, S>(LruCache<K, V, S>);

/// The hash builder that `LruCache` uses when none is named.
#[verifier::external_type_specification]
#[verifier::external_body]
pub struct ExLruHasher(lru::DefaultHasher);

/// The entries that an `LruCache` holds, most recently used first.
pub uninterp spec fn lru_entries(cache: LruCache<u64, Vec<u8>>) -> Entries;

/// The number of entries that an `LruCache` was made to hold at most.
pub uninterp spec fn lru_limit(cache: LruCache<u64, Vec<u8>>) -> nat;

/// The place of `key` among `entries`, or their number where it is absent.
pub open spec fn rank(entries: Entries, key: u64) -> int
    decreases entries.len(),
{
    if entries.len() == 0 {
        0
    } else if entries[0].0 == key {
        0
    } else {
        1 + rank(entries.skip(1), key)
    }
}

/// Whether `entries` holds `key`.
pub open spec fn holds(entries: Entries, key: u64) -> bool {
    rank(entries, key) < entries.len()
}

/// The bytes stored under `key`, if any.
pub open spec fn value_of(entries: Entries, key: u64) -> Option<Seq<u8>> {
    if holds(entries, key) {
        Some(entries[rank(entries, key)].1)
    } else {
        None
    }
}

/// The entries after a lookup of `key`: a key that is held moves to the
/// front, and nothing else changes.
pub open spec fn after_get(entries: Entries, key: u64) -> Entries {
    if holds(entries, key) {
        seq![entries[rank(entries, key)]] + entries.remove(rank(entries, key))
    } else {
        entries
    }
}

/// The entries after storing `value` under `key` in a cache of at most
/// `limit` entries: the pair stands at the front; an older pair under the
/// same key is replaced; else, where the cache is full, the entry at the back,
/// the least recently used, leaves.
pub open spec fn after_put(entries: Entries, limit: nat, key: u64, value: Seq<u8>) -> Entries {
    if holds(entries, key) {
        seq![(key, value)] + entries.remove(rank(entries, key))
    } else if entries.len() == limit {
        seq![(key, value)] + entries.drop_last()
    } else {
        seq![(key, value)] + entries
    }
}

/// No key stands twice.
pub open spec fn distinct(entries: Entries) -> bool {
    forall|i: int, j: int|
        0 <= i < j < entries.len() ==> (#[trigger] entries[i]).0 != (#[trigger] entries[j]).0
}

/// `LruCache::new`: an empty cache that holds at most `capacity` entries.
#[verifier::external_body]
fn lru_new(capacity: usize) -> (cache: LruCache<u64, Vec<u8>>)
    requires
        capacity > 0,
    ensures
        lru_entries(cache) == Seq::<(u64, Seq<u8>)>::empty(),
        lru_limit(cache) == capacity,
{
    LruCache::new(std::num::NonZeroUsize::new(capacity).unwrap())
}

/// `LruCache::get`, with the value copied out: the bytes under `key`, which
/// becomes the most recently used; nothing changes where the key is absent.
#[verifier::external_body]
fn lru_get(cache: &mut LruCache<u64, Vec<u8>>, key: u64) -> (value: Option<Vec<u8>>)
    ensures
        lru_limit(*final(cache)) == lru_limit(*old(cache)),
        lru_entries(*final(cache)) == after_get(lru_entries(*old(cache)), key),
        match value {
            Some(bytes) => value_of(lru_entries(*old(cache)), key) == Some(bytes@),
            None => value_of(lru_entries(*old(cache)), key) is None,
        },
{
    cache.get(&key).cloned()
}

/// `LruCache::put`: stores `value` under `key` as the most recently used
/// entry and hands back the bytes that the key had before, if any; a full
/// cache first drops its least recently used entry for a new key.
#[verifier::external_body]
fn lru_put(cache: &mut LruCache<u64, Vec<u8>>, key: u64, value: Vec<u8>) -> (before: Option<
    Vec<u8>,
>)
    ensures
        lru_limit(*final(cache)) == lru_limit(*old(cache)),
        lru_entries(*final(cache)) == after_put(
            lru_entries(*old(cache)),
            lru_limit(*old(cache)),
            key,
            value@,
        ),
        match before {
            Some(bytes) => value_of(lru_entries(*old(cache)), key) == Some(bytes@),
            None => value_of(lru_entries(*old(cache)), key) is None,
        },
{
    cache.put(key, value)
}

/// `LruCache::len`: the number of entries held.
#[verifier::external_body]
fn lru_len(cache: &LruCache<u64, Vec<u8>>) -> (n: usize)
    ensures
        n == lru_entries(*cache).len(),
{
    cache.len()
}

/// Where `key` stands, if it is held; no entry in front of that place has it.
pub proof fn lemma_rank(entries: Entries, key: u64)
    ensures
        0 <= rank(entries, key) <= entries.len(),
        holds(entries, key) ==> entries[rank(entries, key)].0 == key,
        forall|i: int| 0 <= i < rank(entries, key) ==> (#[trigger] entries[i]).0 != key,
    decreases entries.len(),
{
    if entries.len() > 0 && entries[0].0 != key {
        let tail = entries.skip(1);
        lemma_rank(tail, key);
        assert forall|i: int| 0 <= i < rank(entries, key) implies (#[trigger] entries[i]).0
            != key by {
            if i > 0 {
                assert(tail[i - 1] == entries[i]);
            }
        }
        if holds(entries, key) {
            assert(tail[rank(tail, key)] == entries[rank(entries, key)]);
        }
    }
}

/// A key is held exactly when some entry has it.
pub proof fn lemma_holds(entries: Entries, key: u64)
    ensures
        holds(entries, key) <==> exists|i: int|
            0 <= i < entries.len() && (#[trigger] entries[i]).0 == key,
{
    lemma_rank(entries, key);
    if holds(entries, key) {
        assert(entries[rank(entries, key)].0 == key);
    }
}

/// Among distinct keys, the entry that has `key` stands at its rank.
pub proof fn lemma_rank_at(entries: Entries, key: u64, i: int)
    requires
        0 <= i < entries.len(),
        entries[i].0 == key,
        distinct(entries),
    ensures
        rank(entries, key) == i,
{
    lemma_rank(entries, key);
    let r = rank(entries, key);
    assert(r <= i);
    if r < i {
        assert(entries[r].0 != entries[i].0);
    }
}

/// A cache of the given limit in good order: a positive limit, no more
/// entries than it allows, no key twice.
pub open spec fn in_order(entries: Entries, limit: nat) -> bool {
    &&& 0 < limit
    &&& entries.len() <= limit
    &&& distinct(entries)
}

/// A lookup keeps a cache in good order, and keeps every key and its bytes.
pub proof fn lemma_after_get(entries: Entries, limit: nat, key: u64)
    requires
        in_order(entries, limit),
    ensures
        in_order(after_get(entries, key), limit),
        after_get(entries, key).len() == entries.len(),
        forall|k: u64| value_of(after_get(entries, key), k) == value_of(entries, k),
        holds(entries, key) ==> after_get(entries, key)[0] == entries[rank(entries, key)],
{
    lemma_rank(entries, key);
    let after = after_get(entries, key);
    if holds(entries, key) {
        let r = rank(entries, key);
        assert forall|i: int, j: int| 0 <= i < j < after.len() implies (#[trigger] after[i]).0 != (
        #[trigger] after[j]).0 by {
            lemma_moved(entries, r, i);
            lemma_moved(entries, r, j);
        }
        assert forall|k: u64| value_of(after, k) == value_of(entries, k) by {
            lemma_rank(entries, k);
            lemma_rank(after, k);
            if holds(entries, k) {
                let a = rank(entries, k);
                let b = if a == r {
                    0
                } else if a < r {
                    a + 1
                } else {
                    a
                };
                lemma_moved(entries, r, b);
                lemma_rank_at(after, k, b);
            } else if holds(after, k) {
                let b = rank(after, k);
                lemma_moved(entries, r, b);
                lemma_holds(entries, k);
            }
        }
    } else {
        assert forall|k: u64| value_of(after, k) == value_of(entries, k) by {}
    }
}

/// Where the entry at `r` has moved to the front, what stands at `i`.
proof fn lemma_moved(entries: Entries, r: int, i: int)
    requires
        0 <= r < entries.len(),
        0 <= i < entries.len(),
    ensures
        (seq![entries[r]] + entries.remove(r))[i] == if i == 0 {
            entries[r]
        } else if i <= r {
            entries[i - 1]
        } else {
            entries[i]
        },
{
}

/// Storing keeps a cache in good order and puts the pair at the front.
pub proof fn lemma_after_put(entries: Entries, limit: nat, key: u64, value: Seq<u8>)
    requires
        in_order(entries, limit),
    ensures
        in_order(after_put(entries, limit, key, value), limit),
        after_put(entries, limit, key, value)[0] == (key, value),
        value_of(after_put(entries, limit, key, value), key) == Some(value),
{
    lemma_rank(entries, key);
    let after = after_put(entries, limit, key, value);
    assert(after[0] == (key, value));
    assert forall|i: int, j: int| 0 <= i < j < after.len() implies (#[trigger] after[i]).0 != (
    #[trigger] after[j]).0 by {
        if holds(entries, key) {
            let r = rank(entries, key);
            let a = if j - 1 < r {
                j - 1
            } else {
                j
            };
            assert(after[j] == entries[a]);
            if i == 0 {
                if a < r {
                    assert(entries[a].0 != key);
                } else {
                    assert(entries[r].0 != entries[a].0);
                }
            } else {
                let c = if i - 1 < r {
                    i - 1
                } else {
                    i
                };
                assert(after[i] == entries[c]);
            }
        } else {
            assert(after[j] == entries[j - 1]);
            if i == 0 {
                lemma_holds(entries, key);
            } else {
                assert(after[i] == entries[i - 1]);
            }
        }
    }
}

/// What storing does to every key: the key stored has the new bytes; where a
/// new key meets a full cache, the key at the back is gone; every other key
/// has what it had.
pub proof fn lemma_put_values(entries: Entries, limit: nat, key: u64, value: Seq<u8>, k: u64)
    requires
        in_order(entries, limit),
    ensures
        value_of(after_put(entries, limit, key, value), k) == if k == key {
            Some(value)
        } else if !holds(entries, key) && entries.len() == limit && k == entries.last().0 {
            None
        } else {
            value_of(entries, k)
        },
{
    let after = after_put(entries, limit, key, value);
    lemma_after_put(entries, limit, key, value);
    lemma_rank(entries, key);
    lemma_rank(entries, k);
    lemma_rank(after, k);
    lemma_holds(entries, k);
    lemma_holds(after, k);
    if k != key {
        if holds(entries, key) {
            let r = rank(entries, key);
            if holds(entries, k) {
                let a = rank(entries, k);
                let b = if a < r {
                    a + 1
                } else {
                    a
                };
                assert(after[b] == entries[a]);
                lemma_rank_at(after, k, b);
            } else if holds(after, k) {
                let b = rank(after, k);
                let a = if b - 1 < r {
                    b - 1
                } else {
                    b
                };
                assert(after[b] == entries[a]);
            }
        } else if entries.len() == limit {
            let last = entries.len() - 1;
            if holds(entries, k) && k != entries.last().0 {
                let a = rank(entries, k);
                assert(a != last);
                assert(after[a + 1] == entries[a]);
                lemma_rank_at(after, k, a + 1);
            } else if holds(after, k) {
                let b = rank(after, k);
                assert(after[b] == entries[b - 1]);
                assert(entries[b - 1].0 != entries[last].0);
            }
        } else {
            if holds(entries, k) {
                let a = rank(entries, k);
                assert(after[a + 1] == entries[a]);
                lemma_rank_at(after, k, a + 1);
            } else if holds(after, k) {
                let b = rank(after, k);
                assert(after[b] == entries[b - 1]);
            }
        }
    }
}

/// The last writer wins: where two outputs are stored under one key, one
/// after the other, the key has the second, the cache holds the key once, and
/// every other key has what it had after the first.
pub proof fn lemma_last_writer_wins(
    entries: Entries,
    limit: nat,
    key: u64,
    first: Seq<u8>,
    second: Seq<u8>,
)
    requires
        in_order(entries, limit),
    ensures
        ({
            let once = after_put(entries, limit, key, first);
            let twice = after_put(once, limit, key, second);
            &&& in_order(twice, limit)
            &&& twice.len() == once.len()
            &&& value_of(twice, key) == Some(second)
            &&& forall|k: u64| k != key ==> value_of(twice, k) == value_of(once, k)
        }),
{
    let once = after_put(entries, limit, key, first);
    let twice = after_put(once, limit, key, second);
    lemma_after_put(entries, limit, key, first);
    lemma_after_put(once, limit, key, second);
    lemma_rank(once, key);
    assert forall|k: u64| k != key implies value_of(twice, k) == value_of(once, k) by {
        lemma_put_values(once, limit, key, second, k);
    }
}

/// A key that was just looked up outlives the next insertion, whatever the
/// key inserted, in a cache of two entries or more: use spares from eviction.
pub proof fn lemma_recent_survives(
    entries: Entries,
    limit: nat,
    key: u64,
    other: u64,
    value: Seq<u8>,
)
    requires
        in_order(entries, limit),
        limit >= 2,
        holds(entries, key),
        other != key,
    ensures
        value_of(after_put(after_get(entries, key), limit, other, value), key) == value_of(
            entries,
            key,
        ),
{
    let touched = after_get(entries, key);
    lemma_after_get(entries, limit, key);
    lemma_rank(entries, key);
    lemma_put_values(touched, limit, other, value, key);
    assert(touched[0].0 == key);
    if touched.len() == limit {
        assert(touched[0].0 != touched[touched.len() - 1].0);
    }
}

/// The entries after storing the first `n` of `keys` with their `values`, in
/// that order, in an empty cache of at most `limit` entries.
pub open spec fn stored(keys: Seq<u64>, values: Seq<Seq<u8>>, limit: nat, n: nat) -> Entries
    decreases n,
{
    if n == 0 {
        Seq::empty()
    } else {
        after_put(
            stored(keys, values, limit, (n - 1) as nat),
            limit,
            keys[n - 1],
            values[n - 1],
        )
    }
}

/// As long as they fit, distinct keys stand in the cache in reverse order of
/// their insertion.
pub proof fn lemma_stored(keys: Seq<u64>, values: Seq<Seq<u8>>, limit: nat, n: nat)
    requires
        0 < limit,
        n <= limit,
        n <= keys.len(),
        keys.no_duplicates(),
    ensures
        in_order(stored(keys, values, limit, n), limit),
        stored(keys, values, limit, n).len() == n,
        forall|j: int|
            0 <= j < n ==> #[trigger] stored(keys, values, limit, n)[n - 1 - j] == (
                keys[j],
                values[j],
            ),
    decreases n,
{
    if n > 0 {
        let before = stored(keys, values, limit, (n - 1) as nat);
        lemma_stored(keys, values, limit, (n - 1) as nat);
        lemma_after_put(before, limit, keys[n - 1], values[n - 1]);
        lemma_holds(before, keys[n - 1]);
        if holds(before, keys[n - 1]) {
            let i = choose|i: int| 0 <= i < before.len() && (#[trigger] before[i]).0 == keys[n - 1];
            assert(before[(n - 1) - 1 - (n - 2 - i)] == (keys[n - 2 - i], values[n - 2 - i]));
        }
        let after = stored(keys, values, limit, n);
        assert forall|j: int| 0 <= j < n implies #[trigger] after[n - 1 - j] == (
            keys[j],
            values[j],
        ) by {
            if j < n - 1 {
                assert(after[n - 1 - j] == before[(n - 1) - 1 - j]);
            }
        }
    }
}

/// Eviction by age: after `limit + 1` distinct keys went into an empty cache
/// of `limit` entries, the first is gone and each of the others has its bytes.
pub proof fn lemma_overflow_evicts_first(keys: Seq<u64>, values: Seq<Seq<u8>>, limit: nat)
    requires
        0 < limit,
        keys.len() == limit + 1,
        values.len() == keys.len(),
        keys.no_duplicates(),
    ensures
        !holds(stored(keys, values, limit, limit + 1), keys[0]),
        forall|j: int|
            1 <= j <= limit ==> value_of(stored(keys, values, limit, limit + 1), #[trigger] keys[j])
                == Some(values[j]),
{
    let full = stored(keys, values, limit, limit);
    lemma_stored(keys, values, limit, limit);
    lemma_fresh(keys, values, limit, limit, keys[limit as int]);
    assert(full[limit - 1 - 0] == (keys[0], values[0]));
    lemma_put_values(full, limit, keys[limit as int], values[limit as int], keys[0]);
    assert forall|j: int| 1 <= j <= limit implies value_of(
        stored(keys, values, limit, limit + 1),
        #[trigger] keys[j],
    ) == Some(values[j]) by {
        lemma_put_values(full, limit, keys[limit as int], values[limit as int], keys[j]);
        if j < limit {
            assert(full[limit - 1 - j] == (keys[j], values[j]));
            lemma_rank_at(full, keys[j], limit - 1 - j);
        }
    }
}

/// A key that is none of the first `n` is not held after they were stored.
proof fn lemma_fresh(keys: Seq<u64>, values: Seq<Seq<u8>>, limit: nat, n: nat, key: u64)
    requires
        0 < limit,
        n <= limit,
        n <= keys.len(),
        keys.no_duplicates(),
        forall|j: int| 0 <= j < n ==> keys[j] != key,
    ensures
        !holds(stored(keys, values, limit, n), key),
{
    let now = stored(keys, values, limit, n);
    lemma_stored(keys, values, limit, n);
    lemma_holds(now, key);
    if holds(now, key) {
        let i = choose|i: int| 0 <= i < now.len() && (#[trigger] now[i]).0 == key;
        assert(now[n - 1 - (n - 1 - i)] == (keys[n - 1 - i], values[n - 1 - i]));
    }
}

/// Use spares from eviction: where the second of `limit + 1` distinct keys is
/// looked up before the last goes in, it is still held afterwards, with its
/// bytes, and the first is gone.
pub proof fn lemma_reaccess_spares(keys: Seq<u64>, values: Seq<Seq<u8>>, limit: nat)
    requires
        2 <= limit,
        keys.len() == limit + 1,
        values.len() == keys.len(),
        keys.no_duplicates(),
    ensures
        ({
            let full = stored(keys, values, limit, limit);
            let touched = after_get(full, keys[1]);
            let last = after_put(touched, limit, keys[limit as int], values[limit as int]);
            &&& value_of(last, keys[1]) == Some(values[1])
            &&& !holds(last, keys[0])
        }),
{
    let full = stored(keys, values, limit, limit);
    let touched = after_get(full, keys[1]);
    lemma_stored(keys, values, limit, limit);
    assert(full[limit - 1 - 1] == (keys[1], values[1]));
    assert(full[limit - 1 - 0] == (keys[0], values[0]));
    lemma_rank_at(full, keys[1], limit - 2);
    lemma_rank_at(full, keys[0], limit - 1);
    lemma_recent_survives(full, limit, keys[1], keys[limit as int], values[limit as int]);
    lemma_after_get(full, limit, keys[1]);
    lemma_fresh(keys, values, limit, limit, keys[limit as int]);
    assert(value_of(touched, keys[limit as int]) == value_of(full, keys[limit as int]));
    assert(touched[limit - 1] == full[limit - 1]);
    lemma_put_values(touched, limit, keys[limit as int], values[limit as int], keys[0]);
}

/// A bounded least-recently-used store of bytes under 64-bit keys.
pub struct Cache {
    inner: LruCache<u64, Vec<u8>>,
    capacity: usize,
}

impl View for Cache {
    type V = Entries;

    /// The entries, most recently used first.
    closed spec fn view(&self) -> Entries {
        lru_entries(self.inner)
    }
}

impl Cache {
    /// The number of entries that the cache holds at most.
    pub closed spec fn limit(&self) -> nat {
        lru_limit(self.inner)
    }

    /// The cache is in good order.
    pub closed spec fn wf(&self) -> bool {
        &&& in_order(self@, self.limit())
        &&& self.capacity == self.limit()
    }

    /// What `wf` says of the entries.
    pub proof fn lemma_wf(&self)
        requires
            self.wf(),
        ensures
            in_order(self@, self.limit()),
    {
    }

    /// An empty cache of at most `capacity` entries; none for a capacity of
    /// zero, which could hold nothing.
    pub fn new(capacity: usize) -> (cache: Option<Cache>)
        ensures
            capacity == 0 <==> cache is None,
            cache matches Some(c) ==> c.wf() && c@.len() == 0 && c.limit() == capacity,
    {
        if capacity == 0 {
            None
        } else {
            Some(Cache { inner: lru_new(capacity), capacity })
        }
    }

    /// The bytes under `key`, which becomes the most recently used entry; a
    /// miss changes nothing.
    pub fn get(&mut self, key: u64) -> (value: Option<Vec<u8>>)
        requires
            old(self).wf(),
        ensures
            final(self).wf(),
            final(self).limit() == old(self).limit(),
            final(self)@ == after_get(old(self)@, key),
            match value {
                Some(bytes) => value_of(old(self)@, key) == Some(bytes@),
                None => value_of(old(self)@, key) is None,
            },
    {
        proof {
            lemma_after_get(self@, self.limit(), key);
        }
        lru_get(&mut self.inner, key)
    }

    /// Stores `value` under `key` as the most recently used entry. A key that
    /// is held gets the new bytes; for a new key a full cache first drops its
    /// least recently used entry, and that one alone.
    pub fn put(&mut self, key: u64, value: Vec<u8>)
        requires
            old(self).wf(),
        ensures
            final(self).wf(),
            final(self).limit() == old(self).limit(),
            final(self)@ == after_put(old(self)@, old(self).limit(), key, value@),
    {
        proof {
            lemma_after_put(self@, self.limit(), key, value@);
        }
        let _ = lru_put(&mut self.inner, key, value);
    }

    /// The number of entries held.
    pub fn len(&self) -> (n: usize)
        ensures
            n == self@.len(),
    {
        lru_len(&self.inner)
    }

    /// The number of entries that the cache holds at most.
    pub fn capacity(&self) -> (n: usize)
        requires
            self.wf(),
        ensures
            n == self.limit(),
            n > 0,
    {
        self.capacity
    }
}

} // verus!
