//! Caches whose entries expire: one keyed by series id (the series-detail
//! cache) and one keyed by text (the stream metadata cache, keyed by URL).
//! Times are nanoseconds on a monotonic clock.

use std::collections::HashMap;
use vstd::prelude::*;

verus! {

pub struct CacheEntry<V> {
    pub key: String,
    pub expires_at: u64,
    pub value: V,
}

pub struct TtlCache<V> {
    pub ttl: u64,
    pub entries: Vec<CacheEntry<V>>,
}

/// Index of the first entry for `key`.
pub open spec fn key_index<V>(entries: Seq<CacheEntry<V>>, key: Seq<char>, i: nat) -> Option<nat>
    decreases entries.len() + 1 - i,
{
    if i >= entries.len() {
        None
    } else if entries[i as int].key@ == key {
        Some(i)
    } else {
        key_index(entries, key, i + 1)
    }
}

/// The entry for `key` when it expires after `now`.
pub open spec fn fresh_entry<V>(entries: Seq<CacheEntry<V>>, key: Seq<char>, now: u64) -> Option<
    CacheEntry<V>,
> {
    match key_index(entries, key, 0) {
        Some(i) => if entries[i as int].expires_at > now {
            Some(entries[i as int])
        } else {
            None
        },
        None => None,
    }
}

/// The entries that expire after `now`, in order.
pub open spec fn live<V>(entries: Seq<CacheEntry<V>>, now: u64) -> Seq<CacheEntry<V>>
    decreases entries.len(),
{
    if entries.len() == 0 {
        entries
    } else if entries.last().expires_at > now {
        live(entries.drop_last(), now).push(entries.last())
    } else {
        live(entries.drop_last(), now)
    }
}

/// `entries` with the entry for `e.key` replaced by `e`, or `e` appended.
pub open spec fn put<V>(entries: Seq<CacheEntry<V>>, e: CacheEntry<V>) -> Seq<CacheEntry<V>> {
    match key_index(entries, e.key@, 0) {
        Some(i) => entries.update(i as int, e),
        None => entries.push(e),
    }
}

pub proof fn lemma_key_index<V>(entries: Seq<CacheEntry<V>>, key: Seq<char>, i: nat)
    ensures
        match key_index(entries, key, i) {
            Some(k) => i <= k < entries.len() && entries[k as int].key@ == key && forall|j: int|
                i <= j < k ==> entries[j].key@ != key,
            None => forall|j: int| i <= j < entries.len() ==> entries[j].key@ != key,
        },
    decreases entries.len() + 1 - i,
{
    if i < entries.len() && entries[i as int].key@ != key {
        lemma_key_index(entries, key, i + 1);
    }
}

impl<V> TtlCache<V> {
    /// An empty cache whose entries live `ttl` nanoseconds.
    pub fn new(ttl: u64) -> (c: Self)
        ensures
            c.ttl == ttl,
            c.entries@.len() == 0,
    {
        TtlCache { ttl, entries: Vec::new() }
    }

    fn find(&self, key: &str) -> (r: Option<usize>)
        ensures
            match r {
                Some(i) => key_index(self.entries@, key@, 0) == Some(i as nat) && i
                    < self.entries@.len(),
                None => key_index(self.entries@, key@, 0) is None,
            },
    {
        let k = String::from_str(key);
        let mut i: usize = 0;
        while i < self.entries.len()
            invariant
                i <= self.entries@.len(),
                k@ == key@,
                key_index(self.entries@, key@, 0) == key_index(self.entries@, key@, i as nat),
            decreases self.entries@.len() - i,
        {
            if self.entries[i].key == k {
                return Some(i);
            }
            i = i + 1;
        }
        None
    }

    /// The value stored for `key` when it expires after `now`.
    pub fn get_fresh(&self, key: &str, now: u64) -> (r: Option<&V>)
        ensures
            match r {
                Some(v) => fresh_entry(self.entries@, key@, now) matches Some(e) && e.value == *v,
                None => fresh_entry(self.entries@, key@, now) is None,
            },
    {
        match self.find(key) {
            Some(i) => {
                if self.entries[i].expires_at > now {
                    Some(&self.entries[i].value)
                } else {
                    None
                }
            },
            None => None,
        }
    }

    /// Drops the entries that expire at or before `now` (`retain`).
    pub fn purge_expired(&mut self, now: u64)
        ensures
            final(self).ttl == old(self).ttl,
            final(self).entries@ == live(old(self).entries@, now),
    {
        let mut rem: Vec<CacheEntry<V>> = Vec::new();
        std::mem::swap(&mut rem, &mut self.entries);
        let ghost src = rem@;
        let total = rem.len();
        let mut rest: Vec<CacheEntry<V>> = Vec::new();
        while rem.len() > 0
            invariant
                rem@.len() + rest@.len() == src.len(),
                rem@ == src.take(rem@.len() as int),
                forall|k: int| 0 <= k < rest@.len() ==> rest@[k] == src[src.len() - 1 - k],
            decreases rem@.len(),
        {
            let e = rem.pop().unwrap();
            assert(e == src[rem@.len() as int]);
            assert(rem@ =~= src.take(rem@.len() as int));
            rest.push(e);
        }
        let mut kept: Vec<CacheEntry<V>> = Vec::new();
        assert(src.take(0) =~= Seq::<CacheEntry<V>>::empty());
        let mut i: usize = 0;
        while rest.len() > 0
            invariant
                i <= src.len(),
                total == src.len(),
                rest@.len() == src.len() - i,
                forall|k: int| 0 <= k < rest@.len() ==> rest@[k] == src[src.len() - 1 - k],
                kept@ == live(src.take(i as int), now),
            decreases rest@.len(),
        {
            let e = rest.pop().unwrap();
            assert(e == src[i as int]);
            assert(src.take(i + 1).drop_last() =~= src.take(i as int));
            if e.expires_at > now {
                kept.push(e);
            }
            i = i + 1;
        }
        assert(src.take(src.len() as int) =~= src);
        self.entries = kept;
        assert(self.ttl == old(self).ttl);
    }

    /// Drops the expired entries, then looks `key` up.
    pub fn lookup(&mut self, key: &str, now: u64) -> (r: Option<&V>)
        ensures
            final(self).ttl == old(self).ttl,
            final(self).entries@ == live(old(self).entries@, now),
            match r {
                Some(v) => fresh_entry(final(self).entries@, key@, now) matches Some(e) && e.value
                    == *v,
                None => fresh_entry(final(self).entries@, key@, now) is None,
            },
    {
        self.purge_expired(now);
        self.get_fresh(key, now)
    }

    /// Stores `value` for `key`, expiring `ttl` after `now`, replacing the
    /// key's entry if there is one.
    pub fn insert(&mut self, key: String, value: V, now: u64)
        requires
            now + old(self).ttl <= u64::MAX,
        ensures
            final(self).ttl == old(self).ttl,
            final(self).entries@ == put(
                old(self).entries@,
                CacheEntry { key, expires_at: (now + old(self).ttl) as u64, value },
            ),
    {
        let expires_at = now + self.ttl;
        let ghost e = CacheEntry { key, expires_at, value };
        match self.find(key.as_str()) {
            Some(i) => {
                self.entries.set(i, CacheEntry { key, expires_at, value });
            },
            None => {
                self.entries.push(CacheEntry { key, expires_at, value });
            },
        }
    }

    /// `insert` after dropping expired entries and starting over once more
    /// than `max_entries` remain.
    pub fn insert_bounded(&mut self, key: String, value: V, now: u64, max_entries: usize)
        requires
            now + old(self).ttl <= u64::MAX,
        ensures
            final(self).ttl == old(self).ttl,
            final(self).entries@ == put(
                if live(old(self).entries@, now).len() > max_entries {
                    Seq::empty()
                } else {
                    live(old(self).entries@, now)
                },
                CacheEntry { key, expires_at: (now + old(self).ttl) as u64, value },
            ),
    {
        self.purge_expired(now);
        if self.entries.len() > max_entries {
            self.entries.clear();
        }
        self.insert(key, value, now);
    }
}

/// Read after write: once a value is stored for a key, a lookup of that key
/// gives it back until the entry expires.
pub proof fn law_read_after_write<V>(entries: Seq<CacheEntry<V>>, e: CacheEntry<V>, now: u64)
    requires
        now < e.expires_at,
    ensures
        fresh_entry(put(entries, e), e.key@, now) == Some(e),
{
    lemma_key_index(entries, e.key@, 0);
    let after = put(entries, e);
    match key_index(entries, e.key@, 0) {
        Some(i) => {
            assert forall|j: int| 0 <= j < i implies after[j].key@ != e.key@ by {
                assert(after[j] == entries[j]);
            }
            assert(after[i as int] == e);
            lemma_key_index(after, e.key@, 0);
            assert(key_index(after, e.key@, 0) == Some(i));
        },
        None => {
            assert forall|j: int| 0 <= j < entries.len() implies after[j].key@ != e.key@ by {
                assert(after[j] == entries[j]);
            }
            lemma_key_index(after, e.key@, 0);
            assert(after[entries.len() as int] == e);
            assert(key_index(after, e.key@, 0) == Some(entries.len()));
        },
    }
}

/// A lookup never returns an entry that has expired.
pub proof fn law_no_stale_reads<V>(entries: Seq<CacheEntry<V>>, key: Seq<char>, now: u64)
    ensures
        fresh_entry(entries, key, now) matches Some(e) ==> e.expires_at > now && e.key@ == key,
{
    lemma_key_index(entries, key, 0);
}

/// Purging keeps exactly the entries that have not expired, in order.
pub proof fn law_purge_keeps_live<V>(entries: Seq<CacheEntry<V>>, now: u64)
    ensures
        forall|k: int| 0 <= k < live(entries, now).len() ==> #[trigger] live(entries, now)[k].expires_at > now,
        live(entries, now).len() <= entries.len(),
    decreases entries.len(),
{
    if entries.len() > 0 {
        law_purge_keeps_live(entries.drop_last(), now);
        let r = live(entries.drop_last(), now);
        if entries.last().expires_at > now {
            assert forall|k: int| 0 <= k < live(entries, now).len() implies #[trigger] live(entries, now)[k].expires_at > now by {
                if k < r.len() {
                    assert(live(entries, now)[k] == r[k]);
                }
            }
        }
    }
}

/// A bounded insert leaves at most `max_entries + 1` entries.
pub proof fn law_bounded_size<V>(entries: Seq<CacheEntry<V>>, e: CacheEntry<V>, now: u64, max_entries: usize)
    ensures
        put(
            if live(entries, now).len() > max_entries {
                Seq::empty()
            } else {
                live(entries, now)
            },
            e,
        ).len() <= max_entries + 1,
{
    let base = if live(entries, now).len() > max_entries {
        Seq::empty()
    } else {
        live(entries, now)
    };
    lemma_key_index(base, e.key@, 0);
}

// ------------------------------------------------------------------
// Keyed by series id
// ------------------------------------------------------------------

/// A cache keyed by series id: each id maps to the time its entry expires
/// and its value.
pub struct IdTtlCache<V> {
    pub ttl: u64,
    pub entries: HashMap<i64, (u64, V)>,
}

/// The value stored for `id` in `m` when its entry expires after `now`.
pub open spec fn fresh_value<V>(m: Map<i64, (u64, V)>, id: i64, now: u64) -> Option<V> {
    if m.contains_key(id) && m[id].0 > now {
        Some(m[id].1)
    } else {
        None
    }
}

impl<V> IdTtlCache<V> {
    /// An empty cache whose entries live `ttl` nanoseconds.
    pub fn new(ttl: u64) -> (c: Self)
        ensures
            c.ttl == ttl,
            c.entries@ == Map::<i64, (u64, V)>::empty(),
    {
        IdTtlCache { ttl, entries: HashMap::new() }
    }

    /// The value stored for `id` when its entry expires after `now`.
    pub fn get_fresh(&self, id: i64, now: u64) -> (r: Option<&V>)
        ensures
            match r {
                Some(v) => fresh_value(self.entries@, id, now) == Some(*v),
                None => fresh_value(self.entries@, id, now) is None,
            },
    {
        broadcast use vstd::std_specs::hash::group_hash_axioms;

        match self.entries.get(&id) {
            Some(e) => {
                if e.0 > now {
                    Some(&e.1)
                } else {
                    None
                }
            },
            None => None,
        }
    }

    /// Stores `value` for `id`, expiring `ttl` after `now`; an earlier entry
    /// for `id` is replaced.
    pub fn insert(&mut self, id: i64, value: V, now: u64)
        requires
            now + old(self).ttl <= u64::MAX,
        ensures
            final(self).ttl == old(self).ttl,
            final(self).entries@ == old(self).entries@.insert(id, ((now + old(self).ttl) as u64, value)),
    {
        broadcast use vstd::std_specs::hash::group_hash_axioms;

        let expires_at = now + self.ttl;
        self.entries.insert(id, (expires_at, value));
    }
}

/// Read after write by id: once a value is stored for an id, a lookup of that
/// id gives it back until the entry expires, and lookups of other ids see
/// what they saw before.
pub proof fn law_id_read_after_write<V>(
    m: Map<i64, (u64, V)>,
    id: i64,
    expires_at: u64,
    value: V,
    other: i64,
    now: u64,
)
    requires
        now < expires_at,
        other != id,
    ensures
        fresh_value(m.insert(id, (expires_at, value)), id, now) == Some(value),
        fresh_value(m.insert(id, (expires_at, value)), other, now) == fresh_value(m, other, now),
{
}

/// A lookup by id never returns an entry that has expired.
pub proof fn law_id_no_stale_reads<V>(m: Map<i64, (u64, V)>, id: i64, now: u64)
    ensures
        fresh_value(m, id, now) is Some ==> m.contains_key(id) && m[id].0 > now,
{
}

} // verus!
