//! A time-to-live (TTL) memoization cache with a singleflight discipline.
//!
//! The cache maps a key to the outcome of a fetch, stamped with the time it
//! was stored. An entry is *live* while its age is below the configured TTL;
//! a live entry is served without a new fetch, an expired one is replaced by
//! the next fetch. In synchronized mode at most one fetch per key is in
//! flight at a time: callers that miss while a fetch is pending are told to
//! wait for its result instead of fetching again. In unsynchronized mode
//! every caller that misses may fetch, and the last completed fetch wins.
//!
//! Outcomes are stored as given: a caller that memoizes a `Result` caches
//! failures for the full TTL, exactly as it caches successes.
//!
//! The cache itself performs no I/O and reads no clock: the current time is
//! an argument of every operation, so expiry is deterministic and checkable.

use vstd::prelude::*;

verus! {

/// The uniform TTL of the crate's memoized lookups: 24 hours, in seconds.
pub const DEFAULT_TTL_SECS: u64 = 86400;

/// Concurrency discipline of a cache: whether concurrent fetches of the
/// same key are collapsed into one.
#[derive(Clone, Copy, Debug, PartialEq, Eq, Structural)]
pub enum SyncMode {
    /// At most one fetch per key in flight; later callers wait for it.
    Synchronized,
    /// Callers race freely; the last write for a key wins.
    Unsynchronized,
}

/// What a caller that consulted the cache must do next.
#[derive(Clone, Copy, Debug, PartialEq, Eq, Structural)]
pub enum LookupStep {
    /// A live entry exists; read it with [`TtlCache::get`].
    Hit,
    /// No live entry; the caller must perform the fetch and then store the
    /// outcome with [`TtlCache::complete`].
    Fetch,
    /// No live entry, but a fetch for this key is already in flight
    /// (synchronized mode only): await its completion, then look again.
    Wait,
}

/// A key the cache can compare: its view decides identity, and `key_eq`
/// is an executable test of exactly that.
pub trait CacheKey: View {
    /// Decides whether two keys are the same key.
    fn key_eq(&self, other: &Self) -> (r: bool)
        ensures
            r == (self@ == other@),
    ;
}

impl CacheKey for u64 {
    fn key_eq(&self, other: &Self) -> (r: bool)
        ensures
            r == (self@ == other@),
    {
        *self == *other
    }
}

impl CacheKey for usize {
    fn key_eq(&self, other: &Self) -> (r: bool)
        ensures
            r == (self@ == other@),
    {
        *self == *other
    }
}

impl CacheKey for String {
    fn key_eq(&self, other: &Self) -> (r: bool)
        ensures
            r == (self@ == other@),
    {
        *self == *other
    }
}

struct CacheSlot<K, V> {
    key: K,
    value: V,
    inserted_at: u64,
}

/// The TTL memoization cache, keyed by `K`, storing outcomes of type `V`.
pub struct TtlCache<K, V> {
    entries: Vec<CacheSlot<K, V>>,
    pending: Vec<K>,
    ttl_secs: u64,
    mode: SyncMode,
}

impl<K: CacheKey, V> TtlCache<K, V> {
    /// The configured TTL, in seconds.
    pub closed spec fn spec_ttl(self) -> u64 {
        self.ttl_secs
    }

    /// The configured concurrency mode.
    pub closed spec fn spec_mode(self) -> SyncMode {
        self.mode
    }

    /// Whether the cache holds an entry (live or expired) for key `k`.
    pub closed spec fn spec_contains(self, k: K::V) -> bool {
        exists|i: int| 0 <= i < self.entries@.len() && self.entries@[i].key@ == k
    }

    spec fn entry_index(self, k: K::V) -> int {
        choose|i: int| 0 <= i < self.entries@.len() && self.entries@[i].key@ == k
    }

    /// The outcome stored for key `k` (meaningful when `spec_contains(k)`).
    pub closed spec fn stored_value(self, k: K::V) -> V {
        self.entries@[self.entry_index(k)].value
    }

    /// The time at which the entry for key `k` was stored.
    pub closed spec fn stored_time(self, k: K::V) -> u64 {
        self.entries@[self.entry_index(k)].inserted_at
    }

    /// An entry is live while its age is below the TTL.
    pub open spec fn is_live(self, k: K::V, now: u64) -> bool {
        self.spec_contains(k) && (now as int) < (self.stored_time(k) as int) + (
        self.spec_ttl() as int)
    }

    /// Whether a fetch for key `k` is in flight (synchronized mode).
    pub closed spec fn is_pending(self, k: K::V) -> bool {
        exists|i: int| 0 <= i < self.pending@.len() && self.pending@[i]@ == k
    }

    /// The step a lookup of key `k` at time `now` decides on: serve a live
    /// entry, wait for a pending synchronized fetch, or fetch.
    pub open spec fn spec_step(self, k: K::V, now: u64) -> LookupStep {
        if self.is_live(k, now) {
            LookupStep::Hit
        } else if self.spec_mode() is Synchronized && self.is_pending(k) {
            LookupStep::Wait
        } else {
            LookupStep::Fetch
        }
    }

    spec fn entries_distinct(self) -> bool {
        forall|i: int, j: int|
            0 <= i < j < self.entries@.len() ==> self.entries@[i].key@ != self.entries@[j].key@
    }

    spec fn pending_distinct(self) -> bool {
        forall|i: int, j: int|
            0 <= i < j < self.pending@.len() ==> self.pending@[i]@ != self.pending@[j]@
    }

    /// Internal well-formedness: no key occurs twice among the entries,
    /// none twice among the pending fetches.
    pub closed spec fn wf(self) -> bool {
        self.entries_distinct() && self.pending_distinct()
    }

    /// An empty cache with the given TTL and mode.
    pub fn new(ttl_secs: u64, mode: SyncMode) -> (c: Self)
        ensures
            c.wf(),
            c.spec_ttl() == ttl_secs,
            c.spec_mode() == mode,
            forall|k: K::V| !c.spec_contains(k),
            forall|k: K::V| !c.is_pending(k),
    {
        TtlCache { entries: Vec::new(), pending: Vec::new(), ttl_secs, mode }
    }

    /// The configured TTL, in seconds.
    pub fn ttl_secs(&self) -> (t: u64)
        ensures
            t == self.spec_ttl(),
    {
        self.ttl_secs
    }

    /// The configured concurrency mode.
    pub fn mode(&self) -> (m: SyncMode)
        ensures
            m == self.spec_mode(),
    {
        self.mode
    }

    /// With distinct keys, an index that holds key `k` is the index every
    /// spec accessor speaks of.
    proof fn lemma_unique_entry(self, k: K::V, i: int)
        requires
            self.entries_distinct(),
            0 <= i < self.entries@.len(),
            self.entries@[i].key@ == k,
        ensures
            self.spec_contains(k),
            self.entry_index(k) == i,
            self.stored_value(k) == self.entries@[i].value,
            self.stored_time(k) == self.entries@[i].inserted_at,
    {
        assert(self.spec_contains(k));
        let j = self.entry_index(k);
        assert(0 <= j < self.entries@.len() && self.entries@[j].key@ == k);
        if i < j {
            assert(self.entries@[i].key@ != self.entries@[j].key@);
        } else if j < i {
            assert(self.entries@[j].key@ != self.entries@[i].key@);
        }
    }

    fn find_entry(&self, key: &K) -> (r: Option<usize>)
        ensures
            match r {
                Some(i) => i < self.entries@.len() && self.entries@[i as int].key@ == key@,
                None => !self.spec_contains(key@),
            },
    {
        let n = self.entries.len();
        let mut i: usize = 0;
        while i < n
            invariant
                n == self.entries@.len(),
                i <= n,
                forall|j: int| 0 <= j < i ==> self.entries@[j].key@ != key@,
            decreases n - i,
        {
            if self.entries[i].key.key_eq(key) {
                return Some(i);
            }
            i += 1;
        }
        None
    }

    fn find_pending(&self, key: &K) -> (r: Option<usize>)
        ensures
            match r {
                Some(i) => i < self.pending@.len() && self.pending@[i as int]@ == key@,
                None => !self.is_pending(key@),
            },
    {
        let n = self.pending.len();
        let mut i: usize = 0;
        while i < n
            invariant
                n == self.pending@.len(),
                i <= n,
                forall|j: int| 0 <= j < i ==> self.pending@[j]@ != key@,
            decreases n - i,
        {
            if self.pending[i].key_eq(key) {
                return Some(i);
            }
            i += 1;
        }
        None
    }

    /// Reads the live entry for `key` at time `now`, if there is one; an
    /// expired or missing entry yields `None` and is never served.
    pub fn get<'a>(&'a self, key: &K, now: u64) -> (r: Option<&'a V>)
        requires
            self.wf(),
        ensures
            match r {
                Some(v) => self.is_live(key@, now) && *v == self.stored_value(key@),
                None => !self.is_live(key@, now),
            },
    {
        match self.find_entry(key) {
            Some(i) => {
                proof {
                    self.lemma_unique_entry(key@, i as int);
                }
                let at = self.entries[i].inserted_at;
                if now < at || now - at < self.ttl_secs {
                    Some(&self.entries[i].value)
                } else {
                    None
                }
            },
            None => None,
        }
    }

    /// Consults the cache for `key` at time `now` and decides the caller's
    /// next step. A live entry is a [`LookupStep::Hit`]. On a miss, in
    /// synchronized mode the first caller is told to fetch and the key is
    /// marked in flight, so that every later caller is told to wait until
    /// [`TtlCache::complete`]; in unsynchronized mode every caller is told
    /// to fetch. Nothing but the in-flight mark changes.
    pub fn lookup(&mut self, key: K, now: u64) -> (step: LookupStep)
        requires
            old(self).wf(),
        ensures
            final(self).wf(),
            final(self).spec_ttl() == old(self).spec_ttl(),
            final(self).spec_mode() == old(self).spec_mode(),
            step == old(self).spec_step(key@, now),
            forall|k: <K as View>::V|
                final(self).spec_contains(k) == old(self).spec_contains(k),
            forall|k: <K as View>::V|
                old(self).spec_contains(k) ==> final(self).stored_value(k) == old(
                self).stored_value(k) && final(self).stored_time(k) == old(self).stored_time(k),
            step is Fetch && old(self).spec_mode() is Synchronized ==> final(self).is_pending(
                key@),
            forall|k: <K as View>::V|
                k != key@ ==> final(self).is_pending(k) == old(self).is_pending(k),
            !(step is Fetch && old(self).spec_mode() is Synchronized) ==> *final(self) == *old(
                self),
    {
        let live = match self.find_entry(&key) {
            Some(i) => {
                proof {
                    self.lemma_unique_entry(key@, i as int);
                }
                let at = self.entries[i].inserted_at;
                now < at || now - at < self.ttl_secs
            },
            None => false,
        };
        if live {
            return LookupStep::Hit;
        }
        match self.mode {
            SyncMode::Unsynchronized => LookupStep::Fetch,
            SyncMode::Synchronized => {
                match self.find_pending(&key) {
                    Some(_) => LookupStep::Wait,
                    None => {
                        let ghost pre = *self;
                        let ghost kk = key;
                        self.pending.push(key);
                        proof {
                            self.lemma_push_pending(pre, kk);
                        }
                        LookupStep::Fetch
                    },
                }
            },
        }
    }

    /// After pushing a key absent from `pending`, that key is pending, every
    /// other key's pending state is unchanged, and the entries are untouched.
    proof fn lemma_push_pending(self, pre: Self, x: K)
        requires
            pre.wf(),
            !pre.is_pending(x@),
            self.pending@ == pre.pending@.push(x),
            self.entries@ == pre.entries@,
            self.ttl_secs == pre.ttl_secs,
            self.mode == pre.mode,
        ensures
            self.wf(),
            self.is_pending(x@),
            forall|k2: K::V| k2 != x@ ==> self.is_pending(k2) == pre.is_pending(k2),
            forall|k2: K::V| self.spec_contains(k2) == pre.spec_contains(k2),
            forall|k2: K::V|
                pre.spec_contains(k2) ==> self.stored_value(k2) == pre.stored_value(k2)
                    && self.stored_time(k2) == pre.stored_time(k2),
            self.spec_ttl() == pre.spec_ttl(),
            self.spec_mode() == pre.spec_mode(),
    {
        let p0 = pre.pending@;
        let p1 = self.pending@;
        assert(p1.len() == p0.len() + 1);
        assert(forall|j: int| 0 <= j < p0.len() ==> p1[j] == p0[j]);
        assert(p1[p0.len() as int]@ == x@);
        assert(self.is_pending(x@));
        assert forall|j: int| 0 <= j < p0.len() implies p0[j]@ != x@ by {
            if p0[j]@ == x@ {
                assert(pre.is_pending(x@));
            }
        }
        assert forall|k2: K::V| k2 != x@ implies self.is_pending(k2) == pre.is_pending(k2) by {
            if pre.is_pending(k2) {
                let i = choose|i: int| 0 <= i < p0.len() && p0[i]@ == k2;
                assert(p1[i]@ == k2);
            }
            if self.is_pending(k2) {
                let i = choose|i: int| 0 <= i < p1.len() && p1[i]@ == k2;
                assert(i < p0.len());
                assert(p0[i]@ == k2);
            }
        }
        self.lemma_same_entries(pre);
    }

    /// Stores the outcome `value` of a fetch for `key` at time `now`:
    /// the entry for `key` is created or overwritten with a fresh timestamp,
    /// the in-flight mark for `key` (if any) is cleared so that waiters can
    /// read the outcome, and every other key is untouched.
    pub fn complete(&mut self, key: K, value: V, now: u64)
        requires
            old(self).wf(),
        ensures
            final(self).wf(),
            final(self).spec_ttl() == old(self).spec_ttl(),
            final(self).spec_mode() == old(self).spec_mode(),
            final(self).spec_contains(key@),
            final(self).stored_value(key@) == value,
            final(self).stored_time(key@) == now,
            !final(self).is_pending(key@),
            forall|k: <K as View>::V|
                k != key@ ==> final(self).spec_contains(k) == old(self).spec_contains(k),
            forall|k: <K as View>::V|
                k != key@ && old(self).spec_contains(k) ==> final(self).stored_value(k) == old(
                self).stored_value(k) && final(self).stored_time(k) == old(self).stored_time(k),
            forall|k: <K as View>::V|
                k != key@ ==> final(self).is_pending(k) == old(self).is_pending(k),
    {
        let ghost kk = key;
        let ghost gv = value;
        match self.find_pending(&key) {
            Some(i) => {
                let ghost pre = *self;
                self.pending.remove(i);
                proof {
                    self.lemma_remove_pending(pre, i as int);
                }
            },
            None => {},
        }
        let ghost mid1 = *self;
        match self.find_entry(&key) {
            Some(i) => {
                let ghost pre = *self;
                self.entries.remove(i);
                proof {
                    self.lemma_remove_entry(pre, i as int);
                }
            },
            None => {},
        }
        let ghost mid2 = *self;
        self.entries.push(CacheSlot { key, value, inserted_at: now });
        proof {
            assert(self.entries@.last() == (CacheSlot { key: kk, value: gv, inserted_at: now }));
            self.lemma_push_entry(mid2, CacheSlot { key: kk, value: gv, inserted_at: now });
        }
    }

    /// After removing the one pending occurrence of a key, that key is no
    /// longer pending and every other key's pending state is unchanged.
    proof fn lemma_remove_pending(self, pre: Self, i: int)
        requires
            pre.wf(),
            0 <= i < pre.pending@.len(),
            self.pending@ == pre.pending@.remove(i),
            self.entries@ == pre.entries@,
            self.ttl_secs == pre.ttl_secs,
            self.mode == pre.mode,
        ensures
            self.wf(),
            !self.is_pending(pre.pending@[i]@),
            forall|k2: K::V|
                k2 != pre.pending@[i]@ ==> self.is_pending(k2) == pre.is_pending(k2),
            forall|k2: K::V| self.spec_contains(k2) == pre.spec_contains(k2),
            forall|k2: K::V|
                pre.spec_contains(k2) ==> self.stored_value(k2) == pre.stored_value(k2)
                    && self.stored_time(k2) == pre.stored_time(k2),
            self.spec_ttl() == pre.spec_ttl(),
            self.spec_mode() == pre.spec_mode(),
    {
        let p0 = pre.pending@;
        let p1 = self.pending@;
        let k = p0[i]@;
        p0.remove_ensures(i);
        assert(p1.len() == p0.len() - 1);
        assert forall|j: int| 0 <= j < p1.len() implies p1[j] == (if j < i {
            p0[j]
        } else {
            p0[j + 1]
        }) by {}
        assert forall|a: int, b: int| 0 <= a < b < p1.len() implies p1[a]@ != p1[b]@ by {
            let a0 = if a < i { a } else { a + 1 };
            let b0 = if b < i { b } else { b + 1 };
            assert(p0[a0]@ != p0[b0]@);
        }
        assert forall|j: int| 0 <= j < p1.len() implies p1[j]@ != k by {
            let j0 = if j < i { j } else { j + 1 };
            assert(p1[j] == p0[j0]);
            if p0[j0]@ == k {
                if j0 < i {
                    assert(p0[j0]@ != p0[i]@);
                } else {
                    assert(p0[i]@ != p0[j0]@);
                }
            }
        }
        assert(!self.is_pending(k));
        assert forall|k2: K::V| k2 != k implies self.is_pending(k2) == pre.is_pending(k2) by {
            if pre.is_pending(k2) {
                let j0 = choose|j: int| 0 <= j < p0.len() && p0[j]@ == k2;
                assert(j0 != i);
                let j1 = if j0 < i { j0 } else { j0 - 1 };
                assert(p1[j1]@ == k2);
            }
            if self.is_pending(k2) {
                let j1 = choose|j: int| 0 <= j < p1.len() && p1[j]@ == k2;
                let j0 = if j1 < i { j1 } else { j1 + 1 };
                assert(p0[j0]@ == k2);
            }
        }
        self.lemma_same_entries(pre);
    }

    /// After removing the one entry that holds a key, that key is absent and
    /// every other key's entry is unchanged.
    proof fn lemma_remove_entry(self, pre: Self, i: int)
        requires
            pre.wf(),
            0 <= i < pre.entries@.len(),
            self.entries@ == pre.entries@.remove(i),
            self.pending@ == pre.pending@,
            self.ttl_secs == pre.ttl_secs,
            self.mode == pre.mode,
        ensures
            self.wf(),
            !self.spec_contains(pre.entries@[i].key@),
            forall|k2: K::V|
                k2 != pre.entries@[i].key@ ==> self.spec_contains(k2) == pre.spec_contains(k2),
            forall|k2: K::V|
                k2 != pre.entries@[i].key@ && pre.spec_contains(k2) ==> self.stored_value(k2)
                    == pre.stored_value(k2) && self.stored_time(k2) == pre.stored_time(k2),
            forall|k2: K::V| self.is_pending(k2) == pre.is_pending(k2),
            self.spec_ttl() == pre.spec_ttl(),
            self.spec_mode() == pre.spec_mode(),
    {
        let e0 = pre.entries@;
        let e1 = self.entries@;
        let k = e0[i].key@;
        e0.remove_ensures(i);
        assert(e1.len() == e0.len() - 1);
        assert forall|a: int, b: int| 0 <= a < b < e1.len() implies e1[a].key@ != e1[b].key@ by {
            let a0 = if a < i { a } else { a + 1 };
            let b0 = if b < i { b } else { b + 1 };
            assert(e1[a] == e0[a0] && e1[b] == e0[b0]);
            assert(e0[a0].key@ != e0[b0].key@);
        }
        assert forall|j: int| 0 <= j < e1.len() implies e1[j].key@ != k by {
            let j0 = if j < i { j } else { j + 1 };
            assert(e1[j] == e0[j0]);
            if e0[j0].key@ == k {
                if j0 < i {
                    assert(e0[j0].key@ != e0[i].key@);
                } else {
                    assert(e0[i].key@ != e0[j0].key@);
                }
            }
        }
        assert(!self.spec_contains(k));
        assert forall|k2: K::V|
            k2 != k implies self.spec_contains(k2) == pre.spec_contains(k2) by {
            if pre.spec_contains(k2) {
                let j0 = choose|j: int| 0 <= j < e0.len() && e0[j].key@ == k2;
                assert(j0 != i);
                let j1 = if j0 < i { j0 } else { j0 - 1 };
                assert(e1[j1].key@ == k2);
            }
            if self.spec_contains(k2) {
                let j1 = choose|j: int| 0 <= j < e1.len() && e1[j].key@ == k2;
                let j0 = if j1 < i { j1 } else { j1 + 1 };
                assert(e0[j0].key@ == k2);
            }
        }
        assert forall|k2: K::V|
            k2 != k && pre.spec_contains(k2) implies self.stored_value(k2) == pre.stored_value(
            k2) && self.stored_time(k2) == pre.stored_time(k2) by {
            let j0 = choose|j: int| 0 <= j < e0.len() && e0[j].key@ == k2;
            pre.lemma_unique_entry(k2, j0);
            assert(j0 != i);
            let j1 = if j0 < i { j0 } else { j0 - 1 };
            assert(e1[j1] == e0[j0]);
            self.lemma_unique_entry(k2, j1);
        }
    }

    /// After pushing an entry whose key was absent, that key's entry is the
    /// pushed one and every other key's entry is unchanged.
    proof fn lemma_push_entry(self, pre: Self, slot: CacheSlot<K, V>)
        requires
            pre.wf(),
            !pre.spec_contains(slot.key@),
            self.entries@ == pre.entries@.push(slot),
            self.pending@ == pre.pending@,
            self.ttl_secs == pre.ttl_secs,
            self.mode == pre.mode,
        ensures
            self.wf(),
            self.spec_contains(slot.key@),
            self.stored_value(slot.key@) == slot.value,
            self.stored_time(slot.key@) == slot.inserted_at,
            forall|k2: K::V|
                k2 != slot.key@ ==> self.spec_contains(k2) == pre.spec_contains(k2),
            forall|k2: K::V|
                k2 != slot.key@ && pre.spec_contains(k2) ==> self.stored_value(k2)
                    == pre.stored_value(k2) && self.stored_time(k2) == pre.stored_time(k2),
            forall|k2: K::V| self.is_pending(k2) == pre.is_pending(k2),
            self.spec_ttl() == pre.spec_ttl(),
            self.spec_mode() == pre.spec_mode(),
    {
        let e0 = pre.entries@;
        let e1 = self.entries@;
        let n = e0.len() as int;
        assert(e1.len() == n + 1);
        assert(forall|j: int| 0 <= j < n ==> e1[j] == e0[j]);
        assert(e1[n] == slot);
        assert forall|j: int| 0 <= j < n implies e0[j].key@ != slot.key@ by {
            if e0[j].key@ == slot.key@ {
                assert(pre.spec_contains(slot.key@));
            }
        }
        assert forall|a: int, b: int| 0 <= a < b < e1.len() implies e1[a].key@ != e1[b].key@ by {
            if b < n {
                assert(e0[a].key@ != e0[b].key@);
            } else {
                assert(e0[a].key@ != slot.key@);
            }
        }
        self.lemma_unique_entry(slot.key@, n);
        assert forall|k2: K::V|
            k2 != slot.key@ implies self.spec_contains(k2) == pre.spec_contains(k2) by {
            if pre.spec_contains(k2) {
                let j = choose|j: int| 0 <= j < e0.len() && e0[j].key@ == k2;
                assert(e1[j].key@ == k2);
            }
            if self.spec_contains(k2) {
                let j = choose|j: int| 0 <= j < e1.len() && e1[j].key@ == k2;
                assert(j < n);
                assert(e0[j].key@ == k2);
            }
        }
        assert forall|k2: K::V|
            k2 != slot.key@ && pre.spec_contains(k2) implies self.stored_value(k2)
            == pre.stored_value(k2) && self.stored_time(k2) == pre.stored_time(k2) by {
            let j = choose|j: int| 0 <= j < e0.len() && e0[j].key@ == k2;
            pre.lemma_unique_entry(k2, j);
            self.lemma_unique_entry(k2, j);
        }
    }

    /// Two caches with the same entry sequence agree on every entry lookup.
    proof fn lemma_same_entries(self, pre: Self)
        requires
            pre.entries_distinct(),
            self.entries@ == pre.entries@,
        ensures
            self.entries_distinct(),
            forall|k2: K::V| self.spec_contains(k2) == pre.spec_contains(k2),
            forall|k2: K::V|
                pre.spec_contains(k2) ==> self.stored_value(k2) == pre.stored_value(k2)
                    && self.stored_time(k2) == pre.stored_time(k2),
    {
        assert forall|k2: K::V| self.spec_contains(k2) == pre.spec_contains(k2) by {
            if pre.spec_contains(k2) {
                let i = choose|i: int| 0 <= i < pre.entries@.len() && pre.entries@[i].key@ == k2;
                assert(self.entries@[i].key@ == k2);
            }
            if self.spec_contains(k2) {
                let i = choose|i: int| 0 <= i < self.entries@.len() && self.entries@[i].key@
                    == k2;
                assert(pre.entries@[i].key@ == k2);
            }
        }
        assert forall|k2: K::V|
            pre.spec_contains(k2) implies self.stored_value(k2) == pre.stored_value(k2)
            && self.stored_time(k2) == pre.stored_time(k2) by {
            let i = choose|i: int| 0 <= i < pre.entries@.len() && pre.entries@[i].key@ == k2;
            pre.lemma_unique_entry(k2, i);
            self.lemma_unique_entry(k2, i);
        }
    }
}

/// Idempotence within the TTL window. Once an outcome for a key is stored,
/// every lookup of that key at any time before the entry's TTL elapses is a
/// hit. Since a hit leaves the cache unchanged ([`TtlCache::lookup`]) and
/// reading a hit returns the stored outcome ([`TtlCache::get`]), two calls
/// for the same key within the window return the identical stored outcome
/// and trigger no fetch at all.
pub proof fn lemma_idempotence<K: CacheKey, V>(c: TtlCache<K, V>, k: K::V, t1: u64, t2: u64)
    requires
        c.wf(),
        c.is_live(k, t1),
        t1 <= t2,
        (t2 as int) < (c.stored_time(k) as int) + (c.spec_ttl() as int),
    ensures
        c.is_live(k, t2),
        c.spec_step(k, t1) is Hit,
        c.spec_step(k, t2) is Hit,
{
}

/// Singleflight. In synchronized mode a lookup that misses starts a fetch
/// exactly when no fetch for that key is in flight, and waits exactly when
/// one is. Since [`TtlCache::lookup`] marks the key in flight when it
/// answers `Fetch`, any number of lookups of one key between a first miss
/// and its [`TtlCache::complete`] produce exactly one fetch: the first one.
pub proof fn lemma_singleflight<K: CacheKey, V>(c: TtlCache<K, V>, k: K::V, now: u64)
    requires
        c.wf(),
        c.spec_mode() is Synchronized,
        !c.is_live(k, now),
    ensures
        c.spec_step(k, now) is Fetch <==> !c.is_pending(k),
        c.spec_step(k, now) is Wait <==> c.is_pending(k),
{
}

/// Expiry. Once the TTL of a key's entry has elapsed and no fetch for it is
/// in flight, the next lookup of that key is told to fetch afresh: an
/// expired entry is never served.
pub proof fn lemma_expiry<K: CacheKey, V>(c: TtlCache<K, V>, k: K::V, now: u64)
    requires
        c.wf(),
        c.spec_contains(k),
        (now as int) >= (c.stored_time(k) as int) + (c.spec_ttl() as int),
        !c.is_pending(k),
    ensures
        !c.is_live(k, now),
        c.spec_step(k, now) is Fetch,
{
}

} // verus!
