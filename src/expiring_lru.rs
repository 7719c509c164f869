//! A key/value cache bounded in two ways: by a maximum number of entries
//! (the least recently used entry is evicted on insert) and by an idle
//! timeout (a periodic sweep drops entries untouched for too long).
//!
//! Time is handed in by the caller as a monotonic millisecond count, so the
//! cache itself is a plain value; the owner runs the periodic sweep.

use std::marker::PhantomData;
use vstd::prelude::*;

verus! {

/// Keys whose equality can be decided through their view.
pub trait CacheKey: View + Sized {
    fn same_key(&self, other: &Self) -> (r: bool)
        ensures
            r == (self@ == other@),
    ;
}

impl CacheKey for String {
    fn same_key(&self, other: &Self) -> (r: bool) {
        *self == *other
    }
}

impl CacheKey for u64 {
    fn same_key(&self, other: &Self) -> (r: bool) {
        *self == *other
    }
}

/// One cached value with the instant (milliseconds) it was last used.
pub struct Entry<K, V> {
    pub key: K,
    pub value: V,
    pub last_used: u64,
}

/// A read reference to a cached value.
pub struct EntryRef<'a, V> {
    inner: &'a V,
}

impl<'a, V> EntryRef<'a, V> {
    pub closed spec fn spec_value(&self) -> &'a V {
        self.inner
    }

    pub fn value(&self) -> (r: &V)
        ensures
            r == self.spec_value(),
    {
        self.inner
    }
}

/// Default idle timeout: one hour.
pub const DEFAULT_EXPIRATION_MS: u64 = 3_600_000;

/// Default period of the decay sweep: ten minutes.
pub const DEFAULT_REAP_INTERVAL_MS: u64 = 600_000;

pub open spec fn has_key<K: View, V>(s: Seq<Entry<K, V>>, k: K::V) -> bool {
    exists|i: int| 0 <= i < s.len() && #[trigger] s[i].key@ == k
}

/// The position of the entry under `k` (meaningful when `has_key`).
pub open spec fn key_index<K: View, V>(s: Seq<Entry<K, V>>, k: K::V) -> int {
    choose|i: int| 0 <= i < s.len() && #[trigger] s[i].key@ == k
}

pub open spec fn keys_unique<K: View, V>(s: Seq<Entry<K, V>>) -> bool {
    forall|i: int, j: int|
        0 <= i < s.len() && 0 <= j < s.len() && i != j ==> #[trigger] s[i].key@ != #[trigger] s[j].key@
}

/// `j` holds the smallest `last_used`, and is the first position that does.
pub open spec fn is_lru_index<K, V>(s: Seq<Entry<K, V>>, j: int) -> bool {
    &&& 0 <= j < s.len()
    &&& forall|i: int| 0 <= i < s.len() ==> s[j].last_used <= #[trigger] s[i].last_used
    &&& forall|i: int| 0 <= i < j ==> #[trigger] s[i].last_used > s[j].last_used
}

pub open spec fn lru_index<K, V>(s: Seq<Entry<K, V>>) -> int {
    choose|j: int| is_lru_index(s, j)
}

pub open spec fn later(a: u64, b: u64) -> u64 {
    if a < b {
        b
    } else {
        a
    }
}

/// An entry is live at `now` when it was used at most `expiration` ago.
pub open spec fn is_live<K, V>(e: Entry<K, V>, expiration: u64, now: u64) -> bool {
    now <= e.last_used + expiration
}

pub open spec fn live_filter<K, V>(expiration: u64, now: u64) -> spec_fn(Entry<K, V>) -> bool {
    |e: Entry<K, V>| is_live(e, expiration, now)
}

/// The entries left by a sweep at `now`.
pub open spec fn reaped<K, V>(s: Seq<Entry<K, V>>, expiration: u64, now: u64) -> Seq<Entry<K, V>> {
    s.filter(live_filter(expiration, now))
}

/// The entries after inserting `key` at `now`, when the cache is enabled.
pub open spec fn inserted<K: View, V>(
    s: Seq<Entry<K, V>>,
    key: K,
    value: V,
    now: u64,
    max_size: Option<usize>,
) -> Seq<Entry<K, V>> {
    if has_key(s, key@) {
        let i = key_index(s, key@);
        s.update(i, Entry { key, value, last_used: later(s[i].last_used, now) })
    } else {
        let base = if max_size is Some && s.len() >= max_size->0 {
            s.remove(lru_index(s))
        } else {
            s
        };
        base.push(Entry { key, value, last_used: now })
    }
}

proof fn lemma_lru_index_unique<K, V>(s: Seq<Entry<K, V>>, j: int)
    requires
        is_lru_index(s, j),
    ensures
        lru_index(s) == j,
{
    let k = lru_index(s);
    assert(is_lru_index(s, k));
    if k < j {
        assert(s[k].last_used > s[j].last_used);
    } else if j < k {
        assert(s[j].last_used > s[k].last_used);
    }
}

proof fn lemma_remove_keeps_keys<K: View, V>(s: Seq<Entry<K, V>>, j: int)
    requires
        0 <= j < s.len(),
    ensures
        forall|b: int| 0 <= b < s.len() - 1 ==> has_key(s, #[trigger] s.remove(j)[b].key@),
{
    assert forall|b: int| 0 <= b < s.len() - 1 implies has_key(s, #[trigger] s.remove(j)[b].key@) by {
        let b0 = if b < j { b } else { b + 1 };
        assert(s.remove(j)[b] == s[b0]);
    }
}

proof fn lemma_filter_step<A>(s: Seq<A>, pred: spec_fn(A) -> bool, j: int)
    requires
        0 <= j < s.len(),
    ensures
        s.subrange(0, j + 1).filter(pred) == if pred(s[j]) {
            s.subrange(0, j).filter(pred).push(s[j])
        } else {
            s.subrange(0, j).filter(pred)
        },
{
    broadcast use Seq::lemma_filter_push;

    assert(s.subrange(0, j + 1) =~= s.subrange(0, j).push(s[j]));
}

proof fn lemma_remove_unique<K: View, V>(s: Seq<Entry<K, V>>, i: int)
    requires
        keys_unique(s),
        0 <= i < s.len(),
    ensures
        keys_unique(s.remove(i)),
{
    let t = s.remove(i);
    assert forall|a: int, b: int| 0 <= a < t.len() && 0 <= b < t.len() && a != b implies
        #[trigger] t[a].key@ != #[trigger] t[b].key@ by {
        let a0 = if a < i { a } else { a + 1 };
        let b0 = if b < i { b } else { b + 1 };
        assert(t[a] == s[a0]);
        assert(t[b] == s[b0]);
    }
}

spec fn min_used_index<K, V>(s: Seq<Entry<K, V>>, n: int) -> int
    decreases n,
{
    if n <= 1 {
        0
    } else {
        let m = min_used_index(s, n - 1);
        if s[n - 1].last_used < s[m].last_used {
            n - 1
        } else {
            m
        }
    }
}

proof fn lemma_min_used_index<K, V>(s: Seq<Entry<K, V>>, n: int)
    requires
        1 <= n <= s.len(),
    ensures
        0 <= min_used_index(s, n) < n,
        forall|i: int| 0 <= i < n ==> s[min_used_index(s, n)].last_used <= #[trigger] s[i].last_used,
        forall|i: int| 0 <= i < min_used_index(s, n) ==> #[trigger] s[i].last_used > s[min_used_index(s, n)].last_used,
    decreases n,
{
    if n > 1 {
        lemma_min_used_index(s, n - 1);
    }
}

/// A sweep adds no key.
pub proof fn lemma_reaped_keys<K: View, V>(s: Seq<Entry<K, V>>, expiration: u64, now: u64, k: K::V)
    ensures
        has_key(reaped(s, expiration, now), k) ==> has_key(s, k),
{
    let t = reaped(s, expiration, now);
    if has_key(t, k) {
        let a = choose|a: int| 0 <= a < t.len() && #[trigger] t[a].key@ == k;
        s.lemma_filter_contains_rev(live_filter(expiration, now), t[a]);
        assert(t.contains(t[a]));
        let b = choose|b: int| 0 <= b < s.len() && s[b] == t[a];
        assert(s[b].key@ == k);
    }
}

/// After an insert, a key is present only if it was before or is the inserted one.
pub proof fn lemma_inserted_keys<K: View, V>(
    s: Seq<Entry<K, V>>,
    key: K,
    value: V,
    now: u64,
    max_size: Option<usize>,
    k: K::V,
)
    requires
        max_size is Some ==> max_size->0 > 0,
    ensures
        has_key(inserted(s, key, value, now, max_size), k) ==> has_key(s, k) || key@ == k,
{
    let t = inserted(s, key, value, now, max_size);
    if has_key(t, k) && !has_key(s, k) && key@ != k {
        let a = choose|a: int| 0 <= a < t.len() && #[trigger] t[a].key@ == k;
        if has_key(s, key@) {
            let i = key_index(s, key@);
            assert(t[a].key@ == s[a].key@);
        } else if max_size is Some && s.len() >= max_size->0 {
            let j = lru_index(s);
            assert(is_lru_index(s, j)) by {
                let m = min_used_index(s, s.len() as int);
                lemma_min_used_index(s, s.len() as int);
                lemma_lru_index_unique(s, m);
            }
            let a0 = if a < j { a } else { a + 1 };
            assert(t[a] == s[a0]);
        } else {
            assert(t[a] == s[a]);
        }
    }
}

proof fn lemma_key_index<K: View, V>(s: Seq<Entry<K, V>>, i: int)
    requires
        keys_unique(s),
        0 <= i < s.len(),
    ensures
        has_key(s, s[i].key@),
        key_index(s, s[i].key@) == i,
{
    assert(has_key(s, s[i].key@));
    let k = key_index(s, s[i].key@);
    assert(s[k].key@ == s[i].key@);
}

/// The cache. Keys are unique; with a size bound `n` at most `n` entries are held.
pub struct ExpiringLru<K, V> {
    entries: Vec<Entry<K, V>>,
    expiration: u64,
    reap_interval: u64,
    max_size: Option<usize>,
}

impl<K: CacheKey, V> ExpiringLru<K, V> {
    pub closed spec fn view(&self) -> Seq<Entry<K, V>> {
        self.entries@
    }

    pub closed spec fn spec_expiration(&self) -> u64 {
        self.expiration
    }

    pub closed spec fn spec_reap_interval(&self) -> u64 {
        self.reap_interval
    }

    pub closed spec fn spec_max_size(&self) -> Option<usize> {
        self.max_size
    }

    pub open spec fn contains_key(&self, k: K::V) -> bool {
        has_key(self.view(), k)
    }

    pub open spec fn same_config(&self, other: &Self) -> bool {
        &&& self.spec_expiration() == other.spec_expiration()
        &&& self.spec_reap_interval() == other.spec_reap_interval()
        &&& self.spec_max_size() == other.spec_max_size()
    }

    pub closed spec fn wf(&self) -> bool {
        &&& keys_unique(self.entries@)
        &&& self.max_size is Some ==> self.entries@.len() <= self.max_size->0
    }

    /// With a size bound `n`, never more than `n` entries.
    pub proof fn lemma_bounded(&self)
        requires
            self.wf(),
        ensures
            keys_unique(self.view()),
            self.spec_max_size() is Some ==> self.view().len() <= self.spec_max_size()->0,
    {
    }

    fn new(expiration: u64, reap_interval: u64, max_size: Option<usize>) -> (r: Self)
        ensures
            r.wf(),
            r.view() == Seq::<Entry<K, V>>::empty(),
            r.spec_expiration() == expiration,
            r.spec_reap_interval() == reap_interval,
            r.spec_max_size() == max_size,
    {
        ExpiringLru { entries: Vec::new(), expiration, reap_interval, max_size }
    }

    pub fn expiration(&self) -> (r: u64)
        ensures
            r == self.spec_expiration(),
    {
        self.expiration
    }

    pub fn reap_interval(&self) -> (r: u64)
        ensures
            r == self.spec_reap_interval(),
    {
        self.reap_interval
    }

    pub fn len(&self) -> (r: usize)
        ensures
            r == self.view().len(),
    {
        self.entries.len()
    }

    /// Whether `key` is present (its last use is left as it is).
    pub fn contains(&self, key: &K) -> (r: bool)
        requires
            self.wf(),
        ensures
            r == self.contains_key(key@),
    {
        self.find(key).is_some()
    }

    /// The position of `key`, if present.
    fn find(&self, key: &K) -> (r: Option<usize>)
        requires
            self.wf(),
        ensures
            r is Some <==> self.contains_key(key@),
            r is Some ==> r->0 == key_index(self.view(), key@) && r->0 < self.view().len(),
    {
        let mut i: usize = 0;
        while i < self.entries.len()
            invariant
                i <= self.entries@.len(),
                keys_unique(self.entries@),
                forall|j: int| 0 <= j < i ==> #[trigger] self.entries@[j].key@ != key@,
            decreases self.entries@.len() - i,
        {
            if self.entries[i].key.same_key(key) {
                proof {
                    lemma_key_index(self.entries@, i as int);
                }
                return Some(i);
            }
            i += 1;
        }
        None
    }

    /// The position of the least recently used entry (the first one on ties).
    fn find_lru(&self) -> (r: usize)
        requires
            self.view().len() > 0,
        ensures
            is_lru_index(self.view(), r as int),
    {
        let mut best: usize = 0;
        let mut i: usize = 1;
        while i < self.entries.len()
            invariant
                0 < i <= self.entries@.len(),
                best < i,
                forall|j: int| 0 <= j < i ==> self.entries@[best as int].last_used <= #[trigger] self.entries@[j].last_used,
                forall|j: int| 0 <= j < best ==> #[trigger] self.entries@[j].last_used > self.entries@[best as int].last_used,
            decreases self.entries@.len() - i,
        {
            if self.entries[i].last_used < self.entries[best].last_used {
                best = i;
            }
            i += 1;
        }
        best
    }

    /// Removes the least recently used entry.
    fn remove_lru(&mut self)
        requires
            old(self).wf(),
            old(self).view().len() > 0,
        ensures
            is_lru_index(old(self).view(), lru_index(old(self).view())),
            final(self).view() == old(self).view().remove(lru_index(old(self).view())),
            final(self).same_config(old(self)),
            keys_unique(final(self).view()),
    {
        let j = self.find_lru();
        proof {
            lemma_lru_index_unique(self.entries@, j as int);
        }
        proof {
            lemma_remove_unique(self.entries@, j as int);
        }
        self.entries.remove(j);
    }

    /// Looks `key` up at `now`; a hit refreshes the entry's last use.
    pub fn get(&mut self, key: &K, now: u64) -> (r: Option<EntryRef<'_, V>>)
        requires
            old(self).wf(),
        ensures
            final(self).wf(),
            final(self).same_config(old(self)),
            r is None <==> !old(self).contains_key(key@),
            !old(self).contains_key(key@) ==> final(self).view() == old(self).view(),
            old(self).contains_key(key@) ==> {
                let i = key_index(old(self).view(), key@);
                let e = old(self).view()[i];
                &&& final(self).view() == old(self).view().update(
                    i,
                    Entry { last_used: later(e.last_used, now), ..e },
                )
                &&& *r->0.spec_value() == e.value
            },
    {
        match self.find(key) {
            None => None,
            Some(i) => {
                let ghost s = self.entries@;
                let old_used = self.entries[i].last_used;
                let used = if old_used < now { now } else { old_used };
                self.entries[i].last_used = used;
                assert(keys_unique(self.entries@)) by {
                    let t = self.entries@;
                    assert forall|a: int, b: int| 0 <= a < t.len() && 0 <= b < t.len() && a != b implies
                        #[trigger] t[a].key@ != #[trigger] t[b].key@ by {
                        assert(t[a].key == s[a].key && t[b].key == s[b].key);
                    }
                }
                Some(EntryRef { inner: &self.entries[i].value })
            },
        }
    }

    /// The decay sweep at `now`: drops every entry that is no longer live.
    pub fn reap(&mut self, now: u64)
        requires
            old(self).wf(),
        ensures
            final(self).wf(),
            final(self).same_config(old(self)),
            final(self).view() == reaped(old(self).view(), old(self).spec_expiration(), now),
    {
        let ghost s0 = self.entries@;
        let ghost pred = live_filter::<K, V>(self.expiration, now);
        let mut i: usize = 0;
        let ghost mut j: int = 0;
        while i < self.entries.len()
            invariant
                self.expiration == old(self).expiration,
                self.reap_interval == old(self).reap_interval,
                self.max_size == old(self).max_size,
                s0 == old(self).entries@,
                pred == live_filter::<K, V>(self.expiration, now),
                0 <= j <= s0.len(),
                self.entries@ == s0.subrange(0, j).filter(pred) + s0.subrange(j, s0.len() as int),
                i == s0.subrange(0, j).filter(pred).len(),
                self.entries@.len() == i + (s0.len() - j),
                keys_unique(self.entries@),
            decreases s0.len() - j,
        {
            let ghost before = self.entries@;
            proof {
                lemma_filter_step(s0, pred, j);
            }
            assert(before[i as int] == s0[j]);
            let e = &self.entries[i];
            let live = now <= e.last_used || now - e.last_used <= self.expiration;
            if live {
                assert(self.entries@ =~= s0.subrange(0, j + 1).filter(pred) + s0.subrange(j + 1, s0.len() as int));
                i += 1;
            } else {
                self.entries.remove(i);
                assert(self.entries@ =~= s0.subrange(0, j + 1).filter(pred) + s0.subrange(j + 1, s0.len() as int));
                proof {
                    lemma_remove_unique(before, i as int);
                }
            }
            proof {
                j = j + 1;
            }
        }
        assert(s0.subrange(0, j) == s0);
        assert(self.entries@ =~= s0.filter(pred));
    }

    /// Stores `value` under `key` at `now`. A cache bounded to zero entries
    /// ignores the call; a full cache first evicts its least recently used
    /// entry; a key already present gets the new value and is refreshed.
    pub fn insert(&mut self, key: K, value: V, now: u64)
        requires
            old(self).wf(),
        ensures
            final(self).wf(),
            final(self).same_config(old(self)),
            old(self).spec_max_size() == Some(0usize) ==> final(self).view() == old(self).view(),
            old(self).spec_max_size() != Some(0usize) ==> final(self).view() == inserted(
                old(self).view(),
                key,
                value,
                now,
                old(self).spec_max_size(),
            ),
            old(self).spec_max_size() is Some ==> final(self).view().len() <= old(self).spec_max_size()->0,
    {
        if let Some(m) = self.max_size {
            if m == 0 {
                return;
            }
        }
        match self.find(&key) {
            Some(i) => {
                let ghost s = self.entries@;
                let old_used = self.entries[i].last_used;
                let used = if old_used < now { now } else { old_used };
                let e = Entry { key, value, last_used: used };
                self.entries.set(i, e);
                assert(keys_unique(self.entries@)) by {
                    let t = self.entries@;
                    assert forall|a: int, b: int| 0 <= a < t.len() && 0 <= b < t.len() && a != b implies
                        #[trigger] t[a].key@ != #[trigger] t[b].key@ by {
                        if a != i && b != i {
                            assert(t[a] == s[a] && t[b] == s[b]);
                        } else if a == i {
                            assert(t[b] == s[b]);
                            assert(s[i as int].key@ != s[b].key@);
                        } else {
                            assert(t[a] == s[a]);
                            assert(s[i as int].key@ != s[a].key@);
                        }
                    }
                }
            },
            None => {
                let full = match self.max_size {
                    Some(m) => self.entries.len() >= m,
                    None => false,
                };
                if full {
                    self.remove_lru();
                }
                proof {
                    if full {
                        lemma_remove_keeps_keys(old(self).entries@, lru_index(old(self).entries@));
                    }
                }
                let ghost s = self.entries@;
                assert(forall|b: int| 0 <= b < s.len() ==> has_key(old(self).entries@, #[trigger] s[b].key@));
                self.entries.push(Entry { key, value, last_used: now });
                assert(keys_unique(self.entries@)) by {
                    let t = self.entries@;
                    assert forall|a: int, b: int| 0 <= a < t.len() && 0 <= b < t.len() && a != b implies
                        #[trigger] t[a].key@ != #[trigger] t[b].key@ by {
                        if a < s.len() && b < s.len() {
                            assert(t[a] == s[a] && t[b] == s[b]);
                        } else if a == s.len() {
                            assert(t[b] == s[b]);
                        } else {
                            assert(t[a] == s[a]);
                        }
                    }
                }
            },
        }
    }
}

/// Decay: after a sweep at `swept_at`, within one reap interval of `now`, no
/// remaining entry was last used more than `expiration + reap_interval` before
/// `now`.
pub proof fn lemma_decay<K, V>(
    s: Seq<Entry<K, V>>,
    expiration: u64,
    reap_interval: u64,
    swept_at: u64,
    now: u64,
)
    requires
        swept_at <= now <= swept_at + reap_interval,
    ensures
        forall|i: int|
            0 <= i < reaped(s, expiration, swept_at).len() ==> now <= #[trigger] reaped(
                s,
                expiration,
                swept_at,
            )[i].last_used + expiration + reap_interval,
{
    broadcast use Seq::lemma_filter_pred;

}

/// Decay, per key: after a sweep at `swept_at`, within one reap interval of
/// `now`, a key whose entry was last used more than `expiration +
/// reap_interval` before `now` is gone.
pub proof fn lemma_decay_removes_key<K: View, V>(
    s: Seq<Entry<K, V>>,
    k: K::V,
    expiration: u64,
    reap_interval: u64,
    swept_at: u64,
    now: u64,
)
    requires
        keys_unique(s),
        has_key(s, k),
        s[key_index(s, k)].last_used + expiration + reap_interval < now,
        swept_at <= now <= swept_at + reap_interval,
    ensures
        !has_key(reaped(s, expiration, swept_at), k),
{
    let t = reaped(s, expiration, swept_at);
    if has_key(t, k) {
        let a = choose|a: int| 0 <= a < t.len() && #[trigger] t[a].key@ == k;
        s.lemma_filter_pred(live_filter(expiration, swept_at), a);
        s.lemma_filter_contains_rev(live_filter(expiration, swept_at), t[a]);
        assert(t.contains(t[a]));
        let b = choose|b: int| 0 <= b < s.len() && s[b] == t[a];
        let i = key_index(s, k);
        assert(s[i].key@ == k);
        assert(b == i);
    }
}

/// Eviction order: in a cache bounded to two entries, inserting three
/// distinct keys at non-decreasing instants leaves exactly the last two.
pub proof fn lemma_two_of_three<K: View, V>(
    k1: K,
    k2: K,
    k3: K,
    v1: V,
    v2: V,
    v3: V,
    n1: u64,
    n2: u64,
    n3: u64,
)
    requires
        k1@ != k2@,
        k1@ != k3@,
        k2@ != k3@,
        n1 <= n2,
    ensures
        ({
            let c1 = inserted(Seq::<Entry<K, V>>::empty(), k1, v1, n1, Some(2usize));
            let c2 = inserted(c1, k2, v2, n2, Some(2usize));
            let c3 = inserted(c2, k3, v3, n3, Some(2usize));
            &&& c3.len() == 2
            &&& !has_key(c3, k1@)
            &&& has_key(c3, k2@)
            &&& has_key(c3, k3@)
        }),
{
    let c0 = Seq::<Entry<K, V>>::empty();
    let c1 = inserted(c0, k1, v1, n1, Some(2usize));
    assert(!has_key(c0, k1@));
    assert(c1 == seq![Entry { key: k1, value: v1, last_used: n1 }]);
    let c2 = inserted(c1, k2, v2, n2, Some(2usize));
    assert(!has_key(c1, k2@)) by {
        if has_key(c1, k2@) {
            let a = choose|a: int| 0 <= a < c1.len() && #[trigger] c1[a].key@ == k2@;
            assert(a == 0);
        }
    }
    assert(c2 == c1.push(Entry { key: k2, value: v2, last_used: n2 }));
    assert(!has_key(c2, k3@)) by {
        if has_key(c2, k3@) {
            let a = choose|a: int| 0 <= a < c2.len() && #[trigger] c2[a].key@ == k3@;
            assert(a == 0 || a == 1);
        }
    }
    assert(is_lru_index(c2, 0));
    lemma_lru_index_unique(c2, 0);
    let c3 = inserted(c2, k3, v3, n3, Some(2usize));
    assert(c2.remove(0) =~= seq![c2[1]]);
    assert(c3 =~= seq![c2[1], Entry { key: k3, value: v3, last_used: n3 }]);
    assert(c3[0].key@ == k2@);
    assert(c3[1].key@ == k3@);
    assert(!has_key(c3, k1@)) by {
        if has_key(c3, k1@) {
            let a = choose|a: int| 0 <= a < c3.len() && #[trigger] c3[a].key@ == k1@;
            assert(a == 0 || a == 1);
        }
    }
}

/// Configuration of an `ExpiringLru`.
pub struct Builder<K, V> {
    expiration: u64,
    reap_interval: u64,
    max_size: Option<usize>,
    _marker: PhantomData<(K, V)>,
}

impl<K: CacheKey, V> Builder<K, V> {
    pub closed spec fn spec_expiration(&self) -> u64 {
        self.expiration
    }

    pub closed spec fn spec_reap_interval(&self) -> u64 {
        self.reap_interval
    }

    pub closed spec fn spec_max_size(&self) -> Option<usize> {
        self.max_size
    }

    /// One hour of idle time, a sweep every ten minutes, no size bound.
    pub fn new() -> (r: Self)
        ensures
            r.spec_expiration() == DEFAULT_EXPIRATION_MS,
            r.spec_reap_interval() == DEFAULT_REAP_INTERVAL_MS,
            r.spec_max_size() is None,
    {
        Builder {
            expiration: DEFAULT_EXPIRATION_MS,
            reap_interval: DEFAULT_REAP_INTERVAL_MS,
            max_size: None,
            _marker: PhantomData,
        }
    }

    /// Sets the idle timeout, in milliseconds.
    pub fn expiration(self, expiration: u64) -> (r: Self)
        ensures
            r.spec_expiration() == expiration,
            r.spec_reap_interval() == self.spec_reap_interval(),
            r.spec_max_size() == self.spec_max_size(),
    {
        Builder { expiration, ..self }
    }

    /// Sets the period of the decay sweep, in milliseconds.
    pub fn reap_interval(self, reap_interval: u64) -> (r: Self)
        ensures
            r.spec_expiration() == self.spec_expiration(),
            r.spec_reap_interval() == reap_interval,
            r.spec_max_size() == self.spec_max_size(),
    {
        Builder { reap_interval, ..self }
    }

    /// Bounds the number of entries; zero disables the cache.
    pub fn max_size(self, size: usize) -> (r: Self)
        ensures
            r.spec_expiration() == self.spec_expiration(),
            r.spec_reap_interval() == self.spec_reap_interval(),
            r.spec_max_size() == Some(size),
    {
        Builder { max_size: Some(size), ..self }
    }

    pub fn build(self) -> (r: ExpiringLru<K, V>)
        ensures
            r.wf(),
            r.view() == Seq::<Entry<K, V>>::empty(),
            r.spec_expiration() == self.spec_expiration(),
            r.spec_reap_interval() == self.spec_reap_interval(),
            r.spec_max_size() == self.spec_max_size(),
    {
        ExpiringLru::new(self.expiration, self.reap_interval, self.max_size)
    }
}

} // verus!
