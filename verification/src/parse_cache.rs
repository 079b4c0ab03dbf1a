//! Bounded, content-addressed cache of parse results with FIFO eviction.
//!
//! An entry is keyed by the content hash and the PHP version's cache byte. A
//! record of insertion order drives eviction; removing an entry leaves its
//! key in that record, and eviction skips over such stale keys.
use vstd::prelude::*;
use crate::text::first_where;

verus! {

/// Default entry cap.
pub const DEFAULT_CAPACITY: usize = 6144;

/// `(content hash, PHP version cache byte)`.
pub type CacheKey = ([u8; 32], u8);

/// A key as plain values.
pub type KeyView = (Seq<u8>, u8);

pub open spec fn key_view(k: CacheKey) -> KeyView {
    (k.0@, k.1)
}

/// Whether the entry at an index has key `k`.
pub open spec fn key_at<V>(es: Seq<(KeyView, V)>, k: KeyView) -> spec_fn(int) -> bool {
    |i: int| es[i].0 == k
}

/// Index of the entry for `k` (`es.len()` when there is none).
pub open spec fn index_of_key<V>(es: Seq<(KeyView, V)>, k: KeyView) -> int {
    first_where(es.len() as int, key_at(es, k), 0)
}

/// The value cached for `k`.
pub open spec fn lookup<V>(es: Seq<(KeyView, V)>, k: KeyView) -> Option<V> {
    let i = index_of_key(es, k);
    if i < es.len() {
        Some(es[i].1)
    } else {
        None
    }
}

/// `es` without the entry for `k`.
pub open spec fn remove_key<V>(es: Seq<(KeyView, V)>, k: KeyView) -> Seq<(KeyView, V)> {
    let i = index_of_key(es, k);
    if i < es.len() {
        es.remove(i)
    } else {
        es
    }
}

/// Drop keys from the front of `order` (and their entries, if still there)
/// while there are more than `cap` entries.
pub open spec fn evict<V>(es: Seq<(KeyView, V)>, order: Seq<KeyView>, cap: nat) -> (
    Seq<(KeyView, V)>,
    Seq<KeyView>,
)
    decreases order.len(),
{
    if es.len() <= cap || order.len() == 0 {
        (es, order)
    } else {
        evict(remove_key(es, order[0]), order.drop_first(), cap)
    }
}

/// The entries and order after inserting `v` under `k`: a present key gets
/// the new value in place; a new key is appended to both, then the oldest
/// keys are evicted down to `cap` entries.
pub open spec fn inserted<V>(es: Seq<(KeyView, V)>, order: Seq<KeyView>, cap: nat, k: KeyView, v: V) -> (
    Seq<(KeyView, V)>,
    Seq<KeyView>,
) {
    let i = index_of_key(es, k);
    if i < es.len() {
        (es.update(i, (k, v)), order)
    } else {
        evict(es.push((k, v)), order.push(k), cap)
    }
}

pub open spec fn keys_distinct<V>(es: Seq<(KeyView, V)>) -> bool {
    forall|i: int, j: int| 0 <= i < j < es.len() ==> es[i].0 != es[j].0
}

pub open spec fn keys_recorded<V>(es: Seq<(KeyView, V)>, order: Seq<KeyView>) -> bool {
    forall|i: int| 0 <= i < es.len() ==> #[trigger] order.contains(es[i].0)
}

/// What every cache keeps: at least room for one entry, one entry per key,
/// every key in the insertion record, and no more entries than the cap.
pub open spec fn cache_wf<V>(es: Seq<(KeyView, V)>, order: Seq<KeyView>, cap: nat) -> bool {
    &&& cap >= 1
    &&& keys_distinct(es)
    &&& keys_recorded(es, order)
    &&& es.len() <= cap
}

/// Content-hash-keyed, capacity-bounded cache.
pub struct ParseCache<V> {
    entries: Vec<(CacheKey, V)>,
    /// Insertion order of keys, for FIFO eviction; may hold keys already
    /// removed.
    order: Vec<CacheKey>,
    capacity: usize,
}

impl<V> ParseCache<V> {
    pub closed spec fn entries_view(&self) -> Seq<(KeyView, V)> {
        self.entries@.map_values(|e: (CacheKey, V)| (key_view(e.0), e.1))
    }

    pub closed spec fn order_view(&self) -> Seq<KeyView> {
        self.order@.map_values(|k: CacheKey| key_view(k))
    }

    pub closed spec fn cap(&self) -> nat {
        self.capacity as nat
    }

    pub open spec fn wf(&self) -> bool {
        cache_wf(self.entries_view(), self.order_view(), self.cap())
    }
}

/// Remove-by-index leaves the other entries, keeps keys distinct, and
/// removes exactly the entry for the key at that index.
proof fn lemma_remove_key_props<V>(es: Seq<(KeyView, V)>, k: KeyView)
    requires
        keys_distinct(es),
    ensures
        keys_distinct(remove_key(es, k)),
        forall|x: KeyView| x != k ==> lookup(remove_key(es, k), x) == lookup(es, x),
        lookup(remove_key(es, k), k) is None,
        forall|i: int| 0 <= i < remove_key(es, k).len() ==> (exists|j: int|
            0 <= j < es.len() && es[j].0 != k && #[trigger] remove_key(es, k)[i] == es[j]),
        remove_key(es, k).len() == es.len() || remove_key(es, k).len() == es.len() - 1,
{
    let n = es.len() as int;
    let p = key_at(es, k);
    crate::text::lemma_first_where_bounds(n, p, 0);
    let i = index_of_key(es, k);
    let r = remove_key(es, k);
    if i < n {
        assert(r == es.remove(i));
        assert(r.len() == n - 1);
        assert forall|t: int| 0 <= t < r.len() implies #[trigger] r[t] == es[if t < i { t } else { t + 1 }] by {
        }
        assert forall|a: int, b: int| 0 <= a < b < r.len() implies r[a].0 != r[b].0 by {
            let a0 = if a < i { a } else { a + 1 };
            let b0 = if b < i { b } else { b + 1 };
            assert(r[a] == es[a0]);
            assert(r[b] == es[b0]);
        }
        assert forall|t: int| 0 <= t < r.len() implies (exists|j: int|
            0 <= j < es.len() && es[j].0 != k && #[trigger] r[t] == es[j]) by {
            let j = if t < i { t } else { t + 1 };
            assert(r[t] == es[j]);
            assert(es[j].0 != k) by {
                if es[j].0 == k {
                    assert(es[j].0 == es[i].0);
                }
            }
        }
        assert forall|x: KeyView| x != k implies lookup(r, x) == lookup(es, x) by {
            let q = key_at(es, x);
            let qr = key_at(r, x);
            crate::text::lemma_first_where_bounds(n, q, 0);
            crate::text::lemma_first_where_bounds(r.len() as int, qr, 0);
            let jx = index_of_key(es, x);
            let jr = index_of_key(r, x);
            if jx < n {
                assert(jx != i);
                let t = if jx < i { jx } else { jx - 1 };
                assert(r[t] == es[jx]);
                assert(q(jx));
                assert(qr(t));
                assert(jr <= t);
                if jr < t {
                    let s0 = if jr < i { jr } else { jr + 1 };
                    assert(r[jr] == es[s0]);
                    assert(s0 != jx);
                }
                assert(jr == t);
            } else {
                if jr < r.len() {
                    let s0 = if jr < i { jr } else { jr + 1 };
                    assert(r[jr] == es[s0]);
                    assert(qr(jr));
                    assert(q(s0));
                }
            }
        }
        let qk = key_at(r, k);
        crate::text::lemma_first_where_bounds(r.len() as int, qk, 0);
        if index_of_key(r, k) < r.len() {
            let t = index_of_key(r, k);
            let s0 = if t < i { t } else { t + 1 };
            assert(r[t] == es[s0]);
            assert(es[s0].0 == es[i].0);
        }
    } else {
        assert forall|t: int| 0 <= t < r.len() implies (exists|j: int|
            0 <= j < es.len() && es[j].0 != k && #[trigger] r[t] == es[j]) by {
            assert(r[t] == es[t]);
            assert(!p(t));
        }
    }
}

/// Eviction keeps the cache well formed when every key is recorded.
proof fn lemma_evict_wf<V>(es: Seq<(KeyView, V)>, order: Seq<KeyView>, cap: nat)
    requires
        cap >= 1,
        keys_distinct(es),
        keys_recorded(es, order),
    ensures
        cache_wf(evict(es, order, cap).0, evict(es, order, cap).1, cap),
    decreases order.len(),
{
    if es.len() <= cap {
    } else if order.len() == 0 {
        if es.len() > 0 {
            assert(order.contains(es[0].0));
        }
    } else {
        let k = order[0];
        let r = remove_key(es, k);
        lemma_remove_key_props(es, k);
        let o = order.drop_first();
        assert forall|i: int| 0 <= i < r.len() implies #[trigger] o.contains(r[i].0) by {
            let j = choose|j: int| 0 <= j < es.len() && es[j].0 != k && #[trigger] r[i] == es[j];
            assert(order.contains(es[j].0));
            let t = choose|t: int| 0 <= t < order.len() && order[t] == es[j].0;
            assert(t != 0);
            assert(o[t - 1] == r[i].0);
        }
        lemma_evict_wf(r, o, cap);
    }
}

/// Eviction never drops the newest key when it is recorded once, at the end.
proof fn lemma_evict_keeps_last<V>(es: Seq<(KeyView, V)>, order: Seq<KeyView>, cap: nat, k: KeyView)
    requires
        cap >= 1,
        keys_distinct(es),
        keys_recorded(es, order),
        order.len() > 0,
        order.last() == k,
        forall|t: int| 0 <= t < order.len() - 1 ==> order[t] != k,
        lookup(es, k) is Some,
    ensures
        lookup(evict(es, order, cap).0, k) == lookup(es, k),
    decreases order.len(),
{
    if es.len() <= cap {
    } else {
        let k0 = order[0];
        if order.len() == 1 {
            assert forall|i: int| 0 <= i < es.len() implies es[i].0 == k by {
                assert(order.contains(es[i].0));
            }
            assert(es.len() <= 1) by {
                if es.len() > 1 {
                    assert(es[0].0 == es[1].0);
                }
            }
        } else {
            assert(k0 != k);
            let r = remove_key(es, k0);
            lemma_remove_key_props(es, k0);
            let o = order.drop_first();
            assert forall|i: int| 0 <= i < r.len() implies #[trigger] o.contains(r[i].0) by {
                let j = choose|j: int| 0 <= j < es.len() && es[j].0 != k0 && #[trigger] r[i] == es[j];
                assert(order.contains(es[j].0));
                let t = choose|t: int| 0 <= t < order.len() && order[t] == es[j].0;
                assert(t != 0);
                assert(o[t - 1] == r[i].0);
            }
            assert(o.last() == k);
            assert forall|t: int| 0 <= t < o.len() - 1 implies o[t] != k by {
                assert(o[t] == order[t + 1]);
            }
            lemma_evict_keeps_last(r, o, cap, k);
        }
    }
}

/// Reading back what was just inserted gives the inserted value, unless the
/// key was removed earlier and re-inserted while its stale record is still
/// queued for eviction.
pub proof fn lemma_get_after_insert<V>(
    es: Seq<(KeyView, V)>,
    order: Seq<KeyView>,
    cap: nat,
    k: KeyView,
    v: V,
)
    requires
        cache_wf(es, order, cap),
        lookup(es, k) is Some || !order.contains(k),
    ensures
        lookup(inserted(es, order, cap, k, v).0, k) == Some(v),
        cache_wf(inserted(es, order, cap, k, v).0, inserted(es, order, cap, k, v).1, cap),
{
    let n = es.len() as int;
    let p = key_at(es, k);
    crate::text::lemma_first_where_bounds(n, p, 0);
    let i = index_of_key(es, k);
    if i < n {
        let u = es.update(i, (k, v));
        let pu = key_at(u, k);
        crate::text::lemma_first_where_bounds(n, pu, 0);
        assert(u[i] == (k, v));
        assert(pu(i));
        assert forall|a: int, b: int| 0 <= a < b < u.len() implies u[a].0 != u[b].0 by {
            if a != i && b != i {
                assert(u[a] == es[a] && u[b] == es[b]);
            } else if a == i {
                assert(u[b] == es[b]);
                assert(es[b].0 != es[i].0);
            } else {
                assert(u[a] == es[a]);
                assert(es[a].0 != es[i].0);
            }
        }
        assert forall|t: int| 0 <= t < u.len() implies #[trigger] order.contains(u[t].0) by {
            if t != i {
                assert(u[t] == es[t]);
            }
            assert(order.contains(es[t].0));
        }
    } else {
        let e = es.push((k, v));
        let o = order.push(k);
        assert forall|a: int, b: int| 0 <= a < b < e.len() implies e[a].0 != e[b].0 by {
            if b == n {
                assert(!p(a));
            }
        }
        assert forall|t: int| 0 <= t < e.len() implies #[trigger] o.contains(e[t].0) by {
            if t < n {
                assert(order.contains(es[t].0));
                let w = choose|w: int| 0 <= w < order.len() && order[w] == es[t].0;
                assert(o[w] == es[t].0);
            } else {
                assert(o[order.len() as int] == k);
            }
        }
        assert forall|t: int| 0 <= t < o.len() - 1 implies o[t] != k by {
            assert(o[t] == order[t]);
        }
        let pe = key_at(e, k);
        crate::text::lemma_first_where_bounds(e.len() as int, pe, 0);
        assert(pe(n));
        lemma_evict_keeps_last(e, o, cap, k);
        lemma_evict_wf(e, o, cap);
    }
}

/// After an entry is removed nothing is cached under its key, and every
/// other key reads as before.
pub proof fn lemma_get_after_remove<V>(es: Seq<(KeyView, V)>, k: KeyView)
    requires
        keys_distinct(es),
    ensures
        lookup(remove_key(es, k), k) is None,
        forall|x: KeyView| x != k ==> #[trigger] lookup(remove_key(es, k), x) == lookup(es, x),
{
    lemma_remove_key_props(es, k);
}

fn key_eq(a: &CacheKey, b: &CacheKey) -> (r: bool)
    ensures
        r == (key_view(*a) == key_view(*b)),
{
    if a.1 != b.1 {
        return false;
    }
    let mut i: usize = 0;
    while i < 32
        invariant
            i <= 32,
            a.0@.len() == 32,
            b.0@.len() == 32,
            forall|t: int| 0 <= t < i ==> a.0@[t] == b.0@[t],
        decreases 32 - i,
    {
        if a.0[i] != b.0[i] {
            return false;
        }
        i = i + 1;
    }
    proof {
        assert(a.0@ =~= b.0@);
    }
    true
}

impl<V> ParseCache<V> {
    fn find(&self, key: &CacheKey) -> (r: usize)
        ensures
            r == index_of_key(self.entries_view(), key_view(*key)),
            r <= self.entries@.len(),
    {
        let ghost es = self.entries_view();
        let ghost p = key_at(es, key_view(*key));
        let mut i: usize = 0;
        while i < self.entries.len()
            invariant
                i <= self.entries@.len(),
                es == self.entries_view(),
                p == key_at(es, key_view(*key)),
                forall|t: int| 0 <= t < i ==> !#[trigger] p(t),
            decreases self.entries.len() - i,
        {
            if key_eq(&self.entries[i].0, key) {
                proof {
                    assert(p(i as int));
                    crate::text::lemma_first_where_at(es.len() as int, p, 0, i as int);
                }
                return i;
            }
            i = i + 1;
        }
        proof {
            crate::text::lemma_first_where_at(es.len() as int, p, 0, es.len() as int);
        }
        i
    }

    /// An empty cache holding at most `max(capacity, 1)` entries.
    pub fn with_capacity(capacity: usize) -> (r: Self)
        ensures
            r.wf(),
            r.entries_view() == Seq::<(KeyView, V)>::empty(),
            r.order_view() == Seq::<KeyView>::empty(),
            r.cap() == if capacity >= 1 {
                capacity as nat
            } else {
                1nat
            },
    {
        let r = ParseCache {
            entries: Vec::new(),
            order: Vec::new(),
            capacity: if capacity >= 1 {
                capacity
            } else {
                1
            },
        };
        proof {
            assert(r.entries_view() =~= Seq::<(KeyView, V)>::empty());
            assert(r.order_view() =~= Seq::<KeyView>::empty());
        }
        r
    }

    /// The entry cached for `hash` and PHP version byte `php_v`.
    pub fn get(&self, hash: &[u8; 32], php_v: u8) -> (r: Option<&V>)
        ensures
            match lookup(self.entries_view(), (hash@, php_v)) {
                Some(v) => r matches Some(x) && *x == v,
                None => r is None,
            },
    {
        let key = (*hash, php_v);
        let i = self.find(&key);
        if i < self.entries.len() {
            Some(&self.entries[i].1)
        } else {
            None
        }
    }

    /// Cache `value` for `hash` and `php_v`. A key already present keeps its
    /// place and gets the new value; a new key is queued last and the oldest
    /// keys are evicted while the cache is over capacity.
    pub fn insert(&mut self, hash: [u8; 32], php_v: u8, value: V)
        requires
            old(self).wf(),
        ensures
            final(self).wf(),
            final(self).cap() == old(self).cap(),
            (final(self).entries_view(), final(self).order_view()) == inserted(
                old(self).entries_view(),
                old(self).order_view(),
                old(self).cap(),
                (hash@, php_v),
                value,
            ),
    {
        let key: CacheKey = (hash, php_v);
        let ghost es0 = self.entries_view();
        let ghost o0 = self.order_view();
        let i = self.find(&key);
        if i < self.entries.len() {
            self.entries.set(i, (key, value));
            proof {
                assert(self.entries_view() =~= es0.update(i as int, (key_view(key), value)));
                lemma_get_after_insert(es0, o0, self.cap(), key_view(key), value);
            }
            return;
        }
        self.entries.push((key, value));
        self.order.push(key);
        proof {
            assert(self.entries_view() =~= es0.push((key_view(key), value)));
            assert(self.order_view() =~= o0.push(key_view(key)));
        }
        let ghost target = evict(self.entries_view(), self.order_view(), self.cap());
        proof {
            let e = es0.push((key_view(key), value));
            let o = o0.push(key_view(key));
            crate::text::lemma_first_where_bounds(es0.len() as int, key_at(es0, key_view(key)), 0);
            assert forall|a: int, b: int| 0 <= a < b < e.len() implies e[a].0 != e[b].0 by {
                if b == es0.len() {
                    assert(!key_at(es0, key_view(key))(a));
                }
            }
            assert forall|t: int| 0 <= t < e.len() implies #[trigger] o.contains(e[t].0) by {
                if t < es0.len() {
                    assert(o0.contains(es0[t].0));
                    let w = choose|w: int| 0 <= w < o0.len() && o0[w] == es0[t].0;
                    assert(o[w] == es0[t].0);
                } else {
                    assert(o[o0.len() as int] == key_view(key));
                }
            }
        }
        let ghost cap0 = self.capacity;
        while self.entries.len() > self.capacity && self.order.len() > 0
            invariant
                self.capacity == cap0,
                self.capacity >= 1,
                keys_distinct(self.entries_view()),
                keys_recorded(self.entries_view(), self.order_view()),
                evict(self.entries_view(), self.order_view(), self.cap()) == target,
            decreases self.order.len(),
        {
            let ghost e1 = self.entries_view();
            let ghost o1 = self.order_view();
            let oldest = self.order.remove(0);
            proof {
                assert(self.order_view() =~= o1.drop_first());
                assert(key_view(oldest) == o1[0]);
                lemma_remove_key_props(e1, o1[0]);
            }
            let j = self.find(&oldest);
            if j < self.entries.len() {
                self.entries.remove(j);
                proof {
                    assert(self.entries_view() =~= e1.remove(j as int));
                }
            }
            proof {
                assert(self.entries_view() == remove_key(e1, o1[0]));
                let r = self.entries_view();
                let o = self.order_view();
                assert forall|t: int| 0 <= t < r.len() implies #[trigger] o.contains(r[t].0) by {
                    let w = choose|w: int| 0 <= w < e1.len() && e1[w].0 != o1[0] && #[trigger] r[t] == e1[w];
                    assert(o1.contains(e1[w].0));
                    let q = choose|q: int| 0 <= q < o1.len() && o1[q] == e1[w].0;
                    assert(q != 0);
                    assert(o[q - 1] == r[t].0);
                }
            }
        }
        proof {
            lemma_evict_wf(self.entries_view(), self.order_view(), self.cap());
        }
    }

    /// Drop the entry for `hash` and `php_v`, if any; its key stays queued.
    pub fn remove(&mut self, hash: &[u8; 32], php_v: u8)
        requires
            old(self).wf(),
        ensures
            final(self).wf(),
            final(self).cap() == old(self).cap(),
            final(self).order_view() == old(self).order_view(),
            final(self).entries_view() == remove_key(old(self).entries_view(), (hash@, php_v)),
    {
        let key: CacheKey = (*hash, php_v);
        let ghost e1 = self.entries_view();
        let i = self.find(&key);
        proof {
            lemma_remove_key_props(e1, key_view(key));
        }
        if i < self.entries.len() {
            self.entries.remove(i);
            proof {
                assert(self.entries_view() =~= e1.remove(i as int));
            }
        }
        proof {
            let r = self.entries_view();
            assert forall|t: int| 0 <= t < r.len() implies #[trigger] self.order_view().contains(r[t].0) by {
                let w = choose|w: int| 0 <= w < e1.len() && e1[w].0 != key_view(key) && #[trigger] r[t] == e1[w];
                assert(self.order_view().contains(e1[w].0));
            }
        }
    }

    /// Number of cached entries.
    pub fn len(&self) -> (r: usize)
        ensures
            r == self.entries_view().len(),
    {
        self.entries.len()
    }

    pub fn is_empty(&self) -> (r: bool)
        ensures
            r == (self.entries_view().len() == 0),
    {
        self.entries.len() == 0
    }
}

impl<V> Default for ParseCache<V> {
    fn default() -> (r: Self)
        ensures
            r.wf(),
            r.entries_view() == Seq::<(KeyView, V)>::empty(),
            r.cap() == DEFAULT_CAPACITY,
    {
        Self::with_capacity(DEFAULT_CAPACITY)
    }
}

} // verus!
