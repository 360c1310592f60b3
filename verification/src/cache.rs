//! The note-title cache: a time-limited map from keys to strings, held in a
//! `ttl_cache::TtlCache` of a thousand entries.

use std::collections::hash_map::RandomState;
use std::hash::BuildHasher;
use std::hash::Hash;
use std::time::Duration;
use ttl_cache::TtlCache;
use vstd::prelude::*;

verus! {

#[verifier::external_type_specification]
#[verifier::external_body]
#[verifier::reject_recursive_types(K)]
#[verifier::reject_recursive_types(V)]
#[verifier::reject_recursive_types(S)]
pub struct ExTtlCache<K: Eq + Hash, V, S: BuildHasher>(TtlCache<K, V, S>);

/// The entries a `TtlCache` stores, expired or not, by the views of their
/// keys and values.
pub uninterp spec fn ttl_stored(c: TtlCache<String, String, RandomState>) -> Map<Seq<char>, Seq<char>>;

/// The keys a `TtlCache` stores, expired or not, in the order they were
/// stored or last stored again, oldest first (the order of its
/// `LinkedHashMap`).
pub uninterp spec fn ttl_order(c: TtlCache<String, String, RandomState>) -> Seq<Seq<char>>;

/// The capacity a `TtlCache` was made with.
pub uninterp spec fn ttl_capacity(c: TtlCache<String, String, RandomState>) -> nat;

/// `order` without the key `k`.
pub open spec fn without_key(order: Seq<Seq<char>>, k: Seq<char>) -> Seq<Seq<char>>
    decreases order.len(),
{
    if order.len() == 0 {
        order
    } else {
        let pre = without_key(order.drop_last(), k);
        if order.last() == k {
            pre
        } else {
            pre.push(order.last())
        }
    }
}

/// The storing order after `k` is stored: `k` moves to the newest end.
pub open spec fn refreshed(order: Seq<Seq<char>>, k: Seq<char>) -> Seq<Seq<char>> {
    without_key(order, k).push(k)
}

/// Whether storing `k` in a cache of capacity `cap` whose storing order is
/// `order` drops the oldest entry (the first of `refreshed(order, k)`).
pub open spec fn store_evicts(order: Seq<Seq<char>>, k: Seq<char>, cap: nat) -> bool {
    refreshed(order, k).len() > cap
}

/// `TtlCache::new(capacity)`: an empty cache that holds at most `capacity` entries.
#[verifier::external_body]
fn ttl_new(capacity: usize) -> (c: TtlCache<String, String, RandomState>)
    ensures
        ttl_stored(c) =~= Map::empty(),
        ttl_order(c) =~= Seq::empty(),
        ttl_capacity(c) == capacity,
{
    TtlCache::new(capacity)
}

/// `TtlCache::get`: the value stored under `k` while it has not expired.
/// Whether a stored entry has expired depends on the clock, so a stored key
/// may give `None`; a key that is not stored always does.
#[verifier::external_body]
fn ttl_get(c: &TtlCache<String, String, RandomState>, k: &str) -> (r: Option<String>)
    ensures
        r matches Some(v) ==> ttl_stored(*c).contains_key(k@) && ttl_stored(*c)[k@] == v@,
        !ttl_stored(*c).contains_key(k@) ==> r is None,
{
    c.get(k).cloned()
}

/// `TtlCache::insert`: stores `v` under `k` for `secs` seconds, moving `k` to
/// the newest end of the storing order; when the cache then holds more
/// entries than its capacity, the oldest one (`LinkedHashMap::pop_front`) is
/// dropped. `secs` is bounded so that the expiry instant cannot overflow.
#[verifier::external_body]
fn ttl_insert(c: &mut TtlCache<String, String, RandomState>, k: String, v: String, secs: u64)
    requires
        secs <= ONE_HOUR_SECS,
    ensures
        ttl_capacity(*final(c)) == ttl_capacity(*old(c)),
        ttl_order(*final(c)) == (if store_evicts(ttl_order(*old(c)), k@, ttl_capacity(*old(c))) {
            refreshed(ttl_order(*old(c)), k@).drop_first()
        } else {
            refreshed(ttl_order(*old(c)), k@)
        }),
        ttl_stored(*final(c)) == (if store_evicts(ttl_order(*old(c)), k@, ttl_capacity(*old(c))) {
            ttl_stored(*old(c)).insert(k@, v@).remove(refreshed(ttl_order(*old(c)), k@)[0])
        } else {
            ttl_stored(*old(c)).insert(k@, v@)
        }),
{
    c.insert(k, v, Duration::from_secs(secs));
}

/// `TtlCache::remove`: the entry under `k` is no longer stored, nor in the
/// storing order; the others stay.
#[verifier::external_body]
fn ttl_remove(c: &mut TtlCache<String, String, RandomState>, k: &str)
    ensures
        ttl_capacity(*final(c)) == ttl_capacity(*old(c)),
        ttl_stored(*final(c)) == ttl_stored(*old(c)).remove(k@),
        ttl_order(*final(c)) == without_key(ttl_order(*old(c)), k@),
{
    c.remove(k);
}

/// How many entries the cache keeps at most.
pub const CACHE_CAPACITY: usize = 1000;

/// How long, in seconds, `cache_set_1h` keeps an entry.
pub const ONE_HOUR_SECS: u64 = 3600;

/// A time-limited cache of strings by string keys.
pub struct Cache {
    entries: TtlCache<String, String, RandomState>,
}

impl View for Cache {
    type V = Map<Seq<char>, Seq<char>>;

    /// The entries stored, expired ones included.
    closed spec fn view(&self) -> Map<Seq<char>, Seq<char>> {
        ttl_stored(self.entries)
    }
}

/// The entries `m` and the storing order `order` agree: the order lists each
/// stored key once, and no more than a thousand of them.
pub open spec fn consistent(m: Map<Seq<char>, Seq<char>>, order: Seq<Seq<char>>) -> bool {
    &&& order.no_duplicates()
    &&& forall|x: Seq<char>|
        #![trigger order.contains(x)]
        #![trigger m.contains_key(x)]
        order.contains(x) <==> m.contains_key(x)
    &&& order.len() <= CACHE_CAPACITY
}

impl Cache {
    /// The stored keys, oldest stored (or stored again) first.
    pub closed spec fn recency(&self) -> Seq<Seq<char>> {
        ttl_order(self.entries)
    }

    /// The cache holds at most a thousand entries, in a storing order.
    pub closed spec fn wf(&self) -> bool {
        &&& ttl_capacity(self.entries) == CACHE_CAPACITY
        &&& consistent(self@, self.recency())
    }

    /// An empty cache.
    pub fn new() -> (c: Cache)
        ensures
            c.wf(),
            consistent(c@, c.recency()),
            c@ =~= Map::empty(),
            c.recency() =~= Seq::empty(),
    {
        let c = Cache { entries: ttl_new(CACHE_CAPACITY) };
        assert(consistent(c@, c.recency()));
        c
    }
}

/// A well-formed cache's entries and storing order agree.
pub proof fn lemma_wf_consistent(c: &Cache)
    requires
        c.wf(),
    ensures
        consistent(c@, c.recency()),
{
}

/// When the entries and the storing order agree, the cache holds as many
/// entries as the order lists keys, so never more than a thousand.
pub proof fn law_entry_count(m: Map<Seq<char>, Seq<char>>, order: Seq<Seq<char>>)
    requires
        consistent(m, order),
    ensures
        m.dom().finite(),
        m.dom().len() == order.len(),
        m.dom().len() <= CACHE_CAPACITY,
{
    assert(m.dom() =~= order.to_set()) by {
        assert forall|x: Seq<char>| m.dom().contains(x) <==> order.to_set().contains(x) by {
            if m.contains_key(x) {
                assert(order.contains(x));
            }
            if order.to_set().contains(x) {
                assert(order.contains(x));
            }
        }
    }
    order.unique_seq_to_set();
}

/// What a lookup of `k` may answer when the cache stores `m`: a value only
/// if it is the one stored under `k`, and nothing when `k` is not stored.
pub open spec fn lookup_allows(m: Map<Seq<char>, Seq<char>>, k: Seq<char>, r: Option<Seq<char>>) -> bool {
    &&& r matches Some(v) ==> m.contains_key(k) && m[k] == v
    &&& !m.contains_key(k) ==> r is None
}

/// The storing order after `k` is stored in the cache.
pub open spec fn order_after_store(order: Seq<Seq<char>>, k: Seq<char>) -> Seq<Seq<char>> {
    if store_evicts(order, k, CACHE_CAPACITY as nat) {
        refreshed(order, k).drop_first()
    } else {
        refreshed(order, k)
    }
}

/// The entries after `v` is stored under `k` in the cache: `k` maps to `v`,
/// and when that makes more than a thousand entries, the one stored (or
/// stored again) longest ago is dropped.
pub open spec fn entries_after_store(
    m: Map<Seq<char>, Seq<char>>,
    order: Seq<Seq<char>>,
    k: Seq<char>,
    v: Seq<char>,
) -> Map<Seq<char>, Seq<char>> {
    if store_evicts(order, k, CACHE_CAPACITY as nat) {
        m.insert(k, v).remove(refreshed(order, k)[0])
    } else {
        m.insert(k, v)
    }
}

/// What removing `k` does to a storing order: it keeps the other keys, in
/// their order, each once.
pub proof fn lemma_without_key(order: Seq<Seq<char>>, k: Seq<char>)
    ensures
        forall|x: Seq<char>|
            #[trigger] without_key(order, k).contains(x) <==> (order.contains(x) && x != k),
        order.no_duplicates() ==> without_key(order, k).no_duplicates(),
        order.no_duplicates() ==> without_key(order, k).len() == (if order.contains(k) {
            order.len() - 1
        } else {
            order.len() as int
        }),
    decreases order.len(),
{
    if order.len() > 0 {
        let t = order.drop_last();
        let l = order.last();
        lemma_without_key(t, k);
        let pre = without_key(t, k);
        assert(order == t.push(l));
        assert forall|x: Seq<char>| #[trigger] without_key(order, k).contains(x) <==> (order.contains(x) && x != k) by {
            if order.contains(x) && x != k {
                let i = choose|i: int| 0 <= i < order.len() && order[i] == x;
                if i < t.len() {
                    assert(t[i] == x);
                    assert(t.contains(x));
                    assert(pre.contains(x));
                    if l != k {
                        let j = choose|j: int| 0 <= j < pre.len() && pre[j] == x;
                        assert(pre.push(l)[j] == x);
                    }
                } else {
                    assert(l == x);
                    assert(pre.push(l)[pre.len() as int] == x);
                }
            }
            if without_key(order, k).contains(x) {
                if l != k {
                    let j = choose|j: int| 0 <= j < pre.len() + 1 && pre.push(l)[j] == x;
                    if j < pre.len() {
                        assert(pre[j] == x);
                        assert(pre.contains(x));
                        let i = choose|i: int| 0 <= i < t.len() && t[i] == x;
                        assert(order[i] == x);
                    } else {
                        assert(order[order.len() - 1] == x);
                    }
                } else {
                    let i = choose|i: int| 0 <= i < t.len() && t[i] == x;
                    assert(order[i] == x);
                }
            }
        }
        if order.no_duplicates() {
            assert(t.no_duplicates()) by {
                assert forall|i: int, j: int| 0 <= i < t.len() && 0 <= j < t.len() && i != j implies t[i] != t[j] by {
                    assert(t[i] == order[i] && t[j] == order[j]);
                }
            }
            assert(!t.contains(l)) by {
                if t.contains(l) {
                    let i = choose|i: int| 0 <= i < t.len() && t[i] == l;
                    assert(order[i] == order[order.len() - 1]);
                }
            }
            if l != k {
                assert(!pre.contains(l));
                assert forall|i: int, j: int| 0 <= i < pre.push(l).len() && 0 <= j < pre.push(l).len() && i != j implies pre.push(l)[i] != pre.push(l)[j] by {
                    if i == pre.len() {
                        assert(pre[j] == pre.push(l)[j]);
                    } else if j == pre.len() {
                        assert(pre[i] == pre.push(l)[i]);
                    }
                }
                assert(order.contains(k) == t.contains(k)) by {
                    if order.contains(k) {
                        let i = choose|i: int| 0 <= i < order.len() && order[i] == k;
                        assert(i < t.len());
                        assert(t[i] == k);
                    }
                    if t.contains(k) {
                        let i = choose|i: int| 0 <= i < t.len() && t[i] == k;
                        assert(order[i] == k);
                    }
                }
            } else {
                assert(order.contains(k)) by {
                    assert(order[order.len() - 1] == k);
                }
            }
        }
    }
}

/// Dropping the first key of an order without duplicates drops exactly it.
proof fn lemma_drop_first_contains(order: Seq<Seq<char>>)
    requires
        order.no_duplicates(),
        order.len() > 0,
    ensures
        forall|x: Seq<char>|
            #[trigger] order.drop_first().contains(x) <==> (order.contains(x) && x != order[0]),
        order.drop_first().no_duplicates(),
{
    let d = order.drop_first();
    assert forall|x: Seq<char>| #[trigger] d.contains(x) <==> (order.contains(x) && x != order[0]) by {
        if d.contains(x) {
            let i = choose|i: int| 0 <= i < d.len() && d[i] == x;
            assert(order[i + 1] == x);
        }
        if order.contains(x) && x != order[0] {
            let i = choose|i: int| 0 <= i < order.len() && order[i] == x;
            assert(i > 0);
            assert(d[i - 1] == x);
        }
    }
    assert forall|i: int, j: int| 0 <= i < d.len() && 0 <= j < d.len() && i != j implies d[i] != d[j] by {
        assert(d[i] == order[i + 1] && d[j] == order[j + 1]);
    }
}

/// Storing keeps the entries and the storing order in agreement.
pub proof fn lemma_store_consistent(m: Map<Seq<char>, Seq<char>>, order: Seq<Seq<char>>, k: Seq<char>, v: Seq<char>)
    requires
        consistent(m, order),
    ensures
        consistent(entries_after_store(m, order, k, v), order_after_store(order, k)),
        entries_after_store(m, order, k, v).contains_key(k),
        entries_after_store(m, order, k, v)[k] == v,
        m.contains_key(k) ==> !store_evicts(order, k, CACHE_CAPACITY as nat),
        order.len() < CACHE_CAPACITY ==> !store_evicts(order, k, CACHE_CAPACITY as nat),
{
    lemma_without_key(order, k);
    let w = without_key(order, k);
    let r = refreshed(order, k);
    assert(!w.contains(k));
    assert(r.no_duplicates()) by {
        assert forall|i: int, j: int| 0 <= i < r.len() && 0 <= j < r.len() && i != j implies r[i] != r[j] by {
            if i == w.len() {
                assert(w[j] == r[j]);
            } else if j == w.len() {
                assert(w[i] == r[i]);
            }
        }
    }
    assert forall|x: Seq<char>| #[trigger] r.contains(x) <==> m.insert(k, v).contains_key(x) by {
        if x == k {
            assert(r[w.len() as int] == k);
        } else {
            if r.contains(x) {
                let i = choose|i: int| 0 <= i < r.len() && r[i] == x;
                assert(i < w.len());
                assert(w[i] == x);
                assert(w.contains(x));
                assert(order.contains(x));
                assert(m.contains_key(x));
            }
            if m.insert(k, v).contains_key(x) {
                assert(m.contains_key(x));
                assert(order.contains(x));
                assert(w.contains(x));
                let i = choose|i: int| 0 <= i < w.len() && w[i] == x;
                assert(r[i] == x);
            }
        }
    }
    assert(r[r.len() - 1] == k);
    if store_evicts(order, k, CACHE_CAPACITY as nat) {
        lemma_drop_first_contains(r);
        assert(r[0] != k);
    }
    if m.contains_key(k) {
        assert(order.contains(k));
    }
}

/// Removes the entry under `k`.
pub fn cache_delete(cache: &mut Cache, k: &str)
    requires
        old(cache).wf(),
    ensures
        final(cache).wf(),
        consistent(final(cache)@, final(cache).recency()),
        final(cache)@ == old(cache)@.remove(k@),
        final(cache).recency() == without_key(old(cache).recency(), k@),
{
    ttl_remove(&mut cache.entries, k);
    proof {
        lemma_without_key(old(cache).recency(), k@);
    }
}

/// The value stored under `k`, unless it has expired.
pub fn cache_get(cache: &Cache, k: &str) -> (r: Option<String>)
    ensures
        lookup_allows(cache@, k@, match r { Some(v) => Some(v@), None => None }),
{
    ttl_get(&cache.entries, k)
}

/// Stores `v` under `k` for one hour; when the cache then holds more than a
/// thousand entries, the one stored (or stored again) longest ago is dropped.
pub fn cache_set_1h(cache: &mut Cache, k: &str, v: &str)
    requires
        old(cache).wf(),
    ensures
        final(cache).wf(),
        consistent(final(cache)@, final(cache).recency()),
        final(cache)@ == entries_after_store(old(cache)@, old(cache).recency(), k@, v@),
        final(cache).recency() == order_after_store(old(cache).recency(), k@),
{
    ttl_insert(&mut cache.entries, k.to_string(), v.to_string(), ONE_HOUR_SECS);
    proof {
        lemma_store_consistent(old(cache)@, old(cache).recency(), k@, v@);
    }
}

/// A lookup right after a store under the same key gives the stored value,
/// or nothing once the entry has expired.
pub proof fn law_lookup_after_store(
    m: Map<Seq<char>, Seq<char>>,
    order: Seq<Seq<char>>,
    k: Seq<char>,
    v: Seq<char>,
    r: Option<Seq<char>>,
)
    requires
        consistent(m, order),
        lookup_allows(entries_after_store(m, order, k, v), k, r),
    ensures
        r is None || r == Some(v),
{
    lemma_store_consistent(m, order, k, v);
}

/// A lookup right after a delete of the same key gives nothing.
pub proof fn law_lookup_after_delete(m: Map<Seq<char>, Seq<char>>, k: Seq<char>, r: Option<Seq<char>>)
    requires
        lookup_allows(m.remove(k), k, r),
    ensures
        r is None,
{
}

/// A store under one key keeps every other entry as it was, except the one
/// stored (or stored again) longest ago when the cache was full and `k` was
/// not yet in it; while the cache is not full, nothing else is dropped.
pub proof fn law_store_keeps_others(
    m: Map<Seq<char>, Seq<char>>,
    order: Seq<Seq<char>>,
    k: Seq<char>,
    v: Seq<char>,
    other: Seq<char>,
)
    requires
        consistent(m, order),
        other != k,
    ensures
        entries_after_store(m, order, k, v).contains_key(other) == (m.contains_key(other) && !(
        store_evicts(order, k, CACHE_CAPACITY as nat) && other == order[0])),
        entries_after_store(m, order, k, v).contains_key(other) ==> entries_after_store(m, order, k, v)[other] == m[other],
        order.len() < CACHE_CAPACITY || m.contains_key(k) ==> entries_after_store(m, order, k, v)
            == m.insert(k, v),
{
    lemma_store_consistent(m, order, k, v);
    lemma_without_key(order, k);
    if store_evicts(order, k, CACHE_CAPACITY as nat) {
        let w = without_key(order, k);
        assert(!m.contains_key(k)) by {
            if m.contains_key(k) {
                assert(order.contains(k));
            }
        }
        assert(w.len() == order.len());
        assert(w == order) by {
            lemma_without_absent(order, k);
        }
        assert(refreshed(order, k)[0] == order[0]);
    }
}

/// Removing a key that is not in the order changes nothing.
proof fn lemma_without_absent(order: Seq<Seq<char>>, k: Seq<char>)
    requires
        !order.contains(k),
    ensures
        without_key(order, k) == order,
    decreases order.len(),
{
    if order.len() > 0 {
        let t = order.drop_last();
        assert(!t.contains(k)) by {
            if t.contains(k) {
                let i = choose|i: int| 0 <= i < t.len() && t[i] == k;
                assert(order[i] == k);
            }
        }
        lemma_without_absent(t, k);
        assert(order.last() != k) by {
            assert(order[order.len() - 1] == order.last());
        }
        assert(t.push(order.last()) == order);
    }
}

} // verus!
