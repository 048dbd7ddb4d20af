//! The bounded result cache: a least-recently-used map from original text
//! to optimized text, provided by an outside LRU implementation and
//! described here by its entry map, its recency order (most recent first),
//! and its capacity.

use vstd::prelude::*;

verus! {

#[verifier::external_type_specification]
#[verifier::external_body]
#[verifier::reject_recursive_types(K)]
#[verifier::reject_recursive_types(V)]
#[verifier::reject_recursive_types(S)]
pub struct ExLruCache<K, V, S>(lru::LruCache<K, V, S>);

/// Names the entries the cache holds, as a map from key text to value text.
pub uninterp spec fn cache_entries(c: lru::LruCache<String, String>) -> Map<Seq<char>, Seq<char>>;

/// Names the cache's keys from most recently to least recently used.
pub uninterp spec fn cache_recency(c: lru::LruCache<String, String>) -> Seq<Seq<char>>;

/// Names the capacity the cache was created with.
pub uninterp spec fn cache_capacity(c: lru::LruCache<String, String>) -> nat;

/// What always holds of a least-recently-used cache: each key appears once
/// in the recency order, the entry keys are exactly the ordered keys, and
/// the size never passes the (positive) capacity.
pub open spec fn cache_wf(c: lru::LruCache<String, String>) -> bool {
    &&& cache_recency(c).no_duplicates()
    &&& cache_entries(c).dom() =~= cache_recency(c).to_set()
    &&& cache_recency(c).len() <= cache_capacity(c)
    &&& 1 <= cache_capacity(c)
}

/// The recency order after a key is used: moved to (or inserted at) the
/// front, everything else kept in order.
pub open spec fn touch(q: Seq<Seq<char>>, k: Seq<char>) -> Seq<Seq<char>> {
    seq![k] + q.remove_value(k)
}

/// The entry map after a put: the new pair is present; when an absent key
/// arrives at capacity, the least recently used key leaves.
pub open spec fn put_entries(
    m: Map<Seq<char>, Seq<char>>,
    q: Seq<Seq<char>>,
    cap: nat,
    k: Seq<char>,
    v: Seq<char>,
) -> Map<Seq<char>, Seq<char>> {
    if m.contains_key(k) || q.len() < cap {
        m.insert(k, v)
    } else {
        m.remove(q.last()).insert(k, v)
    }
}

/// The recency order after a put.
pub open spec fn put_recency(
    m: Map<Seq<char>, Seq<char>>,
    q: Seq<Seq<char>>,
    cap: nat,
    k: Seq<char>,
) -> Seq<Seq<char>> {
    if m.contains_key(k) {
        touch(q, k)
    } else if q.len() < cap {
        seq![k] + q
    } else {
        seq![k] + q.drop_last()
    }
}

/// What the model of a well-formed cache satisfies: each key appears once
/// in the recency order, the entry keys are exactly the ordered keys, and
/// the size stays within the (positive) capacity.
pub open spec fn cache_model_wf(
    m: Map<Seq<char>, Seq<char>>,
    q: Seq<Seq<char>>,
    cap: nat,
) -> bool {
    &&& q.no_duplicates()
    &&& m.dom() =~= q.to_set()
    &&& q.len() <= cap
    &&& 1 <= cap
}

/// Using a present key keeps the recency order well formed: the key moves
/// to the front, and the ordered keys and the size stay the same.
pub proof fn lemma_touch_preserves_wf(q: Seq<Seq<char>>, k: Seq<char>)
    requires
        q.no_duplicates(),
        q.contains(k),
    ensures
        touch(q, k).no_duplicates(),
        touch(q, k).to_set() =~= q.to_set(),
        touch(q, k).len() == q.len(),
{
    q.index_of_first_ensures(k);
    let i = q.index_of_first(k).unwrap();
    let r = q.remove(i);
    q.remove_ensures(i);
    assert forall|idx: int| 0 <= idx < r.len() implies r[idx] != k by {
        if idx < i {
        } else {
            assert(r[idx] == q[idx + 1]);
        }
    }
    assert(r.no_duplicates()) by {
        assert forall|a: int, b: int| 0 <= a < b < r.len() implies r[a] != r[b] by {
            if b < i {
            } else if a < i {
                assert(r[a] == q[a] && r[b] == q[b + 1]);
            } else {
                assert(r[a] == q[a + 1] && r[b] == q[b + 1]);
            }
        }
    }
    let t = touch(q, k);
    assert(t.no_duplicates()) by {
        assert forall|a: int, b: int| 0 <= a < b < t.len() implies t[a] != t[b] by {
            if a == 0 {
                assert(t[b] == r[b - 1]);
            } else {
                assert(t[a] == r[a - 1] && t[b] == r[b - 1]);
            }
        }
    }
    assert forall|x: Seq<char>| q.contains(x) implies t.contains(x) by {
        if x == k {
            assert(t[0] == k);
        } else {
            let j = choose|j: int| 0 <= j < q.len() && q[j] == x;
            if j < i {
                assert(t[j + 1] == q[j]);
            } else {
                assert(j != i);
                assert(t[j] == r[j - 1] && r[j - 1] == q[j]);
            }
        }
    }
    assert forall|x: Seq<char>| t.contains(x) implies q.contains(x) by {
        let j = choose|j: int| 0 <= j < t.len() && t[j] == x;
        if j == 0 {
        } else {
            assert(t[j] == r[j - 1]);
            if j - 1 < i {
                assert(r[j - 1] == q[j - 1]);
            } else {
                assert(r[j - 1] == q[j]);
            }
        }
    }
    assert(t.to_set() =~= q.to_set());
}

/// Inserting an absent key below capacity keeps the recency order well
/// formed: the key stands at the front and the size grows by one.
pub proof fn lemma_insert_preserves_wf(q: Seq<Seq<char>>, k: Seq<char>)
    requires
        q.no_duplicates(),
        !q.contains(k),
    ensures
        (seq![k] + q).no_duplicates(),
        (seq![k] + q).to_set() =~= q.to_set().insert(k),
        (seq![k] + q).len() == q.len() + 1,
{
    let t = seq![k] + q;
    assert(t.no_duplicates()) by {
        assert forall|a: int, b: int| 0 <= a < b < t.len() implies t[a] != t[b] by {
            if a == 0 {
                assert(t[b] == q[b - 1]);
            } else {
                assert(t[a] == q[a - 1] && t[b] == q[b - 1]);
            }
        }
    }
    assert forall|x: Seq<char>| t.contains(x) implies q.to_set().insert(k).contains(x) by {
        let j = choose|j: int| 0 <= j < t.len() && t[j] == x;
        if j > 0 {
            assert(q[j - 1] == x);
        }
    }
    assert forall|x: Seq<char>| q.to_set().insert(k).contains(x) implies t.contains(x) by {
        if x == k {
            assert(t[0] == k);
        } else {
            let j = choose|j: int| 0 <= j < q.len() && q[j] == x;
            assert(t[j + 1] == x);
        }
    }
    assert(t.to_set() =~= q.to_set().insert(k));
}

/// Evicting the least recently used key for an absent one keeps the
/// recency order well formed: the new key stands at the front, the last
/// key leaves, and the size stays the same.
pub proof fn lemma_evict_preserves_wf(q: Seq<Seq<char>>, k: Seq<char>)
    requires
        q.no_duplicates(),
        !q.contains(k),
        q.len() >= 1,
    ensures
        (seq![k] + q.drop_last()).no_duplicates(),
        (seq![k] + q.drop_last()).to_set() =~= q.to_set().remove(q.last()).insert(k),
        (seq![k] + q.drop_last()).len() == q.len(),
{
    let d = q.drop_last();
    assert(d.no_duplicates()) by {
        assert forall|a: int, b: int| 0 <= a < b < d.len() implies d[a] != d[b] by {
            assert(d[a] == q[a] && d[b] == q[b]);
        }
    }
    assert forall|x: Seq<char>| d.contains(x) implies !(x == k) && !(x == q.last()) by {
        let j = choose|j: int| 0 <= j < d.len() && d[j] == x;
        assert(d[j] == q[j]);
        assert(q[j] != q[q.len() - 1]);
    }
    lemma_insert_preserves_wf(d, k);
    assert forall|x: Seq<char>| d.to_set().insert(k).contains(x) implies q.to_set().remove(
        q.last(),
    ).insert(k).contains(x) by {
        if x != k {
            let j = choose|j: int| 0 <= j < d.len() && d[j] == x;
            assert(q[j] == x);
        }
    }
    assert forall|x: Seq<char>| q.to_set().remove(q.last()).insert(k).contains(x) implies d.to_set().insert(
        k,
    ).contains(x) by {
        if x != k {
            let j = choose|j: int| 0 <= j < q.len() && q[j] == x;
            assert(j != q.len() - 1);
            assert(d[j] == x);
        }
    }
    assert((seq![k] + d).to_set() =~= q.to_set().remove(q.last()).insert(k));
}

/// A put keeps the cache model well formed, whichever of its three shapes
/// (update, insert below capacity, insert with eviction) applies.
pub proof fn lemma_put_preserves_wf(
    m: Map<Seq<char>, Seq<char>>,
    q: Seq<Seq<char>>,
    cap: nat,
    k: Seq<char>,
    v: Seq<char>,
)
    requires
        cache_model_wf(m, q, cap),
    ensures
        cache_model_wf(put_entries(m, q, cap, k, v), put_recency(m, q, cap, k), cap),
{
    if m.contains_key(k) {
        assert(q.contains(k));
        lemma_touch_preserves_wf(q, k);
        assert(m.insert(k, v).dom() =~= q.to_set());
    } else if q.len() < cap {
        assert(!q.contains(k));
        lemma_insert_preserves_wf(q, k);
        assert(m.insert(k, v).dom() =~= q.to_set().insert(k));
    } else {
        assert(!q.contains(k));
        lemma_evict_preserves_wf(q, k);
        assert(m.remove(q.last()).insert(k, v).dom() =~= q.to_set().remove(q.last()).insert(k));
    }
}

/// Relies on lru::LruCache::new: an empty cache with the given capacity.
#[verifier::external_body]
pub fn cache_new(cap: usize) -> (r: lru::LruCache<String, String>)
    requires
        1 <= cap,
    ensures
        (cache_entries(r) == Map::<Seq<char>, Seq<char>>::empty()),
        cache_recency(r) == Seq::<Seq<char>>::empty(),
        cache_capacity(r) == cap as nat,
        cache_wf(r),
{
    lru::LruCache::new(std::num::NonZeroUsize::new(cap).unwrap())
}

/// Relies on lru::LruCache::get: returns the value stored under the key and
/// marks the key most recently used; an absent key leaves the cache
/// unchanged.
#[verifier::external_body]
pub fn cache_get(c: &mut lru::LruCache<String, String>, k: &str) -> (r: Option<String>)
    ensures
        cache_capacity(*final(c)) == cache_capacity(*old(c)),
        cache_entries(*final(c)) == cache_entries(*old(c)),
        cache_entries(*old(c)).contains_key(k@) ==> (r matches Some(v) && v@ == cache_entries(
            *old(c),
        )[k@] && cache_recency(*final(c)) == touch(cache_recency(*old(c)), k@)),
        !cache_entries(*old(c)).contains_key(k@) ==> r is None && cache_recency(*final(c))
            == cache_recency(*old(c)),
        cache_wf(*old(c)) ==> cache_wf(*final(c)),
{
    c.get(k).cloned()
}

/// Relies on lru::LruCache::put: inserts or updates the entry and marks it
/// most recently used; when an absent key arrives at capacity, the least
/// recently used entry is evicted first.
#[verifier::external_body]
pub fn cache_put(c: &mut lru::LruCache<String, String>, k: String, v: String)
    ensures
        cache_capacity(*final(c)) == cache_capacity(*old(c)),
        cache_entries(*final(c)) == put_entries(
            cache_entries(*old(c)),
            cache_recency(*old(c)),
            cache_capacity(*old(c)),
            k@,
            v@,
        ),
        cache_recency(*final(c)) == put_recency(
            cache_entries(*old(c)),
            cache_recency(*old(c)),
            cache_capacity(*old(c)),
            k@,
        ),
        cache_wf(*old(c)) ==> cache_wf(*final(c)),
{
    c.put(k, v);
}

} // verus!
