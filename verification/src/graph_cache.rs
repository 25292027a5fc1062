//! Bounded LRU cache of named knowledge-graph snapshots.
//!
//! Topic keys map to shared, reference-counted handles on whole
//! [`KnowledgeGraph`] snapshots. The recency order is modeled as a
//! sequence of (key, handle) pairs, most recently used first; a hit
//! refreshes an entry, an insert beyond capacity evicts the entry used
//! longest ago. Reconciliation of stale snapshots is deferred: the
//! `pending_updates` keys record topics whose authoritative graph has
//! changed, and callers may observe a stale snapshot until an external
//! reconciliation replaces it — eventual consistency by design.
use vstd::prelude::*;
use std::sync::Arc;
use lru::LruCache;
use crate::knowledge_graph::KnowledgeGraph;

verus! {

#[verifier::external_type_specification]
#[verifier::external_body]
#[verifier::reject_recursive_types(K)]
#[verifier::reject_recursive_types(V)]
#[verifier::reject_recursive_types(S)]
pub struct ExLruCache<K, V, S>(LruCache<K, V, S>);

#[verifier::external_type_specification]
#[verifier::external_body]
pub struct ExLruDefaultHasher(lru::DefaultHasher);

/// The (key, value) pairs of an LRU cache, most recently used first.
pub uninterp spec fn lru_entries(c: LruCache<String, Arc<KnowledgeGraph>>) -> Seq<
    (Seq<char>, Arc<KnowledgeGraph>),
>;

/// The fixed capacity the cache was constructed with.
pub uninterp spec fn lru_capacity(c: LruCache<String, Arc<KnowledgeGraph>>) -> nat;

/// Keys of cache entries are distinct.
pub open spec fn keys_distinct(es: Seq<(Seq<char>, Arc<KnowledgeGraph>)>) -> bool {
    forall|i: int, j: int| 0 <= i < j < es.len() ==> (#[trigger] es[i]).0 != (#[trigger] es[j]).0
}

/// Relies on lru's LruCache::new: an empty cache holding at most the
/// given nonzero number of entries.
#[verifier::external_body]
fn lru_new(cap: usize) -> (c: LruCache<String, Arc<KnowledgeGraph>>)
    requires
        cap >= 1,
    ensures
        lru_entries(c) == Seq::<(Seq<char>, Arc<KnowledgeGraph>)>::empty(),
        lru_capacity(c) == cap,
{
    LruCache::new(std::num::NonZeroUsize::new(cap).unwrap())
}

/// Relies on lru's LruCache::get: a present key moves its entry to the
/// most-recent position and hands back the value; an absent key
/// changes nothing. Keys stay distinct, one entry per key.
#[verifier::external_body]
fn lru_get(c: &mut LruCache<String, Arc<KnowledgeGraph>>, key: &str) -> (r: Option<
    Arc<KnowledgeGraph>,
>)
    requires
        keys_distinct(lru_entries(*old(c))),
    ensures
        lru_capacity(*final(c)) == lru_capacity(*old(c)),
        keys_distinct(lru_entries(*final(c))),
        match r {
            Some(v) => exists|i: int|
                0 <= i < lru_entries(*old(c)).len() && (#[trigger] lru_entries(*old(c))[i]).0
                    == key@ && v == lru_entries(*old(c))[i].1 && lru_entries(*final(c)) == seq![
                    lru_entries(*old(c))[i],
                ] + lru_entries(*old(c)).remove(i),
            None => (forall|i: int|
                0 <= i < lru_entries(*old(c)).len() ==> (#[trigger] lru_entries(*old(c))[i]).0
                    != key@) && lru_entries(*final(c)) == lru_entries(*old(c)),
        },
{
    c.get(key).cloned()
}

/// Relies on lru's LruCache::put: a present key has its value replaced
/// and its entry refreshed, returning the old value; an absent key is
/// inserted at the most-recent position, evicting the entry used
/// longest ago when the cache is full. Keys stay distinct.
#[verifier::external_body]
fn lru_put(
    c: &mut LruCache<String, Arc<KnowledgeGraph>>,
    key: String,
    value: Arc<KnowledgeGraph>,
) -> (r: Option<Arc<KnowledgeGraph>>)
    requires
        keys_distinct(lru_entries(*old(c))),
    ensures
        lru_capacity(*final(c)) == lru_capacity(*old(c)),
        keys_distinct(lru_entries(*final(c))),
        match r {
            Some(v) => exists|i: int|
                0 <= i < lru_entries(*old(c)).len() && (#[trigger] lru_entries(*old(c))[i]).0
                    == key@ && v == lru_entries(*old(c))[i].1 && lru_entries(*final(c)) == seq![
                    (key@, value),
                ] + lru_entries(*old(c)).remove(i),
            None => (forall|i: int|
                0 <= i < lru_entries(*old(c)).len() ==> (#[trigger] lru_entries(*old(c))[i]).0
                    != key@) && if lru_entries(*old(c)).len() < lru_capacity(*old(c)) {
                lru_entries(*final(c)) == seq![(key@, value)] + lru_entries(*old(c))
            } else {
                lru_entries(*final(c)) == seq![(key@, value)] + lru_entries(*old(c)).drop_last()
            },
        },
{
    c.put(key, value)
}

/// Bounded LRU of named graph snapshots plus the set of topic keys
/// whose authoritative source has changed since their snapshot was
/// cached (deferred reconciliation, not write-through).
pub struct GraphCache {
    pub cache: LruCache<String, Arc<KnowledgeGraph>>,
    pub pending_updates: Vec<String>,
}

impl GraphCache {
    /// Cached (topic key, snapshot handle) pairs, most recently used
    /// first.
    pub open spec fn entries(self) -> Seq<(Seq<char>, Arc<KnowledgeGraph>)> {
        lru_entries(self.cache)
    }

    /// The fixed capacity the cache was constructed with.
    pub open spec fn capacity(self) -> nat {
        lru_capacity(self.cache)
    }

    /// One cached entry per topic key, a positive capacity, and never
    /// more entries than that capacity.
    pub open spec fn wf(self) -> bool {
        &&& keys_distinct(self.entries())
        &&& self.capacity() >= 1
        &&& self.entries().len() <= self.capacity()
    }

    /// An empty cache of fixed capacity `size >= 1`. A zero capacity
    /// is an invalid configuration and is rejected here at
    /// construction, never silently clamped.
    pub fn new(size: usize) -> (r: GraphCache)
        requires
            size >= 1,
        ensures
            r.wf(),
            r.entries() == Seq::<(Seq<char>, Arc<KnowledgeGraph>)>::empty(),
            r.capacity() == size,
            r.pending_updates@ == Seq::<String>::empty(),
    {
        GraphCache { cache: lru_new(size), pending_updates: Vec::new() }
    }

    /// The snapshot cached under a topic key. A hit marks the entry
    /// most recently used; a miss has no effect on the recency order.
    pub fn get(&mut self, key: &str) -> (r: Option<Arc<KnowledgeGraph>>)
        requires
            old(self).wf(),
        ensures
            final(self).wf(),
            final(self).capacity() == old(self).capacity(),
            final(self).pending_updates == old(self).pending_updates,
            match r {
                Some(v) => exists|i: int|
                    0 <= i < old(self).entries().len() && (#[trigger] old(self).entries()[i]).0
                        == key@ && v == old(self).entries()[i].1 && final(self).entries() == seq![
                        old(self).entries()[i],
                    ] + old(self).entries().remove(i),
                None => (forall|i: int|
                    0 <= i < old(self).entries().len() ==> (#[trigger] old(self).entries()[i]).0
                        != key@) && final(self).entries() == old(self).entries(),
            },
    {
        lru_get(&mut self.cache, key)
    }

    /// Inserts or replaces the snapshot for a topic key and marks it
    /// most recently used; when this would exceed capacity, the entry
    /// used longest ago is evicted.
    pub fn put(&mut self, key: String, graph: Arc<KnowledgeGraph>)
        requires
            old(self).wf(),
        ensures
            final(self).wf(),
            final(self).capacity() == old(self).capacity(),
            final(self).pending_updates == old(self).pending_updates,
            old(self).has_key(key@) ==> exists|i: int|
                0 <= i < old(self).entries().len() && (#[trigger] old(self).entries()[i]).0 == key@
                    && final(self).entries() == seq![(key@, graph)] + old(self).entries().remove(i),
            !old(self).has_key(key@) ==> if old(self).entries().len() < old(self).capacity() {
                final(self).entries() == seq![(key@, graph)] + old(self).entries()
            } else {
                final(self).entries() == seq![(key@, graph)] + old(self).entries().drop_last()
            },
    {
        let replaced = lru_put(&mut self.cache, key, graph);
        proof {
            let oldes = old(self).entries();
            if replaced is Some {
                let i = choose|i: int|
                    0 <= i < oldes.len() && (#[trigger] oldes[i]).0 == key@ && replaced == Some(
                        oldes[i].1,
                    ) && self.entries() == seq![(key@, graph)] + oldes.remove(i);
                assert(self.entries().len() == oldes.len());
            }
        }
    }

    /// Whether a snapshot is cached under `key`.
    pub open spec fn has_key(self, key: Seq<char>) -> bool {
        exists|i: int| 0 <= i < self.entries().len() && (#[trigger] self.entries()[i]).0 == key
    }
}

/// Inserting a fresh topic key into a full cache evicts exactly the
/// entry used longest ago: the evicted key is cached nowhere in the
/// new recency order, while every other old key survives.
pub proof fn lemma_put_evicts_lru(
    entries: Seq<(Seq<char>, Arc<KnowledgeGraph>)>,
    key: Seq<char>,
    graph: Arc<KnowledgeGraph>,
)
    requires
        keys_distinct(entries),
        entries.len() >= 1,
        forall|i: int| 0 <= i < entries.len() ==> (#[trigger] entries[i]).0 != key,
    ensures
        ({
            let evicted = entries.last().0;
            let updated = seq![(key, graph)] + entries.drop_last();
            &&& forall|i: int| 0 <= i < updated.len() ==> (#[trigger] updated[i]).0 != evicted
            &&& forall|j: int|
                0 <= j < entries.len() - 1 ==> updated[j + 1] == (#[trigger] entries[j])
        }),
{
    let evicted = entries.last().0;
    let updated = seq![(key, graph)] + entries.drop_last();
    assert forall|i: int| 0 <= i < updated.len() implies (#[trigger] updated[i]).0 != evicted by {
        if i == 0 {
            assert(entries[entries.len() - 1].0 == evicted);
        } else {
            assert(updated[i] == entries[i - 1]);
            assert(entries[i - 1].0 != entries[entries.len() - 1].0);
        }
    }
    assert forall|j: int| 0 <= j < entries.len() - 1 implies updated[j + 1] == (
    #[trigger] entries[j]) by {}
}

} // verus!
