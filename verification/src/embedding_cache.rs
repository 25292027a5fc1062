//! Deterministic feature-vector layer and its memoization tables.
//!
//! A text maps to a 64-slot accumulation profile: slot `j` holds the
//! sum of all bytes at positions congruent to `j` modulo 64 in the
//! text's UTF-8 encoding. The floating-point feature vector of the
//! retrieval layer is exactly this profile with every slot scaled by
//! 1/255 and the result L2-normalized — a per-slot monotone map
//! computed at the numeric edge, so the profile carries all the
//! information of the vector. Memoization is a pure-performance layer:
//! every getter's contract pins the returned profile to the same pure
//! function of the input, cached or not. The role tables key their
//! entries by `:`-joined fields without escaping, so two distinct
//! inputs can share an entry; because results never depend on stored
//! entries, such sharing can never change a result.
use vstd::prelude::*;
use vstd::string::StringExecFns;
use vstd::pervasive::VecAdditionalExecFns;
use vstd::utf8::encode_utf8;
use crate::text_processor::{Action, Entity, Property};

verus! {

/// Number of slots in an accumulation profile.
pub const EMBED_DIM: usize = 64;

/// Sum of the bytes at positions congruent to `j` modulo 64.
pub open spec fn slot_sum(bytes: Seq<u8>, j: int) -> int
    decreases bytes.len(),
{
    if bytes.len() == 0 {
        0
    } else {
        slot_sum(bytes.drop_last(), j) + if (bytes.len() - 1) % 64 == j {
            bytes.last() as int
        } else {
            0
        }
    }
}

/// Every slot sum of `n` bytes lies within `[0, 255 n]`.
proof fn lemma_slot_sum_bound(bytes: Seq<u8>, j: int)
    ensures
        0 <= slot_sum(bytes, j) <= 255 * bytes.len(),
    decreases bytes.len(),
{
    if bytes.len() > 0 {
        lemma_slot_sum_bound(bytes.drop_last(), j);
    }
}

/// The accumulation profile of a text: a 64-slot vector whose slot `j`
/// is the sum of the bytes at positions congruent to `j` modulo 64 in
/// the text's UTF-8 encoding. Deterministic and pure: equal texts give
/// equal profiles on every call.
#[verifier::loop_isolation(false)]
pub fn calculate_embedding(text: &str) -> (r: Vec<u128>)
    ensures
        r@.len() == 64,
        forall|j: int| 0 <= j < 64 ==> r@[j] == slot_sum(encode_utf8(text@), j),
{
    let bytes: &[u8] = text.as_bytes();
    let mut sums: Vec<u128> = Vec::new();
    let mut j: usize = 0;
    while j < EMBED_DIM
        invariant
            j <= 64,
            sums@.len() == j,
            forall|m: int| 0 <= m < j ==> sums@[m] == 0,
        decreases 64 - j,
    {
        sums.push(0);
        j += 1;
    }
    proof {
        assert forall|m: int| 0 <= m < 64 implies sums@[m] == slot_sum(bytes@.subrange(0, 0), m) by {
            assert(bytes@.subrange(0, 0) =~= Seq::<u8>::empty());
        }
    }
    let mut i: usize = 0;
    while i < bytes.len()
        invariant
            i <= bytes@.len(),
            sums@.len() == 64,
            forall|m: int| 0 <= m < 64 ==> sums@[m] == slot_sum(bytes@.subrange(0, i as int), m),
        decreases bytes@.len() - i,
    {
        let idx = i % 64;
        let b = bytes[i];
        proof {
            lemma_slot_sum_bound(bytes@.subrange(0, i as int), idx as int);
            assert(255 * bytes@.subrange(0, i as int).len() <= 255 * (usize::MAX as int));
        }
        let updated = sums[idx] + (b as u128);
        sums.set(idx, updated);
        proof {
            let prefix = bytes@.subrange(0, i as int);
            let next = bytes@.subrange(0, i + 1);
            assert(next.drop_last() =~= prefix);
            assert(next.last() == bytes@[i as int]);
            assert forall|m: int| 0 <= m < 64 implies sums@[m] == slot_sum(next, m) by {
                assert(slot_sum(next, m) == slot_sum(prefix, m) + if (next.len() - 1) % 64 == m {
                    next.last() as int
                } else {
                    0
                });
            }
        }
        i += 1;
    }
    proof {
        assert(bytes@.subrange(0, bytes@.len() as int) =~= bytes@);
    }
    sums
}

/// An owned copy of an accumulation profile.
fn copy_profile(src: &Vec<u128>) -> (r: Vec<u128>)
    ensures
        r@ == src@,
{
    let mut out: Vec<u128> = Vec::new();
    let mut i: usize = 0;
    while i < src.len()
        invariant
            i <= src@.len(),
            out@ == src@.subrange(0, i as int),
        decreases src@.len() - i,
    {
        out.push(src[i]);
        proof {
            assert(out@ =~= src@.subrange(0, i + 1));
        }
        i += 1;
    }
    proof {
        assert(src@.subrange(0, src@.len() as int) =~= src@);
    }
    out
}

/// View of a memo table: (key, stored profile) pairs in insertion
/// order.
pub open spec fn tbl_view(t: Seq<(String, Vec<u128>)>) -> Seq<(Seq<char>, Seq<u128>)> {
    Seq::new(t.len(), |i: int| (t[i].0@, t[i].1@))
}

/// Whether some entry of a table view is stored under `key`.
pub open spec fn tbl_has(t: Seq<(Seq<char>, Seq<u128>)>, key: Seq<char>) -> bool {
    exists|i: int| 0 <= i < t.len() && (#[trigger] t[i]).0 == key
}

/// Keys of a table view are distinct.
pub open spec fn tbl_distinct(t: Seq<(Seq<char>, Seq<u128>)>) -> bool {
    forall|i: int, j: int| 0 <= i < j < t.len() ==> (#[trigger] t[i]).0 != (#[trigger] t[j]).0
}

/// Hands back a copy of `fresh` and records it in `table` when `key`
/// is new; a present key leaves the table untouched. The result never
/// depends on what the table holds, so a shared entry can never change
/// what a caller gets back.
#[verifier::loop_isolation(false)]
fn lookup_or_insert(table: &mut Vec<(String, Vec<u128>)>, key: String, fresh: Vec<u128>) -> (r: Vec<
    u128,
>)
    requires
        tbl_distinct(tbl_view(old(table)@)),
    ensures
        tbl_distinct(tbl_view(final(table)@)),
        r@ == fresh@,
        tbl_has(tbl_view(old(table)@), key@) ==> final(table)@ == old(table)@,
        !tbl_has(tbl_view(old(table)@), key@) ==> tbl_view(final(table)@) == tbl_view(
            old(table)@,
        ).push((key@, fresh@)),
{
    let mut i: usize = 0;
    while i < table.len()
        invariant
            i <= table@.len(),
            forall|j: int| 0 <= j < i ==> (#[trigger] tbl_view(table@)[j]).0 != key@,
        decreases table@.len() - i,
    {
        let entry_key: &String = &table[i].0;
        if *entry_key == key {
            proof {
                assert(tbl_view(table@)[i as int].0 == key@);
                assert(tbl_has(tbl_view(table@), key@));
            }
            return copy_profile(&fresh);
        }
        i += 1;
    }
    let ghost prior = tbl_view(table@);
    let r = copy_profile(&fresh);
    table.push((key, fresh));
    proof {
        assert(tbl_view(table@) =~= prior.push((key@, fresh@)));
    }
    r
}

/// Cache key of an entity: its text and its category label.
pub open spec fn entity_key_spec(e: Entity) -> Seq<char> {
    e.text@ + ":"@ + e.entity_type.label_spec()
}

/// Cache key of an action.
pub open spec fn action_key_spec(a: Action) -> Seq<char> {
    a.subject@ + ":"@ + a.verb@ + ":"@ + a.object@
}

/// The text whose profile stands for an action.
pub open spec fn action_text_spec(a: Action) -> Seq<char> {
    a.subject@ + " "@ + a.verb@ + " "@ + a.object@
}

/// Cache key of a property.
pub open spec fn property_key_spec(p: Property) -> Seq<char> {
    p.entity@ + ":"@ + p.attribute@ + ":"@ + p.value@
}

/// The text whose profile stands for a property.
pub open spec fn property_text_spec(p: Property) -> Seq<char> {
    p.entity@ + " "@ + p.attribute@ + " "@ + p.value@
}

/// Joins three strings with the given separator.
fn join3(a: &String, b: &String, c: &String, sep: &str) -> (r: String)
    ensures
        r@ == a@ + sep@ + b@ + sep@ + c@,
{
    let mut out = String::from_str(a.as_str());
    out.append(sep);
    out.append(b.as_str());
    out.append(sep);
    out.append(c.as_str());
    out
}

/// Counts of stored profiles, per provenance table.
#[derive(Debug, Clone, PartialEq, Eq)]
pub struct CacheStats {
    pub total_embeddings: usize,
    pub entity_embeddings: usize,
    pub action_embeddings: usize,
    pub property_embeddings: usize,
}

/// Four independent key-to-profile memo tables, partitioned by
/// provenance (raw text, entity, action, property) so that identical
/// surface text used in different roles cannot collide across roles.
/// An explicit context object: construct one per process, or one per
/// test, and pass it by reference.
pub struct EmbeddingCache {
    embeddings: Vec<(String, Vec<u128>)>,
    entity_embeddings: Vec<(String, Vec<u128>)>,
    action_embeddings: Vec<(String, Vec<u128>)>,
    property_embeddings: Vec<(String, Vec<u128>)>,
}

impl EmbeddingCache {
    /// The raw-text table, keyed by the text itself.
    pub closed spec fn raw_table(self) -> Seq<(Seq<char>, Seq<u128>)> {
        tbl_view(self.embeddings@)
    }

    /// The entity table, keyed by `text:TypeLabel`.
    pub closed spec fn entity_table(self) -> Seq<(Seq<char>, Seq<u128>)> {
        tbl_view(self.entity_embeddings@)
    }

    /// The action table, keyed by `subject:verb:object`.
    pub closed spec fn action_table(self) -> Seq<(Seq<char>, Seq<u128>)> {
        tbl_view(self.action_embeddings@)
    }

    /// The property table, keyed by `entity:attribute:value`.
    pub closed spec fn property_table(self) -> Seq<(Seq<char>, Seq<u128>)> {
        tbl_view(self.property_embeddings@)
    }

    /// Table keys are distinct, and every raw-table entry stores
    /// exactly the profile of its own key text: a raw cache hit can
    /// never change the result.
    pub open spec fn wf(self) -> bool {
        &&& tbl_distinct(self.raw_table())
        &&& tbl_distinct(self.entity_table())
        &&& tbl_distinct(self.action_table())
        &&& tbl_distinct(self.property_table())
        &&& forall|i: int|
            0 <= i < self.raw_table().len() ==> (#[trigger] self.raw_table()[i]).1.len() == 64
                && forall|j: int|
                0 <= j < 64 ==> self.raw_table()[i].1[j] == slot_sum(
                    encode_utf8(self.raw_table()[i].0),
                    j,
                )
    }

    /// An empty cache.
    pub fn new() -> (r: EmbeddingCache)
        ensures
            r.wf(),
            r.raw_table() == Seq::<(Seq<char>, Seq<u128>)>::empty(),
            r.entity_table() == Seq::<(Seq<char>, Seq<u128>)>::empty(),
            r.action_table() == Seq::<(Seq<char>, Seq<u128>)>::empty(),
            r.property_table() == Seq::<(Seq<char>, Seq<u128>)>::empty(),
    {
        let r = EmbeddingCache {
            embeddings: Vec::new(),
            entity_embeddings: Vec::new(),
            action_embeddings: Vec::new(),
            property_embeddings: Vec::new(),
        };
        proof {
            assert(r.raw_table() =~= Seq::<(Seq<char>, Seq<u128>)>::empty());
            assert(r.entity_table() =~= Seq::<(Seq<char>, Seq<u128>)>::empty());
            assert(r.action_table() =~= Seq::<(Seq<char>, Seq<u128>)>::empty());
            assert(r.property_table() =~= Seq::<(Seq<char>, Seq<u128>)>::empty());
        }
        r
    }

    /// The memoized accumulation profile of a raw text. Whether the
    /// profile is found in the table or computed and stored, the result
    /// is the same pure function of the text.
    pub fn get_cached_embedding(&mut self, text: &str) -> (r: Vec<u128>)
        requires
            old(self).wf(),
        ensures
            final(self).wf(),
            r@.len() == 64,
            forall|j: int| 0 <= j < 64 ==> r@[j] == slot_sum(encode_utf8(text@), j),
            tbl_has(old(self).raw_table(), text@) ==> final(self).raw_table() == old(
                self,
            ).raw_table(),
            !tbl_has(old(self).raw_table(), text@) ==> final(self).raw_table() == old(
                self,
            ).raw_table().push((text@, Seq::new(64, |j: int| slot_sum(encode_utf8(text@), j) as u128))),
            final(self).entity_table() == old(self).entity_table(),
            final(self).action_table() == old(self).action_table(),
            final(self).property_table() == old(self).property_table(),
    {
        let fresh = calculate_embedding(text);
        let key = String::from_str(text);
        let r = lookup_or_insert(&mut self.embeddings, key, fresh);
        proof {
            if !tbl_has(old(self).raw_table(), text@) {
                assert(r@ =~= Seq::new(64, |j: int| slot_sum(encode_utf8(text@), j) as u128));
                let ghost pushed = (text@, Seq::new(64, |j: int| slot_sum(encode_utf8(text@), j) as u128));
                assert(self.raw_table() =~= old(self).raw_table().push(pushed));
            }
        }
        r
    }

    /// The memoized profile for an entity, keyed by text and category
    /// so that the same surface text in another role cannot collide.
    /// The result is always the profile of the entity's own text,
    /// whether or not the key was already stored: a shared table entry
    /// can never change what a caller gets back.
    pub fn get_entity_embedding(&mut self, entity: &Entity) -> (r: Vec<u128>)
        requires
            old(self).wf(),
        ensures
            final(self).wf(),
            r@.len() == 64,
            forall|j: int| 0 <= j < 64 ==> r@[j] == slot_sum(encode_utf8(entity.text@), j) as u128,
            tbl_has(old(self).entity_table(), entity_key_spec(*entity)) ==> final(self).entity_table() == old(self).entity_table(),
            !tbl_has(old(self).entity_table(), entity_key_spec(*entity)) ==> final(self).entity_table() == old(self).entity_table().push((entity_key_spec(*entity), r@)),
            final(self).raw_table() == old(self).raw_table(),
            final(self).action_table() == old(self).action_table(),
            final(self).property_table() == old(self).property_table(),
    {
        let fresh = calculate_embedding(entity.text.as_str());
        let mut key = String::from_str(entity.text.as_str());
        key.append(":");
        key.append(entity.entity_type.label());
        lookup_or_insert(&mut self.entity_embeddings, key, fresh)
    }

    /// The memoized profile for an action, keyed by
    /// `subject:verb:object`. The result is always the profile of the
    /// space-joined action text, whether or not the key was already
    /// stored: the key joins its fields with an unescaped `:`, so two
    /// distinct actions can share a table entry, but a shared entry
    /// can never change what a caller gets back.
    pub fn get_action_embedding(&mut self, action: &Action) -> (r: Vec<u128>)
        requires
            old(self).wf(),
        ensures
            final(self).wf(),
            r@.len() == 64,
            forall|j: int|
                0 <= j < 64 ==> r@[j] == slot_sum(encode_utf8(action_text_spec(*action)), j) as u128,
            tbl_has(old(self).action_table(), action_key_spec(*action)) ==> final(self).action_table() == old(self).action_table(),
            !tbl_has(old(self).action_table(), action_key_spec(*action)) ==> final(self).action_table() == old(self).action_table().push((action_key_spec(*action), r@)),
            final(self).raw_table() == old(self).raw_table(),
            final(self).entity_table() == old(self).entity_table(),
            final(self).property_table() == old(self).property_table(),
    {
        let combined = join3(&action.subject, &action.verb, &action.object, " ");
        let fresh = calculate_embedding(combined.as_str());
        let key = join3(&action.subject, &action.verb, &action.object, ":");
        lookup_or_insert(&mut self.action_embeddings, key, fresh)
    }

    /// The memoized profile for a property, keyed by
    /// `entity:attribute:value`. The result is always the profile of
    /// the space-joined property text, whether or not the key was
    /// already stored: the key joins its fields with an unescaped `:`,
    /// so two distinct properties can share a table entry, but a
    /// shared entry can never change what a caller gets back.
    pub fn get_property_embedding(&mut self, property: &Property) -> (r: Vec<u128>)
        requires
            old(self).wf(),
        ensures
            final(self).wf(),
            r@.len() == 64,
            forall|j: int|
                0 <= j < 64 ==> r@[j] == slot_sum(
                    encode_utf8(property_text_spec(*property)),
                    j,
                ) as u128,
            tbl_has(old(self).property_table(), property_key_spec(*property)) ==> final(self).property_table() == old(self).property_table(),
            !tbl_has(old(self).property_table(), property_key_spec(*property)) ==> final(self).property_table() == old(self).property_table().push(
                (property_key_spec(*property), r@),
            ),
            final(self).raw_table() == old(self).raw_table(),
            final(self).entity_table() == old(self).entity_table(),
            final(self).action_table() == old(self).action_table(),
    {
        let combined = join3(&property.entity, &property.attribute, &property.value, " ");
        let fresh = calculate_embedding(combined.as_str());
        let key = join3(&property.entity, &property.attribute, &property.value, ":");
        lookup_or_insert(&mut self.property_embeddings, key, fresh)
    }

    /// Forgets nothing: age-based eviction is declared but every entry
    /// is currently retained, exactly as stated.
    pub fn cleanup_old_embeddings(&mut self, _max_age_seconds: u64)
        ensures
            *final(self) == *old(self),
    {
    }

    /// Counts of stored profiles in each provenance table.
    pub fn get_cache_stats(&self) -> (r: CacheStats)
        ensures
            r.total_embeddings == self.raw_table().len(),
            r.entity_embeddings == self.entity_table().len(),
            r.action_embeddings == self.action_table().len(),
            r.property_embeddings == self.property_table().len(),
    {
        CacheStats {
            total_embeddings: self.embeddings.len(),
            entity_embeddings: self.entity_embeddings.len(),
            action_embeddings: self.action_embeddings.len(),
            property_embeddings: self.property_embeddings.len(),
        }
    }
}

/// Strict ranking order on (candidate index, score) pairs: higher
/// score first, ties broken by ascending candidate index.
pub open spec fn ranks_before(a: (usize, u64), b: (usize, u64)) -> bool {
    a.1 > b.1 || (a.1 == b.1 && a.0 < b.0)
}

/// Some position of `ps` holds candidate index `idx`.
pub open spec fn holds_index(ps: Seq<(usize, u64)>, idx: int) -> bool {
    exists|m: int| 0 <= m < ps.len() && (#[trigger] ps[m]).0 == idx
}

/// Ranked top-k retrieval over order-encoded similarity scores: the
/// result pairs every retained candidate index with its score, sorted
/// descending by score with ties in ascending index order, truncated
/// to the first `top_k`; every candidate left out ranks no better than
/// any returned pair. Scores are compared as unsigned keys, so any
/// order-preserving encoding of a similarity measure ranks exactly as
/// the measure itself.
#[verifier::loop_isolation(false)]
pub fn find_similar_embeddings(scores: &Vec<u64>, top_k: usize) -> (r: Vec<(usize, u64)>)
    ensures
        r@.len() == if top_k <= scores@.len() {
            top_k as int
        } else {
            scores@.len() as int
        },
        forall|m: int|
            0 <= m < r@.len() ==> (#[trigger] r@[m]).0 < scores@.len()
                && r@[m].1 == scores@[r@[m].0 as int],
        forall|m1: int, m2: int| 0 <= m1 < m2 < r@.len() ==> ranks_before(r@[m1], r@[m2]),
        forall|idx: int|
            0 <= idx < scores@.len() && !holds_index(r@, idx) ==> forall|m: int|
                0 <= m < r@.len() ==> ranks_before(#[trigger] r@[m], (idx as usize, scores@[idx])),
{
    let n = scores.len();
    let mut pairs: Vec<(usize, u64)> = Vec::new();
    let mut i: usize = 0;
    while i < n
        invariant
            i <= n,
            pairs@.len() == i,
            forall|m: int| 0 <= m < i ==> (#[trigger] pairs@[m]) == (m as usize, scores@[m]),
        decreases n - i,
    {
        pairs.push((i, scores[i]));
        i += 1;
    }
    proof {
        assert forall|idx: int| 0 <= idx < n implies holds_index(pairs@, idx) by {
            assert(pairs@[idx].0 == idx);
        }
    }
    let mut i: usize = 0;
    while i < n
        invariant
            i <= n,
            pairs@.len() == n,
            forall|m: int|
                0 <= m < n ==> (#[trigger] pairs@[m]).0 < n
                    && pairs@[m].1 == scores@[pairs@[m].0 as int],
            forall|m1: int, m2: int| 0 <= m1 < m2 < n ==> pairs@[m1].0 != pairs@[m2].0,
            forall|idx: int| 0 <= idx < n ==> holds_index(pairs@, idx),
            forall|m1: int, m2: int| 0 <= m1 < m2 < i ==> ranks_before(pairs@[m1], pairs@[m2]),
            forall|m1: int, m2: int|
                0 <= m1 < i && i <= m2 < n ==> ranks_before(pairs@[m1], pairs@[m2]),
        decreases n - i,
    {
        let mut best: usize = i;
        let mut m: usize = i + 1;
        while m < n
            invariant
                i <= best < m <= n,
                forall|t: int|
                    i <= t < m ==> best == t || ranks_before(
                        pairs@[best as int],
                        #[trigger] pairs@[t],
                    ),
            decreases n - m,
        {
            let (bi, bs) = pairs[best];
            let (ci, cs) = pairs[m];
            if cs > bs || (cs == bs && ci < bi) {
                best = m;
            }
            m += 1;
        }
        let ghost prev = pairs@;
        let pair_i = pairs[i];
        let pair_best = pairs[best];
        pairs.set(i, pair_best);
        pairs.set(best, pair_i);
        proof {
            assert forall|m1: int, m2: int| 0 <= m1 < m2 < n implies pairs@[m1].0 != pairs@[m2].0 by {
                assert(pairs@[m1] == prev[if m1 == i { best as int } else if m1 == best { i as int } else { m1 }]);
                assert(pairs@[m2] == prev[if m2 == i { best as int } else if m2 == best { i as int } else { m2 }]);
            }
            assert forall|idx: int| 0 <= idx < n implies holds_index(pairs@, idx) by {
                assert(holds_index(prev, idx));
                let mm = choose|mm: int| 0 <= mm < prev.len() && (#[trigger] prev[mm]).0 == idx;
                if mm == i {
                    assert(pairs@[best as int].0 == idx);
                } else if mm == best {
                    assert(pairs@[i as int].0 == idx);
                } else {
                    assert(pairs@[mm].0 == idx);
                }
            }
            assert forall|m2: int| i < m2 < n implies ranks_before(pairs@[i as int], pairs@[m2]) by {
                if best == i {
                    assert(pairs@[m2] == prev[m2]);
                } else if m2 == best as int {
                    assert(pairs@[m2] == prev[i as int]);
                    assert(ranks_before(prev[best as int], prev[i as int]));
                } else {
                    assert(pairs@[m2] == prev[m2]);
                }
            }
            assert forall|m1: int, m2: int| 0 <= m1 < i && i <= m2 < n implies ranks_before(
                pairs@[m1],
                pairs@[m2],
            ) by {
                assert(pairs@[m1] == prev[m1]);
                assert(pairs@[m2] == prev[if m2 == i { best as int } else if m2 == best { i as int } else { m2 }]);
            }
        }
        i += 1;
    }
    let ghost full = pairs@;
    pairs.truncate(top_k);
    proof {
        assert forall|idx: int|
            0 <= idx < n && !holds_index(pairs@, idx) implies forall|m: int|
            0 <= m < pairs@.len() ==> ranks_before(#[trigger] pairs@[m], (idx as usize, scores@[idx])) by {
            assert(holds_index(full, idx));
            let mm = choose|mm: int| 0 <= mm < full.len() && (#[trigger] full[mm]).0 == idx;
            assert(full[mm].1 == scores@[full[mm].0 as int]);
            assert(full[mm].1 == scores@[idx]);
            if mm < pairs@.len() {
                assert(pairs@[mm].0 == idx);
            }
            assert forall|m: int| 0 <= m < pairs@.len() implies ranks_before(
                #[trigger] pairs@[m],
                (idx as usize, scores@[idx]),
            ) by {
                assert(pairs@[m] == full[m]);
                assert(ranks_before(full[m], full[mm]));
                assert(full[mm] == (idx as usize, scores@[idx]));
            }
        }
    }
    pairs
}

} // verus!
