//! Durable, namespaced collection of memory items with similarity search and
//! a capacity bound.
//!
//! Embeddings are held in fixed point: each coordinate is a signed value
//! scaled by `EMBED_SCALE`, so for unit-length embedding vectors the dot
//! product of two items is their cosine similarity scaled by `SIM_ONE`.
//! Similarity thresholds are expressed on that same scale.

use vstd::prelude::*;

use crate::sanitize::sanitize_storage_content;
use crate::sanitize::sanitize_storage_spec;
use crate::text::dec_spec;
use crate::text::format_u64;
use crate::text::str_eq;
use crate::text::string_from;

verus! {

/// Fixed-point one for a single embedding coordinate.
pub const EMBED_SCALE: i64 = 10_000;

/// Fixed-point one for a similarity score: `EMBED_SCALE * EMBED_SCALE`.
pub const SIM_ONE: i64 = 100_000_000;

/// Largest embedding length the store accepts; keeps dot products in `i64`.
pub const MAX_DIM: usize = 65536;

/// One durable fact.
pub struct MemoryItem {
    /// Opaque unique identifier, assigned on creation, immutable.
    pub id: String,
    /// Numeric form of `id`; `id` is its decimal rendering.
    pub id_num: u64,
    /// Plain-text fact, markup-breaking sequences neutralized.
    pub content: String,
    /// Fixed-point embedding, recomputed whenever `content` changes.
    pub embedding: Vec<i16>,
    /// Logical partition; queries and mutations are namespace-scoped.
    pub namespace: String,
    /// Importance weight in [0, 1000] (per-mille of 1.0).
    pub importance: u32,
    pub created_at: u64,
    pub updated_at: u64,
}

/// Copy a fixed-point embedding.
pub fn copy_embedding(e: &Vec<i16>) -> (r: Vec<i16>)
    ensures
        r@ == e@,
{
    let mut r: Vec<i16> = Vec::new();
    let mut i: usize = 0;
    while i < e.len()
        invariant
            0 <= i <= e@.len(),
            r@ == e@.take(i as int),
        decreases e@.len() - i,
    {
        r.push(e[i]);
        assert(r@ =~= e@.take(i + 1));
        i += 1;
    }
    assert(e@.take(e@.len() as int) =~= e@);
    r
}

/// `a` carries the same fact as `b`: every field agrees (embeddings by
/// contents).
pub open spec fn item_like(a: MemoryItem, b: MemoryItem) -> bool {
    &&& a.id == b.id
    &&& a.id_num == b.id_num
    &&& a.content == b.content
    &&& a.embedding@ == b.embedding@
    &&& a.namespace == b.namespace
    &&& a.importance == b.importance
    &&& a.created_at == b.created_at
    &&& a.updated_at == b.updated_at
}

impl MemoryItem {
    /// A copy that carries the same fact as `self`.
    pub fn duplicate(&self) -> (r: MemoryItem)
        ensures
            item_like(r, *self),
    {
        MemoryItem {
            id: self.id.clone(),
            id_num: self.id_num,
            content: self.content.clone(),
            embedding: copy_embedding(&self.embedding),
            namespace: self.namespace.clone(),
            importance: self.importance,
            created_at: self.created_at,
            updated_at: self.updated_at,
        }
    }
}

/// Sum of the first `n` coordinate products of `a` and `b`.
pub open spec fn dot_spec(a: Seq<i16>, b: Seq<i16>, n: int) -> int
    decreases n,
    when n >= 0
{
    if n <= 0 {
        0
    } else {
        dot_spec(a, b, n - 1) + a[n - 1] * b[n - 1]
    }
}

/// Similarity score of two embeddings: dot product over their common prefix.
pub open spec fn score_spec(q: Seq<i16>, e: Seq<i16>) -> int {
    dot_spec(q, e, if q.len() < e.len() {
        q.len() as int
    } else {
        e.len() as int
    })
}

proof fn lemma_dot_bound(a: Seq<i16>, b: Seq<i16>, n: int)
    requires
        0 <= n,
        n <= a.len(),
        n <= b.len(),
    ensures
        -n * 0x4000_0000 <= dot_spec(a, b, n) <= n * 0x4000_0000,
    decreases n,
{
    if n > 0 {
        lemma_dot_bound(a, b, n - 1);
        let x = a[n - 1] as int;
        let y = b[n - 1] as int;
        assert(-0x4000_0000 <= x * y <= 0x4000_0000) by (nonlinear_arith)
            requires
                -0x8000 <= x <= 0x7fff,
                -0x8000 <= y <= 0x7fff,
        ;
    }
}

/// Similarity score of two embeddings.
pub fn score_of(q: &Vec<i16>, e: &Vec<i16>) -> (r: i64)
    requires
        q@.len() <= MAX_DIM || e@.len() <= MAX_DIM,
    ensures
        r == score_spec(q@, e@),
        -0x4000_0000_0000 <= r <= 0x4000_0000_0000,
{
    let n = if q.len() < e.len() {
        q.len()
    } else {
        e.len()
    };
    let mut acc: i64 = 0;
    let mut i: usize = 0;
    while i < n
        invariant
            n <= q@.len(),
            n <= e@.len(),
            n <= MAX_DIM,
            0 <= i <= n,
            acc == dot_spec(q@, e@, i as int),
            -(i as int) * 0x4000_0000 <= acc <= (i as int) * 0x4000_0000,
        decreases n - i,
    {
        let x = q[i] as i64;
        let y = e[i] as i64;
        proof {
            assert(-0x4000_0000 <= (x as int) * (y as int) <= 0x4000_0000) by (nonlinear_arith)
                requires
                    -0x8000 <= x as int <= 0x7fff,
                    -0x8000 <= y as int <= 0x7fff,
            ;
        }
        acc = acc + x * y;
        i += 1;
    }
    proof {
        lemma_dot_bound(q@, e@, n as int);
    }
    acc
}

/// `a` is evicted before `b`: lower importance, or equal importance and older.
pub open spec fn more_evictable(a: MemoryItem, b: MemoryItem) -> bool {
    a.importance < b.importance || (a.importance == b.importance && a.created_at < b.created_at)
}

/// `e` is the index the capacity bound evicts: the first item with the least
/// importance, oldest among equals.
pub open spec fn is_evict_choice(items: Seq<MemoryItem>, e: int) -> bool {
    &&& 0 <= e < items.len()
    &&& forall|j: int| 0 <= j < items.len() ==> !more_evictable(#[trigger] items[j], items[e])
    &&& forall|j: int| 0 <= j < e ==> more_evictable(items[e], #[trigger] items[j])
}

/// An id, once issued, never refers to another item: the identifiers of a
/// well-formed store are pairwise distinct.
pub proof fn lemma_ids_unique(s: &VectorMemoryStore)
    requires
        s.wf(),
    ensures
        forall|i: int, j: int|
            0 <= i < j < s.items().len() ==> s.items()[i].id@ != s.items()[j].id@,
{
    assert forall|i: int, j: int| 0 <= i < j < s.items().len() implies s.items()[i].id@
        != s.items()[j].id@ by {
        crate::text::lemma_dec_injective(
            s.items()[i].id_num as int,
            s.items()[j].id_num as int,
        );
    }
}

/// The effect of adding one fact to a store whose items, next key and
/// capacity were `pre_items`, `pre_key` and `cap`: the new item sits at the
/// end with sanitized content and the id minted from `pre_key`, and when the
/// store was full the least-importance/oldest item was evicted first.
pub open spec fn add_effect(
    pre_items: Seq<MemoryItem>,
    pre_key: int,
    cap: int,
    post: VectorMemoryStore,
    content: Seq<char>,
    importance: u32,
    ns: Seq<char>,
    emb: Seq<i16>,
    now: u64,
) -> bool {
    &&& post.items().len() >= 1
    &&& ({
        let ni = post.items().last();
        &&& ni.id@ == dec_spec(pre_key)
        &&& ni.content@ == sanitize_storage_spec(content)
        &&& ni.embedding@ == emb
        &&& ni.namespace@ == ns
        &&& ni.importance == importance
        &&& ni.created_at == now
        &&& ni.updated_at == now
    })
    &&& if pre_items.len() < cap {
        post.items().drop_last() == pre_items
    } else {
        exists|e: int| is_evict_choice(pre_items, e) && post.items().drop_last() == pre_items.remove(e)
    }
    &&& post.next_key() == pre_key + 1
}

/// Durable, namespaced vector memory store with a capacity bound.
pub struct VectorMemoryStore {
    items: Vec<MemoryItem>,
    max_items: usize,
    next_id: u64,
}

impl VectorMemoryStore {
    /// The stored items, in insertion order.
    pub closed spec fn items(&self) -> Seq<MemoryItem> {
        self.items@
    }

    /// The capacity bound.
    pub closed spec fn capacity(&self) -> int {
        self.max_items as int
    }

    /// The numeric key the next added item will get.
    pub closed spec fn next_key(&self) -> int {
        self.next_id as int
    }

    /// The store can still mint fresh identifiers. `add` advances the key by
    /// one and the other mutations keep it, so callers can chain.
    pub open spec fn fresh_ids_left(&self) -> bool {
        self.next_key() < u64::MAX
    }

    /// Internal invariant: capacity is positive, identifiers are distinct and
    /// below the next free one, and every embedding is within the length
    /// bound with importance in range.
    pub closed spec fn wf(&self) -> bool {
        &&& self.max_items >= 1
        &&& forall|i: int|
            0 <= i < self.items@.len() ==> (#[trigger] self.items@[i]).id_num < self.next_id
        &&& forall|i: int, j: int|
            0 <= i < j < self.items@.len() ==> self.items@[i].id_num != self.items@[j].id_num
        &&& forall|i: int|
            0 <= i < self.items@.len() ==> (#[trigger] self.items@[i]).id@ == dec_spec(
                self.items@[i].id_num as int,
            )
        &&& forall|i: int|
            0 <= i < self.items@.len() ==> (#[trigger] self.items@[i]).embedding@.len() <= MAX_DIM
        &&& forall|i: int|
            0 <= i < self.items@.len() ==> (#[trigger] self.items@[i]).importance <= crate::IMPORTANCE_ONE
    }

    /// An empty store with the given capacity bound.
    pub fn new(max_items: usize) -> (r: VectorMemoryStore)
        requires
            max_items >= 1,
        ensures
            r.wf(),
            r.items() == Seq::<MemoryItem>::empty(),
            r.capacity() == max_items,
            r.fresh_ids_left(),
    {
        let r = VectorMemoryStore { items: Vec::new(), max_items, next_id: 1 };
        assert(r.items@ =~= Seq::<MemoryItem>::empty());
        r
    }

    /// Number of stored items.
    pub fn len(&self) -> (r: usize)
        ensures
            r == self.items().len(),
    {
        self.items.len()
    }

    /// Whether a fresh identifier can still be minted.
    pub fn ids_left(&self) -> (r: bool)
        ensures
            r == self.fresh_ids_left(),
    {
        self.next_id < u64::MAX
    }

    /// Index that would be evicted to make room, if the store is non-empty.
    fn evict_index(&self) -> (r: usize)
        requires
            self.items().len() > 0,
        ensures
            is_evict_choice(self.items(), r as int),
    {
        let n = self.items.len();
        let mut best: usize = 0;
        let mut j: usize = 1;
        while j < n
            invariant
                n == self.items@.len(),
                0 <= best < j <= n,
                forall|t: int|
                    0 <= t < j ==> !more_evictable(
                        #[trigger] self.items@[t],
                        self.items@[best as int],
                    ),
                forall|t: int|
                    0 <= t < best ==> more_evictable(
                        self.items@[best as int],
                        #[trigger] self.items@[t],
                    ),
            decreases n - j,
        {
            let a = &self.items[j];
            let b = &self.items[best];
            if a.importance < b.importance || (a.importance == b.importance && a.created_at
                < b.created_at) {
                best = j;
            }
            j += 1;
        }
        best
    }

    /// Add a fact: sanitize the content, assign a fresh id, and append the
    /// item; when the capacity bound would be exceeded, first evict the
    /// least-importance/oldest item.
    pub fn add(
        &mut self,
        content: &str,
        importance: u32,
        namespace: &str,
        embedding: &Vec<i16>,
        now: u64,
    ) -> (id: String)
        requires
            old(self).wf(),
            old(self).fresh_ids_left(),
            importance <= crate::IMPORTANCE_ONE,
            embedding@.len() <= MAX_DIM,
        ensures
            final(self).wf(),
            final(self).capacity() == old(self).capacity(),
            id@ == dec_spec(old(self).next_key()),
            add_effect(
                old(self).items(),
                old(self).next_key(),
                old(self).capacity(),
                *final(self),
                content@,
                importance,
                namespace@,
                embedding@,
                now,
            ),
    {
        let id_chars = format_u64(self.next_id);
        let id = string_from(&id_chars);
        let item = MemoryItem {
            id: id.clone(),
            id_num: self.next_id,
            content: sanitize_storage_content(content),
            embedding: copy_embedding(embedding),
            namespace: namespace.to_owned(),
            importance,
            created_at: now,
            updated_at: now,
        };
        if self.items.len() >= self.max_items {
            let e = self.evict_index();
            let ghost pre = self.items@;
            let _ = self.items.remove(e);
            proof {
                assert(self.items@ =~= pre.remove(e as int));
            }
        }
        let ghost kept = self.items@;
        self.items.push(item);
        self.next_id = self.next_id + 1;
        proof {
            assert(self.items@.drop_last() =~= kept);
        }
        id
    }

    /// Copies of all stored items, in insertion order, for persistence.
    pub fn snapshot(&self) -> (r: Vec<MemoryItem>)
        ensures
            r@.len() == self.items().len(),
            forall|i: int| 0 <= i < r@.len() ==> item_like(#[trigger] r@[i], self.items()[i]),
    {
        let mut r: Vec<MemoryItem> = Vec::new();
        let mut i: usize = 0;
        while i < self.items.len()
            invariant
                0 <= i <= self.items@.len(),
                r@.len() == i,
                forall|t: int| 0 <= t < i ==> item_like(#[trigger] r@[t], self.items@[t]),
            decreases self.items@.len() - i,
        {
            r.push(self.items[i].duplicate());
            i += 1;
        }
        r
    }

    /// Rebuild a store from persisted items, validating what the invariant
    /// needs: a positive capacity, embeddings within the length bound,
    /// importances in range, and distinct numeric ids that match their
    /// decimal renderings. `None` when the persisted data is unusable.
    #[verifier::loop_isolation(false)]
    pub fn try_restore(items: Vec<MemoryItem>, max_items: usize) -> (r: Option<VectorMemoryStore>)
        ensures
            ({
                let ok = {
                    &&& max_items >= 1
                    &&& forall|i: int|
                        0 <= i < items@.len() ==> (#[trigger] items@[i]).embedding@.len()
                            <= MAX_DIM
                    &&& forall|i: int|
                        0 <= i < items@.len() ==> (#[trigger] items@[i]).importance <= crate::IMPORTANCE_ONE
                    &&& forall|i: int|
                        0 <= i < items@.len() ==> (#[trigger] items@[i]).id@ == dec_spec(
                            items@[i].id_num as int,
                        )
                    &&& forall|i: int|
                        0 <= i < items@.len() ==> (#[trigger] items@[i]).id_num < u64::MAX
                    &&& forall|i: int, j: int|
                        0 <= i < j < items@.len() ==> items@[i].id_num != items@[j].id_num
                };
                &&& (r is Some) == ok
                &&& r is Some ==> ({
                    let s = r->Some_0;
                    &&& s.wf()
                    &&& s.items() == items@
                    &&& s.capacity() == max_items
                })
            }),
    {
        if max_items < 1 {
            return None;
        }
        let n = items.len();
        let mut next: u64 = 1;
        let mut i: usize = 0;
        while i < n
            invariant
                0 <= i <= n,
                n == items@.len(),
                next >= 1,
                forall|t: int|
                    0 <= t < i ==> (#[trigger] items@[t]).embedding@.len() <= MAX_DIM,
                forall|t: int| 0 <= t < i ==> (#[trigger] items@[t]).importance <= crate::IMPORTANCE_ONE,
                forall|t: int|
                    0 <= t < i ==> (#[trigger] items@[t]).id@ == dec_spec(items@[t].id_num as int),
                forall|t: int| 0 <= t < i ==> (#[trigger] items@[t]).id_num < u64::MAX,
                forall|t: int| 0 <= t < i ==> (#[trigger] items@[t]).id_num < next,
                forall|t: int, u: int| 0 <= t < u < i ==> items@[t].id_num != items@[u].id_num,
            decreases n - i,
        {
            let it = &items[i];
            if it.embedding.len() > MAX_DIM || it.importance > crate::IMPORTANCE_ONE {
                return None;
            }
            if it.id_num == u64::MAX {
                return None;
            }
            let rendered = string_from(&format_u64(it.id_num));
            if !str_eq(it.id.as_str(), rendered.as_str()) {
                return None;
            }
            let mut j: usize = 0;
            while j < i
                invariant
                    0 <= j <= i < n,
                    forall|u: int| 0 <= u < j ==> items@[u].id_num != items@[i as int].id_num,
                decreases i - j,
            {
                if items[j].id_num == it.id_num {
                    return None;
                }
                j += 1;
            }
            if it.id_num >= next {
                next = it.id_num + 1;
            }
            i += 1;
        }
        let s = VectorMemoryStore { items, max_items, next_id: next };
        Some(s)
    }

    /// Index of the first item with this id in this namespace, or a negative
    /// value if there is none.
    fn find_item(&self, id: &str, namespace: &str) -> (r: Option<usize>)
        ensures
            match r {
                Some(i) => first_match(self.items(), id@, namespace@) == i as int,
                None => first_match(self.items(), id@, namespace@) < 0,
            },
    {
        let n = self.items.len();
        let mut i: usize = 0;
        while i < n
            invariant
                n == self.items@.len(),
                0 <= i <= n,
                forall|j: int|
                    0 <= j < i ==> !((#[trigger] self.items@[j]).id@ == id@
                        && self.items@[j].namespace@ == namespace@),
            decreases n - i,
        {
            let it = &self.items[i];
            if str_eq(it.id.as_str(), id) && str_eq(it.namespace.as_str(), namespace) {
                proof {
                    lemma_first_match_found(self.items@, id@, namespace@, i as int);
                }
                return Some(i);
            }
            i += 1;
        }
        proof {
            lemma_first_match_missing(self.items@, id@, namespace@);
        }
        None
    }

    /// Update an item in place: new sanitized content, new embedding, bumped
    /// `updated_at`. Fails softly (`None`) when id/namespace do not match.
    pub fn update(
        &mut self,
        id: &str,
        content: &str,
        importance: u32,
        namespace: &str,
        embedding: &Vec<i16>,
        now: u64,
    ) -> (r: Option<MemoryItem>)
        requires
            old(self).wf(),
            importance <= crate::IMPORTANCE_ONE,
            embedding@.len() <= MAX_DIM,
        ensures
            final(self).wf(),
            final(self).capacity() == old(self).capacity(),
            final(self).next_key() == old(self).next_key(),
            final(self).fresh_ids_left() == old(self).fresh_ids_left(),
            ({
                let m = first_match(old(self).items(), id@, namespace@);
                if m < 0 {
                    final(self).items() == old(self).items() && r is None
                } else {
                    let prev = old(self).items()[m];
                    &&& r is Some
                    &&& ({
                        let ni = r->Some_0;
                        &&& ni.id == prev.id
                        &&& ni.id_num == prev.id_num
                        &&& ni.content@ == sanitize_storage_spec(content@)
                        &&& ni.embedding@ == embedding@
                        &&& ni.namespace == prev.namespace
                        &&& ni.importance == importance
                        &&& ni.created_at == prev.created_at
                        &&& ni.updated_at == now
                        &&& final(self).items().len() == old(self).items().len()
                        &&& item_like(final(self).items()[m], ni)
                        &&& forall|j: int|
                            0 <= j < old(self).items().len() && j != m ==> final(self).items()[j]
                                == old(self).items()[j]
                    })
                }
            }),
    {
        match self.find_item(id, namespace) {
            None => None,
            Some(m) => {
                proof {
                    lemma_first_match_in_range(self.items@, id@, namespace@);
                }
                let prev = self.items.remove(m);
                let ni = MemoryItem {
                    id: prev.id,
                    id_num: prev.id_num,
                    content: sanitize_storage_content(content),
                    embedding: copy_embedding(embedding),
                    namespace: prev.namespace,
                    importance,
                    created_at: prev.created_at,
                    updated_at: now,
                };
                let out = ni.duplicate();
                let ghost removed = self.items@;
                self.items.insert(m, ni);
                proof {
                    assert(forall|j: int|
                        0 <= j < old(self).items@.len() && j != m ==> self.items@[j] == old(
                            self,
                        ).items@[j]);
                }
                Some(out)
            },
        }
    }

    /// Delete an item; idempotent. Returns whether an item was removed.
    pub fn delete(&mut self, id: &str, namespace: &str) -> (r: bool)
        requires
            old(self).wf(),
        ensures
            final(self).wf(),
            final(self).capacity() == old(self).capacity(),
            final(self).next_key() == old(self).next_key(),
            final(self).fresh_ids_left() == old(self).fresh_ids_left(),
            ({
                let m = first_match(old(self).items(), id@, namespace@);
                if m < 0 {
                    final(self).items() == old(self).items() && r == false
                } else {
                    final(self).items() == old(self).items().remove(m) && r == true
                }
            }),
    {
        match self.find_item(id, namespace) {
            None => false,
            Some(m) => {
                proof {
                    lemma_first_match_in_range(self.items@, id@, namespace@);
                }
                let _ = self.items.remove(m);
                true
            },
        }
    }
}

/// Item `i` is a hit for this query: right namespace and a score at or above
/// both the similarity threshold and the score floor.
pub open spec fn qualifies(
    items: Seq<MemoryItem>,
    q: Seq<i16>,
    ns: Seq<char>,
    threshold: int,
    floor: int,
    i: int,
) -> bool {
    &&& 0 <= i < items.len()
    &&& items[i].namespace@ == ns
    &&& score_spec(q, items[i].embedding@) >= threshold
    &&& score_spec(q, items[i].embedding@) >= floor
}

/// Number of hits among the first `n` items.
pub open spec fn hit_count(
    items: Seq<MemoryItem>,
    q: Seq<i16>,
    ns: Seq<char>,
    threshold: int,
    floor: int,
    n: int,
) -> int
    decreases n,
    when n >= 0
{
    if n <= 0 {
        0
    } else {
        hit_count(items, q, ns, threshold, floor, n - 1) + if qualifies(
            items,
            q,
            ns,
            threshold,
            floor,
            n - 1,
        ) {
            1int
        } else {
            0int
        }
    }
}

/// A returned pair is a copy of some hit of `items`, with its score.
pub open spec fn search_hit(
    items: Seq<MemoryItem>,
    q: Seq<i16>,
    ns: Seq<char>,
    threshold: int,
    floor: int,
    p: (MemoryItem, i64),
) -> bool {
    exists|t: int|
        {
            &&& #[trigger] qualifies(items, q, ns, threshold, floor, t)
            &&& item_like(p.0, items[t])
            &&& p.1 == score_spec(q, items[t].embedding@)
        }
}

/// Hit `t` of `items` appears in the result `r`: some returned pair carries
/// a copy of that item together with its score.
pub open spec fn represented(
    items: Seq<MemoryItem>,
    q: Seq<i16>,
    r: Seq<(MemoryItem, i64)>,
    t: int,
) -> bool {
    exists|i: int|
        0 <= i < r.len() && item_like((#[trigger] r[i]).0, items[t]) && r[i].1 == score_spec(
            q,
            items[t].embedding@,
        )
}

/// The index/score pair of hit `t` appears among `ps`.
spec fn holds_hit(ps: Seq<(usize, i64)>, items: Seq<MemoryItem>, q: Seq<i16>, t: int) -> bool {
    exists|j: int|
        0 <= j < ps.len() && (#[trigger] ps[j]).0 == t && ps[j].1 == score_spec(
            q,
            items[t].embedding@,
        )
}

/// An index/score pair records a hit of `items` for this query.
pub open spec fn hit_pair(
    items: Seq<MemoryItem>,
    q: Seq<i16>,
    ns: Seq<char>,
    threshold: int,
    floor: int,
    p: (usize, i64),
) -> bool {
    &&& qualifies(items, q, ns, threshold, floor, p.0 as int)
    &&& p.1 == score_spec(q, items[p.0 as int].embedding@)
}

proof fn lemma_to_multiset_insert(s: Seq<(usize, i64)>, i: int, x: (usize, i64))
    requires
        0 <= i <= s.len(),
    ensures
        s.insert(i, x).to_multiset() =~= s.to_multiset().insert(x),
{
    broadcast use vstd::seq_lib::group_to_multiset_ensures;

    let t = s.insert(i, x);
    assert(t.remove(i) =~= s);
    assert(t[i] == x);
    assert(t.remove(i).to_multiset() =~= t.to_multiset().remove(t[i]));
    assert(t.contains(x));
    assert(t.to_multiset().count(x) > 0);
    assert(t.to_multiset().remove(x).insert(x) =~= t.to_multiset());
}

impl VectorMemoryStore {
    /// Similarity search with an already-computed query embedding: up to `k`
    /// items of `namespace` scoring at least `threshold` (and at least
    /// `floor`), ranked by descending score. An empty result is valid and
    /// signals that no related memory exists.
    #[verifier::loop_isolation(false)]
    pub fn search(
        &self,
        q: &Vec<i16>,
        k: usize,
        threshold: i64,
        namespace: &str,
        floor: i64,
    ) -> (r: Vec<(MemoryItem, i64)>)
        requires
            self.wf(),
        ensures
            r@.len() <= k,
            r@.len() == vstd::math::min(
                k as int,
                hit_count(
                    self.items(),
                    q@,
                    namespace@,
                    threshold as int,
                    floor as int,
                    self.items().len() as int,
                ),
            ),
            forall|i: int| 0 <= i < r@.len() ==> (#[trigger] r@[i]).1 >= threshold,
            forall|i: int| 0 <= i < r@.len() ==> (#[trigger] r@[i]).1 >= floor,
            forall|i: int, j: int| 0 <= i < j < r@.len() ==> r@[i].1 >= r@[j].1,
            forall|i: int|
                0 <= i < r@.len() ==> search_hit(
                    self.items(),
                    q@,
                    namespace@,
                    threshold as int,
                    floor as int,
                    #[trigger] r@[i],
                ),
            forall|t: int|
                #[trigger] qualifies(
                    self.items(),
                    q@,
                    namespace@,
                    threshold as int,
                    floor as int,
                    t,
                ) ==> represented(self.items(), q@, r@, t) || (r@.len() == k && (k == 0
                    || score_spec(q@, self.items()[t].embedding@) <= r@[r@.len() - 1].1)),
    {
        broadcast use vstd::seq_lib::group_to_multiset_ensures;

        let ghost items = self.items@;
        let ghost thr = threshold as int;
        let ghost fl = floor as int;
        let n = self.items.len();

        // Collect the hits in index order.
        let mut pairs: Vec<(usize, i64)> = Vec::new();
        let mut i: usize = 0;
        while i < n
            invariant
                self.wf(),
                items == self.items@,
                n == items.len(),
                0 <= i <= n,
                pairs@.len() == hit_count(items, q@, namespace@, thr, fl, i as int),
                forall|t: int|
                    0 <= t < pairs@.len() ==> hit_pair(
                        items,
                        q@,
                        namespace@,
                        thr,
                        fl,
                        #[trigger] pairs@[t],
                    ),
                forall|t: int|
                    0 <= t < i && #[trigger] qualifies(items, q@, namespace@, thr, fl, t)
                        ==> holds_hit(pairs@, items, q@, t),
            decreases n - i,
        {
            let ghost pre_pairs = pairs@;
            let it = &self.items[i];
            let mut hit = false;
            if str_eq(it.namespace.as_str(), namespace) {
                let s = score_of(q, &it.embedding);
                if s >= threshold && s >= floor {
                    pairs.push((i, s));
                    hit = true;
                    proof {
                        assert(0 <= i < items.len());
                        assert(items[i as int].namespace@ == namespace@);
                        assert(s == score_spec(q@, items[i as int].embedding@));
                        assert(qualifies(items, q@, namespace@, thr, fl, i as int));
                        assert(hit_pair(items, q@, namespace@, thr, fl, (i, s)));
                        assert(forall|t: int|
                            0 <= t < pre_pairs.len() ==> pairs@[t] == #[trigger] pre_pairs[t]);
                        assert(pairs@[pre_pairs.len() as int] == (i, s));
                        assert forall|t: int|
                            0 <= t <= i && #[trigger] qualifies(
                                items,
                                q@,
                                namespace@,
                                thr,
                                fl,
                                t,
                            ) implies holds_hit(pairs@, items, q@, t) by {
                            if t < i {
                                assert(holds_hit(pre_pairs, items, q@, t));
                                let j = choose|j: int|
                                    0 <= j < pre_pairs.len() && (#[trigger] pre_pairs[j]).0 == t
                                        && pre_pairs[j].1 == score_spec(q@, items[t].embedding@);
                                assert(pairs@[j] == pre_pairs[j]);
                            } else {
                                assert(pairs@[pre_pairs.len() as int].0 == t);
                            }
                        }
                    }
                }
            }
            proof {
                assert(hit_count(items, q@, namespace@, thr, fl, i + 1) == hit_count(
                    items,
                    q@,
                    namespace@,
                    thr,
                    fl,
                    i as int,
                ) + if qualifies(items, q@, namespace@, thr, fl, i as int) {
                    1int
                } else {
                    0int
                });
                assert(hit == qualifies(items, q@, namespace@, thr, fl, i as int));
            }
            i += 1;
        }
        let ghost all_pairs = pairs@;

        // Sort the hits by descending score.
        let mut sorted: Vec<(usize, i64)> = Vec::new();
        let mut j: usize = 0;
        proof {
            assert(all_pairs.take(0) =~= Seq::<(usize, i64)>::empty());
            assert(Seq::<(usize, i64)>::empty().to_multiset() =~= sorted@.to_multiset());
        }
        while j < pairs.len()
            invariant
                0 <= j <= pairs@.len(),
                pairs@ == all_pairs,
                forall|t: int|
                    0 <= t < all_pairs.len() ==> hit_pair(
                        items,
                        q@,
                        namespace@,
                        thr,
                        fl,
                        #[trigger] all_pairs[t],
                    ),
                sorted@.to_multiset() == all_pairs.take(j as int).to_multiset(),
                forall|a: int, b: int| 0 <= a < b < sorted@.len() ==> sorted@[a].1 >= sorted@[b].1,
            decreases pairs@.len() - j,
        {
            let p = pairs[j];
            let slen = sorted.len();
            let mut pos: usize = 0;
            while pos < slen && sorted[pos].1 >= p.1
                invariant
                    slen == sorted@.len(),
                    0 <= pos <= slen,
                    forall|m: int| 0 <= m < pos ==> (#[trigger] sorted@[m]).1 >= p.1,
                decreases slen - pos,
            {
                pos += 1;
            }
            let ghost pre = sorted@;
            sorted.insert(pos, p);
            proof {
                lemma_to_multiset_insert(pre, pos as int, p);
                lemma_to_multiset_insert(all_pairs.take(j as int), j as int, p);
                assert(all_pairs.take(j as int).insert(j as int, p) =~= all_pairs.take(j + 1));
                assert(sorted@.to_multiset() == all_pairs.take(j + 1).to_multiset());
                assert(forall|a: int, b: int|
                    0 <= a < b < sorted@.len() ==> sorted@[a].1 >= sorted@[b].1) by {
                    assert(forall|m: int| pos < m < sorted@.len() ==> sorted@[m] == pre[m - 1]);
                    assert(forall|m: int| 0 <= m < pos ==> sorted@[m] == pre[m]);
                    if pos < pre.len() {
                        assert(pre[pos as int].1 < p.1);
                    }
                };
            }
            j += 1;
        }
        proof {
            assert(all_pairs.take(all_pairs.len() as int) =~= all_pairs);
            assert(sorted@.to_multiset().len() == sorted@.len());
            assert(all_pairs.to_multiset().len() == all_pairs.len());
            assert(sorted@.len() == all_pairs.len());
            assert forall|t: int| 0 <= t < sorted@.len() implies hit_pair(
                items,
                q@,
                namespace@,
                thr,
                fl,
                #[trigger] sorted@[t],
            ) by {
                assert(sorted@.contains(sorted@[t]));
                assert(sorted@.to_multiset().count(sorted@[t]) > 0);
                assert(all_pairs.to_multiset().count(sorted@[t]) > 0);
                assert(all_pairs.contains(sorted@[t]));
                let w = choose|w: int| 0 <= w < all_pairs.len() && all_pairs[w] == sorted@[t];
                assert(hit_pair(items, q@, namespace@, thr, fl, all_pairs[w]));
            }
        }

        // Keep the top `k`.
        let ghost full = sorted@;
        proof {
            assert(forall|a: int, b: int| 0 <= a < b < full.len() ==> full[a].1 >= full[b].1);
            assert(full.to_multiset() == all_pairs.to_multiset());
        }
        if sorted.len() > k {
            let ghost pre = sorted@;
            sorted.truncate(k);
            proof {
                assert(sorted@ =~= pre.take(k as int));
            }
        }
        proof {
            assert(sorted@.len() == vstd::math::min(
                k as int,
                hit_count(items, q@, namespace@, thr, fl, n as int),
            ));
            assert(forall|t: int| 0 <= t < sorted@.len() ==> sorted@[t] == #[trigger] full[t]);
        }

        // Hand the items out, each paired with its score.
        let mut r: Vec<(MemoryItem, i64)> = Vec::new();
        let mut t: usize = 0;
        while t < sorted.len()
            invariant
                self.wf(),
                items == self.items@,
                r@.len() == t,
                0 <= t <= sorted@.len(),
                forall|m: int|
                    0 <= m < sorted@.len() ==> hit_pair(
                        items,
                        q@,
                        namespace@,
                        thr,
                        fl,
                        #[trigger] sorted@[m],
                    ),
                forall|a: int, b: int| 0 <= a < b < sorted@.len() ==> sorted@[a].1 >= sorted@[b].1,
                forall|m: int| 0 <= m < t ==> (#[trigger] r@[m]).1 == sorted@[m].1,
                forall|m: int|
                    0 <= m < t ==> item_like((#[trigger] r@[m]).0, items[sorted@[m].0 as int]),
            decreases sorted@.len() - t,
        {
            let (idx, s) = sorted[t];
            let item = self.items[idx].duplicate();
            r.push((item, s));
            t += 1;
        }
        proof {
            assert forall|i2: int| 0 <= i2 < r@.len() implies search_hit(
                self.items(),
                q@,
                namespace@,
                threshold as int,
                floor as int,
                #[trigger] r@[i2],
            ) by {
                let w = sorted@[i2].0 as int;
                assert(hit_pair(items, q@, namespace@, thr, fl, sorted@[i2]));
                assert(qualifies(self.items(), q@, namespace@, threshold as int, floor as int, w));
                assert(item_like(r@[i2].0, self.items()[w]));
                assert(r@[i2].1 == score_spec(q@, self.items()[w].embedding@));
            }
            assert forall|t2: int| #[trigger] qualifies(
                self.items(),
                q@,
                namespace@,
                threshold as int,
                floor as int,
                t2,
            ) implies represented(self.items(), q@, r@, t2) || (r@.len() == k && (k == 0
                || score_spec(q@, self.items()[t2].embedding@) <= r@[r@.len() - 1].1)) by {
                assert(0 <= t2 < n);
                assert(holds_hit(all_pairs, items, q@, t2));
                let j = choose|j: int|
                    0 <= j < all_pairs.len() && (#[trigger] all_pairs[j]).0 == t2
                        && all_pairs[j].1 == score_spec(q@, items[t2].embedding@);
                let p = all_pairs[j];
                assert(all_pairs.contains(p));
                assert(all_pairs.to_multiset().count(p) > 0);
                assert(full.to_multiset().count(p) > 0);
                assert(full.contains(p));
                let pos = choose|pos: int| 0 <= pos < full.len() && #[trigger] full[pos] == p;
                if pos < r@.len() {
                    assert(sorted@[pos] == full[pos]);
                    assert(sorted@[pos].0 == t2);
                    assert(item_like(r@[pos].0, items[t2]));
                    assert(r@[pos].1 == score_spec(q@, items[t2].embedding@));
                    assert(represented(self.items(), q@, r@, t2));
                } else {
                    assert(full.len() > r@.len());
                    assert(r@.len() == k);
                    if k > 0 {
                        assert(pos >= k);
                        assert(full[k - 1].1 >= full[pos].1);
                        assert(r@[k - 1].1 == sorted@[k - 1].1);
                        assert(sorted@[k - 1] == full[k - 1]);
                        assert(score_spec(q@, self.items()[t2].embedding@) <= r@[r@.len() - 1].1);
                    }
                }
            }
        }
        r
    }
}

/// Index of the first item of `items` whose id and namespace match, or -1.
pub open spec fn first_match(items: Seq<MemoryItem>, id: Seq<char>, ns: Seq<char>) -> int
    decreases items.len(),
{
    if items.len() == 0 {
        -1
    } else if items[0].id@ == id && items[0].namespace@ == ns {
        0
    } else {
        let r = first_match(items.drop_first(), id, ns);
        if r < 0 {
            -1
        } else {
            r + 1
        }
    }
}

proof fn lemma_first_match_found(items: Seq<MemoryItem>, id: Seq<char>, ns: Seq<char>, i: int)
    requires
        0 <= i < items.len(),
        items[i].id@ == id && items[i].namespace@ == ns,
        forall|j: int| 0 <= j < i ==> !((#[trigger] items[j]).id@ == id && items[j].namespace@ == ns),
    ensures
        first_match(items, id, ns) == i,
    decreases i,
{
    if i > 0 {
        lemma_first_match_found(items.drop_first(), id, ns, i - 1);
    }
}

proof fn lemma_first_match_missing(items: Seq<MemoryItem>, id: Seq<char>, ns: Seq<char>)
    requires
        forall|j: int|
            0 <= j < items.len() ==> !((#[trigger] items[j]).id@ == id && items[j].namespace@
                == ns),
    ensures
        first_match(items, id, ns) < 0,
    decreases items.len(),
{
    if items.len() > 0 {
        lemma_first_match_missing(items.drop_first(), id, ns);
    }
}

proof fn lemma_first_match_in_range(items: Seq<MemoryItem>, id: Seq<char>, ns: Seq<char>)
    ensures
        first_match(items, id, ns) < items.len(),
        first_match(items, id, ns) >= 0 ==> {
            let m = first_match(items, id, ns);
            items[m].id@ == id && items[m].namespace@ == ns
        },
    decreases items.len(),
{
    if items.len() > 0 {
        lemma_first_match_in_range(items.drop_first(), id, ns);
    }
}

} // verus!
