use crate::cache::{
    lemma_refreshed_wf, refreshed, shard_keys, shard_keys_wf, touched, ProofValueCache, ShardId,
    ValueHash,
};
use crate::witness::{
    transition_values, views, witness_transitions, ChunkStateTransition, ChunkStateWitness,
    PartialState,
};
use vstd::multiset::Multiset;
use vstd::prelude::*;

verus! {

/// Proof values at least this long are looked up in the cache and may be
/// elided.
pub const CUT_OFF_VALUE_SIZE: usize = 32000;

/// The content hash of a byte string.
pub uninterp spec fn content_hash(b: Seq<u8>) -> ValueHash;

/// Relies on near_primitives_core::hash::CryptoHash::hash_bytes: the SHA-256
/// digest of the bytes, which depends on the bytes alone.
#[verifier::external_body]
fn hash_value(v: &[u8]) -> (r: ValueHash)
    ensures
        r == content_hash(v@),
{
    near_primitives_core::hash::CryptoHash::hash_bytes(v).0
}

impl ProofValueCache {
    /// Whether the hash of `value` is in the cache of `shard`; recency is
    /// left as it is.
    pub fn contains_value(&self, shard: ShardId, value: &[u8]) -> (r: bool)
        ensures
            r == shard_keys(self@, shard).contains(content_hash(value@)),
    {
        let h = hash_value(value);
        self.contains(shard, &h)
    }
}

/// Whether a value is long enough to be cached.
pub open spec fn is_large(v: Seq<u8>) -> bool {
    v.len() >= CUT_OFF_VALUE_SIZE
}

/// Whether a value is elided against a cache holding `keys`.
pub open spec fn elided(keys: Seq<ValueHash>, v: Seq<u8>) -> bool {
    is_large(v) && keys.contains(content_hash(v))
}

/// The values that stay in a transition against a cache holding `keys`.
pub open spec fn kept_values(keys: Seq<ValueHash>, vals: Seq<Seq<u8>>) -> Seq<Seq<u8>> {
    vals.filter(|v: Seq<u8>| !elided(keys, v))
}

/// Values ordered by length, shortest first.
pub open spec fn sorted_by_len(vals: Seq<Seq<u8>>) -> bool {
    forall|i: int, j: int| 0 <= i <= j < vals.len() ==> vals[i].len() <= vals[j].len()
}

/// Whether some value is large.
pub open spec fn has_large(vals: Seq<Seq<u8>>) -> bool {
    exists|k: int| 0 <= k < vals.len() && is_large(#[trigger] vals[k])
}

/// `keys` after the large values of `vals` are looked up, first to last.
pub open spec fn refresh_all(keys: Seq<ValueHash>, vals: Seq<Seq<u8>>) -> Seq<ValueHash>
    decreases vals.len(),
{
    if vals.len() == 0 {
        keys
    } else {
        let p = refresh_all(keys, vals.drop_last());
        if is_large(vals.last()) {
            refreshed(p, content_hash(vals.last()))
        } else {
            p
        }
    }
}

/// `keys` after the large values of `vals` are touched, last to first.
pub open spec fn touch_desc(keys: Seq<ValueHash>, vals: Seq<Seq<u8>>) -> Seq<ValueHash>
    decreases vals.len(),
{
    if vals.len() == 0 {
        keys
    } else {
        let p = touch_desc(keys, vals.drop_first());
        if is_large(vals[0]) {
            touched(p, content_hash(vals[0]))
        } else {
            p
        }
    }
}

/// `after` is `before` reduced against a cache holding `keys`: the elided
/// values are gone, and the rest are ordered by length.
pub open spec fn values_reduced(
    keys: Seq<ValueHash>,
    before: Seq<Seq<u8>>,
    after: Seq<Seq<u8>>,
) -> bool {
    &&& sorted_by_len(after)
    &&& after.to_multiset() == kept_values(keys, before).to_multiset()
}

/// The cache of a shard after a transition is reduced against it: the large
/// values of `before` are looked up in order, then the large values of
/// `after` are touched from the longest to the shortest.
pub open spec fn keys_after_reduce(
    keys: Seq<ValueHash>,
    before: Seq<Seq<u8>>,
    after: Seq<Seq<u8>>,
) -> Seq<ValueHash> {
    touch_desc(refresh_all(keys, before), after)
}

/// How often a value occurs in a filtered sequence.
pub proof fn lemma_filter_count<A>(s: Seq<A>, p: spec_fn(A) -> bool, v: A)
    ensures
        s.filter(p).to_multiset().count(v) == (if p(v) {
            s.to_multiset().count(v)
        } else {
            0
        }),
    decreases s.len(),
{
    broadcast use vstd::seq_lib::group_to_multiset_ensures;
    broadcast use vstd::multiset::group_multiset_axioms;

    if s.len() == 0 {
        assert(s.filter(p) =~= Seq::<A>::empty());
        assert(s.to_multiset() =~= Multiset::<A>::empty());
        assert(s.filter(p).to_multiset() =~= Multiset::<A>::empty());
    } else {
        let d = s.drop_last();
        lemma_filter_count(d, p, v);
        assert(s =~= d.push(s.last()));
        d.lemma_filter_push(s.last(), p);
    }
}

/// Looking values up keeps a shard's hashes well formed and the same as a set.
proof fn lemma_refresh_all(keys: Seq<ValueHash>, vals: Seq<Seq<u8>>)
    requires
        shard_keys_wf(keys),
    ensures
        shard_keys_wf(refresh_all(keys, vals)),
        forall|x: ValueHash| refresh_all(keys, vals).contains(x) == keys.contains(x),
    decreases vals.len(),
{
    if vals.len() > 0 {
        lemma_refresh_all(keys, vals.drop_last());
        lemma_refreshed_wf(refresh_all(keys, vals.drop_last()), content_hash(vals.last()));
    }
}

/// Inserts `v` into `kept` after every value that is not longer.
fn insert_by_len(kept: &mut Vec<Vec<u8>>, v: Vec<u8>)
    requires
        sorted_by_len(views(old(kept)@)),
    ensures
        sorted_by_len(views(final(kept)@)),
        views(final(kept)@).to_multiset() == views(old(kept)@).to_multiset().insert(v@),
{
    broadcast use vstd::seq_lib::group_to_multiset_ensures;

    let ghost s = views(kept@);
    let mut j = kept.len();
    while j > 0 && kept[j - 1].len() > v.len()
        invariant
            j <= kept.len(),
            s == views(kept@),
            forall|k: int| j <= k < kept.len() ==> s[k].len() > v@.len(),
        decreases j,
    {
        j -= 1;
    }
    kept.insert(j, v);
    assert(views(kept@) =~= s.insert(j as int, v@));
    assert(sorted_by_len(views(kept@))) by {
        let t = views(kept@);
        assert forall|a: int, b: int| 0 <= a <= b < t.len() implies t[a].len() <= t[b].len() by {
            if b < j {
            } else if a < j && b == j {
                assert(s[a].len() <= s[j - 1].len());
            } else if a < j {
                assert(t[b] == s[b - 1]);
                assert(s[a].len() <= s[b - 1].len());
            } else if a == j {
                if b > j {
                    assert(t[b] == s[b - 1]);
                }
            } else {
                assert(t[a] == s[a - 1]);
                assert(t[b] == s[b - 1]);
            }
        }
    }
}

/// Elides from `values` the large values whose hashes the cache of `shard`
/// holds, orders the rest by length, then touches the hashes of the large
/// values kept, from the longest to the shortest. Also says whether any hash
/// was touched.
fn reduce_values(cache: &mut ProofValueCache, shard: ShardId, values: Vec<Vec<u8>>) -> (r: (
    Vec<Vec<u8>>,
    bool,
))
    requires
        old(cache).wf(),
    ensures
        final(cache).wf(),
        values_reduced(shard_keys(old(cache)@, shard), views(values@), views(r.0@)),
        final(cache)@ == old(cache)@.insert(
            shard,
            keys_after_reduce(shard_keys(old(cache)@, shard), views(values@), views(r.0@)),
        ),
        r.1 == has_large(views(r.0@)),
{
    broadcast use vstd::seq_lib::group_to_multiset_ensures;

    let ghost keys0 = shard_keys(cache@, shard);
    let ghost vals0 = views(values@);
    let ghost m0 = cache@;
    proof {
        cache.lemma_bounded(shard);
        assert(vals0.take(0) =~= Seq::<Seq<u8>>::empty());
        assert(kept_values(keys0, vals0.take(0)) =~= Seq::<Seq<u8>>::empty());
    }
    cache.open_shard(shard);
    let mut values = values;
    let mut kept: Vec<Vec<u8>> = Vec::new();
    assert(views(kept@) =~= Seq::<Seq<u8>>::empty());
    let n = values.len();
    let mut i: usize = 0;
    while i < n
        invariant
            n == values.len(),
            n == vals0.len(),
            i <= n,
            forall|j: int| i <= j < n ==> (#[trigger] values@[j])@ == vals0[j],
            cache.wf(),
            shard_keys_wf(keys0),
            cache@ == m0.insert(shard, refresh_all(keys0, vals0.take(i as int))),
            sorted_by_len(views(kept@)),
            views(kept@).to_multiset() == kept_values(keys0, vals0.take(i as int)).to_multiset(),
        decreases n - i,
    {
        proof {
            lemma_refresh_all(keys0, vals0.take(i as int));
            assert(vals0.take(i + 1).drop_last() =~= vals0.take(i as int));
            assert(vals0.take(i + 1) =~= vals0.take(i as int).push(vals0[i as int]));
            vals0.take(i as int).lemma_filter_push(
                vals0[i as int],
                |v: Seq<u8>| !elided(keys0, v),
            );
        }
        let keep = if values[i].len() < CUT_OFF_VALUE_SIZE {
            true
        } else {
            let h = hash_value(values[i].as_slice());
            !cache.lookup(shard, &h)
        };
        assert(cache@ =~= m0.insert(shard, refresh_all(keys0, vals0.take(i + 1))));
        assert(keep == !elided(keys0, vals0[i as int]));
        assert(kept_values(keys0, vals0.take(i + 1)) == (if keep {
            kept_values(keys0, vals0.take(i as int)).push(vals0[i as int])
        } else {
            kept_values(keys0, vals0.take(i as int))
        }));
        if keep {
            let mut v: Vec<u8> = Vec::new();
            std::mem::swap(&mut v, &mut values[i]);
            assert(v@ == vals0[i as int]);
            insert_by_len(&mut kept, v);
            proof {
                vstd::seq_lib::to_multiset_build(
                    kept_values(keys0, vals0.take(i as int)),
                    vals0[i as int],
                );
            }
        }
        i += 1;
    }
    assert(vals0.take(n as int) =~= vals0);
    let ghost r0 = refresh_all(keys0, vals0);
    let ghost kv = views(kept@);
    let mut updated = false;
    let mut j = kept.len();
    assert(kv.subrange(j as int, kv.len() as int) =~= Seq::<Seq<u8>>::empty());
    while j > 0
        invariant
            j <= kept.len(),
            kv == views(kept@),
            cache.wf(),
            cache@ == m0.insert(shard, touch_desc(r0, kv.subrange(j as int, kv.len() as int))),
            updated == exists|k: int| j <= k < kv.len() && is_large(#[trigger] kv[k]),
        decreases j,
    {
        j -= 1;
        assert(kv.subrange(j as int, kv.len() as int).drop_first() =~= kv.subrange(
            j + 1,
            kv.len() as int,
        ));
        if kept[j].len() >= CUT_OFF_VALUE_SIZE {
            let h = hash_value(kept[j].as_slice());
            cache.touch_insert(shard, h);
            updated = true;
        }
        assert(cache@ =~= m0.insert(shard, touch_desc(r0, kv.subrange(j as int, kv.len() as int))));
    }
    assert(kv.subrange(0, kv.len() as int) =~= kv);
    (kept, updated)
}

/// `after` is `before` reduced against a cache holding `keys`; the rest of
/// the transition is unchanged.
pub open spec fn transition_reduced(
    keys: Seq<ValueHash>,
    before: ChunkStateTransition,
    after: ChunkStateTransition,
) -> bool {
    &&& after.block_hash == before.block_hash
    &&& after.post_state_root == before.post_state_root
    &&& values_reduced(keys, transition_values(before), transition_values(after))
}

/// Transitions `before` reduced one after another into `after`, the cache of
/// the shard going through the states `ks`, first to last.
pub open spec fn transitions_reduced(
    ks: Seq<Seq<ValueHash>>,
    before: Seq<ChunkStateTransition>,
    after: Seq<ChunkStateTransition>,
) -> bool {
    &&& ks.len() == before.len() + 1
    &&& after.len() == before.len()
    &&& forall|k: int|
        0 <= k < before.len() ==> {
            &&& transition_reduced(ks[k], #[trigger] before[k], after[k])
            &&& ks[k + 1] == keys_after_reduce(
                ks[k],
                transition_values(before[k]),
                transition_values(after[k]),
            )
        }
}

/// `w1` is `w0` with each transition reduced in turn against the cache of its
/// shard, taking the caches from `c0` to `c1`; `reports` has one entry per
/// transition.
pub open spec fn witness_reduced(
    c0: Map<ShardId, Seq<ValueHash>>,
    c1: Map<ShardId, Seq<ValueHash>>,
    w0: ChunkStateWitness,
    w1: ChunkStateWitness,
    reports: Seq<CacheReport>,
) -> bool {
    &&& w1.shard_id == w0.shard_id
    &&& w1.context == w0.context
    &&& exists|ks: Seq<Seq<ValueHash>>|
        {
            &&& ks[0] == shard_keys(c0, w0.shard_id)
            &&& transitions_reduced(ks, witness_transitions(w0), witness_transitions(w1))
            &&& c1 == c0.insert(w0.shard_id, ks.last())
            &&& reports.len() + 1 == ks.len()
            &&& forall|k: int|
                0 <= k < reports.len() ==> {
                    &&& (#[trigger] reports[k]).updated == has_large(
                        transition_values(witness_transitions(w1)[k]),
                    )
                    &&& reports[k].cache_size == ks[k + 1].len()
                }
        }
}

/// What reducing one transition did to the cache of its shard.
pub struct CacheReport {
    /// Whether any hash was touched.
    pub updated: bool,
    /// Number of hashes that the cache of the shard holds afterwards.
    pub cache_size: usize,
}

/// Reduces the proof of `transition` against the cache of `shard`: the large
/// values whose hashes the cache holds are elided, the rest are ordered by
/// length, and the hashes of the large values kept are touched from the
/// longest to the shortest.
pub fn apply_transition_state_cache(
    cache: &mut ProofValueCache,
    shard: ShardId,
    transition: &mut ChunkStateTransition,
) -> (r: CacheReport)
    requires
        old(cache).wf(),
    ensures
        final(cache).wf(),
        transition_reduced(shard_keys(old(cache)@, shard), *old(transition), *final(transition)),
        final(cache)@ == old(cache)@.insert(
            shard,
            keys_after_reduce(
                shard_keys(old(cache)@, shard),
                transition_values(*old(transition)),
                transition_values(*final(transition)),
            ),
        ),
        r.updated == has_large(transition_values(*final(transition))),
        r.cache_size == shard_keys(final(cache)@, shard).len(),
        // Only large values whose hashes the cache held are removed.
        forall|v: Seq<u8>|
            transition_values(*old(transition)).to_multiset().count(v) > #[trigger] transition_values(
                *final(transition),
            ).to_multiset().count(v) ==> is_large(v) && shard_keys(old(cache)@, shard).contains(
                content_hash(v),
            ),
        // Every value shorter than the cut-off stays.
        forall|v: Seq<u8>|
            !is_large(v) ==> #[trigger] transition_values(*final(transition)).to_multiset().count(v)
                == transition_values(*old(transition)).to_multiset().count(v),
{
    let ghost keys0 = shard_keys(cache@, shard);
    let ghost before = transition_values(*transition);
    let mut values: Vec<Vec<u8>> = Vec::new();
    match &mut transition.base_state {
        PartialState::TrieValues(v) => std::mem::swap(&mut values, v),
    }
    let (kept, updated) = reduce_values(cache, shard, values);
    transition.base_state = PartialState::TrieValues(kept);
    let cache_size = cache.len(shard);
    proof {
        let after = transition_values(*transition);
        assert forall|v: Seq<u8>| #[trigger] after.to_multiset().count(v) == (if !elided(keys0, v) {
            before.to_multiset().count(v)
        } else {
            0
        }) by {
            lemma_filter_count(before, |x: Seq<u8>| !elided(keys0, x), v);
        }
    }
    CacheReport { updated, cache_size }
}

/// Reduces the main transition of `witness`, then each implicit transition in
/// order, against the cache of the witness's shard. Gives one report per
/// transition, in the same order.
pub fn apply_witness_state_cache(cache: &mut ProofValueCache, witness: &mut ChunkStateWitness) -> (r:
    Vec<CacheReport>)
    requires
        old(cache).wf(),
    ensures
        final(cache).wf(),
        witness_reduced(old(cache)@, final(cache)@, *old(witness), *final(witness), r@),
{
    let shard = witness.shard_id;
    let ghost m0 = cache@;
    let ghost before = witness_transitions(*witness);
    let ghost imp0 = witness.implicit_transitions@;
    let mut reports: Vec<CacheReport> = Vec::new();
    let ghost mut ks: Seq<Seq<ValueHash>> = seq![shard_keys(cache@, shard)];
    let rep = apply_transition_state_cache(cache, shard, &mut witness.main_state_transition);
    reports.push(rep);
    proof {
        ks = ks.push(shard_keys(cache@, shard));
    }
    let n = witness.implicit_transitions.len();
    let mut i: usize = 0;
    while i < n
        invariant
            cache.wf(),
            n == witness.implicit_transitions.len(),
            n == imp0.len(),
            i <= n,
            witness.shard_id == shard,
            witness.context == old(witness).context,
            before == witness_transitions(*old(witness)),
            forall|k: int| i <= k < n ==> witness.implicit_transitions@[k] == imp0[k],
            before == seq![old(witness).main_state_transition].add(imp0),
            ks.len() == i + 2,
            reports@.len() == i + 1,
            ks[0] == shard_keys(m0, shard),
            cache@ == m0.insert(shard, ks.last()),
            transitions_reduced(
                ks,
                before.take(i + 1),
                witness_transitions(*witness).take(i + 1),
            ),
            forall|k: int|
                0 <= k < reports@.len() ==> {
                    &&& (#[trigger] reports@[k]).updated == has_large(
                        transition_values(witness_transitions(*witness)[k]),
                    )
                    &&& reports@[k].cache_size == ks[k + 1].len()
                },
        decreases n - i,
    {
        let ghost w_prev = witness_transitions(*witness);
        let rep = apply_transition_state_cache(
            cache,
            shard,
            &mut witness.implicit_transitions[i],
        );
        reports.push(rep);
        proof {
            let w_now = witness_transitions(*witness);
            assert(shard_keys(cache@, shard) == keys_after_reduce(
                ks.last(),
                transition_values(before[i + 1]),
                transition_values(w_now[i + 1]),
            ));
            ks = ks.push(shard_keys(cache@, shard));
            assert forall|k: int| 0 <= k <= i implies w_now[k] == w_prev[k] by {}
            assert(cache@ =~= m0.insert(shard, ks.last()));
        }
        i += 1;
    }
    assert(before.take(n + 1) =~= before);
    assert(witness_transitions(*witness).take(n + 1) =~= witness_transitions(*witness));
    assert(witness_reduced(m0, cache@, *old(witness), *witness, reports@));
    reports
}

} // verus!
