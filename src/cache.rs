use std::collections::HashMap;
use vstd::prelude::*;

verus! {

/// Identifier of a shard.
pub type ShardId = u64;

/// Content hash of a proof value.
pub type ValueHash = [u8; 32];

/// Number of entries that the cache of one shard holds at most.
pub const MAX_CACHE_SIZE: usize = 1000;

#[verifier::external_type_specification]
#[verifier::external_body]
#[verifier::reject_recursive_types(K)]
#[verifier::reject_recursive_types(V)]
#[verifier::reject_recursive_types(S)]
pub struct ExLruCache<K, V, S>(lru::LruCache<K, V, S>);

#[verifier::external_type_specification]
#[verifier::external_body]
pub struct ExDefaultHasher(lru::DefaultHasher);

/// The cache of one shard.
pub type ShardCache = lru::LruCache<ValueHash, ()>;

/// Keys held by an LRU cache, from least to most recently used.
pub uninterp spec fn lru_keys(c: ShardCache) -> Seq<ValueHash>;

/// Capacity that an LRU cache was created with.
pub uninterp spec fn lru_cap(c: ShardCache) -> nat;

/// `s` with `k` moved to its most recently used end.
pub open spec fn promote(s: Seq<ValueHash>, k: ValueHash) -> Seq<ValueHash> {
    let i = choose|i: int| 0 <= i < s.len() && s[i] == k;
    s.remove(i).push(k)
}

/// `s` after `k` is pushed into a cache of capacity `cap`.
pub open spec fn pushed(s: Seq<ValueHash>, k: ValueHash, cap: nat) -> Seq<ValueHash> {
    if s.contains(k) {
        promote(s, k)
    } else if cap == 0 {
        s
    } else if s.len() >= cap {
        s.drop_first().push(k)
    } else {
        s.push(k)
    }
}

/// Relies on lru::LruCache::new: an empty cache of capacity `cap`.
#[verifier::external_body]
fn lru_new(cap: usize) -> (r: ShardCache)
    ensures
        lru_keys(r) == Seq::<ValueHash>::empty(),
        lru_cap(r) == cap,
{
    lru::LruCache::new(cap)
}

/// Relies on lru::LruCache::contains: membership, without touching recency.
#[verifier::external_body]
fn lru_contains(c: &ShardCache, k: &ValueHash) -> (r: bool)
    ensures
        r == lru_keys(*c).contains(*k),
{
    c.contains(k)
}

/// Relies on lru::LruCache::get: membership; a present key becomes the most
/// recently used one.
#[verifier::external_body]
fn lru_get(c: &mut ShardCache, k: &ValueHash) -> (r: bool)
    ensures
        r == lru_keys(*old(c)).contains(*k),
        lru_cap(*final(c)) == lru_cap(*old(c)),
        lru_keys(*final(c)) == (if r {
            promote(lru_keys(*old(c)), *k)
        } else {
            lru_keys(*old(c))
        }),
{
    c.get(k).is_some()
}

/// Relies on lru::LruCache::push: a present key is moved to the most recently
/// used end; a new key is appended there, after the least recently used key
/// is evicted when the cache is full; nothing happens at capacity zero.
#[verifier::external_body]
fn lru_push(c: &mut ShardCache, k: ValueHash)
    requires
        lru_keys(*old(c)).len() <= lru_cap(*old(c)),
    ensures
        lru_cap(*final(c)) == lru_cap(*old(c)),
        lru_keys(*final(c)) == pushed(lru_keys(*old(c)), k, lru_cap(*old(c))),
{
    c.push(k, ());
}

/// Relies on lru::LruCache::len: the number of keys held.
#[verifier::external_body]
fn lru_len(c: &ShardCache) -> (r: usize)
    ensures
        r == lru_keys(*c).len(),
{
    c.len()
}

/// Per-shard caches of the hashes of large proof values that a receiver has
/// probably already seen. The cache of a shard is created on its first use and
/// holds at most `MAX_CACHE_SIZE` hashes, evicting the least recently used one.
pub struct ProofValueCache {
    shards: HashMap<ShardId, ShardCache>,
}

impl View for ProofValueCache {
    /// For each shard whose cache exists, its hashes from least to most
    /// recently used.
    type V = Map<ShardId, Seq<ValueHash>>;

    closed spec fn view(&self) -> Map<ShardId, Seq<ValueHash>> {
        self.shards@.map_values(|c: ShardCache| lru_keys(c))
    }
}

/// A sequence of hashes that one shard's cache can hold.
pub open spec fn shard_keys_wf(s: Seq<ValueHash>) -> bool {
    s.len() <= MAX_CACHE_SIZE && s.no_duplicates()
}

/// `s` after `k` is touched: it becomes the most recently used hash, and the
/// least recently used one is evicted when `s` is full.
pub open spec fn touched(s: Seq<ValueHash>, k: ValueHash) -> Seq<ValueHash> {
    pushed(s, k, MAX_CACHE_SIZE as nat)
}

/// `s` after a lookup of `k`: a present hash becomes the most recently used.
pub open spec fn refreshed(s: Seq<ValueHash>, k: ValueHash) -> Seq<ValueHash> {
    if s.contains(k) {
        promote(s, k)
    } else {
        s
    }
}

/// Hashes that shard `shard` holds in `m`, empty when it has no cache yet.
pub open spec fn shard_keys(m: Map<ShardId, Seq<ValueHash>>, shard: ShardId) -> Seq<ValueHash> {
    if m.contains_key(shard) {
        m[shard]
    } else {
        Seq::empty()
    }
}

proof fn lemma_promote_wf(s: Seq<ValueHash>, k: ValueHash)
    requires
        s.no_duplicates(),
        s.contains(k),
    ensures
        promote(s, k).len() == s.len(),
        promote(s, k).no_duplicates(),
        forall|x: ValueHash| promote(s, k).contains(x) == s.contains(x),
{
    let i = choose|i: int| 0 <= i < s.len() && s[i] == k;
    let r = s.remove(i);
    assert(!r.contains(k)) by {
        if r.contains(k) {
            let j = choose|j: int| 0 <= j < r.len() && r[j] == k;
            if j < i {
                assert(s[j] == s[i]);
            } else {
                assert(s[j + 1] == s[i]);
            }
        }
    }
    assert(r.no_duplicates()) by {
        assert forall|a: int, b: int| 0 <= a < r.len() && 0 <= b < r.len() && a != b implies r[a]
            != r[b] by {
            let sa = if a < i { a } else { a + 1 };
            let sb = if b < i { b } else { b + 1 };
            assert(r[a] == s[sa]);
            assert(r[b] == s[sb]);
        }
    }
    assert forall|x: ValueHash| r.push(k).contains(x) == s.contains(x) by {
        if s.contains(x) {
            let j = choose|j: int| 0 <= j < s.len() && s[j] == x;
            if j < i {
                assert(r.push(k)[j] == x);
            } else if j > i {
                assert(r.push(k)[j - 1] == x);
            } else {
                assert(r.push(k)[r.len() as int] == x);
            }
        }
        if r.push(k).contains(x) {
            let j = choose|j: int| 0 <= j < r.push(k).len() && r.push(k)[j] == x;
            if j == r.len() {
                assert(s[i] == x);
            } else if j < i {
                assert(s[j] == x);
            } else {
                assert(s[j + 1] == x);
            }
        }
    }
}

/// Touching a hash keeps a shard's hashes distinct and within the bound, and
/// leaves the touched hash present.
pub proof fn lemma_touched_wf(s: Seq<ValueHash>, k: ValueHash)
    requires
        shard_keys_wf(s),
    ensures
        shard_keys_wf(touched(s, k)),
        touched(s, k).contains(k),
        touched(s, k).last() == k,
{
    if s.contains(k) {
        lemma_promote_wf(s, k);
        let i = choose|i: int| 0 <= i < s.len() && s[i] == k;
        let t = s.remove(i).push(k);
        assert(t[t.len() - 1] == k);
    } else if s.len() >= MAX_CACHE_SIZE {
        let d = s.drop_first();
        assert(!d.contains(k)) by {
            if d.contains(k) {
                let j = choose|j: int| 0 <= j < d.len() && d[j] == k;
                assert(s[j + 1] == k);
            }
        }
        assert(d.push(k).no_duplicates()) by {
            assert forall|a: int, b: int|
                0 <= a < d.push(k).len() && 0 <= b < d.push(k).len() && a != b implies d.push(k)[a]
                != d.push(k)[b] by {
                if a < d.len() && b < d.len() {
                    assert(d[a] == s[a + 1]);
                    assert(d[b] == s[b + 1]);
                } else if a < d.len() {
                    assert(d.contains(d[a]));
                } else {
                    assert(d.contains(d[b]));
                }
            }
        }
        assert(d.push(k)[d.len() as int] == k);
    } else {
        assert(s.push(k).no_duplicates()) by {
            assert forall|a: int, b: int|
                0 <= a < s.push(k).len() && 0 <= b < s.push(k).len() && a != b implies s.push(k)[a]
                != s.push(k)[b] by {
                if a < s.len() && b < s.len() {
                } else if a < s.len() {
                    assert(s.contains(s[a]));
                } else {
                    assert(s.contains(s[b]));
                }
            }
        }
        assert(s.push(k)[s.len() as int] == k);
    }
}

/// `s` after the hashes `ks` are touched, first to last.
pub open spec fn touched_all(s: Seq<ValueHash>, ks: Seq<ValueHash>) -> Seq<ValueHash>
    decreases ks.len(),
{
    if ks.len() == 0 {
        s
    } else {
        touched(touched_all(s, ks.drop_last()), ks.last())
    }
}

/// However many hashes are touched, in whatever order, a shard's cache keeps
/// at most `MAX_CACHE_SIZE` distinct hashes.
pub proof fn lemma_cache_bound(s: Seq<ValueHash>, ks: Seq<ValueHash>)
    requires
        shard_keys_wf(s),
    ensures
        shard_keys_wf(touched_all(s, ks)),
        touched_all(s, ks).len() <= MAX_CACHE_SIZE,
    decreases ks.len(),
{
    if ks.len() > 0 {
        lemma_cache_bound(s, ks.drop_last());
        lemma_touched_wf(touched_all(s, ks.drop_last()), ks.last());
    }
}

/// A lookup keeps a shard's hashes distinct, within the bound, and the same
/// as a set.
pub proof fn lemma_refreshed_wf(s: Seq<ValueHash>, k: ValueHash)
    requires
        shard_keys_wf(s),
    ensures
        shard_keys_wf(refreshed(s, k)),
        forall|x: ValueHash| refreshed(s, k).contains(x) == s.contains(x),
{
    if s.contains(k) {
        lemma_promote_wf(s, k);
    }
}

impl ProofValueCache {
    /// The caches are well formed: each was created with capacity
    /// `MAX_CACHE_SIZE` and holds distinct hashes, at most that many.
    pub closed spec fn wf(&self) -> bool {
        forall|s: ShardId| #[trigger]
            self.shards@.contains_key(s) ==> {
                &&& lru_cap(self.shards@[s]) == MAX_CACHE_SIZE as nat
                &&& shard_keys_wf(lru_keys(self.shards@[s]))
            }
    }

    /// A cache with no shard created yet.
    pub fn new() -> (r: Self)
        ensures
            r.wf(),
            r@ == Map::<ShardId, Seq<ValueHash>>::empty(),
    {
        let r = ProofValueCache { shards: HashMap::new() };
        assert(r@ =~= Map::<ShardId, Seq<ValueHash>>::empty());
        r
    }

    /// Every shard's cache holds distinct hashes, at most `MAX_CACHE_SIZE`.
    pub proof fn lemma_bounded(&self, shard: ShardId)
        requires
            self.wf(),
        ensures
            shard_keys_wf(shard_keys(self@, shard)),
    {
        if self.shards@.contains_key(shard) {
            assert(self@[shard] == lru_keys(self.shards@[shard]));
        }
    }

    /// Whether `hash` is in the cache of `shard`; recency is left as it is.
    pub fn contains(&self, shard: ShardId, hash: &ValueHash) -> (r: bool)
        ensures
            r == shard_keys(self@, shard).contains(*hash),
    {
        broadcast use vstd::std_specs::hash::group_hash_axioms;
        match self.shards.get(&shard) {
            Some(c) => lru_contains(c, hash),
            None => false,
        }
    }

    /// Number of hashes in the cache of `shard`.
    pub fn len(&self, shard: ShardId) -> (r: usize)
        ensures
            r == shard_keys(self@, shard).len(),
    {
        broadcast use vstd::std_specs::hash::group_hash_axioms;
        match self.shards.get(&shard) {
            Some(c) => lru_len(c),
            None => 0,
        }
    }

    /// Takes the cache of `shard` out, creating it when it does not exist yet.
    fn take_shard(&mut self, shard: ShardId) -> (r: ShardCache)
        requires
            old(self).wf(),
        ensures
            final(self)@ == old(self)@.remove(shard),
            final(self).wf(),
            lru_cap(r) == MAX_CACHE_SIZE as nat,
            lru_keys(r) == shard_keys(old(self)@, shard),
    {
        broadcast use vstd::std_specs::hash::group_hash_axioms;
        let r = match self.shards.remove(&shard) {
            Some(c) => c,
            None => lru_new(MAX_CACHE_SIZE),
        };
        assert(self@ =~= old(self)@.remove(shard));
        r
    }

    /// Puts the cache of `shard` back.
    fn put_shard(&mut self, shard: ShardId, c: ShardCache)
        requires
            old(self).wf(),
            lru_cap(c) == MAX_CACHE_SIZE as nat,
            shard_keys_wf(lru_keys(c)),
        ensures
            final(self)@ == old(self)@.insert(shard, lru_keys(c)),
            final(self).wf(),
    {
        broadcast use vstd::std_specs::hash::group_hash_axioms;
        self.shards.insert(shard, c);
        assert(self@ =~= old(self)@.insert(shard, lru_keys(c)));
    }

    /// Creates the cache of `shard` if it does not exist yet.
    pub fn open_shard(&mut self, shard: ShardId)
        requires
            old(self).wf(),
        ensures
            final(self).wf(),
            final(self)@ == old(self)@.insert(shard, shard_keys(old(self)@, shard)),
    {
        proof {
            self.lemma_bounded(shard);
        }
        let c = self.take_shard(shard);
        self.put_shard(shard, c);
    }

    /// Marks `hash` present and most recently used in the cache of `shard`,
    /// evicting the least recently used hash when that cache is full.
    pub fn touch_insert(&mut self, shard: ShardId, hash: ValueHash)
        requires
            old(self).wf(),
        ensures
            final(self).wf(),
            final(self)@ == old(self)@.insert(shard, touched(shard_keys(old(self)@, shard), hash)),
    {
        proof {
            self.lemma_bounded(shard);
        }
        let mut c = self.take_shard(shard);
        lru_push(&mut c, hash);
        proof {
            lemma_touched_wf(shard_keys(old(self)@, shard), hash);
        }
        self.put_shard(shard, c);
    }

    /// Whether `hash` is in the cache of `shard`; a present hash becomes the
    /// most recently used one. Creates the cache of `shard` if needed.
    pub fn lookup(&mut self, shard: ShardId, hash: &ValueHash) -> (r: bool)
        requires
            old(self).wf(),
        ensures
            final(self).wf(),
            r == shard_keys(old(self)@, shard).contains(*hash),
            final(self)@ == old(self)@.insert(shard, refreshed(shard_keys(old(self)@, shard), *hash)),
    {
        proof {
            self.lemma_bounded(shard);
        }
        let mut c = self.take_shard(shard);
        let r = lru_get(&mut c, hash);
        proof {
            lemma_refreshed_wf(shard_keys(old(self)@, shard), *hash);
        }
        self.put_shard(shard, c);
        r
    }
}

} // verus!
