use crate::cache::ShardId;
use vstd::prelude::*;

verus! {

/// Proof of the state that a transition reads, by encoding.
pub enum PartialState {
    /// An unordered bag of serialized trie nodes and values.
    TrieValues(Vec<Vec<u8>>),
}

/// One step of applying a chunk, with the proof it needs.
pub struct ChunkStateTransition {
    pub block_hash: [u8; 32],
    pub base_state: PartialState,
    pub post_state_root: [u8; 32],
}

/// What a stateless validator needs to re-execute one chunk.
pub struct ChunkStateWitness {
    /// Shard of the chunk.
    pub shard_id: ShardId,
    /// Canonical encoding of the parts of the witness that this library does
    /// not look into (chunk header, receipts, transactions).
    pub context: Vec<u8>,
    pub main_state_transition: ChunkStateTransition,
    /// One per shard with incoming cross-shard effects.
    pub implicit_transitions: Vec<ChunkStateTransition>,
}

/// The contents of each byte vector.
pub open spec fn views(vs: Seq<Vec<u8>>) -> Seq<Seq<u8>> {
    vs.map_values(|v: Vec<u8>| v@)
}

/// The proof values of a proof container.
pub open spec fn trie_values(p: PartialState) -> Seq<Seq<u8>> {
    match p {
        PartialState::TrieValues(v) => views(v@),
    }
}

/// The proof values of a transition.
pub open spec fn transition_values(t: ChunkStateTransition) -> Seq<Seq<u8>> {
    trie_values(t.base_state)
}

/// The transitions of a witness: the main one, then the implicit ones.
pub open spec fn witness_transitions(w: ChunkStateWitness) -> Seq<ChunkStateTransition> {
    seq![w.main_state_transition].add(w.implicit_transitions@)
}

impl ChunkStateTransition {
    /// A transition whose proof holds `values`.
    pub fn new(block_hash: [u8; 32], values: Vec<Vec<u8>>, post_state_root: [u8; 32]) -> (r: Self)
        ensures
            r.block_hash == block_hash,
            r.post_state_root == post_state_root,
            transition_values(r) == views(values@),
    {
        ChunkStateTransition {
            block_hash,
            base_state: PartialState::TrieValues(values),
            post_state_root,
        }
    }

    /// The proof values, in their current order.
    pub fn values(&self) -> (r: &Vec<Vec<u8>>)
        ensures
            views(r@) == transition_values(*self),
    {
        match &self.base_state {
            PartialState::TrieValues(v) => v,
        }
    }
}

} // verus!
