//! Shadow stateless validation: the size-reduction pipeline that a node runs
//! over the state witness of every chunk it observes, off the consensus path.
pub mod block;
pub mod cache;
pub mod codec;
pub mod distribution;
pub mod probe;
pub mod reduce;
pub mod shadow;
pub mod witness;

pub use block::{BlockError, BlockShadowRun};
pub use cache::{ProofValueCache, ShardId, ValueHash, MAX_CACHE_SIZE};
pub use codec::encode_witness;
pub use distribution::{
    bucket_index, bucket_label, record_storage_proof_value_size_distribution, SizeObservation,
    SIZE_BUCKET_COUNT,
};
pub use probe::{
    apply_transition_storage_proof_compression, compress_checked, compress_large_storage_proof_values,
    compress_state_witness, ProbeError, COMPRESSION_CUT_OFF_VALUE_SIZE, VALUE_COMPRESSION_LEVEL,
    WITNESS_COMPRESSION_LEVEL,
};
pub use reduce::{apply_transition_state_cache, apply_witness_state_cache, CacheReport, CUT_OFF_VALUE_SIZE};
pub use witness::{ChunkStateTransition, ChunkStateWitness, PartialState};
pub use shadow::{
    chunk_start, chunk_step, measure_and_reduce, storage_proof_request, ChunkAction, ChunkPhase,
    ShadowError, StorageProofRequest, WitnessMeasurements,
};
pub use block::lemma_failure_isolation;
pub use cache::lemma_cache_bound;
pub use shadow::lemma_chunk_steps;
