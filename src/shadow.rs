use crate::cache::ProofValueCache;
use crate::codec::{enc_witness, encode_witness, witness_fits};
use crate::distribution::{
    observes, record_storage_proof_value_size_distribution, witness_values, SizeObservation,
};
use crate::reduce::{apply_witness_state_cache, witness_reduced, CacheReport};
use crate::witness::ChunkStateWitness;
use vstd::prelude::*;

verus! {

/// Where the regenerated storage proof reads state from, and how.
pub struct StorageProofRequest {
    /// State root to read: the previous state root of the chunk.
    pub state_root: [u8; 32],
    /// Read through flat storage.
    pub use_flat_storage: bool,
    /// Read from the on-disk database.
    pub from_db: bool,
    /// Record every trie node read, to form the storage proof.
    pub record_storage: bool,
}

/// The request that regenerates the storage proof of a chunk's transactions
/// against its previous state root.
pub fn storage_proof_request(prev_state_root: [u8; 32]) -> (r: StorageProofRequest)
    ensures
        r.state_root == prev_state_root,
        r.use_flat_storage,
        r.from_db,
        r.record_storage,
{
    StorageProofRequest {
        state_root: prev_state_root,
        use_flat_storage: true,
        from_db: true,
        record_storage: true,
    }
}

/// What shadow validation measured of a witness while reducing it.
pub struct WitnessMeasurements {
    /// Encoded size before reduction.
    pub baseline_size: Option<usize>,
    /// Sizes of the proof values before reduction.
    pub distribution: Vec<SizeObservation>,
    /// One report per transition reduced.
    pub cache_reports: Vec<CacheReport>,
    /// Encoding after reduction, the input of the whole-witness probe.
    pub reduced_bytes: Option<Vec<u8>>,
}

/// Measures `witness`, then reduces it against the cache of its shard and
/// encodes the result. A size that cannot be measured is `None`; it stops
/// nothing.
pub fn measure_and_reduce(cache: &mut ProofValueCache, witness: &mut ChunkStateWitness) -> (r:
    WitnessMeasurements)
    requires
        old(cache).wf(),
    ensures
        final(cache).wf(),
        r.baseline_size == (if witness_fits(*old(witness)) {
            Some(enc_witness(*old(witness)).len() as usize)
        } else {
            None
        }),
        observes(r.distribution@, witness_values(*old(witness))),
        witness_reduced(
            old(cache)@,
            final(cache)@,
            *old(witness),
            *final(witness),
            r.cache_reports@,
        ),
        r.reduced_bytes.is_some() == witness_fits(*final(witness)),
        r.reduced_bytes.is_some() ==> r.reduced_bytes.unwrap()@ == enc_witness(*final(witness)),
{
    let baseline_size = match encode_witness(witness) {
        Some(b) => Some(b.len()),
        None => None,
    };
    let distribution = record_storage_proof_value_size_distribution(witness);
    let cache_reports = apply_witness_state_cache(cache, witness);
    let reduced_bytes = encode_witness(witness);
    WitnessMeasurements { baseline_size, distribution, cache_reports, reduced_bytes }
}

/// Where the shadow validation of one chunk stands.
#[derive(Debug, Clone, Copy, PartialEq, Eq, Structural)]
pub enum ChunkPhase {
    /// Waiting for the regenerated storage proof.
    GenerateProof,
    /// Waiting for the witness to be built.
    BuildWitness,
    /// Waiting for pre-validation of the reduced witness.
    PreValidate,
    /// Nothing more to do for this chunk.
    Finished,
}

/// Why the shadow validation of one chunk stopped.
#[derive(Debug, Clone, Copy, PartialEq, Eq, Structural)]
pub enum ShadowError {
    /// The storage proof for the chunk's transactions could not be produced.
    ProofGeneration,
    /// The witness could not be built.
    WitnessBuild,
    /// Pre-validation rejected the witness.
    PreValidation,
}

/// What the caller does next for one chunk.
#[derive(Debug, Clone, Copy, PartialEq, Eq, Structural)]
pub enum ChunkAction {
    /// Build the witness from the regenerated proof.
    BuildWitness,
    /// Measure and reduce the witness, hand copies of it to the compression
    /// probes, then pre-validate it.
    ReduceAndPreValidate,
    /// Hand full validation to the background; the chunk succeeded.
    SpawnValidation,
    /// Stop this chunk with an error.
    Fail(ShadowError),
}

/// The phase a chunk starts in.
pub fn chunk_start() -> (r: ChunkPhase)
    ensures
        r == ChunkPhase::GenerateProof,
{
    ChunkPhase::GenerateProof
}

/// The next phase and action once the call of `phase` has succeeded (`ok`)
/// or failed.
pub open spec fn chunk_transition(phase: ChunkPhase, ok: bool) -> (ChunkPhase, ChunkAction) {
    match phase {
        ChunkPhase::GenerateProof => if ok {
            (ChunkPhase::BuildWitness, ChunkAction::BuildWitness)
        } else {
            (ChunkPhase::Finished, ChunkAction::Fail(ShadowError::ProofGeneration))
        },
        ChunkPhase::BuildWitness => if ok {
            (ChunkPhase::PreValidate, ChunkAction::ReduceAndPreValidate)
        } else {
            (ChunkPhase::Finished, ChunkAction::Fail(ShadowError::WitnessBuild))
        },
        _ => if ok {
            (ChunkPhase::Finished, ChunkAction::SpawnValidation)
        } else {
            (ChunkPhase::Finished, ChunkAction::Fail(ShadowError::PreValidation))
        },
    }
}

/// Decides the next step of a chunk from the outcome of the call of its
/// current phase: a failure ends the chunk with the error of that phase.
pub fn chunk_step(phase: ChunkPhase, ok: bool) -> (r: (ChunkPhase, ChunkAction))
    requires
        phase != ChunkPhase::Finished,
    ensures
        r == chunk_transition(phase, ok),
{
    match phase {
        ChunkPhase::GenerateProof => if ok {
            (ChunkPhase::BuildWitness, ChunkAction::BuildWitness)
        } else {
            (ChunkPhase::Finished, ChunkAction::Fail(ShadowError::ProofGeneration))
        },
        ChunkPhase::BuildWitness => if ok {
            (ChunkPhase::PreValidate, ChunkAction::ReduceAndPreValidate)
        } else {
            (ChunkPhase::Finished, ChunkAction::Fail(ShadowError::WitnessBuild))
        },
        _ => if ok {
            (ChunkPhase::Finished, ChunkAction::SpawnValidation)
        } else {
            (ChunkPhase::Finished, ChunkAction::Fail(ShadowError::PreValidation))
        },
    }
}

/// The result of a chunk whose calls had the outcomes `oks`, in order, from
/// `phase`: the error of the first failed call, or success once
/// pre-validation passes.
pub open spec fn chunk_result(phase: ChunkPhase, oks: Seq<bool>) -> Option<
    Result<(), ShadowError>,
>
    decreases oks.len(),
{
    if phase == ChunkPhase::Finished || oks.len() == 0 {
        None
    } else {
        let (next, action) = chunk_transition(phase, oks[0]);
        match action {
            ChunkAction::Fail(e) => Some(Err(e)),
            ChunkAction::SpawnValidation => Some(Ok(())),
            _ => chunk_result(next, oks.drop_first()),
        }
    }
}

/// A chunk succeeds exactly when its three calls succeed in turn, and a
/// failed call ends it with that call's error before any later call is made.
pub proof fn lemma_chunk_steps(a: bool, b: bool, c: bool)
    ensures
        chunk_result(ChunkPhase::GenerateProof, seq![a, b, c]) == (if !a {
            Some(Err::<(), ShadowError>(ShadowError::ProofGeneration))
        } else if !b {
            Some(Err::<(), ShadowError>(ShadowError::WitnessBuild))
        } else if !c {
            Some(Err::<(), ShadowError>(ShadowError::PreValidation))
        } else {
            Some(Ok::<(), ShadowError>(()))
        }),
{
    reveal_with_fuel(chunk_result, 4);
    let s = seq![a, b, c];
    assert(s.drop_first() =~= seq![b, c]);
    assert(seq![b, c].drop_first() =~= seq![c]);
    assert(seq![c].drop_first() =~= Seq::<bool>::empty());
}

} // verus!
