use shadow_validation::{
    apply_transition_state_cache, apply_witness_state_cache, apply_transition_storage_proof_compression,
    bucket_index, bucket_label, chunk_start, chunk_step, compress_checked,
    compress_large_storage_proof_values, compress_state_witness, encode_witness, measure_and_reduce,
    record_storage_proof_value_size_distribution, storage_proof_request, BlockError, BlockShadowRun, ChunkAction,
    ChunkPhase, ChunkStateTransition, ChunkStateWitness, ProbeError, ProofValueCache, ShadowError,
    MAX_CACHE_SIZE,
};

fn value(len: usize, seed: u64) -> Vec<u8> {
    let mut v = vec![0u8; len];
    let tag = seed.to_le_bytes();
    for (i, b) in tag.iter().enumerate() {
        if i < len {
            v[i] = *b;
        }
    }
    if len > 8 {
        v[len - 1] = 0xAB;
    }
    v
}

fn transition(values: Vec<Vec<u8>>) -> ChunkStateTransition {
    ChunkStateTransition::new([1u8; 32], values, [2u8; 32])
}

fn lengths(t: &ChunkStateTransition) -> Vec<usize> {
    t.values().iter().map(|v| v.len()).collect()
}

fn witness(shard_id: u64, main: ChunkStateTransition, implicit: Vec<ChunkStateTransition>) -> ChunkStateWitness {
    ChunkStateWitness {
        shard_id,
        context: vec![9, 8, 7],
        main_state_transition: main,
        implicit_transitions: implicit,
    }
}

#[test]
fn scenario_a_empty_cache_keeps_all_sorted() {
    let mut cache = ProofValueCache::new();
    let a = value(50, 1);
    let b = value(40000, 2);
    let c = value(35000, 3);
    let mut t = transition(vec![a.clone(), b.clone(), c.clone()]);
    let report = apply_transition_state_cache(&mut cache, 3, &mut t);
    assert_eq!(lengths(&t), vec![50, 35000, 40000]);
    assert_eq!(t.values(), &vec![a, c.clone(), b.clone()]);
    assert!(cache.contains_value(3, &b));
    assert!(cache.contains_value(3, &c));
    assert!(report.updated);
    assert_eq!(report.cache_size, 2);
    assert_eq!(cache.len(3), 2);
}

#[test]
fn scenario_b_repeated_value_is_elided() {
    let mut cache = ProofValueCache::new();
    let b = value(40000, 2);
    let mut first = transition(vec![value(50, 1), b.clone(), value(35000, 3)]);
    apply_transition_state_cache(&mut cache, 3, &mut first);
    let fresh = value(36000, 4);
    let mut second = transition(vec![b.clone(), fresh.clone()]);
    let report = apply_transition_state_cache(&mut cache, 3, &mut second);
    assert_eq!(second.values(), &vec![fresh.clone()]);
    assert!(report.updated);
    assert_eq!(report.cache_size, 3);
    assert!(cache.contains_value(3, &fresh));
}

#[test]
fn scenario_c_cache_evicts_least_recent() {
    let mut cache = ProofValueCache::new();
    let first = value(32000, 0);
    for i in 0..1001u64 {
        let mut t = transition(vec![value(32000, i)]);
        apply_transition_state_cache(&mut cache, 5, &mut t);
        assert_eq!(t.values().len(), 1);
    }
    assert_eq!(cache.len(5), MAX_CACHE_SIZE);
    assert!(!cache.contains_value(5, &first));
    assert!(cache.contains_value(5, &value(32000, 1)));
    assert!(cache.contains_value(5, &value(32000, 1000)));
    let mut again = transition(vec![first.clone()]);
    apply_transition_state_cache(&mut cache, 5, &mut again);
    assert_eq!(again.values(), &vec![first]);
}

#[test]
fn scenario_d_distribution_buckets() {
    let w = witness(7, transition(vec![value(5, 1), value(50000, 2)]), vec![]);
    let obs = record_storage_proof_value_size_distribution(&w);
    assert_eq!(obs.len(), 2);
    assert_eq!((obs[0].bucket, obs[0].bytes), (0, 5));
    assert_eq!((obs[1].bucket, obs[1].bytes), (5, 50000));
    assert_eq!(bucket_label(obs[0].bucket), "0..100");
    assert_eq!(bucket_label(obs[1].bucket), "32000..64000");
}

#[test]
fn bucket_boundaries() {
    let cases = [
        (0, 0), (99, 0), (100, 1), (999, 1), (1000, 2), (3999, 2), (4000, 3), (15999, 3),
        (16000, 4), (31999, 4), (32000, 5), (63999, 5), (64000, 6), (127999, 6), (128000, 7),
        (usize::MAX, 7),
    ];
    for (len, b) in cases {
        assert_eq!(bucket_index(len), b, "length {}", len);
    }
    assert_eq!(bucket_label(7), "128000..inf");
    assert_eq!(bucket_label(1), "100..1000");
}

#[test]
fn small_values_are_never_elided() {
    let mut cache = ProofValueCache::new();
    let small = value(31999, 1);
    let mut t = transition(vec![small.clone(), small.clone()]);
    let report = apply_transition_state_cache(&mut cache, 1, &mut t);
    assert!(!report.updated);
    assert_eq!(report.cache_size, 0);
    assert_eq!(t.values(), &vec![small.clone(), small.clone()]);
    let mut t2 = transition(vec![small.clone()]);
    apply_transition_state_cache(&mut cache, 1, &mut t2);
    assert_eq!(t2.values(), &vec![small]);
}

#[test]
fn empty_transition_is_unchanged() {
    let mut cache = ProofValueCache::new();
    let mut t = transition(vec![]);
    let report = apply_transition_state_cache(&mut cache, 2, &mut t);
    assert!(t.values().is_empty());
    assert!(!report.updated);
    assert_eq!(report.cache_size, 0);
}

#[test]
fn ordering_is_by_length_for_any_input_order() {
    let mut cache = ProofValueCache::new();
    let mut t = transition(vec![value(300, 1), value(10, 2), value(40000, 3), value(200, 4)]);
    apply_transition_state_cache(&mut cache, 1, &mut t);
    assert_eq!(lengths(&t), vec![10, 200, 300, 40000]);
}

#[test]
fn caches_are_per_shard() {
    let mut cache = ProofValueCache::new();
    let big = value(33000, 1);
    let mut t = transition(vec![big.clone()]);
    apply_transition_state_cache(&mut cache, 1, &mut t);
    assert!(cache.contains_value(1, &big));
    assert!(!cache.contains_value(2, &big));
    let mut t2 = transition(vec![big.clone()]);
    apply_transition_state_cache(&mut cache, 2, &mut t2);
    assert_eq!(t2.values(), &vec![big]);
}

#[test]
fn witness_reduction_covers_implicit_transitions() {
    let mut cache = ProofValueCache::new();
    let big = value(50000, 9);
    let mut w = witness(
        4,
        transition(vec![big.clone(), value(10, 1)]),
        vec![transition(vec![big.clone()]), transition(vec![value(20, 2)])],
    );
    let reports = apply_witness_state_cache(&mut cache, &mut w);
    assert_eq!(reports.len(), 3);
    assert_eq!(lengths(&w.main_state_transition), vec![10, 50000]);
    assert!(w.implicit_transitions[0].values().is_empty());
    assert_eq!(lengths(&w.implicit_transitions[1]), vec![20]);
    assert!(reports[0].updated);
    assert!(!reports[1].updated);
    assert!(!reports[2].updated);
    assert_eq!(reports[2].cache_size, 1);
}

#[test]
fn encoding_is_exact() {
    let w = witness(0x0102, transition(vec![vec![5, 6]]), vec![transition(vec![])]);
    let bytes = encode_witness(&w).unwrap();
    let mut expected: Vec<u8> = vec![0x02, 0x01, 0, 0, 0, 0, 0, 0];
    expected.extend_from_slice(&[3, 0, 0, 0, 9, 8, 7]);
    expected.extend_from_slice(&[1u8; 32]);
    expected.push(0);
    expected.extend_from_slice(&[1, 0, 0, 0, 2, 0, 0, 0, 5, 6]);
    expected.extend_from_slice(&[2u8; 32]);
    expected.extend_from_slice(&[1, 0, 0, 0]);
    expected.extend_from_slice(&[1u8; 32]);
    expected.push(0);
    expected.extend_from_slice(&[0, 0, 0, 0]);
    expected.extend_from_slice(&[2u8; 32]);
    assert_eq!(bytes, expected);
}

#[test]
fn codec_round_trip() {
    let inputs = vec![Vec::new(), vec![1u8, 2, 3], value(200000, 7)];
    for x in inputs {
        for level in [0, 1, 3, 19] {
            let c = compress_checked(&x, level).unwrap();
            assert_eq!(zstd::decode_all(c.as_slice()).unwrap(), x);
        }
    }
}

#[test]
fn whole_witness_probe_measures_compressed_size() {
    let bytes = vec![0u8; 100000];
    let n = compress_state_witness(&bytes).unwrap();
    assert!(n > 0 && n < 1000);
    assert_eq!(n, zstd::encode_all(bytes.as_slice(), 3).unwrap().len());
}

#[test]
fn per_value_probe_compresses_only_large_values() {
    let big = vec![0u8; 130000];
    let mut t = transition(vec![value(100, 1), big.clone()]);
    apply_transition_storage_proof_compression(&mut t).unwrap();
    assert_eq!(t.values()[0], value(100, 1));
    assert!(t.values()[1].len() < 1000);
    assert_eq!(zstd::decode_all(t.values()[1].as_slice()).unwrap(), big);
}

#[test]
fn per_value_probe_size_of_witness() {
    let w = witness(1, transition(vec![vec![0u8; 128000]]), vec![transition(vec![vec![1u8; 10]])]);
    let before = encode_witness(&w).unwrap().len();
    let after = compress_large_storage_proof_values(w).unwrap();
    assert!(after < before);
    assert!(after > 0);
}

#[test]
fn measurement_before_and_after_reduction() {
    let mut cache = ProofValueCache::new();
    let big = value(40000, 1);
    let mut seed = transition(vec![big.clone()]);
    apply_transition_state_cache(&mut cache, 6, &mut seed);
    let mut w = witness(6, transition(vec![big.clone(), value(5, 2)]), vec![]);
    let baseline = encode_witness(&w).unwrap().len();
    let m = measure_and_reduce(&mut cache, &mut w);
    assert_eq!(m.baseline_size, Some(baseline));
    assert_eq!(m.distribution.len(), 2);
    assert_eq!(m.cache_reports.len(), 1);
    let reduced = m.reduced_bytes.unwrap();
    assert_eq!(reduced.len(), baseline - 40004);
    assert_eq!(reduced, encode_witness(&w).unwrap());
}

#[test]
fn chunk_steps_stop_at_first_failure() {
    let p = chunk_start();
    assert_eq!(p, ChunkPhase::GenerateProof);
    assert_eq!(chunk_step(p, false), (ChunkPhase::Finished, ChunkAction::Fail(ShadowError::ProofGeneration)));
    let (p, a) = chunk_step(p, true);
    assert_eq!(a, ChunkAction::BuildWitness);
    assert_eq!(chunk_step(p, false), (ChunkPhase::Finished, ChunkAction::Fail(ShadowError::WitnessBuild)));
    let (p, a) = chunk_step(p, true);
    assert_eq!(a, ChunkAction::ReduceAndPreValidate);
    assert_eq!(chunk_step(p, false), (ChunkPhase::Finished, ChunkAction::Fail(ShadowError::PreValidation)));
    assert_eq!(chunk_step(p, true), (ChunkPhase::Finished, ChunkAction::SpawnValidation));
}

#[test]
fn failure_isolation_in_block() {
    let heights = vec![10u64, 9, 10, 10];
    let mut run = BlockShadowRun::start(true, &heights, 10);
    let mut seen = Vec::new();
    let mut i = 0;
    while let Some(c) = run.next_chunk() {
        seen.push(c);
        run.chunk_done(i != 0);
        i += 1;
    }
    assert_eq!(seen, vec![0, 2, 3]);
    assert_eq!(run.processed(), 3);
    assert_eq!(run.failures(), 1);
}

#[test]
fn disabled_run_does_nothing() {
    let run = BlockShadowRun::start(false, &vec![10u64, 10], 10);
    assert_eq!(run.next_chunk(), None);
    assert_eq!(run.failures(), 0);
}

#[test]
fn storage_proof_request_reads_recorded_state() {
    let r = storage_proof_request([4u8; 32]);
    assert_eq!(r.state_root, [4u8; 32]);
    assert!(r.use_flat_storage && r.from_db && r.record_storage);
}

#[test]
fn probe_error_kinds_are_distinct() {
    assert_ne!(ProbeError::Decompression, ProbeError::RoundTrip);
    assert_ne!(ProbeError::Decompression, ProbeError::Serialization);
}

#[test]
fn per_value_probe_cut_off_boundary() {
    let below = vec![0u8; 127999];
    let at = vec![0u8; 128000];
    let mut t = transition(vec![below.clone(), at.clone()]);
    assert_eq!(apply_transition_storage_proof_compression(&mut t), Ok(()));
    assert_eq!(t.values().len(), 2);
    assert_eq!(t.values()[0], below);
    assert_eq!(t.values()[1], zstd::encode_all(at.as_slice(), 0).unwrap());
    assert_eq!(zstd::decode_all(t.values()[1].as_slice()).unwrap(), at);
    assert_eq!(t.block_hash, [1u8; 32]);
    assert_eq!(t.post_state_root, [2u8; 32]);
}

#[test]
fn per_value_probe_without_large_values_is_plain_size() {
    let w = witness(2, transition(vec![value(40000, 1), value(10, 2)]), vec![transition(vec![value(127999, 3)])]);
    let plain = encode_witness(&w).unwrap().len();
    assert_eq!(compress_large_storage_proof_values(w), Ok(plain));
}

#[test]
fn whole_witness_probe_on_empty_bytes() {
    let n = compress_state_witness(&Vec::new()).unwrap();
    assert_eq!(n, zstd::encode_all(&[][..], 3).unwrap().len());
}

#[test]
fn block_succeeds_despite_failed_chunks() {
    let heights = vec![3u64, 3, 3];
    let mut failing = BlockShadowRun::start(true, &heights, 3);
    while failing.next_chunk().is_some() {
        failing.chunk_done(false);
    }
    let mut passing = BlockShadowRun::start(true, &heights, 3);
    while passing.next_chunk().is_some() {
        passing.chunk_done(true);
    }
    assert_eq!(failing.processed(), 3);
    assert_eq!(failing.failures(), 3);
    assert_eq!(failing.finish(), Ok(()));
    assert_eq!(failing.finish(), passing.finish());
}

#[test]
fn fetch_failure_stops_block() {
    let mut run = BlockShadowRun::start(true, &vec![1u64, 1], 1);
    assert_eq!(run.next_chunk(), Some(0));
    run.fetch_failed();
    assert_eq!(run.next_chunk(), None);
    assert_eq!(run.finish(), Err(BlockError::FetchFailed));
}
