use crate::codec::{enc_witness, encode_witness, lemma_enc_witness_same, list_fits, witness_fits};
use crate::witness::{
    transition_values, views, witness_transitions, ChunkStateTransition, ChunkStateWitness,
    PartialState,
};
use vstd::prelude::*;

verus! {

/// Codec level of the whole-witness probe.
pub const WITNESS_COMPRESSION_LEVEL: i32 = 3;

/// Codec level of the per-value probe; zero selects the codec's default.
pub const VALUE_COMPRESSION_LEVEL: i32 = 0;

/// Proof values at least this long are compressed by the per-value probe.
pub const COMPRESSION_CUT_OFF_VALUE_SIZE: usize = 128000;

/// The zstd frame that compresses `b` at `level`.
pub uninterp spec fn zstd_frame(b: Seq<u8>, level: int) -> Seq<u8>;

/// What decoding `b` as zstd frames gives, `None` when `b` is malformed.
pub uninterp spec fn zstd_decoded(b: Seq<u8>) -> Option<Seq<u8>>;

/// Relies on zstd::encode_all: a zstd frame of the input, a function of the
/// input and the level. Reading a slice and writing a `Vec` cannot fail, and
/// libzstd clamps the level into its supported range.
#[verifier::external_body]
fn zstd_compress(b: &[u8], level: i32) -> (r: Option<Vec<u8>>)
    ensures
        r.is_some(),
        r.unwrap()@ == zstd_frame(b@, level as int),
{
    zstd::encode_all(b, level).ok()
}

/// Relies on zstd::decode_all: the content of the zstd frames of the input, a
/// function of the input; an error on malformed input.
#[verifier::external_body]
fn zstd_decompress(b: &[u8]) -> (r: Option<Vec<u8>>)
    ensures
        match r {
            Some(v) => zstd_decoded(b@) == Some(v@),
            None => zstd_decoded(b@) is None,
        },
{
    zstd::decode_all(b).ok()
}

/// Why a measurement task gave up.
#[derive(Debug, Clone, Copy, PartialEq, Eq, Structural)]
pub enum ProbeError {
    /// The codec failed to decompress its own output.
    Decompression,
    /// Decompression did not give back the original bytes.
    RoundTrip,
    /// The witness could not be encoded.
    Serialization,
}

/// Whether `x` went through the codec at `level` and came back unchanged.
pub open spec fn round_trips(x: Seq<u8>, level: int) -> bool {
    zstd_decoded(zstd_frame(x, level)) == Some(x)
}

/// The error of a failed round trip of `x` at `level`.
pub open spec fn round_trip_error(x: Seq<u8>, level: int) -> ProbeError {
    if zstd_decoded(zstd_frame(x, level)) is None {
        ProbeError::Decompression
    } else {
        ProbeError::RoundTrip
    }
}

/// Whether two byte strings are equal.
fn bytes_equal(a: &[u8], b: &[u8]) -> (r: bool)
    ensures
        r == (a@ == b@),
{
    if a.len() != b.len() {
        return false;
    }
    let mut j: usize = 0;
    while j < a.len()
        invariant
            a@.len() == b@.len(),
            j <= a@.len(),
            forall|k: int| 0 <= k < j ==> a@[k] == b@[k],
        decreases a@.len() - j,
    {
        if a[j] != b[j] {
            return false;
        }
        j += 1;
    }
    assert(a@ =~= b@);
    true
}

/// Compresses `x` at `level` and checks that decompression gives `x` back.
pub fn compress_checked(x: &[u8], level: i32) -> (r: Result<Vec<u8>, ProbeError>)
    ensures
        r.is_ok() == round_trips(x@, level as int),
        r.is_ok() ==> r.unwrap()@ == zstd_frame(x@, level as int),
        r.is_err() ==> r == Err::<Vec<u8>, ProbeError>(round_trip_error(x@, level as int)),
{
    let c = zstd_compress(x, level).unwrap();
    let d = match zstd_decompress(c.as_slice()) {
        Some(d) => d,
        None => return Err(ProbeError::Decompression),
    };
    if bytes_equal(d.as_slice(), x) {
        Ok(c)
    } else {
        Err(ProbeError::RoundTrip)
    }
}

/// The whole-witness probe: the size of the encoded witness compressed at
/// `WITNESS_COMPRESSION_LEVEL`, once the round trip is checked.
pub fn compress_state_witness(witness_bytes: &Vec<u8>) -> (r: Result<usize, ProbeError>)
    ensures
        r.is_ok() == round_trips(witness_bytes@, WITNESS_COMPRESSION_LEVEL as int),
        r.is_ok() ==> r.unwrap() == zstd_frame(
            witness_bytes@,
            WITNESS_COMPRESSION_LEVEL as int,
        ).len(),
        r.is_err() ==> r == Err::<usize, ProbeError>(
            round_trip_error(witness_bytes@, WITNESS_COMPRESSION_LEVEL as int),
        ),
{
    match compress_checked(witness_bytes.as_slice(), WITNESS_COMPRESSION_LEVEL) {
        Ok(c) => Ok(c.len()),
        Err(e) => Err(e),
    }
}

/// Whether a value is long enough for the per-value probe.
pub open spec fn is_probe_target(v: Seq<u8>) -> bool {
    v.len() >= COMPRESSION_CUT_OFF_VALUE_SIZE
}

/// A proof value as the per-value probe leaves it.
pub open spec fn value_after_probe(v: Seq<u8>) -> Seq<u8> {
    if is_probe_target(v) {
        zstd_frame(v, VALUE_COMPRESSION_LEVEL as int)
    } else {
        v
    }
}

/// The values `vs` as the per-value probe leaves them.
pub open spec fn probed_values(vs: Seq<Seq<u8>>) -> Seq<Seq<u8>> {
    vs.map_values(|v: Seq<u8>| value_after_probe(v))
}

/// Whether every value of `vs` that the per-value probe compresses comes
/// back unchanged from the codec.
pub open spec fn values_round_trip(vs: Seq<Seq<u8>>) -> bool {
    forall|k: int|
        0 <= k < vs.len() && is_probe_target(#[trigger] vs[k]) ==> round_trips(
            vs[k],
            VALUE_COMPRESSION_LEVEL as int,
        )
}

/// Whether the values of every transition of `w` round-trip.
pub open spec fn witness_round_trips(w: ChunkStateWitness) -> bool {
    forall|k: int|
        0 <= k < witness_transitions(w).len() ==> values_round_trip(
            transition_values(#[trigger] witness_transitions(w)[k]),
        )
}

/// Whether some value of `w` is long enough for the per-value probe.
pub open spec fn has_probe_target(w: ChunkStateWitness) -> bool {
    exists|k: int, j: int|
        0 <= k < witness_transitions(w).len() && 0 <= j < transition_values(
            witness_transitions(w)[k],
        ).len() && is_probe_target(
            #[trigger] transition_values(#[trigger] witness_transitions(w)[k])[j],
        )
}

/// Whether `w` can be encoded once the per-value probe has changed it.
pub open spec fn probed_fits(w: ChunkStateWitness) -> bool {
    &&& w.context@.len() <= u32::MAX
    &&& w.implicit_transitions@.len() <= u32::MAX
    &&& forall|k: int|
        0 <= k < witness_transitions(w).len() ==> list_fits(
            probed_values(transition_values(#[trigger] witness_transitions(w)[k])),
        )
}

/// Whether `after` is `before` with every value replaced as the per-value
/// probe does.
pub open spec fn values_probed(before: Seq<Seq<u8>>, after: Seq<Seq<u8>>) -> bool {
    after == probed_values(before)
}

/// Whether transition `after` is `before` with its values probed.
pub open spec fn transition_probed(before: ChunkStateTransition, after: ChunkStateTransition) -> bool {
    &&& after.block_hash == before.block_hash
    &&& after.post_state_root == before.post_state_root
    &&& values_probed(transition_values(before), transition_values(after))
}

/// Whether witness `after` is `before` with the values of all its transitions
/// probed.
pub open spec fn witness_probed(before: ChunkStateWitness, after: ChunkStateWitness) -> bool {
    &&& after.shard_id == before.shard_id
    &&& after.context == before.context
    &&& witness_transitions(after).len() == witness_transitions(before).len()
    &&& forall|k: int|
        0 <= k < witness_transitions(before).len() ==> transition_probed(
            #[trigger] witness_transitions(before)[k],
            witness_transitions(after)[k],
        )
}

/// Replaces every value of `transition` at least
/// `COMPRESSION_CUT_OFF_VALUE_SIZE` long by its compressed form, once the
/// round trip of each is checked. When one fails, the transition is left as
/// it was.
pub fn apply_transition_storage_proof_compression(transition: &mut ChunkStateTransition) -> (r:
    Result<(), ProbeError>)
    ensures
        r.is_ok() == values_round_trip(transition_values(*old(transition))),
        r.is_ok() ==> transition_probed(*old(transition), *final(transition)),
        r.is_ok() ==> forall|k: int|
            0 <= k < transition_values(*old(transition)).len() && is_probe_target(
                #[trigger] transition_values(*old(transition))[k],
            ) ==> zstd_decoded(transition_values(*final(transition))[k]) == Some(
                transition_values(*old(transition))[k],
            ),
        r.is_err() ==> *final(transition) == *old(transition),
        r.is_err() ==> r == Err::<(), ProbeError>(ProbeError::Decompression) || r == Err::<
            (),
            ProbeError,
        >(ProbeError::RoundTrip),
{
    let ghost before = transition_values(*transition);
    let mut frames: Vec<Option<Vec<u8>>> = Vec::new();
    {
        let values = transition.values();
        let n = values.len();
        let mut i: usize = 0;
        while i < n
            invariant
                n == values@.len(),
                n == before.len(),
                before == transition_values(*old(transition)),
                views(values@) == before,
                i <= n,
                frames@.len() == i,
                forall|k: int|
                    0 <= k < i ==> match #[trigger] frames@[k] {
                        Some(c) => is_probe_target(before[k]) && c@ == zstd_frame(
                            before[k],
                            VALUE_COMPRESSION_LEVEL as int,
                        ),
                        None => !is_probe_target(before[k]),
                    },
                forall|k: int|
                    0 <= k < i && is_probe_target(#[trigger] before[k]) ==> round_trips(
                        before[k],
                        VALUE_COMPRESSION_LEVEL as int,
                    ),
            decreases n - i,
        {
            assert(values@[i as int]@ == before[i as int]);
            if values[i].len() >= COMPRESSION_CUT_OFF_VALUE_SIZE {
                match compress_checked(values[i].as_slice(), VALUE_COMPRESSION_LEVEL) {
                    Ok(c) => frames.push(Some(c)),
                    Err(e) => {
                        assert(is_probe_target(before[i as int]));
                        assert(!values_round_trip(before));
                        return Err(e);
                    },
                }
            } else {
                frames.push(None);
            }
            i += 1;
        }
    }
    let mut values: Vec<Vec<u8>> = Vec::new();
    match &mut transition.base_state {
        PartialState::TrieValues(v) => std::mem::swap(&mut values, v),
    }
    let n = values.len();
    let mut i: usize = 0;
    while i < n
        invariant
            n == values@.len(),
            n == before.len(),
            n == frames@.len(),
            i <= n,
            forall|k: int| 0 <= k < i ==> (#[trigger] values@[k])@ == value_after_probe(before[k]),
            forall|k: int| i <= k < n ==> (#[trigger] values@[k])@ == before[k],
            forall|k: int|
                i <= k < n ==> match #[trigger] frames@[k] {
                    Some(c) => is_probe_target(before[k]) && c@ == zstd_frame(
                        before[k],
                        VALUE_COMPRESSION_LEVEL as int,
                    ),
                    None => !is_probe_target(before[k]),
                },
        decreases n - i,
    {
        let mut f: Option<Vec<u8>> = None;
        std::mem::swap(&mut f, &mut frames[i]);
        match f {
            Some(c) => values.set(i, c),
            None => {},
        }
        i += 1;
    }
    transition.base_state = PartialState::TrieValues(values);
    assert(transition_values(*transition) =~= probed_values(before));
    Ok(())
}

/// The per-value probe: compresses the values of every transition of
/// `witness` that are at least `COMPRESSION_CUT_OFF_VALUE_SIZE` long, and
/// gives the size of the encoding of the witness so changed.
pub fn compress_large_storage_proof_values(witness: ChunkStateWitness) -> (r: Result<
    usize,
    ProbeError,
>)
    ensures
        r.is_ok() == (witness_round_trips(witness) && probed_fits(witness)),
        r.is_ok() ==> exists|w: ChunkStateWitness|
            witness_probed(witness, w) && witness_fits(w) && r.unwrap() == enc_witness(w).len(),
        r.is_ok() && !has_probe_target(witness) ==> r.unwrap() == enc_witness(witness).len(),
        r.is_err() && witness_round_trips(witness) ==> r == Err::<usize, ProbeError>(
            ProbeError::Serialization,
        ),
        r.is_err() && !witness_round_trips(witness) ==> r != Err::<usize, ProbeError>(
            ProbeError::Serialization,
        ),
{
    let ghost w0 = witness;
    let ghost ts0 = witness_transitions(w0);
    let mut probed = witness;
    match apply_transition_storage_proof_compression(&mut probed.main_state_transition) {
        Ok(()) => {},
        Err(e) => {
            assert(!values_round_trip(transition_values(ts0[0])));
            return Err(e);
        },
    }
    let n = probed.implicit_transitions.len();
    let mut i: usize = 0;
    while i < n
        invariant
            n == probed.implicit_transitions@.len(),
            n == w0.implicit_transitions@.len(),
            ts0 == witness_transitions(w0),
            w0 == witness,
            i <= n,
            probed.shard_id == w0.shard_id,
            probed.context == w0.context,
            transition_probed(w0.main_state_transition, probed.main_state_transition),
            values_round_trip(transition_values(w0.main_state_transition)),
            forall|k: int|
                0 <= k < i ==> transition_probed(
                    #[trigger] w0.implicit_transitions@[k],
                    probed.implicit_transitions@[k],
                ),
            forall|k: int|
                0 <= k < i ==> values_round_trip(
                    transition_values(#[trigger] w0.implicit_transitions@[k]),
                ),
            forall|k: int|
                i <= k < n ==> #[trigger] probed.implicit_transitions@[k]
                    == w0.implicit_transitions@[k],
        decreases n - i,
    {
        match apply_transition_storage_proof_compression(&mut probed.implicit_transitions[i]) {
            Ok(()) => {},
            Err(e) => {
                assert(ts0[i + 1] == w0.implicit_transitions@[i as int]);
                assert(!values_round_trip(transition_values(w0.implicit_transitions@[i as int])));
                assert(!values_round_trip(transition_values(ts0[i + 1])));
                assert(!witness_round_trips(w0));
                return Err(e);
            },
        }
        i += 1;
    }
    let ghost ts1 = witness_transitions(probed);
    assert forall|k: int| 0 <= k < ts0.len() implies transition_probed(
        #[trigger] ts0[k],
        ts1[k],
    ) && values_round_trip(transition_values(ts0[k])) by {
        if k > 0 {
            assert(ts0[k] == w0.implicit_transitions@[k - 1]);
            assert(ts1[k] == probed.implicit_transitions@[k - 1]);
        }
    }
    assert(witness_probed(w0, probed));
    assert(witness_round_trips(w0));
    assert(witness_fits(probed) == probed_fits(w0)) by {
        assert forall|k: int| 0 <= k < ts0.len() implies transition_values(#[trigger] ts1[k])
            == probed_values(transition_values(ts0[k])) by {}
    }
    proof {
        if !has_probe_target(w0) {
            assert forall|k: int| 0 <= k < ts0.len() implies transition_values(#[trigger] ts1[k])
                == transition_values(ts0[k]) by {
                let vs = transition_values(ts0[k]);
                assert forall|j: int| 0 <= j < vs.len() implies !is_probe_target(
                    #[trigger] vs[j],
                ) by {
                    if is_probe_target(vs[j]) {
                        assert(transition_values(witness_transitions(w0)[k])[j] == vs[j]);
                    }
                }
                assert(probed_values(vs) =~= vs);
            }
            lemma_enc_witness_same(w0, probed);
        }
    }
    match encode_witness(&probed) {
        Some(bytes) => Ok(bytes.len()),
        None => Err(ProbeError::Serialization),
    }
}

} // verus!
