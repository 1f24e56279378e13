use crate::witness::{
    transition_values, views, witness_transitions, ChunkStateTransition, ChunkStateWitness,
    PartialState,
};
use vstd::prelude::*;

verus! {

/// The `k` low bytes of `n`, least significant first.
pub open spec fn le_bytes(n: nat, k: nat) -> Seq<u8>
    decreases k,
{
    if k == 0 {
        Seq::empty()
    } else {
        seq![(n % 256) as u8] + le_bytes(n / 256, (k - 1) as nat)
    }
}

/// A byte string with its length in front, as a little-endian u32.
pub open spec fn enc_bytes(b: Seq<u8>) -> Seq<u8> {
    le_bytes(b.len(), 4) + b
}

/// The framed byte strings of `vs`, one after another.
pub open spec fn enc_each(vs: Seq<Seq<u8>>) -> Seq<u8>
    decreases vs.len(),
{
    if vs.len() == 0 {
        Seq::empty()
    } else {
        enc_each(vs.drop_last()) + enc_bytes(vs.last())
    }
}

/// A list of byte strings: its count as a little-endian u32, then each string
/// framed.
pub open spec fn enc_list(vs: Seq<Seq<u8>>) -> Seq<u8> {
    le_bytes(vs.len(), 4) + enc_each(vs)
}

/// Whether a list of byte strings can be encoded: its count and every length
/// fit in a u32.
pub open spec fn list_fits(vs: Seq<Seq<u8>>) -> bool {
    &&& vs.len() <= u32::MAX
    &&& forall|k: int| 0 <= k < vs.len() ==> (#[trigger] vs[k]).len() <= u32::MAX
}

/// Encoding of a transition: block hash, the tag of the proof encoding, the
/// proof values, the post-state root.
pub open spec fn enc_transition(t: ChunkStateTransition) -> Seq<u8> {
    t.block_hash@ + seq![0u8] + enc_list(transition_values(t)) + t.post_state_root@
}

/// Encodings of transitions, one after another.
pub open spec fn enc_transitions(ts: Seq<ChunkStateTransition>) -> Seq<u8>
    decreases ts.len(),
{
    if ts.len() == 0 {
        Seq::empty()
    } else {
        enc_transitions(ts.drop_last()) + enc_transition(ts.last())
    }
}

/// Canonical encoding of a witness.
pub open spec fn enc_witness(w: ChunkStateWitness) -> Seq<u8> {
    le_bytes(w.shard_id as nat, 8) + enc_bytes(w.context@) + enc_transition(w.main_state_transition)
        + le_bytes(w.implicit_transitions@.len(), 4) + enc_transitions(w.implicit_transitions@)
}

/// Whether a witness can be encoded: every count and length fits in a u32.
pub open spec fn witness_fits(w: ChunkStateWitness) -> bool {
    &&& w.context@.len() <= u32::MAX
    &&& w.implicit_transitions@.len() <= u32::MAX
    &&& forall|k: int|
        0 <= k < witness_transitions(w).len() ==> list_fits(
            transition_values(#[trigger] witness_transitions(w)[k]),
        )
}

/// Transitions with the same hashes, roots and values have the same
/// encodings.
pub proof fn lemma_enc_transitions_same(ts1: Seq<ChunkStateTransition>, ts2: Seq<ChunkStateTransition>)
    requires
        ts1.len() == ts2.len(),
        forall|k: int|
            0 <= k < ts1.len() ==> {
                &&& (#[trigger] ts1[k]).block_hash == ts2[k].block_hash
                &&& ts1[k].post_state_root == ts2[k].post_state_root
                &&& transition_values(ts1[k]) == transition_values(ts2[k])
            },
    ensures
        enc_transitions(ts1) == enc_transitions(ts2),
    decreases ts1.len(),
{
    if ts1.len() > 0 {
        lemma_enc_transitions_same(ts1.drop_last(), ts2.drop_last());
        assert(enc_transition(ts1.last()) == enc_transition(ts2.last()));
    }
}

/// Witnesses that agree on their shard, context, and the hashes, roots and
/// values of their transitions have the same encoding.
pub proof fn lemma_enc_witness_same(w1: ChunkStateWitness, w2: ChunkStateWitness)
    requires
        w1.shard_id == w2.shard_id,
        w1.context == w2.context,
        witness_transitions(w1).len() == witness_transitions(w2).len(),
        forall|k: int|
            0 <= k < witness_transitions(w1).len() ==> {
                &&& (#[trigger] witness_transitions(w1)[k]).block_hash == witness_transitions(
                    w2,
                )[k].block_hash
                &&& witness_transitions(w1)[k].post_state_root == witness_transitions(
                    w2,
                )[k].post_state_root
                &&& transition_values(witness_transitions(w1)[k]) == transition_values(
                    witness_transitions(w2)[k],
                )
            },
    ensures
        enc_witness(w1) == enc_witness(w2),
{
    let ts1 = witness_transitions(w1);
    let ts2 = witness_transitions(w2);
    assert(ts1[0] == w1.main_state_transition);
    assert(ts2[0] == w2.main_state_transition);
    let i1 = w1.implicit_transitions@;
    let i2 = w2.implicit_transitions@;
    assert forall|k: int| 0 <= k < i1.len() implies {
        &&& (#[trigger] i1[k]).block_hash == i2[k].block_hash
        &&& i1[k].post_state_root == i2[k].post_state_root
        &&& transition_values(i1[k]) == transition_values(i2[k])
    } by {
        assert(ts1[k + 1] == i1[k]);
        assert(ts2[k + 1] == i2[k]);
    }
    lemma_enc_transitions_same(i1, i2);
    assert(enc_transition(w1.main_state_transition) == enc_transition(w2.main_state_transition));
}

/// Relies on borsh::to_vec for a list of byte vectors: the count as a
/// little-endian u32, then each vector as its length (little-endian u32) and
/// its bytes; an error when the count or a length does not fit in a u32.
#[verifier::external_body]
fn borsh_list(values: &Vec<Vec<u8>>) -> (r: Option<Vec<u8>>)
    ensures
        r.is_some() == list_fits(views(values@)),
        r.is_some() ==> r.unwrap()@ == enc_list(views(values@)),
{
    borsh::to_vec(values).ok()
}

/// Appends the `k` low bytes of `n`, least significant first.
fn push_le(out: &mut Vec<u8>, n: u64, k: usize)
    ensures
        final(out)@ == old(out)@ + le_bytes(n as nat, k as nat),
{
    let mut cur = n;
    let mut left = k;
    while left > 0
        invariant
            out@ + le_bytes(cur as nat, left as nat) == old(out)@ + le_bytes(n as nat, k as nat),
        decreases left,
    {
        let ghost before = out@;
        out.push((cur % 256) as u8);
        assert(out@ + le_bytes((cur / 256) as nat, (left - 1) as nat) =~= before + le_bytes(
            cur as nat,
            left as nat,
        ));
        cur = cur / 256;
        left -= 1;
    }
    assert(out@ =~= out@ + le_bytes(cur as nat, 0));
}

/// Appends `b`.
fn push_all(out: &mut Vec<u8>, b: &[u8])
    ensures
        final(out)@ == old(out)@ + b@,
{
    let mut j: usize = 0;
    while j < b.len()
        invariant
            j <= b@.len(),
            out@ == old(out)@ + b@.take(j as int),
        decreases b@.len() - j,
    {
        out.push(b[j]);
        assert(b@.take(j + 1) =~= b@.take(j as int).push(b@[j as int]));
        j += 1;
    }
    assert(b@.take(b@.len() as int) =~= b@);
}

/// Appends the encoding of `t`, or gives `false` when its proof values cannot
/// be encoded.
fn push_transition(out: &mut Vec<u8>, t: &ChunkStateTransition) -> (ok: bool)
    ensures
        ok == list_fits(transition_values(*t)),
        ok ==> final(out)@ == old(out)@ + enc_transition(*t),
{
    let values = match &t.base_state {
        PartialState::TrieValues(v) => v,
    };
    match borsh_list(values) {
        Some(mut list) => {
            push_all(out, &t.block_hash);
            out.push(0u8);
            out.append(&mut list);
            push_all(out, &t.post_state_root);
            assert(out@ =~= old(out)@ + enc_transition(*t));
            true
        },
        None => false,
    }
}

/// The canonical encoding of `witness`, or `None` when a count or a length
/// in it does not fit in a u32.
pub fn encode_witness(witness: &ChunkStateWitness) -> (r: Option<Vec<u8>>)
    ensures
        r.is_some() == witness_fits(*witness),
        r.is_some() ==> r.unwrap()@ == enc_witness(*witness),
{
    let ghost ts = witness_transitions(*witness);
    let n = witness.implicit_transitions.len();
    if witness.context.len() > 4294967295 || n > 4294967295 {
        return None;
    }
    let mut out: Vec<u8> = Vec::new();
    push_le(&mut out, witness.shard_id, 8);
    push_le(&mut out, witness.context.len() as u64, 4);
    push_all(&mut out, witness.context.as_slice());
    if !push_transition(&mut out, &witness.main_state_transition) {
        assert(ts[0] == witness.main_state_transition);
        return None;
    }
    push_le(&mut out, n as u64, 4);
    let ghost head = out@;
    assert(head =~= le_bytes(witness.shard_id as nat, 8) + enc_bytes(witness.context@)
        + enc_transition(witness.main_state_transition) + le_bytes(n as nat, 4));
    let mut i: usize = 0;
    assert(witness.implicit_transitions@.take(0) =~= Seq::<ChunkStateTransition>::empty());
    while i < n
        invariant
            n == witness.implicit_transitions@.len(),
            ts == witness_transitions(*witness),
            i <= n,
            out@ == head + enc_transitions(witness.implicit_transitions@.take(i as int)),
            forall|k: int| 0 <= k <= i ==> list_fits(transition_values(#[trigger] ts[k])),
        decreases n - i,
    {
        let ghost prev = out@;
        if !push_transition(&mut out, &witness.implicit_transitions[i]) {
            assert(ts[i + 1] == witness.implicit_transitions@[i as int]);
            return None;
        }
        assert(witness.implicit_transitions@.take(i + 1).drop_last()
            =~= witness.implicit_transitions@.take(i as int));
        assert(ts[i + 1] == witness.implicit_transitions@[i as int]);
        i += 1;
    }
    assert(witness.implicit_transitions@.take(n as int) =~= witness.implicit_transitions@);
    Some(out)
}

} // verus!
