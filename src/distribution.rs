use crate::witness::{transition_values, witness_transitions, ChunkStateTransition, ChunkStateWitness};
use vstd::prelude::*;

verus! {

/// Number of size buckets.
pub const SIZE_BUCKET_COUNT: usize = 8;

/// Index of the size bucket of a value of length `len`. The buckets are the
/// half-open ranges bounded by 0, 100, 1000, 4000, 16000, 32000, 64000,
/// 128000 and infinity.
pub open spec fn bucket_of(len: nat) -> nat {
    if len < 100 {
        0
    } else if len < 1000 {
        1
    } else if len < 4000 {
        2
    } else if len < 16000 {
        3
    } else if len < 32000 {
        4
    } else if len < 64000 {
        5
    } else if len < 128000 {
        6
    } else {
        7
    }
}

/// Label of a size bucket.
pub open spec fn bucket_label_of(b: nat) -> Seq<char> {
    if b == 0 {
        "0..100"@
    } else if b == 1 {
        "100..1000"@
    } else if b == 2 {
        "1000..4000"@
    } else if b == 3 {
        "4000..16000"@
    } else if b == 4 {
        "16000..32000"@
    } else if b == 5 {
        "32000..64000"@
    } else if b == 6 {
        "64000..128000"@
    } else {
        "128000..inf"@
    }
}

/// The proof values of `ts`, transition after transition.
pub open spec fn all_values(ts: Seq<ChunkStateTransition>) -> Seq<Seq<u8>>
    decreases ts.len(),
{
    if ts.len() == 0 {
        Seq::empty()
    } else {
        all_values(ts.drop_last()) + transition_values(ts.last())
    }
}

/// The proof values of a witness, main transition first.
pub open spec fn witness_values(w: ChunkStateWitness) -> Seq<Seq<u8>> {
    all_values(witness_transitions(w))
}

/// One proof value counted in its size bucket.
pub struct SizeObservation {
    /// Index of the bucket.
    pub bucket: usize,
    /// Length of the value, the amount added to the bucket's total.
    pub bytes: usize,
}

/// Index of the size bucket of a value of length `len`.
pub fn bucket_index(len: usize) -> (r: usize)
    ensures
        r == bucket_of(len as nat),
        r < SIZE_BUCKET_COUNT,
{
    if len < 100 {
        0
    } else if len < 1000 {
        1
    } else if len < 4000 {
        2
    } else if len < 16000 {
        3
    } else if len < 32000 {
        4
    } else if len < 64000 {
        5
    } else if len < 128000 {
        6
    } else {
        7
    }
}

/// Label of size bucket `b`, such as `"0..100"` or `"128000..inf"`.
pub fn bucket_label(b: usize) -> (r: &'static str)
    requires
        b < SIZE_BUCKET_COUNT,
    ensures
        r@ == bucket_label_of(b as nat),
{
    if b == 0 {
        "0..100"
    } else if b == 1 {
        "100..1000"
    } else if b == 2 {
        "1000..4000"
    } else if b == 3 {
        "4000..16000"
    } else if b == 4 {
        "16000..32000"
    } else if b == 5 {
        "32000..64000"
    } else if b == 6 {
        "64000..128000"
    } else {
        "128000..inf"
    }
}

/// Whether `r` observes the values `vs`, in order.
pub open spec fn observes(r: Seq<SizeObservation>, vs: Seq<Seq<u8>>) -> bool {
    &&& r.len() == vs.len()
    &&& forall|k: int|
        0 <= k < r.len() ==> {
            &&& (#[trigger] r[k]).bytes == vs[k].len()
            &&& r[k].bucket == bucket_of(vs[k].len())
        }
}

/// Appends one observation per proof value of `transition`.
fn record_transition(r: &mut Vec<SizeObservation>, transition: &ChunkStateTransition)
    ensures
        forall|prev: Seq<Seq<u8>>|
            observes(old(r)@, prev) ==> observes(
                final(r)@,
                prev + transition_values(*transition),
            ),
{
    let values = transition.values();
    let ghost vs = transition_values(*transition);
    let ghost r0 = r@;
    let m = values.len();
    let mut j: usize = 0;
    while j < m
        invariant
            m == values@.len(),
            vs.len() == m,
            forall|k: int| 0 <= k < m ==> (#[trigger] values@[k])@ == vs[k],
            j <= m,
            r@.len() == r0.len() + j,
            forall|k: int| 0 <= k < r0.len() ==> #[trigger] r@[k] == r0[k],
            forall|k: int|
                0 <= k < j ==> {
                    &&& (#[trigger] r@[r0.len() + k]).bytes == vs[k].len()
                    &&& r@[r0.len() + k].bucket == bucket_of(vs[k].len())
                },
        decreases m - j,
    {
        let len = values[j].len();
        r.push(SizeObservation { bucket: bucket_index(len), bytes: len });
        assert(r@[r0.len() + j] == r@.last());
        j += 1;
    }
    assert forall|prev: Seq<Seq<u8>>| observes(r0, prev) implies observes(r@, prev + vs) by {
        assert forall|k: int| 0 <= k < r@.len() implies {
            &&& (#[trigger] r@[k]).bytes == (prev + vs)[k].len()
            &&& r@[k].bucket == bucket_of((prev + vs)[k].len())
        } by {
            if k >= r0.len() {
                let d = k - r0.len();
                assert(r@[r0.len() + d] == r@[k]);
            }
        }
    }
}

/// One observation per proof value of `witness`, in order: its bucket and its
/// length. To be taken before the witness is reduced.
pub fn record_storage_proof_value_size_distribution(witness: &ChunkStateWitness) -> (r: Vec<
    SizeObservation,
>)
    ensures
        observes(r@, witness_values(*witness)),
{
    let ghost ts = witness_transitions(*witness);
    let mut r: Vec<SizeObservation> = Vec::new();
    proof {
        assert(ts.take(0) =~= Seq::<ChunkStateTransition>::empty());
        assert(observes(r@, all_values(ts.take(0))));
        assert(ts.take(1).drop_last() =~= ts.take(0));
    }
    record_transition(&mut r, &witness.main_state_transition);
    let n = witness.implicit_transitions.len();
    let mut t: usize = 0;
    while t < n
        invariant
            n == witness.implicit_transitions.len(),
            ts == witness_transitions(*witness),
            ts.len() == n + 1,
            t <= n,
            observes(r@, all_values(ts.take(t + 1))),
        decreases n - t,
    {
        record_transition(&mut r, &witness.implicit_transitions[t]);
        assert(ts.take(t + 2).drop_last() =~= ts.take(t + 1));
        assert(ts.take(t + 2).last() == witness.implicit_transitions@[t as int]);
        t += 1;
    }
    assert(ts.take(n + 1) =~= ts);
    r
}

} // verus!
