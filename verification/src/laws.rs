use vstd::prelude::*;

use crate::model::{TransactionModel, TxInputModel, TxOutputModel};
use crate::wire::{
    lemma_parse_ser_transaction, lemma_ser_parse_transaction, spec_deserialize,
    spec_parse_transaction, spec_serialize, wf_transaction,
};

verus! {

/// Round-trip law: decoding an encoding yields exactly the encoded
/// transaction, for every well-formed transaction model. Every value of
/// the executable transaction type is well-formed.
pub proof fn lemma_round_trip(t: TransactionModel)
    requires
        wf_transaction(t),
    ensures
        spec_deserialize(spec_serialize(t)) == Some(t),
{
    lemma_parse_ser_transaction(t, Seq::empty());
    assert(spec_serialize(t) + Seq::<u8>::empty() =~= spec_serialize(t));
}

/// Truncation safety: no strict prefix of an encoding decodes; dropping
/// any tail of the byte sequence makes decoding fail.
pub proof fn lemma_truncation_fails(t: TransactionModel, k: int)
    requires
        wf_transaction(t),
        0 <= k < spec_serialize(t).len(),
    ensures
        spec_deserialize(spec_serialize(t).take(k)) is None,
{
    let s = spec_serialize(t);
    let p = s.take(k);
    if spec_deserialize(p) is Some {
        let r = spec_parse_transaction(p)->0;
        lemma_ser_parse_transaction(p, r.0, r.1);
        assert(r.1.len() == 0);
        assert(spec_serialize(r.0) + r.1 =~= spec_serialize(r.0));
        assert(spec_serialize(r.0) == p);
        assert(spec_serialize(r.0) + s.skip(k) =~= s);
        lemma_parse_ser_transaction(r.0, s.skip(k));
        lemma_parse_ser_transaction(t, Seq::empty());
        assert(s + Seq::<u8>::empty() =~= s);
        assert(s.skip(k).len() == s.len() - k);
        assert(false);
    }
}

/// Exactness: an encoding followed by any non-empty trailing bytes is
/// rejected.
pub proof fn lemma_trailing_rejected(t: TransactionModel, extra: Seq<u8>)
    requires
        wf_transaction(t),
        extra.len() > 0,
    ensures
        spec_deserialize(spec_serialize(t) + extra) is None,
{
    lemma_parse_ser_transaction(t, extra);
}

/// Empty collections: a transaction with no inputs and no outputs encodes
/// and decodes, preserving version and lock time.
pub proof fn lemma_empty_collections_round_trip(version: i32, lock_time: u32)
    ensures
        spec_deserialize(
            spec_serialize(
                TransactionModel {
                    version,
                    inputs: Seq::<TxInputModel>::empty(),
                    outputs: Seq::<TxOutputModel>::empty(),
                    lock_time,
                },
            ),
        ) == Some(
            TransactionModel {
                version,
                inputs: Seq::<TxInputModel>::empty(),
                outputs: Seq::<TxOutputModel>::empty(),
                lock_time,
            },
        ),
{
    lemma_round_trip(
        TransactionModel {
            version,
            inputs: Seq::<TxInputModel>::empty(),
            outputs: Seq::<TxOutputModel>::empty(),
            lock_time,
        },
    );
}

/// Encodings are injective: equal encodings come only from equal
/// transactions.
pub proof fn lemma_serialize_injective(t1: TransactionModel, t2: TransactionModel)
    requires
        wf_transaction(t1),
        wf_transaction(t2),
        spec_serialize(t1) == spec_serialize(t2),
    ensures
        t1 == t2,
{
    lemma_round_trip(t1);
    lemma_round_trip(t2);
}

/// Failure is honest: when decoding a byte sequence fails, no well-formed
/// transaction encodes to that sequence.
pub proof fn lemma_deserialize_complete(d: Seq<u8>, t: TransactionModel)
    requires
        wf_transaction(t),
        spec_deserialize(d) is None,
    ensures
        spec_serialize(t) != d,
{
    if spec_serialize(t) == d {
        lemma_round_trip(t);
    }
}

} // verus!
