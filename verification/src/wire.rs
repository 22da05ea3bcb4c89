use vstd::bytes::{
    lemma_auto_spec_u32_to_from_le_bytes, lemma_auto_spec_u64_to_from_le_bytes,
    spec_u32_from_le_bytes, spec_u32_to_le_bytes, spec_u64_from_le_bytes, spec_u64_to_le_bytes,
};
use vstd::prelude::*;

use crate::model::{OutPointModel, TransactionModel, TxInputModel, TxOutputModel};

verus! {

// The wire layout, stated once, over the mathematical models. All integers
// are little-endian. Element counts and script byte lengths are carried in
// 8-byte (64-bit unsigned) length prefixes; this width is part of the
// format and encode and decode below are symmetric in it.
//
//   version      4 bytes, signed, two's complement
//   input count  8 bytes
//   each input:  txid 32 bytes | vout 4 bytes | script length 8 bytes |
//                script bytes  | sequence 4 bytes
//   output count 8 bytes
//   each output: value 8 bytes | script length 8 bytes | script bytes
//   lock time    4 bytes
/// The 32-bit unsigned wire value of a signed version: its two's
/// complement representation.
pub open spec fn version_to_wire(v: i32) -> u32 {
    if v >= 0 {
        v as u32
    } else {
        ((v as int) + 0x1_0000_0000) as u32
    }
}

/// The signed version that a 32-bit unsigned wire value stands for.
pub open spec fn version_from_wire(u: u32) -> i32 {
    if u < 0x8000_0000 {
        u as i32
    } else {
        ((u as int) - 0x1_0000_0000) as i32
    }
}

pub proof fn lemma_version_wire_roundtrip(v: i32)
    ensures
        version_from_wire(version_to_wire(v)) == v,
{
}

pub proof fn lemma_wire_version_roundtrip(u: u32)
    ensures
        version_to_wire(version_from_wire(u)) == u,
{
}

/// An out-point model that the format can carry: the identifier is exactly
/// 32 bytes.
pub open spec fn wf_outpoint(p: OutPointModel) -> bool {
    p.txid.len() == 32
}

/// An input model that the format can carry: a well-formed out-point and a
/// script whose length fits the 8-byte length prefix.
pub open spec fn wf_input(i: TxInputModel) -> bool {
    &&& wf_outpoint(i.previous_output)
    &&& i.script_sig.len() <= u64::MAX
}

/// An output model that the format can carry.
pub open spec fn wf_output(o: TxOutputModel) -> bool {
    o.script_pubkey.len() <= u64::MAX
}

/// A transaction model that the format can carry. Every value built from
/// the executable types satisfies this.
pub open spec fn wf_transaction(t: TransactionModel) -> bool {
    &&& t.inputs.len() <= u64::MAX
    &&& t.outputs.len() <= u64::MAX
    &&& forall|k: int| 0 <= k < t.inputs.len() ==> wf_input(#[trigger] t.inputs[k])
    &&& forall|k: int| 0 <= k < t.outputs.len() ==> wf_output(#[trigger] t.outputs[k])
}

/// Encoding of an out-point: raw txid bytes, then the index.
pub open spec fn spec_ser_outpoint(p: OutPointModel) -> Seq<u8> {
    p.txid + spec_u32_to_le_bytes(p.vout)
}

/// Encoding of one input.
pub open spec fn spec_ser_input(i: TxInputModel) -> Seq<u8> {
    spec_ser_outpoint(i.previous_output) + spec_u64_to_le_bytes(i.script_sig.len() as u64)
        + i.script_sig + spec_u32_to_le_bytes(i.sequence)
}

/// Encoding of a sequence of inputs, in order.
pub open spec fn spec_ser_inputs(s: Seq<TxInputModel>) -> Seq<u8>
    decreases s.len(),
{
    if s.len() == 0 {
        Seq::empty()
    } else {
        spec_ser_input(s[0]) + spec_ser_inputs(s.drop_first())
    }
}

/// Encoding of one output.
pub open spec fn spec_ser_output(o: TxOutputModel) -> Seq<u8> {
    spec_u64_to_le_bytes(o.value) + spec_u64_to_le_bytes(o.script_pubkey.len() as u64)
        + o.script_pubkey
}

/// Encoding of a sequence of outputs, in order.
pub open spec fn spec_ser_outputs(s: Seq<TxOutputModel>) -> Seq<u8>
    decreases s.len(),
{
    if s.len() == 0 {
        Seq::empty()
    } else {
        spec_ser_output(s[0]) + spec_ser_outputs(s.drop_first())
    }
}

/// The encoding of a whole transaction. Total: every model value has one.
pub open spec fn spec_serialize(t: TransactionModel) -> Seq<u8> {
    spec_u32_to_le_bytes(version_to_wire(t.version)) + spec_u64_to_le_bytes(
        t.inputs.len() as u64,
    ) + spec_ser_inputs(t.inputs) + spec_u64_to_le_bytes(t.outputs.len() as u64)
        + spec_ser_outputs(t.outputs) + spec_u32_to_le_bytes(t.lock_time)
}

// The decoder, as a functional parser: each step either consumes an exact
// number of leading bytes and returns the value with the remainder, or
// fails.
/// Reads a 4-byte little-endian unsigned integer.
pub open spec fn spec_parse_u32(s: Seq<u8>) -> Option<(u32, Seq<u8>)> {
    if s.len() >= 4 {
        Some((spec_u32_from_le_bytes(s.take(4)), s.skip(4)))
    } else {
        None
    }
}

/// Reads an 8-byte little-endian unsigned integer.
pub open spec fn spec_parse_u64(s: Seq<u8>) -> Option<(u64, Seq<u8>)> {
    if s.len() >= 8 {
        Some((spec_u64_from_le_bytes(s.take(8)), s.skip(8)))
    } else {
        None
    }
}

/// Reads exactly `n` raw bytes; fails when fewer remain, so a hostile
/// length prefix can never reach past the buffer.
pub open spec fn spec_parse_bytes(s: Seq<u8>, n: int) -> Option<(Seq<u8>, Seq<u8>)> {
    if 0 <= n <= s.len() {
        Some((s.take(n), s.skip(n)))
    } else {
        None
    }
}

/// Reads one input.
pub open spec fn spec_parse_input(s: Seq<u8>) -> Option<(TxInputModel, Seq<u8>)> {
    match spec_parse_bytes(s, 32) {
        None => None,
        Some(p0) => match spec_parse_u32(p0.1) {
            None => None,
            Some(p1) => match spec_parse_u64(p1.1) {
                None => None,
                Some(p2) => match spec_parse_bytes(p2.1, p2.0 as int) {
                    None => None,
                    Some(p3) => match spec_parse_u32(p3.1) {
                        None => None,
                        Some(p4) => Some(
                            (
                                TxInputModel {
                                    previous_output: OutPointModel { txid: p0.0, vout: p1.0 },
                                    script_sig: p3.0,
                                    sequence: p4.0,
                                },
                                p4.1,
                            ),
                        ),
                    },
                },
            },
        },
    }
}

/// Reads one output.
pub open spec fn spec_parse_output(s: Seq<u8>) -> Option<(TxOutputModel, Seq<u8>)> {
    match spec_parse_u64(s) {
        None => None,
        Some(p0) => match spec_parse_u64(p0.1) {
            None => None,
            Some(p1) => match spec_parse_bytes(p1.1, p1.0 as int) {
                None => None,
                Some(p2) => Some(
                    (TxOutputModel { value: p0.0, script_pubkey: p2.0 }, p2.1),
                ),
            },
        },
    }
}

/// Puts already-read elements in front of a parse result.
pub open spec fn spec_prepend<T>(pre: Seq<T>, r: Option<(Seq<T>, Seq<u8>)>) -> Option<
    (Seq<T>, Seq<u8>),
> {
    match r {
        Some(p) => Some((pre + p.0, p.1)),
        None => None,
    }
}

/// Reads exactly `n` inputs.
pub open spec fn spec_parse_inputs(s: Seq<u8>, n: nat) -> Option<(Seq<TxInputModel>, Seq<u8>)>
    decreases n,
{
    if n == 0 {
        Some((Seq::empty(), s))
    } else {
        match spec_parse_input(s) {
            None => None,
            Some(p) => spec_prepend(seq![p.0], spec_parse_inputs(p.1, (n - 1) as nat)),
        }
    }
}

/// Reads exactly `n` outputs.
pub open spec fn spec_parse_outputs(s: Seq<u8>, n: nat) -> Option<(Seq<TxOutputModel>, Seq<u8>)>
    decreases n,
{
    if n == 0 {
        Some((Seq::empty(), s))
    } else {
        match spec_parse_output(s) {
            None => None,
            Some(p) => spec_prepend(seq![p.0], spec_parse_outputs(p.1, (n - 1) as nat)),
        }
    }
}

/// Reads a whole transaction record, returning the remainder.
pub open spec fn spec_parse_transaction(s: Seq<u8>) -> Option<(TransactionModel, Seq<u8>)> {
    match spec_parse_u32(s) {
        None => None,
        Some(p0) => match spec_parse_u64(p0.1) {
            None => None,
            Some(p1) => match spec_parse_inputs(p1.1, p1.0 as nat) {
                None => None,
                Some(p2) => match spec_parse_u64(p2.1) {
                    None => None,
                    Some(p3) => match spec_parse_outputs(p3.1, p3.0 as nat) {
                        None => None,
                        Some(p4) => match spec_parse_u32(p4.1) {
                            None => None,
                            Some(p5) => Some(
                                (
                                    TransactionModel {
                                        version: version_from_wire(p0.0),
                                        inputs: p2.0,
                                        outputs: p4.0,
                                        lock_time: p5.0,
                                    },
                                    p5.1,
                                ),
                            ),
                        },
                    },
                },
            },
        },
    }
}

/// Strict decoding: the record must consume the whole sequence; trailing
/// bytes are a format error.
pub open spec fn spec_deserialize(s: Seq<u8>) -> Option<TransactionModel> {
    match spec_parse_transaction(s) {
        None => None,
        Some(p) => if p.1.len() == 0 {
            Some(p.0)
        } else {
            None
        },
    }
}

// Splitting facts about concatenation, used throughout the proofs below.
proof fn lemma_split(a: Seq<u8>, b: Seq<u8>)
    ensures
        (a + b).len() == a.len() + b.len(),
        (a + b).take(a.len() as int) == a,
        (a + b).skip(a.len() as int) == b,
{
    assert((a + b).take(a.len() as int) =~= a);
    assert((a + b).skip(a.len() as int) =~= b);
}

// Reading back an encoding: each parser, applied to the matching encoder's
// bytes followed by anything, returns the encoded value and the rest.
proof fn lemma_parse_ser_u32(v: u32, rest: Seq<u8>)
    ensures
        spec_parse_u32(spec_u32_to_le_bytes(v) + rest) == Some((v, rest)),
{
    lemma_auto_spec_u32_to_from_le_bytes();
    lemma_split(spec_u32_to_le_bytes(v), rest);
}

proof fn lemma_parse_ser_u64(v: u64, rest: Seq<u8>)
    ensures
        spec_parse_u64(spec_u64_to_le_bytes(v) + rest) == Some((v, rest)),
{
    lemma_auto_spec_u64_to_from_le_bytes();
    lemma_split(spec_u64_to_le_bytes(v), rest);
}

proof fn lemma_parse_ser_bytes(a: Seq<u8>, rest: Seq<u8>)
    ensures
        spec_parse_bytes(a + rest, a.len() as int) == Some((a, rest)),
{
    lemma_split(a, rest);
}

proof fn lemma_parse_ser_input(i: TxInputModel, rest: Seq<u8>)
    requires
        wf_input(i),
    ensures
        spec_parse_input(spec_ser_input(i) + rest) == Some((i, rest)),
{
    let txid = i.previous_output.txid;
    let vout4 = spec_u32_to_le_bytes(i.previous_output.vout);
    let len8 = spec_u64_to_le_bytes(i.script_sig.len() as u64);
    let seq4 = spec_u32_to_le_bytes(i.sequence);
    let r3 = seq4 + rest;
    let r2 = i.script_sig + r3;
    let r1 = len8 + r2;
    let r0 = vout4 + r1;
    assert(spec_ser_input(i) + rest =~= txid + r0);
    lemma_parse_ser_bytes(txid, r0);
    lemma_parse_ser_u32(i.previous_output.vout, r1);
    lemma_parse_ser_u64(i.script_sig.len() as u64, r2);
    lemma_parse_ser_bytes(i.script_sig, r3);
    lemma_parse_ser_u32(i.sequence, rest);
    assert((TxInputModel {
        previous_output: OutPointModel { txid, vout: i.previous_output.vout },
        script_sig: i.script_sig,
        sequence: i.sequence,
    }) =~= i);
}

proof fn lemma_parse_ser_output(o: TxOutputModel, rest: Seq<u8>)
    requires
        wf_output(o),
    ensures
        spec_parse_output(spec_ser_output(o) + rest) == Some((o, rest)),
{
    let val8 = spec_u64_to_le_bytes(o.value);
    let len8 = spec_u64_to_le_bytes(o.script_pubkey.len() as u64);
    let r1 = o.script_pubkey + rest;
    let r0 = len8 + r1;
    assert(spec_ser_output(o) + rest =~= val8 + r0);
    lemma_parse_ser_u64(o.value, r0);
    lemma_parse_ser_u64(o.script_pubkey.len() as u64, r1);
    lemma_parse_ser_bytes(o.script_pubkey, rest);
    assert((TxOutputModel { value: o.value, script_pubkey: o.script_pubkey }) =~= o);
}

pub(crate) proof fn lemma_parse_ser_inputs(s: Seq<TxInputModel>, rest: Seq<u8>)
    requires
        forall|k: int| 0 <= k < s.len() ==> wf_input(#[trigger] s[k]),
    ensures
        spec_parse_inputs(spec_ser_inputs(s) + rest, s.len()) == Some((s, rest)),
    decreases s.len(),
{
    if s.len() == 0 {
        assert(spec_ser_inputs(s) + rest =~= rest);
        assert(s =~= Seq::<TxInputModel>::empty());
    } else {
        let tail = s.drop_first();
        assert(spec_ser_inputs(s) + rest =~= spec_ser_input(s[0]) + (spec_ser_inputs(tail)
            + rest));
        lemma_parse_ser_input(s[0], spec_ser_inputs(tail) + rest);
        lemma_parse_ser_inputs(tail, rest);
        assert(seq![s[0]] + tail =~= s);
    }
}

pub(crate) proof fn lemma_parse_ser_outputs(s: Seq<TxOutputModel>, rest: Seq<u8>)
    requires
        forall|k: int| 0 <= k < s.len() ==> wf_output(#[trigger] s[k]),
    ensures
        spec_parse_outputs(spec_ser_outputs(s) + rest, s.len()) == Some((s, rest)),
    decreases s.len(),
{
    if s.len() == 0 {
        assert(spec_ser_outputs(s) + rest =~= rest);
        assert(s =~= Seq::<TxOutputModel>::empty());
    } else {
        let tail = s.drop_first();
        assert(spec_ser_outputs(s) + rest =~= spec_ser_output(s[0]) + (spec_ser_outputs(tail)
            + rest));
        lemma_parse_ser_output(s[0], spec_ser_outputs(tail) + rest);
        lemma_parse_ser_outputs(tail, rest);
        assert(seq![s[0]] + tail =~= s);
    }
}

/// Reading back a whole encoding, with anything appended, yields exactly
/// the encoded transaction and the appended rest.
pub(crate) proof fn lemma_parse_ser_transaction(t: TransactionModel, rest: Seq<u8>)
    requires
        wf_transaction(t),
    ensures
        spec_parse_transaction(spec_serialize(t) + rest) == Some((t, rest)),
{
    let v4 = spec_u32_to_le_bytes(version_to_wire(t.version));
    let nin8 = spec_u64_to_le_bytes(t.inputs.len() as u64);
    let ins = spec_ser_inputs(t.inputs);
    let nout8 = spec_u64_to_le_bytes(t.outputs.len() as u64);
    let outs = spec_ser_outputs(t.outputs);
    let lt4 = spec_u32_to_le_bytes(t.lock_time);
    let r4 = lt4 + rest;
    let r3 = outs + r4;
    let r2 = nout8 + r3;
    let r1 = ins + r2;
    let r0 = nin8 + r1;
    assert(spec_serialize(t) + rest =~= v4 + r0);
    lemma_parse_ser_u32(version_to_wire(t.version), r0);
    lemma_version_wire_roundtrip(t.version);
    lemma_parse_ser_u64(t.inputs.len() as u64, r1);
    lemma_parse_ser_inputs(t.inputs, r2);
    lemma_parse_ser_u64(t.outputs.len() as u64, r3);
    lemma_parse_ser_outputs(t.outputs, r4);
    lemma_parse_ser_u32(t.lock_time, rest);
    assert((TransactionModel {
        version: t.version,
        inputs: t.inputs,
        outputs: t.outputs,
        lock_time: t.lock_time,
    }) =~= t);
}

// Re-encoding a parse: whenever a parser succeeds, the value is
// well-formed and re-encoding it restores exactly the consumed bytes.
proof fn lemma_ser_parse_u32(s: Seq<u8>, v: u32, rest: Seq<u8>)
    requires
        spec_parse_u32(s) == Some((v, rest)),
    ensures
        s == spec_u32_to_le_bytes(v) + rest,
{
    lemma_auto_spec_u32_to_from_le_bytes();
    assert(s =~= s.take(4) + s.skip(4));
}

proof fn lemma_ser_parse_u64(s: Seq<u8>, v: u64, rest: Seq<u8>)
    requires
        spec_parse_u64(s) == Some((v, rest)),
    ensures
        s == spec_u64_to_le_bytes(v) + rest,
{
    lemma_auto_spec_u64_to_from_le_bytes();
    assert(s =~= s.take(8) + s.skip(8));
}

proof fn lemma_ser_parse_bytes(s: Seq<u8>, n: int, b: Seq<u8>, rest: Seq<u8>)
    requires
        spec_parse_bytes(s, n) == Some((b, rest)),
    ensures
        s == b + rest,
        b.len() == n,
{
    assert(s =~= s.take(n) + s.skip(n));
}

pub(crate) proof fn lemma_ser_parse_input(s: Seq<u8>, i: TxInputModel, rest: Seq<u8>)
    requires
        spec_parse_input(s) == Some((i, rest)),
    ensures
        wf_input(i),
        s == spec_ser_input(i) + rest,
{
    let p0 = spec_parse_bytes(s, 32)->0;
    let p1 = spec_parse_u32(p0.1)->0;
    let p2 = spec_parse_u64(p1.1)->0;
    let p3 = spec_parse_bytes(p2.1, p2.0 as int)->0;
    let p4 = spec_parse_u32(p3.1)->0;
    lemma_ser_parse_bytes(s, 32, p0.0, p0.1);
    lemma_ser_parse_u32(p0.1, p1.0, p1.1);
    lemma_ser_parse_u64(p1.1, p2.0, p2.1);
    lemma_ser_parse_bytes(p2.1, p2.0 as int, p3.0, p3.1);
    lemma_ser_parse_u32(p3.1, p4.0, p4.1);
    assert(s =~= spec_ser_input(i) + rest);
}

pub(crate) proof fn lemma_ser_parse_output(s: Seq<u8>, o: TxOutputModel, rest: Seq<u8>)
    requires
        spec_parse_output(s) == Some((o, rest)),
    ensures
        wf_output(o),
        s == spec_ser_output(o) + rest,
{
    let p0 = spec_parse_u64(s)->0;
    let p1 = spec_parse_u64(p0.1)->0;
    let p2 = spec_parse_bytes(p1.1, p1.0 as int)->0;
    lemma_ser_parse_u64(s, p0.0, p0.1);
    lemma_ser_parse_u64(p0.1, p1.0, p1.1);
    lemma_ser_parse_bytes(p1.1, p1.0 as int, p2.0, p2.1);
    assert(s =~= spec_ser_output(o) + rest);
}

pub(crate) proof fn lemma_ser_parse_inputs(s: Seq<u8>, n: nat, vs: Seq<TxInputModel>, rest: Seq<u8>)
    requires
        spec_parse_inputs(s, n) == Some((vs, rest)),
    ensures
        vs.len() == n,
        forall|k: int| 0 <= k < vs.len() ==> wf_input(#[trigger] vs[k]),
        s == spec_ser_inputs(vs) + rest,
    decreases n,
{
    if n == 0 {
        assert(s =~= spec_ser_inputs(vs) + rest);
    } else {
        let p = spec_parse_input(s)->0;
        let q = spec_parse_inputs(p.1, (n - 1) as nat)->0;
        lemma_ser_parse_input(s, p.0, p.1);
        lemma_ser_parse_inputs(p.1, (n - 1) as nat, q.0, q.1);
        assert(vs == seq![p.0] + q.0);
        assert(vs[0] == p.0);
        assert(vs.drop_first() =~= q.0);
        assert(s =~= spec_ser_inputs(vs) + rest);
    }
}

pub(crate) proof fn lemma_ser_parse_outputs(
    s: Seq<u8>,
    n: nat,
    vs: Seq<TxOutputModel>,
    rest: Seq<u8>,
)
    requires
        spec_parse_outputs(s, n) == Some((vs, rest)),
    ensures
        vs.len() == n,
        forall|k: int| 0 <= k < vs.len() ==> wf_output(#[trigger] vs[k]),
        s == spec_ser_outputs(vs) + rest,
    decreases n,
{
    if n == 0 {
        assert(s =~= spec_ser_outputs(vs) + rest);
    } else {
        let p = spec_parse_output(s)->0;
        let q = spec_parse_outputs(p.1, (n - 1) as nat)->0;
        lemma_ser_parse_output(s, p.0, p.1);
        lemma_ser_parse_outputs(p.1, (n - 1) as nat, q.0, q.1);
        assert(vs == seq![p.0] + q.0);
        assert(vs[0] == p.0);
        assert(vs.drop_first() =~= q.0);
        assert(s =~= spec_ser_outputs(vs) + rest);
    }
}

/// Whenever the record parser succeeds, the transaction is well-formed and
/// re-encoding it restores exactly the consumed bytes.
pub(crate) proof fn lemma_ser_parse_transaction(s: Seq<u8>, t: TransactionModel, rest: Seq<u8>)
    requires
        spec_parse_transaction(s) == Some((t, rest)),
    ensures
        wf_transaction(t),
        s == spec_serialize(t) + rest,
{
    let p0 = spec_parse_u32(s)->0;
    let p1 = spec_parse_u64(p0.1)->0;
    let p2 = spec_parse_inputs(p1.1, p1.0 as nat)->0;
    let p3 = spec_parse_u64(p2.1)->0;
    let p4 = spec_parse_outputs(p3.1, p3.0 as nat)->0;
    let p5 = spec_parse_u32(p4.1)->0;
    lemma_ser_parse_u32(s, p0.0, p0.1);
    lemma_ser_parse_u64(p0.1, p1.0, p1.1);
    lemma_ser_parse_inputs(p1.1, p1.0 as nat, p2.0, p2.1);
    lemma_ser_parse_u64(p2.1, p3.0, p3.1);
    lemma_ser_parse_outputs(p3.1, p3.0 as nat, p4.0, p4.1);
    lemma_ser_parse_u32(p4.1, p5.0, p5.1);
    lemma_wire_version_roundtrip(p0.0);
    assert(t.inputs.len() as u64 == p1.0);
    assert(t.outputs.len() as u64 == p3.0);
    assert(s =~= spec_serialize(t) + rest);
}

// Appending one element to a sequence appends its encoding; this is the
// shape the encoder's loops proceed in.
pub(crate) proof fn lemma_ser_inputs_snoc(s: Seq<TxInputModel>, v: TxInputModel)
    ensures
        spec_ser_inputs(s.push(v)) == spec_ser_inputs(s) + spec_ser_input(v),
    decreases s.len(),
{
    reveal_with_fuel(spec_ser_inputs, 3);
    if s.len() == 0 {
        assert(s.push(v)[0] == v);
        assert(s.push(v).drop_first() =~= Seq::<TxInputModel>::empty());
        assert(spec_ser_inputs(s.push(v)) =~= spec_ser_inputs(s) + spec_ser_input(v));
    } else {
        let head = spec_ser_input(s[0]);
        let tail = s.drop_first();
        assert(s.push(v).drop_first() =~= tail.push(v));
        lemma_ser_inputs_snoc(tail, v);
        assert(s.push(v)[0] == s[0]);
        assert(spec_ser_inputs(s.push(v)) == head + (spec_ser_inputs(tail) + spec_ser_input(v)));
        assert(head + (spec_ser_inputs(tail) + spec_ser_input(v)) =~= (head + spec_ser_inputs(
            tail,
        )) + spec_ser_input(v));
    }
}

pub(crate) proof fn lemma_ser_outputs_snoc(s: Seq<TxOutputModel>, v: TxOutputModel)
    ensures
        spec_ser_outputs(s.push(v)) == spec_ser_outputs(s) + spec_ser_output(v),
    decreases s.len(),
{
    reveal_with_fuel(spec_ser_outputs, 3);
    if s.len() == 0 {
        assert(s.push(v)[0] == v);
        assert(s.push(v).drop_first() =~= Seq::<TxOutputModel>::empty());
        assert(spec_ser_outputs(s.push(v)) =~= spec_ser_outputs(s) + spec_ser_output(v));
    } else {
        let head = spec_ser_output(s[0]);
        let tail = s.drop_first();
        assert(s.push(v).drop_first() =~= tail.push(v));
        lemma_ser_outputs_snoc(tail, v);
        assert(s.push(v)[0] == s[0]);
        assert(spec_ser_outputs(s.push(v)) == head + (spec_ser_outputs(tail) + spec_ser_output(
            v,
        )));
        assert(head + (spec_ser_outputs(tail) + spec_ser_output(v)) =~= (head + spec_ser_outputs(
            tail,
        )) + spec_ser_output(v));
    }
}

} // verus!
