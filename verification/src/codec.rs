use vstd::bytes::{
    spec_u32_to_le_bytes, spec_u64_to_le_bytes, u32_from_le_bytes, u32_to_le_bytes,
    u64_from_le_bytes, u64_to_le_bytes,
};
use vstd::prelude::*;

use crate::error::BitcoinError;
use crate::model::{
    LegacyTransaction, OutPoint, OutPointModel, TransactionModel, TxInput, TxInputModel, TxOutput,
    TxOutputModel,
};
use crate::wire::{
    lemma_ser_inputs_snoc, lemma_ser_outputs_snoc, lemma_ser_parse_transaction, spec_deserialize,
    spec_parse_bytes, spec_parse_input, spec_parse_inputs, spec_parse_output, spec_parse_outputs,
    spec_parse_transaction, spec_parse_u32, spec_parse_u64, spec_prepend, spec_ser_input,
    spec_ser_inputs, spec_ser_output, spec_ser_outputs, spec_ser_outpoint, spec_serialize,
    version_from_wire, version_to_wire, wf_transaction,
};

verus! {

/// Serialization to the wire byte layout.
pub trait BitcoinSerialize {
    /// The byte sequence this value encodes to.
    spec fn spec_ser(&self) -> Seq<u8>;

    /// Encodes the value. Total: it never fails and never mutates the
    /// value.
    fn serialize(&self) -> (r: Vec<u8>)
        ensures
            r@ == self.spec_ser(),
    ;
}

/// The 32-bit wire value of a signed version (two's complement).
fn encode_version(v: i32) -> (r: u32)
    ensures
        r == version_to_wire(v),
{
    if v >= 0 {
        v as u32
    } else {
        ((v as i64) + 0x1_0000_0000i64) as u32
    }
}

/// The signed version a 32-bit wire value stands for.
fn decode_version(u: u32) -> (r: i32)
    ensures
        r == version_from_wire(u),
{
    if u < 0x8000_0000 {
        u as i32
    } else {
        ((u as i64) - 0x1_0000_0000i64) as i32
    }
}

fn push_u32_le(out: &mut Vec<u8>, v: u32)
    ensures
        final(out)@ == old(out)@ + spec_u32_to_le_bytes(v),
{
    let mut b = u32_to_le_bytes(v);
    out.append(&mut b);
}

fn push_u64_le(out: &mut Vec<u8>, v: u64)
    ensures
        final(out)@ == old(out)@ + spec_u64_to_le_bytes(v),
{
    let mut b = u64_to_le_bytes(v);
    out.append(&mut b);
}

#[verifier::loop_isolation(false)]
fn push_bytes(out: &mut Vec<u8>, b: &Vec<u8>)
    ensures
        final(out)@ == old(out)@ + b@,
{
    let n = b.len();
    let mut j: usize = 0;
    while j < n
        invariant
            j <= n,
            out@ == old(out)@ + b@.take(j as int),
        decreases n - j,
    {
        proof {
            assert((old(out)@ + b@.take(j as int)).push(b@[j as int]) =~= old(out)@ + b@.take(
                j as int + 1,
            ));
        }
        out.push(b[j]);
        j += 1;
    }
    proof {
        assert(b@.take(n as int) =~= b@);
    }
}

#[verifier::loop_isolation(false)]
fn push_outpoint(out: &mut Vec<u8>, p: &OutPoint)
    ensures
        final(out)@ == old(out)@ + spec_ser_outpoint(p@),
{
    proof {
        assert(out@ =~= out@ + p.txid@.take(0));
    }
    let mut j: usize = 0;
    while j < 32
        invariant
            j <= 32,
            out@ == old(out)@ + p.txid@.take(j as int),
        decreases 32 - j,
    {
        proof {
            assert((old(out)@ + p.txid@.take(j as int)).push(p.txid@[j as int]) =~= old(out)@
                + p.txid@.take(j as int + 1));
        }
        out.push(p.txid[j]);
        j += 1;
    }
    proof {
        assert(p.txid@.take(32) =~= p.txid@);
    }
    push_u32_le(out, p.vout);
    proof {
        assert((old(out)@ + p.txid@) + spec_u32_to_le_bytes(p.vout) =~= old(out)@
            + spec_ser_outpoint(p@));
    }
}

fn push_input(out: &mut Vec<u8>, i: &TxInput)
    ensures
        final(out)@ == old(out)@ + spec_ser_input(i@),
{
    push_outpoint(out, &i.previous_output);
    push_u64_le(out, i.script_sig.len() as u64);
    push_bytes(out, &i.script_sig);
    push_u32_le(out, i.sequence);
    proof {
        assert(final(out)@ =~= old(out)@ + spec_ser_input(i@));
    }
}

fn push_output(out: &mut Vec<u8>, o: &TxOutput)
    ensures
        final(out)@ == old(out)@ + spec_ser_output(o@),
{
    push_u64_le(out, o.value);
    push_u64_le(out, o.script_pubkey.len() as u64);
    push_bytes(out, &o.script_pubkey);
    proof {
        assert(final(out)@ =~= old(out)@ + spec_ser_output(o@));
    }
}

impl BitcoinSerialize for LegacyTransaction {
    open spec fn spec_ser(&self) -> Seq<u8> {
        spec_serialize(self@)
    }

    /// Encodes the record in the documented wire layout: version, input
    /// count, each input, output count, each output, lock time.
    #[verifier::loop_isolation(false)]
    fn serialize(&self) -> (r: Vec<u8>) {
        let ghost ivs = self.inputs@.map_values(|i: TxInput| i@);
        let ghost ovs = self.outputs@.map_values(|o: TxOutput| o@);
        let mut out: Vec<u8> = Vec::new();
        push_u32_le(&mut out, encode_version(self.version));
        let nin = self.inputs.len();
        push_u64_le(&mut out, nin as u64);
        let ghost pre_inputs = out@;
        proof {
            assert(out@ =~= pre_inputs + spec_ser_inputs(ivs.take(0)));
        }
        let mut k: usize = 0;
        while k < nin
            invariant
                k <= nin,
                out@ == pre_inputs + spec_ser_inputs(ivs.take(k as int)),
            decreases nin - k,
        {
            push_input(&mut out, &self.inputs[k]);
            proof {
                lemma_ser_inputs_snoc(ivs.take(k as int), ivs[k as int]);
                assert(ivs.take(k as int).push(ivs[k as int]) =~= ivs.take(k as int + 1));
                assert((pre_inputs + spec_ser_inputs(ivs.take(k as int))) + spec_ser_input(
                    ivs[k as int],
                ) =~= pre_inputs + spec_ser_inputs(ivs.take(k as int + 1)));
            }
            k += 1;
        }
        proof {
            assert(ivs.take(nin as int) =~= ivs);
        }
        let nout = self.outputs.len();
        push_u64_le(&mut out, nout as u64);
        let ghost pre_outputs = out@;
        proof {
            assert(out@ =~= pre_outputs + spec_ser_outputs(ovs.take(0)));
        }
        let mut m: usize = 0;
        while m < nout
            invariant
                m <= nout,
                out@ == pre_outputs + spec_ser_outputs(ovs.take(m as int)),
            decreases nout - m,
        {
            push_output(&mut out, &self.outputs[m]);
            proof {
                lemma_ser_outputs_snoc(ovs.take(m as int), ovs[m as int]);
                assert(ovs.take(m as int).push(ovs[m as int]) =~= ovs.take(m as int + 1));
                assert((pre_outputs + spec_ser_outputs(ovs.take(m as int))) + spec_ser_output(
                    ovs[m as int],
                ) =~= pre_outputs + spec_ser_outputs(ovs.take(m as int + 1)));
            }
            m += 1;
        }
        proof {
            assert(ovs.take(nout as int) =~= ovs);
        }
        push_u32_le(&mut out, self.lock_time);
        proof {
            assert(out@ =~= spec_serialize(self@));
        }
        out
    }
}

#[verifier::loop_isolation(false)]
fn read_u32_le(data: &[u8], pos: usize) -> (r: Option<(u32, usize)>)
    requires
        pos <= data@.len(),
    ensures
        match r {
            Some(p) => {
                &&& spec_parse_u32(data@.skip(pos as int)) == Some((p.0, data@.skip(p.1 as int)))
                &&& p.1 == pos + 4
                &&& p.1 <= data@.len()
            },
            None => spec_parse_u32(data@.skip(pos as int)) is None,
        },
{
    if data.len() - pos >= 4 {
        let v = u32_from_le_bytes(&data[pos..pos + 4]);
        proof {
            assert(data@.subrange(pos as int, pos as int + 4) =~= data@.skip(pos as int).take(4));
            assert(data@.skip(pos as int).skip(4) =~= data@.skip(pos as int + 4));
        }
        Some((v, pos + 4))
    } else {
        None
    }
}

#[verifier::loop_isolation(false)]
fn read_u64_le(data: &[u8], pos: usize) -> (r: Option<(u64, usize)>)
    requires
        pos <= data@.len(),
    ensures
        match r {
            Some(p) => {
                &&& spec_parse_u64(data@.skip(pos as int)) == Some((p.0, data@.skip(p.1 as int)))
                &&& p.1 == pos + 8
                &&& p.1 <= data@.len()
            },
            None => spec_parse_u64(data@.skip(pos as int)) is None,
        },
{
    if data.len() - pos >= 8 {
        let v = u64_from_le_bytes(&data[pos..pos + 8]);
        proof {
            assert(data@.subrange(pos as int, pos as int + 8) =~= data@.skip(pos as int).take(8));
            assert(data@.skip(pos as int).skip(8) =~= data@.skip(pos as int + 8));
        }
        Some((v, pos + 8))
    } else {
        None
    }
}

#[verifier::loop_isolation(false)]
fn read_txid(data: &[u8], pos: usize) -> (r: Option<([u8; 32], usize)>)
    requires
        pos <= data@.len(),
    ensures
        match r {
            Some(p) => {
                &&& spec_parse_bytes(data@.skip(pos as int), 32) == Some(
                    (p.0@, data@.skip(p.1 as int)),
                )
                &&& p.1 == pos + 32
                &&& p.1 <= data@.len()
            },
            None => spec_parse_bytes(data@.skip(pos as int), 32) is None,
        },
{
    if data.len() - pos >= 32 {
        let mut t: [u8; 32] = [0;32];
        let mut j: usize = 0;
        while j < 32
            invariant
                j <= 32,
                forall|q: int| 0 <= q < j ==> t@[q] == data@[pos + q],
            decreases 32 - j,
        {
            t[j] = data[pos + j];
            j += 1;
        }
        proof {
            assert(t@ =~= data@.skip(pos as int).take(32));
            assert(data@.skip(pos as int).skip(32) =~= data@.skip(pos as int + 32));
        }
        Some((t, pos + 32))
    } else {
        None
    }
}

#[verifier::loop_isolation(false)]
fn read_script(data: &[u8], pos: usize, n: usize) -> (r: Vec<u8>)
    requires
        pos + n <= data@.len(),
    ensures
        r@ == data@.skip(pos as int).take(n as int),
{
    let total = data.len();
    let mut sc: Vec<u8> = Vec::new();
    let mut j: usize = 0;
    while j < n
        invariant
            j <= n,
            sc@.len() == j,
            forall|q: int| 0 <= q < j ==> sc@[q] == data@[pos + q],
        decreases n - j,
    {
        sc.push(data[pos + j]);
        j += 1;
    }
    proof {
        assert(sc@ =~= data@.skip(pos as int).take(n as int));
    }
    sc
}

fn read_input(data: &[u8], pos: usize) -> (r: Option<(TxInput, usize)>)
    requires
        pos <= data@.len(),
    ensures
        match r {
            Some(p) => {
                &&& spec_parse_input(data@.skip(pos as int)) == Some((p.0@, data@.skip(p.1 as int)))
                &&& pos <= p.1 <= data@.len()
            },
            None => spec_parse_input(data@.skip(pos as int)) is None,
        },
{
    let (txid, p1) = match read_txid(data, pos) {
        Some(p) => p,
        None => {
            return None;
        },
    };
    let (vout, p2) = match read_u32_le(data, p1) {
        Some(p) => p,
        None => {
            return None;
        },
    };
    let (slen, p3) = match read_u64_le(data, p2) {
        Some(p) => p,
        None => {
            return None;
        },
    };
    if slen > (data.len() - p3) as u64 {
        // The claimed script length reaches past the buffer.
        return None;
    }
    let n = slen as usize;
    let sc = read_script(data, p3, n);
    let p4 = p3 + n;
    proof {
        assert(spec_parse_bytes(data@.skip(p3 as int), slen as int) == Some(
            (sc@, data@.skip(p4 as int)),
        )) by {
            assert(data@.skip(p3 as int).skip(slen as int) =~= data@.skip(p4 as int));
        }
    }
    let (seqno, p5) = match read_u32_le(data, p4) {
        Some(p) => p,
        None => {
            return None;
        },
    };
    let inp = TxInput {
        previous_output: OutPoint { txid, vout },
        script_sig: sc,
        sequence: seqno,
    };
    Some((inp, p5))
}

fn read_output(data: &[u8], pos: usize) -> (r: Option<(TxOutput, usize)>)
    requires
        pos <= data@.len(),
    ensures
        match r {
            Some(p) => {
                &&& spec_parse_output(data@.skip(pos as int)) == Some(
                    (p.0@, data@.skip(p.1 as int)),
                )
                &&& pos <= p.1 <= data@.len()
            },
            None => spec_parse_output(data@.skip(pos as int)) is None,
        },
{
    let (value, p1) = match read_u64_le(data, pos) {
        Some(p) => p,
        None => {
            return None;
        },
    };
    let (slen, p2) = match read_u64_le(data, p1) {
        Some(p) => p,
        None => {
            return None;
        },
    };
    if slen > (data.len() - p2) as u64 {
        // The claimed script length reaches past the buffer.
        return None;
    }
    let n = slen as usize;
    let sc = read_script(data, p2, n);
    let p3 = p2 + n;
    proof {
        assert(spec_parse_bytes(data@.skip(p2 as int), slen as int) == Some(
            (sc@, data@.skip(p3 as int)),
        )) by {
            assert(data@.skip(p2 as int).skip(slen as int) =~= data@.skip(p3 as int));
        }
    }
    let o = TxOutput { value, script_pubkey: sc };
    Some((o, p3))
}

proof fn lemma_prepend_step<T>(acc: Seq<T>, v: T, r: Option<(Seq<T>, Seq<u8>)>)
    ensures
        spec_prepend(acc, spec_prepend(seq![v], r)) == spec_prepend(acc.push(v), r),
{
    match r {
        Some(p) => {
            assert(acc + (seq![v] + p.0) =~= acc.push(v) + p.0);
        },
        None => {},
    }
}

impl LegacyTransaction {
    /// Decodes a transaction from bytes. Strict: fields are read in wire
    /// order, every multi-byte read is bounds-checked first, a length
    /// prefix reaching past the buffer is rejected, and any unconsumed
    /// trailing byte is rejected. On success the decoded value is exactly
    /// the one whose encoding is `data`; on any malformed input the
    /// result is the `InvalidTransaction` error, never a panic or an
    /// out-of-bounds read.
    #[verifier::loop_isolation(false)]
    pub fn deserialize(data: &[u8]) -> (r: Result<LegacyTransaction, BitcoinError>)
        ensures
            match r {
                Ok(t) => {
                    &&& spec_deserialize(data@) == Some(t@)
                    &&& wf_transaction(t@)
                    &&& spec_serialize(t@) == data@
                },
                Err(e) => {
                    &&& spec_deserialize(data@) is None
                    &&& e is InvalidTransaction
                },
            },
    {
        proof {
            assert(data@.skip(0) =~= data@);
        }
        let (vraw, pos_v) = match read_u32_le(data, 0) {
            Some(p) => p,
            None => {
                return Err(BitcoinError::InvalidTransaction);
            },
        };
        let version = decode_version(vraw);
        let (nin, pos_nin) = match read_u64_le(data, pos_v) {
            Some(p) => p,
            None => {
                return Err(BitcoinError::InvalidTransaction);
            },
        };
        let ghost s_inputs = data@.skip(pos_nin as int);
        let mut inputs: Vec<TxInput> = Vec::new();
        let mut pos: usize = pos_nin;
        let mut k: u64 = 0;
        proof {
            assert(inputs@.map_values(|i: TxInput| i@) =~= Seq::<TxInputModel>::empty());
        }
        while k < nin
            invariant
                k <= nin,
                pos <= data@.len(),
                inputs@.len() == k,
                spec_prepend(
                    inputs@.map_values(|i: TxInput| i@),
                    spec_parse_inputs(data@.skip(pos as int), (nin - k) as nat),
                ) == spec_parse_inputs(s_inputs, nin as nat),
            decreases nin - k,
        {
            let (inp, p2) = match read_input(data, pos) {
                Some(p) => p,
                None => {
                    return Err(BitcoinError::InvalidTransaction);
                },
            };
            proof {
                let acc = inputs@.map_values(|i: TxInput| i@);
                let m = (nin - k) as nat;
                assert(spec_parse_inputs(data@.skip(pos as int), m) == spec_prepend(
                    seq![inp@],
                    spec_parse_inputs(data@.skip(p2 as int), (m - 1) as nat),
                ));
                lemma_prepend_step(
                    acc,
                    inp@,
                    spec_parse_inputs(data@.skip(p2 as int), (m - 1) as nat),
                );
                assert(inputs@.push(inp).map_values(|i: TxInput| i@) =~= acc.push(inp@));
            }
            inputs.push(inp);
            pos = p2;
            k = k + 1;
        }
        let ghost ivs = inputs@.map_values(|i: TxInput| i@);
        proof {
            assert(ivs + Seq::<TxInputModel>::empty() =~= ivs);
            assert(spec_parse_inputs(s_inputs, nin as nat) == Some((ivs, data@.skip(pos as int))));
        }
        let (nout, pos_nout) = match read_u64_le(data, pos) {
            Some(p) => p,
            None => {
                return Err(BitcoinError::InvalidTransaction);
            },
        };
        let ghost s_outputs = data@.skip(pos_nout as int);
        let mut outputs: Vec<TxOutput> = Vec::new();
        pos = pos_nout;
        let mut m: u64 = 0;
        proof {
            assert(outputs@.map_values(|o: TxOutput| o@) =~= Seq::<TxOutputModel>::empty());
        }
        while m < nout
            invariant
                m <= nout,
                pos <= data@.len(),
                outputs@.len() == m,
                spec_prepend(
                    outputs@.map_values(|o: TxOutput| o@),
                    spec_parse_outputs(data@.skip(pos as int), (nout - m) as nat),
                ) == spec_parse_outputs(s_outputs, nout as nat),
            decreases nout - m,
        {
            let (op, p2) = match read_output(data, pos) {
                Some(p) => p,
                None => {
                    return Err(BitcoinError::InvalidTransaction);
                },
            };
            proof {
                let acc = outputs@.map_values(|o: TxOutput| o@);
                let q = (nout - m) as nat;
                assert(spec_parse_outputs(data@.skip(pos as int), q) == spec_prepend(
                    seq![op@],
                    spec_parse_outputs(data@.skip(p2 as int), (q - 1) as nat),
                ));
                lemma_prepend_step(
                    acc,
                    op@,
                    spec_parse_outputs(data@.skip(p2 as int), (q - 1) as nat),
                );
                assert(outputs@.push(op).map_values(|o: TxOutput| o@) =~= acc.push(op@));
            }
            outputs.push(op);
            pos = p2;
            m = m + 1;
        }
        let ghost ovs = outputs@.map_values(|o: TxOutput| o@);
        proof {
            assert(ovs + Seq::<TxOutputModel>::empty() =~= ovs);
            assert(spec_parse_outputs(s_outputs, nout as nat) == Some((ovs, data@.skip(pos as int))));
        }
        let (lock_time, pos_lt) = match read_u32_le(data, pos) {
            Some(p) => p,
            None => {
                return Err(BitcoinError::InvalidTransaction);
            },
        };
        proof {
            assert(spec_parse_transaction(data@) matches Some(p) && p.0 == (TransactionModel {
                version: version_from_wire(vraw),
                inputs: ivs,
                outputs: ovs,
                lock_time: lock_time,
            }) && p.1 == data@.skip(pos_lt as int));
        }
        if pos_lt != data.len() {
            // Trailing unconsumed bytes: the record must be exact.
            proof {
                assert(data@.skip(pos_lt as int).len() > 0);
            }
            return Err(BitcoinError::InvalidTransaction);
        }
        let t = LegacyTransaction { version, inputs, outputs, lock_time };
        proof {
            assert(data@.skip(pos_lt as int).len() == 0);
            assert(spec_deserialize(data@) == Some(t@));
            lemma_ser_parse_transaction(data@, t@, data@.skip(pos_lt as int));
            assert(spec_serialize(t@) + data@.skip(pos_lt as int) =~= spec_serialize(t@));
        }
        Ok(t)
    }
}

} // verus!
