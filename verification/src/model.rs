use vstd::prelude::*;

verus! {

/// Reference to a previously created output: the identifier of the prior
/// transaction and the index of the output inside it. The index has no
/// upper bound at this layer; a consumer interprets it.
#[derive(Debug, Clone)]
pub struct OutPoint {
    pub txid: [u8; 32],
    pub vout: u32,
}

/// Mathematical model of an `OutPoint`.
#[verifier::ext_equal]
pub ghost struct OutPointModel {
    pub txid: Seq<u8>,
    pub vout: u32,
}

impl View for OutPoint {
    type V = OutPointModel;

    open spec fn view(&self) -> OutPointModel {
        OutPointModel { txid: self.txid@, vout: self.vout }
    }
}

/// One spend: the output being spent, the unlocking script (opaque bytes,
/// exclusively owned), and the sequence number (opaque to this codec).
#[derive(Debug, Clone)]
pub struct TxInput {
    pub previous_output: OutPoint,
    pub script_sig: Vec<u8>,
    pub sequence: u32,
}

/// Mathematical model of a `TxInput`.
#[verifier::ext_equal]
pub ghost struct TxInputModel {
    pub previous_output: OutPointModel,
    pub script_sig: Seq<u8>,
    pub sequence: u32,
}

impl View for TxInput {
    type V = TxInputModel;

    open spec fn view(&self) -> TxInputModel {
        TxInputModel {
            previous_output: self.previous_output@,
            script_sig: self.script_sig@,
            sequence: self.sequence,
        }
    }
}

/// One payment: an amount in the smallest currency unit and the locking
/// script (opaque bytes, exclusively owned).
#[derive(Debug, Clone)]
pub struct TxOutput {
    pub value: u64,
    pub script_pubkey: Vec<u8>,
}

/// Mathematical model of a `TxOutput`.
#[verifier::ext_equal]
pub ghost struct TxOutputModel {
    pub value: u64,
    pub script_pubkey: Seq<u8>,
}

impl View for TxOutput {
    type V = TxOutputModel;

    open spec fn view(&self) -> TxOutputModel {
        TxOutputModel { value: self.value, script_pubkey: self.script_pubkey@ }
    }
}

/// The transaction record: version (signed, for wire compatibility),
/// ordered inputs, ordered outputs, and lock time. Encoding never mutates
/// it; `inputs` and `outputs` may be empty.
#[derive(Debug, Clone)]
pub struct LegacyTransaction {
    pub version: i32,
    pub inputs: Vec<TxInput>,
    pub outputs: Vec<TxOutput>,
    pub lock_time: u32,
}

/// Mathematical model of a `LegacyTransaction`.
#[verifier::ext_equal]
pub ghost struct TransactionModel {
    pub version: i32,
    pub inputs: Seq<TxInputModel>,
    pub outputs: Seq<TxOutputModel>,
    pub lock_time: u32,
}

impl View for LegacyTransaction {
    type V = TransactionModel;

    open spec fn view(&self) -> TransactionModel {
        TransactionModel {
            version: self.version,
            inputs: self.inputs@.map_values(|i: TxInput| i@),
            outputs: self.outputs@.map_values(|o: TxOutput| o@),
            lock_time: self.lock_time,
        }
    }
}

impl LegacyTransaction {
    /// Starts a builder with the conventional defaults.
    pub fn builder() -> (r: LegacyTransactionBuilder)
        ensures
            r@ == (TransactionModel {
                version: 1,
                inputs: Seq::<TxInputModel>::empty(),
                outputs: Seq::<TxOutputModel>::empty(),
                lock_time: 0,
            }),
    {
        LegacyTransactionBuilder::new()
    }
}

/// Order-independent assembly of a `LegacyTransaction`. Each operation
/// consumes and returns the builder; `build` produces the final value and
/// never fails.
pub struct LegacyTransactionBuilder {
    pub version: i32,
    pub inputs: Vec<TxInput>,
    pub outputs: Vec<TxOutput>,
    pub lock_time: u32,
}

impl View for LegacyTransactionBuilder {
    type V = TransactionModel;

    open spec fn view(&self) -> TransactionModel {
        TransactionModel {
            version: self.version,
            inputs: self.inputs@.map_values(|i: TxInput| i@),
            outputs: self.outputs@.map_values(|o: TxOutput| o@),
            lock_time: self.lock_time,
        }
    }
}

impl Default for LegacyTransactionBuilder {
    /// The conventional defaults of this format family: version 1, no
    /// inputs, no outputs, lock time 0.
    fn default() -> (r: Self)
        ensures
            r@ == (TransactionModel {
                version: 1,
                inputs: Seq::<TxInputModel>::empty(),
                outputs: Seq::<TxOutputModel>::empty(),
                lock_time: 0,
            }),
    {
        let r = LegacyTransactionBuilder {
            version: 1,
            inputs: Vec::with_capacity(1),
            outputs: Vec::with_capacity(1),
            lock_time: 0,
        };
        proof {
            assert(r.inputs@.map_values(|i: TxInput| i@) =~= Seq::<TxInputModel>::empty());
            assert(r.outputs@.map_values(|o: TxOutput| o@) =~= Seq::<TxOutputModel>::empty());
        }
        r
    }
}

impl LegacyTransactionBuilder {
    /// A builder holding the defaults.
    pub fn new() -> (r: Self)
        ensures
            r@ == (TransactionModel {
                version: 1,
                inputs: Seq::<TxInputModel>::empty(),
                outputs: Seq::<TxOutputModel>::empty(),
                lock_time: 0,
            }),
    {
        LegacyTransactionBuilder::default()
    }

    /// Overwrites the version.
    pub fn version(self, version: i32) -> (r: Self)
        ensures
            r@ == (TransactionModel { version, ..self@ }),
    {
        let mut b = self;
        b.version = version;
        b
    }

    /// Appends one input, preserving insertion order.
    pub fn add_input(self, input: TxInput) -> (r: Self)
        ensures
            r@ == (TransactionModel { inputs: self@.inputs.push(input@), ..self@ }),
    {
        let mut b = self;
        b.inputs.push(input);
        proof {
            assert(b.inputs@.map_values(|i: TxInput| i@)
                =~= self.inputs@.map_values(|i: TxInput| i@).push(input@));
        }
        b
    }

    /// Appends one output, preserving insertion order.
    pub fn add_output(self, output: TxOutput) -> (r: Self)
        ensures
            r@ == (TransactionModel { outputs: self@.outputs.push(output@), ..self@ }),
    {
        let mut b = self;
        b.outputs.push(output);
        proof {
            assert(b.outputs@.map_values(|o: TxOutput| o@)
                =~= self.outputs@.map_values(|o: TxOutput| o@).push(output@));
        }
        b
    }

    /// Overwrites the lock time.
    pub fn lock_time(self, lock_time: u32) -> (r: Self)
        ensures
            r@ == (TransactionModel { lock_time, ..self@ }),
    {
        let mut b = self;
        b.lock_time = lock_time;
        b
    }

    /// Produces the final transaction; all field types are already valid,
    /// so this never fails. The builder is consumed.
    pub fn build(self) -> (r: LegacyTransaction)
        ensures
            r@ == self@,
    {
        LegacyTransaction {
            version: self.version,
            inputs: self.inputs,
            outputs: self.outputs,
            lock_time: self.lock_time,
        }
    }
}

} // verus!
