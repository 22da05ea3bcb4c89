use tx_codec::{
    BitcoinError, BitcoinSerialize, LegacyTransaction, LegacyTransactionBuilder, OutPoint, Point,
    TxInput, TxOutput,
};

fn sample_input() -> TxInput {
    TxInput {
        previous_output: OutPoint { txid: [0u8; 32], vout: 0 },
        script_sig: Vec::new(),
        sequence: 0xFFFF_FFFF,
    }
}

fn sample_output() -> TxOutput {
    TxOutput { value: 5_000_000_000, script_pubkey: vec![0x76, 0xa9, 0x88] }
}

fn sample_transaction() -> LegacyTransaction {
    LegacyTransaction::builder()
        .version(1)
        .add_input(sample_input())
        .add_output(sample_output())
        .lock_time(0)
        .build()
}

#[test]
fn empty_transaction_round_trip() {
    let t = LegacyTransaction::builder().version(7).lock_time(99).build();
    let bytes = t.serialize();
    // version 4 + input count 8 + output count 8 + lock time 4
    assert_eq!(bytes.len(), 24);
    let back = LegacyTransaction::deserialize(&bytes).unwrap();
    assert_eq!(back.version, 7);
    assert_eq!(back.lock_time, 99);
    assert!(back.inputs.is_empty());
    assert!(back.outputs.is_empty());
}

#[test]
fn empty_transaction_exact_bytes() {
    let t = LegacyTransaction::builder().version(1).lock_time(0).build();
    let bytes = t.serialize();
    let mut expected = vec![1u8, 0, 0, 0];
    expected.extend_from_slice(&[0u8; 8]);
    expected.extend_from_slice(&[0u8; 8]);
    expected.extend_from_slice(&[0u8; 4]);
    assert_eq!(bytes, expected);
}

#[test]
fn single_input_output_scenario() {
    let t = sample_transaction();
    let bytes = t.serialize();
    let back = LegacyTransaction::deserialize(&bytes).unwrap();
    assert_eq!(back.version, 1);
    assert_eq!(back.lock_time, 0);
    assert_eq!(back.inputs.len(), 1);
    assert_eq!(back.outputs.len(), 1);
    assert_eq!(back.inputs[0].previous_output.txid, [0u8; 32]);
    assert_eq!(back.inputs[0].previous_output.vout, 0);
    assert!(back.inputs[0].script_sig.is_empty());
    assert_eq!(back.inputs[0].sequence, 0xFFFF_FFFF);
    assert_eq!(back.outputs[0].value, 5_000_000_000);
    assert_eq!(back.outputs[0].script_pubkey, vec![0x76, 0xa9, 0x88]);
}

#[test]
fn single_input_output_exact_layout() {
    let bytes = sample_transaction().serialize();
    // version | input count | txid | vout | script len | sequence |
    // output count | value | script len | script | lock time
    assert_eq!(bytes.len(), 4 + 8 + (32 + 4 + 8 + 0 + 4) + 8 + (8 + 8 + 3) + 4);
    assert_eq!(&bytes[0..4], &[1, 0, 0, 0]);
    assert_eq!(&bytes[4..12], &[1, 0, 0, 0, 0, 0, 0, 0]);
    assert_eq!(&bytes[12..44], &[0u8; 32]);
    assert_eq!(&bytes[44..48], &[0, 0, 0, 0]);
    assert_eq!(&bytes[48..56], &[0, 0, 0, 0, 0, 0, 0, 0]);
    assert_eq!(&bytes[56..60], &[0xFF, 0xFF, 0xFF, 0xFF]);
    assert_eq!(&bytes[60..68], &[1, 0, 0, 0, 0, 0, 0, 0]);
    // 5_000_000_000 = 0x1_2A05_F200, little-endian
    assert_eq!(&bytes[68..76], &[0x00, 0xF2, 0x05, 0x2A, 0x01, 0, 0, 0]);
    assert_eq!(&bytes[76..84], &[3, 0, 0, 0, 0, 0, 0, 0]);
    assert_eq!(&bytes[84..87], &[0x76, 0xa9, 0x88]);
    assert_eq!(&bytes[87..91], &[0, 0, 0, 0]);
}

#[test]
fn multi_field_round_trip() {
    let mut txid_a = [0u8; 32];
    let mut txid_b = [0u8; 32];
    for j in 0..32 {
        txid_a[j] = j as u8;
        txid_b[j] = 255 - j as u8;
    }
    let t = LegacyTransaction::builder()
        .version(-2)
        .add_input(TxInput {
            previous_output: OutPoint { txid: txid_a, vout: 7 },
            script_sig: vec![1, 2, 3, 4, 5],
            sequence: 11,
        })
        .add_input(TxInput {
            previous_output: OutPoint { txid: txid_b, vout: u32::MAX },
            script_sig: Vec::new(),
            sequence: 22,
        })
        .add_output(TxOutput { value: u64::MAX, script_pubkey: vec![0xAA] })
        .add_output(TxOutput { value: 0, script_pubkey: Vec::new() })
        .lock_time(u32::MAX)
        .build();
    let bytes = t.serialize();
    let back = LegacyTransaction::deserialize(&bytes).unwrap();
    assert_eq!(back.version, -2);
    assert_eq!(back.lock_time, u32::MAX);
    assert_eq!(back.inputs.len(), 2);
    assert_eq!(back.inputs[0].previous_output.txid, txid_a);
    assert_eq!(back.inputs[0].previous_output.vout, 7);
    assert_eq!(back.inputs[0].script_sig, vec![1, 2, 3, 4, 5]);
    assert_eq!(back.inputs[0].sequence, 11);
    assert_eq!(back.inputs[1].previous_output.txid, txid_b);
    assert_eq!(back.inputs[1].previous_output.vout, u32::MAX);
    assert!(back.inputs[1].script_sig.is_empty());
    assert_eq!(back.inputs[1].sequence, 22);
    assert_eq!(back.outputs.len(), 2);
    assert_eq!(back.outputs[0].value, u64::MAX);
    assert_eq!(back.outputs[0].script_pubkey, vec![0xAA]);
    assert_eq!(back.outputs[1].value, 0);
    assert!(back.outputs[1].script_pubkey.is_empty());
}

#[test]
fn negative_version_wire_form() {
    let t = LegacyTransaction::builder().version(-2).build();
    let bytes = t.serialize();
    assert_eq!(&bytes[0..4], &[0xFE, 0xFF, 0xFF, 0xFF]);
    let back = LegacyTransaction::deserialize(&bytes).unwrap();
    assert_eq!(back.version, -2);
}

#[test]
fn every_truncation_fails() {
    let bytes = sample_transaction().serialize();
    for k in 0..bytes.len() {
        let r = LegacyTransaction::deserialize(&bytes[..k]);
        assert!(matches!(r, Err(BitcoinError::InvalidTransaction)), "prefix of {} bytes", k);
    }
}

#[test]
fn trailing_bytes_rejected() {
    let mut bytes = sample_transaction().serialize();
    bytes.push(0);
    assert!(matches!(
        LegacyTransaction::deserialize(&bytes),
        Err(BitcoinError::InvalidTransaction)
    ));
    let mut bytes2 = sample_transaction().serialize();
    bytes2.push(0x5A);
    assert!(matches!(
        LegacyTransaction::deserialize(&bytes2),
        Err(BitcoinError::InvalidTransaction)
    ));
}

#[test]
fn short_inputs_rejected() {
    assert!(matches!(
        LegacyTransaction::deserialize(&[]),
        Err(BitcoinError::InvalidTransaction)
    ));
    assert!(matches!(
        LegacyTransaction::deserialize(&[0x01, 0x00, 0x00]),
        Err(BitcoinError::InvalidTransaction)
    ));
}

#[test]
fn hostile_length_prefixes_rejected() {
    // An input count far beyond the buffer.
    let mut bytes = vec![1u8, 0, 0, 0];
    bytes.extend_from_slice(&u64::MAX.to_le_bytes());
    assert!(matches!(
        LegacyTransaction::deserialize(&bytes),
        Err(BitcoinError::InvalidTransaction)
    ));
    // A script length reaching past the end of the buffer.
    let mut bytes = vec![1u8, 0, 0, 0];
    bytes.extend_from_slice(&1u64.to_le_bytes());
    bytes.extend_from_slice(&[0u8; 32]);
    bytes.extend_from_slice(&[0u8; 4]);
    bytes.extend_from_slice(&1_000_000u64.to_le_bytes());
    bytes.extend_from_slice(&[0u8; 16]);
    assert!(matches!(
        LegacyTransaction::deserialize(&bytes),
        Err(BitcoinError::InvalidTransaction)
    ));
}

#[test]
fn builder_defaults() {
    let t = LegacyTransactionBuilder::new().build();
    assert_eq!(t.version, 1);
    assert_eq!(t.lock_time, 0);
    assert!(t.inputs.is_empty());
    assert!(t.outputs.is_empty());
    let u = LegacyTransactionBuilder::default().build();
    assert_eq!(u.version, 1);
    assert_eq!(u.lock_time, 0);
}

#[test]
fn builder_order_independent() {
    let a = LegacyTransaction::builder()
        .version(3)
        .lock_time(17)
        .add_output(sample_output())
        .build();
    let b = LegacyTransaction::builder()
        .add_output(sample_output())
        .lock_time(17)
        .version(3)
        .build();
    assert_eq!(a.serialize(), b.serialize());
}

#[test]
fn builder_preserves_insertion_order() {
    let t = LegacyTransaction::builder()
        .add_input(TxInput {
            previous_output: OutPoint { txid: [1u8; 32], vout: 1 },
            script_sig: Vec::new(),
            sequence: 100,
        })
        .add_input(TxInput {
            previous_output: OutPoint { txid: [2u8; 32], vout: 2 },
            script_sig: Vec::new(),
            sequence: 200,
        })
        .build();
    assert_eq!(t.inputs[0].sequence, 100);
    assert_eq!(t.inputs[1].sequence, 200);
}

#[test]
fn reserved_error_variants_exist() {
    let s = BitcoinError::InvalidScript;
    let a = BitcoinError::InvalidAmount;
    assert!(matches!(s, BitcoinError::InvalidScript));
    assert!(matches!(a, BitcoinError::InvalidAmount));
}

#[test]
fn point_pairs_values() {
    let p = Point::new(3u32, 9u32);
    assert_eq!(p.x, 3);
    assert_eq!(p.y, 9);
    let q = Point::new("a", "b");
    assert_eq!(q, q.clone());
}
