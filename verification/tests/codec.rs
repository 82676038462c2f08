use eth_bridge::codec::{decode_ledger, decode_proof, encode_ledger, Record};

fn record(fill: u8, idx: u8) -> Record {
    Record { block_hash: vec![fill; 32], tx_index: vec![idx; 8] }
}

fn proof_bytes(amount: [u8; 16], dest: [u8; 32], rec: &Record, payload: &[u8]) -> Vec<u8> {
    let mut b = Vec::new();
    b.extend_from_slice(&amount);
    b.extend_from_slice(&dest);
    b.extend_from_slice(&rec.block_hash);
    b.extend_from_slice(&rec.tx_index);
    b.extend_from_slice(&(payload.len() as u32).to_le_bytes());
    b.extend_from_slice(payload);
    b
}

#[test]
fn empty_ledger_is_four_zero_bytes() {
    let encoded = encode_ledger(&Vec::new());
    assert_eq!(encoded, vec![0u8, 0, 0, 0]);
    let decoded = decode_ledger(&encoded).expect("canonical empty decodes");
    assert_eq!(decoded.len(), 0);
}

#[test]
fn ledger_round_trips() {
    let ledger = vec![record(1, 2), record(3, 4), record(5, 6)];
    let encoded = encode_ledger(&ledger);
    assert_eq!(encoded.len(), 4 + 3 * 40);
    assert_eq!(&encoded[0..4], &[3u8, 0, 0, 0]);
    let decoded = decode_ledger(&encoded).expect("round trip decodes");
    assert_eq!(decoded.len(), 3);
    for (a, b) in ledger.iter().zip(decoded.iter()) {
        assert_eq!(a.block_hash, b.block_hash);
        assert_eq!(a.tx_index, b.tx_index);
    }
}

#[test]
fn ledger_rejects_short_prefix() {
    assert!(decode_ledger(&[]).is_none());
    assert!(decode_ledger(&[1, 0, 0]).is_none());
}

#[test]
fn ledger_rejects_wrong_count() {
    // count says two records but only one is present
    let mut b = vec![2u8, 0, 0, 0];
    b.extend_from_slice(&[0u8; 40]);
    assert!(decode_ledger(&b).is_none());
}

#[test]
fn ledger_rejects_trailing_bytes() {
    let mut b = encode_ledger(&vec![record(9, 9)]);
    b.push(0);
    assert!(decode_ledger(&b).is_none());
}

#[test]
fn proof_round_trips() {
    let amount = 77u128.to_le_bytes();
    let dest = [0x33u8; 32];
    let rec = record(0xaa, 0xbb);
    let b = proof_bytes(amount, dest, &rec, &[1, 2, 3]);
    let p = decode_proof(&b).expect("well-formed proof decodes");
    assert_eq!(p.amount, amount.to_vec());
    assert_eq!(p.dest_lock_hash, dest.to_vec());
    assert_eq!(p.record.block_hash, rec.block_hash);
    assert_eq!(p.record.tx_index, rec.tx_index);
    assert_eq!(p.proof_bytes, vec![1, 2, 3]);
}

#[test]
fn proof_rejects_truncation() {
    let b = proof_bytes(1u128.to_le_bytes(), [0; 32], &record(0, 0), &[]);
    assert!(decode_proof(&b[..b.len() - 1]).is_none());
    assert!(decode_proof(&[0u8; 91]).is_none());
}

#[test]
fn proof_rejects_wrong_length_field() {
    let mut b = proof_bytes(1u128.to_le_bytes(), [0; 32], &record(0, 0), &[5, 6]);
    // length field claims one byte more than is present
    b[88] = 3;
    assert!(decode_proof(&b).is_none());
}
