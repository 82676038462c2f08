use eth_bridge::codec::{encode_ledger, Record};
use eth_bridge::error::{exit_code, Error};
use eth_bridge::model::{CellView, Config, Script, TxView};
use eth_bridge::transition::{
    verify_both, verify_bridge, verify_lock, verify_proof,
};

const TOKEN_CODE: [u8; 32] = [0x07; 32];
const LOCK_CODE: [u8; 32] = [0x08; 32];
const SCRIPT_HASH: [u8; 32] = [0x11; 32];
const BRIDGE_LOCK_HASH: [u8; 32] = [0x22; 32];
const DEST_HASH: [u8; 32] = [0x33; 32];
const OUTPOINT: [u8; 36] = [0x44; 36];

fn config() -> Config {
    Config { token_code_hash: TOKEN_CODE.to_vec(), lock_code_hash: LOCK_CODE.to_vec() }
}

fn record(fill: u8, idx: u8) -> Record {
    Record { block_hash: vec![fill; 32], tx_index: vec![idx; 8] }
}

fn proof_bytes(amount: [u8; 16], dest: [u8; 32], rec: &Record, payload: &[u8]) -> Vec<u8> {
    let mut b = Vec::new();
    b.extend_from_slice(&amount);
    b.extend_from_slice(&dest);
    b.extend_from_slice(&rec.block_hash);
    b.extend_from_slice(&rec.tx_index);
    b.extend_from_slice(&(payload.len() as u32).to_le_bytes());
    b.extend_from_slice(payload);
    b
}

fn bridge_type_script() -> Script {
    Script { code_hash: vec![0x01; 32], hash_type: 0, args: OUTPOINT.to_vec() }
}

fn bridge_lock_script() -> Script {
    Script { code_hash: LOCK_CODE.to_vec(), hash_type: 0, args: SCRIPT_HASH.to_vec() }
}

fn plain_cell() -> CellView {
    CellView {
        lock: Script { code_hash: vec![0x02; 32], hash_type: 0, args: Vec::new() },
        lock_hash: vec![0x05; 32],
        type_script: None,
        type_hash: None,
        capacity: 1000,
        data: Vec::new(),
    }
}

fn bridge_cell(data: Vec<u8>) -> CellView {
    CellView {
        lock: bridge_lock_script(),
        lock_hash: BRIDGE_LOCK_HASH.to_vec(),
        type_script: Some(bridge_type_script()),
        type_hash: Some(SCRIPT_HASH.to_vec()),
        capacity: 1000,
        data,
    }
}

fn mint_cell(amount: [u8; 16], lock_hash: [u8; 32]) -> CellView {
    CellView {
        lock: Script { code_hash: vec![0x03; 32], hash_type: 0, args: Vec::new() },
        lock_hash: lock_hash.to_vec(),
        type_script: Some(Script {
            code_hash: TOKEN_CODE.to_vec(),
            hash_type: 0,
            args: BRIDGE_LOCK_HASH.to_vec(),
        }),
        type_hash: Some(vec![0x06; 32]),
        capacity: 1000,
        data: amount.to_vec(),
    }
}

/// An append transaction: the consumed bridge cell holds `input_ledger`,
/// the witness carries a proof of `rec` for `amount` to `DEST_HASH`,
/// and the produced bridge cell holds `output_ledger`.
fn append_tx(
    input_ledger: Vec<Record>,
    rec: &Record,
    amount: [u8; 16],
    output_ledger: Vec<Record>,
) -> TxView {
    let witness = proof_bytes(amount, DEST_HASH, rec, &[]);
    TxView {
        script: bridge_type_script(),
        script_hash: SCRIPT_HASH.to_vec(),
        inputs: vec![bridge_cell(encode_ledger(&input_ledger)), plain_cell()],
        input_outpoints: vec![OUTPOINT.to_vec(), vec![0x45; 36]],
        input_type_witnesses: vec![Some(witness), None],
        outputs: vec![
            bridge_cell(encode_ledger(&output_ledger)),
            mint_cell(amount, DEST_HASH),
        ],
    }
}

/// A creation transaction: no consumed bridge cell; the produced bridge
/// cell holds the canonical empty ledger.
fn creation_tx() -> TxView {
    TxView {
        script: bridge_type_script(),
        script_hash: SCRIPT_HASH.to_vec(),
        inputs: vec![plain_cell()],
        input_outpoints: vec![OUTPOINT.to_vec()],
        input_type_witnesses: vec![None],
        outputs: vec![bridge_cell(vec![0, 0, 0, 0])],
    }
}

/// The view of the same append transaction from the authorization
/// delegate's standpoint.
fn lock_view() -> TxView {
    let mut tx = append_tx(vec![], &record(0, 0), 1u128.to_le_bytes(), vec![record(0, 0)]);
    tx.script = bridge_lock_script();
    tx.script_hash = BRIDGE_LOCK_HASH.to_vec();
    tx
}

#[test]
fn test_mint_ceth() {
    // an empty-ledger bridge cell absorbs a zero record, minting 1 unit
    let rec = record(0, 0);
    let tx = append_tx(vec![], &rec, 1u128.to_le_bytes(), vec![record(0, 0)]);
    assert_eq!(verify_bridge(&config(), &tx), Ok(()));
    assert_eq!(verify_lock(&lock_view()), Ok(()));
    assert!(verify_both(&config(), &tx, &lock_view()));
}

#[test]
fn creation_accepts_bound_outpoint() {
    let tx = creation_tx();
    assert_eq!(verify_bridge(&config(), &tx), Ok(()));
    assert_eq!(exit_code(&verify_bridge(&config(), &tx)), 0);
}

#[test]
fn creation_rejects_foreign_outpoint() {
    let mut tx = creation_tx();
    tx.input_outpoints[0][0] ^= 1;
    assert_eq!(verify_bridge(&config(), &tx), Err(Error::InvalidID));
}

#[test]
fn creation_rejects_nonempty_initial_ledger() {
    let mut tx = creation_tx();
    tx.outputs[0].data = encode_ledger(&vec![record(1, 1)]);
    assert_eq!(verify_bridge(&config(), &tx), Err(Error::InvalidInitOutputData));
}

#[test]
fn append_accepts_strict_extension() {
    let r1 = record(1, 1);
    let r2 = record(2, 2);
    let tx = append_tx(vec![record(1, 1)], &r2, 9u128.to_le_bytes(), vec![r1, record(2, 2)]);
    assert_eq!(verify_bridge(&config(), &tx), Ok(()));
}

#[test]
fn append_rejects_replayed_record() {
    let r1 = record(1, 1);
    let tx = append_tx(vec![record(1, 1)], &r1, 9u128.to_le_bytes(), vec![record(1, 1), record(1, 1)]);
    assert_eq!(verify_bridge(&config(), &tx), Err(Error::RecordHandled));
}

#[test]
fn append_rejects_tampered_history() {
    let r2 = record(2, 2);
    let mut tx = append_tx(vec![record(1, 1)], &r2, 9u128.to_le_bytes(), vec![record(1, 1), record(2, 2)]);
    // flip one byte of the settled entry in the produced ledger
    tx.outputs[0].data[4] ^= 1;
    assert_eq!(verify_bridge(&config(), &tx), Err(Error::RecordsNotMatch));
}

#[test]
fn append_rejects_dropped_append() {
    let r2 = record(2, 2);
    let tx = append_tx(vec![record(1, 1)], &r2, 9u128.to_le_bytes(), vec![record(1, 1)]);
    assert_eq!(verify_bridge(&config(), &tx), Err(Error::RecordsNotMatch));
}

#[test]
fn append_rejects_trailing_entries() {
    let r2 = record(2, 2);
    let tx = append_tx(
        vec![record(1, 1)],
        &r2,
        9u128.to_le_bytes(),
        vec![record(1, 1), record(2, 2), record(3, 3)],
    );
    assert_eq!(verify_bridge(&config(), &tx), Err(Error::RecordsNotMatch));
}

#[test]
fn append_rejects_wrong_record_appended() {
    let r2 = record(2, 2);
    let tx = append_tx(vec![record(1, 1)], &r2, 9u128.to_le_bytes(), vec![record(1, 1), record(3, 3)]);
    assert_eq!(verify_bridge(&config(), &tx), Err(Error::RecordsNotMatch));
}

#[test]
fn mint_amount_must_match_byte_for_byte() {
    let r2 = record(2, 2);
    let mut tx = append_tx(vec![], &r2, 9u128.to_le_bytes(), vec![record(2, 2)]);
    tx.outputs[1].data[0] ^= 1;
    assert_eq!(verify_bridge(&config(), &tx), Err(Error::InvalidMintAmount));

    let mut tx = append_tx(vec![], &r2, 9u128.to_le_bytes(), vec![record(2, 2)]);
    tx.outputs[1].data.push(0);
    assert_eq!(verify_bridge(&config(), &tx), Err(Error::InvalidMintAmount));
}

#[test]
fn mint_lock_must_be_proof_destination() {
    let r2 = record(2, 2);
    let mut tx = append_tx(vec![], &r2, 9u128.to_le_bytes(), vec![record(2, 2)]);
    tx.outputs[1].lock_hash[7] ^= 1;
    assert_eq!(verify_bridge(&config(), &tx), Err(Error::InvalidToLockHash));
}

#[test]
fn mint_type_must_name_token_and_bridge_lock() {
    let r2 = record(2, 2);
    let mut tx = append_tx(vec![], &r2, 9u128.to_le_bytes(), vec![record(2, 2)]);
    tx.outputs[1].type_script.as_mut().unwrap().args[0] ^= 1;
    assert_eq!(verify_bridge(&config(), &tx), Err(Error::InvalidOutput));

    let mut tx = append_tx(vec![], &r2, 9u128.to_le_bytes(), vec![record(2, 2)]);
    tx.outputs[1].type_script = None;
    assert_eq!(verify_bridge(&config(), &tx), Err(Error::ItemMissing));

    let mut tx = append_tx(vec![], &r2, 9u128.to_le_bytes(), vec![record(2, 2)]);
    tx.outputs.pop();
    assert_eq!(verify_bridge(&config(), &tx), Err(Error::IndexOutOfBound));
}

#[test]
fn two_consumed_bridge_cells_are_invalid() {
    let r2 = record(2, 2);
    let mut tx = append_tx(vec![], &r2, 9u128.to_le_bytes(), vec![record(2, 2)]);
    tx.inputs.push(bridge_cell(vec![0, 0, 0, 0]));
    assert_eq!(verify_bridge(&config(), &tx), Err(Error::InvalidTx));
}

#[test]
fn output_group_cardinality_is_enforced() {
    let r2 = record(2, 2);
    let mut tx = append_tx(vec![], &r2, 9u128.to_le_bytes(), vec![record(2, 2)]);
    tx.outputs.push(bridge_cell(vec![0, 0, 0, 0]));
    assert_eq!(verify_bridge(&config(), &tx), Err(Error::InvalidOutput));

    let mut tx = append_tx(vec![], &r2, 9u128.to_le_bytes(), vec![record(2, 2)]);
    tx.outputs[0].type_hash = None;
    assert_eq!(verify_bridge(&config(), &tx), Err(Error::InvalidOutput));
}

#[test]
fn bridge_output_lock_must_be_canonical() {
    let r2 = record(2, 2);
    let mut tx = append_tx(vec![], &r2, 9u128.to_le_bytes(), vec![record(2, 2)]);
    tx.outputs[0].lock.args[3] ^= 1;
    assert_eq!(verify_bridge(&config(), &tx), Err(Error::InvalidOutput));

    let mut tx = append_tx(vec![], &r2, 9u128.to_le_bytes(), vec![record(2, 2)]);
    tx.outputs[0].lock.hash_type = 1;
    assert_eq!(verify_bridge(&config(), &tx), Err(Error::InvalidOutput));
}

#[test]
fn witness_faults_are_told_apart() {
    let r2 = record(2, 2);
    let mut tx = append_tx(vec![], &r2, 9u128.to_le_bytes(), vec![record(2, 2)]);
    tx.input_type_witnesses[0] = None;
    assert_eq!(verify_bridge(&config(), &tx), Err(Error::WitnessMissInputType));

    let mut tx = append_tx(vec![], &r2, 9u128.to_le_bytes(), vec![record(2, 2)]);
    tx.input_type_witnesses[0] = Some(vec![1, 2, 3]);
    assert_eq!(verify_bridge(&config(), &tx), Err(Error::InvalidWitnessEncoding));

    let mut tx = append_tx(vec![], &r2, 9u128.to_le_bytes(), vec![record(2, 2)]);
    tx.input_type_witnesses.clear();
    assert_eq!(verify_bridge(&config(), &tx), Err(Error::IndexOutOfBound));
}

#[test]
fn ledger_faults_are_told_apart() {
    let r2 = record(2, 2);
    let mut tx = append_tx(vec![], &r2, 9u128.to_le_bytes(), vec![record(2, 2)]);
    tx.inputs[0].data = vec![1, 2];
    assert_eq!(verify_bridge(&config(), &tx), Err(Error::InvalidInputData));

    let mut tx = append_tx(vec![], &r2, 9u128.to_le_bytes(), vec![record(2, 2)]);
    tx.outputs[0].data.push(0);
    assert_eq!(verify_bridge(&config(), &tx), Err(Error::InvalidOutputData));
}

#[test]
fn lock_delegate_binds_to_type_hash() {
    assert_eq!(verify_lock(&lock_view()), Ok(()));

    let mut lv = lock_view();
    lv.script.args = vec![0x12; 32];
    assert_eq!(verify_lock(&lv), Err(Error::UnlockFailed));

    let mut lv = lock_view();
    lv.outputs[0].type_hash = None;
    assert_eq!(verify_lock(&lv), Err(Error::ItemMissing));

    let mut lv = lock_view();
    lv.outputs.clear();
    assert_eq!(verify_lock(&lv), Err(Error::IndexOutOfBound));
}

#[test]
fn composition_requires_both_verdicts() {
    let rec = record(0, 0);
    let tx = append_tx(vec![], &rec, 1u128.to_le_bytes(), vec![record(0, 0)]);
    let mut lv = lock_view();
    lv.script.args = vec![0x12; 32];
    assert!(!verify_both(&config(), &tx, &lv));
}

#[test]
fn proof_hook_accepts_reference_pairs() {
    assert_eq!(verify_proof(&[1, 2, 3], &[4, 5]), Ok(()));
}

#[test]
fn error_codes_are_stable() {
    assert_eq!(exit_code(&Ok(())), 0);
    let all = [
        Error::IndexOutOfBound,
        Error::ItemMissing,
        Error::LengthNotEnough,
        Error::Encoding,
        Error::InvalidTx,
        Error::InvalidID,
        Error::InvalidInitOutputData,
        Error::WitnessMissInputType,
        Error::InvalidWitnessEncoding,
        Error::InvalidOutput,
        Error::InvalidToLockHash,
        Error::InvalidMintAmount,
        Error::InvalidInputData,
        Error::InvalidOutputData,
        Error::RecordHandled,
        Error::RecordsNotMatch,
        Error::UnlockFailed,
    ];
    for (i, e) in all.iter().enumerate() {
        assert_eq!(e.code(), (i + 1) as i8);
        assert_eq!(exit_code(&Err(*e)), (i + 1) as i8);
    }
}
