//! The state-transition verifier of the bridge cell, and the companion
//! authorization delegate.
//!
//! Every transaction that touches the bridge cell is judged by pure
//! inspection of its view: entry checks pin the produced bridge cell
//! down, then the transaction is dispatched as a creation (no consumed
//! bridge cell) or an append (exactly one). An append must extend the
//! ledger by exactly the proof's record, never replay a settled record,
//! and mint exactly the proof's amount to the proof's destination.

use crate::codec::{
    decode_ledger, decode_proof, empty_ledger_bytes, ledger_view, ledger_wf, parse_ledger,
    proof_amount, proof_dest, proof_record, proof_well_formed, Record,
};
use crate::error::Error;
use crate::model::{
    count_group, eq_bytes, group_count, lemma_group_count_bounds, Config, Script, TxView,
};
use vstd::prelude::*;

verus! {

/// The canonical lock of a bridge cell: the configured lock code
/// identifier, hash mode zero, and the verifier's own identity hash as
/// argument.
pub open spec fn lock_ok(cfg: Config, lock: Script, script_hash: Seq<u8>) -> bool {
    lock.code_hash@ == cfg.lock_code_hash@ && lock.args@ == script_hash && lock.hash_type == 0
}

/// The type of a mint cell: the configured token code identifier, hash
/// mode zero, and the bridge output's lock hash as argument.
pub open spec fn mint_type_ok(cfg: Config, ts: Script, bridge_lock_hash: Seq<u8>) -> bool {
    ts.code_hash@ == cfg.token_code_hash@ && ts.args@ == bridge_lock_hash && ts.hash_type == 0
}

/// The entry checks made for every transaction: exactly one produced
/// bridge cell, standing at output index zero with the verifier's own
/// type identity, under the canonical lock.
pub open spec fn spec_entry(cfg: Config, tx: TxView) -> Result<(), Error> {
    if group_count(tx.outputs@, tx.script_hash@) != 1 {
        Err(Error::InvalidOutput)
    } else {
        match tx.outputs@[0].type_hash {
            None => Err(Error::ItemMissing),
            Some(h) => if h@ != tx.script_hash@ {
                Err(Error::InvalidOutput)
            } else if !lock_ok(cfg, tx.outputs@[0].lock, tx.script_hash@) {
                Err(Error::InvalidOutput)
            } else {
                Ok(())
            },
        }
    }
}

/// The verdict of a creation transition: the verifier's argument bytes
/// must equal the first consumed outpoint, and the produced data must
/// be the canonical empty ledger encoding.
pub open spec fn spec_verify_init(tx: TxView) -> Result<(), Error> {
    if tx.input_outpoints@.len() == 0 {
        Err(Error::IndexOutOfBound)
    } else if tx.script.args@ != tx.input_outpoints@[0]@ {
        Err(Error::InvalidID)
    } else if tx.outputs@.len() == 0 {
        Err(Error::IndexOutOfBound)
    } else if tx.outputs@[0].data@ != empty_ledger_bytes() {
        Err(Error::InvalidInitOutputData)
    } else {
        Ok(())
    }
}

/// The walk over the settled ledger from position `i`: a settled entry
/// equal to the record is a replay; a settled entry not carried over
/// unchanged is tampered history; past the settled entries, the output
/// ledger must hold exactly one more entry, the record itself.
pub open spec fn scan_records(
    inl: Seq<Seq<u8>>,
    outl: Seq<Seq<u8>>,
    rec: Seq<u8>,
    i: int,
) -> Result<(), Error>
    decreases inl.len() - i,
{
    if i < 0 || i >= inl.len() {
        if outl.len() == inl.len() + 1 && outl[inl.len() as int] == rec {
            Ok(())
        } else {
            Err(Error::RecordsNotMatch)
        }
    } else if inl[i] == rec {
        Err(Error::RecordHandled)
    } else if outl.len() <= i || outl[i] != inl[i] {
        Err(Error::RecordsNotMatch)
    } else {
        scan_records(inl, outl, rec, i + 1)
    }
}

/// The verdict on the mint cell at output index one: its type must
/// name the configured token code bound to the bridge output's lock,
/// its lock hash must be the proof's destination, and its data must be
/// the proof's amount bytes.
pub open spec fn spec_mint_checks(cfg: Config, tx: TxView, w: Seq<u8>) -> Result<(), Error> {
    if tx.outputs@.len() < 2 {
        Err(Error::IndexOutOfBound)
    } else {
        match tx.outputs@[1].type_script {
            None => Err(Error::ItemMissing),
            Some(ts) => if !mint_type_ok(cfg, ts, tx.outputs@[0].lock_hash@) {
                Err(Error::InvalidOutput)
            } else if tx.outputs@[1].lock_hash@ != proof_dest(w) {
                Err(Error::InvalidToLockHash)
            } else if tx.outputs@[1].data@ != proof_amount(w) {
                Err(Error::InvalidMintAmount)
            } else {
                Ok(())
            },
        }
    }
}

/// The verdict of an append transition: decode the witness proof and
/// the two ledgers, walk the settled entries, then judge the mint cell.
pub open spec fn spec_verify_transfer(cfg: Config, tx: TxView) -> Result<(), Error> {
    if tx.input_type_witnesses@.len() == 0 {
        Err(Error::IndexOutOfBound)
    } else {
        match tx.input_type_witnesses@[0] {
            None => Err(Error::WitnessMissInputType),
            Some(w) => if !proof_well_formed(w@) {
                Err(Error::InvalidWitnessEncoding)
            } else if tx.inputs@.len() == 0 {
                Err(Error::IndexOutOfBound)
            } else {
                match parse_ledger(tx.inputs@[0].data@) {
                    None => Err(Error::InvalidInputData),
                    Some(inl) => if tx.outputs@.len() == 0 {
                        Err(Error::IndexOutOfBound)
                    } else {
                        match parse_ledger(tx.outputs@[0].data@) {
                            None => Err(Error::InvalidOutputData),
                            Some(outl) => if scan_records(
                                inl,
                                outl,
                                proof_record(w@),
                                0,
                            ) is Err {
                                scan_records(inl, outl, proof_record(w@), 0)
                            } else {
                                spec_mint_checks(cfg, tx, w@)
                            },
                        }
                    },
                }
            },
        }
    }
}

/// The verdict of the state-transition verifier on a transaction.
pub open spec fn spec_verify(cfg: Config, tx: TxView) -> Result<(), Error> {
    if spec_entry(cfg, tx) is Err {
        spec_entry(cfg, tx)
    } else {
        let n_in = group_count(tx.inputs@, tx.script_hash@);
        if n_in == 0 {
            spec_verify_init(tx)
        } else if n_in == 1 {
            spec_verify_transfer(cfg, tx)
        } else {
            Err(Error::InvalidTx)
        }
    }
}

/// The verdict of the authorization delegate: its own argument bytes
/// must equal the type identity hash of output index zero.
pub open spec fn spec_verify_lock(tx: TxView) -> Result<(), Error> {
    if tx.outputs@.len() == 0 {
        Err(Error::IndexOutOfBound)
    } else {
        match tx.outputs@[0].type_hash {
            None => Err(Error::ItemMissing),
            Some(h) => if tx.script.args@ == h@ {
                Ok(())
            } else {
                Err(Error::UnlockFailed)
            },
        }
    }
}

/// The input-side witness bytes of input slot zero.
pub open spec fn witness0(tx: TxView) -> Seq<u8> {
    tx.input_type_witnesses@[0]->0@
}

/// The decoded ledger of the consumed bridge cell.
pub open spec fn input_ledger(tx: TxView) -> Seq<Seq<u8>> {
    parse_ledger(tx.inputs@[0].data@)->0
}

/// The decoded ledger of the produced bridge cell.
pub open spec fn output_ledger(tx: TxView) -> Seq<Seq<u8>> {
    parse_ledger(tx.outputs@[0].data@)->0
}

/// The record claimed by the witness proof.
pub open spec fn claimed_record(tx: TxView) -> Seq<u8> {
    proof_record(witness0(tx))
}

/// Strict append: the record is not yet settled and the output ledger
/// is the input ledger with exactly that record pushed.
pub open spec fn ledger_extended(inl: Seq<Seq<u8>>, outl: Seq<Seq<u8>>, rec: Seq<u8>) -> bool {
    !inl.contains(rec) && outl == inl.push(rec)
}

/// The mint cell agrees with the proof and with the configuration.
pub open spec fn mint_ok(cfg: Config, tx: TxView, w: Seq<u8>) -> bool {
    &&& tx.outputs@.len() >= 2
    &&& tx.outputs@[1].type_script is Some
    &&& mint_type_ok(cfg, tx.outputs@[1].type_script->0, tx.outputs@[0].lock_hash@)
    &&& tx.outputs@[1].lock_hash@ == proof_dest(w)
    &&& tx.outputs@[1].data@ == proof_amount(w)
}

/// A creation transition is acceptable: bound to the first consumed
/// outpoint, producing the canonical empty ledger.
pub open spec fn creation_ok(tx: TxView) -> bool {
    &&& tx.input_outpoints@.len() > 0
    &&& tx.script.args@ == tx.input_outpoints@[0]@
    &&& tx.outputs@.len() > 0
    &&& tx.outputs@[0].data@ == empty_ledger_bytes()
}

/// An append transition is acceptable: a well-formed witness proof,
/// both ledgers decodable, the ledger strictly extended by the proof's
/// record, and a matching mint cell.
pub open spec fn append_ok(cfg: Config, tx: TxView) -> bool {
    &&& tx.input_type_witnesses@.len() > 0
    &&& tx.input_type_witnesses@[0] is Some
    &&& proof_well_formed(witness0(tx))
    &&& tx.inputs@.len() > 0
    &&& parse_ledger(tx.inputs@[0].data@) is Some
    &&& tx.outputs@.len() > 0
    &&& parse_ledger(tx.outputs@[0].data@) is Some
    &&& ledger_extended(input_ledger(tx), output_ledger(tx), claimed_record(tx))
    &&& mint_ok(cfg, tx, witness0(tx))
}

/// What the state-transition verifier accepts, stated declaratively.
pub open spec fn spec_accepts(cfg: Config, tx: TxView) -> bool {
    &&& spec_entry(cfg, tx) is Ok
    &&& {
        let n_in = group_count(tx.inputs@, tx.script_hash@);
        ||| (n_in == 0 && creation_ok(tx))
        ||| (n_in == 1 && append_ok(cfg, tx))
    }
}

/// The walk accepts from position `i` exactly when the output ledger
/// holds one entry more than the input ledger, carries every remaining
/// settled entry over unchanged, none of them equal to the record, and
/// ends with the record itself.
pub proof fn lemma_scan_ok(inl: Seq<Seq<u8>>, outl: Seq<Seq<u8>>, rec: Seq<u8>, i: int)
    requires
        0 <= i <= inl.len(),
    ensures
        scan_records(inl, outl, rec, i) == Ok::<(), Error>(()) <==> {
            &&& outl.len() == inl.len() + 1
            &&& forall|j: int| i <= j < inl.len() ==> inl[j] != rec
            &&& forall|j: int| i <= j < inl.len() ==> outl[j] == inl[j]
            &&& outl[inl.len() as int] == rec
        },
    decreases inl.len() - i,
{
    if i < inl.len() {
        lemma_scan_ok(inl, outl, rec, i + 1);
    }
}

/// The walk never reports a replay when no remaining settled entry
/// equals the record.
pub proof fn lemma_scan_no_replay(inl: Seq<Seq<u8>>, outl: Seq<Seq<u8>>, rec: Seq<u8>, i: int)
    requires
        0 <= i <= inl.len(),
        forall|j: int| i <= j < inl.len() ==> inl[j] != rec,
    ensures
        scan_records(inl, outl, rec, i) != Err::<(), Error>(Error::RecordHandled),
    decreases inl.len() - i,
{
    if i < inl.len() {
        assert(inl[i] != rec);
        if !(outl.len() <= i || outl[i] != inl[i]) {
            lemma_scan_no_replay(inl, outl, rec, i + 1);
        }
    }
}

/// The walk reports a replay whenever some remaining settled entry
/// equals the record and the settled entries are carried over
/// unchanged.
pub proof fn lemma_scan_replay(inl: Seq<Seq<u8>>, outl: Seq<Seq<u8>>, rec: Seq<u8>, i: int)
    requires
        0 <= i <= inl.len(),
        exists|j: int| i <= j < inl.len() && inl[j] == rec,
        inl.len() <= outl.len(),
        outl.take(inl.len() as int) == inl,
    ensures
        scan_records(inl, outl, rec, i) == Err::<(), Error>(Error::RecordHandled),
    decreases inl.len() - i,
{
    let j0 = choose|j: int| i <= j < inl.len() && inl[j] == rec;
    assert(outl.take(inl.len() as int)[i] == outl[i]);
    if inl[i] != rec {
        assert(i + 1 <= j0 < inl.len() && inl[j0] == rec);
        lemma_scan_replay(inl, outl, rec, i + 1);
    }
}

/// The walk's verdict is acceptance, a replay, or a history mismatch;
/// nothing else.
pub proof fn lemma_scan_range(inl: Seq<Seq<u8>>, outl: Seq<Seq<u8>>, rec: Seq<u8>, i: int)
    requires
        0 <= i <= inl.len(),
    ensures
        scan_records(inl, outl, rec, i) == Ok::<(), Error>(()) || scan_records(inl, outl, rec, i)
            == Err::<(), Error>(Error::RecordHandled) || scan_records(inl, outl, rec, i)
            == Err::<(), Error>(Error::RecordsNotMatch),
    decreases inl.len() - i,
{
    if i < inl.len() {
        lemma_scan_range(inl, outl, rec, i + 1);
    }
}

/// A strict append satisfies the walk.
pub proof fn lemma_scan_of_push(inl: Seq<Seq<u8>>, outl: Seq<Seq<u8>>, rec: Seq<u8>)
    requires
        ledger_extended(inl, outl, rec),
    ensures
        scan_records(inl, outl, rec, 0) == Ok::<(), Error>(()),
{
    lemma_scan_ok(inl, outl, rec, 0);
    assert forall|j: int| 0 <= j < inl.len() implies inl[j] != rec by {
        if inl[j] == rec {
            assert(inl.contains(rec));
        }
    }
    assert forall|j: int| 0 <= j < inl.len() implies outl[j] == inl[j] by {
        assert(outl[j] == inl.push(rec)[j]);
    }
    assert(outl[inl.len() as int] == inl.push(rec)[inl.len() as int]);
}

/// An append transition is accepted exactly when the declarative
/// append conditions hold: decodable witness and ledgers, the ledger
/// strictly extended by the proof's record, and a matching mint cell.
pub proof fn lemma_transfer_ok_iff(cfg: Config, tx: TxView)
    requires
        tx.outputs@.len() > 0,
    ensures
        spec_verify_transfer(cfg, tx) == Ok::<(), Error>(()) <==> append_ok(cfg, tx),
{
    if tx.input_type_witnesses@.len() > 0 && tx.input_type_witnesses@[0] is Some
        && proof_well_formed(witness0(tx)) && tx.inputs@.len() > 0 && parse_ledger(
        tx.inputs@[0].data@,
    ) is Some && parse_ledger(tx.outputs@[0].data@) is Some {
        let inl = input_ledger(tx);
        let outl = output_ledger(tx);
        let rec = claimed_record(tx);
        lemma_scan_ok(inl, outl, rec, 0);
        lemma_scan_range(inl, outl, rec, 0);
        if scan_records(inl, outl, rec, 0) == Ok::<(), Error>(()) {
            assert(outl =~= inl.push(rec));
            if inl.contains(rec) {
                let j0 = choose|j: int| 0 <= j < inl.len() && inl[j] == rec;
                assert(inl[j0] != rec);
            }
        } else {
            if ledger_extended(inl, outl, rec) {
                lemma_scan_of_push(inl, outl, rec);
            }
        }
    } else {
        if tx.input_type_witnesses@.len() == 0 {
            assert(spec_verify_transfer(cfg, tx) == Err::<(), Error>(Error::IndexOutOfBound));
        } else if tx.input_type_witnesses@[0] is None {
            assert(spec_verify_transfer(cfg, tx) == Err::<(), Error>(Error::WitnessMissInputType));
        } else if !proof_well_formed(witness0(tx)) {
            assert(spec_verify_transfer(cfg, tx) == Err::<(), Error>(Error::InvalidWitnessEncoding));
        } else if tx.inputs@.len() == 0 {
            assert(spec_verify_transfer(cfg, tx) == Err::<(), Error>(Error::IndexOutOfBound));
        } else if parse_ledger(tx.inputs@[0].data@) is None {
            assert(spec_verify_transfer(cfg, tx) == Err::<(), Error>(Error::InvalidInputData));
        } else {
            assert(spec_verify_transfer(cfg, tx) == Err::<(), Error>(Error::InvalidOutputData));
        }
    }
}

/// The state-transition verifier accepts exactly the transactions that
/// the declarative acceptance predicate admits.
pub proof fn lemma_verify_accepts_iff(cfg: Config, tx: TxView)
    ensures
        spec_verify(cfg, tx) == Ok::<(), Error>(()) <==> spec_accepts(cfg, tx),
{
    if spec_entry(cfg, tx) is Ok {
        lemma_group_count_bounds(tx.outputs@, tx.script_hash@);
        assert(tx.outputs@.len() > 0);
        let n_in = group_count(tx.inputs@, tx.script_hash@);
        if n_in == 1 {
            lemma_transfer_ok_iff(cfg, tx);
        }
    }
}

/// A creation transition is accepted exactly when the verifier's
/// argument bytes equal the first consumed outpoint and the produced
/// bridge cell's data is the canonical empty ledger encoding; a wrong
/// binding is rejected for its identity, a wrong payload for its
/// initial data.
pub proof fn lemma_creation_verdict(cfg: Config, tx: TxView)
    requires
        spec_entry(cfg, tx) is Ok,
        group_count(tx.inputs@, tx.script_hash@) == 0,
        tx.input_outpoints@.len() > 0,
    ensures
        spec_verify(cfg, tx) == Ok::<(), Error>(()) <==> creation_ok(tx),
        tx.script.args@ != tx.input_outpoints@[0]@ ==> spec_verify(cfg, tx) == Err::<(), Error>(
            Error::InvalidID,
        ),
        tx.script.args@ == tx.input_outpoints@[0]@ && tx.outputs@[0].data@ != empty_ledger_bytes()
            ==> spec_verify(cfg, tx) == Err::<(), Error>(Error::InvalidInitOutputData),
{
    lemma_group_count_bounds(tx.outputs@, tx.script_hash@);
    assert(tx.outputs@.len() > 0);
}

/// A transaction that consumes two or more bridge cells is rejected as
/// an invalid transaction, whatever else it carries, once the entry
/// checks on its outputs have passed.
pub proof fn lemma_group_cardinality(cfg: Config, tx: TxView)
    requires
        spec_entry(cfg, tx) is Ok,
        group_count(tx.inputs@, tx.script_hash@) >= 2,
    ensures
        spec_verify(cfg, tx) == Err::<(), Error>(Error::InvalidTx),
{
}

/// A proof whose record is already settled anywhere in the consumed
/// ledger is never accepted, whatever the produced cells hold.
pub proof fn lemma_replay_never_accepted(cfg: Config, tx: TxView)
    requires
        group_count(tx.inputs@, tx.script_hash@) == 1,
        tx.inputs@.len() > 0,
        parse_ledger(tx.inputs@[0].data@) is Some,
        input_ledger(tx).contains(claimed_record(tx)),
    ensures
        spec_verify(cfg, tx) != Ok::<(), Error>(()),
{
    lemma_verify_accepts_iff(cfg, tx);
    if spec_verify(cfg, tx) == Ok::<(), Error>(()) {
        assert(append_ok(cfg, tx));
        assert(!input_ledger(tx).contains(claimed_record(tx)));
    }
}

/// The verdicts of an append transition, one by one: acceptance exactly
/// for a strict append with a matching mint cell; rejection of a replay
/// as such whenever the settled history is carried over unchanged, and
/// never acceptance of a replay under any proposed output; rejection of
/// tampered or trailing history; rejection of a mint cell that is not
/// locked to the proof's destination, or whose data is not the proof's
/// amount bytes.
pub proof fn lemma_append_verdict(cfg: Config, tx: TxView)
    requires
        spec_entry(cfg, tx) is Ok,
        group_count(tx.inputs@, tx.script_hash@) == 1,
        tx.input_type_witnesses@.len() > 0,
        tx.input_type_witnesses@[0] is Some,
        proof_well_formed(witness0(tx)),
        tx.inputs@.len() > 0,
        parse_ledger(tx.inputs@[0].data@) is Some,
        parse_ledger(tx.outputs@[0].data@) is Some,
    ensures
        spec_verify(cfg, tx) == Ok::<(), Error>(()) <==> append_ok(cfg, tx),
        input_ledger(tx).contains(claimed_record(tx)) ==> spec_verify(cfg, tx) != Ok::<(), Error>(
            (),
        ),
        input_ledger(tx).contains(claimed_record(tx)) && input_ledger(tx).len()
            <= output_ledger(tx).len() && output_ledger(tx).take(input_ledger(tx).len() as int)
            == input_ledger(tx) ==> spec_verify(cfg, tx) == Err::<(), Error>(Error::RecordHandled),
        !input_ledger(tx).contains(claimed_record(tx)) && output_ledger(tx) != input_ledger(
            tx,
        ).push(claimed_record(tx)) ==> spec_verify(cfg, tx) == Err::<(), Error>(
            Error::RecordsNotMatch,
        ),
        ledger_extended(input_ledger(tx), output_ledger(tx), claimed_record(tx))
            && tx.outputs@.len() >= 2 && tx.outputs@[1].type_script is Some && mint_type_ok(
            cfg,
            tx.outputs@[1].type_script->0,
            tx.outputs@[0].lock_hash@,
        ) && tx.outputs@[1].lock_hash@ != proof_dest(witness0(tx)) ==> spec_verify(cfg, tx)
            == Err::<(), Error>(Error::InvalidToLockHash),
        ledger_extended(input_ledger(tx), output_ledger(tx), claimed_record(tx))
            && tx.outputs@.len() >= 2 && tx.outputs@[1].type_script is Some && mint_type_ok(
            cfg,
            tx.outputs@[1].type_script->0,
            tx.outputs@[0].lock_hash@,
        ) && tx.outputs@[1].lock_hash@ == proof_dest(witness0(tx)) && tx.outputs@[1].data@
            != proof_amount(witness0(tx)) ==> spec_verify(cfg, tx) == Err::<(), Error>(
            Error::InvalidMintAmount,
        ),
{
    let inl = input_ledger(tx);
    let outl = output_ledger(tx);
    let rec = claimed_record(tx);
    lemma_group_count_bounds(tx.outputs@, tx.script_hash@);
    assert(tx.outputs@.len() > 0);
    lemma_transfer_ok_iff(cfg, tx);
    lemma_scan_ok(inl, outl, rec, 0);
    lemma_scan_range(inl, outl, rec, 0);
    if inl.contains(rec) {
        let j0 = choose|j: int| 0 <= j < inl.len() && inl[j] == rec;
        if scan_records(inl, outl, rec, 0) == Ok::<(), Error>(()) {
            assert(inl[j0] != rec);
        }
        if inl.len() <= outl.len() && outl.take(inl.len() as int) == inl {
            lemma_scan_replay(inl, outl, rec, 0);
        }
    } else {
        assert forall|j: int| 0 <= j < inl.len() implies inl[j] != rec by {
            if inl[j] == rec {
                assert(inl.contains(rec));
            }
        }
        lemma_scan_no_replay(inl, outl, rec, 0);
        if outl != inl.push(rec) {
            if scan_records(inl, outl, rec, 0) == Ok::<(), Error>(()) {
                assert(outl =~= inl.push(rec));
            }
        }
    }
    if ledger_extended(inl, outl, rec) {
        lemma_scan_of_push(inl, outl, rec);
    }
}

/// The pluggable judgement of a claimed foreign-chain event against the
/// consumed cell's data. The reference behaviour accepts every pair; a
/// real deployment must replace it, and the verifier propagates any
/// rejection unchanged.
pub fn verify_proof(_cell_data: &[u8], _witness: &[u8]) -> (r: Result<(), Error>)
    ensures
        r is Ok,
{
    Ok(())
}

/// Judges a creation transition.
pub fn verify_init(tx: &TxView) -> (r: Result<(), Error>)
    ensures
        r == spec_verify_init(*tx),
{
    if tx.input_outpoints.len() == 0 {
        return Err(Error::IndexOutOfBound);
    }
    if !eq_bytes(tx.script.args.as_slice(), tx.input_outpoints[0].as_slice()) {
        return Err(Error::InvalidID);
    }
    if tx.outputs.len() == 0 {
        return Err(Error::IndexOutOfBound);
    }
    let d = &tx.outputs[0].data;
    if d.len() == 4 && d[0] == 0 && d[1] == 0 && d[2] == 0 && d[3] == 0 {
        proof {
            assert(tx.outputs@[0].data@ =~= empty_ledger_bytes());
        }
        Ok(())
    } else {
        proof {
            assert(tx.outputs@[0].data@ != empty_ledger_bytes());
        }
        Err(Error::InvalidInitOutputData)
    }
}

/// Compares two records byte for byte.
fn record_eq(a: &Record, b: &Record) -> (r: bool)
    requires
        a.wf(),
        b.wf(),
    ensures
        r == (a.bytes() == b.bytes()),
{
    let be = eq_bytes(a.block_hash.as_slice(), b.block_hash.as_slice());
    let te = eq_bytes(a.tx_index.as_slice(), b.tx_index.as_slice());
    if be && te {
        proof {
            assert(a.bytes() =~= b.bytes());
        }
        true
    } else {
        proof {
            if a.bytes() == b.bytes() {
                assert(a.block_hash@ =~= a.bytes().subrange(0, 32));
                assert(b.block_hash@ =~= b.bytes().subrange(0, 32));
                assert(a.tx_index@ =~= a.bytes().subrange(32, 40));
                assert(b.tx_index@ =~= b.bytes().subrange(32, 40));
            }
        }
        false
    }
}

/// Judges an append transition.
#[verifier::loop_isolation(false)]
pub fn verify_transfer(cfg: &Config, tx: &TxView) -> (r: Result<(), Error>)
    ensures
        r == spec_verify_transfer(*cfg, *tx),
{
    if tx.input_type_witnesses.len() == 0 {
        return Err(Error::IndexOutOfBound);
    }
    let w = match &tx.input_type_witnesses[0] {
        None => {
            return Err(Error::WitnessMissInputType);
        },
        Some(w) => w,
    };
    let spv = match decode_proof(w.as_slice()) {
        None => {
            return Err(Error::InvalidWitnessEncoding);
        },
        Some(p) => p,
    };
    if tx.inputs.len() == 0 {
        return Err(Error::IndexOutOfBound);
    }
    let inl = match decode_ledger(tx.inputs[0].data.as_slice()) {
        None => {
            return Err(Error::InvalidInputData);
        },
        Some(l) => l,
    };
    if tx.outputs.len() == 0 {
        return Err(Error::IndexOutOfBound);
    }
    let outl = match decode_ledger(tx.outputs[0].data.as_slice()) {
        None => {
            return Err(Error::InvalidOutputData);
        },
        Some(l) => l,
    };
    let ghost winl = ledger_view(inl@);
    let ghost woutl = ledger_view(outl@);
    let ghost rec = proof_record(w@);
    let n = inl.len();
    let mut i: usize = 0;
    while i < n
        invariant
            i <= n,
            n == inl@.len(),
            ledger_wf(inl@),
            ledger_wf(outl@),
            spv.record.wf(),
            winl == ledger_view(inl@),
            woutl == ledger_view(outl@),
            spv.record.bytes() == rec,
            scan_records(winl, woutl, rec, 0) == scan_records(winl, woutl, rec, i as int),
        decreases n - i,
    {
        if record_eq(&spv.record, &inl[i]) {
            proof {
                assert(winl[i as int] == rec);
                assert(scan_records(winl, woutl, rec, i as int) == Err::<(), Error>(
                    Error::RecordHandled,
                ));
            }
            return Err(Error::RecordHandled);
        }
        if i >= outl.len() || !record_eq(&inl[i], &outl[i]) {
            proof {
                assert(winl[i as int] != rec);
                assert(woutl.len() <= i as int || woutl[i as int] != winl[i as int]);
                assert(scan_records(winl, woutl, rec, i as int) == Err::<(), Error>(
                    Error::RecordsNotMatch,
                ));
            }
            return Err(Error::RecordsNotMatch);
        }
        proof {
            assert(scan_records(winl, woutl, rec, i as int) == scan_records(
                winl,
                woutl,
                rec,
                i + 1int,
            ));
        }
        i = i + 1;
    }
    let dlen = tx.inputs[0].data.len();
    proof {
        assert(parse_ledger(tx.inputs@[0].data@) == Some(winl));
        assert(dlen as int == 4 + 40 * (n as int));
        assert(n < usize::MAX);
    }
    if outl.len() != n + 1 {
        return Err(Error::RecordsNotMatch);
    }
    if !record_eq(&spv.record, &outl[n]) {
        return Err(Error::RecordsNotMatch);
    }
    match verify_proof(tx.inputs[0].data.as_slice(), w.as_slice()) {
        Ok(()) => {},
        Err(_) => {
            return Err(Error::UnlockFailed);
        },
    }
    if tx.outputs.len() < 2 {
        return Err(Error::IndexOutOfBound);
    }
    let mint = &tx.outputs[1];
    match &mint.type_script {
        None => Err(Error::ItemMissing),
        Some(ts) => {
            let code_good = eq_bytes(ts.code_hash.as_slice(), cfg.token_code_hash.as_slice());
            let args_good = eq_bytes(ts.args.as_slice(), tx.outputs[0].lock_hash.as_slice());
            if !(code_good && args_good && ts.hash_type == 0) {
                return Err(Error::InvalidOutput);
            }
            if !eq_bytes(mint.lock_hash.as_slice(), spv.dest_lock_hash.as_slice()) {
                return Err(Error::InvalidToLockHash);
            }
            if !eq_bytes(mint.data.as_slice(), spv.amount.as_slice()) {
                return Err(Error::InvalidMintAmount);
            }
            Ok(())
        },
    }
}

/// Judges a transaction as the bridge cell's state-transition verifier:
/// entry checks, then dispatch on the number of consumed bridge cells.
pub fn verify_bridge(cfg: &Config, tx: &TxView) -> (r: Result<(), Error>)
    ensures
        r == spec_verify(*cfg, *tx),
        r == Ok::<(), Error>(()) <==> spec_accepts(*cfg, *tx),
{
    proof {
        lemma_verify_accepts_iff(*cfg, *tx);
    }
    let n_out = count_group(&tx.outputs, &tx.script_hash);
    if n_out != 1 {
        return Err(Error::InvalidOutput);
    }
    proof {
        lemma_group_count_bounds(tx.outputs@, tx.script_hash@);
    }
    match &tx.outputs[0].type_hash {
        None => {
            return Err(Error::ItemMissing);
        },
        Some(h) => {
            if !eq_bytes(h.as_slice(), tx.script_hash.as_slice()) {
                return Err(Error::InvalidOutput);
            }
        },
    }
    let lock = &tx.outputs[0].lock;
    let code_good = eq_bytes(lock.code_hash.as_slice(), cfg.lock_code_hash.as_slice());
    let args_good = eq_bytes(lock.args.as_slice(), tx.script_hash.as_slice());
    if !(code_good && args_good && lock.hash_type == 0) {
        return Err(Error::InvalidOutput);
    }
    let n_in = count_group(&tx.inputs, &tx.script_hash);
    if n_in == 0 {
        verify_init(tx)
    } else if n_in == 1 {
        verify_transfer(cfg, tx)
    } else {
        Err(Error::InvalidTx)
    }
}

/// Judges a transaction as the authorization delegate.
pub fn verify_lock(tx: &TxView) -> (r: Result<(), Error>)
    ensures
        r == spec_verify_lock(*tx),
{
    if tx.outputs.len() == 0 {
        return Err(Error::IndexOutOfBound);
    }
    match &tx.outputs[0].type_hash {
        None => Err(Error::ItemMissing),
        Some(h) => {
            if eq_bytes(tx.script.args.as_slice(), h.as_slice()) {
                Ok(())
            } else {
                Err(Error::UnlockFailed)
            }
        },
    }
}

/// A transaction stands only when the state-transition verifier and the
/// authorization delegate both accept it, each judging its own view.
pub fn verify_both(cfg: &Config, bridge_view: &TxView, lock_view: &TxView) -> (r: bool)
    ensures
        r == (spec_verify(*cfg, *bridge_view) is Ok && spec_verify_lock(*lock_view) is Ok),
{
    let a = verify_bridge(cfg, bridge_view);
    let b = verify_lock(lock_view);
    a.is_ok() && b.is_ok()
}

} // verus!
