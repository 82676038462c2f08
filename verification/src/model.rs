//! Plain-data view of the transaction under judgement.
//!
//! The verifier is a pure function of the candidate transaction's own
//! fields. The host that executes it supplies those fields as plain
//! values; nothing here performs I/O.

use vstd::prelude::*;

verus! {

/// Identity of a piece of executable verification logic: a code
/// identifier, a hash-interpretation mode, and opaque argument bytes.
pub struct Script {
    pub code_hash: Vec<u8>,
    pub hash_type: u8,
    pub args: Vec<u8>,
}

/// One cell as the verifier sees it: its owning lock, optional governing
/// type, capacity, and data payload. The identity hashes of the two
/// scripts are supplied by the host alongside the scripts themselves.
pub struct CellView {
    pub lock: Script,
    pub lock_hash: Vec<u8>,
    pub type_script: Option<Script>,
    pub type_hash: Option<Vec<u8>>,
    pub capacity: u64,
    pub data: Vec<u8>,
}

/// Read-only view of the candidate transaction, from the standpoint of
/// one executing verifier instance: its own script and identity hash,
/// the consumed cells with their outpoints and witness data, and the
/// produced cells.
pub struct TxView {
    /// The executing verifier's own script.
    pub script: Script,
    /// Identity hash of the executing verifier's script.
    pub script_hash: Vec<u8>,
    /// Cells consumed by the transaction, in input order.
    pub inputs: Vec<CellView>,
    /// Outpoint bytes referenced by each input, in input order.
    pub input_outpoints: Vec<Vec<u8>>,
    /// Input-side witness field for each input slot, in input order.
    pub input_type_witnesses: Vec<Option<Vec<u8>>>,
    /// Cells produced by the transaction, in output order.
    pub outputs: Vec<CellView>,
}

/// Deployment parameters: the code identifiers of the wrapped-asset
/// token and of the companion authorization lock. Supplied at
/// construction so the verifier is not tied to compiled-in constants.
pub struct Config {
    pub token_code_hash: Vec<u8>,
    pub lock_code_hash: Vec<u8>,
}

/// Whether a cell belongs to the executing verifier's group: its type
/// identity hash equals the verifier's own identity hash.
pub open spec fn in_group(type_hash: Option<Vec<u8>>, script_hash: Seq<u8>) -> bool {
    match type_hash {
        Some(h) => h@ == script_hash,
        None => false,
    }
}

/// Number of cells of the verifier's group among `cells`.
pub open spec fn group_count(cells: Seq<CellView>, script_hash: Seq<u8>) -> int
    decreases cells.len(),
{
    if cells.len() == 0 {
        0
    } else {
        group_count(cells.drop_last(), script_hash)
            + if in_group(cells.last().type_hash, script_hash) {
            1int
        } else {
            0int
        }
    }
}

pub proof fn lemma_group_count_bounds(cells: Seq<CellView>, script_hash: Seq<u8>)
    ensures
        0 <= group_count(cells, script_hash) <= cells.len(),
    decreases cells.len(),
{
    if cells.len() > 0 {
        lemma_group_count_bounds(cells.drop_last(), script_hash);
    }
}

/// Byte-for-byte comparison of two byte strings.
pub fn eq_bytes(a: &[u8], b: &[u8]) -> (r: bool)
    ensures
        r == (a@ == b@),
{
    if a.len() != b.len() {
        return false;
    }
    let mut i: usize = 0;
    while i < a.len()
        invariant
            i <= a.len(),
            a@.len() == b@.len(),
            forall|j: int| 0 <= j < i ==> a@[j] == b@[j],
        decreases a.len() - i,
    {
        if a[i] != b[i] {
            return false;
        }
        i = i + 1;
    }
    proof {
        assert(a@ =~= b@);
    }
    true
}

/// Whether `cell` belongs to the group of the verifier whose identity
/// hash is `script_hash`.
pub fn cell_in_group(cell: &CellView, script_hash: &Vec<u8>) -> (r: bool)
    ensures
        r == in_group(cell.type_hash, script_hash@),
{
    match &cell.type_hash {
        Some(h) => eq_bytes(h.as_slice(), script_hash.as_slice()),
        None => false,
    }
}

/// Counts the cells of the verifier's group among `cells`.
pub fn count_group(cells: &Vec<CellView>, script_hash: &Vec<u8>) -> (n: usize)
    ensures
        n == group_count(cells@, script_hash@),
{
    let mut n: usize = 0;
    let mut i: usize = 0;
    while i < cells.len()
        invariant
            i <= cells@.len(),
            n <= i,
            n == group_count(cells@.take(i as int), script_hash@),
        decreases cells@.len() - i,
    {
        proof {
            assert(cells@.take(i + 1int).drop_last() =~= cells@.take(i as int));
            assert(cells@.take(i + 1int).last() == cells@[i as int]);
        }
        if cell_in_group(&cells[i], script_hash) {
            n = n + 1;
        }
        i = i + 1;
    }
    proof {
        assert(cells@.take(cells@.len() as int) =~= cells@);
    }
    n
}

} // verus!
