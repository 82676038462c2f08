//! Binary codec of the append-only record ledger and of the proof.
//!
//! Layouts, bit-exact:
//! - Record: 32-byte source block identifier followed by the 8-byte
//!   source transaction index, 40 bytes in all.
//! - Ledger: 4-byte little-endian record count followed by the records,
//!   nothing after them; the canonical empty ledger is the 4 zero bytes.
//! - Proof: 16-byte little-endian amount, 32-byte destination lock
//!   identifier, one record, a 4-byte little-endian length and that many
//!   opaque proof bytes, nothing after them.

use vstd::arithmetic::div_mod::{
    lemma_div_denominator, lemma_fundamental_div_mod, lemma_fundamental_div_mod_converse,
    lemma_multiply_divide_lt, lemma_small_mod,
};
use vstd::prelude::*;
use vstd::slice::{slice_subrange, slice_to_vec};

verus! {

/// One settled cross-chain deposit record.
pub struct Record {
    /// Source-chain block identifier, 32 bytes.
    pub block_hash: Vec<u8>,
    /// Source-chain transaction index, 8 bytes.
    pub tx_index: Vec<u8>,
}

impl Record {
    /// Both fields have their fixed widths.
    pub open spec fn wf(self) -> bool {
        self.block_hash@.len() == 32 && self.tx_index@.len() == 8
    }

    /// The 40 bytes this record occupies in a ledger encoding.
    pub open spec fn bytes(self) -> Seq<u8> {
        self.block_hash@ + self.tx_index@
    }
}

/// The ledger as a sequence of 40-byte record encodings.
pub open spec fn ledger_view(l: Seq<Record>) -> Seq<Seq<u8>> {
    l.map_values(|r: Record| r.bytes())
}

/// Every record of the ledger has its fixed widths.
pub open spec fn ledger_wf(l: Seq<Record>) -> bool {
    forall|i: int| 0 <= i < l.len() ==> (#[trigger] l[i]).wf()
}

/// The unsigned number held by 4 little-endian bytes.
pub open spec fn le32(b: Seq<u8>) -> int {
    b[0] + 0x100 * b[1] + 0x1_0000 * b[2] + 0x100_0000 * b[3]
}

/// The 4 little-endian bytes of an unsigned number below 2^32.
pub open spec fn le32_bytes(n: int) -> Seq<u8> {
    seq![
        (n % 0x100) as u8,
        ((n / 0x100) % 0x100) as u8,
        ((n / 0x1_0000) % 0x100) as u8,
        ((n / 0x100_0000) % 0x100) as u8,
    ]
}

/// The 40 bytes of the record at position `i` of an encoded ledger.
pub open spec fn record_bytes_at(b: Seq<u8>, i: int) -> Seq<u8> {
    b.subrange(4 + 40 * i, 4 + 40 * i + 40)
}

/// The ledger encoded by `b`, or nothing if `b` is malformed: a count
/// prefix that does not match the remaining length, truncated entries
/// and trailing bytes are all malformed.
pub open spec fn parse_ledger(b: Seq<u8>) -> Option<Seq<Seq<u8>>> {
    if b.len() < 4 {
        None
    } else {
        let n = le32(b.subrange(0, 4));
        if b.len() == 4 + 40 * n {
            Some(Seq::new(n as nat, |i: int| record_bytes_at(b, i)))
        } else {
            None
        }
    }
}

/// The concatenation of the records' 40-byte encodings.
pub open spec fn records_bytes(rs: Seq<Seq<u8>>) -> Seq<u8>
    decreases rs.len(),
{
    if rs.len() == 0 {
        Seq::empty()
    } else {
        records_bytes(rs.drop_last()) + rs.last()
    }
}

/// The encoding of a ledger: count prefix, then the records.
pub open spec fn encode_ledger_bytes(rs: Seq<Seq<u8>>) -> Seq<u8> {
    le32_bytes(rs.len() as int) + records_bytes(rs)
}

/// The canonical encoding of the empty ledger.
pub open spec fn empty_ledger_bytes() -> Seq<u8> {
    seq![0u8, 0u8, 0u8, 0u8]
}

/// A proof blob is well formed when its fixed-offset table and its
/// trailing length field account for exactly the bytes present.
pub open spec fn proof_well_formed(b: Seq<u8>) -> bool {
    b.len() >= 92 && b.len() == 92 + le32(b.subrange(88, 92))
}

/// The 16 little-endian amount bytes of a proof blob.
pub open spec fn proof_amount(b: Seq<u8>) -> Seq<u8> {
    b.subrange(0, 16)
}

/// The 32-byte destination lock identifier of a proof blob.
pub open spec fn proof_dest(b: Seq<u8>) -> Seq<u8> {
    b.subrange(16, 48)
}

/// The 40-byte record of a proof blob.
pub open spec fn proof_record(b: Seq<u8>) -> Seq<u8> {
    b.subrange(48, 88)
}

/// The opaque proof payload of a proof blob.
pub open spec fn proof_payload(b: Seq<u8>) -> Seq<u8> {
    b.subrange(92, b.len() as int)
}

/// The decoded form of a proof blob.
pub struct SpvProof {
    /// Raw little-endian amount, 16 bytes.
    pub amount: Vec<u8>,
    /// Destination lock identifier, 32 bytes.
    pub dest_lock_hash: Vec<u8>,
    /// The claimed foreign-chain record.
    pub record: Record,
    /// Opaque proof payload.
    pub proof_bytes: Vec<u8>,
}

impl SpvProof {
    /// The fixed-width fields have their widths.
    pub open spec fn wf(self) -> bool {
        self.amount@.len() == 16 && self.dest_lock_hash@.len() == 32 && self.record.wf()
    }
}

/// Reads the little-endian count held by `b[0..4]`.
fn read_le32(b: &[u8]) -> (n: u32)
    requires
        b@.len() >= 4,
    ensures
        n == le32(b@.subrange(0, 4)),
{
    let n: u32 = (b[0] as u32) + 0x100 * (b[1] as u32) + 0x1_0000 * (b[2] as u32) + 0x100_0000
        * (b[3] as u32);
    proof {
        assert(b@.subrange(0, 4)[0] == b@[0]);
        assert(b@.subrange(0, 4)[1] == b@[1]);
        assert(b@.subrange(0, 4)[2] == b@[2]);
        assert(b@.subrange(0, 4)[3] == b@[3]);
    }
    n
}

/// Decodes a ledger, or reports that the bytes are malformed.
pub fn decode_ledger(b: &[u8]) -> (r: Option<Vec<Record>>)
    ensures
        match r {
            Some(l) => ledger_wf(l@) && parse_ledger(b@) == Some(ledger_view(l@)),
            None => parse_ledger(b@) is None,
        },
{
    if b.len() < 4 {
        return None;
    }
    let n = read_le32(b);
    if (b.len() as u64) != 4u64 + 40u64 * (n as u64) {
        return None;
    }
    let count = n as usize;
    let blen = b.len();
    let mut out: Vec<Record> = Vec::new();
    let mut i: usize = 0;
    let mut off: usize = 4;
    while i < count
        invariant
            i <= count,
            off == 4 + 40 * (i as int),
            blen == b@.len(),
            off <= blen,
            b@.len() == 4 + 40 * (count as int),
            out@.len() == i,
            forall|j: int|
                0 <= j < i ==> (#[trigger] out@[j]).wf() && out@[j].bytes() == record_bytes_at(
                    b@,
                    j,
                ),
        decreases count - i,
    {
        assert(off + 40 <= blen);
        let block_hash = slice_to_vec(slice_subrange(b, off, off + 32));
        let tx_index = slice_to_vec(slice_subrange(b, off + 32, off + 40));
        let rec = Record { block_hash, tx_index };
        proof {
            assert(rec.bytes() =~= record_bytes_at(b@, i as int));
        }
        out.push(rec);
        i = i + 1;
        off = off + 40;
    }
    proof {
        assert(ledger_view(out@) =~= Seq::new(count as nat, |j: int| record_bytes_at(b@, j)));
    }
    Some(out)
}

/// Appends all of `src` to `dst`.
fn push_bytes(dst: &mut Vec<u8>, src: &[u8])
    ensures
        final(dst)@ == old(dst)@ + src@,
{
    let mut j: usize = 0;
    while j < src.len()
        invariant
            j <= src@.len(),
            dst@ == old(dst)@ + src@.take(j as int),
        decreases src@.len() - j,
    {
        let x = src[j];
        dst.push(x);
        proof {
            assert(old(dst)@ + src@.take(j + 1int) =~= (old(dst)@ + src@.take(j as int)).push(x));
        }
        j = j + 1;
    }
    proof {
        assert(src@.take(src@.len() as int) =~= src@);
    }
}

/// Encodes a ledger; the result decodes back to the same ledger.
pub fn encode_ledger(l: &Vec<Record>) -> (r: Vec<u8>)
    requires
        ledger_wf(l@),
        l@.len() < 0x1_0000_0000,
    ensures
        r@ == encode_ledger_bytes(ledger_view(l@)),
        parse_ledger(r@) == Some(ledger_view(l@)),
{
    let n = l.len();
    let mut r: Vec<u8> = Vec::new();
    r.push((n % 0x100) as u8);
    r.push(((n / 0x100) % 0x100) as u8);
    r.push(((n / 0x1_0000) % 0x100) as u8);
    r.push(((n / 0x100_0000) % 0x100) as u8);
    proof {
        assert(r@ =~= le32_bytes(n as int));
    }
    let mut i: usize = 0;
    while i < n
        invariant
            i <= n,
            n == l@.len(),
            ledger_wf(l@),
            r@ == le32_bytes(n as int) + records_bytes(ledger_view(l@).take(i as int)),
        decreases n - i,
    {
        push_bytes(&mut r, l[i].block_hash.as_slice());
        push_bytes(&mut r, l[i].tx_index.as_slice());
        proof {
            let v = ledger_view(l@);
            assert(v.take(i + 1int).drop_last() =~= v.take(i as int));
            assert(v.take(i + 1int).last() == l@[i as int].bytes());
            assert(r@ =~= le32_bytes(n as int) + records_bytes(v.take(i + 1int)));
        }
        i = i + 1;
    }
    proof {
        assert(ledger_view(l@).take(n as int) =~= ledger_view(l@));
        lemma_ledger_round_trip(ledger_view(l@));
    }
    r
}

/// Decodes a proof blob, or reports that it is malformed.
pub fn decode_proof(b: &[u8]) -> (r: Option<SpvProof>)
    ensures
        match r {
            Some(p) => proof_well_formed(b@) && p.wf() && p.amount@ == proof_amount(b@)
                && p.dest_lock_hash@ == proof_dest(b@) && p.record.bytes() == proof_record(b@)
                && p.proof_bytes@ == proof_payload(b@),
            None => !proof_well_formed(b@),
        },
{
    if b.len() < 92 {
        return None;
    }
    let len_field = read_le32(slice_subrange(b, 88, 92));
    proof {
        assert(b@.subrange(88, 92).subrange(0, 4) =~= b@.subrange(88, 92));
    }
    if (b.len() as u64) != 92u64 + (len_field as u64) {
        return None;
    }
    let amount = slice_to_vec(slice_subrange(b, 0, 16));
    let dest_lock_hash = slice_to_vec(slice_subrange(b, 16, 48));
    let block_hash = slice_to_vec(slice_subrange(b, 48, 80));
    let tx_index = slice_to_vec(slice_subrange(b, 80, 88));
    let proof_bytes = slice_to_vec(slice_subrange(b, 92, b.len()));
    let record = Record { block_hash, tx_index };
    proof {
        assert(record.bytes() =~= proof_record(b@));
    }
    Some(SpvProof { amount, dest_lock_hash, record, proof_bytes })
}

/// A number below 2^32 is recovered from its 4 little-endian bytes.
proof fn lemma_le32_round(n: int)
    requires
        0 <= n < 0x1_0000_0000,
    ensures
        le32(le32_bytes(n)) == n,
{
    lemma_fundamental_div_mod(n, 0x100);
    lemma_fundamental_div_mod(n / 0x100, 0x100);
    lemma_fundamental_div_mod(n / 0x1_0000, 0x100);
    lemma_div_denominator(n, 0x100, 0x100);
    lemma_div_denominator(n, 0x1_0000, 0x100);
    lemma_multiply_divide_lt(n, 0x100_0000, 0x100);
    lemma_small_mod((n / 0x100_0000) as nat, 0x100);
}

/// The records' concatenation is 40 bytes per record.
proof fn lemma_records_bytes_len(rs: Seq<Seq<u8>>)
    requires
        forall|i: int| 0 <= i < rs.len() ==> (#[trigger] rs[i]).len() == 40,
    ensures
        records_bytes(rs).len() == 40 * rs.len(),
    decreases rs.len(),
{
    if rs.len() > 0 {
        lemma_records_bytes_len(rs.drop_last());
    }
}

/// Each record is read back from its own 40 bytes of the concatenation.
proof fn lemma_records_bytes_index(rs: Seq<Seq<u8>>, i: int)
    requires
        forall|j: int| 0 <= j < rs.len() ==> (#[trigger] rs[j]).len() == 40,
        0 <= i < rs.len(),
    ensures
        records_bytes(rs).subrange(40 * i, 40 * i + 40) == rs[i],
    decreases rs.len(),
{
    lemma_records_bytes_len(rs);
    lemma_records_bytes_len(rs.drop_last());
    if i == rs.len() - 1 {
        assert(records_bytes(rs).subrange(40 * i, 40 * i + 40) =~= rs[i]);
    } else {
        lemma_records_bytes_index(rs.drop_last(), i);
        assert(records_bytes(rs).subrange(40 * i, 40 * i + 40) =~= records_bytes(
            rs.drop_last(),
        ).subrange(40 * i, 40 * i + 40));
    }
}

/// Decoding is the exact inverse of encoding: every well-formed ledger
/// is read back, record for record, from its own encoding.
pub proof fn lemma_ledger_round_trip(rs: Seq<Seq<u8>>)
    requires
        forall|i: int| 0 <= i < rs.len() ==> (#[trigger] rs[i]).len() == 40,
        rs.len() < 0x1_0000_0000,
    ensures
        parse_ledger(encode_ledger_bytes(rs)) == Some(rs),
{
    let n = rs.len() as int;
    let enc = encode_ledger_bytes(rs);
    lemma_records_bytes_len(rs);
    assert(enc.subrange(0, 4) =~= le32_bytes(n));
    lemma_le32_round(n);
    assert forall|i: int| 0 <= i < n implies record_bytes_at(enc, i) == rs[i] by {
        lemma_records_bytes_index(rs, i);
        assert(record_bytes_at(enc, i) =~= records_bytes(rs).subrange(40 * i, 40 * i + 40));
    }
    assert(parse_ledger(enc) == Some(Seq::new(n as nat, |i: int| record_bytes_at(enc, i))));
    assert(Seq::new(n as nat, |i: int| record_bytes_at(enc, i)) =~= rs);
}

/// The 4 little-endian bytes of a count are recovered from its value.
proof fn lemma_le32_bytes_of(p: Seq<u8>)
    requires
        p.len() == 4,
    ensures
        le32_bytes(le32(p)) == p,
{
    let n = le32(p);
    lemma_fundamental_div_mod_converse(
        n,
        0x100,
        p[1] + 0x100 * p[2] + 0x1_0000 * p[3],
        p[0] as int,
    );
    lemma_fundamental_div_mod_converse(n / 0x100, 0x100, p[2] + 0x100 * p[3], p[1] as int);
    lemma_div_denominator(n, 0x100, 0x100);
    lemma_fundamental_div_mod_converse(n / 0x1_0000, 0x100, p[3] as int, p[2] as int);
    lemma_div_denominator(n, 0x1_0000, 0x100);
    lemma_small_mod(p[3] as nat, 0x100);
    assert(le32_bytes(n) =~= p);
}

/// The records read from an encoded ledger concatenate back to the
/// bytes after its count prefix.
proof fn lemma_records_bytes_of(b: Seq<u8>, n: int)
    requires
        0 <= n,
        b.len() >= 4 + 40 * n,
    ensures
        records_bytes(Seq::new(n as nat, |i: int| record_bytes_at(b, i))) == b.subrange(
            4,
            4 + 40 * n,
        ),
    decreases n,
{
    let rs = Seq::new(n as nat, |i: int| record_bytes_at(b, i));
    if n == 0 {
        assert(records_bytes(rs) =~= b.subrange(4, 4));
    } else {
        lemma_records_bytes_of(b, n - 1);
        assert(rs.drop_last() =~= Seq::new((n - 1) as nat, |i: int| record_bytes_at(b, i)));
        assert(records_bytes(rs) =~= b.subrange(4, 4 + 40 * n));
    }
}

/// A ledger's encoding is unique: whatever bytes decode to a ledger are
/// that ledger's own encoding.
pub proof fn lemma_ledger_encoding_unique(b: Seq<u8>, rs: Seq<Seq<u8>>)
    requires
        parse_ledger(b) == Some(rs),
    ensures
        b == encode_ledger_bytes(rs),
{
    let n = le32(b.subrange(0, 4));
    lemma_le32_bytes_of(b.subrange(0, 4));
    lemma_records_bytes_of(b, n);
    assert(rs =~= Seq::new(n as nat, |i: int| record_bytes_at(b, i)));
    assert(b =~= le32_bytes(n) + records_bytes(rs));
}

/// The canonical empty constant round-trips: the 4 zero bytes decode to
/// the empty ledger, and only they encode it.
pub proof fn lemma_empty_ledger_round_trip()
    ensures
        encode_ledger_bytes(Seq::<Seq<u8>>::empty()) == empty_ledger_bytes(),
        parse_ledger(empty_ledger_bytes()) == Some(Seq::<Seq<u8>>::empty()),
{
    assert(encode_ledger_bytes(Seq::<Seq<u8>>::empty()) =~= empty_ledger_bytes());
    lemma_ledger_round_trip(Seq::<Seq<u8>>::empty());
}

} // verus!
