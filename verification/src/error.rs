//! Failure taxonomy of the bridge verifiers.
//!
//! Every rejection carries exactly one of these reasons. The first four
//! are accessor-tier faults: the transaction view itself is structurally
//! broken (a referenced item is absent or malformed at the host level).
//! The rest are domain-tier faults of the bridge rules. A stable small
//! integer code is assigned to each reason for the host's exit
//! convention; zero is reserved for acceptance.

use vstd::prelude::*;

verus! {

/// Reason a transaction is rejected.
#[derive(Clone, Copy, Debug, PartialEq, Eq, Structural)]
pub enum Error {
    /// A cell, outpoint or witness index points past the end.
    IndexOutOfBound,
    /// A required item (such as a type script) is absent.
    ItemMissing,
    /// A host-level read returned fewer bytes than required.
    LengthNotEnough,
    /// A host-level encoding is malformed.
    Encoding,
    /// The transaction consumes an impossible number of bridge cells.
    InvalidTx,
    /// A creation is not bound to the first consumed outpoint.
    InvalidID,
    /// A creation's produced ledger is not the canonical empty encoding.
    InvalidInitOutputData,
    /// The witness slot of the consumed bridge cell has no input-side field.
    WitnessMissInputType,
    /// The witness input-side field does not decode as a proof.
    InvalidWitnessEncoding,
    /// The produced cells are not shaped as the bridge rules demand.
    InvalidOutput,
    /// The mint cell is not locked to the proof's destination.
    InvalidToLockHash,
    /// The mint cell's data is not the proof's amount bytes.
    InvalidMintAmount,
    /// The consumed bridge cell's data does not decode as a ledger.
    InvalidInputData,
    /// The produced bridge cell's data does not decode as a ledger.
    InvalidOutputData,
    /// The proof's record is already settled in the ledger.
    RecordHandled,
    /// The produced ledger is not the consumed ledger plus the record.
    RecordsNotMatch,
    /// The authorization delegate's anchor check failed.
    UnlockFailed,
}

impl Error {
    /// The stable integer code of this reason.
    pub open spec fn spec_code(self) -> i8 {
        match self {
            Error::IndexOutOfBound => 1,
            Error::ItemMissing => 2,
            Error::LengthNotEnough => 3,
            Error::Encoding => 4,
            Error::InvalidTx => 5,
            Error::InvalidID => 6,
            Error::InvalidInitOutputData => 7,
            Error::WitnessMissInputType => 8,
            Error::InvalidWitnessEncoding => 9,
            Error::InvalidOutput => 10,
            Error::InvalidToLockHash => 11,
            Error::InvalidMintAmount => 12,
            Error::InvalidInputData => 13,
            Error::InvalidOutputData => 14,
            Error::RecordHandled => 15,
            Error::RecordsNotMatch => 16,
            Error::UnlockFailed => 17,
        }
    }

    /// Translates the reason to its stable integer code.
    pub fn code(&self) -> (c: i8)
        ensures
            c == self.spec_code(),
    {
        match self {
            Error::IndexOutOfBound => 1,
            Error::ItemMissing => 2,
            Error::LengthNotEnough => 3,
            Error::Encoding => 4,
            Error::InvalidTx => 5,
            Error::InvalidID => 6,
            Error::InvalidInitOutputData => 7,
            Error::WitnessMissInputType => 8,
            Error::InvalidWitnessEncoding => 9,
            Error::InvalidOutput => 10,
            Error::InvalidToLockHash => 11,
            Error::InvalidMintAmount => 12,
            Error::InvalidInputData => 13,
            Error::InvalidOutputData => 14,
            Error::RecordHandled => 15,
            Error::RecordsNotMatch => 16,
            Error::UnlockFailed => 17,
        }
    }
}

/// The integer outcome of a verification: zero on acceptance, the
/// rejection reason's code otherwise.
pub open spec fn spec_exit_code(r: Result<(), Error>) -> i8 {
    match r {
        Ok(()) => 0,
        Err(e) => e.spec_code(),
    }
}

/// Translates a verification outcome to the host's exit convention.
pub fn exit_code(r: &Result<(), Error>) -> (c: i8)
    ensures
        c == spec_exit_code(*r),
{
    match r {
        Ok(()) => 0,
        Err(e) => e.code(),
    }
}

} // verus!
