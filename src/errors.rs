use vstd::prelude::*;

verus! {

/// Errors reported by the library.
#[derive(Debug, PartialEq, Eq)]
pub enum Error {
    /// An address field does not hold a valid base58 public key.
    InvalidAddress(String),
    /// A submission identifier field does not hold a valid base58 signature.
    InvalidSubmissionId(String),
    /// An amount field is not a decimal `u64`.
    InvalidAmount(String),
    /// A status tag is unknown, or its payload does not fit the tag.
    InvalidStatus(String),
    /// A record has a wrong number of fields.
    InvalidRecord,
    /// The text is not well-formed CSV.
    Csv,
    /// The balances to share among sum to zero.
    EmptyPool,
    /// A checkpoint path has no file extension to put a stage name before.
    InvalidPath,
    /// The mint account's data does not unpack as a mint.
    InvalidMint,
    /// The checkpoint of the previous stage is missing.
    StageNotReady,
    /// A keypair file could not be read.
    KeyPairError,
}

} // verus!
