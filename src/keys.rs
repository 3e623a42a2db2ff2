use std::str::FromStr;
use vstd::prelude::*;

verus! {

/// A holder, mint, program or destination address: the 32 bytes of a public key.
#[derive(Debug, Clone, Copy, PartialEq, Eq, Hash)]
pub struct Address {
    pub bytes: [u8; 32],
}

/// An opaque handle of one submitted transaction: the 64 bytes of its signature.
#[derive(Debug, Clone, Copy, PartialEq, Eq, Hash)]
pub struct SubmissionId {
    pub bytes: [u8; 64],
}

/// The address that the base58 text `s` denotes, if any.
pub uninterp spec fn address_of_text(s: Seq<char>) -> Option<Seq<u8>>;

/// The base58 text of the public key with bytes `b`.
pub uninterp spec fn text_of_address(b: Seq<u8>) -> Seq<char>;

/// The signature that the base58 text `s` denotes, if any.
pub uninterp spec fn submission_id_of_text(s: Seq<char>) -> Option<Seq<u8>>;

/// The base58 text of the signature with bytes `b`.
pub uninterp spec fn text_of_submission_id(b: Seq<u8>) -> Seq<char>;

/// Relies on `solana_program::pubkey::Pubkey::from_str`: the result depends on
/// the text alone (base58, exactly 32 bytes once decoded).
#[verifier::external_body]
pub(crate) fn parse_address(s: &str) -> (r: Option<Address>)
    ensures
        match r {
            Some(a) => address_of_text(s@) == Some(a.bytes@),
            None => address_of_text(s@).is_none(),
        },
{
    solana_program::pubkey::Pubkey::from_str(s).ok().map(|pk| Address { bytes: pk.to_bytes() })
}

/// Relies on `Display for solana_program::pubkey::Pubkey`: base58 of the bytes,
/// which `Pubkey::from_str` reads back to the same 32 bytes.
#[verifier::external_body]
pub(crate) fn address_text(a: &Address) -> (r: String)
    ensures
        r@ == text_of_address(a.bytes@),
        r@.len() > 0,
        address_of_text(r@) == Some(a.bytes@),
{
    solana_program::pubkey::Pubkey::new_from_array(a.bytes).to_string()
}

/// Relies on `solana_sdk::signature::Signature::from_str`: the result depends on
/// the text alone (base58, exactly 64 bytes once decoded).
#[verifier::external_body]
pub(crate) fn parse_submission_id(s: &str) -> (r: Option<SubmissionId>)
    ensures
        match r {
            Some(id) => submission_id_of_text(s@) == Some(id.bytes@),
            None => submission_id_of_text(s@).is_none(),
        },
{
    solana_sdk::signature::Signature::from_str(s).ok().map(|sig| {
        let mut bytes = [0u8; 64];
        bytes.copy_from_slice(sig.as_ref());
        SubmissionId { bytes }
    })
}

/// Relies on `Display for solana_sdk::signature::Signature`: base58 of the bytes,
/// which `Signature::from_str` reads back to the same 64 bytes.
#[verifier::external_body]
pub(crate) fn submission_id_text(id: &SubmissionId) -> (r: String)
    ensures
        r@ == text_of_submission_id(id.bytes@),
        submission_id_of_text(r@) == Some(id.bytes@),
{
    solana_sdk::signature::Signature::from(id.bytes).to_string()
}

/// Whether `a` and `b` are the same address.
pub fn same_address(a: &Address, b: &Address) -> (r: bool)
    ensures
        r == (a.bytes@ == b.bytes@),
{
    let mut i: usize = 0;
    while i < 32
        invariant
            0 <= i <= 32,
            forall|k: int| 0 <= k < i ==> a.bytes@[k] == b.bytes@[k],
        decreases 32 - i,
    {
        if a.bytes[i] != b.bytes[i] {
            return false;
        }
        i = i + 1;
    }
    assert(a.bytes@ =~= b.bytes@);
    true
}

/// Whether `a` and `b` are the same submission identifier.
pub fn same_submission_id(a: &SubmissionId, b: &SubmissionId) -> (r: bool)
    ensures
        r == (a.bytes@ == b.bytes@),
{
    let mut i: usize = 0;
    while i < 64
        invariant
            0 <= i <= 64,
            forall|k: int| 0 <= k < i ==> a.bytes@[k] == b.bytes@[k],
        decreases 64 - i,
    {
        if a.bytes[i] != b.bytes[i] {
            return false;
        }
        i = i + 1;
    }
    assert(a.bytes@ =~= b.bytes@);
    true
}

} // verus!
