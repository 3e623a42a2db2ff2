use crate::errors::Error;
use crate::keys::Address;
use solana_program::pubkey::Pubkey;
use spl_token_2022::extension::StateWithExtensions;
use spl_token_2022::state::{Account, Mint};
use vstd::prelude::*;

verus! {

/// The associated token account of `wallet` for `mint` under `token_program`.
pub uninterp spec fn destination_of(wallet: Seq<u8>, mint: Seq<u8>, token_program: Seq<u8>) -> Seq<u8>;

/// Whether `data` unpacks as an initialized token account.
pub uninterp spec fn is_token_account_data(data: Seq<u8>) -> bool;

/// The decimals of the mint that `data` unpacks to, if it unpacks.
pub uninterp spec fn mint_decimals_of(data: Seq<u8>) -> Option<u8>;

/// Relies on `spl_associated_token_account::get_associated_token_address_with_program_id`:
/// the derived address depends on the three addresses alone. (It searches for a
/// bump seed off the curve; failing to find one has probability about 2^-256.)
#[verifier::external_body]
pub(crate) fn derive_destination(wallet: &Address, mint: &Address, token_program: &Address) -> (r: Address)
    ensures
        r.bytes@ == destination_of(wallet.bytes@, mint.bytes@, token_program.bytes@),
{
    let ata = spl_associated_token_account::get_associated_token_address_with_program_id(
        &Pubkey::new_from_array(wallet.bytes),
        &Pubkey::new_from_array(mint.bytes),
        &Pubkey::new_from_array(token_program.bytes),
    );
    Address { bytes: ata.to_bytes() }
}

/// Relies on `spl_token_2022::extension::StateWithExtensions::<Account>::unpack`:
/// whether the bytes hold an initialized token account, with or without
/// extensions, depends on the bytes alone.
#[verifier::external_body]
pub(crate) fn token_account_unpacks(data: &Vec<u8>) -> (r: bool)
    ensures
        r == is_token_account_data(data@),
{
    StateWithExtensions::<Account>::unpack(data.as_slice()).is_ok()
}

/// Relies on `spl_token_2022::extension::StateWithExtensions::<Mint>::unpack`:
/// the decimals of the mint that the bytes hold, which depend on the bytes alone.
#[verifier::external_body]
pub(crate) fn unpack_mint_decimals(data: &Vec<u8>) -> (r: Option<u8>)
    ensures
        r == mint_decimals_of(data@),
{
    StateWithExtensions::<Mint>::unpack(data.as_slice()).ok().map(|m| m.base.decimals)
}

/// The associated token account of `wallet` for `mint` under `token_program`:
/// where the funding wallet's tokens are sent from.
pub fn associated_token_address(wallet: &Address, mint: &Address, token_program: &Address) -> (r: Address)
    ensures
        r.bytes@ == destination_of(wallet.bytes@, mint.bytes@, token_program.bytes@),
{
    derive_destination(wallet, mint, token_program)
}

/// The token program and decimals of a mint, from the mint account's owner and
/// data: the owner is the token program; the decimals come from the data.
pub fn get_token_mint_info(owner: &Address, data: &Vec<u8>) -> (r: Result<(Address, u8), Error>)
    ensures
        match mint_decimals_of(data@) {
            Some(d) => r == Ok::<(Address, u8), Error>((*owner, d)),
            None => r == Err::<(Address, u8), Error>(Error::InvalidMint),
        },
{
    match unpack_mint_decimals(data) {
        Some(d) => Ok((*owner, d)),
        None => Err(Error::InvalidMint),
    }
}

} // verus!
