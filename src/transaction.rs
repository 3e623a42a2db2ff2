use crate::keys::Address;
use crate::send::TransferBatch;
use crate::wallet_list::{WalletList, WalletListEntry};
use solana_program::instruction::Instruction;
use solana_program::pubkey::Pubkey;
use solana_sdk::compute_budget::ComputeBudgetInstruction;
use vstd::prelude::*;

verus! {

#[verifier::external_type_specification]
#[verifier::external_body]
pub struct ExInstruction(Instruction);

/// One account that an instruction reads or writes.
#[derive(Debug, Clone, Copy, PartialEq, Eq)]
pub struct AccountRef {
    pub address: Address,
    pub is_signer: bool,
    pub is_writable: bool,
}

/// An instruction as plain values: the program it calls, its accounts in order,
/// and its data.
#[derive(Debug, Clone, PartialEq, Eq)]
pub struct InstructionParts {
    pub program_id: Address,
    pub accounts: Vec<AccountRef>,
    pub data: Vec<u8>,
}

/// The id of the spl-token-2022 program.
pub open spec fn token_2022_program_id() -> Seq<u8> {
    seq![
        6u8, 221, 246, 225, 238, 117, 143, 222, 24, 66, 93, 188, 228, 108, 205, 218, 182, 26, 252, 77, 131, 185,
        13, 39, 254, 189, 249, 40, 216, 161, 139, 252,
    ]
}

/// The id of the spl-token program.
pub open spec fn token_program_id() -> Seq<u8> {
    seq![
        6u8, 221, 246, 225, 215, 101, 161, 147, 217, 203, 225, 70, 206, 235, 121, 172, 28, 180, 133, 237, 95, 91,
        55, 145, 58, 140, 245, 133, 126, 255, 0, 169,
    ]
}

/// The id of the compute budget program.
pub open spec fn compute_budget_program_id() -> Seq<u8> {
    seq![
        3u8, 6, 70, 111, 229, 33, 23, 50, 255, 236, 173, 186, 114, 195, 155, 231, 188, 140, 229, 187, 197, 247,
        18, 107, 44, 67, 155, 58, 64, 0, 0, 0,
    ]
}

/// Whether `b` is the id of a token program that transfer instructions accept.
pub open spec fn is_token_program_id(b: Seq<u8>) -> bool {
    b == token_2022_program_id() || b == token_program_id()
}

/// The `n` little-endian bytes of `v`.
pub open spec fn le_bytes(v: nat, n: nat) -> Seq<u8>
    decreases n,
{
    if n == 0 {
        Seq::empty()
    } else {
        seq![(v % 256) as u8] + le_bytes(v / 256, (n - 1) as nat)
    }
}

/// `ix` moves `amount` tokens (with `decimals`) of `mint` from `source` to
/// `destination` under `token_program`, authorised and signed by `authority`.
pub open spec fn is_transfer_ix(
    ix: InstructionParts,
    token_program: Address,
    source: Address,
    mint: Address,
    destination: Address,
    authority: Address,
    amount: u64,
    decimals: u8,
) -> bool {
    &&& ix.program_id == token_program
    &&& ix.accounts@ == seq![
        (AccountRef { address: source, is_signer: false, is_writable: true }),
        (AccountRef { address: mint, is_signer: false, is_writable: false }),
        (AccountRef { address: destination, is_signer: false, is_writable: true }),
        (AccountRef { address: authority, is_signer: false, is_writable: false }),
        (AccountRef { address: authority, is_signer: true, is_writable: false }),
    ]
    &&& ix.data@ == seq![12u8] + le_bytes(amount as nat, 8) + seq![decimals]
}

/// `ix` sets the transaction's compute unit limit to `units`.
pub open spec fn is_compute_limit_ix(ix: InstructionParts, units: u32) -> bool {
    &&& ix.program_id.bytes@ == compute_budget_program_id()
    &&& ix.accounts@.len() == 0
    &&& ix.data@ == seq![2u8] + le_bytes(units as nat, 4)
}

/// `ix` sets the transaction's compute unit price to `micro_lamports`.
pub open spec fn is_compute_price_ix(ix: InstructionParts, micro_lamports: u64) -> bool {
    &&& ix.program_id.bytes@ == compute_budget_program_id()
    &&& ix.accounts@.len() == 0
    &&& ix.data@ == seq![3u8] + le_bytes(micro_lamports as nat, 8)
}

/// Relies on `solana_program::instruction::Instruction`'s public fields: the
/// instruction taken apart into plain values.
#[verifier::external_body]
fn parts_of(ix: Instruction) -> InstructionParts {
    InstructionParts {
        program_id: Address { bytes: ix.program_id.to_bytes() },
        accounts: ix.accounts.iter().map(|m| AccountRef {
            address: Address { bytes: m.pubkey.to_bytes() },
            is_signer: m.is_signer,
            is_writable: m.is_writable,
        }).collect(),
        data: ix.data,
    }
}

/// Relies on `spl_token_2022::instruction::transfer_checked` with the authority
/// as its one signer: it fails exactly when the program id is neither
/// spl-token's nor spl-token-2022's, and otherwise packs `TransferChecked`
/// (tag 12, the amount's little-endian bytes, the decimals) over the source,
/// mint, destination and authority accounts and the signer.
#[verifier::external_body]
fn transfer_checked_ix(
    token_program: &Address,
    source: &Address,
    mint: &Address,
    destination: &Address,
    authority: &Address,
    amount: u64,
    decimals: u8,
) -> (r: Option<InstructionParts>)
    ensures
        r is Some <==> is_token_program_id(token_program.bytes@),
        r is Some ==> is_transfer_ix(r->0, *token_program, *source, *mint, *destination, *authority, amount, decimals),
{
    let authority = Pubkey::new_from_array(authority.bytes);
    spl_token_2022::instruction::transfer_checked(
        &Pubkey::new_from_array(token_program.bytes),
        &Pubkey::new_from_array(source.bytes),
        &Pubkey::new_from_array(mint.bytes),
        &Pubkey::new_from_array(destination.bytes),
        &authority,
        &[&authority],
        amount,
        decimals,
    ).ok().map(parts_of)
}

/// Relies on `ComputeBudgetInstruction::set_compute_unit_limit`: the compute
/// budget program, no accounts, and the borsh encoding of variant 2 with the
/// limit.
#[verifier::external_body]
fn compute_unit_limit_ix(units: u32) -> (r: InstructionParts)
    ensures
        is_compute_limit_ix(r, units),
{
    parts_of(ComputeBudgetInstruction::set_compute_unit_limit(units))
}

/// Relies on `ComputeBudgetInstruction::set_compute_unit_price`: the compute
/// budget program, no accounts, and the borsh encoding of variant 3 with the
/// price.
#[verifier::external_body]
fn compute_unit_price_ix(micro_lamports: u64) -> (r: InstructionParts)
    ensures
        is_compute_price_ix(r, micro_lamports),
{
    parts_of(ComputeBudgetInstruction::set_compute_unit_price(micro_lamports))
}

/// The fee-budget instructions that open every transfer transaction: the
/// compute unit limit, then the compute unit price.
pub fn get_compute_budget_ixs(compute_unit_limit: u32, compute_unit_price: u64) -> (r: Vec<InstructionParts>)
    ensures
        r@.len() == 2,
        is_compute_limit_ix(r@[0], compute_unit_limit),
        is_compute_price_ix(r@[1], compute_unit_price),
{
    let mut ixs: Vec<InstructionParts> = Vec::new();
    ixs.push(compute_unit_limit_ix(compute_unit_limit));
    ixs.push(compute_unit_price_ix(compute_unit_price));
    ixs
}

impl WalletListEntry {
    /// The transfer of this entry's amount from `source_ata` to its destination,
    /// authorised and signed by `payer`; `None` when the entry has no
    /// destination yet or the program is not a token program.
    pub fn to_transfer_ix(
        &self,
        token_mint: &Address,
        token_program: &Address,
        token_decimals: u8,
        source_ata: &Address,
        payer: &Address,
    ) -> (r: Option<InstructionParts>)
        ensures
            r is Some <==> (self.ata is Some && is_token_program_id(token_program.bytes@)),
            r is Some ==> is_transfer_ix(
                r->0,
                *token_program,
                *source_ata,
                *token_mint,
                self.ata->0,
                *payer,
                self.amount_to_airdrop,
                token_decimals,
            ),
    {
        match &self.ata {
            Some(dest) => transfer_checked_ix(
                token_program,
                source_ata,
                token_mint,
                dest,
                payer,
                self.amount_to_airdrop,
                token_decimals,
            ),
            None => None,
        }
    }
}

impl WalletList {
    /// The instructions of the transaction for one batch: the compute unit
    /// limit and price, then one transfer per entry of the batch, in order, each
    /// of that entry's amount to its destination. `None` when an entry has no
    /// destination or the program is not a token program.
    pub fn batch_instructions(
        &self,
        batch: &TransferBatch,
        token_mint: &Address,
        token_program: &Address,
        token_decimals: u8,
        source_ata: &Address,
        payer: &Address,
        compute_unit_limit: u32,
        compute_unit_price: u64,
    ) -> (r: Option<Vec<InstructionParts>>)
        requires
            forall|t: int| 0 <= t < batch.indices@.len() ==> (#[trigger] batch.indices@[t]) < self.0@.len(),
        ensures
            r is Some <==> (batch.indices@.len() == 0 || is_token_program_id(token_program.bytes@)) && forall|t: int|
                0 <= t < batch.indices@.len() ==> (#[trigger] self.0@[batch.indices@[t] as int]).ata is Some,
            r is Some ==> r->0@.len() == 2 + batch.indices@.len(),
            r is Some ==> is_compute_limit_ix(r->0@[0], compute_unit_limit),
            r is Some ==> is_compute_price_ix(r->0@[1], compute_unit_price),
            r is Some ==> forall|t: int|
                0 <= t < batch.indices@.len() ==> is_transfer_ix(
                    #[trigger] r->0@[2 + t],
                    *token_program,
                    *source_ata,
                    *token_mint,
                    self.0@[batch.indices@[t] as int].ata->0,
                    *payer,
                    self.0@[batch.indices@[t] as int].amount_to_airdrop,
                    token_decimals,
                ),
    {
        let mut ixs = get_compute_budget_ixs(compute_unit_limit, compute_unit_price);
        let mut t: usize = 0;
        while t < batch.indices.len()
            invariant
                0 <= t <= batch.indices@.len(),
                ixs@.len() == 2 + t,
                is_compute_limit_ix(ixs@[0], compute_unit_limit),
                is_compute_price_ix(ixs@[1], compute_unit_price),
                forall|u: int| 0 <= u < batch.indices@.len() ==> (#[trigger] batch.indices@[u]) < self.0@.len(),
                forall|u: int| 0 <= u < t ==> (#[trigger] self.0@[batch.indices@[u] as int]).ata is Some,
                forall|u: int|
                    0 <= u < t ==> is_transfer_ix(
                        #[trigger] ixs@[2 + u],
                        *token_program,
                        *source_ata,
                        *token_mint,
                        self.0@[batch.indices@[u] as int].ata->0,
                        *payer,
                        self.0@[batch.indices@[u] as int].amount_to_airdrop,
                        token_decimals,
                    ),
                t > 0 ==> is_token_program_id(token_program.bytes@),
            decreases batch.indices@.len() - t,
        {
            let idx = batch.indices[t];
            match self.0[idx].to_transfer_ix(token_mint, token_program, token_decimals, source_ata, payer) {
                Some(ix) => ixs.push(ix),
                None => return None,
            }
            t = t + 1;
        }
        Some(ixs)
    }
}

} // verus!
