use airdropper::check::LookupChunk;
use airdropper::keys::{Address, SubmissionId};
use airdropper::send::TransferBatch;
use airdropper::stage::{ConfirmArgs, DisplayArgs, PipelineConfig, SendArgs, SendSource, StatusCounts};
use airdropper::errors::Error;
use airdropper::status::Status;
use airdropper::token::get_token_mint_info;
use airdropper::wallet_list::{WalletList, WalletListEntry};
use solana_program::program_option::COption;
use solana_program::program_pack::Pack;
use solana_program::pubkey::Pubkey;
use spl_token_2022::state::{Account, AccountState, Mint};

fn addr(n: u8) -> Address {
    Address { bytes: [n; 32] }
}

fn sig(n: u8) -> SubmissionId {
    SubmissionId { bytes: [n; 64] }
}

fn entry(n: u8, amount: u64, status: Status) -> WalletListEntry {
    WalletListEntry { wallet_pubkey: addr(n), amount_to_airdrop: amount, ata: None, status }
}

fn mint() -> Address {
    addr(200)
}

fn token_program() -> Address {
    Address { bytes: spl_token_2022::id().to_bytes() }
}

fn token_account_data() -> Vec<u8> {
    let acc = Account {
        mint: Pubkey::new_from_array(mint().bytes),
        owner: Pubkey::new_from_array([1; 32]),
        amount: 5,
        delegate: COption::None,
        state: AccountState::Initialized,
        is_native: COption::None,
        delegated_amount: 0,
        close_authority: COption::None,
    };
    let mut data = vec![0u8; Account::LEN];
    Account::pack(acc, &mut data).unwrap();
    data
}

fn unprocessed_list(n: u8) -> WalletList {
    WalletList((1..=n).map(|i| entry(i, 10, Status::Unprocessed)).collect())
}

#[test]
fn check_chunks_resolves_destinations() {
    let mut list = unprocessed_list(3);
    list.0[1].status = Status::Qualified;
    let chunks = list.check_chunks(&mint(), &token_program(), 100);
    assert_eq!(chunks.len(), 1);
    assert_eq!(chunks[0].indices, vec![0, 2]);
    let expected = spl_associated_token_account::get_associated_token_address_with_program_id(
        &Pubkey::new_from_array([1; 32]),
        &Pubkey::new_from_array(mint().bytes),
        &spl_token_2022::id(),
    );
    assert_eq!(chunks[0].destinations[0].bytes, expected.to_bytes());
    assert_ne!(chunks[0].destinations[0], addr(1));
    assert_eq!(list.0[0].ata, Some(chunks[0].destinations[0]));
    assert_eq!(list.0[1].ata, None);
}

#[test]
fn check_chunks_respects_chunk_size() {
    let mut list = unprocessed_list(5);
    let chunks = list.check_chunks(&mint(), &token_program(), 2);
    let sizes: Vec<usize> = chunks.iter().map(|c| c.indices.len()).collect();
    assert_eq!(sizes, vec![2, 2, 1]);
    assert_eq!(chunks[2].indices, vec![4]);
}

#[test]
fn check_chunks_keeps_cached_destination() {
    let mut list = unprocessed_list(1);
    list.0[0].ata = Some(addr(77));
    let chunks = list.check_chunks(&mint(), &token_program(), 10);
    assert_eq!(chunks[0].destinations, vec![addr(77)]);
    assert_eq!(list.0[0].ata, Some(addr(77)));
}

#[test]
fn check_result_classifies_each_entry() {
    let mut list = unprocessed_list(3);
    let chunks = list.check_chunks(&mint(), &token_program(), 10);
    let results = vec![Some(token_account_data()), None, Some(vec![1, 2, 3])];
    list.apply_check_result(&chunks[0], &Ok(results));
    assert_eq!(list.0[0].status, Status::Qualified);
    assert_eq!(list.0[1].status, Status::Disqualified);
    assert_eq!(list.0[2].status, Status::Disqualified);
}

#[test]
fn check_failure_fails_whole_chunk() {
    let mut list = unprocessed_list(4);
    let chunks = list.check_chunks(&mint(), &token_program(), 2);
    list.apply_check_result(&chunks[0], &Err("timeout".to_string()));
    assert_eq!(list.0[0].status, Status::Failed("timeout".to_string()));
    assert_eq!(list.0[1].status, Status::Failed("timeout".to_string()));
    assert_eq!(list.0[2].status, Status::Unprocessed);
    assert_eq!(list.0[3].status, Status::Unprocessed);
}

#[test]
fn check_always_failing_ends_excluded_after_four_attempts() {
    let mut list = unprocessed_list(5);
    let max = PipelineConfig::default().check_max_retry;
    assert_eq!(max, 4);
    let mut attempts = 0;
    loop {
        attempts += 1;
        let chunks = list.check_chunks(&mint(), &token_program(), 2);
        for chunk in chunks.iter() {
            list.apply_check_result(chunk, &Err("unreachable node".to_string()));
        }
        if !list.finish_check_attempt(attempts, max) {
            break;
        }
        assert!(attempts < max);
    }
    assert_eq!(attempts, 4);
    for e in list.0.iter() {
        assert_eq!(e.status, Status::Excluded("unreachable node".to_string()));
    }
    assert_eq!(list.count_failed(), 0);
}

#[test]
fn check_stops_early_when_nothing_failed() {
    let mut list = unprocessed_list(2);
    let chunks = list.check_chunks(&mint(), &token_program(), 10);
    list.apply_check_result(&chunks[0], &Ok(vec![Some(token_account_data()), None]));
    assert!(!list.finish_check_attempt(1, 4));
    assert_eq!(list.count_qualified(), 1);
}

#[test]
fn failed_entries_are_retried_before_last_attempt() {
    let mut list = WalletList(vec![entry(1, 1, Status::Failed("x".to_string()))]);
    assert!(list.finish_check_attempt(1, 4));
    assert_eq!(list.0[0].status, Status::Unprocessed);
}

#[test]
fn plan_transfers_groups_and_skips_payer() {
    let mut list = WalletList(vec![
        entry(1, 10, Status::Qualified),
        entry(2, 20, Status::Qualified),
        entry(3, 30, Status::Disqualified),
        entry(4, 40, Status::Qualified),
        entry(5, 50, Status::Qualified),
    ]);
    let batches = list.plan_transfers(&mint(), &token_program(), &addr(2), 2);
    assert_eq!(batches.len(), 2);
    assert_eq!(batches[0].indices, vec![0, 3]);
    assert_eq!(batches[0].amounts, vec![10, 40]);
    assert_eq!(batches[1].indices, vec![4]);
    assert_eq!(Some(batches[1].destinations[0]), list.0[4].ata);
    assert_eq!(list.0[1].ata, None);
}

#[test]
fn submission_failure_fails_all_five() {
    let mut list = WalletList((1..=5).map(|i| entry(i, 10, Status::Qualified)).collect());
    let batches = list.plan_transfers(&mint(), &token_program(), &addr(99), 18);
    assert_eq!(batches.len(), 1);
    assert_eq!(batches[0].indices.len(), 5);
    list.apply_submission(&batches[0], &Err("blockhash not found".to_string()));
    for e in list.0.iter() {
        assert_eq!(e.status, Status::Failed("blockhash not found".to_string()));
    }
}

#[test]
fn submission_success_shares_one_identifier() {
    let mut list = WalletList((1..=3).map(|i| entry(i, 10, Status::Qualified)).collect());
    let batches = list.plan_transfers(&mint(), &token_program(), &addr(99), 18);
    list.apply_submission(&batches[0], &Ok(sig(7)));
    for e in list.0.iter() {
        assert_eq!(e.status, Status::Unconfirmed(sig(7)));
    }
    assert_eq!(list.count_unconfirmed(), 3);
}

#[test]
fn confirm_resolves_whole_submission() {
    let mut list = WalletList(vec![
        entry(1, 1, Status::Unconfirmed(sig(1))),
        entry(2, 1, Status::Unconfirmed(sig(1))),
        entry(3, 1, Status::Unconfirmed(sig(2))),
        entry(4, 1, Status::Qualified),
    ]);
    assert_eq!(list.get_unconfirmed_sigs(), vec![sig(1), sig(2)]);
    let left = list.confirm(&vec![sig(1)]);
    assert_eq!(left, 1);
    assert_eq!(list.0[0].status, Status::Succeeded(sig(1)));
    assert_eq!(list.0[1].status, Status::Succeeded(sig(1)));
    assert_eq!(list.0[2].status, Status::Unconfirmed(sig(2)));
    assert_eq!(list.0[3].status, Status::Qualified);
}

#[test]
fn confirm_timeout_marks_ambiguous_failure() {
    let mut list = WalletList(vec![entry(1, 1, Status::Unconfirmed(sig(3)))]);
    assert!(list.finish_confirm_attempt(1, 3));
    assert!(list.finish_confirm_attempt(2, 3));
    assert!(!list.finish_confirm_attempt(3, 3));
    let expected = format!(
        "{}: Could not confirm transaction",
        solana_sdk::signature::Signature::from([3u8; 64])
    );
    assert_eq!(list.0[0].status, Status::Failed(expected));
}

#[test]
fn terminal_statuses_never_change() {
    let terminal = vec![
        entry(1, 1, Status::Succeeded(sig(1))),
        entry(2, 1, Status::Disqualified),
        entry(3, 1, Status::Excluded("gone".to_string())),
    ];
    let mut list = WalletList(terminal.clone());
    list.set_failed_to_unprocessed();
    list.set_failed_to_qualified();
    list.set_failed_to_excluded();
    list.set_unconfirmed_to_failed();
    let chunks = list.check_chunks(&mint(), &token_program(), 10);
    assert!(chunks.is_empty());
    let chunk = LookupChunk { indices: vec![0, 1, 2], destinations: vec![addr(9); 3] };
    list.apply_check_result(&chunk, &Err("boom".to_string()));
    list.apply_check_result(&chunk, &Ok(vec![Some(token_account_data()); 3]));
    let batches = list.plan_transfers(&mint(), &token_program(), &addr(99), 18);
    assert!(batches.is_empty());
    let batch = TransferBatch { indices: vec![0, 1, 2], destinations: vec![addr(9); 3], amounts: vec![1; 3] };
    list.apply_submission(&batch, &Err("boom".to_string()));
    list.apply_submission(&batch, &Ok(sig(5)));
    list.confirm(&vec![sig(1), sig(5)]);
    assert!(!list.finish_check_attempt(4, 4));
    assert!(!list.finish_confirm_attempt(3, 3));
    assert_eq!(list.0, terminal);
}

#[test]
fn count_each_status_counts() {
    let list = WalletList(vec![
        entry(1, 1, Status::Unprocessed),
        entry(2, 1, Status::Qualified),
        entry(3, 1, Status::Qualified),
        entry(4, 1, Status::Failed("e".to_string())),
        entry(5, 1, Status::Excluded("e".to_string())),
    ]);
    let counts = DisplayArgs { wallet_list_path: "l.csv".to_string() }.run(&list);
    assert_eq!(
        counts,
        StatusCounts { unprocessed: 1, disqualified: 0, qualified: 2, unconfirmed: 0, failed: 1, succeeded: 0, excluded: 1 }
    );
}

#[test]
fn confirm_stage_source() {
    let args = ConfirmArgs { wallet_list_path: "dir/list.csv".to_string() };
    assert_eq!(args.run(true, true).unwrap(), "dir/list.confirmed.csv");
    assert_eq!(args.run(false, true).unwrap(), "dir/list.sent.csv");
    assert_eq!(args.run(false, false).unwrap_err(), Error::StageNotReady);
    let bad = ConfirmArgs { wallet_list_path: "dir.v2/list".to_string() };
    assert_eq!(bad.run(true, true).unwrap_err(), Error::InvalidPath);
}

#[test]
fn mint_info_reads_decimals() {
    let m = Mint { decimals: 6, is_initialized: true, ..Default::default() };
    let mut data = vec![0u8; Mint::LEN];
    Mint::pack(m, &mut data).unwrap();
    assert_eq!(get_token_mint_info(&token_program(), &data).unwrap(), (token_program(), 6));
    assert_eq!(get_token_mint_info(&token_program(), &vec![0u8; 3]).unwrap_err(), Error::InvalidMint);
}

#[test]
fn send_stage_source() {
    let args = SendArgs {
        airdrop_token_mint_pubkey: mint(),
        payer_path: "payer.json".to_string(),
        wallet_list_path: "list.csv".to_string(),
        compute_unit_limit: 1_000_000,
        compute_unit_price: 1,
        should_confirm: false,
    };
    assert_eq!(args.source_stage(true, true).unwrap(), SendSource::Confirmed("list.confirmed.csv".to_string()));
    assert_eq!(args.source_stage(false, true).unwrap(), SendSource::Checked("list.checked.csv".to_string()));
    assert_eq!(args.source_stage(false, false).unwrap_err(), Error::StageNotReady);
    let bad = SendArgs { wallet_list_path: "list".to_string(), ..args };
    assert_eq!(bad.source_stage(true, true).unwrap_err(), Error::InvalidPath);
}

#[test]
fn batch_instructions_fee_pair_then_transfers() {
    let mut list = WalletList((1..=3).map(|i| entry(i, 10 * i as u64, Status::Qualified)).collect());
    let batches = list.plan_transfers(&mint(), &token_program(), &addr(99), 18);
    let ixs = list
        .batch_instructions(&batches[0], &mint(), &token_program(), 6, &addr(50), &addr(99), 1_000_000, 7)
        .unwrap();
    assert_eq!(ixs.len(), 5);
    let limit = solana_sdk::compute_budget::ComputeBudgetInstruction::set_compute_unit_limit(1_000_000);
    let price = solana_sdk::compute_budget::ComputeBudgetInstruction::set_compute_unit_price(7);
    assert_eq!(ixs[0].program_id.bytes, limit.program_id.to_bytes());
    assert_eq!(ixs[0].data, limit.data);
    assert!(ixs[0].accounts.is_empty());
    assert_eq!(ixs[1].data, price.data);
    assert_eq!(ixs[1].data, vec![3, 7, 0, 0, 0, 0, 0, 0, 0]);
    let expected = spl_token_2022::instruction::transfer_checked(
        &spl_token_2022::id(),
        &Pubkey::new_from_array([50; 32]),
        &Pubkey::new_from_array(mint().bytes),
        &Pubkey::new_from_array(list.0[2].ata.unwrap().bytes),
        &Pubkey::new_from_array([99; 32]),
        &[&Pubkey::new_from_array([99; 32])],
        30,
        6,
    )
    .unwrap();
    assert_eq!(ixs[4].program_id.bytes, expected.program_id.to_bytes());
    assert_eq!(ixs[4].data, expected.data);
    assert_eq!(ixs[4].data, vec![12, 30, 0, 0, 0, 0, 0, 0, 0, 6]);
    let accounts: Vec<([u8; 32], bool, bool)> =
        ixs[4].accounts.iter().map(|a| (a.address.bytes, a.is_signer, a.is_writable)).collect();
    let expected_accounts: Vec<([u8; 32], bool, bool)> =
        expected.accounts.iter().map(|m| (m.pubkey.to_bytes(), m.is_signer, m.is_writable)).collect();
    assert_eq!(accounts, expected_accounts);
    assert_eq!(ixs[3].accounts[2].address, list.0[1].ata.unwrap());
    assert!(list
        .batch_instructions(&batches[0], &mint(), &addr(7), 6, &addr(50), &addr(99), 1_000_000, 1)
        .is_none());
}

#[test]
fn requeue_keeps_unobserved_transfers_failed() {
    let mut list = WalletList(vec![
        entry(1, 1, Status::Unconfirmed(sig(3))),
        entry(2, 1, Status::Failed("blockhash not found".to_string())),
        entry(3, 1, Status::Succeeded(sig(4))),
    ]);
    list.set_unconfirmed_to_failed();
    list.requeue_failed_transfers();
    assert!(matches!(&list.0[0].status, Status::Failed(r) if r.ends_with(": Could not confirm transaction")));
    assert_eq!(list.0[1].status, Status::Qualified);
    assert_eq!(list.0[2].status, Status::Succeeded(sig(4)));
}

#[test]
fn associated_token_address_matches_derivation() {
    let got = airdropper::token::associated_token_address(&addr(99), &mint(), &token_program());
    let expected = spl_associated_token_account::get_associated_token_address_with_program_id(
        &Pubkey::new_from_array([99; 32]),
        &Pubkey::new_from_array(mint().bytes),
        &spl_token_2022::id(),
    );
    assert_eq!(got.bytes, expected.to_bytes());
    assert_ne!(got, addr(99));
}
