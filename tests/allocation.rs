use airdropper::allocation::allocate;
use airdropper::errors::Error;
use airdropper::keys::Address;
use airdropper::snapshot::{Snapshot, SnapshotEntry};
use airdropper::stage::WalletListArgs;
use airdropper::status::Status;

fn addr(n: u8) -> Address {
    Address { bytes: [n; 32] }
}

fn balances(items: &[(u8, u64)]) -> Vec<SnapshotEntry> {
    items
        .iter()
        .map(|(n, b)| SnapshotEntry { wallet_pubkey: addr(*n), token_balance_atomic: *b })
        .collect()
}

#[test]
fn allocation_proportional_shares() {
    let list = allocate(&balances(&[(1, 100), (2, 200), (3, 300)]), 60).unwrap();
    let amounts: Vec<u64> = list.0.iter().map(|e| e.amount_to_airdrop).collect();
    assert_eq!(amounts, vec![10, 20, 30]);
    assert_eq!(amounts.iter().sum::<u64>(), 60);
    for e in list.0.iter() {
        assert_eq!(e.status, Status::Unprocessed);
        assert_eq!(e.ata, None);
    }
    assert_eq!(list.0[2].wallet_pubkey, addr(3));
}

#[test]
fn allocation_rounding_dust_stays_unallocated() {
    let list = allocate(&balances(&[(1, 1), (2, 1), (3, 1)]), 100).unwrap();
    let amounts: Vec<u64> = list.0.iter().map(|e| e.amount_to_airdrop).collect();
    assert_eq!(amounts, vec![33, 33, 33]);
    assert!(amounts.iter().sum::<u64>() <= 100);
}

#[test]
fn allocation_zero_shares_are_dropped() {
    let list = allocate(&balances(&[(1, 1), (2, 999)]), 1).unwrap();
    assert!(list.0.is_empty());
}

#[test]
fn allocation_nonzero_shares_are_kept() {
    let list = allocate(&balances(&[(1, 1), (2, 999)]), 1000).unwrap();
    assert_eq!(list.0.len(), 2);
    assert_eq!(list.0[0].amount_to_airdrop, 1);
    assert_eq!(list.0[1].amount_to_airdrop, 999);
}

#[test]
fn allocation_only_zero_share_excluded() {
    let list = allocate(&balances(&[(1, 1), (2, 999)]), 2).unwrap();
    assert_eq!(list.0.len(), 1);
    assert_eq!(list.0[0].wallet_pubkey, addr(2));
    assert_eq!(list.0[0].amount_to_airdrop, 1);
}

#[test]
fn allocation_large_values_do_not_overflow() {
    let list = allocate(&balances(&[(1, u64::MAX), (2, u64::MAX)]), u64::MAX).unwrap();
    assert_eq!(list.0.len(), 2);
    assert_eq!(list.0[0].amount_to_airdrop, u64::MAX / 2);
    assert!(list.0.iter().map(|e| e.amount_to_airdrop as u128).sum::<u128>() <= u64::MAX as u128);
}

#[test]
fn allocation_empty_pool_is_an_error() {
    assert_eq!(allocate(&balances(&[(1, 0), (2, 0)]), 10).unwrap_err(), Error::EmptyPool);
    assert_eq!(allocate(&Vec::new(), 10).unwrap_err(), Error::EmptyPool);
}

#[test]
fn allocation_zero_total_gives_empty_list() {
    let list = allocate(&balances(&[(1, 5)]), 0).unwrap();
    assert!(list.0.is_empty());
}

#[test]
fn wallet_list_args_run_allocates() {
    let args = WalletListArgs {
        wallet_list_path: "list.csv".to_string(),
        amount_to_airdrop: 60,
        snapshot_path: "snap.csv".to_string(),
    };
    let snapshot = Snapshot(balances(&[(1, 100), (2, 200), (3, 300)]));
    let list = args.run(&snapshot).unwrap();
    assert_eq!(list.0.len(), 3);
    assert_eq!(list.0[1].amount_to_airdrop, 20);
    assert_eq!(args.run(&Snapshot(Vec::new())).unwrap_err(), Error::EmptyPool);
}
