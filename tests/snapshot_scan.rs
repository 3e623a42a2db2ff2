use airdropper::keys::Address;
use airdropper::snapshot::{Snapshot, SnapshotEntry};

fn slice(owner: u8, amount: u64) -> Vec<u8> {
    let mut v = vec![owner; 32];
    v.extend_from_slice(&amount.to_le_bytes());
    v
}

#[test]
fn snapshot_sums_accounts_per_owner() {
    let accounts = vec![slice(1, 5), slice(2, 300), slice(1, 7), slice(3, 1), vec![9; 10]];
    let snap = Snapshot::from_token_accounts(&accounts, 2, &vec![Address { bytes: [2; 32] }]);
    assert_eq!(snap.0, vec![SnapshotEntry { wallet_pubkey: Address { bytes: [1; 32] }, token_balance_atomic: 12 }]);
}

#[test]
fn snapshot_minimum_balance_zero_keeps_empty_accounts() {
    let accounts = vec![slice(4, 0), slice(5, 0x0102_0304_0506_0708)];
    let snap = Snapshot::from_token_accounts(&accounts, 0, &Vec::new());
    assert_eq!(snap.0.len(), 2);
    assert_eq!(snap.0[0].token_balance_atomic, 0);
    assert_eq!(snap.0[1].token_balance_atomic, 0x0102_0304_0506_0708);
}

#[test]
fn snapshot_sum_is_capped() {
    let accounts = vec![slice(1, u64::MAX), slice(1, 3)];
    let snap = Snapshot::from_token_accounts(&accounts, 0, &Vec::new());
    assert_eq!(snap.0[0].token_balance_atomic, u64::MAX);
}

#[test]
fn snapshot_minimum_applies_to_holder_sum() {
    let accounts = vec![slice(1, 5), slice(1, 5), slice(2, 9)];
    let snap = Snapshot::from_token_accounts(&accounts, 10, &Vec::new());
    assert_eq!(snap.0, vec![SnapshotEntry { wallet_pubkey: Address { bytes: [1; 32] }, token_balance_atomic: 10 }]);
}
