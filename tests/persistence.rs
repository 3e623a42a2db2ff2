use airdropper::errors::Error;
use airdropper::keys::{Address, SubmissionId};
use airdropper::naming::{add_to_filename, backup_path};
use airdropper::records::{CsvEntrySer, CsvListSerde};
use airdropper::snapshot::{Snapshot, SnapshotEntry, SnapshotEntryRaw};
use airdropper::status::Status;
use airdropper::wallet_list::{WalletList, WalletListEntry};
use solana_program::pubkey::Pubkey;

fn addr(n: u8) -> Address {
    Address { bytes: [n; 32] }
}

fn text(n: u8) -> String {
    Pubkey::new_from_array([n; 32]).to_string()
}

fn sig(n: u8) -> SubmissionId {
    SubmissionId { bytes: [n; 64] }
}

fn entry(n: u8, amount: u64, ata: Option<Address>, status: Status) -> WalletListEntry {
    WalletListEntry { wallet_pubkey: addr(n), amount_to_airdrop: amount, ata, status }
}

fn every_status_list() -> WalletList {
    WalletList(vec![
        entry(7, 70, Some(addr(107)), Status::Excluded("too many, failures".to_string())),
        entry(1, 10, None, Status::Unprocessed),
        entry(3, 30, Some(addr(103)), Status::Qualified),
        entry(2, 20, Some(addr(102)), Status::Disqualified),
        entry(4, 40, Some(addr(104)), Status::Unconfirmed(sig(4))),
        entry(6, 60, Some(addr(106)), Status::Succeeded(sig(6))),
        entry(5, 50, Some(addr(105)), Status::Failed("rpc \"error\"\nline two".to_string())),
        entry(8, 80, None, Status::Failed(String::new())),
    ])
}

#[test]
fn save_and_reload_round_trip() {
    let mut list = every_status_list();
    let saved = list.save_to_text().unwrap();
    let wallets: Vec<u8> = list.0.iter().map(|e| e.wallet_pubkey.bytes[0]).collect();
    assert_eq!(wallets, vec![1, 2, 3, 4, 5, 6, 7, 8]);
    let reloaded = WalletList::parse_list_from_text(&saved).unwrap();
    assert_eq!(reloaded.0, list.0);
    let mut again = reloaded;
    assert_eq!(again.save_to_text().unwrap(), saved);
}

#[test]
fn save_writes_fixed_field_order() {
    let mut list = WalletList(vec![entry(1, 10, None, Status::Unprocessed), entry(2, 5, Some(addr(3)), Status::Qualified)]);
    let saved = list.to_csv_text().unwrap();
    let expected = format!("{},10,,unprocessed,\n{},5,{},qualified,\n", text(1), text(2), text(3));
    assert_eq!(saved, expected);
}

#[test]
fn entry_record_fields() {
    let e = entry(4, 40, None, Status::Unconfirmed(sig(4)));
    let rec = e.to_record();
    let id_text = solana_sdk::signature::Signature::from([4u8; 64]).to_string();
    assert_eq!(rec, vec![text(4), "40".to_string(), String::new(), "unconfirmed".to_string(), id_text]);
}

#[test]
fn parse_initial_two_column_list() {
    let data = format!("{},100\n{},5\n", text(9), text(2));
    let list = WalletList::from_csv_text(&data).unwrap();
    assert_eq!(list.0.len(), 2);
    assert_eq!(list.0[0], entry(2, 5, None, Status::Unprocessed));
    assert_eq!(list.0[1], entry(9, 100, None, Status::Unprocessed));
}

#[test]
fn parse_malformed_destination_reads_as_none() {
    let data = format!("{},100,not-a-key,qualified,\n", text(1));
    let list = WalletList::from_csv_text(&data).unwrap();
    assert_eq!(list.0[0].ata, None);
    assert_eq!(list.0[0].status, Status::Qualified);
}

#[test]
fn parse_bad_address_is_an_error() {
    let data = "zz-not-a-key,100\n".to_string();
    assert_eq!(
        WalletList::from_csv_text(&data).unwrap_err(),
        Error::InvalidAddress("zz-not-a-key".to_string())
    );
}

#[test]
fn parse_bad_amount_is_an_error() {
    let data = format!("{},-3\n", text(1));
    assert_eq!(WalletList::from_csv_text(&data).unwrap_err(), Error::InvalidAmount("-3".to_string()));
    let data = format!("{},18446744073709551616\n", text(1));
    assert!(matches!(WalletList::from_csv_text(&data), Err(Error::InvalidAmount(_))));
}

#[test]
fn parse_bad_status_is_an_error() {
    let data = format!("{},1,,paid,\n", text(1));
    assert_eq!(WalletList::from_csv_text(&data).unwrap_err(), Error::InvalidStatus("paid".to_string()));
    let data = format!("{},1,,qualified,extra\n", text(1));
    assert!(matches!(WalletList::from_csv_text(&data), Err(Error::InvalidStatus(_))));
    let data = format!("{},1,,succeeded,\n", text(1));
    assert!(matches!(WalletList::from_csv_text(&data), Err(Error::InvalidStatus(_))));
}

#[test]
fn parse_wrong_field_count_is_an_error() {
    let data = format!("{}\n", text(1));
    assert_eq!(WalletList::from_csv_text(&data).unwrap_err(), Error::InvalidRecord);
}

#[test]
fn parse_ragged_csv_is_an_error() {
    let data = format!("{},1\n{},2,,qualified,\n", text(1), text(2));
    assert_eq!(WalletList::from_csv_text(&data).unwrap_err(), Error::Csv);
}

#[test]
fn status_record_round_trip() {
    let all = vec![
        Status::Unprocessed,
        Status::Disqualified,
        Status::Qualified,
        Status::Unconfirmed(sig(1)),
        Status::Failed("f".to_string()),
        Status::Succeeded(sig(2)),
        Status::Excluded("x".to_string()),
    ];
    for s in all {
        let (tag, payload) = s.to_record();
        assert_eq!(Status::try_from_raw(&tag, payload).unwrap(), s);
    }
    assert_eq!(Status::try_from_raw("", None).unwrap(), Status::Unprocessed);
}

#[test]
fn snapshot_round_trip() {
    let mut snap = Snapshot(vec![
        SnapshotEntry { wallet_pubkey: addr(3), token_balance_atomic: 7 },
        SnapshotEntry { wallet_pubkey: addr(1), token_balance_atomic: u64::MAX },
    ]);
    let text_out = snap.to_csv_text().unwrap();
    assert_eq!(text_out, format!("{},{}\n{},7\n", text(1), u64::MAX, text(3)));
    assert_eq!(snap.0[0].wallet_pubkey, addr(1));
    let back = Snapshot::from_csv_text(&text_out).unwrap();
    assert_eq!(back.0, snap.0);
    let unsorted = format!("{},7\n{},9\n", text(3), text(1));
    let read = Snapshot::parse_list_from_text(&unsorted).unwrap();
    assert_eq!(read.0[0], SnapshotEntry { wallet_pubkey: addr(1), token_balance_atomic: 9 });
}

#[test]
fn snapshot_raw_rows() {
    let rec = vec![text(5), "12".to_string()];
    let raw = SnapshotEntryRaw::from_record(&rec).unwrap();
    assert_eq!(raw, SnapshotEntryRaw { wallet_pubkey: text(5), token_balance_atomic: 12 });
    assert_eq!(SnapshotEntry::try_from_raw(raw).unwrap(), SnapshotEntry { wallet_pubkey: addr(5), token_balance_atomic: 12 });
    let bad = SnapshotEntryRaw { wallet_pubkey: "0OIl".to_string(), token_balance_atomic: 1 };
    assert!(matches!(SnapshotEntry::try_from_raw(bad), Err(Error::InvalidAddress(_))));
    assert_eq!(SnapshotEntryRaw::from_record(&vec![text(5)]).unwrap_err(), Error::InvalidRecord);
}

#[test]
fn add_to_filename_inserts_before_extension() {
    assert_eq!(add_to_filename("dir/wallet-list.csv", "checked").unwrap(), "dir/wallet-list.checked.csv");
    assert_eq!(add_to_filename("a.b.csv", "0").unwrap(), "a.b.0.csv");
    assert_eq!(add_to_filename("dir.x/list", "sent"), None);
    assert_eq!(add_to_filename(".hidden", "sent"), None);
}

#[test]
fn backup_takes_lowest_unused_suffix() {
    let taken = vec!["list.checked.0.csv".to_string(), "list.checked.csv".to_string()];
    assert_eq!(backup_path("list.checked.csv", &taken).unwrap(), "list.checked.1.csv");
    let taken = vec!["list.checked.1.csv".to_string()];
    assert_eq!(backup_path("list.checked.csv", &taken).unwrap(), "list.checked.0.csv");
    let taken = vec!["w.0.csv".to_string(), "w.1.csv".to_string(), "w.2.csv".to_string()];
    assert_eq!(backup_path("w.csv", &taken).unwrap(), "w.3.csv");
    assert_eq!(backup_path("noext", &Vec::new()), None);
}

#[test]
fn parse_reports_first_malformed_record() {
    let data = format!("{},1\n{},x\nbad-key,2\n", text(1), text(2));
    assert_eq!(WalletList::from_csv_text(&data).unwrap_err(), Error::InvalidAmount("x".to_string()));
    assert_eq!(Snapshot::from_csv_text(&data).unwrap_err(), Error::InvalidAmount("x".to_string()));
}
