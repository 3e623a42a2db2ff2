use crate::errors::Error;
use crate::keys::{
    address_of_text, address_text, parse_address, parse_submission_id, submission_id_of_text,
    submission_id_text, text_of_address, text_of_submission_id, Address,
};
use crate::snapshot::{Snapshot, SnapshotEntry, SnapshotEntryRaw};
use crate::status::Status;
use crate::text::{decimal_text, lemma_u64_text_round_trip, parse_u64, text_eq, u64_of_text, u64_text};
use crate::wallet_list::{WalletList, WalletListEntry};
use vstd::prelude::*;

verus! {

/// The texts of the fields of `rec`.
pub open spec fn record_view(rec: Seq<String>) -> Seq<Seq<char>> {
    rec.map_values(|f: String| f@)
}

/// Field `k` of `rec`; a missing field reads as empty.
pub open spec fn field(rec: Seq<Seq<char>>, k: int) -> Seq<char> {
    if k < rec.len() { rec[k] } else { Seq::empty() }
}

/// The tag that a status is stored under; an empty tag reads as `unprocessed`.
pub open spec fn effective_tag(tag: Seq<char>) -> Seq<char> {
    if tag.len() == 0 { "unprocessed"@ } else { tag }
}

/// The tag that the status `s` is stored under.
pub open spec fn status_tag(s: Status) -> Seq<char> {
    match s {
        Status::Unprocessed => "unprocessed"@,
        Status::Disqualified => "disqualified"@,
        Status::Qualified => "qualified"@,
        Status::Unconfirmed(_) => "unconfirmed"@,
        Status::Failed(_) => "failed"@,
        Status::Succeeded(_) => "succeeded"@,
        Status::Excluded(_) => "excluded"@,
    }
}

/// The payload that the status `s` is stored with: its identifier's text, its
/// reason, or nothing.
pub open spec fn status_payload(s: Status) -> Seq<char> {
    match s {
        Status::Unconfirmed(id) => text_of_submission_id(id.bytes@),
        Status::Succeeded(id) => text_of_submission_id(id.bytes@),
        Status::Failed(reason) => reason@,
        Status::Excluded(reason) => reason@,
        _ => Seq::empty(),
    }
}

/// The record that the entry `e` is stored as: holder address, amount,
/// destination (or nothing), status tag, status payload (or nothing).
pub open spec fn entry_record(e: WalletListEntry) -> Seq<Seq<char>> {
    seq![
        text_of_address(e.wallet_pubkey.bytes@),
        decimal_text(e.amount_to_airdrop as nat),
        match e.ata { Some(a) => text_of_address(a.bytes@), None => Seq::empty() },
        status_tag(e.status),
        status_payload(e.status),
    ]
}

/// The stored tag and payload `(tag, payload)` denote the status `s`.
pub open spec fn status_denotes(tag: Seq<char>, payload: Seq<char>, s: Status) -> bool {
    let t = effective_tag(tag);
    match s {
        Status::Unprocessed => t == "unprocessed"@ && payload.len() == 0,
        Status::Disqualified => t == "disqualified"@ && payload.len() == 0,
        Status::Qualified => t == "qualified"@ && payload.len() == 0,
        Status::Unconfirmed(id) => t == "unconfirmed"@ && submission_id_of_text(payload) == Some(id.bytes@),
        Status::Failed(reason) => t == "failed"@ && reason@ == payload,
        Status::Succeeded(id) => t == "succeeded"@ && submission_id_of_text(payload) == Some(id.bytes@),
        Status::Excluded(reason) => t == "excluded"@ && reason@ == payload,
    }
}

/// The stored tag and payload denote some status: a known tag, with no payload
/// where the status carries none, and a valid identifier where it carries one.
pub open spec fn status_valid(tag: Seq<char>, payload: Seq<char>) -> bool {
    let t = effective_tag(tag);
    ||| (t == "unprocessed"@ || t == "disqualified"@ || t == "qualified"@) && payload.len() == 0
    ||| (t == "unconfirmed"@ || t == "succeeded"@) && submission_id_of_text(payload) is Some
    ||| t == "failed"@ || t == "excluded"@
}

/// The stored destination field denotes `ata`: an empty or malformed field
/// denotes none, so that the destination is derived again.
pub open spec fn ata_denotes(f: Seq<char>, ata: Option<Address>) -> bool {
    if f.len() == 0 {
        ata is None
    } else {
        match address_of_text(f) {
            Some(b) => ata is Some && ata->0.bytes@ == b,
            None => ata is None,
        }
    }
}

/// The record `rec` is well formed: two to five fields, a valid holder address,
/// a decimal amount and a valid status.
pub open spec fn record_valid(rec: Seq<Seq<char>>) -> bool {
    &&& 2 <= rec.len() <= 5
    &&& address_of_text(rec[0]) is Some
    &&& u64_of_text(rec[1]) is Some
    &&& status_valid(field(rec, 3), field(rec, 4))
}

/// The record `rec` is well formed and denotes the entry `e`.
pub open spec fn record_denotes(rec: Seq<Seq<char>>, e: WalletListEntry) -> bool {
    &&& record_valid(rec)
    &&& address_of_text(rec[0]) == Some(e.wallet_pubkey.bytes@)
    &&& u64_of_text(rec[1]) == Some(e.amount_to_airdrop)
    &&& ata_denotes(field(rec, 2), e.ata)
    &&& status_denotes(field(rec, 3), field(rec, 4), e.status)
}

/// `a` and `b` hold the same recipient data: same addresses, amount, and status,
/// reasons compared by their text.
pub open spec fn same_entry(a: WalletListEntry, b: WalletListEntry) -> bool {
    &&& a.wallet_pubkey.bytes@ == b.wallet_pubkey.bytes@
    &&& a.amount_to_airdrop == b.amount_to_airdrop
    &&& (a.ata is Some <==> b.ata is Some)
    &&& (a.ata is Some ==> a.ata->0.bytes@ == b.ata->0.bytes@)
    &&& match (a.status, b.status) {
        (Status::Unprocessed, Status::Unprocessed) => true,
        (Status::Disqualified, Status::Disqualified) => true,
        (Status::Qualified, Status::Qualified) => true,
        (Status::Unconfirmed(x), Status::Unconfirmed(y)) => x.bytes@ == y.bytes@,
        (Status::Succeeded(x), Status::Succeeded(y)) => x.bytes@ == y.bytes@,
        (Status::Failed(x), Status::Failed(y)) => x@ == y@,
        (Status::Excluded(x), Status::Excluded(y)) => x@ == y@,
        _ => false,
    }
}

/// `e` is the error that reading the malformed record `rec` reports: the
/// first malformed part, in the order field count, address, amount, status.
pub open spec fn record_error(rec: Seq<Seq<char>>, e: Error) -> bool {
    if !(2 <= rec.len() <= 5) {
        e == Error::InvalidRecord
    } else if address_of_text(rec[0]) is None {
        e is InvalidAddress && e->InvalidAddress_0@ == rec[0]
    } else if u64_of_text(rec[1]) is None {
        e is InvalidAmount && e->InvalidAmount_0@ == rec[1]
    } else {
        e is InvalidStatus && e->InvalidStatus_0@ == field(rec, 3)
    }
}

/// `e` is the error that reading the malformed snapshot record `rec` reports:
/// the first malformed part, in the order field count, balance, address.
pub open spec fn snapshot_record_error(rec: Seq<Seq<char>>, e: Error) -> bool {
    if rec.len() != 2 {
        e == Error::InvalidRecord
    } else if u64_of_text(rec[1]) is None {
        e is InvalidAmount && e->InvalidAmount_0@ == rec[1]
    } else {
        e is InvalidAddress && e->InvalidAddress_0@ == rec[0]
    }
}

/// The place of the first malformed record of `rows` (their count if none is).
pub open spec fn first_invalid(rows: Seq<Seq<Seq<char>>>) -> nat
    decreases rows.len(),
{
    if rows.len() == 0 || !record_valid(rows[0]) { 0 } else { 1 + first_invalid(rows.drop_first()) }
}

/// The place of the first malformed snapshot record of `rows` (their count if
/// none is).
pub open spec fn first_invalid_snapshot(rows: Seq<Seq<Seq<char>>>) -> nat
    decreases rows.len(),
{
    if rows.len() == 0 || !snapshot_record_valid(rows[0]) { 0 } else { 1 + first_invalid_snapshot(rows.drop_first()) }
}

proof fn lemma_first_invalid(rows: Seq<Seq<Seq<char>>>, k: int)
    requires
        0 <= k < rows.len(),
        forall|m: int| 0 <= m < k ==> record_valid(#[trigger] rows[m]),
        !record_valid(rows[k]),
    ensures
        first_invalid(rows) == k,
    decreases k,
{
    if k > 0 {
        let rest = rows.drop_first();
        assert forall|m: int| 0 <= m < k - 1 implies record_valid(#[trigger] rest[m]) by {
            assert(rest[m] == rows[m + 1]);
        }
        assert(rest[k - 1] == rows[k]);
        assert(record_valid(rows[0]));
        lemma_first_invalid(rest, k - 1);
    }
}

proof fn lemma_first_invalid_snapshot(rows: Seq<Seq<Seq<char>>>, k: int)
    requires
        0 <= k < rows.len(),
        forall|m: int| 0 <= m < k ==> snapshot_record_valid(#[trigger] rows[m]),
        !snapshot_record_valid(rows[k]),
    ensures
        first_invalid_snapshot(rows) == k,
    decreases k,
{
    if k > 0 {
        let rest = rows.drop_first();
        assert forall|m: int| 0 <= m < k - 1 implies snapshot_record_valid(#[trigger] rest[m]) by {
            assert(rest[m] == rows[m + 1]);
        }
        assert(rest[k - 1] == rows[k]);
        assert(snapshot_record_valid(rows[0]));
        lemma_first_invalid_snapshot(rest, k - 1);
    }
}

/// A record denotes one entry only: reading back what was written gives the
/// same recipient data, for every status, payload-bearing ones included.
pub proof fn lemma_record_round_trip(rec: Seq<Seq<char>>, written: WalletListEntry, read: WalletListEntry)
    requires
        record_denotes(rec, written),
        record_denotes(rec, read),
    ensures
        same_entry(written, read),
{
    reveal_strlit("unprocessed");
    reveal_strlit("disqualified");
    reveal_strlit("qualified");
    reveal_strlit("unconfirmed");
    reveal_strlit("failed");
    reveal_strlit("succeeded");
    reveal_strlit("excluded");
    assert("unprocessed"@[2] != "unconfirmed"@[2]);
    assert("qualified"@[0] != "succeeded"@[0]);
}

impl Status {
    /// The tag and payload that the status is stored as.
    pub fn to_record(&self) -> (r: (String, Option<String>))
        ensures
            status_denotes(r.0@, match r.1 { Some(p) => p@, None => Seq::empty() }, *self),
            r.0@ == status_tag(*self),
            (match r.1 { Some(p) => p@, None => Seq::empty() }) == status_payload(*self),
    {
        proof {
            reveal_strlit("unprocessed");
            reveal_strlit("disqualified");
            reveal_strlit("qualified");
            reveal_strlit("unconfirmed");
            reveal_strlit("failed");
            reveal_strlit("succeeded");
            reveal_strlit("excluded");
        }
        match self {
            Status::Unprocessed => (String::from_str("unprocessed"), None),
            Status::Disqualified => (String::from_str("disqualified"), None),
            Status::Qualified => (String::from_str("qualified"), None),
            Status::Unconfirmed(id) => (String::from_str("unconfirmed"), Some(submission_id_text(id))),
            Status::Failed(reason) => (String::from_str("failed"), Some(reason.clone())),
            Status::Succeeded(id) => (String::from_str("succeeded"), Some(submission_id_text(id))),
            Status::Excluded(reason) => (String::from_str("excluded"), Some(reason.clone())),
        }
    }

    /// The status that a stored tag and payload denote (an empty tag reads as
    /// `unprocessed`); `InvalidStatus` when they denote none.
    pub fn try_from_raw(value: &str, inner_value: Option<String>) -> (r: Result<Status, Error>)
        ensures
            ({
                let payload = match inner_value { Some(p) => p@, None => Seq::empty() };
                &&& (r is Ok <==> status_valid(value@, payload))
                &&& (r is Ok ==> status_denotes(value@, payload, r->Ok_0))
                &&& (r is Err ==> r->Err_0 is InvalidStatus && r->Err_0->InvalidStatus_0@ == value@)
            }),
    {
        let ghost payload = match &inner_value { Some(p) => p@, None => Seq::<char>::empty() };
        let tag: &str = if value.unicode_len() == 0 { "unprocessed" } else { value };
        assert(tag@ == effective_tag(value@));
        let has_payload = match &inner_value {
            Some(p) => p.unicode_len() > 0,
            None => false,
        };
        assert(has_payload == (payload.len() > 0));
        if text_eq(tag, "unprocessed") && !has_payload {
            return Ok(Status::Unprocessed);
        }
        if text_eq(tag, "disqualified") && !has_payload {
            return Ok(Status::Disqualified);
        }
        if text_eq(tag, "qualified") && !has_payload {
            return Ok(Status::Qualified);
        }
        let text = match inner_value {
            Some(p) => p,
            None => String::new(),
        };
        assert(text@ == payload);
        if text_eq(tag, "failed") {
            return Ok(Status::Failed(text));
        }
        if text_eq(tag, "excluded") {
            return Ok(Status::Excluded(text));
        }
        if text_eq(tag, "unconfirmed") {
            return match parse_submission_id(text.as_str()) {
                Some(id) => Ok(Status::Unconfirmed(id)),
                None => Err(Error::InvalidStatus(String::from_str(value))),
            };
        }
        if text_eq(tag, "succeeded") {
            return match parse_submission_id(text.as_str()) {
                Some(id) => Ok(Status::Succeeded(id)),
                None => Err(Error::InvalidStatus(String::from_str(value))),
            };
        }
        Err(Error::InvalidStatus(String::from_str(value)))
    }
}

/// The records that `text` holds as CSV (no header row), if it is well formed.
pub uninterp spec fn csv_records_of(text: Seq<char>) -> Option<Seq<Seq<Seq<char>>>>;

/// The CSV line (with its terminator) that writes the fields `fields`.
pub uninterp spec fn csv_line_of(fields: Seq<Seq<char>>) -> Option<Seq<char>>;

/// The views of the rows `rows`.
pub open spec fn rows_view(rows: Seq<Vec<String>>) -> Seq<Seq<Seq<char>>> {
    rows.map_values(|row: Vec<String>| record_view(row@))
}

/// Relies on `csv::Reader::records` (no header row, every record with the same
/// number of fields): the records depend on the text alone.
#[verifier::external_body]
pub(crate) fn read_csv_records(text: &str) -> (r: Option<Vec<Vec<String>>>)
    ensures
        match r {
            Some(rows) => csv_records_of(text@) == Some(rows_view(rows@)),
            None => csv_records_of(text@) is None,
        },
{
    let mut rdr = csv::ReaderBuilder::new().has_headers(false).from_reader(text.as_bytes());
    rdr.records()
        .map(|rec| rec.map(|fields| fields.iter().map(String::from).collect()))
        .collect::<Result<Vec<Vec<String>>, csv::Error>>()
        .ok()
}

/// Relies on `csv::Writer::write_record`: the line written for the fields
/// depends on the fields alone.
#[verifier::external_body]
pub(crate) fn write_csv_line(fields: &Vec<String>) -> (r: Option<String>)
    ensures
        match r {
            Some(line) => csv_line_of(record_view(fields@)) == Some(line@),
            None => csv_line_of(record_view(fields@)) is None,
        },
{
    let mut wtr = csv::Writer::from_writer(Vec::new());
    wtr.write_record(fields).ok()?;
    String::from_utf8(wtr.into_inner().ok()?).ok()
}

/// A serialisable entry of a list.
pub trait CsvEntrySer {
    /// The record `rec` is well formed and stands for `self`.
    spec fn denoted_by(&self, rec: Seq<Seq<char>>) -> bool;

    /// The record that the entry is stored as.
    fn to_record(&self) -> (r: Vec<String>)
        ensures
            self.denoted_by(record_view(r@)),
    ;
}

impl CsvEntrySer for WalletListEntry {
    open spec fn denoted_by(&self, rec: Seq<Seq<char>>) -> bool {
        rec == entry_record(*self) && record_denotes(rec, *self)
    }

    fn to_record(&self) -> (r: Vec<String>) {
        let (tag, payload) = self.status.to_record();
        let mut rec: Vec<String> = Vec::new();
        rec.push(address_text(&self.wallet_pubkey));
        let amount = u64_text(self.amount_to_airdrop);
        proof {
            lemma_u64_text_round_trip(self.amount_to_airdrop);
        }
        rec.push(amount);
        match &self.ata {
            Some(a) => rec.push(address_text(a)),
            None => rec.push(String::new()),
        }
        rec.push(tag);
        match payload {
            Some(p) => rec.push(p),
            None => rec.push(String::new()),
        }
        assert(record_view(rec@) =~= entry_record(*self));
        rec
    }
}

impl WalletListEntry {
    /// The entry that a stored record denotes. Fails with `InvalidRecord` unless
    /// it has two to five fields, then with `InvalidAddress`, `InvalidAmount` or
    /// `InvalidStatus` on the first field in that order that is malformed. A
    /// malformed destination is read as none, so that it is derived again.
    pub fn from_record(rec: &Vec<String>) -> (r: Result<WalletListEntry, Error>)
        ensures
            (r is Ok <==> record_valid(record_view(rec@))),
            r is Ok ==> record_denotes(record_view(rec@), r->Ok_0),
            r is Err ==> record_error(record_view(rec@), r->Err_0),
            !(2 <= rec@.len() <= 5) ==> r is Err && r->Err_0 is InvalidRecord,
            2 <= rec@.len() <= 5 && address_of_text(rec@[0]@) is None ==> r is Err && r->Err_0 is InvalidAddress,
            2 <= rec@.len() <= 5 && address_of_text(rec@[0]@) is Some && u64_of_text(rec@[1]@) is None
                ==> r is Err && r->Err_0 is InvalidAmount,
            2 <= rec@.len() <= 5 && address_of_text(rec@[0]@) is Some && u64_of_text(rec@[1]@) is Some
                && !status_valid(field(record_view(rec@), 3), field(record_view(rec@), 4))
                ==> r is Err && r->Err_0 is InvalidStatus,
    {
        let ghost v = record_view(rec@);
        let n = rec.len();
        if n < 2 || n > 5 {
            return Err(Error::InvalidRecord);
        }
        let wallet_pubkey = match parse_address(rec[0].as_str()) {
            Some(a) => a,
            None => return Err(Error::InvalidAddress(rec[0].clone())),
        };
        let amount_to_airdrop = match parse_u64(rec[1].as_str()) {
            Some(a) => a,
            None => return Err(Error::InvalidAmount(rec[1].clone())),
        };
        let ata = if n > 2 && rec[2].unicode_len() > 0 {
            parse_address(rec[2].as_str())
        } else {
            None
        };
        assert(ata_denotes(field(v, 2), ata));
        let tag = if n > 3 { rec[3].clone() } else { String::new() };
        let payload = if n > 4 && rec[4].unicode_len() > 0 { Some(rec[4].clone()) } else { None };
        assert(tag@ == field(v, 3));
        assert((match payload { Some(p) => p@, None => Seq::<char>::empty() }) =~= field(v, 4));
        let status = match Status::try_from_raw(tag.as_str(), payload) {
            Ok(s) => s,
            Err(e) => return Err(e),
        };
        Ok(WalletListEntry { wallet_pubkey, amount_to_airdrop, ata, status })
    }
}

/// `a` comes before or equals `b` in lexicographic byte order.
pub open spec fn bytes_le(a: Seq<u8>, b: Seq<u8>) -> bool
    decreases a.len(),
{
    if a.len() == 0 {
        true
    } else if b.len() == 0 {
        false
    } else if a[0] != b[0] {
        a[0] < b[0]
    } else {
        bytes_le(a.drop_first(), b.drop_first())
    }
}

/// An entry keyed by a holder address.
pub trait HasAddress {
    /// The address bytes of the entry.
    spec fn address_spec(&self) -> Seq<u8>;

    /// The address bytes of the entry.
    fn address_key(&self) -> (r: [u8; 32])
        ensures
            r@ == self.address_spec(),
    ;
}

impl HasAddress for WalletListEntry {
    open spec fn address_spec(&self) -> Seq<u8> {
        self.wallet_pubkey.bytes@
    }

    fn address_key(&self) -> (r: [u8; 32]) {
        self.wallet_pubkey.bytes
    }
}

impl HasAddress for SnapshotEntry {
    open spec fn address_spec(&self) -> Seq<u8> {
        self.wallet_pubkey.bytes@
    }

    fn address_key(&self) -> (r: [u8; 32]) {
        self.wallet_pubkey.bytes
    }
}

/// The entries of `s` are in increasing order of holder address.
pub open spec fn sorted_by_address<T: HasAddress>(s: Seq<T>) -> bool {
    forall|i: int, j: int| 0 <= i < j < s.len() ==> bytes_le(s[i].address_spec(), s[j].address_spec())
}

/// Relies on `slice::sort_by_key`, keyed on the address bytes: a stable sort in
/// the arrays' lexicographic order, so a sorted list stays as it is.
#[verifier::external_body]
pub(crate) fn sort_by_address<T: HasAddress>(v: &mut Vec<T>)
    ensures
        final(v)@.to_multiset() == old(v)@.to_multiset(),
        sorted_by_address(final(v)@),
        sorted_by_address(old(v)@) ==> final(v)@ == old(v)@,
{
    v.sort_by_key(|e| e.address_key());
}

/// The records of `s`, as stored.
pub open spec fn list_records(s: Seq<WalletListEntry>) -> Seq<Seq<Seq<char>>> {
    s.map_values(|e: WalletListEntry| entry_record(e))
}

/// Every record of `rows` is written as a CSV line; `lines` are those lines.
pub open spec fn lines_of(rows: Seq<Seq<Seq<char>>>, lines: Seq<Seq<char>>) -> bool {
    &&& lines.len() == rows.len()
    &&& forall|k: int| 0 <= k < rows.len() ==> csv_line_of(#[trigger] rows[k]) == Some(lines[k])
}

/// A list that can be read from and written to CSV text.
pub trait CsvListSerde: Sized {
    /// Reads the list from CSV text.
    fn parse_list_from_text(text: &str) -> Result<Self, Error>;

    /// Sorts the list by holder address and writes it as CSV text.
    fn save_to_text(&mut self) -> Result<String, Error>;
}

impl WalletList {
    /// Reads a list from CSV text: one record per entry, parsed as
    /// `WalletListEntry::from_record` does, then sorted by holder address.
    /// Fails with `Csv` when the text is not well-formed CSV, and with the
    /// error of the first malformed record otherwise.
    pub fn from_csv_text(text: &str) -> (r: Result<WalletList, Error>)
        ensures
            csv_records_of(text@) is None ==> r == Err::<WalletList, Error>(Error::Csv),
            r is Ok <==> (csv_records_of(text@) is Some && forall|k: int|
                0 <= k < csv_records_of(text@)->0.len() ==> record_valid(
                    #[trigger] csv_records_of(text@)->0[k],
                )),
            r is Ok ==> sorted_by_address(r->Ok_0.0@),
            csv_records_of(text@) is Some && r is Err ==> record_error(
                csv_records_of(text@)->0[first_invalid(csv_records_of(text@)->0) as int],
                r->Err_0,
            ),
            r is Ok ==> exists|parsed: Seq<WalletListEntry>| {
                &&& parsed.len() == csv_records_of(text@)->0.len()
                &&& (forall|k: int|
                    0 <= k < parsed.len() ==> record_denotes(
                        csv_records_of(text@)->0[k],
                        #[trigger] parsed[k],
                    ))
                &&& r->Ok_0.0@.to_multiset() == #[trigger] parsed.to_multiset()
            },
    {
        let rows = match read_csv_records(text) {
            Some(rows) => rows,
            None => return Err(Error::Csv),
        };
        let ghost views = rows_view(rows@);
        let mut out: Vec<WalletListEntry> = Vec::new();
        let mut k: usize = 0;
        while k < rows.len()
            invariant
                0 <= k <= rows@.len(),
                views == rows_view(rows@),
                csv_records_of(text@) == Some(views),
                out@.len() == k,
                forall|m: int| 0 <= m < k ==> record_valid(#[trigger] views[m]),
                forall|m: int| 0 <= m < k ==> record_denotes(views[m], #[trigger] out@[m]),
            decreases rows@.len() - k,
        {
            assert(views[k as int] == record_view(rows@[k as int]@));
            match WalletListEntry::from_record(&rows[k]) {
                Ok(e) => out.push(e),
                Err(e) => {
                    assert(!record_valid(views[k as int]));
                    assert(csv_records_of(text@)->0[k as int] == views[k as int]);
                    assert(record_error(csv_records_of(text@)->0[k as int], e));
                    proof {
                        lemma_first_invalid(views, k as int);
                    }
                    return Err(e);
                },
            }
            k = k + 1;
        }
        let ghost parsed = out@;
        sort_by_address(&mut out);
        assert(parsed.len() == views.len());
        Ok(WalletList(out))
    }

    /// Sorts the list by holder address, then writes it as CSV text: one line per
    /// entry, each entry's record as `entry_record` gives it. Fails with `Csv`
    /// when a record cannot be written.
    pub fn to_csv_text(&mut self) -> (r: Result<String, Error>)
        ensures
            final(self).0@.to_multiset() == old(self).0@.to_multiset(),
            sorted_by_address(final(self).0@),
            r is Ok ==> forall|k: int|
                0 <= k < final(self).0@.len() ==> record_denotes(
                    entry_record(#[trigger] final(self).0@[k]),
                    final(self).0@[k],
                ),
            r is Ok <==> forall|k: int|
                0 <= k < final(self).0@.len() ==> (#[trigger] csv_line_of(
                    entry_record(final(self).0@[k]),
                )) is Some,
            r is Ok ==> exists|lines: Seq<Seq<char>>| {
                &&& lines_of(list_records(final(self).0@), lines)
                &&& r->Ok_0@ == lines.flatten()
            },
            r is Err ==> r->Err_0 is Csv,
    {
        sort_by_address(&mut self.0);
        let ghost sorted = self.0@;
        let mut out = String::new();
        let ghost mut lines: Seq<Seq<char>> = Seq::empty();
        let mut k: usize = 0;
        while k < self.0.len()
            invariant
                0 <= k <= self.0@.len(),
                self.0@ == sorted,
                sorted.to_multiset() == old(self).0@.to_multiset(),
                sorted_by_address(sorted),
                lines.len() == k,
                out@ == lines.flatten(),
                forall|m: int|
                    0 <= m < k ==> csv_line_of(entry_record(#[trigger] self.0@[m])) == Some(lines[m]),
                forall|m: int| 0 <= m < k ==> record_denotes(entry_record(#[trigger] self.0@[m]), self.0@[m]),
            decreases self.0@.len() - k,
        {
            let rec = self.0[k].to_record();
            match write_csv_line(&rec) {
                Some(line) => {
                    proof {
                        lines.lemma_flatten_push(line@);
                        lines = lines.push(line@);
                    }
                    out.append(line.as_str());
                },
                None => return Err(Error::Csv),
            }
            k = k + 1;
        }
        assert(lines_of(list_records(self.0@), lines));
        Ok(out)
    }
}

impl CsvListSerde for WalletList {
    fn parse_list_from_text(text: &str) -> Result<WalletList, Error> {
        WalletList::from_csv_text(text)
    }

    fn save_to_text(&mut self) -> Result<String, Error> {
        self.to_csv_text()
    }
}

/// The record that a snapshot entry is stored as: holder address, balance.
pub open spec fn snapshot_record(e: SnapshotEntry) -> Seq<Seq<char>> {
    seq![text_of_address(e.wallet_pubkey.bytes@), decimal_text(e.token_balance_atomic as nat)]
}

/// The snapshot record `rec` is well formed: a valid holder address and a
/// decimal balance, nothing more.
pub open spec fn snapshot_record_valid(rec: Seq<Seq<char>>) -> bool {
    &&& rec.len() == 2
    &&& address_of_text(rec[0]) is Some
    &&& u64_of_text(rec[1]) is Some
}

/// The snapshot record `rec` is well formed and denotes the entry `e`.
pub open spec fn snapshot_record_denotes(rec: Seq<Seq<char>>, e: SnapshotEntry) -> bool {
    &&& snapshot_record_valid(rec)
    &&& address_of_text(rec[0]) == Some(e.wallet_pubkey.bytes@)
    &&& u64_of_text(rec[1]) == Some(e.token_balance_atomic)
}

impl CsvEntrySer for SnapshotEntry {
    open spec fn denoted_by(&self, rec: Seq<Seq<char>>) -> bool {
        rec == snapshot_record(*self) && snapshot_record_denotes(rec, *self)
    }

    fn to_record(&self) -> (r: Vec<String>) {
        let mut rec: Vec<String> = Vec::new();
        rec.push(address_text(&self.wallet_pubkey));
        proof {
            lemma_u64_text_round_trip(self.token_balance_atomic);
        }
        rec.push(u64_text(self.token_balance_atomic));
        assert(record_view(rec@) =~= snapshot_record(*self));
        rec
    }
}

impl SnapshotEntryRaw {
    /// The raw row that a stored record holds: the address text and the parsed
    /// balance. Fails with `InvalidRecord` unless the record has two fields, and
    /// with `InvalidAmount` when the balance is not a decimal `u64`.
    pub fn from_record(rec: &Vec<String>) -> (r: Result<SnapshotEntryRaw, Error>)
        ensures
            rec@.len() != 2 ==> r is Err && r->Err_0 is InvalidRecord,
            rec@.len() == 2 && u64_of_text(rec@[1]@) is None ==> r is Err && r->Err_0 is InvalidAmount
                && r->Err_0->InvalidAmount_0@ == rec@[1]@,
            rec@.len() == 2 && u64_of_text(rec@[1]@) is Some ==> r is Ok && r->Ok_0.wallet_pubkey@ == rec@[0]@
                && u64_of_text(rec@[1]@) == Some(r->Ok_0.token_balance_atomic),
    {
        if rec.len() != 2 {
            return Err(Error::InvalidRecord);
        }
        match parse_u64(rec[1].as_str()) {
            Some(b) => Ok(SnapshotEntryRaw { wallet_pubkey: rec[0].clone(), token_balance_atomic: b }),
            None => Err(Error::InvalidAmount(rec[1].clone())),
        }
    }
}

impl SnapshotEntry {
    /// The entry that a raw row holds; `InvalidAddress` when its address text is
    /// not a valid public key.
    pub fn try_from_raw(raw: SnapshotEntryRaw) -> (r: Result<SnapshotEntry, Error>)
        ensures
            match address_of_text(raw.wallet_pubkey@) {
                Some(b) => r is Ok && r->Ok_0.wallet_pubkey.bytes@ == b && r->Ok_0.token_balance_atomic
                    == raw.token_balance_atomic,
                None => r is Err && r->Err_0 is InvalidAddress && r->Err_0->InvalidAddress_0@ == raw.wallet_pubkey@,
            },
    {
        match parse_address(raw.wallet_pubkey.as_str()) {
            Some(a) => Ok(SnapshotEntry { wallet_pubkey: a, token_balance_atomic: raw.token_balance_atomic }),
            None => Err(Error::InvalidAddress(raw.wallet_pubkey)),
        }
    }

    /// The entry that a stored record denotes: `from_record`, then `try_from_raw`.
    pub fn from_record(rec: &Vec<String>) -> (r: Result<SnapshotEntry, Error>)
        ensures
            r is Ok <==> snapshot_record_valid(record_view(rec@)),
            r is Ok ==> snapshot_record_denotes(record_view(rec@), r->Ok_0),
            r is Err ==> snapshot_record_error(record_view(rec@), r->Err_0),
    {
        let raw = match SnapshotEntryRaw::from_record(rec) {
            Ok(raw) => raw,
            Err(e) => return Err(e),
        };
        SnapshotEntry::try_from_raw(raw)
    }
}

impl Snapshot {
    /// Reads a snapshot from CSV text, one record per holder, then sorts it by
    /// holder address. Fails with `Csv` when the text is not well-formed CSV,
    /// and with the error of the first malformed record otherwise.
    pub fn from_csv_text(text: &str) -> (r: Result<Snapshot, Error>)
        ensures
            csv_records_of(text@) is None ==> r == Err::<Snapshot, Error>(Error::Csv),
            r is Ok <==> (csv_records_of(text@) is Some && forall|k: int|
                0 <= k < csv_records_of(text@)->0.len() ==> snapshot_record_valid(
                    #[trigger] csv_records_of(text@)->0[k],
                )),
            r is Ok ==> sorted_by_address(r->Ok_0.0@),
            csv_records_of(text@) is Some && r is Err ==> snapshot_record_error(
                csv_records_of(text@)->0[first_invalid_snapshot(csv_records_of(text@)->0) as int],
                r->Err_0,
            ),
            r is Ok ==> exists|parsed: Seq<SnapshotEntry>| {
                &&& parsed.len() == csv_records_of(text@)->0.len()
                &&& (forall|k: int|
                    0 <= k < parsed.len() ==> snapshot_record_denotes(
                        csv_records_of(text@)->0[k],
                        #[trigger] parsed[k],
                    ))
                &&& r->Ok_0.0@.to_multiset() == #[trigger] parsed.to_multiset()
            },
    {
        let rows = match read_csv_records(text) {
            Some(rows) => rows,
            None => return Err(Error::Csv),
        };
        let ghost views = rows_view(rows@);
        let mut out: Vec<SnapshotEntry> = Vec::new();
        let mut k: usize = 0;
        while k < rows.len()
            invariant
                0 <= k <= rows@.len(),
                views == rows_view(rows@),
                csv_records_of(text@) == Some(views),
                out@.len() == k,
                forall|m: int| 0 <= m < k ==> snapshot_record_valid(#[trigger] views[m]),
                forall|m: int| 0 <= m < k ==> snapshot_record_denotes(views[m], #[trigger] out@[m]),
            decreases rows@.len() - k,
        {
            assert(views[k as int] == record_view(rows@[k as int]@));
            match SnapshotEntry::from_record(&rows[k]) {
                Ok(e) => out.push(e),
                Err(e) => {
                    assert(csv_records_of(text@)->0[k as int] == views[k as int]);
                    assert(snapshot_record_error(csv_records_of(text@)->0[k as int], e));
                    proof {
                        lemma_first_invalid_snapshot(views, k as int);
                    }
                    return Err(e);
                },
            }
            k = k + 1;
        }
        let ghost parsed = out@;
        sort_by_address(&mut out);
        assert(parsed.len() == views.len());
        Ok(Snapshot(out))
    }

    /// Sorts the snapshot by holder address, then writes it as CSV text, one
    /// line per entry. Fails with `Csv` when a record cannot be written.
    pub fn to_csv_text(&mut self) -> (r: Result<String, Error>)
        ensures
            final(self).0@.to_multiset() == old(self).0@.to_multiset(),
            sorted_by_address(final(self).0@),
            r is Ok <==> forall|k: int|
                0 <= k < final(self).0@.len() ==> (#[trigger] csv_line_of(snapshot_record(final(self).0@[k]))) is Some,
            r is Ok ==> exists|lines: Seq<Seq<char>>| {
                &&& lines_of(final(self).0@.map_values(|e: SnapshotEntry| snapshot_record(e)), lines)
                &&& r->Ok_0@ == lines.flatten()
            },
            r is Err ==> r->Err_0 is Csv,
    {
        sort_by_address(&mut self.0);
        let ghost sorted = self.0@;
        let mut out = String::new();
        let ghost mut lines: Seq<Seq<char>> = Seq::empty();
        let mut k: usize = 0;
        while k < self.0.len()
            invariant
                0 <= k <= self.0@.len(),
                self.0@ == sorted,
                sorted.to_multiset() == old(self).0@.to_multiset(),
                sorted_by_address(sorted),
                lines.len() == k,
                out@ == lines.flatten(),
                forall|m: int|
                    0 <= m < k ==> csv_line_of(snapshot_record(#[trigger] self.0@[m])) == Some(lines[m]),
            decreases self.0@.len() - k,
        {
            let rec = self.0[k].to_record();
            match write_csv_line(&rec) {
                Some(line) => {
                    proof {
                        lines.lemma_flatten_push(line@);
                        lines = lines.push(line@);
                    }
                    out.append(line.as_str());
                },
                None => return Err(Error::Csv),
            }
            k = k + 1;
        }
        assert(lines_of(self.0@.map_values(|e: SnapshotEntry| snapshot_record(e)), lines));
        Ok(out)
    }
}

impl CsvListSerde for Snapshot {
    fn parse_list_from_text(text: &str) -> Result<Snapshot, Error> {
        Snapshot::from_csv_text(text)
    }

    fn save_to_text(&mut self) -> Result<String, Error> {
        self.to_csv_text()
    }
}

} // verus!
