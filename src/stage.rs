use crate::allocation::{allocate, allocated, amount_sum};
use crate::errors::Error;
use crate::keys::Address;
use crate::naming::{add_to_filename, with_name_added};
use crate::snapshot::{balance_sum, Snapshot};
use crate::status::Status;
use crate::wallet_list::{
    unconfirmed_reason, count_matching, exclude_failed, is_failed_status, is_unconfirmed_status, keeps_terminal, reset_failed,
    with_status, WalletList,
};
use vstd::prelude::*;

verus! {

/// Number of transfer instructions that one transaction carries at most.
pub const TRANSFER_IXS_CHUNK_SIZE: usize = 18;

/// Number of destinations looked up by one multi-address lookup at most.
pub const ATA_GET_MULT_ACC_CHUNK_SIZE: usize = 100;

/// Number of attempts of the qualification check.
pub const CHECK_MAX_RETRY: usize = 4;

/// Number of attempts of the transfer stage.
pub const TRANSFER_MAX_RETRY: usize = 1;

/// Number of attempts of the confirmation stage.
pub const CONFIRM_TX_MAX_RETRY: usize = 3;

/// Seconds to wait between two confirmation attempts.
pub const CONFIRM_TX_SLEEP_SEC: u64 = 90;

/// Compute unit limit of a transfer transaction.
pub const DEFAULT_COMPUTE_UNIT_LIMIT: u32 = 1_000_000;

/// Compute unit price of a transfer transaction, in micro-lamports.
pub const DEFAULT_COMPUTE_UNIT_PRICE: u64 = 1;

/// The sizes, retry ceilings and fees that the stages run with.
#[derive(Debug, Clone, Copy, PartialEq, Eq)]
pub struct PipelineConfig {
    pub transfer_group_size: usize,
    pub lookup_chunk_size: usize,
    pub check_max_retry: usize,
    pub transfer_max_retry: usize,
    pub confirm_max_retry: usize,
    pub confirm_sleep_sec: u64,
    pub compute_unit_limit: u32,
    pub compute_unit_price: u64,
}

impl Default for PipelineConfig {
    fn default() -> (r: PipelineConfig)
        ensures
            r.transfer_group_size == TRANSFER_IXS_CHUNK_SIZE,
            r.lookup_chunk_size == ATA_GET_MULT_ACC_CHUNK_SIZE,
            r.check_max_retry == CHECK_MAX_RETRY,
            r.transfer_max_retry == TRANSFER_MAX_RETRY,
            r.confirm_max_retry == CONFIRM_TX_MAX_RETRY,
            r.confirm_sleep_sec == CONFIRM_TX_SLEEP_SEC,
            r.compute_unit_limit == DEFAULT_COMPUTE_UNIT_LIMIT,
            r.compute_unit_price == DEFAULT_COMPUTE_UNIT_PRICE,
    {
        PipelineConfig {
            transfer_group_size: TRANSFER_IXS_CHUNK_SIZE,
            lookup_chunk_size: ATA_GET_MULT_ACC_CHUNK_SIZE,
            check_max_retry: CHECK_MAX_RETRY,
            transfer_max_retry: TRANSFER_MAX_RETRY,
            confirm_max_retry: CONFIRM_TX_MAX_RETRY,
            confirm_sleep_sec: CONFIRM_TX_SLEEP_SEC,
            compute_unit_limit: DEFAULT_COMPUTE_UNIT_LIMIT,
            compute_unit_price: DEFAULT_COMPUTE_UNIT_PRICE,
        }
    }
}

/// How many entries hold each status.
#[derive(Debug, Clone, Copy, PartialEq, Eq, Default)]
pub struct StatusCounts {
    pub unprocessed: usize,
    pub disqualified: usize,
    pub qualified: usize,
    pub unconfirmed: usize,
    pub failed: usize,
    pub succeeded: usize,
    pub excluded: usize,
}

pub open spec fn is_unprocessed_status(s: Status) -> bool {
    s is Unprocessed
}

pub open spec fn is_disqualified_status(s: Status) -> bool {
    s is Disqualified
}

pub open spec fn is_qualified_status(s: Status) -> bool {
    s is Qualified
}

pub open spec fn is_succeeded_status(s: Status) -> bool {
    s is Succeeded
}

pub open spec fn is_excluded_status(s: Status) -> bool {
    s is Excluded
}

/// The counts of each status among the entries of `s`.
pub open spec fn counts_of(s: Seq<crate::wallet_list::WalletListEntry>, c: StatusCounts) -> bool {
    &&& c.unprocessed == count_matching(s, |x: Status| is_unprocessed_status(x))
    &&& c.disqualified == count_matching(s, |x: Status| is_disqualified_status(x))
    &&& c.qualified == count_matching(s, |x: Status| is_qualified_status(x))
    &&& c.unconfirmed == count_matching(s, |x: Status| is_unconfirmed_status(x))
    &&& c.failed == count_matching(s, |x: Status| is_failed_status(x))
    &&& c.succeeded == count_matching(s, |x: Status| is_succeeded_status(x))
    &&& c.excluded == count_matching(s, |x: Status| is_excluded_status(x))
}

impl WalletList {
    /// How many entries hold each status.
    pub fn count_each_status(&self) -> (r: StatusCounts)
        ensures
            counts_of(self.0@, r),
    {
        let mut c = StatusCounts {
            unprocessed: 0,
            disqualified: 0,
            qualified: 0,
            unconfirmed: 0,
            failed: 0,
            succeeded: 0,
            excluded: 0,
        };
        let mut i: usize = 0;
        while i < self.0.len()
            invariant
                0 <= i <= self.0@.len(),
                counts_of(self.0@.take(i as int), c),
                c.unprocessed <= i && c.disqualified <= i && c.qualified <= i && c.unconfirmed <= i,
                c.failed <= i && c.succeeded <= i && c.excluded <= i,
            decreases self.0@.len() - i,
        {
            assert(self.0@.take(i + 1).drop_last() =~= self.0@.take(i as int));
            match &self.0[i].status {
                Status::Unprocessed => c.unprocessed = c.unprocessed + 1,
                Status::Disqualified => c.disqualified = c.disqualified + 1,
                Status::Qualified => c.qualified = c.qualified + 1,
                Status::Unconfirmed(_) => c.unconfirmed = c.unconfirmed + 1,
                Status::Failed(_) => c.failed = c.failed + 1,
                Status::Succeeded(_) => c.succeeded = c.succeeded + 1,
                Status::Excluded(_) => c.excluded = c.excluded + 1,
            }
            i = i + 1;
        }
        assert(self.0@.take(i as int) =~= self.0@);
        c
    }

    /// Decides what follows check attempt number `attempt` (from 1) of at most
    /// `max_attempts`: with no `Failed` entry the stage is done; otherwise the
    /// `Failed` entries are reset to `Unprocessed` for another attempt, or, after
    /// the last attempt, set aside as `Excluded`. Returns whether to run another
    /// attempt, which never happens after the last one.
    pub fn finish_check_attempt(&mut self, attempt: usize, max_attempts: usize) -> (again: bool)
        requires
            1 <= attempt <= max_attempts,
        ensures
            keeps_terminal(old(self).0@, final(self).0@),
            again ==> attempt < max_attempts,
            !again ==> count_matching(final(self).0@, |s: Status| is_failed_status(s)) == 0,
            again == continues(
                attempt as nat,
                max_attempts as nat,
                count_matching(old(self).0@, |s: Status| is_failed_status(s)),
            ),
            forall|i: int|
                0 <= i < old(self).0@.len() ==> #[trigger] final(self).0@[i] == with_status(
                    old(self).0@[i],
                    if attempt < max_attempts {
                        reset_failed(old(self).0@[i].status, Status::Unprocessed)
                    } else {
                        exclude_failed(old(self).0@[i].status)
                    },
                ),
    {
        let failed = self.count_failed();
        if failed == 0 {
            proof {
                lemma_none_failed(self.0@);
            }
            return false;
        }
        if attempt < max_attempts {
            self.set_failed_to_unprocessed();
            true
        } else {
            self.set_failed_to_excluded();
            proof {
                lemma_none_failed_after_exclusion(old(self).0@, self.0@);
            }
            false
        }
    }

    /// Decides what follows confirmation attempt number `attempt` (from 1) of at
    /// most `max_attempts`: with no `Unconfirmed` entry the stage is done;
    /// otherwise another attempt follows, or, after the last one, every
    /// `Unconfirmed` entry becomes `Failed` with a reason that marks its outcome
    /// as never observed. Returns whether to run another attempt.
    pub fn finish_confirm_attempt(&mut self, attempt: usize, max_attempts: usize) -> (again: bool)
        requires
            1 <= attempt <= max_attempts,
        ensures
            keeps_terminal(old(self).0@, final(self).0@),
            again ==> attempt < max_attempts && final(self).0@ == old(self).0@,
            !again ==> count_matching(final(self).0@, |s: Status| is_unconfirmed_status(s)) == 0,
            again == continues(
                attempt as nat,
                max_attempts as nat,
                count_matching(old(self).0@, |s: Status| is_unconfirmed_status(s)),
            ),
            !again && attempt < max_attempts ==> final(self).0@ == old(self).0@,
            !again && attempt == max_attempts ==> forall|i: int|
                0 <= i < old(self).0@.len() ==> {
                    let before = old(self).0@[i];
                    let after = #[trigger] final(self).0@[i];
                    match before.status {
                        Status::Unconfirmed(id) => after.wallet_pubkey == before.wallet_pubkey
                            && after.amount_to_airdrop == before.amount_to_airdrop
                            && after.ata == before.ata
                            && after.status is Failed
                            && after.status->Failed_0@ == unconfirmed_reason(id),
                        _ => after == before,
                    }
                },
    {
        let waiting = self.count_unconfirmed();
        if waiting == 0 {
            proof {
                lemma_none_unconfirmed(self.0@);
            }
            return false;
        }
        if attempt < max_attempts {
            true
        } else {
            self.set_unconfirmed_to_failed();
            proof {
                lemma_none_unconfirmed(self.0@);
            }
            false
        }
    }
}

/// Whether a stage runs another attempt after attempt number `attempt` of at
/// most `max_attempts`, with `pending` entries left to retry.
pub open spec fn continues(attempt: nat, max_attempts: nat, pending: nat) -> bool {
    attempt < max_attempts && pending > 0
}

/// Retry termination: a stage whose attempts `1..=n` each went on to the next
/// only as `continues` allows stops after at most `max_attempts` attempts,
/// whatever the network did; when it stops after the last allowed attempt,
/// that attempt is number `max_attempts`.
pub proof fn lemma_retry_termination(pending: Seq<nat>, max_attempts: nat)
    requires
        max_attempts >= 1,
        pending.len() >= 1,
        forall|i: int| 0 <= i < pending.len() - 1 ==> continues((i + 1) as nat, max_attempts, #[trigger] pending[i]),
    ensures
        pending.len() <= max_attempts,
        pending[pending.len() - 1] > 0 && !continues(pending.len(), max_attempts, pending[pending.len() - 1])
            ==> pending.len() == max_attempts,
{
    if pending.len() >= 2 {
        assert(continues((pending.len() - 1) as nat, max_attempts, pending[pending.len() - 2]));
    }
}

proof fn lemma_none_failed(s: Seq<crate::wallet_list::WalletListEntry>)
    ensures
        count_matching(s, |x: Status| is_failed_status(x)) == 0 <==> forall|i: int|
            0 <= i < s.len() ==> !((#[trigger] s[i]).status is Failed),
    decreases s.len(),
{
    if s.len() > 0 {
        let p = s.drop_last();
        lemma_none_failed(p);
        assert forall|i: int| 0 <= i < p.len() implies #[trigger] p[i] == s[i] by {}
        if forall|i: int| 0 <= i < s.len() ==> !((#[trigger] s[i]).status is Failed) {
            assert(!(s[s.len() - 1].status is Failed));
            assert forall|i: int| 0 <= i < p.len() implies !((#[trigger] p[i]).status is Failed) by {
                assert(p[i] == s[i]);
            }
        }
        if count_matching(s, |x: Status| is_failed_status(x)) == 0 {
            assert forall|i: int| 0 <= i < s.len() implies !((#[trigger] s[i]).status is Failed) by {
                if i < p.len() {
                    assert(p[i] == s[i]);
                }
            }
        }
    }
}

proof fn lemma_none_unconfirmed(s: Seq<crate::wallet_list::WalletListEntry>)
    ensures
        count_matching(s, |x: Status| is_unconfirmed_status(x)) == 0 <==> forall|i: int|
            0 <= i < s.len() ==> !((#[trigger] s[i]).status is Unconfirmed),
    decreases s.len(),
{
    if s.len() > 0 {
        let p = s.drop_last();
        lemma_none_unconfirmed(p);
        assert forall|i: int| 0 <= i < p.len() implies #[trigger] p[i] == s[i] by {}
        if forall|i: int| 0 <= i < s.len() ==> !((#[trigger] s[i]).status is Unconfirmed) {
            assert(!(s[s.len() - 1].status is Unconfirmed));
            assert forall|i: int| 0 <= i < p.len() implies !((#[trigger] p[i]).status is Unconfirmed) by {
                assert(p[i] == s[i]);
            }
        }
        if count_matching(s, |x: Status| is_unconfirmed_status(x)) == 0 {
            assert forall|i: int| 0 <= i < s.len() implies !((#[trigger] s[i]).status is Unconfirmed) by {
                if i < p.len() {
                    assert(p[i] == s[i]);
                }
            }
        }
    }
}

proof fn lemma_none_failed_after_exclusion(
    before: Seq<crate::wallet_list::WalletListEntry>,
    after: Seq<crate::wallet_list::WalletListEntry>,
)
    requires
        after.len() == before.len(),
        forall|i: int|
            0 <= i < before.len() ==> #[trigger] after[i] == with_status(before[i], exclude_failed(before[i].status)),
    ensures
        count_matching(after, |x: Status| is_failed_status(x)) == 0,
{
    lemma_none_failed(after);
    assert forall|i: int| 0 <= i < after.len() implies !((#[trigger] after[i]).status is Failed) by {
        assert(after[i] == with_status(before[i], exclude_failed(before[i].status)));
    }
}

/// The arguments of the allocation stage.
#[derive(Debug, Clone, PartialEq, Eq)]
pub struct WalletListArgs {
    pub wallet_list_path: String,
    pub amount_to_airdrop: u64,
    pub snapshot_path: String,
}

impl WalletListArgs {
    /// Builds the recipient list from a snapshot: `amount_to_airdrop` split in
    /// proportion to the balances, as `allocate` does.
    pub fn run(&self, snapshot: &Snapshot) -> (r: Result<WalletList, Error>)
        ensures
            balance_sum(snapshot.0@) == 0 <==> r is Err,
            r is Err ==> r == Err::<WalletList, Error>(Error::EmptyPool),
            r is Ok ==> r->Ok_0.0@ == allocated(
                snapshot.0@,
                self.amount_to_airdrop as nat,
                balance_sum(snapshot.0@),
            ),
            r is Ok ==> amount_sum(r->Ok_0.0@) <= self.amount_to_airdrop,
            r is Ok && snapshot.wf() ==> r->Ok_0.wf(),
    {
        allocate(&snapshot.0, self.amount_to_airdrop)
    }
}

/// The arguments of the display stage.
#[derive(Debug, Clone, PartialEq, Eq)]
pub struct DisplayArgs {
    pub wallet_list_path: String,
}

impl DisplayArgs {
    /// The counts of each status in the list read from the checkpoint.
    pub fn run(&self, list: &WalletList) -> (r: StatusCounts)
        ensures
            counts_of(list.0@, r),
    {
        list.count_each_status()
    }
}

/// The arguments of the confirmation stage.
#[derive(Debug, Clone, PartialEq, Eq)]
pub struct ConfirmArgs {
    pub wallet_list_path: String,
}

impl ConfirmArgs {
    /// The checkpoint that the confirmation stage starts from: its own, when an
    /// earlier run saved one, else the transfer stage's; `StageNotReady` when
    /// neither exists, and `InvalidPath` when the list path has no extension.
    pub fn run(&self, confirmed_exists: bool, sent_exists: bool) -> (r: Result<String, Error>)
        ensures
            with_name_added(self.wallet_list_path@, "confirmed"@) is None ==> r is Err,
            r is Ok ==> (confirmed_exists && Some(r->Ok_0@) == with_name_added(
                self.wallet_list_path@,
                "confirmed"@,
            )) || (!confirmed_exists && sent_exists && Some(r->Ok_0@) == with_name_added(
                self.wallet_list_path@,
                "sent"@,
            )),
            with_name_added(self.wallet_list_path@, "confirmed"@) is Some ==> (r is Ok <==> (
            confirmed_exists || sent_exists)),
            with_name_added(self.wallet_list_path@, "confirmed"@) is None ==> r == Err::<String, Error>(
                Error::InvalidPath,
            ),
            with_name_added(self.wallet_list_path@, "confirmed"@) is Some && !confirmed_exists && !sent_exists ==> r
                == Err::<String, Error>(Error::StageNotReady),
    {
        let confirmed = match add_to_filename(self.wallet_list_path.as_str(), "confirmed") {
            Some(p) => p,
            None => return Err(Error::InvalidPath),
        };
        if confirmed_exists {
            return Ok(confirmed);
        }
        if !sent_exists {
            return Err(Error::StageNotReady);
        }
        match add_to_filename(self.wallet_list_path.as_str(), "sent") {
            Some(p) => Ok(p),
            None => {
                proof {
                    reveal_strlit("sent");
                    reveal_strlit("confirmed");
                }
                Err(Error::InvalidPath)
            },
        }
    }
}

/// The arguments of the transfer stage.
#[derive(Debug, Clone, PartialEq, Eq)]
pub struct SendArgs {
    pub airdrop_token_mint_pubkey: Address,
    pub payer_path: String,
    pub wallet_list_path: String,
    pub compute_unit_limit: u32,
    pub compute_unit_price: u64,
    pub should_confirm: bool,
}

/// The checkpoint that the transfer stage starts from.
#[derive(Debug, Clone, PartialEq, Eq)]
pub enum SendSource {
    /// A confirmation checkpoint of an earlier run: its outstanding transfers are
    /// reconciled and its failures retried.
    Confirmed(String),
    /// The qualification check's checkpoint.
    Checked(String),
}

impl SendArgs {
    /// The checkpoint that the transfer stage starts from: the confirmation
    /// stage's, when one was saved, else the check stage's; `StageNotReady` when
    /// neither exists, and `InvalidPath` when the list path has no extension.
    pub fn source_stage(&self, confirmed_exists: bool, checked_exists: bool) -> (r: Result<SendSource, Error>)
        ensures
            with_name_added(self.wallet_list_path@, "confirmed"@) is None ==> r is Err,
            with_name_added(self.wallet_list_path@, "confirmed"@) is Some ==> match r {
                Ok(SendSource::Confirmed(p)) => confirmed_exists && Some(p@) == with_name_added(
                    self.wallet_list_path@,
                    "confirmed"@,
                ),
                Ok(SendSource::Checked(p)) => !confirmed_exists && checked_exists && Some(p@) == with_name_added(
                    self.wallet_list_path@,
                    "checked"@,
                ),
                Err(e) => !confirmed_exists && (!checked_exists ==> e is StageNotReady),
            },
            !confirmed_exists && !checked_exists ==> r is Err,
            with_name_added(self.wallet_list_path@, "confirmed"@) is None ==> r == Err::<SendSource, Error>(
                Error::InvalidPath,
            ),
            with_name_added(self.wallet_list_path@, "confirmed"@) is Some && (confirmed_exists || checked_exists)
                ==> r is Ok,
    {
        let confirmed = match add_to_filename(self.wallet_list_path.as_str(), "confirmed") {
            Some(p) => p,
            None => return Err(Error::InvalidPath),
        };
        if confirmed_exists {
            return Ok(SendSource::Confirmed(confirmed));
        }
        if !checked_exists {
            return Err(Error::StageNotReady);
        }
        match add_to_filename(self.wallet_list_path.as_str(), "checked") {
            Some(p) => Ok(SendSource::Checked(p)),
            None => Err(Error::InvalidPath),
        }
    }
}

} // verus!
