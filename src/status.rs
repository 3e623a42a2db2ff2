use crate::keys::SubmissionId;
use vstd::prelude::*;

verus! {

/// Where a recipient stands in the distribution.
#[derive(Debug, Clone, PartialEq, Eq)]
pub enum Status {
    /// Not checked yet.
    Unprocessed,
    /// Its destination cannot receive the token; nothing is sent.
    Disqualified,
    /// Its destination can receive the token; waiting to be batched.
    Qualified,
    /// A transfer was submitted under this identifier; its outcome is unknown.
    Unconfirmed(SubmissionId),
    /// The last attempt failed, for this reason; a stage may retry it.
    Failed(String),
    /// The transfer submitted under this identifier is final.
    Succeeded(SubmissionId),
    /// Set aside after too many failed attempts, for this reason.
    Excluded(String),
}

impl Status {
    /// No operation moves an entry out of a terminal status.
    pub open spec fn is_terminal(&self) -> bool {
        self is Succeeded || self is Disqualified || self is Excluded
    }

    /// A copy of the status.
    pub fn duplicate(&self) -> (r: Status)
        ensures
            r == *self,
    {
        match self {
            Status::Unprocessed => Status::Unprocessed,
            Status::Disqualified => Status::Disqualified,
            Status::Qualified => Status::Qualified,
            Status::Unconfirmed(id) => Status::Unconfirmed(*id),
            Status::Failed(reason) => Status::Failed(reason.clone()),
            Status::Succeeded(id) => Status::Succeeded(*id),
            Status::Excluded(reason) => Status::Excluded(reason.clone()),
        }
    }

    pub fn is_unprocessed(&self) -> (r: bool)
        ensures
            r == (*self is Unprocessed),
    {
        matches!(self, Status::Unprocessed)
    }

    pub fn is_qualified(&self) -> (r: bool)
        ensures
            r == (*self is Qualified),
    {
        matches!(self, Status::Qualified)
    }

    pub fn is_failed(&self) -> (r: bool)
        ensures
            r == (*self is Failed),
    {
        matches!(self, Status::Failed(_))
    }

    pub fn is_unconfirmed(&self) -> (r: bool)
        ensures
            r == (*self is Unconfirmed),
    {
        matches!(self, Status::Unconfirmed(_))
    }
}

} // verus!
