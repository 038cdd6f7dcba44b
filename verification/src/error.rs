//! The failures that the ledger reports.

use crate::model::Rejection;
use vstd::prelude::*;

verus! {

/// Why an operation was refused. Each variant carries the identifier that
/// caused the refusal; a refused operation leaves the ledger untouched.
#[derive(Debug, PartialEq, Eq)]
pub enum VotingError {
    /// The candidate identifier is registered already.
    DuplicateCandidate(String),
    /// No candidate is registered under the identifier.
    UnknownCandidate(String),
    /// The voter, named here, has voted before.
    AlreadyVoted(String),
}

impl View for VotingError {
    type V = Rejection;

    open spec fn view(&self) -> Rejection {
        match *self {
            VotingError::DuplicateCandidate(id) => Rejection::DuplicateCandidate(id@),
            VotingError::UnknownCandidate(id) => Rejection::UnknownCandidate(id@),
            VotingError::AlreadyVoted(voter) => Rejection::AlreadyVoted(voter@),
        }
    }
}

/// The rejection that a result stands for, if any.
pub open spec fn rejection_of(res: Result<(), VotingError>) -> Option<Rejection> {
    match res {
        Ok(_) => None,
        Err(e) => Some(e@),
    }
}

} // verus!
