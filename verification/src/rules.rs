//! The ledger's two decisions, each taken from what the store holds under
//! the keys of one command. A host that keeps the records in a store of its
//! own looks the keys up, asks here, and writes back what was accepted.

use crate::candidate::{metadata_view, Candidate};
use crate::error::VotingError;
use crate::model::{credited, newcomer, BallotView};
use std::collections::HashMap;
use vstd::prelude::*;

verus! {

/// The record of one vote: who voted, and for whom.
#[derive(Debug, PartialEq, Eq)]
pub struct VoteRecord {
    /// The identity that cast the vote.
    pub voter: String,
    /// The candidate that received it.
    pub candidate_id: String,
}

impl View for VoteRecord {
    type V = BallotView;

    open spec fn view(&self) -> BallotView {
        BallotView { voter: self.voter@, candidate_id: self.candidate_id@ }
    }
}

/// What an accepted vote writes: the candidate with its new count, and the
/// voter's record.
#[derive(Debug, PartialEq, Eq)]
pub struct AcceptedVote {
    pub candidate: Candidate,
    pub record: VoteRecord,
}

/// Decides a registration. `taken` says whether the store holds a candidate
/// under `candidate_id`. An identifier that is taken is refused; a free one
/// gives the record to store, with no votes.
pub fn decide_registration(
    taken: bool,
    candidate_id: String,
    metadata: Option<HashMap<String, String>>,
) -> (res: Result<Candidate, VotingError>)
    ensures
        match res {
            Ok(c) => !taken && c.candidate_id == candidate_id && c.metadata == metadata && c.votes
                == 0 && c@ == newcomer(candidate_id@, metadata_view(metadata)),
            Err(e) => taken && e == VotingError::DuplicateCandidate(candidate_id),
        },
{
    if taken {
        Err(VotingError::DuplicateCandidate(candidate_id))
    } else {
        Ok(Candidate { candidate_id, metadata, votes: 0 })
    }
}

/// Decides a vote. `voted` says whether the store holds a record for
/// `voter`; `chosen` is what it holds under `candidate_id`. A voter who has
/// voted is refused whatever the candidate; otherwise a vote for nobody is
/// refused; otherwise the vote is accepted, and the result holds the
/// candidate with one vote more and the voter's record.
pub fn decide_vote(
    voted: bool,
    chosen: Option<&Candidate>,
    voter: String,
    candidate_id: String,
) -> (res: Result<AcceptedVote, VotingError>)
    requires
        !voted ==> (chosen matches Some(c) ==> c.votes < u128::MAX),
    ensures
        match res {
            Ok(accepted) => !voted && chosen is Some && accepted.candidate@ == credited(
                chosen->0@,
            ) && accepted.record.voter == voter && accepted.record.candidate_id == candidate_id,
            Err(e) => e == (if voted {
                VotingError::AlreadyVoted(voter)
            } else {
                VotingError::UnknownCandidate(candidate_id)
            }) && (voted || chosen is None),
        },
{
    if voted {
        return Err(VotingError::AlreadyVoted(voter));
    }
    match chosen {
        None => Err(VotingError::UnknownCandidate(candidate_id)),
        Some(c) => Ok(
            AcceptedVote {
                candidate: c.with_one_more_vote(),
                record: VoteRecord { voter, candidate_id },
            },
        ),
    }
}

} // verus!
