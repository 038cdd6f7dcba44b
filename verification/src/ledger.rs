//! The executable ledger: the registry of candidates together with the
//! record of who has voted for whom.

use crate::candidate::{candidate_views, metadata_view, Candidate};
use crate::error::{rejection_of, VotingError};
use crate::model::{
    has_voted, lemma_ballots_for_bounded, lemma_register_wf, lemma_vote_wf, LedgerView,
};
use crate::registry::CandidateRegistry;
use crate::rules::VoteRecord;
use std::collections::HashMap;
use vstd::prelude::*;

verus! {

/// The ledger: the candidates, and one record for every voter who has
/// voted, naming the candidate. Records are kept in the order in which the
/// votes were cast.
pub struct VotingContract {
    registry: CandidateRegistry,
    ballots: Vec<VoteRecord>,
}

impl View for VotingContract {
    type V = LedgerView;

    closed spec fn view(&self) -> LedgerView {
        LedgerView {
            candidates: self.registry@,
            ballots: self.ballots@.map_values(|b: VoteRecord| b@),
        }
    }
}

impl VotingContract {
    /// The ledger's invariant, which every operation keeps.
    pub open spec fn wf(&self) -> bool {
        self@.wf()
    }

    /// A ledger with no candidates and no votes.
    pub fn new() -> (res: VotingContract)
        ensures
            res.wf(),
            res@ == LedgerView::empty(),
    {
        let res = VotingContract { registry: CandidateRegistry::new(), ballots: Vec::new() };
        proof {
            assert(res@.ballots =~= Seq::empty());
        }
        res
    }

    /// Whether `voter` has a vote on record.
    fn has_ballot_from(&self, voter: &String) -> (res: bool)
        ensures
            res == has_voted(self@.ballots, voter@),
    {
        let mut j: usize = 0;
        while j < self.ballots.len()
            invariant
                j <= self.ballots.len(),
                forall|k: int| 0 <= k < j ==> (#[trigger] self@.ballots[k]).voter != voter@,
            decreases self.ballots.len() - j,
        {
            if self.ballots[j].voter == *voter {
                assert(self@.ballots[j as int].voter == voter@);
                return true;
            }
            j += 1;
        }
        false
    }

    /// Registers a candidate with no votes. An identifier that is registered
    /// already is refused, and the ledger stays as it was.
    pub fn add_candidate(
        &mut self,
        candidate_id: String,
        metadata: Option<HashMap<String, String>>,
    ) -> (res: Result<(), VotingError>)
        requires
            old(self).wf(),
        ensures
            final(self).wf(),
            final(self)@ == old(self)@.register(candidate_id@, metadata_view(metadata)),
            rejection_of(res) == old(self)@.register_outcome(candidate_id@),
            res matches Err(e) ==> e == VotingError::DuplicateCandidate(candidate_id) && *final(self)
                == *old(self),
    {
        proof {
            lemma_register_wf(self@, candidate_id@, metadata_view(metadata));
        }
        self.registry.register(candidate_id, metadata)
    }

    /// A snapshot of all candidates, in the order of their registration.
    pub fn view_candidates(&self) -> (res: Vec<Candidate>)
        ensures
            res@.len() == self@.candidates.len(),
            candidate_views(res@) == self@.candidates,
    {
        self.registry.list()
    }

    /// Casts the vote of `voter` for `candidate_id`. A voter who has voted
    /// before is refused whatever the candidate; otherwise an identifier
    /// that is not registered is refused. A refused vote leaves the ledger
    /// as it was; an accepted one adds one vote to the candidate and records
    /// who voted for whom.
    pub fn vote(&mut self, voter: String, candidate_id: String) -> (res: Result<(), VotingError>)
        requires
            old(self).wf(),
        ensures
            final(self).wf(),
            final(self)@ == old(self)@.vote(voter@, candidate_id@),
            rejection_of(res) == old(self)@.vote_outcome(voter@, candidate_id@),
            res is Err ==> *final(self) == *old(self),
            res matches Err(e) ==> e == (if has_voted(old(self)@.ballots, voter@) {
                VotingError::AlreadyVoted(voter)
            } else {
                VotingError::UnknownCandidate(candidate_id)
            }),
    {
        if self.has_ballot_from(&voter) {
            return Err(VotingError::AlreadyVoted(voter));
        }
        proof {
            lemma_vote_wf(self@, voter@, candidate_id@);
            lemma_ballots_for_bounded(self@.ballots, candidate_id@);
            assert forall|i: int|
                0 <= i < self.registry@.len() && (#[trigger] self.registry@[i]).candidate_id
                    == candidate_id@ implies self.registry@[i].votes < u128::MAX by {
                assert(self@.candidates[i].votes <= self.ballots.len());
            }
        }
        match self.registry.increment_votes(&candidate_id) {
            Err(e) => Err(e),
            Ok(()) => {
                self.ballots.push(VoteRecord { voter, candidate_id });
                proof {
                    let t = old(self)@.vote(voter@, candidate_id@);
                    assert(self@.ballots =~= t.ballots);
                }
                Ok(())
            },
        }
    }
}

impl Default for VotingContract {
    fn default() -> (res: VotingContract)
        ensures
            res.wf(),
            res@ == LedgerView::empty(),
    {
        VotingContract::new()
    }
}

} // verus!
