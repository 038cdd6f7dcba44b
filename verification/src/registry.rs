//! The registry of candidates: who is registered, and with how many votes.

use crate::candidate::{candidate_views, metadata_view, Candidate};
use crate::error::VotingError;
use crate::model::{
    credit, distinct_ids, enrol, lemma_credit_distinct, lemma_enrol_distinct, registered,
    CandidateView,
};
use crate::rules::decide_registration;
use std::collections::HashMap;
use vstd::prelude::*;

verus! {

/// The candidates, kept in the order of their registration. No identifier
/// is held twice, and no candidate ever leaves.
pub struct CandidateRegistry {
    candidates: Vec<Candidate>,
}

impl View for CandidateRegistry {
    type V = Seq<CandidateView>;

    closed spec fn view(&self) -> Seq<CandidateView> {
        candidate_views(self.candidates@)
    }
}

impl CandidateRegistry {
    /// The registry's invariant: the identifiers are distinct.
    pub open spec fn wf(&self) -> bool {
        distinct_ids(self@)
    }

    /// A registry without candidates.
    pub fn new() -> (res: CandidateRegistry)
        ensures
            res.wf(),
            res@ == Seq::<CandidateView>::empty(),
    {
        let res = CandidateRegistry { candidates: Vec::new() };
        proof {
            assert(res@ =~= Seq::<CandidateView>::empty());
        }
        res
    }

    /// Where the candidate `candidate_id` stands, if it is registered.
    fn position_of(&self, candidate_id: &String) -> (res: Option<usize>)
        ensures
            match res {
                Some(i) => i < self.candidates.len() && i < self@.len() && self@[i as int].candidate_id
                    == candidate_id@,
                None => !registered(self@, candidate_id@),
            },
    {
        let mut i: usize = 0;
        while i < self.candidates.len()
            invariant
                i <= self.candidates.len(),
                forall|k: int| 0 <= k < i ==> (#[trigger] self@[k]).candidate_id != candidate_id@,
            decreases self.candidates.len() - i,
        {
            if self.candidates[i].candidate_id == *candidate_id {
                return Some(i);
            }
            i += 1;
        }
        None
    }

    /// Whether a candidate is registered under `candidate_id`.
    pub fn contains(&self, candidate_id: &String) -> (res: bool)
        ensures
            res == registered(self@, candidate_id@),
    {
        self.position_of(candidate_id).is_some()
    }

    /// Registers a candidate with no votes. An identifier that is registered
    /// already is refused, and the registry stays as it was.
    pub fn register(
        &mut self,
        candidate_id: String,
        metadata: Option<HashMap<String, String>>,
    ) -> (res: Result<(), VotingError>)
        requires
            old(self).wf(),
        ensures
            final(self).wf(),
            final(self)@ == enrol(old(self)@, candidate_id@, metadata_view(metadata)),
            res is Err <==> registered(old(self)@, candidate_id@),
            res matches Err(e) ==> e == VotingError::DuplicateCandidate(candidate_id) && *final(self)
                == *old(self),
    {
        let taken = self.contains(&candidate_id);
        match decide_registration(taken, candidate_id, metadata) {
            Err(e) => Err(e),
            Ok(candidate) => {
                proof {
                    lemma_enrol_distinct(self@, candidate_id@, metadata_view(metadata));
                }
                self.candidates.push(candidate);
                proof {
                    assert(self@ =~= enrol(old(self)@, candidate_id@, metadata_view(metadata)));
                }
                Ok(())
            },
        }
    }

    /// A snapshot of all candidates, in the order of their registration.
    pub fn list(&self) -> (res: Vec<Candidate>)
        ensures
            res@.len() == self@.len(),
            candidate_views(res@) == self@,
    {
        let mut out: Vec<Candidate> = Vec::new();
        let mut i: usize = 0;
        while i < self.candidates.len()
            invariant
                i <= self.candidates.len(),
                out.len() == i,
                forall|k: int| 0 <= k < i ==> (#[trigger] out[k])@ == self.candidates[k]@,
            decreases self.candidates.len() - i,
        {
            out.push(self.candidates[i].clone());
            i += 1;
        }
        proof {
            assert(candidate_views(out@) =~= self@);
        }
        out
    }

    /// Adds one vote to the candidate `candidate_id`. An identifier that is
    /// not registered is refused, and the registry stays as it was. The
    /// candidate's count must have room for one more.
    pub fn increment_votes(&mut self, candidate_id: &String) -> (res: Result<(), VotingError>)
        requires
            old(self).wf(),
            forall|i: int|
                0 <= i < old(self)@.len() && (#[trigger] old(self)@[i]).candidate_id
                    == candidate_id@ ==> old(self)@[i].votes < u128::MAX,
        ensures
            final(self).wf(),
            res is Ok <==> registered(old(self)@, candidate_id@),
            res is Ok ==> final(self)@ == credit(old(self)@, candidate_id@),
            res matches Err(e) ==> e == VotingError::UnknownCandidate(*candidate_id) && *final(self)
                == *old(self),
    {
        match self.position_of(candidate_id) {
            None => Err(VotingError::UnknownCandidate(candidate_id.clone())),
            Some(i) => {
                proof {
                    lemma_credit_distinct(self@, candidate_id@);
                    assert(self@[i as int].votes < u128::MAX);
                    assert(registered(self@, candidate_id@));
                }
                let updated = self.candidates[i].with_one_more_vote();
                self.candidates.set(i, updated);
                proof {
                    let want = credit(old(self)@, candidate_id@);
                    assert forall|k: int| 0 <= k < want.len() implies self@[k] == want[k] by {
                        if k != i {
                            assert(old(self)@[k].candidate_id != old(self)@[i as int].candidate_id);
                        }
                    }
                    assert(self@ =~= want);
                }
                Ok(())
            },
        }
    }
}

impl Default for CandidateRegistry {
    fn default() -> (res: CandidateRegistry)
        ensures
            res.wf(),
            res@ == Seq::<CandidateView>::empty(),
    {
        CandidateRegistry::new()
    }
}

} // verus!
