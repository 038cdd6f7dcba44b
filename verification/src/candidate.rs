//! The candidate record.

use crate::model::{credited, CandidateView};
use std::collections::HashMap;
use vstd::prelude::*;

verus! {

/// A registered option that can receive votes.
#[derive(Debug, PartialEq, Eq)]
pub struct Candidate {
    /// The unique identifier under which the candidate was registered.
    pub candidate_id: String,
    /// Free-form description, given at registration.
    pub metadata: Option<HashMap<String, String>>,
    /// The number of votes received so far.
    pub votes: u128,
}

/// The metadata as the contracts see it.
pub open spec fn metadata_view(metadata: Option<HashMap<String, String>>) -> Option<
    Map<String, String>,
> {
    match metadata {
        Some(m) => Some(m@),
        None => None,
    }
}

impl View for Candidate {
    type V = CandidateView;

    open spec fn view(&self) -> CandidateView {
        CandidateView {
            candidate_id: self.candidate_id@,
            metadata: metadata_view(self.metadata),
            votes: self.votes as nat,
        }
    }
}

/// The views of a sequence of candidates, in the same order.
pub open spec fn candidate_views(cs: Seq<Candidate>) -> Seq<CandidateView> {
    cs.map_values(|c: Candidate| c@)
}

impl Candidate {
    /// A copy of the candidate with one vote more.
    pub fn with_one_more_vote(&self) -> (res: Candidate)
        requires
            self.votes < u128::MAX,
        ensures
            res@ == credited(self@),
            res.candidate_id == self.candidate_id,
            res.votes == self.votes + 1,
    {
        let metadata = match &self.metadata {
            Some(m) => Some(m.clone()),
            None => None,
        };
        Candidate { candidate_id: self.candidate_id.clone(), metadata, votes: self.votes + 1 }
    }
}

impl Clone for Candidate {
    fn clone(&self) -> (res: Candidate)
        ensures
            res@ == self@,
    {
        let metadata = match &self.metadata {
            Some(m) => Some(m.clone()),
            None => None,
        };
        Candidate { candidate_id: self.candidate_id.clone(), metadata, votes: self.votes }
    }
}

} // verus!
