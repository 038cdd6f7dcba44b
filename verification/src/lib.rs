//! A voting ledger: a registry of named candidates and a tally of votes in
//! which every voter identity is counted at most once.
//!
//! The executable ledger is [`VotingContract`], which keeps its candidates
//! in a [`CandidateRegistry`]. The behaviour of both is stated over the
//! mathematical model in [`model`], and the laws that hold of every ledger
//! are proved in [`laws`]. A host that keeps the records in a store of its
//! own finds the ledger's decisions, record by record, in [`rules`].
//!
//! Candidates are listed in the order of their registration. The voter is
//! an argument of every vote: the ledger takes the identity as given.

pub mod candidate;
pub mod error;
pub mod laws;
pub mod ledger;
pub mod model;
pub mod registry;
pub mod rules;

pub use candidate::Candidate;
pub use error::VotingError;
pub use ledger::VotingContract;
pub use registry::CandidateRegistry;
pub use rules::{decide_registration, decide_vote, AcceptedVote, VoteRecord};
