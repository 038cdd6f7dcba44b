use std::collections::HashMap;
use voting_ledger::{
    decide_registration, decide_vote, AcceptedVote, Candidate, VoteRecord, VotingError,
};

fn text(s: &str) -> String {
    s.to_string()
}

fn one_entry() -> HashMap<String, String> {
    let mut m = HashMap::new();
    m.insert(text("k"), text("v"));
    m
}

#[test]
fn free_identifier_gives_a_candidate_without_votes() {
    assert_eq!(
        decide_registration(false, text("alice"), Some(one_entry())),
        Ok(Candidate { candidate_id: text("alice"), metadata: Some(one_entry()), votes: 0 })
    );
    assert_eq!(
        decide_registration(false, text("bob"), None),
        Ok(Candidate { candidate_id: text("bob"), metadata: None, votes: 0 })
    );
}

#[test]
fn taken_identifier_is_a_duplicate() {
    assert_eq!(
        decide_registration(true, text("alice"), None),
        Err(VotingError::DuplicateCandidate(text("alice")))
    );
}

#[test]
fn accepted_vote_credits_the_candidate_and_records_the_voter() {
    let stored = Candidate { candidate_id: text("alice"), metadata: Some(one_entry()), votes: 41 };
    assert_eq!(
        decide_vote(false, Some(&stored), text("u1"), text("alice")),
        Ok(AcceptedVote {
            candidate: Candidate {
                candidate_id: text("alice"),
                metadata: Some(one_entry()),
                votes: 42
            },
            record: VoteRecord { voter: text("u1"), candidate_id: text("alice") },
        })
    );
    assert_eq!(stored.votes, 41);
}

#[test]
fn accepted_vote_just_below_the_largest_count() {
    let stored = Candidate { candidate_id: text("a"), metadata: None, votes: u128::MAX - 1 };
    let accepted = decide_vote(false, Some(&stored), text("u"), text("a")).unwrap();
    assert_eq!(accepted.candidate.votes, u128::MAX);
}

#[test]
fn vote_for_nobody_is_unknown() {
    assert_eq!(
        decide_vote(false, None, text("u1"), text("carol")),
        Err(VotingError::UnknownCandidate(text("carol")))
    );
}

#[test]
fn vote_of_one_who_voted_is_refused_first() {
    let stored = Candidate { candidate_id: text("alice"), metadata: None, votes: 3 };
    assert_eq!(
        decide_vote(true, Some(&stored), text("u1"), text("alice")),
        Err(VotingError::AlreadyVoted(text("u1")))
    );
    assert_eq!(
        decide_vote(true, None, text("u1"), text("carol")),
        Err(VotingError::AlreadyVoted(text("u1")))
    );
}
