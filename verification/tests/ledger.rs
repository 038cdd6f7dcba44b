use std::collections::HashMap;
use voting_ledger::{Candidate, VotingContract, VotingError};

fn id(s: &str) -> String {
    s.to_string()
}

fn votes_of(ledger: &VotingContract, candidate: &str) -> Option<u128> {
    ledger
        .view_candidates()
        .into_iter()
        .find(|c| c.candidate_id == candidate)
        .map(|c| c.votes)
}

fn sample_metadata() -> HashMap<String, String> {
    let mut m = HashMap::new();
    m.insert(id("party"), id("green"));
    m.insert(id("slogan"), id("more trees"));
    m
}

#[test]
fn new_ledger_is_empty() {
    let ledger = VotingContract::new();
    assert!(ledger.view_candidates().is_empty());
    let by_default = VotingContract::default();
    assert!(by_default.view_candidates().is_empty());
}

#[test]
fn registration_stores_id_metadata_and_zero_votes() {
    let mut ledger = VotingContract::new();
    assert_eq!(ledger.add_candidate(id("alice"), Some(sample_metadata())), Ok(()));
    let listed = ledger.view_candidates();
    assert_eq!(
        listed,
        vec![Candidate { candidate_id: id("alice"), metadata: Some(sample_metadata()), votes: 0 }]
    );
}

#[test]
fn registration_without_metadata() {
    let mut ledger = VotingContract::new();
    assert_eq!(ledger.add_candidate(id("bob"), None), Ok(()));
    let listed = ledger.view_candidates();
    assert_eq!(listed.len(), 1);
    assert_eq!(listed[0].candidate_id, "bob");
    assert_eq!(listed[0].metadata, None);
    assert_eq!(listed[0].votes, 0);
}

#[test]
fn distinct_ids_all_register() {
    let mut ledger = VotingContract::new();
    let names = ["a", "b", "c", "d", "e", ""];
    for n in names.iter() {
        assert_eq!(ledger.add_candidate(id(n), None), Ok(()));
    }
    let listed = ledger.view_candidates();
    assert_eq!(listed.len(), names.len());
    for (c, n) in listed.iter().zip(names.iter()) {
        assert_eq!(c.candidate_id, *n);
        assert_eq!(c.votes, 0);
    }
}

#[test]
fn duplicate_registration_fails_and_keeps_the_first_record() {
    let mut ledger = VotingContract::new();
    assert_eq!(ledger.add_candidate(id("alice"), Some(sample_metadata())), Ok(()));
    assert_eq!(ledger.vote(id("u1"), id("alice")), Ok(()));
    let before = ledger.view_candidates();
    assert_eq!(
        ledger.add_candidate(id("alice"), None),
        Err(VotingError::DuplicateCandidate(id("alice")))
    );
    let after = ledger.view_candidates();
    assert_eq!(before, after);
    assert_eq!(after[0].metadata, Some(sample_metadata()));
    assert_eq!(after[0].votes, 1);
}

#[test]
fn repeated_failures_never_change_the_ledger() {
    let mut ledger = VotingContract::new();
    assert_eq!(ledger.add_candidate(id("alice"), None), Ok(()));
    assert_eq!(ledger.vote(id("u1"), id("alice")), Ok(()));
    let before = ledger.view_candidates();
    for _ in 0..5 {
        assert_eq!(
            ledger.add_candidate(id("alice"), Some(sample_metadata())),
            Err(VotingError::DuplicateCandidate(id("alice")))
        );
        assert_eq!(ledger.vote(id("u1"), id("alice")), Err(VotingError::AlreadyVoted(id("u1"))));
        assert_eq!(
            ledger.vote(id("u2"), id("nobody")),
            Err(VotingError::UnknownCandidate(id("nobody")))
        );
        assert_eq!(ledger.view_candidates(), before);
    }
    // the refused voter was not marked: their vote still counts
    assert_eq!(ledger.vote(id("u2"), id("alice")), Ok(()));
    assert_eq!(votes_of(&ledger, "alice"), Some(2));
}

#[test]
fn first_vote_adds_exactly_one() {
    let mut ledger = VotingContract::new();
    assert_eq!(ledger.add_candidate(id("alice"), None), Ok(()));
    assert_eq!(ledger.add_candidate(id("bob"), None), Ok(()));
    assert_eq!(ledger.vote(id("u1"), id("bob")), Ok(()));
    assert_eq!(votes_of(&ledger, "bob"), Some(1));
    assert_eq!(votes_of(&ledger, "alice"), Some(0));
}

#[test]
fn second_vote_of_a_voter_fails_for_any_candidate() {
    let mut ledger = VotingContract::new();
    assert_eq!(ledger.add_candidate(id("alice"), None), Ok(()));
    assert_eq!(ledger.add_candidate(id("bob"), None), Ok(()));
    assert_eq!(ledger.vote(id("u1"), id("alice")), Ok(()));
    assert_eq!(ledger.vote(id("u1"), id("alice")), Err(VotingError::AlreadyVoted(id("u1"))));
    assert_eq!(ledger.vote(id("u1"), id("bob")), Err(VotingError::AlreadyVoted(id("u1"))));
    assert_eq!(votes_of(&ledger, "alice"), Some(1));
    assert_eq!(votes_of(&ledger, "bob"), Some(0));
}

#[test]
fn a_voter_who_has_voted_is_told_so_even_for_an_unknown_candidate() {
    let mut ledger = VotingContract::new();
    assert_eq!(ledger.add_candidate(id("alice"), None), Ok(()));
    assert_eq!(ledger.vote(id("u1"), id("alice")), Ok(()));
    assert_eq!(ledger.vote(id("u1"), id("carol")), Err(VotingError::AlreadyVoted(id("u1"))));
}

#[test]
fn vote_for_unknown_candidate_fails_and_does_not_mark_the_voter() {
    let mut ledger = VotingContract::new();
    assert_eq!(ledger.add_candidate(id("alice"), None), Ok(()));
    assert_eq!(
        ledger.vote(id("u1"), id("carol")),
        Err(VotingError::UnknownCandidate(id("carol")))
    );
    assert_eq!(votes_of(&ledger, "alice"), Some(0));
    assert_eq!(ledger.vote(id("u1"), id("alice")), Ok(()));
    assert_eq!(votes_of(&ledger, "alice"), Some(1));
}

#[test]
fn vote_on_an_empty_ledger_fails() {
    let mut ledger = VotingContract::new();
    assert_eq!(ledger.vote(id("u1"), id("alice")), Err(VotingError::UnknownCandidate(id("alice"))));
    assert!(ledger.view_candidates().is_empty());
}

#[test]
fn listing_counts_registrations_and_votes() {
    let mut ledger = VotingContract::new();
    let mut registered = 0;
    let mut cast: u128 = 0;
    for n in ["a", "b", "c", "a", "b", "d"].iter() {
        if ledger.add_candidate(id(n), None).is_ok() {
            registered += 1;
        }
    }
    let attempts = [
        ("v1", "a"),
        ("v2", "a"),
        ("v1", "b"),
        ("v3", "zzz"),
        ("v3", "d"),
        ("v4", "c"),
        ("v2", "c"),
        ("v5", "a"),
    ];
    for (voter, candidate) in attempts.iter() {
        if ledger.vote(id(voter), id(candidate)).is_ok() {
            cast += 1;
        }
    }
    assert_eq!(registered, 4);
    assert_eq!(cast, 5);
    let listed = ledger.view_candidates();
    assert_eq!(listed.len(), registered);
    assert_eq!(listed.iter().map(|c| c.votes).sum::<u128>(), cast);
    assert_eq!(votes_of(&ledger, "a"), Some(3));
    assert_eq!(votes_of(&ledger, "b"), Some(0));
    assert_eq!(votes_of(&ledger, "c"), Some(1));
    assert_eq!(votes_of(&ledger, "d"), Some(1));
}

#[test]
fn listing_is_in_registration_order_and_is_a_snapshot() {
    let mut ledger = VotingContract::new();
    for n in ["zed", "alpha", "mid"].iter() {
        assert_eq!(ledger.add_candidate(id(n), None), Ok(()));
    }
    let mut snapshot = ledger.view_candidates();
    let ids: Vec<&str> = snapshot.iter().map(|c| c.candidate_id.as_str()).collect();
    assert_eq!(ids, vec!["zed", "alpha", "mid"]);
    snapshot[0].votes = 99;
    snapshot.clear();
    assert_eq!(ledger.view_candidates().len(), 3);
    assert_eq!(votes_of(&ledger, "zed"), Some(0));
}

#[test]
fn voting_keeps_the_metadata() {
    let mut ledger = VotingContract::new();
    assert_eq!(ledger.add_candidate(id("alice"), Some(sample_metadata())), Ok(()));
    assert_eq!(ledger.vote(id("u1"), id("alice")), Ok(()));
    assert_eq!(ledger.vote(id("u2"), id("alice")), Ok(()));
    assert_eq!(
        ledger.view_candidates(),
        vec![Candidate { candidate_id: id("alice"), metadata: Some(sample_metadata()), votes: 2 }]
    );
}

#[test]
fn alice_and_bob_scenario() {
    let mut ledger = VotingContract::new();
    assert_eq!(ledger.add_candidate(id("alice"), None), Ok(()));
    assert_eq!(ledger.add_candidate(id("bob"), None), Ok(()));

    assert_eq!(ledger.vote(id("u1"), id("alice")), Ok(()));
    assert_eq!(votes_of(&ledger, "alice"), Some(1));

    assert_eq!(ledger.vote(id("u1"), id("alice")), Err(VotingError::AlreadyVoted(id("u1"))));
    assert_eq!(votes_of(&ledger, "alice"), Some(1));

    assert_eq!(
        ledger.vote(id("u2"), id("carol")),
        Err(VotingError::UnknownCandidate(id("carol")))
    );

    assert_eq!(ledger.vote(id("u2"), id("bob")), Ok(()));
    assert_eq!(votes_of(&ledger, "bob"), Some(1));

    let listed = ledger.view_candidates();
    assert_eq!(
        listed,
        vec![
            Candidate { candidate_id: id("alice"), metadata: None, votes: 1 },
            Candidate { candidate_id: id("bob"), metadata: None, votes: 1 },
        ]
    );
    assert_eq!(listed.iter().map(|c| c.votes).sum::<u128>(), 2);
}
