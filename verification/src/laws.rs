//! Laws that hold of every ledger, stated over the model that the
//! operations of [`crate::VotingContract`] are specified by.

use crate::model::{
    credited, has_voted, lemma_credit_total, lemma_register_wf, lemma_vote_wf, registered,
    total_votes, Command, LedgerView, Rejection,
};
use vstd::prelude::*;

verus! {

/// Every ledger that commands lead to from a well-formed one is well formed.
pub proof fn law_commands_keep_well_formed(s: LedgerView, commands: Seq<Command>)
    requires
        s.wf(),
    ensures
        s.apply_all(commands).wf(),
    decreases commands.len(),
{
    if commands.len() > 0 {
        law_commands_keep_well_formed(s, commands.drop_last());
        let before = s.apply_all(commands.drop_last());
        match commands.last() {
            Command::Register { candidate_id, metadata } => {
                lemma_register_wf(before, candidate_id, metadata);
            },
            Command::Vote { voter, candidate_id } => {
                lemma_vote_wf(before, voter, candidate_id);
            },
        }
    }
}

/// A candidate, once registered, stays registered, and a voter who has
/// voted stays so, whatever one command does.
pub proof fn law_records_are_permanent(s: LedgerView, command: Command, id: Seq<char>)
    ensures
        registered(s.candidates, id) ==> registered(s.apply(command).candidates, id),
        has_voted(s.ballots, id) ==> has_voted(s.apply(command).ballots, id),
{
    let t = s.apply(command);
    if registered(s.candidates, id) {
        let k = choose|k: int| 0 <= k < s.candidates.len() && (#[trigger] s.candidates[k]).candidate_id == id;
        assert(t.candidates[k].candidate_id == id);
    }
    if has_voted(s.ballots, id) {
        let k = choose|k: int| 0 <= k < s.ballots.len() && (#[trigger] s.ballots[k]).voter == id;
        assert(t.ballots[k].voter == id);
    }
}

/// A candidate, once registered, stays registered, and a voter who has
/// voted stays so, whatever commands follow.
pub proof fn law_records_outlast_commands(s: LedgerView, commands: Seq<Command>, id: Seq<char>)
    ensures
        registered(s.candidates, id) ==> registered(s.apply_all(commands).candidates, id),
        has_voted(s.ballots, id) ==> has_voted(s.apply_all(commands).ballots, id),
    decreases commands.len(),
{
    if commands.len() > 0 {
        law_records_outlast_commands(s, commands.drop_last(), id);
        law_records_are_permanent(s.apply_all(commands.drop_last()), commands.last(), id);
    }
}

/// A candidate keeps its place, its identifier and its metadata for good,
/// and its votes never go down, whatever commands follow.
pub proof fn law_candidates_only_gain_votes(s: LedgerView, commands: Seq<Command>, i: int)
    requires
        0 <= i < s.candidates.len(),
    ensures
        i < s.apply_all(commands).candidates.len(),
        s.apply_all(commands).candidates[i].candidate_id == s.candidates[i].candidate_id,
        s.apply_all(commands).candidates[i].metadata == s.candidates[i].metadata,
        s.apply_all(commands).candidates[i].votes >= s.candidates[i].votes,
    decreases commands.len(),
{
    if commands.len() > 0 {
        law_candidates_only_gain_votes(s, commands.drop_last(), i);
    }
}

/// After registrations alone, an identifier is registered only if it was
/// before or one of the registrations names it.
proof fn lemma_registrations_add_only_their_ids(
    s: LedgerView,
    commands: Seq<Command>,
    id: Seq<char>,
)
    requires
        forall|i: int| 0 <= i < commands.len() ==> (#[trigger] commands[i]) is Register,
        !registered(s.candidates, id),
        forall|i: int|
            0 <= i < commands.len() ==> (#[trigger] commands[i])->Register_candidate_id != id,
    ensures
        !registered(s.apply_all(commands).candidates, id),
    decreases commands.len(),
{
    if commands.len() > 0 {
        let rest = commands.drop_last();
        assert forall|i: int| 0 <= i < rest.len() implies (#[trigger] rest[i]) is Register
            && rest[i]->Register_candidate_id != id by {
            assert(rest[i] == commands[i]);
        }
        lemma_registrations_add_only_their_ids(s, rest, id);
        let before = s.apply_all(rest);
        let after = s.apply_all(commands);
        let last = commands[commands.len() - 1];
        assert(last is Register && last->Register_candidate_id != id);
        if registered(after.candidates, id) {
            let k = choose|k: int|
                0 <= k < after.candidates.len() && (#[trigger] after.candidates[k]).candidate_id
                    == id;
            if k < before.candidates.len() {
                assert(before.candidates[k].candidate_id == id);
            }
        }
    }
}

/// Registering identifiers that differ from one another and from all that
/// are registered succeeds for each of them in turn: the registration at
/// any place `k` is accepted by the ledger that the ones before it left, and
/// appends a candidate with that identifier, its metadata and no votes.
pub proof fn law_distinct_registrations_succeed(s: LedgerView, commands: Seq<Command>, k: int)
    requires
        forall|i: int| 0 <= i < commands.len() ==> (#[trigger] commands[i]) is Register,
        forall|i: int|
            0 <= i < commands.len() ==> !registered(
                s.candidates,
                (#[trigger] commands[i])->Register_candidate_id,
            ),
        forall|i: int, j: int|
            #![trigger commands[i], commands[j]]
            0 <= i < j < commands.len() ==> commands[i]->Register_candidate_id
                != commands[j]->Register_candidate_id,
        0 <= k < commands.len(),
    ensures
        s.apply_all(commands.take(k)).outcome(commands[k]) is None,
        s.apply_all(commands.take(k + 1)).candidates == s.apply_all(
            commands.take(k),
        ).candidates.push(
            crate::model::newcomer(
                commands[k]->Register_candidate_id,
                commands[k]->Register_metadata,
            ),
        ),
{
    let earlier = commands.take(k);
    let id = commands[k]->Register_candidate_id;
    assert forall|i: int| 0 <= i < earlier.len() implies (#[trigger] earlier[i]) is Register
        && earlier[i]->Register_candidate_id != id by {
        assert(earlier[i] == commands[i]);
    }
    lemma_registrations_add_only_their_ids(s, earlier, id);
    assert(commands.take(k + 1).drop_last() =~= earlier);
    assert(commands.take(k + 1).last() == commands[k]);
}

/// Registering an identifier that is registered fails as a duplicate and
/// changes nothing, whatever commands came in between: the candidate of
/// that identifier keeps its metadata and its votes.
pub proof fn law_second_registration_fails(
    s: LedgerView,
    between: Seq<Command>,
    id: Seq<char>,
    metadata: Option<Map<String, String>>,
)
    requires
        registered(s.candidates, id),
    ensures
        s.apply_all(between).register_outcome(id) == Some(Rejection::DuplicateCandidate(id)),
        s.apply_all(between).register(id, metadata) == s.apply_all(between),
{
    law_records_outlast_commands(s, between, id);
}

/// The vote of one who has not voted, for a registered candidate, is
/// accepted: it adds exactly one vote to that candidate, leaves every other
/// candidate as it was, and marks the voter as having voted.
pub proof fn law_first_vote_counts_once(s: LedgerView, voter: Seq<char>, id: Seq<char>)
    requires
        s.wf(),
        !has_voted(s.ballots, voter),
        registered(s.candidates, id),
    ensures
        s.vote_outcome(voter, id) is None,
        s.vote(voter, id).candidates.len() == s.candidates.len(),
        forall|i: int|
            0 <= i < s.candidates.len() ==> (#[trigger] s.vote(voter, id).candidates[i]) == (if s.candidates[i].candidate_id
                == id {
                credited(s.candidates[i])
            } else {
                s.candidates[i]
            }),
        total_votes(s.vote(voter, id).candidates) == total_votes(s.candidates) + 1,
        has_voted(s.vote(voter, id).ballots, voter),
{
    lemma_credit_total(s.candidates, id);
    let t = s.vote(voter, id);
    assert(t.ballots[s.ballots.len() as int].voter == voter);
}

/// Whoever has voted is refused from then on, whatever commands came in
/// between and whichever candidate is named, and the refusal changes no
/// counter.
pub proof fn law_later_votes_are_refused(
    s: LedgerView,
    between: Seq<Command>,
    voter: Seq<char>,
    id: Seq<char>,
)
    requires
        has_voted(s.ballots, voter),
    ensures
        s.apply_all(between).vote_outcome(voter, id) == Some(Rejection::AlreadyVoted(voter)),
        s.apply_all(between).vote(voter, id) == s.apply_all(between),
{
    law_records_outlast_commands(s, between, voter);
}

/// A vote of one who has not voted, for an identifier that is not
/// registered, is refused as naming an unknown candidate and changes
/// nothing: the voter is not marked as having voted.
pub proof fn law_unknown_candidate_is_refused(s: LedgerView, voter: Seq<char>, id: Seq<char>)
    requires
        !has_voted(s.ballots, voter),
        !registered(s.candidates, id),
    ensures
        s.vote_outcome(voter, id) == Some(Rejection::UnknownCandidate(id)),
        s.vote(voter, id) == s,
        !has_voted(s.vote(voter, id).ballots, voter),
{
}

/// After any commands on a well-formed ledger, the number of candidates has
/// grown by the number of accepted registrations, and the sum of all
/// counters by the number of accepted votes.
pub proof fn law_tally_counts_accepted_commands(s: LedgerView, commands: Seq<Command>)
    requires
        s.wf(),
    ensures
        s.apply_all(commands).candidates.len() == s.candidates.len() + s.accepted_registrations(
            commands,
        ),
        total_votes(s.apply_all(commands).candidates) == total_votes(s.candidates)
            + s.accepted_votes(commands),
    decreases commands.len(),
{
    if commands.len() > 0 {
        let rest = commands.drop_last();
        law_tally_counts_accepted_commands(s, rest);
        law_commands_keep_well_formed(s, rest);
        law_commands_keep_well_formed(s, commands);
        let before = s.apply_all(rest);
        let after = s.apply_all(commands);
        assert(after == before.apply(commands.last()));
        match commands.last() {
            Command::Register { candidate_id, metadata } => {
                assert(after.ballots == before.ballots);
            },
            Command::Vote { voter, candidate_id } => {
                if before.vote_outcome(voter, candidate_id) is None {
                    assert(after.ballots.len() == before.ballots.len() + 1);
                }
            },
        }
    }
}

/// On a new ledger, the candidates are as many as the accepted
/// registrations, and their votes sum to the number of accepted votes.
pub proof fn law_tally_from_empty(commands: Seq<Command>)
    ensures
        LedgerView::empty().apply_all(commands).wf(),
        LedgerView::empty().apply_all(commands).candidates.len()
            == LedgerView::empty().accepted_registrations(commands),
        total_votes(LedgerView::empty().apply_all(commands).candidates)
            == LedgerView::empty().accepted_votes(commands),
{
    law_commands_keep_well_formed(LedgerView::empty(), commands);
    law_tally_counts_accepted_commands(LedgerView::empty(), commands);
}

/// A command that is refused changes nothing, so repeating it any number
/// of times is refused each time in the same way and leaves the ledger as
/// it was.
pub proof fn law_refusal_repeats(s: LedgerView, command: Command, times: nat)
    requires
        s.outcome(command) is Some,
    ensures
        s.apply(command) == s,
        s.apply_all(Seq::new(times, |i: int| command)) == s,
        s.apply_all(Seq::new(times, |i: int| command)).outcome(command) == s.outcome(command),
    decreases times,
{
    if times > 0 {
        law_refusal_repeats(s, command, (times - 1) as nat);
        let all = Seq::new(times, |i: int| command);
        assert(all.drop_last() =~= Seq::new((times - 1) as nat, |i: int| command));
        assert(all.last() == command);
    }
}

} // verus!
