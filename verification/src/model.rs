//! The mathematical model of the ledger: plain sequences of candidates and
//! ballots, the two transitions on them, and the facts that keep the model
//! well formed.

use vstd::prelude::*;

verus! {

/// A candidate as the contracts see it.
pub struct CandidateView {
    pub candidate_id: Seq<char>,
    pub metadata: Option<Map<String, String>>,
    pub votes: nat,
}

/// One recorded vote: who voted, and for whom.
pub struct BallotView {
    pub voter: Seq<char>,
    pub candidate_id: Seq<char>,
}

/// Why a command was turned down, with the offending identifier.
pub enum Rejection {
    DuplicateCandidate(Seq<char>),
    UnknownCandidate(Seq<char>),
    AlreadyVoted(Seq<char>),
}

/// The whole ledger: candidates in the order of their registration, ballots
/// in the order in which they were cast.
pub struct LedgerView {
    pub candidates: Seq<CandidateView>,
    pub ballots: Seq<BallotView>,
}

/// Some candidate in `cs` carries the identifier `id`.
pub open spec fn registered(cs: Seq<CandidateView>, id: Seq<char>) -> bool {
    exists|i: int| 0 <= i < cs.len() && (#[trigger] cs[i]).candidate_id == id
}

/// Some ballot in `bs` was cast by `voter`.
pub open spec fn has_voted(bs: Seq<BallotView>, voter: Seq<char>) -> bool {
    exists|j: int| 0 <= j < bs.len() && (#[trigger] bs[j]).voter == voter
}

/// The number of ballots in `bs` that name the candidate `id`.
pub open spec fn ballots_for(bs: Seq<BallotView>, id: Seq<char>) -> nat
    decreases bs.len(),
{
    if bs.len() == 0 {
        0
    } else {
        ballots_for(bs.drop_last(), id) + if bs.last().candidate_id == id {
            1nat
        } else {
            0nat
        }
    }
}

/// The sum of the vote counters of `cs`.
pub open spec fn total_votes(cs: Seq<CandidateView>) -> nat
    decreases cs.len(),
{
    if cs.len() == 0 {
        0
    } else {
        total_votes(cs.drop_last()) + cs.last().votes
    }
}

/// A newly registered candidate: no votes yet.
pub open spec fn newcomer(id: Seq<char>, metadata: Option<Map<String, String>>) -> CandidateView {
    CandidateView { candidate_id: id, metadata, votes: 0 }
}

/// The same candidate with one more vote.
pub open spec fn credited(c: CandidateView) -> CandidateView {
    CandidateView { votes: c.votes + 1, ..c }
}

/// `cs` with one vote added to every candidate that carries `id`; with
/// distinct identifiers that is at most one candidate.
pub open spec fn credit(cs: Seq<CandidateView>, id: Seq<char>) -> Seq<CandidateView> {
    Seq::new(
        cs.len(),
        |i: int|
            if cs[i].candidate_id == id {
                credited(cs[i])
            } else {
                cs[i]
            },
    )
}

/// No two candidates of `cs` carry the same identifier.
pub open spec fn distinct_ids(cs: Seq<CandidateView>) -> bool {
    forall|i: int, j: int|
        #![trigger cs[i], cs[j]]
        0 <= i < j < cs.len() ==> cs[i].candidate_id != cs[j].candidate_id
}

/// `cs` after an attempt to register `id`: unchanged where the identifier
/// is registered already, else with the newcomer appended.
pub open spec fn enrol(
    cs: Seq<CandidateView>,
    id: Seq<char>,
    metadata: Option<Map<String, String>>,
) -> Seq<CandidateView> {
    if registered(cs, id) {
        cs
    } else {
        cs.push(newcomer(id, metadata))
    }
}

impl LedgerView {
    /// The ledger before anything has happened.
    pub open spec fn empty() -> LedgerView {
        LedgerView { candidates: Seq::empty(), ballots: Seq::empty() }
    }

    /// What holds of every ledger that registrations and votes can reach:
    /// no identifier is registered twice, nobody has voted twice, every
    /// ballot names a registered candidate, every counter equals the number
    /// of ballots for its candidate, and the counters sum to the number of
    /// ballots.
    pub open spec fn wf(self) -> bool {
        &&& distinct_ids(self.candidates)
        &&& forall|i: int, j: int|
            #![trigger self.ballots[i], self.ballots[j]]
            0 <= i < j < self.ballots.len() ==> self.ballots[i].voter != self.ballots[j].voter
        &&& forall|j: int|
            0 <= j < self.ballots.len() ==> registered(
                self.candidates,
                (#[trigger] self.ballots[j]).candidate_id,
            )
        &&& forall|i: int|
            0 <= i < self.candidates.len() ==> (#[trigger] self.candidates[i]).votes
                == ballots_for(self.ballots, self.candidates[i].candidate_id)
        &&& total_votes(self.candidates) == self.ballots.len()
    }

    /// Whether registering `id` is turned down, and why.
    pub open spec fn register_outcome(self, id: Seq<char>) -> Option<Rejection> {
        if registered(self.candidates, id) {
            Some(Rejection::DuplicateCandidate(id))
        } else {
            None
        }
    }

    /// The ledger after an attempt to register `id`: unchanged where the
    /// attempt is turned down, else with the newcomer appended. The ballots
    /// stay as they are.
    pub open spec fn register(self, id: Seq<char>, metadata: Option<Map<String, String>>) -> LedgerView {
        LedgerView { candidates: enrol(self.candidates, id, metadata), ..self }
    }

    /// Whether a vote of `voter` for `id` is turned down, and why. A voter
    /// who has voted is told so whatever the candidate.
    pub open spec fn vote_outcome(self, voter: Seq<char>, id: Seq<char>) -> Option<Rejection> {
        if has_voted(self.ballots, voter) {
            Some(Rejection::AlreadyVoted(voter))
        } else if !registered(self.candidates, id) {
            Some(Rejection::UnknownCandidate(id))
        } else {
            None
        }
    }

    /// The ledger after an attempt of `voter` to vote for `id`: unchanged
    /// where the attempt is turned down, else with the candidate credited
    /// and the ballot recorded.
    pub open spec fn vote(self, voter: Seq<char>, id: Seq<char>) -> LedgerView {
        if self.vote_outcome(voter, id) is Some {
            self
        } else {
            LedgerView {
                candidates: credit(self.candidates, id),
                ballots: self.ballots.push(BallotView { voter, candidate_id: id }),
            }
        }
    }
}

/// One request to the ledger.
pub enum Command {
    Register { candidate_id: Seq<char>, metadata: Option<Map<String, String>> },
    Vote { voter: Seq<char>, candidate_id: Seq<char> },
}

impl LedgerView {
    /// Whether the command is turned down, and why.
    pub open spec fn outcome(self, command: Command) -> Option<Rejection> {
        match command {
            Command::Register { candidate_id, .. } => self.register_outcome(candidate_id),
            Command::Vote { voter, candidate_id } => self.vote_outcome(voter, candidate_id),
        }
    }

    /// The ledger after the command.
    pub open spec fn apply(self, command: Command) -> LedgerView {
        match command {
            Command::Register { candidate_id, metadata } => self.register(candidate_id, metadata),
            Command::Vote { voter, candidate_id } => self.vote(voter, candidate_id),
        }
    }

    /// The ledger after the commands, taken in order.
    pub open spec fn apply_all(self, commands: Seq<Command>) -> LedgerView
        decreases commands.len(),
    {
        if commands.len() == 0 {
            self
        } else {
            self.apply_all(commands.drop_last()).apply(commands.last())
        }
    }

    /// How many of the commands, taken in order, are registrations that
    /// are accepted.
    pub open spec fn accepted_registrations(self, commands: Seq<Command>) -> nat
        decreases commands.len(),
    {
        if commands.len() == 0 {
            0
        } else {
            let before = self.apply_all(commands.drop_last());
            self.accepted_registrations(commands.drop_last()) + if commands.last() is Register
                && before.outcome(commands.last()) is None {
                1nat
            } else {
                0nat
            }
        }
    }

    /// How many of the commands, taken in order, are votes that are
    /// accepted.
    pub open spec fn accepted_votes(self, commands: Seq<Command>) -> nat
        decreases commands.len(),
    {
        if commands.len() == 0 {
            0
        } else {
            let before = self.apply_all(commands.drop_last());
            self.accepted_votes(commands.drop_last()) + if commands.last() is Vote
                && before.outcome(commands.last()) is None {
                1nat
            } else {
                0nat
            }
        }
    }
}

/// No ballot names an identifier that is not registered.
pub proof fn lemma_unregistered_has_no_ballots(s: LedgerView, id: Seq<char>, n: int)
    requires
        s.wf(),
        !registered(s.candidates, id),
        0 <= n <= s.ballots.len(),
    ensures
        ballots_for(s.ballots.take(n), id) == 0,
    decreases n,
{
    if n > 0 {
        lemma_unregistered_has_no_ballots(s, id, n - 1);
        assert(s.ballots.take(n).drop_last() =~= s.ballots.take(n - 1));
        assert(s.ballots.take(n).last() == s.ballots[n - 1]);
        assert(registered(s.candidates, s.ballots[n - 1].candidate_id));
    }
}

/// A counter never exceeds the number of ballots.
pub proof fn lemma_ballots_for_bounded(bs: Seq<BallotView>, id: Seq<char>)
    ensures
        ballots_for(bs, id) <= bs.len(),
    decreases bs.len(),
{
    if bs.len() > 0 {
        lemma_ballots_for_bounded(bs.drop_last(), id);
    }
}

/// Crediting an identifier that no candidate carries changes nothing.
pub proof fn lemma_credit_unregistered(cs: Seq<CandidateView>, id: Seq<char>)
    requires
        !registered(cs, id),
    ensures
        credit(cs, id) == cs,
{
    assert forall|i: int| 0 <= i < cs.len() implies credit(cs, id)[i] == cs[i] by {
        assert(cs[i].candidate_id != id);
    }
    assert(credit(cs, id) =~= cs);
}

/// Crediting a registered identifier, where identifiers are distinct, adds
/// exactly one vote to the total.
pub proof fn lemma_credit_total(cs: Seq<CandidateView>, id: Seq<char>)
    requires
        registered(cs, id),
        distinct_ids(cs),
    ensures
        total_votes(credit(cs, id)) == total_votes(cs) + 1,
    decreases cs.len(),
{
    let rest = cs.drop_last();
    let k = choose|k: int| 0 <= k < cs.len() && (#[trigger] cs[k]).candidate_id == id;
    assert(credit(cs, id).drop_last() =~= credit(rest, id));
    assert(distinct_ids(rest)) by {
        assert forall|i: int, j: int|
            #![trigger rest[i], rest[j]]
            0 <= i < j < rest.len() implies rest[i].candidate_id != rest[j].candidate_id by {
            assert(rest[i] == cs[i] && rest[j] == cs[j]);
        }
    }
    if cs.last().candidate_id == id {
        assert(!registered(rest, id)) by {
            if registered(rest, id) {
                let m = choose|m: int| 0 <= m < rest.len() && (#[trigger] rest[m]).candidate_id == id;
                assert(cs[m] == rest[m]);
                assert(cs[m].candidate_id != cs[cs.len() - 1].candidate_id);
            }
        }
        lemma_credit_unregistered(rest, id);
    } else {
        assert(k < rest.len());
        assert(rest[k] == cs[k]);
        assert(registered(rest, id));
        lemma_credit_total(rest, id);
    }
}

/// Registration keeps the identifiers distinct.
pub proof fn lemma_enrol_distinct(
    cs: Seq<CandidateView>,
    id: Seq<char>,
    metadata: Option<Map<String, String>>,
)
    requires
        distinct_ids(cs),
    ensures
        distinct_ids(enrol(cs, id, metadata)),
{
    let t = enrol(cs, id, metadata);
    if !registered(cs, id) {
        assert forall|i: int, j: int|
            #![trigger t[i], t[j]]
            0 <= i < j < t.len() implies t[i].candidate_id != t[j].candidate_id by {
            if j == cs.len() {
                assert(cs[i].candidate_id != id);
            } else {
                assert(cs[i].candidate_id != cs[j].candidate_id);
            }
        }
    }
}

/// Crediting keeps the identifiers, and so their distinctness.
pub proof fn lemma_credit_distinct(cs: Seq<CandidateView>, id: Seq<char>)
    requires
        distinct_ids(cs),
    ensures
        distinct_ids(credit(cs, id)),
{
    let t = credit(cs, id);
    assert forall|i: int, j: int|
        #![trigger t[i], t[j]]
        0 <= i < j < t.len() implies t[i].candidate_id != t[j].candidate_id by {
        assert(cs[i].candidate_id != cs[j].candidate_id);
    }
}

/// Registration keeps the ledger well formed.
pub proof fn lemma_register_wf(s: LedgerView, id: Seq<char>, metadata: Option<Map<String, String>>)
    requires
        s.wf(),
    ensures
        s.register(id, metadata).wf(),
{
    if !registered(s.candidates, id) {
        let t = s.register(id, metadata);
        let n = s.candidates.len() as int;
        assert(t.candidates.drop_last() =~= s.candidates);
        assert forall|i: int| 0 <= i < n implies t.candidates[i] == s.candidates[i] by {}
        assert forall|j: int| 0 <= j < t.ballots.len() implies registered(
            t.candidates,
            (#[trigger] t.ballots[j]).candidate_id,
        ) by {
            let k = choose|k: int|
                0 <= k < n && (#[trigger] s.candidates[k]).candidate_id == s.ballots[j].candidate_id;
            assert(t.candidates[k].candidate_id == s.ballots[j].candidate_id);
        }
        lemma_unregistered_has_no_ballots(s, id, s.ballots.len() as int);
        assert(s.ballots.take(s.ballots.len() as int) =~= s.ballots);
        lemma_enrol_distinct(s.candidates, id, metadata);
    }
}

/// Voting keeps the ledger well formed.
pub proof fn lemma_vote_wf(s: LedgerView, voter: Seq<char>, id: Seq<char>)
    requires
        s.wf(),
    ensures
        s.vote(voter, id).wf(),
{
    if s.vote_outcome(voter, id) is None {
        let t = s.vote(voter, id);
        let n = s.ballots.len() as int;
        assert(t.ballots.drop_last() =~= s.ballots);
        lemma_credit_total(s.candidates, id);
        lemma_credit_distinct(s.candidates, id);
        assert forall|i: int, j: int|
            #![trigger t.ballots[i], t.ballots[j]]
            0 <= i < j < t.ballots.len() implies t.ballots[i].voter != t.ballots[j].voter by {
            if j == n {
                assert(s.ballots[i].voter != voter);
            } else {
                assert(s.ballots[i].voter != s.ballots[j].voter);
            }
        }
        assert forall|j: int| 0 <= j < t.ballots.len() implies registered(
            t.candidates,
            (#[trigger] t.ballots[j]).candidate_id,
        ) by {
            let wanted = t.ballots[j].candidate_id;
            if j < n {
                assert(t.ballots[j] == s.ballots[j]);
            }
            assert(registered(s.candidates, wanted));
            let k = choose|k: int|
                0 <= k < s.candidates.len() && (#[trigger] s.candidates[k]).candidate_id == wanted;
            assert(t.candidates[k].candidate_id == wanted);
        }
        assert forall|i: int| 0 <= i < t.candidates.len() implies (#[trigger] t.candidates[i]).votes
            == ballots_for(t.ballots, t.candidates[i].candidate_id) by {
            assert(s.candidates[i].votes == ballots_for(s.ballots, s.candidates[i].candidate_id));
        }
    }
}

} // verus!
