//! The candidate's side of an election: it asks for votes and counts them.
use vstd::prelude::*;
use crate::raft::{Raft, RaftModel, State, in_term, vote_outcome};
use crate::rpc::{RequestVoteRequest, RequestVoteResponse, AppendReply};
use crate::command::text;

verus! {

/// A node that stands for election, with the votes it has.
#[derive(Debug)]
pub struct Candidate {
    number_of_votes: u32,
}

/// Enough votes to lead: a strict majority of the whole cluster, the
/// candidate and the other nodes together.
pub open spec fn enough_votes(votes: u32, nodes: nat) -> bool {
    2 * votes > nodes + 1
}

/// A candidate's state after it answered another candidate's request for a
/// vote, and the answer. A request of its own term or an older one is
/// refused: the candidate has voted for itself in its term. A request of a
/// later term makes it a follower of that term that has voted for nobody;
/// then it grants the vote and records it when the requester's log reaches
/// its own, and refuses otherwise.
pub open spec fn candidate_vote_outcome(
    m: RaftModel,
    term: u64,
    candidate: Seq<char>,
    last_index: u64,
    last_term: u64,
) -> (RaftModel, RequestVoteResponse) {
    if term > m.current_term {
        let t = in_term(m, term);
        if last_index >= m.last_log_index && last_term >= m.last_log_term {
            (
                RaftModel { voted_for: Some(candidate), ..t },
                RequestVoteResponse { term, vote_granted: true },
            )
        } else {
            (t, RequestVoteResponse { term, vote_granted: false })
        }
    } else {
        (m, RequestVoteResponse { term: m.current_term, vote_granted: false })
    }
}

/// A candidate's state and vote count after an answer to its request: a
/// later term makes it a follower of that term with no leader and no vote; a
/// granted vote is counted, and enough of them make it the leader; a refusal
/// changes nothing.
pub open spec fn count_vote(m: RaftModel, votes: u32, response: RequestVoteResponse) -> (
    RaftModel,
    u32,
) {
    if response.term > m.current_term {
        (
            RaftModel {
                state: State::Follower,
                current_term: response.term,
                current_leader: None,
                voted_for: None,
                ..m
            },
            votes,
        )
    } else if response.vote_granted {
        let v = (votes + 1) as u32;
        if enough_votes(v, m.nodes.len()) {
            (RaftModel { state: State::Leader, ..m }, v)
        } else {
            (m, v)
        }
    } else {
        (m, votes)
    }
}

impl Candidate {
    pub closed spec fn votes(&self) -> u32 {
        self.number_of_votes
    }

    pub fn new() -> (c: Candidate)
        ensures
            c.votes() == 0,
    {
        Candidate { number_of_votes: 0 }
    }

    pub fn number_of_votes(&self) -> (r: u32)
        ensures
            r == self.votes(),
    {
        self.number_of_votes
    }

    pub fn is_candidate(&self, raft: &Raft) -> (r: bool)
        ensures
            r == (raft@.state == State::Candidate),
    {
        raft.state == State::Candidate
    }

    /// Opens a round of the election: the next term, a vote for itself.
    pub fn start_election(&mut self, raft: &mut Raft)
        requires
            old(raft)@.current_term < u64::MAX,
        ensures
            final(raft)@ == (RaftModel {
                current_term: (old(raft)@.current_term + 1) as u64,
                voted_for: Some(old(raft)@.id),
                ..old(raft)@
            }),
            final(self).votes() == 1,
    {
        raft.current_term = raft.current_term + 1;
        let id = raft.id.clone();
        raft.voted_for = Some(id);
        self.number_of_votes = 1;
    }

    /// The request for a vote that the candidate sends every other node.
    pub fn vote_request(&self, raft: &Raft) -> (r: RequestVoteRequest)
        ensures
            r.term == raft@.current_term,
            r.candidate_id@ == raft@.id,
            r.last_log_index == raft@.last_log_index,
            r.last_log_term == raft@.last_log_term,
    {
        RequestVoteRequest {
            term: raft.current_term,
            candidate_id: raft.id.clone(),
            last_log_index: raft.last_index(),
            last_log_term: raft.last_term(),
        }
    }

    /// Answers another candidate's request for a vote (see
    /// `candidate_vote_outcome`).
    pub fn handle_vote_request(&self, raft: &mut Raft, body: RequestVoteRequest) -> (r:
        RequestVoteResponse)
        ensures
            (final(raft)@, r) == candidate_vote_outcome(
                old(raft)@,
                body.term,
                body.candidate_id@,
                body.last_log_index,
                body.last_log_term,
            ),
    {
        if body.term > raft.current_term {
            raft.current_term = body.term;
            raft.voted_for = None;
            raft.set_state(State::Follower);
            if body.last_log_index >= raft.last_index() && body.last_log_term >= raft.last_term() {
                raft.voted_for = Some(body.candidate_id);
                return RequestVoteResponse { term: raft.current_term, vote_granted: true };
            }
        }
        RequestVoteResponse { term: raft.current_term, vote_granted: false }
    }

    /// Counts an answer to its request (see `count_vote`).
    pub fn handle_vote(&mut self, raft: &mut Raft, response: &RequestVoteResponse)
        requires
            response.term <= old(raft)@.current_term && response.vote_granted ==> old(
                self,
            ).votes() < u32::MAX,
        ensures
            (final(raft)@, final(self).votes()) == count_vote(
                old(raft)@,
                old(self).votes(),
                *response,
            ),
    {
        if response.term > raft.current_term {
            raft.set_state(State::Follower);
            raft.current_term = response.term;
            raft.current_leader = None;
            raft.voted_for = None;
            return ;
        }
        if response.vote_granted {
            self.number_of_votes = self.number_of_votes + 1;
            if self.has_enough_vote(raft) {
                raft.set_state(State::Leader);
            }
        }
    }

    pub fn has_enough_vote(&self, raft: &Raft) -> (r: bool)
        ensures
            r == enough_votes(self.votes(), raft@.nodes.len()),
    {
        2 * (self.number_of_votes as u128) > (raft.nodes.len() as u128) + 1
    }

    /// What a candidate answers a request to append entries: it is cancelled.
    pub fn append_reply(&self) -> (r: AppendReply)
        ensures
            r matches AppendReply::Cancelled(m) && m@ == "Node is in Candidate state"@,
    {
        AppendReply::Cancelled(text("Node is in Candidate state"))
    }
}

/// A candidate grants a vote only for a later term than its own, in which it
/// then records that vote; so it never votes a second time in its own term.
pub proof fn law_candidate_votes_only_in_later_terms(
    m: RaftModel,
    term: u64,
    candidate: Seq<char>,
    last_index: u64,
    last_term: u64,
)
    ensures
        candidate_vote_outcome(m, term, candidate, last_index, last_term).1.vote_granted ==> (term
            > m.current_term && candidate_vote_outcome(
            m,
            term,
            candidate,
            last_index,
            last_term,
        ).0.current_term == term && candidate_vote_outcome(
            m,
            term,
            candidate,
            last_index,
            last_term,
        ).0.voted_for == Some(candidate)),
        term <= m.current_term ==> candidate_vote_outcome(m, term, candidate, last_index, last_term)
            == (m, RequestVoteResponse { term: m.current_term, vote_granted: false }),
{
}

/// Election safety for a candidate: in the term it opened it has voted for
/// itself, so it refuses every other candidate of that term, as a candidate
/// and as a node alike; and once it granted its vote to `a` in a later term
/// `t`, it refuses every other candidate of `t`.
pub proof fn law_candidate_one_vote_per_term(
    m: RaftModel,
    t: u64,
    a: Seq<char>,
    b: Seq<char>,
    a_index: u64,
    a_term: u64,
    b_index: u64,
    b_term: u64,
)
    requires
        a != b,
    ensures
        m.voted_for == Some(m.id) && b != m.id ==> !candidate_vote_outcome(
            m,
            m.current_term,
            b,
            b_index,
            b_term,
        ).1.vote_granted && !vote_outcome(m, m.current_term, b, b_index, b_term).1.vote_granted,
        candidate_vote_outcome(m, t, a, a_index, a_term).1.vote_granted ==> !vote_outcome(
            candidate_vote_outcome(m, t, a, a_index, a_term).0,
            t,
            b,
            b_index,
            b_term,
        ).1.vote_granted,
{
}

/// Only a granted vote, one of the candidate's own term, that brings the
/// count to enough votes makes a candidate the leader.
pub proof fn law_leader_by_votes(m: RaftModel, votes: u32, response: RequestVoteResponse)
    requires
        m.state == State::Candidate,
        votes < u32::MAX,
        count_vote(m, votes, response).0.state == State::Leader,
    ensures
        response.vote_granted,
        response.term <= m.current_term,
        count_vote(m, votes, response).1 == votes + 1,
        enough_votes(count_vote(m, votes, response).1, m.nodes.len()),
{
}

/// A candidate grants its vote to a requester of a later term whose log is
/// at least as up to date as its own (last index and last term both no
/// smaller): it becomes a follower of that term that records the vote.
pub proof fn law_candidate_grants_when_up_to_date(
    m: RaftModel,
    term: u64,
    candidate: Seq<char>,
    last_index: u64,
    last_term: u64,
)
    requires
        term > m.current_term,
        last_index >= m.last_log_index,
        last_term >= m.last_log_term,
    ensures
        candidate_vote_outcome(m, term, candidate, last_index, last_term).1
            == (RequestVoteResponse { term, vote_granted: true }),
        candidate_vote_outcome(m, term, candidate, last_index, last_term).0.voted_for == Some(
            candidate,
        ),
        candidate_vote_outcome(m, term, candidate, last_index, last_term).0.current_term == term,
        candidate_vote_outcome(m, term, candidate, last_index, last_term).0.state
            == State::Follower,
{
}

/// A candidate refuses a requester whose log is behind its own.
pub proof fn law_candidate_refuses_when_behind(
    m: RaftModel,
    term: u64,
    candidate: Seq<char>,
    last_index: u64,
    last_term: u64,
)
    requires
        last_index < m.last_log_index || last_term < m.last_log_term,
    ensures
        !candidate_vote_outcome(m, term, candidate, last_index, last_term).1.vote_granted,
{
}

} // verus!
