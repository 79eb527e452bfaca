//! The state of a Raft node and the rules it answers votes and commits by.
use vstd::prelude::*;
use rand::Rng;
use crate::node::{Node, NodeID, NodeState, ConfigMap};
use crate::rpc::{RequestVoteRequest, RequestVoteResponse};
use crate::tracker::{KvsTracker, snapshotted};

pub mod candidate;
pub mod follower;
pub mod leader;

verus! {

/// The role a node plays.
#[derive(Debug, PartialEq, Eq, Structural)]
pub enum State {
    Follower,
    Candidate,
    Leader,
    NonVoter,
}

/// The state of a node of the cluster.
#[derive(Debug)]
pub struct Raft {
    pub id: NodeID,
    pub state: State,
    pub current_term: u64,
    commit_index: u64,
    pub last_applied: u64,
    last_log_index: u64,
    last_log_term: u64,
    pub voted_for: Option<NodeID>,
    pub current_leader: Option<NodeID>,
    pub nodes: Vec<Node>,
    pub nodes_state: Vec<(NodeID, NodeState)>,
    /// The election timeout, in milliseconds.
    pub election_timeout: u64,
    /// The heartbeat interval, in milliseconds.
    pub heartbeat: u64,
    pub snapshot_offset: u64,
    pub snapshot_num: u64,
}

/// The value of a node's state.
pub struct RaftModel {
    pub id: Seq<char>,
    pub state: State,
    pub current_term: u64,
    pub commit_index: u64,
    pub last_applied: u64,
    pub last_log_index: u64,
    pub last_log_term: u64,
    pub voted_for: Option<Seq<char>>,
    pub current_leader: Option<Seq<char>>,
    pub nodes: Seq<Node>,
    pub nodes_state: Seq<(NodeID, NodeState)>,
    pub election_timeout: u64,
    pub heartbeat: u64,
    pub snapshot_offset: u64,
    pub snapshot_num: u64,
}

/// The text of an optional identifier.
pub open spec fn opt_text(o: Option<String>) -> Option<Seq<char>> {
    match o {
        Some(s) => Some(s@),
        None => None,
    }
}

impl View for Raft {
    type V = RaftModel;

    closed spec fn view(&self) -> RaftModel {
        RaftModel {
            id: self.id@,
            state: self.state,
            current_term: self.current_term,
            commit_index: self.commit_index,
            last_applied: self.last_applied,
            last_log_index: self.last_log_index,
            last_log_term: self.last_log_term,
            voted_for: opt_text(self.voted_for),
            current_leader: opt_text(self.current_leader),
            nodes: self.nodes@,
            nodes_state: self.nodes_state@,
            election_timeout: self.election_timeout,
            heartbeat: self.heartbeat,
            snapshot_offset: self.snapshot_offset,
            snapshot_num: self.snapshot_num,
        }
    }
}

/// A node's state after it answered a request for a vote, and the answer.
/// A request of an older term is refused. A request of a later term makes the
/// node a follower of that term that has voted for nobody. Then the node
/// refuses a candidate whose log is behind its own or who is not the one it
/// voted for in this term; otherwise it grants the vote, records it, and is a
/// follower.
pub open spec fn vote_outcome(
    m: RaftModel,
    term: u64,
    candidate: Seq<char>,
    last_index: u64,
    last_term: u64,
) -> (RaftModel, RequestVoteResponse) {
    if m.current_term > term {
        (m, RequestVoteResponse { term: m.current_term, vote_granted: false })
    } else {
        let t = in_term(m, term);
        if m.last_log_term > last_term || m.last_log_index > last_index {
            (t, RequestVoteResponse { term, vote_granted: false })
        } else {
            match t.voted_for {
                Some(c) => if c == candidate {
                    (
                        RaftModel { state: State::Follower, ..t },
                        RequestVoteResponse { term, vote_granted: true },
                    )
                } else {
                    (t, RequestVoteResponse { term, vote_granted: false })
                },
                None => (
                    RaftModel { state: State::Follower, voted_for: Some(candidate), ..t },
                    RequestVoteResponse { term, vote_granted: true },
                ),
            }
        }
    }
}

/// A node in `term`: a later term than its own makes it a follower of that
/// term that has voted for nobody; its own term changes nothing.
pub open spec fn in_term(m: RaftModel, term: u64) -> RaftModel {
    if term > m.current_term {
        RaftModel { current_term: term, voted_for: None, state: State::Follower, ..m }
    } else {
        m
    }
}

/// The next index to commit on the way to `end`: the commit index itself, while
/// it is below `end`.
pub open spec fn next_commit(m: RaftModel, end: u64) -> Option<u64> {
    if m.commit_index < end {
        Some(m.commit_index)
    } else {
        None
    }
}

/// Two nodes with the same identifier, address and port.
pub open spec fn same_node(a: Node, b: Node) -> bool {
    a.id@ == b.id@ && a.ip@ == b.ip@ && a.port == b.port
}

/// The smaller of `a` and `b`.
pub(crate) fn min_u64(a: u64, b: u64) -> (r: u64)
    ensures
        r == (if a < b {
            a
        } else {
            b
        }),
{
    if a < b {
        a
    } else {
        b
    }
}

/// A number drawn uniformly from `[lo, hi)` by the thread's random number
/// generator (`rand::Rng::gen_range`); the contract states only the range.
#[verifier::external_body]
fn random_in(lo: u64, hi: u64) -> (r: u64)
    requires
        lo < hi,
    ensures
        lo <= r < hi,
{
    rand::thread_rng().gen_range(lo..hi)
}

impl Raft {
    /// A follower of term 0 with an empty log, set up from `config`.
    pub fn new(config: ConfigMap, id: String) -> (r: Raft)
        ensures
            r@ == (RaftModel {
                id: id@,
                state: State::Follower,
                current_term: 0,
                commit_index: 0,
                last_applied: 0,
                last_log_index: 0,
                last_log_term: 0,
                voted_for: None,
                current_leader: None,
                nodes: config.nodes@,
                nodes_state: config.nodes_state@,
                election_timeout: config.timeout,
                heartbeat: config.heartbeat,
                snapshot_offset: config.snapshot_offset,
                snapshot_num: 0,
            }),
    {
        Raft {
            id,
            state: State::Follower,
            current_term: 0,
            commit_index: 0,
            last_applied: 0,
            last_log_index: 0,
            last_log_term: 0,
            voted_for: None,
            current_leader: None,
            nodes: config.nodes,
            nodes_state: config.nodes_state,
            election_timeout: config.timeout,
            heartbeat: config.heartbeat,
            snapshot_offset: config.snapshot_offset,
            snapshot_num: 0,
        }
    }

    /// Answers a request for a vote (see `vote_outcome`).
    pub fn handle_vote_request(&mut self, body: RequestVoteRequest) -> (r: RequestVoteResponse)
        ensures
            (final(self)@, r) == vote_outcome(
                old(self)@,
                body.term,
                body.candidate_id@,
                body.last_log_index,
                body.last_log_term,
            ),
    {
        if self.current_term > body.term {
            return RequestVoteResponse { term: self.current_term, vote_granted: false };
        }
        if body.term > self.current_term {
            self.current_term = body.term;
            self.voted_for = None;
            self.set_state(State::Follower);
        }
        if self.last_term() > body.last_log_term || self.last_index() > body.last_log_index {
            return RequestVoteResponse { term: self.current_term, vote_granted: false };
        }
        let same = match &self.voted_for {
            Some(candidate_id) => Some(*candidate_id == body.candidate_id),
            None => None,
        };
        match same {
            Some(true) => {
                self.set_state(State::Follower);
                RequestVoteResponse { term: self.current_term, vote_granted: true }
            },
            Some(false) => RequestVoteResponse { term: self.current_term, vote_granted: false },
            None => {
                self.set_state(State::Follower);
                self.voted_for = Some(body.candidate_id);
                RequestVoteResponse { term: self.current_term, vote_granted: true }
            },
        }
    }

    pub fn set_state(&mut self, state: State)
        ensures
            final(self)@ == (RaftModel { state, ..old(self)@ }),
    {
        self.state = state;
    }

    /// An election timeout in milliseconds, drawn at random from
    /// `[election_timeout, 2 * election_timeout)`.
    pub fn generate_timeout(&self) -> (r: u64)
        requires
            0 < self@.election_timeout,
            self@.election_timeout * 2 <= u64::MAX,
        ensures
            self@.election_timeout <= r < self@.election_timeout * 2,
    {
        random_in(self.election_timeout, self.election_timeout * 2)
    }

    /// A copy of the other nodes of the cluster.
    pub fn get_all_nodes(&self) -> (r: Vec<Node>)
        ensures
            r@.len() == self@.nodes.len(),
            forall|i: int| 0 <= i < r@.len() ==> same_node(#[trigger] r@[i], self@.nodes[i]),
    {
        let mut out: Vec<Node> = Vec::new();
        let mut i: usize = 0;
        while i < self.nodes.len()
            invariant
                i <= self.nodes@.len(),
                out@.len() == i,
                forall|j: int| 0 <= j < i ==> same_node(#[trigger] out@[j], self.nodes@[j]),
            decreases self.nodes@.len() - i,
        {
            out.push(self.nodes[i].clone_node());
            i = i + 1;
        }
        out
    }

    pub fn update_last_log(&mut self, index: u64, term: u64)
        ensures
            final(self)@ == (RaftModel {
                last_log_index: index,
                last_log_term: term,
                ..old(self)@
            }),
    {
        self.last_log_index = index;
        self.last_log_term = term;
    }

    /// Moves the commit index to `index`; answers whether a snapshot is due:
    /// `snapshot` is set and `index` is a multiple of the snapshot offset.
    pub fn update_commit_index(&mut self, index: u64, snapshot: bool) -> (r: bool)
        requires
            old(self)@.snapshot_offset > 0,
        ensures
            final(self)@ == (RaftModel { commit_index: index, ..old(self)@ }),
            r == (index % old(self)@.snapshot_offset == 0 && snapshot),
    {
        self.commit_index = index;
        index % self.snapshot_offset == 0 && snapshot
    }

    /// Records a snapshot in the log's tracker and counts it.
    pub fn take_snapshot(&mut self, tracker: &mut KvsTracker)
        requires
            old(self)@.snapshot_num < u64::MAX,
            old(tracker)@.snapshot_no < u64::MAX,
        ensures
            final(self)@ == (RaftModel { snapshot_num: (old(self)@.snapshot_num + 1) as u64, ..old(self)@ }),
            final(tracker)@ == snapshotted(old(tracker)@),
            final(tracker).addr_spec() == old(tracker).addr_spec(),
            final(tracker).snapshot_path_spec() == old(tracker).snapshot_path_spec(),
    {
        tracker.take_snapshot();
        self.snapshot_num = self.snapshot_num + 1;
    }

    pub fn last_index(&self) -> (r: u64)
        ensures
            r == self@.last_log_index,
    {
        self.last_log_index
    }

    pub fn last_term(&self) -> (r: u64)
        ensures
            r == self@.last_log_term,
    {
        self.last_log_term
    }

    pub fn get_commit_index(&self) -> (r: u64)
        ensures
            r == self@.commit_index,
    {
        self.commit_index
    }

    /// The next index to commit on the way to `end` (see `next_commit`).
    pub fn next_to_commit(&self, end: u64) -> (r: Option<u64>)
        ensures
            r == next_commit(self@, end),
    {
        if self.commit_index < end {
            Some(self.commit_index)
        } else {
            None
        }
    }
}

/// A node never goes back to an older term by answering a vote, and its
/// answer carries the term it is in afterwards.
pub proof fn law_vote_keeps_term(
    m: RaftModel,
    term: u64,
    candidate: Seq<char>,
    last_index: u64,
    last_term: u64,
)
    ensures
        vote_outcome(m, term, candidate, last_index, last_term).0.current_term >= m.current_term,
        vote_outcome(m, term, candidate, last_index, last_term).1.term == vote_outcome(
            m,
            term,
            candidate,
            last_index,
            last_term,
        ).0.current_term,
{
}

/// A vote is granted only to a candidate of the node's term or a later one,
/// whose log is at least as far as the node's own, when the node has voted
/// for nobody or for that same candidate in that term. The node is then a
/// follower of that term that records its vote for the candidate; nothing
/// else changes.
pub proof fn law_vote_granted(
    m: RaftModel,
    term: u64,
    candidate: Seq<char>,
    last_index: u64,
    last_term: u64,
)
    requires
        vote_outcome(m, term, candidate, last_index, last_term).1.vote_granted,
    ensures
        m.current_term <= term,
        m.last_log_term <= last_term,
        m.last_log_index <= last_index,
        term > m.current_term || m.voted_for is None || m.voted_for == Some(candidate),
        vote_outcome(m, term, candidate, last_index, last_term).0 == (RaftModel {
            current_term: term,
            state: State::Follower,
            voted_for: Some(candidate),
            ..m
        }),
{
}

/// A node that has recorded its vote for `a` refuses every other candidate
/// of its term.
pub proof fn law_recorded_vote_refuses_others(
    m: RaftModel,
    a: Seq<char>,
    b: Seq<char>,
    last_index: u64,
    last_term: u64,
)
    requires
        m.voted_for == Some(a),
        a != b,
    ensures
        !vote_outcome(m, m.current_term, b, last_index, last_term).1.vote_granted,
{
}

/// Election safety: a node grants at most one vote in a term. Once it granted
/// its vote to `a` in term `t`, it refuses every other candidate of term `t`.
pub proof fn law_one_vote_per_term(
    m: RaftModel,
    t: u64,
    a: Seq<char>,
    b: Seq<char>,
    a_index: u64,
    a_term: u64,
    b_index: u64,
    b_term: u64,
)
    requires
        a != b,
        vote_outcome(m, t, a, a_index, a_term).1.vote_granted,
    ensures
        !vote_outcome(vote_outcome(m, t, a, a_index, a_term).0, t, b, b_index, b_term).1.vote_granted,
{
    law_vote_granted(m, t, a, a_index, a_term);
    law_recorded_vote_refuses_others(
        vote_outcome(m, t, a, a_index, a_term).0,
        a,
        b,
        b_index,
        b_term,
    );
}

/// Asking the same node twice for the same vote gets the same answer.
pub proof fn law_vote_repeatable(
    m: RaftModel,
    term: u64,
    candidate: Seq<char>,
    last_index: u64,
    last_term: u64,
)
    ensures
        ({
            let (m1, r1) = vote_outcome(m, term, candidate, last_index, last_term);
            let (m2, r2) = vote_outcome(m1, term, candidate, last_index, last_term);
            r2 == r1 && m2 == m1
        }),
{
}

/// Committing the index that `next_commit` names and moving the commit index
/// past it advances the commit index by one, up to `end` and never beyond.
pub proof fn law_commit_steps(m: RaftModel, end: u64)
    requires
        next_commit(m, end) is Some,
    ensures
        next_commit(m, end) == Some(m.commit_index),
        m.commit_index + 1 <= end,
        next_commit(RaftModel { commit_index: (m.commit_index + 1) as u64, ..m }, end) is Some
            <==> m.commit_index + 1 < end,
{
}

/// A node grants its vote to a candidate of its term or a later one whose
/// log is at least as up to date as its own (last term and last index both
/// no smaller), when it has not voted for another candidate in that term: it
/// answers with that term and records the vote.
pub proof fn law_vote_granted_when_up_to_date(
    m: RaftModel,
    term: u64,
    candidate: Seq<char>,
    last_index: u64,
    last_term: u64,
)
    requires
        m.current_term <= term,
        m.last_log_term <= last_term,
        m.last_log_index <= last_index,
        term > m.current_term || m.voted_for is None || m.voted_for == Some(candidate),
    ensures
        vote_outcome(m, term, candidate, last_index, last_term).1 == (RequestVoteResponse {
            term,
            vote_granted: true,
        }),
        vote_outcome(m, term, candidate, last_index, last_term).0.voted_for == Some(candidate),
        vote_outcome(m, term, candidate, last_index, last_term).0.current_term == term,
{
}

/// A node refuses a candidate whose log is behind its own: an older last
/// term or a smaller last index.
pub proof fn law_vote_refused_when_behind(
    m: RaftModel,
    term: u64,
    candidate: Seq<char>,
    last_index: u64,
    last_term: u64,
)
    requires
        m.last_log_term > last_term || m.last_log_index > last_index,
    ensures
        !vote_outcome(m, term, candidate, last_index, last_term).1.vote_granted,
{
}

} // verus!
