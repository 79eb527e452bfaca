//! The follower's side: it answers votes, accepts the leader's entries and
//! commits what the leader committed.
use vstd::prelude::*;
use crate::node::Node;
use crate::raft::{min_u64, Raft, RaftModel, State, vote_outcome, same_node};
use crate::rpc::{RequestVoteRequest, RequestVoteResponse, AppendEntriesRequest, AppendEntriesResponse, AppendReply, Entry};
use crate::command::text;

verus! {

/// A node that follows a leader.
#[derive(Debug)]
pub struct Follower;

/// What a follower does next with a request to append entries.
#[derive(Debug)]
pub enum AppendStep {
    /// Answer at once.
    Reply(AppendEntriesResponse),
    /// A heartbeat was accepted: commit every index below `end` (see
    /// `Raft::next_to_commit` and `Follower::committed`), then answer with
    /// `Follower::success_reply`.
    Commit { end: u64 },
    /// An entry was accepted: parse its payload, append it to the log, and hand
    /// its index to `Follower::entry_appended`.
    Append { entry: Entry, leader_commit: u64 },
}

/// A follower accepts a request of its term or a later one whose previous
/// entry is its own last entry.
pub open spec fn accepts(m: RaftModel, term: u64, prev_index: u64, prev_term: u64) -> bool {
    m.current_term <= term && m.last_log_term == prev_term && m.last_log_index == prev_index
}

/// Where a follower's commits stop: below the leader's commit index and its
/// own last index, when the leader has committed further than it has;
/// nowhere beyond its commit index otherwise.
pub open spec fn commit_end(commit_index: u64, index: u64, leader_commit: u64) -> u64 {
    if leader_commit > commit_index {
        if leader_commit < index {
            leader_commit
        } else {
            index
        }
    } else {
        commit_index
    }
}

/// A follower's answer to a request for a vote, as a node's (see
/// `vote_outcome`), save that its role stays as it is.
pub open spec fn follower_vote_outcome(
    m: RaftModel,
    term: u64,
    candidate: Seq<char>,
    last_index: u64,
    last_term: u64,
) -> (RaftModel, RequestVoteResponse) {
    let (n, r) = vote_outcome(m, term, candidate, last_index, last_term);
    (RaftModel { state: m.state, ..n }, r)
}

/// The refusal of a request, with the follower's term.
pub open spec fn refusal(m: RaftModel) -> AppendStep {
    AppendStep::Reply(AppendEntriesResponse { success: false, term: m.current_term })
}

/// The follower's state once `leader` is its leader, in term `term`.
pub open spec fn led_by(m: RaftModel, leader: Seq<char>, term: u64) -> RaftModel {
    RaftModel { current_leader: Some(leader), current_term: term, ..m }
}

/// The step that commits every index below `end`.
pub open spec fn commit_step(end: u64) -> AppendStep {
    AppendStep::Commit { end }
}

/// `r` hands on a copy of `entry` to be appended.
pub open spec fn is_append_of(r: AppendStep, entry: Entry, leader_commit: u64) -> bool {
    match r {
        AppendStep::Append { entry: e, leader_commit: c } => e.payload@ == entry.payload@
            && e.term == entry.term && c == leader_commit,
        _ => false,
    }
}

impl Follower {
    pub fn new() -> (f: Follower) {
        Follower
    }

    pub fn is_follower(&self, raft: &Raft) -> (r: bool)
        ensures
            r == (raft@.state == State::Follower),
    {
        raft.state == State::Follower
    }

    /// Answers a request for a vote (see `follower_vote_outcome`).
    pub fn handle_vote_request(&self, raft: &mut Raft, body: RequestVoteRequest) -> (r:
        RequestVoteResponse)
        ensures
            (final(raft)@, r) == follower_vote_outcome(
                old(raft)@,
                body.term,
                body.candidate_id@,
                body.last_log_index,
                body.last_log_term,
            ),
    {
        if raft.current_term > body.term {
            return RequestVoteResponse { term: raft.current_term, vote_granted: false };
        }
        if body.term > raft.current_term {
            raft.current_term = body.term;
            raft.voted_for = None;
        }
        if raft.last_term() > body.last_log_term || raft.last_index() > body.last_log_index {
            return RequestVoteResponse { term: raft.current_term, vote_granted: false };
        }
        let same = match &raft.voted_for {
            Some(candidate_id) => Some(*candidate_id == body.candidate_id),
            None => None,
        };
        match same {
            Some(true) => RequestVoteResponse { term: raft.current_term, vote_granted: true },
            Some(false) => RequestVoteResponse { term: raft.current_term, vote_granted: false },
            None => {
                raft.voted_for = Some(body.candidate_id);
                RequestVoteResponse { term: raft.current_term, vote_granted: true }
            },
        }
    }

    /// Takes a request to append entries. A request of an older term, or one
    /// whose previous entry is not the follower's last, is refused with the
    /// follower's term and changes nothing. Otherwise the sender is the leader;
    /// a heartbeat also brings the follower to its term and commits up to the
    /// leader's commit index; an entry is handed on to be appended.
    pub fn handle_append_entry(&self, raft: &mut Raft, body: AppendEntriesRequest) -> (r:
        AppendStep)
        ensures
            !accepts(old(raft)@, body.term, body.prev_log_index, body.prev_log_term) ==> (final(raft)@ == old(raft)@
                && r == refusal(old(raft)@)),
            (accepts(old(raft)@, body.term, body.prev_log_index, body.prev_log_term)
                && body.entries@.len() == 0) ==> (final(raft)@ == led_by(
                old(raft)@,
                body.leader_id@,
                body.term,
            ) && r == commit_step(
                commit_end(old(raft)@.commit_index, old(raft)@.last_log_index, body.leader_commit),
            )),
            (accepts(old(raft)@, body.term, body.prev_log_index, body.prev_log_term)
                && body.entries@.len() > 0) ==> (final(raft)@ == led_by(
                old(raft)@,
                body.leader_id@,
                old(raft)@.current_term,
            ) && is_append_of(r, body.entries@[0], body.leader_commit)),
    {
        if raft.current_term > body.term {
            return AppendStep::Reply(
                AppendEntriesResponse { success: false, term: raft.current_term },
            );
        }
        if raft.last_term() != body.prev_log_term || raft.last_index() != body.prev_log_index {
            return AppendStep::Reply(
                AppendEntriesResponse { success: false, term: raft.current_term },
            );
        }
        raft.current_leader = Some(body.leader_id);
        if body.entries.len() == 0 {
            raft.current_term = body.term;
            let end = Self::end_of_commits(raft, raft.last_index(), body.leader_commit);
            return AppendStep::Commit { end };
        }
        let entry = Entry { payload: body.entries[0].payload.clone(), term: body.entries[0].term };
        AppendStep::Append { entry, leader_commit: body.leader_commit }
    }

    /// Where the follower's commits stop (see `commit_end`).
    fn end_of_commits(raft: &Raft, index: u64, leader_commit: u64) -> (r: u64)
        ensures
            r == commit_end(raft@.commit_index, index, leader_commit),
    {
        if leader_commit > raft.get_commit_index() {
            min_u64(leader_commit, index)
        } else {
            raft.get_commit_index()
        }
    }

    /// Records the entry that was appended at `index` with term `term`;
    /// answers where the commits stop.
    pub fn entry_appended(&self, raft: &mut Raft, index: u64, term: u64, leader_commit: u64) -> (r:
        u64)
        ensures
            final(raft)@ == (RaftModel { last_log_index: index, last_log_term: term, ..old(raft)@ }),
            r == commit_end(old(raft)@.commit_index, index, leader_commit),
    {
        raft.update_last_log(index, term);
        Self::end_of_commits(raft, index, leader_commit)
    }

    /// Records that the entry at `index` was committed.
    pub fn committed(&self, raft: &mut Raft, index: u64)
        requires
            index < u64::MAX,
        ensures
            final(raft)@ == (RaftModel { commit_index: (index + 1) as u64, ..old(raft)@ }),
    {
        raft.commit_index = index + 1;
    }

    /// The answer to an accepted request, once its work is done.
    pub fn success_reply(&self, raft: &Raft) -> (r: AppendReply)
        ensures
            r == AppendReply::Response(
                AppendEntriesResponse { success: true, term: raft@.current_term },
            ),
    {
        AppendReply::Response(AppendEntriesResponse { success: true, term: raft.current_term })
    }

    /// The answer when the entry could not be appended or committed.
    pub fn append_failed(&self) -> (r: AppendReply)
        ensures
            r matches AppendReply::Cancelled(m) && m@ == "Coud not append to log"@,
    {
        AppendReply::Cancelled(text("Coud not append to log"))
    }

    /// The answer when the entry's payload could not be read.
    pub fn unreadable_entry(&self) -> (r: AppendReply)
        ensures
            r matches AppendReply::Cancelled(m) && m@ == "Could not parse the message"@,
    {
        AppendReply::Cancelled(text("Could not parse the message"))
    }

    /// The node a client's request is forwarded to: the leader, the first of
    /// the nodes with its identifier; an error when there is no leader.
    pub fn leader_node(&self, raft: &Raft) -> (r: Result<Node, String>)
        requires
            raft@.current_leader matches Some(id) ==> exists|i: int|
                0 <= i < raft@.nodes.len() && (#[trigger] raft@.nodes[i]).id@ == id,
        ensures
            raft@.current_leader is None ==> (r matches Err(m) && m@ == "No leader exist"@),
            raft@.current_leader matches Some(id) ==> (r matches Ok(n) && exists|i: int|
                0 <= i < raft@.nodes.len() && same_node(n, #[trigger] raft@.nodes[i])
                    && raft@.nodes[i].id@ == id && forall|j: int|
                    0 <= j < i ==> (#[trigger] raft@.nodes[j]).id@ != id),
    {
        match &raft.current_leader {
            None => Err(text("No leader exist")),
            Some(id) => {
                let mut i: usize = 0;
                while i < raft.nodes.len()
                    invariant
                        i <= raft.nodes@.len(),
                        raft@.current_leader == Some(id@),
                        raft@.nodes == raft.nodes@,
                        forall|j: int| 0 <= j < i ==> (#[trigger] raft.nodes@[j]).id@ != id@,
                        exists|k: int|
                            0 <= k < raft.nodes@.len() && (#[trigger] raft.nodes@[k]).id@ == id@,
                    decreases raft.nodes@.len() - i,
                {
                    if raft.nodes[i].id == *id {
                        return Ok(raft.nodes[i].clone_node());
                    }
                    i = i + 1;
                }
                proof {
                    let k = choose|k: int|
                        0 <= k < raft.nodes@.len() && (#[trigger] raft.nodes@[k]).id@ == id@;
                    assert(raft.nodes@[k].id@ != id@);
                }
                Err(text("No leader exist"))
            },
        }
    }
}

/// A follower never commits past the leader's commit index nor past its own
/// last index, and its commit index never goes back.
pub proof fn law_commits_bounded(commit_index: u64, index: u64, leader_commit: u64, i: u64)
    requires
        commit_index <= i < commit_end(commit_index, index, leader_commit),
    ensures
        i < leader_commit,
        i < index,
        commit_end(commit_index, index, leader_commit) <= leader_commit,
        commit_end(commit_index, index, leader_commit) <= index,
{
}

/// For a node that is a follower, a follower's answer to a vote is a node's.
pub proof fn law_follower_vote(
    m: RaftModel,
    term: u64,
    candidate: Seq<char>,
    last_index: u64,
    last_term: u64,
)
    requires
        m.state == State::Follower,
    ensures
        follower_vote_outcome(m, term, candidate, last_index, last_term) == vote_outcome(
            m,
            term,
            candidate,
            last_index,
            last_term,
        ),
{
}

/// Election safety for a follower: once it granted its vote to `a` in term
/// `t`, it refuses every other candidate of term `t`.
pub proof fn law_follower_one_vote_per_term(
    m: RaftModel,
    t: u64,
    a: Seq<char>,
    b: Seq<char>,
    a_index: u64,
    a_term: u64,
    b_index: u64,
    b_term: u64,
)
    requires
        a != b,
        follower_vote_outcome(m, t, a, a_index, a_term).1.vote_granted,
    ensures
        !follower_vote_outcome(
            follower_vote_outcome(m, t, a, a_index, a_term).0,
            t,
            b,
            b_index,
            b_term,
        ).1.vote_granted,
{
}

/// A follower grants its vote to a candidate of its term or a later one whose
/// log is at least as up to date as its own, when it has not voted for
/// another candidate in that term, and records the vote.
pub proof fn law_follower_grants_when_up_to_date(
    m: RaftModel,
    term: u64,
    candidate: Seq<char>,
    last_index: u64,
    last_term: u64,
)
    requires
        m.current_term <= term,
        m.last_log_term <= last_term,
        m.last_log_index <= last_index,
        term > m.current_term || m.voted_for is None || m.voted_for == Some(candidate),
    ensures
        follower_vote_outcome(m, term, candidate, last_index, last_term).1 == (RequestVoteResponse {
            term,
            vote_granted: true,
        }),
        follower_vote_outcome(m, term, candidate, last_index, last_term).0.voted_for == Some(
            candidate,
        ),
{
}

/// When the leader has committed past the follower, the follower commits up
/// to the smaller of the leader's commit index and its own last index: the
/// end lies below neither and is one of them. Otherwise nothing is
/// committed: the end is the follower's own commit index.
pub proof fn law_commits_reach_the_leaders(commit_index: u64, index: u64, leader_commit: u64)
    ensures
        leader_commit > commit_index ==> {
            let end = commit_end(commit_index, index, leader_commit);
            &&& end <= leader_commit
            &&& end <= index
            &&& (end == leader_commit || end == index)
        },
        leader_commit <= commit_index ==> commit_end(commit_index, index, leader_commit)
            == commit_index,
{
}

} // verus!
