//! The leader's side: it appends clients' writes, replicates its log to every
//! other node through a replicator each, and commits what enough of them hold.
use vstd::prelude::*;
use crate::frame::Frame;
use crate::node::{Node, NodeID, NodeState};
use crate::raft::{min_u64, Raft, RaftModel, State, same_node};
use crate::raft::follower::accepts;
use crate::rpc::{AppendEntriesRequest, SnapshotRequest};
use crate::tracker::{KvsTracker, TrackerModel, appended, in_log, term_known, log_term};
use crate::command::text;

verus! {

/// A node that leads the cluster.
#[derive(Debug)]
pub struct Leader;

/// How far a replicator's node is behind the leader's log.
#[derive(Debug, PartialEq, Eq, Structural)]
pub enum ReplicationState {
    /// It holds the whole log; entries are sent as they come.
    UpToDate,
    /// Its log and the leader's differ somewhere; probe backwards for where.
    Lagged,
    /// The entries it lacks were dropped by a snapshot; send the snapshot.
    NeedSnappshot,
    /// Send it the entries it lacks, one at a time.
    Updating,
}

/// What the leader and its replicators tell one another.
#[derive(Debug)]
pub enum ReplicatorMsg {
    /// Replicate the log up to `index`.
    ReplicateReq { index: u64 },
    /// The node `id` holds the log up to `match_index`.
    ReplicateResp { next_index: u64, match_index: u64, id: NodeID },
}

impl ReplicatorMsg {
    /// A copy of the message.
    pub fn duplicate(&self) -> (r: ReplicatorMsg)
        ensures
            match *self {
                ReplicatorMsg::ReplicateReq { index } => (r == ReplicatorMsg::ReplicateReq { index }),
                ReplicatorMsg::ReplicateResp { next_index, match_index, id } => (r matches ReplicatorMsg::ReplicateResp {
                    next_index: n,
                    match_index: m,
                    id: i,
                } && n == next_index && m == match_index && i@ == id@),
            },
    {
        match self {
            ReplicatorMsg::ReplicateReq { index } => ReplicatorMsg::ReplicateReq { index: *index },
            ReplicatorMsg::ReplicateResp { next_index, match_index, id } => ReplicatorMsg::ReplicateResp {
                next_index: *next_index,
                match_index: *match_index,
                id: id.clone(),
            },
        }
    }
}

/// The leader's view of one other node, and how it brings that node's log up
/// to date.
#[derive(Debug)]
pub struct Replicator {
    pub term: u64,
    pub match_index: u64,
    pub next_index: u64,
    pub node: Node,
    /// The leader's identifier.
    pub id: NodeID,
    pub state: ReplicationState,
    /// The heartbeat interval, in milliseconds.
    pub heartbeat: u64,
}

/// A request that carries one entry of the log: the request, with its
/// `entries` still empty, and the entry to put in them (the request it
/// holds, and its term).
#[derive(Debug)]
pub struct EntryRequest {
    pub request: AppendEntriesRequest,
    pub entity: Frame,
    pub entity_term: u64,
}

/// `e` carries the entry at `index` to `rep`'s node, its previous entry the
/// one before the node's next.
pub open spec fn carries(e: EntryRequest, rep: Replicator, t: TrackerModel, index: u64) -> bool {
    &&& e.request.term == rep.term
    &&& e.request.leader_id@ == rep.id@
    &&& e.request.prev_log_index == rep.next_index - 1
    &&& e.request.prev_log_term == log_term(t, (rep.next_index - 1) as u64)
    &&& e.request.entries@.len() == 0
    &&& e.request.leader_commit == t.last_commited_index
    &&& e.entity.model() == t.log[index - 1 - t.last_snapshot_index].1
    &&& e.entity_term == t.log[index - 1 - t.last_snapshot_index].0
}

/// `r` is a request that carries the entry at `index` (see `carries`).
pub open spec fn sends(r: Option<EntryRequest>, rep: Replicator, t: TrackerModel, index: u64) -> bool {
    match r {
        Some(e) => carries(e, rep, t, index),
        None => false,
    }
}

/// `q` probes `rep`'s node: no entries, the previous entry the one before the
/// node's next.
pub open spec fn probes(q: AppendEntriesRequest, rep: Replicator, t: TrackerModel) -> bool {
    &&& q.term == rep.term
    &&& q.leader_id@ == rep.id@
    &&& q.prev_log_index == rep.next_index - 1
    &&& q.prev_log_term == log_term(t, (rep.next_index - 1) as u64)
    &&& q.entries@.len() == 0
    &&& q.leader_commit == t.last_commited_index
}

/// The match index that `states` records for the node `id`: the first entry
/// of that node, or 0.
pub open spec fn match_of(states: Seq<(NodeID, NodeState)>, id: Seq<char>) -> u64
    decreases states.len(),
{
    if states.len() == 0 {
        0
    } else if states[0].0@ == id {
        states[0].1.match_index
    } else {
        match_of(states.drop_first(), id)
    }
}

/// `states` with every entry of the node `id` moved to `next_index` and
/// `match_index`.
pub open spec fn progress(
    states: Seq<(NodeID, NodeState)>,
    id: Seq<char>,
    next_index: u64,
    match_index: u64,
) -> Seq<(NodeID, NodeState)> {
    Seq::new(
        states.len(),
        |i: int|
            if states[i].0@ == id {
                (states[i].0, NodeState { match_index, next_index })
            } else {
                states[i]
            },
    )
}

/// How many of `states` hold the log up to `index`.
pub open spec fn matched(states: Seq<(NodeID, NodeState)>, index: u64) -> nat
    decreases states.len(),
{
    if states.len() == 0 {
        0
    } else {
        matched(states.drop_last(), index) + if states.last().1.match_index >= index {
            1nat
        } else {
            0nat
        }
    }
}

/// The index the leader commits up to when a node reports it holds the log up
/// to `index`: `index`, when that is past the commit index and a strict
/// majority of the cluster holds it, the leader and the nodes recorded as
/// holding it together.
pub open spec fn commit_target(m: RaftModel, index: u64) -> Option<u64> {
    if m.commit_index < index && 2 * (matched(m.nodes_state, index) + 1) > m.nodes.len() + 1 {
        Some(index)
    } else {
        None
    }
}

/// The replicator's state after an entry it sent was taken (`success`) or
/// refused, and the report to the leader: taken, the node matches the entry
/// and the next one is due; refused, `refused` is the state.
pub open spec fn after_entry(r: Replicator, success: bool, refused: Replicator) -> (
    Replicator,
    Option<(u64, u64, Seq<char>)>,
) {
    if success {
        (
            Replicator {
                match_index: r.next_index,
                next_index: (r.next_index + 1) as u64,
                ..r
            },
            Some((r.next_index, (r.next_index + 1) as u64, r.node.id@)),
        )
    } else {
        (refused, None)
    }
}

/// The report `msg` is `(match_index, next_index, id)`.
pub open spec fn reports(msg: Option<ReplicatorMsg>, expected: Option<(u64, u64, Seq<char>)>) -> bool {
    match (msg, expected) {
        (None, None) => true,
        (
            Some(ReplicatorMsg::ReplicateResp { next_index, match_index, id }),
            Some((m, n, i)),
        ) => match_index == m && next_index == n && id@ == i,
        _ => false,
    }
}

/// The pause before the next try after a failed one: twice the last, at most
/// a heartbeat (milliseconds).
pub fn next_backoff(backoff: u64, heartbeat: u64) -> (r: u64)
    requires
        backoff * 2 <= u64::MAX,
    ensures
        r == (if backoff * 2 < heartbeat {
            backoff * 2
        } else {
            heartbeat as int
        }),
{
    min_u64(backoff * 2, heartbeat)
}

impl Leader {
    pub fn new() -> (l: Leader) {
        Leader
    }

    pub fn is_leader(&self, raft: &Raft) -> (r: bool)
        ensures
            r == (raft@.state == State::Leader),
    {
        raft.state == State::Leader
    }

    /// The match index the leader keeps for the node `id` (see `match_of`).
    fn match_index_of(raft: &Raft, id: &String) -> (r: u64)
        ensures
            r == match_of(raft@.nodes_state, id@),
    {
        let mut i: usize = 0;
        proof {
            assert(raft.nodes_state@.subrange(0, raft.nodes_state@.len() as int)
                =~= raft.nodes_state@);
        }
        while i < raft.nodes_state.len()
            invariant
                i <= raft.nodes_state@.len(),
                raft@.nodes_state == raft.nodes_state@,
                match_of(raft.nodes_state@, id@) == match_of(
                    raft.nodes_state@.subrange(i as int, raft.nodes_state@.len() as int),
                    id@,
                ),
            decreases raft.nodes_state@.len() - i,
        {
            let ghost rest = raft.nodes_state@.subrange(i as int, raft.nodes_state@.len() as int);
            if raft.nodes_state[i].0 == *id {
                return raft.nodes_state[i].1.match_index;
            }
            proof {
                assert(rest.drop_first() =~= raft.nodes_state@.subrange(
                    i + 1,
                    raft.nodes_state@.len() as int,
                ));
            }
            i = i + 1;
        }
        0
    }

    /// The replicator the leader starts for `node`: the node is sent entries
    /// from the one after the leader's last, and matches what the leader
    /// recorded of it.
    pub fn replicator_for(&self, raft: &Raft, node: Node) -> (r: Replicator)
        requires
            raft@.last_log_index < u64::MAX,
        ensures
            r.node == node,
            r.next_index == raft@.last_log_index + 1,
            r.match_index == match_of(raft@.nodes_state, node.id@),
            r.term == raft@.current_term,
            r.id@ == raft@.id,
            r.state == ReplicationState::UpToDate,
            r.heartbeat == raft@.heartbeat,
    {
        let match_index = Self::match_index_of(raft, &node.id);
        Replicator::new(
            node,
            raft.last_index() + 1,
            match_index,
            raft.current_term,
            raft.id.clone(),
            raft.heartbeat,
        )
    }

    /// One replicator for each other node, in the order of the nodes.
    pub fn replicators(&self, raft: &Raft) -> (r: Vec<Replicator>)
        requires
            raft@.last_log_index < u64::MAX,
        ensures
            r@.len() == raft@.nodes.len(),
            forall|i: int|
                0 <= i < r@.len() ==> same_node((#[trigger] r@[i]).node, raft@.nodes[i])
                    && r@[i].next_index == raft@.last_log_index + 1 && r@[i].match_index
                    == match_of(raft@.nodes_state, raft@.nodes[i].id@) && r@[i].term
                    == raft@.current_term && r@[i].id@ == raft@.id && r@[i].state
                    == ReplicationState::UpToDate && r@[i].heartbeat == raft@.heartbeat,
    {
        let nodes = raft.get_all_nodes();
        let mut out: Vec<Replicator> = Vec::new();
        let mut i: usize = 0;
        while i < nodes.len()
            invariant
                i <= nodes@.len(),
                nodes@.len() == raft@.nodes.len(),
                raft@.last_log_index < u64::MAX,
                forall|j: int| 0 <= j < nodes@.len() ==> same_node(#[trigger] nodes@[j], raft@.nodes[j]),
                out@.len() == i,
                forall|j: int|
                    0 <= j < i ==> same_node((#[trigger] out@[j]).node, raft@.nodes[j])
                        && out@[j].next_index == raft@.last_log_index + 1 && out@[j].match_index
                        == match_of(raft@.nodes_state, raft@.nodes[j].id@) && out@[j].term
                        == raft@.current_term && out@[j].id@ == raft@.id && out@[j].state
                        == ReplicationState::UpToDate && out@[j].heartbeat == raft@.heartbeat,
            decreases nodes@.len() - i,
        {
            let node = nodes[i].clone_node();
            let r = self.replicator_for(raft, node);
            out.push(r);
            i = i + 1;
        }
        out
    }

    /// Appends a client's write to the log in the leader's term and records
    /// it as the leader's last entry; answers the request to replicate the log
    /// up to it.
    pub fn handle_client_write(
        &self,
        raft: &mut Raft,
        tracker: &mut KvsTracker,
        body: Frame,
    ) -> (r: Result<ReplicatorMsg, String>)
        requires
            old(tracker)@.last_log_index < u64::MAX,
        ensures
            final(tracker)@ == appended(old(tracker)@, old(raft)@.current_term, body.model()),
            final(tracker).addr_spec() == old(tracker).addr_spec(),
            final(tracker).snapshot_path_spec() == old(tracker).snapshot_path_spec(),
            final(raft)@ == (RaftModel {
                last_log_index: (old(tracker)@.last_log_index + 1) as u64,
                last_log_term: old(raft)@.current_term,
                ..old(raft)@
            }),
            r matches Ok(ReplicatorMsg::ReplicateReq { index }) && index == old(
                tracker,
            )@.last_log_index + 1,
    {
        let term = raft.current_term;
        let index = tracker.append_log(body, term)?;
        raft.update_last_log(index, term);
        Ok(ReplicatorMsg::ReplicateReq { index })
    }

    /// Records a replicator's report that the node `id` holds the log up to
    /// `match_index` and is due `next_index`.
    pub fn record_progress(&self, raft: &mut Raft, id: &String, next_index: u64, match_index: u64)
        ensures
            final(raft)@ == (RaftModel {
                nodes_state: progress(old(raft)@.nodes_state, id@, next_index, match_index),
                ..old(raft)@
            }),
    {
        let ghost before = raft@;
        let mut i: usize = 0;
        while i < raft.nodes_state.len()
            invariant
                i <= raft.nodes_state@.len(),
                raft.nodes_state@.len() == before.nodes_state.len(),
                raft@ == (RaftModel { nodes_state: raft.nodes_state@, ..before }),
                forall|j: int|
                    0 <= j < raft.nodes_state@.len() ==> (#[trigger] raft.nodes_state@[j]) == (
                    if j < i {
                        progress(before.nodes_state, id@, next_index, match_index)[j]
                    } else {
                        before.nodes_state[j]
                    }),
            decreases raft.nodes_state@.len() - i,
        {
            if raft.nodes_state[i].0 == *id {
                let entry = &mut raft.nodes_state[i];
                entry.1.match_index = match_index;
                entry.1.next_index = next_index;
            }
            i = i + 1;
        }
        proof {
            assert(raft.nodes_state@ =~= progress(before.nodes_state, id@, next_index, match_index));
        }
    }

    /// Takes a replicator's report: records it, and answers the index to
    /// commit up to (see `commit_target`).
    pub fn handle_replicator_resp(&self, raft: &mut Raft, msg: ReplicatorMsg) -> (r: Option<u64>)
        requires
            msg is ReplicateResp,
        ensures
            msg matches ReplicatorMsg::ReplicateResp { next_index, match_index, id }
                && final(raft)@ == (RaftModel {
                nodes_state: progress(old(raft)@.nodes_state, id@, next_index, match_index),
                ..old(raft)@
            }) && r == commit_target(final(raft)@, match_index),
    {
        match msg {
            ReplicatorMsg::ReplicateResp { next_index, match_index, id } => {
                self.record_progress(raft, &id, next_index, match_index);
                self.check_for_commit(raft, match_index)
            },
            ReplicatorMsg::ReplicateReq { .. } => None,
        }
    }

    /// How many of the leader's records hold the log up to `index`.
    fn count_matched(raft: &Raft, index: u64) -> (r: usize)
        ensures
            r == matched(raft@.nodes_state, index),
    {
        let mut count: usize = 0;
        let mut i: usize = 0;
        while i < raft.nodes_state.len()
            invariant
                i <= raft.nodes_state@.len(),
                raft@.nodes_state == raft.nodes_state@,
                count <= i,
                count == matched(raft.nodes_state@.subrange(0, i as int), index),
            decreases raft.nodes_state@.len() - i,
        {
            proof {
                let s = raft.nodes_state@.subrange(0, i + 1);
                assert(s.drop_last() =~= raft.nodes_state@.subrange(0, i as int));
            }
            if raft.nodes_state[i].1.match_index >= index {
                count = count + 1;
            }
            i = i + 1;
        }
        proof {
            assert(raft.nodes_state@.subrange(0, i as int) =~= raft.nodes_state@);
        }
        count
    }

    /// The index to commit up to after a node reported it holds the log up to
    /// `index` (see `commit_target`).
    pub fn check_for_commit(&self, raft: &Raft, index: u64) -> (r: Option<u64>)
        ensures
            r == commit_target(raft@, index),
    {
        if raft.get_commit_index() < index {
            let number = Self::count_matched(raft, index);
            if 2 * ((number as u128) + 1) > (raft.nodes.len() as u128) + 1 {
                return Some(index);
            }
        }
        None
    }
}

impl Replicator {
    /// A replicator of `node` for the leader `id` in term `term`; it starts
    /// up to date.
    pub fn new(
        node: Node,
        next_index: u64,
        match_index: u64,
        term: u64,
        id: NodeID,
        heartbeat: u64,
    ) -> (r: Replicator)
        ensures
            r == (Replicator {
                node,
                next_index,
                match_index,
                term,
                id,
                state: ReplicationState::UpToDate,
                heartbeat,
            }),
    {
        Replicator {
            node,
            next_index,
            term,
            id,
            match_index,
            state: ReplicationState::UpToDate,
            heartbeat,
        }
    }

    pub fn get_node(&self) -> (r: Node)
        ensures
            same_node(r, self.node),
    {
        self.node.clone_node()
    }

    /// The heartbeat the replicator sends: no entries, the leader's last entry
    /// as the previous one.
    pub fn beat(&self, tracker: &KvsTracker) -> (r: AppendEntriesRequest)
        ensures
            r.term == self.term,
            r.leader_id@ == self.id@,
            r.prev_log_index == tracker@.last_log_index,
            r.prev_log_term == tracker@.last_log_term,
            r.entries@.len() == 0,
            r.leader_commit == tracker@.last_commited_index,
    {
        AppendEntriesRequest {
            term: self.term,
            leader_id: self.id.clone(),
            prev_log_index: tracker.get_last_log_index(),
            prev_log_term: tracker.get_last_log_term(),
            entries: Vec::new(),
            leader_commit: tracker.get_last_commited_index(),
        }
    }

    /// Takes the answer to a heartbeat: a refusal means the node lags, and the
    /// entries are to be sent from one earlier.
    pub fn beat_response(&mut self, success: bool)
        requires
            !success ==> old(self).next_index > 0,
        ensures
            success ==> *final(self) == *old(self),
            !success ==> *final(self) == (Replicator {
                state: ReplicationState::Lagged,
                next_index: (old(self).next_index - 1) as u64,
                ..*old(self)
            }),
    {
        if !success {
            self.state = ReplicationState::Lagged;
            self.next_index = self.next_index - 1;
        }
    }

    /// The request that carries the entry at `index`, its previous entry the
    /// one before the node's next; an error, and the snapshot is to be sent,
    /// when the node's next entry was dropped by a snapshot.
    pub fn creat_append_request(&mut self, tracker: &KvsTracker, index: u64) -> (r: Result<
        EntryRequest,
        String,
    >)
        requires
            old(self).next_index > tracker@.last_snapshot_index ==> in_log(tracker@, index)
                && term_known(tracker@, (old(self).next_index - 1) as u64),
        ensures
            old(self).next_index <= tracker@.last_snapshot_index ==> ((r matches Err(m) && m@
                == "Snapshot has been taken"@) && *final(self) == (Replicator {
                state: ReplicationState::NeedSnappshot,
                ..*old(self)
            })),
            old(self).next_index > tracker@.last_snapshot_index ==> ((r matches Ok(e) && carries(
                e,
                *old(self),
                tracker@,
                index,
            )) && *final(self) == *old(self)),
    {
        if self.next_index <= tracker.get_last_snapshot_index() {
            self.state = ReplicationState::NeedSnappshot;
            return Err(text("Snapshot has been taken"));
        }
        let entity = tracker.get_log_entity(index).duplicate();
        let entity_term = tracker.get_log_term(index);
        let request = AppendEntriesRequest {
            term: self.term,
            leader_id: self.id.clone(),
            prev_log_index: self.next_index - 1,
            prev_log_term: tracker.get_log_term(self.next_index - 1),
            entries: Vec::new(),
            leader_commit: tracker.get_last_commited_index(),
        };
        Ok(EntryRequest { request, entity, entity_term })
    }
}

/// A replicator whose node lags: it probes backwards, one entry at a time,
/// for the last entry the node shares with the leader.
pub struct Lagged;

impl Lagged {
    /// The next probe: none, and the replicator moves on, when the node's next
    /// entry was dropped by a snapshot (send the snapshot) or when the entry
    /// before it is the node's match (send entries); otherwise a request with
    /// no entries whose previous entry is the one before the node's next.
    pub fn step(replicator: &mut Replicator, tracker: &KvsTracker) -> (r: Option<
        AppendEntriesRequest,
    >)
        requires
            old(replicator).next_index > tracker@.last_snapshot_index && old(
                replicator,
            ).next_index - 1 != old(replicator).match_index ==> term_known(
                tracker@,
                (old(replicator).next_index - 1) as u64,
            ),
        ensures
            old(replicator).next_index <= tracker@.last_snapshot_index ==> (r is None
                && *final(replicator) == (Replicator {
                state: ReplicationState::NeedSnappshot,
                ..*old(replicator)
            })),
            old(replicator).next_index > tracker@.last_snapshot_index && old(
                replicator,
            ).next_index - 1 == old(replicator).match_index ==> (r is None && *final(replicator)
                == (Replicator { state: ReplicationState::Updating, ..*old(replicator) })),
            old(replicator).next_index > tracker@.last_snapshot_index && old(
                replicator,
            ).next_index - 1 != old(replicator).match_index ==> ((r matches Some(q) && probes(
                q,
                *old(replicator),
                tracker@,
            )) && *final(replicator) == *old(replicator)),
    {
        if replicator.next_index <= tracker.get_last_snapshot_index() {
            replicator.state = ReplicationState::NeedSnappshot;
            return None;
        }
        if replicator.next_index - 1 == replicator.match_index {
            replicator.state = ReplicationState::Updating;
            return None;
        }
        Some(
            AppendEntriesRequest {
                term: replicator.term,
                leader_id: replicator.id.clone(),
                prev_log_index: replicator.next_index - 1,
                prev_log_term: tracker.get_log_term(replicator.next_index - 1),
                entries: Vec::new(),
                leader_commit: tracker.get_last_commited_index(),
            },
        )
    }

    /// Takes the answer to a probe: taken, the entries are to be sent; refused,
    /// the next probe goes one entry further back.
    pub fn on_response(replicator: &mut Replicator, success: bool)
        requires
            !success ==> old(replicator).next_index > 0,
        ensures
            success ==> *final(replicator) == (Replicator {
                state: ReplicationState::Updating,
                ..*old(replicator)
            }),
            !success ==> *final(replicator) == (Replicator {
                next_index: (old(replicator).next_index - 1) as u64,
                ..*old(replicator)
            }),
    {
        if success {
            replicator.state = ReplicationState::Updating;
        } else {
            replicator.next_index = replicator.next_index - 1;
        }
    }
}

/// A replicator that sends its node the entries it lacks, one at a time.
pub struct Updating;

impl Updating {
    /// The next entry to send: none when the node holds the whole log (it is
    /// then up to date) or when the entry was dropped by a snapshot (see
    /// `Replicator::creat_append_request`); otherwise the node's next entry.
    pub fn step(replicator: &mut Replicator, tracker: &KvsTracker) -> (r: Option<EntryRequest>)
        requires
            old(replicator).next_index <= tracker@.last_log_index && old(replicator).next_index
                > tracker@.last_snapshot_index ==> in_log(tracker@, old(replicator).next_index)
                && term_known(tracker@, (old(replicator).next_index - 1) as u64),
        ensures
            old(replicator).next_index > tracker@.last_log_index ==> (r is None
                && *final(replicator) == (Replicator {
                state: ReplicationState::UpToDate,
                ..*old(replicator)
            })),
            old(replicator).next_index <= tracker@.last_log_index && old(replicator).next_index
                <= tracker@.last_snapshot_index ==> (r is None && *final(replicator) == (
            Replicator { state: ReplicationState::NeedSnappshot, ..*old(replicator) })),
            old(replicator).next_index <= tracker@.last_log_index && old(replicator).next_index
                > tracker@.last_snapshot_index ==> (sends(
                r,
                *old(replicator),
                tracker@,
                old(replicator).next_index,
            ) && *final(replicator) == *old(replicator)),
    {
        if replicator.next_index > tracker.get_last_log_index() {
            replicator.state = ReplicationState::UpToDate;
            return None;
        }
        let index = replicator.next_index;
        match replicator.creat_append_request(tracker, index) {
            Ok(e) => Some(e),
            Err(_) => None,
        }
    }

    /// Takes the answer to an entry: taken, the node matches it, the next is
    /// due and the leader hears of it; refused, the node lags from one entry
    /// earlier.
    pub fn on_response(replicator: &mut Replicator, success: bool) -> (r: Option<ReplicatorMsg>)
        requires
            success ==> old(replicator).next_index < u64::MAX,
            !success ==> old(replicator).next_index > 0,
        ensures
            ({
                let (after, report) = after_entry(
                    *old(replicator),
                    success,
                    Replicator {
                        state: ReplicationState::Lagged,
                        next_index: (old(replicator).next_index - 1) as u64,
                        ..*old(replicator)
                    },
                );
                *final(replicator) == after && reports(r, report)
            }),
    {
        if !success {
            replicator.next_index = replicator.next_index - 1;
            replicator.state = ReplicationState::Lagged;
            return None;
        }
        replicator.match_index = replicator.next_index;
        replicator.next_index = replicator.next_index + 1;
        Some(
            ReplicatorMsg::ReplicateResp {
                match_index: replicator.match_index,
                next_index: replicator.next_index,
                id: replicator.node.id.clone(),
            },
        )
    }
}

/// A replicator whose node holds the whole log: it sends new entries as the
/// leader appends them, and heartbeats in between.
pub struct UpToDate;

impl UpToDate {
    /// Takes the leader's request to replicate up to `index`: nothing to do
    /// when the node already matches it; otherwise the entry at `index`, or,
    /// when the node's next entry was dropped by a snapshot, none, and the
    /// node lags.
    pub fn handle_replication_msg(
        replicator: &mut Replicator,
        tracker: &KvsTracker,
        index: u64,
    ) -> (r: Option<EntryRequest>)
        requires
            old(replicator).match_index < index && old(replicator).next_index
                > tracker@.last_snapshot_index ==> in_log(tracker@, index) && term_known(
                tracker@,
                (old(replicator).next_index - 1) as u64,
            ),
        ensures
            old(replicator).match_index >= index ==> (r is None && *final(replicator) == *old(
                replicator,
            )),
            old(replicator).match_index < index && old(replicator).next_index
                <= tracker@.last_snapshot_index ==> (r is None && *final(replicator) == (
            Replicator { state: ReplicationState::Lagged, ..*old(replicator) })),
            old(replicator).match_index < index && old(replicator).next_index
                > tracker@.last_snapshot_index ==> (sends(r, *old(replicator), tracker@, index)
                && *final(replicator) == *old(replicator)),
    {
        if replicator.match_index >= index {
            return None;
        }
        match replicator.creat_append_request(tracker, index) {
            Ok(e) => Some(e),
            Err(_) => {
                replicator.state = ReplicationState::Lagged;
                None
            },
        }
    }

    /// Takes the answer to an entry: taken, the node matches the entry after
    /// its match, the next is due and the leader hears of it; refused, the
    /// node lags.
    pub fn on_response(replicator: &mut Replicator, success: bool) -> (r: Option<ReplicatorMsg>)
        requires
            success ==> old(replicator).next_index < u64::MAX,
        ensures
            ({
                let (after, report) = after_entry(
                    *old(replicator),
                    success,
                    Replicator { state: ReplicationState::Lagged, ..*old(replicator) },
                );
                *final(replicator) == after && reports(r, report)
            }),
    {
        if !success {
            replicator.state = ReplicationState::Lagged;
            return None;
        }
        replicator.match_index = replicator.next_index;
        replicator.next_index = replicator.next_index + 1;
        Some(
            ReplicatorMsg::ReplicateResp {
                match_index: replicator.match_index,
                next_index: replicator.next_index,
                id: replicator.node.id.clone(),
            },
        )
    }

    /// The node did not answer: it lags.
    pub fn on_error(replicator: &mut Replicator)
        ensures
            *final(replicator) == (Replicator {
                state: ReplicationState::Lagged,
                ..*old(replicator)
            }),
    {
        replicator.state = ReplicationState::Lagged;
    }
}

/// A replicator whose node lacks entries that a snapshot dropped: it sends the
/// snapshot.
pub struct NeedSnappshot;

impl NeedSnappshot {
    /// The request that installs the leader's last snapshot, whose contents
    /// are `data`.
    pub fn request(replicator: &Replicator, tracker: &KvsTracker, data: String) -> (r:
        SnapshotRequest)
        ensures
            r.term == replicator.term,
            r.leader_id@ == replicator.id@,
            r.last_included_index == tracker@.last_snapshot_index,
            r.last_included_term == tracker@.last_snapshot_term,
            r.offset == tracker@.snapshot_no,
            r.data@ == data@,
            r.done,
    {
        SnapshotRequest {
            term: replicator.term,
            leader_id: replicator.id.clone(),
            last_included_index: tracker.get_last_snapshot_index(),
            last_included_term: tracker.get_last_snapshot_term(),
            offset: tracker.get_snapshot_no(),
            data,
            done: true,
        }
    }

    /// The node installed the snapshot: it matches the snapshot's last entry,
    /// and probing goes on from there.
    pub fn installed(replicator: &mut Replicator, tracker: &KvsTracker)
        requires
            tracker@.last_snapshot_index < u64::MAX,
        ensures
            *final(replicator) == (Replicator {
                match_index: tracker@.last_snapshot_index,
                next_index: (tracker@.last_snapshot_index + 1) as u64,
                state: ReplicationState::Lagged,
                ..*old(replicator)
            }),
    {
        replicator.match_index = tracker.get_last_snapshot_index();
        replicator.next_index = tracker.get_last_snapshot_index() + 1;
        replicator.state = ReplicationState::Lagged;
    }

    /// The snapshot could not be read: the node lags.
    pub fn unreadable(replicator: &mut Replicator)
        ensures
            *final(replicator) == (Replicator {
                state: ReplicationState::Lagged,
                ..*old(replicator)
            }),
    {
        replicator.state = ReplicationState::Lagged;
    }
}

/// The leader commits an index only when a strict majority of the cluster,
/// itself included, holds it.
pub proof fn law_commit_by_majority(m: RaftModel, index: u64)
    requires
        commit_target(m, index) is Some,
    ensures
        commit_target(m, index) == Some(index),
        m.commit_index < index,
        2 * (matched(m.nodes_state, index) + 1) > m.nodes.len() + 1,
{
}

/// A taken entry leaves the node matching everything before its next entry.
pub proof fn law_entry_taken(r: Replicator, refused: Replicator)
    requires
        r.next_index < u64::MAX,
    ensures
        after_entry(r, true, refused).0.match_index + 1 == after_entry(r, true, refused).0.next_index,
        after_entry(r, true, refused).0.match_index == r.next_index,
{
}

/// A follower whose term is not past the leader's and whose last entry is
/// the one a replicator's request names as the previous one accepts the
/// request, a probe or one that carries an entry alike.
pub proof fn law_follower_accepts_request(
    m: RaftModel,
    rep: Replicator,
    t: TrackerModel,
    q: AppendEntriesRequest,
    e: EntryRequest,
    index: u64,
)
    requires
        m.current_term <= rep.term,
        m.last_log_index == rep.next_index - 1,
        m.last_log_term == log_term(t, (rep.next_index - 1) as u64),
    ensures
        probes(q, rep, t) ==> accepts(m, q.term, q.prev_log_index, q.prev_log_term),
        carries(e, rep, t, index) ==> accepts(
            m,
            e.request.term,
            e.request.prev_log_index,
            e.request.prev_log_term,
        ),
{
}

/// The nodes of `states` whose match index is at least `index`: those that
/// hold the log up to `index`.
pub open spec fn holders(states: Seq<(NodeID, NodeState)>, index: u64) -> Seq<(NodeID, NodeState)> {
    states.filter(|s: (NodeID, NodeState)| s.1.match_index >= index)
}

/// The count of nodes holding `index` is the number of records whose match
/// index is at least `index`.
pub proof fn law_matched_counts_holders(states: Seq<(NodeID, NodeState)>, index: u64)
    ensures
        matched(states, index) == holders(states, index).len(),
    decreases states.len(),
{
    reveal_with_fuel(Seq::filter, 1);
    if states.len() > 0 {
        law_matched_counts_holders(states.drop_last(), index);
    }
}

/// When every node holds `index`, all of them count; a node holding a later
/// index holds every earlier one too, so the count never falls as the index
/// goes down.
pub proof fn law_matched_monotone(states: Seq<(NodeID, NodeState)>, lo: u64, hi: u64)
    requires
        lo <= hi,
    ensures
        matched(states, hi) <= matched(states, lo),
        (forall|j: int| 0 <= j < states.len() ==> #[trigger] states[j].1.match_index >= lo)
            ==> matched(states, lo) == states.len(),
    decreases states.len(),
{
    if states.len() > 0 {
        let init = states.drop_last();
        assert forall|j: int| 0 <= j < init.len() implies #[trigger] init[j] == states[j] by {}
        law_matched_monotone(init, lo, hi);
        if forall|j: int| 0 <= j < states.len() ==> #[trigger] states[j].1.match_index >= lo {
            assert(states.last() == states[states.len() - 1]);
            assert forall|j: int| 0 <= j < init.len() implies #[trigger] init[j].1.match_index
                >= lo by {
                assert(init[j] == states[j]);
            }
        }
    }
}

/// Raising one node's match index never lowers the count of nodes holding
/// an index.
pub proof fn law_matched_grows_with_a_match(
    states: Seq<(NodeID, NodeState)>,
    k: int,
    s: (NodeID, NodeState),
    index: u64,
)
    requires
        0 <= k < states.len(),
        s.1.match_index >= states[k].1.match_index,
    ensures
        matched(states, index) <= matched(states.update(k, s), index),
    decreases states.len(),
{
    let u = states.update(k, s);
    if k < states.len() - 1 {
        assert(u.drop_last() =~= states.drop_last().update(k, s));
        assert(u.last() == states.last());
        law_matched_grows_with_a_match(states.drop_last(), k, s, index);
    } else {
        assert(u.drop_last() =~= states.drop_last());
    }
}

/// The leader commits an index past its commit index as soon as a strict
/// majority of the cluster holds it, itself and the nodes whose match index
/// is at least that index together.
pub proof fn law_commit_when_majority_holds(m: RaftModel, index: u64)
    requires
        m.commit_index < index,
        2 * (holders(m.nodes_state, index).len() + 1) > m.nodes.len() + 1,
    ensures
        commit_target(m, index) == Some(index),
{
    law_matched_counts_holders(m.nodes_state, index);
}

} // verus!
