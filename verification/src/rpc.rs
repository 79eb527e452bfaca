//! The messages that the nodes of a cluster send one another.
use vstd::prelude::*;

verus! {

/// A candidate asks for a vote.
#[derive(Debug)]
pub struct RequestVoteRequest {
    pub term: u64,
    pub candidate_id: String,
    pub last_log_index: u64,
    pub last_log_term: u64,
}

/// The answer to a request for a vote.
#[derive(Debug, PartialEq, Eq, Structural)]
pub struct RequestVoteResponse {
    pub term: u64,
    pub vote_granted: bool,
}

/// One log entry on the wire: the request in JSON and the term it belongs to.
#[derive(Debug)]
pub struct Entry {
    pub payload: String,
    pub term: u64,
}

/// The leader sends entries, or none as a heartbeat.
#[derive(Debug)]
pub struct AppendEntriesRequest {
    pub term: u64,
    pub leader_id: String,
    pub prev_log_index: u64,
    pub prev_log_term: u64,
    pub entries: Vec<Entry>,
    pub leader_commit: u64,
}

/// The answer to an append request.
#[derive(Debug, PartialEq, Eq, Structural)]
pub struct AppendEntriesResponse {
    pub success: bool,
    pub term: u64,
}

/// What a node answers an append request: a response, or the request is
/// cancelled with a message.
#[derive(Debug)]
pub enum AppendReply {
    Response(AppendEntriesResponse),
    Cancelled(String),
}

/// The leader sends a snapshot of its store.
#[derive(Debug)]
pub struct SnapshotRequest {
    pub term: u64,
    pub leader_id: String,
    pub last_included_index: u64,
    pub last_included_term: u64,
    pub offset: u64,
    pub data: String,
    pub done: bool,
}

/// A follower passes a client's request on to the leader.
#[derive(Debug)]
pub struct ForwardEntryRequest {
    pub payload: String,
    pub iswrite: bool,
}

} // verus!
