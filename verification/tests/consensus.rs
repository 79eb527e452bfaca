use gandalf::command::Command;
use gandalf::db::Db;
use gandalf::frame::Frame;
use gandalf::node::{ConfigMap, Node, NodeState};
use gandalf::parser::{Kind, KvsParser, ParserError};
use gandalf::raft::candidate::Candidate;
use gandalf::raft::follower::{AppendStep, Follower};
use gandalf::raft::leader::{
    next_backoff, Lagged, Leader, NeedSnappshot, ReplicationState, Replicator, ReplicatorMsg,
    UpToDate, Updating,
};
use gandalf::raft::{Raft, State};
use gandalf::rpc::{AppendEntriesRequest, AppendReply, Entry, RequestVoteRequest, RequestVoteResponse};
use gandalf::tracker::{snap_request, KvsTracker};

fn config(others: &[u16]) -> ConfigMap {
    let addrs = others.iter().map(|p| ("127.0.0.1".to_string(), *p)).collect();
    ConfigMap::new(
        "127.0.0.1".to_string(),
        7899,
        addrs,
        500,
        1500,
        "127.0.0.1".to_string(),
        9876,
        5,
    )
}

fn node(others: &[u16]) -> Raft {
    Raft::new(config(others), "127.0.0.1:7899".to_string())
}

fn vote(term: u64, candidate: &str, last_index: u64, last_term: u64) -> RequestVoteRequest {
    RequestVoteRequest {
        term,
        candidate_id: candidate.to_string(),
        last_log_index: last_index,
        last_log_term: last_term,
    }
}

fn append(term: u64, prev_index: u64, prev_term: u64, entries: Vec<Entry>, leader_commit: u64) -> AppendEntriesRequest {
    AppendEntriesRequest {
        term,
        leader_id: "127.0.0.1:8001".to_string(),
        prev_log_index: prev_index,
        prev_log_term: prev_term,
        entries,
        leader_commit,
    }
}

fn same(a: &Frame, b: &Frame) -> bool {
    format!("{:?}", a) == format!("{:?}", b)
}

fn simple(s: &str) -> Frame {
    Frame::Simple(s.to_string())
}

#[test]
fn config_names_each_node_by_its_address_once() {
    let c = config(&[8001, 8002, 8001]);
    assert_eq!(c.nodes.len(), 2);
    assert_eq!(c.nodes[0].id, "127.0.0.1:8001");
    assert_eq!(c.nodes[1].id, "127.0.0.1:8002");
    assert_eq!(c.nodes[1].port, 8002);
    assert_eq!(c.nodes_state.len(), 2);
    assert_eq!(c.nodes_state[0].0, "127.0.0.1:8001");
    assert_eq!(c.nodes_state[0].1.match_index, 0);
    assert_eq!(c.nodes_state[0].1.next_index, 0);
    assert_eq!(c.snapshot_offset, 5);
}

#[test]
fn node_state_new_keeps_its_indices() {
    let s = NodeState::new(3, 4);
    assert_eq!(s.match_index, 3);
    assert_eq!(s.next_index, 4);
    let n = Node::new("a:1".to_string(), "a".to_string(), 1);
    assert_eq!(n.clone_node().id, "a:1");
}

#[test]
fn a_new_node_is_a_follower_of_term_zero() {
    let r = node(&[8001, 8002]);
    assert_eq!(r.state, State::Follower);
    assert_eq!(r.current_term, 0);
    assert_eq!(r.get_commit_index(), 0);
    assert_eq!(r.last_index(), 0);
    assert_eq!(r.last_term(), 0);
    assert_eq!(r.election_timeout, 1500);
    assert_eq!(r.heartbeat, 500);
    assert_eq!(r.get_all_nodes().len(), 2);
}

#[test]
fn a_vote_of_an_older_term_is_refused() {
    let mut r = node(&[8001]);
    r.current_term = 3;
    let resp = r.handle_vote_request(vote(2, "c", 0, 0));
    assert_eq!(resp, RequestVoteResponse { term: 3, vote_granted: false });
    assert_eq!(r.current_term, 3);
}

#[test]
fn a_vote_for_a_log_behind_is_refused_but_the_term_is_taken() {
    let mut r = node(&[8001]);
    r.update_last_log(5, 2);
    r.set_state(State::Candidate);
    r.voted_for = Some("me".to_string());
    let resp = r.handle_vote_request(vote(4, "c", 4, 2));
    assert_eq!(resp, RequestVoteResponse { term: 4, vote_granted: false });
    assert_eq!(r.current_term, 4);
    assert_eq!(r.state, State::Follower);
    assert_eq!(r.voted_for, None);
}

#[test]
fn a_vote_is_granted_to_the_candidate_voted_for_or_when_none() {
    let mut r = node(&[8001]);
    r.set_state(State::Candidate);
    let resp = r.handle_vote_request(vote(1, "c", 0, 0));
    assert!(resp.vote_granted);
    assert_eq!(r.state, State::Follower);
    r.voted_for = Some("c".to_string());
    assert!(r.handle_vote_request(vote(1, "c", 0, 0)).vote_granted);
    assert!(!r.handle_vote_request(vote(1, "d", 0, 0)).vote_granted);
}

#[test]
fn a_node_grants_one_vote_per_term() {
    let mut r = node(&[8001, 8002]);
    assert!(r.handle_vote_request(vote(1, "a", 0, 0)).vote_granted);
    assert_eq!(r.voted_for, Some("a".to_string()));
    assert!(!r.handle_vote_request(vote(1, "b", 0, 0)).vote_granted);
    assert!(r.handle_vote_request(vote(1, "a", 0, 0)).vote_granted);
    assert!(r.handle_vote_request(vote(2, "b", 0, 0)).vote_granted);
    assert_eq!(r.voted_for, Some("b".to_string()));
    assert_eq!(r.current_term, 2);
}

#[test]
fn the_commit_index_calls_for_a_snapshot_at_multiples_of_the_offset() {
    let mut r = node(&[8001]);
    assert!(!r.update_commit_index(4, true));
    assert_eq!(r.get_commit_index(), 4);
    assert!(r.update_commit_index(10, true));
    assert!(!r.update_commit_index(10, false));
}

#[test]
fn election_timeouts_fall_in_their_range() {
    let r = node(&[8001]);
    for _ in 0..50 {
        let t = r.generate_timeout();
        assert!(1500 <= t && t < 3000);
    }
}

#[test]
fn commits_go_one_index_at_a_time_up_to_the_end() {
    let mut r = node(&[8001]);
    let f = Follower::new();
    let mut seen = Vec::new();
    while let Some(i) = r.next_to_commit(3) {
        seen.push(i);
        f.committed(&mut r, i);
    }
    assert_eq!(seen, vec![0, 1, 2]);
    assert_eq!(r.get_commit_index(), 3);
}

#[test]
fn a_candidate_votes_for_itself_in_a_new_term() {
    let mut r = node(&[8001, 8002]);
    let mut c = Candidate::new();
    r.set_state(State::Candidate);
    c.start_election(&mut r);
    assert_eq!(r.current_term, 1);
    assert_eq!(r.voted_for, Some("127.0.0.1:7899".to_string()));
    assert_eq!(c.number_of_votes(), 1);
    let req = c.vote_request(&r);
    assert_eq!(req.term, 1);
    assert_eq!(req.candidate_id, "127.0.0.1:7899");
}

#[test]
fn a_candidate_leads_with_more_than_half_the_other_nodes() {
    let mut r = node(&[8001, 8002, 8003, 8004]);
    let mut c = Candidate::new();
    r.set_state(State::Candidate);
    c.start_election(&mut r);
    c.handle_vote(&mut r, &RequestVoteResponse { term: 1, vote_granted: true });
    assert!(c.is_candidate(&r));
    assert!(!c.has_enough_vote(&r));
    c.handle_vote(&mut r, &RequestVoteResponse { term: 1, vote_granted: false });
    assert!(c.is_candidate(&r));
    c.handle_vote(&mut r, &RequestVoteResponse { term: 1, vote_granted: true });
    assert_eq!(c.number_of_votes(), 3);
    assert_eq!(r.state, State::Leader);
}

#[test]
fn in_a_cluster_of_two_a_candidate_needs_the_other_vote() {
    let mut r = node(&[8001]);
    let mut c = Candidate::new();
    r.set_state(State::Candidate);
    c.start_election(&mut r);
    assert!(!c.has_enough_vote(&r));
    c.handle_vote(&mut r, &RequestVoteResponse { term: 1, vote_granted: true });
    assert_eq!(r.state, State::Leader);
}

#[test]
fn a_later_term_makes_a_candidate_a_follower() {
    let mut r = node(&[8001, 8002]);
    let mut c = Candidate::new();
    r.set_state(State::Candidate);
    c.start_election(&mut r);
    c.handle_vote(&mut r, &RequestVoteResponse { term: 7, vote_granted: false });
    assert_eq!(r.state, State::Follower);
    assert_eq!(r.current_term, 7);
    assert_eq!(r.voted_for, None);
    assert_eq!(r.current_leader, None);
}

#[test]
fn a_candidate_grants_a_vote_to_a_log_as_far_as_its_own() {
    let mut r = node(&[8001]);
    let c = Candidate::new();
    r.set_state(State::Candidate);
    r.current_term = 2;
    r.update_last_log(3, 2);
    r.voted_for = Some(r.id.clone());
    let own = c.handle_vote_request(&mut r, vote(2, "x", 9, 9));
    assert_eq!(own, RequestVoteResponse { term: 2, vote_granted: false });
    assert_eq!(r.state, State::Candidate);
    assert_eq!(r.voted_for, Some(r.id.clone()));
    let yes = c.handle_vote_request(&mut r, vote(3, "x", 3, 2));
    assert_eq!(yes, RequestVoteResponse { term: 3, vote_granted: true });
    assert_eq!(r.state, State::Follower);
    assert_eq!(r.voted_for, Some("x".to_string()));
    match c.append_reply() {
        AppendReply::Cancelled(m) => assert_eq!(m, "Node is in Candidate state"),
        other => panic!("unexpected {:?}", other),
    }
}

#[test]
fn a_follower_answers_votes_without_changing_role() {
    let mut r = node(&[8001]);
    let f = Follower::new();
    assert!(f.is_follower(&r));
    assert!(f.handle_vote_request(&mut r, vote(2, "c", 0, 0)).vote_granted);
    assert_eq!(r.current_term, 2);
    assert!(!f.handle_vote_request(&mut r, vote(1, "c", 0, 0)).vote_granted);
}

#[test]
fn a_follower_refuses_stale_or_mismatched_appends() {
    let mut r = node(&[8001]);
    let f = Follower::new();
    r.current_term = 2;
    match f.handle_append_entry(&mut r, append(1, 0, 0, vec![], 0)) {
        AppendStep::Reply(resp) => assert_eq!(resp.success, false),
        other => panic!("unexpected {:?}", other),
    }
    match f.handle_append_entry(&mut r, append(2, 4, 1, vec![], 0)) {
        AppendStep::Reply(resp) => {
            assert!(!resp.success);
            assert_eq!(resp.term, 2);
        }
        other => panic!("unexpected {:?}", other),
    }
    assert_eq!(r.current_leader, None);
}

#[test]
fn a_follower_takes_a_heartbeat_and_commits_with_the_leader() {
    let mut r = node(&[8001]);
    let f = Follower::new();
    r.update_last_log(3, 1);
    match f.handle_append_entry(&mut r, append(2, 3, 1, vec![], 5)) {
        AppendStep::Commit { end } => assert_eq!(end, 3),
        other => panic!("unexpected {:?}", other),
    }
    assert_eq!(r.current_term, 2);
    assert_eq!(r.current_leader, Some("127.0.0.1:8001".to_string()));
    match f.success_reply(&r) {
        AppendReply::Response(resp) => assert!(resp.success && resp.term == 2),
        other => panic!("unexpected {:?}", other),
    }
}

#[test]
fn a_follower_hands_on_an_entry_and_commits_up_to_the_leader() {
    let mut r = node(&[8001]);
    let f = Follower::new();
    let e = Entry { payload: "{}".to_string(), term: 1 };
    match f.handle_append_entry(&mut r, append(1, 0, 0, vec![e], 1)) {
        AppendStep::Append { entry, leader_commit } => {
            assert_eq!(entry.payload, "{}");
            assert_eq!(entry.term, 1);
            assert_eq!(leader_commit, 1);
        }
        other => panic!("unexpected {:?}", other),
    }
    assert_eq!(r.current_term, 0);
    let end = f.entry_appended(&mut r, 1, 1, 1);
    assert_eq!(end, 1);
    assert_eq!(r.last_index(), 1);
    assert_eq!(r.last_term(), 1);
    match f.append_failed() {
        AppendReply::Cancelled(m) => assert_eq!(m, "Coud not append to log"),
        other => panic!("unexpected {:?}", other),
    }
    match f.unreadable_entry() {
        AppendReply::Cancelled(m) => assert_eq!(m, "Could not parse the message"),
        other => panic!("unexpected {:?}", other),
    }
}

#[test]
fn a_follower_forwards_to_its_leader() {
    let mut r = node(&[8001, 8002]);
    let f = Follower::new();
    match f.leader_node(&r) {
        Err(m) => assert_eq!(m, "No leader exist"),
        Ok(n) => panic!("unexpected {:?}", n),
    }
    r.current_leader = Some("127.0.0.1:8002".to_string());
    assert_eq!(f.leader_node(&r).unwrap().port, 8002);
}

#[test]
fn the_leader_commits_when_a_majority_holds_the_entry() {
    let mut r = node(&[8001, 8002, 8003, 8004]);
    let l = Leader::new();
    r.set_state(State::Leader);
    assert!(l.is_leader(&r));
    assert_eq!(l.check_for_commit(&r, 1), None);
    l.record_progress(&mut r, &"127.0.0.1:8001".to_string(), 2, 1);
    assert_eq!(r.nodes_state[0].1.match_index, 1);
    assert_eq!(r.nodes_state[0].1.next_index, 2);
    assert_eq!(l.check_for_commit(&r, 1), None);
    l.record_progress(&mut r, &"127.0.0.1:8003".to_string(), 2, 1);
    assert_eq!(l.check_for_commit(&r, 1), Some(1));
    r.update_commit_index(1, false);
    assert_eq!(l.check_for_commit(&r, 1), None);
}

#[test]
fn the_leader_records_reports_and_answers_what_to_commit() {
    let mut r = node(&[8001, 8002]);
    let l = Leader::new();
    let msg = ReplicatorMsg::ReplicateResp { next_index: 3, match_index: 2, id: "127.0.0.1:8002".to_string() };
    assert_eq!(l.handle_replicator_resp(&mut r, msg), Some(2));
    assert_eq!(r.nodes_state[1].1.match_index, 2);
    assert_eq!(r.nodes_state[0].1.match_index, 0);
}

#[test]
fn the_leader_starts_a_replicator_per_node() {
    let mut r = node(&[8001, 8002]);
    let l = Leader::new();
    r.current_term = 3;
    let mut t = tracker_with(4);
    match l.handle_client_write(&mut r, &mut t, simple("w")).unwrap() {
        ReplicatorMsg::ReplicateReq { index } => assert_eq!(index, 5),
        other => panic!("unexpected {:?}", other),
    }
    assert_eq!(r.last_index(), 5);
    assert_eq!(r.last_term(), 3);
    assert_eq!(t.get_last_log_index(), 5);
    assert_eq!(t.get_last_log_term(), 3);
    assert!(same(t.get_log_entity(5), &simple("w")));
    l.record_progress(&mut r, &"127.0.0.1:8002".to_string(), 3, 2);
    let reps = l.replicators(&r);
    assert_eq!(reps.len(), 2);
    assert_eq!(reps[0].next_index, 6);
    assert_eq!(reps[0].match_index, 0);
    assert_eq!(reps[1].match_index, 2);
    assert_eq!(reps[1].node.id, "127.0.0.1:8002");
    assert_eq!(reps[1].term, 3);
    assert_eq!(reps[1].state, ReplicationState::UpToDate);
}

fn tracker_with(n: u64) -> KvsTracker {
    let mut t = KvsTracker::new("127.0.0.1:9876".to_string(), "/tmp/snaps".to_string(), 2);
    for i in 0..n {
        t.append_log(Frame::Integer(i), 1 + i / 2).unwrap();
    }
    t
}

fn replicator(next: u64, matched: u64) -> Replicator {
    Replicator::new(
        Node::new("127.0.0.1:8001".to_string(), "127.0.0.1".to_string(), 8001),
        next,
        matched,
        4,
        "127.0.0.1:7899".to_string(),
        500,
    )
}

#[test]
fn the_tracker_appends_and_reads_back_entries() {
    let mut t = tracker_with(3);
    assert_eq!(t.get_last_log_index(), 3);
    assert_eq!(t.get_last_log_term(), 2);
    assert!(same(t.get_log_entity(2), &Frame::Integer(1)));
    assert_eq!(t.get_log_term(3), 2);
    assert_eq!(t.append_log(simple("x"), 9), Ok(4));
    assert!(same(t.get_log_entity(4), &simple("x")));
    assert_eq!(t.log_len(), 4);
    assert!(t.delete_last_log().is_ok());
    assert_eq!(t.log_len(), 3);
    assert_eq!(t.get_last_log_index(), 4);
    assert_eq!(t.get_last_log_term(), 9);
    assert!(same(t.get_log_entity(3), &Frame::Integer(2)));
    let mut empty = tracker_with(0);
    assert_eq!(empty.delete_last_log(), Err("The log is empty".to_string()));
    assert_eq!(t.addr(), "127.0.0.1:9876");
}

#[test]
fn the_tracker_commits_in_order() {
    let mut t = tracker_with(2);
    assert_eq!(t.commit(1).unwrap_err(), "Wrong commit index");
    assert!(same(t.commit(0).unwrap(), &Frame::Integer(0)));
    let ok = t.commit_reply(simple("OK")).unwrap();
    assert!(same(&ok, &simple("OK")));
    assert_eq!(t.get_last_commited_index(), 1);
    assert!(t.commit_reply(Frame::Integer(3)).is_err());
    assert_eq!(t.get_last_commited_index(), 1);
}

#[test]
fn the_tracker_snapshots_drop_the_committed_entries() {
    let mut t = tracker_with(5);
    t.commit_reply(simple("OK")).unwrap();
    t.commit_reply(simple("OK")).unwrap();
    t.take_snapshot();
    assert_eq!(t.get_snapshot_no(), 1);
    assert_eq!(t.get_last_snapshot_index(), 2);
    assert_eq!(t.get_last_snapshot_term(), 1);
    assert_eq!(t.get_log_term(2), 1);
    assert_eq!(t.log_len(), 3);
    assert_eq!(t.get_last_log_index(), 5);
    assert_eq!(t.get_last_log_term(), 3);
    for j in 3..6u64 {
        assert!(same(t.get_log_entity(j), &Frame::Integer(j - 1)));
        assert_eq!(t.get_log_term(j), 1 + (j - 1) / 2);
    }
    assert_eq!(t.snapshot_file(3), "/tmp/snaps/3.ga");
    assert_eq!(t.last_snapshot_file(), "/tmp/snaps/0.ga");
    t.load_snapshot(7, 20);
    assert_eq!(t.get_last_log_index(), 20);
    assert_eq!(t.get_last_commited_index(), 20);
    assert_eq!(t.get_last_snapshot_term(), 7);
    assert_eq!(t.get_snapshot_no(), 2);
    assert!(same(&snap_request(), &Frame::Array(vec![simple("snap")])));
}

#[test]
fn a_snapshot_after_dropped_entries_takes_what_the_log_holds() {
    let mut t = tracker_with(4);
    t.commit_reply(simple("OK")).unwrap();
    t.commit_reply(simple("OK")).unwrap();
    t.commit_reply(simple("OK")).unwrap();
    t.delete_last_log().unwrap();
    t.delete_last_log().unwrap();
    t.delete_last_log().unwrap();
    assert_eq!(t.log_len(), 1);
    t.take_snapshot();
    assert_eq!(t.log_len(), 0);
    assert_eq!(t.get_last_snapshot_index(), 3);
    assert_eq!(t.get_last_snapshot_term(), 1);
    assert_eq!(t.get_last_log_index(), 4);
}

#[test]
fn raft_counts_snapshots() {
    let mut r = node(&[8001]);
    let mut t = tracker_with(4);
    r.take_snapshot(&mut t);
    assert_eq!(r.snapshot_num, 1);
    assert_eq!(t.get_snapshot_no(), 1);
}

#[test]
fn a_replicator_beats_and_lags_on_refusal() {
    let t = tracker_with(3);
    let mut rep = replicator(4, 3);
    let b = rep.beat(&t);
    assert_eq!(b.prev_log_index, 3);
    assert_eq!(b.prev_log_term, 2);
    assert_eq!(b.term, 4);
    assert!(b.entries.is_empty());
    rep.beat_response(true);
    assert_eq!(rep.state, ReplicationState::UpToDate);
    rep.beat_response(false);
    assert_eq!(rep.state, ReplicationState::Lagged);
    assert_eq!(rep.next_index, 3);
    assert_eq!(rep.get_node().id, "127.0.0.1:8001");
}

#[test]
fn a_lagged_replicator_probes_backwards() {
    let t = tracker_with(3);
    let mut rep = replicator(4, 0);
    rep.state = ReplicationState::Lagged;
    let q = Lagged::step(&mut rep, &t).unwrap();
    assert_eq!(q.prev_log_index, 3);
    assert_eq!(q.prev_log_term, 2);
    Lagged::on_response(&mut rep, false);
    assert_eq!(rep.next_index, 3);
    Lagged::on_response(&mut rep, false);
    Lagged::on_response(&mut rep, false);
    assert!(Lagged::step(&mut rep, &t).is_none());
    assert_eq!(rep.state, ReplicationState::Updating);
}

#[test]
fn an_updating_replicator_sends_entries_one_at_a_time() {
    let t = tracker_with(2);
    let mut rep = replicator(1, 0);
    rep.state = ReplicationState::Updating;
    let e = Updating::step(&mut rep, &t).unwrap();
    assert!(same(&e.entity, &Frame::Integer(0)));
    assert_eq!(e.entity_term, 1);
    assert_eq!(e.request.prev_log_index, 0);
    match Updating::on_response(&mut rep, true) {
        Some(ReplicatorMsg::ReplicateResp { next_index, match_index, id }) => {
            assert_eq!((next_index, match_index), (2, 1));
            assert_eq!(id, "127.0.0.1:8001");
        }
        other => panic!("unexpected {:?}", other),
    }
    assert!(Updating::step(&mut rep, &t).is_some());
    Updating::on_response(&mut rep, true);
    assert!(Updating::step(&mut rep, &t).is_none());
    assert_eq!(rep.state, ReplicationState::UpToDate);
}

#[test]
fn an_up_to_date_replicator_sends_new_entries() {
    let t = tracker_with(3);
    let mut rep = replicator(3, 2);
    assert!(UpToDate::handle_replication_msg(&mut rep, &t, 2).is_none());
    let e = UpToDate::handle_replication_msg(&mut rep, &t, 3).unwrap();
    assert!(same(&e.entity, &Frame::Integer(2)));
    assert!(UpToDate::on_response(&mut rep, false).is_none());
    assert_eq!(rep.state, ReplicationState::Lagged);
    rep.state = ReplicationState::UpToDate;
    UpToDate::on_error(&mut rep);
    assert_eq!(rep.state, ReplicationState::Lagged);
}

#[test]
fn a_replicator_behind_a_snapshot_sends_it() {
    let mut t = tracker_with(4);
    for _ in 0..3 {
        t.commit_reply(simple("OK")).unwrap();
    }
    t.take_snapshot();
    let mut rep = replicator(2, 0);
    assert_eq!(rep.creat_append_request(&t, 2).unwrap_err(), "Snapshot has been taken");
    assert_eq!(rep.state, ReplicationState::NeedSnappshot);
    let req = NeedSnappshot::request(&rep, &t, "data".to_string());
    assert_eq!(req.last_included_index, 3);
    assert_eq!(req.offset, 1);
    assert!(req.done);
    NeedSnappshot::installed(&mut rep, &t);
    assert_eq!((rep.match_index, rep.next_index), (3, 4));
    assert_eq!(rep.state, ReplicationState::Lagged);
    NeedSnappshot::unreadable(&mut rep);
    assert_eq!(rep.state, ReplicationState::Lagged);
}

#[test]
fn backoff_doubles_up_to_a_heartbeat() {
    assert_eq!(next_backoff(1, 500), 2);
    assert_eq!(next_backoff(300, 500), 500);
}

#[test]
fn the_parser_tells_reads_from_writes() {
    let p = KvsParser::new();
    let mut buf = b"*2\r\n$3\r\nget\r\n$1\r\nk\r\n*3\r\n$3\r\nSET\r\n$1\r\nk\r\n$1\r\nv\r\n".to_vec();
    assert!(matches!(p.parse(&mut buf), Ok(Some(Kind::Read(_)))));
    assert!(matches!(p.parse(&mut buf), Ok(Some(Kind::Write(_)))));
    assert!(buf.is_empty());
    let mut buf = b"*1\r\n+snap\r\n".to_vec();
    assert!(matches!(p.parse(&mut buf), Ok(Some(Kind::Read(_)))));
    let mut buf = b"*2\r\n$3\r\nget\r\n".to_vec();
    assert!(matches!(p.parse(&mut buf), Ok(None)));
    assert_eq!(buf.len(), 13);
    let mut buf = b"*1\r\n+del\r\n".to_vec();
    assert!(matches!(p.parse(&mut buf), Err(ParserError::Command(_))));
    assert!(buf.is_empty());
    let mut buf = b"?\r\n".to_vec();
    assert!(matches!(p.parse(&mut buf), Err(ParserError::Frame(_))));
}

#[test]
fn the_parser_writes_replies_in_resp() {
    let p = KvsParser::new();
    assert_eq!(p.unparse(Frame::Integer(258)), b":258\r\n".to_vec());
    assert_eq!(p.unparse(simple("OK")), b"+OK\r\n".to_vec());
    assert_eq!(p.unparse(Frame::Null), b"$-1\r\n".to_vec());
    assert_eq!(p.unparse(Frame::Bulk(b"abc".to_vec())), b"$3\r\nabc\r\n".to_vec());
    assert_eq!(
        p.unparse(Frame::Array(vec![simple("a"), Frame::Integer(1)])),
        b"*2\r\n+a\r\n:1\r\n".to_vec()
    );
    let mut back = p.unparse(Frame::Array(vec![Frame::Bulk(b"get".to_vec()), Frame::Bulk(b"k".to_vec())]));
    assert!(matches!(p.parse(&mut back), Ok(Some(Kind::Read(_)))));
}

#[test]
fn a_request_read_as_a_read_leaves_the_store() {
    let p = KvsParser::new();
    let mut db = Db::new();
    db.set("k".to_string(), b"v".to_vec());
    let mut buf = b"*2\r\n$3\r\nget\r\n$1\r\nk\r\n*1\r\n$4\r\nsnap\r\n".to_vec();
    for _ in 0..2 {
        match p.parse(&mut buf).unwrap().unwrap() {
            Kind::Read(f) => {
                Command::from_frame(f).unwrap().apply(&mut db);
            }
            Kind::Write(f) => panic!("unexpected write {:?}", f),
        }
    }
    assert_eq!(db.get("k"), Some(b"v".to_vec()));
    assert_eq!(db.snap().len(), 1);
}

#[test]
fn replicator_messages_copy() {
    let m = ReplicatorMsg::ReplicateResp { next_index: 3, match_index: 2, id: "a".to_string() };
    match m.duplicate() {
        ReplicatorMsg::ReplicateResp { next_index, match_index, id } => {
            assert_eq!((next_index, match_index, id.as_str()), (3, 2, "a"));
        }
        other => panic!("unexpected {:?}", other),
    }
    assert!(matches!(ReplicatorMsg::ReplicateReq { index: 7 }.duplicate(), ReplicatorMsg::ReplicateReq { index: 7 }));
}

#[test]
fn a_follower_in_step_accepts_the_leaders_probe() {
    let t = tracker_with(3);
    let mut rep = replicator(4, 0);
    rep.state = ReplicationState::Lagged;
    let probe = Lagged::step(&mut rep, &t).unwrap();
    let mut r = node(&[8001]);
    r.update_last_log(3, 2);
    let f = Follower::new();
    assert!(matches!(f.handle_append_entry(&mut r, probe), AppendStep::Commit { .. }));
    assert_eq!(r.current_term, 4);
}

#[test]
fn with_three_peers_one_match_is_no_majority() {
    let mut r = node(&[8001, 8002, 8003]);
    let l = Leader::new();
    l.record_progress(&mut r, &"127.0.0.1:8001".to_string(), 2, 1);
    assert_eq!(l.check_for_commit(&r, 1), None);
    l.record_progress(&mut r, &"127.0.0.1:8002".to_string(), 2, 1);
    assert_eq!(l.check_for_commit(&r, 1), Some(1));
}
