use std::collections::HashMap;
use std::sync::Arc;

use bus::Bus;
use crossbeam_channel::{unbounded, Receiver};
use kraft_lib::persistence::worker::{PersistenceResponseType, PersistenceTaskType};
use kraft_lib::quorum::types::{LocalQuorumResponse, LocalQuorumTaskResponseType};
use kraft_lib::raft::candidate::RaftCandidateStateDelegate;
use kraft_lib::raft::executor::{
    RaftStateMachineExecutor, StateDelegate, StateMachineExecutorImpl,
};
use kraft_lib::raft::follower::append_entries::{
    apply_log_entry, handle_heartbeat, handle_new_leader, handle_non_consecutive_request,
    send_unrecognized_leader_response, validate_append_entries,
};
use kraft_lib::raft::follower::election::ElectionTimer;
use kraft_lib::raft::follower::RaftFollowerStateDelegate;
use kraft_lib::raft::raft_sm::{
    Callback, CommitState, LocalAppendEntries, LocalAppendEntriesCallbackResponse,
    LocalRaftMessage, LocalRaftMessagePayload, LocalRaftResponseMessage, LocalRaftResponsePayload,
    LocalRaftWriteBatchRequest, LocalRequestVoteRequest, LogEntry, RaftMessageStateChange,
    RaftNodeType, RaftProtocol, RaftServerState, StateMachineConfig,
};
use kraft_lib::raft::shared_state::{RaftVolatileState, SharedState};
use kraft_lib::service_utils::storage_utils::{serialize_data, RemotePutRequest, SerializationData};
use minstant::Anchor;

const CALLBACK: Callback = Callback { id: 7 };

fn create_shared_state() -> (SharedState, Receiver<PersistenceTaskType>) {
    let (persistence_tx, persistence_rx) = unbounded();
    (
        SharedState {
            server_state: RaftServerState { current_term: 1, leader_id: 1 },
            volatile_server_state: RaftVolatileState {
                next_term: 2,
                last_log_term: 1,
                last_log_index: 0,
                commit_index: 0,
                replication_log: vec![],
                replication_log_term_starts: HashMap::new(),
                last_applied: 0,
                next_log_index: 1,
                commit_state: CommitState { commit_index: 0, version: 0 },
                last_broadcast_index: None,
                has_deferred_broadcast: false,
            },
            next_message_id: 1,
            outstanding_messages: HashMap::new(),
            quorum_size: 3,
            quorum_worker_tasks: vec![],
            persistence_work: persistence_tx,
            persistence_response: vec![],
            quorum_response: vec![],
            identity: 0,
            term_votes: HashMap::new(),
            state_machine_config: StateMachineConfig { max_message_size_bytes: 2048 },
            log_entry_bus: Bus::new(5000),
            responses: vec![],
            anchor: Anchor::new(),
        },
        persistence_rx,
    )
}

/// The state that the tests of single requests start with.
fn create_test_shared_state() -> (SharedState, Receiver<PersistenceTaskType>) {
    let (mut shared_state, persistence_rx) = create_shared_state();
    shared_state.volatile_server_state.last_log_index = 5;
    shared_state.volatile_server_state.commit_index = 3;
    shared_state.volatile_server_state.next_log_index = 6;
    shared_state.volatile_server_state.commit_state.commit_index = 3;
    (shared_state, persistence_rx)
}

fn request(
    term: u64,
    leader_id: u32,
    prev_term: u64,
    prev_index: u64,
    commit_index: u64,
    request_id: u64,
) -> LocalAppendEntries {
    LocalAppendEntries {
        term,
        leader_id,
        prev_term,
        prev_index,
        commit_index,
        request_id,
        entry: None,
    }
}

fn entry(index: u64, term: u64, prev_index: u64, prev_term: u64) -> Arc<SerializationData> {
    Arc::new(SerializationData {
        requests: vec![],
        term,
        timestamp: 0,
        prev_index,
        prev_term,
        index,
        message_id: index,
    })
}

fn answer(shared_state: &mut SharedState) -> LocalRaftResponseMessage {
    let response = shared_state.responses.remove(0);
    assert_eq!(response.callback, CALLBACK);
    response.message
}

fn expect_accepted(shared_state: &mut SharedState) {
    match answer(shared_state).payload {
        LocalRaftResponsePayload::AppendEntries(LocalAppendEntriesCallbackResponse::Accepted) => {}
        _ => panic!("Unexpected response"),
    }
}

fn expect_wanted(shared_state: &mut SharedState, term: u64, index: u64) {
    match answer(shared_state).payload {
        LocalRaftResponsePayload::AppendEntries(
            LocalAppendEntriesCallbackResponse::WantedPreviousEntry { last_term, last_index },
        ) => {
            assert_eq!(last_term, term);
            assert_eq!(last_index, index);
        }
        _ => panic!("Expected WantedPreviousEntry response"),
    }
}

#[test]
fn test_validate_append_entries_returns_true_when_consecutive() {
    assert!(validate_append_entries(&request(1, 1, 1, 5, 3, 1), 5, 1));
}

#[test]
fn test_validate_append_entries_returns_false_when_index_mismatch() {
    // Mismatch: expected 5
    assert!(!validate_append_entries(&request(1, 1, 1, 10, 3, 1), 5, 1));
}

#[test]
fn test_validate_append_entries_returns_false_when_term_mismatch() {
    // Mismatch: expected 1
    assert!(!validate_append_entries(&request(1, 1, 2, 5, 3, 1), 5, 1));
}

#[test]
fn test_validate_append_entries_returns_false_when_both_mismatch() {
    assert!(!validate_append_entries(&request(1, 1, 2, 10, 3, 1), 5, 1));
}

#[test]
fn test_handle_new_leader_updates_state() {
    let (mut shared_state, _persistence_rx) = create_test_shared_state();
    let mut election_timer = ElectionTimer::new(&Anchor::new());

    handle_new_leader(
        request(5, 3, 1, 5, 3, 1),
        CALLBACK,
        &mut shared_state,
        &mut election_timer,
    );

    // Verify state was updated
    assert_eq!(shared_state.server_state.current_term, 5);
    assert_eq!(shared_state.server_state.leader_id, 3);
    assert_eq!(shared_state.volatile_server_state.next_term, 6);

    // Verify callback was sent
    expect_accepted(&mut shared_state);
}

#[test]
fn test_handle_heartbeat_consecutive_updates_commit_index() {
    let (mut shared_state, _persistence_rx) = create_test_shared_state();
    let mut election_timer = ElectionTimer::new(&Anchor::new());

    handle_heartbeat(
        &request(1, 1, 1, 5, 10, 0),
        CALLBACK,
        &mut shared_state,
        &mut election_timer,
    );

    // Verify commit index was updated
    assert_eq!(shared_state.volatile_server_state.commit_index, 10);
    expect_accepted(&mut shared_state);
}

#[test]
fn test_handle_heartbeat_non_consecutive_requests_backfill() {
    let (mut shared_state, _persistence_rx) = create_test_shared_state();
    let mut election_timer = ElectionTimer::new(&Anchor::new());

    handle_heartbeat(
        &request(1, 1, 1, 100, 10, 0),
        CALLBACK,
        &mut shared_state,
        &mut election_timer,
    );

    expect_wanted(&mut shared_state, 1, 5);
}

#[test]
fn test_handle_non_consecutive_request_sends_wanted_previous_entry() {
    let (mut shared_state, _persistence_rx) = create_test_shared_state();
    let mut election_timer = ElectionTimer::new(&Anchor::new());

    let mut req = request(1, 1, 2, 10, 3, 5);
    req.entry = Some(LogEntry {
        index: 11,
        term: 1,
        data: vec![1, 2, 3],
        batch_index: 0,
        message_id: 1,
        prev_log_index: 10,
        prev_log_term: 2,
    });

    handle_non_consecutive_request(&req, CALLBACK, &mut shared_state, &mut election_timer);

    expect_wanted(&mut shared_state, 1, 5);
}

#[test]
fn test_send_unrecognized_leader_response() {
    let (mut shared_state, _persistence_rx) = create_test_shared_state();

    // Not the current leader
    send_unrecognized_leader_response(&request(1, 99, 1, 5, 3, 1), CALLBACK, &mut shared_state);

    match answer(&mut shared_state).payload {
        LocalRaftResponsePayload::AppendEntries(
            LocalAppendEntriesCallbackResponse::UnrecognizedLeader,
        ) => {}
        _ => panic!("Expected UnrecognizedLeader response"),
    }
}

#[test]
fn test_malformed_entry_is_rejected_not_persisted() {
    let (mut shared_state, persistence_rx) = create_test_shared_state();

    let mut req = request(1, 1, 0, 0, 0, 1);
    req.entry = Some(LogEntry {
        term: 1,
        index: 1,
        data: vec![0xFF, 0xFE, 0xFD, 0xFC],
        batch_index: 0,
        message_id: 1,
        prev_log_index: 0,
        prev_log_term: 0,
    });

    let initial_log_len = shared_state.volatile_server_state.replication_log.len();

    apply_log_entry(req, CALLBACK, &mut shared_state);

    // CRITICAL: The malformed entry should NOT be added to replication log
    assert_eq!(shared_state.volatile_server_state.replication_log.len(), initial_log_len);

    // Should receive an error response, and ask for retransmission
    expect_wanted(&mut shared_state, 1, 5);
    assert!(persistence_rx.try_recv().is_err());
    assert_eq!(shared_state.volatile_server_state.last_log_index, 5);
}

#[test]
fn test_valid_entry_is_accepted_and_persisted() {
    let (mut shared_state, persistence_rx) = create_shared_state();
    shared_state.volatile_server_state.last_log_term = 0;

    let owned_entry = SerializationData {
        index: 1,
        term: 1,
        prev_index: 0,
        prev_term: 0,
        message_id: 100,
        timestamp: 123456789,
        requests: vec![RemotePutRequest {
            id: "test_key".to_string(),
            payload: "test_value".to_string(),
            node_id: 1,
        }],
    };

    let mut req = request(1, 1, 0, 0, 0, 1);
    req.entry = Some(LogEntry {
        term: 1,
        index: 1,
        data: owned_entry.as_bytes(),
        batch_index: 0,
        message_id: 100,
        prev_log_index: 0,
        prev_log_term: 0,
    });

    let initial_log_len = shared_state.volatile_server_state.replication_log.len();

    apply_log_entry(req, CALLBACK, &mut shared_state);

    // Valid entry should be added to replication log
    assert_eq!(shared_state.volatile_server_state.replication_log.len(), initial_log_len + 1);

    // Verify the entry was stored correctly
    let stored_entry = &shared_state.volatile_server_state.replication_log[initial_log_len];
    assert_eq!(stored_entry.index, 1);
    assert_eq!(stored_entry.term, 1);
    assert!(matches!(
        persistence_rx.try_recv(),
        Ok(PersistenceTaskType::AppendLog { data, .. }) if *data == owned_entry.as_bytes()
    ));
}

#[test]
fn test_election_timer_new_initializes_within_bounds() {
    let timer = ElectionTimer::new(&Anchor::new());

    // Election timeout should be set in the future
    assert!(timer.election_timeout > 0);

    // Min and max should be properly set
    assert_eq!(timer.election_timeout_min, 600);
    assert_eq!(timer.election_timeout_max, 1300);
    assert!(timer.election_timeout_min < timer.election_timeout_max);
}

#[test]
fn test_election_timer_reset_updates_timeout() {
    let mut timer = ElectionTimer::new(&Anchor::new());

    // Reset multiple times and verify timeout is always in the future
    for _ in 0..10 {
        timer.reset(&Anchor::new());
        // The timeout should always be positive (in the future)
        assert!(timer.election_timeout > 0);
    }
}

#[test]
fn test_check_timeout_returns_none_when_not_expired() {
    let timer = ElectionTimer::new(&Anchor::new());

    // New timer should not be expired
    let result = timer.check_timeout(&Anchor::new());
    assert!(result.is_none());
}

#[test]
fn test_check_timeout_returns_candidate_when_expired() {
    let mut timer = ElectionTimer::new(&Anchor::new());

    // Set timeout to 0 (past)
    timer.election_timeout = 0;

    let result = timer.check_timeout(&Anchor::new());
    assert!(result.is_some());

    match result.unwrap() {
        RaftMessageStateChange::Candidate(_) => {}
        _ => panic!("Expected Candidate state change"),
    }
}

#[test]
fn test_election_timer_reset_sets_future_timeout() {
    let mut timer = ElectionTimer::new(&Anchor::new());

    // Set timeout to past
    timer.election_timeout = 0;
    assert!(timer.check_timeout(&Anchor::new()).is_some());

    // Reset should set it to the future
    timer.reset(&Anchor::new());
    assert!(timer.check_timeout(&Anchor::new()).is_none());
}

#[test]
fn election_timer_at_given_times() {
    let mut timer = ElectionTimer::new(&Anchor::new());
    timer.reset_at(1000, 700);
    assert_eq!(timer.election_timeout, 1700);
    assert!(!timer.is_expired_at(1700));
    assert!(timer.is_expired_at(1701));
    assert!(timer.check_timeout_at(1700).is_none());
    assert!(timer.check_timeout_at(1701).is_some());
}

#[test]
fn follower_test_new_delegate_initializes_election_timeout() {
    let delegate = RaftFollowerStateDelegate::new(&Anchor::new());
    assert!(delegate.election_timer.election_timeout > 0);
    assert!(
        delegate.election_timer.election_timeout_min < delegate.election_timer.election_timeout_max
    );
}

#[test]
fn mod_test_new_delegate_initializes_election_timeout() {
    let delegate = RaftFollowerStateDelegate::new(&Anchor::new());
    assert!(delegate.election_timer.election_timeout > 0);
    assert!(
        delegate.election_timer.election_timeout_min < delegate.election_timer.election_timeout_max
    );
}

#[test]
fn mod_test_append_entries_recognize_new_leader() {
    let mut delegate = RaftFollowerStateDelegate::new(&Anchor::new());
    let (mut shared_state, _persistence_rx) = create_shared_state();

    let result =
        delegate.append_entries(request(2, 2, 1, 0, 0, 1), CALLBACK, &mut shared_state);
    expect_accepted(&mut shared_state);
    assert_eq!(shared_state.server_state.current_term, 2);
    assert_eq!(shared_state.server_state.leader_id, 2);
    assert!(matches!(result, RaftMessageStateChange::Unchanged));
}

#[test]
fn mod_test_append_entries_heartbeat_updates_commit_index() {
    let mut delegate = RaftFollowerStateDelegate::new(&Anchor::new());
    let (mut shared_state, _persistence_rx) = create_shared_state();

    let result =
        delegate.append_entries(request(1, 1, 1, 0, 5, 0), CALLBACK, &mut shared_state);
    expect_accepted(&mut shared_state);
    assert_eq!(shared_state.volatile_server_state.commit_index, 5);
    assert!(matches!(result, RaftMessageStateChange::Unchanged));
}

#[test]
fn mod_test_append_entries_appends_log_entry() {
    let mut delegate = RaftFollowerStateDelegate::new(&Anchor::new());
    let (mut shared_state, _persistence_rx) = create_shared_state();

    let serialisation_data = SerializationData {
        index: 1,
        term: 1,
        timestamp: 123456789,
        prev_index: 0,
        prev_term: 0,
        message_id: 100,
        requests: vec![RemotePutRequest {
            id: "put_1".to_string(),
            payload: "test_payload".to_string(),
            node_id: 42,
        }],
    };
    let buffer = vec![0u8; 2048];
    let (size, mut serialised_data) = serialize_data(&serialisation_data, buffer, 0);
    serialised_data.truncate(size);
    let mut req = request(1, 1, 1, 0, 1, 1);
    req.entry = Some(LogEntry {
        term: 1,
        index: 1,
        data: serialised_data,
        batch_index: 0,
        message_id: 1,
        prev_log_index: 0,
        prev_log_term: 1,
    });

    let message_index = shared_state.next_message_id;
    let result = delegate.append_entries(req, CALLBACK, &mut shared_state);
    // Send persistence response to mock that entries have been written to disk
    shared_state
        .persistence_response
        .push(PersistenceResponseType::LogPersisted { id: message_index });
    // Should see the persisted log message and trigger the callback.
    delegate.time_step(&mut shared_state);
    expect_accepted(&mut shared_state);
    assert_eq!(shared_state.volatile_server_state.last_log_index, 1);
    assert_eq!(shared_state.volatile_server_state.last_log_term, 1);
    assert_eq!(shared_state.volatile_server_state.commit_index, 1);
    assert_eq!(shared_state.volatile_server_state.replication_log.len(), 1);
    assert!(matches!(result, RaftMessageStateChange::Unchanged));
    let log_entry = &shared_state.volatile_server_state.replication_log[0];
    assert_eq!(log_entry.index, 1, "Log entry index should be 1");
    assert_eq!(log_entry.term, 1, "Log entry term should be 1");
    assert_eq!(log_entry.requests.len(), 1, "Log entry should contain one request");
    assert_eq!(log_entry.requests[0].id, "put_1", "Request ID should match");
    assert_eq!(log_entry.requests[0].payload, "test_payload");
}

#[test]
fn mod_test_request_vote_rejects_invalid_vote() {
    let mut delegate = RaftFollowerStateDelegate::new(&Anchor::new());
    let (mut shared_state, _persistence_rx) = create_shared_state();

    let req = LocalRequestVoteRequest {
        term: 0,
        candidate_id: 2,
        last_log_term: 0,
        last_log_index: 0,
    };

    let result = delegate.request_vote(req, CALLBACK, &mut shared_state);
    match answer(&mut shared_state).payload {
        LocalRaftResponsePayload::RequestVote(false) => {}
        _ => panic!("Unexpected response"),
    }
    assert!(matches!(result, RaftMessageStateChange::Unchanged));
}

#[test]
fn mod_test_time_step_triggers_candidate_transition() {
    let mut delegate = RaftFollowerStateDelegate::new(&Anchor::new());
    let (mut shared_state, _persistence_rx) = create_shared_state();
    delegate.election_timer.election_timeout = 0; // Simulate timeout

    let (state_change, _work_done) = delegate.time_step(&mut shared_state);
    match state_change {
        RaftMessageStateChange::Candidate(_) => {}
        _ => panic!("Should transition to candidate"),
    }
}

#[test]
fn mod_test_truncate_log_basic_functionality() {
    let delegate = RaftFollowerStateDelegate::new(&Anchor::new());
    let (mut shared_state, _persistence_rx) = create_shared_state();

    // Set up a log with multiple terms using absolute indexing
    let starts = &mut shared_state.volatile_server_state.replication_log_term_starts;
    starts.insert(1, 0);
    starts.insert(2, 3);
    starts.insert(3, 8);

    // Add log entries for terms 1, 2, and 3 with absolute indexes
    for i in 0..12u64 {
        let term = if i < 3 {
            1
        } else if i < 8 {
            2
        } else {
            3
        };
        let prev = if i > 0 { i - 1 } else { 0 };
        shared_state.volatile_server_state.replication_log.push(entry(i, term, prev, term));
    }

    shared_state.volatile_server_state.last_log_term = 3;
    shared_state.volatile_server_state.last_log_index = 11;
    shared_state.volatile_server_state.next_log_index = 12;

    // Truncate to term 2 at absolute index 4 (should keep entries 0,1,2,3,4)
    delegate.truncate_log(&mut shared_state, 2, 4);

    // Verify log was truncated correctly
    assert_eq!(shared_state.volatile_server_state.replication_log.len(), 5);
    assert_eq!(shared_state.volatile_server_state.last_log_term, 2);
    assert_eq!(shared_state.volatile_server_state.last_log_index, 4); // Absolute index
    assert_eq!(shared_state.volatile_server_state.next_log_index, 5);

    // Verify term starts were cleaned up - should only have terms 1 and 2
    let starts = &shared_state.volatile_server_state.replication_log_term_starts;
    assert!(starts.contains_key(&1));
    assert!(starts.contains_key(&2));
    assert!(!starts.contains_key(&3));
}

#[test]
fn mod_test_truncate_log_to_term_boundary() {
    let delegate = RaftFollowerStateDelegate::new(&Anchor::new());
    let (mut shared_state, _persistence_rx) = create_shared_state();

    // Set up a log with multiple terms
    let starts = &mut shared_state.volatile_server_state.replication_log_term_starts;
    starts.insert(1, 0);
    starts.insert(2, 5);

    for i in 0..10u64 {
        let term = if i < 5 { 1 } else { 2 };
        shared_state.volatile_server_state.replication_log.push(entry(i % 5, term, 0, 0));
    }

    shared_state.volatile_server_state.last_log_term = 2;
    shared_state.volatile_server_state.last_log_index = 9;

    // Truncate to end of term 1 (index 4, term 1)
    delegate.truncate_log(&mut shared_state, 1, 4);

    // Should truncate to exactly the end of term 1
    assert_eq!(shared_state.volatile_server_state.replication_log.len(), 5);
    assert_eq!(shared_state.volatile_server_state.last_log_term, 1);
    assert_eq!(shared_state.volatile_server_state.last_log_index, 4);

    // Should only have term 1 now
    let starts = &shared_state.volatile_server_state.replication_log_term_starts;
    assert!(starts.contains_key(&1));
    assert!(!starts.contains_key(&2));
}

#[test]
fn test_truncate_log_with_absolute_index() {
    let delegate = RaftFollowerStateDelegate::new(&Anchor::new());
    let (mut shared_state, _persistence_rx) = create_shared_state();

    // Set up a log with only term 3
    shared_state.volatile_server_state.replication_log_term_starts.insert(3, 0);
    for i in 0..5u64 {
        let prev = if i > 0 { i - 1 } else { 0 };
        shared_state.volatile_server_state.replication_log.push(entry(i, 3, prev, 3));
    }

    shared_state.volatile_server_state.last_log_term = 3;
    shared_state.volatile_server_state.last_log_index = 4;

    // Truncate to absolute index 1 (keeps entries 0, 1)
    delegate.truncate_log(&mut shared_state, 3, 1);

    // With absolute indexing, truncation happens at the specified absolute index
    assert_eq!(shared_state.volatile_server_state.replication_log.len(), 2);
    assert_eq!(shared_state.volatile_server_state.last_log_term, 3);
    assert_eq!(shared_state.volatile_server_state.last_log_index, 1);
}

#[test]
fn mod_test_truncate_log_no_truncation_needed() {
    let delegate = RaftFollowerStateDelegate::new(&Anchor::new());
    let (mut shared_state, _persistence_rx) = create_shared_state();

    // Set up a log
    shared_state.volatile_server_state.replication_log_term_starts.insert(2, 0);
    for i in 0..5u64 {
        shared_state.volatile_server_state.replication_log.push(entry(i, 2, 0, 0));
    }

    shared_state.volatile_server_state.last_log_term = 2;
    shared_state.volatile_server_state.last_log_index = 4;

    // Try to truncate to an index beyond current log
    delegate.truncate_log(&mut shared_state, 2, 10);

    // Should not modify the log since truncation point is beyond current log
    assert_eq!(shared_state.volatile_server_state.replication_log.len(), 5);
    assert_eq!(shared_state.volatile_server_state.last_log_term, 2);
    assert_eq!(shared_state.volatile_server_state.last_log_index, 4);
}

#[test]
fn mod_test_follower_handles_truncate_log_message() {
    let mut delegate = RaftFollowerStateDelegate::new(&Anchor::new());
    let (mut shared_state, _persistence_rx) = create_shared_state();

    // Set up a log that will be truncated
    let starts = &mut shared_state.volatile_server_state.replication_log_term_starts;
    starts.insert(2, 0);
    starts.insert(3, 5);

    for i in 0..10u64 {
        let term = if i < 5 { 2 } else { 3 };
        shared_state.volatile_server_state.replication_log.push(entry(i, term, 0, 0));
    }

    shared_state.volatile_server_state.last_log_term = 3;
    shared_state.volatile_server_state.last_log_index = 9;

    // Simulate receiving a truncate log message from leader
    shared_state.quorum_response.push(LocalQuorumResponse {
        response_type: LocalQuorumTaskResponseType::TruncateLog {
            quorum_node_id: 0, // Leader ID
            prev_term: 2,
            prev_index: 2,
        },
    });

    let (state_change, _work_done) = delegate.time_step(&mut shared_state);

    // Should remain follower
    assert!(matches!(state_change, RaftMessageStateChange::Unchanged));

    // Log should be truncated
    assert_eq!(shared_state.volatile_server_state.replication_log.len(), 3);
    assert_eq!(shared_state.volatile_server_state.last_log_term, 2);
    assert_eq!(shared_state.volatile_server_state.last_log_index, 2);
    assert_eq!(shared_state.volatile_server_state.next_log_index, 3);

    // Term 3 should be removed from term starts
    let starts = &shared_state.volatile_server_state.replication_log_term_starts;
    assert!(starts.contains_key(&2));
    assert!(!starts.contains_key(&3));
}

fn message(payload: LocalRaftMessagePayload) -> LocalRaftMessage {
    LocalRaftMessage { payload, callback: CALLBACK }
}

#[test]
fn node_starts_as_a_follower_and_refuses_writes() {
    let (shared_state, _persistence_rx) = create_shared_state();
    let mut executor = StateMachineExecutorImpl::new(shared_state);
    assert_eq!(executor.state_delegate.get_node_type(), RaftNodeType::Follower);
    let write = message(LocalRaftMessagePayload::WriteBatch(LocalRaftWriteBatchRequest {
        requests: vec![],
    }));
    assert!(executor.is_ready_to_accept(&write));
    executor.accept(write);
    match answer(&mut executor.shared_state).payload {
        LocalRaftResponsePayload::WriteBatch(r) => {
            assert_eq!(r.err.unwrap(), "Received write batch as non-leader");
        }
        _ => panic!("Expected WriteBatch response"),
    }
    executor.accept(message(LocalRaftMessagePayload::GetRaftState));
    match answer(&mut executor.shared_state).payload {
        LocalRaftResponsePayload::RaftState { leader_id } => assert_eq!(leader_id, 1),
        _ => panic!("Expected RaftState response"),
    }
}

#[test]
fn candidate_becomes_leader_and_writes() {
    let (mut shared_state, persistence_rx) = create_shared_state();
    shared_state.quorum_size = 1;
    shared_state.quorum_worker_tasks = vec![vec![]];
    let mut executor = StateMachineExecutorImpl::new(shared_state);
    executor.state_delegate = StateDelegate::Candidate(RaftCandidateStateDelegate::new());
    assert!(executor.is_ready_to_step());

    // The election starts: the own vote goes to the disk, and the peers are asked.
    executor.time_step();
    let vote_id = match persistence_rx.try_recv() {
        Ok(PersistenceTaskType::AppendVote { id, term, candidate_id }) => {
            assert_eq!((term, candidate_id), (2, 0));
            id
        }
        _ => panic!("Expected AppendVote task"),
    };
    executor.shared_state.persistence_response.push(PersistenceResponseType::VotePersisted {
        id: vote_id,
        term: 2,
        candidate_id: 0,
    });
    executor.shared_state.quorum_response.push(LocalQuorumResponse {
        response_type: LocalQuorumTaskResponseType::RequestVoteResponse {
            id: vote_id,
            term: 2,
            received_vote: true,
        },
    });
    executor.time_step();
    assert_eq!(executor.state_delegate.get_node_type(), RaftNodeType::Leader);
    assert_eq!(executor.shared_state.server_state.current_term, 2);

    // A new leader appends an entry of its own, then takes writes.
    executor.time_step();
    assert_eq!(executor.shared_state.volatile_server_state.replication_log.len(), 1);
    executor.accept(message(LocalRaftMessagePayload::WriteBatch(LocalRaftWriteBatchRequest {
        requests: vec![RemotePutRequest {
            id: "k".to_string(),
            payload: "v".to_string(),
            node_id: 0,
        }],
    })));
    assert_eq!(executor.shared_state.volatile_server_state.replication_log.len(), 2);

    // A later leader is followed.
    executor.accept(message(LocalRaftMessagePayload::AppendEntries(request(9, 3, 0, 0, 0, 1))));
    assert_eq!(executor.state_delegate.get_node_type(), RaftNodeType::Follower);
    assert_eq!(executor.shared_state.server_state.leader_id, 3);
}

#[test]
fn leader_and_candidate_vote_once_per_term() {
    let (mut shared_state, persistence_rx) = create_shared_state();
    let mut delegate = RaftCandidateStateDelegate::new();
    for candidate_id in [2, 3] {
        let req = LocalRequestVoteRequest {
            term: 5,
            candidate_id,
            last_log_term: 1,
            last_log_index: 4,
        };
        delegate.request_vote(req, CALLBACK, &mut shared_state);
    }
    // Only the first vote goes to the disk; the second request is refused.
    assert!(persistence_rx.try_recv().is_ok());
    assert!(persistence_rx.try_recv().is_err());
    assert_eq!(shared_state.term_votes.get(&5), Some(&2));
    match answer(&mut shared_state).payload {
        LocalRaftResponsePayload::RequestVote(granted) => assert!(!granted),
        _ => panic!("Expected RequestVote response"),
    }
}

#[test]
fn counters_at_their_limits_are_noticed() {
    let (mut shared_state, _persistence_rx) = create_shared_state();
    assert!(shared_state.has_room_for(1000));
    shared_state.next_message_id = u64::MAX - 1;
    assert!(!shared_state.has_room_for(1));
    shared_state.next_message_id = u64::MAX - 2;
    assert!(shared_state.has_room_for(1));
    let too_late = message(LocalRaftMessagePayload::AppendEntries(request(
        u64::MAX, 1, 0, 0, 0, 0,
    )));
    assert!(!too_late.within_limits(RaftNodeType::Follower));
}

#[test]
fn follower_catches_up_with_a_deferred_broadcast() {
    let (mut shared_state, _persistence_rx) = create_shared_state();
    shared_state.log_entry_bus = Bus::new(1);
    let mut reader = shared_state.log_entry_bus.add_rx();
    shared_state.volatile_server_state.replication_log =
        vec![entry(0, 1, 0, 0), entry(1, 1, 0, 1), entry(2, 1, 1, 1)];
    shared_state.volatile_server_state.last_log_index = 2;
    let mut delegate = RaftFollowerStateDelegate::new(&Anchor::new());

    delegate.append_entries(request(1, 1, 1, 2, 2, 0), CALLBACK, &mut shared_state);
    assert!(shared_state.volatile_server_state.has_deferred_broadcast);
    let mut seen = Vec::new();
    while seen.len() < 3 {
        while let Ok(e) = reader.try_recv() {
            seen.push(e.index);
        }
        delegate.time_step(&mut shared_state);
    }
    assert_eq!(seen, vec![0, 1, 2]);
    assert!(!shared_state.volatile_server_state.has_deferred_broadcast);
    assert_eq!(shared_state.volatile_server_state.last_broadcast_index, Some(2));
    let (_, work_done) = delegate.time_step(&mut shared_state);
    assert_eq!(work_done, 0);
}

#[test]
fn message_of_a_leader_resets_the_timer() {
    let (shared_state, _persistence_rx) = create_shared_state();
    let mut executor = StateMachineExecutorImpl::new(shared_state);
    match &mut executor.state_delegate {
        StateDelegate::Follower(delegate) => delegate.election_timer.election_timeout = 0,
        _ => panic!("Expected a follower"),
    }
    executor.accept(message(LocalRaftMessagePayload::GetRaftState));
    match &executor.state_delegate {
        StateDelegate::Follower(delegate) => {
            assert_eq!(delegate.election_timer.election_timeout, 0);
        }
        _ => panic!("Expected a follower"),
    }
    executor.accept(message(LocalRaftMessagePayload::AppendEntries(request(1, 1, 1, 0, 0, 5))));
    match &executor.state_delegate {
        StateDelegate::Follower(delegate) => {
            assert!(delegate.election_timer.election_timeout > 0);
            assert_eq!(delegate.election_timer.election_timeout_min, 600);
            assert_eq!(delegate.election_timer.election_timeout_max, 1300);
        }
        _ => panic!("Expected a follower"),
    }
}
