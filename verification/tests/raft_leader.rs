use std::collections::HashMap;
use std::sync::Arc;

use bus::Bus;
use crossbeam_channel::{unbounded, Receiver};
use kraft_lib::persistence::worker::{PersistenceResponseType, PersistenceTaskType};
use kraft_lib::quorum::types::{
    LocalQuorumResponse, LocalQuorumTaskResponseType, LocalQuorumWorkerTask,
    LocalQuorumWorkerTaskType,
};
use kraft_lib::raft::leader::outstanding::{process_persistence_responses, process_quorum_responses};
use kraft_lib::raft::leader::replication::{
    clone_subset, get_quorum_worker_index, handle_backfill_request, send_truncate_signal,
};
use kraft_lib::raft::leader::write_batch::{
    build_log_entry, create_serialization_data, dispatch_to_quorum, queue_persistence_task,
    register_outstanding_message, send_error_response, serialize_and_append_to_log,
    update_volatile_state, validate_write_batch,
};
use kraft_lib::raft::leader::RaftLeaderStateDelegate;
use kraft_lib::raft::raft_sm::{
    Callback, CommitState, LocalAppendEntries, LocalAppendEntriesCallbackResponse,
    LocalRaftResponseMessage, LocalRaftResponsePayload, LocalRaftWriteBatchRequest,
    LocalRequestVoteRequest, OutstandingMessage, OutstandingMessageType, RaftMessageStateChange,
    RaftProtocol, RaftServerState, StateMachineConfig,
};
use kraft_lib::raft::shared_state::{RaftVolatileState, SharedState};
use kraft_lib::service_utils::storage_utils::{RemotePutRequest, SerializationData};
use minstant::Anchor;

const CALLBACK: Callback = Callback { id: 7 };

fn create_shared_state() -> (SharedState, Receiver<PersistenceTaskType>) {
    let (persistence_tx, persistence_rx) = unbounded();
    (
        SharedState {
            server_state: RaftServerState { current_term: 1, leader_id: 1 },
            volatile_server_state: RaftVolatileState {
                next_term: 2,
                last_log_term: 1,
                last_log_index: 0,
                commit_index: 0,
                replication_log: vec![],
                replication_log_term_starts: HashMap::new(),
                last_applied: 0,
                next_log_index: 1,
                commit_state: CommitState { commit_index: 0, version: 0 },
                last_broadcast_index: None,
                has_deferred_broadcast: false,
            },
            next_message_id: 1,
            outstanding_messages: HashMap::new(),
            quorum_size: 3,
            quorum_worker_tasks: vec![],
            persistence_work: persistence_tx,
            persistence_response: vec![],
            quorum_response: vec![],
            identity: 0,
            term_votes: HashMap::new(),
            state_machine_config: StateMachineConfig { max_message_size_bytes: 2048 },
            log_entry_bus: Bus::new(5000),
            responses: vec![],
            anchor: Anchor::new(),
        },
        persistence_rx,
    )
}

fn create_shared_state_with_quorum() -> SharedState {
    let (mut shared_state, _persistence_rx) = create_shared_state();
    shared_state.server_state.leader_id = 0;
    shared_state.quorum_size = 2;
    shared_state.quorum_worker_tasks = vec![vec![], vec![]];
    shared_state
}

/// The state that the tests of outstanding messages and of write batches start with.
fn create_test_shared_state() -> (SharedState, Receiver<PersistenceTaskType>) {
    let (mut shared_state, persistence_rx) = create_shared_state();
    shared_state.server_state = RaftServerState { current_term: 2, leader_id: 1 };
    shared_state.volatile_server_state.next_term = 3;
    shared_state.volatile_server_state.last_log_term = 2;
    shared_state.volatile_server_state.last_log_index = 5;
    shared_state.volatile_server_state.commit_index = 3;
    shared_state.volatile_server_state.next_log_index = 6;
    shared_state.volatile_server_state.commit_state.commit_index = 3;
    shared_state.next_message_id = 100;
    shared_state.quorum_size = 2;
    shared_state.quorum_worker_tasks = vec![vec![], vec![]];
    shared_state.identity = 1;
    (shared_state, persistence_rx)
}

fn log_entry(index: u64, term: u64, prev_index: u64, prev_term: u64, message_id: u64) -> Arc<SerializationData> {
    Arc::new(SerializationData {
        index,
        term,
        timestamp: 0,
        prev_index,
        prev_term,
        message_id,
        requests: vec![],
    })
}

fn backfill(quorum_node_id: u64, last_log_term: u64, last_log_index: u64) -> LocalQuorumResponse {
    LocalQuorumResponse {
        response_type: LocalQuorumTaskResponseType::BackfillLog {
            quorum_node_id,
            last_log_term,
            last_log_index,
        },
    }
}

fn acknowledged(id: u64) -> LocalQuorumResponse {
    LocalQuorumResponse {
        response_type: LocalQuorumTaskResponseType::AppendEntries { id, ok: true },
    }
}

fn answer(shared_state: &mut SharedState) -> LocalRaftResponseMessage {
    let response = shared_state.responses.remove(0);
    assert_eq!(response.callback, CALLBACK);
    response.message
}

fn pop(queue: &mut Vec<LocalQuorumWorkerTask>) -> Option<LocalQuorumWorkerTask> {
    if queue.is_empty() {
        None
    } else {
        Some(queue.remove(0))
    }
}

fn put(id: &str, payload: &str) -> RemotePutRequest {
    RemotePutRequest { id: id.to_string(), payload: payload.to_string(), node_id: 1 }
}

#[test]
fn leader_test_append_entries_recognize_new_leader() {
    let mut delegate = RaftLeaderStateDelegate::new(&Anchor::new());
    let (mut shared_state, _persistence_rx) = create_shared_state();

    let req = LocalAppendEntries {
        term: 2,
        leader_id: 2,
        prev_term: 1,
        prev_index: 0,
        commit_index: 0,
        request_id: 1,
        entry: None,
    };

    let result = delegate.append_entries(req, CALLBACK, &mut shared_state);
    match answer(&mut shared_state).payload {
        LocalRaftResponsePayload::AppendEntries(LocalAppendEntriesCallbackResponse::Accepted) => {}
        _ => panic!("Unexpected response"),
    }
    assert_eq!(shared_state.server_state.current_term, 2);
    assert_eq!(shared_state.server_state.leader_id, 2);
    assert!(matches!(result, RaftMessageStateChange::Follower(..)));
}

#[test]
fn leader_test_request_vote_rejects_invalid_vote() {
    let mut delegate = RaftLeaderStateDelegate::new(&Anchor::new());
    let (mut shared_state, _persistence_rx) = create_shared_state();

    let req = LocalRequestVoteRequest {
        term: 0,
        candidate_id: 2,
        last_log_term: 0,
        last_log_index: 0,
    };

    let result = delegate.request_vote(req, CALLBACK, &mut shared_state);
    match answer(&mut shared_state).payload {
        LocalRaftResponsePayload::RequestVote(false) => {}
        _ => panic!("Unexpected response"),
    }
    assert!(matches!(result, RaftMessageStateChange::Unchanged));
}

#[test]
fn test_backfill_request_sends_truncate_signal_on_term_mismatch() {
    let mut delegate = RaftLeaderStateDelegate::new(&Anchor::new());
    delegate.initialized = true;
    let (mut shared_state, _persistence_rx) = create_shared_state();

    // Initialize as leader for term 3
    shared_state.server_state.current_term = 3;
    shared_state.server_state.leader_id = 0;
    shared_state.volatile_server_state.next_term = 4;

    // Leader has 5 entries: 3 in term 2, then 2 in term 3
    shared_state.volatile_server_state.replication_log_term_starts.insert(2, 0);
    shared_state.volatile_server_state.replication_log_term_starts.insert(3, 3);

    for i in 0..5u64 {
        let term = if i < 3 { 2 } else { 3 };
        let prev_index = if i > 0 { i - 1 } else { 0 };
        let prev_term = if i <= 3 { 2 } else { 3 };
        shared_state
            .volatile_server_state
            .replication_log
            .push(log_entry(i, term, prev_index, prev_term, i));
    }

    // Set up quorum worker task queues
    shared_state.quorum_worker_tasks = vec![vec![], vec![], vec![]];

    // Follower requests backfill at absolute index 3 but claims it's term 2
    shared_state.quorum_response.push(backfill(1, 2, 3));

    let (result, _work_done) = delegate.time_step(&mut shared_state);
    assert!(matches!(result, RaftMessageStateChange::Unchanged));

    let queue = &mut shared_state.quorum_worker_tasks[0];
    assert_eq!(queue.len(), 1);
    match pop(queue).unwrap().task_type {
        LocalQuorumWorkerTaskType::TruncateLog { prev_term, prev_index, .. } => {
            assert_eq!(prev_term, 2);
            assert_eq!(prev_index, 2);
        }
        _ => panic!("Expected TruncateLog task"),
    }
}

#[test]
fn test_backfill_request_sends_truncate_when_follower_ahead() {
    let mut delegate = RaftLeaderStateDelegate::new(&Anchor::new());
    delegate.initialized = true;
    let (mut shared_state, _persistence_rx) = create_shared_state();

    shared_state.server_state.current_term = 3;
    shared_state.server_state.leader_id = 0;

    // Leader has 2 entries
    shared_state.volatile_server_state.replication_log.push(log_entry(0, 1, 0, 0, 0));
    shared_state.volatile_server_state.replication_log.push(log_entry(1, 3, 0, 1, 0));

    shared_state.quorum_worker_tasks = vec![vec![], vec![], vec![]];

    // Follower requests backfill beyond leader's log
    shared_state.quorum_response.push(backfill(1, 2, 3));

    let (result, _work_done) = delegate.time_step(&mut shared_state);
    assert!(matches!(result, RaftMessageStateChange::Unchanged));

    let queue = &mut shared_state.quorum_worker_tasks[0];
    assert_eq!(queue.len(), 1);
    match pop(queue).unwrap().task_type {
        LocalQuorumWorkerTaskType::TruncateLog { prev_term, prev_index, .. } => {
            assert_eq!(prev_term, 3);
            assert_eq!(prev_index, 1);
        }
        _ => panic!("Expected TruncateLog task"),
    }
}

#[test]
fn mod_test_backfill_request_succeeds_when_leader_has_entries() {
    let mut delegate = RaftLeaderStateDelegate::new(&Anchor::new());
    delegate.initialized = true;
    let (mut shared_state, _persistence_rx) = create_shared_state();

    shared_state.server_state.current_term = 3;
    shared_state.server_state.leader_id = 0;

    shared_state.volatile_server_state.replication_log_term_starts.insert(2, 0);
    shared_state.volatile_server_state.replication_log_term_starts.insert(3, 6);

    for i in 0..10u64 {
        let term = if i < 6 { 2 } else { 3 };
        shared_state.volatile_server_state.replication_log.push(log_entry(i, term, 0, 0, i));
    }

    shared_state.quorum_worker_tasks = vec![vec![], vec![], vec![]];
    shared_state.quorum_response.push(backfill(1, 2, 3));

    let (result, _work_done) = delegate.time_step(&mut shared_state);
    assert!(matches!(result, RaftMessageStateChange::Unchanged));

    let queue = &mut shared_state.quorum_worker_tasks[0];
    assert_eq!(queue.len(), 1);
    match pop(queue).unwrap().task_type {
        LocalQuorumWorkerTaskType::BackfillLog { data } => {
            assert!(data.len() > 0);
            assert_eq!(data.len(), 6);
            assert_eq!(data[0].index, 4);
        }
        _ => panic!("Expected BackfillLog task"),
    }
}

#[test]
fn mod_test_truncate_log_response_handling() {
    let mut delegate = RaftLeaderStateDelegate::new(&Anchor::new());
    let (mut shared_state, _persistence_rx) = create_shared_state();

    shared_state.quorum_response.push(LocalQuorumResponse {
        response_type: LocalQuorumTaskResponseType::TruncateLogResponse { id: 123, ok: true },
    });

    let (result, _work_done) = delegate.time_step(&mut shared_state);
    assert!(matches!(result, RaftMessageStateChange::Unchanged));
}

#[test]
fn mod_test_write_batch_happy_path() {
    let mut delegate = RaftLeaderStateDelegate::new(&Anchor::new());
    let (mut shared_state, persistence_rx) = create_shared_state();

    let write_batch_request =
        LocalRaftWriteBatchRequest { requests: vec![put("put_1", "payload")] };

    shared_state.quorum_worker_tasks.push(vec![]);

    delegate.write_batch(write_batch_request, CALLBACK, &mut shared_state);

    assert_eq!(shared_state.volatile_server_state.replication_log.len(), 1);
    let entry = &shared_state.volatile_server_state.replication_log[0];
    assert_eq!(entry.index, 1);
    assert_eq!(entry.term, shared_state.server_state.current_term);
    assert_eq!(entry.requests.len(), 1);
    assert_eq!(entry.requests[0].id, "put_1");

    assert!(shared_state.outstanding_messages.contains_key(&(shared_state.next_message_id - 1)));
    assert!(persistence_rx.try_recv().is_ok());
    assert!(pop(&mut shared_state.quorum_worker_tasks[0]).is_some());
}

#[test]
fn mod_test_write_batch_empty_requests_failure() {
    let mut delegate = RaftLeaderStateDelegate::new(&Anchor::new());
    let (mut shared_state, _persistence_rx) = create_shared_state();

    shared_state.quorum_worker_tasks.push(vec![]);
    delegate.write_batch(
        LocalRaftWriteBatchRequest { requests: vec![] },
        CALLBACK,
        &mut shared_state,
    );

    assert_eq!(shared_state.volatile_server_state.replication_log.len(), 0);
    match answer(&mut shared_state).payload {
        LocalRaftResponsePayload::WriteBatch(r) => {
            assert_eq!(r.err.unwrap(), "Empty write batch request");
        }
        _ => panic!("Expected WriteBatch response"),
    }
}

#[test]
fn mod_test_time_step_initializes_leader_and_sends_heartbeats() {
    let mut delegate = RaftLeaderStateDelegate::new(&Anchor::new());
    let mut shared_state = create_shared_state_with_quorum();

    assert!(!delegate.initialized);

    let (result, _work_done) = delegate.time_step(&mut shared_state);

    assert!(delegate.initialized);

    for queue in shared_state.quorum_worker_tasks.iter_mut() {
        match pop(queue).unwrap().task_type {
            LocalQuorumWorkerTaskType::StartHeartbeats {
                id, term, prev_term, prev_log_index, ..
            } => {
                assert_eq!(id, 1);
                assert_eq!(term, 1);
                assert_eq!(prev_term, 1);
                assert_eq!(prev_log_index, 0);
            }
            _ => panic!("Expected StartHeartbeats task"),
        }
    }

    assert!(matches!(result, RaftMessageStateChange::Unchanged));
}

#[test]
fn mod_test_time_step_handles_log_persisted_and_quorum_ack_happy_path() {
    let mut delegate = RaftLeaderStateDelegate::new(&Anchor::new());
    let mut shared_state = create_shared_state_with_quorum();
    shared_state.volatile_server_state.replication_log.push(log_entry(0, 1, 0, 0, 0));
    shared_state.volatile_server_state.replication_log.push(log_entry(1, 1, 0, 0, 0));

    let msg_id = shared_state.next_message_id;
    let outstanding = OutstandingMessage {
        id: msg_id,
        outstanding_responses: 2,
        message_type: OutstandingMessageType::WriteBatch {
            persistence_done: false,
            quorum_acks: 1,
            callback: CALLBACK,
            index: 1,
            start_time: 0,
            batch_size: 0,
        },
    };
    shared_state.outstanding_messages.insert(msg_id, outstanding);

    shared_state.persistence_response.push(PersistenceResponseType::LogPersisted { id: msg_id });
    shared_state.quorum_response.push(acknowledged(msg_id));

    let (result, _work_done) = delegate.time_step(&mut shared_state);

    assert_eq!(shared_state.volatile_server_state.commit_index, 1);

    match answer(&mut shared_state).payload {
        LocalRaftResponsePayload::WriteBatch(r) => {
            assert!(r.err.is_none());
        }
        _ => panic!("Expected WriteBatch response"),
    }

    assert!(matches!(result, RaftMessageStateChange::Unchanged));
}

#[test]
fn leader_test_time_step_handles_log_persisted_and_quorum_ack_happy_path() {
    let mut delegate = RaftLeaderStateDelegate::new(&Anchor::new());
    let mut shared_state = create_shared_state_with_quorum();

    // Simulate an outstanding write batch message
    let msg_id = shared_state.next_message_id;
    shared_state.outstanding_messages.insert(
        msg_id,
        OutstandingMessage {
            id: msg_id,
            outstanding_responses: 2,
            message_type: OutstandingMessageType::WriteBatch {
                persistence_done: false,
                quorum_acks: 1,
                callback: CALLBACK,
                index: 42,
                start_time: 0,
                batch_size: 0,
            },
        },
    );

    shared_state.persistence_response.push(PersistenceResponseType::LogPersisted { id: msg_id });
    shared_state.quorum_response.push(acknowledged(msg_id));

    let (result, _work_done) = delegate.time_step(&mut shared_state);

    // Should have updated commit_index
    assert_eq!(shared_state.volatile_server_state.commit_index, 42);

    // Should have sent callback response
    match answer(&mut shared_state).payload {
        LocalRaftResponsePayload::WriteBatch(r) => {
            assert!(r.err.is_none());
        }
        _ => panic!("Expected WriteBatch response"),
    }

    // Should not change the role
    assert!(matches!(result, RaftMessageStateChange::Unchanged));
}

#[test]
fn leader_test_time_step_initializes_leader_and_sends_heartbeats() {
    let mut delegate = RaftLeaderStateDelegate::new(&Anchor::new());
    let mut shared_state = create_shared_state_with_quorum();

    // Initially not initialized
    assert!(!delegate.initialized);

    let (result, _work_done) = delegate.time_step(&mut shared_state);

    // Should be initialized now
    assert!(delegate.initialized);

    // Should have sent heartbeats to all quorum worker tasks
    for queue in shared_state.quorum_worker_tasks.iter_mut() {
        match pop(queue).unwrap().task_type {
            LocalQuorumWorkerTaskType::StartHeartbeats {
                id,
                term,
                prev_term,
                prev_log_index,
                commit_index: _,
            } => {
                assert_eq!(id, 1);
                assert_eq!(term, 1);
                assert_eq!(prev_term, 1);
                assert_eq!(prev_log_index, 0);
            }
            _ => panic!("Expected StartHeartbeats task"),
        }
    }
    assert!(matches!(result, RaftMessageStateChange::Unchanged));
}

#[test]
fn leader_test_time_step_handles_backfill_log_request() {
    let mut delegate = RaftLeaderStateDelegate::new(&Anchor::new());
    delegate.initialized = true;
    let mut shared_state = create_shared_state_with_quorum();

    shared_state.volatile_server_state.replication_log.push(log_entry(1, 1, 0, 0, 1));

    // A follower with an empty log asks for all of it
    shared_state.quorum_response.push(backfill(1, 0, 0));

    let (result, _work_done) = delegate.time_step(&mut shared_state);

    // Should have dispatched a BackfillLog task to the quorum worker
    match pop(&mut shared_state.quorum_worker_tasks[0]).unwrap().task_type {
        LocalQuorumWorkerTaskType::BackfillLog { data } => {
            assert_eq!(data.len(), 1);
            assert_eq!(data[0].index, 1);
            assert_eq!(data[0].term, 1);
            assert_eq!(data[0].requests.len(), 0);
            assert_eq!(data[0].message_id, 1);
            assert_eq!(data[0].prev_index, 0);
            assert_eq!(data[0].prev_term, 0);
        }
        _ => panic!("Expected BackfillLog task"),
    }
    assert!(matches!(result, RaftMessageStateChange::Unchanged));
}

#[test]
fn mod_test_time_step_handles_backfill_log_request() {
    let mut delegate = RaftLeaderStateDelegate::new(&Anchor::new());
    delegate.initialized = true;
    let mut shared_state = create_shared_state_with_quorum();

    shared_state.volatile_server_state.replication_log.push(log_entry(0, 1, 0, 0, 0));
    shared_state.volatile_server_state.replication_log.push(log_entry(1, 1, 0, 1, 1));
    shared_state.volatile_server_state.replication_log_term_starts.insert(1, 0);

    shared_state.quorum_response.push(backfill(1, 1, 0));

    let (result, _work_done) = delegate.time_step(&mut shared_state);

    match pop(&mut shared_state.quorum_worker_tasks[0]).unwrap().task_type {
        LocalQuorumWorkerTaskType::BackfillLog { data } => {
            assert_eq!(data.len(), 1);
            assert_eq!(data[0].index, 1);
            assert_eq!(data[0].term, 1);
        }
        _ => panic!("Expected BackfillLog task"),
    }

    assert!(matches!(result, RaftMessageStateChange::Unchanged));
}

#[test]
fn test_leader_initialization_does_not_advance_commit_index() {
    let mut delegate = RaftLeaderStateDelegate::new(&Anchor::new());
    let mut shared_state = create_shared_state_with_quorum();

    // Leader has log entries from previous terms
    shared_state.volatile_server_state.last_log_index = 5;
    shared_state.volatile_server_state.last_log_term = 2; // Previous term

    // commit_index is behind last_log_index (uncommitted entries exist)
    let initial_commit_index = 3;
    shared_state.volatile_server_state.commit_index = initial_commit_index;
    shared_state.volatile_server_state.commit_state.commit_index = initial_commit_index;

    // Current term is 3 (new leader election)
    shared_state.server_state.current_term = 3;

    for i in 0..=5u64 {
        let prev = if i > 0 { i - 1 } else { 0 };
        shared_state.volatile_server_state.replication_log.push(log_entry(i, 2, prev, 2, i));
    }

    // Initialize the leader (first time_step)
    let (_result, _work_done) = delegate.time_step(&mut shared_state);

    assert_eq!(shared_state.volatile_server_state.commit_index, initial_commit_index);
    assert_eq!(
        shared_state.volatile_server_state.commit_state.commit_index,
        initial_commit_index
    );
}

#[test]
fn test_leader_heartbeats_use_correct_commit_index() {
    let mut delegate = RaftLeaderStateDelegate::new(&Anchor::new());
    let mut shared_state = create_shared_state_with_quorum();

    // Set up state with uncommitted entries
    shared_state.volatile_server_state.last_log_index = 10;
    shared_state.volatile_server_state.commit_index = 5; // Only 5 are committed
    shared_state.server_state.current_term = 3;

    for i in 0..=10u64 {
        let prev = if i > 0 { i - 1 } else { 0 };
        shared_state.volatile_server_state.replication_log.push(log_entry(i, 2, prev, 2, i));
    }

    // Initialize leader
    let (_result, _work_done) = delegate.time_step(&mut shared_state);

    // Check heartbeat commit_index
    for queue in shared_state.quorum_worker_tasks.iter_mut() {
        match pop(queue).unwrap().task_type {
            LocalQuorumWorkerTaskType::StartHeartbeats { commit_index, .. } => {
                assert_eq!(commit_index, 5);
            }
            _ => panic!("Expected StartHeartbeats task"),
        }
    }
}

#[test]
fn test_leader_init_creates_noop_entry() {
    let mut delegate = RaftLeaderStateDelegate::new(&Anchor::new());
    let mut shared_state = create_shared_state_with_quorum();

    // Set up initial state
    shared_state.server_state.current_term = 3;
    shared_state.volatile_server_state.last_log_term = 2;
    shared_state.volatile_server_state.last_log_index = 5;
    shared_state.volatile_server_state.next_log_index = 6;
    shared_state.volatile_server_state.commit_index = 3;

    for i in 0..=5u64 {
        let prev = if i > 0 { i - 1 } else { 0 };
        shared_state.volatile_server_state.replication_log.push(log_entry(i, 2, prev, 2, i));
    }

    let initial_log_len = shared_state.volatile_server_state.replication_log.len();
    let initial_message_id = shared_state.next_message_id;

    // Initialize leader
    let (_result, _work_done) = delegate.time_step(&mut shared_state);

    // Verify no-op entry was created and appended
    assert_eq!(shared_state.volatile_server_state.replication_log.len(), initial_log_len + 1);

    // Get the no-op entry
    let noop_entry = shared_state.volatile_server_state.replication_log.last().unwrap();

    // Verify no-op entry properties
    assert_eq!(noop_entry.term, 3, "No-op entry should be in current term");
    assert_eq!(noop_entry.index, 6, "No-op entry should have correct index");
    assert_eq!(noop_entry.requests.len(), 0, "No-op entry should have zero commands");
    assert_eq!(noop_entry.prev_index, 5, "No-op entry should reference previous entry");
    assert_eq!(noop_entry.prev_term, 2, "No-op entry should reference previous term");

    // Verify volatile state was updated
    assert_eq!(shared_state.volatile_server_state.last_log_index, 6);
    assert_eq!(shared_state.volatile_server_state.last_log_term, 3);
    assert_eq!(shared_state.volatile_server_state.next_log_index, 7);

    // The no-op message ID should be initial_message_id + 1 (after heartbeat message)
    let noop_message_id = initial_message_id + 1;
    assert!(shared_state.outstanding_messages.contains_key(&noop_message_id));

    let outstanding = shared_state.outstanding_messages.get(&noop_message_id).unwrap();
    match &outstanding.message_type {
        OutstandingMessageType::NoOp { persistence_done, quorum_acks, index } => {
            assert!(!persistence_done);
            assert_eq!(*quorum_acks, 0);
            assert_eq!(*index, 6);
        }
        _ => panic!("Expected NoOp outstanding message type"),
    }

    // After StartHeartbeats, there should be an AppendEntries for the no-op
    for queue in shared_state.quorum_worker_tasks.iter_mut() {
        match pop(queue).unwrap().task_type {
            LocalQuorumWorkerTaskType::StartHeartbeats { .. } => {}
            _ => panic!("Expected StartHeartbeats task first"),
        }
        match pop(queue).unwrap().task_type {
            LocalQuorumWorkerTaskType::AppendEntries { id, entry, .. } => {
                assert_eq!(id, noop_message_id);
                assert_eq!(entry.requests.len(), 0, "AppendEntries should contain no-op entry");
            }
            _ => panic!("Expected AppendEntries task for no-op"),
        }
    }
}

fn add_write_batch_outstanding_message(
    shared_state: &mut SharedState,
    id: u64,
    index: u64,
    persistence_done: bool,
    quorum_acks: u32,
) {
    let msg = OutstandingMessage {
        id,
        outstanding_responses: 3,
        message_type: OutstandingMessageType::WriteBatch {
            persistence_done,
            quorum_acks,
            callback: CALLBACK,
            index,
            start_time: 0,
            batch_size: 10,
        },
    };
    shared_state.outstanding_messages.insert(id, msg);
}

fn add_noop_outstanding_message(
    shared_state: &mut SharedState,
    id: u64,
    index: u64,
    persistence_done: bool,
    quorum_acks: u32,
) {
    let msg = OutstandingMessage {
        id,
        outstanding_responses: 3,
        message_type: OutstandingMessageType::NoOp { persistence_done, quorum_acks, index },
    };
    shared_state.outstanding_messages.insert(id, msg);
}

#[test]
fn test_process_persistence_responses_log_persisted() {
    let (mut shared_state, _persistence_rx) = create_test_shared_state();
    add_write_batch_outstanding_message(&mut shared_state, 42, 10, false, 2);
    shared_state.persistence_response.push(PersistenceResponseType::LogPersisted { id: 42 });

    // Process responses - should complete since quorum_acks >= quorum_size
    process_persistence_responses(&mut shared_state);

    // Outstanding message should be removed (completed)
    assert!(!shared_state.outstanding_messages.contains_key(&42));

    // Callback should have been triggered
    answer(&mut shared_state);
}

#[test]
fn test_process_persistence_responses_waiting_for_quorum() {
    let (mut shared_state, _persistence_rx) = create_test_shared_state();
    add_write_batch_outstanding_message(&mut shared_state, 42, 10, false, 0);
    shared_state.persistence_response.push(PersistenceResponseType::LogPersisted { id: 42 });

    // Process responses - should NOT complete since quorum_acks < quorum_size
    process_persistence_responses(&mut shared_state);

    // Outstanding message should still exist with persistence_done = true
    assert!(shared_state.outstanding_messages.contains_key(&42));

    let msg = shared_state.outstanding_messages.get(&42).unwrap();
    match &msg.message_type {
        OutstandingMessageType::WriteBatch { persistence_done, .. } => {
            assert!(*persistence_done);
        }
        _ => panic!("Expected WriteBatch"),
    }
    assert!(shared_state.responses.is_empty());
}

#[test]
fn test_process_persistence_responses_vote_persisted() {
    let (mut shared_state, _persistence_rx) = create_test_shared_state();
    shared_state.outstanding_messages.insert(
        42,
        OutstandingMessage {
            id: 42,
            outstanding_responses: 1,
            message_type: OutstandingMessageType::RequestVote { callback: CALLBACK },
        },
    );
    shared_state.persistence_response.push(PersistenceResponseType::VotePersisted {
        id: 42,
        term: 2,
        candidate_id: 1,
    });

    process_persistence_responses(&mut shared_state);

    // Outstanding message should be removed
    assert!(!shared_state.outstanding_messages.contains_key(&42));

    // Callback should have received vote granted
    match answer(&mut shared_state).payload {
        LocalRaftResponsePayload::RequestVote(granted) => {
            assert!(granted);
        }
        _ => panic!("Expected RequestVote response"),
    }
}

#[test]
fn test_process_quorum_responses_append_entries() {
    let (mut shared_state, _persistence_rx) = create_test_shared_state();
    add_write_batch_outstanding_message(&mut shared_state, 42, 10, true, 1);
    shared_state.quorum_response.push(acknowledged(42));

    // Process responses - should complete (persistence_done=true, quorum_acks will be 2)
    let (backfill_requests, _) = process_quorum_responses(&mut shared_state);

    // No backfill requests
    assert!(backfill_requests.is_empty());

    // Outstanding message should be removed (completed)
    assert!(!shared_state.outstanding_messages.contains_key(&42));

    // Callback should have been triggered
    answer(&mut shared_state);
}

#[test]
fn test_process_quorum_responses_waiting_for_persistence() {
    let (mut shared_state, _persistence_rx) = create_test_shared_state();
    add_write_batch_outstanding_message(&mut shared_state, 42, 10, false, 1);
    shared_state.quorum_response.push(acknowledged(42));

    // Process responses - should NOT complete since persistence_done = false
    let (backfill_requests, _) = process_quorum_responses(&mut shared_state);

    assert!(backfill_requests.is_empty());

    // Outstanding message should still exist with updated quorum_acks
    assert!(shared_state.outstanding_messages.contains_key(&42));

    let msg = shared_state.outstanding_messages.get(&42).unwrap();
    match &msg.message_type {
        OutstandingMessageType::WriteBatch { quorum_acks, .. } => {
            assert_eq!(*quorum_acks, 2);
        }
        _ => panic!("Expected WriteBatch"),
    }
}

#[test]
fn test_process_quorum_responses_backfill_log() {
    let (mut shared_state, _persistence_rx) = create_test_shared_state();
    shared_state.quorum_response.push(backfill(2, 1, 3));

    let (backfill_requests, _) = process_quorum_responses(&mut shared_state);

    // Should have one backfill request
    assert_eq!(backfill_requests.len(), 1);
    assert_eq!(backfill_requests[0], (2, 1, 3));
}

#[test]
fn test_process_quorum_responses_multiple_backfill_requests() {
    let (mut shared_state, _persistence_rx) = create_test_shared_state();
    shared_state.quorum_response.push(backfill(2, 1, 3));
    shared_state.quorum_response.push(backfill(3, 1, 5));

    let (backfill_requests, _) = process_quorum_responses(&mut shared_state);

    assert_eq!(backfill_requests.len(), 2);
}

#[test]
fn test_process_persistence_responses_no_outstanding_message() {
    let (mut shared_state, _persistence_rx) = create_test_shared_state();
    shared_state.persistence_response.push(PersistenceResponseType::LogPersisted { id: 999 });

    // Should not panic
    process_persistence_responses(&mut shared_state);
}

#[test]
fn test_commit_index_updated_on_completion() {
    let (mut shared_state, _persistence_rx) = create_test_shared_state();
    let initial_commit = shared_state.volatile_server_state.commit_index;

    // Add write batch with index higher than commit
    add_write_batch_outstanding_message(&mut shared_state, 42, 10, true, 2);
    shared_state.persistence_response.push(PersistenceResponseType::LogPersisted { id: 42 });

    process_persistence_responses(&mut shared_state);

    // Commit index should be updated to the write batch index
    assert_eq!(shared_state.volatile_server_state.commit_index, 10);
    assert!(shared_state.volatile_server_state.commit_index > initial_commit);
}

#[test]
fn test_update_commit_index_dispatched_to_quorum_workers() {
    let (mut shared_state, _persistence_rx) = create_test_shared_state();

    // Add write batch with index higher than current commit (3)
    add_write_batch_outstanding_message(&mut shared_state, 42, 10, true, 2);

    // Verify quorum worker task queues exist
    assert_eq!(shared_state.quorum_worker_tasks.len(), 2);

    shared_state.persistence_response.push(PersistenceResponseType::LogPersisted { id: 42 });
    process_persistence_responses(&mut shared_state);

    // Verify UpdateCommitIndex was dispatched to both quorum workers
    for queue in shared_state.quorum_worker_tasks.iter_mut() {
        match pop(queue).expect("Expected UpdateCommitIndex task").task_type {
            LocalQuorumWorkerTaskType::UpdateCommitIndex { commit_index } => {
                assert_eq!(commit_index, 10);
            }
            _ => panic!("Expected UpdateCommitIndex task"),
        }
    }
}

#[test]
fn test_no_update_commit_index_when_index_not_advanced() {
    let (mut shared_state, _persistence_rx) = create_test_shared_state();
    // Set commit_index to 10 already
    shared_state.volatile_server_state.commit_index = 10;

    // Add write batch with index equal to current commit (should not dispatch update)
    add_write_batch_outstanding_message(&mut shared_state, 42, 10, true, 2);
    shared_state.persistence_response.push(PersistenceResponseType::LogPersisted { id: 42 });
    process_persistence_responses(&mut shared_state);

    // Verify no UpdateCommitIndex was dispatched (since commit_index didn't advance)
    for queue in shared_state.quorum_worker_tasks.iter_mut() {
        assert!(pop(queue).is_none());
    }
}

#[test]
fn test_noop_completion_advances_commit_index() {
    let (mut shared_state, _persistence_rx) = create_test_shared_state();
    let initial_commit = shared_state.volatile_server_state.commit_index;

    // Add no-op with index higher than commit, persistence done, enough quorum acks
    add_noop_outstanding_message(&mut shared_state, 42, 10, true, 2);
    shared_state.persistence_response.push(PersistenceResponseType::LogPersisted { id: 42 });
    process_persistence_responses(&mut shared_state);

    // Commit index should be updated to the no-op index
    assert_eq!(shared_state.volatile_server_state.commit_index, 10);
    assert!(shared_state.volatile_server_state.commit_index > initial_commit);

    // Outstanding message should be removed
    assert!(!shared_state.outstanding_messages.contains_key(&42));
}

#[test]
fn test_noop_waits_for_quorum_after_persistence() {
    let (mut shared_state, _persistence_rx) = create_test_shared_state();

    // Add no-op with insufficient quorum acks
    add_noop_outstanding_message(&mut shared_state, 42, 10, false, 0);
    shared_state.persistence_response.push(PersistenceResponseType::LogPersisted { id: 42 });
    process_persistence_responses(&mut shared_state);

    // Should still be waiting (commit_index unchanged)
    assert_eq!(shared_state.volatile_server_state.commit_index, 3);

    // Outstanding message should still exist with persistence_done = true
    assert!(shared_state.outstanding_messages.contains_key(&42));

    let msg = shared_state.outstanding_messages.get(&42).unwrap();
    match &msg.message_type {
        OutstandingMessageType::NoOp { persistence_done, .. } => {
            assert!(*persistence_done);
        }
        _ => panic!("Expected NoOp"),
    }
}

#[test]
fn test_noop_quorum_ack_advances_commit_when_persisted() {
    let (mut shared_state, _persistence_rx) = create_test_shared_state();
    let initial_commit = shared_state.volatile_server_state.commit_index;

    // Add no-op with persistence done, but one quorum ack away
    add_noop_outstanding_message(&mut shared_state, 42, 10, true, 1);

    // Add quorum response (quorum_size is 2, so this should complete)
    shared_state.quorum_response.push(acknowledged(42));

    let (backfill_requests, _) = process_quorum_responses(&mut shared_state);

    assert!(backfill_requests.is_empty());

    // Commit index should be updated to the no-op index
    assert_eq!(shared_state.volatile_server_state.commit_index, 10);
    assert!(shared_state.volatile_server_state.commit_index > initial_commit);

    // Outstanding message should be removed
    assert!(!shared_state.outstanding_messages.contains_key(&42));
}

#[test]
fn test_noop_update_commit_index_dispatched_to_quorum_workers() {
    let (mut shared_state, _persistence_rx) = create_test_shared_state();

    // Add no-op with index higher than current commit (3)
    add_noop_outstanding_message(&mut shared_state, 42, 10, true, 2);

    // Verify quorum worker task queues exist
    assert_eq!(shared_state.quorum_worker_tasks.len(), 2);

    shared_state.persistence_response.push(PersistenceResponseType::LogPersisted { id: 42 });
    process_persistence_responses(&mut shared_state);

    // Verify UpdateCommitIndex was dispatched to both quorum workers
    for queue in shared_state.quorum_worker_tasks.iter_mut() {
        match pop(queue).expect("Expected UpdateCommitIndex task").task_type {
            LocalQuorumWorkerTaskType::UpdateCommitIndex { commit_index } => {
                assert_eq!(commit_index, 10);
            }
            _ => panic!("Expected UpdateCommitIndex task"),
        }
    }
}

#[test]
fn test_clone_subset_full_range() {
    let data: Vec<Arc<u32>> = vec![Arc::new(1), Arc::new(2), Arc::new(3), Arc::new(4)];
    let result = clone_subset(&data, 0, 4);

    assert_eq!(result.len(), 4);
    assert_eq!(*result[0], 1);
    assert_eq!(*result[3], 4);
}

#[test]
fn test_clone_subset_partial_range() {
    let data: Vec<Arc<u32>> = vec![Arc::new(1), Arc::new(2), Arc::new(3), Arc::new(4)];
    let result = clone_subset(&data, 1, 3);

    assert_eq!(result.len(), 2);
    assert_eq!(*result[0], 2);
    assert_eq!(*result[1], 3);
}

#[test]
fn test_clone_subset_empty_range() {
    let data: Vec<Arc<u32>> = vec![Arc::new(1), Arc::new(2), Arc::new(3)];
    let result = clone_subset(&data, 2, 2);

    assert_eq!(result.len(), 0);
}

#[test]
fn test_get_quorum_worker_index_zero_node() {
    assert_eq!(get_quorum_worker_index(0, 1), 0);
}

#[test]
fn test_get_quorum_worker_index_node_greater_than_identity() {
    // Node 3, Identity 1 -> index should be 3 - 2 = 1
    assert_eq!(get_quorum_worker_index(3, 1), 1);

    // Node 2, Identity 1 -> index should be 2 - 2 = 0
    assert_eq!(get_quorum_worker_index(2, 1), 0);
}

#[test]
fn test_get_quorum_worker_index_node_less_than_identity() {
    // Node 1, Identity 2 -> index should be 1 - 1 = 0
    assert_eq!(get_quorum_worker_index(1, 2), 0);

    // Node 1, Identity 3 -> index should be 1 - 1 = 0
    assert_eq!(get_quorum_worker_index(1, 3), 0);
}

fn create_test_shared_state_with_log(log: Vec<Arc<SerializationData>>) -> SharedState {
    let (mut shared_state, _persistence_rx) = create_test_shared_state();
    let last_log_index = if log.is_empty() { 0 } else { log.len() as u64 - 1 };
    shared_state.volatile_server_state.last_log_term = log.last().map(|e| e.term).unwrap_or(0);
    shared_state.volatile_server_state.last_log_index = last_log_index;
    shared_state.volatile_server_state.commit_index = 0;
    shared_state.volatile_server_state.next_log_index = last_log_index + 1;
    shared_state.volatile_server_state.commit_state.commit_index = 0;
    shared_state.volatile_server_state.replication_log = log;
    shared_state.next_message_id = 1;
    shared_state
}

fn create_log_entry(index: u64, term: u64) -> Arc<SerializationData> {
    let prev_index = if index > 0 { index - 1 } else { 0 };
    log_entry(index, term, prev_index, term, index)
}

#[test]
fn test_send_truncate_signal_queues_task() {
    let log_entries = vec![create_log_entry(0, 1), create_log_entry(1, 1), create_log_entry(2, 2)];
    let mut shared_state = create_test_shared_state_with_log(log_entries);

    // Node 2 with identity 1 -> quorum worker index 0
    send_truncate_signal(&mut shared_state, 2, 1, 1);

    // Check that a truncate task was queued
    match pop(&mut shared_state.quorum_worker_tasks[0]).unwrap().task_type {
        LocalQuorumWorkerTaskType::TruncateLog { prev_term, prev_index, .. } => {
            assert_eq!(prev_term, 1);
            assert_eq!(prev_index, 1);
        }
        _ => panic!("Expected TruncateLog task"),
    }
}

#[test]
fn test_handle_backfill_request_sends_backfill_data() {
    let log_entries = vec![
        create_log_entry(0, 1),
        create_log_entry(1, 1),
        create_log_entry(2, 2),
        create_log_entry(3, 2),
    ];
    let mut shared_state = create_test_shared_state_with_log(log_entries);

    // Request backfill from index 1 (should send entries 2, 3)
    handle_backfill_request(&mut shared_state, 2, 1, 1);

    // Check that a backfill task was queued
    match pop(&mut shared_state.quorum_worker_tasks[0]).unwrap().task_type {
        LocalQuorumWorkerTaskType::BackfillLog { data } => {
            assert_eq!(data.len(), 2);
            assert_eq!(data[0].index, 2);
            assert_eq!(data[1].index, 3);
        }
        _ => panic!("Expected BackfillLog task"),
    }
}

#[test]
fn test_handle_backfill_request_empty_log_sends_truncate() {
    let log_entries = vec![create_log_entry(0, 1), create_log_entry(1, 1)];
    let mut shared_state = create_test_shared_state_with_log(log_entries);

    // Request with index beyond log - should trigger truncate
    handle_backfill_request(&mut shared_state, 2, 1, 10);

    match pop(&mut shared_state.quorum_worker_tasks[0]).unwrap().task_type {
        LocalQuorumWorkerTaskType::TruncateLog { prev_index, .. } => {
            assert_eq!(prev_index, 1); // Our last index
        }
        _ => panic!("Expected TruncateLog task"),
    }
}

#[test]
fn test_handle_backfill_request_term_mismatch_sends_truncate() {
    let log_entries = vec![create_log_entry(0, 1), create_log_entry(1, 1), create_log_entry(2, 2)];
    let mut shared_state = create_test_shared_state_with_log(log_entries);

    // Request with wrong term at index 2 (entry has term 2, request says term 3)
    handle_backfill_request(&mut shared_state, 2, 3, 2);

    match pop(&mut shared_state.quorum_worker_tasks[0]).unwrap().task_type {
        LocalQuorumWorkerTaskType::TruncateLog { .. } => {
            // Expected truncate due to term mismatch
        }
        _ => panic!("Expected TruncateLog task due to term mismatch"),
    }
}

#[test]
fn test_handle_backfill_request_from_empty_follower() {
    let log_entries = vec![create_log_entry(0, 1), create_log_entry(1, 1), create_log_entry(2, 2)];
    let mut shared_state = create_test_shared_state_with_log(log_entries);

    // Follower has empty log (term 0)
    handle_backfill_request(&mut shared_state, 2, 0, 0);

    match pop(&mut shared_state.quorum_worker_tasks[0]).unwrap().task_type {
        LocalQuorumWorkerTaskType::BackfillLog { data } => {
            // Should send all entries
            assert_eq!(data.len(), 3);
        }
        _ => panic!("Expected BackfillLog task"),
    }
}

fn create_write_batch_state() -> (SharedState, Receiver<PersistenceTaskType>) {
    let (mut shared_state, persistence_rx) = create_test_shared_state();
    shared_state.volatile_server_state.last_log_term = 1;
    (shared_state, persistence_rx)
}

fn create_write_batch_request_with_data() -> LocalRaftWriteBatchRequest {
    LocalRaftWriteBatchRequest { requests: vec![put("req1", "payload1"), put("req2", "payload2")] }
}

#[test]
fn test_validate_write_batch_valid_request() {
    let request = create_write_batch_request_with_data();
    let result = validate_write_batch(&request);
    assert!(result.is_none());
}

#[test]
fn test_validate_write_batch_empty_request() {
    let request = LocalRaftWriteBatchRequest { requests: vec![] };
    let result = validate_write_batch(&request);
    assert!(result.is_some());
    assert_eq!(result.unwrap(), "Empty write batch request");
}

#[test]
fn test_create_serialization_data_populates_fields_correctly() {
    let (shared_state, _persistence_rx) = create_write_batch_state();
    let request = create_write_batch_request_with_data();

    let data = create_serialization_data(&request, 10, 200, &shared_state);

    assert_eq!(data.index, 10);
    assert_eq!(data.term, 2); // current_term
    assert_eq!(data.prev_index, 5); // last_log_index
    assert_eq!(data.prev_term, 1); // last_log_term
    assert_eq!(data.message_id, 200);
    assert_eq!(data.requests.len(), 2);
    assert_eq!(data.requests[0].id, "req1");
    assert_eq!(data.requests[1].id, "req2");
}

#[test]
fn test_serialize_and_append_to_log_adds_to_replication_log() {
    let (mut shared_state, _persistence_rx) = create_write_batch_state();

    let serialization_data = SerializationData {
        index: 6,
        term: 2,
        timestamp: 12345,
        prev_index: 5,
        prev_term: 1, // Different from term, so first entry of new term
        message_id: 100,
        requests: vec![],
    };

    let initial_log_len = shared_state.volatile_server_state.replication_log.len();

    let (arc_data, serialized) = serialize_and_append_to_log(serialization_data, &mut shared_state);

    // Log should have grown
    assert_eq!(shared_state.volatile_server_state.replication_log.len(), initial_log_len + 1);

    // Arc data should match
    assert_eq!(arc_data.index, 6);
    assert_eq!(arc_data.term, 2);

    // Serialized data should not be empty
    assert!(!serialized.is_empty());

    // Term start should be recorded since prev_term != term
    assert!(shared_state.volatile_server_state.replication_log_term_starts.contains_key(&2));
}

#[test]
fn test_queue_persistence_task_adds_to_queue() {
    let (mut shared_state, persistence_rx) = create_write_batch_state();
    let data = Arc::new(vec![1, 2, 3, 4, 5]);

    queue_persistence_task(42, data, &mut shared_state);

    // Should have one task in the persistence queue
    match persistence_rx.try_recv().unwrap() {
        PersistenceTaskType::AppendLog { id, data, .. } => {
            assert_eq!(id, 42);
            assert_eq!(data.len(), 5);
        }
        _ => panic!("Expected AppendLog task"),
    }
}

#[test]
fn test_dispatch_to_quorum_sends_to_all_workers() {
    let (mut shared_state, _persistence_rx) = create_write_batch_state();

    let owned_entry = log_entry(10, 2, 9, 2, 100);
    dispatch_to_quorum(100, owned_entry, &mut shared_state);

    // Both quorum workers should have received a task
    for queue in shared_state.quorum_worker_tasks.iter_mut() {
        match pop(queue).unwrap().task_type {
            LocalQuorumWorkerTaskType::AppendEntries { id, commit_index, .. } => {
                assert_eq!(id, 100);
                assert_eq!(commit_index, 3);
            }
            _ => panic!("Expected AppendEntries task"),
        }
    }
}

#[test]
fn test_register_outstanding_message_adds_to_map() {
    let (mut shared_state, _persistence_rx) = create_write_batch_state();

    register_outstanding_message(42, 10, 5, CALLBACK, 0, &mut shared_state);

    assert!(shared_state.outstanding_messages.contains_key(&42));

    let msg = shared_state.outstanding_messages.get(&42).unwrap();
    assert_eq!(msg.id, 42);
    // outstanding_responses = 1 (persistence) + 2 (quorum workers) = 3
    assert_eq!(msg.outstanding_responses, 3);
}

#[test]
fn test_update_volatile_state_updates_indices() {
    let (mut shared_state, _persistence_rx) = create_write_batch_state();

    update_volatile_state(10, &mut shared_state);

    assert_eq!(shared_state.volatile_server_state.last_log_index, 10);
    assert_eq!(shared_state.volatile_server_state.next_log_index, 11);
    assert_eq!(shared_state.volatile_server_state.last_log_term, 2); // current_term
}

#[test]
fn test_send_error_response_sends_error() {
    let (mut shared_state, _persistence_rx) = create_write_batch_state();

    send_error_response("Test error message", CALLBACK, &mut shared_state);

    match answer(&mut shared_state).payload {
        LocalRaftResponsePayload::WriteBatch(r) => {
            assert!(r.err.is_some());
            assert_eq!(r.err.unwrap(), "Test error message");
        }
        _ => panic!("Expected WriteBatch response"),
    }
}

#[test]
fn entry_travels_with_its_bytes() {
    let entry = log_entry(4, 2, 3, 1, 9);
    let wire = build_log_entry(&entry);
    assert_eq!((wire.index, wire.term, wire.prev_log_index, wire.prev_log_term), (4, 2, 3, 1));
    assert_eq!(wire.message_id, 9);
    assert_eq!(wire.data, entry.as_bytes());
}

#[test]
fn committed_entries_reach_every_reader_in_order() {
    let (mut shared_state, _persistence_rx) = create_test_shared_state();
    let mut reader = shared_state.log_entry_bus.add_rx();
    shared_state.volatile_server_state.replication_log =
        (0..5).map(|i| create_log_entry(i, 1)).collect();
    shared_state.broadcast_committed_entries(2);
    assert_eq!(shared_state.volatile_server_state.last_broadcast_index, Some(2));
    shared_state.broadcast_committed_entries(4);
    let seen: Vec<u64> = (0..5).map(|_| reader.try_recv().unwrap().index).collect();
    assert_eq!(seen, vec![0, 1, 2, 3, 4]);
    assert!(reader.try_recv().is_err());
}

#[test]
fn full_bus_defers_the_broadcast() {
    let (mut shared_state, _persistence_rx) = create_test_shared_state();
    shared_state.log_entry_bus = Bus::new(2);
    let mut reader = shared_state.log_entry_bus.add_rx();
    shared_state.volatile_server_state.replication_log =
        (0..5).map(|i| create_log_entry(i, 1)).collect();
    shared_state.volatile_server_state.commit_index = 4;
    let version = shared_state.volatile_server_state.commit_state.version;
    shared_state.broadcast_committed_entries(4);
    // Found full, nine pauses, and the end
    assert_eq!(shared_state.volatile_server_state.commit_state.version, version + 11);
    assert!(shared_state.volatile_server_state.has_deferred_broadcast);
    assert_eq!(shared_state.volatile_server_state.last_broadcast_index, Some(1));
    let mut seen = vec![];
    for _ in 0..10 {
        while let Ok(entry) = reader.try_recv() {
            seen.push(entry.index);
        }
        shared_state.retry_deferred_broadcast();
    }
    assert_eq!(seen, vec![0, 1, 2, 3, 4]);
    assert!(!shared_state.volatile_server_state.has_deferred_broadcast);
}

#[test]
fn readers_are_told_once_when_the_bus_takes_everything() {
    let (mut shared_state, _persistence_rx) = create_test_shared_state();
    shared_state.log_entry_bus = Bus::new(10);
    shared_state.volatile_server_state.last_broadcast_index = None;
    shared_state.volatile_server_state.replication_log =
        (0..3).map(|i| create_log_entry(i, 1)).collect();
    let version = shared_state.volatile_server_state.commit_state.version;
    shared_state.broadcast_committed_entries(2);
    assert_eq!(shared_state.volatile_server_state.commit_state.version, version + 1);
    assert_eq!(shared_state.volatile_server_state.last_broadcast_index, Some(2));
    shared_state.broadcast_committed_entries(2);
    assert_eq!(shared_state.volatile_server_state.commit_state.version, version + 1);
}

#[test]
fn leader_refuses_a_second_vote_in_a_term() {
    let mut delegate = RaftLeaderStateDelegate::new(&Anchor::new());
    let (mut shared_state, persistence_rx) = create_shared_state();
    let term = shared_state.server_state.current_term + 1;
    let request = |candidate_id: u32| LocalRequestVoteRequest {
        term,
        candidate_id,
        last_log_term: 9,
        last_log_index: 9,
    };
    delegate.request_vote(request(2), CALLBACK, &mut shared_state);
    assert_eq!(persistence_rx.try_iter().count(), 1);
    assert!(shared_state.responses.is_empty());
    for candidate_id in [2, 3] {
        let result = delegate.request_vote(request(candidate_id), CALLBACK, &mut shared_state);
        assert!(matches!(result, RaftMessageStateChange::Unchanged));
        match answer(&mut shared_state).payload {
            LocalRaftResponsePayload::RequestVote(false) => {}
            _ => panic!("Unexpected response"),
        }
        assert_eq!(persistence_rx.try_iter().count(), 0);
        assert_eq!(shared_state.outstanding_messages.len(), 1);
        assert_eq!(shared_state.term_votes.get(&term), Some(&2));
    }
}
