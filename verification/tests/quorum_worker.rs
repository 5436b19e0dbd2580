use std::sync::Arc;

use crossbeam_channel::{unbounded, Receiver};
use kraft_lib::quorum::messages::{RemotePutResponse, RemoteQuorumMessage};
use kraft_lib::quorum::quorum_worker::connection::{pause_after, ConnectionNeed};
use kraft_lib::quorum::quorum_worker::outbound::{
    send_heartbeat_if_needed, send_heartbeat_if_needed_at, HEARTBEAT_INTERVAL_MS,
};
use kraft_lib::quorum::quorum_worker::pending::CallbackPoll;
use kraft_lib::quorum::quorum_worker::{
    CapnpQuorumWorker, OngoingBackfill, PendingQuorumTaskEnum, QuorumWorker,
};
use kraft_lib::quorum::types::{
    LocalQuorumTaskResponseType, LocalQuorumWorkerTask, LocalQuorumWorkerTaskType, WriteBatch,
};
use kraft_lib::raft::raft_sm::{
    Callback, LocalAppendEntriesCallbackResponse, LocalRaftMessagePayload,
    LocalRaftResponseMessage, LocalRaftResponsePayload, LocalRaftWriteBatchResponse, LogEntry,
};
use kraft_lib::service_utils::app_time::now_millis;
use kraft_lib::service_utils::storage_utils::{RemotePutRequest, SerializationData};
use minstant::Anchor;

fn create_test_worker() -> QuorumWorker {
    QuorumWorker::new(1, 1, 2, "localhost:5001".to_string(), 0, 2048)
}

fn connect(worker: &mut QuorumWorker) -> Receiver<RemoteQuorumMessage> {
    let (tx, rx) = unbounded();
    worker.outbound_tx = Some(tx);
    rx
}

fn task(task_type: LocalQuorumWorkerTaskType) -> LocalQuorumWorkerTask {
    LocalQuorumWorkerTask { task_type }
}

fn entry(index: u64, term: u64) -> Arc<SerializationData> {
    Arc::new(SerializationData {
        index,
        term,
        timestamp: 0,
        prev_index: index - 1,
        prev_term: term,
        message_id: index,
        requests: vec![],
    })
}

#[test]
fn test_send_heartbeat_when_last_heartbeat_is_zero() {
    let anchor = Anchor::new();
    // When last_heartbeat is 0, heartbeat should be sent immediately
    let (tx, rx) = unbounded();
    let mut outbound_tx = Some(tx);
    let mut last_heartbeat: u128 = 0;

    send_heartbeat_if_needed(
        true, // send_heartbeats enabled
        &mut last_heartbeat,
        1, // term
        1, // self_id
        0, // prev_log_index
        0, // prev_log_term
        5, // commit_index
        &mut outbound_tx,
        2, // member_id
        &anchor,
    );

    // Heartbeat should have been sent
    assert!(rx.try_recv().is_ok(), "Expected heartbeat to be sent when last_heartbeat is 0");
    // last_heartbeat should be updated to current time
    assert!(last_heartbeat > 0, "Expected last_heartbeat to be updated");
}

#[test]
fn test_no_heartbeat_when_recently_sent() {
    let anchor = Anchor::new();
    // When heartbeat was recently sent, no new heartbeat should be sent
    let (tx, rx) = unbounded();
    let mut outbound_tx = Some(tx);
    let mut last_heartbeat = now_millis(&anchor); // Just sent

    send_heartbeat_if_needed(true, &mut last_heartbeat, 1, 1, 0, 0, 5, &mut outbound_tx, 2, &anchor);

    // No heartbeat should have been sent
    assert!(rx.try_recv().is_err(), "Expected no heartbeat when recently sent");
}

#[test]
fn test_no_heartbeat_when_disabled() {
    let anchor = Anchor::new();
    // When send_heartbeats is false, no heartbeat should be sent
    let (tx, rx) = unbounded();
    let mut outbound_tx = Some(tx);
    let mut last_heartbeat: u128 = 0;

    send_heartbeat_if_needed(false, &mut last_heartbeat, 1, 1, 0, 0, 5, &mut outbound_tx, 2, &anchor);

    // No heartbeat should have been sent
    assert!(rx.try_recv().is_err(), "Expected no heartbeat when disabled");
    // last_heartbeat should remain unchanged
    assert_eq!(last_heartbeat, 0);
}

#[test]
fn test_heartbeat_after_interval_elapsed() {
    let anchor = Anchor::new();
    // When HEARTBEAT_INTERVAL_MS has elapsed, heartbeat should be sent
    let (tx, rx) = unbounded();
    let mut outbound_tx = Some(tx);
    // Set last_heartbeat to well in the past
    let mut last_heartbeat = now_millis(&anchor).saturating_sub(HEARTBEAT_INTERVAL_MS + 10);

    send_heartbeat_if_needed(true, &mut last_heartbeat, 1, 1, 0, 0, 5, &mut outbound_tx, 2, &anchor);

    // Heartbeat should have been sent
    assert!(rx.try_recv().is_ok(), "Expected heartbeat to be sent after interval elapsed");
}

#[test]
fn test_resetting_last_heartbeat_forces_immediate_send() {
    let anchor = Anchor::new();
    let (tx, rx) = unbounded();
    let mut outbound_tx = Some(tx);
    let mut last_heartbeat: u128 = 0;

    // First heartbeat
    send_heartbeat_if_needed(true, &mut last_heartbeat, 1, 1, 0, 0, 5, &mut outbound_tx, 2, &anchor);
    assert!(rx.try_recv().is_ok(), "First heartbeat should be sent");

    // Verify no immediate second heartbeat
    send_heartbeat_if_needed(true, &mut last_heartbeat, 1, 1, 0, 0, 5, &mut outbound_tx, 2, &anchor);
    assert!(rx.try_recv().is_err(), "Second heartbeat should not be sent immediately");

    // Reset last_heartbeat to 0 (simulating UpdateCommitIndex)
    last_heartbeat = 0;

    // Now heartbeat should be sent immediately with updated commit_index
    send_heartbeat_if_needed(true, &mut last_heartbeat, 1, 1, 0, 0, 10, &mut outbound_tx, 2, &anchor);
    assert!(rx.try_recv().is_ok(), "Heartbeat should be sent after last_heartbeat reset");
}

#[test]
fn heartbeat_is_due_from_the_interval_on() {
    let mut outbound_tx = None;
    let mut last_heartbeat: u128 = 1000;
    assert!(!send_heartbeat_if_needed_at(
        true, &mut last_heartbeat, 1, 1, 0, 0, 5, &mut outbound_tx, 2, 1099
    ));
    assert_eq!(last_heartbeat, 1000);
    assert!(send_heartbeat_if_needed_at(
        true, &mut last_heartbeat, 1, 1, 0, 0, 5, &mut outbound_tx, 2, 1100
    ));
    assert_eq!(last_heartbeat, 1100);
}

#[test]
fn test_process_work_queue_start_heartbeats() {
    let mut worker = create_test_worker();
    let _rx = connect(&mut worker);

    worker.work_queue.push(task(LocalQuorumWorkerTaskType::StartHeartbeats {
        id: 1,
        term: 5,
        prev_term: 4,
        prev_log_index: 10,
        commit_index: 7,
    }));
    let send_error = worker.process_work_queue(50);

    assert!(!send_error, "Should not have send error for StartHeartbeats");
    assert!(worker.send_heartbeats, "send_heartbeats should be true");
    assert_eq!(worker.term, 5);
    assert_eq!(worker.prev_log_term, 4);
    assert_eq!(worker.prev_log_index, 10);
    assert_eq!(worker.commit_index, 7);
}

#[test]
fn test_process_work_queue_stop_heartbeats() {
    let mut worker = create_test_worker();
    let _rx = connect(&mut worker);

    // First enable heartbeats
    worker.send_heartbeats = true;
    worker.work_queue.push(task(LocalQuorumWorkerTaskType::StopHeartbeats { id: 1 }));
    worker.process_work_queue(50);

    assert!(!worker.send_heartbeats, "send_heartbeats should be false");
}

#[test]
fn test_process_work_queue_request_vote_sends_message() {
    let mut worker = create_test_worker();
    let rx = connect(&mut worker);

    worker.work_queue.push(task(LocalQuorumWorkerTaskType::RequestVote {
        id: 42,
        term: 3,
        last_term: 2,
        last_index: 5,
    }));
    let send_error = worker.process_work_queue(50);
    assert!(!send_error);

    match rx.try_recv().expect("Should have received a message") {
        RemoteQuorumMessage::VoteRequest {
            term,
            candidate_id,
            last_log_index,
            last_log_term,
            request_id,
        } => {
            assert_eq!(request_id, 42);
            assert_eq!(term, 3);
            assert_eq!(last_log_term, 2);
            assert_eq!(last_log_index, 5);
            assert_eq!(candidate_id, 1); // self_id
        }
        _ => panic!("Expected VoteRequest message"),
    }
}

#[test]
fn test_send_heartbeat_when_enabled_and_time_elapsed() {
    let mut worker = create_test_worker();
    let rx = connect(&mut worker);

    worker.send_heartbeats = true;
    worker.term = 5;
    worker.prev_log_index = 10;
    worker.prev_log_term = 4;
    worker.commit_index = 8;
    worker.last_heartbeat = 0; // Long time ago

    assert!(worker.heartbeat_at(1000));

    match rx.try_recv().expect("Should have received heartbeat message") {
        RemoteQuorumMessage::AppendEntriesRequest {
            term,
            leader_id,
            prev_log_index,
            prev_log_term,
            request_id,
            commit_index,
            entry,
        } => {
            assert_eq!(term, 5);
            assert_eq!(leader_id, 1); // self_id
            assert_eq!(prev_log_index, 10);
            assert_eq!(prev_log_term, 4);
            assert_eq!(commit_index, 8);
            assert_eq!(request_id, 0); // Heartbeat has request_id 0
            assert!(entry.is_none()); // Heartbeat has no entry
        }
        _ => panic!("Expected AppendEntriesRequest for heartbeat"),
    }
}

#[test]
fn test_send_heartbeat_not_sent_when_disabled() {
    let mut worker = create_test_worker();
    let rx = connect(&mut worker);
    worker.send_heartbeats = false;
    worker.last_heartbeat = 0;
    assert!(!worker.heartbeat_at(1000));
    assert!(rx.try_recv().is_err(), "Should not send heartbeat when disabled");
}

#[test]
fn test_on_remote_vote_response_pushes_to_response_queue() {
    let mut worker = create_test_worker();
    worker.handle_inbound_message(RemoteQuorumMessage::VoteResponse {
        request_id: 42,
        term: 5,
        vote_granted: true,
    });
    match worker.response_queue[0].response_type {
        LocalQuorumTaskResponseType::RequestVoteResponse { id, term, received_vote } => {
            assert_eq!(id, 42);
            assert_eq!(term, 5);
            assert!(received_vote);
        }
        _ => panic!("Expected RequestVoteResponse"),
    }
}

#[test]
fn test_on_remote_append_entries_ack_triggers_backfill_on_failure() {
    let mut worker = create_test_worker();
    assert!(worker.ongoing_backfill.is_none());

    worker.handle_inbound_message(RemoteQuorumMessage::AppendEntriesAcknowledge {
        request_id: 0, // Non-tracked request
        last_log_index: 5,
        last_log_term: 2,
        ok: false, // Failure triggers backfill
    });

    assert!(worker.ongoing_backfill.is_some());
    match worker.response_queue[0].response_type {
        LocalQuorumTaskResponseType::BackfillLog {
            quorum_node_id,
            last_log_term,
            last_log_index,
        } => {
            assert_eq!(quorum_node_id, 2); // member_id
            assert_eq!(last_log_term, 2);
            assert_eq!(last_log_index, 5);
        }
        _ => panic!("Expected BackfillLog response"),
    }
}

#[test]
fn test_on_remote_append_entries_ack_ignores_duplicate_backfill() {
    let mut worker = create_test_worker();
    worker.ongoing_backfill = Some(OngoingBackfill { from_term: 1, from_index: 3 });

    worker.handle_inbound_message(RemoteQuorumMessage::AppendEntriesAcknowledge {
        request_id: 0,
        last_log_index: 5,
        last_log_term: 2,
        ok: false,
    });

    assert!(worker.response_queue.is_empty(), "Should ignore duplicate backfill request");
    let backfill = worker.ongoing_backfill.as_ref().unwrap();
    assert_eq!(backfill.from_term, 1);
    assert_eq!(backfill.from_index, 3);
}

#[test]
fn acknowledged_entries_are_reported_and_heartbeats_are_not() {
    let mut worker = create_test_worker();
    worker.pending_append_entries.insert(7, 100);
    for request_id in [0, 7] {
        worker.handle_inbound_message(RemoteQuorumMessage::AppendEntriesAcknowledge {
            request_id,
            last_log_index: 5,
            last_log_term: 2,
            ok: true,
        });
    }
    assert!(worker.pending_append_entries.is_empty());
    assert_eq!(worker.response_queue.len(), 1);
    assert_eq!(
        worker.response_queue[0].response_type,
        LocalQuorumTaskResponseType::AppendEntries { id: 7, ok: true }
    );
}

#[test]
fn test_on_remote_vote_request_creates_pending_task() {
    let mut worker = create_test_worker();
    worker.handle_inbound_message(RemoteQuorumMessage::VoteRequest {
        request_id: 42,
        term: 5,
        candidate_id: 3,
        last_log_index: 10,
        last_log_term: 4,
    });

    // Verify task was added to task queue
    match &worker.task_queue[0].payload {
        LocalRaftMessagePayload::RequestVote(req) => {
            assert_eq!(req.term, 5);
            assert_eq!(req.candidate_id, 3);
            assert_eq!(req.last_log_index, 10);
            assert_eq!(req.last_log_term, 4);
        }
        _ => panic!("Expected RequestVote payload"),
    }

    // Verify pending task was added
    assert_eq!(worker.pending_tasks.len(), 1);
    assert_eq!(worker.pending_tasks[0].callback, worker.task_queue[0].callback);
    match &worker.pending_tasks[0].task {
        PendingQuorumTaskEnum::Vote { request_id, .. } => assert_eq!(*request_id, 42),
        _ => panic!("Expected Vote pending task"),
    }
}

#[test]
fn test_on_remote_truncate_log_response_pushes_to_queue() {
    let mut worker = create_test_worker();
    worker.ongoing_backfill = Some(OngoingBackfill { from_term: 1, from_index: 3 });
    worker.handle_inbound_message(RemoteQuorumMessage::TruncateLogResponse {
        request_id: 42,
        ok: true,
    });
    match worker.response_queue[0].response_type {
        LocalQuorumTaskResponseType::TruncateLogResponse { id, ok } => {
            assert_eq!(id, 42);
            assert!(ok);
        }
        _ => panic!("Expected TruncateLogResponse"),
    }
    assert!(worker.ongoing_backfill.is_none());
}

#[test]
fn test_send_vote_request_formats_message_correctly() {
    let mut worker = create_test_worker();
    let rx = connect(&mut worker);
    let result = worker.send_vote_request(42, 5, 10, 4);
    assert!(result.is_ok(), "send_vote_request should succeed");
    match rx.try_recv().expect("Should receive message") {
        RemoteQuorumMessage::VoteRequest {
            term,
            candidate_id,
            last_log_index,
            last_log_term,
            request_id,
        } => {
            assert_eq!(request_id, 42);
            assert_eq!(term, 5);
            assert_eq!(last_log_index, 10);
            assert_eq!(last_log_term, 4);
            assert_eq!(candidate_id, 1); // self_id
        }
        _ => panic!("Expected VoteRequest"),
    }
}

#[test]
fn test_send_truncate_log_formats_message_correctly() {
    let mut worker = create_test_worker();
    let rx = connect(&mut worker);
    worker.term = 7;
    worker.send_truncate_log(42, 5, 10);
    match rx.try_recv().expect("Should receive message") {
        RemoteQuorumMessage::TruncateLogRequest {
            prev_term,
            prev_index,
            term,
            leader_id,
            request_id,
        } => {
            assert_eq!(request_id, 42);
            assert_eq!(prev_term, 5);
            assert_eq!(prev_index, 10);
            assert_eq!(term, 7);
            assert_eq!(leader_id, 1); // self_id
        }
        _ => panic!("Expected TruncateLogRequest"),
    }
}

#[test]
fn truncate_request_is_reported_and_answered() {
    let mut worker = create_test_worker();
    let rx = connect(&mut worker);
    worker.inbound.push(RemoteQuorumMessage::TruncateLogRequest {
        prev_term: 3,
        prev_index: 9,
        term: 4,
        leader_id: 2,
        request_id: 11,
    });
    worker.process_incoming_messages();
    assert_eq!(
        worker.response_queue[0].response_type,
        LocalQuorumTaskResponseType::TruncateLog {
            quorum_node_id: 2,
            prev_term: 3,
            prev_index: 9,
        }
    );
    assert!(matches!(
        rx.try_recv(),
        Ok(RemoteQuorumMessage::TruncateLogResponse { request_id: 11, ok: true })
    ));
}

#[test]
fn at_most_32_messages_at_a_time() {
    let mut worker = create_test_worker();
    for request_id in 0..40 {
        worker.inbound.push(RemoteQuorumMessage::VoteResponse {
            request_id,
            term: 1,
            vote_granted: false,
        });
    }
    worker.process_incoming_messages();
    assert_eq!(worker.response_queue.len(), 32);
    assert_eq!(worker.inbound.len(), 8);
    worker.process_incoming_messages();
    assert_eq!(worker.response_queue.len(), 40);
    assert_eq!(
        worker.response_queue[39].response_type,
        LocalQuorumTaskResponseType::RequestVoteResponse { id: 39, term: 1, received_vote: false }
    );
}

#[test]
fn append_entries_carry_the_bytes_of_the_entry() {
    let mut worker = create_test_worker();
    let rx = connect(&mut worker);
    worker.term = 3;
    let data = entry(5, 3);
    worker.work_queue.push(task(LocalQuorumWorkerTaskType::AppendEntries {
        id: 77,
        entry: data.clone(),
        commit_index: 4,
    }));
    worker.process_work_queue(500);
    match rx.try_recv().unwrap() {
        RemoteQuorumMessage::AppendEntriesRequest {
            term,
            prev_log_index,
            prev_log_term,
            request_id,
            commit_index,
            entry: Some(sent),
            ..
        } => {
            assert_eq!((term, prev_log_index, prev_log_term), (3, 4, 3));
            assert_eq!((request_id, commit_index), (77, 4));
            assert_eq!(sent.data, data.as_bytes());
            assert_eq!(sent.index, 5);
        }
        _ => panic!("Expected AppendEntriesRequest"),
    }
    assert!(worker.pending_append_entries.contains_key(&77));
}

#[test]
fn backfill_sends_every_entry_and_ends_the_backfill() {
    let mut worker = create_test_worker();
    let rx = connect(&mut worker);
    worker.ongoing_backfill = Some(OngoingBackfill { from_term: 1, from_index: 0 });
    worker.work_queue.push(task(LocalQuorumWorkerTaskType::BackfillLog {
        data: vec![entry(1, 1), entry(2, 1), entry(3, 2)],
    }));
    worker.process_work_queue(500);
    assert!(worker.ongoing_backfill.is_none());
    let sent: Vec<u64> = rx
        .try_iter()
        .map(|m| match m {
            RemoteQuorumMessage::AppendEntriesRequest { entry: Some(e), .. } => e.index,
            _ => panic!("Expected AppendEntriesRequest"),
        })
        .collect();
    assert_eq!(sent, vec![1, 2, 3]);
}

#[test]
fn forwarded_batch_is_answered_once() {
    let mut worker = create_test_worker();
    let rx = connect(&mut worker);
    worker.send_write_batch(WriteBatch {
        batch_id: "b1".to_string(),
        requests: vec![RemotePutRequest {
            id: "k".to_string(),
            payload: "v".to_string(),
            node_id: 1,
        }],
        callback: Callback { id: 99 },
    });
    assert!(matches!(
        rx.try_recv(),
        Ok(RemoteQuorumMessage::PutBatchRequest { batch_id, .. }) if batch_id == "b1"
    ));
    for _ in 0..2 {
        worker.handle_inbound_message(RemoteQuorumMessage::PutBatchResponse {
            batch_id: "b1".to_string(),
            responses: vec![RemotePutResponse {
                id: "k".to_string(),
                message: "".to_string(),
                response_type: 0,
                batch_id: "b1".to_string(),
                node_id: 2,
            }],
        });
    }
    assert_eq!(worker.client_responses.len(), 1);
    assert_eq!(worker.client_responses[0].callback, Callback { id: 99 });
    assert_eq!(worker.client_responses[0].response.responses.len(), 1);
}

#[test]
fn pending_tasks_are_answered_or_kept() {
    let mut worker = create_test_worker();
    let rx = connect(&mut worker);
    worker.inbound.push(RemoteQuorumMessage::VoteRequest {
        request_id: 1,
        term: 5,
        candidate_id: 3,
        last_log_index: 10,
        last_log_term: 4,
    });
    for request_id in 2..6 {
        worker.inbound.push(RemoteQuorumMessage::AppendEntriesRequest {
            term: 5,
            leader_id: 2,
            prev_log_index: 8,
            prev_log_term: 4,
            request_id,
            commit_index: 0,
            entry: Some(LogEntry {
                index: 9,
                data: vec![],
                batch_index: 9,
                term: 5,
                prev_log_term: 4,
                prev_log_index: 8,
                message_id: 0,
            }),
        });
    }
    worker.inbound.push(RemoteQuorumMessage::PutBatchRequest {
        batch_id: "b".to_string(),
        requests: vec![],
    });
    worker.process_incoming_messages();
    assert_eq!(worker.pending_tasks.len(), 6);

    let ready = |payload| CallbackPoll::Ready(LocalRaftResponseMessage { payload });
    worker.process_pending_task_responses(vec![
        ready(LocalRaftResponsePayload::RequestVote(true)),
        CallbackPoll::Empty,
        CallbackPoll::Closed,
        ready(LocalRaftResponsePayload::AppendEntries(
            LocalAppendEntriesCallbackResponse::Accepted,
        )),
        ready(LocalRaftResponsePayload::AppendEntries(
            LocalAppendEntriesCallbackResponse::WantedPreviousEntry {
                last_term: 3,
                last_index: 6,
            },
        )),
        ready(LocalRaftResponsePayload::WriteBatch(LocalRaftWriteBatchResponse { responses: vec![], err: None })),
    ]);
    assert_eq!(worker.pending_tasks.len(), 1);
    assert!(matches!(
        worker.pending_tasks[0].task,
        PendingQuorumTaskEnum::AppendEntries { request_id: 2, log_index: 9, term: 5 }
    ));
    assert!(matches!(
        rx.try_recv(),
        Ok(RemoteQuorumMessage::VoteResponse { vote_granted: true, request_id: 1, term: 5 })
    ));
    assert!(matches!(
        rx.try_recv(),
        Ok(RemoteQuorumMessage::AppendEntriesAcknowledge {
            last_log_term: 5,
            last_log_index: 9,
            request_id: 4,
            ok: true,
        })
    ));
    assert!(matches!(
        rx.try_recv(),
        Ok(RemoteQuorumMessage::AppendEntriesAcknowledge {
            last_log_term: 3,
            last_log_index: 6,
            request_id: 5,
            ok: false,
        })
    ));
    assert!(matches!(
        rx.try_recv(),
        Ok(RemoteQuorumMessage::PutBatchResponse { batch_id, .. }) if batch_id == "b"
    ));
}

#[test]
fn truncation_in_an_answer_is_reported_too() {
    let mut worker = create_test_worker();
    let rx = connect(&mut worker);
    worker.handle_pending_task_response(
        PendingQuorumTaskEnum::AppendEntries { request_id: 8, log_index: 9, term: 5 },
        LocalRaftResponseMessage {
            payload: LocalRaftResponsePayload::AppendEntries(
                LocalAppendEntriesCallbackResponse::TruncateLog { prev_term: 2, prev_index: 3 },
            ),
        },
    );
    assert_eq!(
        worker.response_queue[0].response_type,
        LocalQuorumTaskResponseType::TruncateLog {
            quorum_node_id: 2,
            prev_term: 2,
            prev_index: 3,
        }
    );
    assert!(matches!(
        rx.try_recv(),
        Ok(RemoteQuorumMessage::AppendEntriesAcknowledge {
            last_log_term: 2,
            last_log_index: 3,
            request_id: 8,
            ok: false,
        })
    ));
}

#[test]
fn commit_index_goes_out_at_once() {
    let mut worker = create_test_worker();
    let rx = connect(&mut worker);
    worker.send_heartbeats = true;
    worker.last_heartbeat = 1000;
    worker
        .work_queue
        .push(task(LocalQuorumWorkerTaskType::UpdateCommitIndex { commit_index: 12 }));
    worker.process_work_queue(1001);
    assert!(worker.heartbeat_at(1001));
    assert!(matches!(
        rx.try_recv(),
        Ok(RemoteQuorumMessage::AppendEntriesRequest { commit_index: 12, request_id: 0, .. })
    ));
}

#[test]
fn lost_connections_are_replaced() {
    let mut worker = create_test_worker();
    assert_eq!(worker.connection_need(), ConnectionNeed::Connect);
    assert!(!worker.connected(None));
    let (tx, rx) = unbounded();
    assert!(worker.connected(Some(tx)));
    assert_eq!(worker.connection_need(), ConnectionNeed::CheckOutbound);
    assert!(worker.outbound_checked(true));
    assert!(worker.send_vote_request(1, 1, 0, 0).is_ok());
    assert!(rx.try_recv().is_ok());
    assert!(!worker.outbound_checked(false));
    assert_eq!(worker.connection_need(), ConnectionNeed::Connect);
    assert_eq!(pause_after(5), Some(20));
    assert_eq!(pause_after(25), None);
}

#[test]
fn closed_connection_takes_nothing() {
    let mut worker = create_test_worker();
    let rx = connect(&mut worker);
    drop(rx);
    let sent = worker.handle_inbound_message(RemoteQuorumMessage::TruncateLogRequest {
        prev_term: 3,
        prev_index: 9,
        term: 4,
        leader_id: 2,
        request_id: 11,
    });
    assert!(!sent);
}

fn vote_task(id: u64) -> LocalQuorumWorkerTask {
    task(LocalQuorumWorkerTaskType::RequestVote { id, term: 1, last_term: 1, last_index: 1 })
}

#[test]
fn test_process_work_queue_returns_error_on_closed_channel() {
    let mut worker = create_test_worker();
    // Drop the receiver to close the channel
    drop(connect(&mut worker));
    worker.work_queue.push(vote_task(1));

    let send_error = worker.process_work_queue(50);

    assert!(send_error, "Should return send_error when channel is closed");
}

#[test]
fn failed_vote_request_stops_the_work() {
    let mut worker = create_test_worker();
    drop(connect(&mut worker));
    worker.work_queue.push(task(LocalQuorumWorkerTaskType::TruncateLog {
        id: 1,
        prev_term: 0,
        prev_index: 0,
    }));
    worker.work_queue.push(vote_task(2));
    worker
        .work_queue
        .push(task(LocalQuorumWorkerTaskType::UpdateCommitIndex { commit_index: 9 }));

    assert!(worker.process_work_queue(50));
    // Other messages are lost without a word, and the rest waits.
    assert_eq!(worker.work_queue.len(), 1);
    assert_eq!(worker.commit_index, 0);
    assert!(!worker.process_work_queue(50));
    assert_eq!(worker.commit_index, 9);

    match worker.send_vote_request(3, 4, 5, 6) {
        Err(RemoteQuorumMessage::VoteRequest {
            request_id,
            term,
            last_log_index,
            last_log_term,
            candidate_id,
        }) => {
            assert_eq!((request_id, term, last_log_index, last_log_term), (3, 4, 5, 6));
            assert_eq!(candidate_id, 1);
        }
        _ => panic!("Expected the request back"),
    }
    worker.reset_connections();
    assert!(worker.send_vote_request(3, 4, 5, 6).is_err());
}

#[test]
fn watched_worker_goes_on_behind_a_failed_vote_request() {
    let mut worker = CapnpQuorumWorker::new(1, 1, 2, "localhost:5001".to_string(), 0, 2048);
    drop(connect(&mut worker.worker));
    worker.worker.work_queue.push(vote_task(1));
    for commit_index in 1..=32 {
        worker
            .worker
            .work_queue
            .push(task(LocalQuorumWorkerTaskType::UpdateCommitIndex { commit_index }));
    }
    worker.process_work_queue(50);
    assert_eq!(worker.worker.commit_index, 31);
    assert_eq!(worker.worker.work_queue.len(), 1);
}

#[test]
fn nothing_is_sent_where_nothing_is_offered() {
    let mut worker = create_test_worker();
    let rx = connect(&mut worker);
    assert!(!worker.handle_inbound_message(RemoteQuorumMessage::ConnectRequest));
    assert!(!worker.handle_pending_task_response(
        PendingQuorumTaskEnum::Vote { request_id: 1, term: 1 },
        LocalRaftResponseMessage { payload: LocalRaftResponsePayload::RaftState { leader_id: 1 } },
    ));
    assert!(rx.try_recv().is_err());
    assert!(worker.handle_pending_task_response(
        PendingQuorumTaskEnum::Vote { request_id: 1, term: 1 },
        LocalRaftResponseMessage { payload: LocalRaftResponsePayload::RequestVote(true) },
    ));
    worker.reset_connections();
    assert!(!worker.handle_pending_task_response(
        PendingQuorumTaskEnum::Vote { request_id: 1, term: 1 },
        LocalRaftResponseMessage { payload: LocalRaftResponsePayload::RequestVote(true) },
    ));
}
