//! Write batch processing and serialization.

use crate::persistence::worker::{PersistenceTaskType, PersistenceTaskView};
use crate::quorum::types::{LocalQuorumWorkerTask, LocalQuorumWorkerTaskType, TaskView};
use crate::raft::raft_sm::{
    Callback, LocalRaftResponsePayload, LocalRaftWriteBatchRequest, LocalRaftWriteBatchResponse,
    LogEntry, OutstandingMessage, OutstandingMessageType, ResponseView,
};
use crate::raft::shared_state::{SharedState, StateView};
use crate::service_utils::app_time::now_millis;
use crate::service_utils::storage_utils::{
    self, EntryView, PutRequestView, RemotePutRequest, SerializationData,
};
use std::sync::Arc;
use vstd::prelude::*;

verus! {

/// What a client is told of a batch without writes.
pub open spec fn empty_batch() -> Seq<char> {
    "Empty write batch request"@
}

/// What a client is told when the persistence worker is gone.
pub open spec fn persistence_failed() -> Seq<char> {
    "Failed to queue persistence task"@
}

impl StateView {
    /// The entry that a leader makes of some writes.
    pub open spec fn new_entry(
        self,
        index: u64,
        message_id: u64,
        timestamp: u64,
        requests: Seq<PutRequestView>,
    ) -> EntryView {
        EntryView {
            index,
            term: self.current_term,
            timestamp,
            prev_index: self.last_log_index,
            prev_term: self.last_log_term,
            message_id,
            requests,
        }
    }

    /// The state once `entry` is the last of the log. The first entry of a term
    /// is noted as the start of the term.
    pub open spec fn appending(self, entry: Arc<SerializationData>) -> StateView {
        StateView {
            log: self.log.push(entry),
            term_starts: if entry.prev_term != entry.term {
                self.term_starts.insert(self.current_term, self.log.len() as u64)
            } else {
                self.term_starts
            },
            ..self
        }
    }

    /// The state once the entry at `index` is known as the last one of the log.
    pub open spec fn advancing(self, index: u64) -> StateView {
        StateView {
            last_log_term: self.current_term,
            next_log_index: (index + 1) as u64,
            last_log_index: index,
            ..self
        }
    }

    /// How many responses an entry waits for that goes to the disk and to every peer.
    pub open spec fn all_responses(self) -> i32 {
        (1 + self.tasks.len()) as i32
    }

    /// The state once the leader has appended `entry` at `index`, has offered it
    /// to the persistence worker, has left it for every peer, and waits for them
    /// under `message_id`.
    pub open spec fn replicating(
        self,
        entry: Arc<SerializationData>,
        index: u64,
        message_id: u64,
        persisted: bool,
        message_type: OutstandingMessageType,
    ) -> StateView {
        self.appending(entry).persisting(
            PersistenceTaskView::AppendLog {
                id: message_id,
                data: entry@.encoded(),
                request_id: message_id,
            },
            persisted,
        ).dispatching(
            TaskView::AppendEntries { id: message_id, entry, commit_index: self.commit_index },
        ).registering(
            OutstandingMessage {
                id: message_id,
                outstanding_responses: self.all_responses(),
                message_type,
            },
        ).advancing(index)
    }
}

/// Validates a write batch request.
/// Returns None if valid, or an error message if invalid.
pub fn validate_write_batch(write_batch_request: &LocalRaftWriteBatchRequest) -> (error: Option<
    &'static str,
>)
    ensures
        match error {
            Some(text) => write_batch_request.requests@.len() == 0 && text@ == empty_batch(),
            None => write_batch_request.requests@.len() > 0,
        },
{
    if write_batch_request.requests.len() == 0 {
        return Some("Empty write batch request");
    }
    None
}

/// A second list of the same writes.
fn copy_requests(requests: &Vec<RemotePutRequest>) -> (copy: Vec<RemotePutRequest>)
    ensures
        storage_utils::requests_view(copy@) == storage_utils::requests_view(requests@),
{
    let mut copy: Vec<RemotePutRequest> = Vec::new();
    let mut done: usize = 0;
    while done < requests.len()
        invariant
            done <= requests@.len(),
            copy@.len() == done,
            forall|i: int| 0 <= i < done ==> (#[trigger] copy@[i])@ == requests@[i]@,
        decreases requests@.len() - done,
    {
        let request = &requests[done];
        copy.push(
            RemotePutRequest {
                id: request.id.clone(),
                payload: request.payload.clone(),
                node_id: request.node_id,
            },
        );
        done = done + 1;
    }
    assert(storage_utils::requests_view(copy@) =~= storage_utils::requests_view(requests@));
    copy
}

/// Creates SerializationData from a write batch request, as of a given time.
pub fn create_serialization_data_at(
    write_batch_request: &LocalRaftWriteBatchRequest,
    idx: u64,
    message_id: u64,
    shared_state: &SharedState,
    timestamp: u64,
) -> (data: SerializationData)
    ensures
        data@ == shared_state@.new_entry(
            idx,
            message_id,
            timestamp,
            write_batch_request.writes(),
        ),
{
    SerializationData {
        index: idx,
        term: shared_state.server_state.current_term,
        timestamp,
        prev_index: shared_state.volatile_server_state.last_log_index,
        prev_term: shared_state.volatile_server_state.last_log_term,
        message_id,
        requests: copy_requests(&write_batch_request.requests),
    }
}

/// Creates SerializationData from a write batch request.
pub fn create_serialization_data(
    write_batch_request: &LocalRaftWriteBatchRequest,
    idx: u64,
    message_id: u64,
    shared_state: &SharedState,
) -> (data: SerializationData)
    ensures
        data@ == shared_state@.new_entry(
            idx,
            message_id,
            data.timestamp,
            write_batch_request.writes(),
        ),
{
    create_serialization_data_at(
        write_batch_request,
        idx,
        message_id,
        shared_state,
        now_millis(&shared_state.anchor) as u64,
    )
}

/// Serializes data and updates the replication log.
pub fn serialize_and_append_to_log(
    serialization_data: SerializationData,
    shared_state: &mut SharedState,
) -> (result: (Arc<SerializationData>, Arc<Vec<u8>>))
    requires
        serialization_data@.is_storable(),
    ensures
        *result.0 == serialization_data,
        result.1@ == serialization_data@.encoded(),
        final(shared_state)@ == old(shared_state)@.appending(result.0),
{
    broadcast use vstd::std_specs::hash::group_hash_axioms;

    let data: Vec<u8> = serialization_data.as_bytes();
    let log_len: usize = shared_state.volatile_server_state.replication_log.len();
    if serialization_data.prev_term != serialization_data.term {
        let term: u64 = shared_state.server_state.current_term;
        shared_state.volatile_server_state.replication_log_term_starts.insert(term, log_len as u64);
    }
    let entry = Arc::new(serialization_data);
    shared_state.volatile_server_state.replication_log.push(entry.clone());
    (entry, Arc::new(data))
}

/// Queues a persistence task for the write batch. Says whether it was queued.
pub fn queue_persistence_task(
    message_id: u64,
    shared_data: Arc<Vec<u8>>,
    shared_state: &mut SharedState,
) -> (queued: bool)
    ensures
        final(shared_state)@ == old(shared_state)@.persisting(
            PersistenceTaskView::AppendLog {
                id: message_id,
                data: shared_data@,
                request_id: message_id,
            },
            queued,
        ),
{
    shared_state.persist(
        PersistenceTaskType::AppendLog {
            id: message_id,
            data: shared_data,
            request_id: message_id,
        },
    )
}

/// Builds the form in which an entry travels between nodes.
pub fn build_log_entry(entry: &SerializationData) -> (wire: LogEntry)
    requires
        entry@.is_storable(),
    ensures
        wire.index == entry.index,
        wire.data@ == entry@.encoded(),
        wire.batch_index == entry.index,
        wire.term == entry.term,
        wire.prev_log_term == entry.prev_term,
        wire.prev_log_index == entry.prev_index,
        wire.message_id == entry.message_id,
{
    LogEntry {
        index: entry.index,
        data: entry.as_bytes(),
        batch_index: entry.index,
        term: entry.term,
        prev_log_term: entry.prev_term,
        prev_log_index: entry.prev_index,
        message_id: entry.message_id,
    }
}

/// Dispatches append entries tasks to all quorum workers.
pub fn dispatch_to_quorum(
    message_id: u64,
    owned_entry: Arc<SerializationData>,
    shared_state: &mut SharedState,
)
    ensures
        final(shared_state)@ == old(shared_state)@.dispatching(
            TaskView::AppendEntries {
                id: message_id,
                entry: owned_entry,
                commit_index: old(shared_state)@.commit_index,
            },
        ),
{
    let commit_index: u64 = shared_state.volatile_server_state.commit_index;
    shared_state.dispatch_task(
        &LocalQuorumWorkerTask {
            task_type: LocalQuorumWorkerTaskType::AppendEntries {
                id: message_id,
                entry: owned_entry,
                commit_index,
            },
        },
    );
}

/// Creates and registers an outstanding message for tracking the write batch.
pub fn register_outstanding_message(
    message_id: u64,
    idx: u64,
    batch_size: usize,
    callback: Callback,
    start_time: u128,
    shared_state: &mut SharedState,
)
    requires
        old(shared_state)@.tasks.len() < i32::MAX,
    ensures
        final(shared_state)@ == old(shared_state)@.registering(
            OutstandingMessage {
                id: message_id,
                outstanding_responses: old(shared_state)@.all_responses(),
                message_type: OutstandingMessageType::WriteBatch {
                    persistence_done: false,
                    quorum_acks: 0,
                    callback,
                    index: idx,
                    start_time,
                    batch_size,
                },
            },
        ),
{
    let workers: usize = shared_state.quorum_worker_tasks.len();
    assert(workers == shared_state@.tasks.len());
    shared_state.register(
        OutstandingMessage {
            id: message_id,
            outstanding_responses: 1 + workers as i32,
            message_type: OutstandingMessageType::WriteBatch {
                persistence_done: false,
                quorum_acks: 0,
                callback,
                index: idx,
                start_time,
                batch_size,
            },
        },
    );
}

/// Creates and registers an outstanding message for tracking the no-op entry of a new leader.
pub fn register_noop_outstanding_message(message_id: u64, idx: u64, shared_state: &mut SharedState)
    requires
        old(shared_state)@.tasks.len() < i32::MAX,
    ensures
        final(shared_state)@ == old(shared_state)@.registering(
            OutstandingMessage {
                id: message_id,
                outstanding_responses: old(shared_state)@.all_responses(),
                message_type: OutstandingMessageType::NoOp {
                    persistence_done: false,
                    quorum_acks: 0,
                    index: idx,
                },
            },
        ),
{
    let workers: usize = shared_state.quorum_worker_tasks.len();
    assert(workers == shared_state@.tasks.len());
    shared_state.register(
        OutstandingMessage {
            id: message_id,
            outstanding_responses: 1 + workers as i32,
            message_type: OutstandingMessageType::NoOp {
                persistence_done: false,
                quorum_acks: 0,
                index: idx,
            },
        },
    );
}

/// Updates volatile state after appending a log entry.
pub fn update_volatile_state(idx: u64, shared_state: &mut SharedState)
    requires
        idx < u64::MAX,
    ensures
        final(shared_state)@ == old(shared_state)@.advancing(idx),
{
    shared_state.volatile_server_state.last_log_term = shared_state.server_state.current_term;
    shared_state.volatile_server_state.next_log_index = idx + 1;
    shared_state.volatile_server_state.last_log_index = idx;
}

/// Sends an error response for an invalid write batch.
pub fn send_error_response(error_msg: &str, callback: Callback, shared_state: &mut SharedState)
    ensures
        final(shared_state)@ == old(shared_state)@.answering(
            callback,
            ResponseView::batch(Some(error_msg@)),
        ),
{
    let response = LocalRaftWriteBatchResponse::of_batch(Some(error_msg.to_string()));
    shared_state.respond(callback, LocalRaftResponsePayload::WriteBatch(response));
}

} // verus!
