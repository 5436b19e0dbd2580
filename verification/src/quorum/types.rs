//! What the state machine and the workers of the peers exchange.

use crate::raft::raft_sm::Callback;
use crate::service_utils::storage_utils::{self, PutRequestView, RemotePutRequest, SerializationData};
use std::sync::Arc;
use vstd::prelude::*;

verus! {

/// A batch of writes that a non-leader forwards to the leader.
pub struct WriteBatch {
    pub batch_id: String,
    pub requests: Vec<RemotePutRequest>,
    /// Where the leader's answer goes.
    pub callback: Callback,
}

/// Task wrapper for quorum worker tasks.
pub struct LocalQuorumWorkerTask {
    pub task_type: LocalQuorumWorkerTaskType,
}

/// Task types for quorum worker.
pub enum LocalQuorumWorkerTaskType {
    /// Start sending heartbeats to this quorum member.
    StartHeartbeats { id: u64, term: u64, prev_term: u64, prev_log_index: u64, commit_index: u64 },
    /// Stop sending heartbeats to this quorum member.
    StopHeartbeats { id: u64 },
    /// Request a vote from this quorum member.
    RequestVote { id: u64, term: u64, last_term: u64, last_index: u64 },
    /// Append a log entry to this quorum member.
    AppendEntries { id: u64, entry: Arc<SerializationData>, commit_index: u64 },
    /// Backfill log entries to this quorum member.
    BackfillLog { data: Vec<Arc<SerializationData>> },
    /// Write a batch of requests.
    WriteBatch { write_batch: WriteBatch },
    /// Truncate log to specified term/index on the quorum member.
    TruncateLog { id: u64, prev_term: u64, prev_index: u64 },
    /// Notify follower of new commit index via immediate heartbeat.
    UpdateCommitIndex { commit_index: u64 },
}

/// What a task asks for.
pub enum TaskView {
    StartHeartbeats { id: u64, term: u64, prev_term: u64, prev_log_index: u64, commit_index: u64 },
    StopHeartbeats { id: u64 },
    RequestVote { id: u64, term: u64, last_term: u64, last_index: u64 },
    AppendEntries { id: u64, entry: Arc<SerializationData>, commit_index: u64 },
    BackfillLog { data: Seq<Arc<SerializationData>> },
    WriteBatch { batch_id: Seq<char>, requests: Seq<PutRequestView>, callback: Callback },
    TruncateLog { id: u64, prev_term: u64, prev_index: u64 },
    UpdateCommitIndex { commit_index: u64 },
}

impl View for LocalQuorumWorkerTask {
    type V = TaskView;

    open spec fn view(&self) -> TaskView {
        match self.task_type {
            LocalQuorumWorkerTaskType::StartHeartbeats {
                id,
                term,
                prev_term,
                prev_log_index,
                commit_index,
            } => TaskView::StartHeartbeats { id, term, prev_term, prev_log_index, commit_index },
            LocalQuorumWorkerTaskType::StopHeartbeats { id } => TaskView::StopHeartbeats { id },
            LocalQuorumWorkerTaskType::RequestVote { id, term, last_term, last_index } =>
                TaskView::RequestVote { id, term, last_term, last_index },
            LocalQuorumWorkerTaskType::AppendEntries { id, entry, commit_index } =>
                TaskView::AppendEntries { id, entry, commit_index },
            LocalQuorumWorkerTaskType::BackfillLog { data } => TaskView::BackfillLog {
                data: data@,
            },
            LocalQuorumWorkerTaskType::WriteBatch { write_batch } => TaskView::WriteBatch {
                batch_id: write_batch.batch_id@,
                requests: storage_utils::requests_view(write_batch.requests@),
                callback: write_batch.callback,
            },
            LocalQuorumWorkerTaskType::TruncateLog { id, prev_term, prev_index } =>
                TaskView::TruncateLog { id, prev_term, prev_index },
            LocalQuorumWorkerTaskType::UpdateCommitIndex { commit_index } =>
                TaskView::UpdateCommitIndex { commit_index },
        }
    }
}

impl LocalQuorumWorkerTask {
    /// Whether the task goes to every quorum worker alike.
    pub open spec fn is_signal(&self) -> bool {
        !(self.task_type is BackfillLog) && !(self.task_type is WriteBatch)
    }

    /// A second task that asks for the same.
    pub(crate) fn copy(&self) -> (task: LocalQuorumWorkerTask)
        requires
            self.is_signal(),
        ensures
            task@ == self@,
    {
        let task_type = match &self.task_type {
            LocalQuorumWorkerTaskType::StartHeartbeats {
                id,
                term,
                prev_term,
                prev_log_index,
                commit_index,
            } => LocalQuorumWorkerTaskType::StartHeartbeats {
                id: *id,
                term: *term,
                prev_term: *prev_term,
                prev_log_index: *prev_log_index,
                commit_index: *commit_index,
            },
            LocalQuorumWorkerTaskType::StopHeartbeats { id } => {
                LocalQuorumWorkerTaskType::StopHeartbeats { id: *id }
            },
            LocalQuorumWorkerTaskType::RequestVote { id, term, last_term, last_index } => {
                LocalQuorumWorkerTaskType::RequestVote {
                    id: *id,
                    term: *term,
                    last_term: *last_term,
                    last_index: *last_index,
                }
            },
            LocalQuorumWorkerTaskType::AppendEntries { id, entry, commit_index } => {
                LocalQuorumWorkerTaskType::AppendEntries {
                    id: *id,
                    entry: entry.clone(),
                    commit_index: *commit_index,
                }
            },
            LocalQuorumWorkerTaskType::BackfillLog { .. } => vstd::pervasive::unreached(),
            LocalQuorumWorkerTaskType::WriteBatch { .. } => vstd::pervasive::unreached(),
            LocalQuorumWorkerTaskType::TruncateLog { id, prev_term, prev_index } => {
                LocalQuorumWorkerTaskType::TruncateLog {
                    id: *id,
                    prev_term: *prev_term,
                    prev_index: *prev_index,
                }
            },
            LocalQuorumWorkerTaskType::UpdateCommitIndex { commit_index } => {
                LocalQuorumWorkerTaskType::UpdateCommitIndex { commit_index: *commit_index }
            },
        };
        LocalQuorumWorkerTask { task_type }
    }
}

/// Response types from quorum worker.
#[derive(Clone, Copy, Debug, PartialEq, Eq, Structural)]
pub enum LocalQuorumTaskResponseType {
    RequestVoteResponse { id: u64, term: u64, received_vote: bool },
    AppendEntries { id: u64, ok: bool },
    BackfillLog { quorum_node_id: u64, last_log_term: u64, last_log_index: u64 },
    TruncateLog { quorum_node_id: u64, prev_term: u64, prev_index: u64 },
    TruncateLogResponse { id: u64, ok: bool },
}

/// Response wrapper for quorum worker responses.
#[derive(Clone, Copy, Debug, PartialEq, Eq, Structural)]
pub struct LocalQuorumResponse {
    pub response_type: LocalQuorumTaskResponseType,
}

} // verus!
