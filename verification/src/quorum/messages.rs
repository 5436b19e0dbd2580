//! The messages that nodes exchange.

use crate::raft::raft_sm::LogEntry;
use crate::service_utils::storage_utils::{self, PutRequestView, RemotePutRequest};
use vstd::prelude::*;

verus! {

/// What a [`LogEntry`] holds.
#[verifier::ext_equal]
pub struct LogEntryView {
    pub index: u64,
    pub data: Seq<u8>,
    pub batch_index: u64,
    pub term: u64,
    pub prev_log_term: u64,
    pub prev_log_index: u64,
    pub message_id: u64,
}

impl View for LogEntry {
    type V = LogEntryView;

    open spec fn view(&self) -> LogEntryView {
        LogEntryView {
            index: self.index,
            data: self.data@,
            batch_index: self.batch_index,
            term: self.term,
            prev_log_term: self.prev_log_term,
            prev_log_index: self.prev_log_index,
            message_id: self.message_id,
        }
    }
}

/// What an optional [`LogEntry`] holds.
pub open spec fn entry_view(entry: Option<LogEntry>) -> Option<LogEntryView> {
    match entry {
        Some(entry) => Some(entry@),
        None => None,
    }
}

/// The answer to one write of a batch.
#[derive(Debug)]
pub struct RemotePutResponse {
    pub id: String,
    pub message: String,
    pub response_type: u32,
    pub batch_id: String,
    pub node_id: u32,
}

/// What a [`RemotePutResponse`] holds.
pub struct PutResponseView {
    pub id: Seq<char>,
    pub message: Seq<char>,
    pub response_type: u32,
    pub batch_id: Seq<char>,
    pub node_id: u32,
}

impl View for RemotePutResponse {
    type V = PutResponseView;

    open spec fn view(&self) -> PutResponseView {
        PutResponseView {
            id: self.id@,
            message: self.message@,
            response_type: self.response_type,
            batch_id: self.batch_id@,
            node_id: self.node_id,
        }
    }
}

/// What a list of answers holds.
pub open spec fn put_responses_view(responses: Seq<RemotePutResponse>) -> Seq<PutResponseView> {
    responses.map_values(|r: RemotePutResponse| r@)
}

/// A message between two nodes.
#[derive(Debug)]
pub enum RemoteQuorumMessage {
    VoteRequest {
        term: u64,
        candidate_id: u32,
        last_log_index: u64,
        last_log_term: u64,
        request_id: u64,
    },
    VoteResponse { vote_granted: bool, request_id: u64, term: u64 },
    AppendEntriesRequest {
        term: u64,
        leader_id: u32,
        prev_log_index: u64,
        prev_log_term: u64,
        request_id: u64,
        commit_index: u64,
        entry: Option<LogEntry>,
    },
    AppendEntriesAcknowledge {
        last_log_term: u64,
        last_log_index: u64,
        request_id: u64,
        ok: bool,
    },
    PutBatchRequest { batch_id: String, requests: Vec<RemotePutRequest> },
    PutBatchResponse { batch_id: String, responses: Vec<RemotePutResponse> },
    TruncateLogRequest {
        prev_term: u64,
        prev_index: u64,
        term: u64,
        leader_id: u32,
        request_id: u64,
    },
    TruncateLogResponse { request_id: u64, ok: bool },
    ConnectRequest,
    ConnectResponse,
}

/// What a [`RemoteQuorumMessage`] says.
pub enum MessageView {
    VoteRequest {
        term: u64,
        candidate_id: u32,
        last_log_index: u64,
        last_log_term: u64,
        request_id: u64,
    },
    VoteResponse { vote_granted: bool, request_id: u64, term: u64 },
    AppendEntriesRequest {
        term: u64,
        leader_id: u32,
        prev_log_index: u64,
        prev_log_term: u64,
        request_id: u64,
        commit_index: u64,
        entry: Option<LogEntryView>,
    },
    AppendEntriesAcknowledge {
        last_log_term: u64,
        last_log_index: u64,
        request_id: u64,
        ok: bool,
    },
    PutBatchRequest { batch_id: Seq<char>, requests: Seq<PutRequestView> },
    PutBatchResponse { batch_id: Seq<char>, responses: Seq<PutResponseView> },
    TruncateLogRequest {
        prev_term: u64,
        prev_index: u64,
        term: u64,
        leader_id: u32,
        request_id: u64,
    },
    TruncateLogResponse { request_id: u64, ok: bool },
    ConnectRequest,
    ConnectResponse,
}

impl View for RemoteQuorumMessage {
    type V = MessageView;

    open spec fn view(&self) -> MessageView {
        match *self {
            RemoteQuorumMessage::VoteRequest {
                term,
                candidate_id,
                last_log_index,
                last_log_term,
                request_id,
            } => MessageView::VoteRequest {
                term,
                candidate_id,
                last_log_index,
                last_log_term,
                request_id,
            },
            RemoteQuorumMessage::VoteResponse { vote_granted, request_id, term } =>
                MessageView::VoteResponse { vote_granted, request_id, term },
            RemoteQuorumMessage::AppendEntriesRequest {
                term,
                leader_id,
                prev_log_index,
                prev_log_term,
                request_id,
                commit_index,
                entry,
            } => MessageView::AppendEntriesRequest {
                term,
                leader_id,
                prev_log_index,
                prev_log_term,
                request_id,
                commit_index,
                entry: entry_view(entry),
            },
            RemoteQuorumMessage::AppendEntriesAcknowledge {
                last_log_term,
                last_log_index,
                request_id,
                ok,
            } => MessageView::AppendEntriesAcknowledge {
                last_log_term,
                last_log_index,
                request_id,
                ok,
            },
            RemoteQuorumMessage::PutBatchRequest { batch_id, requests } =>
                MessageView::PutBatchRequest {
                batch_id: batch_id@,
                requests: storage_utils::requests_view(requests@),
            },
            RemoteQuorumMessage::PutBatchResponse { batch_id, responses } =>
                MessageView::PutBatchResponse {
                batch_id: batch_id@,
                responses: put_responses_view(responses@),
            },
            RemoteQuorumMessage::TruncateLogRequest {
                prev_term,
                prev_index,
                term,
                leader_id,
                request_id,
            } => MessageView::TruncateLogRequest {
                prev_term,
                prev_index,
                term,
                leader_id,
                request_id,
            },
            RemoteQuorumMessage::TruncateLogResponse { request_id, ok } =>
                MessageView::TruncateLogResponse { request_id, ok },
            RemoteQuorumMessage::ConnectRequest => MessageView::ConnectRequest,
            RemoteQuorumMessage::ConnectResponse => MessageView::ConnectResponse,
        }
    }
}

} // verus!
