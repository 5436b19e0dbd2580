//! The messages and the types of the Raft state machine.

use crate::quorum::messages::{self, PutResponseView, RemotePutResponse};
use crate::raft::candidate::RaftCandidateStateDelegate;
use crate::raft::follower::append_entries::validate_append_entries;
use crate::raft::follower::RaftFollowerStateDelegate;
use crate::raft::leader::RaftLeaderStateDelegate;
use crate::raft::shared_state::SharedState;
use crate::service_utils::storage_utils::{self, PutRequestView, RemotePutRequest};
use vstd::prelude::*;

verus! {

/// Names the caller that waits for an answer of the state machine.
#[derive(Clone, Copy, Debug, PartialEq, Eq, Structural)]
pub struct Callback {
    pub id: u64,
}

#[derive(Clone, Copy, Debug, PartialEq, Eq, Structural)]
pub struct RaftServerState {
    pub current_term: u64,
    pub leader_id: u32,
}

#[derive(Clone, Copy, Debug, PartialEq, Eq, Structural)]
pub struct TermVote {
    pub term: u64,
    pub node_id: u64,
}

/// The commit position as the readers of the log see it.
#[derive(Clone, Copy, Debug, PartialEq, Eq, Structural)]
pub struct CommitState {
    pub commit_index: u64,
    /// Grows whenever a reader should look again.
    pub version: u64,
}

/// What an outstanding message waits for.
#[derive(Clone, Copy, Debug, PartialEq, Eq, Structural)]
pub enum OutstandingMessageType {
    /// Request vote from someone else.
    RequestVote { callback: Callback },
    /// Candidate election by this node.
    CandidateElection { persistence_done: bool, quorum_votes: u32 },
    AppendLog { callback: Callback },
    WriteBatch {
        persistence_done: bool,
        quorum_acks: u32,
        callback: Callback,
        index: u64,
        start_time: u128,
        batch_size: usize,
    },
    /// The entry without commands that a new leader replicates first.
    NoOp { persistence_done: bool, quorum_acks: u32, index: u64 },
}

#[derive(Clone, Copy, Debug, PartialEq, Eq, Structural)]
pub struct OutstandingMessage {
    pub id: u64,
    pub outstanding_responses: i32,
    pub message_type: OutstandingMessageType,
}

#[derive(Clone, Copy, Debug, PartialEq, Eq, Structural)]
pub struct StateMachineConfig {
    pub max_message_size_bytes: usize,
}

#[derive(Clone, Copy, Debug, PartialEq, Eq, Structural)]
pub struct StateMachineResponse {}

#[derive(Clone, Copy, Debug, PartialEq, Eq, Structural)]
pub struct LocalRequestVoteRequest {
    pub term: u64,
    pub candidate_id: u32,
    pub last_log_index: u64,
    pub last_log_term: u64,
}

/// Log entry for replication, as it travels between nodes.
#[derive(Clone, Debug)]
pub struct LogEntry {
    pub index: u64,
    pub data: Vec<u8>,
    pub batch_index: u64,
    pub term: u64,
    pub prev_log_term: u64,
    pub prev_log_index: u64,
    pub message_id: u64,
}

pub struct LocalAppendEntries {
    pub term: u64,
    pub leader_id: u32,
    pub prev_index: u64,
    pub prev_term: u64,
    pub request_id: u64,
    pub entry: Option<LogEntry>,
    pub commit_index: u64,
}

#[derive(Clone, Copy, Debug, PartialEq, Eq, Structural)]
pub enum LocalAppendEntriesCallbackResponse {
    /// The request is accepted.
    Accepted,
    UnrecognizedLeader,
    /// Want the entry that follows the given term and index.
    WantedPreviousEntry { last_term: u64, last_index: u64 },
    /// Leader is telling follower to truncate log to this point.
    TruncateLog { prev_term: u64, prev_index: u64 },
}

/// Response from a write batch operation.
#[derive(Debug)]
pub struct LocalRaftWriteBatchResponse {
    pub responses: Vec<RemotePutResponse>,
    pub err: Option<String>,
}

#[derive(Debug)]
pub enum LocalRaftResponsePayload {
    NoPayload,
    /// Granted.
    RequestVote(bool),
    AppendEntries(LocalAppendEntriesCallbackResponse),
    RaftState { leader_id: u32 },
    WriteBatch(LocalRaftWriteBatchResponse),
}

#[derive(Debug)]
pub struct LocalRaftResponseMessage {
    pub payload: LocalRaftResponsePayload,
}

/// What an answer of the state machine says.
pub enum ResponseView {
    NoPayload,
    RequestVote(bool),
    AppendEntries(LocalAppendEntriesCallbackResponse),
    RaftState { leader_id: u32 },
    WriteBatch { responses: Seq<PutResponseView>, err: Option<Seq<char>> },
}

impl View for LocalRaftResponseMessage {
    type V = ResponseView;

    open spec fn view(&self) -> ResponseView {
        match self.payload {
            LocalRaftResponsePayload::NoPayload => ResponseView::NoPayload,
            LocalRaftResponsePayload::RequestVote(granted) => ResponseView::RequestVote(granted),
            LocalRaftResponsePayload::AppendEntries(r) => ResponseView::AppendEntries(r),
            LocalRaftResponsePayload::RaftState { leader_id } => ResponseView::RaftState {
                leader_id,
            },
            LocalRaftResponsePayload::WriteBatch(r) => ResponseView::WriteBatch {
                responses: messages::put_responses_view(r.responses@),
                err: match r.err {
                    Some(text) => Some(text@),
                    None => None,
                },
            },
        }
    }
}

impl ResponseView {
    /// The answer to a batch of writes as a whole: each of its writes goes
    /// without an answer of its own.
    pub open spec fn batch(err: Option<Seq<char>>) -> ResponseView {
        ResponseView::WriteBatch { responses: Seq::empty(), err }
    }
}

impl LocalRaftWriteBatchResponse {
    /// The answer to a batch of writes as a whole.
    pub(crate) fn of_batch(err: Option<String>) -> (response: Self)
        ensures
            (LocalRaftResponseMessage {
                payload: LocalRaftResponsePayload::WriteBatch(response),
            })@ == ResponseView::batch(
                match err {
                    Some(text) => Some(text@),
                    None => None,
                },
            ),
    {
        let response = LocalRaftWriteBatchResponse { responses: Vec::new(), err };
        assert(messages::put_responses_view(response.responses@) =~= Seq::empty());
        response
    }
}

/// Write batch request.
pub struct LocalRaftWriteBatchRequest {
    pub requests: Vec<RemotePutRequest>,
}

impl LocalRaftWriteBatchRequest {
    /// The writes of the batch.
    pub open spec fn writes(&self) -> Seq<PutRequestView> {
        storage_utils::requests_view(self.requests@)
    }

    /// Whether a log entry has room for the writes of the batch.
    pub open spec fn is_storable(&self) -> bool {
        storage_utils::are_storable(self.writes())
    }
}

pub enum LocalRaftMessagePayload {
    RequestVote(LocalRequestVoteRequest),
    AppendEntries(LocalAppendEntries),
    GetRaftState,
    WriteBatch(LocalRaftWriteBatchRequest),
}

pub struct LocalRaftMessage {
    pub payload: LocalRaftMessagePayload,
    pub callback: Callback,
}

#[derive(Clone, Copy, Debug, PartialEq, Eq, Structural)]
pub enum RaftNodeType {
    Follower,
    Candidate,
    Leader,
}

/// The role that a node changes to.
pub enum RaftMessageStateChange {
    Unchanged,
    Follower(RaftFollowerStateDelegate),
    Candidate(RaftCandidateStateDelegate),
    Leader(RaftLeaderStateDelegate),
}

/// Per-state implementation of the Raft protocol. Handles requests, leaves
/// responses for callbacks and notifies about state changes.
pub trait RaftProtocol: Sized {
    /// Whether the delegate can go on.
    spec fn wf(&self) -> bool;

    fn get_node_type(&self) -> (node_type: RaftNodeType);

    fn request_vote(
        &mut self,
        request_vote_request: LocalRequestVoteRequest,
        callback: Callback,
        shared_state: &mut SharedState,
    ) -> (change: RaftMessageStateChange)
        requires
            old(self).wf(),
            request_vote_request.term < u64::MAX,
            old(shared_state)@.has_room(1),
        ensures
            final(self).wf(),
    ;

    fn append_entries(
        &mut self,
        append_entries_request: LocalAppendEntries,
        callback: Callback,
        shared_state: &mut SharedState,
    ) -> (change: RaftMessageStateChange)
        requires
            old(self).wf(),
            append_entries_request.term < u64::MAX,
            old(shared_state)@.has_room(1),
        ensures
            final(self).wf(),
    ;

    /// Write batches are not allowed unless the node is the leader.
    fn write_batch(
        &mut self,
        write_batch_request: LocalRaftWriteBatchRequest,
        callback: Callback,
        shared_state: &mut SharedState,
    )
        requires
            old(self).wf(),
            write_batch_request.is_storable(),
            old(shared_state)@.has_room(1),
        ensures
            final(self).wf(),
        default_ensures
            *final(self) == *old(self),
            *final(shared_state) == *old(shared_state),
    {
    }

    /// Returns (state_change, work_done_count)
    fn time_step(&mut self, shared_state: &mut SharedState) -> (result: (
        RaftMessageStateChange,
        u64,
    ))
        requires
            old(self).wf(),
            old(shared_state)@.has_room(old(shared_state)@.waiting_events() + 2),
        ensures
            final(self).wf(),
    ;

    fn validate_append_entries(
        &self,
        append_entries_request: &LocalAppendEntries,
        prev_index: u64,
        prev_term: u64,
    ) -> (consecutive: bool)
        ensures
            consecutive == append_entries_request.follows(prev_index, prev_term),
    {
        validate_append_entries(append_entries_request, prev_index, prev_term)
    }

    fn should_accept_vote(
        &self,
        term: u64,
        _last_log_term: u64,
        last_log_index: u64,
        shared_state: &SharedState,
    ) -> (accepted: bool)
        ensures
            accepted == shared_state@.accepts_vote(term, last_log_index),
    {
        shared_state.should_accept_vote(term, last_log_index)
    }
}

pub struct FollowerState {
    pub current_term: u64,
    pub voted_for: Option<u64>,
    pub log: Vec<LogEntry>,
}

pub struct LeaderState {
    pub current_term: u64,
    pub log: Vec<LogEntry>,
    pub max_heartbeat_cadence: u64,
}

pub struct RaftSM {
    pub current_term: u64,
    pub voted_for: Option<u64>,
    pub log: Vec<LogEntry>,
}

} // verus!
