//! The worker that handles communication with a single remote cluster node.

pub mod connection;
pub mod exchange_laws;
pub mod inbound;
pub mod laws;
pub mod outbound;
pub mod pending;

use crate::quorum::messages::{
    self, LogEntryView, MessageView, PutResponseView, RemotePutResponse, RemoteQuorumMessage,
};
use crate::quorum::types::{
    LocalQuorumResponse, LocalQuorumWorkerTask, LocalQuorumWorkerTaskType, TaskView,
};
use crate::raft::raft_sm::{
    Callback, LocalRaftMessage, LocalRaftMessagePayload, LocalRequestVoteRequest,
};
use crate::raft::shared_state;
use crate::service_utils::channels;
use crate::service_utils::storage_utils::{PutRequestView, SerializationData};
use std::collections::HashMap;
use std::sync::Arc;
use vstd::hash_map::StringHashMap;
use vstd::prelude::*;

verus! {

/// How many messages and tasks the worker handles before it does something else.
pub const MAX_MESSAGES_PER_ITERATION: usize = 32;

/// A backfill that the peer has asked for and that is not finished.
#[derive(Clone, Copy, Debug, PartialEq, Eq, Structural)]
pub struct OngoingBackfill {
    pub from_term: u64,
    pub from_index: u64,
}

/// A request of the peer that the state machine has not answered yet.
#[derive(Debug)]
pub enum PendingQuorumTaskEnum {
    Vote { request_id: u64, term: u64 },
    AppendEntries { request_id: u64, log_index: u64, term: u64 },
    PutBatch { batch_id: String },
}

#[derive(Debug)]
pub struct PendingQuorumTask {
    /// Under which the state machine answers.
    pub callback: Callback,
    pub task: PendingQuorumTaskEnum,
}

/// What a [`PendingQuorumTask`] waits for.
pub enum PendingView {
    Vote { request_id: u64, term: u64 },
    AppendEntries { request_id: u64, log_index: u64, term: u64 },
    PutBatch { batch_id: Seq<char> },
}

impl View for PendingQuorumTask {
    type V = (Callback, PendingView);

    open spec fn view(&self) -> (Callback, PendingView) {
        (
            self.callback,
            match self.task {
                PendingQuorumTaskEnum::Vote { request_id, term } => PendingView::Vote {
                    request_id,
                    term,
                },
                PendingQuorumTaskEnum::AppendEntries { request_id, log_index, term } =>
                    PendingView::AppendEntries { request_id, log_index, term },
                PendingQuorumTaskEnum::PutBatch { batch_id } => PendingView::PutBatch {
                    batch_id: batch_id@,
                },
            },
        )
    }
}

/// What a client is told of a batch that the leader has written.
#[derive(Debug)]
pub struct WriteResponse {
    pub batch_id: String,
    pub responses: Vec<RemotePutResponse>,
}

/// An answer for a client, and where it goes.
#[derive(Debug)]
pub struct ClientResponse {
    pub callback: Callback,
    pub response: WriteResponse,
}

/// What a [`ClientResponse`] says.
pub struct ClientResponseView {
    pub callback: Callback,
    pub batch_id: Seq<char>,
    pub responses: Seq<PutResponseView>,
}

impl View for ClientResponse {
    type V = ClientResponseView;

    open spec fn view(&self) -> ClientResponseView {
        ClientResponseView {
            callback: self.callback,
            batch_id: self.response.batch_id@,
            responses: messages::put_responses_view(self.response.responses@),
        }
    }
}

/// What a [`LocalRaftMessage`] asks the state machine for.
pub enum RaftRequestView {
    RequestVote(LocalRequestVoteRequest),
    AppendEntries {
        term: u64,
        leader_id: u32,
        prev_index: u64,
        prev_term: u64,
        request_id: u64,
        entry: Option<LogEntryView>,
        commit_index: u64,
    },
    GetRaftState,
    WriteBatch { requests: Seq<PutRequestView> },
}

impl View for LocalRaftMessage {
    type V = (Callback, RaftRequestView);

    open spec fn view(&self) -> (Callback, RaftRequestView) {
        (
            self.callback,
            match self.payload {
                LocalRaftMessagePayload::RequestVote(request) => RaftRequestView::RequestVote(
                    request,
                ),
                LocalRaftMessagePayload::AppendEntries(request) => RaftRequestView::AppendEntries {
                    term: request.term,
                    leader_id: request.leader_id,
                    prev_index: request.prev_index,
                    prev_term: request.prev_term,
                    request_id: request.request_id,
                    entry: messages::entry_view(request.entry),
                    commit_index: request.commit_index,
                },
                LocalRaftMessagePayload::GetRaftState => RaftRequestView::GetRaftState,
                LocalRaftMessagePayload::WriteBatch(request) => RaftRequestView::WriteBatch {
                    requests: request.writes(),
                },
            },
        )
    }
}

/// The worker of one peer.
///
/// `work_queue` and `inbound` hold what has arrived from the state machine and
/// from the peer, oldest first. `response_queue`, `task_queue` and
/// `client_responses` hold what is to be delivered to the state machine and to
/// clients, oldest first.
pub struct QuorumWorker {
    pub work_queue: Vec<LocalQuorumWorkerTask>,
    pub inbound: Vec<RemoteQuorumMessage>,
    pub response_queue: Vec<LocalQuorumResponse>,
    pub task_queue: Vec<LocalRaftMessage>,
    pub client_responses: Vec<ClientResponse>,
    /// The connection to the peer, while there is one.
    pub outbound_tx: Option<crossbeam_channel::Sender<RemoteQuorumMessage>>,
    pub self_id: u32,
    pub member_id: u64,
    pub member_endpoint: String,
    pub term: u64,
    pub prev_log_index: u64,
    pub prev_log_term: u64,
    pub commit_index: u64,
    pub next_index: u64,
    pub send_heartbeats: bool,
    pub last_heartbeat: u128,
    pub ongoing_backfill: Option<OngoingBackfill>,
    pub pending_tasks: Vec<PendingQuorumTask>,
    pub pending_write_batches: StringHashMap<Callback>,
    /// When each append entries request was sent that the peer has not acknowledged.
    pub pending_append_entries: HashMap<u64, u128>,
    pub next_callback_id: u64,
    pub max_message_size_bytes: usize,
}

/// The worker of a peer whose connection is watched from outside: it goes on with
/// its tasks whatever becomes of a message.
pub struct CapnpQuorumWorker {
    pub worker: QuorumWorker,
}

/// What a [`QuorumWorker`] holds.
#[verifier::ext_equal]
pub struct WorkerView {
    pub work_queue: Seq<TaskView>,
    pub inbound: Seq<MessageView>,
    pub response_queue: Seq<LocalQuorumResponse>,
    pub task_queue: Seq<(Callback, RaftRequestView)>,
    pub client_responses: Seq<ClientResponseView>,
    /// The messages that were offered to the connection, each with whether it
    /// was accepted, while there is a connection.
    pub outbound: Option<Seq<(MessageView, bool)>>,
    pub self_id: u32,
    pub member_id: u64,
    pub member_endpoint: Seq<char>,
    pub term: u64,
    pub prev_log_index: u64,
    pub prev_log_term: u64,
    pub commit_index: u64,
    pub next_index: u64,
    pub send_heartbeats: bool,
    pub last_heartbeat: u128,
    pub ongoing_backfill: Option<OngoingBackfill>,
    pub pending_tasks: Seq<(Callback, PendingView)>,
    pub pending_write_batches: Map<Seq<char>, Callback>,
    pub pending_append_entries: Map<u64, u128>,
    pub next_callback_id: u64,
    pub max_message_size_bytes: usize,
}

/// The messages that were offered to a connection, while there is one.
pub open spec fn link_view(
    outbound_tx: Option<crossbeam_channel::Sender<RemoteQuorumMessage>>,
) -> Option<Seq<(MessageView, bool)>> {
    match outbound_tx {
        Some(tx) => Some(channels::offered_messages(tx)),
        None => None,
    }
}

/// A connection once `message` has been offered to it. Without a connection
/// nothing is offered.
pub open spec fn offering(
    link: Option<Seq<(MessageView, bool)>>,
    message: MessageView,
    accepted: bool,
) -> Option<Seq<(MessageView, bool)>> {
    match link {
        Some(offers) => Some(offers.push((message, accepted))),
        None => None,
    }
}

/// What a list of messages says.
pub open spec fn inbound_view(inbound: Seq<RemoteQuorumMessage>) -> Seq<MessageView> {
    inbound.map_values(|m: RemoteQuorumMessage| m@)
}

/// What a list of requests asks the state machine for.
pub open spec fn task_queue_view(queue: Seq<LocalRaftMessage>) -> Seq<(Callback, RaftRequestView)> {
    queue.map_values(|m: LocalRaftMessage| m@)
}

/// What a list of answers says.
pub open spec fn client_responses_view(responses: Seq<ClientResponse>) -> Seq<ClientResponseView> {
    responses.map_values(|r: ClientResponse| r@)
}

/// What a list of pending tasks waits for.
pub open spec fn pending_view(pending: Seq<PendingQuorumTask>) -> Seq<(Callback, PendingView)> {
    pending.map_values(|t: PendingQuorumTask| t@)
}

impl View for QuorumWorker {
    type V = WorkerView;

    open spec fn view(&self) -> WorkerView {
        WorkerView {
            work_queue: shared_state::queue_view(self.work_queue@),
            inbound: inbound_view(self.inbound@),
            response_queue: self.response_queue@,
            task_queue: task_queue_view(self.task_queue@),
            client_responses: client_responses_view(self.client_responses@),
            outbound: link_view(self.outbound_tx),
            self_id: self.self_id,
            member_id: self.member_id,
            member_endpoint: self.member_endpoint@,
            term: self.term,
            prev_log_index: self.prev_log_index,
            prev_log_term: self.prev_log_term,
            commit_index: self.commit_index,
            next_index: self.next_index,
            send_heartbeats: self.send_heartbeats,
            last_heartbeat: self.last_heartbeat,
            ongoing_backfill: self.ongoing_backfill,
            pending_tasks: pending_view(self.pending_tasks@),
            pending_write_batches: self.pending_write_batches@,
            pending_append_entries: self.pending_append_entries@,
            next_callback_id: self.next_callback_id,
            max_message_size_bytes: self.max_message_size_bytes,
        }
    }
}

impl WorkerView {
    /// A worker that has done nothing yet, and has no connection.
    pub open spec fn idle(
        self_id: u32,
        next_index: u64,
        member_id: u64,
        member_endpoint: Seq<char>,
        next_callback_id: u64,
        max_message_size_bytes: usize,
    ) -> WorkerView {
        WorkerView {
            work_queue: Seq::empty(),
            inbound: Seq::empty(),
            response_queue: Seq::empty(),
            task_queue: Seq::empty(),
            client_responses: Seq::empty(),
            outbound: None,
            self_id,
            member_id,
            member_endpoint,
            term: 0,
            prev_log_index: 0,
            prev_log_term: 0,
            commit_index: 0,
            next_index,
            send_heartbeats: false,
            last_heartbeat: 0,
            ongoing_backfill: None,
            pending_tasks: Seq::empty(),
            pending_write_batches: Map::empty(),
            pending_append_entries: Map::empty(),
            next_callback_id,
            max_message_size_bytes,
        }
    }

    /// The worker once `message` has been offered to the connection.
    pub open spec fn sending(self, message: MessageView, accepted: bool) -> WorkerView {
        WorkerView { outbound: offering(self.outbound, message, accepted), ..self }
    }

    /// The worker once `response` waits for the state machine.
    pub open spec fn reporting(self, response: LocalQuorumResponse) -> WorkerView {
        WorkerView { response_queue: self.response_queue.push(response), ..self }
    }

    /// The worker once `request` waits for the state machine, whose answer is
    /// awaited as `pending`.
    pub open spec fn asking(self, request: RaftRequestView, pending: PendingView) -> WorkerView {
        let callback = Callback { id: self.next_callback_id };
        WorkerView {
            task_queue: self.task_queue.push((callback, request)),
            pending_tasks: self.pending_tasks.push((callback, pending)),
            next_callback_id: (self.next_callback_id + 1) as u64,
            ..self
        }
    }
}

impl QuorumWorker {
    pub fn new(
        self_id: u32,
        next_index: u64,
        member_id: u64,
        member_endpoint: String,
        next_callback_id: u64,
        max_message_size_bytes: usize,
    ) -> (worker: Self)
        ensures
            worker@ == WorkerView::idle(
                self_id,
                next_index,
                member_id,
                member_endpoint@,
                next_callback_id,
                max_message_size_bytes,
            ),
    {
        broadcast use vstd::std_specs::hash::group_hash_axioms;

        let worker = QuorumWorker {
            work_queue: Vec::new(),
            inbound: Vec::new(),
            response_queue: Vec::new(),
            task_queue: Vec::new(),
            client_responses: Vec::new(),
            outbound_tx: None,
            self_id,
            member_id,
            member_endpoint,
            term: 0,
            prev_log_index: 0,
            prev_log_term: 0,
            commit_index: 0,
            next_index,
            send_heartbeats: false,
            last_heartbeat: 0,
            ongoing_backfill: None,
            pending_tasks: Vec::new(),
            pending_write_batches: StringHashMap::new(),
            pending_append_entries: HashMap::new(),
            next_callback_id,
            max_message_size_bytes,
        };
        assert(worker@.work_queue =~= Seq::empty());
        assert(worker@.inbound =~= Seq::empty());
        assert(worker@.task_queue =~= Seq::empty());
        assert(worker@.client_responses =~= Seq::empty());
        assert(worker@.pending_tasks =~= Seq::empty());
        worker
    }

    /// Forgets the connection to the peer.
    pub fn reset_connections(&mut self)
        ensures
            final(self)@ == (WorkerView { outbound: None, ..old(self)@ }),
    {
        self.outbound_tx = None;
    }

    /// Offers a message to the connection. Says whether it was sent.
    pub(crate) fn send(&mut self, message: RemoteQuorumMessage) -> (sent: bool)
        ensures
            final(self)@ == old(self)@.sending(message@, sent),
            old(self)@.outbound is None ==> !sent,
    {
        let member_id: u64 = self.member_id;
        outbound::send_message(&mut self.outbound_tx, message, member_id)
    }

    /// Leaves a response for the state machine.
    pub(crate) fn report(&mut self, response: LocalQuorumResponse)
        ensures
            final(self)@ == old(self)@.reporting(response),
    {
        self.response_queue.push(response);
    }

    /// Leaves a request for the state machine, and waits for the answer.
    pub(crate) fn ask(&mut self, payload: LocalRaftMessagePayload, task: PendingQuorumTaskEnum)
        requires
            old(self)@.next_callback_id < u64::MAX,
        ensures
            ({
                let callback = Callback { id: old(self)@.next_callback_id };
                final(self)@ == old(self)@.asking(
                    (LocalRaftMessage { payload, callback })@.1,
                    (PendingQuorumTask { callback, task })@.1,
                )
            }),
    {
        let callback = Callback { id: self.next_callback_id };
        self.next_callback_id = self.next_callback_id + 1;
        let message = LocalRaftMessage { payload, callback };
        let pending = PendingQuorumTask { callback, task };
        self.task_queue.push(message);
        self.pending_tasks.push(pending);
        assert(self@.task_queue =~= old(self)@.task_queue.push(message@));
        assert(self@.pending_tasks =~= old(self)@.pending_tasks.push(pending@));
    }
}

impl CapnpQuorumWorker {
    pub fn new(
        self_id: u32,
        next_index: u64,
        member_id: u64,
        member_endpoint: String,
        next_callback_id: u64,
        max_message_size_bytes: usize,
    ) -> (worker: Self)
        ensures
            worker.worker@ == WorkerView::idle(
                self_id,
                next_index,
                member_id,
                member_endpoint@,
                next_callback_id,
                max_message_size_bytes,
            ),
    {
        CapnpQuorumWorker {
            worker: QuorumWorker::new(
                self_id,
                next_index,
                member_id,
                member_endpoint,
                next_callback_id,
                max_message_size_bytes,
            ),
        }
    }
}

} // verus!
