//! The state of a node, which its three roles share.

use crate::persistence::worker::{PersistenceResponseType, PersistenceTaskType, PersistenceTaskView};
use crate::quorum::types::{LocalQuorumResponse, LocalQuorumWorkerTask, TaskView};
use crate::raft::raft_sm::{
    Callback, CommitState, LocalRaftResponseMessage, LocalRaftResponsePayload, OutstandingMessage,
    OutstandingMessageType, RaftServerState, ResponseView, StateMachineConfig,
};
use crate::service_utils::channels;
use crate::service_utils::storage_utils::SerializationData;
use std::collections::HashMap;
use std::sync::Arc;
use vstd::prelude::*;

verus! {

broadcast use vstd::std_specs::hash::group_hash_axioms;

pub struct RaftVolatileState {
    pub commit_index: u64,
    pub last_applied: u64,
    pub last_log_index: u64,
    pub last_log_term: u64,
    /// 1 more than the largest term value seen.
    pub next_term: u64,
    pub next_log_index: u64,
    pub replication_log: Vec<Arc<SerializationData>>,
    pub replication_log_term_starts: HashMap<u64, u64>,
    pub commit_state: CommitState,
    /// Tracks the highest log index that has been broadcast to the bus.
    /// `None` means no entries have been broadcast yet.
    /// Only committed entries are broadcast to ensure query workers never see truncated data.
    pub last_broadcast_index: Option<u64>,
    /// Indicates that there are deferred broadcasts pending.
    /// When true, time_step will retry broadcasting remaining entries.
    pub has_deferred_broadcast: bool,
}

/// An answer, and the caller that waits for it.
#[derive(Debug)]
pub struct CallbackResponse {
    pub callback: Callback,
    pub message: LocalRaftResponseMessage,
}

/// The state of one node, shared by its three roles.
///
/// `persistence_response` and `quorum_response` hold what has arrived and is
/// still to be processed, oldest first. `quorum_worker_tasks` and `responses`
/// hold what is to be delivered, oldest first.
pub struct SharedState {
    pub server_state: RaftServerState,
    pub volatile_server_state: RaftVolatileState,
    pub persistence_work: crossbeam_channel::Sender<PersistenceTaskType>,
    pub persistence_response: Vec<PersistenceResponseType>,
    pub quorum_response: Vec<LocalQuorumResponse>,
    pub identity: u32,
    /// Term -> candidate_id that was voted for.
    pub term_votes: HashMap<u64, u32>,
    pub next_message_id: u64,
    pub outstanding_messages: HashMap<u64, OutstandingMessage>,
    pub quorum_size: u32,
    pub quorum_worker_tasks: Vec<Vec<LocalQuorumWorkerTask>>,
    pub state_machine_config: StateMachineConfig,
    pub log_entry_bus: bus::Bus<Arc<SerializationData>>,
    pub responses: Vec<CallbackResponse>,
    /// By which the node tells the time.
    pub anchor: minstant::Anchor,
}

/// How far the broadcast of committed entries has come.
#[verifier::ext_equal]
pub struct BusView {
    /// The entries that were offered to the bus, each with whether it was accepted.
    pub offers: Seq<(Arc<SerializationData>, bool)>,
    /// The highest log index that has been broadcast.
    pub last_index: Option<u64>,
    /// Whether a committed entry is still to be broadcast.
    pub deferred: bool,
    /// Grows whenever a reader should look again.
    pub version: u64,
}

/// What a [`SharedState`] holds.
#[verifier::ext_equal]
pub struct StateView {
    pub current_term: u64,
    pub leader_id: u32,
    pub commit_index: u64,
    pub last_applied: u64,
    pub last_log_index: u64,
    pub last_log_term: u64,
    pub next_term: u64,
    pub next_log_index: u64,
    pub log: Seq<Arc<SerializationData>>,
    pub term_starts: Map<u64, u64>,
    /// The commit index that the readers of the log are told.
    pub published_commit_index: u64,
    /// The broadcast of committed entries.
    pub bus: BusView,
    /// The persistence tasks that were offered, each with whether it was accepted.
    pub persistence_tasks: Seq<(PersistenceTaskView, bool)>,
    pub persistence_response: Seq<PersistenceResponseType>,
    pub quorum_response: Seq<LocalQuorumResponse>,
    pub identity: u32,
    pub term_votes: Map<u64, u32>,
    pub next_message_id: u64,
    pub outstanding: Map<u64, OutstandingMessage>,
    pub quorum_size: u32,
    /// The tasks that wait for each quorum worker.
    pub tasks: Seq<Seq<TaskView>>,
    pub config: StateMachineConfig,
    /// The answers that wait to be delivered.
    pub responses: Seq<(Callback, ResponseView)>,
    pub anchor: minstant::Anchor,
}

/// The tasks in the queue of one worker.
pub open spec fn queue_view(queue: Seq<LocalQuorumWorkerTask>) -> Seq<TaskView> {
    queue.map_values(|t: LocalQuorumWorkerTask| t@)
}

/// The tasks in the queues of all workers.
pub open spec fn queues_view(queues: Seq<Vec<LocalQuorumWorkerTask>>) -> Seq<Seq<TaskView>> {
    queues.map_values(|q: Vec<LocalQuorumWorkerTask>| queue_view(q@))
}

/// The answers in a list of answers.
pub open spec fn responses_view(responses: Seq<CallbackResponse>) -> Seq<(Callback, ResponseView)> {
    responses.map_values(|r: CallbackResponse| (r.callback, r.message@))
}

impl View for SharedState {
    type V = StateView;

    open spec fn view(&self) -> StateView {
        StateView {
            current_term: self.server_state.current_term,
            leader_id: self.server_state.leader_id,
            commit_index: self.volatile_server_state.commit_index,
            last_applied: self.volatile_server_state.last_applied,
            last_log_index: self.volatile_server_state.last_log_index,
            last_log_term: self.volatile_server_state.last_log_term,
            next_term: self.volatile_server_state.next_term,
            next_log_index: self.volatile_server_state.next_log_index,
            log: self.volatile_server_state.replication_log@,
            term_starts: self.volatile_server_state.replication_log_term_starts@,
            published_commit_index: self.volatile_server_state.commit_state.commit_index,
            bus: BusView {
                offers: channels::offered_entries(self.log_entry_bus),
                last_index: self.volatile_server_state.last_broadcast_index,
                deferred: self.volatile_server_state.has_deferred_broadcast,
                version: self.volatile_server_state.commit_state.version,
            },
            persistence_tasks: channels::offered_tasks(self.persistence_work),
            persistence_response: self.persistence_response@,
            quorum_response: self.quorum_response@,
            identity: self.identity,
            term_votes: self.term_votes@,
            next_message_id: self.next_message_id,
            outstanding: self.outstanding_messages@,
            quorum_size: self.quorum_size,
            tasks: queues_view(self.quorum_worker_tasks@),
            config: self.state_machine_config,
            responses: responses_view(self.responses@),
            anchor: self.anchor,
        }
    }
}

impl OutstandingMessage {
    /// How many votes or acknowledgements have come in.
    pub open spec fn acks(self) -> int {
        match self.message_type {
            OutstandingMessageType::CandidateElection { quorum_votes, .. } => quorum_votes as int,
            OutstandingMessageType::WriteBatch { quorum_acks, .. } => quorum_acks as int,
            OutstandingMessageType::NoOp { quorum_acks, .. } => quorum_acks as int,
            OutstandingMessageType::RequestVote { .. } => 0,
            OutstandingMessageType::AppendLog { .. } => 0,
        }
    }

    /// The log index that a write or a no-op waits to commit.
    pub open spec fn index(self) -> Option<u64> {
        match self.message_type {
            OutstandingMessageType::WriteBatch { index, .. } => Some(index),
            OutstandingMessageType::NoOp { index, .. } => Some(index),
            _ => None,
        }
    }

    /// Whether the entry that the message waits for is on the disk of this node.
    pub open spec fn is_persisted(self) -> bool {
        match self.message_type {
            OutstandingMessageType::CandidateElection { persistence_done, .. } => persistence_done,
            OutstandingMessageType::WriteBatch { persistence_done, .. } => persistence_done,
            OutstandingMessageType::NoOp { persistence_done, .. } => persistence_done,
            OutstandingMessageType::RequestVote { .. } => false,
            OutstandingMessageType::AppendLog { .. } => false,
        }
    }

    /// The message once one response more has come in: `persisted` and `acks`
    /// say what is known after it.
    pub open spec fn progressed(self, persisted: bool, acks: int) -> OutstandingMessage {
        OutstandingMessage {
            outstanding_responses: (self.outstanding_responses - 1) as i32,
            message_type: match self.message_type {
                OutstandingMessageType::CandidateElection { .. } =>
                    OutstandingMessageType::CandidateElection {
                    persistence_done: persisted,
                    quorum_votes: acks as u32,
                },
                OutstandingMessageType::WriteBatch {
                    callback,
                    index,
                    start_time,
                    batch_size,
                    ..
                } => OutstandingMessageType::WriteBatch {
                    persistence_done: persisted,
                    quorum_acks: acks as u32,
                    callback,
                    index,
                    start_time,
                    batch_size,
                },
                OutstandingMessageType::NoOp { index, .. } => OutstandingMessageType::NoOp {
                    persistence_done: persisted,
                    quorum_acks: acks as u32,
                    index,
                },
                other => other,
            },
            ..self
        }
    }

    /// Whether the counters of the message can take `events` more events.
    pub open spec fn has_room(self, events: int) -> bool {
        &&& self.outstanding_responses - events >= i32::MIN
        &&& self.acks() + events <= u32::MAX
    }
}

impl StateView {
    /// Whether the counters of the state can take `events` more events.
    pub open spec fn has_room(self, events: int) -> bool {
        &&& events <= i32::MAX
        &&& self.next_message_id + 2 * events <= u64::MAX
        &&& self.next_term + events <= u64::MAX
        &&& self.next_log_index + events <= u64::MAX
        &&& self.log.len() + events <= u64::MAX
        &&& self.tasks.len() < i32::MAX
        &&& forall|id: u64| #[trigger]
            self.outstanding.contains_key(id) ==> self.outstanding[id].has_room(events)
    }

    /// How many events have arrived and are still to be processed.
    pub open spec fn waiting_events(self) -> int {
        (self.persistence_response.len() + self.quorum_response.len()) as int
    }

    /// The state once every event that has arrived has been taken.
    pub open spec fn emptied(self) -> StateView {
        StateView {
            persistence_response: Seq::empty(),
            quorum_response: Seq::empty(),
            ..self
        }
    }

    /// The state once `response` waits to be delivered to `callback`.
    pub open spec fn answering(self, callback: Callback, response: ResponseView) -> StateView {
        StateView { responses: self.responses.push((callback, response)), ..self }
    }

    /// The state once `task` waits for every quorum worker.
    pub open spec fn dispatching(self, task: TaskView) -> StateView {
        StateView { tasks: self.tasks.map_values(|q: Seq<TaskView>| q.push(task)), ..self }
    }

    /// The state once `task` waits for quorum worker number `worker`, if there is one.
    pub open spec fn tasking(self, worker: int, task: TaskView) -> StateView {
        if 0 <= worker < self.tasks.len() {
            StateView { tasks: self.tasks.update(worker, self.tasks[worker].push(task)), ..self }
        } else {
            self
        }
    }

    /// The state once an identifier has been taken for the next message.
    pub open spec fn with_fresh_message_id(self) -> StateView {
        StateView { next_message_id: (self.next_message_id + 1) as u64, ..self }
    }

    /// The state once `message` waits for responses.
    pub open spec fn registering(self, message: OutstandingMessage) -> StateView {
        StateView { outstanding: self.outstanding.insert(message.id, message), ..self }
    }

    /// The state once nothing waits under `id`.
    pub open spec fn forgetting(self, id: u64) -> StateView {
        StateView { outstanding: self.outstanding.remove(id), ..self }
    }

    /// The state once `message` waits under `id`.
    pub open spec fn waiting(self, id: u64, message: OutstandingMessage) -> StateView {
        StateView { outstanding: self.outstanding.insert(id, message), ..self }
    }

    /// The state once `task` has been offered to the persistence worker.
    pub open spec fn persisting(self, task: PersistenceTaskView, sent: bool) -> StateView {
        StateView { persistence_tasks: self.persistence_tasks.push((task, sent)), ..self }
    }
}

/// What waits under one identifier says nothing of the counters of the others.
pub proof fn lemma_outstanding_room(before: StateView, id: u64, events: int)
    requires
        1 <= events,
        before.has_room(events),
    ensures
        before.has_room(events - 1),
        before.forgetting(id).has_room(events - 1),
        before.outstanding.contains_key(id) ==> forall|message: OutstandingMessage|
            message.has_room(events - 1) ==> #[trigger] before.waiting(id, message).has_room(
                events - 1,
            ),
{
    assert forall|other: u64| #[trigger] before.outstanding.contains_key(other) implies before.outstanding[other].has_room(
        events - 1,
    ) by {
        assert(before.outstanding[other].has_room(events));
    }
    let forgotten = before.forgetting(id);
    assert forall|other: u64| #[trigger] forgotten.outstanding.contains_key(other) implies forgotten.outstanding[other].has_room(
        events - 1,
    ) by {
        assert(before.outstanding.contains_key(other));
    }
    assert forall|message: OutstandingMessage| message.has_room(events - 1)
        && before.outstanding.contains_key(id) implies #[trigger] before.waiting(
        id,
        message,
    ).has_room(events - 1) by {
        let waiting = before.waiting(id, message);
        assert forall|other: u64| #[trigger] waiting.outstanding.contains_key(other) implies waiting.outstanding[other].has_room(
            events - 1,
        ) by {
            if other != id {
                assert(before.outstanding.contains_key(other));
            }
        }
    }
}

/// Room for many events is room for fewer.
pub proof fn lemma_less_room(state: StateView, many: int, few: int)
    requires
        few <= many,
        state.has_room(many),
    ensures
        state.has_room(few),
{
    assert forall|id: u64| #[trigger] state.outstanding.contains_key(id) implies state.outstanding[id].has_room(
        few,
    ) by {
        assert(state.outstanding[id].has_room(many));
    }
}

impl SharedState {
    /// Leaves an answer to be delivered.
    pub(crate) fn respond(&mut self, callback: Callback, payload: LocalRaftResponsePayload)
        ensures
            final(self)@ == old(self)@.answering(
                callback,
                (LocalRaftResponseMessage { payload })@,
            ),
    {
        let response = CallbackResponse { callback, message: LocalRaftResponseMessage { payload } };
        self.responses.push(response);
        assert(self@.responses =~= old(self)@.responses.push((callback, response.message@)));
    }

    /// Sends a task to the persistence worker. Says whether it was sent.
    pub(crate) fn persist(&mut self, task: PersistenceTaskType) -> (sent: bool)
        ensures
            final(self)@ == old(self)@.persisting(task@, sent),
    {
        channels::send_persistence_task(&mut self.persistence_work, task)
    }

    /// Leaves a task for one quorum worker. Does nothing if there is no such worker.
    pub(crate) fn push_task(&mut self, worker: usize, task: LocalQuorumWorkerTask)
        ensures
            final(self)@ == old(self)@.tasking(worker as int, task@),
    {
        if worker < self.quorum_worker_tasks.len() {
            self.quorum_worker_tasks[worker].push(task);
            proof {
                let before = old(self).quorum_worker_tasks@;
                let after = self.quorum_worker_tasks@;
                assert(queue_view(after[worker as int]@) =~= queue_view(
                    before[worker as int]@,
                ).push(task@));
                assert(self@.tasks =~= old(self)@.tasking(worker as int, task@).tasks);
            }
        }
    }

    /// Leaves a task for every quorum worker.
    pub(crate) fn dispatch_task(&mut self, task: &LocalQuorumWorkerTask)
        requires
            task.is_signal(),
        ensures
            final(self)@ == old(self)@.dispatching(task@),
    {
        let workers: usize = self.quorum_worker_tasks.len();
        let mut worker: usize = 0;
        while worker < workers
            invariant
                task.is_signal(),
                workers == self@.tasks.len() == old(self)@.tasks.len(),
                worker <= workers,
                self@ == (StateView { tasks: self@.tasks, ..old(self)@ }),
                forall|i: int|
                    0 <= i < worker ==> #[trigger] self@.tasks[i] == old(self)@.tasks[i].push(
                        task@,
                    ),
                forall|i: int|
                    worker <= i < workers ==> #[trigger] self@.tasks[i] == old(self)@.tasks[i],
            decreases workers - worker,
        {
            self.push_task(worker, task.copy());
            worker = worker + 1;
        }
        assert(self@.tasks =~= old(self)@.dispatching(task@).tasks);
    }

    /// Takes an identifier for the next message.
    pub(crate) fn fresh_message_id(&mut self) -> (id: u64)
        requires
            old(self)@.next_message_id < u64::MAX,
        ensures
            id == old(self)@.next_message_id,
            final(self)@ == old(self)@.with_fresh_message_id(),
    {
        let id: u64 = self.next_message_id;
        self.next_message_id = id + 1;
        id
    }

    /// Registers a message that waits for responses.
    pub(crate) fn register(&mut self, message: OutstandingMessage)
        ensures
            final(self)@ == old(self)@.registering(message),
    {
        self.outstanding_messages.insert(message.id, message);
    }

    /// Lets `message` wait under `id`.
    pub(crate) fn keep_waiting(&mut self, id: u64, message: OutstandingMessage)
        ensures
            final(self)@ == old(self)@.waiting(id, message),
    {
        self.outstanding_messages.insert(id, message);
    }

    /// Takes the message that waits under `id`, if there is one.
    pub(crate) fn take_outstanding(&mut self, id: u64) -> (message: Option<OutstandingMessage>)
        ensures
            final(self)@ == old(self)@.forgetting(id),
            message == if old(self)@.outstanding.contains_key(id) {
                Some(old(self)@.outstanding[id])
            } else {
                None
            },
    {
        let message = self.outstanding_messages.remove(&id);
        assert(self@.outstanding =~= old(self)@.outstanding.remove(id));
        message
    }

    /// Takes everything that the persistence worker has reported.
    pub(crate) fn take_persistence_responses(&mut self) -> (events: Vec<PersistenceResponseType>)
        ensures
            events@ == old(self)@.persistence_response,
            final(self)@ == (StateView { persistence_response: Seq::empty(), ..old(self)@ }),
    {
        let mut events: Vec<PersistenceResponseType> = Vec::new();
        std::mem::swap(&mut events, &mut self.persistence_response);
        events
    }

    /// Takes everything that the quorum workers have reported.
    pub(crate) fn take_quorum_responses(&mut self) -> (events: Vec<LocalQuorumResponse>)
        ensures
            events@ == old(self)@.quorum_response,
            final(self)@ == (StateView { quorum_response: Seq::empty(), ..old(self)@ }),
    {
        let mut events: Vec<LocalQuorumResponse> = Vec::new();
        std::mem::swap(&mut events, &mut self.quorum_response);
        events
    }
}

} // verus!
