//! Outstanding message handling: persistence and quorum responses.

use crate::persistence::worker::PersistenceResponseType;
use crate::quorum::types::{
    LocalQuorumResponse, LocalQuorumTaskResponseType, LocalQuorumWorkerTask,
    LocalQuorumWorkerTaskType, TaskView,
};
use crate::raft::broadcast;
use crate::raft::raft_sm::{
    Callback, LocalRaftResponsePayload, LocalRaftWriteBatchResponse, OutstandingMessage,
    OutstandingMessageType, ResponseView,
};
use crate::raft::shared_state::{self, BusView, SharedState, StateView};
use vstd::prelude::*;

verus! {

impl StateView {
    /// The state once the entries up to `index` are committed, where `bus` is
    /// what has become of their broadcast. Nothing changes if they were already.
    pub open spec fn committing(self, index: u64, bus: BusView) -> StateView {
        if index > self.commit_index {
            (StateView { commit_index: index, published_commit_index: index, bus, ..self }).dispatching(
                TaskView::UpdateCommitIndex { commit_index: index },
            )
        } else {
            self
        }
    }

    /// Whether `bus` is a possible outcome of committing the entries up to `index`.
    pub open spec fn may_broadcast(self, index: u64, bus: BusView) -> bool {
        if index > self.commit_index {
            (BusView { version: broadcast::bumped(self.bus.version, 1), ..self.bus }).broadcast_to(
                self.log,
                index,
                bus,
            )
        } else {
            bus == self.bus
        }
    }

    /// Whether `after` comes of completing `message`: what it waited for is
    /// committed, and the client of a write batch is told.
    pub open spec fn completes(self, message: OutstandingMessage, after: StateView) -> bool {
        match message.index() {
            Some(index) => {
                let committed = self.committing(index, after.bus);
                &&& self.may_broadcast(index, after.bus)
                &&& after == match message.message_type {
                    OutstandingMessageType::WriteBatch { callback, .. } => committed.answering(
                        callback,
                        ResponseView::batch(None),
                    ),
                    _ => committed,
                }
            },
            None => false,
        }
    }

    /// Whether `after` comes of the report that the log entry of message `id` is on disk.
    ///
    /// A write or a no-op is complete once a quorum has acknowledged it too;
    /// until then it waits for the quorum.
    pub open spec fn log_persisted(self, id: u64, after: StateView) -> bool {
        if !self.outstanding.contains_key(id) {
            after == self
        } else {
            let message = self.outstanding[id];
            match message.message_type {
                OutstandingMessageType::RequestVote { callback } => after == self.forgetting(
                    id,
                ).answering(callback, ResponseView::RequestVote(true)),
                OutstandingMessageType::WriteBatch { .. } | OutstandingMessageType::NoOp { .. } => {
                    if message.acks() >= self.quorum_size {
                        self.forgetting(id).completes(message, after)
                    } else {
                        after == self.waiting(id, message.progressed(true, message.acks()))
                    }
                },
                _ => after == self.forgetting(id),
            }
        }
    }

    /// Whether `after` comes of the report that the vote of message `id` is on disk.
    pub open spec fn vote_persisted(self, id: u64, after: StateView) -> bool {
        if !self.outstanding.contains_key(id) {
            after == self
        } else {
            after == match self.outstanding[id].message_type {
                OutstandingMessageType::RequestVote { callback } => self.forgetting(id).answering(
                    callback,
                    ResponseView::RequestVote(true),
                ),
                _ => self.forgetting(id),
            }
        }
    }

    /// Whether `after` comes of an acknowledgement of message `id` by one peer.
    ///
    /// A write or a no-op is complete once a quorum has acknowledged it and it
    /// is on the disk of this node; until then it waits for what is missing,
    /// as long as a response can still come.
    pub open spec fn append_acknowledged(self, id: u64, after: StateView) -> bool {
        if !self.outstanding.contains_key(id) {
            after == self
        } else {
            let message = self.outstanding[id];
            match message.message_type {
                OutstandingMessageType::WriteBatch { .. } | OutstandingMessageType::NoOp { .. } => {
                    if message.acks() + 1 >= self.quorum_size && message.is_persisted() {
                        self.forgetting(id).completes(message, after)
                    } else if message.outstanding_responses > 1 {
                        after == self.waiting(
                            id,
                            message.progressed(message.is_persisted(), message.acks() + 1),
                        )
                    } else {
                        after == self.forgetting(id)
                    }
                },
                _ => after == self.forgetting(id),
            }
        }
    }

    /// Whether a leader comes to `after` by one report of the persistence worker.
    pub open spec fn leader_persistence_step(
        self,
        event: PersistenceResponseType,
        after: StateView,
    ) -> bool {
        match event {
            PersistenceResponseType::LogPersisted { id } => self.log_persisted(id, after),
            PersistenceResponseType::VotePersisted { id, .. } => self.vote_persisted(id, after),
        }
    }

    /// Whether a leader comes to `after` by the reports `events`, one after the other.
    pub open spec fn leader_persistence_run(
        self,
        events: Seq<PersistenceResponseType>,
        after: StateView,
    ) -> bool
        decreases events.len(),
    {
        if events.len() == 0 {
            after == self
        } else {
            exists|middle: StateView|
                self.leader_persistence_run(events.drop_last(), middle)
                    && #[trigger] middle.leader_persistence_step(events.last(), after)
        }
    }

    /// Whether a leader comes to `after` by one response of a quorum worker.
    pub open spec fn leader_quorum_step(
        self,
        event: LocalQuorumResponse,
        after: StateView,
    ) -> bool {
        match event.response_type {
            LocalQuorumTaskResponseType::AppendEntries { id, .. } => self.append_acknowledged(
                id,
                after,
            ),
            _ => after == self,
        }
    }

    /// Whether a leader comes to `after` by the responses `events`, one after the other.
    pub open spec fn leader_quorum_run(
        self,
        events: Seq<LocalQuorumResponse>,
        after: StateView,
    ) -> bool
        decreases events.len(),
    {
        if events.len() == 0 {
            after == self
        } else {
            exists|middle: StateView|
                self.leader_quorum_run(events.drop_last(), middle)
                    && #[trigger] middle.leader_quorum_step(events.last(), after)
        }
    }
}

impl StateView {
    /// Whether `after` differs from this state in nothing that a leader only
    /// reads while it processes responses. The commit index does not go back.
    pub open spec fn led_to(self, after: StateView) -> bool {
        &&& self.commit_index <= after.commit_index
        &&& after == (StateView {
            commit_index: after.commit_index,
            published_commit_index: after.published_commit_index,
            bus: after.bus,
            outstanding: after.outstanding,
            tasks: after.tasks,
            responses: after.responses,
            ..self
        })
        &&& after.tasks.len() == self.tasks.len()
    }
}

/// A leader that is told what is on disk keeps its log, its term and its votes,
/// and its commit index does not go back.
pub proof fn law_persistence_responses_keep_log(
    before: StateView,
    events: Seq<PersistenceResponseType>,
    after: StateView,
)
    requires
        before.leader_persistence_run(events, after),
    ensures
        before.led_to(after),
    decreases events.len(),
{
    if events.len() > 0 {
        let middle = choose|middle: StateView|
            before.leader_persistence_run(events.drop_last(), middle)
                && #[trigger] middle.leader_persistence_step(events.last(), after);
        law_persistence_responses_keep_log(before, events.drop_last(), middle);
    }
}

/// A leader that is told what its peers have acknowledged keeps its log, its
/// term and its votes, and its commit index does not go back.
pub proof fn law_quorum_responses_keep_log(
    before: StateView,
    events: Seq<LocalQuorumResponse>,
    after: StateView,
)
    requires
        before.leader_quorum_run(events, after),
    ensures
        before.led_to(after),
    decreases events.len(),
{
    if events.len() > 0 {
        let middle = choose|middle: StateView|
            before.leader_quorum_run(events.drop_last(), middle)
                && #[trigger] middle.leader_quorum_step(events.last(), after);
        law_quorum_responses_keep_log(before, events.drop_last(), middle);
    }
}

/// The backfill requests among the responses of the quorum workers, as
/// `(quorum_node_id, last_log_term, last_log_index)`.
pub open spec fn backfill_requests(events: Seq<LocalQuorumResponse>) -> Seq<(u64, u64, u64)>
    decreases events.len(),
{
    if events.len() == 0 {
        Seq::empty()
    } else {
        let earlier = backfill_requests(events.drop_last());
        match events.last().response_type {
            LocalQuorumTaskResponseType::BackfillLog {
                quorum_node_id,
                last_log_term,
                last_log_index,
            } => earlier.push((quorum_node_id, last_log_term, last_log_index)),
            _ => earlier,
        }
    }
}

/// Completing a message leaves the counters of the others alone.
proof fn lemma_completes_room(
    before: StateView,
    message: OutstandingMessage,
    after: StateView,
    events: int,
)
    requires
        before.has_room(events),
        before.completes(message, after),
    ensures
        after.has_room(events),
{
    assert forall|id: u64| #[trigger] after.outstanding.contains_key(id) implies after.outstanding[id].has_room(
        events,
    ) by {
        assert(before.outstanding.contains_key(id));
    }
}

/// There are no more backfill requests than responses.
pub proof fn lemma_backfill_requests_len(events: Seq<LocalQuorumResponse>)
    ensures
        backfill_requests(events).len() <= events.len(),
    decreases events.len(),
{
    if events.len() > 0 {
        lemma_backfill_requests_len(events.drop_last());
    }
}

/// A report of the persistence worker takes at most one from the room of the counters.
pub proof fn lemma_leader_persistence_room(
    before: StateView,
    event: PersistenceResponseType,
    after: StateView,
    events: int,
)
    requires
        1 <= events,
        before.has_room(events),
        before.leader_persistence_step(event, after),
    ensures
        after.has_room(events - 1),
{
    let id = match event {
        PersistenceResponseType::LogPersisted { id } => id,
        PersistenceResponseType::VotePersisted { id, .. } => id,
    };
    shared_state::lemma_outstanding_room(before, id, events);
    if event is LogPersisted && before.outstanding.contains_key(id) {
        let message = before.outstanding[id];
        if message.index() is Some {
            if message.acks() >= before.quorum_size {
                lemma_completes_room(before.forgetting(id), message, after, events - 1);
            } else {
                assert(message.progressed(true, message.acks()).has_room(events - 1));
            }
        }
    }
}

/// A response of a quorum worker takes at most one from the room of the counters.
pub proof fn lemma_leader_quorum_room(
    before: StateView,
    event: LocalQuorumResponse,
    after: StateView,
    events: int,
)
    requires
        1 <= events,
        before.has_room(events),
        before.leader_quorum_step(event, after),
    ensures
        after.has_room(events - 1),
{
    shared_state::lemma_outstanding_room(before, 0, events);
    if let LocalQuorumTaskResponseType::AppendEntries { id, .. } = event.response_type {
        shared_state::lemma_outstanding_room(before, id, events);
        if before.outstanding.contains_key(id) {
            let message = before.outstanding[id];
            if message.index() is Some {
                if message.acks() + 1 >= before.quorum_size && message.is_persisted() {
                    lemma_completes_room(before.forgetting(id), message, after, events - 1);
                } else if message.outstanding_responses > 1 {
                    assert(message.progressed(
                        message.is_persisted(),
                        message.acks() + 1,
                    ).has_room(events - 1));
                }
            }
        }
    }
}

/// Commits the entries up to `index`, unless they are committed already.
fn commit(index: u64, shared_state: &mut SharedState)
    ensures
        final(shared_state)@ == old(shared_state)@.committing(index, final(shared_state)@.bus),
        old(shared_state)@.may_broadcast(index, final(shared_state)@.bus),
{
    if index > shared_state.volatile_server_state.commit_index {
        shared_state.volatile_server_state.commit_index = index;
        shared_state.volatile_server_state.commit_state.commit_index = index;
        shared_state.bump_version();
        shared_state.broadcast_committed_entries(index);
        shared_state.dispatch_task(
            &LocalQuorumWorkerTask {
                task_type: LocalQuorumWorkerTaskType::UpdateCommitIndex { commit_index: index },
            },
        );
    }
}

/// Completes a write batch by updating commit state and sending the callback response.
fn complete_write_batch(index: u64, callback: Callback, shared_state: &mut SharedState)
    ensures
        final(shared_state)@ == old(shared_state)@.committing(
            index,
            final(shared_state)@.bus,
        ).answering(callback, ResponseView::batch(None)),
        old(shared_state)@.may_broadcast(index, final(shared_state)@.bus),
{
    commit(index, shared_state);
    let response = LocalRaftWriteBatchResponse::of_batch(None);
    shared_state.respond(callback, LocalRaftResponsePayload::WriteBatch(response));
}

/// Completes a no-op entry by updating commit state.
/// No callback is needed since no-op entries are internal to the leader.
fn complete_noop(index: u64, shared_state: &mut SharedState)
    ensures
        final(shared_state)@ == old(shared_state)@.committing(index, final(shared_state)@.bus),
        old(shared_state)@.may_broadcast(index, final(shared_state)@.bus),
{
    commit(index, shared_state);
}

/// Handles a LogPersisted event from the persistence worker.
pub fn handle_log_persisted(id: u64, shared_state: &mut SharedState)
    requires
        old(shared_state)@.has_room(1),
    ensures
        old(shared_state)@.log_persisted(id, final(shared_state)@),
{
    if let Some(message) = shared_state.take_outstanding(id) {
        match message.message_type {
            OutstandingMessageType::WriteBatch {
                persistence_done: _,
                quorum_acks,
                callback,
                index,
                start_time,
                batch_size,
            } => {
                if quorum_acks >= shared_state.quorum_size {
                    complete_write_batch(index, callback, shared_state);
                } else {
                    let message_type = OutstandingMessageType::WriteBatch {
                        persistence_done: true,
                        quorum_acks,
                        callback,
                        index,
                        start_time,
                        batch_size,
                    };
                    let outstanding_responses: i32 = message.outstanding_responses - 1;
                    shared_state.keep_waiting(
                        id,
                        OutstandingMessage { id: message.id, outstanding_responses, message_type },
                    );
                    assert(shared_state@.outstanding =~= old(shared_state)@.outstanding.insert(
                        id,
                        message.progressed(true, message.acks()),
                    ));
                }
            },
            OutstandingMessageType::RequestVote { callback } => {
                shared_state.respond(callback, LocalRaftResponsePayload::RequestVote(true));
            },
            OutstandingMessageType::NoOp { persistence_done: _, quorum_acks, index } => {
                if quorum_acks >= shared_state.quorum_size {
                    complete_noop(index, shared_state);
                } else {
                    let message_type = OutstandingMessageType::NoOp {
                        persistence_done: true,
                        quorum_acks,
                        index,
                    };
                    let outstanding_responses: i32 = message.outstanding_responses - 1;
                    shared_state.keep_waiting(
                        id,
                        OutstandingMessage { id: message.id, outstanding_responses, message_type },
                    );
                    assert(shared_state@.outstanding =~= old(shared_state)@.outstanding.insert(
                        id,
                        message.progressed(true, message.acks()),
                    ));
                }
            },
            _ => {},
        }
    } else {
        assert(shared_state@.outstanding =~= old(shared_state)@.outstanding);
    }
}

/// Handles a VotePersisted event from the persistence worker.
pub fn handle_vote_persisted(id: u64, shared_state: &mut SharedState)
    ensures
        old(shared_state)@.vote_persisted(id, final(shared_state)@),
{
    if let Some(message) = shared_state.take_outstanding(id) {
        if let OutstandingMessageType::RequestVote { callback } = message.message_type {
            shared_state.respond(callback, LocalRaftResponsePayload::RequestVote(true));
        }
    } else {
        assert(shared_state@.outstanding =~= old(shared_state)@.outstanding);
    }
}

/// Handles an AppendEntries ack from a quorum worker.
pub fn handle_append_entries_response(id: u64, shared_state: &mut SharedState)
    requires
        old(shared_state)@.has_room(1),
    ensures
        old(shared_state)@.append_acknowledged(id, final(shared_state)@),
{
    if let Some(message) = shared_state.take_outstanding(id) {
        let outstanding_responses: i32 = message.outstanding_responses - 1;
        match message.message_type {
            OutstandingMessageType::WriteBatch {
                persistence_done,
                quorum_acks,
                callback,
                index,
                start_time,
                batch_size,
            } => {
                let new_acks: u32 = quorum_acks + 1;
                if new_acks >= shared_state.quorum_size && persistence_done {
                    complete_write_batch(index, callback, shared_state);
                } else if outstanding_responses > 0 {
                    let message_type = OutstandingMessageType::WriteBatch {
                        persistence_done,
                        quorum_acks: new_acks,
                        callback,
                        index,
                        start_time,
                        batch_size,
                    };
                    shared_state.keep_waiting(
                        id,
                        OutstandingMessage { id: message.id, outstanding_responses, message_type },
                    );
                    assert(shared_state@.outstanding =~= old(shared_state)@.outstanding.insert(
                        id,
                        message.progressed(message.is_persisted(), message.acks() + 1),
                    ));
                }
            },
            OutstandingMessageType::NoOp { persistence_done, quorum_acks, index } => {
                let new_acks: u32 = quorum_acks + 1;
                if new_acks >= shared_state.quorum_size && persistence_done {
                    complete_noop(index, shared_state);
                } else if outstanding_responses > 0 {
                    let message_type = OutstandingMessageType::NoOp {
                        persistence_done,
                        quorum_acks: new_acks,
                        index,
                    };
                    shared_state.keep_waiting(
                        id,
                        OutstandingMessage { id: message.id, outstanding_responses, message_type },
                    );
                    assert(shared_state@.outstanding =~= old(shared_state)@.outstanding.insert(
                        id,
                        message.progressed(message.is_persisted(), message.acks() + 1),
                    ));
                }
            },
            _ => {},
        }
    } else {
        assert(shared_state@.outstanding =~= old(shared_state)@.outstanding);
    }
}

/// Processes persistence responses from the persistence worker.
/// Returns the number of responses processed.
pub fn process_persistence_responses(shared_state: &mut SharedState) -> (count: u64)
    requires
        old(shared_state)@.has_room(old(shared_state)@.persistence_response.len() as int),
    ensures
        count == old(shared_state)@.persistence_response.len(),
        (StateView {
            persistence_response: Seq::empty(),
            ..old(shared_state)@
        }).leader_persistence_run(old(shared_state)@.persistence_response, final(shared_state)@),
        forall|room: int|
            old(shared_state)@.has_room(room + count) && 0 <= room ==> #[trigger] final(shared_state)@.has_room(room),
{
    let events = shared_state.take_persistence_responses();
    let ghost start = shared_state@;
    let ghost all = events@;
    let mut done: usize = 0;
    assert(all.take(0) =~= Seq::empty());
    while done < events.len()
        invariant
            all == events@,
            done <= all.len(),
            start.leader_persistence_run(all.take(done as int), shared_state@),
            shared_state@.has_room(all.len() - done),
            forall|room: int|
                start.has_room(room + done) && 0 <= room ==> #[trigger] shared_state@.has_room(
                    room,
                ),
        decreases all.len() - done,
    {
        let ghost before = shared_state@;
        let event = events[done];
        match event {
            PersistenceResponseType::LogPersisted { id } => {
                handle_log_persisted(id, shared_state);
            },
            PersistenceResponseType::VotePersisted { id, term: _, candidate_id: _ } => {
                handle_vote_persisted(id, shared_state);
            },
        }
        proof {
            assert(all.take(done + 1).drop_last() =~= all.take(done as int));
            assert(before.leader_persistence_step(all.take(done + 1).last(), shared_state@));
            lemma_leader_persistence_room(before, event, shared_state@, all.len() - done);
            assert forall|room: int| start.has_room(room + done + 1) && 0
                <= room implies #[trigger] shared_state@.has_room(room) by {
                assert(before.has_room(room + 1));
                lemma_leader_persistence_room(before, event, shared_state@, room + 1);
            }
        }
        done = done + 1;
    }
    assert(all.take(done as int) =~= all);
    done as u64
}

/// Processes quorum responses from quorum workers.
/// Returns (backfill_requests, work_done_count).
pub fn process_quorum_responses(shared_state: &mut SharedState) -> (result: (
    Vec<(u64, u64, u64)>,
    u64,
))
    requires
        old(shared_state)@.has_room(old(shared_state)@.quorum_response.len() as int),
    ensures
        result.0@ == backfill_requests(old(shared_state)@.quorum_response),
        result.1 == old(shared_state)@.quorum_response.len(),
        (StateView { quorum_response: Seq::empty(), ..old(shared_state)@ }).leader_quorum_run(
            old(shared_state)@.quorum_response,
            final(shared_state)@,
        ),
        forall|room: int|
            old(shared_state)@.has_room(room + result.1) && 0 <= room ==> #[trigger] final(shared_state)@.has_room(room),
{
    let events = shared_state.take_quorum_responses();
    let mut requests: Vec<(u64, u64, u64)> = Vec::new();
    let ghost start = shared_state@;
    let ghost all = events@;
    let mut done: usize = 0;
    assert(all.take(0) =~= Seq::empty());
    while done < events.len()
        invariant
            all == events@,
            done <= all.len(),
            requests@ == backfill_requests(all.take(done as int)),
            start.leader_quorum_run(all.take(done as int), shared_state@),
            shared_state@.has_room(all.len() - done),
            forall|room: int|
                start.has_room(room + done) && 0 <= room ==> #[trigger] shared_state@.has_room(
                    room,
                ),
        decreases all.len() - done,
    {
        let ghost before = shared_state@;
        let event = events[done];
        match event.response_type {
            LocalQuorumTaskResponseType::AppendEntries { id, ok: _ } => {
                handle_append_entries_response(id, shared_state);
            },
            LocalQuorumTaskResponseType::BackfillLog {
                quorum_node_id,
                last_log_term,
                last_log_index,
            } => {
                requests.push((quorum_node_id, last_log_term, last_log_index));
            },
            _ => {},
        }
        proof {
            assert(all.take(done + 1).drop_last() =~= all.take(done as int));
            assert(before.leader_quorum_step(all.take(done + 1).last(), shared_state@));
            lemma_leader_quorum_room(before, event, shared_state@, all.len() - done);
            assert forall|room: int| start.has_room(room + done + 1) && 0
                <= room implies #[trigger] shared_state@.has_room(room) by {
                assert(before.has_room(room + 1));
                lemma_leader_quorum_room(before, event, shared_state@, room + 1);
            }
        }
        done = done + 1;
    }
    assert(all.take(done as int) =~= all);
    (requests, done as u64)
}

} // verus!
