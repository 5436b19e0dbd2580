//! Leader state delegate for the Raft consensus protocol.
//!
//! This module contains the leader state implementation split into focused submodules:
//! - `write_batch`: Write batch processing and serialization
//! - `outstanding`: Outstanding message handling (persistence and quorum responses)
//! - `replication`: Log replication and backfill handling

pub mod outstanding;
pub mod replication;
pub mod write_batch;

use crate::quorum::types::{LocalQuorumWorkerTask, LocalQuorumWorkerTaskType, TaskView};
use crate::raft::follower::RaftFollowerStateDelegate;
use crate::raft::raft_sm::{
    Callback, LocalAppendEntries, LocalAppendEntriesCallbackResponse, LocalRaftResponsePayload,
    LocalRaftWriteBatchRequest, LocalRequestVoteRequest, OutstandingMessageType,
    RaftMessageStateChange, RaftNodeType, RaftProtocol, ResponseView,
};
use crate::raft::shared_state::{self, BusView, SharedState, StateView};
use crate::service_utils::app_time::{millis_after, now_millis, MAX_NOW_MILLIS};
use crate::service_utils::random::random_between;
use crate::service_utils::storage_utils::{PutRequestView, SerializationData};
use std::sync::Arc;
use vstd::prelude::*;

verus! {

pub struct RaftLeaderStateDelegate {
    pub election_timeout: u128,
    pub initialized: bool,
}

impl StateView {
    /// The state once the workers send heartbeats, and the next entry goes to
    /// the end of the log. The commit index stays as it is.
    pub open spec fn starting_heartbeats(self) -> StateView {
        (StateView {
            next_log_index: self.log.len() as u64,
            ..self.with_fresh_message_id()
        }).dispatching(
            TaskView::StartHeartbeats {
                id: self.next_message_id,
                term: self.current_term,
                prev_term: self.last_log_term,
                prev_log_index: self.last_log_index,
                commit_index: self.commit_index,
            },
        )
    }

    /// The state of a new leader once it replicates `entry`, an entry without
    /// writes, and once `bus` is what has become of the broadcast of the entries
    /// that were committed before.
    pub open spec fn leading(
        self,
        bus: BusView,
        entry: Arc<SerializationData>,
        sent: bool,
    ) -> StateView {
        let started = StateView { bus, ..self.starting_heartbeats() };
        started.with_fresh_message_id().replicating(
            entry,
            started.next_log_index,
            started.next_message_id,
            sent,
            OutstandingMessageType::NoOp {
                persistence_done: false,
                quorum_acks: 0,
                index: started.next_log_index,
            },
        )
    }

    /// Whether a new leader comes to `after` by taking the lead at `timestamp`.
    pub open spec fn takes_lead(self, timestamp: u64, after: StateView) -> bool {
        &&& if self.commit_index > 0 {
            self.bus.broadcast_to(self.log, self.commit_index, after.bus)
        } else {
            after.bus == self.bus
        }
        &&& exists|entry: Arc<SerializationData>, sent: bool|
            {
                &&& entry@ == self.new_entry(
                    self.log.len() as u64,
                    (self.next_message_id + 1) as u64,
                    timestamp,
                    Seq::<PutRequestView>::empty(),
                )
                &&& after == #[trigger] self.leading(after.bus, entry, sent)
            }
    }

    /// The state of a leader once a leader of a later term has sent it a
    /// request: it steps down.
    pub open spec fn stepping_down(
        self,
        request: LocalAppendEntries,
        callback: Callback,
    ) -> StateView {
        self.recognising(request.term, request.leader_id).with_fresh_message_id().dispatching(
            TaskView::StopHeartbeats { id: self.next_message_id },
        ).answering(
            callback,
            if self.is_followed_by(request) {
                ResponseView::AppendEntries(LocalAppendEntriesCallbackResponse::Accepted)
            } else {
                self.wanted_entry()
            },
        )
    }

    /// The state of a leader once it replicates `entry`, which it made of a
    /// batch of `batch_size` writes at `now`, where `sent` says whether the
    /// persistence worker took the entry. If it did not, the client is told.
    pub open spec fn writing(
        self,
        entry: Arc<SerializationData>,
        batch_size: usize,
        callback: Callback,
        now: u128,
        sent: bool,
    ) -> StateView {
        let id = self.next_message_id;
        let index = self.next_log_index;
        if sent {
            self.with_fresh_message_id().replicating(
                entry,
                index,
                id,
                true,
                OutstandingMessageType::WriteBatch {
                    persistence_done: false,
                    quorum_acks: 0,
                    callback,
                    index,
                    start_time: now,
                    batch_size,
                },
            )
        } else {
            self.with_fresh_message_id().appending(entry).persisting(
                crate::persistence::worker::PersistenceTaskView::AppendLog {
                    id,
                    data: entry@.encoded(),
                    request_id: id,
                },
                false,
            ).answering(
                callback,
                ResponseView::batch(Some(write_batch::persistence_failed())),
            )
        }
    }

    /// Whether a leader comes to `after` by a write batch at `now`.
    pub open spec fn writes_batch(
        self,
        request: LocalRaftWriteBatchRequest,
        callback: Callback,
        now: u128,
        after: StateView,
    ) -> bool {
        if request.writes().len() == 0 {
            after == self.with_fresh_message_id().answering(
                callback,
                ResponseView::batch(Some(write_batch::empty_batch())),
            )
        } else {
            exists|entry: Arc<SerializationData>, sent: bool|
                {
                    &&& entry@ == self.new_entry(
                        self.next_log_index,
                        self.next_message_id,
                        now as u64,
                        request.writes(),
                    )
                    &&& after == #[trigger] self.writing(
                        entry,
                        request.writes().len() as usize,
                        callback,
                        now,
                        sent,
                    )
                }
        }
    }

    /// Whether a leader comes to `after` by a time step at `timestamp`, in which
    /// it first takes the lead if it has not yet.
    ///
    /// It processes what the persistence worker and then what the quorum workers
    /// have reported, answers the backfill requests among those, and goes on
    /// with the broadcast of committed entries. `led`, `persisted` and
    /// `acknowledged` are the states in between.
    pub open spec fn leader_time_step_via(
        self,
        initialized: bool,
        timestamp: u64,
        led: StateView,
        persisted: StateView,
        acknowledged: StateView,
        after: StateView,
    ) -> bool {
        let answered = acknowledged.backfilling_all(
            outstanding::backfill_requests(self.quorum_response),
        );
        &&& if initialized {
            led == self
        } else {
            self.takes_lead(timestamp, led)
        }
        &&& (StateView { persistence_response: Seq::empty(), ..led }).leader_persistence_run(
            self.persistence_response,
            persisted,
        )
        &&& (StateView { quorum_response: Seq::empty(), ..persisted }).leader_quorum_run(
            self.quorum_response,
            acknowledged,
        )
        &&& after == (StateView { bus: after.bus, ..answered })
        &&& answered.bus.caught_up(answered.log, answered.commit_index, after.bus)
    }

    /// Whether a leader comes to `after` by a time step at `timestamp`, with
    /// `work` items of work done.
    pub open spec fn leader_time_step(
        self,
        initialized: bool,
        timestamp: u64,
        after: StateView,
        work: u64,
    ) -> bool {
        exists|led: StateView, persisted: StateView, acknowledged: StateView|
            {
                &&& #[trigger] self.leader_time_step_via(
                    initialized,
                    timestamp,
                    led,
                    persisted,
                    acknowledged,
                    after,
                )
                &&& work == self.waiting_events() + (if initialized {
                    0int
                } else {
                    1int
                }) + after.bus.next() - acknowledged.bus.next()
            }
    }
}

impl RaftLeaderStateDelegate {
    /// Whether the delegate is one that was just made: it has not taken the lead.
    pub open spec fn is_new(self) -> bool {
        &&& !self.initialized
        &&& 32 <= self.election_timeout < MAX_NOW_MILLIS + 128
    }

    pub fn new(anchor: &minstant::Anchor) -> (delegate: Self)
        ensures
            delegate.is_new(),
    {
        let now: u128 = now_millis(anchor);
        let election_timeout: u64 = random_between(32, 128);
        RaftLeaderStateDelegate {
            election_timeout: millis_after(now, election_timeout),
            initialized: false,
        }
    }

    /// Initializes the leader state on first time_step, at `timestamp`.
    pub fn initialize_leadership(&mut self, shared_state: &mut SharedState, timestamp: u64)
        requires
            old(shared_state)@.has_room(1),
        ensures
            *final(self) == (RaftLeaderStateDelegate { initialized: true, ..*old(self) }),
            old(shared_state)@.takes_lead(timestamp, final(shared_state)@),
    {
        let ghost start = shared_state@;
        let id: u64 = shared_state.fresh_message_id();
        let log_len: usize = shared_state.volatile_server_state.replication_log.len();
        shared_state.volatile_server_state.next_log_index = log_len as u64;
        let term: u64 = shared_state.server_state.current_term;
        let prev_term: u64 = shared_state.volatile_server_state.last_log_term;
        let prev_log_index: u64 = shared_state.volatile_server_state.last_log_index;
        let commit_index: u64 = shared_state.volatile_server_state.commit_index;
        shared_state.dispatch_task(
            &LocalQuorumWorkerTask {
                task_type: LocalQuorumWorkerTaskType::StartHeartbeats {
                    id,
                    term,
                    prev_term,
                    prev_log_index,
                    commit_index,
                },
            },
        );
        // Only entries up to the current commit_index are broadcast. New entries
        // are broadcast when they are committed via normal replication.
        if commit_index > 0 {
            shared_state.broadcast_committed_entries(commit_index);
        }
        let ghost bus = shared_state@.bus;
        // An entry of the current term lets the commit index advance without
        // waiting for client traffic.
        let index: u64 = shared_state.volatile_server_state.next_log_index;
        let noop_id: u64 = shared_state.fresh_message_id();
        let noop = SerializationData {
            index,
            term,
            timestamp,
            prev_index: prev_log_index,
            prev_term,
            message_id: noop_id,
            requests: Vec::new(),
        };
        assert(noop@.requests =~= Seq::empty());
        let ghost view = noop@;
        let (entry, data) = write_batch::serialize_and_append_to_log(noop, shared_state);
        let sent: bool = write_batch::queue_persistence_task(noop_id, data, shared_state);
        write_batch::dispatch_to_quorum(noop_id, entry.clone(), shared_state);
        write_batch::register_noop_outstanding_message(noop_id, index, shared_state);
        write_batch::update_volatile_state(index, shared_state);
        self.initialized = true;
        proof {
            assert(entry@ == view);
            assert(shared_state@ == start.leading(bus, entry, sent));
        }
    }

    /// Handles a new leader announcement by stepping down to follower.
    fn handle_new_leader(
        &mut self,
        append_entries_request: LocalAppendEntries,
        callback: Callback,
        shared_state: &mut SharedState,
    ) -> (change: RaftMessageStateChange)
        requires
            append_entries_request.term < u64::MAX,
            old(shared_state)@.next_message_id < u64::MAX,
        ensures
            *final(self) == *old(self),
            final(shared_state)@ == old(shared_state)@.stepping_down(
                append_entries_request,
                callback,
            ),
            change matches RaftMessageStateChange::Follower(follower) && follower.wf()
                && follower.election_timer.is_new(),
    {
        shared_state.server_state.current_term = append_entries_request.term;
        shared_state.server_state.leader_id = append_entries_request.leader_id;
        shared_state.volatile_server_state.next_term = append_entries_request.term + 1;
        let id: u64 = shared_state.fresh_message_id();
        shared_state.dispatch_task(
            &LocalQuorumWorkerTask { task_type: LocalQuorumWorkerTaskType::StopHeartbeats { id } },
        );
        let last_index: u64 = shared_state.volatile_server_state.last_log_index;
        let last_term: u64 = shared_state.volatile_server_state.last_log_term;
        if append_entries_request.prev_index == last_index && append_entries_request.prev_term
            == last_term {
            shared_state.respond(
                callback,
                LocalRaftResponsePayload::AppendEntries(
                    LocalAppendEntriesCallbackResponse::Accepted,
                ),
            );
        } else {
            shared_state.respond(
                callback,
                LocalRaftResponsePayload::AppendEntries(
                    LocalAppendEntriesCallbackResponse::WantedPreviousEntry {
                        last_term,
                        last_index,
                    },
                ),
            );
        }
        RaftMessageStateChange::Follower(RaftFollowerStateDelegate::new(&shared_state.anchor))
    }

    /// Replicates a batch of writes, at `now`.
    pub fn write_batch_at(
        &mut self,
        write_batch_request: LocalRaftWriteBatchRequest,
        callback: Callback,
        shared_state: &mut SharedState,
        now: u128,
    )
        requires
            write_batch_request.is_storable(),
            old(shared_state)@.has_room(1),
        ensures
            *final(self) == *old(self),
            old(shared_state)@.writes_batch(
                write_batch_request,
                callback,
                now,
                final(shared_state)@,
            ),
    {
        let ghost start = shared_state@;
        let index: u64 = shared_state.volatile_server_state.next_log_index;
        let batch_size: usize = write_batch_request.requests.len();
        let id: u64 = shared_state.fresh_message_id();
        if let Some(error_msg) = write_batch::validate_write_batch(&write_batch_request) {
            write_batch::send_error_response(error_msg, callback, shared_state);
            return;
        }
        let data = write_batch::create_serialization_data_at(
            &write_batch_request,
            index,
            id,
            shared_state,
            now as u64,
        );
        let ghost view = data@;
        let (entry, bytes) = write_batch::serialize_and_append_to_log(data, shared_state);
        let sent: bool = write_batch::queue_persistence_task(id, bytes, shared_state);
        if !sent {
            write_batch::send_error_response(
                "Failed to queue persistence task",
                callback,
                shared_state,
            );
            proof {
                assert(entry@ == view);
                assert(shared_state@ == start.writing(entry, batch_size, callback, now, sent));
            }
            return;
        }
        write_batch::dispatch_to_quorum(id, entry.clone(), shared_state);
        write_batch::register_outstanding_message(
            id,
            index,
            batch_size,
            callback,
            now,
            shared_state,
        );
        write_batch::update_volatile_state(index, shared_state);
        proof {
            assert(entry@ == view);
            assert(shared_state@ == start.writing(entry, batch_size, callback, now, sent));
        }
    }
}

/// Taking the lead takes at most one from the room of the counters, and leaves
/// what has arrived alone.
proof fn lemma_takes_lead_room(before: StateView, timestamp: u64, after: StateView, events: int)
    requires
        1 <= events,
        before.has_room(events),
        before.takes_lead(timestamp, after),
    ensures
        after.has_room(events - 1),
        after.persistence_response == before.persistence_response,
        after.quorum_response == before.quorum_response,
        after.next_message_id == before.next_message_id + 2,
{
    let noop_id = (before.next_message_id + 1) as u64;
    assert forall|id: u64| #[trigger] after.outstanding.contains_key(id) implies after.outstanding[id].has_room(
        events - 1,
    ) by {
        if id != noop_id {
            assert(before.outstanding.contains_key(id));
            assert(before.outstanding[id].has_room(events));
        }
    }
}

/// Answering backfill requests leaves the broadcast alone.
proof fn lemma_backfilling_keeps_bus(state: StateView, requests: Seq<(u64, u64, u64)>)
    ensures
        state.backfilling_all(requests).bus == state.bus,
    decreases requests.len(),
{
    if requests.len() > 0 {
        lemma_backfilling_keeps_bus(state, requests.drop_last());
    }
}

impl RaftLeaderStateDelegate {
    /// Does what is due at `timestamp`. Returns (state_change, work_done_count).
    pub fn time_step_at(&mut self, shared_state: &mut SharedState, timestamp: u64) -> (result: (
        RaftMessageStateChange,
        u64,
    ))
        requires
            old(shared_state)@.has_room(old(shared_state)@.waiting_events() + 2),
        ensures
            final(self).initialized,
            final(self).election_timeout == old(self).election_timeout,
            result.0 is Unchanged,
            old(shared_state)@.leader_time_step(
                old(self).initialized,
                timestamp,
                final(shared_state)@,
                result.1,
            ),
    {
        let ghost start = shared_state@;
        let ghost initialized = self.initialized;
        let mut work_done: u64 = 0;
        if !self.initialized {
            proof {
                shared_state::lemma_less_room(start, start.waiting_events() + 2, 1);
            }
            self.initialize_leadership(shared_state, timestamp);
            work_done = work_done + 1;
            proof {
                lemma_takes_lead_room(start, timestamp, shared_state@, start.waiting_events() + 2);
            }
        } else {
            proof {
                shared_state::lemma_less_room(
                    start,
                    start.waiting_events() + 2,
                    start.waiting_events() + 1,
                );
            }
        }
        let ghost led = shared_state@;
        proof {
            shared_state::lemma_less_room(
                led,
                start.waiting_events() + 1,
                start.persistence_response.len() as int,
            );
        }
        let persistence_work: u64 = outstanding::process_persistence_responses(shared_state);
        work_done = work_done + persistence_work;
        let ghost persisted = shared_state@;
        proof {
            outstanding::law_persistence_responses_keep_log(
                StateView { persistence_response: Seq::empty(), ..led },
                start.persistence_response,
                persisted,
            );
            assert(persisted.has_room(start.quorum_response.len() + 1int));
            shared_state::lemma_less_room(
                persisted,
                start.quorum_response.len() + 1int,
                start.quorum_response.len() as int,
            );
        }
        let (requests, quorum_work) = outstanding::process_quorum_responses(shared_state);
        work_done = work_done + quorum_work;
        let ghost acknowledged = shared_state@;
        proof {
            outstanding::law_quorum_responses_keep_log(
                StateView { quorum_response: Seq::empty(), ..persisted },
                start.quorum_response,
                acknowledged,
            );
            outstanding::lemma_backfill_requests_len(start.quorum_response);
        }
        replication::handle_backfill_requests(shared_state, &requests);
        proof {
            lemma_backfilling_keeps_bus(acknowledged, requests@);
        }
        let broadcast_work: u64 = shared_state.retry_deferred_broadcast();
        work_done = work_done + broadcast_work;
        assert(start.leader_time_step_via(
            initialized,
            timestamp,
            led,
            persisted,
            acknowledged,
            shared_state@,
        ));
        (RaftMessageStateChange::Unchanged, work_done)
    }
}

impl RaftProtocol for RaftLeaderStateDelegate {
    open spec fn wf(&self) -> bool {
        true
    }

    fn get_node_type(&self) -> (node_type: RaftNodeType)
        ensures
            node_type == RaftNodeType::Leader,
    {
        RaftNodeType::Leader
    }

    fn write_batch(
        &mut self,
        write_batch_request: LocalRaftWriteBatchRequest,
        callback: Callback,
        shared_state: &mut SharedState,
    )
        ensures
            *final(self) == *old(self),
            exists|now: u128|
                #[trigger] old(shared_state)@.writes_batch(
                    write_batch_request,
                    callback,
                    now,
                    final(shared_state)@,
                ),
    {
        let now: u128 = now_millis(&shared_state.anchor);
        self.write_batch_at(write_batch_request, callback, shared_state, now);
    }

    fn append_entries(
        &mut self,
        append_entries_request: LocalAppendEntries,
        callback: Callback,
        shared_state: &mut SharedState,
    ) -> (change: RaftMessageStateChange)
        ensures
            *final(self) == *old(self),
            if append_entries_request.term > old(shared_state)@.current_term {
                &&& final(shared_state)@ == old(shared_state)@.stepping_down(
                    append_entries_request,
                    callback,
                )
                &&& change matches RaftMessageStateChange::Follower(follower)
                &&& follower.wf()
                &&& follower.election_timer.is_new()
            } else {
                &&& final(shared_state)@ == old(shared_state)@.answering(
                    callback,
                    ResponseView::AppendEntries(
                        LocalAppendEntriesCallbackResponse::UnrecognizedLeader,
                    ),
                )
                &&& change is Unchanged
            },
    {
        if append_entries_request.term > shared_state.server_state.current_term {
            return self.handle_new_leader(append_entries_request, callback, shared_state);
        }
        shared_state.respond(
            callback,
            LocalRaftResponsePayload::AppendEntries(
                LocalAppendEntriesCallbackResponse::UnrecognizedLeader,
            ),
        );
        RaftMessageStateChange::Unchanged
    }

    fn time_step(&mut self, shared_state: &mut SharedState) -> (result: (
        RaftMessageStateChange,
        u64,
    ))
        ensures
            final(self).initialized,
            final(self).election_timeout == old(self).election_timeout,
            result.0 is Unchanged,
            exists|timestamp: u64|
                #[trigger] old(shared_state)@.leader_time_step(
                    old(self).initialized,
                    timestamp,
                    final(shared_state)@,
                    result.1,
                ),
    {
        let timestamp: u64 = now_millis(&shared_state.anchor) as u64;
        self.time_step_at(shared_state, timestamp)
    }

    fn request_vote(
        &mut self,
        request_vote_request: LocalRequestVoteRequest,
        callback: Callback,
        shared_state: &mut SharedState,
    ) -> (change: RaftMessageStateChange)
        ensures
            *final(self) == *old(self),
            change is Unchanged,
            exists|sent: bool|
                final(shared_state)@ == #[trigger] old(shared_state)@.voting(
                    request_vote_request,
                    callback,
                    sent,
                ),
    {
        shared_state.vote(request_vote_request, callback);
        RaftMessageStateChange::Unchanged
    }
}

} // verus!
