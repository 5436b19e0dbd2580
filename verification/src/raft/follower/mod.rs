//! Follower state delegate for the Raft consensus protocol.

pub mod append_entries;
pub mod election;

use crate::persistence::worker::PersistenceResponseType;
use crate::quorum::types::{LocalQuorumResponse, LocalQuorumTaskResponseType};
use crate::raft::broadcast;
use crate::raft::candidate::RaftCandidateStateDelegate;
use crate::raft::raft_sm::{
    Callback, LocalAppendEntries, LocalAppendEntriesCallbackResponse, LocalRaftResponsePayload,
    LocalRequestVoteRequest, OutstandingMessageType, RaftMessageStateChange, RaftNodeType,
    RaftProtocol, ResponseView,
};
use crate::raft::shared_state::{BusView, SharedState, StateView};
use crate::service_utils::app_time::{now_millis, MAX_NOW_MILLIS};
use election::ElectionTimer;
use std::collections::HashMap;
use vstd::prelude::*;

verus! {

pub struct RaftFollowerStateDelegate {
    pub election_timer: ElectionTimer,
}

/// The term starts that are not beyond `limit`.
pub open spec fn starts_up_to(starts: Map<u64, u64>, limit: u64) -> Map<u64, u64> {
    Map::new(|term: u64| starts.contains_key(term) && starts[term] <= limit, |term: u64| starts[term])
}

impl StateView {
    /// The state once the log ends with the entry at `prev_index`, which is of
    /// `prev_term`. A log that ends before it, or with it, stays as it is.
    pub open spec fn truncated(self, prev_term: u64, prev_index: u64) -> StateView {
        if prev_index + 1 < self.log.len() {
            StateView {
                log: self.log.take(prev_index + 1),
                last_log_term: prev_term,
                last_log_index: prev_index,
                next_log_index: (prev_index + 1) as u64,
                term_starts: starts_up_to(self.term_starts, prev_index),
                ..self
            }
        } else {
            self
        }
    }

    /// The state of a follower after one report of the persistence worker: the
    /// one who waits for it is told.
    pub open spec fn follower_persistence_step(self, event: PersistenceResponseType) -> StateView {
        let id = match event {
            PersistenceResponseType::LogPersisted { id } => id,
            PersistenceResponseType::VotePersisted { id, .. } => id,
        };
        if !self.outstanding.contains_key(id) {
            self
        } else {
            match (event, self.outstanding[id].message_type) {
                (
                    PersistenceResponseType::LogPersisted { .. },
                    OutstandingMessageType::AppendLog { callback },
                ) => self.forgetting(id).answering(
                    callback,
                    ResponseView::AppendEntries(LocalAppendEntriesCallbackResponse::Accepted),
                ),
                (
                    PersistenceResponseType::VotePersisted { .. },
                    OutstandingMessageType::RequestVote { callback },
                ) => self.forgetting(id).answering(callback, ResponseView::RequestVote(true)),
                _ => self.forgetting(id),
            }
        }
    }

    /// The state of a follower after the reports `events`, one after the other.
    pub open spec fn follower_persistence_run(
        self,
        events: Seq<PersistenceResponseType>,
    ) -> StateView
        decreases events.len(),
    {
        if events.len() == 0 {
            self
        } else {
            self.follower_persistence_run(events.drop_last()).follower_persistence_step(
                events.last(),
            )
        }
    }

    /// The state of a follower after one response of a quorum worker: only a
    /// leader who tells it to truncate its log is heard.
    pub open spec fn follower_quorum_step(self, event: LocalQuorumResponse) -> StateView {
        match event.response_type {
            LocalQuorumTaskResponseType::TruncateLog { prev_term, prev_index, .. } => {
                let truncated = self.truncated(prev_term, prev_index);
                StateView {
                    bus: BusView {
                        version: broadcast::bumped(self.bus.version, 1),
                        ..self.bus
                    },
                    ..truncated
                }
            },
            _ => self,
        }
    }

    /// The state of a follower after the responses `events`, one after the other.
    pub open spec fn follower_quorum_run(self, events: Seq<LocalQuorumResponse>) -> StateView
        decreases events.len(),
    {
        if events.len() == 0 {
            self
        } else {
            self.follower_quorum_run(events.drop_last()).follower_quorum_step(events.last())
        }
    }

    /// The state of a follower once it has processed what has been reported to it.
    pub open spec fn follower_informed(self) -> StateView {
        self.emptied().follower_persistence_run(self.persistence_response).follower_quorum_run(
            self.quorum_response,
        )
    }

    /// Whether a follower comes to `after` by a time step, with `work` items of
    /// work done: it processes what has been reported to it, and tries to catch
    /// up with a broadcast that was deferred.
    pub open spec fn follower_time_step(self, after: StateView, work: u64) -> bool {
        let informed = self.follower_informed();
        &&& after == (StateView { bus: after.bus, ..informed })
        &&& informed.bus.caught_up(informed.log, informed.commit_index, after.bus)
        &&& work == self.waiting_events() + after.bus.next() - self.bus.next()
    }
}

/// The term starts that are not beyond `limit`, as a new map.
fn keep_starts(starts: &HashMap<u64, u64>, limit: u64) -> (kept: HashMap<u64, u64>)
    ensures
        kept@ == starts_up_to(starts@, limit),
{
    broadcast use vstd::std_specs::hash::group_hash_axioms;

    let mut kept: HashMap<u64, u64> = HashMap::new();
    let ghost full = starts@;
    for term in iter: starts.keys()
        invariant
            full == starts@,
            iter.seq().unref().to_set() == full.dom(),
            forall|t: u64| #[trigger]
                kept@.contains_key(t) ==> full.contains_key(t) && full[t] <= limit && kept@[t]
                    == full[t],
            forall|i: int|
                0 <= i < iter.index() && full[*(#[trigger] iter.seq()[i])] <= limit
                    ==> kept@.contains_key(*iter.seq()[i]),
    {
        assert(iter.seq().unref()[iter.index()] == *term);
        assert(full.contains_key(*term));
        if let Some(start) = starts.get(term) {
            if *start <= limit {
                kept.insert(*term, *start);
            }
        }
    }
    assert(kept@ =~= starts_up_to(full, limit));
    kept
}

impl RaftFollowerStateDelegate {
    pub fn new(anchor: &minstant::Anchor) -> (delegate: Self)
        ensures
            delegate.wf(),
            delegate.election_timer.is_new(),
    {
        RaftFollowerStateDelegate { election_timer: ElectionTimer::new(anchor) }
    }

    /// Truncates the log behind the entry at `prev_index`, which is of `prev_term`.
    pub fn truncate_log(&self, shared_state: &mut SharedState, prev_term: u64, prev_index: u64)
        ensures
            final(shared_state)@ == old(shared_state)@.truncated(prev_term, prev_index),
    {
        let len: usize = shared_state.volatile_server_state.replication_log.len();
        if len > 0 && prev_index < (len - 1) as u64 {
            let target: usize = prev_index as usize + 1;
            shared_state.volatile_server_state.replication_log.truncate(target);
            shared_state.volatile_server_state.last_log_term = prev_term;
            shared_state.volatile_server_state.last_log_index = prev_index;
            shared_state.volatile_server_state.next_log_index = prev_index + 1;
            let kept = keep_starts(
                &shared_state.volatile_server_state.replication_log_term_starts,
                prev_index,
            );
            shared_state.volatile_server_state.replication_log_term_starts = kept;
            assert(shared_state@.log =~= old(shared_state)@.log.take(prev_index + 1));
        }
    }

    /// Handles a LogPersisted event from the persistence worker.
    fn handle_log_persisted(&self, id: u64, shared_state: &mut SharedState)
        ensures
            final(shared_state)@ == old(shared_state)@.follower_persistence_step(
                PersistenceResponseType::LogPersisted { id },
            ),
    {
        if let Some(message) = shared_state.take_outstanding(id) {
            if let OutstandingMessageType::AppendLog { callback } = message.message_type {
                shared_state.respond(
                    callback,
                    LocalRaftResponsePayload::AppendEntries(
                        LocalAppendEntriesCallbackResponse::Accepted,
                    ),
                );
            }
        } else {
            assert(shared_state@.outstanding =~= old(shared_state)@.outstanding);
        }
    }

    /// Handles a VotePersisted event from the persistence worker.
    fn handle_vote_persisted(
        &self,
        id: u64,
        term: u64,
        candidate_id: u32,
        shared_state: &mut SharedState,
    )
        ensures
            final(shared_state)@ == old(shared_state)@.follower_persistence_step(
                PersistenceResponseType::VotePersisted { id, term, candidate_id },
            ),
    {
        if let Some(message) = shared_state.take_outstanding(id) {
            if let OutstandingMessageType::RequestVote { callback } = message.message_type {
                shared_state.respond(callback, LocalRaftResponsePayload::RequestVote(true));
            }
        } else {
            assert(shared_state@.outstanding =~= old(shared_state)@.outstanding);
        }
    }

    /// Processes what the persistence worker has reported.
    fn process_persistence_responses(&self, shared_state: &mut SharedState) -> (count: u64)
        ensures
            count == old(shared_state)@.persistence_response.len(),
            final(shared_state)@ == (StateView {
                persistence_response: Seq::empty(),
                ..old(shared_state)@
            }).follower_persistence_run(old(shared_state)@.persistence_response),
    {
        let events = shared_state.take_persistence_responses();
        let ghost start = shared_state@;
        let ghost all = events@;
        let mut done: usize = 0;
        assert(all.take(0) =~= Seq::empty());
        while done < events.len()
            invariant
                all == events@,
                done <= all.len(),
                shared_state@ == start.follower_persistence_run(all.take(done as int)),
            decreases all.len() - done,
        {
            match events[done] {
                PersistenceResponseType::LogPersisted { id } => {
                    self.handle_log_persisted(id, shared_state);
                },
                PersistenceResponseType::VotePersisted { id, term, candidate_id } => {
                    self.handle_vote_persisted(id, term, candidate_id, shared_state);
                },
            }
            assert(all.take(done + 1).drop_last() =~= all.take(done as int));
            done = done + 1;
        }
        assert(all.take(done as int) =~= all);
        done as u64
    }

    /// Processes what the quorum workers have reported.
    fn process_quorum_responses(&self, shared_state: &mut SharedState) -> (count: u64)
        ensures
            count == old(shared_state)@.quorum_response.len(),
            final(shared_state)@ == (StateView {
                quorum_response: Seq::empty(),
                ..old(shared_state)@
            }).follower_quorum_run(old(shared_state)@.quorum_response),
    {
        let events = shared_state.take_quorum_responses();
        let ghost start = shared_state@;
        let ghost all = events@;
        let mut done: usize = 0;
        assert(all.take(0) =~= Seq::empty());
        while done < events.len()
            invariant
                all == events@,
                done <= all.len(),
                shared_state@ == start.follower_quorum_run(all.take(done as int)),
            decreases all.len() - done,
        {
            if let LocalQuorumTaskResponseType::TruncateLog {
                quorum_node_id: _,
                prev_term,
                prev_index,
            } = events[done].response_type {
                self.truncate_log(shared_state, prev_term, prev_index);
                shared_state.bump_version();
            }
            assert(all.take(done + 1).drop_last() =~= all.take(done as int));
            done = done + 1;
        }
        assert(all.take(done as int) =~= all);
        done as u64
    }

    /// Does what is due at `now`. Returns (state_change, work_done_count).
    pub fn time_step_at(&mut self, shared_state: &mut SharedState, now: u128) -> (result: (
        RaftMessageStateChange,
        u64,
    ))
        requires
            old(shared_state)@.waiting_events() + broadcast::MAX_BROADCAST_PER_TIMESTEP <= u64::MAX,
        ensures
            *final(self) == *old(self),
            old(shared_state)@.follower_time_step(final(shared_state)@, result.1),
            result.0 == old(self).election_timer.change_at(now),
    {
        let ghost start = shared_state@;
        let persistence_work: u64 = self.process_persistence_responses(shared_state);
        proof {
            lemma_persistence_run_keeps_quorum(
                StateView { persistence_response: Seq::empty(), ..start },
                start.persistence_response,
                start.quorum_response,
            );
        }
        let quorum_work: u64 = self.process_quorum_responses(shared_state);
        proof {
            lemma_runs_keep_broadcast(start);
        }
        let broadcast_work: u64 = shared_state.retry_deferred_broadcast();
        let work_done: u64 = persistence_work + quorum_work + broadcast_work;
        match self.election_timer.check_timeout_at(now) {
            Some(change) => (change, work_done),
            None => (RaftMessageStateChange::Unchanged, work_done),
        }
    }
}

/// Processing the reports of the persistence worker and taking the responses of
/// the quorum workers do not get in each other's way.
proof fn lemma_persistence_run_keeps_quorum(
    state: StateView,
    events: Seq<PersistenceResponseType>,
    quorum: Seq<LocalQuorumResponse>,
)
    requires
        state.quorum_response == quorum,
    ensures
        state.follower_persistence_run(events).quorum_response == quorum,
        (StateView {
            quorum_response: Seq::empty(),
            ..state.follower_persistence_run(events)
        }) == (StateView { quorum_response: Seq::empty(), ..state }).follower_persistence_run(
            events,
        ),
    decreases events.len(),
{
    if events.len() > 0 {
        lemma_persistence_run_keeps_quorum(state, events.drop_last(), quorum);
    }
}

/// What has been reported to a follower takes no part in the broadcast.
proof fn lemma_runs_keep_broadcast(state: StateView)
    ensures
        state.follower_informed().bus.next() == state.bus.next(),
{
    lemma_persistence_run_keeps_broadcast(state.emptied(), state.persistence_response);
    lemma_quorum_run_keeps_broadcast(
        state.emptied().follower_persistence_run(state.persistence_response),
        state.quorum_response,
    );
}

proof fn lemma_persistence_run_keeps_broadcast(
    state: StateView,
    events: Seq<PersistenceResponseType>,
)
    ensures
        state.follower_persistence_run(events).bus.last_index == state.bus.last_index,
    decreases events.len(),
{
    if events.len() > 0 {
        lemma_persistence_run_keeps_broadcast(state, events.drop_last());
    }
}

proof fn lemma_quorum_run_keeps_broadcast(state: StateView, events: Seq<LocalQuorumResponse>)
    ensures
        state.follower_quorum_run(events).bus.last_index == state.bus.last_index,
    decreases events.len(),
{
    if events.len() > 0 {
        lemma_quorum_run_keeps_broadcast(state, events.drop_last());
    }
}

impl RaftProtocol for RaftFollowerStateDelegate {
    open spec fn wf(&self) -> bool {
        self.election_timer.wf()
    }

    fn get_node_type(&self) -> (node_type: RaftNodeType)
        ensures
            node_type == RaftNodeType::Follower,
    {
        RaftNodeType::Follower
    }

    fn append_entries(
        &mut self,
        append_entries_request: LocalAppendEntries,
        callback: Callback,
        shared_state: &mut SharedState,
    ) -> (change: RaftMessageStateChange)
        ensures
            change is Unchanged,
            old(shared_state)@.follower_appends(
                append_entries_request,
                callback,
                final(shared_state)@,
            ),
            final(self).election_timer.is_reset_of(old(self).election_timer),
    {
        if append_entries_request.term > shared_state.server_state.current_term {
            append_entries::handle_new_leader(
                append_entries_request,
                callback,
                shared_state,
                &mut self.election_timer,
            );
            return RaftMessageStateChange::Unchanged;
        }
        if append_entries_request.leader_id == shared_state.server_state.leader_id {
            if append_entries_request.request_id == 0 {
                append_entries::handle_heartbeat(
                    &append_entries_request,
                    callback,
                    shared_state,
                    &mut self.election_timer,
                );
                return RaftMessageStateChange::Unchanged;
            }
            if !append_entries::validate_append_entries(
                &append_entries_request,
                shared_state.volatile_server_state.last_log_index,
                shared_state.volatile_server_state.last_log_term,
            ) {
                append_entries::handle_non_consecutive_request(
                    &append_entries_request,
                    callback,
                    shared_state,
                    &mut self.election_timer,
                );
                return RaftMessageStateChange::Unchanged;
            }
            append_entries::apply_log_entry(append_entries_request, callback, shared_state);
        } else {
            append_entries::send_unrecognized_leader_response(
                &append_entries_request,
                callback,
                shared_state,
            );
        }
        self.election_timer.reset(&shared_state.anchor);
        RaftMessageStateChange::Unchanged
    }

    fn time_step(&mut self, shared_state: &mut SharedState) -> (result: (
        RaftMessageStateChange,
        u64,
    ))
        ensures
            *final(self) == *old(self),
            old(shared_state)@.follower_time_step(final(shared_state)@, result.1),
            exists|now: u128|
                now <= MAX_NOW_MILLIS && result.0 == #[trigger] old(self).election_timer.change_at(
                    now,
                ),
    {
        let now: u128 = now_millis(&shared_state.anchor);
        self.time_step_at(shared_state, now)
    }

    fn request_vote(
        &mut self,
        request_vote_request: LocalRequestVoteRequest,
        callback: Callback,
        shared_state: &mut SharedState,
    ) -> (change: RaftMessageStateChange)
        ensures
            *final(self) == *old(self),
            change is Unchanged,
            final(shared_state)@ == old(shared_state)@.following_vote(
                request_vote_request,
                callback,
            ),
    {
        shared_state.follower_vote(request_vote_request, callback);
        RaftMessageStateChange::Unchanged
    }
}

} // verus!
