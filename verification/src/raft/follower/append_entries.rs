//! What a follower does with the entries and heartbeats of a leader.

use crate::persistence::worker::{PersistenceTaskType, PersistenceTaskView};
use crate::raft::broadcast;
use crate::raft::follower::election::ElectionTimer;
use crate::raft::raft_sm::{
    Callback, LocalAppendEntries, LocalAppendEntriesCallbackResponse, LocalRaftResponsePayload,
    LogEntry, OutstandingMessage, OutstandingMessageType, ResponseView,
};
use crate::raft::shared_state::{BusView, SharedState, StateView};
use crate::service_utils::storage_utils::{self, deserialize_data, EntryView, SerializationData};
use std::sync::Arc;
use vstd::prelude::*;

verus! {

impl LocalAppendEntries {
    /// Whether the request follows on a log that ends at `last_log_index` with `last_log_term`.
    pub open spec fn follows(self, last_log_index: u64, last_log_term: u64) -> bool {
        self.prev_index == last_log_index && self.prev_term == last_log_term
    }

    /// The entry of the request, if it brings one that can be read.
    pub open spec fn decoded(self) -> Option<EntryView> {
        match self.entry {
            Some(entry) => match storage_utils::parsed_entry(entry.data@, 0) {
                Some((_, view)) => Some(view),
                None => None,
            },
            None => None,
        }
    }
}

impl StateView {
    /// Whether the request follows on the log of this node.
    pub open spec fn is_followed_by(self, request: LocalAppendEntries) -> bool {
        request.follows(self.last_log_index, self.last_log_term)
    }

    /// The answer that asks for what follows the last entry of this node.
    pub open spec fn wanted_entry(self) -> ResponseView {
        ResponseView::AppendEntries(
            LocalAppendEntriesCallbackResponse::WantedPreviousEntry {
                last_term: self.last_log_term,
                last_index: self.last_log_index,
            },
        )
    }

    /// The state once `leader_id` is known as the leader of `term`.
    pub open spec fn recognising(self, term: u64, leader_id: u32) -> StateView {
        StateView { current_term: term, leader_id, next_term: (term + 1) as u64, ..self }
    }

    /// The state once the leader has told that the entries up to `index` are
    /// committed, where `bus` is what has become of their broadcast.
    pub open spec fn following_commit(self, index: u64, bus: BusView) -> StateView {
        StateView { commit_index: index, published_commit_index: index, bus, ..self }
    }

    /// Whether `bus` is a possible outcome of being told that the entries up to
    /// `index` are committed.
    pub open spec fn may_follow_commit(self, index: u64, bus: BusView) -> bool {
        (BusView { version: broadcast::bumped(self.bus.version, 1), ..self.bus }).broadcast_to(
            self.log,
            index,
            bus,
        )
    }

    /// The state once the last entry of the log is to be `entry`.
    pub open spec fn ending_with(self, entry: LogEntry) -> StateView {
        StateView {
            last_log_index: entry.index,
            last_log_term: entry.term,
            term_starts: if entry.prev_log_term != entry.term {
                self.term_starts.insert(entry.term, self.log.len() as u64)
            } else {
                self.term_starts
            },
            ..self
        }
    }

    /// The state once the entry of a request has been offered to the persistence
    /// worker, where `sent` says whether it took the entry.
    pub open spec fn storing(
        self,
        request: LocalAppendEntries,
        entry: LogEntry,
        sent: bool,
    ) -> StateView {
        self.with_fresh_message_id().ending_with(entry).persisting(
            PersistenceTaskView::AppendLog {
                id: self.next_message_id,
                data: entry.data@,
                request_id: request.request_id,
            },
            sent,
        )
    }

    /// Whether `after` comes of a request whose entry is `entry`, which reads as
    /// `value`, where `sent` says whether the persistence worker took the entry.
    ///
    /// An entry that the persistence worker took is the last of the log, and the
    /// leader is told when it is on disk.
    pub open spec fn accepts_entry(
        self,
        request: LocalAppendEntries,
        callback: Callback,
        entry: LogEntry,
        value: Arc<SerializationData>,
        sent: bool,
        after: StateView,
    ) -> bool {
        let stored = self.storing(request, entry, sent);
        if sent {
            let appended = StateView { log: self.log.push(value), ..stored };
            let waiting = |state: StateView|
                state.registering(
                    OutstandingMessage {
                        id: self.next_message_id,
                        outstanding_responses: 1,
                        message_type: OutstandingMessageType::AppendLog { callback },
                    },
                );
            if request.commit_index > self.commit_index {
                &&& appended.may_follow_commit(request.commit_index, after.bus)
                &&& after == waiting(appended.following_commit(request.commit_index, after.bus))
            } else {
                after == waiting(appended)
            }
        } else {
            after == stored.answering(callback, stored.wanted_entry())
        }
    }

    /// Whether `after` comes of a request that follows on the log.
    ///
    /// A request without an entry that can be read is refused, and the log stays
    /// as it is: the leader is asked for what follows its last entry.
    pub open spec fn applies(
        self,
        request: LocalAppendEntries,
        callback: Callback,
        after: StateView,
    ) -> bool {
        match (request.entry, request.decoded()) {
            (Some(entry), Some(view)) => exists|value: Arc<SerializationData>, sent: bool|
                value@ == view && #[trigger] self.accepts_entry(
                    request,
                    callback,
                    entry,
                    value,
                    sent,
                    after,
                ),
            _ => after == self.with_fresh_message_id().answering(callback, self.wanted_entry()),
        }
    }

    /// Whether `after` comes of the first request of a leader of a later term.
    pub open spec fn follows_new_leader(
        self,
        request: LocalAppendEntries,
        callback: Callback,
        after: StateView,
    ) -> bool {
        let recognised = self.recognising(request.term, request.leader_id);
        if !self.is_followed_by(request) {
            after == recognised.answering(callback, self.wanted_entry())
        } else if request.entry is Some {
            recognised.applies(request, callback, after)
        } else {
            after == recognised.answering(
                callback,
                ResponseView::AppendEntries(LocalAppendEntriesCallbackResponse::Accepted),
            )
        }
    }

    /// Whether `after` comes of a heartbeat.
    pub open spec fn hears_heartbeat(
        self,
        request: LocalAppendEntries,
        callback: Callback,
        after: StateView,
    ) -> bool {
        let accepted = ResponseView::AppendEntries(LocalAppendEntriesCallbackResponse::Accepted);
        if !self.is_followed_by(request) {
            after == self.answering(callback, self.wanted_entry())
        } else if request.commit_index > self.commit_index || self.current_term != request.term {
            &&& self.may_follow_commit(request.commit_index, after.bus)
            &&& after == self.following_commit(request.commit_index, after.bus).answering(
                callback,
                accepted,
            )
        } else {
            after == self.answering(callback, accepted)
        }
    }

    /// Whether a follower comes to `after` by a request of some leader.
    pub open spec fn follower_appends(
        self,
        request: LocalAppendEntries,
        callback: Callback,
        after: StateView,
    ) -> bool {
        if request.term > self.current_term {
            self.follows_new_leader(request, callback, after)
        } else if request.leader_id != self.leader_id {
            after == self.answering(
                callback,
                ResponseView::AppendEntries(LocalAppendEntriesCallbackResponse::UnrecognizedLeader),
            )
        } else if request.request_id == 0 {
            self.hears_heartbeat(request, callback, after)
        } else if !self.is_followed_by(request) {
            after == self.answering(callback, self.wanted_entry())
        } else {
            self.applies(request, callback, after)
        }
    }
}

/// Validates that append entries request is consecutive with current log state.
pub fn validate_append_entries(
    request: &LocalAppendEntries,
    last_log_index: u64,
    last_log_term: u64,
) -> (consecutive: bool)
    ensures
        consecutive == request.follows(last_log_index, last_log_term),
{
    request.prev_index == last_log_index && request.prev_term == last_log_term
}

/// Asks the leader for what follows the last entry of this node.
fn send_wanted_entry(callback: Callback, shared_state: &mut SharedState)
    ensures
        final(shared_state)@ == old(shared_state)@.answering(
            callback,
            old(shared_state)@.wanted_entry(),
        ),
{
    let last_term: u64 = shared_state.volatile_server_state.last_log_term;
    let last_index: u64 = shared_state.volatile_server_state.last_log_index;
    shared_state.respond(
        callback,
        LocalRaftResponsePayload::AppendEntries(
            LocalAppendEntriesCallbackResponse::WantedPreviousEntry { last_term, last_index },
        ),
    );
}

/// Updates the commit index and broadcasts committed entries.
fn update_commit_index(shared_state: &mut SharedState, new_commit_index: u64)
    ensures
        final(shared_state)@ == old(shared_state)@.following_commit(
            new_commit_index,
            final(shared_state)@.bus,
        ),
        old(shared_state)@.may_follow_commit(new_commit_index, final(shared_state)@.bus),
{
    shared_state.volatile_server_state.commit_index = new_commit_index;
    shared_state.volatile_server_state.commit_state.commit_index = new_commit_index;
    shared_state.bump_version();
    shared_state.broadcast_committed_entries(new_commit_index);
}

/// Applies a log entry from the append entries request.
pub fn apply_log_entry(
    request: LocalAppendEntries,
    callback: Callback,
    shared_state: &mut SharedState,
)
    requires
        old(shared_state)@.next_message_id < u64::MAX,
    ensures
        old(shared_state)@.applies(request, callback, final(shared_state)@),
{
    broadcast use vstd::std_specs::hash::group_hash_axioms;

    let ghost start = shared_state@;
    let message_id: u64 = shared_state.fresh_message_id();
    let commit_index: u64 = request.commit_index;
    let request_id: u64 = request.request_id;
    let ghost asked = request;
    let entry = match request.entry {
        Some(entry) => entry,
        None => {
            send_wanted_entry(callback, shared_state);
            return;
        },
    };
    // An entry that cannot be read is rejected entirely to prevent corrupted log state.
    let value = match deserialize_data(entry.data.as_slice(), 0) {
        Ok((_, value)) => value,
        Err(_) => {
            send_wanted_entry(callback, shared_state);
            return;
        },
    };
    let ghost brought = entry;
    let log_len: usize = shared_state.volatile_server_state.replication_log.len();
    shared_state.volatile_server_state.last_log_index = entry.index;
    shared_state.volatile_server_state.last_log_term = entry.term;
    if entry.prev_log_term != entry.term {
        shared_state.volatile_server_state.replication_log_term_starts.insert(
            entry.term,
            log_len as u64,
        );
    }
    let sent: bool = shared_state.persist(
        PersistenceTaskType::AppendLog { id: message_id, data: Arc::new(entry.data), request_id },
    );
    let value = Arc::new(value);
    assert(shared_state@ == start.storing(asked, brought, sent));
    if !sent {
        send_wanted_entry(callback, shared_state);
        assert(start.accepts_entry(asked, callback, brought, value, sent, shared_state@));
        return;
    }
    shared_state.volatile_server_state.replication_log.push(value);
    let ghost appended = shared_state@;
    if commit_index > shared_state.volatile_server_state.commit_index {
        update_commit_index(shared_state, commit_index);
    }
    shared_state.register(
        OutstandingMessage {
            id: message_id,
            outstanding_responses: 1,
            message_type: OutstandingMessageType::AppendLog { callback },
        },
    );
    assert(start.accepts_entry(asked, callback, brought, value, sent, shared_state@));
}

/// Handles recognition of a new leader with a higher term.
/// If the request contains an entry, processes it after recognizing the leader.
pub fn handle_new_leader(
    request: LocalAppendEntries,
    callback: Callback,
    shared_state: &mut SharedState,
    election_timer: &mut ElectionTimer,
)
    requires
        request.term < u64::MAX,
        old(shared_state)@.next_message_id < u64::MAX,
        old(election_timer).wf(),
    ensures
        old(shared_state)@.follows_new_leader(request, callback, final(shared_state)@),
        final(election_timer).is_reset_of(*old(election_timer)),
{
    shared_state.server_state.current_term = request.term;
    shared_state.server_state.leader_id = request.leader_id;
    shared_state.volatile_server_state.next_term = request.term + 1;
    election_timer.reset(&shared_state.anchor);
    let last_log_index: u64 = shared_state.volatile_server_state.last_log_index;
    let last_log_term: u64 = shared_state.volatile_server_state.last_log_term;
    if !validate_append_entries(&request, last_log_index, last_log_term) {
        send_wanted_entry(callback, shared_state);
    } else if request.entry.is_some() {
        apply_log_entry(request, callback, shared_state);
    } else {
        shared_state.respond(
            callback,
            LocalRaftResponsePayload::AppendEntries(LocalAppendEntriesCallbackResponse::Accepted),
        );
    }
}

/// Handles a heartbeat request (request_id == 0).
/// Caller should verify request_id == 0 before calling this function.
pub fn handle_heartbeat(
    request: &LocalAppendEntries,
    callback: Callback,
    shared_state: &mut SharedState,
    election_timer: &mut ElectionTimer,
)
    requires
        old(election_timer).wf(),
    ensures
        old(shared_state)@.hears_heartbeat(*request, callback, final(shared_state)@),
        final(election_timer).is_reset_of(*old(election_timer)),
{
    election_timer.reset(&shared_state.anchor);
    let last_log_index: u64 = shared_state.volatile_server_state.last_log_index;
    let last_log_term: u64 = shared_state.volatile_server_state.last_log_term;
    if !validate_append_entries(request, last_log_index, last_log_term) {
        send_wanted_entry(callback, shared_state);
    } else {
        if request.commit_index > shared_state.volatile_server_state.commit_index
            || shared_state.server_state.current_term != request.term {
            update_commit_index(shared_state, request.commit_index);
        }
        shared_state.respond(
            callback,
            LocalRaftResponsePayload::AppendEntries(LocalAppendEntriesCallbackResponse::Accepted),
        );
    }
}

/// Handles a non-consecutive append entries request by requesting backfill.
pub fn handle_non_consecutive_request(
    _request: &LocalAppendEntries,
    callback: Callback,
    shared_state: &mut SharedState,
    election_timer: &mut ElectionTimer,
)
    requires
        old(election_timer).wf(),
    ensures
        final(shared_state)@ == old(shared_state)@.answering(
            callback,
            old(shared_state)@.wanted_entry(),
        ),
        final(election_timer).is_reset_of(*old(election_timer)),
{
    election_timer.reset(&shared_state.anchor);
    send_wanted_entry(callback, shared_state);
}

/// Sends an unrecognized leader response.
pub fn send_unrecognized_leader_response(
    _request: &LocalAppendEntries,
    callback: Callback,
    shared_state: &mut SharedState,
)
    ensures
        final(shared_state)@ == old(shared_state)@.answering(
            callback,
            ResponseView::AppendEntries(LocalAppendEntriesCallbackResponse::UnrecognizedLeader),
        ),
{
    shared_state.respond(
        callback,
        LocalRaftResponsePayload::AppendEntries(
            LocalAppendEntriesCallbackResponse::UnrecognizedLeader,
        ),
    );
}

} // verus!
