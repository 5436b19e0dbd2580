//! Candidate state delegate for the Raft consensus protocol.

use crate::persistence::worker::{
    PersistenceResponseType, PersistenceTaskType, PersistenceTaskView,
};
use crate::quorum::types::{
    LocalQuorumResponse, LocalQuorumTaskResponseType, LocalQuorumWorkerTask,
    LocalQuorumWorkerTaskType, TaskView,
};
use crate::raft::broadcast;
use crate::raft::follower::RaftFollowerStateDelegate;
use crate::raft::leader::RaftLeaderStateDelegate;
use crate::raft::raft_sm::{
    Callback, LocalAppendEntries, LocalAppendEntriesCallbackResponse, LocalRaftResponsePayload,
    LocalRequestVoteRequest, OutstandingMessage, OutstandingMessageType, RaftMessageStateChange,
    RaftNodeType, RaftProtocol, ResponseView,
};
use crate::raft::shared_state::{self, SharedState, StateView};
use crate::service_utils::app_time::{millis_after, now_millis, MAX_NOW_MILLIS};
use crate::service_utils::random::random_between;
use vstd::prelude::*;

verus! {

/// A timeout further in the future than this is taken for a clock that went back.
pub const SUSPICIOUS_TIMEOUT_MS: u128 = 3_600_000;

/// A candidate waits at least this long before it starts another election.
pub const MIN_RETRY_MS: u64 = 500;

/// A candidate waits less than this before it starts another election.
pub const MAX_RETRY_MS: u64 = 3000;

/// An election that this node has started.
#[derive(Clone, Copy, Debug, PartialEq, Eq, Structural)]
pub struct OngoingElection {
    pub term: u64,
    pub started_millis: u128,
}

pub struct RaftCandidateStateDelegate {
    pub initiate_election_timeout: u128,
    pub ongoing_election: Option<OngoingElection>,
}

/// Whether a candidate that tells the time may start its next election at `retry_at`:
/// some time between [`MIN_RETRY_MS`] and [`MAX_RETRY_MS`] from now.
pub open spec fn is_retry_time(retry_at: u128) -> bool {
    MIN_RETRY_MS <= retry_at < MAX_NOW_MILLIS + MAX_RETRY_MS
}

/// Whether an election is due at `now`: the timeout is not in the future, or it
/// is so far in the future that the clock must have gone back.
pub open spec fn election_due(timeout: u128, now: u128) -> bool {
    timeout <= now || timeout - now > SUSPICIOUS_TIMEOUT_MS
}

impl StateView {
    /// The state of a node that has been elected leader of `term`.
    pub open spec fn elected(self, term: u64) -> StateView {
        StateView { leader_id: self.identity, current_term: term, ..self }
    }

    /// The state of a candidate after one report of the persistence worker, and
    /// whether the report makes it leader.
    ///
    /// The vote of the candidate for itself counts once it is on disk: if a
    /// quorum of votes is there too, the election is won.
    pub open spec fn candidate_persistence_step(self, event: PersistenceResponseType) -> (
        StateView,
        bool,
    ) {
        let id = match event {
            PersistenceResponseType::LogPersisted { id } => id,
            PersistenceResponseType::VotePersisted { id, .. } => id,
        };
        if !self.outstanding.contains_key(id) {
            (self, false)
        } else {
            let message = self.outstanding[id];
            match (event, message.message_type) {
                (
                    PersistenceResponseType::VotePersisted { .. },
                    OutstandingMessageType::RequestVote { callback },
                ) => (
                    self.forgetting(id).answering(callback, ResponseView::RequestVote(true)),
                    false,
                ),
                (
                    PersistenceResponseType::VotePersisted { term, .. },
                    OutstandingMessageType::CandidateElection { .. },
                ) => {
                    if message.acks() >= self.quorum_size {
                        (self.forgetting(id).elected(term), true)
                    } else {
                        (self.waiting(id, message.progressed(true, message.acks())), false)
                    }
                },
                (
                    PersistenceResponseType::LogPersisted { .. },
                    OutstandingMessageType::AppendLog { callback },
                ) => (
                    self.forgetting(id).answering(
                        callback,
                        ResponseView::AppendEntries(LocalAppendEntriesCallbackResponse::Accepted),
                    ),
                    false,
                ),
                _ => (self.forgetting(id), false),
            }
        }
    }

    /// The state of a candidate after one response of a quorum worker, and
    /// whether the response makes it leader.
    ///
    /// The election is won with a quorum of votes, once the vote of the
    /// candidate for itself is on disk. It is lost when no vote can come any more.
    pub open spec fn candidate_quorum_step(self, event: LocalQuorumResponse) -> (StateView, bool) {
        match event.response_type {
            LocalQuorumTaskResponseType::RequestVoteResponse { id, term, received_vote } => {
                if !self.outstanding.contains_key(id) {
                    (self, false)
                } else {
                    let message = self.outstanding[id];
                    match message.message_type {
                        OutstandingMessageType::RequestVote { callback } => (
                            self.forgetting(id).answering(
                                callback,
                                ResponseView::RequestVote(received_vote),
                            ),
                            false,
                        ),
                        OutstandingMessageType::AppendLog { callback } => (
                            self.forgetting(id).answering(
                                callback,
                                ResponseView::RequestVote(received_vote),
                            ),
                            false,
                        ),
                        OutstandingMessageType::CandidateElection { .. } => {
                            let votes = message.acks() + if received_vote {
                                1int
                            } else {
                                0int
                            };
                            if votes >= self.quorum_size && message.is_persisted() {
                                (self.forgetting(id).elected(term), true)
                            } else if message.outstanding_responses > 1 {
                                (
                                    self.waiting(
                                        id,
                                        message.progressed(message.is_persisted(), votes),
                                    ),
                                    false,
                                )
                            } else {
                                (self.forgetting(id), false)
                            }
                        },
                        _ => (self.forgetting(id), false),
                    }
                }
            },
            _ => (self, false),
        }
    }

    /// The state of a candidate after the reports `events`, one after the other,
    /// and which of them makes it leader. The reports behind that one are not
    /// processed.
    pub open spec fn candidate_persistence_run(self, events: Seq<PersistenceResponseType>) -> (
        StateView,
        Option<int>,
    )
        decreases events.len(),
    {
        if events.len() == 0 {
            (self, None)
        } else {
            let (state, winner) = self.candidate_persistence_run(events.drop_last());
            if winner is Some {
                (state, winner)
            } else {
                let (after, won) = state.candidate_persistence_step(events.last());
                (
                    after,
                    if won {
                        Some(events.len() - 1)
                    } else {
                        None
                    },
                )
            }
        }
    }

    /// The state of a candidate after the responses `events`, one after the
    /// other, and which of them makes it leader. The responses behind that one
    /// are not processed.
    pub open spec fn candidate_quorum_run(self, events: Seq<LocalQuorumResponse>) -> (
        StateView,
        Option<int>,
    )
        decreases events.len(),
    {
        if events.len() == 0 {
            (self, None)
        } else {
            let (state, winner) = self.candidate_quorum_run(events.drop_last());
            if winner is Some {
                (state, winner)
            } else {
                let (after, won) = state.candidate_quorum_step(events.last());
                (
                    after,
                    if won {
                        Some(events.len() - 1)
                    } else {
                        None
                    },
                )
            }
        }
    }

    /// The state once the candidate has processed what the persistence worker
    /// has reported, and which report makes it leader.
    pub open spec fn candidate_after_persistence(self) -> (StateView, Option<int>) {
        let (state, winner) = (StateView {
            persistence_response: Seq::empty(),
            ..self
        }).candidate_persistence_run(self.persistence_response);
        match winner {
            Some(index) => (
                StateView {
                    persistence_response: self.persistence_response.skip(index + 1),
                    ..state
                },
                winner,
            ),
            None => (state, None),
        }
    }

    /// The state once the candidate has processed what the quorum workers have
    /// reported, and which response makes it leader.
    pub open spec fn candidate_after_quorum(self) -> (StateView, Option<int>) {
        let (state, winner) = (StateView {
            quorum_response: Seq::empty(),
            ..self
        }).candidate_quorum_run(self.quorum_response);
        match winner {
            Some(index) => (
                StateView { quorum_response: self.quorum_response.skip(index + 1), ..state },
                winner,
            ),
            None => (state, None),
        }
    }

    /// The state once the node has started an election for the next term, where
    /// `sent` says whether the persistence worker took its vote for itself.
    pub open spec fn electing(self, sent: bool) -> StateView {
        let id = self.next_message_id;
        let term = self.next_term;
        (StateView {
            next_term: (term + 1) as u64,
            term_votes: self.term_votes.insert(term, self.identity),
            ..self.with_fresh_message_id()
        }).dispatching(
            TaskView::RequestVote {
                id,
                term,
                last_term: self.last_log_term,
                last_index: self.last_log_index,
            },
        ).persisting(
            PersistenceTaskView::AppendVote { id, term, candidate_id: self.identity },
            sent,
        ).registering(
            OutstandingMessage {
                id,
                outstanding_responses: (self.tasks.len() + 1) as i32,
                message_type: OutstandingMessageType::CandidateElection {
                    persistence_done: false,
                    quorum_votes: 1,
                },
            },
        )
    }

    /// Whether a candidate whose election timeout is `timeout` comes to `after`
    /// by a time step at `now`, which makes it leader or not, with `work` items
    /// of work done.
    ///
    /// The reports are processed first. If none of them makes the candidate
    /// leader, it starts an election when one is due, and then goes on with the
    /// broadcast of committed entries.
    pub open spec fn candidate_time_step(
        self,
        timeout: u128,
        now: u128,
        after: StateView,
        elected: bool,
        work: u64,
    ) -> bool {
        let (persisted, first_winner) = self.candidate_after_persistence();
        let (counted, second_winner) = persisted.candidate_after_quorum();
        match (first_winner, second_winner) {
            (Some(index), _) => elected && after == persisted && work == index + 1,
            (None, Some(index)) => elected && after == counted && work
                == self.persistence_response.len() + index + 1,
            (None, None) => {
                &&& !elected
                &&& exists|sent: bool|
                    {
                        let state = #[trigger] counted.election_step(timeout, now, sent);
                        &&& after == (StateView { bus: after.bus, ..state })
                        &&& state.bus.caught_up(state.log, state.commit_index, after.bus)
                    }
                &&& work == self.waiting_events() + (if election_due(timeout, now) {
                    1int
                } else {
                    0int
                }) + after.bus.next() - self.bus.next()
            },
        }
    }

    /// The state once an election has been started, if one is due.
    pub open spec fn election_step(self, timeout: u128, now: u128, sent: bool) -> StateView {
        if election_due(timeout, now) {
            self.electing(sent)
        } else {
            self
        }
    }

    /// The state of a candidate once some leader has sent it a request: it
    /// recognises a leader whose term is not below its own.
    pub open spec fn candidate_appends(
        self,
        request: LocalAppendEntries,
        callback: Callback,
    ) -> StateView {
        if request.term >= self.current_term {
            self.recognising(request.term, request.leader_id).answering(
                callback,
                if self.is_followed_by(request) {
                    ResponseView::AppendEntries(LocalAppendEntriesCallbackResponse::Accepted)
                } else {
                    self.wanted_entry()
                },
            )
        } else {
            self.answering(
                callback,
                ResponseView::AppendEntries(LocalAppendEntriesCallbackResponse::UnrecognizedLeader),
            )
        }
    }
}

/// Once an election is won, later reports are not looked at.
proof fn lemma_persistence_run_stops(
    state: StateView,
    events: Seq<PersistenceResponseType>,
    count: int,
)
    requires
        0 <= count <= events.len(),
        state.candidate_persistence_run(events.take(count)).1 is Some,
    ensures
        state.candidate_persistence_run(events) == state.candidate_persistence_run(
            events.take(count),
        ),
    decreases events.len() - count,
{
    if count == events.len() {
        assert(events.take(count) =~= events);
    } else {
        assert(events.take(count + 1).drop_last() =~= events.take(count));
        lemma_persistence_run_stops(state, events, count + 1);
    }
}

/// Once an election is won, later responses are not looked at.
proof fn lemma_quorum_run_stops(state: StateView, events: Seq<LocalQuorumResponse>, count: int)
    requires
        0 <= count <= events.len(),
        state.candidate_quorum_run(events.take(count)).1 is Some,
    ensures
        state.candidate_quorum_run(events) == state.candidate_quorum_run(events.take(count)),
    decreases events.len() - count,
{
    if count == events.len() {
        assert(events.take(count) =~= events);
    } else {
        assert(events.take(count + 1).drop_last() =~= events.take(count));
        lemma_quorum_run_stops(state, events, count + 1);
    }
}

/// A report of the persistence worker takes at most one from the room of the counters.
proof fn lemma_candidate_persistence_room(
    before: StateView,
    event: PersistenceResponseType,
    events: int,
)
    requires
        1 <= events,
        before.has_room(events),
    ensures
        before.candidate_persistence_step(event).0.has_room(events - 1),
{
    let id = match event {
        PersistenceResponseType::LogPersisted { id } => id,
        PersistenceResponseType::VotePersisted { id, .. } => id,
    };
    shared_state::lemma_outstanding_room(before, id, events);
    if before.outstanding.contains_key(id) {
        let message = before.outstanding[id];
        assert(message.progressed(true, message.acks()).has_room(events - 1));
    }
}

/// A response of a quorum worker takes at most one from the room of the counters.
proof fn lemma_candidate_quorum_room(before: StateView, event: LocalQuorumResponse, events: int)
    requires
        1 <= events,
        before.has_room(events),
    ensures
        before.candidate_quorum_step(event).0.has_room(events - 1),
{
    shared_state::lemma_outstanding_room(before, 0, events);
    if let LocalQuorumTaskResponseType::RequestVoteResponse { id, .. } = event.response_type {
        shared_state::lemma_outstanding_room(before, id, events);
        if before.outstanding.contains_key(id) {
            let message = before.outstanding[id];
            assert(message.progressed(message.is_persisted(), message.acks()).has_room(
                events - 1,
            ));
            assert(message.progressed(message.is_persisted(), message.acks() + 1).has_room(
                events - 1,
            ));
        }
    }
}

impl RaftCandidateStateDelegate {
    pub fn new() -> (delegate: Self)
        ensures
            delegate.initiate_election_timeout == 0,
            delegate.ongoing_election is None,
    {
        RaftCandidateStateDelegate { initiate_election_timeout: 0, ongoing_election: None }
    }

    /// Handles one report of the persistence worker. Says whether the node is elected.
    fn handle_persistence_response(
        &self,
        event: PersistenceResponseType,
        shared_state: &mut SharedState,
    ) -> (elected: bool)
        requires
            old(shared_state)@.has_room(1),
        ensures
            (final(shared_state)@, elected) == old(shared_state)@.candidate_persistence_step(event),
    {
        match event {
            PersistenceResponseType::VotePersisted { id, term, candidate_id: _ } => {
                if let Some(message) = shared_state.take_outstanding(id) {
                    match message.message_type {
                        OutstandingMessageType::RequestVote { callback } => {
                            shared_state.respond(
                                callback,
                                LocalRaftResponsePayload::RequestVote(true),
                            );
                        },
                        OutstandingMessageType::CandidateElection {
                            persistence_done: _,
                            quorum_votes,
                        } => {
                            if quorum_votes >= shared_state.quorum_size {
                                shared_state.server_state.leader_id = shared_state.identity;
                                shared_state.server_state.current_term = term;
                                return true;
                            }
                            let message_type = OutstandingMessageType::CandidateElection {
                                persistence_done: true,
                                quorum_votes,
                            };
                            let outstanding_responses: i32 = message.outstanding_responses - 1;
                            shared_state.keep_waiting(
                                id,
                                OutstandingMessage {
                                    id: message.id,
                                    outstanding_responses,
                                    message_type,
                                },
                            );
                            assert(shared_state@.outstanding
                                =~= old(shared_state)@.outstanding.insert(
                                id,
                                message.progressed(true, message.acks()),
                            ));
                        },
                        _ => {},
                    }
                } else {
                    assert(shared_state@.outstanding =~= old(shared_state)@.outstanding);
                }
            },
            PersistenceResponseType::LogPersisted { id } => {
                if let Some(message) = shared_state.take_outstanding(id) {
                    if let OutstandingMessageType::AppendLog { callback } = message.message_type {
                        shared_state.respond(
                            callback,
                            LocalRaftResponsePayload::AppendEntries(
                                LocalAppendEntriesCallbackResponse::Accepted,
                            ),
                        );
                    }
                } else {
                    assert(shared_state@.outstanding =~= old(shared_state)@.outstanding);
                }
            },
        }
        false
    }

    /// Handles one response of a quorum worker. Says whether the node is elected.
    fn handle_quorum_response(
        &self,
        event: LocalQuorumResponse,
        shared_state: &mut SharedState,
    ) -> (elected: bool)
        requires
            old(shared_state)@.has_room(1),
        ensures
            (final(shared_state)@, elected) == old(shared_state)@.candidate_quorum_step(event),
    {
        if let LocalQuorumTaskResponseType::RequestVoteResponse { id, term, received_vote } =
            event.response_type {
            if let Some(message) = shared_state.take_outstanding(id) {
                let outstanding_responses: i32 = message.outstanding_responses - 1;
                match message.message_type {
                    OutstandingMessageType::RequestVote { callback } => {
                        shared_state.respond(
                            callback,
                            LocalRaftResponsePayload::RequestVote(received_vote),
                        );
                    },
                    OutstandingMessageType::CandidateElection { persistence_done, quorum_votes } => {
                        let new_votes: u32 = if received_vote {
                            quorum_votes + 1
                        } else {
                            quorum_votes
                        };
                        if new_votes >= shared_state.quorum_size && persistence_done {
                            shared_state.server_state.leader_id = shared_state.identity;
                            shared_state.server_state.current_term = term;
                            return true;
                        } else if outstanding_responses > 0 {
                            let message_type = OutstandingMessageType::CandidateElection {
                                persistence_done,
                                quorum_votes: new_votes,
                            };
                            shared_state.keep_waiting(
                                id,
                                OutstandingMessage {
                                    id: message.id,
                                    outstanding_responses,
                                    message_type,
                                },
                            );
                            assert(shared_state@.outstanding
                                =~= old(shared_state)@.outstanding.insert(
                                id,
                                message.progressed(persistence_done, new_votes as int),
                            ));
                        }
                    },
                    OutstandingMessageType::AppendLog { callback } => {
                        shared_state.respond(
                            callback,
                            LocalRaftResponsePayload::RequestVote(received_vote),
                        );
                    },
                    _ => {},
                }
            } else {
                assert(shared_state@.outstanding =~= old(shared_state)@.outstanding);
            }
        }
        false
    }

    /// Processes what the persistence worker has reported, up to a report that
    /// makes this node leader. Returns whether there is one, and the work done.
    fn process_persistence_responses(&self, shared_state: &mut SharedState) -> (result: (bool, u64))
        requires
            old(shared_state)@.has_room(old(shared_state)@.persistence_response.len() as int),
        ensures
            final(shared_state)@ == old(shared_state)@.candidate_after_persistence().0,
            match old(shared_state)@.candidate_after_persistence().1 {
                Some(index) => result.0 && result.1 == index + 1,
                None => !result.0 && result.1 == old(shared_state)@.persistence_response.len(),
            },
            forall|room: int|
                old(shared_state)@.has_room(room + old(shared_state)@.persistence_response.len())
                    && 0 <= room ==> #[trigger] final(shared_state)@.has_room(room),
    {
        let mut events = shared_state.take_persistence_responses();
        let ghost start = shared_state@;
        let ghost all = events@;
        let mut done: usize = 0;
        assert(all.take(0) =~= Seq::empty());
        while done < events.len()
            invariant
                all == events@,
                all == old(shared_state)@.persistence_response,
                start == (StateView {
                    persistence_response: Seq::empty(),
                    ..old(shared_state)@
                }),
                done <= all.len(),
                start.candidate_persistence_run(all.take(done as int)) == (
                    shared_state@,
                    None::<int>,
                ),
                shared_state@.has_room(all.len() - done),
                forall|room: int|
                    start.has_room(room + done) && 0 <= room ==> #[trigger] shared_state@.has_room(
                        room,
                    ),
            decreases all.len() - done,
        {
            let ghost before = shared_state@;
            let event = events[done];
            let elected: bool = self.handle_persistence_response(event, shared_state);
            proof {
                assert(all.take(done + 1).drop_last() =~= all.take(done as int));
                lemma_candidate_persistence_room(before, event, all.len() - done);
                assert forall|room: int| start.has_room(room + done + 1) && 0
                    <= room implies #[trigger] shared_state@.has_room(room) by {
                    assert(before.has_room(room + 1));
                    lemma_candidate_persistence_room(before, event, room + 1);
                }
            }
            done = done + 1;
            if elected {
                proof {
                    lemma_persistence_run_stops(start, all, done as int);
                }
                let ghost won = shared_state@;
                shared_state.persistence_response = events.split_off(done);
                proof {
                    assert(shared_state@.persistence_response =~= all.skip(done as int));
                    assert forall|room: int| start.has_room(room + all.len()) && 0
                        <= room implies #[trigger] shared_state@.has_room(room) by {
                        shared_state::lemma_less_room(start, room + all.len(), room + done);
                        assert(won.has_room(room));
                    }
                }
                return (true, done as u64);
            }
        }
        assert(all.take(done as int) =~= all);
        (false, done as u64)
    }

    /// Processes what the quorum workers have reported, up to a response that
    /// makes this node leader. Returns whether there is one, and the work done.
    fn process_quorum_responses(&self, shared_state: &mut SharedState) -> (result: (bool, u64))
        requires
            old(shared_state)@.has_room(old(shared_state)@.quorum_response.len() as int),
        ensures
            final(shared_state)@ == old(shared_state)@.candidate_after_quorum().0,
            match old(shared_state)@.candidate_after_quorum().1 {
                Some(index) => result.0 && result.1 == index + 1,
                None => !result.0 && result.1 == old(shared_state)@.quorum_response.len(),
            },
            forall|room: int|
                old(shared_state)@.has_room(room + old(shared_state)@.quorum_response.len()) && 0
                    <= room ==> #[trigger] final(shared_state)@.has_room(room),
    {
        let mut events = shared_state.take_quorum_responses();
        let ghost start = shared_state@;
        let ghost all = events@;
        let mut done: usize = 0;
        assert(all.take(0) =~= Seq::empty());
        while done < events.len()
            invariant
                all == events@,
                all == old(shared_state)@.quorum_response,
                start == (StateView { quorum_response: Seq::empty(), ..old(shared_state)@ }),
                done <= all.len(),
                start.candidate_quorum_run(all.take(done as int)) == (shared_state@, None::<int>),
                shared_state@.has_room(all.len() - done),
                forall|room: int|
                    start.has_room(room + done) && 0 <= room ==> #[trigger] shared_state@.has_room(
                        room,
                    ),
            decreases all.len() - done,
        {
            let ghost before = shared_state@;
            let event = events[done];
            let elected: bool = self.handle_quorum_response(event, shared_state);
            proof {
                assert(all.take(done + 1).drop_last() =~= all.take(done as int));
                lemma_candidate_quorum_room(before, event, all.len() - done);
                assert forall|room: int| start.has_room(room + done + 1) && 0
                    <= room implies #[trigger] shared_state@.has_room(room) by {
                    assert(before.has_room(room + 1));
                    lemma_candidate_quorum_room(before, event, room + 1);
                }
            }
            done = done + 1;
            if elected {
                proof {
                    lemma_quorum_run_stops(start, all, done as int);
                }
                let ghost won = shared_state@;
                shared_state.quorum_response = events.split_off(done);
                proof {
                    assert(shared_state@.quorum_response =~= all.skip(done as int));
                    assert forall|room: int| start.has_room(room + all.len()) && 0
                        <= room implies #[trigger] shared_state@.has_room(room) by {
                        shared_state::lemma_less_room(start, room + all.len(), room + done);
                        assert(won.has_room(room));
                    }
                }
                return (true, done as u64);
            }
        }
        assert(all.take(done as int) =~= all);
        (false, done as u64)
    }

    /// Starts an election for the next term. Says whether the vote of this node
    /// for itself was sent to the persistence worker.
    fn start_election(&mut self, shared_state: &mut SharedState, now: u128) -> (sent: bool)
        requires
            old(shared_state)@.has_room(1),
        ensures
            final(shared_state)@ == old(shared_state)@.electing(sent),
            *final(self) == (RaftCandidateStateDelegate {
                ongoing_election: Some(
                    OngoingElection { term: old(shared_state)@.next_term, started_millis: now },
                ),
                ..*old(self)
            }),
    {
        broadcast use vstd::std_specs::hash::group_hash_axioms;

        let id: u64 = shared_state.fresh_message_id();
        let term: u64 = shared_state.volatile_server_state.next_term;
        shared_state.volatile_server_state.next_term = term + 1;
        let last_term: u64 = shared_state.volatile_server_state.last_log_term;
        let last_index: u64 = shared_state.volatile_server_state.last_log_index;
        self.ongoing_election = Some(OngoingElection { term, started_millis: now });
        shared_state.dispatch_task(
            &LocalQuorumWorkerTask {
                task_type: LocalQuorumWorkerTaskType::RequestVote {
                    id,
                    term,
                    last_term,
                    last_index,
                },
            },
        );
        let candidate_id: u32 = shared_state.identity;
        // A vote that could not be sent is never reported as persisted, so such
        // an election is not won.
        let sent: bool = shared_state.persist(
            PersistenceTaskType::AppendVote { id, term, candidate_id },
        );
        shared_state.term_votes.insert(term, candidate_id);
        let workers: usize = shared_state.quorum_worker_tasks.len();
        assert(workers == shared_state@.tasks.len());
        shared_state.register(
            OutstandingMessage {
                id,
                outstanding_responses: workers as i32 + 1,
                message_type: OutstandingMessageType::CandidateElection {
                    persistence_done: false,
                    quorum_votes: 1,
                },
            },
        );
        sent
    }

    /// Whether an election is due at `now`.
    pub fn is_election_due(&self, now: u128) -> (due: bool)
        ensures
            due == election_due(self.initiate_election_timeout, now),
    {
        if self.initiate_election_timeout > now {
            self.initiate_election_timeout - now > SUSPICIOUS_TIMEOUT_MS
        } else {
            true
        }
    }
}

impl RaftCandidateStateDelegate {
    /// The candidate after a time step at `now` from `state`, which makes it leader
    /// or not. An election that has been started is noted, and the next one is
    /// due at `retry_at`.
    pub open spec fn stepped(
        self,
        state: StateView,
        now: u128,
        retry_at: u128,
        elected: bool,
    ) -> RaftCandidateStateDelegate {
        if elected || !election_due(self.initiate_election_timeout, now) {
            self
        } else {
            let counted = state.candidate_after_persistence().0.candidate_after_quorum().0;
            RaftCandidateStateDelegate {
                initiate_election_timeout: retry_at,
                ongoing_election: Some(
                    OngoingElection { term: counted.next_term, started_millis: now },
                ),
            }
        }
    }

    /// Does what is due at `now`. A new election is followed by the next one at
    /// `retry_at`. Returns (state_change, work_done_count).
    pub fn time_step_at(
        &mut self,
        shared_state: &mut SharedState,
        now: u128,
        retry_at: u128,
    ) -> (result: (RaftMessageStateChange, u64))
        requires
            old(shared_state)@.has_room(old(shared_state)@.waiting_events() + 1),
        ensures
            old(shared_state)@.candidate_time_step(
                old(self).initiate_election_timeout,
                now,
                final(shared_state)@,
                result.0 is Leader,
                result.1,
            ),
            result.0 is Unchanged || result.0 is Leader,
            result.0 matches RaftMessageStateChange::Leader(leader) ==> leader.is_new(),
            *final(self) == old(self).stepped(
                old(shared_state)@,
                now,
                retry_at,
                result.0 is Leader,
            ),
    {
        let ghost start = shared_state@;
        let ghost timeout = self.initiate_election_timeout;
        proof {
            shared_state::lemma_less_room(
                start,
                start.waiting_events() + 1,
                start.persistence_response.len() as int,
            );
        }
        let (elected, persistence_work) = self.process_persistence_responses(shared_state);
        if elected {
            return (RaftMessageStateChange::Leader(RaftLeaderStateDelegate::new(&shared_state.anchor)), persistence_work);
        }
        let ghost persisted = shared_state@;
        proof {
            lemma_persistence_run_frame(
                StateView { persistence_response: Seq::empty(), ..start },
                start.persistence_response,
            );
            assert(persisted.has_room(start.quorum_response.len() + 1int));
            shared_state::lemma_less_room(
                persisted,
                start.quorum_response.len() + 1int,
                start.quorum_response.len() as int,
            );
        }
        let (elected, quorum_work) = self.process_quorum_responses(shared_state);
        proof {
            lemma_quorum_run_frame(
                StateView { quorum_response: Seq::empty(), ..persisted },
                persisted.quorum_response,
            );
        }
        let mut work_done: u64 = persistence_work + quorum_work;
        if elected {
            return (RaftMessageStateChange::Leader(RaftLeaderStateDelegate::new(&shared_state.anchor)), work_done);
        }
        let ghost counted = shared_state@;
        assert(counted.has_room(1));
        let mut sent: bool = false;
        if self.is_election_due(now) {
            work_done = work_done + 1;
            sent = self.start_election(shared_state, now);
            self.initiate_election_timeout = retry_at;
        }
        let ghost state = shared_state@;
        assert(state == counted.election_step(timeout, now, sent));
        let broadcast_work: u64 = shared_state.retry_deferred_broadcast();
        work_done = work_done + broadcast_work;
        (RaftMessageStateChange::Unchanged, work_done)
    }
}

/// Processing the reports of the persistence worker leaves the responses of the
/// quorum workers and the broadcast alone.
proof fn lemma_persistence_run_frame(state: StateView, events: Seq<PersistenceResponseType>)
    ensures
        state.candidate_persistence_run(events).0.quorum_response == state.quorum_response,
        state.candidate_persistence_run(events).0.bus == state.bus,
    decreases events.len(),
{
    if events.len() > 0 {
        lemma_persistence_run_frame(state, events.drop_last());
    }
}

/// Processing the responses of the quorum workers leaves the broadcast alone.
proof fn lemma_quorum_run_frame(state: StateView, events: Seq<LocalQuorumResponse>)
    ensures
        state.candidate_quorum_run(events).0.bus == state.bus,
        state.candidate_quorum_run(events).1 matches Some(index) ==> 0 <= index < events.len(),
    decreases events.len(),
{
    if events.len() > 0 {
        lemma_quorum_run_frame(state, events.drop_last());
    }
}

impl RaftProtocol for RaftCandidateStateDelegate {
    open spec fn wf(&self) -> bool {
        true
    }

    fn get_node_type(&self) -> (node_type: RaftNodeType)
        ensures
            node_type == RaftNodeType::Candidate,
    {
        RaftNodeType::Candidate
    }

    fn append_entries(
        &mut self,
        append_entries_request: LocalAppendEntries,
        callback: Callback,
        shared_state: &mut SharedState,
    ) -> (change: RaftMessageStateChange)
        ensures
            *final(self) == *old(self),
            final(shared_state)@ == old(shared_state)@.candidate_appends(
                append_entries_request,
                callback,
            ),
            if append_entries_request.term >= old(shared_state)@.current_term {
                change matches RaftMessageStateChange::Follower(follower) && follower.wf()
                    && follower.election_timer.is_new()
            } else {
                change is Unchanged
            },
    {
        if append_entries_request.term >= shared_state.server_state.current_term {
            shared_state.server_state.current_term = append_entries_request.term;
            shared_state.server_state.leader_id = append_entries_request.leader_id;
            shared_state.volatile_server_state.next_term = append_entries_request.term + 1;
            let last_index: u64 = shared_state.volatile_server_state.last_log_index;
            let last_term: u64 = shared_state.volatile_server_state.last_log_term;
            if append_entries_request.prev_index == last_index && append_entries_request.prev_term
                == last_term {
                shared_state.respond(
                    callback,
                    LocalRaftResponsePayload::AppendEntries(
                        LocalAppendEntriesCallbackResponse::Accepted,
                    ),
                );
            } else {
                shared_state.respond(
                    callback,
                    LocalRaftResponsePayload::AppendEntries(
                        LocalAppendEntriesCallbackResponse::WantedPreviousEntry {
                            last_term,
                            last_index,
                        },
                    ),
                );
            }
            return RaftMessageStateChange::Follower(RaftFollowerStateDelegate::new(&shared_state.anchor));
        }
        shared_state.respond(
            callback,
            LocalRaftResponsePayload::AppendEntries(
                LocalAppendEntriesCallbackResponse::UnrecognizedLeader,
            ),
        );
        RaftMessageStateChange::Unchanged
    }

    fn time_step(&mut self, shared_state: &mut SharedState) -> (result: (
        RaftMessageStateChange,
        u64,
    ))
        ensures
            exists|now: u128, retry_at: u128|
                {
                    &&& now <= MAX_NOW_MILLIS
                    &&& is_retry_time(retry_at)
                    &&& #[trigger] old(shared_state)@.candidate_time_step(
                        old(self).initiate_election_timeout,
                        now,
                        final(shared_state)@,
                        result.0 is Leader,
                        result.1,
                    )
                    &&& *final(self) == #[trigger] old(self).stepped(
                        old(shared_state)@,
                        now,
                        retry_at,
                        result.0 is Leader,
                    )
                },
            result.0 is Unchanged || result.0 is Leader,
            result.0 matches RaftMessageStateChange::Leader(leader) ==> leader.is_new(),
    {
        let ghost start = shared_state@;
        proof {
            shared_state::lemma_less_room(start, start.waiting_events() + 2, start.waiting_events() + 1);
        }
        let now: u128 = now_millis(&shared_state.anchor);
        let pause: u64 = random_between(MIN_RETRY_MS, MAX_RETRY_MS);
        let retry_at: u128 = millis_after(now_millis(&shared_state.anchor), pause);
        self.time_step_at(shared_state, now, retry_at)
    }

    fn request_vote(
        &mut self,
        request_vote_request: LocalRequestVoteRequest,
        callback: Callback,
        shared_state: &mut SharedState,
    ) -> (change: RaftMessageStateChange)
        ensures
            *final(self) == *old(self),
            change is Unchanged,
            exists|sent: bool|
                final(shared_state)@ == #[trigger] old(shared_state)@.voting(
                    request_vote_request,
                    callback,
                    sent,
                ),
    {
        shared_state.vote(request_vote_request, callback);
        RaftMessageStateChange::Unchanged
    }
}

} // verus!
