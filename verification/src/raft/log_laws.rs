//! What can be relied on of the log: its indices, its readers, and how the logs
//! of two nodes come together.

use crate::persistence::worker::PersistenceResponseType;
use crate::quorum::quorum_worker::outbound;
use crate::quorum::types::{LocalQuorumResponse, LocalQuorumTaskResponseType};
use crate::raft::broadcast;
use crate::raft::laws;
use crate::raft::leader::outstanding;
use crate::raft::leader::replication;
use crate::raft::raft_sm::{
    Callback, LocalAppendEntries, LocalRaftWriteBatchRequest, LogEntry, OutstandingMessage,
};
use crate::raft::shared_state::{BusView, StateView};
use crate::service_utils::storage_utils::{self, EntryView, SerializationData};
use std::sync::Arc;
use vstd::prelude::*;

verus! {

impl StateView {
    /// Whether the readers have been given the committed entries, from the first
    /// one on, in order, without a gap and none of them twice, and nothing else.
    pub open spec fn readers_are_in_step(self) -> bool {
        &&& self.bus.next() <= self.log.len()
        &&& self.bus.next() <= self.commit_index + 1
        &&& broadcast::accepted(self.bus.offers) == self.log.take(self.bus.next())
    }

    /// Whether every entry of the log says where it stands and what it follows,
    /// and the node knows where the log ends.
    pub open spec fn log_is_indexed(self) -> bool {
        &&& forall|i: int| 0 <= i < self.log.len() ==> (#[trigger] self.log[i]).index == i
        &&& forall|i: int|
            1 <= i < self.log.len() ==> (#[trigger] self.log[i]).prev_index == i - 1
                && self.log[i].prev_term == self.log[i - 1].term
        &&& self.log.len() > 0 ==> self.last_log_index == self.log.len() - 1
        &&& self.log.len() > 0 ==> self.last_log_term == self.log.last().term
    }

    /// Whether a follower comes to `after` by `requests` of its leader, one after
    /// the other, each under its callback, with a persistence worker that takes
    /// every entry.
    pub open spec fn takes_all(
        self,
        requests: Seq<(LocalAppendEntries, Callback)>,
        after: StateView,
    ) -> bool
        decreases requests.len(),
    {
        if requests.len() == 0 {
            after == self
        } else {
            exists|middle: StateView|
                {
                    &&& self.takes_all(requests.drop_last(), middle)
                    &&& #[trigger] middle.follower_appends(
                        requests.last().0,
                        requests.last().1,
                        after,
                    )
                    &&& after.persistence_tasks.last().1
                }
        }
    }

    /// Whether the entries that the node has committed, and those that it waits
    /// to commit, are in its log.
    pub open spec fn commits_are_in_log(self) -> bool {
        &&& self.next_log_index <= self.log.len()
        &&& self.commit_index == 0 || self.commit_index < self.log.len()
        &&& forall|id: u64| #[trigger]
            self.outstanding.contains_key(id) && self.outstanding[id].index() is Some
                ==> self.outstanding[id].index()->0 < self.log.len()
    }
}

/// A broadcast takes the readers on from where they were.
proof fn lemma_reached_in_step(
    before: BusView,
    log: Seq<Arc<SerializationData>>,
    commit_index: u64,
    after: BusView,
)
    requires
        before.next() <= log.len(),
        before.next() <= commit_index + 1,
        broadcast::accepted(before.offers) == log.take(before.next()),
        before.reached(log, commit_index, after.next(), after),
    ensures
        after.next() <= log.len(),
        after.next() <= commit_index + 1,
        broadcast::accepted(after.offers) == log.take(after.next()),
{
    if after.next() > before.next() {
        assert(log.take(before.next()) + log.subrange(before.next(), after.next()) =~= log.take(
            after.next(),
        ));
    }
}

/// Broadcasting what is committed keeps the readers in step.
proof fn lemma_broadcast_in_step(before: StateView, index: u64, after: BusView)
    requires
        before.readers_are_in_step(),
        before.commit_index <= index,
        before.bus.broadcast_to(before.log, index, after),
    ensures
        (StateView { bus: after, commit_index: index, ..before }).readers_are_in_step(),
{
    if before.bus.next() <= index {
        lemma_reached_in_step(before.bus, before.log, index, after);
    }
}

/// Catching up with what is committed keeps the readers in step.
proof fn lemma_caught_up_in_step(before: StateView, after: BusView)
    requires
        before.readers_are_in_step(),
        before.bus.caught_up(before.log, before.commit_index, after),
    ensures
        (StateView { bus: after, ..before }).readers_are_in_step(),
{
    if before.bus.deferred && before.bus.next() <= before.commit_index {
        let most = before.bus.next() + broadcast::MAX_BROADCAST_PER_TIMESTEP - 1;
        let last = if before.commit_index < most {
            before.commit_index as int
        } else {
            most
        };
        lemma_reached_in_step(before.bus, before.log, last as u64, after);
    }
}

/// A longer log that begins with the entries that were broadcast keeps the
/// readers in step.
proof fn lemma_extended_in_step(before: StateView, entry: Arc<SerializationData>)
    requires
        before.readers_are_in_step(),
    ensures
        (StateView { log: before.log.push(entry), ..before }).readers_are_in_step(),
{
    assert(before.log.push(entry).take(before.bus.next()) =~= before.log.take(before.bus.next()));
}

/// One report of the persistence worker keeps the readers of a leader in step.
proof fn lemma_persistence_run_in_step(
    before: StateView,
    events: Seq<PersistenceResponseType>,
    after: StateView,
)
    requires
        before.readers_are_in_step(),
        before.leader_persistence_run(events, after),
    ensures
        after.readers_are_in_step(),
    decreases events.len(),
{
    if events.len() > 0 {
        let middle = choose|middle: StateView|
            before.leader_persistence_run(events.drop_last(), middle)
                && #[trigger] middle.leader_persistence_step(events.last(), after);
        lemma_persistence_run_in_step(before, events.drop_last(), middle);
        if after.commit_index > middle.commit_index {
            let bumped = StateView {
                bus: BusView {
                    version: broadcast::bumped(middle.bus.version, 1),
                    ..middle.bus
                },
                ..middle
            };
            lemma_broadcast_in_step(bumped, after.commit_index, after.bus);
        }
    }
}

/// One response of a quorum worker keeps the readers of a leader in step.
proof fn lemma_quorum_run_in_step(
    before: StateView,
    events: Seq<LocalQuorumResponse>,
    after: StateView,
)
    requires
        before.readers_are_in_step(),
        before.leader_quorum_run(events, after),
    ensures
        after.readers_are_in_step(),
    decreases events.len(),
{
    if events.len() > 0 {
        let middle = choose|middle: StateView|
            before.leader_quorum_run(events.drop_last(), middle)
                && #[trigger] middle.leader_quorum_step(events.last(), after);
        lemma_quorum_run_in_step(before, events.drop_last(), middle);
        if after.commit_index > middle.commit_index {
            let bumped = StateView {
                bus: BusView {
                    version: broadcast::bumped(middle.bus.version, 1),
                    ..middle.bus
                },
                ..middle
            };
            lemma_broadcast_in_step(bumped, after.commit_index, after.bus);
        }
    }
}

/// Readers only ever get committed entries, each of them once and in the order
/// of the log: a time step of a leader keeps it so.
pub proof fn law_leader_steps_keep_readers_in_step(
    before: StateView,
    initialized: bool,
    timestamp: u64,
    after: StateView,
    work: u64,
)
    requires
        before.readers_are_in_step(),
        before.leader_time_step(initialized, timestamp, after, work),
    ensures
        after.readers_are_in_step(),
{
    let (led, persisted, acknowledged) = choose|
        led: StateView,
        persisted: StateView,
        acknowledged: StateView,
    | #[trigger]
        before.leader_time_step_via(initialized, timestamp, led, persisted, acknowledged, after);
    if !initialized {
        laws::law_taking_the_lead_commits_nothing(before, timestamp, led);
        let shown = StateView { bus: led.bus, ..before };
        if before.commit_index > 0 {
            lemma_broadcast_in_step(before, before.commit_index, led.bus);
        }
        assert(shown.readers_are_in_step());
        assert(led.log =~= before.log.push(led.log.last()));
        lemma_extended_in_step(shown, led.log.last());
    }
    lemma_persistence_run_in_step(
        StateView { persistence_response: Seq::empty(), ..led },
        before.persistence_response,
        persisted,
    );
    lemma_quorum_run_in_step(
        StateView { quorum_response: Seq::empty(), ..persisted },
        before.quorum_response,
        acknowledged,
    );
    let requests = outstanding::backfill_requests(before.quorum_response);
    laws::lemma_backfilling_keeps(acknowledged, requests);
    lemma_caught_up_in_step(acknowledged.backfilling_all(requests), after.bus);
}

/// Readers only ever get committed entries, each of them once and in the order
/// of the log: a write to a leader keeps it so.
pub proof fn law_writes_keep_readers_in_step(
    before: StateView,
    request: LocalRaftWriteBatchRequest,
    callback: Callback,
    now: u128,
    after: StateView,
)
    requires
        before.readers_are_in_step(),
        before.writes_batch(request, callback, now, after),
    ensures
        after.readers_are_in_step(),
{
    if after.log != before.log {
        assert(after.log =~= before.log.push(after.log.last()));
        lemma_extended_in_step(before, after.log.last());
    }
}

/// Readers only ever get committed entries, each of them once and in the order
/// of the log: a request of a leader to a follower keeps it so, unless it takes
/// the commit index of the follower back.
pub proof fn law_appends_keep_readers_in_step(
    before: StateView,
    request: LocalAppendEntries,
    callback: Callback,
    after: StateView,
)
    requires
        before.readers_are_in_step(),
        before.follower_appends(request, callback, after),
        before.commit_index <= after.commit_index,
    ensures
        after.readers_are_in_step(),
{
    let bumped = BusView { version: broadcast::bumped(before.bus.version, 1), ..before.bus };
    if after.log != before.log {
        assert(after.log =~= before.log.push(after.log.last()));
        lemma_extended_in_step(before, after.log.last());
        if after.bus != before.bus {
            lemma_broadcast_in_step(
                StateView { log: after.log, bus: bumped, ..before },
                after.commit_index,
                after.bus,
            );
        }
    } else if after.bus != before.bus {
        lemma_broadcast_in_step(
            StateView { bus: bumped, ..before },
            after.commit_index,
            after.bus,
        );
    }
}

/// Readers only ever get committed entries, each of them once and in the order
/// of the log: a time step of a candidate keeps it so.
pub proof fn law_candidate_steps_keep_readers_in_step(
    before: StateView,
    timeout: u128,
    now: u128,
    after: StateView,
    elected: bool,
    work: u64,
)
    requires
        before.readers_are_in_step(),
        before.candidate_time_step(timeout, now, after, elected, work),
    ensures
        after.readers_are_in_step(),
        after.log == before.log,
        after.commit_index == before.commit_index,
{
    let (persisted, first_winner) = before.candidate_after_persistence();
    let (counted, second_winner) = persisted.candidate_after_quorum();
    lemma_candidate_persistence_keeps(
        StateView { persistence_response: Seq::empty(), ..before },
        before.persistence_response,
    );
    lemma_candidate_quorum_keeps(
        StateView { quorum_response: Seq::empty(), ..persisted },
        persisted.quorum_response,
    );
    if first_winner is None && second_winner is None {
        let sent = choose|sent: bool|
            {
                let state = #[trigger] counted.election_step(timeout, now, sent);
                &&& after == (StateView { bus: after.bus, ..state })
                &&& state.bus.caught_up(state.log, state.commit_index, after.bus)
            };
        lemma_caught_up_in_step(counted.election_step(timeout, now, sent), after.bus);
    }
}

/// A candidate that is told what is on disk keeps its log and its readers.
proof fn lemma_candidate_persistence_keeps(
    state: StateView,
    events: Seq<PersistenceResponseType>,
)
    ensures
        state.candidate_persistence_run(events).0.log == state.log,
        state.candidate_persistence_run(events).0.bus == state.bus,
        state.candidate_persistence_run(events).0.commit_index == state.commit_index,
    decreases events.len(),
{
    if events.len() > 0 {
        lemma_candidate_persistence_keeps(state, events.drop_last());
    }
}

/// A candidate that hears of its peers keeps its log and its readers.
proof fn lemma_candidate_quorum_keeps(state: StateView, events: Seq<LocalQuorumResponse>)
    ensures
        state.candidate_quorum_run(events).0.log == state.log,
        state.candidate_quorum_run(events).0.bus == state.bus,
        state.candidate_quorum_run(events).0.commit_index == state.commit_index,
    decreases events.len(),
{
    if events.len() > 0 {
        lemma_candidate_quorum_keeps(state, events.drop_last());
    }
}

/// Readers only ever get committed entries, each of them once and in the order
/// of the log: a time step of a follower keeps it so, unless the follower is
/// told to take entries back that they have been given.
pub proof fn law_follower_steps_keep_readers_in_step(
    before: StateView,
    after: StateView,
    work: u64,
)
    requires
        before.readers_are_in_step(),
        before.follower_time_step(after, work),
        before.bus.next() <= after.log.len(),
    ensures
        after.readers_are_in_step(),
{
    laws::lemma_follower_persistence_keeps(before.emptied(), before.persistence_response);
    let told = before.emptied().follower_persistence_run(before.persistence_response);
    lemma_follower_quorum_shortens(told, before.quorum_response);
    let informed = before.follower_informed();
    assert(before.log.take(informed.log.len() as int).take(before.bus.next()) =~= before.log.take(
        before.bus.next(),
    ));
    lemma_caught_up_in_step(informed, after.bus);
}

/// A follower that hears of its peers at most takes entries from the end of its log.
proof fn lemma_follower_quorum_shortens(state: StateView, events: Seq<LocalQuorumResponse>)
    ensures
        state.follower_quorum_run(events).log.len() <= state.log.len(),
        state.follower_quorum_run(events).log == state.log.take(
            state.follower_quorum_run(events).log.len() as int,
        ),
        state.follower_quorum_run(events).bus.offers == state.bus.offers,
        state.follower_quorum_run(events).bus.last_index == state.bus.last_index,
        state.follower_quorum_run(events).commit_index == state.commit_index,
    decreases events.len(),
{
    let after = state.follower_quorum_run(events);
    if events.len() == 0 {
        assert(state.log.take(state.log.len() as int) =~= state.log);
    } else {
        lemma_follower_quorum_shortens(state, events.drop_last());
        let earlier = state.follower_quorum_run(events.drop_last());
        assert(after.log =~= earlier.log.take(after.log.len() as int));
        assert(after.log =~= state.log.take(after.log.len() as int));
    }
}

/// A new leader whose log is indexed appends an entry that continues the log,
/// and knows where the next one goes.
pub proof fn law_taking_the_lead_keeps_log_indexed(
    before: StateView,
    timestamp: u64,
    after: StateView,
)
    requires
        before.log_is_indexed(),
        before.log.len() < u64::MAX,
        before.takes_lead(timestamp, after),
    ensures
        after.log_is_indexed(),
        after.next_log_index == after.log.len(),
{
    laws::law_taking_the_lead_commits_nothing(before, timestamp, after);
    assert(after.log =~= before.log.push(after.log.last()));
}

/// A write appends an entry that continues the log of the leader, as long as
/// there is a persistence worker to take it.
pub proof fn law_writes_keep_log_indexed(
    before: StateView,
    request: LocalRaftWriteBatchRequest,
    callback: Callback,
    now: u128,
    after: StateView,
)
    requires
        before.log_is_indexed(),
        before.next_log_index == before.log.len(),
        before.log.len() < u64::MAX,
        before.writes_batch(request, callback, now, after),
        request.writes().len() > 0 ==> after.persistence_tasks.last().1,
    ensures
        after.log_is_indexed(),
        after.next_log_index == after.log.len(),
        request.writes().len() > 0 ==> {
            &&& after.log.len() == before.log.len() + 1
            &&& after.log.drop_last() == before.log
            &&& after.log.last()@.requests == request.writes()
        },
{
    if request.writes().len() > 0 {
        let (entry, sent) = choose|entry: Arc<SerializationData>, sent: bool|
            {
                &&& entry@ == before.new_entry(
                    before.next_log_index,
                    before.next_message_id,
                    now as u64,
                    request.writes(),
                )
                &&& after == #[trigger] before.writing(
                    entry,
                    request.writes().len() as usize,
                    callback,
                    now,
                    sent,
                )
            };
        assert(sent);
        assert(after.log =~= before.log.push(entry));
        assert(after.log.drop_last() =~= before.log);
    }
}

/// What a leader sends to its peers is what a follower reads: the entry as it
/// is stored, at the same index and of the same term.
pub proof fn law_sent_entry_is_read(
    entry: EntryView,
    wire: LogEntry,
    request: LocalAppendEntries,
)
    requires
        entry.is_storable(),
        wire@ == outbound::wire_entry(entry),
        request.entry == Some(wire),
    ensures
        request.decoded() == Some(entry.stored()),
        entry.stored().index == entry.index == wire.index,
        entry.stored().term == entry.term == wire.term,
        entry.stored().prev_index == entry.prev_index,
        entry.stored().prev_term == entry.prev_term,
{
    storage_utils::law_entry_is_read_back(Seq::empty(), entry, Seq::empty());
    assert(Seq::<u8>::empty() + entry.encoded() + Seq::<u8>::empty() =~= entry.encoded());
}

/// A follower that takes the entry of its leader which comes next has it at the
/// end of its log, which stays indexed, as long as there is a persistence
/// worker to take it.
pub proof fn law_appends_keep_log_indexed(
    before: StateView,
    entry: EntryView,
    wire: LogEntry,
    request: LocalAppendEntries,
    callback: Callback,
    after: StateView,
)
    requires
        before.log_is_indexed(),
        entry.is_storable(),
        wire@ == outbound::wire_entry(entry),
        request.entry == Some(wire),
        request.request_id != 0,
        request.term > before.current_term || request.leader_id == before.leader_id,
        request.prev_index == entry.prev_index,
        request.prev_term == entry.prev_term,
        before.is_followed_by(request),
        before.log.len() == 0 ==> entry.index == 0,
        before.log.len() > 0 ==> entry.index == entry.prev_index + 1,
        before.follower_appends(request, callback, after),
        after.persistence_tasks.last().1,
    ensures
        after.log_is_indexed(),
        after.log.len() == before.log.len() + 1,
        after.log.drop_last() == before.log,
        after.log.last()@ == entry.stored(),
        after.last_log_index == entry.index,
        after.last_log_term == entry.term,
{
    law_sent_entry_is_read(entry, wire, request);
    let from = if request.term > before.current_term {
        before.recognising(request.term, request.leader_id)
    } else {
        before
    };
    assert(from.applies(request, callback, after));
    let (value, sent) = choose|value: Arc<SerializationData>, sent: bool|
        value@ == entry.stored() && #[trigger] from.accepts_entry(
            request,
            callback,
            wire,
            value,
            sent,
            after,
        );
    assert(sent);
    assert(after.log =~= before.log.push(value));
    assert(after.log.drop_last() =~= before.log);
}

/// A node that is told to truncate its log, to a point other than the start, can
/// then be given what it lacks: the leader has the entry at that point, which is
/// before what the node asked for, and asks for no further truncation.
pub proof fn law_truncation_leads_to_backfill(
    leader: StateView,
    last_log_term: u64,
    last_log_index: u64,
    prev_term: u64,
    prev_index: u64,
)
    requires
        leader.log.len() <= u64::MAX,
        leader.truncation_point(last_log_term, last_log_index) == Some((prev_term, prev_index)),
        prev_term != 0,
    ensures
        prev_index < leader.log.len(),
        prev_index < last_log_index,
        leader.log[prev_index as int].term == prev_term,
        leader.truncation_point(prev_term, prev_index) is None,
        leader.missing_entries(prev_term, prev_index) == leader.log.skip(prev_index + 1),
{
    if last_log_index < leader.log.len() {
        replication::law_last_of_term(leader.log, last_log_term, last_log_index as int);
    }
}

/// A follower that agrees with its leader up to the point to which it is told to
/// truncate its log has, once it has been given what it lacks, the log of the leader.
pub proof fn law_truncation_and_backfill_bring_logs_together(
    leader: StateView,
    follower: StateView,
    prev_term: u64,
    prev_index: u64,
)
    requires
        leader.log.len() <= u64::MAX,
        follower.log_is_indexed(),
        follower.log.len() > 0,
        leader.truncation_point(follower.last_log_term, follower.last_log_index) == Some(
            (prev_term, prev_index),
        ),
        prev_term != 0,
        follower.log.take(prev_index + 1) == leader.log.take(prev_index + 1),
    ensures
        ({
            let truncated = follower.truncated(prev_term, prev_index);
            &&& truncated.last_log_term == prev_term
            &&& truncated.last_log_index == prev_index
            &&& truncated.log_is_indexed()
            &&& truncated.log + leader.missing_entries(
                truncated.last_log_term,
                truncated.last_log_index,
            ) == leader.log
        }),
{
    law_truncation_leads_to_backfill(
        leader,
        follower.last_log_term,
        follower.last_log_index,
        prev_term,
        prev_index,
    );
    let kept = follower.log.take(prev_index + 1);
    assert(kept.last() == leader.log.take(prev_index + 1).last());
    assert(kept + leader.log.skip(prev_index + 1) =~= leader.log);
}

/// A follower that agrees with its leader up to its own last entry, or has no
/// entry, has the log of the leader once it has been given what it lacks.
pub proof fn law_backfill_brings_logs_together(leader: StateView, follower: StateView)
    requires
        follower.log_is_indexed(),
        follower.log.len() == 0 ==> follower.last_log_term == 0,
        follower.log.len() > 0 ==> follower.last_log_term != 0,
        follower.log.len() <= leader.log.len(),
        follower.log == leader.log.take(follower.log.len() as int),
        leader.log.len() > 0,
        follower.log.len() == 0 ==> follower.last_log_index == 0,
    ensures
        leader.truncation_point(follower.last_log_term, follower.last_log_index) is None,
        follower.log + leader.missing_entries(follower.last_log_term, follower.last_log_index)
            == leader.log,
{
    let missing = leader.missing_entries(follower.last_log_term, follower.last_log_index);
    if follower.log.len() > 0 {
        assert(follower.log.last() == leader.log[follower.log.len() - 1]);
        assert(follower.log + leader.log.skip(follower.log.len() as int) =~= leader.log);
    } else {
        assert(follower.log + leader.log =~= leader.log);
    }
}

/// What some entries of the log say.
pub open spec fn entries_of(log: Seq<Arc<SerializationData>>) -> Seq<EntryView> {
    log.map_values(|e: Arc<SerializationData>| e@)
}

/// Whether the request brings `entry`, as a backfill does.
pub open spec fn brings(request: LocalAppendEntries, entry: EntryView) -> bool {
    &&& request.entry matches Some(wire) && wire@ == outbound::wire_entry(entry)
    &&& request.request_id == entry.index
    &&& request.prev_index == entry.prev_index
    &&& request.prev_term == entry.prev_term
}

/// Whether `entries` come next in a log of `length` entries whose last is of `last_term`.
pub open spec fn continue_log(entries: Seq<EntryView>, length: int, last_term: u64) -> bool {
    forall|i: int|
        0 <= i < entries.len() ==> {
            &&& (#[trigger] entries[i]).is_storable()
            &&& entries[i].index == length + i
            &&& entries[i].prev_index == length + i - 1
            &&& entries[i].prev_term == if i == 0 {
                last_term
            } else {
                entries[i - 1].term
            }
        }
}

/// What comes next in a log comes next without its last entry, too.
proof fn lemma_fewer_continue_log(entries: Seq<EntryView>, length: int, last_term: u64)
    requires
        entries.len() > 0,
        continue_log(entries, length, last_term),
    ensures
        continue_log(entries.drop_last(), length, last_term),
{
    let fewer = entries.drop_last();
    assert forall|i: int| 0 <= i < fewer.len() implies {
        &&& (#[trigger] fewer[i]).is_storable()
        &&& fewer[i].index == length + i
        &&& fewer[i].prev_index == length + i - 1
        &&& fewer[i].prev_term == if i == 0 {
            last_term
        } else {
            fewer[i - 1].term
        }
    } by {
        assert(entries[i].is_storable());
    }
}

/// A follower that takes the next entry keeps its leader and its term.
proof fn lemma_next_entry_is_taken(
    before: StateView,
    entry: EntryView,
    request: LocalAppendEntries,
    callback: Callback,
    after: StateView,
)
    requires
        before.log_is_indexed(),
        before.log.len() > 0,
        entry.is_storable(),
        entry.index == before.log.len(),
        entry.prev_index == before.log.len() - 1,
        entry.prev_term == before.last_log_term,
        brings(request, entry),
        request.leader_id == before.leader_id,
        request.term <= before.current_term,
        before.follower_appends(request, callback, after),
        after.persistence_tasks.last().1,
    ensures
        after.log_is_indexed(),
        after.leader_id == before.leader_id,
        after.current_term == before.current_term,
        after.log == before.log.push(after.log.last()),
        after.log.last()@ == entry.stored(),
        after.last_log_term == entry.term,
{
    law_appends_keep_log_indexed(before, entry, request.entry->0, request, callback, after);
    assert(after.log =~= before.log.push(after.log.last()));
}

/// A follower takes a backfill of its leader whole: the entries stand at the end
/// of its log, as they are stored, in their order and without a gap. The log
/// holds at least one entry before, since a request numbered 0 is a heartbeat.
#[verifier::spinoff_prover]
pub proof fn law_backfill_is_taken(
    before: StateView,
    entries: Seq<EntryView>,
    requests: Seq<(LocalAppendEntries, Callback)>,
    after: StateView,
)
    requires
        before.log_is_indexed(),
        before.log.len() > 0,
        continue_log(entries, before.log.len() as int, before.last_log_term),
        entries.len() == requests.len(),
        forall|i: int|
            0 <= i < requests.len() ==> {
                &&& brings((#[trigger] requests[i]).0, entries[i])
                &&& requests[i].0.leader_id == before.leader_id
                &&& requests[i].0.term <= before.current_term
            },
        before.takes_all(requests, after),
    ensures
        after.log_is_indexed(),
        after.leader_id == before.leader_id,
        after.current_term == before.current_term,
        entries_of(after.log) == entries_of(before.log) + entries.map_values(
            |e: EntryView| e.stored(),
        ),
        after.last_log_term == if entries.len() > 0 {
            entries.last().term
        } else {
            before.last_log_term
        },
    decreases requests.len(),
{
    let stored = entries.map_values(|e: EntryView| e.stored());
    if requests.len() == 0 {
        assert(entries_of(before.log) + stored =~= entries_of(before.log));
    } else {
        let middle = choose|middle: StateView|
            {
                &&& before.takes_all(requests.drop_last(), middle)
                &&& #[trigger] middle.follower_appends(
                    requests.last().0,
                    requests.last().1,
                    after,
                )
                &&& after.persistence_tasks.last().1
            };
        let fewer = entries.drop_last();
        let last = entries.len() - 1;
        lemma_fewer_continue_log(entries, before.log.len() as int, before.last_log_term);
        assert forall|i: int| 0 <= i < requests.drop_last().len() implies {
            &&& brings((#[trigger] requests.drop_last()[i]).0, fewer[i])
            &&& requests.drop_last()[i].0.leader_id == before.leader_id
            &&& requests.drop_last()[i].0.term <= before.current_term
        } by {
            assert(brings(requests[i].0, entries[i]));
        }
        law_backfill_is_taken(before, fewer, requests.drop_last(), middle);
        assert(entries_of(middle.log).len() == before.log.len() + last);
        assert(entries[last].is_storable());
        assert(brings(requests[last].0, entries[last]));
        lemma_next_entry_is_taken(
            middle,
            entries[last],
            requests[last].0,
            requests[last].1,
            after,
        );
        let before_last = fewer.map_values(|e: EntryView| e.stored());
        assert(stored =~= before_last.push(entries[last].stored()));
        assert(entries_of(after.log) =~= entries_of(middle.log).push(entries[last].stored()));
        assert(entries_of(after.log) =~= entries_of(before.log) + stored);
    }
}

/// What a leader waits to commit stays in its log while it is told what is on disk.
proof fn lemma_persistence_run_in_log(
    before: StateView,
    events: Seq<PersistenceResponseType>,
    after: StateView,
)
    requires
        before.commits_are_in_log(),
        before.leader_persistence_run(events, after),
    ensures
        after.commits_are_in_log(),
        after.log == before.log,
    decreases events.len(),
{
    if events.len() > 0 {
        let middle = choose|middle: StateView|
            before.leader_persistence_run(events.drop_last(), middle)
                && #[trigger] middle.leader_persistence_step(events.last(), after);
        lemma_persistence_run_in_log(before, events.drop_last(), middle);
        assert forall|id: u64| #[trigger]
            after.outstanding.contains_key(id) && after.outstanding[id].index() is Some implies
            after.outstanding[id].index()->0 < after.log.len() by {
            assert(middle.outstanding.contains_key(id));
            assert(middle.outstanding[id].index() == after.outstanding[id].index());
        }
        let id = match events.last() {
            PersistenceResponseType::LogPersisted { id } => id,
            PersistenceResponseType::VotePersisted { id, .. } => id,
        };
        assert(middle.outstanding.contains_key(id) || after == middle);
    }
}

/// What a leader waits to commit stays in its log while it hears of its peers.
proof fn lemma_quorum_run_in_log(
    before: StateView,
    events: Seq<LocalQuorumResponse>,
    after: StateView,
)
    requires
        before.commits_are_in_log(),
        before.leader_quorum_run(events, after),
    ensures
        after.commits_are_in_log(),
        after.log == before.log,
    decreases events.len(),
{
    if events.len() > 0 {
        let middle = choose|middle: StateView|
            before.leader_quorum_run(events.drop_last(), middle)
                && #[trigger] middle.leader_quorum_step(events.last(), after);
        lemma_quorum_run_in_log(before, events.drop_last(), middle);
        assert forall|id: u64| #[trigger]
            after.outstanding.contains_key(id) && after.outstanding[id].index() is Some implies
            after.outstanding[id].index()->0 < after.log.len() by {
            assert(middle.outstanding.contains_key(id));
            assert(middle.outstanding[id].index() == after.outstanding[id].index());
        }
        match events.last().response_type {
            LocalQuorumTaskResponseType::AppendEntries { id, .. } => {
                assert(middle.outstanding.contains_key(id) || after == middle);
            },
            _ => {},
        }
    }
}

/// A leader commits only entries that are in its log: a time step keeps it so.
pub proof fn law_leader_steps_commit_entries_of_the_log(
    before: StateView,
    initialized: bool,
    timestamp: u64,
    after: StateView,
    work: u64,
)
    requires
        before.commits_are_in_log(),
        before.log.len() < u64::MAX,
        before.leader_time_step(initialized, timestamp, after, work),
    ensures
        after.commits_are_in_log(),
{
    let (led, persisted, acknowledged) = choose|
        led: StateView,
        persisted: StateView,
        acknowledged: StateView,
    | #[trigger]
        before.leader_time_step_via(initialized, timestamp, led, persisted, acknowledged, after);
    if !initialized {
        laws::law_taking_the_lead_commits_nothing(before, timestamp, led);
        lemma_registered_in_log(before, led);
    }
    lemma_persistence_run_in_log(
        StateView { persistence_response: Seq::empty(), ..led },
        before.persistence_response,
        persisted,
    );
    lemma_quorum_run_in_log(
        StateView { quorum_response: Seq::empty(), ..persisted },
        before.quorum_response,
        acknowledged,
    );
    let requests = outstanding::backfill_requests(before.quorum_response);
    laws::lemma_backfilling_keeps(acknowledged, requests);
}

/// A message that waits for an entry of the log, beside those that waited before.
proof fn lemma_registered_in_log(before: StateView, after: StateView)
    requires
        before.commits_are_in_log(),
        after.commit_index == before.commit_index,
        before.log.len() <= after.log.len(),
        after.next_log_index <= after.log.len(),
        exists|id: u64, message: OutstandingMessage|
            {
                &&& #[trigger] before.outstanding.insert(id, message) == after.outstanding
                &&& message.index() is Some ==> message.index()->0 < after.log.len()
            },
    ensures
        after.commits_are_in_log(),
{
    assert forall|id: u64| #[trigger]
        after.outstanding.contains_key(id) && after.outstanding[id].index() is Some implies
        after.outstanding[id].index()->0 < after.log.len() by {
        if before.outstanding.contains_key(id) && before.outstanding[id] == after.outstanding[id] {
            assert(before.outstanding[id].index()->0 < before.log.len());
        }
    }
}

/// A leader commits only entries that are in its log: a write keeps it so.
pub proof fn law_writes_commit_entries_of_the_log(
    before: StateView,
    request: LocalRaftWriteBatchRequest,
    callback: Callback,
    now: u128,
    after: StateView,
)
    requires
        before.commits_are_in_log(),
        before.log.len() < u64::MAX,
        before.writes_batch(request, callback, now, after),
    ensures
        after.commits_are_in_log(),
{
    if after.outstanding != before.outstanding {
        lemma_registered_in_log(before, after);
    } else {
        assert forall|id: u64| #[trigger]
            after.outstanding.contains_key(id) && after.outstanding[id].index() is Some implies
            after.outstanding[id].index()->0 < after.log.len() by {
            assert(before.outstanding.contains_key(id));
        }
    }
}

} // verus!
