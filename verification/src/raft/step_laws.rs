//! What can be relied on of the steps that a node makes in time: what becomes of the
//! reports that have arrived, and how the work is counted.

use crate::persistence::worker::PersistenceResponseType;
use crate::quorum::types::{LocalQuorumResponse, LocalQuorumTaskResponseType};
use crate::raft::broadcast;
use crate::raft::executor::{StateDelegate, StateMachineExecutorImpl};
use crate::raft::leader::outstanding;
use crate::raft::raft_sm::{
    Callback, LocalAppendEntriesCallbackResponse, OutstandingMessageType, ResponseView,
};
use crate::raft::shared_state::StateView;
use vstd::prelude::*;

verus! {

/// The number under which something was given to the disk.
pub open spec fn number_of(event: PersistenceResponseType) -> u64 {
    match event {
        PersistenceResponseType::LogPersisted { id } => id,
        PersistenceResponseType::VotePersisted { id, .. } => id,
    }
}

/// How many entries the readers were given.
pub open spec fn given_to_readers(before: StateView, after: StateView) -> int {
    broadcast::accepted(after.bus.offers).len() - broadcast::accepted(before.bus.offers).len()
}

/// How many of the reports that had arrived were dealt with.
pub open spec fn dealt_with(before: StateView, after: StateView) -> int {
    before.persistence_response.len() - after.persistence_response.len()
        + before.quorum_response.len() - after.quorum_response.len()
}

/// What nobody has reported stays as it is.
proof fn lemma_unreported(state: StateView, events: Seq<PersistenceResponseType>, id: u64)
    requires
        forall|j: int| 0 <= j < events.len() ==> number_of(#[trigger] events[j]) != id,
    ensures
        ({
            let after = state.follower_persistence_run(events);
            &&& after.outstanding.contains_key(id) == state.outstanding.contains_key(id)
            &&& after.outstanding[id] == state.outstanding[id]
        }),
    decreases events.len(),
{
    if events.len() > 0 {
        let fewer = events.drop_last();
        assert forall|j: int| 0 <= j < fewer.len() implies number_of(#[trigger] fewer[j]) != id by {
            assert(number_of(events[j]) != id);
        }
        lemma_unreported(state, fewer, id);
        assert(number_of(events[events.len() - 1]) != id);
    }
}

/// What is reported first under its number is answered, and is then forgotten.
proof fn lemma_reported(
    state: StateView,
    events: Seq<PersistenceResponseType>,
    k: int,
    answer: (Callback, ResponseView),
)
    requires
        0 <= k < events.len(),
        state.outstanding.contains_key(number_of(events[k])),
        forall|j: int| 0 <= j < k ==> number_of(#[trigger] events[j]) != number_of(events[k]),
        is_answered_by(state, events[k], answer),
    ensures
        state.follower_persistence_run(events).responses.contains(answer),
        !state.follower_persistence_run(events).outstanding.contains_key(number_of(events[k])),
    decreases events.len(),
{
    let fewer = events.drop_last();
    let middle = state.follower_persistence_run(fewer);
    let after = state.follower_persistence_run(events);
    if k == events.len() - 1 {
        lemma_unreported(state, fewer, number_of(events[k]));
        assert(after.responses.last() == answer);
    } else {
        lemma_reported(state, fewer, k, answer);
        let i = choose|i: int| 0 <= i < middle.responses.len() && middle.responses[i] == answer;
        assert(after.responses[i] == answer);
    }
}

/// Whether the report is what somebody waits for, who is then told `answer`: that the
/// entry was accepted, or that the node has voted.
pub open spec fn is_answered_by(
    state: StateView,
    event: PersistenceResponseType,
    answer: (Callback, ResponseView),
) -> bool {
    match (event, state.outstanding[number_of(event)].message_type) {
        (
            PersistenceResponseType::LogPersisted { .. },
            OutstandingMessageType::AppendLog { callback },
        ) => answer == (
            callback,
            ResponseView::AppendEntries(LocalAppendEntriesCallbackResponse::Accepted),
        ),
        (
            PersistenceResponseType::VotePersisted { .. },
            OutstandingMessageType::RequestVote { callback },
        ) => answer == (callback, ResponseView::RequestVote(true)),
        _ => false,
    }
}

/// Signals to truncate leave what was answered alone, and the log is a beginning of
/// what it was, which ends where each of them says or before.
proof fn lemma_truncations(state: StateView, events: Seq<LocalQuorumResponse>)
    requires
        state.log.len() <= u64::MAX,
    ensures
        ({
            let after = state.follower_quorum_run(events);
            &&& after.outstanding == state.outstanding
            &&& after.responses == state.responses
            &&& after.log.is_prefix_of(state.log)
            &&& after.bus.offers == state.bus.offers
            &&& after.bus.last_index == state.bus.last_index
            &&& after.persistence_response == state.persistence_response
            &&& after.quorum_response == state.quorum_response
            &&& forall|k: int|
                0 <= k < events.len() ==> ((#[trigger] events[k]).response_type matches
                    LocalQuorumTaskResponseType::TruncateLog { prev_index, .. } ==> after.log.len()
                    <= prev_index + 1)
        }),
    decreases events.len(),
{
    if events.len() > 0 {
        let fewer = events.drop_last();
        lemma_truncations(state, fewer);
        let middle = state.follower_quorum_run(fewer);
        let after = state.follower_quorum_run(events);
        assert(after.log.len() <= middle.log.len());
        assert forall|k: int| 0 <= k < events.len() implies ((
        #[trigger] events[k]).response_type matches LocalQuorumTaskResponseType::TruncateLog {
            prev_index,
            ..
        } ==> after.log.len() <= prev_index + 1) by {
            if k < fewer.len() {
                assert(fewer[k] == events[k]);
            }
        }
    } else {
        assert(state.log.is_prefix_of(state.log));
    }
}

/// Reports of the disk leave what the readers get and what has arrived alone.
proof fn lemma_reports_keep(state: StateView, events: Seq<PersistenceResponseType>)
    ensures
        ({
            let after = state.follower_persistence_run(events);
            &&& after.bus == state.bus
            &&& after.log == state.log
            &&& after.persistence_response == state.persistence_response
            &&& after.quorum_response == state.quorum_response
        }),
    decreases events.len(),
{
    if events.len() > 0 {
        lemma_reports_keep(state, events.drop_last());
    }
}

/// In a time step a follower deals with everything that has arrived. Whoever waits for
/// what the disk reports is told, and every signal to truncate the log is obeyed. Each
/// report counts as one piece of work, and so does each entry that the readers get.
pub proof fn law_follower_deals_with_every_report(before: StateView, after: StateView, work: u64)
    requires
        before.follower_time_step(after, work),
        before.log.len() <= u64::MAX,
    ensures
        after.persistence_response.len() == 0,
        after.quorum_response.len() == 0,
        work == dealt_with(before, after) + given_to_readers(before, after),
        forall|k: int, answer: (Callback, ResponseView)|
            #![trigger is_answered_by(before, before.persistence_response[k], answer)]
            0 <= k < before.persistence_response.len() && before.outstanding.contains_key(
                number_of(before.persistence_response[k]),
            ) && is_answered_by(before, before.persistence_response[k], answer) && (forall|j: int|
                0 <= j < k ==> number_of(#[trigger] before.persistence_response[j]) != number_of(
                    before.persistence_response[k],
                )) ==> after.responses.contains(answer) && !after.outstanding.contains_key(
                number_of(before.persistence_response[k]),
            ),
        after.log.is_prefix_of(before.log),
        forall|k: int|
            0 <= k < before.quorum_response.len() ==> ((
            #[trigger] before.quorum_response[k]).response_type matches
                LocalQuorumTaskResponseType::TruncateLog { prev_index, .. } ==> after.log.len()
                <= prev_index + 1),
{
    let told = before.emptied().follower_persistence_run(before.persistence_response);
    let informed = before.follower_informed();
    lemma_reports_keep(before.emptied(), before.persistence_response);
    lemma_truncations(told, before.quorum_response);
    lemma_caught_up_is_counted(informed, after);
    assert forall|k: int, answer: (Callback, ResponseView)|
        #![trigger is_answered_by(before, before.persistence_response[k], answer)]
        0 <= k < before.persistence_response.len() && before.outstanding.contains_key(
            number_of(before.persistence_response[k]),
        ) && is_answered_by(before, before.persistence_response[k], answer) && (forall|j: int|
            0 <= j < k ==> number_of(#[trigger] before.persistence_response[j]) != number_of(
                before.persistence_response[k],
            )) implies after.responses.contains(answer) && !after.outstanding.contains_key(
        number_of(before.persistence_response[k]),
    ) by {
        lemma_reported(before.emptied(), before.persistence_response, k, answer);
    }
}

/// Catching up moves on by as many entries as the readers get.
proof fn lemma_caught_up_is_counted(before: StateView, after: StateView)
    requires
        before.bus.caught_up(before.log, before.commit_index, after.bus),
    ensures
        after.bus.next() - before.bus.next() == given_to_readers(before, after),
{
}

/// In a time step a candidate that is not elected deals with everything that has
/// arrived. One that is elected leaves what came later for the leader that it becomes,
/// and comes to where it had come if nothing had come later. Each report counts as one
/// piece of work, and so does an election that is started, and each entry that the
/// readers get.
pub proof fn law_candidate_deals_with_reports_until_elected(
    before: StateView,
    timeout: u128,
    now: u128,
    after: StateView,
    elected: bool,
    work: u64,
)
    requires
        before.candidate_time_step(timeout, now, after, elected, work),
        before.next_term < u64::MAX,
    ensures
        !elected ==> after.persistence_response.len() == 0 && after.quorum_response.len() == 0,
        elected ==> dealt_with(before, after) > 0,
        work == dealt_with(before, after) + given_to_readers(before, after) + (after.next_term
            - before.next_term),
        after.persistence_response.is_suffix_of(before.persistence_response),
        after.quorum_response.is_suffix_of(before.quorum_response),
        elected ==> ({
            let first = before.persistence_response.len() - after.persistence_response.len();
            let second = before.quorum_response.len() - after.quorum_response.len();
            let less = StateView {
                persistence_response: before.persistence_response.take(first),
                quorum_response: before.quorum_response.take(second),
                ..before
            };
            let reached = StateView {
                persistence_response: Seq::empty(),
                quorum_response: Seq::empty(),
                ..after
            };
            less.candidate_time_step(timeout, now, reached, true, work)
        }),
{
    let (persisted, first_winner) = before.candidate_after_persistence();
    let started = StateView { persistence_response: Seq::empty(), ..before };
    lemma_persistence_run(started, before.persistence_response);
    let (ran, _) = started.candidate_persistence_run(before.persistence_response);
    let resumed = StateView { quorum_response: Seq::empty(), ..persisted };
    lemma_quorum_run(resumed, before.quorum_response);
    let empty = Seq::<PersistenceResponseType>::empty();
    let silent = Seq::<LocalQuorumResponse>::empty();
    assert(empty =~= before.persistence_response.skip(before.persistence_response.len() as int));
    assert(silent =~= before.quorum_response.skip(before.quorum_response.len() as int));
    match first_winner {
        Some(index) => {
            let first = index + 1;
            assert(before.quorum_response.skip(0) =~= before.quorum_response);
            assert(after.quorum_response == before.quorum_response);
            let less = StateView {
                persistence_response: before.persistence_response.take(first),
                quorum_response: before.quorum_response.take(0),
                ..before
            };
            assert(less.quorum_response =~= silent);
            let started_less = StateView { persistence_response: Seq::empty(), ..less };
            lemma_persistence_run_ends(started, before.persistence_response, index);
            lemma_persistence_run_elsewhere(
                started,
                before.persistence_response.take(first),
                silent,
            );
            assert(less.persistence_response.skip(first) =~= empty);
        },
        None => {
            let (counted, second_winner) = persisted.candidate_after_quorum();
            match second_winner {
                Some(index) => {
                    let second = index + 1;
                    let less = StateView {
                        persistence_response: before.persistence_response.take(
                            before.persistence_response.len() as int,
                        ),
                        quorum_response: before.quorum_response.take(second),
                        ..before
                    };
                    assert(less.persistence_response =~= before.persistence_response);
                    lemma_persistence_run_elsewhere(
                        started,
                        before.persistence_response,
                        less.quorum_response,
                    );
                    lemma_quorum_run_ends(resumed, before.quorum_response, index);
                    assert(less.quorum_response.skip(second) =~= silent);
                },
                None => {
                    let sent = choose|sent: bool|
                        {
                            let state = #[trigger] counted.election_step(timeout, now, sent);
                            &&& after == (StateView { bus: after.bus, ..state })
                            &&& state.bus.caught_up(state.log, state.commit_index, after.bus)
                        };
                    lemma_caught_up_is_counted(counted.election_step(timeout, now, sent), after);
                },
            }
        },
    }
}

/// What reports of the disk leave alone, and who can win by them.
proof fn lemma_persistence_run(state: StateView, events: Seq<PersistenceResponseType>)
    ensures
        ({
            let (after, winner) = state.candidate_persistence_run(events);
            &&& winner matches Some(index) ==> 0 <= index < events.len()
            &&& after.bus == state.bus
            &&& after.next_term == state.next_term
            &&& after.persistence_response == state.persistence_response
            &&& after.quorum_response == state.quorum_response
        }),
    decreases events.len(),
{
    if events.len() > 0 {
        lemma_persistence_run(state, events.drop_last());
    }
}

/// What votes leave alone, and who can win by them.
proof fn lemma_quorum_run(state: StateView, events: Seq<LocalQuorumResponse>)
    ensures
        ({
            let (after, winner) = state.candidate_quorum_run(events);
            &&& winner matches Some(index) ==> 0 <= index < events.len()
            &&& after.bus == state.bus
            &&& after.next_term == state.next_term
            &&& after.persistence_response == state.persistence_response
            &&& after.quorum_response == state.quorum_response
        }),
    decreases events.len(),
{
    if events.len() > 0 {
        lemma_quorum_run(state, events.drop_last());
    }
}

/// What comes behind the report that elects plays no part.
proof fn lemma_persistence_run_ends(
    state: StateView,
    events: Seq<PersistenceResponseType>,
    index: int,
)
    requires
        state.candidate_persistence_run(events).1 == Some(index),
    ensures
        0 <= index < events.len(),
        state.candidate_persistence_run(events.take(index + 1)) == state.candidate_persistence_run(
            events,
        ),
    decreases events.len(),
{
    lemma_persistence_run(state, events);
    if index < events.len() - 1 {
        let fewer = events.drop_last();
        lemma_persistence_run(state, fewer);
        lemma_persistence_run_ends(state, fewer, index);
        assert(fewer.take(index + 1) =~= events.take(index + 1));
    } else {
        assert(events.take(index + 1) =~= events);
    }
}

/// What comes behind the vote that elects plays no part.
proof fn lemma_quorum_run_ends(state: StateView, events: Seq<LocalQuorumResponse>, index: int)
    requires
        state.candidate_quorum_run(events).1 == Some(index),
    ensures
        0 <= index < events.len(),
        state.candidate_quorum_run(events.take(index + 1)) == state.candidate_quorum_run(events),
    decreases events.len(),
{
    lemma_quorum_run(state, events);
    if index < events.len() - 1 {
        let fewer = events.drop_last();
        lemma_quorum_run(state, fewer);
        lemma_quorum_run_ends(state, fewer, index);
        assert(fewer.take(index + 1) =~= events.take(index + 1));
    } else {
        assert(events.take(index + 1) =~= events);
    }
}

/// Reports of the disk lead to the same whatever else has arrived.
proof fn lemma_persistence_run_elsewhere(
    state: StateView,
    events: Seq<PersistenceResponseType>,
    arrived: Seq<LocalQuorumResponse>,
)
    ensures
        ({
            let other = StateView { quorum_response: arrived, ..state };
            let (after, winner) = state.candidate_persistence_run(events);
            other.candidate_persistence_run(events) == (
                StateView { quorum_response: arrived, ..after },
                winner,
            )
        }),
    decreases events.len(),
{
    if events.len() > 0 {
        lemma_persistence_run_elsewhere(state, events.drop_last(), arrived);
    }
}

/// A leader takes the lead once: a new leader adds one entry to its log, in the first
/// step that it makes, and none in those behind it.
pub proof fn law_lead_is_taken_once(
    before: StateMachineExecutorImpl,
    work: u64,
    middle: StateMachineExecutorImpl,
    later_work: u64,
    after: StateMachineExecutorImpl,
)
    requires
        before.steps_to(middle, work),
        middle.steps_to(after, later_work),
    ensures
        before.state_delegate is Leader ==> {
            &&& middle.state_delegate is Leader
            &&& after.state_delegate is Leader
            &&& after.shared_state@.log == middle.shared_state@.log
            &&& after.shared_state@.persistence_tasks == middle.shared_state@.persistence_tasks
        },
        before.state_delegate is Candidate && middle.state_delegate is Leader ==> {
            &&& after.state_delegate is Leader
            &&& after.shared_state@.log.len() == middle.shared_state@.log.len() + 1
            &&& after.shared_state@.log.drop_last() == middle.shared_state@.log
        },
{
    if let StateDelegate::Leader(delegate) = middle.state_delegate {
        let timestamp = choose|timestamp: u64|
            #[trigger] middle.shared_state@.leader_time_step(
                delegate.initialized,
                timestamp,
                after.shared_state@,
                later_work,
            );
        lemma_leader_step(
            middle.shared_state@,
            delegate.initialized,
            timestamp,
            after.shared_state@,
            later_work,
        );
    }
}

/// A leader adds an entry to its log only in taking the lead.
proof fn lemma_leader_step(
    before: StateView,
    initialized: bool,
    timestamp: u64,
    after: StateView,
    work: u64,
)
    requires
        before.leader_time_step(initialized, timestamp, after, work),
    ensures
        initialized ==> after.log == before.log && after.persistence_tasks
            == before.persistence_tasks,
        !initialized ==> after.log.len() == before.log.len() + 1 && after.log.drop_last()
            == before.log,
{
    let (led, persisted, acknowledged) = choose|
        led: StateView,
        persisted: StateView,
        acknowledged: StateView,
    | #[trigger]
        before.leader_time_step_via(initialized, timestamp, led, persisted, acknowledged, after);
    let told = StateView { persistence_response: Seq::empty(), ..led };
    let heard = StateView { quorum_response: Seq::empty(), ..persisted };
    outstanding::law_persistence_responses_keep_log(told, before.persistence_response, persisted);
    outstanding::law_quorum_responses_keep_log(heard, before.quorum_response, acknowledged);
    lemma_backfilling_all(
        acknowledged,
        outstanding::backfill_requests(before.quorum_response),
    );
    assert(!initialized ==> led.log.drop_last() =~= before.log);
}

/// Answering backfill requests leaves the log, the disk and the readers alone.
proof fn lemma_backfilling_all(state: StateView, requests: Seq<(u64, u64, u64)>)
    ensures
        ({
            let after = state.backfilling_all(requests);
            &&& after.log == state.log
            &&& after.persistence_tasks == state.persistence_tasks
            &&& after.bus == state.bus
        }),
    decreases requests.len(),
{
    if requests.len() > 0 {
        lemma_backfilling_all(state, requests.drop_last());
    }
}

/// In a leader's step each report counts as one piece of work, so does taking the lead,
/// and so does each entry that the readers get which they did not get before. A leader
/// to which nothing was reported has no other work.
pub proof fn law_leader_work_is_counted(
    before: StateView,
    initialized: bool,
    timestamp: u64,
    after: StateView,
    work: u64,
)
    requires
        before.leader_time_step(initialized, timestamp, after, work),
    ensures
        ({
            let known = before.persistence_response.len() + before.quorum_response.len() + if initialized {
                0nat
            } else {
                1nat
            };
            &&& known <= work
            &&& known == 0 ==> work == given_to_readers(before, after)
        }),
{
    let (led, persisted, acknowledged) = choose|
        led: StateView,
        persisted: StateView,
        acknowledged: StateView,
    |
        {
            &&& #[trigger] before.leader_time_step_via(
                initialized,
                timestamp,
                led,
                persisted,
                acknowledged,
                after,
            )
            &&& work == before.waiting_events() + (if initialized {
                0int
            } else {
                1int
            }) + after.bus.next() - acknowledged.bus.next()
        };
    let answered = acknowledged.backfilling_all(
        outstanding::backfill_requests(before.quorum_response),
    );
    lemma_backfilling_all(
        acknowledged,
        outstanding::backfill_requests(before.quorum_response),
    );
    lemma_caught_up_is_counted(answered, after);
}

/// A candidate that is not elected, and whose timeout was over, waits at least half a
/// second before it stands again. One who is elected, or whose timeout was not over, keeps
/// its timeout.
pub proof fn law_candidates_wait_before_they_stand_again(
    before: StateMachineExecutorImpl,
    work: u64,
    after: StateMachineExecutorImpl,
)
    requires
        before.steps_to(after, work),
        before.state_delegate is Candidate,
    ensures
        !(after.state_delegate is Follower),
        before.state_delegate matches StateDelegate::Candidate(candidate) ==> (
        after.state_delegate matches StateDelegate::Candidate(later) ==> {
            ||| later == candidate
            ||| 500 <= later.initiate_election_timeout && later.ongoing_election is Some
        }),
{
}

} // verus!
