//! What can be relied on of a leader that is asked for what a peer lacks, and of
//! the messages that a node answers whatever its role.

use crate::persistence::worker::PersistenceResponseType;
use crate::quorum::types::{LocalQuorumResponse, LocalQuorumTaskResponseType, TaskView};
use crate::raft::broadcast;
use crate::raft::leader::outstanding;
use crate::raft::leader::replication;
use crate::raft::raft_sm::{
    LocalRaftMessage, LocalRaftMessagePayload, RaftNodeType, ResponseView,
};
use crate::raft::shared_state::{BusView, StateView};
use crate::raft::write_laws;
use crate::service_utils::storage_utils::SerializationData;
use std::sync::Arc;
use vstd::prelude::*;

verus! {

/// Whether exactly one task more waits in `after`, for quorum worker number `worker`.
pub open spec fn one_task_more(before: StateView, worker: int, after: StateView) -> bool {
    &&& 0 <= worker < before.tasks.len()
    &&& after.tasks.len() == before.tasks.len()
    &&& after.tasks[worker].len() == before.tasks[worker].len() + 1
    &&& after.tasks[worker].drop_last() == before.tasks[worker]
    &&& forall|i: int|
        0 <= i < before.tasks.len() && i != worker ==> #[trigger] after.tasks[i] == before.tasks[i]
}

/// A peer that asks for what comes behind its last entry is answered through its own
/// worker, and nobody else is. Where the leader has that entry, the peer is sent
/// all entries behind it, and a peer without entries is sent the whole log. Where
/// the leader does not have it, the peer is told to truncate its log: to the last
/// entry of the leader, if the peer is ahead; else to the last entry of the leader
/// before it that is of the same term; else to the start.
pub proof fn law_peer_is_sent_what_it_lacks(
    before: StateView,
    node: u64,
    last_log_term: u64,
    last_log_index: u64,
)
    requires
        1 <= before.identity,
        1 <= node <= usize::MAX,
        node != before.identity,
        before.log.len() <= u64::MAX,
        (if node > before.identity {
            node - 2
        } else {
            node - 1
        }) < before.tasks.len(),
    ensures
        ({
            let after = before.backfilling(node, last_log_term, last_log_index);
            let worker = if node > before.identity {
                node - 2
            } else {
                node - 1
            };
            let task = after.tasks[worker].last();
            &&& one_task_more(before, worker, after)
            &&& last_log_index < before.log.len() && (last_log_term == 0
                || before.log[last_log_index as int].term == last_log_term) ==> (
            task matches TaskView::BackfillLog { data } && data == if last_log_term == 0 {
                before.log
            } else {
                before.log.skip(last_log_index + 1)
            })
            &&& last_log_index >= before.log.len() && before.log.len() > 0 ==> (
            task matches TaskView::TruncateLog { prev_term, prev_index, .. } && prev_index
                == before.log.len() - 1 && prev_term == before.log.last().term)
            &&& before.log.len() == 0 ==> (task matches TaskView::TruncateLog {
                prev_term,
                prev_index,
                ..
            } && prev_index == 0 && prev_term == 0)
            &&& last_log_index < before.log.len() && last_log_term != 0
                && before.log[last_log_index as int].term != last_log_term ==> (
            task matches TaskView::TruncateLog { prev_term, prev_index, .. } && {
                ||| {
                    &&& prev_term == last_log_term
                    &&& prev_index < last_log_index
                    &&& before.log[prev_index as int].term == last_log_term
                    &&& forall|i: int|
                        prev_index < i <= last_log_index ==> (#[trigger] before.log[i]).term
                            != last_log_term
                }
                ||| {
                    &&& prev_term == 0
                    &&& prev_index == 0
                    &&& forall|i: int|
                        0 <= i <= last_log_index ==> (#[trigger] before.log[i]).term
                            != last_log_term
                }
            })
            &&& task matches TaskView::TruncateLog { id, .. } ==> id == before.next_message_id
                && after.next_message_id == (id + 1) as u64
            &&& after.log == before.log
            &&& after.commit_index == before.commit_index
            &&& after.outstanding == before.outstanding
            &&& after.persistence_tasks == before.persistence_tasks
            &&& after.responses == before.responses
        }),
{
    let after = before.backfilling(node, last_log_term, last_log_index);
    let worker = before.worker_of(node);
    assert(worker == if node > before.identity {
        node - 2
    } else {
        node - 1
    });
    assert(after.tasks[worker].drop_last() =~= before.tasks[worker]);
    if last_log_index < before.log.len() {
        replication::law_last_of_term(before.log, last_log_term, last_log_index as int);
    }
}

/// A peer that no worker serves is not answered.
pub proof fn law_unknown_peer_is_not_answered(
    before: StateView,
    node: u64,
    last_log_term: u64,
    last_log_index: u64,
)
    requires
        1 <= before.identity,
        1 <= node <= usize::MAX,
        (if node > before.identity {
            node - 2
        } else {
            node - 1
        }) >= before.tasks.len(),
    ensures
        before.backfilling(node, last_log_term, last_log_index) == before,
{
}

/// The workers of the peers stand in the order of the peers.
pub proof fn law_workers_stand_in_order(first: u64, second: u64, identity: u32)
    requires
        1 <= identity,
        1 <= first < second,
        first != identity,
        second != identity,
    ensures
        replication::worker_index(first, identity) < replication::worker_index(second, identity),
        first == 1 ==> replication::worker_index(first, identity) == 0,
        identity == 1 && first == 2 ==> replication::worker_index(first, identity) == 0,
        second == first + 1 ==> replication::worker_index(second, identity)
            == replication::worker_index(first, identity) + 1,
{
}

/// Every request for a backfill that the workers report is answered, in the order in
/// which they come.
pub proof fn law_backfill_requests_are_found(
    events: Seq<LocalQuorumResponse>,
    event: LocalQuorumResponse,
)
    ensures
        event.response_type matches LocalQuorumTaskResponseType::BackfillLog {
            quorum_node_id,
            last_log_term,
            last_log_index,
        } ==> outstanding::backfill_requests(events.push(event)) == outstanding::backfill_requests(
            events,
        ).push((quorum_node_id, last_log_term, last_log_index)),
        !(event.response_type is BackfillLog) ==> outstanding::backfill_requests(events.push(event))
            == outstanding::backfill_requests(events),
        outstanding::backfill_requests(Seq::empty()).len() == 0,
{
    assert(events.push(event).drop_last() =~= events);
}

/// How many of the tasks answer a peer that asks for what it lacks.
pub open spec fn answers_in(queue: Seq<TaskView>) -> nat
    decreases queue.len(),
{
    if queue.len() == 0 {
        0
    } else {
        answers_in(queue.drop_last()) + if queue.last() is BackfillLog || queue.last()
            is TruncateLog {
            1nat
        } else {
            0nat
        }
    }
}

/// How many of the requests come from the peer of worker number `worker`.
pub open spec fn asked_through(
    events: Seq<LocalQuorumResponse>,
    identity: u32,
    worker: int,
) -> nat
    decreases events.len(),
{
    if events.len() == 0 {
        0
    } else {
        asked_through(events.drop_last(), identity, worker) + match events.last().response_type {
            LocalQuorumTaskResponseType::BackfillLog { quorum_node_id, .. } => {
                if replication::worker_index(quorum_node_id, identity) as usize == worker {
                    1nat
                } else {
                    0nat
                }
            },
            _ => 0nat,
        }
    }
}

/// One task more is one answer more, or none.
proof fn lemma_answers_push(queue: Seq<TaskView>, task: TaskView)
    ensures
        answers_in(queue.push(task)) == answers_in(queue) + if task is BackfillLog
            || task is TruncateLog {
            1nat
        } else {
            0nat
        },
{
    assert(queue.push(task).drop_last() =~= queue);
}

/// Reports of the disk answer no peer.
proof fn lemma_persistence_answers_no_peer(
    before: StateView,
    events: Seq<PersistenceResponseType>,
    after: StateView,
    worker: int,
)
    requires
        before.leader_persistence_run(events, after),
        0 <= worker < before.tasks.len(),
    ensures
        after.tasks.len() == before.tasks.len(),
        answers_in(after.tasks[worker]) == answers_in(before.tasks[worker]),
    decreases events.len(),
{
    if events.len() > 0 {
        let middle = choose|middle: StateView|
            before.leader_persistence_run(events.drop_last(), middle)
                && #[trigger] middle.leader_persistence_step(events.last(), after);
        lemma_persistence_answers_no_peer(before, events.drop_last(), middle, worker);
        if after.commit_index > middle.commit_index {
            lemma_answers_push(
                middle.tasks[worker],
                TaskView::UpdateCommitIndex { commit_index: after.commit_index },
            );
        }
        assert(after.tasks == middle.tasks || after.commit_index > middle.commit_index);
    }
}

/// Acknowledgements answer no peer.
proof fn lemma_acknowledgements_answer_no_peer(
    before: StateView,
    events: Seq<LocalQuorumResponse>,
    after: StateView,
    worker: int,
)
    requires
        before.leader_quorum_run(events, after),
        0 <= worker < before.tasks.len(),
    ensures
        after.tasks.len() == before.tasks.len(),
        answers_in(after.tasks[worker]) == answers_in(before.tasks[worker]),
    decreases events.len(),
{
    if events.len() > 0 {
        let middle = choose|middle: StateView|
            before.leader_quorum_run(events.drop_last(), middle)
                && #[trigger] middle.leader_quorum_step(events.last(), after);
        lemma_acknowledgements_answer_no_peer(before, events.drop_last(), middle, worker);
        if after.commit_index > middle.commit_index {
            lemma_answers_push(
                middle.tasks[worker],
                TaskView::UpdateCommitIndex { commit_index: after.commit_index },
            );
        }
        assert(after.tasks == middle.tasks || after.commit_index > middle.commit_index);
    }
}

/// Each request of a peer is answered by one task of its worker.
proof fn lemma_each_request_is_answered(
    before: StateView,
    events: Seq<LocalQuorumResponse>,
    worker: int,
)
    requires
        0 <= worker < before.tasks.len(),
    ensures
        ({
            let after = before.backfilling_all(outstanding::backfill_requests(events));
            &&& after.tasks.len() == before.tasks.len()
            &&& after.identity == before.identity
            &&& answers_in(after.tasks[worker]) == answers_in(before.tasks[worker])
                + asked_through(events, before.identity, worker)
        }),
    decreases events.len(),
{
    if events.len() > 0 {
        let fewer = events.drop_last();
        lemma_each_request_is_answered(before, fewer, worker);
        let middle = before.backfilling_all(outstanding::backfill_requests(fewer));
        if let LocalQuorumTaskResponseType::BackfillLog {
            quorum_node_id,
            last_log_term,
            last_log_index,
        } = events.last().response_type {
            let asked = outstanding::backfill_requests(events);
            assert(asked.drop_last() =~= outstanding::backfill_requests(fewer));
            let after = middle.backfilling(quorum_node_id, last_log_term, last_log_index);
            assert(before.backfilling_all(asked) == after);
            if middle.worker_of(quorum_node_id) == worker {
                lemma_answers_push(middle.tasks[worker], after.tasks[worker].last());
                assert(after.tasks[worker] =~= middle.tasks[worker].push(
                    after.tasks[worker].last(),
                ));
            }
        }
    }
}

/// In a time step of a leader every request of a peer for what it lacks is answered
/// through the worker of that peer, once, and nobody else is sent such an answer.
pub proof fn law_leader_steps_answer_every_request(
    before: StateView,
    initialized: bool,
    timestamp: u64,
    after: StateView,
    work: u64,
    worker: int,
)
    requires
        before.leader_time_step(initialized, timestamp, after, work),
        0 <= worker < before.tasks.len(),
        before.tasks.len() < i32::MAX,
        before.log.len() < u64::MAX,
        before.next_message_id < u64::MAX - 1,
    ensures
        after.tasks.len() == before.tasks.len(),
        answers_in(after.tasks[worker]) == answers_in(before.tasks[worker]) + asked_through(
            before.quorum_response,
            before.identity,
            worker,
        ),
        after.quorum_response.len() == 0,
        after.persistence_response.len() == 0,
{
    let (led, persisted, acknowledged) = choose|
        led: StateView,
        persisted: StateView,
        acknowledged: StateView,
    | #[trigger]
        before.leader_time_step_via(initialized, timestamp, led, persisted, acknowledged, after);
    if !initialized {
        write_laws::law_lead_goes_to_disk_and_peers(before, timestamp, led);
        let queue = led.tasks[worker];
        let shorter = queue.drop_last();
        assert(shorter.drop_last() =~= queue.take(before.tasks[worker].len() as int));
        assert(shorter.last() == queue[queue.len() - 2]);
        assert(answers_in(queue) == answers_in(shorter));
        assert(answers_in(shorter) == answers_in(before.tasks[worker]));
    }
    let told = StateView { persistence_response: Seq::empty(), ..led };
    let heard = StateView { quorum_response: Seq::empty(), ..persisted };
    lemma_persistence_answers_no_peer(told, before.persistence_response, persisted, worker);
    lemma_acknowledgements_answer_no_peer(heard, before.quorum_response, acknowledged, worker);
    outstanding::law_persistence_responses_keep_log(told, before.persistence_response, persisted);
    outstanding::law_quorum_responses_keep_log(heard, before.quorum_response, acknowledged);
    lemma_each_request_is_answered(acknowledged, before.quorum_response, worker);
    lemma_backfilling_keeps_the_inboxes(
        acknowledged,
        outstanding::backfill_requests(before.quorum_response),
    );
}

/// Answering backfill requests leaves what has arrived alone.
proof fn lemma_backfilling_keeps_the_inboxes(state: StateView, requests: Seq<(u64, u64, u64)>)
    ensures
        state.backfilling_all(requests).quorum_response == state.quorum_response,
        state.backfilling_all(requests).persistence_response == state.persistence_response,
    decreases requests.len(),
{
    if requests.len() > 0 {
        lemma_backfilling_keeps_the_inboxes(state, requests.drop_last());
    }
}

/// No committed entry is forgotten: after a broadcast, and after every attempt to
/// catch up, either all entries up to the commit index have been broadcast, or the
/// node knows that some are still to be.
pub proof fn law_no_committed_entry_is_forgotten(
    before: BusView,
    log: Seq<Arc<SerializationData>>,
    commit_index: u64,
    after: BusView,
)
    requires
        before.broadcast_to(log, commit_index, after) || (before.deferred && before.caught_up(
            log,
            commit_index,
            after,
        )),
    ensures
        after.deferred || (after.last_index matches Some(last) && last >= commit_index),
        before.last_index matches Some(last) ==> (after.last_index matches Some(later) && later
            >= last),
        before.offers.is_prefix_of(after.offers),
{
    if after == before {
        assert(before.offers =~= after.offers.take(before.offers.len() as int));
    }
    if after.offers == before.offers {
        assert(before.offers =~= after.offers.take(before.offers.len() as int));
    }
}

/// The readers are told once when a deferred broadcast has come to its end, and not
/// at all while nothing is offered to them. A step takes no more than a thousand
/// entries to them.
pub proof fn law_readers_are_told_when_they_have_caught_up(
    before: BusView,
    log: Seq<Arc<SerializationData>>,
    commit_index: u64,
    after: BusView,
)
    requires
        before.version < u64::MAX,
        before.deferred,
        before.caught_up(log, commit_index, after),
    ensures
        after.last_index == Some(commit_index) && before.last_index != after.last_index
            ==> after.version == before.version + 1,
        after.offers == before.offers ==> after.version == before.version,
        broadcast::accepted(after.offers).len() <= broadcast::accepted(before.offers).len() + 1000,
{
}

/// In a step, a bus that accepts every offer gets the next thousand of the committed
/// entries that were deferred, or as many as there are, in order. The node then knows
/// whether more are to come.
pub proof fn law_accepting_bus_catches_up(
    before: BusView,
    log: Seq<Arc<SerializationData>>,
    commit_index: u64,
    after: BusView,
)
    requires
        before.deferred,
        before.caught_up(log, commit_index, after),
        before.next() <= commit_index < log.len(),
        forall|i: int| before.offers.len() <= i < after.offers.len() ==> (#[trigger] after.offers[i]).1,
        commit_index < u64::MAX - 1000,
    ensures
        ({
            let count = if commit_index + 1 - before.next() < 1000 {
                commit_index + 1 - before.next()
            } else {
                1000
            };
            &&& broadcast::accepted(after.offers) == broadcast::accepted(before.offers)
                + log.subrange(before.next(), before.next() + count)
            &&& after.last_index == Some((before.next() + count - 1) as u64)
            &&& after.deferred == (after.last_index != Some(commit_index))
        }),
{
    let offers = before.offered_until(after);
    if offers.len() > 0 {
        assert(offers.last() == after.offers[after.offers.len() - 1]);
    }
}

/// A broadcast gives up on an entry only after the bus has refused it a hundred times in
/// a row.
pub proof fn law_refused_entry_is_offered_a_hundred_times(
    before: BusView,
    log: Seq<Arc<SerializationData>>,
    commit_index: u64,
    after: BusView,
)
    requires
        before.broadcast_to(log, commit_index, after),
        before.next() <= commit_index,
        after.next() <= commit_index,
        after.next() < log.len(),
    ensures
        before.offers.len() + 100 <= after.offers.len(),
        forall|i: int|
            after.offers.len() - 100 <= i < after.offers.len() ==> #[trigger] after.offers[i] == (
                log[after.next()],
                false,
            ),
        after.deferred,
{
    let offers = before.offered_until(after);
    let refused = broadcast::refusals(log[after.next()], broadcast::MAX_RETRIES_PER_ENTRY as nat);
    assert forall|i: int| after.offers.len() - 100 <= i < after.offers.len() implies
        #[trigger] after.offers[i] == (log[after.next()], false) by {
        let j = i - (after.offers.len() - 100);
        assert(refused[j] == offers[offers.len() - 100 + j]);
    }
}

/// There are no more pauses than offers.
proof fn lemma_few_pauses(offers: Seq<(Arc<SerializationData>, bool)>)
    ensures
        broadcast::pauses(offers) <= offers.len(),
    decreases offers.len(),
{
    if offers.len() > 0 {
        lemma_few_pauses(offers.drop_last());
    }
}

/// A broadcast announces itself at least once, and not much more often than it makes offers.
proof fn lemma_announcements_are_bounded(offers: Seq<(Arc<SerializationData>, bool)>)
    ensures
        1 <= broadcast::announcements(offers) <= offers.len() + 2,
    decreases offers.len(),
{
    if offers.len() > 0 {
        if offers[0].1 {
            lemma_announcements_are_bounded(offers.skip(1));
        } else {
            lemma_few_pauses(offers.skip(1));
        }
    }
}

/// Every broadcast that there is something for tells the readers to look again, however
/// often the bus refuses an entry: the version goes on.
pub proof fn law_broadcast_tells_the_readers(
    before: BusView,
    log: Seq<Arc<SerializationData>>,
    commit_index: u64,
    after: BusView,
)
    requires
        before.broadcast_to(log, commit_index, after),
        before.next() <= commit_index,
        before.version + after.offers.len() + 2 <= u64::MAX,
    ensures
        before.version < after.version,
{
    lemma_announcements_are_bounded(before.offered_until(after));
}

/// A node says who its leader is, whatever its role, and changes nothing. Only a
/// leader takes writes: any other node refuses them, whatever they are, and changes
/// nothing. Neither changes the role.
pub proof fn law_questions_are_answered_by_every_node(
    before: StateView,
    role: RaftNodeType,
    message: LocalRaftMessage,
    after: StateView,
    role_after: RaftNodeType,
)
    requires
        before.accepts(role, message, after, role_after),
    ensures
        message.payload is GetRaftState ==> role_after == role && after == (StateView {
            responses: before.responses.push(
                (message.callback, ResponseView::RaftState { leader_id: before.leader_id }),
            ),
            ..before
        }),
        message.payload is WriteBatch && role != RaftNodeType::Leader ==> role_after == role
            && after == (StateView {
            responses: before.responses.push(
                (
                    message.callback,
                    ResponseView::WriteBatch {
                        responses: Seq::empty(),
                        err: Some("Received write batch as non-leader"@),
                    },
                ),
            ),
            ..before
        }),
        message.payload is WriteBatch || message.payload is RequestVote ==> role_after == role,
        message.payload matches LocalRaftMessagePayload::AppendEntries(request) ==> {
            &&& role == RaftNodeType::Follower ==> role_after == RaftNodeType::Follower
                && before.follower_appends(request, message.callback, after)
            &&& role == RaftNodeType::Candidate ==> role_after == if request.term
                >= before.current_term {
                RaftNodeType::Follower
            } else {
                RaftNodeType::Candidate
            }
            &&& role == RaftNodeType::Leader ==> role_after == if request.term
                > before.current_term {
                RaftNodeType::Follower
            } else {
                RaftNodeType::Leader
            }
        },
        message.payload matches LocalRaftMessagePayload::WriteBatch(request) ==> (role
            == RaftNodeType::Leader ==> exists|now: u128|
            #[trigger] before.writes_batch(request, message.callback, now, after)),
{
}

} // verus!
