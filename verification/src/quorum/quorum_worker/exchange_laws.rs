//! What can be relied on of the exchange between the workers of two nodes: what
//! one state machine asks for is what the other is asked, and the answer comes
//! back to where it is waited for.

use crate::quorum::messages::{MessageView, PutResponseView, RemoteQuorumMessage};
use crate::quorum::quorum_worker::outbound;
use crate::quorum::quorum_worker::pending::PollView;
use crate::quorum::quorum_worker::{self, PendingView, RaftRequestView, WorkerView};
use crate::quorum::types::{LocalQuorumResponse, LocalQuorumTaskResponseType, TaskView};
use crate::raft::raft_sm::{
    Callback, LocalAppendEntriesCallbackResponse, LocalRaftMessage, LocalRaftMessagePayload,
    LocalRequestVoteRequest, ResponseView,
};
use crate::raft::write_laws;
use crate::service_utils::storage_utils::{PutRequestView, SerializationData};
use std::sync::Arc;
use vstd::prelude::*;

verus! {

/// Whether the worker has offered one message more to its connection, and has
/// nothing else changed there.
pub open spec fn has_offered(before: WorkerView, after: WorkerView) -> bool {
    &&& before.outbound is Some
    &&& after.outbound is Some
    &&& after.outbound->0.len() == before.outbound->0.len() + 1
    &&& after.outbound->0.drop_last() == before.outbound->0
}

/// The message that a worker has offered last.
pub open spec fn last_message(worker: WorkerView) -> MessageView {
    worker.outbound->0.last().0
}

/// Whether a worker has left exactly one request more for its state machine, and
/// waits for the answer to it as `pending`.
pub open spec fn has_asked(
    before: WorkerView,
    after: WorkerView,
    request: RaftRequestView,
    pending: PendingView,
) -> bool {
    let callback = Callback { id: before.next_callback_id };
    &&& after.task_queue == before.task_queue.push((callback, request))
    &&& after.pending_tasks == before.pending_tasks.push((callback, pending))
    &&& after.next_callback_id == before.next_callback_id + 1
    &&& after.response_queue == before.response_queue
    &&& after.client_responses == before.client_responses
    &&& after.outbound == before.outbound
    &&& after.pending_write_batches == before.pending_write_batches
    &&& after.pending_append_entries == before.pending_append_entries
    &&& after.ongoing_backfill == before.ongoing_backfill
    &&& after.term == before.term
    &&& after.send_heartbeats == before.send_heartbeats
}

/// Whether a worker has reported exactly one thing more to its state machine.
pub open spec fn has_reported(
    before: WorkerView,
    after: WorkerView,
    response_type: LocalQuorumTaskResponseType,
) -> bool {
    &&& after.response_queue == before.response_queue.push(LocalQuorumResponse { response_type })
    &&& after.task_queue == before.task_queue
    &&& after.pending_tasks == before.pending_tasks
    &&& after.client_responses == before.client_responses
}

/// A request for a vote reaches the peer as the candidate has made it: for its
/// term, in its name, and with the index and the term of its last entry.
pub proof fn law_vote_request_reaches_the_peer(
    sender: WorkerView,
    id: u64,
    term: u64,
    last_term: u64,
    last_index: u64,
    now: u128,
    after: WorkerView,
    peer: WorkerView,
    sent: bool,
)
    requires
        sender.outbound is Some,
        sender.task_step(TaskView::RequestVote { id, term, last_term, last_index }, now, after),
        peer.next_callback_id < u64::MAX,
    ensures
        has_offered(sender, after),
        after == (WorkerView { outbound: after.outbound, ..sender }),
        has_asked(
            peer,
            peer.inbound_step(last_message(after), sent),
            RaftRequestView::RequestVote(
                LocalRequestVoteRequest {
                    term,
                    candidate_id: sender.self_id,
                    last_log_index: last_index,
                    last_log_term: last_term,
                },
            ),
            PendingView::Vote { request_id: id, term },
        ),
{
    assert(after.outbound->0.drop_last() =~= sender.outbound->0);
}

/// The answer to a request for a vote reaches the candidate under the number of
/// its request: granted where it was granted, and for the same term.
pub proof fn law_vote_reaches_the_candidate(
    peer: WorkerView,
    callback: Callback,
    request_id: u64,
    term: u64,
    vote: bool,
    sent: bool,
    candidate: WorkerView,
    accepted: bool,
)
    requires
        peer.outbound is Some,
    ensures
        ({
            let told = peer.pending_step(
                (callback, PendingView::Vote { request_id, term }),
                PollView::Ready(ResponseView::RequestVote(vote)),
                sent,
            );
            &&& has_offered(peer, told)
            &&& told.pending_tasks == peer.pending_tasks
            &&& told.response_queue == peer.response_queue
            &&& has_reported(
                candidate,
                candidate.inbound_step(last_message(told), accepted),
                LocalQuorumTaskResponseType::RequestVoteResponse {
                    id: request_id,
                    term,
                    received_vote: vote,
                },
            )
        }),
{
    let told = peer.pending_step(
        (callback, PendingView::Vote { request_id, term }),
        PollView::Ready(ResponseView::RequestVote(vote)),
        sent,
    );
    assert(told.outbound->0.drop_last() =~= peer.outbound->0);
}

/// Whether a request brings `entry` of the log to a follower: it is read as that
/// entry, and says of it what the entry says.
pub open spec fn brings_entry(
    request: RaftRequestView,
    leader: WorkerView,
    entry: Arc<SerializationData>,
    number: u64,
    told_commit_index: u64,
) -> bool {
    request matches RaftRequestView::AppendEntries {
        term,
        leader_id,
        prev_index,
        prev_term,
        request_id,
        entry: wire,
        commit_index,
    } && {
        &&& term == leader.term
        &&& leader_id == leader.self_id
        &&& prev_index == entry.prev_index
        &&& prev_term == entry.prev_term
        &&& request_id == number
        &&& commit_index == told_commit_index
        &&& wire matches Some(wire) && {
            &&& wire.index == entry.index
            &&& wire.term == entry.term
            &&& wire.prev_log_index == entry.prev_index
            &&& wire.prev_log_term == entry.prev_term
            &&& wire.batch_index == entry.index
            &&& wire.message_id == entry.message_id
            &&& write_laws::reads_as(wire.data, entry@)
        }
    }
}

/// An entry of the leader reaches the follower whole: with its writes, its place
/// and what it follows, in the name and of the term of the leader, with the commit
/// index of the leader, and under the number under which the leader waits.
pub proof fn law_entry_reaches_the_follower(
    leader: WorkerView,
    id: u64,
    entry: Arc<SerializationData>,
    commit_index: u64,
    now: u128,
    after: WorkerView,
    peer: WorkerView,
    sent: bool,
)
    requires
        leader.outbound is Some,
        entry@.is_storable(),
        leader.task_step(TaskView::AppendEntries { id, entry, commit_index }, now, after),
        peer.next_callback_id < u64::MAX,
    ensures
        has_offered(leader, after),
        after.prev_log_index == entry.index,
        after.prev_log_term == entry.term,
        after.commit_index == commit_index,
        after.last_heartbeat == now,
        after.pending_append_entries.contains_key(id),
        after.term == leader.term,
        after.send_heartbeats == leader.send_heartbeats,
        ({
            let heard = peer.inbound_step(last_message(after), sent);
            &&& heard.task_queue.len() == peer.task_queue.len() + 1
            &&& brings_entry(heard.task_queue.last().1, leader, entry, id, commit_index)
            &&& has_asked(
                peer,
                heard,
                heard.task_queue.last().1,
                PendingView::AppendEntries {
                    request_id: id,
                    log_index: entry.index,
                    term: entry.term,
                },
            )
        }),
{
    assert(after.outbound->0.drop_last() =~= leader.outbound->0);
    write_laws::law_bytes_are_read_as_their_entry(entry@);
}

/// What a follower is asked is what its state machine gets: the fields of the
/// request, and the entry as it came.
pub proof fn law_request_reaches_the_state_machine(
    message: LocalRaftMessage,
    leader: WorkerView,
    entry: Arc<SerializationData>,
    number: u64,
    told_commit_index: u64,
)
    requires
        brings_entry(message@.1, leader, entry, number, told_commit_index),
    ensures
        message.payload matches LocalRaftMessagePayload::AppendEntries(request) && {
            &&& request.term == leader.term
            &&& request.leader_id == leader.self_id
            &&& request.prev_index == entry.prev_index
            &&& request.prev_term == entry.prev_term
            &&& request.request_id == number
            &&& request.commit_index == told_commit_index
            &&& request.entry matches Some(wire) && wire.index == entry.index && wire.term
                == entry.term && write_laws::reads_as(wire.data@, entry@)
        },
        message@.0 == message.callback,
{
}

/// What a follower answers to an entry reaches the leader: that it was accepted,
/// under the number of the entry; or where the log of the follower ends, as a
/// request for what comes behind it, unless one is on its way.
pub proof fn law_answer_to_an_entry_reaches_the_leader(
    peer: WorkerView,
    callback: Callback,
    request_id: u64,
    log_index: u64,
    log_term: u64,
    response: LocalAppendEntriesCallbackResponse,
    sent: bool,
    leader: WorkerView,
    accepted: bool,
)
    requires
        peer.outbound is Some,
    ensures
        ({
            let told = peer.pending_step(
                (
                    callback,
                    PendingView::AppendEntries { request_id, log_index, term: log_term },
                ),
                PollView::Ready(ResponseView::AppendEntries(response)),
                sent,
            );
            let heard = leader.inbound_step(last_message(told), accepted);
            &&& has_offered(peer, told)
            &&& told.pending_tasks == peer.pending_tasks
            &&& heard.pending_append_entries == leader.pending_append_entries.remove(request_id)
            &&& heard.task_queue == leader.task_queue
            &&& response is Accepted && request_id != 0 ==> has_reported(
                leader,
                heard,
                LocalQuorumTaskResponseType::AppendEntries { id: request_id, ok: true },
            )
            &&& response is Accepted && request_id == 0 ==> heard.response_queue
                == leader.response_queue
            &&& response is Accepted ==> heard.ongoing_backfill == leader.ongoing_backfill
            &&& !(response is Accepted) && leader.ongoing_backfill is Some ==> heard.response_queue
                == leader.response_queue && heard.ongoing_backfill == leader.ongoing_backfill
            &&& leader.ongoing_backfill is None ==> (
            response matches LocalAppendEntriesCallbackResponse::WantedPreviousEntry {
                last_term,
                last_index,
            } ==> (heard.ongoing_backfill matches Some(backfill) && backfill.from_term == last_term
                && backfill.from_index == last_index) && has_reported(
                leader,
                heard,
                LocalQuorumTaskResponseType::BackfillLog {
                    quorum_node_id: leader.member_id,
                    last_log_term: last_term,
                    last_log_index: last_index,
                },
            ))
            &&& response matches LocalAppendEntriesCallbackResponse::TruncateLog {
                prev_term,
                prev_index,
            } ==> {
                &&& has_reported(
                    peer,
                    told,
                    LocalQuorumTaskResponseType::TruncateLog {
                        quorum_node_id: peer.member_id,
                        prev_term,
                        prev_index,
                    },
                )
                &&& leader.ongoing_backfill is None ==> has_reported(
                    leader,
                    heard,
                    LocalQuorumTaskResponseType::BackfillLog {
                        quorum_node_id: leader.member_id,
                        last_log_term: prev_term,
                        last_log_index: prev_index,
                    },
                )
            }
            &&& !(response is TruncateLog) ==> told.response_queue == peer.response_queue
            &&& leader.ongoing_backfill is None && response is UnrecognizedLeader ==> has_reported(
                leader,
                heard,
                LocalQuorumTaskResponseType::BackfillLog {
                    quorum_node_id: leader.member_id,
                    last_log_term: log_term,
                    last_log_index: log_index,
                },
            )
        }),
{
    let told = peer.pending_step(
        (callback, PendingView::AppendEntries { request_id, log_index, term: log_term }),
        PollView::Ready(ResponseView::AppendEntries(response)),
        sent,
    );
    assert(told.outbound->0.drop_last() =~= peer.outbound->0);
}

/// A backfill reaches the follower entry by entry, in the order of the log, each
/// under the number of its index, up to the first that the connection does not
/// take. Where it takes all, none is left out. The backfill is then over.
#[verifier::spinoff_prover]
#[verifier::rlimit(30)]
pub proof fn law_backfill_reaches_the_follower(
    leader: WorkerView,
    data: Seq<Arc<SerializationData>>,
    now: u128,
    after: WorkerView,
    peer: WorkerView,
    sent: bool,
)
    requires
        leader.outbound is Some,
        data.len() > 0,
        forall|i: int| 0 <= i < data.len() ==> (#[trigger] data[i])@.is_storable(),
        leader.task_step(TaskView::BackfillLog { data }, now, after),
        peer.next_callback_id < u64::MAX,
    ensures
        after.ongoing_backfill is None,
        after.last_heartbeat == now,
        after.outbound is Some,
        ({
            let offers = leader.outbound->0;
            let made = after.outbound->0.skip(offers.len() as int);
            &&& offers.is_prefix_of(after.outbound->0)
            &&& 0 < made.len() <= data.len()
            &&& forall|i: int| 0 <= i < made.len() - 1 ==> (#[trigger] made[i]).1
            &&& made.last().1 ==> made.len() == data.len()
            &&& forall|i: int|
                0 <= i < made.len() ==> {
                    let heard = peer.inbound_step((#[trigger] made[i]).0, sent);
                    &&& heard.task_queue.len() == peer.task_queue.len() + 1
                    &&& heard.task_queue.drop_last() == peer.task_queue
                    &&& brings_entry(
                        heard.task_queue.last().1,
                        leader,
                        data[i],
                        data[i].index,
                        leader.commit_index,
                    )
                }
        }),
{
    let offers = leader.outbound->0;
    let messages = leader.backfill_requests(data);
    let count = choose|count: int|
        0 <= count <= messages.len() && after.outbound == Some(
            #[trigger] outbound::offered_up_to(offers, messages, count),
        );
    let made = after.outbound->0.skip(offers.len() as int);
    assert(offers =~= after.outbound->0.take(offers.len() as int));
    assert(made.len() == if count < messages.len() {
        count + 1
    } else {
        count
    });
    assert forall|i: int| 0 <= i < made.len() implies (#[trigger] made[i]).0 == messages[i]
        && made[i].1 == (i < count) by {
        assert(made[i] == after.outbound->0[offers.len() + i]);
    }
    assert forall|i: int| 0 <= i < made.len() implies {
        let heard = peer.inbound_step((#[trigger] made[i]).0, sent);
        &&& heard.task_queue.len() == peer.task_queue.len() + 1
        &&& heard.task_queue.drop_last() == peer.task_queue
        &&& brings_entry(
            heard.task_queue.last().1,
            leader,
            data[i],
            data[i].index,
            leader.commit_index,
        )
    } by {
        let heard = peer.inbound_step(made[i].0, sent);
        assert(data[i]@.is_storable());
        write_laws::law_bytes_are_read_as_their_entry(data[i]@);
        assert(made[i].0 == messages[i]);
        assert(messages[i] == leader.append_request(data[i]@, data[i].index, leader.commit_index));
        assert(heard.task_queue.drop_last() =~= peer.task_queue);
    }
}

/// A signal to truncate the log reaches the follower with the point that the leader
/// has named, is answered at once, and the answer ends the backfill of the leader
/// and comes back under the number of the signal.
pub proof fn law_truncation_reaches_the_follower(
    leader: WorkerView,
    id: u64,
    prev_term: u64,
    prev_index: u64,
    now: u128,
    after: WorkerView,
    peer: WorkerView,
    sent: bool,
    accepted: bool,
)
    requires
        leader.outbound is Some,
        peer.outbound is Some,
        leader.task_step(TaskView::TruncateLog { id, prev_term, prev_index }, now, after),
    ensures
        has_offered(leader, after),
        after == (WorkerView { outbound: after.outbound, ..leader }),
        ({
            let heard = peer.inbound_step(last_message(after), sent);
            let answered = after.inbound_step(last_message(heard), accepted);
            &&& has_offered(peer, heard)
            &&& has_reported(
                peer,
                heard,
                LocalQuorumTaskResponseType::TruncateLog {
                    quorum_node_id: peer.member_id,
                    prev_term,
                    prev_index,
                },
            )
            &&& has_reported(
                after,
                answered,
                LocalQuorumTaskResponseType::TruncateLogResponse { id, ok: true },
            )
            &&& answered.ongoing_backfill is None
        }),
{
    assert(after.outbound->0.drop_last() =~= leader.outbound->0);
    let heard = peer.inbound_step(last_message(after), sent);
    assert(heard.outbound->0.drop_last() =~= peer.outbound->0);
}

/// A heartbeat reaches the follower as a request numbered 0 without an entry, in
/// the name and of the term of the leader, with the end of the log and the commit
/// index that the worker was told.
pub proof fn law_heartbeat_reaches_the_follower(
    leader: WorkerView,
    now: u128,
    accepted: bool,
    peer: WorkerView,
    sent: bool,
)
    requires
        leader.outbound is Some,
        peer.next_callback_id < u64::MAX,
    ensures
        ({
            let after = leader.heartbeating(now, accepted);
            &&& has_offered(leader, after)
            &&& after.last_heartbeat == now
            &&& has_asked(
                peer,
                peer.inbound_step(last_message(after), sent),
                RaftRequestView::AppendEntries {
                    term: leader.term,
                    leader_id: leader.self_id,
                    prev_index: leader.prev_log_index,
                    prev_term: leader.prev_log_term,
                    request_id: 0,
                    entry: None,
                    commit_index: leader.commit_index,
                },
                PendingView::AppendEntries { request_id: 0, log_index: 0, term: 0 },
            )
        }),
{
    let after = leader.heartbeating(now, accepted);
    assert(after.outbound->0.drop_last() =~= leader.outbound->0);
}

/// A worker that is told to send heartbeats sends them for the term, with the end of
/// the log and the commit index that it is told, until it is told to stop.
pub proof fn law_heartbeats_say_what_the_leader_has_told(
    before: WorkerView,
    id: u64,
    term: u64,
    prev_term: u64,
    prev_log_index: u64,
    commit_index: u64,
    now: u128,
    started: WorkerView,
    stopped: WorkerView,
)
    requires
        before.task_step(
            TaskView::StartHeartbeats { id, term, prev_term, prev_log_index, commit_index },
            now,
            started,
        ),
        started.task_step(TaskView::StopHeartbeats { id }, now, stopped),
    ensures
        started.send_heartbeats,
        started.heartbeat() == (MessageView::AppendEntriesRequest {
            term,
            leader_id: before.self_id,
            prev_log_index,
            prev_log_term: prev_term,
            request_id: 0,
            commit_index,
            entry: None,
        }),
        started.outbound == before.outbound,
        started.last_heartbeat == before.last_heartbeat,
        !stopped.send_heartbeats,
        stopped.outbound == before.outbound,
        stopped.term == term,
{
}

/// A heartbeat is due a tenth of a second after the last message, and not before,
/// unless the clock has gone back.
pub proof fn law_heartbeats_keep_their_pace(last: u128, now: u128)
    ensures
        now >= last + 100 ==> outbound::heartbeat_due(last, now),
        last <= now < last + 100 ==> !outbound::heartbeat_due(last, now),
        now < last ==> outbound::heartbeat_due(last, now),
{
}

/// A batch of writes that a node forwards reaches the state machine of the leader
/// whole: exactly one batch, with the same writes in the same order, whose answer
/// is waited for under the name of the batch. The node that forwards it remembers
/// its client.
pub proof fn law_forwarded_batch_reaches_the_leader(
    sender: WorkerView,
    batch_id: Seq<char>,
    requests: Seq<PutRequestView>,
    client: Callback,
    now: u128,
    after: WorkerView,
    leader: WorkerView,
    sent: bool,
)
    requires
        sender.outbound is Some,
        sender.task_step(
            TaskView::WriteBatch { batch_id, requests, callback: client },
            now,
            after,
        ),
        leader.next_callback_id < u64::MAX,
    ensures
        has_offered(sender, after),
        after.pending_write_batches == sender.pending_write_batches.insert(batch_id, client),
        has_asked(
            leader,
            leader.inbound_step(last_message(after), sent),
            RaftRequestView::WriteBatch { requests },
            PendingView::PutBatch { batch_id },
        ),
        forall|message: LocalRaftMessage|
            message@ == leader.inbound_step(last_message(after), sent).task_queue.last() ==> (
            (#[trigger] message.payload) matches LocalRaftMessagePayload::WriteBatch(request)
                && request.requests@.len() == requests.len() && (forall|i: int|
                0 <= i < requests.len() ==> (#[trigger] request.requests@[i])@ == requests[i])),
{
    assert(after.outbound->0.drop_last() =~= sender.outbound->0);
    let asked = leader.inbound_step(last_message(after), sent).task_queue.last();
    assert forall|message: LocalRaftMessage| message@ == asked implies ((
    #[trigger] message.payload) matches LocalRaftMessagePayload::WriteBatch(request)
        && request.requests@.len() == requests.len() && (forall|i: int|
        0 <= i < requests.len() ==> (#[trigger] request.requests@[i])@ == requests[i])) by {
        if let LocalRaftMessagePayload::WriteBatch(request) = message.payload {
            assert(request.writes() == requests);
            assert forall|i: int| 0 <= i < requests.len() implies (
            #[trigger] request.requests@[i])@ == requests[i] by {
                assert(request.writes()[i] == request.requests@[i]@);
            }
        }
    }
}

/// The answer of the leader to a batch that was forwarded reaches the client that
/// waits for it, once, with the answers to its writes.
pub proof fn law_answer_to_a_batch_reaches_its_client(
    leader: WorkerView,
    callback: Callback,
    batch_id: Seq<char>,
    responses: Seq<PutResponseView>,
    err: Option<Seq<char>>,
    sent: bool,
    sender: WorkerView,
    client: Callback,
    accepted: bool,
)
    requires
        leader.outbound is Some,
        sender.pending_write_batches.contains_key(batch_id),
        sender.pending_write_batches[batch_id] == client,
    ensures
        ({
            let told = leader.pending_step(
                (callback, PendingView::PutBatch { batch_id }),
                PollView::Ready(ResponseView::WriteBatch { responses, err }),
                sent,
            );
            let heard = sender.inbound_step(last_message(told), accepted);
            &&& has_offered(leader, told)
            &&& heard.client_responses.len() == sender.client_responses.len() + 1
            &&& heard.client_responses.drop_last() == sender.client_responses
            &&& heard.client_responses.last().callback == client
            &&& heard.client_responses.last().batch_id == batch_id
            &&& heard.client_responses.last().responses == responses
            &&& heard.pending_write_batches == sender.pending_write_batches.remove(batch_id)
            &&& heard.inbound_step(last_message(told), accepted).client_responses
                == heard.client_responses
        }),
{
    let told = leader.pending_step(
        (callback, PendingView::PutBatch { batch_id }),
        PollView::Ready(ResponseView::WriteBatch { responses, err }),
        sent,
    );
    let heard = sender.inbound_step(last_message(told), accepted);
    assert(told.outbound->0.drop_last() =~= leader.outbound->0);
    assert(heard.client_responses.drop_last() =~= sender.client_responses);
}

/// A task whose answer has not come goes on waiting; one whose answer will not come
/// is given up. Neither is told to the peer.
pub proof fn law_unanswered_tasks_wait(
    before: WorkerView,
    pending: (Callback, PendingView),
    sent: bool,
)
    ensures
        before.pending_step(pending, PollView::Empty, sent) == (WorkerView {
            pending_tasks: before.pending_tasks.push(pending),
            ..before
        }),
        before.pending_step(pending, PollView::Closed, sent) == before,
{
}

/// A worker handles up to 32 messages and up to 32 tasks at a time, and all that
/// there are if there are fewer.
pub proof fn law_work_is_done_in_portions(worker: WorkerView)
    ensures
        worker.inbound.len() <= 32 ==> worker.next_messages() == worker.inbound.len(),
        worker.inbound.len() > 32 ==> worker.next_messages() == 32,
        worker.work_queue.len() <= 32 ==> worker.next_tasks() == worker.work_queue.len(),
        worker.work_queue.len() > 32 ==> worker.next_tasks() == 32,
{
}

/// The answer of a peer to a signal to truncate is reported as it came, and lets the
/// worker ask for another backfill.
pub proof fn law_answer_to_a_truncation_is_reported(
    worker: WorkerView,
    request_id: u64,
    ok: bool,
    sent: bool,
)
    ensures
        ({
            let after = worker.inbound_step(
                MessageView::TruncateLogResponse { request_id, ok },
                sent,
            );
            &&& has_reported(
                worker,
                after,
                LocalQuorumTaskResponseType::TruncateLogResponse { id: request_id, ok },
            )
            &&& after.ongoing_backfill is None
            &&& after.outbound == worker.outbound
        }),
{
}

/// A worker goes on behind a request for a vote only where the link has taken the
/// request.
pub proof fn law_refused_vote_request_ends_the_work(
    worker: WorkerView,
    now: u128,
    after: WorkerView,
)
    requires
        worker.works_off(1, now, after),
        worker.work_queue[0] is RequestVote,
    ensures
        worker.outbound is Some,
        has_offered(worker, after),
        after.outbound->0.last().1,
{
    let middle = choose|middle: WorkerView|
        {
            &&& worker.works_off(0, now, middle)
            &&& middle.work_queue.len() > 0
            &&& #[trigger] middle.popped().task_step(middle.work_queue[0], now, after)
            &&& !middle.popped().vote_fails(middle.work_queue[0], after)
        };
    assert(worker.works_off(0, now, middle));
    assert(middle == worker);
    if let TaskView::RequestVote { id, term, last_term, last_index } = worker.work_queue[0] {
        let request = worker.popped().vote_request(id, term, last_index, last_term);
        let sent = choose|sent: bool|
            after == #[trigger] worker.popped().sending(request, sent);
        assert(after == worker.popped().sending(request, sent));
        assert(after != worker.popped().sending(request, false));
    }
    if worker.outbound is Some {
        assert(after.outbound->0.drop_last() =~= worker.outbound->0);
    }
}

/// A heartbeat is offered to the connection where heartbeats are to be sent and one is
/// due, and the time is noted. Else nothing happens.
pub proof fn law_heartbeats_are_sent_when_due(
    send_heartbeats: bool,
    last: u128,
    heartbeat: MessageView,
    tx: Option<crossbeam_channel::Sender<RemoteQuorumMessage>>,
    now: u128,
    last_after: u128,
    tx_after: Option<crossbeam_channel::Sender<RemoteQuorumMessage>>,
)
    requires
        outbound::heartbeats_at(send_heartbeats, last, heartbeat, tx, now, last_after, tx_after),
    ensures
        ({
            let before = quorum_worker::link_view(tx);
            let after = quorum_worker::link_view(tx_after);
            &&& !send_heartbeats || last <= now < last + 100 ==> {
                &&& after == before
                &&& last_after == last
            }
            &&& send_heartbeats && (now < last || last + 100 <= now) ==> {
                &&& last_after == now
                &&& before is None ==> after is None
                &&& before is Some ==> {
                    &&& after is Some
                    &&& after->0.len() == before->0.len() + 1
                    &&& after->0.drop_last() == before->0
                    &&& after->0.last().0 == heartbeat
                }
            }
        }),
{
    let before = quorum_worker::link_view(tx);
    let after = quorum_worker::link_view(tx_after);
    if send_heartbeats && (now < last || last + 100 <= now) && before is Some {
        assert(after->0.drop_last() =~= before->0);
    }
}

/// A worker does the tasks that wait for it in the order in which they came, and each of
/// them once.
pub proof fn law_tasks_are_done_in_turn(
    worker: WorkerView,
    count: int,
    now: u128,
    after: WorkerView,
)
    requires
        worker.works_off(count, now, after),
        count >= 0,
    ensures
        count <= worker.work_queue.len(),
        after.work_queue == worker.work_queue.skip(count),
        count == 1 ==> (WorkerView {
            work_queue: worker.work_queue.skip(1),
            ..worker
        }).task_step(worker.work_queue[0], now, after),
    decreases count,
{
    if count > 0 {
        let middle = choose|middle: WorkerView|
            {
                &&& worker.works_off(count - 1, now, middle)
                &&& middle.work_queue.len() > 0
                &&& #[trigger] middle.popped().task_step(middle.work_queue[0], now, after)
                &&& !middle.popped().vote_fails(middle.work_queue[0], after)
            };
        law_tasks_are_done_in_turn(worker, count - 1, now, middle);
        assert(after.work_queue == middle.popped().work_queue);
        assert(after.work_queue =~= worker.work_queue.skip(count));
        assert(worker.work_queue.skip(0) =~= worker.work_queue);
        if count == 1 {
            assert(middle == worker);
        }
    } else {
        assert(worker.work_queue.skip(0) =~= worker.work_queue);
    }
}

/// How many of the messages ask the state machine for something.
pub open spec fn requests_among(messages: Seq<MessageView>) -> nat
    decreases messages.len(),
{
    if messages.len() == 0 {
        0
    } else {
        let last = messages.last();
        requests_among(messages.drop_last()) + if last is VoteRequest || last is AppendEntriesRequest
            || last is PutBatchRequest {
            1nat
        } else {
            0nat
        }
    }
}

/// Every request of the peer is passed on once, behind those that were passed on
/// before, and its answer is waited for under a callback of its own.
pub proof fn law_every_request_is_passed_on(
    before: WorkerView,
    messages: Seq<MessageView>,
    after: WorkerView,
)
    requires
        before.inbound_run(messages, after),
        before.next_callback_id + messages.len() <= u64::MAX,
    ensures
        before.task_queue.is_prefix_of(after.task_queue),
        after.task_queue.len() == before.task_queue.len() + requests_among(messages),
        before.pending_tasks.is_prefix_of(after.pending_tasks),
        after.pending_tasks.len() == before.pending_tasks.len() + requests_among(messages),
        after.next_callback_id == before.next_callback_id + requests_among(messages),
        requests_among(messages) <= messages.len(),
        forall|i: int|
            0 <= i < requests_among(messages) ==> {
                &&& (#[trigger] after.task_queue[before.task_queue.len() + i]).0.id
                    == before.next_callback_id + i
                &&& after.pending_tasks[before.pending_tasks.len() + i].0.id
                    == before.next_callback_id + i
            },
    decreases messages.len(),
{
    if messages.len() > 0 {
        let fewer = messages.drop_last();
        let (middle, sent) = choose|middle: WorkerView, sent: bool|
            before.inbound_run(fewer, middle) && after == #[trigger] middle.inbound_step(
                messages.last(),
                sent,
            );
        law_every_request_is_passed_on(before, fewer, middle);
        let start = before.task_queue.len();
        assert(before.task_queue =~= after.task_queue.take(start as int));
        assert(before.pending_tasks =~= after.pending_tasks.take(before.pending_tasks.len() as int));
        assert forall|i: int| 0 <= i < requests_among(messages) implies {
            &&& (#[trigger] after.task_queue[before.task_queue.len() + i]).0.id
                == before.next_callback_id + i
            &&& after.pending_tasks[before.pending_tasks.len() + i].0.id == before.next_callback_id
                + i
        } by {
            if i < requests_among(fewer) {
                assert(middle.task_queue[start + i].0.id == before.next_callback_id + i);
            }
        }
    }
}

} // verus!
