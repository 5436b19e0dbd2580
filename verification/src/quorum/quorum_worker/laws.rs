//! What can be relied on of the worker of a peer.

use crate::quorum::messages::{MessageView, PutResponseView};
use crate::quorum::quorum_worker::outbound;
use crate::quorum::quorum_worker::pending::PollView;
use crate::quorum::quorum_worker::{PendingView, WorkerView};
use crate::quorum::types::{LocalQuorumResponse, TaskView};
use crate::raft::raft_sm::Callback;
use vstd::prelude::*;

verus! {

/// How many of the responses ask the leader for a backfill.
pub open spec fn backfills(responses: Seq<LocalQuorumResponse>) -> nat
    decreases responses.len(),
{
    if responses.len() == 0 {
        0
    } else {
        backfills(responses.drop_last()) + if responses.last().response_type is BackfillLog {
            1nat
        } else {
            0nat
        }
    }
}

/// While a backfill is under way no other is asked for: of any number of
/// messages of the peer, the leader is told of at most one, as long as the peer
/// does not report that it has truncated its log.
pub proof fn law_one_backfill_at_a_time(
    before: WorkerView,
    messages: Seq<MessageView>,
    after: WorkerView,
    added: Seq<LocalQuorumResponse>,
)
    requires
        before.inbound_run(messages, after),
        forall|i: int| 0 <= i < messages.len() ==> !(#[trigger] messages[i] is TruncateLogResponse),
        after.response_queue == before.response_queue + added,
    ensures
        backfills(added) <= 1,
        before.ongoing_backfill is Some ==> backfills(added) == 0,
        backfills(added) == 1 ==> after.ongoing_backfill is Some,
        before.ongoing_backfill is Some ==> after.ongoing_backfill == before.ongoing_backfill,
    decreases messages.len(),
{
    if messages.len() == 0 {
        assert(added =~= Seq::empty());
    } else {
        let (middle, sent) = choose|middle: WorkerView, sent: bool|
            before.inbound_run(messages.drop_last(), middle) && after
                == #[trigger] middle.inbound_step(messages.last(), sent);
        lemma_run_adds_responses(before, messages.drop_last(), middle);
        let earlier = middle.response_queue.skip(before.response_queue.len() as int);
        assert(middle.response_queue =~= before.response_queue + earlier);
        law_one_backfill_at_a_time(before, messages.drop_last(), middle, earlier);
        assert(!(messages[messages.len() - 1] is TruncateLogResponse));
        if after.response_queue == middle.response_queue {
            assert(added =~= earlier);
        } else {
            let last = after.response_queue.last();
            assert(after.response_queue == middle.response_queue.push(last));
            assert(before.response_queue + added =~= before.response_queue + earlier.push(last));
            assert(added =~= (before.response_queue + added).skip(
                before.response_queue.len() as int,
            ));
            assert(added =~= earlier.push(last));
            assert(added.drop_last() =~= earlier);
        }
    }
}

/// The worker takes back nothing of what it has told the state machine.
proof fn lemma_run_adds_responses(
    before: WorkerView,
    messages: Seq<MessageView>,
    after: WorkerView,
)
    requires
        before.inbound_run(messages, after),
    ensures
        before.response_queue.is_prefix_of(after.response_queue),
    decreases messages.len(),
{
    if messages.len() > 0 {
        let (middle, sent) = choose|middle: WorkerView, sent: bool|
            before.inbound_run(messages.drop_last(), middle) && after
                == #[trigger] middle.inbound_step(messages.last(), sent);
        lemma_run_adds_responses(before, messages.drop_last(), middle);
    }
}

/// A new commit index goes to the peer at once: the next heartbeat is due, and
/// says it.
pub proof fn law_commit_index_is_told_at_once(
    before: WorkerView,
    commit_index: u64,
    now: u128,
    after: WorkerView,
    later: u128,
)
    requires
        before.task_step(TaskView::UpdateCommitIndex { commit_index }, now, after),
        outbound::HEARTBEAT_INTERVAL_MS <= later,
    ensures
        outbound::heartbeat_due(after.last_heartbeat, later),
        after.heartbeat() matches MessageView::AppendEntriesRequest { commit_index: told, .. }
            && told == commit_index,
{
}

/// The pending tasks of which nothing has been heard.
pub open spec fn unheard(pending: Seq<(Callback, PendingView)>, polls: Seq<PollView>) -> Seq<
    (Callback, PendingView),
>
    decreases pending.len(),
{
    if pending.len() == 0 {
        Seq::empty()
    } else {
        let earlier = unheard(pending.drop_last(), polls.drop_last());
        if polls.last() is Empty {
            earlier.push(pending.last())
        } else {
            earlier
        }
    }
}

/// A request of the peer is answered at most once: the worker keeps the tasks
/// of which it has heard nothing, in their order, and no others.
pub proof fn law_requests_are_answered_once(
    before: WorkerView,
    pending: Seq<(Callback, PendingView)>,
    polls: Seq<PollView>,
    after: WorkerView,
)
    requires
        before.pending_run(pending, polls, after),
    ensures
        after.pending_tasks == before.pending_tasks + unheard(pending, polls),
    decreases pending.len(),
{
    if pending.len() == 0 {
        assert(before.pending_tasks + unheard(pending, polls) =~= before.pending_tasks);
    } else {
        let (middle, sent) = choose|middle: WorkerView, sent: bool|
            before.pending_run(pending.drop_last(), polls.drop_last(), middle) && after
                == #[trigger] middle.pending_step(pending.last(), polls.last(), sent);
        law_requests_are_answered_once(before, pending.drop_last(), polls.drop_last(), middle);
        assert(after.pending_tasks =~= before.pending_tasks + unheard(pending, polls));
    }
}

/// A client is told at most once of its batch, however often the peer answers.
pub proof fn law_batches_are_answered_once(
    before: WorkerView,
    batch_id: Seq<char>,
    first: Seq<PutResponseView>,
    second: Seq<PutResponseView>,
    first_sent: bool,
    second_sent: bool,
)
    ensures
        ({
            let answered = before.inbound_step(
                MessageView::PutBatchResponse { batch_id, responses: first },
                first_sent,
            );
            &&& answered.client_responses.len() <= before.client_responses.len() + 1
            &&& answered.inbound_step(
                MessageView::PutBatchResponse { batch_id, responses: second },
                second_sent,
            ) == answered
        }),
{
}

} // verus!
