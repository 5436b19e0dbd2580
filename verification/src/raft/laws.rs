//! What can be relied on of the state machine as a whole.

use crate::persistence::worker::PersistenceResponseType;
use crate::quorum::types::{LocalQuorumResponse, LocalQuorumTaskResponseType};
use crate::raft::leader::outstanding;
use crate::raft::leader::replication;
use crate::raft::raft_sm::{
    Callback, LocalRaftMessage, LocalRaftMessagePayload, LocalRequestVoteRequest,
    OutstandingMessageType, RaftNodeType, ResponseView,
};
use crate::raft::shared_state::StateView;
use crate::service_utils::storage_utils::SerializationData;
use std::sync::Arc;
use vstd::prelude::*;

verus! {

/// Different peers have different quorum workers, and the workers of the peers
/// among `nodes` nodes are numbered without a gap. Nodes are numbered from 1.
pub proof fn law_peers_have_workers_of_their_own(first: u64, second: u64, identity: u32, nodes: u64)
    requires
        1 <= identity <= nodes,
        1 <= first <= nodes,
        1 <= second <= nodes,
        first != identity,
        second != identity,
    ensures
        0 <= replication::worker_index(first, identity) < nodes - 1,
        first != second ==> replication::worker_index(first, identity)
            != replication::worker_index(second, identity),
{
}

/// A new leader commits nothing by taking the lead. It appends one entry, of its
/// own term and without writes.
pub proof fn law_taking_the_lead_commits_nothing(
    before: StateView,
    timestamp: u64,
    after: StateView,
)
    requires
        before.takes_lead(timestamp, after),
    ensures
        after.commit_index == before.commit_index,
        after.published_commit_index == before.published_commit_index,
        after.current_term == before.current_term,
        after.log.len() == before.log.len() + 1,
        after.log.drop_last() == before.log,
        after.log.last()@.term == before.current_term,
        after.log.last()@.requests.len() == 0,
{
    let (entry, sent) = choose|entry: Arc<SerializationData>, sent: bool|
        {
            &&& entry@ == before.new_entry(
                before.log.len() as u64,
                (before.next_message_id + 1) as u64,
                timestamp,
                Seq::empty(),
            )
            &&& after == #[trigger] before.leading(after.bus, entry, sent)
        };
    assert(after.log == before.log.push(entry));
    assert(after.log.drop_last() =~= before.log);
}

/// Whether an entry that `acks` peers have acknowledged is durable, where
/// `persisted` says whether it is on the disk of the leader.
pub open spec fn is_durable(quorum_size: u32, persisted: bool, acks: int) -> bool {
    persisted && acks >= quorum_size
}

/// A client is told that its batch was written only once the batch is on the
/// disk of the leader and acknowledged by a quorum, and is committed. This is a
/// report of the persistence worker.
pub proof fn law_writes_are_answered_when_durable_after_persistence(
    before: StateView,
    event: PersistenceResponseType,
    after: StateView,
    callback: Callback,
)
    requires
        before.leader_persistence_step(event, after),
        after.responses == before.responses.push((callback, ResponseView::batch(None))),
    ensures
        event matches PersistenceResponseType::LogPersisted { id } && {
            let message = before.outstanding[id];
            &&& before.outstanding.contains_key(id)
            &&& message.message_type matches OutstandingMessageType::WriteBatch {
                callback: waiting,
                index,
                ..
            } && waiting == callback && index <= after.commit_index
            &&& is_durable(before.quorum_size, true, message.acks())
        },
{
    assert(after.responses.last() == (callback, ResponseView::batch(None)));
    assert(after.responses.len() == before.responses.len() + 1);
}

/// A client is told that its batch was written only once the batch is on the
/// disk of the leader and acknowledged by a quorum, and is committed. This is a
/// report of a quorum worker.
pub proof fn law_writes_are_answered_when_durable_after_acknowledgement(
    before: StateView,
    event: LocalQuorumResponse,
    after: StateView,
    callback: Callback,
)
    requires
        before.leader_quorum_step(event, after),
        after.responses == before.responses.push((callback, ResponseView::batch(None))),
    ensures
        event.response_type matches LocalQuorumTaskResponseType::AppendEntries { id, .. } && {
            let message = before.outstanding[id];
            &&& before.outstanding.contains_key(id)
            &&& message.message_type matches OutstandingMessageType::WriteBatch {
                callback: waiting,
                index,
                ..
            } && waiting == callback && index <= after.commit_index
            &&& is_durable(before.quorum_size, message.is_persisted(), message.acks() + 1)
        },
{
    assert(after.responses.last() == (callback, ResponseView::batch(None)));
    assert(after.responses.len() == before.responses.len() + 1);
}

/// A leader moves its commit index only to that of a write or a no-op which is
/// on its disk and acknowledged by a quorum.
pub proof fn law_commit_needs_disk_and_quorum(
    before: StateView,
    persisted: PersistenceResponseType,
    acknowledged: LocalQuorumResponse,
    after: StateView,
)
    requires
        after.commit_index != before.commit_index,
        before.leader_persistence_step(persisted, after) || before.leader_quorum_step(
            acknowledged,
            after,
        ),
    ensures
        after.commit_index > before.commit_index,
        exists|id: u64|
            {
                &&& #[trigger] before.outstanding.contains_key(id)
                &&& before.outstanding[id].index() == Some(after.commit_index)
                &&& (is_durable(
                    before.quorum_size,
                    true,
                    before.outstanding[id].acks(),
                ) || is_durable(
                    before.quorum_size,
                    before.outstanding[id].is_persisted(),
                    before.outstanding[id].acks() + 1,
                ))
            },
{
    if before.leader_persistence_step(persisted, after) {
        let id = match persisted {
            PersistenceResponseType::LogPersisted { id } => id,
            PersistenceResponseType::VotePersisted { id, .. } => id,
        };
        assert(before.outstanding.contains_key(id));
    } else {
        let id = match acknowledged.response_type {
            LocalQuorumTaskResponseType::AppendEntries { id, .. } => id,
            _ => 0,
        };
        assert(before.outstanding.contains_key(id));
    }
}

impl StateView {
    /// Whether the node will ask for votes only in terms in which it has not voted.
    pub open spec fn votes_are_behind(self) -> bool {
        forall|term: u64| #[trigger] self.term_votes.contains_key(term) ==> term < self.next_term
    }

    /// Whether every vote of this state is a vote of `after`.
    pub open spec fn keeps_votes(self, after: StateView) -> bool {
        forall|term: u64| #[trigger]
            self.term_votes.contains_key(term) ==> after.term_votes.contains_key(term)
                && after.term_votes[term] == self.term_votes[term]
    }
}

/// A leader or a candidate votes at most once in a term: no vote that it has
/// given is replaced, neither by a vote for another nor by one for itself.
pub proof fn law_one_vote_per_term(
    before: StateView,
    request: LocalRequestVoteRequest,
    callback: Callback,
    sent: bool,
)
    requires
        before.votes_are_behind(),
        request.term < u64::MAX,
        before.next_term < u64::MAX,
    ensures
        before.keeps_votes(before.voting(request, callback, sent)),
        before.voting(request, callback, sent).votes_are_behind(),
        before.keeps_votes(before.electing(sent)),
        before.electing(sent).votes_are_behind(),
{
    let voted = before.voting(request, callback, sent);
    assert forall|term: u64| #[trigger] voted.term_votes.contains_key(term) implies term
        < voted.next_term by {
        if before.term_votes.contains_key(term) {
            assert(term < before.next_term);
        }
    }
    let electing = before.electing(sent);
    assert forall|term: u64| #[trigger] electing.term_votes.contains_key(term) implies term
        < electing.next_term by {
        if before.term_votes.contains_key(term) {
            assert(term < before.next_term);
        }
    }
    assert forall|term: u64| #[trigger] before.term_votes.contains_key(term) implies {
        &&& electing.term_votes.contains_key(term)
        &&& electing.term_votes[term] == before.term_votes[term]
    } by {
        assert(term < before.next_term);
    }
}

/// A vote is never given to a candidate whose term is not a later one, or whose
/// log is shorter, whatever the role of the node.
pub proof fn law_votes_go_to_later_terms_and_longer_logs(
    before: StateView,
    role: RaftNodeType,
    request: LocalRequestVoteRequest,
    callback: Callback,
    after: StateView,
)
    requires
        before.votes_as(role, request, callback, after),
        request.term <= before.current_term || request.last_log_index < before.last_log_index
            || before.term_votes.contains_key(request.term),
    ensures
        after.responses == before.responses.push((callback, ResponseView::RequestVote(false))),
        after.outstanding == before.outstanding,
        after.persistence_tasks == before.persistence_tasks,
        after.term_votes == before.term_votes,
{
}

/// Once a leader or a candidate has given its vote in a term, whoever asks for it
/// again is refused: the vote stays, nothing more is written, and nothing more
/// is waited for.
pub proof fn law_second_request_of_a_term_is_refused(
    before: StateView,
    first: LocalRequestVoteRequest,
    first_callback: Callback,
    second: LocalRequestVoteRequest,
    second_callback: Callback,
    sent: bool,
)
    requires
        before.accepts_vote(first.term, first.last_log_index),
        second.term == first.term,
    ensures
        ({
            let voted = before.voting(first, first_callback, true);
            let after = voted.voting(second, second_callback, sent);
            &&& voted.term_votes.contains_key(first.term)
            &&& voted.term_votes[first.term] == first.candidate_id
            &&& after.responses == voted.responses.push(
                (second_callback, ResponseView::RequestVote(false)),
            )
            &&& after.term_votes == voted.term_votes
            &&& after.persistence_tasks == voted.persistence_tasks
            &&& after.outstanding == voted.outstanding
            &&& after.next_message_id == voted.next_message_id
        }),
{
}

/// No message takes a node back to an earlier term.
pub proof fn law_messages_do_not_lower_the_term(
    before: StateView,
    role: RaftNodeType,
    message: LocalRaftMessage,
    after: StateView,
    role_after: RaftNodeType,
)
    requires
        before.accepts(role, message, after, role_after),
    ensures
        before.current_term <= after.current_term,
{
}

/// No message takes the commit index of a node back, but for a heartbeat of an
/// earlier term that the leader of a follower has sent.
pub proof fn law_messages_do_not_lower_the_commit_index(
    before: StateView,
    role: RaftNodeType,
    message: LocalRaftMessage,
    after: StateView,
    role_after: RaftNodeType,
)
    requires
        before.accepts(role, message, after, role_after),
        message.payload matches LocalRaftMessagePayload::AppendEntries(request)
            ==> request.request_id != 0 || request.term >= before.current_term,
    ensures
        before.commit_index <= after.commit_index,
{
}

/// A time step of a leader keeps its term, and its commit index does not go back.
pub proof fn law_leader_steps_keep_the_term(
    before: StateView,
    initialized: bool,
    timestamp: u64,
    after: StateView,
    work: u64,
)
    requires
        before.leader_time_step(initialized, timestamp, after, work),
    ensures
        after.current_term == before.current_term,
        before.commit_index <= after.commit_index,
{
    let (led, persisted, acknowledged) = choose|
        led: StateView,
        persisted: StateView,
        acknowledged: StateView,
    | #[trigger]
        before.leader_time_step_via(initialized, timestamp, led, persisted, acknowledged, after);
    if !initialized {
        law_taking_the_lead_commits_nothing(before, timestamp, led);
    }
    outstanding::law_persistence_responses_keep_log(
        StateView { persistence_response: Seq::empty(), ..led },
        before.persistence_response,
        persisted,
    );
    outstanding::law_quorum_responses_keep_log(
        StateView { quorum_response: Seq::empty(), ..persisted },
        before.quorum_response,
        acknowledged,
    );
    lemma_backfilling_keeps(acknowledged, outstanding::backfill_requests(before.quorum_response));
}

/// A time step of a follower keeps its term and its commit index.
pub proof fn law_follower_steps_keep_the_term(before: StateView, after: StateView, work: u64)
    requires
        before.follower_time_step(after, work),
    ensures
        after.current_term == before.current_term,
        after.commit_index == before.commit_index,
{
    lemma_follower_persistence_keeps(before.emptied(), before.persistence_response);
    lemma_follower_quorum_keeps(
        before.emptied().follower_persistence_run(before.persistence_response),
        before.quorum_response,
    );
}

/// A candidate becomes the leader only with its vote for itself on disk and the
/// votes of a quorum. This is a report of the persistence worker.
pub proof fn law_elections_need_a_quorum_after_persistence(
    before: StateView,
    event: PersistenceResponseType,
)
    requires
        before.candidate_persistence_step(event).1,
    ensures
        event matches PersistenceResponseType::VotePersisted { id, term, .. } && {
            &&& before.outstanding.contains_key(id)
            &&& before.outstanding[id].message_type is CandidateElection
            &&& before.outstanding[id].acks() >= before.quorum_size
            &&& before.candidate_persistence_step(event).0.leader_id == before.identity
            &&& before.candidate_persistence_step(event).0.current_term == term
        },
{
}

/// A candidate becomes the leader only with its vote for itself on disk and the
/// votes of a quorum. This is a response of a quorum worker.
pub proof fn law_elections_need_a_quorum_after_votes(before: StateView, event: LocalQuorumResponse)
    requires
        before.candidate_quorum_step(event).1,
    ensures
        event.response_type matches LocalQuorumTaskResponseType::RequestVoteResponse {
            id,
            term,
            received_vote,
        } && {
            &&& before.outstanding.contains_key(id)
            &&& before.outstanding[id].message_type is CandidateElection
            &&& before.outstanding[id].is_persisted()
            &&& before.outstanding[id].acks() + (if received_vote {
                1int
            } else {
                0int
            }) >= before.quorum_size
            &&& before.candidate_quorum_step(event).0.leader_id == before.identity
            &&& before.candidate_quorum_step(event).0.current_term == term
        },
{
}

/// Answering backfill requests changes nothing but tasks and message identifiers.
pub proof fn lemma_backfilling_keeps(state: StateView, requests: Seq<(u64, u64, u64)>)
    ensures
        state.backfilling_all(requests).current_term == state.current_term,
        state.backfilling_all(requests).commit_index == state.commit_index,
        state.backfilling_all(requests).log == state.log,
        state.backfilling_all(requests).bus == state.bus,
        state.backfilling_all(requests).outstanding == state.outstanding,
        state.backfilling_all(requests).next_log_index == state.next_log_index,
    decreases requests.len(),
{
    if requests.len() > 0 {
        lemma_backfilling_keeps(state, requests.drop_last());
    }
}

/// A follower that is told what is on disk keeps its term, its log and its readers.
pub proof fn lemma_follower_persistence_keeps(state: StateView, events: Seq<PersistenceResponseType>)
    ensures
        state.follower_persistence_run(events).current_term == state.current_term,
        state.follower_persistence_run(events).commit_index == state.commit_index,
        state.follower_persistence_run(events).log == state.log,
        state.follower_persistence_run(events).bus == state.bus,
    decreases events.len(),
{
    if events.len() > 0 {
        lemma_follower_persistence_keeps(state, events.drop_last());
    }
}

/// A follower that hears of its peers keeps its term and its commit index.
proof fn lemma_follower_quorum_keeps(state: StateView, events: Seq<LocalQuorumResponse>)
    ensures
        state.follower_quorum_run(events).current_term == state.current_term,
        state.follower_quorum_run(events).commit_index == state.commit_index,
    decreases events.len(),
{
    if events.len() > 0 {
        lemma_follower_quorum_keeps(state, events.drop_last());
    }
}

} // verus!
