//! What can be relied on of elections: who is asked, who votes, and who wins.

use crate::persistence::worker::{PersistenceResponseType, PersistenceTaskView};
use crate::quorum::types::{LocalQuorumResponse, LocalQuorumTaskResponseType, TaskView};
use crate::raft::candidate::{self, RaftCandidateStateDelegate};
use crate::raft::executor::StateDelegate;
use crate::raft::follower::election::ElectionTimer;
use crate::raft::raft_sm::{
    Callback, LocalRaftMessage, LocalRaftMessagePayload, LocalRequestVoteRequest,
    OutstandingMessageType, RaftMessageStateChange, RaftNodeType, ResponseView,
};
use crate::raft::shared_state::StateView;
use vstd::prelude::*;

verus! {

/// Whether `after` comes of standing for election in `before`: every peer is asked
/// for its vote, for the term that comes next, with the index and the term of the
/// last entry of the node. The node votes for itself, sends that vote to the disk,
/// and waits for the disk and for every peer.
pub open spec fn stands_for_election(before: StateView, after: StateView) -> bool {
    let id = before.next_message_id;
    let term = before.next_term;
    &&& after.tasks.len() == before.tasks.len()
    &&& forall|i: int|
        0 <= i < before.tasks.len() ==> {
            &&& (#[trigger] after.tasks[i]).len() == before.tasks[i].len() + 1
            &&& after.tasks[i].drop_last() == before.tasks[i]
            &&& after.tasks[i].last() == (TaskView::RequestVote {
                id,
                term,
                last_term: before.last_log_term,
                last_index: before.last_log_index,
            })
        }
    &&& after.persistence_tasks.len() == before.persistence_tasks.len() + 1
    &&& after.persistence_tasks.drop_last() == before.persistence_tasks
    &&& after.persistence_tasks.last().0 == (PersistenceTaskView::AppendVote {
        id,
        term,
        candidate_id: before.identity,
    })
    &&& after.term_votes == before.term_votes.insert(term, before.identity)
    &&& after.next_term == term + 1
    &&& after.next_message_id == id + 1
    &&& after.outstanding.contains_key(id)
    &&& after.outstanding[id].outstanding_responses == 1 + before.tasks.len()
    &&& after.outstanding[id].message_type == (OutstandingMessageType::CandidateElection {
        persistence_done: false,
        quorum_votes: 1,
    })
    &&& after.log == before.log
    &&& after.current_term == before.current_term
    &&& after.commit_index == before.commit_index
    &&& after.last_log_index == before.last_log_index
    &&& after.last_log_term == before.last_log_term
    &&& after.responses == before.responses
}

/// A node that starts an election stands for it as it should.
pub proof fn law_election_asks_every_peer(before: StateView, sent: bool)
    requires
        before.next_term < u64::MAX,
        before.next_message_id < u64::MAX,
        before.tasks.len() < i32::MAX,
    ensures
        stands_for_election(before, before.electing(sent)),
        before.electing(sent).persistence_tasks.last().1 == sent,
{
    let after = before.electing(sent);
    assert(after.persistence_tasks.drop_last() =~= before.persistence_tasks);
    assert forall|i: int| 0 <= i < before.tasks.len() implies (#[trigger] after.tasks[i]).len()
        == before.tasks[i].len() + 1 && after.tasks[i].drop_last() == before.tasks[i] by {
        assert(after.tasks[i].drop_last() =~= before.tasks[i]);
    }
}

/// A peer whose log ends where that of the candidate does, that is of an earlier
/// term and has not voted in the term of the election, accepts what it is asked.
/// One whose log is longer does not.
pub proof fn law_peer_with_the_same_log_votes(
    before: StateView,
    sent: bool,
    worker: int,
    peer: StateView,
)
    requires
        before.next_term < u64::MAX,
        before.next_message_id < u64::MAX,
        before.tasks.len() < i32::MAX,
        0 <= worker < before.tasks.len(),
    ensures
        before.electing(sent).tasks[worker].last() matches TaskView::RequestVote {
            term,
            last_index,
            ..
        } && {
            &&& peer.last_log_index == before.last_log_index && peer.current_term
                < before.next_term && !peer.term_votes.contains_key(before.next_term)
                ==> peer.accepts_vote(term, last_index)
            &&& peer.last_log_index > before.last_log_index ==> !peer.accepts_vote(term, last_index)
        },
{
    law_election_asks_every_peer(before, sent);
}

/// What a candidate hears of the disk leaves alone what an election is started from.
proof fn lemma_persistence_keeps_position(state: StateView, events: Seq<PersistenceResponseType>)
    ensures
        ({
            let after = state.candidate_persistence_run(events).0;
            &&& after.tasks == state.tasks
            &&& after.persistence_tasks == state.persistence_tasks
            &&& after.next_message_id == state.next_message_id
            &&& after.next_term == state.next_term
            &&& after.term_votes == state.term_votes
            &&& after.last_log_index == state.last_log_index
            &&& after.last_log_term == state.last_log_term
            &&& after.identity == state.identity
            &&& after.log == state.log
            &&& after.quorum_response == state.quorum_response
        }),
    decreases events.len(),
{
    if events.len() > 0 {
        lemma_persistence_keeps_position(state, events.drop_last());
    }
}

/// What a candidate hears of its peers leaves alone what an election is started from.
proof fn lemma_quorum_keeps_position(state: StateView, events: Seq<LocalQuorumResponse>)
    ensures
        ({
            let after = state.candidate_quorum_run(events).0;
            &&& after.tasks == state.tasks
            &&& after.persistence_tasks == state.persistence_tasks
            &&& after.next_message_id == state.next_message_id
            &&& after.next_term == state.next_term
            &&& after.term_votes == state.term_votes
            &&& after.last_log_index == state.last_log_index
            &&& after.last_log_term == state.last_log_term
            &&& after.identity == state.identity
            &&& after.log == state.log
        }),
    decreases events.len(),
{
    if events.len() > 0 {
        lemma_quorum_keeps_position(state, events.drop_last());
    }
}

/// A candidate that is not elected asks every peer for its vote once its timeout is
/// over, and nobody before that. A timeout that is more than an hour ahead is over,
/// too.
pub proof fn law_candidate_stands_when_its_time_has_come(
    before: StateView,
    timeout: u128,
    now: u128,
    after: StateView,
    work: u64,
)
    requires
        before.candidate_time_step(timeout, now, after, false, work),
        before.next_term < u64::MAX,
        before.next_message_id < u64::MAX,
        before.tasks.len() < i32::MAX,
    ensures
        timeout <= now || timeout > now + 3_600_000 ==> {
            &&& after.tasks.len() == before.tasks.len()
            &&& forall|i: int|
                0 <= i < before.tasks.len() ==> #[trigger] after.tasks[i]
                    == before.tasks[i].push(
                    TaskView::RequestVote {
                        id: before.next_message_id,
                        term: before.next_term,
                        last_term: before.last_log_term,
                        last_index: before.last_log_index,
                    },
                )
            &&& after.term_votes == before.term_votes.insert(before.next_term, before.identity)
            &&& after.next_term == before.next_term + 1
        },
        now < timeout <= now + 3_600_000 ==> {
            &&& after.tasks == before.tasks
            &&& after.term_votes == before.term_votes
            &&& after.next_term == before.next_term
            &&& after.persistence_tasks == before.persistence_tasks
        },
        after.log == before.log,
        after.last_log_index == before.last_log_index,
        after.last_log_term == before.last_log_term,
{
    let (persisted, first_winner) = before.candidate_after_persistence();
    let (counted, second_winner) = persisted.candidate_after_quorum();
    lemma_persistence_keeps_position(
        StateView { persistence_response: Seq::empty(), ..before },
        before.persistence_response,
    );
    lemma_quorum_keeps_position(
        StateView { quorum_response: Seq::empty(), ..persisted },
        persisted.quorum_response,
    );
    let sent = choose|sent: bool|
        {
            let state = #[trigger] counted.election_step(timeout, now, sent);
            &&& after == (StateView { bus: after.bus, ..state })
            &&& state.bus.caught_up(state.log, state.commit_index, after.bus)
        };
    law_election_asks_every_peer(counted, sent);
}

/// A candidate that starts an election notes its term, and when it starts another
/// one. Otherwise it stays as it is.
pub proof fn law_started_election_is_noted(
    delegate: RaftCandidateStateDelegate,
    before: StateView,
    now: u128,
    retry_at: u128,
)
    ensures
        ({
            let timeout = delegate.initiate_election_timeout;
            let after = delegate.stepped(before, now, retry_at, false);
            &&& timeout <= now || timeout > now + 3_600_000 ==> {
                &&& after.initiate_election_timeout == retry_at
                &&& after.ongoing_election matches Some(election) && election.term
                    == before.next_term && election.started_millis == now
            }
            &&& now < timeout <= now + 3_600_000 ==> after == delegate
            &&& delegate.stepped(before, now, retry_at, true) == delegate
        }),
{
    let (persisted, _) = before.candidate_after_persistence();
    lemma_persistence_keeps_position(
        StateView { persistence_response: Seq::empty(), ..before },
        before.persistence_response,
    );
    lemma_quorum_keeps_position(
        StateView { quorum_response: Seq::empty(), ..persisted },
        persisted.quorum_response,
    );
}

/// A follower whose timer has run out stands for election at once, and only then.
/// A timer that is set at some time runs out when it should, and not before.
pub proof fn law_followers_stand_when_their_timer_runs_out(
    timer: ElectionTimer,
    set_at: u128,
    timeout_ms: u64,
    now: u128,
)
    requires
        set_at + timeout_ms <= u128::MAX,
    ensures
        ({
            let change = timer.set(set_at, timeout_ms).change_at(now);
            &&& now > set_at + timeout_ms ==> (change matches RaftMessageStateChange::Candidate(
                candidate,
            ) && candidate.ongoing_election is None && candidate::election_due(
                candidate.initiate_election_timeout,
                now,
            ))
            &&& now <= set_at + timeout_ms ==> change is Unchanged
            &&& timer.set(set_at, timeout_ms).election_timeout_min == timer.election_timeout_min
            &&& timer.set(set_at, timeout_ms).election_timeout_max == timer.election_timeout_max
        }),
{
}

/// A leader or a candidate gives its vote to a candidate of a later term whose log
/// is not shorter than its own, unless it has voted in that term, and to nobody
/// else. The vote goes to the disk, under the number under which the candidate is
/// answered; a candidate that gets no vote is told at once.
pub proof fn law_vote_is_given_if_it_may_be(
    before: StateView,
    request: LocalRequestVoteRequest,
    callback: Callback,
    sent: bool,
)
    requires
        request.term < u64::MAX,
        before.next_message_id < u64::MAX,
    ensures
        ({
            let after = before.voting(request, callback, sent);
            let id = before.next_message_id;
            let may = request.term > before.current_term && request.last_log_index
                >= before.last_log_index && !before.term_votes.contains_key(request.term);
            &&& may ==> after.persistence_tasks == before.persistence_tasks.push(
                (
                    PersistenceTaskView::AppendVote {
                        id,
                        term: request.term,
                        candidate_id: request.candidate_id,
                    },
                    sent,
                ),
            )
            &&& may && sent ==> {
                &&& after.term_votes == before.term_votes.insert(request.term, request.candidate_id)
                &&& after.outstanding.contains_key(id)
                &&& after.outstanding[id].id == id
                &&& after.outstanding[id].outstanding_responses == 1
                &&& after.outstanding[id].message_type == (OutstandingMessageType::RequestVote {
                    callback,
                })
                &&& after.responses == before.responses
                &&& after.next_message_id == id + 1
            }
            &&& !may ==> after.persistence_tasks == before.persistence_tasks
            &&& !(may && sent) ==> {
                &&& after.term_votes == before.term_votes
                &&& after.outstanding == before.outstanding
                &&& after.responses == before.responses.push(
                    (callback, ResponseView::RequestVote(false)),
                )
            }
            &&& after.next_term == if before.next_term <= request.term {
                request.term + 1
            } else {
                before.next_term as int
            }
            &&& after.current_term == before.current_term
            &&& after.leader_id == before.leader_id
            &&& after.log == before.log
            &&& after.tasks == before.tasks
            &&& after.commit_index == before.commit_index
        }),
        before.votes_as(
            RaftNodeType::Leader,
            request,
            callback,
            before.voting(request, callback, sent),
        ),
        before.votes_as(
            RaftNodeType::Candidate,
            request,
            callback,
            before.voting(request, callback, sent),
        ),
{
}

/// A follower answers a candidate that may not have its vote at once, with a
/// refusal, and waits with the answer to one that may.
pub proof fn law_follower_refuses_who_may_not_have_its_vote(
    before: StateView,
    request: LocalRequestVoteRequest,
    callback: Callback,
    after: StateView,
)
    requires
        before.votes_as(RaftNodeType::Follower, request, callback, after),
        request.term < u64::MAX,
        before.next_message_id < u64::MAX,
    ensures
        ({
            let may = request.term > before.current_term && request.last_log_index
                >= before.last_log_index && !before.term_votes.contains_key(request.term);
            let id = before.next_message_id;
            &&& may ==> {
                &&& after.outstanding.contains_key(id)
                &&& after.outstanding[id].id == id
                &&& after.outstanding[id].outstanding_responses == 1
                &&& after.outstanding[id].message_type == (OutstandingMessageType::RequestVote {
                    callback,
                })
                &&& after.responses == before.responses
                &&& after.next_message_id == id + 1
            }
            &&& !may ==> {
                &&& after.outstanding == before.outstanding
                &&& after.responses == before.responses.push(
                    (callback, ResponseView::RequestVote(false)),
                )
            }
            &&& after.next_term == if before.next_term <= request.term {
                request.term + 1
            } else {
                before.next_term as int
            }
            &&& after.current_term == before.current_term
            &&& after.leader_id == before.leader_id
            &&& after.log == before.log
            &&& after.persistence_tasks == before.persistence_tasks
        }),
{
}

/// A candidate is told that it has a vote once the vote is on the disk of the one
/// who gave it, whatever role that node has by then, and not before.
pub proof fn law_vote_is_told_when_on_disk(
    before: StateView,
    request: LocalRequestVoteRequest,
    callback: Callback,
    leading: StateView,
)
    requires
        before.accepts_vote(request.term, request.last_log_index),
        before.next_message_id < u64::MAX,
    ensures
        ({
            let voted = before.voting(request, callback, true);
            let id = before.next_message_id;
            let event = PersistenceResponseType::VotePersisted {
                id,
                term: request.term,
                candidate_id: request.candidate_id,
            };
            let told = before.responses.push((callback, ResponseView::RequestVote(true)));
            &&& voted.responses == before.responses
            &&& voted.follower_persistence_step(event).responses == told
            &&& !voted.follower_persistence_step(event).outstanding.contains_key(id)
            &&& voted.candidate_persistence_step(event).0.responses == told
            &&& !voted.candidate_persistence_step(event).1
            &&& voted.leader_persistence_step(event, leading) ==> leading.responses == told
                && !leading.outstanding.contains_key(id)
        }),
{
}

/// How many of the responses grant a vote.
pub open spec fn granted(events: Seq<LocalQuorumResponse>) -> nat
    decreases events.len(),
{
    if events.len() == 0 {
        0
    } else {
        granted(events.drop_last()) + match events.last().response_type {
            LocalQuorumTaskResponseType::RequestVoteResponse { received_vote, .. } => {
                if received_vote {
                    1nat
                } else {
                    0nat
                }
            },
            _ => 0nat,
        }
    }
}

/// Whether the responses are those of peers to one request for their vote.
pub open spec fn answer_request(events: Seq<LocalQuorumResponse>, id: u64, term: u64) -> bool {
    forall|i: int|
        0 <= i < events.len() ==> ((#[trigger] events[i]).response_type matches LocalQuorumTaskResponseType::RequestVoteResponse {
            id: answered,
            term: voted,
            ..
        } && answered == id && voted == term)
}

/// While an election is open its votes are counted one by one.
proof fn lemma_votes_are_counted(
    standing: StateView,
    id: u64,
    term: u64,
    events: Seq<LocalQuorumResponse>,
    peers: int,
)
    requires
        standing.outstanding.contains_key(id),
        standing.outstanding[id].message_type == (OutstandingMessageType::CandidateElection {
            persistence_done: true,
            quorum_votes: 1,
        }),
        standing.outstanding[id].outstanding_responses == peers,
        0 <= peers < i32::MAX,
        standing.quorum_size > 1,
        events.len() <= peers,
        answer_request(events, id, term),
    ensures
        ({
            let (after, winner) = standing.candidate_quorum_run(events);
            &&& after.quorum_size == standing.quorum_size
            &&& after.identity == standing.identity
            &&& granted(events) <= events.len()
            &&& winner is Some <==> 1 + granted(events) >= standing.quorum_size
            &&& winner is Some ==> after.leader_id == standing.identity && after.current_term == term
                && !after.outstanding.contains_key(id)
            &&& winner is None ==> {
                &&& after.leader_id == standing.leader_id
                &&& after.current_term == standing.current_term
                &&& events.len() < peers ==> {
                    &&& after.outstanding.contains_key(id)
                    &&& after.outstanding[id].outstanding_responses == peers - events.len()
                    &&& after.outstanding[id].message_type == (
                    OutstandingMessageType::CandidateElection {
                        persistence_done: true,
                        quorum_votes: (1 + granted(events)) as u32,
                    })
                }
            }
        }),
    decreases events.len(),
{
    if events.len() > 0 {
        let fewer = events.drop_last();
        assert forall|i: int| 0 <= i < fewer.len() implies ((
        #[trigger] fewer[i]).response_type matches LocalQuorumTaskResponseType::RequestVoteResponse {
            id: answered,
            term: voted,
            ..
        } && answered == id && voted == term) by {
            assert(events[i] == fewer[i]);
        }
        lemma_votes_are_counted(standing, id, term, fewer, peers);
        assert(events[events.len() - 1] == events.last());
    }
}

/// A candidate whose vote for itself is on disk wins its election if, and only if,
/// a quorum votes for it, itself among them. It then leads the term that it has
/// asked for.
pub proof fn law_quorum_of_votes_elects(
    before: StateView,
    events: Seq<LocalQuorumResponse>,
)
    requires
        before.next_term < u64::MAX,
        before.next_message_id < u64::MAX,
        before.tasks.len() < i32::MAX - 1,
        before.quorum_size > 1,
        events.len() <= before.tasks.len(),
        answer_request(events, before.next_message_id, before.next_term),
    ensures
        ({
            let (standing, early) = before.electing(true).candidate_persistence_step(
                PersistenceResponseType::VotePersisted {
                    id: before.next_message_id,
                    term: before.next_term,
                    candidate_id: before.identity,
                },
            );
            let (after, winner) = standing.candidate_quorum_run(events);
            &&& !early
            &&& winner is Some <==> 1 + granted(events) >= before.quorum_size
            &&& winner is Some ==> after.leader_id == before.identity && after.current_term
                == before.next_term
            &&& winner is None ==> after.leader_id == before.leader_id && after.current_term
                == before.current_term
        }),
{
    law_election_asks_every_peer(before, true);
    let (standing, _) = before.electing(true).candidate_persistence_step(
        PersistenceResponseType::VotePersisted {
            id: before.next_message_id,
            term: before.next_term,
            candidate_id: before.identity,
        },
    );
    lemma_votes_are_counted(
        standing,
        before.next_message_id,
        before.next_term,
        events,
        before.tasks.len() as int,
    );
}

/// The votes may come before the disk has that of the candidate: they are
/// remembered, and the report of the disk then decides.
pub proof fn law_early_votes_are_remembered(
    before: StateView,
    id: u64,
    term: u64,
    voter: u32,
    votes: u32,
    persisted: bool,
    granted: bool,
)
    requires
        before.outstanding.contains_key(id),
        before.outstanding[id].message_type == (OutstandingMessageType::CandidateElection {
            persistence_done: persisted,
            quorum_votes: votes,
        }),
        before.outstanding[id].outstanding_responses > 1,
        votes < u32::MAX,
    ensures
        ({
            let counted = if granted {
                votes + 1
            } else {
                votes as int
            };
            let (heard, won) = before.candidate_quorum_step(
                LocalQuorumResponse {
                    response_type: LocalQuorumTaskResponseType::RequestVoteResponse {
                        id,
                        term,
                        received_vote: granted,
                    },
                },
            );
            let (stored, elected) = before.candidate_persistence_step(
                PersistenceResponseType::VotePersisted { id, term, candidate_id: voter },
            );
            &&& won == (persisted && counted >= before.quorum_size)
            &&& !won ==> {
                &&& heard.outstanding.contains_key(id)
                &&& heard.outstanding[id].message_type == (
                OutstandingMessageType::CandidateElection {
                    persistence_done: persisted,
                    quorum_votes: counted as u32,
                })
            }
            &&& elected == (votes >= before.quorum_size)
            &&& elected ==> stored.leader_id == before.identity && stored.current_term == term
            &&& !elected ==> {
                &&& stored.outstanding.contains_key(id)
                &&& stored.outstanding[id].message_type == (
                OutstandingMessageType::CandidateElection {
                    persistence_done: true,
                    quorum_votes: votes,
                })
            }
        }),
{
}

/// A message of a leader that is followed gives a follower a new timeout, and one who
/// begins to follow a new timer. No other message touches the role or the timer.
pub proof fn law_leader_keeps_followers_from_standing(
    before: StateDelegate,
    state: StateView,
    message: LocalRaftMessage,
    after: StateDelegate,
)
    requires
        before.hears(state, message, after),
    ensures
        !(message.payload is AppendEntries) ==> after == before,
        message.payload is AppendEntries ==> (before matches StateDelegate::Follower(follower) ==> (
        after matches StateDelegate::Follower(later) && {
            &&& later.election_timer.election_timeout_min
                == follower.election_timer.election_timeout_min
            &&& later.election_timer.election_timeout_max
                == follower.election_timer.election_timeout_max
            &&& later.election_timer.election_timeout >= follower.election_timer.election_timeout_min
        })),
        message.payload matches LocalRaftMessagePayload::AppendEntries(request) ==> {
            &&& before is Candidate && request.term >= state.current_term ==> (
            after matches StateDelegate::Follower(later)
                && later.election_timer.election_timeout_min == 600
                && later.election_timer.election_timeout_max == 1300)
            &&& before is Candidate && request.term < state.current_term ==> after == before
            &&& before is Leader && request.term > state.current_term ==> (
            after matches StateDelegate::Follower(later)
                && later.election_timer.election_timeout_min == 600
                && later.election_timer.election_timeout_max == 1300)
            &&& before is Leader && request.term <= state.current_term ==> after == before
        },
{
}

} // verus!
