//! What can be relied on of a node that gets the requests of a leader.

use crate::persistence::worker::{PersistenceResponseType, PersistenceTaskView};
use crate::quorum::types::{LocalQuorumResponse, LocalQuorumTaskResponseType, TaskView};
use crate::raft::raft_sm::{
    Callback, LocalAppendEntries, LocalAppendEntriesCallbackResponse, LogEntry,
    OutstandingMessageType, RaftNodeType, ResponseView,
};
use crate::raft::shared_state::StateView;
use crate::service_utils::storage_utils::{self, EntryView, SerializationData};
use std::sync::Arc;
use vstd::prelude::*;

verus! {

/// Whether the node has the leader that sends the request for its own, or would
/// take it for a new one.
pub open spec fn hears_leader(node: StateView, request: LocalAppendEntries) -> bool {
    request.term > node.current_term || request.leader_id == node.leader_id
}

/// A request that does not follow on the last entry of a follower, by its index
/// and by its term, is refused: the log, its end and the disk stay as they are,
/// and a leader that is heard is told where the log ends.
pub proof fn law_entries_that_do_not_follow_are_refused(
    before: StateView,
    request: LocalAppendEntries,
    callback: Callback,
    after: StateView,
)
    requires
        before.follower_appends(request, callback, after),
        request.prev_index != before.last_log_index || request.prev_term != before.last_log_term,
    ensures
        after.log == before.log,
        after.last_log_index == before.last_log_index,
        after.last_log_term == before.last_log_term,
        after.term_starts == before.term_starts,
        after.persistence_tasks == before.persistence_tasks,
        after.outstanding == before.outstanding,
        after.commit_index == before.commit_index,
        after.published_commit_index == before.published_commit_index,
        after.bus == before.bus,
        after.responses.len() == before.responses.len() + 1,
        after.responses.drop_last() == before.responses,
        after.responses.last().0 == callback,
        hears_leader(before, request) ==> after.responses.last().1 == ResponseView::AppendEntries(
            LocalAppendEntriesCallbackResponse::WantedPreviousEntry {
                last_term: before.last_log_term,
                last_index: before.last_log_index,
            },
        ),
{
    assert(after.responses.drop_last() =~= before.responses);
}

/// If the log of a follower grows by a request, the request follows on the last
/// entry that the follower had, by its index and by its term. The log grows by
/// the entry that the request brings, which is given to the disk as it came, and
/// the leader is answered later, under the same number.
pub proof fn law_log_grows_only_behind_its_last_entry(
    before: StateView,
    request: LocalAppendEntries,
    callback: Callback,
    after: StateView,
)
    requires
        before.follower_appends(request, callback, after),
        after.log != before.log,
    ensures
        hears_leader(before, request),
        request.prev_index == before.last_log_index,
        request.prev_term == before.last_log_term,
        after.log.len() == before.log.len() + 1,
        after.log.drop_last() == before.log,
        request.entry matches Some(wire) && {
            &&& storage_utils::parsed_entry(wire.data@, 0) matches Some((_, view)) && view
                == after.log.last()@
            &&& after.last_log_index == wire.index
            &&& after.last_log_term == wire.term
            &&& after.persistence_tasks.len() == before.persistence_tasks.len() + 1
            &&& after.persistence_tasks.drop_last() == before.persistence_tasks
            &&& after.persistence_tasks.last().1
            &&& after.persistence_tasks.last().0 matches PersistenceTaskView::AppendLog {
                id,
                data,
                request_id,
            } && {
                &&& data == wire.data@
                &&& request_id == request.request_id
                &&& id == before.next_message_id
                &&& after.next_message_id == (id + 1) as u64
                &&& after.outstanding.contains_key(id)
                &&& after.outstanding[id].id == id
                &&& after.outstanding[id].outstanding_responses == 1
                &&& after.outstanding[id].message_type == (OutstandingMessageType::AppendLog {
                    callback,
                })
                &&& forall|other: u64|
                    other != id && before.outstanding.contains_key(other) ==> #[trigger]
                        after.outstanding.contains_key(other) && after.outstanding[other]
                        == before.outstanding[other]
            }
        },
        after.responses == before.responses,
{
    let from = if request.term > before.current_term {
        before.recognising(request.term, request.leader_id)
    } else {
        before
    };
    assert(from.applies(request, callback, after));
    let wire = request.entry->0;
    let (value, sent) = choose|value: Arc<SerializationData>, sent: bool|
        value@ == request.decoded()->0 && #[trigger] from.accepts_entry(
            request,
            callback,
            wire,
            value,
            sent,
            after,
        );
    assert(sent);
    assert(after.log =~= before.log.push(value));
    assert(after.log.drop_last() =~= before.log);
    assert(after.persistence_tasks.drop_last() =~= before.persistence_tasks);
}

/// An entry that follows on the last one of a follower, and that can be read, is
/// taken from a leader that is heard, unless it comes as a heartbeat. It is lost
/// only to a disk that does not take it, and then the leader is told at once.
pub proof fn law_entry_that_follows_is_taken(
    before: StateView,
    request: LocalAppendEntries,
    callback: Callback,
    after: StateView,
    wire: LogEntry,
)
    requires
        before.follower_appends(request, callback, after),
        hears_leader(before, request),
        request.term > before.current_term || request.request_id != 0,
        request.prev_index == before.last_log_index,
        request.prev_term == before.last_log_term,
        request.entry == Some(wire),
        storage_utils::parsed_entry(wire.data@, 0) is Some,
    ensures
        after.persistence_tasks.len() == before.persistence_tasks.len() + 1,
        after.persistence_tasks.drop_last() == before.persistence_tasks,
        after.persistence_tasks.last().1 ==> {
            &&& after.log.len() == before.log.len() + 1
            &&& after.log.drop_last() == before.log
            &&& storage_utils::parsed_entry(wire.data@, 0) matches Some((_, view)) && view
                == after.log.last()@
            &&& after.last_log_index == wire.index
            &&& after.last_log_term == wire.term
            &&& wire.term != wire.prev_log_term ==> after.term_starts == before.term_starts.insert(
                wire.term,
                before.log.len() as u64,
            )
            &&& wire.term == wire.prev_log_term ==> after.term_starts == before.term_starts
            &&& after.commit_index == if request.commit_index > before.commit_index {
                request.commit_index
            } else {
                before.commit_index
            }
            &&& after.responses == before.responses
        },
        !after.persistence_tasks.last().1 ==> {
            &&& after.log == before.log
            &&& after.commit_index == before.commit_index
            &&& after.responses.len() == before.responses.len() + 1
            &&& after.responses.last().0 == callback
            &&& after.responses.last().1 matches ResponseView::AppendEntries(
                LocalAppendEntriesCallbackResponse::WantedPreviousEntry { .. },
            )
        },
{
    let from = if request.term > before.current_term {
        before.recognising(request.term, request.leader_id)
    } else {
        before
    };
    assert(from.applies(request, callback, after));
    let (value, sent) = choose|value: Arc<SerializationData>, sent: bool|
        value@ == request.decoded()->0 && #[trigger] from.accepts_entry(
            request,
            callback,
            wire,
            value,
            sent,
            after,
        );
    if sent {
        assert(after.log =~= before.log.push(value));
        assert(after.log.drop_last() =~= before.log);
    }
    assert(after.persistence_tasks.drop_last() =~= before.persistence_tasks);
}

/// An entry that cannot be read leaves the log of a follower as it is.
pub proof fn law_unreadable_entry_is_refused(
    before: StateView,
    request: LocalAppendEntries,
    callback: Callback,
    after: StateView,
    wire: LogEntry,
)
    requires
        before.follower_appends(request, callback, after),
        request.entry == Some(wire),
        storage_utils::parsed_entry(wire.data@, 0) is None,
        hears_leader(before, request),
        request.term > before.current_term || request.request_id != 0,
    ensures
        after.log == before.log,
        after.last_log_index == before.last_log_index,
        after.last_log_term == before.last_log_term,
        after.persistence_tasks == before.persistence_tasks,
        after.outstanding == before.outstanding,
        request.prev_index == before.last_log_index && request.prev_term == before.last_log_term
            ==> after.next_message_id == (before.next_message_id + 1) as u64,
        after.commit_index == before.commit_index,
        after.responses == before.responses.push(
            (
                callback,
                ResponseView::AppendEntries(
                    LocalAppendEntriesCallbackResponse::WantedPreviousEntry {
                        last_term: before.last_log_term,
                        last_index: before.last_log_index,
                    },
                ),
            ),
        ),
{
}

/// Whatever a leader sends, the log of a follower stays indexed, as long as an
/// entry says of itself what its request says, comes one behind what it follows,
/// and is taken by the disk. It is not assumed that the request follows on the log.
pub proof fn law_any_append_keeps_log_indexed(
    before: StateView,
    request: LocalAppendEntries,
    callback: Callback,
    after: StateView,
)
    requires
        before.log_is_indexed(),
        before.follower_appends(request, callback, after),
        request.entry matches Some(wire) ==> (storage_utils::parsed_entry(wire.data@, 0) matches Some(
            (_, view),
        ) ==> {
            &&& view.index == wire.index
            &&& view.term == wire.term
            &&& view.prev_index == request.prev_index
            &&& view.prev_term == request.prev_term
            &&& if before.log.len() == 0 {
                view.index == 0
            } else {
                view.index == view.prev_index + 1
            }
        }),
        after.persistence_tasks == before.persistence_tasks || after.persistence_tasks.last().1,
    ensures
        after.log_is_indexed(),
{
    if after.log != before.log {
        law_log_grows_only_behind_its_last_entry(before, request, callback, after);
        let last = after.log.last();
        assert(after.log =~= before.log.push(last));
        assert(last@.index == last.index);
        assert(last@.prev_index == last.prev_index && last@.prev_term == last.prev_term);
        assert(last@.term == last.term);
        assert(after.last_log_index == last.index);
        assert(after.last_log_term == last.term);
        assert forall|i: int| 0 <= i < after.log.len() implies (#[trigger] after.log[i]).index
            == i by {
            if i < before.log.len() {
                assert(after.log[i] == before.log[i]);
            }
        }
        assert forall|i: int| 1 <= i < after.log.len() implies (#[trigger] after.log[i]).prev_index
            == i - 1 && after.log[i].prev_term == after.log[i - 1].term by {
            if i < before.log.len() {
                assert(after.log[i] == before.log[i]);
                assert(after.log[i - 1] == before.log[i - 1]);
            } else {
                assert(after.log[i - 1] == before.log.last());
            }
        }
    } else {
        let from = if request.term > before.current_term {
            before.recognising(request.term, request.leader_id)
        } else {
            before
        };
        if from.applies(request, callback, after) && request.decoded() is Some {
            let (value, sent) = choose|value: Arc<SerializationData>, sent: bool|
                value@ == request.decoded()->0 && #[trigger] from.accepts_entry(
                    request,
                    callback,
                    request.entry->0,
                    value,
                    sent,
                    after,
                );
            assert(after.persistence_tasks.len() == before.persistence_tasks.len() + 1);
            assert(after.log.len() == before.log.len() + 1);
        }
    }
}

/// A follower takes the term and the leader of a request only where the term is a
/// later one. A request of the same or an earlier term that does not come from
/// its leader changes nothing, and is answered as such.
pub proof fn law_follower_heeds_its_leader(
    before: StateView,
    request: LocalAppendEntries,
    callback: Callback,
    after: StateView,
)
    requires
        before.follower_appends(request, callback, after),
        request.term < u64::MAX,
    ensures
        request.term > before.current_term ==> {
            &&& after.current_term == request.term
            &&& after.leader_id == request.leader_id
            &&& after.next_term == request.term + 1
        },
        request.term <= before.current_term ==> {
            &&& after.current_term == before.current_term
            &&& after.leader_id == before.leader_id
            &&& after.next_term == before.next_term
        },
        !hears_leader(before, request) ==> after == (StateView {
            responses: before.responses.push(
                (
                    callback,
                    ResponseView::AppendEntries(
                        LocalAppendEntriesCallbackResponse::UnrecognizedLeader,
                    ),
                ),
            ),
            ..before
        }),
        after.identity == before.identity,
        after.term_votes == before.term_votes,
        after.tasks == before.tasks,
        after.quorum_size == before.quorum_size,
        after.next_log_index == before.next_log_index,
{
}

/// A heartbeat of its leader that follows on the log of a follower is accepted.
/// It brings the commit index on, and nothing else.
pub proof fn law_heartbeat_brings_the_commit_index(
    before: StateView,
    request: LocalAppendEntries,
    callback: Callback,
    after: StateView,
)
    requires
        before.follower_appends(request, callback, after),
        request.term == before.current_term,
        request.leader_id == before.leader_id,
        request.request_id == 0,
        request.prev_index == before.last_log_index,
        request.prev_term == before.last_log_term,
    ensures
        after.commit_index == if request.commit_index > before.commit_index {
            request.commit_index
        } else {
            before.commit_index
        },
        request.commit_index > before.commit_index ==> after.published_commit_index
            == request.commit_index,
        request.commit_index > before.commit_index && (before.bus.last_index matches Some(last)
            && request.commit_index <= last) ==> after.bus.version == if before.bus.version
            == u64::MAX {
            0
        } else {
            before.bus.version + 1
        },
        request.commit_index <= before.commit_index ==> after.bus == before.bus,
        after.log == before.log,
        after.persistence_tasks == before.persistence_tasks,
        after.outstanding == before.outstanding,
        after.responses == before.responses.push(
            (
                callback,
                ResponseView::AppendEntries(LocalAppendEntriesCallbackResponse::Accepted),
            ),
        ),
{
}

/// The first request of a new leader that brings no entry is accepted if it
/// follows on the log of a follower, and leaves the log as it is.
pub proof fn law_new_leader_is_accepted(
    before: StateView,
    request: LocalAppendEntries,
    callback: Callback,
    after: StateView,
)
    requires
        before.follower_appends(request, callback, after),
        request.term > before.current_term,
        request.entry is None,
        request.prev_index == before.last_log_index,
        request.prev_term == before.last_log_term,
    ensures
        after.log == before.log,
        after.persistence_tasks == before.persistence_tasks,
        after.outstanding == before.outstanding,
        after.commit_index == before.commit_index,
        after.responses == before.responses.push(
            (
                callback,
                ResponseView::AppendEntries(LocalAppendEntriesCallbackResponse::Accepted),
            ),
        ),
{
}

/// A leader is told that an entry was accepted when, and only when, the entry is on
/// the disk of the follower that took it: the report of the disk under the number
/// of the entry is answered to the one who brought it, whether the follower stands
/// for election meanwhile or not.
pub proof fn law_entry_is_acknowledged_when_on_disk(
    before: StateView,
    request: LocalAppendEntries,
    callback: Callback,
    after: StateView,
    id: u64,
    data: Seq<u8>,
    request_id: u64,
)
    requires
        before.follower_appends(request, callback, after),
        after.log != before.log,
        after.persistence_tasks.last().0 == (PersistenceTaskView::AppendLog {
            id,
            data,
            request_id,
        }),
    ensures
        after.responses == before.responses,
        ({
            let told = after.follower_persistence_step(PersistenceResponseType::LogPersisted { id });
            let (stood, won) = after.candidate_persistence_step(
                PersistenceResponseType::LogPersisted { id },
            );
            let accepted = before.responses.push(
                (
                    callback,
                    ResponseView::AppendEntries(LocalAppendEntriesCallbackResponse::Accepted),
                ),
            );
            &&& told.responses == accepted
            &&& !told.outstanding.contains_key(id)
            &&& stood.responses == accepted
            &&& !stood.outstanding.contains_key(id)
            &&& !won
        }),
        forall|other: u64|
            other != id ==> (#[trigger] after.follower_persistence_step(
                PersistenceResponseType::LogPersisted { id: other },
            )).outstanding.contains_key(id),
{
    law_log_grows_only_behind_its_last_entry(before, request, callback, after);
}

/// A report of the disk that nobody waits for changes nothing of a follower, and
/// one that somebody waits for is answered at most once.
pub proof fn law_disk_reports_are_answered_once(before: StateView, event: PersistenceResponseType)
    ensures
        ({
            let id = match event {
                PersistenceResponseType::LogPersisted { id } => id,
                PersistenceResponseType::VotePersisted { id, .. } => id,
            };
            let after = before.follower_persistence_step(event);
            &&& !before.outstanding.contains_key(id) ==> after == before
            &&& after.outstanding == before.outstanding.remove(id)
            &&& after.log == before.log
            &&& after.responses.len() <= before.responses.len() + 1
            &&& after.follower_persistence_step(event) == after
            &&& before.outstanding.contains_key(id) && event is VotePersisted ==> (
            before.outstanding[id].message_type matches OutstandingMessageType::RequestVote {
                callback,
            } ==> after.responses == before.responses.push(
                (callback, ResponseView::RequestVote(true)),
            ))
            &&& before.outstanding.contains_key(id) && event is LogPersisted ==> (
            before.outstanding[id].message_type matches OutstandingMessageType::AppendLog {
                callback,
            } ==> after.responses == before.responses.push(
                (
                    callback,
                    ResponseView::AppendEntries(LocalAppendEntriesCallbackResponse::Accepted),
                ),
            ))
        }),
{
    let id = match event {
        PersistenceResponseType::LogPersisted { id } => id,
        PersistenceResponseType::VotePersisted { id, .. } => id,
    };
    assert(!before.outstanding.contains_key(id) ==> before.outstanding.remove(id)
        =~= before.outstanding);
}

/// A candidate follows a leader whose term is not below its own, and a leader one
/// of a later term. Whoever follows takes the term and the leader of the request,
/// says whether the request follows on its log, and keeps its log as it is.
pub proof fn law_others_follow_a_later_leader(
    before: StateView,
    role: RaftNodeType,
    request: LocalAppendEntries,
    callback: Callback,
    after: StateView,
)
    requires
        role != RaftNodeType::Follower,
        before.appends_as(role, request, callback, after),
        request.term < u64::MAX,
    ensures
        ({
            let follows = if role == RaftNodeType::Candidate {
                request.term >= before.current_term
            } else {
                request.term > before.current_term
            };
            let matching = request.prev_index == before.last_log_index && request.prev_term
                == before.last_log_term;
            let answer = if !follows {
                LocalAppendEntriesCallbackResponse::UnrecognizedLeader
            } else if matching {
                LocalAppendEntriesCallbackResponse::Accepted
            } else {
                LocalAppendEntriesCallbackResponse::WantedPreviousEntry {
                    last_term: before.last_log_term,
                    last_index: before.last_log_index,
                }
            };
            &&& before.role_after_append(role, request) == if follows {
                RaftNodeType::Follower
            } else {
                role
            }
            &&& after.responses == before.responses.push(
                (callback, ResponseView::AppendEntries(answer)),
            )
            &&& follows ==> {
                &&& after.current_term == request.term
                &&& after.leader_id == request.leader_id
                &&& after.next_term == request.term + 1
            }
            &&& !follows ==> {
                &&& after.current_term == before.current_term
                &&& after.leader_id == before.leader_id
                &&& after.next_term == before.next_term
                &&& after.tasks == before.tasks
            }
            &&& after.tasks.len() == before.tasks.len()
            &&& follows && role == RaftNodeType::Leader ==> forall|i: int|
                0 <= i < before.tasks.len() ==> {
                    &&& (#[trigger] after.tasks[i]).len() == before.tasks[i].len() + 1
                    &&& after.tasks[i].drop_last() == before.tasks[i]
                    &&& after.tasks[i].last() == (TaskView::StopHeartbeats {
                        id: before.next_message_id,
                    })
                }
            &&& follows && role == RaftNodeType::Candidate ==> after.tasks == before.tasks
        }),
        before.role_after_append(RaftNodeType::Follower, request) == RaftNodeType::Follower,
        after.log == before.log,
        after.last_log_index == before.last_log_index,
        after.last_log_term == before.last_log_term,
        after.persistence_tasks == before.persistence_tasks,
        after.outstanding == before.outstanding,
        after.commit_index == before.commit_index,
        after.bus == before.bus,
        after.term_votes == before.term_votes,
{
    if role == RaftNodeType::Leader && request.term > before.current_term {
        assert forall|i: int| 0 <= i < before.tasks.len() implies {
            &&& (#[trigger] after.tasks[i]).len() == before.tasks[i].len() + 1
            &&& after.tasks[i].drop_last() == before.tasks[i]
            &&& after.tasks[i].last() == (TaskView::StopHeartbeats { id: before.next_message_id })
        } by {
            assert(after.tasks[i].drop_last() =~= before.tasks[i]);
        }
    }
}

/// A follower that is told to truncate its log keeps exactly the entries up to the
/// point that it is told, and knows the last of them. A log that does not reach
/// beyond that point stays as it is. The readers are told to look again. Other
/// responses of a worker change nothing.
pub proof fn law_truncation_keeps_the_first_entries(
    before: StateView,
    quorum_node_id: u64,
    prev_term: u64,
    prev_index: u64,
)
    requires
        before.log.len() <= u64::MAX,
    ensures
        ({
            let after = before.follower_quorum_step(
                LocalQuorumResponse {
                    response_type: LocalQuorumTaskResponseType::TruncateLog {
                        quorum_node_id,
                        prev_term,
                        prev_index,
                    },
                },
            );
            &&& prev_index + 1 < before.log.len() ==> {
                &&& after.log.len() == prev_index + 1
                &&& forall|i: int|
                    0 <= i <= prev_index ==> #[trigger] after.log[i] == before.log[i]
                &&& after.last_log_index == prev_index
                &&& after.last_log_term == prev_term
                &&& after.next_log_index == prev_index + 1
                &&& forall|term: u64| #[trigger]
                    after.term_starts.contains_key(term) <==> before.term_starts.contains_key(term)
                        && before.term_starts[term] <= prev_index
                &&& forall|term: u64| #[trigger]
                    after.term_starts.contains_key(term) ==> after.term_starts[term]
                        == before.term_starts[term]
            }
            &&& prev_index + 1 >= before.log.len() ==> {
                &&& after.log == before.log
                &&& after.last_log_index == before.last_log_index
                &&& after.last_log_term == before.last_log_term
                &&& after.next_log_index == before.next_log_index
                &&& after.term_starts == before.term_starts
            }
            &&& after.commit_index == before.commit_index
            &&& after.current_term == before.current_term
            &&& after.persistence_tasks == before.persistence_tasks
            &&& after.outstanding == before.outstanding
            &&& after.responses == before.responses
            &&& after.bus.version == if before.bus.version == u64::MAX {
                0
            } else {
                before.bus.version + 1
            }
            &&& after.bus.offers == before.bus.offers
            &&& after.bus.last_index == before.bus.last_index
            &&& after.bus.deferred == before.bus.deferred
        }),
        forall|event: LocalQuorumResponse|
            !(event.response_type is TruncateLog) ==> #[trigger] before.follower_quorum_step(event)
                == before,
{
}

} // verus!
