//! What can be relied on of the answers to reads.

use crate::query::worker::{self, QueryView, ReaderView};
use crate::raft::broadcast;
use crate::raft::log_laws;
use crate::raft::raft_sm::CommitState;
use crate::raft::shared_state::StateView;
use crate::service_utils::storage_utils::{EntryView, PutRequestView};
use vstd::prelude::*;

verus! {

/// The last write of a key is what a store holds of it; a key that is not
/// written keeps what it had.
pub proof fn law_last_write_is_stored(
    store: Map<Seq<char>, Seq<char>>,
    requests: Seq<PutRequestView>,
    key: Seq<char>,
)
    ensures
        (forall|i: int| 0 <= i < requests.len() ==> (#[trigger] requests[i]).id != key) ==> {
            &&& worker::written(store, requests).contains_key(key) == store.contains_key(key)
            &&& worker::written(store, requests)[key] == store[key]
        },
        forall|last: int|
            0 <= last < requests.len() && (#[trigger] requests[last]).id == key && (forall|i: int|
                last < i < requests.len() ==> (#[trigger] requests[i]).id != key) ==> {
                &&& worker::written(store, requests).contains_key(key)
                &&& worker::written(store, requests)[key] == requests[last].payload
            },
    decreases requests.len(),
{
    if requests.len() > 0 {
        let fewer = requests.drop_last();
        law_last_write_is_stored(store, fewer, key);
        if forall|i: int| 0 <= i < requests.len() ==> (#[trigger] requests[i]).id != key {
            assert forall|i: int| 0 <= i < fewer.len() implies (#[trigger] fewer[i]).id != key by {
                assert(requests[i].id != key);
            }
            assert(requests[requests.len() - 1].id != key);
        }
        assert forall|last: int|
            0 <= last < requests.len() && (#[trigger] requests[last]).id == key && (forall|i: int|
                last < i < requests.len() ==> (#[trigger] requests[i]).id != key) implies {
            &&& worker::written(store, requests).contains_key(key)
            &&& worker::written(store, requests)[key] == requests[last].payload
        } by {
            if last < requests.len() - 1 {
                assert(fewer[last].id == key);
                assert forall|i: int| last < i < fewer.len() implies (#[trigger] fewer[i]).id
                    != key by {
                    assert(requests[i].id != key);
                }
                assert(requests[requests.len() - 1].id != key);
            }
        }
    }
}

/// How the entries of the log are split over several turns does not matter.
pub proof fn law_turns_add_up(
    reader: ReaderView,
    first: Seq<EntryView>,
    second: Seq<EntryView>,
    commit_index: u64,
)
    ensures
        reader.taking_all(first + second, commit_index) == reader.taking_all(
            first,
            commit_index,
        ).taking_all(second, commit_index),
    decreases second.len(),
{
    if second.len() == 0 {
        assert(first + second =~= first);
    } else {
        law_turns_add_up(reader, first, second.drop_last(), commit_index);
        assert((first + second).drop_last() =~= first + second.drop_last());
        assert((first + second).last() == second.last());
    }
}

/// Entries that are not committed do not reach the store.
pub proof fn law_only_committed_entries_are_read(
    reader: ReaderView,
    entries: Seq<EntryView>,
    commit_index: u64,
)
    requires
        forall|i: int| 0 <= i < entries.len() ==> worker::must_wait(#[trigger] entries[i], commit_index),
    ensures
        reader.taking_all(entries, commit_index).store == reader.store,
        reader.taking_all(entries, commit_index).applied_index == reader.applied_index,
    decreases entries.len(),
{
    if entries.len() > 0 {
        let fewer = entries.drop_last();
        assert forall|i: int| 0 <= i < fewer.len() implies worker::must_wait(
            #[trigger] fewer[i],
            commit_index,
        ) by {
            assert(worker::must_wait(entries[i], commit_index));
        }
        law_only_committed_entries_are_read(reader, fewer, commit_index);
        assert(worker::must_wait(entries[entries.len() - 1], commit_index));
    }
}

/// An entry that was kept back is applied, as it was received, once it is committed.
pub proof fn law_kept_entry_is_applied_later(
    reader: ReaderView,
    entry: EntryView,
    early: u64,
    later: u64,
)
    requires
        worker::must_wait(entry, early),
        entry.index <= later,
    ensures
        reader.taking(entry, early).unparked(later) == (ReaderView {
            store: worker::written(reader.store, entry.requests),
            applied_index: entry.index,
            parked: None,
            ..reader
        }),
{
}

/// A read is answered only once the log has been applied up to the index that
/// it asks for. Reads are answered in the order in which they came, each with
/// what the store holds, and none is lost: those that are not answered wait.
pub proof fn law_reads_wait_for_their_index(reader: ReaderView)
    requires
        reader.parked_request is None,
    ensures
        reader.served().replies.len() >= reader.replies.len(),
        ({
            let count = reader.served().replies.len() - reader.replies.len();
            let waiting = match reader.served().parked_request {
                Some(query) => seq![query] + reader.served().pending,
                None => reader.served().pending,
            };
            &&& count <= reader.pending.len()
            &&& waiting == reader.pending.skip(count)
            &&& forall|i: int|
                0 <= i < count ==> {
                    &&& (#[trigger] reader.pending[i]).index <= reader.applied_index
                    &&& reader.served().replies[reader.replies.len() + i] == reader.answer(
                        reader.pending[i],
                    )
                }
            &&& waiting.len() > 0 ==> waiting[0].index > reader.applied_index
        }),
{
    let pending = reader.pending;
    worker::lemma_ready(pending, reader.applied_index);
    let count = worker::ready(pending, reader.applied_index) as int;
    if count < pending.len() {
        assert(pending.skip(count) =~= seq![pending[count]] + pending.skip(count + 1));
    } else {
        assert(pending.skip(count) =~= Seq::empty());
    }
    assert forall|i: int| 0 <= i < count implies {
        &&& (#[trigger] pending[i]).index <= reader.applied_index
        &&& reader.served().replies[reader.replies.len() + i] == reader.answer(pending[i])
    } by {
        assert(pending.take(count).map_values(|q: QueryView| reader.answer(q))[i]
            == reader.answer(pending[i]));
    }
}

/// The writes of some entries, in the order of the log.
pub open spec fn all_writes(entries: Seq<EntryView>) -> Seq<PutRequestView>
    decreases entries.len(),
{
    if entries.len() == 0 {
        Seq::empty()
    } else {
        all_writes(entries.drop_last()) + entries.last().requests
    }
}

/// Writing in two goes is writing at once.
proof fn lemma_written_in_two_goes(
    store: Map<Seq<char>, Seq<char>>,
    first: Seq<PutRequestView>,
    second: Seq<PutRequestView>,
)
    ensures
        worker::written(store, first + second) == worker::written(
            worker::written(store, first),
            second,
        ),
    decreases second.len(),
{
    if second.len() == 0 {
        assert(first + second =~= first);
    } else {
        lemma_written_in_two_goes(store, first, second.drop_last());
        assert((first + second).drop_last() =~= first + second.drop_last());
    }
}

/// Committed entries reach the store, all of their writes in the order of the log.
pub proof fn law_committed_writes_reach_the_store(
    reader: ReaderView,
    entries: Seq<EntryView>,
    commit_index: u64,
)
    requires
        forall|i: int| 0 <= i < entries.len() ==> (#[trigger] entries[i]).index <= commit_index,
    ensures
        reader.taking_all(entries, commit_index).store == worker::written(
            reader.store,
            all_writes(entries),
        ),
    decreases entries.len(),
{
    if entries.len() > 0 {
        let fewer = entries.drop_last();
        assert forall|i: int| 0 <= i < fewer.len() implies (#[trigger] fewer[i]).index
            <= commit_index by {
            assert(entries[i].index <= commit_index);
        }
        law_committed_writes_reach_the_store(reader, fewer, commit_index);
        lemma_written_in_two_goes(reader.store, all_writes(fewer), entries.last().requests);
        assert(entries[entries.len() - 1].index <= commit_index);
    }
}

/// A read gives back the last committed write of its key that the node has
/// broadcast, and nothing if there is none.
///
/// `reader` is a new reader, which then takes what the node has broadcast.
pub proof fn law_read_gives_back_the_last_write(
    node: StateView,
    reader: ReaderView,
    query: QueryView,
)
    requires
        node.readers_are_in_step(),
        node.log_is_indexed(),
        reader.store == Map::<Seq<char>, Seq<char>>::empty(),
    ensures
        ({
            let writes = all_writes(log_laws::entries_of(node.log.take(node.bus.next())));
            let read = reader.taking_all(
                log_laws::entries_of(broadcast::accepted(node.bus.offers)),
                node.commit_index,
            ).answer(query);
            &&& (forall|i: int| 0 <= i < writes.len() ==> (#[trigger] writes[i]).id != query.id)
                ==> read == (query.callback, None::<Seq<char>>)
            &&& forall|last: int|
                0 <= last < writes.len() && (#[trigger] writes[last]).id == query.id && (forall|
                    i: int,
                | last < i < writes.len() ==> (#[trigger] writes[i]).id != query.id) ==> read == (
                    query.callback,
                    Some(writes[last].payload),
                )
        }),
{
    let entries = log_laws::entries_of(node.log.take(node.bus.next()));
    assert forall|i: int| 0 <= i < entries.len() implies (#[trigger] entries[i]).index
        <= node.commit_index by {
        assert(node.log[i].index == i);
    }
    law_committed_writes_reach_the_store(reader, entries, node.commit_index);
    law_last_write_is_stored(reader.store, all_writes(entries), query.id);
}

/// The applied index never runs ahead of the entries that were applied: it is the
/// index of the last of them that has writes, and stays as it was if none has.
pub proof fn law_applied_index_is_that_of_the_last_writes(
    reader: ReaderView,
    entries: Seq<EntryView>,
    commit_index: u64,
)
    requires
        forall|i: int| 0 <= i < entries.len() ==> (#[trigger] entries[i]).index <= commit_index,
    ensures
        (forall|i: int| 0 <= i < entries.len() ==> (#[trigger] entries[i]).requests.len() == 0)
            ==> reader.taking_all(entries, commit_index).applied_index == reader.applied_index,
        forall|last: int|
            0 <= last < entries.len() && (#[trigger] entries[last]).requests.len() > 0 && (forall|
                i: int,
            | last < i < entries.len() ==> (#[trigger] entries[i]).requests.len() == 0)
                ==> reader.taking_all(entries, commit_index).applied_index == entries[last].index,
        reader.taking_all(entries, commit_index).parked == reader.parked,
        reader.taking_all(entries, commit_index).replies == reader.replies,
        reader.taking_all(entries, commit_index).pending == reader.pending,
        reader.taking_all(entries, commit_index).parked_request == reader.parked_request,
        reader.taking_all(entries, commit_index).last_version == reader.last_version,
    decreases entries.len(),
{
    if entries.len() > 0 {
        let fewer = entries.drop_last();
        let end = entries.len() - 1;
        assert forall|i: int| 0 <= i < fewer.len() implies (#[trigger] fewer[i]).index
            <= commit_index by {
            assert(entries[i].index <= commit_index);
        }
        law_applied_index_is_that_of_the_last_writes(reader, fewer, commit_index);
        assert(entries[end].index <= commit_index);
        if forall|i: int| 0 <= i < entries.len() ==> (#[trigger] entries[i]).requests.len() == 0 {
            assert forall|i: int| 0 <= i < fewer.len() implies (#[trigger] fewer[i]).requests.len()
                == 0 by {
                assert(entries[i].requests.len() == 0);
            }
            assert(entries[end].requests.len() == 0);
        }
        assert forall|last: int|
            0 <= last < entries.len() && (#[trigger] entries[last]).requests.len() > 0 && (forall|
                i: int,
            | last < i < entries.len() ==> (#[trigger] entries[i]).requests.len() == 0) implies
            reader.taking_all(entries, commit_index).applied_index == entries[last].index by {
            if last < end {
                assert(fewer[last].requests.len() > 0);
                assert forall|i: int| last < i < fewer.len() implies (
                #[trigger] fewer[i]).requests.len() == 0 by {
                    assert(entries[i].requests.len() == 0);
                }
                assert(entries[end].requests.len() == 0);
            }
        }
    }
}

/// A reader that has taken the first `count` entries of a log, all of them committed,
/// says that it has applied no entry that it has not taken: the applied index is
/// that of one of them, or what it was.
pub proof fn law_applied_index_is_within_what_was_taken(
    node: StateView,
    reader: ReaderView,
    count: int,
)
    requires
        node.log_is_indexed(),
        0 <= count <= node.log.len(),
        count <= node.commit_index + 1,
    ensures
        ({
            let after = reader.taking_all(
                log_laws::entries_of(node.log.take(count)),
                node.commit_index,
            );
            after.applied_index == reader.applied_index || after.applied_index < count
        }),
    decreases count,
{
    let entries = log_laws::entries_of(node.log.take(count));
    if count > 0 {
        let fewer = log_laws::entries_of(node.log.take(count - 1));
        assert(entries.drop_last() =~= fewer);
        law_applied_index_is_within_what_was_taken(node, reader, count - 1);
        assert(node.log[count - 1].index == count - 1);
        assert(entries.last() == node.log[count - 1]@);
    }
}

/// A read that is answered at an index sees the writes of every entry of the log up
/// to that index, and of no entry that is not committed: the answer is the last
/// write of the key among the first entries of the log, up to some point behind
/// the index and not behind the commit index.
///
/// `reader` is a new reader, which has taken the first `count` entries of the log.
pub proof fn law_read_sees_the_log_up_to_its_index(
    node: StateView,
    reader: ReaderView,
    count: int,
    query: QueryView,
)
    requires
        node.log_is_indexed(),
        0 <= count <= node.log.len(),
        count <= node.commit_index + 1,
        reader.store == Map::<Seq<char>, Seq<char>>::empty(),
        reader.applied_index == 0,
        query.index > 0,
    ensures
        ({
            let after = reader.taking_all(
                log_laws::entries_of(node.log.take(count)),
                node.commit_index,
            );
            let writes = all_writes(log_laws::entries_of(node.log.take(count)));
            query.index <= after.applied_index ==> {
                &&& query.index < count
                &&& (forall|i: int| 0 <= i < writes.len() ==> (#[trigger] writes[i]).id != query.id)
                    ==> !after.store.contains_key(query.id)
                &&& forall|last: int|
                    0 <= last < writes.len() && (#[trigger] writes[last]).id == query.id && (forall|
                        i: int,
                    | last < i < writes.len() ==> (#[trigger] writes[i]).id != query.id)
                        ==> after.store.contains_key(query.id) && after.store[query.id]
                        == writes[last].payload
            }
        }),
{
    law_applied_index_is_within_what_was_taken(node, reader, count);
    let entries = log_laws::entries_of(node.log.take(count));
    assert forall|i: int| 0 <= i < entries.len() implies (#[trigger] entries[i]).index
        <= node.commit_index by {
        assert(node.log[i].index == i);
    }
    law_committed_writes_reach_the_store(reader, entries, node.commit_index);
    law_last_write_is_stored(reader.store, all_writes(entries), query.id);
}

/// What a store holds of a key.
pub open spec fn value_of(store: Map<Seq<char>, Seq<char>>, key: Seq<char>) -> Option<Seq<char>> {
    if store.contains_key(key) {
        Some(store[key])
    } else {
        None
    }
}

/// In a step, every read that is answered is one of those that wait, asks for no
/// index beyond the one that was applied, and is answered to its own caller with
/// what the store holds of its key. Reads are answered in the order in which they
/// came, a read that has to wait holds up those behind it, and none is lost.
pub proof fn law_answers_come_in_turn(
    before: ReaderView,
    after: ReaderView,
    answered: Option<bool>,
)
    requires
        before.has_served(after, answered),
    ensures
        ({
            let asked = match before.parked_request {
                Some(query) => seq![query] + before.pending,
                None => before.pending,
            };
            let waiting = match after.parked_request {
                Some(query) => seq![query] + after.pending,
                None => after.pending,
            };
            let count = after.replies.len() - before.replies.len();
            &&& 0 <= count <= asked.len()
            &&& before.replies.is_prefix_of(after.replies)
            &&& waiting == asked.skip(count)
            &&& waiting.len() > 0 ==> waiting[0].index > before.applied_index
            &&& forall|i: int|
                0 <= i < count ==> {
                    &&& (#[trigger] asked[i]).index <= before.applied_index
                    &&& after.replies[before.replies.len() + i] == (
                        asked[i].callback,
                        value_of(before.store, asked[i].id),
                    )
                }
            &&& answered == Some(true) <==> count > 0
            &&& answered is None <==> before.parked_request is Some
                && before.parked_request->0.index > before.applied_index
        }),
        after.store == before.store,
        after.applied_index == before.applied_index,
        after.parked == before.parked,
        after.last_version == before.last_version,
        after.polls == before.polls,
{
    let asked = match before.parked_request {
        Some(query) => seq![query] + before.pending,
        None => before.pending,
    };
    if before.parked_request is Some && before.parked_request->0.index > before.applied_index {
        assert(before.replies =~= before.replies.take(before.replies.len() as int));
        assert(asked.skip(0) =~= asked);
    } else {
        let resumed = before.resumed();
        let held = asked.len() - before.pending.len();
        worker::lemma_ready(before.pending, before.applied_index);
        law_reads_wait_for_their_index(resumed);
        let served = after.replies.len() - resumed.replies.len();
        let count = after.replies.len() - before.replies.len();
        assert(count == held + served);
        assert(before.replies =~= after.replies.take(before.replies.len() as int));
        assert(asked.skip(count) =~= before.pending.skip(served));
        assert forall|i: int| 0 <= i < count implies {
            &&& (#[trigger] asked[i]).index <= before.applied_index
            &&& after.replies[before.replies.len() + i] == (
                asked[i].callback,
                value_of(before.store, asked[i].id),
            )
        } by {
            if i >= held {
                assert(asked[i] == before.pending[i - held]);
                assert(before.pending[i - held].index <= before.applied_index);
            } else {
                assert(after.replies[before.replies.len() + i] == resumed.replies[
                    before.replies.len() + i]);
            }
        }
    }
}

/// A reader looks at the bus only where it is told of something new. It notes what
/// it was told, applies an entry that it has kept back, if that is committed by
/// now, and then what the bus gives, in order.
pub proof fn law_reader_looks_when_it_is_told(
    before: ReaderView,
    commit: CommitState,
    after: ReaderView,
    applied: bool,
)
    requires
        before.has_applied(commit, after, applied),
    ensures
        commit.version == before.last_version ==> after == before && !applied,
        commit.version != before.last_version ==> {
            &&& after.last_version == commit.version
            &&& before.polls.is_prefix_of(after.polls)
            &&& before.polls.len() < after.polls.len()
        },
        after.replies == before.replies,
        after.pending == before.pending,
        after.parked_request == before.parked_request,
{
    if commit.version != before.last_version {
        let (entries, drained) = choose|entries: Seq<EntryView>, drained: bool|
            {
                &&& worker::takes(entries, drained, commit.commit_index)
                &&& after == #[trigger] before.caught_up(commit, entries, drained)
                &&& applied == (before.can_unpark(commit.commit_index) || worker::any_committed(
                    entries,
                    commit.commit_index,
                ))
            };
        assert(before.polls =~= after.polls.take(before.polls.len() as int));
        let noted = ReaderView { last_version: commit.version, ..before };
        lemma_entries_keep_reads(
            noted.unparked(commit.commit_index),
            entries,
            commit.commit_index,
        );
    }
}

/// A reader that looks at the bus takes entries until the bus has none, or until it gets
/// one that is not committed, which it keeps back; it takes nothing behind that one.
pub proof fn law_reader_stops_at_what_is_not_committed(
    before: ReaderView,
    commit: CommitState,
    after: ReaderView,
    applied: bool,
)
    requires
        before.has_applied(commit, after, applied),
        commit.version != before.last_version,
        after.polls.len() < before.polls.len() + u64::MAX,
    ensures
        forall|i: int|
            before.polls.len() <= i < after.polls.len() - 1 ==> ((
            #[trigger] after.polls[i]) matches Some(entry) && (entry.index <= commit.commit_index
                || entry.term == u64::MAX)),
        after.polls.last() matches Some(entry) ==> entry.index > commit.commit_index && entry.term
            != u64::MAX && after.parked == Some(entry),
{
    let (entries, drained) = choose|entries: Seq<EntryView>, drained: bool|
        {
            &&& worker::takes(entries, drained, commit.commit_index)
            &&& after == #[trigger] before.caught_up(commit, entries, drained)
            &&& applied == (before.can_unpark(commit.commit_index) || worker::any_committed(
                entries,
                commit.commit_index,
            ))
        };
    assert forall|i: int| before.polls.len() <= i < after.polls.len() - 1 implies ((
    #[trigger] after.polls[i]) matches Some(entry) && (entry.index <= commit.commit_index
        || entry.term == u64::MAX)) by {
        let j = i - before.polls.len();
        assert(!worker::must_wait(entries[j], commit.commit_index));
    }
}

/// Entries leave the reads alone.
proof fn lemma_entries_keep_reads(reader: ReaderView, entries: Seq<EntryView>, commit_index: u64)
    ensures
        ({
            let after = reader.taking_all(entries, commit_index);
            &&& after.replies == reader.replies
            &&& after.pending == reader.pending
            &&& after.parked_request == reader.parked_request
            &&& after.last_version == reader.last_version
            &&& after.polls == reader.polls
        }),
    decreases entries.len(),
{
    if entries.len() > 0 {
        lemma_entries_keep_reads(reader, entries.drop_last(), commit_index);
    }
}

/// An entry is applied when it is committed, kept back for later when it is not, and
/// empties the store if it says that the log was truncated.
pub proof fn law_entries_wait_for_their_commit(
    reader: ReaderView,
    entry: EntryView,
    commit_index: u64,
)
    ensures
        ({
            let after = reader.taking(entry, commit_index);
            &&& entry.index <= commit_index ==> {
                &&& after.parked == reader.parked
                &&& after.applied_index == if entry.requests.len() > 0 {
                    entry.index
                } else {
                    reader.applied_index
                }
            }
            &&& entry.index > commit_index && entry.term != u64::MAX ==> {
                &&& after.parked == Some(entry)
                &&& after.store == reader.store
                &&& after.applied_index == reader.applied_index
            }
            &&& entry.index > commit_index && entry.term == u64::MAX ==> {
                &&& after.store == Map::<Seq<char>, Seq<char>>::empty()
                &&& after.applied_index == 0
                &&& after.parked == reader.parked
            }
            &&& worker::must_wait(entry, commit_index) <==> entry.index > commit_index && entry.term
                != u64::MAX
        }),
        reader.parked matches Some(kept) ==> {
            let after = reader.unparked(commit_index);
            &&& kept.index > commit_index ==> after == reader
            &&& kept.index <= commit_index ==> after.parked is None && after.applied_index
                == kept.index && after.store == worker::written(reader.store, kept.requests)
        },
        reader.parked is None ==> reader.unparked(commit_index) == reader,
{
}

} // verus!
