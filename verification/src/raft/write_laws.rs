//! What can be relied on of the writes that a leader takes: what becomes of an
//! entry on disk and on the peers, and when a client is told.

use crate::persistence::log_file;
use crate::persistence::worker::{PersistenceResponseType, PersistenceTaskView};
use crate::quorum::types::{LocalQuorumResponse, LocalQuorumTaskResponseType, TaskView};
use crate::raft::backfill_laws;
use crate::raft::broadcast;
use crate::raft::leader::outstanding;
use crate::raft::raft_sm::{
    Callback, LocalRaftWriteBatchRequest, OutstandingMessage, OutstandingMessageType, ResponseView,
};
use crate::raft::shared_state::{BusView, StateView};
use crate::service_utils::storage_utils::{self, EntryView, PutRequestView, SerializationData};
use std::sync::Arc;
use vstd::prelude::*;

verus! {

/// Whether two lists of writes have the same keys and values, in the same order.
pub open spec fn are_same_writes(first: Seq<PutRequestView>, second: Seq<PutRequestView>) -> bool {
    &&& first.len() == second.len()
    &&& forall|i: int|
        0 <= i < first.len() ==> (#[trigger] first[i]).id == second[i].id && first[i].payload
            == second[i].payload
}

/// Whether some bytes are read as an entry, from the first to the last of them.
pub open spec fn reads_as(data: Seq<u8>, entry: EntryView) -> bool {
    storage_utils::parsed_entry(data, 0) matches Some((end, read)) && {
        &&& end == data.len()
        &&& read.index == entry.index
        &&& read.term == entry.term
        &&& read.timestamp == entry.timestamp
        &&& read.prev_index == entry.prev_index
        &&& read.prev_term == entry.prev_term
        &&& read.message_id == entry.message_id
        &&& are_same_writes(read.requests, entry.requests)
    }
}

/// The bytes of an entry are read as that entry.
pub proof fn law_bytes_are_read_as_their_entry(entry: EntryView)
    requires
        entry.is_storable(),
    ensures
        reads_as(entry.encoded(), entry),
        entry.encoded().len() > 0,
{
    storage_utils::law_entry_is_read_back(Seq::empty(), entry, Seq::empty());
    assert(Seq::<u8>::empty() + entry.encoded() + Seq::<u8>::empty() =~= entry.encoded());
    if entry.encoded().len() == 0 {
        assert(storage_utils::parsed_entry(entry.encoded(), 0) is None);
    }
}

/// A batch of writes fits into an entry if there are no more than 65535 of them,
/// each of a key and a value of less than four gigabytes.
pub proof fn law_ordinary_batches_fit(requests: Seq<PutRequestView>)
    requires
        requests.len() <= 65535,
        forall|i: int|
            0 <= i < requests.len() ==> vstd::utf8::encode_utf8((#[trigger] requests[i]).id).len()
                < 0x1_0000_0000 && vstd::utf8::encode_utf8(requests[i].payload).len()
                < 0x1_0000_0000,
    ensures
        storage_utils::are_storable(requests),
{
}

/// What an entry of a leader comes to, on its way to the disk and to the peers:
/// `after` has one entry more than `before`, behind the last one, and the disk is
/// given bytes that are read as that entry.
pub open spec fn appends_on_disk(before: StateView, after: StateView) -> bool {
    &&& after.log.len() == before.log.len() + 1
    &&& after.log.drop_last() == before.log
    &&& after.persistence_tasks.len() == before.persistence_tasks.len() + 1
    &&& after.persistence_tasks.drop_last() == before.persistence_tasks
    &&& after.persistence_tasks.last().0 matches PersistenceTaskView::AppendLog {
        id,
        data,
        request_id,
    } && {
        &&& reads_as(data, after.log.last()@)
        &&& request_id == id
        &&& after.log.last()@.message_id == id
        &&& before.next_message_id <= id < after.next_message_id
    }
    &&& after.term_starts == if after.log.last().term != before.last_log_term {
        before.term_starts.insert(after.log.last().term, before.log.len() as u64)
    } else {
        before.term_starts
    }
}

/// A batch of writes becomes one entry of the log of the leader, with these writes
/// in this order, of the term of the leader, behind its last entry. The disk is
/// given the bytes of the entry, and every peer is sent the entry, under the
/// number under which the leader waits for them. The client is not told yet,
/// unless the disk does not take the entry.
pub proof fn law_write_goes_to_disk_and_peers(
    before: StateView,
    request: LocalRaftWriteBatchRequest,
    callback: Callback,
    now: u128,
    after: StateView,
)
    requires
        before.writes_batch(request, callback, now, after),
        request.requests@.len() > 0,
        request.is_storable(),
        before.tasks.len() < i32::MAX,
        before.next_log_index < u64::MAX,
        before.next_message_id < u64::MAX,
    ensures
        appends_on_disk(before, after),
        ({
            let entry = after.log.last()@;
            &&& entry.index == before.next_log_index
            &&& entry.term == before.current_term
            &&& entry.prev_index == before.last_log_index
            &&& entry.prev_term == before.last_log_term
            &&& entry.timestamp == now as u64
            &&& entry.requests.len() == request.requests@.len()
            &&& forall|i: int|
                0 <= i < entry.requests.len() ==> {
                    &&& (#[trigger] entry.requests[i]).id == request.requests@[i].id@
                    &&& entry.requests[i].payload == request.requests@[i].payload@
                    &&& entry.requests[i].node_id == request.requests@[i].node_id
                }
        }),
        after.commit_index == before.commit_index,
        after.current_term == before.current_term,
        after.bus == before.bus,
        after.persistence_tasks.last().0 matches PersistenceTaskView::AppendLog { id, .. } && {
            &&& after.persistence_tasks.last().1 ==> {
                &&& after.responses == before.responses
                &&& after.last_log_index == before.next_log_index
                &&& after.last_log_term == before.current_term
                &&& after.next_log_index == before.next_log_index + 1
                &&& after.outstanding.contains_key(id)
                &&& after.outstanding[id].id == id
                &&& after.outstanding[id].outstanding_responses == 1 + before.tasks.len()
                &&& after.outstanding[id].message_type matches OutstandingMessageType::WriteBatch {
                    persistence_done,
                    quorum_acks,
                    callback: waiting,
                    index,
                    batch_size,
                    start_time,
                } && start_time == now && !persistence_done && quorum_acks == 0 && waiting == callback && index
                    == before.next_log_index && batch_size == request.requests@.len()
                &&& forall|other: u64|
                    other != id ==> (#[trigger] after.outstanding.contains_key(other)
                        == before.outstanding.contains_key(other))
                &&& after.tasks.len() == before.tasks.len()
                &&& forall|i: int|
                    0 <= i < before.tasks.len() ==> {
                        &&& (#[trigger] after.tasks[i]).len() == before.tasks[i].len() + 1
                        &&& after.tasks[i].drop_last() == before.tasks[i]
                        &&& after.tasks[i].last() == (TaskView::AppendEntries {
                            id,
                            entry: after.log.last(),
                            commit_index: before.commit_index,
                        })
                    }
            }
            &&& !after.persistence_tasks.last().1 ==> {
                &&& after.tasks == before.tasks
                &&& after.outstanding == before.outstanding
                &&& after.responses.len() == before.responses.len() + 1
                &&& after.responses.drop_last() == before.responses
                &&& after.responses.last().0 == callback
                &&& after.responses.last().1 matches ResponseView::WriteBatch {
                    responses,
                    err,
                } && responses.len() == 0 && err == Some("Failed to queue persistence task"@)
            }
        },
{
    let (entry, sent) = choose|entry: Arc<SerializationData>, sent: bool|
        {
            &&& entry@ == before.new_entry(
                before.next_log_index,
                before.next_message_id,
                now as u64,
                request.writes(),
            )
            &&& after == #[trigger] before.writing(
                entry,
                request.writes().len() as usize,
                callback,
                now,
                sent,
            )
        };
    law_bytes_are_read_as_their_entry(entry@);
    assert(after.log.drop_last() =~= before.log);
    assert(after.persistence_tasks.drop_last() =~= before.persistence_tasks);
    if sent {
        assert forall|i: int| 0 <= i < before.tasks.len() implies {
            &&& (#[trigger] after.tasks[i]).len() == before.tasks[i].len() + 1
            &&& after.tasks[i].drop_last() == before.tasks[i]
            &&& after.tasks[i].last() == (TaskView::AppendEntries {
                id: before.next_message_id,
                entry: after.log.last(),
                commit_index: before.commit_index,
            })
        } by {
            assert(after.tasks[i].drop_last() =~= before.tasks[i]);
        }
    } else {
        assert(after.responses.drop_last() =~= before.responses);
    }
}

/// A batch without writes changes nothing of the log, the disk and the peers; the
/// client is told.
pub proof fn law_empty_batch_is_refused(
    before: StateView,
    request: LocalRaftWriteBatchRequest,
    callback: Callback,
    now: u128,
    after: StateView,
)
    requires
        before.writes_batch(request, callback, now, after),
        request.requests@.len() == 0,
    ensures
        after.log == before.log,
        after.persistence_tasks == before.persistence_tasks,
        after.tasks == before.tasks,
        after.outstanding == before.outstanding,
        after.next_message_id == (before.next_message_id + 1) as u64,
        after.next_log_index == before.next_log_index,
        after.commit_index == before.commit_index,
        after.responses == before.responses.push(
            (
                callback,
                ResponseView::WriteBatch {
                    responses: Seq::empty(),
                    err: Some("Empty write batch request"@),
                },
            ),
        ),
{
}

/// A new leader tells every peer of its term and of the end of its log, and then
/// sends it an entry of its term without writes, whose bytes it gives to the disk.
/// It waits for the disk and for every peer under the number of that entry.
pub proof fn law_lead_goes_to_disk_and_peers(
    before: StateView,
    timestamp: u64,
    after: StateView,
)
    requires
        before.takes_lead(timestamp, after),
        before.tasks.len() < i32::MAX,
        before.log.len() < u64::MAX,
        before.next_message_id < u64::MAX - 1,
    ensures
        appends_on_disk(before, after),
        after.log.last()@.index == before.log.len(),
        after.log.last()@.term == before.current_term,
        after.log.last()@.prev_index == before.last_log_index,
        after.log.last()@.prev_term == before.last_log_term,
        after.log.last()@.requests.len() == 0,
        after.last_log_index == before.log.len(),
        after.last_log_term == before.current_term,
        after.next_log_index == before.log.len() + 1,
        after.responses == before.responses,
        after.persistence_tasks.last().0 matches PersistenceTaskView::AppendLog { id, .. } && {
            &&& after.outstanding.contains_key(id)
            &&& after.outstanding[id].outstanding_responses == 1 + before.tasks.len()
            &&& after.outstanding[id].message_type == (OutstandingMessageType::NoOp {
                persistence_done: false,
                quorum_acks: 0,
                index: before.log.len() as u64,
            })
            &&& after.tasks.len() == before.tasks.len()
            &&& forall|i: int|
                0 <= i < before.tasks.len() ==> {
                    let queue = #[trigger] after.tasks[i];
                    &&& queue.len() == before.tasks[i].len() + 2
                    &&& queue.take(before.tasks[i].len() as int) == before.tasks[i]
                    &&& queue[queue.len() - 2] == (TaskView::StartHeartbeats {
                        id: before.next_message_id,
                        term: before.current_term,
                        prev_term: before.last_log_term,
                        prev_log_index: before.last_log_index,
                        commit_index: before.commit_index,
                    })
                    &&& queue.last() == (TaskView::AppendEntries {
                        id,
                        entry: after.log.last(),
                        commit_index: before.commit_index,
                    })
                }
        },
{
    let (entry, sent) = choose|entry: Arc<SerializationData>, sent: bool|
        {
            &&& entry@ == before.new_entry(
                before.log.len() as u64,
                (before.next_message_id + 1) as u64,
                timestamp,
                Seq::<PutRequestView>::empty(),
            )
            &&& after == #[trigger] before.leading(after.bus, entry, sent)
        };
    assert(entry@.is_storable());
    law_bytes_are_read_as_their_entry(entry@);
    assert(after.log.drop_last() =~= before.log);
    assert(after.persistence_tasks.drop_last() =~= before.persistence_tasks);
    assert forall|i: int| 0 <= i < before.tasks.len() implies (#[trigger] after.tasks[i]).take(
        before.tasks[i].len() as int,
    ) == before.tasks[i] && after.tasks[i].len() == before.tasks[i].len() + 2 by {
        assert(after.tasks[i].take(before.tasks[i].len() as int) =~= before.tasks[i]);
    }
}

/// The bytes of the entries that the disk was given, one after the other.
pub open spec fn appended_data(tasks: Seq<(PersistenceTaskView, bool)>) -> Seq<Seq<u8>>
    decreases tasks.len(),
{
    if tasks.len() == 0 {
        Seq::empty()
    } else {
        match tasks.last().0 {
            PersistenceTaskView::AppendLog { data, .. } => appended_data(tasks.drop_last()).push(
                data,
            ),
            _ => appended_data(tasks.drop_last()),
        }
    }
}

/// Whether the disk was given the entries of the log from number `first` on, in
/// order and each of them once, in bytes that are read as these entries.
pub open spec fn disk_is_given_the_log(node: StateView, first: int) -> bool {
    let data = appended_data(node.persistence_tasks);
    &&& 0 <= first <= node.log.len()
    &&& data.len() == node.log.len() - first
    &&& forall|i: int| 0 <= i < data.len() ==> reads_as(#[trigger] data[i], node.log[first + i]@)
}

/// One entry more on the disk is one entry more of the log there.
proof fn lemma_disk_is_given_more(before: StateView, after: StateView, first: int)
    requires
        disk_is_given_the_log(before, first),
        appends_on_disk(before, after),
    ensures
        disk_is_given_the_log(after, first),
{
    let earlier = appended_data(before.persistence_tasks);
    let data = appended_data(after.persistence_tasks);
    assert(data.drop_last() =~= earlier);
    assert(data.len() == earlier.len() + 1);
    assert forall|i: int| 0 <= i < data.len() implies reads_as(
        #[trigger] data[i],
        after.log[first + i]@,
    ) by {
        if i < earlier.len() {
            assert(data[i] == earlier[i]);
            assert(after.log.drop_last()[first + i] == before.log[first + i]);
        }
    }
}

/// What a leader writes, and what it appends when it takes the lead, is on its way
/// to the disk as it stands in the log: a write keeps it so.
pub proof fn law_writes_give_the_log_to_the_disk(
    before: StateView,
    request: LocalRaftWriteBatchRequest,
    callback: Callback,
    now: u128,
    after: StateView,
    first: int,
)
    requires
        disk_is_given_the_log(before, first),
        before.writes_batch(request, callback, now, after),
        request.is_storable(),
        before.tasks.len() < i32::MAX,
        before.next_log_index < u64::MAX,
        before.next_message_id < u64::MAX,
    ensures
        disk_is_given_the_log(after, first),
{
    if request.requests@.len() > 0 {
        law_write_goes_to_disk_and_peers(before, request, callback, now, after);
        lemma_disk_is_given_more(before, after, first);
    } else {
        law_empty_batch_is_refused(before, request, callback, now, after);
    }
}

/// What a leader writes, and what it appends when it takes the lead, is on its way
/// to the disk as it stands in the log: a time step keeps it so.
pub proof fn law_leader_steps_give_the_log_to_the_disk(
    before: StateView,
    initialized: bool,
    timestamp: u64,
    after: StateView,
    work: u64,
    first: int,
)
    requires
        disk_is_given_the_log(before, first),
        before.leader_time_step(initialized, timestamp, after, work),
        before.tasks.len() < i32::MAX,
        before.log.len() < u64::MAX,
        before.next_message_id < u64::MAX - 1,
    ensures
        disk_is_given_the_log(after, first),
        after.log.len() == before.log.len() + (if initialized {
            0int
        } else {
            1int
        }),
{
    let (led, persisted, acknowledged) = choose|
        led: StateView,
        persisted: StateView,
        acknowledged: StateView,
    | #[trigger]
        before.leader_time_step_via(initialized, timestamp, led, persisted, acknowledged, after);
    if !initialized {
        law_lead_goes_to_disk_and_peers(before, timestamp, led);
        lemma_disk_is_given_more(before, led, first);
    }
    outstanding::law_persistence_responses_keep_log(
        StateView { persistence_response: Seq::empty(), ..led },
        before.persistence_response,
        persisted,
    );
    outstanding::law_quorum_responses_keep_log(
        StateView { quorum_response: Seq::empty(), ..persisted },
        before.quorum_response,
        acknowledged,
    );
    lemma_backfilling_keeps_the_disk(
        acknowledged,
        outstanding::backfill_requests(before.quorum_response),
    );
}

/// Answering backfill requests gives nothing to the disk.
proof fn lemma_backfilling_keeps_the_disk(state: StateView, requests: Seq<(u64, u64, u64)>)
    ensures
        state.backfilling_all(requests).log == state.log,
        state.backfilling_all(requests).persistence_tasks == state.persistence_tasks,
    decreases requests.len(),
{
    if requests.len() > 0 {
        lemma_backfilling_keeps_the_disk(state, requests.drop_last());
    }
}

/// A text is read from the middle of other bytes as it is read alone.
proof fn lemma_text_in_the_middle(before: Seq<u8>, data: Seq<u8>, rest: Seq<u8>, start: int)
    requires
        0 <= start,
        storage_utils::parsed_text(data, start) is Some,
    ensures
        storage_utils::parsed_text(data, start) matches Some((end, text)) && {
            &&& start <= end <= data.len()
            &&& storage_utils::parsed_text(before + data + rest, before.len() + start) == Some(
                (before.len() + end, text),
            )
        },
{
    let all = before + data + rest;
    let at = before.len() + start;
    assert(all.subrange(at, at + 4) =~= data.subrange(start, start + 4));
    if let Some((end, text)) = storage_utils::parsed_text(data, start) {
        assert(all.subrange(at + 4, before.len() + end) =~= data.subrange(start + 4, end));
    }
}

/// Writes are read from the middle of other bytes as they are read alone.
proof fn lemma_requests_in_the_middle(
    before: Seq<u8>,
    data: Seq<u8>,
    rest: Seq<u8>,
    start: int,
    count: nat,
)
    requires
        0 <= start <= data.len(),
        storage_utils::parsed_requests(data, start, count) is Some,
    ensures
        storage_utils::parsed_requests(data, start, count) matches Some((end, requests)) && {
            &&& start <= end <= data.len()
            &&& storage_utils::parsed_requests(before + data + rest, before.len() + start, count)
                == Some((before.len() + end, requests))
        },
    decreases count,
{
    if count > 0 {
        lemma_requests_in_the_middle(before, data, rest, start, (count - 1) as nat);
        if let Some((middle, _)) = storage_utils::parsed_requests(data, start, (count - 1) as nat) {
            lemma_text_in_the_middle(before, data, rest, middle);
            if let Some((half, _)) = storage_utils::parsed_text(data, middle) {
                lemma_text_in_the_middle(before, data, rest, half);
            }
        }
    }
}

/// An entry is read from the middle of other bytes as it is read alone.
proof fn lemma_entry_in_the_middle(before: Seq<u8>, data: Seq<u8>, rest: Seq<u8>)
    requires
        storage_utils::parsed_entry(data, 0) is Some,
    ensures
        storage_utils::parsed_entry(data, 0) matches Some((end, entry)) && {
            &&& 0 < end <= data.len()
            &&& storage_utils::parsed_entry(before + data + rest, before.len() as int) == Some(
                (before.len() + end, entry),
            )
        },
{
    let all = before + data + rest;
    let at = before.len() as int;
    assert(all.subrange(at, at + 8) =~= data.subrange(0, 8));
    assert(all.subrange(at + 8, at + 8 + 8) =~= data.subrange(8, 16));
    assert(all.subrange(at + 16, at + 16 + 8) =~= data.subrange(16, 24));
    assert(all.subrange(at + 24, at + 24 + 8) =~= data.subrange(24, 32));
    assert(all.subrange(at + 32, at + 32 + 8) =~= data.subrange(32, 40));
    assert(all.subrange(at + 40, at + 40 + 8) =~= data.subrange(40, 48));
    assert(all.subrange(at + 48, at + 48 + 8) =~= data.subrange(48, 56));
    assert(all.subrange(at + 56, at + 58) =~= data.subrange(56, 58));
    assert(all.subrange(at + 58, at + 60) =~= data.subrange(58, 60));
    lemma_requests_in_the_middle(
        before,
        data,
        rest,
        60,
        crate::service_utils::little_endian::from_bytes(data.subrange(58, 60)),
    );
}

/// The first piece stands in front of the others.
proof fn lemma_joined_from_the_front(data: Seq<Seq<u8>>)
    requires
        data.len() > 0,
    ensures
        log_file::joined(data) == data[0] + log_file::joined(data.skip(1)),
    decreases data.len(),
{
    if data.len() == 1 {
        assert(data.drop_last() =~= Seq::empty());
        assert(data.skip(1) =~= Seq::empty());
        assert(log_file::joined(data) =~= data[0] + log_file::joined(data.skip(1)));
    } else {
        lemma_joined_from_the_front(data.drop_last());
        assert(data.drop_last().skip(1) =~= data.skip(1).drop_last());
        assert(log_file::joined(data) =~= data[0] + log_file::joined(data.skip(1)));
    }
}

/// Whether `read` is what `entries` say, one by one.
pub open spec fn are_same_entries(read: Seq<EntryView>, entries: Seq<EntryView>) -> bool {
    &&& read.len() == entries.len()
    &&& forall|i: int|
        0 <= i < entries.len() ==> {
            &&& (#[trigger] read[i]).index == entries[i].index
            &&& read[i].term == entries[i].term
            &&& read[i].timestamp == entries[i].timestamp
            &&& read[i].prev_index == entries[i].prev_index
            &&& read[i].prev_term == entries[i].prev_term
            &&& read[i].message_id == entries[i].message_id
            &&& are_same_writes(read[i].requests, entries[i].requests)
        }
}

/// Pieces that are read as entries are read as these entries when they stand one
/// after the other, as a node reads them when it starts again.
proof fn lemma_pieces_are_recovered(before: Seq<u8>, data: Seq<Seq<u8>>, entries: Seq<EntryView>)
    requires
        data.len() == entries.len(),
        forall|i: int| 0 <= i < data.len() ==> reads_as(#[trigger] data[i], entries[i]),
    ensures
        storage_utils::parsed_entries(
            before + log_file::joined(data),
            before.len() as int,
        ) matches Some(read) && are_same_entries(read, entries),
    decreases data.len(),
{
    let all = before + log_file::joined(data);
    if data.len() == 0 {
        assert(all =~= before);
    } else {
        let rest = data.skip(1);
        let others = entries.skip(1);
        assert(reads_as(data[0], entries[0]));
        lemma_joined_from_the_front(data);
        assert(all =~= before + data[0] + log_file::joined(rest));
        lemma_entry_in_the_middle(before, data[0], log_file::joined(rest));
        assert forall|i: int| 0 <= i < rest.len() implies reads_as(#[trigger] rest[i], others[i]) by {
            assert(reads_as(data[i + 1], entries[i + 1]));
        }
        lemma_pieces_are_recovered(before + data[0], rest, others);
        if let Some(tail) = storage_utils::parsed_entries(
            before + data[0] + log_file::joined(rest),
            (before + data[0]).len() as int,
        ) {
            if let Some((_, entry)) = storage_utils::parsed_entry(data[0], 0) {
                let read = seq![entry] + tail;
                assert(storage_utils::parsed_entries(all, before.len() as int) == Some(read));
                assert forall|i: int| 0 <= i < entries.len() implies {
                    &&& (#[trigger] read[i]).index == entries[i].index
                    &&& read[i].term == entries[i].term
                    &&& read[i].timestamp == entries[i].timestamp
                    &&& read[i].prev_index == entries[i].prev_index
                    &&& read[i].prev_term == entries[i].prev_term
                    &&& read[i].message_id == entries[i].message_id
                    &&& are_same_writes(read[i].requests, entries[i].requests)
                } by {
                    if i > 0 {
                        assert(read[i] == tail[i - 1]);
                        assert(entries[i] == others[i - 1]);
                    }
                }
            }
        }
    }
}

/// What a leader has given to its disk, one piece after the other, is read as the
/// entries of its log when the node starts again: the same entries, in the same
/// order, with the same writes.
pub proof fn law_log_of_the_leader_is_recovered(node: StateView, first: int)
    requires
        disk_is_given_the_log(node, first),
    ensures
        storage_utils::parsed_entries(
            log_file::joined(appended_data(node.persistence_tasks)),
            0,
        ) matches Some(read) && are_same_entries(
            read,
            node.log.skip(first).map_values(|e: Arc<SerializationData>| e@),
        ),
{
    let data = appended_data(node.persistence_tasks);
    let entries = node.log.skip(first).map_values(|e: Arc<SerializationData>| e@);
    assert forall|i: int| 0 <= i < data.len() implies reads_as(#[trigger] data[i], entries[i]) by {
        assert(reads_as(data[i], node.log[first + i]@));
    }
    lemma_pieces_are_recovered(Seq::empty(), data, entries);
    assert(Seq::<u8>::empty() + log_file::joined(data) =~= log_file::joined(data));
}

/// The client that waits for a message, if it is a write.
pub open spec fn client_of(message: OutstandingMessage) -> Option<Callback> {
    match message.message_type {
        OutstandingMessageType::WriteBatch { callback, .. } => Some(callback),
        _ => None,
    }
}

/// Whether `after` comes of committing the entry at `index`, for which `client`
/// waits, if anyone does: the commit index goes up to that of the entry, unless it
/// is there already; the readers and every peer are told of a new one; the client
/// is told that its batch was written.
pub open spec fn is_committed(
    before: StateView,
    id: u64,
    index: u64,
    client: Option<Callback>,
    after: StateView,
) -> bool {
    &&& !after.outstanding.contains_key(id)
    &&& after.log == before.log
    &&& after.tasks.len() == before.tasks.len()
    &&& index > before.commit_index ==> {
        &&& after.commit_index == index
        &&& after.published_commit_index == index
        &&& forall|i: int|
            0 <= i < before.tasks.len() ==> {
                &&& (#[trigger] after.tasks[i]).len() == before.tasks[i].len() + 1
                &&& after.tasks[i].drop_last() == before.tasks[i]
                &&& after.tasks[i].last() == (TaskView::UpdateCommitIndex { commit_index: index })
            }
        &&& (before.bus.last_index matches Some(last) && index <= last) ==> {
            &&& after.bus.version == if before.bus.version == u64::MAX {
                0
            } else {
                before.bus.version + 1
            }
            &&& after.bus.offers == before.bus.offers
        }
        &&& before.bus.version + after.bus.offers.len() + 3 <= u64::MAX ==> before.bus.version
            < after.bus.version
    }
    &&& index <= before.commit_index ==> {
        &&& after.commit_index == before.commit_index
        &&& after.published_commit_index == before.published_commit_index
        &&& after.tasks == before.tasks
        &&& after.bus == before.bus
    }
    &&& match client {
        Some(callback) => after.responses.len() == before.responses.len() + 1
            && after.responses.drop_last() == before.responses && after.responses.last().0
            == callback && (after.responses.last().1 matches ResponseView::WriteBatch {
            responses,
            err,
        } && responses.len() == 0 && err is None),
        None => after.responses == before.responses,
    }
}

/// Whether `after` goes on waiting under `id`, with so many acknowledgements and
/// with what is known of the disk: nobody is told, and nothing is committed.
pub open spec fn goes_on_waiting(
    before: StateView,
    id: u64,
    persisted: bool,
    acks: int,
    after: StateView,
) -> bool {
    let message = before.outstanding[id];
    &&& after.commit_index == before.commit_index
    &&& after.responses == before.responses
    &&& after.tasks == before.tasks
    &&& after.log == before.log
    &&& after.bus == before.bus
    &&& after.outstanding.dom() =~= before.outstanding.dom()
    &&& forall|other: u64|
        other != id && before.outstanding.contains_key(other) ==> #[trigger]
            after.outstanding[other] == before.outstanding[other]
    &&& after.outstanding[id].outstanding_responses == message.outstanding_responses - 1
    &&& match (message.message_type, after.outstanding[id].message_type) {
        (
            OutstandingMessageType::WriteBatch {
                callback,
                index,
                start_time,
                batch_size,
                ..
            },
            later,
        ) => later == (OutstandingMessageType::WriteBatch {
            persistence_done: persisted,
            quorum_acks: acks as u32,
            callback,
            index,
            start_time,
            batch_size,
        }),
        (OutstandingMessageType::NoOp { index, .. }, later) => later == (
        OutstandingMessageType::NoOp {
            persistence_done: persisted,
            quorum_acks: acks as u32,
            index,
        }),
        _ => false,
    }
}

/// The acknowledgements of a write or a no-op, whether it is on disk, and the
/// index that it waits to commit.
pub open spec fn progress_of(message: OutstandingMessage) -> Option<(u32, bool, u64)> {
    match message.message_type {
        OutstandingMessageType::WriteBatch { quorum_acks, persistence_done, index, .. } => Some(
            (quorum_acks, persistence_done, index),
        ),
        OutstandingMessageType::NoOp { quorum_acks, persistence_done, index } => Some(
            (quorum_acks, persistence_done, index),
        ),
        _ => None,
    }
}

/// A write that a quorum has acknowledged is committed, and its client told, when
/// the disk has it. One that a quorum has not yet acknowledged waits for it, and
/// the report of the disk is remembered.
pub proof fn law_disk_report_completes_a_write(
    before: StateView,
    id: u64,
    after: StateView,
    acks: u32,
    persisted: bool,
    index: u64,
)
    requires
        before.leader_persistence_step(PersistenceResponseType::LogPersisted { id }, after),
        before.outstanding.contains_key(id),
        progress_of(before.outstanding[id]) == Some((acks, persisted, index)),
        before.outstanding[id].outstanding_responses > i32::MIN,
    ensures
        acks >= before.quorum_size ==> is_committed(
            before,
            id,
            index,
            client_of(before.outstanding[id]),
            after,
        ),
        acks < before.quorum_size ==> goes_on_waiting(before, id, true, acks as int, after),
{
    if acks >= before.quorum_size {
        lemma_told_of_commit(before, id, index, after);
    }
}

/// A write that the disk has is committed, and its client told, with the
/// acknowledgement that makes a quorum. Until then every acknowledgement counts
/// one, as long as more can come.
pub proof fn law_acknowledgement_completes_a_write(
    before: StateView,
    id: u64,
    ok: bool,
    after: StateView,
    acks: u32,
    persisted: bool,
    index: u64,
)
    requires
        before.leader_quorum_step(
            LocalQuorumResponse {
                response_type: LocalQuorumTaskResponseType::AppendEntries { id, ok },
            },
            after,
        ),
        before.outstanding.contains_key(id),
        progress_of(before.outstanding[id]) == Some((acks, persisted, index)),
        acks < u32::MAX,
    ensures
        persisted && acks + 1 >= before.quorum_size ==> is_committed(
            before,
            id,
            index,
            client_of(before.outstanding[id]),
            after,
        ),
        !(persisted && acks + 1 >= before.quorum_size)
            && before.outstanding[id].outstanding_responses > 1 ==> goes_on_waiting(
            before,
            id,
            persisted,
            acks + 1,
            after,
        ),
        !(persisted && acks + 1 >= before.quorum_size)
            && before.outstanding[id].outstanding_responses <= 1 ==> after == (StateView {
            outstanding: before.outstanding.remove(id),
            ..before
        }),
{
    if persisted && acks + 1 >= before.quorum_size {
        lemma_told_of_commit(before, id, index, after);
    }
}

/// Completing a message tells the peers and the client.
proof fn lemma_told_of_commit(before: StateView, id: u64, index: u64, after: StateView)
    requires
        before.outstanding.contains_key(id),
        before.outstanding[id].index() == Some(index),
        before.forgetting(id).completes(before.outstanding[id], after),
    ensures
        is_committed(before, id, index, client_of(before.outstanding[id]), after),
{
    assert(client_of(before.outstanding[id]) is Some ==> after.responses.drop_last()
        =~= before.responses);
    if index > before.commit_index {
        assert forall|i: int| 0 <= i < before.tasks.len() implies {
            &&& (#[trigger] after.tasks[i]).len() == before.tasks[i].len() + 1
            &&& after.tasks[i].drop_last() == before.tasks[i]
            &&& after.tasks[i].last() == (TaskView::UpdateCommitIndex { commit_index: index })
        } by {
            assert(after.tasks[i].drop_last() =~= before.tasks[i]);
        }
        let told = BusView {
            version: broadcast::bumped(before.bus.version, 1),
            ..before.bus
        };
        if told.next() <= index && before.bus.version + after.bus.offers.len() + 3 <= u64::MAX {
            backfill_laws::law_broadcast_tells_the_readers(told, before.log, index, after.bus);
        }
    }
}

/// A leader that hears of anything else, or of what nobody waits for, commits
/// nothing. Someone who asked for a vote is told once the vote is on disk.
pub proof fn law_other_reports_commit_nothing(
    before: StateView,
    persisted: PersistenceResponseType,
    acknowledged: LocalQuorumResponse,
    after: StateView,
)
    ensures
        before.leader_persistence_step(persisted, after) ==> {
            let id = match persisted {
                PersistenceResponseType::LogPersisted { id } => id,
                PersistenceResponseType::VotePersisted { id, .. } => id,
            };
            &&& !before.outstanding.contains_key(id) ==> after == before
            &&& before.outstanding.contains_key(id) && (persisted is VotePersisted || progress_of(
                before.outstanding[id],
            ) is None) ==> {
                &&& after.commit_index == before.commit_index
                &&& after.outstanding == before.outstanding.remove(id)
                &&& after.responses == match before.outstanding[id].message_type {
                    OutstandingMessageType::RequestVote { callback } => before.responses.push(
                        (callback, ResponseView::RequestVote(true)),
                    ),
                    _ => before.responses,
                }
            }
        },
        before.leader_quorum_step(acknowledged, after) ==> {
            &&& !(acknowledged.response_type is AppendEntries) ==> after == before
            &&& acknowledged.response_type matches LocalQuorumTaskResponseType::AppendEntries {
                id,
                ..
            } ==> {
                &&& !before.outstanding.contains_key(id) ==> after == before
                &&& before.outstanding.contains_key(id) && progress_of(before.outstanding[id])
                    is None ==> after == (StateView {
                    outstanding: before.outstanding.remove(id),
                    ..before
                })
            }
        },
{
}

} // verus!
