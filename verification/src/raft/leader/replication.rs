//! Log replication and backfill handling.

use crate::quorum::types::{LocalQuorumWorkerTask, LocalQuorumWorkerTaskType, TaskView};
use crate::raft::shared_state::{SharedState, StateView};
use crate::service_utils::storage_utils::SerializationData;
use std::sync::Arc;
use vstd::prelude::*;

verus! {

/// The place of a node among the quorum workers, which skip this node.
pub open spec fn worker_index(quorum_node_id: u64, identity: u32) -> int {
    if quorum_node_id == 0 {
        0
    } else if quorum_node_id > identity {
        if quorum_node_id >= 2 {
            quorum_node_id - 2
        } else {
            0
        }
    } else {
        quorum_node_id - 1
    }
}

/// The last index below `below` whose entry is of `term`, if there is one. Behind
/// the end of the log there is none.
pub open spec fn last_of_term(log: Seq<Arc<SerializationData>>, term: u64, below: int) -> Option<int>
    decreases below,
{
    if below <= 0 {
        None
    } else if below <= log.len() && log[below - 1].term == term {
        Some(below - 1)
    } else {
        last_of_term(log, term, below - 1)
    }
}

/// What [`last_of_term`] finds is an entry of the term, below the bound, and
/// there is none between it and the bound; if it finds nothing, there is none.
pub proof fn law_last_of_term(log: Seq<Arc<SerializationData>>, term: u64, below: int)
    ensures
        match last_of_term(log, term, below) {
            Some(found) => {
                &&& 0 <= found < below
                &&& found < log.len()
                &&& log[found].term == term
                &&& forall|i: int|
                    found < i < below && i < log.len() ==> (#[trigger] log[i]).term != term
            },
            None => forall|i: int|
                0 <= i < below && i < log.len() ==> (#[trigger] log[i]).term != term,
        },
    decreases below,
{
    if below > 0 && !(below <= log.len() && log[below - 1].term == term) {
        law_last_of_term(log, term, below - 1);
    }
}

impl StateView {
    /// The place of the worker of `quorum_node_id` in the list of task queues.
    pub open spec fn worker_of(self, quorum_node_id: u64) -> int {
        worker_index(quorum_node_id, self.identity) as usize as int
    }

    /// The state once the node is told to truncate its log behind `prev_index`,
    /// whose entry is of `prev_term`.
    pub open spec fn truncating(
        self,
        quorum_node_id: u64,
        prev_term: u64,
        prev_index: u64,
    ) -> StateView {
        let worker = self.worker_of(quorum_node_id);
        if worker < self.tasks.len() {
            self.with_fresh_message_id().tasking(
                worker,
                TaskView::TruncateLog { id: self.next_message_id, prev_term, prev_index },
            )
        } else {
            self
        }
    }

    /// The point to which a node must truncate its log, if its last entry, of
    /// `last_log_term` at `last_log_index`, is not in the log of the leader.
    pub open spec fn truncation_point(self, last_log_term: u64, last_log_index: u64) -> Option<
        (u64, u64),
    > {
        if last_log_index >= self.log.len() {
            if self.log.len() == 0 {
                Some((0, 0))
            } else {
                Some((self.log.last().term, (self.log.len() - 1) as u64))
            }
        } else if last_log_term != 0 && self.log[last_log_index as int].term != last_log_term {
            match last_of_term(self.log, last_log_term, last_log_index as int) {
                Some(index) => Some((last_log_term, index as u64)),
                None => Some((0, 0)),
            }
        } else {
            None
        }
    }

    /// The entries that a node lacks whose last entry is of `last_log_term` at
    /// `last_log_index`. A term of 0 stands for an empty log.
    pub open spec fn missing_entries(self, last_log_term: u64, last_log_index: u64) -> Seq<
        Arc<SerializationData>,
    > {
        if last_log_term == 0 {
            self.log
        } else {
            self.log.skip(last_log_index + 1)
        }
    }

    /// The state once the leader has answered a node that asks for what follows
    /// its last entry.
    pub open spec fn backfilling(
        self,
        quorum_node_id: u64,
        last_log_term: u64,
        last_log_index: u64,
    ) -> StateView {
        match self.truncation_point(last_log_term, last_log_index) {
            Some((prev_term, prev_index)) => self.truncating(quorum_node_id, prev_term, prev_index),
            None => self.tasking(
                self.worker_of(quorum_node_id),
                TaskView::BackfillLog { data: self.missing_entries(last_log_term, last_log_index) },
            ),
        }
    }

    /// The state once the leader has answered each of `requests`, one after the other.
    pub open spec fn backfilling_all(self, requests: Seq<(u64, u64, u64)>) -> StateView
        decreases requests.len(),
    {
        if requests.len() == 0 {
            self
        } else {
            let (quorum_node_id, last_log_term, last_log_index) = requests.last();
            self.backfilling_all(requests.drop_last()).backfilling(
                quorum_node_id,
                last_log_term,
                last_log_index,
            )
        }
    }
}

/// Clones a subset of Arc elements from a slice.
pub fn clone_subset<T>(data: &[Arc<T>], start: usize, end: usize) -> (subset: Vec<Arc<T>>)
    requires
        start <= end <= data@.len(),
    ensures
        subset@ == data@.subrange(start as int, end as int),
{
    let mut subset: Vec<Arc<T>> = Vec::new();
    let mut next: usize = start;
    while next < end
        invariant
            start <= next <= end <= data@.len(),
            subset@ == data@.subrange(start as int, next as int),
        decreases end - next,
    {
        subset.push(data[next].clone());
        next = next + 1;
        assert(subset@ =~= data@.subrange(start as int, next as int));
    }
    subset
}

/// Calculates the quorum worker index for a given node ID.
pub fn get_quorum_worker_index(quorum_node_id: u64, identity: u32) -> (index: usize)
    ensures
        index == worker_index(quorum_node_id, identity) as usize,
{
    if quorum_node_id == 0 {
        0
    } else if quorum_node_id > identity as u64 {
        (quorum_node_id.saturating_sub(2)) as usize
    } else {
        (quorum_node_id.saturating_sub(1)) as usize
    }
}

/// Sends a truncate signal to a quorum worker.
pub fn send_truncate_signal(
    shared_state: &mut SharedState,
    quorum_node_id: u64,
    prev_term: u64,
    last_index_for_term: u64,
)
    requires
        old(shared_state)@.next_message_id < u64::MAX,
    ensures
        final(shared_state)@ == old(shared_state)@.truncating(
            quorum_node_id,
            prev_term,
            last_index_for_term,
        ),
{
    let worker: usize = get_quorum_worker_index(quorum_node_id, shared_state.identity);
    if worker < shared_state.quorum_worker_tasks.len() {
        let id: u64 = shared_state.fresh_message_id();
        shared_state.push_task(
            worker,
            LocalQuorumWorkerTask {
                task_type: LocalQuorumWorkerTaskType::TruncateLog {
                    id,
                    prev_term,
                    prev_index: last_index_for_term,
                },
            },
        );
    }
}

/// Handles the case where follower has entries beyond our log.
fn handle_follower_ahead(shared_state: &mut SharedState, quorum_node_id: u64)
    requires
        old(shared_state)@.next_message_id < u64::MAX,
        old(shared_state)@.log.len() <= u64::MAX,
    ensures
        final(shared_state)@ == if old(shared_state)@.log.len() == 0 {
            old(shared_state)@.truncating(quorum_node_id, 0, 0)
        } else {
            old(shared_state)@.truncating(
                quorum_node_id,
                old(shared_state)@.log.last().term,
                (old(shared_state)@.log.len() - 1) as u64,
            )
        },
{
    let len: usize = shared_state.volatile_server_state.replication_log.len();
    if len == 0 {
        send_truncate_signal(shared_state, quorum_node_id, 0, 0);
    } else {
        let last_term: u64 = shared_state.volatile_server_state.replication_log[len - 1].term;
        send_truncate_signal(shared_state, quorum_node_id, last_term, (len - 1) as u64);
    }
}

/// Handles a term mismatch between leader and follower logs.
///
/// Walks backwards through the log to find the last entry with a matching term,
/// then sends a truncate signal to the follower. This implements the Raft log
/// consistency check - if terms don't match, we need to find where they diverged.
fn handle_term_mismatch(
    shared_state: &mut SharedState,
    quorum_node_id: u64,
    last_log_term: u64,
    last_log_index: u64,
)
    requires
        old(shared_state)@.next_message_id < u64::MAX,
    ensures
        final(shared_state)@ == match last_of_term(
            old(shared_state)@.log,
            last_log_term,
            last_log_index as int,
        ) {
            Some(index) => old(shared_state)@.truncating(
                quorum_node_id,
                last_log_term,
                index as u64,
            ),
            None => old(shared_state)@.truncating(quorum_node_id, 0, 0),
        },
{
    let len: usize = shared_state.volatile_server_state.replication_log.len();
    let mut truncate_to: u64 = last_log_index;
    while truncate_to > 0
        invariant
            *shared_state == *old(shared_state),
            old(shared_state)@.next_message_id < u64::MAX,
            truncate_to <= last_log_index,
            len == shared_state@.log.len(),
            last_of_term(shared_state@.log, last_log_term, last_log_index as int) == last_of_term(
                shared_state@.log,
                last_log_term,
                truncate_to as int,
            ),
        decreases truncate_to,
    {
        truncate_to = truncate_to - 1;
        if truncate_to < len as u64 {
            let term: u64 = shared_state.volatile_server_state.replication_log[truncate_to as usize].term;
            if term == last_log_term {
                send_truncate_signal(shared_state, quorum_node_id, term, truncate_to);
                return;
            }
        }
    }
    send_truncate_signal(shared_state, quorum_node_id, 0, 0);
}

/// Sends backfill data to a follower.
fn send_backfill_data(
    shared_state: &mut SharedState,
    quorum_node_id: u64,
    last_log_term: u64,
    last_log_index: u64,
)
    requires
        last_log_index < old(shared_state)@.log.len(),
    ensures
        final(shared_state)@ == old(shared_state)@.tasking(
            old(shared_state)@.worker_of(quorum_node_id),
            TaskView::BackfillLog {
                data: old(shared_state)@.missing_entries(last_log_term, last_log_index),
            },
        ),
{
    let len: usize = shared_state.volatile_server_state.replication_log.len();
    let start: usize = if last_log_term == 0 {
        0
    } else {
        last_log_index as usize + 1
    };
    let data = clone_subset(
        shared_state.volatile_server_state.replication_log.as_slice(),
        start,
        len,
    );
    assert(data@ =~= shared_state@.missing_entries(last_log_term, last_log_index));
    let worker: usize = get_quorum_worker_index(quorum_node_id, shared_state.identity);
    shared_state.push_task(
        worker,
        LocalQuorumWorkerTask { task_type: LocalQuorumWorkerTaskType::BackfillLog { data } },
    );
}

/// Handles a backfill log request from a follower.
pub fn handle_backfill_request(
    shared_state: &mut SharedState,
    quorum_node_id: u64,
    last_log_term: u64,
    last_log_index: u64,
)
    requires
        old(shared_state)@.next_message_id < u64::MAX,
    ensures
        final(shared_state)@ == old(shared_state)@.backfilling(
            quorum_node_id,
            last_log_term,
            last_log_index,
        ),
{
    let len: usize = shared_state.volatile_server_state.replication_log.len();
    if last_log_index >= len as u64 {
        handle_follower_ahead(shared_state, quorum_node_id);
        return;
    }
    let term: u64 = shared_state.volatile_server_state.replication_log[last_log_index as usize].term;
    if term != last_log_term && last_log_term != 0 {
        handle_term_mismatch(shared_state, quorum_node_id, last_log_term, last_log_index);
        return;
    }
    send_backfill_data(shared_state, quorum_node_id, last_log_term, last_log_index);
}

/// Handles backfill log requests, one after the other.
pub fn handle_backfill_requests(shared_state: &mut SharedState, requests: &Vec<(u64, u64, u64)>)
    requires
        old(shared_state)@.next_message_id + requests@.len() <= u64::MAX,
    ensures
        final(shared_state)@ == old(shared_state)@.backfilling_all(requests@),
{
    let ghost start = shared_state@;
    let mut done: usize = 0;
    assert(requests@.take(0) =~= Seq::empty());
    while done < requests.len()
        invariant
            done <= requests@.len(),
            start == old(shared_state)@,
            shared_state@ == start.backfilling_all(requests@.take(done as int)),
            shared_state@.next_message_id <= start.next_message_id + done,
            start.next_message_id + requests@.len() <= u64::MAX,
        decreases requests@.len() - done,
    {
        let (quorum_node_id, last_log_term, last_log_index) = requests[done];
        handle_backfill_request(shared_state, quorum_node_id, last_log_term, last_log_index);
        proof {
            let longer = requests@.take(done + 1);
            assert(longer.drop_last() =~= requests@.take(done as int));
            assert(longer.last() == requests@[done as int]);
        }
        done = done + 1;
    }
    assert(requests@.take(done as int) =~= requests@);
}

} // verus!
