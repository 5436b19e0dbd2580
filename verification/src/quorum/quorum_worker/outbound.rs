//! What a worker sends to its peer.

use crate::quorum::messages::{LogEntryView, MessageView, RemoteQuorumMessage};
use crate::quorum::quorum_worker::{
    self, CapnpQuorumWorker, OngoingBackfill, QuorumWorker, WorkerView,
    MAX_MESSAGES_PER_ITERATION,
};
use crate::quorum::types::{
    LocalQuorumWorkerTask, LocalQuorumWorkerTaskType, TaskView, WriteBatch,
};
use crate::raft::leader::write_batch::build_log_entry;
use crate::raft::shared_state;
use crate::service_utils::app_time::{now_millis, MAX_NOW_MILLIS};
use crate::service_utils::channels::send_quorum_message;
use crate::service_utils::storage_utils::{self, EntryView, SerializationData};
use std::sync::Arc;
use vstd::prelude::*;

verus! {

pub const HEARTBEAT_INTERVAL_MS: u128 = 100;

/// Sends a message through the outbound channel.
/// Returns true if the message was sent successfully.
pub fn send_message(
    outbound_tx: &mut Option<crossbeam_channel::Sender<RemoteQuorumMessage>>,
    msg: RemoteQuorumMessage,
    _member_id: u64,
) -> (sent: bool)
    ensures
        quorum_worker::link_view(*final(outbound_tx)) == quorum_worker::offering(
            quorum_worker::link_view(*old(outbound_tx)),
            msg@,
            sent,
        ),
        *old(outbound_tx) is None ==> !sent,
{
    match outbound_tx {
        Some(tx) => send_quorum_message(tx, msg),
        None => false,
    }
}

/// Whether a heartbeat is due at `now`: the interval has passed since the last
/// one, or the clock has gone back behind it.
pub open spec fn heartbeat_due(last_heartbeat: u128, now: u128) -> bool {
    last_heartbeat > now || now - last_heartbeat >= HEARTBEAT_INTERVAL_MS
}

/// Whether a worker that last sent a heartbeat at `last_heartbeat` comes to
/// `last_after`, and its connection from `tx` to `tx_after`, by looking at `now`
/// whether it is time for `heartbeat`.
pub open spec fn heartbeats_at(
    send_heartbeats: bool,
    last_heartbeat: u128,
    heartbeat: MessageView,
    tx: Option<crossbeam_channel::Sender<RemoteQuorumMessage>>,
    now: u128,
    last_after: u128,
    tx_after: Option<crossbeam_channel::Sender<RemoteQuorumMessage>>,
) -> bool {
    if send_heartbeats && heartbeat_due(last_heartbeat, now) {
        &&& last_after == now
        &&& exists|sent: bool|
            quorum_worker::link_view(tx_after) == #[trigger] quorum_worker::offering(
                quorum_worker::link_view(tx),
                heartbeat,
                sent,
            )
    } else {
        &&& last_after == last_heartbeat
        &&& tx_after == tx
    }
}

/// Sends a heartbeat if the interval has passed at `now` and heartbeats are
/// enabled. Says whether one was due.
pub fn send_heartbeat_if_needed_at(
    send_heartbeats: bool,
    last_heartbeat: &mut u128,
    term: u64,
    self_id: u32,
    prev_log_index: u64,
    prev_log_term: u64,
    commit_index: u64,
    outbound_tx: &mut Option<crossbeam_channel::Sender<RemoteQuorumMessage>>,
    member_id: u64,
    now: u128,
) -> (due: bool)
    ensures
        due == (send_heartbeats && heartbeat_due(*old(last_heartbeat), now)),
        heartbeats_at(
            send_heartbeats,
            *old(last_heartbeat),
            MessageView::AppendEntriesRequest {
                term,
                leader_id: self_id,
                prev_log_index,
                prev_log_term,
                request_id: 0,
                commit_index,
                entry: None,
            },
            *old(outbound_tx),
            now,
            *final(last_heartbeat),
            *final(outbound_tx),
        ),
{
    if !send_heartbeats {
        return false;
    }
    if *last_heartbeat <= now && now - *last_heartbeat < HEARTBEAT_INTERVAL_MS {
        return false;
    }
    *last_heartbeat = now;
    let message = RemoteQuorumMessage::AppendEntriesRequest {
        term,
        leader_id: self_id,
        prev_log_index,
        prev_log_term,
        request_id: 0,
        commit_index,
        entry: None,
    };
    send_message(outbound_tx, message, member_id);
    true
}

/// Sends a heartbeat if the interval has passed and heartbeats are enabled. The
/// last heartbeat is then the time at which this was looked at.
pub fn send_heartbeat_if_needed(
    send_heartbeats: bool,
    last_heartbeat: &mut u128,
    term: u64,
    self_id: u32,
    prev_log_index: u64,
    prev_log_term: u64,
    commit_index: u64,
    outbound_tx: &mut Option<crossbeam_channel::Sender<RemoteQuorumMessage>>,
    member_id: u64,
    anchor: &minstant::Anchor,
)
    ensures
        exists|now: u128|
            now <= MAX_NOW_MILLIS && #[trigger] heartbeats_at(
                send_heartbeats,
                *old(last_heartbeat),
                MessageView::AppendEntriesRequest {
                    term,
                    leader_id: self_id,
                    prev_log_index,
                    prev_log_term,
                    request_id: 0,
                    commit_index,
                    entry: None,
                },
                *old(outbound_tx),
                now,
                *final(last_heartbeat),
                *final(outbound_tx),
            ),
{
    send_heartbeat_if_needed_at(
        send_heartbeats,
        last_heartbeat,
        term,
        self_id,
        prev_log_index,
        prev_log_term,
        commit_index,
        outbound_tx,
        member_id,
        now_millis(anchor),
    );
}

/// The form in which an entry travels between nodes.
pub open spec fn wire_entry(entry: EntryView) -> LogEntryView {
    LogEntryView {
        index: entry.index,
        data: entry.encoded(),
        batch_index: entry.index,
        term: entry.term,
        prev_log_term: entry.prev_term,
        prev_log_index: entry.prev_index,
        message_id: entry.message_id,
    }
}

/// Whether every one of the entries can be sent.
pub open spec fn all_storable(entries: Seq<Arc<SerializationData>>) -> bool {
    forall|i: int| 0 <= i < entries.len() ==> (#[trigger] entries[i])@.is_storable()
}

/// Whether every entry of the task can be sent.
pub open spec fn is_sendable(task: TaskView) -> bool {
    match task {
        TaskView::AppendEntries { entry, .. } => entry@.is_storable(),
        TaskView::BackfillLog { data } => all_storable(data),
        _ => true,
    }
}

impl WorkerView {
    /// The request that brings `entry` to the peer.
    pub open spec fn append_request(
        self,
        entry: EntryView,
        request_id: u64,
        commit_index: u64,
    ) -> MessageView {
        MessageView::AppendEntriesRequest {
            term: self.term,
            leader_id: self.self_id,
            prev_log_index: entry.prev_index,
            prev_log_term: entry.prev_term,
            request_id,
            commit_index,
            entry: Some(wire_entry(entry)),
        }
    }

    /// The requests that bring `entries` to the peer. Each is numbered by the
    /// index of its entry.
    pub open spec fn backfill_requests(self, entries: Seq<Arc<SerializationData>>) -> Seq<
        MessageView,
    > {
        entries.map_values(
            |e: Arc<SerializationData>| self.append_request(e@, e.index, self.commit_index),
        )
    }

    /// A heartbeat: a request without an entry, numbered 0.
    pub open spec fn heartbeat(self) -> MessageView {
        MessageView::AppendEntriesRequest {
            term: self.term,
            leader_id: self.self_id,
            prev_log_index: self.prev_log_index,
            prev_log_term: self.prev_log_term,
            request_id: 0,
            commit_index: self.commit_index,
            entry: None,
        }
    }

    /// The worker once a heartbeat has been offered to the connection at `now`.
    pub open spec fn heartbeating(self, now: u128, sent: bool) -> WorkerView {
        (WorkerView { last_heartbeat: now, ..self }).sending(self.heartbeat(), sent)
    }

    /// Whether `after` comes of sending `messages` one after the other, up to
    /// the first that is not accepted.
    pub open spec fn sends_while_accepted(
        self,
        messages: Seq<MessageView>,
        after: WorkerView,
    ) -> bool {
        &&& after == (WorkerView { outbound: after.outbound, ..self })
        &&& match self.outbound {
            None => after.outbound is None,
            Some(offers) => exists|count: int|
                0 <= count <= messages.len() && after.outbound == Some(
                    #[trigger] offered_up_to(offers, messages, count),
                ),
        }
    }

    /// The request for the vote of the peer.
    pub open spec fn vote_request(
        self,
        id: u64,
        term: u64,
        last_index: u64,
        last_term: u64,
    ) -> MessageView {
        MessageView::VoteRequest {
            term,
            candidate_id: self.self_id,
            last_log_index: last_index,
            last_log_term: last_term,
            request_id: id,
        }
    }

    /// Whether the worker comes to `after` by a vote request that cannot be sent.
    pub open spec fn vote_fails(self, task: TaskView, after: WorkerView) -> bool {
        task matches TaskView::RequestVote { id, term, last_term, last_index } && after
            == self.sending(self.vote_request(id, term, last_index, last_term), false)
    }

    /// Whether the worker comes to `after` by one task at `now`.
    pub open spec fn task_step(self, task: TaskView, now: u128, after: WorkerView) -> bool {
        match task {
            TaskView::StartHeartbeats { term, prev_term, prev_log_index, commit_index, .. } =>
                after == (WorkerView {
                send_heartbeats: true,
                term,
                prev_log_term: prev_term,
                prev_log_index,
                commit_index,
                ..self
            }),
            TaskView::StopHeartbeats { .. } => after == (WorkerView {
                send_heartbeats: false,
                ..self
            }),
            TaskView::RequestVote { id, term, last_term, last_index } => exists|sent: bool|
                after == #[trigger] self.sending(
                    self.vote_request(id, term, last_index, last_term),
                    sent,
                ),
            TaskView::AppendEntries { id, entry, commit_index } => exists|sent: bool|
                after == #[trigger] (WorkerView {
                    prev_log_term: entry.term,
                    prev_log_index: entry.index,
                    commit_index,
                    pending_append_entries: self.pending_append_entries.insert(id, now),
                    last_heartbeat: now,
                    ..self
                }).sending(self.append_request(entry@, id, commit_index), sent),
            TaskView::BackfillLog { data } => if data.len() == 0 {
                after == self
            } else {
                (WorkerView { ongoing_backfill: None, last_heartbeat: now, ..self }).sends_while_accepted(
                    self.backfill_requests(data),
                    after,
                )
            },
            TaskView::WriteBatch { batch_id, requests, callback } => exists|sent: bool|
                after == #[trigger] (WorkerView {
                    pending_write_batches: self.pending_write_batches.insert(batch_id, callback),
                    ..self
                }).sending(MessageView::PutBatchRequest { batch_id, requests }, sent),
            TaskView::TruncateLog { id, prev_term, prev_index } => exists|sent: bool|
                after == #[trigger] self.sending(
                    MessageView::TruncateLogRequest {
                        prev_term,
                        prev_index,
                        term: self.term,
                        leader_id: self.self_id,
                        request_id: id,
                    },
                    sent,
                ),
            TaskView::UpdateCommitIndex { commit_index } => after == (WorkerView {
                commit_index,
                last_heartbeat: 0,
                ..self
            }),
        }
    }

    /// Whether the worker comes to `after` by `tasks` at `now`, one after the other.
    pub open spec fn task_run(self, tasks: Seq<TaskView>, now: u128, after: WorkerView) -> bool
        decreases tasks.len(),
    {
        if tasks.len() == 0 {
            after == self
        } else {
            exists|middle: WorkerView|
                self.task_run(tasks.drop_last(), now, middle) && #[trigger] middle.task_step(
                    tasks.last(),
                    now,
                    after,
                )
        }
    }

    /// The worker once it has taken the oldest task from its queue.
    pub open spec fn popped(self) -> WorkerView {
        WorkerView { work_queue: self.work_queue.skip(1), ..self }
    }

    /// Whether the worker comes to `after` by its `count` oldest tasks at `now`,
    /// one after the other, and every vote request among them is sent.
    pub open spec fn works_off(self, count: int, now: u128, after: WorkerView) -> bool
        decreases count,
    {
        if count <= 0 {
            after == self
        } else {
            exists|middle: WorkerView|
                {
                    &&& self.works_off(count - 1, now, middle)
                    &&& middle.work_queue.len() > 0
                    &&& #[trigger] middle.popped().task_step(middle.work_queue[0], now, after)
                    &&& !middle.popped().vote_fails(middle.work_queue[0], after)
                }
        }
    }

    /// How many tasks the worker handles at a time.
    pub open spec fn next_tasks(self) -> int {
        if self.work_queue.len() < MAX_MESSAGES_PER_ITERATION {
            self.work_queue.len() as int
        } else {
            MAX_MESSAGES_PER_ITERATION as int
        }
    }
}

/// What has been offered to a connection once the first `count` of `messages`
/// have been accepted, and the next one, if there is one, has not.
pub open spec fn offered_up_to(
    offers: Seq<(MessageView, bool)>,
    messages: Seq<MessageView>,
    count: int,
) -> Seq<(MessageView, bool)> {
    let accepted = offers + messages.take(count).map_values(|m: MessageView| (m, true));
    if count < messages.len() {
        accepted.push((messages[count], false))
    } else {
        accepted
    }
}

impl QuorumWorker {
    /// Sends an append entries request to the remote member, at `now`.
    pub fn send_append_entries(
        &mut self,
        id: u64,
        entry: &Arc<SerializationData>,
        new_commit_index: u64,
        now: u128,
    )
        requires
            entry@.is_storable(),
        ensures
            old(self)@.task_step(
                TaskView::AppendEntries { id, entry: *entry, commit_index: new_commit_index },
                now,
                final(self)@,
            ),
    {
        broadcast use vstd::std_specs::hash::group_hash_axioms;

        self.prev_log_term = entry.term;
        self.prev_log_index = entry.index;
        self.commit_index = new_commit_index;
        self.pending_append_entries.insert(id, now);
        self.last_heartbeat = now;
        let message = RemoteQuorumMessage::AppendEntriesRequest {
            term: self.term,
            leader_id: self.self_id,
            prev_log_index: entry.prev_index,
            prev_log_term: entry.prev_term,
            request_id: id,
            commit_index: new_commit_index,
            entry: Some(build_log_entry(entry)),
        };
        assert(message@ == old(self)@.append_request(entry@, id, new_commit_index));
        self.send(message);
    }

    /// Sends a vote request to the remote member. A request that cannot be sent
    /// is given back.
    pub fn send_vote_request(
        &mut self,
        id: u64,
        term: u64,
        last_index: u64,
        last_term: u64,
    ) -> (result: Result<(), RemoteQuorumMessage>)
        ensures
            final(self)@ == old(self)@.sending(
                old(self)@.vote_request(id, term, last_index, last_term),
                result is Ok,
            ),
            old(self)@.outbound is None ==> result is Err,
            result matches Err(message) ==> message@ == old(self)@.vote_request(
                id,
                term,
                last_index,
                last_term,
            ),
    {
        let candidate_id: u32 = self.self_id;
        let message = RemoteQuorumMessage::VoteRequest {
            term,
            candidate_id,
            last_log_index: last_index,
            last_log_term: last_term,
            request_id: id,
        };
        if self.send(message) {
            Ok(())
        } else {
            Err(
                RemoteQuorumMessage::VoteRequest {
                    term,
                    candidate_id,
                    last_log_index: last_index,
                    last_log_term: last_term,
                    request_id: id,
                },
            )
        }
    }

    /// Sends a write batch to the remote member.
    pub fn send_write_batch(&mut self, write_batch: WriteBatch)
        ensures
            forall|now: u128|
                #[trigger] old(self)@.task_step(
                    TaskView::WriteBatch {
                        batch_id: write_batch.batch_id@,
                        requests: storage_utils::requests_view(write_batch.requests@),
                        callback: write_batch.callback,
                    },
                    now,
                    final(self)@,
                ),
    {
        self.pending_write_batches.insert(write_batch.batch_id.clone(), write_batch.callback);
        let message = RemoteQuorumMessage::PutBatchRequest {
            batch_id: write_batch.batch_id,
            requests: write_batch.requests,
        };
        self.send(message);
    }

    /// Sends a truncate log request to the remote member.
    pub fn send_truncate_log(&mut self, id: u64, prev_term: u64, prev_index: u64)
        ensures
            forall|now: u128|
                #[trigger] old(self)@.task_step(
                    TaskView::TruncateLog { id, prev_term, prev_index },
                    now,
                    final(self)@,
                ),
    {
        let message = RemoteQuorumMessage::TruncateLogRequest {
            prev_term,
            prev_index,
            term: self.term,
            leader_id: self.self_id,
            request_id: id,
        };
        self.send(message);
    }

    /// Sends backfill entries to the remote member, at `now`.
    pub fn send_backfill_entries(&mut self, entries: Vec<Arc<SerializationData>>, now: u128)
        requires
            is_sendable(TaskView::BackfillLog { data: entries@ }),
        ensures
            old(self)@.task_step(TaskView::BackfillLog { data: entries@ }, now, final(self)@),
    {
        if entries.len() == 0 {
            return;
        }
        self.ongoing_backfill = None;
        self.last_heartbeat = now;
        let ghost start = self@;
        let ghost messages = old(self)@.backfill_requests(entries@);
        let mut done: usize = 0;
        let mut refused: bool = false;
        proof {
            if let Some(offers) = start.outbound {
                assert(offers + messages.take(0).map_values(|m: MessageView| (m, true))
                    =~= offers);
            }
        }
        while !refused && done < entries.len()
            invariant
                done <= entries@.len(),
                refused ==> done < entries@.len(),
                all_storable(entries@),
                start == (WorkerView { ongoing_backfill: None, last_heartbeat: now, ..old(self)@ }),
                messages == old(self)@.backfill_requests(entries@),
                self@ == (WorkerView { outbound: self@.outbound, ..start }),
                match start.outbound {
                    None => self@.outbound is None,
                    Some(offers) => self@.outbound == Some(
                        if refused {
                            offered_up_to(offers, messages, done as int)
                        } else {
                            offers + messages.take(done as int).map_values(
                                |m: MessageView| (m, true),
                            )
                        },
                    ),
                },
            decreases entries@.len() - done + (if refused { 0int } else { 1int }),
        {
            let entry = &entries[done];
            let message = RemoteQuorumMessage::AppendEntriesRequest {
                term: self.term,
                leader_id: self.self_id,
                prev_log_index: entry.prev_index,
                prev_log_term: entry.prev_term,
                request_id: entry.index,
                commit_index: self.commit_index,
                entry: Some(build_log_entry(entry)),
            };
            assert(message@ == messages[done as int]);
            let sent: bool = self.send(message);
            proof {
                if let Some(offers) = start.outbound {
                    if sent {
                        assert(self@.outbound->0 =~= offers + messages.take(
                            done + 1,
                        ).map_values(|m: MessageView| (m, true)));
                    }
                }
            }
            if sent {
                done = done + 1;
            } else {
                refused = true;
            }
        }
        proof {
            if let Some(offers) = start.outbound {
                assert(self@.outbound == Some(offered_up_to(offers, messages, done as int)));
            }
        }
    }

    /// Sends a heartbeat to the remote member, if one is due at `now`.
    pub fn heartbeat_at(&mut self, now: u128) -> (due: bool)
        ensures
            due == (old(self)@.send_heartbeats && heartbeat_due(old(self)@.last_heartbeat, now)),
            if due {
                exists|sent: bool| final(self)@ == #[trigger] old(self)@.heartbeating(now, sent)
            } else {
                final(self)@ == old(self)@
            },
    {
        let ghost start = self@;
        let term: u64 = self.term;
        let self_id: u32 = self.self_id;
        let prev_log_index: u64 = self.prev_log_index;
        let prev_log_term: u64 = self.prev_log_term;
        let commit_index: u64 = self.commit_index;
        let member_id: u64 = self.member_id;
        let send_heartbeats: bool = self.send_heartbeats;
        let due: bool = send_heartbeat_if_needed_at(
            send_heartbeats,
            &mut self.last_heartbeat,
            term,
            self_id,
            prev_log_index,
            prev_log_term,
            commit_index,
            &mut self.outbound_tx,
            member_id,
            now,
        );
        proof {
            if due {
                let sent = choose|sent: bool|
                    self@.outbound == #[trigger] quorum_worker::offering(
                        start.outbound,
                        start.heartbeat(),
                        sent,
                    );
                assert(self@ == start.heartbeating(now, sent));
            }
        }
        due
    }

    /// Handles one task of the state machine, at `now`. Says whether it is a vote
    /// request that cannot be sent.
    fn handle_task(&mut self, task_type: LocalQuorumWorkerTaskType, now: u128) -> (send_error: bool)
        requires
            is_sendable((LocalQuorumWorkerTask { task_type })@),
        ensures
            old(self)@.task_step((LocalQuorumWorkerTask { task_type })@, now, final(self)@),
            send_error == old(self)@.vote_fails(
                (LocalQuorumWorkerTask { task_type })@,
                final(self)@,
            ),
    {
        match task_type {
            LocalQuorumWorkerTaskType::StartHeartbeats {
                id: _,
                term,
                prev_term,
                prev_log_index,
                commit_index,
            } => {
                self.send_heartbeats = true;
                self.term = term;
                self.prev_log_term = prev_term;
                self.prev_log_index = prev_log_index;
                self.commit_index = commit_index;
            },
            LocalQuorumWorkerTaskType::StopHeartbeats { id: _ } => {
                self.send_heartbeats = false;
            },
            LocalQuorumWorkerTaskType::RequestVote { id, term, last_term, last_index } => {
                let ghost request = old(self)@.vote_request(id, term, last_index, last_term);
                let result = self.send_vote_request(id, term, last_index, last_term);
                proof {
                    if let Some(offers) = old(self)@.outbound {
                        assert(offers.push((request, true)).last()
                            != offers.push((request, false)).last());
                    }
                }
                return result.is_err();
            },
            LocalQuorumWorkerTaskType::AppendEntries { id, entry, commit_index } => {
                self.send_append_entries(id, &entry, commit_index, now);
            },
            LocalQuorumWorkerTaskType::BackfillLog { data } => {
                self.send_backfill_entries(data, now);
            },
            LocalQuorumWorkerTaskType::WriteBatch { write_batch } => {
                self.send_write_batch(write_batch);
            },
            LocalQuorumWorkerTaskType::TruncateLog { id, prev_term, prev_index } => {
                self.send_truncate_log(id, prev_term, prev_index);
            },
            LocalQuorumWorkerTaskType::UpdateCommitIndex { commit_index } => {
                self.commit_index = commit_index;
                self.last_heartbeat = 0;
            },
        }
        false
    }

    /// Handles the tasks of the state machine, oldest first, at `now`. Handles
    /// no more than [`MAX_MESSAGES_PER_ITERATION`] at a time, and stops at a vote
    /// request that cannot be sent. Says whether there was one.
    pub fn process_work_queue(&mut self, now: u128) -> (send_error: bool)
        requires
            forall|i: int|
                0 <= i < old(self)@.work_queue.len() ==> is_sendable(
                    #[trigger] old(self)@.work_queue[i],
                ),
        ensures
            if send_error {
                exists|done: int, middle: WorkerView|
                    {
                        &&& 0 <= done < old(self)@.next_tasks()
                        &&& #[trigger] old(self)@.works_off(done, now, middle)
                        &&& middle.work_queue == old(self)@.work_queue.skip(done)
                        &&& middle.popped().vote_fails(old(self)@.work_queue[done], final(self)@)
                    }
            } else {
                &&& old(self)@.works_off(old(self)@.next_tasks(), now, final(self)@)
                &&& final(self)@.work_queue == old(self)@.work_queue.skip(old(self)@.next_tasks())
            },
    {
        let ghost start = self@;
        let ghost all = self@.work_queue;
        let mut done: usize = 0;
        assert(all.skip(0) =~= all);
        while done < MAX_MESSAGES_PER_ITERATION && self.work_queue.len() > 0
            invariant
                start == old(self)@,
                all == start.work_queue,
                forall|i: int| 0 <= i < all.len() ==> is_sendable(#[trigger] all[i]),
                done <= MAX_MESSAGES_PER_ITERATION,
                done <= all.len(),
                self@.work_queue == all.skip(done as int),
                start.works_off(done as int, now, self@),
            decreases MAX_MESSAGES_PER_ITERATION - done,
        {
            let ghost before = self@;
            let task = self.work_queue.remove(0);
            let ghost popped = self@;
            proof {
                assert(popped.work_queue =~= before.work_queue.skip(1));
                assert(popped == before.popped());
                assert(before.work_queue[0] == all[done as int]);
                assert(task@ == all[done as int]);
                assert(before.work_queue.skip(1) =~= all.skip(done + 1));
            }
            if self.handle_task(task.task_type, now) {
                return true;
            }
            assert(before.popped().task_step(before.work_queue[0], now, self@));
            done = done + 1;
        }
        false
    }
}

impl CapnpQuorumWorker {
    /// Handles the tasks of the state machine, oldest first, at `now`. Handles
    /// no more than [`MAX_MESSAGES_PER_ITERATION`] at a time.
    pub fn process_work_queue(&mut self, now: u128)
        requires
            forall|i: int|
                0 <= i < old(self).worker@.work_queue.len() ==> is_sendable(
                    #[trigger] old(self).worker@.work_queue[i],
                ),
        ensures
            (WorkerView {
                work_queue: old(self).worker@.work_queue.skip(old(self).worker@.next_tasks()),
                ..old(self).worker@
            }).task_run(
                old(self).worker@.work_queue.take(old(self).worker@.next_tasks()),
                now,
                final(self).worker@,
            ),
    {
        let ghost all = self.worker@.work_queue;
        let ghost count = self.worker@.next_tasks();
        let later = if self.worker.work_queue.len() < MAX_MESSAGES_PER_ITERATION {
            Vec::new()
        } else {
            self.worker.work_queue.split_off(MAX_MESSAGES_PER_ITERATION)
        };
        let mut tasks = later;
        std::mem::swap(&mut tasks, &mut self.worker.work_queue);
        let ghost start = self.worker@;
        proof {
            assert(shared_state::queue_view(tasks@) =~= all.take(count));
            assert(start.work_queue =~= all.skip(count));
            assert(start == (WorkerView { work_queue: all.skip(count), ..old(self).worker@ }));
            assert(all.take(count).take(0) =~= Seq::empty());
        }
        let ghost batch = all.take(count);
        let ghost given = tasks@;
        for task in iter: tasks
            invariant
                iter.seq() == given,
                shared_state::queue_view(given) == batch,
                forall|i: int| 0 <= i < batch.len() ==> is_sendable(#[trigger] batch[i]),
                start.task_run(batch.take(iter.index()), now, self.worker@),
        {
            let ghost done = iter.index();
            let ghost before = self.worker@;
            assert(batch[done] == task@);
            self.worker.handle_task(task.task_type, now);
            proof {
                assert(batch.take(done + 1).drop_last() =~= batch.take(done));
                assert(batch.take(done + 1).last() == batch[done]);
                assert(before.task_step(batch.take(done + 1).last(), now, self.worker@));
            }
        }
        assert(batch.take(given.len() as int) =~= batch);
    }
}

} // verus!
