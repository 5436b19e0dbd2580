//! What a worker makes of the messages of its peer.

use crate::quorum::messages::{MessageView, RemotePutResponse, RemoteQuorumMessage};
use crate::quorum::quorum_worker::{
    ClientResponse, ClientResponseView, OngoingBackfill, PendingQuorumTaskEnum, PendingView,
    QuorumWorker, RaftRequestView, WorkerView, WriteResponse, MAX_MESSAGES_PER_ITERATION,
};
use crate::quorum::types::{LocalQuorumResponse, LocalQuorumTaskResponseType};
use crate::raft::raft_sm::{
    LocalAppendEntries, LocalRaftMessagePayload, LocalRaftWriteBatchRequest,
    LocalRequestVoteRequest, LogEntry,
};
use crate::service_utils::storage_utils::RemotePutRequest;
use vstd::prelude::*;

verus! {

impl WorkerView {
    /// The worker once the peer has acknowledged an append entries request.
    ///
    /// A peer that is behind gets a backfill, unless one is on its way. A
    /// heartbeat, numbered 0, is not reported.
    pub open spec fn acknowledged(
        self,
        request_id: u64,
        last_log_index: u64,
        last_log_term: u64,
        ok: bool,
    ) -> WorkerView {
        let noted = WorkerView {
            pending_append_entries: self.pending_append_entries.remove(request_id),
            ..self
        };
        if !ok {
            if self.ongoing_backfill is None {
                (WorkerView {
                    ongoing_backfill: Some(
                        OngoingBackfill { from_term: last_log_term, from_index: last_log_index },
                    ),
                    ..noted
                }).reporting(
                    LocalQuorumResponse {
                        response_type: LocalQuorumTaskResponseType::BackfillLog {
                            quorum_node_id: self.member_id,
                            last_log_term,
                            last_log_index,
                        },
                    },
                )
            } else {
                noted
            }
        } else if request_id != 0 {
            noted.reporting(
                LocalQuorumResponse {
                    response_type: LocalQuorumTaskResponseType::AppendEntries {
                        id: request_id,
                        ok,
                    },
                },
            )
        } else {
            noted
        }
    }

    /// The worker after one message of the peer, where `sent` says whether the
    /// connection took the answer to a request to truncate the log.
    pub open spec fn inbound_step(self, message: MessageView, sent: bool) -> WorkerView {
        match message {
            MessageView::VoteResponse { vote_granted, request_id, term } => self.reporting(
                LocalQuorumResponse {
                    response_type: LocalQuorumTaskResponseType::RequestVoteResponse {
                        id: request_id,
                        term,
                        received_vote: vote_granted,
                    },
                },
            ),
            MessageView::AppendEntriesAcknowledge {
                last_log_term,
                last_log_index,
                request_id,
                ok,
            } => self.acknowledged(request_id, last_log_index, last_log_term, ok),
            MessageView::PutBatchResponse { batch_id, responses } => {
                if self.pending_write_batches.contains_key(batch_id) {
                    WorkerView {
                        pending_write_batches: self.pending_write_batches.remove(batch_id),
                        client_responses: self.client_responses.push(
                            ClientResponseView {
                                callback: self.pending_write_batches[batch_id],
                                batch_id,
                                responses,
                            },
                        ),
                        ..self
                    }
                } else {
                    self
                }
            },
            MessageView::TruncateLogResponse { request_id, ok } => (WorkerView {
                ongoing_backfill: None,
                ..self
            }).reporting(
                LocalQuorumResponse {
                    response_type: LocalQuorumTaskResponseType::TruncateLogResponse {
                        id: request_id,
                        ok,
                    },
                },
            ),
            MessageView::AppendEntriesRequest {
                term,
                leader_id,
                prev_log_index,
                prev_log_term,
                request_id,
                commit_index,
                entry,
            } => self.asking(
                RaftRequestView::AppendEntries {
                    term,
                    leader_id,
                    prev_index: prev_log_index,
                    prev_term: prev_log_term,
                    request_id,
                    entry,
                    commit_index,
                },
                PendingView::AppendEntries {
                    request_id,
                    log_index: match entry {
                        Some(entry) => entry.index,
                        None => 0,
                    },
                    term: match entry {
                        Some(entry) => entry.term,
                        None => 0,
                    },
                },
            ),
            MessageView::VoteRequest {
                term,
                candidate_id,
                last_log_index,
                last_log_term,
                request_id,
            } => self.asking(
                RaftRequestView::RequestVote(
                    LocalRequestVoteRequest { term, candidate_id, last_log_index, last_log_term },
                ),
                PendingView::Vote { request_id, term },
            ),
            MessageView::PutBatchRequest { batch_id, requests } => self.asking(
                RaftRequestView::WriteBatch { requests },
                PendingView::PutBatch { batch_id },
            ),
            MessageView::TruncateLogRequest { prev_term, prev_index, request_id, .. } =>
                self.reporting(
                LocalQuorumResponse {
                    response_type: LocalQuorumTaskResponseType::TruncateLog {
                        quorum_node_id: self.member_id,
                        prev_term,
                        prev_index,
                    },
                },
            ).sending(MessageView::TruncateLogResponse { request_id, ok: true }, sent),
            MessageView::ConnectRequest => self,
            MessageView::ConnectResponse => self,
        }
    }

    /// Whether the worker comes to `after` by `messages`, one after the other.
    pub open spec fn inbound_run(self, messages: Seq<MessageView>, after: WorkerView) -> bool
        decreases messages.len(),
    {
        if messages.len() == 0 {
            after == self
        } else {
            exists|middle: WorkerView, sent: bool|
                self.inbound_run(messages.drop_last(), middle) && after
                    == #[trigger] middle.inbound_step(messages.last(), sent)
        }
    }

    /// How many messages the worker handles at a time.
    pub open spec fn next_messages(self) -> int {
        if self.inbound.len() < MAX_MESSAGES_PER_ITERATION {
            self.inbound.len() as int
        } else {
            MAX_MESSAGES_PER_ITERATION as int
        }
    }
}

impl QuorumWorker {
    fn on_vote_response(&mut self, request_id: u64, term: u64, vote_granted: bool)
        ensures
            final(self)@ == old(self)@.inbound_step(
                MessageView::VoteResponse { vote_granted, request_id, term },
                false,
            ),
    {
        self.report(
            LocalQuorumResponse {
                response_type: LocalQuorumTaskResponseType::RequestVoteResponse {
                    id: request_id,
                    term,
                    received_vote: vote_granted,
                },
            },
        );
    }

    fn on_append_entries_ack(
        &mut self,
        request_id: u64,
        last_log_index: u64,
        last_log_term: u64,
        ok: bool,
    )
        ensures
            final(self)@ == old(self)@.acknowledged(request_id, last_log_index, last_log_term, ok),
    {
        broadcast use vstd::std_specs::hash::group_hash_axioms;

        self.pending_append_entries.remove(&request_id);
        assert(self@.pending_append_entries =~= old(self)@.pending_append_entries.remove(
            request_id,
        ));
        if !ok {
            if self.ongoing_backfill.is_none() {
                self.ongoing_backfill = Some(
                    OngoingBackfill { from_term: last_log_term, from_index: last_log_index },
                );
                let quorum_node_id: u64 = self.member_id;
                self.report(
                    LocalQuorumResponse {
                        response_type: LocalQuorumTaskResponseType::BackfillLog {
                            quorum_node_id,
                            last_log_term,
                            last_log_index,
                        },
                    },
                );
            }
        } else if request_id != 0 {
            self.report(
                LocalQuorumResponse {
                    response_type: LocalQuorumTaskResponseType::AppendEntries {
                        id: request_id,
                        ok,
                    },
                },
            );
        }
    }

    fn on_put_batch_response(&mut self, batch_id: String, responses: Vec<RemotePutResponse>)
        ensures
            final(self)@ == old(self)@.inbound_step(
                (RemoteQuorumMessage::PutBatchResponse { batch_id, responses })@,
                false,
            ),
    {
        let callback = match self.pending_write_batches.get(batch_id.as_str()) {
            Some(callback) => *callback,
            None => {
                return;
            },
        };
        self.pending_write_batches.remove(batch_id.as_str());
        let response = ClientResponse { callback, response: WriteResponse { batch_id, responses } };
        self.client_responses.push(response);
        assert(self@.client_responses =~= old(self)@.client_responses.push(response@));
    }

    fn on_truncate_log_response(&mut self, request_id: u64, ok: bool)
        ensures
            final(self)@ == old(self)@.inbound_step(
                MessageView::TruncateLogResponse { request_id, ok },
                false,
            ),
    {
        self.ongoing_backfill = None;
        self.report(
            LocalQuorumResponse {
                response_type: LocalQuorumTaskResponseType::TruncateLogResponse {
                    id: request_id,
                    ok,
                },
            },
        );
    }

    fn on_append_entries_request(
        &mut self,
        term: u64,
        leader_id: u32,
        prev_log_index: u64,
        prev_log_term: u64,
        request_id: u64,
        commit_index: u64,
        entry: Option<LogEntry>,
    )
        requires
            old(self)@.next_callback_id < u64::MAX,
        ensures
            final(self)@ == old(self)@.inbound_step(
                (RemoteQuorumMessage::AppendEntriesRequest {
                    term,
                    leader_id,
                    prev_log_index,
                    prev_log_term,
                    request_id,
                    commit_index,
                    entry,
                })@,
                false,
            ),
    {
        let (entry_index, entry_term) = match &entry {
            Some(entry) => (entry.index, entry.term),
            None => (0, 0),
        };
        self.ask(
            LocalRaftMessagePayload::AppendEntries(
                LocalAppendEntries {
                    term,
                    leader_id,
                    prev_index: prev_log_index,
                    prev_term: prev_log_term,
                    request_id,
                    entry,
                    commit_index,
                },
            ),
            PendingQuorumTaskEnum::AppendEntries {
                request_id,
                log_index: entry_index,
                term: entry_term,
            },
        );
    }

    fn on_vote_request(
        &mut self,
        term: u64,
        candidate_id: u32,
        last_log_index: u64,
        last_log_term: u64,
        request_id: u64,
    )
        requires
            old(self)@.next_callback_id < u64::MAX,
        ensures
            final(self)@ == old(self)@.inbound_step(
                MessageView::VoteRequest {
                    term,
                    candidate_id,
                    last_log_index,
                    last_log_term,
                    request_id,
                },
                false,
            ),
    {
        self.ask(
            LocalRaftMessagePayload::RequestVote(
                LocalRequestVoteRequest { term, candidate_id, last_log_index, last_log_term },
            ),
            PendingQuorumTaskEnum::Vote { request_id, term },
        );
    }

    fn on_put_batch_request(&mut self, batch_id: String, requests: Vec<RemotePutRequest>)
        requires
            old(self)@.next_callback_id < u64::MAX,
        ensures
            final(self)@ == old(self)@.inbound_step(
                (RemoteQuorumMessage::PutBatchRequest { batch_id, requests })@,
                false,
            ),
    {
        self.ask(
            LocalRaftMessagePayload::WriteBatch(LocalRaftWriteBatchRequest { requests }),
            PendingQuorumTaskEnum::PutBatch { batch_id },
        );
    }

    fn on_truncate_log_request(
        &mut self,
        prev_term: u64,
        prev_index: u64,
        term: u64,
        leader_id: u32,
        request_id: u64,
    ) -> (sent: bool)
        ensures
            final(self)@ == old(self)@.inbound_step(
                MessageView::TruncateLogRequest {
                    prev_term,
                    prev_index,
                    term,
                    leader_id,
                    request_id,
                },
                sent,
            ),
            old(self)@.outbound is None ==> !sent,
    {
        let quorum_node_id: u64 = self.member_id;
        self.report(
            LocalQuorumResponse {
                response_type: LocalQuorumTaskResponseType::TruncateLog {
                    quorum_node_id,
                    prev_term,
                    prev_index,
                },
            },
        );
        self.send(RemoteQuorumMessage::TruncateLogResponse { request_id, ok: true })
    }

    /// Routes an inbound message to the appropriate handler. Says whether an
    /// answer went to the peer: only a request to truncate the log is answered
    /// here.
    pub fn handle_inbound_message(&mut self, msg: RemoteQuorumMessage) -> (sent: bool)
        requires
            old(self)@.next_callback_id < u64::MAX,
        ensures
            final(self)@ == old(self)@.inbound_step(msg@, sent),
            !(msg is TruncateLogRequest) || old(self)@.outbound is None ==> !sent,
    {
        match msg {
            RemoteQuorumMessage::VoteResponse { vote_granted, request_id, term } => {
                self.on_vote_response(request_id, term, vote_granted);
            },
            RemoteQuorumMessage::AppendEntriesAcknowledge {
                last_log_term,
                last_log_index,
                request_id,
                ok,
            } => {
                self.on_append_entries_ack(request_id, last_log_index, last_log_term, ok);
            },
            RemoteQuorumMessage::PutBatchResponse { batch_id, responses } => {
                self.on_put_batch_response(batch_id, responses);
            },
            RemoteQuorumMessage::TruncateLogResponse { request_id, ok } => {
                self.on_truncate_log_response(request_id, ok);
            },
            RemoteQuorumMessage::AppendEntriesRequest {
                term,
                leader_id,
                prev_log_index,
                prev_log_term,
                request_id,
                commit_index,
                entry,
            } => {
                self.on_append_entries_request(
                    term,
                    leader_id,
                    prev_log_index,
                    prev_log_term,
                    request_id,
                    commit_index,
                    entry,
                );
            },
            RemoteQuorumMessage::VoteRequest {
                term,
                candidate_id,
                last_log_index,
                last_log_term,
                request_id,
            } => {
                self.on_vote_request(term, candidate_id, last_log_index, last_log_term, request_id);
            },
            RemoteQuorumMessage::PutBatchRequest { batch_id, requests } => {
                self.on_put_batch_request(batch_id, requests);
            },
            RemoteQuorumMessage::TruncateLogRequest {
                prev_term,
                prev_index,
                term,
                leader_id,
                request_id,
            } => {
                return self.on_truncate_log_request(
                    prev_term,
                    prev_index,
                    term,
                    leader_id,
                    request_id,
                );
            },
            RemoteQuorumMessage::ConnectRequest => {},
            RemoteQuorumMessage::ConnectResponse => {},
        }
        false
    }

    /// Processes incoming messages from the remote node, oldest first. Handles
    /// no more than [`MAX_MESSAGES_PER_ITERATION`] at a time.
    pub fn process_incoming_messages(&mut self)
        requires
            old(self)@.next_callback_id + MAX_MESSAGES_PER_ITERATION <= u64::MAX,
        ensures
            (WorkerView {
                inbound: old(self)@.inbound.skip(old(self)@.next_messages()),
                ..old(self)@
            }).inbound_run(
                old(self)@.inbound.take(old(self)@.next_messages()),
                final(self)@,
            ),
    {
        let ghost all = self@.inbound;
        let ghost count = self@.next_messages();
        let later = if self.inbound.len() < MAX_MESSAGES_PER_ITERATION {
            Vec::new()
        } else {
            self.inbound.split_off(MAX_MESSAGES_PER_ITERATION)
        };
        let mut messages = later;
        std::mem::swap(&mut messages, &mut self.inbound);
        let ghost start = self@;
        let ghost batch = all.take(count);
        let ghost given = messages@;
        proof {
            assert(crate::quorum::quorum_worker::inbound_view(given) =~= batch);
            assert(start.inbound =~= all.skip(count));
            assert(start == (WorkerView { inbound: all.skip(count), ..old(self)@ }));
            assert(batch.take(0) =~= Seq::empty());
        }
        for message in iter: messages
            invariant
                iter.seq() == given,
                given.len() <= MAX_MESSAGES_PER_ITERATION,
                start.next_callback_id + MAX_MESSAGES_PER_ITERATION <= u64::MAX,
                self@.next_callback_id <= start.next_callback_id + iter.index(),
                crate::quorum::quorum_worker::inbound_view(given) == batch,
                start.inbound_run(batch.take(iter.index()), self@),
        {
            let ghost done = iter.index();
            let ghost before = self@;
            assert(batch[done] == message@);
            let sent: bool = self.handle_inbound_message(message);
            proof {
                assert(batch.take(done + 1).drop_last() =~= batch.take(done));
                assert(batch.take(done + 1).last() == batch[done]);
                assert(self@ == before.inbound_step(batch.take(done + 1).last(), sent));
            }
        }
        assert(batch.take(given.len() as int) =~= batch);
    }
}

} // verus!
