//! The answers of the state machine to requests of the peer.

use crate::quorum::messages::{MessageView, RemoteQuorumMessage};
use crate::quorum::quorum_worker::{
    PendingQuorumTask, PendingQuorumTaskEnum, PendingView, QuorumWorker, WorkerView,
};
use crate::quorum::types::{LocalQuorumResponse, LocalQuorumTaskResponseType};
use crate::raft::raft_sm::{
    Callback, LocalAppendEntriesCallbackResponse, LocalRaftResponseMessage,
    LocalRaftResponsePayload, ResponseView,
};
use vstd::prelude::*;

verus! {

/// What has become of the answer to a pending task.
#[derive(Debug)]
pub enum CallbackPoll {
    /// Still waiting for response.
    Empty,
    /// There will be no response.
    Closed,
    Ready(LocalRaftResponseMessage),
}

/// What a [`CallbackPoll`] says.
pub enum PollView {
    Empty,
    Closed,
    Ready(ResponseView),
}

impl View for CallbackPoll {
    type V = PollView;

    open spec fn view(&self) -> PollView {
        match *self {
            CallbackPoll::Empty => PollView::Empty,
            CallbackPoll::Closed => PollView::Closed,
            CallbackPoll::Ready(message) => PollView::Ready(message@),
        }
    }
}

/// What a list of polls says.
pub open spec fn polls_view(polls: Seq<CallbackPoll>) -> Seq<PollView> {
    polls.map_values(|p: CallbackPoll| p@)
}

/// What the peer is told of an append entries request: whether it was accepted,
/// and the index and the term of the last log entry.
pub open spec fn acknowledgement(
    response: LocalAppendEntriesCallbackResponse,
    log_index: u64,
    term: u64,
) -> (bool, u64, u64) {
    match response {
        LocalAppendEntriesCallbackResponse::Accepted => (true, log_index, term),
        LocalAppendEntriesCallbackResponse::UnrecognizedLeader => (false, log_index, term),
        LocalAppendEntriesCallbackResponse::WantedPreviousEntry { last_term, last_index } => (
            false,
            last_index,
            last_term,
        ),
        LocalAppendEntriesCallbackResponse::TruncateLog { prev_term, prev_index } => (
            false,
            prev_index,
            prev_term,
        ),
    }
}

impl WorkerView {
    /// The worker once the state machine has answered a request of the peer,
    /// where `sent` says whether the connection took the message to the peer.
    pub open spec fn answered(
        self,
        task: PendingView,
        response: ResponseView,
        sent: bool,
    ) -> WorkerView {
        match (response, task) {
            (ResponseView::RequestVote(granted), PendingView::Vote { request_id, term }) =>
                self.sending(
                MessageView::VoteResponse { vote_granted: granted, request_id, term },
                sent,
            ),
            (
                ResponseView::AppendEntries(response),
                PendingView::AppendEntries { request_id, log_index, term },
            ) => {
                let (ok, last_log_index, last_log_term) = acknowledgement(
                    response,
                    log_index,
                    term,
                );
                let told = match response {
                    LocalAppendEntriesCallbackResponse::TruncateLog { prev_term, prev_index } =>
                        self.reporting(
                        LocalQuorumResponse {
                            response_type: LocalQuorumTaskResponseType::TruncateLog {
                                quorum_node_id: self.member_id,
                                prev_term,
                                prev_index,
                            },
                        },
                    ),
                    _ => self,
                };
                told.sending(
                    MessageView::AppendEntriesAcknowledge {
                        last_log_term,
                        last_log_index,
                        request_id,
                        ok,
                    },
                    sent,
                )
            },
            (ResponseView::WriteBatch { responses, .. }, PendingView::PutBatch { batch_id }) =>
                self.sending(MessageView::PutBatchResponse { batch_id, responses }, sent),
            _ => self,
        }
    }

    /// The worker after one pending task, which goes on waiting or is done with.
    pub open spec fn pending_step(
        self,
        pending: (Callback, PendingView),
        poll: PollView,
        sent: bool,
    ) -> WorkerView {
        match poll {
            PollView::Empty => WorkerView {
                pending_tasks: self.pending_tasks.push(pending),
                ..self
            },
            PollView::Closed => self,
            PollView::Ready(response) => self.answered(pending.1, response, sent),
        }
    }

    /// Whether the worker comes to `after` by going through `pending`, oldest
    /// first, with `polls` as what has become of each.
    pub open spec fn pending_run(
        self,
        pending: Seq<(Callback, PendingView)>,
        polls: Seq<PollView>,
        after: WorkerView,
    ) -> bool
        decreases pending.len(),
    {
        if pending.len() == 0 {
            after == self
        } else {
            exists|middle: WorkerView, sent: bool|
                self.pending_run(pending.drop_last(), polls.drop_last(), middle) && after
                    == #[trigger] middle.pending_step(pending.last(), polls.last(), sent)
        }
    }
}

/// Whether a response answers a task, so that the peer is told of it.
pub open spec fn is_answer(task: PendingView, response: ResponseView) -> bool {
    match task {
        PendingView::Vote { .. } => response is RequestVote,
        PendingView::AppendEntries { .. } => response is AppendEntries,
        PendingView::PutBatch { .. } => response is WriteBatch,
    }
}

impl QuorumWorker {
    /// Handles a pending task response by sending the appropriate message back.
    /// Says whether it was sent.
    pub fn handle_pending_task_response(
        &mut self,
        task: PendingQuorumTaskEnum,
        response: LocalRaftResponseMessage,
    ) -> (sent: bool)
        ensures
            forall|callback: Callback|
                {
                    let pending = (#[trigger] (PendingQuorumTask { callback, task })@).1;
                    &&& final(self)@ == old(self)@.answered(pending, response@, sent)
                    &&& !is_answer(pending, response@) || old(self)@.outbound is None ==> !sent
                },
    {
        match (response.payload, task) {
            (
                LocalRaftResponsePayload::RequestVote(granted),
                PendingQuorumTaskEnum::Vote { request_id, term },
            ) => self.send(
                RemoteQuorumMessage::VoteResponse { vote_granted: granted, request_id, term },
            ),
            (
                LocalRaftResponsePayload::AppendEntries(response),
                PendingQuorumTaskEnum::AppendEntries { request_id, log_index, term },
            ) => {
                let (ok, last_log_index, last_log_term) = match response {
                    LocalAppendEntriesCallbackResponse::Accepted => (true, log_index, term),
                    LocalAppendEntriesCallbackResponse::UnrecognizedLeader => {
                        (false, log_index, term)
                    },
                    LocalAppendEntriesCallbackResponse::WantedPreviousEntry {
                        last_term,
                        last_index,
                    } => (false, last_index, last_term),
                    LocalAppendEntriesCallbackResponse::TruncateLog { prev_term, prev_index } => {
                        let quorum_node_id: u64 = self.member_id;
                        self.report(
                            LocalQuorumResponse {
                                response_type: LocalQuorumTaskResponseType::TruncateLog {
                                    quorum_node_id,
                                    prev_term,
                                    prev_index,
                                },
                            },
                        );
                        (false, prev_index, prev_term)
                    },
                };
                self.send(
                    RemoteQuorumMessage::AppendEntriesAcknowledge {
                        last_log_term,
                        last_log_index,
                        request_id,
                        ok,
                    },
                )
            },
            (
                LocalRaftResponsePayload::WriteBatch(response),
                PendingQuorumTaskEnum::PutBatch { batch_id },
            ) => self.send(
                RemoteQuorumMessage::PutBatchResponse { batch_id, responses: response.responses },
            ),
            _ => false,
        }
    }

    /// Processes pending task responses: `polls` says what has become of each.
    pub fn process_pending_task_responses(&mut self, polls: Vec<CallbackPoll>)
        requires
            polls@.len() == old(self)@.pending_tasks.len(),
        ensures
            (WorkerView { pending_tasks: Seq::empty(), ..old(self)@ }).pending_run(
                old(self)@.pending_tasks,
                polls_view(polls@),
                final(self)@,
            ),
    {
        let ghost all = self@.pending_tasks;
        let ghost views = polls_view(polls@);
        let mut tasks: Vec<PendingQuorumTask> = Vec::new();
        std::mem::swap(&mut tasks, &mut self.pending_tasks);
        let mut polls = polls;
        let ghost given = tasks@;
        let ghost given_polls = polls@;
        let ghost start = self@;
        proof {
            assert(start.pending_tasks =~= Seq::empty());
            assert(start == (WorkerView { pending_tasks: Seq::empty(), ..old(self)@ }));
            assert(all.take(0) =~= Seq::empty());
        }
        for task in iter: tasks
            invariant
                iter.seq() == given,
                crate::quorum::quorum_worker::pending_view(given) == all,
                polls_view(given_polls) == views,
                given_polls.len() == given.len(),
                polls@ == given_polls.skip(iter.index()),
                start.pending_run(all.take(iter.index()), views.take(iter.index()), self@),
        {
            let ghost done = iter.index();
            let ghost before = self@;
            let ghost pending = task@;
            let poll = polls.remove(0);
            proof {
                assert(polls@ =~= given_polls.skip(done + 1));
                assert(poll == given_polls[done]);
                assert(all[done] == pending);
                assert(views[done] == poll@);
            }
            let callback = task.callback;
            let mut sent: bool = false;
            match poll {
                CallbackPoll::Empty => {
                    self.pending_tasks.push(task);
                    assert(self@.pending_tasks =~= before.pending_tasks.push(pending));
                },
                CallbackPoll::Closed => {},
                CallbackPoll::Ready(response) => {
                    let ghost kind = task.task;
                    sent = self.handle_pending_task_response(task.task, response);
                    assert((PendingQuorumTask { callback, task: kind })@ == pending);
                },
            }
            proof {
                let longer = all.take(done + 1);
                let polled = views.take(done + 1);
                assert(longer.drop_last() =~= all.take(done));
                assert(polled.drop_last() =~= views.take(done));
                assert(self@ == before.pending_step(longer.last(), polled.last(), sent));
            }
        }
        proof {
            assert(all.take(given.len() as int) =~= all);
            assert(views.take(given.len() as int) =~= views);
        }
    }
}

} // verus!
