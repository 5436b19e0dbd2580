//! The worker that keeps the votes and the log on disk.
//!
//! The worker decides what is to be done and in what order; it leaves the
//! actions in a list, and whoever owns the files carries them out.

use std::sync::Arc;
use vstd::prelude::*;
use vstd::string::StringExecFns;

verus! {

/// A task for the persistence worker.
pub enum PersistenceTaskType {
    AppendVote { id: u64, term: u64, candidate_id: u32 },
    AppendLog { id: u64, data: Arc<Vec<u8>>, request_id: u64 },
    TruncateLog { target_length: usize },
}

/// What a persistence task asks for.
pub enum PersistenceTaskView {
    AppendVote { id: u64, term: u64, candidate_id: u32 },
    AppendLog { id: u64, data: Seq<u8>, request_id: u64 },
    TruncateLog { target_length: usize },
}

impl View for PersistenceTaskType {
    type V = PersistenceTaskView;

    open spec fn view(&self) -> PersistenceTaskView {
        match *self {
            PersistenceTaskType::AppendVote { id, term, candidate_id } =>
                PersistenceTaskView::AppendVote { id, term, candidate_id },
            PersistenceTaskType::AppendLog { id, data, request_id } =>
                PersistenceTaskView::AppendLog { id, data: data@, request_id },
            PersistenceTaskType::TruncateLog { target_length } =>
                PersistenceTaskView::TruncateLog { target_length },
        }
    }
}

/// One row of the file of votes.
#[derive(Clone, Copy, Debug, PartialEq, Eq, Structural)]
pub struct VoteRow {
    pub term: u64,
    pub candidate_id: u32,
}

/// What the persistence worker reports once a task is on disk.
#[derive(Clone, Copy, Debug, PartialEq, Eq, Structural)]
pub enum PersistenceResponseType {
    VotePersisted { id: u64, term: u64, candidate_id: u32 },
    LogPersisted { id: u64 },
}

pub struct PersistenceConfig {
    pub out_dir: String,
}

/// The name of the file of the log, within the directory of the worker.
pub const LOG_FILE: &'static str = "log.capnp";

/// The name of the file of the votes, within the directory of the worker.
pub const VOTES_FILE: &'static str = "votes.csv";

impl PersistenceConfig {
    /// Where the log is.
    pub fn log_path(&self) -> (path: String)
        ensures
            path@ == self.out_dir@ + LOG_FILE@,
    {
        let mut path = self.out_dir.clone();
        path.append(LOG_FILE);
        path
    }

    /// Where the votes are.
    pub fn votes_path(&self) -> (path: String)
        ensures
            path@ == self.out_dir@ + VOTES_FILE@,
    {
        let mut path = self.out_dir.clone();
        path.append(VOTES_FILE);
        path
    }
}

/// How many log entries are written before they are flushed.
pub const BATCH_SIZE: usize = 32;

/// One thing to be done with the files, or told of them.
pub enum DiskAction {
    /// Write to the log, through the buffer.
    WriteLog(Arc<Vec<u8>>),
    /// Write what the buffer of the log holds to the file.
    FlushLog,
    /// Cut the file of the log to a length in bytes.
    SetLogLength(u64),
    /// Append a vote to the file of votes, and flush it.
    WriteVote(VoteRow),
    /// Report that something is on disk.
    Respond(PersistenceResponseType),
}

/// What a [`DiskAction`] asks for.
pub enum ActionView {
    WriteLog(Seq<u8>),
    FlushLog,
    SetLogLength(u64),
    WriteVote(VoteRow),
    Respond(PersistenceResponseType),
}

impl View for DiskAction {
    type V = ActionView;

    open spec fn view(&self) -> ActionView {
        match *self {
            DiskAction::WriteLog(data) => ActionView::WriteLog(data@),
            DiskAction::FlushLog => ActionView::FlushLog,
            DiskAction::SetLogLength(length) => ActionView::SetLogLength(length),
            DiskAction::WriteVote(row) => ActionView::WriteVote(row),
            DiskAction::Respond(response) => ActionView::Respond(response),
        }
    }
}

/// What a list of actions asks for.
pub open spec fn actions_view(actions: Seq<DiskAction>) -> Seq<ActionView> {
    actions.map_values(|a: DiskAction| a@)
}

/// What reaches the worker.
pub enum PersistenceEvent {
    Task(PersistenceTaskType),
    /// Nothing is left in the queue, for now.
    Drained,
    /// Nothing has come for a while.
    Timeout,
    /// Nothing will come any more.
    Disconnected,
}

pub struct PersistenceWorker {
    pub persistence_config: PersistenceConfig,
    /// Where each entry of the log ends, in bytes from the start of the file.
    pub entry_end_offsets: Vec<u64>,
    /// What is to be reported once the log has been flushed.
    pub pending_log_responses: Vec<PersistenceResponseType>,
    /// What is to be done, oldest first.
    pub actions: Vec<DiskAction>,
}

/// What a [`PersistenceWorker`] holds.
#[verifier::ext_equal]
pub struct PersistenceView {
    pub out_dir: Seq<char>,
    pub offsets: Seq<u64>,
    pub pending: Seq<PersistenceResponseType>,
    pub actions: Seq<ActionView>,
}

impl View for PersistenceWorker {
    type V = PersistenceView;

    open spec fn view(&self) -> PersistenceView {
        PersistenceView {
            out_dir: self.persistence_config.out_dir@,
            offsets: self.entry_end_offsets@,
            pending: self.pending_log_responses@,
            actions: actions_view(self.actions@),
        }
    }
}

/// The actions that report `responses`, in order.
pub open spec fn reports(responses: Seq<PersistenceResponseType>) -> Seq<ActionView> {
    responses.map_values(|r: PersistenceResponseType| ActionView::Respond(r))
}

impl PersistenceView {
    /// Where the log ends, in bytes.
    pub open spec fn log_end(self) -> u64 {
        if self.offsets.len() == 0 {
            0
        } else {
            self.offsets.last()
        }
    }

    /// Where the first `count` entries of the log end, in bytes.
    pub open spec fn end_of(self, count: int) -> u64 {
        if count == 0 {
            0
        } else {
            self.offsets[count - 1]
        }
    }

    /// The worker with one action more to be done.
    pub open spec fn doing(self, action: ActionView) -> PersistenceView {
        PersistenceView { actions: self.actions.push(action), ..self }
    }

    /// The worker once what was written has been flushed and reported. Nothing
    /// is done where nothing is to be reported.
    pub open spec fn flushed(self) -> PersistenceView {
        if self.pending.len() == 0 {
            self
        } else {
            PersistenceView {
                actions: self.actions.push(ActionView::FlushLog) + reports(self.pending),
                pending: Seq::empty(),
                ..self
            }
        }
    }

    /// Whether the worker can do a task: the log can grow so far, or has as many entries.
    pub open spec fn accepts(self, task: PersistenceTaskView) -> bool {
        match task {
            PersistenceTaskView::AppendVote { .. } => true,
            PersistenceTaskView::AppendLog { data, .. } => self.log_end() + data.len() <= u64::MAX,
            PersistenceTaskView::TruncateLog { target_length } => target_length
                <= self.offsets.len(),
        }
    }

    /// The worker with one entry more written, but not flushed.
    pub open spec fn appended(self, id: u64, data: Seq<u8>) -> PersistenceView {
        PersistenceView {
            offsets: self.offsets.push((self.log_end() + data.len()) as u64),
            pending: self.pending.push(PersistenceResponseType::LogPersisted { id }),
            actions: self.actions.push(ActionView::WriteLog(data)),
            ..self
        }
    }

    /// The worker with the log cut to its first `count` entries.
    pub open spec fn truncated(self, count: int) -> PersistenceView {
        PersistenceView {
            offsets: self.offsets.take(count),
            actions: self.actions.push(ActionView::SetLogLength(self.end_of(count))),
            ..self
        }
    }

    /// The worker after a task.
    ///
    /// Entries are flushed `batch_size` at a time. A vote or a cut has what was
    /// written before it flushed first.
    pub open spec fn processed(
        self,
        task: PersistenceTaskView,
        batch_size: usize,
    ) -> PersistenceView {
        match task {
            PersistenceTaskView::AppendVote { id, term, candidate_id } => self.flushed().doing(
                ActionView::WriteVote(VoteRow { term, candidate_id }),
            ).doing(
                ActionView::Respond(
                    PersistenceResponseType::VotePersisted { id, term, candidate_id },
                ),
            ),
            PersistenceTaskView::AppendLog { id, data, .. } => {
                let written = self.appended(id, data);
                if written.pending.len() >= batch_size {
                    written.flushed()
                } else {
                    written
                }
            },
            PersistenceTaskView::TruncateLog { target_length } => self.flushed().truncated(
                target_length as int,
            ),
        }
    }
}

impl PersistenceWorker {
    pub fn new(persistence_config: PersistenceConfig, entry_end_offsets: Vec<u64>) -> (worker: Self)
        ensures
            worker@ == (PersistenceView {
                out_dir: persistence_config.out_dir@,
                offsets: entry_end_offsets@,
                pending: Seq::empty(),
                actions: Seq::empty(),
            }),
    {
        PersistenceWorker {
            persistence_config,
            entry_end_offsets,
            pending_log_responses: Vec::new(),
            actions: Vec::new(),
        }
    }

    pub fn set_entry_end_offsets(&mut self, offsets: Vec<u64>)
        ensures
            final(self)@ == (PersistenceView { offsets: offsets@, ..old(self)@ }),
    {
        self.entry_end_offsets = offsets;
    }

    fn act(&mut self, action: DiskAction)
        ensures
            final(self)@ == old(self)@.doing(action@),
    {
        self.actions.push(action);
        assert(self@.actions =~= old(self)@.actions.push(action@));
    }

    /// Hands over what is to be done, oldest first.
    pub fn take_actions(&mut self) -> (actions: Vec<DiskAction>)
        ensures
            actions_view(actions@) == old(self)@.actions,
            final(self)@ == (PersistenceView { actions: Seq::empty(), ..old(self)@ }),
    {
        let mut actions = Vec::new();
        std::mem::swap(&mut actions, &mut self.actions);
        assert(self@.actions =~= Seq::empty());
        actions
    }

    /// Whether the worker can do a task. A longer log than a file can hold, and
    /// a cut to more entries than there are, are refused.
    pub fn accepts(&self, task: &PersistenceTaskType) -> (accepted: bool)
        ensures
            accepted == self@.accepts(task@),
    {
        match task {
            PersistenceTaskType::AppendVote { .. } => true,
            PersistenceTaskType::AppendLog { data, .. } => {
                let length: usize = data.len();
                length as u64 <= u64::MAX - self.log_end()
            },
            PersistenceTaskType::TruncateLog { target_length } => {
                *target_length <= self.entry_end_offsets.len()
            },
        }
    }

    fn log_end(&self) -> (end: u64)
        ensures
            end == self@.log_end(),
    {
        let count: usize = self.entry_end_offsets.len();
        if count == 0 {
            0
        } else {
            self.entry_end_offsets[count - 1]
        }
    }

    pub fn process_task(&mut self, task: PersistenceTaskType, batch_size: usize)
        requires
            old(self)@.accepts(task@),
        ensures
            final(self)@ == old(self)@.processed(task@, batch_size),
    {
        match task {
            PersistenceTaskType::AppendVote { id, term, candidate_id } => {
                // Flush any pending log writes before handling vote
                self.flush_pending_logs();
                self.persist_vote(term, candidate_id);
                self.act(
                    DiskAction::Respond(
                        PersistenceResponseType::VotePersisted { id, term, candidate_id },
                    ),
                );
            },
            PersistenceTaskType::AppendLog { id, data, request_id: _ } => {
                let data_len: usize = data.len();
                // Write to buffer without flushing
                self.write_log_entry(data);

                // Track byte end offset for this entry
                let last_end: u64 = self.log_end();
                self.entry_end_offsets.push(last_end + data_len as u64);

                // Queue response for later (after flush)
                self.pending_log_responses.push(PersistenceResponseType::LogPersisted { id });
                assert(self@ == old(self)@.appended(id, data@));

                // Flush if batch is full
                if self.pending_log_responses.len() >= batch_size {
                    self.flush_pending_logs();
                }
            },
            PersistenceTaskType::TruncateLog { target_length } => {
                // Flush any pending log writes before truncation
                self.flush_pending_logs();
                let truncation_position: u64 = if target_length == 0 {
                    0
                } else {
                    self.entry_end_offsets[target_length - 1]
                };
                self.act(DiskAction::SetLogLength(truncation_position));
                self.entry_end_offsets.truncate(target_length);
                assert(self@ =~= old(self)@.flushed().truncated(target_length as int));
            },
        }
    }

    pub fn persist_vote(&mut self, term: u64, candidate_id: u32)
        ensures
            final(self)@ == old(self)@.doing(
                ActionView::WriteVote(VoteRow { term, candidate_id }),
            ),
    {
        self.act(DiskAction::WriteVote(VoteRow { term, candidate_id }));
    }

    /// Writes a log entry to the buffer without flushing.
    /// Used for batching multiple writes before a single flush.
    fn write_log_entry(&mut self, buffer: Arc<Vec<u8>>)
        ensures
            final(self)@ == old(self)@.doing(ActionView::WriteLog(buffer@)),
    {
        self.act(DiskAction::WriteLog(buffer));
    }

    /// Flushes pending log writes and sends all queued responses.
    /// Returns the number of responses sent.
    pub fn flush_pending_logs(&mut self) -> (count: usize)
        ensures
            count == old(self)@.pending.len(),
            final(self)@ == old(self)@.flushed(),
    {
        let count: usize = self.pending_log_responses.len();
        if count == 0 {
            return 0;
        }
        self.act(DiskAction::FlushLog);
        let ghost start = self@.actions;
        let mut responses = Vec::new();
        std::mem::swap(&mut responses, &mut self.pending_log_responses);
        let ghost all = responses@;
        let ghost emptied = self@;
        assert(reports(all).take(0) =~= Seq::empty());
        for response in iter: responses
            invariant
                iter.seq() == all,
                self@ == (PersistenceView {
                    actions: start + reports(all).take(iter.index()),
                    ..emptied
                }),
        {
            self.act(DiskAction::Respond(response));
            assert(reports(all).take(iter.index() + 1) =~= reports(all).take(iter.index()).push(
                ActionView::Respond(response),
            ));
            assert(self@.actions =~= start + reports(all).take(iter.index() + 1));
        }
        assert(reports(all).take(all.len() as int) =~= reports(all));
        assert(self@ =~= old(self)@.flushed());
        count
    }

    /// Takes what has come in. Returns whether the worker goes on.
    pub fn handle_event(&mut self, event: PersistenceEvent) -> (running: bool)
        requires
            event matches PersistenceEvent::Task(task) ==> old(self)@.accepts(task@),
        ensures
            running == !(event is Disconnected),
            final(self)@ == match event {
                PersistenceEvent::Task(task) => old(self)@.processed(task@, BATCH_SIZE),
                _ => old(self)@.flushed(),
            },
    {
        match event {
            PersistenceEvent::Task(task) => {
                self.process_task(task, BATCH_SIZE);
                true
            },
            PersistenceEvent::Drained => {
                self.flush_pending_logs();
                true
            },
            PersistenceEvent::Timeout => {
                self.flush_pending_logs();
                true
            },
            PersistenceEvent::Disconnected => {
                self.flush_pending_logs();
                false
            },
        }
    }
}

} // verus!
