//! What the actions of the persistence worker do to the file of the log, and
//! what can be relied on of it.

use crate::persistence::worker::{
    ActionView, BATCH_SIZE, PersistenceResponseType, PersistenceTaskView, PersistenceView,
};
use vstd::prelude::*;

verus! {

/// The file of the log together with the buffer in front of it.
#[verifier::ext_equal]
pub struct LogFile {
    /// What has been written, whether or not it has left the buffer.
    pub written: Seq<u8>,
    /// So many bytes at least have left the buffer.
    pub flushed: int,
}

impl LogFile {
    /// The file after an action.
    pub open spec fn after_action(self, action: ActionView) -> LogFile {
        match action {
            ActionView::WriteLog(data) => LogFile { written: self.written + data, ..self },
            ActionView::FlushLog => LogFile { flushed: self.written.len() as int, ..self },
            ActionView::SetLogLength(length) => LogFile {
                written: self.written.take(length as int),
                flushed: if self.flushed < length {
                    self.flushed
                } else {
                    length as int
                },
            },
            ActionView::WriteVote(_) => self,
            ActionView::Respond(_) => self,
        }
    }

    /// The file after one action after the other.
    pub open spec fn after(self, actions: Seq<ActionView>) -> LogFile
        decreases actions.len(),
    {
        if actions.len() == 0 {
            self
        } else {
            self.after(actions.drop_last()).after_action(actions.last())
        }
    }

    /// Whether nothing is left in the buffer.
    pub open spec fn is_flushed(self) -> bool {
        self.flushed == self.written.len()
    }

    /// Whether nothing is reported to be in the log while some of the log is
    /// still in the buffer.
    pub open spec fn is_orderly(self, actions: Seq<ActionView>) -> bool
        decreases actions.len(),
    {
        actions.len() > 0 ==> {
            &&& self.is_orderly(actions.drop_last())
            &&& actions.last() matches ActionView::Respond(
                PersistenceResponseType::LogPersisted { .. },
            ) ==> self.after(actions.drop_last()).is_flushed()
        }
    }
}

/// One entry after the other.
pub open spec fn joined(entries: Seq<Seq<u8>>) -> Seq<u8>
    decreases entries.len(),
{
    if entries.len() == 0 {
        Seq::empty()
    } else {
        joined(entries.drop_last()) + entries.last()
    }
}

/// The entries of the log after a task.
pub open spec fn entries_after(entries: Seq<Seq<u8>>, task: PersistenceTaskView) -> Seq<Seq<u8>> {
    match task {
        PersistenceTaskView::AppendVote { .. } => entries,
        PersistenceTaskView::AppendLog { data, .. } => entries.push(data),
        PersistenceTaskView::TruncateLog { target_length } => entries.take(target_length as int),
    }
}

/// What is reported by a task, at once or later.
pub open spec fn reported_of(task: PersistenceTaskView) -> Seq<PersistenceResponseType> {
    match task {
        PersistenceTaskView::AppendVote { id, term, candidate_id } => seq![
            PersistenceResponseType::VotePersisted { id, term, candidate_id },
        ],
        PersistenceTaskView::AppendLog { id, .. } => seq![
            PersistenceResponseType::LogPersisted { id },
        ],
        PersistenceTaskView::TruncateLog { .. } => Seq::empty(),
    }
}

/// What some actions report, in order.
pub open spec fn reported(actions: Seq<ActionView>) -> Seq<PersistenceResponseType>
    decreases actions.len(),
{
    if actions.len() == 0 {
        Seq::empty()
    } else {
        match actions.last() {
            ActionView::Respond(response) => reported(actions.drop_last()).push(response),
            _ => reported(actions.drop_last()),
        }
    }
}

impl PersistenceView {
    /// Whether the worker keeps account of a log of `entries`: once its actions
    /// are done to `file`, the file holds the entries one after the other, the
    /// offsets say where each ends, and what the worker has nothing to report
    /// of has left the buffer.
    pub open spec fn keeps(self, file: LogFile, entries: Seq<Seq<u8>>) -> bool {
        &&& file.after(self.actions).written == joined(entries)
        &&& self.offsets.len() == entries.len()
        &&& forall|i: int|
            0 <= i < entries.len() ==> #[trigger] self.offsets[i] == joined(
                entries.take(i + 1),
            ).len()
        &&& self.pending.len() == 0 ==> file.after(self.actions).is_flushed()
        &&& file.is_orderly(self.actions)
        &&& forall|i: int|
            0 <= i < self.pending.len() ==> #[trigger] self.pending[i] is LogPersisted
    }

    /// Whether the offsets fit the log: no entry ends before the one in front of
    /// it, and the last ends where the log does, once the actions of the worker
    /// are done to `file`.
    pub open spec fn measures(self, file: LogFile) -> bool {
        &&& forall|i: int, j: int|
            0 <= i <= j < self.offsets.len() ==> self.offsets[i] <= self.offsets[j]
        &&& self.log_end() == file.after(self.actions).written.len()
    }

    /// What the worker has reported and will report.
    pub open spec fn announced(self) -> Seq<PersistenceResponseType> {
        reported(self.actions) + self.pending
    }
}

proof fn lemma_after_push(file: LogFile, actions: Seq<ActionView>, action: ActionView)
    ensures
        file.after(actions.push(action)) == file.after(actions).after_action(action),
        file.is_orderly(actions.push(action)) <==> file.is_orderly(actions) && (
        action matches ActionView::Respond(PersistenceResponseType::LogPersisted { .. })
            ==> file.after(actions).is_flushed()),
        reported(actions.push(action)) == reported(actions) + match action {
            ActionView::Respond(response) => seq![response],
            _ => Seq::empty(),
        },
{
    assert(actions.push(action).drop_last() =~= actions);
    assert(actions.push(action).last() == action);
    assert(reported(actions.push(action)) =~= reported(actions) + match action {
        ActionView::Respond(response) => seq![response],
        _ => Seq::empty(),
    });
}

/// Reports leave the file as it is, and are in order where it is flushed.
proof fn lemma_after_reports(
    file: LogFile,
    actions: Seq<ActionView>,
    responses: Seq<PersistenceResponseType>,
)
    ensures
        file.after(actions + crate::persistence::worker::reports(responses)) == file.after(actions),
        file.after(actions).is_flushed() && file.is_orderly(actions) ==> file.is_orderly(
            actions + crate::persistence::worker::reports(responses),
        ),
        reported(actions + crate::persistence::worker::reports(responses)) == reported(actions)
            + responses,
    decreases responses.len(),
{
    let all = crate::persistence::worker::reports(responses);
    if responses.len() == 0 {
        assert(actions + all =~= actions);
        assert(reported(actions) + responses =~= reported(actions));
    } else {
        let fewer = crate::persistence::worker::reports(responses.drop_last());
        lemma_after_reports(file, actions, responses.drop_last());
        assert(actions + all =~= (actions + fewer).push(ActionView::Respond(responses.last())));
        lemma_after_push(file, actions + fewer, ActionView::Respond(responses.last()));
        assert(reported(actions) + responses.drop_last() + seq![responses.last()] =~= reported(
            actions,
        ) + responses);
    }
}

/// A flush keeps the account of the log, and leaves nothing in the buffer.
pub proof fn law_flush_keeps_log(worker: PersistenceView, file: LogFile, entries: Seq<Seq<u8>>)
    requires
        worker.keeps(file, entries),
    ensures
        worker.flushed().keeps(file, entries),
        file.after(worker.flushed().actions).is_flushed(),
        worker.flushed().pending.len() == 0,
        worker.flushed().announced() == worker.announced(),
{
    if worker.pending.len() > 0 {
        let flush = worker.actions.push(ActionView::FlushLog);
        lemma_after_push(file, worker.actions, ActionView::FlushLog);
        lemma_after_reports(file, flush, worker.pending);
        assert(worker.flushed().announced() =~= worker.announced());
    }
}

proof fn lemma_joined_push(entries: Seq<Seq<u8>>, entry: Seq<u8>)
    ensures
        joined(entries.push(entry)) == joined(entries) + entry,
{
    assert(entries.push(entry).drop_last() =~= entries);
}

/// The first entries of a log are what it starts with.
proof fn lemma_joined_take(entries: Seq<Seq<u8>>, count: int)
    requires
        0 <= count <= entries.len(),
    ensures
        joined(entries.take(count)).len() <= joined(entries).len(),
        joined(entries).take(joined(entries.take(count)).len() as int) == joined(
            entries.take(count),
        ),
    decreases entries.len(),
{
    if count == entries.len() {
        assert(entries.take(count) =~= entries);
        assert(joined(entries).take(joined(entries).len() as int) =~= joined(entries));
    } else {
        lemma_joined_take(entries.drop_last(), count);
        assert(entries.drop_last().take(count) =~= entries.take(count));
        assert(joined(entries).take(joined(entries.take(count)).len() as int) =~= joined(
            entries.drop_last(),
        ).take(joined(entries.take(count)).len() as int));
    }
}

/// The offsets of a log of `entries` say where it ends.
proof fn lemma_log_end(worker: PersistenceView, file: LogFile, entries: Seq<Seq<u8>>)
    requires
        worker.keeps(file, entries),
    ensures
        worker.log_end() == joined(entries).len(),
{
    if entries.len() > 0 {
        assert(entries.take(entries.len() as int) =~= entries);
        assert(worker.offsets[entries.len() - 1] == joined(
            entries.take(entries.len() - 1 + 1),
        ).len());
    }
}

/// Appending an entry keeps the account of the log.
proof fn lemma_append_keeps_log(
    worker: PersistenceView,
    file: LogFile,
    entries: Seq<Seq<u8>>,
    id: u64,
    data: Seq<u8>,
)
    requires
        worker.keeps(file, entries),
        worker.log_end() + data.len() <= u64::MAX,
    ensures
        worker.appended(id, data).keeps(file, entries.push(data)),
{
    let after = worker.appended(id, data);
    lemma_after_push(file, worker.actions, ActionView::WriteLog(data));
    lemma_joined_push(entries, data);
    lemma_log_end(worker, file, entries);
    assert forall|i: int| 0 <= i < entries.push(data).len() implies #[trigger] after.offsets[i]
        == joined(entries.push(data).take(i + 1)).len() by {
        if i < entries.len() {
            assert(entries.push(data).take(i + 1) =~= entries.take(i + 1));
            assert(worker.offsets[i] == joined(entries.take(i + 1)).len());
        } else {
            assert(entries.push(data).take(i + 1) =~= entries.push(data));
        }
    }
}

/// The worker keeps account of the log through every task: an append adds an
/// entry, a cut leaves exactly the first entries, and a vote changes nothing.
/// No entry is reported before all that was written has left the buffer.
pub proof fn law_task_keeps_log(
    worker: PersistenceView,
    file: LogFile,
    entries: Seq<Seq<u8>>,
    task: PersistenceTaskView,
    batch_size: usize,
)
    requires
        worker.keeps(file, entries),
        worker.accepts(task),
    ensures
        worker.processed(task, batch_size).keeps(file, entries_after(entries, task)),
{
    law_flush_keeps_log(worker, file, entries);
    let flushed = worker.flushed();
    match task {
        PersistenceTaskView::AppendVote { id, term, candidate_id } => {
            let row = crate::persistence::worker::VoteRow { term, candidate_id };
            lemma_after_push(file, flushed.actions, ActionView::WriteVote(row));
            lemma_after_push(
                file,
                flushed.actions.push(ActionView::WriteVote(row)),
                ActionView::Respond(
                    PersistenceResponseType::VotePersisted { id, term, candidate_id },
                ),
            );
        },
        PersistenceTaskView::AppendLog { id, data, .. } => {
            lemma_append_keeps_log(worker, file, entries, id, data);
            law_flush_keeps_log(worker.appended(id, data), file, entries.push(data));
        },
        PersistenceTaskView::TruncateLog { target_length } => {
            let count = target_length as int;
            let after = flushed.truncated(count);
            lemma_after_push(
                file,
                flushed.actions,
                ActionView::SetLogLength(flushed.end_of(count)),
            );
            lemma_joined_take(entries, count);
            if count == 0 {
                assert(entries.take(0) =~= Seq::empty());
            } else {
                assert(flushed.offsets[count - 1] == joined(entries.take(count - 1 + 1)).len());
            }
            assert forall|i: int| 0 <= i < entries.take(count).len() implies #[trigger]
                after.offsets[i] == joined(entries.take(count).take(i + 1)).len() by {
                assert(entries.take(count).take(i + 1) =~= entries.take(i + 1));
                assert(flushed.offsets[i] == joined(entries.take(i + 1)).len());
            }
        },
    }
}

/// A flush does not move the end of the log, and reports what was to be reported.
proof fn lemma_flush_measures(worker: PersistenceView, file: LogFile)
    ensures
        file.after(worker.flushed().actions).written == file.after(worker.actions).written,
        reported(worker.flushed().actions) == worker.announced(),
{
    if worker.pending.len() > 0 {
        let flush = worker.actions.push(ActionView::FlushLog);
        lemma_after_push(file, worker.actions, ActionView::FlushLog);
        lemma_after_reports(file, flush, worker.pending);
        assert(reported(worker.actions) + Seq::<PersistenceResponseType>::empty() =~= reported(
            worker.actions,
        ));
    } else {
        assert(worker.announced() =~= reported(worker.actions));
    }
}

/// The offsets fit the log through every task. An append adds the end of the
/// entry; a cut leaves the first offsets, and as many bytes as the last of them
/// says; a vote changes no offset, and is reported behind every entry that was
/// written before it.
pub proof fn law_offsets_fit_the_log(
    worker: PersistenceView,
    file: LogFile,
    task: PersistenceTaskView,
    batch_size: usize,
)
    requires
        worker.measures(file),
        worker.accepts(task),
    ensures
        ({
            let after = worker.processed(task, batch_size);
            &&& after.measures(file)
            &&& match task {
                PersistenceTaskView::AppendLog { data, .. } => {
                    &&& after.offsets == worker.offsets.push((worker.log_end() + data.len()) as u64)
                    &&& file.after(after.actions).written == file.after(worker.actions).written
                        + data
                },
                PersistenceTaskView::TruncateLog { target_length } => {
                    &&& after.offsets == worker.offsets.take(target_length as int)
                    &&& file.after(after.actions).written == file.after(
                        worker.actions,
                    ).written.take(worker.end_of(target_length as int) as int)
                },
                PersistenceTaskView::AppendVote { id, term, candidate_id } => {
                    &&& after.offsets == worker.offsets
                    &&& file.after(after.actions).written == file.after(worker.actions).written
                    &&& after.pending.len() == 0
                    &&& reported(after.actions) == worker.announced().push(
                        PersistenceResponseType::VotePersisted { id, term, candidate_id },
                    )
                },
            }
        }),
{
    lemma_flush_measures(worker, file);
    let flushed = worker.flushed();
    let after = worker.processed(task, batch_size);
    match task {
        PersistenceTaskView::AppendVote { id, term, candidate_id } => {
            let row = crate::persistence::worker::VoteRow { term, candidate_id };
            let response = PersistenceResponseType::VotePersisted { id, term, candidate_id };
            let voted = flushed.actions.push(ActionView::WriteVote(row));
            lemma_after_push(file, flushed.actions, ActionView::WriteVote(row));
            lemma_after_push(file, voted, ActionView::Respond(response));
            assert(reported(after.actions) =~= worker.announced().push(response));
        },
        PersistenceTaskView::AppendLog { id, data, .. } => {
            lemma_after_push(file, worker.actions, ActionView::WriteLog(data));
            lemma_flush_measures(worker.appended(id, data), file);
            assert forall|i: int, j: int| 0 <= i <= j < after.offsets.len() implies after.offsets[i]
                <= after.offsets[j] by {
                if i < worker.offsets.len() {
                    assert(worker.offsets[i] <= worker.offsets[worker.offsets.len() - 1]);
                }
            }
        },
        PersistenceTaskView::TruncateLog { target_length } => {
            let count = target_length as int;
            if count > 0 {
                assert(worker.offsets[count - 1] <= worker.offsets[worker.offsets.len() - 1]);
            }
            lemma_after_push(
                file,
                flushed.actions,
                ActionView::SetLogLength(flushed.end_of(count)),
            );
        },
    }
}

/// Every append and every vote is reported, once and in the order in which the
/// tasks came; a cut is not reported.
pub proof fn law_task_is_reported(
    worker: PersistenceView,
    file: LogFile,
    entries: Seq<Seq<u8>>,
    task: PersistenceTaskView,
    batch_size: usize,
)
    requires
        worker.keeps(file, entries),
        worker.accepts(task),
    ensures
        worker.processed(task, batch_size).announced() == worker.announced() + reported_of(task),
{
    law_flush_keeps_log(worker, file, entries);
    let flushed = worker.flushed();
    match task {
        PersistenceTaskView::AppendVote { id, term, candidate_id } => {
            let row = crate::persistence::worker::VoteRow { term, candidate_id };
            lemma_after_push(file, flushed.actions, ActionView::WriteVote(row));
            lemma_after_push(
                file,
                flushed.actions.push(ActionView::WriteVote(row)),
                ActionView::Respond(
                    PersistenceResponseType::VotePersisted { id, term, candidate_id },
                ),
            );
        },
        PersistenceTaskView::AppendLog { id, data, .. } => {
            lemma_append_keeps_log(worker, file, entries, id, data);
            law_flush_keeps_log(worker.appended(id, data), file, entries.push(data));
            lemma_after_push(file, worker.actions, ActionView::WriteLog(data));
            assert(worker.appended(id, data).announced() =~= worker.announced() + reported_of(
                task,
            ));
        },
        PersistenceTaskView::TruncateLog { target_length } => {
            lemma_after_push(
                file,
                flushed.actions,
                ActionView::SetLogLength(flushed.end_of(target_length as int)),
            );
        },
    }
    assert(worker.processed(task, batch_size).announced() =~= worker.announced() + reported_of(
        task,
    ));
}

/// Cutting the log back to its earlier length undoes an append.
pub proof fn law_truncate_undoes_append(
    worker: PersistenceView,
    id: u64,
    data: Seq<u8>,
    request_id: u64,
    batch_size: usize,
)
    requires
        worker.log_end() + data.len() <= u64::MAX,
        worker.offsets.len() <= usize::MAX,
    ensures
        worker.processed(
            PersistenceTaskView::AppendLog { id, data, request_id },
            batch_size,
        ).processed(
            PersistenceTaskView::TruncateLog { target_length: worker.offsets.len() as usize },
            batch_size,
        ).offsets == worker.offsets,
{
    let appended = worker.processed(
        PersistenceTaskView::AppendLog { id, data, request_id },
        batch_size,
    );
    assert(appended.offsets.take(worker.offsets.len() as int) =~= worker.offsets);
}

/// A vote is written as it was given, behind all entries that were written before
/// it, and reported when it has been written.
pub proof fn law_vote_is_written_before_it_is_reported(
    worker: PersistenceView,
    id: u64,
    term: u64,
    candidate_id: u32,
    batch_size: usize,
)
    ensures
        ({
            let after = worker.processed(
                PersistenceTaskView::AppendVote { id, term, candidate_id },
                batch_size,
            );
            let count = after.actions.len() as int;
            &&& count >= worker.actions.len() + 2
            &&& worker.actions.is_prefix_of(after.actions)
            &&& after.actions[count - 2] matches ActionView::WriteVote(row) && row.term == term
                && row.candidate_id == candidate_id
            &&& after.actions[count - 1] == ActionView::Respond(
                PersistenceResponseType::VotePersisted { id, term, candidate_id },
            )
            &&& after.offsets == worker.offsets
        }),
{
    let after = worker.processed(
        PersistenceTaskView::AppendVote { id, term, candidate_id },
        batch_size,
    );
    assert(worker.actions =~= after.actions.take(worker.actions.len() as int));
}

/// Entries are reported in batches: as long as fewer than a batch are written, none
/// of them is reported; with the last of a batch all are, once they are flushed.
pub proof fn law_entries_are_reported_in_batches(
    worker: PersistenceView,
    id: u64,
    data: Seq<u8>,
    request_id: u64,
    batch_size: usize,
)
    requires
        worker.pending.len() < batch_size,
    ensures
        ({
            let after = worker.processed(
                PersistenceTaskView::AppendLog { id, data, request_id },
                batch_size,
            );
            &&& worker.pending.len() + 1 < batch_size ==> {
                &&& after.pending == worker.pending.push(PersistenceResponseType::LogPersisted { id })
                &&& after.actions == worker.actions.push(ActionView::WriteLog(data))
            }
            &&& worker.pending.len() + 1 == batch_size ==> {
                &&& after.pending.len() == 0
                &&& after.actions.len() == worker.actions.len() + 2 + batch_size
                &&& after.actions[worker.actions.len() as int] == ActionView::WriteLog(data)
                &&& after.actions[worker.actions.len() + 1int] is FlushLog
                &&& forall|i: int|
                    0 <= i < worker.pending.len() ==> #[trigger] after.actions[worker.actions.len() + 2
                        + i] == ActionView::Respond(worker.pending[i])
                &&& after.actions.last() == ActionView::Respond(
                    PersistenceResponseType::LogPersisted { id },
                )
            }
        }),
{
}

/// The worker flushes the log, and reports what it has written, with every 32nd entry.
pub proof fn law_log_is_flushed_with_a_batch(
    worker: PersistenceView,
    id: u64,
    data: Seq<u8>,
    request_id: u64,
)
    ensures
        ({
            let after = worker.processed(
                PersistenceTaskView::AppendLog { id, data, request_id },
                BATCH_SIZE,
            );
            &&& worker.pending.len() < 31 ==> after.pending.len() == worker.pending.len() + 1
            &&& worker.pending.len() >= 31 ==> after.pending.len() == 0
        }),
{
}

} // verus!
