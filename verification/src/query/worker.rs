//! The worker that answers reads from the committed part of the log.

use crate::raft::raft_sm::{Callback, CommitState};
use crate::service_utils::channels;
use crate::service_utils::storage_utils::{EntryView, PutRequestView, SerializationData};
use std::sync::Arc;
use vstd::hash_map::StringHashMap;
use vstd::prelude::*;

verus! {

/// The answer to a read. There is no value where the key was never written.
#[derive(Clone, Debug)]
pub struct QueryResponse {
    pub value: Option<Arc<String>>,
}

/// A read of one key, to be answered once the log has been applied up to an index.
#[derive(Clone, Debug)]
pub struct QueryRequest {
    pub id: String,
    pub index: u64,
    pub callback: Callback,
}

/// What a [`QueryRequest`] asks.
pub struct QueryView {
    pub id: Seq<char>,
    pub index: u64,
    pub callback: Callback,
}

impl View for QueryRequest {
    type V = QueryView;

    open spec fn view(&self) -> QueryView {
        QueryView { id: self.id@, index: self.index, callback: self.callback }
    }
}

/// An answer, and the caller that waits for it.
#[derive(Clone, Debug)]
pub struct QueryReply {
    pub callback: Callback,
    pub response: QueryResponse,
}

impl View for QueryReply {
    type V = (Callback, Option<Seq<char>>);

    open spec fn view(&self) -> (Callback, Option<Seq<char>>) {
        (
            self.callback,
            match self.response.value {
                Some(value) => Some(value@),
                None => None,
            },
        )
    }
}

/// What the worker should do before its next step.
#[derive(Clone, Copy, Debug, PartialEq, Eq, Structural)]
pub enum QueryPause {
    /// A read waits for the log: let another thread run.
    Yield,
    /// There was something to do: go on at once.
    GoOn,
    /// There was nothing to do: back off.
    BackOff,
}

/// Bounds how many entries one step takes from the bus.
pub const MAX_ENTRIES_PER_STEP: u64 = u64::MAX;

/// The term of the entry that says that the log was truncated.
pub const TRUNCATE_SIGNAL_TERM: u64 = u64::MAX;

/// Answers reads. `pending_queries` holds the reads that have arrived, oldest
/// first, and `replies` the answers that are to be delivered.
pub struct QueryWorker {
    pub bus: bus::BusReader<Arc<SerializationData>>,
    pub query_structure: StringHashMap<Arc<String>>,
    pub pending_queries: Vec<QueryRequest>,
    pub last_version: u64,
    /// An entry that has been received but is not yet committed.
    pub parked: Option<Arc<SerializationData>>,
    /// A read that waits for the log to be applied.
    pub parked_request: Option<QueryRequest>,
    pub applied_index: u64,
    pub replies: Vec<QueryReply>,
}

/// What a [`QueryWorker`] holds.
#[verifier::ext_equal]
pub struct ReaderView {
    /// What the bus gave, whenever it was asked: the next entry, or nothing.
    pub polls: Seq<Option<EntryView>>,
    pub store: Map<Seq<char>, Seq<char>>,
    pub pending: Seq<QueryView>,
    pub last_version: u64,
    pub parked: Option<EntryView>,
    pub parked_request: Option<QueryView>,
    pub applied_index: u64,
    pub replies: Seq<(Callback, Option<Seq<char>>)>,
}

/// The text behind every key.
pub open spec fn store_view(store: Map<Seq<char>, Arc<String>>) -> Map<Seq<char>, Seq<char>> {
    store.map_values(|value: Arc<String>| value@)
}

/// What a list of reads asks.
pub open spec fn queries_view(queries: Seq<QueryRequest>) -> Seq<QueryView> {
    queries.map_values(|q: QueryRequest| q@)
}

/// What a list of replies says.
pub open spec fn replies_view(replies: Seq<QueryReply>) -> Seq<(Callback, Option<Seq<char>>)> {
    replies.map_values(|r: QueryReply| r@)
}

impl View for QueryWorker {
    type V = ReaderView;

    open spec fn view(&self) -> ReaderView {
        ReaderView {
            polls: channels::polled_entries(self.bus),
            store: store_view(self.query_structure@),
            pending: queries_view(self.pending_queries@),
            last_version: self.last_version,
            parked: match self.parked {
                Some(entry) => Some(entry@),
                None => None,
            },
            parked_request: match self.parked_request {
                Some(query) => Some(query@),
                None => None,
            },
            applied_index: self.applied_index,
            replies: replies_view(self.replies@),
        }
    }
}

/// A store after some writes. A later write of a key replaces an earlier one.
pub open spec fn written(
    store: Map<Seq<char>, Seq<char>>,
    requests: Seq<PutRequestView>,
) -> Map<Seq<char>, Seq<char>>
    decreases requests.len(),
{
    if requests.len() == 0 {
        store
    } else {
        written(store, requests.drop_last()).insert(requests.last().id, requests.last().payload)
    }
}

/// Whether an entry is one that the log was truncated by, and not a committed one.
pub open spec fn is_truncation(entry: EntryView, commit_index: u64) -> bool {
    entry.index > commit_index && entry.term == TRUNCATE_SIGNAL_TERM
}

/// Whether an entry has to wait for a later commit index.
pub open spec fn must_wait(entry: EntryView, commit_index: u64) -> bool {
    entry.index > commit_index && entry.term != TRUNCATE_SIGNAL_TERM
}

/// How many reads at the front can be answered.
pub open spec fn ready(pending: Seq<QueryView>, applied_index: u64) -> nat
    decreases pending.len(),
{
    if pending.len() == 0 || pending[0].index > applied_index {
        0
    } else {
        ready(pending.skip(1), applied_index) + 1
    }
}

impl ReaderView {
    /// The worker after an entry from the bus.
    ///
    /// A committed entry is applied, one that is not yet committed is kept for
    /// later, and a truncation empties the store.
    pub open spec fn taking(self, entry: EntryView, commit_index: u64) -> ReaderView {
        if entry.index <= commit_index {
            ReaderView {
                store: written(self.store, entry.requests),
                applied_index: if entry.requests.len() > 0 {
                    entry.index
                } else {
                    self.applied_index
                },
                ..self
            }
        } else if is_truncation(entry, commit_index) {
            ReaderView { store: Map::empty(), applied_index: 0, ..self }
        } else {
            ReaderView { parked: Some(entry), ..self }
        }
    }

    /// The worker after one entry from the bus after the other.
    pub open spec fn taking_all(self, entries: Seq<EntryView>, commit_index: u64) -> ReaderView
        decreases entries.len(),
    {
        if entries.len() == 0 {
            self
        } else {
            self.taking_all(entries.drop_last(), commit_index).taking(entries.last(), commit_index)
        }
    }

    /// Whether the entry that was kept has been committed.
    pub open spec fn can_unpark(self, commit_index: u64) -> bool {
        self.parked is Some && self.parked->Some_0.index <= commit_index
    }

    /// The worker once the entry that it kept has been applied, if it is committed.
    pub open spec fn unparked(self, commit_index: u64) -> ReaderView {
        if self.can_unpark(commit_index) {
            ReaderView {
                store: written(self.store, self.parked->Some_0.requests),
                applied_index: self.parked->Some_0.index,
                parked: None,
                ..self
            }
        } else {
            self
        }
    }

    /// The worker once it has taken `entries` from the bus, for a commit state
    /// that it has not seen yet, where `drained` says whether the bus had no more.
    pub open spec fn caught_up(
        self,
        commit: CommitState,
        entries: Seq<EntryView>,
        drained: bool,
    ) -> ReaderView {
        let noted = ReaderView { last_version: commit.version, ..self };
        ReaderView {
            polls: self.polls + polls_of(entries, drained),
            ..noted.unparked(commit.commit_index).taking_all(entries, commit.commit_index)
        }
    }

    /// The answer to a read.
    pub open spec fn answer(self, query: QueryView) -> (Callback, Option<Seq<char>>) {
        (
            query.callback,
            if self.store.contains_key(query.id) {
                Some(self.store[query.id])
            } else {
                None
            },
        )
    }

    /// The worker once it has answered a read.
    pub open spec fn answering(self, query: QueryView) -> ReaderView {
        ReaderView { replies: self.replies.push(self.answer(query)), ..self }
    }

    /// Whether a read has to wait for more of the log.
    pub open spec fn is_held_up(self) -> bool {
        self.parked_request is Some && self.parked_request->Some_0.index > self.applied_index
    }

    /// The worker once the read that waited has been answered.
    pub open spec fn resumed(self) -> ReaderView {
        match self.parked_request {
            Some(query) => (ReaderView { parked_request: None, ..self }).answering(query),
            None => self,
        }
    }

    /// The worker once it has answered the reads that it can, oldest first. The
    /// first that it cannot is kept, and holds up those behind it.
    pub open spec fn served(self) -> ReaderView {
        let count = ready(self.pending, self.applied_index) as int;
        ReaderView {
            replies: self.replies + self.pending.take(count).map_values(
                |q: QueryView| self.answer(q),
            ),
            parked_request: if count < self.pending.len() {
                Some(self.pending[count])
            } else {
                self.parked_request
            },
            pending: if count < self.pending.len() {
                self.pending.skip(count + 1)
            } else {
                Seq::empty()
            },
            ..self
        }
    }
}

/// What a bus gives that is asked until `entries` have come and, if it is then
/// `drained`, once more.
pub open spec fn polls_of(entries: Seq<EntryView>, drained: bool) -> Seq<Option<EntryView>> {
    let given = entries.map_values(|e: EntryView| Some(e));
    if drained {
        given.push(None)
    } else {
        given
    }
}

/// Whether a step takes `entries`: it asks the bus until there is no more, which
/// makes it `drained`, or until an entry has to wait. It stops short only at
/// [`MAX_ENTRIES_PER_STEP`].
pub open spec fn takes(entries: Seq<EntryView>, drained: bool, commit_index: u64) -> bool {
    &&& entries.len() <= MAX_ENTRIES_PER_STEP
    &&& forall|i: int|
        0 <= i < entries.len() - 1 ==> !must_wait(#[trigger] entries[i], commit_index)
    &&& if drained {
        entries.len() > 0 ==> !must_wait(entries.last(), commit_index)
    } else {
        entries.len() == MAX_ENTRIES_PER_STEP || entries.len() > 0 && must_wait(
            entries.last(),
            commit_index,
        )
    }
}

/// Whether any of the entries is committed.
pub open spec fn any_committed(entries: Seq<EntryView>, commit_index: u64) -> bool {
    exists|i: int| 0 <= i < entries.len() && (#[trigger] entries[i]).index <= commit_index
}

impl QueryWorker {
    pub fn new(bus: bus::BusReader<Arc<SerializationData>>) -> (worker: Self)
        ensures
            worker@ == (ReaderView {
                polls: channels::polled_entries(bus),
                store: Map::empty(),
                pending: Seq::empty(),
                last_version: 0,
                parked: None,
                parked_request: None,
                applied_index: 0,
                replies: Seq::empty(),
            }),
    {
        QueryWorker {
            bus,
            query_structure: StringHashMap::new(),
            pending_queries: Vec::new(),
            last_version: 0,
            parked: None,
            parked_request: None,
            applied_index: 0,
            replies: Vec::new(),
        }
    }

    /// Applies the writes of an entry, in order.
    fn apply_requests(&mut self, entry: &SerializationData)
        ensures
            final(self)@ == (ReaderView {
                store: written(old(self)@.store, entry@.requests),
                ..old(self)@
            }),
    {
        let ghost requests = entry@.requests;
        let ghost start = self@;
        let count: usize = entry.requests.len();
        let mut done: usize = 0;
        assert(requests.take(0) =~= Seq::empty());
        while done < count
            invariant
                count == entry.requests.len() == requests.len(),
                requests == entry@.requests,
                done <= count,
                self@ == (ReaderView {
                    store: written(start.store, requests.take(done as int)),
                    ..start
                }),
            decreases count - done,
        {
            let request = &entry.requests[done];
            let ghost before = self@.store;
            self.query_structure.insert(request.id.clone(), Arc::new(request.payload.clone()));
            proof {
                let longer = requests.take(done + 1);
                assert(longer.drop_last() =~= requests.take(done as int));
                assert(longer.last() == request@);
                assert(self@.store =~= before.insert(request@.id, request@.payload));
            }
            done = done + 1;
        }
        assert(requests.take(count as int) =~= requests);
    }

    /// Takes an entry from the bus. Returns whether the next one can be taken,
    /// too: an entry that is not yet committed is kept for later.
    pub fn take_entry(&mut self, entry: Arc<SerializationData>, commit_index: u64) -> (go_on: bool)
        ensures
            final(self)@ == old(self)@.taking(entry@, commit_index),
            go_on == !must_wait(entry@, commit_index),
    {
        if entry.index <= commit_index {
            self.apply_requests(&entry);
            if entry.requests.len() > 0 {
                self.applied_index = entry.index;
            }
            true
        } else if entry.term == TRUNCATE_SIGNAL_TERM {
            self.query_structure.clear();
            assert(self@.store =~= Map::empty());
            self.applied_index = 0;
            true
        } else {
            self.parked = Some(entry);
            false
        }
    }

    /// Applies the entry that was kept, if it is committed. Returns whether it was.
    pub fn unpark_entry(&mut self, commit_index: u64) -> (applied: bool)
        ensures
            final(self)@ == old(self)@.unparked(commit_index),
            applied == old(self)@.can_unpark(commit_index),
    {
        match self.parked.take() {
            None => false,
            Some(parked) => {
                if parked.index <= commit_index {
                    self.apply_requests(&parked);
                    self.applied_index = parked.index;
                    true
                } else {
                    self.parked = Some(parked);
                    false
                }
            },
        }
    }

    /// Applies all new data up until a new commit index. Does nothing if the
    /// version of the commit state is that of the last time. Returns whether
    /// any entry was applied.
    ///
    /// Which entries there are to be taken is for the sender to decide. The bus is
    /// asked until there is no more, or until an entry has to wait.
    pub fn apply_committed(&mut self, commit: CommitState) -> (applied: bool)
        ensures
            commit.version == old(self)@.last_version ==> !applied && final(self)@ == old(self)@,
            commit.version != old(self)@.last_version ==> exists|
                entries: Seq<EntryView>,
                drained: bool,
            |
                {
                    &&& takes(entries, drained, commit.commit_index)
                    &&& final(self)@ == #[trigger] old(self)@.caught_up(commit, entries, drained)
                    &&& applied == (old(self)@.can_unpark(commit.commit_index) || any_committed(
                        entries,
                        commit.commit_index,
                    ))
                },
    {
        if commit.version == self.last_version {
            return false;
        }
        let index: u64 = commit.commit_index;
        let ghost first = self@;
        self.last_version = commit.version;
        let mut applied: bool = self.unpark_entry(index);
        let ghost start = self@;
        let ghost mut entries: Seq<EntryView> = Seq::empty();
        let mut taken: u64 = 0;
        let mut go_on: bool = true;
        let ghost mut drained: bool = false;
        assert(start.polls + polls_of(entries, false) =~= start.polls);
        while go_on && taken < MAX_ENTRIES_PER_STEP
            invariant
                entries.len() == taken,
                self@ == (ReaderView {
                    polls: start.polls + polls_of(entries, drained),
                    ..start.taking_all(entries, index)
                }),
                go_on ==> !drained,
                drained && taken > 0 ==> !must_wait(entries.last(), index),
                !go_on && !drained ==> taken > 0 && must_wait(entries.last(), index),
                forall|i: int| 0 <= i < entries.len() - 1 ==> !must_wait(#[trigger] entries[i], index),
                go_on && taken > 0 ==> !must_wait(entries.last(), index),
                start.polls == first.polls,
                applied == (first.can_unpark(index) || any_committed(entries, index)),
            decreases MAX_ENTRIES_PER_STEP - taken, go_on as int,
        {
            let ghost before = self@;
            match channels::try_receive(&mut self.bus) {
                Some(entry) => {
                    let ghost longer = entries.push(entry@);
                    assert(longer.drop_last() =~= entries);
                    if entry.index <= index {
                        applied = true;
                    }
                    proof {
                        if entry@.index <= index {
                            assert(longer[entries.len() as int].index <= index);
                        }
                        if any_committed(entries, index) {
                            let i = choose|i: int|
                                0 <= i < entries.len() && (#[trigger] entries[i]).index <= index;
                            assert(longer[i].index <= index);
                        }
                        if any_committed(longer, index) && entry@.index > index {
                            let i = choose|i: int|
                                0 <= i < longer.len() && (#[trigger] longer[i]).index <= index;
                            assert(entries[i].index <= index);
                        }
                        assert(start.polls + polls_of(longer, false) =~= (start.polls + polls_of(
                            entries,
                            false,
                        )).push(Some(entry@)));
                    }
                    let ghost value = entry@;
                    go_on = self.take_entry(entry, index);
                    proof {
                        assert forall|i: int| 0 <= i < longer.len() - 1 implies !must_wait(
                            #[trigger] longer[i],
                            index,
                        ) by {
                            if i < entries.len() - 1 {
                                assert(!must_wait(entries[i], index));
                            }
                        }
                        entries = longer;
                    }
                    taken = taken + 1;
                },
                None => {
                    go_on = false;
                    proof {
                        assert(start.polls + polls_of(entries, true) =~= (start.polls + polls_of(
                            entries,
                            false,
                        )).push(None));
                        drained = true;
                    }
                },
            }
        }
        assert(takes(entries, drained, index));
        assert(self@ =~= first.caught_up(commit, entries, drained));
        applied
    }

    pub fn handle_query(&mut self, query: QueryRequest)
        ensures
            final(self)@ == old(self)@.answering(query@),
    {
        let value = match self.query_structure.get(query.id.as_str()) {
            None => None,
            Some(value) => Some(Arc::clone(value)),
        };
        let reply = QueryReply { callback: query.callback, response: QueryResponse { value } };
        self.replies.push(reply);
        assert(self@.replies =~= old(self)@.replies.push(reply@));
    }

    /// Processes read requests. Returns `None` if a read has to wait for more of
    /// the log, and else whether any was answered.
    pub fn process_queries(&mut self) -> (answered: Option<bool>)
        ensures
            old(self)@.is_held_up() ==> answered is None && final(self)@ == old(self)@,
            !old(self)@.is_held_up() ==> {
                &&& answered == Some(
                    old(self)@.parked_request is Some || ready(
                        old(self)@.pending,
                        old(self)@.applied_index,
                    ) > 0,
                )
                &&& final(self)@ == old(self)@.resumed().served()
            },
    {
        let mut answered: bool = false;
        match self.parked_request.take() {
            Some(query) => {
                // Check if query index is ahead of applied index
                if query.index <= self.applied_index {
                    self.handle_query(query);
                    answered = true;
                } else {
                    self.parked_request = Some(query);
                    return None;
                }
            },
            None => {},
        }
        assert(self@ == old(self)@.resumed());
        let served: bool = self.serve_pending();
        Some(answered || served)
    }

    /// How many pending reads can be answered.
    fn count_ready(&self) -> (count: usize)
        ensures
            count == ready(self@.pending, self@.applied_index),
    {
        let len: usize = self.pending_queries.len();
        let mut count: usize = 0;
        assert(self@.pending.skip(0) =~= self@.pending);
        while count < len && self.pending_queries[count].index <= self.applied_index
            invariant
                len == self.pending_queries.len(),
                count <= len,
                ready(self@.pending, self@.applied_index) == count + ready(
                    self@.pending.skip(count as int),
                    self@.applied_index,
                ),
            decreases len - count,
        {
            assert(self@.pending.skip(count as int).skip(1) =~= self@.pending.skip(count + 1));
            count = count + 1;
        }
        count
    }

    /// Answers the pending reads that can be answered.
    fn serve_pending(&mut self) -> (answered: bool)
        ensures
            final(self)@ == old(self)@.served(),
            answered == (ready(old(self)@.pending, old(self)@.applied_index) > 0),
    {
        let ghost start = self@;
        let count: usize = self.count_ready();
        proof {
            lemma_ready(start.pending, start.applied_index);
        }
        let mut later = self.pending_queries.split_off(count);
        let mut queries = Vec::new();
        std::mem::swap(&mut queries, &mut self.pending_queries);
        let ghost asked = start.pending.take(count as int);
        let ghost answers = asked.map_values(|q: QueryView| start.answer(q));
        let ghost given = queries@;
        proof {
            assert(queries_view(given) =~= asked);
            assert(queries_view(later@) =~= start.pending.skip(count as int));
            assert(answers.take(0) =~= Seq::empty());
            assert(start.replies + answers.take(0) =~= start.replies);
            assert(self@.pending =~= Seq::empty());
        }
        for query in iter: queries
            invariant
                iter.seq() == given,
                queries_view(given) == asked,
                answers == asked.map_values(|q: QueryView| start.answer(q)),
                self@ == (ReaderView {
                    pending: Seq::empty(),
                    replies: start.replies + answers.take(iter.index()),
                    ..start
                }),
        {
            let ghost done = iter.index();
            assert(asked[done] == query@);
            self.handle_query(query);
            assert(start.replies + answers.take(done + 1) =~= (start.replies + answers.take(
                done,
            )).push(start.answer(query@)));
        }
        assert(answers.take(given.len() as int) =~= answers);
        if later.len() > 0 {
            // Park the request until more of the log has been applied
            let query = later.remove(0);
            self.parked_request = Some(query);
            self.pending_queries = later;
            assert(self@.pending =~= start.pending.skip(count + 1));
        }
        assert(self@ =~= start.served());
        count > 0
    }

    /// Applies what has been committed, and answers the reads that can be answered.
    pub fn step(&mut self, commit: CommitState) -> (pause: QueryPause)
        ensures
            exists|middle: ReaderView, applied: bool, answered: Option<bool>|
                {
                    &&& #[trigger] old(self)@.has_applied(commit, middle, applied)
                    &&& #[trigger] middle.has_served(final(self)@, answered)
                    &&& pause == match answered {
                        None => QueryPause::Yield,
                        Some(answered) => if applied || answered {
                            QueryPause::GoOn
                        } else {
                            QueryPause::BackOff
                        },
                    }
                },
    {
        let ghost first = self@;
        let applied: bool = self.apply_committed(commit);
        let ghost middle = self@;
        let result = self.process_queries();
        assert(first.has_applied(commit, middle, applied));
        assert(middle.has_served(self@, result));
        match result {
            None => QueryPause::Yield,
            Some(answered) => {
                if applied || answered {
                    QueryPause::GoOn
                } else {
                    QueryPause::BackOff
                }
            },
        }
    }

    /// Hands over the answers that are to be delivered, oldest first.
    pub fn take_replies(&mut self) -> (replies: Vec<QueryReply>)
        ensures
            replies_view(replies@) == old(self)@.replies,
            final(self)@ == (ReaderView { replies: Seq::empty(), ..old(self)@ }),
    {
        let mut replies = Vec::new();
        std::mem::swap(&mut replies, &mut self.replies);
        assert(self@.replies =~= Seq::empty());
        replies
    }
}

impl ReaderView {
    /// Whether the worker comes to `after` by applying what has been committed;
    /// `applied` says whether that was anything.
    pub open spec fn has_applied(self, commit: CommitState, after: ReaderView, applied: bool) -> bool {
        if commit.version == self.last_version {
            !applied && after == self
        } else {
            exists|entries: Seq<EntryView>, drained: bool|
                {
                    &&& takes(entries, drained, commit.commit_index)
                    &&& after == #[trigger] self.caught_up(commit, entries, drained)
                    &&& applied == (self.can_unpark(commit.commit_index) || any_committed(
                        entries,
                        commit.commit_index,
                    ))
                }
        }
    }

    /// Whether the worker comes to `after` by answering reads; `answered` says
    /// whether any was answered, and is `None` where one has to wait.
    pub open spec fn has_served(self, after: ReaderView, answered: Option<bool>) -> bool {
        if self.is_held_up() {
            answered is None && after == self
        } else {
            &&& answered == Some(
                self.parked_request is Some || ready(self.pending, self.applied_index) > 0,
            )
            &&& after == self.resumed().served()
        }
    }
}

/// No more reads can be answered than there are, and all of those at the front.
pub proof fn lemma_ready(pending: Seq<QueryView>, applied_index: u64)
    ensures
        ready(pending, applied_index) <= pending.len(),
        forall|i: int|
            0 <= i < ready(pending, applied_index) ==> (#[trigger] pending[i]).index
                <= applied_index,
        ready(pending, applied_index) < pending.len() ==> pending[ready(
            pending,
            applied_index,
        ) as int].index > applied_index,
    decreases pending.len(),
{
    if pending.len() > 0 && pending[0].index <= applied_index {
        let rest = pending.skip(1);
        lemma_ready(rest, applied_index);
        assert forall|i: int| 0 <= i < ready(pending, applied_index) implies (
        #[trigger] pending[i]).index <= applied_index by {
            if i > 0 {
                assert(rest[i - 1].index <= applied_index);
            }
        }
    }
}

} // verus!
