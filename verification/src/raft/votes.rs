//! The votes that this node gives to others.

use crate::persistence::worker::{PersistenceTaskType, PersistenceTaskView};
use crate::raft::raft_sm::{
    Callback, LocalRaftResponsePayload, LocalRequestVoteRequest, OutstandingMessage,
    OutstandingMessageType, ResponseView,
};
use crate::raft::shared_state::{SharedState, StateView};
use vstd::prelude::*;

verus! {

impl StateView {
    /// Whether a candidate for `term` whose log ends at `last_log_index` gets the vote.
    ///
    /// The node has not voted in that term, the term is a later one than its
    /// own, and the log of the candidate is not shorter than its own.
    pub open spec fn accepts_vote(self, term: u64, last_log_index: u64) -> bool {
        &&& !self.term_votes.contains_key(term)
        &&& term > self.current_term
        &&& last_log_index >= self.last_log_index
    }

    /// The state once `term` has been seen.
    pub open spec fn seeing_term(self, term: u64) -> StateView {
        if self.next_term <= term {
            StateView { next_term: (term + 1) as u64, ..self }
        } else {
            self
        }
    }

    /// The state once the node waits to hear that a vote is on disk, to tell the
    /// candidate then. Whether the vote is on its way there is not said here.
    pub open spec fn awaiting_vote(self, callback: Callback) -> StateView {
        self.with_fresh_message_id().registering(
            OutstandingMessage {
                id: self.next_message_id,
                outstanding_responses: 1,
                message_type: OutstandingMessageType::RequestVote { callback },
            },
        )
    }

    /// The state of a leader or a candidate once a candidate has asked for its
    /// vote, where `sent` says whether the persistence worker took the vote.
    pub open spec fn voting(
        self,
        request: LocalRequestVoteRequest,
        callback: Callback,
        sent: bool,
    ) -> StateView {
        let seen = self.seeing_term(request.term);
        let offered = seen.persisting(
            PersistenceTaskView::AppendVote {
                id: self.next_message_id,
                term: request.term,
                candidate_id: request.candidate_id,
            },
            sent,
        );
        if !self.accepts_vote(request.term, request.last_log_index) {
            seen.answering(callback, ResponseView::RequestVote(false))
        } else if !sent {
            offered.answering(callback, ResponseView::RequestVote(false))
        } else {
            (StateView {
                term_votes: self.term_votes.insert(request.term, request.candidate_id),
                ..offered
            }).awaiting_vote(callback)
        }
    }

    /// The state of a follower once a candidate has asked for its vote.
    ///
    /// A follower that would give its vote waits to hear that it is on disk, but
    /// neither sends it there nor notes it: that a node votes once in a term is
    /// said of leaders and candidates.
    pub open spec fn following_vote(
        self,
        request: LocalRequestVoteRequest,
        callback: Callback,
    ) -> StateView {
        let seen = self.seeing_term(request.term);
        if !self.accepts_vote(request.term, request.last_log_index) {
            seen.answering(callback, ResponseView::RequestVote(false))
        } else {
            seen.awaiting_vote(callback)
        }
    }
}

impl SharedState {
    /// Whether a candidate for `term` whose log ends at `last_log_index` gets the vote.
    pub fn should_accept_vote(&self, term: u64, last_log_index: u64) -> (accepted: bool)
        ensures
            accepted == self@.accepts_vote(term, last_log_index),
    {
        broadcast use vstd::std_specs::hash::group_hash_axioms;

        if self.term_votes.contains_key(&term) {
            return false;
        }
        if term <= self.server_state.current_term {
            return false;
        }
        if last_log_index < self.volatile_server_state.last_log_index {
            return false;
        }
        true
    }

    /// Notes that `term` has been seen.
    fn see_term(&mut self, term: u64)
        requires
            term < u64::MAX,
        ensures
            final(self)@ == old(self)@.seeing_term(term),
    {
        if self.volatile_server_state.next_term <= term {
            self.volatile_server_state.next_term = term + 1;
        }
    }

    /// Answers a candidate, as a leader or a candidate does.
    pub fn vote(&mut self, request: LocalRequestVoteRequest, callback: Callback)
        requires
            request.term < u64::MAX,
            old(self)@.next_message_id < u64::MAX,
        ensures
            exists|sent: bool|
                final(self)@ == #[trigger] old(self)@.voting(request, callback, sent),
    {
        broadcast use vstd::std_specs::hash::group_hash_axioms;

        self.see_term(request.term);
        if !self.should_accept_vote(request.term, request.last_log_index) {
            self.respond(callback, LocalRaftResponsePayload::RequestVote(false));
            assert(self@ == old(self)@.voting(request, callback, false));
            return;
        }
        let sent: bool = self.persist(
            PersistenceTaskType::AppendVote {
                id: self.next_message_id,
                term: request.term,
                candidate_id: request.candidate_id,
            },
        );
        if !sent {
            self.respond(callback, LocalRaftResponsePayload::RequestVote(false));
            assert(self@ == old(self)@.voting(request, callback, false));
            return;
        }
        self.term_votes.insert(request.term, request.candidate_id);
        self.await_vote(callback);
        assert(self@ == old(self)@.voting(request, callback, true));
    }

    /// Answers a candidate, as a follower does.
    pub fn follower_vote(&mut self, request: LocalRequestVoteRequest, callback: Callback)
        requires
            request.term < u64::MAX,
            old(self)@.next_message_id < u64::MAX,
        ensures
            final(self)@ == old(self)@.following_vote(request, callback),
    {
        self.see_term(request.term);
        if !self.should_accept_vote(request.term, request.last_log_index) {
            self.respond(callback, LocalRaftResponsePayload::RequestVote(false));
            return;
        }
        self.await_vote(callback);
    }

    /// Waits for a vote to be on disk before the candidate is told.
    fn await_vote(&mut self, callback: Callback)
        requires
            old(self)@.next_message_id < u64::MAX,
        ensures
            final(self)@ == old(self)@.awaiting_vote(callback),
    {
        let id: u64 = self.fresh_message_id();
        self.register(
            OutstandingMessage {
                id,
                outstanding_responses: 1,
                message_type: OutstandingMessageType::RequestVote { callback },
            },
        );
    }
}

} // verus!
