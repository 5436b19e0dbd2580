//! The state machine of one node: its role, and the state that its roles share.

use crate::raft::candidate::{self, RaftCandidateStateDelegate};
use crate::raft::follower::RaftFollowerStateDelegate;
use crate::raft::leader::write_batch;
use crate::raft::leader::RaftLeaderStateDelegate;
use crate::raft::raft_sm::{
    Callback, LocalAppendEntries, LocalAppendEntriesCallbackResponse, LocalRaftMessage,
    LocalRaftMessagePayload, LocalRaftResponsePayload, LocalRequestVoteRequest,
    RaftMessageStateChange, RaftNodeType, RaftProtocol, ResponseView,
};
use crate::raft::shared_state::{SharedState, StateView};
use crate::service_utils::app_time::MAX_NOW_MILLIS;
use vstd::prelude::*;

verus! {

/// The role of a node.
pub enum StateDelegate {
    Follower(RaftFollowerStateDelegate),
    Candidate(RaftCandidateStateDelegate),
    Leader(RaftLeaderStateDelegate),
}

impl StateDelegate {
    /// Whether the role can go on.
    pub open spec fn wf(self) -> bool {
        match self {
            StateDelegate::Follower(delegate) => delegate.wf(),
            StateDelegate::Candidate(delegate) => delegate.wf(),
            StateDelegate::Leader(delegate) => delegate.wf(),
        }
    }

    /// What the role is.
    pub open spec fn node_type(self) -> RaftNodeType {
        match self {
            StateDelegate::Follower(_) => RaftNodeType::Follower,
            StateDelegate::Candidate(_) => RaftNodeType::Candidate,
            StateDelegate::Leader(_) => RaftNodeType::Leader,
        }
    }

    /// The role after a change.
    pub open spec fn changed_by(self, change: RaftMessageStateChange) -> StateDelegate {
        match change {
            RaftMessageStateChange::Unchanged => self,
            RaftMessageStateChange::Follower(delegate) => StateDelegate::Follower(delegate),
            RaftMessageStateChange::Candidate(delegate) => StateDelegate::Candidate(delegate),
            RaftMessageStateChange::Leader(delegate) => StateDelegate::Leader(delegate),
        }
    }

    /// Whether `after` is the role after a message that came in `state`.
    ///
    /// Only a request of a leader changes the role: it resets the timer of a
    /// follower, and a node that begins to follow starts with a new one.
    pub open spec fn hears(
        self,
        state: StateView,
        message: LocalRaftMessage,
        after: StateDelegate,
    ) -> bool {
        match message.payload {
            LocalRaftMessagePayload::AppendEntries(request) => {
                if state.role_after_append(self.node_type(), request) != RaftNodeType::Follower {
                    after == self
                } else {
                    after matches StateDelegate::Follower(follower) && match self {
                        StateDelegate::Follower(before) => follower.election_timer.is_reset_of(
                            before.election_timer,
                        ),
                        _ => follower.election_timer.is_new(),
                    }
                }
            },
            _ => after == self,
        }
    }

    pub fn get_node_type(&self) -> (node_type: RaftNodeType)
        ensures
            node_type == self.node_type(),
    {
        match self {
            StateDelegate::Follower(delegate) => delegate.get_node_type(),
            StateDelegate::Candidate(delegate) => delegate.get_node_type(),
            StateDelegate::Leader(delegate) => delegate.get_node_type(),
        }
    }
}

/// What a client is told that writes to a node which is not the leader.
pub open spec fn not_leader() -> Seq<char> {
    "Received write batch as non-leader"@
}

impl StateView {
    /// Whether a node of some role comes to `after` by a vote request.
    pub open spec fn votes_as(
        self,
        role: RaftNodeType,
        request: LocalRequestVoteRequest,
        callback: Callback,
        after: StateView,
    ) -> bool {
        match role {
            RaftNodeType::Follower => after == self.following_vote(request, callback),
            _ => exists|sent: bool| after == #[trigger] self.voting(request, callback, sent),
        }
    }

    /// Whether a node of some role comes to `after` by a request of some leader.
    pub open spec fn appends_as(
        self,
        role: RaftNodeType,
        request: LocalAppendEntries,
        callback: Callback,
        after: StateView,
    ) -> bool {
        match role {
            RaftNodeType::Follower => self.follower_appends(request, callback, after),
            RaftNodeType::Candidate => after == self.candidate_appends(request, callback),
            RaftNodeType::Leader => after == if request.term > self.current_term {
                self.stepping_down(request, callback)
            } else {
                self.answering(
                    callback,
                    ResponseView::AppendEntries(
                        LocalAppendEntriesCallbackResponse::UnrecognizedLeader,
                    ),
                )
            },
        }
    }

    /// The role of a node after a request of some leader: a candidate follows a
    /// leader of its own term or a later one, and a leader one of a later term.
    pub open spec fn role_after_append(
        self,
        role: RaftNodeType,
        request: LocalAppendEntries,
    ) -> RaftNodeType {
        match role {
            RaftNodeType::Follower => RaftNodeType::Follower,
            RaftNodeType::Candidate => if request.term >= self.current_term {
                RaftNodeType::Follower
            } else {
                RaftNodeType::Candidate
            },
            RaftNodeType::Leader => if request.term > self.current_term {
                RaftNodeType::Follower
            } else {
                RaftNodeType::Leader
            },
        }
    }

    /// Whether a node of some role comes to `after`, and to the role
    /// `role_after`, by one message.
    pub open spec fn accepts(
        self,
        role: RaftNodeType,
        message: LocalRaftMessage,
        after: StateView,
        role_after: RaftNodeType,
    ) -> bool {
        match message.payload {
            LocalRaftMessagePayload::RequestVote(request) => {
                &&& role_after == role
                &&& self.votes_as(role, request, message.callback, after)
            },
            LocalRaftMessagePayload::AppendEntries(request) => {
                &&& role_after == self.role_after_append(role, request)
                &&& self.appends_as(role, request, message.callback, after)
            },
            LocalRaftMessagePayload::GetRaftState => {
                &&& role_after == role
                &&& after == self.answering(
                    message.callback,
                    ResponseView::RaftState { leader_id: self.leader_id },
                )
            },
            LocalRaftMessagePayload::WriteBatch(request) => {
                &&& role_after == role
                &&& if role == RaftNodeType::Leader {
                    exists|now: u128|
                        #[trigger] self.writes_batch(request, message.callback, now, after)
                } else {
                    after == self.answering(
                        message.callback,
                        ResponseView::batch(Some(not_leader())),
                    )
                }
            },
        }
    }
}

impl LocalRaftMessage {
    /// Whether the terms and the writes of the message are within the limits of the
    /// machine, for a node of some role. Only a leader stores writes.
    pub open spec fn is_within_limits(self, role: RaftNodeType) -> bool {
        match self.payload {
            LocalRaftMessagePayload::RequestVote(request) => request.term < u64::MAX,
            LocalRaftMessagePayload::AppendEntries(request) => request.term < u64::MAX,
            LocalRaftMessagePayload::GetRaftState => true,
            LocalRaftMessagePayload::WriteBatch(request) => role == RaftNodeType::Leader
                ==> request.is_storable(),
        }
    }
}

pub trait RaftStateMachineExecutor: Sized {
    /// Whether the state machine can accept the message.
    spec fn can_accept(&self, raft_message: LocalRaftMessage) -> bool;

    /// Whether the state machine can make a time step.
    spec fn can_step(&self) -> bool;

    fn accept(&mut self, raft_message: LocalRaftMessage)
        requires
            old(self).can_accept(raft_message),
    ;

    /// Returns the number of work items processed in this time step
    fn time_step(&mut self) -> (work_done: u64)
        requires
            old(self).can_step(),
    ;
}

pub struct StateMachineExecutorImpl {
    pub state_delegate: StateDelegate,
    pub shared_state: SharedState,
}

impl StateMachineExecutorImpl {
    /// A node starts as a follower.
    pub fn new(shared_state: SharedState) -> (executor: Self)
        ensures
            executor.shared_state == shared_state,
            executor.state_delegate.wf(),
            executor.state_delegate matches StateDelegate::Follower(follower)
                && follower.election_timer.is_new(),
    {
        StateMachineExecutorImpl {
            state_delegate: StateDelegate::Follower(
                RaftFollowerStateDelegate::new(&shared_state.anchor),
            ),
            shared_state,
        }
    }

    /// Whether the state machine comes to `after` by a time step, with
    /// `work_done` items of work done.
    pub open spec fn steps_to(self, after: StateMachineExecutorImpl, work_done: u64) -> bool {
        match self.state_delegate {
            StateDelegate::Follower(delegate) => {
                &&& self.shared_state@.follower_time_step(after.shared_state@, work_done)
                &&& exists|now: u128|
                    now <= MAX_NOW_MILLIS && after.state_delegate == self.state_delegate.changed_by(
                        #[trigger] delegate.election_timer.change_at(now),
                    )
            },
            StateDelegate::Candidate(delegate) => {
                let elected = after.state_delegate is Leader;
                &&& exists|now: u128, retry_at: u128|
                    {
                        &&& now <= MAX_NOW_MILLIS
                        &&& candidate::is_retry_time(retry_at)
                        &&& #[trigger] self.shared_state@.candidate_time_step(
                            delegate.initiate_election_timeout,
                            now,
                            after.shared_state@,
                            elected,
                            work_done,
                        )
                        &&& match after.state_delegate {
                            StateDelegate::Follower(_) => false,
                            StateDelegate::Candidate(later) => later == #[trigger] delegate.stepped(
                                self.shared_state@,
                                now,
                                retry_at,
                                false,
                            ),
                            StateDelegate::Leader(leader) => leader.is_new(),
                        }
                    }
            },
            StateDelegate::Leader(delegate) => {
                &&& exists|timestamp: u64|
                    #[trigger] self.shared_state@.leader_time_step(
                        delegate.initialized,
                        timestamp,
                        after.shared_state@,
                        work_done,
                    )
                &&& after.state_delegate == StateDelegate::Leader(
                    RaftLeaderStateDelegate { initialized: true, ..delegate },
                )
            },
        }
    }

    /// Changes the role.
    fn change_to(&mut self, change: RaftMessageStateChange)
        requires
            old(self).state_delegate.wf(),
            change matches RaftMessageStateChange::Follower(delegate) ==> delegate.wf(),
        ensures
            final(self).shared_state == old(self).shared_state,
            final(self).state_delegate.wf(),
            final(self).state_delegate == old(self).state_delegate.changed_by(change),
    {
        match change {
            RaftMessageStateChange::Unchanged => {},
            RaftMessageStateChange::Follower(delegate) => {
                self.state_delegate = StateDelegate::Follower(delegate);
            },
            RaftMessageStateChange::Candidate(delegate) => {
                self.state_delegate = StateDelegate::Candidate(delegate);
            },
            RaftMessageStateChange::Leader(delegate) => {
                self.state_delegate = StateDelegate::Leader(delegate);
            },
        }
    }
}

impl RaftStateMachineExecutor for StateMachineExecutorImpl {
    open spec fn can_accept(&self, raft_message: LocalRaftMessage) -> bool {
        &&& self.state_delegate.wf()
        &&& raft_message.is_within_limits(self.state_delegate.node_type())
        &&& self.shared_state@.has_room(1)
    }

    open spec fn can_step(&self) -> bool {
        &&& self.state_delegate.wf()
        &&& self.shared_state@.has_room(self.shared_state@.waiting_events() + 2)
    }

    fn accept(&mut self, raft_message: LocalRaftMessage)
        ensures
            final(self).state_delegate.wf(),
            old(self).shared_state@.accepts(
                old(self).state_delegate.node_type(),
                raft_message,
                final(self).shared_state@,
                final(self).state_delegate.node_type(),
            ),
            old(self).state_delegate.hears(
                old(self).shared_state@,
                raft_message,
                final(self).state_delegate,
            ),
    {
        let callback = raft_message.callback;
        match raft_message.payload {
            LocalRaftMessagePayload::RequestVote(request) => {
                let change = match &mut self.state_delegate {
                    StateDelegate::Follower(delegate) => delegate.request_vote(
                        request,
                        callback,
                        &mut self.shared_state,
                    ),
                    StateDelegate::Candidate(delegate) => delegate.request_vote(
                        request,
                        callback,
                        &mut self.shared_state,
                    ),
                    StateDelegate::Leader(delegate) => delegate.request_vote(
                        request,
                        callback,
                        &mut self.shared_state,
                    ),
                };
                self.change_to(change);
            },
            LocalRaftMessagePayload::AppendEntries(request) => {
                let change = match &mut self.state_delegate {
                    StateDelegate::Follower(delegate) => delegate.append_entries(
                        request,
                        callback,
                        &mut self.shared_state,
                    ),
                    StateDelegate::Candidate(delegate) => delegate.append_entries(
                        request,
                        callback,
                        &mut self.shared_state,
                    ),
                    StateDelegate::Leader(delegate) => delegate.append_entries(
                        request,
                        callback,
                        &mut self.shared_state,
                    ),
                };
                self.change_to(change);
            },
            LocalRaftMessagePayload::GetRaftState => {
                let leader_id: u32 = self.shared_state.server_state.leader_id;
                self.shared_state.respond(
                    callback,
                    LocalRaftResponsePayload::RaftState { leader_id },
                );
            },
            LocalRaftMessagePayload::WriteBatch(request) => {
                match &mut self.state_delegate {
                    StateDelegate::Leader(delegate) => {
                        delegate.write_batch(request, callback, &mut self.shared_state);
                    },
                    _ => {
                        write_batch::send_error_response(
                            "Received write batch as non-leader",
                            callback,
                            &mut self.shared_state,
                        );
                    },
                }
            },
        }
    }

    fn time_step(&mut self) -> (work_done: u64)
        ensures
            final(self).state_delegate.wf(),
            old(self).steps_to(*final(self), work_done),
    {
        let (change, work_done) = match &mut self.state_delegate {
            StateDelegate::Follower(delegate) => delegate.time_step(&mut self.shared_state),
            StateDelegate::Candidate(delegate) => delegate.time_step(&mut self.shared_state),
            StateDelegate::Leader(delegate) => delegate.time_step(&mut self.shared_state),
        };
        let ghost elected = change is Leader;
        let ghost stepped = self.state_delegate;
        self.change_to(change);
        proof {
            if let StateDelegate::Candidate(delegate) = old(self).state_delegate {
                let before = old(self).shared_state@;
                let later = stepped->Candidate_0;
                let (now, retry_at) = choose|now: u128, retry_at: u128|
                    {
                        &&& now <= MAX_NOW_MILLIS
                        &&& candidate::is_retry_time(retry_at)
                        &&& #[trigger] before.candidate_time_step(
                            delegate.initiate_election_timeout,
                            now,
                            self.shared_state@,
                            elected,
                            work_done,
                        )
                        &&& later == #[trigger] delegate.stepped(before, now, retry_at, elected)
                    };
                assert(elected == (self.state_delegate is Leader));
                assert(before.candidate_time_step(
                    delegate.initiate_election_timeout,
                    now,
                    self.shared_state@,
                    self.state_delegate is Leader,
                    work_done,
                ));
                assert(elected || self.state_delegate == StateDelegate::Candidate(
                    delegate.stepped(before, now, retry_at, false),
                ));
            }
        }
        work_done
    }
}

} // verus!
