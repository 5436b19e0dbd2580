//! Whether a step stays within the limits of the machine.

use crate::quorum::types::{LocalQuorumWorkerTask, LocalQuorumWorkerTaskType, TaskView};
use crate::raft::executor::{RaftStateMachineExecutor, StateMachineExecutorImpl};
use crate::raft::raft_sm::{
    LocalRaftMessage, LocalRaftMessagePayload, OutstandingMessage, OutstandingMessageType,
    RaftNodeType,
};
use crate::raft::shared_state::SharedState;
use crate::service_utils::storage_utils;
use vstd::prelude::*;

verus! {

broadcast use vstd::std_specs::hash::group_hash_axioms;

impl LocalRaftMessage {
    /// Whether the terms and the writes of the message are within the limits of the
    /// machine, for a node of some role.
    pub fn within_limits(&self, role: RaftNodeType) -> (ok: bool)
        ensures
            ok == self.is_within_limits(role),
    {
        match &self.payload {
            LocalRaftMessagePayload::RequestVote(request) => request.term < u64::MAX,
            LocalRaftMessagePayload::AppendEntries(request) => request.term < u64::MAX,
            LocalRaftMessagePayload::GetRaftState => true,
            LocalRaftMessagePayload::WriteBatch(request) => {
                role != RaftNodeType::Leader || storage_utils::requests_can_be_stored(
                    &request.requests,
                )
            },
        }
    }
}

impl LocalQuorumWorkerTask {
    /// Whether every entry of the task can be sent.
    pub fn can_be_sent(&self) -> (ok: bool)
        ensures
            ok == crate::quorum::quorum_worker::outbound::is_sendable(self@),
    {
        match &self.task_type {
            LocalQuorumWorkerTaskType::AppendEntries { entry, .. } => entry.can_be_stored(),
            LocalQuorumWorkerTaskType::BackfillLog { data } => {
                let count: usize = data.len();
                let mut done: usize = 0;
                while done < count
                    invariant
                        count == data.len(),
                        self@ == (TaskView::BackfillLog { data: data@ }),
                        done <= count,
                        forall|i: int|
                            0 <= i < done ==> (#[trigger] data@[i])@.is_storable(),
                    decreases count - done,
                {
                    if !data[done].can_be_stored() {
                        assert(!data@[done as int]@.is_storable());
                        return false;
                    }
                    done = done + 1;
                }
                true
            },
            _ => true,
        }
    }
}

impl OutstandingMessage {
    /// Whether the counters of the message can take `events` more events.
    pub fn has_room_for(&self, events: u32) -> (room: bool)
        requires
            events <= i32::MAX,
        ensures
            room == self.has_room(events as int),
    {
        let acks: u32 = match &self.message_type {
            OutstandingMessageType::CandidateElection { quorum_votes, .. } => *quorum_votes,
            OutstandingMessageType::WriteBatch { quorum_acks, .. } => *quorum_acks,
            OutstandingMessageType::NoOp { quorum_acks, .. } => *quorum_acks,
            OutstandingMessageType::RequestVote { .. } => 0,
            OutstandingMessageType::AppendLog { .. } => 0,
        };
        self.outstanding_responses as i64 - events as i64 >= i32::MIN as i64 && acks <= u32::MAX
            - events
    }
}

impl SharedState {
    /// Whether the counters of the state can take `events` more events.
    pub fn has_room_for(&self, events: usize) -> (room: bool)
        ensures
            room == self@.has_room(events as int),
    {
        if events > i32::MAX as usize {
            return false;
        }
        let few: u64 = events as u64;
        let log_length: usize = self.volatile_server_state.replication_log.len();
        if self.next_message_id > u64::MAX - 2 * few || self.volatile_server_state.next_term
            > u64::MAX - few || self.volatile_server_state.next_log_index > u64::MAX - few
            || log_length as u64 > u64::MAX - few || self.quorum_worker_tasks.len()
            >= i32::MAX as usize {
            return false;
        }
        let ghost full = self.outstanding_messages@;
        for id in iter: self.outstanding_messages.keys()
            invariant
                full == self.outstanding_messages@,
                full == self@.outstanding,
                few == events <= i32::MAX,
                iter.seq().unref().to_set() == full.dom(),
                forall|i: int|
                    0 <= i < iter.index() ==> full[*(#[trigger] iter.seq()[i])].has_room(
                        events as int,
                    ),
        {
            assert(iter.seq().unref()[iter.index()] == *id);
            assert(full.contains_key(*id));
            if let Some(message) = self.outstanding_messages.get(id) {
                if !message.has_room_for(few as u32) {
                    assert(!self@.outstanding[*id].has_room(events as int));
                    return false;
                }
            }
        }
        true
    }

    /// How many events have arrived and are still to be processed, if that is
    /// within the limits of the machine.
    fn count_waiting_events(&self) -> (count: Option<usize>)
        ensures
            match count {
                Some(count) => count == self@.waiting_events() <= i32::MAX,
                None => self@.waiting_events() > i32::MAX,
            },
    {
        let persistence: usize = self.persistence_response.len();
        let quorum: usize = self.quorum_response.len();
        let limit: usize = i32::MAX as usize;
        if persistence > limit || quorum > limit || persistence > limit - quorum {
            None
        } else {
            Some(persistence + quorum)
        }
    }
}

impl StateMachineExecutorImpl {
    /// Whether the counters of the state machine allow it to accept the message.
    pub fn is_ready_to_accept(&self, raft_message: &LocalRaftMessage) -> (ready: bool)
        requires
            self.state_delegate.wf(),
        ensures
            ready == self.can_accept(*raft_message),
    {
        raft_message.within_limits(self.state_delegate.get_node_type())
            && self.shared_state.has_room_for(1)
    }

    /// Whether the counters of the state machine allow it to make a time step.
    pub fn is_ready_to_step(&self) -> (ready: bool)
        requires
            self.state_delegate.wf(),
        ensures
            ready == self.can_step(),
    {
        match self.shared_state.count_waiting_events() {
            None => false,
            Some(count) => {
                if count > i32::MAX as usize - 2 {
                    false
                } else {
                    self.shared_state.has_room_for(count + 2)
                }
            },
        }
    }
}

} // verus!
