//! The worker that drives the state machine of a node.

use crate::raft::executor::{
    RaftStateMachineExecutor, StateDelegate, StateMachineExecutorImpl,
};
use crate::raft::raft_sm::LocalRaftMessage;
use crate::raft::shared_state::SharedState;
use vstd::prelude::*;

verus! {

/// What the worker should do before its next turn.
#[derive(Clone, Copy, Debug, PartialEq, Eq, Structural)]
pub enum TurnOutcome {
    /// There was something to do: go on at once.
    GoOn,
    /// There was nothing to do: back off.
    BackOff,
    /// A counter has reached the limit of the machine: the worker cannot go on.
    Exhausted,
}

/// Drives the state machine. `work_queue` holds the messages that have arrived,
/// oldest first.
pub struct StateMachineWorker {
    pub work_queue: Vec<LocalRaftMessage>,
    pub state_machine: StateMachineExecutorImpl,
}

impl StateMachineExecutorImpl {
    /// Whether the state machine comes to `after` by one message.
    pub open spec fn accepts_to(
        self,
        message: LocalRaftMessage,
        after: StateMachineExecutorImpl,
    ) -> bool {
        &&& self.shared_state@.accepts(
            self.state_delegate.node_type(),
            message,
            after.shared_state@,
            after.state_delegate.node_type(),
        )
        &&& self.state_delegate.hears(self.shared_state@, message, after.state_delegate)
    }

    /// Whether the state machine comes to `after` by `messages`, one after the other.
    pub open spec fn accepts_all(
        self,
        messages: Seq<LocalRaftMessage>,
        after: StateMachineExecutorImpl,
    ) -> bool
        decreases messages.len(),
    {
        if messages.len() == 0 {
            after == self
        } else {
            exists|middle: StateMachineExecutorImpl|
                self.accepts_all(messages.drop_last(), middle) && #[trigger] middle.accepts_to(
                    messages.last(),
                    after,
                )
        }
    }
}

impl StateMachineWorker {
    /// Whether the worker comes to `after` by a time step that leads to
    /// `stepped`, with `timed` items of work done, and by its first `accepted`
    /// messages.
    pub open spec fn turns_via(
        self,
        stepped: StateMachineExecutorImpl,
        timed: u64,
        accepted: int,
        after: StateMachineWorker,
    ) -> bool {
        &&& self.state_machine.steps_to(stepped, timed)
        &&& 0 <= accepted <= self.work_queue@.len()
        &&& stepped.accepts_all(self.work_queue@.take(accepted), after.state_machine)
        &&& after.work_queue@ == self.work_queue@.skip(accepted)
    }

    pub fn new(shared_state: SharedState) -> (worker: Self)
        ensures
            worker.work_queue@.len() == 0,
            worker.state_machine.shared_state == shared_state,
            worker.state_machine.state_delegate.wf(),
            worker.state_machine.state_delegate matches StateDelegate::Follower(follower)
                && follower.election_timer.is_new(),
    {
        StateMachineWorker {
            work_queue: Vec::new(),
            state_machine: StateMachineExecutorImpl::new(shared_state),
        }
    }

    /// Makes a time step, and then accepts every message that has arrived.
    pub fn turn(&mut self) -> (outcome: TurnOutcome)
        requires
            old(self).state_machine.state_delegate.wf(),
        ensures
            final(self).state_machine.state_delegate.wf(),
            !old(self).state_machine.can_step() ==> outcome is Exhausted && *final(self) == *old(
                self,
            ),
            old(self).state_machine.can_step() ==> exists|
                stepped: StateMachineExecutorImpl,
                timed: u64,
                accepted: int,
            |
                {
                    &&& #[trigger] old(self).turns_via(stepped, timed, accepted, *final(self))
                    &&& match outcome {
                        TurnOutcome::GoOn => final(self).work_queue@.len() == 0 && (timed > 0
                            || accepted > 0),
                        TurnOutcome::BackOff => final(self).work_queue@.len() == 0 && timed == 0
                            && accepted == 0,
                        TurnOutcome::Exhausted => final(self).work_queue@.len() > 0
                            && !final(self).state_machine.can_accept(final(self).work_queue@[0]),
                    }
                },
    {
        if !self.state_machine.is_ready_to_step() {
            return TurnOutcome::Exhausted;
        }
        let timed: u64 = self.state_machine.time_step();
        let ghost stepped = self.state_machine;
        let ghost all = self.work_queue@;
        let total: usize = self.work_queue.len();
        let mut accepted: usize = 0;
        assert(all.skip(0) =~= all);
        while self.work_queue.len() > 0
            invariant
                self.state_machine.state_delegate.wf(),
                all == old(self).work_queue@,
                accepted <= total == all.len(),
                old(self).state_machine.can_step(),
                old(self).turns_via(stepped, timed, accepted as int, *self),
            decreases all.len() - accepted,
        {
            let ghost before = *self;
            if !self.state_machine.is_ready_to_accept(&self.work_queue[0]) {
                return TurnOutcome::Exhausted;
            }
            let message = self.work_queue.remove(0);
            assert(before.work_queue@[0] == all[accepted as int]);
            self.state_machine.accept(message);
            proof {
                let taken = all.take(accepted + 1);
                assert(taken.drop_last() =~= all.take(accepted as int));
                assert(taken.last() == message);
                assert(before.state_machine.accepts_to(taken.last(), self.state_machine));
                assert(self.work_queue@ =~= all.skip(accepted + 1));
            }
            accepted = accepted + 1;
        }
        if timed > 0 || accepted > 0 {
            TurnOutcome::GoOn
        } else {
            TurnOutcome::BackOff
        }
    }
}

/// Messages are accepted one after the other: one message leads where it leads alone, and
/// a list of messages where its first part leads, followed by the rest.
pub proof fn law_messages_are_accepted_in_order(
    before: StateMachineExecutorImpl,
    first: Seq<LocalRaftMessage>,
    middle: StateMachineExecutorImpl,
    second: Seq<LocalRaftMessage>,
    after: StateMachineExecutorImpl,
)
    requires
        before.accepts_all(first, middle),
        middle.accepts_all(second, after),
    ensures
        before.accepts_all(first + second, after),
        first.len() == 0 ==> middle == before,
        first.len() == 1 ==> {
            &&& before.shared_state@.accepts(
                before.state_delegate.node_type(),
                first[0],
                middle.shared_state@,
                middle.state_delegate.node_type(),
            )
            &&& before.state_delegate.hears(
                before.shared_state@,
                first[0],
                middle.state_delegate,
            )
        },
    decreases second.len(),
{
    if first.len() == 1 {
        let start = choose|start: StateMachineExecutorImpl|
            before.accepts_all(first.drop_last(), start) && #[trigger] start.accepts_to(
                first.last(),
                middle,
            );
        assert(before.accepts_all(first.drop_last(), start));
        assert(start == before);
    }
    if second.len() == 0 {
        assert(first + second =~= first);
    } else {
        let later = choose|later: StateMachineExecutorImpl|
            middle.accepts_all(second.drop_last(), later) && #[trigger] later.accepts_to(
                second.last(),
                after,
            );
        law_messages_are_accepted_in_order(before, first, middle, second.drop_last(), later);
        assert((first + second).drop_last() =~= first + second.drop_last());
        assert((first + second).last() == second.last());
    }
}

/// A turn makes its time step first, and then takes messages from the front: each message
/// that was waiting is accepted or still waits, in the order in which it came.
pub proof fn law_turn_loses_no_message(
    before: StateMachineWorker,
    stepped: StateMachineExecutorImpl,
    timed: u64,
    accepted: int,
    after: StateMachineWorker,
    taken: Seq<LocalRaftMessage>,
)
    requires
        before.turns_via(stepped, timed, accepted, after),
        taken == before.work_queue@.take(before.work_queue@.len() - after.work_queue@.len()),
    ensures
        before.state_machine.steps_to(stepped, timed),
        stepped.accepts_all(taken, after.state_machine),
        before.work_queue@ == taken + after.work_queue@,
        taken.len() == accepted,
{
    assert(before.work_queue@ =~= taken + after.work_queue@);
}

} // verus!
