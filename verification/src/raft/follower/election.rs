//! The timer after which a follower stands for election.

use crate::raft::candidate::RaftCandidateStateDelegate;
use crate::raft::raft_sm::RaftMessageStateChange;
use crate::service_utils::app_time::{millis_after, now_millis, MAX_NOW_MILLIS};
use crate::service_utils::random::random_between;
use minstant::Anchor;
use vstd::prelude::*;

verus! {

/// Election timeout state and management.
pub struct ElectionTimer {
    pub election_timeout: u128,
    pub election_timeout_min: u128,
    pub election_timeout_max: u128,
}

impl ElectionTimer {
    /// There is a timeout to choose.
    pub open spec fn wf(self) -> bool {
        self.election_timeout_min < self.election_timeout_max <= u64::MAX
    }

    /// The timer once it is set to run out `timeout_ms` after `now`.
    pub open spec fn set(self, now: u128, timeout_ms: u64) -> ElectionTimer {
        ElectionTimer { election_timeout: (now + timeout_ms) as u128, ..self }
    }

    /// Whether the timer may stand at this timeout after a reset.
    pub open spec fn is_fresh(self) -> bool {
        self.election_timeout_min <= self.election_timeout < MAX_NOW_MILLIS
            + self.election_timeout_max
    }

    /// Whether the timer is one that was just made.
    pub open spec fn is_new(self) -> bool {
        &&& self.is_fresh()
        &&& self.election_timeout_min == 600
        &&& self.election_timeout_max == 1300
    }

    /// Whether the timer may come of a reset of `before`. The bounds of the
    /// timeout are kept.
    pub open spec fn is_reset_of(self, before: ElectionTimer) -> bool {
        &&& self.is_fresh()
        &&& self == (ElectionTimer { election_timeout: self.election_timeout, ..before })
    }

    pub fn new(anchor: &Anchor) -> (timer: ElectionTimer)
        ensures
            timer.wf(),
            timer.is_new(),
    {
        let mut timer = ElectionTimer {
            election_timeout: 0,
            election_timeout_min: 600,
            election_timeout_max: 1300,
        };
        timer.reset(anchor);
        timer
    }

    /// Sets the timer to run out `timeout_ms` after `now`.
    pub fn reset_at(&mut self, now: u128, timeout_ms: u64)
        requires
            now <= MAX_NOW_MILLIS,
        ensures
            *final(self) == old(self).set(now, timeout_ms),
    {
        self.election_timeout = millis_after(now, timeout_ms);
    }

    /// Resets the election timeout to a new random value.
    pub fn reset(&mut self, anchor: &Anchor)
        requires
            old(self).wf(),
        ensures
            final(self).is_reset_of(*old(self)),
    {
        let timeout_ms: u64 = random_between(
            self.election_timeout_min as u64,
            self.election_timeout_max as u64,
        );
        self.reset_at(now_millis(anchor), timeout_ms);
    }

    /// The role that a follower changes to at `now`: it stands for election once
    /// the timeout has expired.
    pub open spec fn change_at(self, now: u128) -> RaftMessageStateChange {
        if self.election_timeout < now {
            RaftMessageStateChange::Candidate(
                RaftCandidateStateDelegate { initiate_election_timeout: 0, ongoing_election: None },
            )
        } else {
            RaftMessageStateChange::Unchanged
        }
    }

    /// Whether the election timeout has expired at `now`.
    pub fn is_expired_at(&self, now: u128) -> (expired: bool)
        ensures
            expired == (self.election_timeout < now),
    {
        self.election_timeout < now
    }

    /// Checks if the election timeout has expired at `now`.
    /// Returns `Some(RaftMessageStateChange::Candidate)` if timeout expired, `None` otherwise.
    pub fn check_timeout_at(&self, now: u128) -> (change: Option<RaftMessageStateChange>)
        ensures
            change == if self.election_timeout < now {
                Some(
                    RaftMessageStateChange::Candidate(
                        RaftCandidateStateDelegate {
                            initiate_election_timeout: 0,
                            ongoing_election: None,
                        },
                    ),
                )
            } else {
                None
            },
    {
        if self.is_expired_at(now) {
            Some(RaftMessageStateChange::Candidate(RaftCandidateStateDelegate::new()))
        } else {
            None
        }
    }

    /// Checks if the election timeout has expired.
    /// Returns `Some(RaftMessageStateChange::Candidate)` if timeout expired, `None` otherwise.
    pub fn check_timeout(&self, anchor: &Anchor) -> (change: Option<RaftMessageStateChange>)
        ensures
            self.election_timeout >= MAX_NOW_MILLIS ==> change is None,
            change matches Some(change) ==> change == RaftMessageStateChange::Candidate(
                RaftCandidateStateDelegate { initiate_election_timeout: 0, ongoing_election: None },
            ),
    {
        self.check_timeout_at(now_millis(anchor))
    }
}

} // verus!
