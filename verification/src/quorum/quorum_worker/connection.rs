//! The connection of a worker to its peer, and the pace of its rounds.

use crate::quorum::messages::RemoteQuorumMessage;
use crate::quorum::quorum_worker::{QuorumWorker, WorkerView};
use vstd::prelude::*;

verus! {

/// How long one round of the worker should take at least, in microseconds.
pub const DESIRED_CADENCE_MICROS: u128 = 25;

/// How long the worker waits after it could not connect, in milliseconds.
pub const RECONNECT_DELAY_MILLIS: u64 = 500;

/// What the worker needs to know, or have done, before it can start a round.
#[derive(Clone, Copy, Debug, PartialEq, Eq, Structural)]
pub enum ConnectionNeed {
    /// Whether the connection to the peer is still there.
    CheckOutbound,
    /// A connection to the peer.
    Connect,
}

impl QuorumWorker {
    /// What the worker needs first.
    pub fn connection_need(&self) -> (need: ConnectionNeed)
        ensures
            need == if self@.outbound is Some {
                ConnectionNeed::CheckOutbound
            } else {
                ConnectionNeed::Connect
            },
    {
        if self.outbound_tx.is_some() {
            ConnectionNeed::CheckOutbound
        } else {
            ConnectionNeed::Connect
        }
    }

    /// Notes whether the connection to the peer is still there. Returns whether
    /// the worker can start a round; if not, it needs a new connection.
    pub fn outbound_checked(&mut self, alive: bool) -> (ready: bool)
        ensures
            final(self)@ == if alive {
                old(self)@
            } else {
                WorkerView { outbound: None, ..old(self)@ }
            },
            ready == (alive && old(self)@.outbound is Some),
    {
        if !alive {
            self.outbound_tx = None;
        }
        self.outbound_tx.is_some()
    }

    /// Takes a new connection to the peer, if one could be made. Returns whether
    /// the worker can start a round: it needs a way to the peer for that.
    pub fn connected(
        &mut self,
        connection: Option<crossbeam_channel::Sender<RemoteQuorumMessage>>,
    ) -> (ready: bool)
        ensures
            final(self)@ == (WorkerView {
                outbound: crate::quorum::quorum_worker::link_view(connection),
                ..old(self)@
            }),
            ready == (connection is Some),
    {
        self.outbound_tx = connection;
        self.outbound_tx.is_some()
    }
}

/// How long to sleep after a round that took `elapsed_micros`. `None` means that
/// it is enough to let others run.
pub fn pause_after(elapsed_micros: u128) -> (pause: Option<u64>)
    ensures
        pause == if elapsed_micros < DESIRED_CADENCE_MICROS {
            Some((DESIRED_CADENCE_MICROS - elapsed_micros) as u64)
        } else {
            None
        },
{
    if elapsed_micros < DESIRED_CADENCE_MICROS {
        Some((DESIRED_CADENCE_MICROS - elapsed_micros) as u64)
    } else {
        None
    }
}

} // verus!
