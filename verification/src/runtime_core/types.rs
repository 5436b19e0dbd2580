//! The tasks of the runtime.

use crate::raft::raft_sm::Callback;
use std::sync::Arc;
use vstd::prelude::*;

verus! {

/// What a task of the runtime is about.
#[derive(Clone, Copy, Debug, PartialEq, Eq, Structural)]
pub enum CommandType {
    RequestVote,
    AppendEntries,
}

#[derive(Clone, Copy, Debug)]
pub struct Command {
    pub command_type: CommandType,
}

#[derive(Clone, Copy, Debug)]
pub struct RuntimeTaskResponse {}

pub struct RuntimeTask {
    pub command: Arc<Command>,
    pub callback: Callback,
}

} // verus!
