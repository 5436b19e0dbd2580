//! What a node answers to a request of another node, once its state machine has
//! answered. `None` stands for a state machine that is gone.

use crate::quorum::messages::{PutResponseView, RemotePutResponse};
use crate::raft::raft_sm::{
    LocalAppendEntriesCallbackResponse, LocalRaftResponseMessage, LocalRaftResponsePayload,
    ResponseView,
};
use vstd::prelude::*;

verus! {

/// Answers that the node is there.
#[derive(Debug, Default)]
pub struct PingServer {}

#[derive(Clone, Copy, Debug, PartialEq, Eq, Structural)]
pub struct RemoteAppendEntriesResponse {
    pub ok: bool,
}

#[derive(Clone, Copy, Debug, PartialEq, Eq, Structural)]
pub struct RemoteVoteResponse {
    pub vote_granted: bool,
    pub term: u64,
    pub request_id: u64,
}

#[derive(Debug)]
pub struct RemotePutBatchResponse {
    pub responses: Vec<RemotePutResponse>,
}

/// What the state machine has answered, if anything.
pub open spec fn answer(received: Option<LocalRaftResponseMessage>) -> Option<ResponseView> {
    match received {
        Some(message) => Some(message@),
        None => None,
    }
}

/// The answer to a request to append entries: whether they were accepted.
pub fn append_entries_response(received: Option<LocalRaftResponseMessage>) -> (response:
    RemoteAppendEntriesResponse)
    ensures
        response.ok == (answer(received) == Some(
            ResponseView::AppendEntries(LocalAppendEntriesCallbackResponse::Accepted),
        )),
{
    let ok: bool = match received {
        Some(message) => match message.payload {
            LocalRaftResponsePayload::AppendEntries(
                LocalAppendEntriesCallbackResponse::Accepted,
            ) => true,
            _ => false,
        },
        None => false,
    };
    RemoteAppendEntriesResponse { ok }
}

/// The answer to a request for a vote.
pub fn request_vote_response(
    received: Option<LocalRaftResponseMessage>,
    term: u64,
    request_id: u64,
) -> (response: RemoteVoteResponse)
    ensures
        response.vote_granted == (answer(received) == Some(ResponseView::RequestVote(true))),
        response.term == term,
        response.request_id == request_id,
{
    let vote_granted: bool = match received {
        Some(message) => match message.payload {
            LocalRaftResponsePayload::RequestVote(granted) => granted,
            _ => false,
        },
        None => false,
    };
    RemoteVoteResponse { vote_granted, term, request_id }
}

/// Whether a batch of writes was answered as such.
pub fn put_batch_ok(received: &Option<LocalRaftResponseMessage>) -> (ok: bool)
    ensures
        ok == (answer(*received) matches Some(ResponseView::WriteBatch { .. })),
{
    match received {
        Some(message) => match message.payload {
            LocalRaftResponsePayload::WriteBatch(_) => true,
            _ => false,
        },
        None => false,
    }
}

/// The answer to a batch of writes. It is the same whatever became of the batch.
pub fn put_batch_response(self_id: u32) -> (response: RemotePutBatchResponse)
    ensures
        response.responses@.len() == 1,
        response.responses@[0]@ == (PutResponseView {
            id: "1234"@,
            message: ""@,
            response_type: 0,
            batch_id: "111"@,
            node_id: self_id,
        }),
{
    let mut responses = Vec::new();
    responses.push(
        RemotePutResponse {
            id: "1234".to_owned(),
            message: "".to_owned(),
            response_type: 0,
            batch_id: "111".to_owned(),
            node_id: self_id,
        },
    );
    RemotePutBatchResponse { responses }
}

} // verus!
