use std::collections::HashMap;

use bus::Bus;
use crossbeam_channel::{unbounded, Receiver};
use kraft_lib::persistence::worker::{PersistenceResponseType, PersistenceTaskType};
use kraft_lib::query::worker::{QueryRequest, QueryWorker};
use kraft_lib::quorum::messages::RemoteQuorumMessage;
use kraft_lib::quorum::quorum_worker::pending::CallbackPoll;
use kraft_lib::quorum::quorum_worker::QuorumWorker;
use kraft_lib::raft::candidate::RaftCandidateStateDelegate;
use kraft_lib::raft::executor::StateDelegate;
use kraft_lib::raft::leader::replication::get_quorum_worker_index;
use kraft_lib::raft::leader::RaftLeaderStateDelegate;
use kraft_lib::raft::raft_sm::{
    Callback, CommitState, LocalRaftMessage, LocalRaftMessagePayload, LocalRaftResponsePayload,
    LocalRaftWriteBatchRequest, LocalRequestVoteRequest, RaftNodeType, RaftProtocol,
    RaftServerState, StateMachineConfig,
};
use kraft_lib::raft::shared_state::{RaftVolatileState, SharedState};
use kraft_lib::raft::state_machine_worker::{StateMachineWorker, TurnOutcome};
use kraft_lib::service_utils::app_time::now_millis;
use kraft_lib::service_utils::storage_utils::RemotePutRequest;
use minstant::Anchor;

fn shared_state(identity: u32) -> (SharedState, Receiver<PersistenceTaskType>) {
    let (persistence_tx, persistence_rx) = unbounded();
    (
        SharedState {
            server_state: RaftServerState { current_term: 1, leader_id: 1 },
            volatile_server_state: RaftVolatileState {
                next_term: 2,
                last_log_term: 0,
                last_log_index: 0,
                commit_index: 0,
                replication_log: vec![],
                replication_log_term_starts: HashMap::new(),
                last_applied: 0,
                next_log_index: 0,
                commit_state: CommitState { commit_index: 0, version: 0 },
                last_broadcast_index: None,
                has_deferred_broadcast: false,
            },
            next_message_id: 1,
            outstanding_messages: HashMap::new(),
            quorum_size: 1,
            quorum_worker_tasks: vec![vec![]],
            persistence_work: persistence_tx,
            persistence_response: vec![],
            quorum_response: vec![],
            identity,
            term_votes: HashMap::new(),
            state_machine_config: StateMachineConfig { max_message_size_bytes: 2048 },
            log_entry_bus: Bus::new(100),
            responses: vec![],
            anchor: Anchor::new(),
        },
        persistence_rx,
    )
}

/// One node with the worker of its only peer, and a reader of its log.
struct Node {
    machine: StateMachineWorker,
    peer: QuorumWorker,
    sent: Receiver<RemoteQuorumMessage>,
    disk: Receiver<PersistenceTaskType>,
    reader: QueryWorker,
}

impl Node {
    fn new(identity: u32, peer: u64) -> Node {
        let (mut state, disk) = shared_state(identity);
        let reader = QueryWorker::new(state.log_entry_bus.add_rx());
        let mut peer = QuorumWorker::new(identity, 0, peer, "localhost:5001".to_string(), 0, 2048);
        let (tx, sent) = unbounded();
        peer.outbound_tx = Some(tx);
        Node { machine: StateMachineWorker::new(state), peer, sent, disk, reader }
    }

    fn state(&mut self) -> &mut SharedState {
        &mut self.machine.state_machine.shared_state
    }

    /// Whatever was to be written is on disk now.
    fn persist(&mut self) {
        while let Ok(task) = self.disk.try_recv() {
            match task {
                PersistenceTaskType::AppendLog { id, .. } => {
                    self.state()
                        .persistence_response
                        .push(PersistenceResponseType::LogPersisted { id });
                }
                _ => panic!("Expected AppendLog task"),
            }
        }
    }

    /// One round of the state machine and of the worker of the peer.
    fn round(&mut self, now: u128) {
        let requests: Vec<LocalRaftMessage> = self.peer.task_queue.drain(..).collect();
        self.machine.work_queue.extend(requests);
        self.machine.turn();
        self.persist();
        self.machine.turn();
        let tasks: Vec<_> = self.state().quorum_worker_tasks[0].drain(..).collect();
        self.peer.work_queue.extend(tasks);
        let mut polls = Vec::new();
        for pending in 0..self.peer.pending_tasks.len() {
            let callback = self.peer.pending_tasks[pending].callback;
            let found = self.state().responses.iter().position(|r| r.callback == callback);
            polls.push(match found {
                Some(place) => CallbackPoll::Ready(self.state().responses.remove(place).message),
                None => CallbackPoll::Empty,
            });
        }
        self.peer.process_pending_task_responses(polls);
        self.peer.process_work_queue(now);
        let reports: Vec<_> = self.peer.response_queue.drain(..).collect();
        self.state().quorum_response.extend(reports);
    }

    fn receive(&mut self, from: &Node) {
        while let Ok(message) = from.sent.try_recv() {
            self.peer.inbound.push(message);
        }
        self.peer.process_incoming_messages();
        let reports: Vec<_> = self.peer.response_queue.drain(..).collect();
        self.state().quorum_response.extend(reports);
    }

    fn log(&mut self) -> Vec<(u64, u64, usize)> {
        self.state()
            .volatile_server_state
            .replication_log
            .iter()
            .map(|e| (e.index, e.term, e.requests.len()))
            .collect()
    }

    fn read(&mut self, key: &str) -> Option<String> {
        self.reader.pending_queries.push(QueryRequest {
            id: key.to_string(),
            index: 0,
            callback: Callback { id: 3 },
        });
        let commit = self.state().volatile_server_state.commit_state;
        self.reader.step(commit);
        self.reader.take_replies().remove(0).response.value.map(|v| v.to_string())
    }
}

fn write(key: &str, value: &str, callback: u64) -> LocalRaftMessage {
    LocalRaftMessage {
        payload: LocalRaftMessagePayload::WriteBatch(LocalRaftWriteBatchRequest {
            requests: vec![RemotePutRequest {
                id: key.to_string(),
                payload: value.to_string(),
                node_id: 1,
            }],
        }),
        callback: Callback { id: callback },
    }
}

fn leader_and_follower() -> (Node, Node) {
    let mut leader = Node::new(1, 2);
    leader.machine.state_machine.state_delegate =
        StateDelegate::Leader(RaftLeaderStateDelegate::new(&Anchor::new()));
    (leader, Node::new(2, 1))
}

fn exchange(leader: &mut Node, follower: &mut Node, rounds: u128) {
    for round in 0..rounds {
        leader.round(1_000 + round);
        follower.receive(leader);
        follower.round(1_000 + round);
        leader.receive(follower);
    }
}

#[test]
fn write_is_read_on_every_node_once_committed() {
    let (mut leader, mut follower) = leader_and_follower();
    leader.machine.work_queue.push(write("k", "old", 50));
    leader.machine.work_queue.push(write("k", "new", 51));
    leader.round(1_000);
    // Nobody has acknowledged the writes.
    assert_eq!(leader.read("k"), None);
    assert!(leader.state().responses.is_empty());
    follower.receive(&leader);
    follower.round(1_000);
    leader.receive(&follower);
    exchange(&mut leader, &mut follower, 3);

    assert_eq!(leader.log(), vec![(0, 1, 0), (1, 1, 1), (2, 1, 1)]);
    assert_eq!(follower.log(), leader.log());
    assert_eq!(leader.state().volatile_server_state.commit_index, 2);
    for callback in [50, 51] {
        let response = leader.state().responses.remove(0);
        assert_eq!(response.callback, Callback { id: callback });
        match response.message.payload {
            LocalRaftResponsePayload::WriteBatch(batch) => assert!(batch.err.is_none()),
            _ => panic!("Expected WriteBatch response"),
        }
    }
    assert_eq!(leader.read("k"), Some("new".to_string()));
    assert_eq!(leader.read("other"), None);

    // The follower hears of the commit with the next heartbeat.
    assert!(leader.peer.heartbeat_at(2_000));
    follower.receive(&leader);
    follower.round(2_000);
    assert_eq!(follower.state().volatile_server_state.commit_index, 2);
    assert_eq!(follower.read("k"), Some("new".to_string()));
}

#[test]
fn lagging_and_diverging_follower_gets_the_log_of_the_leader() {
    let (mut leader, mut follower) = leader_and_follower();
    leader.machine.work_queue.push(write("a", "1", 50));
    leader.machine.work_queue.push(write("b", "2", 51));
    leader.round(1_000);
    follower.receive(&leader);
    follower.round(1_000);
    leader.receive(&follower);
    leader.round(1_001);
    assert_eq!(follower.log().len(), 3);

    // What the follower took from another leader of term 1 is not in the log.
    let stray = std::sync::Arc::clone(&follower.state().volatile_server_state.replication_log[2]);
    follower.state().volatile_server_state.replication_log.push(stray);
    follower.state().volatile_server_state.last_log_index = 3;
    while leader.sent.try_recv().is_ok() {}

    assert!(leader.peer.heartbeat_at(2_000));
    exchange(&mut leader, &mut follower, 2);
    assert_eq!(follower.log(), leader.log());
    assert_eq!(follower.state().volatile_server_state.last_log_index, 2);

    // What the follower lacks is sent to it.
    follower.state().volatile_server_state.replication_log.truncate(1);
    follower.state().volatile_server_state.last_log_index = 0;
    assert!(leader.peer.heartbeat_at(3_000));
    exchange(&mut leader, &mut follower, 4);
    assert_eq!(follower.log(), leader.log());
}

#[test]
fn worker_says_whether_there_was_something_to_do() {
    let (state, _disk) = shared_state(2);
    let mut worker = StateMachineWorker::new(state);
    assert_eq!(worker.turn(), TurnOutcome::BackOff);
    worker.work_queue.push(LocalRaftMessage {
        payload: LocalRaftMessagePayload::GetRaftState,
        callback: Callback { id: 9 },
    });
    assert_eq!(worker.turn(), TurnOutcome::GoOn);
    assert!(worker.work_queue.is_empty());
    assert_eq!(worker.state_machine.shared_state.responses.len(), 1);

    worker.state_machine.shared_state.next_message_id = u64::MAX;
    assert_eq!(worker.turn(), TurnOutcome::Exhausted);
}

#[test]
fn message_beyond_the_limits_stays_in_the_queue() {
    let (state, _disk) = shared_state(2);
    let mut worker = StateMachineWorker::new(state);
    worker.work_queue.push(LocalRaftMessage {
        payload: LocalRaftMessagePayload::RequestVote(LocalRequestVoteRequest {
            term: u64::MAX,
            candidate_id: 3,
            last_log_index: 0,
            last_log_term: 0,
        }),
        callback: Callback { id: 9 },
    });
    assert_eq!(worker.turn(), TurnOutcome::Exhausted);
    assert_eq!(worker.work_queue.len(), 1);
    assert_eq!(worker.state_machine.state_delegate.get_node_type(), RaftNodeType::Follower);
}

#[test]
fn candidate_votes_once_per_term() {
    let (mut state, _disk) = shared_state(2);
    let mut candidate = RaftCandidateStateDelegate::new();
    let request = |candidate_id: u32| LocalRequestVoteRequest {
        term: 5,
        candidate_id,
        last_log_index: 0,
        last_log_term: 0,
    };
    candidate.request_vote(request(1), Callback { id: 1 }, &mut state);
    candidate.request_vote(request(3), Callback { id: 2 }, &mut state);
    assert_eq!(state.term_votes.get(&5), Some(&1));
    assert_eq!(state.volatile_server_state.next_term, 6);
    // The second candidate is refused at once, the first waits for the disk.
    assert_eq!(state.responses.len(), 1);
    assert_eq!(state.responses[0].callback, Callback { id: 2 });
    assert_eq!(
        matches!(
            state.responses[0].message.payload,
            LocalRaftResponsePayload::RequestVote(false)
        ),
        true
    );
}

#[test]
fn every_peer_has_a_worker_of_its_own() {
    for identity in 1..=5u32 {
        let workers: Vec<usize> = (1..=5u64)
            .filter(|peer| *peer != identity as u64)
            .map(|peer| get_quorum_worker_index(peer, identity))
            .collect();
        assert_eq!(workers, vec![0, 1, 2, 3]);
    }
}

#[test]
fn follower_answers_a_batch_that_no_entry_could_hold() {
    let (state, _disk) = shared_state(2);
    let mut worker = StateMachineWorker::new(state);
    let requests = (0..70_000)
        .map(|i| RemotePutRequest { id: i.to_string(), payload: String::new(), node_id: 1 })
        .collect();
    worker.work_queue.push(LocalRaftMessage {
        payload: LocalRaftMessagePayload::WriteBatch(LocalRaftWriteBatchRequest { requests }),
        callback: Callback { id: 9 },
    });
    assert_eq!(worker.turn(), TurnOutcome::GoOn);
    assert!(worker.work_queue.is_empty());
    match &worker.state_machine.shared_state.responses[0].message.payload {
        LocalRaftResponsePayload::WriteBatch(batch) => {
            assert_eq!(batch.err.as_deref(), Some("Received write batch as non-leader"));
        }
        _ => panic!("Expected WriteBatch response"),
    }
}

#[test]
fn leader_cannot_take_a_batch_that_no_entry_could_hold() {
    let requests = (0..70_000)
        .map(|i| RemotePutRequest { id: i.to_string(), payload: String::new(), node_id: 1 })
        .collect();
    let message = LocalRaftMessage {
        payload: LocalRaftMessagePayload::WriteBatch(LocalRaftWriteBatchRequest { requests }),
        callback: Callback { id: 9 },
    };
    assert!(!message.within_limits(RaftNodeType::Leader));
    assert!(message.within_limits(RaftNodeType::Candidate));
    assert!(write("a", "1", 3).within_limits(RaftNodeType::Leader));
}

#[test]
fn leader_takes_the_lead_once() {
    let (mut leader, _follower) = leader_and_follower();
    for _ in 0..3 {
        leader.machine.turn();
    }
    assert_eq!(leader.log(), vec![(0, 1, 0)]);
    match &leader.machine.state_machine.state_delegate {
        StateDelegate::Leader(delegate) => assert!(delegate.initialized),
        _ => panic!("Expected a leader"),
    }
}

#[test]
fn candidate_tries_again_later() {
    let (mut state, _disk) = shared_state(2);
    let mut candidate = RaftCandidateStateDelegate::new();
    let before = now_millis(&state.anchor);
    candidate.time_step(&mut state);
    let after = now_millis(&state.anchor);
    assert!(candidate.initiate_election_timeout >= before + 500);
    assert!(candidate.initiate_election_timeout < after + 3000);
    let election = candidate.ongoing_election.unwrap();
    assert_eq!(election.term, 2);
    assert_eq!(state.volatile_server_state.next_term, 3);
}
