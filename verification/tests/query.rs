use std::sync::Arc;

use bus::Bus;
use kraft_lib::query::worker::{QueryPause, QueryRequest, QueryWorker};
use kraft_lib::raft::raft_sm::{Callback, CommitState};
use kraft_lib::service_utils::storage_utils::{RemotePutRequest, SerializationData};

fn entry(index: u64, term: u64, writes: &[(&str, &str)]) -> Arc<SerializationData> {
    Arc::new(SerializationData {
        index,
        term,
        timestamp: 0,
        prev_index: 0,
        prev_term: 0,
        message_id: 0,
        requests: writes
            .iter()
            .map(|(id, payload)| RemotePutRequest {
                id: id.to_string(),
                payload: payload.to_string(),
                node_id: 0,
            })
            .collect(),
    })
}

fn query(id: &str, index: u64, callback: u64) -> QueryRequest {
    QueryRequest { id: id.to_string(), index, callback: Callback { id: callback } }
}

fn commit(commit_index: u64, version: u64) -> CommitState {
    CommitState { commit_index, version }
}

fn answers(worker: &mut QueryWorker) -> Vec<(u64, Option<String>)> {
    worker
        .take_replies()
        .into_iter()
        .map(|r| (r.callback.id, r.response.value.map(|v| v.to_string())))
        .collect()
}

#[test]
fn reads_see_what_was_written_last() {
    let mut bus = Bus::new(16);
    let mut worker = QueryWorker::new(bus.add_rx());
    bus.broadcast(entry(1, 1, &[("a", "1"), ("b", "2"), ("a", "3")]));
    bus.broadcast(entry(2, 1, &[("b", "4")]));
    worker.pending_queries.push(query("a", 0, 10));
    worker.pending_queries.push(query("b", 2, 11));
    worker.pending_queries.push(query("c", 1, 12));
    assert_eq!(worker.step(commit(2, 1)), QueryPause::GoOn);
    assert_eq!(
        answers(&mut worker),
        vec![(10, Some("3".to_string())), (11, Some("4".to_string())), (12, None)]
    );
    assert_eq!(worker.step(commit(2, 1)), QueryPause::BackOff);
}

#[test]
fn reads_wait_for_their_index_and_hold_up_others() {
    let mut bus = Bus::new(16);
    let mut worker = QueryWorker::new(bus.add_rx());
    bus.broadcast(entry(1, 1, &[("a", "1")]));
    worker.pending_queries.push(query("a", 2, 10));
    worker.pending_queries.push(query("a", 0, 11));
    assert_eq!(worker.step(commit(1, 1)), QueryPause::GoOn);
    assert!(answers(&mut worker).is_empty());
    assert_eq!(worker.step(commit(1, 1)), QueryPause::Yield);
    bus.broadcast(entry(2, 1, &[("a", "2")]));
    assert_eq!(worker.step(commit(2, 2)), QueryPause::GoOn);
    assert_eq!(
        answers(&mut worker),
        vec![(10, Some("2".to_string())), (11, Some("2".to_string()))]
    );
}

#[test]
fn entries_wait_for_their_commit() {
    let mut bus = Bus::new(16);
    let mut worker = QueryWorker::new(bus.add_rx());
    bus.broadcast(entry(1, 1, &[("a", "1")]));
    bus.broadcast(entry(2, 1, &[("a", "2")]));
    bus.broadcast(entry(3, 1, &[("a", "3")]));
    worker.step(commit(1, 1));
    assert_eq!(worker.applied_index, 1);
    assert!(worker.parked.is_some());
    // The same version says nothing new.
    assert!(!worker.apply_committed(commit(3, 1)));
    assert!(worker.apply_committed(commit(3, 2)));
    assert_eq!(worker.applied_index, 3);
    worker.pending_queries.push(query("a", 3, 1));
    worker.process_queries();
    assert_eq!(answers(&mut worker), vec![(1, Some("3".to_string()))]);
}

#[test]
fn truncation_empties_the_store() {
    let mut bus = Bus::new(16);
    let mut worker = QueryWorker::new(bus.add_rx());
    bus.broadcast(entry(1, 1, &[("a", "1")]));
    bus.broadcast(entry(u64::MAX, u64::MAX, &[]));
    bus.broadcast(entry(1, 2, &[("b", "2")]));
    worker.pending_queries.push(query("a", 0, 1));
    worker.pending_queries.push(query("b", 0, 2));
    worker.step(commit(1, 1));
    assert_eq!(answers(&mut worker), vec![(1, None), (2, Some("2".to_string()))]);
}

#[test]
fn entry_without_writes_moves_the_index_only_when_it_was_kept() {
    let mut bus = Bus::new(16);
    let mut worker = QueryWorker::new(bus.add_rx());
    bus.broadcast(entry(1, 1, &[]));
    bus.broadcast(entry(2, 1, &[]));
    assert!(worker.apply_committed(commit(1, 1)));
    assert_eq!(worker.applied_index, 0);
    assert!(worker.apply_committed(commit(2, 2)));
    assert_eq!(worker.applied_index, 2);
}

#[test]
fn unknown_key_has_no_value() {
    let mut bus: Bus<Arc<SerializationData>> = Bus::new(1);
    let mut worker = QueryWorker::new(bus.add_rx());
    worker.handle_query(query("nothing", 0, 5));
    assert_eq!(answers(&mut worker), vec![(5, None)]);
}

#[test]
fn one_step_takes_all_that_is_committed() {
    let mut bus = Bus::new(200);
    let mut worker = QueryWorker::new(bus.add_rx());
    for i in 1..=100u64 {
        bus.broadcast(entry(i, 1, &[("a", &i.to_string())]));
    }
    worker.step(commit(100, 1));
    assert_eq!(worker.applied_index, 100);
    // Nothing is asked for while the version is the same.
    bus.broadcast(entry(101, 1, &[("a", "x")]));
    worker.step(commit(101, 1));
    assert_eq!(worker.applied_index, 100);
    worker.step(commit(101, 2));
    assert_eq!(worker.applied_index, 101);
}
