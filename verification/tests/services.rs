use std::sync::Arc;
use std::time::Duration;

use kraft_lib::client::{
    calculate_percentile, channel_of, next_request, request_key, request_value, should_write,
    should_write_hashed, LoadTestConfig, MetricsCollector,
};
use kraft_lib::kraft_replication_schema::command_type::CommandType;
use kraft_lib::persistence::worker::VoteRow;
use kraft_lib::raft::raft_sm::{
    LocalAppendEntriesCallbackResponse, LocalRaftResponseMessage, LocalRaftResponsePayload,
    LocalRaftWriteBatchResponse,
};
use kraft_lib::server::{
    append_entries_response, put_batch_ok, put_batch_response, request_vote_response,
};
use kraft_lib::service_utils::app_time::{millis_after, nanos_to_millis, now_millis, now_plus_duration_millis};
use kraft_lib::service_utils::errors::{ChannelErrorExt, ServiceError};
use kraft_lib::service_utils::storage_utils::SerializationData;
use kraft_lib::service_utils::text::decimal_text;
use kraft_lib::service_utils::tracing_utils::{
    context_of_headers, headers_of_context, span_to_tracing_context, tracing_context_to_span,
    TracingContext, TracingContextEntry,
};
use kraft_lib::startup::{last_position, seen_term, term_starts, votes_by_term};
use opentelemetry::trace::TraceContextExt;
use minstant::Anchor;

#[test]
fn texts_of_all_errors() {
    let s = |text: &str| text.to_string();
    let cases = vec![
        (ServiceError::ThrottlingError(s("x")), "Throttling: x"),
        (ServiceError::RaceConditionError, "Race condition detected"),
        (
            ServiceError::ConnectionError { node_id: 3, message: s("m") },
            "Connection error to node 3: m",
        ),
        (
            ServiceError::ConnectionLost { node_id: 4, message: s("m") },
            "Connection lost to node 4: m",
        ),
        (
            ServiceError::TimeoutError { operation: s("op"), timeout_ms: 250 },
            "Timeout after 250ms during: op",
        ),
        (
            ServiceError::MessageTooLarge { size: 10, max_size: 9 },
            "Message size 10 exceeds maximum 9",
        ),
        (
            ServiceError::NotLeader { leader_id: Some(5) },
            "Not leader, current leader is node 5",
        ),
        (ServiceError::NotLeader { leader_id: None }, "Not leader, leader unknown"),
        (
            ServiceError::QuorumNotReached { required: 3, achieved: 1 },
            "Quorum not reached: need 3, got 1",
        ),
        (
            ServiceError::TermMismatch { expected: 7, actual: 6 },
            "Term mismatch: expected 7, got 6",
        ),
        (
            ServiceError::LogEntryRejected { index: 8, reason: s("r") },
            "Log entry at index 8 rejected: r",
        ),
        (
            ServiceError::PersistenceWriteError { message: s("m") },
            "Persistence write error: m",
        ),
        (ServiceError::PersistenceReadError { message: s("m") }, "Persistence read error: m"),
        (ServiceError::DataCorruption { message: s("m") }, "Data corruption: m"),
        (
            ServiceError::ConfigError { field: s("f"), message: s("m") },
            "Config error in 'f': m",
        ),
        (ServiceError::MissingConfig { field: s("f") }, "Missing required config: f"),
        (ServiceError::SerializationError { message: s("m") }, "Serialization error: m"),
        (ServiceError::DeserializationError { message: s("m") }, "Deserialization error: m"),
        (ServiceError::ChannelSendError { channel: s("c") }, "Channel send error on 'c'"),
        (ServiceError::ChannelRecvError { channel: s("c") }, "Channel receive error on 'c'"),
        (ServiceError::ChannelFull { channel: s("c") }, "Channel 'c' is full"),
        (ServiceError::InternalError { message: s("m") }, "Internal error: m"),
        (ServiceError::Cancelled { operation: s("o") }, "Operation cancelled: o"),
    ];
    for (error, text) in &cases {
        assert_eq!(error.to_string(), *text);
    }
}

#[test]
fn errors_are_compared_by_kind() {
    let s = |text: &str| text.to_string();
    assert!(ServiceError::ThrottlingError(s("a")) == ServiceError::ThrottlingError(s("a")));
    assert!(ServiceError::ThrottlingError(s("a")) != ServiceError::ThrottlingError(s("b")));
    assert!(ServiceError::RaceConditionError == ServiceError::RaceConditionError);
    assert!(
        ServiceError::InternalError { message: s("a") }
            == ServiceError::InternalError { message: s("b") }
    );
    assert!(
        ServiceError::InternalError { message: s("a") }
            != ServiceError::DataCorruption { message: s("a") }
    );
}

#[test]
fn channel_errors_name_their_channel() {
    let (tx, rx) = crossbeam_channel::unbounded::<u8>();
    drop(rx);
    let failed: Result<u8, crossbeam_channel::SendError<u8>> = tx.send(1).map(|_| 1);
    match failed.map_channel_err("work") {
        Err(ServiceError::ChannelSendError { channel }) => assert_eq!(channel, "work"),
        _ => panic!("Expected ChannelSendError"),
    }
    let fine: Result<u8, crossbeam_channel::SendError<u8>> = Ok(7);
    assert!(matches!(fine.map_channel_err("work"), Ok(7)));
}

#[test]
fn numbers_as_text() {
    assert_eq!(decimal_text(0), "0");
    assert_eq!(decimal_text(10), "10");
    assert_eq!(decimal_text(u64::MAX), "18446744073709551615");
}

#[test]
fn command_types_are_read_back() {
    for (command, code, name) in [
        (CommandType::PUT, 80u8, "PUT"),
        (CommandType::DELETE, 68, "DELETE"),
        (CommandType::NullVal, 0, "NullVal"),
    ] {
        assert_eq!(u8::from(command), code);
        assert_eq!(CommandType::from(code), command);
        assert_eq!(command.to_string(), name);
        assert_eq!(name.parse::<CommandType>(), Ok(command));
    }
    assert_eq!(CommandType::from(81), CommandType::NullVal);
    assert_eq!(CommandType::from_name("put"), CommandType::NullVal);
    assert_eq!(CommandType::default(), CommandType::NullVal);
}

#[test]
fn answers_to_other_nodes() {
    let message = |payload| Some(LocalRaftResponseMessage { payload });
    let accepted = LocalAppendEntriesCallbackResponse::Accepted;
    let unknown = LocalAppendEntriesCallbackResponse::UnrecognizedLeader;
    assert!(append_entries_response(message(LocalRaftResponsePayload::AppendEntries(accepted))).ok);
    assert!(!append_entries_response(message(LocalRaftResponsePayload::AppendEntries(unknown))).ok);
    assert!(!append_entries_response(message(LocalRaftResponsePayload::RequestVote(true))).ok);
    assert!(!append_entries_response(None).ok);

    let granted = request_vote_response(message(LocalRaftResponsePayload::RequestVote(true)), 3, 9);
    assert!(granted.vote_granted);
    assert_eq!((granted.term, granted.request_id), (3, 9));
    assert!(!request_vote_response(message(LocalRaftResponsePayload::RequestVote(false)), 3, 9).vote_granted);
    assert!(!request_vote_response(message(LocalRaftResponsePayload::NoPayload), 3, 9).vote_granted);
    assert!(!request_vote_response(None, 3, 9).vote_granted);

    let written = LocalRaftWriteBatchResponse { responses: vec![], err: None };
    assert!(put_batch_ok(&message(LocalRaftResponsePayload::WriteBatch(written))));
    assert!(!put_batch_ok(&message(LocalRaftResponsePayload::RaftState { leader_id: 1 })));
    assert!(!put_batch_ok(&None));
    let response = put_batch_response(4);
    assert_eq!(response.responses.len(), 1);
    assert_eq!(response.responses[0].id, "1234");
    assert_eq!(response.responses[0].batch_id, "111");
    assert_eq!(response.responses[0].node_id, 4);
}

#[test]
fn latencies_are_summarised() {
    let mut collector = MetricsCollector::new();
    let empty = collector.summary();
    assert_eq!((empty.p50_micros, empty.min_micros, empty.max_micros, empty.count), (0, 0, 0, 0));
    for latency in (1..=100).rev() {
        collector.record_latency(latency);
    }
    collector.record_error();
    assert_eq!(collector.completed(), 100);
    let summary = collector.summary();
    assert_eq!(summary.completed, 100);
    assert_eq!(summary.errors, 1);
    assert_eq!(summary.p50_micros, 51);
    assert_eq!(summary.p75_micros, 76);
    assert_eq!(summary.p95_micros, 96);
    assert_eq!(summary.p99_micros, 100);
    assert_eq!((summary.min_micros, summary.max_micros), (1, 100));
    assert_eq!((summary.sum_micros, summary.count), (5050, 100));
    assert_eq!(collector.latencies[0], 1);
    assert_eq!(calculate_percentile(&vec![5, 6, 7], 100), 7);
    assert_eq!(calculate_percentile(&vec![5, 6, 7], 34), 6);
}

#[test]
fn counters_start_again() {
    let mut collector = MetricsCollector::new();
    collector.completed = u64::MAX;
    collector.record_latency(1);
    assert_eq!(collector.completed(), 0);
}

#[test]
fn default_load_test() {
    let config = LoadTestConfig::default();
    assert_eq!(config.concurrency, 1000);
    assert_eq!(config.max_requests, 500_000);
    assert_eq!(config.endpoints[2], "http://[::1]:50053");
    assert!(should_write_hashed(21_999, 2_000));
    assert!(!should_write_hashed(22_000, 2_000));
}

#[test]
fn mixed_load_is_spread_by_hashes() {
    let writes = (0..10_000u64).filter(|id| should_write(*id, 2_000)).count();
    assert!(writes > 1_700 && writes < 2_300);
    let again = (0..10_000u64).filter(|id| should_write(*id, 2_000)).count();
    assert_eq!(writes, again);
    assert!(!should_write(7, 0));
    assert!(should_write(7, 10_000));
}

#[test]
fn requests_are_numbered_and_spread_over_servers() {
    let mut next: u64 = 0;
    assert_eq!(next_request(&mut next, 2), Some(0));
    assert_eq!(next_request(&mut next, 2), Some(1));
    assert_eq!(next_request(&mut next, 2), None);
    assert_eq!(next, 2);
    assert_eq!(channel_of(7, 3), 1);
    assert_eq!(request_key(120), "120");
    assert_eq!(request_value(0), "value-0");
}

#[test]
fn outcomes_are_counted() {
    let mut metrics = MetricsCollector::new();
    metrics.record_outcome(Some(30));
    metrics.record_outcome(None);
    metrics.record_outcome(Some(10));
    assert_eq!(metrics.completed(), 2);
    let summary = metrics.summary();
    assert_eq!(summary.errors, 1);
    assert_eq!(summary.min_micros, 10);
    assert_eq!(summary.max_micros, 30);
    assert_eq!(summary.sum_micros, 40);
}

#[test]
fn time_is_in_milliseconds() {
    assert_eq!(nanos_to_millis(1_999_999), 1);
    assert_eq!(millis_after(10, 5), 15);
    let anchor = Anchor::new();
    let before = now_millis(&anchor);
    // A part of a millisecond is dropped.
    let later = now_plus_duration_millis(&anchor, Duration::from_nanos(5_000_999_999));
    let after = now_millis(&anchor);
    assert!(before > 1_600_000_000_000);
    assert!(before + 5_000 <= later && later <= after + 5_000);
}

#[test]
fn headers_and_contexts() {
    let headers = vec![
        ("a".to_string(), "1".to_string()),
        ("b".to_string(), "2".to_string()),
    ];
    let context = context_of_headers(headers.clone());
    assert_eq!(context.entries[1].key, "b");
    assert_eq!(headers_of_context(&context), headers);
    assert!(TracingContext::default().entries.is_empty());
}

#[test]
fn spans_are_carried_over() {
    let propagator = opentelemetry_zipkin::Propagator::with_encoding(
        opentelemetry_zipkin::B3Encoding::SingleHeader,
    );
    let header = "0af7651916cd43dd8448eb211c80319c-b7ad6b7169203331-1";
    let context = TracingContext {
        entries: vec![TracingContextEntry { key: "b3".to_string(), value: header.to_string() }],
    };
    let span = tracing_context_to_span(&context, &propagator);
    assert_eq!(
        span.span().span_context().trace_id().to_string(),
        "0af7651916cd43dd8448eb211c80319c"
    );
    let carried = span_to_tracing_context(&span, &propagator);
    let single: Vec<&TracingContextEntry> =
        carried.entries.iter().filter(|e| e.key == "b3").collect();
    assert_eq!(single.len(), 1);
    assert_eq!(single[0].value, header);
}

#[test]
fn recovered_log_and_votes_give_the_position() {
    let entry = |index: u64, term: u64, prev_term: u64| {
        Arc::new(SerializationData {
            index,
            term,
            timestamp: 0,
            prev_index: index.saturating_sub(1),
            prev_term,
            message_id: 0,
            requests: vec![],
        })
    };
    let log = vec![entry(0, 1, 0), entry(1, 1, 1), entry(2, 3, 1)];
    let vote = |term: u64, candidate_id: u32| VoteRow { term, candidate_id };
    let votes = vec![vote(2, 1), vote(5, 2), vote(2, 3)];
    assert_eq!(last_position(&log), (2, 3));
    assert_eq!(last_position(&vec![]), (0, 0));
    assert_eq!(seen_term(&log, &votes), 5);
    assert_eq!(seen_term(&log, &vec![]), 3);
    assert_eq!(seen_term(&vec![], &vec![]), 0);
    let by_term = votes_by_term(&votes);
    assert_eq!((by_term.get(&2), by_term.get(&5), by_term.len()), (Some(&3), Some(&2), 2));
    let starts = term_starts(&log);
    assert_eq!((starts.get(&1), starts.get(&3), starts.len()), (Some(&0), Some(&2), 2));
}

#[test]
fn commands_are_ordered_by_their_codes() {
    assert!(CommandType::NullVal < CommandType::DELETE);
    assert!(CommandType::DELETE < CommandType::PUT);
    let mut commands = vec![CommandType::PUT, CommandType::NullVal, CommandType::DELETE];
    commands.sort();
    let codes: Vec<u8> = commands.into_iter().map(u8::from).collect();
    assert_eq!(codes, vec![0, 68, 80]);
}

#[test]
fn errors_do_not_count_as_completed() {
    let mut metrics = MetricsCollector::new();
    for latency in 0..7 {
        metrics.record_error();
        metrics.record_latency(latency);
        metrics.record_error();
    }
    assert_eq!(metrics.completed(), 7);
    assert_eq!(metrics.errors, 14);
    assert_eq!(metrics.latencies, vec![0, 1, 2, 3, 4, 5, 6]);
}

#[test]
fn load_test_configuration_can_be_copied() {
    let config = LoadTestConfig::default();
    let copy = config.clone();
    assert_eq!(copy.endpoints, config.endpoints);
    assert_eq!(copy.timeout_secs, 5);
}
