use kraft_lib::persistence::recovery::entry_end_offsets;
use kraft_lib::service_utils::storage_utils::{
    deserialize_all_data, deserialize_all_data_as_arc, deserialize_data, requests_can_be_stored,
    serialize_data, RemotePutRequest, SerializationData,
};

#[test]
fn test_serialization() {
    let requests = vec![
        RemotePutRequest {
            id: "1".to_string(),
            payload: "data1".to_string(),
            node_id: 0,
        },
        RemotePutRequest {
            id: "2".to_string(),
            payload: "data2".to_string(),
            node_id: 0,
        },
    ];
    let serialization_data = SerializationData {
        index: 1,
        term: 1,
        timestamp: 1234567890,
        prev_index: 0,
        prev_term: 1,
        message_id: 123,
        requests,
    };

    let buffer = vec![0u8; 2048];
    let offset = 0usize;
    let (limit, mut serialized_data) = serialize_data(&serialization_data, buffer, offset);
    serialized_data.truncate(limit);
    let (offset, deserialized_data) = deserialize_data(&serialized_data, 0).unwrap();

    assert_eq!(deserialized_data.index, 1);
    assert_eq!(deserialized_data.term, 1);
    assert_eq!(deserialized_data.timestamp, 1234567890);
    assert_eq!(deserialized_data.prev_index, 0);
    assert_eq!(deserialized_data.prev_term, 1);
    assert_eq!(deserialized_data.message_id, 123);
    assert_eq!(deserialized_data.requests.len(), 2);
    assert_eq!(deserialized_data.requests[0].payload, "data1");
    assert_eq!(deserialized_data.requests[0].id, "1");
    assert_eq!(deserialized_data.requests[1].payload, "data2");
    assert_eq!(deserialized_data.requests[1].id, "2");
    assert_eq!(offset, limit);
}

#[test]
fn test_serialization_buffer_with_multiple_log_entries() {

    let requests_idx1 = vec![
        RemotePutRequest {
            id: "1".to_string(),
            payload: "data1".to_string(),
            node_id: 0,
        },
        RemotePutRequest {
            id: "2".to_string(),
            payload: "data2".to_string(),
            node_id: 0,
        },
    ];
    let serialization_data_idx1 = SerializationData {
        index: 1,
        term: 1,
        timestamp: 1234567890,
        prev_index: 0,
        prev_term: 0,
        message_id: 123,
        requests: requests_idx1,
    };

    let requests_idx2 = vec![
        RemotePutRequest {
            id: "3".to_string(),
            payload: "data3".to_string(),
            node_id: 0,
        },
        RemotePutRequest {
            id: "4".to_string(),
            payload: "data4".to_string(),
            node_id: 0,
        },
    ];
    let serialization_data_idx2 = SerializationData {
        index: 2,
        term: 2,
        timestamp: 1234567891,
        requests: requests_idx2,
        prev_index: 1,
        prev_term: 1,
        message_id: 456,
    };

    let buffer = vec![0u8; 2048];
    let (offset1, buffer) = serialize_data(&serialization_data_idx1, buffer, 0usize);
    let (offset2, mut buffer) = serialize_data(&serialization_data_idx2, buffer, offset1);
    buffer.truncate(offset2);

    let (offset3, deserialized_data_idx1) = deserialize_data(&buffer, 0usize).unwrap();
    let (offset4, deserialized_data_idx2) = deserialize_data(&buffer, offset3).unwrap();

    assert_eq!(deserialized_data_idx1.index, 1);
    assert_eq!(deserialized_data_idx1.term, 1);
    assert_eq!(deserialized_data_idx1.timestamp, 1234567890);
    assert_eq!(deserialized_data_idx1.prev_index, 0);
    assert_eq!(deserialized_data_idx1.prev_term, 0);
    assert_eq!(deserialized_data_idx1.message_id, 123);
    assert_eq!(deserialized_data_idx1.requests.len(), 2);
    assert_eq!(deserialized_data_idx1.requests[0].payload, "data1");
    assert_eq!(deserialized_data_idx1.requests[0].id, "1");
    assert_eq!(deserialized_data_idx1.requests[1].id, "2");
    assert_eq!(deserialized_data_idx1.requests[1].payload, "data2");
    assert_eq!(deserialized_data_idx2.index, 2);
    assert_eq!(deserialized_data_idx2.term, 2);
    assert_eq!(deserialized_data_idx2.timestamp, 1234567891);
    assert_eq!(deserialized_data_idx2.prev_index, 1);
    assert_eq!(deserialized_data_idx2.prev_term, 1);
    assert_eq!(deserialized_data_idx2.message_id, 456);
    assert_eq!(deserialized_data_idx2.requests.len(), 2);
    assert_eq!(deserialized_data_idx2.requests[0].id, "3");
    assert_eq!(deserialized_data_idx2.requests[0].payload, "data3");
    assert_eq!(deserialized_data_idx2.requests[1].id, "4");
    assert_eq!(deserialized_data_idx2.requests[1].payload, "data4");
    assert_eq!(offset3, offset1);
    assert_eq!(offset4, offset2);
    assert_eq!(buffer.len(), offset2);
}

#[test]
fn test_deserialize_all() {

    let requests_idx1 = vec![
        RemotePutRequest {
            id: "1".to_string(),
            payload: "data1".to_string(),
            node_id: 0,
        },
        RemotePutRequest {
            id: "2".to_string(),
            payload: "data2".to_string(),
            node_id: 0,
        },
    ];
    let serialization_data_idx1 = SerializationData {
        index: 1,
        term: 1,
        timestamp: 1234567890,
        prev_index: 0,
        prev_term: 0,
        message_id: 123,
        requests: requests_idx1,
    };

    let requests_idx2 = vec![
        RemotePutRequest {
            id: "3".to_string(),
            payload: "data3".to_string(),
            node_id: 0,
        },
        RemotePutRequest {
            id: "4".to_string(),
            payload: "data4".to_string(),
            node_id: 0,
        },
    ];
    let serialization_data_idx2 = SerializationData {
        index: 2,
        term: 2,
        timestamp: 1234567891,
        prev_index: 1,
        prev_term: 1,
        message_id: 456,
        requests: requests_idx2,
    };

    let buffer = vec![0u8; 2048];
    let (offset1, buffer) = serialize_data(&serialization_data_idx1, buffer, 0usize);
    let (offset2, mut buffer) = serialize_data(&serialization_data_idx2, buffer, offset1);
    buffer.truncate(offset2);

    let data = deserialize_all_data(&buffer).unwrap();

    assert_eq!(data[0].index, 1);
    assert_eq!(data[0].term, 1);
    assert_eq!(data[0].timestamp, 1234567890);
    assert_eq!(data[0].prev_index, 0);
    assert_eq!(data[0].prev_term, 0);
    assert_eq!(data[0].message_id, 123);
    assert_eq!(data[0].requests.len(), 2);
    assert_eq!(data[0].requests[0].payload, "data1");
    assert_eq!(data[0].requests[0].id, "1");
    assert_eq!(data[0].requests[1].payload, "data2");
    assert_eq!(data[0].requests[1].id, "2");
    assert_eq!(data[1].index, 2);
    assert_eq!(data[1].term, 2);
    assert_eq!(data[1].timestamp, 1234567891);
    assert_eq!(data[1].prev_index, 1);
    assert_eq!(data[1].prev_term, 1);
    assert_eq!(data[1].message_id, 456);
    assert_eq!(data[1].requests.len(), 2);
    assert_eq!(data[1].requests[0].payload, "data3");
    assert_eq!(data[1].requests[0].id, "3");
    assert_eq!(data[1].requests[1].payload, "data4");
    assert_eq!(data[1].requests[1].id, "4");
}

fn small_entry() -> SerializationData {
    SerializationData {
        index: 3,
        term: 2,
        timestamp: 258,
        prev_index: 1,
        prev_term: 4,
        message_id: 5,
        requests: vec![RemotePutRequest {
            id: "k".to_string(),
            payload: "\u{e9}".to_string(),
            node_id: 9,
        }],
    }
}

#[test]
fn bytes_of_an_entry() {
    let bytes = small_entry().as_bytes();
    let mut expected = vec![48, 0, 1, 0, 1, 0, 0, 0];
    for number in [258u64, 2, 3, 1, 4, 5] {
        expected.extend_from_slice(&number.to_le_bytes());
    }
    expected.extend_from_slice(&[0, 0, 1, 0]);
    expected.extend_from_slice(&[1, 0, 0, 0, b'k']);
    expected.extend_from_slice(&[2, 0, 0, 0, 0xc3, 0xa9]);
    assert_eq!(bytes, expected);
}

#[test]
fn entry_is_read_back_without_its_node() {
    let entry = small_entry();
    let bytes = entry.as_bytes();
    let (end, read) = deserialize_data(&bytes, 0).unwrap();
    assert_eq!(end, bytes.len());
    assert_eq!(read.requests[0].id, "k");
    assert_eq!(read.requests[0].payload, "\u{e9}");
    assert_eq!(read.requests[0].node_id, 0);
    assert_eq!(read.as_bytes(), bytes);
}

#[test]
fn text_that_is_not_utf8_is_repaired() {
    let mut bytes = small_entry().as_bytes();
    let last = bytes.len() - 1;
    bytes[last] = b'x';
    let (_, read) = deserialize_data(&bytes, 0).unwrap();
    assert_eq!(read.requests[0].payload, "\u{fffd}x");
}

#[test]
fn malformed_entries_are_refused() {
    let bytes = small_entry().as_bytes();
    for end in 0..bytes.len() {
        let result = deserialize_data(&bytes[..end], 0);
        assert_eq!(result.unwrap_err(), "Malformed log entry");
    }
    let mut wrong_header = bytes.clone();
    wrong_header[2] = 2;
    assert!(deserialize_data(&wrong_header, 0).is_err());
    let mut trailing = bytes.clone();
    trailing.push(0);
    assert!(deserialize_all_data(&trailing).is_err());
    assert!(deserialize_all_data_as_arc(&trailing).is_err());
    assert!(deserialize_all_data(&[]).unwrap().is_empty());
}

#[test]
fn ends_of_the_entries_of_a_log() {
    let first = small_entry().as_bytes();
    let mut log = first.clone();
    let mut second = small_entry();
    second.requests.clear();
    log.extend_from_slice(&second.as_bytes());
    assert_eq!(
        entry_end_offsets(&log).unwrap(),
        vec![first.len() as u64, log.len() as u64]
    );
    assert_eq!(deserialize_all_data_as_arc(&log).unwrap().len(), 2);
    log.push(1);
    assert_eq!(entry_end_offsets(&log).unwrap_err(), "Malformed log entry");
}

#[test]
fn too_many_writes_cannot_be_stored() {
    let one = RemotePutRequest { id: String::new(), payload: String::new(), node_id: 0 };
    let mut requests = vec![one.clone(); 65535];
    assert!(requests_can_be_stored(&requests));
    requests.push(one);
    assert!(!requests_can_be_stored(&requests));
}

#[test]
fn entries_are_compared_by_what_they_hold() {
    let entry = small_entry();
    let mut other = entry.clone();
    assert!(entry == other);
    other.requests[0].payload.push('x');
    assert!(entry != other);
    assert!(entry.requests[0] != other.requests[0]);
}
