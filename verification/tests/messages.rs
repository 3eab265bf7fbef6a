use kafka_protocol::codec::Encode;
use kafka_protocol::error::ErrorCode;
use kafka_protocol::parser::create_topics_request::{create_topics_request, Assignments, Configs, CreateTopicsRequest, Topics};
use kafka_protocol::parser::fetch_request::{fetch_request, FetchRequest};
use kafka_protocol::parser::fetch_response::{fetch_response, FetchResponse, PartitionHeader, PartitionResponses, Responses};
use kafka_protocol::parser::find_coordinator_request::{find_coordinator_request, FindCoordinatorRequest};
use kafka_protocol::parser::response_header::{response_header, ResponseHeader};
use kafka_protocol::record::{read_raw_batch, Record, RecordBatch};

#[test]
fn create_topics_request_round_trips() {
    let request = CreateTopicsRequest {
        timeout_ms: 1000,
        topics: vec![Topics {
            assignments: vec![Assignments { partition_index: 0, broker_ids: vec![1, 2] }],
            configs: vec![Configs { name: "retention.ms", value: Some("1000") }, Configs { name: "x", value: None }],
            name: "test",
            num_partitions: 1,
            replication_factor: 1,
        }],
        validate_only: false,
    };
    let mut out = Vec::new();
    request.encode(&mut out);
    assert_eq!(out.len(), request.encode_len());
    out.extend_from_slice(&[1, 2, 3]);
    let (back, rest) = create_topics_request(&out).expect("parses");
    assert_eq!(back, request);
    assert_eq!(rest, &[1, 2, 3][..]);
}

#[test]
fn find_coordinator_request_known_bytes() {
    let request = FindCoordinatorRequest { key: "test", key_type: 0 };
    let mut out = Vec::new();
    request.encode(&mut out);
    assert_eq!(out, vec![0, 4, b't', b'e', b's', b't', 0]);
    assert_eq!(find_coordinator_request(&out), Some((request, &[][..])));
    assert_eq!(find_coordinator_request(&out[..3]), None);
}

#[test]
fn fetch_request_round_trips() {
    let request = FetchRequest {
        replica_id: -1,
        session_epoch: 0,
        forgotten_topics_data: Vec::new(),
        isolation_level: 0,
        session_id: 0,
        min_bytes: 1,
        max_bytes: 1024 * 1024,
        rack_id: "",
        max_wait_time: 10,
        topics: vec![kafka_protocol::parser::fetch_request::Topics {
            topic: "test",
            partitions: kafka_protocol::consumer::mk_fetch_requests(&[(0, 42)]),
        }],
    };
    let mut out = Vec::new();
    request.encode(&mut out);
    let (back, rest) = fetch_request(&out).expect("parses");
    assert!(rest.is_empty());
    assert_eq!(back, request);
}

#[test]
fn response_header_reads_correlation_id() {
    let (header, rest) = response_header(&[0, 0, 0, 9, 1]).unwrap();
    assert_eq!(header, ResponseHeader { correlation_id: 9 });
    assert_eq!(rest, &[1][..]);
    assert_eq!(response_header(&[0, 0, 0]), None);
}

/// The bytes of a batch holding one record, written as a produce request
/// writes it, and read back with its records kept as they are.
fn written_batch(out: &mut Vec<u8>, attributes: i16) {
    let batch = RecordBatch {
        base_offset: 0,
        partition_leader_epoch: 0,
        attributes,
        last_offset_delta: 0,
        first_timestamp: 0,
        max_timestamp: 0,
        producer_id: -1,
        producer_epoch: -1,
        base_sequence: -1,
        records: vec![Record { attributes: 0, timestamp_delta: 0, offset_delta: 0, key: b"key", value: b"value", headers: vec![] }],
    };
    Some(batch).encode(out);
}

#[test]
fn fetch_response_with_batch_round_trips() {
    let mut written = Vec::new();
    written_batch(&mut written, 0);
    let (raw, _) = read_raw_batch(&written, 0).expect("a batch");
    let partition = PartitionResponses {
        partition_header: PartitionHeader {
            partition: 0,
            error_code: ErrorCode::NoError,
            high_watermark: 1,
            last_stable_offset: 1,
            log_start_offset: 0,
            aborted_transactions: vec![],
            preferred_read_replica: -1,
        },
        record_set: raw,
    };
    let response = FetchResponse {
        error_code: ErrorCode::NoError,
        session_id: 0,
        responses: vec![Responses { topic: "test", partition_responses: vec![partition] }],
        responses_2: vec![],
    };
    let mut out = Vec::new();
    response.encode(&mut out);
    let (back, rest) = fetch_response(&out).expect("parses");
    assert!(rest.is_empty());
    assert_eq!(back, response);
    let record_set = back.responses[0].partition_responses[0].record_set.as_ref().expect("record_set should not be empty");
    assert_eq!(record_set.records.count, 1);
    let bytes = record_set.decompressed().unwrap();
    let records = record_set.decode_records(&bytes).unwrap();
    assert_eq!(records.len(), 1);
    assert_eq!(std::str::from_utf8(records[0].key).unwrap(), "key");
    assert_eq!(std::str::from_utf8(records[0].value).unwrap(), "value");
}

#[test]
fn message_with_long_string_is_not_encodable() {
    let long = "k".repeat(40000);
    assert!(!FindCoordinatorRequest { key: &long, key_type: 0 }.encodable());
    assert!(FindCoordinatorRequest { key: "g", key_type: 1 }.encodable());
}
