use kafka_protocol::client::Client;
use kafka_protocol::consumer::{mk_fetch_requests, Builder, Consumer};
use kafka_protocol::error::ErrorCode;

#[test]
fn builder_sets_topic_and_group() {
    let consumer = Builder::new()
        .topic("events".to_string())
        .group_id("readers".to_string())
        .finish(Client::new(()), ErrorCode::NoError);
    assert!(consumer.is_ok());
}

#[test]
fn builder_fails_with_coordinator_error() {
    let consumer = Consumer::<()>::builder()
        .topic("events".to_string())
        .finish(Client::new(()), ErrorCode::CoordinatorNotAvailable);
    assert_eq!(consumer.err(), Some(ErrorCode::CoordinatorNotAvailable));
}

#[test]
fn fresh_consumer_fetches_nothing() {
    let mut consumer = Builder::new()
        .topic("t".to_string())
        .finish(Client::new(()), ErrorCode::NoError)
        .ok()
        .unwrap();
    let request = consumer.fetch_request();
    assert_eq!(request.replica_id, -1);
    assert_eq!(request.min_bytes, 1);
    assert_eq!(request.max_bytes, 1024 * 1024);
    assert_eq!(request.max_wait_time, 1000);
    assert_eq!(request.rack_id, "");
    assert!(request.topics.is_empty());
    assert!(request.forgotten_topics_data.is_empty());
    assert!(consumer.commit().is_ok());
}

#[test]
fn fetch_requests_per_partition() {
    let parts = mk_fetch_requests(&[(0, 5), (3, -1)]);
    assert_eq!(parts.len(), 2);
    assert_eq!(parts[0].partition, 0);
    assert_eq!(parts[0].fetch_offset, 5);
    assert_eq!(parts[0].partition_max_bytes, 1024 * 128);
    assert_eq!(parts[0].current_leader_epoch, 0);
    assert_eq!(parts[0].log_start_offset, 0);
    assert_eq!(parts[1].partition, 3);
    assert_eq!(parts[1].fetch_offset, -1);
    assert!(mk_fetch_requests(&[]).is_empty());
}

use kafka_protocol::consumer::FetchedRecords;
use kafka_protocol::parser::fetch_response::{FetchResponse, PartitionHeader, PartitionResponses, Responses};
use kafka_protocol::record::{RawRecords, RecordBatch};

fn batch_at<'a>(base_offset: i64) -> RecordBatch<RawRecords<'a>> {
    RecordBatch {
        base_offset,
        partition_leader_epoch: 0,
        attributes: 0,
        last_offset_delta: 0,
        first_timestamp: 0,
        max_timestamp: 0,
        producer_id: -1,
        producer_epoch: -1,
        base_sequence: -1,
        records: RawRecords { count: 0, bytes: b"" },
    }
}

fn partition<'a>(partition: i32, error_code: ErrorCode, record_set: Option<RecordBatch<RawRecords<'a>>>) -> PartitionResponses<'a> {
    PartitionResponses {
        partition_header: PartitionHeader {
            partition,
            error_code,
            high_watermark: 0,
            last_stable_offset: 0,
            log_start_offset: 0,
            aborted_transactions: vec![],
            preferred_read_replica: -1,
        },
        record_set,
    }
}

#[test]
fn batches_are_walked_from_the_end() {
    let response = FetchResponse {
        error_code: ErrorCode::NoError,
        session_id: 0,
        responses: vec![
            Responses { topic: "a", partition_responses: vec![partition(0, ErrorCode::NoError, Some(batch_at(1)))] },
            Responses {
                topic: "b",
                partition_responses: vec![
                    partition(0, ErrorCode::NoError, Some(batch_at(2))),
                    partition(1, ErrorCode::NoError, None),
                    partition(2, ErrorCode::NoError, Some(batch_at(3))),
                ],
            },
        ],
        responses_2: vec![],
    };
    let mut walk = FetchedRecords::new(response);
    let (topic, batch) = walk.next_batch().unwrap().unwrap();
    assert_eq!((topic, batch.base_offset), ("b", 3));
    let (topic, batch) = walk.next_batch().unwrap().unwrap();
    assert_eq!((topic, batch.base_offset), ("b", 2));
    let (topic, batch) = walk.next_batch().unwrap().unwrap();
    assert_eq!((topic, batch.base_offset), ("a", 1));
    assert_eq!(walk.next_batch().unwrap(), None);
    assert_eq!(walk.next_batch().unwrap(), None);
}

#[test]
fn partition_error_stops_the_walk_and_repeats() {
    let response = FetchResponse {
        error_code: ErrorCode::NoError,
        session_id: 0,
        responses: vec![Responses {
            topic: "t",
            partition_responses: vec![
                partition(0, ErrorCode::NoError, Some(batch_at(5))),
                partition(1, ErrorCode::NotLeaderForPartition, None),
            ],
        }],
        responses_2: vec![],
    };
    let mut walk = FetchedRecords::new(response);
    assert_eq!(walk.next_batch().err(), Some(ErrorCode::NotLeaderForPartition));
    assert_eq!(walk.next_batch().err(), Some(ErrorCode::NotLeaderForPartition));
}

#[test]
fn empty_response_has_no_batch() {
    let response = FetchResponse { error_code: ErrorCode::NoError, session_id: 0, responses: vec![], responses_2: vec![] };
    let mut walk = FetchedRecords::new(response);
    assert_eq!(walk.next_batch().unwrap(), None);
}

fn consumer_for(group: &str) -> Consumer<()> {
    Builder::new()
        .group_id(group.to_string())
        .topic("t".to_string())
        .finish(Client::new(()), ErrorCode::NoError)
        .ok()
        .unwrap()
}

#[test]
fn coordinator_request_asks_for_the_group() {
    let builder = Builder::new().group_id("readers".to_string());
    let request = builder.coordinator_request();
    assert_eq!(request.key, "readers");
    assert_eq!(request.key_type, 0);
}

#[test]
fn fetch_offsets_are_sorted_by_topic_name() {
    let mut consumer = consumer_for("g");
    let reply = vec![
        ("zeta".to_string(), vec![(0, ErrorCode::NoError, 7i64), (1, ErrorCode::NoError, 9)]),
        ("alpha".to_string(), vec![(2, ErrorCode::NoError, 3)]),
        ("beta".to_string(), vec![]),
    ];
    assert_eq!(consumer.update_fetch_offsets(ErrorCode::NoError, &reply), Ok(()));
    let request = consumer.fetch_request();
    let names: Vec<&str> = request.topics.iter().map(|t| t.topic).collect();
    assert_eq!(names, vec!["alpha", "beta", "zeta"]);
    assert_eq!(request.topics[0].partitions[0].partition, 2);
    assert_eq!(request.topics[0].partitions[0].fetch_offset, 3);
    assert!(request.topics[1].partitions.is_empty());
    assert_eq!(request.topics[2].partitions.len(), 2);
    assert_eq!(request.topics[2].partitions[1].fetch_offset, 9);
}

#[test]
fn offset_errors_leave_the_offsets_alone() {
    let mut consumer = consumer_for("g");
    let good = vec![("a".to_string(), vec![(0, ErrorCode::NoError, 1i64)])];
    assert_eq!(consumer.update_fetch_offsets(ErrorCode::NoError, &good), Ok(()));
    let bad = vec![
        ("b".to_string(), vec![(0, ErrorCode::NoError, 1i64)]),
        ("c".to_string(), vec![(0, ErrorCode::NoError, 1), (1, ErrorCode::OffsetOutOfRange, 0)]),
    ];
    assert_eq!(consumer.update_fetch_offsets(ErrorCode::NoError, &bad), Err(ErrorCode::OffsetOutOfRange));
    assert_eq!(consumer.update_fetch_offsets(ErrorCode::NotCoordinator, &good), Err(ErrorCode::NotCoordinator));
    let request = consumer.fetch_request();
    assert_eq!(request.topics.len(), 1);
    assert_eq!(request.topics[0].topic, "a");
}
