use kafka_protocol::codec::Encode;
use kafka_protocol::compression::DecompressError;
use kafka_protocol::consumer::FetchedRecords;
use kafka_protocol::error::ErrorCode;
use kafka_protocol::parser::fetch_response::{fetch_response, FetchResponse, PartitionHeader, PartitionResponses, Responses};
use kafka_protocol::record::{
    raw_record_batch, read_raw_batch, BatchError, BatchReadError, RawRecords, Record, RecordBatch, RecordsError,
};

fn records<'a>() -> Vec<Record<'a>> {
    vec![
        Record { attributes: 0, timestamp_delta: 0, offset_delta: 0, key: b"key", value: b"value", headers: vec![] },
        Record { attributes: 0, timestamp_delta: 5, offset_delta: 1, key: b"k2", value: b"second value", headers: vec![] },
    ]
}

/// An uncompressed batch of the two records, as written to the wire.
fn written() -> Vec<u8> {
    let batch = RecordBatch {
        base_offset: 7,
        partition_leader_epoch: 3,
        attributes: 0,
        last_offset_delta: 1,
        first_timestamp: 100,
        max_timestamp: 105,
        producer_id: -1,
        producer_epoch: -1,
        base_sequence: -1,
        records: records(),
    };
    let mut out = Vec::new();
    Some(batch).encode(&mut out);
    out
}

fn partition<'a>(record_set: Option<RecordBatch<RawRecords<'a>>>) -> PartitionResponses<'a> {
    PartitionResponses {
        partition_header: PartitionHeader {
            partition: 0,
            error_code: ErrorCode::NoError,
            high_watermark: 2,
            last_stable_offset: 2,
            log_start_offset: 0,
            aborted_transactions: vec![],
            preferred_read_replica: -1,
        },
        record_set,
    }
}

#[test]
fn raw_batch_keeps_fields_and_record_bytes() {
    let w = written();
    let (raw, end) = read_raw_batch(&w, 0).unwrap();
    let raw = raw.unwrap();
    assert_eq!(end, w.len());
    assert_eq!(raw.base_offset, 7);
    assert_eq!(raw.partition_leader_epoch, 3);
    assert_eq!(raw.last_offset_delta, 1);
    assert_eq!(raw.first_timestamp, 100);
    assert_eq!(raw.max_timestamp, 105);
    assert_eq!(raw.records.count, 2);
    assert_eq!(raw.records.bytes, &w[4 + 61..]);
    assert_eq!(raw.compression(), 0);
    let bytes = raw.decompressed().unwrap();
    assert_eq!(raw.decode_records(&bytes), Some(records()));
}

#[test]
fn raw_batch_is_written_back_as_read() {
    let w = written();
    let (raw, _) = read_raw_batch(&w, 0).unwrap();
    assert!(raw.encodable());
    assert_eq!(raw.encode_len(), w.len());
    let mut out = Vec::new();
    raw.encode(&mut out);
    assert_eq!(out, w);
    assert_eq!(raw_record_batch(&out, 0), Ok((raw, out.len())));
}

#[test]
fn null_and_empty_raw_batches_are_none() {
    assert_eq!(read_raw_batch(&[255, 255, 255, 255], 0), Ok((None, 4)));
    assert_eq!(read_raw_batch(&[0, 0, 0, 0], 0), Ok((None, 4)));
    let none: Option<RecordBatch<RawRecords>> = None;
    assert_eq!(none.encode_len(), 4);
}

#[test]
fn raw_batch_errors_say_why() {
    assert_eq!(read_raw_batch(&[0, 0], 0), Err(BatchReadError::Bytes(false)));
    assert_eq!(read_raw_batch(&[0, 0, 0, 3, 1, 2, 3], 0), Err(BatchReadError::RecordSet));
    let w = written();
    let mut wrong_magic = w.clone();
    wrong_magic[4 + 16] = 1;
    assert_eq!(read_raw_batch(&wrong_magic, 0), Err(BatchReadError::Batch(BatchError::Version)));
    let mut corrupted = w.clone();
    let last = corrupted.len() - 1;
    corrupted[last] ^= 1;
    assert_eq!(read_raw_batch(&corrupted, 0), Err(BatchReadError::Batch(BatchError::Corrupted)));
    assert_eq!(raw_record_batch(&corrupted, 0), Err(true));
    assert_eq!(raw_record_batch(&[0, 0], 0), Err(false));
}

#[test]
fn decode_records_reads_exactly_count() {
    let w = written();
    let (raw, _) = read_raw_batch(&w, 0).unwrap();
    let mut raw = raw.unwrap();
    let bytes = raw.records.bytes;
    raw.records.count = 1;
    assert_eq!(raw.decode_records(bytes), Some(records()[..1].to_vec()));
    raw.records.count = 0;
    assert_eq!(raw.decode_records(bytes), Some(vec![]));
    raw.records.count = 3;
    assert_eq!(raw.decode_records(bytes), None);
    raw.records.count = -1;
    assert_eq!(raw.decode_records(bytes), None);
}

#[test]
fn unsupported_compression_is_refused() {
    let w = written();
    let (raw, _) = read_raw_batch(&w, 0).unwrap();
    let mut raw = raw.unwrap();
    raw.attributes = 1;
    assert_eq!(raw.decompressed(), Err(DecompressError::Unsupported(1)));
    raw.attributes = 4;
    assert_eq!(raw.decompressed(), Err(DecompressError::Unsupported(4)));
}

#[test]
fn snappy_batch_is_fetched_and_decompressed() {
    let w = written();
    let (raw, _) = read_raw_batch(&w, 0).unwrap();
    let raw = raw.unwrap();
    let compressed = snap::raw::Encoder::new().compress_vec(raw.records.bytes).unwrap();
    assert_ne!(compressed.as_slice(), raw.records.bytes);
    let snappy = RecordBatch {
        attributes: 2,
        records: RawRecords { count: 2, bytes: &compressed },
        ..raw
    };
    let response = FetchResponse {
        error_code: ErrorCode::NoError,
        session_id: 0,
        responses: vec![Responses { topic: "test", partition_responses: vec![partition(Some(snappy))] }],
        responses_2: vec![],
    };
    let mut out = Vec::new();
    response.encode(&mut out);
    let (back, rest) = fetch_response(&out).expect("parses");
    assert!(rest.is_empty());
    let mut walk = FetchedRecords::new(back);
    let (topic, batch) = walk.next_batch().unwrap().unwrap();
    assert_eq!(topic, "test");
    assert_eq!(batch.compression(), 2);
    let bytes = batch.decompressed().unwrap();
    assert_eq!(bytes.as_slice(), raw.records.bytes);
    let got = batch.decode_records(&bytes).unwrap();
    assert_eq!(got, records());
    let mut buf = Vec::new();
    assert_eq!(batch.records_into(&mut buf), Ok(records()));
    assert_eq!(walk.next_batch().unwrap(), None);
}

#[test]
fn records_into_says_why_it_fails() {
    let w = written();
    let (raw, _) = read_raw_batch(&w, 0).unwrap();
    let mut raw = raw.unwrap();
    let mut buf = vec![9];
    raw.attributes = 3;
    assert_eq!(raw.records_into(&mut buf), Err(RecordsError::Decompress(DecompressError::Unsupported(3))));
    assert_eq!(buf, vec![9]);
    raw.attributes = 0;
    raw.records.count = 5;
    assert_eq!(raw.records_into(&mut buf), Err(RecordsError::Records));
    assert_eq!(buf.as_slice(), raw.records.bytes);
    raw.records.count = 2;
    assert_eq!(raw.records_into(&mut buf), Ok(records()));
}
