use kafka_protocol::codec::Encode;
use kafka_protocol::parser::record_set::record_set;
use kafka_protocol::record::{
    read_batch, record_batch, BatchError, BatchReadError, OwnedRecordBatch, Record, RecordBatch, RecordHeader,
};

const RECORD_SET: [u8; 76] = [
    0, 0, 0, 0, 0, 0, 0, 13, 0, 0, 0, 64, 0, 0, 0, 0, 2, 66, 249, 85, 185, 0, 0, 0, 0, 0, 0, 0, 0,
    0, 0, 0, 0, 0, 0, 0, 0, 0, 0, 0, 0, 0, 0, 0, 0, 0, 0, 0, 0, 0, 0, 0, 0, 0, 0, 0, 0, 0, 0, 0,
    1, 28, 0, 0, 0, 6, 107, 101, 121, 10, 118, 97, 108, 117, 101, 0,
];

fn sample_batch<'i>() -> OwnedRecordBatch<'i> {
    RecordBatch {
        base_offset: 13,
        partition_leader_epoch: 0,
        attributes: 0,
        last_offset_delta: 0,
        first_timestamp: 0,
        max_timestamp: 0,
        producer_id: 0,
        producer_epoch: 0,
        base_sequence: 0,
        records: vec![Record {
            attributes: 0,
            timestamp_delta: 0,
            offset_delta: 0,
            key: b"key",
            value: b"value",
            headers: vec![],
        }],
    }
}

fn framed(bytes: &[u8]) -> Vec<u8> {
    let mut out = (bytes.len() as i32).to_be_bytes().to_vec();
    out.extend_from_slice(bytes);
    out
}

#[test]
fn parse_record_set() {
    let (record_set, rest) = record_set(&RECORD_SET[..]).expect("Parse record_set");
    assert!(rest.is_empty(), "{:#?} {:?}", record_set, rest);
}

#[test]
fn record_set_fields_are_read() {
    let (rs, _) = record_set(&RECORD_SET[..]).unwrap();
    assert_eq!(rs.base_offset, 13);
    assert_eq!(rs.batch_length, 64);
    assert_eq!(rs.magic, 2);
    assert_eq!(rs.crc, i32::from_be_bytes([66, 249, 85, 185]));
    assert_eq!(rs.records.len(), 1);
    assert_eq!(rs.records[0].length, 14);
    assert_eq!(rs.records[0].key, b"key");
    assert_eq!(rs.records[0].value, b"value");
    assert!(rs.records[0].headers.is_empty());
}

#[test]
fn batch_encodes_to_known_bytes() {
    let batch = sample_batch();
    let mut out = Vec::new();
    batch.encode(&mut out);
    assert_eq!(out, RECORD_SET.to_vec());
    let mut framed_out = Vec::new();
    Some(sample_batch()).encode(&mut framed_out);
    assert_eq!(framed_out, framed(&RECORD_SET));
}

#[test]
fn batch_encode_len_leaves_out_record_lengths() {
    let batch = sample_batch();
    assert_eq!(batch.encode_len(), 61 + 14);
    assert_eq!(Some(sample_batch()).encode_len(), 4 + 61 + 14);
    let none: Option<OwnedRecordBatch> = None;
    assert_eq!(none.encode_len(), 4);
}

#[test]
fn batch_reads_back() {
    let bytes = framed(&RECORD_SET);
    let (batch, end) = record_batch(&bytes, 0).expect("valid batch");
    assert_eq!(end, bytes.len());
    assert_eq!(batch, Some(sample_batch()));
}

#[test]
fn batch_with_headers_round_trips() {
    let mut batch = sample_batch();
    batch.base_offset = -7;
    batch.attributes = 2;
    batch.max_timestamp = 1_600_000_000_000;
    batch.records.push(Record {
        attributes: 0,
        timestamp_delta: 300,
        offset_delta: 1,
        key: b"",
        value: b"second",
        headers: vec![RecordHeader { key: "h", value: b"v" }, RecordHeader { key: "k2", value: b"" }],
    });
    let mut out = Vec::new();
    Some(batch.clone()).encode(&mut out);
    let (back, end) = record_batch(&out, 0).expect("valid batch");
    assert_eq!(end, out.len());
    assert_eq!(back, Some(batch));
}

#[test]
fn batch_with_wrong_checksum_fails() {
    let mut bytes = framed(&RECORD_SET);
    bytes[4 + 20] ^= 1;
    assert_eq!(record_batch(&bytes, 0), Err(true));
}

#[test]
fn batch_with_changed_record_fails_checksum() {
    let mut bytes = framed(&RECORD_SET);
    let n = bytes.len();
    bytes[n - 2] = b'x';
    assert_eq!(record_batch(&bytes, 0), Err(true));
}

#[test]
fn batch_with_wrong_magic_fails() {
    let mut bytes = framed(&RECORD_SET);
    bytes[4 + 16] = 1;
    assert_eq!(record_batch(&bytes, 0), Err(true));
}

#[test]
fn null_or_empty_batch_is_none() {
    assert_eq!(record_batch(&[255, 255, 255, 255], 0), Ok((None, 4)));
    assert_eq!(record_batch(&[0, 0, 0, 0, 9], 0), Ok((None, 4)));
    let none: Option<OwnedRecordBatch> = None;
    let mut out = Vec::new();
    none.encode(&mut out);
    assert_eq!(out, vec![255, 255, 255, 255]);
}

#[test]
fn truncated_batch_fails() {
    assert_eq!(record_batch(&[0, 0], 0), Err(false));
    let bytes = framed(&RECORD_SET);
    assert_eq!(record_batch(&bytes[..bytes.len() - 1], 0), Err(true));
}

#[test]
fn verify_gives_batch_without_computed_fields() {
    let (rs, _) = record_set(&RECORD_SET[..]).unwrap();
    let batch = RecordBatch::verify(&RECORD_SET[..], rs).expect("checksum matches");
    assert_eq!(batch, sample_batch());
    let mut bad = RECORD_SET;
    bad[30] = 5;
    let (rs2, _) = record_set(&bad[..]).unwrap();
    assert_eq!(RecordBatch::verify(&bad[..], rs2), Err(BatchError::Corrupted));
}

#[test]
fn record_encodes_length_then_body() {
    let record = Record {
        attributes: 0,
        timestamp_delta: 0,
        offset_delta: 0,
        key: b"key",
        value: b"value",
        headers: vec![],
    };
    assert_eq!(record.encode_len(), 14);
    let mut out = Vec::new();
    record.encode(&mut out);
    assert_eq!(out, RECORD_SET[61..].to_vec());
}

#[test]
fn record_header_encodes() {
    let h = RecordHeader { key: "ab", value: &[1, 2, 3] };
    assert_eq!(h.encode_len(), 7);
    let mut out = Vec::new();
    h.encode(&mut out);
    assert_eq!(out, vec![4, b'a', b'b', 6, 1, 2, 3]);
}

#[test]
fn batches_that_can_be_written() {
    let batch = sample_batch();
    assert!(batch.can_write());
    assert!(batch.records[0].can_write());
    assert!(Some(sample_batch()).encodable());
    let none: Option<OwnedRecordBatch> = None;
    assert!(none.encodable());
}

#[test]
fn read_batch_tells_why_it_fails() {
    let mut bad_crc = framed(&RECORD_SET);
    bad_crc[4 + 20] ^= 1;
    assert_eq!(read_batch(&bad_crc, 0), Err(BatchReadError::Batch(BatchError::Corrupted)));
    let mut old_magic = framed(&RECORD_SET);
    old_magic[4 + 16] = 1;
    assert_eq!(read_batch(&old_magic, 0), Err(BatchReadError::Batch(BatchError::Version)));
    let mut old_magic_bad_crc = old_magic.clone();
    old_magic_bad_crc[4 + 20] ^= 1;
    assert_eq!(read_batch(&old_magic_bad_crc, 0), Err(BatchReadError::Batch(BatchError::Version)));
    assert_eq!(read_batch(&[0, 0, 0, 3, 1, 2, 3], 0), Err(BatchReadError::RecordSet));
    assert_eq!(read_batch(&[0, 0], 0), Err(BatchReadError::Bytes(false)));
    assert_eq!(read_batch(&[0, 0, 0, 9, 1], 0), Err(BatchReadError::Bytes(true)));
    assert_eq!(read_batch(&framed(&RECORD_SET), 0), Ok((Some(sample_batch()), 80)));
}

#[test]
fn verify_checks_magic_before_checksum() {
    let range = [0u8; 61];
    let (mut rs, _) = record_set(&range[..]).unwrap();
    rs.magic = 1;
    assert_eq!(RecordBatch::verify(&range[..], rs), Err(BatchError::Version));
    let (mut rs2, _) = record_set(&range[..]).unwrap();
    rs2.magic = 2;
    assert_eq!(RecordBatch::verify(&range[..], rs2), Err(BatchError::Corrupted));
}
