use kafka_protocol::compression::{decompress, DecompressError};
use kafka_protocol::record::{Record, RecordBatch};

#[test]
fn uncompressed_bytes_are_kept() {
    assert_eq!(decompress(0, &[1, 2, 3]), Ok(vec![1, 2, 3]));
    assert_eq!(decompress(0, &[]), Ok(vec![]));
}

#[test]
fn snappy_bytes_are_decompressed() {
    assert_eq!(decompress(2, &[5, 0x10, b'h', b'e', b'l', b'l', b'o']), Ok(b"hello".to_vec()));
    let data = b"records records records records records".to_vec();
    let compressed = snap::raw::Encoder::new().compress_vec(&data).unwrap();
    assert_ne!(compressed, data);
    assert_eq!(decompress(2, &compressed), Ok(data));
}

#[test]
fn bad_snappy_bytes_fail() {
    assert_eq!(decompress(2, &[5]), Err(DecompressError::Snappy));
    assert_eq!(decompress(2, &[]), Err(DecompressError::Snappy));
}

#[test]
fn other_compressions_are_unsupported() {
    assert_eq!(decompress(1, &[1]), Err(DecompressError::Unsupported(1)));
    assert_eq!(decompress(4, &[1]), Err(DecompressError::Unsupported(4)));
}

#[test]
fn batch_compression_is_the_low_bits() {
    let mut batch = RecordBatch {
        base_offset: 0,
        partition_leader_epoch: 0,
        attributes: 0b1010,
        last_offset_delta: 0,
        first_timestamp: 0,
        max_timestamp: 0,
        producer_id: 0,
        producer_epoch: 0,
        base_sequence: 0,
        records: Vec::<Record>::new(),
    };
    assert_eq!(batch.compression(), 2);
    batch.attributes = -1;
    assert_eq!(batch.compression(), 7);
}
