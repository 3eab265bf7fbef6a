use kafka_protocol::api_key::{api_key, ApiKey};
use kafka_protocol::codec::{
    array, be_i16, be_i32, be_i64, be_i8, boolean, bytes, encode_var_i32, many, nullable_bytes,
    nullable_string, optional, put_be, put_bytes, put_int, reserve, string, varbytes,
    vararray, varint, varstring, Encode,
};
use kafka_protocol::error::ErrorCode;
use kafka_protocol::record::{encode_var_array, encode_var_bytes, encode_var_bytes_space, RecordHeader};
use kafka_protocol::{Acks, FETCH_EARLIEST_OFFSET, FETCH_LATEST_OFFSET};
use std::convert::TryFrom;

#[test]
fn integers_read_big_endian() {
    assert_eq!(be_i8(&[0xff], 0), Ok((-1, 1)));
    assert_eq!(be_i16(&[0x01, 0x02], 0), Ok((258, 2)));
    assert_eq!(be_i32(&[9, 0x80, 0, 0, 0], 1), Ok((i32::MIN, 5)));
    assert_eq!(be_i64(&[0, 0, 0, 0, 0, 0, 1, 0], 0), Ok((256, 8)));
    assert_eq!(be_i32(&[0, 0, 0], 0), Err(false));
    assert_eq!(be_i8(&[], 0), Err(false));
}

#[test]
fn integers_write_big_endian() {
    let mut out = Vec::new();
    put_int(&mut out, -2, 8);
    put_int(&mut out, 300, 2);
    put_int(&mut out, -1, 1);
    assert_eq!(out, vec![255, 255, 255, 255, 255, 255, 255, 254, 1, 44, 255]);
    let mut be = Vec::new();
    put_be(&mut be, 0x0102_0304, 4);
    put_bytes(&mut be, &[9, 8]);
    assert_eq!(be, vec![1, 2, 3, 4, 9, 8]);
}

#[test]
fn integers_round_trip() {
    for v in [i32::MIN, -1, 0, 1, 255, 256, i32::MAX] {
        let mut out = Vec::new();
        v.encode(&mut out);
        assert_eq!(out.len(), v.encode_len());
        assert_eq!(be_i32(&out, 0), Ok((v, 4)));
    }
    for v in [i64::MIN, -2, 0, i64::MAX] {
        let mut out = Vec::new();
        v.encode(&mut out);
        assert_eq!(be_i64(&out, 0), Ok((v, 8)));
    }
}

#[test]
fn booleans() {
    assert_eq!(boolean(&[0], 0), Ok((false, 1)));
    assert_eq!(boolean(&[7], 0), Ok((true, 1)));
    assert_eq!(boolean(&[], 0), Err(false));
    let mut out = Vec::new();
    true.encode(&mut out);
    false.encode(&mut out);
    assert_eq!(out, vec![1, 0]);
}

#[test]
fn strings() {
    assert_eq!(string(&[0, 2, b'h', b'i', 9], 0), Ok(("hi", 4)));
    assert_eq!(string(&[0, 3, b'h', b'i'], 0), Err(true));
    assert_eq!(string(&[0, 2, 0xff, 0xfe], 0), Err(true));
    assert_eq!(string(&[255, 255], 0), Err(true));
    assert_eq!(string(&[0], 0), Err(false));
    assert_eq!(nullable_string(&[255, 255], 0), Ok((None, 2)));
    assert_eq!(nullable_string(&[0, 1, b'x'], 0), Ok((Some("x"), 3)));
    let mut out = Vec::new();
    "abc".encode(&mut out);
    let none: Option<&str> = None;
    none.encode(&mut out);
    Some("z").encode(&mut out);
    assert_eq!(out, vec![0, 3, b'a', b'b', b'c', 255, 255, 0, 1, b'z']);
}

#[test]
fn byte_strings() {
    assert_eq!(bytes(&[0, 0, 0, 1, 7], 0), Ok((&[7u8][..], 5)));
    assert_eq!(bytes(&[255, 255, 255, 255], 0), Err(true));
    assert_eq!(nullable_bytes(&[255, 255, 255, 255], 0), Ok((None, 4)));
    assert_eq!(nullable_bytes(&[0, 0, 0, 2, 1], 0), Err(true));
    let mut out = Vec::new();
    (&[1u8, 2][..]).encode(&mut out);
    let none: Option<&[u8]> = None;
    none.encode(&mut out);
    assert_eq!(out, vec![0, 0, 0, 2, 1, 2, 255, 255, 255, 255]);
}

#[test]
fn arrays() {
    let input = [0, 0, 0, 2, 0, 0, 0, 5, 0, 0, 0, 6];
    assert_eq!(array::<i32>(&input, 0), Ok((vec![5, 6], 12)));
    assert_eq!(array::<i32>(&[255, 255, 255, 255], 0), Ok((vec![], 4)));
    assert_eq!(array::<i32>(&[0, 0, 0, 2, 0, 0, 0, 5], 0), Err(true));
    let mut out = Vec::new();
    vec![5i32, 6].encode(&mut out);
    assert_eq!(out, input.to_vec());
}

#[test]
fn many_and_optional() {
    assert_eq!(many::<i32>(&[0, 0, 0, 1, 0, 0, 0, 2, 9], 0), Ok((vec![1, 2], 8)));
    assert_eq!(optional::<i32>(&[0, 0, 0, 3], 0), Ok((Some(3), 4)));
    assert_eq!(optional::<i32>(&[0, 0], 0), Ok((None, 0)));
}

#[test]
fn varints_round_trip() {
    for v in [0, 1, -1, 63, -64, 64, 300, -300, i32::MAX, i32::MIN] {
        let mut out = Vec::new();
        encode_var_i32(v, &mut out);
        assert_eq!(varint(&out, 0), Ok((v, out.len())));
    }
}

#[test]
fn varint_known_bytes() {
    let mut out = Vec::new();
    encode_var_i32(-1, &mut out);
    encode_var_i32(150, &mut out);
    assert_eq!(out, vec![1, 0xac, 0x02]);
    assert_eq!(encode_var_bytes_space(b""), 1);
    assert_eq!(encode_var_bytes_space(&[0u8; 64]), 66);
    assert_eq!(varint(&[0xac, 0x02, 7], 0), Ok((150, 2)));
    assert_eq!(varint(&[0x80, 0x80], 0), Ok((0, 2)));
    assert_eq!(varint(&[], 0), Ok((0, 0)));
}

#[test]
fn var_strings_and_bytes() {
    assert_eq!(varbytes(&[6, 1, 2, 3], 0), Ok((&[1u8, 2, 3][..], 4)));
    assert_eq!(varbytes(&[1], 0), Err(true));
    assert_eq!(varbytes(&[8, 1], 0), Err(true));
    assert_eq!(varstring(&[4, b'o', b'k'], 0), Ok(("ok", 3)));
    assert_eq!(varstring(&[2, 0xff], 0), Err(true));
    let mut out = Vec::new();
    encode_var_bytes(b"abc", &mut out);
    assert_eq!(out, vec![6, b'a', b'b', b'c']);
    assert_eq!(encode_var_bytes_space(b"abc"), 4);
}

#[test]
fn var_arrays() {
    let headers = vec![RecordHeader { key: "a", value: b"b" }];
    let mut out = Vec::new();
    encode_var_array(&headers, &mut out);
    assert_eq!(out, vec![2, 2, b'a', 2, b'b']);
    assert_eq!(vararray::<i32>(&[1], 0), Ok((vec![], 1)));
    assert_eq!(vararray::<i32>(&[2, 0, 0, 0, 7], 0), Ok((vec![7], 5)));
    assert_eq!(vararray::<i32>(&[4, 0, 0, 0, 7], 0), Err(true));
}

#[test]
fn reservations_fill_in_lengths() {
    let mut buf = vec![9u8];
    let r = reserve(&mut buf);
    assert_eq!(r.end(), 5);
    buf.extend_from_slice(&[1, 2, 3]);
    assert_eq!(buf, vec![9, 0, 0, 0, 0, 1, 2, 3]);
    assert_eq!(r.fill_len(&mut buf), 3);
    assert_eq!(buf, vec![9, 0, 0, 0, 3, 1, 2, 3]);
    let mut buf2 = vec![];
    let r2 = reserve(&mut buf2);
    r2.fill(&mut buf2, &[1, 2, 3, 4]);
    assert_eq!(buf2, vec![1, 2, 3, 4]);
}

#[test]
fn error_codes() {
    assert_eq!(ErrorCode::try_from(0), Ok(ErrorCode::NoError));
    assert_eq!(ErrorCode::try_from(-1), Ok(ErrorCode::UnknownServerError));
    assert_eq!(ErrorCode::try_from(36), Ok(ErrorCode::TopicAlreadyExists));
    assert_eq!(ErrorCode::try_from(82).map(|e| e.code()), Ok(82));
    assert!(ErrorCode::try_from(83).is_err());
    assert!(ErrorCode::try_from(-2).is_err());
    assert_eq!(ErrorCode::NoError.into_result(), Ok(()));
    assert_eq!(ErrorCode::TopicAlreadyExists.into_result(), Err(ErrorCode::TopicAlreadyExists));
    assert_eq!(kafka_protocol::error::error_code(&[0, 36], 0), Ok((ErrorCode::TopicAlreadyExists, 2)));
    assert_eq!(kafka_protocol::error::error_code(&[0, 99], 0), Err(true));
    let mut out = Vec::new();
    ErrorCode::UnknownServerError.encode(&mut out);
    assert_eq!(out, vec![255, 255]);
}

#[test]
fn acks() {
    assert_eq!(Acks::try_from(-1), Ok(Acks::OnlyLeader));
    assert_eq!(Acks::try_from(0), Ok(Acks::NoAck));
    assert_eq!(Acks::try_from(1), Ok(Acks::Full));
    assert_eq!(Acks::try_from(2), Err("Invalid Acks"));
    assert_eq!(Acks::Full.code(), 1);
    assert_eq!(Acks::OnlyLeader.code(), -1);
}

#[test]
fn api_keys() {
    assert_eq!(ApiKey::from(ApiKey::FETCH), ApiKey(1));
    assert_eq!(ApiKey::INCREMENTAL_ALTER_CONFIGS, 44);
    assert_eq!(api_key(&[0, 18], 0), Ok((ApiKey(ApiKey::API_VERSIONS), 2)));
    let mut out = Vec::new();
    ApiKey(ApiKey::METADATA).encode(&mut out);
    assert_eq!(out, vec![0, 3]);
}

#[test]
fn fetch_offsets_constants() {
    assert_eq!(FETCH_EARLIEST_OFFSET, -2);
    assert_eq!(FETCH_LATEST_OFFSET, -1);
}

#[test]
fn encodable_checks_length_prefixes() {
    let long = "x".repeat(32768);
    assert!(!long.as_str().encodable());
    assert!("x".repeat(32767).as_str().encodable());
    let some_long: Option<&str> = Some(long.as_str());
    assert!(!some_long.encodable());
    let none: Option<&str> = None;
    assert!(none.encodable());
    assert!(vec![1i32, 2, 3].encodable());
    assert!(!vec![long.as_str()].encodable());
    assert!(ErrorCode::NoError.encodable());
    assert!(ApiKey(3).encodable());
    assert!(RecordHeader { key: "k", value: b"v" }.encodable());
}

#[test]
fn every_error_code_number_reads_back() {
    for i in -1i16..=82 {
        let e = ErrorCode::try_from(i).expect("a known code");
        assert_eq!(e.code(), i);
        assert_eq!(ErrorCode::try_from(e.code()), Ok(e));
    }
}

#[test]
fn every_acks_setting_reads_back() {
    for a in [Acks::OnlyLeader, Acks::NoAck, Acks::Full] {
        assert_eq!(Acks::try_from(a.code()), Ok(a));
    }
}
