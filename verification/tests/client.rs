use kafka_protocol::api_key::ApiKey;
use kafka_protocol::client::{Client, ResponseError};
use kafka_protocol::parser::api_versions_request::ApiVersionsRequest;
use kafka_protocol::parser::api_versions_response::ApiVersionsResponse;
use kafka_protocol::parser::heartbeat_request::{heartbeat_request, HeartbeatRequest};
use kafka_protocol::parser::request_header::request_header;

fn fill(client: &mut Client<()>, bytes: &[u8]) {
    client.start_response();
    let (_, buf) = client.parts();
    buf.extend_from_slice(bytes);
}

#[test]
fn new_client_starts_at_zero() {
    let client = Client::new(());
    assert_eq!(client.correlation_id(), 0);
    assert!(client.buf().is_empty());
}

#[test]
fn frames_an_empty_request() {
    let mut client = Client::new(());
    assert_eq!(client.frame_request(&ApiVersionsRequest {}, ApiKey(ApiKey::API_VERSIONS), 2), Ok(()));
    assert_eq!(client.buf(), &[0, 0, 0, 10, 0, 18, 0, 2, 0, 0, 0, 0, 255, 255][..]);
    assert_eq!(client.correlation_id(), 1);
    assert_eq!(client.frame_request(&ApiVersionsRequest {}, ApiKey(ApiKey::API_VERSIONS), 2), Ok(()));
    assert_eq!(client.buf(), &[0, 0, 0, 10, 0, 18, 0, 2, 0, 0, 0, 1, 255, 255][..]);
    assert_eq!(client.correlation_id(), 2);
}

#[test]
fn framed_request_reads_back() {
    let mut client = Client::new(());
    let request = HeartbeatRequest {
        group_id: "g",
        generation_id: 7,
        member_id: "m",
        group_instance_id: None,
    };
    assert_eq!(client.frame_request(&request, ApiKey(ApiKey::HEARTBEAT), 0), Ok(()));
    let buf = client.buf();
    let len = i32::from_be_bytes([buf[0], buf[1], buf[2], buf[3]]) as usize;
    assert_eq!(len, buf.len() - 4);
    let (header, rest) = request_header(&buf[4..]).expect("header");
    assert_eq!(header.api_key, ApiKey(12));
    assert_eq!(header.api_version, 0);
    assert_eq!(header.correlation_id, 0);
    assert_eq!(header.client_id, None);
    let (back, rest) = heartbeat_request(rest).expect("request");
    assert!(rest.is_empty());
    assert_eq!(back, request);
}

#[test]
fn response_length_needs_four_bytes() {
    let mut client = Client::new(());
    fill(&mut client, &[0, 0, 1]);
    assert_eq!(client.response_len(), None);
    fill(&mut client, &[0, 0, 1, 2, 9]);
    assert_eq!(client.response_len(), Some(258));
    fill(&mut client, &[255, 255, 255, 255]);
    assert_eq!(client.response_len(), Some(-1));
}

#[test]
fn reads_a_response() {
    let mut client = Client::new(());
    let body = [0, 0, 0, 10, 0, 0, 0, 7, 0, 0, 0, 0, 0, 0, 0, 0, 0, 5];
    fill(&mut client, &body);
    let response: ApiVersionsResponse = client.parse_response().expect("response");
    assert_eq!(response.error_code, 0);
    assert!(response.api_versions.is_empty());
    assert_eq!(response.throttle_time_ms, 5);
}

#[test]
fn response_errors() {
    let mut client = Client::new(());
    fill(&mut client, &[0, 0, 0, 2, 0, 0]);
    assert_eq!(client.parse_response::<ApiVersionsResponse>().unwrap_err(), ResponseError::InvalidHeader);
    fill(&mut client, &[0, 0, 0, 6, 0, 0, 0, 1, 0, 0]);
    assert_eq!(client.parse_response::<ApiVersionsResponse>().unwrap_err(), ResponseError::InvalidResponse);
    fill(&mut client, &[0, 0, 0, 16, 0, 0, 0, 1, 0, 0, 0, 0, 0, 0, 0, 0, 0, 0, 1, 2]);
    assert_eq!(client.parse_response::<ApiVersionsResponse>().unwrap_err(), ResponseError::Remaining(2));
}

#[test]
fn missing_bytes_of_a_response() {
    let mut client = Client::new(());
    fill(&mut client, &[]);
    assert_eq!(client.missing(), Ok(4));
    fill(&mut client, &[0, 0]);
    assert_eq!(client.missing(), Ok(2));
    fill(&mut client, &[0, 0, 0, 3, 1]);
    assert_eq!(client.missing(), Ok(2));
    fill(&mut client, &[0, 0, 0, 3, 1, 2, 3]);
    assert_eq!(client.missing(), Ok(0));
    fill(&mut client, &[255, 255, 255, 254]);
    assert_eq!(client.missing(), Err(-2));
}
