//! Request encoding: whole frames, the QUERY flag byte, and the values
//! section.

use cql_client::authentication::Authenticator;
use cql_client::header::{Direction, ProtocolVersion};
use cql_client::primitives::{CqlBytes, CqlConsistency, CqlLongString, CqlString};
use cql_client::request::{
    cql_encode, AuthResponseMessage, Message, QueryMessage, QueryValues, StartupMessage,
};

fn v3() -> ProtocolVersion {
    ProtocolVersion::Version3(Direction::Request)
}

/// A [string]'s wire form: 16-bit length, then the bytes.
fn push_string(buf: &mut Vec<u8>, s: &str) {
    let b = s.as_bytes();
    buf.extend_from_slice(&(b.len() as u16).to_be_bytes());
    buf.extend_from_slice(b);
}

#[test]
fn from_options_request() {
    let o = Message::Options;

    let mut buf = Vec::new();
    let flags = 0;
    let stream_id = 270;
    cql_encode(v3(), flags, stream_id, o, &mut buf).unwrap();

    let expected_bytes = b"\x03\x00\x01\x0e\x05\x00\x00\x00\x00";

    assert_eq!(&buf[..], &expected_bytes[..]);
}

#[test]
fn from_startup_req() {
    let o = Message::Startup(StartupMessage {
        cql_version: CqlString::try_from("3.2.1").unwrap(),
        compression: None,
    });

    let mut buf = Vec::new();
    let flags = 0;
    let stream_id = 1;
    cql_encode(v3(), flags, stream_id, o, &mut buf).unwrap();

    // header, then a string map with the single CQL_VERSION entry
    let mut expected_bytes: Vec<u8> = b"\x03\x00\x00\x01\x01\x00\x00\x00\x16".to_vec();
    expected_bytes.extend_from_slice(&[0x00, 0x01]);
    push_string(&mut expected_bytes, "CQL_VERSION");
    push_string(&mut expected_bytes, "3.2.1");

    assert_eq!(&buf[..], &expected_bytes[..]);
}

#[test]
fn from_auth_response_req() {
    let a = Authenticator::PlainTextAuthenticator {
        username: String::from("abcdef12"),
        password: String::from("123456789asdfghjklqwertyuiopzx"),
    };

    let mut v = Vec::new();
    a.encode_auth_response(&mut v);
    assert_eq!(v.len(), 40);

    let o = Message::AuthResponse(AuthResponseMessage {
        auth_data: CqlBytes::try_from(v).unwrap(),
    });

    let mut buf = Vec::new();
    let flags = 0;
    let stream_id = 2;
    cql_encode(v3(), flags, stream_id, o, &mut buf).unwrap();

    // header, then one [bytes] value: NUL username NUL password
    let mut expected_bytes: Vec<u8> = b"\x03\x00\x00\x02\x0f\x00\x00\x00\x2c".to_vec();
    expected_bytes.extend_from_slice(&40i32.to_be_bytes());
    expected_bytes.push(0x00);
    expected_bytes.extend_from_slice(b"abcdef12");
    expected_bytes.push(0x00);
    expected_bytes.extend_from_slice(b"123456789asdfghjklqwertyuiopzx");

    assert_eq!(&buf[..], &expected_bytes[..]);
}

#[test]
fn from_query_req() {
    let mut buf = Vec::new();
    let flags = 0;
    let stream_id = 2;

    let query = "select * from system.local where key = 'local'";
    let o = Message::Query(QueryMessage {
        query: CqlLongString::try_from(query).unwrap(),
        values: None,
        consistency: CqlConsistency::One,
        skip_metadata: false,
        page_size: Some(5000),
        paging_state: None,
        serial_consistency: None,
        timestamp: Some(1486294317376770),
    });

    cql_encode(v3(), flags, stream_id, o, &mut buf).unwrap();

    // header, then: long-string query, consistency ONE, flags 0x24
    // (page size and timestamp), the page size, the timestamp
    let mut body: Vec<u8> = Vec::new();
    body.extend_from_slice(&(query.len() as i32).to_be_bytes());
    body.extend_from_slice(query.as_bytes());
    body.extend_from_slice(&[0x00, 0x01]);
    body.push(0x24);
    body.extend_from_slice(&5000i32.to_be_bytes());
    body.extend_from_slice(&1486294317376770i64.to_be_bytes());

    let mut expected_bytes: Vec<u8> = vec![0x03, 0x00, 0x00, 0x02, 0x07];
    expected_bytes.extend_from_slice(&(body.len() as u32).to_be_bytes());
    expected_bytes.extend_from_slice(&body);

    assert_eq!(&buf[..], &expected_bytes[..]);
}

#[test]
fn query_flags() {
    let mut o = QueryMessage::default();
    assert_eq!(o.compute_flags(), 0x00u8);

    o.values = Some(QueryValues::Positional(Vec::new()));
    assert_eq!(o.compute_flags(), 0x01u8);

    o.values = Some(QueryValues::Named(Vec::new()));
    assert_eq!(o.compute_flags(), 0x41u8);

    o.skip_metadata = true;
    assert_eq!(o.compute_flags(), 0x43u8);

    o.page_size = Some(2);
    assert_eq!(o.compute_flags(), 0x47u8);

    o.paging_state = Some(CqlBytes::try_from(Vec::new()).unwrap());
    assert_eq!(o.compute_flags(), 0x4fu8);

    o.serial_consistency = Some(CqlConsistency::LocalSerial);
    assert_eq!(o.compute_flags(), 0x5fu8);

    o.timestamp = Some(1);
    assert_eq!(o.compute_flags(), 0x7fu8);
}

#[test]
fn encode_query_values_positional() {
    let values = vec![
        CqlBytes::try_from(vec![0u8, 1]).unwrap(),
        CqlBytes::try_from(vec![2u8, 3]).unwrap(),
    ];
    let values = QueryValues::Positional(values);

    let mut buf = Vec::new();
    values.encode(v3(), &mut buf);

    let expected = vec![
        0x00, 0x02, 0x00, 0x00, 0x00, 0x02, 0x00, 0x01, 0x00, 0x00, 0x00, 0x02, 0x02, 0x03,
    ];

    assert_eq!(expected, buf);
}

#[test]
fn encode_query_values_named() {
    let values = vec![(
        CqlString::try_from("a").unwrap(),
        CqlBytes::try_from(vec![0u8, 1]).unwrap(),
    )];

    let values = QueryValues::Named(values);

    let mut buf = Vec::new();
    values.encode(v3(), &mut buf);

    let expected = vec![0x00, 0x01, 0x00, 0x01, 97, 0x00, 0x00, 0x00, 0x02, 0x00, 0x01];
    assert_eq!(expected, buf);
}

#[test]
fn startup_with_compression_lists_both_options() {
    let o = Message::Startup(StartupMessage {
        cql_version: CqlString::try_from("3.2.1").unwrap(),
        compression: Some(CqlString::try_from("lz4").unwrap()),
    });

    let mut buf = Vec::new();
    cql_encode(v3(), 0, 1, o, &mut buf).unwrap();

    let mut body: Vec<u8> = vec![0x00, 0x02];
    push_string(&mut body, "CQL_VERSION");
    push_string(&mut body, "3.2.1");
    push_string(&mut body, "COMPRESSION");
    push_string(&mut body, "lz4");

    let mut expected: Vec<u8> = vec![0x03, 0x00, 0x00, 0x01, 0x01];
    expected.extend_from_slice(&(body.len() as u32).to_be_bytes());
    expected.extend_from_slice(&body);

    assert_eq!(buf, expected);
}
