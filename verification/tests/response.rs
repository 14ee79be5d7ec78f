//! Response decoding: SUPPORTED, AUTHENTICATE, AUTH_SUCCESS, ERROR, and
//! the RESULT header's incremental decode.

use cql_client::header::{Direction, ProtocolVersion};
use cql_client::primitives::{CqlString, CqlStringList, CqlStringMultiMap};
use cql_client::response::{
    AuthSuccessMessage, AuthenticateMessage, ErrorMessage, ResultHeader, SupportedMessage,
};

fn v3() -> ProtocolVersion {
    ProtocolVersion::Version3(Direction::Response)
}

/// A [string]'s wire form: 16-bit length, then the bytes.
fn push_string(buf: &mut Vec<u8>, s: &str) {
    let b = s.as_bytes();
    buf.extend_from_slice(&(b.len() as u16).to_be_bytes());
    buf.extend_from_slice(b);
}

/// The body of a SUPPORTED frame advertising one CQL version and two
/// compression algorithms.
fn supported_body() -> Vec<u8> {
    let mut body: Vec<u8> = vec![0x00, 0x02];
    push_string(&mut body, "CQL_VERSION");
    body.extend_from_slice(&[0x00, 0x01]);
    push_string(&mut body, "3.2.1");
    push_string(&mut body, "COMPRESSION");
    body.extend_from_slice(&[0x00, 0x02]);
    push_string(&mut body, "snappy");
    push_string(&mut body, "lz4");
    body
}

#[test]
fn decode_supported_message() {
    let body = supported_body();
    let res = SupportedMessage::decode(v3(), &body).unwrap();

    let csl1 = CqlStringList::try_from_iter(&["3.2.1"]).unwrap();
    let csl2 = CqlStringList::try_from_iter(&["snappy", "lz4"]).unwrap();

    assert_eq!(res.cql_versions().unwrap(), &csl1);
    assert_eq!(res.compression().unwrap(), &csl2);
}

#[test]
fn supported_message_latest_cql_version() {
    let vm = CqlStringList::try_from_iter(&["3.2.1", "3.1.2", "4.0.1"]).unwrap();
    let smm = CqlStringMultiMap::try_from_iter(vec![(
        CqlString::try_from("CQL_VERSION").unwrap(),
        vm,
    )])
    .unwrap();
    let msg = SupportedMessage(smm);

    assert_eq!(
        msg.latest_cql_version(),
        Some(&CqlString::try_from("4.0.1").unwrap())
    );
}

#[test]
fn latest_cql_version_of_single_entry() {
    let vm = CqlStringList::try_from_iter(&["3.2.1"]).unwrap();
    let smm = CqlStringMultiMap::try_from_iter(vec![(
        CqlString::try_from("CQL_VERSION").unwrap(),
        vm,
    )])
    .unwrap();
    let msg = SupportedMessage(smm);

    assert_eq!(
        msg.latest_cql_version(),
        Some(&CqlString::try_from("3.2.1").unwrap())
    );
}

#[test]
fn decode_authenticate_message() {
    let mut body = Vec::new();
    push_string(&mut body, "org.apache.cassandra.auth.PasswordAuthenticator");
    let res = AuthenticateMessage::decode(v3(), &body).unwrap();

    let authenticator =
        CqlString::try_from("org.apache.cassandra.auth.PasswordAuthenticator").unwrap();

    assert_eq!(res.authenticator, authenticator);
}

#[test]
fn decode_auth_success_message() {
    // the null [bytes] value: length -1
    let body = [0xffu8, 0xff, 0xff, 0xff];
    let res = AuthSuccessMessage::decode(v3(), &body).unwrap();

    assert_eq!(res.payload.as_bytes(), None);
}

#[test]
fn decode_error_message() {
    let mut body: Vec<u8> = Vec::new();
    body.extend_from_slice(&256i32.to_be_bytes());
    push_string(&mut body, "Username and/or password are incorrect");
    let res = ErrorMessage::decode(v3(), &body).unwrap();

    assert_eq!(res.code, 256);
    assert_eq!(
        res.text,
        CqlString::try_from("Username and/or password are incorrect").unwrap()
    );
}

#[test]
fn decode_result_header_rows() {
    let mut body: Vec<u8> = Vec::new();
    body.extend_from_slice(&2i32.to_be_bytes());
    body.extend_from_slice(&1i32.to_be_bytes());
    body.extend_from_slice(&18i32.to_be_bytes());
    push_string(&mut body, "system");
    push_string(&mut body, "local");

    let res = ResultHeader::decode(v3(), &body[0..5]).unwrap();
    assert!(res.is_none());

    let res = ResultHeader::decode(v3(), &body).unwrap();
    match res {
        Some(ResultHeader::Rows(m)) => {
            let spec = m.global_tables_spec.unwrap();
            assert_eq!(spec.keyspace, CqlString::try_from("system").unwrap());
            assert_eq!(spec.table, CqlString::try_from("local").unwrap());
            assert!(m.paging_state.is_none());
            assert!(!m.no_metadata);
            assert_eq!(m.columns_count, 18);
        },
        other => panic!("expected a rows header, got {:?}", other),
    }
}

#[test]
fn decode_result_header_void() {
    let body = 1i32.to_be_bytes();

    let res = ResultHeader::decode(v3(), &body[0..1]).unwrap();
    assert!(res.is_none());

    let res = ResultHeader::decode(v3(), &body).unwrap();
    assert!(matches!(res, Some(ResultHeader::Void)));
}

#[test]
fn decode_result_header_set_keyspace() {
    let mut body: Vec<u8> = Vec::new();
    body.extend_from_slice(&3i32.to_be_bytes());
    push_string(&mut body, "abcd");

    let res = ResultHeader::decode(v3(), &body[0..6]).unwrap();
    assert!(res.is_none());

    let res = ResultHeader::decode(v3(), &body[0..9]).unwrap();
    assert!(res.is_none());

    let res = ResultHeader::decode(v3(), &body).unwrap();
    match res {
        Some(ResultHeader::SetKeyspace(ks)) => {
            assert_eq!(ks, CqlString::try_from("abcd").unwrap());
        },
        other => panic!("expected a set-keyspace header, got {:?}", other),
    }
}

#[test]
fn decode_result_header_schema_change() {
    let mut body: Vec<u8> = Vec::new();
    body.extend_from_slice(&5i32.to_be_bytes());
    push_string(&mut body, "change_type");
    push_string(&mut body, "target");
    push_string(&mut body, "options");

    let res = ResultHeader::decode(v3(), &body[0..6]).unwrap();
    assert!(res.is_none());

    // truncated right after the discriminant: not yet
    let res = ResultHeader::decode(v3(), &body[0..4]).unwrap();
    assert!(res.is_none());

    let res = ResultHeader::decode(v3(), &body).unwrap();
    match res {
        Some(ResultHeader::SchemaChange(p)) => {
            assert_eq!(p.change_type, CqlString::try_from("change_type").unwrap());
            assert_eq!(p.target, CqlString::try_from("target").unwrap());
            assert_eq!(p.options, CqlString::try_from("options").unwrap());
        },
        other => panic!("expected a schema-change header, got {:?}", other),
    }
}

#[test]
fn latest_cql_version_is_ordered_not_positional() {
    // the greatest version is first, so a decoder that ignored the
    // version text would pick the wrong entry
    let vm = CqlStringList::try_from_iter(&["4.0.1", "3.2.1"]).unwrap();
    let smm = CqlStringMultiMap::try_from_iter(vec![(
        CqlString::try_from("CQL_VERSION").unwrap(),
        vm,
    )])
    .unwrap();
    let msg = SupportedMessage(smm);

    assert_eq!(
        msg.latest_cql_version(),
        Some(&CqlString::try_from("4.0.1").unwrap())
    );
}

#[test]
fn unparseable_versions_are_skipped() {
    let vm = CqlStringList::try_from_iter(&["3.2.1", "not-a-version"]).unwrap();
    let smm = CqlStringMultiMap::try_from_iter(vec![(
        CqlString::try_from("CQL_VERSION").unwrap(),
        vm,
    )])
    .unwrap();
    let msg = SupportedMessage(smm);

    assert_eq!(
        msg.latest_cql_version(),
        Some(&CqlString::try_from("3.2.1").unwrap())
    );
}
