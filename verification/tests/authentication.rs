//! Authenticator selection and credential encoding.

use cql_client::authentication::{Authenticator, Credentials};

#[test]
fn plain_text_auth() {
    let srv_auth = "org.apache.cassandra.auth.PasswordAuthenticator";
    let auth = Authenticator::from_name(
        srv_auth,
        Credentials::Login {
            username: String::new(),
            password: String::new(),
        },
    );

    match auth.unwrap() {
        Authenticator::PlainTextAuthenticator { .. } => (),
    }
}

#[test]
fn unknown_auth() {
    let srv_auth = "unknown";
    let auth = Authenticator::from_name(
        srv_auth,
        Credentials::Login {
            username: String::new(),
            password: String::new(),
        },
    );

    assert!(auth.is_err());
}

#[test]
fn plain_text_encode() {
    let auth = Authenticator::PlainTextAuthenticator {
        username: String::from("abcuser"),
        password: String::from("abcpass"),
    };

    let mut encoded = Vec::new();
    auth.encode_auth_response(&mut encoded);

    let expected = &[0u8, 97, 98, 99, 117, 115, 101, 114, 0, 97, 98, 99, 112, 97, 115, 115];

    assert_eq!(&encoded[..], &expected[..]);
}
