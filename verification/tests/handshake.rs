//! The handshake state machine: the READY path, the authentication path,
//! and its failure modes.

use cql_client::authentication::Credentials;
use cql_client::handshake::{
    interpret_response, start, HandshakeError, HandshakeState,
};
use cql_client::messages::StreamingMessage;
use cql_client::primitives::{CqlString, CqlStringList, CqlStringMultiMap};
use cql_client::request;
use cql_client::response::{AuthSuccessMessage, AuthenticateMessage, ErrorMessage, SupportedMessage};

fn supported(versions: &[&str]) -> StreamingMessage {
    let vm = CqlStringList::try_from_iter(versions).unwrap();
    let smm = CqlStringMultiMap::try_from_iter(vec![(
        CqlString::try_from("CQL_VERSION").unwrap(),
        vm,
    )])
    .unwrap();
    StreamingMessage::Supported(SupportedMessage(smm))
}

fn authenticate(class: &str) -> StreamingMessage {
    StreamingMessage::Authenticate(AuthenticateMessage {
        authenticator: CqlString::try_from(class).unwrap(),
    })
}

fn creds() -> Option<Credentials> {
    Some(Credentials::Login {
        username: String::from("user"),
        password: String::from("pass"),
    })
}

#[test]
fn ready_reply_completes_the_handshake() {
    let (state, opening) = start();
    assert!(matches!(opening, request::Message::Options));

    let step = interpret_response(state, supported(&["3.2.1"]), &None, &None).unwrap();
    assert_eq!(step.next, HandshakeState::AwaitReadyOrAuthenticate);
    match step.send {
        Some(request::Message::Startup(sm)) => {
            assert_eq!(sm.cql_version, CqlString::try_from("3.2.1").unwrap());
            assert!(sm.compression.is_none());
        },
        other => panic!("expected a STARTUP to follow SUPPORTED, got {:?}", other),
    }

    let step = interpret_response(step.next, StreamingMessage::Ready, &None, &None).unwrap();
    assert_eq!(step.next, HandshakeState::Ready);
    assert!(step.send.is_none());
}

#[test]
fn authentication_without_credentials_fails() {
    let err = interpret_response(
        HandshakeState::AwaitReadyOrAuthenticate,
        authenticate("org.apache.cassandra.auth.PasswordAuthenticator"),
        &None,
        &None,
    )
    .unwrap_err();

    assert!(matches!(err, HandshakeError::NoCredentials { .. }));
    assert!(err.message().contains("No credentials provided"));
}

#[test]
fn authentication_with_credentials_sends_the_token() {
    let step = interpret_response(
        HandshakeState::AwaitReadyOrAuthenticate,
        authenticate("org.apache.cassandra.auth.PasswordAuthenticator"),
        &creds(),
        &None,
    )
    .unwrap();

    assert_eq!(step.next, HandshakeState::AwaitAuthSuccess);
    match step.send {
        Some(request::Message::AuthResponse(ar)) => {
            let mut expected: Vec<u8> = vec![0x00];
            expected.extend_from_slice(b"user");
            expected.push(0x00);
            expected.extend_from_slice(b"pass");
            assert_eq!(ar.auth_data.as_bytes(), Some(&expected[..]));
        },
        other => panic!("expected an AUTH_RESPONSE, got {:?}", other),
    }

    let step = interpret_response(
        step.next,
        StreamingMessage::AuthSuccess(AuthSuccessMessage {
            payload: cql_client::primitives::CqlBytes::null_value(),
        }),
        &creds(),
        &None,
    )
    .unwrap();
    assert_eq!(step.next, HandshakeState::Ready);
    assert!(step.send.is_none());
}

#[test]
fn unknown_authenticator_class_fails() {
    let err = interpret_response(
        HandshakeState::AwaitReadyOrAuthenticate,
        authenticate("org.example.OtherAuthenticator"),
        &creds(),
        &None,
    )
    .unwrap_err();

    assert!(matches!(err, HandshakeError::UnknownAuthenticator(_)));
}

#[test]
fn server_error_fails_the_handshake() {
    let err = interpret_response(
        HandshakeState::AwaitSupported,
        StreamingMessage::Error(ErrorMessage {
            code: 256,
            text: CqlString::try_from("Username and/or password are incorrect").unwrap(),
        }),
        &None,
        &None,
    )
    .unwrap_err();

    match err {
        HandshakeError::CqlError(code, text) => {
            assert_eq!(code, 256);
            assert_eq!(
                text,
                CqlString::try_from("Username and/or password are incorrect").unwrap()
            );
        },
        other => panic!("expected the server error to propagate, got {:?}", other),
    }
}

#[test]
fn empty_version_list_fails_the_handshake() {
    let err = interpret_response(
        HandshakeState::AwaitSupported,
        supported(&[]),
        &None,
        &None,
    )
    .unwrap_err();
    assert!(matches!(err, HandshakeError::NoCqlVersion));
}

#[test]
fn unexpected_replies_fail_the_handshake() {
    let err = interpret_response(
        HandshakeState::AwaitSupported,
        StreamingMessage::Ready,
        &None,
        &None,
    )
    .unwrap_err();
    assert!(matches!(err, HandshakeError::UnexpectedMessage));
}

#[test]
fn preferred_version_wins_when_offered() {
    let preferred = Some(CqlString::try_from("3.1.2").unwrap());
    let step = interpret_response(
        HandshakeState::AwaitSupported,
        supported(&["3.2.1", "3.1.2", "4.0.1"]),
        &None,
        &preferred,
    )
    .unwrap();
    match step.send {
        Some(request::Message::Startup(sm)) => {
            assert_eq!(sm.cql_version, CqlString::try_from("3.1.2").unwrap());
        },
        other => panic!("expected a STARTUP, got {:?}", other),
    }
}

#[test]
fn unoffered_preference_falls_back_to_the_greatest() {
    let preferred = Some(CqlString::try_from("5.0.0").unwrap());
    let step = interpret_response(
        HandshakeState::AwaitSupported,
        supported(&["3.2.1", "4.0.1"]),
        &None,
        &preferred,
    )
    .unwrap();
    match step.send {
        Some(request::Message::Startup(sm)) => {
            assert_eq!(sm.cql_version, CqlString::try_from("4.0.1").unwrap());
        },
        other => panic!("expected a STARTUP, got {:?}", other),
    }
}
