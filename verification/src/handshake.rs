//! The startup handshake, as a state machine over received messages:
//! OPTIONS is sent first; SUPPORTED chooses the CQL version for STARTUP;
//! the server then answers READY, or demands authentication, which one
//! AUTH_RESPONSE settles.  The caller performs the sends and feeds each
//! reply back in.

use vstd::prelude::*;

verus! {

use vstd::string::StringSliceAdditionalSpecFns;
use vstd::utf8::encode_utf8;
use crate::authentication::{Authenticator, Credentials, password_authenticator_name};
use crate::messages::StreamingMessage;
use crate::primitives::{CqlString, CqlBytes, map_get};
use crate::request::{self, StartupMessage, AuthResponseMessage};
use crate::response::{SupportedMessage, AuthenticateMessage, best_version};

/// Where the handshake stands: what was just sent, or what is awaited.
#[derive(Debug, PartialEq, Eq, Structural, Clone, Copy)]
pub enum HandshakeState {
    SendOptions,
    AwaitSupported,
    AwaitReadyOrAuthenticate,
    AwaitAuthSuccess,
    Ready,
}

/// Why a handshake fails; any of these closes the connection.
#[derive(Debug)]
pub enum HandshakeError {
    /// The server's SUPPORTED options name no CQL version.
    NoCqlVersion,
    /// The server requires authentication and the caller supplied no
    /// credentials.
    NoCredentials { authenticator: CqlString },
    /// The server names an authenticator this client does not implement.
    UnknownAuthenticator(CqlString),
    /// The credentials do not fit an AUTH_RESPONSE body.
    CredentialsTooLong,
    /// The server answered with a message the handshake cannot use here.
    UnexpectedMessage,
    /// The server answered with an ERROR frame.
    CqlError(i32, CqlString),
}

/// One transition: the state to move to, and the request to send, if any.
#[derive(Debug)]
pub struct HandshakeStep {
    pub next: HandshakeState,
    pub send: Option<request::Message>,
}

/// The AUTH_RESPONSE token the credentials encode to.
pub open spec fn creds_token(c: Credentials) -> Seq<u8> {
    match c {
        Credentials::Login { username, password } => seq![0u8] + encode_utf8(username@) + seq![0u8]
            + encode_utf8(password@),
    }
}

/// Which (state, message) pairs the handshake acts on; everything else —
/// the ERROR case aside — is unexpected.
pub open spec fn handshake_handles(state: HandshakeState, res: StreamingMessage) -> bool {
    ||| (state is AwaitSupported && res is Supported)
    ||| (state is AwaitReadyOrAuthenticate && res is Ready)
    ||| (state is AwaitReadyOrAuthenticate && res is Authenticate)
    ||| (state is AwaitAuthSuccess && res is AuthSuccess)
}

/// Opens the handshake: OPTIONS goes out, SUPPORTED is awaited.
pub fn start() -> (r: (HandshakeState, request::Message))
    ensures
        r.0 is AwaitSupported,
        r.1 is Options,
{
    (HandshakeState::AwaitSupported, request::Message::Options)
}

/// What STARTUP will name as the CQL version: the caller's preferred
/// version when the server offers it, else the greatest offered version
/// that parses; nothing when neither exists.
pub open spec fn chosen_version(vs: Seq<Seq<u8>>, preferred: Option<CqlString>) -> Option<Seq<u8>> {
    match preferred {
        Some(p) if vs.contains(p@) => Some(p@),
        _ => match best_version(vs) {
            Some(bi) => Some(vs[bi]),
            None => None,
        },
    }
}

/// Builds the STARTUP request from the server's SUPPORTED options: the
/// caller's preferred CQL version when the server offers it, else the
/// greatest offered version, and no compression; fails exactly when
/// nothing can be chosen.
pub fn startup_message_from_supported(
    msg: SupportedMessage,
    preferred: &Option<CqlString>,
) -> (r: Result<request::Message, HandshakeError>)
    ensures
        ({
            match map_get(msg.0@, "CQL_VERSION".spec_bytes()) {
                Some(vs) => match chosen_version(vs, *preferred) {
                    Some(v) => r matches Ok(m) && (m matches request::Message::Startup(sm)
                        && sm.cql_version@ == v && sm.compression is None),
                    None => r matches Err(e) && e is NoCqlVersion,
                },
                None => r matches Err(e) && e is NoCqlVersion,
            }
        }),
{
    if let Some(p) = preferred {
        if let Some(offered) = find_offered(&msg, p) {
            return Ok(
                request::Message::Startup(
                    StartupMessage { cql_version: offered, compression: None },
                ),
            );
        }
    }
    let version = match msg.latest_cql_version() {
        Some(v) => v.clone(),
        None => {
            return Err(HandshakeError::NoCqlVersion);
        },
    };
    Ok(request::Message::Startup(StartupMessage { cql_version: version, compression: None }))
}

/// Looks for the preferred version among the server's offers.
fn find_offered(msg: &SupportedMessage, p: &CqlString) -> (r: Option<CqlString>)
    ensures
        ({
            match map_get(msg.0@, "CQL_VERSION".spec_bytes()) {
                Some(vs) => match r {
                    Some(v) => vs.contains(p@) && v@ == p@,
                    None => !vs.contains(p@),
                },
                None => r is None,
            }
        }),
{
    let versions = match msg.cql_versions() {
        Some(l) => l,
        None => {
            return None;
        },
    };
    let ghost vs = versions@;
    let items = versions.iter();
    let n = items.len();
    let mut i: usize = 0;
    while i < n
        invariant
            n == items@.len(),
            n == vs.len(),
            0 <= i <= n,
            map_get(msg.0@, "CQL_VERSION".spec_bytes()) == Some(vs),
            items@.map_values(|c: CqlString| c@) == vs,
            forall|q: int| 0 <= q < i ==> vs[q] != p@,
        decreases n - i,
    {
        if crate::primitives::bytes_eq(items[i].as_bytes(), p.as_bytes()) {
            proof {
                assert(vs[i as int] == p@);
                assert(vs.contains(p@));
            }
            return Some(p.clone());
        }
        i += 1;
    }
    proof {
        assert(!vs.contains(p@));
    }
    None
}

/// Builds the AUTH_RESPONSE for a server's AUTHENTICATE demand: without
/// credentials the handshake fails naming the demanded class; with them,
/// only the password authenticator is implemented, and its token is the
/// encoded credentials.
pub fn auth_response_from_authenticate(creds: &Option<Credentials>, msg: AuthenticateMessage) -> (r:
    Result<request::Message, HandshakeError>)
    ensures
        creds is None ==> (r matches Err(e) && e matches HandshakeError::NoCredentials {
            authenticator,
        } && authenticator@ == msg.authenticator@),
        creds matches Some(c) ==> ({
            if msg.authenticator@ != password_authenticator_name() {
                r matches Err(e) && (e matches HandshakeError::UnknownAuthenticator(n) && n@
                    == msg.authenticator@)
            } else if creds_token(*c).len() > 0x7FFF_FFFF {
                r matches Err(e) && e is CredentialsTooLong
            } else {
                r matches Ok(m) && (m matches request::Message::AuthResponse(ar) && ar.auth_data@
                    == Some(creds_token(*c)))
            }
        }),
{
    let c = match creds {
        Some(c) => c,
        None => {
            return Err(HandshakeError::NoCredentials { authenticator: msg.authenticator });
        },
    };
    if !crate::primitives::bytes_eq(
        msg.authenticator.as_bytes(),
        "org.apache.cassandra.auth.PasswordAuthenticator".as_bytes(),
    ) {
        return Err(HandshakeError::UnknownAuthenticator(msg.authenticator));
    }
    let authenticator = match c {
        Credentials::Login { username, password } => Authenticator::PlainTextAuthenticator {
            username: username.clone(),
            password: password.clone(),
        },
    };
    let mut token: Vec<u8> = Vec::new();
    authenticator.encode_auth_response(&mut token);
    proof {
        assert(token@ =~= creds_token(*c));
    }
    match CqlBytes::try_from(token) {
        Ok(auth_data) => Ok(request::Message::AuthResponse(AuthResponseMessage { auth_data })),
        Err(_) => Err(HandshakeError::CredentialsTooLong),
    }
}

/// One handshake transition: what the reply means in the current state,
/// which request to send next, and when the handshake is complete.  A
/// server ERROR fails the handshake in any state; a reply the state does
/// not expect is itself a failure.
pub fn interpret_response(
    state: HandshakeState,
    res: StreamingMessage,
    creds: &Option<Credentials>,
    preferred: &Option<CqlString>,
) -> (r: Result<HandshakeStep, HandshakeError>)
    ensures
        res matches StreamingMessage::Error(em) ==> (r matches Err(e) && (e matches
            HandshakeError::CqlError(code, text) && code == em.code && text@ == em.text@)),
        !handshake_handles(state, res) && !(res is Error) ==> (r matches Err(e)
            && e is UnexpectedMessage),
        state is AwaitSupported ==> (res matches StreamingMessage::Supported(msg) ==> ({
            match map_get(msg.0@, "CQL_VERSION".spec_bytes()) {
                Some(vs) => match chosen_version(vs, *preferred) {
                    Some(v) => r matches Ok(st) && st.next is AwaitReadyOrAuthenticate && (st.send
                        matches Some(m) && (m matches request::Message::Startup(sm)
                        && sm.cql_version@ == v && sm.compression is None)),
                    None => r matches Err(e) && e is NoCqlVersion,
                },
                None => r matches Err(e) && e is NoCqlVersion,
            }
        })),
        state is AwaitReadyOrAuthenticate && res is Ready ==> (r matches Ok(st)
            && st.next is Ready && st.send is None),
        state is AwaitReadyOrAuthenticate ==> (res matches StreamingMessage::Authenticate(am) ==> ({
            match creds {
                None => r matches Err(e) && (e matches HandshakeError::NoCredentials {
                    authenticator,
                } && authenticator@ == am.authenticator@),
                Some(c) => {
                    if am.authenticator@ != password_authenticator_name() {
                        r matches Err(e) && (e matches HandshakeError::UnknownAuthenticator(n)
                            && n@ == am.authenticator@)
                    } else if creds_token(*c).len() > 0x7FFF_FFFF {
                        r matches Err(e) && e is CredentialsTooLong
                    } else {
                        r matches Ok(st) && st.next is AwaitAuthSuccess && (st.send matches Some(m)
                            && (m matches request::Message::AuthResponse(ar) && ar.auth_data@
                            == Some(creds_token(*c))))
                    }
                },
            }
        })),
        state is AwaitAuthSuccess && res is AuthSuccess ==> (r matches Ok(st) && st.next is Ready
            && st.send is None),
{
    match res {
        StreamingMessage::Error(em) => Err(HandshakeError::CqlError(em.code, em.text)),
        StreamingMessage::Supported(msg) => {
            if matches!(state, HandshakeState::AwaitSupported) {
                match startup_message_from_supported(msg, preferred) {
                    Ok(m) => Ok(
                        HandshakeStep {
                            next: HandshakeState::AwaitReadyOrAuthenticate,
                            send: Some(m),
                        },
                    ),
                    Err(e) => Err(e),
                }
            } else {
                Err(HandshakeError::UnexpectedMessage)
            }
        },
        StreamingMessage::Ready => {
            if matches!(state, HandshakeState::AwaitReadyOrAuthenticate) {
                Ok(HandshakeStep { next: HandshakeState::Ready, send: None })
            } else {
                Err(HandshakeError::UnexpectedMessage)
            }
        },
        StreamingMessage::Authenticate(am) => {
            if matches!(state, HandshakeState::AwaitReadyOrAuthenticate) {
                match auth_response_from_authenticate(creds, am) {
                    Ok(m) => Ok(
                        HandshakeStep { next: HandshakeState::AwaitAuthSuccess, send: Some(m) },
                    ),
                    Err(e) => Err(e),
                }
            } else {
                Err(HandshakeError::UnexpectedMessage)
            }
        },
        StreamingMessage::AuthSuccess(_) => {
            if matches!(state, HandshakeState::AwaitAuthSuccess) {
                Ok(HandshakeStep { next: HandshakeState::Ready, send: None })
            } else {
                Err(HandshakeError::UnexpectedMessage)
            }
        },
        StreamingMessage::Partial(_) => Err(HandshakeError::UnexpectedMessage),
    }
}

impl HandshakeError {
    /// A one-line description, for reporting.
    pub fn message(&self) -> (r: String)
        ensures
            self is NoCqlVersion ==> r@
                == "Expected CQL_VERSION to contain at least one version"@,
            self matches HandshakeError::NoCredentials { authenticator } ==> r@
                == "No credentials provided but server requires authentication by "@
                + vstd::utf8::decode_utf8(authenticator@),
            self matches HandshakeError::UnknownAuthenticator(n) ==> r@
                == "Unknown authenticator "@ + vstd::utf8::decode_utf8(n@),
            self is CredentialsTooLong ==> r@
                == "Credentials do not fit an AUTH_RESPONSE body"@,
            self is UnexpectedMessage ==> r@
                == "Did not expect to receive this message during the handshake"@,
            self matches HandshakeError::CqlError(_, text) ==> r@ == "CQL server error: "@
                + vstd::utf8::decode_utf8(text@),
    {
        match self {
            HandshakeError::NoCqlVersion => String::from_str(
                "Expected CQL_VERSION to contain at least one version",
            ),
            HandshakeError::NoCredentials { authenticator } => {
                let mut out = String::from_str(
                    "No credentials provided but server requires authentication by ",
                );
                append_wire_text(&mut out, authenticator);
                out
            },
            HandshakeError::UnknownAuthenticator(name) => {
                let mut out = String::from_str("Unknown authenticator ");
                append_wire_text(&mut out, name);
                out
            },
            HandshakeError::CredentialsTooLong => String::from_str(
                "Credentials do not fit an AUTH_RESPONSE body",
            ),
            HandshakeError::UnexpectedMessage => String::from_str(
                "Did not expect to receive this message during the handshake",
            ),
            HandshakeError::CqlError(_, text) => {
                let mut out = String::from_str("CQL server error: ");
                append_wire_text(&mut out, text);
                out
            },
        }
    }
}

/// Appends a wire string's text to `out`.
fn append_wire_text(out: &mut String, s: &CqlString)
    ensures
        final(out)@ == old(out)@ + vstd::utf8::decode_utf8(s@),
{
    let t = s.as_text();
    proof {
        vstd::utf8::encode_utf8_decode_utf8(t@);
    }
    out.append(t);
}

} // verus!
