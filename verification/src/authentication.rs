//! Authenticator selection by the server-reported class name, and the
//! encoding of credentials into an AUTH_RESPONSE token.

use vstd::prelude::*;

verus! {

use vstd::string::StringSliceAdditionalSpecFns;
use vstd::string::StringExecFns;
use vstd::utf8::valid_utf8;
use crate::primitives::{CqlString, bytes_eq};

/// What a caller can authenticate with.
#[derive(Debug, Clone)]
pub enum Credentials {
    Login { username: String, password: String },
}

/// The transport-security inputs a TLS connection needs; carried as
/// configuration, consumed outside the protocol core.
#[derive(Debug, Clone, PartialEq, Eq)]
pub struct TlsOptions;

/// The error of authenticator selection: the server demands a scheme this
/// client does not implement.
#[derive(Debug)]
pub enum AuthError {
    UnknownAuthenticator(String),
}

/// A credential-exchange scheme; only password authentication is
/// implemented.
pub enum Authenticator {
    PlainTextAuthenticator { username: String, password: String },
}

/// The class name of the one supported authenticator.
pub open spec fn password_authenticator_name() -> Seq<u8> {
    "org.apache.cassandra.auth.PasswordAuthenticator".spec_bytes()
}

/// The AUTH_RESPONSE token of an authenticator: for password
/// authentication, a NUL, the username's UTF-8 bytes, a NUL, and the
/// password's UTF-8 bytes.
pub open spec fn auth_token(a: Authenticator) -> Seq<u8> {
    match a {
        Authenticator::PlainTextAuthenticator { username, password } => seq![0u8]
            + vstd::utf8::encode_utf8(username@) + seq![0u8] + vstd::utf8::encode_utf8(password@),
    }
}

impl Authenticator {
    /// Selects the authenticator for a server-reported class name: the
    /// password authenticator for its class name, an error for any other.
    pub fn from_name(name: &str, credentials: Credentials) -> (r: Result<Authenticator, AuthError>)
        ensures
            name.spec_bytes() == password_authenticator_name() <==> r is Ok,
            r matches Ok(a) ==> ({
                &&& a matches Authenticator::PlainTextAuthenticator { username, password }
                &&& credentials matches Credentials::Login { username: u, password: p }
                    && username@ == u@ && password@ == p@
            }),
            r matches Err(e) ==> e matches AuthError::UnknownAuthenticator(n) && n@ == name@,
    {
        if bytes_eq(name.as_bytes(), "org.apache.cassandra.auth.PasswordAuthenticator".as_bytes()) {
            match credentials {
                Credentials::Login { username, password } => Ok(
                    Authenticator::PlainTextAuthenticator { username, password },
                ),
            }
        } else {
            Err(AuthError::UnknownAuthenticator(name.to_owned()))
        }
    }

    /// Appends this authenticator's AUTH_RESPONSE token to `v`.
    pub fn encode_auth_response(&self, v: &mut Vec<u8>)
        ensures
            final(v)@ == old(v)@ + auth_token(*self),
    {
        match self {
            Authenticator::PlainTextAuthenticator { username, password } => {
                v.push(0x00);
                v.extend_from_slice(username.as_str().as_bytes());
                v.push(0x00);
                v.extend_from_slice(password.as_str().as_bytes());
                assert(v@ =~= old(v)@ + auth_token(*self));
            },
        }
    }
}

} // verus!
