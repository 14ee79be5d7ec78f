//! The driver's message envelopes: responses divide into small messages,
//! delivered whole, and streamable ones, whose row payload arrives as a
//! lazy sequence of chunks.

use vstd::prelude::*;

verus! {

use crate::request;
use crate::response::{
    self, SupportedMessage, ErrorMessage, AuthenticateMessage, AuthSuccessMessage, ResultHeader,
};

/// One chunk of a streamed rows payload.
#[derive(Debug)]
pub struct ResultChunk;

/// A partial response: a piece of a streamable RESULT.
#[derive(Debug)]
pub enum ChunkedMessage {
    Result(ResultChunk),
}

/// A response as the driver emits it: delivered whole, or the head of a
/// streamable RESULT whose body follows as chunks.
#[derive(Debug)]
pub enum StreamingMessage {
    Ready,
    Supported(SupportedMessage),
    Error(ErrorMessage),
    Authenticate(AuthenticateMessage),
    AuthSuccess(AuthSuccessMessage),
    Partial(ResultHeader),
}

/// A whole request with the stream id it travels under.
pub struct SimpleRequest(pub u64, pub request::Message);

/// A whole response with the stream id it arrived under.
pub struct SimpleResponse(pub u64, pub response::Message);

/// The streaming envelope of each response message: a RESULT becomes the
/// head of a stream, everything else is delivered whole.
pub open spec fn streaming_of(m: response::Message) -> StreamingMessage {
    match m {
        response::Message::Ready => StreamingMessage::Ready,
        response::Message::Supported(msg) => StreamingMessage::Supported(msg),
        response::Message::Error(msg) => StreamingMessage::Error(msg),
        response::Message::Authenticate(msg) => StreamingMessage::Authenticate(msg),
        response::Message::AuthSuccess(msg) => StreamingMessage::AuthSuccess(msg),
        response::Message::Result(h) => StreamingMessage::Partial(h),
    }
}

impl From<response::Message> for StreamingMessage {
    fn from(m: response::Message) -> (r: Self)
        ensures
            r == streaming_of(m),
    {
        match m {
            response::Message::Ready => StreamingMessage::Ready,
            response::Message::Supported(msg) => StreamingMessage::Supported(msg),
            response::Message::Error(msg) => StreamingMessage::Error(msg),
            response::Message::Authenticate(msg) => StreamingMessage::Authenticate(msg),
            response::Message::AuthSuccess(msg) => StreamingMessage::AuthSuccess(msg),
            response::Message::Result(h) => StreamingMessage::Partial(h),
        }
    }
}

impl vstd::std_specs::convert::FromSpecImpl<response::Message> for StreamingMessage {
    open spec fn obeys_from_spec() -> bool {
        true
    }

    open spec fn from_spec(m: response::Message) -> Self {
        streaming_of(m)
    }
}

impl StreamingMessage {
    /// The whole message, for a response delivered whole; a streamed head
    /// has no whole message yet.
    pub fn try_into_message(self) -> (r: Option<response::Message>)
        ensures
            match r {
                Some(m) => self is Partial == false && streaming_of(m) == self,
                None => self is Partial,
            },
    {
        match self {
            StreamingMessage::Ready => Some(response::Message::Ready),
            StreamingMessage::Supported(msg) => Some(response::Message::Supported(msg)),
            StreamingMessage::Error(msg) => Some(response::Message::Error(msg)),
            StreamingMessage::Authenticate(msg) => Some(response::Message::Authenticate(msg)),
            StreamingMessage::AuthSuccess(msg) => Some(response::Message::AuthSuccess(msg)),
            StreamingMessage::Partial(_) => None,
        }
    }
}

} // verus!
