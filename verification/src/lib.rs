//! A client-side implementation of the Cassandra native binary protocol,
//! version 3: wire primitives, the fixed frame header, typed request and
//! response messages, the frame codec, and the connection state machines
//! (handshake and stream-id multiplexing).
//!
//! Every value that can appear on the wire has a byte-exact specification,
//! and the executable encoders and decoders are verified against it.

pub mod authentication;
pub mod codec;
pub mod driver;
pub mod handshake;
pub mod header;
pub mod indexed;
pub mod messages;
pub mod primitives;
pub mod request;
pub mod response;
pub mod wire;
