//! The 9-byte frame header: version and direction, flags, stream id,
//! opcode and body length, in network byte order.

use vstd::prelude::*;

verus! {

use crate::wire::{self, be_bytes, from_be, enc_short};

/// Whether a frame travels to the server or from it; the top bit of the
/// version byte.
#[derive(Debug, PartialEq, Eq, Structural, Clone, Copy)]
pub enum Direction {
    Request,
    Response,
}

/// The protocol version a frame carries; only version 3 is supported.
#[derive(Debug, PartialEq, Eq, Structural, Clone, Copy)]
pub enum ProtocolVersion {
    Version3(Direction),
}

/// The one-byte discriminant that selects a frame body's meaning.
#[derive(Debug, PartialEq, Eq, Structural, Clone, Copy)]
pub enum OpCode {
    Error,
    Startup,
    Ready,
    Authenticate,
    Options,
    Supported,
    Query,
    Result,
    Prepare,
    Execute,
    Register,
    Event,
    Batch,
    AuthChallenge,
    AuthResponse,
    AuthSuccess,
}

/// What can be wrong with 9 bytes offered as a header.
#[derive(Debug, PartialEq, Eq, Structural, Clone, Copy)]
pub enum HeaderError {
    UnsupportedVersion(u8),
    InvalidDataLength(usize),
    InvalidOpCode(u8),
}

/// The wire byte of an opcode.
pub open spec fn opcode_byte(c: OpCode) -> u8 {
    match c {
        OpCode::Error => 0x00,
        OpCode::Startup => 0x01,
        OpCode::Ready => 0x02,
        OpCode::Authenticate => 0x03,
        OpCode::Options => 0x05,
        OpCode::Supported => 0x06,
        OpCode::Query => 0x07,
        OpCode::Result => 0x08,
        OpCode::Prepare => 0x09,
        OpCode::Execute => 0x0A,
        OpCode::Register => 0x0B,
        OpCode::Event => 0x0C,
        OpCode::Batch => 0x0D,
        OpCode::AuthChallenge => 0x0E,
        OpCode::AuthResponse => 0x0F,
        OpCode::AuthSuccess => 0x10,
    }
}

/// The opcode a wire byte stands for, if any.
pub open spec fn opcode_of_byte(b: u8) -> Option<OpCode> {
    if b == 0x00 {
        Some(OpCode::Error)
    } else if b == 0x01 {
        Some(OpCode::Startup)
    } else if b == 0x02 {
        Some(OpCode::Ready)
    } else if b == 0x03 {
        Some(OpCode::Authenticate)
    } else if b == 0x05 {
        Some(OpCode::Options)
    } else if b == 0x06 {
        Some(OpCode::Supported)
    } else if b == 0x07 {
        Some(OpCode::Query)
    } else if b == 0x08 {
        Some(OpCode::Result)
    } else if b == 0x09 {
        Some(OpCode::Prepare)
    } else if b == 0x0A {
        Some(OpCode::Execute)
    } else if b == 0x0B {
        Some(OpCode::Register)
    } else if b == 0x0C {
        Some(OpCode::Event)
    } else if b == 0x0D {
        Some(OpCode::Batch)
    } else if b == 0x0E {
        Some(OpCode::AuthChallenge)
    } else if b == 0x0F {
        Some(OpCode::AuthResponse)
    } else if b == 0x10 {
        Some(OpCode::AuthSuccess)
    } else {
        None
    }
}

/// The wire byte of a version-and-direction pair: the low 7 bits are the
/// protocol version, the top bit the direction.
pub open spec fn version_byte(v: ProtocolVersion) -> u8 {
    match v {
        ProtocolVersion::Version3(Direction::Request) => 0x03,
        ProtocolVersion::Version3(Direction::Response) => 0x83,
    }
}

/// The version-and-direction pair a wire byte stands for, if supported.
pub open spec fn version_of_byte(b: u8) -> Option<ProtocolVersion> {
    if b == 0x03 {
        Some(ProtocolVersion::Version3(Direction::Request))
    } else if b == 0x83 {
        Some(ProtocolVersion::Version3(Direction::Response))
    } else {
        None
    }
}

impl OpCode {
    /// Reads an opcode from its wire byte; unknown bytes are refused.
    pub fn try_from(b: u8) -> (r: Result<OpCode, HeaderError>)
        ensures
            match opcode_of_byte(b) {
                Some(c) => r == Ok::<_, HeaderError>(c),
                None => r == Err::<OpCode, _>(HeaderError::InvalidOpCode(b)),
            },
    {
        match b {
            0x00 => Ok(OpCode::Error),
            0x01 => Ok(OpCode::Startup),
            0x02 => Ok(OpCode::Ready),
            0x03 => Ok(OpCode::Authenticate),
            0x05 => Ok(OpCode::Options),
            0x06 => Ok(OpCode::Supported),
            0x07 => Ok(OpCode::Query),
            0x08 => Ok(OpCode::Result),
            0x09 => Ok(OpCode::Prepare),
            0x0A => Ok(OpCode::Execute),
            0x0B => Ok(OpCode::Register),
            0x0C => Ok(OpCode::Event),
            0x0D => Ok(OpCode::Batch),
            0x0E => Ok(OpCode::AuthChallenge),
            0x0F => Ok(OpCode::AuthResponse),
            0x10 => Ok(OpCode::AuthSuccess),
            _ => Err(HeaderError::InvalidOpCode(b)),
        }
    }

    /// The wire byte of this opcode.
    pub fn to_u8(&self) -> (r: u8)
        ensures
            r == opcode_byte(*self),
    {
        match *self {
            OpCode::Error => 0x00,
            OpCode::Startup => 0x01,
            OpCode::Ready => 0x02,
            OpCode::Authenticate => 0x03,
            OpCode::Options => 0x05,
            OpCode::Supported => 0x06,
            OpCode::Query => 0x07,
            OpCode::Result => 0x08,
            OpCode::Prepare => 0x09,
            OpCode::Execute => 0x0A,
            OpCode::Register => 0x0B,
            OpCode::Event => 0x0C,
            OpCode::Batch => 0x0D,
            OpCode::AuthChallenge => 0x0E,
            OpCode::AuthResponse => 0x0F,
            OpCode::AuthSuccess => 0x10,
        }
    }
}

/// The fixed frame header: always exactly nine bytes on the wire.
#[derive(Debug, PartialEq, Eq, Structural, Clone, Copy)]
pub struct Header {
    pub version: ProtocolVersion,
    /// Bit 0: the body is compressed.  Bit 1: the frame is traced.  The
    /// other bits are reserved and preserved.
    pub flags: u8,
    /// Client-assigned for requests and echoed in responses; values with
    /// the top bit set are, read as signed, the server's event ids.
    pub stream_id: u16,
    pub op_code: OpCode,
    /// The number of body bytes that follow the header.
    pub length: u32,
}

/// The nine wire bytes of a header.
pub open spec fn enc_header(h: Header) -> Seq<u8> {
    seq![version_byte(h.version), h.flags] + enc_short(h.stream_id) + seq![opcode_byte(h.op_code)]
        + be_bytes(h.length as nat, 4)
}

/// Reads a header from the first nine bytes: the version byte must be a
/// supported version, the opcode byte a known opcode.
pub open spec fn dec_header(b: Seq<u8>) -> Result<Header, HeaderError> {
    if b.len() < 9 {
        Err(HeaderError::InvalidDataLength(b.len() as usize))
    } else {
        match version_of_byte(b[0]) {
            None => Err(HeaderError::UnsupportedVersion(b[0])),
            Some(v) => match opcode_of_byte(b[4]) {
                None => Err(HeaderError::InvalidOpCode(b[4])),
                Some(c) => Ok(
                    Header {
                        version: v,
                        flags: b[1],
                        stream_id: from_be(b.subrange(2, 4)) as u16,
                        op_code: c,
                        length: from_be(b.subrange(5, 9)) as u32,
                    },
                ),
            },
        }
    }
}

impl Header {
    /// The size of every encoded header.
    pub fn encoded_len() -> (r: usize)
        ensures
            r == 9,
    {
        9
    }

    /// Decodes a header from the start of `b`; fails on a short buffer,
    /// an unsupported version byte or an unknown opcode byte.
    pub fn try_from(b: &[u8]) -> (r: Result<Header, HeaderError>)
        ensures
            r == dec_header(b@),
    {
        if b.len() < 9 {
            return Err(HeaderError::InvalidDataLength(b.len()));
        }
        let version = match b[0] {
            0x03 => ProtocolVersion::Version3(Direction::Request),
            0x83 => ProtocolVersion::Version3(Direction::Response),
            _ => {
                return Err(HeaderError::UnsupportedVersion(b[0]));
            },
        };
        let op_code = match OpCode::try_from(b[4]) {
            Ok(c) => c,
            Err(e) => {
                return Err(e);
            },
        };
        let stream_id: u16 = (b[2] as u16) * 256 + (b[3] as u16);
        let length: u32 = (b[5] as u32) * 0x100_0000 + (b[6] as u32) * 0x1_0000 + (b[7] as u32)
            * 256 + (b[8] as u32);
        proof {
            wire::lemma_from_be_2(b@.subrange(2, 4));
            wire::lemma_from_be_4(b@.subrange(5, 9));
        }
        Ok(
            Header {
                version,
                flags: b[1],
                stream_id,
                op_code,
                length,
            },
        )
    }

    /// Bit 0 of the flags: the body is compressed.
    pub fn is_compressed(&self) -> (r: bool)
        ensures
            r == (self.flags & 0x01 == 0x01),
    {
        self.flags & 0x01 == 0x01
    }

    /// Bit 1 of the flags: the frame carries tracing.
    pub fn is_traced(&self) -> (r: bool)
        ensures
            r == (self.flags & 0x02 == 0x02),
    {
        self.flags & 0x02 == 0x02
    }

    /// Writes the nine header bytes.
    pub fn encode(&self) -> (r: Result<Vec<u8>, HeaderError>)
        ensures
            r matches Ok(v) && v@ == enc_header(*self),
    {
        let mut out: Vec<u8> = Vec::new();
        out.push(match self.version {
            ProtocolVersion::Version3(Direction::Request) => 0x03,
            ProtocolVersion::Version3(Direction::Response) => 0x83,
        });
        out.push(self.flags);
        let mut sid = crate::primitives::encode::short(self.stream_id);
        out.append(&mut sid);
        out.push(self.op_code.to_u8());
        let len = self.length;
        out.push(((len / 0x100_0000) % 256) as u8);
        out.push(((len / 0x1_0000) % 256) as u8);
        out.push(((len / 256) % 256) as u8);
        out.push((len % 256) as u8);
        proof {
            wire::lemma_be_bytes_4(len as nat);
            assert(out@ =~= enc_header(*self));
        }
        Ok(out)
    }
}

/// An encoded header is nine bytes, and decoding it restores every field:
/// the round trip holds for the whole cross-product of header values.
pub proof fn lemma_header_round_trip(h: Header)
    ensures
        enc_header(h).len() == 9,
        dec_header(enc_header(h)) == Ok::<Header, HeaderError>(h),
{
    let b = enc_header(h);
    wire::lemma_be_bytes_len(h.stream_id as nat, 2);
    wire::lemma_be_bytes_len(h.length as nat, 4);
    assert(b.subrange(2, 4) =~= enc_short(h.stream_id));
    assert(b.subrange(5, 9) =~= be_bytes(h.length as nat, 4));
    wire::lemma_pow256_values();
    wire::lemma_from_be_be_bytes(h.stream_id as nat, 2);
    wire::lemma_from_be_be_bytes(h.length as nat, 4);
    assert(b[0] == version_byte(h.version));
    assert(b[4] == opcode_byte(h.op_code));
}

/// A header decode looks only at the first nine bytes: further input
/// cannot change it.
pub proof fn lemma_dec_header_prefix(b: Seq<u8>, ext: Seq<u8>)
    requires
        b.len() >= 9,
    ensures
        dec_header(b + ext) == dec_header(b),
{
    let w = b + ext;
    assert(w[0] == b[0]);
    assert(w[1] == b[1]);
    assert(w[4] == b[4]);
    assert(w.subrange(2, 4) =~= b.subrange(2, 4));
    assert(w.subrange(5, 9) =~= b.subrange(5, 9));
}

} // verus!
