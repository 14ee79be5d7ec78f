//! The frame codec: a two-state machine that turns a byte stream into
//! framed response messages, and frames outgoing requests.
//!
//! The decoder's behaviour is specified by [`poll`], a function of the
//! codec state and the buffered bytes; [`run_frames`] iterates it, and
//! [`lemma_codec_incremental`] shows that how the bytes arrive — one at a
//! time or all at once — cannot change the frames that come out.

use vstd::prelude::*;

verus! {

use vstd::string::StringSliceAdditionalSpecFns;
use crate::header::{Header, HeaderError, ProtocolVersion, Direction, OpCode, dec_header};
use crate::request::{self, cql_encode, RequestError};
use crate::response::{self, ResponseError, decode_complete_message_by_opcode};

/// The error of a codec step; any of these closes the connection.
#[derive(Debug, PartialEq, Eq, Structural, Clone, Copy)]
pub enum CodecError {
    /// The nine header bytes do not decode.
    Header(HeaderError),
    /// The header carries the request direction, which a client never
    /// receives.
    WrongDirection,
    /// The frame body does not decode as its opcode's message.
    Response(ResponseError),
    /// An outgoing request could not be framed.
    Request(RequestError),
}

/// The decoder's state: waiting for the nine header bytes, or holding a
/// decoded header and waiting for its body.
#[derive(Debug, PartialEq, Eq, Structural, Clone, Copy)]
pub enum Machine {
    NeedHeader,
    WithHeader { header: Header, body_len: usize },
}

/// Where to dump encoded and decoded frames for debugging, if anywhere,
/// and the index the next dumped frame gets.
#[derive(Debug, PartialEq, Clone)]
pub struct CqlCodecDebuggingOptions {
    pub dump_decoded_frames_into: Option<String>,
    pub dump_encoded_frames_into: Option<String>,
    pub frames_count: usize,
}

impl Default for CqlCodecDebuggingOptions {
    /// No dumping, counting from zero.
    fn default() -> (r: Self)
        ensures
            r.dump_decoded_frames_into is None,
            r.dump_encoded_frames_into is None,
            r.frames_count == 0,
    {
        CqlCodecDebuggingOptions {
            dump_decoded_frames_into: None,
            dump_encoded_frames_into: None,
            frames_count: 0,
        }
    }
}

/// A decoded frame: its header and its typed message.
#[derive(Debug)]
pub struct Response {
    pub header: Header,
    pub message: response::Message,
}

/// The frame codec bound to one connection.
#[derive(Debug, Clone)]
pub struct CqlCodec {
    pub state: Machine,
    pub flags: u8,
    pub version: ProtocolVersion,
    pub debug: CqlCodecDebuggingOptions,
}

// ---------------------------------------------------------------------------
// The decoder's specification
// ---------------------------------------------------------------------------

/// The outcome of one decoder call on a state and the buffered bytes.
pub enum Polled {
    /// More input is wanted; the state and the unconsumed bytes remain.
    NeedMore(Machine, Seq<u8>),
    /// A whole frame: its header, its body, and the bytes after it.
    Frame(Header, Seq<u8>, Seq<u8>),
    /// The bytes at the head of the stream are not a frame.
    Failed(CodecError),
}

/// One decoder call: with fewer than nine bytes and no stored header,
/// wait; with nine, decode the header — it must be a response — and keep
/// it; with a stored header, wait for the body's length and drain it.
pub open spec fn poll(m: Machine, b: Seq<u8>) -> Polled {
    match m {
        Machine::NeedHeader => {
            if b.len() < 9 {
                Polled::NeedMore(Machine::NeedHeader, b)
            } else {
                match dec_header(b) {
                    Err(e) => Polled::Failed(CodecError::Header(e)),
                    Ok(h) => {
                        if h.version != ProtocolVersion::Version3(Direction::Response) {
                            Polled::Failed(CodecError::WrongDirection)
                        } else {
                            let rest = b.skip(9);
                            if rest.len() < h.length {
                                Polled::NeedMore(
                                    Machine::WithHeader { header: h, body_len: h.length as usize },
                                    rest,
                                )
                            } else {
                                Polled::Frame(
                                    h,
                                    rest.take(h.length as int),
                                    rest.skip(h.length as int),
                                )
                            }
                        }
                    },
                }
            }
        },
        Machine::WithHeader { header, body_len } => {
            if b.len() < body_len {
                Polled::NeedMore(m, b)
            } else {
                Polled::Frame(header, b.take(body_len as int), b.skip(body_len as int))
            }
        },
    }
}

/// Orders the two states for termination: a stored header is consumed
/// before the next header read.
pub open spec fn machine_rank(m: Machine) -> int {
    match m {
        Machine::NeedHeader => 0,
        Machine::WithHeader { .. } => 1,
    }
}

/// The frames a byte sequence yields from a state, by iterating [`poll`]:
/// the frames in order, and then either a waiting state with the leftover
/// bytes, or the error that ends the stream.
pub enum FrameRun {
    More(Seq<(Header, Seq<u8>)>, Machine, Seq<u8>),
    Dead(Seq<(Header, Seq<u8>)>, CodecError),
}

pub open spec fn run_frames(m: Machine, b: Seq<u8>) -> FrameRun
    decreases b.len(), machine_rank(m),
{
    match poll(m, b) {
        Polled::NeedMore(m2, rest) => FrameRun::More(seq![], m2, rest),
        Polled::Frame(h, body, rest) => {
            match run_frames(Machine::NeedHeader, rest) {
                FrameRun::More(fs, m3, r3) => FrameRun::More(seq![(h, body)] + fs, m3, r3),
                FrameRun::Dead(fs, e) => FrameRun::Dead(seq![(h, body)] + fs, e),
            }
        },
        Polled::Failed(e) => FrameRun::Dead(seq![], e),
    }
}

// ---------------------------------------------------------------------------
// The executable codec
// ---------------------------------------------------------------------------

/// Removes and returns the first `n` buffered bytes.
fn drain(buf: &mut Vec<u8>, n: usize) -> (r: Vec<u8>)
    requires
        n <= old(buf)@.len(),
    ensures
        r@ == old(buf)@.take(n as int),
        final(buf)@ == old(buf)@.skip(n as int),
{
    let mut rest = buf.split_off(n);
    core::mem::swap(buf, &mut rest);
    rest
}

impl CqlCodec {
    /// A fresh codec waiting for its first header.
    pub fn new(v: ProtocolVersion, debug: CqlCodecDebuggingOptions) -> (r: Self)
        ensures
            r.state is NeedHeader,
            r.flags == 0,
            r.version == v,
    {
        CqlCodec { state: Machine::NeedHeader, flags: 0, version: v, debug }
    }

    /// One decoder call, as [`poll`] describes it: either asks for more
    /// input, leaving the unconsumed bytes in the buffer, or drains one
    /// whole frame and decodes its body by its opcode.  A frame whose
    /// header or body is invalid is an error; the decoded part of the
    /// buffer is consumed either way, so the next call starts at the
    /// next frame.
    pub fn decode(&mut self, buf: &mut Vec<u8>) -> (r: Result<Option<(u16, Response)>, CodecError>)
        ensures
            final(self).flags == old(self).flags,
            final(self).version == old(self).version,
            ({
                match poll(old(self).state, old(buf)@) {
                    Polled::NeedMore(m2, rest) => r matches Ok(o) && o is None && final(self).state
                        == m2 && final(buf)@ == rest,
                    Polled::Frame(h, body, rest) => {
                        &&& final(self).state is NeedHeader
                        &&& final(buf)@ == rest
                        &&& ((response::decodable_opcode(h.op_code) && response::message_decodes(
                            h.op_code,
                            body,
                        )) <==> (r matches Ok(o) && o is Some))
                        &&& (r matches Ok(o) ==> (o matches Some(p) ==> p.0 == h.stream_id
                            && p.1.header == h && response::message_matches(
                            h.op_code,
                            body,
                            p.1.message,
                        )))
                        &&& (r is Err ==> (r matches Err(e) && e matches CodecError::Response(_)))
                    },
                    Polled::Failed(e) => ({
                        &&& r == Err::<Option<(u16, Response)>, _>(e)
                        &&& final(self).state is NeedHeader
                        &&& final(buf)@ == old(buf)@.skip(9)
                    }),
                }
            }),
    {
        let ghost b0 = buf@;
        if matches!(self.state, Machine::NeedHeader) {
            if buf.len() < 9 {
                return Ok(None);
            }
            let headb = drain(buf, 9);
            proof {
                crate::header::lemma_dec_header_prefix(headb@, buf@);
                assert(headb@ + buf@ =~= b0);
            }
            let h = match Header::try_from(headb.as_slice()) {
                Ok(h) => h,
                Err(e) => {
                    return Err(CodecError::Header(e));
                },
            };
            if !(h.version == ProtocolVersion::Version3(Direction::Response)) {
                return Err(CodecError::WrongDirection);
            }
            self.state = Machine::WithHeader { header: h, body_len: h.length as usize };
        }
        let (header, body_len) = match &self.state {
            Machine::WithHeader { header, body_len } => (*header, *body_len),
            Machine::NeedHeader => {
                proof {
                    assert(false);
                }
                return Ok(None);
            },
        };
        if buf.len() < body_len {
            return Ok(None);
        }
        let body = drain(buf, body_len);
        self.state = Machine::NeedHeader;
        match decode_complete_message_by_opcode(self.version, header.op_code, body.as_slice()) {
            Ok(m) => Ok(Some((header.stream_id, Response { header, message: m }))),
            Err(e) => Err(CodecError::Response(e)),
        }
    }

    /// Frames one request with this codec's flags and the given stream
    /// id.  Ids with the top bit set are the server's; a request never
    /// carries one.
    pub fn encode(&self, msg: (u16, request::Message), buf: &mut Vec<u8>) -> (r: Result<
        (),
        CodecError,
    >)
        requires
            msg.0 < 0x8000,
            request::wf_message(msg.1),
        ensures
            ({
                let body = request::message_body(msg.1);
                let h = Header {
                    version: ProtocolVersion::Version3(Direction::Request),
                    flags: self.flags,
                    stream_id: msg.0,
                    op_code: request::message_opcode(msg.1),
                    length: body.len() as u32,
                };
                &&& (body.len() <= 0xFFFF_FFFF <==> r is Ok)
                &&& (r is Ok ==> final(buf)@ == crate::header::enc_header(h) + body)
                &&& (body.len() > 0xFFFF_FFFF ==> r == Err::<(), _>(
                    CodecError::Request(RequestError::BodyLengthExceeded(body.len() as usize)),
                ))
            }),
    {
        let (id, message) = msg;
        match cql_encode(self.version, self.flags, id, message, buf) {
            Ok(()) => Ok(()),
            Err(e) => Err(CodecError::Request(e)),
        }
    }
}

/// The protocol configuration a connection is opened with: the version
/// every frame will carry, and the debugging options, if any.  Binding it
/// to a transport yields the connection's codec.
#[derive(Debug, Clone)]
pub struct CqlProto {
    pub version: ProtocolVersion,
    pub debug: Option<CqlCodecDebuggingOptions>,
}

impl CqlProto {
    /// The codec a freshly bound transport starts with.
    pub fn bind_transport(&self) -> (r: CqlCodec)
        ensures
            r.state is NeedHeader,
            r.flags == 0,
            r.version == self.version,
    {
        let debug = match &self.debug {
            Some(d) => d.clone(),
            None => CqlCodecDebuggingOptions::default(),
        };
        CqlCodec::new(self.version, debug)
    }
}

// ---------------------------------------------------------------------------
// The framing law
// ---------------------------------------------------------------------------

/// Codec framing is insensitive to how the bytes arrive.  Whatever state
/// the codec is in, feeding it a stream in two pieces yields the frames
/// of the first piece and then continues, from the state and leftover the
/// first piece reached, over the rest — exactly the frames of the stream
/// fed whole, ending in the same state or the same error.  Applied
/// piece by piece, a stream fed one byte at a time yields the same frame
/// sequence as the stream fed all at once; the decoded messages follow,
/// being a function of each frame's opcode and body.
pub proof fn lemma_codec_incremental(m: Machine, b1: Seq<u8>, b2: Seq<u8>)
    ensures
        ({
            match run_frames(m, b1) {
                FrameRun::More(fs1, m1, r1) => run_frames(m, b1 + b2) == (match run_frames(
                    m1,
                    r1 + b2,
                ) {
                    FrameRun::More(fs2, m2, r2) => FrameRun::More(fs1 + fs2, m2, r2),
                    FrameRun::Dead(fs2, e) => FrameRun::Dead(fs1 + fs2, e),
                }),
                FrameRun::Dead(fs1, e) => run_frames(m, b1 + b2) == FrameRun::Dead(fs1, e),
            }
        }),
    decreases b1.len(), machine_rank(m),
{
    let whole = b1 + b2;
    let nil = Seq::<(Header, Seq<u8>)>::empty();
    match m {
        Machine::NeedHeader => {
            if b1.len() < 9 {
                // Nothing of the first piece is consumed: the runs agree
                // by definition.
                assert(b1 + b2 == whole);
                match run_frames(Machine::NeedHeader, whole) {
                    FrameRun::More(fs2, m2, r2) => {
                        assert(nil + fs2 =~= fs2);
                    },
                    FrameRun::Dead(fs2, e) => {
                        assert(nil + fs2 =~= fs2);
                    },
                }
            } else {
                crate::header::lemma_dec_header_prefix(b1, b2);
                match dec_header(b1) {
                    Err(_) => {
                        // Both runs die on the same malformed header.
                    },
                    Ok(h) => {
                        if h.version != ProtocolVersion::Version3(Direction::Response) {
                            // Both runs die on the request direction.
                        } else {
                            let rest1 = b1.skip(9);
                            assert(whole.skip(9) =~= rest1 + b2);
                            let w = Machine::WithHeader {
                                header: h,
                                body_len: h.length as usize,
                            };
                            if rest1.len() < h.length {
                                // The header is stored; the body is still
                                // awaited.  Both sides continue over the
                                // joined leftover.
                                if (rest1 + b2).len() < h.length {
                                    match run_frames(w, rest1 + b2) {
                                        FrameRun::More(fs2, m2, r2) => {
                                            assert(nil + fs2 =~= fs2);
                                        },
                                        FrameRun::Dead(fs2, e) => {
                                            assert(nil + fs2 =~= fs2);
                                        },
                                    }
                                } else {
                                    let body = (rest1 + b2).take(h.length as int);
                                    let rem = (rest1 + b2).skip(h.length as int);
                                    assert(poll(Machine::NeedHeader, whole) == Polled::Frame(
                                        h,
                                        body,
                                        rem,
                                    ));
                                    assert(poll(w, rest1 + b2) == Polled::Frame(h, body, rem));
                                    match run_frames(Machine::NeedHeader, rem) {
                                        FrameRun::More(fs, m3, r3) => {
                                            assert(nil + (seq![(h, body)] + fs) =~= seq![(h, body)]
                                                + fs);
                                        },
                                        FrameRun::Dead(fs, e) => {
                                            assert(nil + (seq![(h, body)] + fs) =~= seq![(h, body)]
                                                + fs);
                                        },
                                    }
                                }
                            } else {
                                // A whole frame sits in the first piece.
                                let body1 = rest1.take(h.length as int);
                                let rem1 = rest1.skip(h.length as int);
                                assert((rest1 + b2).take(h.length as int) =~= body1);
                                assert((rest1 + b2).skip(h.length as int) =~= rem1 + b2);
                                assert(poll(Machine::NeedHeader, whole) == Polled::Frame(
                                    h,
                                    body1,
                                    rem1 + b2,
                                ));
                                lemma_codec_incremental(Machine::NeedHeader, rem1, b2);
                                let x = (h, body1);
                                match run_frames(Machine::NeedHeader, rem1) {
                                    FrameRun::More(fs1t, m1, r1) => {
                                        match run_frames(m1, r1 + b2) {
                                            FrameRun::More(fs2, m2, r2) => {
                                                assert(seq![x] + (fs1t + fs2) =~= (seq![x] + fs1t)
                                                    + fs2);
                                            },
                                            FrameRun::Dead(fs2, e) => {
                                                assert(seq![x] + (fs1t + fs2) =~= (seq![x] + fs1t)
                                                    + fs2);
                                            },
                                        }
                                    },
                                    FrameRun::Dead(fs1t, e) => {},
                                }
                            }
                        }
                    },
                }
            }
        },
        Machine::WithHeader { header, body_len } => {
            if b1.len() < body_len {
                assert(b1 + b2 == whole);
                match run_frames(m, whole) {
                    FrameRun::More(fs2, m2, r2) => {
                        assert(nil + fs2 =~= fs2);
                    },
                    FrameRun::Dead(fs2, e) => {
                        assert(nil + fs2 =~= fs2);
                    },
                }
            } else {
                let body1 = b1.take(body_len as int);
                let rem1 = b1.skip(body_len as int);
                assert(whole.take(body_len as int) =~= body1);
                assert(whole.skip(body_len as int) =~= rem1 + b2);
                assert(poll(m, whole) == Polled::Frame(header, body1, rem1 + b2));
                lemma_codec_incremental(Machine::NeedHeader, rem1, b2);
                let x = (header, body1);
                match run_frames(Machine::NeedHeader, rem1) {
                    FrameRun::More(fs1t, m1, r1) => {
                        match run_frames(m1, r1 + b2) {
                            FrameRun::More(fs2, m2, r2) => {
                                assert(seq![x] + (fs1t + fs2) =~= (seq![x] + fs1t) + fs2);
                            },
                            FrameRun::Dead(fs2, e) => {
                                assert(seq![x] + (fs1t + fs2) =~= (seq![x] + fs1t) + fs2);
                            },
                        }
                    },
                    FrameRun::Dead(fs1t, e) => {},
                }
            }
        },
    }
}

// ---------------------------------------------------------------------------
// Debug-dump file names
// ---------------------------------------------------------------------------

/// The decimal digits of `n`, most significant first.
pub open spec fn dec_digits(n: nat) -> Seq<u8>
    decreases n,
{
    if n < 10 {
        seq![(0x30 + n) as u8]
    } else {
        dec_digits(n / 10) + seq![(0x30 + n % 10) as u8]
    }
}

/// A hex digit, lowercase.
pub open spec fn hex_digit(d: nat) -> u8 {
    if d < 10 {
        (0x30 + d) as u8
    } else {
        (0x57 + d) as u8
    }
}

/// The printed name of an opcode.
pub open spec fn opcode_label(op: OpCode) -> Seq<u8> {
    match op {
        OpCode::Error => "Error".spec_bytes(),
        OpCode::Startup => "Startup".spec_bytes(),
        OpCode::Ready => "Ready".spec_bytes(),
        OpCode::Authenticate => "Authenticate".spec_bytes(),
        OpCode::Options => "Options".spec_bytes(),
        OpCode::Supported => "Supported".spec_bytes(),
        OpCode::Query => "Query".spec_bytes(),
        OpCode::Result => "Result".spec_bytes(),
        OpCode::Prepare => "Prepare".spec_bytes(),
        OpCode::Execute => "Execute".spec_bytes(),
        OpCode::Register => "Register".spec_bytes(),
        OpCode::Event => "Event".spec_bytes(),
        OpCode::Batch => "Batch".spec_bytes(),
        OpCode::AuthChallenge => "AuthChallenge".spec_bytes(),
        OpCode::AuthResponse => "AuthResponse".spec_bytes(),
        OpCode::AuthSuccess => "AuthSuccess".spec_bytes(),
    }
}

/// The file name a dumped frame gets: the frame index, zero-padded to at
/// least two digits, the opcode byte in hex, and the opcode's name.
pub open spec fn spec_frame_dump_name(count: nat, op: OpCode) -> Seq<u8> {
    (if count < 10 {
        seq![0x30u8] + dec_digits(count)
    } else {
        dec_digits(count)
    }) + seq![0x2du8] + seq![
        hex_digit(crate::header::opcode_byte(op) as nat / 16),
        hex_digit(crate::header::opcode_byte(op) as nat % 16),
    ] + seq![0x5fu8] + opcode_label(op) + ".bytes".spec_bytes()
}

/// Appends the decimal digits of `n`.
fn push_decimal(n: usize, out: &mut Vec<u8>)
    ensures
        final(out)@ == old(out)@ + dec_digits(n as nat),
    decreases n,
{
    if n < 10 {
        out.push(0x30 + n as u8);
        assert(out@ =~= old(out)@ + dec_digits(n as nat));
    } else {
        push_decimal(n / 10, out);
        out.push(0x30 + (n % 10) as u8);
        assert(out@ =~= old(out)@ + dec_digits(n as nat));
    }
}

/// The printed name of an opcode.
fn opcode_label_str(op: &OpCode) -> (r: &'static str)
    ensures
        r.spec_bytes() == opcode_label(*op),
{
    match op {
        OpCode::Error => "Error",
        OpCode::Startup => "Startup",
        OpCode::Ready => "Ready",
        OpCode::Authenticate => "Authenticate",
        OpCode::Options => "Options",
        OpCode::Supported => "Supported",
        OpCode::Query => "Query",
        OpCode::Result => "Result",
        OpCode::Prepare => "Prepare",
        OpCode::Execute => "Execute",
        OpCode::Register => "Register",
        OpCode::Event => "Event",
        OpCode::Batch => "Batch",
        OpCode::AuthChallenge => "AuthChallenge",
        OpCode::AuthResponse => "AuthResponse",
        OpCode::AuthSuccess => "AuthSuccess",
    }
}

/// Builds the debug-dump file name of a frame, as bytes: the frame index
/// (two digits at least), a dash, the opcode byte in hex, an underscore,
/// the opcode's name, and the `.bytes` suffix.
pub fn frame_dump_name(count: usize, op: &OpCode) -> (r: Vec<u8>)
    ensures
        r@ == spec_frame_dump_name(count as nat, *op),
{
    let mut out: Vec<u8> = Vec::new();
    if count < 10 {
        out.push(0x30);
    }
    push_decimal(count, &mut out);
    out.push(0x2d);
    let code = op.to_u8();
    out.push(if code / 16 < 10 {
        0x30 + code / 16
    } else {
        0x57 + code / 16
    });
    out.push(if code % 16 < 10 {
        0x30 + code % 16
    } else {
        0x57 + code % 16
    });
    out.push(0x5f);
    out.extend_from_slice(opcode_label_str(op).as_bytes());
    out.extend_from_slice(".bytes".as_bytes());
    assert(out@ =~= spec_frame_dump_name(count as nat, *op));
    out
}

} // verus!
