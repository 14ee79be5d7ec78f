//! The frame codec: framing requests, decoding response streams — whole,
//! split, and byte by byte — and the debug-dump names.

use cql_client::codec::{frame_dump_name, CodecError, CqlCodec, CqlCodecDebuggingOptions, Response};
use cql_client::header::{Direction, OpCode, ProtocolVersion};
use cql_client::request;
use cql_client::response;

fn new_codec() -> CqlCodec {
    CqlCodec::new(
        ProtocolVersion::Version3(Direction::Request),
        CqlCodecDebuggingOptions::default(),
    )
}

/// A [string]'s wire form: 16-bit length, then the bytes.
fn push_string(buf: &mut Vec<u8>, s: &str) {
    let b = s.as_bytes();
    buf.extend_from_slice(&(b.len() as u16).to_be_bytes());
    buf.extend_from_slice(b);
}

/// A whole SUPPORTED frame with stream id 1.
fn supported_frame() -> Vec<u8> {
    let mut body: Vec<u8> = vec![0x00, 0x01];
    push_string(&mut body, "CQL_VERSION");
    body.extend_from_slice(&[0x00, 0x01]);
    push_string(&mut body, "3.2.1");

    let mut frame: Vec<u8> = vec![0x83, 0x00, 0x00, 0x01, 0x06];
    frame.extend_from_slice(&(body.len() as u32).to_be_bytes());
    frame.extend_from_slice(&body);
    frame
}

/// A READY frame with the given stream id and an empty body.
fn ready_frame(stream_id: u16) -> Vec<u8> {
    let mut frame: Vec<u8> = vec![0x83, 0x00];
    frame.extend_from_slice(&stream_id.to_be_bytes());
    frame.push(0x02);
    frame.extend_from_slice(&0u32.to_be_bytes());
    frame
}

#[test]
fn cqlcodec_from_options_request() {
    let o = request::Message::Options;

    let mut buf = Vec::new();
    let codec = new_codec();
    codec.encode((270, o), &mut buf).unwrap();

    let expected_bytes = b"\x03\x00\x01\x0e\x05\x00\x00\x00\x00";

    assert_eq!(buf.len(), 9);
    assert_eq!(&buf[..], &expected_bytes[..]);
}

#[test]
fn decode_whole_supported_frame() {
    let mut codec = new_codec();
    let mut buf = supported_frame();

    let (id, resp) = codec.decode(&mut buf).unwrap().unwrap();
    assert_eq!(id, 1);
    assert_eq!(resp.header.op_code, OpCode::Supported);
    assert!(matches!(resp.message, response::Message::Supported(_)));
    assert!(buf.is_empty());
}

#[test]
fn feeding_byte_by_byte_yields_the_same_message() {
    let frame = supported_frame();

    // all at once
    let mut codec_whole = new_codec();
    let mut buf_whole = frame.clone();
    let whole = codec_whole.decode(&mut buf_whole).unwrap().unwrap();

    // one byte at a time
    let mut codec = new_codec();
    let mut buf: Vec<u8> = Vec::new();
    let mut seen: Option<(u16, Response)> = None;
    for (i, byte) in frame.iter().enumerate() {
        buf.push(*byte);
        match codec.decode(&mut buf).unwrap() {
            Some(got) => {
                assert_eq!(i, frame.len() - 1, "a frame must not appear early");
                seen = Some(got);
            },
            None => {
                assert!(i < frame.len() - 1, "the last byte must complete the frame");
            },
        }
    }
    let (id, resp) = seen.expect("the complete frame decodes");
    assert_eq!(id, whole.0);
    assert_eq!(resp.header, whole.1.header);
    match (&resp.message, &whole.1.message) {
        (response::Message::Supported(a), response::Message::Supported(b)) => {
            assert_eq!(a.cql_versions().unwrap(), b.cql_versions().unwrap());
        },
        other => panic!("expected SUPPORTED from both runs, got {:?}", other),
    }
}

#[test]
fn two_frames_in_one_buffer_decode_in_turn() {
    let mut buf = ready_frame(7);
    buf.extend_from_slice(&ready_frame(9));

    let mut codec = new_codec();
    let (id1, r1) = codec.decode(&mut buf).unwrap().unwrap();
    assert_eq!(id1, 7);
    assert!(matches!(r1.message, response::Message::Ready));

    let (id2, r2) = codec.decode(&mut buf).unwrap().unwrap();
    assert_eq!(id2, 9);
    assert!(matches!(r2.message, response::Message::Ready));
    assert!(buf.is_empty());
}

#[test]
fn request_direction_frames_are_refused() {
    // version byte 0x03: a request, which a client never receives
    let mut frame = ready_frame(0);
    frame[0] = 0x03;

    let mut codec = new_codec();
    assert!(matches!(
        codec.decode(&mut frame),
        Err(CodecError::WrongDirection)
    ));
}

#[test]
fn negative_stream_ids_pass_through_verbatim() {
    // stream id 0xFFFF is -1 as signed: the server's broadcast id
    let mut buf = ready_frame(0xFFFF);
    let mut codec = new_codec();
    let (id, _) = codec.decode(&mut buf).unwrap().unwrap();
    assert_eq!(id, 0xFFFF);
}

#[test]
fn dump_names_carry_index_opcode_and_label() {
    assert_eq!(
        frame_dump_name(7, &OpCode::Options),
        b"07-05_Options.bytes".to_vec()
    );
    assert_eq!(
        frame_dump_name(123, &OpCode::AuthResponse),
        b"123-0f_AuthResponse.bytes".to_vec()
    );
}
