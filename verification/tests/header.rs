//! Header decoding and encoding, flag bits, and the header errors.

use cql_client::header::{Direction, Header, HeaderError, OpCode, ProtocolVersion};

#[test]
fn complete_decode() {
    let bytes = b"\x03\x00\x01\x01\x05\x00\x00\x01\x05";
    let h = Header::try_from(&bytes[..]).unwrap();

    assert_eq!(h.version, ProtocolVersion::Version3(Direction::Request));
    assert_eq!(h.is_compressed(), false);
    assert_eq!(h.is_traced(), false);
    assert_eq!(h.stream_id, 257);
    assert_eq!(h.op_code, OpCode::Options);
    assert_eq!(h.length, 261);
}

#[test]
fn complete_encode() {
    let h = Header {
        version: ProtocolVersion::Version3(Direction::Request),
        flags: 0x00,
        stream_id: 257,
        op_code: OpCode::Options,
        length: 261,
    };
    let expected_bytes = b"\x03\x00\x01\x01\x05\x00\x00\x01\x05";
    let buf = h.encode().unwrap();

    assert_eq!(&buf[..], &expected_bytes[..]);
}

#[test]
fn version3_response() {
    let bytes = b"\x83\x00\x01\x01\x05\x00\x00\x01\x05";
    let h = Header::try_from(&bytes[..]).unwrap();

    assert_eq!(h.version, ProtocolVersion::Version3(Direction::Response));
}

#[test]
fn invalid_op_code() {
    let bytes = b"\x03\x00\x01\x01\x04\x00\x00\x00\x00";
    let res = Header::try_from(&bytes[..]);

    assert_eq!(res.unwrap_err(), HeaderError::InvalidOpCode(0x04));
}

#[test]
fn invalid_length_of_data() {
    let bytes = b"\x03\x00\x01\x01\x05\x00\x00\x00";
    let res = Header::try_from(&bytes[..]);

    assert_eq!(res.unwrap_err(), HeaderError::InvalidDataLength(8));
}

#[test]
fn flags_compressed() {
    let bytes = b"\x03\x01\x00\x00\x05\x00\x00\x00\x00";
    let h = Header::try_from(&bytes[..]).unwrap();

    assert_eq!(h.is_compressed(), true);
    assert_eq!(h.is_traced(), false);
}

#[test]
fn flags_traced() {
    let bytes = b"\x03\x02\x00\x00\x05\x00\x00\x00\x00";
    let h = Header::try_from(&bytes[..]).unwrap();

    assert_eq!(h.is_compressed(), false);
    assert_eq!(h.is_traced(), true);
}

#[test]
fn unsupported_version() {
    let bytes = b"\x04\x02\x00\x00\x05\x00\x00\x00\x00";
    let res = Header::try_from(&bytes[..]);

    assert_eq!(res.unwrap_err(), HeaderError::UnsupportedVersion(0x04));
}

#[test]
fn test_empty_frame() {
    let bytes = b"\x03\x00\x01\x01\x05\x00\x00\x01\x05";
    let h = Header::try_from(&bytes[..]).unwrap();

    assert_eq!(h.version, ProtocolVersion::Version3(Direction::Request));
    assert_eq!(h.is_compressed(), false);
    assert_eq!(h.is_traced(), false);
    assert_eq!(h.stream_id, 257);
    assert_eq!(h.op_code, OpCode::Options);
    assert_eq!(h.length, 261);
}

#[test]
fn test_invalid_op_code() {
    let bytes = b"\x03\x00\x01\x01\x04\x00\x00\x00\x00";
    let res = Header::try_from(&bytes[..]);

    assert_eq!(res.unwrap_err(), HeaderError::InvalidOpCode(0x04));
}

#[test]
fn test_invalid_length_of_data() {
    let bytes = b"\x03\x00\x01\x01\x05\x00\x00\x00";
    let res = Header::try_from(&bytes[..]);

    assert_eq!(res.unwrap_err(), HeaderError::InvalidDataLength(8));
}

#[test]
fn test_empty_frame_compressed() {
    let bytes = b"\x03\x01\x00\x00\x05\x00\x00\x00\x00";
    let h = Header::try_from(&bytes[..]).unwrap();

    assert_eq!(h.is_compressed(), true);
    assert_eq!(h.is_traced(), false);
}

#[test]
fn test_empty_frame_traced() {
    let bytes = b"\x03\x02\x00\x00\x05\x00\x00\x00\x00";
    let h = Header::try_from(&bytes[..]).unwrap();

    assert_eq!(h.is_compressed(), false);
    assert_eq!(h.is_traced(), true);
}

#[test]
fn test_unsupported_version() {
    let bytes = b"\x04\x02\x00\x00\x05\x00\x00\x00\x00";
    let res = Header::try_from(&bytes[..]);

    assert_eq!(res.unwrap_err(), HeaderError::UnsupportedVersion(0x04));
}

#[test]
fn header_round_trip_across_opcodes() {
    let opcodes = [
        OpCode::Error,
        OpCode::Startup,
        OpCode::Ready,
        OpCode::Authenticate,
        OpCode::Options,
        OpCode::Supported,
        OpCode::Query,
        OpCode::Result,
        OpCode::Prepare,
        OpCode::Execute,
        OpCode::Register,
        OpCode::Event,
        OpCode::Batch,
        OpCode::AuthChallenge,
        OpCode::AuthResponse,
        OpCode::AuthSuccess,
    ];
    for direction in [Direction::Request, Direction::Response] {
        for op in opcodes {
            for flags in [0u8, 1, 2, 3, 0xFF] {
                let h = Header {
                    version: ProtocolVersion::Version3(direction),
                    flags,
                    stream_id: 0x7FFF,
                    op_code: op,
                    length: 0xDEADBEEF,
                };
                let bytes = h.encode().unwrap();
                assert_eq!(bytes.len(), 9);
                assert_eq!(Header::try_from(&bytes).unwrap(), h);
            }
        }
    }
}
