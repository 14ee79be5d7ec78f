//! The offset-recording decoders.

use cql_client::indexed::{self, CqlString, CqlStringList};
use cql_client::primitives::decode::DecodeError;
use cql_client::primitives::encode;
use cql_client::wire::Needed;

#[test]
fn decode_indexed_short_incomplete() {
    assert_eq!(
        indexed::short(&[0]),
        Err(DecodeError::Incomplete(Needed::Size(2)))
    );
}

#[test]
fn decode_indexed_short_complete() {
    let expected: u16 = 16723;
    let mut b = encode::short(expected);
    b.extend_from_slice(&[2, 3, 4]);
    assert_eq!(indexed::short(&b), Ok((&b[2..], expected)));
}

#[test]
fn string_incomplete_and_complete() {
    let s = cql_client::primitives::CqlString::try_from("hello").unwrap();
    let ofs = 5usize;
    let mut b: Vec<u8> = (0u8..ofs as u8).collect();
    encode::string(&s, &mut b);
    b.extend(0..2);

    assert_eq!(
        indexed::string(ofs, &b[ofs..ofs + 1]),
        Err(DecodeError::Incomplete(Needed::Size(2)))
    );
    assert_eq!(
        indexed::string(ofs, &b[ofs..ofs + 4]),
        Err(DecodeError::Incomplete(Needed::Size(5)))
    );
    assert_eq!(
        indexed::string(ofs, &b[ofs..]),
        Ok((&b[ofs + 2 + 5..], CqlString { at: ofs + 2, len: 5 }))
    );
}

#[test]
fn string_list_incomplete_and_complete() {
    let v = cql_client::primitives::CqlStringList::try_from_iter(&["hello", "world"]).unwrap();
    let ofs = 5usize;
    let mut b: Vec<u8> = (0u8..ofs as u8).collect();
    encode::string_list(&v, &mut b);
    let sls = b.len() - ofs;
    b.extend(1..2);

    assert_eq!(
        indexed::string_list(ofs, &b[ofs..ofs + 1]),
        Err(DecodeError::Incomplete(Needed::Size(2)))
    );
    assert_eq!(
        indexed::string_list(ofs, &b[ofs..ofs + 2]),
        Err(DecodeError::Incomplete(Needed::Unknown))
    );
    assert_eq!(
        indexed::string_list(ofs, &b[ofs..]),
        Ok((&b[ofs + sls..], CqlStringList { at: ofs + 2, len: 2 }))
    );
}
