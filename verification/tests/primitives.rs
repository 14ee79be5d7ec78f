//! Round trips and edge cases of the wire primitives.

use cql_client::primitives::decode::{self, DecodeError};
use cql_client::primitives::encode;
use cql_client::primitives::{
    CqlBytes, CqlConsistency, CqlLongString, CqlString, CqlStringList, CqlStringMap,
    CqlStringMultiMap, PrimitivesError,
};
use cql_client::wire::Needed;

fn cs(s: &str) -> CqlString {
    CqlString::try_from(s).unwrap()
}

#[test]
fn primitives_string() {
    let s = cs("Hello üß");
    let mut buf = Vec::new();
    encode::string(&s, &mut buf);

    let (pos, decoded) = decode::string(&buf, 0).unwrap();
    assert_eq!(pos, buf.len());
    assert_eq!(decoded, s);
}

#[test]
fn primitives_string_list() {
    let sl: Vec<_> = vec!["a", "b"]
        .iter()
        .map(|&s| CqlString::try_from(s))
        .map(Result::unwrap)
        .collect();
    let sl = CqlStringList::try_from(sl).unwrap();

    let mut buf = Vec::new();
    encode::string_list(&sl, &mut buf);
    let (pos, decoded) = decode::string_list(&buf, 0).unwrap();
    assert_eq!(pos, buf.len());
    assert_eq!(decoded, sl);
}

#[test]
fn primitives_string_multimap() {
    let sl1 = CqlStringList::try_from_iter(&["a", "b"]).unwrap();
    let sl2 = CqlStringList::try_from_iter(&["c", "d"]).unwrap();
    let smm =
        CqlStringMultiMap::try_from_iter(vec![(cs("a"), sl1), (cs("b"), sl2)]).unwrap();

    let mut buf = Vec::new();
    encode::string_multimap(&smm, &mut buf);

    let (pos, decoded) = decode::string_multimap(&buf, 0).unwrap();
    assert_eq!(pos, buf.len());
    assert_eq!(decoded, smm);
}

#[test]
fn types_short() {
    let expected: u16 = 342;
    let buf = encode::short(expected);

    let res = decode::short(&buf, 0);
    assert_eq!(res.unwrap().1, expected);
}

#[test]
fn types_string() {
    let s = cs("Hello üß");
    let mut buf = Vec::new();
    encode::string(&s, &mut buf);

    let res = decode::string(&buf, 0);
    assert_eq!(res.unwrap().1, s);
}

#[test]
fn types_string_list() {
    let sl: Vec<_> = vec!["a", "b"]
        .iter()
        .map(|&s| CqlString::try_from(s))
        .map(Result::unwrap)
        .collect();
    let sl = CqlStringList::try_from(sl).unwrap();

    let mut buf = Vec::new();
    encode::string_list(&sl, &mut buf);
    let res = decode::string_list(&buf, 0).unwrap().1;
    assert_eq!(res, sl);
}

#[test]
fn types_string_map() {
    let sm = CqlStringMap::try_from_iter(vec![
        (cs("a"), cs("av")),
        (cs("a"), cs("av")),
    ])
    .unwrap();
    assert_eq!(sm.len(), 1);

    let mut buf = Vec::new();
    encode::string_map(&sm, &mut buf);

    let res = decode::string_map(&buf, 0).unwrap().1;
    assert_eq!(res, sm);
}

#[test]
fn types_string_multimap() {
    let csl1 = CqlStringList::try_from_iter(&["a", "b"]).unwrap();
    let csl2 = CqlStringList::try_from_iter(&["c", "d"]).unwrap();
    let smm =
        CqlStringMultiMap::try_from_iter(vec![(cs("a"), csl1), (cs("b"), csl2)]).unwrap();

    let mut buf = Vec::new();
    encode::string_multimap(&smm, &mut buf);

    let res = decode::string_multimap(&buf, 0).unwrap().1;
    assert_eq!(res, smm);
}

#[test]
fn borrowed_short() {
    let expected: u16 = 342;
    let buf = encode::short(expected);

    let (pos, v) = decode::short(&buf, 0).unwrap();
    assert_eq!(pos, buf.len());
    assert_eq!(v, expected);
}

#[test]
fn borrowed_string() {
    let s = cs("Hello üß");
    let mut buf = Vec::new();
    encode::string(&s, &mut buf);

    let (pos, v) = decode::string(&buf, 0).unwrap();
    assert_eq!(pos, buf.len());
    assert_eq!(v, s);
}

#[test]
fn borrowed_string_list() {
    let sl: Vec<_> = vec!["a", "b"]
        .iter()
        .map(|&s| CqlString::try_from(s))
        .map(Result::unwrap)
        .collect();
    let sl = CqlStringList::try_from(sl).unwrap();

    let mut buf = Vec::new();
    encode::string_list(&sl, &mut buf);
    let (pos, v) = decode::string_list(&buf, 0).unwrap();
    assert_eq!(pos, buf.len());
    assert_eq!(v, sl);
}

#[test]
fn borrowed_string_map() {
    let sm = CqlStringMap::try_from_iter(vec![
        (cs("a"), cs("av")),
        (cs("a"), cs("av")),
    ])
    .unwrap();

    let mut buf = Vec::new();
    encode::string_map(&sm, &mut buf);
    let (pos, v) = decode::string_map(&buf, 0).unwrap();
    assert_eq!(pos, buf.len());
    assert_eq!(v, sm);
}

#[test]
fn borrowed_string_multimap() {
    let csl1 = CqlStringList::try_from_iter(&["a", "b"]).unwrap();
    let csl2 = CqlStringList::try_from_iter(&["c", "d"]).unwrap();
    let smm =
        CqlStringMultiMap::try_from_iter(vec![(cs("a"), csl1), (cs("b"), csl2)]).unwrap();

    let mut buf = Vec::new();
    encode::string_multimap(&smm, &mut buf);

    let (pos, v) = decode::string_multimap(&buf, 0).unwrap();
    assert_eq!(pos, buf.len());
    assert_eq!(v, smm);
}

#[test]
fn mod_short() {
    let expected: u16 = 342;
    let buf = encode::short(expected);

    let res = decode::short(&buf, 0);
    assert_eq!(res.unwrap().1, expected);
}

#[test]
fn int_round_trip() {
    let expected: i32 = -342;
    let buf = encode::int32(expected);

    let res = decode::int32(&buf, 0);
    assert_eq!(res.unwrap().1, expected);
}

#[test]
fn long_round_trip() {
    let expected: i64 = -342;
    let buf = encode::long(expected);

    let res = decode::long(&buf, 0);
    assert_eq!(res.unwrap().1, expected);
}

#[test]
fn mod_string() {
    let s = cs("Hello üß");
    let mut buf = Vec::new();
    encode::string(&s, &mut buf);

    let res = decode::string(&buf, 0);
    assert_eq!(res.unwrap().1, s);
}

#[test]
fn mod_string_list() {
    let sl: Vec<_> = vec!["a", "b"]
        .iter()
        .map(|&s| CqlString::try_from(s))
        .map(Result::unwrap)
        .collect();
    let sl = CqlStringList::try_from(sl).unwrap();

    let mut buf = Vec::new();
    encode::string_list(&sl, &mut buf);
    let res = decode::string_list(&buf, 0).unwrap().1;
    assert_eq!(res, sl);
}

#[test]
fn mod_string_map() {
    let sm = CqlStringMap::try_from_iter(vec![
        (cs("a"), cs("av")),
        (cs("a"), cs("av")),
    ])
    .unwrap();

    let mut buf = Vec::new();
    encode::string_map(&sm, &mut buf);

    let res = decode::string_map(&buf, 0).unwrap().1;
    assert_eq!(res, sm);
}

#[test]
fn mod_string_multimap() {
    let csl1 = CqlStringList::try_from_iter(&["a", "b"]).unwrap();
    let csl2 = CqlStringList::try_from_iter(&["c", "d"]).unwrap();
    let smm =
        CqlStringMultiMap::try_from_iter(vec![(cs("a"), csl1), (cs("b"), csl2)]).unwrap();

    let mut buf = Vec::new();
    encode::string_multimap(&smm, &mut buf);

    let res = decode::string_multimap(&buf, 0).unwrap().1;
    assert_eq!(res, smm);
}

#[test]
fn cql_string_string() {
    let s = cs("Hello üß");
    let mut buf = Vec::new();
    encode::string(&s, &mut buf);

    let res = decode::string(&buf, 0);
    assert_eq!(res.unwrap().1, s);
}

#[test]
fn cql_long_string_string() {
    let s = CqlLongString::try_from("Hello üß in a long String").unwrap();
    let mut buf = Vec::new();
    encode::long_string(&s, &mut buf);

    let res = decode::long_string(&buf, 0);
    assert_eq!(res.unwrap().1, s);
}

#[test]
fn bytes() {
    let s = CqlBytes::try_from((0u8..10).collect::<Vec<_>>()).unwrap();
    let mut buf = Vec::new();
    encode::bytes(&s, &mut buf);

    let res = decode::bytes(&buf, 0);
    assert_eq!(res.unwrap().1, s);
}

#[test]
fn null_value() {
    let s = CqlBytes::null_value();
    let mut buf = Vec::new();
    encode::bytes(&s, &mut buf);

    let res = decode::bytes(&buf, 0);
    assert_eq!(res.unwrap().1, s);
}

#[test]
fn consistency() {
    let c = CqlConsistency::Any;
    let buf = encode::consistency(&c);

    let res = decode::consistency(&buf, 0);
    assert_eq!(res.unwrap().1, c);
}

#[test]
fn decode_short_incomplete() {
    assert_eq!(
        decode::short(&[0], 0).unwrap_err(),
        DecodeError::Incomplete(Needed::Size(2))
    );
}

#[test]
fn decode_short_complete() {
    let expected: u16 = 16723;
    let mut b = encode::short(expected);
    b.extend_from_slice(&[2, 3, 4]);
    let (pos, res) = decode::short(&b, 0).unwrap();
    assert_eq!(res, expected);
    assert_eq!(pos, 2);
}

#[test]
fn int_incomplete() {
    assert_eq!(
        decode::int32(&[0], 0).unwrap_err(),
        DecodeError::Incomplete(Needed::Size(4))
    );
}

#[test]
fn int_complete() {
    let expected: i32 = -16723;
    let mut b = encode::int32(expected);
    b.push(4);
    let (pos, res) = decode::int32(&b, 0).unwrap();
    assert_eq!(res, expected);
    assert_eq!(pos, 4);
}

#[test]
fn long_incomplete() {
    assert_eq!(
        decode::long(&[0], 0).unwrap_err(),
        DecodeError::Incomplete(Needed::Size(8))
    );
}

#[test]
fn long_complete() {
    let expected: i64 = -16723;
    let mut b = encode::long(expected);
    b.push(8);
    let (pos, res) = decode::long(&b, 0).unwrap();
    assert_eq!(res, expected);
    assert_eq!(pos, 8);
}

#[test]
fn string_complete() {
    let s = cs("hello");
    let mut b = Vec::new();
    encode::string(&s, &mut b);
    b.extend(0..2);
    let (pos, decoded) = decode::string(&b, 0).unwrap();
    assert_eq!(b.len() - pos, 2);
    assert_eq!(decoded, s);
}

#[test]
fn string_incomplete() {
    let s = cs("hello");
    let mut b: Vec<u8> = Vec::new();
    encode::string(&s, &mut b);

    assert_eq!(
        decode::string(&b[..1], 0).unwrap_err(),
        DecodeError::Incomplete(Needed::Size(2))
    );
    assert_eq!(
        decode::string(&b[..3], 0).unwrap_err(),
        DecodeError::Incomplete(Needed::Size(5))
    );
}

#[test]
fn checked_constructors_enforce_maximums() {
    let at_max = "x".repeat(0xFFFF);
    assert!(CqlString::try_from(&at_max).is_ok());

    let over_max = "x".repeat(0x1_0000);
    assert_eq!(
        CqlString::try_from(&over_max).unwrap_err(),
        PrimitivesError::MaximumLengthExceeded(0x1_0000)
    );
}

#[test]
fn invalid_utf8_is_a_parse_error() {
    // a [string] of length 2 whose payload is not UTF-8
    let b = [0x00u8, 0x02, 0xff, 0xfe];
    assert!(matches!(
        decode::string(&b, 0).unwrap_err(),
        DecodeError::ParseError(_)
    ));
}

#[test]
fn bytes_negative_length_is_null_only_for_minus_one() {
    // length -1: the null value
    let null = [0xffu8, 0xff, 0xff, 0xff];
    assert_eq!(decode::bytes(&null, 0).unwrap().1, CqlBytes::null_value());

    // length -2: an invalid encoding
    let bad = [0xffu8, 0xff, 0xff, 0xfe];
    assert!(matches!(
        decode::bytes(&bad, 0).unwrap_err(),
        DecodeError::ParseError(_)
    ));
}

#[test]
fn unknown_consistency_code_is_refused() {
    let b = encode::short(0x000B);
    assert!(decode::consistency(&b, 0).is_err());
}

#[test]
fn primitives_short() {
    let expected: u16 = 342;
    let buf = encode::short(expected);

    let (pos, v) = decode::short(&buf, 0).unwrap();
    assert_eq!(pos, buf.len());
    assert_eq!(v, expected);
}
