//! The typed response messages — SUPPORTED, READY, AUTHENTICATE,
//! AUTH_SUCCESS, ERROR, and the RESULT header — and their decoding from a
//! frame body.

use vstd::prelude::*;

verus! {

use vstd::string::StringSliceAdditionalSpecFns;
use crate::wire::{Decoded, Needed, Fault, dec_int, dec_string, dec_bytes, dec_string_multimap};
use crate::primitives::{
    CqlString, CqlBytes, CqlStringList, CqlStringMultiMap, map_get,
};
use crate::primitives::decode::{self, DecodeError, ParseResult};
use crate::header::{OpCode, ProtocolVersion};

/// The error of decoding a response body.
#[derive(Debug, PartialEq, Eq, Structural, Clone, Copy)]
pub enum ResponseError {
    /// The body could not be decoded.
    Decode(DecodeError),
    /// The opcode does not name a response this client handles.
    UnexpectedOpcode(OpCode),
}

/// A response message, selected by the opcode of its frame.
#[derive(Debug)]
pub enum Message {
    Supported(SupportedMessage),
    Ready,
    Authenticate(AuthenticateMessage),
    AuthSuccess(AuthSuccessMessage),
    Error(ErrorMessage),
    Result(ResultHeader),
}

/// The body of a SUPPORTED response: the server's options, a multimap
/// from option name to the supported values.
#[derive(Debug)]
pub struct SupportedMessage(pub CqlStringMultiMap);

/// The body of an AUTHENTICATE response: the class name of the
/// authenticator the server demands.
#[derive(Debug)]
pub struct AuthenticateMessage {
    pub authenticator: CqlString,
}

/// The body of an AUTH_SUCCESS response: an opaque payload, possibly null.
#[derive(Debug)]
pub struct AuthSuccessMessage {
    pub payload: CqlBytes,
}

/// The body of an ERROR response: a code and a message text.
#[derive(Debug)]
pub struct ErrorMessage {
    pub code: i32,
    pub text: CqlString,
}

// ---------------------------------------------------------------------------
// Simple body decoders
// ---------------------------------------------------------------------------

impl SupportedMessage {
    /// Decodes a SUPPORTED body: one string multimap.
    pub fn decode(_v: ProtocolVersion, buf: &[u8]) -> (r: Result<SupportedMessage, DecodeError>)
        ensures
            ({
                let d = dec_string_multimap(buf@);
                match d {
                    Decoded::Got(ps, k) => r matches Ok(m) && m.0@ == ps,
                    Decoded::Missing(nd) => r == Err::<SupportedMessage, _>(
                        DecodeError::Incomplete(nd),
                    ),
                    Decoded::Bad(f) => r == Err::<SupportedMessage, _>(DecodeError::ParseError(f)),
                }
            }),
    {
        proof {
            assert(buf@.skip(0) =~= buf@);
        }
        match decode::string_multimap(buf, 0) {
            Ok((_, m)) => Ok(SupportedMessage(m)),
            Err(e) => Err(e),
        }
    }

    /// The `CQL_VERSION` entry of the options, if the server sent one.
    pub fn cql_versions(&self) -> (r: Option<&CqlStringList>)
        ensures
            match r {
                Some(l) => map_get(self.0@, "CQL_VERSION".spec_bytes()) == Some(l@),
                None => map_get(self.0@, "CQL_VERSION".spec_bytes()) is None,
            },
    {
        proof {
            reveal_strlit("CQL_VERSION");
            assert(vstd::utf8::is_ascii_chars(("CQL_VERSION")@));
            vstd::utf8::is_ascii_chars_encode_utf8(("CQL_VERSION")@);
        }
        let key = CqlString::unchecked_from("CQL_VERSION");
        self.0.get(&key)
    }

    /// The `COMPRESSION` entry of the options, if the server sent one.
    pub fn compression(&self) -> (r: Option<&CqlStringList>)
        ensures
            match r {
                Some(l) => map_get(self.0@, "COMPRESSION".spec_bytes()) == Some(l@),
                None => map_get(self.0@, "COMPRESSION".spec_bytes()) is None,
            },
    {
        proof {
            reveal_strlit("COMPRESSION");
            assert(vstd::utf8::is_ascii_chars(("COMPRESSION")@));
            vstd::utf8::is_ascii_chars_encode_utf8(("COMPRESSION")@);
        }
        let key = CqlString::unchecked_from("COMPRESSION");
        self.0.get(&key)
    }

    /// The greatest server-offered CQL version that parses as a semantic
    /// version, compared by (major, minor, patch); on a tie the later
    /// entry wins.
    pub fn latest_cql_version(&self) -> (r: Option<&CqlString>)
        ensures
            ({
                match map_get(self.0@, "CQL_VERSION".spec_bytes()) {
                    None => r is None,
                    Some(vs) => match best_version(vs) {
                        None => r is None,
                        Some(bi) => r matches Some(cs) && cs@ == vs[bi],
                    },
                }
            }),
    {
        let versions = match self.cql_versions() {
            Some(l) => l,
            None => {
                return None;
            },
        };
        let items = versions.iter();
        let ghost vs = versions@;
        let n = items.len();
        let mut best: Option<usize> = None;
        let mut best_triple: (u64, u64, u64) = (0, 0, 0);
        let mut i: usize = 0;
        while i < n
            invariant
                n == items@.len(),
                n == vs.len(),
                0 <= i <= n,
                items@.map_values(|c: CqlString| c@) == vs,
                best_version(vs.take(i as int)) == match best {
                    Some(b) => Some(b as int),
                    None => None,
                },
                match best {
                    Some(b) => b < i && parsed_semver(vs[b as int]) == Some(best_triple),
                    None => true,
                },
            decreases n - i,
        {
            proof {
                assert(vs.take(i + 1).drop_last() =~= vs.take(i as int));
                assert(vs.take(i + 1).last() == vs[i as int]);
            }
            match parse_semver(items[i].as_bytes()) {
                Some(t) => {
                    match best {
                        Some(_) => {
                            if triple_ge(t, best_triple) {
                                best = Some(i);
                                best_triple = t;
                            }
                        },
                        None => {
                            best = Some(i);
                            best_triple = t;
                        },
                    }
                },
                None => {},
            }
            i += 1;
        }
        proof {
            assert(vs.take(n as int) =~= vs);
        }
        match best {
            Some(b) => Some(&items[b]),
            None => None,
        }
    }
}

/// Lexicographic order on version triples: `a` is at least `b`.
pub open spec fn spec_triple_ge(a: (u64, u64, u64), b: (u64, u64, u64)) -> bool {
    a.0 > b.0 || (a.0 == b.0 && (a.1 > b.1 || (a.1 == b.1 && a.2 >= b.2)))
}

/// Compares version triples lexicographically.
pub fn triple_ge(a: (u64, u64, u64), b: (u64, u64, u64)) -> (r: bool)
    ensures
        r == spec_triple_ge(a, b),
{
    a.0 > b.0 || (a.0 == b.0 && (a.1 > b.1 || (a.1 == b.1 && a.2 >= b.2)))
}

/// What `semver::Version::parse` makes of a byte string: the version's
/// (major, minor, patch) triple, or nothing when the text does not parse.
/// The result depends on the bytes alone.
pub uninterp spec fn parsed_semver(b: Seq<u8>) -> Option<(u64, u64, u64)>;

/// Relies on `semver::Version::parse`: parses a semantic version from the
/// text and reports its numeric triple; the result is a function of the
/// bytes alone.
#[verifier::external_body]
fn parse_semver(b: &[u8]) -> (r: Option<(u64, u64, u64)>)
    ensures
        r == parsed_semver(b@),
{
    match core::str::from_utf8(b) {
        Ok(t) => semver::Version::parse(t).ok().map(|v| (v.major, v.minor, v.patch)),
        Err(_) => None,
    }
}

/// The index of the best-parsing version in the sequence: the entry with
/// the greatest (major, minor, patch) triple among those that parse, the
/// last such entry on ties; nothing when none parses.
pub open spec fn best_version(vs: Seq<Seq<u8>>) -> Option<int>
    decreases vs.len(),
{
    if vs.len() == 0 {
        None
    } else {
        let prev = best_version(vs.drop_last());
        match parsed_semver(vs.last()) {
            None => prev,
            Some(t) => match prev {
                None => Some(vs.len() - 1),
                Some(bi) => {
                    if spec_triple_ge(t, parsed_semver(vs[bi])->0) {
                        Some(vs.len() - 1)
                    } else {
                        prev
                    }
                },
            },
        }
    }
}

impl AuthenticateMessage {
    /// Decodes an AUTHENTICATE body: one [string], the authenticator's
    /// class name.
    pub fn decode(_v: ProtocolVersion, buf: &[u8]) -> (r: Result<AuthenticateMessage, DecodeError>)
        ensures
            ({
                let d = dec_string(buf@);
                match d {
                    Decoded::Got(s, k) => r matches Ok(m) && m.authenticator@ == s,
                    Decoded::Missing(nd) => r == Err::<AuthenticateMessage, _>(
                        DecodeError::Incomplete(nd),
                    ),
                    Decoded::Bad(f) => r == Err::<AuthenticateMessage, _>(
                        DecodeError::ParseError(f),
                    ),
                }
            }),
    {
        proof {
            assert(buf@.skip(0) =~= buf@);
        }
        match decode::string(buf, 0) {
            Ok((_, s)) => Ok(AuthenticateMessage { authenticator: s }),
            Err(e) => Err(e),
        }
    }
}

impl AuthSuccessMessage {
    /// Decodes an AUTH_SUCCESS body: one [bytes] value, possibly null.
    pub fn decode(_v: ProtocolVersion, buf: &[u8]) -> (r: Result<AuthSuccessMessage, DecodeError>)
        ensures
            ({
                let d = dec_bytes(buf@);
                match d {
                    Decoded::Got(s, k) => r matches Ok(m) && m.payload@ == s,
                    Decoded::Missing(nd) => r == Err::<AuthSuccessMessage, _>(
                        DecodeError::Incomplete(nd),
                    ),
                    Decoded::Bad(f) => r == Err::<AuthSuccessMessage, _>(
                        DecodeError::ParseError(f),
                    ),
                }
            }),
    {
        proof {
            assert(buf@.skip(0) =~= buf@);
        }
        match decode::bytes(buf, 0) {
            Ok((_, b)) => Ok(AuthSuccessMessage { payload: b }),
            Err(e) => Err(e),
        }
    }
}

impl ErrorMessage {
    /// Decodes an ERROR body: an [int] code, then a [string] text.
    pub fn decode(_v: ProtocolVersion, buf: &[u8]) -> (r: Result<ErrorMessage, DecodeError>)
        ensures
            ({
                match dec_int(buf@) {
                    Decoded::Got(code, k) => match dec_string(buf@.skip(4)) {
                        Decoded::Got(s, _) => r matches Ok(m) && m.code == code && m.text@ == s,
                        Decoded::Missing(nd) => r == Err::<ErrorMessage, _>(
                            DecodeError::Incomplete(nd),
                        ),
                        Decoded::Bad(f) => r == Err::<ErrorMessage, _>(DecodeError::ParseError(f)),
                    },
                    Decoded::Missing(nd) => r == Err::<ErrorMessage, _>(
                        DecodeError::Incomplete(nd),
                    ),
                    Decoded::Bad(f) => r == Err::<ErrorMessage, _>(DecodeError::ParseError(f)),
                }
            }),
    {
        proof {
            assert(buf@.skip(0) =~= buf@);
        }
        let (p, code) = match decode::int32(buf, 0) {
            Ok(t) => t,
            Err(e) => {
                return Err(e);
            },
        };
        match decode::string(buf, p) {
            Ok((_, s)) => Ok(ErrorMessage { code, text: s }),
            Err(e) => Err(e),
        }
    }
}

// ---------------------------------------------------------------------------
// The RESULT header
// ---------------------------------------------------------------------------

/// The header of a RESULT response: a 4-byte discriminant selects the
/// variant.  Row payloads are consumed separately, as a stream.
#[derive(Debug)]
pub enum ResultHeader {
    Void,
    SetKeyspace(CqlString),
    SchemaChange(SchemaChangePayload),
    Rows(RowsMetadata),
}

/// The payload of a schema-change RESULT: three strings.
#[derive(Debug)]
pub struct SchemaChangePayload {
    pub change_type: CqlString,
    pub target: CqlString,
    pub options: CqlString,
}

/// The metadata ahead of a rows RESULT.
#[derive(Debug)]
pub struct RowsMetadata {
    pub global_tables_spec: Option<TableSpec>,
    pub paging_state: Option<CqlBytes>,
    pub no_metadata: bool,
    pub columns_count: i32,
}

/// The table a rows RESULT describes, when one spec covers all columns.
#[derive(Debug)]
pub struct TableSpec {
    pub keyspace: CqlString,
    pub table: CqlString,
}

/// The fields of decoded rows metadata, as the specification sees them.
pub struct RowsShape {
    pub global: Option<(Seq<u8>, Seq<u8>)>,
    pub paging: Option<Option<Seq<u8>>>,
    pub no_metadata: bool,
    pub columns_count: i32,
}

/// Decodes the optional paging state: present exactly when flag 0x0002 is
/// set.
pub open spec fn dec_rows_paging(b: Seq<u8>, flags: i32) -> Decoded<Option<Option<Seq<u8>>>> {
    if flags & 0x0002 == 0x0002 {
        match dec_bytes(b) {
            Decoded::Got(ps, k) => Decoded::Got(Some(ps), k),
            Decoded::Missing(nd) => Decoded::Missing(nd),
            Decoded::Bad(f) => Decoded::Bad(f),
        }
    } else {
        Decoded::Got(None, 0)
    }
}

/// Decodes the optional global table spec: two strings, present exactly
/// when flag 0x0001 is set.
pub open spec fn dec_rows_global(b: Seq<u8>, flags: i32) -> Decoded<Option<(Seq<u8>, Seq<u8>)>> {
    if flags & 0x0001 == 0x0001 {
        match dec_string(b) {
            Decoded::Got(ks, k1) => match dec_string(b.skip(k1)) {
                Decoded::Got(tb, k2) => Decoded::Got(Some((ks, tb)), k1 + k2),
                Decoded::Missing(nd) => Decoded::Missing(nd),
                Decoded::Bad(f) => Decoded::Bad(f),
            },
            Decoded::Missing(nd) => Decoded::Missing(nd),
            Decoded::Bad(f) => Decoded::Bad(f),
        }
    } else {
        Decoded::Got(None, 0)
    }
}

/// Decodes rows metadata: a flags [int], a columns count [int], then the
/// paging state (flag 0x0002) and the global table spec (flag 0x0001);
/// flag 0x0004 says no per-column metadata follows.
pub open spec fn dec_rows_metadata(b: Seq<u8>) -> Decoded<RowsShape> {
    match dec_int(b) {
        Decoded::Got(flags, _) => match dec_int(b.skip(4)) {
            Decoded::Got(cols, _) => match dec_rows_paging(b.skip(8), flags) {
                Decoded::Got(pg, k3) => match dec_rows_global(b.skip(8 + k3), flags) {
                    Decoded::Got(gl, k4) => Decoded::Got(
                        RowsShape {
                            global: gl,
                            paging: pg,
                            no_metadata: flags & 0x0004 == 0x0004,
                            columns_count: cols,
                        },
                        8 + k3 + k4,
                    ),
                    Decoded::Missing(nd) => Decoded::Missing(nd),
                    Decoded::Bad(f) => Decoded::Bad(f),
                },
                Decoded::Missing(nd) => Decoded::Missing(nd),
                Decoded::Bad(f) => Decoded::Bad(f),
            },
            Decoded::Missing(nd) => Decoded::Missing(nd),
            Decoded::Bad(f) => Decoded::Bad(f),
        },
        Decoded::Missing(nd) => Decoded::Missing(nd),
        Decoded::Bad(f) => Decoded::Bad(f),
    }
}

/// Decodes a schema change payload: three strings.
pub open spec fn dec_schema_change(b: Seq<u8>) -> Decoded<(Seq<u8>, Seq<u8>, Seq<u8>)> {
    match dec_string(b) {
        Decoded::Got(ct, k1) => match dec_string(b.skip(k1)) {
            Decoded::Got(tg, k2) => match dec_string(b.skip(k1 + k2)) {
                Decoded::Got(op, k3) => Decoded::Got((ct, tg, op), k1 + k2 + k3),
                Decoded::Missing(nd) => Decoded::Missing(nd),
                Decoded::Bad(f) => Decoded::Bad(f),
            },
            Decoded::Missing(nd) => Decoded::Missing(nd),
            Decoded::Bad(f) => Decoded::Bad(f),
        },
        Decoded::Missing(nd) => Decoded::Missing(nd),
        Decoded::Bad(f) => Decoded::Bad(f),
    }
}

/// What a rows metadata value looks like through its views.
pub open spec fn rows_matches(m: RowsMetadata, shape: RowsShape) -> bool {
    &&& match (m.global_tables_spec, shape.global) {
        (Some(ts), Some(p)) => ts.keyspace@ == p.0 && ts.table@ == p.1,
        (None, None) => true,
        _ => false,
    }
    &&& match (m.paging_state, shape.paging) {
        (Some(cb), Some(p)) => cb@ == p,
        (None, None) => true,
        _ => false,
    }
    &&& m.no_metadata == shape.no_metadata
    &&& m.columns_count == shape.columns_count
}

impl ResultHeader {
    /// Decodes rows metadata from `pos`.
    fn decode_rows_metadata(buf: &[u8], pos: usize) -> (r: ParseResult<RowsMetadata>)
        requires
            pos <= buf@.len(),
        ensures
            ({
                let d = dec_rows_metadata(buf@.skip(pos as int));
                match d {
                    Decoded::Got(shape, k) => r matches Ok((np, m)) && np == pos + k
                        && rows_matches(m, shape),
                    Decoded::Missing(nd) => r == Err::<(usize, RowsMetadata), _>(
                        DecodeError::Incomplete(nd),
                    ),
                    Decoded::Bad(f) => r == Err::<(usize, RowsMetadata), _>(
                        DecodeError::ParseError(f),
                    ),
                }
            }),
    {
        let (p1, flags) = match decode::int32(buf, pos) {
            Ok(t) => t,
            Err(e) => {
                return Err(e);
            },
        };
        proof {
            assert(buf@.skip(pos as int).skip(4) =~= buf@.skip(p1 as int));
        }
        let (p2, cols) = match decode::int32(buf, p1) {
            Ok(t) => t,
            Err(e) => {
                return Err(e);
            },
        };
        proof {
            assert(buf@.skip(pos as int).skip(8) =~= buf@.skip(p2 as int));
        }
        let (p3, paging) = if flags & 0x0002 == 0x0002 {
            match decode::bytes(buf, p2) {
                Ok((np, ps)) => (np, Some(ps)),
                Err(e) => {
                    return Err(e);
                },
            }
        } else {
            (p2, None)
        };
        proof {
            assert(buf@.skip(pos as int).skip(8 + (p3 - p2)) =~= buf@.skip(p3 as int));
        }
        let (p4, global) = if flags & 0x0001 == 0x0001 {
            let (q1, ks) = match decode::string(buf, p3) {
                Ok(t) => t,
                Err(e) => {
                    return Err(e);
                },
            };
            proof {
                assert(buf@.skip(p3 as int).skip(q1 - p3) =~= buf@.skip(q1 as int));
            }
            let (q2, tb) = match decode::string(buf, q1) {
                Ok(t) => t,
                Err(e) => {
                    return Err(e);
                },
            };
            (q2, Some(TableSpec { keyspace: ks, table: tb }))
        } else {
            (p3, None)
        };
        Ok(
            (
                p4,
                RowsMetadata {
                    global_tables_spec: global,
                    paging_state: paging,
                    no_metadata: flags & 0x0004 == 0x0004,
                    columns_count: cols,
                },
            ),
        )
    }

    /// Decodes a schema change payload from `pos`.
    fn decode_schema_change(buf: &[u8], pos: usize) -> (r: ParseResult<SchemaChangePayload>)
        requires
            pos <= buf@.len(),
        ensures
            ({
                let d = dec_schema_change(buf@.skip(pos as int));
                match d {
                    Decoded::Got(t, k) => r matches Ok((np, p)) && np == pos + k
                        && p.change_type@ == t.0 && p.target@ == t.1 && p.options@ == t.2,
                    Decoded::Missing(nd) => r == Err::<(usize, SchemaChangePayload), _>(
                        DecodeError::Incomplete(nd),
                    ),
                    Decoded::Bad(f) => r == Err::<(usize, SchemaChangePayload), _>(
                        DecodeError::ParseError(f),
                    ),
                }
            }),
    {
        let (p1, ct) = match decode::string(buf, pos) {
            Ok(t) => t,
            Err(e) => {
                return Err(e);
            },
        };
        proof {
            assert(buf@.skip(pos as int).skip(p1 - pos) =~= buf@.skip(p1 as int));
        }
        let (p2, tg) = match decode::string(buf, p1) {
            Ok(t) => t,
            Err(e) => {
                return Err(e);
            },
        };
        proof {
            assert(buf@.skip(pos as int).skip((p1 - pos) + (p2 - p1)) =~= buf@.skip(p2 as int));
        }
        let (p3, op) = match decode::string(buf, p2) {
            Ok(t) => t,
            Err(e) => {
                return Err(e);
            },
        };
        Ok((p3, SchemaChangePayload { change_type: ct, target: tg, options: op }))
    }

    /// Decodes a RESULT header from the start of the body.  Yields
    /// `Ok(None)` — "not yet" — while the bytes present do not reach the
    /// chosen variant's end; unknown discriminants also yield `Ok(None)`,
    /// as they may belong to a variant this client does not consume.
    pub fn decode(_v: ProtocolVersion, buf: &[u8]) -> (r: Result<
        Option<ResultHeader>,
        DecodeError,
    >)
        ensures
            ({
                let b = buf@;
                if b.len() < 4 {
                    r == Ok::<Option<ResultHeader>, DecodeError>(None)
                } else {
                    match dec_int(b) {
                        Decoded::Got(t, _) => {
                            if t == 0x0001 {
                                r matches Ok(Some(h)) && h is Void
                            } else if t == 0x0002 {
                                match dec_rows_metadata(b.skip(4)) {
                                    Decoded::Got(shape, _) => r matches Ok(Some(h))
                                        && h matches ResultHeader::Rows(m) && rows_matches(
                                        m,
                                        shape,
                                    ),
                                    Decoded::Missing(_) => r == Ok::<
                                        Option<ResultHeader>,
                                        DecodeError,
                                    >(None),
                                    Decoded::Bad(f) => r == Err::<Option<ResultHeader>, _>(
                                        DecodeError::ParseError(f),
                                    ),
                                }
                            } else if t == 0x0003 {
                                match dec_string(b.skip(4)) {
                                    Decoded::Got(s, _) => r matches Ok(Some(h))
                                        && h matches ResultHeader::SetKeyspace(cs) && cs@ == s,
                                    Decoded::Missing(_) => r == Ok::<
                                        Option<ResultHeader>,
                                        DecodeError,
                                    >(None),
                                    Decoded::Bad(f) => r == Err::<Option<ResultHeader>, _>(
                                        DecodeError::ParseError(f),
                                    ),
                                }
                            } else if t == 0x0005 {
                                match dec_schema_change(b.skip(4)) {
                                    Decoded::Got(sc, _) => r matches Ok(Some(h))
                                        && h matches ResultHeader::SchemaChange(p)
                                        && p.change_type@ == sc.0 && p.target@ == sc.1
                                        && p.options@ == sc.2,
                                    Decoded::Missing(_) => r == Ok::<
                                        Option<ResultHeader>,
                                        DecodeError,
                                    >(None),
                                    Decoded::Bad(f) => r == Err::<Option<ResultHeader>, _>(
                                        DecodeError::ParseError(f),
                                    ),
                                }
                            } else {
                                r == Ok::<Option<ResultHeader>, DecodeError>(None)
                            }
                        },
                        _ => true,
                    }
                }
            }),
    {
        if buf.len() < 4 {
            return Ok(None);
        }
        let (p1, t) = match decode::int32(buf, 0) {
            Ok(t) => t,
            Err(e) => {
                return Err(e);
            },
        };
        proof {
            assert(buf@.skip(0) =~= buf@);
            assert(buf@.skip(0).skip(4) =~= buf@.skip(4));
        }
        if t == 0x0001 {
            Ok(Some(ResultHeader::Void))
        } else if t == 0x0002 {
            match Self::decode_rows_metadata(buf, p1) {
                Ok((_, m)) => Ok(Some(ResultHeader::Rows(m))),
                Err(DecodeError::Incomplete(_)) => Ok(None),
                Err(e) => Err(e),
            }
        } else if t == 0x0003 {
            match decode::string(buf, p1) {
                Ok((_, s)) => Ok(Some(ResultHeader::SetKeyspace(s))),
                Err(DecodeError::Incomplete(_)) => Ok(None),
                Err(e) => Err(e),
            }
        } else if t == 0x0005 {
            match Self::decode_schema_change(buf, p1) {
                Ok((_, p)) => Ok(Some(ResultHeader::SchemaChange(p))),
                Err(DecodeError::Incomplete(_)) => Ok(None),
                Err(e) => Err(e),
            }
        } else {
            Ok(None)
        }
    }
}

// ---------------------------------------------------------------------------
// Dispatch by opcode
// ---------------------------------------------------------------------------

/// Whether a decoded message agrees, through its views, with what the
/// body bytes hold for this opcode.
pub open spec fn message_matches(code: OpCode, b: Seq<u8>, m: Message) -> bool {
    match code {
        OpCode::Ready => m is Ready,
        OpCode::Supported => m matches Message::Supported(sm) && dec_string_multimap(b) matches
            Decoded::Got(ps, _) && sm.0@ == ps,
        OpCode::Authenticate => m matches Message::Authenticate(am) && dec_string(b) matches
            Decoded::Got(s, _) && am.authenticator@ == s,
        OpCode::AuthSuccess => m matches Message::AuthSuccess(am) && dec_bytes(b) matches
            Decoded::Got(s, _) && am.payload@ == s,
        OpCode::Error => m matches Message::Error(em) && (dec_int(b) matches Decoded::Got(
            code,
            _,
        ) && em.code == code) && (dec_string(b.skip(4)) matches Decoded::Got(s, _) && em.text@
            == s),
        OpCode::Result => m matches Message::Result(h) && result_header_matches(b, h),
        _ => false,
    }
}

/// Whether a RESULT body holds a complete header.
pub open spec fn result_header_ready(b: Seq<u8>) -> bool {
    &&& b.len() >= 4
    &&& match dec_int(b) {
        Decoded::Got(t, _) => {
            if t == 0x0001 {
                true
            } else if t == 0x0002 {
                dec_rows_metadata(b.skip(4)) is Got
            } else if t == 0x0003 {
                dec_string(b.skip(4)) is Got
            } else if t == 0x0005 {
                dec_schema_change(b.skip(4)) is Got
            } else {
                false
            }
        },
        _ => false,
    }
}

/// What a decoded RESULT header looks like through its views.
pub open spec fn result_header_matches(b: Seq<u8>, h: ResultHeader) -> bool {
    match dec_int(b) {
        Decoded::Got(t, _) => {
            if t == 0x0001 {
                h is Void
            } else if t == 0x0002 {
                h matches ResultHeader::Rows(m) && (dec_rows_metadata(b.skip(4)) matches
                    Decoded::Got(shape, _) && rows_matches(m, shape))
            } else if t == 0x0003 {
                h matches ResultHeader::SetKeyspace(cs) && (dec_string(b.skip(4)) matches
                    Decoded::Got(sq, _) && cs@ == sq)
            } else if t == 0x0005 {
                h matches ResultHeader::SchemaChange(p) && (dec_schema_change(b.skip(4)) matches
                    Decoded::Got(sc, _) && p.change_type@ == sc.0 && p.target@ == sc.1
                    && p.options@ == sc.2)
            } else {
                false
            }
        },
        _ => false,
    }
}

/// Whether a frame body decodes as its opcode's message.
pub open spec fn message_decodes(code: OpCode, b: Seq<u8>) -> bool {
    match code {
        OpCode::Ready => true,
        OpCode::Supported => dec_string_multimap(b) is Got,
        OpCode::Authenticate => dec_string(b) is Got,
        OpCode::AuthSuccess => dec_bytes(b) is Got,
        OpCode::Error => dec_int(b) is Got && dec_string(b.skip(4)) is Got,
        OpCode::Result => result_header_ready(b),
        _ => false,
    }
}

/// Whether this opcode names a response body this client decodes.
pub open spec fn decodable_opcode(code: OpCode) -> bool {
    match code {
        OpCode::Ready | OpCode::Supported | OpCode::Authenticate | OpCode::AuthSuccess
            | OpCode::Error | OpCode::Result => true,
        _ => false,
    }
}

/// Decodes a complete frame body into the typed message its opcode
/// selects.  A RESULT body that stops short of its header's end, though
/// the frame is complete, is an invalid frame.
pub fn decode_complete_message_by_opcode(version: ProtocolVersion, code: OpCode, buf: &[u8]) -> (r:
    Result<Message, ResponseError>)
    ensures
        !decodable_opcode(code) ==> r == Err::<Message, _>(ResponseError::UnexpectedOpcode(code)),
        decodable_opcode(code) ==> (r is Ok <==> message_decodes(code, buf@)),
        decodable_opcode(code) ==> (r matches Err(e) ==> e matches ResponseError::Decode(_)),
        r matches Ok(m) ==> decodable_opcode(code) && message_matches(code, buf@, m),
{
    match code {
        OpCode::Ready => Ok(Message::Ready),
        OpCode::Supported => match SupportedMessage::decode(version, buf) {
            Ok(m) => Ok(Message::Supported(m)),
            Err(e) => Err(ResponseError::Decode(e)),
        },
        OpCode::Authenticate => match AuthenticateMessage::decode(version, buf) {
            Ok(m) => Ok(Message::Authenticate(m)),
            Err(e) => Err(ResponseError::Decode(e)),
        },
        OpCode::AuthSuccess => match AuthSuccessMessage::decode(version, buf) {
            Ok(m) => Ok(Message::AuthSuccess(m)),
            Err(e) => Err(ResponseError::Decode(e)),
        },
        OpCode::Error => match ErrorMessage::decode(version, buf) {
            Ok(m) => Ok(Message::Error(m)),
            Err(e) => Err(ResponseError::Decode(e)),
        },
        OpCode::Result => match ResultHeader::decode(version, buf) {
            Ok(Some(h)) => Ok(Message::Result(h)),
            Ok(None) => Err(
                ResponseError::Decode(DecodeError::Incomplete(Needed::Unknown)),
            ),
            Err(e) => Err(ResponseError::Decode(e)),
        },
        _ => Err(ResponseError::UnexpectedOpcode(code)),
    }
}

} // verus!
