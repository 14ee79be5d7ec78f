//! The typed request messages — OPTIONS, STARTUP, AUTH_RESPONSE, QUERY —
//! their body layout, and the framing of a whole request.

use vstd::prelude::*;

verus! {

use vstd::string::StringSliceAdditionalSpecFns;
use crate::wire::{
    enc_short, enc_int, enc_long, enc_long_string, enc_bytes, enc_string, enc_string_map,
};
use crate::primitives::{
    CqlString, CqlLongString, CqlBytes, CqlConsistency, CqlStringMap, map_entries_view,
};
use crate::primitives::encode::{self, enc_consistency};
use crate::header::{Header, ProtocolVersion, Direction, OpCode, enc_header};

/// The error of framing a request: the staged body does not fit the
/// header's 32-bit length field.
#[derive(Debug, PartialEq, Eq, Structural, Clone, Copy)]
pub enum RequestError {
    BodyLengthExceeded(usize),
}

/// The body of a STARTUP request: a string map naming the chosen CQL
/// version and, when compression was negotiated, the chosen algorithm.
#[derive(Debug, Clone)]
pub struct StartupMessage {
    pub cql_version: CqlString,
    pub compression: Option<CqlString>,
}

/// The body of an AUTH_RESPONSE request: one [bytes] value.
#[derive(Debug, Clone)]
pub struct AuthResponseMessage {
    pub auth_data: CqlBytes,
}

/// The values of a QUERY: either positional [bytes] values, or pairs of a
/// name and a [bytes] value.
#[derive(Debug)]
pub enum QueryValues {
    Positional(Vec<CqlBytes>),
    Named(Vec<(CqlString, CqlBytes)>),
}

/// A QUERY request: the statement text and its execution options.
#[derive(Debug)]
pub struct QueryMessage {
    pub query: CqlLongString,
    pub values: Option<QueryValues>,
    pub consistency: CqlConsistency,
    pub skip_metadata: bool,
    pub page_size: Option<i32>,
    pub paging_state: Option<CqlBytes>,
    pub serial_consistency: Option<CqlConsistency>,
    pub timestamp: Option<i64>,
}

/// A request message, selected by its opcode on the wire.
#[derive(Debug)]
pub enum Message {
    Options,
    Startup(StartupMessage),
    AuthResponse(AuthResponseMessage),
    Query(QueryMessage),
}

// ---------------------------------------------------------------------------
// Body layout, as specification functions
// ---------------------------------------------------------------------------

/// The string-map entries a STARTUP body carries, in wire order.
pub open spec fn startup_pairs(m: StartupMessage) -> Seq<(Seq<u8>, Seq<u8>)> {
    let base = seq![("CQL_VERSION".spec_bytes(), m.cql_version@)];
    match m.compression {
        Some(c) => base.push(("COMPRESSION".spec_bytes(), c@)),
        None => base,
    }
}

/// The body of a STARTUP request.
pub open spec fn startup_body(m: StartupMessage) -> Seq<u8> {
    enc_string_map(startup_pairs(m))
}

/// The body of an AUTH_RESPONSE request.
pub open spec fn auth_response_body(m: AuthResponseMessage) -> Seq<u8> {
    enc_bytes(m.auth_data@)
}

/// The concatenated wire forms of positional values.
pub open spec fn enc_positional(vs: Seq<Option<Seq<u8>>>) -> Seq<u8>
    decreases vs.len(),
{
    if vs.len() == 0 {
        seq![]
    } else {
        enc_bytes(vs[0]) + enc_positional(vs.skip(1))
    }
}

/// The concatenated wire forms of named values.
pub open spec fn enc_named(ps: Seq<(Seq<u8>, Option<Seq<u8>>)>) -> Seq<u8>
    decreases ps.len(),
{
    if ps.len() == 0 {
        seq![]
    } else {
        enc_string(ps[0].0) + enc_bytes(ps[0].1) + enc_named(ps.skip(1))
    }
}

/// The entries of positional values, as the wire sees them.
pub open spec fn positional_view(vs: Seq<CqlBytes>) -> Seq<Option<Seq<u8>>> {
    vs.map_values(|b: CqlBytes| b@)
}

/// The entries of named values, as the wire sees them.
pub open spec fn named_view(ps: Seq<(CqlString, CqlBytes)>) -> Seq<(Seq<u8>, Option<Seq<u8>>)> {
    ps.map_values(|p: (CqlString, CqlBytes)| (p.0@, p.1@))
}

/// The values section of a QUERY body: a [short] count, then the values.
pub open spec fn query_values_body(v: QueryValues) -> Seq<u8> {
    match v {
        QueryValues::Positional(vals) => enc_short(vals@.len() as u16) + enc_positional(
            positional_view(vals@),
        ),
        QueryValues::Named(ps) => enc_short(ps@.len() as u16) + enc_named(named_view(ps@)),
    }
}

/// The QUERY flags byte: one bit for each optional section that follows,
/// and bit 0x40 when the values are named.
pub open spec fn query_flags(q: QueryMessage) -> u8 {
    (if q.values is Some {
        0x01u8
    } else {
        0u8
    }) | (if q.skip_metadata {
        0x02u8
    } else {
        0u8
    }) | (if q.page_size is Some {
        0x04u8
    } else {
        0u8
    }) | (if q.paging_state is Some {
        0x08u8
    } else {
        0u8
    }) | (if q.serial_consistency is Some {
        0x10u8
    } else {
        0u8
    }) | (if q.timestamp is Some {
        0x20u8
    } else {
        0u8
    }) | (if q.values matches Some(QueryValues::Named(_)) {
        0x40u8
    } else {
        0u8
    })
}

/// The flag byte sets exactly the bits of the sections that are present:
/// bit 0x01 for values, 0x02 for skipped metadata, 0x04 for a page size,
/// 0x08 for a paging state, 0x10 for a serial consistency, 0x20 for a
/// timestamp, and 0x40 when the values are named.
pub proof fn lemma_query_flags_bits(q: QueryMessage)
    ensures
        (query_flags(q) & 0x01 == 0x01) <==> q.values is Some,
        (query_flags(q) & 0x02 == 0x02) <==> q.skip_metadata,
        (query_flags(q) & 0x04 == 0x04) <==> q.page_size is Some,
        (query_flags(q) & 0x08 == 0x08) <==> q.paging_state is Some,
        (query_flags(q) & 0x10 == 0x10) <==> q.serial_consistency is Some,
        (query_flags(q) & 0x20 == 0x20) <==> q.timestamp is Some,
        (query_flags(q) & 0x40 == 0x40) <==> q.values matches Some(QueryValues::Named(_)),
{
    let a: u8 = if q.values is Some { 0x01u8 } else { 0u8 };
    let b: u8 = if q.skip_metadata { 0x02u8 } else { 0u8 };
    let c: u8 = if q.page_size is Some { 0x04u8 } else { 0u8 };
    let d: u8 = if q.paging_state is Some { 0x08u8 } else { 0u8 };
    let e: u8 = if q.serial_consistency is Some { 0x10u8 } else { 0u8 };
    let f: u8 = if q.timestamp is Some { 0x20u8 } else { 0u8 };
    let g: u8 = if q.values matches Some(QueryValues::Named(_)) { 0x40u8 } else { 0u8 };
    assert(query_flags(q) == a | b | c | d | e | f | g);
    assert((((a | b | c | d | e | f | g) & 0x01 == 0x01) <==> a == 0x01) && (((a | b | c | d | e
        | f | g) & 0x02 == 0x02) <==> b == 0x02) && (((a | b | c | d | e | f | g) & 0x04 == 0x04)
        <==> c == 0x04) && (((a | b | c | d | e | f | g) & 0x08 == 0x08) <==> d == 0x08) && (((a
        | b | c | d | e | f | g) & 0x10 == 0x10) <==> e == 0x10) && (((a | b | c | d | e | f | g)
        & 0x20 == 0x20) <==> f == 0x20) && (((a | b | c | d | e | f | g) & 0x40 == 0x40) <==> g
        == 0x40)) by (bit_vector)
        requires
            (a == 0x00 || a == 0x01) && (b == 0x00 || b == 0x02) && (c == 0x00 || c == 0x04) && (d
                == 0x00 || d == 0x08) && (e == 0x00 || e == 0x10) && (f == 0x00 || f == 0x20) && (g
                == 0x00 || g == 0x40),
    ;
}

/// The body of a QUERY request: the statement as a [long string], the
/// consistency, the flags byte, then exactly the optional sections whose
/// flag bits are set, in this fixed order: values, page size, paging
/// state, serial consistency, timestamp.
#[verifier::opaque]
pub open spec fn query_body(q: QueryMessage) -> Seq<u8> {
    enc_long_string(q.query@) + enc_consistency(q.consistency) + seq![query_flags(q)] + (
    match q.values {
        Some(v) => query_values_body(v),
        None => seq![],
    }) + (match q.page_size {
        Some(p) => enc_int(p),
        None => seq![],
    }) + (match q.paging_state {
        Some(ps) => enc_bytes(ps@),
        None => seq![],
    }) + (match q.serial_consistency {
        Some(c) => enc_consistency(c),
        None => seq![],
    }) + (match q.timestamp {
        Some(t) => enc_long(t),
        None => seq![],
    })
}

/// The opcode a request message is framed with.
pub open spec fn message_opcode(m: Message) -> OpCode {
    match m {
        Message::Options => OpCode::Options,
        Message::Startup(_) => OpCode::Startup,
        Message::AuthResponse(_) => OpCode::AuthResponse,
        Message::Query(_) => OpCode::Query,
    }
}

/// The body bytes of a request message; OPTIONS has an empty body.
pub open spec fn message_body(m: Message) -> Seq<u8> {
    match m {
        Message::Options => seq![],
        Message::Startup(s) => startup_body(s),
        Message::AuthResponse(a) => auth_response_body(a),
        Message::Query(q) => query_body(q),
    }
}

/// A values section whose count fits its 16-bit prefix.
pub open spec fn wf_query_values(v: QueryValues) -> bool {
    match v {
        QueryValues::Positional(vals) => vals@.len() <= 0xFFFF,
        QueryValues::Named(ps) => ps@.len() <= 0xFFFF,
    }
}

/// A query whose values section, if present, fits its count prefix.
pub open spec fn wf_query(q: QueryMessage) -> bool {
    match q.values {
        Some(v) => wf_query_values(v),
        None => true,
    }
}

/// A message every part of which fits its wire counts.
pub open spec fn wf_message(m: Message) -> bool {
    match m {
        Message::Query(q) => wf_query(q),
        _ => true,
    }
}

// ---------------------------------------------------------------------------
// Executable encoders
// ---------------------------------------------------------------------------

impl StartupMessage {
    /// Writes the STARTUP body: a string map with `CQL_VERSION` first and
    /// `COMPRESSION` after it when present.  Returns the bytes written.
    pub fn encode(&self, _v: ProtocolVersion, buf: &mut Vec<u8>) -> (r: usize)
        ensures
            final(buf)@ == old(buf)@ + startup_body(*self),
            r == startup_body(*self).len(),
    {
        proof {
            reveal_strlit("CQL_VERSION");
            reveal_strlit("COMPRESSION");
            assert(vstd::utf8::is_ascii_chars(("CQL_VERSION")@));
            assert(vstd::utf8::is_ascii_chars(("COMPRESSION")@));
            vstd::utf8::is_ascii_chars_encode_utf8(("CQL_VERSION")@);
            vstd::utf8::is_ascii_chars_encode_utf8(("COMPRESSION")@);
        }
        let mut entries: Vec<(CqlString, CqlString)> = Vec::new();
        entries.push((CqlString::unchecked_from("CQL_VERSION"), self.cql_version.clone()));
        match &self.compression {
            Some(c) => {
                entries.push((CqlString::unchecked_from("COMPRESSION"), c.clone()));
            },
            None => {},
        }
        let sm = CqlStringMap::unchecked_from(entries);
        proof {
            assert(sm@ =~= startup_pairs(*self));
        }
        let before = buf.len();
        encode::string_map(&sm, buf);
        buf.len() - before
    }
}

impl AuthResponseMessage {
    /// Writes the AUTH_RESPONSE body: one [bytes] value.  Returns the
    /// bytes written.
    pub fn encode(&self, _v: ProtocolVersion, buf: &mut Vec<u8>) -> (r: usize)
        ensures
            final(buf)@ == old(buf)@ + auth_response_body(*self),
            r == auth_response_body(*self).len(),
    {
        let before = buf.len();
        encode::bytes(&self.auth_data, buf);
        buf.len() - before
    }
}

/// Appending the form of one more positional value extends the
/// concatenation.
proof fn lemma_enc_positional_snoc(vs: Seq<Option<Seq<u8>>>, v: Option<Seq<u8>>)
    ensures
        enc_positional(vs.push(v)) == enc_positional(vs) + enc_bytes(v),
    decreases vs.len(),
{
    if vs.len() == 0 {
        assert(vs.push(v)[0] == v);
        assert(vs.push(v).skip(1) =~= Seq::<Option<Seq<u8>>>::empty());
        assert(enc_positional(Seq::<Option<Seq<u8>>>::empty()) == Seq::<u8>::empty());
        assert(enc_positional(vs.push(v)) =~= enc_positional(vs) + enc_bytes(v));
    } else {
        assert(vs.push(v)[0] == vs[0]);
        assert(vs.push(v).skip(1) =~= vs.skip(1).push(v));
        lemma_enc_positional_snoc(vs.skip(1), v);
        assert(enc_positional(vs.push(v)) =~= enc_positional(vs) + enc_bytes(v));
    }
}

/// Appending the form of one more named value extends the concatenation.
proof fn lemma_enc_named_snoc(ps: Seq<(Seq<u8>, Option<Seq<u8>>)>, p: (Seq<u8>, Option<Seq<u8>>))
    ensures
        enc_named(ps.push(p)) == enc_named(ps) + enc_string(p.0) + enc_bytes(p.1),
    decreases ps.len(),
{
    if ps.len() == 0 {
        assert(ps.push(p)[0] == p);
        assert(ps.push(p).skip(1) =~= Seq::<(Seq<u8>, Option<Seq<u8>>)>::empty());
        assert(enc_named(Seq::<(Seq<u8>, Option<Seq<u8>>)>::empty()) == Seq::<u8>::empty());
        assert(enc_named(ps.push(p)) =~= enc_named(ps) + enc_string(p.0) + enc_bytes(p.1));
    } else {
        assert(ps.push(p)[0] == ps[0]);
        assert(ps.push(p).skip(1) =~= ps.skip(1).push(p));
        lemma_enc_named_snoc(ps.skip(1), p);
        assert(enc_named(ps.push(p)) =~= enc_named(ps) + enc_string(p.0) + enc_bytes(p.1));
    }
}

impl QueryValues {
    /// Writes the values section: a [short] count, then each value —
    /// positional values as [bytes], named values as a [string] name
    /// followed by [bytes].  Returns the bytes written.
    pub fn encode(&self, _v: ProtocolVersion, buf: &mut Vec<u8>) -> (r: usize)
        requires
            wf_query_values(*self),
        ensures
            final(buf)@ == old(buf)@ + query_values_body(*self),
            r == query_values_body(*self).len(),
    {
        let before = buf.len();
        match self {
            QueryValues::Positional(values) => {
                let ghost view = positional_view(values@);
                let mut prefix = encode::short(values.len() as u16);
                buf.append(&mut prefix);
                let n = values.len();
                let mut i: usize = 0;
                while i < n
                    invariant
                        n == values@.len(),
                        0 <= i <= n,
                        view == positional_view(values@),
                        buf@ =~= old(buf)@ + enc_short(values@.len() as u16) + enc_positional(
                            view.take(i as int),
                        ),
                    decreases n - i,
                {
                    encode::bytes(&values[i], buf);
                    proof {
                        assert(view[i as int] == values@[i as int]@);
                        lemma_enc_positional_snoc(view.take(i as int), view[i as int]);
                        assert(view.take(i as int).push(view[i as int]) =~= view.take(i + 1));
                    }
                    i += 1;
                }
                proof {
                    assert(view.take(n as int) =~= view);
                    assert(buf@ =~= old(buf)@ + query_values_body(*self));
                }
            },
            QueryValues::Named(values) => {
                let ghost view = named_view(values@);
                let mut prefix = encode::short(values.len() as u16);
                buf.append(&mut prefix);
                let n = values.len();
                let mut i: usize = 0;
                while i < n
                    invariant
                        n == values@.len(),
                        0 <= i <= n,
                        view == named_view(values@),
                        buf@ =~= old(buf)@ + enc_short(values@.len() as u16) + enc_named(
                            view.take(i as int),
                        ),
                    decreases n - i,
                {
                    encode::string(&values[i].0, buf);
                    encode::bytes(&values[i].1, buf);
                    proof {
                        assert(view[i as int] == (values@[i as int].0@, values@[i as int].1@));
                        lemma_enc_named_snoc(view.take(i as int), view[i as int]);
                        assert(view.take(i as int).push(view[i as int]) =~= view.take(i + 1));
                    }
                    i += 1;
                }
                proof {
                    assert(view.take(n as int) =~= view);
                    assert(buf@ =~= old(buf)@ + query_values_body(*self));
                }
            },
        }
        buf.len() - before
    }
}

/// Prepending a prefix to an eight-part concatenation associates freely.
proof fn lemma_chain8(
    s0: Seq<u8>,
    qa: Seq<u8>,
    qb: Seq<u8>,
    qc: Seq<u8>,
    qd: Seq<u8>,
    qe: Seq<u8>,
    qf: Seq<u8>,
    qg: Seq<u8>,
    qh: Seq<u8>,
)
    ensures
        ((((((((s0 + qa) + qb) + qc) + qd) + qe) + qf) + qg) + qh) == s0 + ((((((((qa + qb) + qc)
            + qd) + qe) + qf) + qg) + qh)),
{
    assert(s0 + (qa + qb) =~= (s0 + qa) + qb);
    assert(s0 + ((qa + qb) + qc) =~= (s0 + (qa + qb)) + qc);
    assert(s0 + (((qa + qb) + qc) + qd) =~= (s0 + ((qa + qb) + qc)) + qd);
    assert(s0 + ((((qa + qb) + qc) + qd) + qe) =~= (s0 + (((qa + qb) + qc) + qd)) + qe);
    assert(s0 + (((((qa + qb) + qc) + qd) + qe) + qf) =~= (s0 + ((((qa + qb) + qc) + qd) + qe))
        + qf);
    assert(s0 + ((((((qa + qb) + qc) + qd) + qe) + qf) + qg) =~= (s0 + (((((qa + qb) + qc) + qd)
        + qe) + qf)) + qg);
    assert(s0 + (((((((qa + qb) + qc) + qd) + qe) + qf) + qg) + qh) =~= (s0 + ((((((qa + qb) + qc)
        + qd) + qe) + qf) + qg)) + qh);
}

impl QueryMessage {
    /// The flags byte: exactly the bits of the sections that follow.
    pub fn compute_flags(&self) -> (r: u8)
        ensures
            r == query_flags(*self),
    {
        let a: u8 = if self.values.is_some() {
            0x01
        } else {
            0
        };
        let b: u8 = if self.skip_metadata {
            0x02
        } else {
            0
        };
        let c: u8 = if self.page_size.is_some() {
            0x04
        } else {
            0
        };
        let d: u8 = if self.paging_state.is_some() {
            0x08
        } else {
            0
        };
        let e: u8 = if self.serial_consistency.is_some() {
            0x10
        } else {
            0
        };
        let f: u8 = if self.timestamp.is_some() {
            0x20
        } else {
            0
        };
        let g: u8 = match &self.values {
            Some(QueryValues::Named(_)) => 0x40,
            _ => 0,
        };
        a | b | c | d | e | f | g
    }

    /// Writes the QUERY body in the fixed order the flags announce.
    /// Returns the bytes written.
    #[verifier::rlimit(100)]
    pub fn encode(&self, version: ProtocolVersion, buf: &mut Vec<u8>) -> (r: usize)
        requires
            wf_query(*self),
        ensures
            final(buf)@ == old(buf)@ + query_body(*self),
            r == query_body(*self).len(),
    {
        let before = buf.len();
        let ghost s0 = old(buf)@;
        encode::long_string(&self.query, buf);
        let ghost s1 = s0 + enc_long_string(self.query@);
        assert(buf@ == s1);
        let mut cons = encode::consistency(&self.consistency);
        buf.append(&mut cons);
        let ghost s2 = s1 + enc_consistency(self.consistency);
        assert(buf@ == s2);
        buf.push(self.compute_flags());
        let ghost s3 = s2 + seq![query_flags(*self)];
        assert(buf@ =~= s3);
        match &self.values {
            Some(v) => {
                v.encode(version, buf);
            },
            None => {},
        }
        let ghost s4 = s3 + (match &self.values {
            Some(v) => query_values_body(*v),
            None => seq![],
        });
        assert(buf@ == s4);
        match self.page_size {
            Some(p) => {
                let mut ps = encode::int32(p);
                buf.append(&mut ps);
            },
            None => {},
        }
        let ghost s5 = s4 + (match self.page_size {
            Some(p) => enc_int(p),
            None => seq![],
        });
        assert(buf@ == s5);
        match &self.paging_state {
            Some(ps) => {
                encode::bytes(ps, buf);
            },
            None => {},
        }
        let ghost s6 = s5 + (match &self.paging_state {
            Some(ps) => enc_bytes(ps@),
            None => seq![],
        });
        assert(buf@ == s6);
        match &self.serial_consistency {
            Some(c) => {
                let mut sc = encode::consistency(c);
                buf.append(&mut sc);
            },
            None => {},
        }
        let ghost s7 = s6 + (match self.serial_consistency {
            Some(c) => enc_consistency(c),
            None => seq![],
        });
        assert(buf@ == s7);
        match self.timestamp {
            Some(t) => {
                let mut ts = encode::long(t);
                buf.append(&mut ts);
            },
            None => {},
        }
        let ghost s8 = s7 + (match self.timestamp {
            Some(t) => enc_long(t),
            None => seq![],
        });
        assert(buf@ == s8);
        proof {
            let qa = enc_long_string(self.query@);
            let qb = enc_consistency(self.consistency);
            let qc = seq![query_flags(*self)];
            let qd = match &self.values {
                Some(v) => query_values_body(*v),
                None => seq![],
            };
            let qe = match self.page_size {
                Some(p) => enc_int(p),
                None => seq![],
            };
            let qf = match &self.paging_state {
                Some(ps) => enc_bytes(ps@),
                None => seq![],
            };
            let qg = match self.serial_consistency {
                Some(c) => enc_consistency(c),
                None => seq![],
            };
            let qh = match self.timestamp {
                Some(t) => enc_long(t),
                None => seq![],
            };
            reveal(query_body);
            assert(query_body(*self) == (((((((qa + qb) + qc) + qd) + qe) + qf) + qg) + qh));
            lemma_chain8(s0, qa, qb, qc, qd, qe, qf, qg, qh);
            assert(s8 == s0 + query_body(*self));
        }
        buf.len() - before
    }
}

impl Default for QueryMessage {
    /// An empty query at consistency ONE with every option absent.
    fn default() -> (r: Self)
        ensures
            r.query@ == Seq::<u8>::empty(),
            r.values is None,
            r.consistency is One,
            !r.skip_metadata,
            r.page_size is None,
            r.paging_state is None,
            r.serial_consistency is None,
            r.timestamp is None,
    {
        proof {
            reveal_strlit("");
            assert(("")@.len() == 0);
            assert(vstd::utf8::is_ascii_chars(("")@));
            vstd::utf8::is_ascii_chars_encode_utf8(("")@);
        }
        let query = match CqlLongString::try_from("") {
            Ok(q) => q,
            Err(_) => {
                proof {
                    assert(false);
                }
                match CqlLongString::try_from("") {
                    Ok(q) => q,
                    Err(_) => unreached(),
                }
            },
        };
        proof {
            assert(query@ =~= Seq::<u8>::empty());
        }
        QueryMessage {
            query,
            values: None,
            consistency: CqlConsistency::One,
            skip_metadata: false,
            page_size: None,
            paging_state: None,
            serial_consistency: None,
            timestamp: None,
        }
    }
}

impl Message {
    /// The opcode this message is framed with.
    pub fn opcode(&self) -> (r: OpCode)
        ensures
            r == message_opcode(*self),
    {
        match self {
            Message::Options => OpCode::Options,
            Message::Startup(_) => OpCode::Startup,
            Message::AuthResponse(_) => OpCode::AuthResponse,
            Message::Query(_) => OpCode::Query,
        }
    }

    /// Writes this message's body.  Returns the bytes written.
    pub fn encode(&self, v: ProtocolVersion, buf: &mut Vec<u8>) -> (r: usize)
        requires
            wf_message(*self),
        ensures
            final(buf)@ == old(buf)@ + message_body(*self),
            r == message_body(*self).len(),
    {
        match self {
            Message::Options => {
                proof {
                    assert(buf@ =~= old(buf)@ + message_body(*self));
                }
                0
            },
            Message::Startup(m) => m.encode(v, buf),
            Message::AuthResponse(m) => m.encode(v, buf),
            Message::Query(m) => m.encode(v, buf),
        }
    }
}

/// Frames a request: the nine header bytes — request direction, the given
/// flags and stream id, the message's opcode, the body length — followed
/// by the body.  The sink's previous content is discarded.  Fails exactly
/// when the body is longer than the header's 32-bit length field can say.
pub fn cql_encode(
    version: ProtocolVersion,
    flags: u8,
    stream_id: u16,
    to_encode: Message,
    sink: &mut Vec<u8>,
) -> (r: Result<(), RequestError>)
    requires
        wf_message(to_encode),
    ensures
        ({
            let body = message_body(to_encode);
            let h = Header {
                version: ProtocolVersion::Version3(Direction::Request),
                flags,
                stream_id,
                op_code: message_opcode(to_encode),
                length: body.len() as u32,
            };
            &&& (body.len() <= 0xFFFF_FFFF <==> r matches Ok(_))
            &&& (r matches Ok(_) ==> final(sink)@ == enc_header(h) + body)
            &&& (body.len() > 0xFFFF_FFFF ==> r == Err::<(), _>(
                RequestError::BodyLengthExceeded(body.len() as usize),
            ))
        }),
{
    let mut body: Vec<u8> = Vec::new();
    let len = to_encode.encode(version, &mut body);
    if len > 0xFFFF_FFFFusize {
        return Err(RequestError::BodyLengthExceeded(len));
    }
    let header = Header {
        version: match version {
            ProtocolVersion::Version3(_) => ProtocolVersion::Version3(Direction::Request),
        },
        flags,
        stream_id,
        op_code: to_encode.opcode(),
        length: len as u32,
    };
    let mut out = match header.encode() {
        Ok(v) => v,
        Err(_) => {
            proof {
                assert(false);
            }
            Vec::new()
        },
    };
    sink.clear();
    sink.append(&mut out);
    sink.append(&mut body);
    proof {
        assert(sink@ =~= enc_header(header) + message_body(to_encode));
    }
    Ok(())
}

} // verus!
