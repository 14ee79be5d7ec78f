//! Executable encoders for the wire primitives, verified against the
//! specification functions in [`crate::wire`].
//!
//! The scalar encoders return the bytes; the container encoders append to
//! a caller-supplied buffer, as the message encoders stage a whole body in
//! one vector.

use vstd::prelude::*;

verus! {

use crate::wire::{
    self, enc_short, enc_int, enc_long, enc_string, enc_long_string, enc_bytes, enc_strings,
    enc_string_list, enc_string_pairs, enc_string_map, enc_multimap_pairs, enc_string_multimap,
};
use crate::primitives::{
    CqlString, CqlLongString, CqlBytes, CqlConsistency, CqlStringList, CqlStringMap,
    CqlStringMultiMap, consistency_code,
};

/// Wire form of a consistency level: its code as a [short].
pub open spec fn enc_consistency(c: CqlConsistency) -> Seq<u8> {
    enc_short(consistency_code(c))
}

/// Encodes a [short]: two bytes, big-endian.
pub fn short(v: u16) -> (r: Vec<u8>)
    ensures
        r@ == enc_short(v),
{
    let mut out: Vec<u8> = Vec::new();
    out.push((v / 256) as u8);
    out.push((v % 256) as u8);
    proof {
        wire::lemma_be_bytes_2(v as nat);
        assert(out@ =~= enc_short(v));
    }
    out
}

/// Encodes an [int]: four bytes, big-endian, two's complement.
pub fn int32(v: i32) -> (r: Vec<u8>)
    ensures
        r@ == enc_int(v),
{
    let u: u64 = if v >= 0 {
        v as u64
    } else {
        0x1_0000_0000u64 - ((-(v as i64)) as u64)
    };
    proof {
        assert(u == wire::rep_i32(v));
    }
    let mut out: Vec<u8> = Vec::new();
    out.push(((u / 0x100_0000) % 256) as u8);
    out.push(((u / 0x1_0000) % 256) as u8);
    out.push(((u / 256) % 256) as u8);
    out.push((u % 256) as u8);
    proof {
        wire::lemma_be_bytes_4(u as nat);
        assert(out@ =~= enc_int(v));
    }
    out
}

/// Encodes a [long]: eight bytes, big-endian, two's complement.
pub fn long(v: i64) -> (r: Vec<u8>)
    ensures
        r@ == enc_long(v),
{
    let u: u128 = if v >= 0 {
        v as u128
    } else {
        0x1_0000_0000_0000_0000u128 - ((-(v as i128)) as u128)
    };
    proof {
        assert(u == wire::rep_i64(v));
    }
    let mut out: Vec<u8> = Vec::new();
    out.push(((u / 0x100_0000_0000_0000) % 256) as u8);
    out.push(((u / 0x1_0000_0000_0000) % 256) as u8);
    out.push(((u / 0x100_0000_0000) % 256) as u8);
    out.push(((u / 0x1_0000_0000) % 256) as u8);
    out.push(((u / 0x100_0000) % 256) as u8);
    out.push(((u / 0x1_0000) % 256) as u8);
    out.push(((u / 256) % 256) as u8);
    out.push((u % 256) as u8);
    proof {
        wire::lemma_be_bytes_8(u as nat);
        assert(out@ =~= enc_long(v));
    }
    out
}

/// Encodes a consistency level as its [short] code.
pub fn consistency(c: &CqlConsistency) -> (r: Vec<u8>)
    ensures
        r@ == enc_consistency(*c),
{
    short(c.as_short())
}

/// Appends a [string]: 16-bit length, then the UTF-8 bytes.
pub fn string(s: &CqlString, buf: &mut Vec<u8>)
    ensures
        final(buf)@ == old(buf)@ + enc_string(s@),
{
    let mut prefix = short(s.len());
    buf.append(&mut prefix);
    buf.extend_from_slice(s.as_bytes());
    assert(buf@ =~= old(buf)@ + enc_string(s@));
}

/// Appends a [long string]: 32-bit length, then the UTF-8 bytes.
pub fn long_string(s: &CqlLongString, buf: &mut Vec<u8>)
    ensures
        final(buf)@ == old(buf)@ + enc_long_string(s@),
{
    let mut prefix = int32(s.len());
    buf.append(&mut prefix);
    buf.extend_from_slice(s.as_bytes());
    assert(buf@ =~= old(buf)@ + enc_long_string(s@));
}

/// Appends a [bytes] value: 32-bit signed length, then the payload; the
/// null value is the length -1 with no payload.
pub fn bytes(b: &CqlBytes, buf: &mut Vec<u8>)
    ensures
        final(buf)@ == old(buf)@ + enc_bytes(b@),
{
    let mut prefix = int32(b.len());
    buf.append(&mut prefix);
    match b.as_bytes() {
        Some(payload) => {
            buf.extend_from_slice(payload);
        },
        None => {},
    }
    assert(buf@ =~= old(buf)@ + enc_bytes(b@));
}

/// Appending the forms of one more string extends the concatenation.
proof fn lemma_enc_strings_snoc(ss: Seq<Seq<u8>>, s: Seq<u8>)
    ensures
        enc_strings(ss.push(s)) == enc_strings(ss) + enc_string(s),
    decreases ss.len(),
{
    if ss.len() == 0 {
        assert(ss.push(s)[0] == s);
        assert(ss.push(s).skip(1) =~= Seq::<Seq<u8>>::empty());
        assert(enc_strings(ss.push(s).skip(1)) == Seq::<u8>::empty());
        assert(enc_strings(ss.push(s)) =~= enc_strings(ss) + enc_string(s));
    } else {
        assert(ss.push(s)[0] == ss[0]);
        assert(ss.push(s).skip(1) =~= ss.skip(1).push(s));
        lemma_enc_strings_snoc(ss.skip(1), s);
        assert(enc_strings(ss.push(s)) =~= enc_strings(ss) + enc_string(s));
    }
}

/// Appends a [string list]: 16-bit count, then the strings in order.
pub fn string_list(l: &CqlStringList, buf: &mut Vec<u8>)
    ensures
        final(buf)@ == old(buf)@ + enc_string_list(l@),
{
    let mut prefix = short(l.len());
    buf.append(&mut prefix);
    let items = l.iter();
    let n = items.len();
    let mut i: usize = 0;
    while i < n
        invariant
            n == items@.len(),
            0 <= i <= n,
            items@.map_values(|c: CqlString| c@) == l@,
            buf@ =~= old(buf)@ + wire::enc_short(l@.len() as u16) + enc_strings(l@.take(i as int)),
        decreases n - i,
    {
        string(&items[i], buf);
        proof {
            assert(items@[i as int]@ == l@[i as int]);
            lemma_enc_strings_snoc(l@.take(i as int), l@[i as int]);
            assert(l@.take(i as int).push(l@[i as int]) =~= l@.take(i + 1));
        }
        i += 1;
    }
    proof {
        assert(l@.take(n as int) =~= l@);
        assert(buf@ =~= old(buf)@ + enc_string_list(l@));
    }
}

/// Appending the forms of one more pair extends the concatenation.
proof fn lemma_enc_string_pairs_snoc(ps: Seq<(Seq<u8>, Seq<u8>)>, p: (Seq<u8>, Seq<u8>))
    ensures
        enc_string_pairs(ps.push(p)) == enc_string_pairs(ps) + enc_string(p.0) + enc_string(p.1),
    decreases ps.len(),
{
    if ps.len() == 0 {
        assert(ps.push(p)[0] == p);
        assert(ps.push(p).skip(1) =~= Seq::<(Seq<u8>, Seq<u8>)>::empty());
        assert(enc_string_pairs(ps.push(p).skip(1)) == Seq::<u8>::empty());
        assert(enc_string_pairs(ps.push(p)) =~= enc_string_pairs(ps) + enc_string(p.0)
            + enc_string(p.1));
    } else {
        assert(ps.push(p)[0] == ps[0]);
        assert(ps.push(p).skip(1) =~= ps.skip(1).push(p));
        lemma_enc_string_pairs_snoc(ps.skip(1), p);
        assert(enc_string_pairs(ps.push(p)) =~= enc_string_pairs(ps) + enc_string(p.0)
            + enc_string(p.1));
    }
}

/// Appends a [string map]: 16-bit count, then the key/value pairs in order.
pub fn string_map(m: &CqlStringMap, buf: &mut Vec<u8>)
    ensures
        final(buf)@ == old(buf)@ + enc_string_map(m@),
{
    let mut prefix = short(m.len());
    buf.append(&mut prefix);
    let items = m.iter();
    let n = items.len();
    let mut i: usize = 0;
    while i < n
        invariant
            n == items@.len(),
            0 <= i <= n,
            crate::primitives::map_entries_view(items@) == m@,
            buf@ =~= old(buf)@ + wire::enc_short(m@.len() as u16) + enc_string_pairs(
                m@.take(i as int),
            ),
        decreases n - i,
    {
        string(&items[i].0, buf);
        string(&items[i].1, buf);
        proof {
            assert(m@[i as int] == (items@[i as int].0@, items@[i as int].1@));
            lemma_enc_string_pairs_snoc(m@.take(i as int), m@[i as int]);
            assert(m@.take(i as int).push(m@[i as int]) =~= m@.take(i + 1));
        }
        i += 1;
    }
    proof {
        assert(m@.take(n as int) =~= m@);
        assert(buf@ =~= old(buf)@ + enc_string_map(m@));
    }
}

/// Appending the forms of one more key/list pair extends the concatenation.
proof fn lemma_enc_multimap_pairs_snoc(ps: Seq<(Seq<u8>, Seq<Seq<u8>>)>, p: (Seq<u8>, Seq<Seq<u8>>))
    ensures
        enc_multimap_pairs(ps.push(p)) == enc_multimap_pairs(ps) + enc_string(p.0)
            + enc_string_list(p.1),
    decreases ps.len(),
{
    if ps.len() == 0 {
        assert(ps.push(p)[0] == p);
        assert(ps.push(p).skip(1) =~= Seq::<(Seq<u8>, Seq<Seq<u8>>)>::empty());
        assert(enc_multimap_pairs(ps.push(p).skip(1)) == Seq::<u8>::empty());
        assert(enc_multimap_pairs(ps.push(p)) =~= enc_multimap_pairs(ps) + enc_string(p.0)
            + enc_string_list(p.1));
    } else {
        assert(ps.push(p)[0] == ps[0]);
        assert(ps.push(p).skip(1) =~= ps.skip(1).push(p));
        lemma_enc_multimap_pairs_snoc(ps.skip(1), p);
        assert(enc_multimap_pairs(ps.push(p)) =~= enc_multimap_pairs(ps) + enc_string(p.0)
            + enc_string_list(p.1));
    }
}

/// Appends a [string multimap]: 16-bit count, then the key/string-list
/// pairs in order.
pub fn string_multimap(m: &CqlStringMultiMap, buf: &mut Vec<u8>)
    ensures
        final(buf)@ == old(buf)@ + enc_string_multimap(m@),
{
    let mut prefix = short(m.len());
    buf.append(&mut prefix);
    let items = m.iter();
    let n = items.len();
    let mut i: usize = 0;
    while i < n
        invariant
            n == items@.len(),
            0 <= i <= n,
            crate::primitives::multimap_entries_view(items@) == m@,
            buf@ =~= old(buf)@ + wire::enc_short(m@.len() as u16) + enc_multimap_pairs(
                m@.take(i as int),
            ),
        decreases n - i,
    {
        string(&items[i].0, buf);
        string_list(&items[i].1, buf);
        proof {
            assert(m@[i as int] == (items@[i as int].0@, items@[i as int].1@));
            lemma_enc_multimap_pairs_snoc(m@.take(i as int), m@[i as int]);
            assert(m@.take(i as int).push(m@[i as int]) =~= m@.take(i + 1));
        }
        i += 1;
    }
    proof {
        assert(m@.take(n as int) =~= m@);
        assert(buf@ =~= old(buf)@ + enc_string_multimap(m@));
    }
}

} // verus!
