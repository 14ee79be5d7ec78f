//! Executable decoders for the wire primitives, verified against the
//! specification functions in [`crate::wire`].
//!
//! Each decoder reads at `pos` in its input and returns the advanced
//! position together with the value, or an error: `Incomplete` when more
//! input would let it finish, `ParseError` when the bytes are invalid
//! however much more arrives.

use vstd::prelude::*;

verus! {

use crate::wire::{
    self, Decoded, Needed, Fault, dec_short, dec_int, dec_long, dec_string, dec_long_string,
    dec_bytes, dec_strings, dec_string_list, dec_string_pairs, dec_string_map, dec_multimap_pairs,
    dec_string_multimap,
};
use crate::primitives::{
    CqlString, CqlLongString, CqlBytes, CqlConsistency, CqlStringList, CqlStringMap,
    CqlStringMultiMap, consistency_of_code, check_utf8,
};

/// The error of a decode call.
#[derive(Debug, PartialEq, Eq, Clone, Copy, Structural)]
pub enum DecodeError {
    /// The buffer holds too few bytes; the payload says how many are wanted.
    Incomplete(Needed),
    /// The bytes are not a valid encoding.
    ParseError(Fault),
}

/// A decoded value with the position just past its wire form, or an error.
pub type ParseResult<T> = Result<(usize, T), DecodeError>;

/// Decoding a consistency level: a [short] holding a known code.
pub open spec fn dec_consistency(b: Seq<u8>) -> Decoded<CqlConsistency> {
    match dec_short(b) {
        Decoded::Got(v, k) => match consistency_of_code(v) {
            Some(c) => Decoded::Got(c, k),
            None => Decoded::Bad(Fault::InvalidConsistency),
        },
        Decoded::Missing(nd) => Decoded::Missing(nd),
        Decoded::Bad(f) => Decoded::Bad(f),
    }
}

/// Reads a [short]: two bytes, big-endian.
pub fn short(i: &[u8], pos: usize) -> (r: ParseResult<u16>)
    requires
        pos <= i@.len(),
    ensures
        ({
            let d = dec_short(i@.skip(pos as int));
            match d {
                Decoded::Got(v, k) => r matches Ok((np, v2)) && np == pos + k && v2 == v,
                Decoded::Missing(nd) => r == Err::<(usize, u16), _>(DecodeError::Incomplete(nd)),
                Decoded::Bad(f) => r == Err::<(usize, u16), _>(DecodeError::ParseError(f)),
            }
        }),
{
    if i.len() - pos < 2 {
        return Err(DecodeError::Incomplete(Needed::Size(2)));
    }
    let v: u16 = (i[pos] as u16) * 256 + (i[pos + 1] as u16);
    proof {
        let sub = i@.skip(pos as int);
        wire::lemma_from_be_2(sub.take(2));
        assert(sub.take(2)[0] == i@[pos as int]);
        assert(sub.take(2)[1] == i@[pos as int + 1]);
    }
    Ok((pos + 2, v))
}

/// Reads an [int]: four bytes, big-endian, two's complement.
pub fn int32(i: &[u8], pos: usize) -> (r: ParseResult<i32>)
    requires
        pos <= i@.len(),
    ensures
        ({
            let d = dec_int(i@.skip(pos as int));
            match d {
                Decoded::Got(v, k) => r matches Ok((np, v2)) && np == pos + k && v2 == v,
                Decoded::Missing(nd) => r == Err::<(usize, i32), _>(DecodeError::Incomplete(nd)),
                Decoded::Bad(f) => r == Err::<(usize, i32), _>(DecodeError::ParseError(f)),
            }
        }),
{
    if i.len() - pos < 4 {
        return Err(DecodeError::Incomplete(Needed::Size(4)));
    }
    let u: u32 = (i[pos] as u32) * 0x100_0000 + (i[pos + 1] as u32) * 0x1_0000 + (i[pos + 2] as u32)
        * 256 + (i[pos + 3] as u32);
    proof {
        let sub = i@.skip(pos as int);
        wire::lemma_from_be_4(sub.take(4));
        assert(sub.take(4)[0] == i@[pos as int]);
        assert(sub.take(4)[1] == i@[pos as int + 1]);
        assert(sub.take(4)[2] == i@[pos as int + 2]);
        assert(sub.take(4)[3] == i@[pos as int + 3]);
    }
    let v: i32 = if u < 0x8000_0000 {
        u as i32
    } else {
        ((u as i64) - 0x1_0000_0000i64) as i32
    };
    proof {
        assert(v == wire::unrep_i32(wire::from_be(i@.skip(pos as int).take(4))));
    }
    Ok((pos + 4, v))
}

/// Reads a [long]: eight bytes, big-endian, two's complement.
pub fn long(i: &[u8], pos: usize) -> (r: ParseResult<i64>)
    requires
        pos <= i@.len(),
    ensures
        ({
            let d = dec_long(i@.skip(pos as int));
            match d {
                Decoded::Got(v, k) => r matches Ok((np, v2)) && np == pos + k && v2 == v,
                Decoded::Missing(nd) => r == Err::<(usize, i64), _>(DecodeError::Incomplete(nd)),
                Decoded::Bad(f) => r == Err::<(usize, i64), _>(DecodeError::ParseError(f)),
            }
        }),
{
    if i.len() - pos < 8 {
        return Err(DecodeError::Incomplete(Needed::Size(8)));
    }
    let u: u64 = (i[pos] as u64) * 0x100_0000_0000_0000 + (i[pos + 1] as u64) * 0x1_0000_0000_0000
        + (i[pos + 2] as u64) * 0x100_0000_0000 + (i[pos + 3] as u64) * 0x1_0000_0000 + (i[pos
        + 4] as u64) * 0x100_0000 + (i[pos + 5] as u64) * 0x1_0000 + (i[pos + 6] as u64) * 256 + (
    i[pos + 7] as u64);
    proof {
        let sub = i@.skip(pos as int);
        wire::lemma_from_be_8(sub.take(8));
        assert(sub.take(8)[0] == i@[pos as int]);
        assert(sub.take(8)[1] == i@[pos as int + 1]);
        assert(sub.take(8)[2] == i@[pos as int + 2]);
        assert(sub.take(8)[3] == i@[pos as int + 3]);
        assert(sub.take(8)[4] == i@[pos as int + 4]);
        assert(sub.take(8)[5] == i@[pos as int + 5]);
        assert(sub.take(8)[6] == i@[pos as int + 6]);
        assert(sub.take(8)[7] == i@[pos as int + 7]);
    }
    let v: i64 = if u < 0x8000_0000_0000_0000 {
        u as i64
    } else {
        ((u as i128) - 0x1_0000_0000_0000_0000i128) as i64
    };
    proof {
        assert(v == wire::unrep_i64(wire::from_be(i@.skip(pos as int).take(8))));
    }
    Ok((pos + 8, v))
}

/// Reads a [string]: 16-bit length, that many bytes, which must be valid
/// UTF-8.
pub fn string(i: &[u8], pos: usize) -> (r: ParseResult<CqlString>)
    requires
        pos <= i@.len(),
    ensures
        ({
            let d = dec_string(i@.skip(pos as int));
            match d {
                Decoded::Got(s, k) => r matches Ok((np, cs)) && np == pos + k && cs@ == s,
                Decoded::Missing(nd) => r == Err::<(usize, CqlString), _>(
                    DecodeError::Incomplete(nd),
                ),
                Decoded::Bad(f) => r == Err::<(usize, CqlString), _>(DecodeError::ParseError(f)),
            }
        }),
{
    let (p2, n) = match short(i, pos) {
        Ok(t) => t,
        Err(e) => {
            return Err(e);
        },
    };
    if i.len() - p2 < n as usize {
        return Err(DecodeError::Incomplete(Needed::Size(n as usize)));
    }
    let payload = vstd::slice::slice_subrange(i, p2, p2 + n as usize);
    proof {
        assert(payload@ =~= i@.skip(pos as int).subrange(2, 2 + n as int));
    }
    if !check_utf8(payload) {
        return Err(DecodeError::ParseError(Fault::InvalidUtf8));
    }
    let v = vstd::slice::slice_to_vec(payload);
    Ok((p2 + n as usize, CqlString::from(v)))
}

/// Reads a [long string]: 32-bit length, that many bytes, which must be
/// valid UTF-8; a negative length is an invalid encoding.
pub fn long_string(i: &[u8], pos: usize) -> (r: ParseResult<CqlLongString>)
    requires
        pos <= i@.len(),
    ensures
        ({
            let d = dec_long_string(i@.skip(pos as int));
            match d {
                Decoded::Got(s, k) => r matches Ok((np, cs)) && np == pos + k && cs@ == s,
                Decoded::Missing(nd) => r == Err::<(usize, CqlLongString), _>(
                    DecodeError::Incomplete(nd),
                ),
                Decoded::Bad(f) => r == Err::<(usize, CqlLongString), _>(
                    DecodeError::ParseError(f),
                ),
            }
        }),
{
    let (p2, n) = match int32(i, pos) {
        Ok(t) => t,
        Err(e) => {
            return Err(e);
        },
    };
    if n < 0 {
        return Err(DecodeError::ParseError(Fault::InvalidLength));
    }
    if i.len() - p2 < n as usize {
        return Err(DecodeError::Incomplete(Needed::Size(n as usize)));
    }
    let payload = vstd::slice::slice_subrange(i, p2, p2 + n as usize);
    proof {
        assert(payload@ =~= i@.skip(pos as int).subrange(4, 4 + n as int));
    }
    if !check_utf8(payload) {
        return Err(DecodeError::ParseError(Fault::InvalidUtf8));
    }
    let v = vstd::slice::slice_to_vec(payload);
    Ok((p2 + n as usize, CqlLongString::from(v)))
}

/// Reads a [bytes] value: 32-bit signed length; -1 is the null value,
/// other negative lengths are an invalid encoding.
pub fn bytes(i: &[u8], pos: usize) -> (r: ParseResult<CqlBytes>)
    requires
        pos <= i@.len(),
    ensures
        ({
            let d = dec_bytes(i@.skip(pos as int));
            match d {
                Decoded::Got(s, k) => r matches Ok((np, cb)) && np == pos + k && cb@ == s,
                Decoded::Missing(nd) => r == Err::<(usize, CqlBytes), _>(
                    DecodeError::Incomplete(nd),
                ),
                Decoded::Bad(f) => r == Err::<(usize, CqlBytes), _>(DecodeError::ParseError(f)),
            }
        }),
{
    let (p2, n) = match int32(i, pos) {
        Ok(t) => t,
        Err(e) => {
            return Err(e);
        },
    };
    if n == -1 {
        return Ok((p2, CqlBytes::null_value()));
    }
    if n < -1 {
        return Err(DecodeError::ParseError(Fault::InvalidLength));
    }
    if i.len() - p2 < n as usize {
        return Err(DecodeError::Incomplete(Needed::Size(n as usize)));
    }
    let payload = vstd::slice::slice_subrange(i, p2, p2 + n as usize);
    proof {
        assert(payload@ =~= i@.skip(pos as int).subrange(4, 4 + n as int));
    }
    let v = vstd::slice::slice_to_vec(payload);
    Ok((p2 + n as usize, CqlBytes::from(v)))
}

/// Reads a consistency level: a [short] holding one of the defined codes.
pub fn consistency(i: &[u8], pos: usize) -> (r: ParseResult<CqlConsistency>)
    requires
        pos <= i@.len(),
    ensures
        ({
            let d = dec_consistency(i@.skip(pos as int));
            match d {
                Decoded::Got(c, k) => r matches Ok((np, c2)) && np == pos + k && c2 == c,
                Decoded::Missing(nd) => r == Err::<(usize, CqlConsistency), _>(
                    DecodeError::Incomplete(nd),
                ),
                Decoded::Bad(f) => r == Err::<(usize, CqlConsistency), _>(
                    DecodeError::ParseError(f),
                ),
            }
        }),
{
    let (p2, v) = match short(i, pos) {
        Ok(t) => t,
        Err(e) => {
            return Err(e);
        },
    };
    match CqlConsistency::try_from(v) {
        Ok(c) => Ok((p2, c)),
        Err(f) => Err(DecodeError::ParseError(f)),
    }
}

/// Reads a [string list]: a 16-bit count, then that many strings.
pub fn string_list(i: &[u8], pos: usize) -> (r: ParseResult<CqlStringList>)
    requires
        pos <= i@.len(),
    ensures
        ({
            let d = dec_string_list(i@.skip(pos as int));
            match d {
                Decoded::Got(ss, k) => r matches Ok((np, l)) && np == pos + k && pos <= np <= i@.len() && l@ == ss,
                Decoded::Missing(nd) => r == Err::<(usize, CqlStringList), _>(
                    DecodeError::Incomplete(nd),
                ),
                Decoded::Bad(f) => r == Err::<(usize, CqlStringList), _>(
                    DecodeError::ParseError(f),
                ),
            }
        }),
{
    let (p0, n) = match short(i, pos) {
        Ok(t) => t,
        Err(e) => {
            return Err(e);
        },
    };
    let ghost b0 = i@.skip(p0 as int);
    proof {
        assert(i@.skip(pos as int).skip(2) =~= b0);
    }
    let mut acc: Vec<CqlString> = Vec::new();
    let mut p: usize = p0;
    let mut j: u16 = 0;
    while j < n
        invariant
            pos <= p0 <= p <= i@.len(),
            0 <= j <= n,
            p0 == pos + 2,
            dec_short(i@.skip(pos as int)) == Decoded::<u16>::Got(n, 2),
            b0 == i@.skip(p0 as int),
            b0 == i@.skip(pos as int).skip(2),
            acc@.len() == j,
            ({
                let tail = dec_strings(i@.skip(p as int), n - j);
                let whole = dec_strings(b0, n as int);
                match tail {
                    Decoded::Got(ss, k) => whole == Decoded::<Seq<Seq<u8>>>::Got(
                        acc@.map_values(|c: CqlString| c@) + ss,
                        (p - p0) + k,
                    ),
                    Decoded::Missing(nd) => whole == Decoded::<Seq<Seq<u8>>>::Missing(nd),
                    Decoded::Bad(f) => whole == Decoded::<Seq<Seq<u8>>>::Bad(f),
                }
            }),
        decreases n - j,
    {
        let ghost views = acc@.map_values(|c: CqlString| c@);
        let (p1, cs) = match string(i, p) {
            Ok(t) => t,
            Err(e) => {
                return Err(e);
            },
        };
        proof {
            assert(i@.skip(p as int).skip(p1 - p) =~= i@.skip(p1 as int));
        }
        acc.push(cs);
        proof {
            assert(acc@.map_values(|c: CqlString| c@) =~= views.push(cs@));
            let tail2 = dec_strings(i@.skip(p1 as int), n - j - 1);
            match tail2 {
                Decoded::Got(ss, k) => {
                    assert(views.push(cs@) + ss =~= views + (seq![cs@] + ss));
                },
                Decoded::Missing(_) => {},
                Decoded::Bad(_) => {},
            }
        }
        p = p1;
        j += 1;
    }
    proof {
        assert(dec_strings(i@.skip(p as int), 0) == Decoded::<Seq<Seq<u8>>>::Got(
            Seq::<Seq<u8>>::empty(),
            0,
        ));
        assert(acc@.map_values(|c: CqlString| c@) + Seq::<Seq<u8>>::empty() =~= acc@.map_values(
            |c: CqlString| c@,
        ));
    }
    proof {
        assert(dec_strings(b0, n as int) == Decoded::<Seq<Seq<u8>>>::Got(
            acc@.map_values(|c: CqlString| c@),
            p - p0,
        ));
    }
    let l = CqlStringList::unchecked_from(acc);
    Ok((p, l))
}

/// Reads a [string map]: a 16-bit count, then that many key/value pairs.
pub fn string_map(i: &[u8], pos: usize) -> (r: ParseResult<CqlStringMap>)
    requires
        pos <= i@.len(),
    ensures
        ({
            let d = dec_string_map(i@.skip(pos as int));
            match d {
                Decoded::Got(ps, k) => r matches Ok((np, m)) && np == pos + k && pos <= np <= i@.len() && m@ == ps,
                Decoded::Missing(nd) => r == Err::<(usize, CqlStringMap), _>(
                    DecodeError::Incomplete(nd),
                ),
                Decoded::Bad(f) => r == Err::<(usize, CqlStringMap), _>(DecodeError::ParseError(f)),
            }
        }),
{
    let (p0, n) = match short(i, pos) {
        Ok(t) => t,
        Err(e) => {
            return Err(e);
        },
    };
    let ghost b0 = i@.skip(p0 as int);
    proof {
        assert(i@.skip(pos as int).skip(2) =~= b0);
    }
    let mut acc: Vec<(CqlString, CqlString)> = Vec::new();
    let mut p: usize = p0;
    let mut j: u16 = 0;
    while j < n
        invariant
            pos <= p0 <= p <= i@.len(),
            0 <= j <= n,
            p0 == pos + 2,
            dec_short(i@.skip(pos as int)) == Decoded::<u16>::Got(n, 2),
            b0 == i@.skip(p0 as int),
            b0 == i@.skip(pos as int).skip(2),
            acc@.len() == j,
            ({
                let tail = dec_string_pairs(i@.skip(p as int), n - j);
                let whole = dec_string_pairs(b0, n as int);
                match tail {
                    Decoded::Got(ps, k) => whole == Decoded::<Seq<(Seq<u8>, Seq<u8>)>>::Got(
                        crate::primitives::map_entries_view(acc@) + ps,
                        (p - p0) + k,
                    ),
                    Decoded::Missing(nd) => whole == Decoded::<Seq<(Seq<u8>, Seq<u8>)>>::Missing(
                        nd,
                    ),
                    Decoded::Bad(f) => whole == Decoded::<Seq<(Seq<u8>, Seq<u8>)>>::Bad(f),
                }
            }),
        decreases n - j,
    {
        let ghost views = crate::primitives::map_entries_view(acc@);
        let (p1, key) = match string(i, p) {
            Ok(t) => t,
            Err(e) => {
                return Err(e);
            },
        };
        proof {
            assert(i@.skip(p as int).skip(p1 - p) =~= i@.skip(p1 as int));
        }
        let (p2, val) = match string(i, p1) {
            Ok(t) => t,
            Err(e) => {
                return Err(e);
            },
        };
        proof {
            assert(i@.skip(p1 as int).skip(p2 - p1) =~= i@.skip(p2 as int));
            assert(i@.skip(p as int).skip((p1 - p) + (p2 - p1)) =~= i@.skip(p2 as int));
        }
        let ghost kv = (key@, val@);
        acc.push((key, val));
        proof {
            assert(crate::primitives::map_entries_view(acc@) =~= views.push(kv));
            let tail2 = dec_string_pairs(i@.skip(p2 as int), n - j - 1);
            match tail2 {
                Decoded::Got(ps, k) => {
                    assert(views.push(kv) + ps =~= views + (seq![kv] + ps));
                },
                Decoded::Missing(_) => {},
                Decoded::Bad(_) => {},
            }
        }
        p = p2;
        j += 1;
    }
    proof {
        assert(dec_string_pairs(i@.skip(p as int), 0) == Decoded::<Seq<(Seq<u8>, Seq<u8>)>>::Got(
            Seq::<(Seq<u8>, Seq<u8>)>::empty(),
            0,
        ));
        assert(crate::primitives::map_entries_view(acc@) + Seq::<(Seq<u8>, Seq<u8>)>::empty()
            =~= crate::primitives::map_entries_view(acc@));
    }
    proof {
        assert(dec_string_pairs(b0, n as int) == Decoded::<Seq<(Seq<u8>, Seq<u8>)>>::Got(
            crate::primitives::map_entries_view(acc@),
            p - p0,
        ));
    }
    let m = CqlStringMap::unchecked_from(acc);
    Ok((p, m))
}

/// Reads a [string multimap]: a 16-bit count, then that many pairs of a
/// key and a string list.
pub fn string_multimap(i: &[u8], pos: usize) -> (r: ParseResult<CqlStringMultiMap>)
    requires
        pos <= i@.len(),
    ensures
        ({
            let d = dec_string_multimap(i@.skip(pos as int));
            match d {
                Decoded::Got(ps, k) => r matches Ok((np, m)) && np == pos + k && pos <= np <= i@.len() && m@ == ps,
                Decoded::Missing(nd) => r == Err::<(usize, CqlStringMultiMap), _>(
                    DecodeError::Incomplete(nd),
                ),
                Decoded::Bad(f) => r == Err::<(usize, CqlStringMultiMap), _>(
                    DecodeError::ParseError(f),
                ),
            }
        }),
{
    let (p0, n) = match short(i, pos) {
        Ok(t) => t,
        Err(e) => {
            return Err(e);
        },
    };
    let ghost b0 = i@.skip(p0 as int);
    proof {
        assert(i@.skip(pos as int).skip(2) =~= b0);
    }
    let mut acc: Vec<(CqlString, CqlStringList)> = Vec::new();
    let mut p: usize = p0;
    let mut j: u16 = 0;
    while j < n
        invariant
            pos <= p0 <= p <= i@.len(),
            0 <= j <= n,
            p0 == pos + 2,
            dec_short(i@.skip(pos as int)) == Decoded::<u16>::Got(n, 2),
            b0 == i@.skip(p0 as int),
            b0 == i@.skip(pos as int).skip(2),
            acc@.len() == j,
            ({
                let tail = dec_multimap_pairs(i@.skip(p as int), n - j);
                let whole = dec_multimap_pairs(b0, n as int);
                match tail {
                    Decoded::Got(ps, k) => whole == Decoded::<Seq<(Seq<u8>, Seq<Seq<u8>>)>>::Got(
                        crate::primitives::multimap_entries_view(acc@) + ps,
                        (p - p0) + k,
                    ),
                    Decoded::Missing(nd) => whole == Decoded::<
                        Seq<(Seq<u8>, Seq<Seq<u8>>)>,
                    >::Missing(nd),
                    Decoded::Bad(f) => whole == Decoded::<Seq<(Seq<u8>, Seq<Seq<u8>>)>>::Bad(f),
                }
            }),
        decreases n - j,
    {
        let ghost views = crate::primitives::multimap_entries_view(acc@);
        let (p1, key) = match string(i, p) {
            Ok(t) => t,
            Err(e) => {
                return Err(e);
            },
        };
        proof {
            assert(i@.skip(p as int).skip(p1 - p) =~= i@.skip(p1 as int));
        }
        let (p2, vals) = match string_list(i, p1) {
            Ok(t) => t,
            Err(e) => {
                return Err(e);
            },
        };
        proof {
            assert(i@.skip(p1 as int).skip(p2 - p1) =~= i@.skip(p2 as int));
            assert(i@.skip(p as int).skip((p1 - p) + (p2 - p1)) =~= i@.skip(p2 as int));
        }
        let ghost kv = (key@, vals@);
        acc.push((key, vals));
        proof {
            assert(crate::primitives::multimap_entries_view(acc@) =~= views.push(kv));
            let tail2 = dec_multimap_pairs(i@.skip(p2 as int), n - j - 1);
            match tail2 {
                Decoded::Got(ps, k) => {
                    assert(views.push(kv) + ps =~= views + (seq![kv] + ps));
                },
                Decoded::Missing(_) => {},
                Decoded::Bad(_) => {},
            }
        }
        p = p2;
        j += 1;
    }
    proof {
        assert(dec_multimap_pairs(i@.skip(p as int), 0) == Decoded::<
            Seq<(Seq<u8>, Seq<Seq<u8>>)>,
        >::Got(Seq::<(Seq<u8>, Seq<Seq<u8>>)>::empty(), 0));
        assert(crate::primitives::multimap_entries_view(acc@) + Seq::<
            (Seq<u8>, Seq<Seq<u8>>),
        >::empty() =~= crate::primitives::multimap_entries_view(acc@));
    }
    proof {
        assert(dec_multimap_pairs(b0, n as int) == Decoded::<Seq<(Seq<u8>, Seq<Seq<u8>>)>>::Got(
            crate::primitives::multimap_entries_view(acc@),
            p - p0,
        ));
    }
    let m = CqlStringMultiMap::unchecked_from(acc);
    Ok((p, m))
}

/// Decoding the encoding of a consistency level yields it back and
/// consumes exactly its two bytes, whatever follows it.
pub proof fn lemma_consistency_round_trip(c: CqlConsistency, rest: Seq<u8>)
    ensures
        dec_consistency(crate::primitives::encode::enc_consistency(c) + rest) == Decoded::<
            CqlConsistency,
        >::Got(c, 2),
{
    crate::wire::lemma_short_round_trip(crate::primitives::consistency_code(c), rest);
    crate::primitives::lemma_consistency_code_round_trip(c);
}

} // verus!
