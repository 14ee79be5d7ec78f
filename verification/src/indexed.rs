//! Zero-copy decoding: instead of owning its bytes, a value records
//! where it stands inside the frame buffer — an offset and a length —
//! and the decoders walk a slice, handing back the remainder.

use vstd::prelude::*;

verus! {

use crate::wire::{Decoded, Needed, dec_short};
use crate::primitives::decode::DecodeError;

/// A [string] located inside a frame buffer: its payload starts at `at`
/// and runs for `len` bytes.
#[derive(Debug, PartialEq, Eq, Structural, Clone, Copy)]
pub struct CqlString {
    pub at: usize,
    pub len: u16,
}

/// A [string list] located inside a frame buffer: its first string starts
/// at `at`, and there are `len` of them.
#[derive(Debug, PartialEq, Eq, Structural, Clone, Copy)]
pub struct CqlStringList {
    pub at: usize,
    pub len: u16,
}

/// Reads a [short] and hands back the rest of the slice.
pub fn short(i: &[u8]) -> (r: Result<(&[u8], u16), DecodeError>)
    ensures
        ({
            match dec_short(i@) {
                Decoded::Got(v, k) => r matches Ok((rest, v2)) && rest@ == i@.skip(2) && v2 == v,
                Decoded::Missing(nd) => r == Err::<(&[u8], u16), _>(DecodeError::Incomplete(nd)),
                Decoded::Bad(f) => r == Err::<(&[u8], u16), _>(DecodeError::ParseError(f)),
            }
        }),
{
    match crate::primitives::decode::short(i, 0) {
        Ok((p, v)) => {
            proof {
                assert(i@.skip(0) =~= i@);
            }
            Ok((vstd::slice::slice_subrange(i, p, i.len()), v))
        },
        Err(e) => {
            proof {
                assert(i@.skip(0) =~= i@);
            }
            Err(e)
        },
    }
}

/// Reads a [string], recording where its payload stands: at `ofs + 2`
/// within the frame the slice was cut at `ofs` from.
pub fn string(ofs: usize, i: &[u8]) -> (r: Result<(&[u8], CqlString), DecodeError>)
    requires
        ofs + 2 <= usize::MAX,
    ensures
        ({
            match dec_short(i@) {
                Decoded::Got(n, _) => {
                    if i@.len() - 2 < n {
                        r == Err::<(&[u8], CqlString), _>(
                            DecodeError::Incomplete(Needed::Size(n as usize)),
                        )
                    } else {
                        r matches Ok((rest, cs)) && rest@ == i@.skip(2 + n) && cs.at == ofs + 2
                            && cs.len == n
                    }
                },
                Decoded::Missing(nd) => r == Err::<(&[u8], CqlString), _>(
                    DecodeError::Incomplete(nd),
                ),
                Decoded::Bad(f) => r == Err::<(&[u8], CqlString), _>(DecodeError::ParseError(f)),
            }
        }),
{
    proof {
        assert(i@.skip(0) =~= i@);
    }
    let (p, n) = match crate::primitives::decode::short(i, 0) {
        Ok(t) => t,
        Err(e) => {
            return Err(e);
        },
    };
    if i.len() - p < n as usize {
        return Err(DecodeError::Incomplete(Needed::Size(n as usize)));
    }
    let rest = vstd::slice::slice_subrange(i, p + n as usize, i.len());
    Ok((rest, CqlString { at: ofs + 2, len: n }))
}

/// Walks `n` [string]s without keeping them, reporting the bytes after
/// them; any shortfall inside the list is of unknown extent.
pub open spec fn scan_strings(b: Seq<u8>, n: int) -> Option<Seq<u8>>
    decreases n,
{
    if n <= 0 {
        Some(b)
    } else {
        match dec_short(b) {
            Decoded::Got(l, _) => {
                if b.len() - 2 < l {
                    None
                } else {
                    scan_strings(b.skip(2 + l), n - 1)
                }
            },
            _ => None,
        }
    }
}

/// Reads a [string list], recording where its strings start; a list cut
/// short anywhere inside wants an unknown amount of further input.
pub fn string_list(ofs: usize, i: &[u8]) -> (r: Result<(&[u8], CqlStringList), DecodeError>)
    requires
        ofs + 2 <= usize::MAX,
    ensures
        ({
            match dec_short(i@) {
                Decoded::Got(n, _) => {
                    match scan_strings(i@.skip(2), n as int) {
                        Some(rest) => r matches Ok((rem, l)) && rem@ == rest && l.at == ofs + 2
                            && l.len == n,
                        None => r == Err::<(&[u8], CqlStringList), _>(
                            DecodeError::Incomplete(Needed::Unknown),
                        ),
                    }
                },
                Decoded::Missing(nd) => r == Err::<(&[u8], CqlStringList), _>(
                    DecodeError::Incomplete(nd),
                ),
                Decoded::Bad(f) => r == Err::<(&[u8], CqlStringList), _>(
                    DecodeError::ParseError(f),
                ),
            }
        }),
{
    proof {
        assert(i@.skip(0) =~= i@);
    }
    let (p0, n) = match crate::primitives::decode::short(i, 0) {
        Ok(t) => t,
        Err(e) => {
            return Err(e);
        },
    };
    let mut cur = vstd::slice::slice_subrange(i, p0, i.len());
    let mut done: u16 = 0;
    while done < n
        invariant
            0 <= done <= n,
            dec_short(i@) == Decoded::<u16>::Got(n, 2),
            scan_strings(i@.skip(2), n as int) == scan_strings(cur@, n - done),
        decreases n - done,
    {
        let next = match string(0, cur) {
            Ok((rest, _)) => rest,
            Err(_) => {
                return Err(DecodeError::Incomplete(Needed::Unknown));
            },
        };
        proof {
            match dec_short(cur@) {
                Decoded::Got(l, _) => {
                    assert(next@ == cur@.skip(2 + l));
                },
                _ => {
                    assert(false);
                },
            }
        }
        cur = next;
        done = done + 1;
    }
    Ok((cur, CqlStringList { at: ofs + 2, len: n }))
}

} // verus!
