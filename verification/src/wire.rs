//! The byte-level specification of the protocol's wire forms.
//!
//! Every primitive the protocol uses — big-endian integers, length-prefixed
//! strings and containers — is given a mathematical encoding function on
//! sequences, and a total decoding function that reports a value together
//! with the number of bytes consumed, a demand for more input, or a
//! structural fault.  The executable encoders and decoders elsewhere in the
//! crate are specified against these functions, so the round-trip laws
//! proved here carry over to the running code.

use vstd::prelude::*;

verus! {

use vstd::arithmetic::div_mod::{
    lemma_fundamental_div_mod, lemma_multiply_divide_lt, lemma_small_mod, lemma_div_denominator,
};
use vstd::utf8::valid_utf8;

/// How much input a decoder still wants when it cannot finish: either an
/// exact total it announced, or an amount it cannot know in advance.
#[derive(Debug, PartialEq, Eq, Clone, Copy, Structural)]
pub enum Needed {
    Unknown,
    Size(usize),
}

/// What is structurally wrong with a byte sequence that cannot be decoded,
/// however much further input arrives.
#[derive(Debug, PartialEq, Eq, Clone, Copy, Structural)]
pub enum Fault {
    InvalidUtf8,
    InvalidLength,
    InvalidConsistency,
}

/// The outcome of decoding a prefix of a byte sequence: a value and the
/// number of bytes it occupied, a request for more input, or a fault in
/// the bytes themselves.  Used in specifications only.
pub enum Decoded<T> {
    Got(T, int),
    Missing(Needed),
    Bad(Fault),
}

// ---------------------------------------------------------------------------
// Big-endian integers
// ---------------------------------------------------------------------------

/// 256 to the power `n`.
pub open spec fn pow256(n: nat) -> nat
    decreases n,
{
    if n == 0 {
        1
    } else {
        256 * pow256((n - 1) as nat)
    }
}

/// The `n`-byte big-endian form of `v` (modulo 256^n).
pub open spec fn be_bytes(v: nat, n: nat) -> Seq<u8>
    decreases n,
{
    if n == 0 {
        seq![]
    } else {
        be_bytes(v / 256, (n - 1) as nat) + seq![(v % 256) as u8]
    }
}

/// The value of a big-endian byte sequence.
pub open spec fn from_be(s: Seq<u8>) -> nat
    decreases s.len(),
{
    if s.len() == 0 {
        0
    } else {
        (from_be(s.drop_last()) * 256 + s.last()) as nat
    }
}

/// The concrete powers of 256 that the protocol's widths use.
pub proof fn lemma_pow256_values()
    ensures
        pow256(2) == 0x1_0000,
        pow256(4) == 0x1_0000_0000,
        pow256(8) == 0x1_0000_0000_0000_0000,
{
    assert(pow256(0) == 1);
    assert(pow256(1) == 256);
    assert(pow256(2) == 0x1_0000);
    assert(pow256(3) == 0x100_0000);
    assert(pow256(4) == 0x1_0000_0000);
    assert(pow256(5) == 0x100_0000_0000);
    assert(pow256(6) == 0x1_0000_0000_0000);
    assert(pow256(7) == 0x100_0000_0000_0000);
    assert(pow256(8) == 0x1_0000_0000_0000_0000);
}

pub proof fn lemma_pow256_positive(n: nat)
    ensures
        pow256(n) >= 1,
    decreases n,
{
    if n > 0 {
        lemma_pow256_positive((n - 1) as nat);
    }
}

pub proof fn lemma_be_bytes_len(v: nat, n: nat)
    ensures
        be_bytes(v, n).len() == n,
    decreases n,
{
    if n > 0 {
        lemma_be_bytes_len(v / 256, (n - 1) as nat);
    }
}

/// Reading back the big-endian form recovers the value, provided it fits.
pub proof fn lemma_from_be_be_bytes(v: nat, n: nat)
    requires
        v < pow256(n),
    ensures
        from_be(be_bytes(v, n)) == v,
    decreases n,
{
    if n > 0 {
        let s = be_bytes(v, n);
        lemma_be_bytes_len(v / 256, (n - 1) as nat);
        assert(s.drop_last() =~= be_bytes(v / 256, (n - 1) as nat));
        assert(v / 256 < pow256((n - 1) as nat)) by {
            lemma_pow256_positive((n - 1) as nat);
            lemma_multiply_divide_lt(v as int, 256, pow256((n - 1) as nat) as int);
        }
        lemma_from_be_be_bytes(v / 256, (n - 1) as nat);
        lemma_fundamental_div_mod(v as int, 256);
    }
}

/// A big-endian byte sequence of length `n` holds a value below 256^n.
pub proof fn lemma_from_be_bound(s: Seq<u8>)
    ensures
        from_be(s) < pow256(s.len() as nat),
    decreases s.len(),
{
    if s.len() > 0 {
        lemma_from_be_bound(s.drop_last());
    }
}

// ---------------------------------------------------------------------------
// Protocol scalars
// ---------------------------------------------------------------------------

/// Two's-complement representation of a 32-bit signed value as a natural.
pub open spec fn rep_i32(v: i32) -> nat {
    if v >= 0 {
        v as nat
    } else {
        (v + 0x1_0000_0000) as nat
    }
}

/// Two's-complement representation of a 64-bit signed value as a natural.
pub open spec fn rep_i64(v: i64) -> nat {
    if v >= 0 {
        v as nat
    } else {
        (v + 0x1_0000_0000_0000_0000) as nat
    }
}

/// The signed value a 32-bit two's-complement representation stands for.
pub open spec fn unrep_i32(u: nat) -> i32 {
    if u < 0x8000_0000 {
        u as i32
    } else {
        (u - 0x1_0000_0000) as i32
    }
}

/// The signed value a 64-bit two's-complement representation stands for.
pub open spec fn unrep_i64(u: nat) -> i64 {
    if u < 0x8000_0000_0000_0000 {
        u as i64
    } else {
        (u - 0x1_0000_0000_0000_0000) as i64
    }
}

/// Wire form of a [short]: two bytes, big-endian, unsigned.
pub open spec fn enc_short(v: u16) -> Seq<u8> {
    be_bytes(v as nat, 2)
}

/// Wire form of an [int]: four bytes, big-endian, two's complement.
pub open spec fn enc_int(v: i32) -> Seq<u8> {
    be_bytes(rep_i32(v), 4)
}

/// Wire form of a [long]: eight bytes, big-endian, two's complement.
pub open spec fn enc_long(v: i64) -> Seq<u8> {
    be_bytes(rep_i64(v), 8)
}

pub open spec fn dec_short(b: Seq<u8>) -> Decoded<u16> {
    if b.len() < 2 {
        Decoded::Missing(Needed::Size(2))
    } else {
        Decoded::Got(from_be(b.take(2)) as u16, 2)
    }
}

pub open spec fn dec_int(b: Seq<u8>) -> Decoded<i32> {
    if b.len() < 4 {
        Decoded::Missing(Needed::Size(4))
    } else {
        Decoded::Got(unrep_i32(from_be(b.take(4))), 4)
    }
}

pub open spec fn dec_long(b: Seq<u8>) -> Decoded<i64> {
    if b.len() < 8 {
        Decoded::Missing(Needed::Size(8))
    } else {
        Decoded::Got(unrep_i64(from_be(b.take(8))), 8)
    }
}

// ---------------------------------------------------------------------------
// Strings and bytes
// ---------------------------------------------------------------------------

/// Wire form of a [string]: 16-bit length prefix, then the UTF-8 bytes.
pub open spec fn enc_string(s: Seq<u8>) -> Seq<u8> {
    enc_short(s.len() as u16) + s
}

/// Wire form of a [long string]: 32-bit length prefix, then the UTF-8 bytes.
pub open spec fn enc_long_string(s: Seq<u8>) -> Seq<u8> {
    enc_int(s.len() as i32) + s
}

/// Wire form of [bytes]: 32-bit signed length prefix; length -1 encodes the
/// null value, distinct from the empty one.
pub open spec fn enc_bytes(b: Option<Seq<u8>>) -> Seq<u8> {
    match b {
        Some(s) => enc_int(s.len() as i32) + s,
        None => enc_int(-1i32),
    }
}

pub open spec fn dec_string(b: Seq<u8>) -> Decoded<Seq<u8>> {
    match dec_short(b) {
        Decoded::Got(n, k) => {
            if b.len() - k < n {
                Decoded::Missing(Needed::Size(n as usize))
            } else {
                let payload = b.subrange(k, k + n);
                if valid_utf8(payload) {
                    Decoded::Got(payload, k + n)
                } else {
                    Decoded::Bad(Fault::InvalidUtf8)
                }
            }
        },
        Decoded::Missing(nd) => Decoded::Missing(nd),
        Decoded::Bad(f) => Decoded::Bad(f),
    }
}

pub open spec fn dec_long_string(b: Seq<u8>) -> Decoded<Seq<u8>> {
    match dec_int(b) {
        Decoded::Got(n, k) => {
            if n < 0 {
                Decoded::Bad(Fault::InvalidLength)
            } else if b.len() - k < n {
                Decoded::Missing(Needed::Size(n as usize))
            } else {
                let payload = b.subrange(k, k + n);
                if valid_utf8(payload) {
                    Decoded::Got(payload, k + n)
                } else {
                    Decoded::Bad(Fault::InvalidUtf8)
                }
            }
        },
        Decoded::Missing(nd) => Decoded::Missing(nd),
        Decoded::Bad(f) => Decoded::Bad(f),
    }
}

pub open spec fn dec_bytes(b: Seq<u8>) -> Decoded<Option<Seq<u8>>> {
    match dec_int(b) {
        Decoded::Got(n, k) => {
            if n == -1 {
                Decoded::Got(None, k)
            } else if n < -1 {
                Decoded::Bad(Fault::InvalidLength)
            } else if b.len() - k < n {
                Decoded::Missing(Needed::Size(n as usize))
            } else {
                Decoded::Got(Some(b.subrange(k, k + n)), k + n)
            }
        },
        Decoded::Missing(nd) => Decoded::Missing(nd),
        Decoded::Bad(f) => Decoded::Bad(f),
    }
}

// ---------------------------------------------------------------------------
// Containers of strings
// ---------------------------------------------------------------------------

/// The concatenated wire forms of a sequence of [string]s.
pub open spec fn enc_strings(ss: Seq<Seq<u8>>) -> Seq<u8>
    decreases ss.len(),
{
    if ss.len() == 0 {
        seq![]
    } else {
        enc_string(ss[0]) + enc_strings(ss.skip(1))
    }
}

/// Wire form of a [string list]: 16-bit count, then that many strings.
pub open spec fn enc_string_list(ss: Seq<Seq<u8>>) -> Seq<u8> {
    enc_short(ss.len() as u16) + enc_strings(ss)
}

/// The concatenated wire forms of a sequence of [string] pairs.
pub open spec fn enc_string_pairs(ps: Seq<(Seq<u8>, Seq<u8>)>) -> Seq<u8>
    decreases ps.len(),
{
    if ps.len() == 0 {
        seq![]
    } else {
        enc_string(ps[0].0) + enc_string(ps[0].1) + enc_string_pairs(ps.skip(1))
    }
}

/// Wire form of a [string map]: 16-bit count, then that many key/value pairs.
pub open spec fn enc_string_map(ps: Seq<(Seq<u8>, Seq<u8>)>) -> Seq<u8> {
    enc_short(ps.len() as u16) + enc_string_pairs(ps)
}

/// The concatenated wire forms of a sequence of key/string-list pairs.
pub open spec fn enc_multimap_pairs(ps: Seq<(Seq<u8>, Seq<Seq<u8>>)>) -> Seq<u8>
    decreases ps.len(),
{
    if ps.len() == 0 {
        seq![]
    } else {
        enc_string(ps[0].0) + enc_string_list(ps[0].1) + enc_multimap_pairs(ps.skip(1))
    }
}

/// Wire form of a [string multimap]: 16-bit count, then that many
/// key/string-list pairs.
pub open spec fn enc_string_multimap(ps: Seq<(Seq<u8>, Seq<Seq<u8>>)>) -> Seq<u8> {
    enc_short(ps.len() as u16) + enc_multimap_pairs(ps)
}

/// Decodes `n` consecutive [string]s.
pub open spec fn dec_strings(b: Seq<u8>, n: int) -> Decoded<Seq<Seq<u8>>>
    decreases n,
{
    if n <= 0 {
        Decoded::Got(seq![], 0)
    } else {
        match dec_string(b) {
            Decoded::Got(s, k) => {
                match dec_strings(b.skip(k), n - 1) {
                    Decoded::Got(ss, k2) => Decoded::Got(seq![s] + ss, k + k2),
                    Decoded::Missing(nd) => Decoded::Missing(nd),
                    Decoded::Bad(f) => Decoded::Bad(f),
                }
            },
            Decoded::Missing(nd) => Decoded::Missing(nd),
            Decoded::Bad(f) => Decoded::Bad(f),
        }
    }
}

pub open spec fn dec_string_list(b: Seq<u8>) -> Decoded<Seq<Seq<u8>>> {
    match dec_short(b) {
        Decoded::Got(n, k) => {
            match dec_strings(b.skip(k), n as int) {
                Decoded::Got(ss, k2) => Decoded::Got(ss, k + k2),
                Decoded::Missing(nd) => Decoded::Missing(nd),
                Decoded::Bad(f) => Decoded::Bad(f),
            }
        },
        Decoded::Missing(nd) => Decoded::Missing(nd),
        Decoded::Bad(f) => Decoded::Bad(f),
    }
}

/// Decodes `n` consecutive [string] pairs.
pub open spec fn dec_string_pairs(b: Seq<u8>, n: int) -> Decoded<Seq<(Seq<u8>, Seq<u8>)>>
    decreases n,
{
    if n <= 0 {
        Decoded::Got(seq![], 0)
    } else {
        match dec_string(b) {
            Decoded::Got(key, k1) => {
                match dec_string(b.skip(k1)) {
                    Decoded::Got(val, k2) => {
                        match dec_string_pairs(b.skip(k1 + k2), n - 1) {
                            Decoded::Got(ps, k3) => Decoded::Got(seq![(key, val)] + ps, k1 + k2 + k3),
                            Decoded::Missing(nd) => Decoded::Missing(nd),
                            Decoded::Bad(f) => Decoded::Bad(f),
                        }
                    },
                    Decoded::Missing(nd) => Decoded::Missing(nd),
                    Decoded::Bad(f) => Decoded::Bad(f),
                }
            },
            Decoded::Missing(nd) => Decoded::Missing(nd),
            Decoded::Bad(f) => Decoded::Bad(f),
        }
    }
}

pub open spec fn dec_string_map(b: Seq<u8>) -> Decoded<Seq<(Seq<u8>, Seq<u8>)>> {
    match dec_short(b) {
        Decoded::Got(n, k) => {
            match dec_string_pairs(b.skip(k), n as int) {
                Decoded::Got(ps, k2) => Decoded::Got(ps, k + k2),
                Decoded::Missing(nd) => Decoded::Missing(nd),
                Decoded::Bad(f) => Decoded::Bad(f),
            }
        },
        Decoded::Missing(nd) => Decoded::Missing(nd),
        Decoded::Bad(f) => Decoded::Bad(f),
    }
}

/// Decodes `n` consecutive key/string-list pairs.
pub open spec fn dec_multimap_pairs(b: Seq<u8>, n: int) -> Decoded<Seq<(Seq<u8>, Seq<Seq<u8>>)>>
    decreases n,
{
    if n <= 0 {
        Decoded::Got(seq![], 0)
    } else {
        match dec_string(b) {
            Decoded::Got(key, k1) => {
                match dec_string_list(b.skip(k1)) {
                    Decoded::Got(vals, k2) => {
                        match dec_multimap_pairs(b.skip(k1 + k2), n - 1) {
                            Decoded::Got(ps, k3) => Decoded::Got(
                                seq![(key, vals)] + ps,
                                k1 + k2 + k3,
                            ),
                            Decoded::Missing(nd) => Decoded::Missing(nd),
                            Decoded::Bad(f) => Decoded::Bad(f),
                        }
                    },
                    Decoded::Missing(nd) => Decoded::Missing(nd),
                    Decoded::Bad(f) => Decoded::Bad(f),
                }
            },
            Decoded::Missing(nd) => Decoded::Missing(nd),
            Decoded::Bad(f) => Decoded::Bad(f),
        }
    }
}

pub open spec fn dec_string_multimap(b: Seq<u8>) -> Decoded<Seq<(Seq<u8>, Seq<Seq<u8>>)>> {
    match dec_short(b) {
        Decoded::Got(n, k) => {
            match dec_multimap_pairs(b.skip(k), n as int) {
                Decoded::Got(ps, k2) => Decoded::Got(ps, k + k2),
                Decoded::Missing(nd) => Decoded::Missing(nd),
                Decoded::Bad(f) => Decoded::Bad(f),
            }
        },
        Decoded::Missing(nd) => Decoded::Missing(nd),
        Decoded::Bad(f) => Decoded::Bad(f),
    }
}

// ---------------------------------------------------------------------------
// Round-trip laws for the scalar forms
// ---------------------------------------------------------------------------

/// Decoding the encoding of a [short] yields the value back and consumes
/// exactly its two bytes, whatever follows it.
pub proof fn lemma_short_round_trip(v: u16, rest: Seq<u8>)
    ensures
        enc_short(v).len() == 2,
        dec_short(enc_short(v) + rest) == Decoded::<u16>::Got(v, 2),
{
    lemma_be_bytes_len(v as nat, 2);
    let whole = enc_short(v) + rest;
    assert(whole.take(2) =~= enc_short(v));
    lemma_pow256_values();
    lemma_from_be_be_bytes(v as nat, 2);
}

/// Decoding the encoding of an [int] yields the value back and consumes
/// exactly its four bytes, whatever follows it.
pub proof fn lemma_int_round_trip(v: i32, rest: Seq<u8>)
    ensures
        enc_int(v).len() == 4,
        dec_int(enc_int(v) + rest) == Decoded::<i32>::Got(v, 4),
{
    lemma_be_bytes_len(rep_i32(v), 4);
    let whole = enc_int(v) + rest;
    assert(whole.take(4) =~= enc_int(v));
    lemma_pow256_values();
    lemma_from_be_be_bytes(rep_i32(v), 4);
}

/// Decoding the encoding of a [long] yields the value back and consumes
/// exactly its eight bytes, whatever follows it.
pub proof fn lemma_long_round_trip(v: i64, rest: Seq<u8>)
    ensures
        enc_long(v).len() == 8,
        dec_long(enc_long(v) + rest) == Decoded::<i64>::Got(v, 8),
{
    lemma_be_bytes_len(rep_i64(v), 8);
    let whole = enc_long(v) + rest;
    assert(whole.take(8) =~= enc_long(v));
    lemma_pow256_values();
    lemma_from_be_be_bytes(rep_i64(v), 8);
}

// ---------------------------------------------------------------------------
// Digit expansions of the fixed-width forms
// ---------------------------------------------------------------------------

/// The two-byte big-endian form, written out digit by digit.
pub proof fn lemma_be_bytes_2(x: nat)
    requires
        x < 0x1_0000,
    ensures
        be_bytes(x, 2) =~= seq![(x / 256) as u8, (x % 256) as u8],
{
    reveal_with_fuel(be_bytes, 3);
    lemma_multiply_divide_lt(x as int, 256, 256);
    lemma_small_mod(x / 256, 256);
}

/// A value below its divisor divides to zero.
proof fn lemma_small_div_zero(x: nat, d: nat)
    ensures
        x < d && d > 0 ==> x / d == 0,
{
    if x < d && d > 0 {
        lemma_multiply_divide_lt(x as int, d as int, 1);
    }
}

/// The four-byte big-endian form, written out digit by digit.
pub proof fn lemma_be_bytes_4(x: nat)
    requires
        x < 0x1_0000_0000,
    ensures
        be_bytes(x, 4) =~= seq![
            ((x / 0x100_0000) % 256) as u8,
            ((x / 0x1_0000) % 256) as u8,
            ((x / 256) % 256) as u8,
            (x % 256) as u8,
        ],
{
    lemma_div_denominator(x as int, 256, 256);
    assert(x / 256 / 256 == x / 0x1_0000);
    lemma_div_denominator(x as int, 0x1_0000, 256);
    assert(x / 0x1_0000 / 256 == x / 0x100_0000);
    lemma_div_denominator(x as int, 0x100_0000, 256);
    assert(x / 0x100_0000 / 256 == x / 0x1_0000_0000);
    lemma_small_div_zero(x, 0x1_0000_0000);
    reveal_with_fuel(be_bytes, 5);
}

/// The eight-byte big-endian form, written out digit by digit.
pub proof fn lemma_be_bytes_8(x: nat)
    requires
        x < 0x1_0000_0000_0000_0000,
    ensures
        be_bytes(x, 8) =~= seq![
            ((x / 0x100_0000_0000_0000) % 256) as u8,
            ((x / 0x1_0000_0000_0000) % 256) as u8,
            ((x / 0x100_0000_0000) % 256) as u8,
            ((x / 0x1_0000_0000) % 256) as u8,
            ((x / 0x100_0000) % 256) as u8,
            ((x / 0x1_0000) % 256) as u8,
            ((x / 256) % 256) as u8,
            (x % 256) as u8,
        ],
{
    lemma_div_denominator(x as int, 256, 256);
    lemma_div_denominator(x as int, 0x1_0000, 256);
    lemma_div_denominator(x as int, 0x100_0000, 256);
    lemma_div_denominator(x as int, 0x1_0000_0000, 256);
    lemma_div_denominator(x as int, 0x100_0000_0000, 256);
    lemma_div_denominator(x as int, 0x1_0000_0000_0000, 256);
    lemma_div_denominator(x as int, 0x100_0000_0000_0000, 256);
    lemma_small_div_zero(x, 0x1_0000_0000_0000_0000);
    reveal_with_fuel(be_bytes, 9);
}

/// The value of a two-byte big-endian sequence, written out.
pub proof fn lemma_from_be_2(s: Seq<u8>)
    requires
        s.len() == 2,
    ensures
        from_be(s) == s[0] * 256 + s[1],
{
    reveal_with_fuel(from_be, 3);
    assert(s.drop_last() =~= s.take(1));
    assert(s.take(1).drop_last() =~= s.take(0));
    assert(from_be(s.take(0)) == 0);
}

/// The value of a four-byte big-endian sequence, written out.
pub proof fn lemma_from_be_4(s: Seq<u8>)
    requires
        s.len() == 4,
    ensures
        from_be(s) == s[0] * 0x100_0000 + s[1] * 0x1_0000 + s[2] * 256 + s[3],
{
    reveal_with_fuel(from_be, 5);
    assert(s.drop_last() =~= s.take(3));
    assert(s.take(3).drop_last() =~= s.take(2));
    assert(s.take(2).drop_last() =~= s.take(1));
    assert(s.take(1).drop_last() =~= s.take(0));
    assert(from_be(s.take(0)) == 0);
}

/// The value of an eight-byte big-endian sequence, written out.
pub proof fn lemma_from_be_8(s: Seq<u8>)
    requires
        s.len() == 8,
    ensures
        from_be(s) == s[0] * 0x100_0000_0000_0000 + s[1] * 0x1_0000_0000_0000 + s[2]
            * 0x100_0000_0000 + s[3] * 0x1_0000_0000 + s[4] * 0x100_0000 + s[5] * 0x1_0000 + s[6]
            * 256 + s[7],
{
    reveal_with_fuel(from_be, 9);
    assert(s.drop_last() =~= s.take(7));
    assert(s.take(7).drop_last() =~= s.take(6));
    assert(s.take(6).drop_last() =~= s.take(5));
    assert(s.take(5).drop_last() =~= s.take(4));
    assert(s.take(4).drop_last() =~= s.take(3));
    assert(s.take(3).drop_last() =~= s.take(2));
    assert(s.take(2).drop_last() =~= s.take(1));
    assert(s.take(1).drop_last() =~= s.take(0));
    assert(from_be(s.take(0)) == 0);
}

// ---------------------------------------------------------------------------
// Round-trip laws for strings, bytes and containers
// ---------------------------------------------------------------------------

/// Decoding the encoding of a [string] yields the text back and consumes
/// exactly its wire form, whatever follows it.
pub proof fn lemma_string_round_trip(s: Seq<u8>, rest: Seq<u8>)
    requires
        s.len() <= 0xFFFF,
        valid_utf8(s),
    ensures
        enc_string(s).len() == 2 + s.len(),
        dec_string(enc_string(s) + rest) == Decoded::<Seq<u8>>::Got(s, 2 + s.len() as int),
{
    lemma_be_bytes_len(s.len() as nat, 2);
    let whole = enc_string(s) + rest;
    assert(whole =~= enc_short(s.len() as u16) + (s + rest));
    lemma_short_round_trip(s.len() as u16, s + rest);
    assert(whole.subrange(2, 2 + s.len() as int) =~= s);
}

/// Decoding the encoding of a [long string] yields the text back and
/// consumes exactly its wire form, whatever follows it.
pub proof fn lemma_long_string_round_trip(s: Seq<u8>, rest: Seq<u8>)
    requires
        s.len() <= 0x7FFF_FFFF,
        valid_utf8(s),
    ensures
        enc_long_string(s).len() == 4 + s.len(),
        dec_long_string(enc_long_string(s) + rest) == Decoded::<Seq<u8>>::Got(s, 4 + s.len() as int),
{
    lemma_be_bytes_len(rep_i32(s.len() as i32), 4);
    let whole = enc_long_string(s) + rest;
    assert(whole =~= enc_int(s.len() as i32) + (s + rest));
    lemma_int_round_trip(s.len() as i32, s + rest);
    assert(whole.subrange(4, 4 + s.len() as int) =~= s);
}

/// Decoding the encoding of a [bytes] value yields it back — the null
/// value stays null, a blob stays that blob — and consumes exactly its
/// wire form, whatever follows it.
pub proof fn lemma_bytes_round_trip(b: Option<Seq<u8>>, rest: Seq<u8>)
    requires
        b matches Some(s) ==> s.len() <= 0x7FFF_FFFF,
    ensures
        b matches Some(s) ==> dec_bytes(enc_bytes(b) + rest) == Decoded::<Option<Seq<u8>>>::Got(
            b,
            4 + s.len() as int,
        ),
        b is None ==> dec_bytes(enc_bytes(b) + rest) == Decoded::<Option<Seq<u8>>>::Got(b, 4),
{
    match b {
        Some(s) => {
            lemma_be_bytes_len(rep_i32(s.len() as i32), 4);
            let whole = enc_bytes(b) + rest;
            assert(whole =~= enc_int(s.len() as i32) + (s + rest));
            lemma_int_round_trip(s.len() as i32, s + rest);
            assert(whole.subrange(4, 4 + s.len() as int) =~= s);
        },
        None => {
            lemma_be_bytes_len(rep_i32(-1i32), 4);
            let whole = enc_bytes(b) + rest;
            assert(whole =~= enc_int(-1i32) + rest);
            lemma_int_round_trip(-1i32, rest);
        },
    }
}

/// Every string of a well-formed string sequence fits its length prefix
/// and is valid UTF-8.
pub open spec fn wf_strings(ss: Seq<Seq<u8>>) -> bool {
    forall|i: int| 0 <= i < ss.len() ==> (#[trigger] ss[i]).len() <= 0xFFFF && valid_utf8(ss[i])
}

/// Decoding `n` encoded strings yields them back, consuming exactly their
/// concatenated wire forms.
pub proof fn lemma_strings_round_trip(ss: Seq<Seq<u8>>, rest: Seq<u8>)
    requires
        wf_strings(ss),
    ensures
        dec_strings(enc_strings(ss) + rest, ss.len() as int) == Decoded::<Seq<Seq<u8>>>::Got(
            ss,
            enc_strings(ss).len() as int,
        ),
    decreases ss.len(),
{
    if ss.len() == 0 {
        assert(enc_strings(ss) + rest =~= rest);
        assert(Seq::<Seq<u8>>::empty() =~= ss);
    } else {
        let s0 = ss[0];
        let tail_enc = enc_strings(ss.skip(1));
        assert(enc_strings(ss) + rest =~= enc_string(s0) + (tail_enc + rest));
        lemma_string_round_trip(s0, tail_enc + rest);
        let whole = enc_strings(ss) + rest;
        let k1 = 2 + s0.len() as int;
        assert(whole.skip(k1) =~= tail_enc + rest);
        lemma_strings_round_trip(ss.skip(1), rest);
        assert(seq![s0] + ss.skip(1) =~= ss);
    }
}

/// Decoding the encoding of a [string list] yields it back and consumes
/// exactly its wire form, whatever follows it.
pub proof fn lemma_string_list_round_trip(ss: Seq<Seq<u8>>, rest: Seq<u8>)
    requires
        ss.len() <= 0xFFFF,
        wf_strings(ss),
    ensures
        dec_string_list(enc_string_list(ss) + rest) == Decoded::<Seq<Seq<u8>>>::Got(
            ss,
            enc_string_list(ss).len() as int,
        ),
{
    lemma_be_bytes_len(ss.len() as nat, 2);
    let whole = enc_string_list(ss) + rest;
    assert(whole =~= enc_short(ss.len() as u16) + (enc_strings(ss) + rest));
    lemma_short_round_trip(ss.len() as u16, enc_strings(ss) + rest);
    assert(whole.skip(2) =~= enc_strings(ss) + rest);
    lemma_strings_round_trip(ss, rest);
}

/// Every key and value of a well-formed pair sequence fits its length
/// prefix and is valid UTF-8.
pub open spec fn wf_string_pairs(ps: Seq<(Seq<u8>, Seq<u8>)>) -> bool {
    forall|i: int|
        0 <= i < ps.len() ==> (#[trigger] ps[i]).0.len() <= 0xFFFF && valid_utf8(ps[i].0)
            && ps[i].1.len() <= 0xFFFF && valid_utf8(ps[i].1)
}

/// Decoding `n` encoded key/value pairs yields them back, consuming
/// exactly their concatenated wire forms.
pub proof fn lemma_string_pairs_round_trip(ps: Seq<(Seq<u8>, Seq<u8>)>, rest: Seq<u8>)
    requires
        wf_string_pairs(ps),
    ensures
        dec_string_pairs(enc_string_pairs(ps) + rest, ps.len() as int) == Decoded::<
            Seq<(Seq<u8>, Seq<u8>)>,
        >::Got(ps, enc_string_pairs(ps).len() as int),
    decreases ps.len(),
{
    if ps.len() == 0 {
        assert(enc_string_pairs(ps) + rest =~= rest);
        assert(Seq::<(Seq<u8>, Seq<u8>)>::empty() =~= ps);
    } else {
        let (k0, v0) = (ps[0].0, ps[0].1);
        let tail_enc = enc_string_pairs(ps.skip(1));
        let whole = enc_string_pairs(ps) + rest;
        assert(whole =~= enc_string(k0) + (enc_string(v0) + (tail_enc + rest)));
        lemma_string_round_trip(k0, enc_string(v0) + (tail_enc + rest));
        let k1 = 2 + k0.len() as int;
        assert(whole.skip(k1) =~= enc_string(v0) + (tail_enc + rest));
        lemma_string_round_trip(v0, tail_enc + rest);
        let k2 = 2 + v0.len() as int;
        assert(whole.skip(k1).skip(k2) =~= tail_enc + rest);
        assert(whole.skip(k1 + k2) =~= tail_enc + rest);
        lemma_string_pairs_round_trip(ps.skip(1), rest);
        assert(seq![(k0, v0)] + ps.skip(1) =~= ps);
    }
}

/// Decoding the encoding of a [string map] yields it back and consumes
/// exactly its wire form, whatever follows it.
pub proof fn lemma_string_map_round_trip(ps: Seq<(Seq<u8>, Seq<u8>)>, rest: Seq<u8>)
    requires
        ps.len() <= 0xFFFF,
        wf_string_pairs(ps),
    ensures
        dec_string_map(enc_string_map(ps) + rest) == Decoded::<Seq<(Seq<u8>, Seq<u8>)>>::Got(
            ps,
            enc_string_map(ps).len() as int,
        ),
{
    lemma_be_bytes_len(ps.len() as nat, 2);
    let whole = enc_string_map(ps) + rest;
    assert(whole =~= enc_short(ps.len() as u16) + (enc_string_pairs(ps) + rest));
    lemma_short_round_trip(ps.len() as u16, enc_string_pairs(ps) + rest);
    assert(whole.skip(2) =~= enc_string_pairs(ps) + rest);
    lemma_string_pairs_round_trip(ps, rest);
}

/// Every key and every listed string of a well-formed multimap entry
/// sequence fits its length prefix and is valid UTF-8.
pub open spec fn wf_multimap_pairs(ps: Seq<(Seq<u8>, Seq<Seq<u8>>)>) -> bool {
    forall|i: int|
        0 <= i < ps.len() ==> (#[trigger] ps[i]).0.len() <= 0xFFFF && valid_utf8(ps[i].0)
            && ps[i].1.len() <= 0xFFFF && wf_strings(ps[i].1)
}

/// Decoding `n` encoded key/string-list pairs yields them back, consuming
/// exactly their concatenated wire forms.
pub proof fn lemma_multimap_pairs_round_trip(ps: Seq<(Seq<u8>, Seq<Seq<u8>>)>, rest: Seq<u8>)
    requires
        wf_multimap_pairs(ps),
    ensures
        dec_multimap_pairs(enc_multimap_pairs(ps) + rest, ps.len() as int) == Decoded::<
            Seq<(Seq<u8>, Seq<Seq<u8>>)>,
        >::Got(ps, enc_multimap_pairs(ps).len() as int),
    decreases ps.len(),
{
    if ps.len() == 0 {
        assert(enc_multimap_pairs(ps) + rest =~= rest);
        assert(Seq::<(Seq<u8>, Seq<Seq<u8>>)>::empty() =~= ps);
    } else {
        let (k0, v0) = (ps[0].0, ps[0].1);
        let tail_enc = enc_multimap_pairs(ps.skip(1));
        let whole = enc_multimap_pairs(ps) + rest;
        assert(whole =~= enc_string(k0) + (enc_string_list(v0) + (tail_enc + rest)));
        lemma_string_round_trip(k0, enc_string_list(v0) + (tail_enc + rest));
        let k1 = 2 + k0.len() as int;
        assert(whole.skip(k1) =~= enc_string_list(v0) + (tail_enc + rest));
        lemma_string_list_round_trip(v0, tail_enc + rest);
        let k2 = enc_string_list(v0).len() as int;
        assert(whole.skip(k1).skip(k2) =~= tail_enc + rest);
        assert(whole.skip(k1 + k2) =~= tail_enc + rest);
        lemma_multimap_pairs_round_trip(ps.skip(1), rest);
        assert(seq![(k0, v0)] + ps.skip(1) =~= ps);
    }
}

/// Decoding the encoding of a [string multimap] yields it back and
/// consumes exactly its wire form, whatever follows it.
pub proof fn lemma_string_multimap_round_trip(ps: Seq<(Seq<u8>, Seq<Seq<u8>>)>, rest: Seq<u8>)
    requires
        ps.len() <= 0xFFFF,
        wf_multimap_pairs(ps),
    ensures
        dec_string_multimap(enc_string_multimap(ps) + rest) == Decoded::<
            Seq<(Seq<u8>, Seq<Seq<u8>>)>,
        >::Got(ps, enc_string_multimap(ps).len() as int),
{
    lemma_be_bytes_len(ps.len() as nat, 2);
    let whole = enc_string_multimap(ps) + rest;
    assert(whole =~= enc_short(ps.len() as u16) + (enc_multimap_pairs(ps) + rest));
    lemma_short_round_trip(ps.len() as u16, enc_multimap_pairs(ps) + rest);
    assert(whole.skip(2) =~= enc_multimap_pairs(ps) + rest);
    lemma_multimap_pairs_round_trip(ps, rest);
}

} // verus!
