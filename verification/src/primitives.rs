//! The protocol's typed primitives: strings, byte blobs, string containers
//! and consistency levels, each with a bounded length enforced at
//! construction, so that a constructed value always encodes.
//!
//! A value's view is its payload as the wire carries it: a byte sequence
//! for the string kinds, an optional byte sequence for [bytes], and a
//! sequence of entries for the containers.

pub mod decode;
pub mod encode;

use vstd::prelude::*;

verus! {

use vstd::string::StringSliceAdditionalSpecFns;
use vstd::utf8::valid_utf8;
use crate::wire;

/// The error of the checked constructors: the value has more elements than
/// the wire form's length prefix can carry.
#[derive(Debug, PartialEq, Eq, Clone, Copy, Structural)]
pub enum PrimitivesError {
    MaximumLengthExceeded(usize),
}

/// Relies on `str::from_utf8`: it returns the text whose UTF-8 form is
/// the given bytes, and fails exactly on invalid UTF-8, as vstd's
/// `valid_utf8` describes it.
#[verifier::external_body]
fn from_utf8_checked(v: &[u8]) -> (r: Option<&str>)
    ensures
        match r {
            Some(s) => s.spec_bytes() == v@,
            None => !valid_utf8(v@),
        },
{
    core::str::from_utf8(v).ok()
}

/// Whether the bytes are valid UTF-8.
pub(crate) fn check_utf8(v: &[u8]) -> (r: bool)
    ensures
        r == valid_utf8(v@),
{
    match from_utf8_checked(v) {
        Some(s) => {
            proof {
                vstd::utf8::encode_utf8_valid_utf8(s@);
            }
            true
        },
        None => false,
    }
}

/// Byte-for-byte comparison of two slices.
pub fn bytes_eq(a: &[u8], b: &[u8]) -> (r: bool)
    ensures
        r == (a@ == b@),
{
    if a.len() != b.len() {
        assert(a@.len() != b@.len());
        return false;
    }
    let n = a.len();
    let mut i: usize = 0;
    while i < n
        invariant
            n == a@.len() == b@.len(),
            i <= n,
            forall|j: int| 0 <= j < i ==> a@[j] == b@[j],
        decreases n - i,
    {
        if a[i] != b[i] {
            return false;
        }
        i += 1;
    }
    assert(a@ =~= b@);
    true
}

/// Clones a byte vector, keeping its contents.
pub(crate) fn clone_bytes(v: &Vec<u8>) -> (r: Vec<u8>)
    ensures
        r@ == v@,
{
    let mut out: Vec<u8> = Vec::new();
    out.extend_from_slice(v.as_slice());
    assert(out@ =~= v@);
    out
}

// ---------------------------------------------------------------------------
// CqlString
// ---------------------------------------------------------------------------

/// A [string]: UTF-8 text of at most 65535 bytes, stored as its wire bytes.
#[derive(Debug, PartialEq, Eq)]
pub struct CqlString {
    inner: Vec<u8>,
}

impl View for CqlString {
    type V = Seq<u8>;

    closed spec fn view(&self) -> Seq<u8> {
        self.inner@
    }
}

impl Clone for CqlString {
    fn clone(&self) -> (r: Self)
        ensures
            r@ == self@,
    {
        proof {
            use_type_invariant(self);
        }
        CqlString { inner: clone_bytes(&self.inner) }
    }
}

/// The invariant of every constructed [`CqlString`].
pub open spec fn wf_string(s: Seq<u8>) -> bool {
    s.len() <= 0xFFFF && valid_utf8(s)
}

impl CqlString {
    /// Every constructed value satisfies [`wf_string`]; the constructors
    /// establish it and nothing mutates the field.
    #[verifier::type_invariant]
    closed spec fn type_inv(&self) -> bool {
        wf_string(self@)
    }

    /// The checked constructor: fails exactly when the text's UTF-8 form is
    /// longer than the 16-bit length prefix allows.
    pub fn try_from(s: &str) -> (r: Result<CqlString, PrimitivesError>)
        ensures
            s.spec_bytes().len() <= 0xFFFF <==> r matches Ok(_),
            r matches Ok(cs) ==> cs@ == s.spec_bytes(),
            s.spec_bytes().len() > 0xFFFF ==> r == Err::<CqlString, _>(
                PrimitivesError::MaximumLengthExceeded(s.spec_bytes().len() as usize),
            ),
    {
        let bytes = s.as_bytes();
        if bytes.len() > 0xFFFF {
            Err(PrimitivesError::MaximumLengthExceeded(bytes.len()))
        } else {
            proof {
                vstd::utf8::encode_utf8_valid_utf8(s@);
            }
            Ok(CqlString { inner: vstd::slice::slice_to_vec(bytes) })
        }
    }

    /// The unchecked constructor: the caller has already established the
    /// length bound, typically because a decoder just read it.
    pub fn unchecked_from(s: &str) -> (r: CqlString)
        requires
            s.spec_bytes().len() <= 0xFFFF,
        ensures
            r@ == s.spec_bytes(),
    {
        proof {
            vstd::utf8::encode_utf8_valid_utf8(s@);
        }
        CqlString { inner: vstd::slice::slice_to_vec(s.as_bytes()) }
    }

    /// Wraps bytes a decoder drained from its buffer.
    pub fn from(buf: Vec<u8>) -> (r: CqlString)
        requires
            wf_string(buf@),
        ensures
            r@ == buf@,
    {
        CqlString { inner: buf }
    }

    pub fn len(&self) -> (r: u16)
        ensures
            r == self@.len(),
    {
        proof {
            use_type_invariant(self);
        }
        self.inner.len() as u16
    }

    pub fn as_bytes(&self) -> (r: &[u8])
        ensures
            r@ == self@,
    {
        self.inner.as_slice()
    }

    /// The stored text: the string whose UTF-8 form these bytes are.
    pub fn as_text(&self) -> (r: &str)
        ensures
            r.spec_bytes() == self@,
    {
        proof {
            use_type_invariant(self);
        }
        match from_utf8_checked(self.inner.as_slice()) {
            Some(t) => t,
            None => {
                proof {
                    assert(false);
                }
                ""
            },
        }
    }
}

// ---------------------------------------------------------------------------
// CqlLongString
// ---------------------------------------------------------------------------

/// A [long string]: UTF-8 text with a 32-bit length prefix.
#[derive(Debug, PartialEq, Eq)]
pub struct CqlLongString {
    inner: Vec<u8>,
}

impl View for CqlLongString {
    type V = Seq<u8>;

    closed spec fn view(&self) -> Seq<u8> {
        self.inner@
    }
}

impl Clone for CqlLongString {
    fn clone(&self) -> (r: Self)
        ensures
            r@ == self@,
    {
        proof {
            use_type_invariant(self);
        }
        CqlLongString { inner: clone_bytes(&self.inner) }
    }
}

/// The invariant of every constructed [`CqlLongString`].
pub open spec fn wf_long_string(s: Seq<u8>) -> bool {
    s.len() <= 0x7FFF_FFFF && valid_utf8(s)
}

impl CqlLongString {
    /// Every constructed value satisfies [`wf_long_string`].
    #[verifier::type_invariant]
    closed spec fn type_inv(&self) -> bool {
        wf_long_string(self@)
    }

    /// The checked constructor: fails exactly when the text's UTF-8 form is
    /// longer than the 32-bit signed length prefix allows.
    pub fn try_from(s: &str) -> (r: Result<CqlLongString, PrimitivesError>)
        ensures
            s.spec_bytes().len() <= 0x7FFF_FFFF <==> r matches Ok(_),
            r matches Ok(cs) ==> cs@ == s.spec_bytes(),
            s.spec_bytes().len() > 0x7FFF_FFFF ==> r == Err::<CqlLongString, _>(
                PrimitivesError::MaximumLengthExceeded(s.spec_bytes().len() as usize),
            ),
    {
        let bytes = s.as_bytes();
        if bytes.len() > 0x7FFF_FFFF {
            Err(PrimitivesError::MaximumLengthExceeded(bytes.len()))
        } else {
            proof {
                vstd::utf8::encode_utf8_valid_utf8(s@);
            }
            Ok(CqlLongString { inner: vstd::slice::slice_to_vec(bytes) })
        }
    }

    /// Wraps bytes a decoder drained from its buffer.
    pub fn from(buf: Vec<u8>) -> (r: CqlLongString)
        requires
            wf_long_string(buf@),
        ensures
            r@ == buf@,
    {
        CqlLongString { inner: buf }
    }

    pub fn len(&self) -> (r: i32)
        ensures
            r == self@.len(),
    {
        proof {
            use_type_invariant(self);
        }
        self.inner.len() as i32
    }

    pub fn as_bytes(&self) -> (r: &[u8])
        ensures
            r@ == self@,
    {
        self.inner.as_slice()
    }
}

// ---------------------------------------------------------------------------
// CqlBytes
// ---------------------------------------------------------------------------

/// A [bytes] value: either absent (the protocol's null, wire length -1) or
/// a blob whose length fits the 32-bit signed prefix.
#[derive(Debug, PartialEq, Eq)]
pub struct CqlBytes {
    inner: Option<Vec<u8>>,
}

impl View for CqlBytes {
    type V = Option<Seq<u8>>;

    closed spec fn view(&self) -> Option<Seq<u8>> {
        match self.inner {
            Some(ref v) => Some(v@),
            None => None,
        }
    }
}

impl Clone for CqlBytes {
    fn clone(&self) -> (r: Self)
        ensures
            r@ == self@,
    {
        proof {
            use_type_invariant(self);
        }
        match &self.inner {
            Some(v) => CqlBytes { inner: Some(clone_bytes(v)) },
            None => CqlBytes { inner: None },
        }
    }
}

/// The invariant of every constructed [`CqlBytes`].
pub open spec fn wf_bytes(b: Option<Seq<u8>>) -> bool {
    match b {
        Some(s) => s.len() <= 0x7FFF_FFFF,
        None => true,
    }
}

impl CqlBytes {
    /// Every constructed value satisfies [`wf_bytes`].
    #[verifier::type_invariant]
    closed spec fn type_inv(&self) -> bool {
        wf_bytes(self@)
    }

    /// The checked constructor: fails exactly when the blob is longer than
    /// the 32-bit signed length prefix allows.
    pub fn try_from(v: Vec<u8>) -> (r: Result<CqlBytes, PrimitivesError>)
        ensures
            v@.len() <= 0x7FFF_FFFF <==> r matches Ok(_),
            r matches Ok(cb) ==> cb@ == Some(v@),
            v@.len() > 0x7FFF_FFFF ==> r == Err::<CqlBytes, _>(
                PrimitivesError::MaximumLengthExceeded(v@.len() as usize),
            ),
    {
        if v.len() > 0x7FFF_FFFF {
            Err(PrimitivesError::MaximumLengthExceeded(v.len()))
        } else {
            Ok(CqlBytes { inner: Some(v) })
        }
    }

    /// Wraps bytes a decoder drained from its buffer.
    pub fn from(buf: Vec<u8>) -> (r: CqlBytes)
        requires
            buf@.len() <= 0x7FFF_FFFF,
        ensures
            r@ == Some(buf@),
    {
        CqlBytes { inner: Some(buf) }
    }

    /// The protocol's null value, distinct from an empty blob.
    pub fn null_value() -> (r: CqlBytes)
        ensures
            r@ == Option::<Seq<u8>>::None,
    {
        CqlBytes { inner: None }
    }

    /// The wire length: the blob's length, or -1 for the null value.
    pub fn len(&self) -> (r: i32)
        ensures
            match self@ {
                Some(s) => r == s.len(),
                None => r == -1,
            },
    {
        proof {
            use_type_invariant(self);
        }
        match &self.inner {
            Some(v) => v.len() as i32,
            None => -1,
        }
    }

    pub fn as_bytes(&self) -> (r: Option<&[u8]>)
        ensures
            match r {
                Some(s) => self@ == Some(s@),
                None => self@ is None,
            },
    {
        match &self.inner {
            Some(v) => Some(v.as_slice()),
            None => None,
        }
    }
}

// ---------------------------------------------------------------------------
// Consistency levels
// ---------------------------------------------------------------------------

/// A per-query consistency level, carried on the wire as a [short] with a
/// fixed code.
#[derive(Debug, PartialEq, Eq, Structural, Clone, Copy)]
pub enum CqlConsistency {
    Any,
    One,
    Two,
    Three,
    Quorum,
    All,
    LocalQuorum,
    EachQuorum,
    Serial,
    LocalSerial,
    LocalOne,
}

/// The wire code of a consistency level.
pub open spec fn consistency_code(c: CqlConsistency) -> u16 {
    match c {
        CqlConsistency::Any => 0x0000,
        CqlConsistency::One => 0x0001,
        CqlConsistency::Two => 0x0002,
        CqlConsistency::Three => 0x0003,
        CqlConsistency::Quorum => 0x0004,
        CqlConsistency::All => 0x0005,
        CqlConsistency::LocalQuorum => 0x0006,
        CqlConsistency::EachQuorum => 0x0007,
        CqlConsistency::Serial => 0x0008,
        CqlConsistency::LocalSerial => 0x0009,
        CqlConsistency::LocalOne => 0x000A,
    }
}

/// The consistency level a wire code stands for, if any.
pub open spec fn consistency_of_code(v: u16) -> Option<CqlConsistency> {
    if v == 0x0000 {
        Some(CqlConsistency::Any)
    } else if v == 0x0001 {
        Some(CqlConsistency::One)
    } else if v == 0x0002 {
        Some(CqlConsistency::Two)
    } else if v == 0x0003 {
        Some(CqlConsistency::Three)
    } else if v == 0x0004 {
        Some(CqlConsistency::Quorum)
    } else if v == 0x0005 {
        Some(CqlConsistency::All)
    } else if v == 0x0006 {
        Some(CqlConsistency::LocalQuorum)
    } else if v == 0x0007 {
        Some(CqlConsistency::EachQuorum)
    } else if v == 0x0008 {
        Some(CqlConsistency::Serial)
    } else if v == 0x0009 {
        Some(CqlConsistency::LocalSerial)
    } else if v == 0x000A {
        Some(CqlConsistency::LocalOne)
    } else {
        None
    }
}

impl CqlConsistency {
    /// Reads a consistency level from its wire code; unknown codes are an
    /// invalid encoding.
    pub fn try_from(short: u16) -> (r: Result<CqlConsistency, wire::Fault>)
        ensures
            match consistency_of_code(short) {
                Some(c) => r == Ok::<_, wire::Fault>(c),
                None => r == Err::<CqlConsistency, _>(wire::Fault::InvalidConsistency),
            },
    {
        match short {
            0x0000 => Ok(CqlConsistency::Any),
            0x0001 => Ok(CqlConsistency::One),
            0x0002 => Ok(CqlConsistency::Two),
            0x0003 => Ok(CqlConsistency::Three),
            0x0004 => Ok(CqlConsistency::Quorum),
            0x0005 => Ok(CqlConsistency::All),
            0x0006 => Ok(CqlConsistency::LocalQuorum),
            0x0007 => Ok(CqlConsistency::EachQuorum),
            0x0008 => Ok(CqlConsistency::Serial),
            0x0009 => Ok(CqlConsistency::LocalSerial),
            0x000A => Ok(CqlConsistency::LocalOne),
            _ => Err(wire::Fault::InvalidConsistency),
        }
    }

    pub fn as_short(&self) -> (r: u16)
        ensures
            r == consistency_code(*self),
    {
        match *self {
            CqlConsistency::Any => 0x0000,
            CqlConsistency::One => 0x0001,
            CqlConsistency::Two => 0x0002,
            CqlConsistency::Three => 0x0003,
            CqlConsistency::Quorum => 0x0004,
            CqlConsistency::All => 0x0005,
            CqlConsistency::LocalQuorum => 0x0006,
            CqlConsistency::EachQuorum => 0x0007,
            CqlConsistency::Serial => 0x0008,
            CqlConsistency::LocalSerial => 0x0009,
            CqlConsistency::LocalOne => 0x000A,
        }
    }
}

/// A consistency level's code reads back as that level: the two spec
/// functions are inverses on the codes the protocol defines.
pub proof fn lemma_consistency_code_round_trip(c: CqlConsistency)
    ensures
        consistency_of_code(consistency_code(c)) == Some(c),
{
}

// ---------------------------------------------------------------------------
// Association helpers for the map-shaped containers
// ---------------------------------------------------------------------------

/// The position of the first entry with key `k`, or -1 when there is none.
pub open spec fn key_index<V>(ps: Seq<(Seq<u8>, V)>, k: Seq<u8>) -> int
    decreases ps.len(),
{
    if ps.len() == 0 {
        -1
    } else if ps[0].0 == k {
        0
    } else {
        let r = key_index(ps.skip(1), k);
        if r < 0 {
            -1
        } else {
            r + 1
        }
    }
}

/// The value of the first entry with key `k`, if any.
pub open spec fn map_get<V>(ps: Seq<(Seq<u8>, V)>, k: Seq<u8>) -> Option<V> {
    if key_index(ps, k) >= 0 {
        Some(ps[key_index(ps, k)].1)
    } else {
        None
    }
}

/// Replaces the first entry with key `k`, or appends a new one: the
/// behaviour of inserting into a map keyed by `k`.
pub open spec fn upsert<V>(ps: Seq<(Seq<u8>, V)>, k: Seq<u8>, v: V) -> Seq<(Seq<u8>, V)> {
    if key_index(ps, k) >= 0 {
        ps.update(key_index(ps, k), (k, v))
    } else {
        ps.push((k, v))
    }
}

/// Inserts a sequence of entries in order, later duplicates replacing
/// earlier ones.
pub open spec fn upsert_all<V>(acc: Seq<(Seq<u8>, V)>, entries: Seq<(Seq<u8>, V)>) -> Seq<
    (Seq<u8>, V),
>
    decreases entries.len(),
{
    if entries.len() == 0 {
        acc
    } else {
        upsert_all(upsert(acc, entries[0].0, entries[0].1), entries.skip(1))
    }
}

/// What [`key_index`] finds: a position inside the sequence whose entry
/// carries the key and before which no entry does, or -1 when no entry
/// carries it.
pub proof fn lemma_key_index_props<V>(ps: Seq<(Seq<u8>, V)>, k: Seq<u8>)
    ensures
        -1 <= key_index(ps, k) < ps.len(),
        key_index(ps, k) >= 0 ==> ps[key_index(ps, k)].0 == k,
        forall|j: int| 0 <= j < ps.len() && #[trigger] ps[j].0 == k ==> key_index(ps, k) >= 0,
        forall|j: int|
            0 <= j < ps.len() && key_index(ps, k) != j && j <= key_index(ps, k) ==> ps[j].0 != k,
        key_index(ps, k) == -1 ==> forall|j: int| 0 <= j < ps.len() ==> ps[j].0 != k,
    decreases ps.len(),
{
    if ps.len() > 0 && ps[0].0 != k {
        lemma_key_index_props(ps.skip(1), k);
        assert(forall|j: int| 1 <= j < ps.len() ==> ps[j] == ps.skip(1)[j - 1]);
    }
}

/// Inserting one more entry into an accumulated map is one more upsert.
pub proof fn lemma_upsert_all_snoc<V>(
    acc: Seq<(Seq<u8>, V)>,
    entries: Seq<(Seq<u8>, V)>,
    e: (Seq<u8>, V),
)
    ensures
        upsert_all(acc, entries.push(e)) == upsert(upsert_all(acc, entries), e.0, e.1),
    decreases entries.len(),
{
    if entries.len() == 0 {
        assert(entries.push(e)[0] == e);
        assert(entries.push(e).skip(1) =~= Seq::<(Seq<u8>, V)>::empty());
        assert(upsert_all(acc, entries.push(e)) == upsert_all(
            upsert(acc, e.0, e.1),
            entries.push(e).skip(1),
        ));
        assert(upsert_all(upsert(acc, e.0, e.1), Seq::<(Seq<u8>, V)>::empty()) == upsert(
            acc,
            e.0,
            e.1,
        ));
        assert(upsert_all(acc, entries) == acc);
    } else {
        assert(entries.push(e)[0] == entries[0]);
        assert(entries.push(e).skip(1) =~= entries.skip(1).push(e));
        lemma_upsert_all_snoc(upsert(acc, entries[0].0, entries[0].1), entries.skip(1), e);
    }
}

// ---------------------------------------------------------------------------
// CqlStringList
// ---------------------------------------------------------------------------

/// A [string list]: at most 65535 strings.
#[derive(Debug, PartialEq, Eq)]
pub struct CqlStringList {
    container: Vec<CqlString>,
}

impl View for CqlStringList {
    type V = Seq<Seq<u8>>;

    closed spec fn view(&self) -> Seq<Seq<u8>> {
        self.container@.map_values(|c: CqlString| c@)
    }
}

impl Clone for CqlStringList {
    fn clone(&self) -> (r: Self)
        ensures
            r@ == self@,
    {
        proof {
            use_type_invariant(self);
        }
        let mut out: Vec<CqlString> = Vec::new();
        let n = self.container.len();
        let mut i: usize = 0;
        while i < n
            invariant
                n == self.container@.len(),
                i <= n,
                out@.len() == i,
                forall|j: int| 0 <= j < i ==> out@[j]@ == self.container@[j]@,
            decreases n - i,
        {
            out.push(self.container[i].clone());
            i += 1;
        }
        let r = CqlStringList { container: out };
        assert(r@ =~= self@);
        r
    }
}

impl CqlStringList {
    #[verifier::type_invariant]
    closed spec fn type_inv(&self) -> bool {
        self.container@.len() <= 0xFFFF
    }

    /// The checked constructor: fails exactly when there are more strings
    /// than the 16-bit count prefix allows.
    pub fn try_from(lst: Vec<CqlString>) -> (r: Result<CqlStringList, PrimitivesError>)
        ensures
            lst@.len() <= 0xFFFF <==> r matches Ok(_),
            r matches Ok(l) ==> l@ == lst@.map_values(|c: CqlString| c@),
            lst@.len() > 0xFFFF ==> r == Err::<CqlStringList, _>(
                PrimitivesError::MaximumLengthExceeded(lst@.len() as usize),
            ),
    {
        if lst.len() > 0xFFFF {
            Err(PrimitivesError::MaximumLengthExceeded(lst.len()))
        } else {
            Ok(CqlStringList { container: lst })
        }
    }

    /// Builds the list from plain text, checking every length on the way.
    pub fn try_from_iter(v: &[&str]) -> (r: Result<CqlStringList, PrimitivesError>)
        ensures
            (v@.len() <= 0xFFFF && forall|i: int|
                0 <= i < v@.len() ==> #[trigger] v@[i].spec_bytes().len() <= 0xFFFF) <==> r matches Ok(
                _,
            ),
            r matches Ok(l) ==> l@ == v@.map_values(|s: &str| s.spec_bytes()),
            r matches Err(e) ==> e matches PrimitivesError::MaximumLengthExceeded(_),
    {
        let mut out: Vec<CqlString> = Vec::new();
        let n = v.len();
        let mut i: usize = 0;
        while i < n
            invariant
                n == v@.len(),
                i <= n,
                out@.len() == i,
                forall|j: int| 0 <= j < i ==> out@[j]@ == #[trigger] v@[j].spec_bytes(),
                forall|j: int| 0 <= j < i ==> #[trigger] v@[j].spec_bytes().len() <= 0xFFFF,
            decreases n - i,
        {
            let s: &str = v[i];
            match CqlString::try_from(s) {
                Ok(cs) => {
                    out.push(cs);
                },
                Err(e) => {
                    return Err(e);
                },
            }
            i += 1;
        }
        let r = Self::try_from(out);
        proof {
            if r is Ok {
                assert(r->Ok_0@ =~= v@.map_values(|s: &str| s.spec_bytes()));
            }
        }
        r
    }

    /// The constructor a decoder uses once it has read the count.
    pub fn unchecked_from(lst: Vec<CqlString>) -> (r: CqlStringList)
        requires
            lst@.len() <= 0xFFFF,
        ensures
            r@ == lst@.map_values(|c: CqlString| c@),
    {
        CqlStringList { container: lst }
    }

    pub fn len(&self) -> (r: u16)
        ensures
            r == self@.len(),
    {
        proof {
            use_type_invariant(self);
        }
        self.container.len() as u16
    }

    /// The strings, in wire order.
    pub fn iter(&self) -> (r: &Vec<CqlString>)
        ensures
            r@.map_values(|c: CqlString| c@) == self@,
            r@.len() == self@.len(),
    {
        &self.container
    }
}

// ---------------------------------------------------------------------------
// CqlStringMap
// ---------------------------------------------------------------------------

/// The entries of a map container, as the wire sees them.
pub open spec fn map_entries_view(s: Seq<(CqlString, CqlString)>) -> Seq<(Seq<u8>, Seq<u8>)> {
    s.map_values(|p: (CqlString, CqlString)| (p.0@, p.1@))
}

/// A [string map]: at most 65535 key/value pairs of strings, insertion
/// ordered, later inserts of a present key replacing its value.
#[derive(Debug, PartialEq, Eq)]
pub struct CqlStringMap {
    container: Vec<(CqlString, CqlString)>,
}

impl View for CqlStringMap {
    type V = Seq<(Seq<u8>, Seq<u8>)>;

    closed spec fn view(&self) -> Seq<(Seq<u8>, Seq<u8>)> {
        map_entries_view(self.container@)
    }
}

impl CqlStringMap {
    #[verifier::type_invariant]
    closed spec fn type_inv(&self) -> bool {
        self.container@.len() <= 0xFFFF
    }

    /// The checked constructor: fails exactly when there are more pairs
    /// than the 16-bit count prefix allows.
    pub fn try_from(map: Vec<(CqlString, CqlString)>) -> (r: Result<CqlStringMap, PrimitivesError>)
        ensures
            map@.len() <= 0xFFFF <==> r matches Ok(_),
            r matches Ok(m) ==> m@ == map_entries_view(map@),
            map@.len() > 0xFFFF ==> r == Err::<CqlStringMap, _>(
                PrimitivesError::MaximumLengthExceeded(map@.len() as usize),
            ),
    {
        if map.len() > 0xFFFF {
            Err(PrimitivesError::MaximumLengthExceeded(map.len()))
        } else {
            Ok(CqlStringMap { container: map })
        }
    }

    /// Builds the map pair by pair, an insert with a key already present
    /// replacing that key's value in place.
    pub fn try_from_iter(v: Vec<(CqlString, CqlString)>) -> (r: Result<
        CqlStringMap,
        PrimitivesError,
    >)
        ensures
            ({
                let m = upsert_all(Seq::empty(), map_entries_view(v@));
                &&& (m.len() <= 0xFFFF <==> r matches Ok(_))
                &&& (r matches Ok(sm) ==> sm@ == m)
                &&& (m.len() > 0xFFFF ==> r == Err::<CqlStringMap, _>(
                    PrimitivesError::MaximumLengthExceeded(m.len() as usize),
                ))
            }),
    {
        let ghost orig = map_entries_view(v@);
        let mut v = v;
        let mut out: Vec<(CqlString, CqlString)> = Vec::new();
        let ghost mut i: int = 0;
        while v.len() > 0
            invariant
                0 <= i <= orig.len(),
                map_entries_view(v@) =~= orig.skip(i),
                map_entries_view(out@) =~= upsert_all(Seq::empty(), orig.take(i)),
            decreases v@.len(),
    {
            proof {
                assert(map_entries_view(v@).len() == v@.len());
                assert(orig.skip(i).len() == orig.len() - i);
                assert(i < orig.len());
            }
            let ghost prev = v@;
            let pair = v.remove(0);
            let ghost cur = map_entries_view(out@);
            let ghost k = pair.0@;
            proof {
                assert(orig.skip(i)[0] == (pair.0@, pair.1@));
                assert(orig[i] == orig.skip(i)[0]);
                assert(orig[i] == (k, pair.1@));
                lemma_key_index_props(cur, k);
            }
            // find the key among the entries inserted so far
            let n = out.len();
            let mut j: usize = 0;
            let mut found = false;
            while j < n && !found
                invariant
                    n == out@.len(),
                    0 <= j <= n,
                    k == pair.0@,
                    cur =~= map_entries_view(out@),
                    forall|q: int| 0 <= q < j ==> cur[q].0 != k,
                    found ==> j < n && cur[j as int].0 == k,
                decreases n - j + (if found { 0int } else { 1int }),
            {
                if bytes_eq(out[j].0.as_bytes(), pair.0.as_bytes()) {
                    found = true;
                } else {
                    j += 1;
                }
            }
            proof {
                lemma_key_index_props(cur, k);
                let ki = key_index(cur, k);
                if found {
                    assert(cur[j as int].0 == k);
                    assert(ki >= 0);
                    if ki < j {
                        assert(cur[ki].0 == k);
                        assert(false);
                    }
                    if ki > j {
                        assert(cur[j as int].0 != k);
                        assert(false);
                    }
                    assert(ki == j);
                } else {
                    assert(j == n);
                    assert(ki == -1);
                }
            }
            if found {
                out.remove(j);
                out.insert(j, pair);
                proof {
                    assert(map_entries_view(out@) =~= cur.update(j as int, (k, pair.1@)));
                }
            } else {
                out.push(pair);
                proof {
                    assert(map_entries_view(out@) =~= cur.push((k, pair.1@)));
                }
            }
            proof {
                lemma_upsert_all_snoc(Seq::empty(), orig.take(i), (k, pair.1@));
                assert(orig.take(i).push((k, pair.1@)) =~= orig.take(i + 1));
                i = i + 1;
                assert(v@ =~= prev.skip(1));
                assert forall|q: int| 0 <= q < v@.len() implies map_entries_view(v@)[q] == orig.skip(i)[q] by {
                    assert(map_entries_view(v@)[q] == (v@[q].0@, v@[q].1@));
                    assert(v@[q] == prev[q + 1]);
                    assert(map_entries_view(prev)[q + 1] == (prev[q + 1].0@, prev[q + 1].1@));
                    assert(map_entries_view(prev)[q + 1] == orig.skip(i - 1)[q + 1]);
                    assert(orig.skip(i - 1)[q + 1] == orig[i + q]);
                    assert(orig.skip(i)[q] == orig[i + q]);
                }
                assert(map_entries_view(v@).len() == orig.skip(i).len());
                assert(map_entries_view(v@) =~= orig.skip(i));
            }
        }
        proof {
            assert(orig.take(i) =~= orig);
        }
        Self::try_from(out)
    }

    /// The constructor a decoder uses once it has read the count.
    pub fn unchecked_from(map: Vec<(CqlString, CqlString)>) -> (r: CqlStringMap)
        requires
            map@.len() <= 0xFFFF,
        ensures
            r@ == map_entries_view(map@),
    {
        CqlStringMap { container: map }
    }

    pub fn len(&self) -> (r: u16)
        ensures
            r == self@.len(),
    {
        proof {
            use_type_invariant(self);
        }
        self.container.len() as u16
    }

    /// The pairs, in wire order.
    pub fn iter(&self) -> (r: &Vec<(CqlString, CqlString)>)
        ensures
            map_entries_view(r@) == self@,
            r@.len() == self@.len(),
    {
        &self.container
    }
}

// ---------------------------------------------------------------------------
// CqlStringMultiMap
// ---------------------------------------------------------------------------

/// The entries of a multimap container, as the wire sees them.
pub open spec fn multimap_entries_view(s: Seq<(CqlString, CqlStringList)>) -> Seq<
    (Seq<u8>, Seq<Seq<u8>>),
> {
    s.map_values(|p: (CqlString, CqlStringList)| (p.0@, p.1@))
}

/// A [string multimap]: at most 65535 pairs of a string key and a string
/// list, insertion ordered, later inserts of a present key replacing its
/// list.
#[derive(Debug, PartialEq, Eq)]
pub struct CqlStringMultiMap {
    container: Vec<(CqlString, CqlStringList)>,
}

impl View for CqlStringMultiMap {
    type V = Seq<(Seq<u8>, Seq<Seq<u8>>)>;

    closed spec fn view(&self) -> Seq<(Seq<u8>, Seq<Seq<u8>>)> {
        multimap_entries_view(self.container@)
    }
}

impl CqlStringMultiMap {
    #[verifier::type_invariant]
    closed spec fn type_inv(&self) -> bool {
        self.container@.len() <= 0xFFFF
    }

    /// The checked constructor: fails exactly when there are more pairs
    /// than the 16-bit count prefix allows.
    pub fn try_from(map: Vec<(CqlString, CqlStringList)>) -> (r: Result<
        CqlStringMultiMap,
        PrimitivesError,
    >)
        ensures
            map@.len() <= 0xFFFF <==> r matches Ok(_),
            r matches Ok(m) ==> m@ == multimap_entries_view(map@),
            map@.len() > 0xFFFF ==> r == Err::<CqlStringMultiMap, _>(
                PrimitivesError::MaximumLengthExceeded(map@.len() as usize),
            ),
    {
        if map.len() > 0xFFFF {
            Err(PrimitivesError::MaximumLengthExceeded(map.len()))
        } else {
            Ok(CqlStringMultiMap { container: map })
        }
    }

    /// Builds the multimap pair by pair, an insert with a key already
    /// present replacing that key's list in place.
    pub fn try_from_iter(v: Vec<(CqlString, CqlStringList)>) -> (r: Result<
        CqlStringMultiMap,
        PrimitivesError,
    >)
        ensures
            ({
                let m = upsert_all(Seq::empty(), multimap_entries_view(v@));
                &&& (m.len() <= 0xFFFF <==> r matches Ok(_))
                &&& (r matches Ok(sm) ==> sm@ == m)
                &&& (m.len() > 0xFFFF ==> r == Err::<CqlStringMultiMap, _>(
                    PrimitivesError::MaximumLengthExceeded(m.len() as usize),
                ))
            }),
    {
        let ghost orig = multimap_entries_view(v@);
        let mut v = v;
        let mut out: Vec<(CqlString, CqlStringList)> = Vec::new();
        let ghost mut i: int = 0;
        while v.len() > 0
            invariant
                0 <= i <= orig.len(),
                multimap_entries_view(v@) =~= orig.skip(i),
                multimap_entries_view(out@) =~= upsert_all(Seq::empty(), orig.take(i)),
            decreases v@.len(),
        {
            proof {
                assert(multimap_entries_view(v@).len() == v@.len());
                assert(orig.skip(i).len() == orig.len() - i);
                assert(i < orig.len());
            }
            let ghost prev = v@;
            let pair = v.remove(0);
            let ghost cur = multimap_entries_view(out@);
            let ghost k = pair.0@;
            proof {
                assert(orig.skip(i)[0] == (pair.0@, pair.1@));
                assert(orig[i] == orig.skip(i)[0]);
                assert(orig[i] == (k, pair.1@));
                lemma_key_index_props(cur, k);
            }
            let n = out.len();
            let mut j: usize = 0;
            let mut found = false;
            while j < n && !found
                invariant
                    n == out@.len(),
                    0 <= j <= n,
                    k == pair.0@,
                    cur =~= multimap_entries_view(out@),
                    forall|q: int| 0 <= q < j ==> cur[q].0 != k,
                    found ==> j < n && cur[j as int].0 == k,
                decreases n - j + (if found { 0int } else { 1int }),
            {
                if bytes_eq(out[j].0.as_bytes(), pair.0.as_bytes()) {
                    found = true;
                } else {
                    j += 1;
                }
            }
            proof {
                lemma_key_index_props(cur, k);
                let ki = key_index(cur, k);
                if found {
                    assert(cur[j as int].0 == k);
                    assert(ki >= 0);
                    if ki < j {
                        assert(cur[ki].0 == k);
                        assert(false);
                    }
                    if ki > j {
                        assert(cur[j as int].0 != k);
                        assert(false);
                    }
                    assert(ki == j);
                } else {
                    assert(j == n);
                    assert(ki == -1);
                }
            }
            if found {
                out.remove(j);
                out.insert(j, pair);
                proof {
                    assert(multimap_entries_view(out@) =~= cur.update(j as int, (k, pair.1@)));
                }
            } else {
                out.push(pair);
                proof {
                    assert(multimap_entries_view(out@) =~= cur.push((k, pair.1@)));
                }
            }
            proof {
                lemma_upsert_all_snoc(Seq::empty(), orig.take(i), (k, pair.1@));
                assert(orig.take(i).push((k, pair.1@)) =~= orig.take(i + 1));
                i = i + 1;
                assert(v@ =~= prev.skip(1));
                assert forall|q: int| 0 <= q < v@.len() implies multimap_entries_view(v@)[q] == orig.skip(i)[q] by {
                    assert(multimap_entries_view(v@)[q] == (v@[q].0@, v@[q].1@));
                    assert(v@[q] == prev[q + 1]);
                    assert(multimap_entries_view(prev)[q + 1] == (prev[q + 1].0@, prev[q + 1].1@));
                    assert(multimap_entries_view(prev)[q + 1] == orig.skip(i - 1)[q + 1]);
                    assert(orig.skip(i - 1)[q + 1] == orig[i + q]);
                    assert(orig.skip(i)[q] == orig[i + q]);
                }
                assert(multimap_entries_view(v@).len() == orig.skip(i).len());
                assert(multimap_entries_view(v@) =~= orig.skip(i));
            }
        }
        proof {
            assert(orig.take(i) =~= orig);
        }
        Self::try_from(out)
    }

    /// The constructor a decoder uses once it has read the count.
    pub fn unchecked_from(map: Vec<(CqlString, CqlStringList)>) -> (r: CqlStringMultiMap)
        requires
            map@.len() <= 0xFFFF,
        ensures
            r@ == multimap_entries_view(map@),
    {
        CqlStringMultiMap { container: map }
    }

    pub fn len(&self) -> (r: u16)
        ensures
            r == self@.len(),
    {
        proof {
            use_type_invariant(self);
        }
        self.container.len() as u16
    }

    /// The pairs, in wire order.
    pub fn iter(&self) -> (r: &Vec<(CqlString, CqlStringList)>)
        ensures
            multimap_entries_view(r@) == self@,
            r@.len() == self@.len(),
    {
        &self.container
    }

    /// The list stored under `key`, if any: the first entry whose key
    /// matches.
    pub fn get(&self, key: &CqlString) -> (r: Option<&CqlStringList>)
        ensures
            match r {
                Some(l) => map_get(self@, key@) == Some(l@),
                None => map_get(self@, key@) is None,
            },
    {
        let n = self.container.len();
        let mut j: usize = 0;
        proof {
            lemma_key_index_props(self@, key@);
        }
        while j < n
            invariant
                n == self.container@.len(),
                n == self@.len(),
                0 <= j <= n,
                forall|q: int| 0 <= q < j ==> self@[q].0 != key@,
                multimap_entries_view(self.container@) == self@,
            decreases n - j,
        {
            if bytes_eq(self.container[j].0.as_bytes(), key.as_bytes()) {
                proof {
                    lemma_key_index_props(self@, key@);
                    assert(self@[j as int].0 == key@);
                    assert(key_index(self@, key@) == j);
                }
                return Some(&self.container[j].1);
            }
            j += 1;
        }
        proof {
            lemma_key_index_props(self@, key@);
        }
        None
    }
}

} // verus!
