//! Content-derived identities. A `SemId` commits to a single type's
//! canonical structure and names; a `TypeLibId` commits to a whole named
//! collection of types. Both are 32-byte hashes.

use vstd::prelude::*;
use crate::order::{lex_cmp, lex_lt};

verus! {

/// Digest of the given bytes under the hash this library's identities use.
pub uninterp spec fn blake3_of(data: Seq<u8>) -> Seq<u8>;

/// Keyed digest of the given bytes under a 32-byte domain-separation key.
pub uninterp spec fn blake3_keyed_of(key: Seq<u8>, data: Seq<u8>) -> Seq<u8>;

/// Relies on `blake3::hash`: the 32-byte digest is a function of the input
/// bytes alone.
#[verifier::external_body]
pub(crate) fn blake3_hash(data: &[u8]) -> (r: [u8; 32])
    ensures
        r@ == blake3_of(data@),
{
    *blake3::hash(data).as_bytes()
}

/// Relies on `blake3::keyed_hash`: the 32-byte digest is a function of the
/// 32-byte key and the input bytes alone.
#[verifier::external_body]
pub(crate) fn blake3_keyed(key: &[u8; 32], data: &[u8]) -> (r: [u8; 32])
    ensures
        r@ == blake3_keyed_of(key@, data@),
{
    *blake3::keyed_hash(key, data).as_bytes()
}

/// The domain-separation tag keyed into every library identity, as a byte
/// sequence: the ASCII text `urn:ubideco:strict-types:lib:v01`.
pub open spec fn lib_id_tag_spec() -> Seq<u8> {
    seq![
        117u8, 114, 110, 58, 117, 98, 105, 100, 101, 99, 111, 58, 115, 116, 114, 105,
        99, 116, 45, 116, 121, 112, 101, 115, 58, 108, 105, 98, 58, 118, 48, 49,
    ]
}

/// The domain-separation tag as a 32-byte key.
pub fn lib_id_tag() -> (r: [u8; 32])
    ensures
        r@ == lib_id_tag_spec(),
{
    let r: [u8; 32] = [
        117u8, 114, 110, 58, 117, 98, 105, 100, 101, 99, 111, 58, 115, 116, 114, 105,
        99, 116, 45, 116, 121, 112, 101, 115, 58, 108, 105, 98, 58, 118, 48, 49,
    ];
    proof {
        assert(r@ =~= lib_id_tag_spec());
    }
    r
}

/// Semantic type id: a 32-byte hash committing to a type's memory layout
/// and its field and variant names.
#[derive(Clone, Copy, Debug)]
pub struct SemId {
    pub bytes: [u8; 32],
}

impl View for SemId {
    type V = Seq<u8>;

    open spec fn view(&self) -> Seq<u8> {
        self.bytes@
    }
}

impl PartialEq for SemId {
    fn eq(&self, other: &SemId) -> (r: bool) {
        eq32(&self.bytes, &other.bytes)
    }
}

impl vstd::std_specs::cmp::PartialEqSpecImpl for SemId {
    open spec fn obeys_eq_spec() -> bool {
        true
    }

    open spec fn eq_spec(&self, other: &SemId) -> bool {
        self.bytes@ == other.bytes@
    }
}

impl Eq for SemId {

}

/// Byte-for-byte equality of two 32-byte arrays.
fn eq32(a: &[u8; 32], b: &[u8; 32]) -> (r: bool)
    ensures
        r == (a@ == b@),
{
    let r = lex_cmp(a.as_slice(), b.as_slice());
    r == 0
}

impl SemId {
    /// Wraps raw hash bytes.
    pub fn with(bytes: [u8; 32]) -> (r: SemId)
        ensures
            r@ == bytes@,
    {
        SemId { bytes }
    }

    /// The raw hash bytes.
    pub fn to_raw_array(&self) -> (r: [u8; 32])
        ensures
            r@ == self@,
    {
        self.bytes
    }

    /// The raw hash bytes as a slice.
    pub fn as_slice(&self) -> (r: &[u8])
        ensures
            r@ == self@,
    {
        self.bytes.as_slice()
    }

    /// Whether this identity comes strictly before `other` in the canonical
    /// byte order.
    pub fn lt_id(&self, other: &SemId) -> (r: bool)
        ensures
            r == lex_lt(self@, other@),
    {
        let c = lex_cmp(self.bytes.as_slice(), other.bytes.as_slice());
        c == -1
    }
}

/// Content identity of a whole type library: a keyed 32-byte hash over its
/// member identities.
#[derive(Clone, Copy, Debug)]
pub struct TypeLibId {
    pub bytes: [u8; 32],
}

impl View for TypeLibId {
    type V = Seq<u8>;

    open spec fn view(&self) -> Seq<u8> {
        self.bytes@
    }
}

impl PartialEq for TypeLibId {
    fn eq(&self, other: &TypeLibId) -> (r: bool) {
        eq32(&self.bytes, &other.bytes)
    }
}

impl vstd::std_specs::cmp::PartialEqSpecImpl for TypeLibId {
    open spec fn obeys_eq_spec() -> bool {
        true
    }

    open spec fn eq_spec(&self, other: &TypeLibId) -> bool {
        self.bytes@ == other.bytes@
    }
}

impl Eq for TypeLibId {

}

impl TypeLibId {
    /// Wraps raw hash bytes.
    pub fn from_raw_array(bytes: [u8; 32]) -> (r: TypeLibId)
        ensures
            r@ == bytes@,
    {
        TypeLibId { bytes }
    }

    /// The raw hash bytes.
    pub fn to_raw_array(&self) -> (r: [u8; 32])
        ensures
            r@ == self@,
    {
        self.bytes
    }
}

} // verus!
