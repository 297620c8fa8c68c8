//! Validated identifier strings used for type, library, field and variant
//! names. An identifier is 1 to 100 ASCII characters, starts with a letter
//! or an underscore, and continues with letters, digits or underscores.

use vstd::prelude::*;
use vstd::string::StringExecFns;

verus! {

/// Largest number of characters an identifier may hold.
pub const IDENT_MAX_LEN: usize = 100;

/// Whether `c` may open an identifier: an ASCII letter or `_`.
pub open spec fn is_ident_start(c: char) -> bool {
    ('A' <= c && c <= 'Z') || ('a' <= c && c <= 'z') || c == '_'
}

/// Whether `c` may continue an identifier: start characters plus digits.
pub open spec fn is_ident_char(c: char) -> bool {
    is_ident_start(c) || ('0' <= c && c <= '9')
}

/// Well-formedness of an identifier's character sequence.
pub open spec fn wf_ident(s: Seq<char>) -> bool {
    &&& 1 <= s.len() <= 100
    &&& is_ident_start(s[0])
    &&& forall|i: int| 0 <= i < s.len() ==> is_ident_char(#[trigger] s[i])
}

/// The byte form of an identifier: one byte per (ASCII) character.
pub open spec fn ident_bytes(s: Seq<char>) -> Seq<u8> {
    Seq::new(s.len(), |i: int| s[i] as u8)
}

/// Rejected identifier text: empty, too long, or holding a character
/// outside the identifier alphabet.
#[derive(Clone, Copy, PartialEq, Eq, Structural, Debug)]
pub struct InvalidIdent {}

/// A validated identifier. Serves as a type name, library name, field name
/// and variant name. Every value of this type holds well-formed text: the
/// only constructors validate first.
#[derive(PartialEq, Eq, Debug)]
pub struct Ident {
    s: String,
}

impl Clone for Ident {
    fn clone(&self) -> (r: Ident)
        ensures
            r@ == self@,
    {
        proof {
            use_type_invariant(self);
        }
        Ident { s: self.s.clone() }
    }
}

/// A type's name.
pub type TypeName = Ident;
/// A library's name.
pub type LibName = Ident;
/// A struct field's name.
pub type FieldName = Ident;
/// A union or enum variant's name.
pub type VariantName = Ident;

impl View for Ident {
    type V = Seq<char>;

    closed spec fn view(&self) -> Seq<char> {
        self.s@
    }
}

/// Whether byte `b` is the ASCII form of an identifier start character.
fn byte_is_ident_start(b: u8) -> (r: bool)
    ensures
        r == ((65 <= b && b <= 90) || (97 <= b && b <= 122) || b == 95),
{
    (65 <= b && b <= 90) || (97 <= b && b <= 122) || b == 95
}

/// Whether byte `b` is the ASCII form of an identifier character.
fn byte_is_ident_char(b: u8) -> (r: bool)
    ensures
        r == ((65 <= b && b <= 90) || (97 <= b && b <= 122) || b == 95 || (48 <= b && b <= 57)),
{
    byte_is_ident_start(b) || (48 <= b && b <= 57)
}

/// An identifier's characters all lie in the ASCII range.
pub proof fn lemma_ident_chars_ascii(s: Seq<char>)
    requires
        forall|i: int| 0 <= i < s.len() ==> is_ident_char(#[trigger] s[i]),
    ensures
        vstd::utf8::is_ascii_chars(s),
{
    assert forall|i: int| 0 <= i < s.len() implies '\0' <= #[trigger] s[i] <= '\u{7f}' by {
        assert(is_ident_char(s[i]));
    }
}

impl Ident {
    /// Well-formedness carried by every value this module hands out.
    pub open spec fn wf(&self) -> bool {
        wf_ident(self@)
    }

    /// Every identifier in existence holds validated text.
    #[verifier::type_invariant]
    closed spec fn type_inv(&self) -> bool {
        wf_ident(self.s@)
    }

    /// Recalls, in exec context, that this identifier's text is
    /// well-formed.
    pub fn wf_witness(&self)
        ensures
            self.wf(),
    {
        proof {
            use_type_invariant(self);
        }
    }

    /// Validates `s` and wraps it: `Ok` exactly on well-formed identifier
    /// text, holding that very text.
    pub fn try_from_str(s: &str) -> (r: Result<Ident, InvalidIdent>)
        ensures
            r is Ok <==> wf_ident(s@),
            r matches Ok(id) ==> id@ == s@ && id.wf(),
    {
        proof {
            broadcast use vstd::string::is_ascii_spec_bytes;
        }
        if !s.is_ascii() {
            proof {
                if wf_ident(s@) {
                    lemma_ident_chars_ascii(s@);
                }
            }
            return Err(InvalidIdent {});
        }
        let b = s.as_bytes();
        proof {
            vstd::utf8::is_ascii_chars_encode_utf8(s@);
        }
        let n = b.len();
        if n < 1 || n > IDENT_MAX_LEN {
            return Err(InvalidIdent {});
        }
        if !byte_is_ident_start(b[0]) {
            return Err(InvalidIdent {});
        }
        let mut i: usize = 1;
        while i < n
            invariant
                1 <= i <= n,
                n == s@.len(),
                vstd::utf8::is_ascii_chars(s@),
                b@.len() == s@.len(),
                forall|j: int| 0 <= j < s@.len() ==> #[trigger] b@[j] == s@[j] as u8,
                forall|j: int| 0 <= j < i ==> is_ident_char(#[trigger] s@[j]),
                is_ident_start(s@[0]),
            decreases n - i,
        {
            if !byte_is_ident_char(b[i]) {
                return Err(InvalidIdent {});
            }
            i += 1;
        }
        Ok(Ident { s: s.to_owned() })
    }

    /// The identifier's text.
    pub fn as_str(&self) -> (r: &str)
        ensures
            r@ == self@,
    {
        self.s.as_str()
    }

    /// The identifier's text as an owned string.
    pub fn to_text(&self) -> (r: String)
        ensures
            r@ == self@,
    {
        self.s.clone()
    }

    /// Number of characters.
    pub fn len(&self) -> (r: usize)
        ensures
            r == self@.len(),
    {
        proof {
            use_type_invariant(self);
            broadcast use vstd::string::is_ascii_spec_bytes;
            lemma_ident_chars_ascii(self.s@);
            vstd::utf8::is_ascii_chars_encode_utf8(self.s@);
        }
        self.s.as_str().len()
    }

    /// Wraps text already known to be well-formed.
    pub(crate) fn from_parts(s: String) -> (r: Ident)
        requires
            wf_ident(s@),
        ensures
            r@ == s@,
    {
        Ident { s }
    }

    /// Character-for-character equality of two identifiers.
    pub fn eq_name(&self, other: &Ident) -> (r: bool)
        ensures
            r == (self@ == other@),
    {
        self.s == other.s
    }

    /// Three-way comparison of two identifiers in the canonical byte
    /// order: `-1` when `self` comes first, `0` on equality, `1` when
    /// `other` comes first.
    pub fn cmp_name(&self, other: &Ident) -> (r: i8)
        ensures
            -1 <= r <= 1,
            (r == -1) <==> crate::order::lex_lt(ident_bytes(self@), ident_bytes(other@)),
            (r == 0) <==> self@ == other@,
            (r == 1) <==> crate::order::lex_lt(ident_bytes(other@), ident_bytes(self@)),
    {
        self.wf_witness();
        other.wf_witness();
        proof {
            broadcast use vstd::string::is_ascii_spec_bytes;
            lemma_ident_chars_ascii(self.s@);
            lemma_ident_chars_ascii(other.s@);
            vstd::utf8::is_ascii_chars_encode_utf8(self.s@);
            vstd::utf8::is_ascii_chars_encode_utf8(other.s@);
        }
        let a = self.s.as_str().as_bytes();
        let b = other.s.as_str().as_bytes();
        proof {
            assert(a@ =~= ident_bytes(self@));
            assert(b@ =~= ident_bytes(other@));
            if ident_bytes(self@) == ident_bytes(other@) {
                assert forall|i: int| 0 <= i < self@.len() implies self@[i] == other@[i] by {
                    assert(ident_bytes(self@)[i] == ident_bytes(other@)[i]);
                    assert(self@[i] as u8 == other@[i] as u8);
                    assert((self@[i] as u32) < 128 && (other@[i] as u32) < 128);
                }
                assert(self@ =~= other@);
            }
        }
        crate::order::lex_cmp(a, b)
    }
}

/// Relies on `String::from_utf8` (fed through `<[u8]>::to_vec`): bytes
/// below 128 decode to the characters of the same code points, one
/// character per byte.
#[verifier::external_body]
pub(crate) fn ascii_to_string(b: &[u8]) -> (r: String)
    requires
        forall|i: int| 0 <= i < b@.len() ==> b@[i] < 128,
    ensures
        r@.len() == b@.len(),
        forall|i: int| 0 <= i < b@.len() ==> #[trigger] r@[i] == b@[i] as char,
{
    String::from_utf8(b.to_vec()).expect("bytes are ASCII")
}

} // verus!
