//! The canonical decoder: parses the byte form back into a type node,
//! rejecting out-of-bounds member counts, unknown class codes, invalid
//! identifier text, variants out of canonical order, and trailing bytes.

use vstd::prelude::*;
use crate::fields::{BoundsError, Field, FieldV, NamedFields, UnnamedFields};
use crate::id::SemId;
use crate::ident::{ident_bytes, wf_ident, Ident};
use crate::prim::Sizing;
use crate::ty::{KeyTy, KeyTyV, Ty, TyV};
use crate::variants::{EnumVariants, UnionVariants, Variant, VariantV};
use crate::encode::{
    enc_alt, enc_concat, enc_counted, enc_field, enc_ident, enc_keyty, enc_sizing, enc_ty,
    enc_variant, le16, le64,
};

verus! {

/// A rejected byte stream.
#[derive(Clone, Copy, PartialEq, Eq, Structural, Debug)]
pub enum DecodeError {
    /// The input ended inside a value.
    UnexpectedEnd,
    /// A class-code byte outside the known range.
    UnknownCls(u8),
    /// An identifier holding invalid text.
    InvalidIdent,
    /// A member count outside the confined bounds.
    Confinement(BoundsError),
    /// Variants out of ascending tag order, or sharing a tag.
    WrongOrder,
    /// Bytes left over after the value.
    TrailingData,
}

/// Whether byte `b` may open an identifier.
pub open spec fn byte_is_start(b: u8) -> bool {
    (65 <= b && b <= 90) || (97 <= b && b <= 122) || b == 95
}

/// Whether byte `b` may continue an identifier.
pub open spec fn byte_is_identch(b: u8) -> bool {
    byte_is_start(b) || (48 <= b && b <= 57)
}

/// Whether `b` is the byte form of well-formed identifier text.
pub open spec fn bytes_valid_ident(b: Seq<u8>) -> bool {
    &&& 1 <= b.len() <= 100
    &&& byte_is_start(b[0])
    &&& forall|i: int| 0 <= i < b.len() ==> byte_is_identch(#[trigger] b[i])
}

/// The characters of ASCII bytes.
pub open spec fn chars_of_bytes(b: Seq<u8>) -> Seq<char> {
    Seq::new(b.len(), |i: int| b[i] as char)
}

/// One byte.
pub open spec fn dec_u8(s: Seq<u8>, pos: int) -> Result<(u8, int), DecodeError> {
    if 0 <= pos && pos + 1 <= s.len() {
        Ok((s[pos], pos + 1))
    } else {
        Err(DecodeError::UnexpectedEnd)
    }
}

/// A 16-bit number from two little-endian bytes.
pub open spec fn dec_u16(s: Seq<u8>, pos: int) -> Result<(u16, int), DecodeError> {
    if 0 <= pos && pos + 2 <= s.len() {
        Ok(((s[pos] + 256 * (s[pos + 1] as int)) as u16, pos + 2))
    } else {
        Err(DecodeError::UnexpectedEnd)
    }
}

/// A 64-bit number from eight little-endian bytes.
pub open spec fn dec_u64(s: Seq<u8>, pos: int) -> Result<(u64, int), DecodeError> {
    if 0 <= pos && pos + 8 <= s.len() {
        Ok(
            (
                (s[pos] + 256 * (s[pos + 1] as int) + 0x10000 * (s[pos + 2] as int) + 0x1000000 * (
                s[pos + 3] as int) + 0x100000000 * (s[pos + 4] as int) + 0x10000000000 * (s[pos
                    + 5] as int) + 0x1000000000000 * (s[pos + 6] as int) + 0x100000000000000 * (
                s[pos + 7] as int)) as u64,
                pos + 8,
            ),
        )
    } else {
        Err(DecodeError::UnexpectedEnd)
    }
}

/// An identifier: length prefix, then validated ASCII bytes.
pub open spec fn dec_ident(s: Seq<u8>, pos: int) -> Result<(Seq<char>, int), DecodeError> {
    match dec_u8(s, pos) {
        Ok((len, p1)) => if len < 1 || len > 100 {
            Err(DecodeError::InvalidIdent)
        } else if p1 + len > s.len() {
            Err(DecodeError::UnexpectedEnd)
        } else {
            let b = s.subrange(p1, p1 + len);
            if bytes_valid_ident(b) {
                Ok((chars_of_bytes(b), p1 + len))
            } else {
                Err(DecodeError::InvalidIdent)
            }
        },
        Err(e) => Err(e),
    }
}

/// A sizing interval: two 64-bit bounds.
pub open spec fn dec_sizing(s: Seq<u8>, pos: int) -> Result<(Sizing, int), DecodeError> {
    match dec_u64(s, pos) {
        Ok((min, p1)) => match dec_u64(s, p1) {
            Ok((max, p2)) => Ok((Sizing { min, max }, p2)),
            Err(e) => Err(e),
        },
        Err(e) => Err(e),
    }
}

/// A content identity: 32 raw bytes.
pub open spec fn dec_semid(s: Seq<u8>, pos: int) -> Result<(Seq<u8>, int), DecodeError> {
    if 0 <= pos && pos + 32 <= s.len() {
        Ok((s.subrange(pos, pos + 32), pos + 32))
    } else {
        Err(DecodeError::UnexpectedEnd)
    }
}

/// A variant: tag, then name.
pub open spec fn dec_variant(s: Seq<u8>, pos: int) -> Result<(VariantV, int), DecodeError> {
    match dec_u8(s, pos) {
        Ok((tag, p1)) => match dec_ident(s, p1) {
            Ok((name, p2)) => Ok((VariantV { name, tag }, p2)),
            Err(e) => Err(e),
        },
        Err(e) => Err(e),
    }
}

/// `n` variants in strictly ascending tag order, every tag above `last`.
pub open spec fn dec_variants_n(s: Seq<u8>, pos: int, n: int, last: int) -> Result<
    (Seq<VariantV>, int),
    DecodeError,
>
    decreases n,
{
    if n <= 0 {
        Ok((Seq::empty(), pos))
    } else {
        match dec_variant(s, pos) {
            Ok((v, p1)) => if v.tag <= last {
                Err(DecodeError::WrongOrder)
            } else {
                match dec_variants_n(s, p1, n - 1, v.tag as int) {
                    Ok((rest, p2)) => Ok((seq![v] + rest, p2)),
                    Err(e) => Err(e),
                }
            },
            Err(e) => Err(e),
        }
    }
}

/// `n` union entries in strictly ascending tag order.
pub open spec fn dec_alts_n(s: Seq<u8>, pos: int, n: int, last: int) -> Result<
    (Seq<(VariantV, Seq<u8>)>, int),
    DecodeError,
>
    decreases n,
{
    if n <= 0 {
        Ok((Seq::empty(), pos))
    } else {
        match dec_variant(s, pos) {
            Ok((v, p1)) => if v.tag <= last {
                Err(DecodeError::WrongOrder)
            } else {
                match dec_semid(s, p1) {
                    Ok((id, p2)) => match dec_alts_n(s, p2, n - 1, v.tag as int) {
                        Ok((rest, p3)) => Ok((seq![(v, id)] + rest, p3)),
                        Err(e) => Err(e),
                    },
                    Err(e) => Err(e),
                }
            },
            Err(e) => Err(e),
        }
    }
}

/// `n` named fields, in declaration order.
pub open spec fn dec_fields_n(s: Seq<u8>, pos: int, n: int) -> Result<
    (Seq<FieldV>, int),
    DecodeError,
>
    decreases n,
{
    if n <= 0 {
        Ok((Seq::empty(), pos))
    } else {
        match dec_ident(s, pos) {
            Ok((name, p1)) => match dec_semid(s, p1) {
                Ok((id, p2)) => match dec_fields_n(s, p2, n - 1) {
                    Ok((rest, p3)) => Ok((seq![FieldV { name, ty: id }] + rest, p3)),
                    Err(e) => Err(e),
                },
                Err(e) => Err(e),
            },
            Err(e) => Err(e),
        }
    }
}

/// `n` bare references, in declaration order.
pub open spec fn dec_ids_n(s: Seq<u8>, pos: int, n: int) -> Result<
    (Seq<Seq<u8>>, int),
    DecodeError,
>
    decreases n,
{
    if n <= 0 {
        Ok((Seq::empty(), pos))
    } else {
        match dec_semid(s, pos) {
            Ok((id, p1)) => match dec_ids_n(s, p1, n - 1) {
                Ok((rest, p2)) => Ok((seq![id] + rest, p2)),
                Err(e) => Err(e),
            },
            Err(e) => Err(e),
        }
    }
}

/// A member count byte, rejecting zero.
pub open spec fn dec_count(s: Seq<u8>, pos: int) -> Result<(u8, int), DecodeError> {
    match dec_u8(s, pos) {
        Ok((n, p1)) => if n == 0 {
            Err(
                DecodeError::Confinement(
                    BoundsError { len: 0, min: crate::fields::CONFINED_MIN, max: crate::fields::CONFINED_MAX },
                ),
            )
        } else {
            Ok((n, p1))
        },
        Err(e) => Err(e),
    }
}

/// A key type: class code, then payload.
pub open spec fn dec_keyty(s: Seq<u8>, pos: int) -> Result<(KeyTyV, int), DecodeError> {
    match dec_u8(s, pos) {
        Ok((cls, p1)) => if cls == 0 {
            match dec_u8(s, p1) {
                Ok((code, p2)) => Ok((KeyTyV::Primitive(crate::prim::Primitive { code }), p2)),
                Err(e) => Err(e),
            }
        } else if cls == 3 {
            match dec_count(s, p1) {
                Ok((n, p2)) => match dec_variants_n(s, p2, n as int, -1) {
                    Ok((vs, p3)) => Ok((KeyTyV::Enum(vs), p3)),
                    Err(e) => Err(e),
                },
                Err(e) => Err(e),
            }
        } else if cls == 7 {
            match dec_u16(s, p1) {
                Ok((len, p2)) => Ok((KeyTyV::Array(len), p2)),
                Err(e) => Err(e),
            }
        } else if cls == 1 {
            match dec_sizing(s, p1) {
                Ok((sz, p2)) => Ok((KeyTyV::UnicodeStr(sz), p2)),
                Err(e) => Err(e),
            }
        } else if cls == 2 {
            match dec_sizing(s, p1) {
                Ok((sz, p2)) => Ok((KeyTyV::AsciiStr(sz), p2)),
                Err(e) => Err(e),
            }
        } else if cls == 8 {
            match dec_sizing(s, p1) {
                Ok((sz, p2)) => Ok((KeyTyV::Bytes(sz), p2)),
                Err(e) => Err(e),
            }
        } else {
            Err(DecodeError::UnknownCls(cls))
        },
        Err(e) => Err(e),
    }
}

/// A type node: class code, then payload.
pub open spec fn dec_ty(s: Seq<u8>, pos: int) -> Result<(TyV, int), DecodeError> {
    match dec_u8(s, pos) {
        Ok((cls, p1)) => if cls == 0 {
            match dec_u8(s, p1) {
                Ok((code, p2)) => Ok((TyV::Primitive(crate::prim::Primitive { code }), p2)),
                Err(e) => Err(e),
            }
        } else if cls == 1 {
            Ok((TyV::UnicodeChar, p1))
        } else if cls == 3 {
            match dec_count(s, p1) {
                Ok((n, p2)) => match dec_variants_n(s, p2, n as int, -1) {
                    Ok((vs, p3)) => Ok((TyV::Enum(vs), p3)),
                    Err(e) => Err(e),
                },
                Err(e) => Err(e),
            }
        } else if cls == 4 {
            match dec_count(s, p1) {
                Ok((n, p2)) => match dec_alts_n(s, p2, n as int, -1) {
                    Ok((alts, p3)) => Ok((TyV::Union(alts), p3)),
                    Err(e) => Err(e),
                },
                Err(e) => Err(e),
            }
        } else if cls == 5 {
            match dec_count(s, p1) {
                Ok((n, p2)) => match dec_fields_n(s, p2, n as int) {
                    Ok((fs, p3)) => Ok((TyV::Struct(fs), p3)),
                    Err(e) => Err(e),
                },
                Err(e) => Err(e),
            }
        } else if cls == 6 {
            match dec_count(s, p1) {
                Ok((n, p2)) => match dec_ids_n(s, p2, n as int) {
                    Ok((ids, p3)) => Ok((TyV::Tuple(ids), p3)),
                    Err(e) => Err(e),
                },
                Err(e) => Err(e),
            }
        } else if cls == 7 {
            match dec_semid(s, p1) {
                Ok((id, p2)) => match dec_u16(s, p2) {
                    Ok((len, p3)) => Ok((TyV::Array(id, len), p3)),
                    Err(e) => Err(e),
                },
                Err(e) => Err(e),
            }
        } else if cls == 8 {
            match dec_semid(s, p1) {
                Ok((id, p2)) => match dec_sizing(s, p2) {
                    Ok((sz, p3)) => Ok((TyV::List(id, sz), p3)),
                    Err(e) => Err(e),
                },
                Err(e) => Err(e),
            }
        } else if cls == 9 {
            match dec_semid(s, p1) {
                Ok((id, p2)) => match dec_sizing(s, p2) {
                    Ok((sz, p3)) => Ok((TyV::SetOf(id, sz), p3)),
                    Err(e) => Err(e),
                },
                Err(e) => Err(e),
            }
        } else if cls == 10 {
            match dec_keyty(s, p1) {
                Ok((k, p2)) => match dec_semid(s, p2) {
                    Ok((id, p3)) => match dec_sizing(s, p3) {
                        Ok((sz, p4)) => Ok((TyV::MapOf(k, id, sz), p4)),
                        Err(e) => Err(e),
                    },
                    Err(e) => Err(e),
                },
                Err(e) => Err(e),
            }
        } else {
            Err(DecodeError::UnknownCls(cls))
        },
        Err(e) => Err(e),
    }
}

/// A whole byte string as one type node: the node, then nothing.
pub open spec fn dec_ty_full(s: Seq<u8>) -> Result<TyV, DecodeError> {
    match dec_ty(s, 0) {
        Ok((t, end)) => if end == s.len() {
            Ok(t)
        } else {
            Err(DecodeError::TrailingData)
        },
        Err(e) => Err(e),
    }
}

/// Splitting a known two-part slice into its parts.
pub proof fn lemma_slice_parts(s: Seq<u8>, pos: int, a: Seq<u8>, b: Seq<u8>)
    requires
        0 <= pos,
        pos + a.len() + b.len() <= s.len(),
        s.subrange(pos, pos + a.len() + b.len()) == a + b,
    ensures
        s.subrange(pos, pos + a.len()) == a,
        s.subrange(pos + a.len(), pos + a.len() + b.len()) == b,
{
    assert forall|k: int| 0 <= k < a.len() implies s[pos + k] == a[k] by {
        assert(s.subrange(pos, pos + a.len() + b.len())[k] == s[pos + k]);
        assert(s.subrange(pos, pos + a.len() + b.len())[k] == (a + b)[k]);
        assert((a + b)[k] == a[k]);
    }
    assert forall|k: int| 0 <= k < b.len() implies s[pos + a.len() + k] == b[k] by {
        assert(s.subrange(pos, pos + a.len() + b.len())[a.len() + k] == s[pos + a.len() + k]);
        assert(s.subrange(pos, pos + a.len() + b.len())[a.len() + k] == (a + b)[a.len() + k]);
        assert((a + b)[a.len() + k] == b[k]);
    }
    assert(s.subrange(pos, pos + a.len()) =~= a);
    assert(s.subrange(pos + a.len(), pos + a.len() + b.len()) =~= b);
}

/// Parsing back two little-endian bytes.
pub proof fn lemma_dec_u16_of_le16(s: Seq<u8>, pos: int, n: u16)
    requires
        0 <= pos,
        pos + 2 <= s.len(),
        s.subrange(pos, pos + 2) == le16(n),
    ensures
        dec_u16(s, pos) == Ok::<(u16, int), DecodeError>((n, pos + 2)),
{
    assert(s[pos] == le16(n)[0]);
    assert(s[pos + 1] == le16(n)[1]);
    assert((n % 256) + 256 * ((n / 256) as int) == n) by {
        vstd::arithmetic::div_mod::lemma_fundamental_div_mod(n as int, 256);
    }
}

/// Parsing back eight little-endian bytes.
pub proof fn lemma_dec_u64_of_le64(s: Seq<u8>, pos: int, n: u64)
    requires
        0 <= pos,
        pos + 8 <= s.len(),
        s.subrange(pos, pos + 8) == le64(n),
    ensures
        dec_u64(s, pos) == Ok::<(u64, int), DecodeError>((n, pos + 8)),
{
    assert forall|k: int| 0 <= k < 8 implies s[pos + k] == le64(n)[k] by {
        assert(s.subrange(pos, pos + 8)[k] == le64(n)[k]);
    }
    assert((n % 256) as int + 256 * (((n / 256) % 256) as int) + 0x10000 * (((n / 0x10000) % 256)
        as int) + 0x1000000 * (((n / 0x1000000) % 256) as int) + 0x100000000 * (((n / 0x100000000)
        % 256) as int) + 0x10000000000 * (((n / 0x10000000000) % 256) as int) + 0x1000000000000 * ((
    (n / 0x1000000000000) % 256) as int) + 0x100000000000000 * (((n / 0x100000000000000) % 256)
        as int) == n) by (bit_vector);
}

/// The byte form of well-formed identifier text is valid and decodes to
/// the same characters.
pub proof fn lemma_ident_bytes_bridge(nm: Seq<char>)
    requires
        wf_ident(nm),
    ensures
        bytes_valid_ident(ident_bytes(nm)),
        chars_of_bytes(ident_bytes(nm)) == nm,
{
    assert forall|i: int| 0 <= i < nm.len() implies byte_is_identch(#[trigger] ident_bytes(nm)[i])
        && (ident_bytes(nm)[i] as char) == nm[i] by {
        assert(crate::ident::is_ident_char(nm[i]));
        assert(ident_bytes(nm)[i] == nm[i] as u8);
    }
    assert(byte_is_start(ident_bytes(nm)[0])) by {
        assert(crate::ident::is_ident_start(nm[0]));
        assert(ident_bytes(nm)[0] == nm[0] as u8);
    }
    assert(chars_of_bytes(ident_bytes(nm)) =~= nm);
}

/// Parsing back an encoded identifier.
pub proof fn lemma_dec_ident_of_enc(s: Seq<u8>, pos: int, nm: Seq<char>)
    requires
        0 <= pos,
        pos + enc_ident(nm).len() <= s.len(),
        s.subrange(pos, pos + enc_ident(nm).len()) == enc_ident(nm),
        wf_ident(nm),
    ensures
        dec_ident(s, pos) == Ok::<(Seq<char>, int), DecodeError>((nm, pos + enc_ident(nm).len())),
{
    let l = nm.len() as int;
    assert(enc_ident(nm).len() == 1 + l);
    lemma_slice_parts(s, pos, seq![nm.len() as u8], ident_bytes(nm));
    assert(s[pos] == seq![nm.len() as u8][0]) by {
        assert(s.subrange(pos, pos + 1)[0] == seq![nm.len() as u8][0]);
    }
    assert(s[pos] == l);
    let b = s.subrange(pos + 1, pos + 1 + l);
    assert(b == ident_bytes(nm));
    lemma_ident_bytes_bridge(nm);
}

/// Parsing back an encoded sizing interval.
pub proof fn lemma_dec_sizing_of_enc(s: Seq<u8>, pos: int, sz: Sizing)
    requires
        0 <= pos,
        pos + 16 <= s.len(),
        s.subrange(pos, pos + 16) == enc_sizing(sz),
    ensures
        dec_sizing(s, pos) == Ok::<(Sizing, int), DecodeError>((sz, pos + 16)),
{
    lemma_slice_parts(s, pos, le64(sz.min), le64(sz.max));
    lemma_dec_u64_of_le64(s, pos, sz.min);
    lemma_dec_u64_of_le64(s, pos + 8, sz.max);
}

/// Parsing back an encoded content identity.
pub proof fn lemma_dec_semid_of_enc(s: Seq<u8>, pos: int, id: Seq<u8>)
    requires
        0 <= pos,
        id.len() == 32,
        pos + 32 <= s.len(),
        s.subrange(pos, pos + 32) == id,
    ensures
        dec_semid(s, pos) == Ok::<(Seq<u8>, int), DecodeError>((id, pos + 32)),
{
}

/// Parsing back an encoded variant.
pub proof fn lemma_dec_variant_of_enc(s: Seq<u8>, pos: int, v: VariantV)
    requires
        0 <= pos,
        pos + enc_variant(v).len() <= s.len(),
        s.subrange(pos, pos + enc_variant(v).len()) == enc_variant(v),
        wf_ident(v.name),
    ensures
        dec_variant(s, pos) == Ok::<(VariantV, int), DecodeError>(
            (v, pos + enc_variant(v).len()),
        ),
{
    lemma_slice_parts(s, pos, seq![v.tag], enc_ident(v.name));
    assert(s[pos] == seq![v.tag][0]) by {
        assert(s.subrange(pos, pos + 1)[0] == seq![v.tag][0]);
    }
    lemma_dec_ident_of_enc(s, pos + 1, v.name);
}

/// Parsing back an encoded run of variants.
pub proof fn lemma_dec_variants_n_of_enc(s: Seq<u8>, pos: int, vs: Seq<VariantV>, last: int)
    requires
        0 <= pos,
        pos + enc_concat(vs, crate::encode::variant_enc()).len() <= s.len(),
        s.subrange(pos, pos + enc_concat(vs, crate::encode::variant_enc()).len()) == enc_concat(
            vs,
            crate::encode::variant_enc(),
        ),
        crate::fields::key_sorted(vs, crate::variants::variant_key()),
        forall|i: int| 0 <= i < vs.len() ==> wf_ident((#[trigger] vs[i]).name),
        forall|i: int| 0 <= i < vs.len() ==> last < (#[trigger] vs[i]).tag,
    ensures
        dec_variants_n(s, pos, vs.len() as int, last) == Ok::<(Seq<VariantV>, int), DecodeError>(
            (vs, pos + enc_concat(vs, crate::encode::variant_enc()).len()),
        ),
    decreases vs.len(),
{
    let f = crate::encode::variant_enc();
    if vs.len() == 0 {
        assert(vs =~= Seq::<VariantV>::empty());
    } else {
        let v = vs[0];
        let rest = vs.drop_first();
        assert(enc_concat(vs, f) == f(vs[0]) + enc_concat(rest, f));
        assert(f(v) == enc_variant(v));
        lemma_slice_parts(s, pos, enc_variant(v), enc_concat(rest, f));
        lemma_dec_variant_of_enc(s, pos, v);
        let p1 = pos + enc_variant(v).len();
        assert forall|i: int| 0 <= i < rest.len() implies wf_ident((#[trigger] rest[i]).name)
            && (v.tag as int) < rest[i].tag && crate::variants::variant_key()(rest[i])
            == rest[i].tag by {
            assert(rest[i] == vs[i + 1]);
            assert(crate::variants::variant_key()(vs[0]) < crate::variants::variant_key()(
                vs[i + 1],
            ));
        }
        assert(crate::fields::key_sorted(rest, crate::variants::variant_key())) by {
            assert forall|a: int, b: int|
                0 <= a < b < rest.len() implies crate::variants::variant_key()(
                #[trigger] rest[a],
            ) < crate::variants::variant_key()(#[trigger] rest[b]) by {
                assert(rest[a] == vs[a + 1]);
                assert(rest[b] == vs[b + 1]);
                assert(crate::variants::variant_key()(vs[a + 1]) < crate::variants::variant_key()(
                    vs[b + 1],
                ));
            }
        }
        lemma_dec_variants_n_of_enc(s, p1, rest, v.tag as int);
        assert(seq![v] + rest =~= vs);
    }
}

/// Parsing back an encoded run of union entries.
pub proof fn lemma_dec_alts_n_of_enc(s: Seq<u8>, pos: int, vs: Seq<(VariantV, Seq<u8>)>, last: int)
    requires
        0 <= pos,
        pos + enc_concat(vs, crate::encode::alt_enc()).len() <= s.len(),
        s.subrange(pos, pos + enc_concat(vs, crate::encode::alt_enc()).len()) == enc_concat(
            vs,
            crate::encode::alt_enc(),
        ),
        crate::fields::key_sorted(vs, crate::variants::alt_key()),
        forall|i: int| 0 <= i < vs.len() ==> wf_ident((#[trigger] vs[i]).0.name),
        forall|i: int| 0 <= i < vs.len() ==> (#[trigger] vs[i]).1.len() == 32,
        forall|i: int| 0 <= i < vs.len() ==> last < (#[trigger] vs[i]).0.tag,
    ensures
        dec_alts_n(s, pos, vs.len() as int, last) == Ok::<
            (Seq<(VariantV, Seq<u8>)>, int),
            DecodeError,
        >((vs, pos + enc_concat(vs, crate::encode::alt_enc()).len())),
    decreases vs.len(),
{
    let f = crate::encode::alt_enc();
    if vs.len() == 0 {
        assert(vs =~= Seq::<(VariantV, Seq<u8>)>::empty());
    } else {
        let v = vs[0];
        let rest = vs.drop_first();
        assert(enc_concat(vs, f) == f(vs[0]) + enc_concat(rest, f));
        assert(f(v) == enc_alt(v));
        lemma_slice_parts(s, pos, enc_alt(v), enc_concat(rest, f));
        assert(enc_alt(v) == enc_variant(v.0) + v.1);
        lemma_slice_parts(s, pos, enc_variant(v.0), v.1);
        lemma_dec_variant_of_enc(s, pos, v.0);
        let p1 = pos + enc_variant(v.0).len();
        lemma_dec_semid_of_enc(s, p1, v.1);
        let p2 = p1 + 32;
        assert forall|i: int| 0 <= i < rest.len() implies wf_ident((#[trigger] rest[i]).0.name)
            && rest[i].1.len() == 32 && (v.0.tag as int) < rest[i].0.tag by {
            assert(rest[i] == vs[i + 1]);
            assert(crate::variants::alt_key()(vs[0]) < crate::variants::alt_key()(vs[i + 1]));
        }
        assert(crate::fields::key_sorted(rest, crate::variants::alt_key())) by {
            assert forall|a: int, b: int|
                0 <= a < b < rest.len() implies crate::variants::alt_key()(#[trigger] rest[a])
                < crate::variants::alt_key()(#[trigger] rest[b]) by {
                assert(rest[a] == vs[a + 1]);
                assert(rest[b] == vs[b + 1]);
                assert(crate::variants::alt_key()(vs[a + 1]) < crate::variants::alt_key()(
                    vs[b + 1],
                ));
            }
        }
        lemma_dec_alts_n_of_enc(s, p2, rest, v.0.tag as int);
        assert(seq![v] + rest =~= vs);
    }
}

/// Parsing back an encoded run of named fields.
pub proof fn lemma_dec_fields_n_of_enc(s: Seq<u8>, pos: int, fs: Seq<FieldV>)
    requires
        0 <= pos,
        pos + enc_concat(fs, crate::encode::field_enc()).len() <= s.len(),
        s.subrange(pos, pos + enc_concat(fs, crate::encode::field_enc()).len()) == enc_concat(
            fs,
            crate::encode::field_enc(),
        ),
        forall|i: int| 0 <= i < fs.len() ==> wf_ident((#[trigger] fs[i]).name),
        forall|i: int| 0 <= i < fs.len() ==> (#[trigger] fs[i]).ty.len() == 32,
    ensures
        dec_fields_n(s, pos, fs.len() as int) == Ok::<(Seq<FieldV>, int), DecodeError>(
            (fs, pos + enc_concat(fs, crate::encode::field_enc()).len()),
        ),
    decreases fs.len(),
{
    let f = crate::encode::field_enc();
    if fs.len() == 0 {
        assert(fs =~= Seq::<FieldV>::empty());
    } else {
        let v = fs[0];
        let rest = fs.drop_first();
        assert(enc_concat(fs, f) == f(fs[0]) + enc_concat(rest, f));
        assert(f(v) == enc_field(v));
        lemma_slice_parts(s, pos, enc_field(v), enc_concat(rest, f));
        assert(enc_field(v) == enc_ident(v.name) + v.ty);
        lemma_slice_parts(s, pos, enc_ident(v.name), v.ty);
        lemma_dec_ident_of_enc(s, pos, v.name);
        let p1 = pos + enc_ident(v.name).len();
        lemma_dec_semid_of_enc(s, p1, v.ty);
        let p2 = p1 + 32;
        assert forall|i: int| 0 <= i < rest.len() implies wf_ident((#[trigger] rest[i]).name)
            && rest[i].ty.len() == 32 by {
            assert(rest[i] == fs[i + 1]);
        }
        lemma_dec_fields_n_of_enc(s, p2, rest);
        assert((FieldV { name: v.name, ty: v.ty }) == v);
        assert(seq![v] + rest =~= fs);
    }
}

/// Parsing back an encoded run of bare references.
pub proof fn lemma_dec_ids_n_of_enc(s: Seq<u8>, pos: int, ids: Seq<Seq<u8>>)
    requires
        0 <= pos,
        pos + enc_concat(ids, crate::encode::id_enc()).len() <= s.len(),
        s.subrange(pos, pos + enc_concat(ids, crate::encode::id_enc()).len()) == enc_concat(
            ids,
            crate::encode::id_enc(),
        ),
        forall|i: int| 0 <= i < ids.len() ==> (#[trigger] ids[i]).len() == 32,
    ensures
        dec_ids_n(s, pos, ids.len() as int) == Ok::<(Seq<Seq<u8>>, int), DecodeError>(
            (ids, pos + enc_concat(ids, crate::encode::id_enc()).len()),
        ),
    decreases ids.len(),
{
    let f = crate::encode::id_enc();
    if ids.len() == 0 {
        assert(ids =~= Seq::<Seq<u8>>::empty());
    } else {
        let v = ids[0];
        let rest = ids.drop_first();
        assert(enc_concat(ids, f) == f(ids[0]) + enc_concat(rest, f));
        assert(f(v) == v);
        lemma_slice_parts(s, pos, v, enc_concat(rest, f));
        lemma_dec_semid_of_enc(s, pos, v);
        let p1 = pos + 32;
        assert forall|i: int| 0 <= i < rest.len() implies (#[trigger] rest[i]).len() == 32 by {
            assert(rest[i] == ids[i + 1]);
        }
        lemma_dec_ids_n_of_enc(s, p1, rest);
        assert(seq![v] + rest =~= ids);
    }
}

/// Parsing back an encoded key type.
pub proof fn lemma_dec_keyty_of_enc(s: Seq<u8>, pos: int, k: KeyTyV)
    requires
        0 <= pos,
        pos + enc_keyty(k).len() <= s.len(),
        s.subrange(pos, pos + enc_keyty(k).len()) == enc_keyty(k),
        crate::ty::wf_keyty(k),
    ensures
        dec_keyty(s, pos) == Ok::<(KeyTyV, int), DecodeError>((k, pos + enc_keyty(k).len())),
{
    match k {
        KeyTyV::Primitive(p) => {
            assert(s[pos] == enc_keyty(k)[0]) by {
                assert(s.subrange(pos, pos + 2)[0] == s[pos]);
            }
            assert(s[pos + 1] == enc_keyty(k)[1]) by {
                assert(s.subrange(pos, pos + 2)[1] == s[pos + 1]);
            }
            assert(p == (crate::prim::Primitive { code: p.code }));
        },
        KeyTyV::Enum(vs) => {
            let f = crate::encode::variant_enc();
            let body = enc_concat(vs, f);
            assert(enc_keyty(k) =~= seq![3u8] + (seq![vs.len() as u8] + body));
            lemma_slice_parts(s, pos, seq![3u8], seq![vs.len() as u8] + body);
            lemma_slice_parts(s, pos + 1, seq![vs.len() as u8], body);
            assert(s[pos] == 3) by {
                assert(s.subrange(pos, pos + 1)[0] == s[pos]);
            }
            assert(s[pos + 1] == vs.len() as u8) by {
                assert(s.subrange(pos + 1, pos + 2)[0] == s[pos + 1]);
            }
            assert(1 <= vs.len() <= 255);
            assert forall|i: int| 0 <= i < vs.len() implies -1 < (#[trigger] vs[i]).tag by {}
            lemma_dec_variants_n_of_enc(s, pos + 2, vs, -1);
        },
        KeyTyV::Array(len) => {
            assert(enc_keyty(k) =~= seq![7u8] + le16(len));
            lemma_slice_parts(s, pos, seq![7u8], le16(len));
            assert(s[pos] == 7) by {
                assert(s.subrange(pos, pos + 1)[0] == s[pos]);
            }
            lemma_dec_u16_of_le16(s, pos + 1, len);
        },
        KeyTyV::UnicodeStr(sz) => {
            assert(enc_keyty(k) =~= seq![1u8] + enc_sizing(sz));
            lemma_slice_parts(s, pos, seq![1u8], enc_sizing(sz));
            assert(s[pos] == 1) by {
                assert(s.subrange(pos, pos + 1)[0] == s[pos]);
            }
            lemma_dec_sizing_of_enc(s, pos + 1, sz);
        },
        KeyTyV::AsciiStr(sz) => {
            assert(enc_keyty(k) =~= seq![2u8] + enc_sizing(sz));
            lemma_slice_parts(s, pos, seq![2u8], enc_sizing(sz));
            assert(s[pos] == 2) by {
                assert(s.subrange(pos, pos + 1)[0] == s[pos]);
            }
            lemma_dec_sizing_of_enc(s, pos + 1, sz);
        },
        KeyTyV::Bytes(sz) => {
            assert(enc_keyty(k) =~= seq![8u8] + enc_sizing(sz));
            lemma_slice_parts(s, pos, seq![8u8], enc_sizing(sz));
            assert(s[pos] == 8) by {
                assert(s.subrange(pos, pos + 1)[0] == s[pos]);
            }
            lemma_dec_sizing_of_enc(s, pos + 1, sz);
        },
    }
}

/// Parsing back an encoded type node.
#[verifier::rlimit(60)]
#[verifier::spinoff_prover]
pub proof fn lemma_dec_ty_of_enc(s: Seq<u8>, pos: int, t: TyV)
    requires
        0 <= pos,
        pos + enc_ty(t).len() <= s.len(),
        s.subrange(pos, pos + enc_ty(t).len()) == enc_ty(t),
        crate::ty::wf_ty(t),
    ensures
        dec_ty(s, pos) == Ok::<(TyV, int), DecodeError>((t, pos + enc_ty(t).len())),
{
    match t {
        TyV::Primitive(p) => {
            assert(s[pos] == enc_ty(t)[0]) by {
                assert(s.subrange(pos, pos + 2)[0] == s[pos]);
            }
            assert(s[pos + 1] == enc_ty(t)[1]) by {
                assert(s.subrange(pos, pos + 2)[1] == s[pos + 1]);
            }
            assert(p == (crate::prim::Primitive { code: p.code }));
        },
        TyV::UnicodeChar => {
            assert(s[pos] == enc_ty(t)[0]) by {
                assert(s.subrange(pos, pos + 1)[0] == s[pos]);
            }
        },
        TyV::Enum(vs) => {
            let f = crate::encode::variant_enc();
            let body = enc_concat(vs, f);
            assert(enc_ty(t) =~= seq![3u8] + (seq![vs.len() as u8] + body));
            lemma_slice_parts(s, pos, seq![3u8], seq![vs.len() as u8] + body);
            lemma_slice_parts(s, pos + 1, seq![vs.len() as u8], body);
            assert(s[pos] == 3) by {
                assert(s.subrange(pos, pos + 1)[0] == s[pos]);
            }
            assert(s[pos + 1] == vs.len() as u8) by {
                assert(s.subrange(pos + 1, pos + 2)[0] == s[pos + 1]);
            }
            assert(1 <= vs.len() <= 255);
            lemma_dec_variants_n_of_enc(s, pos + 2, vs, -1);
        },
        TyV::Union(alts) => {
            let f = crate::encode::alt_enc();
            let body = enc_concat(alts, f);
            assert(enc_ty(t) =~= seq![4u8] + (seq![alts.len() as u8] + body));
            lemma_slice_parts(s, pos, seq![4u8], seq![alts.len() as u8] + body);
            lemma_slice_parts(s, pos + 1, seq![alts.len() as u8], body);
            assert(s[pos] == 4) by {
                assert(s.subrange(pos, pos + 1)[0] == s[pos]);
            }
            assert(s[pos + 1] == alts.len() as u8) by {
                assert(s.subrange(pos + 1, pos + 2)[0] == s[pos + 1]);
            }
            assert(1 <= alts.len() <= 255);
            lemma_dec_alts_n_of_enc(s, pos + 2, alts, -1);
        },
        TyV::Struct(fs) => {
            let f = crate::encode::field_enc();
            let body = enc_concat(fs, f);
            assert(enc_ty(t) =~= seq![5u8] + (seq![fs.len() as u8] + body));
            lemma_slice_parts(s, pos, seq![5u8], seq![fs.len() as u8] + body);
            lemma_slice_parts(s, pos + 1, seq![fs.len() as u8], body);
            assert(s[pos] == 5) by {
                assert(s.subrange(pos, pos + 1)[0] == s[pos]);
            }
            assert(s[pos + 1] == fs.len() as u8) by {
                assert(s.subrange(pos + 1, pos + 2)[0] == s[pos + 1]);
            }
            assert(1 <= fs.len() <= 255);
            lemma_dec_fields_n_of_enc(s, pos + 2, fs);
        },
        TyV::Tuple(ids) => {
            let f = crate::encode::id_enc();
            let body = enc_concat(ids, f);
            assert(enc_ty(t) =~= seq![6u8] + (seq![ids.len() as u8] + body));
            lemma_slice_parts(s, pos, seq![6u8], seq![ids.len() as u8] + body);
            lemma_slice_parts(s, pos + 1, seq![ids.len() as u8], body);
            assert(s[pos] == 6) by {
                assert(s.subrange(pos, pos + 1)[0] == s[pos]);
            }
            assert(s[pos + 1] == ids.len() as u8) by {
                assert(s.subrange(pos + 1, pos + 2)[0] == s[pos + 1]);
            }
            assert(1 <= ids.len() <= 255);
            lemma_dec_ids_n_of_enc(s, pos + 2, ids);
        },
        TyV::Array(id, len) => {
            assert(enc_ty(t) =~= seq![7u8] + (id + le16(len)));
            lemma_slice_parts(s, pos, seq![7u8], id + le16(len));
            lemma_slice_parts(s, pos + 1, id, le16(len));
            assert(s[pos] == 7) by {
                assert(s.subrange(pos, pos + 1)[0] == s[pos]);
            }
            lemma_dec_semid_of_enc(s, pos + 1, id);
            lemma_dec_u16_of_le16(s, pos + 1 + 32, len);
        },
        TyV::List(id, sz) => {
            assert(enc_ty(t) =~= seq![8u8] + (id + enc_sizing(sz)));
            lemma_slice_parts(s, pos, seq![8u8], id + enc_sizing(sz));
            lemma_slice_parts(s, pos + 1, id, enc_sizing(sz));
            assert(s[pos] == 8) by {
                assert(s.subrange(pos, pos + 1)[0] == s[pos]);
            }
            lemma_dec_semid_of_enc(s, pos + 1, id);
            lemma_dec_sizing_of_enc(s, pos + 1 + 32, sz);
        },
        TyV::SetOf(id, sz) => {
            assert(enc_ty(t) =~= seq![9u8] + (id + enc_sizing(sz)));
            lemma_slice_parts(s, pos, seq![9u8], id + enc_sizing(sz));
            lemma_slice_parts(s, pos + 1, id, enc_sizing(sz));
            assert(s[pos] == 9) by {
                assert(s.subrange(pos, pos + 1)[0] == s[pos]);
            }
            lemma_dec_semid_of_enc(s, pos + 1, id);
            lemma_dec_sizing_of_enc(s, pos + 1 + 32, sz);
        },
        TyV::MapOf(k, id, sz) => {
            let kb = enc_keyty(k);
            assert(enc_ty(t) =~= seq![10u8] + (kb + (id + enc_sizing(sz))));
            lemma_slice_parts(s, pos, seq![10u8], kb + (id + enc_sizing(sz)));
            lemma_slice_parts(s, pos + 1, kb, id + enc_sizing(sz));
            lemma_slice_parts(s, pos + 1 + kb.len(), id, enc_sizing(sz));
            assert(s[pos] == 10) by {
                assert(s.subrange(pos, pos + 1)[0] == s[pos]);
            }
            lemma_dec_keyty_of_enc(s, pos + 1, k);
            lemma_dec_semid_of_enc(s, pos + 1 + kb.len(), id);
            lemma_dec_sizing_of_enc(s, pos + 1 + kb.len() + 32, sz);
        },
    }
}

/// The round-trip law: the canonical byte form of any well-formed type
/// node decodes back to exactly that node, consuming the whole input.
pub proof fn lemma_round_trip(t: TyV)
    requires
        crate::ty::wf_ty(t),
    ensures
        dec_ty_full(enc_ty(t)) == Ok::<TyV, DecodeError>(t),
{
    let s = enc_ty(t);
    assert(s.subrange(0, s.len() as int) =~= s);
    lemma_dec_ty_of_enc(s, 0, t);
}

/// Valid identifier bytes decode to well-formed identifier text.
pub proof fn lemma_valid_bytes_chars(b: Seq<u8>)
    requires
        bytes_valid_ident(b),
    ensures
        wf_ident(chars_of_bytes(b)),
{
    let c = chars_of_bytes(b);
    assert forall|i: int| 0 <= i < c.len() implies crate::ident::is_ident_char(#[trigger] c[i]) by {
        assert(byte_is_identch(b[i]));
        assert(c[i] == b[i] as char);
    }
    assert(crate::ident::is_ident_start(c[0])) by {
        assert(byte_is_start(b[0]));
        assert(c[0] == b[0] as char);
    }
}

/// What a successful identifier parse guarantees.
pub proof fn lemma_dec_ident_props(s: Seq<u8>, pos: int)
    ensures
        dec_ident(s, pos) matches Ok(r) ==> wf_ident(r.0) && pos < r.1 <= s.len(),
{
    match dec_u8(s, pos) {
        Ok((len, p1)) => {
            if 1 <= len && len <= 100 && p1 + len <= s.len() {
                let b = s.subrange(p1, p1 + len);
                if bytes_valid_ident(b) {
                    lemma_valid_bytes_chars(b);
                }
            }
        },
        Err(_) => {},
    }
}

/// What a successful run of variant parses guarantees.
pub proof fn lemma_dec_variants_n_props(s: Seq<u8>, pos: int, n: int, last: int)
    requires
        n >= 0,
        0 <= pos <= s.len(),
    ensures
        dec_variants_n(s, pos, n, last) matches Ok(r) ==> {
            &&& r.0.len() == n
            &&& crate::fields::key_sorted(r.0, crate::variants::variant_key())
            &&& (forall|i: int| 0 <= i < r.0.len() ==> wf_ident((#[trigger] r.0[i]).name))
            &&& (forall|i: int| 0 <= i < r.0.len() ==> last < (#[trigger] r.0[i]).tag)
            &&& pos <= r.1 <= s.len()
        },
    decreases n,
{
    if n > 0 {
        match dec_variant(s, pos) {
            Ok((v, p1)) => {
                lemma_dec_ident_props(s, pos + 1);
                if v.tag > last {
                    match dec_variants_n(s, p1, n - 1, v.tag as int) {
                        Ok((rest, p2)) => {
                            lemma_dec_variants_n_props(s, p1, n - 1, v.tag as int);
                            let vs = seq![v] + rest;
                            assert(vs[0] == v);
                            assert forall|i: int|
                                0 <= i < vs.len() implies wf_ident((#[trigger] vs[i]).name)
                                && last < vs[i].tag by {
                                if i > 0 {
                                    assert(vs[i] == rest[i - 1]);
                                }
                            }
                            assert forall|a: int, b: int|
                                0 <= a < b < vs.len() implies crate::variants::variant_key()(
                                #[trigger] vs[a],
                            ) < crate::variants::variant_key()(#[trigger] vs[b]) by {
                                if a > 0 {
                                    assert(vs[a] == rest[a - 1]);
                                    assert(vs[b] == rest[b - 1]);
                                } else {
                                    assert(vs[b] == rest[b - 1]);
                                    assert((v.tag as int) < rest[b - 1].tag);
                                }
                            }
                        },
                        Err(_) => {},
                    }
                }
            },
            Err(_) => {},
        }
    }
}

/// What a successful run of union entry parses guarantees.
pub proof fn lemma_dec_alts_n_props(s: Seq<u8>, pos: int, n: int, last: int)
    requires
        n >= 0,
        0 <= pos <= s.len(),
    ensures
        dec_alts_n(s, pos, n, last) matches Ok(r) ==> {
            &&& r.0.len() == n
            &&& crate::fields::key_sorted(r.0, crate::variants::alt_key())
            &&& (forall|i: int| 0 <= i < r.0.len() ==> wf_ident((#[trigger] r.0[i]).0.name))
            &&& (forall|i: int| 0 <= i < r.0.len() ==> (#[trigger] r.0[i]).1.len() == 32)
            &&& (forall|i: int| 0 <= i < r.0.len() ==> last < (#[trigger] r.0[i]).0.tag)
            &&& pos <= r.1 <= s.len()
        },
    decreases n,
{
    if n > 0 {
        match dec_variant(s, pos) {
            Ok((v, p1)) => {
                lemma_dec_ident_props(s, pos + 1);
                if v.tag > last {
                    match dec_semid(s, p1) {
                        Ok((id, p2)) => {
                            match dec_alts_n(s, p2, n - 1, v.tag as int) {
                                Ok((rest, p3)) => {
                                    lemma_dec_alts_n_props(s, p2, n - 1, v.tag as int);
                                    let vs = seq![(v, id)] + rest;
                                    assert(vs[0] == (v, id));
                                    assert forall|i: int|
                                        0 <= i < vs.len() implies wf_ident(
                                        (#[trigger] vs[i]).0.name,
                                    ) && vs[i].1.len() == 32 && last < vs[i].0.tag by {
                                        if i > 0 {
                                            assert(vs[i] == rest[i - 1]);
                                        }
                                    }
                                    assert forall|a: int, b: int|
                                        0 <= a < b < vs.len() implies crate::variants::alt_key()(
                                        #[trigger] vs[a],
                                    ) < crate::variants::alt_key()(#[trigger] vs[b]) by {
                                        if a > 0 {
                                            assert(vs[a] == rest[a - 1]);
                                            assert(vs[b] == rest[b - 1]);
                                        } else {
                                            assert(vs[b] == rest[b - 1]);
                                            assert((v.tag as int) < rest[b - 1].0.tag);
                                        }
                                    }
                                },
                                Err(_) => {},
                            }
                        },
                        Err(_) => {},
                    }
                }
            },
            Err(_) => {},
        }
    }
}

/// What a successful run of field parses guarantees.
pub proof fn lemma_dec_fields_n_props(s: Seq<u8>, pos: int, n: int)
    requires
        n >= 0,
        0 <= pos <= s.len(),
    ensures
        dec_fields_n(s, pos, n) matches Ok(r) ==> {
            &&& r.0.len() == n
            &&& (forall|i: int| 0 <= i < r.0.len() ==> wf_ident((#[trigger] r.0[i]).name))
            &&& (forall|i: int| 0 <= i < r.0.len() ==> (#[trigger] r.0[i]).ty.len() == 32)
            &&& pos <= r.1 <= s.len()
        },
    decreases n,
{
    if n > 0 {
        match dec_ident(s, pos) {
            Ok((name, p1)) => {
                lemma_dec_ident_props(s, pos);
                match dec_semid(s, p1) {
                    Ok((id, p2)) => {
                        match dec_fields_n(s, p2, n - 1) {
                            Ok((rest, p3)) => {
                                lemma_dec_fields_n_props(s, p2, n - 1);
                                let fs = seq![FieldV { name, ty: id }] + rest;
                                assert(fs[0] == (FieldV { name, ty: id }));
                                assert forall|i: int|
                                    0 <= i < fs.len() implies wf_ident((#[trigger] fs[i]).name)
                                    && fs[i].ty.len() == 32 by {
                                    if i > 0 {
                                        assert(fs[i] == rest[i - 1]);
                                    }
                                }
                            },
                            Err(_) => {},
                        }
                    },
                    Err(_) => {},
                }
            },
            Err(_) => {},
        }
    }
}

/// What a successful run of reference parses guarantees.
pub proof fn lemma_dec_ids_n_props(s: Seq<u8>, pos: int, n: int)
    requires
        n >= 0,
        0 <= pos <= s.len(),
    ensures
        dec_ids_n(s, pos, n) matches Ok(r) ==> {
            &&& r.0.len() == n
            &&& (forall|i: int| 0 <= i < r.0.len() ==> (#[trigger] r.0[i]).len() == 32)
            &&& pos <= r.1 <= s.len()
        },
    decreases n,
{
    if n > 0 {
        match dec_semid(s, pos) {
            Ok((id, p1)) => {
                match dec_ids_n(s, p1, n - 1) {
                    Ok((rest, p2)) => {
                        lemma_dec_ids_n_props(s, p1, n - 1);
                        let ids = seq![id] + rest;
                        assert(ids[0] == id);
                        assert forall|i: int| 0 <= i < ids.len() implies (#[trigger] ids[i]).len()
                            == 32 by {
                            if i > 0 {
                                assert(ids[i] == rest[i - 1]);
                            }
                        }
                    },
                    Err(_) => {},
                }
            },
            Err(_) => {},
        }
    }
}

/// Reads one byte.
pub(crate) fn rd_u8(s: &[u8], pos: usize) -> (r: Result<(u8, usize), DecodeError>)
    requires
        pos <= s@.len(),
    ensures
        r matches Ok(v) ==> dec_u8(s@, pos as int) == Ok::<(u8, int), DecodeError>(
            (v.0, v.1 as int),
        ) && v.1 <= s@.len(),
        r matches Err(e) ==> dec_u8(s@, pos as int) == Err::<(u8, int), DecodeError>(e),
{
    if pos < s.len() {
        Ok((s[pos], pos + 1))
    } else {
        Err(DecodeError::UnexpectedEnd)
    }
}

/// Reads a 16-bit number.
fn rd_u16(s: &[u8], pos: usize) -> (r: Result<(u16, usize), DecodeError>)
    requires
        pos <= s@.len(),
    ensures
        r matches Ok(v) ==> dec_u16(s@, pos as int) == Ok::<(u16, int), DecodeError>(
            (v.0, v.1 as int),
        ) && v.1 <= s@.len(),
        r matches Err(e) ==> dec_u16(s@, pos as int) == Err::<(u16, int), DecodeError>(e),
{
    if s.len() - pos < 2 {
        return Err(DecodeError::UnexpectedEnd);
    }
    let v: u16 = s[pos] as u16 + 256 * (s[pos + 1] as u16);
    Ok((v, pos + 2))
}

/// Reads a 64-bit number.
fn rd_u64(s: &[u8], pos: usize) -> (r: Result<(u64, usize), DecodeError>)
    requires
        pos <= s@.len(),
    ensures
        r matches Ok(v) ==> dec_u64(s@, pos as int) == Ok::<(u64, int), DecodeError>(
            (v.0, v.1 as int),
        ) && v.1 <= s@.len(),
        r matches Err(e) ==> dec_u64(s@, pos as int) == Err::<(u64, int), DecodeError>(e),
{
    if s.len() - pos < 8 {
        return Err(DecodeError::UnexpectedEnd);
    }
    let v: u64 = s[pos] as u64 + 256 * (s[pos + 1] as u64) + 0x10000 * (s[pos + 2] as u64)
        + 0x1000000 * (s[pos + 3] as u64) + 0x100000000 * (s[pos + 4] as u64) + 0x10000000000 * (
    s[pos + 5] as u64) + 0x1000000000000 * (s[pos + 6] as u64) + 0x100000000000000 * (s[pos
        + 7] as u64);
    Ok((v, pos + 8))
}

/// Whether `b` holds the byte form of well-formed identifier text.
fn check_ident_bytes(b: &[u8]) -> (r: bool)
    ensures
        r == bytes_valid_ident(b@),
{
    let n = b.len();
    if n < 1 || n > 100 {
        return false;
    }
    let b0 = b[0];
    if !((65 <= b0 && b0 <= 90) || (97 <= b0 && b0 <= 122) || b0 == 95) {
        return false;
    }
    let mut i: usize = 0;
    while i < n
        invariant
            0 <= i <= n,
            n == b@.len(),
            forall|j: int| 0 <= j < i ==> byte_is_identch(#[trigger] b@[j]),
        decreases n - i,
    {
        let c = b[i];
        if !((65 <= c && c <= 90) || (97 <= c && c <= 122) || c == 95 || (48 <= c && c <= 57)) {
            return false;
        }
        i += 1;
    }
    true
}

/// Reads an identifier.
pub(crate) fn rd_ident(s: &[u8], pos: usize) -> (r: Result<(Ident, usize), DecodeError>)
    requires
        pos <= s@.len(),
    ensures
        r matches Ok(v) ==> dec_ident(s@, pos as int) == Ok::<(Seq<char>, int), DecodeError>(
            (v.0@, v.1 as int),
        ) && v.1 <= s@.len(),
        r matches Err(e) ==> dec_ident(s@, pos as int) == Err::<(Seq<char>, int), DecodeError>(e),
{
    match rd_u8(s, pos) {
        Ok((len, p1)) => {
            if len < 1 || len > 100 {
                return Err(DecodeError::InvalidIdent);
            }
            let len_us = len as usize;
            if s.len() - p1 < len_us {
                return Err(DecodeError::UnexpectedEnd);
            }
            let b = vstd::slice::slice_subrange(s, p1, p1 + len_us);
            if !check_ident_bytes(b) {
                return Err(DecodeError::InvalidIdent);
            }
            proof {
                lemma_valid_bytes_chars(b@);
                assert forall|i: int| 0 <= i < b@.len() implies b@[i] < 128 by {
                    assert(byte_is_identch(b@[i]));
                }
            }
            let st = crate::ident::ascii_to_string(b);
            proof {
                assert(st@ =~= chars_of_bytes(b@));
            }
            let id = Ident::from_parts(st);
            Ok((id, p1 + len_us))
        },
        Err(e) => Err(e),
    }
}

/// Reads a sizing interval.
fn rd_sizing(s: &[u8], pos: usize) -> (r: Result<(Sizing, usize), DecodeError>)
    requires
        pos <= s@.len(),
    ensures
        r matches Ok(v) ==> dec_sizing(s@, pos as int) == Ok::<(Sizing, int), DecodeError>(
            (v.0, v.1 as int),
        ) && v.1 <= s@.len(),
        r matches Err(e) ==> dec_sizing(s@, pos as int) == Err::<(Sizing, int), DecodeError>(e),
{
    match rd_u64(s, pos) {
        Ok((min, p1)) => match rd_u64(s, p1) {
            Ok((max, p2)) => Ok((Sizing { min, max }, p2)),
            Err(e) => Err(e),
        },
        Err(e) => Err(e),
    }
}

/// Reads a content identity.
pub(crate) fn rd_semid(s: &[u8], pos: usize) -> (r: Result<(SemId, usize), DecodeError>)
    requires
        pos <= s@.len(),
    ensures
        r matches Ok(v) ==> dec_semid(s@, pos as int) == Ok::<(Seq<u8>, int), DecodeError>(
            (v.0@, v.1 as int),
        ) && v.1 <= s@.len(),
        r matches Err(e) ==> dec_semid(s@, pos as int) == Err::<(Seq<u8>, int), DecodeError>(e),
{
    if s.len() - pos < 32 {
        return Err(DecodeError::UnexpectedEnd);
    }
    let mut arr: [u8; 32] = [0; 32];
    let slen = s.len();
    let mut i: usize = 0;
    while i < 32
        invariant
            0 <= i <= 32,
            pos + 32 <= slen,
            slen == s@.len(),
            forall|j: int| 0 <= j < i ==> #[trigger] arr@[j] == s@[pos + j],
        decreases 32 - i,
    {
        arr[i] = s[pos + i];
        i += 1;
    }
    proof {
        assert(arr@ =~= s@.subrange(pos as int, pos + 32));
    }
    Ok((SemId::with(arr), pos + 32))
}

/// Reads a variant.
fn rd_variant(s: &[u8], pos: usize) -> (r: Result<(Variant, usize), DecodeError>)
    requires
        pos <= s@.len(),
    ensures
        r matches Ok(v) ==> dec_variant(s@, pos as int) == Ok::<(VariantV, int), DecodeError>(
            (v.0@, v.1 as int),
        ) && v.1 <= s@.len(),
        r matches Err(e) ==> dec_variant(s@, pos as int) == Err::<(VariantV, int), DecodeError>(e),
{
    match rd_u8(s, pos) {
        Ok((tag, p1)) => match rd_ident(s, p1) {
            Ok((name, p2)) => Ok((Variant::named(tag, name), p2)),
            Err(e) => Err(e),
        },
        Err(e) => Err(e),
    }
}

/// Reads `n` variants in ascending tag order.
fn rd_variants_n(s: &[u8], pos: usize, n: u8, last: i32) -> (r: Result<
    (Vec<Variant>, usize),
    DecodeError,
>)
    requires
        pos <= s@.len(),
    ensures
        r matches Ok(v) ==> (dec_variants_n(s@, pos as int, n as int, last as int) matches Ok(dr)
            && dr.1 == v.1 && v.1 <= s@.len() && dr.0.len() == v.0@.len() && (forall|i: int|
            0 <= i < dr.0.len() ==> dr.0[i] == #[trigger] v.0@[i]@)),
        r matches Err(e) ==> dec_variants_n(s@, pos as int, n as int, last as int) == Err::<
            (Seq<VariantV>, int),
            DecodeError,
        >(e),
    decreases n,
{
    if n == 0 {
        let out: Vec<Variant> = Vec::new();
        return Ok((out, pos));
    }
    match rd_variant(s, pos) {
        Ok((v, p1)) => {
            if (v.tag as i32) <= last {
                return Err(DecodeError::WrongOrder);
            }
            match rd_variants_n(s, p1, n - 1, v.tag as i32) {
                Ok((mut rest, p2)) => {
                    let ghost rest0 = rest@;
                    rest.insert(0, v);
                    proof {
                        let dr = dec_variants_n(s@, pos as int, n as int, last as int).unwrap();
                        let drr = dec_variants_n(
                            s@,
                            p1 as int,
                            n as int - 1,
                            v@.tag as int,
                        ).unwrap();
                        assert(dr.0 == seq![v@] + drr.0);
                        assert forall|i: int| 0 <= i < dr.0.len() implies dr.0[i]
                            == #[trigger] rest@[i]@ by {
                            if i == 0 {
                                assert(rest@[0] == v);
                                assert(dr.0[0] == v@);
                            } else {
                                assert(rest@[i] == rest0[i - 1]);
                                assert(dr.0[i] == drr.0[i - 1]);
                            }
                        }
                    }
                    Ok((rest, p2))
                },
                Err(e) => Err(e),
            }
        },
        Err(e) => Err(e),
    }
}

/// Reads `n` union entries in ascending tag order.
fn rd_alts_n(s: &[u8], pos: usize, n: u8, last: i32) -> (r: Result<
    (Vec<(Variant, SemId)>, usize),
    DecodeError,
>)
    requires
        pos <= s@.len(),
    ensures
        r matches Ok(v) ==> (dec_alts_n(s@, pos as int, n as int, last as int) matches Ok(dr)
            && dr.1 == v.1 && v.1 <= s@.len() && dr.0.len() == v.0@.len() && (forall|i: int|
            0 <= i < dr.0.len() ==> dr.0[i] == ((#[trigger] v.0@[i]).0@, v.0@[i].1@))),
        r matches Err(e) ==> dec_alts_n(s@, pos as int, n as int, last as int) == Err::<
            (Seq<(VariantV, Seq<u8>)>, int),
            DecodeError,
        >(e),
    decreases n,
{
    if n == 0 {
        let out: Vec<(Variant, SemId)> = Vec::new();
        return Ok((out, pos));
    }
    match rd_variant(s, pos) {
        Ok((v, p1)) => {
            if (v.tag as i32) <= last {
                return Err(DecodeError::WrongOrder);
            }
            match rd_semid(s, p1) {
                Ok((id, p2)) => match rd_alts_n(s, p2, n - 1, v.tag as i32) {
                    Ok((mut rest, p3)) => {
                        let ghost rest0 = rest@;
                        let ghost vv = v@;
                        let ghost idv = id@;
                        rest.insert(0, (v, id));
                        proof {
                            let dr = dec_alts_n(s@, pos as int, n as int, last as int).unwrap();
                            let drr = dec_alts_n(
                                s@,
                                p2 as int,
                                n as int - 1,
                                vv.tag as int,
                            ).unwrap();
                            assert(dr.0 == seq![(vv, idv)] + drr.0);
                            assert forall|i: int| 0 <= i < dr.0.len() implies dr.0[i] == ((
                            #[trigger] rest@[i]).0@, rest@[i].1@) by {
                                if i == 0 {
                                    assert(rest@[0] == (v, id));
                                    assert(dr.0[0] == (vv, idv));
                                } else {
                                    assert(rest@[i] == rest0[i - 1]);
                                    assert(dr.0[i] == drr.0[i - 1]);
                                }
                            }
                        }
                        Ok((rest, p3))
                    },
                    Err(e) => Err(e),
                },
                Err(e) => Err(e),
            }
        },
        Err(e) => Err(e),
    }
}

/// Reads `n` named fields.
fn rd_fields_n(s: &[u8], pos: usize, n: u8) -> (r: Result<(Vec<Field>, usize), DecodeError>)
    requires
        pos <= s@.len(),
    ensures
        r matches Ok(v) ==> (dec_fields_n(s@, pos as int, n as int) matches Ok(dr) && dr.1 == v.1
            && v.1 <= s@.len() && dr.0.len() == v.0@.len() && (forall|i: int|
            0 <= i < dr.0.len() ==> dr.0[i] == (#[trigger] v.0@[i])@)),
        r matches Err(e) ==> dec_fields_n(s@, pos as int, n as int) == Err::<
            (Seq<FieldV>, int),
            DecodeError,
        >(e),
    decreases n,
{
    if n == 0 {
        let out: Vec<Field> = Vec::new();
        return Ok((out, pos));
    }
    match rd_ident(s, pos) {
        Ok((name, p1)) => match rd_semid(s, p1) {
            Ok((id, p2)) => match rd_fields_n(s, p2, n - 1) {
                Ok((mut rest, p3)) => {
                    let ghost rest0 = rest@;
                    let ghost namev = name@;
                    let ghost idv = id@;
                    rest.insert(0, Field { name, ty: id });
                    proof {
                        let dr = dec_fields_n(s@, pos as int, n as int).unwrap();
                        let drr = dec_fields_n(s@, p2 as int, n as int - 1).unwrap();
                        assert(dr.0 == seq![FieldV { name: namev, ty: idv }] + drr.0);
                        assert forall|i: int| 0 <= i < dr.0.len() implies dr.0[i] == (
                        #[trigger] rest@[i])@ by {
                            if i == 0 {
                                assert(dr.0[0] == (FieldV { name: namev, ty: idv }));
                            } else {
                                assert(rest@[i] == rest0[i - 1]);
                                assert(dr.0[i] == drr.0[i - 1]);
                            }
                        }
                    }
                    Ok((rest, p3))
                },
                Err(e) => Err(e),
            },
            Err(e) => Err(e),
        },
        Err(e) => Err(e),
    }
}

/// Reads `n` bare references.
fn rd_ids_n(s: &[u8], pos: usize, n: u8) -> (r: Result<(Vec<SemId>, usize), DecodeError>)
    requires
        pos <= s@.len(),
    ensures
        r matches Ok(v) ==> (dec_ids_n(s@, pos as int, n as int) matches Ok(dr) && dr.1 == v.1
            && v.1 <= s@.len() && dr.0.len() == v.0@.len() && (forall|i: int|
            0 <= i < dr.0.len() ==> dr.0[i] == (#[trigger] v.0@[i])@)),
        r matches Err(e) ==> dec_ids_n(s@, pos as int, n as int) == Err::<
            (Seq<Seq<u8>>, int),
            DecodeError,
        >(e),
    decreases n,
{
    if n == 0 {
        let out: Vec<SemId> = Vec::new();
        return Ok((out, pos));
    }
    match rd_semid(s, pos) {
        Ok((id, p1)) => match rd_ids_n(s, p1, n - 1) {
            Ok((mut rest, p2)) => {
                let ghost rest0 = rest@;
                let ghost idv = id@;
                rest.insert(0, id);
                proof {
                    let dr = dec_ids_n(s@, pos as int, n as int).unwrap();
                    let drr = dec_ids_n(s@, p1 as int, n as int - 1).unwrap();
                    assert(dr.0 == seq![idv] + drr.0);
                    assert forall|i: int| 0 <= i < dr.0.len() implies dr.0[i] == (
                    #[trigger] rest@[i])@ by {
                        if i == 0 {
                            assert(dr.0[0] == idv);
                        } else {
                            assert(rest@[i] == rest0[i - 1]);
                            assert(dr.0[i] == drr.0[i - 1]);
                        }
                    }
                }
                Ok((rest, p2))
            },
            Err(e) => Err(e),
        },
        Err(e) => Err(e),
    }
}

/// Reads a member count, rejecting zero.
fn rd_count(s: &[u8], pos: usize) -> (r: Result<(u8, usize), DecodeError>)
    requires
        pos <= s@.len(),
    ensures
        r matches Ok(v) ==> dec_count(s@, pos as int) == Ok::<(u8, int), DecodeError>(
            (v.0, v.1 as int),
        ) && v.1 <= s@.len() && v.0 >= 1,
        r matches Err(e) ==> dec_count(s@, pos as int) == Err::<(u8, int), DecodeError>(e),
{
    match rd_u8(s, pos) {
        Ok((n, p1)) => if n == 0 {
            Err(
                DecodeError::Confinement(
                    BoundsError {
                        len: 0,
                        min: crate::fields::CONFINED_MIN,
                        max: crate::fields::CONFINED_MAX,
                    },
                ),
            )
        } else {
            Ok((n, p1))
        },
        Err(e) => Err(e),
    }
}

/// Reads a key type.
fn rd_keyty(s: &[u8], pos: usize) -> (r: Result<(KeyTy, usize), DecodeError>)
    requires
        pos <= s@.len(),
    ensures
        r matches Ok(v) ==> dec_keyty(s@, pos as int) == Ok::<(KeyTyV, int), DecodeError>(
            (v.0@, v.1 as int),
        ) && v.1 <= s@.len(),
        r matches Err(e) ==> dec_keyty(s@, pos as int) == Err::<(KeyTyV, int), DecodeError>(e),
{
    match rd_u8(s, pos) {
        Ok((cls, p1)) => {
            if cls == 0 {
                match rd_u8(s, p1) {
                    Ok((code, p2)) => Ok(
                        (KeyTy::Primitive(crate::prim::Primitive { code }), p2),
                    ),
                    Err(e) => Err(e),
                }
            } else if cls == 3 {
                match rd_count(s, p1) {
                    Ok((n, p2)) => match rd_variants_n(s, p2, n, -1) {
                        Ok((vec, p3)) => {
                            proof {
                                lemma_dec_variants_n_props(s@, p2 as int, n as int, -1);
                                let dr = dec_variants_n(s@, p2 as int, n as int, -1).unwrap();
                                assert(crate::variants::variants_view(vec@) =~= dr.0);
                            }
                            let ev = EnumVariants::from_sorted(vec);
                            Ok((KeyTy::Enum(ev), p3))
                        },
                        Err(e) => Err(e),
                    },
                    Err(e) => Err(e),
                }
            } else if cls == 7 {
                match rd_u16(s, p1) {
                    Ok((len, p2)) => Ok((KeyTy::Array(len), p2)),
                    Err(e) => Err(e),
                }
            } else if cls == 1 {
                match rd_sizing(s, p1) {
                    Ok((sz, p2)) => Ok((KeyTy::UnicodeStr(sz), p2)),
                    Err(e) => Err(e),
                }
            } else if cls == 2 {
                match rd_sizing(s, p1) {
                    Ok((sz, p2)) => Ok((KeyTy::AsciiStr(sz), p2)),
                    Err(e) => Err(e),
                }
            } else if cls == 8 {
                match rd_sizing(s, p1) {
                    Ok((sz, p2)) => Ok((KeyTy::Bytes(sz), p2)),
                    Err(e) => Err(e),
                }
            } else {
                Err(DecodeError::UnknownCls(cls))
            }
        },
        Err(e) => Err(e),
    }
}

/// Reads a type node.
pub(crate) fn rd_ty(s: &[u8], pos: usize) -> (r: Result<(Ty, usize), DecodeError>)
    requires
        pos <= s@.len(),
    ensures
        r matches Ok(v) ==> dec_ty(s@, pos as int) == Ok::<(TyV, int), DecodeError>(
            (v.0@, v.1 as int),
        ) && v.1 <= s@.len(),
        r matches Err(e) ==> dec_ty(s@, pos as int) == Err::<(TyV, int), DecodeError>(e),
{
    match rd_u8(s, pos) {
        Ok((cls, p1)) => {
            if cls == 0 {
                match rd_u8(s, p1) {
                    Ok((code, p2)) => Ok((Ty::Primitive(crate::prim::Primitive { code }), p2)),
                    Err(e) => Err(e),
                }
            } else if cls == 1 {
                Ok((Ty::UnicodeChar, p1))
            } else if cls == 3 {
                match rd_count(s, p1) {
                    Ok((n, p2)) => match rd_variants_n(s, p2, n, -1) {
                        Ok((vec, p3)) => {
                            proof {
                                lemma_dec_variants_n_props(s@, p2 as int, n as int, -1);
                                let dr = dec_variants_n(s@, p2 as int, n as int, -1).unwrap();
                                assert(crate::variants::variants_view(vec@) =~= dr.0);
                            }
                            let ev = EnumVariants::from_sorted(vec);
                            Ok((Ty::Enum(ev), p3))
                        },
                        Err(e) => Err(e),
                    },
                    Err(e) => Err(e),
                }
            } else if cls == 4 {
                match rd_count(s, p1) {
                    Ok((n, p2)) => match rd_alts_n(s, p2, n, -1) {
                        Ok((vec, p3)) => {
                            proof {
                                lemma_dec_alts_n_props(s@, p2 as int, n as int, -1);
                                let dr = dec_alts_n(s@, p2 as int, n as int, -1).unwrap();
                                assert(crate::variants::alts_view(vec@) =~= dr.0);
                            }
                            let uv = UnionVariants::from_sorted(vec);
                            Ok((Ty::Union(uv), p3))
                        },
                        Err(e) => Err(e),
                    },
                    Err(e) => Err(e),
                }
            } else if cls == 5 {
                match rd_count(s, p1) {
                    Ok((n, p2)) => match rd_fields_n(s, p2, n) {
                        Ok((vec, p3)) => {
                            proof {
                                lemma_dec_fields_n_props(s@, p2 as int, n as int);
                            }
                            match NamedFields::try_from_vec(vec) {
                                Ok(nf) => {
                                    proof {
                                        let dr = dec_fields_n(s@, p2 as int, n as int).unwrap();
                                        assert(nf@ =~= dr.0);
                                    }
                                    Ok((Ty::Struct(nf), p3))
                                },
                                Err(_) => vstd::pervasive::unreached(),
                            }
                        },
                        Err(e) => Err(e),
                    },
                    Err(e) => Err(e),
                }
            } else if cls == 6 {
                match rd_count(s, p1) {
                    Ok((n, p2)) => match rd_ids_n(s, p2, n) {
                        Ok((vec, p3)) => {
                            proof {
                                lemma_dec_ids_n_props(s@, p2 as int, n as int);
                            }
                            match UnnamedFields::try_from_vec(vec) {
                                Ok(uf) => {
                                    proof {
                                        let dr = dec_ids_n(s@, p2 as int, n as int).unwrap();
                                        assert(uf@ =~= dr.0);
                                    }
                                    Ok((Ty::Tuple(uf), p3))
                                },
                                Err(_) => vstd::pervasive::unreached(),
                            }
                        },
                        Err(e) => Err(e),
                    },
                    Err(e) => Err(e),
                }
            } else if cls == 7 {
                match rd_semid(s, p1) {
                    Ok((id, p2)) => match rd_u16(s, p2) {
                        Ok((len, p3)) => Ok((Ty::Array(id, len), p3)),
                        Err(e) => Err(e),
                    },
                    Err(e) => Err(e),
                }
            } else if cls == 8 {
                match rd_semid(s, p1) {
                    Ok((id, p2)) => match rd_sizing(s, p2) {
                        Ok((sz, p3)) => Ok((Ty::List(id, sz), p3)),
                        Err(e) => Err(e),
                    },
                    Err(e) => Err(e),
                }
            } else if cls == 9 {
                match rd_semid(s, p1) {
                    Ok((id, p2)) => match rd_sizing(s, p2) {
                        Ok((sz, p3)) => Ok((Ty::SetOf(id, sz), p3)),
                        Err(e) => Err(e),
                    },
                    Err(e) => Err(e),
                }
            } else if cls == 10 {
                match rd_keyty(s, p1) {
                    Ok((k, p2)) => match rd_semid(s, p2) {
                        Ok((id, p3)) => match rd_sizing(s, p3) {
                            Ok((sz, p4)) => Ok((Ty::MapOf(k, id, sz), p4)),
                            Err(e) => Err(e),
                        },
                        Err(e) => Err(e),
                    },
                    Err(e) => Err(e),
                }
            } else {
                Err(DecodeError::UnknownCls(cls))
            }
        },
        Err(e) => Err(e),
    }
}

impl Ty {
    /// Parses a whole canonical byte string back into a type node:
    /// exactly the decoder's parse of the bytes, rejecting trailing data.
    /// Together with the round-trip law this gives back exactly what
    /// `to_canonical_bytes` wrote.
    pub fn from_canonical_bytes(s: &[u8]) -> (r: Result<Ty, DecodeError>)
        ensures
            r matches Ok(t) ==> dec_ty_full(s@) == Ok::<TyV, DecodeError>(t@),
            r matches Err(e) ==> dec_ty_full(s@) == Err::<TyV, DecodeError>(e),
    {
        match rd_ty(s, 0) {
            Ok((t, end)) => {
                if end == s.len() {
                    Ok(t)
                } else {
                    Err(DecodeError::TrailingData)
                }
            },
            Err(e) => Err(e),
        }
    }
}

} // verus!
