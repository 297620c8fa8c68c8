//! The identity engine. A type node's `SemId` is the hash of its
//! canonical byte form, with every nested type resolved to its own
//! identity first: identity is compositional, so changing one type's
//! internals never moves an unrelated sibling's id.

use vstd::prelude::*;
use vstd::string::StringExecFns;
use crate::encode::{enc_keyty, enc_ty};
use crate::id::{blake3_hash, blake3_of, SemId};
use crate::ident::Ident;
use crate::prim::{Primitive, Sizing, BYTE_CODE};
use crate::text::{dec_chars, dec_u64, lemma_dec_chars_props};
use crate::ty::{KeyTy, KeyTyV, Ty, TyV};
use crate::variants::{EnumVariants, Variant, VariantV};

verus! {

/// The content identity of a type node's shape: the hash of its
/// canonical bytes.
pub open spec fn sem_id_of(t: TyV) -> Seq<u8> {
    blake3_of(enc_ty(t))
}

/// The content identity of a key type's shape.
pub open spec fn key_id_of(k: KeyTyV) -> Seq<u8> {
    blake3_of(enc_keyty(k))
}

/// The byte primitive's shape.
pub open spec fn byte_ty() -> TyV {
    TyV::Primitive(Primitive { code: BYTE_CODE })
}

/// The unicode scalar's shape.
pub open spec fn unicode_ty() -> TyV {
    TyV::UnicodeChar
}

/// The variants of the canonical ASCII character enum: tags 0 through
/// 127 under their default names `_0` through `_127`.
pub open spec fn ascii_char_variants() -> Seq<VariantV> {
    Seq::new(128, |i: int| VariantV { name: seq!['_'] + dec_chars(i), tag: i as u8 })
}

/// The canonical ASCII character type: an exact 128-variant enum.
pub open spec fn ascii_char_ty() -> TyV {
    TyV::Enum(ascii_char_variants())
}

impl Ty {
    /// This node's content identity.
    pub fn sem_id(&self) -> (r: SemId)
        ensures
            r@ == sem_id_of(self@),
    {
        let bytes = self.to_canonical_bytes();
        SemId::with(blake3_hash(bytes.as_slice()))
    }

    /// The canonical ASCII character type: an enum over tags 0 through
    /// 127 with default names.
    pub fn ascii_char() -> (r: Ty)
        ensures
            r@ == ascii_char_ty(),
    {
        let mut vec: Vec<Variant> = Vec::new();
        let mut t: u16 = 0;
        while t < 128
            invariant
                0 <= t <= 128,
                vec@.len() == t,
                forall|j: int|
                    0 <= j < t ==> (#[trigger] vec@[j])@ == ascii_char_variants()[j],
            decreases 128 - t,
        {
            proof {
                reveal_strlit("_");
                lemma_dec_chars_props(t as int);
            }
            let mut name = String::from_str("_");
            let d = dec_u64(t as u64);
            name.append(d.as_str());
            proof {
                assert(name@ =~= seq!['_'] + dec_chars(t as int));
                assert(crate::ident::wf_ident(name@)) by {
                    assert(name@[0] == '_');
                    assert forall|i: int|
                        0 <= i < name@.len() implies crate::ident::is_ident_char(
                        #[trigger] name@[i],
                    ) by {
                        if i > 0 {
                            assert(name@[i] == dec_chars(t as int)[i - 1]);
                        }
                    }
                }
            }
            let id = Ident::from_parts(name);
            vec.push(Variant::named(t as u8, id));
            t += 1;
        }
        proof {
            assert(crate::fields::key_sorted(
                crate::variants::variants_view(vec@),
                crate::variants::variant_key(),
            )) by {
                assert forall|a: int, b: int|
                    0 <= a < b < vec@.len() implies crate::variants::variant_key()(
                    #[trigger] crate::variants::variants_view(vec@)[a],
                ) < crate::variants::variant_key()(
                    #[trigger] crate::variants::variants_view(vec@)[b],
                ) by {
                    assert(crate::variants::variants_view(vec@)[a] == vec@[a]@);
                    assert(crate::variants::variants_view(vec@)[b] == vec@[b]@);
                    assert(vec@[a]@ == ascii_char_variants()[a]);
                    assert(vec@[b]@ == ascii_char_variants()[b]);
                }
            }
        }
        let ev = EnumVariants::from_sorted(vec);
        proof {
            assert(ev@ =~= ascii_char_variants());
        }
        Ty::Enum(ev)
    }

    /// Whether this node is exactly the byte primitive.
    pub fn is_byte(&self) -> (r: bool)
        ensures
            r == (self@ == byte_ty()),
    {
        match self {
            Ty::Primitive(p) => p.code == BYTE_CODE,
            _ => false,
        }
    }

    /// Whether this node is exactly the unicode scalar.
    pub fn is_unicode_char(&self) -> (r: bool)
        ensures
            r == (self@ == unicode_ty()),
    {
        match self {
            Ty::UnicodeChar => true,
            _ => false,
        }
    }

    /// Whether this node is exactly the canonical ASCII character enum:
    /// the recognition is structural, against the 128 default-named
    /// variants.
    pub fn is_ascii_char(&self) -> (r: bool)
        ensures
            r == (self@ == ascii_char_ty()),
    {
        match self {
            Ty::Enum(vs) => {
                let n = vs.len();
                if n != 128 {
                    proof {
                        assert(ascii_char_variants().len() == 128);
                    }
                    return false;
                }
                let mut t: u16 = 0;
                while t < 128
                    invariant
                        0 <= t <= 128,
                        vs@.len() == 128,
                        self@ == TyV::Enum(vs@),
                        forall|j: int| 0 <= j < t ==> vs@[j] == ascii_char_variants()[j],
                    decreases 128 - t,
                {
                    proof {
                        reveal_strlit("_");
                        lemma_dec_chars_props(t as int);
                    }
                    let v = match vs.get(t as usize) {
                        Some(v) => v,
                        None => vstd::pervasive::unreached(),
                    };
                    if v.tag != t as u8 {
                        proof {
                            assert(v@ == vs@[t as int]);
                            assert(ascii_char_variants()[t as int].tag == t as u8);
                            assert(vs@[t as int] != ascii_char_variants()[t as int]);
                            assert(vs@ != ascii_char_variants());
                        }
                        return false;
                    }
                    let mut expect = String::from_str("_");
                    let d = dec_u64(t as u64);
                    expect.append(d.as_str());
                    proof {
                        assert(expect@ =~= seq!['_'] + dec_chars(t as int));
                        assert(crate::ident::wf_ident(expect@)) by {
                            assert(expect@[0] == '_');
                            assert forall|i: int|
                                0 <= i < expect@.len() implies crate::ident::is_ident_char(
                                #[trigger] expect@[i],
                            ) by {
                                if i > 0 {
                                    assert(expect@[i] == dec_chars(t as int)[i - 1]);
                                }
                            }
                        }
                    }
                    let eid = Ident::from_parts(expect);
                    if !v.name.eq_name(&eid) {
                        proof {
                            assert(v@ == vs@[t as int]);
                            assert(ascii_char_variants()[t as int].name == eid@);
                            assert(vs@[t as int].name != ascii_char_variants()[t as int].name);
                            assert(vs@ != ascii_char_variants());
                        }
                        return false;
                    }
                    proof {
                        assert(v@ == vs@[t as int]);
                        assert(vs@[t as int] == (VariantV { name: eid@, tag: t as u8 }));
                        assert(vs@[t as int] == ascii_char_variants()[t as int]);
                    }
                    t += 1;
                }
                proof {
                    assert(vs@ =~= ascii_char_variants());
                }
                true
            },
            _ => {
                proof {
                    assert(self@ !is Enum);
                }
                false
            },
        }
    }
}

impl KeyTy {
    /// This key type's content identity.
    pub fn id(&self) -> (r: SemId)
        ensures
            r@ == key_id_of(self@),
    {
        let mut out: Vec<u8> = Vec::new();
        crate::encode::write_keyty(&mut out, self);
        proof {
            assert(out@ =~= enc_keyty(self@));
        }
        SemId::with(blake3_hash(out.as_slice()))
    }
}

impl SemId {
    /// This identity itself: an identity names itself.
    pub fn id(&self) -> (r: SemId)
        ensures
            r@ == self@,
    {
        *self
    }

    /// The byte primitive's identity.
    pub fn byte_id() -> (r: SemId)
        ensures
            r@ == sem_id_of(byte_ty()),
    {
        Ty::byte().sem_id()
    }

    /// The unicode scalar's identity.
    pub fn unicode_id() -> (r: SemId)
        ensures
            r@ == sem_id_of(unicode_ty()),
    {
        Ty::UnicodeChar.sem_id()
    }

    /// The canonical ASCII character enum's identity.
    pub fn ascii_char_id() -> (r: SemId)
        ensures
            r@ == sem_id_of(ascii_char_ty()),
    {
        Ty::ascii_char().sem_id()
    }

    /// Whether this identity denotes the byte primitive.
    pub fn is_byte(&self) -> (r: bool)
        ensures
            r == (self@ == sem_id_of(byte_ty())),
    {
        let b = SemId::byte_id();
        *self == b
    }

    /// Whether this identity denotes the unicode scalar.
    pub fn is_unicode_char(&self) -> (r: bool)
        ensures
            r == (self@ == sem_id_of(unicode_ty())),
    {
        let b = SemId::unicode_id();
        *self == b
    }

    /// Whether this identity denotes the canonical ASCII character enum.
    pub fn is_ascii_char(&self) -> (r: bool)
        ensures
            r == (self@ == sem_id_of(ascii_char_ty())),
    {
        let b = SemId::ascii_char_id();
        *self == b
    }
}

/// Where a type node narrows into the key subset: primitives and enums
/// narrow as themselves; arrays and lists of bytes, unicode characters
/// or ASCII characters narrow into the string forms; the unicode scalar
/// narrows into a one-character string; everything else is no key.
pub open spec fn key_narrowing(t: TyV) -> Option<KeyTyV> {
    match t {
        TyV::Primitive(p) => Some(KeyTyV::Primitive(p)),
        TyV::Enum(vs) => Some(KeyTyV::Enum(vs)),
        TyV::Array(id, len) => if id == sem_id_of(byte_ty()) {
            Some(KeyTyV::Array(len))
        } else if id == sem_id_of(unicode_ty()) {
            Some(KeyTyV::UnicodeStr(Sizing { min: len as u64, max: len as u64 }))
        } else {
            None
        },
        TyV::List(id, sz) => if id == sem_id_of(byte_ty()) {
            Some(KeyTyV::Bytes(sz))
        } else if id == sem_id_of(unicode_ty()) {
            Some(KeyTyV::UnicodeStr(sz))
        } else if id == sem_id_of(ascii_char_ty()) {
            Some(KeyTyV::AsciiStr(sz))
        } else {
            None
        },
        TyV::UnicodeChar => Some(KeyTyV::UnicodeStr(Sizing { min: 1, max: 1 })),
        _ => None,
    }
}

impl Ty {
    /// Narrows this node into the key subset. Total and non-panicking:
    /// an ineligible node comes back unchanged as the error witness.
    /// Byte elements are tried before unicode and ASCII ones, first
    /// match winning.
    pub fn try_to_key(&self) -> (r: Result<KeyTy, &Ty>)
        ensures
            r matches Ok(k) ==> key_narrowing(self@) == Some(k@),
            r matches Err(t) ==> key_narrowing(self@) is None && t == self,
    {
        match self {
            Ty::Primitive(p) => Ok(KeyTy::Primitive(*p)),
            Ty::Enum(vs) => Ok(KeyTy::Enum(vs.clone())),
            Ty::Array(id, len) => if id.is_byte() {
                Ok(KeyTy::Array(*len))
            } else if id.is_unicode_char() {
                Ok(KeyTy::UnicodeStr(Sizing::fixed(*len as u64)))
            } else {
                Err(self)
            },
            Ty::List(id, sz) => if id.is_byte() {
                Ok(KeyTy::Bytes(*sz))
            } else if id.is_unicode_char() {
                Ok(KeyTy::UnicodeStr(*sz))
            } else if id.is_ascii_char() {
                Ok(KeyTy::AsciiStr(*sz))
            } else {
                Err(self)
            },
            Ty::UnicodeChar => Ok(KeyTy::UnicodeStr(Sizing::one())),
            _ => Err(self),
        }
    }
}

/// The narrowing law: narrowing is total and never panics, and where it
/// succeeds the key's class corresponds to the source: primitives and
/// enums keep their class, byte arrays stay arrays, byte lists stay
/// lists, and character-element collections take their character kind's
/// class.
pub proof fn lemma_key_narrowing_cls(t: TyV)
    ensures
        key_narrowing(t) matches Some(k) ==> match t {
            TyV::Primitive(_) => crate::ty::key_cls_of(k) == crate::ty::Cls::Primitive,
            TyV::Enum(_) => crate::ty::key_cls_of(k) == crate::ty::Cls::Enum,
            TyV::Array(id, _) => if id == sem_id_of(byte_ty()) {
                crate::ty::key_cls_of(k) == crate::ty::Cls::Array
            } else {
                crate::ty::key_cls_of(k) == crate::ty::Cls::Unicode
            },
            TyV::List(id, _) => if id == sem_id_of(byte_ty()) {
                crate::ty::key_cls_of(k) == crate::ty::Cls::List
            } else if id == sem_id_of(unicode_ty()) {
                crate::ty::key_cls_of(k) == crate::ty::Cls::Unicode
            } else {
                crate::ty::key_cls_of(k) == crate::ty::Cls::AsciiStr
            },
            TyV::UnicodeChar => crate::ty::key_cls_of(k) == crate::ty::Cls::Unicode,
            _ => false,
        },
        key_narrowing(t) is None ==> (t is Union || t is Struct || t is Tuple || t is SetOf
            || t is MapOf || t is Array || t is List),
{
}

/// The identity-determinism law: hashing the same tree twice gives the
/// same identity (identity is a function of the shape), and a full
/// canonical serialize-then-deserialize round trip hands back a tree
/// with that very identity.
pub proof fn lemma_sem_id_stable(t: TyV)
    requires
        crate::ty::wf_ty(t),
    ensures
        crate::decode::dec_ty_full(enc_ty(t)) == Ok::<TyV, crate::decode::DecodeError>(t),
        crate::decode::dec_ty_full(enc_ty(t)) matches Ok(t2) ==> sem_id_of(t2) == sem_id_of(t),
{
    crate::decode::lemma_round_trip(t);
}

} // verus!
