//! The type AST. A `Ty` is one node of the algebra: a primitive, a
//! unicode scalar, an enum, union, struct or tuple over confined member
//! collections, or a homogeneous collection. Nested types are referenced
//! by their content identity (`SemId`), except map keys, which are held
//! inline as the restricted `KeyTy` form.

use vstd::prelude::*;
use crate::fields::{key_sorted, FieldV, NamedFields, UnnamedFields};
use crate::id::SemId;
use crate::ident::wf_ident;
use crate::prim::{Primitive, Sizing};
use crate::variants::{alt_key, variant_key, EnumVariants, UnionVariants, Variant, VariantV};

verus! {

/// The closed 11-way classification of a type, a stable one-byte wire
/// tag. New classes append; none renumbers.
#[derive(Clone, Copy, PartialEq, Eq, Structural, Debug)]
pub enum Cls {
    Primitive,
    Unicode,
    AsciiStr,
    Enum,
    Union,
    Struct,
    Tuple,
    Array,
    List,
    SetOf,
    MapOf,
}

/// The wire code of each class: `Primitive` is 0 and `MapOf` is 10, in
/// declaration order.
pub open spec fn cls_code(c: Cls) -> u8 {
    match c {
        Cls::Primitive => 0,
        Cls::Unicode => 1,
        Cls::AsciiStr => 2,
        Cls::Enum => 3,
        Cls::Union => 4,
        Cls::Struct => 5,
        Cls::Tuple => 6,
        Cls::Array => 7,
        Cls::List => 8,
        Cls::SetOf => 9,
        Cls::MapOf => 10,
    }
}

/// A byte that is no class code.
#[derive(Clone, Copy, PartialEq, Eq, Structural, Debug)]
pub struct VariantError(pub u8);

impl Cls {
    /// The class's wire code.
    pub fn to_u8(self) -> (r: u8)
        ensures
            r == cls_code(self),
    {
        match self {
            Cls::Primitive => 0,
            Cls::Unicode => 1,
            Cls::AsciiStr => 2,
            Cls::Enum => 3,
            Cls::Union => 4,
            Cls::Struct => 5,
            Cls::Tuple => 6,
            Cls::Array => 7,
            Cls::List => 8,
            Cls::SetOf => 9,
            Cls::MapOf => 10,
        }
    }

    /// The class of a wire code: `Ok` exactly on 0 through 10, and the
    /// class it returns maps back to the given code.
    pub fn try_from_u8(value: u8) -> (r: Result<Cls, VariantError>)
        ensures
            r is Ok <==> value <= 10,
            r matches Ok(c) ==> cls_code(c) == value,
            r matches Err(e) ==> value > 10 && e == (VariantError(value)),
    {
        match value {
            0 => Ok(Cls::Primitive),
            1 => Ok(Cls::Unicode),
            2 => Ok(Cls::AsciiStr),
            3 => Ok(Cls::Enum),
            4 => Ok(Cls::Union),
            5 => Ok(Cls::Struct),
            6 => Ok(Cls::Tuple),
            7 => Ok(Cls::Array),
            8 => Ok(Cls::List),
            9 => Ok(Cls::SetOf),
            10 => Ok(Cls::MapOf),
            _ => Err(VariantError(value)),
        }
    }

    /// All eleven classes, in ascending code order.
    pub fn all() -> (r: Vec<Cls>)
        ensures
            r@.len() == 11,
            forall|i: int| 0 <= i < 11 ==> cls_code(#[trigger] r@[i]) == i,
    {
        let mut v: Vec<Cls> = Vec::new();
        v.push(Cls::Primitive);
        v.push(Cls::Unicode);
        v.push(Cls::AsciiStr);
        v.push(Cls::Enum);
        v.push(Cls::Union);
        v.push(Cls::Struct);
        v.push(Cls::Tuple);
        v.push(Cls::Array);
        v.push(Cls::List);
        v.push(Cls::SetOf);
        v.push(Cls::MapOf);
        v
    }
}

/// The restricted subset of the algebra legal as a map key: flatly
/// comparable, boundedly sized, never recursive.
#[derive(PartialEq, Eq, Debug)]
pub enum KeyTy {
    Primitive(Primitive),
    Enum(EnumVariants),
    /// Fixed-size byte array.
    Array(u16),
    UnicodeStr(Sizing),
    AsciiStr(Sizing),
    Bytes(Sizing),
}

/// Mathematical shape of a [`KeyTy`].
pub ghost enum KeyTyV {
    Primitive(Primitive),
    Enum(Seq<VariantV>),
    Array(u16),
    UnicodeStr(Sizing),
    AsciiStr(Sizing),
    Bytes(Sizing),
}

impl View for KeyTy {
    type V = KeyTyV;

    open spec fn view(&self) -> KeyTyV {
        match self {
            KeyTy::Primitive(p) => KeyTyV::Primitive(*p),
            KeyTy::Enum(vs) => KeyTyV::Enum(vs@),
            KeyTy::Array(len) => KeyTyV::Array(*len),
            KeyTy::UnicodeStr(s) => KeyTyV::UnicodeStr(*s),
            KeyTy::AsciiStr(s) => KeyTyV::AsciiStr(*s),
            KeyTy::Bytes(s) => KeyTyV::Bytes(*s),
        }
    }
}

impl Clone for KeyTy {
    fn clone(&self) -> (r: KeyTy)
        ensures
            r@ == self@,
    {
        match self {
            KeyTy::Primitive(p) => KeyTy::Primitive(*p),
            KeyTy::Enum(vs) => KeyTy::Enum(vs.clone()),
            KeyTy::Array(len) => KeyTy::Array(*len),
            KeyTy::UnicodeStr(s) => KeyTy::UnicodeStr(*s),
            KeyTy::AsciiStr(s) => KeyTy::AsciiStr(*s),
            KeyTy::Bytes(s) => KeyTy::Bytes(*s),
        }
    }
}

/// One node of the type algebra, with nested types referenced by
/// identity.
#[derive(PartialEq, Eq, Debug)]
pub enum Ty {
    Primitive(Primitive),
    /// A unicode scalar. Kept built in, distinct from a 256-variant
    /// enum, purely to avoid a combinatorial blow-up of the written
    /// form.
    UnicodeChar,
    Enum(EnumVariants),
    Union(UnionVariants),
    Tuple(UnnamedFields),
    Struct(NamedFields),
    /// Exactly the given number of elements.
    Array(SemId, u16),
    List(SemId, Sizing),
    SetOf(SemId, Sizing),
    MapOf(KeyTy, SemId, Sizing),
}

/// Mathematical shape of a [`Ty`].
pub ghost enum TyV {
    Primitive(Primitive),
    UnicodeChar,
    Enum(Seq<VariantV>),
    Union(Seq<(VariantV, Seq<u8>)>),
    Tuple(Seq<Seq<u8>>),
    Struct(Seq<FieldV>),
    Array(Seq<u8>, u16),
    List(Seq<u8>, Sizing),
    SetOf(Seq<u8>, Sizing),
    MapOf(KeyTyV, Seq<u8>, Sizing),
}

impl View for Ty {
    type V = TyV;

    open spec fn view(&self) -> TyV {
        match self {
            Ty::Primitive(p) => TyV::Primitive(*p),
            Ty::UnicodeChar => TyV::UnicodeChar,
            Ty::Enum(vs) => TyV::Enum(vs@),
            Ty::Union(vs) => TyV::Union(vs@),
            Ty::Tuple(fs) => TyV::Tuple(fs@),
            Ty::Struct(fs) => TyV::Struct(fs@),
            Ty::Array(id, len) => TyV::Array(id@, *len),
            Ty::List(id, s) => TyV::List(id@, *s),
            Ty::SetOf(id, s) => TyV::SetOf(id@, *s),
            Ty::MapOf(k, id, s) => TyV::MapOf(k@, id@, *s),
        }
    }
}

impl Clone for Ty {
    fn clone(&self) -> (r: Ty)
        ensures
            r@ == self@,
    {
        match self {
            Ty::Primitive(p) => Ty::Primitive(*p),
            Ty::UnicodeChar => Ty::UnicodeChar,
            Ty::Enum(vs) => Ty::Enum(vs.clone()),
            Ty::Union(vs) => Ty::Union(vs.clone()),
            Ty::Tuple(fs) => Ty::Tuple(fs.clone()),
            Ty::Struct(fs) => Ty::Struct(fs.clone()),
            Ty::Array(id, len) => Ty::Array(*id, *len),
            Ty::List(id, s) => Ty::List(*id, *s),
            Ty::SetOf(id, s) => Ty::SetOf(*id, *s),
            Ty::MapOf(k, id, s) => Ty::MapOf(k.clone(), *id, *s),
        }
    }
}

/// Well-formedness of an enum's variant sequence: confined, ascending by
/// tag, names valid.
pub open spec fn wf_variants_seq(s: Seq<VariantV>) -> bool {
    &&& 1 <= s.len() <= 255
    &&& key_sorted(s, variant_key())
    &&& forall|i: int| 0 <= i < s.len() ==> wf_ident((#[trigger] s[i]).name)
}

/// Well-formedness of a union's entry sequence: confined, ascending by
/// tag, names valid, references 32 bytes.
pub open spec fn wf_alts_seq(s: Seq<(VariantV, Seq<u8>)>) -> bool {
    &&& 1 <= s.len() <= 255
    &&& key_sorted(s, alt_key())
    &&& forall|i: int| 0 <= i < s.len() ==> wf_ident((#[trigger] s[i]).0.name)
    &&& forall|i: int| 0 <= i < s.len() ==> (#[trigger] s[i]).1.len() == 32
}

/// Well-formedness of a key type's shape.
pub open spec fn wf_keyty(k: KeyTyV) -> bool {
    match k {
        KeyTyV::Enum(vs) => wf_variants_seq(vs),
        _ => true,
    }
}

/// Well-formedness of a type node's shape: confined member collections in
/// canonical order, valid names, 32-byte references.
pub open spec fn wf_ty(t: TyV) -> bool {
    match t {
        TyV::Primitive(_) => true,
        TyV::UnicodeChar => true,
        TyV::Enum(vs) => wf_variants_seq(vs),
        TyV::Union(alts) => wf_alts_seq(alts),
        TyV::Tuple(ids) => {
            &&& 1 <= ids.len() <= 255
            &&& forall|i: int| 0 <= i < ids.len() ==> (#[trigger] ids[i]).len() == 32
        },
        TyV::Struct(fs) => {
            &&& 1 <= fs.len() <= 255
            &&& forall|i: int| 0 <= i < fs.len() ==> wf_ident((#[trigger] fs[i]).name)
            &&& forall|i: int| 0 <= i < fs.len() ==> (#[trigger] fs[i]).ty.len() == 32
        },
        TyV::Array(id, _) => id.len() == 32,
        TyV::List(id, _) => id.len() == 32,
        TyV::SetOf(id, _) => id.len() == 32,
        TyV::MapOf(k, id, _) => wf_keyty(k) && id.len() == 32,
    }
}

/// The class of a type node's shape.
pub open spec fn cls_of(t: TyV) -> Cls {
    match t {
        TyV::Primitive(_) => Cls::Primitive,
        TyV::UnicodeChar => Cls::Unicode,
        TyV::Enum(_) => Cls::Enum,
        TyV::Union(_) => Cls::Union,
        TyV::Tuple(_) => Cls::Tuple,
        TyV::Struct(_) => Cls::Struct,
        TyV::Array(_, _) => Cls::Array,
        TyV::List(_, _) => Cls::List,
        TyV::SetOf(_, _) => Cls::SetOf,
        TyV::MapOf(_, _, _) => Cls::MapOf,
    }
}

/// The class of a key type's shape. A byte string classifies as a list;
/// character strings classify by their character kind.
pub open spec fn key_cls_of(k: KeyTyV) -> Cls {
    match k {
        KeyTyV::Primitive(_) => Cls::Primitive,
        KeyTyV::Enum(_) => Cls::Enum,
        KeyTyV::Array(_) => Cls::Array,
        KeyTyV::UnicodeStr(_) => Cls::Unicode,
        KeyTyV::AsciiStr(_) => Cls::AsciiStr,
        KeyTyV::Bytes(_) => Cls::List,
    }
}

/// A type is recognized as optional when it is a two-variant union whose
/// variants are named exactly `none` and `some`, whatever their tags put
/// first. The recognition is structural: no flag is stored.
pub open spec fn is_option_ty(t: TyV) -> bool {
    &&& t matches TyV::Union(alts)
    &&& alts.len() == 2
    &&& ((alts[0].0.name == "none"@ && alts[1].0.name == "some"@) || (alts[0].0.name == "some"@
        && alts[1].0.name == "none"@))
}

impl Ty {
    /// Recalls, in exec context, that this node's shape is well-formed.
    pub fn wf_witness(&self)
        ensures
            wf_ty(self@),
    {
        match self {
            Ty::Primitive(_) => (),
            Ty::UnicodeChar => (),
            Ty::Enum(vs) => vs.wf_witness(),
            Ty::Union(vs) => vs.wf_witness(),
            Ty::Tuple(fs) => fs.wf_witness(),
            Ty::Struct(fs) => fs.wf_witness(),
            Ty::Array(_, _) => (),
            Ty::List(_, _) => (),
            Ty::SetOf(_, _) => (),
            Ty::MapOf(k, _, _) => match k {
                KeyTy::Enum(vs) => vs.wf_witness(),
                _ => (),
            },
        }
    }

    /// The unit primitive.
    pub fn unit() -> (r: Ty)
        ensures
            r@ == TyV::Primitive(Primitive { code: crate::prim::UNIT_CODE }),
    {
        Ty::Primitive(Primitive::unit())
    }

    /// The byte primitive.
    pub fn byte() -> (r: Ty)
        ensures
            r@ == TyV::Primitive(Primitive { code: crate::prim::BYTE_CODE }),
    {
        Ty::Primitive(Primitive::byte())
    }

    /// An enum type over the given variants.
    pub fn enumerate(variants: EnumVariants) -> (r: Ty)
        ensures
            r@ == TyV::Enum(variants@),
    {
        Ty::Enum(variants)
    }

    /// A union type over the given variants.
    pub fn union(variants: UnionVariants) -> (r: Ty)
        ensures
            r@ == TyV::Union(variants@),
    {
        Ty::Union(variants)
    }

    /// A struct type over the given named fields.
    pub fn struc(fields: NamedFields) -> (r: Ty)
        ensures
            r@ == TyV::Struct(fields@),
    {
        Ty::Struct(fields)
    }

    /// A tuple type over the given unnamed fields.
    pub fn tuple(fields: UnnamedFields) -> (r: Ty)
        ensures
            r@ == TyV::Tuple(fields@),
    {
        Ty::Tuple(fields)
    }

    /// A list of `ty` elements within the `sizing` bounds.
    pub fn list(ty: SemId, sizing: Sizing) -> (r: Ty)
        ensures
            r@ == TyV::List(ty@, sizing),
    {
        Ty::List(ty, sizing)
    }

    /// A set of `ty` elements within the `sizing` bounds. Uniqueness of
    /// the decoded elements is a decode-time rule, not part of this node.
    pub fn set_of(ty: SemId, sizing: Sizing) -> (r: Ty)
        ensures
            r@ == TyV::SetOf(ty@, sizing),
    {
        Ty::SetOf(ty, sizing)
    }

    /// A map from `key` to `val` within the `sizing` bounds.
    pub fn map_of(key: KeyTy, val: SemId, sizing: Sizing) -> (r: Ty)
        ensures
            r@ == TyV::MapOf(key@, val@, sizing),
    {
        Ty::MapOf(key, val, sizing)
    }

    /// The node's class.
    pub fn cls(&self) -> (r: Cls)
        ensures
            r == cls_of(self@),
    {
        match self {
            Ty::Primitive(_) => Cls::Primitive,
            Ty::UnicodeChar => Cls::Unicode,
            Ty::Enum(_) => Cls::Enum,
            Ty::Union(_) => Cls::Union,
            Ty::Tuple(_) => Cls::Tuple,
            Ty::Struct(_) => Cls::Struct,
            Ty::Array(_, _) => Cls::Array,
            Ty::List(_, _) => Cls::List,
            Ty::SetOf(_, _) => Cls::SetOf,
            Ty::MapOf(_, _, _) => Cls::MapOf,
        }
    }

    /// Whether the node is a primitive leaf (the unicode scalar counts).
    pub fn is_primitive(&self) -> (r: bool)
        ensures
            r == (self@ is Primitive || self@ is UnicodeChar),
    {
        match self {
            Ty::Primitive(_) => true,
            Ty::UnicodeChar => true,
            _ => false,
        }
    }

    /// Whether the node is a homogeneous collection.
    pub fn is_collection(&self) -> (r: bool)
        ensures
            r == (self@ is Array || self@ is List || self@ is SetOf || self@ is MapOf),
    {
        match self {
            Ty::Array(_, _) => true,
            Ty::List(_, _) => true,
            Ty::SetOf(_, _) => true,
            Ty::MapOf(_, _, _) => true,
            _ => false,
        }
    }

    /// Whether the node is recognized as optional: a two-variant union
    /// named exactly `none` and `some`, whatever the tags.
    pub fn is_option(&self) -> (r: bool)
        ensures
            r == is_option_ty(self@),
    {
        match self {
            Ty::Union(alts) => {
                if alts.len() != 2 {
                    return false;
                }
                let n = Variant::none();
                let s = Variant::some();
                let a0 = match alts.get(0) {
                    Some(p) => p,
                    None => vstd::pervasive::unreached(),
                };
                let a1 = match alts.get(1) {
                    Some(p) => p,
                    None => vstd::pervasive::unreached(),
                };
                (a0.0.name.eq_name(&n.name) && a1.0.name.eq_name(&s.name)) || (a0.0.name.eq_name(
                    &s.name,
                ) && a1.0.name.eq_name(&n.name))
            },
            _ => false,
        }
    }

    /// Whether the node is compound: a struct of more than one field (a
    /// single-field struct is a newtype wrapper), or an enum or union not
    /// recognized as optional.
    pub fn is_compound(&self) -> (r: bool)
        ensures
            r == ((self@ matches TyV::Struct(fs) && fs.len() > 1) || ((self@ is Enum
                || self@ is Union) && !is_option_ty(self@))),
    {
        match self {
            Ty::Struct(fields) => fields.len() > 1,
            Ty::Enum(_) => true,
            Ty::Union(_) => !self.is_option(),
            _ => false,
        }
    }

    /// The nested reference at position `pos`: the member of a union,
    /// struct or tuple, or the element of a collection for any positive
    /// position.
    pub fn ty_at(&self, pos: u8) -> (r: Option<&SemId>)
        ensures
            match self@ {
                TyV::Union(alts) => match r {
                    Some(id) => pos < alts.len() && id@ == alts[pos as int].1,
                    None => pos >= alts.len(),
                },
                TyV::Struct(fs) => match r {
                    Some(id) => pos < fs.len() && id@ == fs[pos as int].ty,
                    None => pos >= fs.len(),
                },
                TyV::Tuple(ids) => match r {
                    Some(id) => pos < ids.len() && id@ == ids[pos as int],
                    None => pos >= ids.len(),
                },
                TyV::Array(e, _) => (r is Some <==> pos > 0) && (r matches Some(id) ==> id@
                    == e),
                TyV::List(e, _) => (r is Some <==> pos > 0) && (r matches Some(id) ==> id@ == e),
                TyV::SetOf(e, _) => (r is Some <==> pos > 0) && (r matches Some(id) ==> id@
                    == e),
                TyV::MapOf(_, e, _) => (r is Some <==> pos > 0) && (r matches Some(id) ==> id@
                    == e),
                _ => r is None,
            },
    {
        match self {
            Ty::Union(alts) => alts.ty_at(pos),
            Ty::Struct(fs) => fs.ty_at(pos),
            Ty::Tuple(fs) => fs.ty_at(pos),
            Ty::Array(ty, _) => if pos > 0 {
                Some(ty)
            } else {
                None
            },
            Ty::List(ty, _) => if pos > 0 {
                Some(ty)
            } else {
                None
            },
            Ty::SetOf(ty, _) => if pos > 0 {
                Some(ty)
            } else {
                None
            },
            Ty::MapOf(_, ty, _) => if pos > 0 {
                Some(ty)
            } else {
                None
            },
            _ => None,
        }
    }
}

/// The class law: every class code lies below eleven and no two
/// classes share one. Together with `try_from_u8`, whose contract
/// returns for each code up to ten the class mapping back to it, the
/// codes and the classes are in bijection.
pub proof fn lemma_cls_code_injective()
    ensures
        forall|c: Cls| #[trigger] cls_code(c) <= 10,
        forall|c1: Cls, c2: Cls| #[trigger] cls_code(c1) == #[trigger] cls_code(c2) ==> c1 == c2,
{
}

impl KeyTy {
    /// The key type's class.
    pub fn cls(&self) -> (r: Cls)
        ensures
            r == key_cls_of(self@),
    {
        match self {
            KeyTy::Primitive(_) => Cls::Primitive,
            KeyTy::Enum(_) => Cls::Enum,
            KeyTy::Array(_) => Cls::Array,
            KeyTy::UnicodeStr(_) => Cls::Unicode,
            KeyTy::AsciiStr(_) => Cls::AsciiStr,
            KeyTy::Bytes(_) => Cls::List,
        }
    }

    /// Recalls, in exec context, that this key type's shape is
    /// well-formed.
    pub fn wf_witness(&self)
        ensures
            wf_keyty(self@),
    {
        match self {
            KeyTy::Enum(vs) => vs.wf_witness(),
            _ => (),
        }
    }
}

} // verus!
