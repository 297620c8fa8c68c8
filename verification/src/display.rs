//! Display text of the model's values. The forms are part of the
//! model's contract: an optional type displays as its inner type
//! followed by `?`, a fixed byte array as `[Byte ^ N]`, a byte string
//! as `[Byte{min,max}]`, and a referenced identity as its base58 text.

use vstd::prelude::*;
use vstd::string::StringExecFns;
use crate::id::{SemId, TypeLibId};
use crate::prim::{Primitive, Sizing, BYTE_CODE, UNIT_CODE};
use crate::text::{dec_chars, dec_u64};
use crate::ty::{is_option_ty, KeyTy, KeyTyV, Ty, TyV};
use crate::variants::{EnumVariants, UnionVariants, Variant, VariantV};
use crate::fields::{FieldV, NamedFields, UnnamedFields};

verus! {

/// The base58 text of a 32-byte identity.
pub uninterp spec fn base58_of(payload: Seq<u8>) -> Seq<char>;

/// The mnemonic text of a 32-byte identity's checksum.
pub uninterp spec fn mnemonic_of(payload: Seq<u8>) -> Seq<char>;

/// Relies on `baid58::Baid58::with` and its plain `Display` form: the
/// base58 text is a function of the payload bytes alone (the
/// human-readable identifier plays no part in the undecorated form).
#[verifier::external_body]
pub(crate) fn baid58_text(payload: &[u8; 32]) -> (r: String)
    ensures
        r@ == base58_of(payload@),
{
    baid58::Baid58::<32>::with("stl", *payload).to_string()
}

/// Relies on `baid58::Baid58::mnemonic`: the mnemonic of the checksum
/// computed, under the fixed `stl` identifier, from the payload bytes
/// alone; the text is ASCII words joined by dashes.
#[verifier::external_body]
pub(crate) fn baid58_mnemonic(payload: &[u8; 32]) -> (r: String)
    ensures
        r@ == mnemonic_of(payload@),
        forall|i: int| 0 <= i < r@.len() ==> '\0' <= #[trigger] r@[i] < '\u{7f}',
{
    baid58::Baid58::<32>::with("stl", *payload).mnemonic()
}

impl SemId {
    /// The identity's display text: its base58 form.
    pub fn to_text(&self) -> (r: String)
        ensures
            r@ == base58_of(self@),
    {
        baid58_text(&self.bytes)
    }
}

impl TypeLibId {
    /// The identity's display text: its base58 form.
    pub fn to_text(&self) -> (r: String)
        ensures
            r@ == base58_of(self@),
    {
        baid58_text(&self.bytes)
    }

    /// The mnemonic of the identity's checksum: ASCII words joined by
    /// dashes.
    pub fn mnemonic(&self) -> (r: String)
        ensures
            r@ == mnemonic_of(self@),
            forall|i: int| 0 <= i < r@.len() ==> '\0' <= #[trigger] r@[i] < '\u{7f}',
    {
        baid58_mnemonic(&self.bytes)
    }
}

/// The members of a collection joined with a separator.
pub open spec fn join_chars<A>(s: Seq<A>, f: spec_fn(A) -> Seq<char>, sep: Seq<char>) -> Seq<char>
    decreases s.len(),
{
    if s.len() == 0 {
        Seq::empty()
    } else if s.len() == 1 {
        f(s[0])
    } else {
        f(s[0]) + sep + join_chars(s.drop_first(), f, sep)
    }
}

/// Appending a member appends a separator and its text.
pub proof fn lemma_join_push<A>(s: Seq<A>, f: spec_fn(A) -> Seq<char>, sep: Seq<char>, x: A)
    requires
        s.len() >= 1,
    ensures
        join_chars(s.push(x), f, sep) == join_chars(s, f, sep) + sep + f(x),
    decreases s.len(),
{
    if s.len() == 1 {
        assert(s.push(x)[0] == s[0]);
        assert(s.push(x).drop_first() =~= seq![x]);
        assert(join_chars(seq![x], f, sep) == f(x));
        assert(join_chars(s.push(x), f, sep) =~= join_chars(s, f, sep) + sep + f(x));
    } else {
        assert(s.push(x)[0] == s[0]);
        assert(s.push(x).drop_first() =~= s.drop_first().push(x));
        lemma_join_push(s.drop_first(), f, sep, x);
        assert(join_chars(s.push(x), f, sep) =~= join_chars(s, f, sep) + sep + f(x));
    }
}

/// The display text of a sizing interval: its closed bounds in braces.
pub open spec fn sizing_text(s: Sizing) -> Seq<char> {
    seq!['{'] + dec_chars(s.min as int) + seq![','] + dec_chars(s.max as int) + seq!['}']
}

impl Sizing {
    /// The interval's display text.
    pub fn to_text(&self) -> (r: String)
        ensures
            r@ == sizing_text(*self),
    {
        proof {
            reveal_strlit("{");
            reveal_strlit(",");
            reveal_strlit("}");
        }
        let mut s = String::from_str("{");
        let minx = dec_u64(self.min);
        s.append(minx.as_str());
        s.append(",");
        let maxx = dec_u64(self.max);
        s.append(maxx.as_str());
        s.append("}");
        proof {
            assert(s@ =~= sizing_text(*self));
        }
        s
    }
}

/// The display text of a primitive code: `()` for the unit, `Byte` for
/// the byte, `F16b` for the bfloat, otherwise the number class letter
/// and the bit width.
pub open spec fn prim_text(code: u8) -> Seq<char> {
    if code == 0x00 {
        seq!['(', ')']
    } else if code == 0x40 {
        seq!['B', 'y', 't', 'e']
    } else if code == 0xC0 {
        seq!['F', '1', '6', 'b']
    } else {
        let cls_ch = if code / 64 == 0 {
            'U'
        } else if code / 64 == 1 {
            'I'
        } else if code / 64 == 2 {
            'N'
        } else {
            'F'
        };
        let low = code % 64;
        let bytes: int = if low / 32 == 0 {
            low as int
        } else {
            16 * ((low % 32) + 2)
        };
        seq![cls_ch] + dec_chars(bytes * 8)
    }
}

impl Primitive {
    /// The primitive's display text.
    pub fn to_text(&self) -> (r: String)
        ensures
            r@ == prim_text(self.code),
    {
        proof {
            reveal_strlit("()");
            reveal_strlit("Byte");
            reveal_strlit("F16b");
            reveal_strlit("U");
            reveal_strlit("I");
            reveal_strlit("N");
            reveal_strlit("F");
        }
        let code = self.code;
        if code == UNIT_CODE {
            let r = String::from_str("()");
            proof {
                assert(r@ =~= prim_text(code));
            }
            return r;
        }
        if code == BYTE_CODE {
            let r = String::from_str("Byte");
            proof {
                assert(r@ =~= prim_text(code));
            }
            return r;
        }
        if code == 0xC0 {
            let r = String::from_str("F16b");
            proof {
                assert(r@ =~= prim_text(code));
            }
            return r;
        }
        let mut s = if code / 64 == 0 {
            String::from_str("U")
        } else if code / 64 == 1 {
            String::from_str("I")
        } else if code / 64 == 2 {
            String::from_str("N")
        } else {
            String::from_str("F")
        };
        let low = code % 64;
        let bytes: u64 = if low / 32 == 0 {
            low as u64
        } else {
            16 * (((low % 32) as u64) + 2)
        };
        let b = dec_u64(bytes * 8);
        s.append(b.as_str());
        proof {
            assert(s@ =~= prim_text(code));
        }
        s
    }
}

/// The display text of an enum's variants: their names joined by bars.
pub open spec fn variants_text(vs: Seq<VariantV>) -> Seq<char> {
    join_chars(vs, |v: VariantV| v.name, seq![' ', '|', ' '])
}

impl EnumVariants {
    /// The variant names joined by bars.
    pub fn to_text(&self) -> (r: String)
        ensures
            r@ == variants_text(self@),
    {
        proof {
            reveal_strlit(" | ");
        }
        let list = self.as_inner();
        let n = list.len();
        let mut s = String::new();
        let ghost f = |v: VariantV| v.name;
        let ghost sep: Seq<char> = seq![' ', '|', ' '];
        proof {
            assert(" | "@ =~= sep);
            assert(s@ =~= join_chars(self@.take(0), f, sep));
        }
        let mut i: usize = 0;
        while i < n
            invariant
                0 <= i <= n,
                n == list@.len(),
                crate::variants::variants_view(list@) == self@,
                f == (|v: VariantV| v.name),
                sep == seq![' ', '|', ' '],
                " | "@ == sep,
                s@ == join_chars(self@.take(i as int), f, sep),
            decreases n - i,
        {
            if i > 0 {
                s.append(" | ");
            }
            s.append(list[i].name.as_str());
            proof {
                assert(list@[i as int]@ == self@[i as int]);
                assert(f(self@[i as int]) == self@[i as int].name);
                if i > 0 {
                    lemma_join_push(self@.take(i as int), f, sep, self@[i as int]);
                } else {
                    assert(join_chars(self@.take(1), f, sep) == f(self@[0]));
                }
                assert(self@.take(i as int).push(self@[i as int]) =~= self@.take(i as int + 1));
                assert(s@ =~= join_chars(self@.take(i as int + 1), f, sep));
            }
            i += 1;
        }
        proof {
            assert(self@.take(n as int) =~= self@);
        }
        s
    }
}

/// The display text of a key type. A fixed byte array shows as
/// `[Byte ^ N]`, a byte string as `[Byte{min,max}]`, character strings
/// by their character kind, an enum by its parenthesized variants.
pub open spec fn keyty_text(k: KeyTyV) -> Seq<char> {
    match k {
        KeyTyV::Primitive(p) => prim_text(p.code),
        KeyTyV::Enum(vs) => seq!['('] + variants_text(vs) + seq![')'],
        KeyTyV::Array(len) => seq!['[', 'B', 'y', 't', 'e', ' ', '^', ' '] + dec_chars(len as int)
            + seq![']'],
        KeyTyV::UnicodeStr(s) => seq!['[', 'U', 'n', 'i', 'c', 'o', 'd', 'e'] + sizing_text(s)
            + seq![']'],
        KeyTyV::AsciiStr(s) => seq!['[', 'A', 's', 'c', 'i', 'i'] + sizing_text(s) + seq![']'],
        KeyTyV::Bytes(s) => seq!['[', 'B', 'y', 't', 'e'] + sizing_text(s) + seq![']'],
    }
}

impl KeyTy {
    /// The key type's display text.
    pub fn to_text(&self) -> (r: String)
        ensures
            r@ == keyty_text(self@),
    {
        proof {
            reveal_strlit("(");
            reveal_strlit(")");
            reveal_strlit("[Byte ^ ");
            reveal_strlit("[Unicode");
            reveal_strlit("[Ascii");
            reveal_strlit("[Byte");
            reveal_strlit("]");
        }
        match self {
            KeyTy::Primitive(p) => p.to_text(),
            KeyTy::Enum(vs) => {
                let mut s = String::from_str("(");
                let body = vs.to_text();
                s.append(body.as_str());
                s.append(")");
                proof {
                    assert(s@ =~= keyty_text(self@));
                }
                s
            },
            KeyTy::Array(len) => {
                let mut s = String::from_str("[Byte ^ ");
                let d = dec_u64(*len as u64);
                s.append(d.as_str());
                s.append("]");
                proof {
                    assert(s@ =~= keyty_text(self@));
                }
                s
            },
            KeyTy::UnicodeStr(sz) => {
                let mut s = String::from_str("[Unicode");
                let z = sz.to_text();
                s.append(z.as_str());
                s.append("]");
                proof {
                    assert(s@ =~= keyty_text(self@));
                }
                s
            },
            KeyTy::AsciiStr(sz) => {
                let mut s = String::from_str("[Ascii");
                let z = sz.to_text();
                s.append(z.as_str());
                s.append("]");
                proof {
                    assert(s@ =~= keyty_text(self@));
                }
                s
            },
            KeyTy::Bytes(sz) => {
                let mut s = String::from_str("[Byte");
                let z = sz.to_text();
                s.append(z.as_str());
                s.append("]");
                proof {
                    assert(s@ =~= keyty_text(self@));
                }
                s
            },
        }
    }
}

/// The display text of one union entry: its name, then the referenced
/// identity.
pub open spec fn alt_text_fn() -> spec_fn((VariantV, Seq<u8>)) -> Seq<char> {
    |a: (VariantV, Seq<u8>)| a.0.name + seq![' '] + base58_of(a.1)
}

/// The display text of one named field: its name, then the referenced
/// identity.
pub open spec fn field_text_fn() -> spec_fn(FieldV) -> Seq<char> {
    |f: FieldV| f.name + seq![' '] + base58_of(f.ty)
}

/// The display text of one bare reference.
pub open spec fn id_text_fn() -> spec_fn(Seq<u8>) -> Seq<char> {
    |id: Seq<u8>| base58_of(id)
}

/// The identity referenced by the `some`-named variant of a recognized
/// optional union.
pub open spec fn option_some_ref(alts: Seq<(VariantV, Seq<u8>)>) -> Seq<u8> {
    if alts[0].0.name == "some"@ {
        alts[0].1
    } else {
        alts[1].1
    }
}

/// The display text of a type node. A recognized optional type shows as
/// its `some` type's identity followed by `?`; other unions, enums,
/// structs and tuples join their members; collections bracket their
/// element with their arity.
pub open spec fn ty_text(t: TyV) -> Seq<char> {
    match t {
        TyV::Primitive(p) => prim_text(p.code),
        TyV::UnicodeChar => seq!['U', 'n', 'i', 'c', 'o', 'd', 'e'],
        TyV::Enum(vs) => variants_text(vs),
        TyV::Union(alts) => if is_option_ty(t) {
            base58_of(option_some_ref(alts)) + seq!['?']
        } else {
            join_chars(alts, alt_text_fn(), seq![' ', '|', ' '])
        },
        TyV::Struct(fs) => join_chars(fs, field_text_fn(), seq![',', ' ']),
        TyV::Tuple(ids) => seq!['('] + join_chars(ids, id_text_fn(), seq![',', ' ']) + seq![')'],
        TyV::Array(id, len) => seq!['['] + base58_of(id) + seq![' ', '^', ' '] + dec_chars(
            len as int,
        ) + seq![']'],
        TyV::List(id, s) => seq!['['] + base58_of(id) + sizing_text(s) + seq![']'],
        TyV::SetOf(id, s) => seq!['{'] + base58_of(id) + sizing_text(s) + seq!['}'],
        TyV::MapOf(k, id, s) => seq!['{'] + keyty_text(k) + seq![' ', '-', '>'] + sizing_text(s)
            + seq![' '] + base58_of(id) + seq!['}'],
    }
}

impl Ty {
    /// The node's display text.
    pub fn to_text(&self) -> (r: String)
        ensures
            r@ == ty_text(self@),
    {
        proof {
            reveal_strlit("Unicode");
            reveal_strlit("?");
            reveal_strlit(" | ");
            reveal_strlit(", ");
            reveal_strlit("(");
            reveal_strlit(")");
            reveal_strlit("[");
            reveal_strlit("]");
            reveal_strlit("{");
            reveal_strlit("}");
            reveal_strlit(" ^ ");
            reveal_strlit(" ->");
            reveal_strlit(" ");
        }
        match self {
            Ty::Primitive(p) => p.to_text(),
            Ty::UnicodeChar => {
                let r = String::from_str("Unicode");
                proof {
                    assert(r@ =~= ty_text(self@));
                }
                r
            },
            Ty::Enum(vs) => vs.to_text(),
            Ty::Union(alts) => {
                if self.is_option() {
                    proof {
                        reveal_strlit("none");
                        reveal_strlit("some");
                        assert("none"@ != "some"@) by {
                            assert("none"@[0] != "some"@[0]);
                        }
                    }
                    let sv = Variant::some();
                    let some_ref = match alts.ty_by_name(&sv.name) {
                        Some(id) => id,
                        None => {
                            proof {
                                if alts@[0].0.name == "some"@ {
                                    assert(alts@[0].0.name != "some"@);
                                } else {
                                    assert(alts@[1].0.name != "some"@);
                                }
                            }
                            vstd::pervasive::unreached()
                        },
                    };
                    let mut s = some_ref.to_text();
                    s.append("?");
                    proof {
                        let i = choose|i: int|
                            0 <= i < alts@.len() && (#[trigger] alts@[i]).0.name == "some"@
                                && some_ref@ == alts@[i].1;
                        if alts@[0].0.name == "some"@ {
                            assert(alts@[1].0.name == "none"@);
                            assert(i == 0);
                        } else {
                            assert(alts@[0].0.name == "none"@);
                            assert(i == 1);
                        }
                        assert(some_ref@ == option_some_ref(alts@));
                        assert(s@ =~= ty_text(self@));
                    }
                    s
                } else {
                    alts.to_text()
                }
            },
            Ty::Struct(fs) => fs.to_text(),
            Ty::Tuple(ids) => ids.to_text(),
            Ty::Array(id, len) => {
                let mut s = String::from_str("[");
                let idt = id.to_text();
                s.append(idt.as_str());
                s.append(" ^ ");
                let d = dec_u64(*len as u64);
                s.append(d.as_str());
                s.append("]");
                proof {
                    assert(s@ =~= ty_text(self@));
                }
                s
            },
            Ty::List(id, sz) => {
                let mut s = String::from_str("[");
                let idt = id.to_text();
                s.append(idt.as_str());
                let z = sz.to_text();
                s.append(z.as_str());
                s.append("]");
                proof {
                    assert(s@ =~= ty_text(self@));
                }
                s
            },
            Ty::SetOf(id, sz) => {
                let mut s = String::from_str("{");
                let idt = id.to_text();
                s.append(idt.as_str());
                let z = sz.to_text();
                s.append(z.as_str());
                s.append("}");
                proof {
                    assert(s@ =~= ty_text(self@));
                }
                s
            },
            Ty::MapOf(k, id, sz) => {
                let mut s = String::from_str("{");
                let kt = k.to_text();
                s.append(kt.as_str());
                s.append(" ->");
                let z = sz.to_text();
                s.append(z.as_str());
                s.append(" ");
                let idt = id.to_text();
                s.append(idt.as_str());
                s.append("}");
                proof {
                    assert(s@ =~= ty_text(self@));
                }
                s
            },
        }
    }
}

impl UnionVariants {
    /// The entries joined by bars: each variant's name, then the
    /// referenced identity.
    pub fn to_text(&self) -> (r: String)
        ensures
            r@ == join_chars(self@, alt_text_fn(), seq![' ', '|', ' ']),
    {
        proof {
            reveal_strlit(" | ");
        }
        let list = self.as_inner();
        let n = list.len();
        let mut s = String::new();
        let ghost f = alt_text_fn();
        let ghost sep: Seq<char> = seq![' ', '|', ' '];
        proof {
            assert(" | "@ =~= sep);
            assert(s@ =~= join_chars(self@.take(0), f, sep));
        }
        let mut i: usize = 0;
        while i < n
            invariant
                0 <= i <= n,
                n == list@.len(),
                crate::variants::alts_view(list@) == self@,
                f == alt_text_fn(),
                sep == seq![' ', '|', ' '],
                " | "@ == sep,
                s@ == join_chars(self@.take(i as int), f, sep),
            decreases n - i,
        {
            if i > 0 {
                s.append(" | ");
            }
            s.append(list[i].0.name.as_str());
            s.append(" ");
            let idt = list[i].1.to_text();
            s.append(idt.as_str());
            proof {
                reveal_strlit(" ");
                reveal_strlit(" | ");
                assert(self@[i as int] == (list@[i as int].0@, list@[i as int].1@));
                assert(f(self@[i as int]) == self@[i as int].0.name + seq![' '] + base58_of(
                    self@[i as int].1,
                ));
                if i > 0 {
                    lemma_join_push(self@.take(i as int), f, sep, self@[i as int]);
                } else {
                    assert(join_chars(self@.take(1), f, sep) == f(self@[0]));
                }
                assert(self@.take(i as int).push(self@[i as int]) =~= self@.take(i as int + 1));
                assert(s@ =~= join_chars(self@.take(i as int + 1), f, sep));
            }
            i += 1;
        }
        proof {
            assert(self@.take(n as int) =~= self@);
        }
        s
    }
}

impl NamedFields {
    /// The fields joined by commas: each field's name, then the
    /// referenced identity.
    pub fn to_text(&self) -> (r: String)
        ensures
            r@ == join_chars(self@, field_text_fn(), seq![',', ' ']),
    {
        proof {
            reveal_strlit(", ");
        }
        let list = self.as_inner();
        let n = list.len();
        let mut s = String::new();
        let ghost f = field_text_fn();
        let ghost sep: Seq<char> = seq![',', ' '];
        proof {
            assert(", "@ =~= sep);
            assert(s@ =~= join_chars(self@.take(0), f, sep));
        }
        let mut i: usize = 0;
        while i < n
            invariant
                0 <= i <= n,
                n == list@.len(),
                list@.map(|k: int, fd: crate::fields::Field| fd@) == self@,
                f == field_text_fn(),
                sep == seq![',', ' '],
                ", "@ == sep,
                s@ == join_chars(self@.take(i as int), f, sep),
            decreases n - i,
        {
            if i > 0 {
                s.append(", ");
            }
            s.append(list[i].name.as_str());
            s.append(" ");
            let idt = list[i].ty.to_text();
            s.append(idt.as_str());
            proof {
                reveal_strlit(" ");
                reveal_strlit(", ");
                assert(self@[i as int] == list@[i as int]@);
                assert(f(self@[i as int]) == self@[i as int].name + seq![' '] + base58_of(
                    self@[i as int].ty,
                ));
                if i > 0 {
                    lemma_join_push(self@.take(i as int), f, sep, self@[i as int]);
                } else {
                    assert(join_chars(self@.take(1), f, sep) == f(self@[0]));
                }
                assert(self@.take(i as int).push(self@[i as int]) =~= self@.take(i as int + 1));
                assert(s@ =~= join_chars(self@.take(i as int + 1), f, sep));
            }
            i += 1;
        }
        proof {
            assert(self@.take(n as int) =~= self@);
        }
        s
    }
}

impl UnnamedFields {
    /// The parenthesized references joined by commas.
    pub fn to_text(&self) -> (r: String)
        ensures
            r@ == seq!['('] + join_chars(self@, id_text_fn(), seq![',', ' ']) + seq![')'],
    {
        proof {
            reveal_strlit(", ");
            reveal_strlit("(");
            reveal_strlit(")");
        }
        let list = self.as_inner();
        let n = list.len();
        let mut s = String::from_str("(");
        let ghost f = id_text_fn();
        let ghost sep: Seq<char> = seq![',', ' '];
        proof {
            assert(", "@ =~= sep);
            assert("("@ =~= seq!['(']);
            assert(s@ =~= seq!['('] + join_chars(self@.take(0), f, sep));
        }
        let mut i: usize = 0;
        while i < n
            invariant
                0 <= i <= n,
                n == list@.len(),
                list@.map(|k: int, x: SemId| x@) == self@,
                f == id_text_fn(),
                sep == seq![',', ' '],
                ", "@ == sep,
                s@ == seq!['('] + join_chars(self@.take(i as int), f, sep),
            decreases n - i,
        {
            if i > 0 {
                s.append(", ");
            }
            let idt = list[i].to_text();
            s.append(idt.as_str());
            proof {
                reveal_strlit(", ");
                assert(self@[i as int] == list@[i as int]@);
                assert(f(self@[i as int]) == base58_of(self@[i as int]));
                if i > 0 {
                    lemma_join_push(self@.take(i as int), f, sep, self@[i as int]);
                } else {
                    assert(join_chars(self@.take(1), f, sep) == f(self@[0]));
                }
                assert(self@.take(i as int).push(self@[i as int]) =~= self@.take(i as int + 1));
                assert(s@ =~= seq!['('] + join_chars(self@.take(i as int + 1), f, sep));
            }
            i += 1;
        }
        s.append(")");
        proof {
            assert(self@.take(n as int) =~= self@);
        }
        s
    }
}

/// The members' texts, one after the other.
pub open spec fn cat_chars<A>(s: Seq<A>, f: spec_fn(A) -> Seq<char>) -> Seq<char>
    decreases s.len(),
{
    if s.len() == 0 {
        Seq::empty()
    } else {
        f(s[0]) + cat_chars(s.drop_first(), f)
    }
}

/// Appending a member appends its text.
pub proof fn lemma_cat_chars_push<A>(s: Seq<A>, f: spec_fn(A) -> Seq<char>, x: A)
    ensures
        cat_chars(s.push(x), f) == cat_chars(s, f) + f(x),
    decreases s.len(),
{
    if s.len() == 0 {
        assert(s.push(x)[0] == x);
        assert(s.push(x).drop_first() =~= Seq::<A>::empty());
        assert(cat_chars(Seq::<A>::empty(), f) == Seq::<char>::empty());
        assert(cat_chars(s.push(x), f) == f(x) + cat_chars(s.push(x).drop_first(), f));
        assert(cat_chars(s.push(x), f) =~= f(x));
        assert(cat_chars(s, f) + f(x) =~= f(x));
    } else {
        assert(s.push(x)[0] == s[0]);
        assert(s.push(x).drop_first() =~= s.drop_first().push(x));
        lemma_cat_chars_push(s.drop_first(), f, x);
        assert(cat_chars(s.push(x), f) =~= cat_chars(s, f) + f(x));
    }
}

/// The display text of a fully-qualified name: the library's name, a
/// dot, the type's name.
pub open spec fn fqn_text(f: crate::typesys::TypeFqnV) -> Seq<char> {
    f.lib + seq!['.'] + f.name
}

/// The display text of a fully-qualified identity: its label when it
/// carries one, else its identity's base58 text.
pub open spec fn fqid_text(f: crate::typesys::TypeFqidV) -> Seq<char> {
    match f.fqn {
        Some(q) => fqn_text(q),
        None => base58_of(f.id),
    }
}

impl crate::typesys::TypeFqn {
    /// The name's display text.
    pub fn to_text(&self) -> (r: String)
        ensures
            r@ == fqn_text(self@),
    {
        proof {
            reveal_strlit(".");
        }
        let mut s = self.lib.to_text();
        s.append(".");
        s.append(self.name.as_str());
        proof {
            assert(s@ =~= fqn_text(self@));
        }
        s
    }
}

impl crate::typesys::TypeFqid {
    /// The identity's display text.
    pub fn to_text(&self) -> (r: String)
        ensures
            r@ == fqid_text(self@),
    {
        match &self.fqn {
            Some(q) => q.to_text(),
            None => self.id.to_text(),
        }
    }
}

/// The same text with every dash turned into an underscore: the snake
/// form of a mnemonic.
pub open spec fn snake_of(s: Seq<char>) -> Seq<char> {
    Seq::new(s.len(), |i: int| if s[i] == '-' {
        '_'
    } else {
        s[i]
    })
}

/// Maps dashes to underscores in ASCII text.
fn to_snake(s: &str) -> (r: String)
    requires
        forall|i: int| 0 <= i < s@.len() ==> '\0' <= #[trigger] s@[i] < '\u{7f}',
    ensures
        r@ == snake_of(s@),
{
    proof {
        assert(vstd::string::is_ascii(s));
        vstd::utf8::is_ascii_chars_encode_utf8(s@);
    }
    let b = s.as_bytes();
    let n = b.len();
    let mut out: Vec<u8> = Vec::new();
    let mut i: usize = 0;
    while i < n
        invariant
            0 <= i <= n,
            n == s@.len(),
            b@.len() == n,
            forall|j: int| 0 <= j < n ==> '\0' <= #[trigger] s@[j] < '\u{7f}',
            forall|j: int| 0 <= j < n ==> #[trigger] b@[j] == s@[j] as u8,
            out@.len() == i,
            forall|j: int|
                0 <= j < i ==> #[trigger] out@[j] == (snake_of(s@)[j] as u8) && out@[j] < 128,
        decreases n - i,
    {
        let c = b[i];
        let mapped: u8 = if c == 45 {
            95
        } else {
            c
        };
        out.push(mapped);
        proof {
            if s@[i as int] == '-' {
                assert(b@[i as int] == 45);
                assert(snake_of(s@)[i as int] == '_');
            } else {
                assert(b@[i as int] != 45);
                assert(snake_of(s@)[i as int] == s@[i as int]);
            }
        }
        i += 1;
    }
    let r = crate::ident::ascii_to_string(out.as_slice());
    proof {
        assert forall|j: int| 0 <= j < n implies #[trigger] r@[j] == snake_of(s@)[j] by {
            assert(r@[j] == out@[j] as char);
            assert(out@[j] == snake_of(s@)[j] as u8);
        }
        assert(r@ =~= snake_of(s@));
    }
    r
}

/// The display text of one system member: `data`, its identity, `::`,
/// its type.
pub open spec fn sys_entry_text() -> spec_fn((crate::typesys::TypeFqidV, TyV)) -> Seq<char> {
    |e: (crate::typesys::TypeFqidV, TyV)| "data "@ + fqid_text(e.0) + " :: "@ + ty_text(e.1)
        + seq!['\n']
}

/// The display text of a whole system: its identity in the expanded
/// form — the snake-case checksum mnemonic, an underscore, the base58
/// text — a blank line, then one line per member.
pub open spec fn sys_text(s: Seq<(crate::typesys::TypeFqidV, TyV)>) -> Seq<char> {
    "typesys -- "@ + snake_of(mnemonic_of(crate::typesys::sys_id_spec(s))) + seq!['_']
        + base58_of(crate::typesys::sys_id_spec(s)) + seq!['\n'] + seq!['\n'] + cat_chars(
        s,
        sys_entry_text(),
    )
}

impl crate::typesys::TypeSystem {
    /// The system's display text. Shows the system's identity, so the
    /// system must be complete.
    pub fn to_text(&self) -> (r: String)
        requires
            crate::typesys::sys_complete(self@),
        ensures
            r@ == sys_text(self@),
    {
        proof {
            reveal_strlit("typesys -- ");
            reveal_strlit("_");
            reveal_strlit("\n");
            reveal_strlit("data ");
            reveal_strlit(" :: ");
        }
        let id = self.id();
        let mut s = String::from_str("typesys -- ");
        let mn = id.mnemonic();
        let mns = mn.as_str();
        proof {
            assert forall|k: int| 0 <= k < mns@.len() implies '\0' <= #[trigger] mns@[k]
                < '\u{7f}' by {
                assert(mns@[k] == mn@[k]);
            }
        }
        let snake = to_snake(mns);
        s.append(snake.as_str());
        s.append("_");
        let idt = id.to_text();
        s.append(idt.as_str());
        s.append("\n");
        s.append("\n");
        let ghost f = sys_entry_text();
        let ghost head = "typesys -- "@ + snake_of(
            mnemonic_of(crate::typesys::sys_id_spec(self@)),
        ) + seq!['_'] + base58_of(crate::typesys::sys_id_spec(self@)) + seq!['\n'] + seq!['\n'];
        proof {
            assert(s@ =~= head + cat_chars(self@.take(0), f));
        }
        let list = self.as_inner();
        let n = list.len();
        let mut i: usize = 0;
        while i < n
            invariant
                0 <= i <= n,
                n == list@.len(),
                crate::typesys::sys_view(list@) == self@,
                f == sys_entry_text(),
                head == "typesys -- "@ + snake_of(
                    mnemonic_of(crate::typesys::sys_id_spec(self@)),
                ) + seq!['_'] + base58_of(crate::typesys::sys_id_spec(self@)) + seq!['\n']
                    + seq!['\n'],
                s@ == head + cat_chars(self@.take(i as int), f),
            decreases n - i,
        {
            s.append("data ");
            let ft = list[i].0.to_text();
            s.append(ft.as_str());
            s.append(" :: ");
            let tt = list[i].1.to_text();
            s.append(tt.as_str());
            s.append("\n");
            proof {
                reveal_strlit("data ");
                reveal_strlit(" :: ");
                reveal_strlit("\n");
                assert(self@[i as int] == (list@[i as int].0@, list@[i as int].1@));
                assert(f(self@[i as int]) == "data "@ + fqid_text(self@[i as int].0) + " :: "@
                    + ty_text(self@[i as int].1) + seq!['\n']);
                lemma_cat_chars_push(self@.take(i as int), f, self@[i as int]);
                assert(self@.take(i as int).push(self@[i as int]) =~= self@.take(i as int + 1));
                assert(s@ =~= head + cat_chars(self@.take(i as int + 1), f));
            }
            i += 1;
        }
        proof {
            assert(self@.take(n as int) =~= self@);
        }
        s
    }
}

} // verus!
