//! The canonical byte form of type nodes. Structurally equal nodes
//! produce byte-identical output, the mapping is injective over
//! well-formed nodes, and the decoder parses exactly the encoder's
//! output back. Integers lie little-endian; every member collection is
//! length-prefixed by one byte; enum and union variants appear in
//! ascending tag order.

use vstd::prelude::*;
use crate::fields::{Field, FieldV, NamedFields, UnnamedFields};
use crate::id::SemId;
use crate::ident::{ident_bytes, wf_ident, Ident};
use crate::prim::Sizing;
use crate::ty::{KeyTy, KeyTyV, Ty, TyV};
use crate::variants::{EnumVariants, UnionVariants, Variant, VariantV};

verus! {

/// Two little-endian bytes of a 16-bit number.
pub open spec fn le16(n: u16) -> Seq<u8> {
    seq![(n % 256) as u8, (n / 256) as u8]
}

/// Eight little-endian bytes of a 64-bit number.
pub open spec fn le64(n: u64) -> Seq<u8> {
    seq![
        (n % 256) as u8,
        ((n / 256) % 256) as u8,
        ((n / 0x10000) % 256) as u8,
        ((n / 0x1000000) % 256) as u8,
        ((n / 0x100000000) % 256) as u8,
        ((n / 0x10000000000) % 256) as u8,
        ((n / 0x1000000000000) % 256) as u8,
        ((n / 0x100000000000000) % 256) as u8,
    ]
}

/// An identifier: its one-byte length, then its ASCII bytes.
pub open spec fn enc_ident(name: Seq<char>) -> Seq<u8> {
    seq![name.len() as u8] + ident_bytes(name)
}

/// A sizing interval: its two bounds.
pub open spec fn enc_sizing(s: Sizing) -> Seq<u8> {
    le64(s.min) + le64(s.max)
}

/// A variant: its tag, then its name.
pub open spec fn enc_variant(v: VariantV) -> Seq<u8> {
    seq![v.tag] + enc_ident(v.name)
}

/// A union entry: its variant, then the referenced identity.
pub open spec fn enc_alt(a: (VariantV, Seq<u8>)) -> Seq<u8> {
    enc_variant(a.0) + a.1
}

/// A named field: its name, then the referenced identity.
pub open spec fn enc_field(f: FieldV) -> Seq<u8> {
    enc_ident(f.name) + f.ty
}

/// The members of a collection, one after the other.
pub open spec fn enc_concat<A>(s: Seq<A>, f: spec_fn(A) -> Seq<u8>) -> Seq<u8>
    decreases s.len(),
{
    if s.len() == 0 {
        Seq::empty()
    } else {
        f(s[0]) + enc_concat(s.drop_first(), f)
    }
}

/// Appending a member appends its bytes.
pub proof fn lemma_enc_concat_push<A>(s: Seq<A>, f: spec_fn(A) -> Seq<u8>, x: A)
    ensures
        enc_concat(s.push(x), f) == enc_concat(s, f) + f(x),
    decreases s.len(),
{
    if s.len() == 0 {
        assert(s.push(x)[0] == x);
        assert(s.push(x).drop_first() =~= Seq::<A>::empty());
        assert(enc_concat(Seq::<A>::empty(), f) == Seq::<u8>::empty());
        assert(enc_concat(s.push(x), f) == f(x) + enc_concat(s.push(x).drop_first(), f));
        assert(enc_concat(s.push(x), f) =~= f(x));
        assert(enc_concat(s, f) + f(x) =~= f(x));
    } else {
        assert(s.push(x)[0] == s[0]);
        assert(s.push(x).drop_first() =~= s.drop_first().push(x));
        lemma_enc_concat_push(s.drop_first(), f, x);
        assert(enc_concat(s.push(x), f) =~= enc_concat(s, f) + f(x));
    }
}

/// A confined collection: its one-byte member count, then its members.
pub open spec fn enc_counted<A>(s: Seq<A>, f: spec_fn(A) -> Seq<u8>) -> Seq<u8> {
    seq![s.len() as u8] + enc_concat(s, f)
}

/// The member encoder of enum variant collections.
pub open spec fn variant_enc() -> spec_fn(VariantV) -> Seq<u8> {
    |v: VariantV| enc_variant(v)
}

/// The member encoder of union entry collections.
pub open spec fn alt_enc() -> spec_fn((VariantV, Seq<u8>)) -> Seq<u8> {
    |a: (VariantV, Seq<u8>)| enc_alt(a)
}

/// The member encoder of named field collections.
pub open spec fn field_enc() -> spec_fn(FieldV) -> Seq<u8> {
    |f: FieldV| enc_field(f)
}

/// The member encoder of unnamed field collections.
pub open spec fn id_enc() -> spec_fn(Seq<u8>) -> Seq<u8> {
    |id: Seq<u8>| id
}

/// A key type: its class code, then its payload.
pub open spec fn enc_keyty(k: KeyTyV) -> Seq<u8> {
    match k {
        KeyTyV::Primitive(p) => seq![0u8, p.code],
        KeyTyV::Enum(vs) => seq![3u8] + enc_counted(vs, variant_enc()),
        KeyTyV::Array(len) => seq![7u8] + le16(len),
        KeyTyV::UnicodeStr(s) => seq![1u8] + enc_sizing(s),
        KeyTyV::AsciiStr(s) => seq![2u8] + enc_sizing(s),
        KeyTyV::Bytes(s) => seq![8u8] + enc_sizing(s),
    }
}

/// A type node: its class code, then its payload.
pub open spec fn enc_ty(t: TyV) -> Seq<u8> {
    match t {
        TyV::Primitive(p) => seq![0u8, p.code],
        TyV::UnicodeChar => seq![1u8],
        TyV::Enum(vs) => seq![3u8] + enc_counted(vs, variant_enc()),
        TyV::Union(alts) => seq![4u8] + enc_counted(alts, alt_enc()),
        TyV::Struct(fs) => seq![5u8] + enc_counted(fs, field_enc()),
        TyV::Tuple(ids) => seq![6u8] + enc_counted(ids, id_enc()),
        TyV::Array(id, len) => seq![7u8] + id + le16(len),
        TyV::List(id, s) => seq![8u8] + id + enc_sizing(s),
        TyV::SetOf(id, s) => seq![9u8] + id + enc_sizing(s),
        TyV::MapOf(k, id, s) => seq![10u8] + enc_keyty(k) + id + enc_sizing(s),
    }
}

/// Appends the two little-endian bytes of `n`.
pub(crate) fn write_u16(out: &mut Vec<u8>, n: u16)
    ensures
        final(out)@ == old(out)@ + le16(n),
{
    out.push((n % 256) as u8);
    out.push((n / 256) as u8);
    proof {
        assert(out@ =~= old(out)@ + le16(n));
    }
}

/// Appends the eight little-endian bytes of `n`.
pub(crate) fn write_u64(out: &mut Vec<u8>, n: u64)
    ensures
        final(out)@ == old(out)@ + le64(n),
{
    out.push((n % 256) as u8);
    out.push(((n / 256) % 256) as u8);
    out.push(((n / 0x10000) % 256) as u8);
    out.push(((n / 0x1000000) % 256) as u8);
    out.push(((n / 0x100000000) % 256) as u8);
    out.push(((n / 0x10000000000) % 256) as u8);
    out.push(((n / 0x1000000000000) % 256) as u8);
    out.push(((n / 0x100000000000000) % 256) as u8);
    proof {
        assert(out@ =~= old(out)@ + le64(n));
    }
}

/// Appends an identifier's length prefix and ASCII bytes.
pub(crate) fn write_ident(out: &mut Vec<u8>, name: &Ident)
    ensures
        final(out)@ == old(out)@ + enc_ident(name@),
{
    let ghost out0 = out@;
    name.wf_witness();
    let s = name.as_str();
    proof {
        crate::ident::lemma_ident_chars_ascii(s@);
        vstd::utf8::is_ascii_chars_encode_utf8(s@);
    }
    let b = s.as_bytes();
    let n = b.len();
    out.push(n as u8);
    let mut i: usize = 0;
    while i < n
        invariant
            0 <= i <= n,
            n == name@.len(),
            b@.len() == n,
            forall|j: int| 0 <= j < n ==> #[trigger] b@[j] == name@[j] as u8,
            out@ == out0 + seq![name@.len() as u8] + ident_bytes(name@).take(i as int),
        decreases n - i,
    {
        out.push(b[i]);
        proof {
            assert(ident_bytes(name@)[i as int] == name@[i as int] as u8);
            assert(out@ =~= out0 + seq![name@.len() as u8] + ident_bytes(name@).take(
                i as int + 1,
            ));
        }
        i += 1;
    }
    proof {
        assert(ident_bytes(name@).take(n as int) =~= ident_bytes(name@));
        assert(out@ =~= out0 + enc_ident(name@));
    }
}

/// Appends the 32 raw bytes of a content identity.
pub(crate) fn write_semid(out: &mut Vec<u8>, id: &SemId)
    ensures
        final(out)@ == old(out)@ + id@,
{
    let ghost out0 = out@;
    let mut i: usize = 0;
    while i < 32
        invariant
            0 <= i <= 32,
            out@ == out0 + id@.take(i as int),
        decreases 32 - i,
    {
        out.push(id.bytes[i]);
        proof {
            assert(out@ =~= out0 + id@.take(i as int + 1));
        }
        i += 1;
    }
    proof {
        assert(id@.take(32) =~= id@);
    }
}

/// Appends a sizing interval's two bounds.
pub(crate) fn write_sizing(out: &mut Vec<u8>, s: Sizing)
    ensures
        final(out)@ == old(out)@ + enc_sizing(s),
{
    let ghost out0 = out@;
    write_u64(out, s.min);
    write_u64(out, s.max);
    proof {
        assert(out@ =~= out0 + enc_sizing(s));
    }
}

/// Appends a variant's tag and name.
pub(crate) fn write_variant(out: &mut Vec<u8>, v: &Variant)
    ensures
        final(out)@ == old(out)@ + enc_variant(v@),
{
    let ghost out0 = out@;
    out.push(v.tag);
    write_ident(out, &v.name);
    proof {
        assert(out@ =~= out0 + enc_variant(v@));
    }
}

/// Appends an enum's variant collection: count, then members in tag
/// order.
pub(crate) fn write_variants_block(out: &mut Vec<u8>, vs: &EnumVariants)
    ensures
        final(out)@ == old(out)@ + enc_counted(vs@, variant_enc()),
{
    let ghost out0 = out@;
    vs.wf_witness();
    let list = vs.as_inner();
    let n = list.len();
    out.push(n as u8);
    proof {
        assert(enc_concat(vs@.take(0), variant_enc()) == Seq::<u8>::empty());
        assert(out@ =~= out0 + seq![vs@.len() as u8] + enc_concat(vs@.take(0), variant_enc()));
    }
    let mut i: usize = 0;
    while i < n
        invariant
            0 <= i <= n,
            n == vs@.len(),
            list@.len() == n,
            crate::variants::variants_view(list@) == vs@,
            out@ == out0 + seq![vs@.len() as u8] + enc_concat(vs@.take(i as int), variant_enc()),
        decreases n - i,
    {
        write_variant(out, &list[i]);
        proof {
            assert(list@[i as int]@ == crate::variants::variants_view(list@)[i as int]);
            lemma_enc_concat_push(vs@.take(i as int), variant_enc(), vs@[i as int]);
            assert(vs@.take(i as int).push(vs@[i as int]) =~= vs@.take(i as int + 1));
            assert(variant_enc()(vs@[i as int]) == enc_variant(vs@[i as int]));
            assert(out@ =~= out0 + seq![vs@.len() as u8] + enc_concat(
                vs@.take(i as int + 1),
                variant_enc(),
            ));
        }
        i += 1;
    }
    proof {
        assert(vs@.take(n as int) =~= vs@);
    }
}

/// Appends a union's entry collection: count, then members in tag order.
pub(crate) fn write_alts_block(out: &mut Vec<u8>, vs: &UnionVariants)
    ensures
        final(out)@ == old(out)@ + enc_counted(vs@, alt_enc()),
{
    let ghost out0 = out@;
    vs.wf_witness();
    let list = vs.as_inner();
    let n = list.len();
    out.push(n as u8);
    proof {
        assert(enc_concat(vs@.take(0), alt_enc()) == Seq::<u8>::empty());
        assert(out@ =~= out0 + seq![vs@.len() as u8] + enc_concat(vs@.take(0), alt_enc()));
    }
    let mut i: usize = 0;
    while i < n
        invariant
            0 <= i <= n,
            n == vs@.len(),
            list@.len() == n,
            crate::variants::alts_view(list@) == vs@,
            out@ == out0 + seq![vs@.len() as u8] + enc_concat(vs@.take(i as int), alt_enc()),
        decreases n - i,
    {
        let ghost outi = out@;
        write_variant(out, &list[i].0);
        write_semid(out, &list[i].1);
        proof {
            assert(crate::variants::alts_view(list@)[i as int] == (
                list@[i as int].0@,
                list@[i as int].1@,
            ));
            assert(vs@[i as int].0 == list@[i as int].0@);
            assert(vs@[i as int].1 == list@[i as int].1@);
            assert(out@ =~= outi + enc_alt(vs@[i as int]));
            lemma_enc_concat_push(vs@.take(i as int), alt_enc(), vs@[i as int]);
            assert(vs@.take(i as int).push(vs@[i as int]) =~= vs@.take(i as int + 1));
            assert(alt_enc()(vs@[i as int]) == enc_alt(vs@[i as int]));
            assert(out@ =~= out0 + seq![vs@.len() as u8] + enc_concat(
                vs@.take(i as int + 1),
                alt_enc(),
            ));
        }
        i += 1;
    }
    proof {
        assert(vs@.take(n as int) =~= vs@);
    }
}

/// Appends a struct's field collection: count, then fields in
/// declaration order.
pub(crate) fn write_fields_block(out: &mut Vec<u8>, fs: &NamedFields)
    ensures
        final(out)@ == old(out)@ + enc_counted(fs@, field_enc()),
{
    let ghost out0 = out@;
    fs.wf_witness();
    let list = fs.as_inner();
    let n = list.len();
    out.push(n as u8);
    proof {
        assert(enc_concat(fs@.take(0), field_enc()) == Seq::<u8>::empty());
        assert(out@ =~= out0 + seq![fs@.len() as u8] + enc_concat(fs@.take(0), field_enc()));
    }
    let mut i: usize = 0;
    while i < n
        invariant
            0 <= i <= n,
            n == fs@.len(),
            list@.len() == n,
            list@.map(|k: int, f: Field| f@) == fs@,
            out@ == out0 + seq![fs@.len() as u8] + enc_concat(fs@.take(i as int), field_enc()),
        decreases n - i,
    {
        let ghost outi = out@;
        write_ident(out, &list[i].name);
        write_semid(out, &list[i].ty);
        proof {
            assert(fs@[i as int] == list@[i as int]@);
            assert(out@ =~= outi + enc_field(fs@[i as int]));
            lemma_enc_concat_push(fs@.take(i as int), field_enc(), fs@[i as int]);
            assert(fs@.take(i as int).push(fs@[i as int]) =~= fs@.take(i as int + 1));
            assert(field_enc()(fs@[i as int]) == enc_field(fs@[i as int]));
            assert(out@ =~= out0 + seq![fs@.len() as u8] + enc_concat(
                fs@.take(i as int + 1),
                field_enc(),
            ));
        }
        i += 1;
    }
    proof {
        assert(fs@.take(n as int) =~= fs@);
    }
}

/// Appends a tuple's reference collection: count, then identities in
/// declaration order.
pub(crate) fn write_ids_block(out: &mut Vec<u8>, fs: &UnnamedFields)
    ensures
        final(out)@ == old(out)@ + enc_counted(fs@, id_enc()),
{
    let ghost out0 = out@;
    fs.wf_witness();
    let list = fs.as_inner();
    let n = list.len();
    out.push(n as u8);
    proof {
        assert(enc_concat(fs@.take(0), id_enc()) == Seq::<u8>::empty());
        assert(out@ =~= out0 + seq![fs@.len() as u8] + enc_concat(fs@.take(0), id_enc()));
    }
    let mut i: usize = 0;
    while i < n
        invariant
            0 <= i <= n,
            n == fs@.len(),
            list@.len() == n,
            list@.map(|k: int, id: SemId| id@) == fs@,
            out@ == out0 + seq![fs@.len() as u8] + enc_concat(fs@.take(i as int), id_enc()),
        decreases n - i,
    {
        write_semid(out, &list[i]);
        proof {
            assert(fs@[i as int] == list@[i as int]@);
            lemma_enc_concat_push(fs@.take(i as int), id_enc(), fs@[i as int]);
            assert(fs@.take(i as int).push(fs@[i as int]) =~= fs@.take(i as int + 1));
            assert(id_enc()(fs@[i as int]) == fs@[i as int]);
            assert(out@ =~= out0 + seq![fs@.len() as u8] + enc_concat(
                fs@.take(i as int + 1),
                id_enc(),
            ));
        }
        i += 1;
    }
    proof {
        assert(fs@.take(n as int) =~= fs@);
    }
}

/// Appends a key type's class code and payload.
pub(crate) fn write_keyty(out: &mut Vec<u8>, k: &KeyTy)
    ensures
        final(out)@ == old(out)@ + enc_keyty(k@),
{
    let ghost out0 = out@;
    match k {
        KeyTy::Primitive(p) => {
            out.push(0);
            out.push(p.code);
        },
        KeyTy::Enum(vs) => {
            out.push(3);
            write_variants_block(out, vs);
        },
        KeyTy::Array(len) => {
            out.push(7);
            write_u16(out, *len);
        },
        KeyTy::UnicodeStr(s) => {
            out.push(1);
            write_sizing(out, *s);
        },
        KeyTy::AsciiStr(s) => {
            out.push(2);
            write_sizing(out, *s);
        },
        KeyTy::Bytes(s) => {
            out.push(8);
            write_sizing(out, *s);
        },
    }
    proof {
        assert(out@ =~= out0 + enc_keyty(k@));
    }
}

/// Appends a type node's class code and payload.
pub(crate) fn write_ty(out: &mut Vec<u8>, t: &Ty)
    ensures
        final(out)@ == old(out)@ + enc_ty(t@),
{
    let ghost out0 = out@;
    match t {
        Ty::Primitive(p) => {
            out.push(0);
            out.push(p.code);
        },
        Ty::UnicodeChar => {
            out.push(1);
        },
        Ty::Enum(vs) => {
            out.push(3);
            write_variants_block(out, vs);
        },
        Ty::Union(vs) => {
            out.push(4);
            write_alts_block(out, vs);
        },
        Ty::Struct(fs) => {
            out.push(5);
            write_fields_block(out, fs);
        },
        Ty::Tuple(fs) => {
            out.push(6);
            write_ids_block(out, fs);
        },
        Ty::Array(id, len) => {
            out.push(7);
            write_semid(out, id);
            write_u16(out, *len);
        },
        Ty::List(id, s) => {
            out.push(8);
            write_semid(out, id);
            write_sizing(out, *s);
        },
        Ty::SetOf(id, s) => {
            out.push(9);
            write_semid(out, id);
            write_sizing(out, *s);
        },
        Ty::MapOf(k, id, s) => {
            out.push(10);
            write_keyty(out, k);
            write_semid(out, id);
            write_sizing(out, *s);
        },
    }
    proof {
        assert(out@ =~= out0 + enc_ty(t@));
    }
}

impl Ty {
    /// The node's canonical byte form.
    pub fn to_canonical_bytes(&self) -> (r: Vec<u8>)
        ensures
            r@ == enc_ty(self@),
    {
        let mut out: Vec<u8> = Vec::new();
        write_ty(&mut out, self);
        proof {
            assert(out@ =~= enc_ty(self@));
        }
        out
    }
}

/// The byte length of an enum's variant block, without writing it.
fn variants_block_len(vs: &EnumVariants) -> (r: usize)
    ensures
        r == enc_counted(vs@, variant_enc()).len(),
        r <= 26011,
{
    vs.wf_witness();
    let list = vs.as_inner();
    let n = list.len();
    let mut acc: usize = 1;
    proof {
        assert(enc_concat(vs@.take(0), variant_enc()) == Seq::<u8>::empty());
    }
    let mut i: usize = 0;
    while i < n
        invariant
            0 <= i <= n,
            n == vs@.len(),
            n <= 255,
            list@.len() == n,
            crate::variants::variants_view(list@) == vs@,
            forall|k: int| 0 <= k < n ==> wf_ident((#[trigger] vs@[k]).name),
            acc == 1 + enc_concat(vs@.take(i as int), variant_enc()).len(),
            acc <= 1 + i * 102,
        decreases n - i,
    {
        list[i].name.wf_witness();
        let name_len = list[i].name.len();
        proof {
            assert(list@[i as int]@ == vs@[i as int]);
            lemma_enc_concat_push(vs@.take(i as int), variant_enc(), vs@[i as int]);
            assert(vs@.take(i as int).push(vs@[i as int]) =~= vs@.take(i as int + 1));
            assert(variant_enc()(vs@[i as int]) == enc_variant(vs@[i as int]));
            assert(enc_variant(vs@[i as int]).len() == 2 + vs@[i as int].name.len());
        }
        acc = acc + 2 + name_len;
        i += 1;
    }
    proof {
        assert(vs@.take(n as int) =~= vs@);
    }
    acc
}

/// The byte length of a key type's canonical form, without writing it.
fn keyty_len(k: &KeyTy) -> (r: usize)
    ensures
        r == enc_keyty(k@).len(),
        r <= 26012,
{
    match k {
        KeyTy::Primitive(_) => 2,
        KeyTy::Enum(vs) => 1 + variants_block_len(vs),
        KeyTy::Array(_) => 3,
        KeyTy::UnicodeStr(_) => 17,
        KeyTy::AsciiStr(_) => 17,
        KeyTy::Bytes(_) => 17,
    }
}

impl Ty {
    /// The byte length of the node's canonical form, reported without
    /// allocating the output: the count-only mode for size-limit
    /// checks.
    #[verifier::rlimit(60)]
    #[verifier::spinoff_prover]
    pub fn serialized_len(&self) -> (r: usize)
        ensures
            r == enc_ty(self@).len(),
            r <= 65536,
    {
        match self {
            Ty::Primitive(_) => 2,
            Ty::UnicodeChar => 1,
            Ty::Enum(vs) => 1 + variants_block_len(vs),
            Ty::Union(vs) => {
                vs.wf_witness();
                let list = vs.as_inner();
                let n = list.len();
                let mut acc: usize = 2;
                proof {
                    assert(enc_concat(vs@.take(0), alt_enc()) == Seq::<u8>::empty());
                }
                let mut i: usize = 0;
                while i < n
                    invariant
                        0 <= i <= n,
                        n == vs@.len(),
                        n <= 255,
                        list@.len() == n,
                        crate::variants::alts_view(list@) == vs@,
                        forall|k: int| 0 <= k < n ==> wf_ident((#[trigger] vs@[k]).0.name),
                        acc == 2 + enc_concat(vs@.take(i as int), alt_enc()).len(),
                        acc <= 2 + i * 134,
                    decreases n - i,
                {
                    list[i].0.name.wf_witness();
                    let name_len = list[i].0.name.len();
                    proof {
                        assert(vs@[i as int] == (list@[i as int].0@, list@[i as int].1@));
                        lemma_enc_concat_push(vs@.take(i as int), alt_enc(), vs@[i as int]);
                        assert(vs@.take(i as int).push(vs@[i as int]) =~= vs@.take(i as int + 1));
                        assert(alt_enc()(vs@[i as int]) == enc_alt(vs@[i as int]));
                        assert(enc_alt(vs@[i as int]).len() == 34 + vs@[i as int].0.name.len());
                    }
                    acc = acc + 34 + name_len;
                    i += 1;
                }
                proof {
                    assert(vs@.take(n as int) =~= vs@);
                }
                acc
            },
            Ty::Struct(fs) => {
                fs.wf_witness();
                let list = fs.as_inner();
                let n = list.len();
                let mut acc: usize = 2;
                proof {
                    assert(enc_concat(fs@.take(0), field_enc()) == Seq::<u8>::empty());
                }
                let mut i: usize = 0;
                while i < n
                    invariant
                        0 <= i <= n,
                        n == fs@.len(),
                        n <= 255,
                        list@.len() == n,
                        list@.map(|k: int, f: Field| f@) == fs@,
                        forall|k: int| 0 <= k < n ==> wf_ident((#[trigger] fs@[k]).name),
                        forall|k: int| 0 <= k < n ==> (#[trigger] fs@[k]).ty.len() == 32,
                        acc == 2 + enc_concat(fs@.take(i as int), field_enc()).len(),
                        acc <= 2 + i * 133,
                    decreases n - i,
                {
                    list[i].name.wf_witness();
                    let name_len = list[i].name.len();
                    proof {
                        assert(fs@[i as int] == list@[i as int]@);
                        lemma_enc_concat_push(fs@.take(i as int), field_enc(), fs@[i as int]);
                        assert(fs@.take(i as int).push(fs@[i as int]) =~= fs@.take(i as int + 1));
                        assert(field_enc()(fs@[i as int]) == enc_field(fs@[i as int]));
                        assert(enc_field(fs@[i as int]).len() == 33 + fs@[i as int].name.len());
                    }
                    acc = acc + 33 + name_len;
                    i += 1;
                }
                proof {
                    assert(fs@.take(n as int) =~= fs@);
                }
                acc
            },
            Ty::Tuple(fs) => {
                fs.wf_witness();
                let n = fs.len();
                proof {
                    lemma_ids_concat_len(fs@, n as int);
                }
                2 + 32 * n
            },
            Ty::Array(_, _) => 35,
            Ty::List(_, _) => 49,
            Ty::SetOf(_, _) => 49,
            Ty::MapOf(k, _, _) => 1 + keyty_len(k) + 48,
        }
    }
}

/// A run of 32-byte references encodes to 32 bytes per member.
proof fn lemma_ids_concat_len(ids: Seq<Seq<u8>>, n: int)
    requires
        n == ids.len(),
        forall|i: int| 0 <= i < ids.len() ==> (#[trigger] ids[i]).len() == 32,
    ensures
        enc_concat(ids, id_enc()).len() == 32 * n,
    decreases n,
{
    if n > 0 {
        assert(ids[0].len() == 32);
        assert forall|i: int|
            0 <= i < ids.drop_first().len() implies (#[trigger] ids.drop_first()[i]).len()
            == 32 by {
            assert(ids.drop_first()[i] == ids[i + 1]);
        }
        lemma_ids_concat_len(ids.drop_first(), n - 1);
        assert(id_enc()(ids[0]) == ids[0]);
    }
}

} // verus!
