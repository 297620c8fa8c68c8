//! Enum and union variant collections: confined sets and maps of tagged,
//! named variants, kept in ascending tag order as their canonical form.

use vstd::prelude::*;
use crate::fields::{
    has_key, key_sorted, keys_distinct, lemma_key_insert, BoundsError, Confined, CONFINED_MAX,
    CONFINED_MIN,
};
use crate::id::SemId;
use crate::ident::{wf_ident, Ident, VariantName};

verus! {

/// A tagged, named variant of an enum or a union type.
#[derive(PartialEq, Eq, Debug)]
pub struct Variant {
    pub name: VariantName,
    pub tag: u8,
}

/// Mathematical shape of a [`Variant`].
pub ghost struct VariantV {
    /// The variant's name.
    pub name: Seq<char>,
    /// The variant's one-byte tag.
    pub tag: u8,
}

impl View for Variant {
    type V = VariantV;

    open spec fn view(&self) -> VariantV {
        VariantV { name: self.name@, tag: self.tag }
    }
}

impl Clone for Variant {
    fn clone(&self) -> (r: Variant)
        ensures
            r@ == self@,
    {
        Variant { name: self.name.clone(), tag: self.tag }
    }
}

impl Variant {
    /// Joins a tag with a name.
    pub fn named(tag: u8, name: VariantName) -> (r: Variant)
        ensures
            r@ == (VariantV { name: name@, tag }),
    {
        Variant { name, tag }
    }

    /// The `none` variant of an optional type, under tag 0.
    pub fn none() -> (r: Variant)
        ensures
            r@.tag == 0,
            r@.name == "none"@,
    {
        proof {
            reveal_strlit("none");
        }
        match Ident::try_from_str("none") {
            Ok(name) => Variant { name, tag: 0 },
            Err(_) => vstd::pervasive::unreached(),
        }
    }

    /// The `some` variant of an optional type, under tag 1.
    pub fn some() -> (r: Variant)
        ensures
            r@.tag == 1,
            r@.name == "some"@,
    {
        proof {
            reveal_strlit("some");
        }
        match Ident::try_from_str("some") {
            Ok(name) => Variant { name, tag: 1 },
            Err(_) => vstd::pervasive::unreached(),
        }
    }
}

/// The tag of a variant, as the sorting key of variant sequences.
pub open spec fn variant_key() -> spec_fn(VariantV) -> u8 {
    |v: VariantV| v.tag
}

/// The tag of a union entry, as the sorting key of union sequences.
pub open spec fn alt_key() -> spec_fn((VariantV, Seq<u8>)) -> u8 {
    |p: (VariantV, Seq<u8>)| p.0.tag
}

/// A rejected variant collection: either the cardinality is out of
/// bounds, or two variants share one tag.
#[derive(Clone, Copy, PartialEq, Eq, Structural, Debug)]
pub enum VariantsError {
    /// Cardinality outside `[1, 255]`.
    Bounds(BoundsError),
    /// The duplicated tag.
    DuplicateTag(u8),
}

/// View of a variant vector.
pub open spec fn variants_view(s: Seq<Variant>) -> Seq<VariantV> {
    s.map(|i: int, v: Variant| v@)
}

/// A confined ordered set of variants, 1 to 255 of them with pairwise
/// distinct tags, held in ascending tag order: the payload of an enum
/// type.
#[derive(PartialEq, Eq, Debug)]
pub struct EnumVariants {
    inner: Confined<Variant>,
}

impl View for EnumVariants {
    type V = Seq<VariantV>;

    closed spec fn view(&self) -> Seq<VariantV> {
        variants_view(self.inner@)
    }
}

impl EnumVariants {
    /// Confinement and canonical order: 1 to 255 variants, ascending by
    /// tag, every name well-formed.
    pub open spec fn wf(&self) -> bool {
        &&& 1 <= self@.len() <= 255
        &&& key_sorted(self@, variant_key())
        &&& forall|i: int| 0 <= i < self@.len() ==> wf_ident((#[trigger] self@[i]).name)
    }

    /// Every enum variant set in existence is confined and tag-sorted.
    #[verifier::type_invariant]
    closed spec fn type_inv(&self) -> bool {
        self.wf()
    }

    /// Recalls, in exec context, the canonical-form facts.
    pub fn wf_witness(&self)
        ensures
            self.wf(),
    {
        proof {
            use_type_invariant(self);
        }
    }

    /// Builds the canonical variant set: sorts the variants by tag. Fails
    /// on 0 or more than 255 variants, and on two variants sharing a tag.
    pub fn try_from_vec(vec: Vec<Variant>) -> (r: Result<EnumVariants, VariantsError>)
        ensures
            r is Ok <==> (1 <= vec@.len() <= 255 && keys_distinct(
                variants_view(vec@),
                variant_key(),
            )),
            r matches Ok(ev) ==> {
                &&& ev.wf()
                &&& ev@.to_multiset() == variants_view(vec@).to_multiset()
                &&& ev@.len() == vec@.len()
            },
            r matches Err(VariantsError::Bounds(e)) ==> !(1 <= vec@.len() <= 255) && e == (
            BoundsError { len: vec@.len() as usize, min: CONFINED_MIN, max: CONFINED_MAX }),
            r matches Err(VariantsError::DuplicateTag(t)) ==> (1 <= vec@.len() <= 255)
                && !keys_distinct(variants_view(vec@), variant_key()) && (exists|i: int, j: int|
                0 <= i < j < variants_view(vec@).len() && variant_key()(
                    #[trigger] variants_view(vec@)[i],
                ) == t && variant_key()(#[trigger] variants_view(vec@)[j]) == t),
    {
        let ghost vs = variants_view(vec@);
        let n = vec.len();
        if n < CONFINED_MIN || n > CONFINED_MAX {
            return Err(
                VariantsError::Bounds(
                    BoundsError { len: n, min: CONFINED_MIN, max: CONFINED_MAX },
                ),
            );
        }
        let mut out: Vec<Variant> = Vec::new();
        proof {
            assert(variants_view(out@) =~= vs.take(0));
        }
        let mut i: usize = 0;
        while i < n
            invariant
                0 <= i <= n,
                n == vec@.len(),
                1 <= n <= 255,
                vs == variants_view(vec@),
                variants_view(out@).len() == i,
                out@.len() == i,
                key_sorted(variants_view(out@), variant_key()),
                forall|k: int|
                    0 <= k < i ==> wf_ident((#[trigger] variants_view(out@)[k]).name),
                variants_view(out@).to_multiset() == vs.take(i as int).to_multiset(),
                forall|t: u8|
                    has_key(variants_view(out@), variant_key(), t) == has_key(
                        vs.take(i as int),
                        variant_key(),
                        t,
                    ),
                keys_distinct(vs.take(i as int), variant_key()),
            decreases n - i,
        {
            let v = vec[i].clone();
            v.name.wf_witness();
            let vtag = v.tag;
            let mut idx: usize = 0;
            while idx < out.len() && out[idx].tag < vtag
                invariant
                    0 <= idx <= out@.len(),
                    forall|k: int|
                        0 <= k < idx ==> (#[trigger] variants_view(out@)[k]).tag < vtag,
                decreases out@.len() - idx,
            {
                idx += 1;
            }
            if idx < out.len() && out[idx].tag == vtag {
                proof {
                    let vout = variants_view(out@);
                    assert(vout[idx as int].tag == vtag);
                    assert(variant_key()(vout[idx as int]) == vtag);
                    assert(has_key(vout, variant_key(), vtag));
                    assert(has_key(vs.take(i as int), variant_key(), vtag));
                    let a = choose|a: int|
                        0 <= a < vs.take(i as int).len() && variant_key()(
                            #[trigger] vs.take(i as int)[a],
                        ) == vtag;
                    assert(vs[a] == vs.take(i as int)[a]);
                    assert(variant_key()(vs[a]) == vtag);
                    assert(vs[i as int] == vec@[i as int]@);
                    assert(variant_key()(vs[i as int]) == vtag);
                    assert(!keys_distinct(vs, variant_key()));
                }
                return Err(VariantsError::DuplicateTag(vtag));
            }
            let ghost vout0 = variants_view(out@);
            proof {
                assert forall|k: int| idx <= k < vout0.len() implies vtag < variant_key()(
                    #[trigger] vout0[k],
                ) by {
                    if k > idx {
                        assert(variant_key()(vout0[idx as int]) < variant_key()(vout0[k]));
                    }
                }
                assert(!has_key(vout0, variant_key(), vtag)) by {
                    if has_key(vout0, variant_key(), vtag) {
                        let a = choose|a: int|
                            0 <= a < vout0.len() && variant_key()(#[trigger] vout0[a]) == vtag;
                        if a < idx {
                            assert(vout0[a].tag < vtag);
                        }
                    }
                }
                lemma_key_insert(vout0, idx as int, v@, variant_key());
                assert(vs.take(i as int).push(vs[i as int]) =~= vs.take(i as int + 1));
                assert(vs[i as int] == vec@[i as int]@);
                vstd::seq_lib::to_multiset_build(vs.take(i as int), vs[i as int]);
                assert forall|t: u8|
                    has_key(vs.take(i as int + 1), variant_key(), t) == (has_key(
                        vs.take(i as int),
                        variant_key(),
                        t,
                    ) || t == vtag) by {
                    if has_key(vs.take(i as int + 1), variant_key(), t) {
                        let a = choose|a: int|
                            0 <= a < vs.take(i as int + 1).len() && variant_key()(
                                #[trigger] vs.take(i as int + 1)[a],
                            ) == t;
                        if a < i {
                            assert(variant_key()(vs.take(i as int)[a]) == t);
                        } else {
                            assert(vs.take(i as int + 1)[a] == vs[i as int]);
                        }
                    }
                    if has_key(vs.take(i as int), variant_key(), t) {
                        let a = choose|a: int|
                            0 <= a < vs.take(i as int).len() && variant_key()(
                                #[trigger] vs.take(i as int)[a],
                            ) == t;
                        assert(variant_key()(vs.take(i as int + 1)[a]) == t);
                    }
                    if t == vtag {
                        assert(variant_key()(vs.take(i as int + 1)[i as int]) == t);
                    }
                }
                assert forall|a: int, b: int| 0 <= a < b < i + 1 implies variant_key()(
                    #[trigger] vs.take(i as int + 1)[a],
                ) != variant_key()(#[trigger] vs.take(i as int + 1)[b]) by {
                    if b < i {
                        assert(variant_key()(vs.take(i as int)[a]) != variant_key()(
                            vs.take(i as int)[b],
                        ));
                    } else {
                        assert(vs.take(i as int + 1)[b] == vs[i as int]);
                        assert(vs.take(i as int + 1)[a] == vs.take(i as int)[a]);
                        if variant_key()(vs.take(i as int)[a]) == vtag {
                            assert(has_key(vs.take(i as int), variant_key(), vtag));
                            assert(has_key(vout0, variant_key(), vtag));
                        }
                    }
                }
            }
            out.insert(idx, v);
            proof {
                vout0.insert_ensures(idx as int, v@);
                assert(variants_view(out@) =~= vout0.insert(idx as int, v@));
                assert forall|t: u8|
                    has_key(variants_view(out@), variant_key(), t) == has_key(
                        vs.take(i as int + 1),
                        variant_key(),
                        t,
                    ) by {
                    assert(has_key(vout0.insert(idx as int, v@), variant_key(), t) <==> (has_key(
                        vout0,
                        variant_key(),
                        t,
                    ) || t == variant_key()(v@)));
                }
                assert(variants_view(out@).to_multiset() == vs.take(i as int + 1).to_multiset());
                assert forall|k: int| 0 <= k < i + 1 implies wf_ident(
                    (#[trigger] variants_view(out@)[k]).name,
                ) by {
                    if k < idx {
                        assert(variants_view(out@)[k] == vout0[k]);
                    } else if k == idx {
                        assert(variants_view(out@)[k] == v@);
                    } else {
                        assert(variants_view(out@)[k] == vout0[k - 1]);
                    }
                }
            }
            i += 1;
        }
        proof {
            assert(vs.take(n as int) =~= vs);
        }
        match Confined::try_from_vec(out) {
            Ok(inner) => {
                let r = EnumVariants { inner };
                proof {
                    vstd::seq_lib::to_multiset_len(r@);
                    vstd::seq_lib::to_multiset_len(vs);
                }
                Ok(r)
            },
            Err(_) => vstd::pervasive::unreached(),
        }
    }

    /// Number of variants.
    pub fn len(&self) -> (r: usize)
        ensures
            r == self@.len(),
    {
        self.inner.len()
    }

    /// The variant at `pos` in ascending tag order, if any.
    pub fn get(&self, pos: usize) -> (r: Option<&Variant>)
        ensures
            match r {
                Some(v) => pos < self@.len() && v@ == self@[pos as int],
                None => pos >= self@.len(),
            },
    {
        self.inner.get(pos)
    }

    /// Borrows the variants, in ascending tag order.
    pub fn as_inner(&self) -> (r: &Vec<Variant>)
        ensures
            variants_view(r@) == self@,
    {
        self.inner.as_inner()
    }

    /// Gives the variants up, in ascending tag order.
    pub fn into_inner(self) -> (r: Vec<Variant>)
        ensures
            variants_view(r@) == self@,
    {
        self.inner.into_inner()
    }
}

impl Clone for EnumVariants {
    fn clone(&self) -> (r: EnumVariants)
        ensures
            r@ == self@,
    {
        proof {
            use_type_invariant(self);
        }
        let src = self.inner.as_inner();
        let n = src.len();
        let mut list: Vec<Variant> = Vec::new();
        let mut i: usize = 0;
        while i < n
            invariant
                0 <= i <= n,
                n == src@.len(),
                list@.len() == i,
                forall|j: int| 0 <= j < i ==> #[trigger] list@[j]@ == src@[j]@,
            decreases n - i,
        {
            list.push(src[i].clone());
            i += 1;
        }
        match Confined::try_from_vec(list) {
            Ok(inner) => {
                proof {
                    assert(variants_view(inner@) =~= variants_view(self.inner@));
                }
                EnumVariants { inner }
            },
            Err(_) => vstd::pervasive::unreached(),
        }
    }
}

/// View of a union entry vector.
pub open spec fn alts_view(s: Seq<(Variant, SemId)>) -> Seq<(VariantV, Seq<u8>)> {
    s.map(|i: int, p: (Variant, SemId)| (p.0@, p.1@))
}

/// A confined ordered map from variants to type references, 1 to 255
/// entries with pairwise distinct tags, held in ascending tag order: the
/// payload of a union type.
#[derive(PartialEq, Eq, Debug)]
pub struct UnionVariants {
    inner: Confined<(Variant, SemId)>,
}

impl View for UnionVariants {
    type V = Seq<(VariantV, Seq<u8>)>;

    closed spec fn view(&self) -> Seq<(VariantV, Seq<u8>)> {
        alts_view(self.inner@)
    }
}

impl UnionVariants {
    /// Confinement and canonical order: 1 to 255 entries, ascending by
    /// tag, every name well-formed.
    pub open spec fn wf(&self) -> bool {
        &&& 1 <= self@.len() <= 255
        &&& key_sorted(self@, alt_key())
        &&& forall|i: int| 0 <= i < self@.len() ==> wf_ident((#[trigger] self@[i]).0.name)
        &&& forall|i: int| 0 <= i < self@.len() ==> (#[trigger] self@[i]).1.len() == 32
    }

    /// Every union variant map in existence is confined and tag-sorted.
    #[verifier::type_invariant]
    closed spec fn type_inv(&self) -> bool {
        self.wf()
    }

    /// Recalls, in exec context, the canonical-form facts.
    pub fn wf_witness(&self)
        ensures
            self.wf(),
    {
        proof {
            use_type_invariant(self);
        }
    }

    /// Builds the canonical variant map: sorts the entries by tag. Fails
    /// on 0 or more than 255 entries, and on two entries sharing a tag.
    pub fn try_from_vec(vec: Vec<(Variant, SemId)>) -> (r: Result<UnionVariants, VariantsError>)
        ensures
            r is Ok <==> (1 <= vec@.len() <= 255 && keys_distinct(alts_view(vec@), alt_key())),
            r matches Ok(uv) ==> {
                &&& uv.wf()
                &&& uv@.to_multiset() == alts_view(vec@).to_multiset()
                &&& uv@.len() == vec@.len()
            },
            r matches Err(VariantsError::Bounds(e)) ==> !(1 <= vec@.len() <= 255) && e == (
            BoundsError { len: vec@.len() as usize, min: CONFINED_MIN, max: CONFINED_MAX }),
            r matches Err(VariantsError::DuplicateTag(t)) ==> (1 <= vec@.len() <= 255)
                && !keys_distinct(alts_view(vec@), alt_key()) && (exists|i: int, j: int|
                0 <= i < j < alts_view(vec@).len() && alt_key()(#[trigger] alts_view(vec@)[i])
                    == t && alt_key()(#[trigger] alts_view(vec@)[j]) == t),
    {
        let ghost vs = alts_view(vec@);
        let n = vec.len();
        if n < CONFINED_MIN || n > CONFINED_MAX {
            return Err(
                VariantsError::Bounds(
                    BoundsError { len: n, min: CONFINED_MIN, max: CONFINED_MAX },
                ),
            );
        }
        let mut out: Vec<(Variant, SemId)> = Vec::new();
        proof {
            assert(alts_view(out@) =~= vs.take(0));
        }
        let mut i: usize = 0;
        while i < n
            invariant
                0 <= i <= n,
                n == vec@.len(),
                1 <= n <= 255,
                vs == alts_view(vec@),
                alts_view(out@).len() == i,
                out@.len() == i,
                key_sorted(alts_view(out@), alt_key()),
                forall|k: int| 0 <= k < i ==> wf_ident((#[trigger] alts_view(out@)[k]).0.name),
                alts_view(out@).to_multiset() == vs.take(i as int).to_multiset(),
                forall|t: u8|
                    has_key(alts_view(out@), alt_key(), t) == has_key(
                        vs.take(i as int),
                        alt_key(),
                        t,
                    ),
                keys_distinct(vs.take(i as int), alt_key()),
            decreases n - i,
        {
            let v = (vec[i].0.clone(), vec[i].1);
            v.0.name.wf_witness();
            proof {
                assert(v@ == vec@[i as int]@);
            }
            let vtag = v.0.tag;
            let mut idx: usize = 0;
            while idx < out.len() && out[idx].0.tag < vtag
                invariant
                    0 <= idx <= out@.len(),
                    forall|k: int|
                        0 <= k < idx ==> (#[trigger] alts_view(out@)[k]).0.tag < vtag,
                decreases out@.len() - idx,
            {
                idx += 1;
            }
            if idx < out.len() && out[idx].0.tag == vtag {
                proof {
                    let vout = alts_view(out@);
                    assert(vout[idx as int].0.tag == vtag);
                    assert(alt_key()(vout[idx as int]) == vtag);
                    assert(has_key(vout, alt_key(), vtag));
                    assert(has_key(vs.take(i as int), alt_key(), vtag));
                    let a = choose|a: int|
                        0 <= a < vs.take(i as int).len() && alt_key()(
                            #[trigger] vs.take(i as int)[a],
                        ) == vtag;
                    assert(vs[a] == vs.take(i as int)[a]);
                    assert(alt_key()(vs[a]) == vtag);
                    assert(vs[i as int] == vec@[i as int]@);
                    assert(alt_key()(vs[i as int]) == vtag);
                    assert(!keys_distinct(vs, alt_key()));
                }
                return Err(VariantsError::DuplicateTag(vtag));
            }
            let ghost vout0 = alts_view(out@);
            proof {
                assert forall|k: int| idx <= k < vout0.len() implies vtag < alt_key()(
                    #[trigger] vout0[k],
                ) by {
                    if k > idx {
                        assert(alt_key()(vout0[idx as int]) < alt_key()(vout0[k]));
                    }
                }
                assert(!has_key(vout0, alt_key(), vtag)) by {
                    if has_key(vout0, alt_key(), vtag) {
                        let a = choose|a: int|
                            0 <= a < vout0.len() && alt_key()(#[trigger] vout0[a]) == vtag;
                        if a < idx {
                            assert(vout0[a].0.tag < vtag);
                        }
                    }
                }
                lemma_key_insert(vout0, idx as int, v@, alt_key());
                assert(vs.take(i as int).push(vs[i as int]) =~= vs.take(i as int + 1));
                assert(vs[i as int] == vec@[i as int]@);
                vstd::seq_lib::to_multiset_build(vs.take(i as int), vs[i as int]);
                assert forall|t: u8|
                    has_key(vs.take(i as int + 1), alt_key(), t) == (has_key(
                        vs.take(i as int),
                        alt_key(),
                        t,
                    ) || t == vtag) by {
                    if has_key(vs.take(i as int + 1), alt_key(), t) {
                        let a = choose|a: int|
                            0 <= a < vs.take(i as int + 1).len() && alt_key()(
                                #[trigger] vs.take(i as int + 1)[a],
                            ) == t;
                        if a < i {
                            assert(alt_key()(vs.take(i as int)[a]) == t);
                        } else {
                            assert(vs.take(i as int + 1)[a] == vs[i as int]);
                        }
                    }
                    if has_key(vs.take(i as int), alt_key(), t) {
                        let a = choose|a: int|
                            0 <= a < vs.take(i as int).len() && alt_key()(
                                #[trigger] vs.take(i as int)[a],
                            ) == t;
                        assert(alt_key()(vs.take(i as int + 1)[a]) == t);
                    }
                    if t == vtag {
                        assert(alt_key()(vs.take(i as int + 1)[i as int]) == t);
                    }
                }
                assert forall|a: int, b: int| 0 <= a < b < i + 1 implies alt_key()(
                    #[trigger] vs.take(i as int + 1)[a],
                ) != alt_key()(#[trigger] vs.take(i as int + 1)[b]) by {
                    if b < i {
                        assert(alt_key()(vs.take(i as int)[a]) != alt_key()(vs.take(i as int)[b]));
                    } else {
                        assert(vs.take(i as int + 1)[b] == vs[i as int]);
                        assert(vs.take(i as int + 1)[a] == vs.take(i as int)[a]);
                        if alt_key()(vs.take(i as int)[a]) == vtag {
                            assert(has_key(vs.take(i as int), alt_key(), vtag));
                            assert(has_key(vout0, alt_key(), vtag));
                        }
                    }
                }
            }
            out.insert(idx, v);
            proof {
                vout0.insert_ensures(idx as int, v@);
                assert(alts_view(out@) =~= vout0.insert(idx as int, v@));
                assert forall|t: u8|
                    has_key(alts_view(out@), alt_key(), t) == has_key(
                        vs.take(i as int + 1),
                        alt_key(),
                        t,
                    ) by {
                    assert(has_key(vout0.insert(idx as int, v@), alt_key(), t) <==> (has_key(
                        vout0,
                        alt_key(),
                        t,
                    ) || t == alt_key()(v@)));
                }
                assert(alts_view(out@).to_multiset() == vs.take(i as int + 1).to_multiset());
                assert forall|k: int| 0 <= k < i + 1 implies wf_ident(
                    (#[trigger] alts_view(out@)[k]).0.name,
                ) by {
                    if k < idx {
                        assert(alts_view(out@)[k] == vout0[k]);
                    } else if k == idx {
                        assert(alts_view(out@)[k] == v@);
                    } else {
                        assert(alts_view(out@)[k] == vout0[k - 1]);
                    }
                }
            }
            i += 1;
        }
        proof {
            assert(vs.take(n as int) =~= vs);
        }
        match Confined::try_from_vec(out) {
            Ok(inner) => {
                proof {
                    assert forall|k: int| 0 <= k < alts_view(inner@).len() implies (
                    #[trigger] alts_view(inner@)[k]).1.len() == 32 by {
                        assert(alts_view(inner@)[k] == (inner@[k].0@, inner@[k].1@));
                    }
                }
                let r = UnionVariants { inner };
                proof {
                    vstd::seq_lib::to_multiset_len(r@);
                    vstd::seq_lib::to_multiset_len(vs);
                }
                Ok(r)
            },
            Err(_) => vstd::pervasive::unreached(),
        }
    }

    /// Number of entries.
    pub fn len(&self) -> (r: usize)
        ensures
            r == self@.len(),
    {
        self.inner.len()
    }

    /// The entry at `pos` in ascending tag order, if any.
    pub fn get(&self, pos: usize) -> (r: Option<&(Variant, SemId)>)
        ensures
            match r {
                Some(p) => pos < self@.len() && p@ == self@[pos as int],
                None => pos >= self@.len(),
            },
    {
        self.inner.get(pos)
    }

    /// The type referenced by the entry at `pos` in ascending tag order.
    pub fn ty_at(&self, pos: u8) -> (r: Option<&SemId>)
        ensures
            match r {
                Some(id) => pos < self@.len() && id@ == self@[pos as int].1,
                None => pos >= self@.len(),
            },
    {
        match self.inner.get(pos as usize) {
            Some(p) => Some(&p.1),
            None => None,
        }
    }

    /// The type referenced under the variant named `name`, if any.
    pub fn ty_by_name(&self, name: &Ident) -> (r: Option<&SemId>)
        ensures
            match r {
                Some(id) => exists|i: int|
                    0 <= i < self@.len() && (#[trigger] self@[i]).0.name == name@ && id@
                        == self@[i].1,
                None => forall|i: int|
                    0 <= i < self@.len() ==> (#[trigger] self@[i]).0.name != name@,
            },
    {
        let list = self.inner.as_inner();
        let n = list.len();
        let mut i: usize = 0;
        while i < n
            invariant
                0 <= i <= n,
                n == list@.len(),
                list@ == self.inner@,
                forall|k: int| 0 <= k < i ==> (#[trigger] alts_view(list@)[k]).0.name != name@,
            decreases n - i,
        {
            if list[i].0.name.eq_name(name) {
                proof {
                    assert(self@[i as int] == (list@[i as int].0@, list@[i as int].1@));
                    assert(self@[i as int].0.name == name@);
                    assert(self@[i as int].1 == list@[i as int].1@);
                }
                return Some(&list[i].1);
            }
            i += 1;
        }
        None
    }

    /// Borrows the entries, in ascending tag order.
    pub fn as_inner(&self) -> (r: &Vec<(Variant, SemId)>)
        ensures
            alts_view(r@) == self@,
    {
        self.inner.as_inner()
    }

    /// Gives the entries up, in ascending tag order.
    pub fn into_inner(self) -> (r: Vec<(Variant, SemId)>)
        ensures
            alts_view(r@) == self@,
    {
        self.inner.into_inner()
    }

    /// Gives the variants up, in ascending tag order.
    pub fn into_keys(self) -> (r: Vec<Variant>)
        ensures
            r@.map(|i: int, v: Variant| v@) =~= Seq::new(self@.len(), |i: int| self@[i].0),
    {
        let list = self.inner.into_inner();
        let n = list.len();
        let mut out: Vec<Variant> = Vec::new();
        let mut i: usize = 0;
        while i < n
            invariant
                0 <= i <= n,
                n == list@.len(),
                out@.len() == i,
                forall|k: int| 0 <= k < i ==> #[trigger] out@[k]@ == list@[k].0@,
            decreases n - i,
        {
            out.push(list[i].0.clone());
            i += 1;
        }
        out
    }

    /// Gives the referenced type identities up, in ascending tag order.
    pub fn into_values(self) -> (r: Vec<SemId>)
        ensures
            r@.map(|i: int, v: SemId| v@) =~= Seq::new(self@.len(), |i: int| self@[i].1),
    {
        let list = self.inner.into_inner();
        let n = list.len();
        let mut out: Vec<SemId> = Vec::new();
        let mut i: usize = 0;
        while i < n
            invariant
                0 <= i <= n,
                n == list@.len(),
                out@.len() == i,
                forall|k: int| 0 <= k < i ==> #[trigger] out@[k]@ == list@[k].1@,
            decreases n - i,
        {
            out.push(list[i].1);
            i += 1;
        }
        out
    }
}

impl Clone for UnionVariants {
    fn clone(&self) -> (r: UnionVariants)
        ensures
            r@ == self@,
    {
        proof {
            use_type_invariant(self);
        }
        let src = self.inner.as_inner();
        let n = src.len();
        let mut list: Vec<(Variant, SemId)> = Vec::new();
        let mut i: usize = 0;
        while i < n
            invariant
                0 <= i <= n,
                n == src@.len(),
                list@.len() == i,
                forall|j: int|
                    0 <= j < i ==> (#[trigger] list@[j]).0@ == src@[j].0@ && list@[j].1@
                        == src@[j].1@,
            decreases n - i,
        {
            list.push((src[i].0.clone(), src[i].1));
            i += 1;
        }
        match Confined::try_from_vec(list) {
            Ok(inner) => {
                proof {
                    assert(alts_view(inner@) =~= alts_view(self.inner@));
                }
                UnionVariants { inner }
            },
            Err(_) => vstd::pervasive::unreached(),
        }
    }
}

impl EnumVariants {
    /// Wraps variants already in canonical ascending tag order.
    pub(crate) fn from_sorted(vec: Vec<Variant>) -> (r: EnumVariants)
        requires
            1 <= vec@.len() <= 255,
            key_sorted(variants_view(vec@), variant_key()),
        ensures
            r@ == variants_view(vec@),
    {
        let n = vec.len();
        let mut i: usize = 0;
        while i < n
            invariant
                0 <= i <= n,
                n == vec@.len(),
                forall|j: int| 0 <= j < i ==> wf_ident((#[trigger] vec@[j])@.name),
            decreases n - i,
        {
            vec[i].name.wf_witness();
            i += 1;
        }
        let ghost v0 = vec@;
        match Confined::try_from_vec(vec) {
            Ok(inner) => {
                let r = EnumVariants { inner };
                proof {
                    assert forall|j: int| 0 <= j < r@.len() implies wf_ident(
                        (#[trigger] r@[j]).name,
                    ) by {
                        assert(r@[j] == inner@[j]@);
                        assert(inner@[j] == v0[j]);
                    }
                }
                r
            },
            Err(_) => vstd::pervasive::unreached(),
        }
    }
}

impl UnionVariants {
    /// Wraps entries already in canonical ascending tag order.
    pub(crate) fn from_sorted(vec: Vec<(Variant, SemId)>) -> (r: UnionVariants)
        requires
            1 <= vec@.len() <= 255,
            key_sorted(alts_view(vec@), alt_key()),
        ensures
            r@ == alts_view(vec@),
    {
        let n = vec.len();
        let mut i: usize = 0;
        while i < n
            invariant
                0 <= i <= n,
                n == vec@.len(),
                forall|j: int| 0 <= j < i ==> wf_ident((#[trigger] vec@[j]).0@.name),
            decreases n - i,
        {
            vec[i].0.name.wf_witness();
            i += 1;
        }
        let ghost v0 = vec@;
        match Confined::try_from_vec(vec) {
            Ok(inner) => {
                let r = UnionVariants { inner };
                proof {
                    assert forall|j: int| 0 <= j < r@.len() implies wf_ident(
                        (#[trigger] r@[j]).0.name,
                    ) && r@[j].1.len() == 32 by {
                        assert(r@[j] == (inner@[j].0@, inner@[j].1@));
                        assert(inner@[j] == v0[j]);
                    }
                }
                r
            },
            Err(_) => vstd::pervasive::unreached(),
        }
    }
}

} // verus!
