//! Confined field and variant collections. Every collection here refuses
//! to exist with 0 or more than 255 members: the bound is load-bearing for
//! the one-byte length prefix of the canonical byte form.

use vstd::prelude::*;
use crate::id::SemId;
use crate::ident::{wf_ident, FieldName, Ident, VariantName};

verus! {

/// Smallest member count a confined collection accepts.
pub const CONFINED_MIN: usize = 1;
/// Largest member count a confined collection accepts.
pub const CONFINED_MAX: usize = 255;

/// Cardinality outside a confined collection's `[min, max]` bounds. Raised
/// at construction; the offending input is rejected whole.
#[derive(Clone, Copy, PartialEq, Eq, Structural, Debug)]
pub struct BoundsError {
    /// The cardinality that was offered.
    pub len: usize,
    /// Smallest accepted cardinality.
    pub min: usize,
    /// Largest accepted cardinality.
    pub max: usize,
}

/// A collection confined to hold between 1 and 255 members. The single
/// bounds check every field and variant collection goes through.
#[derive(PartialEq, Eq, Debug)]
pub struct Confined<T> {
    list: Vec<T>,
}

impl<T> View for Confined<T> {
    type V = Seq<T>;

    closed spec fn view(&self) -> Seq<T> {
        self.list@
    }
}

impl<T> Confined<T> {
    /// Every confined collection in existence respects its bounds.
    #[verifier::type_invariant]
    closed spec fn type_inv(&self) -> bool {
        1 <= self.list@.len() <= 255
    }

    /// Recalls, in exec context, that the bounds hold.
    pub fn bounds_witness(&self)
        ensures
            1 <= self@.len() <= 255,
    {
        proof {
            use_type_invariant(self);
        }
    }

    /// Wraps `vec` if its length lies within `[1, 255]`; fails otherwise,
    /// reporting the offered length and the bounds.
    pub fn try_from_vec(vec: Vec<T>) -> (r: Result<Confined<T>, BoundsError>)
        ensures
            r is Ok <==> 1 <= vec@.len() <= 255,
            r matches Ok(c) ==> c@ == vec@,
            r matches Err(e) ==> e == (BoundsError {
                len: vec@.len() as usize,
                min: CONFINED_MIN,
                max: CONFINED_MAX,
            }),
    {
        let n = vec.len();
        if n < CONFINED_MIN || n > CONFINED_MAX {
            Err(BoundsError { len: n, min: CONFINED_MIN, max: CONFINED_MAX })
        } else {
            Ok(Confined { list: vec })
        }
    }

    /// Number of members.
    pub fn len(&self) -> (r: usize)
        ensures
            r == self@.len(),
    {
        self.list.len()
    }

    /// The member at `pos`, if any.
    pub fn get(&self, pos: usize) -> (r: Option<&T>)
        ensures
            match r {
                Some(t) => pos < self@.len() && *t == self@[pos as int],
                None => pos >= self@.len(),
            },
    {
        if pos < self.list.len() {
            Some(&self.list[pos])
        } else {
            None
        }
    }

    /// Gives the members up, in order.
    pub fn into_inner(self) -> (r: Vec<T>)
        ensures
            r@ == self@,
    {
        self.list
    }

    /// Borrows the members, in order.
    pub fn as_inner(&self) -> (r: &Vec<T>)
        ensures
            r@ == self@,
    {
        &self.list
    }
}

/// The members of `s` are strictly ordered by their one-byte key.
pub open spec fn key_sorted<A>(s: Seq<A>, key: spec_fn(A) -> u8) -> bool {
    forall|i: int, j: int| 0 <= i < j < s.len() ==> #[trigger] key(s[i]) < #[trigger] key(s[j])
}

/// Some member of `s` carries the key `t`.
pub open spec fn has_key<A>(s: Seq<A>, key: spec_fn(A) -> u8, t: u8) -> bool {
    exists|i: int| 0 <= i < s.len() && #[trigger] key(s[i]) == t
}

/// No two members of `s` share a key.
pub open spec fn keys_distinct<A>(s: Seq<A>, key: spec_fn(A) -> u8) -> bool {
    forall|i: int, j: int| 0 <= i < j < s.len() ==> #[trigger] key(s[i]) != #[trigger] key(s[j])
}

/// Inserting a member whose key splits the members before and after the
/// insertion point keeps the sequence key-sorted, adds exactly that member
/// to the element multiset, and adds exactly its key to the key set.
pub proof fn lemma_key_insert<A>(s: Seq<A>, idx: int, a: A, key: spec_fn(A) -> u8)
    requires
        0 <= idx <= s.len(),
        key_sorted(s, key),
        forall|k: int| 0 <= k < idx ==> #[trigger] key(s[k]) < key(a),
        forall|k: int| idx <= k < s.len() ==> key(a) < #[trigger] key(s[k]),
    ensures
        key_sorted(s.insert(idx, a), key),
        s.insert(idx, a).len() == s.len() + 1,
        s.insert(idx, a).to_multiset() == s.to_multiset().insert(a),
        forall|t: u8| has_key(s.insert(idx, a), key, t) <==> (has_key(s, key, t) || t == key(a)),
{
    s.insert_ensures(idx, a);
    vstd::seq_lib::to_multiset_insert(s, idx, a);
    let s2 = s.insert(idx, a);
    assert forall|i: int, j: int| 0 <= i < j < s2.len() implies #[trigger] key(s2[i]) < #[trigger] key(
        s2[j],
    ) by {
        if i < idx && j < idx {
            assert(key(s[i]) < key(s[j]));
        } else if i < idx && j == idx {
        } else if i < idx && j > idx {
            assert(key(s2[j]) == key(s[j - 1]));
            if idx <= j - 1 {
            } else {
                assert(key(s[i]) < key(s[j - 1]));
            }
        } else if i == idx {
            assert(key(s2[j]) == key(s[j - 1]));
        } else {
            assert(key(s2[i]) == key(s[i - 1]));
            assert(key(s2[j]) == key(s[j - 1]));
        }
    }
    assert forall|t: u8| has_key(s2, key, t) <==> (has_key(s, key, t) || t == key(a)) by {
        if has_key(s2, key, t) {
            let i = choose|i: int| 0 <= i < s2.len() && #[trigger] key(s2[i]) == t;
            if i < idx {
                assert(key(s[i]) == t);
            } else if i == idx {
            } else {
                assert(key(s[i - 1]) == t);
            }
        }
        if has_key(s, key, t) {
            let i = choose|i: int| 0 <= i < s.len() && #[trigger] key(s[i]) == t;
            if i < idx {
                assert(key(s2[i]) == t);
            } else {
                assert(key(s2[i + 1]) == t);
            }
        }
        if t == key(a) {
            assert(key(s2[idx]) == t);
        }
    }
}

/// A named field of a struct type: a field name joined with the identity
/// of the field's type.
#[derive(PartialEq, Eq, Debug)]
pub struct Field {
    pub name: FieldName,
    pub ty: SemId,
}

impl Clone for Field {
    fn clone(&self) -> (r: Field)
        ensures
            r@ == self@,
    {
        Field { name: self.name.clone(), ty: self.ty }
    }
}

/// Mathematical shape of a [`Field`].
pub ghost struct FieldV {
    /// The field's name.
    pub name: Seq<char>,
    /// The identity bytes of the field's type.
    pub ty: Seq<u8>,
}

impl View for Field {
    type V = FieldV;

    open spec fn view(&self) -> FieldV {
        FieldV { name: self.name@, ty: self.ty@ }
    }
}

impl Field {
    /// Joins a name with a type identity.
    pub fn with(name: FieldName, ty: SemId) -> (r: Field)
        ensures
            r@.name == name@ && r@.ty == ty@,
    {
        Field { name, ty }
    }
}

/// An ordered sequence of named fields, 1 to 255 of them: the payload of a
/// struct type. Declaration order is the canonical order. Name uniqueness
/// is the assembler's responsibility, not this container's.
#[derive(PartialEq, Eq, Debug)]
pub struct NamedFields {
    inner: Confined<Field>,
}

impl Clone for NamedFields {
    fn clone(&self) -> (r: NamedFields)
        ensures
            r@ == self@,
    {
        proof {
            use_type_invariant(self);
        }
        let src = self.inner.as_inner();
        self.inner.bounds_witness();
        let n = src.len();
        let mut list: Vec<Field> = Vec::new();
        let mut i: usize = 0;
        while i < n
            invariant
                0 <= i <= n,
                n == src@.len(),
                list@.len() == i,
                forall|j: int| 0 <= j < i ==> #[trigger] list@[j]@ == src@[j]@,
            decreases n - i,
        {
            list.push(src[i].clone());
            i += 1;
        }
        match Confined::try_from_vec(list) {
            Ok(inner) => {
                proof {
                    assert(inner@.map(|i: int, f: Field| f@) =~= self.inner@.map(
                        |i: int, f: Field| f@,
                    ));
                }
                NamedFields { inner }
            },
            Err(_) => vstd::pervasive::unreached(),
        }
    }
}

impl View for NamedFields {
    type V = Seq<FieldV>;

    closed spec fn view(&self) -> Seq<FieldV> {
        self.inner@.map(|i: int, f: Field| f@)
    }
}

impl NamedFields {
    /// Confinement and validity: between 1 and 255 fields, each name
    /// well-formed, each reference 32 bytes.
    pub open spec fn wf(&self) -> bool {
        &&& 1 <= self@.len() <= 255
        &&& forall|i: int| 0 <= i < self@.len() ==> wf_ident((#[trigger] self@[i]).name)
        &&& forall|i: int| 0 <= i < self@.len() ==> (#[trigger] self@[i]).ty.len() == 32
    }

    /// Every field sequence in existence is confined and valid.
    #[verifier::type_invariant]
    closed spec fn type_inv(&self) -> bool {
        self.wf()
    }

    /// Recalls, in exec context, the validity facts.
    pub fn wf_witness(&self)
        ensures
            self.wf(),
    {
        proof {
            use_type_invariant(self);
        }
    }

    /// Wraps the fields in declaration order; fails on 0 or more than 255
    /// of them.
    pub fn try_from_vec(vec: Vec<Field>) -> (r: Result<NamedFields, BoundsError>)
        ensures
            r is Ok <==> 1 <= vec@.len() <= 255,
            r matches Ok(nf) ==> nf@ == vec@.map(|i: int, f: Field| f@) && nf.wf(),
            r matches Err(e) ==> e == (BoundsError {
                len: vec@.len() as usize,
                min: CONFINED_MIN,
                max: CONFINED_MAX,
            }),
    {
        let n = vec.len();
        let ghost v0 = vec@;
        let mut i: usize = 0;
        while i < n
            invariant
                0 <= i <= n,
                n == vec@.len(),
                v0 == vec@,
                forall|j: int| 0 <= j < i ==> wf_ident((#[trigger] vec@[j])@.name),
            decreases n - i,
        {
            vec[i].name.wf_witness();
            i += 1;
        }
        match Confined::try_from_vec(vec) {
            Ok(inner) => {
                let r = NamedFields { inner };
                proof {
                    assert forall|j: int|
                        0 <= j < r@.len() implies wf_ident((#[trigger] r@[j]).name) && r@[j].ty.len()
                        == 32 by {
                        assert(r@[j] == inner@[j]@);
                        assert(inner@[j] == v0[j]);
                    }
                }
                Ok(r)
            },
            Err(e) => Err(e),
        }
    }

    /// Number of fields.
    pub fn len(&self) -> (r: usize)
        ensures
            r == self@.len(),
    {
        self.inner.len()
    }

    /// The type identity of the field at `pos`, if any.
    pub fn ty_at(&self, pos: u8) -> (r: Option<&SemId>)
        ensures
            match r {
                Some(id) => pos < self@.len() && id@ == self@[pos as int].ty,
                None => pos >= self@.len(),
            },
    {
        match self.inner.get(pos as usize) {
            Some(f) => Some(&f.ty),
            None => None,
        }
    }

    /// Gives the fields up, in order.
    pub fn into_inner(self) -> (r: Vec<Field>)
        ensures
            r@.map(|i: int, f: Field| f@) == self@,
    {
        self.inner.into_inner()
    }

    /// Borrows the fields, in order.
    pub fn as_inner(&self) -> (r: &Vec<Field>)
        ensures
            r@.map(|i: int, f: Field| f@) == self@,
    {
        self.inner.as_inner()
    }
}

/// An ordered sequence of bare type references, 1 to 255 of them: the
/// payload of a tuple type. Position is the only identity.
#[derive(PartialEq, Eq, Debug)]
pub struct UnnamedFields {
    inner: Confined<SemId>,
}

impl Clone for UnnamedFields {
    fn clone(&self) -> (r: UnnamedFields)
        ensures
            r@ == self@,
    {
        proof {
            use_type_invariant(self);
        }
        let src = self.inner.as_inner();
        self.inner.bounds_witness();
        let n = src.len();
        let mut list: Vec<SemId> = Vec::new();
        let mut i: usize = 0;
        while i < n
            invariant
                0 <= i <= n,
                n == src@.len(),
                list@.len() == i,
                forall|j: int| 0 <= j < i ==> #[trigger] list@[j]@ == src@[j]@,
            decreases n - i,
        {
            list.push(src[i]);
            i += 1;
        }
        match Confined::try_from_vec(list) {
            Ok(inner) => {
                proof {
                    assert(inner@.map(|i: int, id: SemId| id@) =~= self.inner@.map(
                        |i: int, id: SemId| id@,
                    ));
                }
                UnnamedFields { inner }
            },
            Err(_) => vstd::pervasive::unreached(),
        }
    }
}

impl View for UnnamedFields {
    type V = Seq<Seq<u8>>;

    closed spec fn view(&self) -> Seq<Seq<u8>> {
        self.inner@.map(|i: int, id: SemId| id@)
    }
}

impl UnnamedFields {
    /// Confinement and validity: between 1 and 255 references, each 32
    /// bytes.
    pub open spec fn wf(&self) -> bool {
        &&& 1 <= self@.len() <= 255
        &&& forall|i: int| 0 <= i < self@.len() ==> (#[trigger] self@[i]).len() == 32
    }

    /// Every reference sequence in existence is confined and valid.
    #[verifier::type_invariant]
    closed spec fn type_inv(&self) -> bool {
        self.wf()
    }

    /// Recalls, in exec context, the validity facts.
    pub fn wf_witness(&self)
        ensures
            self.wf(),
    {
        proof {
            use_type_invariant(self);
        }
    }

    /// Wraps the references in declaration order; fails on 0 or more than
    /// 255 of them.
    pub fn try_from_vec(vec: Vec<SemId>) -> (r: Result<UnnamedFields, BoundsError>)
        ensures
            r is Ok <==> 1 <= vec@.len() <= 255,
            r matches Ok(uf) ==> uf@ == vec@.map(|i: int, id: SemId| id@) && uf.wf(),
            r matches Err(e) ==> e == (BoundsError {
                len: vec@.len() as usize,
                min: CONFINED_MIN,
                max: CONFINED_MAX,
            }),
    {
        match Confined::try_from_vec(vec) {
            Ok(inner) => {
                let r = UnnamedFields { inner };
                proof {
                    assert forall|j: int| 0 <= j < r@.len() implies (#[trigger] r@[j]).len()
                        == 32 by {
                        assert(r@[j] == inner@[j]@);
                    }
                }
                Ok(r)
            },
            Err(e) => Err(e),
        }
    }

    /// Number of fields.
    pub fn len(&self) -> (r: usize)
        ensures
            r == self@.len(),
    {
        self.inner.len()
    }

    /// The type identity at `pos`, if any.
    pub fn ty_at(&self, pos: u8) -> (r: Option<&SemId>)
        ensures
            match r {
                Some(id) => pos < self@.len() && id@ == self@[pos as int],
                None => pos >= self@.len(),
            },
    {
        self.inner.get(pos as usize)
    }

    /// Gives the references up, in order.
    pub fn into_inner(self) -> (r: Vec<SemId>)
        ensures
            r@.map(|i: int, id: SemId| id@) == self@,
    {
        self.inner.into_inner()
    }

    /// Borrows the references, in order.
    pub fn as_inner(&self) -> (r: &Vec<SemId>)
        ensures
            r@.map(|i: int, id: SemId| id@) == self@,
    {
        self.inner.as_inner()
    }
}

} // verus!
