//! Type libraries and type systems: named collections of types keyed by
//! content identity, bounded in size, complete by construction checks.
//! A system is complete when every identity its members reference is
//! itself a member: the load-bearing correctness property of the model.

use vstd::prelude::*;
use crate::encode::{enc_concat, lemma_enc_concat_push};
use crate::fields::BoundsError;
use crate::id::{blake3_keyed, blake3_keyed_of, lib_id_tag, lib_id_tag_spec, SemId, TypeLibId};
use crate::ident::{ident_bytes, LibName, TypeName};
use crate::order::{lex_cmp, lex_lt, lemma_lex_trichotomy, lemma_strictly_sorted_unique};
use crate::sem::sem_id_of;
use crate::ty::{Ty, TyV};

verus! {

/// Largest number of members a library or system may hold.
pub const SYS_MAX_TYPES: usize = 0xFFFFFF;

/// A fully-qualified type name: the library's name joined with the
/// type's name in it.
#[derive(PartialEq, Eq, Debug)]
pub struct TypeFqn {
    pub lib: LibName,
    pub name: TypeName,
}

/// Mathematical shape of a [`TypeFqn`].
pub ghost struct TypeFqnV {
    pub lib: Seq<char>,
    pub name: Seq<char>,
}

impl View for TypeFqn {
    type V = TypeFqnV;

    open spec fn view(&self) -> TypeFqnV {
        TypeFqnV { lib: self.lib@, name: self.name@ }
    }
}

impl Clone for TypeFqn {
    fn clone(&self) -> (r: TypeFqn)
        ensures
            r@ == self@,
    {
        TypeFqn { lib: self.lib.clone(), name: self.name.clone() }
    }
}

impl TypeFqn {
    /// Joins a library name with a type name.
    pub fn with(lib: LibName, name: TypeName) -> (r: TypeFqn)
        ensures
            r@ == (TypeFqnV { lib: lib@, name: name@ }),
    {
        TypeFqn { lib, name }
    }
}

/// A fully-qualified identity: a content identity, optionally labelled
/// with the human-readable place it was declared.
#[derive(PartialEq, Eq, Debug)]
pub struct TypeFqid {
    pub id: SemId,
    pub fqn: Option<TypeFqn>,
}

/// Mathematical shape of a [`TypeFqid`].
pub ghost struct TypeFqidV {
    pub id: Seq<u8>,
    pub fqn: Option<TypeFqnV>,
}

impl View for TypeFqid {
    type V = TypeFqidV;

    open spec fn view(&self) -> TypeFqidV {
        match self.fqn {
            Some(ref f) => TypeFqidV { id: self.id@, fqn: Some(f@) },
            None => TypeFqidV { id: self.id@, fqn: None },
        }
    }
}

impl Clone for TypeFqid {
    fn clone(&self) -> (r: TypeFqid)
        ensures
            r@ == self@,
    {
        match &self.fqn {
            Some(f) => TypeFqid { id: self.id, fqn: Some(f.clone()) },
            None => TypeFqid { id: self.id, fqn: None },
        }
    }
}

impl TypeFqid {
    /// An identity without a label.
    pub fn unnamed(id: SemId) -> (r: TypeFqid)
        ensures
            r@ == (TypeFqidV { id: id@, fqn: None }),
    {
        TypeFqid { id, fqn: None }
    }

    /// An identity labelled with its library and type name.
    pub fn named(id: SemId, lib: LibName, name: TypeName) -> (r: TypeFqid)
        ensures
            r@ == (TypeFqidV { id: id@, fqn: Some(TypeFqnV { lib: lib@, name: name@ }) }),
    {
        TypeFqid { id, fqn: Some(TypeFqn::with(lib, name)) }
    }

    /// Three-way comparison of two fully-qualified identities in the
    /// canonical order: identity bytes first, then the label, an
    /// unlabelled identity coming before any labelled one.
    pub fn cmp_fqid(&self, other: &TypeFqid) -> (r: i8)
        ensures
            -1 <= r <= 1,
            (r == -1) <==> fqid_lt(self@, other@),
            (r == 0) <==> self@ == other@,
            (r == 1) <==> fqid_lt(other@, self@),
    {
        let c = lex_cmp(self.id.as_slice(), other.id.as_slice());
        if c != 0 {
            return c;
        }
        proof {
            assert(self@.id == other@.id);
        }
        match (&self.fqn, &other.fqn) {
            (None, None) => {
                proof {
                    assert(self@ == other@);
                }
                0
            },
            (None, Some(_)) => -1,
            (Some(_), None) => 1,
            (Some(x), Some(y)) => {
                let cl = x.lib.cmp_name(&y.lib);
                if cl != 0 {
                    proof {
                        assert(self@.fqn == Some(x@));
                        assert(other@.fqn == Some(y@));
                    }
                    return cl;
                }
                proof {
                    assert(x@.lib == y@.lib);
                    lemma_lex_trichotomy(ident_bytes(x@.lib), ident_bytes(y@.lib));
                }
                let cn = x.name.cmp_name(&y.name);
                proof {
                    assert(self@.fqn == Some(x@));
                    assert(other@.fqn == Some(y@));
                    if cn == 0 {
                        assert(x@ == y@);
                        assert(self@ == other@);
                    }
                }
                cn
            },
        }
    }
}

/// Whether the shape `t` references the identity `id` as a nested type.
pub open spec fn references(t: TyV, id: Seq<u8>) -> bool {
    match t {
        TyV::Union(alts) => exists|i: int| 0 <= i < alts.len() && (#[trigger] alts[i]).1 == id,
        TyV::Tuple(ids) => exists|i: int| 0 <= i < ids.len() && #[trigger] ids[i] == id,
        TyV::Struct(fs) => exists|i: int| 0 <= i < fs.len() && (#[trigger] fs[i]).ty == id,
        TyV::Array(e, _) => e == id,
        TyV::List(e, _) => e == id,
        TyV::SetOf(e, _) => e == id,
        TyV::MapOf(_, e, _) => e == id,
        _ => false,
    }
}

/// Whether some member of the system carries the identity `id`.
pub open spec fn sys_has_id(s: Seq<(TypeFqidV, TyV)>, id: Seq<u8>) -> bool {
    exists|i: int| 0 <= i < s.len() && (#[trigger] s[i]).0.id == id
}

/// Completeness: every identity referenced from any member is itself a
/// member.
pub open spec fn sys_complete(s: Seq<(TypeFqidV, TyV)>) -> bool {
    forall|i: int, id: Seq<u8>|
        0 <= i < s.len() && #[trigger] references(s[i].1, id) ==> sys_has_id(s, id)
}

/// Order of optional labels: an unlabelled identity comes before any
/// labelled one; labels order by library name bytes, then type name
/// bytes.
pub open spec fn fqn_lt(a: Option<TypeFqnV>, b: Option<TypeFqnV>) -> bool {
    match (a, b) {
        (Option::None, Option::Some(_)) => true,
        (Option::Some(x), Option::Some(y)) => lex_lt(ident_bytes(x.lib), ident_bytes(y.lib)) || (
        x.lib == y.lib && lex_lt(ident_bytes(x.name), ident_bytes(y.name))),
        _ => false,
    }
}

/// The canonical order of fully-qualified identities: ascending by
/// identity bytes, ties broken by the label.
pub open spec fn fqid_lt(a: TypeFqidV, b: TypeFqidV) -> bool {
    lex_lt(a.id, b.id) || (a.id == b.id && fqn_lt(a.fqn, b.fqn))
}

/// Whether some member of the system is registered under exactly the
/// fully-qualified identity `f`.
pub open spec fn sys_has_fqid(s: Seq<(TypeFqidV, TyV)>, f: TypeFqidV) -> bool {
    exists|i: int| 0 <= i < s.len() && (#[trigger] s[i]).0 == f
}

/// The canonical order never holds both ways, and holds of no pair of
/// equals.
pub proof fn lemma_fqid_asym(a: TypeFqidV, b: TypeFqidV)
    ensures
        fqid_lt(a, b) ==> !fqid_lt(b, a),
        fqid_lt(a, b) ==> a != b,
{
    lemma_lex_trichotomy(a.id, b.id);
    match (a.fqn, b.fqn) {
        (Option::Some(x), Option::Some(y)) => {
            lemma_lex_trichotomy(ident_bytes(x.lib), ident_bytes(y.lib));
            lemma_lex_trichotomy(ident_bytes(x.name), ident_bytes(y.name));
        },
        _ => {},
    }
}

/// The canonical order chains.
pub proof fn lemma_fqid_trans(a: TypeFqidV, b: TypeFqidV, c: TypeFqidV)
    requires
        fqid_lt(a, b),
        fqid_lt(b, c),
    ensures
        fqid_lt(a, c),
{
    if lex_lt(a.id, b.id) && lex_lt(b.id, c.id) {
        crate::order::lemma_lex_trans(a.id, b.id, c.id);
    } else if a.id == b.id && b.id == c.id {
        match (a.fqn, b.fqn, c.fqn) {
            (Option::Some(x), Option::Some(y), Option::Some(z)) => {
                if lex_lt(ident_bytes(x.lib), ident_bytes(y.lib)) && lex_lt(
                    ident_bytes(y.lib),
                    ident_bytes(z.lib),
                ) {
                    crate::order::lemma_lex_trans(
                        ident_bytes(x.lib),
                        ident_bytes(y.lib),
                        ident_bytes(z.lib),
                    );
                } else if x.lib == y.lib && y.lib == z.lib {
                    if lex_lt(ident_bytes(x.name), ident_bytes(y.name)) && lex_lt(
                        ident_bytes(y.name),
                        ident_bytes(z.name),
                    ) {
                        crate::order::lemma_lex_trans(
                            ident_bytes(x.name),
                            ident_bytes(y.name),
                            ident_bytes(z.name),
                        );
                    }
                }
            },
            _ => {},
        }
    }
}

/// The member identities of a system, concatenated in canonical order.
pub open spec fn sys_ids_enc() -> spec_fn((TypeFqidV, TyV)) -> Seq<u8> {
    |e: (TypeFqidV, TyV)| e.0.id
}

/// The content identity of a whole system: the keyed hash, under the
/// library domain tag, of its member identities in ascending identity
/// order.
pub open spec fn sys_id_spec(s: Seq<(TypeFqidV, TyV)>) -> Seq<u8> {
    blake3_keyed_of(lib_id_tag_spec(), enc_concat(s, sys_ids_enc()))
}

/// A union references each of its entry identities.
pub proof fn lemma_references_union(alts: Seq<(crate::variants::VariantV, Seq<u8>)>, k: int)
    requires
        0 <= k < alts.len(),
    ensures
        references(TyV::Union(alts), alts[k].1),
{
    let t = TyV::Union(alts);
    assert(t is Union);
    assert(t->Union_0 == alts);
    assert((#[trigger] alts[k]).1 == alts[k].1);
}

/// A struct references each of its field type identities.
pub proof fn lemma_references_struct(fs: Seq<crate::fields::FieldV>, k: int)
    requires
        0 <= k < fs.len(),
    ensures
        references(TyV::Struct(fs), fs[k].ty),
{
    let t = TyV::Struct(fs);
    assert(t is Struct);
    assert(t->Struct_0 == fs);
    assert((#[trigger] fs[k]).ty == fs[k].ty);
}

/// A tuple references each of its member identities.
pub proof fn lemma_references_tuple(ids: Seq<Seq<u8>>, k: int)
    requires
        0 <= k < ids.len(),
    ensures
        references(TyV::Tuple(ids), ids[k]),
{
    let t = TyV::Tuple(ids);
    assert(t is Tuple);
    assert(t->Tuple_0 == ids);
    assert(#[trigger] ids[k] == ids[k]);
}

/// A dangling reference: the identity some member references without it
/// being a member.
#[derive(Clone, Copy, PartialEq, Eq, Debug)]
pub struct IncompleteSystem {
    pub missing: SemId,
}

/// A set of types assembled from multiple libraries, keyed and ordered
/// by content identity, holding at most `SYS_MAX_TYPES` members.
#[derive(PartialEq, Eq, Debug)]
pub struct TypeSystem {
    list: Vec<(TypeFqid, Ty)>,
}

/// View of a system entry vector.
pub open spec fn sys_view(s: Seq<(TypeFqid, Ty)>) -> Seq<(TypeFqidV, TyV)> {
    s.map(|i: int, e: (TypeFqid, Ty)| (e.0@, e.1@))
}

impl View for TypeSystem {
    type V = Seq<(TypeFqidV, TyV)>;

    closed spec fn view(&self) -> Seq<(TypeFqidV, TyV)> {
        sys_view(self.list@)
    }
}

impl TypeSystem {
    /// Canonical form: strictly ascending by fully-qualified identity,
    /// within the size cap. One identity may be registered under several
    /// labels; each label makes its own entry.
    pub open spec fn wf(&self) -> bool {
        &&& self@.len() <= 0xFFFFFF
        &&& forall|i: int, j: int|
            0 <= i < j < self@.len() ==> fqid_lt(
                (#[trigger] self@[i]).0,
                (#[trigger] self@[j]).0,
            )
    }

    /// An empty system.
    pub fn new() -> (r: TypeSystem)
        ensures
            r@ == Seq::<(TypeFqidV, TyV)>::empty(),
            r.wf(),
    {
        let r = TypeSystem { list: Vec::new() };
        proof {
            assert(r@ =~= Seq::<(TypeFqidV, TyV)>::empty());
        }
        r
    }

    /// Number of member types; fits the three-byte count of the
    /// serialized form.
    pub fn count_types(&self) -> (r: u32)
        requires
            self.wf(),
        ensures
            r == self@.len(),
            r <= 0xFFFFFF,
    {
        self.list.len() as u32
    }

    /// The member entries, in ascending identity order.
    pub fn as_inner(&self) -> (r: &Vec<(TypeFqid, Ty)>)
        ensures
            sys_view(r@) == self@,
    {
        &self.list
    }

    /// Whether the identity `id` is a member key.
    pub fn contains_id(&self, id: &SemId) -> (r: bool)
        ensures
            r == sys_has_id(self@, id@),
    {
        let n = self.list.len();
        let mut i: usize = 0;
        while i < n
            invariant
                0 <= i <= n,
                n == self.list@.len(),
                sys_view(self.list@) == self@,
                forall|j: int| 0 <= j < i ==> (#[trigger] self@[j]).0.id != id@,
            decreases n - i,
        {
            if self.list[i].0.id == *id {
                proof {
                    assert(self@[i as int].0.id == id@);
                }
                return true;
            }
            proof {
                assert(self@[i as int] == (self.list@[i as int].0@, self.list@[i as int].1@));
            }
            i += 1;
        }
        false
    }

    /// The member type registered under `id`, if any.
    pub fn get(&self, id: &SemId) -> (r: Option<&Ty>)
        ensures
            match r {
                Some(t) => exists|i: int|
                    0 <= i < self@.len() && (#[trigger] self@[i]).0.id == id@ && t@ == self@[i].1,
                None => !sys_has_id(self@, id@),
            },
    {
        let n = self.list.len();
        let mut i: usize = 0;
        while i < n
            invariant
                0 <= i <= n,
                n == self.list@.len(),
                sys_view(self.list@) == self@,
                forall|j: int| 0 <= j < i ==> (#[trigger] self@[j]).0.id != id@,
            decreases n - i,
        {
            if self.list[i].0.id == *id {
                proof {
                    assert(self@[i as int].0.id == id@);
                    assert(self@[i as int].1 == self.list@[i as int].1@);
                }
                return Some(&self.list[i].1);
            }
            proof {
                assert(self@[i as int] == (self.list@[i as int].0@, self.list@[i as int].1@));
            }
            i += 1;
        }
        None
    }

    /// Registers `ty` under `fqid`. An already-registered
    /// fully-qualified identity has its entry replaced, and the call
    /// reports that it was present; the same raw identity under a
    /// different label makes a new entry. A new key is placed at its
    /// canonical position, unless the system is full.
    pub fn insert_unchecked(&mut self, fqid: TypeFqid, ty: Ty) -> (r: Result<bool, BoundsError>)
        requires
            old(self).wf(),
        ensures
            final(self).wf(),
            r matches Ok(replaced) ==> {
                &&& replaced == sys_has_fqid(old(self)@, fqid@)
                &&& (forall|f2: TypeFqidV|
                    sys_has_fqid(final(self)@, f2) == (sys_has_fqid(old(self)@, f2) || f2
                        == fqid@))
                &&& (forall|i: int|
                    0 <= i < final(self)@.len() ==> ((#[trigger] final(self)@[i]) == (
                    fqid@,
                    ty@,
                ) || old(self)@.contains(final(self)@[i])))
                &&& final(self)@.contains((fqid@, ty@))
            },
            r matches Err(e) ==> final(self)@ == old(self)@ && old(self)@.len() == 0xFFFFFF
                && !sys_has_fqid(old(self)@, fqid@) && e == (BoundsError {
                len: 0xFFFFFF,
                min: 0,
                max: SYS_MAX_TYPES,
            }),
    {
        let n = self.list.len();
        let mut idx: usize = 0;
        while idx < n
            invariant_except_break
                0 <= idx <= n,
                n == self.list@.len(),
                sys_view(self.list@) == self@,
                forall|k: int| 0 <= k < idx ==> fqid_lt((#[trigger] self@[k]).0, fqid@),
            ensures
                0 <= idx <= n,
                n == self.list@.len(),
                sys_view(self.list@) == self@,
                forall|k: int| 0 <= k < idx ==> fqid_lt((#[trigger] self@[k]).0, fqid@),
                idx < n ==> !fqid_lt(self@[idx as int].0, fqid@),
            decreases n - idx,
        {
            proof {
                assert(self@[idx as int] == (self.list@[idx as int].0@, self.list@[idx as int].1@));
            }
            let c = self.list[idx].0.cmp_fqid(&fqid);
            if c != -1 {
                break;
            }
            idx += 1;
        }
        let ghost v0 = self@;
        if idx < n {
            let c = self.list[idx].0.cmp_fqid(&fqid);
            if c == 0 {
                proof {
                    assert(self@[idx as int].0 == fqid@);
                    assert(sys_has_fqid(v0, fqid@));
                }
                self.list[idx] = (fqid, ty);
                proof {
                    let vnew = sys_view(self.list@);
                    assert(vnew =~= v0.update(idx as int, (fqid@, ty@)));
                    assert(vnew[idx as int] == (fqid@, ty@));
                    assert forall|f2: TypeFqidV|
                        sys_has_fqid(vnew, f2) == (sys_has_fqid(v0, f2) || f2 == fqid@) by {
                        if sys_has_fqid(vnew, f2) {
                            let a = choose|a: int|
                                0 <= a < vnew.len() && (#[trigger] vnew[a]).0 == f2;
                            if a != idx {
                                assert(v0[a].0 == f2);
                            }
                        }
                        if sys_has_fqid(v0, f2) {
                            let a = choose|a: int|
                                0 <= a < v0.len() && (#[trigger] v0[a]).0 == f2;
                            if a == idx {
                                assert(v0[a].0 == fqid@);
                                assert(vnew[idx as int].0 == f2);
                            } else {
                                assert(vnew[a].0 == f2);
                            }
                        }
                        if f2 == fqid@ {
                            assert(vnew[idx as int].0 == f2);
                        }
                    }
                    assert forall|i: int|
                        0 <= i < vnew.len() implies ((#[trigger] vnew[i]) == (fqid@, ty@)
                        || v0.contains(vnew[i])) by {
                        if i != idx {
                            assert(vnew[i] == v0[i]);
                        }
                    }
                    assert(vnew.contains((fqid@, ty@))) by {
                        assert(vnew[idx as int] == (fqid@, ty@));
                    }
                    assert forall|i: int, j: int|
                        0 <= i < j < vnew.len() implies fqid_lt(
                        (#[trigger] vnew[i]).0,
                        (#[trigger] vnew[j]).0,
                    ) by {
                        assert(vnew[i].0 == v0[i].0);
                        assert(vnew[j].0 == v0[j].0);
                    }
                }
                return Ok(true);
            }
            proof {
                assert(fqid_lt(fqid@, v0[idx as int].0));
            }
        }
        // The key is new: every entry before `idx` comes first, every
        // entry from `idx` on comes after.
        proof {
            assert forall|k: int| idx <= k < v0.len() implies fqid_lt(
                fqid@,
                (#[trigger] v0[k]).0,
            ) by {
                if k > idx {
                    assert(fqid_lt(v0[idx as int].0, v0[k].0));
                    lemma_fqid_trans(fqid@, v0[idx as int].0, v0[k].0);
                } else {
                    assert(v0[k] == v0[idx as int]);
                }
            }
            assert(!sys_has_fqid(v0, fqid@)) by {
                if sys_has_fqid(v0, fqid@) {
                    let a = choose|a: int| 0 <= a < v0.len() && (#[trigger] v0[a]).0 == fqid@;
                    if a < idx {
                        lemma_fqid_asym(v0[a].0, fqid@);
                    } else {
                        lemma_fqid_asym(fqid@, v0[a].0);
                    }
                }
            }
        }
        if n >= SYS_MAX_TYPES {
            return Err(BoundsError { len: n, min: 0, max: SYS_MAX_TYPES });
        }
        self.list.insert(idx, (fqid, ty));
        proof {
            v0.insert_ensures(idx as int, (fqid@, ty@));
            let vnew = sys_view(self.list@);
            assert(vnew =~= v0.insert(idx as int, (fqid@, ty@)));
            assert forall|f2: TypeFqidV|
                sys_has_fqid(vnew, f2) == (sys_has_fqid(v0, f2) || f2 == fqid@) by {
                if sys_has_fqid(vnew, f2) {
                    let a = choose|a: int| 0 <= a < vnew.len() && (#[trigger] vnew[a]).0 == f2;
                    if a < idx {
                        assert(v0[a].0 == f2);
                    } else if a > idx {
                        assert(v0[a - 1].0 == f2);
                    }
                }
                if sys_has_fqid(v0, f2) {
                    let a = choose|a: int| 0 <= a < v0.len() && (#[trigger] v0[a]).0 == f2;
                    if a < idx {
                        assert(vnew[a].0 == f2);
                    } else {
                        assert(vnew[a + 1].0 == f2);
                    }
                }
                if f2 == fqid@ {
                    assert(vnew[idx as int].0 == f2);
                }
            }
            assert forall|i: int|
                0 <= i < vnew.len() implies ((#[trigger] vnew[i]) == (fqid@, ty@) || v0.contains(
                vnew[i],
            )) by {
                if i < idx {
                    assert(vnew[i] == v0[i]);
                } else if i > idx {
                    assert(vnew[i] == v0[i - 1]);
                }
            }
            assert(vnew.contains((fqid@, ty@))) by {
                assert(vnew[idx as int] == (fqid@, ty@));
            }
            assert forall|i: int, j: int|
                0 <= i < j < vnew.len() implies fqid_lt(
                (#[trigger] vnew[i]).0,
                (#[trigger] vnew[j]).0,
            ) by {
                let a = if i < idx {
                    v0[i].0
                } else if i == idx {
                    fqid@
                } else {
                    v0[i - 1].0
                };
                let b = if j < idx {
                    v0[j].0
                } else if j == idx {
                    fqid@
                } else {
                    v0[j - 1].0
                };
                assert(vnew[i].0 == a);
                assert(vnew[j].0 == b);
            }
            assert(sys_has_fqid(vnew, fqid@)) by {
                assert(vnew[idx as int].0 == fqid@);
            }
        }
        Ok(false)
    }

    /// Checks completeness: `Ok` exactly when every referenced identity
    /// is a member; otherwise reports a dangling identity.
    pub fn validate(&self) -> (r: Result<(), IncompleteSystem>)
        ensures
            r is Ok <==> sys_complete(self@),
            r matches Err(e) ==> exists|i: int|
                0 <= i < self@.len() && references((#[trigger] self@[i]).1, e.missing@)
                    && !sys_has_id(self@, e.missing@),
    {
        let n = self.list.len();
        let mut i: usize = 0;
        while i < n
            invariant
                0 <= i <= n,
                n == self.list@.len(),
                sys_view(self.list@) == self@,
                forall|k: int, id: Seq<u8>|
                    0 <= k < i && #[trigger] references(self@[k].1, id) ==> sys_has_id(
                        self@,
                        id,
                    ),
            decreases n - i,
        {
            proof {
                assert(self@[i as int] == (self.list@[i as int].0@, self.list@[i as int].1@));
            }
            let refs = collect_refs(&self.list[i].1);
            let m = refs.len();
            let mut j: usize = 0;
            while j < m
                invariant
                    0 <= j <= m,
                    m == refs@.len(),
                    0 <= i < n,
                    n == self.list@.len(),
                    sys_view(self.list@) == self@,
                    self.list@[i as int].1@ == self@[i as int].1,
                    forall|id: Seq<u8>|
                        #[trigger] references(self.list@[i as int].1@, id) ==> (exists|k: int|
                            0 <= k < refs@.len() && (#[trigger] refs@[k])@ == id),
                    forall|k: int|
                        0 <= k < refs@.len() ==> references(
                            self.list@[i as int].1@,
                            (#[trigger] refs@[k])@,
                        ),
                    forall|k: int|
                        0 <= k < j ==> sys_has_id(self@, (#[trigger] refs@[k])@),
                decreases m - j,
            {
                if !self.contains_id(&refs[j]) {
                    proof {
                        assert(references(self@[i as int].1, refs@[j as int]@));
                    }
                    return Err(IncompleteSystem { missing: refs[j] });
                }
                j += 1;
            }
            proof {
                assert forall|id: Seq<u8>|
                    references(self@[i as int].1, id) implies sys_has_id(self@, id) by {
                    let k = choose|k: int|
                        0 <= k < refs@.len() && (#[trigger] refs@[k])@ == id;
                    assert(sys_has_id(self@, refs@[k]@));
                }
            }
            i += 1;
        }
        Ok(())
    }

    /// The system's content identity: the keyed hash of its member
    /// identities in canonical order. Identity over an incomplete
    /// system is undefined: validate first.
    pub fn id(&self) -> (r: TypeLibId)
        requires
            sys_complete(self@),
        ensures
            r@ == sys_id_spec(self@),
    {
        let tag = lib_id_tag();
        let mut data: Vec<u8> = Vec::new();
        let n = self.list.len();
        proof {
            assert(data@ =~= enc_concat(self@.take(0), sys_ids_enc()));
        }
        let mut i: usize = 0;
        while i < n
            invariant
                0 <= i <= n,
                n == self.list@.len(),
                sys_view(self.list@) == self@,
                data@ == enc_concat(self@.take(i as int), sys_ids_enc()),
            decreases n - i,
        {
            let ghost d0 = data@;
            crate::encode::write_semid(&mut data, &self.list[i].0.id);
            proof {
                assert(self@[i as int] == (self.list@[i as int].0@, self.list@[i as int].1@));
                assert(self.list@[i as int].0.id@ == self@[i as int].0.id);
                lemma_enc_concat_push(self@.take(i as int), sys_ids_enc(), self@[i as int]);
                assert(self@.take(i as int).push(self@[i as int]) =~= self@.take(i as int + 1));
                assert(sys_ids_enc()(self@[i as int]) == self@[i as int].0.id);
                assert(data@ =~= enc_concat(self@.take(i as int + 1), sys_ids_enc()));
            }
            i += 1;
        }
        proof {
            assert(self@.take(n as int) =~= self@);
        }
        TypeLibId::from_raw_array(blake3_keyed(&tag, data.as_slice()))
    }
}

/// The identities a type node references, as a vector: the union values,
/// tuple members, struct field types, or the collection element.
#[verifier::rlimit(60)]
#[verifier::spinoff_prover]
fn collect_refs(t: &Ty) -> (r: Vec<SemId>)
    ensures
        forall|id: Seq<u8>|
            #[trigger] references(t@, id) ==> (exists|k: int|
                0 <= k < r@.len() && (#[trigger] r@[k])@ == id),
        forall|k: int| 0 <= k < r@.len() ==> references(t@, (#[trigger] r@[k])@),
{
    let mut out: Vec<SemId> = Vec::new();
    match t {
        Ty::Union(alts) => {
            let list = alts.as_inner();
            let n = list.len();
            let mut i: usize = 0;
            while i < n
                invariant
                    0 <= i <= n,
                    n == list@.len(),
                    crate::variants::alts_view(list@) == alts@,
                    out@.len() == i,
                    forall|k: int| 0 <= k < i ==> (#[trigger] out@[k])@ == alts@[k].1,
                decreases n - i,
            {
                out.push(list[i].1);
                proof {
                    assert(alts@[i as int] == (list@[i as int].0@, list@[i as int].1@));
                }
                i += 1;
            }
            proof {
                assert forall|id: Seq<u8>| #[trigger] references(t@, id) implies (exists|k: int|
                    0 <= k < out@.len() && (#[trigger] out@[k])@ == id) by {
                    let a = choose|a: int|
                        0 <= a < alts@.len() && (#[trigger] alts@[a]).1 == id;
                    assert(out@[a]@ == id);
                }
                assert forall|k: int| 0 <= k < out@.len() implies references(
                    t@,
                    (#[trigger] out@[k])@,
                ) by {
                    assert(t@ == TyV::Union(alts@));
                    assert(alts@[k].1 == out@[k]@);
                    lemma_references_union(alts@, k);
                }
            }
        },
        Ty::Tuple(ids) => {
            let list = ids.as_inner();
            let n = list.len();
            let mut i: usize = 0;
            while i < n
                invariant
                    0 <= i <= n,
                    n == list@.len(),
                    list@.map(|k: int, x: SemId| x@) == ids@,
                    out@.len() == i,
                    forall|k: int| 0 <= k < i ==> (#[trigger] out@[k])@ == ids@[k],
                decreases n - i,
            {
                out.push(list[i]);
                proof {
                    assert(ids@[i as int] == list@[i as int]@);
                }
                i += 1;
            }
            proof {
                assert forall|id: Seq<u8>| #[trigger] references(t@, id) implies (exists|k: int|
                    0 <= k < out@.len() && (#[trigger] out@[k])@ == id) by {
                    let a = choose|a: int| 0 <= a < ids@.len() && #[trigger] ids@[a] == id;
                    assert(out@[a]@ == id);
                }
                assert forall|k: int| 0 <= k < out@.len() implies references(
                    t@,
                    (#[trigger] out@[k])@,
                ) by {
                    assert(ids@[k] == out@[k]@);
                }
            }
        },
        Ty::Struct(fs) => {
            let list = fs.as_inner();
            let n = list.len();
            let mut i: usize = 0;
            while i < n
                invariant
                    0 <= i <= n,
                    n == list@.len(),
                    list@.map(|k: int, f: crate::fields::Field| f@) == fs@,
                    out@.len() == i,
                    forall|k: int| 0 <= k < i ==> (#[trigger] out@[k])@ == fs@[k].ty,
                decreases n - i,
            {
                out.push(list[i].ty);
                proof {
                    assert(fs@[i as int] == list@[i as int]@);
                }
                i += 1;
            }
            proof {
                assert forall|id: Seq<u8>| #[trigger] references(t@, id) implies (exists|k: int|
                    0 <= k < out@.len() && (#[trigger] out@[k])@ == id) by {
                    let a = choose|a: int| 0 <= a < fs@.len() && (#[trigger] fs@[a]).ty == id;
                    assert(out@[a]@ == id);
                }
                assert forall|k: int| 0 <= k < out@.len() implies references(
                    t@,
                    (#[trigger] out@[k])@,
                ) by {
                    assert(t@ == TyV::Struct(fs@));
                    assert(fs@[k].ty == out@[k]@);
                    lemma_references_struct(fs@, k);
                }
            }
        },
        Ty::Array(e, _) => {
            out.push(*e);
            proof {
                assert(out@[0]@ == e@);
            }
        },
        Ty::List(e, _) => {
            out.push(*e);
            proof {
                assert(out@[0]@ == e@);
            }
        },
        Ty::SetOf(e, _) => {
            out.push(*e);
            proof {
                assert(out@[0]@ == e@);
            }
        },
        Ty::MapOf(_, e, _) => {
            out.push(*e);
            proof {
                assert(out@[0]@ == e@);
            }
        },
        _ => (),
    }
    out
}

/// The key a library entry sorts under: its type name's byte form.
pub open spec fn lib_key() -> spec_fn((Seq<char>, TyV)) -> Seq<u8> {
    |e: (Seq<char>, TyV)| ident_bytes(e.0)
}

/// The member encoder of a library identity: each member type's own
/// content identity.
pub open spec fn lib_ids_enc() -> spec_fn((Seq<char>, TyV)) -> Seq<u8> {
    |e: (Seq<char>, TyV)| sem_id_of(e.1)
}

/// The content identity of a library: the keyed hash, under the fixed
/// 32-byte domain tag, of the concatenation of each member type's own
/// identity, ascending by type name. Identity is never recomputed
/// structurally member-by-member: it is compositional over member ids.
pub open spec fn lib_id_spec(s: Seq<(Seq<char>, TyV)>) -> Seq<u8> {
    blake3_keyed_of(lib_id_tag_spec(), enc_concat(s, lib_ids_enc()))
}

/// A named collection of types, keyed and ordered by type name, holding
/// at most `SYS_MAX_TYPES` members.
#[derive(PartialEq, Eq, Debug)]
pub struct TypeLib {
    name: LibName,
    types: Vec<(TypeName, Ty)>,
}

/// View of a library entry vector.
pub open spec fn lib_view(s: Seq<(TypeName, Ty)>) -> Seq<(Seq<char>, TyV)> {
    s.map(|i: int, e: (TypeName, Ty)| (e.0@, e.1@))
}

impl View for TypeLib {
    type V = Seq<(Seq<char>, TyV)>;

    closed spec fn view(&self) -> Seq<(Seq<char>, TyV)> {
        lib_view(self.types@)
    }
}

/// Whether some member of the library carries the name `name`.
pub open spec fn lib_has_name(s: Seq<(Seq<char>, TyV)>, name: Seq<char>) -> bool {
    exists|i: int| 0 <= i < s.len() && (#[trigger] s[i]).0 == name
}

/// Whether some member type of the library carries the semantic
/// identity `id`.
pub open spec fn lib_has_sem_id(s: Seq<(Seq<char>, TyV)>, id: Seq<u8>) -> bool {
    exists|i: int| 0 <= i < s.len() && sem_id_of((#[trigger] s[i]).1) == id
}

/// Completeness of a library: every identity referenced from any member
/// is some member's own identity.
pub open spec fn lib_complete(s: Seq<(Seq<char>, TyV)>) -> bool {
    forall|i: int, id: Seq<u8>|
        0 <= i < s.len() && #[trigger] references(s[i].1, id) ==> lib_has_sem_id(s, id)
}

impl TypeLib {
    /// The library's own name.
    pub closed spec fn lib_name_spec(&self) -> Seq<char> {
        self.name@
    }

    /// The library's own name.
    pub fn lib_name(&self) -> (r: &LibName)
        ensures
            r@ == self.lib_name_spec(),
    {
        &self.name
    }

    /// Canonical form: strictly ascending by name bytes, within the size
    /// cap.
    pub open spec fn wf(&self) -> bool {
        &&& self@.len() <= 0xFFFFFF
        &&& forall|i: int, j: int|
            0 <= i < j < self@.len() ==> lex_lt(
                ident_bytes((#[trigger] self@[i]).0),
                ident_bytes((#[trigger] self@[j]).0),
            )
    }

    /// An empty library under the given name.
    pub fn new(name: LibName) -> (r: TypeLib)
        ensures
            r@ == Seq::<(Seq<char>, TyV)>::empty(),
            r.wf(),
            r.lib_name_spec() == name@,
    {
        let r = TypeLib { name, types: Vec::new() };
        proof {
            assert(r@ =~= Seq::<(Seq<char>, TyV)>::empty());
        }
        r
    }

    /// Number of member types.
    pub fn count_types(&self) -> (r: u32)
        requires
            self.wf(),
        ensures
            r == self@.len(),
            r <= 0xFFFFFF,
    {
        self.types.len() as u32
    }

    /// The member entries, in ascending name order.
    pub fn as_inner(&self) -> (r: &Vec<(TypeName, Ty)>)
        ensures
            lib_view(r@) == self@,
    {
        &self.types
    }

    /// Registers `ty` under `name`. An already-used name has its entry
    /// replaced, and the call reports that it was present. A new name is
    /// placed at its canonical position, unless the library is full.
    pub fn insert(&mut self, name: TypeName, ty: Ty) -> (r: Result<bool, BoundsError>)
        requires
            old(self).wf(),
        ensures
            final(self).wf(),
            final(self).lib_name_spec() == old(self).lib_name_spec(),
            r matches Ok(replaced) ==> {
                &&& replaced == lib_has_name(old(self)@, name@)
                &&& lib_has_name(final(self)@, name@)
                &&& (forall|nm: Seq<char>|
                    lib_has_name(final(self)@, nm) == (lib_has_name(old(self)@, nm) || nm
                        == name@))
                &&& (forall|i: int|
                    0 <= i < final(self)@.len() ==> ((#[trigger] final(self)@[i]) == (
                    name@,
                    ty@,
                ) || old(self)@.contains(final(self)@[i])))
                &&& final(self)@.contains((name@, ty@))
            },
            r matches Err(e) ==> final(self)@ == old(self)@ && old(self)@.len() == 0xFFFFFF
                && !lib_has_name(old(self)@, name@) && e == (BoundsError {
                len: 0xFFFFFF,
                min: 0,
                max: SYS_MAX_TYPES,
            }),
    {
        let n = self.types.len();
        let mut idx: usize = 0;
        while idx < n
            invariant_except_break
                0 <= idx <= n,
                n == self.types@.len(),
                lib_view(self.types@) == self@,
                forall|k: int|
                    0 <= k < idx ==> lex_lt(ident_bytes((#[trigger] self@[k]).0), ident_bytes(name@)),
            ensures
                0 <= idx <= n,
                n == self.types@.len(),
                lib_view(self.types@) == self@,
                forall|k: int|
                    0 <= k < idx ==> lex_lt(ident_bytes((#[trigger] self@[k]).0), ident_bytes(name@)),
                idx < n ==> !lex_lt(ident_bytes(self@[idx as int].0), ident_bytes(name@)),
            decreases n - idx,
        {
            proof {
                assert(self@[idx as int] == (self.types@[idx as int].0@, self.types@[idx as int].1@));
            }
            let c = self.types[idx].0.cmp_name(&name);
            if c != -1 {
                break;
            }
            idx += 1;
        }
        let ghost v0 = self@;
        if idx < n {
            let c = self.types[idx].0.cmp_name(&name);
            if c == 0 {
                proof {
                    assert(self@[idx as int].0 == name@);
                    assert(lib_has_name(v0, name@));
                }
                self.types[idx] = (name, ty);
                proof {
                    let vnew = lib_view(self.types@);
                    assert(vnew =~= v0.update(idx as int, (name@, ty@)));
                    assert(vnew[idx as int] == (name@, ty@));
                    assert forall|nm: Seq<char>|
                        lib_has_name(vnew, nm) == (lib_has_name(v0, nm) || nm == name@) by {
                        if lib_has_name(vnew, nm) {
                            let a = choose|a: int|
                                0 <= a < vnew.len() && (#[trigger] vnew[a]).0 == nm;
                            if a != idx {
                                assert(v0[a].0 == nm);
                            }
                        }
                        if lib_has_name(v0, nm) {
                            let a = choose|a: int|
                                0 <= a < v0.len() && (#[trigger] v0[a]).0 == nm;
                            if a == idx {
                                assert(vnew[idx as int].0 == nm);
                            } else {
                                assert(vnew[a].0 == nm);
                            }
                        }
                        if nm == name@ {
                            assert(vnew[idx as int].0 == nm);
                        }
                    }
                    assert forall|i: int|
                        0 <= i < vnew.len() implies ((#[trigger] vnew[i]) == (name@, ty@)
                        || v0.contains(vnew[i])) by {
                        if i != idx {
                            assert(vnew[i] == v0[i]);
                        }
                    }
                    assert(vnew.contains((name@, ty@))) by {
                        assert(vnew[idx as int] == (name@, ty@));
                    }
                    assert forall|i: int, j: int|
                        0 <= i < j < vnew.len() implies lex_lt(
                        ident_bytes((#[trigger] vnew[i]).0),
                        ident_bytes((#[trigger] vnew[j]).0),
                    ) by {
                        assert(vnew[i].0 == v0[i].0);
                        assert(vnew[j].0 == v0[j].0);
                    }
                }
                return Ok(true);
            }
            proof {
                assert(lex_lt(ident_bytes(name@), ident_bytes(v0[idx as int].0)));
            }
        }
        proof {
            assert forall|k: int| idx <= k < v0.len() implies lex_lt(
                ident_bytes(name@),
                ident_bytes((#[trigger] v0[k]).0),
            ) by {
                if k > idx {
                    assert(lex_lt(ident_bytes(v0[idx as int].0), ident_bytes(v0[k].0)));
                    crate::order::lemma_lex_trans(
                        ident_bytes(name@),
                        ident_bytes(v0[idx as int].0),
                        ident_bytes(v0[k].0),
                    );
                } else {
                    assert(v0[k] == v0[idx as int]);
                }
            }
            assert(!lib_has_name(v0, name@)) by {
                if lib_has_name(v0, name@) {
                    let a = choose|a: int| 0 <= a < v0.len() && (#[trigger] v0[a]).0 == name@;
                    assert(ident_bytes(v0[a].0) == ident_bytes(name@));
                    lemma_lex_trichotomy(ident_bytes(v0[a].0), ident_bytes(name@));
                    if a < idx {
                        assert(lex_lt(ident_bytes(v0[a].0), ident_bytes(name@)));
                    } else {
                        assert(lex_lt(ident_bytes(name@), ident_bytes(v0[a].0)));
                    }
                }
            }
        }
        if n >= SYS_MAX_TYPES {
            return Err(BoundsError { len: n, min: 0, max: SYS_MAX_TYPES });
        }
        self.types.insert(idx, (name, ty));
        proof {
            v0.insert_ensures(idx as int, (name@, ty@));
            let vnew = lib_view(self.types@);
            assert(vnew =~= v0.insert(idx as int, (name@, ty@)));
            assert forall|nm: Seq<char>|
                lib_has_name(vnew, nm) == (lib_has_name(v0, nm) || nm == name@) by {
                if lib_has_name(vnew, nm) {
                    let a = choose|a: int| 0 <= a < vnew.len() && (#[trigger] vnew[a]).0 == nm;
                    if a < idx {
                        assert(v0[a].0 == nm);
                    } else if a > idx {
                        assert(v0[a - 1].0 == nm);
                    }
                }
                if lib_has_name(v0, nm) {
                    let a = choose|a: int| 0 <= a < v0.len() && (#[trigger] v0[a]).0 == nm;
                    if a < idx {
                        assert(vnew[a].0 == nm);
                    } else {
                        assert(vnew[a + 1].0 == nm);
                    }
                }
                if nm == name@ {
                    assert(vnew[idx as int].0 == nm);
                }
            }
            assert forall|i: int|
                0 <= i < vnew.len() implies ((#[trigger] vnew[i]) == (name@, ty@) || v0.contains(
                vnew[i],
            )) by {
                if i < idx {
                    assert(vnew[i] == v0[i]);
                } else if i > idx {
                    assert(vnew[i] == v0[i - 1]);
                }
            }
            assert(vnew.contains((name@, ty@))) by {
                assert(vnew[idx as int] == (name@, ty@));
            }
            assert forall|i: int, j: int|
                0 <= i < j < vnew.len() implies lex_lt(
                ident_bytes((#[trigger] vnew[i]).0),
                ident_bytes((#[trigger] vnew[j]).0),
            ) by {
                let a = if i < idx {
                    v0[i].0
                } else if i == idx {
                    name@
                } else {
                    v0[i - 1].0
                };
                let b = if j < idx {
                    v0[j].0
                } else if j == idx {
                    name@
                } else {
                    v0[j - 1].0
                };
                assert(vnew[i].0 == a);
                assert(vnew[j].0 == b);
            }
            assert(lib_has_name(vnew, name@)) by {
                assert(vnew[idx as int].0 == name@);
            }
        }
        Ok(false)
    }

    /// Checks completeness: `Ok` exactly when every identity referenced
    /// from any member is some member's own identity; otherwise reports
    /// a dangling identity.
    pub fn validate(&self) -> (r: Result<(), IncompleteSystem>)
        ensures
            r is Ok <==> lib_complete(self@),
            r matches Err(e) ==> exists|i: int|
                0 <= i < self@.len() && references((#[trigger] self@[i]).1, e.missing@)
                    && !lib_has_sem_id(self@, e.missing@),
    {
        let list = self.as_inner();
        let n = list.len();
        let mut ids: Vec<SemId> = Vec::new();
        let mut i: usize = 0;
        while i < n
            invariant
                0 <= i <= n,
                n == list@.len(),
                lib_view(list@) == self@,
                ids@.len() == i,
                forall|j: int| 0 <= j < i ==> (#[trigger] ids@[j])@ == sem_id_of(self@[j].1),
            decreases n - i,
        {
            let id = list[i].1.sem_id();
            ids.push(id);
            proof {
                assert(self@[i as int] == (list@[i as int].0@, list@[i as int].1@));
            }
            i += 1;
        }
        let mut i: usize = 0;
        while i < n
            invariant
                0 <= i <= n,
                n == list@.len(),
                lib_view(list@) == self@,
                ids@.len() == n,
                forall|j: int| 0 <= j < n ==> (#[trigger] ids@[j])@ == sem_id_of(self@[j].1),
                forall|k: int, id2: Seq<u8>|
                    0 <= k < i && #[trigger] references(self@[k].1, id2) ==> lib_has_sem_id(
                        self@,
                        id2,
                    ),
            decreases n - i,
        {
            proof {
                assert(self@[i as int] == (list@[i as int].0@, list@[i as int].1@));
            }
            let refs = collect_refs(&list[i].1);
            let m = refs.len();
            let mut j: usize = 0;
            while j < m
                invariant
                    0 <= j <= m,
                    m == refs@.len(),
                    0 <= i < n,
                    n == list@.len(),
                    lib_view(list@) == self@,
                    ids@.len() == n,
                    forall|k: int|
                        0 <= k < n ==> (#[trigger] ids@[k])@ == sem_id_of(self@[k].1),
                    list@[i as int].1@ == self@[i as int].1,
                    forall|id2: Seq<u8>|
                        #[trigger] references(list@[i as int].1@, id2) ==> (exists|k: int|
                            0 <= k < refs@.len() && (#[trigger] refs@[k])@ == id2),
                    forall|k: int|
                        0 <= k < refs@.len() ==> references(
                            list@[i as int].1@,
                            (#[trigger] refs@[k])@,
                        ),
                    forall|k: int|
                        0 <= k < j ==> lib_has_sem_id(self@, (#[trigger] refs@[k])@),
                decreases m - j,
            {
                let mut found = false;
                let mut k: usize = 0;
                while k < n
                    invariant
                        0 <= k <= n,
                        n == ids@.len(),
                        0 <= j < m,
                        m == refs@.len(),
                        found == (exists|a: int|
                            0 <= a < k && (#[trigger] ids@[a])@ == refs@[j as int]@),
                    decreases n - k,
                {
                    if ids[k] == refs[j] {
                        found = true;
                        proof {
                            assert(ids@[k as int]@ == refs@[j as int]@);
                        }
                    }
                    k += 1;
                }
                if !found {
                    proof {
                        assert(references(self@[i as int].1, refs@[j as int]@));
                        assert(!lib_has_sem_id(self@, refs@[j as int]@)) by {
                            if lib_has_sem_id(self@, refs@[j as int]@) {
                                let a = choose|a: int|
                                    0 <= a < self@.len() && sem_id_of(
                                        (#[trigger] self@[a]).1,
                                    ) == refs@[j as int]@;
                                assert(ids@[a]@ == refs@[j as int]@);
                            }
                        }
                    }
                    return Err(IncompleteSystem { missing: refs[j] });
                }
                proof {
                    let a = choose|a: int|
                        0 <= a < n && (#[trigger] ids@[a])@ == refs@[j as int]@;
                    assert(sem_id_of(self@[a].1) == refs@[j as int]@);
                    assert(lib_has_sem_id(self@, refs@[j as int]@));
                }
                j += 1;
            }
            proof {
                assert forall|id2: Seq<u8>|
                    #[trigger] references(self@[i as int].1, id2) implies lib_has_sem_id(
                    self@,
                    id2,
                ) by {
                    let k = choose|k: int|
                        0 <= k < refs@.len() && (#[trigger] refs@[k])@ == id2;
                    assert(lib_has_sem_id(self@, refs@[k]@));
                }
            }
            i += 1;
        }
        Ok(())
    }

    /// The library's content identity: the keyed hash of its member
    /// types' identities, in ascending name order. Identity over an
    /// incomplete library is undefined: validate first.
    pub fn id(&self) -> (r: TypeLibId)
        requires
            lib_complete(self@),
        ensures
            r@ == lib_id_spec(self@),
    {
        let tag = lib_id_tag();
        let mut data: Vec<u8> = Vec::new();
        let n = self.types.len();
        proof {
            assert(data@ =~= enc_concat(self@.take(0), lib_ids_enc()));
        }
        let mut i: usize = 0;
        while i < n
            invariant
                0 <= i <= n,
                n == self.types@.len(),
                lib_view(self.types@) == self@,
                data@ == enc_concat(self@.take(i as int), lib_ids_enc()),
            decreases n - i,
        {
            let id = self.types[i].1.sem_id();
            crate::encode::write_semid(&mut data, &id);
            proof {
                assert(self@[i as int] == (self.types@[i as int].0@, self.types@[i as int].1@));
                assert(id@ == sem_id_of(self@[i as int].1));
                lemma_enc_concat_push(self@.take(i as int), lib_ids_enc(), self@[i as int]);
                assert(self@.take(i as int).push(self@[i as int]) =~= self@.take(i as int + 1));
                assert(lib_ids_enc()(self@[i as int]) == sem_id_of(self@[i as int].1));
                assert(data@ =~= enc_concat(self@.take(i as int + 1), lib_ids_enc()));
            }
            i += 1;
        }
        proof {
            assert(self@.take(n as int) =~= self@);
        }
        TypeLibId::from_raw_array(blake3_keyed(&tag, data.as_slice()))
    }
}

/// The insertion-order law for libraries: two libraries in canonical
/// form holding the same members have the same identity, whatever order
/// their members arrived in.
pub proof fn lemma_lib_id_order_independent(x: Seq<(Seq<char>, TyV)>, y: Seq<(Seq<char>, TyV)>)
    requires
        forall|i: int, j: int|
            0 <= i < j < x.len() ==> lex_lt(
                ident_bytes((#[trigger] x[i]).0),
                ident_bytes((#[trigger] x[j]).0),
            ),
        forall|i: int, j: int|
            0 <= i < j < y.len() ==> lex_lt(
                ident_bytes((#[trigger] y[i]).0),
                ident_bytes((#[trigger] y[j]).0),
            ),
        x.to_multiset() == y.to_multiset(),
    ensures
        x == y,
        lib_id_spec(x) == lib_id_spec(y),
{
    let lt = |a: (Seq<char>, TyV), b: (Seq<char>, TyV)| lex_lt(ident_bytes(a.0), ident_bytes(b.0));
    assert forall|a: (Seq<char>, TyV), b: (Seq<char>, TyV)| #[trigger] lt(a, b) implies !lt(
        b,
        a,
    ) by {
        lemma_lex_trichotomy(ident_bytes(a.0), ident_bytes(b.0));
    }
    assert forall|i: int, j: int| 0 <= i < j < x.len() implies #[trigger] lt(x[i], x[j]) by {}
    assert forall|i: int, j: int| 0 <= i < j < y.len() implies #[trigger] lt(y[i], y[j]) by {}
    lemma_strictly_sorted_unique(x, y, lt);
}

/// The insertion-order law for systems: two systems in canonical form
/// holding the same members have the same identity.
pub proof fn lemma_sys_id_order_independent(x: Seq<(TypeFqidV, TyV)>, y: Seq<(TypeFqidV, TyV)>)
    requires
        forall|i: int, j: int|
            0 <= i < j < x.len() ==> fqid_lt((#[trigger] x[i]).0, (#[trigger] x[j]).0),
        forall|i: int, j: int|
            0 <= i < j < y.len() ==> fqid_lt((#[trigger] y[i]).0, (#[trigger] y[j]).0),
        x.to_multiset() == y.to_multiset(),
    ensures
        x == y,
        sys_id_spec(x) == sys_id_spec(y),
{
    let lt = |a: (TypeFqidV, TyV), b: (TypeFqidV, TyV)| fqid_lt(a.0, b.0);
    assert forall|a: (TypeFqidV, TyV), b: (TypeFqidV, TyV)| #[trigger] lt(a, b) implies !lt(
        b,
        a,
    ) by {
        lemma_fqid_asym(a.0, b.0);
    }
    assert forall|i: int, j: int| 0 <= i < j < x.len() implies #[trigger] lt(x[i], x[j]) by {}
    assert forall|i: int, j: int| 0 <= i < j < y.len() implies #[trigger] lt(y[i], y[j]) by {}
    lemma_strictly_sorted_unique(x, y, lt);
}

impl TypeSystem {
    /// Wraps entries already in canonical ascending key order.
    pub(crate) fn from_sorted_entries(list: Vec<(TypeFqid, Ty)>) -> (r: TypeSystem)
        requires
            list@.len() <= 0xFFFFFF,
            forall|i: int, j: int|
                0 <= i < j < list@.len() ==> fqid_lt(
                    (#[trigger] sys_view(list@)[i]).0,
                    (#[trigger] sys_view(list@)[j]).0,
                ),
        ensures
            r@ == sys_view(list@),
            r.wf(),
    {
        TypeSystem { list }
    }
}

} // verus!
