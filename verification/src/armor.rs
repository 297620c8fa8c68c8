//! The persisted form of a type system: a capped binary blob, and the
//! armored text envelope around it — a header, the system's identity,
//! a checksum mnemonic, and the base64 body wrapped at 76 columns. The
//! envelope is a display and debugging interface, not a required
//! interchange format.

use vstd::prelude::*;
use vstd::string::{StringExecFns, StrSliceExecFns};
use crate::encode::{enc_concat, enc_ident, enc_ty, lemma_enc_concat_push, write_ident, write_ty};
use crate::decode::DecodeError;
use crate::display::{base58_of, mnemonic_of};
use crate::id::{SemId, TypeLibId};
use crate::typesys::{sys_id_spec, TypeFqid, TypeFqidV, TypeSystem};
use crate::ty::{Ty, TyV};

verus! {

/// Three little-endian bytes of a member count.
pub open spec fn le24(n: int) -> Seq<u8> {
    seq![(n % 256) as u8, ((n / 256) % 256) as u8, ((n / 0x10000) % 256) as u8]
}

/// A fully-qualified identity: the raw identity, then its optional
/// label.
pub open spec fn enc_fqid(f: TypeFqidV) -> Seq<u8> {
    f.id + match f.fqn {
        None => seq![0u8],
        Some(q) => seq![1u8] + enc_ident(q.lib) + enc_ident(q.name),
    }
}

/// The member encoder of the serialized system.
pub open spec fn sys_entry_enc() -> spec_fn((TypeFqidV, TyV)) -> Seq<u8> {
    |e: (TypeFqidV, TyV)| enc_fqid(e.0) + enc_ty(e.1)
}

/// The serialized form of a whole system: its three-byte member count,
/// then its members in canonical order.
pub open spec fn enc_sys(s: Seq<(TypeFqidV, TyV)>) -> Seq<u8> {
    le24(s.len() as int) + enc_concat(s, sys_entry_enc())
}

/// The serialized blob would pass the 16 MiB cap.
#[derive(Clone, Copy, PartialEq, Eq, Structural, Debug)]
pub struct OversizedBlob {
    pub len: usize,
}

/// Appends a fully-qualified identity.
fn write_fqid(out: &mut Vec<u8>, f: &TypeFqid)
    ensures
        final(out)@ == old(out)@ + enc_fqid(f@),
{
    let ghost out0 = out@;
    crate::encode::write_semid(out, &f.id);
    match &f.fqn {
        None => {
            out.push(0);
        },
        Some(q) => {
            out.push(1);
            write_ident(out, &q.lib);
            write_ident(out, &q.name);
        },
    }
    proof {
        assert(out@ =~= out0 + enc_fqid(f@));
    }
}

impl TypeSystem {
    /// The serialized blob, when it fits the 16 MiB cap; the blob's
    /// length otherwise.
    pub fn to_strict_serialized(&self) -> (r: Result<Vec<u8>, OversizedBlob>)
        requires
            self.wf(),
        ensures
            r is Ok <==> enc_sys(self@).len() <= 0xFFFFFF,
            r matches Ok(v) ==> v@ == enc_sys(self@),
            r matches Err(e) ==> e.len == enc_sys(self@).len(),
    {
        let mut out: Vec<u8> = Vec::new();
        let n32 = self.count_types();
        out.push((n32 % 256) as u8);
        out.push(((n32 / 256) % 256) as u8);
        out.push(((n32 / 0x10000) % 256) as u8);
        proof {
            assert(out@ =~= le24(self@.len() as int) + enc_concat(
                self@.take(0),
                sys_entry_enc(),
            ));
        }
        let list = self.as_inner();
        let n = list.len();
        let mut i: usize = 0;
        while i < n
            invariant
                0 <= i <= n,
                n == list@.len(),
                crate::typesys::sys_view(list@) == self@,
                n == self@.len(),
                out@ == le24(self@.len() as int) + enc_concat(
                    self@.take(i as int),
                    sys_entry_enc(),
                ),
            decreases n - i,
        {
            let ghost o0 = out@;
            write_fqid(&mut out, &list[i].0);
            write_ty(&mut out, &list[i].1);
            proof {
                assert(self@[i as int] == (list@[i as int].0@, list@[i as int].1@));
                assert(out@ =~= o0 + sys_entry_enc()(self@[i as int]));
                lemma_enc_concat_push(self@.take(i as int), sys_entry_enc(), self@[i as int]);
                assert(self@.take(i as int).push(self@[i as int]) =~= self@.take(i as int + 1));
                assert(out@ =~= le24(self@.len() as int) + enc_concat(
                    self@.take(i as int + 1),
                    sys_entry_enc(),
                ));
            }
            i += 1;
        }
        proof {
            assert(self@.take(n as int) =~= self@);
        }
        if out.len() > 0xFFFFFF {
            return Err(OversizedBlob { len: out.len() });
        }
        Ok(out)
    }
}

/// The base64 text of the given bytes, standard alphabet with padding.
pub uninterp spec fn base64_of(data: Seq<u8>) -> Seq<char>;

/// Relies on `base64::engine::general_purpose::STANDARD` through
/// `base64::Engine::encode`: the text is a function of the input bytes
/// alone, four characters per three-byte group (the last group padded),
/// all characters ASCII.
#[verifier::external_body]
pub(crate) fn base64_text(data: &[u8]) -> (r: String)
    ensures
        r@ == base64_of(data@),
        r@.len() == 4 * ((data@.len() + 2) / 3),
        forall|i: int| 0 <= i < r@.len() ==> '\0' <= #[trigger] r@[i] < '\u{7f}',
{
    base64::Engine::encode(&base64::engine::general_purpose::STANDARD, data)
}

/// Text wrapped at 76 columns: each full 76-character line, then the
/// remainder, each with its line break.
pub open spec fn wrap76(s: Seq<char>) -> Seq<char>
    decreases s.len(),
{
    if s.len() >= 76 {
        s.take(76) + seq!['\n'] + wrap76(s.skip(76))
    } else {
        s + seq!['\n']
    }
}

/// The head of the armored envelope for a given system identity:
/// header line, identity line, checksum line, blank line.
pub open spec fn armored_head_text(id: Seq<u8>) -> Seq<char> {
    "----- BEGIN STRICT TYPE SYSTEM -----\n"@ + "Id: "@ + base58_of(id) + seq!['\n']
        + "Checksum: "@ + mnemonic_of(id) + seq!['\n'] + seq!['\n']
}

/// The armored text of a system: its head, the wrapped base64 body, and
/// the footer.
pub open spec fn armored_text(s: Seq<(TypeFqidV, TyV)>) -> Seq<char> {
    armored_head_text(sys_id_spec(s)) + wrap76(base64_of(enc_sys(s)))
        + "\n----- END STRICT TYPE SYSTEM -----\n"@
}

impl TypeSystem {
    /// The armored text envelope of this system, when its blob fits the
    /// cap.
    pub fn armored_string(&self) -> (r: Result<String, OversizedBlob>)
        requires
            self.wf(),
            crate::typesys::sys_complete(self@),
        ensures
            r is Ok <==> enc_sys(self@).len() <= 0xFFFFFF,
            r matches Ok(t) ==> t@ == armored_text(self@),
    {
        let data = match self.to_strict_serialized() {
            Ok(d) => d,
            Err(e) => {
                return Err(e);
            },
        };
        let id = self.id();
        Ok(assemble_armor(&data, &id, Ghost(self@)))
    }
}

/// Builds the envelope text around an already-serialized system.
#[verifier::rlimit(100)]
#[verifier::spinoff_prover]
fn assemble_armor(
    data: &Vec<u8>,
    id: &TypeLibId,
    sv: Ghost<Seq<(TypeFqidV, TyV)>>,
) -> (r: String)
    requires
        id@ == sys_id_spec(sv@),
        data@ == enc_sys(sv@),
        data@.len() <= 0xFFFFFF,
    ensures
        r@ == armored_text(sv@),
{
    let idt = id.to_text();
    let mn = id.mnemonic();
    let mut s = armored_head(idt.as_str(), mn.as_str());
    proof {
        assert(s@ == armored_head_text(sys_id_spec(sv@)));
    }
    let body = base64_text(data.as_slice());
    let bstr = body.as_str();
    proof {
        assert(vstd::string::is_ascii(bstr)) by {
            assert forall|i: int|
                0 <= i < body@.len() implies '\0' <= #[trigger] body@[i] <= '\u{7f}' by {}
        }
    }
    let wrapped = wrap76_text(bstr);
    s.append(wrapped.as_str());
    s.append("\n----- END STRICT TYPE SYSTEM -----\n");
    proof {
        assert(s@ == armored_text(sv@));
    }
    s
}

/// The head of the armored envelope, through the blank line before the
/// body.
fn armored_head(idt: &str, mn: &str) -> (r: String)
    ensures
        r@ == "----- BEGIN STRICT TYPE SYSTEM -----\n"@ + "Id: "@ + idt@ + seq!['\n']
            + "Checksum: "@ + mn@ + seq!['\n'] + seq!['\n'],
{
    proof {
        reveal_strlit("----- BEGIN STRICT TYPE SYSTEM -----\n");
        reveal_strlit("Id: ");
        reveal_strlit("Checksum: ");
        reveal_strlit("\n");
    }
    let mut s = String::from_str("----- BEGIN STRICT TYPE SYSTEM -----\n");
    s.append("Id: ");
    s.append(idt);
    s.append("\n");
    s.append("Checksum: ");
    s.append(mn);
    s.append("\n");
    s.append("\n");
    proof {
        assert("\n"@ =~= seq!['\n']);
        assert(s@ =~= "----- BEGIN STRICT TYPE SYSTEM -----\n"@ + "Id: "@ + idt@ + seq!['\n']
            + "Checksum: "@ + mn@ + seq!['\n'] + seq!['\n']);
    }
    s
}

/// The body text wrapped at 76 columns, each line broken.
fn wrap76_text(bstr: &str) -> (r: String)
    requires
        vstd::string::is_ascii(bstr),
        bstr@.len() <= usize::MAX,
    ensures
        r@ == wrap76(bstr@),
{
    proof {
        vstd::utf8::is_ascii_chars_encode_utf8(bstr@);
    }
    let blen = bstr.len();
    let mut s = String::new();
    let mut pos: usize = 0;
    proof {
        assert(bstr@.skip(0) =~= bstr@);
        assert(s@ + wrap76(bstr@) =~= wrap76(bstr@));
    }
    while blen - pos >= 76
        invariant
            0 <= pos <= blen,
            blen == bstr@.len(),
            vstd::string::is_ascii(bstr),
            s@ + wrap76(bstr@.skip(pos as int)) == wrap76(bstr@),
        decreases blen - pos,
    {
        let line = bstr.substring_ascii(pos, pos + 76);
        s.append(line);
        s.append("\n");
        proof {
            reveal_strlit("\n");
            assert(bstr@.skip(pos as int).take(76) =~= bstr@.subrange(pos as int, pos as int + 76));
            assert(bstr@.skip(pos as int).skip(76) =~= bstr@.skip(pos as int + 76));
            assert(wrap76(bstr@.skip(pos as int)) == bstr@.skip(pos as int).take(76) + seq!['\n']
                + wrap76(bstr@.skip(pos as int + 76)));
            assert(s@ + wrap76(bstr@.skip(pos as int + 76)) =~= wrap76(bstr@));
        }
        pos += 76;
    }
    let tail = bstr.substring_ascii(pos, blen);
    s.append(tail);
    s.append("\n");
    proof {
        reveal_strlit("\n");
        assert(bstr@.skip(pos as int).len() < 76);
        assert(wrap76(bstr@.skip(pos as int)) == bstr@.skip(pos as int) + seq!['\n']);
        assert(bstr@.subrange(pos as int, blen as int) =~= bstr@.skip(pos as int));
        assert(s@ =~= wrap76(bstr@));
    }
    s
}

/// Well-formedness of a fully-qualified identity's shape: a 32-byte
/// identity, and valid names in the label when one is there.
pub open spec fn wf_fqid(f: TypeFqidV) -> bool {
    &&& f.id.len() == 32
    &&& (f.fqn matches Some(q) ==> crate::ident::wf_ident(q.lib) && crate::ident::wf_ident(
        q.name,
    ))
}

/// A 24-bit count from three little-endian bytes.
pub open spec fn dec_u24(s: Seq<u8>, pos: int) -> Result<(u32, int), DecodeError> {
    if 0 <= pos && pos + 3 <= s.len() {
        Ok(
            (
                (s[pos] + 256 * (s[pos + 1] as int) + 0x10000 * (s[pos + 2] as int)) as u32,
                pos + 3,
            ),
        )
    } else {
        Err(DecodeError::UnexpectedEnd)
    }
}

/// A fully-qualified identity: the raw identity, then its optional
/// label under a one-byte presence flag.
pub open spec fn dec_fqid(s: Seq<u8>, pos: int) -> Result<(TypeFqidV, int), DecodeError> {
    match crate::decode::dec_semid(s, pos) {
        Ok((id, p1)) => match crate::decode::dec_u8(s, p1) {
            Ok((flag, p2)) => if flag == 0 {
                Ok((TypeFqidV { id, fqn: None }, p2))
            } else if flag == 1 {
                match crate::decode::dec_ident(s, p2) {
                    Ok((lib, p3)) => match crate::decode::dec_ident(s, p3) {
                        Ok((name, p4)) => Ok(
                            (
                                TypeFqidV {
                                    id,
                                    fqn: Some(crate::typesys::TypeFqnV { lib, name }),
                                },
                                p4,
                            ),
                        ),
                        Err(e) => Err(e),
                    },
                    Err(e) => Err(e),
                }
            } else {
                Err(DecodeError::UnknownCls(flag))
            },
            Err(e) => Err(e),
        },
        Err(e) => Err(e),
    }
}

/// `n` system members in strictly ascending fully-qualified identity
/// order, gathered onto `acc`.
pub open spec fn dec_sys_entries(
    s: Seq<u8>,
    pos: int,
    n: int,
    prev: Option<TypeFqidV>,
    acc: Seq<(TypeFqidV, TyV)>,
) -> Result<(Seq<(TypeFqidV, TyV)>, int), DecodeError>
    decreases n,
{
    if n <= 0 {
        Ok((acc, pos))
    } else {
        match dec_fqid(s, pos) {
            Ok((f, p1)) => if !(match prev {
                Option::None => true,
                Option::Some(p) => crate::typesys::fqid_lt(p, f),
            }) {
                Err(DecodeError::WrongOrder)
            } else {
                match crate::decode::dec_ty(s, p1) {
                    Ok((t, p2)) => dec_sys_entries(s, p2, n - 1, Some(f), acc.push((f, t))),
                    Err(e) => Err(e),
                }
            },
            Err(e) => Err(e),
        }
    }
}

/// A whole byte string as one serialized system: the count, the
/// members, then nothing.
pub open spec fn dec_sys_full(s: Seq<u8>) -> Result<Seq<(TypeFqidV, TyV)>, DecodeError> {
    match dec_u24(s, 0) {
        Ok((n, p1)) => match dec_sys_entries(s, p1, n as int, None, Seq::empty()) {
            Ok((es, end)) => if end == s.len() {
                Ok(es)
            } else {
                Err(DecodeError::TrailingData)
            },
            Err(e) => Err(e),
        },
        Err(e) => Err(e),
    }
}

/// Parsing back three little-endian count bytes.
pub proof fn lemma_dec_u24_of_le24(s: Seq<u8>, pos: int, n: int)
    requires
        0 <= pos,
        0 <= n < 0x1000000,
        pos + 3 <= s.len(),
        s.subrange(pos, pos + 3) == le24(n),
    ensures
        dec_u24(s, pos) == Ok::<(u32, int), DecodeError>((n as u32, pos + 3)),
{
    assert forall|k: int| 0 <= k < 3 implies s[pos + k] == le24(n)[k] by {
        assert(s.subrange(pos, pos + 3)[k] == le24(n)[k]);
    }
    let m = n as u32;
    assert((m % 256) as int + 256 * (((m / 256) % 256) as int) + 0x10000 * (((m / 0x10000) % 256)
        as int) == m || m >= 0x1000000) by (bit_vector);
    assert((n % 256) == (m % 256) as int);
    assert(((n / 256) % 256) == ((m / 256) % 256) as int);
    assert(((n / 0x10000) % 256) == ((m / 0x10000) % 256) as int);
}

/// Parsing back an encoded fully-qualified identity.
pub proof fn lemma_dec_fqid_of_enc(s: Seq<u8>, pos: int, f: TypeFqidV)
    requires
        0 <= pos,
        pos + enc_fqid(f).len() <= s.len(),
        s.subrange(pos, pos + enc_fqid(f).len()) == enc_fqid(f),
        wf_fqid(f),
    ensures
        dec_fqid(s, pos) == Ok::<(TypeFqidV, int), DecodeError>((f, pos + enc_fqid(f).len())),
{
    match f.fqn {
        None => {
            assert(enc_fqid(f) == f.id + seq![0u8]);
            crate::decode::lemma_slice_parts(s, pos, f.id, seq![0u8]);
            crate::decode::lemma_dec_semid_of_enc(s, pos, f.id);
            assert(s[pos + 32] == 0) by {
                assert(s.subrange(pos + 32, pos + 33)[0] == s[pos + 32]);
            }
            assert((TypeFqidV { id: f.id, fqn: None }) == f);
        },
        Some(q) => {
            let tail = seq![1u8] + enc_ident(q.lib) + enc_ident(q.name);
            assert(enc_fqid(f) == f.id + tail);
            crate::decode::lemma_slice_parts(s, pos, f.id, tail);
            crate::decode::lemma_dec_semid_of_enc(s, pos, f.id);
            let p1 = pos + 32;
            assert(tail =~= seq![1u8] + (enc_ident(q.lib) + enc_ident(q.name)));
            crate::decode::lemma_slice_parts(s, p1, seq![1u8], enc_ident(q.lib) + enc_ident(
                q.name,
            ));
            assert(s[p1] == 1) by {
                assert(s.subrange(p1, p1 + 1)[0] == s[p1]);
            }
            crate::decode::lemma_slice_parts(s, p1 + 1, enc_ident(q.lib), enc_ident(q.name));
            crate::decode::lemma_dec_ident_of_enc(s, p1 + 1, q.lib);
            crate::decode::lemma_dec_ident_of_enc(s, p1 + 1 + enc_ident(q.lib).len(), q.name);
            assert((TypeFqidV { id: f.id, fqn: Some(crate::typesys::TypeFqnV { lib: q.lib, name: q.name }) })
                == f);
        },
    }
}

/// Parsing back an encoded run of system members.
pub proof fn lemma_dec_sys_entries_of_enc(
    s: Seq<u8>,
    pos: int,
    entries: Seq<(TypeFqidV, TyV)>,
    prev: Option<TypeFqidV>,
    acc: Seq<(TypeFqidV, TyV)>,
)
    requires
        0 <= pos,
        pos + enc_concat(entries, sys_entry_enc()).len() <= s.len(),
        s.subrange(pos, pos + enc_concat(entries, sys_entry_enc()).len()) == enc_concat(
            entries,
            sys_entry_enc(),
        ),
        forall|i: int| 0 <= i < entries.len() ==> wf_fqid((#[trigger] entries[i]).0),
        forall|i: int| 0 <= i < entries.len() ==> crate::ty::wf_ty((#[trigger] entries[i]).1),
        prev matches Some(p) ==> forall|i: int|
            0 <= i < entries.len() ==> crate::typesys::fqid_lt(p, (#[trigger] entries[i]).0),
        forall|i: int, j: int|
            0 <= i < j < entries.len() ==> crate::typesys::fqid_lt(
                (#[trigger] entries[i]).0,
                (#[trigger] entries[j]).0,
            ),
    ensures
        dec_sys_entries(s, pos, entries.len() as int, prev, acc) == Ok::<
            (Seq<(TypeFqidV, TyV)>, int),
            DecodeError,
        >((acc + entries, pos + enc_concat(entries, sys_entry_enc()).len())),
    decreases entries.len(),
{
    let f = sys_entry_enc();
    if entries.len() == 0 {
        assert(acc + entries =~= acc);
    } else {
        let e = entries[0];
        let rest = entries.drop_first();
        assert(enc_concat(entries, f) == f(entries[0]) + enc_concat(rest, f));
        assert(f(e) == enc_fqid(e.0) + enc_ty(e.1));
        crate::decode::lemma_slice_parts(s, pos, enc_fqid(e.0) + enc_ty(e.1), enc_concat(rest, f));
        crate::decode::lemma_slice_parts(s, pos, enc_fqid(e.0), enc_ty(e.1));
        lemma_dec_fqid_of_enc(s, pos, e.0);
        let p1 = pos + enc_fqid(e.0).len();
        crate::decode::lemma_dec_ty_of_enc(s, p1, e.1);
        let p2 = p1 + enc_ty(e.1).len();
        assert forall|i: int| 0 <= i < rest.len() implies wf_fqid((#[trigger] rest[i]).0)
            && crate::ty::wf_ty(rest[i].1) && crate::typesys::fqid_lt(e.0, rest[i].0) by {
            assert(rest[i] == entries[i + 1]);
        }
        assert forall|a: int, b: int| 0 <= a < b < rest.len() implies crate::typesys::fqid_lt(
            (#[trigger] rest[a]).0,
            (#[trigger] rest[b]).0,
        ) by {
            assert(rest[a] == entries[a + 1]);
            assert(rest[b] == entries[b + 1]);
        }
        lemma_dec_sys_entries_of_enc(s, p2, rest, Some(e.0), acc.push(e));
        assert(acc.push(e) + rest =~= acc + entries);
    }
}

/// The round-trip law at the persisted-form level: the serialized form
/// of any canonical system of well-formed members parses back to
/// exactly those members, consuming the whole input.
pub proof fn lemma_sys_round_trip(entries: Seq<(TypeFqidV, TyV)>)
    requires
        entries.len() <= 0xFFFFFF,
        forall|i: int| 0 <= i < entries.len() ==> wf_fqid((#[trigger] entries[i]).0),
        forall|i: int| 0 <= i < entries.len() ==> crate::ty::wf_ty((#[trigger] entries[i]).1),
        forall|i: int, j: int|
            0 <= i < j < entries.len() ==> crate::typesys::fqid_lt(
                (#[trigger] entries[i]).0,
                (#[trigger] entries[j]).0,
            ),
    ensures
        dec_sys_full(enc_sys(entries)) == Ok::<Seq<(TypeFqidV, TyV)>, DecodeError>(entries),
{
    let s = enc_sys(entries);
    let body = enc_concat(entries, sys_entry_enc());
    assert(s == le24(entries.len() as int) + body);
    assert(s.subrange(0, s.len() as int) =~= s);
    crate::decode::lemma_slice_parts(s, 0, le24(entries.len() as int), body);
    lemma_dec_u24_of_le24(s, 0, entries.len() as int);
    lemma_dec_sys_entries_of_enc(s, 3, entries, None, Seq::empty());
    assert(Seq::<(TypeFqidV, TyV)>::empty() + entries =~= entries);
}

/// Reads a 24-bit member count.
fn rd_u24(s: &[u8], pos: usize) -> (r: Result<(u32, usize), DecodeError>)
    requires
        pos <= s@.len(),
    ensures
        r matches Ok(v) ==> dec_u24(s@, pos as int) == Ok::<(u32, int), DecodeError>(
            (v.0, v.1 as int),
        ) && v.1 <= s@.len() && v.0 < 0x1000000,
        r matches Err(e) ==> dec_u24(s@, pos as int) == Err::<(u32, int), DecodeError>(e),
{
    if s.len() - pos < 3 {
        return Err(DecodeError::UnexpectedEnd);
    }
    let v: u32 = s[pos] as u32 + 256 * (s[pos + 1] as u32) + 0x10000 * (s[pos + 2] as u32);
    Ok((v, pos + 3))
}

/// Reads a fully-qualified identity.
fn rd_fqid(s: &[u8], pos: usize) -> (r: Result<(TypeFqid, usize), DecodeError>)
    requires
        pos <= s@.len(),
    ensures
        r matches Ok(v) ==> dec_fqid(s@, pos as int) == Ok::<(TypeFqidV, int), DecodeError>(
            (v.0@, v.1 as int),
        ) && v.1 <= s@.len(),
        r matches Err(e) ==> dec_fqid(s@, pos as int) == Err::<(TypeFqidV, int), DecodeError>(e),
{
    match crate::decode::rd_semid(s, pos) {
        Ok((id, p1)) => match crate::decode::rd_u8(s, p1) {
            Ok((flag, p2)) => if flag == 0 {
                Ok((TypeFqid::unnamed(id), p2))
            } else if flag == 1 {
                match crate::decode::rd_ident(s, p2) {
                    Ok((lib, p3)) => match crate::decode::rd_ident(s, p3) {
                        Ok((name, p4)) => Ok((TypeFqid::named(id, lib, name), p4)),
                        Err(e) => Err(e),
                    },
                    Err(e) => Err(e),
                }
            } else {
                Err(DecodeError::UnknownCls(flag))
            },
            Err(e) => Err(e),
        },
        Err(e) => Err(e),
    }
}

impl TypeSystem {
    /// Parses a serialized system back: exactly the decoder's parse of
    /// the bytes, rejecting members out of canonical order and trailing
    /// data. Together with the persisted-form round-trip law this gives
    /// back exactly what `to_strict_serialized` wrote.
    pub fn from_strict_serialized(s: &[u8]) -> (r: Result<TypeSystem, DecodeError>)
        ensures
            r matches Ok(sys) ==> dec_sys_full(s@) == Ok::<Seq<(TypeFqidV, TyV)>, DecodeError>(
                sys@,
            ) && sys.wf(),
            r matches Err(e) ==> dec_sys_full(s@) == Err::<Seq<(TypeFqidV, TyV)>, DecodeError>(e),
    {
        let (n, p1) = match rd_u24(s, 0) {
            Ok(v) => v,
            Err(e) => {
                return Err(e);
            },
        };
        let ghost target = dec_sys_entries(s@, p1 as int, n as int, None, Seq::empty());
        let mut acc: Vec<(TypeFqid, Ty)> = Vec::new();
        let mut pos: usize = p1;
        let mut prev: Option<TypeFqid> = None;
        proof {
            assert(crate::typesys::sys_view(acc@) =~= Seq::<(TypeFqidV, TyV)>::empty());
        }
        let mut i: u32 = 0;
        while i < n
            invariant
                0 <= i <= n,
                n < 0x1000000,
                pos <= s@.len(),
                p1 <= s@.len(),
                dec_u24(s@, 0) == Ok::<(u32, int), DecodeError>((n, p1 as int)),
                target == dec_sys_entries(s@, p1 as int, n as int, None, Seq::empty()),
                acc@.len() == i,
                prev is None ==> i == 0 && target == dec_sys_entries(
                    s@,
                    pos as int,
                    n as int - i as int,
                    None,
                    crate::typesys::sys_view(acc@),
                ),
                prev matches Some(p) ==> target == dec_sys_entries(
                    s@,
                    pos as int,
                    n as int - i as int,
                    Some(p@),
                    crate::typesys::sys_view(acc@),
                ),
                prev matches Some(p) ==> forall|k: int|
                    0 <= k < acc@.len() ==> ((#[trigger] crate::typesys::sys_view(acc@)[k]).0
                        == p@ || crate::typesys::fqid_lt(
                        crate::typesys::sys_view(acc@)[k].0,
                        p@,
                    )),
                forall|a: int, b: int|
                    0 <= a < b < acc@.len() ==> crate::typesys::fqid_lt(
                        (#[trigger] crate::typesys::sys_view(acc@)[a]).0,
                        (#[trigger] crate::typesys::sys_view(acc@)[b]).0,
                    ),
            decreases n - i,
        {
            let (fqid, p2) = match rd_fqid(s, pos) {
                Ok(v) => v,
                Err(e) => {
                    return Err(e);
                },
            };
            let in_order = match &prev {
                None => true,
                Some(p) => {
                    let c = p.cmp_fqid(&fqid);
                    c == -1
                },
            };
            if !in_order {
                return Err(DecodeError::WrongOrder);
            }
            let (ty, p3) = match crate::decode::rd_ty(s, p2) {
                Ok(v) => v,
                Err(e) => {
                    return Err(e);
                },
            };
            let ghost acc0 = crate::typesys::sys_view(acc@);
            let ghost prev0 = prev;
            let new_key = fqid.clone();
            acc.push((fqid, ty));
            proof {
                assert(crate::typesys::sys_view(acc@) =~= acc0.push((new_key@, ty@)));
                assert forall|k: int|
                    0 <= k < crate::typesys::sys_view(acc@).len() implies ((
                #[trigger] crate::typesys::sys_view(acc@)[k]).0 == new_key@
                    || crate::typesys::fqid_lt(
                    crate::typesys::sys_view(acc@)[k].0,
                    new_key@,
                )) by {
                    if k < acc0.len() {
                        assert(crate::typesys::sys_view(acc@)[k] == acc0[k]);
                        let p = prev0.unwrap();
                        if acc0[k].0 == p@ {
                        } else {
                            crate::typesys::lemma_fqid_trans(acc0[k].0, p@, new_key@);
                        }
                    }
                }
                assert forall|a: int, b: int|
                    0 <= a < b < crate::typesys::sys_view(acc@).len() implies crate::typesys::fqid_lt(
                    (#[trigger] crate::typesys::sys_view(acc@)[a]).0,
                    (#[trigger] crate::typesys::sys_view(acc@)[b]).0,
                ) by {
                    if b < acc0.len() {
                        assert(crate::typesys::sys_view(acc@)[a] == acc0[a]);
                        assert(crate::typesys::sys_view(acc@)[b] == acc0[b]);
                    } else {
                        assert(crate::typesys::sys_view(acc@)[b] == (new_key@, ty@));
                        assert(crate::typesys::sys_view(acc@)[a] == acc0[a]);
                        let p = prev0.unwrap();
                        if acc0[a].0 == p@ {
                        } else {
                            crate::typesys::lemma_fqid_trans(acc0[a].0, p@, new_key@);
                        }
                    }
                }
            }
            pos = p3;
            prev = Some(new_key);
            i = i + 1;
        }
        if pos != s.len() {
            return Err(DecodeError::TrailingData);
        }
        let sys = TypeSystem::from_sorted_entries(acc);
        Ok(sys)
    }
}

impl TypeSystem {
    /// The serialized blob's byte length, reported without allocating
    /// the output: the count-only mode for size-limit checks.
    pub fn serialized_len(&self) -> (r: u64)
        requires
            self.wf(),
        ensures
            r == enc_sys(self@).len(),
    {
        let list = self.as_inner();
        let n = list.len();
        let mut acc: u64 = 3;
        proof {
            assert(enc_concat(self@.take(0), sys_entry_enc()) == Seq::<u8>::empty());
        }
        let mut i: usize = 0;
        while i < n
            invariant
                0 <= i <= n,
                n == list@.len(),
                crate::typesys::sys_view(list@) == self@,
                n == self@.len(),
                n <= 0xFFFFFF,
                acc == 3 + enc_concat(self@.take(i as int), sys_entry_enc()).len(),
                acc <= 3 + i * 66000,
            decreases n - i,
        {
            proof {
                assert(self@[i as int] == (list@[i as int].0@, list@[i as int].1@));
            }
            let fqid_len: u64 = match &list[i].0.fqn {
                None => 33,
                Some(q) => {
                    q.lib.wf_witness();
                    q.name.wf_witness();
                    let ll = q.lib.len();
                    let nl = q.name.len();
                    35 + ll as u64 + nl as u64
                },
            };
            proof {
                assert(fqid_len == enc_fqid(self@[i as int].0).len());
            }
            let ty_len = list[i].1.serialized_len();
            proof {
                lemma_enc_concat_push(self@.take(i as int), sys_entry_enc(), self@[i as int]);
                assert(self@.take(i as int).push(self@[i as int]) =~= self@.take(i as int + 1));
                assert(sys_entry_enc()(self@[i as int]) == enc_fqid(self@[i as int].0) + enc_ty(
                    self@[i as int].1,
                ));
            }
            acc = acc + fqid_len + ty_len as u64;
            i += 1;
        }
        proof {
            assert(self@.take(n as int) =~= self@);
        }
        acc
    }
}

} // verus!
