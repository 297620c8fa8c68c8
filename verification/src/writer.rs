//! The byte-stream writer machinery: a limit-counting sink, the strict
//! writer over it, and the typed writer interfaces through which
//! entities put their canonical bytes down.

use vstd::prelude::*;
use crate::decode::{dec_ty, DecodeError};
use crate::encode::enc_ty;
use crate::ident::Ident;
use crate::ty::{Ty, TyV};

verus! {

/// Writing past the sink's limit: the count the write would have grown
/// from, against the limit.
#[derive(Clone, Copy, PartialEq, Eq, Structural, Debug)]
pub struct WriteError {
    pub count: usize,
    pub limit: usize,
}

/// A byte sink that counts what flows through it and refuses to take
/// more than a limit. The count starts at zero whatever the wrapped
/// sink already holds: the limit bounds bytes written through the
/// wrapper, not the sink's total content. No silent truncation: an
/// overfull write fails whole and leaves the sink untouched.
#[derive(PartialEq, Eq, Debug)]
pub struct CountingWriter {
    count: usize,
    limit: usize,
    writer: Vec<u8>,
}

impl View for CountingWriter {
    type V = Seq<u8>;

    closed spec fn view(&self) -> Seq<u8> {
        self.writer@
    }
}

impl CountingWriter {
    /// The sink's limit on written-through bytes.
    pub closed spec fn limit_spec(&self) -> int {
        self.limit as int
    }

    /// The bytes written through the wrapper so far.
    pub closed spec fn count_spec(&self) -> int {
        self.count as int
    }

    /// Wraps `writer` with a byte limit. The count starts at zero; what
    /// the sink already holds stays and is not charged against the
    /// limit.
    pub fn with(limit: usize, writer: Vec<u8>) -> (r: CountingWriter)
        ensures
            r@ == writer@,
            r.limit_spec() == limit,
            r.count_spec() == 0,
    {
        CountingWriter { count: 0, limit, writer }
    }

    /// Gives the sink back.
    pub fn unbox(self) -> (r: Vec<u8>)
        ensures
            r@ == self@,
    {
        self.writer
    }

    /// Number of bytes written through the wrapper so far.
    pub fn count(&self) -> (r: usize)
        ensures
            r == self.count_spec(),
    {
        self.count
    }

    /// Takes all of `buf`, or fails whole — leaving the sink and the
    /// count untouched — when that would pass the limit.
    pub fn write(&mut self, buf: &[u8]) -> (r: Result<(), WriteError>)
        ensures
            r is Ok <==> old(self).count_spec() + buf@.len() <= old(self).limit_spec(),
            r is Ok ==> final(self)@ == old(self)@ + buf@ && final(self).count_spec() == old(self).count_spec() + buf@.len(),
            r matches Err(e) ==> final(self)@ == old(self)@ && final(self).count_spec() == old(self).count_spec() && e == (WriteError {
                count: old(self).count_spec() as usize,
                limit: old(self).limit_spec() as usize,
            }),
            final(self).limit_spec() == old(self).limit_spec(),
    {
        if self.count > self.limit || buf.len() > self.limit - self.count {
            return Err(WriteError { count: self.count, limit: self.limit });
        }
        let mut i: usize = 0;
        let n = buf.len();
        let ghost w0 = self.writer@;
        while i < n
            invariant
                0 <= i <= n,
                n == buf@.len(),
                self.writer@ == w0 + buf@.take(i as int),
                self.count == old(self).count,
                self.limit == old(self).limit,
            decreases n - i,
        {
            self.writer.push(buf[i]);
            proof {
                assert(self.writer@ =~= w0 + buf@.take(i as int + 1));
            }
            i += 1;
        }
        proof {
            assert(buf@.take(n as int) =~= buf@);
        }
        self.count = self.count + n;
        Ok(())
    }
}

/// The strict-encoding writer: a counting sink under the canonical byte
/// discipline.
#[derive(PartialEq, Eq, Debug)]
pub struct StrictWriter {
    inner: CountingWriter,
}

impl View for StrictWriter {
    type V = Seq<u8>;

    closed spec fn view(&self) -> Seq<u8> {
        self.inner@
    }
}

impl StrictWriter {
    /// The writer's limit on written-through bytes.
    pub closed spec fn limit_spec(&self) -> int {
        self.inner.limit_spec()
    }

    /// The bytes written through the writer so far.
    pub closed spec fn count_spec(&self) -> int {
        self.inner.count_spec()
    }

    /// A writer into fresh memory, capped at `limit` bytes.
    pub fn in_memory(limit: usize) -> (r: StrictWriter)
        ensures
            r@ == Seq::<u8>::empty(),
            r.limit_spec() == limit,
            r.count_spec() == 0,
    {
        let v: Vec<u8> = Vec::new();
        let r = StrictWriter { inner: CountingWriter::with(limit, v) };
        proof {
            assert(r@ =~= Seq::<u8>::empty());
        }
        r
    }

    /// Wraps an existing sink with a limit on written-through bytes.
    pub fn with(limit: usize, writer: Vec<u8>) -> (r: StrictWriter)
        ensures
            r@ == writer@,
            r.limit_spec() == limit,
            r.count_spec() == 0,
    {
        StrictWriter { inner: CountingWriter::with(limit, writer) }
    }

    /// Gives the written bytes back.
    pub fn unbox(self) -> (r: Vec<u8>)
        ensures
            r@ == self@,
    {
        self.inner.unbox()
    }

    /// Number of bytes written through the writer so far.
    pub fn count(&self) -> (r: usize)
        ensures
            r == self.count_spec(),
    {
        self.inner.count()
    }

    /// Appends raw bytes under the limit, or fails whole leaving the
    /// sink untouched.
    pub fn write_raw(&mut self, buf: &[u8]) -> (r: Result<(), WriteError>)
        ensures
            r is Ok <==> old(self).count_spec() + buf@.len() <= old(self).limit_spec(),
            r is Ok ==> final(self)@ == old(self)@ + buf@ && final(self).count_spec() == old(self).count_spec() + buf@.len(),
            r matches Err(e) ==> final(self)@ == old(self)@ && final(self).count_spec() == old(self).count_spec() && e == (WriteError {
                count: old(self).count_spec() as usize,
                limit: old(self).limit_spec() as usize,
            }),
            final(self).limit_spec() == old(self).limit_spec(),
    {
        self.inner.write(buf)
    }
}

/// An entity able to put its canonical byte form down a strict writer.
pub trait StrictEncode {
    /// The entity's canonical byte form.
    spec fn encoded(&self) -> Seq<u8>;

    /// Appends the canonical byte form, or fails whole — leaving the
    /// writer untouched — when it would pass the writer's limit.
    fn strict_encode(&self, writer: &mut StrictWriter) -> (r: Result<(), WriteError>)
        ensures
            r is Ok <==> old(writer).count_spec() + self.encoded().len() <= old(writer).limit_spec(),
            r is Ok ==> final(writer)@ == old(writer)@ + self.encoded() && final(writer).count_spec() == old(writer).count_spec() + self.encoded().len(),
            r is Err ==> final(writer)@ == old(writer)@ && final(writer).count_spec() == old(writer).count_spec(),
            final(writer).limit_spec() == old(writer).limit_spec(),
    ;
}

impl StrictEncode for Ty {
    open spec fn encoded(&self) -> Seq<u8> {
        enc_ty(self@)
    }

    fn strict_encode(&self, writer: &mut StrictWriter) -> (r: Result<(), WriteError>) {
        let bytes = self.to_canonical_bytes();
        match writer.write_raw(bytes.as_slice()) {
            Ok(()) => Ok(()),
            Err(e) => Err(e),
        }
    }
}

/// An entity able to parse itself back from its canonical byte form.
pub trait StrictDecode: Sized {
    /// What a successful parse at `pos` means: the value and the
    /// position after it.
    spec fn decodes(bytes: Seq<u8>, pos: int, v: Self, end: int) -> bool;

    /// Parses one value at `pos`.
    fn strict_decode(bytes: &[u8], pos: usize) -> (r: Result<(Self, usize), DecodeError>)
        requires
            pos <= bytes@.len(),
        ensures
            r matches Ok(v) ==> Self::decodes(bytes@, pos as int, v.0, v.1 as int),
    ;
}

impl StrictDecode for Ty {
    open spec fn decodes(bytes: Seq<u8>, pos: int, v: Ty, end: int) -> bool {
        dec_ty(bytes, pos) == Ok::<(TyV, int), DecodeError>((v@, end))
    }

    fn strict_decode(bytes: &[u8], pos: usize) -> (r: Result<(Ty, usize), DecodeError>) {
        crate::decode::rd_ty(bytes, pos)
    }
}

/// The defining half of a struct layout: names its fields, in order,
/// before any value flows.
#[derive(PartialEq, Eq, Debug)]
pub struct StructDefiner {
    writer: StrictWriter,
    fields: Vec<Ident>,
}

impl StructDefiner {
    /// Opens a struct definition over the writer.
    pub fn start(writer: StrictWriter) -> (r: StructDefiner)
        ensures
            r.writer_view() == writer@,
            r.fields_view().len() == 0,
    {
        StructDefiner { writer, fields: Vec::new() }
    }

    /// The bytes written so far.
    pub closed spec fn writer_view(&self) -> Seq<u8> {
        self.writer@
    }

    /// The field names defined so far.
    pub closed spec fn fields_view(&self) -> Seq<Ident> {
        self.fields@
    }

    /// Names the next field.
    pub fn define_field(self, name: Ident) -> (r: StructDefiner)
        ensures
            r.writer_view() == self.writer_view(),
            r.fields_view() == self.fields_view().push(name),
    {
        let StructDefiner { writer, mut fields } = self;
        fields.push(name);
        StructDefiner { writer, fields }
    }

    /// Closes the definition, handing the writer on.
    pub fn complete(self) -> (r: StrictWriter)
        ensures
            r@ == self.writer_view(),
    {
        self.writer
    }
}

/// The writing half of a struct layout: fields flow in declaration
/// order, names checked off against nothing at this level.
#[derive(PartialEq, Eq, Debug)]
pub struct StructWriter {
    writer: StrictWriter,
}

impl StructWriter {
    /// Opens a struct write over the writer.
    pub fn start(writer: StrictWriter) -> (r: StructWriter)
        ensures
            r.writer_view() == writer@,
            r.writer_count() == writer.count_spec(),
            r.writer_limit() == writer.limit_spec(),
    {
        StructWriter { writer }
    }

    /// The bytes written so far.
    pub closed spec fn writer_view(&self) -> Seq<u8> {
        self.writer@
    }

    /// The writer's written-through count.
    pub closed spec fn writer_count(&self) -> int {
        self.writer.count_spec()
    }

    /// The writer's limit.
    pub closed spec fn writer_limit(&self) -> int {
        self.writer.limit_spec()
    }

    /// Writes the next field's value; fails whole when the value would
    /// pass the writer's limit.
    pub fn write_field<T: StrictEncode>(self, value: &T) -> (r: Result<
        StructWriter,
        WriteError,
    >)
        ensures
            r is Ok <==> self.writer_count() + value.encoded().len() <= self.writer_limit(),
            r matches Ok(w) ==> w.writer_view() == self.writer_view() + value.encoded()
                && w.writer_count() == self.writer_count() + value.encoded().len()
                && w.writer_limit() == self.writer_limit(),
    {
        let StructWriter { mut writer } = self;
        match value.strict_encode(&mut writer) {
            Ok(()) => Ok(StructWriter { writer }),
            Err(e) => Err(e),
        }
    }

    /// Closes the struct, handing the writer on.
    pub fn complete(self) -> (r: StrictWriter)
        ensures
            r@ == self.writer_view(),
    {
        self.writer
    }
}

/// The defining half of a tuple layout: counts its fields.
#[derive(PartialEq, Eq, Debug)]
pub struct TupleDefiner {
    writer: StrictWriter,
    arity: usize,
}

impl TupleDefiner {
    /// Opens a tuple definition over the writer.
    pub fn start(writer: StrictWriter) -> (r: TupleDefiner)
        ensures
            r.writer_view() == writer@,
            r.arity_spec() == 0,
    {
        TupleDefiner { writer, arity: 0 }
    }

    /// The bytes written so far.
    pub closed spec fn writer_view(&self) -> Seq<u8> {
        self.writer@
    }

    /// The number of fields defined so far.
    pub closed spec fn arity_spec(&self) -> int {
        self.arity as int
    }

    /// Defines the next field.
    pub fn define_field(self) -> (r: TupleDefiner)
        requires
            self.arity_spec() < usize::MAX,
        ensures
            r.writer_view() == self.writer_view(),
            r.arity_spec() == self.arity_spec() + 1,
    {
        let TupleDefiner { writer, arity } = self;
        TupleDefiner { writer, arity: arity + 1 }
    }

    /// Closes the definition, handing the writer on.
    pub fn complete(self) -> (r: StrictWriter)
        ensures
            r@ == self.writer_view(),
    {
        self.writer
    }
}

/// The writing half of a tuple layout.
#[derive(PartialEq, Eq, Debug)]
pub struct TupleWriter {
    writer: StrictWriter,
}

impl TupleWriter {
    /// Opens a tuple write over the writer.
    pub fn start(writer: StrictWriter) -> (r: TupleWriter)
        ensures
            r.writer_view() == writer@,
            r.writer_count() == writer.count_spec(),
            r.writer_limit() == writer.limit_spec(),
    {
        TupleWriter { writer }
    }

    /// The bytes written so far.
    pub closed spec fn writer_view(&self) -> Seq<u8> {
        self.writer@
    }

    /// The writer's written-through count.
    pub closed spec fn writer_count(&self) -> int {
        self.writer.count_spec()
    }

    /// The writer's limit.
    pub closed spec fn writer_limit(&self) -> int {
        self.writer.limit_spec()
    }

    /// Writes the next field's value; fails whole when the value would
    /// pass the writer's limit.
    pub fn write_field<T: StrictEncode>(self, value: &T) -> (r: Result<TupleWriter, WriteError>)
        ensures
            r is Ok <==> self.writer_count() + value.encoded().len() <= self.writer_limit(),
            r matches Ok(w) ==> w.writer_view() == self.writer_view() + value.encoded()
                && w.writer_count() == self.writer_count() + value.encoded().len()
                && w.writer_limit() == self.writer_limit(),
    {
        let TupleWriter { mut writer } = self;
        match value.strict_encode(&mut writer) {
            Ok(()) => Ok(TupleWriter { writer }),
            Err(e) => Err(e),
        }
    }

    /// Closes the tuple, handing the writer on.
    pub fn complete(self) -> (r: StrictWriter)
        ensures
            r@ == self.writer_view(),
    {
        self.writer
    }
}

/// The defining half of a union layout: names its variants.
#[derive(PartialEq, Eq, Debug)]
pub struct UnionDefiner {
    writer: StrictWriter,
    variants: Vec<Ident>,
}

impl UnionDefiner {
    /// Opens a union definition over the writer.
    pub fn start(writer: StrictWriter) -> (r: UnionDefiner)
        ensures
            r.writer_view() == writer@,
            r.variants_view().len() == 0,
    {
        UnionDefiner { writer, variants: Vec::new() }
    }

    /// The bytes written so far.
    pub closed spec fn writer_view(&self) -> Seq<u8> {
        self.writer@
    }

    /// The variant names defined so far.
    pub closed spec fn variants_view(&self) -> Seq<Ident> {
        self.variants@
    }

    /// Names the next variant.
    pub fn define_variant(self, name: Ident) -> (r: UnionDefiner)
        ensures
            r.writer_view() == self.writer_view(),
            r.variants_view() == self.variants_view().push(name),
    {
        let UnionDefiner { writer, mut variants } = self;
        variants.push(name);
        UnionDefiner { writer, variants }
    }

    /// Closes the definition, opening the writing half.
    pub fn complete(self) -> (r: UnionWriter)
        ensures
            r.writer_view() == self.writer_view(),
    {
        UnionWriter { writer: self.writer }
    }
}

/// The writing half of a union layout: one tagged variant flows.
#[derive(PartialEq, Eq, Debug)]
pub struct UnionWriter {
    writer: StrictWriter,
}

impl UnionWriter {
    /// Opens a union write over the writer.
    pub fn start(writer: StrictWriter) -> (r: UnionWriter)
        ensures
            r.writer_view() == writer@,
            r.writer_count() == writer.count_spec(),
            r.writer_limit() == writer.limit_spec(),
    {
        UnionWriter { writer }
    }

    /// The bytes written so far.
    pub closed spec fn writer_view(&self) -> Seq<u8> {
        self.writer@
    }

    /// The writer's written-through count.
    pub closed spec fn writer_count(&self) -> int {
        self.writer.count_spec()
    }

    /// The writer's limit.
    pub closed spec fn writer_limit(&self) -> int {
        self.writer.limit_spec()
    }

    /// Writes the chosen variant's tag and value; fails when either
    /// would pass the writer's limit.
    pub fn write_variant<T: StrictEncode>(self, tag: u8, value: &T) -> (r: Result<
        UnionWriter,
        WriteError,
    >)
        ensures
            r is Ok <==> self.writer_count() + 1 + value.encoded().len() <= self.writer_limit(),
            r matches Ok(w) ==> w.writer_view() == self.writer_view() + seq![tag]
                + value.encoded() && w.writer_count() == self.writer_count() + 1
                + value.encoded().len() && w.writer_limit() == self.writer_limit(),
    {
        let UnionWriter { mut writer } = self;
        let tag_buf: [u8; 1] = [tag];
        proof {
            assert(tag_buf@ =~= seq![tag]);
        }
        match writer.write_raw(tag_buf.as_slice()) {
            Ok(()) => match value.strict_encode(&mut writer) {
                Ok(()) => Ok(UnionWriter { writer }),
                Err(e) => Err(e),
            },
            Err(e) => Err(e),
        }
    }

    /// Closes the union, handing the writer on.
    pub fn complete(self) -> (r: StrictWriter)
        ensures
            r@ == self.writer_view(),
    {
        self.writer
    }
}

/// The defining half of an enum layout: names its tagged variants.
#[derive(PartialEq, Eq, Debug)]
pub struct EnumDefiner {
    writer: StrictWriter,
    variants: Vec<(Ident, u8)>,
}

impl EnumDefiner {
    /// Opens an enum definition over the writer.
    pub fn start(writer: StrictWriter) -> (r: EnumDefiner)
        ensures
            r.writer_view() == writer@,
            r.variants_view().len() == 0,
    {
        EnumDefiner { writer, variants: Vec::new() }
    }

    /// The bytes written so far.
    pub closed spec fn writer_view(&self) -> Seq<u8> {
        self.writer@
    }

    /// The tagged variant names defined so far.
    pub closed spec fn variants_view(&self) -> Seq<(Ident, u8)> {
        self.variants@
    }

    /// Names the next variant under its tag.
    pub fn define_variant(self, name: Ident, value: u8) -> (r: EnumDefiner)
        ensures
            r.writer_view() == self.writer_view(),
            r.variants_view() == self.variants_view().push((name, value)),
    {
        let EnumDefiner { writer, mut variants } = self;
        variants.push((name, value));
        EnumDefiner { writer, variants }
    }

    /// Closes the definition, opening the writing half.
    pub fn complete(self) -> (r: EnumWriter)
        ensures
            r.writer_view() == self.writer_view(),
    {
        EnumWriter { writer: self.writer }
    }
}

/// The writing half of an enum layout: one tag byte flows.
#[derive(PartialEq, Eq, Debug)]
pub struct EnumWriter {
    writer: StrictWriter,
}

impl EnumWriter {
    /// Opens an enum write over the writer.
    pub fn start(writer: StrictWriter) -> (r: EnumWriter)
        ensures
            r.writer_view() == writer@,
            r.writer_count() == writer.count_spec(),
            r.writer_limit() == writer.limit_spec(),
    {
        EnumWriter { writer }
    }

    /// The bytes written so far.
    pub closed spec fn writer_view(&self) -> Seq<u8> {
        self.writer@
    }

    /// The writer's written-through count.
    pub closed spec fn writer_count(&self) -> int {
        self.writer.count_spec()
    }

    /// The writer's limit.
    pub closed spec fn writer_limit(&self) -> int {
        self.writer.limit_spec()
    }

    /// Writes the chosen variant's tag; fails when that would pass the
    /// writer's limit.
    pub fn write_variant(self, tag: u8) -> (r: Result<EnumWriter, WriteError>)
        ensures
            r is Ok <==> self.writer_count() + 1 <= self.writer_limit(),
            r matches Ok(w) ==> w.writer_view() == self.writer_view() + seq![tag]
                && w.writer_count() == self.writer_count() + 1 && w.writer_limit()
                == self.writer_limit(),
    {
        let EnumWriter { mut writer } = self;
        let tag_buf: [u8; 1] = [tag];
        proof {
            assert(tag_buf@ =~= seq![tag]);
        }
        match writer.write_raw(tag_buf.as_slice()) {
            Ok(()) => Ok(EnumWriter { writer }),
            Err(e) => Err(e),
        }
    }

    /// Closes the enum, handing the writer on.
    pub fn complete(self) -> (r: StrictWriter)
        ensures
            r@ == self.writer_view(),
    {
        self.writer
    }
}

} // verus!
