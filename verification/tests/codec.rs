use strict_types::decode::DecodeError;
use strict_types::fields::{BoundsError, Field, NamedFields, UnnamedFields};
use strict_types::id::SemId;
use strict_types::ident::Ident;
use strict_types::prim::{Primitive, Sizing};
use strict_types::ty::{KeyTy, Ty};
use strict_types::variants::{EnumVariants, UnionVariants, Variant};
use strict_types::writer::{
    CountingWriter, EnumDefiner, StrictDecode, StrictEncode, StrictWriter, StructDefiner,
    StructWriter, TupleDefiner, TupleWriter, UnionDefiner, WriteError,
};

fn ident(s: &str) -> Ident {
    Ident::try_from_str(s).unwrap()
}

fn variant(tag: u8, name: &str) -> Variant {
    Variant::named(tag, ident(name))
}

fn some_id(fill: u8) -> SemId {
    SemId::with([fill; 32])
}

fn round_trip(t: &Ty) {
    let bytes = t.to_canonical_bytes();
    let back = Ty::from_canonical_bytes(&bytes).unwrap();
    assert_eq!(&back, t);
}

#[test]
fn round_trip_primitives() {
    round_trip(&Ty::unit());
    round_trip(&Ty::byte());
    round_trip(&Ty::Primitive(Primitive::from_code(0x10)));
    round_trip(&Ty::UnicodeChar);
}

#[test]
fn round_trip_enum_union() {
    let ev = EnumVariants::try_from_vec(vec![
        variant(0, "stop"),
        variant(1, "go"),
        variant(9, "wait_here"),
    ])
    .unwrap();
    round_trip(&Ty::enumerate(ev));
    round_trip(&Ty::ascii_char());

    let uv = UnionVariants::try_from_vec(vec![
        (variant(0, "left"), some_id(1)),
        (variant(1, "right"), some_id(2)),
    ])
    .unwrap();
    round_trip(&Ty::union(uv));
}

#[test]
fn round_trip_struct_tuple_collections() {
    let nf = NamedFields::try_from_vec(vec![
        Field::with(ident("name"), some_id(1)),
        Field::with(ident("value"), some_id(2)),
    ])
    .unwrap();
    round_trip(&Ty::struc(nf));

    let uf = UnnamedFields::try_from_vec(vec![some_id(3), some_id(4), some_id(5)]).unwrap();
    round_trip(&Ty::tuple(uf));

    round_trip(&Ty::Array(some_id(6), 0xABCD));
    round_trip(&Ty::list(some_id(7), Sizing::new(0, u64::MAX)));
    round_trip(&Ty::set_of(some_id(8), Sizing::new(1, 0xFFFF)));

    let key = Ty::Array(SemId::byte_id(), 32).try_to_key().unwrap();
    round_trip(&Ty::map_of(key, some_id(9), Sizing::new(0, 255)));
    let ev = EnumVariants::try_from_vec(vec![variant(0, "k")]).unwrap();
    round_trip(&Ty::map_of(KeyTy::Enum(ev), some_id(10), Sizing::one()));
}

#[test]
fn decode_rejects_bad_input() {
    // Empty input ends inside the class byte.
    assert_eq!(Ty::from_canonical_bytes(&[]), Err(DecodeError::UnexpectedEnd));
    // A class code past the known range.
    assert_eq!(
        Ty::from_canonical_bytes(&[11, 0]),
        Err(DecodeError::UnknownCls(11))
    );
    assert_eq!(
        Ty::from_canonical_bytes(&[200]),
        Err(DecodeError::UnknownCls(200))
    );
    // Bytes after a whole value.
    assert_eq!(
        Ty::from_canonical_bytes(&[1, 0]),
        Err(DecodeError::TrailingData)
    );
    // A zero member count breaks confinement.
    assert_eq!(
        Ty::from_canonical_bytes(&[3, 0]),
        Err(DecodeError::Confinement(BoundsError { len: 0, min: 1, max: 255 }))
    );
    // An enum whose single variant has an empty name.
    assert_eq!(
        Ty::from_canonical_bytes(&[3, 1, 0, 0]),
        Err(DecodeError::InvalidIdent)
    );
    // An enum whose variant name opens with a digit.
    assert_eq!(
        Ty::from_canonical_bytes(&[3, 1, 0, 1, b'7']),
        Err(DecodeError::InvalidIdent)
    );
    // Variants out of ascending tag order.
    assert_eq!(
        Ty::from_canonical_bytes(&[3, 2, 1, 1, b'b', 0, 1, b'a']),
        Err(DecodeError::WrongOrder)
    );
    // Two variants sharing a tag.
    assert_eq!(
        Ty::from_canonical_bytes(&[3, 2, 1, 1, b'b', 1, 1, b'a']),
        Err(DecodeError::WrongOrder)
    );
    // A truncated identity.
    let mut bytes = vec![7u8];
    bytes.extend_from_slice(&[0; 16]);
    assert_eq!(
        Ty::from_canonical_bytes(&bytes),
        Err(DecodeError::UnexpectedEnd)
    );
}

#[test]
fn canonical_bytes_layout() {
    // A primitive is its class byte and its code.
    assert_eq!(Ty::byte().to_canonical_bytes(), vec![0, 0x40]);
    assert_eq!(Ty::unit().to_canonical_bytes(), vec![0, 0x00]);
    assert_eq!(Ty::UnicodeChar.to_canonical_bytes(), vec![1]);

    // An array is its class byte, the 32-byte identity, and the
    // little-endian length.
    let bytes = Ty::Array(some_id(0xAA), 0x0102).to_canonical_bytes();
    assert_eq!(bytes.len(), 1 + 32 + 2);
    assert_eq!(bytes[0], 7);
    assert!(bytes[1..33].iter().all(|b| *b == 0xAA));
    assert_eq!(&bytes[33..], &[0x02, 0x01]);

    // An enum holds its count, then tag-prefixed length-prefixed names.
    let ev = EnumVariants::try_from_vec(vec![variant(2, "hi")]).unwrap();
    let bytes = Ty::enumerate(ev).to_canonical_bytes();
    assert_eq!(bytes, vec![3, 1, 2, 2, b'h', b'i']);

    // A list carries the eight-byte little-endian sizing bounds.
    let bytes = Ty::list(some_id(0), Sizing::new(1, 0x0100)).to_canonical_bytes();
    assert_eq!(bytes.len(), 1 + 32 + 16);
    assert_eq!(bytes[33], 1);
    assert_eq!(&bytes[41..43], &[0x00, 0x01]);
}

#[test]
fn encoding_is_deterministic_under_input_order() {
    // The same variant set assembled in two orders encodes identically.
    let a = EnumVariants::try_from_vec(vec![variant(1, "x"), variant(2, "y")]).unwrap();
    let b = EnumVariants::try_from_vec(vec![variant(2, "y"), variant(1, "x")]).unwrap();
    assert_eq!(
        Ty::enumerate(a).to_canonical_bytes(),
        Ty::enumerate(b).to_canonical_bytes()
    );
}

#[test]
fn counting_writer_enforces_its_limit() {
    // What the wrapped sink already holds is not charged against the
    // limit: the count starts at zero.
    let mut w = CountingWriter::with(4, vec![9, 9]);
    assert_eq!(w.count(), 0);
    w.write(&[1, 2, 3]).unwrap();
    assert_eq!(w.count(), 3);
    // An overfull write fails whole and leaves the sink reusable.
    let err = w.write(&[4, 5]).unwrap_err();
    assert_eq!(err, WriteError { count: 3, limit: 4 });
    assert_eq!(w.count(), 3);
    w.write(&[4]).unwrap();
    assert_eq!(w.count(), 4);
    assert_eq!(w.unbox(), vec![9, 9, 1, 2, 3, 4]);
}

#[test]
fn strict_writer_round_trip() {
    let t = Ty::byte();
    let mut w = StrictWriter::in_memory(1024);
    t.strict_encode(&mut w).unwrap();
    let bytes = w.unbox();
    assert_eq!(bytes, t.to_canonical_bytes());
    let (back, used) = Ty::strict_decode(&bytes, 0).unwrap();
    assert_eq!(back, t);
    assert_eq!(used, bytes.len());

    // A writer too small refuses the value whole and stays untouched.
    let mut w = StrictWriter::in_memory(1);
    assert!(t.strict_encode(&mut w).is_err());
    assert_eq!(w.count(), 0);
    assert_eq!(w.unbox(), Vec::<u8>::new());

    // Pre-existing sink content is kept, and not charged to the limit.
    let mut w = StrictWriter::with(2, vec![9, 9]);
    w.write_raw(&[7]).unwrap();
    assert_eq!(w.count(), 1);
    assert_eq!(w.unbox(), vec![9, 9, 7]);
}

#[test]
fn typed_writers_compose() {
    let w = StrictWriter::in_memory(4096);
    let d = StructDefiner::start(w);
    let d = d.define_field(ident("first"));
    let d = d.define_field(ident("second"));
    let w = d.complete();
    let sw = StructWriter::start(w);
    let sw = sw.write_field(&Ty::byte()).unwrap();
    let sw = sw.write_field(&Ty::unit()).unwrap();
    let bytes = sw.complete().unbox();
    let mut expect = Ty::byte().to_canonical_bytes();
    expect.extend_from_slice(&Ty::unit().to_canonical_bytes());
    assert_eq!(bytes, expect);

    let w = StrictWriter::in_memory(4096);
    let d = TupleDefiner::start(w).define_field().define_field();
    let tw = TupleWriter::start(d.complete());
    let tw = tw.write_field(&Ty::UnicodeChar).unwrap();
    let bytes = tw.complete().unbox();
    assert_eq!(bytes, vec![1]);

    let w = StrictWriter::in_memory(4096);
    let ud = UnionDefiner::start(w)
        .define_variant(ident("none"))
        .define_variant(ident("some"));
    let uw = ud.complete();
    let uw = uw.write_variant(1, &Ty::byte()).unwrap();
    let bytes = uw.complete().unbox();
    assert_eq!(bytes, vec![1, 0, 0x40]);

    let w = StrictWriter::in_memory(16);
    let ed = EnumDefiner::start(w).define_variant(ident("on"), 1);
    let ew = ed.complete();
    let ew = ew.write_variant(1).unwrap();
    assert_eq!(ew.complete().unbox(), vec![1]);
}

#[test]
fn serialized_len_matches_the_bytes() {
    let samples = vec![
        Ty::unit(),
        Ty::byte(),
        Ty::UnicodeChar,
        Ty::ascii_char(),
        Ty::Array(some_id(1), 9),
        Ty::list(some_id(2), Sizing::new(0, 7)),
        Ty::enumerate(EnumVariants::try_from_vec(vec![variant(0, "a"), variant(4, "b")]).unwrap()),
    ];
    for t in &samples {
        assert_eq!(t.serialized_len(), t.to_canonical_bytes().len());
    }
}
