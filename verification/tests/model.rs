use strict_types::fields::{BoundsError, Field, NamedFields, UnnamedFields};
use strict_types::ident::Ident;
use strict_types::prim::{Primitive, Sizing};
use strict_types::ty::{Cls, KeyTy, Ty, VariantError};
use strict_types::variants::{EnumVariants, UnionVariants, Variant, VariantsError};
use strict_types::id::SemId;

fn ident(s: &str) -> Ident {
    Ident::try_from_str(s).unwrap()
}

fn variant(tag: u8, name: &str) -> Variant {
    Variant::named(tag, ident(name))
}

fn some_id(fill: u8) -> SemId {
    SemId::with([fill; 32])
}

#[test]
fn cls_codes_round_trip() {
    for b in 0u8..=10 {
        let cls = Cls::try_from_u8(b).unwrap();
        assert_eq!(cls.to_u8(), b);
    }
    for b in 11u8..=255 {
        assert_eq!(Cls::try_from_u8(b), Err(VariantError(b)));
    }
    let all = Cls::all();
    assert_eq!(all.len(), 11);
    for (i, c) in all.iter().enumerate() {
        assert_eq!(c.to_u8() as usize, i);
    }
}

#[test]
fn confined_bounds_are_enforced() {
    // Zero members always fail.
    let r = NamedFields::try_from_vec(Vec::new());
    assert_eq!(r.unwrap_err(), BoundsError { len: 0, min: 1, max: 255 });
    let r = UnnamedFields::try_from_vec(Vec::new());
    assert!(r.is_err());
    let r = EnumVariants::try_from_vec(Vec::new());
    assert_eq!(
        r.unwrap_err(),
        VariantsError::Bounds(BoundsError { len: 0, min: 1, max: 255 })
    );
    let r = UnionVariants::try_from_vec(Vec::new());
    assert!(r.is_err());

    // 255 members succeed; 256 fail.
    let ids: Vec<SemId> = (0..255).map(|i| some_id(i as u8)).collect();
    let uf = UnnamedFields::try_from_vec(ids).unwrap();
    assert_eq!(uf.len(), 255);
    let ids: Vec<SemId> = (0..256).map(|i| some_id((i % 256) as u8)).collect();
    let r = UnnamedFields::try_from_vec(ids);
    assert_eq!(r.unwrap_err(), BoundsError { len: 256, min: 1, max: 255 });

    // Field order is preserved for sequences.
    let fields = vec![
        Field::with(ident("first"), some_id(1)),
        Field::with(ident("second"), some_id(2)),
    ];
    let nf = NamedFields::try_from_vec(fields).unwrap();
    assert_eq!(nf.as_inner()[0].name.as_str(), "first");
    assert_eq!(nf.as_inner()[1].name.as_str(), "second");
}

#[test]
fn enum_variants_sort_and_reject_duplicates() {
    // The element set is preserved, held in ascending tag order.
    let vs = vec![variant(7, "high"), variant(1, "low"), variant(3, "mid")];
    let ev = EnumVariants::try_from_vec(vs).unwrap();
    let tags: Vec<u8> = ev.as_inner().iter().map(|v| v.tag).collect();
    assert_eq!(tags, vec![1, 3, 7]);
    assert_eq!(ev.len(), 3);

    let vs = vec![variant(1, "one"), variant(1, "other")];
    let r = EnumVariants::try_from_vec(vs);
    assert_eq!(r.unwrap_err(), VariantsError::DuplicateTag(1));
}

#[test]
fn union_variants_sort_and_reject_duplicates() {
    let alts = vec![
        (variant(2, "b"), some_id(2)),
        (variant(0, "a"), some_id(0)),
    ];
    let uv = UnionVariants::try_from_vec(alts).unwrap();
    assert_eq!(uv.get(0).unwrap().0.tag, 0);
    assert_eq!(uv.get(1).unwrap().0.tag, 2);
    assert_eq!(uv.ty_at(0).unwrap(), &some_id(0));

    let alts = vec![
        (variant(5, "x"), some_id(1)),
        (variant(5, "y"), some_id(2)),
    ];
    assert_eq!(
        UnionVariants::try_from_vec(alts).unwrap_err(),
        VariantsError::DuplicateTag(5)
    );
}

#[test]
fn structural_predicates() {
    assert!(Ty::byte().is_primitive());
    assert!(Ty::UnicodeChar.is_primitive());
    assert!(!Ty::byte().is_collection());
    assert!(Ty::list(some_id(1), Sizing::new(0, 10)).is_collection());
    assert!(Ty::set_of(some_id(1), Sizing::new(0, 10)).is_collection());
    assert!(Ty::Array(some_id(1), 4).is_collection());

    assert!(Ty::byte().is_byte());
    assert!(!Ty::unit().is_byte());
    assert!(Ty::UnicodeChar.is_unicode_char());
    assert!(Ty::ascii_char().is_ascii_char());
    assert!(!Ty::byte().is_ascii_char());

    // A single-field struct is a newtype wrapper, not compound.
    let one = NamedFields::try_from_vec(vec![Field::with(ident("inner"), some_id(1))]).unwrap();
    assert!(!Ty::struc(one).is_compound());
    let two = NamedFields::try_from_vec(vec![
        Field::with(ident("a"), some_id(1)),
        Field::with(ident("b"), some_id(2)),
    ])
    .unwrap();
    assert!(Ty::struc(two).is_compound());

    // Enums are compound; an optional union is not.
    let ev = EnumVariants::try_from_vec(vec![variant(0, "no"), variant(1, "yes")]).unwrap();
    assert!(Ty::enumerate(ev).is_compound());
}

#[test]
fn option_recognition_is_structural() {
    let opt = UnionVariants::try_from_vec(vec![
        (Variant::none(), SemId::with([0; 32])),
        (Variant::some(), some_id(9)),
    ])
    .unwrap();
    let t = Ty::union(opt);
    assert!(t.is_option());
    assert!(!t.is_compound());
    // Displays as the inner type's identity followed by `?`.
    let txt = t.to_text();
    assert!(txt.ends_with('?'));
    assert_eq!(txt.trim_end_matches('?'), some_id(9).to_text());

    // Any tags qualify, as long as the names are exactly none and some.
    let odd_tags = UnionVariants::try_from_vec(vec![
        (Variant::named(5, ident("none")), some_id(1)),
        (Variant::named(7, ident("some")), some_id(2)),
    ])
    .unwrap();
    assert!(Ty::union(odd_tags).is_option());

    // Even with the tags reversed, so that `some` sorts first, the two
    // names make the union optional, and the display still follows the
    // `some`-named variant's reference.
    let reversed = UnionVariants::try_from_vec(vec![
        (Variant::named(0, ident("some")), some_id(3)),
        (Variant::named(1, ident("none")), some_id(4)),
    ])
    .unwrap();
    let t = Ty::union(reversed);
    assert!(t.is_option());
    assert_eq!(t.to_text(), format!("{}?", some_id(3).to_text()));

    let not_opt = UnionVariants::try_from_vec(vec![
        (Variant::named(0, ident("none")), some_id(1)),
        (Variant::named(1, ident("maybe")), some_id(2)),
    ])
    .unwrap();
    assert!(!Ty::union(not_opt).is_option());
}

#[test]
fn key_narrowing_follows_the_table() {
    let byte_id = SemId::byte_id();
    let uni_id = SemId::unicode_id();
    let ascii_id = SemId::ascii_char_id();

    assert_eq!(
        Ty::byte().try_to_key().unwrap(),
        KeyTy::Primitive(Primitive::byte())
    );
    let ev = EnumVariants::try_from_vec(vec![variant(0, "a"), variant(1, "b")]).unwrap();
    assert_eq!(
        Ty::enumerate(ev.clone()).try_to_key().unwrap(),
        KeyTy::Enum(ev)
    );
    assert_eq!(
        Ty::Array(byte_id, 20).try_to_key().unwrap(),
        KeyTy::Array(20)
    );
    assert_eq!(
        Ty::list(byte_id, Sizing::new(0, 255)).try_to_key().unwrap(),
        KeyTy::Bytes(Sizing::new(0, 255))
    );
    assert_eq!(
        Ty::Array(uni_id, 6).try_to_key().unwrap(),
        KeyTy::UnicodeStr(Sizing::fixed(6))
    );
    assert_eq!(
        Ty::list(uni_id, Sizing::new(1, 10)).try_to_key().unwrap(),
        KeyTy::UnicodeStr(Sizing::new(1, 10))
    );
    assert_eq!(
        Ty::list(ascii_id, Sizing::new(1, 8)).try_to_key().unwrap(),
        KeyTy::AsciiStr(Sizing::new(1, 8))
    );
    assert_eq!(
        Ty::UnicodeChar.try_to_key().unwrap(),
        KeyTy::UnicodeStr(Sizing::one())
    );

    // Everything else is rejected, handing the type itself back.
    let tup = Ty::tuple(UnnamedFields::try_from_vec(vec![some_id(1)]).unwrap());
    assert_eq!(tup.try_to_key(), Err(&tup));
    let arr = Ty::Array(some_id(3), 4);
    assert_eq!(arr.try_to_key(), Err(&arr));
    let set = Ty::set_of(byte_id, Sizing::new(0, 4));
    assert_eq!(set.try_to_key(), Err(&set));
}

#[test]
fn key_narrowing_keeps_classes() {
    let byte_id = SemId::byte_id();
    assert_eq!(Ty::byte().try_to_key().unwrap().cls(), Cls::Primitive);
    assert_eq!(Ty::Array(byte_id, 3).try_to_key().unwrap().cls(), Cls::Array);
    assert_eq!(
        Ty::list(byte_id, Sizing::new(0, 9)).try_to_key().unwrap().cls(),
        Cls::List
    );
    assert_eq!(Ty::UnicodeChar.try_to_key().unwrap().cls(), Cls::Unicode);
}

#[test]
fn display_forms() {
    // The byte-array and byte-string key forms, exactly.
    assert_eq!(
        Ty::Array(SemId::byte_id(), 20).try_to_key().unwrap().to_text(),
        "[Byte ^ 20]"
    );
    assert_eq!(
        Ty::list(SemId::byte_id(), Sizing::new(0, 255))
            .try_to_key()
            .unwrap()
            .to_text(),
        "[Byte{0,255}]"
    );
    assert_eq!(KeyTy::AsciiStr(Sizing::new(1, 8)).to_text(), "[Ascii{1,8}]");
    assert_eq!(
        KeyTy::UnicodeStr(Sizing::new(0, 64)).to_text(),
        "[Unicode{0,64}]"
    );

    assert_eq!(Primitive::unit().to_text(), "()");
    assert_eq!(Primitive::byte().to_text(), "Byte");
    assert_eq!(Primitive::from_code(strict_types::prim::U16_CODE).to_text(), "U16");
    assert_eq!(Primitive::from_code(strict_types::prim::U256_CODE).to_text(), "U256");
    assert_eq!(Primitive::from_code(strict_types::prim::U1024_CODE).to_text(), "U1024");
    assert_eq!(Primitive::from_code(strict_types::prim::I8_CODE).to_text(), "I8");
    assert_eq!(Primitive::from_code(strict_types::prim::I512_CODE).to_text(), "I512");
    assert_eq!(Primitive::from_code(strict_types::prim::F16B_CODE).to_text(), "F16b");
    assert_eq!(Primitive::from_code(strict_types::prim::F32_CODE).to_text(), "F32");
    assert_eq!(Primitive::from_code(strict_types::prim::F256_CODE).to_text(), "F256");
    assert_eq!(Ty::UnicodeChar.to_text(), "Unicode");

    let ev = EnumVariants::try_from_vec(vec![variant(0, "off"), variant(1, "on")]).unwrap();
    assert_eq!(Ty::enumerate(ev).to_text(), "off | on");

    let arr = Ty::Array(some_id(1), 16);
    let txt = arr.to_text();
    assert!(txt.starts_with('['));
    assert!(txt.ends_with(" ^ 16]"));
}

#[test]
fn ty_at_reaches_members() {
    let uf = UnnamedFields::try_from_vec(vec![some_id(1), some_id(2)]).unwrap();
    let t = Ty::tuple(uf);
    assert_eq!(t.ty_at(0), Some(&some_id(1)));
    assert_eq!(t.ty_at(1), Some(&some_id(2)));
    assert_eq!(t.ty_at(2), None);

    let l = Ty::list(some_id(7), Sizing::new(0, 4));
    assert_eq!(l.ty_at(0), None);
    assert_eq!(l.ty_at(1), Some(&some_id(7)));

    assert_eq!(Ty::byte().ty_at(0), None);
}

#[test]
fn idents_are_validated() {
    assert!(Ident::try_from_str("ok_name2").is_ok());
    assert!(Ident::try_from_str("_tag").is_ok());
    assert!(Ident::try_from_str("").is_err());
    assert!(Ident::try_from_str("2bad").is_err());
    assert!(Ident::try_from_str("has space").is_err());
    assert!(Ident::try_from_str("hyphen-ated").is_err());
    assert!(Ident::try_from_str(&"x".repeat(100)).is_ok());
    assert!(Ident::try_from_str(&"x".repeat(101)).is_err());
    let id = ident("round_trip");
    assert_eq!(id.to_text(), "round_trip");
    assert_eq!(id.len(), 10);
}

#[test]
fn sizing_checks_lengths() {
    let s = Sizing::new(1, 3);
    assert!(!s.check(0));
    assert!(s.check(1));
    assert!(s.check(3));
    assert!(!s.check(4));
    assert!(Sizing::fixed(5).is_fixed());
    assert!(!Sizing::new(0, 5).is_fixed());
    assert_eq!(Sizing::one().to_text(), "{1,1}");
}
