use strict_types::fields::{Field, NamedFields};
use strict_types::id::{lib_id_tag, SemId, TypeLibId};
use strict_types::ident::Ident;
use strict_types::prim::Sizing;
use strict_types::ty::Ty;
use strict_types::typesys::{IncompleteSystem, TypeFqid, TypeLib, TypeSystem};
use strict_types::variants::{EnumVariants, Variant};

fn ident(s: &str) -> Ident {
    Ident::try_from_str(s).unwrap()
}

fn variant(tag: u8, name: &str) -> Variant {
    Variant::named(tag, ident(name))
}

fn some_id(fill: u8) -> SemId {
    SemId::with([fill; 32])
}

fn sample_enum() -> Ty {
    let ev = EnumVariants::try_from_vec(vec![variant(0, "no"), variant(1, "yes")]).unwrap();
    Ty::enumerate(ev)
}

#[test]
fn sem_id_is_deterministic() {
    let t = sample_enum();
    assert_eq!(t.sem_id(), t.sem_id());

    // Hashing survives a full serialize/deserialize round trip.
    let bytes = t.to_canonical_bytes();
    let back = Ty::from_canonical_bytes(&bytes).unwrap();
    assert_eq!(back.sem_id(), t.sem_id());

    // Distinct shapes get distinct identities.
    assert_ne!(Ty::byte().sem_id(), Ty::unit().sem_id());
    assert_ne!(t.sem_id(), Ty::byte().sem_id());
}

#[test]
fn sem_id_matches_the_digest_of_canonical_bytes() {
    // The identity is exactly the digest of the canonical byte form.
    let t = sample_enum();
    let expect = *blake3::hash(&t.to_canonical_bytes()).as_bytes();
    assert_eq!(t.sem_id().to_raw_array(), expect);

    let k = Ty::Array(SemId::byte_id(), 4).try_to_key().unwrap();
    let mut key_bytes = vec![7u8];
    key_bytes.extend_from_slice(&4u16.to_le_bytes());
    assert_eq!(k.id().to_raw_array(), *blake3::hash(&key_bytes).as_bytes());
}

#[test]
fn lib_id_ignores_insertion_order() {
    let mut a = TypeLib::new(ident("Demo"));
    a.insert(ident("First"), Ty::byte()).unwrap();
    a.insert(ident("Second"), sample_enum()).unwrap();
    a.insert(ident("Third"), Ty::UnicodeChar).unwrap();

    let mut b = TypeLib::new(ident("Demo"));
    b.insert(ident("Third"), Ty::UnicodeChar).unwrap();
    b.insert(ident("First"), Ty::byte()).unwrap();
    b.insert(ident("Second"), sample_enum()).unwrap();

    assert_eq!(a.id(), b.id());
    assert_eq!(a.count_types(), 3);
    assert_eq!(a.lib_name().as_str(), "Demo");

    // A different member set moves the identity.
    let mut c = TypeLib::new(ident("Demo"));
    c.insert(ident("First"), Ty::byte()).unwrap();
    assert_ne!(a.id(), c.id());
}

#[test]
fn lib_id_is_the_keyed_digest_of_member_ids() {
    let mut lib = TypeLib::new(ident("Demo"));
    lib.insert(ident("B"), sample_enum()).unwrap();
    lib.insert(ident("A"), Ty::byte()).unwrap();

    // Members are traversed ascending by name: A, then B.
    let mut data = Vec::new();
    data.extend_from_slice(Ty::byte().sem_id().as_slice());
    data.extend_from_slice(sample_enum().sem_id().as_slice());
    let expect = *blake3::keyed_hash(&lib_id_tag(), &data).as_bytes();
    assert_eq!(lib.id(), TypeLibId::from_raw_array(expect));
}

#[test]
fn lib_completeness_is_validated() {
    // A member that references a type whose identity no member carries
    // fails validation.
    let inner = Ty::byte();
    let nf = NamedFields::try_from_vec(vec![Field::with(ident("inner"), inner.sem_id())])
        .unwrap();
    let mut lib = TypeLib::new(ident("Demo"));
    lib.insert(ident("A"), Ty::struc(nf)).unwrap();
    assert_eq!(
        lib.validate(),
        Err(IncompleteSystem { missing: inner.sem_id() })
    );

    // Inserting the referenced type mends the library.
    lib.insert(ident("Byte"), inner).unwrap();
    assert_eq!(lib.validate(), Ok(()));
    let _ = lib.id();
}

#[test]
fn lib_insert_replaces_by_name() {
    let mut lib = TypeLib::new(ident("Demo"));
    assert_eq!(lib.insert(ident("A"), Ty::byte()).unwrap(), false);
    assert_eq!(lib.insert(ident("A"), Ty::UnicodeChar).unwrap(), true);
    assert_eq!(lib.count_types(), 1);
}

#[test]
fn system_completeness_is_validated() {
    // A member that references a type never inserted fails validation.
    let missing = some_id(0x55);
    let nf = NamedFields::try_from_vec(vec![Field::with(ident("inner"), missing)]).unwrap();
    let a = Ty::struc(nf);
    let mut sys = TypeSystem::new();
    sys.insert_unchecked(TypeFqid::unnamed(a.sem_id()), a.clone()).unwrap();
    assert_eq!(
        sys.validate(),
        Err(IncompleteSystem { missing })
    );

    // Inserting the referenced type mends the system.
    // (The referenced identity is registered under the missing key.)
    sys.insert_unchecked(TypeFqid::unnamed(missing), Ty::byte()).unwrap();
    assert_eq!(sys.validate(), Ok(()));
    assert_eq!(sys.count_types(), 2);
    assert!(sys.contains_id(&missing));
    assert_eq!(sys.get(&missing), Some(&Ty::byte()));
    assert!(!sys.contains_id(&some_id(0x77)));
}

#[test]
fn system_insert_reports_replacement() {
    let mut sys = TypeSystem::new();
    let id = some_id(1);
    assert_eq!(sys.insert_unchecked(TypeFqid::unnamed(id), Ty::byte()).unwrap(), false);
    assert_eq!(
        sys.insert_unchecked(TypeFqid::unnamed(id), Ty::UnicodeChar).unwrap(),
        true
    );
    assert_eq!(sys.count_types(), 1);
    assert_eq!(sys.get(&id), Some(&Ty::UnicodeChar));
}

#[test]
fn system_keys_by_full_fqid() {
    // One identity registered under two labels makes two entries:
    // neither insertion replaces the other.
    let mut sys = TypeSystem::new();
    let id = some_id(7);
    assert_eq!(sys.insert_unchecked(TypeFqid::unnamed(id), Ty::byte()).unwrap(), false);
    assert_eq!(
        sys.insert_unchecked(
            TypeFqid::named(id, ident("Demo"), ident("Byte")),
            Ty::byte(),
        )
        .unwrap(),
        false
    );
    assert_eq!(
        sys.insert_unchecked(
            TypeFqid::named(id, ident("Other"), ident("Octet")),
            Ty::byte(),
        )
        .unwrap(),
        false
    );
    assert_eq!(sys.count_types(), 3);

    // Only the very same fully-qualified identity replaces.
    assert_eq!(
        sys.insert_unchecked(
            TypeFqid::named(id, ident("Demo"), ident("Byte")),
            Ty::UnicodeChar,
        )
        .unwrap(),
        true
    );
    assert_eq!(sys.count_types(), 3);

    // The serialized form carries all three entries and parses back.
    let data = sys.to_strict_serialized().unwrap();
    let back = TypeSystem::from_strict_serialized(&data).unwrap();
    assert_eq!(back, sys);
}

#[test]
fn system_id_ignores_insertion_order() {
    let mut a = TypeSystem::new();
    a.insert_unchecked(TypeFqid::unnamed(some_id(3)), Ty::byte()).unwrap();
    a.insert_unchecked(TypeFqid::unnamed(some_id(1)), Ty::unit()).unwrap();

    let mut b = TypeSystem::new();
    b.insert_unchecked(TypeFqid::unnamed(some_id(1)), Ty::unit()).unwrap();
    b.insert_unchecked(TypeFqid::unnamed(some_id(3)), Ty::byte()).unwrap();

    assert_eq!(a.id(), b.id());
}

#[test]
fn serialized_system_and_armor() {
    let t = Ty::byte();
    let mut sys = TypeSystem::new();
    sys.insert_unchecked(
        TypeFqid::named(t.sem_id(), ident("Demo"), ident("Byte")),
        t.clone(),
    )
    .unwrap();
    let data = sys.to_strict_serialized().unwrap();
    // Three-byte count, then the entry: identity, label, node.
    assert_eq!(&data[0..3], &[1, 0, 0]);
    assert_eq!(&data[3..35], t.sem_id().as_slice());
    assert_eq!(data[35], 1);

    let armor = sys.armored_string().unwrap();
    assert!(armor.starts_with("----- BEGIN STRICT TYPE SYSTEM -----\n"));
    assert!(armor.ends_with("\n----- END STRICT TYPE SYSTEM -----\n"));
    let id_line = format!("Id: {}", sys.id().to_text());
    assert!(armor.contains(&id_line));
    let checksum_line = format!("Checksum: {}", sys.id().mnemonic());
    assert!(armor.contains(&checksum_line));

    // The body is the standard base64 of the serialized blob.
    let encoded = base64::Engine::encode(&base64::engine::general_purpose::STANDARD, &data);
    let body: String = armor
        .lines()
        .skip(4)
        .take_while(|l| !l.is_empty())
        .collect();
    assert_eq!(body, encoded);

    // The identity line carries the baid58 text of the identity bytes.
    let expect_id = baid58::Baid58::<32>::with("stl", sys.id().to_raw_array()).to_string();
    assert_eq!(sys.id().to_text(), expect_id);
    let expect_mn = baid58::Baid58::<32>::with("stl", sys.id().to_raw_array()).mnemonic();
    assert_eq!(sys.id().mnemonic(), expect_mn);
}

#[test]
fn well_known_identities() {
    assert!(SemId::byte_id().is_byte());
    assert!(!SemId::byte_id().is_unicode_char());
    assert!(SemId::unicode_id().is_unicode_char());
    assert!(SemId::ascii_char_id().is_ascii_char());
    assert_eq!(SemId::byte_id(), Ty::byte().sem_id());
    assert_eq!(SemId::byte_id().id(), SemId::byte_id());
}

#[test]
fn system_serialization_round_trips() {
    let t1 = Ty::byte();
    let t2 = sample_enum();
    let mut sys = TypeSystem::new();
    sys.insert_unchecked(
        TypeFqid::named(t1.sem_id(), ident("Demo"), ident("Byte")),
        t1,
    )
    .unwrap();
    sys.insert_unchecked(TypeFqid::unnamed(t2.sem_id()), t2).unwrap();

    let data = sys.to_strict_serialized().unwrap();
    let back = TypeSystem::from_strict_serialized(&data).unwrap();
    assert_eq!(back, sys);

    // The count-only length agrees with the blob.
    assert_eq!(sys.serialized_len(), data.len() as u64);

    // A trailing byte is rejected.
    let mut longer = data.clone();
    longer.push(0);
    assert_eq!(
        TypeSystem::from_strict_serialized(&longer),
        Err(strict_types::decode::DecodeError::TrailingData)
    );

    // An empty system survives too.
    let empty = TypeSystem::new();
    let data = empty.to_strict_serialized().unwrap();
    assert_eq!(data, vec![0, 0, 0]);
    assert_eq!(TypeSystem::from_strict_serialized(&data).unwrap(), empty);

    // A bad label flag is an unknown discriminant.
    let mut bad = vec![1u8, 0, 0];
    bad.extend_from_slice(&[7; 32]);
    bad.push(2);
    assert_eq!(
        TypeSystem::from_strict_serialized(&bad),
        Err(strict_types::decode::DecodeError::UnknownCls(2))
    );
}

#[test]
fn system_display_lists_members() {
    let t = Ty::byte();
    let mut sys = TypeSystem::new();
    sys.insert_unchecked(
        TypeFqid::named(t.sem_id(), ident("Demo"), ident("Byte")),
        t,
    )
    .unwrap();
    let txt = sys.to_text();

    // The header carries the identity in its expanded form: the
    // snake-case checksum mnemonic, an underscore, the base58 text.
    let id = sys.id();
    let snake = baid58::Baid58::<32>::with("stl", id.to_raw_array())
        .mnemonic_with_case(baid58::MnemonicCase::Snake);
    let head = format!("typesys -- {}_{}\n\n", snake, id.to_text());
    assert!(txt.starts_with(&head));

    // One line per member: `data`, the label, `::`, the type.
    assert!(txt.ends_with("data Demo.Byte :: Byte\n"));
}
