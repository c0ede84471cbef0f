use sube::error::Error;
use sube::hasher::{hash, Hasher};
use sube::meta::{
    check_envelope, MetadataIndex, Pallet, Primitive, StorageItem, StorageKeyDesc, TypeDef,
};

const U64: u32 = 0;
const ACCOUNT_ID: u32 = 1;
const BYTE: u32 = 2;
const U32: u32 = 3;
const PAIR: u32 = 4;

fn item(name: &str, value_ty: u32, keys: Vec<StorageKeyDesc>) -> StorageItem {
    StorageItem { name: name.as_bytes().to_vec(), value_ty, keys }
}

fn index() -> MetadataIndex {
    let types = vec![
        TypeDef::Primitive(Primitive::U64),
        TypeDef::Array(32, BYTE),
        TypeDef::Primitive(Primitive::U8),
        TypeDef::Primitive(Primitive::U32),
        TypeDef::Tuple(vec![U32, U64]),
    ];
    let pallets = vec![
        Pallet {
            name: b"timestamp".to_vec(),
            index: 3,
            items: vec![item("now", U64, vec![])],
        },
        Pallet {
            name: b"system".to_vec(),
            index: 0,
            items: vec![
                item(
                    "account",
                    U64,
                    vec![StorageKeyDesc { hasher: Hasher::Blake2_128Concat, ty: ACCOUNT_ID }],
                ),
                item(
                    "blockHash",
                    U64,
                    vec![StorageKeyDesc { hasher: Hasher::Twox64Concat, ty: U32 }],
                ),
                item(
                    "pairs",
                    U64,
                    vec![
                        StorageKeyDesc { hasher: Hasher::Identity, ty: U32 },
                        StorageKeyDesc { hasher: Hasher::Identity, ty: U64 },
                    ],
                ),
            ],
        },
        Pallet {
            name: b"Timestamp".to_vec(),
            index: 4,
            items: vec![item("Now", U64, vec![])],
        },
        Pallet {
            name: b"System".to_vec(),
            index: 5,
            items: vec![item(
                "Account",
                U64,
                vec![StorageKeyDesc { hasher: Hasher::Blake2_128Concat, ty: ACCOUNT_ID }],
            )],
        },
    ];
    MetadataIndex { types, pallets }
}

fn twox128(s: &str) -> Vec<u8> {
    hash(Hasher::Twox128, s.as_bytes())
}

#[test]
fn reference_key_timestamp_now() {
    let key = index().resolve("Timestamp/Now").unwrap();
    let expected =
        hex::decode("f0c365c3cf59d671eb72da0e7a4113c49f1f0515f462cdcf84e0f1d6045dfcbb").unwrap();
    assert_eq!(key, expected);
}

#[test]
fn reference_key_system_account_prefix() {
    let account = [7u8; 32];
    let path = format!("System/Account/0x{}", hex::encode(account));
    let key = index().resolve(&path).unwrap();
    let prefix =
        hex::decode("26aa394eea5630e07c48ae0c9558cef7b99d880ec681799c0cf30e8886371da9").unwrap();
    assert_eq!(key.len(), 32 + 16 + 32);
    assert_eq!(&key[..32], &prefix[..]);
    assert_eq!(&key[32..48], &hash(Hasher::Blake2_128, &account)[..]);
    assert_eq!(&key[48..], &account[..]);
}

#[test]
fn timestamp_now_resolves_to_two_hashes() {
    let key = index().resolve("timestamp/now").unwrap();
    let mut expected = twox128("timestamp");
    expected.extend(twox128("now"));
    assert_eq!(key.len(), 32);
    assert_eq!(key, expected);
}

#[test]
fn no_key_item_refuses_key_segment() {
    assert_eq!(index().resolve("timestamp/now/5"), Err(Error::KeyArityMismatch));
    assert_eq!(index().resolve("timestamp/now/0x00"), Err(Error::KeyArityMismatch));
}

#[test]
fn short_hex_account_id_is_key_encode_error() {
    assert_eq!(index().resolve("system/account/0x00"), Err(Error::KeyEncodeError(0)));
}

#[test]
fn bad_hex_is_key_encode_error() {
    assert_eq!(index().resolve("system/account/0xzz"), Err(Error::KeyEncodeError(0)));
    assert_eq!(index().resolve("system/account/0x0"), Err(Error::KeyEncodeError(0)));
}

#[test]
fn unknown_pallet_and_unknown_item_are_distinguished() {
    assert_eq!(index().resolve("balances/account"), Err(Error::ItemNotFound(0)));
    assert_eq!(index().resolve("system/nothing"), Err(Error::ItemNotFound(1)));
    assert_eq!(index().resolve("system"), Err(Error::ItemNotFound(1)));
    assert_eq!(index().resolve("System/account"), Err(Error::ItemNotFound(1)));
}

#[test]
fn arity_must_match_declared_keys() {
    let idx = index();
    assert_eq!(idx.resolve("system/pairs/1"), Err(Error::KeyArityMismatch));
    assert_eq!(idx.resolve("system/pairs/1/2/3"), Err(Error::KeyArityMismatch));
    let key = idx.resolve("system/pairs/1/2").unwrap();
    assert_eq!(key.len(), 32 + 4 + 8);
    assert_eq!(&key[32..], &[1, 0, 0, 0, 2, 0, 0, 0, 0, 0, 0, 0][..]);
    assert_eq!(idx.resolve("system/account"), Err(Error::KeyArityMismatch));
}

#[test]
fn decimal_key_is_little_endian_of_its_type() {
    let key = index().resolve("system/blockHash/5").unwrap();
    assert_eq!(key.len(), 32 + 8 + 4);
    assert_eq!(&key[40..], &[5, 0, 0, 0][..]);
    assert_eq!(&key[32..44], &hash(Hasher::Twox64Concat, &[5, 0, 0, 0])[..]);
}

#[test]
fn decimal_key_out_of_range_is_refused() {
    assert_eq!(index().resolve("system/blockHash/4294967296"), Err(Error::KeyEncodeError(0)));
    assert!(index().resolve("system/blockHash/4294967295").is_ok());
    assert_eq!(index().resolve("system/blockHash/x1"), Err(Error::KeyEncodeError(0)));
    assert_eq!(index().resolve("system/blockHash/"), Err(Error::KeyEncodeError(0)));
}

#[test]
fn second_bad_key_names_its_index() {
    assert_eq!(index().resolve("system/pairs/1/0x01"), Err(Error::KeyEncodeError(1)));
}

#[test]
fn hex_key_for_integer_type() {
    let key = index().resolve("system/blockHash/0x05000000").unwrap();
    assert_eq!(key, index().resolve("system/blockHash/5").unwrap());
}

#[test]
fn find_storage_item_is_exact() {
    let idx = index();
    let it = idx.find_storage_item(b"system", b"account").unwrap();
    assert_eq!(it.keys.len(), 1);
    assert!(idx.find_storage_item(b"system", b"Account").is_none());
    assert!(idx.find_storage_item(b"sys", b"account").is_none());
}

#[test]
fn resolve_type_in_and_out_of_range() {
    let idx = index();
    assert!(matches!(idx.resolve_type(U64), Some(TypeDef::Primitive(Primitive::U64))));
    assert!(idx.resolve_type(99).is_none());
}

#[test]
fn hashers_known_values() {
    assert_eq!(
        hash(Hasher::Blake2_256, b""),
        hex::decode("0e5751c026e543b2e8ab2eb06099daa1d1e5df47778f7787faab45cdf12fe3a8").unwrap()
    );
    assert_eq!(twox128("System"), hex::decode("26aa394eea5630e07c48ae0c9558cef7").unwrap());
    assert_eq!(hash(Hasher::Identity, b"abc"), b"abc".to_vec());
    assert_eq!(hash(Hasher::Twox256, b"System")[..16], twox128("System")[..]);
    assert_eq!(hash(Hasher::Twox256, b"System").len(), 32);
    assert_eq!(hash(Hasher::Blake2_128, b"abc").len(), 16);
    let c = hash(Hasher::Blake2_128Concat, b"abc");
    assert_eq!(&c[..16], &hash(Hasher::Blake2_128, b"abc")[..]);
    assert_eq!(&c[16..], b"abc");
}

#[test]
fn map_keys_split_tuple_keys() {
    let idx = index();
    let one = MetadataIndex::map_keys(&idx.types, &vec![Hasher::Identity], PAIR).unwrap();
    assert_eq!(one, vec![StorageKeyDesc { hasher: Hasher::Identity, ty: PAIR }]);
    let two = MetadataIndex::map_keys(&idx.types, &vec![Hasher::Identity, Hasher::Twox128], PAIR)
        .unwrap();
    assert_eq!(
        two,
        vec![
            StorageKeyDesc { hasher: Hasher::Identity, ty: U32 },
            StorageKeyDesc { hasher: Hasher::Twox128, ty: U64 },
        ]
    );
    assert_eq!(
        MetadataIndex::map_keys(&idx.types, &vec![Hasher::Identity, Hasher::Twox128], U64),
        Err(Error::BadMetadata)
    );
}

#[test]
fn envelope_version_is_checked() {
    assert_eq!(check_envelope(b"meta\x0e rest"), Ok(5));
    assert_eq!(check_envelope(b"meta\x0d"), Err(Error::BadMetadata));
    assert_eq!(check_envelope(b"meta"), Err(Error::BadMetadata));
    assert_eq!(check_envelope(b"atem\x0e"), Err(Error::BadMetadata));
}

fn text_index() -> MetadataIndex {
    let types = vec![
        TypeDef::Primitive(Primitive::Str),
        TypeDef::Compact(2),
        TypeDef::Primitive(Primitive::U64),
        TypeDef::Primitive(Primitive::I16),
        TypeDef::Primitive(Primitive::I128),
    ];
    let keyed = |name: &str, ty: u32| {
        item(name, 2, vec![StorageKeyDesc { hasher: Hasher::Identity, ty }])
    };
    MetadataIndex {
        types,
        pallets: vec![Pallet {
            name: b"p".to_vec(),
            index: 0,
            items: vec![
                keyed("byName", 0),
                keyed("byCompact", 1),
                keyed("bySigned", 3),
                keyed("byWide", 4),
            ],
        }],
    }
}

#[test]
fn string_key_is_length_and_bytes() {
    let key = text_index().resolve("p/byName/alice").unwrap();
    assert_eq!(&key[32..], &[20, b'a', b'l', b'i', b'c', b'e'][..]);
    let key = text_index().resolve("p/byName/0xzz").unwrap();
    assert_eq!(&key[32..], &[16, b'0', b'x', b'z', b'z'][..]);
}

#[test]
fn compact_key_from_decimal() {
    let idx = text_index();
    assert_eq!(&idx.resolve("p/byCompact/1").unwrap()[32..], &[4][..]);
    assert_eq!(&idx.resolve("p/byCompact/64").unwrap()[32..], &[0x01, 0x01][..]);
    assert_eq!(&idx.resolve("p/byCompact/16384").unwrap()[32..], &[0x02, 0x00, 0x01, 0x00][..]);
    assert_eq!(
        &idx.resolve("p/byCompact/1073741824").unwrap()[32..],
        &[0x03, 0x00, 0x00, 0x00, 0x40][..]
    );
    assert_eq!(
        &idx.resolve("p/byCompact/4294967296").unwrap()[32..],
        &[0x07, 0x00, 0x00, 0x00, 0x00, 0x01][..]
    );
    assert_eq!(idx.resolve("p/byCompact/abc"), Err(Error::KeyEncodeError(0)));
}

#[test]
fn signed_keys_are_twos_complement() {
    let idx = text_index();
    assert_eq!(&idx.resolve("p/bySigned/-1").unwrap()[32..], &[0xff, 0xff][..]);
    assert_eq!(&idx.resolve("p/bySigned/-32768").unwrap()[32..], &[0x00, 0x80][..]);
    assert_eq!(&idx.resolve("p/bySigned/32767").unwrap()[32..], &[0xff, 0x7f][..]);
    assert_eq!(&idx.resolve("p/bySigned/-0").unwrap()[32..], &[0, 0][..]);
    assert_eq!(idx.resolve("p/bySigned/32768"), Err(Error::KeyEncodeError(0)));
    assert_eq!(idx.resolve("p/bySigned/-32769"), Err(Error::KeyEncodeError(0)));
    assert_eq!(idx.resolve("p/bySigned/-"), Err(Error::KeyEncodeError(0)));
    let wide = idx.resolve("p/byWide/-1").unwrap();
    assert_eq!(&wide[32..], &[0xff; 16][..]);
}
