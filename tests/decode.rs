use sube::backend::{query, Backend};
use sube::decode::{Node, Value};
use sube::error::Error;
use sube::hasher::Hasher;
use sube::meta::{
    Field, MetadataIndex, Pallet, Primitive, StorageItem, StorageKeyDesc, TypeDef, VariantDef,
};

const U64: u32 = 0;
const ACCOUNT_ID: u32 = 1;
const BYTE: u32 = 2;
const U32: u32 = 3;
const INFO: u32 = 4;
const NAMES: u32 = 5;
const TEXT: u32 = 6;
const STATUS: u32 = 7;
const I16: u32 = 8;
const COMPACT: u32 = 9;
const UNIT: u32 = 10;
const BYTES: u32 = 11;
const LOOP: u32 = 12;
const FLAG: u32 = 13;
const U128: u32 = 14;

fn field(name: &str, ty: u32) -> Field {
    Field { name: name.as_bytes().to_vec(), ty }
}

fn index() -> MetadataIndex {
    let types = vec![
        TypeDef::Primitive(Primitive::U64),
        TypeDef::Array(32, BYTE),
        TypeDef::Primitive(Primitive::U8),
        TypeDef::Primitive(Primitive::U32),
        TypeDef::Composite(vec![field("nonce", U32), field("free", U64)]),
        TypeDef::Sequence(TEXT),
        TypeDef::Primitive(Primitive::Str),
        TypeDef::Variant(vec![
            VariantDef { name: b"Idle".to_vec(), index: 0, fields: vec![] },
            VariantDef { name: b"Busy".to_vec(), index: 2, fields: vec![field("", U32)] },
        ]),
        TypeDef::Primitive(Primitive::I16),
        TypeDef::Compact(U64),
        TypeDef::Tuple(vec![]),
        TypeDef::Sequence(BYTE),
        TypeDef::Composite(vec![field("next", LOOP)]),
        TypeDef::Primitive(Primitive::Bool),
        TypeDef::Primitive(Primitive::U128),
    ];
    let pallets = vec![
        Pallet {
            name: b"timestamp".to_vec(),
            index: 3,
            items: vec![StorageItem { name: b"now".to_vec(), value_ty: U64, keys: vec![] }],
        },
        Pallet {
            name: b"system".to_vec(),
            index: 0,
            items: vec![StorageItem {
                name: b"account".to_vec(),
                value_ty: INFO,
                keys: vec![StorageKeyDesc { hasher: Hasher::Blake2_128Concat, ty: ACCOUNT_ID }],
            }],
        },
    ];
    MetadataIndex { types, pallets }
}

fn nodes(v: Result<Value, Error>) -> Vec<Node> {
    v.unwrap().nodes
}

#[test]
fn timestamp_now_decodes_zero_and_one() {
    let idx = index();
    assert!(matches!(nodes(idx.decode(&[0; 8], U64))[..], [Node::Number(0)]));
    assert!(matches!(nodes(idx.decode(&[1, 0, 0, 0, 0, 0, 0, 0], U64))[..], [Node::Number(1)]));
}

#[test]
fn truncated_u64_fails() {
    let idx = index();
    for n in 0..8 {
        assert_eq!(idx.decode(&[1u8; 8][..n], U64).unwrap_err(), Error::TruncatedInput);
    }
}

#[test]
fn composite_decodes_fields_in_order() {
    let idx = index();
    let bytes = [5, 0, 0, 0, 0x10, 0x27, 0, 0, 0, 0, 0, 0];
    let ns = nodes(idx.decode(&bytes, INFO));
    assert_eq!(ns.len(), 5);
    assert!(matches!(ns[0], Node::Struct(2)));
    assert!(matches!(&ns[1], Node::Field(n) if n == b"nonce"));
    assert!(matches!(ns[2], Node::Number(5)));
    assert!(matches!(&ns[3], Node::Field(n) if n == b"free"));
    assert!(matches!(ns[4], Node::Number(10000)));
}

#[test]
fn every_strict_prefix_of_a_composite_is_truncated() {
    let idx = index();
    let bytes = [5, 0, 0, 0, 0x10, 0x27, 0, 0, 0, 0, 0, 0];
    for n in 1..bytes.len() {
        assert_eq!(idx.decode(&bytes[..n], INFO).unwrap_err(), Error::TruncatedInput);
    }
}

#[test]
fn sequence_of_text() {
    let idx = index();
    let bytes = [8, 8, b'h', b'i', 0];
    let ns = nodes(idx.decode(&bytes, NAMES));
    assert_eq!(ns.len(), 3);
    assert!(matches!(ns[0], Node::Sequence(2)));
    assert!(matches!(&ns[1], Node::Text(t) if t == b"hi"));
    assert!(matches!(&ns[2], Node::Text(t) if t.is_empty()));
    assert_eq!(idx.decode(&[8, 8, b'h'], NAMES).unwrap_err(), Error::TruncatedInput);
}

#[test]
fn byte_arrays_and_sequences_are_bytes() {
    let idx = index();
    let ns = nodes(idx.decode(&[7u8; 32], ACCOUNT_ID));
    assert!(matches!(&ns[..], [Node::Bytes(b)] if b == &vec![7u8; 32]));
    let ns = nodes(idx.decode(&[12, 1, 2, 3], BYTES));
    assert!(matches!(&ns[..], [Node::Bytes(b)] if b == &vec![1, 2, 3]));
    assert_eq!(idx.decode(&[7u8; 31], ACCOUNT_ID).unwrap_err(), Error::TruncatedInput);
}

#[test]
fn variants_by_discriminant() {
    let idx = index();
    let ns = nodes(idx.decode(&[0], STATUS));
    assert!(matches!(&ns[..], [Node::Variant(n), Node::Struct(0)] if n == b"Idle"));
    let ns = nodes(idx.decode(&[2, 9, 0, 0, 0], STATUS));
    assert_eq!(ns.len(), 4);
    assert!(matches!(&ns[0], Node::Variant(n) if n == b"Busy"));
    assert!(matches!(ns[3], Node::Number(9)));
    assert_eq!(idx.decode(&[1], STATUS).unwrap_err(), Error::UnknownVariant);
    assert_eq!(idx.decode(&[], STATUS).unwrap_err(), Error::TruncatedInput);
}

#[test]
fn signed_integers() {
    let idx = index();
    assert!(matches!(nodes(idx.decode(&[0xff, 0xff], I16))[..], [Node::Signed(-1)]));
    assert!(matches!(nodes(idx.decode(&[0x00, 0x80], I16))[..], [Node::Signed(-32768)]));
    assert!(matches!(nodes(idx.decode(&[0xff, 0x7f], I16))[..], [Node::Signed(32767)]));
}

#[test]
fn compact_integers() {
    let idx = index();
    assert!(matches!(nodes(idx.decode(&[0xfc], COMPACT))[..], [Node::Number(63)]));
    assert!(matches!(nodes(idx.decode(&[0x01, 0x01], COMPACT))[..], [Node::Number(64)]));
    assert!(matches!(nodes(idx.decode(&[0x02, 0x00, 0x01, 0x00], COMPACT))[..], [Node::Number(16384)]));
    assert!(matches!(
        nodes(idx.decode(&[0x03, 0x00, 0x00, 0x00, 0x40], COMPACT))[..],
        [Node::Number(1073741824)]
    ));
    assert_eq!(idx.decode(&[0x01], COMPACT).unwrap_err(), Error::TruncatedInput);
    assert_eq!(idx.decode(&[0xff], COMPACT).unwrap_err(), Error::UnsupportedType);
}

#[test]
fn wide_integers_and_flags() {
    let idx = index();
    let mut b = [0u8; 16];
    b[15] = 0x80;
    assert!(matches!(nodes(idx.decode(&b, U128))[..], [Node::Number(n)] if n == 1u128 << 127));
    assert!(matches!(nodes(idx.decode(&[1], FLAG))[..], [Node::Bool(true)]));
    assert!(matches!(nodes(idx.decode(&[0], FLAG))[..], [Node::Bool(false)]));
}

#[test]
fn unit_is_null() {
    assert!(matches!(nodes(index().decode(&[], UNIT))[..], [Node::Null]));
}

#[test]
fn self_referential_type_hits_depth_limit() {
    assert_eq!(index().decode(&[], LOOP).unwrap_err(), Error::DepthLimit);
}

#[test]
fn unknown_type_id_is_bad_metadata() {
    assert_eq!(index().decode(&[0], 999).unwrap_err(), Error::BadMetadata);
}

struct Stub {
    value: Vec<u8>,
}

impl Backend for Stub {
    fn query_raw(&self, _key: &[u8]) -> Result<Vec<u8>, Error> {
        Ok(self.value.clone())
    }

    fn submit(&self, _payload: &[u8]) -> Result<(), Error> {
        Err(Error::NodeRejected)
    }

    fn metadata(&self) -> Result<Vec<u8>, Error> {
        Err(Error::TransportError)
    }
}

#[test]
fn query_resolves_fetches_and_decodes() {
    let idx = index();
    let stub = Stub { value: vec![1, 0, 0, 0, 0, 0, 0, 0] };
    assert!(matches!(nodes(query(&idx, &stub, "timestamp/now"))[..], [Node::Number(1)]));
    assert_eq!(query(&idx, &stub, "timestamp/later").unwrap_err(), Error::ItemNotFound(1));
    let short = Stub { value: vec![1, 0] };
    assert_eq!(query(&idx, &short, "timestamp/now").unwrap_err(), Error::TruncatedInput);
}

#[test]
fn decode_value_uses_item_type() {
    let idx = index();
    let path = format!("system/account/0x{}", "11".repeat(32));
    let bytes = [5, 0, 0, 0, 0x10, 0x27, 0, 0, 0, 0, 0, 0];
    let ns = nodes(idx.decode_value(&path, &bytes));
    assert!(matches!(ns[0], Node::Struct(2)));
    assert_eq!(idx.decode_value("system/account", &bytes).unwrap_err(), Error::KeyArityMismatch);
}

fn wide_index() -> MetadataIndex {
    MetadataIndex {
        types: vec![
            TypeDef::Primitive(Primitive::U256),
            TypeDef::Primitive(Primitive::I256),
            TypeDef::Primitive(Primitive::Char),
            TypeDef::BitSequence,
        ],
        pallets: vec![],
    }
}

#[test]
fn wide_integers_decode_as_their_bytes() {
    let idx = wide_index();
    let mut b = [0u8; 32];
    b[0] = 1;
    b[31] = 0x80;
    let ns = nodes(idx.decode(&b, 0));
    assert!(matches!(&ns[..], [Node::Bytes(v)] if v == &b.to_vec()));
    let ns = nodes(idx.decode(&b, 1));
    assert!(matches!(&ns[..], [Node::Bytes(v)] if v == &b.to_vec()));
    for n in 0..32 {
        assert_eq!(idx.decode(&b[..n], 0).unwrap_err(), Error::TruncatedInput);
        assert_eq!(idx.decode(&b[..n], 1).unwrap_err(), Error::TruncatedInput);
    }
}

#[test]
fn char_decodes_as_code_point() {
    let idx = wide_index();
    assert!(matches!(nodes(idx.decode(&[0x41, 0, 0, 0], 2))[..], [Node::Number(0x41)]));
    assert_eq!(idx.decode(&[0x41, 0], 2).unwrap_err(), Error::TruncatedInput);
}

#[test]
fn bit_sequence_decodes_count_and_bytes() {
    let idx = wide_index();
    // 10 bits take two bytes
    let ns = nodes(idx.decode(&[40, 0xff, 0x03], 3));
    assert!(matches!(&ns[..], [Node::Bytes(v)] if v == &vec![0xff, 0x03]));
    let ns = nodes(idx.decode(&[32, 0xaa], 3));
    assert!(matches!(&ns[..], [Node::Bytes(v)] if v == &vec![0xaa]));
    assert!(matches!(&nodes(idx.decode(&[0], 3))[..], [Node::Bytes(v)] if v.is_empty()));
    assert_eq!(idx.decode(&[40, 0xff], 3).unwrap_err(), Error::TruncatedInput);
}
