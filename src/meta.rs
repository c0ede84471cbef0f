use vstd::prelude::*;
use crate::error::Error;
use crate::hasher::Hasher;

verus! {

/// The primitive types of the metadata's type table.
#[derive(Debug, Clone, Copy, PartialEq, Eq, Structural)]
pub enum Primitive {
    Bool,
    Char,
    Str,
    U8,
    U16,
    U32,
    U64,
    U128,
    U256,
    I8,
    I16,
    I32,
    I64,
    I128,
    I256,
}

/// A named (or, with an empty name, positional) field of a composite type.
#[derive(Debug, Clone)]
pub struct Field {
    pub name: Vec<u8>,
    pub ty: u32,
}

/// One variant of an enum type: its name, its discriminant and its fields.
#[derive(Debug, Clone)]
pub struct VariantDef {
    pub name: Vec<u8>,
    pub index: u8,
    pub fields: Vec<Field>,
}

/// The structural definition of one entry of the type table. Other types
/// are referred to by their id, an index into the table.
#[derive(Debug, Clone)]
pub enum TypeDef {
    Composite(Vec<Field>),
    Variant(Vec<VariantDef>),
    Sequence(u32),
    /// A fixed number of elements of one type.
    Array(u32, u32),
    Tuple(Vec<u32>),
    Primitive(Primitive),
    Compact(u32),
    /// A compact bit count followed by the bytes that hold the bits.
    BitSequence,
}

/// One key of a storage map: how it is hashed and its type id.
#[derive(Debug, Clone, Copy, PartialEq, Eq, Structural)]
pub struct StorageKeyDesc {
    pub hasher: Hasher,
    pub ty: u32,
}

/// A storage item: its name, value type and keys in declaration order.
#[derive(Debug, Clone)]
pub struct StorageItem {
    pub name: Vec<u8>,
    pub value_ty: u32,
    pub keys: Vec<StorageKeyDesc>,
}

/// A pallet: its name, its index in the runtime and its storage items.
#[derive(Debug, Clone)]
pub struct Pallet {
    pub name: Vec<u8>,
    pub index: u8,
    pub items: Vec<StorageItem>,
}

/// The type table and the storage items of every pallet, built once from
/// a chain's metadata and read-only afterwards.
#[derive(Debug, Clone)]
pub struct MetadataIndex {
    pub types: Vec<TypeDef>,
    pub pallets: Vec<Pallet>,
}

/// The first pallet at or after `i` named `name`.
pub open spec fn pallet_from(ps: Seq<Pallet>, name: Seq<u8>, i: nat) -> Option<nat>
    decreases ps.len() - i,
{
    if i >= ps.len() {
        None
    } else if ps[i as int].name@ == name {
        Some(i)
    } else {
        pallet_from(ps, name, i + 1)
    }
}

/// The first item at or after `i` named `name`.
pub open spec fn item_from(its: Seq<StorageItem>, name: Seq<u8>, i: nat) -> Option<nat>
    decreases its.len() - i,
{
    if i >= its.len() {
        None
    } else if its[i as int].name@ == name {
        Some(i)
    } else {
        item_from(its, name, i + 1)
    }
}

/// Whether two byte strings are equal.
pub fn bytes_eq(a: &[u8], b: &[u8]) -> (r: bool)
    ensures
        r == (a@ == b@),
{
    if a.len() != b.len() {
        return false;
    }
    let mut i: usize = 0;
    while i < a.len()
        invariant
            i <= a@.len(),
            a@.len() == b@.len(),
            forall|j: int| 0 <= j < i ==> a@[j] == b@[j],
        decreases a@.len() - i,
    {
        if a[i] != b[i] {
            return false;
        }
        i = i + 1;
    }
    assert(a@ == b@);
    true
}

impl MetadataIndex {
    /// The position of the pallet named `name`, if any.
    pub open spec fn pallet_pos(&self, name: Seq<u8>) -> Option<nat> {
        pallet_from(self.pallets@, name, 0)
    }

    /// The positions of the pallet named `pallet` and of its item named `item`.
    pub open spec fn item_pos(&self, pallet: Seq<u8>, item: Seq<u8>) -> Option<(nat, nat)> {
        match self.pallet_pos(pallet) {
            None => None,
            Some(p) => match item_from(self.pallets@[p as int].items@, item, 0) {
                None => None,
                Some(i) => Some((p, i)),
            },
        }
    }

    pub open spec fn item_at(&self, p: nat, i: nat) -> StorageItem {
        self.pallets@[p as int].items@[i as int]
    }

    /// Finds the pallet named `name` (case-sensitive, exact).
    pub fn find_pallet(&self, name: &[u8]) -> (r: Option<usize>)
        ensures
            r matches Some(p) ==> self.pallet_pos(name@) == Some(p as nat) && p
                < self.pallets@.len(),
            r is None ==> self.pallet_pos(name@) is None,
    {
        let mut i: usize = 0;
        while i < self.pallets.len()
            invariant
                i <= self.pallets@.len(),
                pallet_from(self.pallets@, name@, 0) == pallet_from(self.pallets@, name@, i as nat),
            decreases self.pallets@.len() - i,
        {
            if bytes_eq(self.pallets[i].name.as_slice(), name) {
                return Some(i);
            }
            i = i + 1;
        }
        None
    }

    /// Finds the item named `name` in the pallet at position `p`.
    pub fn find_item(&self, p: usize, name: &[u8]) -> (r: Option<usize>)
        requires
            p < self.pallets@.len(),
        ensures
            r matches Some(i) ==> item_from(self.pallets@[p as int].items@, name@, 0) == Some(
                i as nat,
            ) && i < self.pallets@[p as int].items@.len(),
            r is None ==> item_from(self.pallets@[p as int].items@, name@, 0) is None,
    {
        let items = &self.pallets[p].items;
        let mut i: usize = 0;
        while i < items.len()
            invariant
                i <= items@.len(),
                items == &self.pallets@[p as int].items,
                item_from(items@, name@, 0) == item_from(items@, name@, i as nat),
            decreases items@.len() - i,
        {
            if bytes_eq(items[i].name.as_slice(), name) {
                return Some(i);
            }
            i = i + 1;
        }
        None
    }

    /// The storage item `item` of the pallet `pallet`; `None` when either
    /// name is unknown, which callers report as a failed lookup.
    pub fn find_storage_item(&self, pallet: &[u8], item: &[u8]) -> (r: Option<&StorageItem>)
        ensures
            match self.item_pos(pallet@, item@) {
                Some((p, i)) => r == Some(&self.item_at(p, i)),
                None => r is None,
            },
    {
        match self.find_pallet(pallet) {
            None => None,
            Some(p) => match self.find_item(p, item) {
                None => None,
                Some(i) => Some(&self.pallets[p].items[i]),
            },
        }
    }

    /// The definition of the type `id`; `None` for an id outside the table.
    pub fn resolve_type(&self, id: u32) -> (r: Option<&TypeDef>)
        ensures
            (id as int) < self.types@.len() ==> r == Some(&self.types@[id as int]),
            (id as int) >= self.types@.len() ==> r is None,
    {
        if (id as usize) < self.types.len() {
            Some(&self.types[id as usize])
        } else {
            None
        }
    }
}

/// The keys of a storage map declared with `hashers` and the key type
/// `key`: one hasher keys the whole type, several hash the elements of a
/// tuple key type in order.
pub open spec fn map_keys_spec(types: Seq<TypeDef>, hashers: Seq<Hasher>, key: u32) -> Option<Seq<StorageKeyDesc>> {
    if hashers.len() == 1 {
        Some(seq![StorageKeyDesc { hasher: hashers[0], ty: key }])
    } else if (key as int) < types.len() && (types[key as int] is Tuple)
        && types[key as int]->Tuple_0@.len() == hashers.len() {
        let tys = types[key as int]->Tuple_0@;
        Some(Seq::new(hashers.len(), |j: int| StorageKeyDesc { hasher: hashers[j], ty: tys[j] }))
    } else {
        None
    }
}

impl MetadataIndex {
    /// Splits the key of a storage map into one key per hasher; a count of
    /// hashers that the key type does not match is malformed metadata.
    pub fn map_keys(types: &Vec<TypeDef>, hashers: &Vec<Hasher>, key: u32) -> (r: Result<Vec<StorageKeyDesc>, Error>)
        ensures
            match map_keys_spec(types@, hashers@, key) {
                Some(ks) => r is Ok && r->Ok_0@ == ks,
                None => r == Err::<Vec<StorageKeyDesc>, Error>(Error::BadMetadata),
            },
    {
        let mut out: Vec<StorageKeyDesc> = Vec::new();
        if hashers.len() == 1 {
            out.push(StorageKeyDesc { hasher: hashers[0], ty: key });
            assert(out@ =~= seq![StorageKeyDesc { hasher: hashers@[0], ty: key }]);
            return Ok(out);
        }
        if (key as usize) >= types.len() {
            return Err(Error::BadMetadata);
        }
        match &types[key as usize] {
            TypeDef::Tuple(tys) => {
                if tys.len() != hashers.len() {
                    return Err(Error::BadMetadata);
                }
                let mut j: usize = 0;
                while j < tys.len()
                    invariant
                        j <= tys@.len() == hashers@.len(),
                        out@.len() == j,
                        forall|m: int| 0 <= m < j ==> #[trigger] out@[m] == (StorageKeyDesc { hasher: hashers@[m], ty: tys@[m] }),
                    decreases tys@.len() - j,
                {
                    out.push(StorageKeyDesc { hasher: hashers[j], ty: tys[j] });
                    j = j + 1;
                }
                assert(out@ =~= Seq::new(hashers@.len(), |m: int| StorageKeyDesc { hasher: hashers@[m], ty: tys@[m] }));
                Ok(out)
            },
            _ => Err(Error::BadMetadata),
        }
    }
}

/// The version of the metadata layout this index is built from.
pub const METADATA_VERSION: u8 = 14;

/// Whether `s` starts with the metadata envelope: the magic bytes `meta`
/// followed by a supported version tag.
pub open spec fn envelope_ok(s: Seq<u8>) -> bool {
    s.len() >= 5 && s[0] == 0x6d && s[1] == 0x65 && s[2] == 0x74 && s[3] == 0x61 && s[4]
        == METADATA_VERSION
}

/// Checks the envelope of raw metadata and returns where its body starts.
pub fn check_envelope(s: &[u8]) -> (r: Result<usize, Error>)
    ensures
        envelope_ok(s@) ==> r == Ok::<usize, Error>(5),
        !envelope_ok(s@) ==> r == Err::<usize, Error>(Error::BadMetadata),
{
    if s.len() >= 5 && s[0] == 0x6d && s[1] == 0x65 && s[2] == 0x74 && s[3] == 0x61 && s[4]
        == METADATA_VERSION {
        Ok(5)
    } else {
        Err(Error::BadMetadata)
    }
}

} // verus!
