use vstd::prelude::*;
use crate::codec::{
    append_bytes, compact_bytes, copy_range, dec_value, is_digit, le_bytes, parse_decimal, pow256,
    write_compact, write_le,
};
use crate::decode::{accepts_spec, decode_spec, views, Value, MAX_DEPTH};
use crate::error::Error;
use crate::hasher::{hash, hash_spec, twox, twox_spec};
use crate::meta::{MetadataIndex, Primitive, StorageKeyDesc, TypeDef};
use vstd::string::StringSliceAdditionalSpecFns;

verus! {

/// The value of a hexadecimal digit, either case.
pub open spec fn hex_val(c: u8) -> int {
    if 48 <= c <= 57 {
        c - 48
    } else if 97 <= c <= 102 {
        c - 97 + 10
    } else if 65 <= c <= 70 {
        c - 65 + 10
    } else {
        -1
    }
}

/// Whether `s` is an even number of hexadecimal digits.
pub open spec fn is_hex(s: Seq<u8>) -> bool {
    s.len() % 2 == 0 && forall|i: int| 0 <= i < s.len() ==> hex_val(#[trigger] s[i]) >= 0
}

/// The bytes written by the pairs of hexadecimal digits of `s`.
pub open spec fn hex_bytes(s: Seq<u8>) -> Seq<u8> {
    Seq::new(s.len() / 2, |i: int| (16 * hex_val(s[2 * i]) + hex_val(s[2 * i + 1])) as u8)
}

/// Relies on hex::decode: an even number of hex digits of either case gives
/// one byte per pair, high digit first; anything else is an error.
#[verifier::external_body]
fn hex_decode(s: &[u8]) -> (r: Option<Vec<u8>>)
    ensures
        r is Some <==> is_hex(s@),
        r matches Some(b) ==> b@ == hex_bytes(s@),
{
    hex::decode(s).ok()
}

/// The path split at every `/`.
pub open spec fn split_spec(s: Seq<u8>) -> Seq<Seq<u8>>
    decreases s.len(),
{
    if s.len() == 0 {
        seq![Seq::empty()]
    } else {
        let parts = split_spec(s.drop_last());
        if s.last() == 47 {
            parts.push(Seq::empty())
        } else {
            parts.update(parts.len() - 1, parts.last().push(s.last()))
        }
    }
}

proof fn lemma_split_nonempty(s: Seq<u8>)
    ensures
        split_spec(s).len() >= 1,
    decreases s.len(),
{
    if s.len() > 0 {
        lemma_split_nonempty(s.drop_last());
    }
}

pub open spec fn seg_views(v: Seq<Vec<u8>>) -> Seq<Seq<u8>> {
    v.map_values(|x: Vec<u8>| x@)
}

/// Splits `s` at every `/`.
pub fn split_path(s: &[u8]) -> (r: Vec<Vec<u8>>)
    ensures
        seg_views(r@) == split_spec(s@),
{
    let mut parts: Vec<Vec<u8>> = Vec::new();
    parts.push(Vec::new());
    let mut i: usize = 0;
    proof {
        assert(s@.subrange(0, 0) == Seq::<u8>::empty());
        assert(seg_views(parts@) =~= seq![Seq::<u8>::empty()]);
    }
    while i < s.len()
        invariant
            i <= s@.len(),
            parts@.len() >= 1,
            seg_views(parts@) == split_spec(s@.subrange(0, i as int)),
        decreases s@.len() - i,
    {
        let c = s[i];
        let ghost before = parts@;
        assert(s@.subrange(0, i + 1).drop_last() == s@.subrange(0, i as int));
        if c == 47 {
            parts.push(Vec::new());
            assert(seg_views(parts@) =~= seg_views(before).push(Seq::empty()));
        } else {
            let last = parts.len() - 1;
            let mut seg = parts.pop().unwrap();
            seg.push(c);
            parts.push(seg);
            assert(seg_views(parts@) =~= seg_views(before).update(last as int, seg_views(before).last().push(c)));
        }
        i = i + 1;
    }
    assert(s@.subrange(0, s@.len() as int) == s@);
    parts
}

/// Byte width of an unsigned integer primitive type, 0 for any other type.
pub open spec fn unsigned_width(types: Seq<TypeDef>, ty: u32) -> nat {
    if (ty as int) < types.len() {
        match types[ty as int] {
            TypeDef::Primitive(Primitive::U8) => 1,
            TypeDef::Primitive(Primitive::U16) => 2,
            TypeDef::Primitive(Primitive::U32) => 4,
            TypeDef::Primitive(Primitive::U64) => 8,
            TypeDef::Primitive(Primitive::U128) => 16,
            _ => 0,
        }
    } else {
        0
    }
}

pub open spec fn has_hex_prefix(seg: Seq<u8>) -> bool {
    seg.len() >= 2 && seg[0] == 48 && seg[1] == 120
}

pub open spec fn is_decimal(seg: Seq<u8>) -> bool {
    seg.len() > 0 && forall|i: int| 0 <= i < seg.len() ==> is_digit(#[trigger] seg[i])
}

/// Byte width of a signed integer primitive type, 0 for any other type.
pub open spec fn signed_width(types: Seq<TypeDef>, ty: u32) -> nat {
    if (ty as int) < types.len() {
        match types[ty as int] {
            TypeDef::Primitive(Primitive::I8) => 1,
            TypeDef::Primitive(Primitive::I16) => 2,
            TypeDef::Primitive(Primitive::I32) => 4,
            TypeDef::Primitive(Primitive::I64) => 8,
            TypeDef::Primitive(Primitive::I128) => 16,
            _ => 0,
        }
    } else {
        0
    }
}

/// The `w` little-endian two's-complement bytes of an optionally negative
/// decimal segment, when the number fits in `w` bytes.
pub open spec fn signed_key_spec(seg: Seq<u8>, w: nat) -> Option<Seq<u8>> {
    let half = pow256(w) / 2;
    if seg.len() > 0 && seg[0] == 45 {
        let m = seg.drop_first();
        if is_decimal(m) && dec_value(m) <= half {
            Some(le_bytes(if dec_value(m) == 0 { 0 } else { (pow256(w) - dec_value(m)) as nat }, w))
        } else {
            None
        }
    } else if is_decimal(seg) && dec_value(seg) < half {
        Some(le_bytes(dec_value(seg), w))
    } else {
        None
    }
}

/// The encoding of a key segment read as text, directed by the key's type:
/// a string as its length and bytes, a compact or fixed-width integer from
/// its decimal digits (signed ones with an optional `-`).
pub open spec fn text_key_spec(types: Seq<TypeDef>, ty: u32, seg: Seq<u8>) -> Option<Seq<u8>> {
    if (ty as int) < types.len() && types[ty as int] == TypeDef::Primitive(Primitive::Str) {
        Some(compact_bytes(seg.len()) + seg)
    } else if (ty as int) < types.len() && types[ty as int] is Compact {
        if is_decimal(seg) && dec_value(seg) <= u128::MAX {
            Some(compact_bytes(dec_value(seg)))
        } else {
            None
        }
    } else if unsigned_width(types, ty) > 0 {
        let w = unsigned_width(types, ty);
        if is_decimal(seg) && dec_value(seg) < pow256(w) {
            Some(le_bytes(dec_value(seg), w))
        } else {
            None
        }
    } else if signed_width(types, ty) > 0 {
        signed_key_spec(seg, signed_width(types, ty))
    } else {
        None
    }
}

/// The encoded bytes of the key segment `seg` for a key of type `ty`: the
/// bytes of a `0x` hex segment when they are exactly one value of the type,
/// and otherwise the segment read as text for that type.
pub open spec fn key_bytes_spec(types: Seq<TypeDef>, ty: u32, seg: Seq<u8>) -> Option<Seq<u8>> {
    let digits = seg.subrange(2, seg.len() as int);
    if has_hex_prefix(seg) && is_hex(digits) && accepts_spec(types, ty, hex_bytes(digits)) {
        Some(hex_bytes(digits))
    } else {
        text_key_spec(types, ty, seg)
    }
}

/// The hashed key components from the `j`-th on, or the first segment that
/// cannot be encoded.
pub open spec fn keys_spec(types: Seq<TypeDef>, descs: Seq<StorageKeyDesc>, segs: Seq<Seq<u8>>, j: nat) -> Result<
    Seq<u8>,
    Error,
>
    decreases descs.len() - j,
{
    if j >= descs.len() {
        Ok(Seq::empty())
    } else {
        match key_bytes_spec(types, descs[j as int].ty, segs[j as int]) {
            None => Err(Error::KeyEncodeError(j as usize)),
            Some(b) => match keys_spec(types, descs, segs, j + 1) {
                Ok(rest) => Ok(hash_spec(descs[j as int].hasher, b) + rest),
                Err(e) => Err(e),
            },
        }
    }
}

/// The prefix of every key of an item: the hashed pallet and item names.
pub open spec fn item_prefix(pallet: Seq<u8>, item: Seq<u8>) -> Seq<u8> {
    twox_spec(2, pallet) + twox_spec(2, item)
}

/// Puts `acc` before a successful result.
pub open spec fn key_prefixed(acc: Seq<u8>, r: Result<Seq<u8>, Error>) -> Result<Seq<u8>, Error> {
    match r {
        Ok(rest) => Ok(acc + rest),
        Err(e) => Err(e),
    }
}

impl MetadataIndex {
    /// The storage key that the path segments `segs` address.
    pub open spec fn key_spec(&self, segs: Seq<Seq<u8>>) -> Result<Seq<u8>, Error> {
        match self.pallet_pos(segs[0]) {
            None => Err(Error::ItemNotFound(0)),
            Some(_) => if segs.len() < 2 {
                Err(Error::ItemNotFound(1))
            } else {
                match self.item_pos(segs[0], segs[1]) {
                    None => Err(Error::ItemNotFound(1)),
                    Some((p, i)) => {
                        let item = self.item_at(p, i);
                        if segs.len() - 2 != item.keys@.len() {
                            Err(Error::KeyArityMismatch)
                        } else {
                            match keys_spec(self.types@, item.keys@, segs.subrange(2, segs.len() as int), 0) {
                                Ok(rest) => Ok(item_prefix(segs[0], segs[1]) + rest),
                                Err(e) => Err(e),
                            }
                        }
                    },
                }
            },
        }
    }

    /// Encodes the key segment `seg` for a key of type `ty`.
    pub fn key_bytes(&self, ty: u32, seg: &[u8]) -> (r: Option<Vec<u8>>)
        ensures
            match key_bytes_spec(self.types@, ty, seg@) {
                Some(b) => r is Some && r->Some_0@ == b,
                None => r is None,
            },
    {
        if seg.len() >= 2 && seg[0] == 48 && seg[1] == 120 {
            let digits = copy_range(seg, 2, seg.len());
            match hex_decode(digits.as_slice()) {
                None => {},
                Some(b) => {
                    if self.accepts(b.as_slice(), ty) {
                        return Some(b);
                    }
                },
            }
        }
        self.text_key(ty, seg)
    }

    /// Encodes the key segment `seg`, read as text, for a key of type `ty`.
    pub fn text_key(&self, ty: u32, seg: &[u8]) -> (r: Option<Vec<u8>>)
        ensures
            match text_key_spec(self.types@, ty, seg@) {
                Some(b) => r is Some && r->Some_0@ == b,
                None => r is None,
            },
    {
        proof {
            reveal_with_fuel(pow256, 17);
        }
        if (ty as usize) < self.types.len() {
            match &self.types[ty as usize] {
                TypeDef::Primitive(Primitive::Str) => {
                    let mut r = write_compact(seg.len() as u128);
                    append_bytes(&mut r, seg);
                    return Some(r);
                },
                TypeDef::Compact(_) => {
                    return match parse_decimal(seg) {
                        Some(v) => Some(write_compact(v)),
                        None => None,
                    };
                },
                _ => {},
            }
        }
        let w = self.unsigned_width(ty);
        if w > 0 {
            return match parse_decimal(seg) {
                None => {
                    proof {
                        if is_decimal(seg@) && dec_value(seg@) < pow256(w as nat) {
                            crate::codec::lemma_pow256_mono(w as nat, 16);
                        }
                    }
                    None
                },
                Some(v) => {
                    let limit: u128 = if w == 1 {
                        0x100
                    } else if w == 2 {
                        0x1_0000
                    } else if w == 4 {
                        0x1_0000_0000
                    } else {
                        0x1_0000_0000_0000_0000
                    };
                    assert(w < 16 ==> pow256(w as nat) == limit);
                    assert(w == 16 ==> pow256(w as nat) == u128::MAX + 1);
                    if w == 16 || v < limit {
                        Some(write_le(v, w))
                    } else {
                        None
                    }
                },
            };
        }
        let sw = self.signed_width(ty);
        if sw == 0 {
            return None;
        }
        self.signed_key(seg, sw)
    }

    fn signed_key(&self, seg: &[u8], w: usize) -> (r: Option<Vec<u8>>)
        requires
            w == 1 || w == 2 || w == 4 || w == 8 || w == 16,
        ensures
            match signed_key_spec(seg@, w as nat) {
                Some(b) => r is Some && r->Some_0@ == b,
                None => r is None,
            },
    {
        proof {
            reveal_with_fuel(pow256, 17);
        }
        let half: u128 = if w == 1 {
            0x80
        } else if w == 2 {
            0x8000
        } else if w == 4 {
            0x8000_0000
        } else if w == 8 {
            0x8000_0000_0000_0000
        } else {
            0x8000_0000_0000_0000_0000_0000_0000_0000
        };
        assert(pow256(w as nat) == 2 * half);
        assert(pow256(w as nat) / 2 == half);
        if seg.len() > 0 && seg[0] == 45 {
            let rest = copy_range(seg, 1, seg.len());
            assert(rest@ == seg@.drop_first());
            match parse_decimal(rest.as_slice()) {
                Some(m) => {
                    if m > half {
                        return None;
                    }
                    let raw: u128 = if m == 0 {
                        0
                    } else {
                        half + (half - m)
                    };
                    Some(write_le(raw, w))
                },
                None => None,
            }
        } else {
            match parse_decimal(seg) {
                Some(v) => if v < half {
                    Some(write_le(v, w))
                } else {
                    None
                },
                None => None,
            }
        }
    }

    fn signed_width(&self, ty: u32) -> (r: usize)
        ensures
            r == signed_width(self.types@, ty),
    {
        if (ty as usize) < self.types.len() {
            match &self.types[ty as usize] {
                TypeDef::Primitive(Primitive::I8) => 1,
                TypeDef::Primitive(Primitive::I16) => 2,
                TypeDef::Primitive(Primitive::I32) => 4,
                TypeDef::Primitive(Primitive::I64) => 8,
                TypeDef::Primitive(Primitive::I128) => 16,
                _ => 0,
            }
        } else {
            0
        }
    }

    /// The storage key addressed by `path`, of the form
    /// `pallet/item[/key]*`: the hashed pallet and item names followed by
    /// each key segment encoded for its type and hashed as its key declares.
    pub fn resolve(&self, path: &str) -> (r: Result<Vec<u8>, Error>)
        ensures
            match self.key_spec(split_spec(path.spec_bytes())) {
                Ok(k) => r is Ok && r->Ok_0@ == k,
                Err(e) => r == Err::<Vec<u8>, Error>(e),
            },
    {
        self.resolve_bytes(path.as_bytes())
    }

    /// `resolve` on the bytes of a path.
    pub fn resolve_bytes(&self, path: &[u8]) -> (r: Result<Vec<u8>, Error>)
        ensures
            match self.key_spec(split_spec(path@)) {
                Ok(k) => r is Ok && r->Ok_0@ == k,
                Err(e) => r == Err::<Vec<u8>, Error>(e),
            },
    {
        let segs = split_path(path);
        let ghost sv = seg_views(segs@);
        proof {
            lemma_split_nonempty(path@);
        }
        assert(segs[0]@ == sv[0]);
        let p = match self.find_pallet(segs[0].as_slice()) {
            None => {
                return Err(Error::ItemNotFound(0));
            },
            Some(p) => p,
        };
        if segs.len() < 2 {
            return Err(Error::ItemNotFound(1));
        }
        assert(segs[1]@ == sv[1]);
        let i = match self.find_item(p, segs[1].as_slice()) {
            None => {
                return Err(Error::ItemNotFound(1));
            },
            Some(i) => i,
        };
        let item = &self.pallets[p].items[i];
        if segs.len() - 2 != item.keys.len() {
            return Err(Error::KeyArityMismatch);
        }
        let ghost ks = sv.subrange(2, sv.len() as int);
        let ghost whole = keys_spec(self.types@, item.keys@, ks, 0);
        let mut key = twox(2, segs[0].as_slice());
        let second = twox(2, segs[1].as_slice());
        append_bytes(&mut key, second.as_slice());
        proof {
            assert(key@ + Seq::<u8>::empty() == key@);
        }
        let n = segs.len();
        assert(self.key_spec(sv) == key_prefixed(item_prefix(sv[0], sv[1]), whole));
        let mut j: usize = 0;
        while j < item.keys.len()
            invariant
                j <= item.keys@.len(),
                n == segs@.len(),
                self.key_spec(sv) == key_prefixed(item_prefix(sv[0], sv[1]), whole),
                segs@.len() == item.keys@.len() + 2,
                sv == seg_views(segs@),
                sv == split_spec(path@),
                ks == sv.subrange(2, sv.len() as int),
                whole == keys_spec(self.types@, item.keys@, ks, 0),
                key_prefixed(item_prefix(sv[0], sv[1]), whole) == key_prefixed(key@, keys_spec(self.types@, item.keys@, ks, j as nat)),
            decreases item.keys@.len() - j,
        {
            let desc = item.keys[j];
            assert(segs[j + 2]@ == ks[j as int]);
            let b = match self.key_bytes(desc.ty, segs[j + 2].as_slice()) {
                None => {
                    assert(key_bytes_spec(self.types@, item.keys@[j as int].ty, ks[j as int]) is None);
                    assert(keys_spec(self.types@, item.keys@, ks, j as nat) == Err::<Seq<u8>, Error>(
                        Error::KeyEncodeError(j),
                    ));
                    return Err(Error::KeyEncodeError(j));
                },
                Some(b) => b,
            };
            let h = hash(desc.hasher, b.as_slice());
            let ghost before = key@;
            append_bytes(&mut key, h.as_slice());
            proof {
                assert(before + (h@ + Seq::<u8>::empty()) == key@ + Seq::<u8>::empty());
                let r1 = keys_spec(self.types@, item.keys@, ks, (j + 1) as nat);
                if let Ok(rest) = r1 {
                    assert(before + (h@ + rest) == key@ + rest);
                }
            }
            j = j + 1;
        }
        proof {
            assert(key@ + Seq::<u8>::empty() == key@);
        }
        Ok(key)
    }

    /// The value type of the item the path segments `segs` name.
    pub open spec fn value_ty_spec(&self, segs: Seq<Seq<u8>>) -> u32 {
        let (p, i) = self.item_pos(segs[0], segs[1])->Some_0;
        self.item_at(p, i).value_ty
    }

    /// Decodes `raw`, the bytes stored under the key of `path`, as a value
    /// of the type the path's item declares.
    pub fn decode_value(&self, path: &str, raw: &[u8]) -> (r: Result<Value, Error>)
        ensures
            match self.key_spec(split_spec(path.spec_bytes())) {
                Err(e) => r == Err::<Value, Error>(e),
                Ok(_) => match decode_spec(
                    self.types@,
                    self.value_ty_spec(split_spec(path.spec_bytes())),
                    raw@,
                    0,
                    MAX_DEPTH as nat,
                ) {
                    Ok((ns, _)) => r is Ok && views(r->Ok_0.nodes@) == ns,
                    Err(e) => r == Err::<Value, Error>(e),
                },
            },
    {
        let bytes = path.as_bytes();
        match self.resolve_bytes(bytes) {
            Err(e) => {
                return Err(e);
            },
            Ok(_) => {},
        }
        let segs = split_path(bytes);
        let ghost sv = seg_views(segs@);
        proof {
            lemma_split_nonempty(bytes@);
        }
        assert(segs[0]@ == sv[0]);
        assert(segs[1]@ == sv[1]);
        let p = match self.find_pallet(segs[0].as_slice()) {
            None => {
                return Err(Error::ItemNotFound(0));
            },
            Some(p) => p,
        };
        let i = match self.find_item(p, segs[1].as_slice()) {
            None => {
                return Err(Error::ItemNotFound(1));
            },
            Some(i) => i,
        };
        self.decode(raw, self.pallets[p].items[i].value_ty)
    }

    fn unsigned_width(&self, ty: u32) -> (r: usize)
        ensures
            r == unsigned_width(self.types@, ty),
    {
        if (ty as usize) < self.types.len() {
            match &self.types[ty as usize] {
                TypeDef::Primitive(Primitive::U8) => 1,
                TypeDef::Primitive(Primitive::U16) => 2,
                TypeDef::Primitive(Primitive::U32) => 4,
                TypeDef::Primitive(Primitive::U64) => 8,
                TypeDef::Primitive(Primitive::U128) => 16,
                _ => 0,
            }
        } else {
            0
        }
    }
}

proof fn lemma_keys_ok(types: Seq<TypeDef>, descs: Seq<StorageKeyDesc>, segs: Seq<Seq<u8>>, j: nat)
    requires
        segs.len() == descs.len(),
        forall|m: int| 0 <= m < descs.len() ==> (#[trigger] key_bytes_spec(types, descs[m].ty, segs[m])) is Some,
    ensures
        keys_spec(types, descs, segs, j) is Ok,
    decreases descs.len() - j,
{
    if j < descs.len() {
        assert(key_bytes_spec(types, descs[j as int].ty, segs[j as int]) is Some);
        lemma_keys_ok(types, descs, segs, j + 1);
    }
}

/// An item without keys is addressed by its pallet and item names alone:
/// the path with no key segment resolves to the two name hashes, and a path
/// with any key segment is refused for its arity.
pub proof fn lemma_no_key_item(idx: &MetadataIndex, pallet: Seq<u8>, item: Seq<u8>, extra: Seq<Seq<u8>>)
    requires
        idx.item_pos(pallet, item) matches Some((p, i)) && idx.item_at(p, i).keys@.len() == 0,
    ensures
        idx.key_spec(seq![pallet, item]) == Ok::<Seq<u8>, Error>(item_prefix(pallet, item)),
        extra.len() > 0 ==> idx.key_spec(seq![pallet, item] + extra) == Err::<Seq<u8>, Error>(
            Error::KeyArityMismatch,
        ),
{
    let segs = seq![pallet, item];
    assert(segs[0] == pallet && segs[1] == item);
    assert(item_prefix(pallet, item) + Seq::<u8>::empty() == item_prefix(pallet, item));
    let longer = segs + extra;
    assert(longer[0] == pallet && longer[1] == item);
}

/// An item with `N` keys resolves for exactly `N` key segments that each
/// encode for their key's type, and is refused for its arity with any other
/// number of key segments.
pub proof fn lemma_key_arity(idx: &MetadataIndex, pallet: Seq<u8>, item: Seq<u8>, keys: Seq<Seq<u8>>)
    requires
        idx.item_pos(pallet, item) is Some,
    ensures
        ({
            let (p, i) = idx.item_pos(pallet, item)->Some_0;
            let descs = idx.item_at(p, i).keys@;
            &&& keys.len() != descs.len() ==> idx.key_spec(seq![pallet, item] + keys) == Err::<
                Seq<u8>,
                Error,
            >(Error::KeyArityMismatch)
            &&& (keys.len() == descs.len() && forall|m: int|
                0 <= m < descs.len() ==> (#[trigger] key_bytes_spec(idx.types@, descs[m].ty, keys[m])) is Some)
                ==> idx.key_spec(seq![pallet, item] + keys) is Ok
        }),
{
    let (p, i) = idx.item_pos(pallet, item)->Some_0;
    let descs = idx.item_at(p, i).keys@;
    let segs = seq![pallet, item] + keys;
    assert(segs[0] == pallet && segs[1] == item);
    assert(segs.subrange(2, segs.len() as int) == keys);
    if keys.len() == descs.len() && forall|m: int|
        0 <= m < descs.len() ==> (#[trigger] key_bytes_spec(idx.types@, descs[m].ty, keys[m])) is Some {
        lemma_keys_ok(idx.types@, descs, keys, 0);
    }
}

/// A path whose pallet is unknown fails on its pallet segment, and a path
/// naming a known pallet with an unknown item fails on its item segment;
/// both are lookup failures, whatever key segments follow.
pub proof fn lemma_item_not_found(idx: &MetadataIndex, pallet: Seq<u8>, item: Seq<u8>, keys: Seq<Seq<u8>>)
    ensures
        idx.pallet_pos(pallet) is None ==> idx.key_spec(seq![pallet, item] + keys) == Err::<Seq<u8>, Error>(
            Error::ItemNotFound(0),
        ),
        idx.pallet_pos(pallet) is Some && idx.item_pos(pallet, item) is None ==> idx.key_spec(
            seq![pallet, item] + keys,
        ) == Err::<Seq<u8>, Error>(Error::ItemNotFound(1)),
{
    let segs = seq![pallet, item] + keys;
    assert(segs[0] == pallet && segs[1] == item);
}

} // verus!
