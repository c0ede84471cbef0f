use vstd::prelude::*;
use crate::codec::{compact_spec, copy_bytes, copy_range, le_value, pow256, read_compact, read_le};
use crate::error::Error;
use crate::meta::{Field, MetadataIndex, Primitive, TypeDef, VariantDef};

verus! {

/// How deep values may nest before decoding gives up.
pub const MAX_DEPTH: u64 = 256;

/// One node of a decoded value. A value is a tree written in pre-order:
/// `Sequence(n)` is followed by its `n` elements, `Struct(n)` by `n` pairs of
/// a `Field` node and the field's value, and `Variant` by the `Struct` of the
/// chosen variant's fields.
#[derive(Debug, Clone)]
pub enum Node {
    Null,
    Bool(bool),
    Number(u128),
    Signed(i128),
    Bytes(Vec<u8>),
    Text(Vec<u8>),
    Sequence(u128),
    Struct(usize),
    Field(Vec<u8>),
    Variant(Vec<u8>),
}

/// What a node holds, with byte strings as sequences.
pub enum NodeView {
    Null,
    Bool(bool),
    Number(nat),
    Signed(int),
    Bytes(Seq<u8>),
    Text(Seq<u8>),
    Sequence(nat),
    Struct(nat),
    Field(Seq<u8>),
    Variant(Seq<u8>),
}

impl View for Node {
    type V = NodeView;

    open spec fn view(&self) -> NodeView {
        match self {
            Node::Null => NodeView::Null,
            Node::Bool(b) => NodeView::Bool(*b),
            Node::Number(n) => NodeView::Number(*n as nat),
            Node::Signed(n) => NodeView::Signed(*n as int),
            Node::Bytes(b) => NodeView::Bytes(b@),
            Node::Text(b) => NodeView::Text(b@),
            Node::Sequence(n) => NodeView::Sequence(*n as nat),
            Node::Struct(n) => NodeView::Struct(*n as nat),
            Node::Field(b) => NodeView::Field(b@),
            Node::Variant(b) => NodeView::Variant(b@),
        }
    }
}

/// A decoded value: its nodes in pre-order.
#[derive(Debug, Clone)]
pub struct Value {
    pub nodes: Vec<Node>,
}

pub open spec fn views(ns: Seq<Node>) -> Seq<NodeView> {
    ns.map_values(|n: Node| n@)
}

/// Byte width of a fixed-width integer primitive.
pub open spec fn int_width(p: Primitive) -> nat {
    match p {
        Primitive::U8 | Primitive::I8 => 1,
        Primitive::U16 | Primitive::I16 => 2,
        Primitive::U32 | Primitive::I32 | Primitive::Char => 4,
        Primitive::U64 | Primitive::I64 => 8,
        Primitive::U128 | Primitive::I128 => 16,
        _ => 0,
    }
}

pub open spec fn is_signed(p: Primitive) -> bool {
    matches!(p, Primitive::I8 | Primitive::I16 | Primitive::I32 | Primitive::I64 | Primitive::I128)
}

/// The two's-complement reading of the `n`-byte unsigned value `raw`.
pub open spec fn signed_of(raw: nat, n: nat) -> int {
    if 2 * raw >= pow256(n) {
        raw - pow256(n)
    } else {
        raw as int
    }
}

/// Decodes a value of primitive type `p` at `pos`.
pub open spec fn primitive_spec(p: Primitive, s: Seq<u8>, pos: nat) -> Result<
    (Seq<NodeView>, nat),
    Error,
> {
    match p {
        Primitive::Bool => if pos >= s.len() {
            Err(Error::TruncatedInput)
        } else {
            Ok((seq![NodeView::Bool(s[pos as int] != 0)], pos + 1))
        },
        Primitive::Str => match compact_spec(s, pos) {
            Err(e) => Err(e),
            Ok((n, p)) => if p + n > s.len() {
                Err(Error::TruncatedInput)
            } else {
                Ok((seq![NodeView::Text(s.subrange(p as int, (p + n) as int))], p + n))
            },
        },
        Primitive::U256 | Primitive::I256 => bytes_spec(s, pos, 32),
        _ => {
            let w = int_width(p);
            if pos + w > s.len() {
                Err(Error::TruncatedInput)
            } else {
                let raw = le_value(s.subrange(pos as int, (pos + w) as int));
                if is_signed(p) {
                    Ok((seq![NodeView::Signed(signed_of(raw, w))], pos + w))
                } else {
                    Ok((seq![NodeView::Number(raw)], pos + w))
                }
            }
        },
    }
}

/// The position of the variant whose discriminant is `tag`.
pub open spec fn variant_from(vs: Seq<VariantDef>, tag: u8, i: nat) -> Option<nat>
    decreases vs.len() - i,
{
    if i >= vs.len() {
        None
    } else if vs[i as int].index == tag {
        Some(i)
    } else {
        variant_from(vs, tag, i + 1)
    }
}

pub open spec fn is_byte_type(types: Seq<TypeDef>, ty: u32) -> bool {
    (ty as int) < types.len() && types[ty as int] matches TypeDef::Primitive(Primitive::U8)
}

/// `n` raw bytes at `pos`, as one `Bytes` node.
pub open spec fn bytes_spec(s: Seq<u8>, pos: nat, n: nat) -> Result<(Seq<NodeView>, nat), Error> {
    if pos + n > s.len() {
        Err(Error::TruncatedInput)
    } else {
        Ok((seq![NodeView::Bytes(s.subrange(pos as int, (pos + n) as int))], pos + n))
    }
}

/// Puts `head` before the nodes of a successful result.
pub open spec fn prefixed(head: Seq<NodeView>, r: Result<(Seq<NodeView>, nat), Error>) -> Result<
    (Seq<NodeView>, nat),
    Error,
> {
    match r {
        Ok((ns, e)) => Ok((head + ns, e)),
        Err(e) => Err(e),
    }
}

/// Decodes a value of type `ty` from `s` at `pos`, nesting at most `fuel`
/// levels: the nodes of the value and the position after it.
pub open spec fn decode_spec(types: Seq<TypeDef>, ty: u32, s: Seq<u8>, pos: nat, fuel: nat) -> Result<
    (Seq<NodeView>, nat),
    Error,
>
    decreases fuel, 0nat, 0nat,
{
    if fuel == 0 {
        Err(Error::DepthLimit)
    } else if ty as int >= types.len() {
        Err(Error::BadMetadata)
    } else {
        let f = (fuel - 1) as nat;
        match types[ty as int] {
            TypeDef::Composite(fields) => prefixed(
                seq![NodeView::Struct(fields@.len())],
                fields_spec(types, fields@, 0, s, pos, f),
            ),
            TypeDef::Variant(vs) => if pos >= s.len() {
                Err(Error::TruncatedInput)
            } else {
                match variant_from(vs@, s[pos as int], 0) {
                    None => Err(Error::UnknownVariant),
                    Some(i) => {
                        let v = vs@[i as int];
                        prefixed(
                            seq![NodeView::Variant(v.name@), NodeView::Struct(v.fields@.len())],
                            fields_spec(types, v.fields@, 0, s, pos + 1, f),
                        )
                    },
                }
            },
            TypeDef::Sequence(elem) => match compact_spec(s, pos) {
                Err(e) => Err(e),
                Ok((n, p)) => if is_byte_type(types, elem) {
                    bytes_spec(s, p, n)
                } else {
                    prefixed(seq![NodeView::Sequence(n)], list_spec(types, elem, n, s, p, f))
                },
            },
            TypeDef::Array(n, elem) => if is_byte_type(types, elem) {
                bytes_spec(s, pos, n as nat)
            } else {
                prefixed(
                    seq![NodeView::Sequence(n as nat)],
                    list_spec(types, elem, n as nat, s, pos, f),
                )
            },
            TypeDef::Tuple(tys) => if tys@.len() == 0 {
                Ok((seq![NodeView::Null], pos))
            } else {
                prefixed(seq![NodeView::Sequence(tys@.len())], tuple_spec(types, tys@, 0, s, pos, f))
            },
            TypeDef::Primitive(p) => primitive_spec(p, s, pos),
            TypeDef::Compact(_) => match compact_spec(s, pos) {
                Err(e) => Err(e),
                Ok((n, p)) => Ok((seq![NodeView::Number(n)], p)),
            },
            TypeDef::BitSequence => match compact_spec(s, pos) {
                Err(e) => Err(e),
                Ok((n, p)) => bytes_spec(s, p, bit_bytes(n)),
            },
        }
    }
}

/// The number of bytes that hold `n` bits.
pub open spec fn bit_bytes(n: nat) -> nat {
    n / 8 + if n % 8 == 0 {
        0nat
    } else {
        1nat
    }
}

/// Decodes the fields from the `i`-th on, each as a `Field` node and its value.
pub open spec fn fields_spec(
    types: Seq<TypeDef>,
    fields: Seq<Field>,
    i: nat,
    s: Seq<u8>,
    pos: nat,
    fuel: nat,
) -> Result<(Seq<NodeView>, nat), Error>
    decreases fuel, 1nat, fields.len() - i,
{
    if i >= fields.len() {
        Ok((Seq::empty(), pos))
    } else {
        match decode_spec(types, fields[i as int].ty, s, pos, fuel) {
            Err(e) => Err(e),
            Ok((a, p)) => prefixed(
                seq![NodeView::Field(fields[i as int].name@)] + a,
                fields_spec(types, fields, i + 1, s, p, fuel),
            ),
        }
    }
}

/// Decodes `n` values of type `elem` one after another.
pub open spec fn list_spec(types: Seq<TypeDef>, elem: u32, n: nat, s: Seq<u8>, pos: nat, fuel: nat) -> Result<
    (Seq<NodeView>, nat),
    Error,
>
    decreases fuel, 1nat, n,
{
    if n == 0 {
        Ok((Seq::empty(), pos))
    } else {
        match decode_spec(types, elem, s, pos, fuel) {
            Err(e) => Err(e),
            Ok((a, p)) => prefixed(a, list_spec(types, elem, (n - 1) as nat, s, p, fuel)),
        }
    }
}

/// Decodes values of the types `tys` from the `i`-th on.
pub open spec fn tuple_spec(types: Seq<TypeDef>, tys: Seq<u32>, i: nat, s: Seq<u8>, pos: nat, fuel: nat) -> Result<
    (Seq<NodeView>, nat),
    Error,
>
    decreases fuel, 1nat, tys.len() - i,
{
    if i >= tys.len() {
        Ok((Seq::empty(), pos))
    } else {
        match decode_spec(types, tys[i as int], s, pos, fuel) {
            Err(e) => Err(e),
            Ok((a, p)) => prefixed(a, tuple_spec(types, tys, i + 1, s, p, fuel)),
        }
    }
}

/// What an exec decoding step promises: on success the end position and the
/// nodes appended to `out`, on failure the same error as the specification.
pub open spec fn appended(
    spec_r: Result<(Seq<NodeView>, nat), Error>,
    r: Result<usize, Error>,
    before: Seq<Node>,
    after: Seq<Node>,
    len: nat,
) -> bool {
    match spec_r {
        Ok((ns, e)) => r is Ok && r->Ok_0 == e && e <= len && views(after) == views(before) + ns,
        Err(err) => r == Err::<usize, Error>(err),
    }
}

fn push_node(out: &mut Vec<Node>, n: Node)
    ensures
        views(final(out)@) == views(old(out)@) + seq![n@],
{
    let ghost v = n@;
    out.push(n);
    assert(views(final(out)@) =~= views(old(out)@) + seq![v]);
}

proof fn lemma_prefixed_assoc(x: Seq<NodeView>, y: Seq<NodeView>, r: Result<(Seq<NodeView>, nat), Error>)
    ensures
        prefixed(x, prefixed(y, r)) == prefixed(x + y, r),
{
    if let Ok((ns, e)) = r {
        assert(x + (y + ns) == (x + y) + ns);
    }
}

proof fn lemma_prefixed_empty(r: Result<(Seq<NodeView>, nat), Error>)
    ensures
        prefixed(Seq::empty(), r) == r,
{
    if let Ok((ns, e)) = r {
        assert(Seq::<NodeView>::empty() + ns == ns);
    }
}

fn width_of(p: Primitive) -> (r: usize)
    ensures
        r == int_width(p),
{
    match p {
        Primitive::U8 | Primitive::I8 => 1,
        Primitive::U16 | Primitive::I16 => 2,
        Primitive::U32 | Primitive::I32 | Primitive::Char => 4,
        Primitive::U64 | Primitive::I64 => 8,
        Primitive::U128 | Primitive::I128 => 16,
        _ => 0,
    }
}

/// The two's-complement reading of the `w`-byte unsigned value `raw`.
pub fn to_signed(raw: u128, w: usize) -> (r: i128)
    requires
        w == 1 || w == 2 || w == 4 || w == 8 || w == 16,
        raw < pow256(w as nat),
    ensures
        r == signed_of(raw as nat, w as nat),
{
    proof {
        reveal_with_fuel(pow256, 17);
    }
    let half: u128 = if w == 1 {
        0x80
    } else if w == 2 {
        0x8000
    } else if w == 4 {
        0x8000_0000
    } else if w == 8 {
        0x8000_0000_0000_0000
    } else {
        0x8000_0000_0000_0000_0000_0000_0000_0000
    };
    assert(pow256(w as nat) == 2 * half);
    if raw >= half {
        let x = (half - 1 - (raw - half)) as i128;
        -x - 1
    } else {
        raw as i128
    }
}

fn decode_primitive(p: Primitive, s: &[u8], pos: usize, out: &mut Vec<Node>) -> (r: Result<usize, Error>)
    requires
        pos <= s@.len(),
    ensures
        appended(primitive_spec(p, s@, pos as nat), r, old(out)@, final(out)@, s@.len()),
{
    match p {
        Primitive::Bool => {
            if pos >= s.len() {
                return Err(Error::TruncatedInput);
            }
            push_node(out, Node::Bool(s[pos] != 0));
            Ok(pos + 1)
        },
        Primitive::Str => {
            let (n, q) = match read_compact(s, pos) {
                Ok(x) => x,
                Err(e) => {
                    return Err(e);
                },
            };
            if n > (s.len() - q) as u128 {
                return Err(Error::TruncatedInput);
            }
            let end = q + n as usize;
            push_node(out, Node::Text(copy_range(s, q, end)));
            Ok(end)
        },
        Primitive::U256 | Primitive::I256 => decode_bytes(s, pos, 32, out),
        _ => {
            let w = width_of(p);
            if w > s.len() || pos > s.len() - w {
                return Err(Error::TruncatedInput);
            }
            let raw = read_le(s, pos, w);
            proof {
                crate::codec::lemma_le_value_bound(s@.subrange(pos as int, pos + w));
            }
            match p {
                Primitive::I8 | Primitive::I16 | Primitive::I32 | Primitive::I64 | Primitive::I128 => {
                    push_node(out, Node::Signed(to_signed(raw, w)));
                },
                _ => {
                    push_node(out, Node::Number(raw));
                },
            }
            Ok(pos + w)
        },
    }
}

fn decode_bytes(s: &[u8], pos: usize, n: u128, out: &mut Vec<Node>) -> (r: Result<usize, Error>)
    ensures
        appended(bytes_spec(s@, pos as nat, n as nat), r, old(out)@, final(out)@, s@.len()),
{
    if pos > s.len() || n > (s.len() - pos) as u128 {
        return Err(Error::TruncatedInput);
    }
    let end = pos + n as usize;
    push_node(out, Node::Bytes(copy_range(s, pos, end)));
    Ok(end)
}

fn is_byte_elem(types: &Vec<TypeDef>, ty: u32) -> (r: bool)
    ensures
        r == is_byte_type(types@, ty),
{
    if (ty as usize) < types.len() {
        match &types[ty as usize] {
            TypeDef::Primitive(Primitive::U8) => true,
            _ => false,
        }
    } else {
        false
    }
}

fn find_variant(vs: &Vec<VariantDef>, tag: u8) -> (r: Option<usize>)
    ensures
        r matches Some(i) ==> variant_from(vs@, tag, 0) == Some(i as nat) && i < vs@.len(),
        r is None ==> variant_from(vs@, tag, 0) is None,
{
    let mut i: usize = 0;
    while i < vs.len()
        invariant
            i <= vs@.len(),
            variant_from(vs@, tag, 0) == variant_from(vs@, tag, i as nat),
        decreases vs@.len() - i,
    {
        if vs[i].index == tag {
            return Some(i);
        }
        i = i + 1;
    }
    None
}

/// Decodes a value of type `ty` at `pos`, appending its nodes to `out`.
pub fn decode_at(types: &Vec<TypeDef>, ty: u32, s: &[u8], pos: usize, fuel: u64, out: &mut Vec<Node>) -> (r:
    Result<usize, Error>)
    requires
        pos <= s@.len(),
    ensures
        appended(decode_spec(types@, ty, s@, pos as nat, fuel as nat), r, old(out)@, final(out)@, s@.len()),
    decreases fuel, 0nat, 0nat,
{
    if fuel == 0 {
        return Err(Error::DepthLimit);
    }
    if ty as usize >= types.len() {
        return Err(Error::BadMetadata);
    }
    let f = fuel - 1;
    match &types[ty as usize] {
        TypeDef::Composite(fields) => {
            push_node(out, Node::Struct(fields.len()));
            let r = decode_fields(types, fields, s, pos, f, out);
            proof {
                lemma_prefixed_assoc(views(old(out)@), seq![NodeView::Struct(fields@.len())], fields_spec(types@, fields@, 0, s@, pos as nat, f as nat));
            }
            r
        },
        TypeDef::Variant(vs) => {
            if pos >= s.len() {
                return Err(Error::TruncatedInput);
            }
            match find_variant(vs, s[pos]) {
                None => Err(Error::UnknownVariant),
                Some(i) => {
                    let v = &vs[i];
                    push_node(out, Node::Variant(copy_bytes(v.name.as_slice())));
                    push_node(out, Node::Struct(v.fields.len()));
                    let r = decode_fields(types, &v.fields, s, pos + 1, f, out);
                    proof {
                        lemma_prefixed_assoc(views(old(out)@), seq![NodeView::Variant(v.name@), NodeView::Struct(v.fields@.len())], fields_spec(types@, v.fields@, 0, s@, (pos + 1) as nat, f as nat));
                        assert(views(old(out)@) + seq![NodeView::Variant(v.name@)] + seq![NodeView::Struct(v.fields@.len())]
                            == views(old(out)@) + seq![NodeView::Variant(v.name@), NodeView::Struct(v.fields@.len())]);
                    }
                    r
                },
            }
        },
        TypeDef::Sequence(elem) => {
            let (n, q) = match read_compact(s, pos) {
                Ok(x) => x,
                Err(e) => {
                    return Err(e);
                },
            };
            if is_byte_elem(types, *elem) {
                decode_bytes(s, q, n, out)
            } else {
                push_node(out, Node::Sequence(n));
                let r = decode_list(types, *elem, n, s, q, f, out);
                proof {
                    lemma_prefixed_assoc(views(old(out)@), seq![NodeView::Sequence(n as nat)], list_spec(types@, *elem, n as nat, s@, q as nat, f as nat));
                }
                r
            }
        },
        TypeDef::Array(n, elem) => {
            if is_byte_elem(types, *elem) {
                decode_bytes(s, pos, *n as u128, out)
            } else {
                push_node(out, Node::Sequence(*n as u128));
                let r = decode_list(types, *elem, *n as u128, s, pos, f, out);
                proof {
                    lemma_prefixed_assoc(views(old(out)@), seq![NodeView::Sequence(*n as nat)], list_spec(types@, *elem, *n as nat, s@, pos as nat, f as nat));
                }
                r
            }
        },
        TypeDef::Tuple(tys) => {
            if tys.len() == 0 {
                push_node(out, Node::Null);
                return Ok(pos);
            }
            push_node(out, Node::Sequence(tys.len() as u128));
            let r = decode_tuple(types, tys, s, pos, f, out);
            proof {
                lemma_prefixed_assoc(views(old(out)@), seq![NodeView::Sequence(tys@.len())], tuple_spec(types@, tys@, 0, s@, pos as nat, f as nat));
            }
            r
        },
        TypeDef::Primitive(p) => decode_primitive(*p, s, pos, out),
        TypeDef::Compact(_) => {
            let (n, q) = match read_compact(s, pos) {
                Ok(x) => x,
                Err(e) => {
                    return Err(e);
                },
            };
            push_node(out, Node::Number(n));
            Ok(q)
        },
        TypeDef::BitSequence => {
            let (n, q) = match read_compact(s, pos) {
                Ok(x) => x,
                Err(e) => {
                    return Err(e);
                },
            };
            let len = n / 8 + if n % 8 == 0 {
                0
            } else {
                1
            };
            decode_bytes(s, q, len, out)
        },
    }
}

fn decode_fields(types: &Vec<TypeDef>, fields: &Vec<Field>, s: &[u8], pos: usize, fuel: u64, out: &mut Vec<Node>) -> (r:
    Result<usize, Error>)
    requires
        pos <= s@.len(),
    ensures
        appended(fields_spec(types@, fields@, 0, s@, pos as nat, fuel as nat), r, old(out)@, final(out)@, s@.len()),
    decreases fuel, 1nat, fields@.len(),
{
    let ghost base = views(old(out)@);
    let ghost whole = fields_spec(types@, fields@, 0, s@, pos as nat, fuel as nat);
    let ghost mut acc: Seq<NodeView> = Seq::empty();
    let mut p = pos;
    let mut i: usize = 0;
    proof {
        lemma_prefixed_empty(whole);
        assert(base + acc == base);
    }
    while i < fields.len()
        invariant
            i <= fields@.len(),
            p <= s@.len(),
            views(out@) == base + acc,
            whole == fields_spec(types@, fields@, 0, s@, pos as nat, fuel as nat),
            base == views(old(out)@),
            whole == prefixed(acc, fields_spec(types@, fields@, i as nat, s@, p as nat, fuel as nat)),
        decreases fields@.len() - i,
    {
        let fd = &fields[i];
        push_node(out, Node::Field(copy_bytes(fd.name.as_slice())));
        let q = match decode_at(types, fd.ty, s, p, fuel, out) {
            Ok(q) => q,
            Err(e) => {
                return Err(e);
            },
        };
        proof {
            let (a2, e2) = decode_spec(types@, fd.ty, s@, p as nat, fuel as nat)->Ok_0;
            lemma_prefixed_assoc(acc, seq![NodeView::Field(fd.name@)] + a2, fields_spec(types@, fields@, (i + 1) as nat, s@, q as nat, fuel as nat));
            assert(acc + (seq![NodeView::Field(fd.name@)] + a2) == acc + seq![NodeView::Field(fd.name@)] + a2);
            acc = acc + seq![NodeView::Field(fd.name@)] + a2;
        }
        p = q;
        i = i + 1;
    }
    proof {
        assert(acc + Seq::<NodeView>::empty() == acc);
    }
    Ok(p)
}

fn decode_list(types: &Vec<TypeDef>, elem: u32, n: u128, s: &[u8], pos: usize, fuel: u64, out: &mut Vec<Node>) -> (r:
    Result<usize, Error>)
    requires
        pos <= s@.len(),
    ensures
        appended(list_spec(types@, elem, n as nat, s@, pos as nat, fuel as nat), r, old(out)@, final(out)@, s@.len()),
    decreases fuel, 1nat, n,
{
    let ghost base = views(old(out)@);
    let ghost whole = list_spec(types@, elem, n as nat, s@, pos as nat, fuel as nat);
    let ghost mut acc: Seq<NodeView> = Seq::empty();
    let mut p = pos;
    let mut k: u128 = 0;
    proof {
        lemma_prefixed_empty(whole);
        assert(base + acc == base);
    }
    while k < n
        invariant
            k <= n,
            p <= s@.len(),
            views(out@) == base + acc,
            whole == list_spec(types@, elem, n as nat, s@, pos as nat, fuel as nat),
            base == views(old(out)@),
            whole == prefixed(acc, list_spec(types@, elem, (n - k) as nat, s@, p as nat, fuel as nat)),
        decreases n - k,
    {
        let q = match decode_at(types, elem, s, p, fuel, out) {
            Ok(q) => q,
            Err(e) => {
                return Err(e);
            },
        };
        proof {
            let (a2, e2) = decode_spec(types@, elem, s@, p as nat, fuel as nat)->Ok_0;
            lemma_prefixed_assoc(acc, a2, list_spec(types@, elem, (n - k - 1) as nat, s@, q as nat, fuel as nat));
            acc = acc + a2;
        }
        p = q;
        k = k + 1;
    }
    proof {
        assert(acc + Seq::<NodeView>::empty() == acc);
    }
    Ok(p)
}

fn decode_tuple(types: &Vec<TypeDef>, tys: &Vec<u32>, s: &[u8], pos: usize, fuel: u64, out: &mut Vec<Node>) -> (r:
    Result<usize, Error>)
    requires
        pos <= s@.len(),
    ensures
        appended(tuple_spec(types@, tys@, 0, s@, pos as nat, fuel as nat), r, old(out)@, final(out)@, s@.len()),
    decreases fuel, 1nat, tys@.len(),
{
    let ghost base = views(old(out)@);
    let ghost whole = tuple_spec(types@, tys@, 0, s@, pos as nat, fuel as nat);
    let ghost mut acc: Seq<NodeView> = Seq::empty();
    let mut p = pos;
    let mut i: usize = 0;
    proof {
        lemma_prefixed_empty(whole);
        assert(base + acc == base);
    }
    while i < tys.len()
        invariant
            i <= tys@.len(),
            p <= s@.len(),
            views(out@) == base + acc,
            whole == tuple_spec(types@, tys@, 0, s@, pos as nat, fuel as nat),
            base == views(old(out)@),
            whole == prefixed(acc, tuple_spec(types@, tys@, i as nat, s@, p as nat, fuel as nat)),
        decreases tys@.len() - i,
    {
        let ghost step = decode_spec(types@, tys@[i as int], s@, p as nat, fuel as nat);
        assert(tuple_spec(types@, tys@, i as nat, s@, p as nat, fuel as nat) == match step {
            Err(e) => Err(e),
            Ok((a, q)) => prefixed(a, tuple_spec(types@, tys@, (i + 1) as nat, s@, q, fuel as nat)),
        });
        let q = match decode_at(types, tys[i], s, p, fuel, out) {
            Ok(q) => q,
            Err(e) => {
                assert(step == Err::<(Seq<NodeView>, nat), Error>(e));
                return Err(e);
            },
        };
        proof {
            let (a2, e2) = step->Ok_0;
            lemma_prefixed_assoc(acc, a2, tuple_spec(types@, tys@, (i + 1) as nat, s@, q as nat, fuel as nat));
            acc = acc + a2;
        }
        p = q;
        i = i + 1;
    }
    proof {
        assert(acc + Seq::<NodeView>::empty() == acc);
    }
    Ok(p)
}

impl MetadataIndex {
    /// Decodes `bytes` as a value of the type `ty`.
    pub fn decode(&self, bytes: &[u8], ty: u32) -> (r: Result<Value, Error>)
        ensures
            match decode_spec(self.types@, ty, bytes@, 0, MAX_DEPTH as nat) {
                Ok((ns, _)) => r is Ok && views(r->Ok_0.nodes@) == ns,
                Err(e) => r == Err::<Value, Error>(e),
            },
    {
        let mut out: Vec<Node> = Vec::new();
        proof {
            assert(views(out@) == Seq::<NodeView>::empty());
        }
        match decode_at(&self.types, ty, bytes, 0, MAX_DEPTH, &mut out) {
            Ok(_) => {
                proof {
                    assert(Seq::<NodeView>::empty() + decode_spec(self.types@, ty, bytes@, 0, MAX_DEPTH as nat)->Ok_0.0
                        == decode_spec(self.types@, ty, bytes@, 0, MAX_DEPTH as nat)->Ok_0.0);
                }
                Ok(Value { nodes: out })
            },
            Err(e) => Err(e),
        }
    }

    /// Whether `bytes` hold exactly one value of type `ty` and nothing more.
    pub fn accepts(&self, bytes: &[u8], ty: u32) -> (r: bool)
        ensures
            r == accepts_spec(self.types@, ty, bytes@),
    {
        let mut out: Vec<Node> = Vec::new();
        match decode_at(&self.types, ty, bytes, 0, MAX_DEPTH, &mut out) {
            Ok(end) => end == bytes.len(),
            Err(_) => false,
        }
    }
}

/// Whether `s` is exactly one encoded value of type `ty`.
pub open spec fn accepts_spec(types: Seq<TypeDef>, ty: u32, s: Seq<u8>) -> bool {
    match decode_spec(types, ty, s, 0, MAX_DEPTH as nat) {
        Ok((_, e)) => e == s.len(),
        Err(_) => false,
    }
}

/// A successful decoding seen through a buffer cut to its first `k` bytes:
/// unchanged when it ends within them, truncated otherwise.
pub open spec fn cut(r: Result<(Seq<NodeView>, nat), Error>, k: nat) -> Result<(Seq<NodeView>, nat), Error> {
    match r {
        Ok((ns, e)) => if e <= k {
            r
        } else {
            Err(Error::TruncatedInput)
        },
        Err(e) => Err(e),
    }
}

proof fn lemma_same_range(s: Seq<u8>, k: nat, a: nat, b: nat)
    requires
        a <= b <= k <= s.len(),
    ensures
        s.subrange(0, k as int).subrange(a as int, b as int) == s.subrange(a as int, b as int),
{
    assert(s.subrange(0, k as int).subrange(a as int, b as int) =~= s.subrange(a as int, b as int));
}

proof fn lemma_compact_cut(s: Seq<u8>, k: nat, pos: nat)
    requires
        pos <= k <= s.len(),
        compact_spec(s, pos) is Ok,
    ensures
        compact_spec(s.subrange(0, k as int), pos) == (match compact_spec(s, pos) {
            Ok((v, e)) => if e <= k {
                compact_spec(s, pos)
            } else {
                Err(Error::TruncatedInput)
            },
            Err(e) => Err(e),
        }),
        compact_spec(s, pos)->Ok_0.1 > pos,
        compact_spec(s, pos)->Ok_0.1 <= s.len(),
{
    let t = s.subrange(0, k as int);
    if pos < k {
        assert(t[pos as int] == s[pos as int]);
        let b = s[pos as int];
        if b % 4 == 1 && pos + 2 <= k {
            lemma_same_range(s, k, pos, pos + 2);
        } else if b % 4 == 2 && pos + 4 <= k {
            lemma_same_range(s, k, pos, pos + 4);
        } else if b % 4 == 3 && pos + 1 + ((b / 4) as nat + 4) <= k {
            lemma_same_range(s, k, pos + 1, pos + 1 + ((b / 4) as nat + 4));
        }
    }
}

proof fn lemma_primitive_cut(p: Primitive, s: Seq<u8>, k: nat, pos: nat)
    requires
        pos <= k <= s.len(),
        primitive_spec(p, s, pos) is Ok,
    ensures
        primitive_spec(p, s.subrange(0, k as int), pos) == cut(primitive_spec(p, s, pos), k),
        primitive_spec(p, s, pos)->Ok_0.1 >= pos,
        primitive_spec(p, s, pos)->Ok_0.1 <= s.len(),
{
    let t = s.subrange(0, k as int);
    match p {
        Primitive::Bool => {
            if pos < k {
                assert(t[pos as int] == s[pos as int]);
            }
        },
        Primitive::Str => {
            lemma_compact_cut(s, k, pos);
            if let Ok((n, q)) = compact_spec(s, pos) {
                if q + n <= k {
                    lemma_same_range(s, k, q, q + n);
                }
            }
        },
        Primitive::U256 | Primitive::I256 => {
            lemma_bytes_cut(s, k, pos, 32);
        },
        _ => {
            let w = int_width(p);
            if pos + w <= k {
                lemma_same_range(s, k, pos, pos + w);
            }
        },
    }
}

proof fn lemma_bytes_cut(s: Seq<u8>, k: nat, pos: nat, n: nat)
    requires
        pos <= k <= s.len(),
        bytes_spec(s, pos, n) is Ok,
    ensures
        bytes_spec(s.subrange(0, k as int), pos, n) == cut(bytes_spec(s, pos, n), k),
        bytes_spec(s, pos, n)->Ok_0.1 >= pos,
        bytes_spec(s, pos, n)->Ok_0.1 <= s.len(),
{
    if pos + n <= k {
        lemma_same_range(s, k, pos, pos + n);
    }
}

proof fn lemma_decode_cut(types: Seq<TypeDef>, ty: u32, s: Seq<u8>, k: nat, pos: nat, fuel: nat)
    requires
        pos <= k <= s.len(),
        decode_spec(types, ty, s, pos, fuel) is Ok,
    ensures
        decode_spec(types, ty, s.subrange(0, k as int), pos, fuel) == cut(decode_spec(types, ty, s, pos, fuel), k),
        decode_spec(types, ty, s, pos, fuel)->Ok_0.1 >= pos,
        decode_spec(types, ty, s, pos, fuel)->Ok_0.1 <= s.len(),
    decreases fuel, 0nat, 0nat,
{
    let t = s.subrange(0, k as int);
    let f = (fuel - 1) as nat;
    match types[ty as int] {
        TypeDef::Composite(fields) => {
            lemma_fields_cut(types, fields@, 0, s, k, pos, f);
        },
        TypeDef::Variant(vs) => {
            if pos < k {
                assert(t[pos as int] == s[pos as int]);
                let i = variant_from(vs@, s[pos as int], 0)->Some_0;
                lemma_fields_cut(types, vs@[i as int].fields@, 0, s, k, pos + 1, f);
            } else {
                lemma_fields_cut(types, vs@[variant_from(vs@, s[pos as int], 0)->Some_0 as int].fields@, 0, s, s.len(), pos + 1, f);
            }
        },
        TypeDef::Sequence(elem) => {
            lemma_compact_cut(s, k, pos);
            let (n, q) = compact_spec(s, pos)->Ok_0;
            if is_byte_type(types, elem) {
                lemma_bytes_cut(s, s.len(), q, n);
                if q <= k {
                    lemma_bytes_cut(s, k, q, n);
                }
            } else {
                lemma_list_cut(types, elem, n, s, s.len(), q, f);
                if q <= k {
                    lemma_list_cut(types, elem, n, s, k, q, f);
                }
            }
        },
        TypeDef::Array(n, elem) => {
            if is_byte_type(types, elem) {
                lemma_bytes_cut(s, k, pos, n as nat);
            } else {
                lemma_list_cut(types, elem, n as nat, s, k, pos, f);
            }
        },
        TypeDef::Tuple(tys) => {
            if tys@.len() > 0 {
                lemma_tuple_cut(types, tys@, 0, s, k, pos, f);
            }
        },
        TypeDef::Primitive(p) => {
            lemma_primitive_cut(p, s, k, pos);
        },
        TypeDef::Compact(_) => {
            lemma_compact_cut(s, k, pos);
        },
        TypeDef::BitSequence => {
            lemma_compact_cut(s, k, pos);
            let (n, q) = compact_spec(s, pos)->Ok_0;
            lemma_bytes_cut(s, s.len(), q, bit_bytes(n));
            if q <= k {
                lemma_bytes_cut(s, k, q, bit_bytes(n));
            }
        },
    }
}

proof fn lemma_fields_cut(types: Seq<TypeDef>, fields: Seq<Field>, i: nat, s: Seq<u8>, k: nat, pos: nat, fuel: nat)
    requires
        pos <= k <= s.len(),
        fields_spec(types, fields, i, s, pos, fuel) is Ok,
    ensures
        fields_spec(types, fields, i, s.subrange(0, k as int), pos, fuel) == cut(fields_spec(types, fields, i, s, pos, fuel), k),
        fields_spec(types, fields, i, s, pos, fuel)->Ok_0.1 >= pos,
        fields_spec(types, fields, i, s, pos, fuel)->Ok_0.1 <= s.len(),
    decreases fuel, 1nat, fields.len() - i,
{
    if i < fields.len() {
        let fd = fields[i as int];
        lemma_decode_cut(types, fd.ty, s, s.len(), pos, fuel);
        lemma_decode_cut(types, fd.ty, s, k, pos, fuel);
        let (a, p) = decode_spec(types, fd.ty, s, pos, fuel)->Ok_0;
        lemma_fields_cut(types, fields, i + 1, s, s.len(), p, fuel);
        if p <= k {
            lemma_fields_cut(types, fields, i + 1, s, k, p, fuel);
        }
    }
}

proof fn lemma_list_cut(types: Seq<TypeDef>, elem: u32, n: nat, s: Seq<u8>, k: nat, pos: nat, fuel: nat)
    requires
        pos <= k <= s.len(),
        list_spec(types, elem, n, s, pos, fuel) is Ok,
    ensures
        list_spec(types, elem, n, s.subrange(0, k as int), pos, fuel) == cut(list_spec(types, elem, n, s, pos, fuel), k),
        list_spec(types, elem, n, s, pos, fuel)->Ok_0.1 >= pos,
        list_spec(types, elem, n, s, pos, fuel)->Ok_0.1 <= s.len(),
    decreases fuel, 1nat, n,
{
    if n > 0 {
        lemma_decode_cut(types, elem, s, s.len(), pos, fuel);
        lemma_decode_cut(types, elem, s, k, pos, fuel);
        let (a, p) = decode_spec(types, elem, s, pos, fuel)->Ok_0;
        lemma_list_cut(types, elem, (n - 1) as nat, s, s.len(), p, fuel);
        if p <= k {
            lemma_list_cut(types, elem, (n - 1) as nat, s, k, p, fuel);
        }
    }
}

proof fn lemma_tuple_cut(types: Seq<TypeDef>, tys: Seq<u32>, i: nat, s: Seq<u8>, k: nat, pos: nat, fuel: nat)
    requires
        pos <= k <= s.len(),
        tuple_spec(types, tys, i, s, pos, fuel) is Ok,
    ensures
        tuple_spec(types, tys, i, s.subrange(0, k as int), pos, fuel) == cut(tuple_spec(types, tys, i, s, pos, fuel), k),
        tuple_spec(types, tys, i, s, pos, fuel)->Ok_0.1 >= pos,
        tuple_spec(types, tys, i, s, pos, fuel)->Ok_0.1 <= s.len(),
    decreases fuel, 1nat, tys.len() - i,
{
    if i < tys.len() {
        lemma_decode_cut(types, tys[i as int], s, s.len(), pos, fuel);
        lemma_decode_cut(types, tys[i as int], s, k, pos, fuel);
        let (a, p) = decode_spec(types, tys[i as int], s, pos, fuel)->Ok_0;
        lemma_tuple_cut(types, tys, i + 1, s, s.len(), p, fuel);
        if p <= k {
            lemma_tuple_cut(types, tys, i + 1, s, k, p, fuel);
        }
    }
}

/// Decoding a buffer cut short of where a value's encoding ends fails as
/// truncated input: it never yields a partial value.
pub proof fn lemma_truncated_input(idx: &MetadataIndex, ty: u32, s: Seq<u8>, k: nat)
    requires
        decode_spec(idx.types@, ty, s, 0, MAX_DEPTH as nat) matches Ok((_, e)) && k < e,
    ensures
        decode_spec(idx.types@, ty, s.subrange(0, k as int), 0, MAX_DEPTH as nat) == Err::<(Seq<NodeView>, nat), Error>(
            Error::TruncatedInput,
        ),
{
    lemma_decode_cut(idx.types@, ty, s, s.len(), 0, MAX_DEPTH as nat);
    lemma_decode_cut(idx.types@, ty, s, k, 0, MAX_DEPTH as nat);
}

} // verus!
