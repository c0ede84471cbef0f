use vstd::prelude::*;
use crate::error::Error;

verus! {

/// Appends `src` to `dst`.
pub fn append_bytes(dst: &mut Vec<u8>, src: &[u8])
    ensures
        final(dst)@ == old(dst)@ + src@,
{
    let mut i: usize = 0;
    while i < src.len()
        invariant
            0 <= i <= src@.len(),
            dst@ == old(dst)@ + src@.subrange(0, i as int),
        decreases src@.len() - i,
    {
        dst.push(src[i]);
        i = i + 1;
        assert(src@.subrange(0, i as int) == src@.subrange(0, i - 1) + seq![src@[i - 1]]);
    }
    assert(src@.subrange(0, src@.len() as int) == src@);
}

/// A fresh copy of the bytes of `s` from `start` up to `end`.
pub fn copy_range(s: &[u8], start: usize, end: usize) -> (r: Vec<u8>)
    requires
        start <= end <= s@.len(),
    ensures
        r@ == s@.subrange(start as int, end as int),
{
    let mut r: Vec<u8> = Vec::new();
    let mut i: usize = start;
    while i < end
        invariant
            start <= i <= end <= s@.len(),
            r@ == s@.subrange(start as int, i as int),
        decreases end - i,
    {
        r.push(s[i]);
        i = i + 1;
        assert(s@.subrange(start as int, i as int) == s@.subrange(start as int, i - 1) + seq![s@[i - 1]]);
    }
    r
}

/// A fresh copy of `src`.
pub fn copy_bytes(src: &[u8]) -> (r: Vec<u8>)
    ensures
        r@ == src@,
{
    let mut r: Vec<u8> = Vec::new();
    append_bytes(&mut r, src);
    r
}

/// The unsigned integer whose little-endian bytes are `s`.
pub open spec fn le_value(s: Seq<u8>) -> nat
    decreases s.len(),
{
    if s.len() == 0 {
        0
    } else {
        s[0] as nat + 256 * le_value(s.drop_first())
    }
}

pub open spec fn pow256(n: nat) -> nat
    decreases n,
{
    if n == 0 {
        1
    } else {
        256 * pow256((n - 1) as nat)
    }
}

/// The `n` little-endian bytes of `v` (the value taken modulo 256^n).
pub open spec fn le_bytes(v: nat, n: nat) -> Seq<u8>
    decreases n,
{
    if n == 0 {
        Seq::empty()
    } else {
        seq![(v % 256) as u8] + le_bytes(v / 256, (n - 1) as nat)
    }
}

pub proof fn lemma_le_value_bound(s: Seq<u8>)
    ensures
        le_value(s) < pow256(s.len()),
    decreases s.len(),
{
    if s.len() > 0 {
        lemma_le_value_bound(s.drop_first());
    }
}

proof fn lemma_le_value_step(s: Seq<u8>, i: int)
    requires
        0 <= i < s.len(),
    ensures
        le_value(s.subrange(i, s.len() as int)) == s[i] as nat + 256 * le_value(
            s.subrange(i + 1, s.len() as int),
        ),
{
    assert(s.subrange(i, s.len() as int).drop_first() == s.subrange(i + 1, s.len() as int));
}

/// Reads `n` little-endian bytes of `s` starting at `pos`.
pub fn read_le(s: &[u8], pos: usize, n: usize) -> (r: u128)
    requires
        n <= 16,
        pos + n <= s@.len(),
    ensures
        r == le_value(s@.subrange(pos as int, pos + n)),
{
    let ghost w = s@.subrange(pos as int, pos + n);
    let mut v: u128 = 0;
    let mut k: usize = n;
    let slen = s.len();
    proof {
        reveal_with_fuel(pow256, 17);
    }
    while k > 0
        invariant
            k <= n <= 16,
            pos + n <= s@.len(),
            slen == s@.len(),
            w == s@.subrange(pos as int, pos + n),
            v == le_value(w.subrange(k as int, n as int)),
            pow256((n - k) as nat) <= pow256(16),
            pow256(16) == 0x1_0000_0000_0000_0000_0000_0000_0000_0000,
        decreases k,
    {
        proof {
            lemma_le_value_step(w.subrange(0, n as int), (k - 1) as int);
            assert(w.subrange(0, n as int) == w);
            assert(w.subrange(k as int, n as int) == w.subrange(0, n as int).subrange(k as int, n as int));
            lemma_le_value_bound(w.subrange(k as int, n as int));
            lemma_pow256_mono((n - k + 1) as nat, 16);
        }
        let b = s[pos + (k - 1)];
        assert(b == w[k - 1]);
        v = v * 256 + b as u128;
        k = k - 1;
    }
    assert(w.subrange(0, n as int) == w);
    v
}

pub proof fn lemma_pow256_mono(a: nat, b: nat)
    requires
        a <= b,
    ensures
        pow256(a) <= pow256(b),
    decreases b,
{
    if a < b {
        lemma_pow256_mono(a, (b - 1) as nat);
    }
}

/// The SCALE compact integer at `pos`, with the position after it.
/// Values wider than 128 bits are refused as unsupported.
pub open spec fn compact_spec(s: Seq<u8>, pos: nat) -> Result<(nat, nat), Error> {
    if pos >= s.len() {
        Err(Error::TruncatedInput)
    } else {
        let b = s[pos as int];
        let mode = b % 4;
        if mode == 0 {
            Ok(((b / 4) as nat, pos + 1))
        } else if mode == 1 || mode == 2 {
            let n: nat = if mode == 1 { 2 } else { 4 };
            if pos + n > s.len() {
                Err(Error::TruncatedInput)
            } else {
                Ok((le_value(s.subrange(pos as int, (pos + n) as int)) / 4, pos + n))
            }
        } else {
            let n: nat = (b / 4) as nat + 4;
            if n > 16 {
                Err(Error::UnsupportedType)
            } else if pos + 1 + n > s.len() {
                Err(Error::TruncatedInput)
            } else {
                Ok((le_value(s.subrange((pos + 1) as int, (pos + 1 + n) as int)), pos + 1 + n))
            }
        }
    }
}

/// Reads the SCALE compact integer at `pos`.
pub fn read_compact(s: &[u8], pos: usize) -> (r: Result<(u128, usize), Error>)
    ensures
        match compact_spec(s@, pos as nat) {
            Ok((v, end)) => r is Ok && r->Ok_0.0 == v && r->Ok_0.1 == end && end <= s@.len(),
            Err(e) => r == Err::<(u128, usize), Error>(e),
        },
{
    if pos >= s.len() {
        return Err(Error::TruncatedInput);
    }
    let b = s[pos];
    let mode = b % 4;
    proof {
        reveal_with_fuel(pow256, 17);
    }
    if mode == 0 {
        Ok(((b / 4) as u128, pos + 1))
    } else if mode == 1 || mode == 2 {
        let n: usize = if mode == 1 { 2 } else { 4 };
        if n > s.len() - pos {
            return Err(Error::TruncatedInput);
        }
        let v = read_le(s, pos, n);
        proof {
            lemma_le_value_bound(s@.subrange(pos as int, pos + n));
            lemma_pow256_mono(n as nat, 16);
        }
        Ok((v / 4, pos + n))
    } else {
        let n: usize = (b / 4) as usize + 4;
        if n > 16 {
            return Err(Error::UnsupportedType);
        }
        if n >= s.len() - pos {
            return Err(Error::TruncatedInput);
        }
        let v = read_le(s, pos + 1, n);
        proof {
            lemma_le_value_bound(s@.subrange(pos + 1, pos + 1 + n));
            lemma_pow256_mono(n as nat, 16);
        }
        Ok((v, pos + 1 + n))
    }
}

/// The `n` little-endian bytes of `v`.
pub fn write_le(v: u128, n: usize) -> (r: Vec<u8>)
    ensures
        r@ == le_bytes(v as nat, n as nat),
{
    let mut r: Vec<u8> = Vec::new();
    let mut x: u128 = v;
    let mut i: usize = 0;
    while i < n
        invariant
            i <= n,
            r@ + le_bytes(x as nat, (n - i) as nat) == le_bytes(v as nat, n as nat),
        decreases n - i,
    {
        proof {
            assert(le_bytes(x as nat, (n - i) as nat) == seq![(x % 256) as u8] + le_bytes(
                (x / 256) as nat,
                (n - i - 1) as nat,
            ));
        }
        r.push((x % 256) as u8);
        x = x / 256;
        i = i + 1;
        proof {
            assert(r@ + le_bytes(x as nat, (n - i) as nat) == le_bytes(v as nat, n as nat));
        }
    }
    assert(le_bytes(x as nat, 0) == Seq::<u8>::empty());
    assert(r@ + Seq::<u8>::empty() == r@);
    r
}

pub open spec fn is_digit(c: u8) -> bool {
    48 <= c <= 57
}

/// The number written in decimal by the digits `s`.
pub open spec fn dec_value(s: Seq<u8>) -> nat
    decreases s.len(),
{
    if s.len() == 0 {
        0
    } else {
        10 * dec_value(s.drop_last()) + (s.last() - 48) as nat
    }
}

/// Parses a non-empty string of decimal digits that fits in 128 bits.
pub fn parse_decimal(s: &[u8]) -> (r: Option<u128>)
    ensures
        r.is_some() <==> (s@.len() > 0 && (forall|i: int| 0 <= i < s@.len() ==> is_digit(#[trigger] s@[i]))
            && dec_value(s@) <= u128::MAX),
        r.is_some() ==> r.unwrap() == dec_value(s@),
{
    if s.len() == 0 {
        return None;
    }
    let mut v: u128 = 0;
    let mut i: usize = 0;
    while i < s.len()
        invariant
            i <= s@.len(),
            forall|j: int| 0 <= j < i ==> is_digit(#[trigger] s@[j]),
            v == dec_value(s@.subrange(0, i as int)),
        decreases s@.len() - i,
    {
        let c = s[i];
        assert(s@.subrange(0, i + 1).drop_last() == s@.subrange(0, i as int));
        if c < 48 || c > 57 {
            return None;
        }
        let d = (c - 48) as u128;
        if v > (u128::MAX - d) / 10 {
            proof {
                lemma_dec_prefix_bound(s@, i + 1);
            }
            return None;
        }
        v = v * 10 + d;
        i = i + 1;
    }
    assert(s@.subrange(0, s@.len() as int) == s@);
    Some(v)
}

proof fn lemma_dec_prefix_bound(s: Seq<u8>, k: int)
    requires
        0 < k <= s.len(),
        forall|j: int| 0 <= j < k ==> is_digit(#[trigger] s[j]),
    ensures
        dec_value(s.subrange(0, k)) <= dec_value(s),
    decreases s.len(),
{
    if k < s.len() {
        assert(s.drop_last().subrange(0, k) == s.subrange(0, k));
        lemma_dec_prefix_bound(s.drop_last(), k);
    } else {
        assert(s.subrange(0, k) == s);
    }
}

/// The number of bytes needed to write `v` in little-endian (at least one).
pub open spec fn byte_len(v: nat) -> nat
    decreases v,
{
    if v < 256 {
        1
    } else {
        1 + byte_len(v / 256)
    }
}

proof fn lemma_byte_len_bound(v: nat, k: nat)
    requires
        k >= 1,
        v < pow256(k),
    ensures
        byte_len(v) <= k,
    decreases k,
{
    if v >= 256 {
        assert(k > 1) by {
            if k == 1 {
                assert(pow256(1) == 256 * pow256(0));
            }
        }
        assert(v / 256 < pow256((k - 1) as nat)) by (nonlinear_arith)
            requires
                v < pow256(k),
                pow256(k) == 256 * pow256((k - 1) as nat),
        ;
        lemma_byte_len_bound(v / 256, (k - 1) as nat);
    }
}

/// The SCALE compact encoding of `v`, in its shortest form.
pub open spec fn compact_bytes(v: nat) -> Seq<u8> {
    if v < 64 {
        seq![(v * 4) as u8]
    } else if v < 0x4000 {
        le_bytes(v * 4 + 1, 2)
    } else if v < 0x4000_0000 {
        le_bytes(v * 4 + 2, 4)
    } else {
        let n = if byte_len(v) < 4 {
            4
        } else {
            byte_len(v)
        };
        seq![((n - 4) * 4 + 3) as u8] + le_bytes(v, n)
    }
}

/// Writes `v` as a SCALE compact integer.
pub fn write_compact(v: u128) -> (r: Vec<u8>)
    ensures
        r@ == compact_bytes(v as nat),
{
    if v < 64 {
        let mut r: Vec<u8> = Vec::new();
        r.push((v * 4) as u8);
        assert(r@ =~= seq![(v * 4) as u8]);
        r
    } else if v < 0x4000 {
        write_le(v * 4 + 1, 2)
    } else if v < 0x4000_0000 {
        write_le(v * 4 + 2, 4)
    } else {
        let mut n: usize = 1;
        let mut x: u128 = v;
        proof {
            reveal_with_fuel(pow256, 17);
        }
        while x >= 256
            invariant
                1 <= n <= 16,
                byte_len(v as nat) == n - 1 + byte_len(x as nat),
                x < pow256((17 - n) as nat),
            decreases x,
        {
            proof {
                lemma_byte_len_bound(x as nat, (17 - n) as nat);
                assert((x / 256) < pow256((16 - n) as nat)) by (nonlinear_arith)
                    requires
                        x < pow256((17 - n) as nat),
                        pow256((17 - n) as nat) == 256 * pow256((16 - n) as nat),
                ;
            }
            x = x / 256;
            n = n + 1;
        }
        proof {
            reveal_with_fuel(pow256, 17);
        }
        let n = if n < 4 {
            4
        } else {
            n
        };
        let mut r: Vec<u8> = Vec::new();
        r.push(((n - 4) * 4 + 3) as u8);
        let body = write_le(v, n);
        append_bytes(&mut r, body.as_slice());
        assert(r@ =~= seq![((n - 4) * 4 + 3) as u8] + le_bytes(v as nat, n as nat));
        r
    }
}

} // verus!
