//! Little-endian integer encodings used by every wire and commitment
//! format of the library, with the decode-after-encode law.
use vstd::prelude::*;
use vstd::arithmetic::div_mod::*;
use vstd::arithmetic::mul::*;

verus! {

/// `256^n`.
pub open spec fn pow256(n: nat) -> nat
    decreases n,
{
    if n == 0 { 1 } else { 256 * pow256((n - 1) as nat) }
}

/// The `n` little-endian bytes of `v` (only `v mod 256^n` survives).
pub open spec fn le_bytes(v: nat, n: nat) -> Seq<u8> {
    Seq::new(n, |i: int| ((v / pow256(i as nat)) % 256) as u8)
}

/// Value of a little-endian byte string.
pub open spec fn le_val(s: Seq<u8>) -> nat
    decreases s.len(),
{
    if s.len() == 0 {
        0
    } else {
        le_val(s.drop_last()) + (s.last() as nat) * pow256((s.len() - 1) as nat)
    }
}

/// Two's-complement bit pattern of a signed value in `n` bytes.
pub open spec fn to_unsigned(v: int, n: nat) -> nat {
    if v < 0 { (v + pow256(n)) as nat } else { v as nat }
}

/// Signed value of an `n`-byte two's-complement bit pattern.
pub open spec fn to_signed(u: nat, n: nat) -> int {
    if u >= pow256(n) / 2 { u - pow256(n) } else { u as int }
}

/// LE bytes of a signed value.
pub open spec fn le_signed(v: int, n: nat) -> Seq<u8> {
    le_bytes(to_unsigned(v, n), n)
}

pub proof fn lemma_pow256_pos(n: nat)
    ensures
        pow256(n) >= 1,
    decreases n,
{
    if n > 0 {
        lemma_pow256_pos((n - 1) as nat);
    }
}

pub proof fn lemma_pow256_values()
    ensures
        pow256(0) == 1,
        pow256(1) == 0x100,
        pow256(2) == 0x1_0000,
        pow256(3) == 0x100_0000,
        pow256(4) == 0x1_0000_0000,
        pow256(5) == 0x100_0000_0000,
        pow256(6) == 0x1_0000_0000_0000,
        pow256(7) == 0x100_0000_0000_0000,
        pow256(8) == 0x1_0000_0000_0000_0000,
{
    reveal_with_fuel(pow256, 9);
}

pub proof fn lemma_le_val_bound(s: Seq<u8>)
    ensures
        le_val(s) < pow256(s.len()),
    decreases s.len(),
{
    if s.len() > 0 {
        lemma_le_val_bound(s.drop_last());
        let p = pow256((s.len() - 1) as nat);
        let a = le_val(s.drop_last());
        let l = s.last() as nat;
        assert(a + l * p < 256 * p) by (nonlinear_arith)
            requires
                a < p,
                l <= 255,
        {}
    }
}

/// Decoding the encoding of `v` gives back `v mod 256^n`.
pub proof fn lemma_le_roundtrip_mod(v: nat, n: nat)
    ensures
        le_val(le_bytes(v, n)) == v % pow256(n),
    decreases n,
{
    lemma_pow256_pos(n);
    if n == 0 {
        assert(le_bytes(v, 0) =~= Seq::<u8>::empty());
    } else {
        let m = (n - 1) as nat;
        lemma_pow256_pos(m);
        lemma_le_roundtrip_mod(v, m);
        assert(le_bytes(v, n).drop_last() =~= le_bytes(v, m));
        let p = pow256(m) as int;
        // v % (p * 256) == p * ((v / p) % 256) + v % p
        lemma_breakdown(v as int, p, 256);
        lemma_mul_is_commutative(p, 256);
        lemma_mul_is_commutative(p, (v as int / p) % 256);
    }
}

/// Decoding the encoding of a value that fits gives back the value.
pub proof fn lemma_le_roundtrip(v: nat, n: nat)
    requires
        v < pow256(n),
    ensures
        le_val(le_bytes(v, n)) == v,
{
    lemma_le_roundtrip_mod(v, n);
    lemma_small_mod(v, pow256(n));
}

pub proof fn lemma_signed_roundtrip(v: int, n: nat)
    requires
        n >= 1,
        -(pow256(n) as int) / 2 <= v < (pow256(n) as int) / 2,
    ensures
        to_unsigned(v, n) < pow256(n),
        to_signed(to_unsigned(v, n), n) == v,
{
    lemma_pow256_pos(n);
}

/// Append the `n` little-endian bytes of `v`.
pub fn push_le(out: &mut Vec<u8>, v: u64, n: usize)
    requires
        n <= 8,
    ensures
        final(out)@ == old(out)@ + le_bytes(v as nat, n as nat),
{
    let ghost start = out@;
    let mut x: u64 = v;
    let mut i: usize = 0;
    proof {
        lemma_pow256_values();
        assert(le_bytes(v as nat, 0) =~= Seq::<u8>::empty());
    }
    while i < n
        invariant
            i <= n,
            n <= 8,
            x == v as nat / pow256(i as nat),
            out@ == start + le_bytes(v as nat, i as nat),
        decreases n - i,
    {
        out.push((x % 256) as u8);
        proof {
            lemma_pow256_pos(i as nat);
            lemma_div_denominator(v as int, pow256(i as nat) as int, 256);
            lemma_mul_is_commutative(pow256(i as nat) as int, 256);
            assert(le_bytes(v as nat, (i + 1) as nat) =~= le_bytes(v as nat, i as nat).push(((v as nat / pow256(i as nat)) % 256) as u8));
        }
        x = x / 256;
        i = i + 1;
    }
}

/// Value of the `n` little-endian bytes at `b[off..off+n]`.
pub fn read_le(b: &[u8], off: usize, n: usize) -> (r: u64)
    requires
        off + n <= b@.len(),
        n <= 8,
    ensures
        r == le_val(b@.subrange(off as int, off + n)),
{
    let mut acc: u128 = 0;
    let mut p: u128 = 1;
    let mut i: usize = 0;
    let blen = b.len();
    proof {
        lemma_pow256_values();
        assert(b@.subrange(off as int, off as int) =~= Seq::<u8>::empty());
    }
    while i < n
        invariant
            i <= n,
            n <= 8,
            blen == b@.len(),
            off + n <= blen,
            p == pow256(i as nat),
            p <= 0x1_0000_0000_0000_0000,
            acc == le_val(b@.subrange(off as int, off + i)),
            acc < p,
        decreases n - i,
    {
        let byte = b[off + i] as u128;
        proof {
            assert(b@.subrange(off as int, off + i + 1).drop_last() =~= b@.subrange(off as int, off + i));
            lemma_pow256_values();
            assert(p <= 0x100_0000_0000_0000) by {
                if i == 0 {} else if i == 1 {} else if i == 2 {} else if i == 3 {} else if i == 4 {}
                else if i == 5 {} else if i == 6 {} else {}
            }
            assert(acc + byte * p < 256 * p) by (nonlinear_arith)
                requires acc < p, byte <= 255 {}
            assert(256 * p <= 0x1_0000_0000_0000_0000) by (nonlinear_arith)
                requires p <= 0x100_0000_0000_0000 {}
        }
        acc = acc + byte * p;
        p = p * 256;
        i = i + 1;
    }
    proof {
        lemma_le_val_bound(b@.subrange(off as int, off + n));
        lemma_pow256_values();
        if n < 8 {
            assert(pow256(n as nat) <= pow256(8)) by {
                if n == 0 {} else if n == 1 {} else if n == 2 {} else if n == 3 {} else if n == 4 {}
                else if n == 5 {} else if n == 6 {} else {}
            }
        }
    }
    acc as u64
}

pub fn push_u32(out: &mut Vec<u8>, v: u32)
    ensures
        final(out)@ == old(out)@ + le_bytes(v as nat, 4),
{
    push_le(out, v as u64, 4);
}

pub fn push_u64(out: &mut Vec<u8>, v: u64)
    ensures
        final(out)@ == old(out)@ + le_bytes(v as nat, 8),
{
    push_le(out, v, 8);
}

pub fn push_i32(out: &mut Vec<u8>, v: i32)
    ensures
        final(out)@ == old(out)@ + le_signed(v as int, 4),
{
    proof { lemma_pow256_values(); }
    let u: u64 = if v < 0 { (v as i64 + 0x1_0000_0000i64) as u64 } else { v as u64 };
    push_le(out, u, 4);
}

pub fn push_i64(out: &mut Vec<u8>, v: i64)
    ensures
        final(out)@ == old(out)@ + le_signed(v as int, 8),
{
    proof { lemma_pow256_values(); }
    let u: u64 = if v < 0 { (v as i128 + 0x1_0000_0000_0000_0000i128) as u64 } else { v as u64 };
    push_le(out, u, 8);
}

pub fn push_i16(out: &mut Vec<u8>, v: i16)
    ensures
        final(out)@ == old(out)@ + le_signed(v as int, 2),
{
    proof { lemma_pow256_values(); }
    let u: u64 = if v < 0 { (v as i32 + 0x1_0000i32) as u64 } else { v as u64 };
    push_le(out, u, 2);
}

pub fn read_u32(b: &[u8], off: usize) -> (r: u32)
    requires
        off + 4 <= b@.len(),
    ensures
        r == le_val(b@.subrange(off as int, off + 4)),
{
    proof {
        lemma_le_val_bound(b@.subrange(off as int, off + 4));
        lemma_pow256_values();
    }
    read_le(b, off, 4) as u32
}

pub fn read_u64(b: &[u8], off: usize) -> (r: u64)
    requires
        off + 8 <= b@.len(),
    ensures
        r == le_val(b@.subrange(off as int, off + 8)),
{
    read_le(b, off, 8)
}

pub fn read_i32(b: &[u8], off: usize) -> (r: i32)
    requires
        off + 4 <= b@.len(),
    ensures
        r == to_signed(le_val(b@.subrange(off as int, off + 4)), 4),
{
    proof {
        lemma_le_val_bound(b@.subrange(off as int, off + 4));
        lemma_pow256_values();
    }
    let u = read_le(b, off, 4);
    if u >= 0x8000_0000 { (u as i64 - 0x1_0000_0000i64) as i32 } else { u as i32 }
}

pub fn read_i64(b: &[u8], off: usize) -> (r: i64)
    requires
        off + 8 <= b@.len(),
    ensures
        r == to_signed(le_val(b@.subrange(off as int, off + 8)), 8),
{
    proof {
        lemma_le_val_bound(b@.subrange(off as int, off + 8));
        lemma_pow256_values();
    }
    let u = read_le(b, off, 8);
    if u >= 0x8000_0000_0000_0000 { (u as i128 - 0x1_0000_0000_0000_0000i128) as i64 } else { u as i64 }
}

pub fn read_i16(b: &[u8], off: usize) -> (r: i16)
    requires
        off + 2 <= b@.len(),
    ensures
        r == to_signed(le_val(b@.subrange(off as int, off + 2)), 2),
{
    proof {
        lemma_le_val_bound(b@.subrange(off as int, off + 2));
        lemma_pow256_values();
    }
    let u = read_le(b, off, 2);
    if u >= 0x8000 { (u as i32 - 0x1_0000i32) as i16 } else { u as i16 }
}

/// Decoding `n` bytes of an encoded signed value gives the value back.
pub proof fn lemma_signed_le_roundtrip(v: int, n: nat)
    requires
        1 <= n <= 8,
        -(pow256(n) as int) / 2 <= v < (pow256(n) as int) / 2,
    ensures
        to_signed(le_val(le_signed(v, n)), n) == v,
        le_signed(v, n).len() == n,
{
    lemma_signed_roundtrip(v, n);
    lemma_le_roundtrip(to_unsigned(v, n), n);
}

/// Four bytes re-encode to themselves through their value.
pub proof fn lemma_le4_bytes_of_val(s: Seq<u8>)
    requires
        s.len() == 4,
    ensures
        le_bytes(le_val(s), 4) == s,
{
    lemma_pow256_values();
    let s3 = s.drop_last();
    let s2 = s3.drop_last();
    let s1 = s2.drop_last();
    let s0 = s1.drop_last();
    assert(s1.len() == 1 && s1.last() == s[0] && s2.last() == s[1] && s3.last() == s[2] && s.last() == s[3]);
    assert(s1.drop_last() == s0);
    assert(le_val(s0) == 0);
    assert(le_val(s1) == le_val(s0) + (s1.last() as nat) * pow256(0));
    assert(le_val(s1) == s[0] as nat);
    assert(le_val(s2) == s[0] as nat + (s[1] as nat) * 256);
    assert(le_val(s3) == s[0] as nat + (s[1] as nat) * 256 + (s[2] as nat) * 0x1_0000);
    let v = le_val(s);
    assert(v == s[0] as nat + (s[1] as nat) * 256 + (s[2] as nat) * 0x1_0000 + (s[3] as nat) * 0x100_0000);
    let b0 = s[0] as int;
    let b1 = s[1] as int;
    let b2 = s[2] as int;
    let b3 = s[3] as int;
    assert((v / 1) % 256 == b0 && (v / 0x100) % 256 == b1 && (v / 0x1_0000) % 256 == b2 && (v / 0x100_0000) % 256 == b3)
        by (nonlinear_arith)
        requires
            v == b0 + b1 * 256 + b2 * 0x1_0000 + b3 * 0x100_0000,
            0 <= b0 < 256, 0 <= b1 < 256, 0 <= b2 < 256, 0 <= b3 < 256;
    assert(le_bytes(v, 4) =~= s);
}

} // verus!
