//! Rotary positional embedding over INT16 fixed-point cos/sin tables
//! (`2^14` denominator), banker's rounding on the rotation, saturation to
//! `i8`.
use vstd::prelude::*;
use vstd::arithmetic::power2::*;
use crate::arith::sat_i8;
use crate::bytes::{le_bytes, le_signed, push_u32, push_i16};
use crate::hashing::{derive_key, blake3_derive_key};
use crate::matmul_int8::mul_u32;
use crate::quant::{round_half_even, round_half_to_even_div_pow2, saturate_i8};

verus! {

/// Fractional bits of the cos/sin tables.
pub const FRACT_BITS: u32 = 14;

/// Pre-computed tables: `cos[pos * half_head_dim + j]`, `sin[...]`.
#[derive(Debug, Clone, PartialEq, Eq)]
pub struct RopeTables {
    pub seq_len: u32,
    pub half_head_dim: u32,
    pub cos: Vec<i16>,
    pub sin: Vec<i16>,
}

#[derive(Debug, Clone, Copy, PartialEq, Eq)]
pub enum RopeError {
    LenMismatch,
    PosOutOfRange,
    ShapeMismatch,
}

impl RopeTables {
    /// Both tables hold `seq_len * half_head_dim` entries.
    pub open spec fn wf(&self) -> bool {
        &&& self.cos@.len() == self.seq_len * self.half_head_dim
        &&& self.sin@.len() == self.seq_len * self.half_head_dim
    }

    /// Tables of the right shape, all entries zero.
    pub fn zeros(seq_len: u32, half_head_dim: u32) -> (r: RopeTables)
        requires
            seq_len * half_head_dim <= usize::MAX,
        ensures
            r.seq_len == seq_len,
            r.half_head_dim == half_head_dim,
            r.wf(),
            forall|i: int| 0 <= i < r.cos@.len() ==> r.cos@[i] == 0 && r.sin@[i] == 0,
    {
        let n = mul_u32(seq_len, half_head_dim) as usize;
        RopeTables { seq_len, half_head_dim, cos: vec![0i16; n], sin: vec![0i16; n] }
    }

    /// Tables for the identity rotation: `cos = 2^14`, `sin = 0`.
    pub fn identity(seq_len: u32, half_head_dim: u32) -> (r: RopeTables)
        requires
            seq_len * half_head_dim <= usize::MAX,
        ensures
            r.seq_len == seq_len,
            r.half_head_dim == half_head_dim,
            r.wf(),
            forall|i: int| 0 <= i < r.cos@.len() ==> r.cos@[i] == 0x4000 && r.sin@[i] == 0,
    {
        let n = mul_u32(seq_len, half_head_dim) as usize;
        RopeTables { seq_len, half_head_dim, cos: vec![0x4000i16; n], sin: vec![0i16; n] }
    }

    pub fn validate(&self) -> (r: Result<(), RopeError>)
        ensures
            r is Ok <==> self.wf(),
            r is Err ==> r == Err::<(), RopeError>(RopeError::ShapeMismatch),
    {
        let n = mul_u32(self.seq_len, self.half_head_dim);
        if self.cos.len() as u64 != n || self.sin.len() as u64 != n {
            return Err(RopeError::ShapeMismatch);
        }
        Ok(())
    }

    /// Cos / sin for one `(position, pair)` slot.
    pub fn lookup(&self, pos: u32, j: u32) -> (r: (i16, i16))
        requires
            self.wf(),
            pos < self.seq_len,
            j < self.half_head_dim,
        ensures
            r.0 == self.cos@[pos * self.half_head_dim + j],
            r.1 == self.sin@[pos * self.half_head_dim + j],
    {
        let clen = self.cos.len();
        proof {
            lemma_slot(pos as int, j as int, self.half_head_dim as int, self.seq_len as int);
            assert(pos * self.half_head_dim <= pos * self.half_head_dim + j);
        }
        let off = (pos as usize) * (self.half_head_dim as usize) + j as usize;
        (self.cos[off], self.sin[off])
    }

    /// Domain-separated commitment: `seq_len`, `half_head_dim`, then every
    /// cos entry, then every sin entry, all little-endian.
    pub fn commit(&self) -> (r: [u8; 32])
        ensures
            r@ == blake3_derive_key("ai-pow-vi v1 rope-tables"@, rope_bytes(*self)),
    {
        let buf = self.to_bytes_vec();
        derive_key("ai-pow-vi v1 rope-tables", buf.as_slice())
    }

    /// `seq_len`, `half_head_dim` (LE `u32`), cos then sin (LE `i16`).
    pub fn to_bytes_vec(&self) -> (r: Vec<u8>)
        ensures
            r@ == rope_bytes(*self),
    {
        let mut buf: Vec<u8> = Vec::new();
        push_u32(&mut buf, self.seq_len);
        push_u32(&mut buf, self.half_head_dim);
        append_i16s(&mut buf, self.cos.as_slice());
        append_i16s(&mut buf, self.sin.as_slice());
        buf
    }
}

/// LE `i16` bytes of every entry, in order.
pub open spec fn i16s_bytes(xs: Seq<i16>) -> Seq<u8>
    decreases xs.len(),
{
    if xs.len() == 0 {
        Seq::empty()
    } else {
        i16s_bytes(xs.drop_last()) + le_signed(xs.last() as int, 2)
    }
}

/// Canonical bytes of a table pair.
pub open spec fn rope_bytes(t: RopeTables) -> Seq<u8> {
    le_bytes(t.seq_len as nat, 4) + le_bytes(t.half_head_dim as nat, 4) + i16s_bytes(t.cos@) + i16s_bytes(t.sin@)
}

/// Append the LE bytes of every `i16`.
pub fn append_i16s(out: &mut Vec<u8>, xs: &[i16])
    ensures
        final(out)@ == old(out)@ + i16s_bytes(xs@),
{
    let ghost start = out@;
    let mut i: usize = 0;
    assert(xs@.subrange(0, 0) =~= Seq::<i16>::empty());
    while i < xs.len()
        invariant
            i <= xs@.len(),
            out@ == start + i16s_bytes(xs@.subrange(0, i as int)),
        decreases xs@.len() - i,
    {
        push_i16(out, xs[i]);
        proof {
            assert(xs@.subrange(0, i + 1).drop_last() =~= xs@.subrange(0, i as int));
        }
        i = i + 1;
    }
    assert(xs@.subrange(0, xs@.len() as int) =~= xs@);
}

proof fn lemma_slot(pos: int, j: int, h: int, s: int)
    requires
        0 <= pos < s,
        0 <= j < h,
    ensures
        0 <= pos * h + j < s * h,
        pos * h + j + 1 <= s * h,
{
    assert(pos * h + j < s * h) by (nonlinear_arith)
        requires 0 <= pos < s, 0 <= j < h {}
    assert(0 <= pos * h) by (nonlinear_arith) requires 0 <= pos, 0 <= h {}
}

/// First component of a rotated pair.
pub open spec fn rot_a(a: int, b: int, c: int, s: int) -> i8 {
    sat_i8(round_half_even(a * c - b * s, FRACT_BITS as nat)) as i8
}

/// Second component of a rotated pair.
pub open spec fn rot_b(a: int, b: int, c: int, s: int) -> i8 {
    sat_i8(round_half_even(a * s + b * c, FRACT_BITS as nat)) as i8
}

/// `x` with the adjacent pairs `(x[off+2j], x[off+2j+1])` of one head
/// rotated for position `pos`.
pub open spec fn rope_head(x: Seq<i8>, off: int, pos: int, t: RopeTables) -> Seq<i8> {
    let h = t.half_head_dim as int;
    Seq::new(x.len(), |i: int|
        if off <= i < off + 2 * h {
            let j = (i - off) / 2;
            let c = t.cos@[pos * h + j] as int;
            let s = t.sin@[pos * h + j] as int;
            let a = x[off + 2 * j] as int;
            let b = x[off + 2 * j + 1] as int;
            if (i - off) % 2 == 0 { rot_a(a, b, c, s) } else { rot_b(a, b, c, s) }
        } else {
            x[i]
        })
}

/// `x` with the NEOX pairs `(x[off+j], x[off+j+half])`, `j < n_rot / 2`,
/// rotated for position `pos`.
pub open spec fn imrope_head(x: Seq<i8>, off: int, pos: int, n_rot: int, t: RopeTables) -> Seq<i8> {
    let h = t.half_head_dim as int;
    let half = n_rot / 2;
    Seq::new(x.len(), |i: int|
        if off <= i < off + half {
            let j = i - off;
            rot_a(x[i] as int, x[i + half] as int, t.cos@[pos * h + j] as int, t.sin@[pos * h + j] as int)
        } else if off + half <= i < off + 2 * half {
            let j = i - off - half;
            rot_b(x[i - half] as int, x[i] as int, t.cos@[pos * h + j] as int, t.sin@[pos * h + j] as int)
        } else {
            x[i]
        })
}

/// Rotate one pair.
pub fn rot_pair(a: i8, b: i8, c: i16, s: i16) -> (r: (i8, i8))
    ensures
        r.0 == rot_a(a as int, b as int, c as int, s as int),
        r.1 == rot_b(a as int, b as int, c as int, s as int),
{
    let a = a as i64;
    let b = b as i64;
    let c = c as i64;
    let s = s as i64;
    assert(-0x1000_0000 <= a * c - b * s <= 0x1000_0000) by (nonlinear_arith)
        requires -128 <= a <= 127, -128 <= b <= 127, -32768 <= c <= 32767, -32768 <= s <= 32767 {}
    assert(-0x1000_0000 <= a * s + b * c <= 0x1000_0000) by (nonlinear_arith)
        requires -128 <= a <= 127, -128 <= b <= 127, -32768 <= c <= 32767, -32768 <= s <= 32767 {}
    assert(-0x80_0000 <= a * c <= 0x80_0000) by (nonlinear_arith)
        requires -128 <= a <= 127, -32768 <= c <= 32767 {}
    assert(-0x80_0000 <= b * s <= 0x80_0000) by (nonlinear_arith)
        requires -128 <= b <= 127, -32768 <= s <= 32767 {}
    assert(-0x80_0000 <= a * s <= 0x80_0000) by (nonlinear_arith)
        requires -128 <= a <= 127, -32768 <= s <= 32767 {}
    assert(-0x80_0000 <= b * c <= 0x80_0000) by (nonlinear_arith)
        requires -128 <= b <= 127, -32768 <= c <= 32767 {}
    let ac = a * c;
    let bs = b * s;
    let as_ = a * s;
    let bc = b * c;
    let r0 = round_half_to_even_div_pow2(ac - bs, FRACT_BITS);
    let r1 = round_half_to_even_div_pow2(as_ + bc, FRACT_BITS);
    (saturate_i8(r0), saturate_i8(r1))
}

/// Rotate the adjacent pairs of the head at `x[off .. off + 2*half_head_dim]`.
pub fn rope_at(x: &mut [i8], off: usize, pos: u32, tables: &RopeTables)
    requires
        tables.wf(),
        pos < tables.seq_len,
        off + 2 * tables.half_head_dim <= old(x)@.len(),
    ensures
        final(x)@ == rope_head(old(x)@, off as int, pos as int, *tables),
{
    let ghost orig = x@;
    let h = tables.half_head_dim;
    let xlen = x.len();
    let mut j: u32 = 0;
    while j < h
        invariant
            j <= h,
            xlen == x@.len(),
            h == tables.half_head_dim,
            tables.wf(),
            pos < tables.seq_len,
            off + 2 * h <= orig.len(),
            x@.len() == orig.len(),
            forall|i: int| 0 <= i < orig.len() && !(off <= i < off + 2 * j) ==> x@[i] == orig[i],
            forall|i: int| off <= i < off + 2 * j ==> x@[i] == rope_head(orig, off as int, pos as int, *tables)[i],
        decreases h - j,
    {
        let (c, s) = tables.lookup(pos, j);
        let i = off + 2 * (j as usize);
        let (r0, r1) = rot_pair(x[i], x[i + 1], c, s);
        x[i] = r0;
        x[i + 1] = r1;
        proof {
            assert forall|k: int| off <= k < off + 2 * (j + 1) implies x@[k] == rope_head(orig, off as int, pos as int, *tables)[k] by {
                if k >= off + 2 * j {
                    assert((k - off) / 2 == j) by (nonlinear_arith) requires off + 2 * j <= k < off + 2 * j + 2 {}
                    assert((k - off) % 2 == k - off - 2 * j) by (nonlinear_arith) requires off + 2 * j <= k < off + 2 * j + 2 {}
                }
            }
        }
        j = j + 1;
    }
    assert(x@ =~= rope_head(orig, off as int, pos as int, *tables));
}

/// Apply RoPE in place to one head `x` (length `2 * half_head_dim`) at `pos`.
pub fn rope_apply(x: &mut [i8], pos: u32, tables: &RopeTables) -> (r: Result<(), RopeError>)
    requires
        tables.wf(),
    ensures
        pos >= tables.seq_len ==> r == Err::<(), RopeError>(RopeError::PosOutOfRange),
        pos < tables.seq_len && old(x)@.len() != 2 * tables.half_head_dim ==> r == Err::<(), RopeError>(RopeError::LenMismatch),
        r is Err ==> final(x)@ == old(x)@,
        pos < tables.seq_len && old(x)@.len() == 2 * tables.half_head_dim
            ==> r is Ok && final(x)@ == rope_head(old(x)@, 0, pos as int, *tables),
{
    if pos >= tables.seq_len {
        return Err(RopeError::PosOutOfRange);
    }
    if x.len() as u64 != 2 * (tables.half_head_dim as u64) {
        return Err(RopeError::LenMismatch);
    }
    rope_at(x, 0, pos, tables);
    Ok(())
}

/// Rotate the NEOX pairs of the head at `x[off ..]` for `pos`.
pub fn imrope_at(x: &mut [i8], off: usize, pos: u32, n_rot: u32, tables: &RopeTables)
    requires
        tables.wf(),
        pos < tables.seq_len,
        n_rot <= 2 * tables.half_head_dim,
        off + 2 * tables.half_head_dim <= old(x)@.len(),
    ensures
        final(x)@ == imrope_head(old(x)@, off as int, pos as int, n_rot as int, *tables),
{
    let ghost orig = x@;
    let half = (n_rot / 2) as usize;
    let xlen = x.len();
    let mut j: usize = 0;
    while j < half
        invariant
            j <= half,
            xlen == x@.len(),
            half == n_rot / 2,
            tables.wf(),
            pos < tables.seq_len,
            n_rot <= 2 * tables.half_head_dim,
            off + 2 * tables.half_head_dim <= orig.len(),
            x@.len() == orig.len(),
            forall|i: int| 0 <= i < orig.len() && !(off <= i < off + j) && !(off + half <= i < off + half + j) ==> x@[i] == orig[i],
            forall|i: int| (off <= i < off + j) || (off + half <= i < off + half + j)
                ==> x@[i] == imrope_head(orig, off as int, pos as int, n_rot as int, *tables)[i],
        decreases half - j,
    {
        let (c, s) = tables.lookup(pos, j as u32);
        let (r0, r1) = rot_pair(x[off + j], x[off + j + half], c, s);
        x[off + j] = r0;
        x[off + j + half] = r1;
        j = j + 1;
    }
    assert(x@ =~= imrope_head(orig, off as int, pos as int, n_rot as int, *tables));
}

/// Apply IMROPE in place to one head (NEOX pairing, first `n_rot` dims).
pub fn apply_imrope_to_head_i8(x: &mut [i8], pos: u32, n_rot: u32, tables: &RopeTables) -> (r: Result<(), RopeError>)
    requires
        tables.wf(),
    ensures
        pos >= tables.seq_len ==> r == Err::<(), RopeError>(RopeError::PosOutOfRange),
        pos < tables.seq_len && old(x)@.len() < 2 * tables.half_head_dim ==> r == Err::<(), RopeError>(RopeError::LenMismatch),
        pos < tables.seq_len && old(x)@.len() >= 2 * tables.half_head_dim && n_rot > 2 * tables.half_head_dim
            ==> r == Err::<(), RopeError>(RopeError::ShapeMismatch),
        r is Err ==> final(x)@ == old(x)@,
        pos < tables.seq_len && old(x)@.len() >= 2 * tables.half_head_dim && n_rot <= 2 * tables.half_head_dim
            ==> r is Ok && final(x)@ == imrope_head(old(x)@, 0, pos as int, n_rot as int, *tables),
{
    if pos >= tables.seq_len {
        return Err(RopeError::PosOutOfRange);
    }
    let head_dim = 2 * (tables.half_head_dim as u64);
    if (x.len() as u64) < head_dim {
        return Err(RopeError::LenMismatch);
    }
    if (n_rot as u64) > head_dim {
        return Err(RopeError::ShapeMismatch);
    }
    imrope_at(x, 0, pos, n_rot, tables);
    Ok(())
}

/// IMROPE applied to tokens `t < upto` of an `(m, num_heads, head_dim)`
/// buffer (every head of each such token).
pub open spec fn imrope_qk_upto(x: Seq<i8>, upto: int, num_heads: int, head_dim: int, n_rot: int, t: RopeTables) -> Seq<i8>
    decreases upto,
{
    if upto <= 0 {
        x
    } else {
        imrope_token(imrope_qk_upto(x, upto - 1, num_heads, head_dim, n_rot, t), upto - 1, num_heads, head_dim, n_rot, t, num_heads)
    }
}

/// Heads `h < nh` of token `tok` rotated.
pub open spec fn imrope_token(x: Seq<i8>, tok: int, num_heads: int, head_dim: int, n_rot: int, t: RopeTables, nh: int) -> Seq<i8>
    decreases nh,
{
    if nh <= 0 {
        x
    } else {
        let y = imrope_token(x, tok, num_heads, head_dim, n_rot, t, nh - 1);
        imrope_head(y, (tok * num_heads + nh - 1) * head_dim, tok, n_rot, t)
    }
}

proof fn lemma_head_off(t: int, h: int, nh: int, hd: int, m: int)
    requires
        0 <= t < m,
        0 <= h < nh,
        hd >= 0,
    ensures
        0 <= (t * nh + h) * hd,
        (t * nh + h) * hd + hd <= m * nh * hd,
{
    assert(t * nh + h + 1 <= m * nh) by (nonlinear_arith) requires 0 <= t < m, 0 <= h < nh {}
    assert((t * nh + h) * hd + hd == (t * nh + h + 1) * hd) by (nonlinear_arith) {}
    assert((t * nh + h + 1) * hd <= (m * nh) * hd) by (nonlinear_arith)
        requires t * nh + h + 1 <= m * nh, hd >= 0 {}
    assert(0 <= (t * nh + h) * hd) by (nonlinear_arith) requires 0 <= t, 0 <= h, hd >= 0, nh >= 0 {}
}

/// Apply IMROPE to an `(m, num_heads, head_dim)` row-major buffer in place.
pub fn apply_imrope_to_qk_i8(x: &mut [i8], m: u32, num_heads: u32, head_dim: u32, n_rot: u32, tables: &RopeTables) -> (r: Result<(), RopeError>)
    requires
        tables.wf(),
        m * num_heads * head_dim <= usize::MAX,
        m * num_heads <= usize::MAX,
    ensures
        old(x)@.len() != m * num_heads * head_dim ==> r == Err::<(), RopeError>(RopeError::LenMismatch) && final(x)@ == old(x)@,
        old(x)@.len() == m * num_heads * head_dim && num_heads > 0 && m > 0 ==> {
            if tables.seq_len == 0 {
                r == Err::<(), RopeError>(RopeError::PosOutOfRange) && final(x)@ == old(x)@
            } else if head_dim < 2 * tables.half_head_dim {
                r == Err::<(), RopeError>(RopeError::LenMismatch) && final(x)@ == old(x)@
            } else if n_rot > 2 * tables.half_head_dim {
                r == Err::<(), RopeError>(RopeError::ShapeMismatch) && final(x)@ == old(x)@
            } else if m > tables.seq_len {
                r == Err::<(), RopeError>(RopeError::PosOutOfRange)
                    && final(x)@ == imrope_qk_upto(old(x)@, tables.seq_len as int, num_heads as int, head_dim as int, n_rot as int, *tables)
            } else {
                r is Ok && final(x)@ == imrope_qk_upto(old(x)@, m as int, num_heads as int, head_dim as int, n_rot as int, *tables)
            }
        },
        old(x)@.len() == m * num_heads * head_dim && (num_heads == 0 || m == 0) ==> r is Ok && final(x)@ == old(x)@,
{
    let total = mul_u32(m, num_heads) as u128 * head_dim as u128;
    if x.len() as u128 != total {
        return Err(RopeError::LenMismatch);
    }
    let mu = m as usize;
    let nh = num_heads as usize;
    let hd = head_dim as usize;
    let ghost orig = x@;
    if nh == 0 || mu == 0 {
        return Ok(());
    }
    if tables.seq_len == 0 {
        return Err(RopeError::PosOutOfRange);
    }
    if (hd as u64) < 2 * (tables.half_head_dim as u64) {
        return Err(RopeError::LenMismatch);
    }
    if (n_rot as u64) > 2 * (tables.half_head_dim as u64) {
        return Err(RopeError::ShapeMismatch);
    }
    let xlen = x.len();
    let mut t: usize = 0;
    while t < mu
        invariant
            xlen == x@.len(),
            t <= mu,
            mu == m,
            nh == num_heads,
            hd == head_dim,
            nh > 0,
            tables.wf(),
            tables.seq_len > 0,
            hd >= 2 * tables.half_head_dim,
            n_rot <= 2 * tables.half_head_dim,
            x@.len() == mu * nh * hd,
            orig.len() == mu * nh * hd,
            orig == old(x)@,
            m * num_heads <= usize::MAX,
            t <= tables.seq_len,
            x@ == imrope_qk_upto(orig, t as int, nh as int, hd as int, n_rot as int, *tables),
        decreases mu - t,
    {
        if t as u64 >= tables.seq_len as u64 {
            return Err(RopeError::PosOutOfRange);
        }
        let mut h: usize = 0;
        let ghost start = x@;
        while h < nh
            invariant
                xlen == x@.len(),
                t < mu,
                h <= nh,
                mu == m,
                nh == num_heads,
                hd == head_dim,
                tables.wf(),
                t < tables.seq_len,
                hd >= 2 * tables.half_head_dim,
                n_rot <= 2 * tables.half_head_dim,
                x@.len() == mu * nh * hd,
                m * num_heads <= usize::MAX,
                start.len() == x@.len(),
                x@ == imrope_token(start, t as int, nh as int, hd as int, n_rot as int, *tables, h as int),
            decreases nh - h,
        {
            proof {
                lemma_head_off(t as int, h as int, nh as int, hd as int, mu as int);
                assert(t * nh + h < mu * nh) by (nonlinear_arith) requires t < mu, h < nh {}
                assert((t * nh + h) * hd + hd <= xlen);
            }
            let row = t * nh + h;
            let off = row * hd;
            imrope_at(x, off, t as u32, n_rot, tables);
            h = h + 1;
        }
        t = t + 1;
    }
    Ok(())
}

} // verus!
