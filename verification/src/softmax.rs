//! Integer softmax: max-subtract, exponential through a committed 256-entry
//! LUT, normalization to `i8` probabilities scaled to `[0, 127]`.
use vstd::prelude::*;
use crate::arith::{clamp, sat_i8, trunc_div, wrap_i64, lemma_wrap_i64_add, lemma_wrapping_add_i64, lemma_wrap_i64_id, lemma_wrap_i64_range};
use crate::bytes::{le_signed, le_val, to_signed, to_unsigned, push_i32, read_i32, lemma_signed_le_roundtrip, lemma_pow256_values, lemma_le_val_bound, lemma_le4_bytes_of_val};
use crate::hashing::{derive_key, blake3_derive_key};

verus! {

/// 256-entry `i32` table for `exp(-x)` in fixed point.
#[derive(Debug, Clone, PartialEq, Eq)]
pub struct ExpLut {
    pub table: [i32; 256],
}

#[derive(Debug, Clone, Copy, PartialEq, Eq)]
pub enum ExpLutError {
    WrongLength(usize),
}

#[derive(Debug, Clone, Copy, PartialEq, Eq)]
pub enum SoftmaxError {
    LenMismatch,
    Empty,
}

/// Serialized table: each entry as 4 little-endian bytes.
pub open spec fn exp_lut_bytes(t: Seq<i32>) -> Seq<u8> {
    Seq::new(4 * t.len(), |k: int| le_signed(t[k / 4] as int, 4)[k % 4])
}

/// Table decoded from 1024 bytes.
pub open spec fn exp_lut_decode(b: Seq<u8>) -> Seq<i32> {
    Seq::new(256, |i: int| to_signed(le_val(b.subrange(4 * i, 4 * i + 4)), 4) as i32)
}

/// Largest of the first `n` scores.
pub open spec fn seq_max(s: Seq<i32>, n: int) -> int
    decreases n,
{
    if n <= 1 {
        s[0] as int
    } else {
        let m = seq_max(s, n - 1);
        if (s[n - 1] as int) > m { s[n - 1] as int } else { m }
    }
}

/// LUT value for a score given the maximum.
pub open spec fn exp_of(table: Seq<i32>, m: int, s: int) -> int {
    table[clamp(m - s, 0, 255)] as int
}

/// `sum_{i < n} exp_of(scores[i])`, unwrapped.
pub open spec fn exp_sum_raw(table: Seq<i32>, scores: Seq<i32>, m: int, n: int) -> int
    decreases n,
{
    if n <= 0 { 0 } else { exp_sum_raw(table, scores, m, n - 1) + exp_of(table, m, scores[n - 1] as int) }
}

/// What `softmax_int` writes for non-empty, equal-length inputs.
pub open spec fn softmax_spec(scores: Seq<i32>, table: Seq<i32>) -> Seq<i8> {
    let m = seq_max(scores, scores.len() as int);
    let sum = wrap_i64(exp_sum_raw(table, scores, m, scores.len() as int));
    if sum <= 0 {
        Seq::new(scores.len(), |i: int| 0i8)
    } else {
        Seq::new(
            scores.len(),
            |i: int| sat_i8(trunc_div(exp_of(table, m, scores[i] as int) * 127 + sum / 2, sum)) as i8,
        )
    }
}

proof fn lemma_max_shift(scores: Seq<i32>, shifted: Seq<i32>, c: int, n: int)
    requires
        1 <= n <= scores.len(),
        shifted.len() == scores.len(),
        forall|i: int| 0 <= i < scores.len() ==> shifted[i] as int == scores[i] as int + c,
    ensures
        seq_max(shifted, n) == seq_max(scores, n) + c,
    decreases n,
{
    if n > 1 {
        lemma_max_shift(scores, shifted, c, n - 1);
    }
}

proof fn lemma_sum_shift(table: Seq<i32>, scores: Seq<i32>, shifted: Seq<i32>, c: int, m: int, n: int)
    requires
        0 <= n <= scores.len(),
        shifted.len() == scores.len(),
        forall|i: int| 0 <= i < scores.len() ==> shifted[i] as int == scores[i] as int + c,
    ensures
        exp_sum_raw(table, shifted, m + c, n) == exp_sum_raw(table, scores, m, n),
    decreases n,
{
    if n > 0 {
        lemma_sum_shift(table, scores, shifted, c, m, n - 1);
        assert(exp_of(table, m + c, shifted[n - 1] as int) == exp_of(table, m, scores[n - 1] as int));
    }
}

/// Softmax depends only on the differences of the scores: adding one
/// constant to every score leaves the output unchanged.
pub proof fn lemma_softmax_shift_invariant(scores: Seq<i32>, shifted: Seq<i32>, c: int, table: Seq<i32>)
    requires
        scores.len() > 0,
        shifted.len() == scores.len(),
        forall|i: int| 0 <= i < scores.len() ==> shifted[i] as int == scores[i] as int + c,
    ensures
        softmax_spec(shifted, table) == softmax_spec(scores, table),
{
    let n = scores.len() as int;
    let m = seq_max(scores, n);
    lemma_max_shift(scores, shifted, c, n);
    lemma_sum_shift(table, scores, shifted, c, m, n);
    assert forall|i: int| 0 <= i < n implies
        exp_of(table, m + c, shifted[i] as int) == #[trigger] exp_of(table, m, scores[i] as int) by {
    }
    assert(softmax_spec(shifted, table) =~= softmax_spec(scores, table));
}

impl ExpLut {
    /// Build from `256 * 4` little-endian `i32` bytes.
    pub fn from_bytes(bytes: &[u8]) -> (r: Result<ExpLut, ExpLutError>)
        ensures
            bytes@.len() != 1024 ==> r == Err::<ExpLut, ExpLutError>(ExpLutError::WrongLength(bytes@.len() as usize)),
            bytes@.len() == 1024 ==> r is Ok && r->Ok_0.table@ == exp_lut_decode(bytes@),
    {
        if bytes.len() != 1024 {
            return Err(ExpLutError::WrongLength(bytes.len()));
        }
        let mut table = [0i32; 256];
        let mut i: usize = 0;
        while i < 256
            invariant
                i <= 256,
                bytes@.len() == 1024,
                table@.len() == 256,
                forall|t: int| 0 <= t < i ==> table@[t] == exp_lut_decode(bytes@)[t],
            decreases 256 - i,
        {
            table[i] = read_i32(bytes, 4 * i);
            i = i + 1;
        }
        assert(table@ =~= exp_lut_decode(bytes@));
        Ok(ExpLut { table })
    }

    /// The table as `256 * 4` little-endian bytes.
    pub fn to_bytes_vec(&self) -> (r: Vec<u8>)
        ensures
            r@ == exp_lut_bytes(self.table@),
    {
        let mut out: Vec<u8> = Vec::new();
        let mut i: usize = 0;
        while i < 256
            invariant
                i <= 256,
                self.table@.len() == 256,
                out@.len() == 4 * i,
                forall|k: int| 0 <= k < 4 * i ==> out@[k] == le_signed(self.table@[k / 4] as int, 4)[k % 4],
            decreases 256 - i,
        {
            let ghost before = out@;
            push_i32(&mut out, self.table[i]);
            proof {
                lemma_pow256_values();
                assert forall|k: int| 0 <= k < 4 * (i + 1) implies out@[k] == le_signed(self.table@[k / 4] as int, 4)[k % 4] by {
                    if k >= 4 * i {
                        assert(k / 4 == i) by (nonlinear_arith)
                            requires 4 * i <= k < 4 * i + 4 {}
                        assert(k % 4 == k - 4 * i) by (nonlinear_arith)
                            requires 4 * i <= k < 4 * i + 4 {}
                    }
                }
            }
            i = i + 1;
        }
        assert(out@ =~= exp_lut_bytes(self.table@));
        out
    }

    /// The table as `256 * 4` little-endian bytes.
    pub fn to_bytes(&self) -> (r: [u8; 1024])
        ensures
            r@ == exp_lut_bytes(self.table@),
    {
        let v = self.to_bytes_vec();
        let mut out = [0u8; 1024];
        let mut k: usize = 0;
        while k < 1024
            invariant
                k <= 1024,
                v@.len() == 1024,
                out@.len() == 1024,
                forall|t: int| 0 <= t < k ==> out@[t] == v@[t],
            decreases 1024 - k,
        {
            out[k] = v[k];
            k = k + 1;
        }
        assert(out@ =~= v@);
        out
    }

    /// Domain-separated commitment to the table bytes.
    pub fn commit(&self) -> (r: [u8; 32])
        ensures
            r@ == blake3_derive_key("ai-pow-vi v1 exp-lut"@, exp_lut_bytes(self.table@)),
    {
        let v = self.to_bytes_vec();
        derive_key("ai-pow-vi v1 exp-lut", v.as_slice())
    }

    /// Constant table (every entry `2^16`): softmax is then uniform.
    pub fn uniform_test() -> (r: ExpLut)
        ensures
            forall|i: int| 0 <= i < 256 ==> r.table@[i] == 0x1_0000,
    {
        ExpLut { table: [0x1_0000i32; 256] }
    }
}

/// Decoding the serialized table gives back the table.
pub proof fn lemma_exp_lut_bytes_roundtrip(t: Seq<i32>)
    requires
        t.len() == 256,
    ensures
        exp_lut_decode(exp_lut_bytes(t)) == t,
{
    let b = exp_lut_bytes(t);
    assert forall|i: int| 0 <= i < 256 implies exp_lut_decode(b)[i] == t[i] by {
        lemma_pow256_values();
        lemma_signed_le_roundtrip(t[i] as int, 4);
        assert forall|j: int| 0 <= j < 4 implies b.subrange(4 * i, 4 * i + 4)[j] == le_signed(t[i] as int, 4)[j] by {
            assert((4 * i + j) / 4 == i) by (nonlinear_arith) requires 0 <= j < 4 {}
            assert((4 * i + j) % 4 == j) by (nonlinear_arith) requires 0 <= j < 4 {}
        }
        assert(b.subrange(4 * i, 4 * i + 4) =~= le_signed(t[i] as int, 4));
    }
    assert(exp_lut_decode(b) =~= t);
}

/// Encoding a decoded table gives back the 1024 bytes it was decoded from.
pub proof fn lemma_exp_lut_decode_then_bytes(b: Seq<u8>)
    requires
        b.len() == 1024,
    ensures
        exp_lut_bytes(exp_lut_decode(b)) == b,
{
    let t = exp_lut_decode(b);
    lemma_pow256_values();
    assert forall|k: int| 0 <= k < 1024 implies exp_lut_bytes(t)[k] == b[k] by {
        let i = k / 4;
        let j = k % 4;
        assert(0 <= i < 256 && 0 <= j < 4 && k == 4 * i + j);
        let sub = b.subrange(4 * i, 4 * i + 4);
        lemma_le_val_bound(sub);
        lemma_le4_bytes_of_val(sub);
        let u = le_val(sub);
        assert(to_unsigned(to_signed(u, 4), 4) == u);
        assert(t[i] as int == to_signed(u, 4));
        assert(le_signed(t[i] as int, 4) == sub);
        assert(sub[j] == b[k]);
    }
    assert(exp_lut_bytes(t) =~= b);
}

/// Integer softmax of pre-scaled scores through `lut`.
pub fn softmax_int(scores_scaled: &[i32], lut: &ExpLut, out: &mut [i8]) -> (r: Result<(), SoftmaxError>)
    ensures
        scores_scaled@.len() == 0 ==> r == Err::<(), SoftmaxError>(SoftmaxError::Empty),
        scores_scaled@.len() != 0 && scores_scaled@.len() != old(out)@.len()
            ==> r == Err::<(), SoftmaxError>(SoftmaxError::LenMismatch),
        r is Err ==> final(out)@ == old(out)@,
        scores_scaled@.len() != 0 && scores_scaled@.len() == old(out)@.len()
            ==> r is Ok && final(out)@ == softmax_spec(scores_scaled@, lut.table@),
{
    let n = scores_scaled.len();
    if n == 0 {
        return Err(SoftmaxError::Empty);
    }
    if n != out.len() {
        return Err(SoftmaxError::LenMismatch);
    }
    let ghost sc = scores_scaled@;
    let mut m: i32 = scores_scaled[0];
    let mut i: usize = 1;
    while i < n
        invariant
            1 <= i <= n,
            n == sc.len(),
            sc == scores_scaled@,
            m == seq_max(sc, i as int),
        decreases n - i,
    {
        if scores_scaled[i] > m {
            m = scores_scaled[i];
        }
        i = i + 1;
    }
    let mut sum_exp: i64 = 0;
    let mut i: usize = 0;
    proof {
        lemma_wrap_i64_id(0);
    }
    while i < n
        invariant
            i <= n,
            n == sc.len(),
            sc == scores_scaled@,
            m == seq_max(sc, n as int),
            sum_exp == wrap_i64(exp_sum_raw(lut.table@, sc, m as int, i as int)),
        decreases n - i,
    {
        let e = exp_lookup(lut, m, scores_scaled[i]);
        proof {
            lemma_wrapping_add_i64(sum_exp, e as i64);
            lemma_wrap_i64_add(exp_sum_raw(lut.table@, sc, m as int, i as int), e as int);
        }
        sum_exp = sum_exp.wrapping_add(e as i64);
        i = i + 1;
    }
    let ghost spec = softmax_spec(sc, lut.table@);
    if sum_exp <= 0 {
        let mut i: usize = 0;
        while i < n
            invariant
                i <= n,
                n == out@.len(),
                n == sc.len(),
                sum_exp <= 0,
                sum_exp == wrap_i64(exp_sum_raw(lut.table@, sc, m as int, n as int)),
                m == seq_max(sc, n as int),
                spec == softmax_spec(sc, lut.table@),
                forall|t: int| 0 <= t < i ==> out@[t] == spec[t],
            decreases n - i,
        {
            out[i] = 0;
            i = i + 1;
        }
        assert(out@ =~= spec);
        return Ok(());
    }
    let half = sum_exp / 2;
    let mut i: usize = 0;
    while i < n
        invariant
            i <= n,
            n == out@.len(),
            n == sc.len(),
            sc == scores_scaled@,
            sum_exp > 0,
            half == sum_exp / 2,
            sum_exp == wrap_i64(exp_sum_raw(lut.table@, sc, m as int, n as int)),
            m == seq_max(sc, n as int),
            spec == softmax_spec(sc, lut.table@),
            forall|t: int| 0 <= t < i ==> out@[t] == spec[t],
        decreases n - i,
    {
        let e = exp_lookup(lut, m, scores_scaled[i]) as i64;
        assert(-0x100_0000_0000 <= e * 127 <= 0x100_0000_0000) by (nonlinear_arith)
            requires -0x8000_0000 <= e <= 0x7fff_ffff {}
        let scaled = e * 127 + half;
        let q: i64 = if scaled >= 0 { scaled / sum_exp } else { -((-scaled) / sum_exp) };
        proof {
            if scaled >= 0 {
                vstd::arithmetic::div_mod::lemma_div_is_ordered_by_denominator(scaled as int, 1, sum_exp as int);
            } else {
                vstd::arithmetic::div_mod::lemma_div_is_ordered_by_denominator(-scaled as int, 1, sum_exp as int);
            }
        }
        let o: i8 = if q < -128 { -128 } else if q > 127 { 127 } else { q as i8 };
        out[i] = o;
        i = i + 1;
    }
    assert(out@ =~= spec);
    Ok(())
}

/// `lut.table[clamp(m - s, 0, 255)]`.
fn exp_lookup(lut: &ExpLut, m: i32, s: i32) -> (r: i32)
    ensures
        r == exp_of(lut.table@, m as int, s as int),
{
    let d: i64 = m as i64 - s as i64;
    let idx: usize = if d < 0 { 0 } else if d > 255 { 255 } else { d as usize };
    lut.table[idx]
}

} // verus!
