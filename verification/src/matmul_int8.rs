//! Inference-side INT8 matmul with an `i32` accumulator.
//!
//! Layout: `A` is `m * k` row-major, `B` is `k * n` column-major (column
//! `j` lives at `[j*k, j*k + k)`), `out` is `m * n` row-major. Reduction
//! order is ascending `l`.
use vstd::prelude::*;
use crate::arith::{wrap_i32, lemma_wrap_i32_add, lemma_wrapping_add_i32, lemma_wrap_i32_id};
use crate::quant::{rescale_and_requantize, requant, Scale};

verus! {

#[derive(Debug, Clone, Copy, PartialEq, Eq)]
pub enum MatmulError {
    BadALen,
    BadBLen,
    BadOutLen,
    ZeroDim,
    KOutOfRange,
}

/// `sum_{l < n} a[ao + l] * b[bo + l]`.
pub open spec fn dot_at(a: Seq<i8>, ao: int, b: Seq<i8>, bo: int, n: int) -> int
    decreases n,
{
    if n <= 0 {
        0
    } else {
        dot_at(a, ao, b, bo, n - 1) + (a[ao + n - 1] as int) * (b[bo + n - 1] as int)
    }
}

/// Row-major `m * n` product of row-major `a` and column-major `b`.
pub open spec fn matmul_spec(a: Seq<i8>, b: Seq<i8>, m: int, k: int, n: int) -> Seq<i32> {
    Seq::new((m * n) as nat, |idx: int| dot_at(a, (idx / n) * k, b, (idx % n) * k, k) as i32)
}

/// Elementwise requantization of an accumulator vector.
pub open spec fn requant_seq(acc: Seq<i32>, num: int) -> Seq<i8> {
    Seq::new(acc.len(), |i: int| requant(acc[i] as int, num) as i8)
}

/// Which check of `matmul_int8` fails first, if any.
pub open spec fn matmul_check(a_len: int, b_len: int, out_len: int, m: int, k: int, n: int) -> Result<(), MatmulError> {
    if m == 0 || k == 0 || n == 0 {
        Err(MatmulError::ZeroDim)
    } else if k > 0x8000 {
        Err(MatmulError::KOutOfRange)
    } else if a_len != m * k {
        Err(MatmulError::BadALen)
    } else if b_len != k * n {
        Err(MatmulError::BadBLen)
    } else if out_len != m * n {
        Err(MatmulError::BadOutLen)
    } else {
        Ok(())
    }
}

pub proof fn lemma_dot_at_bound(a: Seq<i8>, ao: int, b: Seq<i8>, bo: int, n: int)
    requires
        n >= 0,
    ensures
        -(n * 16384) <= dot_at(a, ao, b, bo, n) <= n * 16384,
    decreases n,
{
    if n > 0 {
        lemma_dot_at_bound(a, ao, b, bo, n - 1);
        let x = a[ao + n - 1] as int;
        let y = b[bo + n - 1] as int;
        assert(-16384 <= x * y <= 16384) by (nonlinear_arith)
            requires
                -128 <= x <= 127,
                -128 <= y <= 127,
        {}
    }
}

/// The accumulator for `k <= 2^15` never leaves the `i32` range.
pub proof fn lemma_dot_at_fits(a: Seq<i8>, ao: int, b: Seq<i8>, bo: int, n: int)
    requires
        0 <= n <= 0x8000,
    ensures
        wrap_i32(dot_at(a, ao, b, bo, n)) == dot_at(a, ao, b, bo, n),
        -0x2000_0000 <= dot_at(a, ao, b, bo, n) <= 0x2000_0000,
{
    lemma_dot_at_bound(a, ao, b, bo, n);
    assert(n * 16384 <= 0x2000_0000) by (nonlinear_arith)
        requires
            0 <= n <= 0x8000,
    {}
    lemma_wrap_i32_id(dot_at(a, ao, b, bo, n));
}

/// Product of two `u32` values, exact in `u64`.
pub fn mul_u32(a: u32, b: u32) -> (r: u64)
    ensures
        r == a * b,
{
    assert((a as int) * (b as int) <= 0xffff_ffff_ffff_ffff) by (nonlinear_arith)
        requires
            a <= 0xffff_ffff,
            b <= 0xffff_ffff,
    {}
    (a as u64) * (b as u64)
}

/// Dot product of `a[ao..ao+n]` and `b[bo..bo+n]` with a wrapping `i32`
/// accumulator.
pub fn dot_at_i8(a: &[i8], ao: usize, b: &[i8], bo: usize, n: usize) -> (r: i32)
    requires
        ao + n <= a@.len(),
        bo + n <= b@.len(),
    ensures
        r == wrap_i32(dot_at(a@, ao as int, b@, bo as int, n as int)),
{
    let mut acc: i32 = 0;
    let mut l: usize = 0;
    let a_len = a.len();
    let b_len = b.len();
    proof {
        crate::arith::lemma_wrap_i32_id(0);
    }
    while l < n
        invariant
            l <= n,
            a_len == a@.len(),
            b_len == b@.len(),
            ao + n <= a@.len(),
            bo + n <= b@.len(),
            acc == wrap_i32(dot_at(a@, ao as int, b@, bo as int, l as int)),
        decreases n - l,
    {
        let x = a[ao + l] as i32;
        let y = b[bo + l] as i32;
        assert(-16384 <= x * y <= 16384) by (nonlinear_arith)
            requires
                -128 <= x <= 127,
                -128 <= y <= 127,
        {}
        let p = x * y;
        proof {
            lemma_wrapping_add_i32(acc, p);
            lemma_wrap_i32_add(dot_at(a@, ao as int, b@, bo as int, l as int), p as int);
        }
        acc = acc.wrapping_add(p);
        l = l + 1;
    }
    acc
}

/// `k`-length INT8 dot product with a wrapping `i32` accumulator.
pub fn dot_int8(a: &[i8], b: &[i8]) -> (r: i32)
    requires
        a@.len() == b@.len(),
    ensures
        r == wrap_i32(dot_at(a@, 0, b@, 0, a@.len() as int)),
{
    dot_at_i8(a, 0, b, 0, a.len())
}

pub proof fn lemma_row_major_index(r: int, c: int, n: int, m: int)
    requires
        n > 0,
        0 <= r < m,
        0 <= c < n,
    ensures
        0 <= r * n + c < m * n,
        (r * n + c) / n == r,
        (r * n + c) % n == c,
{
    assert(0 <= r * n + c < m * n) by (nonlinear_arith)
        requires
            n > 0,
            0 <= r < m,
            0 <= c < n,
    {}
    vstd::arithmetic::div_mod::lemma_fundamental_div_mod_converse(r * n + c, n, r, c);
}

/// Compute `out = A * B` into a row-major `m * n` buffer.
pub fn matmul_int8(a: &[i8], b: &[i8], m: u32, k: u32, n: u32, out: &mut [i32]) -> (r: Result<(), MatmulError>)
    ensures
        r == matmul_check(a@.len() as int, b@.len() as int, old(out)@.len() as int, m as int, k as int, n as int),
        r is Ok ==> final(out)@ == matmul_spec(a@, b@, m as int, k as int, n as int),
        r is Err ==> final(out)@ == old(out)@,
{
    if m == 0 || k == 0 || n == 0 {
        return Err(MatmulError::ZeroDim);
    }
    if k > 0x8000u32 {
        return Err(MatmulError::KOutOfRange);
    }
    if a.len() as u64 != mul_u32(m, k) {
        return Err(MatmulError::BadALen);
    }
    if b.len() as u64 != mul_u32(k, n) {
        return Err(MatmulError::BadBLen);
    }
    if out.len() as u64 != mul_u32(m, n) {
        return Err(MatmulError::BadOutLen);
    }
    let mu = m as usize;
    let ku = k as usize;
    let nu = n as usize;
    let ghost spec = matmul_spec(a@, b@, m as int, k as int, n as int);
    let a_len = a.len();
    let b_len = b.len();
    let o_len = out.len();
    let mut i: usize = 0;
    while i < mu
        invariant
            i <= mu,
            mu == m,
            ku == k,
            nu == n,
            0 < ku <= 0x8000,
            nu > 0,
            a@.len() == mu * ku,
            b@.len() == ku * nu,
            out@.len() == mu * nu,
            a_len == a@.len(),
            b_len == b@.len(),
            o_len == out@.len(),
            spec == matmul_spec(a@, b@, m as int, k as int, n as int),
            forall|idx: int| 0 <= idx < i * nu ==> out@[idx] == spec[idx],
        decreases mu - i,
    {
        let mut j: usize = 0;
        while j < nu
            invariant
                i < mu,
                j <= nu,
                mu == m,
                ku == k,
                nu == n,
                0 < ku <= 0x8000,
                nu > 0,
                a@.len() == mu * ku,
                b@.len() == ku * nu,
                out@.len() == mu * nu,
                a_len == a@.len(),
                b_len == b@.len(),
                o_len == out@.len(),
                spec == matmul_spec(a@, b@, m as int, k as int, n as int),
                forall|idx: int| 0 <= idx < i * nu + j ==> out@[idx] == spec[idx],
            decreases nu - j,
        {
            proof {
                lemma_row_major_index(i as int, j as int, nu as int, mu as int);
                assert((i + 1) * ku <= mu * ku) by (nonlinear_arith)
                    requires i < mu, ku > 0 {}
                assert((j + 1) * ku <= ku * nu) by (nonlinear_arith)
                    requires j < nu, ku > 0 {}
                assert(i * ku + ku == (i + 1) * ku) by (nonlinear_arith) {}
                assert(j * ku + ku == (j + 1) * ku) by (nonlinear_arith) {}
            }
            let v = dot_at_i8(a, i * ku, b, j * ku, ku);
            proof {
                lemma_dot_at_fits(a@, (i * ku) as int, b@, (j * ku) as int, ku as int);
            }
            out[i * nu + j] = v;
            j = j + 1;
        }
        proof {
            assert((i + 1) * nu == i * nu + nu) by (nonlinear_arith) {}
        }
        i = i + 1;
    }
    proof {
        assert forall|idx: int| 0 <= idx < out@.len() implies out@[idx] == spec[idx] by {}
        assert(out@ =~= spec);
    }
    Ok(())
}

/// Requantize an `i32` accumulator vector to `i8` with one scale.
pub fn requantize_vec(acc: &[i32], scale: Scale, out: &mut [i8]) -> (r: Result<(), MatmulError>)
    ensures
        acc@.len() != old(out)@.len() ==> r == Err::<(), MatmulError>(MatmulError::BadOutLen) && final(out)@ == old(out)@,
        acc@.len() == old(out)@.len() ==> r is Ok && final(out)@ == requant_seq(acc@, scale.num as int),
{
    if acc.len() != out.len() {
        return Err(MatmulError::BadOutLen);
    }
    let mut i: usize = 0;
    while i < acc.len()
        invariant
            i <= acc@.len(),
            out@.len() == acc@.len(),
            forall|t: int| 0 <= t < i ==> out@[t] == requant_seq(acc@, scale.num as int)[t],
        decreases acc@.len() - i,
    {
        out[i] = rescale_and_requantize(acc[i], scale);
        i = i + 1;
    }
    assert(out@ =~= requant_seq(acc@, scale.num as int));
    Ok(())
}

/// `out = requantize(A * B, scale)`.
pub fn matmul_int8_requant(a: &[i8], b: &[i8], m: u32, k: u32, n: u32, scale: Scale, out: &mut [i8]) -> (r: Result<(), MatmulError>)
    ensures
        old(out)@.len() != m * n ==> r == Err::<(), MatmulError>(MatmulError::BadOutLen),
        old(out)@.len() == m * n ==> r == matmul_check(a@.len() as int, b@.len() as int, (m * n) as int, m as int, k as int, n as int),
        r is Ok ==> final(out)@ == requant_seq(matmul_spec(a@, b@, m as int, k as int, n as int), scale.num as int),
        r is Err ==> final(out)@ == old(out)@,
{
    if out.len() as u64 != mul_u32(m, n) {
        return Err(MatmulError::BadOutLen);
    }
    let mut acc = vec![0i32; out.len()];
    let res = matmul_int8(a, b, m, k, n, &mut acc);
    match res {
        Err(e) => {
            return Err(e);
        },
        Ok(()) => {},
    }
    let r2 = requantize_vec(&acc, scale, out);
    proof {
        assert(acc@.len() == matmul_spec(a@, b@, m as int, k as int, n as int).len());
    }
    match r2 {
        Ok(()) => Ok(()),
        Err(e) => Err(e),
    }
}

} // verus!
