//! INT8 quantization contract: positive fixed-point scales with denominator
//! `2^15`, banker's rounding on every rescale, saturating clamp to `i8`.
use vstd::prelude::*;
use vstd::arithmetic::div_mod::*;
use vstd::arithmetic::power2::*;
use vstd::bits::*;
use vstd::arithmetic::mul::*;
use crate::arith::sat_i8;

verus! {

/// Fixed denominator exponent for all rescale operations.
pub const SCALE_DENOM_LOG2: u32 = 15;

/// Symmetric INT8 quantization scale; the effective scale is `num / 2^15`.
#[derive(Debug, Clone, Copy, PartialEq, Eq)]
pub struct Scale {
    pub num: i32,
}

#[derive(Debug, Clone, Copy, PartialEq, Eq)]
pub enum QuantError {
    NonPositiveScale,
    ScaleOutOfRange,
}

/// `value / 2^shift` rounded to nearest, ties to even (floor division and
/// a non-negative remainder, as in two's-complement arithmetic shift).
pub open spec fn round_half_even(value: int, shift: nat) -> int {
    let d = pow2(shift) as int;
    let q = value / d;
    let r = value % d;
    let h = d / 2;
    if r < h {
        q
    } else if r > h {
        q + 1
    } else if q % 2 == 0 {
        q
    } else {
        q + 1
    }
}

/// What `rescale_and_requantize` returns for an accumulator and a scale
/// numerator.
pub open spec fn requant(acc: int, num: int) -> int {
    sat_i8(round_half_even(acc * num, SCALE_DENOM_LOG2 as nat))
}

impl Scale {
    /// Build a scale from its numerator; zero and negative numerators are
    /// rejected.
    pub fn from_num(num: i32) -> (r: Result<Scale, QuantError>)
        ensures
            num > 0 ==> r == Ok::<Scale, QuantError>(Scale { num }),
            num <= 0 ==> r == Err::<Scale, QuantError>(QuantError::NonPositiveScale),
    {
        if num <= 0 {
            return Err(QuantError::NonPositiveScale);
        }
        Ok(Scale { num })
    }

    pub fn as_num(&self) -> (r: i32)
        ensures
            r == self.num,
    {
        self.num
    }
}

proof fn lemma_round_parts(value: int, shift: nat, off: int)
    requires
        1 <= shift <= 62,
        off == pow2(63) as int / pow2(shift) as int,
    ensures
        pow2(shift) * off == pow2(63),
        (value + pow2(63)) / (pow2(shift) as int) == value / (pow2(shift) as int) + off,
        (value + pow2(63)) % (pow2(shift) as int) == value % (pow2(shift) as int),
        off % 2 == 0,
{
    let d = pow2(shift) as int;
    lemma_pow2_pos(shift);
    lemma_pow2_adds(shift, (63 - shift) as nat);
    lemma_pow2_pos((63 - shift) as nat);
    let e = pow2((63 - shift) as nat) as int;
    assert(pow2(63) == d * e);
    lemma_div_by_multiple(e, d);
    assert(e * d / d == e);
    assert(off == e) by {
        lemma_mul_is_commutative(d, e);
    }
    lemma_div_plus_mod_multiples(value, d, e);
    // e is even since 63 - shift >= 1
    lemma_pow2_adds(1, (62 - shift) as nat);
    lemma2_to64();
    lemma_mod_multiples_basic(pow2((62 - shift) as nat) as int, 2);
}

proof fn lemma_div_plus_mod_multiples(value: int, d: int, e: int)
    requires
        d > 0,
    ensures
        (value + d * e) / d == value / d + e,
        (value + d * e) % d == value % d,
{
    lemma_mul_is_commutative(d, e);
    lemma_div_plus_multiple(value, e, d);
    lemma_mod_multiples_vanish(e, value, d);
}

proof fn lemma_div_plus_multiple(value: int, e: int, d: int)
    requires
        d > 0,
    ensures
        (value + e * d) / d == value / d + e,
{
    lemma_fundamental_div_mod(value, d);
    lemma_mod_bound(value, d);
    let q = value / d;
    let r = value % d;
    assert(value + e * d == d * (q + e) + r) by (nonlinear_arith)
        requires
            value == d * q + r,
    {}
    lemma_fundamental_div_mod_converse(value + e * d, d, q + e, r);
}

/// Round `value / 2^shift` to nearest, ties to even.
pub fn round_half_to_even_div_pow2(value: i64, shift: u32) -> (r: i64)
    requires
        0 < shift < 63,
    ensures
        r == round_half_even(value as int, shift as nat),
{
    proof {
        lemma_u64_pow2_no_overflow(shift as nat);
        lemma_u64_shl_is_mul(1u64, shift as u64);
        lemma_u64_pow2_no_overflow(63);
        lemma_u64_shl_is_mul(1u64, 63u64);
        lemma2_to64_rest();
    }
    let d: u64 = 1u64 << (shift as u64);
    let top: u64 = 1u64 << 63u64;
    let off: u64 = top / d;
    let ghost dd = d as int;
    proof {
        lemma_round_parts(value as int, shift as nat, off as int);
        lemma_pow2_pos(shift as nat);
        lemma_pow2_adds(1, (shift - 1) as nat);
        lemma2_to64();
        lemma_mod_bound(value as int, dd);
    }
    // Offset by 2^63 (a multiple of 2^shift) so the division is unsigned.
    let u: u64 = if value >= 0 {
        (value as u64) + top
    } else {
        ((value + 1) + 0x7fff_ffff_ffff_ffffi64) as u64
    };
    assert(u as int == value as int + pow2(63));
    let uq: u64 = u / d;
    let frac: u64 = u % d;
    let half: u64 = d / 2;
    proof {
        lemma_div_is_ordered_by_denominator(u as int, 2, dd);
        assert(off >= 1) by {
            lemma_div_is_ordered(dd, top as int, dd);
            lemma_div_by_self(dd);
        }
        lemma_div_is_ordered_by_denominator(top as int, 2, dd);
    }
    let trunc: i64 = (uq as i64) - (off as i64);
    proof {
        assert(uq as int == value as int / dd + off as int);
        lemma_mod_plus_even(uq as int, off as int);
    }
    if frac < half {
        trunc
    } else if frac > half {
        trunc + 1
    } else if uq % 2 == 0 {
        trunc
    } else {
        trunc + 1
    }
}

proof fn lemma_mod_plus_even(a: int, e: int)
    requires
        e % 2 == 0,
    ensures
        (a - e) % 2 == a % 2,
{
    lemma_fundamental_div_mod(e, 2);
    let k = e / 2;
    lemma_mod_multiples_vanish(-k, a, 2);
    assert(a + 2 * (-k) == a - e);
}

/// `value >> shift` for signed `value`: floor division by `2^shift`.
pub fn shr_floor(value: i64, shift: u32) -> (r: i64)
    requires
        0 < shift < 63,
    ensures
        r == value as int / pow2(shift as nat) as int,
{
    proof {
        lemma_u64_pow2_no_overflow(shift as nat);
        lemma_u64_shl_is_mul(1u64, shift as u64);
        lemma_u64_pow2_no_overflow(63);
        lemma_u64_shl_is_mul(1u64, 63u64);
        lemma2_to64_rest();
    }
    let d: u64 = 1u64 << (shift as u64);
    let top: u64 = 1u64 << 63u64;
    let off: u64 = top / d;
    let ghost dd = d as int;
    proof {
        lemma_round_parts(value as int, shift as nat, off as int);
        lemma_pow2_pos(shift as nat);
        lemma_pow2_adds(1, (shift - 1) as nat);
        lemma2_to64();
    }
    let u: u64 = if value >= 0 {
        (value as u64) + top
    } else {
        ((value + 1) + 0x7fff_ffff_ffff_ffffi64) as u64
    };
    assert(u as int == value as int + pow2(63));
    let uq: u64 = u / d;
    proof {
        lemma_div_is_ordered_by_denominator(u as int, 2, dd);
        lemma_div_is_ordered_by_denominator(top as int, 2, dd);
    }
    (uq as i64) - (off as i64)
}

/// Convert an `i32` accumulator to `i8` through a scale: banker's rounding
/// of `acc * num / 2^15`, then saturation to `[-128, 127]`.
pub fn rescale_and_requantize(acc: i32, scale: Scale) -> (r: i8)
    ensures
        r == requant(acc as int, scale.num as int),
{
    let a = acc as i64;
    let s = scale.num as i64;
    assert(-0x4000_0000_0000_0000 <= a * s <= 0x4000_0000_0000_0000) by (nonlinear_arith)
        requires
            -0x8000_0000 <= a <= 0x7fff_ffff,
            -0x8000_0000 <= s <= 0x7fff_ffff,
    {}
    let product = a * s;
    let rounded = round_half_to_even_div_pow2(product, SCALE_DENOM_LOG2);
    saturate_i8(rounded)
}

/// Saturating clamp of any `i64` into `[-128, 127]`.
pub fn saturate_i8(value: i64) -> (r: i8)
    ensures
        r == sat_i8(value as int),
{
    if value < -128 {
        -128
    } else if value > 127 {
        127
    } else {
        value as i8
    }
}

} // verus!
