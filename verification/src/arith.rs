//! Integer helpers shared by every numerical kernel: two's-complement
//! wrap-around, saturation, and the lemmas that connect them to `int`.
use vstd::prelude::*;
use vstd::arithmetic::div_mod::*;

verus! {

/// Two's-complement wrap of an integer into the `i32` range.
pub open spec fn wrap_i32(x: int) -> int {
    (x + 0x8000_0000) % 0x1_0000_0000 - 0x8000_0000
}

/// Two's-complement wrap of an integer into the `i64` range.
pub open spec fn wrap_i64(x: int) -> int {
    (x + 0x8000_0000_0000_0000) % 0x1_0000_0000_0000_0000 - 0x8000_0000_0000_0000
}

/// Clamp `x` into `[lo, hi]`.
pub open spec fn clamp(x: int, lo: int, hi: int) -> int {
    if x < lo { lo } else if x > hi { hi } else { x }
}

/// Saturate into the `i8` range.
pub open spec fn sat_i8(x: int) -> int {
    clamp(x, -128, 127)
}

/// Saturate into the `i32` range.
pub open spec fn sat_i32(x: int) -> int {
    clamp(x, -0x8000_0000, 0x7fff_ffff)
}

pub proof fn lemma_wrap_i32_id(x: int)
    requires
        -0x8000_0000 <= x <= 0x7fff_ffff,
    ensures
        wrap_i32(x) == x,
{
    lemma_small_mod((x + 0x8000_0000) as nat, 0x1_0000_0000);
}

pub proof fn lemma_wrap_i32_range(x: int)
    ensures
        -0x8000_0000 <= wrap_i32(x) <= 0x7fff_ffff,
{
    lemma_mod_bound(x + 0x8000_0000, 0x1_0000_0000);
}

/// Wrapping is compatible with addition: reducing a partial sum first
/// does not change the final wrapped value.
pub proof fn lemma_wrap_i32_add(a: int, b: int)
    ensures
        wrap_i32(wrap_i32(a) + b) == wrap_i32(a + b),
{
    let m = 0x1_0000_0000int;
    let h = 0x8000_0000int;
    // wrap(a) + b + h == ((a + h) % m) + b
    lemma_add_mod_noop(a + h, b, m);
    lemma_mod_twice(a + h, m);
    lemma_add_mod_noop((a + h) % m, b, m);
    assert((wrap_i32(a) + b + h) == ((a + h) % m) + b);
}

/// `i32::wrapping_add` computes the wrapped sum.
pub proof fn lemma_wrapping_add_i32(x: i32, y: i32)
    ensures
        vstd::wrapping::i32_specs::wrapping_add(x, y) == wrap_i32(x + y),
{
    let m = 0x1_0000_0000int;
    let s = x + y;
    if s > 0x7fff_ffff {
        lemma_mod_add_multiples_vanish(s + 0x8000_0000 - m, m);
        lemma_small_mod((s + 0x8000_0000 - m) as nat, m as nat);
    } else if s < -0x8000_0000 {
        lemma_mod_add_multiples_vanish(s + 0x8000_0000, m);
        lemma_small_mod((s + 0x8000_0000 + m) as nat, m as nat);
    } else {
        lemma_wrap_i32_id(s);
    }
}

pub proof fn lemma_wrap_i64_id(x: int)
    requires
        -0x8000_0000_0000_0000 <= x <= 0x7fff_ffff_ffff_ffff,
    ensures
        wrap_i64(x) == x,
{
    lemma_small_mod((x + 0x8000_0000_0000_0000) as nat, 0x1_0000_0000_0000_0000);
}

pub proof fn lemma_wrap_i64_range(x: int)
    ensures
        -0x8000_0000_0000_0000 <= wrap_i64(x) <= 0x7fff_ffff_ffff_ffff,
{
    lemma_mod_bound(x + 0x8000_0000_0000_0000, 0x1_0000_0000_0000_0000);
}

pub proof fn lemma_wrap_i64_add(a: int, b: int)
    ensures
        wrap_i64(wrap_i64(a) + b) == wrap_i64(a + b),
{
    let m = 0x1_0000_0000_0000_0000int;
    let h = 0x8000_0000_0000_0000int;
    lemma_add_mod_noop(a + h, b, m);
    lemma_mod_twice(a + h, m);
    lemma_add_mod_noop((a + h) % m, b, m);
    assert((wrap_i64(a) + b + h) == ((a + h) % m) + b);
}

pub proof fn lemma_wrapping_add_i64(x: i64, y: i64)
    ensures
        vstd::wrapping::i64_specs::wrapping_add(x, y) == wrap_i64(x + y),
{
    let m = 0x1_0000_0000_0000_0000int;
    let s = x + y;
    if s > 0x7fff_ffff_ffff_ffff {
        lemma_mod_add_multiples_vanish(s + 0x8000_0000_0000_0000 - m, m);
        lemma_small_mod((s + 0x8000_0000_0000_0000 - m) as nat, m as nat);
    } else if s < -0x8000_0000_0000_0000 {
        lemma_mod_add_multiples_vanish(s + 0x8000_0000_0000_0000, m);
        lemma_small_mod((s + 0x8000_0000_0000_0000 + m) as nat, m as nat);
    } else {
        lemma_wrap_i64_id(s);
    }
}

/// Division rounding toward zero (Rust's signed `/`) for `b > 0`.
pub open spec fn trunc_div(a: int, b: int) -> int {
    if a >= 0 { a / b } else { -((-a) / b) }
}

} // verus!
