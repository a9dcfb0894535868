//! SwiGLU feed-forward block with a committed activation LUT:
//!
//! ```text
//! gate = lut( requant( x @ W_gate, gate ) )
//! up   = requant( x @ W_up, up )
//! mid  = requant( gate * up, mid )          (elementwise)
//! out  = requant( mid @ W_down, down )
//! ```
use vstd::prelude::*;
use crate::activation_lut::{ActivationLut, lut_map};
use crate::matmul_int8::{matmul_int8, requantize_vec, MatmulError, matmul_spec, requant_seq, mul_u32};
use crate::quant::{rescale_and_requantize, requant, Scale};

verus! {

/// Weights of one SwiGLU block. `w_gate`, `w_up` are `(hidden,
/// intermediate)` column-major; `w_down` is `(intermediate, hidden)`
/// column-major.
#[derive(Debug, Clone, PartialEq, Eq)]
pub struct FfnWeights {
    pub hidden: u32,
    pub intermediate: u32,
    pub w_gate: Vec<i8>,
    pub w_up: Vec<i8>,
    pub w_down: Vec<i8>,
}

/// Per-tensor requantization scales of one SwiGLU step.
#[derive(Debug, Clone, Copy, PartialEq, Eq)]
pub struct FfnScales {
    pub gate: Scale,
    pub up: Scale,
    pub mid: Scale,
    pub down: Scale,
}

#[derive(Debug, Clone, Copy, PartialEq, Eq)]
pub enum FfnError {
    BadInputLen,
    BadOutputLen,
    BadGateLen,
    BadUpLen,
    BadDownLen,
    Matmul(MatmulError),
}

/// `requant(a[i] * b[i], num)` for every `i`.
pub open spec fn ew_mul_spec(a: Seq<i8>, b: Seq<i8>, num: int) -> Seq<i8> {
    Seq::new(a.len(), |i: int| requant((a[i] as int) * (b[i] as int), num) as i8)
}

/// The SwiGLU output for a well-shaped input.
pub open spec fn ffn_spec(x: Seq<i8>, w: FfnWeights, table: Seq<i8>, s: FfnScales, m: int) -> Seq<i8> {
    let h = w.hidden as int;
    let n = w.intermediate as int;
    let gate = lut_map(table, requant_seq(matmul_spec(x, w.w_gate@, m, h, n), s.gate.num as int));
    let up = requant_seq(matmul_spec(x, w.w_up@, m, h, n), s.up.num as int);
    let mid = ew_mul_spec(gate, up, s.mid.num as int);
    requant_seq(matmul_spec(mid, w.w_down@, m, n, h), s.down.num as int)
}

/// Which check of `ffn_forward` fails first, if any.
pub open spec fn ffn_check(in_len: int, out_len: int, w: FfnWeights, m: int) -> Result<(), FfnError> {
    let h = w.hidden as int;
    let n = w.intermediate as int;
    if in_len != m * h {
        Err(FfnError::BadInputLen)
    } else if out_len != m * h {
        Err(FfnError::BadOutputLen)
    } else if w.w_gate@.len() != h * n {
        Err(FfnError::BadGateLen)
    } else if w.w_up@.len() != h * n {
        Err(FfnError::BadUpLen)
    } else if w.w_down@.len() != n * h {
        Err(FfnError::BadDownLen)
    } else if m == 0 || h == 0 || n == 0 {
        Err(FfnError::Matmul(MatmulError::ZeroDim))
    } else if h > 0x8000 || n > 0x8000 {
        Err(FfnError::Matmul(MatmulError::KOutOfRange))
    } else {
        Ok(())
    }
}

/// Elementwise product of two `i8` vectors, requantized through `scale`.
pub fn elementwise_mul_i8(a: &[i8], b: &[i8], scale: Scale, out: &mut [i8]) -> (r: Result<(), FfnError>)
    ensures
        (a@.len() != b@.len() || a@.len() != old(out)@.len()) ==> r == Err::<(), FfnError>(FfnError::BadInputLen)
            && final(out)@ == old(out)@,
        (a@.len() == b@.len() && a@.len() == old(out)@.len()) ==> r is Ok
            && final(out)@ == ew_mul_spec(a@, b@, scale.num as int),
{
    if a.len() != b.len() || a.len() != out.len() {
        return Err(FfnError::BadInputLen);
    }
    let n = a.len();
    let mut i: usize = 0;
    while i < n
        invariant
            i <= n,
            n == a@.len(),
            n == b@.len(),
            n == out@.len(),
            forall|t: int| 0 <= t < i ==> out@[t] == ew_mul_spec(a@, b@, scale.num as int)[t],
        decreases n - i,
    {
        let ai = a[i] as i32;
        let bi = b[i] as i32;
        assert(-0x4000 <= ai * bi <= 0x4000) by (nonlinear_arith)
            requires -128 <= ai <= 127, -128 <= bi <= 127 {}
        let prod = ai * bi;
        out[i] = rescale_and_requantize(prod, scale);
        i = i + 1;
    }
    assert(out@ =~= ew_mul_spec(a@, b@, scale.num as int));
    Ok(())
}

/// SwiGLU forward over an `(m, hidden)` row-major input.
pub fn ffn_forward(
    input: &[i8],
    weights: &FfnWeights,
    activation: &ActivationLut,
    scales: FfnScales,
    m: u32,
    output: &mut [i8],
) -> (r: Result<(), FfnError>)
    requires
        m * weights.intermediate <= usize::MAX,
    ensures
        r == ffn_check(input@.len() as int, old(output)@.len() as int, *weights, m as int),
        r is Ok ==> final(output)@ == ffn_spec(input@, *weights, activation.table@, scales, m as int),
        r is Err ==> final(output)@ == old(output)@,
{
    let hidden = weights.hidden;
    let intermediate = weights.intermediate;
    let mh = mul_u32(m, hidden);
    let hi = mul_u32(hidden, intermediate);
    let mi = mul_u32(m, intermediate);
    if input.len() as u64 != mh {
        return Err(FfnError::BadInputLen);
    }
    if output.len() as u64 != mh {
        return Err(FfnError::BadOutputLen);
    }
    if weights.w_gate.len() as u64 != hi {
        return Err(FfnError::BadGateLen);
    }
    if weights.w_up.len() as u64 != hi {
        return Err(FfnError::BadUpLen);
    }
    if weights.w_down.len() as u64 != hi {
        proof {
            assert(intermediate * hidden == hidden * intermediate) by (nonlinear_arith) {}
        }
        return Err(FfnError::BadDownLen);
    }
    proof {
        assert(intermediate * hidden == hidden * intermediate) by (nonlinear_arith) {}
    }
    let miu = mi as usize;
    let ghost x = input@;
    let ghost h = hidden as int;
    let ghost n = intermediate as int;

    let mut gate_acc = vec![0i32; miu];
    match matmul_int8(input, &weights.w_gate, m, hidden, intermediate, &mut gate_acc) {
        Err(e) => {
            return Err(FfnError::Matmul(e));
        },
        Ok(()) => {},
    }
    let mut gate_q = vec![0i8; miu];
    match requantize_vec(&gate_acc, scales.gate, &mut gate_q) {
        Err(e) => {
            return Err(FfnError::Matmul(e));
        },
        Ok(()) => {},
    }
    activation.apply(&mut gate_q);
    assert(gate_q@ == lut_map(activation.table@, requant_seq(matmul_spec(x, weights.w_gate@, m as int, h, n), scales.gate.num as int)));

    let mut up_acc = vec![0i32; miu];
    match matmul_int8(input, &weights.w_up, m, hidden, intermediate, &mut up_acc) {
        Err(e) => {
            return Err(FfnError::Matmul(e));
        },
        Ok(()) => {},
    }
    let mut up_q = vec![0i8; miu];
    match requantize_vec(&up_acc, scales.up, &mut up_q) {
        Err(e) => {
            return Err(FfnError::Matmul(e));
        },
        Ok(()) => {},
    }

    let mut mid_q = vec![0i8; miu];
    match elementwise_mul_i8(&gate_q, &up_q, scales.mid, &mut mid_q) {
        Err(e) => {
            return Err(e);
        },
        Ok(()) => {},
    }

    let mut down_acc = vec![0i32; output.len()];
    match matmul_int8(&mid_q, &weights.w_down, m, intermediate, hidden, &mut down_acc) {
        Err(e) => {
            return Err(FfnError::Matmul(e));
        },
        Ok(()) => {},
    }
    match requantize_vec(&down_acc, scales.down, output) {
        Err(e) => {
            return Err(FfnError::Matmul(e));
        },
        Ok(()) => {},
    }
    Ok(())
}

} // verus!
