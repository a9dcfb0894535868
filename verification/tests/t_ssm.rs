use ai_pow_vi::activation_lut::ActivationLut;
use ai_pow_vi::deltanet::DeltaNetScales;
use ai_pow_vi::matmul_int8::matmul_int8;
use ai_pow_vi::matmul_int8::matmul_int8_requant;
use ai_pow_vi::matmul_int8::requantize_vec;
use ai_pow_vi::matmul_int8::MatmulError;
use ai_pow_vi::quant::rescale_and_requantize;
use ai_pow_vi::quant::saturate_i8;
use ai_pow_vi::quant::Scale;
use ai_pow_vi::rmsnorm::rmsnorm;
use ai_pow_vi::rmsnorm::RmsNormError;
use ai_pow_vi::ssm::SsmError;
use ai_pow_vi::ssm::SsmOpts;
use ai_pow_vi::ssm::ssm_forward;
use ai_pow_vi::activation_lut::ActivationKind;
use ai_pow_vi::quant::SCALE_DENOM_LOG2;
use ai_pow_vi::rmsnorm::DEFAULT_EPS_Q;
fn small_scale() -> Scale {
    Scale::from_num(1 << (SCALE_DENOM_LOG2 - 4)).unwrap()
}

fn small_scales() -> DeltaNetScales {
    let s = small_scale();
    DeltaNetScales {
        q: s,
        k: s,
        v: s,
        alpha_logit: s,
        beta_logit: s,
        u: s,
        decay: s,
        update: s,
        o: s,
        proj: s,
    }
}

fn lcg_bytes(len: usize, seed: u64) -> Vec<i8> {
    let mut s = seed;
    (0..len)
        .map(|_| {
            s = s
                .wrapping_mul(6364136223846793005)
                .wrapping_add(1442695040888963407);
            s.wrapping_shr(56) as i8
        })
        .collect()
}

fn const_lut(value: i8) -> ActivationLut {
    ActivationLut::from_bytes(ActivationKind::SiLU, &[value as u8; 256]).unwrap()
}

fn hard_sigmoid_lut() -> ActivationLut {
    let mut bytes = [0u8; 256];
    for (i, b) in bytes.iter_mut().enumerate() {
        let x = (i as i32) - 128;
        let v = (64 + x / 2).clamp(0, 127);
        *b = v as u8;
    }
    ActivationLut::from_bytes(ActivationKind::SiLU, &bytes).unwrap()
}

struct WeightsBag {
    ssm_a: Vec<i8>,
    ssm_alpha: Vec<i8>,
    ssm_beta: Vec<i8>,
    ssm_conv1d: Vec<i8>,
    ssm_dt: Vec<i8>,
    ssm_norm_gamma: Vec<i8>,
    ssm_out: Vec<i8>,
}

fn build_bag(hidden: u32, num_v: u32, head_dim: u32, kernel: u32, seed: u64) -> WeightsBag {
    let hu = hidden as usize;
    let nv = num_v as usize;
    let hdu = head_dim as usize;
    let ksz = kernel as usize;
    WeightsBag {
        ssm_a: lcg_bytes(nv, seed),
        ssm_alpha: lcg_bytes(hu * nv, seed.wrapping_add(1)),
        ssm_beta: lcg_bytes(hu * nv, seed.wrapping_add(2)),
        ssm_conv1d: lcg_bytes(ksz * hu, seed.wrapping_add(3)),
        ssm_dt: lcg_bytes(nv, seed.wrapping_add(4)),
        ssm_norm_gamma: lcg_bytes(hdu, seed.wrapping_add(5)),
        ssm_out: lcg_bytes(nv * hdu * hu, seed.wrapping_add(6)),
    }
}

fn make_opts<'a>(
    bag: &'a WeightsBag,
    num_v: u32,
    head_dim: u32,
    kernel: u32,
    sigmoid_lut: &'a ActivationLut,
) -> SsmOpts<'a> {
    SsmOpts {
        ssm_a: &bag.ssm_a,
        ssm_alpha: &bag.ssm_alpha,
        ssm_beta: &bag.ssm_beta,
        ssm_conv1d: &bag.ssm_conv1d,
        ssm_dt: &bag.ssm_dt,
        ssm_norm_gamma: &bag.ssm_norm_gamma,
        ssm_norm_eps_q: DEFAULT_EPS_Q,
        ssm_norm_post_scale: small_scale(),
        ssm_out: &bag.ssm_out,
        num_v_heads: num_v,
        head_dim,
        kernel_size: kernel,
        scales: small_scales(),
        sigmoid_lut,
    }
}

#[test]
fn ssm_zero_input_yields_zero_output() {
    let hidden = 8u32;
    let num_v = 2u32;
    let hd = 4u32;
    let k = 3u32;
    let m = 4u32;
    let bag = build_bag(hidden, num_v, hd, k, 0xabcd);
    let lut = hard_sigmoid_lut();
    let opts = make_opts(&bag, num_v, hd, k, &lut);
    let input = vec![0i8; (m * hidden) as usize];
    let mut output = vec![1i8; (m * hidden) as usize];
    ssm_forward(&input, hidden, m, opts, &mut output).unwrap();
    // Zero input → zero conv → zero α/β logits, but sigmoid(0) ≠ 0,
    // so α,β > 0. With xv = 0 the update term vanishes; with s = 0
    // initially the decay term also vanishes; state stays zero, and
    // y → norm → output projection of zeros = zero.
    for &v in &output {
        assert_eq!(v, 0, "zero input must produce zero output (got {output:?})");
    }
}

#[test]
fn ssm_determinism_two_calls_match() {
    let hidden = 8u32;
    let num_v = 2u32;
    let hd = 4u32;
    let k = 3u32;
    let m = 4u32;
    let bag = build_bag(hidden, num_v, hd, k, 0xfeed);
    let lut = hard_sigmoid_lut();
    let opts = make_opts(&bag, num_v, hd, k, &lut);
    let input = lcg_bytes((m * hidden) as usize, 0xbeef);
    let mut a = vec![0i8; (m * hidden) as usize];
    let mut b = vec![0i8; (m * hidden) as usize];
    ssm_forward(&input, hidden, m, opts, &mut a).unwrap();
    ssm_forward(&input, hidden, m, opts, &mut b).unwrap();
    assert_eq!(a, b);
}

#[test]
fn beta_zero_state_never_updates() {
    // β = 0 → update term zero. With state initialized to zero, the
    // decay term is also zero → state stays zero → output is zero.
    let hidden = 4u32;
    let num_v = 1u32;
    let hd = 2u32;
    let k = 2u32;
    let m = 3u32;
    let bag = build_bag(hidden, num_v, hd, k, 0x1111);
    let zero_lut = const_lut(0);
    let opts = make_opts(&bag, num_v, hd, k, &zero_lut);
    let input = lcg_bytes((m * hidden) as usize, 0x2222);
    let mut output = vec![1i8; (m * hidden) as usize];
    ssm_forward(&input, hidden, m, opts, &mut output).unwrap();
    for &v in &output {
        assert_eq!(v, 0, "β = 0 → state stays zero → output zero");
    }
}

#[test]
fn ssm_fresh_state_each_call() {
    // Two separate calls must produce identical outputs (state must not
    // leak across calls via a `static` or thread-local).
    let hidden = 4u32;
    let num_v = 1u32;
    let hd = 2u32;
    let k = 2u32;
    let m = 3u32;
    let bag = build_bag(hidden, num_v, hd, k, 0x3333);
    let lut = hard_sigmoid_lut();
    let opts = make_opts(&bag, num_v, hd, k, &lut);
    let input = lcg_bytes((m * hidden) as usize, 0x4444);
    let mut a = vec![0i8; (m * hidden) as usize];
    let mut b = vec![0i8; (m * hidden) as usize];
    ssm_forward(&input, hidden, m, opts, &mut a).unwrap();
    // Run something else in between.
    let other = lcg_bytes((m * hidden) as usize, 0x5555);
    let mut out_other = vec![0i8; (m * hidden) as usize];
    ssm_forward(&other, hidden, m, opts, &mut out_other).unwrap();
    // Re-run the original.
    ssm_forward(&input, hidden, m, opts, &mut b).unwrap();
    assert_eq!(a, b, "state must not leak across calls");
}

#[test]
fn conv_kernel_masks_past_prefix() {
    // Two SSM calls: one with `m=1` and one with `m=2` must produce
    // identical outputs at position 0 (the conv mask zeros taps past
    // the prefix bound, so position 0 sees only its own token).
    let hidden = 4u32;
    let num_v = 1u32;
    let hd = 2u32;
    let k = 3u32; // kernel covers t-2, t-1, t
    let bag = build_bag(hidden, num_v, hd, k, 0x6666);
    let lut = hard_sigmoid_lut();
    let opts = make_opts(&bag, num_v, hd, k, &lut);
    let input1 = lcg_bytes(hidden as usize, 0x7777);
    let mut input2 = vec![0i8; (2 * hidden) as usize];
    input2[..(hidden as usize)].copy_from_slice(&input1);
    // Position-1 input is anything; position 0 must be `input1`.
    let pad = lcg_bytes(hidden as usize, 0x8888);
    input2[(hidden as usize)..].copy_from_slice(&pad);
    let mut out1 = vec![0i8; hidden as usize];
    let mut out2 = vec![0i8; (2 * hidden) as usize];
    ssm_forward(&input1, hidden, 1, opts, &mut out1).unwrap();
    ssm_forward(&input2, hidden, 2, opts, &mut out2).unwrap();
    assert_eq!(
        &out1[..],
        &out2[..hidden as usize],
        "row 0 must match across m=1 and m=2 calls (causal mask + fresh state)",
    );
}

#[test]
fn ssm_length_mismatch_rejected() {
    let hidden = 4u32;
    let num_v = 1u32;
    let hd = 2u32;
    let k = 2u32;
    let m = 2u32;
    let bag = build_bag(hidden, num_v, hd, k, 0x9999);
    let lut = hard_sigmoid_lut();
    let opts = make_opts(&bag, num_v, hd, k, &lut);

    let bad = vec![0i8; 7];
    let mut out = vec![0i8; (m * hidden) as usize];
    assert_eq!(
        ssm_forward(&bad, hidden, m, opts, &mut out).err(),
        Some(SsmError::BadInputLen),
    );

    let input = vec![0i8; (m * hidden) as usize];
    let mut bad_out = vec![0i8; 5];
    assert_eq!(
        ssm_forward(&input, hidden, m, opts, &mut bad_out).err(),
        Some(SsmError::BadOutputLen),
    );

    assert_eq!(
        ssm_forward(&input, 0, m, opts, &mut out).err(),
        Some(SsmError::ZeroDim),
    );
    assert_eq!(
        ssm_forward(&input, hidden, 0, opts, &mut out).err(),
        Some(SsmError::ZeroDim),
    );
}

#[test]
fn weight_shape_mismatch_rejected() {
    let hidden = 4u32;
    let num_v = 1u32;
    let hd = 2u32;
    let k = 2u32;
    let m = 2u32;
    let bag = build_bag(hidden, num_v, hd, k, 0xaaaa);
    let lut = hard_sigmoid_lut();
    let input = vec![0i8; (m * hidden) as usize];
    let mut out = vec![0i8; (m * hidden) as usize];

    // ssm_a wrong length.
    let bad_a = vec![0i8; 2]; // should be num_v=1
    let mut o = make_opts(&bag, num_v, hd, k, &lut);
    o.ssm_a = &bad_a;
    assert_eq!(
        ssm_forward(&input, hidden, m, o, &mut out).err(),
        Some(SsmError::BadSsmALen),
    );

    // ssm_conv1d wrong length.
    let bad_conv = vec![0i8; 7];
    let mut o = make_opts(&bag, num_v, hd, k, &lut);
    o.ssm_conv1d = &bad_conv;
    assert_eq!(
        ssm_forward(&input, hidden, m, o, &mut out).err(),
        Some(SsmError::BadSsmConvLen),
    );

    // ssm_norm_gamma wrong length.
    let bad_norm = vec![0i8; 5];
    let mut o = make_opts(&bag, num_v, hd, k, &lut);
    o.ssm_norm_gamma = &bad_norm;
    assert_eq!(
        ssm_forward(&input, hidden, m, o, &mut out).err(),
        Some(SsmError::BadSsmNormGammaLen),
    );

    // ssm_out wrong length.
    let bad_out_w = vec![0i8; 7];
    let mut o = make_opts(&bag, num_v, hd, k, &lut);
    o.ssm_out = &bad_out_w;
    assert_eq!(
        ssm_forward(&input, hidden, m, o, &mut out).err(),
        Some(SsmError::BadSsmOutLen),
    );
}
