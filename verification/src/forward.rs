//! Forward driver: embed the prompt, run the first `target_layer` blocks,
//! apply the final norm when the whole stack ran, and record every layer
//! input (zero-padded to `seq_len` rows) into an activation log.
use vstd::prelude::*;
use crate::activations::{act_leaves, ActivationError, ActivationLayout, ActivationLog};
use crate::layer::{forward_layer, layer_fits, layer_spec, norm_rows_spec, apply_norm_per_token, LayerContext, LayerError, NormSpec};
use crate::layernorm::LayerNormError;
use crate::merkle::{merkle_root_spec, views32};
use crate::model::{Model, ModelError, Token};
use crate::rmsnorm::RmsNormError;

verus! {

#[derive(Debug, Clone, Copy, PartialEq, Eq)]
pub enum ForwardError {
    EmptyPrompt,
    PromptTooLong { got: u32, max: u32 },
    TokenOutOfRange(Token),
    TargetLayerTooLarge { got: u32, max: u32 },
    LogLayoutMismatch,
    LogAlreadyPopulated,
    Model(ModelError),
    Layer(LayerError),
    Activation(ActivationError),
    Rms(RmsNormError),
    Ln(LayerNormError),
}

/// First token of `prompt[..n]` outside the vocabulary, if any.
pub open spec fn bad_token(prompt: Seq<u32>, vocab: u32, n: int) -> Option<u32>
    decreases n,
{
    if n <= 0 {
        None
    } else {
        match bad_token(prompt, vocab, n - 1) {
            Some(t) => Some(t),
            None => if prompt[n - 1] >= vocab { Some(prompt[n - 1]) } else { None },
        }
    }
}

/// Embedded prompt, `(m, hidden)` row-major.
pub open spec fn embed_spec(embed: Seq<i8>, prompt: Seq<u32>, hidden: int) -> Seq<i8> {
    Seq::new((prompt.len() * hidden) as nat, |i: int| embed[prompt[i / hidden] * hidden + i % hidden])
}

/// `x` followed by zeros up to `n` entries.
pub open spec fn pad_spec(x: Seq<i8>, n: int) -> Seq<i8> {
    Seq::new(n as nat, |i: int| if i < x.len() { x[i] } else { 0i8 })
}

/// State after the first `k` blocks.
#[verifier::opaque]
pub open spec fn run_layers(layers: Seq<crate::layer::LayerWeights>, ctx: LayerContext, x: Seq<i8>, m: int, hidden: int, k: int) -> Result<Seq<i8>, LayerError>
    decreases k,
{
    if k <= 0 {
        Ok(x)
    } else {
        match run_layers(layers, ctx, x, m, hidden, k - 1) {
            Err(e) => Err(e),
            Ok(y) => layer_spec(y, m * hidden, layers[k - 1], ctx, m),
        }
    }
}

/// The layout a model's activation log must have.
pub open spec fn model_layout(model: Model) -> ActivationLayout {
    ActivationLayout { seq_len: model.dims.seq_len, hidden: model.dims.hidden, tile: model.dims.activation_tile }
}

/// The checks made before any layer runs.
pub open spec fn forward_check(model: Model, prompt: Seq<u32>, target: u32, log: ActivationLog) -> Result<(), ForwardError> {
    let m = prompt.len() as u32;
    if model.validate_spec() is Err {
        Err(ForwardError::Model(model.validate_spec()->Err_0))
    } else if prompt.len() == 0 {
        Err(ForwardError::EmptyPrompt)
    } else if m > model.dims.seq_len {
        Err(ForwardError::PromptTooLong { got: m, max: model.dims.seq_len })
    } else if target > model.layers@.len() as u32 {
        Err(ForwardError::TargetLayerTooLarge { got: target, max: model.layers@.len() as u32 })
    } else if log.layout != model_layout(model) {
        Err(ForwardError::LogLayoutMismatch)
    } else if log.layer_roots@.len() as u32 != 0 {
        Err(ForwardError::LogAlreadyPopulated)
    } else if bad_token(prompt, model.dims.vocab, prompt.len() as int) is Some {
        Err(ForwardError::TokenOutOfRange(bad_token(prompt, model.dims.vocab, prompt.len() as int)->0))
    } else {
        Ok(())
    }
}

/// The final norm's length checks.
pub open spec fn final_norm_check(norm: NormSpec, hidden: int) -> Result<(), ForwardError> {
    match norm {
        NormSpec::RmsNorm { gamma, .. } =>
            if gamma@.len() != hidden { Err(ForwardError::Rms(RmsNormError::LenMismatch)) } else { Ok(()) },
        NormSpec::LayerNorm { gamma, beta, .. } =>
            if gamma@.len() != hidden || beta@.len() != hidden { Err(ForwardError::Ln(LayerNormError::LenMismatch)) } else { Ok(()) },
    }
}

/// What `forward_prefix` returns once its checks passed.
pub open spec fn forward_spec(model: Model, prompt: Seq<u32>, target: u32, ctx: LayerContext) -> Result<Seq<i8>, ForwardError> {
    let h = model.dims.hidden as int;
    let m = prompt.len() as int;
    match run_layers(model.layers@, ctx, embed_spec(model.embed@, prompt, h), m, h, target as int) {
        Err(e) => Err(ForwardError::Layer(e)),
        Ok(y) => if target as int == model.layers@.len() && model.final_norm is Some {
            let n = model.final_norm->0;
            match final_norm_check(n, h) {
                Err(e) => Err(e),
                Ok(_) => Ok(norm_rows_spec(n, y, h)),
            }
        } else {
            Ok(y)
        },
    }
}

/// Root of the input of layer `k`, padded to `seq_len` rows.
pub open spec fn stack_root(model: Model, prompt: Seq<u32>, ctx: LayerContext, k: int) -> Seq<u8> {
    let h = model.dims.hidden as int;
    let y = run_layers(model.layers@, ctx, embed_spec(model.embed@, prompt, h), prompt.len() as int, h, k)->Ok_0;
    merkle_root_spec(act_leaves(pad_spec(y, model.dims.seq_len * h), model_layout(model)))
}

/// Whether entry `k` of the log is the model's final output after its
/// final norm: the entry after the last block of a model with a final norm.
pub open spec fn normed_entry(model: Model, k: int) -> bool {
    k == model.layers@.len() && model.final_norm is Some
}

/// Root the log records at index `k`: the input of layer `k`, or, at index
/// `num_layers` of a model with a final norm, the output after that norm;
/// padded to `seq_len` rows.
pub open spec fn recorded_root(model: Model, prompt: Seq<u32>, ctx: LayerContext, k: int) -> Seq<u8> {
    if normed_entry(model, k) {
        let h = model.dims.hidden as int;
        let y = run_layers(model.layers@, ctx, embed_spec(model.embed@, prompt, h), prompt.len() as int, h, k)->Ok_0;
        let z = norm_rows_spec(model.final_norm->0, y, h);
        merkle_root_spec(act_leaves(pad_spec(z, model.dims.seq_len * h), model_layout(model)))
    } else {
        stack_root(model, prompt, ctx, k)
    }
}

/// The prompt's embedding rows, zero-padded to `seq` rows, or the first
/// out-of-vocabulary token.
fn embed_padded(embed: &[i8], vocab: u32, hidden: u32, prompt: &[Token], seq: usize) -> (r: Result<Vec<i8>, Token>)
    requires
        embed@.len() == vocab * hidden,
        hidden > 0,
        prompt@.len() <= seq,
        seq * hidden <= usize::MAX,
    ensures
        match bad_token(prompt@, vocab, prompt@.len() as int) {
            Some(t) => r == Err::<Vec<i8>, Token>(t),
            None => r is Ok && r->Ok_0@ == pad_spec(embed_spec(embed@, prompt@, hidden as int), seq * hidden),
        },
{
    let hu = hidden as usize;
    let mu = prompt.len();
    let elen = embed.len();
    proof {
        assert(mu * hu <= seq * hu) by (nonlinear_arith) requires mu <= seq {}
    }
    let full = seq * hu;
    let ghost emb = embed_spec(embed@, prompt@, hidden as int);
    let mut x: Vec<i8> = vec![0i8; full];
    let mut i: usize = 0;
    while i < mu
        invariant
            i <= mu,
            mu == prompt@.len(),
            hu == hidden,
            hu > 0,
            elen == embed@.len(),
            embed@.len() == vocab * hidden,
            full == seq * hu,
            mu * hu <= full,
            x@.len() == full,
            emb == embed_spec(embed@, prompt@, hidden as int),
            bad_token(prompt@, vocab, i as int) is None,
            forall|e: int| 0 <= e < i * hu ==> x@[e] == emb[e],
            forall|e: int| i * hu <= e < full ==> x@[e] == 0,
        decreases mu - i,
    {
        let tok = prompt[i];
        if tok >= vocab {
            proof {
                assert(bad_token(prompt@, vocab, (i + 1) as int) == Some(tok));
                lemma_bad_token_prefix(prompt@, vocab, (i + 1) as int, prompt@.len() as int);
            }
            return Err(tok);
        }
        proof {
            assert((tok + 1) * hu <= vocab * hidden) by (nonlinear_arith)
                requires tok < vocab, hu == hidden {}
            assert(tok * hu <= (tok + 1) * hu) by (nonlinear_arith) {}
            assert(tok * hu + hu == (tok + 1) * hu) by (nonlinear_arith) {}
            assert((i + 1) * hu <= mu * hu) by (nonlinear_arith) requires i < mu {}
            assert(i * hu + hu == (i + 1) * hu) by (nonlinear_arith) {}
        }
        let src = (tok as usize) * hu;
        let dst = i * hu;
        let mut c: usize = 0;
        while c < hu
            invariant
                c <= hu,
                hu > 0,
                src == tok * hu,
                dst == i * hu,
                i < mu,
                src + hu <= elen,
                elen == embed@.len(),
                dst + hu <= full,
                x@.len() == full,
                emb == embed_spec(embed@, prompt@, hidden as int),
                prompt@[i as int] == tok,
                mu == prompt@.len(),
                hu == hidden,
                forall|e: int| 0 <= e < dst + c ==> x@[e] == emb[e],
                forall|e: int| dst + c <= e < full ==> x@[e] == 0,
            decreases hu - c,
        {
            proof {
                crate::matmul_int8::lemma_row_major_index(i as int, c as int, hu as int, mu as int);
            }
            x.set(dst + c, embed[src + c]);
            c = c + 1;
        }
        proof {
            assert((i + 1) * hu == i * hu + hu) by (nonlinear_arith) {}
        }
        i = i + 1;
    }
    proof {
        assert(x@ =~= pad_spec(emb, full as int));
    }
    Ok(x)
}

proof fn lemma_bad_token_prefix(prompt: Seq<u32>, vocab: u32, i: int, n: int)
    requires
        0 <= i <= n,
        bad_token(prompt, vocab, i) is Some,
    ensures
        bad_token(prompt, vocab, n) == bad_token(prompt, vocab, i),
    decreases n - i,
{
    if n > i {
        lemma_bad_token_prefix(prompt, vocab, i, n - 1);
    }
}

/// Once a block fails, every longer prefix of the stack fails the same way.
proof fn lemma_run_layers_err(layers: Seq<crate::layer::LayerWeights>, ctx: LayerContext, x: Seq<i8>, m: int, hidden: int, k: int, j: int)
    requires
        0 <= k <= j,
        run_layers(layers, ctx, x, m, hidden, k) is Err,
    ensures
        run_layers(layers, ctx, x, m, hidden, j) == run_layers(layers, ctx, x, m, hidden, k),
    decreases j - k,
{
    if j > k {
        lemma_run_layers_err(layers, ctx, x, m, hidden, k, j - 1);
        reveal_with_fuel(run_layers, 1);
    }
}

/// The first `n` entries of `x`.
fn prefix_copy(x: &[i8], n: usize) -> (r: Vec<i8>)
    requires
        n <= x@.len(),
    ensures
        r@ == x@.subrange(0, n as int),
{
    let mut v: Vec<i8> = Vec::new();
    let mut j: usize = 0;
    while j < n
        invariant
            j <= n,
            n <= x@.len(),
            v@ == x@.subrange(0, j as int),
        decreases n - j,
    {
        v.push(x[j]);
        j = j + 1;
    }
    v
}

/// `x` zero-padded to `n` entries.
fn pad_exec(x: &[i8], n: usize) -> (r: Vec<i8>)
    requires
        x@.len() <= n,
    ensures
        r@ == pad_spec(x@, n as int),
{
    let mut padded: Vec<i8> = vec![0i8; n];
    let xl = x.len();
    let mut j: usize = 0;
    while j < xl
        invariant
            j <= xl,
            xl == x@.len(),
            xl <= n,
            padded@.len() == n,
            forall|e: int| 0 <= e < j ==> padded@[e] == x@[e],
            forall|e: int| j <= e < n ==> padded@[e] == 0,
        decreases xl - j,
    {
        padded.set(j, x[j]);
        j = j + 1;
    }
    assert(padded@ =~= pad_spec(x@, n as int));
    padded
}

/// Run blocks `0 .. target_layer` from the embedded prompt, recording
/// every block output (padded) into `log`; the last one only when
/// `record_last`.
fn run_and_record(
    model: &Model,
    prompt: &[Token],
    target_layer: u32,
    ctx: &LayerContext,
    log: &mut ActivationLog,
    emb: Vec<i8>,
    record_last: bool,
) -> (r: Result<Vec<i8>, ForwardError>)
    requires
        record_last || target_layer > 0,
        target_layer <= model.layers@.len(),
        model.layers@.len() <= u32::MAX,
        model.dims.hidden > 0,
        1 <= prompt@.len() <= model.dims.seq_len,
        2 * (model.dims.seq_len * model.dims.hidden) <= usize::MAX,
        old(log).layout == model_layout(*model),
        old(log).layout.valid(),
        old(log).layer_roots@.len() == 1,
        old(log).layer_roots@[0]@ == stack_root(*model, prompt@, *ctx, 0),
        emb@ == embed_spec(model.embed@, prompt@, model.dims.hidden as int),
        forall|i: int| 0 <= i < model.layers@.len() ==> layer_fits(#[trigger] model.layers@[i], *ctx, prompt@.len() as int),
    ensures
        match run_layers(model.layers@, *ctx, embed_spec(model.embed@, prompt@, model.dims.hidden as int), prompt@.len() as int, model.dims.hidden as int, target_layer as int) {
            Err(e) => r == Err::<Vec<i8>, ForwardError>(ForwardError::Layer(e)),
            Ok(y) => r is Ok && r->Ok_0@ == y,
        },
        r is Ok ==> r->Ok_0@.len() == prompt@.len() * model.dims.hidden,
        r is Ok ==> final(log).layout == old(log).layout
            && final(log).layer_roots@.len() == (if record_last { target_layer + 1 } else { target_layer as int })
            && forall|k: int| 0 <= k < final(log).layer_roots@.len() ==>
                (#[trigger] final(log).layer_roots@[k])@ == stack_root(*model, prompt@, *ctx, k),
{
    let hidden = model.dims.hidden;
    let m = prompt.len() as u32;
    let hu = hidden as usize;
    let mu = prompt.len();
    let seq = model.dims.seq_len as usize;
    proof {
        assert(mu * hu <= seq * hu) by (nonlinear_arith) requires mu <= seq {}
    }
    let full = seq * hu;
    let mh = mu * hu;
    let ghost e0 = emb@;
    assert(e0 == embed_spec(model.embed@, prompt@, model.dims.hidden as int));
    let mut cur = emb;
    let mut k: u32 = 0;
    proof {
        reveal_with_fuel(run_layers, 1);
        assert(run_layers(model.layers@, *ctx, e0, mu as int, hidden as int, 0) == Ok::<Seq<i8>, LayerError>(e0));
    }
    while k < target_layer
        invariant
            k <= target_layer,
            target_layer <= model.layers@.len(),
            model.layers@.len() <= u32::MAX,
            hu == hidden,
            hidden == model.dims.hidden,
            hu > 0,
            m == mu,
            mu == prompt@.len(),
            mh == mu * hu,
            full == seq * hu,
            seq == model.dims.seq_len,
            mh <= full,
            2 * (model.dims.seq_len * model.dims.hidden) <= usize::MAX,
            log.layout == model_layout(*model),
            log.layout.valid(),
            record_last || target_layer > 0,
            log.layer_roots@.len() == (if k == target_layer && !record_last { k as int } else { k + 1 }),
            e0 == embed_spec(model.embed@, prompt@, hidden as int),
            forall|i: int| 0 <= i < model.layers@.len() ==> layer_fits(#[trigger] model.layers@[i], *ctx, prompt@.len() as int),
            run_layers(model.layers@, *ctx, e0, mu as int, hidden as int, k as int) == Ok::<Seq<i8>, LayerError>(cur@),
            cur@.len() == mh,
            forall|q: int| 0 <= q < log.layer_roots@.len() ==> (#[trigger] log.layer_roots@[q])@ == stack_root(*model, prompt@, *ctx, q),
        decreases target_layer - k,
    {
        let layer = &model.layers[k as usize];
        let mut out: Vec<i8> = vec![0i8; mh];
        match forward_layer(cur.as_slice(), layer, ctx, m, out.as_mut_slice()) {
            Err(e) => {
                proof {
                    assert(run_layers(model.layers@, *ctx, e0, mu as int, hidden as int, (k + 1) as int) == Err::<Seq<i8>, LayerError>(e)) by {
                        reveal_with_fuel(run_layers, 1);
                    }
                    lemma_run_layers_err(model.layers@, *ctx, e0, mu as int, hidden as int, (k + 1) as int, target_layer as int);
                }
                return Err(ForwardError::Layer(e));
            },
            Ok(()) => {},
        }
        let ghost roots_before = log.layer_roots@;
        if k + 1 < target_layer || record_last {
            let padded = pad_exec(out.as_slice(), full);
            match log.record_layer(k + 1, padded.as_slice()) {
                Err(e) => {
                    return Err(ForwardError::Activation(e));
                },
                Ok(()) => {},
            }
        }
        cur = out;
        proof {
            assert(run_layers(model.layers@, *ctx, e0, mu as int, hidden as int, (k + 1) as int) == Ok::<Seq<i8>, LayerError>(cur@)) by {
                reveal_with_fuel(run_layers, 1);
            }
            assert forall|q: int| 0 <= q < log.layer_roots@.len() implies (#[trigger] log.layer_roots@[q])@ == stack_root(*model, prompt@, *ctx, q) by {
                if q <= k {
                    assert(log.layer_roots@[q] == roots_before[q]);
                }
            }
        }
        k = k + 1;
    }
    Ok(cur)
}

/// Run `prompt` through the first `target_layer` blocks, recording each
/// layer input into `log`, and return the `(m, hidden)` result.
pub fn forward_prefix(
    model: &Model,
    prompt: &[Token],
    target_layer: u32,
    ctx: &LayerContext,
    log: &mut ActivationLog,
) -> (r: Result<Vec<i8>, ForwardError>)
    requires
        model.layers@.len() <= u32::MAX,
        old(log).layer_roots@.len() <= u32::MAX,
        prompt@.len() <= u32::MAX,
        model.dims.hidden < 0x8000_0000,
        2 * (model.dims.seq_len * model.dims.hidden) <= usize::MAX,
        forall|i: int| 0 <= i < model.layers@.len() ==> layer_fits(#[trigger] model.layers@[i], *ctx, prompt@.len() as int),
    ensures
        forward_check(*model, prompt@, target_layer, *old(log)) is Err
            ==> r == Err::<Vec<i8>, ForwardError>(forward_check(*model, prompt@, target_layer, *old(log))->Err_0)
                && *final(log) == *old(log),
        forward_check(*model, prompt@, target_layer, *old(log)) is Ok ==> match forward_spec(*model, prompt@, target_layer, *ctx) {
            Err(e) => r == Err::<Vec<i8>, ForwardError>(e),
            Ok(y) => r is Ok && r->Ok_0@ == y,
        },
        r is Ok ==> final(log).layout == old(log).layout && final(log).layer_roots@.len() == target_layer + 1
            && forall|k: int| 0 <= k <= target_layer ==> (#[trigger] final(log).layer_roots@[k])@ == recorded_root(*model, prompt@, *ctx, k),
{
    match model.validate() {
        Err(e) => {
            return Err(ForwardError::Model(e));
        },
        Ok(()) => {},
    }
    proof {
        model.lemma_validate_layers();
    }
    if prompt.len() == 0 {
        return Err(ForwardError::EmptyPrompt);
    }
    let m = prompt.len() as u32;
    if m > model.dims.seq_len {
        return Err(ForwardError::PromptTooLong { got: m, max: model.dims.seq_len });
    }
    let num_layers = model.num_layers();
    if target_layer > num_layers {
        return Err(ForwardError::TargetLayerTooLarge { got: target_layer, max: num_layers });
    }
    if log.layout.seq_len != model.dims.seq_len || log.layout.hidden != model.dims.hidden
        || log.layout.tile != model.dims.activation_tile {
        return Err(ForwardError::LogLayoutMismatch);
    }
    if log.num_layers() != 0 {
        return Err(ForwardError::LogAlreadyPopulated);
    }
    let hidden = model.dims.hidden;
    let seq = model.dims.seq_len as usize;
    let x_full = match embed_padded(model.embed.as_slice(), model.dims.vocab, hidden, prompt, seq) {
        Ok(x) => x,
        Err(t) => {
            return Err(ForwardError::TokenOutOfRange(t));
        },
    };
    let ghost emb = embed_spec(model.embed@, prompt@, hidden as int);
    proof {
        reveal_with_fuel(run_layers, 1);
        assert(run_layers(model.layers@, *ctx, emb, prompt@.len() as int, hidden as int, 0) == Ok::<Seq<i8>, LayerError>(emb));
    }
    proof {
        assert(m * hidden <= seq * hidden) by (nonlinear_arith) requires m <= seq {}
    }
    let mh = (m as usize) * (hidden as usize);
    let full = seq * (hidden as usize);
    let emb_v = prefix_copy(x_full.as_slice(), mh);
    assert(emb_v@ =~= emb);
    let norm_last = target_layer == num_layers && match &model.final_norm {
        Some(_) => true,
        None => false,
    };
    assert(norm_last == normed_entry(*model, target_layer as int));
    if norm_last && target_layer == 0 {
        // No blocks: the one entry is the embedding after the final norm.
        match &model.final_norm {
            Some(norm) => {
                let normed = match final_norm(norm, emb_v, m, hidden) {
                    Ok(z) => z,
                    Err(e) => {
                        return Err(e);
                    },
                };
                let padded = pad_exec(normed.as_slice(), full);
                match log.record_layer(0, padded.as_slice()) {
                    Err(e) => {
                        return Err(ForwardError::Activation(e));
                    },
                    Ok(()) => {},
                }
                return Ok(normed);
            },
            None => {
                return Ok(emb_v);
            },
        }
    }
    match log.record_layer(0, x_full.as_slice()) {
        Err(e) => {
            return Err(ForwardError::Activation(e));
        },
        Ok(()) => {},
    }
    let cur = match run_and_record(model, prompt, target_layer, ctx, log, emb_v, !norm_last) {
        Ok(c) => c,
        Err(e) => {
            return Err(e);
        },
    };
    if norm_last {
        match &model.final_norm {
            Some(norm) => {
                let ghost roots_before = log.layer_roots@;
                let normed = match final_norm(norm, cur, m, hidden) {
                    Ok(z) => z,
                    Err(e) => {
                        return Err(e);
                    },
                };
                let padded = pad_exec(normed.as_slice(), full);
                match log.record_layer(target_layer, padded.as_slice()) {
                    Err(e) => {
                        return Err(ForwardError::Activation(e));
                    },
                    Ok(()) => {},
                }
                proof {
                    assert forall|k: int| 0 <= k <= target_layer implies
                        (#[trigger] log.layer_roots@[k])@ == recorded_root(*model, prompt@, *ctx, k) by {
                        if k < target_layer {
                            assert(log.layer_roots@[k] == roots_before[k]);
                        }
                    }
                }
                return Ok(normed);
            },
            None => {},
        }
    }
    Ok(cur)
}

/// The final norm applied to every row of `x`.
fn final_norm(norm: &NormSpec, x: Vec<i8>, m: u32, hidden: u32) -> (r: Result<Vec<i8>, ForwardError>)
    requires
        x@.len() == m * hidden,
        0 < hidden < 0x8000_0000,
        m > 0,
    ensures
        match final_norm_check(*norm, hidden as int) {
            Err(e) => r == Err::<Vec<i8>, ForwardError>(e),
            Ok(_) => r is Ok && r->Ok_0@ == norm_rows_spec(*norm, x@, hidden as int) && r->Ok_0@.len() == x@.len(),
        },
{
    match norm {
        NormSpec::RmsNorm { gamma, .. } => {
            if gamma.len() as u64 != hidden as u64 {
                return Err(ForwardError::Rms(RmsNormError::LenMismatch));
            }
        },
        NormSpec::LayerNorm { gamma, beta, .. } => {
            if gamma.len() as u64 != hidden as u64 || beta.len() as u64 != hidden as u64 {
                return Err(ForwardError::Ln(LayerNormError::LenMismatch));
            }
        },
    }
    let mut normed: Vec<i8> = vec![0i8; x.len()];
    let _ = apply_norm_per_token(norm, x.as_slice(), m, hidden, normed.as_mut_slice());
    Ok(normed)
}

} // verus!
