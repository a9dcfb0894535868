//! The puzzle's synthetic prompt: a deterministic token stream drawn from
//! BLAKE3's key-derivation output for the block commitment and the model
//! id. Each draw reads four bytes as a little-endian `u32`, reduces it
//! modulo the vocabulary size and keeps it unless it is a reserved token;
//! drawing stops after `seq_len` tokens.
use vstd::prelude::*;
use crate::bytes::{le_val, read_u32};
use crate::hashing::{blake3_derive_key_xof, derive_key_xof};
use crate::model::Token;

verus! {

/// Why no prompt was produced.
#[derive(Debug, Clone, Copy, PartialEq, Eq, Structural)]
pub enum PromptError {
    ZeroSeqLen,
    ZeroVocab,
    NoAdmissibleToken,
}

impl PromptError {
    /// The error's message.
    pub fn message(&self) -> (r: String)
        ensures
            r@ == (match self {
                PromptError::ZeroSeqLen => "seq_len must be > 0"@,
                PromptError::ZeroVocab => "vocab_size must be > 0"@,
                PromptError::NoAdmissibleToken => "reserved tokens cover the entire vocabulary; no token is admissible"@,
            }),
    {
        match self {
            PromptError::ZeroSeqLen => String::from_str("seq_len must be > 0"),
            PromptError::ZeroVocab => String::from_str("vocab_size must be > 0"),
            PromptError::NoAdmissibleToken =>
                String::from_str("reserved tokens cover the entire vocabulary; no token is admissible"),
        }
    }
}

/// Number of four-byte draws that the key-derivation stream holds: it ends
/// after `2^64 - 1` bytes.
pub const PROMPT_MAX_DRAWS: u64 = 0x3fff_ffff_ffff_ffff;

/// Draw `i`: bytes `4i .. 4i + 4` of the prompt stream for `material`, read
/// as a little-endian `u32`.
pub open spec fn prompt_word(material: Seq<u8>, i: nat) -> nat {
    le_val(Seq::new(4, |j: int| blake3_derive_key_xof("ai-pow-vi v1 prompt"@, material, 4 * i + j as nat)))
}

/// The tokens kept from the first `n` draws, in order.
pub open spec fn drawn(material: Seq<u8>, vocab: u32, reserved: Seq<Token>, n: nat) -> Seq<Token>
    decreases n,
{
    if n == 0 {
        Seq::<Token>::empty()
    } else {
        let prev = drawn(material, vocab, reserved, (n - 1) as nat);
        let tok = (prompt_word(material, (n - 1) as nat) % (vocab as nat)) as Token;
        if reserved.contains(tok) { prev } else { prev.push(tok) }
    }
}

/// Every token below the vocabulary size is reserved.
pub open spec fn all_reserved(vocab: u32, reserved: Seq<Token>) -> bool {
    forall|t: Token| t < vocab ==> reserved.contains(t)
}

/// What `synth_prompt` returns: the argument checks in order (no admissible
/// token when the reserved tokens cover the whole vocabulary), then the
/// first `seq_len` tokens kept from the stream, or `NoAdmissibleToken` where
/// the whole stream holds fewer.
pub open spec fn prompt_spec(material: Seq<u8>, seq_len: u32, vocab: u32, reserved: Seq<Token>) -> Result<Seq<Token>, PromptError> {
    if seq_len == 0 {
        Err(PromptError::ZeroSeqLen)
    } else if vocab == 0 {
        Err(PromptError::ZeroVocab)
    } else if all_reserved(vocab, reserved) {
        Err(PromptError::NoAdmissibleToken)
    } else if drawn(material, vocab, reserved, PROMPT_MAX_DRAWS as nat).len() >= seq_len {
        Ok(drawn(material, vocab, reserved, PROMPT_MAX_DRAWS as nat).take(seq_len as int))
    } else {
        Err(PromptError::NoAdmissibleToken)
    }
}

proof fn lemma_drawn_prefix(material: Seq<u8>, vocab: u32, reserved: Seq<Token>, d: nat, e: nat)
    requires
        d <= e,
    ensures
        drawn(material, vocab, reserved, d).len() <= drawn(material, vocab, reserved, e).len(),
        drawn(material, vocab, reserved, e).take(drawn(material, vocab, reserved, d).len() as int)
            == drawn(material, vocab, reserved, d),
    decreases e - d,
{
    if d < e {
        lemma_drawn_prefix(material, vocab, reserved, d, (e - 1) as nat);
        let a = drawn(material, vocab, reserved, d);
        let b = drawn(material, vocab, reserved, (e - 1) as nat);
        let c = drawn(material, vocab, reserved, e);
        assert(c.take(a.len() as int) =~= b.take(a.len() as int));
    } else {
        let a = drawn(material, vocab, reserved, d);
        assert(a.take(a.len() as int) =~= a);
    }
}

proof fn lemma_drawn_admissible(material: Seq<u8>, vocab: u32, reserved: Seq<Token>, n: nat)
    requires
        vocab > 0,
    ensures
        forall|i: int| 0 <= i < drawn(material, vocab, reserved, n).len() ==>
            (#[trigger] drawn(material, vocab, reserved, n)[i]) < vocab
                && !reserved.contains(drawn(material, vocab, reserved, n)[i]),
    decreases n,
{
    if n > 0 {
        lemma_drawn_admissible(material, vocab, reserved, (n - 1) as nat);
        let prev = drawn(material, vocab, reserved, (n - 1) as nat);
        let w = prompt_word(material, (n - 1) as nat) % (vocab as nat);
        assert(w < vocab);
        let tok = w as Token;
        assert(tok == w);
        let cur = drawn(material, vocab, reserved, n);
        assert forall|i: int| 0 <= i < cur.len() implies (#[trigger] cur[i]) < vocab && !reserved.contains(cur[i]) by {
            if i < prev.len() {
                assert(cur[i] == prev[i]);
            }
        }
    }
}

/// Every token of a prompt is below the vocabulary size and is not a
/// reserved token.
pub proof fn lemma_prompt_tokens_admissible(material: Seq<u8>, seq_len: u32, vocab: u32, reserved: Seq<Token>)
    requires
        prompt_spec(material, seq_len, vocab, reserved) is Ok,
    ensures
        forall|i: int| 0 <= i < prompt_spec(material, seq_len, vocab, reserved)->Ok_0.len() ==>
            (#[trigger] prompt_spec(material, seq_len, vocab, reserved)->Ok_0[i]) < vocab
                && !reserved.contains(prompt_spec(material, seq_len, vocab, reserved)->Ok_0[i]),
        prompt_spec(material, seq_len, vocab, reserved)->Ok_0.len() == seq_len,
{
    lemma_drawn_admissible(material, vocab, reserved, PROMPT_MAX_DRAWS as nat);
}

/// Drawing stops after `seq_len` tokens: where a longer prompt exists, a
/// shorter one over the same stream is its start.
pub proof fn lemma_prompt_prefix(material: Seq<u8>, short: u32, long: u32, vocab: u32, reserved: Seq<Token>)
    requires
        0 < short <= long,
        prompt_spec(material, long, vocab, reserved) is Ok,
    ensures
        prompt_spec(material, short, vocab, reserved) is Ok,
        prompt_spec(material, short, vocab, reserved)->Ok_0
            == prompt_spec(material, long, vocab, reserved)->Ok_0.take(short as int),
{
    let d = drawn(material, vocab, reserved, PROMPT_MAX_DRAWS as nat);
    assert(d.take(long as int).take(short as int) =~= d.take(short as int));
}

fn contains_token(reserved: &[Token], tok: Token) -> (r: bool)
    ensures
        r == reserved@.contains(tok),
{
    let mut i: usize = 0;
    while i < reserved.len()
        invariant
            i <= reserved@.len(),
            forall|j: int| 0 <= j < i ==> reserved@[j] != tok,
        decreases reserved@.len() - i,
    {
        if reserved[i] == tok {
            return true;
        }
        i = i + 1;
    }
    false
}

/// Whether some token below `vocab` is not reserved. The search stops at the
/// first such token, which lies at most `reserved.len()` past zero.
fn has_admissible(vocab: u32, reserved: &[Token]) -> (r: bool)
    ensures
        r == !all_reserved(vocab, reserved@),
{
    let mut t: u32 = 0;
    while t < vocab
        invariant
            t <= vocab,
            forall|u: Token| u < t ==> reserved@.contains(u),
        decreases vocab - t,
    {
        if !contains_token(reserved, t) {
            return true;
        }
        t = t + 1;
    }
    false
}

/// A deterministic prompt of `seq_len` tokens for the puzzle, drawn from
/// the key-derivation stream of `block_commitment` followed by `model_id`,
/// with every token below `vocab_size` and none in `reserved_tokens`.
pub fn synth_prompt(
    block_commitment: &[u8],
    model_id: &[u8; 32],
    seq_len: u32,
    vocab_size: u32,
    reserved_tokens: &[Token],
) -> (r: Result<Vec<Token>, PromptError>)
    ensures
        match prompt_spec(block_commitment@ + model_id@, seq_len, vocab_size, reserved_tokens@) {
            Ok(v) => r matches Ok(out) && out@ == v,
            Err(e) => r == Err::<Vec<Token>, PromptError>(e),
        },
{
    if seq_len == 0 {
        return Err(PromptError::ZeroSeqLen);
    }
    if vocab_size == 0 {
        return Err(PromptError::ZeroVocab);
    }
    if !has_admissible(vocab_size, reserved_tokens) {
        return Err(PromptError::NoAdmissibleToken);
    }
    let ghost material = block_commitment@ + model_id@;
    let ghost reserved = reserved_tokens@;
    let mut out: Vec<Token> = Vec::new();
    let mut draws: u64 = 0;
    while out.len() < seq_len as usize && draws < PROMPT_MAX_DRAWS
        invariant
            material == block_commitment@ + model_id@,
            reserved == reserved_tokens@,
            vocab_size > 0,
            draws <= PROMPT_MAX_DRAWS,
            out.len() <= seq_len,
            out@ == drawn(material, vocab_size, reserved, draws as nat),
        decreases PROMPT_MAX_DRAWS - draws,
    {
        let buf = derive_key_xof("ai-pow-vi v1 prompt", block_commitment, model_id.as_slice(), draws * 4, 4);
        let raw = read_u32(buf.as_slice(), 0);
        proof {
            assert(buf@.subrange(0, 4) =~= Seq::new(4, |j: int|
                blake3_derive_key_xof("ai-pow-vi v1 prompt"@, material, 4 * (draws as nat) + j as nat)));
        }
        let tok = raw % vocab_size;
        if !contains_token(reserved_tokens, tok) {
            out.push(tok);
        }
        draws = draws + 1;
    }
    proof {
        lemma_drawn_prefix(material, vocab_size, reserved, draws as nat, PROMPT_MAX_DRAWS as nat);
    }
    if out.len() < seq_len as usize {
        return Err(PromptError::NoAdmissibleToken);
    }
    Ok(out)
}

} // verus!
