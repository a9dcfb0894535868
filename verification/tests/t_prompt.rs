use ai_pow_vi::model::Token;
use ai_pow_vi::prompt::synth_prompt;
use ai_pow_vi::prompt::PromptError;

#[test]
fn determinism_same_inputs_same_output() {
    let block = b"block-commitment-bytes";
    let model_id = [42u8; 32];
    let a = synth_prompt(block, &model_id, 16, 1000, &[]).unwrap();
    let b = synth_prompt(block, &model_id, 16, 1000, &[]).unwrap();
    assert_eq!(a, b);
    assert_eq!(a.len(), 16);
}

#[test]
fn different_block_commitment_yields_different_prompt() {
    let model_id = [7u8; 32];
    let a = synth_prompt(b"alpha", &model_id, 32, 5000, &[]).unwrap();
    let b = synth_prompt(b"beta", &model_id, 32, 5000, &[]).unwrap();
    assert_ne!(a, b);
}

#[test]
fn different_model_id_yields_different_prompt() {
    let block = b"same-block";
    let a = synth_prompt(block, &[1u8; 32], 32, 5000, &[]).unwrap();
    let b = synth_prompt(block, &[2u8; 32], 32, 5000, &[]).unwrap();
    assert_ne!(a, b);
}

#[test]
fn reserved_tokens_never_appear() {
    let block = b"reserved-test";
    let model_id = [0u8; 32];
    let reserved: Vec<Token> = (0..50).collect(); // tokens 0..49 reserved.
    let prompt = synth_prompt(block, &model_id, 64, 100, &reserved).unwrap();
    for &t in &prompt {
        assert!(t >= 50, "got reserved token {t}");
        assert!(t < 100, "got out-of-vocab token {t}");
    }
}

#[test]
fn rejects_zero_dims() {
    assert_eq!(
        synth_prompt(b"x", &[0u8; 32], 0, 100, &[]).err(),
        Some(PromptError::ZeroSeqLen),
    );
    assert_eq!(
        synth_prompt(b"x", &[0u8; 32], 1, 0, &[]).err(),
        Some(PromptError::ZeroVocab),
    );
}

#[test]
fn rejects_when_reserved_covers_entire_vocab() {
    let reserved: Vec<Token> = (0..10).collect();
    assert_eq!(
        synth_prompt(b"x", &[0u8; 32], 1, 10, &reserved).err(),
        Some(PromptError::NoAdmissibleToken),
    );
}

#[test]
fn tokens_are_within_vocab() {
    let prompt = synth_prompt(b"vocab-bound", &[0u8; 32], 256, 1024, &[]).unwrap();
    for &t in &prompt {
        assert!(t < 1024);
    }
}

#[test]
fn small_vocab_with_no_reserved_terminates() {
    // vocab=2, no reserved → all draws are admissible. Should produce
    // any seq_len without spinning.
    let p = synth_prompt(b"small", &[0u8; 32], 32, 2, &[]).unwrap();
    assert_eq!(p.len(), 32);
    for &t in &p {
        assert!(t < 2);
    }
}

#[test]
fn high_reserved_density_still_terminates() {
    // vocab=10, reserved=9 of them → only token 9 is admissible. Must
    // produce all-9 prompt without infinite-looping.
    let reserved: Vec<Token> = (0..9).collect();
    let p = synth_prompt(b"dense", &[0u8; 32], 8, 10, &reserved).unwrap();
    for &t in &p {
        assert_eq!(t, 9);
    }
}

#[test]
fn error_messages_match_their_variants() {
    assert_eq!(PromptError::ZeroSeqLen.message(), "seq_len must be > 0");
    assert_eq!(PromptError::ZeroVocab.message(), "vocab_size must be > 0");
    assert_eq!(
        PromptError::NoAdmissibleToken.message(),
        "reserved tokens cover the entire vocabulary; no token is admissible"
    );
}

#[test]
fn shorter_prompt_is_a_prefix_of_longer() {
    // Drawing stops after `seq_len` tokens, so a shorter prompt is the
    // start of a longer one.
    let long = synth_prompt(b"prefix", &[9u8; 32], 40, 777, &[3, 4]).unwrap();
    let short = synth_prompt(b"prefix", &[9u8; 32], 10, 777, &[3, 4]).unwrap();
    assert_eq!(&long[..10], &short[..]);
    for &t in &long {
        assert!(t < 777 && t != 3 && t != 4);
    }
}

#[test]
fn duplicate_reserved_entries_leave_other_tokens_admissible() {
    // Three entries naming two tokens: token 2 is still admissible.
    let p = synth_prompt(b"x", &[0u8; 32], 6, 3, &[0, 0, 1]).unwrap();
    assert_eq!(p, vec![2u32; 6]);
    // Ten copies of token 0 leave tokens 1 to 9.
    let q = synth_prompt(b"y", &[0u8; 32], 20, 10, &[0u32; 10]).unwrap();
    assert!(q.iter().all(|&t| (1..10).contains(&t)));
    // Reserved entries outside the vocabulary do not count.
    let r = synth_prompt(b"z", &[0u8; 32], 4, 3, &[0, 1, 7]).unwrap();
    assert_eq!(r, vec![2u32; 4]);
    assert_eq!(
        synth_prompt(b"z", &[0u8; 32], 4, 3, &[2, 7, 1, 0]).err(),
        Some(PromptError::NoAdmissibleToken),
    );
}
