use ai_pow_vi::activation_lut::ActivationKind;
use ai_pow_vi::layout::BlockKind;
use ai_pow_vi::layout::LayoutError;
use ai_pow_vi::layout::ModelLayout;
#[test]
fn gemma_layout_validates() {
    let l = ModelLayout::gemma_4_31b_uncommitted();
    l.validate().unwrap();
    assert_eq!(l.block_pattern.len(), 60);
    assert!(l.block_pattern.iter().all(|b| *b == BlockKind::Attention));
}

#[test]
fn qwen_layout_validates() {
    let l = ModelLayout::qwen_3_6_27b_uncommitted();
    l.validate().unwrap();
    assert_eq!(l.block_pattern.len(), 64);
    // Every 4th block is Attention; rest are DeltaNet.
    for (i, b) in l.block_pattern.iter().enumerate() {
        let expected = if (i + 1) % 4 == 0 {
            BlockKind::Attention
        } else {
            BlockKind::GatedDeltaNet
        };
        assert_eq!(*b, expected, "block {i}");
    }
}

#[test]
fn rejects_block_pattern_length_mismatch() {
    let mut l = ModelLayout::gemma_4_31b_uncommitted();
    l.num_layers = 59;
    assert_eq!(
        l.validate().err(),
        Some(LayoutError::BlockPatternLength {
            got: 60,
            expected: 59,
        }),
    );
}

#[test]
fn rejects_zero_dim() {
    let mut l = ModelLayout::gemma_4_31b_uncommitted();
    l.hidden = 0;
    assert_eq!(l.validate().err(), Some(LayoutError::ZeroDim));
}
