//! Model layout metadata: family, dimensions and the per-block pattern a
//! verifier dispatches on.
use vstd::prelude::*;
use crate::activation_lut::ActivationKind;

verus! {

/// Model family; selects the forward code path.
#[derive(Debug, Clone, Copy, PartialEq, Eq)]
pub enum ModelFamily {
    Gemma4,
    Qwen36,
    GenericLLM,
}

/// Kind of one block of the layer stack.
#[derive(Debug, Clone, Copy, PartialEq, Eq)]
pub enum BlockKind {
    Attention,
    GatedDeltaNet,
}

#[derive(Debug, Clone, Copy, PartialEq, Eq)]
pub enum NormType {
    /// Root-mean-square norm.
    Rms,
    /// Mean-and-variance LayerNorm.
    Layer,
}

#[derive(Debug, Clone, PartialEq, Eq)]
pub struct ModelLayout {
    /// Canonical model identifier (the model's `comm_W` root).
    pub model_id: [u8; 32],
    pub family: ModelFamily,
    pub hidden: u32,
    pub intermediate: u32,
    pub num_layers: u32,
    pub num_q_heads: u32,
    pub num_kv_heads: u32,
    pub head_dim: u32,
    pub vocab_size: u32,
    /// Sequence length the model registers for.
    pub seq_len: u32,
    pub norm_type: NormType,
    pub activation: ActivationKind,
    pub uses_rope: bool,
    /// One entry per layer.
    pub block_pattern: Vec<BlockKind>,
}

#[derive(Debug, Clone, Copy, PartialEq, Eq)]
pub enum LayoutError {
    BlockPatternLength { got: usize, expected: usize },
    ZeroDim,
}

/// `n` copies of `b`.
fn repeat_block(b: BlockKind, n: usize) -> (r: Vec<BlockKind>)
    ensures
        r@.len() == n,
        forall|i: int| 0 <= i < n ==> r@[i] == b,
{
    let mut v: Vec<BlockKind> = Vec::new();
    let mut i: usize = 0;
    while i < n
        invariant
            i <= n,
            v@.len() == i,
            forall|e: int| 0 <= e < i ==> v@[e] == b,
        decreases n - i,
    {
        v.push(b);
        i = i + 1;
    }
    v
}

impl ModelLayout {
    /// The 60-layer all-attention Gemma layout, with an all-zero model id.
    pub fn gemma_4_31b_uncommitted() -> (r: Self)
        ensures
            r.model_id@ == Seq::new(32, |i: int| 0u8),
            r.family == ModelFamily::Gemma4,
            r.hidden == 5376,
            r.intermediate == 21504,
            r.num_layers == 60,
            r.num_q_heads == 32,
            r.num_kv_heads == 16,
            r.head_dim == 256,
            r.vocab_size == 256_000,
            r.seq_len == 4096,
            r.norm_type == NormType::Rms,
            r.activation == ActivationKind::GeLU,
            r.uses_rope,
            r.block_pattern@.len() == 60,
            forall|i: int| 0 <= i < 60 ==> r.block_pattern@[i] == BlockKind::Attention,
    {
        let r = ModelLayout {
            model_id: [0u8; 32],
            family: ModelFamily::Gemma4,
            hidden: 5376,
            intermediate: 21504,
            num_layers: 60,
            num_q_heads: 32,
            num_kv_heads: 16,
            head_dim: 256,
            vocab_size: 256_000,
            seq_len: 4096,
            norm_type: NormType::Rms,
            activation: ActivationKind::GeLU,
            uses_rope: true,
            block_pattern: repeat_block(BlockKind::Attention, 60),
        };
        assert(r.model_id@ =~= Seq::new(32, |i: int| 0u8));
        r
    }

    /// The 64-layer Qwen layout: 16 repeats of three DeltaNet blocks and
    /// one attention block, with an all-zero model id.
    pub fn qwen_3_6_27b_uncommitted() -> (r: Self)
        ensures
            r.model_id@ == Seq::new(32, |i: int| 0u8),
            r.family == ModelFamily::Qwen36,
            r.hidden == 5120,
            r.intermediate == 17408,
            r.num_layers == 64,
            r.num_q_heads == 24,
            r.num_kv_heads == 4,
            r.head_dim == 256,
            r.vocab_size == 248_320,
            r.seq_len == 4096,
            r.norm_type == NormType::Rms,
            r.activation == ActivationKind::SiLU,
            r.uses_rope,
            r.block_pattern@.len() == 64,
            forall|i: int| 0 <= i < 64 ==> r.block_pattern@[i] == (if i % 4 == 3 { BlockKind::Attention } else { BlockKind::GatedDeltaNet }),
    {
        let mut block_pattern: Vec<BlockKind> = Vec::new();
        let mut k: usize = 0;
        while k < 16
            invariant
                k <= 16,
                block_pattern@.len() == 4 * k,
                forall|i: int| 0 <= i < 4 * k ==> block_pattern@[i] == (if i % 4 == 3 { BlockKind::Attention } else { BlockKind::GatedDeltaNet }),
            decreases 16 - k,
        {
            block_pattern.push(BlockKind::GatedDeltaNet);
            block_pattern.push(BlockKind::GatedDeltaNet);
            block_pattern.push(BlockKind::GatedDeltaNet);
            block_pattern.push(BlockKind::Attention);
            k = k + 1;
        }
        let r = ModelLayout {
            model_id: [0u8; 32],
            family: ModelFamily::Qwen36,
            hidden: 5120,
            intermediate: 17408,
            num_layers: 64,
            num_q_heads: 24,
            num_kv_heads: 4,
            head_dim: 256,
            vocab_size: 248_320,
            seq_len: 4096,
            norm_type: NormType::Rms,
            activation: ActivationKind::SiLU,
            uses_rope: true,
            block_pattern,
        };
        assert(r.model_id@ =~= Seq::new(32, |i: int| 0u8));
        r
    }

    /// The pattern length must equal the layer count and the dimensions
    /// must be non-zero.
    pub fn validate(&self) -> (r: Result<(), LayoutError>)
        ensures
            (self.block_pattern@.len() as u32) != self.num_layers ==> r == Err::<(), LayoutError>(
                LayoutError::BlockPatternLength { got: self.block_pattern@.len() as usize, expected: self.num_layers as usize }),
            (self.block_pattern@.len() as u32) == self.num_layers ==> (r == if self.hidden == 0 || self.intermediate == 0
                || self.num_q_heads == 0 || self.num_kv_heads == 0 || self.head_dim == 0 {
                Err::<(), LayoutError>(LayoutError::ZeroDim)
            } else {
                Ok::<(), LayoutError>(())
            }),
    {
        if self.block_pattern.len() as u32 != self.num_layers {
            return Err(LayoutError::BlockPatternLength { got: self.block_pattern.len(), expected: self.num_layers as usize });
        }
        if self.hidden == 0 || self.intermediate == 0 {
            return Err(LayoutError::ZeroDim);
        }
        if self.num_q_heads == 0 || self.num_kv_heads == 0 || self.head_dim == 0 {
            return Err(LayoutError::ZeroDim);
        }
        Ok(())
    }
}

} // verus!
