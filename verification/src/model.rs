//! The model: dimensions, embedding table, layer stack, optional final
//! norm, and the shared tables and LUTs.
use vstd::prelude::*;
use crate::activation_lut::ActivationLut;
use crate::layer::{layer_hidden, LayerWeights, NormSpec};
use crate::rope::RopeTables;
use crate::softmax::ExpLut;
use crate::matmul_int8::mul_u32;

verus! {

/// Token id.
pub type Token = u32;

/// Architecture label committed in the manifest.
pub type ArchTag = [u8; 16];

/// Feature bits committed in the manifest.
pub type FeatureFlags = u64;

/// Static shape of a model.
#[derive(Debug, Clone, Copy, PartialEq, Eq)]
pub struct ModelDims {
    pub vocab: u32,
    pub hidden: u32,
    pub seq_len: u32,
    pub activation_tile: u32,
}

/// Weights, tables and LUTs of one model.
#[derive(Debug, Clone)]
pub struct Model {
    pub dims: ModelDims,
    /// Architecture label; two lineages with equal dims commit differently.
    pub arch_tag: ArchTag,
    pub feature_flags: FeatureFlags,
    /// `(vocab, hidden)` row-major.
    pub embed: Vec<i8>,
    pub layers: Vec<LayerWeights>,
    /// Applied after the last layer when a forward runs the whole stack.
    pub final_norm: Option<NormSpec>,
    pub rope_tables: RopeTables,
    pub softmax_lut: ExpLut,
    pub sigmoid_lut: ActivationLut,
    pub ffn_activation: ActivationLut,
}

#[derive(Debug, Clone, Copy, PartialEq, Eq)]
pub enum ModelError {
    ZeroDim,
    BadEmbedLen,
    SeqLenNotMultipleOfTile { seq_len: u32, tile: u32 },
    HiddenNotMultipleOfTile { hidden: u32, tile: u32 },
    LayerHiddenMismatch { layer_idx: u32, expected: u32, got: u32 },
}

/// The checks of `validate` that do not look at the layers.
pub open spec fn dims_check(d: ModelDims, embed_len: int) -> Result<(), ModelError> {
    if d.vocab == 0 || d.hidden == 0 || d.seq_len == 0 || d.activation_tile == 0 {
        Err(ModelError::ZeroDim)
    } else if embed_len != d.vocab * d.hidden {
        Err(ModelError::BadEmbedLen)
    } else if d.seq_len % d.activation_tile != 0 {
        Err(ModelError::SeqLenNotMultipleOfTile { seq_len: d.seq_len, tile: d.activation_tile })
    } else if d.hidden % d.activation_tile != 0 {
        Err(ModelError::HiddenNotMultipleOfTile { hidden: d.hidden, tile: d.activation_tile })
    } else {
        Ok(())
    }
}

/// The first of the first `n` layers whose width is not `hidden`.
pub open spec fn first_mismatch(layers: Seq<LayerWeights>, hidden: u32, n: int) -> Option<int>
    decreases n,
{
    if n <= 0 {
        None
    } else {
        match first_mismatch(layers, hidden, n - 1) {
            Some(j) => Some(j),
            None => if layer_hidden(layers[n - 1]) != hidden { Some(n - 1) } else { None },
        }
    }
}

proof fn lemma_first_mismatch_stable(layers: Seq<LayerWeights>, hidden: u32, i: int, n: int)
    requires
        0 <= i <= n,
        first_mismatch(layers, hidden, i) is Some,
    ensures
        first_mismatch(layers, hidden, n) == first_mismatch(layers, hidden, i),
    decreases n - i,
{
    if i < n {
        lemma_first_mismatch_stable(layers, hidden, i, n - 1);
    }
}

impl Model {
    /// What `validate` returns: the dimension checks in order, then the
    /// first layer whose width differs from the model's.
    pub open spec fn validate_spec(&self) -> Result<(), ModelError> {
        if dims_check(self.dims, self.embed@.len() as int) is Err {
            dims_check(self.dims, self.embed@.len() as int)
        } else {
            match first_mismatch(self.layers@, self.dims.hidden, self.layers@.len() as int) {
                Some(j) => Err(ModelError::LayerHiddenMismatch {
                    layer_idx: j as u32,
                    expected: self.dims.hidden,
                    got: layer_hidden(self.layers@[j]) as u32,
                }),
                None => Ok(()),
            }
        }
    }

    /// No layer differs in width exactly when every layer matches.
    pub proof fn lemma_validate_layers(&self)
        ensures
            first_mismatch(self.layers@, self.dims.hidden, self.layers@.len() as int) is None <==> self.layers_match(),
    {
        self.lemma_first_mismatch_none(self.layers@.len() as int);
        if first_mismatch(self.layers@, self.dims.hidden, self.layers@.len() as int) is Some {
            let j = first_mismatch(self.layers@, self.dims.hidden, self.layers@.len() as int)->0;
            self.lemma_first_mismatch_is(self.layers@.len() as int);
            assert(layer_hidden(self.layers@[j]) != self.dims.hidden);
        }
    }

    proof fn lemma_first_mismatch_none(&self, n: int)
        requires
            0 <= n <= self.layers@.len(),
        ensures
            first_mismatch(self.layers@, self.dims.hidden, n) is None
                <==> forall|j: int| 0 <= j < n ==> layer_hidden(#[trigger] self.layers@[j]) == self.dims.hidden,
        decreases n,
    {
        if n > 0 {
            self.lemma_first_mismatch_none(n - 1);
            self.lemma_first_mismatch_is(n - 1);
        }
    }

    proof fn lemma_first_mismatch_is(&self, n: int)
        requires
            0 <= n <= self.layers@.len(),
        ensures
            first_mismatch(self.layers@, self.dims.hidden, n) matches Some(j)
                ==> 0 <= j < n && layer_hidden(self.layers@[j]) != self.dims.hidden,
        decreases n,
    {
        if n > 0 {
            self.lemma_first_mismatch_is(n - 1);
        }
    }

    /// Every layer works at the model's hidden width.
    pub open spec fn layers_match(&self) -> bool {
        forall|j: int| 0 <= j < self.layers@.len() ==> layer_hidden(#[trigger] self.layers@[j]) == self.dims.hidden
    }

    /// Check the cross-field invariants; a layer mismatch reports the first
    /// offending layer.
    pub fn validate(&self) -> (r: Result<(), ModelError>)
        requires
            self.layers@.len() <= u32::MAX,
        ensures
            r == self.validate_spec(),
    {
        let d = self.dims;
        if d.vocab == 0 || d.hidden == 0 || d.seq_len == 0 || d.activation_tile == 0 {
            return Err(ModelError::ZeroDim);
        }
        if self.embed.len() as u64 != mul_u32(d.vocab, d.hidden) {
            return Err(ModelError::BadEmbedLen);
        }
        if d.seq_len % d.activation_tile != 0 {
            return Err(ModelError::SeqLenNotMultipleOfTile { seq_len: d.seq_len, tile: d.activation_tile });
        }
        if d.hidden % d.activation_tile != 0 {
            return Err(ModelError::HiddenNotMultipleOfTile { hidden: d.hidden, tile: d.activation_tile });
        }
        let n = self.layers.len();
        let mut i: usize = 0;
        while i < n
            invariant
                i <= n,
                n == self.layers@.len(),
                n <= u32::MAX,
                d == self.dims,
                dims_check(self.dims, self.embed@.len() as int) is Ok,
                first_mismatch(self.layers@, self.dims.hidden, i as int) is None,
            decreases n - i,
        {
            let lh = match &self.layers[i] {
                LayerWeights::Attention { attn, .. } => attn.hidden,
                LayerWeights::DeltaNet { dnet, .. } => dnet.hidden,
                LayerWeights::QwenStandard { attn, .. } => attn.hidden,
                LayerWeights::QwenHybridSsm { ffn, .. } => ffn.hidden,
                LayerWeights::Gemma { attn, .. } => attn.hidden,
            };
            assert(layer_hidden(self.layers@[i as int]) == lh);
            if lh != d.hidden {
                proof {
                    assert(first_mismatch(self.layers@, self.dims.hidden, i + 1) == Some(i as int));
                    lemma_first_mismatch_stable(self.layers@, self.dims.hidden, i + 1, n as int);
                }
                return Err(ModelError::LayerHiddenMismatch { layer_idx: i as u32, expected: d.hidden, got: lh });
            }
            i = i + 1;
        }
        Ok(())
    }

    /// Number of layers.
    pub fn num_layers(&self) -> (r: u32)
        ensures
            r == self.layers@.len() as u32,
    {
        self.layers.len() as u32
    }
}

} // verus!
