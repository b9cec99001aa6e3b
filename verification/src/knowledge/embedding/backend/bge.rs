//! The BGE model family.
use vstd::prelude::*;
use crate::knowledge::embedding::backend::prng::{spec_text_seed, text_seed, xorshift_sequence, xorshift_states};
use crate::knowledge::embedding::metrics::wrap_add;
use vstd::string::StringSliceAdditionalSpecFns;
use vstd::utf8::encode_utf8;

verus! {

/// Sizes of the BGE model.
#[derive(Debug, Clone, Copy, PartialEq, Eq)]
pub enum BgeVariant {
    /// 384-dimensional embeddings.
    Small,
    /// 768-dimensional embeddings.
    Base,
}

/// The value added to every BGE seed.
pub const BGE_SEED_OFFSET: u64 = 42;

impl BgeVariant {
    /// Number of components of an embedding.
    pub open spec fn spec_dimension(self) -> usize {
        match self {
            BgeVariant::Small => 384,
            BgeVariant::Base => 768,
        }
    }

    /// Number of components of an embedding.
    pub fn dimension(&self) -> (r: usize)
        ensures
            r == self.spec_dimension(),
    {
        match self {
            BgeVariant::Small => 384,
            BgeVariant::Base => 768,
        }
    }

    /// The model's name.
    pub fn model_name(&self) -> (r: &'static str)
        ensures
            r@ == (match self {
                BgeVariant::Small => "bge-small"@,
                BgeVariant::Base => "bge-base"@,
            }),
    {
        match self {
            BgeVariant::Small => "bge-small",
            BgeVariant::Base => "bge-base",
        }
    }

    /// The generator states from which the embedding of `text` is made, one per
    /// component: the xorshift sequence started at the text's seed plus
    /// [`BGE_SEED_OFFSET`] (wrapping).
    pub fn embedding_states(&self, text: &str) -> (r: Vec<u64>)
        ensures
            r@ == xorshift_states(wrap_add(spec_text_seed(encode_utf8(text@)), BGE_SEED_OFFSET), self.spec_dimension() as nat),
    {
        let seed = text_seed(text).wrapping_add(BGE_SEED_OFFSET);
        xorshift_sequence(seed, self.dimension())
    }
}

} // verus!
