//! The Nomic model.
use vstd::prelude::*;
use crate::knowledge::embedding::backend::prng::{spec_text_seed, text_seed, xorshift_sequence, xorshift_states};
use vstd::string::StringSliceAdditionalSpecFns;
use vstd::utf8::encode_utf8;

verus! {

/// Number of components of a Nomic embedding.
pub const NOMIC_DIMENSION: usize = 768;

/// The generator states from which the Nomic embedding of `text` is made, one
/// per component: the xorshift sequence started at the text's seed.
pub fn nomic_embedding_states(text: &str) -> (r: Vec<u64>)
    ensures
        r@ == xorshift_states(spec_text_seed(encode_utf8(text@)), NOMIC_DIMENSION as nat),
{
    xorshift_sequence(text_seed(text), NOMIC_DIMENSION)
}

} // verus!
