//! The E5 model family.
use vstd::prelude::*;
use crate::knowledge::embedding::backend::prng::{spec_text_seed, text_seed, xorshift_sequence, xorshift_states};
use crate::text::{owned, push_str};
use vstd::string::StringSliceAdditionalSpecFns;
use vstd::utf8::encode_utf8;

verus! {

/// Sizes of the E5 model.
#[derive(Debug, Clone, Copy, PartialEq, Eq)]
pub enum E5Variant {
    /// 384-dimensional embeddings.
    Small,
    /// 768-dimensional embeddings.
    Base,
}

/// The text E5 embeds for `text`: queries and passages are prefixed differently.
pub open spec fn e5_input(text: Seq<char>, is_query: bool) -> Seq<char> {
    if is_query {
        "query: "@ + text
    } else {
        "passage: "@ + text
    }
}

impl E5Variant {
    /// Number of components of an embedding.
    pub open spec fn spec_dimension(self) -> usize {
        match self {
            E5Variant::Small => 384,
            E5Variant::Base => 768,
        }
    }

    /// Number of components of an embedding.
    pub fn dimension(&self) -> (r: usize)
        ensures
            r == self.spec_dimension(),
    {
        match self {
            E5Variant::Small => 384,
            E5Variant::Base => 768,
        }
    }

    /// The model's name.
    pub fn model_name(&self) -> (r: &'static str)
        ensures
            r@ == (match self {
                E5Variant::Small => "e5-small"@,
                E5Variant::Base => "e5-base"@,
            }),
    {
        match self {
            E5Variant::Small => "e5-small",
            E5Variant::Base => "e5-base",
        }
    }

    /// The prefixed text that is hashed for `text`.
    pub fn prefixed(text: &str, is_query: bool) -> (r: String)
        ensures
            r@ == e5_input(text@, is_query),
    {
        let mut r = if is_query {
            owned("query: ")
        } else {
            owned("passage: ")
        };
        push_str(&mut r, text);
        r
    }

    /// The generator states from which the embedding of `text` is made, one per
    /// component: the xorshift sequence started at the seed of the prefixed text.
    pub fn embedding_states(&self, text: &str, is_query: bool) -> (r: Vec<u64>)
        ensures
            r@ == xorshift_states(
                spec_text_seed(encode_utf8(e5_input(text@, is_query))),
                self.spec_dimension() as nat,
            ),
    {
        let p = Self::prefixed(text, is_query);
        let seed = text_seed(p.as_str());
        xorshift_sequence(seed, self.dimension())
    }
}

} // verus!
