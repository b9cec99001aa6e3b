//! Kinds of similarity measure, and the dimension check that every measure makes.
use vstd::prelude::*;
use crate::text::{push_decimal, push_str, spec_decimal};

verus! {

/// The kinds of similarity measure.
#[derive(Debug, Clone, Copy, PartialEq, Eq)]
pub enum SimilarityMetricType {
    /// Cosine similarity.
    Cosine,
    /// Dot product without normalization.
    DotProduct,
    /// Euclidean distance turned into a similarity.
    EuclideanDistance,
}

/// The message for two vectors of dimensions `a` and `b` that cannot be compared.
pub open spec fn dimension_mismatch_message(a: nat, b: nat) -> Seq<char> {
    "Dimension mismatch: "@ + spec_decimal(a) + " vs "@ + spec_decimal(b)
}

/// Two vectors can be compared only when their dimensions agree; otherwise the
/// error names both dimensions.
pub fn check_dimensions(a: usize, b: usize) -> (r: Result<(), String>)
    ensures
        r is Ok <==> a == b,
        r matches Err(e) ==> e@ == dimension_mismatch_message(a as nat, b as nat),
{
    if a == b {
        return Ok(());
    }
    let mut msg = String::new();
    push_str(&mut msg, "Dimension mismatch: ");
    push_decimal(&mut msg, a as u64);
    push_str(&mut msg, " vs ");
    push_decimal(&mut msg, b as u64);
    proof {
        assert(msg@ =~= dimension_mismatch_message(a as nat, b as nat));
    }
    Err(msg)
}

} // verus!
