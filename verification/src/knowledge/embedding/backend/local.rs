//! The local hash model.
use vstd::prelude::*;
use crate::knowledge::hash::{blake3_digest, blake3_digest_of};
use vstd::string::StringSliceAdditionalSpecFns;
use vstd::utf8::encode_utf8;

verus! {

/// Smallest dimension of the local hash model.
pub const MIN_LOCAL_DIMENSION: usize = 64;

/// Largest dimension of the local hash model.
pub const MAX_LOCAL_DIMENSION: usize = 4096;

/// Default dimension of the local hash model.
pub const DEFAULT_LOCAL_DIMENSION: usize = 256;

/// The dimension actually used for a requested one: clamped into
/// [`MIN_LOCAL_DIMENSION`, `MAX_LOCAL_DIMENSION`].
pub fn clamp_dimension(dimension: usize) -> (r: usize)
    ensures
        r == (if dimension < MIN_LOCAL_DIMENSION {
            MIN_LOCAL_DIMENSION
        } else if dimension > MAX_LOCAL_DIMENSION {
            MAX_LOCAL_DIMENSION
        } else {
            dimension
        }),
{
    if dimension < MIN_LOCAL_DIMENSION {
        MIN_LOCAL_DIMENSION
    } else if dimension > MAX_LOCAL_DIMENSION {
        MAX_LOCAL_DIMENSION
    } else {
        dimension
    }
}

/// The digest bytes from which the local embedding of `text` is made, one per
/// component: component `i` takes byte `8 i mod 32` of the text's BLAKE3 digest.
pub fn local_hash_bytes(text: &str, dimension: usize) -> (r: Vec<u8>)
    requires
        dimension <= MAX_LOCAL_DIMENSION,
    ensures
        r@.len() == dimension,
        forall|i: int| 0 <= i < dimension ==> #[trigger] r@[i] == blake3_digest_of(encode_utf8(text@))[(i * 8) % 32],
{
    let digest = blake3_digest(text.as_bytes());
    let mut r: Vec<u8> = Vec::new();
    let mut i: usize = 0;
    while i < dimension
        invariant
            i <= dimension <= MAX_LOCAL_DIMENSION,
            digest@ == blake3_digest_of(encode_utf8(text@)),
            digest@.len() == 32,
            r@.len() == i,
            forall|j: int| 0 <= j < i ==> #[trigger] r@[j] == digest@[(j * 8) % 32],
        decreases dimension - i,
    {
        let idx = (i * 8) % digest.len();
        r.push(digest[idx]);
        i = i + 1;
    }
    r
}

} // verus!
