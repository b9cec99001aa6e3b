//! The integer core of the deterministic embedding generators: a 64-bit seed
//! taken from the BLAKE3 digest of a text, and the xorshift sequence it starts.
use vstd::prelude::*;
use crate::knowledge::hash::{blake3_digest, blake3_digest_of};
use vstd::string::StringSliceAdditionalSpecFns;
use vstd::utf8::encode_utf8;

verus! {

/// The little-endian value of `bytes`.
pub open spec fn le_value(bytes: Seq<u8>) -> nat
    decreases bytes.len(),
{
    if bytes.len() == 0 {
        0
    } else {
        (bytes[0] + 256 * le_value(bytes.drop_first())) as nat
    }
}

/// `256^n`.
pub open spec fn pow256(n: nat) -> nat
    decreases n,
{
    if n == 0 {
        1
    } else {
        256 * pow256((n - 1) as nat)
    }
}

proof fn lemma_le_value_bound(bytes: Seq<u8>)
    ensures
        le_value(bytes) < pow256(bytes.len()),
    decreases bytes.len(),
{
    if bytes.len() > 0 {
        let rest = bytes.drop_first();
        lemma_le_value_bound(rest);
        let v = le_value(rest);
        let p = pow256(rest.len());
        assert(bytes[0] + 256 * v < 256 * p) by (nonlinear_arith)
            requires
                bytes[0] < 256,
                v < p,
        ;
    }
}

/// `u64::from_le_bytes` of the first eight bytes of `bytes`.
pub fn le_u64(bytes: &[u8]) -> (r: u64)
    requires
        bytes@.len() >= 8,
    ensures
        r == le_value(bytes@.subrange(0, 8)),
{
    let ghost s = bytes@.subrange(0, 8);
    let mut r: u64 = 0;
    let mut k: usize = 8;
    proof {
        assert(s.subrange(8, 8) =~= Seq::<u8>::empty());
    }
    while k > 0
        invariant
            k <= 8,
            bytes@.len() >= 8,
            s == bytes@.subrange(0, 8),
            r == le_value(s.subrange(k as int, 8)),
        decreases k,
    {
        let ghost tail = s.subrange(k as int, 8);
        proof {
            lemma_le_value_bound(tail);
            assert(pow256(tail.len()) <= pow256(7)) by {
                lemma_pow256_mono(tail.len(), 7);
            }
            assert(pow256(7) == 72057594037927936) by {
                reveal_with_fuel(pow256, 8);
            }
            let t1 = s.subrange(k - 1, 8);
            assert(t1.drop_first() =~= tail);
            assert(t1[0] == bytes@[k - 1]);
        }
        r = (bytes[k - 1] as u64) + 256 * r;
        k = k - 1;
    }
    proof {
        assert(s.subrange(0, 8) =~= s);
    }
    r
}

proof fn lemma_pow256_mono(a: nat, b: nat)
    requires
        a <= b,
    ensures
        pow256(a) <= pow256(b),
    decreases b,
{
    if a < b {
        lemma_pow256_mono(a, (b - 1) as nat);
    }
}

/// The seed of `text`: the first eight bytes of its BLAKE3 digest, little-endian.
pub open spec fn spec_text_seed(text: Seq<u8>) -> u64 {
    le_value(blake3_digest_of(text).subrange(0, 8)) as u64
}

/// The seed of the UTF-8 bytes of `text`.
pub fn text_seed(text: &str) -> (r: u64)
    ensures
        r == spec_text_seed(encode_utf8(text@)),
{
    let digest = blake3_digest(text.as_bytes());
    let r = le_u64(digest.as_slice());
    proof {
        lemma_le_value_bound(digest@.subrange(0, 8));
        assert(pow256(8) == 18446744073709551616) by {
            reveal_with_fuel(pow256, 9);
        }
    }
    r
}

/// One xorshift step: `x ^= x << 13; x ^= x >> 7; x ^= x << 17` on 64 bits.
pub open spec fn xorshift(x: u64) -> u64 {
    let a = x ^ (x << 13u64);
    let b = a ^ (a >> 7u64);
    b ^ (b << 17u64)
}

/// The first `n` states after `seed`: state `i` is `xorshift` applied `i + 1` times.
pub open spec fn xorshift_states(seed: u64, n: nat) -> Seq<u64>
    decreases n,
{
    if n == 0 {
        Seq::empty()
    } else {
        let prev = xorshift_states(seed, (n - 1) as nat);
        let last = if n == 1 {
            seed
        } else {
            prev.last()
        };
        prev.push(xorshift(last))
    }
}

/// The first `count` xorshift states after `seed`.
pub fn xorshift_sequence(seed: u64, count: usize) -> (r: Vec<u64>)
    ensures
        r@ == xorshift_states(seed, count as nat),
{
    let mut r: Vec<u64> = Vec::new();
    let mut state = seed;
    let mut i: usize = 0;
    while i < count
        invariant
            i <= count,
            r@ == xorshift_states(seed, i as nat),
            state == (if i == 0 {
                seed
            } else {
                r@.last()
            }),
        decreases count - i,
    {
        state = state ^ (state << 13u64);
        state = state ^ (state >> 7u64);
        state = state ^ (state << 17u64);
        r.push(state);
        i = i + 1;
    }
    r
}

} // verus!
