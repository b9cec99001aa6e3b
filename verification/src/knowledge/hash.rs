//! Content hashing with BLAKE3.
use vstd::prelude::*;
use vstd::utf8::encode_utf8;
use vstd::string::StringSliceAdditionalSpecFns;

verus! {

/// The 32-byte BLAKE3 digest of `data`.
pub uninterp spec fn blake3_digest_of(data: Seq<u8>) -> Seq<u8>;

/// `blake3::hash`: the BLAKE3 digest of `data` (which is what a fresh
/// `blake3::Hasher` fed `data` finalizes to), as its 32 raw bytes.
#[verifier::external_body]
pub(crate) fn blake3_digest(data: &[u8]) -> (r: Vec<u8>)
    ensures
        r@ == blake3_digest_of(data@),
        r@.len() == 32,
{
    blake3::hash(data).as_bytes().to_vec()
}

/// Whether `b` is an ASCII hexadecimal digit of either case.
pub open spec fn is_hex_byte(b: u8) -> bool {
    (48 <= b <= 57) || (65 <= b <= 70) || (97 <= b <= 102)
}

/// The value of the hexadecimal digit `b`.
pub open spec fn hex_value(b: u8) -> int {
    if 48 <= b <= 57 {
        b - 48
    } else if 65 <= b <= 70 {
        b - 55
    } else {
        b - 87
    }
}

/// Whether `text` is the hexadecimal text of a digest: 64 hexadecimal digits.
pub open spec fn is_digest_hex(text: Seq<u8>) -> bool {
    text.len() == 64 && forall|i: int| 0 <= i < 64 ==> #[trigger] is_hex_byte(text[i])
}

/// The 32 bytes that the hexadecimal digest text `text` spells, high nibble first.
pub open spec fn digest_bytes_of_hex(text: Seq<u8>) -> Seq<u8> {
    Seq::new(32, |i: int| (16 * hex_value(text[2 * i]) + hex_value(text[2 * i + 1])) as u8)
}

/// The value of the hexadecimal digit `b`, if it is one.
fn hex_nibble(b: u8) -> (r: Option<u8>)
    ensures
        r is Some <==> is_hex_byte(b),
        r matches Some(v) ==> v == hex_value(b) && v < 16,
{
    if 48 <= b && b <= 57 {
        Some(b - 48)
    } else if 65 <= b && b <= 70 {
        Some(b - 55)
    } else if 97 <= b && b <= 102 {
        Some(b - 87)
    } else {
        None
    }
}

/// The digest spelled by 64 hexadecimal digits (of either case), as its 32 raw
/// bytes, high nibble first; any other text is refused (as `blake3::Hash::from_hex`
/// reads a digest).
pub(crate) fn digest_from_hex(hex: &str) -> (r: Option<Vec<u8>>)
    ensures
        r is Some <==> is_digest_hex(encode_utf8(hex@)),
        r matches Some(b) ==> b@ == digest_bytes_of_hex(encode_utf8(hex@)),
{
    let t = hex.as_bytes();
    let ghost e = encode_utf8(hex@);
    if t.len() != 64 {
        return None;
    }
    let mut out: Vec<u8> = Vec::new();
    let mut i: usize = 0;
    while i < 32
        invariant
            i <= 32,
            t@ == e,
            e == encode_utf8(hex@),
            e.len() == 64,
            forall|j: int| 0 <= j < 2 * i ==> #[trigger] is_hex_byte(e[j]),
            out@ == digest_bytes_of_hex(e).subrange(0, i as int),
        decreases 32 - i,
    {
        let hi = match hex_nibble(t[2 * i]) {
            Some(v) => v,
            None => {
                assert(!is_hex_byte(e[2 * i as int]));
                assert(0 <= 2 * i < 64);
                assert(!is_digest_hex(e));
                return None;
            },
        };
        let lo = match hex_nibble(t[2 * i + 1]) {
            Some(v) => v,
            None => {
                assert(!is_hex_byte(e[2 * i + 1]));
                assert(0 <= 2 * i + 1 < 64);
                assert(!is_digest_hex(e));
                return None;
            },
        };
        let ghost o0 = out@;
        let byte: u8 = hi * 16 + lo;
        out.push(byte);
        proof {
            assert(out@ =~= digest_bytes_of_hex(e).subrange(0, i + 1)) by {
                assert(out@ == o0.push(byte));
                assert(digest_bytes_of_hex(e)[i as int] == (16 * hex_value(e[2 * i]) + hex_value(e[2 * i + 1])) as u8);
            }
            assert forall|j: int| 0 <= j < 2 * (i + 1) implies #[trigger] is_hex_byte(e[j]) by {
                if j == 2 * i {
                } else if j == 2 * i + 1 {
                }
            }
        }
        i = i + 1;
    }
    proof {
        assert(digest_bytes_of_hex(e).subrange(0, 32) =~= digest_bytes_of_hex(e));
    }
    Some(out)
}

/// The lower-case hexadecimal digit for `d < 16`.
pub open spec fn hex_digit(d: nat) -> char {
    if d < 10 {
        ((d + 48) as u8) as char
    } else {
        ((d + 87) as u8) as char
    }
}

/// Lower-case hexadecimal text of `bytes`, two digits per byte, high nibble first.
pub open spec fn hex_lower(bytes: Seq<u8>) -> Seq<char>
    decreases bytes.len(),
{
    if bytes.len() == 0 {
        Seq::empty()
    } else {
        hex_lower(bytes.drop_last()).push(hex_digit((bytes.last() / 16) as nat)).push(
            hex_digit((bytes.last() % 16) as nat),
        )
    }
}

/// The hexadecimal text of `bytes` has two digits per byte, high nibble first.
pub proof fn lemma_hex_lower_digits(bytes: Seq<u8>)
    ensures
        hex_lower(bytes).len() == 2 * bytes.len(),
        forall|i: int|
            0 <= i < bytes.len() ==> #[trigger] hex_lower(bytes)[2 * i] == hex_digit((bytes[i] / 16) as nat)
                && hex_lower(bytes)[2 * i + 1] == hex_digit((bytes[i] % 16) as nat),
    decreases bytes.len(),
{
    if bytes.len() > 0 {
        let init = bytes.drop_last();
        lemma_hex_lower_digits(init);
        assert forall|i: int| 0 <= i < bytes.len() implies #[trigger] hex_lower(bytes)[2 * i] == hex_digit(
            (bytes[i] / 16) as nat,
        ) && hex_lower(bytes)[2 * i + 1] == hex_digit((bytes[i] % 16) as nat) by {
            if i < init.len() {
                assert(init[i] == bytes[i]);
                assert(hex_lower(init)[2 * i] == hex_digit((init[i] / 16) as nat));
            }
        }
    }
}

/// The digest spelled by the lower-case hexadecimal text of 32 bytes is those bytes.
pub proof fn lemma_digest_hex_round_trip(bytes: Seq<u8>)
    requires
        bytes.len() == 32,
    ensures
        is_digest_hex(encode_utf8(hex_lower(bytes))),
        digest_bytes_of_hex(encode_utf8(hex_lower(bytes))) == bytes,
{
    let h = hex_lower(bytes);
    lemma_hex_lower_digits(bytes);
    assert forall|j: int| 0 <= j < h.len() implies (#[trigger] h[j]) as u8 == h[j] as u32 && '\0' <= h[j] <= '\u{7f}'
        && is_hex_byte(h[j] as u8) && hex_value(h[j] as u8) == (if j % 2 == 0 {
        bytes[j / 2] / 16
    } else {
        bytes[j / 2] % 16
    }) by {
        let i = j / 2;
        assert(0 <= i < 32);
        if j % 2 == 0 {
            assert(j == 2 * i);
            assert(h[2 * i] == hex_digit((bytes[i] / 16) as nat));
        } else {
            assert(j == 2 * i + 1);
            assert(h[2 * i] == hex_digit((bytes[i] / 16) as nat));
            assert(h[2 * i + 1] == hex_digit((bytes[i] % 16) as nat));
        }
    }
    assert(vstd::utf8::is_ascii_chars(h));
    vstd::utf8::is_ascii_chars_encode_utf8(h);
    let e = encode_utf8(h);
    assert forall|j: int| 0 <= j < 64 implies #[trigger] is_hex_byte(e[j]) by {
        assert(e[j] == h[j] as u8);
    }
    assert forall|i: int| 0 <= i < 32 implies #[trigger] digest_bytes_of_hex(e)[i] == bytes[i] by {
        assert(e[2 * i] == h[2 * i] as u8);
        assert(e[2 * i + 1] == h[2 * i + 1] as u8);
        assert((2 * i) % 2 == 0 && (2 * i) / 2 == i);
        assert((2 * i + 1) % 2 == 1 && (2 * i + 1) / 2 == i);
        assert(hex_value(h[2 * i] as u8) == bytes[i] / 16);
        assert(hex_value(h[2 * i + 1] as u8) == bytes[i] % 16);
    }
    assert(digest_bytes_of_hex(e) =~= bytes);
}

fn hex_char(d: u8) -> (c: char)
    requires
        d < 16,
    ensures
        c == hex_digit(d as nat),
{
    if d < 10 {
        (d + 48) as char
    } else {
        (d + 87) as char
    }
}

/// Lower-case hexadecimal text of `bytes`.
pub fn to_hex(bytes: &[u8]) -> (r: String)
    ensures
        r@ == hex_lower(bytes@),
{
    let mut r = String::new();
    let n = bytes.len();
    let mut i: usize = 0;
    while i < n
        invariant
            i <= n,
            n == bytes@.len(),
            r@ == hex_lower(bytes@.subrange(0, i as int)),
        decreases n - i,
    {
        let b = bytes[i];
        crate::text::push_char(&mut r, hex_char(b / 16));
        crate::text::push_char(&mut r, hex_char(b % 16));
        proof {
            let p1 = bytes@.subrange(0, i + 1);
            assert(p1.drop_last() =~= bytes@.subrange(0, i as int));
            assert(p1.last() == b);
        }
        i = i + 1;
    }
    proof {
        assert(bytes@.subrange(0, n as int) =~= bytes@);
    }
    r
}

/// Hashes content with BLAKE3.
#[derive(Debug, Clone, Copy)]
pub struct Blake3HashEngine;

impl Blake3HashEngine {
    /// A hashing engine.
    pub fn new() -> (r: Self)
        ensures
            r == (Blake3HashEngine {}),
    {
        Blake3HashEngine
    }

    /// The BLAKE3 digest of `data` in lower-case hexadecimal (64 characters).
    pub fn hash(&self, data: &[u8]) -> (r: String)
        ensures
            r@ == hex_lower(blake3_digest_of(data@)),
    {
        let digest = blake3_digest(data);
        to_hex(digest.as_slice())
    }
}

} // verus!
