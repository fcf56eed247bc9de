//! Hashes and their text forms: SHA-256 digests, lower-case unpadded Base32, and the JSON
//! document that names a stub.
use base32ct::Encoding;
use sha2::Digest;
use vstd::prelude::*;

use crate::text::{decimal, joined};

verus! {

/// The SHA-256 digest of some bytes.
pub uninterp spec fn sha256_digest(data: Seq<u8>) -> Seq<u8>;

/// The SHA-256 digest of some bytes.
///
/// Trusted: calls `sha2::Sha256::digest` and copies the 32-byte output; the contract claims
/// only that the result is the digest of the input (named) and that it is 32 bytes long, as
/// the output type `GenericArray<u8, U32>` fixes.
#[verifier::external_body]
pub(crate) fn sha256(data: &[u8]) -> (r: Vec<u8>)
    ensures
        r@ == sha256_digest(data@),
        r@.len() == 32,
{
    sha2::Sha256::digest(data).to_vec()
}

/// Bit `k` of some bytes, most significant bit of each byte first; zero past the end.
pub open spec fn bit_at(data: Seq<u8>, k: int) -> nat {
    if 0 <= k < 8 * data.len() {
        ((data[k / 8] as nat) / pow2_u8((7 - k % 8) as nat)) % 2
    } else {
        0
    }
}

/// `2^n` for `n < 8`.
pub open spec fn pow2_u8(n: nat) -> nat
    decreases n,
{
    if n == 0 {
        1
    } else {
        2 * pow2_u8((n - 1) as nat)
    }
}

/// The 5-bit group `j` of some bytes (zero bits past the end).
pub open spec fn five_bits(data: Seq<u8>, j: int) -> nat {
    16 * bit_at(data, 5 * j) + 8 * bit_at(data, 5 * j + 1) + 4 * bit_at(data, 5 * j + 2) + 2
        * bit_at(data, 5 * j + 3) + bit_at(data, 5 * j + 4)
}

/// The RFC 4648 lower-case Base32 character for a value below 32: `a`-`z`, then `2`-`7`.
pub open spec fn base32_char(v: nat) -> char {
    if v < 26 {
        ((97 + v) as u8) as char
    } else {
        ((24 + v) as u8) as char
    }
}

/// RFC 4648 Base32 in lower case without padding: one character per 5 bits, the last group
/// filled with zero bits.
pub open spec fn base32_unpadded(data: Seq<u8>) -> Seq<char> {
    Seq::new(((8 * data.len() + 4) / 5) as nat, |j: int| base32_char(five_bits(data, j)))
}

proof fn lemma_pow2_u8_values()
    ensures
        pow2_u8(0) == 1,
        pow2_u8(1) == 2,
        pow2_u8(2) == 4,
        pow2_u8(3) == 8,
        pow2_u8(4) == 16,
        pow2_u8(5) == 32,
        pow2_u8(6) == 64,
        pow2_u8(7) == 128,
{
    reveal_with_fuel(pow2_u8, 8);
}

/// A byte is determined by its eight bits.
proof fn lemma_byte_from_bits(x: u8, y: u8)
    requires
        forall|t: nat| t < 8 ==> ((x as nat) / #[trigger] pow2_u8((7 - t) as nat)) % 2 == ((y as nat) / pow2_u8(
            (7 - t) as nat,
        )) % 2,
    ensures
        x == y,
{
    lemma_pow2_u8_values();
    assert(pow2_u8((7 - 0) as nat) == 128);
    assert(pow2_u8((7 - 1) as nat) == 64);
    assert(pow2_u8((7 - 2) as nat) == 32);
    assert(pow2_u8((7 - 3) as nat) == 16);
    assert(pow2_u8((7 - 4) as nat) == 8);
    assert(pow2_u8((7 - 5) as nat) == 4);
    assert(pow2_u8((7 - 6) as nat) == 2);
    assert(pow2_u8((7 - 7) as nat) == 1);
    assert(x / 128 % 2 == y / 128 % 2 && x / 64 % 2 == y / 64 % 2 && x / 32 % 2 == y / 32 % 2
        && x / 16 % 2 == y / 16 % 2 && x / 8 % 2 == y / 8 % 2 && x / 4 % 2 == y / 4 % 2 && x / 2
        % 2 == y / 2 % 2 && x % 2 == y % 2);
    assert((x / 128 % 2 == y / 128 % 2 && x / 64 % 2 == y / 64 % 2 && x / 32 % 2 == y / 32 % 2
        && x / 16 % 2 == y / 16 % 2 && x / 8 % 2 == y / 8 % 2 && x / 4 % 2 == y / 4 % 2 && x / 2
        % 2 == y / 2 % 2 && x % 2 == y % 2) ==> x == y) by (bit_vector);
}

/// The Base32 character of a value below 32 gives the value back.
proof fn lemma_base32_char_injective(v: nat, w: nat)
    requires
        v < 32,
        w < 32,
        base32_char(v) == base32_char(w),
    ensures
        v == w,
{
    assert((base32_char(v) as u32) == (if v < 26 { 97 + v } else { 24 + v }));
    assert((base32_char(w) as u32) == (if w < 26 { 97 + w } else { 24 + w }));
}

/// Distinct bytes of the same length give distinct Base32 texts: the text determines the
/// bytes.
pub proof fn law_base32_injective(d1: Seq<u8>, d2: Seq<u8>)
    requires
        d1.len() == d2.len(),
        base32_unpadded(d1) == base32_unpadded(d2),
    ensures
        d1 == d2,
{
    let n = d1.len();
    let b1 = base32_unpadded(d1);
    let b2 = base32_unpadded(d2);
    // every group gives its five bits back
    assert forall|k: int| 0 <= k < 8 * n implies #[trigger] bit_at(d1, k) == bit_at(d2, k) by {
        let j = k / 5;
        let r = k % 5;
        assert(0 <= j < (8 * n + 4) / 5);
        assert(b1[j] == b2[j]);
        assert(bit_at(d1, 5 * j) < 2 && bit_at(d1, 5 * j + 1) < 2 && bit_at(d1, 5 * j + 2) < 2
            && bit_at(d1, 5 * j + 3) < 2 && bit_at(d1, 5 * j + 4) < 2);
        assert(bit_at(d2, 5 * j) < 2 && bit_at(d2, 5 * j + 1) < 2 && bit_at(d2, 5 * j + 2) < 2
            && bit_at(d2, 5 * j + 3) < 2 && bit_at(d2, 5 * j + 4) < 2);
        lemma_base32_char_injective(five_bits(d1, j), five_bits(d2, j));
        assert(k == 5 * j + r);
    }
    assert forall|i: int| 0 <= i < n implies d1[i] == d2[i] by {
        assert forall|t: nat| t < 8 implies ((d1[i] as nat) / #[trigger] pow2_u8((7 - t) as nat)) % 2 == ((
            d2[i] as nat) / pow2_u8((7 - t) as nat)) % 2 by {
            let k = 8 * i + t;
            assert(bit_at(d1, k) == bit_at(d2, k));
            assert(k / 8 == i && k % 8 == t);
        }
        lemma_byte_from_bits(d1[i], d2[i]);
    }
    assert(d1 =~= d2);
}

/// The length of the Base32 text grows with the length of the bytes.
pub proof fn lemma_base32_len(d1: Seq<u8>, d2: Seq<u8>)
    requires
        d1.len() < d2.len(),
    ensures
        base32_unpadded(d1).len() < base32_unpadded(d2).len(),
{
    assert((8 * d1.len() + 4) / 5 < (8 * d2.len() + 4) / 5);
}

/// Encodes bytes as lower-case Base32 without padding.
///
/// Trusted: calls `base32ct::Base32Unpadded::encode` into a buffer of `encoded_len` bytes
/// (what `encode_string` does), which produces
/// `ceil(8 * len / 5)` characters of the RFC 4648 lower-case alphabet, the bits of the input
/// taken most significant first in groups of five, the last group completed with zero bits.
/// The length is computed as `len * 8`, so the input must be short enough for that.
#[verifier::external_body]
pub(crate) fn encode_base32(data: &[u8]) -> (r: String)
    requires
        data@.len() * 8 <= usize::MAX,
    ensures
        r@ == base32_unpadded(data@),
{
    let mut dst = vec![0u8; base32ct::Base32Unpadded::encoded_len(data)];
    base32ct::Base32Unpadded::encode(data, &mut dst).map(|s| s.to_string()).unwrap_or_default()
}

/// A byte string as a compact JSON array of decimal numbers: `[47,110,105]`.
pub open spec fn json_byte_array(b: Seq<u8>) -> Seq<char> {
    seq!['['] + joined(b.map_values(|x: u8| decimal(x as nat)), seq![',']) + seq![']']
}

/// The JSON document that names a stub, as `serde_json` writes it compactly:
/// `[["toplevel",[...]],["public_key",[...]]]`, each byte string as an array of numbers.
pub open spec fn stub_inputs_json(toplevel: Seq<u8>, public_key: Seq<u8>) -> Seq<char> {
    seq!['[', '[', '"', 't', 'o', 'p', 'l', 'e', 'v', 'e', 'l', '"', ','] + json_byte_array(toplevel)
        + seq![']', ',', '[', '"', 'p', 'u', 'b', 'l', 'i', 'c', '_', 'k', 'e', 'y', '"', ',']
        + json_byte_array(public_key) + seq![']', ']']
}

/// Serialises the inputs that a stub's name is derived from.
///
/// Trusted: calls `serde_json::to_string` on the array
/// `[("toplevel", toplevel), ("public_key", public_key)]`, which writes arrays (fixed-size
/// arrays and tuples as well as slices) as `[` elements `,`-separated `]`, the strings, which
/// need no escaping, in quotes, and each byte as a decimal number; the contract states that
/// text. Serialising string slices and byte slices cannot fail, so the `Err` case of
/// `serde_json::to_string` does not arise.
#[verifier::external_body]
pub(crate) fn stub_inputs_to_json(toplevel: &[u8], public_key: &[u8]) -> (r: String)
    ensures
        r@ == stub_inputs_json(toplevel@, public_key@),
{
    let stub_inputs: [(&str, &[u8]); 2] = [("toplevel", toplevel), ("public_key", public_key)];
    serde_json::to_string(&stub_inputs).unwrap_or_default()
}

} // verus!
