//! Names of temporary files and the hashes that decide whether a file on the ESP is current.
use vstd::prelude::*;

use crate::hash::{sha256, sha256_digest};
use crate::text::chars_to_string;

verus! {

/// The number of random alphanumeric characters in the names of temporary files.
pub const TEMPFILE_RANDOM_LENGTH: usize = 32;

/// An ASCII letter or digit.
pub open spec fn is_alphanumeric(c: char) -> bool {
    ('a' <= c && c <= 'z') || ('A' <= c && c <= 'Z') || ('0' <= c && c <= '9')
}

/// A random ASCII letter or digit.
///
/// Trusted: calls `fastrand::alphanumeric`, which picks one of `A`-`Z`, `a`-`z` and `0`-`9`;
/// the contract claims only that, not which one.
#[verifier::external_body]
fn random_alphanumeric() -> (c: char)
    ensures
        is_alphanumeric(c),
{
    fastrand::alphanumeric()
}

/// A random (not cryptographically secure) name for a temporary file: 32 ASCII letters and
/// digits.
pub fn tmpname() -> (r: String)
    ensures
        r@.len() == TEMPFILE_RANDOM_LENGTH,
        forall|i: int| 0 <= i < r@.len() ==> is_alphanumeric(#[trigger] r@[i]),
{
    let mut buf: Vec<char> = Vec::new();
    let mut i: usize = 0;
    while i < TEMPFILE_RANDOM_LENGTH
        invariant
            i <= TEMPFILE_RANDOM_LENGTH,
            buf@.len() == i,
            forall|k: int| 0 <= k < buf@.len() ==> is_alphanumeric(#[trigger] buf@[k]),
        decreases TEMPFILE_RANDOM_LENGTH - i,
    {
        buf.push(random_alphanumeric());
        i = i + 1;
    }
    chars_to_string(&buf)
}

/// The hash by which files on the ESP are compared and named: the SHA-256 digest of their
/// contents.
pub fn file_hash(contents: &[u8]) -> (r: Vec<u8>)
    ensures
        r@ == sha256_digest(contents@),
        r@.len() == 32,
{
    sha256(contents)
}

/// Whether a file is to be copied to the ESP: where nothing is at the destination yet, or what
/// is there hashes differently from the source. `to` is the destination's contents, where it
/// exists.
pub fn needs_install(from: &[u8], to: Option<&[u8]>) -> (r: bool)
    ensures
        r == match to {
            None => true,
            Some(t) => sha256_digest(from@) != sha256_digest(t@),
        },
{
    match to {
        None => true,
        Some(t) => {
            let a = sha256(from);
            let b = sha256(t);
            !crate::stub::bytes_equal(a.as_slice(), b.as_slice())
        },
    }
}

} // verus!
