//! Signing keys and the arguments of the tools that sign and verify PE binaries with them.
use vstd::prelude::*;

use crate::text::strings_view;

verus! {

/// A key pair for `sbsign` and `sbverify`: the paths of the private key and the certificate.
#[derive(Debug)]
pub struct KeyPair {
    pub private_key: String,
    pub public_key: String,
}

/// The arguments of `sbsign` that sign `from` into `to`.
pub open spec fn spec_sbsign_args(private_key: Seq<char>, public_key: Seq<char>, from: Seq<char>, to: Seq<char>) -> Seq<Seq<char>> {
    seq!["--key"@, private_key, "--cert"@, public_key, from, "--output"@, to]
}

/// The arguments of `sbverify` that check the signature of `path`.
pub open spec fn spec_sbverify_args(public_key: Seq<char>, path: Seq<char>) -> Seq<Seq<char>> {
    seq!["--cert"@, public_key, path]
}

fn sbsign_args(private_key: &String, public_key: &String, from: &str, to: &str) -> (r: Vec<String>)
    ensures
        strings_view(r@) == spec_sbsign_args(private_key@, public_key@, from@, to@),
{
    let r = vec![
        "--key".to_owned(),
        private_key.clone(),
        "--cert".to_owned(),
        public_key.clone(),
        from.to_owned(),
        "--output".to_owned(),
        to.to_owned(),
    ];
    assert(strings_view(r@) =~= spec_sbsign_args(private_key@, public_key@, from@, to@));
    r
}

fn sbverify_args(public_key: &String, path: &str) -> (r: Vec<String>)
    ensures
        strings_view(r@) == spec_sbverify_args(public_key@, path@),
{
    let r = vec!["--cert".to_owned(), public_key.clone(), path.to_owned()];
    assert(strings_view(r@) =~= spec_sbverify_args(public_key@, path@));
    r
}

impl KeyPair {
    pub fn new(public_key: &str, private_key: &str) -> (r: Self)
        ensures
            r.public_key@ == public_key@,
            r.private_key@ == private_key@,
    {
        KeyPair { public_key: public_key.to_owned(), private_key: private_key.to_owned() }
    }

    /// The arguments of `sbsign` that sign `from` into `to` with this key pair.
    pub fn sign_args(&self, from: &str, to: &str) -> (r: Vec<String>)
        ensures
            strings_view(r@) == spec_sbsign_args(self.private_key@, self.public_key@, from@, to@),
    {
        sbsign_args(&self.private_key, &self.public_key, from, to)
    }

    /// The arguments of `sbverify` that check the signature of `path` against this key pair.
    pub fn verify_args(&self, path: &str) -> (r: Vec<String>)
        ensures
            strings_view(r@) == spec_sbverify_args(self.public_key@, path@),
    {
        sbverify_args(&self.public_key, path)
    }
}

/// A key pair on the local file system, used by the signing tools.
#[derive(Debug, Clone)]
pub struct LocalKeyPair {
    pub private_key: String,
    pub public_key: String,
}

impl LocalKeyPair {
    pub fn new(public_key: &str, private_key: &str) -> (r: Self)
        ensures
            r.public_key@ == public_key@,
            r.private_key@ == private_key@,
    {
        LocalKeyPair { public_key: public_key.to_owned(), private_key: private_key.to_owned() }
    }

    /// The arguments of `sbsign` that sign `from` into `to` with this key pair.
    pub fn sign_args(&self, from: &str, to: &str) -> (r: Vec<String>)
        ensures
            strings_view(r@) == spec_sbsign_args(self.private_key@, self.public_key@, from@, to@),
    {
        sbsign_args(&self.private_key, &self.public_key, from, to)
    }

    /// The arguments of `sbverify` that check the signature of `path` against this key pair.
    pub fn verify_args(&self, path: &str) -> (r: Vec<String>)
        ensures
            strings_view(r@) == spec_sbverify_args(self.public_key@, path@),
    {
        sbverify_args(&self.public_key, path)
    }
}

/// A key pair that signs nothing: files are installed as they are, for a first installation
/// whose keys are generated on first boot.
#[derive(Debug, Clone, Copy, PartialEq, Eq, Structural)]
pub struct EmptyKeyPair;

impl EmptyKeyPair {
    /// The public key: the bytes of `unsigned`.
    pub fn get_public_key(&self) -> (r: Vec<u8>)
        ensures
            r@ == seq![117u8, 110u8, 115u8, 105u8, 103u8, 110u8, 101u8, 100u8],
    {
        vec![117u8, 110u8, 115u8, 105u8, 103u8, 110u8, 101u8, 100u8]
    }

    /// Every binary counts as verified.
    pub fn verify(&self, pe_binary: &[u8]) -> (r: bool)
        ensures
            r,
    {
        true
    }
}

/// The answer of a remote signing server to a verification request.
#[derive(Debug, Clone, Copy, PartialEq, Eq, Structural)]
pub struct VerificationResponse {
    /// Whether the binary has a signature.
    pub signed: bool,
    /// Whether the binary is valid under the machine's Secure Boot policy; not always
    /// reliable.
    pub valid_according_secureboot_policy: bool,
}

impl VerificationResponse {
    /// The answer for a binary whose signature the signer did or did not verify: both flags
    /// are the signer's verdict.
    pub fn from_verdict(signed: bool) -> (r: Self)
        ensures
            r.signed == signed,
            r.valid_according_secureboot_policy == signed,
    {
        VerificationResponse { signed, valid_according_secureboot_policy: signed }
    }
}

/// Why the body of a signing server's answer has no expected length.
#[derive(Debug, Clone, Copy, PartialEq, Eq, Structural)]
pub enum ResponseLengthError {
    /// The answer is not chunked and has no `Content-Length`.
    MissingContentLength,
    /// The `Content-Length` is not a number.
    MalformedContentLength,
}

/// The length to expect of the body of a signing server's answer: none for a chunked answer,
/// otherwise its `Content-Length`.
pub open spec fn spec_response_length(transfer_encoding: Option<Seq<char>>, content_length: Option<Seq<char>>) -> Result<Option<usize>, ResponseLengthError> {
    if transfer_encoding == Some("chunked"@) {
        Ok(None)
    } else {
        match content_length {
            None => Err(ResponseLengthError::MissingContentLength),
            Some(c) => match crate::text::spec_parse_unsigned(c, usize::MAX as int) {
                Some(n) => Ok(Some(n as usize)),
                None => Err(ResponseLengthError::MalformedContentLength),
            },
        }
    }
}

/// A header value, if any, as characters.
pub open spec fn opt_str(s: Option<&str>) -> Option<Seq<char>> {
    match s {
        Some(x) => Some(x@),
        None => None,
    }
}

/// The length to expect of the body of a signing server's answer, from its
/// `Transfer-Encoding` and `Content-Length` headers.
pub fn response_length(transfer_encoding: Option<&str>, content_length: Option<&str>) -> (r: Result<Option<usize>, ResponseLengthError>)
    ensures
        r == spec_response_length(opt_str(transfer_encoding), opt_str(content_length)),
{
    let chunked = match transfer_encoding {
        Some(t) => crate::strmap::chars_eq(&crate::text::str_chars(t), &crate::text::str_chars("chunked")),
        None => false,
    };
    if chunked {
        return Ok(None);
    }
    match content_length {
        None => Err(ResponseLengthError::MissingContentLength),
        Some(c) => {
            let cs = crate::text::str_chars(c);
            match crate::text::parse_u64(cs.as_slice()) {
                Some(n) => {
                    proof {
                        crate::text::lemma_parse_unsigned_smaller(c@, usize::MAX as int, u64::MAX as int);
                    }
                    if n <= usize::MAX as u64 {
                        Ok(Some(n as usize))
                    } else {
                        Err(ResponseLengthError::MalformedContentLength)
                    }
                },
                None => {
                    proof {
                        crate::text::lemma_parse_unsigned_smaller(c@, usize::MAX as int, u64::MAX as int);
                    }
                    Err(ResponseLengthError::MalformedContentLength)
                },
            }
        },
    }
}

} // verus!
