//! Content hashes.

use sha2::{Digest, Sha256};
use vstd::prelude::*;

use crate::hex::{bytes_text, hex_text};

verus! {

/// The SHA-256 digest of some bytes.
pub uninterp spec fn sha256(bytes: Seq<u8>) -> Seq<u8>;

/// `Sha256::digest`: thirty-two bytes. Which bytes has a name only.
#[verifier::external_body]
fn digest(bytes: &[u8]) -> (digest: Vec<u8>)
    ensures
        digest@ == sha256(bytes@),
        digest@.len() == 32,
{
    Sha256::digest(bytes).to_vec()
}

/// The SHA-256 digest of `bytes` in lower-case hexadecimal digits.
pub fn sha256_hex(bytes: &[u8]) -> (text: String)
    ensures
        text@ == bytes_text(sha256(bytes@)),
        text@.len() == 64,
{
    let digest = digest(bytes);
    hex_text(digest.as_slice())
}

} // verus!
