//! SHA-256 of exact bytes, and the fingerprint of a model/data pair.
//!
//! Producers hash the exact bytes they write; verifiers hash the exact bytes they receive and
//! never reserialize before hashing.

use sha2::{Digest, Sha256};
use vstd::prelude::*;

use crate::text;
#[allow(unused_imports)]
use crate::text::{bytes_of, hex_text};

verus! {

/// The SHA-256 digest of a message.
pub uninterp spec fn sha256(message: Seq<u8>) -> Seq<u8>;

/// Calls `sha2::Sha256::digest`, which hashes the whole message in one go. The digest is a
/// function of the message alone and has 32 bytes.
#[verifier::external_body]
pub(crate) fn sha256_digest(message: &[u8]) -> (r: Vec<u8>)
    ensures
        r@ == sha256(message@),
        r@.len() == 32,
{
    Sha256::digest(message).to_vec()
}

/// A digest as `sha256:` and lowercase hexadecimal digits.
pub open spec fn rendered_digest(digest: Seq<u8>) -> Seq<char> {
    "sha256:"@ + hex_text(digest)
}

fn render_digest(digest: &[u8]) -> (r: String)
    ensures
        r@ == rendered_digest(digest@),
{
    text::cat2("sha256:", text::hex(digest).as_str())
}

/// Return a lowercase prefixed SHA-256 digest for exact received bytes.
pub fn sha256_bytes(input: &[u8]) -> (r: String)
    ensures
        r@ == rendered_digest(sha256(input@)),
{
    render_digest(sha256_digest(input).as_slice())
}

/// The message that a model/data fingerprint hashes.
pub open spec fn fingerprint_message(model: Seq<char>, data: Seq<char>) -> Seq<u8> {
    bytes_of("bayescycle-model-data-v1\n"@) + bytes_of(model) + bytes_of("\n"@) + bytes_of(data)
}

/// Fingerprint a model/data pair: SHA-256 over
/// `"bayescycle-model-data-v1\n" + model + "\n" + data`, rendered as
/// `sha256:` followed by 64 lowercase hex digits.
pub fn model_data_fingerprint(model_text: &str, data_text: &str) -> (r: String)
    ensures
        r@ == rendered_digest(sha256(fingerprint_message(model_text@, data_text@))),
{
    let mut message: Vec<u8> = Vec::new();
    text::push_bytes(&mut message, "bayescycle-model-data-v1\n".as_bytes());
    text::push_bytes(&mut message, model_text.as_bytes());
    text::push_bytes(&mut message, "\n".as_bytes());
    text::push_bytes(&mut message, data_text.as_bytes());
    assert(message@ =~= fingerprint_message(model_text@, data_text@));
    render_digest(sha256_digest(message.as_slice()).as_slice())
}

} // verus!
