//! SHA-1, Base64 and UTF-8 validation, taken from the crates that implement
//! them. Nothing here is proved: each function states what its crate
//! documents, and the rest of the library is verified against that.

use base64::Engine;
use sha1::Digest;
use vstd::prelude::*;

verus! {

/// The longest message, in bytes, whose length in bits still fits the 64-bit
/// counter that SHA-1 appends to it.
pub const MAX_SHA1_INPUT: u64 = 0x1fff_ffff_ffff_ffff;

/// The SHA-1 digest of `message`.
pub uninterp spec fn sha1_of(message: Seq<u8>) -> Seq<u8>;

/// The Base64 text of `data`: standard alphabet, padded with `=`.
pub uninterp spec fn base64_of(data: Seq<u8>) -> Seq<u8>;

/// The length of the padded Base64 text of `len` bytes.
pub open spec fn base64_len(len: nat) -> nat {
    4 * ((len + 2) / 3)
}

/// `sha1::Sha1::digest`: hashes the whole message in one call. Trusted to
/// return the SHA-1 digest, which is 20 bytes long. Messages whose bit length
/// overflows the algorithm's 64-bit counter are left out.
#[verifier::external_body]
pub(crate) fn sha1_digest(message: &[u8]) -> (digest: Vec<u8>)
    requires
        message@.len() <= MAX_SHA1_INPUT,
    ensures
        digest@ == sha1_of(message@),
        digest@.len() == 20,
{
    sha1::Sha1::digest(message).to_vec()
}

/// `base64::Engine::encode` on `base64::engine::general_purpose::STANDARD`.
/// Trusted to return the padded Base64 text, four characters for every three
/// bytes begun. Inputs whose encoded length does not fit in `usize` are left
/// out: the crate panics on them.
#[verifier::external_body]
pub(crate) fn base64_encode(data: &[u8]) -> (text: Vec<u8>)
    requires
        base64_len(data@.len()) <= usize::MAX,
    ensures
        text@ == base64_of(data@),
        text@.len() == base64_len(data@.len()),
{
    base64::engine::general_purpose::STANDARD.encode(data).into_bytes()
}

/// `core::str::from_utf8`: trusted to accept exactly the byte strings that
/// are well-formed UTF-8.
#[verifier::external_body]
pub(crate) fn is_utf8(bytes: &[u8]) -> (ok: bool)
    ensures
        ok == vstd::utf8::valid_utf8(bytes@),
{
    core::str::from_utf8(bytes).is_ok()
}

} // verus!
