//! The cryptographic digest behind block linkage and proof-of-work.
//!
//! The digest itself comes from an outside implementation of SHA-256; its
//! result is named by an uninterpreted function of the input bytes, and the
//! rest of the library reasons purely in terms of that name.

use crypto::digest::Digest;
use crypto::sha2::Sha256;
use vstd::prelude::*;

verus! {

/// The lowercase hexadecimal SHA-256 digest of a byte sequence.
pub uninterp spec fn sha256_hex_of(bytes: Seq<u8>) -> Seq<char>;

/// True for the sixteen lowercase hexadecimal digit characters.
pub open spec fn is_hex_digit(c: char) -> bool {
    ('0' <= c && c <= '9') || ('a' <= c && c <= 'f')
}

/// Relies on crypto::sha2::Sha256 through crypto::digest::Digest: `input`
/// absorbs the bytes and `result_str` renders the 256-bit digest as 64
/// lowercase hexadecimal characters, a function of the input bytes alone.
#[verifier::external_body]
pub fn sha256_hex(bytes: &[u8]) -> (r: String)
    ensures
        r@ == sha256_hex_of(bytes@),
        r@.len() == 64,
        forall|i: int| 0 <= i < 64 ==> is_hex_digit(#[trigger] r@[i]),
{
    let mut sha = Sha256::new();
    sha.input(bytes);
    sha.result_str()
}

} // verus!
