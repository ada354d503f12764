//! What the library takes from other crates and from the standard library on
//! trust: each function here makes one call and states what that call gives.

use vstd::prelude::*;
use vstd::utf8::{decode_utf8, valid_utf8};
use crate::text::Text;

verus! {

/// The SHA-256 digest of some bytes, in lower-case hexadecimal digits.
pub uninterp spec fn sha256_text(bytes: Seq<u8>) -> Text;

/// Calls `sha256::digest_bytes`, whose result depends on the bytes alone: the
/// digest, 32 bytes long, in two digits for each byte.
#[verifier::external_body]
pub(crate) fn sha256_digest(bytes: &[u8]) -> (r: String)
    ensures
        r@ == sha256_text(bytes@),
        r@.len() == 64,
{
    sha256::digest_bytes(bytes)
}

/// The bits that `git2::CredentialType` has a meaning for.
pub const CREDENTIAL_BITS: u32 = 0x7f;

/// Calls `git2::CredentialType::intersects` on two sets of credential kinds
/// that are given by their bits. The call says whether some kind is in both;
/// bits that stand for no kind are left out of account.
#[verifier::external_body]
pub(crate) fn credentials_intersect(a: u32, b: u32) -> (r: bool)
    ensures
        r == ((a & CREDENTIAL_BITS) & (b & CREDENTIAL_BITS) != 0),
{
    git2::CredentialType::from_bits_truncate(a).intersects(
        git2::CredentialType::from_bits_truncate(b),
    )
}

/// Some bytes as a text in which U+FFFD stands for what is no UTF-8.
pub uninterp spec fn lossy_text(bytes: Seq<u8>) -> Text;

/// Calls `String::from_utf8_lossy`, whose result depends on the bytes alone
/// and is their decoding where they are UTF-8.
#[verifier::external_body]
pub(crate) fn utf8_lossy(bytes: &[u8]) -> (r: String)
    ensures
        r@ == lossy_text(bytes@),
        valid_utf8(bytes@) ==> r@ == decode_utf8(bytes@),
{
    String::from_utf8_lossy(bytes).into_owned()
}

} // verus!
