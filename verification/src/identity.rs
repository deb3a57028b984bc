//! Anonymized client identities.
//!
//! A client is identified by a one-way digest of its normalized network
//! address: the lowercase hex encoding of the SHA-256 hash of the address.
//! The digest itself is computed by an outside crate; this module names its
//! result and states only what that crate's source shows, so that the rest
//! of the library can reason about identities as opaque but deterministic
//! values.

use vstd::prelude::*;

verus! {

/// The lowercase hex encoding of the SHA-256 digest of (the UTF-8 bytes of)
/// a string.  The digest is a function of the input alone; its value is
/// deliberately left unspecified rather than re-stating SHA-256 here.
pub uninterp spec fn sha256_hex_of(s: Seq<char>) -> Seq<u8>;

/// A byte that is an ASCII digit or lowercase `a`–`f`.
pub open spec fn is_hex_digit_byte(b: u8) -> bool {
    (48 <= b <= 57) || (97 <= b <= 102)
}

/// Relies on `sha256::digest`, which returns `hex::encode` of the 32-byte
/// SHA-256 digest of the input: 64 lowercase hex characters, a function of
/// the input alone.
#[verifier::external_body]
fn sha256_hex(addr: &str) -> (r: Vec<u8>)
    ensures
        r@ == sha256_hex_of(addr@),
        r@.len() == 64,
        forall|i: int| 0 <= i < r@.len() ==> is_hex_digit_byte(r@[i]),
{
    sha256::digest(addr).into_bytes()
}

/// Derive the anonymized identity for a normalized client address: a stable
/// 64-byte lowercase hex digest, safe to persist in place of the address.
pub fn identity_of_address(addr: &str) -> (id: Vec<u8>)
    ensures
        id@ == sha256_hex_of(addr@),
        id@.len() == 64,
        forall|i: int| 0 <= i < id@.len() ==> is_hex_digit_byte(id@[i]),
{
    sha256_hex(addr)
}

/// Determinism of the identity: the digest depends on the normalized address
/// alone, so the same address yields the same identity on every call, in
/// every process.
pub proof fn lemma_identity_deterministic(a: Seq<char>, b: Seq<char>)
    requires
        a == b,
    ensures
        sha256_hex_of(a) == sha256_hex_of(b),
{
}

} // verus!
