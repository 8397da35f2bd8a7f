//! Trusted boundary to the outside crates.
//!
//! The engine needs three things it cannot compute itself: fresh random
//! identifiers, the current wall-clock time, and a cryptographic content
//! digest.  Each comes from an outside crate through a single wrapper whose
//! contract states only what that crate's documentation promises.

use vstd::prelude::*;
use sha2::Digest;

verus! {

/// The SHA-256 digest of a text's UTF-8 bytes, named but not defined: the
/// digest is a pure function of its input, and nothing here restates the
/// algorithm.
pub uninterp spec fn sha256_of(text: Seq<char>) -> Seq<u8>;

/// Relies on `sha2::Sha256::digest`: a pure function of the input bytes
/// that always yields exactly 32 bytes.
#[verifier::external_body]
pub fn sha256(s: &str) -> (r: Vec<u8>)
    ensures
        r@ == sha256_of(s@),
        r@.len() == 32,
{
    sha2::Sha256::digest(s.as_bytes()).to_vec()
}

/// Relies on `uuid::Uuid::new_v4`: a random 128-bit identifier.  Nothing can
/// be promised of a random value, so this has no contract.
#[verifier::external_body]
pub fn fresh_id() -> u128 {
    uuid::Uuid::new_v4().as_u128()
}

/// Relies on `chrono::Utc::now`: the current wall-clock time in milliseconds
/// since the Unix epoch.  The clock is outside the engine's control, so
/// nothing can be promised of the value.
#[verifier::external_body]
pub fn now_millis() -> i64 {
    chrono::Utc::now().timestamp_millis()
}

/// Relies on `str`'s equality operator: character-for-character equality.
#[verifier::external_body]
pub fn str_eq(a: &str, b: &str) -> (r: bool)
    ensures
        r == (a@ == b@),
{
    a == b
}

} // verus!
