//! The random source: a thin, trusted boundary around the operating system's
//! CSPRNG. Nothing is promised of the bytes themselves, only of their count.

use vstd::prelude::*;

use crate::VaultError;

verus! {

/// Relies on ring::rand::SystemRandom::fill: fills the buffer with bytes from
/// the system's entropy source, or reports that the source failed. The bytes
/// depend on that source, so nothing is stated of them beyond their count.
#[verifier::external_body]
fn fill_random(len: usize) -> (r: Option<Vec<u8>>)
    ensures
        r matches Some(v) ==> v@.len() == len,
{
    let mut buf = vec![0u8; len];
    let rng = ring::rand::SystemRandom::new();
    match ring::rand::SecureRandom::fill(&rng, &mut buf) {
        Ok(()) => Some(buf),
        Err(_) => None,
    }
}

/// Draws `len` random bytes from the system's entropy source.
///
/// A failed fill is terminal for the current operation: it surfaces as
/// `RandomnessFailure` and is never retried here.
pub fn generate_rand_vec(len: usize) -> (r: Result<Vec<u8>, VaultError>)
    ensures
        r matches Ok(v) ==> v@.len() == len,
        r matches Err(e) ==> e == VaultError::RandomnessFailure,
{
    match fill_random(len) {
        Some(v) => Ok(v),
        None => Err(VaultError::RandomnessFailure),
    }
}

} // verus!
