//! Password-based key derivation and hashing.
//!
//! The slow, salted derivation (PBKDF2-HMAC-SHA-256 at a fixed work factor)
//! and the plain digest are outside computations; their results are functions
//! of the arguments alone and are named by uninterpreted spec functions, so
//! that every contract above this module is exact in those names.

use vstd::prelude::*;

use crate::VaultError;
use crate::rand::generate_rand_vec;

verus! {

/// The fixed PBKDF2 work factor, shared process-wide.
pub const PBKDF2_ITER: u32 = 20_000;

/// The salt length, fixed at 32 bytes across all derivations.
pub const SALT_LEN: usize = 32;

/// What PBKDF2-HMAC-SHA-256 derives from a password and salt at a given
/// iteration count and output length. Named, not written out: nothing here
/// runs the construction, and only the trusted items below speak for it.
pub uninterp spec fn pbkdf2_of(
    iterations: u32,
    password: Seq<u8>,
    salt: Seq<u8>,
    out_len: nat,
) -> Seq<u8>;

/// What SHA-256 digests a byte sequence to: a function of the bytes alone.
pub uninterp spec fn sha256_of(data: Seq<u8>) -> Seq<u8>;

/// The lowercase hexadecimal digit for a value below 16.
pub open spec fn hex_char(v: int) -> char
    recommends
        0 <= v < 16,
{
    if v < 10 {
        (0x30 + v) as char
    } else {
        (0x57 + v) as char
    }
}

/// Lowercase hexadecimal of a byte sequence, high nibble first.
pub open spec fn spec_hex(b: Seq<u8>) -> Seq<char>
    decreases b.len(),
{
    if b.len() == 0 {
        Seq::empty()
    } else {
        seq![hex_char(b[0] as int / 16), hex_char(b[0] as int % 16)] + spec_hex(b.drop_first())
    }
}

/// Relies on ring::pbkdf2::derive with PBKDF2_HMAC_SHA256: fills the output
/// with the PBKDF2 stream of the password and salt. The result is a function
/// of the arguments alone, stated through `pbkdf2_of`. The bounds keep out
/// the inputs on which ring's derive panics (inputs too long for the digest,
/// or more output blocks than its 32-bit counter can index).
#[verifier::external_body]
fn pbkdf2_derive(iterations: u32, password: &[u8], salt: &[u8], out_len: usize) -> (r: Vec<u8>)
    requires
        1 <= iterations,
        password@.len() <= 0x1000_0000_0000_0000,
        salt@.len() <= 0x1000_0000_0000_0000,
        out_len <= 0xFFFF_FFFF,
    ensures
        r@ == pbkdf2_of(iterations, password@, salt@, out_len as nat),
        r@.len() == out_len,
{
    let mut out = vec![0u8; out_len];
    let iters = core::num::NonZeroU32::new(iterations).unwrap();
    ring::pbkdf2::derive(ring::pbkdf2::PBKDF2_HMAC_SHA256, iters, salt, password, &mut out);
    out
}

/// Relies on ring::pbkdf2::verify with PBKDF2_HMAC_SHA256: re-derives under
/// the given salt and compares to the stored material in constant time. Its
/// source succeeds exactly when the stored material is non-empty, short
/// enough for its block counter, and equal to the derivation; the bounds here
/// put the caller inside that range, so the outcome states equality exactly.
#[verifier::external_body]
fn pbkdf2_matches(iterations: u32, password: &[u8], salt: &[u8], stored: &[u8]) -> (r: bool)
    requires
        1 <= iterations,
        password@.len() <= 0x1000_0000_0000_0000,
        salt@.len() <= 0x1000_0000_0000_0000,
        1 <= stored@.len() <= 0xFFFF_FFFF,
    ensures
        r == (stored@ == pbkdf2_of(iterations, password@, salt@, stored@.len())),
{
    let iters = core::num::NonZeroU32::new(iterations).unwrap();
    ring::pbkdf2::verify(ring::pbkdf2::PBKDF2_HMAC_SHA256, iters, salt, password, stored).is_ok()
}

/// Relies on ring::digest::digest with SHA-256: the 32-byte digest of the
/// input, a function of the bytes alone, stated through `sha256_of`. The
/// length bound keeps out the inputs on which ring's digest panics.
#[verifier::external_body]
pub fn hash(to_hash: &[u8]) -> (r: Vec<u8>)
    requires
        to_hash@.len() <= 0x1000_0000_0000_0000,
    ensures
        r@ == sha256_of(to_hash@),
        r@.len() == 32,
{
    ring::digest::digest(&ring::digest::SHA256, to_hash).as_ref().to_vec()
}

/// Relies on hex::encode: two lowercase hexadecimal digits per byte, high
/// nibble first, which is exactly `spec_hex` of the input.
#[verifier::external_body]
pub(crate) fn hex_encode(data: &[u8]) -> (r: String)
    ensures
        r@ == spec_hex(data@),
{
    hex::encode(data)
}

/// Derives `out_len` bytes from the password under the given salt, at the
/// fixed work factor. Deterministic: identical inputs give identical output.
pub fn pbkdf2_with_salt(password: &[u8], salt: &[u8], out_len: usize) -> (r: Vec<u8>)
    requires
        password@.len() <= 0x1000_0000_0000_0000,
        salt@.len() <= 0x1000_0000_0000_0000,
        out_len <= 0xFFFF_FFFF,
    ensures
        r@ == pbkdf2_of(PBKDF2_ITER, password@, salt@, out_len as nat),
        r@.len() == out_len,
{
    pbkdf2_derive(PBKDF2_ITER, password, salt, out_len)
}

/// Derives `out_len` bytes from the password under a freshly drawn 32-byte
/// salt, returning the derived material together with that salt.
pub fn pbkdf2_rand_salt(password: &[u8], out_len: usize) -> (r: Result<
    (Vec<u8>, Vec<u8>),
    VaultError,
>)
    requires
        password@.len() <= 0x1000_0000_0000_0000,
        out_len <= 0xFFFF_FFFF,
    ensures
        r matches Ok((derived, salt)) ==> {
            &&& derived@ == pbkdf2_of(PBKDF2_ITER, password@, salt@, out_len as nat)
            &&& derived@.len() == out_len
            &&& salt@.len() == SALT_LEN
        },
        r matches Err(e) ==> e == VaultError::RandomnessFailure,
{
    match generate_rand_vec(SALT_LEN) {
        Ok(salt) => {
            let derived = pbkdf2_with_salt(password, salt.as_slice(), out_len);
            Ok((derived, salt))
        },
        Err(e) => Err(e),
    }
}

/// Password verification accepts its own creation: material that is the
/// derivation of a password under a salt — which is what `pbkdf2_rand_salt`
/// returns for any of its output lengths — meets exactly the condition under
/// which `pbkdf2_verify` succeeds for that password and salt.
pub proof fn lemma_verifier_accepts_own(
    password: Seq<u8>,
    salt: Seq<u8>,
    derived: Seq<u8>,
    out_len: nat,
)
    requires
        derived == pbkdf2_of(PBKDF2_ITER, password, salt, out_len),
        derived.len() == out_len,
        1 <= out_len <= 0xFFFF_FFFF,
    ensures
        1 <= derived.len() <= 0xFFFF_FFFF,
        derived == pbkdf2_of(PBKDF2_ITER, password, salt, derived.len()),
{
}

/// Checks a password against previously derived material and its salt, at the
/// fixed work factor. A mismatch is an expected outcome, not a fault: it is
/// the typed failure `AuthenticationFailed`. Material that is empty or longer
/// than the derivation can produce is refused the same way.
pub fn pbkdf2_verify(password: &[u8], stored: &[u8], salt: &[u8]) -> (r: Result<(), VaultError>)
    requires
        password@.len() <= 0x1000_0000_0000_0000,
        salt@.len() <= 0x1000_0000_0000_0000,
    ensures
        r matches Ok(v) <==> {
            &&& 1 <= stored@.len() <= 0xFFFF_FFFF
            &&& stored@ == pbkdf2_of(PBKDF2_ITER, password@, salt@, stored@.len())
        },
        r matches Err(e) ==> e == VaultError::AuthenticationFailed,
{
    if stored.len() < 1 || stored.len() > 0xFFFF_FFFF {
        return Err(VaultError::AuthenticationFailed);
    }
    if pbkdf2_matches(PBKDF2_ITER, password, salt, stored) {
        Ok(())
    } else {
        Err(VaultError::AuthenticationFailed)
    }
}

} // verus!
