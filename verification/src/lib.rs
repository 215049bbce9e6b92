//! Credential vault core: password-based key derivation, password
//! verification, authenticated encryption of the vault blob, the in-memory
//! credential collection, and the account orchestration over a persistence
//! collaborator.

use vstd::prelude::*;

pub mod aead;
pub mod credentials;
pub mod hash;
pub mod rand;
pub mod user;
pub mod vault_codec;

verus! {

/// Typed failures of the vault core.
///
/// Lookup and cryptographic failures are deliberately conflated where the
/// design demands it (an unknown user and a wrong password both surface as
/// `AuthenticationFailed`), so that no caller can tell which sub-check failed.
#[derive(Clone, Copy, Debug, PartialEq, Eq, Structural)]
pub enum VaultError {
    /// A signup or rename collides with an existing account's fingerprint.
    DuplicateUsername,
    /// Unknown user, wrong password, or an envelope that fails to open.
    AuthenticationFailed,
    /// A malformed, truncated or tampered envelope blob.
    CorruptEnvelope,
    /// A vault index outside `0 .. len`.
    IndexOutOfRange,
    /// The entropy source could not fill a buffer.
    RandomnessFailure,
    /// The persistence collaborator refused an insert or update.
    PersistenceFailure,
    /// A username holding the reserved delimiter character.
    InvalidUsername,
}

} // verus!
