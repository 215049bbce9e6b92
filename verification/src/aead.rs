//! The authenticated envelope: sealing and opening arbitrary plaintext under
//! a key derived purely from a password, with no key stored anywhere.
//!
//! Envelope byte layout, exact for persistence:
//! the leading bytes are the ciphertext with its 16-byte tag, the next-to-last
//! 32 bytes are the salt, and the last 12 bytes are the nonce.

use vstd::prelude::*;
use vstd::slice::{slice_subrange, slice_to_vec};

use crate::VaultError;
use crate::hash::{PBKDF2_ITER, SALT_LEN, pbkdf2_of, pbkdf2_rand_salt, pbkdf2_with_salt};
use crate::rand::generate_rand_vec;

verus! {

/// The nonce length of the AEAD cipher, fixed at 12 bytes.
pub const NONCE_LEN: usize = 12;

/// The authentication tag length of the AEAD cipher, fixed at 16 bytes.
pub const TAG_LEN: usize = 16;

/// The AEAD key length, fixed at 32 bytes.
pub const KEY_LEN: usize = 32;

/// The salt and nonce trailer of every envelope: 44 bytes. A blob shorter
/// than this cannot be an envelope and is rejected outright.
pub const TRAILER_LEN: usize = 44;

/// What AES-256-GCM produces for a key, nonce and plaintext (no associated
/// data): the ciphertext with its 16-byte tag appended. Encryption is
/// deterministic in these three arguments, so its bytes are a function of
/// them alone, named here and spoken for only by the trusted items below.
pub uninterp spec fn aes_gcm_seal(key: Seq<u8>, nonce: Seq<u8>, plaintext: Seq<u8>) -> Seq<u8>;

/// The salt of an envelope blob: the 32 bytes before the trailing nonce.
pub open spec fn envelope_salt(blob: Seq<u8>) -> Seq<u8>
    recommends
        blob.len() >= TRAILER_LEN,
{
    blob.subrange(blob.len() - 44, blob.len() - 12)
}

/// The nonce of an envelope blob: its trailing 12 bytes.
pub open spec fn envelope_nonce(blob: Seq<u8>) -> Seq<u8>
    recommends
        blob.len() >= TRAILER_LEN,
{
    blob.subrange(blob.len() - 12, blob.len() as int)
}

/// The ciphertext (with tag) of an envelope blob: all bytes before the salt.
pub open spec fn envelope_ciphertext(blob: Seq<u8>) -> Seq<u8>
    recommends
        blob.len() >= TRAILER_LEN,
{
    blob.subrange(0, blob.len() - 44)
}

/// The envelope relation: `blob` is a sealing of `plaintext` under
/// `password`. Its ciphertext region is AES-256-GCM of the plaintext under
/// the key derived from the password and the blob's own salt, with the blob's
/// own nonce.
pub open spec fn is_sealed_of(blob: Seq<u8>, plaintext: Seq<u8>, password: Seq<u8>) -> bool {
    &&& blob.len() >= TRAILER_LEN
    &&& envelope_ciphertext(blob) == aes_gcm_seal(
        pbkdf2_of(PBKDF2_ITER, password, envelope_salt(blob), KEY_LEN as nat),
        envelope_nonce(blob),
        plaintext,
    )
}

/// Relies on ring::aead with AES_256_GCM (UnboundKey::new,
/// Nonce::try_assume_unique_for_key, LessSafeKey::seal_in_place_append_tag):
/// encrypts the plaintext in place under the key and nonce, with no
/// associated data, and appends the 16-byte tag. It refuses only a plaintext
/// beyond the cipher's input limit; the result on success is the
/// deterministic `aes_gcm_seal` of the arguments.
#[verifier::external_body]
fn aes256_gcm_seal_bytes(key: &[u8], nonce: &[u8], plaintext: &Vec<u8>) -> (r: Option<Vec<u8>>)
    requires
        key@.len() == KEY_LEN,
        nonce@.len() == NONCE_LEN,
    ensures
        r matches Some(c) ==> {
            &&& c@ == aes_gcm_seal(key@, nonce@, plaintext@)
            &&& c@.len() == plaintext@.len() + TAG_LEN
        },
{
    let ukey = ring::aead::UnboundKey::new(&ring::aead::AES_256_GCM, key).ok()?;
    let n = ring::aead::Nonce::try_assume_unique_for_key(nonce).ok()?;
    let k = ring::aead::LessSafeKey::new(ukey);
    let mut buf = plaintext.clone();
    k.seal_in_place_append_tag(n, ring::aead::Aad::empty(), &mut buf).ok()?;
    Some(buf)
}

/// Relies on ring::aead with AES_256_GCM (LessSafeKey::open_in_place):
/// verifies the tag and decrypts in place. Under a fixed key and nonce,
/// AES-256-GCM is a bijection between plaintexts and tagged ciphertexts, so
/// opening succeeds exactly on the images of sealing and returns the one
/// plaintext whose seal is the input.
#[verifier::external_body]
fn aes256_gcm_open_bytes(key: &[u8], nonce: &[u8], ciphertext: &Vec<u8>) -> (r: Option<Vec<u8>>)
    requires
        key@.len() == KEY_LEN,
        nonce@.len() == NONCE_LEN,
    ensures
        r matches Some(p) ==> {
            &&& ciphertext@ == aes_gcm_seal(key@, nonce@, p@)
            &&& forall|q: Seq<u8>| aes_gcm_seal(key@, nonce@, q) == ciphertext@ ==> q == p@
        },
        r is None ==> forall|q: Seq<u8>| aes_gcm_seal(key@, nonce@, q) != ciphertext@,
{
    let ukey = ring::aead::UnboundKey::new(&ring::aead::AES_256_GCM, key).ok()?;
    let n = ring::aead::Nonce::try_assume_unique_for_key(nonce).ok()?;
    let k = ring::aead::LessSafeKey::new(ukey);
    let mut buf = ciphertext.clone();
    let plain = k.open_in_place(n, ring::aead::Aad::empty(), &mut buf).ok()?;
    Some(plain.to_vec())
}

/// Splits an envelope blob into its ciphertext-with-tag, salt and nonce.
pub fn extract_ciphertext_salt_nonce(blob: &Vec<u8>) -> (r: (Vec<u8>, Vec<u8>, Vec<u8>))
    requires
        blob@.len() >= TRAILER_LEN,
    ensures
        r.0@ == envelope_ciphertext(blob@),
        r.1@ == envelope_salt(blob@),
        r.2@ == envelope_nonce(blob@),
{
    let n = blob.len();
    let ciphertext = slice_to_vec(slice_subrange(blob.as_slice(), 0, n - 44));
    let salt = slice_to_vec(slice_subrange(blob.as_slice(), n - 44, n - 12));
    let nonce = slice_to_vec(slice_subrange(blob.as_slice(), n - 12, n));
    (ciphertext, salt, nonce)
}

/// Seals `plaintext` under a key derived purely from `password`.
///
/// Every invocation draws a fresh 32-byte salt for the key derivation and a
/// fresh 12-byte nonce; reusing a nonce under one key would break the AEAD's
/// guarantees, so neither is ever reused or supplied by the caller. The
/// result is the ciphertext-with-tag, then the salt, then the nonce.
pub fn aead_seal(plaintext: &Vec<u8>, password: &[u8]) -> (r: Result<Vec<u8>, VaultError>)
    requires
        password@.len() <= 0x1000_0000_0000_0000,
    ensures
        r matches Ok(blob) ==> {
            &&& is_sealed_of(blob@, plaintext@, password@)
            &&& blob@.len() == plaintext@.len() + 60
        },
        r matches Err(e) ==> e == VaultError::RandomnessFailure || e == VaultError::CorruptEnvelope,
{
    let (key, salt) = match pbkdf2_rand_salt(password, KEY_LEN) {
        Ok(p) => p,
        Err(e) => return Err(e),
    };
    let nonce = match generate_rand_vec(NONCE_LEN) {
        Ok(v) => v,
        Err(e) => return Err(e),
    };
    let mut blob = match aes256_gcm_seal_bytes(key.as_slice(), nonce.as_slice(), plaintext) {
        Some(c) => c,
        None => return Err(VaultError::CorruptEnvelope),
    };
    blob.extend_from_slice(salt.as_slice());
    blob.extend_from_slice(nonce.as_slice());
    proof {
        assert(envelope_ciphertext(blob@) =~= aes_gcm_seal(key@, nonce@, plaintext@));
        assert(envelope_salt(blob@) =~= salt@);
        assert(envelope_nonce(blob@) =~= nonce@);
    }
    Ok(blob)
}

/// Opens an envelope blob with the password that sealed it.
///
/// Succeeds exactly when the blob is a sealing of some plaintext under this
/// password, and then returns that one plaintext; so for every plaintext P
/// and password W, opening a sealing of P under W yields P. A truncated or
/// malformed blob, a tampered ciphertext or tag, and a wrong password (which
/// derives a different key) all surface as the single `CorruptEnvelope`
/// failure, deliberately indistinguishable from one another.
pub fn aead_open(blob: &Vec<u8>, password: &[u8]) -> (r: Result<Vec<u8>, VaultError>)
    requires
        password@.len() <= 0x1000_0000_0000_0000,
    ensures
        r matches Ok(p) ==> is_sealed_of(blob@, p@, password@),
        r matches Ok(p) ==> forall|q: Seq<u8>| is_sealed_of(blob@, q, password@) ==> q == p@,
        (r is Err) <==> (forall|q: Seq<u8>| !is_sealed_of(blob@, q, password@)),
        r matches Err(e) ==> e == VaultError::CorruptEnvelope,
        blob@.len() < TRAILER_LEN ==> r is Err,
{
    if blob.len() < 44 {
        return Err(VaultError::CorruptEnvelope);
    }
    let (ciphertext, salt, nonce) = extract_ciphertext_salt_nonce(blob);
    let key = pbkdf2_with_salt(password, salt.as_slice(), KEY_LEN);
    match aes256_gcm_open_bytes(key.as_slice(), nonce.as_slice(), &ciphertext) {
        Some(p) => {
            proof {
                assert(is_sealed_of(blob@, p@, password@));
            }
            Ok(p)
        },
        None => {
            proof {
                assert forall|q: Seq<u8>| !is_sealed_of(blob@, q, password@) by {
                    assert(aes_gcm_seal(key@, nonce@, q) != ciphertext@);
                }
            }
            Err(VaultError::CorruptEnvelope)
        },
    }
}

} // verus!
