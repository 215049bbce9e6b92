//! The envelope and key-derivation layer: round trips, freshness, rejection
//! of wrong passwords, tampering and truncation, and the hash primitives
//! against known values and an independent derivation.

use jpassword::VaultError;
use jpassword::aead::{aead_open, aead_seal, extract_ciphertext_salt_nonce};
use jpassword::hash::{hash, pbkdf2_rand_salt, pbkdf2_verify, pbkdf2_with_salt};
use jpassword::rand::generate_rand_vec;
use jpassword::user::username_fingerprint;

#[test]
fn seal_open_round_trip() {
    let plaintext = b"attack at dawn".to_vec();
    let password = b"correct horse battery staple";
    let blob = aead_seal(&plaintext, password).unwrap();
    assert_eq!(blob.len(), plaintext.len() + 60);
    let opened = aead_open(&blob, password).unwrap();
    assert_eq!(opened, plaintext);
}

#[test]
fn seal_open_round_trip_empty_plaintext() {
    let plaintext = Vec::new();
    let blob = aead_seal(&plaintext, b"pw").unwrap();
    assert_eq!(blob.len(), 60);
    let opened = aead_open(&blob, b"pw").unwrap();
    assert!(opened.is_empty());
}

#[test]
fn seal_is_nondeterministic() {
    let plaintext = b"same plaintext".to_vec();
    let password = b"same password";
    let blob1 = aead_seal(&plaintext, password).unwrap();
    let blob2 = aead_seal(&plaintext, password).unwrap();
    let (ct1, salt1, nonce1) = extract_ciphertext_salt_nonce(&blob1);
    let (ct2, salt2, nonce2) = extract_ciphertext_salt_nonce(&blob2);
    assert_ne!(salt1, salt2);
    assert_ne!(nonce1, nonce2);
    assert_ne!(ct1, ct2);
}

#[test]
fn wrong_password_is_rejected() {
    let plaintext = b"secrets".to_vec();
    let blob = aead_seal(&plaintext, b"right").unwrap();
    assert_eq!(aead_open(&blob, b"wrong"), Err(VaultError::CorruptEnvelope));
}

// Flips every bit of the bytes `from .. to` of a fresh two-byte envelope's
// ciphertext-with-tag region and expects every flip to be caught. The region
// is walked in two halves by the two tests below, so that each stays well
// inside its time budget: every open pays the full key-derivation work
// factor.
fn expect_bit_flips_caught(from: usize, to: usize) {
    let plaintext = b"hi".to_vec();
    let password = b"pw";
    let blob = aead_seal(&plaintext, password).unwrap();
    assert_eq!(blob.len() - 44, 18);
    for byte_index in from..to {
        for bit in 0..8u8 {
            let mut tampered = blob.clone();
            tampered[byte_index] ^= 1 << bit;
            assert_eq!(
                aead_open(&tampered, password),
                Err(VaultError::CorruptEnvelope),
                "flipping bit {} of byte {} went unnoticed",
                bit,
                byte_index
            );
        }
    }
}

#[test]
fn tamper_detection_bits_of_first_half() {
    expect_bit_flips_caught(0, 9);
}

#[test]
fn tamper_detection_bits_of_second_half() {
    expect_bit_flips_caught(9, 18);
}

#[test]
fn tampered_salt_and_nonce_are_rejected() {
    let plaintext = b"attack at dawn".to_vec();
    let blob = aead_seal(&plaintext, b"pw").unwrap();
    let n = blob.len();
    let mut salt_flip = blob.clone();
    salt_flip[n - 44] ^= 1;
    assert_eq!(aead_open(&salt_flip, b"pw"), Err(VaultError::CorruptEnvelope));
    let mut nonce_flip = blob.clone();
    nonce_flip[n - 12] ^= 1;
    assert_eq!(aead_open(&nonce_flip, b"pw"), Err(VaultError::CorruptEnvelope));
}

#[test]
fn truncated_blobs_fail_deterministically() {
    for len in 0..44 {
        let blob = vec![0xABu8; len];
        assert_eq!(aead_open(&blob, b"pw"), Err(VaultError::CorruptEnvelope));
    }
}

#[test]
fn extract_splits_the_envelope_layout() {
    let mut blob = Vec::new();
    blob.extend_from_slice(&[1u8; 5]);
    blob.extend_from_slice(&[2u8; 32]);
    blob.extend_from_slice(&[3u8; 12]);
    let (ct, salt, nonce) = extract_ciphertext_salt_nonce(&blob);
    assert_eq!(ct, vec![1u8; 5]);
    assert_eq!(salt, vec![2u8; 32]);
    assert_eq!(nonce, vec![3u8; 12]);
}

#[test]
fn verifier_accepts_its_own_password() {
    let (derived, salt) = pbkdf2_rand_salt(b"hunter2", 256).unwrap();
    assert_eq!(derived.len(), 256);
    assert_eq!(salt.len(), 32);
    assert!(pbkdf2_verify(b"hunter2", &derived, &salt).is_ok());
}

#[test]
fn verifier_rejects_other_passwords() {
    let (derived, salt) = pbkdf2_rand_salt(b"hunter2", 256).unwrap();
    assert_eq!(
        pbkdf2_verify(b"hunter3", &derived, &salt),
        Err(VaultError::AuthenticationFailed)
    );
    assert_eq!(pbkdf2_verify(b"", &derived, &salt), Err(VaultError::AuthenticationFailed));
}

#[test]
fn verifier_rejects_empty_material() {
    assert_eq!(pbkdf2_verify(b"pw", b"", b"salt"), Err(VaultError::AuthenticationFailed));
}

#[test]
fn derivation_is_deterministic_in_its_inputs() {
    let a = pbkdf2_with_salt(b"pw", b"salt-a", 32);
    let b = pbkdf2_with_salt(b"pw", b"salt-a", 32);
    let c = pbkdf2_with_salt(b"pw", b"salt-b", 32);
    let d = pbkdf2_with_salt(b"pw2", b"salt-a", 32);
    assert_eq!(a, b);
    assert_ne!(a, c);
    assert_ne!(a, d);
    assert_ne!(a, b"pw".to_vec());
}

#[test]
fn derivation_matches_ring_directly() {
    let mut expected = [0u8; 64];
    ring::pbkdf2::derive(
        ring::pbkdf2::PBKDF2_HMAC_SHA256,
        core::num::NonZeroU32::new(20_000).unwrap(),
        b"some salt",
        b"some password",
        &mut expected,
    );
    let got = pbkdf2_with_salt(b"some password", b"some salt", 64);
    assert_eq!(got, expected.to_vec());
}

#[test]
fn hash_matches_known_sha256_vectors() {
    assert_eq!(
        hash(b"abc"),
        hex::decode("ba7816bf8f01cfea414140de5dae2223b00361a396177a9cb410ff61f20015ad").unwrap()
    );
    assert_eq!(
        hash(b""),
        hex::decode("e3b0c44298fc1c149afbf4c8996fb92427ae41e4649b934ca495991b7852b855").unwrap()
    );
}

#[test]
fn fingerprint_is_lowercase_hex_of_sha256() {
    assert_eq!(
        username_fingerprint("abc"),
        "ba7816bf8f01cfea414140de5dae2223b00361a396177a9cb410ff61f20015ad".to_string()
    );
    assert_eq!(
        username_fingerprint("alice"),
        hex::encode(hash(b"alice"))
    );
}

#[test]
fn random_vectors_have_the_asked_length_and_vary() {
    let a = generate_rand_vec(32).unwrap();
    let b = generate_rand_vec(32).unwrap();
    assert_eq!(a.len(), 32);
    assert_eq!(b.len(), 32);
    assert_ne!(a, b);
    assert!(generate_rand_vec(0).unwrap().is_empty());
}
