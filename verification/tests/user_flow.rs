//! The account layer end to end, with the persistence collaborator played by
//! plain local values: signup, login, vault changes, save, and the failure
//! paths the design promises.

use jpassword::VaultError;
use jpassword::user::{StoredUser, User, username_fingerprint};

#[test]
fn end_to_end_scenario() {
    // Create user "alice"/"pw1": the vault starts empty.
    let (alice, row) = User::create("alice".to_string(), "pw1".to_string(), false).unwrap();
    assert_eq!(alice.username, "alice".to_string());
    assert_eq!(alice.credentials.credentials.len(), 0);
    assert_eq!(row.hash, username_fingerprint("alice"));
    assert_eq!(row.password.len(), 256);
    assert_eq!(row.salt.len(), 32);

    // The store assigns a row key at insert.
    let mut alice = alice.with_id(1);
    assert_eq!(alice.id(), 1);

    // Add a credential and save: a fresh record comes back for the same row.
    alice.credentials.create(
        "site".to_string(),
        "http://x".to_string(),
        "a".to_string(),
        "p".to_string(),
    );
    let row2 = alice.save(false).unwrap();
    assert_eq!(row2.id, 1);
    assert_eq!(row2.hash, username_fingerprint("alice"));

    // Login with the right password returns the same single-entry vault.
    let stored = StoredUser {
        id: row2.id,
        hash: row2.hash.clone(),
        password: row2.password.clone(),
        salt: row2.salt.clone(),
        data: row2.data.clone(),
    };
    let back = User::login("alice".to_string(), "pw1".to_string(), Some(stored)).unwrap();
    assert_eq!(back.id(), 1);
    assert_eq!(back.credentials.credentials.len(), 1);
    let entry = &back.credentials.credentials[0];
    assert_eq!(entry.name, "site".to_string());
    assert_eq!(entry.url, "http://x".to_string());
    assert_eq!(entry.username, "a".to_string());
    assert_eq!(entry.password, "p".to_string());

    // Login with the wrong password fails as AuthenticationFailed.
    let stored = StoredUser {
        id: row2.id,
        hash: row2.hash.clone(),
        password: row2.password.clone(),
        salt: row2.salt.clone(),
        data: row2.data.clone(),
    };
    assert!(matches!(
        User::login("alice".to_string(), "wrong".to_string(), Some(stored)),
        Err(VaultError::AuthenticationFailed)
    ));

    // Delete the entry and save: a later login sees the empty vault again.
    let mut back = back;
    back.credentials.delete(0).unwrap();
    let row3 = back.save(false).unwrap();
    let final_user = User::login("alice".to_string(), "pw1".to_string(), Some(row3)).unwrap();
    assert_eq!(final_user.credentials.credentials.len(), 0);
}

#[test]
fn duplicate_username_scenario() {
    let first = User::create("bob".to_string(), "pw".to_string(), false);
    assert!(first.is_ok());
    // A second signup finds the fingerprint taken.
    assert!(matches!(
        User::create("bob".to_string(), "anything".to_string(), true),
        Err(VaultError::DuplicateUsername)
    ));
}

#[test]
fn reserved_delimiter_is_rejected() {
    assert!(matches!(
        User::create("a:b".to_string(), "pw".to_string(), false),
        Err(VaultError::InvalidUsername)
    ));
    // The delimiter check comes before the uniqueness check.
    assert!(matches!(
        User::create(":".to_string(), "pw".to_string(), true),
        Err(VaultError::InvalidUsername)
    ));
}

#[test]
fn login_of_unknown_user_fails() {
    assert!(matches!(
        User::login("nobody".to_string(), "pw".to_string(), None),
        Err(VaultError::AuthenticationFailed)
    ));
}

#[test]
fn login_rejects_a_foreign_or_damaged_row() {
    let (_, row) = User::create("carol".to_string(), "pw".to_string(), false).unwrap();
    // Verifier material of the wrong shape.
    let bad = StoredUser {
        id: row.id,
        hash: row.hash.clone(),
        password: Vec::new(),
        salt: row.salt.clone(),
        data: row.data.clone(),
    };
    assert!(matches!(
        User::login("carol".to_string(), "pw".to_string(), Some(bad)),
        Err(VaultError::AuthenticationFailed)
    ));
    // A truncated envelope.
    let bad = StoredUser {
        id: row.id,
        hash: row.hash.clone(),
        password: row.password.clone(),
        salt: row.salt.clone(),
        data: row.data[..10].to_vec(),
    };
    assert!(matches!(
        User::login("carol".to_string(), "pw".to_string(), Some(bad)),
        Err(VaultError::AuthenticationFailed)
    ));
}

#[test]
fn save_refuses_a_rename_collision() {
    let (user, _) = User::create("dave".to_string(), "pw".to_string(), false).unwrap();
    assert!(matches!(user.save(true), Err(VaultError::DuplicateUsername)));
}

#[test]
fn create_and_save_use_fresh_salts_and_envelopes() {
    let (user, row1) = User::create("erin".to_string(), "pw".to_string(), false).unwrap();
    let row2 = user.save(false).unwrap();
    let row3 = user.save(false).unwrap();
    assert_ne!(row1.salt, row2.salt);
    assert_ne!(row2.salt, row3.salt);
    assert_ne!(row1.data, row2.data);
    assert_ne!(row2.data, row3.data);
    assert_ne!(row2.password, row3.password);
    assert_eq!(row2.hash, row3.hash);
}
