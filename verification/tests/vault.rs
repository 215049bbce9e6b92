//! The in-memory credential vault: index-addressed CRUD semantics.

use jpassword::VaultError;
use jpassword::credentials::{Credential, Credentials};

fn cred(name: &str) -> Credential {
    Credential {
        name: name.to_string(),
        url: format!("http://{}", name),
        username: "u".to_string(),
        password: "p".to_string(),
    }
}

fn names(v: &Credentials) -> Vec<String> {
    v.credentials.iter().map(|c| c.name.clone()).collect()
}

#[test]
fn new_vault_is_empty() {
    assert_eq!(Credentials::new().credentials.len(), 0);
}

#[test]
fn create_appends_in_order_and_allows_duplicates() {
    let mut v = Credentials::new();
    v.create("a".to_string(), "u1".to_string(), "n1".to_string(), "p1".to_string());
    v.create("b".to_string(), "u2".to_string(), "n2".to_string(), "p2".to_string());
    v.create("a".to_string(), "u1".to_string(), "n1".to_string(), "p1".to_string());
    assert_eq!(names(&v), vec!["a".to_string(), "b".to_string(), "a".to_string()]);
    assert_eq!(v.credentials[1].url, "u2".to_string());
}

#[test]
fn update_replaces_in_place() {
    let mut v = Credentials { credentials: vec![cred("a"), cred("b"), cred("c")] };
    assert!(v.update(1, cred("beta")).is_ok());
    assert_eq!(names(&v), vec!["a".to_string(), "beta".to_string(), "c".to_string()]);
    assert_eq!(v.credentials[1].url, "http://beta".to_string());
}

#[test]
fn update_out_of_range_leaves_vault_unmodified() {
    let mut v = Credentials { credentials: vec![cred("a"), cred("b")] };
    assert_eq!(v.update(2, cred("x")), Err(VaultError::IndexOutOfRange));
    assert_eq!(v.update(100, cred("x")), Err(VaultError::IndexOutOfRange));
    assert_eq!(names(&v), vec!["a".to_string(), "b".to_string()]);
}

#[test]
fn delete_shifts_later_entries_down() {
    let mut v = Credentials { credentials: vec![cred("a"), cred("b"), cred("c"), cred("d")] };
    assert!(v.delete(1).is_ok());
    assert_eq!(names(&v), vec!["a".to_string(), "c".to_string(), "d".to_string()]);
    assert!(v.delete(0).is_ok());
    assert_eq!(names(&v), vec!["c".to_string(), "d".to_string()]);
    assert!(v.delete(1).is_ok());
    assert_eq!(names(&v), vec!["c".to_string()]);
}

#[test]
fn delete_out_of_range_leaves_vault_unmodified() {
    let mut v = Credentials { credentials: vec![cred("a")] };
    assert_eq!(v.delete(1), Err(VaultError::IndexOutOfRange));
    assert_eq!(names(&v), vec!["a".to_string()]);
    let mut empty = Credentials::new();
    assert_eq!(empty.delete(0), Err(VaultError::IndexOutOfRange));
    assert_eq!(empty.credentials.len(), 0);
}
