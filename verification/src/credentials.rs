//! The in-memory credential vault: an ordered sequence of credentials with
//! index-addressed update and delete. Pure data structure, no crypto.

use vstd::prelude::*;

use crate::VaultError;

verus! {

/// A user's credential for another application: four opaque strings.
pub struct Credential {
    /// The display name of the credential.
    pub name: String,
    /// The url it belongs to.
    pub url: String,
    /// The username for that site.
    pub username: String,
    /// The password for that site.
    pub password: String,
}

/// The mathematical value of a `Credential`: its four strings as character
/// sequences.
pub struct CredentialView {
    /// The display name of the credential.
    pub name: Seq<char>,
    /// The url it belongs to.
    pub url: Seq<char>,
    /// The username for that site.
    pub username: Seq<char>,
    /// The password for that site.
    pub password: Seq<char>,
}

impl View for Credential {
    type V = CredentialView;

    open spec fn view(&self) -> CredentialView {
        CredentialView {
            name: self.name@,
            url: self.url@,
            username: self.username@,
            password: self.password@,
        }
    }
}

/// The ordered list of a user's saved credentials. Insertion order is the
/// display order, and indices are the sole addressing mechanism: there are no
/// stable identifiers, and deleting shifts later indices down by one.
pub struct Credentials {
    /// The credentials, in insertion order.
    pub credentials: Vec<Credential>,
}

impl View for Credentials {
    type V = Seq<CredentialView>;

    open spec fn view(&self) -> Seq<CredentialView> {
        Seq::new(self.credentials@.len(), |i: int| self.credentials@[i]@)
    }
}

impl Credentials {
    /// Creates an empty vault.
    pub fn new() -> (r: Self)
        ensures
            r@ == Seq::<CredentialView>::empty(),
    {
        let r = Credentials { credentials: Vec::new() };
        proof {
            assert(r@ =~= Seq::<CredentialView>::empty());
        }
        r
    }

    /// Appends a new credential. Always succeeds: duplicates by name or url
    /// are permitted, as one site may host several accounts.
    pub fn create(&mut self, name: String, url: String, username: String, password: String)
        ensures
            final(self)@ == old(self)@.push(
                CredentialView { name: name@, url: url@, username: username@, password: password@ },
            ),
    {
        let ghost expected = self@.push(
            CredentialView { name: name@, url: url@, username: username@, password: password@ },
        );
        self.credentials.push(Credential { name, url, username, password });
        proof {
            assert(self@ =~= expected);
        }
    }

    /// Replaces all fields of the entry at `i` in place; every other entry is
    /// untouched. An index outside `0 .. len` fails with `IndexOutOfRange`
    /// and leaves the vault unmodified.
    pub fn update(&mut self, i: usize, new_cred: Credential) -> (r: Result<(), VaultError>)
        ensures
            i < old(self)@.len() ==> r is Ok && final(self)@ == old(self)@.update(
                i as int,
                new_cred@,
            ),
            i >= old(self)@.len() ==> r == Err::<(), VaultError>(VaultError::IndexOutOfRange)
                && final(self)@ == old(self)@,
    {
        if i >= self.credentials.len() {
            return Err(VaultError::IndexOutOfRange);
        }
        let ghost expected = self@.update(i as int, new_cred@);
        self.credentials.remove(i);
        self.credentials.insert(i, new_cred);
        proof {
            assert(self@ =~= expected);
        }
        Ok(())
    }

    /// Removes the entry at `i`; entries after it shift down by one, keeping
    /// their relative order. An index outside `0 .. len` fails with
    /// `IndexOutOfRange` and leaves the vault unmodified.
    pub fn delete(&mut self, i: usize) -> (r: Result<(), VaultError>)
        ensures
            i < old(self)@.len() ==> r is Ok && final(self)@ == old(self)@.remove(i as int)
                && final(self)@.len() == old(self)@.len() - 1,
            i >= old(self)@.len() ==> r == Err::<(), VaultError>(VaultError::IndexOutOfRange)
                && final(self)@ == old(self)@,
    {
        if i >= self.credentials.len() {
            return Err(VaultError::IndexOutOfRange);
        }
        let ghost expected = self@.remove(i as int);
        self.credentials.remove(i);
        proof {
            assert(self@ =~= expected);
        }
        Ok(())
    }
}

} // verus!
