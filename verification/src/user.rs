//! The account layer: signup, login and save as decisions over plain values.
//!
//! The persistence collaborator is outside this core: a caller looks rows up
//! by the username fingerprint and passes what it found (or whether a row
//! exists) into these functions, which make every decision and produce the
//! exact record to store. The storage layer should also enforce fingerprint
//! uniqueness atomically; the `taken` pre-checks here only give the fast,
//! friendly rejection.

use vstd::prelude::*;
use vstd::utf8::{encode_scalar, encode_utf8};

use crate::VaultError;
use crate::aead::{aead_open, aead_seal, is_sealed_of};
use crate::credentials::{CredentialView, Credentials};
use crate::hash::{
    PBKDF2_ITER, SALT_LEN, hash, hex_encode, pbkdf2_of, pbkdf2_rand_salt, pbkdf2_verify, sha256_of,
    spec_hex,
};
use crate::vault_codec::{decode_vault, encode_vault, spec_decode_vault, spec_encode_vault};

verus! {

/// The length of the persisted password verifier, fixed across all accounts.
pub const PASSWORD_HASH_LEN: usize = 256;

/// A user account: its storage key, the username, the password held only
/// transiently in memory, and the in-memory vault. The password is never
/// persisted; only salted verification material and the vault envelope are.
pub struct User {
    id: i64,
    /// The username.
    pub username: String,
    /// The password, held only for the duration of a request.
    pub password: String,
    /// The decrypted, in-memory vault.
    pub credentials: Credentials,
}

/// The mathematical value of a `User`.
pub struct UserView {
    /// The storage-assigned row key.
    pub id: int,
    /// The username's characters.
    pub username: Seq<char>,
    /// The password's characters.
    pub password: Seq<char>,
    /// The vault entries.
    pub credentials: Seq<CredentialView>,
}

impl View for User {
    type V = UserView;

    closed spec fn view(&self) -> UserView {
        UserView {
            id: self.id as int,
            username: self.username@,
            password: self.password@,
            credentials: self.credentials@,
        }
    }
}

/// The persisted record for one account, exactly the fields the storage row
/// carries: the row key, the hex fingerprint of the username, the password
/// verifier with its salt, and the vault envelope blob.
pub struct StoredUser {
    /// The storage-assigned row key.
    pub id: i64,
    /// The hex-encoded fingerprint of the username.
    pub hash: String,
    /// The PBKDF2-derived password verifier material.
    pub password: Vec<u8>,
    /// The 32-byte salt of the verifier (distinct from the envelope's salt).
    pub salt: Vec<u8>,
    /// The envelope blob holding the serialized vault.
    pub data: Vec<u8>,
}

/// The non-reversible fingerprint of a username: its SHA-256 digest in
/// lowercase hex. Usernames are looked up by this value, never in plaintext.
pub open spec fn spec_fingerprint(username: Seq<char>) -> Seq<char> {
    spec_hex(sha256_of(encode_utf8(username)))
}

/// A UTF-8 encoding holds at most four bytes per character.
proof fn lemma_encode_utf8_len(s: Seq<char>)
    ensures
        encode_utf8(s).len() <= 4 * s.len(),
    decreases s.len(),
{
    if s.len() > 0 {
        lemma_encode_utf8_len(s.drop_first());
        assert(encode_scalar(s[0] as u32).len() <= 4);
    }
}

/// Computes the hex fingerprint under which an account is stored and looked
/// up.
pub fn username_fingerprint(username: &str) -> (r: String)
    requires
        username@.len() <= 0x0400_0000_0000_0000,
    ensures
        r@ == spec_fingerprint(username@),
{
    proof {
        lemma_encode_utf8_len(username@);
    }
    let digest = hash(username.as_bytes());
    hex_encode(digest.as_slice())
}

/// Whether a string holds the reserved delimiter character.
fn contains_colon(s: &str) -> (r: bool)
    ensures
        r == s@.contains(':'),
{
    let n = s.unicode_len();
    let mut i: usize = 0;
    while i < n
        invariant
            i <= n,
            n == s@.len(),
            forall|t: int| 0 <= t < i ==> s@[t] != ':',
        decreases n - i,
    {
        if s.get_char(i) == ':' {
            proof {
                assert(s@[i as int] == ':');
            }
            return true;
        }
        i += 1;
    }
    proof {
        assert(!s@.contains(':'));
    }
    false
}

/// When a stored row lets a password in: the verifier re-derives to the
/// stored material, and the envelope is a sealing of some decodable vault
/// under that password. Material or salt beyond what the derivation can
/// produce is never accepted.
pub open spec fn login_accepts(rw: StoredUser, password: Seq<char>) -> bool {
    &&& 1 <= rw.password@.len() <= 0xFFFF_FFFF
    &&& rw.salt@.len() <= 0xFFFF_FFFF
    &&& rw.password@ == pbkdf2_of(
        PBKDF2_ITER,
        encode_utf8(password),
        rw.salt@,
        rw.password@.len(),
    )
    &&& exists|pt: Seq<u8>|
        is_sealed_of(rw.data@, pt, encode_utf8(password)) && spec_decode_vault(pt) is Some
}

impl User {
    /// The storage-assigned row key of this account.
    pub fn id(&self) -> (r: i64)
        ensures
            r == self@.id,
    {
        self.id
    }

    /// The same account under the row key that storage assigned at insert.
    pub fn with_id(self, id: i64) -> (r: Self)
        ensures
            r@.id == id,
            r@.username == self@.username,
            r@.password == self@.password,
            r@.credentials == self@.credentials,
    {
        User { id, username: self.username, password: self.password, credentials: self.credentials }
    }

    /// Decides a signup. A username holding the reserved delimiter is
    /// rejected; a fingerprint the store already holds (`taken`) fails with
    /// `DuplicateUsername`. Otherwise the password verifier is derived under
    /// a fresh salt, an empty vault is sealed under the password, and the
    /// authenticated account is returned with the exact record to insert.
    pub fn create(username: String, password: String, taken: bool) -> (r: Result<
        (User, StoredUser),
        VaultError,
    >)
        requires
            username@.len() <= 0x0400_0000_0000_0000,
            password@.len() <= 0x0400_0000_0000_0000,
        ensures
            username@.contains(':') <==> r == Err::<(User, StoredUser), VaultError>(
                VaultError::InvalidUsername,
            ),
            (!username@.contains(':') && taken) <==> r == Err::<(User, StoredUser), VaultError>(
                VaultError::DuplicateUsername,
            ),
            r matches Ok((user, row)) ==> {
                &&& !username@.contains(':')
                &&& !taken
                &&& user@.id == 0
                &&& user@.username == username@
                &&& user@.password == password@
                &&& user@.credentials == Seq::<CredentialView>::empty()
                &&& row.id == 0
                &&& row.hash@ == spec_fingerprint(username@)
                &&& row.salt@.len() == SALT_LEN
                &&& row.password@ == pbkdf2_of(
                    PBKDF2_ITER,
                    encode_utf8(password@),
                    row.salt@,
                    PASSWORD_HASH_LEN as nat,
                )
                &&& row.password@.len() == PASSWORD_HASH_LEN
                &&& is_sealed_of(
                    row.data@,
                    spec_encode_vault(Seq::empty()),
                    encode_utf8(password@),
                )
            },
            r matches Err(e) ==> e == VaultError::InvalidUsername || e
                == VaultError::DuplicateUsername || e == VaultError::RandomnessFailure || e
                == VaultError::CorruptEnvelope,
    {
        if contains_colon(username.as_str()) {
            return Err(VaultError::InvalidUsername);
        }
        if taken {
            return Err(VaultError::DuplicateUsername);
        }
        let fingerprint = username_fingerprint(username.as_str());
        proof {
            lemma_encode_utf8_len(password@);
        }
        let (verifier, salt) = match pbkdf2_rand_salt(
            password.as_str().as_bytes(),
            PASSWORD_HASH_LEN,
        ) {
            Ok(p) => p,
            Err(e) => return Err(e),
        };
        let creds = Credentials::new();
        let plaintext = encode_vault(&creds);
        let data = match aead_seal(&plaintext, password.as_str().as_bytes()) {
            Ok(d) => d,
            Err(e) => return Err(e),
        };
        let user = User { id: 0, username, password, credentials: creds };
        let row = StoredUser { id: 0, hash: fingerprint, password: verifier, salt, data };
        Ok((user, row))
    }

    /// Decides a login from whatever row the store found under the username's
    /// fingerprint. An absent row, a verifier mismatch, an envelope that does
    /// not open under this password, and a vault that does not decode all
    /// surface as the one `AuthenticationFailed`, so that nothing tells an
    /// unknown user from a wrong password. On success the account carries the
    /// one vault whose sealing the stored envelope is.
    pub fn login(username: String, password: String, row: Option<StoredUser>) -> (r: Result<
        User,
        VaultError,
    >)
        requires
            password@.len() <= 0x0400_0000_0000_0000,
        ensures
            r is Ok <==> (row matches Some(rw) && login_accepts(rw, password@)),
            r matches Ok(user) ==> row matches Some(rw) && {
                &&& user@.id == rw.id
                &&& user@.username == username@
                &&& user@.password == password@
                &&& forall|pt: Seq<u8>|
                    is_sealed_of(rw.data@, pt, encode_utf8(password@)) ==> spec_decode_vault(pt)
                        == Some(user@.credentials)
            },
            r matches Err(e) ==> e == VaultError::AuthenticationFailed,
    {
        let rw = match row {
            Some(rw) => rw,
            None => return Err(VaultError::AuthenticationFailed),
        };
        proof {
            lemma_encode_utf8_len(password@);
        }
        if rw.salt.len() > 0xFFFF_FFFF {
            return Err(VaultError::AuthenticationFailed);
        }
        let checked = pbkdf2_verify(
            password.as_str().as_bytes(),
            rw.password.as_slice(),
            rw.salt.as_slice(),
        );
        if checked.is_err() {
            return Err(VaultError::AuthenticationFailed);
        }
        let plaintext = match aead_open(&rw.data, password.as_str().as_bytes()) {
            Ok(p) => p,
            Err(_) => {
                return Err(VaultError::AuthenticationFailed);
            },
        };
        let creds = match decode_vault(&plaintext) {
            Some(c) => c,
            None => {
                proof {
                    assert forall|pt: Seq<u8>|
                        !(is_sealed_of(rw.data@, pt, encode_utf8(password@))
                            && spec_decode_vault(pt) is Some) by {
                        if is_sealed_of(rw.data@, pt, encode_utf8(password@)) {
                            assert(pt == plaintext@);
                        }
                    }
                }
                return Err(VaultError::AuthenticationFailed);
            },
        };
        proof {
            assert(is_sealed_of(rw.data@, plaintext@, encode_utf8(password@))
                && spec_decode_vault(plaintext@) is Some);
            assert forall|pt: Seq<u8>|
                is_sealed_of(rw.data@, pt, encode_utf8(password@)) implies spec_decode_vault(pt)
                == Some(creds@) by {
                assert(pt == plaintext@);
            }
        }
        Ok(User { id: rw.id, username, password, credentials: creds })
    }

    /// Decides a save of the current in-memory account. A rename that would
    /// collide with another account's fingerprint (`other_taken`) fails with
    /// `DuplicateUsername`. Otherwise a fresh verifier and a fresh envelope —
    /// new salts, new nonce — are derived from the current vault, and the
    /// exact record to write back is returned.
    pub fn save(&self, other_taken: bool) -> (r: Result<StoredUser, VaultError>)
        requires
            self@.username.len() <= 0x0400_0000_0000_0000,
            self@.password.len() <= 0x0400_0000_0000_0000,
        ensures
            other_taken <==> r == Err::<StoredUser, VaultError>(VaultError::DuplicateUsername),
            r matches Ok(row) ==> {
                &&& row.id == self@.id
                &&& row.hash@ == spec_fingerprint(self@.username)
                &&& row.salt@.len() == SALT_LEN
                &&& row.password@ == pbkdf2_of(
                    PBKDF2_ITER,
                    encode_utf8(self@.password),
                    row.salt@,
                    PASSWORD_HASH_LEN as nat,
                )
                &&& row.password@.len() == PASSWORD_HASH_LEN
                &&& is_sealed_of(
                    row.data@,
                    spec_encode_vault(self@.credentials),
                    encode_utf8(self@.password),
                )
            },
            r matches Err(e) ==> e == VaultError::DuplicateUsername
                || e == VaultError::RandomnessFailure || e == VaultError::CorruptEnvelope,
    {
        if other_taken {
            return Err(VaultError::DuplicateUsername);
        }
        let fingerprint = username_fingerprint(self.username.as_str());
        proof {
            lemma_encode_utf8_len(self.password@);
        }
        let (verifier, salt) = match pbkdf2_rand_salt(
            self.password.as_str().as_bytes(),
            PASSWORD_HASH_LEN,
        ) {
            Ok(p) => p,
            Err(e) => return Err(e),
        };
        let plaintext = encode_vault(&self.credentials);
        let data = match aead_seal(&plaintext, self.password.as_str().as_bytes()) {
            Ok(d) => d,
            Err(e) => return Err(e),
        };
        Ok(StoredUser { id: self.id, hash: fingerprint, password: verifier, salt, data })
    }
}

} // verus!
