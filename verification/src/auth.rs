//! Password credential handling: deriving a salted, iterated hash and
//! verifying a password against a stored record, plus the provider that ties
//! the two to a credential store.

use crate::crypto::{derived_key, pbkdf2_derive, pbkdf2_verify, random_bytes, CREDENTIAL_LEN};
use crate::hex::{
    hex_decode, hex_encode, hex_of, hex_val_of, is_hex_seq, lemma_hex_of_is_hex_seq,
    lemma_hex_round_trip, lemma_hex_seq_is_ascii, lemma_hex_val_len,
};
use crate::repo::user_account::{Creds, CredsView, UserAccountRepo};
use crate::token::{token_bytes, TokenProvider};
use crate::INPUT_LEN_LIMIT;
use vstd::prelude::*;
use vstd::string::StringSliceAdditionalSpecFns;
use vstd::utf8::{encode_utf8, is_ascii_chars_encode_utf8};

verus! {

/// Why a password was not accepted.
#[derive(Debug, Clone, Copy, PartialEq, Eq, Structural)]
pub enum VerifyError {
    /// The supplied password is wrong. Deliberately low-detail: it never
    /// reveals whether the account exists or has credentials at all.
    IncorrectCredential,
    /// The stored record failed to decode. A data-integrity problem, kept
    /// distinct from a wrong password so that corruption is never mistaken
    /// for user error.
    CorruptRecord,
}

/// An internal failure while handling credentials: the secure random source
/// or the credential store failed. Surfaced as an opaque server-side error,
/// never as an authentication outcome.
#[derive(Debug, Clone, Copy, PartialEq, Eq, Structural)]
pub enum InternalError {
    Entropy,
    Store,
}

/// A string the hex decoder accepts, within the size bound below which the
/// codecs are documented not to panic.
pub open spec fn hex_ok(s: Seq<char>) -> bool {
    is_hex_seq(s) && s.len() <= INPUT_LEN_LIMIT
}

/// The credential record that deriving from `password` with `salt` produces:
/// both the derived key and the salt, as lowercase hex.
pub open spec fn spec_creds_of(salt: Seq<u8>, password: Seq<char>) -> CredsView {
    CredsView {
        password_hash: hex_of(derived_key(salt, encode_utf8(password))),
        salt: hex_of(salt),
    }
}

/// The outcome verifying `password` against a stored record owes: a decode
/// failure is a corrupt record; otherwise the password is accepted exactly
/// when the stored hash is the key derived from the stored salt and the
/// password.
pub open spec fn spec_verify_creds(password: Seq<char>, c: CredsView) -> Result<(), VerifyError> {
    if !(hex_ok(c.password_hash) && hex_ok(c.salt)) {
        Err(VerifyError::CorruptRecord)
    } else {
        let h = hex_val_of(c.password_hash);
        if h.len() == CREDENTIAL_LEN && h == derived_key(
            hex_val_of(c.salt),
            encode_utf8(password),
        ) {
            Ok(())
        } else {
            Err(VerifyError::IncorrectCredential)
        }
    }
}

/// Derives the credential record for `password` from an already-drawn salt.
/// The part of credential creation that is a pure function of its inputs.
pub fn creds_from_salt(salt: &[u8], password: &str) -> (r: Creds)
    requires
        salt@.len() == CREDENTIAL_LEN,
        password.spec_bytes().len() <= INPUT_LEN_LIMIT,
    ensures
        r@ == spec_creds_of(salt@, password@),
{
    let hash = pbkdf2_derive(salt, password.as_bytes());
    proof {
        assert(hash@ == derived_key(salt@, encode_utf8(password@)));
    }
    let password_hash = hex_encode(hash.as_slice());
    let salt_hex = hex_encode(salt);
    Creds { password_hash, salt: salt_hex }
}

/// Derives a credential record for `password` under a fresh random salt of
/// the digest length. Fails only if the secure random source does.
pub fn create_creds(password: &str) -> (r: Result<Creds, InternalError>)
    requires
        password.spec_bytes().len() <= INPUT_LEN_LIMIT,
    ensures
        r matches Ok(c) ==> exists|salt: Seq<u8>|
            salt.len() == CREDENTIAL_LEN && c@ == spec_creds_of(salt, password@),
{
    let salt = match random_bytes(CREDENTIAL_LEN) {
        Some(s) => s,
        None => {
            return Err(InternalError::Entropy);
        },
    };
    let c = creds_from_salt(salt.as_slice(), password);
    proof {
        assert(salt@.len() == CREDENTIAL_LEN && c@ == spec_creds_of(salt@, password@));
    }
    Ok(c)
}

/// Verifies `password` against a stored credential record. Decode problems
/// are reported as `CorruptRecord`; a mismatching password as
/// `IncorrectCredential`. The underlying comparison is constant-time.
pub fn verify_password(password: &str, creds: &Creds) -> (r: Result<(), VerifyError>)
    requires
        password.spec_bytes().len() <= INPUT_LEN_LIMIT,
    ensures
        r == spec_verify_creds(password@, creds@),
{
    let hash_byte_len = creds.password_hash.as_str().as_bytes().len();
    let salt_byte_len = creds.salt.as_str().as_bytes().len();
    if hash_byte_len > INPUT_LEN_LIMIT || salt_byte_len > INPUT_LEN_LIMIT {
        proof {
            if is_hex_seq(creds.password_hash@) {
                lemma_hex_seq_is_ascii(creds.password_hash@);
                is_ascii_chars_encode_utf8(creds.password_hash@);
            }
            if is_hex_seq(creds.salt@) {
                lemma_hex_seq_is_ascii(creds.salt@);
                is_ascii_chars_encode_utf8(creds.salt@);
            }
        }
        return Err(VerifyError::CorruptRecord);
    }
    let hash = match hex_decode(creds.password_hash.as_str()) {
        Some(h) => h,
        None => {
            return Err(VerifyError::CorruptRecord);
        },
    };
    let salt = match hex_decode(creds.salt.as_str()) {
        Some(s) => s,
        None => {
            return Err(VerifyError::CorruptRecord);
        },
    };
    proof {
        lemma_hex_seq_is_ascii(creds.password_hash@);
        is_ascii_chars_encode_utf8(creds.password_hash@);
        lemma_hex_seq_is_ascii(creds.salt@);
        is_ascii_chars_encode_utf8(creds.salt@);
        lemma_hex_val_len(creds.salt@);
    }
    if hash.len() != CREDENTIAL_LEN {
        return Err(VerifyError::IncorrectCredential);
    }
    if pbkdf2_verify(salt.as_slice(), password.as_bytes(), hash.as_slice()) {
        Ok(())
    } else {
        Err(VerifyError::IncorrectCredential)
    }
}

/// Verifying a password against credentials freshly derived from it succeeds,
/// whatever salt the derivation drew.
pub proof fn lemma_verify_of_derived(salt: Seq<u8>, password: Seq<char>)
    requires
        salt.len() == CREDENTIAL_LEN,
    ensures
        spec_verify_creds(password, spec_creds_of(salt, password)) == Ok::<(), VerifyError>(()),
{
    let dk = derived_key(salt, encode_utf8(password));
    lemma_hex_of_is_hex_seq(dk);
    lemma_hex_round_trip(dk);
    lemma_hex_of_is_hex_seq(salt);
    lemma_hex_round_trip(salt);
}

/// A password other than the one a record was derived from is rejected as
/// `IncorrectCredential` — never as a decode failure — as long as the two
/// passwords do not collide in the derived key, which the iterated hash's
/// design makes astronomically unlikely.
pub proof fn lemma_verify_wrong_password(salt: Seq<u8>, password: Seq<char>, attempt: Seq<char>)
    requires
        salt.len() == CREDENTIAL_LEN,
        spec_creds_of(salt, attempt).password_hash != spec_creds_of(salt, password).password_hash,
    ensures
        spec_verify_creds(attempt, spec_creds_of(salt, password)) == Err::<(), VerifyError>(
            VerifyError::IncorrectCredential,
        ),
{
    let dk = derived_key(salt, encode_utf8(password));
    lemma_hex_of_is_hex_seq(dk);
    lemma_hex_round_trip(dk);
    lemma_hex_of_is_hex_seq(salt);
    lemma_hex_round_trip(salt);
}

/// The outcome `AuthProvider::verify_password` owes, given the store's
/// credential records: an account with no record accepts exactly the empty
/// password (the bootstrap state); otherwise the stored record decides.
pub open spec fn spec_provider_verify(
    creds: Map<Seq<char>, CredsView>,
    user_account_id: Seq<char>,
    password: Seq<char>,
) -> Result<(), VerifyError> {
    if !creds.contains_key(user_account_id) {
        if password.len() == 0 {
            Ok(())
        } else {
            Err(VerifyError::IncorrectCredential)
        }
    } else {
        spec_verify_creds(password, creds[user_account_id])
    }
}

/// Why a login was refused. Only a wrong credential is told to the caller;
/// everything else is an opaque internal failure.
#[derive(Debug, Clone, Copy, PartialEq, Eq, Structural)]
pub enum LoginError {
    /// Wrong password, or no such account. Deliberately not told apart.
    IncorrectCredential,
    /// The store, the random source or a corrupt record failed the login.
    Internal,
}

/// Orchestrates password checking and setting over an abstract credential
/// store.
pub struct AuthProvider<S: UserAccountRepo> {
    pub user_account_repo: S,
}

impl<S: UserAccountRepo> AuthProvider<S> {
    /// Checks `password` for the account. An account that never had a
    /// password set accepts exactly the empty password; store failures are
    /// surfaced as internal errors, never as authentication outcomes.
    pub fn verify_password(&self, user_account_id: &str, password: &str) -> (r: Result<
        Result<(), VerifyError>,
        InternalError,
    >)
        requires
            password.spec_bytes().len() <= INPUT_LEN_LIMIT,
        ensures
            r matches Ok(v) ==> v == spec_provider_verify(
                self.user_account_repo.creds(),
                user_account_id@,
                password@,
            ),
    {
        let creds_opt = match self.user_account_repo.credentials(user_account_id) {
            Ok(o) => o,
            Err(_) => {
                return Err(InternalError::Store);
            },
        };
        match creds_opt {
            None => {
                if password.is_empty() {
                    Ok(Ok(()))
                } else {
                    Ok(Err(VerifyError::IncorrectCredential))
                }
            },
            Some(c) => Ok(verify_password(password, &c)),
        }
    }

    /// Derives a fresh credential record for `password` and stores it for the
    /// account, replacing any prior record unconditionally.
    pub fn set_password(&mut self, user_account_id: &str, password: &str) -> (r: Result<
        (),
        InternalError,
    >)
        requires
            password.spec_bytes().len() <= INPUT_LEN_LIMIT,
        ensures
            r is Ok ==> exists|salt: Seq<u8>|
                salt.len() == CREDENTIAL_LEN && final(self).user_account_repo.creds() == old(
                    self,
                ).user_account_repo.creds().insert(user_account_id@, spec_creds_of(salt, password@))
                    && final(self).user_account_repo.accounts() == old(
                    self,
                ).user_account_repo.accounts(),
    {
        let creds = match create_creds(password) {
            Ok(c) => c,
            Err(e) => {
                return Err(e);
            },
        };
        match self.user_account_repo.set_creds(user_account_id, creds) {
            Ok(()) => Ok(()),
            Err(_) => Err(InternalError::Store),
        }
    }
}

/// Logs a user in: checks the password against the stored credentials and,
/// on success, issues a bearer token for the account's current access level.
/// An unknown account and a wrong password are refused identically, to
/// resist account enumeration.
pub fn login<S: UserAccountRepo>(
    auth: &AuthProvider<S>,
    tokens: &TokenProvider,
    user_account_id: &str,
    password: &str,
) -> (r: Result<String, LoginError>)
    requires
        password.spec_bytes().len() <= INPUT_LEN_LIMIT,
        user_account_id.spec_bytes().len() <= 0x100_0000,
        tokens.key_bytes().len() <= INPUT_LEN_LIMIT,
    ensures
        r matches Ok(tok) ==> {
            &&& spec_provider_verify(
                auth.user_account_repo.creds(),
                user_account_id@,
                password@,
            ) == Ok::<(), VerifyError>(())
            &&& auth.user_account_repo.accounts().contains_key(user_account_id@)
            &&& encode_utf8(tok@) == token_bytes(
                tokens.key_bytes(),
                user_account_id@,
                auth.user_account_repo.accounts()[user_account_id@].access,
            )
        },
        r matches Err(e) ==> (e == LoginError::IncorrectCredential ==> (spec_provider_verify(
            auth.user_account_repo.creds(),
            user_account_id@,
            password@,
        ) != Ok::<(), VerifyError>(()) || !auth.user_account_repo.accounts().contains_key(
            user_account_id@,
        ))),
{
    match auth.verify_password(user_account_id, password) {
        Err(_) => Err(LoginError::Internal),
        Ok(Err(VerifyError::IncorrectCredential)) => Err(LoginError::IncorrectCredential),
        Ok(Err(VerifyError::CorruptRecord)) => Err(LoginError::Internal),
        Ok(Ok(())) => match auth.user_account_repo.find_one(user_account_id) {
            Err(_) => Err(LoginError::Internal),
            Ok(None) => Err(LoginError::IncorrectCredential),
            Ok(Some(ua)) => Ok(tokens.create_token(user_account_id, ua.access)),
        },
    }
}

} // verus!
