//! Password hashing.

use vstd::prelude::*;
use vstd::string::*;
use vstd::utf8::encode_utf8;
use crate::constants::SALT_COMPONENT;

verus! {

/// Rounds of the key derivation.
pub const PBKDF2_ITERATIONS: u32 = 10000;

/// Bytes of a derived key: the output length of SHA-512.
pub const CREDENTIAL_LEN: usize = 64;

/// The longest salt and the longest password, in bytes, that are hashed.
pub const MAX_INPUT_LEN: usize = 0x4000_0000;

/// Why a password was not hashed.
#[derive(Copy, Clone, Debug, PartialEq, Eq, Structural)]
pub enum HashError {
    /// The handle or the password is longer than `MAX_INPUT_LEN` allows.
    InputTooLong,
}

/// The 64 byte key that PBKDF2 with HMAC-SHA512 derives from a salt and a
/// secret in the given number of rounds, as `ring::pbkdf2::derive` computes it.
pub uninterp spec fn pbkdf2_hmac_sha512(iterations: u32, salt: Seq<u8>, secret: Seq<u8>) -> Seq<u8>;

/// The text that `String::from_utf8_lossy` reads from bytes: their UTF-8
/// decoding, with U+FFFD in place of what is not UTF-8.
pub uninterp spec fn utf8_lossy(bytes: Seq<u8>) -> Seq<char>;

/// Derives a key with `ring::pbkdf2::derive` and the algorithm
/// `PBKDF2_HMAC_SHA512` into a buffer of 64 bytes. The key depends on the
/// rounds, the salt and the secret alone. `derive` panics on no rounds and
/// on inputs too long to be hashed, far beyond the lengths admitted here.
#[verifier::external_body]
fn derive_key(iterations: u32, salt: &Vec<u8>, secret: &[u8]) -> (key: Vec<u8>)
    requires
        iterations > 0,
        salt@.len() <= 0x4000_0000,
        secret@.len() <= 0x4000_0000,
    ensures
        key@ == pbkdf2_hmac_sha512(iterations, salt@, secret@),
        key@.len() == 64,
{
    let mut key = [0u8; ring::digest::SHA512_OUTPUT_LEN];
    ring::pbkdf2::derive(
        ring::pbkdf2::PBKDF2_HMAC_SHA512,
        std::num::NonZeroU32::new(iterations).unwrap(),
        salt,
        secret,
        &mut key,
    );
    key.to_vec()
}

/// Reads bytes as text with `String::from_utf8_lossy`.
#[verifier::external_body]
fn lossy_text(bytes: &Vec<u8>) -> (text: String)
    ensures
        text@ == utf8_lossy(bytes@),
{
    String::from_utf8_lossy(bytes).into_owned()
}

/// Removes every NUL character with `str::replace`.
#[verifier::external_body]
fn without_nul(text: &str) -> (kept: String)
    ensures
        kept@ == text@.filter(|c: char| c != '\0'),
{
    text.replace('\0', "")
}

/// The salt of a handle: the application's salt component, then the bytes
/// of the handle.
pub open spec fn salt_of(handle: Seq<u8>) -> Seq<u8> {
    SALT_COMPONENT@ + handle
}

/// The stored form of a password: the derived key read as text, without
/// its NUL characters.
pub open spec fn stored_form(key: Seq<u8>) -> Seq<char> {
    utf8_lossy(key).filter(|c: char| c != '\0')
}

/// The stored form of `password` for the account `handle`: both are taken
/// by their UTF-8 bytes.
pub open spec fn hashed(handle: Seq<char>, password: Seq<char>) -> Seq<char> {
    stored_form(
        pbkdf2_hmac_sha512(
            PBKDF2_ITERATIONS,
            salt_of(encode_utf8(handle)),
            encode_utf8(password),
        ),
    )
}

/// Whether a handle and a password are short enough, in bytes, to be hashed.
pub open spec fn can_be_hashed(handle: Seq<char>, password: Seq<char>) -> bool {
    encode_utf8(handle).len() <= MAX_INPUT_LEN - 16 && encode_utf8(password).len()
        <= MAX_INPUT_LEN
}

/// The salt of a handle.
pub fn salt(handle: &str) -> (salt: Vec<u8>)
    ensures
        salt@ == salt_of(handle.spec_bytes()),
{
    let mut salt: Vec<u8> = Vec::new();
    let mut i: usize = 0;
    while i < 16
        invariant
            i <= 16,
            salt@ == SALT_COMPONENT@.take(i as int),
        decreases 16 - i,
    {
        salt.push(SALT_COMPONENT[i]);
        assert(SALT_COMPONENT@.take(i + 1) =~= SALT_COMPONENT@.take(i as int).push(
            SALT_COMPONENT@[i as int],
        ));
        i += 1;
    }
    assert(SALT_COMPONENT@.take(16) =~= SALT_COMPONENT@);
    salt.extend_from_slice(handle.as_bytes());
    salt
}

/// The stored form of a derived key.
pub fn credential_text(key: &Vec<u8>) -> (text: String)
    ensures
        text@ == stored_form(key@),
{
    let text = lossy_text(key);
    without_nul(text.as_str())
}

/// Hashes `password` for the account `handle`.
pub fn hash_password(handle: &str, password: &str) -> (outcome: Result<String, HashError>)
    ensures
        outcome is Ok <==> can_be_hashed(handle@, password@),
        outcome is Ok ==> outcome.unwrap()@ == hashed(handle@, password@),
{
    let secret = password.as_bytes();
    if handle.as_bytes().len() > MAX_INPUT_LEN - 16 || secret.len() > MAX_INPUT_LEN {
        return Err(HashError::InputTooLong);
    }
    let salted_handle = salt(handle);
    assert(SALT_COMPONENT@.len() == 16);
    let key = derive_key(PBKDF2_ITERATIONS, &salted_handle, secret);
    Ok(credential_text(&key))
}

/// Whether a hashed password is the stored one.
pub fn password_matches(hashed: &Result<String, HashError>, actual_password: &str) -> (same: bool)
    ensures
        same == (hashed is Ok && hashed.unwrap()@ == actual_password@),
{
    match hashed {
        Ok(password) => {
            let actual = actual_password.to_owned();
            *password == actual
        },
        Err(_) => false,
    }
}

/// Whether `unhashed_attempt` is the password of the account `handle`,
/// whose stored password is `actual_password`.
pub fn verify_passwords(handle: &str, unhashed_attempt: &str, actual_password: &str) -> (same: bool)
    ensures
        same == (can_be_hashed(handle@, unhashed_attempt@) && hashed(handle@, unhashed_attempt@)
            == actual_password@),
{
    let attempt = hash_password(handle, unhashed_attempt);
    password_matches(&attempt, actual_password)
}

} // verus!
