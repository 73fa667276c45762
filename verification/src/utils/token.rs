//! Random tokens for invitations and sessions.

use vstd::prelude::*;

verus! {

/// The number of characters of a token.
pub const TOKEN_LENGTH: usize = 36;

/// Draws a random identifier with `uuid::Uuid::new_v4` and writes it in its
/// hyphenated form, which has 36 characters. Nothing else is claimed of it:
/// two calls give different tokens.
#[verifier::external_body]
fn random_uuid() -> (token: String)
    ensures
        token@.len() == 36,
{
    uuid::Uuid::new_v4().to_string()
}

/// A fresh random token.
pub fn new_token() -> (token: String)
    ensures
        token@.len() == TOKEN_LENGTH,
{
    random_uuid()
}

} // verus!
