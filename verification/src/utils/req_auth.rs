use vstd::prelude::*;
use crate::models::ledger::{Ledger, LedgerView};
use crate::models::user::{User, UserRole};

verus! {

/// Whether a request may go on.
#[derive(Copy, Clone, Debug, PartialEq, Eq, Structural)]
pub enum AuthenticationResult {
    DoesHaveAccess,
    DoesNotHaveAccess,
}

impl AuthenticationResult {
    pub fn has_access(&self) -> (access: bool)
        ensures
            access == (*self == AuthenticationResult::DoesHaveAccess),
    {
        match *self {
            AuthenticationResult::DoesHaveAccess => true,
            AuthenticationResult::DoesNotHaveAccess => false,
        }
    }
}

/// The text of a token that may be missing.
pub open spec fn token_text(token: Option<&str>) -> Option<Seq<char>> {
    match token {
        Some(token) => Some(token@),
        None => None,
    }
}

impl LedgerView {
    /// Whether a request that presents this session token may do what
    /// takes the role `role`: the token is that of an account, and the role
    /// of the first such account is at least `role`.
    pub open spec fn grants(self, token: Option<Seq<char>>, role: UserRole) -> bool {
        match token {
            Some(token) => match self.user_with_token(token) {
                Some(user) => user.role.number() >= role.number(),
                None => false,
            },
            None => false,
        }
    }
}

/// Decides whether a request that presents this session token, if any,
/// may do what takes the role `role`.
pub fn request_authentication(ledger: &Ledger, token: Option<&str>, role: UserRole) -> (result:
    AuthenticationResult)
    ensures
        result == (if ledger@.grants(token_text(token), role) {
            AuthenticationResult::DoesHaveAccess
        } else {
            AuthenticationResult::DoesNotHaveAccess
        }),
{
    let token = match token {
        Some(token) => token,
        None => {
            return AuthenticationResult::DoesNotHaveAccess;
        },
    };
    let user = match User::get_by_token(ledger, token) {
        Some(user) => user,
        None => {
            return AuthenticationResult::DoesNotHaveAccess;
        },
    };
    if !user.is_role_greater_or_equal(role) {
        return AuthenticationResult::DoesNotHaveAccess;
    }
    AuthenticationResult::DoesHaveAccess
}

} // verus!
