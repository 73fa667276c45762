//! Removing accounts.

use vstd::prelude::*;
use crate::api::reply::{no_access, redirect, Location, Reply, ReplyView};
use crate::models::ledger::{Ledger, LedgerView};
use crate::models::user::{delete_user_by_id, UserRole};
use crate::utils::req_auth::{request_authentication, token_text};

verus! {

/// The form that removes the account `id`.
#[derive(Debug)]
pub struct DeleteUserBody {
    pub id: i32,
}

/// What removing an account does and answers.
pub open spec fn user_deleted(ledger: LedgerView, allowed: bool, id: i32) -> (
    LedgerView,
    ReplyView,
) {
    if !allowed {
        (ledger, no_access())
    } else {
        (ledger.without_user(id as int), redirect(Location::Users, "deleted"@))
    }
}

/// Removes an account for a request with administrator access.
pub fn delete_user(ledger: &mut Ledger, token: Option<&str>, form: &DeleteUserBody) -> (reply:
    Reply)
    requires
        old(ledger).wf(),
    ensures
        final(ledger).wf(),
        (final(ledger)@, reply@) == user_deleted(
            old(ledger)@,
            old(ledger)@.grants(token_text(token), UserRole::Admin),
            form.id,
        ),
{
    if !request_authentication(ledger, token, UserRole::Admin).has_access() {
        return Reply::no_access();
    }
    delete_user_by_id(ledger, form.id);
    Reply::redirect(Location::Users, "deleted")
}

} // verus!
