//! Inviting someone to create an account.

use vstd::prelude::*;
use vstd::string::*;
use crate::api::reply::{failure, no_access, Reply, ReplyView, Status};
use crate::constants::INVITATION_EXPIRE_DURATION_SECONDS;
use crate::models::invitation::{
    new_expiration_date, set_invitation_expiration, Invitation, InvitationView,
};
use crate::models::ledger::{Ledger, LedgerView};
use crate::models::user::UserRole;
use crate::utils::req_auth::{request_authentication, token_text};
use crate::utils::token::{new_token, TOKEN_LENGTH};

verus! {

/// The form that invites `handle` with the role stored as `role`.
#[derive(Debug)]
pub struct CreateInvitationBody {
    pub handle: String,
    pub role: i32,
}

/// The address at which an invitation is used.
pub open spec fn url_of(invitation: InvitationView) -> Seq<char> {
    "/signup?hash="@ + invitation.hash + "&handle="@ + invitation.handle
}

/// The answer that names the address of an invitation.
pub open spec fn invited(invitation: InvitationView) -> ReplyView {
    ReplyView {
        status: Status::Found,
        location: None,
        body: "created: "@ + url_of(invitation),
        token: None,
    }
}

/// What inviting someone does and answers, for a fresh hash `hash` and an
/// invitation that is to expire at `expire_date`.
///
/// Where an invitation for the handle is stored, every invitation for the
/// handle expires at the new date, and the answer names the first of them.
/// Else an invitation with the fresh hash is stored, and the answer names it.
pub open spec fn invitation_created(
    ledger: LedgerView,
    allowed: bool,
    handle: Seq<char>,
    role: i32,
    hash: Seq<char>,
    expire_date: int,
) -> (LedgerView, ReplyView) {
    if !allowed {
        (ledger, no_access())
    } else {
        match ledger.invitation_with_handle(handle) {
            Some(invitation) => (
                ledger.with_invitation_expiring(handle, expire_date),
                invited(invitation),
            ),
            None => {
                let invitation = InvitationView {
                    id: 0,
                    hash,
                    handle,
                    expire_date,
                    user_role: UserRole::of_number(role as int),
                };
                if ledger.next_invitation_id >= i32::MAX {
                    (ledger, failure("Internal server error: invitation insertion failed"@))
                } else {
                    (ledger.with_invitation_inserted(invitation), invited(invitation))
                }
            },
        }
    }
}

/// The answer that names the address of an invitation.
fn answer_with(invitation: &Invitation) -> (reply: Reply)
    ensures
        reply@ == invited(invitation@),
{
    let mut body = String::from_str("created: ");
    let url = invitation.to_url();
    body.append(url.as_str());
    Reply { status: Status::Found, location: None, body, token: None }
}

/// Invites someone, for a request with administrator access, with this
/// hash and this expiration date.
pub fn create_invitation_with(
    ledger: &mut Ledger,
    token: Option<&str>,
    form: &CreateInvitationBody,
    hash: String,
    expire_date: i64,
) -> (reply: Reply)
    requires
        old(ledger).wf(),
    ensures
        final(ledger).wf(),
        (final(ledger)@, reply@) == invitation_created(
            old(ledger)@,
            old(ledger)@.grants(token_text(token), UserRole::Admin),
            form.handle@,
            form.role,
            hash@,
            expire_date as int,
        ),
{
    if !request_authentication(ledger, token, UserRole::Admin).has_access() {
        return Reply::no_access();
    }
    match Invitation::get_by_handle(ledger, form.handle.as_str()) {
        Some(invitation) => {
            set_invitation_expiration(ledger, form.handle.as_str(), expire_date);
            answer_with(&invitation)
        },
        None => {
            let invitation = Invitation::issued(
                form.handle.as_str(),
                UserRole::from_number(form.role),
                hash,
                expire_date,
            );
            match Invitation::insert(&invitation, ledger) {
                Ok(()) => answer_with(&invitation),
                Err(_) => Reply::failure("Internal server error: invitation insertion failed"),
            }
        },
    }
}

/// Invites someone, for a request with administrator access, with a fresh
/// random hash and for `INVITATION_EXPIRE_DURATION_SECONDS` from now.
pub fn create_invitation(ledger: &mut Ledger, token: Option<&str>, form: &CreateInvitationBody) -> (reply:
    Reply)
    requires
        old(ledger).wf(),
    ensures
        final(ledger).wf(),
        exists|hash: Seq<char>, expire_date: int|
            hash.len() == TOKEN_LENGTH && expire_date >= INVITATION_EXPIRE_DURATION_SECONDS && (
            final(ledger)@,
            reply@,
        ) == invitation_created(
            old(ledger)@,
            old(ledger)@.grants(token_text(token), UserRole::Admin),
            form.handle@,
            form.role,
            hash,
            expire_date,
        ),
{
    let hash = new_token();
    let expire_date = new_expiration_date();
    let ghost text = hash@;
    let reply = create_invitation_with(ledger, token, form, hash, expire_date);
    proof {
        assert((ledger@, reply@) == invitation_created(
            old(ledger)@,
            old(ledger)@.grants(token_text(token), UserRole::Admin),
            form.handle@,
            form.role,
            text,
            expire_date as int,
        ));
    }
    reply
}

} // verus!
