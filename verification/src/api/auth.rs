//! Creating an account from an invitation, and signing in.

use vstd::prelude::*;
use crate::api::reply::{failure, refusal, Location, Reply, ReplyView, Status};
use crate::constants::USER_TOKEN_EXPIRE_DURATION_SECONDS;
use crate::models::invitation::Invitation;
use crate::models::ledger::{Ledger, LedgerView};
use crate::models::user::{new_expiration_date, set_user_token_until, User};
use crate::utils::crypto::{can_be_hashed, hashed, verify_passwords};
use crate::utils::token::{new_token, TOKEN_LENGTH};

verus! {

/// The form that creates an account.
#[derive(Debug)]
pub struct SignupBody {
    pub handle: String,
    pub password: String,
    pub passwordconfirm: String,
    pub invitation_hash: String,
}

/// The form that signs in.
#[derive(Debug)]
pub struct SigninBody {
    pub handle: String,
    pub password: String,
}

/// What the address of an invitation carries to the page that creates an
/// account.
#[derive(Debug)]
pub struct Info {
    pub handle: String,
    pub hash: String,
}

/// The answer that sends the client on without a text.
pub open spec fn sent_on(location: Location, token: Option<Seq<char>>) -> ReplyView {
    ReplyView { status: Status::Found, location: Some(location), body: Seq::empty(), token }
}

/// What creating an account does and answers.
///
/// The form must carry a handle, a password given twice alike, and the
/// hash of a stored invitation for that handle. The invitation is then
/// used up: the account is stored with the hashed password and the role of
/// the invitation.
pub open spec fn signed_up(
    ledger: LedgerView,
    handle: Seq<char>,
    password: Seq<char>,
    passwordconfirm: Seq<char>,
    invitation_hash: Seq<char>,
) -> (LedgerView, ReplyView) {
    if password.len() == 0 || handle.len() == 0 || invitation_hash.len() == 0 {
        (ledger, refusal("handle, password and invitation hash are required"@))
    } else if password != passwordconfirm {
        (ledger, refusal("passwords do not match"@))
    } else {
        match ledger.invitation_with_hash(invitation_hash) {
            None => (ledger, refusal("no such invitation"@)),
            Some(invitation) => if invitation.handle != handle {
                (ledger, refusal("no such invitation"@))
            } else if !can_be_hashed(handle, password) || ledger.next_user_id >= i32::MAX {
                (ledger, failure("Internal server error: could not use the invitation"@))
            } else {
                (
                    ledger.with_invitation_consumed(invitation, hashed(handle, password)),
                    sent_on(Location::Signin, None),
                )
            },
        }
    }
}

/// Whether a handle and a password are those of a stored account: the
/// first account with the handle stores the hashed password.
pub open spec fn credentials_match(ledger: LedgerView, handle: Seq<char>, password: Seq<char>) -> bool {
    match ledger.user_with_handle(handle) {
        Some(user) => can_be_hashed(handle, password) && hashed(handle, password) == user.password,
        None => false,
    }
}

/// What signing in does and answers, for a session token `token` that is
/// valid until `expire_date`: where the credentials match, the accounts
/// with the handle get the token, and the token is handed to the client.
pub open spec fn signed_in(
    ledger: LedgerView,
    handle: Seq<char>,
    password: Seq<char>,
    token: Seq<char>,
    expire_date: int,
) -> (LedgerView, ReplyView) {
    if credentials_match(ledger, handle, password) {
        (ledger.with_user_token(handle, token, expire_date), sent_on(Location::Home, Some(token)))
    } else {
        (ledger, refusal("user & password do no match"@))
    }
}

/// Creates an account from an invitation.
pub fn signup(ledger: &mut Ledger, form: &SignupBody) -> (reply: Reply)
    requires
        old(ledger).wf(),
    ensures
        final(ledger).wf(),
        (final(ledger)@, reply@) == signed_up(
            old(ledger)@,
            form.handle@,
            form.password@,
            form.passwordconfirm@,
            form.invitation_hash@,
        ),
{
    if form.password.as_str().is_empty() || form.handle.as_str().is_empty()
        || form.invitation_hash.as_str().is_empty() {
        return Reply::refusal("handle, password and invitation hash are required");
    }
    if !(form.password == form.passwordconfirm) {
        return Reply::refusal("passwords do not match");
    }
    let invitation = match Invitation::get_by_hash(ledger, form.invitation_hash.as_str()) {
        Some(invitation) => invitation,
        None => {
            return Reply::refusal("no such invitation");
        },
    };
    if !(invitation.handle == form.handle) {
        return Reply::refusal("no such invitation");
    }
    match invitation.consume(ledger, form.password.clone()) {
        Ok(()) => Reply {
            status: Status::Found,
            location: Some(Location::Signin),
            body: String::new(),
            token: None,
        },
        Err(_) => Reply::failure("Internal server error: could not use the invitation"),
    }
}

/// Whether the form carries the handle and the password of a stored account.
pub fn check_credentials(ledger: &Ledger, form: &SigninBody) -> (accepted: bool)
    ensures
        accepted == credentials_match(ledger@, form.handle@, form.password@),
{
    match User::get_by_handle(ledger, form.handle.as_str()) {
        Some(user) => verify_passwords(
            form.handle.as_str(),
            form.password.as_str(),
            user.password.as_str(),
        ),
        None => false,
    }
}

/// Opens a session for the accounts with this handle: they get the token,
/// valid until `expire_date`, and the answer hands the token to the client.
pub fn open_session(ledger: &mut Ledger, handle: &str, token: String, expire_date: i64) -> (reply:
    Reply)
    requires
        old(ledger).wf(),
    ensures
        final(ledger).wf(),
        final(ledger)@ == old(ledger)@.with_user_token(handle@, token@, expire_date as int),
        reply@ == sent_on(Location::Home, Some(token@)),
{
    set_user_token_until(ledger, handle, token.as_str(), expire_date);
    Reply {
        status: Status::Found,
        location: Some(Location::Home),
        body: String::new(),
        token: Some(token),
    }
}

/// Signs in: where the credentials match, opens a session with a fresh
/// random token, valid for `USER_TOKEN_EXPIRE_DURATION_SECONDS` from now.
pub fn signin(ledger: &mut Ledger, form: &SigninBody) -> (reply: Reply)
    requires
        old(ledger).wf(),
    ensures
        final(ledger).wf(),
        exists|token: Seq<char>, expire_date: int|
            token.len() == TOKEN_LENGTH && expire_date >= USER_TOKEN_EXPIRE_DURATION_SECONDS && (
            final(ledger)@,
            reply@,
        ) == signed_in(old(ledger)@, form.handle@, form.password@, token, expire_date),
{
    if !check_credentials(ledger, form) {
        let reply = Reply::refusal("user & password do no match");
        proof {
            let token = Seq::new(TOKEN_LENGTH as nat, |i: int| 'a');
            assert((ledger@, reply@) == signed_in(
                old(ledger)@,
                form.handle@,
                form.password@,
                token,
                USER_TOKEN_EXPIRE_DURATION_SECONDS as int,
            ));
        }
        return reply;
    }
    let token = new_token();
    let expire_date = new_expiration_date();
    let ghost text = token@;
    let reply = open_session(ledger, form.handle.as_str(), token, expire_date);
    proof {
        assert((ledger@, reply@) == signed_in(
            old(ledger)@,
            form.handle@,
            form.password@,
            text,
            expire_date as int,
        ));
    }
    reply
}

} // verus!
