//! The tables of the application and what is stored in them.

use vstd::prelude::*;

pub mod ancestry;
pub mod cached_sheet_value;
pub mod category;
pub mod cycles;
pub mod expense;
pub mod generations;
pub mod income;
pub mod inherited_sheet;
pub mod invitation;
pub mod ledger;
pub mod query;
pub mod shapes;
pub mod sheet;
pub mod user;

use crate::constants::{ADMIN_HANDLE, INVITATION_EXPIRE_DURATION_SECONDS};
use crate::models::invitation::{
    new_expiration_date, set_invitation_expiration, Invitation, InvitationView,
};
use crate::models::ledger::{Ledger, LedgerView};
use crate::models::user::UserRole;
use crate::utils::token::{new_token, TOKEN_LENGTH};

verus! {

/// The ledger after the administrator was invited with a fresh hash
/// `hash` until `expire_date`, and the address of the invitation.
///
/// Where an invitation for the administrator's handle is stored, it is kept
/// and named; else one with the fresh hash is stored. Either way every
/// invitation for the handle expires at the new date. Where no invitation
/// can be stored, nothing changes and no address is given.
pub open spec fn admin_invited(ledger: LedgerView, hash: Seq<char>, expire_date: int) -> (
    LedgerView,
    Option<Seq<char>>,
) {
    match ledger.invitation_with_handle(ADMIN_HANDLE@) {
        Some(invitation) => (
            ledger.with_invitation_expiring(ADMIN_HANDLE@, expire_date),
            Some("/signup?hash="@ + invitation.hash + "&handle="@ + invitation.handle),
        ),
        None => if ledger.next_invitation_id >= i32::MAX {
            (ledger, None)
        } else {
            (
                ledger.with_invitation_inserted(
                    InvitationView {
                        id: 0,
                        hash,
                        handle: ADMIN_HANDLE@,
                        expire_date,
                        user_role: UserRole::Admin,
                    },
                ).with_invitation_expiring(ADMIN_HANDLE@, expire_date),
                Some("/signup?hash="@ + hash + "&handle="@ + ADMIN_HANDLE@),
            )
        },
    }
}

/// The text of an address that may be missing.
pub open spec fn address_text(url: Option<String>) -> Option<Seq<char>> {
    match url {
        Some(url) => Some(url@),
        None => None,
    }
}

/// Invites the administrator with this hash until this date, and gives the
/// address of the invitation.
pub fn create_admin_invitation_with(ledger: &mut Ledger, hash: String, expire_date: i64) -> (url:
    Option<String>)
    requires
        old(ledger).wf(),
    ensures
        final(ledger).wf(),
        (final(ledger)@, address_text(url)) == admin_invited(
            old(ledger)@,
            hash@,
            expire_date as int,
        ),
{
    let invitation = match Invitation::get_by_handle(ledger, ADMIN_HANDLE) {
        Some(invitation) => invitation,
        None => {
            let new_invitation = Invitation::issued(
                ADMIN_HANDLE,
                UserRole::Admin,
                hash,
                expire_date,
            );
            match Invitation::insert(&new_invitation, ledger) {
                Ok(()) => new_invitation,
                Err(_) => {
                    return None;
                },
            }
        },
    };
    set_invitation_expiration(ledger, ADMIN_HANDLE, expire_date);
    Some(invitation.to_url())
}

/// Invites the administrator with a fresh random hash, for
/// `INVITATION_EXPIRE_DURATION_SECONDS` from now, and gives the address of
/// the invitation for the application to show.
pub fn create_admin_invitation(ledger: &mut Ledger) -> (url: Option<String>)
    requires
        old(ledger).wf(),
    ensures
        final(ledger).wf(),
        exists|hash: Seq<char>, expire_date: int|
            hash.len() == TOKEN_LENGTH && expire_date >= INVITATION_EXPIRE_DURATION_SECONDS && (
            final(ledger)@,
            address_text(url),
        ) == admin_invited(old(ledger)@, hash, expire_date),
{
    let hash = new_token();
    let expire_date = new_expiration_date();
    let ghost text = hash@;
    let url = create_admin_invitation_with(ledger, hash, expire_date);
    proof {
        assert((ledger@, address_text(url)) == admin_invited(
            old(ledger)@,
            text,
            expire_date as int,
        ));
    }
    url
}

} // verus!
