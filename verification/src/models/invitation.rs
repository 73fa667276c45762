use vstd::prelude::*;
use vstd::string::*;
use crate::constants::INVITATION_EXPIRE_DURATION_SECONDS;
use crate::models::ledger::{Ledger, LedgerError, LedgerView};
use crate::models::query::{
    all_where_keeps_all, all_where_of_views, find_first, first_where_of_views, select, view_of,
    views_of,
};
use crate::models::user::{User, UserRole, UserView};
use crate::utils::clock::expiration_from_now;
use crate::utils::crypto::{can_be_hashed, hash_password, hashed, HashError};
use crate::utils::token::{new_token, TOKEN_LENGTH};

verus! {

/// The right to create the account `handle` with the role `user_role`,
/// proved by knowing `hash`.
#[derive(Debug)]
pub struct Invitation {
    pub id: i32,
    pub hash: String,
    pub handle: String,
    pub expire_date: i64,
    pub user_role: UserRole,
}

/// An invitation as the contracts see it.
pub struct InvitationView {
    pub id: int,
    pub hash: Seq<char>,
    pub handle: Seq<char>,
    pub expire_date: int,
    pub user_role: UserRole,
}

impl View for Invitation {
    type V = InvitationView;

    open spec fn view(&self) -> InvitationView {
        InvitationView {
            id: self.id as int,
            hash: self.hash@,
            handle: self.handle@,
            expire_date: self.expire_date as int,
            user_role: self.user_role,
        }
    }
}

impl Clone for Invitation {
    fn clone(&self) -> (copy: Invitation)
        ensures
            copy == *self,
    {
        Invitation {
            id: self.id,
            hash: self.hash.clone(),
            handle: self.handle.clone(),
            expire_date: self.expire_date,
            user_role: self.user_role,
        }
    }
}

impl LedgerView {
    /// The ledger after an invitation was used with a password whose stored
    /// form is `password`: the invited account exists, the invitations with
    /// the id of this one are gone.
    pub open spec fn with_invitation_consumed(
        self,
        invitation: InvitationView,
        password: Seq<char>,
    ) -> LedgerView {
        self.with_user_inserted(
            UserView {
                id: 0,
                handle: invitation.handle,
                password,
                token: Seq::empty(),
                token_expire_date: 0,
                role: invitation.user_role,
            },
        ).without_invitation(invitation.id)
    }
}

impl Invitation {
    /// An invitation that is not stored yet, with this hash and this
    /// expiration date.
    pub fn issued(handle: &str, user_role: UserRole, hash: String, expire_date: i64) -> (invitation:
        Invitation)
        ensures
            invitation@ == (InvitationView {
                id: 0,
                hash: hash@,
                handle: handle@,
                expire_date: expire_date as int,
                user_role,
            }),
    {
        Invitation { hash, expire_date, handle: handle.to_owned(), id: 0, user_role }
    }

    /// An invitation that is not stored yet, with a fresh random hash, valid
    /// for `INVITATION_EXPIRE_DURATION_SECONDS` from now.
    pub fn new(handle: &str, user_role: UserRole) -> (invitation: Invitation)
        ensures
            invitation@.id == 0,
            invitation@.handle == handle@,
            invitation@.user_role == user_role,
            invitation@.hash.len() == TOKEN_LENGTH,
            invitation@.expire_date >= INVITATION_EXPIRE_DURATION_SECONDS,
    {
        let expire_date = new_expiration_date();
        Invitation::issued(handle, user_role, new_token(), expire_date)
    }

    /// Stores an invitation with these fields under the next id. The id of
    /// `invitation` plays no part.
    pub fn insert(invitation: &Invitation, ledger: &mut Ledger) -> (outcome: Result<
        (),
        LedgerError,
    >)
        requires
            old(ledger).wf(),
        ensures
            final(ledger).wf(),
            outcome is Ok <==> old(ledger)@.next_invitation_id < i32::MAX,
            outcome is Ok ==> final(ledger)@ == old(ledger)@.with_invitation_inserted(invitation@),
            outcome is Err ==> outcome.unwrap_err() == LedgerError::IdsExhausted && *final(ledger)
                == *old(ledger),
    {
        if ledger.next_invitation_id == i32::MAX {
            return Err(LedgerError::IdsExhausted);
        }
        let mut row = invitation.clone();
        row.id = ledger.next_invitation_id;
        ledger.invitations.push(row);
        ledger.next_invitation_id = ledger.next_invitation_id + 1;
        proof {
            assert(ledger@.invitations =~= old(ledger)@.invitations.push(row@));
        }
        Ok(())
    }

    /// The first invitation with this hash.
    pub fn get_by_hash(ledger: &Ledger, hash: &str) -> (found: Option<Invitation>)
        ensures
            view_of(found) == ledger@.invitation_with_hash(hash@),
    {
        let wanted = hash.to_owned();
        let ghost on_rows = |invitation: Invitation| invitation.hash@ == hash@;
        let keep = |invitation: &Invitation| -> (kept: bool)
            ensures
                kept == (invitation.hash@ == hash@),
            {
                invitation.hash == wanted
            };
        let found = find_first(&ledger.invitations, keep, Ghost(on_rows));
        proof {
            first_where_of_views(
                ledger.invitations@,
                |invitation: Invitation| invitation@,
                on_rows,
                |invitation: InvitationView| invitation.hash == hash@,
            );
        }
        found
    }

    /// Every invitation, in the order they were stored.
    pub fn get_all(ledger: &Ledger) -> (invitations: Vec<Invitation>)
        ensures
            views_of(invitations@) == ledger@.invitations,
    {
        let ghost on_rows = |invitation: Invitation| true;
        let keep = |invitation: &Invitation| -> (kept: bool)
            ensures
                kept,
            {
                true
            };
        let invitations = select(&ledger.invitations, keep, Ghost(on_rows));
        proof {
            all_where_keeps_all(ledger.invitations@, on_rows);
            assert(invitations@ =~= ledger.invitations@);
        }
        invitations
    }

    /// The first invitation for this handle.
    pub fn get_by_handle(ledger: &Ledger, handle: &str) -> (found: Option<Invitation>)
        ensures
            view_of(found) == ledger@.invitation_with_handle(handle@),
    {
        let wanted = handle.to_owned();
        let ghost on_rows = |invitation: Invitation| invitation.handle@ == handle@;
        let keep = |invitation: &Invitation| -> (kept: bool)
            ensures
                kept == (invitation.handle@ == handle@),
            {
                invitation.handle == wanted
            };
        let found = find_first(&ledger.invitations, keep, Ghost(on_rows));
        proof {
            first_where_of_views(
                ledger.invitations@,
                |invitation: Invitation| invitation@,
                on_rows,
                |invitation: InvitationView| invitation.handle == handle@,
            );
        }
        found
    }

    /// Removes the invitations with the id of `invitation`.
    pub fn remove(invitation: &Invitation, ledger: &mut Ledger)
        requires
            old(ledger).wf(),
        ensures
            final(ledger).wf(),
            final(ledger)@ == old(ledger)@.without_invitation(invitation.id as int),
    {
        let id = invitation.id;
        let ghost stays = |row: Invitation| row.id != id;
        let keep = |row: &Invitation| -> (kept: bool)
            ensures
                kept == (row.id != id),
            {
                row.id != id
            };
        let invitations = select(&ledger.invitations, keep, Ghost(stays));
        proof {
            assert(invitations@ =~= ledger.invitations@.filter(stays));
            all_where_of_views(
                ledger.invitations@,
                |row: Invitation| row@,
                stays,
                |row: InvitationView| row.id != id as int,
            );
        }
        ledger.invitations = invitations;
    }

    /// The address at which this invitation is used.
    pub fn to_url(self: &Invitation) -> (url: String)
        ensures
            url@ == "/signup?hash="@ + self.hash@ + "&handle="@ + self.handle@,
    {
        let mut url = String::from_str("/signup?hash=");
        url.append(self.hash.as_str());
        url.append("&handle=");
        url.append(self.handle.as_str());
        url
    }

    /// Uses this invitation: stores the invited account with the hashed
    /// password and removes the invitation.
    ///
    /// Fails, with nothing changed, where the password cannot be hashed or
    /// the account cannot be stored.
    pub fn consume(self: &Invitation, ledger: &mut Ledger, password: String) -> (outcome: Result<
        (),
        String,
    >)
        requires
            old(ledger).wf(),
        ensures
            final(ledger).wf(),
            outcome is Ok <==> can_be_hashed(self.handle@, password@) && old(ledger)@.next_user_id
                < i32::MAX,
            outcome is Ok ==> final(ledger)@ == old(ledger)@.with_invitation_consumed(
                self@,
                hashed(self.handle@, password@),
            ),
            outcome is Err ==> *final(ledger) == *old(ledger),
            outcome is Err ==> outcome.unwrap_err()@ == (if !can_be_hashed(
                self.handle@,
                password@,
            ) {
                "error when hashing password"@
            } else {
                "error when inserting user"@
            }),
    {
        let hashed_password = hash_password(self.handle.as_str(), password.as_str());
        self.consume_hashed(ledger, hashed_password)
    }

    /// Uses this invitation with a password that has been hashed, or could
    /// not be: stores the invited account with the hashed password and
    /// removes the invitation.
    pub fn consume_hashed(
        self: &Invitation,
        ledger: &mut Ledger,
        hashed_password: Result<String, HashError>,
    ) -> (outcome: Result<(), String>)
        requires
            old(ledger).wf(),
        ensures
            final(ledger).wf(),
            outcome is Ok <==> hashed_password is Ok && old(ledger)@.next_user_id < i32::MAX,
            outcome is Ok ==> final(ledger)@ == old(ledger)@.with_invitation_consumed(
                self@,
                hashed_password.unwrap()@,
            ),
            outcome is Err ==> *final(ledger) == *old(ledger),
            outcome is Err ==> outcome.unwrap_err()@ == (if hashed_password is Err {
                "error when hashing password"@
            } else {
                "error when inserting user"@
            }),
    {
        let hashed_password = match hashed_password {
            Ok(hashed_password) => hashed_password,
            Err(_) => {
                return Err("error when hashing password".to_owned());
            },
        };
        let user = User::new(self.handle.clone(), hashed_password, self.user_role);
        match user.insert(ledger) {
            Ok(()) => {},
            Err(_) => {
                return Err("error when inserting user".to_owned());
            },
        }
        Invitation::remove(self, ledger);
        Ok(())
    }
}

/// The date at which an invitation issued now expires.
pub fn new_expiration_date() -> (date: i64)
    ensures
        date >= INVITATION_EXPIRE_DURATION_SECONDS,
{
    expiration_from_now(INVITATION_EXPIRE_DURATION_SECONDS)
}

/// Lets every invitation for this handle expire at `expire_date`.
fn store_expiration(invitations: &mut Vec<Invitation>, handle: &str, expire_date: i64)
    ensures
        views_of(final(invitations)@) == views_of(old(invitations)@).map_values(
            |invitation: InvitationView|
                if invitation.handle == handle@ {
                    InvitationView { expire_date: expire_date as int, ..invitation }
                } else {
                    invitation
                },
        ),
{
    let wanted = handle.to_owned();
    let ghost before = invitations@;
    let n = invitations.len();
    let mut j: usize = 0;
    while j < n
        invariant
            j <= n,
            n == before.len(),
            invitations.len() == n,
            wanted@ == handle@,
            forall|k: int| j <= k < n ==> invitations[k] == before[k],
            forall|k: int|
                0 <= k < j ==> (#[trigger] invitations[k])@ == (if before[k].handle@ == handle@ {
                    InvitationView { expire_date: expire_date as int, ..before[k]@ }
                } else {
                    before[k]@
                }),
        decreases n - j,
    {
        if invitations[j].handle == wanted {
            invitations[j].expire_date = expire_date;
        }
        j += 1;
    }
    proof {
        assert(views_of(invitations@) =~= views_of(before).map_values(
            |invitation: InvitationView|
                if invitation.handle == handle@ {
                    InvitationView { expire_date: expire_date as int, ..invitation }
                } else {
                    invitation
                },
        ));
    }
}

/// Lets every invitation for this handle expire at `expire_date`.
pub fn set_invitation_expiration(ledger: &mut Ledger, handle: &str, expire_date: i64)
    requires
        old(ledger).wf(),
    ensures
        final(ledger).wf(),
        final(ledger)@ == old(ledger)@.with_invitation_expiring(handle@, expire_date as int),
{
    store_expiration(&mut ledger.invitations, handle, expire_date);
}

/// Lets every invitation for this handle expire
/// `INVITATION_EXPIRE_DURATION_SECONDS` from now.
pub fn update_invitation_expiration(ledger: &mut Ledger, handle: &str)
    requires
        old(ledger).wf(),
    ensures
        final(ledger).wf(),
        exists|expire_date: int|
            expire_date >= INVITATION_EXPIRE_DURATION_SECONDS && final(ledger)@ == old(
                ledger,
            )@.with_invitation_expiring(handle@, expire_date),
{
    let expire_date = new_expiration_date();
    set_invitation_expiration(ledger, handle, expire_date);
    assert(ledger@ == old(ledger)@.with_invitation_expiring(handle@, expire_date as int));
}

} // verus!
