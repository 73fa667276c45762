use vstd::prelude::*;
use crate::constants::USER_TOKEN_EXPIRE_DURATION_SECONDS;
use crate::models::ledger::{Ledger, LedgerError};
use crate::models::query::{
    all_where_keeps_all, all_where_of_views, find_first, first_where_of_views, select, view_of,
    views_of,
};
use crate::utils::clock::expiration_from_now;

verus! {

/// What an account is allowed to do. Roles are ordered by their number.
#[derive(Copy, Clone, Debug, PartialEq, Eq, Structural)]
pub enum UserRole {
    Guest,
    Admin,
    Visitor,
}

impl UserRole {
    /// The number a role is stored as.
    pub open spec fn number(self) -> int {
        match self {
            UserRole::Guest => 0,
            UserRole::Admin => 100,
            UserRole::Visitor => -1,
        }
    }

    /// The role stored as `n`; every number without a role of its own is `Visitor`.
    pub open spec fn of_number(n: int) -> UserRole {
        if n == 0 {
            UserRole::Guest
        } else if n == 100 {
            UserRole::Admin
        } else {
            UserRole::Visitor
        }
    }

    pub fn from_number(n: i32) -> (role: UserRole)
        ensures
            role == UserRole::of_number(n as int),
    {
        match n {
            0 => UserRole::Guest,
            100 => UserRole::Admin,
            _ => UserRole::Visitor,
        }
    }

    pub fn to_number(&self) -> (n: i32)
        ensures
            n as int == self.number(),
    {
        match self {
            UserRole::Guest => 0,
            UserRole::Admin => 100,
            UserRole::Visitor => -1,
        }
    }
}

/// Reading a role back from its own number gives the same role.
pub proof fn role_number_round_trip(role: UserRole)
    ensures
        UserRole::of_number(role.number()) == role,
{
}

/// An account. `id` is 0 until the account is stored.
#[derive(Debug)]
pub struct User {
    pub id: i32,
    pub handle: String,
    pub password: String,
    pub token: String,
    pub token_expire_date: i64,
    pub role: UserRole,
}

/// An account as the contracts see it.
pub struct UserView {
    pub id: int,
    pub handle: Seq<char>,
    pub password: Seq<char>,
    pub token: Seq<char>,
    pub token_expire_date: int,
    pub role: UserRole,
}

impl View for User {
    type V = UserView;

    open spec fn view(&self) -> UserView {
        UserView {
            id: self.id as int,
            handle: self.handle@,
            password: self.password@,
            token: self.token@,
            token_expire_date: self.token_expire_date as int,
            role: self.role,
        }
    }
}

impl Clone for User {
    fn clone(&self) -> (copy: User)
        ensures
            copy == *self,
    {
        User {
            id: self.id,
            handle: self.handle.clone(),
            password: self.password.clone(),
            token: self.token.clone(),
            token_expire_date: self.token_expire_date,
            role: self.role,
        }
    }
}

impl User {
    /// An account that is not stored yet and has never signed in.
    pub fn new(handle: String, password: String, role: UserRole) -> (user: User)
        ensures
            user@ == (UserView {
                id: 0,
                handle: handle@,
                password: password@,
                token: Seq::empty(),
                token_expire_date: 0,
                role,
            }),
    {
        User { id: 0, handle, password, token: String::new(), token_expire_date: 0, role }
    }

    /// Whether this account's role is at least `role`.
    pub fn is_role_greater_or_equal(&self, role: UserRole) -> (enough: bool)
        ensures
            enough == (self.role.number() >= role.number()),
    {
        self.role.to_number() >= role.to_number()
    }

    /// Removes the accounts with the id of `self`.
    pub fn delete(&self, ledger: &mut Ledger)
        requires
            old(ledger).wf(),
        ensures
            final(ledger).wf(),
            final(ledger)@ == old(ledger)@.without_user(self.id as int),
    {
        delete_user_by_id(ledger, self.id)
    }

    /// Stores an account with these fields under the next id. The id of
    /// `self` plays no part.
    pub fn insert(&self, ledger: &mut Ledger) -> (outcome: Result<(), LedgerError>)
        requires
            old(ledger).wf(),
        ensures
            final(ledger).wf(),
            outcome is Ok <==> old(ledger)@.next_user_id < i32::MAX,
            outcome is Ok ==> final(ledger)@ == old(ledger)@.with_user_inserted(self@),
            outcome is Err ==> outcome.unwrap_err() == LedgerError::IdsExhausted && *final(ledger)
                == *old(ledger),
    {
        if ledger.next_user_id == i32::MAX {
            return Err(LedgerError::IdsExhausted);
        }
        let mut row = self.clone();
        row.id = ledger.next_user_id;
        ledger.users.push(row);
        ledger.next_user_id = ledger.next_user_id + 1;
        proof {
            assert(ledger@.users =~= old(ledger)@.users.push(row@));
        }
        Ok(())
    }

    /// Every account, in the order they were stored.
    pub fn get_all(ledger: &Ledger) -> (users: Vec<User>)
        ensures
            views_of(users@) == ledger@.users,
    {
        let ghost on_rows = |user: User| true;
        let keep = |user: &User| -> (kept: bool)
            ensures
                kept,
            {
                true
            };
        let users = select(&ledger.users, keep, Ghost(on_rows));
        proof {
            all_where_keeps_all(ledger.users@, on_rows);
            assert(users@ =~= ledger.users@);
        }
        users
    }

    /// The first account with this handle.
    pub fn get_by_handle(ledger: &Ledger, handle: &str) -> (found: Option<User>)
        ensures
            view_of(found) == ledger@.user_with_handle(handle@),
    {
        let wanted = handle.to_owned();
        let ghost on_rows = |user: User| user.handle@ == handle@;
        let keep = |user: &User| -> (kept: bool)
            ensures
                kept == (user.handle@ == handle@),
            {
                user.handle == wanted
            };
        let found = find_first(&ledger.users, keep, Ghost(on_rows));
        proof {
            first_where_of_views(
                ledger.users@,
                |user: User| user@,
                on_rows,
                |user: UserView| user.handle == handle@,
            );
        }
        found
    }

    /// The first account with this session token.
    pub fn get_by_token(ledger: &Ledger, token: &str) -> (found: Option<User>)
        ensures
            view_of(found) == ledger@.user_with_token(token@),
    {
        let wanted = token.to_owned();
        let ghost on_rows = |user: User| user.token@ == token@;
        let keep = |user: &User| -> (kept: bool)
            ensures
                kept == (user.token@ == token@),
            {
                user.token == wanted
            };
        let found = find_first(&ledger.users, keep, Ghost(on_rows));
        proof {
            first_where_of_views(
                ledger.users@,
                |user: User| user@,
                on_rows,
                |user: UserView| user.token == token@,
            );
        }
        found
    }
}

/// Gives every account with this handle this token, valid until `expire_date`.
fn store_token(users: &mut Vec<User>, handle: &str, token: &str, expire_date: i64)
    ensures
        views_of(final(users)@) == views_of(old(users)@).map_values(
            |user: UserView|
                if user.handle == handle@ {
                    UserView { token: token@, token_expire_date: expire_date as int, ..user }
                } else {
                    user
                },
        ),
{
    let wanted = handle.to_owned();
    let ghost before = users@;
    let n = users.len();
    let mut j: usize = 0;
    while j < n
        invariant
            j <= n,
            n == before.len(),
            users.len() == n,
            wanted@ == handle@,
            forall|k: int| j <= k < n ==> users[k] == before[k],
            forall|k: int|
                0 <= k < j ==> (#[trigger] users[k])@ == (if before[k].handle@ == handle@ {
                    UserView {
                        token: token@,
                        token_expire_date: expire_date as int,
                        ..before[k]@
                    }
                } else {
                    before[k]@
                }),
        decreases n - j,
    {
        if users[j].handle == wanted {
            users[j].token = token.to_owned();
            users[j].token_expire_date = expire_date;
        }
        j += 1;
    }
    proof {
        assert(views_of(users@) =~= views_of(before).map_values(
            |user: UserView|
                if user.handle == handle@ {
                    UserView { token: token@, token_expire_date: expire_date as int, ..user }
                } else {
                    user
                },
        ));
    }
}

/// Gives every account with this handle this session token, valid until
/// `expire_date`.
pub fn set_user_token_until(ledger: &mut Ledger, handle: &str, token: &str, expire_date: i64)
    requires
        old(ledger).wf(),
    ensures
        final(ledger).wf(),
        final(ledger)@ == old(ledger)@.with_user_token(handle@, token@, expire_date as int),
{
    store_token(&mut ledger.users, handle, token, expire_date);
}

/// Gives every account with this handle this session token, valid for
/// `USER_TOKEN_EXPIRE_DURATION_SECONDS` from now, and returns the date at
/// which it expires.
pub fn set_user_token(ledger: &mut Ledger, handle: &str, token: &str) -> (expire_date: i64)
    requires
        old(ledger).wf(),
    ensures
        final(ledger).wf(),
        final(ledger)@ == old(ledger)@.with_user_token(handle@, token@, expire_date as int),
        expire_date >= USER_TOKEN_EXPIRE_DURATION_SECONDS,
{
    let expire_date = new_expiration_date();
    set_user_token_until(ledger, handle, token, expire_date);
    expire_date
}

/// Removes the accounts with this id.
pub fn delete_user_by_id(ledger: &mut Ledger, id: i32)
    requires
        old(ledger).wf(),
    ensures
        final(ledger).wf(),
        final(ledger)@ == old(ledger)@.without_user(id as int),
{
    let ghost stays = |user: User| user.id != id;
    let keep = |user: &User| -> (kept: bool)
        ensures
            kept == (user.id != id),
        {
            user.id != id
        };
    let users = select(&ledger.users, keep, Ghost(stays));
    proof {
        assert(users@ =~= ledger.users@.filter(stays));
        all_where_of_views(
            ledger.users@,
            |user: User| user@,
            stays,
            |user: UserView| user.id != id as int,
        );
    }
    ledger.users = users;
}

/// The date at which a session token issued now expires.
pub fn new_expiration_date() -> (date: i64)
    ensures
        date >= USER_TOKEN_EXPIRE_DURATION_SECONDS,
{
    expiration_from_now(USER_TOKEN_EXPIRE_DURATION_SECONDS)
}

} // verus!
