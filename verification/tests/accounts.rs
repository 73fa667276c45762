use calco::api::auth::{
    check_credentials, open_session, signin, signup, SigninBody, SignupBody,
};
use calco::api::invitations::{create_invitation, create_invitation_with, CreateInvitationBody};
use calco::api::reply::{Location, Status};
use calco::api::users::{delete_user, DeleteUserBody};
use calco::constants::ADMIN_HANDLE;
use calco::models::invitation::{
    set_invitation_expiration, update_invitation_expiration, Invitation,
};
use calco::models::ledger::{Ledger, LedgerError};
use calco::models::user::{
    delete_user_by_id, set_user_token, set_user_token_until, User, UserRole,
};
use calco::models::{create_admin_invitation, create_admin_invitation_with};
use calco::utils::crypto::{hash_password, HashError};
use calco::utils::req_auth::{request_authentication, AuthenticationResult};

fn ledger_with_admin() -> Ledger {
    let mut ledger = Ledger::new();
    User::new("root".to_string(), "x".to_string(), UserRole::Admin)
        .insert(&mut ledger)
        .unwrap();
    User::new("bob".to_string(), "x".to_string(), UserRole::Guest)
        .insert(&mut ledger)
        .unwrap();
    set_user_token_until(&mut ledger, "root", "admin-token", 0);
    set_user_token_until(&mut ledger, "bob", "guest-token", 0);
    ledger
}

#[test]
fn roles_and_their_numbers() {
    assert_eq!(UserRole::from_number(0), UserRole::Guest);
    assert_eq!(UserRole::from_number(100), UserRole::Admin);
    assert_eq!(UserRole::from_number(-1), UserRole::Visitor);
    assert_eq!(UserRole::from_number(7), UserRole::Visitor);
    assert_eq!(UserRole::Guest.to_number(), 0);
    assert_eq!(UserRole::Admin.to_number(), 100);
    assert_eq!(UserRole::Visitor.to_number(), -1);
}

#[test]
fn a_role_is_at_least_the_roles_below_it() {
    let admin = User::new("a".to_string(), "p".to_string(), UserRole::Admin);
    let guest = User::new("g".to_string(), "p".to_string(), UserRole::Guest);
    let visitor = User::new("v".to_string(), "p".to_string(), UserRole::Visitor);
    assert!(admin.is_role_greater_or_equal(UserRole::Admin));
    assert!(admin.is_role_greater_or_equal(UserRole::Guest));
    assert!(guest.is_role_greater_or_equal(UserRole::Guest));
    assert!(guest.is_role_greater_or_equal(UserRole::Visitor));
    assert!(!guest.is_role_greater_or_equal(UserRole::Admin));
    assert!(!visitor.is_role_greater_or_equal(UserRole::Guest));
}

#[test]
fn a_new_user_has_no_session() {
    let user = User::new("ann".to_string(), "pw".to_string(), UserRole::Guest);
    assert_eq!(user.id, 0);
    assert_eq!(user.handle, "ann");
    assert_eq!(user.password, "pw");
    assert_eq!(user.token, "");
    assert_eq!(user.token_expire_date, 0);
    assert_eq!(user.role, UserRole::Guest);
}

#[test]
fn users_are_stored_found_and_deleted() {
    let mut ledger = ledger_with_admin();
    assert_eq!(User::get_all(&ledger).len(), 2);
    assert_eq!(User::get_by_handle(&ledger, "bob").unwrap().id, 2);
    assert_eq!(User::get_by_token(&ledger, "admin-token").unwrap().handle, "root");
    assert!(User::get_by_handle(&ledger, "eve").is_none());
    assert!(User::get_by_token(&ledger, "").is_none());
    User::get_by_handle(&ledger, "bob").unwrap().delete(&mut ledger);
    assert!(User::get_by_handle(&ledger, "bob").is_none());
    delete_user_by_id(&mut ledger, 1);
    assert!(User::get_all(&ledger).is_empty());
    ledger.next_user_id = i32::MAX;
    assert_eq!(
        User::new("late".to_string(), "p".to_string(), UserRole::Guest).insert(&mut ledger),
        Err(LedgerError::IdsExhausted)
    );
}

#[test]
fn a_session_token_is_set_with_its_date() {
    let mut ledger = ledger_with_admin();
    set_user_token_until(&mut ledger, "bob", "t2", 77);
    let bob = User::get_by_handle(&ledger, "bob").unwrap();
    assert_eq!((bob.token.as_str(), bob.token_expire_date), ("t2", 77));
    assert_eq!(User::get_by_handle(&ledger, "root").unwrap().token, "admin-token");
    let date = set_user_token(&mut ledger, "bob", "t3");
    assert!(date >= 3600);
    let bob = User::get_by_handle(&ledger, "bob").unwrap();
    assert_eq!((bob.token.as_str(), bob.token_expire_date), ("t3", date));
}

#[test]
fn access_goes_by_token_and_role() {
    let ledger = ledger_with_admin();
    let has = AuthenticationResult::DoesHaveAccess;
    let has_not = AuthenticationResult::DoesNotHaveAccess;
    assert!(has.has_access());
    assert!(!has_not.has_access());
    assert_eq!(request_authentication(&ledger, Some("admin-token"), UserRole::Admin), has);
    assert_eq!(request_authentication(&ledger, Some("admin-token"), UserRole::Guest), has);
    assert_eq!(request_authentication(&ledger, Some("guest-token"), UserRole::Guest), has);
    assert_eq!(request_authentication(&ledger, Some("guest-token"), UserRole::Admin), has_not);
    assert_eq!(request_authentication(&ledger, Some("unknown"), UserRole::Guest), has_not);
    assert_eq!(request_authentication(&ledger, None, UserRole::Visitor), has_not);
}

#[test]
fn an_invitation_names_its_address() {
    let invitation =
        Invitation::issued("ann", UserRole::Guest, "0123-abcd".to_string(), 5000);
    assert_eq!(invitation.id, 0);
    assert_eq!(invitation.expire_date, 5000);
    assert_eq!(invitation.user_role, UserRole::Guest);
    assert_eq!(invitation.to_url(), "/signup?hash=0123-abcd&handle=ann");
}

#[test]
fn a_new_invitation_has_a_fresh_hash() {
    let first = Invitation::new("ann", UserRole::Admin);
    let second = Invitation::new("ann", UserRole::Admin);
    assert_eq!(first.handle, "ann");
    assert_eq!(first.user_role, UserRole::Admin);
    assert_eq!(first.id, 0);
    assert_eq!(first.hash.len(), 36);
    assert_ne!(first.hash, second.hash);
    assert!(first.expire_date >= 3600);
}

#[test]
fn invitations_are_stored_found_and_removed() {
    let mut ledger = Ledger::new();
    let ann = Invitation::issued("ann", UserRole::Guest, "h1".to_string(), 10);
    let ben = Invitation::issued("ben", UserRole::Admin, "h2".to_string(), 20);
    assert_eq!(Invitation::insert(&ann, &mut ledger), Ok(()));
    assert_eq!(Invitation::insert(&ben, &mut ledger), Ok(()));
    assert_eq!(Invitation::get_all(&ledger).len(), 2);
    assert_eq!(Invitation::get_by_hash(&ledger, "h2").unwrap().handle, "ben");
    assert_eq!(Invitation::get_by_handle(&ledger, "ann").unwrap().id, 1);
    assert!(Invitation::get_by_hash(&ledger, "h3").is_none());
    set_invitation_expiration(&mut ledger, "ann", 99);
    assert_eq!(Invitation::get_by_handle(&ledger, "ann").unwrap().expire_date, 99);
    assert_eq!(Invitation::get_by_handle(&ledger, "ben").unwrap().expire_date, 20);
    update_invitation_expiration(&mut ledger, "ben");
    assert!(Invitation::get_by_handle(&ledger, "ben").unwrap().expire_date >= 3600);
    let stored = Invitation::get_by_handle(&ledger, "ann").unwrap();
    Invitation::remove(&stored, &mut ledger);
    assert!(Invitation::get_by_handle(&ledger, "ann").is_none());
    ledger.next_invitation_id = i32::MAX;
    assert_eq!(Invitation::insert(&ann, &mut ledger), Err(LedgerError::IdsExhausted));
}

#[test]
fn consuming_an_invitation_creates_the_account() {
    let mut ledger = Ledger::new();
    let issued = Invitation::issued("ann", UserRole::Guest, "h1".to_string(), 10);
    Invitation::insert(&issued, &mut ledger).unwrap();
    let stored = Invitation::get_by_handle(&ledger, "ann").unwrap();
    assert_eq!(stored.consume(&mut ledger, "secret".to_string()), Ok(()));
    assert!(Invitation::get_all(&ledger).is_empty());
    let ann = User::get_by_handle(&ledger, "ann").unwrap();
    assert_eq!(ann.role, UserRole::Guest);
    assert_eq!(ann.password, hash_password("ann", "secret").unwrap());
    assert_eq!(ann.token, "");
}

#[test]
fn consuming_fails_where_the_account_cannot_be_stored() {
    let mut ledger = Ledger::new();
    let issued = Invitation::issued("ann", UserRole::Guest, "h1".to_string(), 10);
    Invitation::insert(&issued, &mut ledger).unwrap();
    ledger.next_user_id = i32::MAX;
    let stored = Invitation::get_by_handle(&ledger, "ann").unwrap();
    assert_eq!(
        stored.consume(&mut ledger, "secret".to_string()),
        Err("error when inserting user".to_string())
    );
    assert_eq!(Invitation::get_all(&ledger).len(), 1);
}

fn signup_form(handle: &str, password: &str, confirm: &str, hash: &str) -> SignupBody {
    SignupBody {
        handle: handle.to_string(),
        password: password.to_string(),
        passwordconfirm: confirm.to_string(),
        invitation_hash: hash.to_string(),
    }
}

#[test]
fn signup_checks_the_form_and_the_invitation() {
    let mut ledger = Ledger::new();
    let issued = Invitation::issued("ann", UserRole::Guest, "h1".to_string(), 10);
    Invitation::insert(&issued, &mut ledger).unwrap();
    let cases = [
        (signup_form("", "pw", "pw", "h1"), "handle, password and invitation hash are required"),
        (signup_form("ann", "", "", "h1"), "handle, password and invitation hash are required"),
        (signup_form("ann", "pw", "pw", ""), "handle, password and invitation hash are required"),
        (signup_form("ann", "pw", "pv", "h1"), "passwords do not match"),
        (signup_form("ann", "pw", "pw", "h9"), "no such invitation"),
        (signup_form("ben", "pw", "pw", "h1"), "no such invitation"),
    ];
    for (form, body) in cases {
        let reply = signup(&mut ledger, &form);
        assert_eq!(reply.status, Status::Unauthorized);
        assert_eq!(reply.body, body);
        assert!(User::get_all(&ledger).is_empty());
    }
    let reply = signup(&mut ledger, &signup_form("ann", "pw", "pw", "h1"));
    assert_eq!(reply.status, Status::Found);
    assert_eq!(reply.location, Some(Location::Signin));
    assert_eq!(reply.body, "");
    assert_eq!(User::get_by_handle(&ledger, "ann").unwrap().role, UserRole::Guest);
    assert!(Invitation::get_all(&ledger).is_empty());
}

#[test]
fn signup_fails_where_the_invitation_cannot_be_used() {
    let mut ledger = Ledger::new();
    let issued = Invitation::issued("ann", UserRole::Guest, "h1".to_string(), 10);
    Invitation::insert(&issued, &mut ledger).unwrap();
    ledger.next_user_id = i32::MAX;
    let reply = signup(&mut ledger, &signup_form("ann", "pw", "pw", "h1"));
    assert_eq!(reply.status, Status::InternalServerError);
    assert_eq!(reply.body, "Internal server error: could not use the invitation");
}

#[test]
fn signin_opens_a_session_for_the_right_password() {
    let mut ledger = Ledger::new();
    let issued = Invitation::issued("ann", UserRole::Guest, "h1".to_string(), 10);
    Invitation::insert(&issued, &mut ledger).unwrap();
    signup(&mut ledger, &signup_form("ann", "pw", "pw", "h1"));

    let wrong = SigninBody { handle: "ann".to_string(), password: "pv".to_string() };
    let unknown = SigninBody { handle: "ben".to_string(), password: "pw".to_string() };
    let right = SigninBody { handle: "ann".to_string(), password: "pw".to_string() };
    assert!(!check_credentials(&ledger, &wrong));
    assert!(!check_credentials(&ledger, &unknown));
    assert!(check_credentials(&ledger, &right));
    for form in [&wrong, &unknown] {
        let reply = signin(&mut ledger, form);
        assert_eq!(reply.status, Status::Unauthorized);
        assert_eq!(reply.body, "user & password do no match");
        assert!(reply.token.is_none());
    }
    assert_eq!(User::get_by_handle(&ledger, "ann").unwrap().token, "");

    let reply = signin(&mut ledger, &right);
    assert_eq!(reply.status, Status::Found);
    assert_eq!(reply.location, Some(Location::Home));
    let token = reply.token.unwrap();
    assert_eq!(token.len(), 36);
    let ann = User::get_by_handle(&ledger, "ann").unwrap();
    assert_eq!(ann.token, token);
    assert!(ann.token_expire_date >= 3600);
    assert_eq!(
        request_authentication(&ledger, Some(token.as_str()), UserRole::Guest),
        AuthenticationResult::DoesHaveAccess
    );
}

#[test]
fn open_session_hands_the_token_out() {
    let mut ledger = ledger_with_admin();
    let reply = open_session(&mut ledger, "bob", "fresh".to_string(), 123);
    assert_eq!(reply.status, Status::Found);
    assert_eq!(reply.location, Some(Location::Home));
    assert_eq!(reply.body, "");
    assert_eq!(reply.token, Some("fresh".to_string()));
    let bob = User::get_by_handle(&ledger, "bob").unwrap();
    assert_eq!((bob.token.as_str(), bob.token_expire_date), ("fresh", 123));
}

#[test]
fn only_an_administrator_invites() {
    let mut ledger = ledger_with_admin();
    let form = CreateInvitationBody { handle: "ann".to_string(), role: 0 };
    for token in [None, Some("guest-token")] {
        let reply = create_invitation(&mut ledger, token, &form);
        assert_eq!(reply.status, Status::NotFound);
        assert_eq!(reply.body, "HTTP 404: Not found");
    }
    assert!(Invitation::get_all(&ledger).is_empty());
    let reply = create_invitation(&mut ledger, Some("admin-token"), &form);
    assert_eq!(reply.status, Status::Found);
    assert_eq!(reply.location, None);
    let stored = Invitation::get_by_handle(&ledger, "ann").unwrap();
    assert_eq!(stored.user_role, UserRole::Guest);
    assert_eq!(reply.body, format!("created: {}", stored.to_url()));
}

#[test]
fn inviting_again_keeps_the_hash_and_moves_the_date() {
    let mut ledger = ledger_with_admin();
    let form = CreateInvitationBody { handle: "ann".to_string(), role: 100 };
    let admin = Some("admin-token");
    let reply = create_invitation_with(&mut ledger, admin, &form, "h1".to_string(), 10);
    assert_eq!(reply.body, "created: /signup?hash=h1&handle=ann");
    let reply = create_invitation_with(&mut ledger, admin, &form, "h2".to_string(), 20);
    assert_eq!(reply.body, "created: /signup?hash=h1&handle=ann");
    let all = Invitation::get_all(&ledger);
    assert_eq!(all.len(), 1);
    assert_eq!((all[0].hash.as_str(), all[0].expire_date), ("h1", 20));
    assert_eq!(all[0].user_role, UserRole::Admin);
    ledger.next_invitation_id = i32::MAX;
    let other = CreateInvitationBody { handle: "ben".to_string(), role: 0 };
    let reply = create_invitation_with(&mut ledger, admin, &other, "h3".to_string(), 30);
    assert_eq!(reply.status, Status::InternalServerError);
    assert_eq!(reply.body, "Internal server error: invitation insertion failed");
}

#[test]
fn only_an_administrator_deletes_accounts() {
    let mut ledger = ledger_with_admin();
    let reply = delete_user(&mut ledger, Some("guest-token"), &DeleteUserBody { id: 1 });
    assert_eq!(reply.status, Status::NotFound);
    assert_eq!(User::get_all(&ledger).len(), 2);
    let reply = delete_user(&mut ledger, Some("admin-token"), &DeleteUserBody { id: 2 });
    assert_eq!(reply.status, Status::Found);
    assert_eq!(reply.location, Some(Location::Users));
    assert_eq!(reply.body, "deleted");
    assert!(User::get_by_handle(&ledger, "bob").is_none());
}

#[test]
fn the_administrator_is_invited_once() {
    let mut ledger = Ledger::new();
    let url = create_admin_invitation_with(&mut ledger, "h1".to_string(), 10);
    assert_eq!(url, Some(format!("/signup?hash=h1&handle={}", ADMIN_HANDLE)));
    let url = create_admin_invitation_with(&mut ledger, "h2".to_string(), 20);
    assert_eq!(url, Some(format!("/signup?hash=h1&handle={}", ADMIN_HANDLE)));
    let all = Invitation::get_all(&ledger);
    assert_eq!(all.len(), 1);
    assert_eq!(all[0].user_role, UserRole::Admin);
    assert_eq!(all[0].expire_date, 20);
    let url = create_admin_invitation(&mut ledger);
    assert_eq!(url, Some(format!("/signup?hash=h1&handle={}", ADMIN_HANDLE)));
    assert!(Invitation::get_all(&ledger)[0].expire_date >= 3600);
}

#[test]
fn the_administrator_is_not_invited_into_a_full_table() {
    let mut ledger = Ledger::new();
    ledger.next_invitation_id = i32::MAX;
    assert_eq!(create_admin_invitation_with(&mut ledger, "h1".to_string(), 10), None);
    assert!(Invitation::get_all(&ledger).is_empty());
}

#[test]
fn consuming_with_a_hashed_password_stores_it_as_it_is() {
    let mut ledger = Ledger::new();
    let issued = Invitation::issued("ann", UserRole::Admin, "h1".to_string(), 10);
    Invitation::insert(&issued, &mut ledger).unwrap();
    let stored = Invitation::get_by_handle(&ledger, "ann").unwrap();
    assert_eq!(
        stored.consume_hashed(&mut ledger, Err(HashError::InputTooLong)),
        Err("error when hashing password".to_string())
    );
    assert_eq!(Invitation::get_all(&ledger).len(), 1);
    assert!(User::get_all(&ledger).is_empty());
    assert_eq!(stored.consume_hashed(&mut ledger, Ok("stored form".to_string())), Ok(()));
    let ann = User::get_by_handle(&ledger, "ann").unwrap();
    assert_eq!((ann.id, ann.password.as_str(), ann.role), (1, "stored form", UserRole::Admin));
    assert!(Invitation::get_all(&ledger).is_empty());
}
