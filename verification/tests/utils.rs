use calco::constants::SALT_COMPONENT;
use calco::utils::clock::{expiration_date, expiration_from_now};
use calco::utils::crypto::{
    credential_text, hash_password, password_matches, salt, verify_passwords, HashError,
    MAX_INPUT_LEN,
};
use calco::utils::date::date_of_form;
use calco::utils::token::new_token;

/// PBKDF2-HMAC-SHA512 of the password `secret` with the salt of the handle
/// `alice`, 10000 rounds, 64 bytes.
const ALICE_KEY: [u8; 64] = [
    1, 157, 45, 114, 70, 203, 166, 237, 130, 248, 163, 249, 196, 202, 142, 254, 200, 46, 29, 238,
    102, 106, 64, 89, 35, 168, 211, 150, 8, 123, 119, 187, 27, 186, 116, 208, 247, 252, 7, 87, 118,
    228, 225, 38, 29, 208, 50, 225, 18, 246, 35, 12, 35, 196, 118, 122, 66, 108, 16, 162, 161, 234,
    219, 128,
];

#[test]
fn the_salt_is_the_component_and_the_handle() {
    let salted = salt("alice");
    assert_eq!(salted.len(), 21);
    assert_eq!(&salted[..16], &SALT_COMPONENT[..]);
    assert_eq!(&salted[16..], b"alice");
    assert_eq!(salt(""), SALT_COMPONENT.to_vec());
}

#[test]
fn a_key_is_stored_as_text_without_nul() {
    assert_eq!(credential_text(&vec![0x41, 0x00, 0x42, 0x00]), "AB");
    assert_eq!(credential_text(&vec![0x41, 0xff, 0x42]), "A\u{fffd}B");
    assert_eq!(credential_text(&vec![0xc3, 0xa9]), "é");
    assert_eq!(credential_text(&Vec::new()), "");
}

#[test]
fn a_password_is_hashed_with_pbkdf2() {
    let expected = String::from_utf8_lossy(&ALICE_KEY).replace('\0', "");
    assert_eq!(hash_password("alice", "secret"), Ok(expected.clone()));
    assert_eq!(credential_text(&ALICE_KEY.to_vec()), expected);
    assert_ne!(hash_password("alice", "secrets").unwrap(), expected);
    assert_ne!(hash_password("alicf", "secret").unwrap(), expected);
}

#[test]
fn a_password_is_verified_against_its_stored_form() {
    let stored = hash_password("alice", "secret").unwrap();
    assert!(verify_passwords("alice", "secret", &stored));
    assert!(!verify_passwords("alice", "Secret", &stored));
    assert!(!verify_passwords("bob", "secret", &stored));
    assert!(password_matches(&Ok("abc".to_string()), "abc"));
    assert!(!password_matches(&Ok("abc".to_string()), "abd"));
    assert!(!password_matches(&Err(HashError::InputTooLong), ""));
}

#[test]
fn a_handle_too_long_is_not_hashed() {
    let handle = "h".repeat(MAX_INPUT_LEN - 15);
    assert_eq!(hash_password(&handle, "secret"), Err(HashError::InputTooLong));
    assert!(!verify_passwords(&handle, "secret", ""));
}

#[test]
fn a_date_is_read_as_its_midnight() {
    assert_eq!(date_of_form("2024-03-01"), Some(1709251200));
    assert_eq!(date_of_form("1970-01-01"), Some(0));
    assert_eq!(date_of_form("1969-12-31"), Some(-86400));
    assert_eq!(date_of_form("2024-02-29"), Some(1709164800));
    assert_eq!(date_of_form("2023-02-29"), None);
    assert_eq!(date_of_form("2024-13-01"), None);
    assert_eq!(date_of_form("01/03/2024"), None);
    assert_eq!(date_of_form(""), None);
}

#[test]
fn an_expiration_date_is_the_lifetime_later() {
    assert_eq!(expiration_date(100, 3600), 3700);
    assert_eq!(expiration_date(0, 0), 0);
    assert_eq!(expiration_date(i64::MAX as u64, 0), i64::MAX);
    assert_eq!(expiration_date(i64::MAX as u64, 1), i64::MAX);
    assert_eq!(expiration_date(u64::MAX, u64::MAX), i64::MAX);
}

#[test]
fn an_expiration_from_now_is_later_than_the_lifetime() {
    // The clock stands well after the year 2020.
    assert!(expiration_from_now(3600) > 1_577_836_800 + 3600);
    assert!(expiration_from_now(0) <= expiration_from_now(10));
}

#[test]
fn tokens_are_hyphenated_and_differ() {
    let first = new_token();
    let second = new_token();
    assert_eq!(first.len(), 36);
    assert_ne!(first, second);
    for (at, c) in first.chars().enumerate() {
        if at == 8 || at == 13 || at == 18 || at == 23 {
            assert_eq!(c, '-');
        } else {
            assert!(c.is_ascii_hexdigit());
        }
    }
}
