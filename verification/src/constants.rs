use vstd::prelude::*;

verus! {

/// File name of the database the surrounding application persists to.
pub const DATABASE_PATH: &'static str = "calco-database.db";

/// Seconds an invitation stays valid after it was issued or refreshed.
pub const INVITATION_EXPIRE_DURATION_SECONDS: u64 = 3600;

/// Seconds a session token stays valid after sign-in.
pub const USER_TOKEN_EXPIRE_DURATION_SECONDS: u64 = 3600;

/// Handle for which an administrator invitation is issued at start-up.
pub const ADMIN_HANDLE: &'static str = "thottou";

/// Application-wide part of every password salt.
pub const SALT_COMPONENT: [u8; 16] = [
    0x3f, 0x12, 0x9b, 0x5c,
    0x22, 0xb0, 0x12, 0x6d,
    0xe5, 0x6a, 0x09, 0x7a,
    0x97, 0xaa, 0xf9, 0x99,
];

} // verus!
