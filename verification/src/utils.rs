pub mod clock;
pub mod crypto;
pub mod date;
pub mod req_auth;
pub mod token;
