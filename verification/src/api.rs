pub mod reply;
pub mod auth;
pub mod balance;
pub mod expense;
pub mod income;
pub mod inherited_sheet;
pub mod invitations;
pub mod sheet;
pub mod users;
