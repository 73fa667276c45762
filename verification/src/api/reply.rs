//! What an operation answers.

use vstd::prelude::*;

verus! {

/// The kind of an answer.
#[derive(Copy, Clone, Debug, PartialEq, Eq, Structural)]
pub enum Status {
    /// Done; the client is sent on to another page.
    Found,
    /// The input was refused.
    Unauthorized,
    /// The request lacks the access the operation takes.
    NotFound,
    /// The operation failed after it had begun; what it had stored stays stored.
    InternalServerError,
}

impl Status {
    /// The HTTP status code of this kind of answer.
    pub open spec fn number(self) -> int {
        match self {
            Status::Found => 302,
            Status::Unauthorized => 401,
            Status::NotFound => 404,
            Status::InternalServerError => 500,
        }
    }

    pub fn code(&self) -> (code: u16)
        ensures
            code as int == self.number(),
    {
        match self {
            Status::Found => 302,
            Status::Unauthorized => 401,
            Status::NotFound => 404,
            Status::InternalServerError => 500,
        }
    }
}

/// A page of the application.
#[derive(Copy, Clone, Debug, PartialEq, Eq, Structural)]
pub enum Location {
    /// `/`
    Home,
    /// `/signin`
    Signin,
    /// `/sheets`
    Sheets,
    /// `/sheet/` and the id of a sheet
    Sheet(i32),
    /// `/expenses/` and the id of an expense
    Expense(i32),
    /// `/incomes/` and the id of an income
    Income(i32),
    /// `/private/users`
    Users,
}

/// An answer: its kind, the page the client is sent on to, a plain text,
/// and the session token to hand to the client.
#[derive(Debug)]
pub struct Reply {
    pub status: Status,
    pub location: Option<Location>,
    pub body: String,
    pub token: Option<String>,
}

/// An answer as the contracts see it.
pub struct ReplyView {
    pub status: Status,
    pub location: Option<Location>,
    pub body: Seq<char>,
    pub token: Option<Seq<char>>,
}

impl View for Reply {
    type V = ReplyView;

    open spec fn view(&self) -> ReplyView {
        ReplyView {
            status: self.status,
            location: self.location,
            body: self.body@,
            token: match self.token {
                Some(token) => Some(token@),
                None => None,
            },
        }
    }
}

/// The answer that sends the client on to `location`.
pub open spec fn redirect(location: Location, body: Seq<char>) -> ReplyView {
    ReplyView { status: Status::Found, location: Some(location), body, token: None }
}

/// An answer that sends the client nowhere.
pub open spec fn plain(status: Status, body: Seq<char>) -> ReplyView {
    ReplyView { status, location: None, body, token: None }
}

/// The answer to a request without access.
pub open spec fn no_access() -> ReplyView {
    plain(Status::NotFound, "HTTP 404: Not found"@)
}

/// The answer to an operation that failed after it had begun.
pub open spec fn failure(body: Seq<char>) -> ReplyView {
    plain(Status::InternalServerError, body)
}

/// The answer to an input that was refused.
pub open spec fn refusal(body: Seq<char>) -> ReplyView {
    plain(Status::Unauthorized, body)
}

impl Reply {
    pub fn redirect(location: Location, body: &str) -> (reply: Reply)
        ensures
            reply@ == redirect(location, body@),
    {
        Reply { status: Status::Found, location: Some(location), body: body.to_owned(), token: None }
    }

    pub fn plain(status: Status, body: &str) -> (reply: Reply)
        ensures
            reply@ == plain(status, body@),
    {
        Reply { status, location: None, body: body.to_owned(), token: None }
    }

    pub fn no_access() -> (reply: Reply)
        ensures
            reply@ == no_access(),
    {
        Reply::plain(Status::NotFound, "HTTP 404: Not found")
    }

    pub fn failure(body: &str) -> (reply: Reply)
        ensures
            reply@ == failure(body@),
    {
        Reply::plain(Status::InternalServerError, body)
    }

    pub fn refusal(body: &str) -> (reply: Reply)
        ensures
            reply@ == refusal(body@),
    {
        Reply::plain(Status::Unauthorized, body)
    }
}

} // verus!
