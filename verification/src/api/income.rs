//! Creating, editing and deleting the incomes of a sheet. Each operation
//! stores the record first and then settles the total of the owning sheet
//! and of every sheet that inherits it.

use vstd::prelude::*;
use crate::api::reply::{failure, no_access, redirect, refusal, Location, Reply, ReplyView};
use crate::models::expense::EntryView;
use crate::models::income::Income;
use crate::models::ledger::{Ledger, LedgerView};
use crate::models::query::first_where_is_a_row;
use crate::models::user::UserRole;
use crate::utils::date::{date_of_form, midnight_of};
use crate::utils::req_auth::{request_authentication, token_text};

verus! {

/// The form that creates an income.
#[derive(Debug)]
pub struct CreateIncomeBody {
    pub name: String,
    pub amount: i32,
    pub date: String,
    pub sheet_id: i32,
}

/// The form that edits an income.
#[derive(Debug)]
pub struct UpdateincomeByIdBody {
    pub name: String,
    pub amount: i32,
    pub date: String,
    pub id: i32,
}

/// The form that deletes an income.
#[derive(Debug)]
pub struct DeleteincomeByIdBody {
    pub id: i32,
    pub sheet_id: i32,
}

/// What creating an income does and answers. `allowed` says whether the
/// request has access, `date` what the date of the form was read as.
///
/// A form whose date is not a date is refused, and nothing is stored.
///
/// The income is stored first; then its sheet, if that is stored, and the
/// sheets that inherit it take in the amount. Where that fails, the income
/// stays stored and the totals stay as they were.
pub open spec fn income_created(
    ledger: LedgerView,
    allowed: bool,
    name: Seq<char>,
    amount: i32,
    sheet_id: i32,
    date: Option<i64>,
) -> (LedgerView, ReplyView) {
    if !allowed {
        (ledger, no_access())
    } else if date is None {
        (ledger, refusal("income date is not a date"@))
    } else if ledger.next_income_id >= i32::MAX {
        (ledger, failure("Internal server error: error when inserting income into database"@))
    } else {
        let stored = ledger.with_income_inserted(
            EntryView {
                id: 0,
                name,
                amount: amount as int,
                date: date.unwrap() as int,
                sheet_id: sheet_id as int,
            },
        );
        if !stored.can_settle(sheet_id as int, amount as int) {
            (
                stored,
                failure("Internal server error: error when updating parent sheet in database"@),
            )
        } else {
            (
                stored.with_delta(sheet_id as int, amount as int),
                redirect(Location::Sheet(sheet_id), "created"@),
            )
        }
    }
}

/// What editing an income does and answers.
///
/// A form whose date is not a date is refused, and nothing is stored. Else
/// the stored income takes the name, the amount and the date of the form; it
/// stays with its sheet. Then that sheet, if it is stored, and the sheets
/// that inherit it take in the difference of the amounts. Where no income
/// has the id, nothing happens.
pub open spec fn income_updated(
    ledger: LedgerView,
    allowed: bool,
    id: i32,
    name: Seq<char>,
    amount: i32,
    date: Option<i64>,
) -> (LedgerView, ReplyView) {
    if !allowed {
        (ledger, no_access())
    } else if date is None {
        (ledger, refusal("income date is not a date"@))
    } else {
        match ledger.income_with_id(id as int) {
            None => (ledger, redirect(Location::Income(id), "update"@)),
            Some(stored) => {
                let edited = EntryView {
                    name,
                    amount: amount as int,
                    date: date.unwrap() as int,
                    ..stored
                };
                let saved = ledger.with_income_saved(edited);
                let change = amount - stored.amount;
                if !saved.can_settle(stored.sheet_id, change) {
                    (
                        saved,
                        failure(
                            "Internal server error: error when updating parent sheet in database"@,
                        ),
                    )
                } else {
                    (
                        saved.with_delta(stored.sheet_id, change),
                        redirect(Location::Sheet(stored.sheet_id as i32), "update"@),
                    )
                }
            },
        }
    }
}

/// What deleting an income does and answers.
///
/// The income is removed first; then its sheet, if that is stored, and the
/// sheets that inherit it give up the amount. Where no income has the id,
/// nothing happens. The client is sent on to the sheet the form names.
pub open spec fn income_deleted(ledger: LedgerView, allowed: bool, id: i32, sheet_id: i32) -> (
    LedgerView,
    ReplyView,
) {
    if !allowed {
        (ledger, no_access())
    } else {
        match ledger.income_with_id(id as int) {
            None => (ledger, redirect(Location::Sheet(sheet_id), "created"@)),
            Some(stored) => {
                let removed = ledger.without_income(id as int);
                if !removed.can_settle(stored.sheet_id, -stored.amount) {
                    (
                        removed,
                        failure(
                            "Internal server error: error when updating parent sheet in database"@,
                        ),
                    )
                } else {
                    (
                        removed.with_delta(stored.sheet_id, -stored.amount),
                        redirect(Location::Sheet(sheet_id), "created"@),
                    )
                }
            },
        }
    }
}

/// Creates an income for a request with guest access. The date of the form
/// is read as a day.
pub fn create_income(ledger: &mut Ledger, token: Option<&str>, form: &CreateIncomeBody) -> (reply: Reply)
    requires
        old(ledger).wf(),
    ensures
        final(ledger).wf(),
        (final(ledger)@, reply@) == income_created(
            old(ledger)@,
            old(ledger)@.grants(token_text(token), UserRole::Guest),
            form.name@,
            form.amount,
            form.sheet_id,
            midnight_of(form.date@),
        ),
{
    let date = if request_authentication(ledger, token, UserRole::Guest).has_access() {
        date_of_form(form.date.as_str())
    } else {
        None
    };
    create_income_dated(ledger, token, form, date)
}

/// Creates an income for a request with guest access, where the date of the
/// form was read as `date`.
pub fn create_income_dated(
    ledger: &mut Ledger,
    token: Option<&str>,
    form: &CreateIncomeBody,
    date: Option<i64>,
) -> (reply: Reply)
    requires
        old(ledger).wf(),
    ensures
        final(ledger).wf(),
        (final(ledger)@, reply@) == income_created(
            old(ledger)@,
            old(ledger)@.grants(token_text(token), UserRole::Guest),
            form.name@,
            form.amount,
            form.sheet_id,
            date,
        ),
{
    if !request_authentication(ledger, token, UserRole::Guest).has_access() {
        return Reply::no_access();
    }
    let date = match date {
        Some(date) => date,
        None => {
            return Reply::refusal("income date is not a date");
        },
    };
    let income = Income::new(form.name.as_str(), form.amount, form.sheet_id, date);
    match income.insert(ledger) {
        Ok(()) => {},
        Err(_) => {
            return Reply::failure("Internal server error: error when inserting income into database");
        },
    }
    match ledger.settle(income.sheet_id, income.amount as i64) {
        Ok(()) => Reply::redirect(Location::Sheet(form.sheet_id), "created"),
        Err(_) => Reply::failure(
            "Internal server error: error when updating parent sheet in database",
        ),
    }
}

/// Edits an income for a request with guest access. The date of the form is
/// read as a day.
pub fn update_income_by_id(ledger: &mut Ledger, token: Option<&str>, form: &UpdateincomeByIdBody) -> (reply:
    Reply)
    requires
        old(ledger).wf(),
    ensures
        final(ledger).wf(),
        (final(ledger)@, reply@) == income_updated(
            old(ledger)@,
            old(ledger)@.grants(token_text(token), UserRole::Guest),
            form.id,
            form.name@,
            form.amount,
            midnight_of(form.date@),
        ),
{
    let date = if request_authentication(ledger, token, UserRole::Guest).has_access() {
        date_of_form(form.date.as_str())
    } else {
        None
    };
    update_income_by_id_dated(ledger, token, form, date)
}

/// Edits an income for a request with guest access, where the date of the
/// form was read as `date`.
pub fn update_income_by_id_dated(
    ledger: &mut Ledger,
    token: Option<&str>,
    form: &UpdateincomeByIdBody,
    date: Option<i64>,
) -> (reply: Reply)
    requires
        old(ledger).wf(),
    ensures
        final(ledger).wf(),
        (final(ledger)@, reply@) == income_updated(
            old(ledger)@,
            old(ledger)@.grants(token_text(token), UserRole::Guest),
            form.id,
            form.name@,
            form.amount,
            date,
        ),
{
    if !request_authentication(ledger, token, UserRole::Guest).has_access() {
        return Reply::no_access();
    }
    let date = match date {
        Some(date) => date,
        None => {
            return Reply::refusal("income date is not a date");
        },
    };
    let mut income = match Income::get_by_id(ledger, form.id) {
        Some(income) => income,
        None => {
            return Reply::redirect(Location::Income(form.id), "update");
        },
    };
    let before_update_amount = income.amount;
    income.amount = form.amount;
    income.name = form.name.clone();
    income.date = date;
    income.update(ledger);
    proof {
        first_where_is_a_row(
            old(ledger)@.incomes,
            |row: EntryView| row.id == form.id as int,
        );
    }
    match ledger.settle(income.sheet_id, income.amount as i64 - before_update_amount as i64) {
        Ok(()) => Reply::redirect(Location::Sheet(income.sheet_id), "update"),
        Err(_) => Reply::failure(
            "Internal server error: error when updating parent sheet in database",
        ),
    }
}

/// Deletes an income for a request with guest access.
pub fn delete_income_by_id(ledger: &mut Ledger, token: Option<&str>, form: &DeleteincomeByIdBody) -> (reply:
    Reply)
    requires
        old(ledger).wf(),
    ensures
        final(ledger).wf(),
        (final(ledger)@, reply@) == income_deleted(
            old(ledger)@,
            old(ledger)@.grants(token_text(token), UserRole::Guest),
            form.id,
            form.sheet_id,
        ),
{
    if !request_authentication(ledger, token, UserRole::Guest).has_access() {
        return Reply::no_access();
    }
    let income = match Income::get_by_id(ledger, form.id) {
        Some(income) => income,
        None => {
            return Reply::redirect(Location::Sheet(form.sheet_id), "created");
        },
    };
    income.remove(ledger);
    proof {
        first_where_is_a_row(
            old(ledger)@.incomes,
            |row: EntryView| row.id == form.id as int,
        );
    }
    match ledger.settle(income.sheet_id, -(income.amount as i64)) {
        Ok(()) => Reply::redirect(Location::Sheet(form.sheet_id), "created"),
        Err(_) => Reply::failure(
            "Internal server error: error when updating parent sheet in database",
        ),
    }
}

} // verus!
