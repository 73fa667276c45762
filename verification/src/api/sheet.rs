//! Creating, renaming and deleting sheets.

use vstd::prelude::*;
use crate::api::reply::{failure, no_access, redirect, refusal, Location, Reply, ReplyView};
use crate::models::expense::EntryView;
use crate::models::ledger::{
    missing_sheet_is_not_found, stored_sheet_place, Ledger, LedgerView,
};
use crate::models::query::{all_where_has, first_where_is_a_row, ids_generated_after_filter};
use crate::models::sheet::{Sheet, SheetView};
use crate::models::user::UserRole;
use crate::utils::req_auth::{request_authentication, token_text};

verus! {

/// The form that creates a sheet, and the form that names one.
#[derive(Debug)]
pub struct CreateSheetBody {
    pub name: String,
}

/// The form of the page that renames the sheet `id`.
#[derive(Debug)]
pub struct RenameSheetByIdBody {
    pub name: String,
    pub id: i32,
}

/// The form that deletes the sheet `id`.
#[derive(Debug)]
pub struct DeleteSheetByIdBody {
    pub id: i32,
}

/// What creating a sheet does and answers: a sheet with this name and an
/// empty total is stored, unless the name is empty.
pub open spec fn sheet_created(ledger: LedgerView, allowed: bool, name: Seq<char>) -> (
    LedgerView,
    ReplyView,
) {
    if !allowed {
        (ledger, no_access())
    } else if name.len() == 0 {
        (ledger, refusal("sheet name is required"@))
    } else if ledger.next_sheet_id >= i32::MAX {
        (ledger, failure("Internal server error: error when inserting sheet into database"@))
    } else {
        (ledger.with_sheet_inserted(name, 0), redirect(Location::Sheets, "created"@))
    }
}

/// What the renaming of a sheet answers. The form names the sheet by the
/// name it is to have, so the sheet found is stored back as it was, and the
/// ledger stays as it is.
pub open spec fn sheet_renamed(allowed: bool, name: Seq<char>) -> ReplyView {
    if !allowed {
        no_access()
    } else if name.len() == 0 {
        refusal("sheet name is required"@)
    } else {
        redirect(Location::Sheets, "renamed"@)
    }
}

/// What deleting a sheet does and answers: where the sheet is stored it is
/// removed with its expenses, its incomes and the edges that start or end
/// at it. No other sheet changes: a sheet that inherited it keeps its total.
pub open spec fn sheet_deleted(ledger: LedgerView, allowed: bool, id: i32) -> (
    LedgerView,
    ReplyView,
) {
    if !allowed {
        (ledger, no_access())
    } else if ledger.sheet_with_id(id as int) is None {
        (ledger, redirect(Location::Sheets, "created"@))
    } else {
        (ledger.without_sheet(id as int), redirect(Location::Sheets, "created"@))
    }
}

/// Deleting a sheet changes no other sheet: a sheet that inherited the
/// deleted one keeps the total it had, with the share of the deleted sheet
/// still in it.
pub proof fn deleting_a_sheet_keeps_the_other_sheets(ledger: LedgerView, id: i32, other: int)
    requires
        ledger.wf(),
        other != id,
    ensures
        sheet_deleted(ledger, true, id).0.sheet_with_id(other) == ledger.sheet_with_id(other),
        sheet_deleted(ledger, true, id).0.has_sheet(other) == ledger.has_sheet(other),
{
    let after = sheet_deleted(ledger, true, id).0;
    if ledger.sheet_with_id(id as int) is Some {
        let stays = |row: SheetView| row.id != id as int;
        ids_generated_after_filter(
            ledger.sheets,
            |row: SheetView| row.id,
            ledger.next_sheet_id,
            stays,
        );
        ids_generated_after_filter(
            ledger.expenses,
            |row: EntryView| row.id,
            ledger.next_expense_id,
            |row: EntryView| row.sheet_id != id as int,
        );
        ids_generated_after_filter(
            ledger.incomes,
            |row: EntryView| row.id,
            ledger.next_income_id,
            |row: EntryView| row.sheet_id != id as int,
        );
        assert(after.wf());
        if ledger.has_sheet(other) {
            let at = stored_sheet_place(ledger, other);
            let k = all_where_has(ledger.sheets, stays, at);
            assert(after.sheets[k].id == other);
            let found = stored_sheet_place(after, other);
            assert(found == k);
        } else {
            if after.has_sheet(other) {
                let k = choose|k: int|
                    0 <= k < after.sheets.len() && (#[trigger] after.sheets[k]).id == other;
                assert(ledger.sheets.contains(after.sheets[k]));
                let at = choose|at: int|
                    0 <= at < ledger.sheets.len() && ledger.sheets[at] == after.sheets[k];
                assert(ledger.sheets[at].id == other);
            }
            missing_sheet_is_not_found(ledger, other);
            missing_sheet_is_not_found(after, other);
        }
    }
}

/// Creates a sheet for a request with guest access.
pub fn create_sheet(ledger: &mut Ledger, token: Option<&str>, form: &CreateSheetBody) -> (reply:
    Reply)
    requires
        old(ledger).wf(),
    ensures
        final(ledger).wf(),
        (final(ledger)@, reply@) == sheet_created(
            old(ledger)@,
            old(ledger)@.grants(token_text(token), UserRole::Guest),
            form.name@,
        ),
{
    if !request_authentication(ledger, token, UserRole::Guest).has_access() {
        return Reply::no_access();
    }
    if form.name.as_str().is_empty() {
        return Reply::refusal("sheet name is required");
    }
    let sheet = Sheet::new(form.name.as_str());
    match sheet.insert(ledger) {
        Ok(()) => Reply::redirect(Location::Sheets, "created"),
        Err(_) => Reply::failure("Internal server error: error when inserting sheet into database"),
    }
}

/// Answers the renaming of a sheet for a request with guest access.
pub fn rename_sheet_by_id(ledger: &mut Ledger, token: Option<&str>, form: &CreateSheetBody) -> (reply:
    Reply)
    requires
        old(ledger).wf(),
    ensures
        final(ledger).wf(),
        final(ledger)@ == old(ledger)@,
        reply@ == sheet_renamed(
            old(ledger)@.grants(token_text(token), UserRole::Guest),
            form.name@,
        ),
{
    if !request_authentication(ledger, token, UserRole::Guest).has_access() {
        return Reply::no_access();
    }
    if form.name.as_str().is_empty() {
        return Reply::refusal("sheet name is required");
    }
    match Sheet::get_by_name(ledger, form.name.as_str()) {
        Some(mut sheet) => {
            sheet.name = form.name.clone();
            proof {
                let before = old(ledger)@;
                first_where_is_a_row(
                    before.sheets,
                    |row: SheetView| row.name == form.name@,
                );
                let k = choose|k: int| 0 <= k < before.sheets.len() && before.sheets[k] == sheet@;
                assert(before.has_sheet(sheet@.id));
                let at = stored_sheet_place(before, sheet@.id);
                assert(before.with_sheet_saved(sheet@).sheets =~= before.sheets);
            }
            sheet.update(ledger);
        },
        None => {},
    }
    Reply::redirect(Location::Sheets, "renamed")
}

/// Deletes a sheet for a request with guest access.
pub fn delete_sheet_by_id(ledger: &mut Ledger, token: Option<&str>, form: &DeleteSheetByIdBody) -> (reply:
    Reply)
    requires
        old(ledger).wf(),
    ensures
        final(ledger).wf(),
        (final(ledger)@, reply@) == sheet_deleted(
            old(ledger)@,
            old(ledger)@.grants(token_text(token), UserRole::Guest),
            form.id,
        ),
{
    if !request_authentication(ledger, token, UserRole::Guest).has_access() {
        return Reply::no_access();
    }
    match Sheet::get_by_id(ledger, form.id) {
        Some(sheet) => {
            proof {
                first_where_is_a_row(
                    old(ledger)@.sheets,
                    |row: SheetView| row.id == form.id as int,
                );
            }
            sheet.remove(ledger);
        },
        None => {},
    }
    Reply::redirect(Location::Sheets, "created")
}

} // verus!
