//! Linking a sheet into another and unlinking it. A link hands the current
//! total of the inherited sheet to the parent and to every sheet that
//! inherits the parent; unlinking takes it back.

use vstd::prelude::*;
use crate::api::reply::{
    failure, no_access, redirect, refusal, Location, Reply, ReplyView, Status,
};
use crate::api::balance::{delta_moves_the_surplus, link_moves_the_surplus};
use crate::models::ancestry::{delta_counts_chains, no_chain_leads_back};
use crate::models::inherited_sheet::{EdgeView, InheritedSheet};
use crate::models::ledger::{
    missing_sheet_is_not_found, stored_sheet_place, Ledger, LedgerView,
};
use crate::models::sheet::Sheet;
use crate::models::query::first_where_is_a_row;
use crate::models::user::UserRole;
use crate::utils::date::{date_of_form, midnight_of};
use crate::utils::req_auth::{request_authentication, token_text};

verus! {

/// The form that inherits `inherited_sheet_id` into `sheet_id`.
#[derive(Debug)]
pub struct CreateInheritedSheetBody {
    pub date: String,
    pub sheet_id: i32,
    pub inherited_sheet_id: i32,
}

/// The form that ends the inheritance of `inherited_sheet_id` into `sheet_id`.
#[derive(Debug)]
pub struct DeleteInheritedSheetByIdBody {
    pub sheet_id: i32,
    pub inherited_sheet_id: i32,
}

/// What inheriting a sheet into another does and answers. `allowed` says
/// whether the request has access, `date` what the date of the form was
/// read as.
///
/// A form whose date is not a date is refused, and nothing is stored. Else
/// the edge is stored first. Then, where both sheets are stored, the parent
/// and the sheets that inherit it take in the current total of the
/// inherited sheet. Where that fails, the edge stays stored and the totals
/// stay as they were.
pub open spec fn inherited_sheet_created(
    ledger: LedgerView,
    allowed: bool,
    sheet_id: i32,
    inherited_sheet_id: i32,
    date: Option<i64>,
) -> (LedgerView, ReplyView) {
    if !allowed {
        (ledger, no_access())
    } else if date is None {
        (ledger, refusal("inherited_sheet date is not a date"@))
    } else {
        let linked = ledger.with_edge_inserted(
            EdgeView {
                parent_sheet_id: sheet_id as int,
                inherited_sheet_id: inherited_sheet_id as int,
                date: date.unwrap() as int,
            },
        );
        match linked.sheet_with_id(inherited_sheet_id as int) {
            None => (linked, redirect(Location::Sheet(sheet_id), "created"@)),
            Some(inherited) => if !linked.can_settle(sheet_id as int, inherited.cached_value) {
                (
                    linked,
                    failure(
                        "Internal server error: error when updating parent sheet cached value in database"@,
                    ),
                )
            } else {
                (
                    linked.with_delta(sheet_id as int, inherited.cached_value),
                    redirect(Location::Sheet(sheet_id), "created"@),
                )
            },
        }
    }
}

/// What ending an inheritance does and answers.
///
/// Every edge between the two sheets is removed first. Then, where both
/// sheets are stored, the parent and the sheets that inherit it give up the
/// current total of the inherited sheet, once. Where no edge links the two
/// sheets, nothing happens.
pub open spec fn inherited_sheet_deleted(
    ledger: LedgerView,
    allowed: bool,
    sheet_id: i32,
    inherited_sheet_id: i32,
) -> (LedgerView, ReplyView) {
    if !allowed {
        (ledger, no_access())
    } else if ledger.edge_between(sheet_id as int, inherited_sheet_id as int) is None {
        (ledger, redirect(Location::Sheet(sheet_id), "created"@))
    } else {
        let unlinked = ledger.without_edge(sheet_id as int, inherited_sheet_id as int);
        match unlinked.sheet_with_id(inherited_sheet_id as int) {
            None => (unlinked, redirect(Location::Sheet(sheet_id), "created"@)),
            Some(inherited) => if !unlinked.can_settle(sheet_id as int, -inherited.cached_value) {
                (
                    unlinked,
                    failure(
                        "Internal server error: error when updating parent sheet cached value in database"@,
                    ),
                )
            } else {
                (
                    unlinked.with_delta(sheet_id as int, -inherited.cached_value),
                    redirect(Location::Sheet(sheet_id), "created"@),
                )
            },
        }
    }
}

/// An edge changes no sheet, so what is stored under an id stays.
pub proof fn link_keeps_the_sheets(ledger: LedgerView, edge: EdgeView)
    requires
        ledger.wf(),
    ensures
        ledger.with_edge_inserted(edge).wf(),
        forall|id: int|
            ledger.with_edge_inserted(edge).sheet_with_id(id) == ledger.sheet_with_id(id),
        forall|id: int| ledger.with_edge_inserted(edge).has_sheet(id) == ledger.has_sheet(id),
{
    let linked = ledger.with_edge_inserted(edge);
    assert forall|id: int| linked.has_sheet(id) == ledger.has_sheet(id) by {
        if linked.has_sheet(id) {
            let j = choose|j: int| 0 <= j < linked.sheets.len() && (#[trigger] linked.sheets[j]).id == id;
            assert(ledger.sheets[j].id == id);
        }
        if ledger.has_sheet(id) {
            let j = choose|j: int| 0 <= j < ledger.sheets.len() && (#[trigger] ledger.sheets[j]).id == id;
            assert(linked.sheets[j].id == id);
        }
    }
}

/// Inheriting a stored sheet into another hands over its current total:
/// the total of the parent rises by exactly the total of the inherited
/// sheet, and the total of every sheet above by that total once for each
/// chain of edges from the parent up to it.
pub proof fn link_hands_over_the_total(
    ledger: LedgerView,
    sheet_id: i32,
    inherited_sheet_id: i32,
    date: i64,
    to: int,
)
    requires
        ledger.wf(),
        ledger.has_sheet(sheet_id as int),
        ledger.has_sheet(inherited_sheet_id as int),
        ledger.has_sheet(to),
        inherited_sheet_created(
            ledger,
            true,
            sheet_id,
            inherited_sheet_id,
            Some(date),
        ).1.status == Status::Found,
    ensures
        ({
            let after = inherited_sheet_created(
                ledger,
                true,
                sheet_id,
                inherited_sheet_id,
                Some(date),
            ).0;
            let linked = ledger.with_edge_inserted(
                EdgeView {
                    parent_sheet_id: sheet_id as int,
                    inherited_sheet_id: inherited_sheet_id as int,
                    date: date as int,
                },
            );
            &&& after.total_of(sheet_id as int) == ledger.total_of(sheet_id as int)
                + ledger.total_of(inherited_sheet_id as int)
            &&& after.total_of(to) == ledger.total_of(to) + ledger.total_of(
                inherited_sheet_id as int,
            ) * linked.paths(sheet_id as int, to, linked.sheets.len())
        }),
{
    let edge = EdgeView {
        parent_sheet_id: sheet_id as int,
        inherited_sheet_id: inherited_sheet_id as int,
        date: date as int,
    };
    let linked = ledger.with_edge_inserted(edge);
    link_keeps_the_sheets(ledger, edge);
    let parent = stored_sheet_place(ledger, sheet_id as int);
    let child = stored_sheet_place(ledger, inherited_sheet_id as int);
    let handed = ledger.total_of(inherited_sheet_id as int);
    assert(linked.sheet_with_id(inherited_sheet_id as int) is Some);
    assert(linked.can_settle(sheet_id as int, handed));
    assert(linked.ancestry_ends(sheet_id as int));
    delta_counts_chains(linked, sheet_id as int, handed, to);
    delta_counts_chains(linked, sheet_id as int, handed, sheet_id as int);
    let n = linked.sheets.len();
    no_chain_leads_back(linked, sheet_id as int, n, (n - 1) as nat);
    assert(linked.paths(sheet_id as int, sheet_id as int, n) == 1);
    assert(handed * 1 == handed) by (nonlinear_arith);
}

/// Inheriting a sheet into another keeps every stored sheet consistent:
/// what the parent gains from the new edge it takes in, and so does every
/// sheet above it.
pub proof fn link_keeps_the_surplus(
    ledger: LedgerView,
    sheet_id: i32,
    inherited_sheet_id: i32,
    date: i64,
    of: int,
)
    requires
        ledger.wf(),
        ledger.has_sheet(of),
        inherited_sheet_created(
            ledger,
            true,
            sheet_id,
            inherited_sheet_id,
            Some(date),
        ).1.status == Status::Found,
    ensures
        inherited_sheet_created(ledger, true, sheet_id, inherited_sheet_id, Some(date)).0.surplus(
            of,
        ) == ledger.surplus(of),
{
    let edge = EdgeView {
        parent_sheet_id: sheet_id as int,
        inherited_sheet_id: inherited_sheet_id as int,
        date: date as int,
    };
    let linked = ledger.with_edge_inserted(edge);
    link_keeps_the_sheets(ledger, edge);
    link_moves_the_surplus(ledger, edge, of);
    if linked.sheet_with_id(inherited_sheet_id as int) is Some {
        if !ledger.has_sheet(inherited_sheet_id as int) {
            missing_sheet_is_not_found(ledger, inherited_sheet_id as int);
        }
        let handed = ledger.total_of(inherited_sheet_id as int);
        if linked.sheet_with_id(sheet_id as int) is Some {
            delta_moves_the_surplus(linked, sheet_id as int, handed, of);
        } else {
            let at = stored_sheet_place(ledger, of);
            assert(of != sheet_id);
        }
    } else {
        if ledger.has_sheet(inherited_sheet_id as int) {
            let at = stored_sheet_place(ledger, inherited_sheet_id as int);
        }
    }
}

/// Inherits a sheet into another for a request with guest access. The date
/// of the form is read as a day.
pub fn create_inherited_sheet(
    ledger: &mut Ledger,
    token: Option<&str>,
    form: &CreateInheritedSheetBody,
) -> (reply: Reply)
    requires
        old(ledger).wf(),
    ensures
        final(ledger).wf(),
        (final(ledger)@, reply@) == inherited_sheet_created(
            old(ledger)@,
            old(ledger)@.grants(token_text(token), UserRole::Guest),
            form.sheet_id,
            form.inherited_sheet_id,
            midnight_of(form.date@),
        ),
{
    let date = if request_authentication(ledger, token, UserRole::Guest).has_access() {
        date_of_form(form.date.as_str())
    } else {
        None
    };
    create_inherited_sheet_dated(ledger, token, form, date)
}

/// Inherits a sheet into another for a request with guest access, where
/// the date of the form was read as `date`.
pub fn create_inherited_sheet_dated(
    ledger: &mut Ledger,
    token: Option<&str>,
    form: &CreateInheritedSheetBody,
    date: Option<i64>,
) -> (reply: Reply)
    requires
        old(ledger).wf(),
    ensures
        final(ledger).wf(),
        (final(ledger)@, reply@) == inherited_sheet_created(
            old(ledger)@,
            old(ledger)@.grants(token_text(token), UserRole::Guest),
            form.sheet_id,
            form.inherited_sheet_id,
            date,
        ),
{
    if !request_authentication(ledger, token, UserRole::Guest).has_access() {
        return Reply::no_access();
    }
    let date = match date {
        Some(date) => date,
        None => {
            return Reply::refusal("inherited_sheet date is not a date");
        },
    };
    let inherited_sheet = InheritedSheet::new(form.sheet_id, form.inherited_sheet_id, date);
    inherited_sheet.insert(ledger);
    let child_sheet = match Sheet::get_by_id(ledger, inherited_sheet.inherited_sheet_id) {
        Some(child_sheet) => child_sheet,
        None => {
            return Reply::redirect(Location::Sheet(form.sheet_id), "created");
        },
    };
    match ledger.settle(inherited_sheet.parent_sheet_id, child_sheet.cached_value as i64) {
        Ok(()) => Reply::redirect(Location::Sheet(form.sheet_id), "created"),
        Err(_) => Reply::failure(
            "Internal server error: error when updating parent sheet cached value in database",
        ),
    }
}

/// Ends an inheritance for a request with guest access.
pub fn delete_inherited_sheet_by_id(
    ledger: &mut Ledger,
    token: Option<&str>,
    form: &DeleteInheritedSheetByIdBody,
) -> (reply: Reply)
    requires
        old(ledger).wf(),
    ensures
        final(ledger).wf(),
        (final(ledger)@, reply@) == inherited_sheet_deleted(
            old(ledger)@,
            old(ledger)@.grants(token_text(token), UserRole::Guest),
            form.sheet_id,
            form.inherited_sheet_id,
        ),
{
    if !request_authentication(ledger, token, UserRole::Guest).has_access() {
        return Reply::no_access();
    }
    let inherited_sheet = match InheritedSheet::get_by_parent_and_inherited_id(
        ledger,
        form.sheet_id,
        form.inherited_sheet_id,
    ) {
        Some(inherited_sheet) => inherited_sheet,
        None => {
            return Reply::redirect(Location::Sheet(form.sheet_id), "created");
        },
    };
    proof {
        first_where_is_a_row(
            old(ledger)@.edges,
            |edge: EdgeView|
                edge.parent_sheet_id == form.sheet_id as int && edge.inherited_sheet_id
                    == form.inherited_sheet_id as int,
        );
    }
    inherited_sheet.remove(ledger);
    let child_sheet = match Sheet::get_by_id(ledger, inherited_sheet.inherited_sheet_id) {
        Some(child_sheet) => child_sheet,
        None => {
            return Reply::redirect(Location::Sheet(form.sheet_id), "created");
        },
    };
    match ledger.settle(inherited_sheet.parent_sheet_id, -(child_sheet.cached_value as i64)) {
        Ok(()) => Reply::redirect(Location::Sheet(form.sheet_id), "created"),
        Err(_) => Reply::failure(
            "Internal server error: error when updating parent sheet cached value in database",
        ),
    }
}

} // verus!
