//! The total of a sheet follows its records. A sheet is consistent where
//! its total is the sum of its incomes, less the sum of its expenses, plus
//! the totals of the sheets inherited into it. Whatever is created, edited
//! and deleted, a consistent sheet stays consistent.

use vstd::prelude::*;
use crate::api::expense::{expense_created, expense_deleted, expense_updated};
use crate::api::income::{income_created, income_deleted, income_updated};
use crate::api::reply::{failure, redirect, Location, ReplyView};
use crate::models::ancestry::{delta_counts_chains, delta_keeps_the_sheets};
use crate::models::generations::{
    chains_by_last_edge, over_inherited_adds, over_inherited_of_same_edges,
    over_inherited_of_same_graph,
};
use crate::models::inherited_sheet::EdgeView;
use crate::models::expense::EntryView;
use crate::models::ledger::{
    missing_sheet_is_not_found, stored_sheet_place, Ledger, LedgerView,
};
use crate::models::sheet::SheetView;
use crate::models::query::{
    all_where_keeps_all, first_where, first_where_is_a_row, ids_generated_after_change,
    ids_generated_after_filter, ids_generated_after_push,
};

verus! {

/// What a record counts for the sheet `sheet_id`: its amount where it
/// belongs to the sheet, nothing else.
pub open spec fn share(row: EntryView, sheet_id: int) -> int {
    if row.sheet_id == sheet_id {
        row.amount
    } else {
        0
    }
}

/// The sum of the amounts of the records of the sheet `sheet_id`.
pub open spec fn amounts_of(rows: Seq<EntryView>, sheet_id: int) -> int
    decreases rows.len(),
{
    if rows.len() == 0 {
        0
    } else {
        amounts_of(rows.drop_last(), sheet_id) + share(rows.last(), sheet_id)
    }
}

impl LedgerView {
    /// What the records of the sheet `sheet_id` add up to: its incomes less
    /// its expenses.
    pub open spec fn balance_of(self, sheet_id: int) -> int {
        amounts_of(self.incomes, sheet_id) - amounts_of(self.expenses, sheet_id)
    }

    /// The total of the sheet `sheet_id`, if it is stored, is what its
    /// records add up to.
    pub open spec fn is_balanced(self, sheet_id: int) -> bool {
        self.has_sheet(sheet_id) ==> self.total_of(sheet_id) == self.balance_of(sheet_id)
    }

    /// What the sheet `sheet_id` has from the sheets inherited into it: the
    /// total of the inherited sheet, once for each edge from a stored sheet.
    pub open spec fn inherited_total(self, sheet_id: int) -> int {
        self.over_inherited(sheet_id, self.edges.len() as int, |id: int| self.total_of(id))
    }

    /// What the total of the sheet `sheet_id` holds beyond what its records
    /// and the sheets inherited into it account for.
    pub open spec fn surplus(self, sheet_id: int) -> int {
        self.total_of(sheet_id) - self.balance_of(sheet_id) - self.inherited_total(sheet_id)
    }

    /// The total of the sheet `sheet_id`, if it is stored, is what its
    /// records add up to plus the totals of the sheets inherited into it.
    pub open spec fn is_consistent(self, sheet_id: int) -> bool {
        self.has_sheet(sheet_id) ==> self.surplus(sheet_id) == 0
    }

    /// Every total is one that a sheet can hold, as in the view of every
    /// ledger.
    pub open spec fn totals_fit(self) -> bool {
        forall|j: int|
            0 <= j < self.sheets.len() ==> i32::MIN <= (#[trigger] self.sheets[j]).cached_value
                <= i32::MAX
    }

    /// The sheet `sheet_id` is the end of no edge: nothing is inherited
    /// into it, and nothing inherits it.
    pub open spec fn stands_alone(self, sheet_id: int) -> bool {
        forall|i: int|
            0 <= i < self.edges.len() ==> (#[trigger] self.edges[i]).parent_sheet_id != sheet_id
                && self.edges[i].inherited_sheet_id != sheet_id
    }

    /// No sheet is inherited into the sheet `sheet_id`.
    pub open spec fn inherits_nothing(self, sheet_id: int) -> bool {
        forall|i: int|
            0 <= i < self.edges.len() ==> (#[trigger] self.edges[i]).parent_sheet_id != sheet_id
    }
}

/// A request to create, edit or delete a record, as the operations read it:
/// whether it has access, the fields of its form, and what the date of the
/// form was read as.
pub enum EntryRequest {
    CreateExpense { allowed: bool, name: Seq<char>, amount: i32, sheet_id: i32, date: Option<i64> },
    UpdateExpense { allowed: bool, id: i32, name: Seq<char>, amount: i32, date: Option<i64> },
    DeleteExpense { allowed: bool, id: i32, sheet_id: i32 },
    CreateIncome { allowed: bool, name: Seq<char>, amount: i32, sheet_id: i32, date: Option<i64> },
    UpdateIncome { allowed: bool, id: i32, name: Seq<char>, amount: i32, date: Option<i64> },
    DeleteIncome { allowed: bool, id: i32, sheet_id: i32 },
}

/// What a request does and answers.
pub open spec fn answer_to(ledger: LedgerView, request: EntryRequest) -> (LedgerView, ReplyView) {
    match request {
        EntryRequest::CreateExpense { allowed, name, amount, sheet_id, date } => expense_created(
            ledger,
            allowed,
            name,
            amount,
            sheet_id,
            date,
        ),
        EntryRequest::UpdateExpense { allowed, id, name, amount, date } => expense_updated(
            ledger,
            allowed,
            id,
            name,
            amount,
            date,
        ),
        EntryRequest::DeleteExpense { allowed, id, sheet_id } => expense_deleted(
            ledger,
            allowed,
            id,
            sheet_id,
        ),
        EntryRequest::CreateIncome { allowed, name, amount, sheet_id, date } => income_created(
            ledger,
            allowed,
            name,
            amount,
            sheet_id,
            date,
        ),
        EntryRequest::UpdateIncome { allowed, id, name, amount, date } => income_updated(
            ledger,
            allowed,
            id,
            name,
            amount,
            date,
        ),
        EntryRequest::DeleteIncome { allowed, id, sheet_id } => income_deleted(
            ledger,
            allowed,
            id,
            sheet_id,
        ),
    }
}

/// The sheet whose total a request is to change: that of the form for a
/// new record, that of the stored record for an edit or a deletion.
pub open spec fn sheet_of_request(ledger: LedgerView, request: EntryRequest) -> int {
    match request {
        EntryRequest::CreateExpense { sheet_id, .. } => sheet_id as int,
        EntryRequest::CreateIncome { sheet_id, .. } => sheet_id as int,
        EntryRequest::UpdateExpense { id, .. } => ledger.expense_with_id(
            id as int,
        ).unwrap().sheet_id,
        EntryRequest::DeleteExpense { id, .. } => ledger.expense_with_id(
            id as int,
        ).unwrap().sheet_id,
        EntryRequest::UpdateIncome { id, .. } => ledger.income_with_id(id as int).unwrap().sheet_id,
        EntryRequest::DeleteIncome { id, .. } => ledger.income_with_id(id as int).unwrap().sheet_id,
    }
}

/// A request leaves the sheet `sheet_id` unsettled where it changed a
/// record of that sheet and then failed to change the total: the total
/// would have left its range, or the ancestry of the sheet does not end.
pub open spec fn leaves_unsettled(ledger: LedgerView, request: EntryRequest, sheet_id: int) -> bool {
    &&& answer_to(ledger, request).1 == failure(
        "Internal server error: error when updating parent sheet in database"@,
    )
    &&& sheet_of_request(ledger, request) == sheet_id
}

/// The ledger after a run of requests, one after the other.
pub open spec fn after_requests(ledger: LedgerView, requests: Seq<EntryRequest>) -> LedgerView
    decreases requests.len(),
{
    if requests.len() == 0 {
        ledger
    } else {
        answer_to(after_requests(ledger, requests.drop_last()), requests.last()).0
    }
}

/// No request of the run leaves the sheet `sheet_id` unsettled.
pub open spec fn all_settled(ledger: LedgerView, requests: Seq<EntryRequest>, sheet_id: int) -> bool
    decreases requests.len(),
{
    requests.len() == 0 || (all_settled(ledger, requests.drop_last(), sheet_id)
        && !leaves_unsettled(
        after_requests(ledger, requests.drop_last()),
        requests.last(),
        sheet_id,
    ))
}

/// A record that is the only one with its id counts once: without it the
/// amounts of a sheet are less by its share.
proof fn amounts_without_row(rows: Seq<EntryView>, at: int, sheet_id: int)
    requires
        0 <= at < rows.len(),
        forall|i: int, j: int|
            0 <= i < j < rows.len() ==> (#[trigger] rows[i]).id != (#[trigger] rows[j]).id,
    ensures
        amounts_of(rows.filter(|row: EntryView| row.id != rows[at].id), sheet_id) == amounts_of(
            rows,
            sheet_id,
        ) - share(rows[at], sheet_id),
    decreases rows.len(),
{
    reveal(Seq::filter);
    let id = rows[at].id;
    let stays = |row: EntryView| row.id != id;
    let shorter = rows.drop_last();
    if at == rows.len() - 1 {
        assert forall|j: int| 0 <= j < shorter.len() implies stays(#[trigger] shorter[j]) by {
            assert(shorter[j] == rows[j]);
            assert(rows[j].id != rows[at].id);
        }
        all_where_keeps_all(shorter, stays);
    } else {
        assert(rows[at].id != rows[rows.len() - 1].id);
        assert(shorter[at] == rows[at]);
        assert forall|i: int, j: int| 0 <= i < j < shorter.len() implies (#[trigger] shorter[i]).id
            != (#[trigger] shorter[j]).id by {
            assert(shorter[i] == rows[i]);
            assert(shorter[j] == rows[j]);
        }
        amounts_without_row(shorter, at, sheet_id);
        let kept = shorter.filter(stays);
        assert(rows.filter(stays) == kept.push(rows.last()));
        assert(kept.push(rows.last()).drop_last() =~= kept);
    }
}

/// A record that is the only one with its id is edited alone: the amounts
/// of a sheet change by the change of its share.
proof fn amounts_with_row_saved(rows: Seq<EntryView>, at: int, edited: EntryView, sheet_id: int)
    requires
        0 <= at < rows.len(),
        edited.id == rows[at].id,
        forall|i: int, j: int|
            0 <= i < j < rows.len() ==> (#[trigger] rows[i]).id != (#[trigger] rows[j]).id,
    ensures
        amounts_of(
            rows.map_values(
                |stored: EntryView|
                    if stored.id == edited.id {
                        EntryView {
                            name: edited.name,
                            amount: edited.amount,
                            date: edited.date,
                            ..stored
                        }
                    } else {
                        stored
                    },
            ),
            sheet_id,
        ) == amounts_of(rows, sheet_id) - share(rows[at], sheet_id) + share(
            EntryView { amount: edited.amount, ..rows[at] },
            sheet_id,
        ),
    decreases rows.len(),
{
    let save = |stored: EntryView|
        if stored.id == edited.id {
            EntryView { name: edited.name, amount: edited.amount, date: edited.date, ..stored }
        } else {
            stored
        };
    let shorter = rows.drop_last();
    assert(rows.map_values(save).drop_last() =~= shorter.map_values(save));
    assert(rows.map_values(save).last() == save(rows.last()));
    if at == rows.len() - 1 {
        assert forall|j: int| 0 <= j < shorter.len() implies save(#[trigger] shorter[j])
            == shorter[j] by {
            assert(shorter[j] == rows[j]);
            assert(rows[j].id != rows[at].id);
        }
        assert(shorter.map_values(save) =~= shorter);
    } else {
        assert(rows[at].id != rows[rows.len() - 1].id);
        assert(shorter[at] == rows[at]);
        assert forall|i: int, j: int| 0 <= i < j < shorter.len() implies (#[trigger] shorter[i]).id
            != (#[trigger] shorter[j]).id by {
            assert(shorter[i] == rows[i]);
            assert(shorter[j] == rows[j]);
        }
        amounts_with_row_saved(shorter, at, edited, sheet_id);
    }
}

/// The record found under an id stands at some place of its table.
proof fn found_row_place(rows: Seq<EntryView>, id: int) -> (at: int)
    requires
        first_where(rows, |row: EntryView| row.id == id) is Some,
    ensures
        0 <= at < rows.len(),
        rows[at] == first_where(rows, |row: EntryView| row.id == id).unwrap(),
        rows[at].id == id,
{
    let wanted = |row: EntryView| row.id == id;
    first_where_is_a_row(rows, wanted);
    let found = first_where(rows, wanted).unwrap();
    choose|k: int| 0 <= k < rows.len() && rows[k] == found
}

/// The totals of two ledgers with the same sheets are the same.
proof fn same_sheets_same_totals(ledger: LedgerView, other: LedgerView, sheet_id: int)
    requires
        ledger.sheets == other.sheets,
        ledger.edges == other.edges,
    ensures
        ledger.has_sheet(sheet_id) == other.has_sheet(sheet_id),
        ledger.total_of(sheet_id) == other.total_of(sheet_id),
        ledger.inherited_total(sheet_id) == other.inherited_total(sheet_id),
{
    let all = ledger.edges.len() as int;
    let here = |id: int| ledger.total_of(id);
    let there = |id: int| other.total_of(id);
    assert forall|id: int| ledger.has_sheet(id) implies #[trigger] here(id) == there(id) + 0
        * there(id) by {
        assert(0 * there(id) == 0) by (nonlinear_arith);
    }
    over_inherited_adds(ledger, sheet_id, all, here, there, 0, there);
    assert(0 * ledger.over_inherited(sheet_id, all, there) == 0) by (nonlinear_arith);
    over_inherited_of_same_graph(ledger, other, sheet_id, all, there);
}

/// A change applied to a sheet shows in the surplus of that sheet alone:
/// every sheet above takes in what the sheets inherited into it take in.
pub proof fn delta_moves_the_surplus(ledger: LedgerView, of: int, change: int, sheet_id: int)
    requires
        ledger.wf(),
        ledger.has_sheet(sheet_id),
        ledger.delta_can_be_applied(of, change),
    ensures
        ledger.with_delta(of, change).surplus(sheet_id) == ledger.surplus(sheet_id) + if sheet_id
            == of {
            change
        } else {
            0
        },
{
    let after = ledger.with_delta(of, change);
    if ledger.sheet_with_id(of) is Some {
        if !ledger.has_sheet(of) {
            missing_sheet_is_not_found(ledger, of);
        }
        first_where_is_a_row(ledger.sheets, |row: SheetView| row.id == of);
        assert(ledger.sheet_with_id(of).unwrap().id == of);
        assert(ledger.ancestry_ends(of));
        delta_keeps_the_sheets(ledger, of, change);
        let n = ledger.sheets.len();
        let all = ledger.edges.len() as int;
        let new_total = |id: int| after.total_of(id);
        let old_total = |id: int| ledger.total_of(id);
        let chains = |id: int| ledger.paths(of, id, n) as int;
        assert forall|id: int| ledger.has_sheet(id) implies #[trigger] new_total(id) == old_total(
            id,
        ) + change * chains(id) by {
            delta_counts_chains(ledger, of, change, id);
        }
        over_inherited_adds(ledger, sheet_id, all, new_total, old_total, change, chains);
        over_inherited_of_same_graph(ledger, after, sheet_id, all, new_total);
        chains_by_last_edge(ledger, of, sheet_id);
        delta_counts_chains(ledger, of, change, sheet_id);
        let reached = ledger.paths(of, sheet_id, n) as int;
        assert(change * (reached - 1) == change * reached - change) by (nonlinear_arith);
        assert(change * (reached - 0) == change * reached) by (nonlinear_arith);
        assert(after.edges == ledger.edges);
        assert(after.inherited_total(sheet_id) == after.over_inherited(sheet_id, all, new_total));
        assert(ledger.inherited_total(sheet_id) == ledger.over_inherited(
            sheet_id,
            all,
            old_total,
        ));
        assert(ledger.over_inherited(sheet_id, all, chains) == reached - if sheet_id == of {
            1int
        } else {
            0int
        });
        assert(after.inherited_total(sheet_id) == ledger.inherited_total(sheet_id) + change * (
        reached - if sheet_id == of {
            1int
        } else {
            0int
        }));
        assert(after.total_of(sheet_id) == ledger.total_of(sheet_id) + change * reached);
        assert(after.balance_of(sheet_id) == ledger.balance_of(sheet_id)) by {
            assert(after.incomes == ledger.incomes);
            assert(after.expenses == ledger.expenses);
        }
    } else {
        let at = stored_sheet_place(ledger, sheet_id);
        assert(sheet_id != of);
    }
}

/// A new edge into a sheet takes the total of the inherited sheet, if that
/// is stored, out of the surplus of the sheet, and leaves every other
/// surplus as it is.
pub proof fn link_moves_the_surplus(ledger: LedgerView, edge: EdgeView, sheet_id: int)
    ensures
        ledger.with_edge_inserted(edge).surplus(sheet_id) == ledger.surplus(sheet_id) - if edge.parent_sheet_id
            == sheet_id && ledger.has_sheet(edge.inherited_sheet_id) {
            ledger.total_of(edge.inherited_sheet_id)
        } else {
            0
        },
{
    let linked = ledger.with_edge_inserted(edge);
    let all = ledger.edges.len() as int;
    let here = |id: int| ledger.total_of(id);
    let there = |id: int| linked.total_of(id);
    assert forall|id: int| linked.has_sheet(id) == ledger.has_sheet(id) by {
        if linked.has_sheet(id) {
            let j = choose|j: int|
                0 <= j < linked.sheets.len() && (#[trigger] linked.sheets[j]).id == id;
            assert(ledger.sheets[j].id == id);
        }
        if ledger.has_sheet(id) {
            let j = choose|j: int|
                0 <= j < ledger.sheets.len() && (#[trigger] ledger.sheets[j]).id == id;
            assert(linked.sheets[j].id == id);
        }
    }
    assert forall|id: int| linked.has_sheet(id) implies #[trigger] there(id) == here(id) + 0
        * here(id) by {
        assert(0 * here(id) == 0) by (nonlinear_arith);
    }
    over_inherited_adds(linked, sheet_id, all + 1, there, here, 0, here);
    assert(0 * linked.over_inherited(sheet_id, all + 1, here) == 0) by (nonlinear_arith);
    assert(linked.edges[all] == edge);
    over_inherited_of_same_edges(linked, ledger, sheet_id, all, here);
}

/// Settling a record keeps the surplus of a sheet: where the records of the
/// sheet have changed by `change`, the total changes by `change`; a change
/// of another sheet reaches the sheet as it reaches the sheets inherited
/// into it.
proof fn settling_keeps_surplus(
    before: LedgerView,
    stored: LedgerView,
    of: int,
    change: int,
    sheet_id: int,
)
    requires
        before.wf(),
        stored.wf(),
        stored.sheets == before.sheets,
        stored.edges == before.edges,
        stored.balance_of(sheet_id) == before.balance_of(sheet_id) + (if of == sheet_id {
            change
        } else {
            0
        }),
    ensures
        stored.has_sheet(sheet_id) == before.has_sheet(sheet_id),
        of != sheet_id ==> stored.surplus(sheet_id) == before.surplus(sheet_id),
        stored.can_settle(of, change) ==> ({
            let after = stored.with_delta(of, change);
            &&& after.wf()
            &&& after.edges == before.edges
            &&& after.has_sheet(sheet_id) == before.has_sheet(sheet_id)
            &&& before.has_sheet(sheet_id) ==> after.surplus(sheet_id) == before.surplus(sheet_id)
        }),
{
    same_sheets_same_totals(stored, before, sheet_id);
    if stored.can_settle(of, change) {
        let after = stored.with_delta(of, change);
        delta_keeps_the_sheets(stored, of, change);
        if stored.has_sheet(sheet_id) {
            if stored.sheet_with_id(of) is Some {
                delta_moves_the_surplus(stored, of, change, sheet_id);
            } else {
                if stored.has_sheet(of) {
                    let at = stored_sheet_place(stored, of);
                }
                assert(of != sheet_id);
                assert(after == stored);
            }
        }
    }
}

/// One request keeps the surplus of every stored sheet, unless it leaves
/// the sheet unsettled. It stores and removes no sheet and no edge.
pub proof fn request_keeps_surplus(ledger: LedgerView, request: EntryRequest, sheet_id: int)
    requires
        ledger.wf(),
        !leaves_unsettled(ledger, request, sheet_id),
    ensures
        answer_to(ledger, request).0.wf(),
        answer_to(ledger, request).0.edges == ledger.edges,
        answer_to(ledger, request).0.has_sheet(sheet_id) == ledger.has_sheet(sheet_id),
        ledger.has_sheet(sheet_id) ==> answer_to(ledger, request).0.surplus(sheet_id)
            == ledger.surplus(sheet_id),
{
    let after = answer_to(ledger, request).0;
    let by_id = |row: EntryView| row.id;
    match request {
        EntryRequest::CreateExpense { allowed, name, amount, sheet_id: of, date } => {
            if allowed && date is Some && ledger.next_expense_id < i32::MAX {
                let row = EntryView {
                    id: ledger.next_expense_id,
                    name,
                    amount: amount as int,
                    date: date.unwrap() as int,
                    sheet_id: of as int,
                };
                let stored = ledger.with_expense_inserted(row);
                ids_generated_after_push(ledger.expenses, by_id, ledger.next_expense_id, row);
                assert(stored.expenses.drop_last() =~= ledger.expenses);
                settling_keeps_surplus(ledger, stored, of as int, -amount, sheet_id);
            }
        },
        EntryRequest::CreateIncome { allowed, name, amount, sheet_id: of, date } => {
            if allowed && date is Some && ledger.next_income_id < i32::MAX {
                let row = EntryView {
                    id: ledger.next_income_id,
                    name,
                    amount: amount as int,
                    date: date.unwrap() as int,
                    sheet_id: of as int,
                };
                let stored = ledger.with_income_inserted(row);
                ids_generated_after_push(ledger.incomes, by_id, ledger.next_income_id, row);
                assert(stored.incomes.drop_last() =~= ledger.incomes);
                settling_keeps_surplus(ledger, stored, of as int, amount as int, sheet_id);
            }
        },
        EntryRequest::UpdateExpense { allowed, id, name, amount, date } => {
            if allowed && date is Some && ledger.expense_with_id(id as int) is Some {
                let at = found_row_place(ledger.expenses, id as int);
                let old = ledger.expenses[at];
                let edited = EntryView {
                    name,
                    amount: amount as int,
                    date: date.unwrap() as int,
                    ..old
                };
                let stored = ledger.with_expense_saved(edited);
                amounts_with_row_saved(ledger.expenses, at, edited, sheet_id);
                ids_generated_after_change(
                    ledger.expenses,
                    stored.expenses,
                    by_id,
                    ledger.next_expense_id,
                );
                settling_keeps_surplus(ledger, stored, old.sheet_id, old.amount - amount, sheet_id);
            }
        },
        EntryRequest::UpdateIncome { allowed, id, name, amount, date } => {
            if allowed && date is Some && ledger.income_with_id(id as int) is Some {
                let at = found_row_place(ledger.incomes, id as int);
                let old = ledger.incomes[at];
                let edited = EntryView {
                    name,
                    amount: amount as int,
                    date: date.unwrap() as int,
                    ..old
                };
                let stored = ledger.with_income_saved(edited);
                amounts_with_row_saved(ledger.incomes, at, edited, sheet_id);
                ids_generated_after_change(
                    ledger.incomes,
                    stored.incomes,
                    by_id,
                    ledger.next_income_id,
                );
                settling_keeps_surplus(ledger, stored, old.sheet_id, amount - old.amount, sheet_id);
            }
        },
        EntryRequest::DeleteExpense { allowed, id, sheet_id: named } => {
            if allowed && ledger.expense_with_id(id as int) is Some {
                let at = found_row_place(ledger.expenses, id as int);
                let old = ledger.expenses[at];
                let stored = ledger.without_expense(id as int);
                amounts_without_row(ledger.expenses, at, sheet_id);
                ids_generated_after_filter(
                    ledger.expenses,
                    by_id,
                    ledger.next_expense_id,
                    |row: EntryView| row.id != id as int,
                );
                settling_keeps_surplus(ledger, stored, old.sheet_id, old.amount, sheet_id);
            }
        },
        EntryRequest::DeleteIncome { allowed, id, sheet_id: named } => {
            if allowed && ledger.income_with_id(id as int) is Some {
                let at = found_row_place(ledger.incomes, id as int);
                let old = ledger.incomes[at];
                let stored = ledger.without_income(id as int);
                amounts_without_row(ledger.incomes, at, sheet_id);
                ids_generated_after_filter(
                    ledger.incomes,
                    by_id,
                    ledger.next_income_id,
                    |row: EntryView| row.id != id as int,
                );
                settling_keeps_surplus(ledger, stored, old.sheet_id, -old.amount, sheet_id);
            }
        },
    }
}

/// The totals of a ledger are totals that a sheet can hold.
pub proof fn totals_of_a_ledger_fit(ledger: Ledger)
    ensures
        ledger@.totals_fit(),
{
    assert forall|j: int| 0 <= j < ledger@.sheets.len() implies i32::MIN <= (
    #[trigger] ledger@.sheets[j]).cached_value <= i32::MAX by {
        assert(ledger@.sheets[j] == ledger.sheets@[j]@);
    }
}

/// No sheet inherits a sheet that is the end of no edge.
proof fn nothing_inherits(ledger: LedgerView, sheet_id: int, count: int)
    requires
        ledger.stands_alone(sheet_id),
    ensures
        ledger.parents_among(sheet_id, count).len() == 0,
    decreases count,
{
    if 0 < count <= ledger.edges.len() {
        nothing_inherits(ledger, sheet_id, count - 1);
        assert(ledger.edges[count - 1].inherited_sheet_id != sheet_id);
    }
}

/// A stored sheet that is the end of no edge takes any change that its
/// total can hold, and no other sheet is part of it.
pub proof fn lone_sheet_takes_the_change(ledger: LedgerView, sheet_id: int, change: int)
    requires
        ledger.wf(),
        ledger.totals_fit(),
        ledger.has_sheet(sheet_id),
        ledger.stands_alone(sheet_id),
        i32::MIN <= ledger.total_of(sheet_id) + change <= i32::MAX,
    ensures
        ledger.can_settle(sheet_id, change),
        ledger.with_delta(sheet_id, change).total_of(sheet_id) == ledger.total_of(sheet_id)
            + change,
{
    let n = ledger.sheets.len();
    let at = stored_sheet_place(ledger, sheet_id);
    nothing_inherits(ledger, sheet_id, ledger.edges.len() as int);
    assert(ledger.parents(sheet_id).len() == 0);
    assert(ledger.ends_within(sheet_id, n));
    assert forall|j: int| 0 <= j < ledger.sheets.len() implies i32::MIN <= (
    #[trigger] ledger.sheets[j]).cached_value + change * ledger.ancestor_paths(
        sheet_id,
        ledger.sheets[j].id,
    ) <= i32::MAX by {
        assert(ledger.paths_from_each(
            ledger.parents(sheet_id),
            ledger.sheets[j].id,
            (n - 1) as nat,
        ) == 0);
        assert(change * 0 == 0) by (nonlinear_arith);
    }
    assert(ledger.raise_fits(sheet_id, change));
    delta_counts_chains(ledger, sheet_id, change, sheet_id);
    assert(ledger.paths(sheet_id, sheet_id, n) == 1);
    assert(change * 1 == change) by (nonlinear_arith);
}

/// Creating an expense of a stored sheet that is the end of no edge stores
/// the expense and takes its amount off the total, provided the table has
/// an id to give and the total can hold what is left. A sheet that was in
/// balance stays in balance.
pub proof fn creating_an_expense_takes_its_amount(
    ledger: LedgerView,
    name: Seq<char>,
    amount: i32,
    sheet_id: i32,
    date: i64,
)
    requires
        ledger.wf(),
        ledger.totals_fit(),
        ledger.has_sheet(sheet_id as int),
        ledger.stands_alone(sheet_id as int),
        ledger.next_expense_id < i32::MAX,
        i32::MIN <= ledger.total_of(sheet_id as int) - amount <= i32::MAX,
    ensures
        ({
            let (after, reply) = expense_created(ledger, true, name, amount, sheet_id, Some(date));
            &&& reply == redirect(Location::Sheet(sheet_id), "created"@)
            &&& after.expenses == ledger.expenses.push(
                EntryView {
                    id: ledger.next_expense_id,
                    name,
                    amount: amount as int,
                    date: date as int,
                    sheet_id: sheet_id as int,
                },
            )
            &&& after.incomes == ledger.incomes
            &&& after.total_of(sheet_id as int) == ledger.total_of(sheet_id as int) - amount
            &&& ledger.is_balanced(sheet_id as int) ==> after.is_balanced(sheet_id as int)
        }),
{
    let row = EntryView {
        id: ledger.next_expense_id,
        name,
        amount: amount as int,
        date: date as int,
        sheet_id: sheet_id as int,
    };
    let stored = ledger.with_expense_inserted(row);
    ids_generated_after_push(ledger.expenses, |row: EntryView| row.id, ledger.next_expense_id, row);
    same_sheets_same_totals(stored, ledger, sheet_id as int);
    lone_sheet_takes_the_change(stored, sheet_id as int, -amount);
    delta_keeps_the_sheets(stored, sheet_id as int, -amount);
    assert(stored.expenses.drop_last() =~= ledger.expenses);
}

/// Creating an income of a stored sheet that is the end of no edge stores
/// the income and adds its amount to the total, provided the table has an
/// id to give and the total can hold the sum. A sheet that was in balance
/// stays in balance.
pub proof fn creating_an_income_adds_its_amount(
    ledger: LedgerView,
    name: Seq<char>,
    amount: i32,
    sheet_id: i32,
    date: i64,
)
    requires
        ledger.wf(),
        ledger.totals_fit(),
        ledger.has_sheet(sheet_id as int),
        ledger.stands_alone(sheet_id as int),
        ledger.next_income_id < i32::MAX,
        i32::MIN <= ledger.total_of(sheet_id as int) + amount <= i32::MAX,
    ensures
        ({
            let (after, reply) = income_created(ledger, true, name, amount, sheet_id, Some(date));
            &&& reply == redirect(Location::Sheet(sheet_id), "created"@)
            &&& after.incomes == ledger.incomes.push(
                EntryView {
                    id: ledger.next_income_id,
                    name,
                    amount: amount as int,
                    date: date as int,
                    sheet_id: sheet_id as int,
                },
            )
            &&& after.expenses == ledger.expenses
            &&& after.total_of(sheet_id as int) == ledger.total_of(sheet_id as int) + amount
            &&& ledger.is_balanced(sheet_id as int) ==> after.is_balanced(sheet_id as int)
        }),
{
    let row = EntryView {
        id: ledger.next_income_id,
        name,
        amount: amount as int,
        date: date as int,
        sheet_id: sheet_id as int,
    };
    let stored = ledger.with_income_inserted(row);
    ids_generated_after_push(ledger.incomes, |row: EntryView| row.id, ledger.next_income_id, row);
    same_sheets_same_totals(stored, ledger, sheet_id as int);
    lone_sheet_takes_the_change(stored, sheet_id as int, amount as int);
    delta_keeps_the_sheets(stored, sheet_id as int, amount as int);
    assert(stored.incomes.drop_last() =~= ledger.incomes);
}

/// After any run of requests that create, edit and delete expenses and
/// incomes, a sheet holds beyond its records and the sheets inherited into
/// it what it held before, provided no request left the sheet unsettled.
pub proof fn surplus_follows_the_records(
    ledger: LedgerView,
    requests: Seq<EntryRequest>,
    sheet_id: int,
)
    requires
        ledger.wf(),
        all_settled(ledger, requests, sheet_id),
    ensures
        after_requests(ledger, requests).wf(),
        after_requests(ledger, requests).edges == ledger.edges,
        after_requests(ledger, requests).has_sheet(sheet_id) == ledger.has_sheet(sheet_id),
        ledger.has_sheet(sheet_id) ==> after_requests(ledger, requests).surplus(sheet_id)
            == ledger.surplus(sheet_id),
    decreases requests.len(),
{
    if requests.len() > 0 {
        surplus_follows_the_records(ledger, requests.drop_last(), sheet_id);
        request_keeps_surplus(
            after_requests(ledger, requests.drop_last()),
            requests.last(),
            sheet_id,
        );
    }
}

/// After any run of requests that create, edit and delete expenses and
/// incomes, a sheet that was consistent is consistent: its total is the sum
/// of its incomes, less the sum of its expenses, plus the totals of the
/// sheets inherited into it. This holds whatever the edges are, provided
/// no request left the sheet unsettled.
pub proof fn consistency_follows_the_records(
    ledger: LedgerView,
    requests: Seq<EntryRequest>,
    sheet_id: int,
)
    requires
        ledger.wf(),
        ledger.is_consistent(sheet_id),
        all_settled(ledger, requests, sheet_id),
    ensures
        after_requests(ledger, requests).is_consistent(sheet_id),
{
    surplus_follows_the_records(ledger, requests, sheet_id);
}

/// A sheet into which nothing is inherited has nothing from other sheets.
proof fn nothing_is_inherited(ledger: LedgerView, sheet_id: int, count: int)
    requires
        ledger.inherits_nothing(sheet_id),
    ensures
        ledger.over_inherited(sheet_id, count, |id: int| ledger.total_of(id)) == 0,
    decreases count,
{
    if 0 < count <= ledger.edges.len() {
        nothing_is_inherited(ledger, sheet_id, count - 1);
        assert(ledger.edges[count - 1].parent_sheet_id != sheet_id);
    }
}

/// After any run of requests that create, edit and delete expenses and
/// incomes, the total of a sheet into which nothing is inherited is the sum
/// of its incomes less the sum of its expenses, provided it was so before
/// and no request left the sheet unsettled.
pub proof fn total_follows_the_records(
    ledger: LedgerView,
    requests: Seq<EntryRequest>,
    sheet_id: int,
)
    requires
        ledger.wf(),
        ledger.inherits_nothing(sheet_id),
        ledger.is_balanced(sheet_id),
        all_settled(ledger, requests, sheet_id),
    ensures
        after_requests(ledger, requests).wf(),
        after_requests(ledger, requests).inherits_nothing(sheet_id),
        after_requests(ledger, requests).is_balanced(sheet_id),
        after_requests(ledger, requests).has_sheet(sheet_id) == ledger.has_sheet(sheet_id),
{
    let after = after_requests(ledger, requests);
    surplus_follows_the_records(ledger, requests, sheet_id);
    nothing_is_inherited(ledger, sheet_id, ledger.edges.len() as int);
    nothing_is_inherited(after, sheet_id, after.edges.len() as int);
}

} // verus!
