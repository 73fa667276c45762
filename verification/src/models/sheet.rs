use std::collections::VecDeque;
use vstd::prelude::*;
use crate::models::ancestry::{ids_of, parents_are_stored, paths_from_joined};
use crate::models::expense::{EntryView, Expense};
use crate::models::income::Income;
use crate::models::inherited_sheet::{EdgeView, InheritedSheet};
use crate::models::ledger::{Ledger, LedgerError, LedgerView};
use crate::models::query::{
    all_where_keeps_all, all_where_of_views, find_first, first_where_is, first_where_is_a_row,
    first_where_of_views,
    ids_generated_after_change, ids_generated_after_filter, ids_generated_after_push, select,
    view_of, views_of,
};

verus! {

/// A calculation sheet: a month, a week or a day. Expenses, incomes and
/// inheritance edges all refer to sheets by id.
#[derive(Debug)]
pub struct Sheet {
    pub id: i32,
    pub name: String,
    /// Cached total: incomes minus expenses of this sheet plus the cached
    /// totals of the sheets inherited into it.
    pub cached_value: i32,
}

/// A sheet as the contracts see it.
pub struct SheetView {
    pub id: int,
    pub name: Seq<char>,
    pub cached_value: int,
}

impl View for Sheet {
    type V = SheetView;

    open spec fn view(&self) -> SheetView {
        SheetView { id: self.id as int, name: self.name@, cached_value: self.cached_value as int }
    }
}

impl Clone for Sheet {
    fn clone(&self) -> (copy: Sheet)
        ensures
            copy == *self,
    {
        Sheet { id: self.id, name: self.name.clone(), cached_value: self.cached_value }
    }
}

impl Sheet {
    /// A sheet that is not stored yet: id 0 and an empty total.
    pub fn new(name: &str) -> (sheet: Sheet)
        ensures
            sheet@ == (SheetView { id: 0, name: name@, cached_value: 0 }),
    {
        Sheet { id: 0, cached_value: 0, name: name.to_owned() }
    }

    /// Stores a sheet with this name and total under the next id. The id of
    /// `self` plays no part.
    pub fn insert(&self, ledger: &mut Ledger) -> (outcome: Result<(), LedgerError>)
        requires
            old(ledger).wf(),
        ensures
            final(ledger).wf(),
            outcome is Ok <==> old(ledger)@.next_sheet_id < i32::MAX,
            outcome is Ok ==> final(ledger)@ == old(ledger)@.with_sheet_inserted(
                self.name@,
                self.cached_value as int,
            ),
            outcome is Err ==> outcome.unwrap_err() == LedgerError::IdsExhausted && *final(ledger)
                == *old(ledger),
    {
        if ledger.next_sheet_id == i32::MAX {
            return Err(LedgerError::IdsExhausted);
        }
        let row = Sheet {
            id: ledger.next_sheet_id,
            name: self.name.clone(),
            cached_value: self.cached_value,
        };
        ledger.sheets.push(row);
        ledger.next_sheet_id = ledger.next_sheet_id + 1;
        proof {
            assert(ledger@.sheets =~= old(ledger)@.sheets.push(row@));
            ids_generated_after_push(
                old(ledger)@.sheets,
                |row: SheetView| row.id,
                old(ledger)@.next_sheet_id,
                row@,
            );
        }
        Ok(())
    }

    /// The sheet with this id.
    pub fn get_by_id(ledger: &Ledger, id: i32) -> (found: Option<Sheet>)
        ensures
            view_of(found) == ledger@.sheet_with_id(id as int),
    {
        let ghost on_rows = |row: Sheet| row.id == id;
        let keep = |row: &Sheet| -> (kept: bool)
            ensures
                kept <==> row.id == id,
            {
                row.id == id
            };
        let found = find_first(&ledger.sheets, keep, Ghost(on_rows));
        proof {
            first_where_of_views(
                ledger.sheets@,
                |row: Sheet| row@,
                on_rows,
                |row: SheetView| row.id == id as int,
            );
        }
        found
    }

    /// The first sheet with this name.
    pub fn get_by_name(ledger: &Ledger, key: &str) -> (found: Option<Sheet>)
        ensures
            view_of(found) == ledger@.sheet_named(key@),
    {
        let name = key.to_owned();
        let ghost on_rows = |row: Sheet| row.name@ == key@;
        let keep = |row: &Sheet| -> (kept: bool)
            ensures
                kept == (row.name@ == key@),
            {
                row.name == name
            };
        let found = find_first(&ledger.sheets, keep, Ghost(on_rows));
        proof {
            first_where_of_views(
                ledger.sheets@,
                |row: Sheet| row@,
                on_rows,
                |row: SheetView| row.name == key@,
            );
        }
        found
    }

    /// Every sheet, in the order they were stored.
    pub fn get_all(ledger: &Ledger) -> (sheets: Vec<Sheet>)
        ensures
            views_of(sheets@) == ledger@.sheets,
    {
        let ghost on_rows = |row: Sheet| true;
        let keep = |row: &Sheet| -> (kept: bool)
            ensures
                kept,
            {
                true
            };
        let sheets = select(&ledger.sheets, keep, Ghost(on_rows));
        proof {
            all_where_keeps_all(ledger.sheets@, on_rows);
            assert(sheets@ =~= ledger.sheets@);
        }
        sheets
    }

    /// Gives the stored sheet with the id of `self` the name and the total
    /// of `self`. Where no such sheet is stored, nothing changes.
    pub fn update(&self, ledger: &mut Ledger)
        requires
            old(ledger).wf(),
        ensures
            final(ledger).wf(),
            final(ledger)@ == old(ledger)@.with_sheet_saved(self@),
    {
        let ghost before = *ledger;
        let n = ledger.sheets.len();
        let mut j: usize = 0;
        while j < n
            invariant
                j <= n,
                n == before.sheets.len(),
                ledger.sheets.len() == n,
                ledger.expenses == before.expenses,
                ledger.incomes == before.incomes,
                ledger.inherited_sheets == before.inherited_sheets,
                ledger.users == before.users,
                ledger.invitations == before.invitations,
                ledger.next_sheet_id == before.next_sheet_id,
                ledger.next_expense_id == before.next_expense_id,
                ledger.next_income_id == before.next_income_id,
                ledger.next_user_id == before.next_user_id,
                ledger.next_invitation_id == before.next_invitation_id,
                forall|k: int| j <= k < n ==> ledger.sheets[k] == before.sheets[k],
                forall|k: int|
                    0 <= k < j ==> (#[trigger] ledger.sheets[k])@ == (if before.sheets[k].id
                        == self.id {
                        self@
                    } else {
                        before.sheets[k]@
                    }),
            decreases n - j,
        {
            if ledger.sheets[j].id == self.id {
                ledger.sheets[j].name = self.name.clone();
                ledger.sheets[j].cached_value = self.cached_value;
            }
            j += 1;
        }
        proof {
            assert(ledger@.sheets =~= before@.with_sheet_saved(self@).sheets);
            ids_generated_after_change(
                before@.sheets,
                ledger@.sheets,
                |row: SheetView| row.id,
                before@.next_sheet_id,
            );
        }
    }

    /// Removes the sheet with the id of `self`, its expenses and incomes,
    /// and every edge that starts or ends at it. The totals of the sheets
    /// that inherited it stay as they are.
    pub fn remove(&self, ledger: &mut Ledger)
        requires
            old(ledger).wf(),
        ensures
            final(ledger).wf(),
            final(ledger)@ == old(ledger)@.without_sheet(self.id as int),
    {
        let id = self.id;
        let ghost before = ledger@;
        let ghost sheet_stays = |row: Sheet| row.id != id;
        let keep_sheet = |row: &Sheet| -> (kept: bool)
            ensures
                kept == (row.id != id),
            {
                row.id != id
            };
        let sheets = select(&ledger.sheets, keep_sheet, Ghost(sheet_stays));
        let ghost expense_stays = |row: Expense| row.sheet_id != id;
        let keep_expense = |row: &Expense| -> (kept: bool)
            ensures
                kept == (row.sheet_id != id),
            {
                row.sheet_id != id
            };
        let expenses = select(&ledger.expenses, keep_expense, Ghost(expense_stays));
        let ghost income_stays = |row: Income| row.sheet_id != id;
        let keep_income = |row: &Income| -> (kept: bool)
            ensures
                kept == (row.sheet_id != id),
            {
                row.sheet_id != id
            };
        let incomes = select(&ledger.incomes, keep_income, Ghost(income_stays));
        let ghost edge_stays = |edge: InheritedSheet|
            edge.parent_sheet_id != id && edge.inherited_sheet_id != id;
        let keep_edge = |edge: &InheritedSheet| -> (kept: bool)
            ensures
                kept == (edge.parent_sheet_id != id && edge.inherited_sheet_id != id),
            {
                edge.parent_sheet_id != id && edge.inherited_sheet_id != id
            };
        let edges = select(&ledger.inherited_sheets, keep_edge, Ghost(edge_stays));
        proof {
            assert(sheets@ =~= ledger.sheets@.filter(sheet_stays));
            assert(expenses@ =~= ledger.expenses@.filter(expense_stays));
            assert(incomes@ =~= ledger.incomes@.filter(income_stays));
            assert(edges@ =~= ledger.inherited_sheets@.filter(edge_stays));
            all_where_of_views(
                ledger.sheets@,
                |row: Sheet| row@,
                sheet_stays,
                |row: SheetView| row.id != id as int,
            );
            all_where_of_views(
                ledger.expenses@,
                |row: Expense| row@,
                expense_stays,
                |row: EntryView| row.sheet_id != id as int,
            );
            all_where_of_views(
                ledger.incomes@,
                |row: Income| row@,
                income_stays,
                |row: EntryView| row.sheet_id != id as int,
            );
            all_where_of_views(
                ledger.inherited_sheets@,
                |edge: InheritedSheet| edge@,
                edge_stays,
                |edge: EdgeView|
                    edge.parent_sheet_id != id as int && edge.inherited_sheet_id != id as int,
            );
            ids_generated_after_filter(
                before.sheets,
                |row: SheetView| row.id,
                before.next_sheet_id,
                |row: SheetView| row.id != id as int,
            );
            ids_generated_after_filter(
                before.expenses,
                |row: EntryView| row.id,
                before.next_expense_id,
                |row: EntryView| row.sheet_id != id as int,
            );
            ids_generated_after_filter(
                before.incomes,
                |row: EntryView| row.id,
                before.next_income_id,
                |row: EntryView| row.sheet_id != id as int,
            );
        }
        ledger.sheets = sheets;
        ledger.expenses = expenses;
        ledger.incomes = incomes;
        ledger.inherited_sheets = edges;
    }

    /// The sheets inherited into `sheet_id`, one for each edge whose
    /// inherited sheet is stored, in the edges' order.
    pub fn get_all_sheets_by_parent_sheet_id(ledger: &Ledger, sheet_id: i32) -> (sheets: Vec<
        Sheet,
    >)
        ensures
            views_of(sheets@) == ledger@.sheets_with_ids(ledger@.children(sheet_id as int)),
    {
        let mut sheets: Vec<Sheet> = Vec::new();
        let mut i: usize = 0;
        assert(views_of(sheets@) =~= ledger@.sheets_with_ids(
            ledger@.children_among(sheet_id as int, 0),
        ));
        while i < ledger.inherited_sheets.len()
            invariant
                i <= ledger.inherited_sheets.len(),
                views_of(sheets@) == ledger@.sheets_with_ids(
                    ledger@.children_among(sheet_id as int, i as int),
                ),
            decreases ledger.inherited_sheets.len() - i,
        {
            let edge = ledger.inherited_sheets[i];
            assert(ledger@.edges[i as int] == edge@);
            if edge.parent_sheet_id == sheet_id {
                if let Some(at) = sheet_position(ledger, edge.inherited_sheet_id) {
                    let ghost before = sheets@;
                    let ghost ids = ledger@.children_among(sheet_id as int, i as int);
                    sheets.push(ledger.sheets[at].clone());
                    proof {
                        stored_sheet_is_found(ledger, at as int);
                        assert(views_of(sheets@) =~= views_of(before).push(ledger.sheets[at as int]@));
                        assert(ledger@.sheets_with_ids(ids.push(edge.inherited_sheet_id as int))
                            =~= ledger@.sheets_with_ids(ids).push(ledger.sheets[at as int]@));
                    }
                }
            }
            i += 1;
        }
        sheets
    }

    /// The sheets that directly inherit `inherited_sheet_id`, one for each
    /// edge whose parent sheet is stored, in the edges' order.
    pub fn get_all_sheets_by_inherited_sheet_id(ledger: &Ledger, inherited_sheet_id: i32) -> (sheets:
        Vec<Sheet>)
        ensures
            views_of(sheets@) == ledger@.sheets_with_ids(
                ledger@.parents(inherited_sheet_id as int),
            ),
    {
        let mut sheets: Vec<Sheet> = Vec::new();
        let mut i: usize = 0;
        assert(views_of(sheets@) =~= ledger@.sheets_with_ids(
            ledger@.parents_among(inherited_sheet_id as int, 0),
        ));
        while i < ledger.inherited_sheets.len()
            invariant
                i <= ledger.inherited_sheets.len(),
                views_of(sheets@) == ledger@.sheets_with_ids(
                    ledger@.parents_among(inherited_sheet_id as int, i as int),
                ),
            decreases ledger.inherited_sheets.len() - i,
        {
            let edge = ledger.inherited_sheets[i];
            assert(ledger@.edges[i as int] == edge@);
            if edge.inherited_sheet_id == inherited_sheet_id {
                if let Some(at) = sheet_position(ledger, edge.parent_sheet_id) {
                    let ghost before = sheets@;
                    let ghost ids = ledger@.parents_among(inherited_sheet_id as int, i as int);
                    sheets.push(ledger.sheets[at].clone());
                    proof {
                        stored_sheet_is_found(ledger, at as int);
                        assert(views_of(sheets@) =~= views_of(before).push(ledger.sheets[at as int]@));
                        assert(ledger@.sheets_with_ids(ids.push(edge.parent_sheet_id as int))
                            =~= ledger@.sheets_with_ids(ids).push(ledger.sheets[at as int]@));
                    }
                }
            }
            i += 1;
        }
        sheets
    }

    /// Sends `change` up from `first_sheet_id`: every sheet that inherits it,
    /// directly or through other sheets, receives `change` once for each
    /// chain of edges that leads to it. The sheets are visited breadth
    /// first, one generation of parents after the other. The sheet
    /// `first_sheet_id` itself is not touched.
    ///
    /// The new totals are worked out first and stored once none of them is
    /// refused: the ledger stays as it is where a chain of edges above the
    /// sheet does not end, or where a total would leave its range.
    pub fn update_inheriting_sheets(ledger: &mut Ledger, first_sheet_id: i32, change: i32) -> (outcome:
        Result<(), LedgerError>)
        requires
            old(ledger).wf(),
        ensures
            final(ledger).wf(),
            outcome is Ok <==> old(ledger)@.ancestry_ends(first_sheet_id as int) && old(
                ledger,
            )@.raise_fits(first_sheet_id as int, change as int),
            outcome is Err ==> outcome.unwrap_err() == (if old(ledger)@.ancestry_ends(
                first_sheet_id as int,
            ) {
                LedgerError::Overflow
            } else {
                LedgerError::CyclicInheritance
            }),
            outcome is Ok ==> final(ledger)@ == old(ledger)@.with_ancestors_raised(
                first_sheet_id as int,
                change as int,
            ),
            outcome is Err ==> *final(ledger) == *old(ledger),
    {
        raise_ancestors(ledger, first_sheet_id, change as i64)
    }

    /// Adds `value` to the total of this sheet, stores the sheet, and sends
    /// `value` up to every sheet that inherits it.
    ///
    /// Refused without any change where a total would leave its range or a
    /// chain of edges above the sheet does not end.
    pub fn add_to_cached_value(&mut self, ledger: &mut Ledger, value: i32) -> (outcome: Result<
        (),
        LedgerError,
    >)
        requires
            old(ledger).wf(),
        ensures
            final(ledger).wf(),
            outcome is Ok <==> old(ledger)@.value_can_be_added(old(self)@, value as int),
            outcome is Ok ==> final(ledger)@ == old(ledger)@.with_value_added(
                old(self)@,
                value as int,
            ) && final(self)@ == (SheetView {
                cached_value: old(self)@.cached_value + value,
                ..old(self)@
            }),
            outcome is Err ==> *final(ledger) == *old(ledger) && *final(self) == *old(self),
            outcome is Err ==> outcome.unwrap_err() == old(ledger)@.value_refusal(
                old(self)@,
                value as int,
            ),
    {
        let total = match self.cached_value.checked_add(value) {
            Some(total) => total,
            None => {
                return Err(LedgerError::Overflow);
            },
        };
        match Sheet::update_inheriting_sheets(ledger, self.id, value) {
            Ok(()) => {
                self.cached_value = total;
                self.update(ledger);
                Ok(())
            },
            Err(error) => Err(error),
        }
    }

    /// Takes `value` off the total of this sheet, stores the sheet, and sends
    /// the opposite of `value` up to every sheet that inherits it.
    ///
    /// Refused without any change where `value` has no opposite, a total
    /// would leave its range, or a chain of edges above the sheet does not end.
    pub fn remove_from_cached_value(&mut self, ledger: &mut Ledger, value: i32) -> (outcome:
        Result<(), LedgerError>)
        requires
            old(ledger).wf(),
        ensures
            final(ledger).wf(),
            outcome is Ok <==> value != i32::MIN && old(ledger)@.value_can_be_added(
                old(self)@,
                -value,
            ),
            outcome is Ok ==> final(ledger)@ == old(ledger)@.with_value_added(old(self)@, -value)
                && final(self)@ == (SheetView {
                cached_value: old(self)@.cached_value - value,
                ..old(self)@
            }),
            outcome is Err ==> *final(ledger) == *old(ledger) && *final(self) == *old(self),
            outcome is Err ==> outcome.unwrap_err() == (if value == i32::MIN {
                LedgerError::Overflow
            } else {
                old(ledger)@.value_refusal(old(self)@, -value)
            }),
    {
        if value == i32::MIN {
            return Err(LedgerError::Overflow);
        }
        self.add_to_cached_value(ledger, -value)
    }
}

impl Ledger {
    /// Applies a signed change to the total of the sheet `sheet_id` and to
    /// the totals of all the sheets that inherit it. Where no such sheet is
    /// stored, nothing happens.
    pub fn apply_delta(&mut self, sheet_id: i32, delta: i32) -> (outcome: Result<(), LedgerError>)
        requires
            old(self).wf(),
        ensures
            final(self).wf(),
            outcome is Ok <==> old(self)@.delta_can_be_applied(sheet_id as int, delta as int),
            outcome is Ok ==> final(self)@ == old(self)@.with_delta(sheet_id as int, delta as int),
            outcome is Err ==> *final(self) == *old(self),
            outcome is Err ==> outcome.unwrap_err() == old(self)@.settle_refusal(
                sheet_id as int,
                delta as int,
            ),
    {
        match Sheet::get_by_id(self, sheet_id) {
            Some(mut sheet) => sheet.add_to_cached_value(self, delta),
            None => Ok(()),
        }
    }

    /// Applies to the sheet `sheet_id`, if it is stored, a change computed
    /// from the amounts of a record, and sends it up from there. The change
    /// may be more than a total can hold, as long as each new total is one
    /// that a sheet can hold.
    pub fn settle(&mut self, sheet_id: i32, change: i64) -> (outcome: Result<(), LedgerError>)
        requires
            old(self).wf(),
        ensures
            final(self).wf(),
            outcome is Ok <==> old(self)@.can_settle(sheet_id as int, change as int),
            outcome is Ok ==> final(self)@ == old(self)@.with_delta(sheet_id as int, change as int),
            outcome is Err ==> *final(self) == *old(self),
            outcome is Err ==> outcome.unwrap_err() == old(self)@.settle_refusal(
                sheet_id as int,
                change as int,
            ),
    {
        let mut sheet = match Sheet::get_by_id(self, sheet_id) {
            Some(sheet) => sheet,
            None => {
                return Ok(());
            },
        };
        if change < -WIDEST_CHANGE || change > WIDEST_CHANGE {
            return Err(LedgerError::Overflow);
        }
        let total: i64 = sheet.cached_value as i64 + change;
        if total < i32::MIN as i64 || total > i32::MAX as i64 {
            return Err(LedgerError::Overflow);
        }
        proof {
            first_where_is_a_row(self@.sheets, |row: SheetView| row.id == sheet_id as int);
        }
        match raise_ancestors(self, sheet.id, change) {
            Ok(()) => {
                sheet.cached_value = total as i32;
                sheet.update(self);
                Ok(())
            },
            Err(error) => Err(error),
        }
    }
}

/// Sends `change` up from `first_sheet_id` to every sheet that inherits it,
/// once for each chain of edges, and stores the new totals once none of
/// them is refused.
fn raise_ancestors(ledger: &mut Ledger, first_sheet_id: i32, change: i64) -> (outcome: Result<
    (),
    LedgerError,
>)
    requires
        old(ledger).wf(),
        -WIDEST_CHANGE <= change <= WIDEST_CHANGE,
    ensures
        final(ledger).wf(),
        outcome is Ok <==> old(ledger)@.ancestry_ends(first_sheet_id as int) && old(
            ledger,
        )@.raise_fits(first_sheet_id as int, change as int),
        outcome is Err ==> outcome.unwrap_err() == (if old(ledger)@.ancestry_ends(
            first_sheet_id as int,
        ) {
            LedgerError::Overflow
        } else {
            LedgerError::CyclicInheritance
        }),
        outcome is Ok ==> final(ledger)@ == old(ledger)@.with_ancestors_raised(
            first_sheet_id as int,
            change as int,
        ),
        outcome is Err ==> *final(ledger) == *old(ledger),
{
    match raised_totals(ledger, first_sheet_id, change) {
        Ok(totals) => {
            store_totals(ledger, &totals);
            proof {
                assert(ledger@.sheets =~= old(ledger)@.with_ancestors_raised(
                    first_sheet_id as int,
                    change as int,
                ).sheets);
            }
            Ok(())
        },
        Err(error) => Err(error),
    }
}

/// A stored sheet is the sheet found under its id.
proof fn stored_sheet_is_found(ledger: &Ledger, at: int)
    requires
        0 <= at < ledger.sheets.len(),
        forall|j: int| 0 <= j < at ==> ledger.sheets[j].id != ledger.sheets[at].id,
    ensures
        ledger@.sheet_with_id(ledger.sheets[at].id as int) == Some(ledger.sheets[at]@),
{
    let id = ledger.sheets[at].id as int;
    assert(ledger@.sheets[at] == ledger.sheets[at]@);
    assert forall|j: int| 0 <= j < at implies !(|row: SheetView| row.id == id)(
        #[trigger] ledger@.sheets[j],
    ) by {
        assert(ledger@.sheets[j] == ledger.sheets[j]@);
    }
    first_where_is(ledger@.sheets, |row: SheetView| row.id == id, at);
}

/// Writes one total into each sheet, in the order of the table.
fn store_totals(ledger: &mut Ledger, totals: &Vec<i32>)
    requires
        old(ledger).wf(),
        totals.len() == old(ledger).sheets.len(),
    ensures
        final(ledger).wf(),
        final(ledger)@.sheets.len() == old(ledger)@.sheets.len(),
        forall|j: int|
            0 <= j < totals.len() ==> (#[trigger] final(ledger)@.sheets[j]) == (SheetView {
                cached_value: totals[j] as int,
                ..old(ledger)@.sheets[j]
            }),
        final(ledger)@ == (LedgerView { sheets: final(ledger)@.sheets, ..old(ledger)@ }),
{
    let ghost before = *ledger;
    let n = ledger.sheets.len();
    let mut j: usize = 0;
    while j < n
        invariant
            j <= n,
            n == before.sheets.len(),
            totals.len() == n,
            ledger.sheets.len() == n,
            ledger.expenses == before.expenses,
            ledger.incomes == before.incomes,
            ledger.inherited_sheets == before.inherited_sheets,
            ledger.users == before.users,
            ledger.invitations == before.invitations,
            ledger.next_sheet_id == before.next_sheet_id,
            ledger.next_expense_id == before.next_expense_id,
            ledger.next_income_id == before.next_income_id,
            ledger.next_user_id == before.next_user_id,
            ledger.next_invitation_id == before.next_invitation_id,
            forall|k: int| j <= k < n ==> ledger.sheets[k] == before.sheets[k],
            forall|k: int|
                0 <= k < j ==> (#[trigger] ledger.sheets[k])@ == (SheetView {
                    cached_value: totals[k] as int,
                    ..before.sheets[k]@
                }),
        decreases n - j,
    {
        ledger.sheets[j].cached_value = totals[j];
        j += 1;
    }
    proof {
        assert forall|k: int| 0 <= k < n implies (#[trigger] ledger@.sheets[k]) == (SheetView {
            cached_value: totals[k] as int,
            ..before@.sheets[k]
        }) by {
            assert(ledger@.sheets[k] == ledger.sheets[k]@);
        }
        ids_generated_after_change(
            before@.sheets,
            ledger@.sheets,
            |row: SheetView| row.id,
            before@.next_sheet_id,
        );
    }
}

/// Where in the table the sheet with this id stands.
pub fn sheet_position(ledger: &Ledger, id: i32) -> (at: Option<usize>)
    ensures
        at is Some <==> ledger@.has_sheet(id as int),
        at is Some ==> at.unwrap() < ledger.sheets.len() && ledger.sheets[at.unwrap() as int].id
            == id && forall|j: int| 0 <= j < at.unwrap() ==> ledger.sheets[j].id != id,
{
    let mut i: usize = 0;
    while i < ledger.sheets.len()
        invariant
            i <= ledger.sheets.len(),
            forall|j: int| 0 <= j < i ==> ledger.sheets[j].id != id,
        decreases ledger.sheets.len() - i,
    {
        if ledger.sheets[i].id == id {
            assert(ledger@.sheets[i as int].id == id as int);
            return Some(i);
        }
        i += 1;
    }
    assert forall|j: int| 0 <= j < ledger@.sheets.len() implies (#[trigger] ledger@.sheets[j]).id
        != id as int by {
        assert(ledger.sheets[j].id != id);
    }
    None
}

/// The ids of the sheets that directly inherit `child`, one per edge.
pub fn parent_ids(ledger: &Ledger, child: i32) -> (ids: Vec<i32>)
    ensures
        ids_of(ids@) == ledger@.parents(child as int),
{
    let mut ids: Vec<i32> = Vec::new();
    let mut i: usize = 0;
    assert(ids_of(ids@) =~= ledger@.parents_among(child as int, 0));
    while i < ledger.inherited_sheets.len()
        invariant
            i <= ledger.inherited_sheets.len(),
            ids_of(ids@) == ledger@.parents_among(child as int, i as int),
        decreases ledger.inherited_sheets.len() - i,
    {
        let edge = ledger.inherited_sheets[i];
        assert(ledger@.edges[i as int] == edge@);
        if edge.inherited_sheet_id == child {
            if sheet_position(ledger, edge.parent_sheet_id).is_some() {
                let ghost before = ids@;
                ids.push(edge.parent_sheet_id);
                assert(ids_of(ids@) =~= ids_of(before).push(edge.parent_sheet_id as int));
            }
        }
        i += 1;
    }
    ids
}

/// Every id of `ids` from position `from` on has an ancestry that ends within `steps`.
spec fn all_end_within(ledger: LedgerView, ids: Seq<int>, from: int, steps: nat) -> bool {
    forall|k: int| from <= k < ids.len() ==> ledger.ends_within(#[trigger] ids[k], steps)
}

/// Every id of `ids` is the id of a stored sheet.
spec fn all_stored(ledger: LedgerView, ids: Seq<int>) -> bool {
    forall|k: int| 0 <= k < ids.len() ==> ledger.has_sheet(#[trigger] ids[k])
}

/// The visits of `to` still to come while a generation is worked through:
/// those from the rest of the generation and those from the next one.
spec fn pending(
    ledger: LedgerView,
    generation: Seq<int>,
    done: int,
    next: Seq<int>,
    steps: nat,
    to: int,
) -> int {
    ledger.paths_from_each(generation, to, steps) - ledger.paths_from_each(
        generation.take(done),
        to,
        steps,
    ) + if steps > 0 {
        ledger.paths_from_each(next, to, (steps - 1) as nat) as int
    } else {
        0
    }
}

/// Before any sheet of a generation is visited, every visit its chains
/// give rise to is still to come.
proof fn pending_at_start(ledger: LedgerView, generation: Seq<int>, steps: nat, to: int)
    ensures
        pending(ledger, generation, 0, Seq::empty(), steps, to) == ledger.paths_from_each(
            generation,
            to,
            steps,
        ),
{
    assert(generation.take(0) =~= Seq::<int>::empty());
}

/// Once a whole generation is visited, only the visits from the next one
/// are still to come.
proof fn pending_at_end(
    ledger: LedgerView,
    generation: Seq<int>,
    next: Seq<int>,
    steps: nat,
    to: int,
)
    requires
        steps == 0 ==> next.len() == 0,
    ensures
        pending(ledger, generation, generation.len() as int, next, steps, to)
            == ledger.paths_from_each(
            next,
            to,
            (if steps > 0 {
                steps - 1
            } else {
                0
            }) as nat,
        ),
{
    assert(generation.take(generation.len() as int) =~= generation);
}

/// Visiting one sheet of a generation takes its own visit out of what is
/// still to come and puts its parents into the next generation.
proof fn pending_after_visit(
    ledger: LedgerView,
    generation: Seq<int>,
    at: int,
    queued: Seq<int>,
    parents: Seq<int>,
    steps: nat,
    to: int,
)
    requires
        0 <= at < generation.len(),
        parents == ledger.parents(generation[at]),
        steps == 0 ==> parents.len() == 0 && queued.len() == 0,
    ensures
        pending(ledger, generation, at, queued, steps, to) == pending(
            ledger,
            generation,
            at + 1,
            queued + parents,
            steps,
            to,
        ) + if generation[at] == to {
            1int
        } else {
            0int
        },
{
    let x = generation[at];
    assert(generation.take(at + 1).drop_last() =~= generation.take(at));
    assert(generation.take(at + 1).last() == x);
    assert(ledger.paths_from_each(generation.take(at + 1), to, steps) == ledger.paths_from_each(
        generation.take(at),
        to,
        steps,
    ) + ledger.paths(x, to, steps));
    if steps > 0 {
        paths_from_joined(ledger, queued, parents, to, (steps - 1) as nat);
        assert(ledger.paths(x, to, steps) == (if x == to {
            1nat
        } else {
            0nat
        }) + ledger.paths_from_each(parents, to, (steps - 1) as nat));
    } else {
        assert(queued + parents =~= queued);
    }
}

/// The total that sheet `j` has once the change has reached it on every chain.
spec fn raised_total(ledger: LedgerView, from: int, change: int, j: int) -> int {
    ledger.sheets[j].cached_value + change * ledger.ancestor_paths(from, ledger.sheets[j].id)
}

/// The widest change that is looked at: beyond it, in either direction, no
/// total can take the change.
pub const WIDEST_CHANGE: i64 = 0x1_0000_0000;

/// Puts `ids` at the back of the queue, in their order.
fn enqueue(queue: &mut VecDeque<i32>, ids: &Vec<i32>)
    ensures
        final(queue)@ == old(queue)@ + ids@,
{
    let mut k: usize = 0;
    assert(old(queue)@ + ids@.take(0) =~= old(queue)@);
    while k < ids.len()
        invariant
            k <= ids.len(),
            queue@ == old(queue)@ + ids@.take(k as int),
        decreases ids.len() - k,
    {
        queue.push_back(ids[k]);
        assert(ids@.take(k + 1) =~= ids@.take(k as int).push(ids@[k as int]));
        assert(old(queue)@ + ids@.take(k + 1) =~= (old(queue)@ + ids@.take(k as int)).push(
            ids@[k as int],
        ));
        k += 1;
    }
    assert(ids@.take(k as int) =~= ids@);
}

/// The totals of all sheets after `change` has gone up from `first_sheet_id`
/// through every chain of edges; nothing is stored.
///
/// The sheets to update wait in one queue: the parents of the first sheet
/// to begin with, and behind them the parents of each sheet that is taken
/// from the front. The sheets of one generation stand together in the
/// queue, so the number of generations gone through is known, and a chain
/// longer than the longest one without a cycle is noticed.
fn raised_totals(ledger: &Ledger, first_sheet_id: i32, change: i64) -> (outcome: Result<
    Vec<i32>,
    LedgerError,
>)
    requires
        ledger.wf(),
        -WIDEST_CHANGE <= change <= WIDEST_CHANGE,
    ensures
        outcome is Ok <==> ledger@.ancestry_ends(first_sheet_id as int) && ledger@.raise_fits(
            first_sheet_id as int,
            change as int,
        ),
        outcome is Err ==> outcome.unwrap_err() == (if ledger@.ancestry_ends(
            first_sheet_id as int,
        ) {
            LedgerError::Overflow
        } else {
            LedgerError::CyclicInheritance
        }),
        outcome is Ok ==> outcome.unwrap().len() == ledger.sheets.len() && forall|j: int|
            0 <= j < ledger.sheets.len() ==> (#[trigger] outcome.unwrap()[j]) as int
                == raised_total(ledger@, first_sheet_id as int, change as int, j),
{
    let ghost g = ledger@;
    let ghost origin = first_sheet_id as int;
    let ghost d = change as int;
    let n = ledger.sheets.len();
    let mut totals: Vec<i32> = Vec::new();
    let mut j: usize = 0;
    while j < n
        invariant
            n == ledger.sheets.len(),
            j <= n,
            totals.len() == j,
            forall|k: int| 0 <= k < j ==> totals[k] == ledger.sheets[k].cached_value,
        decreases n - j,
    {
        totals.push(ledger.sheets[j].cached_value);
        j += 1;
    }
    let mut sheets_to_update: VecDeque<i32> = VecDeque::new();
    let first_parents = parent_ids(ledger, first_sheet_id);
    enqueue(&mut sheets_to_update, &first_parents);
    assert(sheets_to_update@ =~= first_parents@);
    let mut steps_left: usize = if n == 0 { 0 } else { n - 1 };
    let mut overflowed = false;
    proof {
        parents_are_stored(g, origin, g.edges.len() as int);
        if n == 0 {
            assert(forall|k: int|
                0 <= k < ids_of(sheets_to_update@).len() ==> g.has_sheet(#[trigger] ids_of(sheets_to_update@)[k]));
            assert(sheets_to_update@.len() == 0) by {
                if sheets_to_update@.len() > 0 {
                    assert(g.has_sheet(ids_of(sheets_to_update@)[0]));
                }
            }
        }
        assert forall|k: int| 0 <= k < n implies (#[trigger] totals[k]) + d * g.paths_from_each(
            ids_of(sheets_to_update@),
            g.sheets[k].id,
            steps_left as nat,
        ) == raised_total(g, origin, d, k) by {
            assert(totals[k] == g.sheets[k].cached_value);
        }
    }
    // The generation at the front is `steps_left` edges short of the longest chain.
    while sheets_to_update.len() > 0
        invariant
            ledger.wf(),
            g == ledger@,
            origin == first_sheet_id as int,
            d == change as int,
            -WIDEST_CHANGE <= change <= WIDEST_CHANGE,
            n == ledger.sheets.len(),
            totals.len() == n,
            all_stored(g, ids_of(sheets_to_update@)),
            g.ancestry_ends(origin) <==> all_end_within(g, ids_of(sheets_to_update@), 0, steps_left as nat),
            !overflowed ==> forall|k: int|
                0 <= k < n ==> (#[trigger] totals[k]) + d * g.paths_from_each(
                    ids_of(sheets_to_update@),
                    g.sheets[k].id,
                    steps_left as nat,
                ) == raised_total(g, origin, d, k),
            overflowed ==> !g.raise_fits(origin, d),
        decreases steps_left, sheets_to_update.len(),
    {
        let in_generation = sheets_to_update.len();
        let mut i: usize = 0;
        let ghost generation = ids_of(sheets_to_update@);
        let ghost mut next = Seq::<int>::empty();
        let ghost steps = steps_left as nat;
        proof {
            assert(generation.skip(0) + next =~= generation);
            if !overflowed {
                assert forall|k: int| 0 <= k < n implies (#[trigger] totals[k]) + d * pending(
                    g,
                    generation,
                    0,
                    next,
                    steps,
                    g.sheets[k].id,
                ) == raised_total(g, origin, d, k) by {
                    pending_at_start(g, generation, steps, g.sheets[k].id);
                }
            }
        }
        while i < in_generation
            invariant
                ledger.wf(),
                g == ledger@,
                origin == first_sheet_id as int,
                d == change as int,
                -WIDEST_CHANGE <= change <= WIDEST_CHANGE,
                n == ledger.sheets.len(),
                totals.len() == n,
                i <= in_generation,
                in_generation == generation.len(),
                ids_of(sheets_to_update@) == generation.skip(i as int) + next,
                steps == steps_left as nat,
                all_stored(g, generation),
                all_stored(g, next),
                steps_left == 0 ==> next.len() == 0,
                g.ancestry_ends(origin) <==> all_end_within(g, generation, i as int, steps) && (
                steps > 0 ==> all_end_within(g, next, 0, (steps - 1) as nat)),
                !overflowed ==> forall|k: int|
                    0 <= k < n ==> (#[trigger] totals[k]) + d * pending(
                        g,
                        generation,
                        i as int,
                        next,
                        steps,
                        g.sheets[k].id,
                    ) == raised_total(g, origin, d, k),
                overflowed ==> !g.raise_fits(origin, d),
            decreases in_generation - i,
        {
            let ghost waiting = sheets_to_update@;
            assert(ids_of(waiting).len() == generation.len() - i + next.len());
            assert(ids_of(waiting)[0] == generation[i as int]);
            let id = sheets_to_update.pop_front().unwrap();
            let ghost x = id as int;
            assert(generation[i as int] == x);
            let above = parent_ids(ledger, id);
            let ghost parents = ids_of(above@);
            let ghost queued = next;
            proof {
                parents_are_stored(g, x, g.edges.len() as int);
            }
            if steps_left == 0 && above.len() > 0 {
                proof {
                    assert(!g.ends_within(x, 0)) by {
                        if g.ends_within(x, 0) {
                            assert(0 <= 0 < g.parents(x).len());
                            let p = g.parents(x)[0];
                        }
                    }
                }
                return Err(LedgerError::CyclicInheritance);
            }
            assert(g.has_sheet(generation[i as int]));
            let at = sheet_position(ledger, id).unwrap();
            let ghost before = totals@;
            let ghost had_overflowed = overflowed;
            if !overflowed {
                let total: i64 = totals[at] as i64 + change;
                if total >= i32::MIN as i64 && total <= i32::MAX as i64 {
                    totals[at] = total as i32;
                } else {
                    overflowed = true;
                }
            }
            enqueue(&mut sheets_to_update, &above);
            proof {
                next = queued + parents;
                let joined = next;
                assert(ids_of(sheets_to_update@) =~= generation.skip(i + 1) + joined) by {
                    assert(sheets_to_update@ == waiting.subrange(1, waiting.len() as int)
                        + above@);
                    assert(ids_of(waiting) == generation.skip(i as int) + queued);
                    assert forall|k: int| 0 <= k < ids_of(sheets_to_update@).len() implies ids_of(
                        sheets_to_update@,
                    )[k] == (generation.skip(i + 1) + joined)[k] by {
                        if k < waiting.len() - 1 {
                            assert(ids_of(sheets_to_update@)[k] == ids_of(waiting)[k + 1]);
                        } else {
                            assert(ids_of(sheets_to_update@)[k] == parents[k - (waiting.len()
                                - 1)]);
                        }
                    }
                }
                assert(generation.take(i + 1).drop_last() =~= generation.take(i as int));
                assert(generation.take(i + 1).last() == x);
                // Where the ancestries end.
                assert(g.ends_within(x, steps) <==> (steps > 0 ==> all_end_within(
                    g,
                    parents,
                    0,
                    (steps - 1) as nat,
                ))) by {
                    if steps > 0 {
                        if g.ends_within(x, steps) {
                            assert forall|k: int| 0 <= k < parents.len() implies g.ends_within(
                                #[trigger] parents[k],
                                (steps - 1) as nat,
                            ) by {
                                assert(parents[k] == g.parents(x)[k]);
                            }
                        }
                    }
                }
                if steps > 0 {
                    let fewer = (steps - 1) as nat;
                    assert(all_end_within(g, joined, 0, fewer) <==> all_end_within(
                        g,
                        queued,
                        0,
                        fewer,
                    ) && all_end_within(g, parents, 0, fewer)) by {
                        if all_end_within(g, joined, 0, fewer) {
                            assert forall|k: int| 0 <= k < queued.len() implies g.ends_within(
                                #[trigger] queued[k],
                                fewer,
                            ) by {
                                assert(joined[k] == queued[k]);
                            }
                            assert forall|k: int| 0 <= k < parents.len() implies g.ends_within(
                                #[trigger] parents[k],
                                fewer,
                            ) by {
                                assert(joined[queued.len() + k] == parents[k]);
                            }
                        }
                        if all_end_within(g, queued, 0, fewer) && all_end_within(
                            g,
                            parents,
                            0,
                            fewer,
                        ) {
                            assert forall|k: int| 0 <= k < joined.len() implies g.ends_within(
                                #[trigger] joined[k],
                                fewer,
                            ) by {
                                if k < queued.len() {
                                    assert(joined[k] == queued[k]);
                                } else {
                                    assert(joined[k] == parents[k - queued.len()]);
                                }
                            }
                        }
                    }
                }
                assert(all_end_within(g, generation, i as int, steps) <==> g.ends_within(x, steps)
                    && all_end_within(g, generation, i + 1, steps));
                assert(all_stored(g, joined)) by {
                    assert forall|k: int| 0 <= k < joined.len() implies g.has_sheet(
                        #[trigger] joined[k],
                    ) by {
                        if k < queued.len() {
                            assert(joined[k] == queued[k]);
                        } else {
                            assert(joined[k] == parents[k - queued.len()]);
                            assert(parents[k - queued.len()] == g.parents_among(
                                x,
                                g.edges.len() as int,
                            )[k - queued.len()]);
                        }
                    }
                }
                // What the visit of `x` does to the totals.
                assert forall|k: int| 0 <= k < n implies pending(
                    g,
                    generation,
                    i as int,
                    queued,
                    steps,
                    g.sheets[k].id,
                ) == pending(g, generation, i + 1, joined, steps, g.sheets[k].id) + if k == at {
                    1int
                } else {
                    0int
                } by {
                    let to = g.sheets[k].id;
                    assert(g.sheets[at as int].id == x);
                    assert(k != at ==> to != x);
                    pending_after_visit(g, generation, i as int, queued, parents, steps, to);
                }
                if !overflowed {
                    assert forall|k: int| 0 <= k < n implies (#[trigger] totals[k]) + d * pending(
                        g,
                        generation,
                        i + 1,
                        joined,
                        steps,
                        g.sheets[k].id,
                    ) == raised_total(g, origin, d, k) by {
                        let later = pending(g, generation, i + 1, joined, steps, g.sheets[k].id);
                        assert(before[k] + d * pending(
                            g,
                            generation,
                            i as int,
                            queued,
                            steps,
                            g.sheets[k].id,
                        ) == raised_total(g, origin, d, k));
                        if k == at {
                            assert(d * (later + 1) == d * later + d) by (nonlinear_arith);
                        }
                    }
                } else if !had_overflowed {
                    // The total of `x` left its range with visits still to come.
                    let later = pending(g, generation, i + 1, joined, steps, g.sheets[at as int].id);
                    assert(later >= 0) by {
                        let to = g.sheets[at as int].id;
                        assert(g.paths_from_each(generation, to, steps) - g.paths_from_each(
                            generation.take(i + 1),
                            to,
                            steps,
                        ) >= 0) by {
                            paths_from_joined(
                                g,
                                generation.take(i + 1),
                                generation.skip(i + 1),
                                to,
                                steps,
                            );
                            assert(generation.take(i + 1) + generation.skip(i + 1) =~= generation);
                        }
                    }
                    assert(before[at as int] + d * (later + 1) == raised_total(
                        g,
                        origin,
                        d,
                        at as int,
                    ));
                    assert(before[at as int] + d > i32::MAX || before[at as int] + d < i32::MIN);
                    assert(before[at as int] + d * (later + 1) > i32::MAX || before[at as int] + d
                        * (later + 1) < i32::MIN) by (nonlinear_arith)
                        requires
                            later >= 0,
                            i32::MIN <= before[at as int] <= i32::MAX,
                            before[at as int] + d > i32::MAX || before[at as int] + d < i32::MIN,
                    ;
                    assert(g.sheets[at as int].cached_value + d * g.ancestor_paths(
                        origin,
                        g.sheets[at as int].id,
                    ) == raised_total(g, origin, d, at as int));
                }
            }
            i += 1;
        }
        proof {
            assert forall|k: int| 0 <= k < n implies pending(
                g,
                generation,
                i as int,
                next,
                steps,
                g.sheets[k].id,
            ) == g.paths_from_each(
                next,
                g.sheets[k].id,
                (if steps > 0 {
                    steps - 1
                } else {
                    0
                }) as nat,
            ) by {
                pending_at_end(g, generation, next, steps, g.sheets[k].id);
            }
            assert(generation.skip(i as int) + next =~= next);
        }
        if steps_left > 0 {
            steps_left -= 1;
        }
    }
    if overflowed {
        return Err(LedgerError::Overflow);
    }
    proof {
        assert forall|k: int| 0 <= k < n implies (#[trigger] totals[k]) as int == raised_total(
            g,
            origin,
            d,
            k,
        ) by {
            assert(ids_of(sheets_to_update@) =~= Seq::<int>::empty());
            assert(g.paths_from_each(ids_of(sheets_to_update@), g.sheets[k].id, steps_left as nat) == 0);
        }
        assert forall|k: int| 0 <= k < g.sheets.len() implies i32::MIN <= (
        #[trigger] g.sheets[k]).cached_value + d * g.ancestor_paths(origin, g.sheets[k].id)
            <= i32::MAX by {
            assert(totals[k] as int == raised_total(g, origin, d, k));
        }
    }
    Ok(totals)
}

} // verus!
