use vstd::prelude::*;
use crate::models::ledger::{Ledger, LedgerError};
use crate::models::query::{
    all_where_keeps_all, all_where_of_views, find_first, first_where_of_views,
    ids_generated_after_change, ids_generated_after_filter, ids_generated_after_push, select,
    view_of, views_of,
};

verus! {

/// A source of expense in a sheet. Its amount counts against the sheet's total.
#[derive(Debug)]
pub struct Expense {
    pub id: i32,
    pub name: String,
    pub amount: i32,
    pub date: i64,
    pub sheet_id: i32,
}

/// An expense or an income as the contracts see it.
pub struct EntryView {
    pub id: int,
    pub name: Seq<char>,
    pub amount: int,
    pub date: int,
    pub sheet_id: int,
}

impl View for Expense {
    type V = EntryView;

    open spec fn view(&self) -> EntryView {
        EntryView {
            id: self.id as int,
            name: self.name@,
            amount: self.amount as int,
            date: self.date as int,
            sheet_id: self.sheet_id as int,
        }
    }
}

impl Clone for Expense {
    fn clone(&self) -> (copy: Expense)
        ensures
            copy == *self,
    {
        Expense {
            id: self.id,
            name: self.name.clone(),
            amount: self.amount,
            date: self.date,
            sheet_id: self.sheet_id,
        }
    }
}

impl Expense {
    /// An expense that is not stored yet: id 0.
    pub fn new(name: &str, amount: i32, sheet_id: i32, date: i64) -> (expense: Expense)
        ensures
            expense@ == (EntryView {
                id: 0,
                name: name@,
                amount: amount as int,
                date: date as int,
                sheet_id: sheet_id as int,
            }),
    {
        Expense { id: 0, name: name.to_owned(), amount, date, sheet_id }
    }

    /// Stores an expense with these fields under the next id. The id of `self`
    /// plays no part, and no total changes.
    pub fn insert(&self, ledger: &mut Ledger) -> (outcome: Result<(), LedgerError>)
        requires
            old(ledger).wf(),
        ensures
            final(ledger).wf(),
            outcome is Ok <==> old(ledger)@.next_expense_id < i32::MAX,
            outcome is Ok ==> final(ledger)@ == old(ledger)@.with_expense_inserted(self@),
            outcome is Err ==> outcome.unwrap_err() == LedgerError::IdsExhausted && *final(ledger)
                == *old(ledger),
    {
        if ledger.next_expense_id == i32::MAX {
            return Err(LedgerError::IdsExhausted);
        }
        let row = Expense {
            id: ledger.next_expense_id,
            name: self.name.clone(),
            amount: self.amount,
            date: self.date,
            sheet_id: self.sheet_id,
        };
        ledger.expenses.push(row);
        ledger.next_expense_id = ledger.next_expense_id + 1;
        proof {
            assert(ledger@.expenses =~= old(ledger)@.expenses.push(row@));
            ids_generated_after_push(
                old(ledger)@.expenses,
                |row: EntryView| row.id,
                old(ledger)@.next_expense_id,
                row@,
            );
        }
        Ok(())
    }

    /// Removes the expense with the id of `self`. No total changes.
    pub fn remove(&self, ledger: &mut Ledger)
        requires
            old(ledger).wf(),
        ensures
            final(ledger).wf(),
            final(ledger)@ == old(ledger)@.without_expense(self.id as int),
    {
        let id = self.id;
        let ghost before = ledger@;
        let ghost stays = |row: Expense| row.id != id;
        let keep = |row: &Expense| -> (kept: bool)
            ensures
                kept == (row.id != id),
            {
                row.id != id
            };
        let rows = select(&ledger.expenses, keep, Ghost(stays));
        proof {
            assert(rows@ =~= ledger.expenses@.filter(stays));
            all_where_of_views(
                ledger.expenses@,
                |row: Expense| row@,
                stays,
                |row: EntryView| row.id != id as int,
            );
            ids_generated_after_filter(
                before.expenses,
                |row: EntryView| row.id,
                before.next_expense_id,
                |row: EntryView| row.id != id as int,
            );
        }
        ledger.expenses = rows;
    }

    /// The first expense with this name.
    pub fn get_by_name(ledger: &Ledger, key: &str) -> (found: Option<Expense>)
        ensures
            view_of(found) == ledger@.expense_named(key@),
    {
        let name = key.to_owned();
        let ghost on_rows = |row: Expense| row.name@ == key@;
        let keep = |row: &Expense| -> (kept: bool)
            ensures
                kept == (row.name@ == key@),
            {
                row.name == name
            };
        let found = find_first(&ledger.expenses, keep, Ghost(on_rows));
        proof {
            first_where_of_views(
                ledger.expenses@,
                |row: Expense| row@,
                on_rows,
                |row: EntryView| row.name == key@,
            );
        }
        found
    }

    /// The expense with this id.
    pub fn get_by_id(ledger: &Ledger, id: i32) -> (found: Option<Expense>)
        ensures
            view_of(found) == ledger@.expense_with_id(id as int),
    {
        let ghost on_rows = |row: Expense| row.id == id;
        let keep = |row: &Expense| -> (kept: bool)
            ensures
                kept == (row.id == id),
            {
                row.id == id
            };
        let found = find_first(&ledger.expenses, keep, Ghost(on_rows));
        proof {
            first_where_of_views(
                ledger.expenses@,
                |row: Expense| row@,
                on_rows,
                |row: EntryView| row.id == id as int,
            );
        }
        found
    }

    /// Every expense, in the order they were stored.
    pub fn get_all(ledger: &Ledger) -> (rows: Vec<Expense>)
        ensures
            views_of(rows@) == ledger@.expenses,
    {
        let ghost on_rows = |row: Expense| true;
        let keep = |row: &Expense| -> (kept: bool)
            ensures
                kept,
            {
                true
            };
        let rows = select(&ledger.expenses, keep, Ghost(on_rows));
        proof {
            all_where_keeps_all(ledger.expenses@, on_rows);
            assert(rows@ =~= ledger.expenses@);
        }
        rows
    }

    /// The expenses of one sheet, in the order they were stored.
    pub fn get_all_by_sheet_id(ledger: &Ledger, sheet_id: i32) -> (rows: Vec<Expense>)
        ensures
            views_of(rows@) == ledger@.expenses_of(sheet_id as int),
    {
        let ghost on_rows = |row: Expense| row.sheet_id == sheet_id;
        let keep = |row: &Expense| -> (kept: bool)
            ensures
                kept == (row.sheet_id == sheet_id),
            {
                row.sheet_id == sheet_id
            };
        let rows = select(&ledger.expenses, keep, Ghost(on_rows));
        proof {
            assert(rows@ =~= ledger.expenses@.filter(on_rows));
            all_where_of_views(
                ledger.expenses@,
                |row: Expense| row@,
                on_rows,
                |row: EntryView| row.sheet_id == sheet_id as int,
            );
        }
        rows
    }

    /// Gives the stored expense with the id of `self` the name, the amount and
    /// the date of `self`. No total changes.
    pub fn update(&self, ledger: &mut Ledger)
        requires
            old(ledger).wf(),
        ensures
            final(ledger).wf(),
            final(ledger)@ == old(ledger)@.with_expense_saved(self@),
    {
        let ghost before = *ledger;
        let n = ledger.expenses.len();
        let mut j: usize = 0;
        while j < n
            invariant
                j <= n,
                n == before.expenses.len(),
                ledger.expenses.len() == n,
                ledger.sheets == before.sheets,
                ledger.incomes == before.incomes,
                ledger.inherited_sheets == before.inherited_sheets,
                ledger.users == before.users,
                ledger.invitations == before.invitations,
                ledger.next_sheet_id == before.next_sheet_id,
                ledger.next_expense_id == before.next_expense_id,
                ledger.next_income_id == before.next_income_id,
                ledger.next_user_id == before.next_user_id,
                ledger.next_invitation_id == before.next_invitation_id,
                forall|k: int| j <= k < n ==> ledger.expenses[k] == before.expenses[k],
                forall|k: int|
                    0 <= k < j ==> (#[trigger] ledger.expenses[k])@ == (if before.expenses[k].id
                        == self.id {
                        EntryView {
                            name: self@.name,
                            amount: self@.amount,
                            date: self@.date,
                            ..before.expenses[k]@
                        }
                    } else {
                        before.expenses[k]@
                    }),
            decreases n - j,
        {
            if ledger.expenses[j].id == self.id {
                ledger.expenses[j].name = self.name.clone();
                ledger.expenses[j].amount = self.amount;
                ledger.expenses[j].date = self.date;
            }
            j += 1;
        }
        proof {
            assert(ledger@.expenses =~= before@.with_expense_saved(self@).expenses);
            ids_generated_after_change(
                before@.expenses,
                ledger@.expenses,
                |row: EntryView| row.id,
                before@.next_expense_id,
            );
        }
    }
}

} // verus!
