use vstd::prelude::*;
use crate::models::expense::EntryView;
use crate::models::ledger::{Ledger, LedgerError};
use crate::models::query::{
    all_where_keeps_all, all_where_of_views, find_first, first_where_of_views,
    ids_generated_after_change, ids_generated_after_filter, ids_generated_after_push, select,
    view_of, views_of,
};

verus! {

/// A source of income in a sheet. Its amount counts toward the sheet's total.
#[derive(Debug)]
pub struct Income {
    pub id: i32,
    pub name: String,
    pub amount: i32,
    pub date: i64,
    pub sheet_id: i32,
}

impl View for Income {
    type V = EntryView;

    open spec fn view(&self) -> EntryView {
        EntryView {
            id: self.id as int,
            name: self.name@,
            amount: self.amount as int,
            date: self.date as int,
            sheet_id: self.sheet_id as int,
        }
    }
}

impl Clone for Income {
    fn clone(&self) -> (copy: Income)
        ensures
            copy == *self,
    {
        Income {
            id: self.id,
            name: self.name.clone(),
            amount: self.amount,
            date: self.date,
            sheet_id: self.sheet_id,
        }
    }
}

impl Income {
    /// An income that is not stored yet: id 0.
    pub fn new(name: &str, amount: i32, sheet_id: i32, date: i64) -> (income: Income)
        ensures
            income@ == (EntryView {
                id: 0,
                name: name@,
                amount: amount as int,
                date: date as int,
                sheet_id: sheet_id as int,
            }),
    {
        Income { id: 0, name: name.to_owned(), amount, date, sheet_id }
    }

    /// Stores an income with these fields under the next id. The id of `self`
    /// plays no part, and no total changes.
    pub fn insert(&self, ledger: &mut Ledger) -> (outcome: Result<(), LedgerError>)
        requires
            old(ledger).wf(),
        ensures
            final(ledger).wf(),
            outcome is Ok <==> old(ledger)@.next_income_id < i32::MAX,
            outcome is Ok ==> final(ledger)@ == old(ledger)@.with_income_inserted(self@),
            outcome is Err ==> outcome.unwrap_err() == LedgerError::IdsExhausted && *final(ledger)
                == *old(ledger),
    {
        if ledger.next_income_id == i32::MAX {
            return Err(LedgerError::IdsExhausted);
        }
        let row = Income {
            id: ledger.next_income_id,
            name: self.name.clone(),
            amount: self.amount,
            date: self.date,
            sheet_id: self.sheet_id,
        };
        ledger.incomes.push(row);
        ledger.next_income_id = ledger.next_income_id + 1;
        proof {
            assert(ledger@.incomes =~= old(ledger)@.incomes.push(row@));
            ids_generated_after_push(
                old(ledger)@.incomes,
                |row: EntryView| row.id,
                old(ledger)@.next_income_id,
                row@,
            );
        }
        Ok(())
    }

    /// Removes the income with the id of `self`. No total changes.
    pub fn remove(&self, ledger: &mut Ledger)
        requires
            old(ledger).wf(),
        ensures
            final(ledger).wf(),
            final(ledger)@ == old(ledger)@.without_income(self.id as int),
    {
        let id = self.id;
        let ghost before = ledger@;
        let ghost stays = |row: Income| row.id != id;
        let keep = |row: &Income| -> (kept: bool)
            ensures
                kept == (row.id != id),
            {
                row.id != id
            };
        let rows = select(&ledger.incomes, keep, Ghost(stays));
        proof {
            assert(rows@ =~= ledger.incomes@.filter(stays));
            all_where_of_views(
                ledger.incomes@,
                |row: Income| row@,
                stays,
                |row: EntryView| row.id != id as int,
            );
            ids_generated_after_filter(
                before.incomes,
                |row: EntryView| row.id,
                before.next_income_id,
                |row: EntryView| row.id != id as int,
            );
        }
        ledger.incomes = rows;
    }

    /// The first income with this name.
    pub fn get_by_name(ledger: &Ledger, key: &str) -> (found: Option<Income>)
        ensures
            view_of(found) == ledger@.income_named(key@),
    {
        let name = key.to_owned();
        let ghost on_rows = |row: Income| row.name@ == key@;
        let keep = |row: &Income| -> (kept: bool)
            ensures
                kept == (row.name@ == key@),
            {
                row.name == name
            };
        let found = find_first(&ledger.incomes, keep, Ghost(on_rows));
        proof {
            first_where_of_views(
                ledger.incomes@,
                |row: Income| row@,
                on_rows,
                |row: EntryView| row.name == key@,
            );
        }
        found
    }

    /// The income with this id.
    pub fn get_by_id(ledger: &Ledger, id: i32) -> (found: Option<Income>)
        ensures
            view_of(found) == ledger@.income_with_id(id as int),
    {
        let ghost on_rows = |row: Income| row.id == id;
        let keep = |row: &Income| -> (kept: bool)
            ensures
                kept == (row.id == id),
            {
                row.id == id
            };
        let found = find_first(&ledger.incomes, keep, Ghost(on_rows));
        proof {
            first_where_of_views(
                ledger.incomes@,
                |row: Income| row@,
                on_rows,
                |row: EntryView| row.id == id as int,
            );
        }
        found
    }

    /// Every income, in the order they were stored.
    pub fn get_all(ledger: &Ledger) -> (rows: Vec<Income>)
        ensures
            views_of(rows@) == ledger@.incomes,
    {
        let ghost on_rows = |row: Income| true;
        let keep = |row: &Income| -> (kept: bool)
            ensures
                kept,
            {
                true
            };
        let rows = select(&ledger.incomes, keep, Ghost(on_rows));
        proof {
            all_where_keeps_all(ledger.incomes@, on_rows);
            assert(rows@ =~= ledger.incomes@);
        }
        rows
    }

    /// The incomes of one sheet, in the order they were stored.
    pub fn get_all_by_sheet_id(ledger: &Ledger, sheet_id: i32) -> (rows: Vec<Income>)
        ensures
            views_of(rows@) == ledger@.incomes_of(sheet_id as int),
    {
        let ghost on_rows = |row: Income| row.sheet_id == sheet_id;
        let keep = |row: &Income| -> (kept: bool)
            ensures
                kept == (row.sheet_id == sheet_id),
            {
                row.sheet_id == sheet_id
            };
        let rows = select(&ledger.incomes, keep, Ghost(on_rows));
        proof {
            assert(rows@ =~= ledger.incomes@.filter(on_rows));
            all_where_of_views(
                ledger.incomes@,
                |row: Income| row@,
                on_rows,
                |row: EntryView| row.sheet_id == sheet_id as int,
            );
        }
        rows
    }

    /// Gives the stored income with the id of `self` the name, the amount and
    /// the date of `self`. No total changes.
    pub fn update(&self, ledger: &mut Ledger)
        requires
            old(ledger).wf(),
        ensures
            final(ledger).wf(),
            final(ledger)@ == old(ledger)@.with_income_saved(self@),
    {
        let ghost before = *ledger;
        let n = ledger.incomes.len();
        let mut j: usize = 0;
        while j < n
            invariant
                j <= n,
                n == before.incomes.len(),
                ledger.incomes.len() == n,
                ledger.sheets == before.sheets,
                ledger.expenses == before.expenses,
                ledger.inherited_sheets == before.inherited_sheets,
                ledger.users == before.users,
                ledger.invitations == before.invitations,
                ledger.next_sheet_id == before.next_sheet_id,
                ledger.next_expense_id == before.next_expense_id,
                ledger.next_income_id == before.next_income_id,
                ledger.next_user_id == before.next_user_id,
                ledger.next_invitation_id == before.next_invitation_id,
                forall|k: int| j <= k < n ==> ledger.incomes[k] == before.incomes[k],
                forall|k: int|
                    0 <= k < j ==> (#[trigger] ledger.incomes[k])@ == (if before.incomes[k].id
                        == self.id {
                        EntryView {
                            name: self@.name,
                            amount: self@.amount,
                            date: self@.date,
                            ..before.incomes[k]@
                        }
                    } else {
                        before.incomes[k]@
                    }),
            decreases n - j,
        {
            if ledger.incomes[j].id == self.id {
                ledger.incomes[j].name = self.name.clone();
                ledger.incomes[j].amount = self.amount;
                ledger.incomes[j].date = self.date;
            }
            j += 1;
        }
        proof {
            assert(ledger@.incomes =~= before@.with_income_saved(self@).incomes);
            ids_generated_after_change(
                before@.incomes,
                ledger@.incomes,
                |row: EntryView| row.id,
                before@.next_income_id,
            );
        }
    }
}

} // verus!
