//! The ledger store: every table of the application, held in memory.

use vstd::prelude::*;
use crate::models::expense::{EntryView, Expense};
use crate::models::income::Income;
use crate::models::inherited_sheet::{EdgeView, InheritedSheet};
use crate::models::query::{first_where, first_where_is_a_row, ids_generated, views_of};
use crate::models::sheet::{Sheet, SheetView};
use crate::models::invitation::{Invitation, InvitationView};
use crate::models::user::{User, UserView};

verus! {

/// Why the ledger refused an operation. A refused operation changes nothing.
#[derive(Copy, Clone, Debug, PartialEq, Eq, Structural)]
pub enum LedgerError {
    /// The table has handed out every id it can.
    IdsExhausted,
    /// Some chain of inheritance edges above the sheet does not end.
    CyclicInheritance,
    /// A cached total would leave the range of its integer type.
    Overflow,
}

/// All tables, and for each table with generated ids the id the next row gets.
pub struct Ledger {
    pub sheets: Vec<Sheet>,
    pub expenses: Vec<Expense>,
    pub incomes: Vec<Income>,
    pub inherited_sheets: Vec<InheritedSheet>,
    pub users: Vec<User>,
    pub invitations: Vec<Invitation>,
    pub next_sheet_id: i32,
    pub next_expense_id: i32,
    pub next_income_id: i32,
    pub next_user_id: i32,
    pub next_invitation_id: i32,
}

/// The ledger as the contracts see it.
pub struct LedgerView {
    pub sheets: Seq<SheetView>,
    pub expenses: Seq<EntryView>,
    pub incomes: Seq<EntryView>,
    pub edges: Seq<EdgeView>,
    pub users: Seq<UserView>,
    pub invitations: Seq<InvitationView>,
    pub next_sheet_id: int,
    pub next_expense_id: int,
    pub next_income_id: int,
    pub next_user_id: int,
    pub next_invitation_id: int,
}

impl View for Ledger {
    type V = LedgerView;

    open spec fn view(&self) -> LedgerView {
        LedgerView {
            sheets: views_of(self.sheets@),
            expenses: views_of(self.expenses@),
            incomes: views_of(self.incomes@),
            edges: views_of(self.inherited_sheets@),
            users: views_of(self.users@),
            invitations: views_of(self.invitations@),
            next_sheet_id: self.next_sheet_id as int,
            next_expense_id: self.next_expense_id as int,
            next_income_id: self.next_income_id as int,
            next_user_id: self.next_user_id as int,
            next_invitation_id: self.next_invitation_id as int,
        }
    }
}

impl LedgerView {
    /// Ids of sheets are generated: no two sheets share one, and each is
    /// below the id the next sheet gets. The same holds of expenses and incomes.
    pub open spec fn wf(self) -> bool {
        &&& ids_generated(self.sheets, |row: SheetView| row.id, self.next_sheet_id)
        &&& ids_generated(self.expenses, |row: EntryView| row.id, self.next_expense_id)
        &&& ids_generated(self.incomes, |row: EntryView| row.id, self.next_income_id)
    }

    /// Whether a sheet with this id is stored.
    pub open spec fn has_sheet(self, id: int) -> bool {
        exists|i: int| 0 <= i < self.sheets.len() && (#[trigger] self.sheets[i]).id == id
    }

    /// The sheet with this id.
    pub open spec fn sheet_with_id(self, id: int) -> Option<SheetView> {
        first_where(self.sheets, |s: SheetView| s.id == id)
    }

    /// The cached total of the sheet with this id.
    pub open spec fn total_of(self, id: int) -> int {
        self.sheet_with_id(id).unwrap().cached_value
    }

    /// The first sheet with this name.
    pub open spec fn sheet_named(self, name: Seq<char>) -> Option<SheetView> {
        first_where(self.sheets, |s: SheetView| s.name == name)
    }

    /// The ledger with one more sheet, stored under the next id.
    pub open spec fn with_sheet_inserted(self, name: Seq<char>, cached_value: int) -> LedgerView {
        LedgerView {
            sheets: self.sheets.push(SheetView { id: self.next_sheet_id, name, cached_value }),
            next_sheet_id: self.next_sheet_id + 1,
            ..self
        }
    }

    /// The ledger in which the sheet with the id of `sheet` has the name and
    /// the total of `sheet`.
    pub open spec fn with_sheet_saved(self, sheet: SheetView) -> LedgerView {
        LedgerView {
            sheets: self.sheets.map_values(
                |row: SheetView|
                    if row.id == sheet.id {
                        sheet
                    } else {
                        row
                    },
            ),
            ..self
        }
    }

    /// The ledger without the sheet `id`, without its expenses and incomes,
    /// and without the edges that start or end at it. No other sheet changes.
    pub open spec fn without_sheet(self, id: int) -> LedgerView {
        LedgerView {
            sheets: self.sheets.filter(|row: SheetView| row.id != id),
            expenses: self.expenses.filter(|row: EntryView| row.sheet_id != id),
            incomes: self.incomes.filter(|row: EntryView| row.sheet_id != id),
            edges: self.edges.filter(
                |edge: EdgeView| edge.parent_sheet_id != id && edge.inherited_sheet_id != id,
            ),
            ..self
        }
    }

    /// The expense with this id.
    pub open spec fn expense_with_id(self, id: int) -> Option<EntryView> {
        first_where(self.expenses, |row: EntryView| row.id == id)
    }

    /// The first expense with this name.
    pub open spec fn expense_named(self, name: Seq<char>) -> Option<EntryView> {
        first_where(self.expenses, |row: EntryView| row.name == name)
    }

    /// The expenses of the sheet `sheet_id`, in the order they were stored.
    pub open spec fn expenses_of(self, sheet_id: int) -> Seq<EntryView> {
        self.expenses.filter(|row: EntryView| row.sheet_id == sheet_id)
    }

    /// The ledger with one more expense, stored under the next id.
    pub open spec fn with_expense_inserted(self, row: EntryView) -> LedgerView {
        LedgerView {
            expenses: self.expenses.push(EntryView { id: self.next_expense_id, ..row }),
            next_expense_id: self.next_expense_id + 1,
            ..self
        }
    }

    /// The ledger in which the expense with the id of `row` has the name,
    /// the amount and the date of `row`. It stays with its sheet.
    pub open spec fn with_expense_saved(self, row: EntryView) -> LedgerView {
        LedgerView {
            expenses: self.expenses.map_values(
                |stored: EntryView|
                    if stored.id == row.id {
                        EntryView { name: row.name, amount: row.amount, date: row.date, ..stored }
                    } else {
                        stored
                    },
            ),
            ..self
        }
    }

    /// The ledger without the expense `id`.
    pub open spec fn without_expense(self, id: int) -> LedgerView {
        LedgerView { expenses: self.expenses.filter(|row: EntryView| row.id != id), ..self }
    }

    /// The income with this id.
    pub open spec fn income_with_id(self, id: int) -> Option<EntryView> {
        first_where(self.incomes, |row: EntryView| row.id == id)
    }

    /// The first income with this name.
    pub open spec fn income_named(self, name: Seq<char>) -> Option<EntryView> {
        first_where(self.incomes, |row: EntryView| row.name == name)
    }

    /// The incomes of the sheet `sheet_id`, in the order they were stored.
    pub open spec fn incomes_of(self, sheet_id: int) -> Seq<EntryView> {
        self.incomes.filter(|row: EntryView| row.sheet_id == sheet_id)
    }

    /// The ledger with one more income, stored under the next id.
    pub open spec fn with_income_inserted(self, row: EntryView) -> LedgerView {
        LedgerView {
            incomes: self.incomes.push(EntryView { id: self.next_income_id, ..row }),
            next_income_id: self.next_income_id + 1,
            ..self
        }
    }

    /// The ledger in which the income with the id of `row` has the name,
    /// the amount and the date of `row`. It stays with its sheet.
    pub open spec fn with_income_saved(self, row: EntryView) -> LedgerView {
        LedgerView {
            incomes: self.incomes.map_values(
                |stored: EntryView|
                    if stored.id == row.id {
                        EntryView { name: row.name, amount: row.amount, date: row.date, ..stored }
                    } else {
                        stored
                    },
            ),
            ..self
        }
    }

    /// The ledger without the income `id`.
    pub open spec fn without_income(self, id: int) -> LedgerView {
        LedgerView { incomes: self.incomes.filter(|row: EntryView| row.id != id), ..self }
    }

    /// The first edge from `inherited` to `parent`.
    pub open spec fn edge_between(self, parent: int, inherited: int) -> Option<EdgeView> {
        first_where(
            self.edges,
            |edge: EdgeView| edge.parent_sheet_id == parent && edge.inherited_sheet_id == inherited,
        )
    }

    /// The edges into `parent`, in the order they were stored.
    pub open spec fn edges_into(self, parent: int) -> Seq<EdgeView> {
        self.edges.filter(|edge: EdgeView| edge.parent_sheet_id == parent)
    }

    /// The ledger with one more edge.
    pub open spec fn with_edge_inserted(self, edge: EdgeView) -> LedgerView {
        LedgerView { edges: self.edges.push(edge), ..self }
    }

    /// The ledger without any edge from `inherited` to `parent`.
    pub open spec fn without_edge(self, parent: int, inherited: int) -> LedgerView {
        LedgerView {
            edges: self.edges.filter(
                |edge: EdgeView|
                    !(edge.parent_sheet_id == parent && edge.inherited_sheet_id == inherited),
            ),
            ..self
        }
    }

    /// The ledger without any edge into `parent`.
    pub open spec fn without_edges_into(self, parent: int) -> LedgerView {
        LedgerView {
            edges: self.edges.filter(|edge: EdgeView| edge.parent_sheet_id != parent),
            ..self
        }
    }

    /// The ledger without any edge out of `inherited`.
    pub open spec fn without_edges_out_of(self, inherited: int) -> LedgerView {
        LedgerView {
            edges: self.edges.filter(|edge: EdgeView| edge.inherited_sheet_id != inherited),
            ..self
        }
    }

    /// The first account with this handle.
    pub open spec fn user_with_handle(self, handle: Seq<char>) -> Option<UserView> {
        first_where(self.users, |user: UserView| user.handle == handle)
    }

    /// The first account with this session token.
    pub open spec fn user_with_token(self, token: Seq<char>) -> Option<UserView> {
        first_where(self.users, |user: UserView| user.token == token)
    }

    /// The ledger with one more account, stored under the next id.
    pub open spec fn with_user_inserted(self, user: UserView) -> LedgerView {
        LedgerView {
            users: self.users.push(UserView { id: self.next_user_id, ..user }),
            next_user_id: self.next_user_id + 1,
            ..self
        }
    }

    /// The ledger without the accounts with this id.
    pub open spec fn without_user(self, id: int) -> LedgerView {
        LedgerView { users: self.users.filter(|user: UserView| user.id != id), ..self }
    }

    /// The ledger in which every account with this handle has this session
    /// token, valid until `expire_date`.
    pub open spec fn with_user_token(
        self,
        handle: Seq<char>,
        token: Seq<char>,
        expire_date: int,
    ) -> LedgerView {
        LedgerView {
            users: self.users.map_values(
                |user: UserView|
                    if user.handle == handle {
                        UserView { token, token_expire_date: expire_date, ..user }
                    } else {
                        user
                    },
            ),
            ..self
        }
    }

    /// The first invitation with this hash.
    pub open spec fn invitation_with_hash(self, hash: Seq<char>) -> Option<InvitationView> {
        first_where(self.invitations, |invitation: InvitationView| invitation.hash == hash)
    }

    /// The first invitation for this handle.
    pub open spec fn invitation_with_handle(self, handle: Seq<char>) -> Option<InvitationView> {
        first_where(self.invitations, |invitation: InvitationView| invitation.handle == handle)
    }

    /// The ledger with one more invitation, stored under the next id.
    pub open spec fn with_invitation_inserted(self, invitation: InvitationView) -> LedgerView {
        LedgerView {
            invitations: self.invitations.push(
                InvitationView { id: self.next_invitation_id, ..invitation },
            ),
            next_invitation_id: self.next_invitation_id + 1,
            ..self
        }
    }

    /// The ledger without the invitations with this id.
    pub open spec fn without_invitation(self, id: int) -> LedgerView {
        LedgerView {
            invitations: self.invitations.filter(
                |invitation: InvitationView| invitation.id != id,
            ),
            ..self
        }
    }

    /// The ledger in which every invitation for this handle expires at
    /// `expire_date`.
    pub open spec fn with_invitation_expiring(self, handle: Seq<char>, expire_date: int) -> LedgerView {
        LedgerView {
            invitations: self.invitations.map_values(
                |invitation: InvitationView|
                    if invitation.handle == handle {
                        InvitationView { expire_date, ..invitation }
                    } else {
                        invitation
                    },
            ),
            ..self
        }
    }

    /// The sheets inherited into `parent`, going by the first `count` edges:
    /// one id for each edge from a stored sheet, in the edges' order.
    pub open spec fn children_among(self, parent: int, count: int) -> Seq<int>
        decreases count,
    {
        if count <= 0 || count > self.edges.len() {
            Seq::empty()
        } else {
            let before = self.children_among(parent, count - 1);
            let edge = self.edges[count - 1];
            if edge.parent_sheet_id == parent && self.has_sheet(edge.inherited_sheet_id) {
                before.push(edge.inherited_sheet_id)
            } else {
                before
            }
        }
    }

    /// The sheets directly inherited into `parent`.
    pub open spec fn children(self, parent: int) -> Seq<int> {
        self.children_among(parent, self.edges.len() as int)
    }

    /// The stored sheets with the ids `ids`, in that order.
    pub open spec fn sheets_with_ids(self, ids: Seq<int>) -> Seq<SheetView> {
        ids.map_values(|id: int| self.sheet_with_id(id).unwrap())
    }
}

/// A stored sheet stands at one place of the table, and is what a search
/// for its id finds.
pub proof fn stored_sheet_place(ledger: LedgerView, id: int) -> (at: int)
    requires
        ledger.wf(),
        ledger.has_sheet(id),
    ensures
        0 <= at < ledger.sheets.len(),
        ledger.sheets[at].id == id,
        ledger.sheet_with_id(id) == Some(ledger.sheets[at]),
        forall|j: int| 0 <= j < ledger.sheets.len() && ledger.sheets[j].id == id ==> j == at,
{
    let at = choose|i: int| 0 <= i < ledger.sheets.len() && (#[trigger] ledger.sheets[i]).id == id;
    let wanted = |row: SheetView| row.id == id;
    first_where_is_a_row(ledger.sheets, wanted);
    assert(wanted(ledger.sheets[at]));
    let found = first_where(ledger.sheets, wanted).unwrap();
    let k = choose|k: int| 0 <= k < ledger.sheets.len() && ledger.sheets[k] == found;
    assert(ledger.sheets[k].id == id);
    assert(k == at) by {
        if k < at {
            assert(ledger.sheets[k].id != ledger.sheets[at].id);
        } else if at < k {
            assert(ledger.sheets[at].id != ledger.sheets[k].id);
        }
    }
    assert forall|j: int| 0 <= j < ledger.sheets.len() && ledger.sheets[j].id == id implies j
        == at by {
        if j < at {
            assert(ledger.sheets[j].id != ledger.sheets[at].id);
        } else if at < j {
            assert(ledger.sheets[at].id != ledger.sheets[j].id);
        }
    }
    at
}

/// A sheet that is not stored is not found.
pub proof fn missing_sheet_is_not_found(ledger: LedgerView, id: int)
    requires
        !ledger.has_sheet(id),
    ensures
        ledger.sheet_with_id(id) is None,
{
    let wanted = |row: SheetView| row.id == id;
    first_where_is_a_row(ledger.sheets, wanted);
    if first_where(ledger.sheets, wanted) is Some {
        let found = first_where(ledger.sheets, wanted).unwrap();
        let k = choose|k: int| 0 <= k < ledger.sheets.len() && ledger.sheets[k] == found;
        assert(ledger.sheets[k].id == id);
    }
}

/// The rows have generated ids exactly when their ids, taken alone, are
/// generated ids.
proof fn ids_generated_of_rows<T>(rows: Seq<T>, id: spec_fn(T) -> int, ids: Seq<i32>, next: int)
    requires
        ids.len() == rows.len(),
        forall|k: int| 0 <= k < rows.len() ==> ids[k] as int == id(#[trigger] rows[k]),
    ensures
        ids_generated(rows, id, next) == ids_generated(ids, |id: i32| id as int, next),
{
    let by_self = |id: i32| id as int;
    if ids_generated(rows, id, next) {
        assert forall|i: int| 0 <= i < ids.len() implies by_self(#[trigger] ids[i]) < next by {
            assert(id(rows[i]) < next);
        }
        assert forall|i: int, j: int| 0 <= i < j < ids.len() implies by_self(#[trigger] ids[i])
            != by_self(#[trigger] ids[j]) by {
            assert(id(rows[i]) != id(rows[j]));
        }
    }
    if ids_generated(ids, by_self, next) {
        assert forall|i: int| 0 <= i < rows.len() implies id(#[trigger] rows[i]) < next by {
            assert(by_self(ids[i]) < next);
        }
        assert forall|i: int, j: int| 0 <= i < j < rows.len() implies id(#[trigger] rows[i]) != id(
            #[trigger] rows[j],
        ) by {
            assert(by_self(ids[i]) != by_self(ids[j]));
        }
    }
}

/// Whether no two of the ids are the same and each is below `next`.
fn were_generated(ids: &Vec<i32>, next: i32) -> (ok: bool)
    ensures
        ok == ids_generated(ids@, |id: i32| id as int, next as int),
{
    let mut j: usize = 0;
    while j < ids.len()
        invariant
            j <= ids.len(),
            forall|k: int| 0 <= k < j ==> (#[trigger] ids@[k]) < next,
            forall|i: int, k: int| 0 <= i < k < j ==> (#[trigger] ids@[i]) != (#[trigger] ids@[k]),
        decreases ids.len() - j,
    {
        if ids[j] >= next {
            proof {
                let by_self = |id: i32| id as int;
                assert(!(by_self(ids@[j as int]) < next));
            }
            return false;
        }
        let mut i: usize = 0;
        while i < j
            invariant
                i <= j,
                j < ids.len(),
                forall|k: int| 0 <= k < i ==> (#[trigger] ids@[k]) != ids@[j as int],
            decreases j - i,
        {
            if ids[i] == ids[j] {
                proof {
                    let by_self = |id: i32| id as int;
                    assert(by_self(ids@[i as int]) == by_self(ids@[j as int]));
                }
                return false;
            }
            i += 1;
        }
        j += 1;
    }
    proof {
        let by_self = |id: i32| id as int;
        assert forall|k: int| 0 <= k < ids@.len() implies by_self(#[trigger] ids@[k]) < next by {}
        assert forall|i: int, k: int| 0 <= i < k < ids@.len() implies by_self(#[trigger] ids@[i])
            != by_self(#[trigger] ids@[k]) by {}
    }
    true
}

impl Ledger {
    /// The ledger is well formed: the ids of its sheets, of its expenses
    /// and of its incomes were generated. Every operation takes a well
    /// formed ledger and leaves one.
    pub open spec fn wf(&self) -> bool {
        self@.wf()
    }

    /// Whether the ids of the sheets, of the expenses and of the incomes
    /// were generated, as every operation takes for granted. A ledger put
    /// together from stored rows is checked with this before it is used.
    pub fn is_well_formed(&self) -> (ok: bool)
        ensures
            ok == self.wf(),
    {
        let mut sheet_ids: Vec<i32> = Vec::new();
        let mut i: usize = 0;
        while i < self.sheets.len()
            invariant
                i <= self.sheets.len(),
                sheet_ids.len() == i,
                forall|k: int| 0 <= k < i ==> sheet_ids[k] == self.sheets[k].id,
            decreases self.sheets.len() - i,
        {
            sheet_ids.push(self.sheets[i].id);
            i += 1;
        }
        let mut expense_ids: Vec<i32> = Vec::new();
        let mut i: usize = 0;
        while i < self.expenses.len()
            invariant
                i <= self.expenses.len(),
                expense_ids.len() == i,
                forall|k: int| 0 <= k < i ==> expense_ids[k] == self.expenses[k].id,
            decreases self.expenses.len() - i,
        {
            expense_ids.push(self.expenses[i].id);
            i += 1;
        }
        let mut income_ids: Vec<i32> = Vec::new();
        let mut i: usize = 0;
        while i < self.incomes.len()
            invariant
                i <= self.incomes.len(),
                income_ids.len() == i,
                forall|k: int| 0 <= k < i ==> income_ids[k] == self.incomes[k].id,
            decreases self.incomes.len() - i,
        {
            income_ids.push(self.incomes[i].id);
            i += 1;
        }
        let sheets_ok = were_generated(&sheet_ids, self.next_sheet_id);
        let expenses_ok = were_generated(&expense_ids, self.next_expense_id);
        let incomes_ok = were_generated(&income_ids, self.next_income_id);
        proof {
            let by_self = |id: i32| id as int;
            ids_generated_of_rows(
                self@.sheets,
                |row: SheetView| row.id,
                sheet_ids@,
                self@.next_sheet_id,
            );
            ids_generated_of_rows(
                self@.expenses,
                |row: EntryView| row.id,
                expense_ids@,
                self@.next_expense_id,
            );
            ids_generated_of_rows(
                self@.incomes,
                |row: EntryView| row.id,
                income_ids@,
                self@.next_income_id,
            );
        }
        sheets_ok && expenses_ok && incomes_ok
    }

    /// An empty ledger. Generated ids start at 1.
    pub fn new() -> (ledger: Ledger)
        ensures
            ledger.wf(),
            ledger@ == (LedgerView {
                sheets: Seq::empty(),
                expenses: Seq::empty(),
                incomes: Seq::empty(),
                edges: Seq::empty(),
                users: Seq::empty(),
                invitations: Seq::empty(),
                next_sheet_id: 1,
                next_expense_id: 1,
                next_income_id: 1,
                next_user_id: 1,
                next_invitation_id: 1,
            }),
    {
        let ledger = Ledger {
            sheets: Vec::new(),
            expenses: Vec::new(),
            incomes: Vec::new(),
            inherited_sheets: Vec::new(),
            users: Vec::new(),
            invitations: Vec::new(),
            next_sheet_id: 1,
            next_expense_id: 1,
            next_income_id: 1,
            next_user_id: 1,
            next_invitation_id: 1,
        };
        assert(ledger@.sheets =~= Seq::empty());
        assert(ledger@.expenses =~= Seq::empty());
        assert(ledger@.incomes =~= Seq::empty());
        assert(ledger@.edges =~= Seq::empty());
        assert(ledger@.users =~= Seq::empty());
        assert(ledger@.invitations =~= Seq::empty());
        ledger
    }
}

} // verus!
