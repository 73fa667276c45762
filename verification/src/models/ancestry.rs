//! The inheritance graph of a ledger: who inherits whom, how many chains of
//! edges lead from a sheet up to an ancestor, and what a change of one
//! sheet's total does to the totals above it.

use vstd::prelude::*;
use crate::models::ledger::{stored_sheet_place, LedgerError, LedgerView};
use crate::models::query::{first_where_is_a_row, ids_generated_after_change};
use crate::models::sheet::SheetView;

verus! {

/// The ids of a run of stored ids, as the graph functions take them.
pub open spec fn ids_of(ids: Seq<i32>) -> Seq<int> {
    ids.map_values(|id: i32| id as int)
}

impl LedgerView {
    /// The sheets that directly inherit `child`, going by the first `count`
    /// edges: one id for each edge into a stored sheet, in the edges' order.
    /// An edge whose parent sheet is not stored contributes nothing.
    pub open spec fn parents_among(self, child: int, count: int) -> Seq<int>
        decreases count,
    {
        if count <= 0 || count > self.edges.len() {
            Seq::empty()
        } else {
            let before = self.parents_among(child, count - 1);
            let edge = self.edges[count - 1];
            if edge.inherited_sheet_id == child && self.has_sheet(edge.parent_sheet_id) {
                before.push(edge.parent_sheet_id)
            } else {
                before
            }
        }
    }

    /// The sheets that directly inherit `child`.
    pub open spec fn parents(self, child: int) -> Seq<int> {
        self.parents_among(child, self.edges.len() as int)
    }

    /// The number of chains of at most `steps` edges that lead from `from`
    /// up to `to`. A sheet reaches itself by the empty chain.
    pub open spec fn paths(self, from: int, to: int, steps: nat) -> nat
        decreases steps, 0nat,
    {
        let here: nat = if from == to { 1 } else { 0 };
        if steps == 0 {
            here
        } else {
            here + self.paths_from_each(self.parents(from), to, (steps - 1) as nat)
        }
    }

    /// The chains counted by `paths`, summed over every start in `starts`.
    pub open spec fn paths_from_each(self, starts: Seq<int>, to: int, steps: nat) -> nat
        decreases steps, starts.len() + 1,
    {
        if starts.len() == 0 {
            0
        } else {
            self.paths_from_each(starts.drop_last(), to, steps) + self.paths(
                starts.last(),
                to,
                steps,
            )
        }
    }

    /// Every chain of edges upward from `id` ends after at most `steps` edges.
    pub open spec fn ends_within(self, id: int, steps: nat) -> bool
        decreases steps,
    {
        forall|k: int|
            0 <= k < self.parents(id).len() ==> steps > 0 && self.ends_within(
                #[trigger] self.parents(id)[k],
                (steps - 1) as nat,
            )
    }

    /// The longest chain that visits no sheet twice: one edge out of `id`
    /// and then one per further stored sheet.
    pub open spec fn longest_chain(self) -> nat {
        self.sheets.len()
    }

    /// Every chain of edges upward from `id` ends: none is longer than
    /// `longest_chain`. This holds exactly when there is no cycle above
    /// `id`, as `ancestry_ends_without_cycle` shows.
    pub open spec fn ancestry_ends(self, id: int) -> bool {
        self.ends_within(id, self.longest_chain())
    }

    /// How often a change of `from` reaches `to` on its way up: the number of
    /// chains of one edge or more from `from` to `to`.
    pub open spec fn ancestor_paths(self, from: int, to: int) -> nat {
        if self.sheets.len() == 0 {
            0
        } else {
            self.paths_from_each(self.parents(from), to, (self.sheets.len() - 1) as nat)
        }
    }

    /// The sheets after every ancestor of `from` has received `change` once
    /// for each chain of edges that leads to it.
    pub open spec fn with_ancestors_raised(self, from: int, change: int) -> LedgerView {
        LedgerView {
            sheets: Seq::new(
                self.sheets.len(),
                |j: int|
                    SheetView {
                        cached_value: self.sheets[j].cached_value + change * self.ancestor_paths(
                            from,
                            self.sheets[j].id,
                        ),
                        ..self.sheets[j]
                    },
            ),
            ..self
        }
    }

    /// The ledger after `sheet`, a copy of a stored sheet, has taken in
    /// `value`: the ancestors have received `value` on every chain, and the
    /// stored sheet has the name and the new total of the copy.
    pub open spec fn with_value_added(self, sheet: SheetView, value: int) -> LedgerView {
        self.with_ancestors_raised(sheet.id, value).with_sheet_saved(
            SheetView { cached_value: sheet.cached_value + value, ..sheet },
        )
    }

    /// Whether `sheet` can take in `value`: its new total and those of its
    /// ancestors are totals a sheet can hold, and its ancestry ends.
    pub open spec fn value_can_be_added(self, sheet: SheetView, value: int) -> bool {
        &&& i32::MIN <= sheet.cached_value + value <= i32::MAX
        &&& self.ancestry_ends(sheet.id)
        &&& self.raise_fits(sheet.id, value)
    }

    /// The ledger after `change` was applied to the sheet `id` and sent up
    /// from there. Where no such sheet is stored, nothing changes.
    pub open spec fn with_delta(self, id: int, change: int) -> LedgerView {
        match self.sheet_with_id(id) {
            Some(sheet) => self.with_value_added(sheet, change),
            None => self,
        }
    }

    /// Whether `change` can be applied to the sheet `id`.
    pub open spec fn delta_can_be_applied(self, id: int, change: int) -> bool {
        match self.sheet_with_id(id) {
            Some(sheet) => self.value_can_be_added(sheet, change),
            None => true,
        }
    }

    /// Why `sheet` cannot take in `value`, where it cannot: a total of its
    /// own leaves its range, or else its ancestry does not end, or else a
    /// total above it leaves its range.
    pub open spec fn value_refusal(self, sheet: SheetView, value: int) -> LedgerError {
        if !(i32::MIN <= sheet.cached_value + value <= i32::MAX) {
            LedgerError::Overflow
        } else if !self.ancestry_ends(sheet.id) {
            LedgerError::CyclicInheritance
        } else {
            LedgerError::Overflow
        }
    }

    /// Why a record of the sheet `id` cannot be settled with `change`,
    /// where it cannot.
    pub open spec fn settle_refusal(self, id: int, change: int) -> LedgerError {
        self.value_refusal(self.sheet_with_id(id).unwrap(), change)
    }

    /// Whether a record of the sheet `id` can be settled with `change`: no
    /// such sheet is stored, or the change can be applied to it.
    pub open spec fn can_settle(self, id: int, change: int) -> bool {
        self.delta_can_be_applied(id, change)
    }

    /// Whether every total that `with_ancestors_raised` computes is one a
    /// sheet can hold.
    pub open spec fn raise_fits(self, from: int, change: int) -> bool {
        forall|j: int|
            0 <= j < self.sheets.len() ==> i32::MIN <= (#[trigger] self.sheets[j]).cached_value
                + change * self.ancestor_paths(from, self.sheets[j].id) <= i32::MAX
    }
}

/// Every direct parent is a stored sheet.
pub proof fn parents_are_stored(ledger: LedgerView, child: int, count: int)
    ensures
        forall|k: int|
            0 <= k < ledger.parents_among(child, count).len() ==> ledger.has_sheet(
                #[trigger] ledger.parents_among(child, count)[k],
            ),
    decreases count,
{
    if 0 < count <= ledger.edges.len() {
        parents_are_stored(ledger, child, count - 1);
        let before = ledger.parents_among(child, count - 1);
        let now = ledger.parents_among(child, count);
        assert forall|k: int| 0 <= k < now.len() implies ledger.has_sheet(#[trigger] now[k]) by {
            if k < before.len() {
                assert(now[k] == before[k]);
            }
        }
    }
}

/// Chains from a joined run of starts are the chains from its two parts.
pub proof fn paths_from_joined(
    ledger: LedgerView,
    first: Seq<int>,
    second: Seq<int>,
    to: int,
    steps: nat,
)
    ensures
        ledger.paths_from_each(first + second, to, steps) == ledger.paths_from_each(
            first,
            to,
            steps,
        ) + ledger.paths_from_each(second, to, steps),
    decreases second.len(),
{
    if second.len() == 0 {
        assert(first + second =~= first);
    } else {
        assert((first + second).drop_last() =~= first + second.drop_last());
        assert((first + second).last() == second.last());
        paths_from_joined(ledger, first, second.drop_last(), to, steps);
    }
}

/// Where some chain leads up from a run of starts, it leads up from one of them.
pub proof fn paths_from_one_of(ledger: LedgerView, starts: Seq<int>, to: int, steps: nat) -> (k:
    int)
    requires
        ledger.paths_from_each(starts, to, steps) > 0,
    ensures
        0 <= k < starts.len(),
        ledger.paths(starts[k], to, steps) > 0,
    decreases starts.len(),
{
    if ledger.paths(starts.last(), to, steps) > 0 {
        starts.len() - 1
    } else {
        paths_from_one_of(ledger, starts.drop_last(), to, steps)
    }
}

/// An ancestry that ends within some number of steps ends within any larger number.
pub proof fn ends_within_more(ledger: LedgerView, id: int, steps: nat, more: nat)
    requires
        ledger.ends_within(id, steps),
        steps <= more,
    ensures
        ledger.ends_within(id, more),
    decreases steps,
{
    assert forall|k: int| 0 <= k < ledger.parents(id).len() implies more > 0
        && ledger.ends_within(#[trigger] ledger.parents(id)[k], (more - 1) as nat) by {
        ends_within_more(ledger, ledger.parents(id)[k], (steps - 1) as nat, (more - 1) as nat);
    }
}

/// A sheet reached from a parent of `id` has an ancestry that is shorter
/// than that of `id`.
pub proof fn reached_sheet_ends_sooner(
    ledger: LedgerView,
    id: int,
    k: int,
    to: int,
    height: nat,
    steps: nat,
)
    requires
        ledger.ends_within(id, height),
        0 <= k < ledger.parents(id).len(),
        ledger.paths(ledger.parents(id)[k], to, steps) > 0,
    ensures
        height > 0,
        ledger.ends_within(to, (height - 1) as nat),
    decreases steps,
{
    let parent = ledger.parents(id)[k];
    assert(height > 0 && ledger.ends_within(parent, (height - 1) as nat));
    if parent != to {
        let further = ledger.parents(parent);
        let q = paths_from_one_of(ledger, further, to, (steps - 1) as nat);
        reached_sheet_ends_sooner(ledger, parent, q, to, (height - 1) as nat, (steps - 1) as nat);
        ends_within_more(ledger, to, (height - 2) as nat, (height - 1) as nat);
    }
}

/// No chain of edges leads from a sheet whose ancestry ends back to that sheet.
pub proof fn no_chain_leads_back(ledger: LedgerView, id: int, height: nat, steps: nat)
    requires
        ledger.ends_within(id, height),
    ensures
        ledger.paths_from_each(ledger.parents(id), id, steps) == 0,
    decreases height,
{
    if ledger.paths_from_each(ledger.parents(id), id, steps) > 0 {
        let k = paths_from_one_of(ledger, ledger.parents(id), id, steps);
        reached_sheet_ends_sooner(ledger, id, k, id, height, steps);
        no_chain_leads_back(ledger, id, (height - 1) as nat, steps);
    }
}

/// A change applied to a sheet leaves every sheet in its place, with its id
/// and its name, and keeps the ledger well formed.
pub proof fn delta_keeps_the_sheets(ledger: LedgerView, id: int, change: int)
    requires
        ledger.wf(),
    ensures
        ledger.with_delta(id, change).wf(),
        ledger.with_delta(id, change).sheets.len() == ledger.sheets.len(),
        forall|j: int|
            0 <= j < ledger.sheets.len() ==> (#[trigger] ledger.with_delta(id, change).sheets[j]).id
                == ledger.sheets[j].id,
        forall|to: int| ledger.with_delta(id, change).has_sheet(to) == ledger.has_sheet(to),
        ledger.with_delta(id, change) == (LedgerView {
            sheets: ledger.with_delta(id, change).sheets,
            ..ledger
        }),
{
    let after = ledger.with_delta(id, change);
    if ledger.sheet_with_id(id) is Some {
        let sheet = ledger.sheet_with_id(id).unwrap();
        first_where_is_a_row(ledger.sheets, |row: SheetView| row.id == id);
        assert(sheet.id == id);
        assert forall|j: int| 0 <= j < ledger.sheets.len() implies (#[trigger] after.sheets[j]).id
            == ledger.sheets[j].id by {}
    }
    ids_generated_after_change(
        ledger.sheets,
        after.sheets,
        |row: SheetView| row.id,
        ledger.next_sheet_id,
    );
    assert forall|to: int| after.has_sheet(to) == ledger.has_sheet(to) by {
        if after.has_sheet(to) {
            let j = choose|j: int| 0 <= j < after.sheets.len() && (#[trigger] after.sheets[j]).id == to;
            assert(ledger.sheets[j].id == to);
        }
        if ledger.has_sheet(to) {
            let j = choose|j: int|
                0 <= j < ledger.sheets.len() && (#[trigger] ledger.sheets[j]).id == to;
            assert(after.sheets[j].id == to);
        }
    }
}

/// A change applied to a stored sheet whose ancestry ends reaches every
/// stored sheet once for each chain of edges that leads to it, the sheet
/// itself once.
pub proof fn delta_counts_chains(ledger: LedgerView, id: int, change: int, to: int)
    requires
        ledger.wf(),
        ledger.has_sheet(id),
        ledger.has_sheet(to),
        ledger.ancestry_ends(id),
    ensures
        ledger.with_delta(id, change).sheet_with_id(to) == Some(
            SheetView {
                cached_value: ledger.total_of(to) + change * ledger.paths(
                    id,
                    to,
                    ledger.sheets.len(),
                ),
                ..ledger.sheet_with_id(to).unwrap()
            },
        ),
{
    let after = ledger.with_delta(id, change);
    let n = ledger.sheets.len();
    let from = stored_sheet_place(ledger, id);
    let at = stored_sheet_place(ledger, to);
    delta_keeps_the_sheets(ledger, id, change);
    let at_after = stored_sheet_place(after, to);
    assert(at_after == at);
    no_chain_leads_back(ledger, id, n, (n - 1) as nat);
    assert(ledger.paths(id, to, n) == (if id == to {
        1nat
    } else {
        0nat
    }) + ledger.ancestor_paths(id, to));
    if id == to {
        assert(ledger.ancestor_paths(id, to) == 0);
        assert(change * 1 == change) by (nonlinear_arith);
    } else {
        assert(after.sheets[at].cached_value == ledger.sheets[at].cached_value + change
            * ledger.ancestor_paths(id, to));
    }
}

} // verus!
