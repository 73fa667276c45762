use vstd::prelude::*;
use crate::models::ledger::Ledger;
use crate::models::query::{
    all_where_keeps_all, all_where_of_views, find_first, first_where_of_views, select, view_of,
    views_of,
};

verus! {

/// An inheritance edge: the total of `inherited_sheet_id` counts toward the
/// total of `parent_sheet_id`.
#[derive(Copy, Clone, Debug, PartialEq, Eq, Structural)]
pub struct InheritedSheet {
    pub parent_sheet_id: i32,
    pub inherited_sheet_id: i32,
    pub date: i64,
}

/// An inheritance edge as the contracts see it.
pub struct EdgeView {
    pub parent_sheet_id: int,
    pub inherited_sheet_id: int,
    pub date: int,
}

impl View for InheritedSheet {
    type V = EdgeView;

    open spec fn view(&self) -> EdgeView {
        EdgeView {
            parent_sheet_id: self.parent_sheet_id as int,
            inherited_sheet_id: self.inherited_sheet_id as int,
            date: self.date as int,
        }
    }
}

impl InheritedSheet {
    pub fn new(parent_sheet_id: i32, inherited_sheet_id: i32, date: i64) -> (edge: InheritedSheet)
        ensures
            edge == (InheritedSheet { parent_sheet_id, inherited_sheet_id, date }),
    {
        InheritedSheet { parent_sheet_id, inherited_sheet_id, date }
    }

    /// Stores this edge after all stored edges. Neither sheet has to be
    /// stored, an edge may be stored twice, and no total changes.
    pub fn insert(&self, ledger: &mut Ledger)
        requires
            old(ledger).wf(),
        ensures
            final(ledger).wf(),
            final(ledger)@ == old(ledger)@.with_edge_inserted(self@),
    {
        ledger.inherited_sheets.push(*self);
        proof {
            assert(ledger@.edges =~= old(ledger)@.edges.push(self@));
        }
    }

    /// Removes every edge between the two sheets of this edge. No total changes.
    pub fn remove(&self, ledger: &mut Ledger)
        requires
            old(ledger).wf(),
        ensures
            final(ledger).wf(),
            final(ledger)@ == old(ledger)@.without_edge(
                self.parent_sheet_id as int,
                self.inherited_sheet_id as int,
            ),
    {
        let parent = self.parent_sheet_id;
        let inherited = self.inherited_sheet_id;
        let ghost stays = |edge: InheritedSheet|
            !(edge.parent_sheet_id == parent && edge.inherited_sheet_id == inherited);
        let keep = |edge: &InheritedSheet| -> (kept: bool)
            ensures
                kept == !(edge.parent_sheet_id == parent && edge.inherited_sheet_id == inherited),
            {
                !(edge.parent_sheet_id == parent && edge.inherited_sheet_id == inherited)
            };
        let edges = select(&ledger.inherited_sheets, keep, Ghost(stays));
        proof {
            assert(edges@ =~= ledger.inherited_sheets@.filter(stays));
            all_where_of_views(
                ledger.inherited_sheets@,
                |edge: InheritedSheet| edge@,
                stays,
                |edge: EdgeView|
                    !(edge.parent_sheet_id == parent as int && edge.inherited_sheet_id
                        == inherited as int),
            );
        }
        ledger.inherited_sheets = edges;
    }

    /// Every edge, in the order they were stored.
    pub fn get_all(ledger: &Ledger) -> (edges: Vec<InheritedSheet>)
        ensures
            views_of(edges@) == ledger@.edges,
    {
        let ghost on_rows = |edge: InheritedSheet| true;
        let keep = |edge: &InheritedSheet| -> (kept: bool)
            ensures
                kept,
            {
                true
            };
        let edges = select(&ledger.inherited_sheets, keep, Ghost(on_rows));
        proof {
            all_where_keeps_all(ledger.inherited_sheets@, on_rows);
            assert(edges@ =~= ledger.inherited_sheets@);
        }
        edges
    }

    /// The edges into the sheet `sheet_id`, in the order they were stored.
    pub fn get_all_by_sheet_id(ledger: &Ledger, sheet_id: i32) -> (edges: Vec<InheritedSheet>)
        ensures
            views_of(edges@) == ledger@.edges_into(sheet_id as int),
    {
        let ghost on_rows = |edge: InheritedSheet| edge.parent_sheet_id == sheet_id;
        let keep = |edge: &InheritedSheet| -> (kept: bool)
            ensures
                kept == (edge.parent_sheet_id == sheet_id),
            {
                edge.parent_sheet_id == sheet_id
            };
        let edges = select(&ledger.inherited_sheets, keep, Ghost(on_rows));
        proof {
            assert(edges@ =~= ledger.inherited_sheets@.filter(on_rows));
            all_where_of_views(
                ledger.inherited_sheets@,
                |edge: InheritedSheet| edge@,
                on_rows,
                |edge: EdgeView| edge.parent_sheet_id == sheet_id as int,
            );
        }
        edges
    }

    /// The first edge from `inherited_sheet_id` to `parent_sheet_id`.
    pub fn get_by_parent_and_inherited_id(
        ledger: &Ledger,
        parent_sheet_id: i32,
        inherited_sheet_id: i32,
    ) -> (found: Option<InheritedSheet>)
        ensures
            view_of(found) == ledger@.edge_between(
                parent_sheet_id as int,
                inherited_sheet_id as int,
            ),
    {
        let ghost on_rows = |edge: InheritedSheet|
            edge.parent_sheet_id == parent_sheet_id && edge.inherited_sheet_id
                == inherited_sheet_id;
        let keep = |edge: &InheritedSheet| -> (kept: bool)
            ensures
                kept == (edge.parent_sheet_id == parent_sheet_id && edge.inherited_sheet_id
                    == inherited_sheet_id),
            {
                edge.parent_sheet_id == parent_sheet_id && edge.inherited_sheet_id
                    == inherited_sheet_id
            };
        let found = find_first(&ledger.inherited_sheets, keep, Ghost(on_rows));
        proof {
            first_where_of_views(
                ledger.inherited_sheets@,
                |edge: InheritedSheet| edge@,
                on_rows,
                |edge: EdgeView|
                    edge.parent_sheet_id == parent_sheet_id as int && edge.inherited_sheet_id
                        == inherited_sheet_id as int,
            );
        }
        found
    }
}

/// Removes every edge into the sheet `parent_sheet_id`. No total changes.
pub fn remove_all_from_parent_sheet_id(ledger: &mut Ledger, parent_sheet_id: i32)
    requires
        old(ledger).wf(),
    ensures
        final(ledger).wf(),
        final(ledger)@ == old(ledger)@.without_edges_into(parent_sheet_id as int),
{
    let ghost stays = |edge: InheritedSheet| edge.parent_sheet_id != parent_sheet_id;
    let keep = |edge: &InheritedSheet| -> (kept: bool)
        ensures
            kept == (edge.parent_sheet_id != parent_sheet_id),
        {
            edge.parent_sheet_id != parent_sheet_id
        };
    let edges = select(&ledger.inherited_sheets, keep, Ghost(stays));
    proof {
        assert(edges@ =~= ledger.inherited_sheets@.filter(stays));
        all_where_of_views(
            ledger.inherited_sheets@,
            |edge: InheritedSheet| edge@,
            stays,
            |edge: EdgeView| edge.parent_sheet_id != parent_sheet_id as int,
        );
    }
    ledger.inherited_sheets = edges;
}

/// Removes every edge out of the sheet `inherited_sheet_id`. No total changes.
pub fn remove_all_from_inherited_sheet_id(ledger: &mut Ledger, inherited_sheet_id: i32)
    requires
        old(ledger).wf(),
    ensures
        final(ledger).wf(),
        final(ledger)@ == old(ledger)@.without_edges_out_of(inherited_sheet_id as int),
{
    let ghost stays = |edge: InheritedSheet| edge.inherited_sheet_id != inherited_sheet_id;
    let keep = |edge: &InheritedSheet| -> (kept: bool)
        ensures
            kept == (edge.inherited_sheet_id != inherited_sheet_id),
        {
            edge.inherited_sheet_id != inherited_sheet_id
        };
    let edges = select(&ledger.inherited_sheets, keep, Ghost(stays));
    proof {
        assert(edges@ =~= ledger.inherited_sheets@.filter(stays));
        all_where_of_views(
            ledger.inherited_sheets@,
            |edge: InheritedSheet| edge@,
            stays,
            |edge: EdgeView| edge.inherited_sheet_id != inherited_sheet_id as int,
        );
    }
    ledger.inherited_sheets = edges;
}

} // verus!
