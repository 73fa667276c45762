//! Counting chains by their last edge. `paths` counts the chains from a
//! sheet by their first edge; the totals of the sheets inherited into a
//! sheet ask for the chains into that sheet by their last one.

use vstd::prelude::*;
use crate::models::ancestry::{parents_are_stored, paths_from_joined};
use crate::models::ledger::LedgerView;

verus! {

/// How often `id` occurs in `run`.
pub open spec fn count_of(run: Seq<int>, id: int) -> nat
    decreases run.len(),
{
    if run.len() == 0 {
        0
    } else {
        count_of(run.drop_last(), id) + if run.last() == id {
            1nat
        } else {
            0nat
        }
    }
}

impl LedgerView {
    /// The next generation: the parents of each sheet of `generation`, one
    /// run after the other.
    pub open spec fn above(self, generation: Seq<int>) -> Seq<int>
        decreases generation.len(),
    {
        if generation.len() == 0 {
            Seq::empty()
        } else {
            self.above(generation.drop_last()) + self.parents(generation.last())
        }
    }

    /// The sum of `weight` over the stored sheets inherited into `to`, one
    /// term for each of the first `count` edges into `to`.
    pub open spec fn over_inherited(self, to: int, count: int, weight: spec_fn(int) -> int) -> int
        decreases count,
    {
        if count <= 0 || count > self.edges.len() {
            0
        } else {
            let edge = self.edges[count - 1];
            self.over_inherited(to, count - 1, weight) + if edge.parent_sheet_id == to
                && self.has_sheet(edge.inherited_sheet_id) {
                weight(edge.inherited_sheet_id)
            } else {
                0
            }
        }
    }

    /// Every sheet of `run` is stored.
    pub open spec fn all_stored(self, run: Seq<int>) -> bool {
        forall|k: int| 0 <= k < run.len() ==> self.has_sheet(#[trigger] run[k])
    }

    /// The ancestry of every sheet of `run` ends within `steps` edges.
    pub open spec fn all_end_within(self, run: Seq<int>, steps: nat) -> bool {
        forall|k: int| 0 <= k < run.len() ==> self.ends_within(#[trigger] run[k], steps)
    }
}

/// Occurrences in a joined run are those in its two parts.
pub proof fn count_of_joined(first: Seq<int>, second: Seq<int>, id: int)
    ensures
        count_of(first + second, id) == count_of(first, id) + count_of(second, id),
    decreases second.len(),
{
    if second.len() == 0 {
        assert(first + second =~= first);
    } else {
        assert((first + second).drop_last() =~= first + second.drop_last());
        assert((first + second).last() == second.last());
        count_of_joined(first, second.drop_last(), id);
    }
}

/// A sum over inherited sheets is more by `factor` times another such sum
/// where each term is more by `factor` times the other term.
pub proof fn over_inherited_adds(
    ledger: LedgerView,
    to: int,
    count: int,
    whole: spec_fn(int) -> int,
    part: spec_fn(int) -> int,
    factor: int,
    rest: spec_fn(int) -> int,
)
    requires
        forall|id: int| ledger.has_sheet(id) ==> #[trigger] whole(id) == part(id) + factor * rest(id),
    ensures
        ledger.over_inherited(to, count, whole) == ledger.over_inherited(to, count, part) + factor
            * ledger.over_inherited(to, count, rest),
    decreases count,
{
    if 0 < count <= ledger.edges.len() {
        over_inherited_adds(ledger, to, count - 1, whole, part, factor, rest);
        let edge = ledger.edges[count - 1];
        let before = ledger.over_inherited(to, count - 1, rest);
        if edge.parent_sheet_id == to && ledger.has_sheet(edge.inherited_sheet_id) {
            let term = rest(edge.inherited_sheet_id);
            assert(whole(edge.inherited_sheet_id) == part(edge.inherited_sheet_id) + factor * term);
            assert(factor * (before + term) == factor * before + factor * term)
                by (nonlinear_arith);
        }
    } else {
        assert(factor * 0 == 0) by (nonlinear_arith);
    }
}

/// A sum over inherited sheets goes by the edges and by which sheets are
/// stored, not by what the sheets hold.
pub proof fn over_inherited_of_same_graph(
    ledger: LedgerView,
    other: LedgerView,
    to: int,
    count: int,
    weight: spec_fn(int) -> int,
)
    requires
        ledger.edges == other.edges,
        forall|id: int| ledger.has_sheet(id) == other.has_sheet(id),
    ensures
        ledger.over_inherited(to, count, weight) == other.over_inherited(to, count, weight),
    decreases count,
{
    if 0 < count <= ledger.edges.len() {
        over_inherited_of_same_graph(ledger, other, to, count - 1, weight);
    }
}

/// A sum over inherited sheets goes by the edges it runs over.
pub proof fn over_inherited_of_same_edges(
    ledger: LedgerView,
    other: LedgerView,
    to: int,
    count: int,
    weight: spec_fn(int) -> int,
)
    requires
        count <= ledger.edges.len(),
        count <= other.edges.len(),
        forall|i: int| 0 <= i < count ==> ledger.edges[i] == other.edges[i],
        forall|id: int| ledger.has_sheet(id) == other.has_sheet(id),
    ensures
        ledger.over_inherited(to, count, weight) == other.over_inherited(to, count, weight),
    decreases count,
{
    if 0 < count {
        over_inherited_of_same_edges(ledger, other, to, count - 1, weight);
    }
}

/// The parents of stored sheets are stored.
pub proof fn above_is_stored(ledger: LedgerView, generation: Seq<int>)
    ensures
        ledger.all_stored(ledger.above(generation)),
    decreases generation.len(),
{
    if generation.len() > 0 {
        above_is_stored(ledger, generation.drop_last());
        parents_are_stored(ledger, generation.last(), ledger.edges.len() as int);
        let before = ledger.above(generation.drop_last());
        let added = ledger.parents(generation.last());
        let now = ledger.above(generation);
        assert forall|k: int| 0 <= k < now.len() implies ledger.has_sheet(#[trigger] now[k]) by {
            if k < before.len() {
                assert(now[k] == before[k]);
            } else {
                assert(now[k] == added[k - before.len()]);
                assert(added[k - before.len()] == ledger.parents_among(
                    generation.last(),
                    ledger.edges.len() as int,
                )[k - before.len()]);
            }
        }
    }
}

/// The chains from a generation to a sheet are the sheet's occurrences in
/// the generation and the chains, one edge shorter, from the next generation.
pub proof fn paths_by_generation(ledger: LedgerView, generation: Seq<int>, to: int, steps: nat)
    ensures
        ledger.paths_from_each(generation, to, steps) == count_of(generation, to) + if steps > 0 {
            ledger.paths_from_each(ledger.above(generation), to, (steps - 1) as nat)
        } else {
            0
        },
    decreases generation.len(),
{
    if generation.len() > 0 {
        let shorter = generation.drop_last();
        let last = generation.last();
        paths_by_generation(ledger, shorter, to, steps);
        assert(ledger.paths_from_each(generation, to, steps) == ledger.paths_from_each(
            shorter,
            to,
            steps,
        ) + ledger.paths(last, to, steps));
        assert(ledger.above(generation) == ledger.above(shorter) + ledger.parents(last));
        if steps > 0 {
            paths_from_joined(
                ledger,
                ledger.above(shorter),
                ledger.parents(last),
                to,
                (steps - 1) as nat,
            );
            assert(ledger.paths(last, to, steps) == (if last == to {
                1nat
            } else {
                0nat
            }) + ledger.paths_from_each(ledger.parents(last), to, (steps - 1) as nat));
        } else {
            assert(ledger.paths(last, to, steps) == if last == to {
                1nat
            } else {
                0nat
            });
        }
    } else {
        assert(ledger.above(generation) =~= Seq::<int>::empty());
        if steps > 0 {
            assert(ledger.paths_from_each(Seq::<int>::empty(), to, (steps - 1) as nat) == 0);
        }
    }
}

/// A stored sheet is a parent of `child` as often as `child` is inherited
/// into it.
pub proof fn parents_count_edges(ledger: LedgerView, child: int, to: int, count: int)
    requires
        ledger.has_sheet(child),
        ledger.has_sheet(to),
    ensures
        count_of(ledger.parents_among(child, count), to) == ledger.over_inherited(
            to,
            count,
            |id: int|
                if id == child {
                    1int
                } else {
                    0int
                },
        ),
    decreases count,
{
    if 0 < count <= ledger.edges.len() {
        parents_count_edges(ledger, child, to, count - 1);
        let edge = ledger.edges[count - 1];
        let before = ledger.parents_among(child, count - 1);
        if edge.inherited_sheet_id == child && ledger.has_sheet(edge.parent_sheet_id) {
            assert(before.push(edge.parent_sheet_id).drop_last() =~= before);
        }
    }
}

/// A sum of nothing over inherited sheets is nothing.
pub proof fn over_inherited_of_nothing(
    ledger: LedgerView,
    to: int,
    count: int,
    weight: spec_fn(int) -> int,
)
    requires
        forall|id: int| ledger.has_sheet(id) ==> #[trigger] weight(id) == 0,
    ensures
        ledger.over_inherited(to, count, weight) == 0,
    decreases count,
{
    if 0 < count <= ledger.edges.len() {
        over_inherited_of_nothing(ledger, to, count - 1, weight);
    }
}

/// A sheet occurs in the next generation as often as the sheets inherited
/// into it occur in this one.
pub proof fn above_counts_inherited(ledger: LedgerView, generation: Seq<int>, to: int)
    requires
        ledger.has_sheet(to),
        ledger.all_stored(generation),
    ensures
        count_of(ledger.above(generation), to) == ledger.over_inherited(
            to,
            ledger.edges.len() as int,
            |id: int| count_of(generation, id) as int,
        ),
    decreases generation.len(),
{
    let all = ledger.edges.len() as int;
    if generation.len() == 0 {
        over_inherited_of_nothing(ledger, to, all, |id: int| count_of(generation, id) as int);
    } else {
        let shorter = generation.drop_last();
        let last = generation.last();
        assert forall|k: int| 0 <= k < shorter.len() implies ledger.has_sheet(
            #[trigger] shorter[k],
        ) by {
            assert(shorter[k] == generation[k]);
        }
        assert(ledger.has_sheet(generation[generation.len() - 1]));
        above_counts_inherited(ledger, shorter, to);
        count_of_joined(ledger.above(shorter), ledger.parents(last), to);
        parents_count_edges(ledger, last, to, all);
        let is_last = |id: int|
            if id == last {
                1int
            } else {
                0int
            };
        over_inherited_adds(
            ledger,
            to,
            all,
            |id: int| count_of(generation, id) as int,
            |id: int| count_of(shorter, id) as int,
            1,
            is_last,
        );
        assert(1 * ledger.over_inherited(to, all, is_last) == ledger.over_inherited(
            to,
            all,
            is_last,
        )) by (nonlinear_arith);
    }
}

/// The chains from the next generation to a sheet are the chains from this
/// generation to the sheets inherited into it.
pub proof fn above_paths_are_inherited(
    ledger: LedgerView,
    generation: Seq<int>,
    to: int,
    steps: nat,
)
    requires
        ledger.has_sheet(to),
        ledger.all_stored(generation),
    ensures
        ledger.paths_from_each(ledger.above(generation), to, steps) == ledger.over_inherited(
            to,
            ledger.edges.len() as int,
            |id: int| ledger.paths_from_each(generation, id, steps) as int,
        ),
    decreases steps,
{
    let all = ledger.edges.len() as int;
    let next = ledger.above(generation);
    above_is_stored(ledger, generation);
    above_counts_inherited(ledger, generation, to);
    paths_by_generation(ledger, next, to, steps);
    let whole = |id: int| ledger.paths_from_each(generation, id, steps) as int;
    let here = |id: int| count_of(generation, id) as int;
    if steps > 0 {
        let fewer = (steps - 1) as nat;
        let later = |id: int| ledger.paths_from_each(next, id, fewer) as int;
        above_paths_are_inherited(ledger, next, to, fewer);
        assert forall|id: int| ledger.has_sheet(id) implies #[trigger] whole(id) == here(id) + 1
            * later(id) by {
            paths_by_generation(ledger, generation, id, steps);
            assert(1 * later(id) == later(id)) by (nonlinear_arith);
        }
        over_inherited_adds(ledger, to, all, whole, here, 1, later);
        assert(1 * ledger.over_inherited(to, all, later) == ledger.over_inherited(to, all, later))
            by (nonlinear_arith);
    } else {
        let nothing = |id: int| 0int;
        assert forall|id: int| ledger.has_sheet(id) implies #[trigger] whole(id) == here(id) + 1
            * nothing(id) by {
            paths_by_generation(ledger, generation, id, steps);
        }
        over_inherited_adds(ledger, to, all, whole, here, 1, nothing);
        over_inherited_of_nothing(ledger, to, all, nothing);
    }
}

/// Beyond the edges within which the ancestry of a sheet ends, no chain
/// from the sheet is left to count.
pub proof fn paths_stop(ledger: LedgerView, from: int, to: int, height: nat, steps: nat)
    requires
        ledger.ends_within(from, height),
        height <= steps,
    ensures
        ledger.paths(from, to, steps) == ledger.paths(from, to, height),
    decreases height, 0nat,
{
    let parents = ledger.parents(from);
    if height == 0 {
        if parents.len() > 0 {
            let first = parents[0];
        }
        if steps > 0 {
            assert(ledger.paths_from_each(parents, to, (steps - 1) as nat) == 0);
        }
    } else {
        assert forall|k: int| 0 <= k < parents.len() implies ledger.ends_within(
            #[trigger] parents[k],
            (height - 1) as nat,
        ) by {
            assert(parents[k] == ledger.parents(from)[k]);
        }
        paths_from_each_stop(ledger, parents, to, (height - 1) as nat, (steps - 1) as nat);
    }
}

/// The same, for the chains from each sheet of a run.
pub proof fn paths_from_each_stop(
    ledger: LedgerView,
    starts: Seq<int>,
    to: int,
    height: nat,
    steps: nat,
)
    requires
        ledger.all_end_within(starts, height),
        height <= steps,
    ensures
        ledger.paths_from_each(starts, to, steps) == ledger.paths_from_each(starts, to, height),
    decreases height, starts.len() + 1,
{
    if starts.len() > 0 {
        let shorter = starts.drop_last();
        assert forall|k: int| 0 <= k < shorter.len() implies ledger.ends_within(
            #[trigger] shorter[k],
            height,
        ) by {
            assert(shorter[k] == starts[k]);
        }
        assert(ledger.ends_within(starts[starts.len() - 1], height));
        paths_from_each_stop(ledger, shorter, to, height, steps);
        paths_stop(ledger, starts.last(), to, height, steps);
    }
}

/// The ancestries of the next generation end one edge sooner; where those
/// of this generation end at once, there is no next generation.
pub proof fn above_ends_sooner(ledger: LedgerView, generation: Seq<int>, height: nat)
    requires
        ledger.all_end_within(generation, height),
    ensures
        height == 0 ==> ledger.above(generation).len() == 0,
        height > 0 ==> ledger.all_end_within(ledger.above(generation), (height - 1) as nat),
    decreases generation.len(),
{
    if generation.len() > 0 {
        let shorter = generation.drop_last();
        let last = generation.last();
        assert forall|k: int| 0 <= k < shorter.len() implies ledger.ends_within(
            #[trigger] shorter[k],
            height,
        ) by {
            assert(shorter[k] == generation[k]);
        }
        assert(ledger.ends_within(generation[generation.len() - 1], height));
        above_ends_sooner(ledger, shorter, height);
        let before = ledger.above(shorter);
        let added = ledger.parents(last);
        let now = ledger.above(generation);
        if height == 0 {
            if added.len() > 0 {
                let first = ledger.parents(last)[0];
            }
        } else {
            assert forall|k: int| 0 <= k < now.len() implies ledger.ends_within(
                #[trigger] now[k],
                (height - 1) as nat,
            ) by {
                if k < before.len() {
                    assert(now[k] == before[k]);
                } else {
                    assert(now[k] == ledger.parents(last)[k - before.len()]);
                }
            }
        }
    }
}

/// The chains that lead from `from` to a stored sheet other than `from`
/// are the chains that lead from `from` to the sheets inherited into it,
/// each with the edge that follows: every chain has a last edge.
pub proof fn chains_by_last_edge(ledger: LedgerView, from: int, to: int)
    requires
        ledger.wf(),
        ledger.has_sheet(from),
        ledger.has_sheet(to),
        ledger.ancestry_ends(from),
    ensures
        ledger.over_inherited(
            to,
            ledger.edges.len() as int,
            |id: int| ledger.paths(from, id, ledger.sheets.len()) as int,
        ) == ledger.paths(from, to, ledger.sheets.len()) - if to == from {
            1int
        } else {
            0int
        },
{
    let n = ledger.sheets.len();
    let all = ledger.edges.len() as int;
    assert(n > 0) by {
        let at = choose|at: int| 0 <= at < ledger.sheets.len() && (#[trigger] ledger.sheets[at]).id
            == from;
    }
    let fewer = (n - 1) as nat;
    let alone = seq![from];
    let first = ledger.parents(from);
    let second = ledger.above(first);
    assert(alone.drop_last() =~= Seq::<int>::empty());
    assert(ledger.above(Seq::<int>::empty()) =~= Seq::<int>::empty());
    assert(ledger.above(alone) =~= first);
    assert(ledger.all_stored(alone));
    parents_are_stored(ledger, from, all);
    assert(ledger.all_stored(first)) by {
        assert forall|k: int| 0 <= k < first.len() implies ledger.has_sheet(#[trigger] first[k]) by {
            assert(first[k] == ledger.parents_among(from, all)[k]);
        }
    }
    let whole = |id: int| ledger.paths(from, id, n) as int;
    let here = |id: int| count_of(alone, id) as int;
    let later = |id: int| ledger.paths_from_each(first, id, fewer) as int;
    assert forall|id: int| ledger.has_sheet(id) implies #[trigger] whole(id) == here(id) + 1
        * later(id) by {
        assert(count_of(alone, id) == if from == id {
            1nat
        } else {
            0nat
        }) by {
            assert(count_of(Seq::<int>::empty(), id) == 0);
            assert(alone.last() == from);
        }
        assert(1 * later(id) == later(id)) by (nonlinear_arith);
    }
    over_inherited_adds(ledger, to, all, whole, here, 1, later);
    assert(1 * ledger.over_inherited(to, all, later) == ledger.over_inherited(to, all, later))
        by (nonlinear_arith);
    above_counts_inherited(ledger, alone, to);
    above_paths_are_inherited(ledger, first, to, fewer);
    paths_by_generation(ledger, first, to, fewer);
    assert(ledger.all_end_within(first, fewer)) by {
        assert forall|k: int| 0 <= k < first.len() implies ledger.ends_within(
            #[trigger] first[k],
            fewer,
        ) by {
            assert(first[k] == ledger.parents(from)[k]);
        }
    }
    above_ends_sooner(ledger, first, fewer);
    if fewer > 0 {
        paths_from_each_stop(ledger, second, to, (fewer - 1) as nat, fewer);
    } else {
        assert(second =~= Seq::<int>::empty());
        assert(ledger.paths_from_each(second, to, fewer) == 0);
    }
}

} // verus!
