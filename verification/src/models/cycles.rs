//! When the ancestry of a sheet ends: exactly when no chain of edges that
//! starts at the sheet comes back to a sheet it has visited.

use vstd::prelude::*;
use vstd::set_lib::{lemma_int_range, lemma_len_subset, set_int_range};
use crate::models::ancestry::parents_are_stored;
use crate::models::ledger::LedgerView;

verus! {

impl LedgerView {
    /// A climb: each sheet of the run directly inherits the sheet before it.
    pub open spec fn is_climb(self, run: Seq<int>) -> bool {
        forall|i: int|
            0 <= i < run.len() - 1 ==> self.parents(#[trigger] run[i]).contains(run[i + 1])
    }

    /// Some climb that starts at `id` visits a sheet above `id` twice.
    pub open spec fn has_cycle_above(self, id: int) -> bool {
        exists|run: Seq<int>, i: int, j: int|
            self.is_climb(run) && run.len() > 0 && run[0] == id && 1 <= i < j < run.len()
                && #[trigger] run[i] == #[trigger] run[j]
    }
}

/// A place of the table at which the sheet `id` stands.
spec fn place_of(ledger: LedgerView, id: int) -> int {
    choose|at: int| 0 <= at < ledger.sheets.len() && (#[trigger] ledger.sheets[at]).id == id
}

/// Where the ancestry of a sheet does not end within `steps` edges, a climb
/// of one edge more starts at the sheet.
proof fn long_climb(ledger: LedgerView, id: int, steps: nat) -> (run: Seq<int>)
    requires
        !ledger.ends_within(id, steps),
    ensures
        run.len() == steps + 2,
        run[0] == id,
        ledger.is_climb(run),
        forall|i: int| 1 <= i < run.len() ==> ledger.has_sheet(#[trigger] run[i]),
    decreases steps,
{
    let above = ledger.parents(id);
    if steps == 0 {
        if above.len() == 0 {
            assert(ledger.ends_within(id, steps));
        }
        let first = ledger.parents(id)[0];
        assert(0 <= 0 < ledger.parents(id).len() && !(steps > 0 && ledger.ends_within(
            ledger.parents(id)[0],
            (steps - 1) as nat,
        )));
    } else if forall|k: int|
        0 <= k < ledger.parents(id).len() ==> steps > 0 && ledger.ends_within(
            #[trigger] ledger.parents(id)[k],
            (steps - 1) as nat,
        ) {
        assert(ledger.ends_within(id, steps));
    }
    let k = choose|k: int|
        0 <= k < ledger.parents(id).len() && !(steps > 0 && ledger.ends_within(
            #[trigger] ledger.parents(id)[k],
            (steps - 1) as nat,
        ));
    let parent = above[k];
    parents_are_stored(ledger, id, ledger.edges.len() as int);
    assert(ledger.has_sheet(ledger.parents_among(id, ledger.edges.len() as int)[k]));
    let rest = if steps == 0 {
        seq![parent]
    } else {
        long_climb(ledger, parent, (steps - 1) as nat)
    };
    let run = seq![id] + rest;
    assert forall|i: int| 0 <= i < run.len() - 1 implies ledger.parents(
        #[trigger] run[i],
    ).contains(run[i + 1]) by {
        if i == 0 {
            assert(run[1] == parent);
        } else {
            assert(run[i] == rest[i - 1]);
            assert(run[i + 1] == rest[i]);
            assert(ledger.parents(rest[i - 1]).contains(rest[i - 1 + 1]));
        }
    }
    assert forall|i: int| 1 <= i < run.len() implies ledger.has_sheet(#[trigger] run[i]) by {
        assert(run[i] == rest[i - 1]);
        if i > 1 {
            assert(ledger.has_sheet(rest[i - 1]));
        }
    }
    run
}

/// Among more numbers below `bound` than `bound`, two are the same.
proof fn two_alike(numbers: Seq<int>, bound: nat) -> (places: (int, int))
    requires
        numbers.len() > bound,
        forall|k: int| 0 <= k < numbers.len() ==> 0 <= #[trigger] numbers[k] < bound,
    ensures
        0 <= places.0 < places.1 < numbers.len(),
        numbers[places.0] == numbers[places.1],
{
    if numbers.no_duplicates() {
        numbers.unique_seq_to_set();
        lemma_int_range(0, bound as int);
        assert(numbers.to_set().subset_of(set_int_range(0, bound as int))) by {
            assert forall|value: int| numbers.to_set().contains(value) implies set_int_range(
                0,
                bound as int,
            ).contains(value) by {
                let k = choose|k: int| 0 <= k < numbers.len() && numbers[k] == value;
                assert(0 <= numbers[k] < bound);
            }
        }
        lemma_len_subset(numbers.to_set(), set_int_range(0, bound as int));
    }
    let (i, j) = choose|i: int, j: int|
        0 <= i < numbers.len() && 0 <= j < numbers.len() && i != j && numbers[i] == numbers[j];
    if i < j {
        (i, j)
    } else {
        (j, i)
    }
}

/// Along a climb from a sheet whose ancestry ends, the ancestries get
/// shorter by one edge with every step.
proof fn climb_shortens(ledger: LedgerView, run: Seq<int>, steps: nat, at: int)
    requires
        ledger.is_climb(run),
        0 <= at < run.len(),
        ledger.ends_within(run[0], steps),
    ensures
        at <= steps,
        ledger.ends_within(run[at], (steps - at) as nat),
    decreases at,
{
    if at > 0 {
        climb_shortens(ledger, run, steps, at - 1);
        let below = run[at - 1];
        assert(ledger.parents(below).contains(run[at - 1 + 1]));
        let k = choose|k: int| 0 <= k < ledger.parents(below).len() && ledger.parents(below)[k]
            == run[at];
        assert(steps - (at - 1) > 0 && ledger.ends_within(
            ledger.parents(below)[k],
            ((steps - (at - 1)) - 1) as nat,
        ));
    }
}

/// No climb leads from a sheet whose ancestry ends back to that sheet.
proof fn no_climb_comes_back(ledger: LedgerView, run: Seq<int>, steps: nat)
    requires
        ledger.is_climb(run),
        run.len() >= 2,
        ledger.ends_within(run[0], steps),
    ensures
        run[0] != run[run.len() - 1],
    decreases steps,
{
    if run[0] == run[run.len() - 1] {
        climb_shortens(ledger, run, steps, run.len() - 1);
        no_climb_comes_back(ledger, run, (steps - (run.len() - 1)) as nat);
    }
}

/// The ancestry of a sheet ends exactly when there is no cycle above it.
pub proof fn ancestry_ends_without_cycle(ledger: LedgerView, id: int)
    requires
        ledger.wf(),
    ensures
        ledger.ancestry_ends(id) == !ledger.has_cycle_above(id),
{
    let n = ledger.sheets.len();
    if !ledger.ancestry_ends(id) {
        let run = long_climb(ledger, id, n);
        let above = run.subrange(1, run.len() as int);
        let places = Seq::new(above.len(), |k: int| place_of(ledger, above[k]));
        assert forall|k: int| 0 <= k < places.len() implies 0 <= #[trigger] places[k] < n by {
            assert(above[k] == run[k + 1]);
            assert(ledger.has_sheet(run[k + 1]));
        }
        let (i, j) = two_alike(places, n);
        assert(above[i] == run[i + 1]);
        assert(above[j] == run[j + 1]);
        assert(ledger.has_sheet(run[i + 1]));
        assert(ledger.has_sheet(run[j + 1]));
        assert(ledger.sheets[places[i]].id == above[i]);
        assert(ledger.sheets[places[j]].id == above[j]);
        assert(run[i + 1] == run[j + 1]);
        assert(ledger.is_climb(run) && run.len() > 0 && run[0] == id && 1 <= i + 1 < j + 1
            < run.len() && run[i + 1] == run[j + 1]);
    }
    if ledger.has_cycle_above(id) && ledger.ancestry_ends(id) {
        let (run, i, j) = choose|run: Seq<int>, i: int, j: int|
            ledger.is_climb(run) && run.len() > 0 && run[0] == id && 1 <= i < j < run.len()
                && #[trigger] run[i] == #[trigger] run[j];
        climb_shortens(ledger, run, n, i);
        let round = run.subrange(i, j + 1);
        assert forall|k: int| 0 <= k < round.len() - 1 implies ledger.parents(
            #[trigger] round[k],
        ).contains(round[k + 1]) by {
            assert(round[k] == run[i + k]);
            assert(round[k + 1] == run[i + k + 1]);
            assert(ledger.parents(run[i + k]).contains(run[i + k + 1]));
        }
        no_climb_comes_back(ledger, round, (n - i) as nat);
        assert(round[0] == run[i]);
        assert(round[round.len() - 1] == run[j]);
    }
}

} // verus!
