//! What a change does on the two smallest inheritance graphs that matter:
//! a chain, and a diamond.

use vstd::prelude::*;
use crate::models::ancestry::{delta_counts_chains, parents_are_stored};
use crate::models::ledger::{stored_sheet_place, LedgerView};

verus! {

/// A chain of sheets: `low` is inherited into `middle` alone, `middle` into
/// `top` alone, and nothing inherits `top`.
pub open spec fn is_chain(ledger: LedgerView, top: int, middle: int, low: int) -> bool {
    &&& ledger.has_sheet(low)
    &&& ledger.parents(low) == seq![middle]
    &&& ledger.parents(middle) == seq![top]
    &&& ledger.parents(top) == Seq::<int>::empty()
}

/// A diamond of sheets: `low` is inherited into `left` and into `right`,
/// each of which is inherited into `top` alone, and nothing inherits `top`.
pub open spec fn is_diamond(ledger: LedgerView, top: int, left: int, right: int, low: int) -> bool {
    &&& ledger.has_sheet(low)
    &&& ledger.parents(low) == seq![left, right]
    &&& ledger.parents(left) == seq![top]
    &&& ledger.parents(right) == seq![top]
    &&& ledger.parents(top) == Seq::<int>::empty()
}

/// Two stored sheets with different ancestries are two sheets.
proof fn two_sheets_stored(ledger: LedgerView, one: int, other: int)
    requires
        ledger.wf(),
        ledger.has_sheet(one),
        ledger.has_sheet(other),
        one != other,
    ensures
        ledger.sheets.len() >= 2,
{
    let i = stored_sheet_place(ledger, one);
    let j = stored_sheet_place(ledger, other);
    assert(i != j);
}

/// The chains that lead up from the lowest sheet of a chain: one to each of
/// the three sheets, none to any other.
pub proof fn chains_of_a_chain(ledger: LedgerView, top: int, middle: int, low: int, to: int)
    requires
        ledger.wf(),
        is_chain(ledger, top, middle, low),
    ensures
        ledger.ancestry_ends(low),
        ledger.has_sheet(middle),
        ledger.has_sheet(top),
        ledger.paths(low, to, ledger.sheets.len()) == (if to == low {
            1nat
        } else {
            0nat
        }) + (if to == middle {
            1nat
        } else {
            0nat
        }) + (if to == top {
            1nat
        } else {
            0nat
        }),
{
    let n = ledger.sheets.len();
    parents_are_stored(ledger, low, ledger.edges.len() as int);
    parents_are_stored(ledger, middle, ledger.edges.len() as int);
    assert(ledger.has_sheet(ledger.parents(low)[0]));
    assert(ledger.has_sheet(ledger.parents(middle)[0]));
    assert(low != top);
    two_sheets_stored(ledger, low, top);
    let one = seq![middle];
    let two = seq![top];
    assert(one.drop_last() =~= Seq::<int>::empty());
    assert(two.drop_last() =~= Seq::<int>::empty());
    assert(ledger.paths(top, to, (n - 2) as nat) == if to == top {
        1nat
    } else {
        0nat
    }) by {
        if n > 2 {
            assert(ledger.paths_from_each(Seq::<int>::empty(), to, (n - 3) as nat) == 0);
        }
    }
    assert(ledger.paths_from_each(two, to, (n - 2) as nat) == ledger.paths(
        top,
        to,
        (n - 2) as nat,
    )) by {
        assert(ledger.paths_from_each(Seq::<int>::empty(), to, (n - 2) as nat) == 0);
        assert(two.last() == top);
    }
    assert(ledger.paths(middle, to, (n - 1) as nat) == (if to == middle {
        1nat
    } else {
        0nat
    }) + ledger.paths_from_each(two, to, (n - 2) as nat));
    assert(ledger.paths_from_each(one, to, (n - 1) as nat) == ledger.paths(
        middle,
        to,
        (n - 1) as nat,
    )) by {
        assert(ledger.paths_from_each(Seq::<int>::empty(), to, (n - 1) as nat) == 0);
        assert(one.last() == middle);
    }
    assert(ledger.ends_within(top, (n - 2) as nat));
    assert(ledger.ends_within(middle, (n - 1) as nat)) by {
        assert(ledger.parents(middle)[0] == top);
    }
    assert(ledger.ends_within(low, n)) by {
        assert(ledger.parents(low)[0] == middle);
    }
}

/// The chains that lead up from the lowest sheet of a diamond: two to the
/// top, one through each side.
pub proof fn chains_of_a_diamond(
    ledger: LedgerView,
    top: int,
    left: int,
    right: int,
    low: int,
    to: int,
)
    requires
        ledger.wf(),
        is_diamond(ledger, top, left, right, low),
    ensures
        ledger.ancestry_ends(low),
        ledger.has_sheet(left),
        ledger.has_sheet(right),
        ledger.has_sheet(top),
        ledger.paths(low, to, ledger.sheets.len()) == (if to == low {
            1nat
        } else {
            0nat
        }) + (if to == left {
            1nat
        } else {
            0nat
        }) + (if to == right {
            1nat
        } else {
            0nat
        }) + (if to == top {
            2nat
        } else {
            0nat
        }),
{
    let n = ledger.sheets.len();
    parents_are_stored(ledger, low, ledger.edges.len() as int);
    parents_are_stored(ledger, left, ledger.edges.len() as int);
    assert(ledger.has_sheet(ledger.parents(low)[0]));
    assert(ledger.has_sheet(ledger.parents(low)[1]));
    assert(ledger.has_sheet(ledger.parents(left)[0]));
    assert(low != top);
    two_sheets_stored(ledger, low, top);
    let sides = seq![left, right];
    let above = seq![top];
    assert(above.drop_last() =~= Seq::<int>::empty());
    assert(sides.drop_last() =~= seq![left]);
    assert(seq![left].drop_last() =~= Seq::<int>::empty());
    assert(ledger.paths(top, to, (n - 2) as nat) == if to == top {
        1nat
    } else {
        0nat
    }) by {
        if n > 2 {
            assert(ledger.paths_from_each(Seq::<int>::empty(), to, (n - 3) as nat) == 0);
        }
    }
    assert(ledger.paths_from_each(above, to, (n - 2) as nat) == ledger.paths(
        top,
        to,
        (n - 2) as nat,
    )) by {
        assert(ledger.paths_from_each(Seq::<int>::empty(), to, (n - 2) as nat) == 0);
        assert(above.last() == top);
    }
    assert(ledger.paths(left, to, (n - 1) as nat) == (if to == left {
        1nat
    } else {
        0nat
    }) + ledger.paths_from_each(above, to, (n - 2) as nat));
    assert(ledger.paths(right, to, (n - 1) as nat) == (if to == right {
        1nat
    } else {
        0nat
    }) + ledger.paths_from_each(above, to, (n - 2) as nat));
    assert(ledger.paths_from_each(sides, to, (n - 1) as nat) == ledger.paths(
        left,
        to,
        (n - 1) as nat,
    ) + ledger.paths(right, to, (n - 1) as nat)) by {
        assert(ledger.paths_from_each(Seq::<int>::empty(), to, (n - 1) as nat) == 0);
        assert(sides.last() == right);
        assert(seq![left].last() == left);
        assert(ledger.paths_from_each(seq![left], to, (n - 1) as nat) == ledger.paths(
            left,
            to,
            (n - 1) as nat,
        ));
    }
    assert(ledger.ends_within(top, (n - 2) as nat));
    assert(ledger.ends_within(left, (n - 1) as nat)) by {
        assert(ledger.parents(left)[0] == top);
    }
    assert(ledger.ends_within(right, (n - 1) as nat)) by {
        assert(ledger.parents(right)[0] == top);
    }
    assert(ledger.ends_within(low, n)) by {
        assert(ledger.parents(low)[0] == left);
        assert(ledger.parents(low)[1] == right);
    }
}

/// A change applied to the lowest sheet of a chain raises the total of that
/// sheet, of the middle one and of the top one by the change, each once.
pub proof fn change_climbs_a_chain(
    ledger: LedgerView,
    top: int,
    middle: int,
    low: int,
    change: int,
)
    requires
        ledger.wf(),
        is_chain(ledger, top, middle, low),
    ensures
        ledger.with_delta(low, change).total_of(low) == ledger.total_of(low) + change,
        ledger.with_delta(low, change).total_of(middle) == ledger.total_of(middle) + change,
        ledger.with_delta(low, change).total_of(top) == ledger.total_of(top) + change,
{
    assert(ledger.parents(top).len() == 0);
    assert(ledger.parents(middle).len() == 1);
    assert(ledger.parents(middle)[0] == top);
    assert(ledger.parents(low)[0] == middle);
    assert(top != middle && top != low && low != middle);
    chains_of_a_chain(ledger, top, middle, low, low);
    chains_of_a_chain(ledger, top, middle, low, middle);
    chains_of_a_chain(ledger, top, middle, low, top);
    delta_counts_chains(ledger, low, change, low);
    delta_counts_chains(ledger, low, change, middle);
    delta_counts_chains(ledger, low, change, top);
    assert(change * 1 == change) by (nonlinear_arith);
}

/// A change applied to the lowest sheet of a diamond raises the total of
/// the top sheet by twice the change: once through each side. Each side
/// receives the change once.
pub proof fn change_reaches_the_top_of_a_diamond_twice(
    ledger: LedgerView,
    top: int,
    left: int,
    right: int,
    low: int,
    change: int,
)
    requires
        ledger.wf(),
        is_diamond(ledger, top, left, right, low),
        left != right,
    ensures
        ledger.with_delta(low, change).total_of(top) == ledger.total_of(top) + 2 * change,
        ledger.with_delta(low, change).total_of(left) == ledger.total_of(left) + change,
        ledger.with_delta(low, change).total_of(right) == ledger.total_of(right) + change,
        ledger.with_delta(low, change).total_of(low) == ledger.total_of(low) + change,
{
    assert(ledger.parents(top).len() == 0);
    assert(ledger.parents(left).len() == 1);
    assert(ledger.parents(right).len() == 1);
    assert(ledger.parents(low).len() == 2);
    assert(top != left && top != right && top != low && low != left && low != right);
    chains_of_a_diamond(ledger, top, left, right, low, low);
    chains_of_a_diamond(ledger, top, left, right, low, left);
    chains_of_a_diamond(ledger, top, left, right, low, right);
    chains_of_a_diamond(ledger, top, left, right, low, top);
    delta_counts_chains(ledger, low, change, low);
    delta_counts_chains(ledger, low, change, left);
    delta_counts_chains(ledger, low, change, right);
    delta_counts_chains(ledger, low, change, top);
    assert(change * 1 == change) by (nonlinear_arith);
    assert(change * 2 == 2 * change) by (nonlinear_arith);
}

} // verus!
