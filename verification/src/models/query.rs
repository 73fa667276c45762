//! Row selection shared by every table of the ledger.

use vstd::prelude::*;

verus! {

/// The first row of `rows` that satisfies `wanted`, if any does.
pub open spec fn first_where<T>(rows: Seq<T>, wanted: spec_fn(T) -> bool) -> Option<T>
    decreases rows.len(),
{
    if rows.len() == 0 {
        None
    } else if wanted(rows.first()) {
        Some(rows.first())
    } else {
        first_where(rows.drop_first(), wanted)
    }
}

/// The view of a row that may be missing.
pub open spec fn view_of<T: View>(row: Option<T>) -> Option<T::V> {
    match row {
        Some(row) => Some(row@),
        None => None,
    }
}

/// The views of a run of rows.
pub open spec fn views_of<T: View>(rows: Seq<T>) -> Seq<T::V> {
    rows.map_values(|row: T| row@)
}

/// The ids of `rows` were generated one after the other: no two rows share
/// an id, and every id is below `next`, the id the next row gets.
pub open spec fn ids_generated<T>(rows: Seq<T>, id: spec_fn(T) -> int, next: int) -> bool {
    &&& forall|i: int| 0 <= i < rows.len() ==> id(#[trigger] rows[i]) < next
    &&& forall|i: int, j: int|
        0 <= i < j < rows.len() ==> id(#[trigger] rows[i]) != id(#[trigger] rows[j])
}

/// A new row under the next id keeps the ids generated.
pub proof fn ids_generated_after_push<T>(rows: Seq<T>, id: spec_fn(T) -> int, next: int, row: T)
    requires
        ids_generated(rows, id, next),
        id(row) == next,
    ensures
        ids_generated(rows.push(row), id, next + 1),
{
    let after = rows.push(row);
    assert forall|i: int| 0 <= i < after.len() implies id(#[trigger] after[i]) < next + 1 by {
        if i < rows.len() {
            assert(after[i] == rows[i]);
        }
    }
    assert forall|i: int, j: int| 0 <= i < j < after.len() implies id(#[trigger] after[i]) != id(
        #[trigger] after[j],
    ) by {
        assert(after[i] == rows[i]);
        if j < rows.len() {
            assert(after[j] == rows[j]);
        }
    }
}

/// Dropping rows keeps the ids generated.
pub proof fn ids_generated_after_filter<T>(
    rows: Seq<T>,
    id: spec_fn(T) -> int,
    next: int,
    wanted: spec_fn(T) -> bool,
)
    requires
        ids_generated(rows, id, next),
    ensures
        ids_generated(rows.filter(wanted), id, next),
        forall|k: int|
            0 <= k < rows.filter(wanted).len() ==> rows.contains(#[trigger] rows.filter(wanted)[k]),
    decreases rows.len(),
{
    reveal(Seq::filter);
    if rows.len() > 0 {
        let shorter = rows.drop_last();
        assert forall|i: int| 0 <= i < shorter.len() implies id(#[trigger] shorter[i]) < next by {
            assert(shorter[i] == rows[i]);
        }
        assert forall|i: int, j: int| 0 <= i < j < shorter.len() implies id(
            #[trigger] shorter[i],
        ) != id(#[trigger] shorter[j]) by {
            assert(shorter[i] == rows[i]);
            assert(shorter[j] == rows[j]);
        }
        ids_generated_after_filter(shorter, id, next, wanted);
        let kept = shorter.filter(wanted);
        let after = rows.filter(wanted);
        assert forall|k: int| 0 <= k < after.len() implies rows.contains(#[trigger] after[k]) by {
            if k < kept.len() {
                assert(after[k] == kept[k]);
                let at = choose|at: int| 0 <= at < shorter.len() && shorter[at] == kept[k];
                assert(rows[at] == kept[k]);
            } else {
                assert(after[k] == rows[rows.len() - 1]);
            }
        }
        assert forall|i: int| 0 <= i < after.len() implies id(#[trigger] after[i]) < next by {
            let at = choose|at: int| 0 <= at < rows.len() && rows[at] == after[i];
        }
        assert forall|i: int, j: int| 0 <= i < j < after.len() implies id(#[trigger] after[i])
            != id(#[trigger] after[j]) by {
            if j < kept.len() {
                assert(after[i] == kept[i]);
                assert(after[j] == kept[j]);
            } else {
                assert(after[i] == kept[i]);
                let at = choose|at: int| 0 <= at < shorter.len() && shorter[at] == kept[i];
                assert(rows[at] == kept[i]);
                assert(after[j] == rows[rows.len() - 1]);
            }
        }
    }
}

/// A wanted row is among the rows selected.
pub proof fn all_where_has<T>(rows: Seq<T>, wanted: spec_fn(T) -> bool, at: int) -> (k: int)
    requires
        0 <= at < rows.len(),
        wanted(rows[at]),
    ensures
        0 <= k < rows.filter(wanted).len(),
        rows.filter(wanted)[k] == rows[at],
    decreases rows.len(),
{
    reveal(Seq::filter);
    if at == rows.len() - 1 {
        rows.drop_last().filter(wanted).len() as int
    } else {
        let k = all_where_has(rows.drop_last(), wanted, at);
        k
    }
}

/// Changing rows without changing their ids keeps the ids generated.
pub proof fn ids_generated_after_change<T>(
    rows: Seq<T>,
    changed: Seq<T>,
    id: spec_fn(T) -> int,
    next: int,
)
    requires
        ids_generated(rows, id, next),
        changed.len() == rows.len(),
        forall|i: int| 0 <= i < rows.len() ==> id(#[trigger] changed[i]) == id(rows[i]),
    ensures
        ids_generated(changed, id, next),
{
    assert forall|i: int, j: int| 0 <= i < j < changed.len() implies id(#[trigger] changed[i])
        != id(#[trigger] changed[j]) by {
        assert(id(rows[i]) != id(rows[j]));
    }
    assert forall|i: int| 0 <= i < changed.len() implies id(#[trigger] changed[i]) < next by {
        assert(id(rows[i]) < next);
    }
}

/// A row that satisfies `wanted` and has no such row before it is the first one.
pub proof fn first_where_is<T>(rows: Seq<T>, wanted: spec_fn(T) -> bool, at: int)
    requires
        0 <= at < rows.len(),
        wanted(rows[at]),
        forall|j: int| 0 <= j < at ==> !wanted(#[trigger] rows[j]),
    ensures
        first_where(rows, wanted) == Some(rows[at]),
    decreases rows.len(),
{
    if at > 0 {
        assert(!wanted(rows[0]));
        let rest = rows.drop_first();
        assert forall|j: int| 0 <= j < at - 1 implies !wanted(#[trigger] rest[j]) by {
            assert(rest[j] == rows[j + 1]);
        }
        first_where_is(rest, wanted, at - 1);
    }
}

/// Where no row satisfies `wanted`, there is no first one.
pub proof fn first_where_is_none<T>(rows: Seq<T>, wanted: spec_fn(T) -> bool)
    requires
        forall|j: int| 0 <= j < rows.len() ==> !wanted(#[trigger] rows[j]),
    ensures
        first_where(rows, wanted) is None,
    decreases rows.len(),
{
    if rows.len() > 0 {
        assert(!wanted(rows[0]));
        let rest = rows.drop_first();
        assert forall|j: int| 0 <= j < rest.len() implies !wanted(#[trigger] rest[j]) by {
            assert(rest[j] == rows[j + 1]);
        }
        first_where_is_none(rest, wanted);
    }
}

/// The first row found satisfies `wanted` and is one of the rows.
pub proof fn first_where_is_a_row<T>(rows: Seq<T>, wanted: spec_fn(T) -> bool)
    ensures
        first_where(rows, wanted) is Some ==> wanted(first_where(rows, wanted).unwrap())
            && rows.contains(first_where(rows, wanted).unwrap()),
        first_where(rows, wanted) is None ==> forall|j: int|
            0 <= j < rows.len() ==> !wanted(#[trigger] rows[j]),
    decreases rows.len(),
{
    if rows.len() > 0 {
        if wanted(rows.first()) {
            assert(rows[0] == rows.first());
        } else {
            let rest = rows.drop_first();
            first_where_is_a_row(rest, wanted);
            if first_where(rest, wanted) is Some {
                let found = first_where(rest, wanted).unwrap();
                let k = choose|k: int| 0 <= k < rest.len() && rest[k] == found;
                assert(rows[k + 1] == found);
            } else {
                assert forall|j: int| 0 <= j < rows.len() implies !wanted(#[trigger] rows[j]) by {
                    if j > 0 {
                        assert(rest[j - 1] == rows[j]);
                    }
                }
            }
        }
    }
}

/// Where every row is wanted, selecting changes nothing.
pub proof fn all_where_keeps_all<T>(rows: Seq<T>, wanted: spec_fn(T) -> bool)
    requires
        forall|j: int| 0 <= j < rows.len() ==> wanted(#[trigger] rows[j]),
    ensures
        rows.filter(wanted) == rows,
    decreases rows.len(),
{
    reveal(Seq::filter);
    if rows.len() > 0 {
        all_where_keeps_all(rows.drop_last(), wanted);
        assert(rows.drop_last().push(rows.last()) =~= rows);
    }
}

/// Selecting rows and then viewing them gives what selecting among the
/// views gives, where the two conditions agree.
pub proof fn all_where_of_views<T, V>(
    rows: Seq<T>,
    view: spec_fn(T) -> V,
    on_rows: spec_fn(T) -> bool,
    on_views: spec_fn(V) -> bool,
)
    requires
        forall|t: T| #[trigger] on_rows(t) == on_views(view(t)),
    ensures
        rows.filter(on_rows).map_values(view) == rows.map_values(view).filter(on_views),
    decreases rows.len(),
{
    reveal(Seq::filter);
    if rows.len() > 0 {
        all_where_of_views(rows.drop_last(), view, on_rows, on_views);
        assert(rows.map_values(view).drop_last() =~= rows.drop_last().map_values(view));
        assert(rows.map_values(view).last() == view(rows.last()));
        assert(rows.filter(on_rows).map_values(view) =~= rows.map_values(view).filter(on_views));
    } else {
        assert(rows.filter(on_rows).map_values(view) =~= rows.map_values(view).filter(on_views));
    }
}

/// Finding a row and then viewing it gives what finding among the views
/// gives, where the two conditions agree.
pub proof fn first_where_of_views<T, V>(
    rows: Seq<T>,
    view: spec_fn(T) -> V,
    on_rows: spec_fn(T) -> bool,
    on_views: spec_fn(V) -> bool,
)
    requires
        forall|t: T| #[trigger] on_rows(t) == on_views(view(t)),
    ensures
        first_where(rows.map_values(view), on_views) == match first_where(rows, on_rows) {
            Some(row) => Some(view(row)),
            None => None,
        },
    decreases rows.len(),
{
    if rows.len() > 0 {
        assert(rows.map_values(view).first() == view(rows.first()));
        assert(rows.map_values(view).drop_first() =~= rows.drop_first().map_values(view));
        first_where_of_views(rows.drop_first(), view, on_rows, on_views);
    }
}

/// The first row that passes `keep`.
pub(crate) fn find_first<T: Clone, F: Fn(&T) -> bool>(
    rows: &Vec<T>,
    keep: F,
    Ghost(wanted): Ghost<spec_fn(T) -> bool>,
) -> (found: Option<T>)
    requires
        forall|t: &T| call_requires(keep, (t,)),
        forall|t: &T, kept: bool| call_ensures(keep, (t,), kept) ==> kept == wanted(*t),
    ensures
        found is Some <==> first_where(rows@, wanted) is Some,
        found is Some ==> cloned(first_where(rows@, wanted).unwrap(), found.unwrap()),
{
    let mut i: usize = 0;
    while i < rows.len()
        invariant
            i <= rows.len(),
            forall|t: &T| call_requires(keep, (t,)),
            forall|t: &T, kept: bool| call_ensures(keep, (t,), kept) ==> kept == wanted(*t),
            forall|j: int| 0 <= j < i ==> !wanted(#[trigger] rows@[j]),
        decreases rows.len() - i,
    {
        if keep(&rows[i]) {
            proof {
                first_where_is(rows@, wanted, i as int);
            }
            return Some(rows[i].clone());
        }
        i += 1;
    }
    proof {
        first_where_is_none(rows@, wanted);
    }
    None
}

/// The rows that pass `keep`, in their order.
pub(crate) fn select<T: Clone, F: Fn(&T) -> bool>(
    rows: &Vec<T>,
    keep: F,
    Ghost(wanted): Ghost<spec_fn(T) -> bool>,
) -> (kept: Vec<T>)
    requires
        forall|t: &T| call_requires(keep, (t,)),
        forall|t: &T, kept: bool| call_ensures(keep, (t,), kept) ==> kept == wanted(*t),
    ensures
        kept@.len() == rows@.filter(wanted).len(),
        forall|k: int|
            0 <= k < kept@.len() ==> cloned(rows@.filter(wanted)[k], #[trigger] kept@[k]),
{
    let mut kept: Vec<T> = Vec::new();
    let mut i: usize = 0;
    proof {
        reveal(Seq::filter);
        assert(rows@.take(0) =~= Seq::<T>::empty());
    }
    while i < rows.len()
        invariant
            i <= rows.len(),
            forall|t: &T| call_requires(keep, (t,)),
            forall|t: &T, kept: bool| call_ensures(keep, (t,), kept) ==> kept == wanted(*t),
            kept@.len() == rows@.take(i as int).filter(wanted).len(),
            forall|k: int|
                0 <= k < kept@.len() ==> cloned(
                    rows@.take(i as int).filter(wanted)[k],
                    #[trigger] kept@[k],
                ),
        decreases rows.len() - i,
    {
        proof {
            reveal(Seq::filter);
            assert(rows@.take(i + 1).drop_last() =~= rows@.take(i as int));
            assert(rows@.take(i + 1).last() == rows@[i as int]);
        }
        if keep(&rows[i]) {
            kept.push(rows[i].clone());
        }
        i += 1;
    }
    proof {
        assert(rows@.take(i as int) =~= rows@);
    }
    kept
}

} // verus!
