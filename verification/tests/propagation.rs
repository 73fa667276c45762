use calco::models::inherited_sheet::InheritedSheet;
use calco::models::ledger::{Ledger, LedgerError};
use calco::models::sheet::{parent_ids, sheet_position, Sheet};

/// A ledger with sheets named after `names`; their ids are 1, 2, 3, ...
fn ledger_with(names: &[&str]) -> Ledger {
    let mut ledger = Ledger::new();
    for name in names {
        assert_eq!(Sheet::new(name).insert(&mut ledger), Ok(()));
    }
    ledger
}

fn link(ledger: &mut Ledger, parent: i32, inherited: i32) {
    InheritedSheet::new(parent, inherited, 0).insert(ledger);
}

fn total(ledger: &Ledger, id: i32) -> i32 {
    Sheet::get_by_id(ledger, id).unwrap().cached_value
}

#[test]
fn delta_on_a_lone_sheet_changes_only_that_sheet() {
    let mut ledger = ledger_with(&["a", "b"]);
    assert_eq!(ledger.apply_delta(1, 25), Ok(()));
    assert_eq!(total(&ledger, 1), 25);
    assert_eq!(total(&ledger, 2), 0);
    assert_eq!(ledger.apply_delta(1, -40), Ok(()));
    assert_eq!(total(&ledger, 1), -15);
}

#[test]
fn delta_on_a_missing_sheet_does_nothing() {
    let mut ledger = ledger_with(&["a"]);
    link(&mut ledger, 1, 9);
    assert_eq!(ledger.apply_delta(9, 5), Ok(()));
    assert_eq!(total(&ledger, 1), 0);
}

#[test]
fn delta_climbs_a_chain() {
    // 3 is inherited into 2, 2 into 1.
    let mut ledger = ledger_with(&["a", "b", "c"]);
    link(&mut ledger, 2, 3);
    link(&mut ledger, 1, 2);
    assert_eq!(ledger.apply_delta(3, 7), Ok(()));
    assert_eq!(total(&ledger, 3), 7);
    assert_eq!(total(&ledger, 2), 7);
    assert_eq!(total(&ledger, 1), 7);
}

#[test]
fn delta_in_the_middle_of_a_chain_leaves_the_bottom() {
    let mut ledger = ledger_with(&["a", "b", "c"]);
    link(&mut ledger, 2, 3);
    link(&mut ledger, 1, 2);
    assert_eq!(ledger.apply_delta(2, -4), Ok(()));
    assert_eq!(total(&ledger, 3), 0);
    assert_eq!(total(&ledger, 2), -4);
    assert_eq!(total(&ledger, 1), -4);
}

#[test]
fn delta_reaches_the_top_of_a_diamond_twice() {
    // 4 is inherited into 2 and 3, each of which is inherited into 1.
    let mut ledger = ledger_with(&["a", "b", "c", "d"]);
    link(&mut ledger, 1, 2);
    link(&mut ledger, 1, 3);
    link(&mut ledger, 2, 4);
    link(&mut ledger, 3, 4);
    assert_eq!(ledger.apply_delta(4, 10), Ok(()));
    assert_eq!(total(&ledger, 4), 10);
    assert_eq!(total(&ledger, 2), 10);
    assert_eq!(total(&ledger, 3), 10);
    assert_eq!(total(&ledger, 1), 20);
}

#[test]
fn an_edge_stored_twice_counts_twice() {
    let mut ledger = ledger_with(&["a", "b"]);
    link(&mut ledger, 1, 2);
    link(&mut ledger, 1, 2);
    assert_eq!(ledger.apply_delta(2, 3), Ok(()));
    assert_eq!(total(&ledger, 1), 6);
}

#[test]
fn two_stacked_diamonds_count_four_chains() {
    // 7 -> {5, 6} -> 4 -> {2, 3} -> 1
    let mut ledger = ledger_with(&["1", "2", "3", "4", "5", "6", "7"]);
    link(&mut ledger, 1, 2);
    link(&mut ledger, 1, 3);
    link(&mut ledger, 2, 4);
    link(&mut ledger, 3, 4);
    link(&mut ledger, 4, 5);
    link(&mut ledger, 4, 6);
    link(&mut ledger, 5, 7);
    link(&mut ledger, 6, 7);
    assert_eq!(ledger.apply_delta(7, 1), Ok(()));
    assert_eq!(total(&ledger, 7), 1);
    assert_eq!(total(&ledger, 5), 1);
    assert_eq!(total(&ledger, 4), 2);
    assert_eq!(total(&ledger, 2), 2);
    assert_eq!(total(&ledger, 1), 4);
}

#[test]
fn update_inheriting_sheets_leaves_the_first_sheet() {
    let mut ledger = ledger_with(&["a", "b"]);
    link(&mut ledger, 1, 2);
    assert_eq!(Sheet::update_inheriting_sheets(&mut ledger, 2, 11), Ok(()));
    assert_eq!(total(&ledger, 2), 0);
    assert_eq!(total(&ledger, 1), 11);
}

#[test]
fn an_edge_from_a_missing_parent_is_passed_over() {
    let mut ledger = ledger_with(&["a", "b"]);
    link(&mut ledger, 8, 2);
    link(&mut ledger, 1, 2);
    assert_eq!(parent_ids(&ledger, 2), vec![1]);
    assert_eq!(ledger.apply_delta(2, 5), Ok(()));
    assert_eq!(total(&ledger, 1), 5);
}

#[test]
fn a_cycle_is_refused_and_nothing_changes() {
    let mut ledger = ledger_with(&["a", "b"]);
    link(&mut ledger, 1, 2);
    link(&mut ledger, 2, 1);
    assert_eq!(ledger.apply_delta(1, 5), Err(LedgerError::CyclicInheritance));
    assert_eq!(total(&ledger, 1), 0);
    assert_eq!(total(&ledger, 2), 0);
}

#[test]
fn a_sheet_inherited_into_itself_is_refused() {
    let mut ledger = ledger_with(&["a"]);
    link(&mut ledger, 1, 1);
    assert_eq!(
        Sheet::update_inheriting_sheets(&mut ledger, 1, 0),
        Err(LedgerError::CyclicInheritance)
    );
}

#[test]
fn a_chain_as_long_as_the_table_is_followed() {
    let mut ledger = ledger_with(&["1", "2", "3", "4", "5"]);
    for child in 2..=5 {
        link(&mut ledger, child - 1, child);
    }
    // Sheet 6 is not stored, so the chain from it visits all five sheets.
    link(&mut ledger, 5, 6);
    assert_eq!(Sheet::update_inheriting_sheets(&mut ledger, 6, 2), Ok(()));
    for id in 1..=5 {
        assert_eq!(total(&ledger, id), 2);
    }
}

#[test]
fn an_overflow_above_is_refused_and_nothing_changes() {
    let mut ledger = ledger_with(&["a", "b", "c"]);
    link(&mut ledger, 2, 3);
    link(&mut ledger, 1, 2);
    assert_eq!(ledger.apply_delta(1, i32::MAX), Ok(()));
    assert_eq!(ledger.apply_delta(3, 1), Err(LedgerError::Overflow));
    assert_eq!(total(&ledger, 3), 0);
    assert_eq!(total(&ledger, 2), 0);
    assert_eq!(total(&ledger, 1), i32::MAX);
}

#[test]
fn an_overflow_of_the_sheet_itself_is_refused() {
    let mut ledger = ledger_with(&["a"]);
    assert_eq!(ledger.apply_delta(1, i32::MIN), Ok(()));
    assert_eq!(ledger.apply_delta(1, -1), Err(LedgerError::Overflow));
    assert_eq!(total(&ledger, 1), i32::MIN);
}

#[test]
fn add_to_cached_value_changes_the_copy_and_the_ledger() {
    let mut ledger = ledger_with(&["a", "b"]);
    link(&mut ledger, 1, 2);
    let mut sheet = Sheet::get_by_id(&ledger, 2).unwrap();
    assert_eq!(sheet.add_to_cached_value(&mut ledger, 30), Ok(()));
    assert_eq!(sheet.cached_value, 30);
    assert_eq!(total(&ledger, 2), 30);
    assert_eq!(total(&ledger, 1), 30);
    assert_eq!(sheet.remove_from_cached_value(&mut ledger, 12), Ok(()));
    assert_eq!(sheet.cached_value, 18);
    assert_eq!(total(&ledger, 2), 18);
    assert_eq!(total(&ledger, 1), 18);
}

#[test]
fn remove_from_cached_value_refuses_the_lowest_number() {
    let mut ledger = ledger_with(&["a"]);
    let mut sheet = Sheet::get_by_id(&ledger, 1).unwrap();
    assert_eq!(
        sheet.remove_from_cached_value(&mut ledger, i32::MIN),
        Err(LedgerError::Overflow)
    );
    assert_eq!(sheet.cached_value, 0);
    assert_eq!(total(&ledger, 1), 0);
}

#[test]
fn settle_refuses_a_change_no_sheet_can_take() {
    let mut ledger = ledger_with(&["a"]);
    assert_eq!(ledger.settle(1, i32::MAX as i64 + 1), Err(LedgerError::Overflow));
    assert_eq!(ledger.settle(7, i32::MAX as i64 + 1), Ok(()));
    assert_eq!(ledger.settle(1, -3), Ok(()));
    assert_eq!(total(&ledger, 1), -3);
}

#[test]
fn sheet_position_finds_stored_sheets_only() {
    let ledger = ledger_with(&["a", "b"]);
    assert_eq!(sheet_position(&ledger, 2), Some(1));
    assert_eq!(sheet_position(&ledger, 3), None);
}

#[test]
fn settle_takes_a_change_wider_than_a_total() {
    let mut ledger = ledger_with(&["a", "b"]);
    link(&mut ledger, 2, 1);
    assert_eq!(ledger.apply_delta(1, i32::MIN), Ok(()));
    assert_eq!(ledger.settle(1, u32::MAX as i64), Ok(()));
    assert_eq!((total(&ledger, 1), total(&ledger, 2)), (i32::MAX, i32::MAX));
    assert_eq!(ledger.settle(1, -(u32::MAX as i64) - 1), Err(LedgerError::Overflow));
    assert_eq!(ledger.settle(1, i64::MAX), Err(LedgerError::Overflow));
    assert_eq!(ledger.settle(1, i64::MIN), Err(LedgerError::Overflow));
    assert_eq!((total(&ledger, 1), total(&ledger, 2)), (i32::MAX, i32::MAX));
}
