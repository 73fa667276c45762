use calco::models::cached_sheet_value::CachedSheetValue;
use calco::models::category::Category;
use calco::models::expense::Expense;
use calco::models::income::Income;
use calco::models::inherited_sheet::{
    remove_all_from_inherited_sheet_id, remove_all_from_parent_sheet_id, InheritedSheet,
};
use calco::models::ledger::{Ledger, LedgerError};
use calco::models::sheet::Sheet;

#[test]
fn a_new_ledger_is_empty_and_well_formed() {
    let ledger = Ledger::new();
    assert!(ledger.is_well_formed());
    assert!(Sheet::get_all(&ledger).is_empty());
    assert_eq!(ledger.next_sheet_id, 1);
}

#[test]
fn new_sheet_is_unstored_and_empty() {
    let sheet = Sheet::new("March");
    assert_eq!(sheet.id, 0);
    assert_eq!(sheet.name, "March");
    assert_eq!(sheet.cached_value, 0);
}

#[test]
fn inserted_sheets_get_the_next_ids() {
    let mut ledger = Ledger::new();
    assert_eq!(Sheet::new("a").insert(&mut ledger), Ok(()));
    assert_eq!(Sheet::new("b").insert(&mut ledger), Ok(()));
    let all = Sheet::get_all(&ledger);
    assert_eq!(all.len(), 2);
    assert_eq!((all[0].id, all[0].name.as_str()), (1, "a"));
    assert_eq!((all[1].id, all[1].name.as_str()), (2, "b"));
    assert_eq!(Sheet::get_by_name(&ledger, "b").unwrap().id, 2);
    assert!(Sheet::get_by_name(&ledger, "c").is_none());
    assert!(Sheet::get_by_id(&ledger, 3).is_none());
}

#[test]
fn ids_are_not_handed_out_again() {
    let mut ledger = Ledger::new();
    Sheet::new("a").insert(&mut ledger).unwrap();
    Sheet::get_by_id(&ledger, 1).unwrap().remove(&mut ledger);
    Sheet::new("b").insert(&mut ledger).unwrap();
    assert_eq!(Sheet::get_by_name(&ledger, "b").unwrap().id, 2);
}

#[test]
fn a_full_table_refuses_a_row() {
    let mut ledger = Ledger::new();
    ledger.next_sheet_id = i32::MAX;
    ledger.next_expense_id = i32::MAX;
    ledger.next_income_id = i32::MAX;
    assert_eq!(Sheet::new("a").insert(&mut ledger), Err(LedgerError::IdsExhausted));
    assert_eq!(
        Expense::new("e", 1, 1, 0).insert(&mut ledger),
        Err(LedgerError::IdsExhausted)
    );
    assert_eq!(
        Income::new("i", 1, 1, 0).insert(&mut ledger),
        Err(LedgerError::IdsExhausted)
    );
    assert!(Sheet::get_all(&ledger).is_empty());
}

#[test]
fn update_stores_the_name_and_the_total() {
    let mut ledger = Ledger::new();
    Sheet::new("a").insert(&mut ledger).unwrap();
    Sheet::new("b").insert(&mut ledger).unwrap();
    let mut sheet = Sheet::get_by_id(&ledger, 2).unwrap();
    sheet.name = "week".to_string();
    sheet.cached_value = 9;
    sheet.update(&mut ledger);
    let stored = Sheet::get_by_id(&ledger, 2).unwrap();
    assert_eq!((stored.name.as_str(), stored.cached_value), ("week", 9));
    let other = Sheet::get_by_id(&ledger, 1).unwrap();
    assert_eq!((other.name.as_str(), other.cached_value), ("a", 0));
}

#[test]
fn removing_a_sheet_takes_its_records_and_edges_along() {
    let mut ledger = Ledger::new();
    for name in ["a", "b", "c"] {
        Sheet::new(name).insert(&mut ledger).unwrap();
    }
    Expense::new("rent", 5, 2, 0).insert(&mut ledger).unwrap();
    Expense::new("food", 6, 1, 0).insert(&mut ledger).unwrap();
    Income::new("pay", 7, 2, 0).insert(&mut ledger).unwrap();
    InheritedSheet::new(1, 2, 0).insert(&mut ledger);
    InheritedSheet::new(2, 3, 0).insert(&mut ledger);
    InheritedSheet::new(1, 3, 0).insert(&mut ledger);
    Sheet::get_by_id(&ledger, 2).unwrap().remove(&mut ledger);
    assert!(Sheet::get_by_id(&ledger, 2).is_none());
    assert_eq!(Sheet::get_all(&ledger).len(), 2);
    let expenses = Expense::get_all(&ledger);
    assert_eq!(expenses.len(), 1);
    assert_eq!(expenses[0].name, "food");
    assert!(Income::get_all(&ledger).is_empty());
    assert_eq!(InheritedSheet::get_all(&ledger), vec![InheritedSheet::new(1, 3, 0)]);
    assert!(ledger.is_well_formed());
}

#[test]
fn removing_a_sheet_leaves_the_total_of_its_parent() {
    let mut ledger = Ledger::new();
    Sheet::new("parent").insert(&mut ledger).unwrap();
    Sheet::new("child").insert(&mut ledger).unwrap();
    InheritedSheet::new(1, 2, 0).insert(&mut ledger);
    ledger.apply_delta(2, 20).unwrap();
    assert_eq!(Sheet::get_by_id(&ledger, 1).unwrap().cached_value, 20);
    Sheet::get_by_id(&ledger, 2).unwrap().remove(&mut ledger);
    assert_eq!(Sheet::get_by_id(&ledger, 1).unwrap().cached_value, 20);
    assert!(InheritedSheet::get_all(&ledger).is_empty());
}

#[test]
fn children_and_parents_follow_the_edges() {
    let mut ledger = Ledger::new();
    for name in ["a", "b", "c"] {
        Sheet::new(name).insert(&mut ledger).unwrap();
    }
    InheritedSheet::new(1, 3, 0).insert(&mut ledger);
    InheritedSheet::new(1, 2, 0).insert(&mut ledger);
    InheritedSheet::new(2, 3, 0).insert(&mut ledger);
    InheritedSheet::new(1, 7, 0).insert(&mut ledger);
    let children: Vec<i32> = Sheet::get_all_sheets_by_parent_sheet_id(&ledger, 1)
        .iter()
        .map(|sheet| sheet.id)
        .collect();
    assert_eq!(children, vec![3, 2]);
    let parents: Vec<i32> = Sheet::get_all_sheets_by_inherited_sheet_id(&ledger, 3)
        .iter()
        .map(|sheet| sheet.id)
        .collect();
    assert_eq!(parents, vec![1, 2]);
    assert!(Sheet::get_all_sheets_by_parent_sheet_id(&ledger, 3).is_empty());
}

#[test]
fn expenses_are_found_by_id_name_and_sheet() {
    let mut ledger = Ledger::new();
    Expense::new("rent", 800, 1, 10).insert(&mut ledger).unwrap();
    Expense::new("food", 60, 2, 11).insert(&mut ledger).unwrap();
    Expense::new("rent", 900, 2, 12).insert(&mut ledger).unwrap();
    let rent = Expense::get_by_name(&ledger, "rent").unwrap();
    assert_eq!((rent.id, rent.amount, rent.date, rent.sheet_id), (1, 800, 10, 1));
    assert_eq!(Expense::get_by_id(&ledger, 3).unwrap().amount, 900);
    assert!(Expense::get_by_id(&ledger, 4).is_none());
    let of_two: Vec<i32> = Expense::get_all_by_sheet_id(&ledger, 2)
        .iter()
        .map(|expense| expense.id)
        .collect();
    assert_eq!(of_two, vec![2, 3]);
    assert_eq!(Expense::get_all(&ledger).len(), 3);
}

#[test]
fn an_edited_expense_stays_with_its_sheet() {
    let mut ledger = Ledger::new();
    Expense::new("rent", 800, 1, 10).insert(&mut ledger).unwrap();
    let mut expense = Expense::get_by_id(&ledger, 1).unwrap();
    expense.name = "flat".to_string();
    expense.amount = 850;
    expense.date = 20;
    expense.sheet_id = 5;
    expense.update(&mut ledger);
    let stored = Expense::get_by_id(&ledger, 1).unwrap();
    assert_eq!(
        (stored.name.as_str(), stored.amount, stored.date, stored.sheet_id),
        ("flat", 850, 20, 1)
    );
    stored.remove(&mut ledger);
    assert!(Expense::get_all(&ledger).is_empty());
}

#[test]
fn incomes_are_stored_edited_and_removed() {
    let mut ledger = Ledger::new();
    Income::new("salary", 2000, 1, 10).insert(&mut ledger).unwrap();
    Income::new("gift", 50, 1, 11).insert(&mut ledger).unwrap();
    assert_eq!(Income::get_by_name(&ledger, "gift").unwrap().id, 2);
    assert_eq!(Income::get_all_by_sheet_id(&ledger, 1).len(), 2);
    assert!(Income::get_all_by_sheet_id(&ledger, 2).is_empty());
    let mut income = Income::get_by_id(&ledger, 1).unwrap();
    income.amount = 2100;
    income.update(&mut ledger);
    assert_eq!(Income::get_by_id(&ledger, 1).unwrap().amount, 2100);
    income.remove(&mut ledger);
    assert_eq!(Income::get_all(&ledger).len(), 1);
}

#[test]
fn edges_are_listed_found_and_removed() {
    let mut ledger = Ledger::new();
    InheritedSheet::new(1, 2, 5).insert(&mut ledger);
    InheritedSheet::new(1, 3, 6).insert(&mut ledger);
    InheritedSheet::new(2, 3, 7).insert(&mut ledger);
    InheritedSheet::new(1, 2, 8).insert(&mut ledger);
    assert_eq!(InheritedSheet::get_all_by_sheet_id(&ledger, 1).len(), 3);
    assert_eq!(
        InheritedSheet::get_by_parent_and_inherited_id(&ledger, 1, 2),
        Some(InheritedSheet::new(1, 2, 5))
    );
    assert_eq!(InheritedSheet::get_by_parent_and_inherited_id(&ledger, 3, 1), None);
    InheritedSheet::new(1, 2, 0).remove(&mut ledger);
    assert_eq!(
        InheritedSheet::get_all(&ledger),
        vec![InheritedSheet::new(1, 3, 6), InheritedSheet::new(2, 3, 7)]
    );
    remove_all_from_parent_sheet_id(&mut ledger, 1);
    assert_eq!(InheritedSheet::get_all(&ledger), vec![InheritedSheet::new(2, 3, 7)]);
    remove_all_from_inherited_sheet_id(&mut ledger, 3);
    assert!(InheritedSheet::get_all(&ledger).is_empty());
}

#[test]
fn a_table_with_a_repeated_id_is_not_well_formed() {
    let mut ledger = Ledger::new();
    Sheet::new("a").insert(&mut ledger).unwrap();
    Sheet::new("b").insert(&mut ledger).unwrap();
    assert!(ledger.is_well_formed());
    ledger.sheets[1].id = 1;
    assert!(!ledger.is_well_formed());
    ledger.sheets[1].id = 2;
    ledger.next_sheet_id = 2;
    assert!(!ledger.is_well_formed());
}

#[test]
fn new_category_and_cached_sheet_value_hold_their_fields() {
    let category = Category::new("food", 4);
    assert_eq!((category.id, category.name.as_str(), category.sheet_id), (0, "food", 4));
    let cached = CachedSheetValue::new(3, -12);
    assert_eq!((cached.sheet_id, cached.value), (3, -12));
}
