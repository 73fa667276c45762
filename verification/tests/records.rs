use calco::api::expense::{
    create_expense, create_expense_dated, delete_expense_by_id, update_expense_by_id,
    update_expense_by_id_dated, CreateExpenseBody, DeleteExpenseByIdBody, UpdateExpenseByIdBody,
};
use calco::api::income::{
    create_income, create_income_dated, delete_income_by_id, update_income_by_id,
    update_income_by_id_dated, CreateIncomeBody, DeleteincomeByIdBody, UpdateincomeByIdBody,
};
use calco::api::inherited_sheet::{
    create_inherited_sheet, create_inherited_sheet_dated, delete_inherited_sheet_by_id,
    CreateInheritedSheetBody, DeleteInheritedSheetByIdBody,
};
use calco::api::reply::{Location, Reply, Status};
use calco::api::sheet::{
    create_sheet, delete_sheet_by_id, rename_sheet_by_id, CreateSheetBody, DeleteSheetByIdBody,
};
use calco::models::expense::Expense;
use calco::models::income::Income;
use calco::models::inherited_sheet::InheritedSheet;
use calco::models::ledger::Ledger;
use calco::models::sheet::Sheet;
use calco::models::user::{set_user_token_until, User, UserRole};

const GUEST: Option<&str> = Some("guest-token");

/// A ledger with one guest account that is signed in with `GUEST`.
fn ledger_with_guest() -> Ledger {
    let mut ledger = Ledger::new();
    User::new("bob".to_string(), "x".to_string(), UserRole::Guest)
        .insert(&mut ledger)
        .unwrap();
    set_user_token_until(&mut ledger, "bob", "guest-token", 0);
    ledger
}

fn new_sheet(ledger: &mut Ledger, name: &str) {
    let reply = create_sheet(ledger, GUEST, &CreateSheetBody { name: name.to_string() });
    assert_eq!(reply.status, Status::Found);
}

fn expense(name: &str, amount: i32, date: &str, sheet_id: i32) -> CreateExpenseBody {
    CreateExpenseBody { name: name.to_string(), amount, date: date.to_string(), sheet_id }
}

fn income(name: &str, amount: i32, date: &str, sheet_id: i32) -> CreateIncomeBody {
    CreateIncomeBody { name: name.to_string(), amount, date: date.to_string(), sheet_id }
}

fn inherit(ledger: &mut Ledger, parent: i32, inherited: i32) -> Reply {
    create_inherited_sheet(
        ledger,
        GUEST,
        &CreateInheritedSheetBody {
            date: "2024-03-31".to_string(),
            sheet_id: parent,
            inherited_sheet_id: inherited,
        },
    )
}

fn total(ledger: &Ledger, id: i32) -> i32 {
    Sheet::get_by_id(ledger, id).unwrap().cached_value
}

fn is_redirect(reply: &Reply, location: Location, body: &str) -> bool {
    reply.status == Status::Found
        && reply.location == Some(location)
        && reply.body == body
        && reply.token.is_none()
}

fn is_failure(reply: &Reply, body: &str) -> bool {
    reply.status == Status::InternalServerError
        && reply.location.is_none()
        && reply.body == body
        && reply.token.is_none()
}

fn is_refusal(reply: &Reply, body: &str) -> bool {
    reply.status == Status::Unauthorized
        && reply.location.is_none()
        && reply.body == body
        && reply.token.is_none()
}

fn is_no_access(reply: &Reply) -> bool {
    reply.status == Status::NotFound
        && reply.location.is_none()
        && reply.body == "HTTP 404: Not found"
}

#[test]
fn march_and_q1() {
    let mut ledger = ledger_with_guest();
    new_sheet(&mut ledger, "March");
    let march = Sheet::get_by_name(&ledger, "March").unwrap();
    assert_eq!(march.cached_value, 0);

    let reply = create_income(&mut ledger, GUEST, &income("salary", 2000, "2024-03-01", march.id));
    assert!(is_redirect(&reply, Location::Sheet(march.id), "created"));
    assert_eq!(total(&ledger, march.id), 2000);
    assert_eq!(Income::get_by_name(&ledger, "salary").unwrap().date, 1709251200);

    let reply = create_expense(&mut ledger, GUEST, &expense("rent", 800, "2024-03-02", march.id));
    assert!(is_redirect(&reply, Location::Sheet(march.id), "created"));
    assert_eq!(total(&ledger, march.id), 1200);

    new_sheet(&mut ledger, "Q1");
    let q1 = Sheet::get_by_name(&ledger, "Q1").unwrap();
    let reply = inherit(&mut ledger, q1.id, march.id);
    assert!(is_redirect(&reply, Location::Sheet(q1.id), "created"));
    assert_eq!(total(&ledger, q1.id), 1200);

    let rent = Expense::get_by_name(&ledger, "rent").unwrap();
    let reply = delete_expense_by_id(
        &mut ledger,
        GUEST,
        &DeleteExpenseByIdBody { id: rent.id, sheet_id: march.id },
    );
    assert!(is_redirect(&reply, Location::Sheet(march.id), "created"));
    assert_eq!(total(&ledger, march.id), 2000);
    assert_eq!(total(&ledger, q1.id), 2000);
}

#[test]
fn expense_round_trip() {
    let mut ledger = ledger_with_guest();
    new_sheet(&mut ledger, "S");
    assert_eq!(total(&ledger, 1), 0);
    create_expense(&mut ledger, GUEST, &expense("bike", 100, "2024-01-05", 1));
    assert_eq!(total(&ledger, 1), -100);
    let reply = update_expense_by_id(
        &mut ledger,
        GUEST,
        &UpdateExpenseByIdBody {
            name: "bike".to_string(),
            amount: 30,
            date: "2024-01-05".to_string(),
            id: 1,
        },
    );
    assert!(is_redirect(&reply, Location::Sheet(1), "update"));
    assert_eq!(total(&ledger, 1), -30);
    delete_expense_by_id(&mut ledger, GUEST, &DeleteExpenseByIdBody { id: 1, sheet_id: 1 });
    assert_eq!(total(&ledger, 1), 0);
    assert!(Expense::get_all(&ledger).is_empty());
}

#[test]
fn income_round_trip() {
    let mut ledger = ledger_with_guest();
    new_sheet(&mut ledger, "S");
    create_income(&mut ledger, GUEST, &income("pay", 100, "2024-01-05", 1));
    assert_eq!(total(&ledger, 1), 100);
    let reply = update_income_by_id(
        &mut ledger,
        GUEST,
        &UpdateincomeByIdBody {
            name: "wage".to_string(),
            amount: 130,
            date: "2024-01-06".to_string(),
            id: 1,
        },
    );
    assert!(is_redirect(&reply, Location::Sheet(1), "update"));
    assert_eq!(total(&ledger, 1), 130);
    let stored = Income::get_by_id(&ledger, 1).unwrap();
    assert_eq!(stored.name, "wage");
    assert_eq!(stored.date, 1704499200);
    let reply =
        delete_income_by_id(&mut ledger, GUEST, &DeleteincomeByIdBody { id: 1, sheet_id: 9 });
    assert!(is_redirect(&reply, Location::Sheet(9), "created"));
    assert_eq!(total(&ledger, 1), 0);
}

#[test]
fn total_follows_a_run_of_requests() {
    let mut ledger = ledger_with_guest();
    new_sheet(&mut ledger, "S");
    new_sheet(&mut ledger, "T");
    create_income(&mut ledger, GUEST, &income("a", 500, "2024-01-01", 1));
    create_expense(&mut ledger, GUEST, &expense("b", 120, "2024-01-02", 1));
    create_expense(&mut ledger, GUEST, &expense("c", 70, "2024-01-03", 2));
    create_income(&mut ledger, GUEST, &income("d", 40, "2024-01-04", 1));
    update_expense_by_id(
        &mut ledger,
        GUEST,
        &UpdateExpenseByIdBody {
            name: "b".to_string(),
            amount: 200,
            date: "2024-01-02".to_string(),
            id: 1,
        },
    );
    delete_income_by_id(&mut ledger, GUEST, &DeleteincomeByIdBody { id: 2, sheet_id: 1 });
    let incomes: i32 = Income::get_all_by_sheet_id(&ledger, 1).iter().map(|row| row.amount).sum();
    let expenses: i32 =
        Expense::get_all_by_sheet_id(&ledger, 1).iter().map(|row| row.amount).sum();
    assert_eq!((incomes, expenses), (500, 200));
    assert_eq!(total(&ledger, 1), 300);
    assert_eq!(total(&ledger, 2), -70);
}

#[test]
fn a_request_without_access_changes_nothing() {
    let mut ledger = ledger_with_guest();
    new_sheet(&mut ledger, "S");
    for token in [None, Some("someone-else")] {
        assert!(is_no_access(&create_expense(
            &mut ledger,
            token,
            &expense("x", 1, "2024-01-01", 1)
        )));
        assert!(is_no_access(&create_income(&mut ledger, token, &income("x", 1, "2024-01-01", 1))));
        assert!(is_no_access(&create_sheet(
            &mut ledger,
            token,
            &CreateSheetBody { name: "T".to_string() }
        )));
        assert!(is_no_access(&delete_sheet_by_id(
            &mut ledger,
            token,
            &DeleteSheetByIdBody { id: 1 }
        )));
        assert!(is_no_access(&create_inherited_sheet(
            &mut ledger,
            token,
            &CreateInheritedSheetBody {
                date: "2024-01-01".to_string(),
                sheet_id: 1,
                inherited_sheet_id: 1
            }
        )));
    }
    assert_eq!(Sheet::get_all(&ledger).len(), 1);
    assert!(Expense::get_all(&ledger).is_empty());
    assert!(Income::get_all(&ledger).is_empty());
    assert!(InheritedSheet::get_all(&ledger).is_empty());
}

#[test]
fn a_bad_date_is_refused_before_anything_is_stored() {
    let mut ledger = ledger_with_guest();
    new_sheet(&mut ledger, "S");
    for date in ["01/02/2024", "2024-02-30", ""] {
        let reply = create_expense(&mut ledger, GUEST, &expense("x", 5, date, 1));
        assert!(is_refusal(&reply, "expense date is not a date"));
        assert_eq!(reply.status.code(), 401);
        let reply = create_income(&mut ledger, GUEST, &income("x", 5, date, 1));
        assert!(is_refusal(&reply, "income date is not a date"));
        let reply = create_inherited_sheet(
            &mut ledger,
            GUEST,
            &CreateInheritedSheetBody { date: date.to_string(), sheet_id: 1, inherited_sheet_id: 1 },
        );
        assert!(is_refusal(&reply, "inherited_sheet date is not a date"));
    }
    assert!(Expense::get_all(&ledger).is_empty());
    assert!(Income::get_all(&ledger).is_empty());
    assert!(InheritedSheet::get_all(&ledger).is_empty());
    assert_eq!(total(&ledger, 1), 0);
}

#[test]
fn an_edit_with_a_bad_date_is_refused_and_changes_nothing() {
    let mut ledger = ledger_with_guest();
    new_sheet(&mut ledger, "S");
    create_expense(&mut ledger, GUEST, &expense("rent", 800, "2024-03-02", 1));
    create_income(&mut ledger, GUEST, &income("pay", 2000, "2024-03-01", 1));
    assert_eq!(total(&ledger, 1), 1200);
    for date in ["not a date", "", "2024-3-32"] {
        let reply = update_expense_by_id(
            &mut ledger,
            GUEST,
            &UpdateExpenseByIdBody {
                name: "flat".to_string(),
                amount: 1,
                date: date.to_string(),
                id: 1,
            },
        );
        assert!(is_refusal(&reply, "expense date is not a date"));
        let reply = update_income_by_id(
            &mut ledger,
            GUEST,
            &UpdateincomeByIdBody {
                name: "wage".to_string(),
                amount: 1,
                date: date.to_string(),
                id: 1,
            },
        );
        assert!(is_refusal(&reply, "income date is not a date"));
    }
    let rent = Expense::get_by_id(&ledger, 1).unwrap();
    assert_eq!((rent.name.as_str(), rent.amount, rent.date), ("rent", 800, 1709337600));
    let pay = Income::get_by_id(&ledger, 1).unwrap();
    assert_eq!((pay.name.as_str(), pay.amount, pay.date), ("pay", 2000, 1709251200));
    assert_eq!(total(&ledger, 1), 1200);
    // The date is looked at before the record is looked up.
    let reply = update_expense_by_id(
        &mut ledger,
        GUEST,
        &UpdateExpenseByIdBody { name: "x".to_string(), amount: 1, date: String::new(), id: 9 },
    );
    assert!(is_refusal(&reply, "expense date is not a date"));
    // Without access the date is not looked at.
    let reply = update_expense_by_id(
        &mut ledger,
        None,
        &UpdateExpenseByIdBody { name: "x".to_string(), amount: 1, date: String::new(), id: 1 },
    );
    assert!(is_no_access(&reply));
}

#[test]
fn a_record_of_a_missing_sheet_is_stored_and_settles_nothing() {
    let mut ledger = ledger_with_guest();
    let reply = create_expense(&mut ledger, GUEST, &expense("x", 5, "2024-01-01", 4));
    assert!(is_redirect(&reply, Location::Sheet(4), "created"));
    assert_eq!(Expense::get_by_id(&ledger, 1).unwrap().sheet_id, 4);
}

#[test]
fn editing_or_deleting_a_missing_record_does_nothing() {
    let mut ledger = ledger_with_guest();
    new_sheet(&mut ledger, "S");
    let reply = update_expense_by_id(
        &mut ledger,
        GUEST,
        &UpdateExpenseByIdBody {
            name: "x".to_string(),
            amount: 3,
            date: "2024-01-01".to_string(),
            id: 12,
        },
    );
    assert!(is_redirect(&reply, Location::Expense(12), "update"));
    let reply = update_income_by_id(
        &mut ledger,
        GUEST,
        &UpdateincomeByIdBody {
            name: "x".to_string(),
            amount: 3,
            date: "2024-01-01".to_string(),
            id: 12,
        },
    );
    assert!(is_redirect(&reply, Location::Income(12), "update"));
    let reply =
        delete_expense_by_id(&mut ledger, GUEST, &DeleteExpenseByIdBody { id: 12, sheet_id: 1 });
    assert!(is_redirect(&reply, Location::Sheet(1), "created"));
    assert_eq!(total(&ledger, 1), 0);
}

#[test]
fn a_record_that_cannot_be_settled_stays_stored() {
    let mut ledger = ledger_with_guest();
    new_sheet(&mut ledger, "S");
    create_income(&mut ledger, GUEST, &income("a", i32::MAX, "2024-01-01", 1));
    let reply = create_income(&mut ledger, GUEST, &income("b", 1, "2024-01-01", 1));
    assert!(is_failure(
        &reply,
        "Internal server error: error when updating parent sheet in database"
    ));
    assert_eq!(Income::get_all(&ledger).len(), 2);
    assert_eq!(total(&ledger, 1), i32::MAX);
    let reply = create_expense(&mut ledger, GUEST, &expense("c", i32::MIN, "2024-01-01", 1));
    assert!(is_failure(
        &reply,
        "Internal server error: error when updating parent sheet in database"
    ));
    assert_eq!(Expense::get_all(&ledger).len(), 1);
}

#[test]
fn a_link_hands_over_the_current_total() {
    let mut ledger = ledger_with_guest();
    for name in ["X", "Y", "Z"] {
        new_sheet(&mut ledger, name);
    }
    // Z inherits Y already; X holds 50.
    inherit(&mut ledger, 3, 2);
    create_income(&mut ledger, GUEST, &income("a", 50, "2024-01-01", 1));
    create_income(&mut ledger, GUEST, &income("b", 4, "2024-01-01", 2));
    assert_eq!((total(&ledger, 1), total(&ledger, 2), total(&ledger, 3)), (50, 4, 4));
    let reply = inherit(&mut ledger, 2, 1);
    assert!(is_redirect(&reply, Location::Sheet(2), "created"));
    assert_eq!((total(&ledger, 1), total(&ledger, 2), total(&ledger, 3)), (50, 54, 54));
    assert_eq!(
        InheritedSheet::get_by_parent_and_inherited_id(&ledger, 2, 1).unwrap().date,
        1711843200
    );
}

#[test]
fn unlinking_takes_the_current_total_back() {
    let mut ledger = ledger_with_guest();
    for name in ["X", "Y", "Z"] {
        new_sheet(&mut ledger, name);
    }
    inherit(&mut ledger, 3, 2);
    inherit(&mut ledger, 2, 1);
    create_income(&mut ledger, GUEST, &income("a", 50, "2024-01-01", 1));
    assert_eq!((total(&ledger, 2), total(&ledger, 3)), (50, 50));
    let reply = delete_inherited_sheet_by_id(
        &mut ledger,
        GUEST,
        &DeleteInheritedSheetByIdBody { sheet_id: 2, inherited_sheet_id: 1 },
    );
    assert!(is_redirect(&reply, Location::Sheet(2), "created"));
    assert_eq!((total(&ledger, 1), total(&ledger, 2), total(&ledger, 3)), (50, 0, 0));
    assert!(InheritedSheet::get_by_parent_and_inherited_id(&ledger, 2, 1).is_none());
    // Nothing links the two sheets any more, so nothing happens.
    let reply = delete_inherited_sheet_by_id(
        &mut ledger,
        GUEST,
        &DeleteInheritedSheetByIdBody { sheet_id: 2, inherited_sheet_id: 1 },
    );
    assert!(is_redirect(&reply, Location::Sheet(2), "created"));
    assert_eq!(total(&ledger, 2), 0);
}

#[test]
fn a_link_that_closes_a_cycle_stays_stored_and_settles_nothing() {
    let mut ledger = ledger_with_guest();
    new_sheet(&mut ledger, "X");
    new_sheet(&mut ledger, "Y");
    create_income(&mut ledger, GUEST, &income("a", 5, "2024-01-01", 1));
    inherit(&mut ledger, 2, 1);
    let reply = inherit(&mut ledger, 1, 2);
    assert!(is_failure(
        &reply,
        "Internal server error: error when updating parent sheet cached value in database"
    ));
    assert_eq!(InheritedSheet::get_all(&ledger).len(), 2);
    assert_eq!((total(&ledger, 1), total(&ledger, 2)), (5, 5));
}

#[test]
fn a_link_to_a_missing_sheet_is_stored_and_settles_nothing() {
    let mut ledger = ledger_with_guest();
    new_sheet(&mut ledger, "X");
    let reply = inherit(&mut ledger, 1, 8);
    assert!(is_redirect(&reply, Location::Sheet(1), "created"));
    assert_eq!(InheritedSheet::get_all(&ledger).len(), 1);
    assert_eq!(total(&ledger, 1), 0);
}

#[test]
fn deleting_a_sheet_leaves_the_total_of_its_parent() {
    let mut ledger = ledger_with_guest();
    new_sheet(&mut ledger, "P");
    new_sheet(&mut ledger, "S");
    inherit(&mut ledger, 1, 2);
    create_income(&mut ledger, GUEST, &income("a", 20, "2024-01-01", 2));
    assert_eq!((total(&ledger, 1), total(&ledger, 2)), (20, 20));
    let reply = delete_sheet_by_id(&mut ledger, GUEST, &DeleteSheetByIdBody { id: 2 });
    assert!(is_redirect(&reply, Location::Sheets, "created"));
    assert!(Sheet::get_by_id(&ledger, 2).is_none());
    assert!(InheritedSheet::get_all(&ledger).is_empty());
    assert!(Income::get_all(&ledger).is_empty());
    assert_eq!(total(&ledger, 1), 20);
}

#[test]
fn deleting_a_missing_sheet_keeps_dangling_rows() {
    let mut ledger = ledger_with_guest();
    create_expense(&mut ledger, GUEST, &expense("x", 5, "2024-01-01", 4));
    let reply = delete_sheet_by_id(&mut ledger, GUEST, &DeleteSheetByIdBody { id: 4 });
    assert!(is_redirect(&reply, Location::Sheets, "created"));
    assert_eq!(Expense::get_all(&ledger).len(), 1);
}

#[test]
fn a_sheet_needs_a_name() {
    let mut ledger = ledger_with_guest();
    let reply = create_sheet(&mut ledger, GUEST, &CreateSheetBody { name: String::new() });
    assert_eq!(reply.status, Status::Unauthorized);
    assert_eq!(reply.body, "sheet name is required");
    assert!(Sheet::get_all(&ledger).is_empty());
    let reply = rename_sheet_by_id(&mut ledger, GUEST, &CreateSheetBody { name: String::new() });
    assert_eq!(reply.status, Status::Unauthorized);
    assert_eq!(reply.body, "sheet name is required");
}

#[test]
fn renaming_stores_the_sheet_back_as_it_was() {
    let mut ledger = ledger_with_guest();
    new_sheet(&mut ledger, "March");
    create_income(&mut ledger, GUEST, &income("a", 20, "2024-01-01", 1));
    for name in ["March", "April"] {
        let reply =
            rename_sheet_by_id(&mut ledger, GUEST, &CreateSheetBody { name: name.to_string() });
        assert!(is_redirect(&reply, Location::Sheets, "renamed"));
    }
    let sheet = Sheet::get_by_id(&ledger, 1).unwrap();
    assert_eq!((sheet.name.as_str(), sheet.cached_value), ("March", 20));
}

#[test]
fn status_codes() {
    assert_eq!(Status::Found.code(), 302);
    assert_eq!(Status::Unauthorized.code(), 401);
    assert_eq!(Status::NotFound.code(), 404);
    assert_eq!(Status::InternalServerError.code(), 500);
}

#[test]
fn the_dated_operations_take_the_date_as_it_was_read() {
    let mut ledger = ledger_with_guest();
    new_sheet(&mut ledger, "S");
    new_sheet(&mut ledger, "T");
    // The text of the form plays no part.
    let reply = create_expense_dated(&mut ledger, GUEST, &expense("a", 5, "junk", 1), Some(77));
    assert!(is_redirect(&reply, Location::Sheet(1), "created"));
    assert_eq!(Expense::get_by_id(&ledger, 1).unwrap().date, 77);
    let reply = create_expense_dated(&mut ledger, GUEST, &expense("a", 5, "2024-01-01", 1), None);
    assert!(is_refusal(&reply, "expense date is not a date"));
    assert_eq!(Expense::get_all(&ledger).len(), 1);
    let reply = create_income_dated(&mut ledger, GUEST, &income("b", 9, "junk", 1), Some(-3));
    assert!(is_redirect(&reply, Location::Sheet(1), "created"));
    assert_eq!(Income::get_by_id(&ledger, 1).unwrap().date, -3);
    assert_eq!(total(&ledger, 1), 4);

    let edit = UpdateExpenseByIdBody { name: "c".to_string(), amount: 6, date: String::new(), id: 1 };
    let reply = update_expense_by_id_dated(&mut ledger, GUEST, &edit, None);
    assert!(is_refusal(&reply, "expense date is not a date"));
    let stored = Expense::get_by_id(&ledger, 1).unwrap();
    assert_eq!((stored.name.as_str(), stored.amount, stored.date), ("a", 5, 77));
    assert_eq!(total(&ledger, 1), 4);
    update_expense_by_id_dated(&mut ledger, GUEST, &edit, Some(80));
    let stored = Expense::get_by_id(&ledger, 1).unwrap();
    assert_eq!((stored.name.as_str(), stored.amount, stored.date), ("c", 6, 80));
    assert_eq!(total(&ledger, 1), 3);
    let edit = UpdateincomeByIdBody { name: "d".to_string(), amount: 10, date: String::new(), id: 1 };
    let reply = update_income_by_id_dated(&mut ledger, GUEST, &edit, None);
    assert!(is_refusal(&reply, "income date is not a date"));
    assert_eq!(Income::get_by_id(&ledger, 1).unwrap().amount, 9);
    update_income_by_id_dated(&mut ledger, GUEST, &edit, Some(81));
    assert_eq!(Income::get_by_id(&ledger, 1).unwrap().date, 81);
    assert_eq!(total(&ledger, 1), 4);

    let form = CreateInheritedSheetBody { date: String::new(), sheet_id: 2, inherited_sheet_id: 1 };
    let reply = create_inherited_sheet_dated(&mut ledger, GUEST, &form, None);
    assert!(is_refusal(&reply, "inherited_sheet date is not a date"));
    assert!(InheritedSheet::get_all(&ledger).is_empty());
    let reply = create_inherited_sheet_dated(&mut ledger, GUEST, &form, Some(5));
    assert!(is_redirect(&reply, Location::Sheet(2), "created"));
    assert_eq!(InheritedSheet::get_all(&ledger), vec![InheritedSheet::new(2, 1, 5)]);
    assert_eq!(total(&ledger, 2), 4);
    assert!(is_no_access(&create_inherited_sheet_dated(&mut ledger, None, &form, Some(5))));
}

#[test]
fn every_sheet_of_a_diamond_stays_consistent() {
    let mut ledger = ledger_with_guest();
    for name in ["top", "left", "right", "low"] {
        new_sheet(&mut ledger, name);
    }
    inherit(&mut ledger, 1, 2);
    inherit(&mut ledger, 1, 3);
    inherit(&mut ledger, 2, 4);
    inherit(&mut ledger, 3, 4);
    create_income(&mut ledger, GUEST, &income("a", 100, "2024-01-01", 4));
    create_expense(&mut ledger, GUEST, &expense("b", 30, "2024-01-01", 2));
    create_income(&mut ledger, GUEST, &income("c", 7, "2024-01-01", 1));
    create_expense(&mut ledger, GUEST, &expense("d", 1, "2024-01-01", 4));
    delete_income_by_id(&mut ledger, GUEST, &DeleteincomeByIdBody { id: 1, sheet_id: 4 });
    create_income(&mut ledger, GUEST, &income("e", 60, "2024-01-01", 4));
    // Each total is the sheet's own records plus the totals inherited into it.
    let own = |id: i32| -> i32 {
        let incomes: i32 =
            Income::get_all_by_sheet_id(&ledger, id).iter().map(|row| row.amount).sum();
        let expenses: i32 =
            Expense::get_all_by_sheet_id(&ledger, id).iter().map(|row| row.amount).sum();
        incomes - expenses
    };
    let inherited = |id: i32| -> i32 {
        Sheet::get_all_sheets_by_parent_sheet_id(&ledger, id)
            .iter()
            .map(|sheet| sheet.cached_value)
            .sum()
    };
    for id in 1..=4 {
        assert_eq!(total(&ledger, id), own(id) + inherited(id));
    }
    assert_eq!(
        (total(&ledger, 4), total(&ledger, 3), total(&ledger, 2), total(&ledger, 1)),
        (59, 59, 29, 95)
    );
}

#[test]
fn an_amount_without_an_opposite_is_settled_where_the_total_can_hold_it() {
    let mut ledger = ledger_with_guest();
    new_sheet(&mut ledger, "S");
    new_sheet(&mut ledger, "T");
    inherit(&mut ledger, 2, 1);
    create_expense(&mut ledger, GUEST, &expense("a", 1, "2024-01-01", 1));
    assert_eq!((total(&ledger, 1), total(&ledger, 2)), (-1, -1));
    // Taking back an expense of the lowest number adds its opposite.
    let reply = create_income(&mut ledger, GUEST, &income("b", i32::MIN, "2024-01-01", 1));
    assert!(is_failure(
        &reply,
        "Internal server error: error when updating parent sheet in database"
    ));
    let reply = create_expense(&mut ledger, GUEST, &expense("c", i32::MIN, "2024-01-01", 1));
    assert!(is_redirect(&reply, Location::Sheet(1), "created"));
    assert_eq!((total(&ledger, 1), total(&ledger, 2)), (i32::MAX, i32::MAX));
    let reply = update_expense_by_id(
        &mut ledger,
        GUEST,
        &UpdateExpenseByIdBody {
            name: "c".to_string(),
            amount: i32::MAX,
            date: "2024-01-01".to_string(),
            id: 2,
        },
    );
    assert!(is_redirect(&reply, Location::Sheet(1), "update"));
    assert_eq!((total(&ledger, 1), total(&ledger, 2)), (i32::MIN, i32::MIN));
}
