use order_ledger::Ledger;
use order_ledger::LedgerError;

#[test]
fn add_twice_accumulates_and_keeps_prep_time() {
    let mut ledger = Ledger::new();
    assert_eq!(ledger.add_items(3, 10, 4), Ok(1));
    let first = ledger.get_item(3, 10).unwrap();
    assert_eq!(first.len(), 1);
    assert_eq!(first[0].quantity, 4);
    let prep = first[0].prep_time;

    assert_eq!(ledger.add_items(3, 10, 6), Ok(1));
    let second = ledger.get_item(3, 10).unwrap();
    assert_eq!(second.len(), 1);
    assert_eq!(second[0].item_id, 10);
    assert_eq!(second[0].quantity, 10);
    assert_eq!(second[0].prep_time, prep);

    let all = ledger.list_items(3).unwrap();
    assert_eq!(all.len(), 1);
}

#[test]
fn list_of_unwritten_table_is_empty_not_error() {
    let ledger = Ledger::new();
    let items = ledger.list_items(99).unwrap();
    assert!(items.is_empty());
}

#[test]
fn get_after_delete_is_empty() {
    let mut ledger = Ledger::new();
    assert_eq!(ledger.add_items(2, 7, 1), Ok(1));
    assert_eq!(ledger.delete_item(2, 7), Ok(1));
    let items = ledger.get_item(2, 7).unwrap();
    assert!(items.is_empty());
}

#[test]
fn update_of_missing_item_affects_zero_rows() {
    let mut ledger = Ledger::new();
    assert_eq!(ledger.update_quantity(4, 11, 9), Ok(0));
    assert!(ledger.list_items(4).unwrap().is_empty());
}

#[test]
fn delete_of_missing_item_affects_zero_rows() {
    let mut ledger = Ledger::new();
    assert_eq!(ledger.delete_item(8, 3), Ok(0));
}

#[test]
fn prep_time_always_within_bounds() {
    let mut ledger = Ledger::new();
    let mut item_id: i64 = 1;
    while item_id <= 50 {
        assert_eq!(ledger.add_items(1, item_id, 2), Ok(1));
        let items = ledger.get_item(1, item_id).unwrap();
        assert_eq!(items.len(), 1);
        assert!(5 <= items[0].prep_time && items[0].prep_time <= 15);
        item_id += 1;
    }
}

#[test]
fn full_scenario_for_one_table() {
    let mut ledger = Ledger::new();

    let inserted = ledger.add_items(1, 42, 3).unwrap();
    assert_eq!(format!("{} menu item inserted!", inserted), "1 menu item inserted!");

    let items = ledger.get_item(1, 42).unwrap();
    assert_eq!(items.len(), 1);
    assert_eq!(items[0].item_id, 42);
    assert_eq!(items[0].quantity, 3);
    assert!(5 <= items[0].prep_time && items[0].prep_time <= 15);
    let prep = items[0].prep_time;

    assert_eq!(ledger.add_items(1, 42, 2), Ok(1));
    let items = ledger.get_item(1, 42).unwrap();
    assert_eq!(items.len(), 1);
    assert_eq!(items[0].quantity, 5);
    assert_eq!(items[0].prep_time, prep);

    let deleted = ledger.delete_item(1, 42).unwrap();
    assert_eq!(format!("{} menu item deleted!", deleted), "1 menu item deleted!");

    let items = ledger.get_item(1, 42).unwrap();
    assert!(items.is_empty());
}

#[test]
fn tables_do_not_interfere() {
    let mut ledger = Ledger::new();
    assert_eq!(ledger.add_items(1, 5, 2), Ok(1));
    assert_eq!(ledger.add_items(2, 5, 9), Ok(1));

    assert_eq!(ledger.update_quantity(1, 5, 100), Ok(1));
    let other = ledger.get_item(2, 5).unwrap();
    assert_eq!(other[0].quantity, 9);

    assert_eq!(ledger.delete_item(2, 5), Ok(1));
    let kept = ledger.get_item(1, 5).unwrap();
    assert_eq!(kept.len(), 1);
    assert_eq!(kept[0].quantity, 100);
    assert!(ledger.get_item(2, 5).unwrap().is_empty());
}

#[test]
fn update_sets_quantity_exactly_and_allows_negative() {
    let mut ledger = Ledger::new();
    assert_eq!(ledger.add_items(6, 1, 10), Ok(1));
    let updated = ledger.update_quantity(6, 1, -5).unwrap();
    assert_eq!(format!("{} row updated!", updated), "1 row updated!");
    let items = ledger.get_item(6, 1).unwrap();
    assert_eq!(items[0].quantity, -5);
}

#[test]
fn negative_delta_can_drive_quantity_below_zero() {
    let mut ledger = Ledger::new();
    assert_eq!(ledger.add_items(6, 2, 3), Ok(1));
    assert_eq!(ledger.add_items(6, 2, -10), Ok(1));
    let items = ledger.get_item(6, 2).unwrap();
    assert_eq!(items[0].quantity, -7);
}

#[test]
fn accumulation_overflow_is_an_execution_failure() {
    let mut ledger = Ledger::new();
    assert_eq!(ledger.add_items(1, 1, i64::MAX), Ok(1));
    assert_eq!(ledger.add_items(1, 1, 1), Err(LedgerError::ExecutionFailure));
    let items = ledger.get_item(1, 1).unwrap();
    assert_eq!(items[0].quantity, i64::MAX);
}

#[test]
fn listing_keeps_insertion_order() {
    let mut ledger = Ledger::new();
    assert_eq!(ledger.add_items(7, 30, 1), Ok(1));
    assert_eq!(ledger.add_items(7, 10, 1), Ok(1));
    assert_eq!(ledger.add_items(7, 20, 1), Ok(1));
    assert_eq!(ledger.add_items(7, 10, 1), Ok(1));
    let ids: Vec<i64> = ledger.list_items(7).unwrap().iter().map(|it| it.item_id).collect();
    assert_eq!(ids, vec![30, 10, 20]);
}

#[test]
fn error_messages_are_human_readable() {
    assert_eq!(LedgerError::StorageUnavailable.message(), "Failed to connect to database");
    assert_eq!(LedgerError::StatementPreparationFailure.message(), "Failed to prepare query");
    assert_eq!(LedgerError::ExecutionFailure.message(), "Failed to execute statement");
    assert_eq!(LedgerError::CollectionFailure.message(), "Could not collect items");
}
