use order_ledger::Ledger;
use order_ledger::index;

#[test]
fn test_index() {
    let body = index();
    assert_eq!(body, "Welcome!");
    assert_eq!(Some(String::from(body)), Some("Welcome!".into()));
}

#[test]
fn test_get_all_items() {
    let ledger = Ledger::new();
    let response = ledger.list_items(1);
    assert!(response.is_ok());
}

#[test]
fn test_get_specific_items() {
    let ledger = Ledger::new();
    let response = ledger.get_item(1, 1);
    assert!(response.is_ok());
}
