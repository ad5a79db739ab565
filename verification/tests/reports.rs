use ifdohtem::signed::SignedAmount;
use ifdohtem::gateway::{read_receipt, Receipt};
use ifdohtem::reports::{Ledger, Reports};

fn amount(text: &str) -> SignedAmount {
    SignedAmount::parse(text).unwrap()
}

fn receipt(body: &str) -> Receipt {
    read_receipt(serde_json::from_str(body).unwrap())
}

fn total(ledger: &Ledger, key: &str) -> Option<String> {
    ledger.total(key).map(|total| total.to_text())
}

#[test]
fn a_new_ledger_is_empty() {
    let ledger = Ledger::new();
    assert_eq!(ledger.len(), 0);
    assert!(ledger.total("A1").is_none());
    assert!(ledger.line(0).is_none());
}

#[test]
fn a_first_credit_starts_from_zero() {
    let mut ledger = Ledger::new();
    ledger.credit("A1", &amount("123.45"));
    assert_eq!(ledger.len(), 1);
    assert_eq!(total(&ledger, "A1"), Some("123.45".to_string()));
    assert!(ledger.total("A2").is_none());
}

#[test]
fn credits_under_one_key_add_up() {
    let mut ledger = Ledger::new();
    ledger.credit("A1", &amount("123.45"));
    ledger.credit("A1", &amount("0.55"));
    ledger.credit("A1", &amount("1"));
    assert_eq!(ledger.len(), 1);
    assert_eq!(total(&ledger, "A1"), Some("125.00".to_string()));
}

#[test]
fn keys_are_kept_apart_and_in_order() {
    let mut ledger = Ledger::new();
    ledger.credit("B", &amount("2"));
    ledger.credit("A", &amount("1"));
    ledger.credit("B", &amount("20"));
    ledger.credit("", &amount("5"));
    assert_eq!(ledger.len(), 3);
    assert_eq!(total(&ledger, "A"), Some("1".to_string()));
    assert_eq!(total(&ledger, "B"), Some("22".to_string()));
    assert_eq!(total(&ledger, ""), Some("5".to_string()));
    let keys: Vec<&str> = (0..ledger.len()).map(|i| ledger.line(i).unwrap().key.as_str()).collect();
    assert_eq!(keys, vec!["B", "A", ""]);
    assert_eq!(ledger.line(0).unwrap().total.to_text(), "22");
    assert!(ledger.line(3).is_none());
}

#[test]
fn new_reports_are_empty() {
    let reports = Reports::new();
    assert_eq!(reports.0.len(), 0);
    assert_eq!(reports.1.len(), 0);
    assert!(reports.2.is_empty());
}

#[test]
fn a_payment_is_booked_in_all_three_reports() {
    let mut reports = Reports::new();
    reports.record_payment(
        "A1",
        "BRC-9",
        &amount("123.45"),
        receipt(r#"{"id":"PAY-1","amount":123.45}"#),
    );
    assert_eq!(total(&reports.0, "A1"), Some("123.45".to_string()));
    assert_eq!(total(&reports.1, "BRC-9"), Some("123.45".to_string()));
    assert_eq!(reports.0.len(), 1);
    assert_eq!(reports.1.len(), 1);
    assert_eq!(reports.2.len(), 1);
    assert_eq!(reports.2[0].id.as_deref(), Some("PAY-1"));
}

#[test]
fn each_payment_raises_its_totals_by_exactly_its_amount() {
    let mut reports = Reports::new();
    reports.record_payment("A1", "BRC-9", &amount("0.10"), receipt(r#"{"id":"PAY-1"}"#));
    reports.record_payment("A1", "BRC-8", &amount("0.20"), receipt(r#"{"id":"PAY-2"}"#));
    reports.record_payment("A2", "BRC-9", &amount("0.30"), receipt(r#"{"id":"PAY-3"}"#));
    assert_eq!(total(&reports.0, "A1"), Some("0.30".to_string()));
    assert_eq!(total(&reports.0, "A2"), Some("0.30".to_string()));
    assert_eq!(total(&reports.1, "BRC-9"), Some("0.40".to_string()));
    assert_eq!(total(&reports.1, "BRC-8"), Some("0.20".to_string()));
    let ids: Vec<Option<&str>> = reports.2.iter().map(|receipt| receipt.id.as_deref()).collect();
    assert_eq!(ids, vec![Some("PAY-1"), Some("PAY-2"), Some("PAY-3")]);
}

#[test]
fn a_key_may_be_an_account_in_one_report_and_a_branch_in_the_other() {
    let mut reports = Reports::new();
    reports.record_payment("X", "X", &amount("1.5"), receipt("{}"));
    assert_eq!(total(&reports.0, "X"), Some("1.5".to_string()));
    assert_eq!(total(&reports.1, "X"), Some("1.5".to_string()));
}

#[test]
fn amounts_below_zero_lower_a_total() {
    let mut ledger = Ledger::new();
    ledger.credit("A1", &amount("10.00"));
    ledger.credit("A1", &amount("-2.5"));
    assert_eq!(total(&ledger, "A1"), Some("7.50".to_string()));
    ledger.credit("A1", &amount("-10"));
    assert_eq!(total(&ledger, "A1"), Some("-2.50".to_string()));
    ledger.credit("A2", &amount("-1e2"));
    assert_eq!(total(&ledger, "A2"), Some("-100".to_string()));
    assert_eq!(ledger.len(), 2);
}
