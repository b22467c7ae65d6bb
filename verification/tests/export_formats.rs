use ledgerkit::account::AccountId;
use ledgerkit::date::Date;
use ledgerkit::export::{CsvExporter, Exporter, JsonExporter};
use ledgerkit::ids::TransactionId;
use ledgerkit::money::{Amount, Commodity};
use ledgerkit::snapshot::LedgerSnapshot;
use ledgerkit::transaction::Transaction;

#[test]
fn csv_skips_duplicates_and_quotes_commas() {
    let mut a = Transaction::transfer(
        Date::from_ymd_opt(2026, 1, 3).unwrap(),
        AccountId::new("assets:bank").unwrap(),
        AccountId::new("expenses:food").unwrap(),
        Amount::parse("6.50").unwrap(),
        Commodity::new("USD").unwrap(),
        "Cafe, Inc",
    )
    .unwrap();
    a.postings[0] = a.postings[0].clone().with_memo("note");
    let mut b = a.clone();
    b.id = TransactionId::new();
    b.duplicate_of = Some(a.id);
    let snap = LedgerSnapshot { transactions: vec![a, b] };
    let csv = CsvExporter.export(&snap).unwrap();
    assert!(csv.starts_with("date,tx_id,payee,account,amount,commodity,memo\n"));
    assert_eq!(csv.lines().count(), 3);
    assert!(csv.contains("\"Cafe, Inc\""));
    assert_eq!(csv, CsvExporter.export(&snap).unwrap());
}

#[test]
fn json_omits_duplicates_and_is_stable() {
    let a = Transaction::transfer(
        Date::from_ymd_opt(2026, 1, 3).unwrap(),
        AccountId::new("assets:bank").unwrap(),
        AccountId::new("expenses:food").unwrap(),
        Amount::parse("6.50").unwrap(),
        Commodity::new("USD").unwrap(),
        "Cafe",
    )
    .unwrap();
    let mut b = a.clone();
    b.id = TransactionId::new();
    b.duplicate_of = Some(a.id);
    let dup_id = b.id;
    let a_id = a.id;
    let snap = LedgerSnapshot { transactions: vec![b, a.clone()] };
    let doc = JsonExporter.ordered(&snap);
    assert!(doc.transactions.iter().any(|t| t.id == a_id));
    assert!(!doc.transactions.iter().any(|t| t.id == dup_id));
    let again = JsonExporter.ordered(&snap);
    let ids: Vec<TransactionId> = doc.transactions.iter().map(|t| t.id).collect();
    let ids2: Vec<TransactionId> = again.transactions.iter().map(|t| t.id).collect();
    assert_eq!(ids, ids2);
}

#[test]
fn csv_field_quotes_only_when_needed() {
    assert_eq!(ledgerkit::export::csv_field("plain"), "plain");
    assert_eq!(ledgerkit::export::csv_field("a,b"), "\"a,b\"");
    assert_eq!(ledgerkit::export::csv_field("say \"hi\""), "\"say \"\"hi\"\"\"");
    assert_eq!(ledgerkit::export::csv_field("line\nbreak"), "\"line\nbreak\"");
}

#[test]
fn json_order_is_by_date_then_id() {
    let late = Transaction::transfer(
        Date::from_ymd_opt(2026, 2, 1).unwrap(),
        AccountId::new("assets:bank").unwrap(),
        AccountId::new("expenses:food").unwrap(),
        Amount::parse("1").unwrap(),
        Commodity::new("USD").unwrap(),
        "Late",
    )
    .unwrap();
    let early = Transaction::transfer(
        Date::from_ymd_opt(2026, 1, 1).unwrap(),
        AccountId::new("assets:bank").unwrap(),
        AccountId::new("expenses:food").unwrap(),
        Amount::parse("2").unwrap(),
        Commodity::new("USD").unwrap(),
        "Early",
    )
    .unwrap();
    let snap = LedgerSnapshot { transactions: vec![late, early] };
    let doc = JsonExporter.ordered(&snap);
    assert_eq!(doc.transactions[0].payee, "Early");
    assert_eq!(doc.transactions[1].payee, "Late");
}
