use ledgerkit::account::{Account, AccountId, AccountType};
use ledgerkit::cli::reject_parent_dir;
use ledgerkit::date::Date;
use ledgerkit::error::CoreError;
use ledgerkit::event::{Event, EventKind, EventPayload};
use ledgerkit::hash::ContentHash;
use ledgerkit::ids::TransactionId;
use ledgerkit::money::{Amount, Commodity};
use ledgerkit::posting::Posting;
use ledgerkit::reconcile::{prove_reconcile, ReconcileRequest};
use ledgerkit::snapshot::LedgerSnapshot;
use ledgerkit::transaction::Transaction;
use ledgerkit::verify::verify_ledger;

#[test]
fn allows_relative_and_absolute_without_dotdot() {
    reject_parent_dir("ledger.bean").unwrap();
    reject_parent_dir(".demo/ledger.bean").unwrap();
    reject_parent_dir("reports/out.csv").unwrap();
}

#[test]
fn rejects_parent_dir_components() {
    assert!(reject_parent_dir("../ledger.bean").is_err());
    assert!(reject_parent_dir("foo/../../etc/passwd").is_err());
    assert!(reject_parent_dir("..").is_err());
}

#[test]
fn accepts_hierarchical_names() {
    assert!(AccountId::new("assets:bank:hdfc").is_ok());
}

#[test]
fn rejects_bad_names() {
    assert!(AccountId::new(":assets").is_err());
    assert!(AccountId::new("assets::hdfc").is_err());
    assert!(AccountId::new("").is_err());
}

#[test]
fn sealed_hash_is_stable_for_same_inputs() {
    let account = Account::new(
        AccountId::new("assets:cash").unwrap(),
        AccountType::Asset,
        Commodity::new("INR").unwrap(),
        "Cash",
    );
    let payload = EventPayload::AccountUpserted { account };
    let a = Event::seal(EventKind::AccountUpserted, payload.clone(), ContentHash::zero());
    let b = Event::seal(EventKind::AccountUpserted, payload, ContentHash::zero());
    assert_ne!(a.id, b.id);
    assert_eq!(a.expected_content_hash().as_str(), a.content_hash.as_str());
    assert_eq!(b.expected_content_hash().as_str(), b.content_hash.as_str());
}

#[test]
fn deterministic_hash() {
    let a = ContentHash::sha256_str("ledgerkit");
    let b = ContentHash::sha256_str("ledgerkit");
    assert_eq!(a.as_str(), b.as_str());
    assert_eq!(a.as_str().len(), 64);
}

#[test]
fn fingerprint_id_is_stable_and_distinct() {
    let fp = "v1|generic_csv|assets:bank|2026-01-02|-42.15|USD|generic:row:2|amzn";
    let a = TransactionId::from_fingerprint(fp);
    let b = TransactionId::from_fingerprint(fp);
    let c = TransactionId::from_fingerprint("v1|other");
    assert_eq!(a, b);
    assert_ne!(a, c);
    assert_ne!(a, TransactionId::new());
}

#[test]
fn parses_amounts_without_floats() {
    let a = Amount::parse("1,234.56").unwrap();
    assert_eq!(a.to_string(), "1234.56");
    assert!(!a.is_zero());
}

#[test]
fn rejects_empty_commodity() {
    assert!(Commodity::new("").is_err());
}

fn transfer(date: &str, payee: &str, amt: &str) -> Transaction {
    let d = Date::parse_from_str(date, "%Y-%m-%d").unwrap();
    Transaction::transfer(
        d,
        AccountId::new("assets:bank").unwrap(),
        AccountId::new("expenses:food").unwrap(),
        Amount::parse(amt).unwrap(),
        Commodity::new("USD").unwrap(),
        payee,
    )
    .unwrap()
}

#[test]
fn balanced_statement_has_zero_delta() {
    let tx = transfer("2026-01-03", "Cafe", "6.50");
    let snap = LedgerSnapshot { transactions: vec![tx] };
    let proof = prove_reconcile(
        &snap,
        &ReconcileRequest {
            account: AccountId::new("assets:bank").unwrap(),
            commodity: Commodity::new("USD").unwrap(),
            as_of: Date::from_ymd_opt(2026, 1, 31).unwrap(),
            stated_ending: Amount::parse("-6.50").unwrap(),
            starting: Amount::zero(),
        },
    )
    .unwrap();
    assert!(proof.ok());
    assert_eq!(proof.matched.len(), 1);
    assert_eq!(proof.proof_filename(), "reconcile-assets_bank-2026-01-31.md");
}

#[test]
fn mismatch_reports_delta_and_skips_duplicates() {
    let a = transfer("2026-01-03", "Cafe", "6.50");
    let mut b = transfer("2026-01-03", "Cafe", "6.50");
    let later = transfer("2026-02-01", "Later", "1.00");
    b.duplicate_of = Some(a.id);
    let snap = LedgerSnapshot { transactions: vec![a, b, later] };
    let proof = prove_reconcile(
        &snap,
        &ReconcileRequest {
            account: AccountId::new("assets:bank").unwrap(),
            commodity: Commodity::new("USD").unwrap(),
            as_of: Date::from_ymd_opt(2026, 1, 31).unwrap(),
            stated_ending: Amount::parse("0").unwrap(),
            starting: Amount::zero(),
        },
    )
    .unwrap();
    assert!(!proof.ok());
    assert_eq!(proof.unexplained_delta.to_string(), "-6.50");
    assert_eq!(proof.matched.len(), 1);
    assert_eq!(proof.skipped_duplicates.len(), 1);
    assert_eq!(proof.after_as_of.len(), 1);
}

#[test]
fn starting_balance_is_included() {
    let tx = transfer("2026-01-03", "Cafe", "6.50");
    let snap = LedgerSnapshot { transactions: vec![tx] };
    let proof = prove_reconcile(
        &snap,
        &ReconcileRequest {
            account: AccountId::new("assets:bank").unwrap(),
            commodity: Commodity::new("USD").unwrap(),
            as_of: Date::from_ymd_opt(2026, 1, 31).unwrap(),
            stated_ending: Amount::parse("93.50").unwrap(),
            starting: Amount::parse("100").unwrap(),
        },
    )
    .unwrap();
    assert!(proof.ok());
    assert_eq!(proof.computed_ending.to_string(), "93.50");
}

#[test]
fn rejects_unbalanced_transaction() {
    let date = Date::from_ymd_opt(2026, 3, 1).unwrap();
    let err = Transaction::new(
        date,
        "Bad",
        vec![Posting::new(
            AccountId::new("assets:cash").unwrap(),
            Amount::parse("10").unwrap(),
            Commodity::new("INR").unwrap(),
        )],
    )
    .unwrap_err();
    assert!(matches!(err, CoreError::UnbalancedTransaction { .. }));
}

#[test]
fn accepts_balanced_transfer() {
    let date = Date::from_ymd_opt(2026, 3, 1).unwrap();
    let tx = Transaction::transfer(
        date,
        AccountId::new("assets:bank:hdfc").unwrap(),
        AccountId::new("expenses:food").unwrap(),
        Amount::parse("250.00").unwrap(),
        Commodity::new("INR").unwrap(),
        "Cafe",
    )
    .unwrap();
    assert_eq!(tx.postings.len(), 2);
}

#[test]
fn balanced_ledger_verifies() {
    let date = Date::from_ymd_opt(2026, 1, 15).unwrap();
    let tx = Transaction::transfer(
        date,
        AccountId::new("assets:cash").unwrap(),
        AccountId::new("expenses:misc").unwrap(),
        Amount::parse("100").unwrap(),
        Commodity::new("USD").unwrap(),
        "Shop",
    )
    .unwrap();
    let snap = LedgerSnapshot { transactions: vec![tx] };
    let report = verify_ledger(&snap);
    assert!(report.ok);
    assert_eq!(report.transaction_count, 1);
}

#[test]
fn markdown_status_follows_the_delta() {
    let snap = LedgerSnapshot { transactions: vec![transfer("2026-01-03", "BALANCED", "6.50")] };
    let req = |stated: &str| ReconcileRequest {
        account: AccountId::new("assets:bank").unwrap(),
        commodity: Commodity::new("USD").unwrap(),
        as_of: Date::from_ymd_opt(2026, 1, 31).unwrap(),
        stated_ending: Amount::parse(stated).unwrap(),
        starting: Amount::zero(),
    };
    let good = prove_reconcile(&snap, &req("-6.50")).unwrap().to_markdown();
    assert!(good.starts_with("# Reconciliation proof\n\n"));
    assert!(good.contains("\n- status: BALANCED\n"));
    let bad = prove_reconcile(&snap, &req("-7.00")).unwrap().to_markdown();
    assert!(bad.contains("\n- status: UNEXPLAINED_DELTA\n"));
    assert!(!bad.contains("- status: BALANCED\n"));
}

#[test]
fn ledger_report_counts_each_unbalanced_transaction_once() {
    let ok = transfer("2026-01-03", "Cafe", "6.50");
    let mut broken = transfer("2026-01-04", "Shop", "2.00");
    broken.postings.pop();
    let mut broken2 = transfer("2026-01-05", "Shop", "3.00");
    broken2.postings.pop();
    let report = verify_ledger(&LedgerSnapshot { transactions: vec![ok, broken, broken2] });
    assert!(!report.ok);
    assert_eq!(report.unbalanced.len(), 2);
    assert_eq!(report.transaction_count, 3);
    assert_eq!(report.posting_count, 4);
}

#[test]
fn computed_ending_is_starting_plus_matched_and_delta_is_the_gap() {
    let snap = LedgerSnapshot {
        transactions: vec![transfer("2026-01-03", "Cafe", "6.50"), transfer("2026-01-04", "Shop", "3.25")],
    };
    let proof = prove_reconcile(
        &snap,
        &ReconcileRequest {
            account: AccountId::new("assets:bank").unwrap(),
            commodity: Commodity::new("USD").unwrap(),
            as_of: Date::from_ymd_opt(2026, 1, 31).unwrap(),
            stated_ending: Amount::parse("90.00").unwrap(),
            starting: Amount::parse("100.00").unwrap(),
        },
    )
    .unwrap();
    assert_eq!(proof.computed_ending.to_string(), "90.25");
    assert_eq!(proof.unexplained_delta.to_string(), "0.25");
    assert!(!proof.ok());
}
