use ledgerkit::account::{Account, AccountId, AccountType};
use ledgerkit::date::Date;
use ledgerkit::hash::ContentHash;
use ledgerkit::ids::{ImportBatchId, TransactionId};
use ledgerkit::money::{Amount, Commodity};
use ledgerkit::reconcile::{prove_reconcile, ReconcileRequest};
use ledgerkit::store::import::{ImportBatchSpec, ImportOutcome};
use ledgerkit::store::rows::StatementRowSpec;
use ledgerkit::store::Store;
use ledgerkit::transaction::Transaction;
use ledgerkit::verify::account_balance;

fn account(id: &str, t: AccountType, c: &str, name: &str) -> Account {
    Account::new(AccountId::new(id).unwrap(), t, Commodity::new(c).unwrap(), name)
}

fn transfer(date: Date, from: &str, to: &str, amt: &str, c: &str, payee: &str) -> Transaction {
    Transaction::transfer(
        date,
        AccountId::new(from).unwrap(),
        AccountId::new(to).unwrap(),
        Amount::parse(amt).unwrap(),
        Commodity::new(c).unwrap(),
        payee,
    )
    .unwrap()
}

fn spec(path: &str, sha_of: &str) -> ImportBatchSpec {
    ImportBatchSpec {
        id: ImportBatchId::new(),
        adapter: "generic_csv".into(),
        account_id: "assets:bank".into(),
        source_path: path.into(),
        source_sha256: ContentHash::sha256_str(sha_of),
        imported_at: "2026-01-10T00:00:00+00:00".into(),
        row_count: 1,
    }
}

#[test]
fn import_is_idempotent_and_posts() {
    let mut store = Store::new();
    let bank = account("assets:bank", AccountType::Asset, "USD", "Bank");
    let exp = account("expenses:uncategorized", AccountType::Expense, "USD", "Uncat");
    let date = Date::from_ymd_opt(2026, 1, 2).unwrap();
    let tx = transfer(date, "assets:bank", "expenses:uncategorized", "10", "USD", "Shop");
    let s = spec("sample.csv", "bytes");
    let first = store.apply_import(s.clone(), vec![bank, exp], vec![tx.clone()], vec![]).unwrap();
    assert!(matches!(first, ImportOutcome::Applied { posted: 1, .. }));
    let second = store.apply_import(s, vec![], vec![tx], vec![]).unwrap();
    assert!(matches!(second, ImportOutcome::Duplicate { .. }));
    assert_eq!(store.transaction_count(), 1);
    store.assert_replay_matches_materialized().unwrap();
}

#[test]
fn overlapping_file_skips_existing_id() {
    let mut store = Store::new();
    let bank = account("assets:bank", AccountType::Asset, "USD", "Bank");
    let exp = account("expenses:uncategorized", AccountType::Expense, "USD", "Uncat");
    let date = Date::from_ymd_opt(2026, 1, 2).unwrap();
    let mut tx = transfer(date, "assets:bank", "expenses:uncategorized", "10", "USD", "Shop");
    tx.id = TransactionId::from_fingerprint("v1|overlap");
    tx.row_fingerprint = Some("v1|overlap".into());
    let spec1 = spec("a.csv", "file-a");
    let spec2 = spec("b.csv", "file-b");
    store.apply_import(spec1, vec![bank, exp], vec![tx.clone()], vec![]).unwrap();
    let second = store.apply_import(spec2, vec![], vec![tx], vec![]).unwrap();
    assert!(matches!(second, ImportOutcome::Applied { posted: 0, skipped_existing: 1, .. }));
    assert_eq!(store.transaction_count(), 1);
    store.assert_replay_matches_materialized().unwrap();
}

#[test]
fn convert_error_only_import_persists_statement_rows() {
    let mut store = Store::new();
    let bank = account("assets:bank", AccountType::Asset, "USD", "Bank");
    let s = spec("bad.csv", "bad");
    let rows = vec![StatementRowSpec {
        row_number: 2,
        date_raw: Some("not-a-date".into()),
        amount_raw: Some("10".into()),
        currency_raw: None,
        description_raw: Some("x".into()),
        balance_raw: None,
        source_refs: vec![],
        fingerprint: None,
        parse_status: "convert_error".into(),
        error: Some("unparseable date".into()),
        transaction_id: None,
    }];
    let outcome = store.apply_import(s, vec![bank], vec![], rows).unwrap();
    assert!(matches!(outcome, ImportOutcome::Applied { posted: 0, skipped_existing: 0, .. }));
    let report = store.prove_row_reconcile("assets:bank");
    assert_eq!(report.convert_errors.len(), 1);
    assert!(!report.ok());
}

#[test]
fn dedupe_links_without_deleting_and_replay_matches() {
    let mut store = Store::new();
    store.upsert_account(account("assets:bank", AccountType::Asset, "USD", "Bank"));
    store.upsert_account(account("expenses:uncategorized", AccountType::Expense, "USD", "Exp"));
    let date = Date::from_ymd_opt(2026, 1, 2).unwrap();
    let a = transfer(date, "assets:bank", "expenses:uncategorized", "6.50", "USD", "STARBUCKS");
    let b = transfer(date, "assets:bank", "expenses:uncategorized", "6.50", "USD", "STARBUCKS");
    let id_a = a.id;
    let id_b = b.id;
    store.post_transaction(a).unwrap();
    store.post_transaction(b).unwrap();
    store.mark_duplicate(id_b, id_a, "exact", "same fingerprint").unwrap();
    store.apply_category(id_a, "expenses:food", "coffee", 80, vec!["payee".into()]).unwrap();

    let snap = store.load_snapshot();
    assert_eq!(snap.transactions.len(), 2);
    let dup = snap.transactions.iter().find(|t| t.id == id_b).unwrap();
    assert_eq!(dup.duplicate_of, Some(id_a));
    let survivor = snap.transactions.iter().find(|t| t.id == id_a).unwrap();
    assert!(survivor.tags.iter().any(|t| t == "category:expenses:food"));

    let (mat, rep) = store.assert_replay_matches_materialized().unwrap();
    assert_eq!(mat.ledger_hash.as_str(), rep.ledger_hash.as_str());

    let bal = account_balance(&snap, &AccountId::new("assets:bank").unwrap(), &Commodity::new("USD").unwrap());
    assert_eq!(bal.to_string(), "-6.50");
}

#[test]
fn post_verify_and_replay_hash_match() {
    let mut store = Store::new();
    store.upsert_account(account("assets:cash", AccountType::Asset, "INR", "Cash"));
    store.upsert_account(account("expenses:food", AccountType::Expense, "INR", "Food"));
    let date = Date::from_ymd_opt(2026, 3, 1).unwrap();
    let tx = transfer(date, "assets:cash", "expenses:food", "120.50", "INR", "Cafe");
    store.post_transaction(tx).unwrap();

    assert_eq!(store.event_count(), 3);
    store.verify_event_chain().unwrap();

    let (mat, rep) = store.assert_replay_matches_materialized().unwrap();
    assert!(mat.ok);
    assert_eq!(mat.ledger_hash.as_str(), rep.ledger_hash.as_str());
    assert_eq!(mat.transaction_count, 1);

    let bal = store.balance_of(&AccountId::new("assets:cash").unwrap(), &Commodity::new("INR").unwrap());
    assert_eq!(bal.to_string(), "-120.50");
}

#[test]
fn time_travel_replay_through_stops_early() {
    let mut store = Store::new();
    store.upsert_account(account("assets:a", AccountType::Asset, "USD", "A"));
    store.upsert_account(account("expenses:b", AccountType::Expense, "USD", "B"));
    let date = Date::from_ymd_opt(2026, 1, 1).unwrap();
    let tx1 = transfer(date, "assets:a", "expenses:b", "10", "USD", "one");
    let tx2 = transfer(date, "assets:a", "expenses:b", "5", "USD", "two");
    let e1 = store.post_transaction(tx1).unwrap();
    store.post_transaction(tx2).unwrap();

    let mid = store.replay_through(e1.seq);
    assert_eq!(mid.transactions.len(), 1);
    let all = store.replay_all();
    assert_eq!(all.transactions.len(), 2);
}

#[test]
fn row_reconcile_matches_imported_specs() {
    let mut store = Store::new();
    let bank = account("assets:bank", AccountType::Asset, "USD", "Bank");
    let exp = account("expenses:uncategorized", AccountType::Expense, "USD", "Uncat");
    let mut tx = transfer(
        Date::from_ymd_opt(2026, 1, 2).unwrap(),
        "assets:bank",
        "expenses:uncategorized",
        "10",
        "USD",
        "Shop",
    );
    tx.id = TransactionId::from_fingerprint("row-recon");
    let s = spec("a.csv", "x");
    let rows = vec![StatementRowSpec {
        row_number: 2,
        date_raw: Some("2026-01-02".into()),
        amount_raw: Some("10".into()),
        currency_raw: Some("USD".into()),
        description_raw: Some("Shop".into()),
        balance_raw: None,
        source_refs: vec!["generic:row:2".into()],
        fingerprint: Some("row-recon".into()),
        parse_status: "ok".into(),
        error: None,
        transaction_id: Some(tx.id),
    }];
    store.apply_import(s, vec![bank, exp], vec![tx], rows).unwrap();
    let report = store.prove_row_reconcile("assets:bank");
    assert!(report.ok(), "{report:?}");
    assert_eq!(report.matched, 1);
}

#[test]
fn why_includes_posted_deduped_categorized() {
    let mut store = Store::new();
    store.upsert_account(account("assets:bank", AccountType::Asset, "USD", "Bank"));
    store.upsert_account(account("expenses:food", AccountType::Expense, "USD", "Food"));
    let date = Date::from_ymd_opt(2026, 1, 2).unwrap();
    let a = transfer(date, "assets:bank", "expenses:food", "6.50", "USD", "STARBUCKS");
    let b = transfer(date, "assets:bank", "expenses:food", "6.50", "USD", "STARBUCKS");
    let id_a = a.id;
    let id_b = b.id;
    store.post_transaction(a).unwrap();
    store.post_transaction(b).unwrap();
    store.mark_duplicate(id_b, id_a, "exact", "same fingerprint").unwrap();
    store.apply_category(id_a, "expenses:food", "coffee", 80, vec!["payee".into()]).unwrap();
    let later = transfer(Date::from_ymd_opt(2026, 2, 1).unwrap(), "assets:bank", "expenses:food", "1.00", "USD", "Later");
    let id_later = later.id;
    store.post_transaction(later).unwrap();
    let proof = prove_reconcile(
        &store.load_snapshot(),
        &ReconcileRequest {
            account: AccountId::new("assets:bank").unwrap(),
            commodity: Commodity::new("USD").unwrap(),
            as_of: date,
            stated_ending: Amount::parse("-6.50").unwrap(),
            starting: Amount::zero(),
        },
    )
    .unwrap();
    store.record_reconcile(&proof, Some("reports/reconcile-assets_bank-2026-01-02.md".into()));

    let why_a = store.why_transaction(id_a).unwrap();
    assert!(why_a.iter().any(|s| s.kind == "posted"));
    assert!(why_a.iter().any(|s| s.kind == "categorized"));
    assert!(why_a.iter().any(|s| s.kind == "deduped"));
    assert!(why_a.iter().any(|s| s.kind == "reconciled"));

    let why_b = store.why_transaction(id_b).unwrap();
    assert!(why_b.iter().any(|s| s.kind == "deduped"));
    assert!(why_b.iter().any(|s| s.summary.contains(&id_a.to_string())));
    assert!(why_b.iter().any(|s| s.kind == "reconciled"));

    let why_later = store.why_transaction(id_later).unwrap();
    assert!(why_later.iter().any(|s| s.kind == "posted"));
    assert!(why_later.iter().all(|s| s.kind != "reconciled"), "txs after as_of must not inherit the reconcile event: {why_later:?}");
}

#[test]
fn mark_duplicate_refuses_self_links_and_relinks() {
    let mut store = Store::new();
    let date = Date::from_ymd_opt(2026, 1, 2).unwrap();
    let a = transfer(date, "assets:bank", "expenses:food", "1", "USD", "A");
    let b = transfer(date, "assets:bank", "expenses:food", "1", "USD", "B");
    let (ia, ib) = (a.id, b.id);
    store.post_transaction(a).unwrap();
    store.post_transaction(b).unwrap();
    assert_eq!(store.mark_duplicate(ia, ia, "x", "y").unwrap_err(), "duplicate_id must differ from survivor_id");
    store.mark_duplicate(ib, ia, "x", "y").unwrap();
    let again = store.mark_duplicate(ib, ia, "x", "y").unwrap_err();
    assert!(again.ends_with("is already linked as a duplicate"));
    assert_eq!(store.event_count(), 3);
}

#[test]
fn appended_event_must_link_to_tip() {
    let mut store = Store::new();
    let e = ledgerkit::event::Event::seal(
        ledgerkit::event::EventKind::ManualEdit,
        ledgerkit::event::EventPayload::ManualEdit { transaction_id: TransactionId::new(), summary: "x".into() },
        ContentHash::sha256_str("not the tip"),
    );
    assert!(store.append_event(e).is_err());
    let ok = ledgerkit::event::Event::seal(
        ledgerkit::event::EventKind::ManualEdit,
        ledgerkit::event::EventPayload::ManualEdit { transaction_id: TransactionId::new(), summary: "x".into() },
        store.last_event_hash(),
    );
    let stored = store.append_event(ok).unwrap();
    assert_eq!(stored.seq, 1);
    assert_eq!(store.verify_event_chain().unwrap().as_str(), stored.content_hash.as_str());
}

#[test]
fn linking_and_tagging_keep_every_posting() {
    let mut store = Store::new();
    let date = Date::from_ymd_opt(2026, 1, 2).unwrap();
    let a = transfer(date, "assets:bank", "expenses:uncategorized", "6.50", "USD", "STARBUCKS");
    let b = transfer(date, "assets:bank", "expenses:uncategorized", "6.50", "USD", "STARBUCKS");
    let (id_a, id_b) = (a.id, b.id);
    store.post_transaction(a).unwrap();
    store.post_transaction(b).unwrap();
    let before: Vec<(String, String)> = store
        .load_snapshot()
        .transactions
        .iter()
        .flat_map(|t| t.postings.iter().map(|p| (p.account.as_str().to_string(), p.amount.to_string())))
        .collect();
    store.mark_duplicate(id_b, id_a, "exact", "same fingerprint").unwrap();
    store.apply_category(id_b, "expenses:food", "coffee", 80, vec![]).unwrap();
    let snap = store.load_snapshot();
    let after: Vec<(String, String)> = snap
        .transactions
        .iter()
        .flat_map(|t| t.postings.iter().map(|p| (p.account.as_str().to_string(), p.amount.to_string())))
        .collect();
    assert_eq!(store.transaction_count(), 2);
    assert_eq!(before, after);
    assert_eq!(store.posting_count(), 4);
}

#[test]
fn replay_matches_when_posted_out_of_date_order() {
    let mut store = Store::new();
    let late = transfer(Date::from_ymd_opt(2026, 1, 9).unwrap(), "assets:bank", "expenses:uncategorized", "3.00", "USD", "LATE");
    let early = transfer(Date::from_ymd_opt(2026, 1, 2).unwrap(), "assets:bank", "expenses:uncategorized", "4.00", "USD", "EARLY");
    store.post_transaction(late).unwrap();
    store.post_transaction(early).unwrap();
    let (mat, rep) = store.assert_replay_matches_materialized().unwrap();
    assert_eq!(mat.ledger_hash.as_str(), rep.ledger_hash.as_str());
    assert_eq!(store.verify_event_chain().unwrap().as_str(), store.last_event_hash().as_str());
    assert_eq!(mat.ledger_hash.as_str().len(), 64);
}

#[test]
fn replay_through_keeps_earlier_transactions_in_place() {
    let mut store = Store::new();
    let date = Date::from_ymd_opt(2026, 1, 2).unwrap();
    let a = transfer(date, "assets:bank", "expenses:uncategorized", "1.00", "USD", "A");
    let b = transfer(date, "assets:bank", "expenses:uncategorized", "2.00", "USD", "B");
    let (ia, ib) = (a.id, b.id);
    let e1 = store.post_transaction(a).unwrap();
    store.post_transaction(b).unwrap();
    store.mark_duplicate(ib, ia, "exact", "x").unwrap();
    let first = store.replay_through(e1.seq);
    let all = store.replay_all();
    assert_eq!(first.transactions.len(), 1);
    assert_eq!(all.transactions.len(), 2);
    assert_eq!(first.transactions[0].id, all.transactions[0].id);
    assert_eq!(store.replay_through(u64::MAX - 1).transactions.len(), 2);
}
