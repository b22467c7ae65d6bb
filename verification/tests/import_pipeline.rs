use ledgerkit::account::AccountId;
use ledgerkit::adapter::{AdapterError, BankAdapter};
use ledgerkit::adapters::credit_card::CreditCardCsvAdapter;
use ledgerkit::adapters::custom::CustomMappingAdapter;
use ledgerkit::adapters::generic_csv::GenericCsvAdapter;
use ledgerkit::adapters::hdfc::HdfcCsvAdapter;
use ledgerkit::adapters::{builtin, list_builtin, sample_adapter};
use ledgerkit::convert::{convert_raw, ConvertOptions};
use ledgerkit::date::Date;
use ledgerkit::dates::parse_date;
use ledgerkit::ids::ImportBatchId;
use ledgerkit::money::Commodity;
use ledgerkit::normalize::normalize_merchant;
use ledgerkit::raw::{RawTransaction, RawTransactions};
use ledgerkit::store::rows::statement_row_specs;

const GENERIC_SAMPLE: &str = "Date,Description,Amount,Currency,Balance\n\
2026-01-02,AMZN MKTP US*ABC123,-42.15,USD,2457.85\n\
2026-01-03,STARBUCKS STORE 1234,-6.50,USD,2451.35\n\
2026-01-05,PAYROLL ACME CORP,1500.00,USD,3951.35\n\
2026-01-06,NETFLIX.COM,-15.99,USD,3935.36\n";

const CC_SAMPLE: &str = "Transaction Date,Post Date,Description,Amount\n\
2026-01-02,2026-01-03,UBER TRIP,-23.40\n\
2026-01-04,2026-01-05,SHELL OIL 5544,-41.00\n\
2026-01-06,2026-01-07,PAYMENT THANK YOU,300.00\n";

const HDFC_SAMPLE: &str = "Date,Narration,Chq./Ref.No.,Value Dt,Withdrawal Amt.,Deposit Amt.,Closing Balance\n\
01/02/26,UPI-SWIGGY-ORDER,000111,01/02/26,450.00,,10550.00\n\
02/02/26,NEFT-SALARY-ACME,000112,02/02/26,,85000.00,95550.00\n\
03/02/26,ATM WDL,000113,03/02/26,2000.00,,93550.00\n";

const GENERIC_MALFORMED: &str = "Date,Description,Amount\n\
2026-01-02,Good row,10.00\n\
2026-01-03,Bad row\n";

#[test]
fn generic_and_cc_fixtures_parse() {
    let (raw, report) = GenericCsvAdapter.parse(GENERIC_SAMPLE.as_bytes()).unwrap();
    assert_eq!(report.error_rows, 0);
    assert_eq!(raw.transactions.len(), 4);

    let (raw, report) = CreditCardCsvAdapter.parse(CC_SAMPLE.as_bytes()).unwrap();
    assert_eq!(report.error_rows, 0);
    assert_eq!(raw.transactions.len(), 3);
}

#[test]
fn missing_amount_is_reported() {
    let csv = b"Date,Description,Amount\n2026-01-01,Good,10.00\n2026-01-02,Bad,\n";
    let (raw, report) = GenericCsvAdapter.parse(csv).unwrap();
    assert_eq!(raw.transactions.len(), 1);
    assert_eq!(report.error_rows, 1);
    assert!(report.errors[0].contains("missing amount"));
}

#[test]
fn missing_column_is_schema_error() {
    let csv = b"Date,Description\n2026-01-01,Nope\n";
    let err = GenericCsvAdapter.parse(csv).unwrap_err();
    assert!(matches!(err, AdapterError::Schema(_)));
}

#[test]
fn golden_parse_counts() {
    let cases: &[(&str, &[u8], usize, usize)] = &[
        ("generic_csv", GENERIC_SAMPLE.as_bytes(), 4, 0),
        ("hdfc", HDFC_SAMPLE.as_bytes(), 3, 0),
        ("credit_card", CC_SAMPLE.as_bytes(), 3, 0),
        ("generic_malformed", GENERIC_MALFORMED.as_bytes(), 1, 1),
    ];
    for (name, bytes, ok_rows, error_rows) in cases {
        let adapter_id = if *name == "generic_malformed" { "generic_csv" } else { *name };
        let adapter = builtin(adapter_id).unwrap();
        let (_raw, report) = adapter.parse(bytes).unwrap();
        assert_eq!(report.ok_rows, *ok_rows, "{name} ok_rows");
        assert_eq!(report.error_rows, *error_rows, "{name} error_rows");
    }
}

#[test]
fn custom_adapter_reads_generic_headers() {
    let (raw, report) = CustomMappingAdapter::default().parse(GENERIC_SAMPLE.as_bytes()).unwrap();
    assert_eq!(report.error_rows, 0);
    assert_eq!(raw.transactions.len(), 4);
    assert_eq!(raw.adapter_id, "custom");
}

#[test]
fn hdfc_amounts_take_deposit_or_negated_withdrawal() {
    let (raw, report) = HdfcCsvAdapter.parse(HDFC_SAMPLE.as_bytes()).unwrap();
    assert_eq!(report.error_rows, 0);
    assert_eq!(raw.transactions[0].amount_raw, "-450.00");
    assert_eq!(raw.transactions[1].amount_raw, "85000.00");
    assert_eq!(raw.transactions[0].currency_raw.as_deref(), Some("INR"));
    assert_eq!(raw.transactions[0].source_refs, vec!["hdfc:row:2".to_string()]);
    assert_eq!(raw.transactions[2].balance_raw.as_deref(), Some("93550.00"));
}

#[test]
fn row_errors_name_their_row() {
    let (_raw, report) = GenericCsvAdapter.parse(GENERIC_MALFORMED.as_bytes()).unwrap();
    assert_eq!(report.errors.len(), 1);
    assert!(report.errors[0].contains("parse error at row 3"), "{:?}", report.errors);
    assert!(report.errors[0].contains("missing field Amount"));
}

#[test]
fn schema_error_lists_headers() {
    let err = HdfcCsvAdapter.parse(b"Date,Narration\n01/02/26,x\n").unwrap_err();
    match err {
        AdapterError::Schema(m) => {
            assert_eq!(m, "missing required column 'Withdrawal Amt.' (have: Date, Narration)")
        }
        other => panic!("unexpected {other:?}"),
    }
}

#[test]
fn builtin_ids_resolve() {
    assert_eq!(list_builtin(), vec!["hdfc", "generic_csv", "credit_card", "custom"]);
    assert!(builtin("cc").is_some());
    assert!(builtin("generic").is_some());
    assert!(builtin("nope").is_none());
}

#[test]
fn sample_id() {
    assert_eq!(sample_adapter().id(), "generic_csv");
}

fn opts() -> ConvertOptions {
    ConvertOptions {
        bank_account: AccountId::new("assets:bank:checking").unwrap(),
        expense_account: AccountId::new("expenses:uncategorized").unwrap(),
        income_account: AccountId::new("income:uncategorized").unwrap(),
        default_commodity: Commodity::new("USD").unwrap(),
        import_batch_id: ImportBatchId::new(),
    }
}

fn amazon_raw() -> RawTransactions {
    RawTransactions {
        adapter_id: "generic_csv".into(),
        transactions: vec![RawTransaction {
            row_number: 2,
            date_raw: "2026-01-02".into(),
            amount_raw: "-42.15".into(),
            currency_raw: Some("USD".into()),
            description_raw: "AMZN MKTP US*ABC123".into(),
            balance_raw: None,
            source_refs: vec!["generic:row:2".into()],
        }],
    }
}

#[test]
fn withdrawal_hits_expense_offset() {
    let report = convert_raw(&amazon_raw(), &opts());
    assert!(report.errors.is_empty());
    assert_eq!(report.transactions.len(), 1);
    let tx = &report.transactions[0];
    assert_eq!(tx.postings[0].account.as_str(), "assets:bank:checking");
    assert_eq!(tx.postings[0].amount.to_string(), "-42.15");
    assert_eq!(tx.postings[1].account.as_str(), "expenses:uncategorized");
    assert_eq!(tx.narration.as_deref(), Some("amzn_mktp_us"));
    assert!(tx.row_fingerprint.as_ref().unwrap().starts_with("v1|"));
}

#[test]
fn same_row_yields_same_id_across_batches() {
    let a = convert_raw(&amazon_raw(), &opts());
    let b = convert_raw(&amazon_raw(), &opts());
    assert_eq!(a.transactions[0].id, b.transactions[0].id);
    assert_eq!(a.transactions[0].row_fingerprint, b.transactions[0].row_fingerprint);
    assert_ne!(a.transactions[0].import_batch_id, b.transactions[0].import_batch_id);
}

#[test]
fn distinct_source_refs_get_distinct_ids() {
    let mut raw = amazon_raw();
    raw.transactions[0].source_refs = vec!["generic:row:9".into()];
    let a = convert_raw(&amazon_raw(), &opts());
    let b = convert_raw(&raw, &opts());
    assert_ne!(a.transactions[0].id, b.transactions[0].id);
}

#[test]
fn bad_date_is_reported_not_dropped_silently() {
    let raw = RawTransactions {
        adapter_id: "generic_csv".into(),
        transactions: vec![RawTransaction {
            row_number: 3,
            date_raw: "not-a-date".into(),
            amount_raw: "10".into(),
            currency_raw: None,
            description_raw: "x".into(),
            balance_raw: None,
            source_refs: vec![],
        }],
    };
    let report = convert_raw(
        &raw,
        &ConvertOptions {
            bank_account: AccountId::new("assets:bank").unwrap(),
            expense_account: AccountId::new("expenses:uncategorized").unwrap(),
            income_account: AccountId::new("income:uncategorized").unwrap(),
            default_commodity: Commodity::new("INR").unwrap(),
            import_batch_id: ImportBatchId::new(),
        },
    );
    assert_eq!(report.transactions.len(), 0);
    assert_eq!(report.errors.len(), 1);
    assert_eq!(report.row_outcomes.len(), 1);
    assert!(report.row_outcomes[0].is_err());
    assert_eq!(report.errors[0], "row 3: unparseable date \"not-a-date\"");
}

#[test]
fn fingerprint_text_has_sorted_refs() {
    let fp = ledgerkit::convert::row_fingerprint(
        "generic_csv",
        "assets:bank",
        Date::from_ymd_opt(2026, 1, 2).unwrap(),
        ledgerkit::money::Amount::parse("-42.150").unwrap(),
        &Commodity::new("usd").unwrap(),
        &vec!["b".to_string(), "a".to_string()],
        "amzn",
    );
    assert_eq!(fp, "v1|generic_csv|assets:bank|2026-01-02|-42.15|USD|a\u{1f}b|amzn");
}

#[test]
fn iso_and_dmy() {
    assert_eq!(parse_date("2026-03-01").unwrap(), Date::from_ymd_opt(2026, 3, 1).unwrap());
    assert_eq!(parse_date("01/02/26").unwrap(), Date::from_ymd_opt(2026, 2, 1).unwrap());
}

#[test]
fn unparseable_date_keeps_raw_text() {
    let e = parse_date(" nope ").unwrap_err();
    assert_eq!(e.raw, " nope ");
    assert_eq!(e.message(), "unparseable date \" nope \"");
}

#[test]
fn cleans_amazon_marketplace_noise() {
    let n = normalize_merchant("AMZN MKTP US*ABC123");
    assert_eq!(n.canonical_key, "amzn_mktp_us");
    assert!(n.confidence >= 80);
}

#[test]
fn normalize_records_its_steps() {
    let n = normalize_merchant("  netflix   com  ");
    assert_eq!(n.display_name, "NETFLIX COM");
    assert_eq!(n.canonical_key, "netflix_com");
    assert_eq!(
        n.reasons,
        vec!["trim+uppercase".to_string(), "collapse_whitespace".to_string(), "alnum_underscore_key".to_string()]
    );
}

fn generic_csv(n: usize) -> String {
    let mut out = String::from("Date,Description,Amount,Currency\n");
    for i in 0..n {
        let day = (i % 28) + 1;
        out.push_str(&format!("2026-01-{day:02},MERCHANT {i},-{}.{:02},USD\n", 1 + (i % 90), i % 100));
    }
    out
}

#[test]
fn import_1k_rows_parses_and_converts() {
    let csv = generic_csv(1_000);
    let (raw, report) = GenericCsvAdapter.parse(csv.as_bytes()).unwrap();
    assert_eq!(report.error_rows, 0);
    assert_eq!(raw.transactions.len(), 1_000);
    let converted = convert_raw(
        &raw,
        &ConvertOptions {
            bank_account: AccountId::new("assets:bank").unwrap(),
            expense_account: AccountId::new("expenses:uncategorized").unwrap(),
            income_account: AccountId::new("income:uncategorized").unwrap(),
            default_commodity: Commodity::new("USD").unwrap(),
            import_batch_id: ImportBatchId::new(),
        },
    );
    assert!(converted.errors.is_empty());
    assert_eq!(converted.transactions.len(), 1_000);
}

#[test]
fn statement_rows_record_every_row_and_every_unreadable_record() {
    let csv = b"Date,Description,Amount\n2026-01-02,Good row,10.00\n13/13/2026,Odd date,5.00\n2026-01-04,No amount,\n";
    let (raw, report) = GenericCsvAdapter.parse(csv).unwrap();
    assert_eq!((raw.transactions.len(), report.errors.len()), (2, 1));
    let converted = convert_raw(&raw, &opts());
    let specs = statement_row_specs(&raw, &converted, &report);
    assert_eq!(specs.len(), 3);

    assert_eq!(specs[0].row_number, 2);
    assert_eq!(specs[0].parse_status, "ok");
    assert_eq!(specs[0].error, None);
    assert_eq!(specs[0].transaction_id, Some(converted.transactions[0].id));
    assert_eq!(specs[0].fingerprint, converted.transactions[0].row_fingerprint);
    assert_eq!(specs[0].date_raw.as_deref(), Some("2026-01-02"));
    assert_eq!(specs[0].amount_raw.as_deref(), Some("10.00"));

    assert_eq!(specs[1].row_number, 3);
    assert_eq!(specs[1].parse_status, "convert_error");
    assert_eq!(specs[1].error.as_deref(), Some("unparseable date \"13/13/2026\""));
    assert_eq!(specs[1].transaction_id, None);

    assert_eq!(specs[2].row_number, 0);
    assert_eq!(specs[2].parse_status, "parse_error");
    assert_eq!(specs[2].error, Some(report.errors[0].clone()));
    assert!(specs[2].date_raw.is_none() && specs[2].source_refs.is_empty());
}

#[test]
fn builtin_adapters_report_their_names_and_parse_as_themselves() {
    let hdfc = builtin("hdfc").unwrap();
    assert_eq!((hdfc.id(), hdfc.name()), ("hdfc", "HDFC Bank CSV"));
    let cc = builtin("cc").unwrap();
    assert_eq!((cc.id(), cc.name()), ("credit_card", "Credit Card CSV"));
    let (raw, report) = builtin("generic").unwrap().parse(GENERIC_SAMPLE.as_bytes()).unwrap();
    assert_eq!((raw.adapter_id.as_str(), raw.transactions.len(), report.error_rows), ("generic_csv", 4, 0));
    let (raw, _) = cc.parse(CC_SAMPLE.as_bytes()).unwrap();
    assert_eq!(raw.transactions.len(), 3);
}
