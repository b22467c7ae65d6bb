use ledgerkit::account::{account_type_str, parse_account_type, AccountType};
use ledgerkit::cli;
use ledgerkit::date::Date;
use ledgerkit::event::{event_kind_str, parse_event_kind, EventKind};
use ledgerkit::hash::ContentHash;
use ledgerkit::ids::{CategoryId, ImportBatchId, MerchantId, TransactionId};
use ledgerkit::money::Amount;

const ALL_TYPES: [AccountType; 5] =
    [AccountType::Asset, AccountType::Liability, AccountType::Equity, AccountType::Income, AccountType::Expense];

#[test]
fn stored_account_types_round_trip() {
    for t in ALL_TYPES {
        assert_eq!(parse_account_type(account_type_str(t)), Ok(t));
    }
    assert_eq!(parse_account_type("Asset"), Err("unknown account type: Asset".to_string()));
}

#[test]
fn command_line_account_types_ignore_case_and_plurals() {
    assert_eq!(cli::parse_account_type("Assets"), Ok(AccountType::Asset));
    assert_eq!(cli::parse_account_type("LIABILITIES"), Ok(AccountType::Liability));
    assert_eq!(cli::parse_account_type("expenses"), Ok(AccountType::Expense));
    assert_eq!(
        cli::parse_account_type("Bogus"),
        Err("unknown account type 'bogus' (asset|liability|equity|income|expense)".to_string())
    );
}

#[test]
fn event_kinds_round_trip() {
    let kinds = [
        EventKind::AccountUpserted,
        EventKind::Posted,
        EventKind::Imported,
        EventKind::Normalized,
        EventKind::Deduped,
        EventKind::Categorized,
        EventKind::Reconciled,
        EventKind::ManualEdit,
    ];
    for k in kinds {
        assert_eq!(parse_event_kind(event_kind_str(k)), Ok(k));
    }
    assert_eq!(event_kind_str(EventKind::ManualEdit), "manual_edit");
    assert_eq!(parse_event_kind("Posted"), Err("unknown event kind: Posted".to_string()));
}

#[test]
fn transaction_ids_print_and_parse_back() {
    let id = TransactionId::from_uuid(0x0123_4567_89ab_cdef_0123_4567_89ab_cdef);
    assert_eq!(id.to_string(), "01234567-89ab-cdef-0123-456789abcdef");
    assert_eq!(TransactionId::parse("  01234567-89ab-cdef-0123-456789abcdef ").unwrap(), id);
    assert!(TransactionId::parse("not-a-uuid").is_err());
}

#[test]
fn sha256_of_abc_is_the_standard_digest() {
    assert_eq!(
        ContentHash::sha256_str("abc").as_str(),
        "ba7816bf8f01cfea414140de5dae2223b00361a396177a9cb410ff61f20015ad"
    );
}

#[test]
fn dates_follow_the_calendar() {
    assert!(Date::from_ymd_opt(2024, 2, 29).is_some());
    assert!(Date::from_ymd_opt(2023, 2, 29).is_none());
    assert!(Date::from_ymd_opt(2024, 13, 1).is_none());
    let a = Date::from_ymd_opt(2024, 3, 1).unwrap();
    let b = Date::from_ymd_opt(2024, 2, 28).unwrap();
    assert_eq!(a.days_since(b), 2);
    assert_eq!(b.days_since(a), -2);
    assert_eq!(Date::from_ymd_opt(2024, 2, 29).unwrap().to_string(), "2024-02-29");
    assert_eq!(Date::from_ymd_opt(10000, 1, 1).unwrap().to_string(), "+10000-01-01");
    assert_eq!(Date::parse_from_str("2024-02-29", "%Y-%m-%d"), Date::from_ymd_opt(2024, 2, 29));
    assert!(Date::parse_from_str("2023-02-29", "%Y-%m-%d").is_none());
}

#[test]
fn canonical_amount_strings_drop_trailing_zeros() {
    let a = Amount::parse("42.150").unwrap();
    assert_eq!(a.to_string(), "42.150");
    assert_eq!(a.canonical_string(), "42.15");
    assert_eq!(Amount::parse("1,200.00").unwrap().canonical_string(), "1200");
    assert_eq!(Amount::parse("42.15").unwrap().canonical_string(), a.canonical_string());
    assert_eq!(Amount::parse("-0.00").unwrap().canonical_string(), Amount::zero().canonical_string());
}

#[test]
fn workspace_paths_and_checks() {
    assert_eq!(cli::db_path("ws"), "ws/ledger.sqlite");
    assert_eq!(cli::db_path("ws/"), "ws/ledger.sqlite");
    assert_eq!(cli::ensure_workspace("ws", true), Ok(()));
    assert_eq!(
        cli::ensure_workspace("ws", false),
        Err("no LedgerKit workspace at ws — run `ledgerkit init` first".to_string())
    );
}

#[test]
fn postings_parse_from_the_command_line_form() {
    let p = cli::parse_posting("assets:bank=-12.50:INR").unwrap();
    assert_eq!(p.account.as_str(), "assets:bank");
    assert_eq!(p.amount.to_string(), "-12.50");
    assert_eq!(p.commodity.as_str(), "INR");
    assert_eq!(
        cli::parse_posting("nonsense").unwrap_err(),
        "invalid posting 'nonsense' (want account=amount:commodity)"
    );
}

#[test]
fn fresh_ids_are_version_7_uuids() {
    for v in [TransactionId::new().0, MerchantId::new().0, CategoryId::new().0, ImportBatchId::new().0] {
        assert_eq!((v >> 76) & 0xf, 7);
        assert_eq!((v >> 62) & 0x3, 2);
    }
}

#[test]
fn content_hashes_are_64_hex_characters() {
    let a = ContentHash::sha256_str("ledgerkit");
    let b = ContentHash::sha256_str("ledgerkit");
    assert_eq!(a.as_str(), b.as_str());
    assert_eq!(a.as_str().len(), 64);
    assert_eq!(a.to_string(), a.as_str());
    assert_eq!(
        ContentHash::sha256_str("").as_str(),
        "e3b0c44298fc1c149afbf4c8996fb92427ae41e4649b934ca495991b7852b855"
    );
    assert_eq!(ContentHash::sha256_bytes(b"abc").as_str(), ContentHash::sha256_str("abc").as_str());
}
