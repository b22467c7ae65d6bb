use ledgerkit::account::AccountId;
use ledgerkit::date::Date;
use ledgerkit::dedupe::{plan_dedupe, DedupeOptions};
use ledgerkit::eval::{count_dedup_cases, count_rule_cases, DedupEvalCase, RuleEvalCase};
use ledgerkit::money::{Amount, Commodity};
use ledgerkit::posting::Posting;
use ledgerkit::rules::{apply_rules, default_confidence, Rule, RuleSet};
use ledgerkit::transaction::Transaction;

fn tx(date: &str, payee: &str, amt: &str) -> Transaction {
    let d = Date::parse_from_str(date, "%Y-%m-%d").unwrap();
    let a = Amount::parse(amt).unwrap();
    Transaction::new(
        d,
        payee,
        vec![
            Posting::new(AccountId::new("assets:bank").unwrap(), a, Commodity::new("USD").unwrap()),
            Posting::new(
                AccountId::new("expenses:uncategorized").unwrap(),
                a.checked_neg().unwrap(),
                Commodity::new("USD").unwrap(),
            ),
        ],
    )
    .unwrap()
}

#[test]
fn exact_duplicate_amazon_spellings() {
    let a = tx("2026-01-02", "AMZN MKTP US*ABC123", "-42.15");
    let b = tx("2026-01-02", "Amazon Marketplace", "-42.15");
    let report = plan_dedupe(&vec![a, b], DedupeOptions { window_days: 1 });
    assert!(report.links.is_empty(), "conservative: different merchant keys must not auto-merge");
}

#[test]
fn exact_same_fingerprint_links() {
    let a = tx("2026-01-02", "STARBUCKS", "-6.50");
    let b = tx("2026-01-02", "STARBUCKS", "-6.50");
    let report = plan_dedupe(&vec![a, b], DedupeOptions::default());
    assert_eq!(report.links.len(), 1);
    assert_eq!(report.links[0].strategy, "exact");
}

#[test]
fn near_window_same_merchant() {
    let a = tx("2026-01-02", "NETFLIX.COM", "-15.99");
    let b = tx("2026-01-03", "NETFLIX.COM", "-15.99");
    let report = plan_dedupe(&vec![a, b], DedupeOptions { window_days: 1 });
    assert_eq!(report.links.len(), 1);
    assert_eq!(report.links[0].strategy, "near_window");
}

#[test]
fn exact_survivor_is_the_earliest_and_links_are_not_deletions() {
    let a = tx("2026-01-02", "STARBUCKS", "-6.50");
    let b = tx("2026-01-02", "STARBUCKS", "-6.50");
    let c = tx("2026-01-02", "STARBUCKS", "-6.50");
    let (ia, ib, ic) = (a.id, b.id, c.id);
    let mut ids = vec![ia, ib, ic];
    ids.sort_by_key(|i| i.to_string());
    let txs = vec![a, b, c];
    let report = plan_dedupe(&txs, DedupeOptions::default());
    assert_eq!(txs.len(), 3);
    assert_eq!(report.links.len(), 2);
    assert!(report.links.iter().all(|l| l.survivor_id == ids[0]));
    assert!(report.links.iter().all(|l| l.confidence == 100));
}

#[test]
fn already_linked_are_counted_and_skipped() {
    let a = tx("2026-01-02", "STARBUCKS", "-6.50");
    let mut b = tx("2026-01-02", "STARBUCKS", "-6.50");
    b.duplicate_of = Some(a.id);
    let report = plan_dedupe(&vec![a, b], DedupeOptions::default());
    assert_eq!(report.skipped_already_linked, 1);
    assert!(report.links.is_empty());
}

#[test]
fn negative_window_disables_near_matches() {
    let a = tx("2026-01-02", "NETFLIX.COM", "-15.99");
    let b = tx("2026-01-03", "NETFLIX.COM", "-15.99");
    let report = plan_dedupe(&vec![a, b], DedupeOptions { window_days: -1 });
    assert!(report.links.is_empty());
}

fn rule(id: &str, priority: i32, category: &str) -> Rule {
    Rule {
        id: id.into(),
        priority,
        category: category.into(),
        merchant_regex: None,
        payee_regex: None,
        account_regex: None,
        min_amount: None,
        max_amount: None,
        confidence: default_confidence(),
    }
}

#[test]
fn amazon_rule_applies() {
    let mut r = rule("amazon", 10, "expenses:shopping");
    r.merchant_regex = Some("(?i)amzn|amazon".into());
    let set = RuleSet { rules: vec![r] };
    let t = tx("2026-01-02", "AMZN MKTP US*ABC", "-42.15");
    let report = apply_rules(&vec![t], &set);
    assert_eq!(report.applied.len(), 1);
    assert_eq!(report.applied[0].category, "expenses:shopping");
    assert!(report.conflicts.is_empty());
}

#[test]
fn same_priority_conflict_is_reported() {
    let mut a = rule("a", 5, "expenses:a");
    a.payee_regex = Some("FOO".into());
    let mut b = rule("b", 5, "expenses:b");
    b.payee_regex = Some("FOO".into());
    let set = RuleSet { rules: vec![a, b] };
    let report = apply_rules(&vec![tx("2026-01-02", "FOO BAR", "-1")], &set);
    assert!(report.applied.is_empty());
    assert_eq!(report.conflicts.len(), 1);
}

#[test]
fn higher_priority_wins_and_amount_bounds_apply() {
    let mut low = rule("low", 1, "expenses:low");
    low.payee_regex = Some("SHOP".into());
    let mut high = rule("high", 9, "expenses:high");
    high.payee_regex = Some("SHOP".into());
    high.min_amount = Some("5".into());
    high.max_amount = Some("50".into());
    let set = RuleSet { rules: vec![low, high] };
    let report = apply_rules(&vec![tx("2026-01-02", "SHOP", "-10")], &set);
    assert_eq!(report.applied.len(), 1);
    assert_eq!(report.applied[0].rule_id, "high");
    assert_eq!(report.applied[0].reasons, vec!["payee_regex=SHOP".to_string(), "min_amount=5".to_string(), "max_amount=50".to_string()]);
    let report = apply_rules(&vec![tx("2026-01-02", "SHOP", "-100")], &set);
    assert_eq!(report.applied[0].rule_id, "low");
}

#[test]
fn rules_skip_categorized_and_count_unmatched() {
    let mut r = rule("x", 1, "expenses:x");
    r.payee_regex = Some("NOPE".into());
    let set = RuleSet { rules: vec![r, rule("empty", 1, "expenses:y")] };
    let mut tagged = tx("2026-01-02", "SHOP", "-1");
    tagged.tags.push("category:expenses:z".into());
    let report = apply_rules(&vec![tagged, tx("2026-01-02", "SHOP", "-1")], &set);
    assert_eq!(report.skipped_already_categorized, 1);
    assert_eq!(report.unmatched, 1);
    assert!(report.applied.is_empty());
}

#[test]
fn merchant_pattern_sees_the_lowercased_payee() {
    let t = tx("2026-01-05", "AMAZON MKTP", "-10.00");
    let mut r = rule("lower", 1, "shopping");
    r.merchant_regex = Some("^amazon".into());
    let report = apply_rules(&vec![t], &RuleSet { rules: vec![r] });
    assert_eq!(report.applied.len(), 1);
    assert_eq!(report.applied[0].reasons, vec!["merchant_regex=^amazon".to_string()]);
}

fn dcase(a: &str, b: &str, same_date: bool, same_amount: bool, should_link: bool) -> DedupEvalCase {
    DedupEvalCase { payee_a: a.into(), payee_b: b.into(), same_date, same_amount, should_link }
}

#[test]
fn dedup_cases_are_counted_by_outcome() {
    let cases = vec![
        dcase("STARBUCKS", "STARBUCKS", true, true, true),
        dcase("NETFLIX.COM", "NETFLIX.COM", false, true, true),
        dcase("STARBUCKS", "STARBUCKS", true, false, true),
        dcase("AMZN MKTP US*ABC123", "Amazon Marketplace", true, true, false),
        dcase("UBER", "UBER", true, true, false),
    ];
    let c = count_dedup_cases(&cases, DedupeOptions { window_days: 1 });
    assert_eq!((c.true_positive, c.false_positive, c.false_negative), (2, 1, 1));
    let c0 = count_dedup_cases(&cases, DedupeOptions { window_days: 0 });
    assert_eq!((c0.true_positive, c0.false_positive, c0.false_negative), (1, 1, 2));
}

#[test]
fn rule_cases_are_counted_by_category() {
    let mut r = rule("amazon", 10, "expenses:shopping");
    r.merchant_regex = Some("(?i)amzn|amazon".into());
    let set = RuleSet { rules: vec![r] };
    let case = |payee: &str, amount: &str, expected: Option<&str>| RuleEvalCase {
        payee: payee.into(),
        amount: amount.into(),
        expected_category: expected.map(String::from),
    };
    let cases = vec![
        case("AMZN MKTP US*ABC", "-42.15", Some("expenses:shopping")),
        case("Amazon Prime", "-9.99", Some("expenses:subscriptions")),
        case("STARBUCKS", "-6.50", Some("expenses:coffee")),
        case("UBER", "-12.00", None),
    ];
    let c = count_rule_cases(&cases, &set).unwrap();
    assert_eq!((c.true_positive, c.false_positive, c.false_negative), (1, 1, 1));
    let bad = vec![case("STARBUCKS", "six fifty", None)];
    assert!(count_rule_cases(&bad, &set).is_none());
}

#[test]
fn labeled_eval_has_perfect_precision_on_fixture() {
    let cases = vec![
        dcase("STARBUCKS", "STARBUCKS", true, true, true),
        dcase("STARBUCKS", "UBER", true, true, false),
    ];
    let m = count_dedup_cases(&cases, DedupeOptions::default());
    let (tp, fp, fn_) = (m.true_positive, m.false_positive, m.false_negative);
    let precision = if tp + fp == 0 { 1.0 } else { tp as f64 / (tp + fp) as f64 };
    let recall = if tp + fn_ == 0 { 1.0 } else { tp as f64 / (tp + fn_) as f64 };
    assert_eq!(fp, 0);
    assert!(precision >= 0.99);
    assert!(recall >= 0.99);
}

#[test]
fn near_links_never_point_at_a_duplicate() {
    let a = tx("2026-01-02", "NETFLIX.COM", "-15.99");
    let b = tx("2026-01-03", "NETFLIX.COM", "-15.99");
    let c = tx("2026-01-04", "NETFLIX.COM", "-15.99");
    let (ia, ib) = (a.id, b.id);
    let report = plan_dedupe(&vec![a, b, c], DedupeOptions { window_days: 1 });
    assert_eq!(report.links.len(), 1);
    assert_eq!((report.links[0].duplicate_id, report.links[0].survivor_id), (ib, ia));
    for l in &report.links {
        assert!(report.links.iter().all(|m| m.duplicate_id != l.survivor_id));
    }
}

#[test]
fn links_pair_strategy_with_confidence_and_never_repeat_a_duplicate() {
    let a = tx("2026-01-02", "STARBUCKS", "-6.50");
    let b = tx("2026-01-02", "STARBUCKS", "-6.50");
    let c = tx("2026-01-02", "STARBUCKS", "-6.50");
    let d = tx("2026-01-05", "NETFLIX.COM", "-15.99");
    let e = tx("2026-01-06", "NETFLIX.COM", "-15.99");
    let report = plan_dedupe(&vec![a, b, c, d, e], DedupeOptions::default());
    assert_eq!(report.links.len(), 3);
    for l in &report.links {
        assert_ne!(l.duplicate_id, l.survivor_id);
        match l.strategy.as_str() {
            "exact" => assert_eq!(l.confidence, 100),
            "near_window" => assert_eq!(l.confidence, 85),
            other => panic!("unexpected strategy {other}"),
        }
        assert_eq!(report.links.iter().filter(|m| m.duplicate_id == l.duplicate_id).count(), 1);
    }
}
