//! Labelled evaluation cases, the confusion counts they are scored by, and the
//! scoring of the duplicate planner and of a rule set against them.
use vstd::prelude::*;

use crate::account::{account_char_ok, account_name, account_name_ok, colon_pair, has_double_colon, AccountId};
use crate::date::Date;
use crate::dedupe::{fingers, plan, plan_dedupe, DedupeOptions};
use crate::ids::TransactionId;
use crate::money::{amount_cleaned, commodity_code_ok, decimal_parse, dec_negated, Amount, Commodity, DecimalValue};
use crate::posting::{opt_str, postings_view, Posting, PostingView};
use crate::rules::{apply_rules, report_of, rules_view, RuleSet, RuleView};
use crate::snapshot::txs_view;
use crate::text::{
    all_ascii, ascii_lower, ascii_lower_char, ascii_upper, is_ws, nat_str, nat_str_u128, push_chars, string_of,
    trim, trim_end, trim_start,
};
use crate::transaction::{Transaction, TxView};
use crate::verify::{lemma_pair_fits, lemma_transfer_balanced};

verus! {

/// A labelled pair of payees that should (or should not) be linked as duplicates.
#[derive(Clone, Debug)]
pub struct DedupEvalCase {
    pub payee_a: String,
    pub payee_b: String,
    pub same_date: bool,
    pub same_amount: bool,
    pub should_link: bool,
}

pub struct DedupCaseView {
    pub payee_a: Seq<char>,
    pub payee_b: Seq<char>,
    pub same_date: bool,
    pub same_amount: bool,
    pub should_link: bool,
}

impl View for DedupEvalCase {
    type V = DedupCaseView;

    open spec fn view(&self) -> DedupCaseView {
        DedupCaseView {
            payee_a: self.payee_a@,
            payee_b: self.payee_b@,
            same_date: self.same_date,
            same_amount: self.same_amount,
            should_link: self.should_link,
        }
    }
}

pub open spec fn dedup_cases_view(v: Seq<DedupEvalCase>) -> Seq<DedupCaseView> {
    v.map_values(|c: DedupEvalCase| c@)
}

/// A labelled payee and amount with the category a rule set should give it.
#[derive(Clone, Debug)]
pub struct RuleEvalCase {
    pub payee: String,
    pub amount: String,
    pub expected_category: Option<String>,
}

pub struct RuleCaseView {
    pub payee: Seq<char>,
    pub amount: Seq<char>,
    pub expected_category: Option<Seq<char>>,
}

impl View for RuleEvalCase {
    type V = RuleCaseView;

    open spec fn view(&self) -> RuleCaseView {
        RuleCaseView { payee: self.payee@, amount: self.amount@, expected_category: opt_str(self.expected_category) }
    }
}

pub open spec fn rule_cases_view(v: Seq<RuleEvalCase>) -> Seq<RuleCaseView> {
    v.map_values(|c: RuleEvalCase| c@)
}

/// True positives, false positives and false negatives.
#[derive(Clone, Copy, Debug)]
pub struct EvalCounts {
    pub true_positive: usize,
    pub false_positive: usize,
    pub false_negative: usize,
}

pub open spec fn counts_of(c: EvalCounts) -> (nat, nat, nat) {
    (c.true_positive as nat, c.false_positive as nat, c.false_negative as nat)
}

/// One prediction scored against its label.
pub open spec fn score(t: (nat, nat, nat), predicted: bool, expected: bool) -> (nat, nat, nat) {
    if predicted && expected {
        (t.0 + 1, t.1, t.2)
    } else if predicted {
        (t.0, t.1 + 1, t.2)
    } else if expected {
        (t.0, t.1, t.2 + 1)
    } else {
        t
    }
}

/// One category prediction scored against its label: a wrong category is a false positive.
pub open spec fn score_category(t: (nat, nat, nat), got: Option<Seq<char>>, expected: Option<Seq<char>>) -> (nat, nat, nat) {
    match got {
        Some(g) => match expected {
            Some(e) => if g == e {
                (t.0 + 1, t.1, t.2)
            } else {
                (t.0, t.1 + 1, t.2)
            },
            None => (t.0, t.1 + 1, t.2),
        },
        None => match expected {
            Some(_) => (t.0, t.1, t.2 + 1),
            None => t,
        },
    }
}

impl EvalCounts {
    pub fn new() -> (r: EvalCounts)
        ensures
            counts_of(r) == (0nat, 0nat, 0nat),
    {
        EvalCounts { true_positive: 0, false_positive: 0, false_negative: 0 }
    }

    /// Scores one prediction against its label.
    pub fn record(&mut self, predicted: bool, expected: bool)
        requires
            old(self).true_positive + old(self).false_positive + old(self).false_negative < usize::MAX,
        ensures
            counts_of(*final(self)) == score(counts_of(*old(self)), predicted, expected),
    {
        if predicted && expected {
            self.true_positive = self.true_positive + 1;
        } else if predicted {
            self.false_positive = self.false_positive + 1;
        } else if expected {
            self.false_negative = self.false_negative + 1;
        }
    }

    /// Scores a category prediction: a wrong category is a false positive.
    pub fn record_category(&mut self, got: Option<&str>, expected: Option<&str>)
        requires
            old(self).true_positive + old(self).false_positive + old(self).false_negative < usize::MAX,
        ensures
            counts_of(*final(self)) == score_category(counts_of(*old(self)), opt_view(got), opt_view(expected)),
    {
        match (got, expected) {
            (Some(g), Some(e)) => {
                if crate::text::str_eq(g, e) {
                    self.true_positive = self.true_positive + 1;
                } else {
                    self.false_positive = self.false_positive + 1;
                }
            },
            (Some(_), None) => {
                self.false_positive = self.false_positive + 1;
            },
            (None, Some(_)) => {
                self.false_negative = self.false_negative + 1;
            },
            (None, None) => {},
        }
    }
}

pub open spec fn opt_view(o: Option<&str>) -> Option<Seq<char>> {
    match o {
        Some(s) => Some(s@),
        None => None,
    }
}

/// The postings of a synthetic case transaction: `amount` on `assets:bank`
/// (carrying `memo`) and its negation on `expenses:uncategorized`, both in USD.
pub open spec fn case_postings(amount: DecimalValue, memo: Option<Seq<char>>) -> Seq<PostingView> {
    seq![
        PostingView { account: "assets:bank"@, amount: amount, commodity: "USD"@, memo: memo },
        PostingView {
            account: "expenses:uncategorized"@,
            amount: dec_negated(amount),
            commodity: "USD"@,
            memo: None,
        },
    ]
}

/// A freshly built transaction with the given id, date, payee and postings.
pub open spec fn case_tx(id: TransactionId, date: Date, payee: Seq<char>, postings: Seq<PostingView>) -> TxView {
    TxView {
        id,
        date,
        payee,
        merchant_id: None,
        narration: None,
        postings,
        import_batch_id: None,
        duplicate_of: None,
        tags: Seq::empty(),
        row_fingerprint: None,
    }
}

/// `units` hundredths.
pub open spec fn cents(units: nat) -> DecimalValue {
    DecimalValue { neg: false, units, scale: 2 }
}

/// The memo that keeps the two sides of case `i` apart (`a0`, `b0`, `a1`, ...).
pub open spec fn salt(tag: char, i: int) -> Seq<char> {
    seq![tag] + nat_str(i as nat)
}

pub open spec fn is_ymd(d: Date, y: int, m: int, day: int) -> bool {
    d.y() == y && d.m() == m && d.d() == day
}

/// Whether the planner links the pair built for case `i`: 12.00 on `day`
/// against 12.00 (or 12.01) on the same day (or `next_day`), the two
/// transactions having the ids `ids`.
pub open spec fn pair_linked(c: DedupCaseView, i: int, ids: (TransactionId, TransactionId), day: Date, next_day: Date, window: int) -> bool {
    let a = case_tx(ids.0, day, c.payee_a, case_postings(cents(1200), Some(salt('a', i))));
    let b = case_tx(
        ids.1,
        if c.same_date {
            day
        } else {
            next_day
        },
        c.payee_b,
        case_postings(
            if c.same_amount {
                cents(1200)
            } else {
                cents(1201)
            },
            Some(salt('b', i)),
        ),
    );
    plan(fingers(seq![a, b], ), window).links.len() > 0
}

/// The counts after scoring the planner on each case in turn.
pub open spec fn dedup_tally(cases: Seq<DedupCaseView>, ids: Seq<(TransactionId, TransactionId)>, day: Date, next_day: Date, window: int) -> (nat, nat, nat)
    decreases cases.len(),
{
    if cases.len() == 0 {
        (0, 0, 0)
    } else {
        let k = cases.len() - 1;
        score(
            dedup_tally(cases.drop_last(), ids, day, next_day, window),
            pair_linked(cases[k], k, ids[k], day, next_day, window),
            cases[k].should_link,
        )
    }
}

pub open spec fn amount_parses(c: RuleCaseView) -> bool {
    decimal_parse(amount_cleaned(c.amount)) is Ok
}

/// The category the rule set gives a lone transaction, if it applies one.
pub open spec fn first_category(t: TxView, rules: Seq<RuleView>) -> Option<Seq<char>> {
    let applied = report_of(seq![t], rules).applied;
    if applied.len() > 0 {
        Some(applied[0].category)
    } else {
        None
    }
}

/// The counts after scoring the rule set on each case in turn; case `k` is a
/// transaction on `day` with the id `ids[k]`.
pub open spec fn rule_tally(cases: Seq<RuleCaseView>, rules: Seq<RuleView>, ids: Seq<TransactionId>, day: Date) -> (nat, nat, nat)
    decreases cases.len(),
{
    if cases.len() == 0 {
        (0, 0, 0)
    } else {
        let k = cases.len() - 1;
        let c = cases[k];
        let t = case_tx(ids[k], day, c.payee, case_postings(decimal_parse(amount_cleaned(c.amount))->Ok_0, None));
        score_category(rule_tally(cases.drop_last(), rules, ids, day), first_category(t, rules), c.expected_category)
    }
}

proof fn lemma_dedup_tally_ids(cases: Seq<DedupCaseView>, ids1: Seq<(TransactionId, TransactionId)>, ids2: Seq<(TransactionId, TransactionId)>, day: Date, next_day: Date, window: int)
    requires
        forall|k: int| 0 <= k < cases.len() ==> ids1[k] == ids2[k],
    ensures
        dedup_tally(cases, ids1, day, next_day, window) == dedup_tally(cases, ids2, day, next_day, window),
    decreases cases.len(),
{
    if cases.len() > 0 {
        lemma_dedup_tally_ids(cases.drop_last(), ids1, ids2, day, next_day, window);
        assert(ids1[cases.len() - 1] == ids2[cases.len() - 1]);
    }
}

proof fn lemma_rule_tally_ids(cases: Seq<RuleCaseView>, rules: Seq<RuleView>, ids1: Seq<TransactionId>, ids2: Seq<TransactionId>, day: Date)
    requires
        forall|k: int| 0 <= k < cases.len() ==> ids1[k] == ids2[k],
    ensures
        rule_tally(cases, rules, ids1, day) == rule_tally(cases, rules, ids2, day),
    decreases cases.len(),
{
    if cases.len() > 0 {
        lemma_rule_tally_ids(cases.drop_last(), rules, ids1, ids2, day);
        assert(ids1[cases.len() - 1] == ids2[cases.len() - 1]);
    }
}

/// Lower-case ASCII letters only.
pub open spec fn lower_word(w: Seq<char>) -> bool
    decreases w.len(),
{
    w.len() == 0 || ('a' <= w[0] && w[0] <= 'z' && lower_word(w.drop_first()))
}

proof fn lemma_lower_word(w: Seq<char>)
    requires
        lower_word(w),
    ensures
        forall|i: int| 0 <= i < w.len() ==> 'a' <= #[trigger] w[i] && w[i] <= 'z',
    decreases w.len(),
{
    if w.len() > 0 {
        lemma_lower_word(w.drop_first());
        assert forall|i: int| 0 <= i < w.len() implies 'a' <= #[trigger] w[i] && w[i] <= 'z' by {
            if i > 0 {
                assert(w[i] == w.drop_first()[i - 1]);
            }
        }
    }
}

/// Two lower-case words joined by `:` name an account as they stand.
proof fn lemma_two_word_name(w1: Seq<char>, w2: Seq<char>)
    requires
        w1.len() > 0,
        w2.len() > 0,
        lower_word(w1),
        lower_word(w2),
    ensures
        account_name(w1 + seq![':'] + w2) == w1 + seq![':'] + w2,
        account_name_ok(w1 + seq![':'] + w2),
{
    lemma_lower_word(w1);
    lemma_lower_word(w2);
    let n = w1 + seq![':'] + w2;
    let k = w1.len() as int;
    assert forall|i: int| 0 <= i < n.len() implies (#[trigger] n[i] == ':' <==> i == k) && account_char_ok(n[i])
        && ascii_lower_char(n[i]) == n[i] && !is_ws(n[i]) by {
        if i < k {
            assert(n[i] == w1[i]);
        } else if i > k {
            assert(n[i] == w2[i - k - 1]);
        }
    }
    assert(trim_start(n) == n);
    assert(trim_end(n) == n);
    assert(ascii_lower(n) =~= n);
    if has_double_colon(n) {
        let i = choose|i: int| 0 <= i < n.len() - 1 && #[trigger] colon_pair(n, i);
        assert(n[i] == ':' && n[i + 1] == ':');
    }
}

/// The names the synthetic case transactions use are well formed as written.
proof fn lemma_case_names()
    ensures
        account_name("assets:bank"@) == "assets:bank"@,
        account_name_ok("assets:bank"@),
        account_name("expenses:uncategorized"@) == "expenses:uncategorized"@,
        account_name_ok("expenses:uncategorized"@),
        all_ascii(trim("USD"@)),
        ascii_upper(trim("USD"@)) == "USD"@,
        commodity_code_ok("USD"@),
{
    reveal_strlit("assets");
    reveal_strlit("bank");
    reveal_strlit("assets:bank");
    reveal_strlit("expenses");
    reveal_strlit("uncategorized");
    reveal_strlit("expenses:uncategorized");
    reveal_strlit("USD");
    reveal_with_fuel(lower_word, 14);
    assert(lower_word("assets"@));
    assert(lower_word("bank"@));
    assert(lower_word("expenses"@));
    assert(lower_word("uncategorized"@));
    assert("assets"@ + seq![':'] + "bank"@ =~= "assets:bank"@);
    assert("expenses"@ + seq![':'] + "uncategorized"@ =~= "expenses:uncategorized"@);
    lemma_two_word_name("assets"@, "bank"@);
    lemma_two_word_name("expenses"@, "uncategorized"@);
    let u = "USD"@;
    assert(trim_start(u) == u);
    assert(trim_end(u) == u);
    assert forall|i: int| 0 <= i < u.len() implies (#[trigger] u[i] as u32) < 128 && crate::text::ascii_upper_char(u[i]) == u[i] by {
        if i == 0 {
        } else if i == 1 {
        } else {
        }
    }
    assert(ascii_upper(u) =~= u);
    reveal_with_fuel(vstd::utf8::encode_utf8, 4);
    assert(u.drop_first() =~= seq!['S', 'D']);
    assert(seq!['S', 'D'].drop_first() =~= seq!['D']);
    assert(seq!['D'].drop_first() =~= Seq::<char>::empty());
    assert(vstd::utf8::encode_utf8(u).len() == 3);
}

/// The two accounts and the commodity the synthetic case transactions post to.
fn case_names() -> (r: Option<(AccountId, AccountId, Commodity)>)
    ensures
        r matches Some(n) && n.0@ == "assets:bank"@ && n.1@ == "expenses:uncategorized"@ && n.2@ == "USD"@,
{
    proof {
        lemma_case_names();
    }
    match (AccountId::new("assets:bank"), AccountId::new("expenses:uncategorized"), Commodity::new("USD")) {
        (Ok(bank), Ok(expense), Ok(usd)) => Some((bank, expense, usd)),
        _ => None,
    }
}

/// A balanced case transaction: `amount` on the bank account (with `memo`),
/// its negation on the expense account.
fn case_transaction(date: Date, payee: &str, amount: Amount, memo: Option<&str>, names: &(AccountId, AccountId, Commodity)) -> (r: Option<Transaction>)
    requires
        names.0@ == "assets:bank"@,
        names.1@ == "expenses:uncategorized"@,
        names.2@ == "USD"@,
    ensures
        r matches Some(t) && t@ == case_tx(t.id, date, payee@, case_postings(amount@, opt_view(memo))),
{
    amount.check_valid();
    let negated = match amount.checked_neg() {
        Some(x) => x,
        None => {
            return None;
        },
    };
    let plain = Posting::new(names.0.duplicate(), amount, names.2.duplicate());
    let first = match memo {
        Some(m) => plain.with_memo(m),
        None => plain,
    };
    let second = Posting::new(names.1.duplicate(), negated, names.2.duplicate());
    let mut ps: Vec<Posting> = Vec::new();
    ps.push(first);
    ps.push(second);
    let ghost pv = postings_view(ps@);
    assert(pv =~= case_postings(amount@, opt_view(memo)));
    proof {
        lemma_pair_fits(pv[0], pv[1]);
        assert(pv =~= seq![pv[0], pv[1]]);
    }
    let r = Transaction::new(date, payee, ps);
    proof {
        if r is Err {
            lemma_transfer_balanced(pv);
        }
    }
    match r {
        Ok(t) => {
            assert(t@.tags =~= Seq::<Seq<char>>::empty());
            Some(t)
        },
        Err(_) => None,
    }
}

/// The memo `tag` followed by the decimal digits of `i`.
fn salt_string(tag: char, i: usize) -> (r: String)
    ensures
        r@ == salt(tag, i as int),
{
    let mut v: Vec<char> = Vec::new();
    v.push(tag);
    let mut s = string_of(v.as_slice());
    let digits = nat_str_u128(i as u128);
    push_chars(&mut s, &digits);
    assert(s@ =~= salt(tag, i as int));
    s
}

/// Scores the duplicate planner on labelled pairs. Case `i` becomes two fresh
/// transactions: 12.00 on 2026-01-10 with payee `payee_a`, and 12.00 (or 12.01
/// when the amounts differ) on the same day (or the next) with payee
/// `payee_b`, their bank postings carrying the memos `a<i>` and `b<i>`. A link
/// between them is a positive prediction. The transactions get fresh random
/// ids; the counts are those for the ids they got.
pub fn count_dedup_cases(cases: &Vec<DedupEvalCase>, opts: DedupeOptions) -> (r: EvalCounts)
    ensures
        exists|ids: Seq<(TransactionId, TransactionId)>, day: Date, next_day: Date|
            is_ymd(day, 2026, 1, 10) && is_ymd(next_day, 2026, 1, 11) && counts_of(r) == #[trigger] dedup_tally(
                dedup_cases_view(cases@),
                ids,
                day,
                next_day,
                opts.window_days as int,
            ),
{
    let mut counts = EvalCounts::new();
    let day = match Date::from_ymd_opt(2026, 1, 10) {
        Some(d) => d,
        None => {
            return counts;
        },
    };
    let next_day = match Date::from_ymd_opt(2026, 1, 11) {
        Some(d) => d,
        None => {
            return counts;
        },
    };
    let names = match case_names() {
        Some(n) => n,
        None => {
            return counts;
        },
    };
    let ghost cv = dedup_cases_view(cases@);
    let ghost w = opts.window_days as int;
    let ghost mut ids: Seq<(TransactionId, TransactionId)> = Seq::empty();
    let mut i: usize = 0;
    assert(cv.take(0) =~= Seq::<DedupCaseView>::empty());
    while i < cases.len()
        invariant
            i <= cases.len(),
            cv == dedup_cases_view(cases@),
            w == opts.window_days as int,
            ids.len() == i,
            is_ymd(day, 2026, 1, 10),
            is_ymd(next_day, 2026, 1, 11),
            names.0@ == "assets:bank"@,
            names.1@ == "expenses:uncategorized"@,
            names.2@ == "USD"@,
            counts_of(counts) == dedup_tally(cv.take(i as int), ids, day, next_day, w),
            counts.true_positive + counts.false_positive + counts.false_negative <= i,
        decreases cases.len() - i,
    {
        let case = &cases[i];
        let second_amount = if case.same_amount {
            Amount::new(1200, 2)
        } else {
            Amount::new(1201, 2)
        };
        let second_day = if case.same_date {
            day
        } else {
            next_day
        };
        let salt_a = salt_string('a', i);
        let salt_b = salt_string('b', i);
        let a = match case_transaction(day, case.payee_a.as_str(), Amount::new(1200, 2), Some(salt_a.as_str()), &names) {
            Some(t) => t,
            None => {
                return counts;
            },
        };
        let b = match case_transaction(second_day, case.payee_b.as_str(), second_amount, Some(salt_b.as_str()), &names) {
            Some(t) => t,
            None => {
                return counts;
            },
        };
        let ghost pair = (a.id, b.id);
        let ghost pair_view = seq![a@, b@];
        let mut both: Vec<Transaction> = Vec::new();
        both.push(a);
        both.push(b);
        let report = plan_dedupe(&both, opts);
        proof {
            assert(txs_view(both@) =~= pair_view);
            assert(pair_view[0] == case_tx(pair.0, day, cv[i as int].payee_a, case_postings(cents(1200), Some(salt('a', i as int)))));
            let prev = ids;
            ids = ids.push(pair);
            lemma_dedup_tally_ids(cv.take(i as int), prev, ids, day, next_day, w);
            assert(cv.take(i + 1).drop_last() =~= cv.take(i as int));
        }
        let linked = report.links.len() > 0;
        counts.record(linked, case.should_link);
        i = i + 1;
    }
    assert(cv.take(cases.len() as int) =~= cv);
    counts
}

/// Scores a rule set on labelled payees. Each case becomes a fresh transaction
/// on 2026-01-01 with its payee: the parsed amount on the bank, its negation
/// on the uncategorized expense account. The category applied to it, if any,
/// is the prediction. `None` when some case's amount does not parse (no counts
/// are defined then). The transactions get fresh random ids; the counts are
/// those for the ids they got.
pub fn count_rule_cases(cases: &Vec<RuleEvalCase>, set: &RuleSet) -> (r: Option<EvalCounts>)
    ensures
        r is Some <==> forall|i: int| 0 <= i < cases.len() ==> #[trigger] amount_parses(cases@[i]@),
        r matches Some(c) ==> exists|ids: Seq<TransactionId>, day: Date|
            is_ymd(day, 2026, 1, 1) && counts_of(c) == #[trigger] rule_tally(rule_cases_view(cases@), rules_view(set.rules@), ids, day),
{
    proof {
        lemma_case_names();
    }
    let mut counts = EvalCounts::new();
    let day = match Date::from_ymd_opt(2026, 1, 1) {
        Some(d) => d,
        None => {
            return None;
        },
    };
    let names = match case_names() {
        Some(n) => n,
        None => {
            return None;
        },
    };
    let ghost cv = rule_cases_view(cases@);
    let ghost rv = rules_view(set.rules@);
    let ghost mut ids: Seq<TransactionId> = Seq::empty();
    let mut i: usize = 0;
    assert(cv.take(0) =~= Seq::<RuleCaseView>::empty());
    while i < cases.len()
        invariant
            i <= cases.len(),
            cv == rule_cases_view(cases@),
            rv == rules_view(set.rules@),
            ids.len() == i,
            is_ymd(day, 2026, 1, 1),
            names.0@ == "assets:bank"@,
            names.1@ == "expenses:uncategorized"@,
            names.2@ == "USD"@,
            forall|j: int| 0 <= j < i ==> #[trigger] amount_parses(cases@[j]@),
            counts_of(counts) == rule_tally(cv.take(i as int), rv, ids, day),
            counts.true_positive + counts.false_positive + counts.false_negative <= i,
        decreases cases.len() - i,
    {
        let case = &cases[i];
        assert(cv[i as int] == case@);
        let amount = match Amount::parse(case.amount.as_str()) {
            Ok(a) => a,
            Err(_) => {
                assert(!amount_parses(cases@[i as int]@));
                return None;
            },
        };
        let t = match case_transaction(day, case.payee.as_str(), amount, None, &names) {
            Some(t) => t,
            None => {
                return None;
            },
        };
        let ghost id = t.id;
        let ghost tv = t@;
        let mut one: Vec<Transaction> = Vec::new();
        one.push(t);
        let report = apply_rules(&one, set);
        let got: Option<&str> = if report.applied.len() > 0 {
            Some(report.applied[0].category.as_str())
        } else {
            None
        };
        let expected: Option<&str> = match &case.expected_category {
            Some(e) => Some(e.as_str()),
            None => None,
        };
        proof {
            assert(txs_view(one@) =~= seq![tv]);
            assert(report.applied@.len() == report_of(seq![tv], rv).applied.len());
            if report.applied.len() > 0 {
                assert(report.applied@[0]@ == report_of(seq![tv], rv).applied[0]);
            }
            assert(opt_view(got) == first_category(tv, rv));
            let prev = ids;
            ids = ids.push(id);
            lemma_rule_tally_ids(cv.take(i as int), rv, prev, ids, day);
            assert(cv.take(i + 1).drop_last() =~= cv.take(i as int));
            assert(cv.take(i + 1)[i as int] == cv[i as int]);
        }
        counts.record_category(got, expected);
        i = i + 1;
    }
    assert(cv.take(cases.len() as int) =~= cv);
    Some(counts)
}

} // verus!
