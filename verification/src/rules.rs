//! Categorisation rules: regex and amount predicates, priority, conflicts.
use vstd::prelude::*;

use crate::ids::{uuid_str, uuid_to_string, TransactionId};
use crate::money::{amount_cleaned, dec_value, decimal_parse, Amount, DecimalValue};
use crate::pattern::{is_match, regex_match};
use crate::posting::opt_str;
use crate::text::{chars_of, int_str, int_str_i64, join, push_chars, push_str, str_eq, string_of};
use crate::transaction::{strings_view, Transaction, TxView};
use crate::verify::join_strings;

verus! {

#[derive(Clone, Debug)]
pub struct Rule {
    pub id: String,
    pub priority: i32,
    pub category: String,
    pub merchant_regex: Option<String>,
    pub payee_regex: Option<String>,
    pub account_regex: Option<String>,
    pub min_amount: Option<String>,
    pub max_amount: Option<String>,
    pub confidence: u8,
}

pub struct RuleView {
    pub id: Seq<char>,
    pub priority: int,
    pub category: Seq<char>,
    pub merchant_regex: Option<Seq<char>>,
    pub payee_regex: Option<Seq<char>>,
    pub account_regex: Option<Seq<char>>,
    pub min_amount: Option<Seq<char>>,
    pub max_amount: Option<Seq<char>>,
    pub confidence: u8,
}

impl View for Rule {
    type V = RuleView;

    open spec fn view(&self) -> RuleView {
        RuleView {
            id: self.id@,
            priority: self.priority as int,
            category: self.category@,
            merchant_regex: opt_str(self.merchant_regex),
            payee_regex: opt_str(self.payee_regex),
            account_regex: opt_str(self.account_regex),
            min_amount: opt_str(self.min_amount),
            max_amount: opt_str(self.max_amount),
            confidence: self.confidence,
        }
    }
}

pub open spec fn rules_view(v: Seq<Rule>) -> Seq<RuleView> {
    v.map_values(|r: Rule| r@)
}

#[derive(Clone, Debug)]
pub struct RuleSet {
    pub rules: Vec<Rule>,
}

/// The confidence a rule gets when its file gives none.
pub fn default_confidence() -> (r: u8)
    ensures
        r == 80,
{
    80
}

#[derive(Clone, Debug)]
pub struct RuleMatch {
    pub transaction_id: TransactionId,
    pub category: String,
    pub rule_id: String,
    pub confidence: u8,
    pub reasons: Vec<String>,
}

pub struct MatchView {
    pub transaction_id: u128,
    pub category: Seq<char>,
    pub rule_id: Seq<char>,
    pub confidence: u8,
    pub reasons: Seq<Seq<char>>,
}

impl View for RuleMatch {
    type V = MatchView;

    open spec fn view(&self) -> MatchView {
        MatchView {
            transaction_id: self.transaction_id.0,
            category: self.category@,
            rule_id: self.rule_id@,
            confidence: self.confidence,
            reasons: strings_view(self.reasons@),
        }
    }
}

#[derive(Clone, Debug)]
pub struct RuleReport {
    pub applied: Vec<RuleMatch>,
    pub conflicts: Vec<String>,
    pub unmatched: usize,
    pub skipped_already_categorized: usize,
}

/// What `str::to_lowercase` returns.
pub uninterp spec fn unicode_lower(s: Seq<char>) -> Seq<char>;

#[verifier::external_body]
/// `str::to_lowercase` (Unicode lower-casing); named `unicode_lower`.
fn to_lowercase(s: &str) -> (r: String)
    ensures
        r@ == unicode_lower(s@),
{
    s.to_lowercase()
}

pub open spec fn has_category_tag(tags: Seq<Seq<char>>) -> bool {
    exists|i: int| 0 <= i < tags.len() && (#[trigger] tags[i]).len() >= 9 && tags[i].take(9) == "category:"@
}

/// The text a merchant pattern is matched against: the narration, else the
/// lower-cased payee.
pub open spec fn merchant_haystack(t: TxView) -> Seq<char> {
    match t.narration {
        Some(n) => n,
        None => unicode_lower(t.payee),
    }
}

pub open spec fn any_account_matches(pat: Seq<char>, ps: Seq<crate::posting::PostingView>) -> bool {
    exists|i: int| 0 <= i < ps.len() && regex_match(pat, (#[trigger] ps[i]).account) == Some(true)
}

pub open spec fn abs_dec(v: DecimalValue) -> DecimalValue {
    DecimalValue { neg: false, units: v.units, scale: v.scale }
}

/// The amount bounds of a rule hold of the first posting's absolute amount.
pub open spec fn amount_step(t: TxView, bound: Option<Seq<char>>, is_min: bool, acc: Option<Seq<Seq<char>>>) -> Option<Seq<Seq<char>>> {
    match acc {
        None => None,
        Some(reasons) => match bound {
            None => Some(reasons),
            Some(b) => match decimal_parse(amount_cleaned(b)) {
                Err(_) => None,
                Ok(bv) => if t.postings.len() == 0 {
                    None
                } else {
                    let amt = abs_dec(t.postings[0].amount);
                    if is_min && dec_value(amt) < dec_value(bv) {
                        None
                    } else if !is_min && dec_value(bv) < dec_value(amt) {
                        None
                    } else {
                        Some(reasons.push((if is_min { "min_amount="@ } else { "max_amount="@ }) + b))
                    }
                },
            },
        },
    }
}

pub open spec fn regex_step(hit: bool, pat: Option<Seq<char>>, label: Seq<char>, acc: Option<Seq<Seq<char>>>) -> Option<Seq<Seq<char>>> {
    match acc {
        None => None,
        Some(reasons) => match pat {
            None => Some(reasons),
            Some(p) => if hit {
                Some(reasons.push(label + p))
            } else {
                None
            },
        },
    }
}

/// Whether a rule matches a transaction, with the reasons when it does. A
/// rule with no predicate never matches; a pattern that does not compile or an
/// amount bound that does not parse makes the rule not match.
pub open spec fn rule_hit(t: TxView, r: RuleView) -> Option<Seq<Seq<char>>> {
    if r.merchant_regex is None && r.payee_regex is None && r.account_regex is None
        && r.min_amount is None && r.max_amount is None {
        None
    } else {
        let s0 = Some(Seq::<Seq<char>>::empty());
        let s1 = regex_step(
            match r.merchant_regex { Some(p) => regex_match(p, merchant_haystack(t)) == Some(true), None => true },
            r.merchant_regex, "merchant_regex="@, s0,
        );
        let s2 = regex_step(
            match r.payee_regex { Some(p) => regex_match(p, t.payee) == Some(true), None => true },
            r.payee_regex, "payee_regex="@, s1,
        );
        let s3 = regex_step(
            match r.account_regex { Some(p) => any_account_matches(p, t.postings), None => true },
            r.account_regex, "account_regex="@, s2,
        );
        let s4 = amount_step(t, r.min_amount, true, s3);
        amount_step(t, r.max_amount, false, s4)
    }
}

pub open spec fn opt_strings_view(r: Option<Vec<String>>) -> Option<Seq<Seq<char>>> {
    match r {
        Some(v) => Some(strings_view(v@)),
        None => None,
    }
}

fn owned(s: &str) -> (r: String)
    ensures
        r@ == s@,
{
    string_of(chars_of(s).as_slice())
}

fn labelled(label: &str, value: &String) -> (r: String)
    ensures
        r@ == label@ + value@,
{
    let mut s = owned(label);
    push_str(&mut s, value.as_str());
    s
}

fn any_account_matches_exec(pat: &String, t: &Transaction) -> (r: bool)
    ensures
        r == any_account_matches(pat@, t@.postings),
{
    let ghost pv = t@.postings;
    let mut i: usize = 0;
    while i < t.postings.len()
        invariant
            i <= t.postings.len(),
            pv == t@.postings,
            forall|j: int| 0 <= j < i ==> regex_match(pat@, (#[trigger] pv[j]).account) != Some(true),
        decreases t.postings.len() - i,
    {
        assert(pv[i as int] == t.postings@[i as int]@);
        match is_match(pat.as_str(), t.postings[i].account.as_str()) {
            Some(true) => {
                return true;
            },
            _ => {},
        }
        i = i + 1;
    }
    false
}

/// The reasons a rule matches a transaction, or `None`.
pub fn matches_rule(tx: &Transaction, rule: &Rule) -> (r: Option<Vec<String>>)
    ensures
        opt_strings_view(r) == rule_hit(tx@, rule@),
{
    if rule.merchant_regex.is_none() && rule.payee_regex.is_none() && rule.account_regex.is_none()
        && rule.min_amount.is_none() && rule.max_amount.is_none() {
        return None;
    }
    let ghost t = tx@;
    let ghost rv = rule@;
    let mut reasons: Vec<String> = Vec::new();
    assert(strings_view(reasons@) =~= Seq::<Seq<char>>::empty());
    match &rule.merchant_regex {
        Some(pat) => {
            let hay = match &tx.narration {
                Some(n) => n.clone(),
                None => to_lowercase(tx.payee.as_str()),
            };
            match is_match(pat.as_str(), hay.as_str()) {
                Some(true) => {},
                _ => {
                    return None;
                },
            }
            let ghost prev = reasons@;
            reasons.push(labelled("merchant_regex=", pat));
            assert(strings_view(reasons@) =~= strings_view(prev).push("merchant_regex="@ + pat@));
        },
        None => {},
    }
    match &rule.payee_regex {
        Some(pat) => {
            match is_match(pat.as_str(), tx.payee.as_str()) {
                Some(true) => {},
                _ => {
                    return None;
                },
            }
            let ghost prev = reasons@;
            reasons.push(labelled("payee_regex=", pat));
            assert(strings_view(reasons@) =~= strings_view(prev).push("payee_regex="@ + pat@));
        },
        None => {},
    }
    match &rule.account_regex {
        Some(pat) => {
            if !any_account_matches_exec(pat, tx) {
                return None;
            }
            let ghost prev = reasons@;
            reasons.push(labelled("account_regex=", pat));
            assert(strings_view(reasons@) =~= strings_view(prev).push("account_regex="@ + pat@));
        },
        None => {},
    }
    match &rule.min_amount {
        Some(min) => {
            let min_a = match Amount::parse(min.as_str()) {
                Ok(a) => a,
                Err(_) => {
                    return None;
                },
            };
            if tx.postings.len() == 0 {
                return None;
            }
            assert(t.postings[0] == tx.postings@[0]@);
            let amt = tx.postings[0].amount.abs();
            if amt.lt(min_a) {
                return None;
            }
            let ghost prev = reasons@;
            reasons.push(labelled("min_amount=", min));
            assert(strings_view(reasons@) =~= strings_view(prev).push("min_amount="@ + min@));
        },
        None => {},
    }
    match &rule.max_amount {
        Some(max) => {
            let max_a = match Amount::parse(max.as_str()) {
                Ok(a) => a,
                Err(_) => {
                    return None;
                },
            };
            if tx.postings.len() == 0 {
                return None;
            }
            assert(t.postings[0] == tx.postings@[0]@);
            let amt = tx.postings[0].amount.abs();
            if max_a.lt(amt) {
                return None;
            }
            let ghost prev = reasons@;
            reasons.push(labelled("max_amount=", max));
            assert(strings_view(reasons@) =~= strings_view(prev).push("max_amount="@ + max@));
        },
        None => {},
    }
    Some(reasons)
}

/// The rules (by index, in order) that match `t`, with their reasons.
pub open spec fn hits(t: TxView, rs: Seq<RuleView>, n: nat) -> Seq<(int, Seq<Seq<char>>)>
    decreases n,
{
    if n == 0 {
        Seq::empty()
    } else {
        let h = hits(t, rs, (n - 1) as nat);
        match rule_hit(t, rs[n - 1]) {
            Some(reasons) => h.push(((n - 1) as int, reasons)),
            None => h,
        }
    }
}

/// The highest priority among the hits.
pub open spec fn max_pri(rs: Seq<RuleView>, h: Seq<(int, Seq<Seq<char>>)>) -> int
    decreases h.len(),
{
    if h.len() <= 1 {
        rs[h[0].0].priority
    } else {
        let m = max_pri(rs, h.drop_last());
        let p = rs[h.last().0].priority;
        if p > m {
            p
        } else {
            m
        }
    }
}

/// The hits at priority `p`, in rule order.
pub open spec fn top(rs: Seq<RuleView>, h: Seq<(int, Seq<Seq<char>>)>, p: int) -> Seq<(int, Seq<Seq<char>>)>
    decreases h.len(),
{
    if h.len() == 0 {
        h
    } else {
        let t = top(rs, h.drop_last(), p);
        if rs[h.last().0].priority == p {
            t.push(h.last())
        } else {
            t
        }
    }
}

pub open spec fn one_category(rs: Seq<RuleView>, tp: Seq<(int, Seq<Seq<char>>)>) -> bool {
    forall|j: int| 0 <= j < tp.len() ==> rs[(#[trigger] tp[j]).0].category == rs[tp[0].0].category
}

pub open spec fn conflict_msg(t: TxView, rs: Seq<RuleView>, p: int, tp: Seq<(int, Seq<Seq<char>>)>) -> Seq<char> {
    "tx "@ + uuid_str(t.id.0) + " priority "@ + int_str(p) + " conflict: "@
        + join(tp.map_values(|x: (int, Seq<Seq<char>>)| rs[x.0].id + "=>"@ + rs[x.0].category), ", "@)
}

pub enum OutcomeView {
    Linked,
    Categorized,
    Unmatched,
    Conflict(Seq<char>),
    Applied(MatchView),
}

/// What the rules decide for one transaction: duplicates are passed over, a
/// transaction with a `category:` tag is skipped, otherwise the
/// highest-priority matches apply when they agree on the category and are a
/// conflict when they do not.
pub open spec fn outcome(t: TxView, rs: Seq<RuleView>) -> OutcomeView {
    if t.duplicate_of is Some {
        OutcomeView::Linked
    } else if has_category_tag(t.tags) {
        OutcomeView::Categorized
    } else {
        let h = hits(t, rs, rs.len());
        if h.len() == 0 {
            OutcomeView::Unmatched
        } else {
            let p = max_pri(rs, h);
            let tp = top(rs, h, p);
            if !one_category(rs, tp) {
                OutcomeView::Conflict(conflict_msg(t, rs, p, tp))
            } else {
                let r = rs[tp[0].0];
                OutcomeView::Applied(
                    MatchView {
                        transaction_id: t.id.0,
                        category: r.category,
                        rule_id: r.id,
                        confidence: r.confidence,
                        reasons: tp[0].1,
                    },
                )
            }
        }
    }
}

pub struct RuleReportView {
    pub applied: Seq<MatchView>,
    pub conflicts: Seq<Seq<char>>,
    pub unmatched: nat,
    pub skipped: nat,
}

pub open spec fn report_of(txs: Seq<TxView>, rs: Seq<RuleView>) -> RuleReportView
    decreases txs.len(),
{
    if txs.len() == 0 {
        RuleReportView { applied: Seq::empty(), conflicts: Seq::empty(), unmatched: 0, skipped: 0 }
    } else {
        let r = report_of(txs.drop_last(), rs);
        match outcome(txs.last(), rs) {
            OutcomeView::Linked => r,
            OutcomeView::Categorized => RuleReportView { skipped: r.skipped + 1, ..r },
            OutcomeView::Unmatched => RuleReportView { unmatched: r.unmatched + 1, ..r },
            OutcomeView::Conflict(m) => RuleReportView { conflicts: r.conflicts.push(m), ..r },
            OutcomeView::Applied(a) => RuleReportView { applied: r.applied.push(a), ..r },
        }
    }
}

pub open spec fn matches_view(v: Seq<RuleMatch>) -> Seq<MatchView> {
    v.map_values(|m: RuleMatch| m@)
}

fn has_category_tag_exec(t: &Transaction) -> (r: bool)
    ensures
        r == has_category_tag(t@.tags),
{
    let ghost tv = t@.tags;
    let prefix = chars_of("category:");
    proof {
        reveal_strlit("category:");
    }
    let mut i: usize = 0;
    while i < t.tags.len()
        invariant
            i <= t.tags.len(),
            tv == t@.tags,
            prefix@ == "category:"@,
            prefix@.len() == 9,
            forall|j: int| 0 <= j < i ==> !((#[trigger] tv[j]).len() >= 9 && tv[j].take(9) == "category:"@),
        decreases t.tags.len() - i,
    {
        let c = chars_of(t.tags[i].as_str());
        assert(c@ == tv[i as int]);
        if c.len() >= 9 {
            let mut k: usize = 0;
            while k < 9 && c[k] == prefix[k]
                invariant
                    k <= 9,
                    c@.len() >= 9,
                    prefix@.len() == 9,
                    forall|q: int| 0 <= q < k ==> c@[q] == prefix@[q],
                decreases 9 - k,
            {
                k = k + 1;
            }
            if k == 9 {
                assert(c@.take(9) =~= prefix@);
                return true;
            }
            assert(c@.take(9)[k as int] != prefix@[k as int]);
        }
        i = i + 1;
    }
    false
}

fn rule_hits_exec(tx: &Transaction, rules: &Vec<Rule>) -> (r: (Vec<usize>, Vec<Vec<String>>))
    ensures
        r.0@.len() == r.1@.len(),
        r.0@.len() == hits(tx@, rules_view(rules@), rules@.len()).len(),
        forall|j: int| 0 <= j < r.0@.len() ==> (#[trigger] r.0@[j]) < rules@.len()
            && hits(tx@, rules_view(rules@), rules@.len())[j] == (r.0@[j] as int, strings_view(r.1@[j]@)),
{
    let ghost rv = rules_view(rules@);
    let mut idx: Vec<usize> = Vec::new();
    let mut rs: Vec<Vec<String>> = Vec::new();
    let mut i: usize = 0;
    while i < rules.len()
        invariant
            i <= rules.len(),
            rv == rules_view(rules@),
            idx@.len() == rs@.len(),
            idx@.len() == hits(tx@, rv, i as nat).len(),
            forall|j: int| 0 <= j < idx@.len() ==> (#[trigger] idx@[j]) < rules@.len()
                && hits(tx@, rv, i as nat)[j] == (idx@[j] as int, strings_view(rs@[j]@)),
        decreases rules.len() - i,
    {
        assert(rv[i as int] == rules@[i as int]@);
        match matches_rule(tx, &rules[i]) {
            Some(reasons) => {
                idx.push(i);
                rs.push(reasons);
            },
            None => {},
        }
        i = i + 1;
    }
    (idx, rs)
}

#[derive(Clone, Debug)]
/// What the rules decide for one transaction.
pub enum Decision {
    Linked,
    Categorized,
    Unmatched,
    Conflict(String),
    Applied(RuleMatch),
}

impl View for Decision {
    type V = OutcomeView;

    open spec fn view(&self) -> OutcomeView {
        match self {
            Decision::Linked => OutcomeView::Linked,
            Decision::Categorized => OutcomeView::Categorized,
            Decision::Unmatched => OutcomeView::Unmatched,
            Decision::Conflict(m) => OutcomeView::Conflict(m@),
            Decision::Applied(a) => OutcomeView::Applied(a@),
        }
    }
}

/// The decision for one transaction.
pub fn decide(tx: &Transaction, rules: &Vec<Rule>) -> (r: Decision)
    ensures
        r@ == outcome(tx@, rules_view(rules@)),
{
    if tx.duplicate_of.is_some() {
        return Decision::Linked;
    }
    if has_category_tag_exec(tx) {
        return Decision::Categorized;
    }
    let ghost rv = rules_view(rules@);
    let ghost h = hits(tx@, rv, rules@.len());
    let (idx, rs) = rule_hits_exec(tx, rules);
    if idx.len() == 0 {
        return Decision::Unmatched;
    }
    assert(rv[idx@[0] as int] == rules@[idx@[0] as int]@);
    let mut p: i32 = rules[idx[0]].priority;
    let mut j: usize = 1;
    assert(h.take(1).len() == 1);
    assert(h.take(1)[0] == h[0]);
    while j < idx.len()
        invariant
            1 <= j <= idx.len(),
            rv == rules_view(rules@),
            h == hits(tx@, rv, rules@.len()),
            idx@.len() == h.len(),
            idx@.len() == rs@.len(),
            forall|q: int| 0 <= q < idx@.len() ==> (#[trigger] idx@[q]) < rules@.len()
                && h[q] == (idx@[q] as int, strings_view(rs@[q]@)),
            p as int == max_pri(rv, h.take(j as int)),
        decreases idx.len() - j,
    {
        assert(h.take(j + 1).drop_last() =~= h.take(j as int));
        assert(h.take(j + 1).last() == h[j as int]);
        assert(rv[idx@[j as int] as int] == rules@[idx@[j as int] as int]@);
        let q = rules[idx[j]].priority;
        if q > p {
            p = q;
        }
        j = j + 1;
    }
    assert(h.take(idx.len() as int) =~= h);
    let ghost tp = top(rv, h, p as int);
    let mut tj: Vec<usize> = Vec::new();
    let mut k: usize = 0;
    assert(h.take(0) =~= Seq::<(int, Seq<Seq<char>>)>::empty());
    while k < idx.len()
        invariant
            k <= idx.len(),
            rv == rules_view(rules@),
            h == hits(tx@, rv, rules@.len()),
            idx@.len() == h.len(),
            idx@.len() == rs@.len(),
            forall|q: int| 0 <= q < idx@.len() ==> (#[trigger] idx@[q]) < rules@.len()
                && h[q] == (idx@[q] as int, strings_view(rs@[q]@)),
            forall|q: int| 0 <= q < tj@.len() ==> (#[trigger] tj@[q]) < idx@.len(),
            top(rv, h.take(k as int), p as int) == tj@.map_values(|q: usize| h[q as int]),
        decreases idx.len() - k,
    {
        assert(h.take(k + 1).drop_last() =~= h.take(k as int));
        assert(h.take(k + 1).last() == h[k as int]);
        assert(rv[idx@[k as int] as int] == rules@[idx@[k as int] as int]@);
        if rules[idx[k]].priority == p {
            let ghost prev = tj@;
            tj.push(k);
            assert(tj@.map_values(|q: usize| h[q as int]) =~= prev.map_values(|q: usize| h[q as int]).push(h[k as int]));
        }
        k = k + 1;
    }
    assert(h.take(idx.len() as int) =~= h);
    assert(tp == tj@.map_values(|q: usize| h[q as int]));
    proof {
        lemma_top_nonempty(rv, h);
    }
    assert(tj@.len() > 0);
    let first = idx[tj[0]];
    assert(tp[0] == h[tj@[0] as int]);
    assert(rv[first as int] == rules@[first as int]@);
    let mut same = true;
    let mut c: usize = 0;
    while c < tj.len()
        invariant
            c <= tj.len(),
            tj@.len() > 0,
            rv == rules_view(rules@),
            first < rules@.len(),
            idx@.len() == h.len(),
            forall|q: int| 0 <= q < idx@.len() ==> (#[trigger] idx@[q]) < rules@.len()
                && h[q] == (idx@[q] as int, strings_view(rs@[q]@)),
            forall|q: int| 0 <= q < tj@.len() ==> (#[trigger] tj@[q]) < idx@.len(),
            tp == tj@.map_values(|q: usize| h[q as int]),
            first as int == tp[0].0,
            same == (forall|q: int| 0 <= q < c ==> rv[(#[trigger] tp[q]).0].category == rv[tp[0].0].category),
        decreases tj.len() - c,
    {
        let e = idx[tj[c]];
        assert(tp[c as int] == h[tj@[c as int] as int]);
        assert(rv[e as int] == rules@[e as int]@);
        if !str_eq(rules[e].category.as_str(), rules[first].category.as_str()) {
            same = false;
        }
        c = c + 1;
    }
    if !same {
        let mut parts: Vec<String> = Vec::new();
        let mut d: usize = 0;
        while d < tj.len()
            invariant
                d <= tj.len(),
                rv == rules_view(rules@),
                idx@.len() == h.len(),
                forall|q: int| 0 <= q < idx@.len() ==> (#[trigger] idx@[q]) < rules@.len()
                    && h[q] == (idx@[q] as int, strings_view(rs@[q]@)),
                forall|q: int| 0 <= q < tj@.len() ==> (#[trigger] tj@[q]) < idx@.len(),
                tp == tj@.map_values(|q: usize| h[q as int]),
                strings_view(parts@) == tp.take(d as int).map_values(|x: (int, Seq<Seq<char>>)| rv[x.0].id + "=>"@ + rv[x.0].category),
            decreases tj.len() - d,
        {
            let e = idx[tj[d]];
            assert(tp[d as int] == h[tj@[d as int] as int]);
            assert(rv[e as int] == rules@[e as int]@);
            let mut s = rules[e].id.clone();
            push_str(&mut s, "=>");
            push_str(&mut s, rules[e].category.as_str());
            let ghost prev = parts@;
            parts.push(s);
            assert(strings_view(parts@) =~= strings_view(prev).push(s@));
            assert(tp.take(d + 1).map_values(|x: (int, Seq<Seq<char>>)| rv[x.0].id + "=>"@ + rv[x.0].category)
                =~= tp.take(d as int).map_values(|x: (int, Seq<Seq<char>>)| rv[x.0].id + "=>"@ + rv[x.0].category).push(s@));
            d = d + 1;
        }
        assert(tp.take(tj.len() as int) =~= tp);
        let joined = join_strings(&parts, ", ");
        let mut msg = owned("tx ");
        let ids = uuid_to_string(tx.id.0);
        push_str(&mut msg, ids.as_str());
        push_str(&mut msg, " priority ");
        let ps = int_str_i64(p as i64);
        push_chars(&mut msg, &ps);
        push_str(&mut msg, " conflict: ");
        push_str(&mut msg, joined.as_str());
        return Decision::Conflict(msg);
    }
    let reasons = crate::posting::dup_strings(&rs[tj[0]]);
    assert(strings_view(reasons@) == strings_view(rs@[tj@[0] as int]@));
    Decision::Applied(RuleMatch {
        transaction_id: tx.id,
        category: rules[first].category.clone(),
        rule_id: rules[first].id.clone(),
        confidence: rules[first].confidence,
        reasons,
    })
}

proof fn lemma_max_pri_attained(rs: Seq<RuleView>, h: Seq<(int, Seq<Seq<char>>)>)
    requires
        h.len() > 0,
    ensures
        exists|j: int| 0 <= j < h.len() && rs[(#[trigger] h[j]).0].priority == max_pri(rs, h),
    decreases h.len(),
{
    if h.len() == 1 {
        assert(rs[h[0].0].priority == max_pri(rs, h));
    } else {
        lemma_max_pri_attained(rs, h.drop_last());
        let m = max_pri(rs, h.drop_last());
        let p = rs[h.last().0].priority;
        if p > m {
            assert(rs[h[h.len() - 1].0].priority == max_pri(rs, h));
        } else {
            let j = choose|j: int| 0 <= j < h.drop_last().len() && rs[(#[trigger] h.drop_last()[j]).0].priority == m;
            assert(h[j] == h.drop_last()[j]);
        }
    }
}

proof fn lemma_top_has(rs: Seq<RuleView>, h: Seq<(int, Seq<Seq<char>>)>, p: int, j: int)
    requires
        0 <= j < h.len(),
        rs[h[j].0].priority == p,
    ensures
        top(rs, h, p).len() > 0,
    decreases h.len(),
{
    if j < h.len() - 1 {
        assert(h.drop_last()[j] == h[j]);
        lemma_top_has(rs, h.drop_last(), p, j);
    }
}

proof fn lemma_top_nonempty(rs: Seq<RuleView>, h: Seq<(int, Seq<Seq<char>>)>)
    requires
        h.len() > 0,
    ensures
        top(rs, h, max_pri(rs, h)).len() > 0,
{
    lemma_max_pri_attained(rs, h);
    let j = choose|j: int| 0 <= j < h.len() && rs[(#[trigger] h[j]).0].priority == max_pri(rs, h);
    lemma_top_has(rs, h, max_pri(rs, h), j);
}

/// Apply rules. Higher `priority` wins. Same priority + different category → conflict (no apply).
pub fn apply_rules(txs: &Vec<Transaction>, set: &RuleSet) -> (r: RuleReport)
    ensures
        matches_view(r.applied@) == report_of(crate::snapshot::txs_view(txs@), rules_view(set.rules@)).applied,
        strings_view(r.conflicts@) == report_of(crate::snapshot::txs_view(txs@), rules_view(set.rules@)).conflicts,
        r.unmatched == report_of(crate::snapshot::txs_view(txs@), rules_view(set.rules@)).unmatched,
        r.skipped_already_categorized == report_of(crate::snapshot::txs_view(txs@), rules_view(set.rules@)).skipped,
{
    let ghost tv = crate::snapshot::txs_view(txs@);
    let ghost rv = rules_view(set.rules@);
    let mut applied: Vec<RuleMatch> = Vec::new();
    let mut conflicts: Vec<String> = Vec::new();
    let mut unmatched: usize = 0;
    let mut skipped: usize = 0;
    let mut i: usize = 0;
    assert(tv.take(0) =~= Seq::<TxView>::empty());
    assert(matches_view(applied@) =~= Seq::<MatchView>::empty());
    assert(strings_view(conflicts@) =~= Seq::<Seq<char>>::empty());
    while i < txs.len()
        invariant
            i <= txs.len(),
            tv == crate::snapshot::txs_view(txs@),
            rv == rules_view(set.rules@),
            matches_view(applied@) == report_of(tv.take(i as int), rv).applied,
            strings_view(conflicts@) == report_of(tv.take(i as int), rv).conflicts,
            unmatched == report_of(tv.take(i as int), rv).unmatched,
            skipped == report_of(tv.take(i as int), rv).skipped,
            unmatched + skipped <= i,
        decreases txs.len() - i,
    {
        assert(tv.take(i + 1).drop_last() =~= tv.take(i as int));
        assert(tv.take(i + 1).last() == txs@[i as int]@);
        match decide(&txs[i], &set.rules) {
            Decision::Linked => {},
            Decision::Categorized => {
                skipped = skipped + 1;
            },
            Decision::Unmatched => {
                unmatched = unmatched + 1;
            },
            Decision::Conflict(m) => {
                let ghost prev = conflicts@;
                conflicts.push(m);
                assert(strings_view(conflicts@) =~= strings_view(prev).push(m@));
            },
            Decision::Applied(a) => {
                let ghost prev = applied@;
                applied.push(a);
                assert(matches_view(applied@) =~= matches_view(prev).push(a@));
            },
        }
        i = i + 1;
    }
    assert(tv.take(txs.len() as int) =~= tv);
    RuleReport { applied, conflicts, unmatched, skipped_already_categorized: skipped }
}

proof fn lemma_hits_sound(t: TxView, rs: Seq<RuleView>, n: nat)
    requires
        n <= rs.len(),
    ensures
        forall|q: int| 0 <= q < hits(t, rs, n).len() ==> 0 <= (#[trigger] hits(t, rs, n)[q]).0 < n
            && rule_hit(t, rs[hits(t, rs, n)[q].0]) == Some(hits(t, rs, n)[q].1),
    decreases n,
{
    if n > 0 {
        lemma_hits_sound(t, rs, (n - 1) as nat);
    }
}

proof fn lemma_hits_complete(t: TxView, rs: Seq<RuleView>, n: nat, j: int)
    requires
        n <= rs.len(),
        0 <= j < n,
        rule_hit(t, rs[j]) is Some,
    ensures
        exists|q: int| 0 <= q < hits(t, rs, n).len() && (#[trigger] hits(t, rs, n)[q]).0 == j,
    decreases n,
{
    if j < n - 1 {
        lemma_hits_complete(t, rs, (n - 1) as nat, j);
        let q = choose|q: int| 0 <= q < hits(t, rs, (n - 1) as nat).len() && (#[trigger] hits(t, rs, (n - 1) as nat)[q]).0 == j;
        assert(hits(t, rs, n)[q] == hits(t, rs, (n - 1) as nat)[q]);
    } else {
        let h = hits(t, rs, n);
        assert(h[h.len() - 1].0 == j);
    }
}

proof fn lemma_max_pri_upper(rs: Seq<RuleView>, h: Seq<(int, Seq<Seq<char>>)>)
    requires
        h.len() > 0,
    ensures
        forall|q: int| 0 <= q < h.len() ==> rs[(#[trigger] h[q]).0].priority <= max_pri(rs, h),
    decreases h.len(),
{
    if h.len() > 1 {
        lemma_max_pri_upper(rs, h.drop_last());
        assert forall|q: int| 0 <= q < h.len() implies rs[(#[trigger] h[q]).0].priority <= max_pri(rs, h) by {
            if q < h.len() - 1 {
                assert(h[q] == h.drop_last()[q]);
            }
        }
    }
}

proof fn lemma_top_members(rs: Seq<RuleView>, h: Seq<(int, Seq<Seq<char>>)>, p: int)
    ensures
        forall|z: int| 0 <= z < top(rs, h, p).len() ==> rs[(#[trigger] top(rs, h, p)[z]).0].priority == p
            && exists|q: int| 0 <= q < h.len() && h[q] == top(rs, h, p)[z],
        forall|q: int| 0 <= q < h.len() && rs[(#[trigger] h[q]).0].priority == p ==> exists|z: int| 0 <= z < top(rs, h, p).len()
            && top(rs, h, p)[z] == h[q],
    decreases h.len(),
{
    if h.len() > 0 {
        let d = h.drop_last();
        lemma_top_members(rs, d, p);
        let tp = top(rs, h, p);
        let td = top(rs, d, p);
        assert forall|z: int| 0 <= z < tp.len() implies rs[(#[trigger] tp[z]).0].priority == p
            && exists|q: int| 0 <= q < h.len() && h[q] == tp[z] by {
            if z < td.len() {
                assert(tp[z] == td[z]);
                let q = choose|q: int| 0 <= q < d.len() && d[q] == td[z];
                assert(h[q] == d[q]);
            } else {
                assert(tp[z] == h.last());
                assert(h[h.len() - 1] == h.last());
            }
        }
        assert forall|q: int| 0 <= q < h.len() && rs[(#[trigger] h[q]).0].priority == p implies exists|z: int| 0 <= z < tp.len()
            && tp[z] == h[q] by {
            if q < h.len() - 1 {
                assert(h[q] == d[q]);
                let z = choose|z: int| 0 <= z < td.len() && td[z] == d[q];
                assert(tp[z] == td[z]);
            } else {
                assert(tp[tp.len() - 1] == h.last());
            }
        }
    }
}

/// When a rule is applied, it is a matching rule with the highest priority
/// among the matching rules, and every matching rule at that priority agrees
/// on the category.
pub proof fn law_highest_priority_wins(t: TxView, rs: Seq<RuleView>)
    requires
        outcome(t, rs) is Applied,
    ensures
        exists|a: int| 0 <= a < rs.len() && (#[trigger] rule_hit(t, rs[a])) is Some && rs[a].id == outcome(t, rs)->Applied_0.rule_id
            && rs[a].category == outcome(t, rs)->Applied_0.category
            && forall|j: int| 0 <= j < rs.len() && (#[trigger] rule_hit(t, rs[j])) is Some ==> rs[j].priority <= rs[a].priority
                && (rs[j].priority == rs[a].priority ==> rs[j].category == rs[a].category),
{
    let h = hits(t, rs, rs.len());
    let p = max_pri(rs, h);
    let tp = top(rs, h, p);
    lemma_hits_sound(t, rs, rs.len());
    lemma_max_pri_upper(rs, h);
    lemma_top_members(rs, h, p);
    lemma_top_nonempty(rs, h);
    let a = tp[0].0;
    let q0 = choose|q: int| 0 <= q < h.len() && h[q] == tp[0];
    assert(h[q0] == tp[0]);
    assert(rule_hit(t, rs[a]) is Some);
    assert forall|j: int| 0 <= j < rs.len() && (#[trigger] rule_hit(t, rs[j])) is Some implies rs[j].priority <= rs[a].priority
        && (rs[j].priority == rs[a].priority ==> rs[j].category == rs[a].category) by {
        lemma_hits_complete(t, rs, rs.len(), j);
        let q = choose|q: int| 0 <= q < h.len() && (#[trigger] h[q]).0 == j;
        assert(rs[h[q].0].priority <= p);
        if rs[j].priority == rs[a].priority {
            let z = choose|z: int| 0 <= z < tp.len() && tp[z] == h[q];
            assert(rs[(tp[z]).0].category == rs[tp[0].0].category);
        }
    }
}

/// Every live transaction lands in exactly one bucket of the report; linked
/// duplicates are passed over.
pub proof fn law_rule_report_accounts_for_every_transaction(txs: Seq<TxView>, rs: Seq<RuleView>)
    ensures
        report_of(txs, rs).applied.len() + report_of(txs, rs).conflicts.len() + report_of(txs, rs).unmatched
            + report_of(txs, rs).skipped + crate::dedupe::count_linked(txs) == txs.len(),
    decreases txs.len(),
{
    if txs.len() > 0 {
        law_rule_report_accounts_for_every_transaction(txs.drop_last(), rs);
    }
}

/// A merchant pattern is tested against the transaction's narration (the
/// canonical merchant key) when it has one, and against the lower-cased payee
/// only when it has none. A rule that matches lists the merchant pattern as its
/// first reason; a rule whose only predicate is the merchant pattern matches
/// exactly when that test succeeds.
pub proof fn law_merchant_pattern_reads_the_narration(t: TxView, r: RuleView, pat: Seq<char>)
    requires
        r.merchant_regex == Some(pat),
    ensures
        rule_hit(t, r) is Some && t.narration is Some ==> regex_match(pat, t.narration.unwrap()) == Some(true),
        rule_hit(t, r) is Some && t.narration is None ==> regex_match(pat, unicode_lower(t.payee)) == Some(true),
        rule_hit(t, r) is Some ==> rule_hit(t, r).unwrap().len() >= 1
            && rule_hit(t, r).unwrap()[0] == "merchant_regex="@ + pat,
        r.payee_regex is None && r.account_regex is None && r.min_amount is None && r.max_amount is None ==> (
            rule_hit(t, r) is Some <==> regex_match(
                pat,
                match t.narration { Some(n) => n, None => unicode_lower(t.payee) },
            ) == Some(true)),
{
}

} // verus!
