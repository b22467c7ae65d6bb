//! Statement rows as imported, and their reconciliation with transactions.
use vstd::prelude::*;

use super::ledger::by_date_id;
use super::{owned, Store};
use crate::ids::{uuid_str, uuid_to_string, ImportBatchId, TransactionId};
use crate::posting::{dup_opt_string, dup_strings, opt_str, PostingView};
use crate::snapshot::LedgerSnapshot;
use crate::text::{nat_str, nat_str_u128, push_chars, push_str, str_eq, str_lt, string_lt};
use crate::adapter::ParseReport;
use crate::convert::{outcomes_view, tx_res_view, ConvertReport};
use crate::raw::{raws_view, RawTransaction, RawTransactions, RawView};
use crate::transaction::{strings_view, Transaction, TxView};

verus! {

#[derive(Clone, Debug)]
pub struct StatementRowSpec {
    pub row_number: i64,
    pub date_raw: Option<String>,
    pub amount_raw: Option<String>,
    pub currency_raw: Option<String>,
    pub description_raw: Option<String>,
    pub balance_raw: Option<String>,
    pub source_refs: Vec<String>,
    pub fingerprint: Option<String>,
    pub parse_status: String,
    pub error: Option<String>,
    pub transaction_id: Option<TransactionId>,
}

#[derive(Clone, Debug)]
pub struct StatementRow {
    pub id: i64,
    pub batch_id: ImportBatchId,
    pub adapter: String,
    pub account_id: String,
    pub row_number: i64,
    pub date_raw: Option<String>,
    pub amount_raw: Option<String>,
    pub currency_raw: Option<String>,
    pub description_raw: Option<String>,
    pub balance_raw: Option<String>,
    pub source_refs: Vec<String>,
    pub fingerprint: Option<String>,
    pub parse_status: String,
    pub error: Option<String>,
    pub transaction_id: Option<TransactionId>,
}

pub struct RowView {
    pub id: i64,
    pub batch_id: ImportBatchId,
    pub adapter: Seq<char>,
    pub account_id: Seq<char>,
    pub row_number: i64,
    pub date_raw: Option<Seq<char>>,
    pub amount_raw: Option<Seq<char>>,
    pub currency_raw: Option<Seq<char>>,
    pub description_raw: Option<Seq<char>>,
    pub balance_raw: Option<Seq<char>>,
    pub source_refs: Seq<Seq<char>>,
    pub fingerprint: Option<Seq<char>>,
    pub parse_status: Seq<char>,
    pub error: Option<Seq<char>>,
    pub transaction_id: Option<TransactionId>,
}

impl View for StatementRow {
    type V = RowView;

    open spec fn view(&self) -> RowView {
        RowView {
            id: self.id,
            batch_id: self.batch_id,
            adapter: self.adapter@,
            account_id: self.account_id@,
            row_number: self.row_number,
            date_raw: opt_str(self.date_raw),
            amount_raw: opt_str(self.amount_raw),
            currency_raw: opt_str(self.currency_raw),
            description_raw: opt_str(self.description_raw),
            balance_raw: opt_str(self.balance_raw),
            source_refs: strings_view(self.source_refs@),
            fingerprint: opt_str(self.fingerprint),
            parse_status: self.parse_status@,
            error: opt_str(self.error),
            transaction_id: self.transaction_id,
        }
    }
}

pub open spec fn rows_view(v: Seq<StatementRow>) -> Seq<RowView> {
    v.map_values(|r: StatementRow| r@)
}

impl StatementRow {
    pub fn duplicate(&self) -> (r: StatementRow)
        ensures
            r@ == self@,
    {
        StatementRow {
            id: self.id,
            batch_id: self.batch_id,
            adapter: self.adapter.clone(),
            account_id: self.account_id.clone(),
            row_number: self.row_number,
            date_raw: dup_opt_string(&self.date_raw),
            amount_raw: dup_opt_string(&self.amount_raw),
            currency_raw: dup_opt_string(&self.currency_raw),
            description_raw: dup_opt_string(&self.description_raw),
            balance_raw: dup_opt_string(&self.balance_raw),
            source_refs: dup_strings(&self.source_refs),
            fingerprint: dup_opt_string(&self.fingerprint),
            parse_status: self.parse_status.clone(),
            error: dup_opt_string(&self.error),
            transaction_id: self.transaction_id,
        }
    }
}

pub struct RowSpecView {
    pub row_number: i64,
    pub date_raw: Option<Seq<char>>,
    pub amount_raw: Option<Seq<char>>,
    pub currency_raw: Option<Seq<char>>,
    pub description_raw: Option<Seq<char>>,
    pub balance_raw: Option<Seq<char>>,
    pub source_refs: Seq<Seq<char>>,
    pub fingerprint: Option<Seq<char>>,
    pub parse_status: Seq<char>,
    pub error: Option<Seq<char>>,
    pub transaction_id: Option<TransactionId>,
}

impl View for StatementRowSpec {
    type V = RowSpecView;

    open spec fn view(&self) -> RowSpecView {
        RowSpecView {
            row_number: self.row_number,
            date_raw: opt_str(self.date_raw),
            amount_raw: opt_str(self.amount_raw),
            currency_raw: opt_str(self.currency_raw),
            description_raw: opt_str(self.description_raw),
            balance_raw: opt_str(self.balance_raw),
            source_refs: strings_view(self.source_refs@),
            fingerprint: opt_str(self.fingerprint),
            parse_status: self.parse_status@,
            error: opt_str(self.error),
            transaction_id: self.transaction_id,
        }
    }
}

pub open spec fn specs_view(v: Seq<StatementRowSpec>) -> Seq<RowSpecView> {
    v.map_values(|r: StatementRowSpec| r@)
}

/// The row spec recorded for a converted raw row: `ok` with the transaction's
/// fingerprint and id, or `convert_error` with the message.
pub open spec fn converted_row_spec(raw: RawView, outcome: Result<TxView, Seq<char>>) -> RowSpecView {
    RowSpecView {
        row_number: raw.row_number as i64,
        date_raw: Some(raw.date_raw),
        amount_raw: Some(raw.amount_raw),
        currency_raw: raw.currency_raw,
        description_raw: Some(raw.description_raw),
        balance_raw: raw.balance_raw,
        source_refs: raw.source_refs,
        fingerprint: match outcome {
            Ok(t) => t.row_fingerprint,
            Err(_) => None,
        },
        parse_status: match outcome {
            Ok(_) => "ok"@,
            Err(_) => "convert_error"@,
        },
        error: match outcome {
            Ok(_) => None,
            Err(m) => Some(m),
        },
        transaction_id: match outcome {
            Ok(t) => Some(t.id),
            Err(_) => None,
        },
    }
}

/// The row spec recorded for a record the adapter could not read.
pub open spec fn parse_error_spec(message: Seq<char>) -> RowSpecView {
    RowSpecView {
        row_number: 0,
        date_raw: None,
        amount_raw: None,
        currency_raw: None,
        description_raw: None,
        balance_raw: None,
        source_refs: Seq::empty(),
        fingerprint: None,
        parse_status: "parse_error"@,
        error: Some(message),
        transaction_id: None,
    }
}

/// The statement rows an import records: one per raw row, in order, then one
/// per record the adapter reported as unreadable.
pub open spec fn import_row_specs(raws: Seq<RawView>, outcomes: Seq<Result<TxView, Seq<char>>>, errors: Seq<Seq<char>>) -> Seq<RowSpecView> {
    Seq::new(raws.len(), |k: int| converted_row_spec(raws[k], outcomes[k])) + errors.map_values(
        |m: Seq<char>| parse_error_spec(m),
    )
}

fn converted_row(raw: &RawTransaction, outcome: &Result<Transaction, String>) -> (r: StatementRowSpec)
    requires
        raw.row_number <= i64::MAX,
    ensures
        r@ == converted_row_spec(raw@, tx_res_view(*outcome)),
{
    let (status, error, fingerprint, transaction_id) = match outcome {
        Ok(t) => (owned("ok"), None, dup_opt_string(&t.row_fingerprint), Some(t.id)),
        Err(m) => (owned("convert_error"), Some(m.clone()), None, None),
    };
    StatementRowSpec {
        row_number: raw.row_number as i64,
        date_raw: Some(raw.date_raw.clone()),
        amount_raw: Some(raw.amount_raw.clone()),
        currency_raw: dup_opt_string(&raw.currency_raw),
        description_raw: Some(raw.description_raw.clone()),
        balance_raw: dup_opt_string(&raw.balance_raw),
        source_refs: dup_strings(&raw.source_refs),
        fingerprint,
        parse_status: status,
        error,
        transaction_id,
    }
}

/// The statement rows to record for an import: each raw row with the outcome
/// of its conversion, then each record the adapter reported as unreadable.
pub fn statement_row_specs(raw: &RawTransactions, converted: &ConvertReport, report: &ParseReport) -> (r: Vec<StatementRowSpec>)
    requires
        converted.row_outcomes.len() == raw.transactions.len(),
        forall|k: int| 0 <= k < raw.transactions.len() ==> #[trigger] raw.transactions@[k].row_number <= i64::MAX,
    ensures
        specs_view(r@) == import_row_specs(
            raws_view(raw.transactions@),
            outcomes_view(converted.row_outcomes@),
            strings_view(report.errors@),
        ),
{
    let ghost raws = raws_view(raw.transactions@);
    let ghost outs = outcomes_view(converted.row_outcomes@);
    let ghost errs = strings_view(report.errors@);
    let mut out: Vec<StatementRowSpec> = Vec::new();
    let mut i: usize = 0;
    while i < raw.transactions.len()
        invariant
            i <= raw.transactions.len(),
            converted.row_outcomes.len() == raw.transactions.len(),
            forall|k: int| 0 <= k < raw.transactions.len() ==> #[trigger] raw.transactions@[k].row_number <= i64::MAX,
            raws == raws_view(raw.transactions@),
            outs == outcomes_view(converted.row_outcomes@),
            specs_view(out@) =~= Seq::new(i as nat, |k: int| converted_row_spec(raws[k], outs[k])),
        decreases raw.transactions.len() - i,
    {
        let row = converted_row(&raw.transactions[i], &converted.row_outcomes[i]);
        assert(row@ == converted_row_spec(raws[i as int], outs[i as int]));
        let ghost prev = out@;
        out.push(row);
        assert(specs_view(out@) =~= specs_view(prev).push(row@));
        i = i + 1;
        assert(specs_view(out@) =~= Seq::new(i as nat, |k: int| converted_row_spec(raws[k], outs[k])));
    }
    let ghost head = specs_view(out@);
    let mut j: usize = 0;
    while j < report.errors.len()
        invariant
            j <= report.errors.len(),
            errs == strings_view(report.errors@),
            specs_view(out@) =~= head + errs.take(j as int).map_values(|m: Seq<char>| parse_error_spec(m)),
        decreases report.errors.len() - j,
    {
        let row = StatementRowSpec {
            row_number: 0,
            date_raw: None,
            amount_raw: None,
            currency_raw: None,
            description_raw: None,
            balance_raw: None,
            source_refs: Vec::new(),
            fingerprint: None,
            parse_status: owned("parse_error"),
            error: Some(report.errors[j].clone()),
            transaction_id: None,
        };
        assert(strings_view(row.source_refs@) =~= Seq::<Seq<char>>::empty());
        assert(row@ == parse_error_spec(errs[j as int]));
        let ghost prev = out@;
        out.push(row);
        assert(specs_view(out@) =~= specs_view(prev).push(row@));
        j = j + 1;
        assert(errs.take(j as int) =~= errs.take(j - 1).push(errs[j - 1]));
        assert(specs_view(out@) =~= head + errs.take(j as int).map_values(|m: Seq<char>| parse_error_spec(m)));
    }
    assert(errs.take(report.errors.len() as int) =~= errs);
    out
}

/// The stored row for a row spec of a batch.
pub open spec fn row_of_spec(id: i64, batch_id: ImportBatchId, adapter: Seq<char>, account_id: Seq<char>, s: RowSpecView) -> RowView {
    RowView {
        id,
        batch_id,
        adapter,
        account_id,
        row_number: s.row_number,
        date_raw: s.date_raw,
        amount_raw: s.amount_raw,
        currency_raw: s.currency_raw,
        description_raw: s.description_raw,
        balance_raw: s.balance_raw,
        source_refs: s.source_refs,
        fingerprint: s.fingerprint,
        parse_status: s.parse_status,
        error: s.error,
        transaction_id: s.transaction_id,
    }
}

/// The rows stored for a batch: numbered on from `first_id`, in order.
pub open spec fn rows_of_specs(first_id: int, batch_id: ImportBatchId, adapter: Seq<char>, account_id: Seq<char>, specs: Seq<RowSpecView>) -> Seq<RowView> {
    Seq::new(specs.len(), |k: int| row_of_spec((first_id + k) as i64, batch_id, adapter, account_id, specs[k]))
}

pub(crate) fn row_from_spec(id: i64, batch_id: ImportBatchId, adapter: &String, account_id: &String, s: &StatementRowSpec) -> (r: StatementRow)
    ensures
        r@ == row_of_spec(id, batch_id, adapter@, account_id@, s@),
{
    StatementRow {
        id,
        batch_id,
        adapter: adapter.clone(),
        account_id: account_id.clone(),
        row_number: s.row_number,
        date_raw: dup_opt_string(&s.date_raw),
        amount_raw: dup_opt_string(&s.amount_raw),
        currency_raw: dup_opt_string(&s.currency_raw),
        description_raw: dup_opt_string(&s.description_raw),
        balance_raw: dup_opt_string(&s.balance_raw),
        source_refs: dup_strings(&s.source_refs),
        fingerprint: dup_opt_string(&s.fingerprint),
        parse_status: s.parse_status.clone(),
        error: dup_opt_string(&s.error),
        transaction_id: s.transaction_id,
    }
}

#[derive(Clone, Debug)]
pub struct RowReconcileReport {
    pub account: String,
    pub matched: usize,
    pub unmatched_rows: Vec<i64>,
    pub convert_errors: Vec<i64>,
    pub parse_errors: Vec<i64>,
    pub unmatched_txns: Vec<String>,
}

pub open spec fn report_ok(r: RowReconcileReport) -> bool {
    r.unmatched_rows@.len() == 0 && r.convert_errors@.len() == 0 && r.parse_errors@.len() == 0
        && r.unmatched_txns@.len() == 0
}

pub open spec fn row_report_markdown(r: RowReconcileReport) -> Seq<char> {
    "# Statement-row reconciliation\n\n"@ + "- account: `"@ + r.account@ + "`\n"@ + "- matched: "@
        + nat_str(r.matched as nat) + "\n"@ + "- unmatched_rows: "@ + nat_str(r.unmatched_rows@.len()) + "\n"@
        + "- convert_errors: "@ + nat_str(r.convert_errors@.len()) + "\n"@ + "- parse_errors: "@
        + nat_str(r.parse_errors@.len()) + "\n"@ + "- unmatched_imported_txns: "@ + nat_str(r.unmatched_txns@.len())
        + "\n"@ + "- status: "@ + (if report_ok(r) { "ROWS_MATCHED"@ } else { "ROW_GAPS"@ }) + "\n"@
}

fn push_count(out: &mut String, label: &str, n: usize)
    ensures
        final(out)@ == old(out)@ + label@ + nat_str(n as nat) + "\n"@,
{
    push_str(out, label);
    let d = nat_str_u128(n as u128);
    push_chars(out, &d);
    push_str(out, "\n");
}

impl RowReconcileReport {
    /// No gaps: every row matched and every imported transaction has its row.
    pub fn ok(&self) -> (r: bool)
        ensures
            r == report_ok(*self),
    {
        self.unmatched_rows.len() == 0 && self.convert_errors.len() == 0 && self.parse_errors.len() == 0
            && self.unmatched_txns.len() == 0
    }

    pub fn to_markdown(&self) -> (r: String)
        ensures
            r@ == row_report_markdown(*self),
    {
        let mut out = owned("# Statement-row reconciliation\n\n");
        push_str(&mut out, "- account: `");
        push_str(&mut out, self.account.as_str());
        push_str(&mut out, "`\n");
        push_count(&mut out, "- matched: ", self.matched);
        push_count(&mut out, "- unmatched_rows: ", self.unmatched_rows.len());
        push_count(&mut out, "- convert_errors: ", self.convert_errors.len());
        push_count(&mut out, "- parse_errors: ", self.parse_errors.len());
        push_count(&mut out, "- unmatched_imported_txns: ", self.unmatched_txns.len());
        push_str(&mut out, "- status: ");
        if self.ok() {
            push_str(&mut out, "ROWS_MATCHED");
        } else {
            push_str(&mut out, "ROW_GAPS");
        }
        push_str(&mut out, "\n");
        assert(out@ =~= row_report_markdown(*self));
        out
    }
}

/// The listing order of statement rows: batch id text, then row number.
pub open spec fn stmt_lt(a: RowView, b: RowView) -> bool {
    str_lt(uuid_str(a.batch_id.0), uuid_str(b.batch_id.0)) || (uuid_str(a.batch_id.0) == uuid_str(b.batch_id.0) && a.row_number < b.row_number)
}

pub open spec fn stmt_pos(s: Seq<RowView>, x: RowView) -> int
    decreases s.len(),
{
    if s.len() == 0 {
        0
    } else if stmt_lt(x, s[0]) {
        0
    } else {
        1 + stmt_pos(s.drop_first(), x)
    }
}

/// The rows of one account, in listing order.
pub open spec fn account_rows(rows: Seq<RowView>, account: Seq<char>) -> Seq<RowView>
    decreases rows.len(),
{
    if rows.len() == 0 {
        rows
    } else {
        let p = account_rows(rows.drop_last(), account);
        if rows.last().account_id == account {
            p.insert(stmt_pos(p, rows.last()), rows.last())
        } else {
            p
        }
    }
}

fn stmt_lt_exec(a: &StatementRow, b: &StatementRow) -> (r: bool)
    ensures
        r == stmt_lt(a@, b@),
{
    let x = uuid_to_string(a.batch_id.0);
    let y = uuid_to_string(b.batch_id.0);
    string_lt(&x, &y) || (str_eq(x.as_str(), y.as_str()) && a.row_number < b.row_number)
}

pub open spec fn opt_id_str(o: Option<TransactionId>) -> Seq<char> {
    match o {
        Some(t) => uuid_str(t.0),
        None => Seq::empty(),
    }
}

pub struct ReconState {
    pub matched: nat,
    pub linked: Seq<Seq<char>>,
    pub unmatched_rows: Seq<i64>,
    pub convert_errors: Seq<i64>,
    pub parse_errors: Seq<i64>,
}

/// Rows marked `ok` with a transaction are matched; `convert_error` and
/// `parse_error` rows are listed as such; every other row is unmatched.
pub open spec fn classify(rows: Seq<RowView>) -> ReconState
    decreases rows.len(),
{
    if rows.len() == 0 {
        ReconState { matched: 0, linked: Seq::empty(), unmatched_rows: Seq::empty(), convert_errors: Seq::empty(), parse_errors: Seq::empty() }
    } else {
        let st = classify(rows.drop_last());
        let r = rows.last();
        if r.parse_status == "ok"@ && r.transaction_id is Some {
            ReconState { matched: st.matched + 1, linked: st.linked.push(opt_id_str(r.transaction_id)), ..st }
        } else if r.parse_status == "convert_error"@ {
            ReconState { convert_errors: st.convert_errors.push(r.id), ..st }
        } else if r.parse_status == "parse_error"@ {
            ReconState { parse_errors: st.parse_errors.push(r.id), ..st }
        } else {
            ReconState { unmatched_rows: st.unmatched_rows.push(r.id), ..st }
        }
    }
}

pub open spec fn posts_to(ps: Seq<PostingView>, account: Seq<char>) -> bool {
    exists|i: int| 0 <= i < ps.len() && (#[trigger] ps[i]).account == account
}

/// Imported transactions on the account that no matched row points at (their id text).
pub open spec fn unmatched_txns(txs: Seq<TxView>, account: Seq<char>, linked: Seq<Seq<char>>) -> Seq<Seq<char>>
    decreases txs.len(),
{
    if txs.len() == 0 {
        Seq::empty()
    } else {
        let p = unmatched_txns(txs.drop_last(), account, linked);
        let t = txs.last();
        if t.import_batch_id is Some && posts_to(t.postings, account) && !linked.contains(uuid_str(t.id.0)) {
            p.push(uuid_str(t.id.0))
        } else {
            p
        }
    }
}

impl Store {
    /// The statement rows of an account, ordered by batch and row number.
    pub fn list_statement_rows(&self, account_id: &str) -> (r: Vec<StatementRow>)
        ensures
            rows_view(r@) == account_rows(self@.rows, account_id@),
    {
        let ghost rv = self@.rows;
        let mut out: Vec<StatementRow> = Vec::new();
        let mut i: usize = 0;
        assert(rv.take(0) =~= Seq::<RowView>::empty());
        while i < self.rows.len()
            invariant
                i <= self.rows.len(),
                rv == self@.rows,
                rv == rows_view(self.rows@),
                rows_view(out@) == account_rows(rv.take(i as int), account_id@),
            decreases self.rows.len() - i,
        {
            let row = &self.rows[i];
            assert(rv.take(i + 1).drop_last() =~= rv.take(i as int));
            assert(rv.take(i + 1).last() == row@);
            if str_eq(row.account_id.as_str(), account_id) {
                let ghost ov = rows_view(out@);
                let mut p: usize = 0;
                assert(ov.skip(0) =~= ov);
                while p < out.len() && !stmt_lt_exec(row, &out[p])
                    invariant
                        p <= out.len(),
                        ov == rows_view(out@),
                        stmt_pos(ov, row@) == p + stmt_pos(ov.skip(p as int), row@),
                    decreases out.len() - p,
                {
                    assert(ov.skip(p as int)[0] == out@[p as int]@);
                    assert(ov.skip(p as int).drop_first() =~= ov.skip(p + 1));
                    p = p + 1;
                }
                proof {
                    if p == out.len() {
                        assert(ov.skip(p as int) =~= Seq::<RowView>::empty());
                    } else {
                        assert(ov.skip(p as int)[0] == out@[p as int]@);
                    }
                }
                out.insert(p, row.duplicate());
                assert(rows_view(out@) =~= ov.insert(p as int, row@));
            }
            i = i + 1;
        }
        assert(rv.take(self.rows.len() as int) =~= rv);
        out
    }

    /// The first stored statement row with this id.
    pub fn get_statement_row(&self, id: i64) -> (r: Option<StatementRow>)
        ensures
            r matches Some(row) ==> row@.id == id && exists|i: int| 0 <= i < self@.rows.len() && self@.rows[i] == row@,
            r is None ==> forall|i: int| 0 <= i < self@.rows.len() ==> (#[trigger] self@.rows[i]).id != id,
    {
        let mut i: usize = 0;
        while i < self.rows.len()
            invariant
                i <= self.rows.len(),
                forall|j: int| 0 <= j < i ==> (#[trigger] self@.rows[j]).id != id,
            decreases self.rows.len() - i,
        {
            assert(self@.rows[i as int] == self.rows@[i as int]@);
            if self.rows[i].id == id {
                return Some(self.rows[i].duplicate());
            }
            i = i + 1;
        }
        None
    }
}

fn contains_text(v: &Vec<String>, s: &String) -> (r: bool)
    ensures
        r == strings_view(v@).contains(s@),
{
    let mut i: usize = 0;
    while i < v.len()
        invariant
            i <= v.len(),
            forall|j: int| 0 <= j < i ==> strings_view(v@)[j] != s@,
        decreases v.len() - i,
    {
        if str_eq(v[i].as_str(), s.as_str()) {
            assert(strings_view(v@)[i as int] == s@);
            return true;
        }
        i = i + 1;
    }
    false
}

fn posts_to_exec(t: &crate::transaction::Transaction, account: &str) -> (r: bool)
    ensures
        r == posts_to(t@.postings, account@),
{
    let mut i: usize = 0;
    while i < t.postings.len()
        invariant
            i <= t.postings.len(),
            forall|j: int| 0 <= j < i ==> (#[trigger] t@.postings[j]).account != account@,
        decreases t.postings.len() - i,
    {
        assert(t@.postings[i as int] == t.postings@[i as int]@);
        if str_eq(t.postings[i].account.as_str(), account) {
            return true;
        }
        i = i + 1;
    }
    false
}

impl Store {
    /// Match persisted statement rows to imported transactions for one account.
    pub fn prove_row_reconcile(&self, account_id: &str) -> (r: RowReconcileReport)
        ensures
            r.account@ == account_id@,
            r.matched == classify(account_rows(self@.rows, account_id@)).matched,
            r.unmatched_rows@ == classify(account_rows(self@.rows, account_id@)).unmatched_rows,
            r.convert_errors@ == classify(account_rows(self@.rows, account_id@)).convert_errors,
            r.parse_errors@ == classify(account_rows(self@.rows, account_id@)).parse_errors,
            strings_view(r.unmatched_txns@) == unmatched_txns(by_date_id(self@.txs), account_id@,
                classify(account_rows(self@.rows, account_id@)).linked),
    {
        let rows = self.list_statement_rows(account_id);
        let ghost rv = rows_view(rows@);
        let mut matched: usize = 0;
        let mut linked: Vec<String> = Vec::new();
        let mut unmatched_rows: Vec<i64> = Vec::new();
        let mut convert_errors: Vec<i64> = Vec::new();
        let mut parse_errors: Vec<i64> = Vec::new();
        let mut i: usize = 0;
        assert(rv.take(0) =~= Seq::<RowView>::empty());
        assert(strings_view(linked@) =~= Seq::<Seq<char>>::empty());
        while i < rows.len()
            invariant
                i <= rows.len(),
                rv == rows_view(rows@),
                matched as nat == classify(rv.take(i as int)).matched,
                matched <= i,
                strings_view(linked@) == classify(rv.take(i as int)).linked,
                unmatched_rows@ == classify(rv.take(i as int)).unmatched_rows,
                convert_errors@ == classify(rv.take(i as int)).convert_errors,
                parse_errors@ == classify(rv.take(i as int)).parse_errors,
            decreases rows.len() - i,
        {
            let row = &rows[i];
            assert(rv.take(i + 1).drop_last() =~= rv.take(i as int));
            assert(rv.take(i + 1).last() == row@);
            if str_eq(row.parse_status.as_str(), "ok") && row.transaction_id.is_some() {
                matched = matched + 1;
                let tid = match row.transaction_id {
                    Some(t) => t,
                    None => TransactionId(0),
                };
                let ids = uuid_to_string(tid.0);
                let ghost prev = linked@;
                linked.push(ids);
                assert(strings_view(linked@) =~= strings_view(prev).push(ids@));
            } else if str_eq(row.parse_status.as_str(), "convert_error") {
                convert_errors.push(row.id);
            } else if str_eq(row.parse_status.as_str(), "parse_error") {
                parse_errors.push(row.id);
            } else {
                unmatched_rows.push(row.id);
            }
            i = i + 1;
        }
        assert(rv.take(rows.len() as int) =~= rv);
        let snapshot = self.load_snapshot();
        let ghost tv = snapshot@;
        let mut unmatched: Vec<String> = Vec::new();
        let mut k: usize = 0;
        assert(tv.take(0) =~= Seq::<TxView>::empty());
        assert(strings_view(unmatched@) =~= Seq::<Seq<char>>::empty());
        while k < snapshot.transactions.len()
            invariant
                k <= snapshot.transactions.len(),
                tv == snapshot@,
                strings_view(unmatched@) == unmatched_txns(tv.take(k as int), account_id@, strings_view(linked@)),
            decreases snapshot.transactions.len() - k,
        {
            let t = &snapshot.transactions[k];
            assert(tv.take(k + 1).drop_last() =~= tv.take(k as int));
            assert(tv.take(k + 1).last() == t@);
            if t.import_batch_id.is_some() && posts_to_exec(t, account_id) {
                let ids = uuid_to_string(t.id.0);
                if !contains_text(&linked, &ids) {
                    let ghost prev = unmatched@;
                    unmatched.push(ids);
                    assert(strings_view(unmatched@) =~= strings_view(prev).push(ids@));
                }
            }
            k = k + 1;
        }
        assert(tv.take(snapshot.transactions.len() as int) =~= tv);
        RowReconcileReport {
            account: owned(account_id),
            matched,
            unmatched_rows,
            convert_errors,
            parse_errors,
            unmatched_txns: unmatched,
        }
    }
}

} // verus!
