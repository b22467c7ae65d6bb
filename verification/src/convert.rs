//! Turning adapter output into balanced double-entry transactions.
use vstd::prelude::*;

use crate::account::AccountId;
use crate::date::{date_str, Date};
use crate::dates::{date_formats, first_parse, parse_date, pivot};
use crate::error::{core_error_msg, CoreError};
use crate::ids::{fingerprint_id, ImportBatchId, TransactionId};
use crate::money::{
    amount_cleaned, commodity_code, commodity_code_ok, debug_str, decimal_parse, dec_negated,
    dec_normalized, dec_str, Amount, Commodity, DecimalValue,
};
use crate::normalize::{display_of, merchant_key, normalize_merchant};
use crate::posting::{opt_str, Posting, PostingView};
use crate::raw::{RawTransaction, RawTransactions, RawView};
use crate::snapshot::txs_view;
use crate::text::{
    chars_of, join, nat_str, nat_str_u128, push_chars, push_str, str_eq, str_le, string_lt,
    string_of, trim, trim_str,
};
use crate::transaction::{strings_view, Transaction, TxView};
use crate::verify::join_strings;

verus! {

#[derive(Clone, Debug)]
pub struct ConvertOptions {
    pub bank_account: AccountId,
    pub expense_account: AccountId,
    pub income_account: AccountId,
    pub default_commodity: Commodity,
    pub import_batch_id: ImportBatchId,
}

pub struct ConvertOptionsView {
    pub bank_account: Seq<char>,
    pub expense_account: Seq<char>,
    pub income_account: Seq<char>,
    pub default_commodity: Seq<char>,
    pub import_batch_id: ImportBatchId,
}

impl View for ConvertOptions {
    type V = ConvertOptionsView;

    open spec fn view(&self) -> ConvertOptionsView {
        ConvertOptionsView {
            bank_account: self.bank_account@,
            expense_account: self.expense_account@,
            income_account: self.income_account@,
            default_commodity: self.default_commodity@,
            import_batch_id: self.import_batch_id,
        }
    }
}

#[derive(Clone, Debug)]
pub struct ConvertReport {
    pub transactions: Vec<Transaction>,
    pub errors: Vec<String>,
    /// Parallel to `raw.transactions`: Ok(tx) or Err(message).
    pub row_outcomes: Vec<Result<Transaction, String>>,
}

/// Where `x` goes into the ascending sequence `s`: before the first element it does not exceed.
pub open spec fn insert_pos(s: Seq<Seq<char>>, x: Seq<char>) -> int
    decreases s.len(),
{
    if s.len() == 0 {
        0
    } else if str_le(x, s[0]) {
        0
    } else {
        1 + insert_pos(s.drop_first(), x)
    }
}

pub open spec fn insert_str(s: Seq<Seq<char>>, x: Seq<char>) -> Seq<Seq<char>> {
    s.insert(insert_pos(s, x), x)
}

/// `s` in ascending (code point, lexicographic) order.
pub open spec fn sort_strs(s: Seq<Seq<char>>) -> Seq<Seq<char>>
    decreases s.len(),
{
    if s.len() == 0 {
        s
    } else {
        insert_str(sort_strs(s.drop_last()), s.last())
    }
}

proof fn lemma_insert_pos_bound(s: Seq<Seq<char>>, x: Seq<char>)
    ensures
        0 <= insert_pos(s, x) <= s.len(),
    decreases s.len(),
{
    if s.len() > 0 && !str_le(x, s[0]) {
        lemma_insert_pos_bound(s.drop_first(), x);
    }
}

proof fn lemma_sort_len(s: Seq<Seq<char>>)
    ensures
        sort_strs(s).len() == s.len(),
    decreases s.len(),
{
    if s.len() > 0 {
        lemma_sort_len(s.drop_last());
        lemma_insert_pos_bound(sort_strs(s.drop_last()), s.last());
    }
}

fn str_le_exec(a: &String, b: &String) -> (r: bool)
    ensures
        r == str_le(a@, b@),
{
    str_eq(a.as_str(), b.as_str()) || string_lt(a, b)
}

fn insert_sorted_string(out: &mut Vec<String>, x: String)
    ensures
        strings_view(final(out)@) == insert_str(strings_view(old(out)@), x@),
{
    let ghost sv = strings_view(out@);
    let mut p: usize = 0;
    assert(sv.skip(0) =~= sv);
    while p < out.len() && !str_le_exec(&x, &out[p])
        invariant
            p <= out.len(),
            sv == strings_view(out@),
            insert_pos(sv, x@) == p + insert_pos(sv.skip(p as int), x@),
        decreases out.len() - p,
    {
        assert(sv.skip(p as int)[0] == out@[p as int]@);
        assert(sv.skip(p as int).drop_first() =~= sv.skip(p + 1));
        p = p + 1;
    }
    proof {
        if p == out.len() {
            assert(sv.skip(p as int) =~= Seq::<Seq<char>>::empty());
        } else {
            assert(sv.skip(p as int)[0] == out@[p as int]@);
        }
    }
    assert(insert_pos(sv, x@) == p);
    out.insert(p, x);
    assert(strings_view(out@) =~= sv.insert(p as int, x@));
}

/// `refs` sorted ascending.
pub fn sorted_strings(refs: &Vec<String>) -> (r: Vec<String>)
    ensures
        strings_view(r@) == sort_strs(strings_view(refs@)),
{
    let ghost rv = strings_view(refs@);
    let mut out: Vec<String> = Vec::new();
    let mut i: usize = 0;
    assert(rv.take(0) =~= Seq::<Seq<char>>::empty());
    while i < refs.len()
        invariant
            i <= refs.len(),
            rv == strings_view(refs@),
            strings_view(out@) == sort_strs(rv.take(i as int)),
        decreases refs.len() - i,
    {
        let x = refs[i].clone();
        assert(rv.take(i + 1).drop_last() =~= rv.take(i as int));
        assert(rv.take(i + 1).last() == x@);
        insert_sorted_string(&mut out, x);
        i = i + 1;
    }
    assert(rv.take(refs.len() as int) =~= rv);
    out
}

/// The import identity of a row: `v1|adapter|account|date|amount|commodity|refs|merchant`,
/// with the references sorted and joined by U+001F. No clock, no batch id.
pub open spec fn fingerprint_text(
    adapter: Seq<char>,
    account: Seq<char>,
    date: Seq<char>,
    amount: Seq<char>,
    commodity: Seq<char>,
    refs: Seq<Seq<char>>,
    merchant: Seq<char>,
) -> Seq<char> {
    "v1|"@ + adapter + "|"@ + account + "|"@ + date + "|"@ + amount + "|"@ + commodity + "|"@
        + join(sort_strs(refs), "\u{1f}"@) + "|"@ + merchant
}

/// Canonical import identity. No wall-clock, no batch id.
pub fn row_fingerprint(
    adapter: &str,
    account: &str,
    date: Date,
    amount: Amount,
    commodity: &Commodity,
    source_refs: &Vec<String>,
    canonical_merchant: &str,
) -> (r: String)
    ensures
        r@ == fingerprint_text(
            adapter@,
            account@,
            date.text(),
            dec_str(dec_normalized(amount@)),
            commodity@,
            strings_view(source_refs@),
            canonical_merchant@,
        ),
{
    let refs = sorted_strings(source_refs);
    let mut s = string_of(chars_of("v1|").as_slice());
    push_str(&mut s, adapter);
    push_str(&mut s, "|");
    push_str(&mut s, account);
    push_str(&mut s, "|");
    let d = date.to_string();
    push_str(&mut s, d.as_str());
    push_str(&mut s, "|");
    let a = amount.canonical_string();
    push_str(&mut s, a.as_str());
    push_str(&mut s, "|");
    push_str(&mut s, commodity.as_str());
    push_str(&mut s, "|");
    let j = join_strings(&refs, "\u{1f}");
    push_str(&mut s, j.as_str());
    push_str(&mut s, "|");
    push_str(&mut s, canonical_merchant);
    s
}

/// The commodity a row asks for: its trimmed currency code when one is given,
/// otherwise the default; the error message when the code is not valid.
pub open spec fn row_commodity(currency: Option<Seq<char>>, default: Seq<char>) -> Result<Seq<char>, Seq<char>> {
    match currency {
        Some(code) => if trim(code).len() > 0 {
            if commodity_code_ok(commodity_code(trim(code))) {
                Ok(commodity_code(trim(code)))
            } else {
                Err("invalid money amount: "@ + "invalid commodity code: "@ + debug_str(commodity_code(trim(code))))
            }
        } else {
            Ok(default)
        },
        None => Ok(default),
    }
}

/// The transaction a converted row becomes.
pub open spec fn converted_tx(
    t: TxView,
    row: RawView,
    adapter: Seq<char>,
    o: ConvertOptionsView,
    ymd: (int, int, int),
    v: DecimalValue,
    c: Seq<char>,
) -> bool {
    let key = merchant_key(display_of(row.description_raw));
    let fp = fingerprint_text(
        adapter,
        o.bank_account,
        date_str(ymd.0, ymd.1, ymd.2),
        dec_str(dec_normalized(v)),
        c,
        row.source_refs,
        key,
    );
    let offset = if v.neg { o.expense_account } else { o.income_account };
    &&& (t.date.y(), t.date.m(), t.date.d()) == ymd
    &&& t.id == TransactionId(fingerprint_id(fp))
    &&& t.payee == trim(row.description_raw)
    &&& t.postings == seq![
        PostingView { account: o.bank_account, amount: v, commodity: c, memo: Some(join(row.source_refs, ","@)) },
        PostingView { account: offset, amount: dec_negated(v), commodity: c, memo: None },
    ]
    &&& t.merchant_id is None
    &&& t.narration == Some(key)
    &&& t.import_batch_id == Some(o.import_batch_id)
    &&& t.duplicate_of is None
    &&& t.tags.len() == 0
    &&& t.row_fingerprint == Some(fp)
}

/// What converting one raw row owes: the first failing step's message, or the
/// balanced transaction (bank leg first, offset leg to expense for a negative
/// amount and to income otherwise).
pub open spec fn convert_one_ok(row: RawView, adapter: Seq<char>, o: ConvertOptionsView, r: Result<TxView, Seq<char>>) -> bool {
    match first_parse(trim(row.date_raw), date_formats()) {
        None => r == Err::<TxView, Seq<char>>("unparseable date "@ + debug_str(row.date_raw)),
        Some(t) => match decimal_parse(amount_cleaned(row.amount_raw)) {
            Err(m) => r == Err::<TxView, Seq<char>>("invalid money amount: "@ + row.amount_raw + ": "@ + m),
            Ok(v) => if v.units == 0 {
                r == Err::<TxView, Seq<char>>("amount is zero"@)
            } else {
                match row_commodity(row.currency_raw, o.default_commodity) {
                    Err(m) => r == Err::<TxView, Seq<char>>(m),
                    Ok(c) => r matches Ok(tx) && converted_tx(tx, row, adapter, o, pivot(t), v, c),
                }
            },
        },
    }
}

pub open spec fn tx_res_view(r: Result<Transaction, String>) -> Result<TxView, Seq<char>> {
    match r {
        Ok(t) => Ok(t@),
        Err(m) => Err(m@),
    }
}

fn owned(s: &str) -> (r: String)
    ensures
        r@ == s@,
{
    string_of(chars_of(s).as_slice())
}

fn row_commodity_exec(currency: &Option<String>, default: &Commodity) -> (r: Result<Commodity, String>)
    ensures
        match row_commodity(opt_str(*currency), default@) {
            Ok(c) => r matches Ok(x) && x@ == c,
            Err(m) => r matches Err(x) && x@ == m,
        },
{
    match currency {
        Some(code) => {
            let t = trim_str(code.as_str());
            if t.len() > 0 {
                let ts = string_of(t.as_slice());
                match Commodity::new(ts.as_str()) {
                    Ok(c) => Ok(c),
                    Err(e) => Err(e.message()),
                }
            } else {
                Ok(default.duplicate())
            }
        },
        None => Ok(default.duplicate()),
    }
}

fn convert_one(row: &RawTransaction, adapter: &str, opts: &ConvertOptions) -> (r: Result<Transaction, String>)
    ensures
        convert_one_ok(row@, adapter@, opts@, tx_res_view(r)),
{
    let date = match parse_date(row.date_raw.as_str()) {
        Ok(d) => d,
        Err(e) => return Err(e.message()),
    };
    let amount = match Amount::parse(row.amount_raw.as_str()) {
        Ok(a) => a,
        Err(e) => {
            let m = e.message();
            proof {
                if let Err(pm) = decimal_parse(amount_cleaned(row.amount_raw@)) {
                    assert(m@ =~= "invalid money amount: "@ + row.amount_raw@ + ": "@ + pm);
                }
            }
            return Err(m);
        },
    };
    amount.check_valid();
    if amount.is_zero() {
        return Err(owned("amount is zero"));
    }
    let commodity = match row_commodity_exec(&row.currency_raw, &opts.default_commodity) {
        Ok(c) => c,
        Err(m) => return Err(m),
    };
    let merchant = normalize_merchant(row.description_raw.as_str());
    let offset_account = if amount.is_sign_negative() {
        opts.expense_account.duplicate()
    } else {
        opts.income_account.duplicate()
    };
    let offset = match amount.checked_neg() {
        Some(o) => o,
        None => return Err(owned("amount negation overflow")),
    };
    let fp = row_fingerprint(
        adapter,
        opts.bank_account.as_str(),
        date,
        amount,
        &commodity,
        &row.source_refs,
        merchant.canonical_key.as_str(),
    );
    let memo = join_strings(&row.source_refs, ",");
    let p1 = Posting::new(opts.bank_account.duplicate(), amount, commodity.duplicate()).with_memo(memo.as_str());
    let p2 = Posting::new(offset_account, offset, commodity);
    let mut ps: Vec<Posting> = Vec::new();
    ps.push(p1);
    ps.push(p2);
    let ghost pv = crate::posting::postings_view(ps@);
    assert(pv =~= seq![p1@, p2@]);
    proof {
        crate::verify::lemma_transfer_fits(p1@, p2@);
    }
    let desc = string_of(trim_str(row.description_raw.as_str()).as_slice());
    let r = Transaction::new(date, desc.as_str(), ps);
    proof {
        if r is Err {
            crate::verify::lemma_transfer_balanced(pv);
        }
    }
    let mut tx = match r {
        Ok(t) => t,
        Err(e) => return Err(e.message()),
    };
    tx.id = TransactionId::from_fingerprint(fp.as_str());
    tx.row_fingerprint = Some(fp);
    tx.import_batch_id = Some(opts.import_batch_id);
    tx.narration = Some(merchant.canonical_key);
    Ok(tx)
}

pub open spec fn outcomes_view(v: Seq<Result<Transaction, String>>) -> Seq<Result<TxView, Seq<char>>> {
    v.map_values(|r: Result<Transaction, String>| tx_res_view(r))
}

/// The accepted transactions among `os`, in order.
pub open spec fn ok_txs(os: Seq<Result<TxView, Seq<char>>>) -> Seq<TxView>
    decreases os.len(),
{
    if os.len() == 0 {
        Seq::empty()
    } else {
        match os.last() {
            Ok(t) => ok_txs(os.drop_last()).push(t),
            Err(_) => ok_txs(os.drop_last()),
        }
    }
}

/// `row N: message` for every failed row, in order.
pub open spec fn err_lines(rows: Seq<RawView>, os: Seq<Result<TxView, Seq<char>>>) -> Seq<Seq<char>>
    decreases os.len(),
{
    if os.len() == 0 {
        Seq::empty()
    } else {
        let prev = err_lines(rows.drop_last(), os.drop_last());
        match os.last() {
            Ok(_) => prev,
            Err(m) => prev.push("row "@ + nat_str(rows.last().row_number) + ": "@ + m),
        }
    }
}

/// The report `convert_raw` owes for rows `rows` and outcomes `os`.
pub open spec fn report_ok(r: ConvertReport, rows: Seq<RawView>, adapter: Seq<char>, o: ConvertOptionsView) -> bool {
    let os = outcomes_view(r.row_outcomes@);
    &&& os.len() == rows.len()
    &&& forall|i: int| 0 <= i < rows.len() ==> convert_one_ok(rows[i], adapter, o, #[trigger] os[i])
    &&& txs_view(r.transactions@) == ok_txs(os)
    &&& strings_view(r.errors@) == err_lines(rows, os)
}

/// Turn adapter output into balanced double-entry transactions.
/// Failed rows are recorded in `errors` and never silently dropped.
pub fn convert_raw(raw: &RawTransactions, opts: &ConvertOptions) -> (r: ConvertReport)
    ensures
        report_ok(r, crate::raw::raws_view(raw.transactions@), raw.adapter_id@, opts@),
{
    let ghost rows = crate::raw::raws_view(raw.transactions@);
    let mut report = ConvertReport { transactions: Vec::new(), errors: Vec::new(), row_outcomes: Vec::new() };
    let mut i: usize = 0;
    assert(outcomes_view(report.row_outcomes@) =~= Seq::<Result<TxView, Seq<char>>>::empty());
    assert(txs_view(report.transactions@) =~= Seq::<TxView>::empty());
    assert(strings_view(report.errors@) =~= Seq::<Seq<char>>::empty());
    while i < raw.transactions.len()
        invariant
            i <= raw.transactions.len(),
            rows == crate::raw::raws_view(raw.transactions@),
            report_ok(report, rows.take(i as int), raw.adapter_id@, opts@),
        decreases raw.transactions.len() - i,
    {
        let row = &raw.transactions[i];
        let ghost pt = report.transactions@;
        let ghost pe = report.errors@;
        let ghost po = report.row_outcomes@;
        let ghost rows1 = rows.take(i + 1);
        assert(rows1.drop_last() =~= rows.take(i as int));
        assert(rows1.last() == row@);
        match convert_one(row, raw.adapter_id.as_str(), opts) {
            Ok(tx) => {
                let copy = tx.duplicate();
                report.row_outcomes.push(Ok(copy));
                report.transactions.push(tx);
                assert(outcomes_view(report.row_outcomes@).drop_last() =~= outcomes_view(po));
                assert(txs_view(report.transactions@) =~= txs_view(pt).push(tx@));
            },
            Err(err) => {
                let mut msg = owned("row ");
                let num = nat_str_u128(row.row_number as u128);
                push_chars(&mut msg, &num);
                push_str(&mut msg, ": ");
                push_str(&mut msg, err.as_str());
                report.row_outcomes.push(Err(err));
                report.errors.push(msg);
                assert(outcomes_view(report.row_outcomes@).drop_last() =~= outcomes_view(po));
                assert(strings_view(report.errors@) =~= strings_view(pe).push(msg@));
            },
        }
        let ghost os = outcomes_view(report.row_outcomes@);
        assert forall|k: int| 0 <= k < rows1.len() implies convert_one_ok(rows1[k], raw.adapter_id@, opts@, #[trigger] os[k]) by {
            if k < i {
                assert(os[k] == outcomes_view(po)[k]);
                assert(rows1[k] == rows.take(i as int)[k]);
            }
        }
        i = i + 1;
    }
    assert(rows.take(raw.transactions.len() as int) =~= rows);
    report
}

proof fn lemma_outcome_counts(rows: Seq<RawView>, os: Seq<Result<TxView, Seq<char>>>)
    requires
        rows.len() == os.len(),
    ensures
        ok_txs(os).len() + err_lines(rows, os).len() == os.len(),
    decreases os.len(),
{
    if os.len() > 0 {
        lemma_outcome_counts(rows.drop_last(), os.drop_last());
    }
}

/// Every row is accounted for: it becomes a transaction or an error line, and
/// the outcome list is parallel to the rows.
pub proof fn law_convert_accounts_for_every_row(r: ConvertReport, rows: Seq<RawView>, adapter: Seq<char>, o: ConvertOptionsView)
    requires
        report_ok(r, rows, adapter, o),
    ensures
        r.row_outcomes@.len() == rows.len(),
        r.transactions@.len() + r.errors@.len() == rows.len(),
{
    lemma_outcome_counts(rows, outcomes_view(r.row_outcomes@));
}

/// The same row converts to the same id and fingerprint whatever import batch
/// it arrives in: the batch id reaches only `import_batch_id`.
pub proof fn law_row_identity_ignores_batch(
    row: RawView,
    adapter: Seq<char>,
    o1: ConvertOptionsView,
    o2: ConvertOptionsView,
    t1: TxView,
    t2: TxView,
)
    requires
        o1.bank_account == o2.bank_account,
        o1.expense_account == o2.expense_account,
        o1.income_account == o2.income_account,
        o1.default_commodity == o2.default_commodity,
        convert_one_ok(row, adapter, o1, Ok(t1)),
        convert_one_ok(row, adapter, o2, Ok(t2)),
    ensures
        t1.id == t2.id,
        t1.row_fingerprint == t2.row_fingerprint,
        t1.postings == t2.postings,
        t1.import_batch_id == Some(o1.import_batch_id),
        t2.import_batch_id == Some(o2.import_batch_id),
{
}

/// A converted transaction balances: its two legs are one amount and its negation.
pub proof fn law_converted_tx_balances(row: RawView, adapter: Seq<char>, o: ConvertOptionsView, t: TxView)
    requires
        convert_one_ok(row, adapter, o, Ok(t)),
    ensures
        t.postings.len() == 2,
        t.postings[1].amount == dec_negated(t.postings[0].amount),
        t.postings[0].commodity == t.postings[1].commodity,
        t.postings[0].account == o.bank_account,
{
}

/// A converted row books its amount, as parsed from the row, on the bank
/// account, and the offset leg goes to the expense account exactly when that
/// amount is negative (money out) and to the income account otherwise.
pub proof fn law_offset_account_follows_the_sign(row: RawView, adapter: Seq<char>, o: ConvertOptionsView, t: TxView)
    requires
        convert_one_ok(row, adapter, o, Ok(t)),
    ensures
        t.postings.len() == 2,
        decimal_parse(amount_cleaned(row.amount_raw)) == Ok::<DecimalValue, Seq<char>>(t.postings[0].amount),
        t.postings[0].amount.units != 0,
        t.postings[0].amount.neg ==> t.postings[1].account == o.expense_account,
        !t.postings[0].amount.neg ==> t.postings[1].account == o.income_account,
{
}

} // verus!
