//! Exports of a ledger snapshot: CSV rows and the ordered JSON document.
use vstd::prelude::*;

use crate::dedupe::finger_lt;
use crate::ids::{uuid_str, uuid_to_string};
use crate::money::dec_str;
use crate::posting::PostingView;
use crate::snapshot::{dup_txs, txs_view, LedgerSnapshot};
use crate::text::{chars_of, push_char, push_str, str_lt, string_lt, string_of};
use crate::transaction::{Transaction, TxView};

verus! {

#[derive(Clone, Debug)]
pub enum ExportError {
    Io(String),
    Serde(String),
}

impl ExportError {
    pub fn message(&self) -> (r: String)
        ensures
            r@ == match self {
                ExportError::Io(m) => "io error: "@ + m@,
                ExportError::Serde(m) => "serialize error: "@ + m@,
            },
    {
        match self {
            ExportError::Io(m) => {
                let mut s = string_of(chars_of("io error: ").as_slice());
                push_str(&mut s, m.as_str());
                s
            },
            ExportError::Serde(m) => {
                let mut s = string_of(chars_of("serialize error: ").as_slice());
                push_str(&mut s, m.as_str());
                s
            },
        }
    }
}

pub trait Exporter {
    fn id(&self) -> &'static str;

    fn export(&self, snapshot: &LedgerSnapshot) -> Result<String, ExportError>;
}

/// The transactions that are not linked as duplicates, in snapshot order.
pub open spec fn active(txs: Seq<TxView>) -> Seq<TxView>
    decreases txs.len(),
{
    if txs.len() == 0 {
        txs
    } else if txs.last().duplicate_of is Some {
        active(txs.drop_last())
    } else {
        active(txs.drop_last()).push(txs.last())
    }
}

pub open spec fn needs_quotes(s: Seq<char>) -> bool {
    exists|i: int| 0 <= i < s.len() && (#[trigger] s[i] == ',' || s[i] == '"' || s[i] == '\n' || s[i] == '\r')
}

/// `s` with every `"` doubled.
pub open spec fn double_quotes(s: Seq<char>) -> Seq<char>
    decreases s.len(),
{
    if s.len() == 0 {
        s
    } else if s.last() == '"' {
        double_quotes(s.drop_last()) + seq!['"', '"']
    } else {
        double_quotes(s.drop_last()).push(s.last())
    }
}

/// A CSV field: quoted (with quotes doubled) when it holds `,`, `"`, CR or LF.
pub open spec fn csv_quote(s: Seq<char>) -> Seq<char> {
    if needs_quotes(s) {
        seq!['"'] + double_quotes(s) + seq!['"']
    } else {
        s
    }
}

/// Quotes `s` as a CSV field when it needs it.
pub fn csv_field(s: &str) -> (r: String)
    ensures
        r@ == csv_quote(s@),
{
    let c = chars_of(s);
    let mut needs = false;
    let mut i: usize = 0;
    while i < c.len()
        invariant
            i <= c.len(),
            c@ == s@,
            needs == exists|j: int| 0 <= j < i && (#[trigger] c@[j] == ',' || c@[j] == '"' || c@[j] == '\n' || c@[j] == '\r'),
        decreases c.len() - i,
    {
        let ch = c[i];
        if ch == ',' || ch == '"' || ch == '\n' || ch == '\r' {
            needs = true;
        }
        i = i + 1;
    }
    if !needs {
        return string_of(c.as_slice());
    }
    let mut out = string_of(chars_of("").as_slice());
    proof {
        reveal_strlit("");
    }
    push_char(&mut out, '"');
    let mut k: usize = 0;
    assert(out@ =~= seq!['"'] + double_quotes(c@.take(0)));
    while k < c.len()
        invariant
            k <= c.len(),
            c@ == s@,
            out@ == seq!['"'] + double_quotes(c@.take(k as int)),
        decreases c.len() - k,
    {
        assert(c@.take(k + 1).drop_last() =~= c@.take(k as int));
        assert(c@.take(k + 1).last() == c@[k as int]);
        if c[k] == '"' {
            push_char(&mut out, '"');
            push_char(&mut out, '"');
            assert(out@ =~= seq!['"'] + double_quotes(c@.take(k + 1)));
        } else {
            push_char(&mut out, c[k]);
            assert(out@ =~= seq!['"'] + double_quotes(c@.take(k + 1)));
        }
        k = k + 1;
    }
    assert(c@.take(c.len() as int) =~= c@);
    push_char(&mut out, '"');
    out
}

pub open spec fn csv_header() -> Seq<char> {
    "date,tx_id,payee,account,amount,commodity,memo\n"@
}

pub open spec fn csv_line(t: TxView, p: PostingView) -> Seq<char> {
    t.date.text() + ","@ + csv_quote(uuid_str(t.id.0)) + ","@ + csv_quote(t.payee) + ","@
        + csv_quote(p.account) + ","@ + dec_str(p.amount) + ","@ + p.commodity + ","@
        + csv_quote(
        match p.memo {
            Some(m) => m,
            None => Seq::empty(),
        },
    ) + "\n"@
}

pub open spec fn tx_lines(t: TxView, n: nat) -> Seq<char>
    decreases n,
{
    if n == 0 {
        Seq::empty()
    } else {
        tx_lines(t, (n - 1) as nat) + csv_line(t, t.postings[n - 1])
    }
}

pub open spec fn csv_body(txs: Seq<TxView>) -> Seq<char>
    decreases txs.len(),
{
    if txs.len() == 0 {
        Seq::empty()
    } else {
        csv_body(txs.drop_last()) + tx_lines(txs.last(), txs.last().postings.len())
    }
}

#[derive(Clone, Debug)]
/// Canonical posting CSV (duplicates omitted). Deterministic row order.
pub struct CsvExporter;

fn push_field(out: &mut String, s: &str)
    ensures
        final(out)@ == old(out)@ + csv_quote(s@) + ","@,
{
    let f = csv_field(s);
    push_str(out, f.as_str());
    push_str(out, ",");
}

fn csv_line_exec(t: &Transaction, p: &crate::posting::Posting) -> (r: String)
    ensures
        r@ == csv_line(t@, p@),
{
    let mut out = t.date.to_string();
    push_str(&mut out, ",");
    let ids = uuid_to_string(t.id.0);
    push_field(&mut out, ids.as_str());
    push_field(&mut out, t.payee.as_str());
    push_field(&mut out, p.account.as_str());
    let a = p.amount.to_string();
    push_str(&mut out, a.as_str());
    push_str(&mut out, ",");
    push_str(&mut out, p.commodity.as_str());
    push_str(&mut out, ",");
    let memo = match &p.memo {
        Some(m) => csv_field(m.as_str()),
        None => csv_field(""),
    };
    proof {
        reveal_strlit("");
    }
    push_str(&mut out, memo.as_str());
    push_str(&mut out, "\n");
    assert(out@ =~= csv_line(t@, p@));
    out
}

impl Exporter for CsvExporter {
    fn id(&self) -> (r: &'static str)
        ensures
            r@ == "csv"@,
    {
        "csv"
    }

    fn export(&self, snapshot: &LedgerSnapshot) -> (r: Result<String, ExportError>)
        ensures
            r matches Ok(s) && s@ == csv_header() + csv_body(active(snapshot@)),
    {
        let mut out = string_of(chars_of("date,tx_id,payee,account,amount,commodity,memo\n").as_slice());
        let ghost sv = snapshot@;
        let mut i: usize = 0;
        assert(sv.take(0) =~= Seq::<TxView>::empty());
        while i < snapshot.transactions.len()
            invariant
                i <= snapshot.transactions.len(),
                sv == snapshot@,
                out@ == csv_header() + csv_body(active(sv.take(i as int))),
            decreases snapshot.transactions.len() - i,
        {
            let t = &snapshot.transactions[i];
            assert(sv.take(i + 1).drop_last() =~= sv.take(i as int));
            assert(sv.take(i + 1).last() == t@);
            if t.duplicate_of.is_none() {
                let ghost base = out@;
                let mut k: usize = 0;
                while k < t.postings.len()
                    invariant
                        k <= t.postings.len(),
                        out@ == base + tx_lines(t@, k as nat),
                    decreases t.postings.len() - k,
                {
                    assert(t@.postings[k as int] == t.postings@[k as int]@);
                    let line = csv_line_exec(t, &t.postings[k]);
                    push_str(&mut out, line.as_str());
                    assert(out@ =~= base + tx_lines(t@, (k + 1) as nat));
                    k = k + 1;
                }
                let ghost a1 = active(sv.take(i + 1));
                assert(a1 == active(sv.take(i as int)).push(t@));
                assert(a1.drop_last() =~= active(sv.take(i as int)));
                assert(a1.last() == t@);
                assert(t@.postings.len() == t.postings.len());
                assert(csv_body(a1) == csv_body(active(sv.take(i as int))) + tx_lines(t@, t@.postings.len()));
                assert(out@ =~= csv_header() + csv_body(active(sv.take(i + 1))));
            }
            i = i + 1;
        }
        assert(sv.take(snapshot.transactions.len() as int) =~= sv);
        Ok(out)
    }
}

/// Export order: date, then the id's text.
pub open spec fn tx_lt(a: TxView, b: TxView) -> bool {
    a.date.before(b.date) || (a.date == b.date && str_lt(uuid_str(a.id.0), uuid_str(b.id.0)))
}

pub open spec fn tx_pos(s: Seq<TxView>, x: TxView) -> int
    decreases s.len(),
{
    if s.len() == 0 {
        0
    } else if tx_lt(x, s[0]) {
        0
    } else {
        1 + tx_pos(s.drop_first(), x)
    }
}

/// `s` stably sorted by `tx_lt`.
pub open spec fn sort_txs(s: Seq<TxView>) -> Seq<TxView>
    decreases s.len(),
{
    if s.len() == 0 {
        s
    } else {
        let p = sort_txs(s.drop_last());
        p.insert(tx_pos(p, s.last()), s.last())
    }
}

#[derive(Clone, Debug)]
/// The JSON export: the active transactions in export order, written out by
/// `serde_json` where the document is made.
pub struct JsonExporter;

fn tx_lt_exec(a: &Transaction, b: &Transaction) -> (r: bool)
    ensures
        r == tx_lt(a@, b@),
{
    if a.date.lt(b.date) {
        return true;
    }
    if !a.date.eq(b.date) {
        return false;
    }
    let x = uuid_to_string(a.id.0);
    let y = uuid_to_string(b.id.0);
    string_lt(&x, &y)
}

impl JsonExporter {
    pub fn id(&self) -> (r: &'static str)
        ensures
            r@ == "json"@,
    {
        "json"
    }

    /// The snapshot the JSON document holds: duplicates left out, ordered by
    /// date and then id.
    pub fn ordered(&self, snapshot: &LedgerSnapshot) -> (r: LedgerSnapshot)
        ensures
            r@ == sort_txs(active(snapshot@)),
    {
        let ghost sv = snapshot@;
        let mut out: Vec<Transaction> = Vec::new();
        let mut i: usize = 0;
        assert(sv.take(0) =~= Seq::<TxView>::empty());
        while i < snapshot.transactions.len()
            invariant
                i <= snapshot.transactions.len(),
                sv == snapshot@,
                txs_view(out@) == sort_txs(active(sv.take(i as int))),
            decreases snapshot.transactions.len() - i,
        {
            let t = &snapshot.transactions[i];
            assert(sv.take(i + 1).drop_last() =~= sv.take(i as int));
            assert(sv.take(i + 1).last() == t@);
            if t.duplicate_of.is_none() {
                let ghost a1 = active(sv.take(i + 1));
                assert(a1.drop_last() =~= active(sv.take(i as int)));
                let ghost ov = txs_view(out@);
                let mut p: usize = 0;
                assert(ov.skip(0) =~= ov);
                while p < out.len() && !tx_lt_exec(t, &out[p])
                    invariant
                        p <= out.len(),
                        ov == txs_view(out@),
                        tx_pos(ov, t@) == p + tx_pos(ov.skip(p as int), t@),
                    decreases out.len() - p,
                {
                    assert(ov.skip(p as int)[0] == out@[p as int]@);
                    assert(ov.skip(p as int).drop_first() =~= ov.skip(p + 1));
                    p = p + 1;
                }
                proof {
                    if p == out.len() {
                        assert(ov.skip(p as int) =~= Seq::<TxView>::empty());
                    } else {
                        assert(ov.skip(p as int)[0] == out@[p as int]@);
                    }
                }
                let c = t.duplicate();
                out.insert(p, c);
                assert(txs_view(out@) =~= ov.insert(p as int, t@));
            }
            i = i + 1;
        }
        assert(sv.take(snapshot.transactions.len() as int) =~= sv);
        LedgerSnapshot { transactions: out }
    }
}

/// The text of a row up to its amount field.
pub open spec fn line_head(t: TxView, p: PostingView) -> Seq<char> {
    t.date.text() + ","@ + csv_quote(uuid_str(t.id.0)) + ","@ + csv_quote(t.payee) + ","@
        + csv_quote(p.account) + ","@
}

/// The text of a row after its amount field.
pub open spec fn line_tail(p: PostingView) -> Seq<char> {
    ","@ + p.commodity + ","@ + csv_quote(
        match p.memo {
            Some(m) => m,
            None => Seq::empty(),
        },
    ) + "\n"@
}

proof fn lemma_line_parts(t: TxView, p: PostingView)
    ensures
        csv_line(t, p) == line_head(t, p) + dec_str(p.amount) + line_tail(p),
{
    assert(csv_line(t, p) =~= line_head(t, p) + dec_str(p.amount) + line_tail(p));
}

/// Rows keep the sign of the amount: the row of a posting of a negative amount
/// is the row of the same posting with the amount's positive counterpart, with
/// one `-` put in, so two postings that differ only in the sign of a non-zero
/// amount never give the same row.
pub proof fn law_csv_row_keeps_the_sign(t: TxView, p: PostingView, q: PostingView)
    requires
        p.amount.units != 0,
        !p.amount.neg,
        q.amount == crate::money::dec_negated(p.amount),
        q.account == p.account,
        q.commodity == p.commodity,
        q.memo == p.memo,
    ensures
        exists|k: int|
            0 <= k <= csv_line(t, p).len() && csv_line(t, q) == csv_line(t, p).take(k) + seq!['-'] + csv_line(t, p).skip(k),
        csv_line(t, q) != csv_line(t, p),
{
    lemma_line_parts(t, p);
    lemma_line_parts(t, q);
    let h = line_head(t, p);
    let k = h.len() as int;
    assert(line_head(t, q) == h);
    assert(line_tail(q) == line_tail(p));
    assert(dec_str(q.amount) =~= seq!['-'] + dec_str(p.amount));
    assert(csv_line(t, p).take(k) =~= h);
    assert(csv_line(t, p).skip(k) =~= dec_str(p.amount) + line_tail(p));
    assert(csv_line(t, q) =~= csv_line(t, p).take(k) + seq!['-'] + csv_line(t, p).skip(k));
    assert(csv_line(t, q).len() == csv_line(t, p).len() + 1);
}

} // verus!
