//! Reconciliation: prove a statement's ending balance from the postings.
use vstd::prelude::*;

use crate::account::AccountId;
use crate::date::Date;
use crate::error::CoreError;
use crate::ids::{uuid_str, TransactionId};
use crate::money::{
    dec_negated, dec_str, dec_sum_fits, dec_value, decimal_checked_add, decimal_checked_sub, lemma_zero_value, Amount,
    Commodity, DecimalValue,
};
use crate::posting::PostingView;
use crate::snapshot::LedgerSnapshot;
use crate::text::{chars_lt, chars_of, push_char, push_str, str_lt, string_of};
use crate::transaction::{Transaction, TxView};
use crate::verify::zero_dec;

verus! {

#[derive(Clone, Debug)]
pub struct ReconcileRequest {
    pub account: AccountId,
    pub commodity: Commodity,
    pub as_of: Date,
    pub stated_ending: Amount,
    pub starting: Amount,
}

#[derive(Clone, Debug)]
pub struct ProofLine {
    pub transaction_id: TransactionId,
    pub date: Date,
    pub payee: String,
    pub amount: Amount,
}

pub struct LineView {
    pub id: TransactionId,
    pub date: Date,
    pub payee: Seq<char>,
    pub amount: DecimalValue,
}

impl View for ProofLine {
    type V = LineView;

    open spec fn view(&self) -> LineView {
        LineView { id: self.transaction_id, date: self.date, payee: self.payee@, amount: self.amount@ }
    }
}

pub open spec fn lines_view(v: Seq<ProofLine>) -> Seq<LineView> {
    v.map_values(|l: ProofLine| l@)
}

#[derive(Clone, Debug)]
pub struct ReconcileProof {
    pub account: String,
    pub commodity: String,
    pub as_of: Date,
    pub starting: Amount,
    pub computed_ending: Amount,
    pub stated_ending: Amount,
    pub unexplained_delta: Amount,
    pub matched: Vec<ProofLine>,
    pub skipped_duplicates: Vec<ProofLine>,
    pub after_as_of: Vec<ProofLine>,
}

/// Postings of a transaction on the account in the commodity.
pub open spec fn touches(ps: Seq<PostingView>, a: Seq<char>, c: Seq<char>) -> bool {
    exists|i: int| 0 <= i < ps.len() && #[trigger] ps[i].account == a && ps[i].commodity == c
}

/// The checked sum of a transaction's postings on the account in the commodity.
pub open spec fn tx_hit(ps: Seq<PostingView>, a: Seq<char>, c: Seq<char>) -> Option<DecimalValue>
    decreases ps.len(),
{
    if ps.len() == 0 {
        Some(zero_dec())
    } else {
        let prev = tx_hit(ps.drop_last(), a, c);
        if ps.last().account == a && ps.last().commodity == c {
            match prev {
                Some(h) => decimal_checked_add(h, ps.last().amount),
                None => None,
            }
        } else {
            prev
        }
    }
}

pub struct ScanState {
    pub matched: Seq<LineView>,
    pub skipped: Seq<LineView>,
    pub after: Seq<LineView>,
    pub activity: DecimalValue,
}

pub open spec fn line_of(t: TxView, h: DecimalValue) -> LineView {
    LineView { id: t.id, date: t.date, payee: t.payee, amount: h }
}

/// One pass over the transactions: transactions that touch the account are
/// excluded when dated after `as_of`, skipped when they are duplicates, and
/// otherwise matched and added to the activity. None on an overflow.
pub open spec fn recon_scan(txs: Seq<TxView>, a: Seq<char>, c: Seq<char>, as_of: Date) -> Option<
    ScanState,
>
    decreases txs.len(),
{
    if txs.len() == 0 {
        Some(
            ScanState {
                matched: Seq::empty(),
                skipped: Seq::empty(),
                after: Seq::empty(),
                activity: zero_dec(),
            },
        )
    } else {
        match recon_scan(txs.drop_last(), a, c, as_of) {
            None => None,
            Some(st) => {
                let t = txs.last();
                if !touches(t.postings, a, c) {
                    Some(st)
                } else {
                    match tx_hit(t.postings, a, c) {
                        None => None,
                        Some(h) => if as_of.before(t.date) {
                            Some(ScanState { after: st.after.push(line_of(t, h)), ..st })
                        } else if t.duplicate_of is Some {
                            Some(ScanState { skipped: st.skipped.push(line_of(t, h)), ..st })
                        } else {
                            match decimal_checked_add(st.activity, h) {
                                None => None,
                                Some(n) => Some(
                                    ScanState {
                                        matched: st.matched.push(line_of(t, h)),
                                        activity: n,
                                        ..st
                                    },
                                ),
                            }
                        },
                    }
                }
            },
        }
    }
}

/// Every addition to the running activity is exact: the sum fits at the
/// larger scale of the two amounts.
pub open spec fn scan_fits(txs: Seq<TxView>, a: Seq<char>, c: Seq<char>, as_of: Date) -> bool
    decreases txs.len(),
{
    if txs.len() == 0 {
        true
    } else {
        scan_fits(txs.drop_last(), a, c, as_of) && match recon_scan(txs.drop_last(), a, c, as_of) {
            None => true,
            Some(st) => {
                let t = txs.last();
                match tx_hit(t.postings, a, c) {
                    Some(h) => (touches(t.postings, a, c) && !as_of.before(t.date) && t.duplicate_of is None)
                        ==> dec_sum_fits(st.activity, h),
                    None => true,
                }
            },
        }
    }
}

/// The sum of the lines' amounts, as numbers.
pub open spec fn lines_total(ls: Seq<LineView>) -> int
    decreases ls.len(),
{
    if ls.len() == 0 {
        0
    } else {
        dec_value(ls[0].amount) + lines_total(ls.drop_first())
    }
}

proof fn lemma_lines_total_push(ls: Seq<LineView>, x: LineView)
    ensures
        lines_total(ls.push(x)) == lines_total(ls) + dec_value(x.amount),
    decreases ls.len(),
{
    if ls.len() > 0 {
        lemma_lines_total_push(ls.drop_first(), x);
        assert(ls.push(x).drop_first() =~= ls.drop_first().push(x));
        assert(ls.push(x)[0] == ls[0]);
    } else {
        assert(ls.push(x).drop_first() =~= Seq::<LineView>::empty());
        assert(ls.push(x)[0] == x);
        assert(lines_total(Seq::<LineView>::empty()) == 0);
    }
}

proof fn lemma_lines_total_insert(ls: Seq<LineView>, x: LineView)
    ensures
        lines_total(insert_line(ls, x)) == lines_total(ls) + dec_value(x.amount),
    decreases ls.len(),
{
    if ls.len() == 0 {
        assert(seq![x].drop_first() =~= Seq::<LineView>::empty());
        assert(lines_total(Seq::<LineView>::empty()) == 0);
        assert(seq![x][0] == x);
    } else if line_lt(x, ls[0]) {
        assert((seq![x] + ls).drop_first() =~= ls);
        assert((seq![x] + ls)[0] == x);
    } else {
        lemma_lines_total_insert(ls.drop_first(), x);
        let rest = insert_line(ls.drop_first(), x);
        assert((seq![ls[0]] + rest).drop_first() =~= rest);
        assert((seq![ls[0]] + rest)[0] == ls[0]);
    }
}

/// Sorting the lines keeps their total.
proof fn lemma_lines_total_sorted(ls: Seq<LineView>)
    ensures
        lines_total(sort_lines(ls)) == lines_total(ls),
    decreases ls.len(),
{
    if ls.len() > 0 {
        lemma_lines_total_sorted(ls.drop_last());
        lemma_lines_total_insert(sort_lines(ls.drop_last()), ls.last());
        lemma_lines_total_push(ls.drop_last(), ls.last());
        assert(ls.drop_last().push(ls.last()) =~= ls);
    }
}

/// `x` orders strictly before `y`: by date, then by the id's text.
pub open spec fn line_lt(x: LineView, y: LineView) -> bool {
    x.date.before(y.date) || (x.date == y.date && str_lt(uuid_str(x.id.0), uuid_str(y.id.0)))
}

/// Inserts `x` after every element that does not order after it.
pub open spec fn insert_line(l: Seq<LineView>, x: LineView) -> Seq<LineView>
    decreases l.len(),
{
    if l.len() == 0 {
        seq![x]
    } else if line_lt(x, l[0]) {
        seq![x] + l
    } else {
        seq![l[0]] + insert_line(l.drop_first(), x)
    }
}

/// Stable sort by (date, id text), as `sort_by` does.
pub open spec fn sort_lines(s: Seq<LineView>) -> Seq<LineView>
    decreases s.len(),
{
    if s.len() == 0 {
        Seq::empty()
    } else {
        insert_line(sort_lines(s.drop_last()), s.last())
    }
}

/// The outcome `prove_reconcile` owes for these transactions and this request.
pub open spec fn reconcile_ok(
    p: ReconcileProof,
    txs: Seq<TxView>,
    a: Seq<char>,
    c: Seq<char>,
    as_of: Date,
    starting: DecimalValue,
    stated: DecimalValue,
) -> bool {
    let st = recon_scan(txs, a, c, as_of).unwrap();
    let computed = decimal_checked_add(starting, st.activity).unwrap();
    &&& p.account@ == a
    &&& p.commodity@ == c
    &&& p.as_of == as_of
    &&& p.starting@ == starting
    &&& p.stated_ending@ == stated
    &&& p.computed_ending@ == computed
    &&& Some(p.unexplained_delta@) == decimal_checked_sub(computed, stated)
    &&& lines_view(p.matched@) == sort_lines(st.matched)
    &&& lines_view(p.skipped_duplicates@) == sort_lines(st.skipped)
    &&& lines_view(p.after_as_of@) == sort_lines(st.after)
}

fn line_lt_exec(x: &ProofLine, y: &ProofLine) -> (r: bool)
    ensures
        r == line_lt(x@, y@),
{
    if x.date.lt(y.date) {
        return true;
    }
    if !x.date.eq(y.date) {
        return false;
    }
    let a = x.transaction_id.to_string();
    let b = y.transaction_id.to_string();
    let av = chars_of(a.as_str());
    let bv = chars_of(b.as_str());
    chars_lt(av.as_slice(), bv.as_slice())
}

fn insert_line_exec(list: &mut Vec<ProofLine>, x: ProofLine)
    ensures
        lines_view(final(list)@) == insert_line(lines_view(old(list)@), x@),
{
    let ghost l = lines_view(list@);
    let mut k: usize = 0;
    assert(l.skip(0) =~= l);
    assert(l.take(0) + insert_line(l.skip(0), x@) =~= insert_line(l, x@));
    while k < list.len()
        invariant
            k <= list.len(),
            l == lines_view(list@),
            l == lines_view(old(list)@),
            insert_line(l, x@) == l.take(k as int) + insert_line(l.skip(k as int), x@),
        decreases list.len() - k,
    {
        assert(l.skip(k as int)[0] == l[k as int]);
        if line_lt_exec(&x, &list[k]) {
            assert(insert_line(l.skip(k as int), x@) == seq![x@] + l.skip(k as int));
            let ghost xv = x@;
            list.insert(k, x);
            assert(lines_view(list@) =~= l.take(k as int) + (seq![xv] + l.skip(k as int)));
            return;
        }
        assert(l.skip(k as int).drop_first() =~= l.skip(k + 1));
        assert(l.take(k + 1) =~= l.take(k as int) + seq![l[k as int]]);
        k = k + 1;
    }
    assert(l.skip(k as int) =~= Seq::<LineView>::empty());
    let ghost xv = x@;
    list.push(x);
    assert(lines_view(list@) =~= l.take(k as int) + seq![xv]);
}

fn sort_lines_exec(v: Vec<ProofLine>) -> (r: Vec<ProofLine>)
    ensures
        lines_view(r@) == sort_lines(lines_view(v@)),
{
    let ghost sv = lines_view(v@);
    let n = v.len();
    let mut out: Vec<ProofLine> = Vec::new();
    let mut rest = v;
    let mut i: usize = 0;
    // take elements from the front: reverse first so that pop yields them in order
    let mut rev: Vec<ProofLine> = Vec::new();
    while rest.len() > 0
        invariant
            lines_view(rev@) + lines_view(rest@).reverse() == sv.reverse(),
        decreases rest.len(),
    {
        let ghost before = rest@;
        let x = rest.pop().unwrap();
        assert(before == rest@.push(x));
        let ghost rv = rev@;
        rev.push(x);
        assert(lines_view(before) =~= lines_view(rest@).push(x@));
        assert(lines_view(before).reverse() =~= seq![x@] + lines_view(rest@).reverse());
        assert(lines_view(rev@) =~= lines_view(rv).push(x@));
        assert(lines_view(rev@) + lines_view(rest@).reverse() =~= lines_view(rv) + lines_view(
            before,
        ).reverse());
    }
    assert(lines_view(rest@).reverse() =~= Seq::<LineView>::empty());
    assert(lines_view(rev@) =~= sv.reverse());
    assert(sv.take(0) =~= Seq::<LineView>::empty());
    while rev.len() > 0
        invariant
            i + rev@.len() == sv.len(),
            sv.len() == n,
            i <= sv.len(),
            lines_view(rev@) == sv.skip(i as int).reverse(),
            lines_view(out@) == sort_lines(sv.take(i as int)),
        decreases rev.len(),
    {
        let ghost before = rev@;
        let x = rev.pop().unwrap();
        assert(before == rev@.push(x));
        assert(lines_view(before) =~= lines_view(rev@).push(x@));
        assert(sv.skip(i as int).reverse().last() == sv[i as int]);
        assert(x@ == sv[i as int]);
        assert(sv.skip(i + 1).reverse() =~= sv.skip(i as int).reverse().drop_last());
        assert(sv.take(i + 1).drop_last() =~= sv.take(i as int));
        insert_line_exec(&mut out, x);
        i = i + 1;
    }
    assert(sv.take(i as int) =~= sv);
    out
}

fn overflow_msg(req: &ReconcileRequest) -> (r: String)
    ensures
        r@ == "overflow summing "@ + req.account@ + " "@ + req.commodity@,
{
    let mut s = string_of(chars_of("overflow summing ").as_slice());
    push_str(&mut s, req.account.as_str());
    push_str(&mut s, " ");
    push_str(&mut s, req.commodity.as_str());
    s
}

/// The checked sum of a transaction's postings on the request's account and commodity.
fn hit_of(tx: &Transaction, req: &ReconcileRequest) -> (r: (Option<Amount>, bool))
    ensures
        crate::money::opt_dec(r.0) == tx_hit(tx@.postings, req.account@, req.commodity@),
        r.1 == touches(tx@.postings, req.account@, req.commodity@),
{
    let ghost pv = tx@.postings;
    let ghost a = req.account@;
    let ghost c = req.commodity@;
    let mut hit = Amount::zero();
    let mut any = false;
    let mut j: usize = 0;
    assert(pv.take(0) =~= Seq::<PostingView>::empty());
    while j < tx.postings.len()
        invariant
            j <= tx.postings.len(),
            pv == tx@.postings,
            a == req.account@,
            c == req.commodity@,
            tx_hit(pv.take(j as int), a, c) == Some(hit@),
            any == touches(pv.take(j as int), a, c),
        decreases tx.postings.len() - j,
    {
        let p = &tx.postings[j];
        assert(pv.take(j + 1).drop_last() =~= pv.take(j as int));
        assert(pv.take(j + 1).last() == p@);
        if p.account.same(&req.account) && p.commodity.same(&req.commodity) {
            assert(pv.take(j + 1)[j as int] == p@);
            any = true;
            match hit.checked_add(p.amount) {
                Some(h) => {
                    hit = h;
                },
                None => {
                    proof {
                        lemma_hit_none_extends(pv, a, c, j + 1);
                        assert(pv[j as int] == p@);
                        assert(pv[j as int].account == a && pv[j as int].commodity == c);
                    }
                    return (None, true);
                },
            }
        } else {
            proof {
                if touches(pv.take(j + 1), a, c) {
                    let k = choose|k: int|
                        0 <= k < pv.take(j + 1).len() && #[trigger] pv.take(j + 1)[k].account == a
                            && pv.take(j + 1)[k].commodity == c;
                    assert(pv.take(j as int)[k].account == a);
                }
                if touches(pv.take(j as int), a, c) {
                    let k = choose|k: int|
                        0 <= k < pv.take(j as int).len() && #[trigger] pv.take(j as int)[k].account
                            == a && pv.take(j as int)[k].commodity == c;
                    assert(pv.take(j + 1)[k].account == a);
                }
            }
        }
        proof {
            if any {
                if touches(pv.take(j as int), a, c) {
                    let k = choose|k: int|
                        0 <= k < pv.take(j as int).len() && #[trigger] pv.take(j as int)[k].account
                            == a && pv.take(j as int)[k].commodity == c;
                    assert(pv.take(j + 1)[k].account == a);
                }
            }
        }
        j = j + 1;
    }
    assert(pv.take(tx.postings.len() as int) =~= pv);
    (Some(hit), any)
}

proof fn lemma_hit_none_extends(ps: Seq<PostingView>, a: Seq<char>, c: Seq<char>, j: int)
    requires
        0 <= j <= ps.len(),
        tx_hit(ps.take(j), a, c) is None,
    ensures
        tx_hit(ps, a, c) is None,
    decreases ps.len() - j,
{
    if j < ps.len() {
        assert(ps.take(j + 1).drop_last() =~= ps.take(j));
        lemma_hit_none_extends(ps, a, c, j + 1);
    } else {
        assert(ps.take(j) =~= ps);
    }
}

proof fn lemma_scan_none_extends(txs: Seq<TxView>, a: Seq<char>, c: Seq<char>, as_of: Date, j: int)
    requires
        0 <= j <= txs.len(),
        recon_scan(txs.take(j), a, c, as_of) is None,
    ensures
        recon_scan(txs, a, c, as_of) is None,
    decreases txs.len() - j,
{
    if j < txs.len() {
        assert(txs.take(j + 1).drop_last() =~= txs.take(j));
        lemma_scan_none_extends(txs, a, c, as_of, j + 1);
    } else {
        assert(txs.take(j) =~= txs);
    }
}

fn line_for(tx: &Transaction, amount: Amount) -> (r: ProofLine)
    ensures
        r@ == line_of(tx@, amount@),
{
    ProofLine { transaction_id: tx.id, date: tx.date, payee: tx.payee.clone(), amount }
}

/// Prove statement ending balance from postings (duplicates never counted).
pub fn prove_reconcile(snapshot: &LedgerSnapshot, req: &ReconcileRequest) -> (r: Result<
    ReconcileProof,
    CoreError,
>)
    ensures
        ({
            let scan = recon_scan(snapshot@, req.account@, req.commodity@, req.as_of);
            match r {
                Ok(p) => scan matches Some(st) && ((scan_fits(snapshot@, req.account@, req.commodity@, req.as_of)
                    && dec_sum_fits(req.starting@, st.activity)) ==> dec_value(p.computed_ending@) == dec_value(
                    req.starting@,
                ) + lines_total(lines_view(p.matched@))) && (dec_sum_fits(
                    p.computed_ending@,
                    dec_negated(req.stated_ending@),
                ) ==> dec_value(p.unexplained_delta@) == dec_value(p.computed_ending@) - dec_value(
                    req.stated_ending@,
                ) && (p.unexplained_delta@.units == 0 <==> dec_value(p.computed_ending@) == dec_value(
                    req.stated_ending@,
                ))) && decimal_checked_add(req.starting@, st.activity)
                    is Some && decimal_checked_sub(
                    decimal_checked_add(req.starting@, st.activity).unwrap(),
                    req.stated_ending@,
                ) is Some && reconcile_ok(
                    p,
                    snapshot@,
                    req.account@,
                    req.commodity@,
                    req.as_of,
                    req.starting@,
                    req.stated_ending@,
                ),
                Err(e) => match scan {
                    None => e matches CoreError::InvalidAmount(m) && m@ == "overflow summing "@
                        + req.account@ + " "@ + req.commodity@,
                    Some(st) => match decimal_checked_add(req.starting@, st.activity) {
                        None => e matches CoreError::InvalidAmount(m) && m@
                            == "overflow adding starting balance"@,
                        Some(comp) => decimal_checked_sub(comp, req.stated_ending@) is None
                            && (e matches CoreError::InvalidAmount(m) && m@
                            == "overflow computing unexplained delta"@),
                    },
                },
            }
        }),
{
    let ghost tv = snapshot@;
    let ghost a = req.account@;
    let ghost c = req.commodity@;
    let mut matched: Vec<ProofLine> = Vec::new();
    let mut skipped: Vec<ProofLine> = Vec::new();
    let mut after: Vec<ProofLine> = Vec::new();
    let mut activity = Amount::zero();
    let mut i: usize = 0;
    assert(tv.take(0) =~= Seq::<TxView>::empty());
    assert(lines_view(matched@) =~= Seq::<LineView>::empty());
    proof {
        lemma_zero_value(activity@);
    }
    assert(lines_view(skipped@) =~= Seq::<LineView>::empty());
    assert(lines_view(after@) =~= Seq::<LineView>::empty());
    while i < snapshot.transactions.len()
        invariant
            i <= snapshot.transactions.len(),
            tv == snapshot@,
            a == req.account@,
            c == req.commodity@,
            recon_scan(tv.take(i as int), a, c, req.as_of) == Some(
                ScanState {
                    matched: lines_view(matched@),
                    skipped: lines_view(skipped@),
                    after: lines_view(after@),
                    activity: activity@,
                },
            ),
            scan_fits(tv.take(i as int), a, c, req.as_of) ==> dec_value(activity@) == lines_total(lines_view(matched@)),
        decreases snapshot.transactions.len() - i,
    {
        let tx = &snapshot.transactions[i];
        assert(tv.take(i + 1).drop_last() =~= tv.take(i as int));
        assert(tv.take(i + 1).last() == tx@);
        let (hit, any) = hit_of(tx, req);
        if any {
            match hit {
                None => {
                    proof {
                        lemma_scan_none_extends(tv, a, c, req.as_of, i + 1);
                    }
                    return Err(CoreError::InvalidAmount(overflow_msg(req)));
                },
                Some(h) => {
                    if req.as_of.lt(tx.date) {
                        let ghost prev = after@;
                        let l = line_for(tx, h);
                        after.push(l);
                        assert(lines_view(after@) =~= lines_view(prev).push(l@));
                    } else if tx.duplicate_of.is_some() {
                        let ghost prev = skipped@;
                        let l = line_for(tx, h);
                        skipped.push(l);
                        assert(lines_view(skipped@) =~= lines_view(prev).push(l@));
                    } else {
                        match activity.checked_add(h) {
                            None => {
                                proof {
                                    lemma_scan_none_extends(tv, a, c, req.as_of, i + 1);
                                }
                                return Err(CoreError::InvalidAmount(overflow_msg(req)));
                            },
                            Some(n) => {
                                let ghost before = activity@;
                                activity = n;
                                let ghost prev = matched@;
                                let l = line_for(tx, h);
                                matched.push(l);
                                assert(lines_view(matched@) =~= lines_view(prev).push(l@));
                                proof {
                                    lemma_lines_total_push(lines_view(prev), l@);
                                    if scan_fits(tv.take(i + 1), a, c, req.as_of) {
                                        assert(dec_sum_fits(before, h@));
                                    }
                                }
                            },
                        }
                    }
                },
            }
        }
        i = i + 1;
    }
    assert(tv.take(snapshot.transactions.len() as int) =~= tv);
    proof {
        lemma_lines_total_sorted(lines_view(matched@));
    }
    let matched = sort_lines_exec(matched);
    let skipped_duplicates = sort_lines_exec(skipped);
    let after_as_of = sort_lines_exec(after);
    let computed_ending = match req.starting.checked_add(activity) {
        Some(x) => x,
        None => {
            return Err(
                CoreError::InvalidAmount(
                    string_of(chars_of("overflow adding starting balance").as_slice()),
                ),
            );
        },
    };
    let unexplained_delta = match computed_ending.checked_sub(req.stated_ending) {
        Some(x) => {
            proof {
                lemma_zero_value(x@);
            }
            x
        },
        None => {
            return Err(
                CoreError::InvalidAmount(
                    string_of(chars_of("overflow computing unexplained delta").as_slice()),
                ),
            );
        },
    };
    Ok(
        ReconcileProof {
            account: string_of(chars_of(req.account.as_str()).as_slice()),
            commodity: string_of(chars_of(req.commodity.as_str()).as_slice()),
            as_of: req.as_of,
            starting: req.starting,
            computed_ending,
            stated_ending: req.stated_ending,
            unexplained_delta,
            matched,
            skipped_duplicates,
            after_as_of,
        },
    )
}

pub open spec fn line_row(l: LineView) -> Seq<char> {
    "| "@ + l.date.text() + " | `"@ + uuid_str(l.id.0) + "` | "@ + l.payee + " | "@ + dec_str(
        l.amount,
    ) + " |\n"@
}

pub open spec fn line_rows(ls: Seq<LineView>) -> Seq<char>
    decreases ls.len(),
{
    if ls.len() == 0 {
        Seq::empty()
    } else {
        line_rows(ls.drop_last()) + line_row(ls.last())
    }
}

pub open spec fn table_header() -> Seq<char> {
    "| date | tx | payee | amount |\n|---|---|---|---|\n"@
}

/// A section body: `none` when empty, otherwise the table, with a blank line after it when `gap`.
pub open spec fn section(ls: Seq<LineView>, none: Seq<char>, gap: bool) -> Seq<char> {
    if ls.len() == 0 {
        none
    } else {
        table_header() + line_rows(ls) + if gap {
            "\n"@
        } else {
            Seq::empty()
        }
    }
}

/// The markdown proof document.
/// The status line of a reconciliation report.
pub open spec fn status_line(ok: bool) -> Seq<char> {
    "- status: "@ + (if ok {
        "BALANCED"@
    } else {
        "UNEXPLAINED_DELTA"@
    }) + "\n"@
}

/// The report's lines before the status line.
pub open spec fn markdown_head(p: ReconcileProof) -> Seq<char> {
    "# Reconciliation proof\n\n"@ + "- account: `"@ + p.account@ + "`\n"@ + "- commodity: `"@
        + p.commodity@ + "`\n"@ + "- as_of: "@ + p.as_of.text() + "\n"@ + "- starting: "@
        + dec_str(p.starting@) + "\n"@ + "- computed_ending: "@ + dec_str(p.computed_ending@)
        + "\n"@ + "- stated_ending: "@ + dec_str(p.stated_ending@) + "\n"@
        + "- unexplained_delta: "@ + dec_str(p.unexplained_delta@) + "\n"@
}

/// The count lines of a reconciliation report.
pub open spec fn counts_lines(p: ReconcileProof) -> Seq<char> {
    "- matched: "@ + crate::text::nat_str(p.matched@.len()) + "\n"@ + "- unmatched: "@ + crate::text::nat_str(
        p.skipped_duplicates@.len() + p.after_as_of@.len(),
    ) + "\n\n"@
}

pub open spec fn proof_markdown(p: ReconcileProof) -> Seq<char> {
    markdown_head(p) + status_line(p.unexplained_delta@.units == 0) + counts_lines(p)
        + "## Included postings (skip duplicates)\n\n"@ + section(lines_view(p.matched@), "_none_\n\n"@, true)
        + "## Skipped duplicates\n\n"@ + section(lines_view(p.skipped_duplicates@), "_none_\n\n"@, true)
        + "## After as_of (excluded)\n\n"@ + section(lines_view(p.after_as_of@), "_none_\n"@, false)
}

pub open spec fn account_file_part(a: Seq<char>) -> Seq<char> {
    a.map_values(|ch: char| if ch == ':' { '_' } else { ch })
}

fn push_row(out: &mut String, l: &ProofLine)
    ensures
        final(out)@ == old(out)@ + line_row(l@),
{
    push_str(out, "| ");
    let d = l.date.to_string();
    push_str(out, d.as_str());
    push_str(out, " | `");
    let t = l.transaction_id.to_string();
    push_str(out, t.as_str());
    push_str(out, "` | ");
    push_str(out, l.payee.as_str());
    push_str(out, " | ");
    let am = l.amount.to_string();
    push_str(out, am.as_str());
    push_str(out, " |\n");
    assert(out@ =~= old(out)@ + line_row(l@));
}

fn push_section(out: &mut String, ls: &Vec<ProofLine>, none: &str, gap: bool)
    ensures
        final(out)@ == old(out)@ + section(lines_view(ls@), none@, gap),
{
    if ls.len() == 0 {
        push_str(out, none);
        return;
    }
    push_str(out, "| date | tx | payee | amount |\n|---|---|---|---|\n");
    let ghost mid = out@;
    let ghost lv = lines_view(ls@);
    let mut i: usize = 0;
    assert(lv.take(0) =~= Seq::<LineView>::empty());
    while i < ls.len()
        invariant
            i <= ls.len(),
            lv == lines_view(ls@),
            out@ == mid + line_rows(lv.take(i as int)),
        decreases ls.len() - i,
    {
        let l = &ls[i];
        assert(lv.take(i + 1).drop_last() =~= lv.take(i as int));
        assert(lv.take(i + 1).last() == l@);
        push_row(out, l);
        i = i + 1;
        assert(out@ =~= mid + line_rows(lv.take(i as int)));
    }
    assert(lv.take(ls.len() as int) =~= lv);
    if gap {
        push_str(out, "\n");
    }
}

fn push_markdown_head(out: &mut String, p: &ReconcileProof)
    ensures
        final(out)@ == old(out)@ + markdown_head(*p),
{
    push_str(out, "# Reconciliation proof\n\n");
    push_str(out, "- account: `");
    push_str(out, p.account.as_str());
    push_str(out, "`\n");
    push_str(out, "- commodity: `");
    push_str(out, p.commodity.as_str());
    push_str(out, "`\n");
    push_str(out, "- as_of: ");
    let d = p.as_of.to_string();
    push_str(out, d.as_str());
    push_str(out, "\n");
    push_str(out, "- starting: ");
    let x = p.starting.to_string();
    push_str(out, x.as_str());
    push_str(out, "\n");
    push_str(out, "- computed_ending: ");
    let x = p.computed_ending.to_string();
    push_str(out, x.as_str());
    push_str(out, "\n");
    push_str(out, "- stated_ending: ");
    let x = p.stated_ending.to_string();
    push_str(out, x.as_str());
    push_str(out, "\n");
    push_str(out, "- unexplained_delta: ");
    let x = p.unexplained_delta.to_string();
    push_str(out, x.as_str());
    push_str(out, "\n");
    assert(out@ =~= old(out)@ + markdown_head(*p));
}

fn push_status_line(out: &mut String, ok: bool)
    ensures
        final(out)@ == old(out)@ + status_line(ok),
{
    push_str(out, "- status: ");
    if ok {
        push_str(out, "BALANCED");
    } else {
        push_str(out, "UNEXPLAINED_DELTA");
    }
    push_str(out, "\n");
    assert(out@ =~= old(out)@ + status_line(ok));
}

fn push_counts_lines(out: &mut String, p: &ReconcileProof)
    ensures
        final(out)@ == old(out)@ + counts_lines(*p),
{
    push_str(out, "- matched: ");
    let m = crate::text::nat_str_u128(p.matched.len() as u128);
    crate::text::push_chars(out, &m);
    push_str(out, "\n");
    push_str(out, "- unmatched: ");
    let u = crate::text::nat_str_u128(p.skipped_duplicates.len() as u128 + p.after_as_of.len() as u128);
    crate::text::push_chars(out, &u);
    push_str(out, "\n\n");
    assert(out@ =~= old(out)@ + counts_lines(*p));
}

impl ReconcileProof {
    pub fn ok(&self) -> (r: bool)
        ensures
            r == (self.unexplained_delta@.units == 0),
    {
        self.unexplained_delta.is_zero()
    }

    /// `reconcile-<account with : as _>-<as_of>.md`.
    pub fn proof_filename(&self) -> (r: String)
        ensures
            r@ == "reconcile-"@ + account_file_part(self.account@) + "-"@ + self.as_of.text()
                + ".md"@,
    {
        let mut out = string_of(chars_of("reconcile-").as_slice());
        let a = chars_of(self.account.as_str());
        let ghost base = out@;
        let mut i: usize = 0;
        while i < a.len()
            invariant
                i <= a.len(),
                out@ == base + account_file_part(a@.take(i as int)),
            decreases a.len() - i,
        {
            let ch = if a[i] == ':' {
                '_'
            } else {
                a[i]
            };
            push_char(&mut out, ch);
            i = i + 1;
            assert(account_file_part(a@.take(i as int)) =~= account_file_part(a@.take((i - 1) as int)).push(ch));
        }
        assert(a@.take(a.len() as int) =~= a@);
        push_str(&mut out, "-");
        let d = self.as_of.to_string();
        push_str(&mut out, d.as_str());
        push_str(&mut out, ".md");
        out
    }

    /// Deterministic markdown proof (no wall-clock).
    pub fn to_markdown(&self) -> (r: String)
        ensures
            r@ == proof_markdown(*self),
    {
        let mut out = string_of(chars_of("").as_slice());
        proof {
            reveal_strlit("");
        }
        push_markdown_head(&mut out, self);
        push_status_line(&mut out, self.ok());
        push_counts_lines(&mut out, self);
        let ghost head = out@;
        push_str(&mut out, "## Included postings (skip duplicates)\n\n");
        push_section(&mut out, &self.matched, "_none_\n\n", true);
        push_str(&mut out, "## Skipped duplicates\n\n");
        push_section(&mut out, &self.skipped_duplicates, "_none_\n\n", true);
        push_str(&mut out, "## After as_of (excluded)\n\n");
        push_section(&mut out, &self.after_as_of, "_none_\n", false);
        assert(out@ =~= proof_markdown(*self));
        out
    }
}

/// A reconciliation report states its verdict on one line, right after the
/// unexplained delta: `BALANCED` exactly when the proof is ok (no unexplained
/// delta), `UNEXPLAINED_DELTA` otherwise.
pub proof fn law_markdown_status_line(p: ReconcileProof)
    ensures
        proof_markdown(p).subrange(
            markdown_head(p).len() as int,
            (markdown_head(p).len() + status_line(p.unexplained_delta@.units == 0).len()) as int,
        ) == status_line(p.unexplained_delta@.units == 0),
        status_line(true) != status_line(false),
{
    reveal_strlit("- status: ");
    reveal_strlit("BALANCED");
    reveal_strlit("UNEXPLAINED_DELTA");
    reveal_strlit("\n");
    let ok = p.unexplained_delta@.units == 0;
    let h = markdown_head(p);
    let l = status_line(ok);
    let m = proof_markdown(p);
    let t = m.subrange((h.len() + l.len()) as int, m.len() as int);
    assert(m =~= h + l + t);
    assert(m.subrange(h.len() as int, (h.len() + l.len()) as int) =~= l);
    assert(status_line(true).len() != status_line(false).len());
}


/// A reconciliation report is, in order: the title and the balances, the
/// status line, the matched and unmatched counts, then the included,
/// skipped and excluded lines, each section printing `_none_` when empty.
pub proof fn law_markdown_layout(p: ReconcileProof)
    ensures
        proof_markdown(p) == markdown_head(p) + status_line(p.unexplained_delta@.units == 0) + counts_lines(p)
            + "## Included postings (skip duplicates)\n\n"@ + section(lines_view(p.matched@), "_none_\n\n"@, true)
            + "## Skipped duplicates\n\n"@ + section(lines_view(p.skipped_duplicates@), "_none_\n\n"@, true)
            + "## After as_of (excluded)\n\n"@ + section(lines_view(p.after_as_of@), "_none_\n"@, false),
        markdown_head(p).take(24) == "# Reconciliation proof\n\n"@,
        p.matched@.len() == 0 ==> section(lines_view(p.matched@), "_none_\n\n"@, true) == "_none_\n\n"@,
        p.skipped_duplicates@.len() == 0 ==> section(lines_view(p.skipped_duplicates@), "_none_\n\n"@, true)
            == "_none_\n\n"@,
        p.after_as_of@.len() == 0 ==> section(lines_view(p.after_as_of@), "_none_\n"@, false) == "_none_\n"@,
{
    lemma_markdown_title(p);
}

proof fn lemma_markdown_title(p: ReconcileProof)
    ensures
        markdown_head(p).take(24) == "# Reconciliation proof\n\n"@,
{
    reveal_strlit("# Reconciliation proof\n\n");
    let t = "# Reconciliation proof\n\n"@;
    let h = markdown_head(p);
    let rest = h.skip(24);
    assert(t.len() == 24);
    assert(h.take(24) =~= t) by {
        assert forall|i: int| 0 <= i < 24 implies h[i] == t[i] by {
            assert(h =~= t + ("- account: `"@ + p.account@ + "`\n"@ + "- commodity: `"@ + p.commodity@ + "`\n"@
                + "- as_of: "@ + p.as_of.text() + "\n"@ + "- starting: "@ + dec_str(p.starting@) + "\n"@
                + "- computed_ending: "@ + dec_str(p.computed_ending@) + "\n"@ + "- stated_ending: "@
                + dec_str(p.stated_ending@) + "\n"@ + "- unexplained_delta: "@ + dec_str(p.unexplained_delta@)
                + "\n"@));
        }
    }
}

/// Reconciliation cuts at the statement date, inclusively: a transaction on
/// the account dated on or before `as_of` is matched when it is live (and its
/// amount counted) or skipped when it is a duplicate; only transactions dated
/// strictly after `as_of` are excluded. Every matched or skipped line is dated
/// on or before `as_of`, every excluded one strictly after.
pub proof fn law_reconcile_cuts_at_the_statement_date(txs: Seq<TxView>, a: Seq<char>, c: Seq<char>, as_of: Date)
    requires
        recon_scan(txs, a, c, as_of) is Some,
    ensures
        forall|j: int|
            0 <= j < recon_scan(txs, a, c, as_of).unwrap().matched.len() ==> !as_of.before(
                (#[trigger] recon_scan(txs, a, c, as_of).unwrap().matched[j]).date,
            ),
        forall|j: int|
            0 <= j < recon_scan(txs, a, c, as_of).unwrap().skipped.len() ==> !as_of.before(
                (#[trigger] recon_scan(txs, a, c, as_of).unwrap().skipped[j]).date,
            ),
        forall|j: int|
            0 <= j < recon_scan(txs, a, c, as_of).unwrap().after.len() ==> as_of.before(
                (#[trigger] recon_scan(txs, a, c, as_of).unwrap().after[j]).date,
            ),
        forall|k: int|
            0 <= k < txs.len() && touches((#[trigger] txs[k]).postings, a, c) && !as_of.before(txs[k].date)
                && txs[k].duplicate_of is None ==> recon_scan(txs, a, c, as_of).unwrap().matched.contains(
                line_of(txs[k], tx_hit(txs[k].postings, a, c).unwrap()),
            ),
        forall|k: int|
            0 <= k < txs.len() && touches((#[trigger] txs[k]).postings, a, c) && as_of.before(txs[k].date)
                ==> recon_scan(txs, a, c, as_of).unwrap().after.contains(
                line_of(txs[k], tx_hit(txs[k].postings, a, c).unwrap()),
            ),
    decreases txs.len(),
{
    if txs.len() > 0 {
        let d = txs.drop_last();
        let t = txs.last();
        law_reconcile_cuts_at_the_statement_date(d, a, c, as_of);
        let p = recon_scan(d, a, c, as_of).unwrap();
        let st = recon_scan(txs, a, c, as_of).unwrap();
        assert(txs[txs.len() - 1] == t);
        assert forall|k: int| 0 <= k < d.len() implies #[trigger] txs[k] == d[k] by {}
        // every earlier line stays where it was
        assert forall|j: int| 0 <= j < p.matched.len() implies st.matched[j] == p.matched[j] by {}
        assert forall|j: int| 0 <= j < p.skipped.len() implies st.skipped[j] == p.skipped[j] by {}
        assert forall|j: int| 0 <= j < p.after.len() implies st.after[j] == p.after[j] by {}
        assert forall|k: int|
            0 <= k < txs.len() && touches((#[trigger] txs[k]).postings, a, c) && !as_of.before(txs[k].date)
                && txs[k].duplicate_of is None implies st.matched.contains(
                line_of(txs[k], tx_hit(txs[k].postings, a, c).unwrap()),
            ) by {
            if k < d.len() {
                assert(txs[k] == d[k]);
                let l = line_of(d[k], tx_hit(d[k].postings, a, c).unwrap());
                let j = choose|j: int| 0 <= j < p.matched.len() && p.matched[j] == l;
                assert(st.matched[j] == l);
            } else {
                assert(st.matched[st.matched.len() - 1] == line_of(t, tx_hit(t.postings, a, c).unwrap()));
            }
        }
        assert forall|k: int|
            0 <= k < txs.len() && touches((#[trigger] txs[k]).postings, a, c) && as_of.before(txs[k].date)
                implies st.after.contains(line_of(txs[k], tx_hit(txs[k].postings, a, c).unwrap())) by {
            if k < d.len() {
                assert(txs[k] == d[k]);
                let l = line_of(d[k], tx_hit(d[k].postings, a, c).unwrap());
                let j = choose|j: int| 0 <= j < p.after.len() && p.after[j] == l;
                assert(st.after[j] == l);
            } else {
                assert(st.after[st.after.len() - 1] == line_of(t, tx_hit(t.postings, a, c).unwrap()));
            }
        }
    }
}

} // verus!
