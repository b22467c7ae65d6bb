//! Ledger invariants: every transaction balances per commodity; balances come from postings.
use vstd::prelude::*;

use crate::account::AccountId;
use crate::error::{core_error_msg, CoreError};
use crate::hash::{hex_lower, sha256_digest, ContentHash};
use crate::ids::{uuid_str, TransactionId};
use crate::money::{
    dec_is_zero, dec_negated, dec_str, dec_sum_fits, dec_value, decimal_checked_add, lemma_pow10_mono,
    lemma_pow10_pos, lemma_zero_value, max_nat, opt_dec, pow10, units_limit, Amount, Commodity,
    DecimalValue,
};
use crate::posting::{postings_view, Posting, PostingView};
use crate::text::{chars_lt, chars_of, join, push_str, str_eq, str_lt, string_of};
use crate::snapshot::{canonical_text, snapshot_canon, LedgerSnapshot};
use crate::transaction::{Transaction, TxView};

verus! {

pub open spec fn zero_dec() -> DecimalValue {
    DecimalValue { neg: false, units: 0, scale: 0 }
}

/// Running sum of the `c` postings, as the checked additions compute it (None on overflow).
pub open spec fn commodity_sum(ps: Seq<PostingView>, c: Seq<char>) -> Option<DecimalValue>
    decreases ps.len(),
{
    if ps.len() == 0 {
        Some(zero_dec())
    } else {
        let prev = commodity_sum(ps.drop_last(), c);
        if ps.last().commodity == c {
            match prev {
                Some(acc) => decimal_checked_add(acc, ps.last().amount),
                None => None,
            }
        } else {
            prev
        }
    }
}

/// The exact sum (in units of 10^-28) of the `c` postings.
pub open spec fn exact_sum(ps: Seq<PostingView>, c: Seq<char>) -> int
    decreases ps.len(),
{
    if ps.len() == 0 {
        0
    } else {
        exact_sum(ps.drop_last(), c) + if ps.last().commodity == c {
            dec_value(ps.last().amount)
        } else {
            0
        }
    }
}

/// Largest scale among the `c` postings (0 when there are none).
pub open spec fn max_scale(ps: Seq<PostingView>, c: Seq<char>) -> nat
    decreases ps.len(),
{
    if ps.len() == 0 {
        0
    } else if ps.last().commodity == c {
        max_nat(max_scale(ps.drop_last(), c), ps.last().amount.scale)
    } else {
        max_scale(ps.drop_last(), c)
    }
}

pub open spec fn abs_int(x: int) -> int {
    if x < 0 {
        -x
    } else {
        x
    }
}

/// Every running sum of the `c` postings is representable at the largest scale seen so far.
pub open spec fn sum_fits(ps: Seq<PostingView>, c: Seq<char>) -> bool
    decreases ps.len(),
{
    if ps.len() == 0 {
        true
    } else {
        sum_fits(ps.drop_last(), c) && (ps.last().commodity == c ==> abs_int(exact_sum(ps, c))
            < units_limit() * pow10((28 - max_scale(ps, c)) as nat))
    }
}

/// Inserts `c` into a sorted list without repeats (the order of `str`).
pub open spec fn insert_sorted(list: Seq<Seq<char>>, c: Seq<char>) -> Seq<Seq<char>>
    decreases list.len(),
{
    if list.len() == 0 {
        seq![c]
    } else if c == list[0] {
        list
    } else if str_lt(c, list[0]) {
        seq![c] + list
    } else {
        seq![list[0]] + insert_sorted(list.drop_first(), c)
    }
}

/// The distinct commodities of the postings, in sorted order.
pub open spec fn commodity_list(ps: Seq<PostingView>) -> Seq<Seq<char>>
    decreases ps.len(),
{
    if ps.len() == 0 {
        Seq::empty()
    } else {
        insert_sorted(commodity_list(ps.drop_last()), ps.last().commodity)
    }
}

/// Some commodity's running sum overflows.
pub open spec fn any_overflow(ps: Seq<PostingView>) -> bool {
    exists|i: int| 0 <= i < ps.len() && #[trigger] commodity_sum(ps, ps[i].commodity) is None
}

/// Every commodity's sum is zero.
pub open spec fn all_zero(ps: Seq<PostingView>) -> bool {
    forall|i: int|
        0 <= i < ps.len() ==> (#[trigger] commodity_sum(ps, ps[i].commodity) matches Some(s)
            && s.units == 0)
}

/// A transaction is accepted: sums exist and are zero, and there are at least two postings.
pub open spec fn balanced_ok(ps: Seq<PostingView>) -> bool {
    all_zero(ps) && ps.len() >= 2
}

/// `c residual=<sum>` for each commodity of `list` whose sum is not zero.
pub open spec fn residual_parts(ps: Seq<PostingView>, list: Seq<Seq<char>>) -> Seq<Seq<char>>
    decreases list.len(),
{
    if list.len() == 0 {
        Seq::empty()
    } else {
        let rest = residual_parts(ps, list.drop_last());
        let c = list.last();
        let s = commodity_sum(ps, c).unwrap();
        if s.units != 0 {
            rest.push(c + " residual="@ + dec_str(s))
        } else {
            rest
        }
    }
}

pub open spec fn residual_detail(ps: Seq<PostingView>) -> Seq<char> {
    join(residual_parts(ps, commodity_list(ps)), "; "@)
}

/// The error `verify_transaction` reports for a transaction with this id and these postings.
pub open spec fn verify_error_ok(e: CoreError, id: TransactionId, ps: Seq<PostingView>) -> bool {
    if any_overflow(ps) {
        e matches CoreError::InvalidAmount(m) && m@ == "amount overflow"@
    } else if !all_zero(ps) {
        e matches CoreError::UnbalancedTransaction { tx, detail } && tx@ == uuid_str(id.0)
            && detail@ == residual_detail(ps)
    } else {
        e matches CoreError::UnbalancedTransaction { tx, detail } && tx@ == uuid_str(id.0)
            && detail@ == "transaction requires at least two postings"@
    }
}

/// When sums fit they are exact; an overflow means some running sum did not fit.
pub open spec fn exact_when_fits(ps: Seq<PostingView>) -> bool {
    &&& any_overflow(ps) ==> exists|i: int| 0 <= i < ps.len() && !sum_fits(ps, #[trigger] ps[i].commodity)
    &&& !any_overflow(ps) ==> forall|i: int|
            0 <= i < ps.len() ==> (sum_fits(ps, #[trigger] ps[i].commodity) ==> (commodity_sum(
                ps,
                ps[i].commodity,
            ) matches Some(v) && dec_value(v) == exact_sum(ps, ps[i].commodity)))
}

proof fn lemma_bound_widen(v: int, b1: nat, b2: nat)
    requires
        abs_int(v) < units_limit() * b1,
        b1 <= b2,
    ensures
        -(units_limit() as int) * (b2 as int) < v < (units_limit() as int) * (b2 as int),
{
    assert(units_limit() * b1 <= units_limit() * b2) by (nonlinear_arith)
        requires
            b1 <= b2,
    ;
}

proof fn lemma_prefix_props(ps: Seq<PostingView>, c: Seq<char>, j: int)
    requires
        0 <= j <= ps.len(),
    ensures
        sum_fits(ps, c) ==> sum_fits(ps.take(j), c),
        commodity_sum(ps.take(j), c) is None ==> commodity_sum(ps, c) is None,
    decreases ps.len() - j,
{
    if j < ps.len() {
        lemma_prefix_props(ps, c, j + 1);
        assert(ps.take(j + 1).drop_last() =~= ps.take(j));
    } else {
        assert(ps.take(j) =~= ps);
    }
}

proof fn lemma_insert_sorted_contains(l: Seq<Seq<char>>, c: Seq<char>, x: Seq<char>)
    ensures
        insert_sorted(l, c).contains(x) <==> (l.contains(x) || x == c),
    decreases l.len(),
{
    if l.len() == 0 {
        assert(insert_sorted(l, c)[0] == c);
    } else if c == l[0] {
    } else if str_lt(c, l[0]) {
        let r = seq![c] + l;
        if l.contains(x) {
            let k = choose|k: int| 0 <= k < l.len() && l[k] == x;
            assert(r[k + 1] == x);
        }
        if r.contains(x) && x != c {
            let k = choose|k: int| 0 <= k < r.len() && r[k] == x;
            assert(l[k - 1] == x);
        }
        assert(r[0] == c);
    } else {
        lemma_insert_sorted_contains(l.drop_first(), c, x);
        let rest = insert_sorted(l.drop_first(), c);
        let r = seq![l[0]] + rest;
        if l.contains(x) {
            let k = choose|k: int| 0 <= k < l.len() && l[k] == x;
            if k > 0 {
                assert(l.drop_first()[k - 1] == x);
                let k2 = choose|k2: int| 0 <= k2 < rest.len() && rest[k2] == x;
                assert(r[k2 + 1] == x);
            } else {
                assert(r[0] == x);
            }
        }
        if x == c {
            let k2 = choose|k2: int| 0 <= k2 < rest.len() && rest[k2] == x;
            assert(r[k2 + 1] == x);
        }
        if r.contains(x) {
            let k = choose|k: int| 0 <= k < r.len() && r[k] == x;
            if k > 0 {
                assert(rest[k - 1] == x);
                if x != c {
                    let k3 = choose|k3: int| 0 <= k3 < l.drop_first().len() && l.drop_first()[k3] == x;
                    assert(l[k3 + 1] == x);
                }
            } else {
                assert(l[0] == x);
            }
        }
    }
}

/// The commodity list holds exactly the commodities of the postings.
pub proof fn lemma_commodity_list(ps: Seq<PostingView>, x: Seq<char>)
    ensures
        commodity_list(ps).contains(x) <==> exists|i: int| 0 <= i < ps.len() && ps[i].commodity == x,
    decreases ps.len(),
{
    if ps.len() > 0 {
        lemma_commodity_list(ps.drop_last(), x);
        lemma_insert_sorted_contains(commodity_list(ps.drop_last()), ps.last().commodity, x);
        if exists|i: int| 0 <= i < ps.len() && ps[i].commodity == x {
            let i = choose|i: int| 0 <= i < ps.len() && ps[i].commodity == x;
            if i < ps.len() - 1 {
                assert(ps.drop_last()[i].commodity == x);
            }
        }
        if exists|i: int| 0 <= i < ps.drop_last().len() && ps.drop_last()[i].commodity == x {
            let i = choose|i: int| 0 <= i < ps.drop_last().len() && ps.drop_last()[i].commodity == x;
            assert(ps[i].commodity == x);
        }
    }
}

/// The running sum of the `c` postings, exact whenever the running sums fit.
fn sum_for(ps: &Vec<Posting>, c: &str) -> (r: Option<Amount>)
    ensures
        opt_dec(r) == commodity_sum(postings_view(ps@), c@),
        sum_fits(postings_view(ps@), c@) ==> (r matches Some(a) && dec_value(a@) == exact_sum(
            postings_view(ps@),
            c@,
        )),
{
    let ghost pv = postings_view(ps@);
    let mut acc = Amount::zero();
    let mut i: usize = 0;
    assert(pv.take(0) =~= Seq::<PostingView>::empty());
    proof {
        lemma_zero_value(acc@);
    }
    while i < ps.len()
        invariant
            i <= ps.len(),
            pv == postings_view(ps@),
            commodity_sum(pv.take(i as int), c@) == Some(acc@),
            sum_fits(pv.take(i as int), c@) ==> dec_value(acc@) == exact_sum(pv.take(i as int), c@)
                && acc@.scale <= max_scale(pv.take(i as int), c@),
            max_scale(pv.take(i as int), c@) <= 28,
        decreases ps.len() - i,
    {
        let ghost pre = pv.take(i as int);
        let ghost nxt = pv.take(i + 1);
        assert(nxt.drop_last() =~= pre);
        assert(nxt.last() == ps@[i as int]@);
        if str_eq(ps[i].commodity.as_str(), c) {
            let x = ps[i].amount;
            x.check_valid();
            acc.check_valid();
            proof {
                assert(nxt.last().commodity == c@);
                if sum_fits(nxt, c@) {
                    assert(sum_fits(pre, c@));
                    assert(max_scale(nxt, c@) == max_nat(max_scale(pre, c@), x@.scale));
                    let m = max_scale(nxt, c@);
                    lemma_pow10_mono((28 - m) as nat, (28 - max_nat(acc@.scale, x@.scale)) as nat);
                    assert(units_limit() * pow10((28 - m) as nat) <= units_limit() * pow10(
                        (28 - max_nat(acc@.scale, x@.scale)) as nat,
                    )) by (nonlinear_arith)
                        requires
                            pow10((28 - m) as nat) <= pow10(
                                (28 - max_nat(acc@.scale, x@.scale)) as nat,
                            ),
                    ;
                    assert(exact_sum(nxt, c@) == exact_sum(pre, c@) + dec_value(x@));
                    assert(abs_int(exact_sum(nxt, c@)) < units_limit() * pow10((28 - m) as nat));
                    lemma_bound_widen(exact_sum(nxt, c@), pow10((28 - m) as nat), pow10((28 - max_nat(acc@.scale, x@.scale)) as nat));
                    assert(dec_sum_fits(acc@, x@));
                }
            }
            match acc.checked_add(x) {
                Some(s) => {
                    acc = s;
                },
                None => {
                    proof {
                        lemma_prefix_props(pv, c@, i + 1);
                    }
                    return None;
                },
            }
        }
        i = i + 1;
    }
    assert(pv.take(ps.len() as int) =~= pv);
    Some(acc)
}

/// Inserts `c` into the sorted, repeat-free list `list`.
fn insert_sorted_exec(list: &mut Vec<String>, c: &str)
    ensures
        crate::transaction::strings_view(final(list)@) == insert_sorted(
            crate::transaction::strings_view(old(list)@),
            c@,
        ),
{
    let ghost l = crate::transaction::strings_view(list@);
    let cv = chars_of(c);
    let mut k: usize = 0;
    assert(l.skip(0) =~= l);
    assert(l.take(0) + insert_sorted(l.skip(0), c@) =~= insert_sorted(l, c@));
    while k < list.len()
        invariant
            k <= list.len(),
            l == crate::transaction::strings_view(list@),
            l == crate::transaction::strings_view(old(list)@),
            cv@ == c@,
            insert_sorted(l, c@) == l.take(k as int) + insert_sorted(l.skip(k as int), c@),
        decreases list.len() - k,
    {
        let e = chars_of(list[k].as_str());
        assert(e@ == l[k as int]);
        let same = crate::text::seq_eq(e.as_slice(), cv.as_slice());
        let less = chars_lt(cv.as_slice(), e.as_slice());
        if same {
            assert(l.skip(k as int)[0] == l[k as int]);
            assert(insert_sorted(l.skip(k as int), c@) == l.skip(k as int));
            assert(l.take(k as int) + l.skip(k as int) =~= l);
            return;
        }
        if less {
            assert(l.skip(k as int)[0] == l[k as int]);
            assert(insert_sorted(l.skip(k as int), c@) == seq![c@] + l.skip(k as int));
            let ghost old_l = list@;
            list.insert(k, string_of(cv.as_slice()));
            assert(crate::transaction::strings_view(list@) =~= l.take(k as int) + (seq![c@]
                + l.skip(k as int)));
            return;
        }
        assert(l.skip(k as int)[0] == l[k as int]);
        assert(l.skip(k as int).drop_first() =~= l.skip(k + 1));
        assert(l.take(k + 1) =~= l.take(k as int) + seq![l[k as int]]);
        k = k + 1;
    }
    assert(l.skip(k as int) =~= Seq::<Seq<char>>::empty());
    list.push(string_of(cv.as_slice()));
    assert(crate::transaction::strings_view(list@) =~= l.take(k as int) + seq![c@]);
}

/// The sorted distinct commodities of the postings.
fn commodity_list_exec(ps: &Vec<Posting>) -> (r: Vec<String>)
    ensures
        crate::transaction::strings_view(r@) == commodity_list(postings_view(ps@)),
{
    let ghost pv = postings_view(ps@);
    let mut out: Vec<String> = Vec::new();
    let mut i: usize = 0;
    assert(crate::transaction::strings_view(out@) =~= Seq::<Seq<char>>::empty());
    assert(pv.take(0) =~= Seq::<PostingView>::empty());
    while i < ps.len()
        invariant
            i <= ps.len(),
            pv == postings_view(ps@),
            crate::transaction::strings_view(out@) == commodity_list(pv.take(i as int)),
        decreases ps.len() - i,
    {
        assert(pv.take(i + 1).drop_last() =~= pv.take(i as int));
        insert_sorted_exec(&mut out, ps[i].commodity.as_str());
        i = i + 1;
    }
    assert(pv.take(ps.len() as int) =~= pv);
    out
}

/// Invariant: for each commodity in a transaction, posting amounts sum to zero,
/// and a transaction has at least two postings.
pub fn verify_transaction(tx: &Transaction) -> (r: Result<(), CoreError>)
    ensures
        r is Ok <==> balanced_ok(tx@.postings),
        r matches Err(e) ==> verify_error_ok(e, tx.id, tx@.postings),
        exact_when_fits(tx@.postings),
{
    let ghost pv = tx@.postings;
    let list = commodity_list_exec(&tx.postings);
    let ghost lv = crate::transaction::strings_view(list@);
    let mut sums: Vec<Amount> = Vec::new();
    let mut k: usize = 0;
    while k < list.len()
        invariant
            k <= list.len(),
            pv == tx@.postings,
            pv == postings_view(tx.postings@),
            lv == crate::transaction::strings_view(list@),
            lv == commodity_list(pv),
            sums@.len() == k,
            forall|j: int| 0 <= j < k ==> commodity_sum(pv, #[trigger] lv[j]) == Some(sums@[j]@),
            forall|j: int|
                0 <= j < k ==> (sum_fits(pv, #[trigger] lv[j]) ==> dec_value(sums@[j]@) == exact_sum(
                    pv,
                    lv[j],
                )),
        decreases list.len() - k,
    {
        match sum_for(&tx.postings, list[k].as_str()) {
            Some(s) => {
                sums.push(s);
            },
            None => {
                proof {
                    lemma_commodity_list(pv, lv[k as int]);
                    let i = choose|i: int| 0 <= i < pv.len() && pv[i].commodity == lv[k as int];
                    assert(commodity_sum(pv, pv[i].commodity) is None);
                    assert(!sum_fits(pv, pv[i].commodity));
                    assert(any_overflow(pv));
                }
                return Err(CoreError::InvalidAmount(string_of(chars_of("amount overflow").as_slice())));
            },
        }
        k = k + 1;
    }
    proof {
        assert forall|i: int| 0 <= i < pv.len() implies #[trigger] commodity_sum(pv, pv[i].commodity) is Some && (sum_fits(pv, pv[i].commodity) ==> (commodity_sum(pv, pv[i].commodity) matches Some(v) && dec_value(v) == exact_sum(pv, pv[i].commodity))) by {
            lemma_commodity_list(pv, pv[i].commodity);
            let j = choose|j: int| 0 <= j < lv.len() && lv[j] == pv[i].commodity;
            assert(commodity_sum(pv, lv[j]) == Some(sums@[j]@));
        }
        assert(!any_overflow(pv));
    }
    // residual entries, in commodity order
    let mut parts: Vec<String> = Vec::new();
    let mut j: usize = 0;
    let mut any_bad = false;
    assert(crate::transaction::strings_view(parts@) =~= residual_parts(pv, lv.take(0)));
    while j < list.len()
        invariant
            j <= list.len(),
            sums@.len() == list@.len(),
            lv == crate::transaction::strings_view(list@),
            forall|t: int| 0 <= t < list@.len() ==> commodity_sum(pv, #[trigger] lv[t]) == Some(sums@[t]@),
            crate::transaction::strings_view(parts@) == residual_parts(pv, lv.take(j as int)),
            any_bad == exists|t: int| 0 <= t < j && !dec_is_zero(#[trigger] sums@[t]@),
        decreases list.len() - j,
    {
        assert(lv.take(j + 1).drop_last() =~= lv.take(j as int));
        assert(lv.take(j + 1).last() == lv[j as int]);
        if !sums[j].is_zero() {
            let mut p = list[j].clone();
            push_str(&mut p, " residual=");
            let st = sums[j].to_string();
            push_str(&mut p, st.as_str());
            let ghost prev = parts@;
            parts.push(p);
            assert(crate::transaction::strings_view(parts@) =~= crate::transaction::strings_view(prev).push(p@));
            any_bad = true;
        }
        j = j + 1;
    }
    assert(lv.take(list.len() as int) =~= lv);
    proof {
        if any_bad {
            let t = choose|t: int| 0 <= t < list@.len() && !dec_is_zero(#[trigger] sums@[t]@);
            lemma_commodity_list(pv, lv[t]);
            let i = choose|i: int| 0 <= i < pv.len() && pv[i].commodity == lv[t];
            assert(!(commodity_sum(pv, pv[i].commodity) matches Some(s) && s.units == 0));
            assert(!all_zero(pv));
        } else {
            assert forall|i: int| 0 <= i < pv.len() implies (#[trigger] commodity_sum(pv, pv[i].commodity) matches Some(s) && s.units == 0) by {
                lemma_commodity_list(pv, pv[i].commodity);
                let t = choose|t: int| 0 <= t < lv.len() && lv[t] == pv[i].commodity;
                assert(commodity_sum(pv, lv[t]) == Some(sums@[t]@));
                assert(dec_is_zero(sums@[t]@));
            }
        }
    }
    if any_bad {
        let detail = join_strings(&parts, "; ");
        return Err(CoreError::UnbalancedTransaction { tx: tx.id.to_string(), detail });
    }
    if tx.postings.len() < 2 {
        return Err(CoreError::UnbalancedTransaction {
            tx: tx.id.to_string(),
            detail: string_of(chars_of("transaction requires at least two postings").as_slice()),
        });
    }
    Ok(())
}

/// `parts` joined by `sep`.
pub fn join_strings(parts: &Vec<String>, sep: &str) -> (r: String)
    ensures
        r@ == join(crate::transaction::strings_view(parts@), sep@),
{
    let ghost pv = crate::transaction::strings_view(parts@);
    let mut out = string_of(chars_of("").as_slice());
    proof {
        reveal_strlit("");
    }
    let mut i: usize = 0;
    assert(pv.take(0) =~= Seq::<Seq<char>>::empty());
    while i < parts.len()
        invariant
            i <= parts.len(),
            pv == crate::transaction::strings_view(parts@),
            out@ == join(pv.take(i as int), sep@),
        decreases parts.len() - i,
    {
        assert(pv.take(i + 1).drop_last() =~= pv.take(i as int));
        if i > 0 {
            push_str(&mut out, sep);
        } else {
            assert(out@ =~= Seq::<char>::empty());
        }
        push_str(&mut out, parts[i].as_str());
        i = i + 1;
        assert(out@ =~= join(pv.take(i as int), sep@));
    }
    assert(pv.take(parts.len() as int) =~= pv);
    out
}

/// A transfer of `x` (negated leg first) has running sums that fit.
pub proof fn lemma_transfer_fits(p1: PostingView, p2: PostingView)
    requires
        p1.commodity == p2.commodity,
        p1.amount == dec_negated(p2.amount),
        p2.amount.scale <= 28,
        p2.amount.units < units_limit(),
    ensures
        sum_fits(seq![p1, p2], p1.commodity),
        exact_sum(seq![p1, p2], p1.commodity) == 0,
{
    let s = seq![p1, p2];
    let c = p1.commodity;
    let s1 = seq![p1];
    let e = Seq::<PostingView>::empty();
    assert(s.drop_last() =~= s1);
    assert(s1.drop_last() =~= e);
    assert(s.last() == p2);
    assert(s1.last() == p1);
    let x = p2.amount;
    lemma_zero_value(x);
    lemma_zero_value(p1.amount);
    assert(dec_value(p1.amount) == -dec_value(x));
    assert(exact_sum(e, c) == 0);
    assert(exact_sum(s1, c) == dec_value(p1.amount));
    assert(exact_sum(s, c) == 0);
    assert(max_scale(e, c) == 0);
    assert(max_scale(s1, c) == max_nat(0, p1.amount.scale));
    lemma_pow10_pos((28 - x.scale) as nat);
    assert(x.units * pow10((28 - x.scale) as nat) < units_limit() * pow10((28 - x.scale) as nat))
        by (nonlinear_arith)
        requires
            x.units < units_limit(),
            pow10((28 - x.scale) as nat) > 0,
    ;
    lemma_pow10_pos((28 - max_scale(s, c)) as nat);
    assert(units_limit() * pow10((28 - max_scale(s, c)) as nat) > 0) by (nonlinear_arith)
        requires
            pow10((28 - max_scale(s, c)) as nat) > 0,
    ;
    lemma_pow10_pos((28 - max_scale(s1, c)) as nat);
    assert(units_limit() * pow10((28 - max_scale(s1, c)) as nat) > 0) by (nonlinear_arith)
        requires
            pow10((28 - max_scale(s1, c)) as nat) > 0,
    ;
    assert(sum_fits(e, c));
    assert(sum_fits(s1, c));
    assert(sum_fits(s, c));
}

/// A posting followed by its negation has running sums that fit and sum to zero.
pub proof fn lemma_pair_fits(p1: PostingView, p2: PostingView)
    requires
        p1.commodity == p2.commodity,
        p2.amount == dec_negated(p1.amount),
        crate::money::dec_wf(p1.amount),
    ensures
        sum_fits(seq![p1, p2], p1.commodity),
        exact_sum(seq![p1, p2], p1.commodity) == 0,
{
    let s = seq![p1, p2];
    let c = p1.commodity;
    let s1 = seq![p1];
    let e = Seq::<PostingView>::empty();
    assert(s.drop_last() =~= s1);
    assert(s1.drop_last() =~= e);
    assert(s.last() == p2);
    assert(s1.last() == p1);
    let x = p1.amount;
    lemma_zero_value(x);
    lemma_zero_value(p2.amount);
    assert(dec_value(p2.amount) == -dec_value(x));
    assert(exact_sum(e, c) == 0);
    assert(exact_sum(s1, c) == dec_value(x));
    assert(exact_sum(s, c) == 0);
    assert(max_scale(e, c) == 0);
    assert(max_scale(s1, c) == max_nat(0, x.scale));
    lemma_pow10_pos((28 - x.scale) as nat);
    assert(x.units * pow10((28 - x.scale) as nat) < units_limit() * pow10((28 - x.scale) as nat))
        by (nonlinear_arith)
        requires
            x.units < units_limit(),
            pow10((28 - x.scale) as nat) > 0,
    ;
    lemma_pow10_pos((28 - max_scale(s, c)) as nat);
    assert(units_limit() * pow10((28 - max_scale(s, c)) as nat) > 0) by (nonlinear_arith)
        requires
            pow10((28 - max_scale(s, c)) as nat) > 0,
    ;
    assert(sum_fits(e, c));
    assert(sum_fits(s1, c));
    assert(sum_fits(s, c));
}

/// A transfer whose sums fit is accepted.
pub proof fn lemma_transfer_balanced(pv: Seq<PostingView>)
    requires
        pv.len() == 2,
        pv[0].commodity == pv[1].commodity,
        sum_fits(pv, pv[0].commodity),
        exact_sum(pv, pv[0].commodity) == 0,
        exact_when_fits(pv),
    ensures
        balanced_ok(pv),
{
    if any_overflow(pv) {
        let i = choose|i: int| 0 <= i < pv.len() && !sum_fits(pv, #[trigger] pv[i].commodity);
        assert(pv[i].commodity == pv[0].commodity);
    }
    assert(sum_fits(pv, pv[0].commodity));
    let v = commodity_sum(pv, pv[0].commodity).unwrap();
    lemma_zero_value(v);
    assert forall|i: int| 0 <= i < pv.len() implies (#[trigger] commodity_sum(pv, pv[i].commodity) matches Some(s) && s.units == 0) by {
        assert(pv[i].commodity == pv[0].commodity);
    }
}

/// The message `verify_transaction`'s error carries for a rejected transaction.
pub open spec fn verify_msg(id: TransactionId, ps: Seq<PostingView>) -> Seq<char> {
    if any_overflow(ps) {
        "invalid money amount: "@ + "amount overflow"@
    } else if !all_zero(ps) {
        "transaction "@ + uuid_str(id.0) + " does not balance: "@ + residual_detail(ps)
    } else {
        "transaction "@ + uuid_str(id.0) + " does not balance: "@
            + "transaction requires at least two postings"@
    }
}

proof fn lemma_verify_msg(e: CoreError, id: TransactionId, ps: Seq<PostingView>)
    requires
        verify_error_ok(e, id, ps),
    ensures
        core_error_msg(e) == verify_msg(id, ps),
{
    if any_overflow(ps) {
        assert(core_error_msg(e) =~= verify_msg(id, ps));
    } else if !all_zero(ps) {
        assert(core_error_msg(e) =~= verify_msg(id, ps));
    } else {
        assert(core_error_msg(e) =~= verify_msg(id, ps));
    }
}

/// The messages of the rejected transactions, in ledger order.
pub open spec fn unbalanced_msgs(txs: Seq<TxView>) -> Seq<Seq<char>>
    decreases txs.len(),
{
    if txs.len() == 0 {
        Seq::empty()
    } else {
        let rest = unbalanced_msgs(txs.drop_last());
        let t = txs.last();
        if balanced_ok(t.postings) {
            rest
        } else {
            rest.push(verify_msg(t.id, t.postings))
        }
    }
}

pub open spec fn total_postings(txs: Seq<TxView>) -> nat
    decreases txs.len(),
{
    if txs.len() == 0 {
        0
    } else {
        total_postings(txs.drop_last()) + txs.last().postings.len()
    }
}

/// The ledger hash: SHA-256 (hex) of the canonical text of the transactions.
pub open spec fn ledger_hash_of(txs: Seq<TxView>) -> Seq<char> {
    hex_lower(sha256_digest(vstd::utf8::encode_utf8(snapshot_canon(txs))))
}

#[derive(Clone, Debug)]
pub struct VerifyReport {
    pub ok: bool,
    pub transaction_count: usize,
    pub posting_count: usize,
    pub unbalanced: Vec<String>,
    pub ledger_hash: ContentHash,
}

/// Checks every transaction and hashes the ledger.
pub fn verify_ledger(snapshot: &LedgerSnapshot) -> (r: VerifyReport)
    requires
        total_postings(snapshot@) <= usize::MAX,
    ensures
        crate::transaction::strings_view(r.unbalanced@) == unbalanced_msgs(snapshot@),
        r.ok == (unbalanced_msgs(snapshot@).len() == 0),
        r.unbalanced@.len() == snapshot@.filter(|t: TxView| !balanced_ok(t.postings)).len(),
        r.ok <==> forall|i: int| 0 <= i < snapshot@.len() ==> balanced_ok(#[trigger] snapshot@[i].postings),
        r.transaction_count == snapshot@.len(),
        r.posting_count == total_postings(snapshot@),
        r.ledger_hash@ == ledger_hash_of(snapshot@),
{
    let ghost tv = snapshot@;
    let mut unbalanced: Vec<String> = Vec::new();
    let mut posting_count: usize = 0;
    let mut i: usize = 0;
    assert(tv.take(0) =~= Seq::<TxView>::empty());
    while i < snapshot.transactions.len()
        invariant
            i <= snapshot.transactions.len(),
            tv == snapshot@,
            total_postings(tv) <= usize::MAX,
            posting_count == total_postings(tv.take(i as int)),
            crate::transaction::strings_view(unbalanced@) == unbalanced_msgs(tv.take(i as int)),
        decreases snapshot.transactions.len() - i,
    {
        let tx = &snapshot.transactions[i];
        assert(tv.take(i + 1).drop_last() =~= tv.take(i as int));
        assert(tv.take(i + 1).last() == tx@);
        proof {
            lemma_total_postings_prefix(tv, i + 1);
        }
        posting_count = posting_count + tx.postings.len();
        match verify_transaction(tx) {
            Ok(()) => {},
            Err(e) => {
                proof {
                    lemma_verify_msg(e, tx.id, tx@.postings);
                }
                let ghost prev = unbalanced@;
                unbalanced.push(e.message());
                assert(crate::transaction::strings_view(unbalanced@) =~= crate::transaction::strings_view(prev).push(core_error_msg(e)));
            },
        }
        i = i + 1;
    }
    assert(tv.take(snapshot.transactions.len() as int) =~= tv);
    let text = canonical_text(&snapshot.transactions);
    let ledger_hash = ContentHash::sha256_str(text.as_str());
    let ok = unbalanced.len() == 0;
    proof {
        law_one_message_per_unbalanced(snapshot@);
    }
    VerifyReport {
        ok,
        transaction_count: snapshot.transactions.len(),
        posting_count,
        unbalanced,
        ledger_hash,
    }
}

proof fn lemma_total_postings_prefix(txs: Seq<TxView>, j: int)
    requires
        0 <= j <= txs.len(),
    ensures
        total_postings(txs.take(j)) <= total_postings(txs),
    decreases txs.len() - j,
{
    if j < txs.len() {
        lemma_total_postings_prefix(txs, j + 1);
        assert(txs.take(j + 1).drop_last() =~= txs.take(j));
    } else {
        assert(txs.take(j) =~= txs);
    }
}

/// `acc + x` when the checked addition succeeds, otherwise `acc` unchanged.
pub open spec fn add_or_keep(acc: DecimalValue, x: DecimalValue) -> DecimalValue {
    match decimal_checked_add(acc, x) {
        Some(n) => n,
        None => acc,
    }
}

/// `acc` plus the amounts of the postings on account `a` in commodity `c`.
pub open spec fn postings_balance(acc: DecimalValue, ps: Seq<PostingView>, a: Seq<char>, c: Seq<char>) -> DecimalValue
    decreases ps.len(),
{
    if ps.len() == 0 {
        acc
    } else {
        let prev = postings_balance(acc, ps.drop_last(), a, c);
        if ps.last().account == a && ps.last().commodity == c {
            add_or_keep(prev, ps.last().amount)
        } else {
            prev
        }
    }
}

/// Balance of account `a` in commodity `c`: the postings of every transaction
/// that is not a duplicate, in ledger order.
pub open spec fn balance_fold(txs: Seq<TxView>, a: Seq<char>, c: Seq<char>) -> DecimalValue
    decreases txs.len(),
{
    if txs.len() == 0 {
        zero_dec()
    } else {
        let prev = balance_fold(txs.drop_last(), a, c);
        if txs.last().duplicate_of is Some {
            prev
        } else {
            postings_balance(prev, txs.last().postings, a, c)
        }
    }
}

/// Decimal addition of `x` and `y` is exact whenever the exact sum fits at
/// the larger scale (what `Decimal::checked_add` guarantees, and what
/// `Amount::checked_add` states at every call).
pub open spec fn adds_exact(x: DecimalValue, y: DecimalValue) -> bool {
    dec_sum_fits(x, y) ==> (decimal_checked_add(x, y) matches Some(z) && dec_value(z) == dec_value(x) + dec_value(y))
}

/// The numeric sum of the amounts of the postings on `a` in `c`.
pub open spec fn postings_total(ps: Seq<PostingView>, a: Seq<char>, c: Seq<char>) -> int
    decreases ps.len(),
{
    if ps.len() == 0 {
        0
    } else {
        postings_total(ps.drop_last(), a, c) + if ps.last().account == a && ps.last().commodity == c {
            dec_value(ps.last().amount)
        } else {
            0
        }
    }
}

/// The numeric sum of the amounts of all postings on `a` in `c` in the
/// transactions that are not duplicates.
pub open spec fn live_total(txs: Seq<TxView>, a: Seq<char>, c: Seq<char>) -> int
    decreases txs.len(),
{
    if txs.len() == 0 {
        0
    } else {
        live_total(txs.drop_last(), a, c) + if txs.last().duplicate_of is None {
            postings_total(txs.last().postings, a, c)
        } else {
            0
        }
    }
}

/// Along the postings, every addition made is exact when it fits (`exact`),
/// or every addition made fits (`!exact`).
pub open spec fn postings_adds(acc: DecimalValue, ps: Seq<PostingView>, a: Seq<char>, c: Seq<char>, exact: bool) -> bool
    decreases ps.len(),
{
    if ps.len() == 0 {
        true
    } else {
        postings_adds(acc, ps.drop_last(), a, c, exact) && ((ps.last().account == a && ps.last().commodity == c)
            ==> if exact {
            adds_exact(postings_balance(acc, ps.drop_last(), a, c), ps.last().amount)
        } else {
            dec_sum_fits(postings_balance(acc, ps.drop_last(), a, c), ps.last().amount)
        })
    }
}

/// Along the balance of the transactions, every addition made is exact when
/// it fits (`exact`), or every addition made fits (`!exact`).
pub open spec fn balance_adds(txs: Seq<TxView>, a: Seq<char>, c: Seq<char>, exact: bool) -> bool
    decreases txs.len(),
{
    if txs.len() == 0 {
        true
    } else {
        balance_adds(txs.drop_last(), a, c, exact) && (txs.last().duplicate_of is None ==> postings_adds(
            balance_fold(txs.drop_last(), a, c),
            txs.last().postings,
            a,
            c,
            exact,
        ))
    }
}

proof fn lemma_postings_sum(acc: DecimalValue, ps: Seq<PostingView>, a: Seq<char>, c: Seq<char>)
    requires
        postings_adds(acc, ps, a, c, true),
        postings_adds(acc, ps, a, c, false),
    ensures
        dec_value(postings_balance(acc, ps, a, c)) == dec_value(acc) + postings_total(ps, a, c),
    decreases ps.len(),
{
    if ps.len() > 0 {
        lemma_postings_sum(acc, ps.drop_last(), a, c);
    }
}

/// The balance of an account in a commodity is, as a number, the sum of the
/// amounts of all its postings in transactions that are not duplicates, as
/// long as every addition is exact when it fits (as decimal addition is) and
/// every addition fits.
pub proof fn law_balance_is_the_sum(txs: Seq<TxView>, a: Seq<char>, c: Seq<char>)
    requires
        balance_adds(txs, a, c, true),
        balance_adds(txs, a, c, false),
    ensures
        dec_value(balance_fold(txs, a, c)) == live_total(txs, a, c),
    decreases txs.len(),
{
    if txs.len() == 0 {
        lemma_zero_value(zero_dec());
    } else {
        law_balance_is_the_sum(txs.drop_last(), a, c);
        if txs.last().duplicate_of is None {
            lemma_postings_sum(balance_fold(txs.drop_last(), a, c), txs.last().postings, a, c);
        }
    }
}

/// Appending a transaction adds, as a number, its postings on the account
/// to the balance (nothing when it is a duplicate), as long as every
/// addition is exact when it fits and fits.
pub proof fn law_balance_appends(txs: Seq<TxView>, t: TxView, a: Seq<char>, c: Seq<char>)
    requires
        balance_adds(txs.push(t), a, c, true),
        balance_adds(txs.push(t), a, c, false),
    ensures
        dec_value(balance_fold(txs.push(t), a, c)) == dec_value(balance_fold(txs, a, c)) + if t.duplicate_of is None {
            postings_total(t.postings, a, c)
        } else {
            0
        },
{
    assert(txs.push(t).drop_last() =~= txs);
    law_balance_is_the_sum(txs.push(t), a, c);
    law_balance_is_the_sum(txs, a, c);
}

/// Sum postings for one account (single source of truth for balances).
pub fn account_balance(snapshot: &LedgerSnapshot, account: &AccountId, commodity: &Commodity) -> (r: Amount)
    ensures
        r@ == balance_fold(snapshot@, account@, commodity@),
        balance_adds(snapshot@, account@, commodity@, true),
        balance_adds(snapshot@, account@, commodity@, false) ==> dec_value(r@) == live_total(
            snapshot@,
            account@,
            commodity@,
        ),
{
    let ghost tv = snapshot@;
    let mut total = Amount::zero();
    let mut i: usize = 0;
    assert(tv.take(0) =~= Seq::<TxView>::empty());
    while i < snapshot.transactions.len()
        invariant
            i <= snapshot.transactions.len(),
            tv == snapshot@,
            total@ == balance_fold(tv.take(i as int), account@, commodity@),
            balance_adds(tv.take(i as int), account@, commodity@, true),
        decreases snapshot.transactions.len() - i,
    {
        let tx = &snapshot.transactions[i];
        assert(tv.take(i + 1).drop_last() =~= tv.take(i as int));
        assert(tv.take(i + 1).last() == tx@);
        if tx.duplicate_of.is_none() {
            let ghost pv = tx@.postings;
            let ghost base = total@;
            let mut j: usize = 0;
            assert(pv.take(0) =~= Seq::<PostingView>::empty());
            while j < tx.postings.len()
                invariant
                    j <= tx.postings.len(),
                    pv == tx@.postings,
                    total@ == postings_balance(base, pv.take(j as int), account@, commodity@),
                    postings_adds(base, pv.take(j as int), account@, commodity@, true),
                decreases tx.postings.len() - j,
            {
                let p = &tx.postings[j];
                assert(pv.take(j + 1).drop_last() =~= pv.take(j as int));
                assert(pv.take(j + 1).last() == p@);
                if p.account.same(account) && p.commodity.same(commodity) {
                    match total.checked_add(p.amount) {
                        Some(next) => {
                            total = next;
                        },
                        None => {},
                    }
                }
                j = j + 1;
            }
            assert(pv.take(tx.postings.len() as int) =~= pv);
        }
        i = i + 1;
    }
    assert(tv.take(snapshot.transactions.len() as int) =~= tv);
    proof {
        if balance_adds(tv, account@, commodity@, false) {
            law_balance_is_the_sum(tv, account@, commodity@);
        }
    }
    total
}

/// A transaction linked as a duplicate never moves a balance.
pub proof fn law_balance_ignores_duplicates(txs: Seq<TxView>, t: TxView, a: Seq<char>, c: Seq<char>)
    requires
        t.duplicate_of is Some,
    ensures
        balance_fold(txs.push(t), a, c) == balance_fold(txs, a, c),
{
    assert(txs.push(t).drop_last() =~= txs);
}

/// The ledger report holds one message per transaction that fails to
/// balance (that `verify_transaction` refuses), and no other, so it is `ok`
/// exactly when every transaction balances.
pub proof fn law_one_message_per_unbalanced(txs: Seq<TxView>)
    ensures
        unbalanced_msgs(txs).len() == txs.filter(|t: TxView| !balanced_ok(t.postings)).len(),
        (unbalanced_msgs(txs).len() == 0) <==> forall|i: int| 0 <= i < txs.len() ==> balanced_ok(#[trigger] txs[i].postings),
    decreases txs.len(),
{
    reveal(Seq::filter);
    if txs.len() > 0 {
        let d = txs.drop_last();
        law_one_message_per_unbalanced(d);
        assert(txs.last() == txs[txs.len() - 1]);
        if unbalanced_msgs(txs).len() == 0 {
            assert forall|i: int| 0 <= i < txs.len() implies balanced_ok(#[trigger] txs[i].postings) by {
                if i < d.len() {
                    assert(d[i] == txs[i]);
                }
            }
        }
        if forall|i: int| 0 <= i < txs.len() ==> balanced_ok(#[trigger] txs[i].postings) {
            assert forall|i: int| 0 <= i < d.len() implies balanced_ok(#[trigger] d[i].postings) by {
                assert(d[i] == txs[i]);
            }
        }
    }
}

} // verus!
