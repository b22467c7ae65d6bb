//! Ledger snapshots and their canonical text (the input of the ledger hash).
use vstd::prelude::*;

use crate::date::Date;
use crate::ids::{uuid_str, uuid_to_string, ImportBatchId, MerchantId, TransactionId};
use crate::money::dec_str;
use crate::posting::{Posting, PostingView};
use crate::text::{chars_of, push_char, push_str, string_of};
use crate::transaction::{Transaction, TxView};

verus! {

#[derive(Clone, Debug)]
/// Point-in-time ledger view derived from postings (single source of truth).
pub struct LedgerSnapshot {
    pub transactions: Vec<Transaction>,
}

pub open spec fn txs_view(v: Seq<Transaction>) -> Seq<TxView> {
    v.map_values(|t: Transaction| t@)
}

impl View for LedgerSnapshot {
    type V = Seq<TxView>;

    open spec fn view(&self) -> Seq<TxView> {
        txs_view(self.transactions@)
    }
}

impl Default for LedgerSnapshot {
    fn default() -> (r: LedgerSnapshot)
        ensures
            r@ == Seq::<TxView>::empty(),
    {
        let r = LedgerSnapshot { transactions: Vec::new() };
        assert(r@ =~= Seq::<TxView>::empty());
        r
    }
}

pub fn dup_txs(v: &Vec<Transaction>) -> (r: Vec<Transaction>)
    ensures
        txs_view(r@) == txs_view(v@),
{
    let mut out: Vec<Transaction> = Vec::new();
    let mut i: usize = 0;
    while i < v.len()
        invariant
            i <= v.len(),
            txs_view(out@) == txs_view(v@.take(i as int)),
        decreases v.len() - i,
    {
        let ghost prev = out@;
        let t = v[i].duplicate();
        out.push(t);
        assert(txs_view(out@) =~= txs_view(prev).push(v@[i as int]@));
        assert(txs_view(v@.take(i + 1)) =~= txs_view(v@.take(i as int)).push(v@[i as int]@));
        i = i + 1;
    }
    assert(v@.take(v.len() as int) =~= v@);
    out
}

impl LedgerSnapshot {
    pub fn duplicate(&self) -> (r: LedgerSnapshot)
        ensures
            r@ == self@,
    {
        LedgerSnapshot { transactions: dup_txs(&self.transactions) }
    }
}

/// A string quoted, with `\` and `"` escaped by a backslash.
pub open spec fn esc_body(s: Seq<char>) -> Seq<char>
    decreases s.len(),
{
    if s.len() == 0 {
        Seq::empty()
    } else {
        let c = s.last();
        esc_body(s.drop_last()) + if c == '\\' || c == '"' {
            seq!['\\', c]
        } else {
            seq![c]
        }
    }
}

pub open spec fn quoted(s: Seq<char>) -> Seq<char> {
    seq!['"'] + esc_body(s) + seq!['"']
}

pub open spec fn opt_quoted(o: Option<Seq<char>>) -> Seq<char> {
    match o {
        Some(s) => quoted(s),
        None => "null"@,
    }
}

pub open spec fn opt_uuid(o: Option<u128>) -> Seq<char> {
    match o {
        Some(v) => uuid_str(v),
        None => "null"@,
    }
}

pub open spec fn posting_canon(p: PostingView) -> Seq<char> {
    "("@ + quoted(p.account) + ","@ + dec_str(p.amount) + ","@ + quoted(p.commodity) + ","@
        + opt_quoted(p.memo) + ")"@
}

pub open spec fn list_canon<A>(items: Seq<A>, f: spec_fn(A) -> Seq<char>) -> Seq<char>
    decreases items.len(),
{
    if items.len() == 0 {
        Seq::empty()
    } else if items.len() == 1 {
        f(items[0])
    } else {
        list_canon(items.drop_last(), f) + ","@ + f(items.last())
    }
}

/// One more item extends the list text by a separator (when it is not the first) and the item's text.
proof fn lemma_list_canon_step<A>(items: Seq<A>, f: spec_fn(A) -> Seq<char>, i: int)
    requires
        0 <= i < items.len(),
    ensures
        list_canon(items.take(i + 1), f) == if i == 0 {
            f(items[i])
        } else {
            list_canon(items.take(i), f) + ","@ + f(items[i])
        },
{
    assert(items.take(i + 1).drop_last() =~= items.take(i));
}

pub open spec fn merchant_u128(o: Option<MerchantId>) -> Option<u128> {
    match o {
        Some(m) => Some(m.0),
        None => None,
    }
}

pub open spec fn batch_u128(o: Option<ImportBatchId>) -> Option<u128> {
    match o {
        Some(m) => Some(m.0),
        None => None,
    }
}

pub open spec fn txid_u128(o: Option<TransactionId>) -> Option<u128> {
    match o {
        Some(m) => Some(m.0),
        None => None,
    }
}

pub open spec fn tx_head(t: TxView) -> Seq<char> {
    tx_head1(t) + ";merchant="@ + opt_uuid(merchant_u128(t.merchant_id)) + ";narration="@ + opt_quoted(
        t.narration,
    ) + ";batch="@ + opt_uuid(batch_u128(t.import_batch_id)) + ";duplicate_of="@ + opt_uuid(
        txid_u128(t.duplicate_of),
    )
}

pub open spec fn tags_canon(tags: Seq<Seq<char>>) -> Seq<char> {
    list_canon(tags, |s: Seq<char>| quoted(s))
}

pub open spec fn postings_canon(ps: Seq<PostingView>) -> Seq<char> {
    list_canon(ps, |p: PostingView| posting_canon(p))
}

/// Canonical text of one transaction: every field, in a fixed order.
pub open spec fn tx_canon(t: TxView) -> Seq<char> {
    tx_head(t) + ";tags=["@ + tags_canon(t.tags) + "];fingerprint="@ + opt_quoted(
        t.row_fingerprint,
    ) + ";postings=["@ + postings_canon(t.postings) + "]}"@
}

/// Canonical text of a list of transactions.
pub open spec fn snapshot_canon(txs: Seq<TxView>) -> Seq<char> {
    "["@ + list_canon(txs, |t: TxView| tx_canon(t)) + "]"@
}

pub(crate) fn push_quoted(out: &mut String, s: &str)
    ensures
        final(out)@ == old(out)@ + quoted(s@),
{
    let v = chars_of(s);
    push_char(out, '"');
    let mut i: usize = 0;
    let ghost base = out@;
    assert(v@.take(0) =~= Seq::<char>::empty());
    while i < v.len()
        invariant
            i <= v.len(),
            out@ == base + esc_body(v@.take(i as int)),
            base == old(out)@ + seq!['"'],
        decreases v.len() - i,
    {
        let c = v[i];
        assert(v@.take(i + 1).drop_last() =~= v@.take(i as int));
        if c == '\\' || c == '"' {
            push_char(out, '\\');
        }
        push_char(out, c);
        i = i + 1;
        assert(out@ =~= base + esc_body(v@.take(i as int)));
    }
    assert(v@.take(v.len() as int) =~= v@);
    push_char(out, '"');
    assert(out@ =~= old(out)@ + quoted(s@));
}

pub(crate) fn push_opt_quoted(out: &mut String, o: &Option<String>)
    ensures
        final(out)@ == old(out)@ + opt_quoted(crate::posting::opt_str(*o)),
{
    match o {
        Some(s) => push_quoted(out, s.as_str()),
        None => {
            push_str(out, "null");
        },
    }
}

pub(crate) fn push_opt_uuid(out: &mut String, o: Option<u128>)
    ensures
        final(out)@ == old(out)@ + opt_uuid(o),
{
    match o {
        Some(v) => {
            let s = uuid_to_string(v);
            push_str(out, s.as_str());
        },
        None => {
            push_str(out, "null");
        },
    }
}

pub(crate) fn push_posting(out: &mut String, p: &Posting)
    ensures
        final(out)@ == old(out)@ + posting_canon(p@),
{
    push_str(out, "(");
    push_quoted(out, p.account.as_str());
    push_str(out, ",");
    let a = p.amount.to_string();
    push_str(out, a.as_str());
    push_str(out, ",");
    push_quoted(out, p.commodity.as_str());
    push_str(out, ",");
    push_opt_quoted(out, &p.memo);
    push_str(out, ")");
    assert(out@ =~= old(out)@ + posting_canon(p@));
}

pub open spec fn tx_head1(t: TxView) -> Seq<char> {
    "{id="@ + uuid_str(t.id.0) + ";date="@ + t.date.text() + ";payee="@ + quoted(t.payee)
}

pub(crate) fn push_tx_head1(out: &mut String, t: &Transaction)
    ensures
        final(out)@ == old(out)@ + tx_head1(t@),
{
    push_str(out, "{id=");
    let ids = t.id.to_string();
    push_str(out, ids.as_str());
    push_str(out, ";date=");
    let ds = t.date.to_string();
    push_str(out, ds.as_str());
    push_str(out, ";payee=");
    push_quoted(out, t.payee.as_str());
    assert(out@ =~= old(out)@ + tx_head1(t@));
}

#[verifier::rlimit(40)]
pub(crate) fn push_tx_head(out: &mut String, t: &Transaction)
    ensures
        final(out)@ == old(out)@ + tx_head(t@),
{
    push_tx_head1(out, t);
    push_str(out, ";merchant=");
    push_opt_uuid(out, match t.merchant_id { Some(m) => Some(m.0), None => None });
    push_str(out, ";narration=");
    push_opt_quoted(out, &t.narration);
    push_str(out, ";batch=");
    push_opt_uuid(out, match t.import_batch_id { Some(m) => Some(m.0), None => None });
    push_str(out, ";duplicate_of=");
    push_opt_uuid(out, match t.duplicate_of { Some(m) => Some(m.0), None => None });
    assert(out@ =~= old(out)@ + tx_head(t@));
}

pub(crate) fn push_tags(out: &mut String, tags: &Vec<String>)
    ensures
        final(out)@ == old(out)@ + tags_canon(crate::transaction::strings_view(tags@)),
{
    let ghost mid = out@;
    let mut i: usize = 0;
    let ghost tv = crate::transaction::strings_view(tags@);
    assert(tv.take(0) =~= Seq::<Seq<char>>::empty());
    while i < tags.len()
        invariant
            i <= tags.len(),
            tv == crate::transaction::strings_view(tags@),
            mid == old(out)@,
            out@ == mid + list_canon(tv.take(i as int), |s: Seq<char>| quoted(s)),
        decreases tags.len() - i,
    {
        assert(tv.take(i + 1).drop_last() =~= tv.take(i as int));
        if i > 0 {
            push_str(out, ",");
        }
        push_quoted(out, tags[i].as_str());
        i = i + 1;
        assert(out@ =~= mid + list_canon(tv.take(i as int), |s: Seq<char>| quoted(s)));
    }
    assert(tv.take(tags.len() as int) =~= tv);
}

pub(crate) fn push_postings(out: &mut String, ps: &Vec<Posting>)
    ensures
        final(out)@ == old(out)@ + postings_canon(crate::posting::postings_view(ps@)),
{
    let ghost mid2 = out@;
    let ghost pv = crate::posting::postings_view(ps@);
    let mut j: usize = 0;
    assert(pv.take(0) =~= Seq::<PostingView>::empty());
    while j < ps.len()
        invariant
            j <= ps.len(),
            pv == crate::posting::postings_view(ps@),
            mid2 == old(out)@,
            out@ == mid2 + list_canon(pv.take(j as int), |p: PostingView| posting_canon(p)),
        decreases ps.len() - j,
    {
        assert(pv.take(j + 1).drop_last() =~= pv.take(j as int));
        if j > 0 {
            push_str(out, ",");
        }
        push_posting(out, &ps[j]);
        j = j + 1;
        assert(out@ =~= mid2 + list_canon(pv.take(j as int), |p: PostingView| posting_canon(p)));
    }
    assert(pv.take(ps.len() as int) =~= pv);
}

pub(crate) fn push_tx(out: &mut String, t: &Transaction)
    ensures
        final(out)@ == old(out)@ + tx_canon(t@),
{
    let ghost start = out@;
    push_tx_head(out, t);
    push_str(out, ";tags=[");
    push_tags(out, &t.tags);
    push_str(out, "];fingerprint=");
    push_opt_quoted(out, &t.row_fingerprint);
    push_str(out, ";postings=[");
    push_postings(out, &t.postings);
    push_str(out, "]}");
    assert(out@ =~= start + tx_canon(t@));
}

/// The canonical text of the transactions (what the ledger hash digests).
pub fn canonical_text(txs: &Vec<Transaction>) -> (r: String)
    ensures
        r@ == snapshot_canon(txs_view(txs@)),
{
    let mut out = string_of(chars_of("[").as_slice());
    let ghost tv = txs_view(txs@);
    let ghost base = out@;
    let mut i: usize = 0;
    assert(tv.take(0) =~= Seq::<TxView>::empty());
    while i < txs.len()
        invariant
            i <= txs.len(),
            tv == txs_view(txs@),
            base == "["@,
            out@ == base + list_canon(tv.take(i as int), |t: TxView| tx_canon(t)),
        decreases txs.len() - i,
    {
        proof {
            lemma_list_canon_step(tv, |t: TxView| tx_canon(t), i as int);
        }
        if i > 0 {
            push_str(&mut out, ",");
        }
        push_tx(&mut out, &txs[i]);
        i = i + 1;
        assert(out@ =~= base + list_canon(tv.take(i as int), |t: TxView| tx_canon(t)));
    }
    assert(tv.take(txs.len() as int) =~= tv);
    push_str(&mut out, "]");
    out
}

} // verus!
