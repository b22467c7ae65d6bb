//! Duplicate planning: exact and near-date matches are linked, never deleted.
use vstd::prelude::*;

use crate::convert::sort_strs;
use crate::date::{date_str, Date};
use crate::ids::{uuid_str, uuid_to_string, TransactionId};
use crate::money::{dec_str, Amount};
use crate::normalize::{display_of, merchant_key, normalize_merchant};
use crate::text::{chars_of, int_str, int_str_i64, push_chars, push_str, str_eq, str_lt, string_lt, string_of};
use crate::transaction::{Transaction, TxView};

verus! {

#[derive(Clone, Copy, Debug)]
pub struct DedupeOptions {
    /// Inclusive calendar-day window for near-duplicates (0 = exact date only).
    pub window_days: i64,
}

impl DedupeOptions {
    /// A one-day window.
    pub fn default() -> (r: DedupeOptions)
        ensures
            r.window_days == 1,
    {
        DedupeOptions { window_days: 1 }
    }
}

#[derive(Clone, Debug)]
pub struct DedupeLink {
    pub duplicate_id: TransactionId,
    pub survivor_id: TransactionId,
    pub strategy: String,
    pub explanation: String,
    pub confidence: u8,
}

pub struct LinkView {
    pub duplicate_id: u128,
    pub survivor_id: u128,
    pub strategy: Seq<char>,
    pub explanation: Seq<char>,
    pub confidence: u8,
}

impl View for DedupeLink {
    type V = LinkView;

    open spec fn view(&self) -> LinkView {
        LinkView {
            duplicate_id: self.duplicate_id.0,
            survivor_id: self.survivor_id.0,
            strategy: self.strategy@,
            explanation: self.explanation@,
            confidence: self.confidence,
        }
    }
}

pub open spec fn links_view(v: Seq<DedupeLink>) -> Seq<LinkView> {
    v.map_values(|l: DedupeLink| l@)
}

#[derive(Clone, Debug)]
pub struct DedupeReport {
    pub links: Vec<DedupeLink>,
    pub skipped_already_linked: usize,
}

/// What a transaction is compared by.
pub struct FingerView {
    pub id: u128,
    pub date: Date,
    pub exact: Seq<char>,
    pub near: Seq<char>,
    pub ids: Seq<char>,
}

#[derive(Clone, Debug)]
/// A live transaction's comparison keys.
pub struct Finger {
    pub id: TransactionId,
    pub date: Date,
    pub key_exact: String,
    pub key_near: String,
    pub id_str: String,
}

impl View for Finger {
    type V = FingerView;

    open spec fn view(&self) -> FingerView {
        FingerView {
            id: self.id.0,
            date: self.date,
            exact: self.key_exact@,
            near: self.key_near@,
            ids: self.id_str@,
        }
    }
}

pub open spec fn fingers_view(v: Seq<Finger>) -> Seq<FingerView> {
    v.map_values(|f: Finger| f@)
}

/// The merchant a transaction is compared by: its narration when set and
/// non-empty, else the canonical key of its payee.
pub open spec fn tx_merchant(t: TxView) -> Seq<char> {
    match t.narration {
        Some(n) => if n.len() > 0 {
            n
        } else {
            merchant_key(display_of(t.payee))
        },
        None => merchant_key(display_of(t.payee)),
    }
}

/// A live transaction with a first posting is compared by
/// `account|amount|commodity|merchant`, with the date in front for exact matches.
pub open spec fn finger_of(t: TxView) -> Option<FingerView> {
    if t.duplicate_of is Some || t.postings.len() == 0 {
        None
    } else {
        let p = t.postings[0];
        let near = p.account + "|"@ + dec_str(p.amount) + "|"@ + p.commodity + "|"@ + tx_merchant(t);
        Some(
            FingerView {
                id: t.id.0,
                date: t.date,
                exact: t.date.text() + "|"@ + near,
                near,
                ids: uuid_str(t.id.0),
            },
        )
    }
}

pub open spec fn fingers(txs: Seq<TxView>) -> Seq<FingerView>
    decreases txs.len(),
{
    if txs.len() == 0 {
        Seq::empty()
    } else {
        match finger_of(txs.last()) {
            Some(f) => fingers(txs.drop_last()).push(f),
            None => fingers(txs.drop_last()),
        }
    }
}

pub open spec fn count_linked(txs: Seq<TxView>) -> nat
    decreases txs.len(),
{
    if txs.len() == 0 {
        0
    } else {
        count_linked(txs.drop_last()) + if txs.last().duplicate_of is Some {
            1nat
        } else {
            0nat
        }
    }
}

fn owned(s: &str) -> (r: String)
    ensures
        r@ == s@,
{
    string_of(chars_of(s).as_slice())
}

fn tx_merchant_exec(t: &Transaction) -> (r: String)
    ensures
        r@ == tx_merchant(t@),
{
    match &t.narration {
        Some(n) => {
            if chars_of(n.as_str()).len() > 0 {
                return n.clone();
            }
        },
        None => {},
    }
    normalize_merchant(t.payee.as_str()).canonical_key
}

fn finger_exec(t: &Transaction) -> (r: Option<Finger>)
    ensures
        match finger_of(t@) {
            Some(f) => r matches Some(x) && x@ == f,
            None => r is None,
        },
{
    if t.duplicate_of.is_some() || t.postings.len() == 0 {
        return None;
    }
    let p = &t.postings[0];
    assert(t@.postings[0] == p@);
    let mut near = owned(p.account.as_str());
    push_str(&mut near, "|");
    let a = p.amount.to_string();
    push_str(&mut near, a.as_str());
    push_str(&mut near, "|");
    push_str(&mut near, p.commodity.as_str());
    push_str(&mut near, "|");
    let m = tx_merchant_exec(t);
    push_str(&mut near, m.as_str());
    let mut exact = t.date.to_string();
    push_str(&mut exact, "|");
    push_str(&mut exact, near.as_str());
    Some(Finger { id: t.id, date: t.date, key_exact: exact, key_near: near, id_str: uuid_to_string(t.id.0) })
}

fn fingers_exec(txs: &Vec<Transaction>) -> (r: (Vec<Finger>, usize))
    ensures
        fingers_view(r.0@) == fingers(crate::snapshot::txs_view(txs@)),
        r.1 == count_linked(crate::snapshot::txs_view(txs@)),
{
    let ghost tv = crate::snapshot::txs_view(txs@);
    let mut out: Vec<Finger> = Vec::new();
    let mut linked: usize = 0;
    let mut i: usize = 0;
    assert(tv.take(0) =~= Seq::<TxView>::empty());
    while i < txs.len()
        invariant
            i <= txs.len(),
            tv == crate::snapshot::txs_view(txs@),
            fingers_view(out@) == fingers(tv.take(i as int)),
            linked == count_linked(tv.take(i as int)),
            linked <= i,
        decreases txs.len() - i,
    {
        let t = &txs[i];
        assert(tv.take(i + 1).drop_last() =~= tv.take(i as int));
        assert(tv.take(i + 1).last() == t@);
        if t.duplicate_of.is_some() {
            linked = linked + 1;
        }
        let ghost prev = out@;
        match finger_exec(t) {
            Some(f) => {
                out.push(f);
                assert(fingers_view(out@) =~= fingers_view(prev).push(f@));
            },
            None => {},
        }
        i = i + 1;
    }
    assert(tv.take(txs.len() as int) =~= tv);
    (out, linked)
}

pub open spec fn idx_view(v: Seq<usize>) -> Seq<int> {
    v.map_values(|u: usize| u as int)
}

pub open spec fn in_range(s: Seq<int>, n: int) -> bool {
    forall|j: int| 0 <= j < s.len() ==> 0 <= #[trigger] s[j] < n
}

/// Comparison order: date, then the id's text.
pub open spec fn finger_lt(x: FingerView, y: FingerView) -> bool {
    x.date.before(y.date) || (x.date == y.date && str_lt(x.ids, y.ids))
}

/// Where item `x` goes in `s` so that equal items keep their order.
pub open spec fn ord_pos(items: Seq<FingerView>, s: Seq<int>, x: int) -> int
    decreases s.len(),
{
    if s.len() == 0 {
        0
    } else if finger_lt(items[x], items[s[0]]) {
        0
    } else {
        1 + ord_pos(items, s.drop_first(), x)
    }
}

/// `s` stably sorted by `finger_lt` of the items it indexes.
pub open spec fn sort_ord(items: Seq<FingerView>, s: Seq<int>) -> Seq<int>
    decreases s.len(),
{
    if s.len() == 0 {
        s
    } else {
        let p = sort_ord(items, s.drop_last());
        p.insert(ord_pos(items, p, s.last()), s.last())
    }
}

proof fn lemma_ord_pos_bound(items: Seq<FingerView>, s: Seq<int>, x: int)
    ensures
        0 <= ord_pos(items, s, x) <= s.len(),
    decreases s.len(),
{
    if s.len() > 0 && !finger_lt(items[x], items[s[0]]) {
        lemma_ord_pos_bound(items, s.drop_first(), x);
    }
}

proof fn lemma_sort_ord(items: Seq<FingerView>, s: Seq<int>, n: int)
    requires
        in_range(s, n),
    ensures
        sort_ord(items, s).len() == s.len(),
        in_range(sort_ord(items, s), n),
    decreases s.len(),
{
    if s.len() > 0 {
        let p = sort_ord(items, s.drop_last());
        lemma_sort_ord(items, s.drop_last(), n);
        lemma_ord_pos_bound(items, p, s.last());
        let q = p.insert(ord_pos(items, p, s.last()), s.last());
        assert forall|j: int| 0 <= j < q.len() implies 0 <= #[trigger] q[j] < n by {
            let k = ord_pos(items, p, s.last());
            if j < k {
                assert(q[j] == p[j]);
            } else if j > k {
                assert(q[j] == p[j - 1]);
            }
        }
    }
}

pub open spec fn key_of(f: FingerView, exact: bool) -> Seq<char> {
    if exact {
        f.exact
    } else {
        f.near
    }
}

/// The indices of `idx` whose item has key `k`, in order.
pub open spec fn members(items: Seq<FingerView>, exact: bool, idx: Seq<int>, k: Seq<char>) -> Seq<int>
    decreases idx.len(),
{
    if idx.len() == 0 {
        Seq::empty()
    } else {
        let m = members(items, exact, idx.drop_last(), k);
        if key_of(items[idx.last()], exact) == k {
            m.push(idx.last())
        } else {
            m
        }
    }
}

proof fn lemma_members_range(items: Seq<FingerView>, exact: bool, idx: Seq<int>, k: Seq<char>, n: int)
    requires
        in_range(idx, n),
    ensures
        in_range(members(items, exact, idx, k), n),
    decreases idx.len(),
{
    if idx.len() > 0 {
        lemma_members_range(items, exact, idx.drop_last(), k, n);
    }
}

/// The distinct keys of the items `idx` points at, in order of first appearance.
pub open spec fn distinct_keys(items: Seq<FingerView>, exact: bool, idx: Seq<int>) -> Seq<Seq<char>>
    decreases idx.len(),
{
    if idx.len() == 0 {
        Seq::empty()
    } else {
        let d = distinct_keys(items, exact, idx.drop_last());
        let k = key_of(items[idx.last()], exact);
        if d.contains(k) {
            d
        } else {
            d.push(k)
        }
    }
}

pub struct PlanState {
    pub links: Seq<LinkView>,
    pub claimed: Seq<Seq<char>>,
}

pub open spec fn exact_link(d: FingerView, s: FingerView) -> LinkView {
    LinkView {
        duplicate_id: d.id,
        survivor_id: s.id,
        strategy: "exact"@,
        explanation: "same date+account+amount+commodity+merchant as "@ + s.ids,
        confidence: 100,
    }
}

/// An exact group of two or more: the earliest is the survivor, every other
/// member links to it; all members are claimed.
pub open spec fn exact_group(items: Seq<FingerView>, st: PlanState, k: Seq<char>) -> PlanState {
    let m = members(items, true, Seq::new(items.len(), |i: int| i), k);
    if m.len() < 2 {
        st
    } else {
        let ord = sort_ord(items, m);
        let s = items[ord[0]];
        let dups = ord.skip(1);
        PlanState {
            links: st.links + dups.map_values(|i: int| exact_link(items[i], s)),
            claimed: st.claimed + dups.map_values(|i: int| items[i].ids).push(s.ids),
        }
    }
}

pub open spec fn exact_fold(items: Seq<FingerView>, groups: Seq<Seq<char>>) -> PlanState
    decreases groups.len(),
{
    if groups.len() == 0 {
        PlanState { links: Seq::empty(), claimed: Seq::empty() }
    } else {
        exact_group(items, exact_fold(items, groups.drop_last()), groups.last())
    }
}

/// The indices below `n` whose id is not claimed, in order.
pub open spec fn unclaimed(items: Seq<FingerView>, claimed: Seq<Seq<char>>, n: nat) -> Seq<int>
    decreases n,
{
    if n == 0 {
        Seq::empty()
    } else {
        let u = unclaimed(items, claimed, (n - 1) as nat);
        if claimed.contains(items[n - 1].ids) {
            u
        } else {
            u.push(n - 1)
        }
    }
}

proof fn lemma_unclaimed_range(items: Seq<FingerView>, claimed: Seq<Seq<char>>, n: nat)
    ensures
        in_range(unclaimed(items, claimed, n), n as int),
    decreases n,
{
    if n > 0 {
        lemma_unclaimed_range(items, claimed, (n - 1) as nat);
    }
}

pub open spec fn near_link(a: FingerView, b: FingerView, w: int) -> LinkView {
    LinkView {
        duplicate_id: b.id,
        survivor_id: a.id,
        strategy: "near_window"@,
        explanation: "same account+amount+merchant; dates "@ + a.date.text() + " and "@ + b.date.text()
            + " within "@ + int_str(w) + " day(s)"@,
        confidence: 85,
    }
}

pub open spec fn abs_days(a: Date, b: Date) -> int {
    if b.days() - a.days() < 0 {
        a.days() - b.days()
    } else {
        b.days() - a.days()
    }
}

/// Whether some link already marks `id` as a duplicate.
pub open spec fn linked_as_dup(links: Seq<LinkView>, id: u128) -> bool {
    exists|i: int| 0 <= i < links.len() && (#[trigger] links[i]).duplicate_id == id
}

/// Pairs `(a, b)`, `a < b`, of the ordered group, from `(a, b)` on: a later
/// member within the window that is not yet claimed links to the earlier one,
/// unless the earlier one is itself already linked as a duplicate (a link
/// never points at a duplicate). Both ends of a link are claimed.
pub open spec fn near_pairs(items: Seq<FingerView>, ord: Seq<int>, w: int, a: int, b: int, st: PlanState) -> PlanState
    decreases ord.len() - a, ord.len() - b,
{
    if a < 0 || a >= ord.len() {
        st
    } else if b >= ord.len() {
        near_pairs(items, ord, w, a + 1, a + 2, st)
    } else if b < 0 {
        st
    } else {
        let fa = items[ord[a]];
        let fb = items[ord[b]];
        if abs_days(fa.date, fb.date) > w || st.claimed.contains(fb.ids) || linked_as_dup(st.links, fa.id) {
            near_pairs(items, ord, w, a, b + 1, st)
        } else {
            near_pairs(
                items,
                ord,
                w,
                a,
                b + 1,
                PlanState { links: st.links.push(near_link(fa, fb, w)), claimed: st.claimed.push(fb.ids).push(fa.ids) },
            )
        }
    }
}

pub open spec fn near_group(items: Seq<FingerView>, w: int, u: Seq<int>, st: PlanState, k: Seq<char>) -> PlanState {
    let m = members(items, false, u, k);
    if m.len() < 2 {
        st
    } else {
        near_pairs(items, sort_ord(items, m), w, 0, 1, st)
    }
}

pub open spec fn near_fold(items: Seq<FingerView>, w: int, u: Seq<int>, groups: Seq<Seq<char>>, init: PlanState) -> PlanState
    decreases groups.len(),
{
    if groups.len() == 0 {
        init
    } else {
        near_group(items, w, u, near_fold(items, w, u, groups.drop_last(), init), groups.last())
    }
}

/// The plan: exact groups first (in order of first appearance), then, for a
/// non-negative window, near groups of the unclaimed (in key order).
pub open spec fn plan(items: Seq<FingerView>, w: int) -> PlanState {
    let st = exact_fold(items, distinct_keys(items, true, Seq::new(items.len(), |i: int| i)));
    if w >= 0 {
        let u = unclaimed(items, st.claimed, items.len());
        near_fold(items, w, u, sort_strs(distinct_keys(items, false, u)), st)
    } else {
        st
    }
}

pub open spec fn state_of(links: Seq<DedupeLink>, claimed: Seq<String>) -> PlanState {
    PlanState { links: links_view(links), claimed: crate::transaction::strings_view(claimed) }
}

fn finger_lt_exec(x: &Finger, y: &Finger) -> (r: bool)
    ensures
        r == finger_lt(x@, y@),
{
    x.date.lt(y.date) || (x.date.eq(y.date) && string_lt(&x.id_str, &y.id_str))
}

fn sort_ord_exec(items: &Vec<Finger>, m: &Vec<usize>) -> (r: Vec<usize>)
    requires
        in_range(idx_view(m@), items.len() as int),
    ensures
        idx_view(r@) == sort_ord(fingers_view(items@), idx_view(m@)),
        in_range(idx_view(r@), items.len() as int),
{
    let ghost iv = fingers_view(items@);
    let ghost mv = idx_view(m@);
    let mut out: Vec<usize> = Vec::new();
    let mut i: usize = 0;
    assert(mv.take(0) =~= Seq::<int>::empty());
    while i < m.len()
        invariant
            i <= m.len(),
            iv == fingers_view(items@),
            mv == idx_view(m@),
            in_range(mv, items.len() as int),
            idx_view(out@) == sort_ord(iv, mv.take(i as int)),
            in_range(idx_view(out@), items.len() as int),
        decreases m.len() - i,
    {
        let x = m[i];
        assert(mv[i as int] == x as int);
        assert(mv.take(i + 1).drop_last() =~= mv.take(i as int));
        assert(mv.take(i + 1).last() == x as int);
        let ghost ov = idx_view(out@);
        let mut p: usize = 0;
        assert(ov.skip(0) =~= ov);
        while p < out.len() && !finger_lt_exec(&items[x], &items[out[p]])
            invariant
                p <= out.len(),
                ov == idx_view(out@),
                iv == fingers_view(items@),
                x < items.len(),
                in_range(ov, items.len() as int),
                ord_pos(iv, ov, x as int) == p + ord_pos(iv, ov.skip(p as int), x as int),
            decreases out.len() - p,
        {
            assert(ov.skip(p as int)[0] == out@[p as int] as int);
            assert(ov.skip(p as int).drop_first() =~= ov.skip(p + 1));
            p = p + 1;
        }
        proof {
            if p == out.len() {
                assert(ov.skip(p as int) =~= Seq::<int>::empty());
            } else {
                assert(ov.skip(p as int)[0] == out@[p as int] as int);
                assert(iv[ov[p as int]] == items@[out@[p as int] as int]@);
            }
            assert(iv[x as int] == items@[x as int]@);
        }
        out.insert(p, x);
        assert(idx_view(out@) =~= ov.insert(p as int, x as int));
        assert(in_range(idx_view(out@), items.len() as int)) by {
            assert forall|j: int| 0 <= j < idx_view(out@).len() implies 0 <= #[trigger] idx_view(out@)[j] < items.len() by {
                if j < p {
                    assert(idx_view(out@)[j] == ov[j]);
                } else if j > p {
                    assert(idx_view(out@)[j] == ov[j - 1]);
                }
            }
        }
        i = i + 1;
    }
    assert(mv.take(m.len() as int) =~= mv);
    out
}

fn key_exec(f: &Finger, exact: bool) -> (r: &String)
    ensures
        r@ == key_of(f@, exact),
{
    if exact {
        &f.key_exact
    } else {
        &f.key_near
    }
}

fn members_exec(items: &Vec<Finger>, exact: bool, idx: &Vec<usize>, k: &String) -> (r: Vec<usize>)
    requires
        in_range(idx_view(idx@), items.len() as int),
    ensures
        idx_view(r@) == members(fingers_view(items@), exact, idx_view(idx@), k@),
        in_range(idx_view(r@), items.len() as int),
{
    let ghost iv = fingers_view(items@);
    let ghost xv = idx_view(idx@);
    let mut out: Vec<usize> = Vec::new();
    let mut i: usize = 0;
    assert(xv.take(0) =~= Seq::<int>::empty());
    while i < idx.len()
        invariant
            i <= idx.len(),
            iv == fingers_view(items@),
            xv == idx_view(idx@),
            in_range(xv, items.len() as int),
            idx_view(out@) == members(iv, exact, xv.take(i as int), k@),
            in_range(idx_view(out@), items.len() as int),
        decreases idx.len() - i,
    {
        let x = idx[i];
        assert(xv[i as int] == x as int);
        assert(xv.take(i + 1).drop_last() =~= xv.take(i as int));
        assert(xv.take(i + 1).last() == x as int);
        assert(iv[x as int] == items@[x as int]@);
        let ghost prev = out@;
        if str_eq(key_exec(&items[x], exact).as_str(), k.as_str()) {
            out.push(x);
            assert(idx_view(out@) =~= idx_view(prev).push(x as int));
        }
        i = i + 1;
    }
    assert(xv.take(idx.len() as int) =~= xv);
    out
}

fn contains_str(v: &Vec<String>, s: &String) -> (r: bool)
    ensures
        r == crate::transaction::strings_view(v@).contains(s@),
{
    let ghost sv = crate::transaction::strings_view(v@);
    let mut i: usize = 0;
    while i < v.len()
        invariant
            i <= v.len(),
            sv == crate::transaction::strings_view(v@),
            forall|j: int| 0 <= j < i ==> sv[j] != s@,
        decreases v.len() - i,
    {
        if str_eq(v[i].as_str(), s.as_str()) {
            assert(sv[i as int] == s@);
            return true;
        }
        i = i + 1;
    }
    false
}

fn distinct_exec(items: &Vec<Finger>, exact: bool, idx: &Vec<usize>) -> (r: Vec<String>)
    requires
        in_range(idx_view(idx@), items.len() as int),
    ensures
        crate::transaction::strings_view(r@) == distinct_keys(fingers_view(items@), exact, idx_view(idx@)),
{
    let ghost iv = fingers_view(items@);
    let ghost xv = idx_view(idx@);
    let mut out: Vec<String> = Vec::new();
    let mut i: usize = 0;
    assert(xv.take(0) =~= Seq::<int>::empty());
    while i < idx.len()
        invariant
            i <= idx.len(),
            iv == fingers_view(items@),
            xv == idx_view(idx@),
            in_range(xv, items.len() as int),
            crate::transaction::strings_view(out@) == distinct_keys(iv, exact, xv.take(i as int)),
        decreases idx.len() - i,
    {
        let x = idx[i];
        assert(xv[i as int] == x as int);
        assert(xv.take(i + 1).drop_last() =~= xv.take(i as int));
        assert(xv.take(i + 1).last() == x as int);
        assert(iv[x as int] == items@[x as int]@);
        let k = key_exec(&items[x], exact);
        if !contains_str(&out, k) {
            let ghost prev = out@;
            out.push(k.clone());
            assert(crate::transaction::strings_view(out@) =~= crate::transaction::strings_view(prev).push(k@));
        }
        i = i + 1;
    }
    assert(xv.take(idx.len() as int) =~= xv);
    out
}

fn exact_group_exec(items: &Vec<Finger>, all: &Vec<usize>, k: &String, links: &mut Vec<DedupeLink>, claimed: &mut Vec<String>)
    requires
        idx_view(all@) == Seq::new(items.len() as nat, |i: int| i),
    ensures
        state_of(final(links)@, final(claimed)@) == exact_group(fingers_view(items@), state_of(old(links)@, old(claimed)@), k@),
{
    let ghost iv = fingers_view(items@);
    let ghost ol = links_view(links@);
    let ghost oc = crate::transaction::strings_view(claimed@);
    assert(in_range(idx_view(all@), items.len() as int));
    let m = members_exec(items, true, all, k);
    if m.len() < 2 {
        return;
    }
    proof {
        lemma_sort_ord(iv, idx_view(m@), items.len() as int);
    }
    let ord = sort_ord_exec(items, &m);
    let ghost ov = idx_view(ord@);
    let s0 = ord[0];
    assert(ov[0] == s0 as int);
    let surv = &items[s0];
    assert(iv[s0 as int] == surv@);
    let ghost dups = ov.skip(1);
    let mut j: usize = 1;
    while j < ord.len()
        invariant
            1 <= j <= ord.len(),
            iv == fingers_view(items@),
            ov == idx_view(ord@),
            in_range(ov, items.len() as int),
            dups == ov.skip(1),
            s0 < items.len(),
            iv[s0 as int] == surv@,
            links_view(links@) == ol + dups.take(j - 1).map_values(|i: int| exact_link(iv[i], iv[s0 as int])),
            crate::transaction::strings_view(claimed@) == oc + dups.take(j - 1).map_values(|i: int| iv[i].ids),
        decreases ord.len() - j,
    {
        let d = ord[j];
        assert(ov[j as int] == d as int);
        assert(iv[d as int] == items@[d as int]@);
        let dup = &items[d];
        let mut expl = owned("same date+account+amount+commodity+merchant as ");
        push_str(&mut expl, surv.id_str.as_str());
        let link = DedupeLink {
            duplicate_id: dup.id,
            survivor_id: surv.id,
            strategy: owned("exact"),
            explanation: expl,
            confidence: 100,
        };
        let ghost pl = links@;
        let ghost pc = claimed@;
        links.push(link);
        claimed.push(dup.id_str.clone());
        assert(dups.take(j as int) =~= dups.take(j - 1).push(d as int));
        assert(links_view(links@) =~= links_view(pl).push(link@));
        assert(crate::transaction::strings_view(claimed@) =~= crate::transaction::strings_view(pc).push(dup.id_str@));
        assert(link@ == exact_link(iv[d as int], iv[s0 as int]));
        assert(links_view(links@) =~= ol + dups.take(j as int).map_values(|i: int| exact_link(iv[i], iv[s0 as int])));
        assert(crate::transaction::strings_view(claimed@) =~= oc + dups.take(j as int).map_values(|i: int| iv[i].ids));
        j = j + 1;
    }
    assert(dups.take(ord.len() - 1) =~= dups);
    let ghost pc = claimed@;
    claimed.push(surv.id_str.clone());
    assert(crate::transaction::strings_view(claimed@) =~= crate::transaction::strings_view(pc).push(surv.id_str@));
    assert(crate::transaction::strings_view(claimed@) =~= oc + dups.map_values(|i: int| iv[i].ids).push(iv[s0 as int].ids));
}

fn near_link_exec(a: &Finger, b: &Finger, w: i64) -> (r: DedupeLink)
    ensures
        r@ == near_link(a@, b@, w as int),
{
    let mut expl = owned("same account+amount+merchant; dates ");
    let da = a.date.to_string();
    push_str(&mut expl, da.as_str());
    push_str(&mut expl, " and ");
    let db = b.date.to_string();
    push_str(&mut expl, db.as_str());
    push_str(&mut expl, " within ");
    let ws = int_str_i64(w);
    push_chars(&mut expl, &ws);
    push_str(&mut expl, " day(s)");
    DedupeLink {
        duplicate_id: b.id,
        survivor_id: a.id,
        strategy: owned("near_window"),
        explanation: expl,
        confidence: 85,
    }
}

fn linked_as_dup_exec(links: &Vec<DedupeLink>, id: TransactionId) -> (r: bool)
    ensures
        r == linked_as_dup(links_view(links@), id.0),
{
    let ghost lv = links_view(links@);
    let mut i: usize = 0;
    while i < links.len()
        invariant
            i <= links.len(),
            lv == links_view(links@),
            forall|j: int| 0 <= j < i ==> lv[j].duplicate_id != id.0,
        decreases links.len() - i,
    {
        assert(lv[i as int] == links@[i as int]@);
        if links[i].duplicate_id.0 == id.0 {
            return true;
        }
        i = i + 1;
    }
    false
}

fn near_pairs_exec(items: &Vec<Finger>, ord: &Vec<usize>, w: i64, links: &mut Vec<DedupeLink>, claimed: &mut Vec<String>)
    requires
        in_range(idx_view(ord@), items.len() as int),
    ensures
        state_of(final(links)@, final(claimed)@) == near_pairs(fingers_view(items@), idx_view(ord@), w as int, 0, 1, state_of(old(links)@, old(claimed)@)),
{
    let ghost iv = fingers_view(items@);
    let ghost ov = idx_view(ord@);
    let ghost target = near_pairs(iv, ov, w as int, 0, 1, state_of(links@, claimed@));
    let n = ord.len();
    let mut a: usize = 0;
    while a < n
        invariant
            a <= n,
            n == ord.len(),
            iv == fingers_view(items@),
            ov == idx_view(ord@),
            in_range(ov, items.len() as int),
            near_pairs(iv, ov, w as int, a as int, a + 1, state_of(links@, claimed@)) == target,
        decreases n - a,
    {
        let mut b: usize = a + 1;
        while b < n
            invariant
                a < n,
                a + 1 <= b <= n,
                n == ord.len(),
                iv == fingers_view(items@),
                ov == idx_view(ord@),
                in_range(ov, items.len() as int),
                near_pairs(iv, ov, w as int, a as int, b as int, state_of(links@, claimed@)) == target,
            decreases n - b,
        {
            let ia = ord[a];
            let ib = ord[b];
            assert(ov[a as int] == ia as int);
            assert(ov[b as int] == ib as int);
            let fa = &items[ia];
            let fb = &items[ib];
            assert(iv[ia as int] == fa@);
            assert(iv[ib as int] == fb@);
            let d = fb.date.days_since(fa.date) as i128;
            let ad: i128 = if d < 0 {
                -d
            } else {
                d
            };
            let taken = contains_str(claimed, &fb.id_str);
            let linked = linked_as_dup_exec(links, fa.id);
            if ad > w as i128 || taken || linked {
            } else {
                let link = near_link_exec(fa, fb, w);
                let ghost pl = links@;
                let ghost pc = claimed@;
                links.push(link);
                claimed.push(fb.id_str.clone());
                claimed.push(fa.id_str.clone());
                assert(links_view(links@) =~= links_view(pl).push(link@));
                assert(crate::transaction::strings_view(claimed@) =~= crate::transaction::strings_view(pc).push(fb.id_str@).push(fa.id_str@));
            }
            b = b + 1;
        }
        a = a + 1;
    }
    links.len();
}

fn unclaimed_exec(items: &Vec<Finger>, claimed: &Vec<String>) -> (r: Vec<usize>)
    ensures
        idx_view(r@) == unclaimed(fingers_view(items@), crate::transaction::strings_view(claimed@), items.len() as nat),
{
    let ghost iv = fingers_view(items@);
    let ghost cv = crate::transaction::strings_view(claimed@);
    let mut out: Vec<usize> = Vec::new();
    let mut i: usize = 0;
    while i < items.len()
        invariant
            i <= items.len(),
            iv == fingers_view(items@),
            cv == crate::transaction::strings_view(claimed@),
            idx_view(out@) == unclaimed(iv, cv, i as nat),
        decreases items.len() - i,
    {
        assert(iv[i as int] == items@[i as int]@);
        if !contains_str(claimed, &items[i].id_str) {
            let ghost prev = out@;
            out.push(i);
            assert(idx_view(out@) =~= idx_view(prev).push(i as int));
        }
        i = i + 1;
    }
    out
}

/// Plan duplicate links. Never deletes; later links point at the earliest
/// survivor, never at a transaction that is itself linked as a duplicate.
pub fn plan_dedupe(txs: &Vec<Transaction>, opts: DedupeOptions) -> (r: DedupeReport)
    ensures
        links_view(r.links@) == plan(fingers(crate::snapshot::txs_view(txs@)), opts.window_days as int).links,
        r.skipped_already_linked == count_linked(crate::snapshot::txs_view(txs@)),
        tx_ids_distinct(crate::snapshot::txs_view(txs@)) ==> forall|i: int, j: int|
            #![trigger r.links@[i], r.links@[j]]
            0 <= i < r.links.len() && 0 <= j < r.links.len() ==> r.links@[i].survivor_id != r.links@[j].duplicate_id,
        tx_ids_distinct(crate::snapshot::txs_view(txs@)) ==> forall|i: int, j: int|
            #![trigger r.links@[i], r.links@[j]]
            0 <= i < r.links.len() && 0 <= j < r.links.len() && i != j ==> r.links@[i].duplicate_id != r.links@[j].duplicate_id,
        tx_ids_distinct(crate::snapshot::txs_view(txs@)) ==> links_shaped(
            fingers(crate::snapshot::txs_view(txs@)),
            links_view(r.links@),
        ),
{
    let (items, skipped) = fingers_exec(txs);
    let ghost iv = fingers_view(items@);
    let mut all: Vec<usize> = Vec::new();
    let mut i: usize = 0;
    while i < items.len()
        invariant
            i <= items.len(),
            idx_view(all@) == Seq::new(i as nat, |k: int| k),
        decreases items.len() - i,
    {
        let ghost prev = all@;
        all.push(i);
        assert(idx_view(all@) =~= idx_view(prev).push(i as int));
        assert(idx_view(all@) =~= Seq::new((i + 1) as nat, |k: int| k));
        i = i + 1;
    }
    assert(in_range(idx_view(all@), items.len() as int)) by {
        assert forall|j: int| 0 <= j < idx_view(all@).len() implies 0 <= #[trigger] idx_view(all@)[j] < items.len() by {
            assert(idx_view(all@)[j] == Seq::new(items.len() as nat, |k: int| k)[j]);
        }
    }
    let groups = distinct_exec(&items, true, &all);
    let ghost gv = crate::transaction::strings_view(groups@);
    let mut links: Vec<DedupeLink> = Vec::new();
    let mut claimed: Vec<String> = Vec::new();
    assert(links_view(links@) =~= Seq::<LinkView>::empty());
    assert(crate::transaction::strings_view(claimed@) =~= Seq::<Seq<char>>::empty());
    let mut g: usize = 0;
    assert(gv.take(0) =~= Seq::<Seq<char>>::empty());
    while g < groups.len()
        invariant
            g <= groups.len(),
            iv == fingers_view(items@),
            gv == crate::transaction::strings_view(groups@),
            idx_view(all@) == Seq::new(items.len() as nat, |k: int| k),
            state_of(links@, claimed@) == exact_fold(iv, gv.take(g as int)),
        decreases groups.len() - g,
    {
        assert(gv.take(g + 1).drop_last() =~= gv.take(g as int));
        assert(gv.take(g + 1).last() == groups@[g as int]@);
        exact_group_exec(&items, &all, &groups[g], &mut links, &mut claimed);
        g = g + 1;
    }
    assert(gv.take(groups.len() as int) =~= gv);
    if opts.window_days >= 0 {
        let ghost st1 = state_of(links@, claimed@);
        let u = unclaimed_exec(&items, &claimed);
        proof {
            lemma_unclaimed_range(iv, st1.claimed, items.len() as nat);
        }
        let keys = distinct_exec(&items, false, &u);
        let sorted = crate::convert::sorted_strings(&keys);
        let ghost sv = crate::transaction::strings_view(sorted@);
        let mut k: usize = 0;
        assert(sv.take(0) =~= Seq::<Seq<char>>::empty());
        while k < sorted.len()
            invariant
                k <= sorted.len(),
                iv == fingers_view(items@),
                sv == crate::transaction::strings_view(sorted@),
                in_range(idx_view(u@), items.len() as int),
                state_of(links@, claimed@) == near_fold(iv, opts.window_days as int, idx_view(u@), sv.take(k as int), st1),
            decreases sorted.len() - k,
        {
            assert(sv.take(k + 1).drop_last() =~= sv.take(k as int));
            assert(sv.take(k + 1).last() == sorted@[k as int]@);
            let m = members_exec(&items, false, &u, &sorted[k]);
            if m.len() >= 2 {
                proof {
                    lemma_sort_ord(iv, idx_view(m@), items.len() as int);
                }
                let ord = sort_ord_exec(&items, &m);
                near_pairs_exec(&items, &ord, opts.window_days, &mut links, &mut claimed);
            }
            k = k + 1;
        }
        assert(sv.take(sorted.len() as int) =~= sv);
    }
    proof {
        let tv = crate::snapshot::txs_view(txs@);
        if tx_ids_distinct(tv) {
            law_links_never_point_at_duplicates(tv, opts.window_days as int);
            law_link_shape(tv, opts.window_days as int);
            let lv = links_view(links@);
            assert forall|i: int, j: int|
                #![trigger links@[i], links@[j]]
                0 <= i < links.len() && 0 <= j < links.len() && i != j implies links@[i].duplicate_id != links@[j].duplicate_id by {
                assert(lv[i] == links@[i]@ && lv[j] == links@[j]@);
                assert(lv[i].duplicate_id != lv[j].duplicate_id);
            }
            assert forall|i: int, j: int|
                #![trigger links@[i], links@[j]]
                0 <= i < links.len() && 0 <= j < links.len() implies links@[i].survivor_id != links@[j].duplicate_id by {
                assert(lv[i] == links@[i]@ && lv[j] == links@[j]@);
                assert(lv[i].survivor_id != lv[j].duplicate_id);
            }
        }
    }
    DedupeReport { links, skipped_already_linked: skipped }
}

pub open spec fn is_item_id(items: Seq<FingerView>, id: u128) -> bool {
    exists|i: int| 0 <= i < items.len() && (#[trigger] items[i]).id == id
}

pub open spec fn links_from(links: Seq<LinkView>, items: Seq<FingerView>) -> bool {
    forall|k: int| 0 <= k < links.len() ==> is_item_id(items, (#[trigger] links[k]).duplicate_id)
        && is_item_id(items, links[k].survivor_id)
}

proof fn lemma_exact_group_from(items: Seq<FingerView>, st: PlanState, key: Seq<char>)
    requires
        links_from(st.links, items),
    ensures
        links_from(exact_group(items, st, key).links, items),
{
    let all = Seq::new(items.len(), |i: int| i);
    assert(in_range(all, items.len() as int));
    let m = members(items, true, all, key);
    lemma_members_range(items, true, all, key, items.len() as int);
    if m.len() >= 2 {
        lemma_sort_ord(items, m, items.len() as int);
        let ord = sort_ord(items, m);
        let s0 = items[ord[0]];
        let dups = ord.skip(1);
        let add = dups.map_values(|i: int| exact_link(items[i], s0));
        let r = exact_group(items, st, key).links;
        assert(r == st.links + add);
        assert(is_item_id(items, s0.id)) by {
            assert(items[ord[0]].id == s0.id);
        }
        assert forall|k: int| 0 <= k < r.len() implies is_item_id(items, (#[trigger] r[k]).duplicate_id)
            && is_item_id(items, r[k].survivor_id) by {
            if k < st.links.len() {
                assert(r[k] == st.links[k]);
            } else {
                let q = k - st.links.len();
                assert(r[k] == add[q]);
                assert(dups[q] == ord[q + 1]);
                assert(0 <= ord[q + 1] < items.len());
                assert(items[ord[q + 1]].id == r[k].duplicate_id);
            }
        }
    }
}

proof fn lemma_exact_fold_from(items: Seq<FingerView>, groups: Seq<Seq<char>>)
    ensures
        links_from(exact_fold(items, groups).links, items),
    decreases groups.len(),
{
    if groups.len() > 0 {
        lemma_exact_fold_from(items, groups.drop_last());
        lemma_exact_group_from(items, exact_fold(items, groups.drop_last()), groups.last());
    }
}

proof fn lemma_near_pairs_from(items: Seq<FingerView>, ord: Seq<int>, w: int, a: int, b: int, st: PlanState)
    requires
        in_range(ord, items.len() as int),
        links_from(st.links, items),
    ensures
        links_from(near_pairs(items, ord, w, a, b, st).links, items),
    decreases ord.len() - a, ord.len() - b,
{
    if a < 0 || a >= ord.len() {
    } else if b >= ord.len() {
        lemma_near_pairs_from(items, ord, w, a + 1, a + 2, st);
    } else if b < 0 {
    } else {
        let fa = items[ord[a]];
        let fb = items[ord[b]];
        if abs_days(fa.date, fb.date) > w || st.claimed.contains(fb.ids) || linked_as_dup(st.links, fa.id) {
            lemma_near_pairs_from(items, ord, w, a, b + 1, st);
        } else {
            let l = near_link(fa, fb, w);
            let st2 = PlanState { links: st.links.push(l), claimed: st.claimed.push(fb.ids).push(fa.ids) };
            assert(is_item_id(items, fa.id)) by {
                assert(items[ord[a]].id == fa.id);
            }
            assert(is_item_id(items, fb.id)) by {
                assert(items[ord[b]].id == fb.id);
            }
            assert forall|k: int| 0 <= k < st2.links.len() implies is_item_id(items, (#[trigger] st2.links[k]).duplicate_id)
                && is_item_id(items, st2.links[k].survivor_id) by {
                if k < st.links.len() {
                    assert(st2.links[k] == st.links[k]);
                }
            }
            lemma_near_pairs_from(items, ord, w, a, b + 1, st2);
        }
    }
}

proof fn lemma_near_fold_from(items: Seq<FingerView>, w: int, u: Seq<int>, groups: Seq<Seq<char>>, init: PlanState)
    requires
        in_range(u, items.len() as int),
        links_from(init.links, items),
    ensures
        links_from(near_fold(items, w, u, groups, init).links, items),
    decreases groups.len(),
{
    if groups.len() > 0 {
        lemma_near_fold_from(items, w, u, groups.drop_last(), init);
        let st = near_fold(items, w, u, groups.drop_last(), init);
        let m = members(items, false, u, groups.last());
        lemma_members_range(items, false, u, groups.last(), items.len() as int);
        if m.len() >= 2 {
            lemma_sort_ord(items, m, items.len() as int);
            lemma_near_pairs_from(items, sort_ord(items, m), w, 0, 1, st);
        }
    }
}

pub open spec fn live_id(txs: Seq<TxView>, id: u128) -> bool {
    exists|k: int| 0 <= k < txs.len() && (#[trigger] txs[k]).duplicate_of is None && txs[k].id.0 == id
}

proof fn lemma_fingers_live(txs: Seq<TxView>)
    ensures
        forall|i: int| 0 <= i < fingers(txs).len() ==> live_id(txs, (#[trigger] fingers(txs)[i]).id),
    decreases txs.len(),
{
    if txs.len() > 0 {
        let p = txs.drop_last();
        lemma_fingers_live(p);
        assert forall|i: int| 0 <= i < fingers(txs).len() implies live_id(txs, (#[trigger] fingers(txs)[i]).id) by {
            if i < fingers(p).len() {
                assert(fingers(txs)[i] == fingers(p)[i]);
                assert(live_id(p, fingers(p)[i].id));
                let k = choose|k: int| 0 <= k < p.len() && (#[trigger] p[k]).duplicate_of is None && p[k].id.0 == fingers(p)[i].id;
                assert(txs[k] == p[k]);
            } else {
                let last = txs.last();
                assert(finger_of(last) is Some);
                assert(fingers(txs) == fingers(p).push(finger_of(last)->0));
                assert(fingers(txs)[i] == finger_of(last)->0);
                assert(txs[txs.len() - 1] == last);
            }
        }
    }
}

/// Planning links only transactions that are live (not already linked as a
/// duplicate): both ends of every link are such transactions.
pub proof fn law_links_connect_live_transactions(txs: Seq<TxView>, w: int)
    ensures
        forall|k: int| 0 <= k < plan(fingers(txs), w).links.len() ==> live_id(txs, (#[trigger] plan(fingers(txs), w).links[k]).duplicate_id)
            && live_id(txs, plan(fingers(txs), w).links[k].survivor_id),
{
    let items = fingers(txs);
    let groups = distinct_keys(items, true, Seq::new(items.len(), |i: int| i));
    lemma_exact_fold_from(items, groups);
    let st = exact_fold(items, groups);
    if w >= 0 {
        let u = unclaimed(items, st.claimed, items.len());
        lemma_unclaimed_range(items, st.claimed, items.len());
        lemma_near_fold_from(items, w, u, sort_strs(distinct_keys(items, false, u)), st);
    }
    lemma_fingers_live(txs);
    let links = plan(items, w).links;
    assert forall|k: int| 0 <= k < links.len() implies live_id(txs, (#[trigger] links[k]).duplicate_id)
        && live_id(txs, links[k].survivor_id) by {
        assert(is_item_id(items, links[k].duplicate_id));
        assert(is_item_id(items, links[k].survivor_id));
        let i = choose|i: int| 0 <= i < items.len() && (#[trigger] items[i]).id == links[k].duplicate_id;
        let j = choose|j: int| 0 <= j < items.len() && (#[trigger] items[j]).id == links[k].survivor_id;
        assert(items[i] == fingers(txs)[i]);
        assert(items[j] == fingers(txs)[j]);
    }
}

/// No two transactions share an id.
pub open spec fn tx_ids_distinct(txs: Seq<TxView>) -> bool {
    forall|i: int, j: int|
        #![trigger txs[i], txs[j]]
        0 <= i < txs.len() && 0 <= j < txs.len() && i != j ==> txs[i].id != txs[j].id
}

pub open spec fn item_ids_distinct(items: Seq<FingerView>) -> bool {
    forall|p: int, q: int|
        #![trigger items[p], items[q]]
        0 <= p < items.len() && 0 <= q < items.len() && items[p].id == items[q].id ==> p == q
}

pub open spec fn item_texts(items: Seq<FingerView>) -> bool {
    forall|p: int| 0 <= p < items.len() ==> (#[trigger] items[p]).ids == uuid_str(items[p].id)
}

/// No link's survivor is any link's duplicate.
pub open spec fn survivors_apart(links: Seq<LinkView>) -> bool {
    forall|i: int, j: int|
        #![trigger links[i], links[j]]
        0 <= i < links.len() && 0 <= j < links.len() ==> links[i].survivor_id != links[j].duplicate_id
}

/// Both ends of every link are claimed, by their id text.
pub open spec fn ends_claimed(st: PlanState) -> bool {
    forall|i: int|
        0 <= i < st.links.len() ==> st.claimed.contains(uuid_str((#[trigger] st.links[i]).duplicate_id))
            && st.claimed.contains(uuid_str(st.links[i].survivor_id))
}

pub open spec fn in_groups(items: Seq<FingerView>, id: u128, groups: Seq<Seq<char>>) -> bool {
    exists|p: int| 0 <= p < items.len() && (#[trigger] items[p]).id == id && groups.contains(items[p].exact)
}

/// A link's two ends are items that share the key its strategy compares by,
/// the survivor does not order after the duplicate, and the strategy comes
/// with its confidence (exact: 100, near window: 85).
pub open spec fn link_shape(items: Seq<FingerView>, l: LinkView) -> bool {
    exists|p: int, q: int|
        #![trigger items[p], items[q]]
        0 <= p < items.len() && 0 <= q < items.len() && items[p].id == l.duplicate_id && items[q].id == l.survivor_id
            && !finger_lt(items[p], items[q]) && ((l.strategy == "exact"@ && l.confidence == 100
            && items[p].exact == items[q].exact) || (l.strategy == "near_window"@ && l.confidence == 85
            && items[p].near == items[q].near))
}

pub open spec fn links_shaped(items: Seq<FingerView>, links: Seq<LinkView>) -> bool {
    forall|k: int| 0 <= k < links.len() ==> link_shape(items, #[trigger] links[k])
}

/// No transaction is marked as a duplicate twice.
pub open spec fn dups_distinct(links: Seq<LinkView>) -> bool {
    forall|i: int, j: int|
        #![trigger links[i], links[j]]
        0 <= i < links.len() && 0 <= j < links.len() && i != j ==> links[i].duplicate_id != links[j].duplicate_id
}

pub open spec fn exact_inv(items: Seq<FingerView>, groups: Seq<Seq<char>>, st: PlanState) -> bool {
    &&& survivors_apart(st.links)
    &&& links_shaped(items, st.links)
    &&& dups_distinct(st.links)
    &&& ends_claimed(st)
    &&& forall|i: int|
        0 <= i < st.links.len() ==> in_groups(items, (#[trigger] st.links[i]).duplicate_id, groups)
            && in_groups(items, st.links[i].survivor_id, groups)
}

proof fn lemma_fingers_distinct(txs: Seq<TxView>)
    requires
        tx_ids_distinct(txs),
    ensures
        item_ids_distinct(fingers(txs)),
        item_texts(fingers(txs)),
    decreases txs.len(),
{
    if txs.len() > 0 {
        let p = txs.drop_last();
        assert(tx_ids_distinct(p)) by {
            assert forall|i: int, j: int| 0 <= i < p.len() && 0 <= j < p.len() && i != j implies #[trigger] p[i].id != #[trigger] p[j].id by {
                assert(p[i] == txs[i] && p[j] == txs[j]);
            }
        }
        lemma_fingers_distinct(p);
        lemma_fingers_live(p);
        let fp = fingers(p);
        match finger_of(txs.last()) {
            Some(f) => {
                let fs = fingers(txs);
                assert(fs == fp.push(f));
                assert forall|x: int| 0 <= x < fp.len() implies (#[trigger] fp[x]).id != f.id by {
                    assert(live_id(p, fp[x].id));
                    let k = choose|k: int| 0 <= k < p.len() && (#[trigger] p[k]).duplicate_of is None && p[k].id.0 == fp[x].id;
                    assert(p[k] == txs[k]);
                    assert(txs[txs.len() - 1] == txs.last());
                    assert(txs[k].id != txs[txs.len() - 1].id);
                }
                assert forall|a: int, b: int| 0 <= a < fs.len() && 0 <= b < fs.len() && (#[trigger] fs[a]).id == (#[trigger] fs[b]).id implies a == b by {
                    if a < fp.len() && b < fp.len() {
                        assert(fs[a] == fp[a] && fs[b] == fp[b]);
                    } else if a < fp.len() {
                        assert(fs[a] == fp[a] && fs[b] == f);
                    } else if b < fp.len() {
                        assert(fs[b] == fp[b] && fs[a] == f);
                    }
                }
                assert forall|a: int| 0 <= a < fs.len() implies (#[trigger] fs[a]).ids == uuid_str(fs[a].id) by {
                    if a < fp.len() {
                        assert(fs[a] == fp[a]);
                    }
                }
            },
            None => {},
        }
    }
}

proof fn lemma_members_facts(items: Seq<FingerView>, exact: bool, idx: Seq<int>, k: Seq<char>)
    requires
        idx.no_duplicates(),
    ensures
        members(items, exact, idx, k).no_duplicates(),
        forall|j: int|
            0 <= j < members(items, exact, idx, k).len() ==> key_of(items[#[trigger] members(items, exact, idx, k)[j]], exact) == k
                && idx.contains(members(items, exact, idx, k)[j]),
    decreases idx.len(),
{
    if idx.len() > 0 {
        let d = idx.drop_last();
        assert(d.no_duplicates()) by {
            assert forall|a: int, b: int| 0 <= a < d.len() && 0 <= b < d.len() && a != b implies d[a] != d[b] by {
                assert(d[a] == idx[a] && d[b] == idx[b]);
            }
        }
        lemma_members_facts(items, exact, d, k);
        let m = members(items, exact, d, k);
        let x = idx.last();
        assert forall|j: int| 0 <= j < m.len() implies idx.contains(#[trigger] m[j]) by {
            assert(d.contains(m[j]));
            let t = choose|t: int| 0 <= t < d.len() && d[t] == m[j];
            assert(idx[t] == m[j]);
        }
        if key_of(items[x], exact) == k {
            let m2 = m.push(x);
            assert forall|j: int| 0 <= j < m.len() implies (#[trigger] m[j]) != x by {
                assert(d.contains(m[j]));
                let t = choose|t: int| 0 <= t < d.len() && d[t] == m[j];
                assert(idx[t] == m[j]);
                assert(idx[idx.len() - 1] == x);
            }
            assert forall|a: int, b: int| 0 <= a < m2.len() && 0 <= b < m2.len() && a != b implies m2[a] != m2[b] by {
                if a < m.len() && b < m.len() {
                    assert(m2[a] == m[a] && m2[b] == m[b]);
                } else if a < m.len() {
                    assert(m2[a] == m[a] && m2[b] == x);
                } else {
                    assert(m2[b] == m[b] && m2[a] == x);
                }
            }
            assert forall|j: int| 0 <= j < m2.len() implies key_of(items[#[trigger] m2[j]], exact) == k && idx.contains(m2[j]) by {
                if j < m.len() {
                    assert(m2[j] == m[j]);
                } else {
                    assert(idx[idx.len() - 1] == x);
                }
            }
        }
    }
}

proof fn lemma_sort_ord_facts(items: Seq<FingerView>, s: Seq<int>)
    requires
        s.no_duplicates(),
    ensures
        sort_ord(items, s).len() == s.len(),
        sort_ord(items, s).no_duplicates(),
        forall|j: int| 0 <= j < sort_ord(items, s).len() ==> s.contains(#[trigger] sort_ord(items, s)[j]),
    decreases s.len(),
{
    if s.len() > 0 {
        let d = s.drop_last();
        assert(d.no_duplicates()) by {
            assert forall|a: int, b: int| 0 <= a < d.len() && 0 <= b < d.len() && a != b implies d[a] != d[b] by {
                assert(d[a] == s[a] && d[b] == s[b]);
            }
        }
        lemma_sort_ord_facts(items, d);
        let p = sort_ord(items, d);
        let x = s.last();
        let k = ord_pos(items, p, x);
        lemma_ord_pos_bound(items, p, x);
        let q = p.insert(k, x);
        assert(q == sort_ord(items, s));
        assert forall|j: int| 0 <= j < p.len() implies (#[trigger] p[j]) != x && s.contains(p[j]) by {
            assert(d.contains(p[j]));
            let t = choose|t: int| 0 <= t < d.len() && d[t] == p[j];
            assert(s[t] == p[j]);
            assert(s[s.len() - 1] == x);
        }
        assert forall|j: int| 0 <= j < q.len() implies s.contains(#[trigger] q[j]) by {
            if j < k {
                assert(q[j] == p[j]);
            } else if j > k {
                assert(q[j] == p[j - 1]);
            } else {
                assert(s[s.len() - 1] == x);
            }
        }
        assert forall|a: int, b: int| 0 <= a < q.len() && 0 <= b < q.len() && a != b implies q[a] != q[b] by {
            let pa = if a < k { a } else { a - 1 };
            let pb = if b < k { b } else { b - 1 };
            if a != k && b != k {
                assert(q[a] == p[pa] && q[b] == p[pb]);
            } else if a == k {
                assert(q[b] == p[pb]);
            } else {
                assert(q[a] == p[pa]);
            }
        }
    }
}

proof fn lemma_distinct_keys_nodup(items: Seq<FingerView>, exact: bool, idx: Seq<int>)
    ensures
        distinct_keys(items, exact, idx).no_duplicates(),
    decreases idx.len(),
{
    if idx.len() > 0 {
        lemma_distinct_keys_nodup(items, exact, idx.drop_last());
        let d = distinct_keys(items, exact, idx.drop_last());
        let k = key_of(items[idx.last()], exact);
        if !d.contains(k) {
            let e = d.push(k);
            assert forall|a: int, b: int| 0 <= a < e.len() && 0 <= b < e.len() && a != b implies e[a] != e[b] by {
                if a < d.len() && b < d.len() {
                    assert(e[a] == d[a] && e[b] == d[b]);
                } else if a < d.len() {
                    assert(e[a] == d[a]);
                } else {
                    assert(e[b] == d[b]);
                }
            }
        }
    }
}

proof fn lemma_unclaimed_nodup(items: Seq<FingerView>, claimed: Seq<Seq<char>>, n: nat)
    ensures
        unclaimed(items, claimed, n).no_duplicates(),
        forall|j: int| 0 <= j < unclaimed(items, claimed, n).len() ==> #[trigger] unclaimed(items, claimed, n)[j] < n,
    decreases n,
{
    if n > 0 {
        lemma_unclaimed_nodup(items, claimed, (n - 1) as nat);
        let u = unclaimed(items, claimed, (n - 1) as nat);
        if !claimed.contains(items[n - 1].ids) {
            let e = u.push(n - 1);
            assert forall|a: int, b: int| 0 <= a < e.len() && 0 <= b < e.len() && a != b implies e[a] != e[b] by {
                if a < u.len() && b < u.len() {
                    assert(e[a] == u[a] && e[b] == u[b]);
                } else if a < u.len() {
                    assert(e[a] == u[a]);
                } else {
                    assert(e[b] == u[b]);
                }
            }
            assert forall|j: int| 0 <= j < e.len() implies #[trigger] e[j] < n by {
                if j < u.len() {
                    assert(e[j] == u[j]);
                }
            }
        }
    }
}

proof fn lemma_in_groups_grow(items: Seq<FingerView>, id: u128, g: Seq<Seq<char>>, k: Seq<char>)
    requires
        in_groups(items, id, g),
    ensures
        in_groups(items, id, g.push(k)),
{
    let p = choose|p: int| 0 <= p < items.len() && (#[trigger] items[p]).id == id && g.contains(items[p].exact);
    let t = choose|t: int| 0 <= t < g.len() && g[t] == items[p].exact;
    assert(g.push(k)[t] == items[p].exact);
}

proof fn lemma_exact_fold_apart(items: Seq<FingerView>, groups: Seq<Seq<char>>)
    requires
        item_ids_distinct(items),
        item_texts(items),
        groups.no_duplicates(),
    ensures
        exact_inv(items, groups, exact_fold(items, groups)),
    decreases groups.len(),
{
    if groups.len() > 0 {
        let g0 = groups.drop_last();
        let key = groups.last();
        assert(g0.no_duplicates()) by {
            assert forall|a: int, b: int| 0 <= a < g0.len() && 0 <= b < g0.len() && a != b implies g0[a] != g0[b] by {
                assert(g0[a] == groups[a] && g0[b] == groups[b]);
            }
        }
        assert(groups == g0.push(key));
        assert(!g0.contains(key)) by {
            if g0.contains(key) {
                let t = choose|t: int| 0 <= t < g0.len() && g0[t] == key;
                assert(groups[t] == groups[groups.len() - 1]);
            }
        }
        lemma_exact_fold_apart(items, g0);
        let st = exact_fold(items, g0);
        let all = Seq::new(items.len(), |i: int| i);
        assert(all.no_duplicates());
        lemma_members_facts(items, true, all, key);
        lemma_members_range(items, true, all, key, items.len() as int);
        let m = members(items, true, all, key);
        let r = exact_group(items, st, key);
        assert forall|i: int| 0 <= i < st.links.len() implies in_groups(items, (#[trigger] st.links[i]).duplicate_id, groups)
            && in_groups(items, st.links[i].survivor_id, groups) by {
            lemma_in_groups_grow(items, st.links[i].duplicate_id, g0, key);
            lemma_in_groups_grow(items, st.links[i].survivor_id, g0, key);
        }
        if m.len() >= 2 {
            lemma_sort_ord_facts(items, m);
            lemma_sort_ord(items, m, items.len() as int);
            let ord = sort_ord(items, m);
            let s0 = items[ord[0]];
            let dups = ord.skip(1);
            let add = dups.map_values(|i: int| exact_link(items[i], s0));
            let extra = dups.map_values(|i: int| items[i].ids);
            assert(r.links == st.links + add);
            assert(r.claimed == st.claimed + extra.push(s0.ids));
            assert(ord.len() == m.len());
            // every member of the group has the group's key
            assert forall|j: int| 0 <= j < ord.len() implies (#[trigger] items[ord[j]]).exact == key && 0 <= ord[j] < items.len() by {
                assert(m.contains(ord[j]));
                let t = choose|t: int| 0 <= t < m.len() && m[t] == ord[j];
                assert(key_of(items[m[t]], true) == key);
            }
            // the links of earlier groups name items outside this group
            assert forall|i: int, j: int| 0 <= i < st.links.len() && 0 <= j < ord.len() implies
                (#[trigger] st.links[i]).duplicate_id != (#[trigger] items[ord[j]]).id
                && st.links[i].survivor_id != items[ord[j]].id by {
                let p = choose|p: int| 0 <= p < items.len() && (#[trigger] items[p]).id == st.links[i].duplicate_id && g0.contains(items[p].exact);
                let q = choose|q: int| 0 <= q < items.len() && (#[trigger] items[q]).id == st.links[i].survivor_id && g0.contains(items[q].exact);
                if st.links[i].duplicate_id == items[ord[j]].id {
                    assert(items[p].id == items[ord[j]].id);
                    assert(p == ord[j]);
                }
                if st.links[i].survivor_id == items[ord[j]].id {
                    assert(items[q].id == items[ord[j]].id);
                    assert(q == ord[j]);
                }
            }
            let n0 = st.links.len();
            assert forall|i: int| 0 <= i < r.links.len() implies
                (n0 <= i ==> (#[trigger] r.links[i]).duplicate_id == items[ord[i - n0 + 1]].id && r.links[i].survivor_id == items[ord[0]].id)
                && (i < n0 ==> r.links[i] == st.links[i]) by {
                if i >= n0 {
                    assert(r.links[i] == add[i - n0]);
                    assert(dups[i - n0] == ord[i - n0 + 1]);
                }
            }
            assert forall|i: int, j: int| 0 <= i < r.links.len() && 0 <= j < r.links.len() implies
                #[trigger] r.links[i].survivor_id != #[trigger] r.links[j].duplicate_id by {
                if i >= n0 && j >= n0 {
                    let x = ord[0];
                    let y = ord[j - n0 + 1];
                    if items[x].id == items[y].id {
                        assert(x == y);
                    }
                } else if i >= n0 {
                    assert(r.links[j] == st.links[j]);
                    assert(st.links[j].duplicate_id != items[ord[0]].id);
                } else if j >= n0 {
                    assert(r.links[i] == st.links[i]);
                    assert(st.links[i].survivor_id != items[ord[j - n0 + 1]].id);
                } else {
                    assert(r.links[i] == st.links[i] && r.links[j] == st.links[j]);
                }
            }
            lemma_sort_ord_sorted(items, m);
            assert forall|k: int| 0 <= k < r.links.len() implies link_shape(items, #[trigger] r.links[k]) by {
                if k < n0 {
                    assert(r.links[k] == st.links[k]);
                } else {
                    let jj = k - n0 + 1;
                    assert(r.links[k] == add[k - n0]);
                    assert(dups[k - n0] == ord[jj]);
                    assert(r.links[k] == exact_link(items[ord[jj]], s0));
                    assert(items[ord[jj]].exact == key && items[ord[0]].exact == key);
                    assert(!finger_lt(items[ord[jj]], items[ord[0]]));
                    assert(0 <= ord[jj] < items.len() && 0 <= ord[0] < items.len());
                }
            }
            assert forall|i: int, j: int| 0 <= i < r.links.len() && 0 <= j < r.links.len() && i != j implies
                #[trigger] r.links[i].duplicate_id != #[trigger] r.links[j].duplicate_id by {
                if i >= n0 && j >= n0 {
                    let x = ord[i - n0 + 1];
                    let y = ord[j - n0 + 1];
                    if items[x].id == items[y].id {
                        assert(x == y);
                    }
                } else if i >= n0 {
                    assert(r.links[j] == st.links[j]);
                    assert(st.links[j].duplicate_id != items[ord[i - n0 + 1]].id);
                } else if j >= n0 {
                    assert(r.links[i] == st.links[i]);
                    assert(st.links[i].duplicate_id != items[ord[j - n0 + 1]].id);
                } else {
                    assert(r.links[i] == st.links[i] && r.links[j] == st.links[j]);
                }
            }
            assert forall|i: int| 0 <= i < r.links.len() implies r.claimed.contains(uuid_str((#[trigger] r.links[i]).duplicate_id))
                && r.claimed.contains(uuid_str(r.links[i].survivor_id)) && in_groups(items, r.links[i].duplicate_id, groups)
                && in_groups(items, r.links[i].survivor_id, groups) by {
                if i < n0 {
                    assert(r.links[i] == st.links[i]);
                    let a = choose|a: int| 0 <= a < st.claimed.len() && st.claimed[a] == uuid_str(st.links[i].duplicate_id);
                    let b = choose|b: int| 0 <= b < st.claimed.len() && st.claimed[b] == uuid_str(st.links[i].survivor_id);
                    assert(r.claimed[a] == st.claimed[a]);
                    assert(r.claimed[b] == st.claimed[b]);
                } else {
                    let jj = i - n0 + 1;
                    let y = ord[jj];
                    assert(extra[jj - 1] == items[y].ids);
                    assert(r.claimed[st.claimed.len() + jj - 1] == items[y].ids);
                    assert(r.claimed[(st.claimed.len() + extra.len()) as int] == s0.ids);
                    assert(groups[groups.len() - 1] == key);
                    assert(items[y].exact == key);
                    assert(items[ord[0]].exact == key);
                }
            }
        } else {
            assert(r == st);
        }
    }
}

proof fn lemma_near_pairs_apart(items: Seq<FingerView>, ord: Seq<int>, w: int, a: int, b: int, st: PlanState)
    requires
        in_range(ord, items.len() as int),
        ord.no_duplicates(),
        item_ids_distinct(items),
        item_texts(items),
        survivors_apart(st.links),
        ends_claimed(st),
        a < b,
        ord_sorted(items, ord),
        forall|i: int, j: int| #![trigger ord[i], ord[j]] 0 <= i < ord.len() && 0 <= j < ord.len() ==> items[ord[i]].near == items[ord[j]].near,
        links_shaped(items, st.links),
        dups_distinct(st.links),
    ensures
        survivors_apart(near_pairs(items, ord, w, a, b, st).links),
        ends_claimed(near_pairs(items, ord, w, a, b, st)),
        links_shaped(items, near_pairs(items, ord, w, a, b, st).links),
        dups_distinct(near_pairs(items, ord, w, a, b, st).links),
    decreases ord.len() - a, ord.len() - b,
{
    if a < 0 || a >= ord.len() {
    } else if b >= ord.len() {
        lemma_near_pairs_apart(items, ord, w, a + 1, a + 2, st);
    } else if b < 0 {
    } else {
        let fa = items[ord[a]];
        let fb = items[ord[b]];
        if abs_days(fa.date, fb.date) > w || st.claimed.contains(fb.ids) || linked_as_dup(st.links, fa.id) {
            lemma_near_pairs_apart(items, ord, w, a, b + 1, st);
        } else {
            let l = near_link(fa, fb, w);
            let st2 = PlanState { links: st.links.push(l), claimed: st.claimed.push(fb.ids).push(fa.ids) };
            let n0 = st.links.len();
            assert(fa.ids == uuid_str(fa.id) && fb.ids == uuid_str(fb.id));
            assert(fa.id != fb.id) by {
                if fa.id == fb.id {
                    assert(ord[a] == ord[b]);
                }
            }
            assert forall|i: int| 0 <= i < n0 implies (#[trigger] st.links[i]).survivor_id != fb.id
                && st.links[i].duplicate_id != fa.id by {
                if st.links[i].survivor_id == fb.id {
                    assert(st.claimed.contains(uuid_str(st.links[i].survivor_id)));
                }
            }
            assert forall|i: int, j: int| 0 <= i < st2.links.len() && 0 <= j < st2.links.len() implies
                #[trigger] st2.links[i].survivor_id != #[trigger] st2.links[j].duplicate_id by {
                if i < n0 {
                    assert(st2.links[i] == st.links[i]);
                }
                if j < n0 {
                    assert(st2.links[j] == st.links[j]);
                }
            }
            assert forall|i: int| 0 <= i < st2.links.len() implies st2.claimed.contains(uuid_str((#[trigger] st2.links[i]).duplicate_id))
                && st2.claimed.contains(uuid_str(st2.links[i].survivor_id)) by {
                if i < n0 {
                    assert(st2.links[i] == st.links[i]);
                    let x = choose|x: int| 0 <= x < st.claimed.len() && st.claimed[x] == uuid_str(st.links[i].duplicate_id);
                    let y = choose|y: int| 0 <= y < st.claimed.len() && st.claimed[y] == uuid_str(st.links[i].survivor_id);
                    assert(st2.claimed[x] == st.claimed[x]);
                    assert(st2.claimed[y] == st.claimed[y]);
                } else {
                    assert(st2.claimed[st.claimed.len() as int] == fb.ids);
                    assert(st2.claimed[(st.claimed.len() + 1) as int] == fa.ids);
                }
            }
            assert forall|k: int| 0 <= k < st2.links.len() implies link_shape(items, #[trigger] st2.links[k]) by {
                if k < n0 {
                    assert(st2.links[k] == st.links[k]);
                } else {
                    assert(st2.links[k] == l);
                    assert(!finger_lt(items[ord[b]], items[ord[a]]));
                    assert(items[ord[a]].near == items[ord[b]].near);
                    assert(0 <= ord[a] < items.len() && 0 <= ord[b] < items.len());
                }
            }
            assert forall|i: int, j: int| 0 <= i < st2.links.len() && 0 <= j < st2.links.len() && i != j implies
                #[trigger] st2.links[i].duplicate_id != #[trigger] st2.links[j].duplicate_id by {
                if i < n0 && j < n0 {
                    assert(st2.links[i] == st.links[i] && st2.links[j] == st.links[j]);
                } else if i < n0 {
                    assert(st2.links[i] == st.links[i]);
                    assert(st.claimed.contains(uuid_str(st.links[i].duplicate_id)));
                } else {
                    assert(st2.links[j] == st.links[j]);
                    assert(st.claimed.contains(uuid_str(st.links[j].duplicate_id)));
                }
            }
            lemma_near_pairs_apart(items, ord, w, a, b + 1, st2);
        }
    }
}

proof fn lemma_near_fold_apart(items: Seq<FingerView>, w: int, u: Seq<int>, groups: Seq<Seq<char>>, init: PlanState)
    requires
        in_range(u, items.len() as int),
        u.no_duplicates(),
        item_ids_distinct(items),
        item_texts(items),
        survivors_apart(init.links),
        ends_claimed(init),
        links_shaped(items, init.links),
        dups_distinct(init.links),
    ensures
        survivors_apart(near_fold(items, w, u, groups, init).links),
        ends_claimed(near_fold(items, w, u, groups, init)),
        links_shaped(items, near_fold(items, w, u, groups, init).links),
        dups_distinct(near_fold(items, w, u, groups, init).links),
    decreases groups.len(),
{
    if groups.len() > 0 {
        lemma_near_fold_apart(items, w, u, groups.drop_last(), init);
        let st = near_fold(items, w, u, groups.drop_last(), init);
        let m = members(items, false, u, groups.last());
        lemma_members_range(items, false, u, groups.last(), items.len() as int);
        lemma_members_facts(items, false, u, groups.last());
        if m.len() >= 2 {
            lemma_sort_ord(items, m, items.len() as int);
            lemma_sort_ord_facts(items, m);
            lemma_sort_ord_sorted(items, m);
            let ord = sort_ord(items, m);
            assert forall|i: int, j: int| #![trigger ord[i], ord[j]] 0 <= i < ord.len() && 0 <= j < ord.len() implies items[ord[i]].near == items[ord[j]].near by {
                let ti = choose|t: int| 0 <= t < m.len() && m[t] == ord[i];
                let tj = choose|t: int| 0 <= t < m.len() && m[t] == ord[j];
                assert(key_of(items[m[ti]], false) == groups.last());
                assert(key_of(items[m[tj]], false) == groups.last());
            }
            lemma_near_pairs_apart(items, ord, w, 0, 1, st);
        }
    }
}

/// When transaction ids are distinct, every planned link joins two live
/// transactions that share the key its strategy compares by (`exact`,
/// confidence 100: date, account, amount, commodity and merchant;
/// `near_window`, confidence 85: the same without the date); its survivor
/// never orders after its duplicate (by date, then id), so an exact group's
/// survivor is its earliest member; no transaction is linked to itself; and no
/// transaction is marked as a duplicate twice.
pub proof fn law_link_shape(txs: Seq<TxView>, w: int)
    requires
        tx_ids_distinct(txs),
    ensures
        links_shaped(fingers(txs), plan(fingers(txs), w).links),
        dups_distinct(plan(fingers(txs), w).links),
        forall|k: int|
            0 <= k < plan(fingers(txs), w).links.len() ==> (#[trigger] plan(fingers(txs), w).links[k]).duplicate_id
                != plan(fingers(txs), w).links[k].survivor_id,
{
    let items = fingers(txs);
    lemma_fingers_distinct(txs);
    let all = Seq::new(items.len(), |i: int| i);
    let groups = distinct_keys(items, true, all);
    lemma_distinct_keys_nodup(items, true, all);
    lemma_exact_fold_apart(items, groups);
    let st = exact_fold(items, groups);
    if w >= 0 {
        let u = unclaimed(items, st.claimed, items.len());
        lemma_unclaimed_range(items, st.claimed, items.len());
        lemma_unclaimed_nodup(items, st.claimed, items.len());
        lemma_near_fold_apart(items, w, u, sort_strs(distinct_keys(items, false, u)), st);
    }
    let links = plan(items, w).links;
    assert forall|k: int| 0 <= k < links.len() implies (#[trigger] links[k]).duplicate_id != links[k].survivor_id by {
        assert(links[k].survivor_id != links[k].duplicate_id);
    }
}

/// When transaction ids are distinct, no link points at a transaction that
/// is itself linked as a duplicate: every survivor stays a survivor.
pub proof fn law_links_never_point_at_duplicates(txs: Seq<TxView>, w: int)
    requires
        tx_ids_distinct(txs),
    ensures
        survivors_apart(plan(fingers(txs), w).links),
{
    let items = fingers(txs);
    lemma_fingers_distinct(txs);
    let all = Seq::new(items.len(), |i: int| i);
    let groups = distinct_keys(items, true, all);
    lemma_distinct_keys_nodup(items, true, all);
    lemma_exact_fold_apart(items, groups);
    let st = exact_fold(items, groups);
    if w >= 0 {
        let u = unclaimed(items, st.claimed, items.len());
        lemma_unclaimed_range(items, st.claimed, items.len());
        lemma_unclaimed_nodup(items, st.claimed, items.len());
        lemma_near_fold_apart(items, w, u, sort_strs(distinct_keys(items, false, u)), st);
    }
}

proof fn lemma_str_lt_irrefl(a: Seq<char>)
    ensures
        !str_lt(a, a),
    decreases a.len(),
{
    if a.len() > 0 {
        lemma_str_lt_irrefl(a.drop_first());
    }
}

proof fn lemma_str_lt_trans(a: Seq<char>, b: Seq<char>, c: Seq<char>)
    requires
        str_lt(a, b),
        str_lt(b, c),
    ensures
        str_lt(a, c),
    decreases a.len(),
{
    if a.len() > 0 && b.len() > 0 && c.len() > 0 && a[0] == b[0] && b[0] == c[0] {
        lemma_str_lt_trans(a.drop_first(), b.drop_first(), c.drop_first());
    }
}

proof fn lemma_finger_lt_order(x: FingerView, y: FingerView, z: FingerView)
    ensures
        !finger_lt(x, x),
        finger_lt(x, y) && finger_lt(y, z) ==> finger_lt(x, z),
{
    lemma_str_lt_irrefl(x.ids);
    if finger_lt(x, y) && finger_lt(y, z) && x.date == y.date && y.date == z.date {
        lemma_str_lt_trans(x.ids, y.ids, z.ids);
    }
}

proof fn lemma_ord_pos_facts(items: Seq<FingerView>, s: Seq<int>, x: int)
    ensures
        forall|i: int| 0 <= i < ord_pos(items, s, x) && i < s.len() ==> !finger_lt(items[x], items[#[trigger] s[i]]),
        ord_pos(items, s, x) < s.len() ==> finger_lt(items[x], items[s[ord_pos(items, s, x)]]),
    decreases s.len(),
{
    if s.len() > 0 && !finger_lt(items[x], items[s[0]]) {
        let t = s.drop_first();
        lemma_ord_pos_facts(items, t, x);
        assert forall|i: int| 0 <= i < ord_pos(items, s, x) && i < s.len() implies !finger_lt(items[x], items[#[trigger] s[i]]) by {
            if i > 0 {
                assert(s[i] == t[i - 1]);
            }
        }
        assert(ord_pos(items, s, x) == 1 + ord_pos(items, t, x));
        if ord_pos(items, s, x) < s.len() {
            let m = ord_pos(items, t, x);
            lemma_ord_pos_bound(items, t, x);
            assert(s[1 + m] == t[m]);
        }
    }
}

/// The members come out ordered: no member orders before an earlier one.
pub open spec fn ord_sorted(items: Seq<FingerView>, o: Seq<int>) -> bool {
    forall|i: int, j: int|
        #![trigger o[i], o[j]]
        0 <= i < j < o.len() ==> !finger_lt(items[o[j]], items[o[i]])
}

proof fn lemma_sort_ord_sorted(items: Seq<FingerView>, s: Seq<int>)
    ensures
        ord_sorted(items, sort_ord(items, s)),
    decreases s.len(),
{
    if s.len() > 0 {
        lemma_sort_ord_sorted(items, s.drop_last());
        let p = sort_ord(items, s.drop_last());
        let x = s.last();
        let k = ord_pos(items, p, x);
        lemma_ord_pos_bound(items, p, x);
        lemma_ord_pos_facts(items, p, x);
        let q = p.insert(k, x);
        assert(q == sort_ord(items, s));
        assert forall|i: int, j: int| 0 <= i < j < q.len() implies !finger_lt(items[#[trigger] q[j]], items[#[trigger] q[i]]) by {
            if j < k {
                assert(q[i] == p[i] && q[j] == p[j]);
            } else if i > k {
                assert(q[i] == p[i - 1] && q[j] == p[j - 1]);
            } else if j == k {
                assert(q[i] == p[i] && q[j] == x);
            } else if i == k {
                assert(q[i] == x && q[j] == p[j - 1]);
                lemma_finger_lt_order(items[p[j - 1]], items[x], items[p[k]]);
                lemma_finger_lt_order(items[p[k]], items[x], items[p[k]]);
                if j - 1 > k {
                    assert(!finger_lt(items[p[j - 1]], items[p[k]]));
                }
            } else {
                assert(i < k && k < j);
                assert(q[i] == p[i] && q[j] == p[j - 1]);
            }
        }
    }
}

} // verus!
