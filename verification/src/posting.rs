//! One leg of a double-entry transaction.
use vstd::prelude::*;

use crate::account::AccountId;
use crate::money::{Amount, Commodity, DecimalValue};
use crate::text::{chars_of, string_of};

verus! {

pub struct PostingView {
    pub account: Seq<char>,
    pub amount: DecimalValue,
    pub commodity: Seq<char>,
    pub memo: Option<Seq<char>>,
}

pub open spec fn opt_str(o: Option<String>) -> Option<Seq<char>> {
    match o {
        Some(s) => Some(s@),
        None => None,
    }
}

pub fn dup_opt_string(o: &Option<String>) -> (r: Option<String>)
    ensures
        opt_str(r) == opt_str(*o),
{
    match o {
        Some(s) => Some(s.clone()),
        None => None,
    }
}

pub fn dup_strings(v: &Vec<String>) -> (r: Vec<String>)
    ensures
        r@.map_values(|s: String| s@) == v@.map_values(|s: String| s@),
{
    let mut out: Vec<String> = Vec::new();
    let mut i: usize = 0;
    while i < v.len()
        invariant
            i <= v.len(),
            out@.map_values(|s: String| s@) == v@.take(i as int).map_values(|s: String| s@),
        decreases v.len() - i,
    {
        let ghost prev = out@;
        let c = v[i].clone();
        out.push(c);
        assert(out@.map_values(|s: String| s@) =~= prev.map_values(|s: String| s@).push(v@[i as int]@));
        assert(v@.take(i + 1).map_values(|s: String| s@) =~= v@.take(i as int).map_values(|s: String| s@).push(v@[i as int]@));
        i = i + 1;
    }
    assert(v@.take(v.len() as int) =~= v@);
    out
}

#[derive(Clone, Debug)]
/// One leg of a double-entry transaction.
pub struct Posting {
    pub account: AccountId,
    pub amount: Amount,
    pub commodity: Commodity,
    pub memo: Option<String>,
}

impl View for Posting {
    type V = PostingView;

    open spec fn view(&self) -> PostingView {
        PostingView {
            account: self.account@,
            amount: self.amount@,
            commodity: self.commodity@,
            memo: opt_str(self.memo),
        }
    }
}

impl Posting {
    pub fn new(account: AccountId, amount: Amount, commodity: Commodity) -> (r: Posting)
        ensures
            r@ == (PostingView {
                account: account@,
                amount: amount@,
                commodity: commodity@,
                memo: None,
            }),
    {
        Posting { account, amount, commodity, memo: None }
    }

    pub fn with_memo(self, memo: &str) -> (r: Posting)
        ensures
            r@ == (PostingView { memo: Some(memo@), ..self@ }),
    {
        let mut p = self;
        p.memo = Some(string_of(chars_of(memo).as_slice()));
        p
    }

    pub fn duplicate(&self) -> (r: Posting)
        ensures
            r@ == self@,
    {
        Posting {
            account: self.account.duplicate(),
            amount: self.amount,
            commodity: self.commodity.duplicate(),
            memo: dup_opt_string(&self.memo),
        }
    }
}

pub open spec fn postings_view(v: Seq<Posting>) -> Seq<PostingView> {
    v.map_values(|p: Posting| p@)
}

pub fn dup_postings(v: &Vec<Posting>) -> (r: Vec<Posting>)
    ensures
        postings_view(r@) == postings_view(v@),
{
    let mut out: Vec<Posting> = Vec::new();
    let mut i: usize = 0;
    while i < v.len()
        invariant
            i <= v.len(),
            postings_view(out@) == postings_view(v@.take(i as int)),
        decreases v.len() - i,
    {
        let ghost prev = out@;
        let c = v[i].duplicate();
        out.push(c);
        assert(postings_view(out@) =~= postings_view(prev).push(v@[i as int]@));
        assert(postings_view(v@.take(i + 1)) =~= postings_view(v@.take(i as int)).push(v@[i as int]@));
        i = i + 1;
    }
    assert(v@.take(v.len() as int) =~= v@);
    out
}

} // verus!
