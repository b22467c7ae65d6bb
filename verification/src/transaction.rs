//! Double-entry transactions.
use vstd::prelude::*;

use crate::account::AccountId;
use crate::date::Date;
use crate::error::CoreError;
use crate::ids::{ImportBatchId, MerchantId, TransactionId};
use crate::money::{dec_negated, dec_value, Amount, Commodity, DecimalValue};
use crate::posting::{dup_opt_string, dup_postings, dup_strings, opt_str, postings_view, Posting, PostingView};
use crate::text::{chars_of, string_of};
use crate::verify::{exact_when_fits, balanced_ok, verify_transaction, verify_error_ok, commodity_sum, exact_sum, sum_fits, zero_dec};

verus! {

pub struct TxView {
    pub id: TransactionId,
    pub date: Date,
    pub payee: Seq<char>,
    pub merchant_id: Option<MerchantId>,
    pub narration: Option<Seq<char>>,
    pub postings: Seq<PostingView>,
    pub import_batch_id: Option<ImportBatchId>,
    pub duplicate_of: Option<TransactionId>,
    pub tags: Seq<Seq<char>>,
    pub row_fingerprint: Option<Seq<char>>,
}

pub open spec fn strings_view(v: Seq<String>) -> Seq<Seq<char>> {
    v.map_values(|s: String| s@)
}

#[derive(Clone, Debug)]
pub struct Transaction {
    pub id: TransactionId,
    pub date: Date,
    pub payee: String,
    pub merchant_id: Option<MerchantId>,
    pub narration: Option<String>,
    pub postings: Vec<Posting>,
    pub import_batch_id: Option<ImportBatchId>,
    /// Soft link: never delete duplicates; point at survivor.
    pub duplicate_of: Option<TransactionId>,
    pub tags: Vec<String>,
    /// Import row fingerprint (`v1|…`). Manual entries leave this unset.
    pub row_fingerprint: Option<String>,
}

impl View for Transaction {
    type V = TxView;

    open spec fn view(&self) -> TxView {
        TxView {
            id: self.id,
            date: self.date,
            payee: self.payee@,
            merchant_id: self.merchant_id,
            narration: opt_str(self.narration),
            postings: postings_view(self.postings@),
            import_batch_id: self.import_batch_id,
            duplicate_of: self.duplicate_of,
            tags: strings_view(self.tags@),
            row_fingerprint: opt_str(self.row_fingerprint),
        }
    }
}

/// A freshly built transaction: the given fields, everything optional unset, no tags.
pub open spec fn fresh_tx(t: TxView, date: Date, payee: Seq<char>, postings: Seq<PostingView>) -> bool {
    &&& t.date == date
    &&& t.payee == payee
    &&& t.postings == postings
    &&& t.merchant_id is None
    &&& t.narration is None
    &&& t.import_batch_id is None
    &&& t.duplicate_of is None
    &&& t.tags.len() == 0
    &&& t.row_fingerprint is None
}

impl Transaction {
    /// Builds a transaction with a fresh id and accepts it only if it balances
    /// (per commodity the postings sum to zero) and has at least two postings.
    pub fn new(date: Date, payee: &str, postings: Vec<Posting>) -> (r: Result<Transaction, CoreError>)
        ensures
            r matches Ok(t) ==> fresh_tx(t@, date, payee@, postings_view(postings@)) && balanced_ok(t@.postings),
            r matches Err(e) ==> !balanced_ok(postings_view(postings@)) && exists|id: TransactionId| verify_error_ok(e, id, postings_view(postings@)),
            r is Ok <==> balanced_ok(postings_view(postings@)),
            exact_when_fits(postings_view(postings@)),
    {
        let tx = Transaction {
            id: TransactionId::new(),
            date,
            payee: string_of(chars_of(payee).as_slice()),
            merchant_id: None,
            narration: None,
            postings,
            import_batch_id: None,
            duplicate_of: None,
            tags: Vec::new(),
            row_fingerprint: None,
        };
        assert(strings_view(tx.tags@) =~= Seq::<Seq<char>>::empty());
        match verify_transaction(&tx) {
            Ok(()) => Ok(tx),
            Err(e) => Err(e),
        }
    }

    /// Balanced transfer: `amount` leaves `from` and arrives at `to`. Always accepted.
    pub fn transfer(date: Date, from: AccountId, to: AccountId, amount: Amount, commodity: Commodity, payee: &str) -> (r: Result<Transaction, CoreError>)
        ensures
            r matches Ok(t) && fresh_tx(t@, date, payee@, seq![
                PostingView { account: from@, amount: dec_negated(amount@), commodity: commodity@, memo: None },
                PostingView { account: to@, amount: amount@, commodity: commodity@, memo: None },
            ]),
    {
        amount.check_valid();
        let credit = match amount.checked_neg() {
            Some(c) => c,
            None => {
                return Err(CoreError::InvalidAmount(string_of(chars_of("negation overflow").as_slice())));
            },
        };
        let c2 = commodity.duplicate();
        let p1 = Posting::new(from, credit, c2);
        let p2 = Posting::new(to, amount, commodity);
        let mut ps: Vec<Posting> = Vec::new();
        ps.push(p1);
        ps.push(p2);
        let ghost pv = postings_view(ps@);
        assert(pv =~= seq![p1@, p2@]);
        assert(pv[0].commodity == pv[1].commodity);
        proof {
            crate::verify::lemma_transfer_fits(p1@, p2@);
        }
        let r = Self::new(date, payee, ps);
        proof {
            if r is Err {
                crate::verify::lemma_transfer_balanced(pv);
            }
        }
        r
    }

    pub fn duplicate(&self) -> (r: Transaction)
        ensures
            r@ == self@,
    {
        Transaction {
            id: self.id,
            date: self.date,
            payee: self.payee.clone(),
            merchant_id: self.merchant_id,
            narration: dup_opt_string(&self.narration),
            postings: dup_postings(&self.postings),
            import_batch_id: self.import_batch_id,
            duplicate_of: self.duplicate_of,
            tags: dup_strings(&self.tags),
            row_fingerprint: dup_opt_string(&self.row_fingerprint),
        }
    }
}

} // verus!
