//! Pre-canonical transactions produced by a bank adapter.
use vstd::prelude::*;

use crate::posting::{dup_opt_string, dup_strings, opt_str};
use crate::transaction::strings_view;

verus! {

#[derive(Clone, Debug)]
/// Pre-canonical transaction produced by a bank adapter.
pub struct RawTransaction {
    pub row_number: usize,
    pub date_raw: String,
    pub amount_raw: String,
    pub currency_raw: Option<String>,
    pub description_raw: String,
    pub balance_raw: Option<String>,
    pub source_refs: Vec<String>,
}

pub struct RawView {
    pub row_number: nat,
    pub date_raw: Seq<char>,
    pub amount_raw: Seq<char>,
    pub currency_raw: Option<Seq<char>>,
    pub description_raw: Seq<char>,
    pub balance_raw: Option<Seq<char>>,
    pub source_refs: Seq<Seq<char>>,
}

impl View for RawTransaction {
    type V = RawView;

    open spec fn view(&self) -> RawView {
        RawView {
            row_number: self.row_number as nat,
            date_raw: self.date_raw@,
            amount_raw: self.amount_raw@,
            currency_raw: opt_str(self.currency_raw),
            description_raw: self.description_raw@,
            balance_raw: opt_str(self.balance_raw),
            source_refs: strings_view(self.source_refs@),
        }
    }
}

impl RawTransaction {
    pub fn duplicate(&self) -> (r: RawTransaction)
        ensures
            r@ == self@,
    {
        RawTransaction {
            row_number: self.row_number,
            date_raw: self.date_raw.clone(),
            amount_raw: self.amount_raw.clone(),
            currency_raw: dup_opt_string(&self.currency_raw),
            description_raw: self.description_raw.clone(),
            balance_raw: dup_opt_string(&self.balance_raw),
            source_refs: dup_strings(&self.source_refs),
        }
    }
}

pub open spec fn raws_view(v: Seq<RawTransaction>) -> Seq<RawView> {
    v.map_values(|r: RawTransaction| r@)
}

#[derive(Clone, Debug)]
pub struct RawTransactions {
    pub adapter_id: String,
    pub transactions: Vec<RawTransaction>,
}

} // verus!
