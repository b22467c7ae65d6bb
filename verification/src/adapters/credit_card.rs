//! Credit-card style CSV: Transaction Date, Post Date, Description, Amount.
use vstd::prelude::*;

use super::hdfc::{owned, parse_simple_csv};
use super::{raw_res_view, row_ref, MappingView, RowMapping};
use crate::adapter::{
    get_field, get_field_exec, ok_field, ok_field_exec, parse_outcome, parse_result_ok, AdapterError,
    AdapterErrorView, BankAdapter, ParseReport,
};
use crate::raw::{RawTransaction, RawTransactions, RawView};
use crate::text::{nat_str, trim, trim_str};
use crate::transaction::strings_view;

verus! {

/// Credit-card style CSV: Transaction Date, Post Date, Description, Amount.
#[derive(Debug, Default, Clone, Copy)]
pub struct CreditCardCsvAdapter;

/// A card record: the amount first (blank is a row error), then the
/// transaction date and description; no balance.
pub open spec fn cc_row_spec(row: nat, h: Seq<Seq<char>>, rec: Seq<Seq<char>>) -> Result<RawView, AdapterErrorView> {
    match get_field(h, rec, "Amount"@, row) {
        Err(e) => Err(e),
        Ok(amount) => if trim(amount).len() == 0 {
            Err(AdapterErrorView::Row { row, message: "missing amount"@ })
        } else {
            match get_field(h, rec, "Transaction Date"@, row) {
                Err(e) => Err(e),
                Ok(date) => match get_field(h, rec, "Description"@, row) {
                    Err(e) => Err(e),
                    Ok(desc) => Ok(
                        RawView {
                            row_number: row,
                            date_raw: date,
                            amount_raw: amount,
                            currency_raw: ok_field(get_field(h, rec, "Currency"@, row)),
                            description_raw: desc,
                            balance_raw: None,
                            source_refs: seq!["cc:row:"@ + nat_str(row)],
                        },
                    ),
                },
            }
        },
    }
}

pub fn cc_row(row: usize, h: &Vec<String>, rec: &Vec<String>) -> (r: Result<RawTransaction, AdapterError>)
    ensures
        raw_res_view(r) == cc_row_spec(row as nat, strings_view(h@), strings_view(rec@)),
{
    let amount = match get_field_exec(h, rec, "Amount", row) {
        Ok(s) => s,
        Err(e) => return Err(e),
    };
    let t = trim_str(amount.as_str());
    if t.len() == 0 {
        return Err(AdapterError::Row { row, message: owned("missing amount") });
    }
    let date = match get_field_exec(h, rec, "Transaction Date", row) {
        Ok(s) => s,
        Err(e) => return Err(e),
    };
    let currency = ok_field_exec(get_field_exec(h, rec, "Currency", row));
    let desc = match get_field_exec(h, rec, "Description", row) {
        Ok(s) => s,
        Err(e) => return Err(e),
    };
    let r = row_ref("cc:row:", row);
    let refs = vec![r];
    assert(strings_view(refs@) =~= seq![r@]);
    Ok(RawTransaction {
        row_number: row,
        date_raw: date,
        amount_raw: amount,
        currency_raw: currency,
        description_raw: desc,
        balance_raw: None,
        source_refs: refs,
    })
}

pub open spec fn cc_required() -> Seq<Seq<char>> {
    seq!["Transaction Date"@, "Description"@, "Amount"@]
}

impl BankAdapter for CreditCardCsvAdapter {
    fn id(&self) -> (r: &str)
        ensures
            r@ == "credit_card"@,
    {
        "credit_card"
    }

    fn name(&self) -> (r: &str)
        ensures
            r@ == "Credit Card CSV"@,
    {
        "Credit Card CSV"
    }

    fn parse(&self, bytes: &[u8]) -> (r: Result<(RawTransactions, ParseReport), AdapterError>)
        ensures
            parse_result_ok(r, parse_outcome("credit_card"@, bytes@, cc_required(), MappingView::CreditCard)),
    {
        let required = vec![owned("Transaction Date"), owned("Description"), owned("Amount")];
        assert(strings_view(required@) =~= cc_required());
        parse_simple_csv("credit_card", bytes, &required, &RowMapping::CreditCard)
    }
}

} // verus!
