//! Generic US/EU-style CSV: Date, Description, Amount, [Currency], [Balance].
use vstd::prelude::*;

use super::hdfc::{owned, parse_simple_csv};
use super::{raw_res_view, row_ref, MappingView, RowMapping};
use crate::adapter::{
    get_field, get_field_exec, ok_field, ok_field_exec, parse_outcome, parse_result_ok, AdapterError,
    AdapterErrorView, BankAdapter, ParseReport,
};
use crate::posting::opt_str;
use crate::raw::{RawTransaction, RawTransactions, RawView};
use crate::text::{chars_of, nat_str, string_of, trim, trim_str};
use crate::transaction::strings_view;

verus! {

/// Generic US/EU-style CSV: Date, Description, Amount, [Currency], [Balance].
#[derive(Debug, Default, Clone, Copy)]
pub struct GenericCsvAdapter;

/// A generic record: date and amount required (an amount of only whitespace is
/// a row error), description required, currency and balance where present.
pub open spec fn generic_row_spec(row: nat, h: Seq<Seq<char>>, rec: Seq<Seq<char>>) -> Result<RawView, AdapterErrorView> {
    match get_field(h, rec, "Date"@, row) {
        Err(e) => Err(e),
        Ok(date) => match get_field(h, rec, "Amount"@, row) {
            Err(e) => Err(e),
            Ok(amount) => if trim(amount).len() == 0 {
                Err(AdapterErrorView::Row { row, message: "missing amount"@ })
            } else {
                match get_field(h, rec, "Description"@, row) {
                    Err(e) => Err(e),
                    Ok(desc) => Ok(
                        RawView {
                            row_number: row,
                            date_raw: date,
                            amount_raw: amount,
                            currency_raw: ok_field(get_field(h, rec, "Currency"@, row)),
                            description_raw: desc,
                            balance_raw: ok_field(get_field(h, rec, "Balance"@, row)),
                            source_refs: seq!["generic:row:"@ + nat_str(row)],
                        },
                    ),
                }
            },
        },
    }
}

pub fn generic_row(row: usize, h: &Vec<String>, rec: &Vec<String>) -> (r: Result<RawTransaction, AdapterError>)
    ensures
        raw_res_view(r) == generic_row_spec(row as nat, strings_view(h@), strings_view(rec@)),
{
    let date = match get_field_exec(h, rec, "Date", row) {
        Ok(s) => s,
        Err(e) => return Err(e),
    };
    let amount = match get_field_exec(h, rec, "Amount", row) {
        Ok(s) => s,
        Err(e) => return Err(e),
    };
    let t = trim_str(amount.as_str());
    if t.len() == 0 {
        return Err(AdapterError::Row { row, message: string_of(chars_of("missing amount").as_slice()) });
    }
    let currency = ok_field_exec(get_field_exec(h, rec, "Currency", row));
    let desc = match get_field_exec(h, rec, "Description", row) {
        Ok(s) => s,
        Err(e) => return Err(e),
    };
    let balance = ok_field_exec(get_field_exec(h, rec, "Balance", row));
    let r = row_ref("generic:row:", row);
    let refs = vec![r];
    assert(strings_view(refs@) =~= seq![r@]);
    Ok(RawTransaction {
        row_number: row,
        date_raw: date,
        amount_raw: amount,
        currency_raw: currency,
        description_raw: desc,
        balance_raw: balance,
        source_refs: refs,
    })
}

pub open spec fn generic_required() -> Seq<Seq<char>> {
    seq!["Date"@, "Description"@, "Amount"@]
}

impl BankAdapter for GenericCsvAdapter {
    fn id(&self) -> (r: &str)
        ensures
            r@ == "generic_csv"@,
    {
        "generic_csv"
    }

    fn name(&self) -> (r: &str)
        ensures
            r@ == "Generic CSV"@,
    {
        "Generic CSV"
    }

    fn parse(&self, bytes: &[u8]) -> (r: Result<(RawTransactions, ParseReport), AdapterError>)
        ensures
            parse_result_ok(r, parse_outcome("generic_csv"@, bytes@, generic_required(), MappingView::Generic)),
    {
        let required = vec![owned("Date"), owned("Description"), owned("Amount")];
        assert(strings_view(required@) =~= generic_required());
        parse_simple_csv("generic_csv", bytes, &required, &RowMapping::Generic)
    }
}

} // verus!
