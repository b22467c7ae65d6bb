//! User-defined column mapping adapter.
use vstd::prelude::*;

use super::hdfc::{owned, parse_simple_csv};
use super::{raw_res_view, row_ref, MappingView, RowMapping};
use crate::adapter::{
    get_field, get_field_exec, ok_field, ok_field_exec, parse_outcome, parse_result_ok, AdapterError,
    AdapterErrorView, BankAdapter, ParseReport,
};
use crate::posting::{dup_opt_string, opt_str};
use crate::raw::{RawTransaction, RawTransactions, RawView};
use crate::text::nat_str;
use crate::transaction::strings_view;

verus! {

#[derive(Clone, Debug)]
/// User-defined column mapping adapter.
pub struct CustomMappingAdapter {
    pub date_column: String,
    pub description_column: String,
    pub amount_column: String,
    pub currency_column: Option<String>,
    pub balance_column: Option<String>,
}

pub struct CustomView {
    pub date_column: Seq<char>,
    pub description_column: Seq<char>,
    pub amount_column: Seq<char>,
    pub currency_column: Option<Seq<char>>,
    pub balance_column: Option<Seq<char>>,
}

impl View for CustomMappingAdapter {
    type V = CustomView;

    open spec fn view(&self) -> CustomView {
        CustomView {
            date_column: self.date_column@,
            description_column: self.description_column@,
            amount_column: self.amount_column@,
            currency_column: opt_str(self.currency_column),
            balance_column: opt_str(self.balance_column),
        }
    }
}

/// The default mapping: lower-case generic headers, currency where present.
pub open spec fn default_view() -> CustomView {
    CustomView {
        date_column: "date"@,
        description_column: "description"@,
        amount_column: "amount"@,
        currency_column: Some("currency"@),
        balance_column: None,
    }
}

impl CustomMappingAdapter {
    pub fn default() -> (r: CustomMappingAdapter)
        ensures
            r@ == default_view(),
    {
        CustomMappingAdapter {
            date_column: owned("date"),
            description_column: owned("description"),
            amount_column: owned("amount"),
            currency_column: Some(owned("currency")),
            balance_column: None,
        }
    }

    pub fn duplicate(&self) -> (r: CustomMappingAdapter)
        ensures
            r@ == self@,
    {
        CustomMappingAdapter {
            date_column: self.date_column.clone(),
            description_column: self.description_column.clone(),
            amount_column: self.amount_column.clone(),
            currency_column: dup_opt_string(&self.currency_column),
            balance_column: dup_opt_string(&self.balance_column),
        }
    }
}

/// The field under an optional column, where the column is set and present.
pub open spec fn optional_field(h: Seq<Seq<char>>, rec: Seq<Seq<char>>, col: Option<Seq<char>>, row: nat) -> Option<Seq<char>> {
    match col {
        Some(c) => ok_field(get_field(h, rec, c, row)),
        None => None,
    }
}

/// A record under a custom mapping: date, amount and description required.
pub open spec fn custom_row_spec(c: CustomView, row: nat, h: Seq<Seq<char>>, rec: Seq<Seq<char>>) -> Result<RawView, AdapterErrorView> {
    match get_field(h, rec, c.date_column, row) {
        Err(e) => Err(e),
        Ok(date) => match get_field(h, rec, c.amount_column, row) {
            Err(e) => Err(e),
            Ok(amount) => match get_field(h, rec, c.description_column, row) {
                Err(e) => Err(e),
                Ok(desc) => Ok(
                    RawView {
                        row_number: row,
                        date_raw: date,
                        amount_raw: amount,
                        currency_raw: optional_field(h, rec, c.currency_column, row),
                        description_raw: desc,
                        balance_raw: optional_field(h, rec, c.balance_column, row),
                        source_refs: seq!["custom:row:"@ + nat_str(row)],
                    },
                ),
            },
        },
    }
}

fn optional_field_exec(h: &Vec<String>, rec: &Vec<String>, col: &Option<String>, row: usize) -> (r: Option<String>)
    ensures
        opt_str(r) == optional_field(strings_view(h@), strings_view(rec@), opt_str(*col), row as nat),
{
    match col {
        Some(c) => ok_field_exec(get_field_exec(h, rec, c.as_str(), row)),
        None => None,
    }
}

pub fn custom_row(c: &CustomMappingAdapter, row: usize, h: &Vec<String>, rec: &Vec<String>) -> (r: Result<RawTransaction, AdapterError>)
    ensures
        raw_res_view(r) == custom_row_spec(c@, row as nat, strings_view(h@), strings_view(rec@)),
{
    let date = match get_field_exec(h, rec, c.date_column.as_str(), row) {
        Ok(s) => s,
        Err(e) => return Err(e),
    };
    let amount = match get_field_exec(h, rec, c.amount_column.as_str(), row) {
        Ok(s) => s,
        Err(e) => return Err(e),
    };
    let currency = optional_field_exec(h, rec, &c.currency_column, row);
    let desc = match get_field_exec(h, rec, c.description_column.as_str(), row) {
        Ok(s) => s,
        Err(e) => return Err(e),
    };
    let balance = optional_field_exec(h, rec, &c.balance_column, row);
    let r = row_ref("custom:row:", row);
    let refs = vec![r];
    assert(strings_view(refs@) =~= seq![r@]);
    Ok(RawTransaction {
        row_number: row,
        date_raw: date,
        amount_raw: amount,
        currency_raw: currency,
        description_raw: desc,
        balance_raw: balance,
        source_refs: refs,
    })
}

pub open spec fn custom_required(c: CustomView) -> Seq<Seq<char>> {
    seq![c.date_column, c.description_column, c.amount_column]
}

impl BankAdapter for CustomMappingAdapter {
    fn id(&self) -> (r: &str)
        ensures
            r@ == "custom"@,
    {
        "custom"
    }

    fn name(&self) -> (r: &str)
        ensures
            r@ == "Custom Mapping CSV"@,
    {
        "Custom Mapping CSV"
    }

    fn parse(&self, bytes: &[u8]) -> (r: Result<(RawTransactions, ParseReport), AdapterError>)
        ensures
            parse_result_ok(r, parse_outcome("custom"@, bytes@, custom_required(self@), MappingView::Custom(self@))),
    {
        let required = vec![self.date_column.clone(), self.description_column.clone(), self.amount_column.clone()];
        assert(strings_view(required@) =~= custom_required(self@));
        let mapping = RowMapping::Custom(self.duplicate());
        parse_simple_csv("custom", bytes, &required, &mapping)
    }
}

} // verus!
