//! Built-in adapters and the row mappings they apply.
use vstd::prelude::*;

pub mod credit_card;
pub mod custom;
pub mod generic_csv;
pub mod hdfc;

use crate::adapter::{parse_outcome, parse_result_ok, AdapterError, AdapterErrorView, BankAdapter, ParseOutcome, ParseReport};
use crate::raw::RawTransactions;
use crate::raw::{RawTransaction, RawView};
use crate::text::{chars_of, nat_str, nat_str_u128, push_chars, string_of};
use credit_card::{cc_required, cc_row, cc_row_spec, CreditCardCsvAdapter};
use custom::{custom_required, custom_row, custom_row_spec, CustomMappingAdapter, CustomView};
use generic_csv::{generic_required, generic_row, generic_row_spec, GenericCsvAdapter};
use hdfc::{hdfc_required, hdfc_row, hdfc_row_spec, HdfcCsvAdapter};

verus! {

#[derive(Clone, Debug)]
/// How one CSV record becomes a raw transaction.
pub enum RowMapping {
    Generic,
    Hdfc,
    CreditCard,
    Custom(CustomMappingAdapter),
}

pub enum MappingView {
    Generic,
    Hdfc,
    CreditCard,
    Custom(CustomView),
}

impl View for RowMapping {
    type V = MappingView;

    open spec fn view(&self) -> MappingView {
        match self {
            RowMapping::Generic => MappingView::Generic,
            RowMapping::Hdfc => MappingView::Hdfc,
            RowMapping::CreditCard => MappingView::CreditCard,
            RowMapping::Custom(c) => MappingView::Custom(c@),
        }
    }
}

pub open spec fn raw_res_view(r: Result<RawTransaction, AdapterError>) -> Result<RawView, AdapterErrorView> {
    match r {
        Ok(t) => Ok(t@),
        Err(e) => Err(e@),
    }
}

/// The raw transaction (or error) that mapping `m` makes of record `rec` at `row`.
pub open spec fn map_row_spec(m: MappingView, row: nat, h: Seq<Seq<char>>, rec: Seq<Seq<char>>) -> Result<RawView, AdapterErrorView> {
    match m {
        MappingView::Generic => generic_row_spec(row, h, rec),
        MappingView::Hdfc => hdfc_row_spec(row, h, rec),
        MappingView::CreditCard => cc_row_spec(row, h, rec),
        MappingView::Custom(c) => custom_row_spec(c, row, h, rec),
    }
}

pub fn map_row(m: &RowMapping, row: usize, h: &Vec<String>, rec: &Vec<String>) -> (r: Result<RawTransaction, AdapterError>)
    ensures
        raw_res_view(r) == map_row_spec(m@, row as nat, crate::transaction::strings_view(h@), crate::transaction::strings_view(rec@)),
{
    match m {
        RowMapping::Generic => generic_row(row, h, rec),
        RowMapping::Hdfc => hdfc_row(row, h, rec),
        RowMapping::CreditCard => cc_row(row, h, rec),
        RowMapping::Custom(c) => custom_row(c, row, h, rec),
    }
}

/// `prefix` followed by the decimal row number.
pub fn row_ref(prefix: &str, row: usize) -> (r: String)
    ensures
        r@ == prefix@ + nat_str(row as nat),
{
    let mut s = string_of(chars_of(prefix).as_slice());
    let n = nat_str_u128(row as u128);
    push_chars(&mut s, &n);
    s
}

#[derive(Clone, Debug)]
/// One built-in adapter.
pub enum BuiltinAdapter {
    Hdfc(HdfcCsvAdapter),
    Generic(GenericCsvAdapter),
    CreditCard(CreditCardCsvAdapter),
    Custom(CustomMappingAdapter),
}

/// The ids `builtin` resolves, each to the adapter it names.
pub open spec fn builtin_kind(id: Seq<char>) -> Option<int> {
    if id == "hdfc"@ {
        Some(0)
    } else if id == "generic"@ || id == "generic_csv"@ {
        Some(1)
    } else if id == "credit_card"@ || id == "cc"@ {
        Some(2)
    } else if id == "custom"@ {
        Some(3)
    } else {
        None
    }
}

pub open spec fn builtin_kind_of(a: BuiltinAdapter) -> int {
    match a {
        BuiltinAdapter::Hdfc(_) => 0,
        BuiltinAdapter::Generic(_) => 1,
        BuiltinAdapter::CreditCard(_) => 2,
        BuiltinAdapter::Custom(_) => 3,
    }
}

/// The id a built-in adapter reports.
pub open spec fn builtin_id(a: BuiltinAdapter) -> Seq<char> {
    match a {
        BuiltinAdapter::Hdfc(_) => "hdfc"@,
        BuiltinAdapter::Generic(_) => "generic_csv"@,
        BuiltinAdapter::CreditCard(_) => "credit_card"@,
        BuiltinAdapter::Custom(_) => "custom"@,
    }
}

/// The display name a built-in adapter reports.
pub open spec fn builtin_name(a: BuiltinAdapter) -> Seq<char> {
    match a {
        BuiltinAdapter::Hdfc(_) => "HDFC Bank CSV"@,
        BuiltinAdapter::Generic(_) => "Generic CSV"@,
        BuiltinAdapter::CreditCard(_) => "Credit Card CSV"@,
        BuiltinAdapter::Custom(_) => "Custom Mapping CSV"@,
    }
}

/// What parsing `bytes` with a built-in adapter owes: its id, its required
/// columns and its row mapping applied to the CSV table.
pub open spec fn builtin_outcome(a: BuiltinAdapter, bytes: Seq<u8>) -> Result<ParseOutcome, AdapterErrorView> {
    match a {
        BuiltinAdapter::Hdfc(_) => parse_outcome("hdfc"@, bytes, hdfc_required(), MappingView::Hdfc),
        BuiltinAdapter::Generic(_) => parse_outcome("generic_csv"@, bytes, generic_required(), MappingView::Generic),
        BuiltinAdapter::CreditCard(_) => parse_outcome("credit_card"@, bytes, cc_required(), MappingView::CreditCard),
        BuiltinAdapter::Custom(c) => parse_outcome("custom"@, bytes, custom_required(c@), MappingView::Custom(c@)),
    }
}

/// Resolve a built-in adapter by id.
pub fn builtin(id: &str) -> (r: Option<BuiltinAdapter>)
    ensures
        r is None <==> builtin_kind(id@) is None,
        r matches Some(a) ==> builtin_kind(id@) == Some(builtin_kind_of(a)),
        r matches Some(BuiltinAdapter::Custom(c)) ==> c@ == custom::default_view(),
{
    if crate::text::str_eq(id, "hdfc") {
        Some(BuiltinAdapter::Hdfc(HdfcCsvAdapter))
    } else if crate::text::str_eq(id, "generic") || crate::text::str_eq(id, "generic_csv") {
        Some(BuiltinAdapter::Generic(GenericCsvAdapter))
    } else if crate::text::str_eq(id, "credit_card") || crate::text::str_eq(id, "cc") {
        Some(BuiltinAdapter::CreditCard(CreditCardCsvAdapter))
    } else if crate::text::str_eq(id, "custom") {
        Some(BuiltinAdapter::Custom(CustomMappingAdapter::default()))
    } else {
        None
    }
}

/// The ids of the built-in adapters.
pub fn list_builtin() -> (r: Vec<&'static str>)
    ensures
        r@.len() == 4,
        r@[0]@ == "hdfc"@,
        r@[1]@ == "generic_csv"@,
        r@[2]@ == "credit_card"@,
        r@[3]@ == "custom"@,
{
    vec!["hdfc", "generic_csv", "credit_card", "custom"]
}

impl BankAdapter for BuiltinAdapter {
    fn id(&self) -> (r: &str)
        ensures
            r@ == builtin_id(*self),
    {
        match self {
            BuiltinAdapter::Hdfc(a) => a.id(),
            BuiltinAdapter::Generic(a) => a.id(),
            BuiltinAdapter::CreditCard(a) => a.id(),
            BuiltinAdapter::Custom(a) => a.id(),
        }
    }

    fn name(&self) -> (r: &str)
        ensures
            r@ == builtin_name(*self),
    {
        match self {
            BuiltinAdapter::Hdfc(a) => a.name(),
            BuiltinAdapter::Generic(a) => a.name(),
            BuiltinAdapter::CreditCard(a) => a.name(),
            BuiltinAdapter::Custom(a) => a.name(),
        }
    }

    fn parse(&self, bytes: &[u8]) -> (r: Result<(RawTransactions, ParseReport), AdapterError>)
        ensures
            parse_result_ok(r, builtin_outcome(*self, bytes@)),
    {
        match self {
            BuiltinAdapter::Hdfc(a) => a.parse(bytes),
            BuiltinAdapter::Generic(a) => a.parse(bytes),
            BuiltinAdapter::CreditCard(a) => a.parse(bytes),
            BuiltinAdapter::Custom(a) => a.parse(bytes),
        }
    }
}

/// The adapter an outside crate would ship: here, the generic CSV layout.
pub fn sample_adapter() -> (r: GenericCsvAdapter) {
    GenericCsvAdapter
}

/// Every built-in adapter's id resolves back to that adapter, and the
/// aliases `generic` and `cc` resolve as `generic_csv` and `credit_card` do.
pub proof fn law_builtin_ids_resolve(a: BuiltinAdapter)
    ensures
        builtin_kind(builtin_id(a)) == Some(builtin_kind_of(a)),
        builtin_kind("generic"@) == builtin_kind("generic_csv"@),
        builtin_kind("cc"@) == builtin_kind("credit_card"@),
{
    reveal_strlit("hdfc");
    reveal_strlit("generic");
    reveal_strlit("generic_csv");
    reveal_strlit("credit_card");
    reveal_strlit("cc");
    reveal_strlit("custom");
    assert("hdfc"@.len() == 4 && "generic"@.len() == 7 && "generic_csv"@.len() == 11 && "credit_card"@.len() == 11
        && "cc"@.len() == 2 && "custom"@.len() == 6);
    assert("credit_card"@[0] != "generic_csv"@[0]);
    assert("generic"@ != "hdfc"@);
    assert("generic_csv"@ != "hdfc"@ && "generic_csv"@ != "generic"@);
    assert("credit_card"@ != "hdfc"@ && "credit_card"@ != "generic"@ && "credit_card"@ != "generic_csv"@);
    assert("cc"@ != "hdfc"@ && "cc"@ != "generic"@ && "cc"@ != "generic_csv"@);
    assert("custom"@ != "hdfc"@ && "custom"@ != "generic"@ && "custom"@ != "generic_csv"@ && "custom"@ != "credit_card"@
        && "custom"@ != "cc"@);
}

} // verus!
