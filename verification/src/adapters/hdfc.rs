//! HDFC Bank account statement CSV, and the record loop every CSV adapter shares.
use vstd::prelude::*;

use super::{map_row, raw_res_view, row_ref, MappingView, RowMapping};
use crate::adapter::{
    get_field, get_field_exec, ok_field, ok_field_exec, parse_outcome, parse_result_ok, parse_rows,
    read_csv, table_outcome, trimmed_headers, missing_required, find_col, find_col_exec,
    AdapterError, AdapterErrorView, BankAdapter, CsvTable, ParseReport,
};
use crate::raw::{raws_view, RawTransaction, RawTransactions, RawView};
use crate::text::{chars_of, nat_str, nat_str_u128, push_chars, push_str, string_of, trim, trim_str};
use crate::transaction::strings_view;
use crate::verify::join_strings;

verus! {

/// HDFC Bank account statement CSV (India).
#[derive(Debug, Default, Clone, Copy)]
pub struct HdfcCsvAdapter;

/// An owned copy of `s`.
pub fn owned(s: &str) -> (r: String)
    ensures
        r@ == s@,
{
    string_of(chars_of(s).as_slice())
}

/// An HDFC record: the deposit when it is not blank, else the withdrawal
/// negated, else a row error; the currency is always INR.
pub open spec fn hdfc_row_spec(row: nat, h: Seq<Seq<char>>, rec: Seq<Seq<char>>) -> Result<RawView, AdapterErrorView> {
    match get_field(h, rec, "Date"@, row) {
        Err(e) => Err(e),
        Ok(date) => match get_field(h, rec, "Narration"@, row) {
            Err(e) => Err(e),
            Ok(narration) => {
                let withdrawal = match ok_field(get_field(h, rec, "Withdrawal Amt."@, row)) {
                    Some(w) => w,
                    None => Seq::empty(),
                };
                let deposit = match ok_field(get_field(h, rec, "Deposit Amt."@, row)) {
                    Some(d) => d,
                    None => Seq::empty(),
                };
                if trim(deposit).len() == 0 && trim(withdrawal).len() == 0 {
                    Err(AdapterErrorView::Row { row, message: "missing amount"@ })
                } else {
                    let amount = if trim(deposit).len() != 0 {
                        trim(deposit)
                    } else {
                        seq!['-'] + trim(withdrawal)
                    };
                    Ok(
                        RawView {
                            row_number: row,
                            date_raw: date,
                            amount_raw: amount,
                            currency_raw: Some("INR"@),
                            description_raw: narration,
                            balance_raw: ok_field(get_field(h, rec, "Closing Balance"@, row)),
                            source_refs: seq!["hdfc:row:"@ + nat_str(row)],
                        },
                    )
                }
            },
        },
    }
}

fn field_or_empty(h: &Vec<String>, rec: &Vec<String>, name: &str, row: usize) -> (r: Vec<char>)
    ensures
        r@ == match ok_field(get_field(strings_view(h@), strings_view(rec@), name@, row as nat)) {
            Some(s) => s,
            None => Seq::empty(),
        },
{
    match get_field_exec(h, rec, name, row) {
        Ok(s) => chars_of(s.as_str()),
        Err(_) => Vec::new(),
    }
}

pub fn hdfc_row(row: usize, h: &Vec<String>, rec: &Vec<String>) -> (r: Result<RawTransaction, AdapterError>)
    ensures
        raw_res_view(r) == hdfc_row_spec(row as nat, strings_view(h@), strings_view(rec@)),
{
    let date = match get_field_exec(h, rec, "Date", row) {
        Ok(s) => s,
        Err(e) => return Err(e),
    };
    let narration = match get_field_exec(h, rec, "Narration", row) {
        Ok(s) => s,
        Err(e) => return Err(e),
    };
    let withdrawal = field_or_empty(h, rec, "Withdrawal Amt.", row);
    let deposit = field_or_empty(h, rec, "Deposit Amt.", row);
    let d = crate::text::trim_chars(deposit.as_slice());
    let w = crate::text::trim_chars(withdrawal.as_slice());
    let amount = if d.len() != 0 {
        string_of(d.as_slice())
    } else if w.len() != 0 {
        let mut s = string_of(chars_of("-").as_slice());
        proof {
            reveal_strlit("-");
        }
        assert("-"@ =~= seq!['-']);
        push_chars(&mut s, &w);
        s
    } else {
        return Err(AdapterError::Row { row, message: owned("missing amount") });
    };
    let balance = ok_field_exec(get_field_exec(h, rec, "Closing Balance", row));
    let r = row_ref("hdfc:row:", row);
    let refs = vec![r];
    assert(strings_view(refs@) =~= seq![r@]);
    Ok(RawTransaction {
        row_number: row,
        date_raw: date,
        amount_raw: amount,
        currency_raw: Some(owned("INR")),
        description_raw: narration,
        balance_raw: balance,
        source_refs: refs,
    })
}

pub open spec fn hdfc_required() -> Seq<Seq<char>> {
    seq!["Date"@, "Narration"@, "Withdrawal Amt."@, "Deposit Amt."@]
}

impl BankAdapter for HdfcCsvAdapter {
    fn id(&self) -> (r: &str)
        ensures
            r@ == "hdfc"@,
    {
        "hdfc"
    }

    fn name(&self) -> (r: &str)
        ensures
            r@ == "HDFC Bank CSV"@,
    {
        "HDFC Bank CSV"
    }

    fn parse(&self, bytes: &[u8]) -> (r: Result<(RawTransactions, ParseReport), AdapterError>)
        ensures
            parse_result_ok(r, parse_outcome("hdfc"@, bytes@, hdfc_required(), MappingView::Hdfc)),
    {
        let required = vec![owned("Date"), owned("Narration"), owned("Withdrawal Amt."), owned("Deposit Amt.")];
        assert(strings_view(required@) =~= hdfc_required());
        parse_simple_csv("hdfc", bytes, &required, &RowMapping::Hdfc)
    }
}

/// Reads `bytes` as CSV and maps every record with `m`.
pub fn parse_simple_csv(adapter_id: &str, bytes: &[u8], required: &Vec<String>, m: &RowMapping) -> (r: Result<(RawTransactions, ParseReport), AdapterError>)
    ensures
        parse_result_ok(r, parse_outcome(adapter_id@, bytes@, strings_view(required@), m@)),
{
    match read_csv(bytes) {
        Err(msg) => Err(AdapterError::Csv(msg)),
        Ok(table) => parse_table(adapter_id, &table, required, m),
    }
}

fn trim_headers(hs: &Vec<String>) -> (r: Vec<String>)
    ensures
        strings_view(r@) == trimmed_headers(strings_view(hs@)),
{
    let mut out: Vec<String> = Vec::new();
    let mut i: usize = 0;
    while i < hs.len()
        invariant
            i <= hs.len(),
            strings_view(out@) == trimmed_headers(strings_view(hs@)).take(i as int),
        decreases hs.len() - i,
    {
        let t = trim_str(hs[i].as_str());
        let s = string_of(t.as_slice());
        let ghost prev = out@;
        out.push(s);
        assert(strings_view(out@) =~= strings_view(prev).push(s@));
        assert(trimmed_headers(strings_view(hs@)).take(i + 1) =~= trimmed_headers(strings_view(hs@)).take(i as int).push(trim(hs@[i as int]@)));
        i = i + 1;
    }
    assert(trimmed_headers(strings_view(hs@)).take(hs.len() as int) =~= trimmed_headers(strings_view(hs@)));
    out
}

/// The first required column missing from `h`, if any.
fn first_missing(h: &Vec<String>, required: &Vec<String>) -> (r: Option<usize>)
    ensures
        r is None <==> missing_required(strings_view(h@), strings_view(required@)) is None,
        r matches Some(k) ==> k < required.len() && missing_required(strings_view(h@), strings_view(required@)) == Some(required@[k as int]@),
{
    let ghost hv = strings_view(h@);
    let ghost rv = strings_view(required@);
    let mut k: usize = 0;
    assert(rv.skip(0) =~= rv);
    while k < required.len()
        invariant
            k <= required.len(),
            hv == strings_view(h@),
            rv == strings_view(required@),
            missing_required(hv, rv) == missing_required(hv, rv.skip(k as int)),
        decreases required.len() - k,
    {
        assert(rv.skip(k as int)[0] == required@[k as int]@);
        match find_col_exec(h, required[k].as_str()) {
            None => {
                return Some(k);
            },
            Some(_) => {},
        }
        assert(rv.skip(k as int).drop_first() =~= rv.skip(k + 1));
        k = k + 1;
    }
    assert(rv.skip(k as int) =~= Seq::<Seq<char>>::empty());
    None
}

/// Maps every record of `table`: the CSV records after the header.
pub fn parse_table(adapter_id: &str, table: &CsvTable, required: &Vec<String>, m: &RowMapping) -> (r: Result<(RawTransactions, ParseReport), AdapterError>)
    ensures
        parse_result_ok(r, table_outcome(adapter_id@, table@, strings_view(required@), m@)),
{
    let n = table.rows.len();
    if n > usize::MAX - 2 {
        return Err(AdapterError::Csv(owned("record count exceeds the row-number range")));
    }
    let headers = trim_headers(&table.headers);
    let ghost hv = strings_view(headers@);
    match first_missing(&headers, required) {
        Some(k) => {
            let mut msg = owned("missing required column '");
            push_str(&mut msg, required[k].as_str());
            push_str(&mut msg, "' (have: ");
            let j = join_strings(&headers, ", ");
            push_str(&mut msg, j.as_str());
            push_str(&mut msg, ")");
            return Err(AdapterError::Schema(msg));
        },
        None => {},
    }
    let ghost rows = table@.rows;
    let mut txs: Vec<RawTransaction> = Vec::new();
    let mut errs: Vec<String> = Vec::new();
    let mut idx: usize = 0;
    assert(rows.take(0) =~= Seq::<Result<Seq<Seq<char>>, Seq<char>>>::empty());
    while idx < n
        invariant
            idx <= n,
            n == table.rows.len(),
            n <= usize::MAX - 2,
            rows == table@.rows,
            hv == strings_view(headers@),
            (raws_view(txs@), strings_view(errs@)) == parse_rows(rows.take(idx as int), hv, m@),
        decreases n - idx,
    {
        let row = idx + 2;
        let ghost pt = txs@;
        let ghost pe = errs@;
        assert(rows.take(idx + 1).drop_last() =~= rows.take(idx as int));
        assert(rows.take(idx + 1).last() == rows[idx as int]);
        assert(rows.take(idx + 1).len() + 1 == row);
        match &table.rows[idx] {
            Ok(rec) => {
                assert(rows[idx as int] == Ok::<Seq<Seq<char>>, Seq<char>>(strings_view(rec@)));
                match map_row(m, row, &headers, rec) {
                    Ok(tx) => {
                        txs.push(tx);
                        assert(raws_view(txs@) =~= raws_view(pt).push(tx@));
                    },
                    Err(e) => {
                        let s = e.message();
                        errs.push(s);
                        assert(strings_view(errs@) =~= strings_view(pe).push(s@));
                    },
                }
            },
            Err(msg) => {
                assert(rows[idx as int] == Err::<Seq<Seq<char>>, Seq<char>>(msg@));
                let mut s = owned("row ");
                let num = nat_str_u128(row as u128);
                push_chars(&mut s, &num);
                push_str(&mut s, ": ");
                push_str(&mut s, msg.as_str());
                errs.push(s);
                assert(strings_view(errs@) =~= strings_view(pe).push(s@));
            },
        }
        idx = idx + 1;
    }
    assert(rows.take(n as int) =~= rows);
    let ok_rows = txs.len();
    let error_rows = errs.len();
    Ok((
        RawTransactions { adapter_id: owned(adapter_id), transactions: txs },
        ParseReport { ok_rows, error_rows, errors: errs },
    ))
}

} // verus!
