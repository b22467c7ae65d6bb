//! Bank statement adapters: CSV bytes in, raw transactions and a parse report out.
use vstd::prelude::*;

use crate::raw::{raws_view, RawTransaction, RawTransactions, RawView};
use crate::text::{
    chars_of, eq_ignore_case, eq_ignore_case_exec, join, nat_str, nat_str_u128, push_chars,
    push_str, string_of, trim, trim_str,
};
use crate::transaction::strings_view;
use crate::adapters::{map_row_spec, MappingView};

verus! {

#[derive(Clone, Debug)]
pub enum AdapterError {
    Row { row: usize, message: String },
    Schema(String),
    Io(String),
    Csv(String),
}

pub enum AdapterErrorView {
    Row { row: nat, message: Seq<char> },
    Schema(Seq<char>),
    Io(Seq<char>),
    Csv(Seq<char>),
}

impl View for AdapterError {
    type V = AdapterErrorView;

    open spec fn view(&self) -> AdapterErrorView {
        match self {
            AdapterError::Row { row, message } => AdapterErrorView::Row {
                row: *row as nat,
                message: message@,
            },
            AdapterError::Schema(m) => AdapterErrorView::Schema(m@),
            AdapterError::Io(m) => AdapterErrorView::Io(m@),
            AdapterError::Csv(m) => AdapterErrorView::Csv(m@),
        }
    }
}

/// The message of an adapter error, as its `Display` writes it.
pub open spec fn adapter_error_msg(e: AdapterErrorView) -> Seq<char> {
    match e {
        AdapterErrorView::Row { row, message } => "parse error at row "@ + nat_str(row) + ": "@
            + message,
        AdapterErrorView::Schema(m) => "invalid schema: "@ + m,
        AdapterErrorView::Io(m) => "io error: "@ + m,
        AdapterErrorView::Csv(m) => "csv error: "@ + m,
    }
}

impl AdapterError {
    pub fn message(&self) -> (r: String)
        ensures
            r@ == adapter_error_msg(self@),
    {
        match self {
            AdapterError::Row { row, message } => {
                let mut s = string_of(chars_of("parse error at row ").as_slice());
                let n = nat_str_u128(*row as u128);
                push_chars(&mut s, &n);
                push_str(&mut s, ": ");
                push_str(&mut s, message.as_str());
                s
            },
            AdapterError::Schema(m) => {
                let mut s = string_of(chars_of("invalid schema: ").as_slice());
                push_str(&mut s, m.as_str());
                s
            },
            AdapterError::Io(m) => {
                let mut s = string_of(chars_of("io error: ").as_slice());
                push_str(&mut s, m.as_str());
                s
            },
            AdapterError::Csv(m) => {
                let mut s = string_of(chars_of("csv error: ").as_slice());
                push_str(&mut s, m.as_str());
                s
            },
        }
    }
}

#[derive(Clone, Debug)]
pub struct ParseReport {
    pub ok_rows: usize,
    pub error_rows: usize,
    pub errors: Vec<String>,
}

#[derive(Clone, Debug)]
/// Header and records of a CSV file, as the `csv` reader yields them.
pub struct CsvTable {
    pub headers: Vec<String>,
    pub rows: Vec<Result<Vec<String>, String>>,
}

pub struct CsvTableView {
    pub headers: Seq<Seq<char>>,
    pub rows: Seq<Result<Seq<Seq<char>>, Seq<char>>>,
}

pub open spec fn row_view(r: Result<Vec<String>, String>) -> Result<Seq<Seq<char>>, Seq<char>> {
    match r {
        Ok(v) => Ok(strings_view(v@)),
        Err(m) => Err(m@),
    }
}

impl View for CsvTable {
    type V = CsvTableView;

    open spec fn view(&self) -> CsvTableView {
        CsvTableView {
            headers: strings_view(self.headers@),
            rows: self.rows@.map_values(|r: Result<Vec<String>, String>| row_view(r)),
        }
    }
}

pub open spec fn table_res_view(r: Result<CsvTable, String>) -> Result<CsvTableView, Seq<char>> {
    match r {
        Ok(t) => Ok(t@),
        Err(m) => Err(m@),
    }
}

/// What the `csv` reader (flexible rows, all fields trimmed, first line the
/// header) yields for `bytes`: the header and the records, or the message of
/// the error reading the header.
pub uninterp spec fn csv_table(bytes: Seq<u8>) -> Result<CsvTableView, Seq<char>>;

#[verifier::external_body]
/// Reads `bytes` with `csv::ReaderBuilder` (flexible, `Trim::All`); named `csv_table`.
pub(crate) fn read_csv(bytes: &[u8]) -> (r: Result<CsvTable, String>)
    ensures
        table_res_view(r) == csv_table(bytes@),
{
    let mut rdr = csv::ReaderBuilder::new().flexible(true).trim(csv::Trim::All).from_reader(bytes);
    let headers: Vec<String> = match rdr.headers() {
        Ok(h) => h.iter().map(String::from).collect(),
        Err(e) => return Err(e.to_string()),
    };
    let rows = rdr.records().map(|r| match r {
        Ok(rec) => Ok(rec.iter().map(String::from).collect()),
        Err(e) => Err(e.to_string()),
    }).collect();
    Ok(CsvTable { headers, rows })
}

/// Index of the first header equal to `name` ignoring ASCII case.
pub open spec fn find_col(headers: Seq<Seq<char>>, name: Seq<char>) -> Option<int>
    decreases headers.len(),
{
    if headers.len() == 0 {
        None
    } else if eq_ignore_case(headers[0], name) {
        Some(0)
    } else {
        match find_col(headers.drop_first(), name) {
            Some(i) => Some(i + 1),
            None => None,
        }
    }
}

/// The field of `rec` under the column `name`.
pub open spec fn get_field(headers: Seq<Seq<char>>, rec: Seq<Seq<char>>, name: Seq<char>, row: nat) -> Result<Seq<char>, AdapterErrorView> {
    match find_col(headers, name) {
        None => Err(AdapterErrorView::Schema("column "@ + name + " not found"@)),
        Some(i) => if i < rec.len() {
            Ok(rec[i])
        } else {
            Err(AdapterErrorView::Row { row, message: "missing field "@ + name })
        },
    }
}

pub open spec fn ok_field(r: Result<Seq<char>, AdapterErrorView>) -> Option<Seq<char>> {
    match r {
        Ok(s) => Some(s),
        Err(_) => None,
    }
}

pub fn find_col_exec(headers: &Vec<String>, name: &str) -> (r: Option<usize>)
    ensures
        r is None <==> find_col(strings_view(headers@), name@) is None,
        r matches Some(j) ==> find_col(strings_view(headers@), name@) == Some(j as int),
{
    let ghost hv = strings_view(headers@);
    let nv = chars_of(name);
    let mut i: usize = 0;
    assert(hv.skip(0) =~= hv);
    while i < headers.len()
        invariant
            i <= headers.len(),
            hv == strings_view(headers@),
            nv@ == name@,
            find_col(hv, name@) == match find_col(hv.skip(i as int), name@) {
                Some(j) => Some(j + i),
                None => None,
            },
        decreases headers.len() - i,
    {
        let h = chars_of(headers[i].as_str());
        assert(hv.skip(i as int)[0] == h@);
        if eq_ignore_case_exec(h.as_slice(), nv.as_slice()) {
            return Some(i);
        }
        assert(hv.skip(i as int).drop_first() =~= hv.skip(i + 1));
        i = i + 1;
    }
    assert(hv.skip(i as int) =~= Seq::<Seq<char>>::empty());
    None
}

pub open spec fn field_res_view(r: Result<String, AdapterError>) -> Result<Seq<char>, AdapterErrorView> {
    match r {
        Ok(s) => Ok(s@),
        Err(e) => Err(e@),
    }
}

/// The field under column `name` (ASCII case ignored).
pub fn get_field_exec(headers: &Vec<String>, rec: &Vec<String>, name: &str, row: usize) -> (r: Result<String, AdapterError>)
    ensures
        field_res_view(r) == get_field(strings_view(headers@), strings_view(rec@), name@, row as nat),
{
    match find_col_exec(headers, name) {
        None => {
            let mut m = string_of(chars_of("column ").as_slice());
            push_str(&mut m, name);
            push_str(&mut m, " not found");
            Err(AdapterError::Schema(m))
        },
        Some(i) => {
            if i < rec.len() {
                let f = rec[i].clone();
                assert(strings_view(rec@)[i as int] == rec@[i as int]@);
                Ok(f)
            } else {
                let mut m = string_of(chars_of("missing field ").as_slice());
                push_str(&mut m, name);
                assert(!(i < strings_view(rec@).len()));
                Err(AdapterError::Row { row, message: m })
            }
        },
    }
}

pub fn ok_field_exec(r: Result<String, AdapterError>) -> (o: Option<String>)
    ensures
        crate::posting::opt_str(o) == ok_field(field_res_view(r)),
{
    match r {
        Ok(s) => Some(s),
        Err(_) => None,
    }
}

/// The first required column that no header matches.
pub open spec fn missing_required(headers: Seq<Seq<char>>, required: Seq<Seq<char>>) -> Option<Seq<char>>
    decreases required.len(),
{
    if required.len() == 0 {
        None
    } else if find_col(headers, required[0]) is None {
        Some(required[0])
    } else {
        missing_required(headers, required.drop_first())
    }
}

pub open spec fn trimmed_headers(h: Seq<Seq<char>>) -> Seq<Seq<char>> {
    h.map_values(|s: Seq<char>| trim(s))
}

/// Turns the records into raw transactions and error messages, one outcome per
/// record; a record's row number is its index plus 2 (the header is row 1).
pub open spec fn parse_rows(
    rows: Seq<Result<Seq<Seq<char>>, Seq<char>>>,
    headers: Seq<Seq<char>>,
    m: MappingView,
) -> (Seq<RawView>, Seq<Seq<char>>)
    decreases rows.len(),
{
    if rows.len() == 0 {
        (Seq::empty(), Seq::empty())
    } else {
        let (txs, errs) = parse_rows(rows.drop_last(), headers, m);
        let row = (rows.len() + 1) as nat;
        match rows.last() {
            Ok(rec) => match map_row_spec(m, row, headers, rec) {
                Ok(t) => (txs.push(t), errs),
                Err(e) => (txs, errs.push(adapter_error_msg(e))),
            },
            Err(msg) => (txs, errs.push("row "@ + nat_str(row) + ": "@ + msg)),
        }
    }
}

proof fn lemma_parse_rows_count(
    rows: Seq<Result<Seq<Seq<char>>, Seq<char>>>,
    headers: Seq<Seq<char>>,
    m: MappingView,
)
    ensures
        parse_rows(rows, headers, m).0.len() + parse_rows(rows, headers, m).1.len() == rows.len(),
    decreases rows.len(),
{
    if rows.len() > 0 {
        lemma_parse_rows_count(rows.drop_last(), headers, m);
    }
}

pub struct ParseOutcome {
    pub adapter_id: Seq<char>,
    pub transactions: Seq<RawView>,
    pub errors: Seq<Seq<char>>,
}

/// What mapping the records of `t` owes: the first missing required column, or
/// every record turned into a raw transaction or an error message.
pub open spec fn table_outcome(
    adapter_id: Seq<char>,
    t: CsvTableView,
    required: Seq<Seq<char>>,
    m: MappingView,
) -> Result<ParseOutcome, AdapterErrorView> {
    if t.rows.len() + 2 > usize::MAX {
        Err(AdapterErrorView::Csv("record count exceeds the row-number range"@))
    } else {
        let h = trimmed_headers(t.headers);
        match missing_required(h, required) {
            Some(col) => Err(
                AdapterErrorView::Schema(
                    "missing required column '"@ + col + "' (have: "@ + join(h, ", "@) + ")"@,
                ),
            ),
            None => {
                let (txs, errs) = parse_rows(t.rows, h, m);
                Ok(ParseOutcome { adapter_id, transactions: txs, errors: errs })
            },
        }
    }
}

/// What parsing `bytes` owes: the CSV reader's error, or the table's outcome.
pub open spec fn parse_outcome(
    adapter_id: Seq<char>,
    bytes: Seq<u8>,
    required: Seq<Seq<char>>,
    m: MappingView,
) -> Result<ParseOutcome, AdapterErrorView> {
    match csv_table(bytes) {
        Err(msg) => Err(AdapterErrorView::Csv(msg)),
        Ok(t) => table_outcome(adapter_id, t, required, m),
    }
}

/// A parse result agrees with what `parse_outcome` owes.
pub open spec fn parse_result_ok(
    r: Result<(RawTransactions, ParseReport), AdapterError>,
    o: Result<ParseOutcome, AdapterErrorView>,
) -> bool {
    match (r, o) {
        (Ok((raw, rep)), Ok(out)) => {
            &&& raw.adapter_id@ == out.adapter_id
            &&& raws_view(raw.transactions@) == out.transactions
            &&& strings_view(rep.errors@) == out.errors
            &&& rep.ok_rows == raw.transactions@.len()
            &&& rep.error_rows == rep.errors@.len()
        },
        (Err(e), Err(ev)) => e@ == ev,
        _ => false,
    }
}

/// Bank statement adapter. Implementations must be deterministic; every parsed
/// record is either a raw transaction or a reported error.
pub trait BankAdapter {
    fn id(&self) -> &str;

    fn name(&self) -> &str;

    fn parse(&self, bytes: &[u8]) -> (r: Result<(RawTransactions, ParseReport), AdapterError>)
        ensures
            r matches Ok((raw, rep)) ==> rep.ok_rows == raw.transactions@.len()
                && rep.error_rows == rep.errors@.len(),
    ;
}

/// Parsing never drops a record silently: when the file is read, every
/// record after the header becomes exactly one raw transaction or one error.
pub proof fn law_parse_accounts_for_every_record(adapter_id: Seq<char>, bytes: Seq<u8>, required: Seq<Seq<char>>, m: MappingView)
    requires
        csv_table(bytes) is Ok,
        parse_outcome(adapter_id, bytes, required, m) is Ok,
    ensures
        parse_outcome(adapter_id, bytes, required, m)->Ok_0.transactions.len()
            + parse_outcome(adapter_id, bytes, required, m)->Ok_0.errors.len() == csv_table(bytes)->Ok_0.rows.len(),
{
    let t = csv_table(bytes)->Ok_0;
    lemma_parse_rows_count(t.rows, trimmed_headers(t.headers), m);
}

} // verus!
