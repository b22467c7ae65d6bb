//! Deterministic date parsing: ISO first, then day-first, then US order.
use vstd::prelude::*;

use crate::date::{chrono_parse, date_valid, Date};
use crate::money::{debug_str, debug_string};
use crate::text::{chars_of, push_str, string_of, trim, trim_str};

verus! {

#[derive(Clone, Debug)]
pub struct DateParseError {
    pub raw: String,
}

impl DateParseError {
    /// The message `Display` writes: `unparseable date "<raw>"`.
    pub fn message(&self) -> (r: String)
        ensures
            r@ == "unparseable date "@ + debug_str(self.raw@),
    {
        let mut s = string_of(chars_of("unparseable date ").as_slice());
        let d = debug_string(self.raw.as_str());
        push_str(&mut s, d.as_str());
        s
    }
}

/// The formats tried, in order.
pub open spec fn date_formats() -> Seq<Seq<char>> {
    seq![
        "%Y-%m-%d"@,
        "%d/%m/%Y"@,
        "%d/%m/%y"@,
        "%d-%m-%Y"@,
        "%d-%m-%y"@,
        "%Y/%m/%d"@,
        "%m/%d/%Y"@,
        "%m/%d/%y"@,
        "%d %b %Y"@,
        "%d-%b-%Y"@,
    ]
}

/// The first format of `fmts` under which `s` parses, and the date it gives.
pub open spec fn first_parse(s: Seq<char>, fmts: Seq<Seq<char>>) -> Option<(int, int, int)>
    decreases fmts.len(),
{
    if fmts.len() == 0 {
        None
    } else {
        match chrono_parse(s, fmts[0]) {
            Some(t) => Some(t),
            None => first_parse(s, fmts.drop_first()),
        }
    }
}

/// A year below 100 is taken as 2000 + year when that date exists.
pub open spec fn pivot(t: (int, int, int)) -> (int, int, int) {
    if t.0 < 100 && date_valid(t.0 + 2000, t.1, t.2) {
        (t.0 + 2000, t.1, t.2)
    } else {
        t
    }
}

fn pivot_year(d: Date) -> (r: Date)
    ensures
        (r.y(), r.m(), r.d()) == pivot((d.y(), d.m(), d.d())),
{
    d.is_valid();
    if d.year() < 100 {
        match Date::from_ymd_opt(d.year() + 2000, d.month(), d.day()) {
            Some(p) => p,
            None => d,
        }
    } else {
        d
    }
}

/// Deterministic date parse of the trimmed text: the first format in
/// `date_formats()` that parses wins, with two-digit years pivoted to 20xx.
pub fn parse_date(raw: &str) -> (r: Result<Date, DateParseError>)
    ensures
        match first_parse(trim(raw@), date_formats()) {
            Some(t) => r matches Ok(d) && (d.y(), d.m(), d.d()) == pivot(t),
            None => r matches Err(e) && e.raw@ == raw@,
        },
{
    let t = trim_str(raw);
    let s = string_of(t.as_slice());
    let formats: Vec<&str> = vec![
        "%Y-%m-%d",
        "%d/%m/%Y",
        "%d/%m/%y",
        "%d-%m-%Y",
        "%d-%m-%y",
        "%Y/%m/%d",
        "%m/%d/%Y",
        "%m/%d/%y",
        "%d %b %Y",
        "%d-%b-%Y",
    ];
    let ghost fv = formats@.map_values(|f: &str| f@);
    assert(fv =~= date_formats());
    let mut i: usize = 0;
    assert(fv.skip(0) =~= fv);
    while i < formats.len()
        invariant
            i <= formats.len(),
            fv == formats@.map_values(|f: &str| f@),
            fv == date_formats(),
            s@ == trim(raw@),
            first_parse(s@, fv) == first_parse(s@, fv.skip(i as int)),
        decreases formats.len() - i,
    {
        assert(fv.skip(i as int)[0] == formats@[i as int]@);
        match Date::parse_from_str(s.as_str(), formats[i]) {
            Some(d) => {
                return Ok(pivot_year(d));
            },
            None => {},
        }
        assert(fv.skip(i as int).drop_first() =~= fv.skip(i + 1));
        i = i + 1;
    }
    assert(fv.skip(i as int) =~= Seq::<Seq<char>>::empty());
    Err(DateParseError { raw: string_of(chars_of(raw).as_slice()) })
}

} // verus!
