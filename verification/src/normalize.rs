//! Deterministic merchant cleaning.
use vstd::prelude::*;

use crate::money::{to_uppercase, unicode_upper};
use crate::pattern::{regex_replace_all, regex_replace_first, replace_all, replace_first};
use crate::posting::opt_str;
use crate::text::{
    ascii_lower, ascii_lower_vec, chars_of, is_ascii_alnum, join, str_eq, string_of, trim,
    trim_str,
};
use crate::transaction::strings_view;
use crate::verify::join_strings;

verus! {

#[derive(Clone, Debug)]
pub struct NormalizedMerchant {
    pub canonical_key: String,
    pub display_name: String,
    pub confidence: u8,
    pub reasons: Vec<String>,
}

pub open spec fn ws_pattern() -> Seq<char> {
    "\\s+"@
}

pub open spec fn ref_pattern() -> Seq<char> {
    "(\\*|\\#)?[A-Z0-9]{6,}$"@
}

pub open spec fn or_keep(r: Option<Seq<char>>, s: Seq<char>) -> Seq<char> {
    match r {
        Some(t) => t,
        None => s,
    }
}

/// The characters a key keeps: ASCII letters, digits and spaces.
pub open spec fn keep_key_chars(s: Seq<char>) -> Seq<char>
    decreases s.len(),
{
    if s.len() == 0 {
        s
    } else if is_ascii_alnum(s.last()) || s.last() == ' ' {
        keep_key_chars(s.drop_last()).push(s.last())
    } else {
        keep_key_chars(s.drop_last())
    }
}

/// The maximal runs of non-space characters, in order.
pub open spec fn words(s: Seq<char>) -> Seq<Seq<char>>
    decreases s.len(),
{
    if s.len() == 0 {
        Seq::empty()
    } else {
        let w = words(s.drop_last());
        let c = s.last();
        if c == ' ' {
            w
        } else if s.len() >= 2 && s[s.len() - 2] != ' ' {
            w.drop_last().push(w.last().push(c))
        } else {
            w.push(seq![c])
        }
    }
}

/// The canonical key of a cleaned name: its words of kept characters joined
/// by `_`, lower-cased.
pub open spec fn merchant_key(s: Seq<char>) -> Seq<char> {
    ascii_lower(join(words(keep_key_chars(s)), "_"@))
}

pub open spec fn upper_of(raw: Seq<char>) -> Seq<char> {
    unicode_upper(trim(raw))
}

pub open spec fn collapsed_of(raw: Seq<char>) -> Seq<char> {
    or_keep(regex_replace_all(ws_pattern(), upper_of(raw), " "@), upper_of(raw))
}

pub open spec fn display_of(raw: Seq<char>) -> Seq<char> {
    trim(or_keep(regex_replace_first(ref_pattern(), collapsed_of(raw), ""@), collapsed_of(raw)))
}

/// The reasons recorded, in order, for the steps that changed the text.
pub open spec fn reasons_of(raw: Seq<char>) -> Seq<Seq<char>> {
    let a = seq!["trim+uppercase"@];
    let b = if collapsed_of(raw) != upper_of(raw) {
        a.push("collapse_whitespace"@)
    } else {
        a
    };
    let c = if display_of(raw) != collapsed_of(raw) {
        b.push("strip_trailing_ref"@)
    } else {
        b
    };
    c.push("alnum_underscore_key"@)
}

proof fn lemma_words_nonempty(s: Seq<char>)
    requires
        s.len() > 0,
        s.last() != ' ',
    ensures
        words(s).len() > 0,
    decreases s.len(),
{
    if s.len() >= 2 && s[s.len() - 2] != ' ' {
        lemma_words_nonempty(s.drop_last());
    }
}

fn keep_key_chars_exec(s: &Vec<char>) -> (r: Vec<char>)
    ensures
        r@ == keep_key_chars(s@),
{
    let mut out: Vec<char> = Vec::new();
    let mut i: usize = 0;
    while i < s.len()
        invariant
            i <= s.len(),
            out@ == keep_key_chars(s@.take(i as int)),
        decreases s.len() - i,
    {
        let c = s[i];
        assert(s@.take(i + 1).drop_last() =~= s@.take(i as int));
        if ('0' <= c && c <= '9') || ('a' <= c && c <= 'z') || ('A' <= c && c <= 'Z') || c == ' ' {
            out.push(c);
        }
        i = i + 1;
    }
    assert(s@.take(s.len() as int) =~= s@);
    out
}

pub open spec fn char_words_view(ws: Seq<Vec<char>>) -> Seq<Seq<char>> {
    ws.map_values(|v: Vec<char>| v@)
}

fn words_exec(s: &Vec<char>) -> (r: Vec<String>)
    ensures
        strings_view(r@) == words(s@),
{
    let mut ws: Vec<Vec<char>> = Vec::new();
    let mut i: usize = 0;
    while i < s.len()
        invariant
            i <= s.len(),
            char_words_view(ws@) == words(s@.take(i as int)),
        decreases s.len() - i,
    {
        let c = s[i];
        let ghost t = s@.take(i + 1);
        let ghost prev = ws@;
        assert(t.drop_last() =~= s@.take(i as int));
        assert(t.last() == c);
        if c != ' ' {
            if i >= 1 && s[i - 1] != ' ' {
                assert(t[t.len() - 2] == s@[i - 1]);
                proof {
                    lemma_words_nonempty(s@.take(i as int));
                }
                let mut last = ws.pop().unwrap();
                last.push(c);
                ws.push(last);
                assert(char_words_view(ws@) =~= char_words_view(prev).drop_last().push(
                    char_words_view(prev).last().push(c),
                ));
            } else {
                let mut nw: Vec<char> = Vec::new();
                nw.push(c);
                assert(nw@ =~= seq![c]);
                ws.push(nw);
                assert(char_words_view(ws@) =~= char_words_view(prev).push(seq![c]));
            }
        }
        i = i + 1;
    }
    assert(s@.take(s.len() as int) =~= s@);
    let mut out: Vec<String> = Vec::new();
    let mut k: usize = 0;
    while k < ws.len()
        invariant
            k <= ws.len(),
            strings_view(out@) == char_words_view(ws@).take(k as int),
        decreases ws.len() - k,
    {
        let w = string_of(ws[k].as_slice());
        let ghost prev = out@;
        out.push(w);
        assert(strings_view(out@) =~= strings_view(prev).push(w@));
        assert(char_words_view(ws@).take(k + 1) =~= char_words_view(ws@).take(k as int).push(ws@[k as int]@));
        k = k + 1;
    }
    assert(char_words_view(ws@).take(ws.len() as int) =~= char_words_view(ws@));
    out
}

fn owned(s: &str) -> (r: String)
    ensures
        r@ == s@,
{
    string_of(chars_of(s).as_slice())
}

/// Cleans a raw merchant description: trim and upper-case, collapse white
/// space, strip a trailing reference code, and derive an `a_b_c` key.
pub fn normalize_merchant(raw: &str) -> (r: NormalizedMerchant)
    ensures
        r.display_name@ == display_of(raw@),
        r.canonical_key@ == merchant_key(display_of(raw@)),
        r.confidence == 90,
        strings_view(r.reasons@) == reasons_of(raw@),
{
    let t = trim_str(raw);
    let ts = string_of(t.as_slice());
    let upper = to_uppercase(ts.as_str());
    let mut reasons: Vec<String> = vec![owned("trim+uppercase")];
    let collapsed = match replace_all("\\s+", upper.as_str(), " ") {
        Some(c) => c,
        None => upper.clone(),
    };
    if !str_eq(collapsed.as_str(), upper.as_str()) {
        reasons.push(owned("collapse_whitespace"));
    }
    let stripped = match replace_first("(\\*|\\#)?[A-Z0-9]{6,}$", collapsed.as_str(), "") {
        Some(c) => c,
        None => collapsed.clone(),
    };
    let st = trim_str(stripped.as_str());
    let without_refs = string_of(st.as_slice());
    if !str_eq(without_refs.as_str(), collapsed.as_str()) {
        reasons.push(owned("strip_trailing_ref"));
    }
    let kept = keep_key_chars_exec(&chars_of(without_refs.as_str()));
    let ws = words_exec(&kept);
    let joined = join_strings(&ws, "_");
    let lower = ascii_lower_vec(chars_of(joined.as_str()).as_slice());
    reasons.push(owned("alnum_underscore_key"));
    assert(strings_view(reasons@) =~= reasons_of(raw@));
    NormalizedMerchant {
        display_name: without_refs,
        canonical_key: string_of(lower.as_slice()),
        confidence: 90,
        reasons,
    }
}

} // verus!
