//! The pure parts of the command line: path hygiene, workspace layout,
//! account types and posting specs.
use vstd::prelude::*;

use crate::account::{account_name, account_name_ok, AccountId, AccountType};
use crate::error::{core_error_msg, CoreError};
use crate::money::{amount_cleaned, commodity_code, commodity_code_ok, debug_str, decimal_parse, Amount, Commodity};
use crate::posting::{Posting, PostingView};
use crate::text::{ascii_lower, ascii_lower_vec, chars_of, push_str, seq_eq, string_of, trim, trim_chars};

verus! {

/// A `..` segment: two dots between separators (or the ends of the path).
pub open spec fn has_parent_segment(s: Seq<char>) -> bool {
    exists|i: int|
        0 <= i && i + 2 <= s.len() && #[trigger] s[i] == '.' && s[i + 1] == '.' && (i == 0 || s[i - 1] == '/')
            && (i + 2 == s.len() || s[i + 2] == '/')
}

/// Reject an empty path and any path with a `..` component.
pub fn reject_parent_dir(path: &str) -> (r: Result<(), String>)
    ensures
        path@.len() == 0 ==> (r matches Err(m) && m@ == "empty path rejected"@),
        path@.len() > 0 && has_parent_segment(path@) ==> (r matches Err(m) && m@ == "path traversal rejected: "@ + path@),
        r is Ok <==> path@.len() > 0 && !has_parent_segment(path@),
{
    let c = chars_of(path);
    if c.len() == 0 {
        return Err(string_of(chars_of("empty path rejected").as_slice()));
    }
    let n = c.len();
    let mut i: usize = 0;
    while n - i >= 2
        invariant
            i <= n,
            c@ == path@,
            n == c@.len(),
            forall|j: int| 0 <= j < i && j + 2 <= n ==> !(#[trigger] c@[j] == '.' && c@[j + 1] == '.' && (j == 0 || c@[j - 1] == '/')
                && (j + 2 == n || c@[j + 2] == '/')),
        decreases n - i,
    {
        if c[i] == '.' && c[i + 1] == '.' && (i == 0 || c[i - 1] == '/') && (i + 2 == n || c[i + 2] == '/') {
            let mut m = string_of(chars_of("path traversal rejected: ").as_slice());
            push_str(&mut m, path);
            return Err(m);
        }
        i = i + 1;
    }
    assert forall|j: int| 0 <= j && j + 2 <= path@.len() implies !(#[trigger] path@[j] == '.' && path@[j + 1] == '.'
        && (j == 0 || path@[j - 1] == '/') && (j + 2 == path@.len() || path@[j + 2] == '/')) by {
        assert(c@[j] == path@[j]);
    }
    Ok(())
}

/// `dir` joined with `ledger.sqlite`, as `Path::join` joins a relative name.
pub open spec fn db_path_of(dir: Seq<char>) -> Seq<char> {
    if dir.len() == 0 || dir.last() == '/' {
        dir + "ledger.sqlite"@
    } else {
        dir + "/ledger.sqlite"@
    }
}

/// The workspace database path.
pub fn db_path(dir: &str) -> (r: String)
    ensures
        r@ == db_path_of(dir@),
{
    let c = chars_of(dir);
    let mut s = string_of(c.as_slice());
    if c.len() == 0 || c[c.len() - 1] == '/' {
        push_str(&mut s, "ledger.sqlite");
    } else {
        push_str(&mut s, "/ledger.sqlite");
    }
    s
}

/// Refuses a directory without a workspace database (whether the database
/// exists is read by the caller).
pub fn ensure_workspace(dir: &str, db_exists: bool) -> (r: Result<(), String>)
    ensures
        r is Ok <==> db_exists,
        r matches Err(m) ==> m@ == "no LedgerKit workspace at "@ + dir@ + " — run `ledgerkit init` first"@,
{
    if !db_exists {
        let mut m = string_of(chars_of("no LedgerKit workspace at ").as_slice());
        push_str(&mut m, dir);
        push_str(&mut m, " — run `ledgerkit init` first");
        return Err(m);
    }
    Ok(())
}

/// The account type a command-line word names (ASCII case ignored, plurals accepted).
pub open spec fn cli_type(s: Seq<char>) -> Option<AccountType> {
    let l = ascii_lower(s);
    if l == "asset"@ || l == "assets"@ {
        Some(AccountType::Asset)
    } else if l == "liability"@ || l == "liabilities"@ {
        Some(AccountType::Liability)
    } else if l == "equity"@ {
        Some(AccountType::Equity)
    } else if l == "income"@ {
        Some(AccountType::Income)
    } else if l == "expense"@ || l == "expenses"@ {
        Some(AccountType::Expense)
    } else {
        None
    }
}

fn lower_is(l: &Vec<char>, word: &str) -> (r: bool)
    ensures
        r == (l@ == word@),
{
    let w = chars_of(word);
    seq_eq(l.as_slice(), w.as_slice())
}

/// Reads an account type given on the command line.
pub fn parse_account_type(s: &str) -> (r: Result<AccountType, String>)
    ensures
        match cli_type(s@) {
            Some(t) => r == Ok::<AccountType, String>(t),
            None => r matches Err(m) && m@ == "unknown account type '"@ + ascii_lower(s@)
                + "' (asset|liability|equity|income|expense)"@,
        },
{
    let l = ascii_lower_vec(chars_of(s).as_slice());
    if lower_is(&l, "asset") || lower_is(&l, "assets") {
        Ok(AccountType::Asset)
    } else if lower_is(&l, "liability") || lower_is(&l, "liabilities") {
        Ok(AccountType::Liability)
    } else if lower_is(&l, "equity") {
        Ok(AccountType::Equity)
    } else if lower_is(&l, "income") {
        Ok(AccountType::Income)
    } else if lower_is(&l, "expense") || lower_is(&l, "expenses") {
        Ok(AccountType::Expense)
    } else {
        let mut m = string_of(chars_of("unknown account type '").as_slice());
        push_str(&mut m, string_of(l.as_slice()).as_str());
        push_str(&mut m, "' (asset|liability|equity|income|expense)");
        Err(m)
    }
}

/// The first index of `c` in `s`.
pub open spec fn first_index(s: Seq<char>, c: char) -> Option<int>
    decreases s.len(),
{
    if s.len() == 0 {
        None
    } else if s[0] == c {
        Some(0)
    } else {
        match first_index(s.drop_first(), c) {
            Some(j) => Some(j + 1),
            None => None,
        }
    }
}

/// The last index of `c` in `s`.
pub open spec fn last_index(s: Seq<char>, c: char) -> Option<int>
    decreases s.len(),
{
    if s.len() == 0 {
        None
    } else if s.last() == c {
        Some(s.len() - 1)
    } else {
        last_index(s.drop_last(), c)
    }
}

fn first_index_exec(s: &Vec<char>, c: char) -> (r: Option<usize>)
    ensures
        r is None <==> first_index(s@, c) is None,
        r matches Some(i) ==> first_index(s@, c) == Some(i as int) && i < s.len(),
{
    let mut i: usize = 0;
    assert(s@.skip(0) =~= s@);
    while i < s.len()
        invariant
            i <= s.len(),
            first_index(s@, c) == match first_index(s@.skip(i as int), c) {
                Some(j) => Some(j + i),
                None => None,
            },
        decreases s.len() - i,
    {
        assert(s@.skip(i as int)[0] == s@[i as int]);
        if s[i] == c {
            return Some(i);
        }
        assert(s@.skip(i as int).drop_first() =~= s@.skip(i + 1));
        i = i + 1;
    }
    assert(s@.skip(i as int) =~= Seq::<char>::empty());
    None
}

fn last_index_exec(s: &Vec<char>, c: char) -> (r: Option<usize>)
    ensures
        r is None <==> last_index(s@, c) is None,
        r matches Some(i) ==> last_index(s@, c) == Some(i as int) && i < s.len(),
{
    let mut k: usize = s.len();
    assert(s@.take(k as int) =~= s@);
    while k > 0
        invariant
            k <= s.len(),
            last_index(s@, c) == last_index(s@.take(k as int), c),
        decreases k,
    {
        assert(s@.take(k as int).last() == s@[k - 1]);
        if s[k - 1] == c {
            return Some(k - 1);
        }
        assert(s@.take(k as int).drop_last() =~= s@.take(k - 1));
        k = k - 1;
    }
    None
}

pub open spec fn posting_spec_msg(spec: Seq<char>) -> Seq<char> {
    "invalid posting '"@ + spec + "' (want account=amount:commodity)"@
}

/// What a posting spec `account=amount:commodity` gives: the split at the
/// first `=` and the last `:` after it, then each part trimmed and checked.
pub open spec fn posting_spec_ok(spec: Seq<char>, r: Result<PostingView, Seq<char>>) -> bool {
    match first_index(spec, '=') {
        None => r == Err::<PostingView, Seq<char>>(posting_spec_msg(spec)),
        Some(e) => {
            let acct = spec.take(e);
            let rest = spec.skip(e + 1);
            match last_index(rest, ':') {
                None => r == Err::<PostingView, Seq<char>>(posting_spec_msg(spec)),
                Some(k) => {
                    let amt = trim(rest.take(k));
                    let comm = trim(rest.skip(k + 1));
                    if !account_name_ok(account_name(trim(acct))) {
                        r == Err::<PostingView, Seq<char>>("invalid account name: "@ + account_name(trim(acct)))
                    } else {
                        match decimal_parse(amount_cleaned(amt)) {
                            Err(m) => r == Err::<PostingView, Seq<char>>("invalid money amount: "@ + amt + ": "@ + m),
                            Ok(v) => if !commodity_code_ok(commodity_code(comm)) {
                                r == Err::<PostingView, Seq<char>>("invalid money amount: "@ + "invalid commodity code: "@
                                    + debug_str(commodity_code(comm)))
                            } else {
                                r == Ok::<PostingView, Seq<char>>(PostingView {
                                    account: account_name(trim(acct)),
                                    amount: v,
                                    commodity: commodity_code(comm),
                                    memo: None,
                                })
                            },
                        }
                    }
                },
            }
        },
    }
}

pub open spec fn posting_res_view(r: Result<Posting, String>) -> Result<PostingView, Seq<char>> {
    match r {
        Ok(p) => Ok(p@),
        Err(m) => Err(m@),
    }
}

/// Parses `account=amount:commodity`.
pub fn parse_posting(spec: &str) -> (r: Result<Posting, String>)
    ensures
        posting_spec_ok(spec@, posting_res_view(r)),
{
    let c = chars_of(spec);
    let bad = {
        let mut m = string_of(chars_of("invalid posting '").as_slice());
        push_str(&mut m, spec);
        push_str(&mut m, "' (want account=amount:commodity)");
        m
    };
    let e = match first_index_exec(&c, '=') {
        Some(e) => e,
        None => {
            return Err(bad);
        },
    };
    let mut acct: Vec<char> = Vec::new();
    let mut rest: Vec<char> = Vec::new();
    let mut i: usize = 0;
    while i < c.len()
        invariant
            i <= c.len(),
            e < c.len(),
            i <= e ==> acct@ == c@.take(i as int) && rest@.len() == 0,
            i > e ==> acct@ == c@.take(e as int) && rest@ == c@.subrange(e + 1, i as int),
        decreases c.len() - i,
    {
        if i < e {
            acct.push(c[i]);
            assert(acct@ =~= c@.take(i + 1));
        } else if i > e {
            rest.push(c[i]);
            assert(rest@ =~= c@.subrange(e + 1, i + 1));
        } else {
            assert(rest@ =~= c@.subrange(e + 1, i + 1));
        }
        i = i + 1;
    }
    assert(rest@ =~= c@.skip(e + 1));
    let k = match last_index_exec(&rest, ':') {
        Some(k) => k,
        None => {
            return Err(bad);
        },
    };
    let mut amt: Vec<char> = Vec::new();
    let mut comm: Vec<char> = Vec::new();
    let mut j: usize = 0;
    while j < rest.len()
        invariant
            j <= rest.len(),
            k < rest.len(),
            j <= k ==> amt@ == rest@.take(j as int) && comm@.len() == 0,
            j > k ==> amt@ == rest@.take(k as int) && comm@ == rest@.subrange(k + 1, j as int),
        decreases rest.len() - j,
    {
        if j < k {
            amt.push(rest[j]);
            assert(amt@ =~= rest@.take(j + 1));
        } else if j > k {
            comm.push(rest[j]);
            assert(comm@ =~= rest@.subrange(k + 1, j + 1));
        } else {
            assert(comm@ =~= rest@.subrange(k + 1, j + 1));
        }
        j = j + 1;
    }
    assert(comm@ =~= rest@.skip(k + 1));
    let acct_s = string_of(trim_chars(acct.as_slice()).as_slice());
    let amt_s = string_of(trim_chars(amt.as_slice()).as_slice());
    let comm_s = string_of(trim_chars(comm.as_slice()).as_slice());
    let account = match AccountId::new(acct_s.as_str()) {
        Ok(a) => a,
        Err(err) => {
            return Err(err.message());
        },
    };
    let amount = match Amount::parse(amt_s.as_str()) {
        Ok(a) => a,
        Err(err) => {
            let m = err.message();
            proof {
                if let Err(pm) = decimal_parse(amount_cleaned(amt_s@)) {
                    assert(m@ =~= "invalid money amount: "@ + amt_s@ + ": "@ + pm);
                }
            }
            return Err(m);
        },
    };
    let commodity = match Commodity::new(comm_s.as_str()) {
        Ok(cm) => cm,
        Err(err) => {
            let m = err.message();
            assert(m@ =~= "invalid money amount: "@ + "invalid commodity code: "@ + debug_str(commodity_code(comm_s@)));
            return Err(m);
        },
    };
    Ok(Posting::new(account, amount, commodity))
}

} // verus!
