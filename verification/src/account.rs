//! Chart-of-accounts types.
use vstd::prelude::*;

use crate::error::CoreError;
use crate::money::Commodity;
use crate::text::{all_ascii, ascii_lower, ascii_lower_vec, chars_of, is_ascii_alnum, str_eq, string_of, trim, trim_str};

verus! {

#[derive(Clone, Copy, PartialEq, Eq, Structural, Debug, Hash)]
pub enum AccountType {
    Asset,
    Liability,
    Equity,
    Income,
    Expense,
}

/// A character an account name may hold.
pub open spec fn account_char_ok(c: char) -> bool {
    is_ascii_alnum(c) || c == ':' || c == '_' || c == '-'
}

pub open spec fn colon_pair(n: Seq<char>, i: int) -> bool {
    n[i] == ':' && n[i + 1] == ':'
}

pub open spec fn has_double_colon(n: Seq<char>) -> bool {
    exists|i: int| 0 <= i < n.len() - 1 && #[trigger] colon_pair(n, i)
}

/// A well-formed hierarchical name such as `assets:bank:hdfc`.
pub open spec fn account_name_ok(n: Seq<char>) -> bool {
    &&& n.len() > 0
    &&& n[0] != ':'
    &&& n.last() != ':'
    &&& !has_double_colon(n)
    &&& forall|i: int| 0 <= i < n.len() ==> account_char_ok(#[trigger] n[i])
}

/// The name a raw account string normalises to: trimmed, ASCII lower-cased.
pub open spec fn account_name(raw: Seq<char>) -> Seq<char> {
    ascii_lower(trim(raw))
}

#[derive(Debug)]
/// Hierarchical account id, e.g. `assets:bank:hdfc`.
pub struct AccountId {
    name: String,
}

impl View for AccountId {
    type V = Seq<char>;

    closed spec fn view(&self) -> Seq<char> {
        self.name@
    }
}

impl AccountId {
    #[verifier::type_invariant]
    spec fn inv(self) -> bool {
        account_name_ok(self.name@)
    }

    /// Trims and lower-cases `name`; refuses empty names, a leading or trailing
    /// `:`, an empty segment (`::`) and any character but ASCII letters, digits, `:`, `_`, `-`.
    pub fn new(name: &str) -> (r: Result<AccountId, CoreError>)
        ensures
            account_name_ok(account_name(name@)) ==> (r matches Ok(a) && a@ == account_name(
                name@,
            )),
            !account_name_ok(account_name(name@)) ==> (r matches Err(e) && e matches CoreError::InvalidAccount(m)
                && m@ == account_name(name@)),
    {
        let t = trim_str(name);
        let n = ascii_lower_vec(t.as_slice());
        let len = n.len();
        let mut ok = len > 0 && n[0] != ':' && n[len - 1] != ':';
        let mut i: usize = 0;
        while i < len
            invariant
                len == n@.len(),
                i <= len,
                ok ==> (len > 0 && n@[0] != ':' && n@.last() != ':'),
                ok ==> forall|j: int| 0 <= j < i ==> account_char_ok(#[trigger] n@[j]),
                ok ==> forall|j: int| 0 <= j < i && j + 1 < len ==> !#[trigger] colon_pair(n@, j),
                !ok ==> !account_name_ok(n@),
            decreases len - i,
        {
            let c = n[i];
            if !((('0' <= c && c <= '9') || ('a' <= c && c <= 'z') || ('A' <= c && c <= 'Z'))
                || c == ':' || c == '_' || c == '-') {
                ok = false;
            }
            if i + 1 < len && c == ':' && n[i + 1] == ':' {
                assert(colon_pair(n@, i as int));
                ok = false;
            }
            i = i + 1;
        }
        let s = string_of(n.as_slice());
        if ok {
            Ok(AccountId { name: s })
        } else {
            Err(CoreError::InvalidAccount(s))
        }
    }

    pub fn as_str(&self) -> (r: &str)
        ensures
            r@ == self@,
    {
        self.name.as_str()
    }

    /// The name as an owned `String` (what `Display` writes).
    pub fn to_string(&self) -> (r: String)
        ensures
            r@ == self@,
    {
        self.name.clone()
    }

    pub fn same(&self, other: &AccountId) -> (r: bool)
        ensures
            r == (self@ == other@),
    {
        str_eq(self.name.as_str(), other.name.as_str())
    }

    pub fn duplicate(&self) -> (r: AccountId)
        ensures
            r@ == self@,
    {
        proof {
            use_type_invariant(self);
        }
        AccountId { name: self.name.clone() }
    }

    /// Every account id is a well-formed name.
    pub fn check_valid(&self)
        ensures
            account_name_ok(self@),
    {
        proof {
            use_type_invariant(self);
        }
    }
}

#[derive(Clone, Debug)]
pub struct Account {
    pub id: AccountId,
    pub account_type: AccountType,
    pub commodity: Commodity,
    pub name: String,
}

impl Account {
    pub fn new(id: AccountId, account_type: AccountType, commodity: Commodity, name: &str) -> (r:
        Account)
        ensures
            r.id@ == id@,
            r.account_type == account_type,
            r.commodity@ == commodity@,
            r.name@ == name@,
    {
        Account { id, account_type, commodity, name: string_of(chars_of(name).as_slice()) }
    }

    pub fn duplicate(&self) -> (r: Account)
        ensures
            r.id@ == self.id@,
            r.account_type == self.account_type,
            r.commodity@ == self.commodity@,
            r.name@ == self.name@,
    {
        Account {
            id: self.id.duplicate(),
            account_type: self.account_type,
            commodity: self.commodity.duplicate(),
            name: self.name.clone(),
        }
    }
}

pub struct AccountView {
    pub id: Seq<char>,
    pub account_type: AccountType,
    pub commodity: Seq<char>,
    pub name: Seq<char>,
}

impl View for Account {
    type V = AccountView;

    open spec fn view(&self) -> AccountView {
        AccountView {
            id: self.id@,
            account_type: self.account_type,
            commodity: self.commodity@,
            name: self.name@,
        }
    }
}

/// The stored name of an account type.
pub open spec fn type_str(t: AccountType) -> Seq<char> {
    match t {
        AccountType::Asset => "asset"@,
        AccountType::Liability => "liability"@,
        AccountType::Equity => "equity"@,
        AccountType::Income => "income"@,
        AccountType::Expense => "expense"@,
    }
}

/// The stored name of an account type.
pub fn account_type_str(t: AccountType) -> (r: &'static str)
    ensures
        r@ == type_str(t),
{
    match t {
        AccountType::Asset => "asset",
        AccountType::Liability => "liability",
        AccountType::Equity => "equity",
        AccountType::Income => "income",
        AccountType::Expense => "expense",
    }
}

/// The stored names of the account types.
pub open spec fn known_type(s: Seq<char>) -> bool {
    s == "asset"@ || s == "liability"@ || s == "equity"@ || s == "income"@ || s == "expense"@
}

/// Reads a stored account type; any other text is refused.
pub fn parse_account_type(s: &str) -> (r: Result<AccountType, String>)
    ensures
        r matches Ok(t) ==> type_str(t) == s@,
        r is Err <==> !known_type(s@),
        r matches Err(m) ==> m@ == "unknown account type: "@ + s@,
{
    if str_eq(s, "asset") {
        Ok(AccountType::Asset)
    } else if str_eq(s, "liability") {
        Ok(AccountType::Liability)
    } else if str_eq(s, "equity") {
        Ok(AccountType::Equity)
    } else if str_eq(s, "income") {
        Ok(AccountType::Income)
    } else if str_eq(s, "expense") {
        Ok(AccountType::Expense)
    } else {
        let mut m = string_of(chars_of("unknown account type: ").as_slice());
        crate::text::push_str(&mut m, s);
        Err(m)
    }
}

/// Reading back the stored name of an account type gives the same type.
pub proof fn law_account_type_round_trip(t: AccountType, u: AccountType)
    requires
        type_str(u) == type_str(t),
    ensures
        u == t,
{
    reveal_strlit("asset");
    reveal_strlit("liability");
    reveal_strlit("equity");
    reveal_strlit("income");
    reveal_strlit("expense");
    assert(type_str(AccountType::Asset) =~= seq!['a', 's', 's', 'e', 't']);
    assert(type_str(AccountType::Liability) =~= seq!['l', 'i', 'a', 'b', 'i', 'l', 'i', 't', 'y']);
    assert(type_str(AccountType::Equity) =~= seq!['e', 'q', 'u', 'i', 't', 'y']);
    assert(type_str(AccountType::Income) =~= seq!['i', 'n', 'c', 'o', 'm', 'e']);
    assert(type_str(AccountType::Expense) =~= seq!['e', 'x', 'p', 'e', 'n', 's', 'e']);
    assert(type_str(t).len() == type_str(u).len());
    assert(type_str(t)[0] == type_str(u)[0]);
    match t {
        AccountType::Asset => match u { AccountType::Asset => {}, AccountType::Liability => {}, AccountType::Equity => {}, AccountType::Income => {}, AccountType::Expense => {} },
        AccountType::Liability => match u { AccountType::Asset => {}, AccountType::Liability => {}, AccountType::Equity => {}, AccountType::Income => {}, AccountType::Expense => {} },
        AccountType::Equity => match u { AccountType::Asset => {}, AccountType::Liability => {}, AccountType::Equity => {}, AccountType::Income => {}, AccountType::Expense => {} },
        AccountType::Income => match u { AccountType::Asset => {}, AccountType::Liability => {}, AccountType::Equity => {}, AccountType::Income => {}, AccountType::Expense => {} },
        AccountType::Expense => match u { AccountType::Asset => {}, AccountType::Liability => {}, AccountType::Equity => {}, AccountType::Income => {}, AccountType::Expense => {} },
    }
}

impl Clone for AccountId {
    fn clone(&self) -> (r: Self)
        ensures
            r@ == self@,
    {
        self.duplicate()
    }
}

} // verus!
