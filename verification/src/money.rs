//! Commodities and exact decimal amounts (never floating point).
use rust_decimal::Decimal;
use vstd::prelude::*;

use crate::error::CoreError;
use crate::text::{
    all_ascii, ascii_upper, chars_of, str_eq, utf8_len_capped, digits, push_str, string_of, trim, trim_str, zero_pad,
};

verus! {

#[derive(Debug)]
/// ISO-ish commodity/currency code (e.g. INR, USD). Never empty, at most 16 bytes.
pub struct Commodity {
    code: String,
}

pub open spec fn commodity_code_ok(code: Seq<char>) -> bool {
    code.len() > 0 && vstd::utf8::encode_utf8(code).len() <= 16
}

/// The code a raw commodity string normalises to: trimmed, then upper-cased.
pub open spec fn commodity_code(raw: Seq<char>) -> Seq<char> {
    unicode_upper(trim(raw))
}

impl View for Commodity {
    type V = Seq<char>;

    closed spec fn view(&self) -> Seq<char> {
        self.code@
    }
}

impl Commodity {
    #[verifier::type_invariant]
    spec fn inv(self) -> bool {
        commodity_code_ok(self.code@)
    }

    /// Trims and upper-cases `code`; refuses an empty code or one over 16 bytes.
    pub fn new(code: &str) -> (r: Result<Commodity, CoreError>)
        ensures
            commodity_code_ok(commodity_code(code@)) ==> (r matches Ok(c) && c@ == commodity_code(
                code@,
            )),
            !commodity_code_ok(commodity_code(code@)) ==> (r matches Err(e) && e matches CoreError::InvalidAmount(m)
                && m@ == "invalid commodity code: "@ + debug_str(commodity_code(code@))),
            all_ascii(trim(code@)) ==> commodity_code(code@) == ascii_upper(trim(code@)),
    {
        let trimmed = trim_str(code);
        let t = string_of(trimmed.as_slice());
        let upper = to_uppercase(t.as_str());
        let uc = chars_of(upper.as_str());
        let n = utf8_len_capped(uc.as_slice(), 16);
        if uc.len() == 0 || n > 16 {
            let mut msg = string_of(chars_of("invalid commodity code: ").as_slice());
            let d = debug_string(upper.as_str());
            push_str(&mut msg, d.as_str());
            return Err(CoreError::InvalidAmount(msg));
        }
        Ok(Commodity { code: upper })
    }

    pub fn as_str(&self) -> (r: &str)
        ensures
            r@ == self@,
    {
        self.code.as_str()
    }

    /// The code as an owned `String` (what `Display` writes).
    pub fn to_string(&self) -> (r: String)
        ensures
            r@ == self@,
    {
        self.code.clone()
    }

    /// Whether two commodities have the same code.
    pub fn same(&self, other: &Commodity) -> (r: bool)
        ensures
            r == (self@ == other@),
    {
        str_eq(self.code.as_str(), other.code.as_str())
    }

    pub fn duplicate(&self) -> (r: Commodity)
        ensures
            r@ == self@,
    {
        proof {
            use_type_invariant(self);
        }
        Commodity { code: self.code.clone() }
    }

    /// Every commodity's code is non-empty and at most 16 bytes.
    pub fn check_valid(&self)
        ensures
            commodity_code_ok(self@),
    {
        proof {
            use_type_invariant(self);
        }
    }
}

/// What `str::to_uppercase` returns (full Unicode case mapping).
pub uninterp spec fn unicode_upper(s: Seq<char>) -> Seq<char>;

/// What the `Debug` formatting of a `str` writes (quoted and escaped).
pub uninterp spec fn debug_str(s: Seq<char>) -> Seq<char>;

#[verifier::external_body]
/// `str::to_uppercase`. Its result is named `unicode_upper`; on ASCII text it
/// upper-cases `a`..=`z` and leaves every other character alone.
pub(crate) fn to_uppercase(s: &str) -> (r: String)
    ensures
        r@ == unicode_upper(s@),
        all_ascii(s@) ==> r@ == ascii_upper(s@),
{
    s.to_uppercase()
}

#[verifier::external_body]
/// The `Debug` formatting of a `str`, named `debug_str`.
pub(crate) fn debug_string(s: &str) -> (r: String)
    ensures
        r@ == debug_str(s@),
{
    format!("{:?}", s)
}

/// An exact decimal value as `rust_decimal` holds it: sign, 96-bit magnitude
/// (`units`) and scale (number of fractional digits, at most 28).
pub struct DecimalValue {
    pub neg: bool,
    pub units: nat,
    pub scale: nat,
}

pub open spec fn pow10(n: nat) -> nat
    decreases n,
{
    if n == 0 {
        1
    } else {
        10 * pow10((n - 1) as nat)
    }
}

pub open spec fn units_limit() -> nat {
    0x1_0000_0000_0000_0000_0000_0000
}

pub open spec fn dec_wf(v: DecimalValue) -> bool {
    v.scale <= 28 && v.units < units_limit()
}

/// The number a decimal denotes, counted in units of 10^-28.
pub open spec fn dec_value(v: DecimalValue) -> int {
    let m = (v.units * pow10((28 - v.scale) as nat)) as int;
    if v.neg {
        -m
    } else {
        m
    }
}

pub open spec fn dec_is_zero(v: DecimalValue) -> bool {
    v.units == 0
}

pub open spec fn max_nat(a: nat, b: nat) -> nat {
    if a >= b {
        a
    } else {
        b
    }
}

/// The exact sum of `a` and `b` is representable at the larger of their scales.
pub open spec fn dec_sum_fits(a: DecimalValue, b: DecimalValue) -> bool {
    let s = dec_value(a) + dec_value(b);
    let q = pow10((28 - max_nat(a.scale, b.scale)) as nat) as int;
    -(units_limit() as int) * q < s < (units_limit() as int) * q
}

/// What `Decimal::checked_add` returns.
pub uninterp spec fn decimal_checked_add(a: DecimalValue, b: DecimalValue) -> Option<
    DecimalValue,
>;

/// What `Decimal::checked_sub` returns.
pub uninterp spec fn decimal_checked_sub(a: DecimalValue, b: DecimalValue) -> Option<
    DecimalValue,
>;

/// What `Decimal::from_str` returns on a string: the value, or the message of its error.
pub uninterp spec fn decimal_parse(s: Seq<char>) -> Result<DecimalValue, Seq<char>>;

/// `v` negated by `checked_mul(Decimal::NEGATIVE_ONE)`: a zero comes back as plain zero.
pub open spec fn dec_negated(v: DecimalValue) -> DecimalValue {
    if v.units == 0 {
        DecimalValue { neg: false, units: 0, scale: 0 }
    } else {
        DecimalValue { neg: !v.neg, units: v.units, scale: v.scale }
    }
}

/// `Decimal::normalize`: trailing fractional zeros removed, zero made positive with scale 0.
pub open spec fn dec_normalized(v: DecimalValue) -> DecimalValue
    decreases v.scale,
{
    if v.units == 0 {
        DecimalValue { neg: false, units: 0, scale: 0 }
    } else if v.scale > 0 && v.units % 10 == 0 {
        dec_normalized(DecimalValue { neg: v.neg, units: v.units / 10, scale: (v.scale - 1) as nat })
    } else {
        v
    }
}

/// What `Display` writes for a decimal: sign, integer digits (at least one),
/// then `.` and exactly `scale` fractional digits when the scale is positive.
pub open spec fn dec_str(v: DecimalValue) -> Seq<char> {
    let d = zero_pad(digits(v.units), v.scale);
    let w = d.len() - v.scale;
    let whole = d.take(w);
    let frac = d.skip(w);
    (if v.neg {
        seq!['-']
    } else {
        Seq::empty()
    }) + (if whole.len() == 0 {
        seq!['0']
    } else {
        whole
    }) + (if v.scale > 0 {
        seq!['.'] + frac
    } else {
        Seq::empty()
    })
}

/// Signed amount with exact decimal arithmetic (`rust_decimal` underneath).
#[derive(Clone, Copy, Debug)]
pub struct Amount {
    lo: u32,
    mid: u32,
    hi: u32,
    negative: bool,
    scale: u32,
}

impl View for Amount {
    type V = DecimalValue;

    closed spec fn view(&self) -> DecimalValue {
        DecimalValue {
            neg: self.negative,
            units: self.lo as nat + self.mid as nat * 0x1_0000_0000 + self.hi as nat
                * 0x1_0000_0000_0000_0000,
            scale: self.scale as nat,
        }
    }
}

pub open spec fn res_dec(r: Result<Amount, String>) -> Result<DecimalValue, Seq<char>> {
    match r {
        Ok(a) => Ok(a@),
        Err(m) => Err(m@),
    }
}

pub open spec fn opt_dec(o: Option<Amount>) -> Option<DecimalValue> {
    match o {
        Some(a) => Some(a@),
        None => None,
    }
}

#[verifier::external_body]
/// `Decimal::checked_add`. Named `decimal_checked_add`; when the exact sum fits
/// at the larger scale it is returned exactly, at a scale no larger than that,
/// and adding zero on either side hands back the other operand unchanged.
fn decimal_add(a: Amount, b: Amount) -> (r: Option<Amount>)
    ensures
        opt_dec(r) == decimal_checked_add(a@, b@),
        dec_sum_fits(a@, b@) ==> r.is_some() && dec_value(r.unwrap()@) == dec_value(a@)
            + dec_value(b@) && r.unwrap()@.scale <= max_nat(a@.scale, b@.scale),
        a@.units == 0 ==> r == Some(b),
        a@.units != 0 && b@.units == 0 ==> r == Some(a),
{
    let mut x = Decimal::from_parts(a.lo, a.mid, a.hi, a.negative, a.scale);
    x.set_sign_negative(a.negative);
    let mut y = Decimal::from_parts(b.lo, b.mid, b.hi, b.negative, b.scale);
    y.set_sign_negative(b.negative);
    match x.checked_add(y) {
        Some(d) => Some(Amount { lo: d.unpack().lo, mid: d.unpack().mid, hi: d.unpack().hi, negative: d.unpack().negative, scale: d.unpack().scale }),
        None => None,
    }
}

#[verifier::external_body]
/// `Decimal::checked_sub`. Named `decimal_checked_sub`; exact when the exact
/// difference fits at the larger scale; subtracting zero hands back the left operand.
fn decimal_sub(a: Amount, b: Amount) -> (r: Option<Amount>)
    ensures
        opt_dec(r) == decimal_checked_sub(a@, b@),
        dec_sum_fits(a@, dec_negated(b@)) ==> r.is_some() && dec_value(r.unwrap()@) == dec_value(
            a@) - dec_value(b@),
        a@.units != 0 && b@.units == 0 ==> r == Some(a),
{
    let mut x = Decimal::from_parts(a.lo, a.mid, a.hi, a.negative, a.scale);
    x.set_sign_negative(a.negative);
    let mut y = Decimal::from_parts(b.lo, b.mid, b.hi, b.negative, b.scale);
    y.set_sign_negative(b.negative);
    match x.checked_sub(y) {
        Some(d) => Some(Amount { lo: d.unpack().lo, mid: d.unpack().mid, hi: d.unpack().hi, negative: d.unpack().negative, scale: d.unpack().scale }),
        None => None,
    }
}

#[verifier::external_body]
/// `Decimal::checked_mul` by `Decimal::NEGATIVE_ONE`: always succeeds, flips the sign
/// of a non-zero value and keeps its digits and scale; zero comes back as plain zero.
fn decimal_negate(a: Amount) -> (r: Option<Amount>)
    ensures
        r.is_some(),
        r.unwrap()@ == dec_negated(a@),
{
    let mut x = Decimal::from_parts(a.lo, a.mid, a.hi, a.negative, a.scale);
    x.set_sign_negative(a.negative);
    match x.checked_mul(Decimal::NEGATIVE_ONE) {
        Some(d) => Some(Amount { lo: d.unpack().lo, mid: d.unpack().mid, hi: d.unpack().hi, negative: d.unpack().negative, scale: d.unpack().scale }),
        None => None,
    }
}

#[verifier::external_body]
/// `Decimal::normalize`: strips trailing fractional zeros and turns -0 into 0.
fn decimal_normalize(a: Amount) -> (r: Amount)
    ensures
        r@ == dec_normalized(a@),
{
    let mut x = Decimal::from_parts(a.lo, a.mid, a.hi, a.negative, a.scale);
    x.set_sign_negative(a.negative);
    let d = x.normalize();
    Amount { lo: d.unpack().lo, mid: d.unpack().mid, hi: d.unpack().hi, negative: d.unpack().negative, scale: d.unpack().scale }
}

#[verifier::external_body]
/// `Decimal::abs`: clears the sign, keeps digits and scale.
fn decimal_abs(a: Amount) -> (r: Amount)
    ensures
        r@ == (DecimalValue { neg: false, units: a@.units, scale: a@.scale }),
{
    let mut x = Decimal::from_parts(a.lo, a.mid, a.hi, a.negative, a.scale);
    x.set_sign_negative(a.negative);
    let d = x.abs();
    Amount { lo: d.unpack().lo, mid: d.unpack().mid, hi: d.unpack().hi, negative: d.unpack().negative, scale: d.unpack().scale }
}

#[verifier::external_body]
/// `<` on `Decimal`, which orders by numeric value.
fn decimal_lt(a: Amount, b: Amount) -> (r: bool)
    ensures
        r == (dec_value(a@) < dec_value(b@)),
{
    let mut x = Decimal::from_parts(a.lo, a.mid, a.hi, a.negative, a.scale);
    x.set_sign_negative(a.negative);
    let mut y = Decimal::from_parts(b.lo, b.mid, b.hi, b.negative, b.scale);
    y.set_sign_negative(b.negative);
    x < y
}

#[verifier::external_body]
/// `Decimal::from_str`, named `decimal_parse` (the error by its `Display` message).
fn decimal_from_str(s: &str) -> (r: Result<Amount, String>)
    ensures
        res_dec(r) == decimal_parse(s@),
{
    match <Decimal as std::str::FromStr>::from_str(s) {
        Ok(d) => Ok(Amount { lo: d.unpack().lo, mid: d.unpack().mid, hi: d.unpack().hi, negative: d.unpack().negative, scale: d.unpack().scale }),
        Err(e) => Err(e.to_string()),
    }
}

#[verifier::external_body]
/// `Decimal::new(num, scale)`: `num` scaled down by `scale` digits.
fn decimal_new(num: i64, scale: u32) -> (r: Amount)
    requires
        scale <= 28,
    ensures
        r@ == (DecimalValue {
            neg: num < 0,
            units: (if num < 0 {
                -num
            } else {
                num as int
            }) as nat,
            scale: scale as nat,
        }),
{
    let d = Decimal::new(num, scale);
    Amount { lo: d.unpack().lo, mid: d.unpack().mid, hi: d.unpack().hi, negative: d.unpack().negative, scale: d.unpack().scale }
}

#[verifier::external_body]
/// `Display` for `Decimal`.
fn decimal_to_string(a: Amount) -> (r: String)
    ensures
        r@ == dec_str(a@),
{
    let mut x = Decimal::from_parts(a.lo, a.mid, a.hi, a.negative, a.scale);
    x.set_sign_negative(a.negative);
    x.to_string()
}

impl Amount {
    #[verifier::type_invariant]
    spec fn inv(self) -> bool {
        self.scale <= 28
    }

    /// Every amount's scale is at most 28 and its magnitude fits in 96 bits.
    pub fn check_valid(&self)
        ensures
            dec_wf(self@),
    {
        proof {
            use_type_invariant(self);
        }
    }

    pub fn zero() -> (r: Amount)
        ensures
            r@ == (DecimalValue { neg: false, units: 0, scale: 0 }),
    {
        Amount { lo: 0, mid: 0, hi: 0, negative: false, scale: 0 }
    }

    /// `num` scaled down by `scale` fractional digits (e.g. `new(-650, 2)` is -6.50).
    pub fn new(num: i64, scale: u32) -> (r: Amount)
        requires
            scale <= 28,
        ensures
            r@ == (DecimalValue {
                neg: num < 0,
                units: (if num < 0 {
                    -num
                } else {
                    num as int
                }) as nat,
                scale: scale as nat,
            }),
    {
        decimal_new(num, scale)
    }

    /// Parses `s` after trimming it and removing every `,`.
    pub fn parse(s: &str) -> (r: Result<Amount, CoreError>)
        ensures
            decimal_parse(amount_cleaned(s@)) matches Ok(v) ==> (r matches Ok(a) && a@ == v),
            decimal_parse(amount_cleaned(s@)) matches Err(m) ==> (r matches Err(e)
                && e matches CoreError::InvalidAmount(msg) && msg@ == s@ + ": "@ + m),
    {
        let t = trim_str(s);
        let mut cleaned: Vec<char> = Vec::new();
        let mut i: usize = 0;
        while i < t.len()
            invariant
                i <= t.len(),
                cleaned@ == remove_commas(t@.take(i as int)),
            decreases t.len() - i,
        {
            if t[i] != ',' {
                cleaned.push(t[i]);
            }
            i = i + 1;
            assert(t@.take(i as int).drop_last() =~= t@.take((i - 1) as int));
        }
        assert(t@.take(t.len() as int) =~= t@);
        let cs = string_of(cleaned.as_slice());
        match decimal_from_str(cs.as_str()) {
            Ok(a) => Ok(a),
            Err(e) => {
                let mut msg = string_of(chars_of(s).as_slice());
                push_str(&mut msg, ": ");
                push_str(&mut msg, e.as_str());
                Err(CoreError::InvalidAmount(msg))
            },
        }
    }

    pub fn is_zero(self) -> (r: bool)
        ensures
            r == (self@.units == 0),
    {
        self.lo == 0 && self.mid == 0 && self.hi == 0
    }

    pub fn is_sign_negative(self) -> (r: bool)
        ensures
            r == self@.neg,
    {
        self.negative
    }

    pub fn checked_add(self, other: Amount) -> (r: Option<Amount>)
        ensures
            opt_dec(r) == decimal_checked_add(self@, other@),
            dec_sum_fits(self@, other@) ==> (r matches Some(x) && dec_value(x@) == dec_value(self@)
                + dec_value(other@) && x@.scale <= max_nat(self@.scale, other@.scale)),
            self@.units == 0 ==> r == Some(other),
            self@.units != 0 && other@.units == 0 ==> r == Some(self),
    {
        decimal_add(self, other)
    }

    pub fn checked_neg(self) -> (r: Option<Amount>)
        ensures
            r matches Some(x) && x@ == dec_negated(self@),
    {
        decimal_negate(self)
    }

    pub fn checked_sub(self, other: Amount) -> (r: Option<Amount>)
        ensures
            opt_dec(r) == decimal_checked_sub(self@, other@),
            dec_sum_fits(self@, dec_negated(other@)) ==> (r matches Some(x) && dec_value(x@)
                == dec_value(self@) - dec_value(other@)),
            self@.units != 0 && other@.units == 0 ==> r == Some(self),
    {
        decimal_sub(self, other)
    }

    pub fn abs(self) -> (r: Amount)
        ensures
            r@ == (DecimalValue { neg: false, units: self@.units, scale: self@.scale }),
    {
        decimal_abs(self)
    }

    /// Numeric `<` (so `6.5` and `6.50` are not ordered either way).
    pub fn lt(self, other: Amount) -> (r: bool)
        ensures
            r == (dec_value(self@) < dec_value(other@)),
    {
        decimal_lt(self, other)
    }

    /// The decimal string, e.g. `-6.50`.
    pub fn to_string(self) -> (r: String)
        ensures
            r@ == dec_str(self@),
    {
        decimal_to_string(self)
    }

    /// The decimal string of the normalised value: `42.150` and `42.15` agree.
    pub fn canonical_string(self) -> (r: String)
        ensures
            r@ == dec_str(dec_normalized(self@)),
    {
        decimal_to_string(decimal_normalize(self))
    }
}

/// The string `Amount::parse` hands to the decimal parser.
pub open spec fn amount_cleaned(s: Seq<char>) -> Seq<char> {
    remove_commas(trim(s))
}

pub open spec fn remove_commas(s: Seq<char>) -> Seq<char>
    decreases s.len(),
{
    if s.len() == 0 {
        s
    } else if s.last() == ',' {
        remove_commas(s.drop_last())
    } else {
        remove_commas(s.drop_last()).push(s.last())
    }
}

#[derive(Clone, Debug)]
/// Amount tagged with commodity.
pub struct Money {
    pub amount: Amount,
    pub commodity: Commodity,
}

impl Money {
    pub fn new(amount: Amount, commodity: Commodity) -> (r: Money)
        ensures
            r.amount@ == amount@,
            r.commodity@ == commodity@,
    {
        Money { amount, commodity }
    }
}

/// A zero amount's value is 0, and a value of 0 means zero digits.
pub proof fn lemma_zero_value(v: DecimalValue)
    ensures
        (dec_value(v) == 0) == (v.units == 0),
{
    lemma_pow10_pos((28 - v.scale) as nat);
    if v.units != 0 {
        assert(v.units * pow10((28 - v.scale) as nat) > 0) by (nonlinear_arith)
            requires
                v.units > 0,
                pow10((28 - v.scale) as nat) > 0,
        ;
    }
}

pub proof fn lemma_pow10_mono(a: nat, b: nat)
    requires
        a <= b,
    ensures
        pow10(a) <= pow10(b),
    decreases b,
{
    if a < b {
        lemma_pow10_mono(a, (b - 1) as nat);
    }
}

pub proof fn lemma_pow10_pos(n: nat)
    ensures
        pow10(n) > 0,
    decreases n,
{
    if n > 0 {
        lemma_pow10_pos((n - 1) as nat);
    }
}

proof fn lemma_pow10_add(a: nat, b: nat)
    ensures
        pow10(a + b) == pow10(a) * pow10(b),
    decreases a,
{
    if a > 0 {
        let a1 = (a - 1) as nat;
        lemma_pow10_add(a1, b);
        assert(((a + b) - 1) as nat == a1 + b);
        assert(pow10(a + b) == 10 * pow10(a1 + b));
        assert(pow10(a) == 10 * pow10(a1));
        let p = pow10(a1);
        let q = pow10(b);
        assert(10 * (p * q) == (10 * p) * q) by (nonlinear_arith);
    } else {
        assert(a + b == b);
        assert(pow10(a) == 1);
    }
}

/// Normalising a non-zero decimal keeps its sign and value and leaves no
/// trailing fractional zero.
proof fn lemma_normalized(v: DecimalValue)
    requires
        v.units != 0,
        v.scale <= 28,
    ensures
        dec_normalized(v).units != 0,
        dec_normalized(v).neg == v.neg,
        dec_normalized(v).scale <= v.scale,
        dec_value(dec_normalized(v)) == dec_value(v),
        dec_normalized(v).scale == 0 || dec_normalized(v).units % 10 != 0,
    decreases v.scale,
{
    if v.scale > 0 && v.units % 10 == 0 {
        let w = DecimalValue { neg: v.neg, units: v.units / 10, scale: (v.scale - 1) as nat };
        lemma_normalized(w);
        let k = (28 - v.scale) as nat;
        assert(pow10((28 - w.scale) as nat) == 10 * pow10(k));
        assert((v.units / 10) * (10 * pow10(k)) == v.units * pow10(k)) by (nonlinear_arith)
            requires
                v.units % 10 == 0,
        ;
    }
}

/// A larger scale cannot hold the same magnitude without a trailing zero.
proof fn lemma_scale_gap(x: DecimalValue, y: DecimalValue)
    requires
        x.scale < y.scale <= 28,
        x.units * pow10((28 - x.scale) as nat) == y.units * pow10((28 - y.scale) as nat),
    ensures
        y.units % 10 == 0,
{
    let d = (y.scale - x.scale) as nat;
    let k = (28 - y.scale) as nat;
    lemma_pow10_add(d, k);
    assert((28 - x.scale) as nat == d + k);
    lemma_pow10_pos(k);
    let pd = pow10(d);
    let pk = pow10(k);
    assert(x.units * (pd * pk) == y.units * pk);
    assert(x.units * pd == y.units) by (nonlinear_arith)
        requires
            x.units * (pd * pk) == y.units * pk,
            pk > 0,
    ;
    assert(pd == 10 * pow10((d - 1) as nat));
    assert(y.units == 10 * (x.units * pow10((d - 1) as nat))) by (nonlinear_arith)
        requires
            x.units * pd == y.units,
            pd == 10 * pow10((d - 1) as nat),
    ;
}

/// Decimals of equal value normalise to the same sign, digits and scale, so
/// their canonical strings agree: `42.150` and `42.15` print alike.
pub proof fn law_equal_values_print_alike(a: DecimalValue, b: DecimalValue)
    requires
        dec_wf(a),
        dec_wf(b),
        dec_value(a) == dec_value(b),
    ensures
        dec_normalized(a) == dec_normalized(b),
        dec_str(dec_normalized(a)) == dec_str(dec_normalized(b)),
{
    lemma_zero_value(a);
    lemma_zero_value(b);
    if a.units != 0 {
        lemma_normalized(a);
        lemma_normalized(b);
        let x = dec_normalized(a);
        let y = dec_normalized(b);
        lemma_zero_value(x);
        lemma_zero_value(y);
        let mx = x.units * pow10((28 - x.scale) as nat);
        let my = y.units * pow10((28 - y.scale) as nat);
        assert(mx >= 0 && my >= 0) by (nonlinear_arith);
        assert(x.neg == y.neg && mx == my);
        if x.scale < y.scale {
            lemma_scale_gap(x, y);
        } else if y.scale < x.scale {
            lemma_scale_gap(y, x);
        }
        assert(x.scale == y.scale);
        lemma_pow10_pos((28 - x.scale) as nat);
        assert(x.units == y.units) by (nonlinear_arith)
            requires
                x.units * pow10((28 - x.scale) as nat) == y.units * pow10((28 - y.scale) as nat),
                x.scale == y.scale,
                pow10((28 - x.scale) as nat) > 0,
        ;
    }
}

impl Clone for Commodity {
    fn clone(&self) -> (r: Self)
        ensures
            r@ == self@,
    {
        self.duplicate()
    }
}

} // verus!
