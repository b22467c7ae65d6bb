//! Identifiers (UUIDs held as their 128-bit value).
use vstd::prelude::*;

use crate::hash::{sha256, sha256_digest};
use crate::text::{chars_of, string_of, trim_str};

verus! {

pub open spec fn hex_digit(n: nat) -> char {
    if n < 10 {
        (n + 48) as char
    } else {
        (n + 87) as char
    }
}

/// The low `n` hexadecimal digits of `v`, most significant first.
pub open spec fn hex_fixed(v: nat, n: nat) -> Seq<char>
    decreases n,
{
    if n == 0 {
        Seq::empty()
    } else {
        hex_fixed(v / 16, (n - 1) as nat).push(hex_digit(v % 16))
    }
}

/// The hyphenated lower-case form `xxxxxxxx-xxxx-xxxx-xxxx-xxxxxxxxxxxx`.
pub open spec fn uuid_str(v: u128) -> Seq<char> {
    let h = hex_fixed(v as nat, 32);
    h.subrange(0, 8) + seq!['-'] + h.subrange(8, 12) + seq!['-'] + h.subrange(12, 16) + seq!['-']
        + h.subrange(16, 20) + seq!['-'] + h.subrange(20, 32)
}

/// What `Uuid::parse_str` returns: the value, or the message of its error.
pub uninterp spec fn uuid_parse(s: Seq<char>) -> Result<u128, Seq<char>>;

/// An RFC 9562 version-7 UUID: version nibble 7, variant bits `10`.
pub open spec fn is_v7(v: u128) -> bool {
    (v >> 76u128) & 0xfu128 == 7u128 && (v >> 62u128) & 0x3u128 == 2u128
}

#[verifier::external_body]
/// `Uuid::now_v7`: a version-7 UUID (version nibble 7, RFC 4122 variant);
/// its timestamp and random bits are the clock's and the generator's, and
/// nothing more is promised of them.
pub(crate) fn uuid_now_v7() -> (r: u128)
    ensures
        is_v7(r),
{
    uuid::Uuid::now_v7().as_u128()
}

#[verifier::external_body]
/// `Display` for `Uuid`: hyphenated lower-case hexadecimal.
pub(crate) fn uuid_to_string(v: u128) -> (r: String)
    ensures
        r@ == uuid_str(v),
{
    uuid::Uuid::from_u128(v).to_string()
}

#[verifier::external_body]
/// `Uuid::parse_str`, named `uuid_parse` (the error by its `Display` message).
fn uuid_parse_str(s: &str) -> (r: Result<u128, String>)
    ensures
        res_u128(r) == uuid_parse(s@),
{
    match uuid::Uuid::parse_str(s) {
        Ok(u) => Ok(u.as_u128()),
        Err(e) => Err(e.to_string()),
    }
}

pub open spec fn res_u128(r: Result<u128, String>) -> Result<u128, Seq<char>> {
    match r {
        Ok(v) => Ok(v),
        Err(m) => Err(m@),
    }
}

#[derive(Clone, Debug)]
/// Why an id string was refused.
pub struct IdParseError {
    pub message: String,
}

/// Parses a trimmed UUID string.
fn parse_u128(s: &str) -> (r: Result<u128, IdParseError>)
    ensures
        uuid_parse(trim_seq(s@)) matches Ok(v) ==> r == Ok::<u128, IdParseError>(v),
        uuid_parse(trim_seq(s@)) matches Err(m) ==> (r matches Err(e) && e.message@ == m),
{
    let t = trim_str(s);
    let ts = string_of(t.as_slice());
    match uuid_parse_str(ts.as_str()) {
        Ok(v) => Ok(v),
        Err(m) => Err(IdParseError { message: m }),
    }
}

pub open spec fn trim_seq(s: Seq<char>) -> Seq<char> {
    crate::text::trim(s)
}

/// Big-endian value of a byte sequence.
pub open spec fn be_value(b: Seq<u8>) -> nat
    decreases b.len(),
{
    if b.len() == 0 {
        0
    } else {
        be_value(b.drop_last()) * 256 + b.last() as nat
    }
}

/// The bytes `from_fingerprint` keeps: the first 16 digest bytes with the
/// UUID version (8) and variant bits set.
pub open spec fn fingerprint_bytes(d: Seq<u8>) -> Seq<u8> {
    d.take(16).update(6, (d[6] & 0x0f) | 0x80).update(8, (d[8] & 0x3f) | 0x80)
}

/// The id derived from an import fingerprint.
pub open spec fn fingerprint_id(fp: Seq<char>) -> u128 {
    be_value(fingerprint_bytes(sha256_digest(vstd::utf8::encode_utf8(fp)))) as u128
}

pub open spec fn pow256(n: nat) -> nat
    decreases n,
{
    if n == 0 {
        1
    } else {
        256 * pow256((n - 1) as nat)
    }
}

pub proof fn lemma_be_value_bound(b: Seq<u8>)
    ensures
        be_value(b) < pow256(b.len()),
    decreases b.len(),
{
    if b.len() > 0 {
        lemma_be_value_bound(b.drop_last());
        let p = pow256((b.len() - 1) as nat);
        assert(be_value(b.drop_last()) * 256 + 255 < p * 256) by (nonlinear_arith)
            requires
                be_value(b.drop_last()) < p,
        ;
    }
}

proof fn lemma_pow256_15()
    ensures
        pow256(15) == 1329227995784915872903807060280344576,
{
    assert(pow256(0) == 1);
    assert(pow256(1) == 256);
    assert(pow256(2) == 65536);
    assert(pow256(3) == 16777216);
    assert(pow256(4) == 4294967296);
    assert(pow256(5) == 1099511627776);
    assert(pow256(6) == 281474976710656);
    assert(pow256(7) == 72057594037927936);
    assert(pow256(8) == 18446744073709551616);
    assert(pow256(9) == 4722366482869645213696);
    assert(pow256(10) == 1208925819614629174706176);
    assert(pow256(11) == 309485009821345068724781056);
    assert(pow256(12) == 79228162514264337593543950336);
    assert(pow256(13) == 20282409603651670423947251286016);
    assert(pow256(14) == 5192296858534827628530496329220096);
    assert(pow256(15) == 1329227995784915872903807060280344576);
}

proof fn lemma_pow256_mono(i: nat, j: nat)
    requires
        i <= j,
    ensures
        pow256(i) <= pow256(j),
    decreases j,
{
    if i < j {
        lemma_pow256_mono(i, (j - 1) as nat);
    }
}

#[derive(Clone, Copy, PartialEq, Eq, Structural, Debug, Hash)]
pub struct TransactionId(pub u128);

impl TransactionId {
    /// A fresh time-ordered random id.
    pub fn new() -> (r: TransactionId)
        ensures
            is_v7(r.0),
    {
        TransactionId(uuid_now_v7())
    }

    pub fn from_uuid(id: u128) -> (r: TransactionId)
        ensures
            r.0 == id,
    {
        TransactionId(id)
    }

    pub fn parse(s: &str) -> (r: Result<TransactionId, IdParseError>)
        ensures
            uuid_parse(trim_seq(s@)) matches Ok(v) ==> r == Ok::<TransactionId, IdParseError>(
                TransactionId(v),
            ),
            uuid_parse(trim_seq(s@)) matches Err(m) ==> (r matches Err(e) && e.message@ == m),
    {
        match parse_u128(s) {
            Ok(v) => Ok(TransactionId(v)),
            Err(e) => Err(e),
        }
    }

    pub fn to_string(&self) -> (r: String)
        ensures
            r@ == uuid_str(self.0),
    {
        uuid_to_string(self.0)
    }

    /// Deterministic id: first 16 bytes of SHA-256(`fingerprint`), UUID version 8.
    pub fn from_fingerprint(fingerprint: &str) -> (r: TransactionId)
        ensures
            r.0 == fingerprint_id(fingerprint@),
    {
        let digest = sha256(fingerprint.as_bytes());
        let mut v: u128 = 0;
        let mut i: usize = 0;
        let ghost bytes = fingerprint_bytes(digest@);
        while i < 16
            invariant
                i <= 16,
                digest@.len() == 32,
                bytes == fingerprint_bytes(digest@),
                v as nat == be_value(bytes.take(i as int)),
            decreases 16 - i,
        {
            let b: u8 = if i == 6 {
                (digest[6] & 0x0f) | 0x80
            } else if i == 8 {
                (digest[8] & 0x3f) | 0x80
            } else {
                digest[i]
            };
            assert(b == bytes[i as int]);
            proof {
                lemma_be_value_bound(bytes.take(i as int));
                lemma_pow256_mono(i as nat, 15);
                assert(bytes.take(i + 1).drop_last() =~= bytes.take(i as int));
                let p15 = pow256(15);
                lemma_pow256_15();
                assert(v as nat * 256 + b as nat <= u128::MAX) by (nonlinear_arith)
                    requires
                        v < p15,
                        p15 == 1329227995784915872903807060280344576,
                ;
            }
            v = v * 256 + b as u128;
            i = i + 1;
        }
        assert(bytes.take(16) =~= bytes);
        TransactionId(v)
    }
}

#[derive(Clone, Copy, PartialEq, Eq, Structural, Debug, Hash)]
pub struct MerchantId(pub u128);

impl MerchantId {
    pub fn new() -> (r: MerchantId)
        ensures
            is_v7(r.0),
    {
        MerchantId(uuid_now_v7())
    }

    pub fn from_uuid(id: u128) -> (r: MerchantId)
        ensures
            r.0 == id,
    {
        MerchantId(id)
    }

    pub fn parse(s: &str) -> (r: Result<MerchantId, IdParseError>)
        ensures
            uuid_parse(trim_seq(s@)) matches Ok(v) ==> r == Ok::<MerchantId, IdParseError>(
                MerchantId(v),
            ),
            uuid_parse(trim_seq(s@)) matches Err(m) ==> (r matches Err(e) && e.message@ == m),
    {
        match parse_u128(s) {
            Ok(v) => Ok(MerchantId(v)),
            Err(e) => Err(e),
        }
    }

    pub fn to_string(&self) -> (r: String)
        ensures
            r@ == uuid_str(self.0),
    {
        uuid_to_string(self.0)
    }
}

#[derive(Clone, Copy, PartialEq, Eq, Structural, Debug, Hash)]
pub struct CategoryId(pub u128);

impl CategoryId {
    pub fn new() -> (r: CategoryId)
        ensures
            is_v7(r.0),
    {
        CategoryId(uuid_now_v7())
    }

    pub fn from_uuid(id: u128) -> (r: CategoryId)
        ensures
            r.0 == id,
    {
        CategoryId(id)
    }

    pub fn parse(s: &str) -> (r: Result<CategoryId, IdParseError>)
        ensures
            uuid_parse(trim_seq(s@)) matches Ok(v) ==> r == Ok::<CategoryId, IdParseError>(
                CategoryId(v),
            ),
            uuid_parse(trim_seq(s@)) matches Err(m) ==> (r matches Err(e) && e.message@ == m),
    {
        match parse_u128(s) {
            Ok(v) => Ok(CategoryId(v)),
            Err(e) => Err(e),
        }
    }

    pub fn to_string(&self) -> (r: String)
        ensures
            r@ == uuid_str(self.0),
    {
        uuid_to_string(self.0)
    }
}

#[derive(Clone, Copy, PartialEq, Eq, Structural, Debug, Hash)]
pub struct ImportBatchId(pub u128);

impl ImportBatchId {
    pub fn new() -> (r: ImportBatchId)
        ensures
            is_v7(r.0),
    {
        ImportBatchId(uuid_now_v7())
    }

    pub fn from_uuid(id: u128) -> (r: ImportBatchId)
        ensures
            r.0 == id,
    {
        ImportBatchId(id)
    }

    pub fn parse(s: &str) -> (r: Result<ImportBatchId, IdParseError>)
        ensures
            uuid_parse(trim_seq(s@)) matches Ok(v) ==> r == Ok::<ImportBatchId, IdParseError>(
                ImportBatchId(v),
            ),
            uuid_parse(trim_seq(s@)) matches Err(m) ==> (r matches Err(e) && e.message@ == m),
    {
        match parse_u128(s) {
            Ok(v) => Ok(ImportBatchId(v)),
            Err(e) => Err(e),
        }
    }

    pub fn to_string(&self) -> (r: String)
        ensures
            r@ == uuid_str(self.0),
    {
        uuid_to_string(self.0)
    }
}

} // verus!
