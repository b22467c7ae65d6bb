//! SHA-256 content hashes.
use vstd::prelude::*;

use crate::text::{chars_of, push_char, str_eq, string_of};

verus! {

/// What SHA-256 (the `sha2` crate) digests `data` to.
pub uninterp spec fn sha256_digest(data: Seq<u8>) -> Seq<u8>;

pub open spec fn hex_char(n: nat) -> char {
    if n < 10 {
        (n + 48) as char
    } else {
        (n + 87) as char
    }
}

/// Lower-case hexadecimal, two digits per byte.
pub open spec fn hex_lower(data: Seq<u8>) -> Seq<char>
    decreases data.len(),
{
    if data.len() == 0 {
        Seq::empty()
    } else {
        hex_lower(data.drop_last()) + seq![
            hex_char((data.last() / 16) as nat),
            hex_char((data.last() % 16) as nat),
        ]
    }
}

/// Two hexadecimal digits per byte.
pub proof fn lemma_hex_lower_len(data: Seq<u8>)
    ensures
        hex_lower(data).len() == 2 * data.len(),
    decreases data.len(),
{
    if data.len() > 0 {
        lemma_hex_lower_len(data.drop_last());
    }
}

#[verifier::external_body]
/// `sha2::Sha256::digest`: a 32-byte digest, named `sha256_digest`.
pub(crate) fn sha256(data: &[u8]) -> (r: Vec<u8>)
    ensures
        r@ == sha256_digest(data@),
        r@.len() == 32,
{
    <sha2::Sha256 as sha2::Digest>::digest(data).to_vec()
}

#[verifier::external_body]
/// `hex::encode`: two lower-case hexadecimal digits per byte.
pub(crate) fn hex_encode(data: &[u8]) -> (r: String)
    ensures
        r@ == hex_lower(data@),
{
    hex::encode(data)
}

#[derive(Clone, Debug)]
/// SHA-256 content hash (lower-case hex) used for artifacts and ledger snapshots.
pub struct ContentHash {
    hex: String,
}

impl View for ContentHash {
    type V = Seq<char>;

    closed spec fn view(&self) -> Seq<char> {
        self.hex@
    }
}

pub open spec fn zeros(n: nat) -> Seq<char> {
    Seq::new(n, |i: int| '0')
}

impl ContentHash {
    pub fn sha256_bytes(bytes: &[u8]) -> (r: ContentHash)
        ensures
            r@ == hex_lower(sha256_digest(bytes@)),
            r@.len() == 64,
    {
        let d = sha256(bytes);
        proof {
            lemma_hex_lower_len(d@);
        }
        ContentHash { hex: hex_encode(d.as_slice()) }
    }

    pub fn sha256_str(s: &str) -> (r: ContentHash)
        ensures
            r@ == hex_lower(sha256_digest(vstd::utf8::encode_utf8(s@))),
            r@.len() == 64,
    {
        Self::sha256_bytes(s.as_bytes())
    }

    /// The genesis hash: 64 zeros.
    pub fn zero() -> (r: ContentHash)
        ensures
            r@ == zeros(64),
    {
        let mut s = string_of(chars_of("").as_slice());
        let mut i: usize = 0;
        proof {
            reveal_strlit("");
        }
        while i < 64
            invariant
                i <= 64,
                s@ == zeros(i as nat),
            decreases 64 - i,
        {
            push_char(&mut s, '0');
            i = i + 1;
            assert(s@ =~= zeros(i as nat));
        }
        ContentHash { hex: s }
    }

    /// Wraps a stored hex string.
    pub fn from_hex(hex: String) -> (r: ContentHash)
        ensures
            r@ == hex@,
    {
        ContentHash { hex }
    }

    pub fn as_str(&self) -> (r: &str)
        ensures
            r@ == self@,
    {
        self.hex.as_str()
    }

    /// The hex text as an owned `String` (what `Display` writes).
    pub fn to_string(&self) -> (r: String)
        ensures
            r@ == self@,
    {
        self.hex.clone()
    }

    pub fn same(&self, other: &ContentHash) -> (r: bool)
        ensures
            r == (self@ == other@),
    {
        str_eq(self.hex.as_str(), other.hex.as_str())
    }

    pub fn duplicate(&self) -> (r: ContentHash)
        ensures
            r@ == self@,
    {
        ContentHash { hex: self.hex.clone() }
    }
}

} // verus!
