//! Digests, and texts that spell bytes.

use sha2::Digest;
use subtle::ConstantTimeEq;
use vstd::prelude::*;

verus! {

/// The SHA-256 digest of some bytes.
pub uninterp spec fn sha256(bytes: Seq<u8>) -> Seq<u8>;

/// `sha2::Sha256::digest`: 32 bytes that depend on the given bytes alone. Which ones is named
/// here and not spelled out.
#[verifier::external_body]
fn sha256_digest(bytes: &[u8]) -> (r: Vec<u8>)
    ensures
        r@ == sha256(bytes@),
        r@.len() == 32,
{
    sha2::Sha256::digest(bytes).to_vec()
}

/// The most bytes of which a SHA-256 digest can be made.
pub const MAX_SHA256_BYTES: u64 = 0x1fff_ffff_ffff_ffff;

/// `sha2::Sha256`, which takes in bytes piece by piece.
#[verifier::external_body]
pub struct Sha256Hasher {
    inner: sha2::Sha256,
}

/// The bytes that a `sha2::Sha256` has taken in, in the order in which they came.
pub uninterp spec fn sha256_input(hasher: Sha256Hasher) -> Seq<u8>;

impl Sha256Hasher {
    /// `sha2::Sha256::new`: nothing was taken in.
    #[verifier::external_body]
    pub(crate) fn new() -> (r: Sha256Hasher)
        ensures
            sha256_input(r) == Seq::<u8>::empty(),
    {
        Sha256Hasher { inner: sha2::Sha256::new() }
    }

    /// `sha2::Sha256::update`: the bytes are taken in behind those that came before. How many bits
    /// came in all is counted in 64 bits.
    #[verifier::external_body]
    pub(crate) fn update(&mut self, bytes: &[u8])
        requires
            sha256_input(*old(self)).len() + bytes@.len() <= MAX_SHA256_BYTES,
        ensures
            sha256_input(*final(self)) == sha256_input(*old(self)) + bytes@,
    {
        sha2::Digest::update(&mut self.inner, bytes)
    }

    /// `sha2::Sha256::finalize`: the digest of everything that was taken in, the same as
    /// `sha2::Sha256::digest` makes of these bytes at once.
    #[verifier::external_body]
    pub(crate) fn finish(self) -> (r: Vec<u8>)
        ensures
            r@ == sha256(sha256_input(self)),
            r@.len() == 32,
    {
        self.inner.finalize().to_vec()
    }
}

/// The SHA-512 digest of some bytes.
pub uninterp spec fn sha512(bytes: Seq<u8>) -> Seq<u8>;

/// `sha2::Sha512`, which takes in bytes piece by piece.
#[verifier::external_body]
pub struct Sha512Hasher {
    inner: sha2::Sha512,
}

/// The bytes that a `sha2::Sha512` has taken in, in the order in which they came.
pub uninterp spec fn sha512_input(hasher: Sha512Hasher) -> Seq<u8>;

impl Sha512Hasher {
    /// `sha2::Sha512::new`: nothing was taken in.
    #[verifier::external_body]
    pub(crate) fn new() -> (r: Sha512Hasher)
        ensures
            sha512_input(r) == Seq::<u8>::empty(),
    {
        Sha512Hasher { inner: sha2::Sha512::new() }
    }

    /// `sha2::Sha512::update`: the bytes are taken in behind those that came before.
    #[verifier::external_body]
    pub(crate) fn update(&mut self, bytes: &[u8])
        requires
            sha512_input(*old(self)).len() + bytes@.len() <= u64::MAX,
        ensures
            sha512_input(*final(self)) == sha512_input(*old(self)) + bytes@,
    {
        sha2::Digest::update(&mut self.inner, bytes)
    }

    /// `sha2::Sha512::finalize`: 64 bytes that depend on everything that was taken in, and on
    /// nothing else. Which ones is named here and not spelled out.
    #[verifier::external_body]
    pub(crate) fn finish(self) -> (r: Vec<u8>)
        ensures
            r@ == sha512(sha512_input(self)),
            r@.len() == 64,
    {
        self.inner.finalize().to_vec()
    }
}

/// The digit for a number below sixteen, in lower case.
pub open spec fn hex_digit(n: int) -> char {
    if n < 10 {
        ('0' as u32 + n) as char
    } else {
        ('a' as u32 + (n - 10)) as char
    }
}

/// Bytes as hexadecimal digits, two for each, in lower case.
pub open spec fn hex(bytes: Seq<u8>) -> Seq<char>
    decreases bytes.len(),
{
    if bytes.len() == 0 {
        Seq::empty()
    } else {
        hex(bytes.drop_last()).push(hex_digit((bytes.last() / 16) as int)).push(
            hex_digit((bytes.last() % 16) as int),
        )
    }
}

/// `hex::encode`: two lower-case digits for each byte.
#[verifier::external_body]
pub(crate) fn hex_text(bytes: &[u8]) -> (r: String)
    ensures
        r@ == hex(bytes@),
{
    hex::encode(bytes)
}

/// The value of a hexadecimal digit, in either case.
pub open spec fn hex_value(c: char) -> Option<int> {
    if '0' <= c <= '9' {
        Some(c as u32 - '0' as u32)
    } else if 'a' <= c <= 'f' {
        Some(c as u32 - 'a' as u32 + 10)
    } else if 'A' <= c <= 'F' {
        Some(c as u32 - 'A' as u32 + 10)
    } else {
        None
    }
}

/// The bytes that hexadecimal digits spell, two for each, in either case.
pub open spec fn unhex(s: Seq<char>) -> Option<Seq<u8>>
    decreases s.len(),
{
    if s.len() == 0 {
        Some(Seq::empty())
    } else if s.len() == 1 {
        None
    } else {
        let high = hex_value(s[s.len() - 2]);
        let low = hex_value(s[s.len() - 1]);
        match unhex(s.take(s.len() - 2)) {
            Some(before) => if high is Some && low is Some {
                Some(before.push((high->0 * 16 + low->0) as u8))
            } else {
                None
            },
            None => None,
        }
    }
}

/// Optional bytes by their contents.
pub open spec fn bytes_opt(o: Option<Vec<u8>>) -> Option<Seq<u8>> {
    match o {
        Some(b) => Some(b@),
        None => None,
    }
}

/// `hex::decode`: the bytes that an even number of hexadecimal digits spell.
#[verifier::external_body]
pub(crate) fn hex_bytes(s: &str) -> (r: Option<Vec<u8>>)
    ensures
        bytes_opt(r) == unhex(s@),
{
    hex::decode(s).ok()
}

/// `subtle::ConstantTimeEq::ct_eq` of two slices: whether they are equal.
#[verifier::external_body]
pub(crate) fn equal_in_constant_time(a: &[u8], b: &[u8]) -> (r: bool)
    ensures
        r == (a@ == b@),
{
    a.ct_eq(b).into()
}

/// The SHA-256 digest of some bytes, as hexadecimal digits.
pub fn sha256_hex(bytes: &[u8]) -> (r: String)
    ensures
        r@ == hex(sha256(bytes@)),
{
    hex_text(sha256_digest(bytes).as_slice())
}

/// Two texts spell the same bytes.
pub open spec fn same_hash(a: Seq<char>, b: Seq<char>) -> bool {
    unhex(a) is Some && unhex(a) == unhex(b)
}

/// Whether two texts spell the same bytes; a text that spells none is like no other.
pub fn hash_eq(a: &str, b: &str) -> (r: bool)
    ensures
        r == same_hash(a@, b@),
{
    match hex_bytes(a) {
        Some(x) => match hex_bytes(b) {
            Some(y) => x.len() == y.len() && equal_in_constant_time(x.as_slice(), y.as_slice()),
            None => false,
        },
        None => false,
    }
}

/// The bytes that base64 text spells, or why it spells none.
pub uninterp spec fn base64(text: Seq<char>) -> Result<Seq<u8>, Seq<char>>;

/// Bytes or a text by their contents.
pub open spec fn decoded_view(r: Result<Vec<u8>, String>) -> Result<Seq<u8>, Seq<char>> {
    match r {
        Ok(b) => Ok(b@),
        Err(m) => Err(m@),
    }
}

/// `base64::engine::general_purpose::STANDARD.decode`, with the text of its error. Which texts
/// spell bytes, and which ones, is named here and not spelled out.
#[verifier::external_body]
pub(crate) fn base64_bytes(s: &str) -> (r: Result<Vec<u8>, String>)
    ensures
        decoded_view(r) == base64(s@),
{
    base64::Engine::decode(&base64::engine::general_purpose::STANDARD, s).map_err(|e| e.to_string())
}

// ---------------------------------------------------------------------------------------------
// Laws.

/// Hexadecimal digits read back as the bytes that they spell.
pub proof fn law_hex_reads_back(bytes: Seq<u8>)
    ensures
        unhex(hex(bytes)) == Some(bytes),
        hex(bytes).len() == 2 * bytes.len(),
    decreases bytes.len(),
{
    if bytes.len() > 0 {
        law_hex_reads_back(bytes.drop_last());
        let s = hex(bytes);
        let last = bytes.last();
        assert(s.take(s.len() - 2) =~= hex(bytes.drop_last()));
        assert(hex_value(hex_digit((last / 16) as int)) == Some((last / 16) as int));
        assert(hex_value(hex_digit((last % 16) as int)) == Some((last % 16) as int));
        assert(bytes.drop_last().push(last) =~= bytes);
    } else {
        assert(bytes =~= Seq::<u8>::empty());
    }
}

/// A digest in hexadecimal digits is like itself and like no other digest.
pub proof fn law_digests_compare_by_value(a: Seq<u8>, b: Seq<u8>)
    ensures
        same_hash(hex(a), hex(b)) <==> a == b,
{
    law_hex_reads_back(a);
    law_hex_reads_back(b);
}

} // verus!
