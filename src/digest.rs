//! Content digests: `ALGO:HEX` parsing, canonical display, and incremental
//! hashing with a final comparison against the expected bytes.

use vstd::prelude::*;

use crate::iotools::{ByteSink, IoError, Validatable};
use crate::text::{
    byte_len, byte_len_is, char_width, chars_of, find_first, lemma_byte_len_narrow,
    lemma_find_first_bounds, position_first, string_of,
};

verus! {

/// The hash algorithms a digest may name.
#[derive(Clone, Copy, Debug, PartialEq, Eq, Structural)]
pub enum Algorithm {
    Sha224,
    Sha256,
    Sha384,
    Sha512,
}

/// Why a digest string was refused.
#[derive(Clone, Copy, Debug, PartialEq, Eq, Structural)]
pub enum Invalid {
    Algorithm,
    Encoding,
    Length,
}

impl Invalid {
    /// A short description of the error.
    pub fn describe(&self) -> (r: &'static str)
        ensures
            r@ == match self {
                Invalid::Algorithm => "invalid digest algorithm"@,
                Invalid::Encoding => "invalid digest encoding"@,
                Invalid::Length => "invalid digest length"@,
            },
    {
        match self {
            Invalid::Algorithm => "invalid digest algorithm",
            Invalid::Encoding => "invalid digest encoding",
            Invalid::Length => "invalid digest length",
        }
    }
}

impl Algorithm {
    /// The number of bytes the algorithm produces.
    pub open spec fn size(self) -> nat {
        match self {
            Algorithm::Sha224 => 28,
            Algorithm::Sha256 => 32,
            Algorithm::Sha384 => 48,
            Algorithm::Sha512 => 64,
        }
    }

    /// The canonical (lowercase) name of the algorithm.
    pub open spec fn name(self) -> Seq<char> {
        match self {
            Algorithm::Sha224 => seq!['s', 'h', 'a', '2', '2', '4'],
            Algorithm::Sha256 => seq!['s', 'h', 'a', '2', '5', '6'],
            Algorithm::Sha384 => seq!['s', 'h', 'a', '3', '8', '4'],
            Algorithm::Sha512 => seq!['s', 'h', 'a', '5', '1', '2'],
        }
    }

    fn name_chars(&self) -> (r: Vec<char>)
        ensures
            r@ == self.name(),
    {
        match self {
            Algorithm::Sha224 => vec!['s', 'h', 'a', '2', '2', '4'],
            Algorithm::Sha256 => vec!['s', 'h', 'a', '2', '5', '6'],
            Algorithm::Sha384 => vec!['s', 'h', 'a', '3', '8', '4'],
            Algorithm::Sha512 => vec!['s', 'h', 'a', '5', '1', '2'],
        }
    }

    fn byte_len(&self) -> (r: usize)
        ensures
            r == self.size(),
    {
        match self {
            Algorithm::Sha224 => 28,
            Algorithm::Sha256 => 32,
            Algorithm::Sha384 => 48,
            Algorithm::Sha512 => 64,
        }
    }
}

/// ASCII lowercase of one character; other characters are unchanged.
pub open spec fn ascii_lower(c: char) -> char {
    match c {
        'A' => 'a', 'B' => 'b', 'C' => 'c', 'D' => 'd', 'E' => 'e', 'F' => 'f', 'G' => 'g',
        'H' => 'h', 'I' => 'i', 'J' => 'j', 'K' => 'k', 'L' => 'l', 'M' => 'm', 'N' => 'n',
        'O' => 'o', 'P' => 'p', 'Q' => 'q', 'R' => 'r', 'S' => 's', 'T' => 't', 'U' => 'u',
        'V' => 'v', 'W' => 'w', 'X' => 'x', 'Y' => 'y', 'Z' => 'z',
        _ => c,
    }
}

/// ASCII lowercase of a string.
pub open spec fn lowercase(s: Seq<char>) -> Seq<char> {
    s.map_values(|c: char| ascii_lower(c))
}

fn lower_char(c: char) -> (r: char)
    ensures
        r == ascii_lower(c),
{
    match c {
        'A' => 'a', 'B' => 'b', 'C' => 'c', 'D' => 'd', 'E' => 'e', 'F' => 'f', 'G' => 'g',
        'H' => 'h', 'I' => 'i', 'J' => 'j', 'K' => 'k', 'L' => 'l', 'M' => 'm', 'N' => 'n',
        'O' => 'o', 'P' => 'p', 'Q' => 'q', 'R' => 'r', 'S' => 's', 'T' => 't', 'U' => 'u',
        'V' => 'v', 'W' => 'w', 'X' => 'x', 'Y' => 'y', 'Z' => 'z',
        _ => c,
    }
}

/// The algorithm whose name `t` spells, ignoring ASCII case.
pub open spec fn algorithm_named(t: Seq<char>) -> Option<Algorithm> {
    if lowercase(t) == Algorithm::Sha224.name() {
        Some(Algorithm::Sha224)
    } else if lowercase(t) == Algorithm::Sha256.name() {
        Some(Algorithm::Sha256)
    } else if lowercase(t) == Algorithm::Sha384.name() {
        Some(Algorithm::Sha384)
    } else if lowercase(t) == Algorithm::Sha512.name() {
        Some(Algorithm::Sha512)
    } else {
        None
    }
}

/// The value of a hexadecimal digit (either case), if `c` is one.
pub open spec fn hex_value(c: char) -> Option<u8> {
    match c {
        '0' => Some(0u8), '1' => Some(1u8), '2' => Some(2u8), '3' => Some(3u8),
        '4' => Some(4u8), '5' => Some(5u8), '6' => Some(6u8), '7' => Some(7u8),
        '8' => Some(8u8), '9' => Some(9u8),
        'a' => Some(10u8), 'b' => Some(11u8), 'c' => Some(12u8), 'd' => Some(13u8),
        'e' => Some(14u8), 'f' => Some(15u8),
        'A' => Some(10u8), 'B' => Some(11u8), 'C' => Some(12u8), 'D' => Some(13u8),
        'E' => Some(14u8), 'F' => Some(15u8),
        _ => None,
    }
}

/// The lowercase hexadecimal digit for `n < 16`.
pub open spec fn hex_digit(n: u8) -> char {
    seq!['0', '1', '2', '3', '4', '5', '6', '7', '8', '9', 'a', 'b', 'c', 'd', 'e', 'f'][n as int]
}

/// Whether every character of `h` is a hexadecimal digit.
pub open spec fn all_hex(h: Seq<char>) -> bool {
    forall|i: int| 0 <= i < h.len() ==> (#[trigger] hex_value(h[i])) is Some
}

/// The bytes spelled by pairs of hexadecimal digits.
pub open spec fn unhex(h: Seq<char>) -> Seq<u8> {
    Seq::new(
        h.len() / 2,
        |i: int| (hex_value(h[2 * i])->0 * 16 + hex_value(h[2 * i + 1])->0) as u8,
    )
}

/// Two lowercase hexadecimal digits per byte, high nibble first.
pub open spec fn hex_of(b: Seq<u8>) -> Seq<char> {
    Seq::new(
        2 * b.len(),
        |j: int| if j % 2 == 0 { hex_digit(b[j / 2] / 16) } else { hex_digit(b[j / 2] % 16) },
    )
}

/// The canonical text of a digest: `algo:` and the lowercase hex of its bytes.
pub open spec fn digest_text(alg: Algorithm, expected: Seq<u8>) -> Seq<char> {
    alg.name() + seq![':'] + hex_of(expected)
}

/// The algorithm and hex part a digest string names, before its digits are read.
pub open spec fn split_digest(s: Seq<char>) -> Result<(Algorithm, Seq<char>), Invalid> {
    match find_first(s, ':') {
        Some(k) => match algorithm_named(s.subrange(0, k)) {
            Some(a) => Ok((a, s.subrange(k + 1, s.len() as int))),
            None => Err(Invalid::Algorithm),
        },
        None => if byte_len(s) == 64 {
            Ok((Algorithm::Sha256, s))
        } else {
            Err(Invalid::Algorithm)
        },
    }
}

/// What parsing `s` gives: the algorithm and the expected bytes, or the error.
/// Lengths are counted in UTF-8 bytes.
pub open spec fn parse_spec(s: Seq<char>) -> Result<(Algorithm, Seq<u8>), Invalid> {
    match split_digest(s) {
        Err(e) => Err(e),
        Ok((a, h)) => if byte_len(h) != 2 * a.size() {
            Err(Invalid::Length)
        } else if !all_hex(h) {
            Err(Invalid::Encoding)
        } else {
            Ok((a, unhex(h)))
        },
    }
}

/// What `sha2::Sha224` returns for `data`.
pub uninterp spec fn sha224_of(data: Seq<u8>) -> Seq<u8>;

/// What `sha2::Sha256` returns for `data`.
pub uninterp spec fn sha256_of(data: Seq<u8>) -> Seq<u8>;

/// What `sha2::Sha384` returns for `data`.
pub uninterp spec fn sha384_of(data: Seq<u8>) -> Seq<u8>;

/// What `sha2::Sha512` returns for `data`.
pub uninterp spec fn sha512_of(data: Seq<u8>) -> Seq<u8>;

/// The bytes a `sha2::Sha224` hasher has absorbed so far.
pub uninterp spec fn sha224_absorbed(h: sha2::Sha224) -> Seq<u8>;

/// The bytes a `sha2::Sha256` hasher has absorbed so far.
pub uninterp spec fn sha256_absorbed(h: sha2::Sha256) -> Seq<u8>;

/// The bytes a `sha2::Sha384` hasher has absorbed so far.
pub uninterp spec fn sha384_absorbed(h: sha2::Sha384) -> Seq<u8>;

/// The bytes a `sha2::Sha512` hasher has absorbed so far.
pub uninterp spec fn sha512_absorbed(h: sha2::Sha512) -> Seq<u8>;

/// The hash of `data` under `alg`.
pub open spec fn hash_of(alg: Algorithm, data: Seq<u8>) -> Seq<u8> {
    match alg {
        Algorithm::Sha224 => sha224_of(data),
        Algorithm::Sha256 => sha256_of(data),
        Algorithm::Sha384 => sha384_of(data),
        Algorithm::Sha512 => sha512_of(data),
    }
}

#[verifier::external_type_specification]
#[verifier::external_body]
pub struct ExSha224(sha2::Sha224);

#[verifier::external_type_specification]
#[verifier::external_body]
pub struct ExSha256(sha2::Sha256);

#[verifier::external_type_specification]
#[verifier::external_body]
pub struct ExSha384(sha2::Sha384);

#[verifier::external_type_specification]
#[verifier::external_body]
pub struct ExSha512(sha2::Sha512);

/// Relies on `sha2::Digest::new` for `Sha224`: a hasher that has absorbed nothing.
#[verifier::external_body]
fn sha224_new() -> (r: sha2::Sha224)
    ensures
        sha224_absorbed(r) == Seq::<u8>::empty(),
{
    <sha2::Sha224 as sha2::Digest>::new()
}

/// Relies on `sha2::Digest::new` for `Sha256`: a hasher that has absorbed nothing.
#[verifier::external_body]
fn sha256_new() -> (r: sha2::Sha256)
    ensures
        sha256_absorbed(r) == Seq::<u8>::empty(),
{
    <sha2::Sha256 as sha2::Digest>::new()
}

/// Relies on `sha2::Digest::new` for `Sha384`: a hasher that has absorbed nothing.
#[verifier::external_body]
fn sha384_new() -> (r: sha2::Sha384)
    ensures
        sha384_absorbed(r) == Seq::<u8>::empty(),
{
    <sha2::Sha384 as sha2::Digest>::new()
}

/// Relies on `sha2::Digest::new` for `Sha512`: a hasher that has absorbed nothing.
#[verifier::external_body]
fn sha512_new() -> (r: sha2::Sha512)
    ensures
        sha512_absorbed(r) == Seq::<u8>::empty(),
{
    <sha2::Sha512 as sha2::Digest>::new()
}

/// Relies on `sha2::Digest::update` for `Sha224`: `data` is absorbed after what came before.
#[verifier::external_body]
fn sha224_update(h: &mut sha2::Sha224, data: &[u8])
    ensures
        sha224_absorbed(*final(h)) == sha224_absorbed(*old(h)) + data@,
{
    sha2::Digest::update(h, data)
}

/// Relies on `sha2::Digest::update` for `Sha256`: `data` is absorbed after what came before.
#[verifier::external_body]
fn sha256_update(h: &mut sha2::Sha256, data: &[u8])
    ensures
        sha256_absorbed(*final(h)) == sha256_absorbed(*old(h)) + data@,
{
    sha2::Digest::update(h, data)
}

/// Relies on `sha2::Digest::update` for `Sha384`: `data` is absorbed after what came before.
#[verifier::external_body]
fn sha384_update(h: &mut sha2::Sha384, data: &[u8])
    ensures
        sha384_absorbed(*final(h)) == sha384_absorbed(*old(h)) + data@,
{
    sha2::Digest::update(h, data)
}

/// Relies on `sha2::Digest::update` for `Sha512`: `data` is absorbed after what came before.
#[verifier::external_body]
fn sha512_update(h: &mut sha2::Sha512, data: &[u8])
    ensures
        sha512_absorbed(*final(h)) == sha512_absorbed(*old(h)) + data@,
{
    sha2::Digest::update(h, data)
}

/// Relies on `Clone` for `sha2::Sha224`: the copy has absorbed the same bytes.
#[verifier::external_body]
fn sha224_clone(h: &sha2::Sha224) -> (r: sha2::Sha224)
    ensures
        sha224_absorbed(r) == sha224_absorbed(*h),
{
    h.clone()
}

/// Relies on `Clone` for `sha2::Sha256`: the copy has absorbed the same bytes.
#[verifier::external_body]
fn sha256_clone(h: &sha2::Sha256) -> (r: sha2::Sha256)
    ensures
        sha256_absorbed(r) == sha256_absorbed(*h),
{
    h.clone()
}

/// Relies on `Clone` for `sha2::Sha384`: the copy has absorbed the same bytes.
#[verifier::external_body]
fn sha384_clone(h: &sha2::Sha384) -> (r: sha2::Sha384)
    ensures
        sha384_absorbed(r) == sha384_absorbed(*h),
{
    h.clone()
}

/// Relies on `Clone` for `sha2::Sha512`: the copy has absorbed the same bytes.
#[verifier::external_body]
fn sha512_clone(h: &sha2::Sha512) -> (r: sha2::Sha512)
    ensures
        sha512_absorbed(r) == sha512_absorbed(*h),
{
    h.clone()
}

/// Relies on `sha2::Digest::finalize` for `Sha224`: the 28-byte hash of what was absorbed.
#[verifier::external_body]
fn sha224_finalize(h: sha2::Sha224) -> (r: Vec<u8>)
    ensures
        r@ == sha224_of(sha224_absorbed(h)),
        r@.len() == 28,
{
    sha2::Digest::finalize(h).to_vec()
}

/// Relies on `sha2::Digest::finalize` for `Sha256`: the 32-byte hash of what was absorbed.
#[verifier::external_body]
fn sha256_finalize(h: sha2::Sha256) -> (r: Vec<u8>)
    ensures
        r@ == sha256_of(sha256_absorbed(h)),
        r@.len() == 32,
{
    sha2::Digest::finalize(h).to_vec()
}

/// Relies on `sha2::Digest::finalize` for `Sha384`: the 48-byte hash of what was absorbed.
#[verifier::external_body]
fn sha384_finalize(h: sha2::Sha384) -> (r: Vec<u8>)
    ensures
        r@ == sha384_of(sha384_absorbed(h)),
        r@.len() == 48,
{
    sha2::Digest::finalize(h).to_vec()
}

/// Relies on `sha2::Digest::finalize` for `Sha512`: the 64-byte hash of what was absorbed.
#[verifier::external_body]
fn sha512_finalize(h: sha2::Sha512) -> (r: Vec<u8>)
    ensures
        r@ == sha512_of(sha512_absorbed(h)),
        r@.len() == 64,
{
    sha2::Digest::finalize(h).to_vec()
}

/// A running hash, one variant per algorithm.
enum Hasher {
    Sha224(sha2::Sha224),
    Sha256(sha2::Sha256),
    Sha384(sha2::Sha384),
    Sha512(sha2::Sha512),
}

impl Hasher {
    spec fn algorithm(&self) -> Algorithm {
        match self {
            Hasher::Sha224(_) => Algorithm::Sha224,
            Hasher::Sha256(_) => Algorithm::Sha256,
            Hasher::Sha384(_) => Algorithm::Sha384,
            Hasher::Sha512(_) => Algorithm::Sha512,
        }
    }

    spec fn absorbed(&self) -> Seq<u8> {
        match self {
            Hasher::Sha224(h) => sha224_absorbed(*h),
            Hasher::Sha256(h) => sha256_absorbed(*h),
            Hasher::Sha384(h) => sha384_absorbed(*h),
            Hasher::Sha512(h) => sha512_absorbed(*h),
        }
    }

    fn new(alg: Algorithm) -> (r: Hasher)
        ensures
            r.algorithm() == alg,
            r.absorbed() == Seq::<u8>::empty(),
    {
        match alg {
            Algorithm::Sha224 => Hasher::Sha224(sha224_new()),
            Algorithm::Sha256 => Hasher::Sha256(sha256_new()),
            Algorithm::Sha384 => Hasher::Sha384(sha384_new()),
            Algorithm::Sha512 => Hasher::Sha512(sha512_new()),
        }
    }

    fn update(&mut self, data: &[u8])
        ensures
            final(self).algorithm() == old(self).algorithm(),
            final(self).absorbed() == old(self).absorbed() + data@,
    {
        match self {
            Hasher::Sha224(h) => sha224_update(h, data),
            Hasher::Sha256(h) => sha256_update(h, data),
            Hasher::Sha384(h) => sha384_update(h, data),
            Hasher::Sha512(h) => sha512_update(h, data),
        }
    }

    fn current(&self) -> (r: Vec<u8>)
        ensures
            r@ == hash_of(self.algorithm(), self.absorbed()),
            r@.len() == self.algorithm().size(),
    {
        match self {
            Hasher::Sha224(h) => sha224_finalize(sha224_clone(h)),
            Hasher::Sha256(h) => sha256_finalize(sha256_clone(h)),
            Hasher::Sha384(h) => sha384_finalize(sha384_clone(h)),
            Hasher::Sha512(h) => sha512_finalize(sha512_clone(h)),
        }
    }
}

/// A cryptographic digest, usually written `ALGORITHM:HEX_BYTES`.
///
/// Bytes written into a digest feed its running hash; `validate` compares
/// the hash of everything written so far with the expected bytes.
pub struct Digest {
    hasher: Hasher,
    expected: Vec<u8>,
}

impl Digest {
    /// The algorithm the digest uses.
    pub closed spec fn algorithm_spec(&self) -> Algorithm {
        self.hasher.algorithm()
    }

    /// Everything written into the digest so far.
    pub closed spec fn written(&self) -> Seq<u8> {
        self.hasher.absorbed()
    }

    /// The bytes the hash is expected to equal.
    pub closed spec fn expected(&self) -> Seq<u8> {
        self.expected@
    }

    /// Whether the hash of what was written equals the expected bytes.
    pub open spec fn valid(&self) -> bool {
        hash_of(self.algorithm_spec(), self.written()) == self.expected()
    }

    /// Parses `ALGO:HEX` (algorithm in any ASCII case) or a bare hex string
    /// of 64 bytes, taken as sha256.
    pub fn parse(s: &str) -> (r: Result<Digest, Invalid>)
        ensures
            match parse_spec(s@) {
                Ok((alg, e)) => r matches Ok(d) && d.algorithm_spec() == alg && d.expected() == e
                    && d.written() == Seq::<u8>::empty(),
                Err(k) => r == Err::<Digest, Invalid>(k),
            },
    {
        let cs = chars_of(s);
        let (alg, start): (Algorithm, usize) = match position_first(cs.as_slice(), ':') {
            Some(k) => {
                let found = named_algorithm(cs.as_slice(), k);
                match found {
                    Some(a) => (a, k + 1),
                    None => return Err(Invalid::Algorithm),
                }
            },
            None => {
                if s.as_bytes().len() == 64 {
                    (Algorithm::Sha256, 0)
                } else {
                    return Err(Invalid::Algorithm);
                }
            },
        };
        let ghost h = cs@.subrange(start as int, cs@.len() as int);
        assert(split_digest(s@) == Ok::<(Algorithm, Seq<char>), Invalid>((alg, h))) by {
            if start == 0 {
                assert(cs@.subrange(0, cs@.len() as int) == cs@);
            }
        }
        let size = alg.byte_len();
        if !byte_len_is(cs.as_slice(), start, 2 * size) {
            return Err(Invalid::Length);
        }
        let mut j: usize = start;
        while j < cs.len()
            invariant
                start <= j <= cs@.len(),
                h == cs@.subrange(start as int, cs@.len() as int),
                split_digest(s@) == Ok::<(Algorithm, Seq<char>), Invalid>((alg, h)),
                byte_len(h) == 2 * alg.size(),
                forall|t: int| 0 <= t < j - start ==> (#[trigger] hex_value(h[t])) is Some,
            decreases cs@.len() - j,
        {
            if dehex(cs[j]).is_none() {
                assert(hex_value(h[j - start]) is None);
                return Err(Invalid::Encoding);
            }
            j = j + 1;
        }
        assert(all_hex(h));
        proof {
            assert forall|t: int| 0 <= t < h.len() implies char_width(#[trigger] h[t]) == 1 by {
                lemma_hex_narrow(h[t]);
            }
            lemma_byte_len_narrow(h);
        }
        assert(h.len() == 2 * size);
        assert(start + 2 * size == cs@.len());
        let n = cs.len();
        let mut expected: Vec<u8> = Vec::new();
        let mut i: usize = 0;
        while i < size
            invariant
                n == cs@.len(),
                size <= 64,
                i <= size,
                size == alg.size(),
                start + 2 * size == cs@.len(),
                h == cs@.subrange(start as int, cs@.len() as int),
                split_digest(s@) == Ok::<(Algorithm, Seq<char>), Invalid>((alg, h)),
                byte_len(h) == 2 * alg.size(),
                all_hex(h),
                expected@.len() == i,
                forall|j: int| 0 <= j < i ==> expected@[j] == (hex_value(h[2 * j])->0 * 16
                    + hex_value(h[2 * j + 1])->0) as u8,
            decreases size - i,
        {
            assert(start + 2 * i + 1 < n);
            assert(hex_value(h[2 * i as int]) is Some);
            assert(hex_value(h[2 * i + 1]) is Some);
            let hi = dehex(cs[start + 2 * i]);
            let lo = dehex(cs[start + 2 * i + 1]);
            match (hi, lo) {
                (Some(x), Some(y)) => {
                    assert(x < 16 && y < 16);
                    expected.push(x * 16 + y);
                },
                _ => {
                    return Err(Invalid::Encoding);
                },
            }
            i = i + 1;
        }
        assert(all_hex(h));
        assert(expected@ == unhex(h));
        Ok(Digest { hasher: Hasher::new(alg), expected })
    }

    /// The name of the digest's algorithm.
    pub fn algorithm(&self) -> (r: &'static str)
        ensures
            r@ == self.algorithm_spec().name(),
    {
        match self.hasher {
            Hasher::Sha224(_) => {
                proof { reveal_strlit("sha224"); }
                "sha224"
            },
            Hasher::Sha256(_) => {
                proof { reveal_strlit("sha256"); }
                "sha256"
            },
            Hasher::Sha384(_) => {
                proof { reveal_strlit("sha384"); }
                "sha384"
            },
            Hasher::Sha512(_) => {
                proof { reveal_strlit("sha512"); }
                "sha512"
            },
        }
    }

    /// The canonical text: `algo:` followed by the lowercase hex of the expected bytes.
    pub fn display(&self) -> (r: String)
        ensures
            r@ == digest_text(self.algorithm_spec(), self.expected()),
    {
        let alg = match self.hasher {
            Hasher::Sha224(_) => Algorithm::Sha224,
            Hasher::Sha256(_) => Algorithm::Sha256,
            Hasher::Sha384(_) => Algorithm::Sha384,
            Hasher::Sha512(_) => Algorithm::Sha512,
        };
        let mut out = alg.name_chars();
        out.push(':');
        let ghost head = out@;
        let mut i: usize = 0;
        while i < self.expected.len()
            invariant
                i <= self.expected@.len(),
                head == alg.name() + seq![':'],
                out@ == head + hex_of(self.expected@.subrange(0, i as int)),
            decreases self.expected@.len() - i,
        {
            let b = self.expected[i];
            out.push(digit(b / 16));
            out.push(digit(b % 16));
            assert(hex_of(self.expected@.subrange(0, i + 1)) == hex_of(
                self.expected@.subrange(0, i as int),
            ).push(hex_digit(b / 16)).push(hex_digit(b % 16)));
            i = i + 1;
        }
        assert(self.expected@.subrange(0, i as int) == self.expected@);
        string_of(out.as_slice())
    }

    /// Feeds `buf` to the running hash.
    pub fn update(&mut self, buf: &[u8])
        ensures
            final(self).algorithm_spec() == old(self).algorithm_spec(),
            final(self).expected() == old(self).expected(),
            final(self).written() == old(self).written() + buf@,
    {
        self.hasher.update(buf);
    }

    /// Whether the hash of everything written equals the expected bytes.
    pub fn check(&self) -> (r: bool)
        ensures
            r == self.valid(),
    {
        let got = self.hasher.current();
        same_bytes(got.as_slice(), self.expected.as_slice())
    }

    /// A digest with the same algorithm and expected bytes, to which nothing
    /// has been written yet.
    pub fn fresh(&self) -> (r: Digest)
        ensures
            r.algorithm_spec() == self.algorithm_spec(),
            r.expected() == self.expected(),
            r.written() == Seq::<u8>::empty(),
    {
        let alg = match self.hasher {
            Hasher::Sha224(_) => Algorithm::Sha224,
            Hasher::Sha256(_) => Algorithm::Sha256,
            Hasher::Sha384(_) => Algorithm::Sha384,
            Hasher::Sha512(_) => Algorithm::Sha512,
        };
        Digest { hasher: Hasher::new(alg), expected: self.expected.clone() }
    }
}

impl ByteSink for Digest {
    open spec fn accepted(&self) -> Seq<u8> {
        self.written()
    }

    open spec fn reliable(&self) -> bool {
        true
    }

    fn write(&mut self, buf: &[u8]) -> (r: Result<usize, IoError>)
        ensures
            final(self).algorithm_spec() == old(self).algorithm_spec(),
            final(self).expected() == old(self).expected(),
            r == Ok::<usize, IoError>(buf@.len() as usize),
    {
        self.update(buf);
        assert(buf@.subrange(0, buf@.len() as int) == buf@);
        Ok(buf.len())
    }

    fn flush(&mut self) -> (r: Result<(), IoError>) {
        Ok(())
    }
}

impl Validatable for Digest {
    open spec fn is_valid(&self) -> bool {
        self.valid()
    }

    fn validate(&self) -> (r: bool) {
        self.check()
    }
}

impl std::str::FromStr for Digest {
    type Err = Invalid;

    fn from_str(s: &str) -> Result<Digest, Invalid> {
        Digest::parse(s)
    }
}

proof fn lemma_nibbles(v: u8, w: u8)
    requires
        v < 16,
        w < 16,
    ensures
        ((v * 16 + w) as u8) / 16 == v,
        ((v * 16 + w) as u8) % 16 == w,
{
    assert(((v * 16 + w) as u8) / 16 == v && ((v * 16 + w) as u8) % 16 == w) by (bit_vector)
        requires
            v < 16,
            w < 16,
    ;
}

proof fn lemma_hex_narrow(c: char)
    requires
        hex_value(c) is Some,
    ensures
        char_width(c) == 1,
{
}

proof fn lemma_hex_digit_value(c: char)
    requires
        hex_value(c) is Some,
    ensures
        hex_value(c)->0 < 16,
        hex_digit(hex_value(c)->0) == ascii_lower(c),
{
}

proof fn lemma_digit_value(n: u8)
    requires
        n < 16,
    ensures
        hex_value(hex_digit(n)) == Some(n),
{
    assert(n == 0 || n == 1 || n == 2 || n == 3 || n == 4 || n == 5 || n == 6 || n == 7 || n == 8
        || n == 9 || n == 10 || n == 11 || n == 12 || n == 13 || n == 14 || n == 15);
}

/// Lowercase hex digits read back as the bytes they came from, and hex
/// digits of either case print back as their lowercase form.
proof fn lemma_hex_lowercase(h: Seq<char>)
    requires
        all_hex(h),
        h.len() % 2 == 0,
    ensures
        hex_of(unhex(h)) == lowercase(h),
{
    let b = unhex(h);
    assert forall|j: int| 0 <= j < h.len() implies #[trigger] hex_of(b)[j] == lowercase(h)[j] by {
        let i = j / 2;
        assert(hex_value(h[2 * i]) is Some);
        assert(hex_value(h[2 * i + 1]) is Some);
        let v = hex_value(h[2 * i])->0;
        let w = hex_value(h[2 * i + 1])->0;
        lemma_hex_digit_value(h[2 * i]);
        lemma_hex_digit_value(h[2 * i + 1]);
        lemma_nibbles(v, w);
        assert(b[i] == (v * 16 + w) as u8);
        if j % 2 == 0 {
            assert(j == 2 * i);
        } else {
            assert(j == 2 * i + 1);
        }
    }
    assert(hex_of(b) =~= lowercase(h));
}

proof fn lemma_unhex_hex(b: Seq<u8>)
    ensures
        all_hex(hex_of(b)),
        unhex(hex_of(b)) == b,
{
    let h = hex_of(b);
    assert forall|j: int| 0 <= j < h.len() implies (#[trigger] hex_value(h[j])) is Some by {
        if j % 2 == 0 {
            lemma_digit_value(b[j / 2] / 16);
        } else {
            lemma_digit_value(b[j / 2] % 16);
        }
    }
    assert forall|i: int| 0 <= i < b.len() implies #[trigger] unhex(h)[i] == b[i] by {
        assert((2 * i) / 2 == i && (2 * i) % 2 == 0);
        assert((2 * i + 1) / 2 == i && (2 * i + 1) % 2 == 1);
        lemma_digit_value(b[i] / 16);
        lemma_digit_value(b[i] % 16);
        let x = b[i];
        assert(((x / 16) * 16 + x % 16) as u8 == x) by (bit_vector);
    }
    assert(unhex(h) =~= b);
}

/// Parsing `ALGO:HEX` and printing the result gives the input in lowercase.
pub proof fn lemma_display_is_lowercase(s: Seq<char>)
    requires
        find_first(s, ':') is Some,
        parse_spec(s) is Ok,
    ensures
        digest_text(parse_spec(s)->Ok_0.0, parse_spec(s)->Ok_0.1) == lowercase(s),
{
    let k = find_first(s, ':')->0;
    lemma_find_first_bounds(s, ':');
    let (alg, e) = parse_spec(s)->Ok_0;
    let lhs = s.subrange(0, k);
    let h = s.subrange(k + 1, s.len() as int);
    assert(algorithm_named(lhs) == Some(alg));
    assert(lowercase(lhs) == alg.name());
    assert forall|t: int| 0 <= t < h.len() implies char_width(#[trigger] h[t]) == 1 by {
        lemma_hex_narrow(h[t]);
    }
    lemma_byte_len_narrow(h);
    lemma_hex_lowercase(h);
    assert(s == lhs + seq![':'] + h);
    assert(lowercase(s) =~= lowercase(lhs) + seq![':'] + lowercase(h));
}

/// The canonical text of any digest value parses back to that value.
pub proof fn lemma_text_parses_back(alg: Algorithm, e: Seq<u8>)
    requires
        e.len() == alg.size(),
    ensures
        parse_spec(digest_text(alg, e)) == Ok::<(Algorithm, Seq<u8>), Invalid>((alg, e)),
{
    let t = digest_text(alg, e);
    let n = alg.name();
    assert(t[6] == ':');
    assert forall|j: int| 0 <= j < 6 implies t[j] != ':' by {
        assert(t[j] == n[j]);
    }
    crate::text::lemma_find_first(t, ':', 6);
    assert(t.subrange(0, 6) =~= n);
    assert(lowercase(n) =~= n);
    assert(t.subrange(7, t.len() as int) =~= hex_of(e));
    lemma_unhex_hex(e);
    let h = hex_of(e);
    assert forall|j: int| 0 <= j < h.len() implies char_width(#[trigger] h[j]) == 1 by {
        assert(hex_value(h[j]) is Some);
        lemma_hex_narrow(h[j]);
    }
    lemma_byte_len_narrow(h);
}

/// A digest whose expected bytes are the canonical text of `alg` and the
/// hash of `data`, and into which `data` was written, validates.
pub proof fn lemma_validates_own_hash(alg: Algorithm, data: Seq<u8>, d: Digest)
    requires
        hash_of(alg, data).len() == alg.size(),
        parse_spec(digest_text(alg, hash_of(alg, data))) == Ok::<(Algorithm, Seq<u8>), Invalid>(
            (d.algorithm_spec(), d.expected()),
        ),
        d.written() == data,
    ensures
        d.valid(),
{
    lemma_text_parses_back(alg, hash_of(alg, data));
}

/// The value of one hexadecimal digit.
pub fn dehex(c: char) -> (r: Option<u8>)
    ensures
        r == hex_value(c),
{
    match c {
        '0' => Some(0), '1' => Some(1), '2' => Some(2), '3' => Some(3), '4' => Some(4),
        '5' => Some(5), '6' => Some(6), '7' => Some(7), '8' => Some(8), '9' => Some(9),
        'a' => Some(10), 'b' => Some(11), 'c' => Some(12), 'd' => Some(13), 'e' => Some(14),
        'f' => Some(15),
        'A' => Some(10), 'B' => Some(11), 'C' => Some(12), 'D' => Some(13), 'E' => Some(14),
        'F' => Some(15),
        _ => None,
    }
}

fn digit(n: u8) -> (r: char)
    requires
        n < 16,
    ensures
        r == hex_digit(n),
{
    let digits: [char; 16] = [
        '0', '1', '2', '3', '4', '5', '6', '7', '8', '9', 'a', 'b', 'c', 'd', 'e', 'f',
    ];
    assert(digits@ == seq!['0', '1', '2', '3', '4', '5', '6', '7', '8', '9', 'a', 'b', 'c', 'd', 'e', 'f']);
    digits[n as usize]
}

fn named_algorithm(cs: &[char], k: usize) -> (r: Option<Algorithm>)
    requires
        k <= cs@.len(),
    ensures
        r == algorithm_named(cs@.subrange(0, k as int)),
{
    let ghost t = cs@.subrange(0, k as int);
    let mut lower: Vec<char> = Vec::new();
    let mut i: usize = 0;
    while i < k
        invariant
            i <= k <= cs@.len(),
            t == cs@.subrange(0, k as int),
            lower@ == lowercase(t).subrange(0, i as int),
        decreases k - i,
    {
        lower.push(lower_char(cs[i]));
        i = i + 1;
    }
    assert(lower@ == lowercase(t));
    if crate::text::same_chars(lower.as_slice(), Algorithm::Sha224.name_chars().as_slice()) {
        Some(Algorithm::Sha224)
    } else if crate::text::same_chars(lower.as_slice(), Algorithm::Sha256.name_chars().as_slice()) {
        Some(Algorithm::Sha256)
    } else if crate::text::same_chars(lower.as_slice(), Algorithm::Sha384.name_chars().as_slice()) {
        Some(Algorithm::Sha384)
    } else if crate::text::same_chars(lower.as_slice(), Algorithm::Sha512.name_chars().as_slice()) {
        Some(Algorithm::Sha512)
    } else {
        None
    }
}

fn same_bytes(a: &[u8], b: &[u8]) -> (r: bool)
    ensures
        r == (a@ == b@),
{
    if a.len() != b.len() {
        return false;
    }
    let mut i: usize = 0;
    while i < a.len()
        invariant
            i <= a@.len() == b@.len(),
            a@.subrange(0, i as int) == b@.subrange(0, i as int),
        decreases a@.len() - i,
    {
        if a[i] != b[i] {
            assert(a@[i as int] != b@[i as int]);
            return false;
        }
        assert(a@.subrange(0, i + 1) == a@.subrange(0, i as int).push(a@[i as int]));
        assert(b@.subrange(0, i + 1) == b@.subrange(0, i as int).push(b@[i as int]));
        i = i + 1;
    }
    assert(a@ == a@.subrange(0, i as int));
    assert(b@ == b@.subrange(0, i as int));
    true
}

} // verus!
