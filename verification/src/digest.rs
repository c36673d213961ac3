//! Content hashes.
//!
//! A blob is named by the SHA-256 of its bytes, written in lower-case hexadecimal digits.

use crate::text::{digit, hex_byte, law_hex_byte_is_lower_case, push_hex_byte};
use sha2::{Digest, Sha256};
use vstd::prelude::*;

verus! {

/// How many bytes are read at once from the source of a blob.
pub const SPOOL_BUFFER_SIZE: usize = 2097152;

/// What SHA-256 has no hash for: this many bytes, or more.
pub const HASH_LIMIT: u64 = 0x2000_0000_0000_0000;

/// Whether `data` has a SHA-256.
pub open spec fn hashable(data: Seq<u8>) -> bool {
    data.len() < HASH_LIMIT
}

/// `sha2::Sha256`, a hasher that takes in bytes and in the end gives their SHA-256.
#[verifier::external_body]
pub struct Hasher {
    hasher: Sha256,
}

/// The bytes that a hasher holds: those that it has taken in.
pub uninterp spec fn absorbed(hasher: Hasher) -> Seq<u8>;

/// The SHA-256 of `data`.
pub uninterp spec fn sha256(data: Seq<u8>) -> Seq<u8>;

impl Hasher {
    /// `<Sha256 as Digest>::new`: a hasher that has taken in nothing.
    #[verifier::external_body]
    fn new() -> (hasher: Hasher)
        ensures
            absorbed(hasher) == Seq::<u8>::empty(),
    {
        Hasher { hasher: Sha256::new() }
    }

    /// `<Sha256 as Digest>::update`: takes in `data`, behind what was taken in before.
    #[verifier::external_body]
    fn update(&mut self, data: &[u8])
        ensures
            absorbed(*final(self)) == absorbed(*old(self)) + data@,
    {
        self.hasher.update(data)
    }

    /// `<Sha256 as Digest>::finalize`: the 32 bytes of the SHA-256 of what was taken in. It counts
    /// the bits that were taken in, which have to be countable in 64 bits.
    #[verifier::external_body]
    fn finalize(self) -> (digest: Vec<u8>)
        requires
            hashable(absorbed(self)),
        ensures
            digest@ == sha256(absorbed(self)),
            digest@.len() == 32,
    {
        self.hasher.finalize().to_vec()
    }
}

/// Two lower-case hexadecimal digits for each byte.
pub open spec fn lower_hex(bytes: Seq<u8>) -> Seq<char> {
    Seq::new(
        2 * bytes.len(),
        |i: int|
            digit(
                if i % 2 == 0 {
                    bytes[i / 2] as int / 16
                } else {
                    bytes[i / 2] as int % 16
                },
            ),
    )
}

/// The hash that a blob is named by.
pub open spec fn content_hash(data: Seq<u8>) -> Seq<char> {
    lower_hex(sha256(data))
}

/// Writes each byte as two lower-case hexadecimal digits.
pub fn to_lower_hex(bytes: &[u8]) -> (text: String)
    ensures
        text@ == lower_hex(bytes@),
{
    let mut text: String = String::new();
    let mut i: usize = 0;
    while i < bytes.len()
        invariant
            i <= bytes@.len(),
            text@ == lower_hex(bytes@.take(i as int)),
        decreases bytes@.len() - i,
    {
        push_hex_byte(&mut text, bytes[i]);
        i = i + 1;
        assert(text@ =~= lower_hex(bytes@.take(i as int)));
    }
    assert(bytes@.take(i as int) =~= bytes@);
    text
}

/// The hash that a blob is named by.
pub fn hash_blob(data: &[u8]) -> (hash: String)
    requires
        hashable(data@),
    ensures
        hash@ == content_hash(data@),
        hash@.len() == 64,
{
    let mut hasher = Hasher::new();
    hasher.update(data);
    assert(Seq::<u8>::empty() + data@ =~= data@);
    let digest: Vec<u8> = hasher.finalize();
    to_lower_hex(digest.as_slice())
}

/// What is to be done with a part of a blob that was read from its source.
#[derive(Clone, Copy, PartialEq, Eq, Structural)]
pub enum SpoolStep {
    /// Write it behind the parts before it, and read the next one.
    Write,
    /// Nothing: the source is exhausted, and what was written is to be read from its start.
    Rewind,
}

/// The hash of a blob that comes in parts, as far as it is asked for.
pub struct Spool {
    digest: Option<Hasher>,
}

impl View for Spool {
    type V = Option<Seq<u8>>;

    /// The bytes that came in so far, where their hash is asked for.
    closed spec fn view(&self) -> Option<Seq<u8>> {
        match self.digest {
            Some(hasher) => Some(absorbed(hasher)),
            None => None,
        }
    }
}

impl Spool {
    /// A blob of which nothing came in.
    pub fn new(with_digest: bool) -> (spool: Spool)
        ensures
            spool@ == (if with_digest {
                Some(Seq::<u8>::empty())
            } else {
                None
            }),
    {
        if with_digest {
            Spool { digest: Some(Hasher::new()) }
        } else {
            Spool { digest: None }
        }
    }

    /// Takes in the next part, and decides what is to be done with it. An empty part means that
    /// the source is exhausted.
    pub fn feed(&mut self, part: &[u8]) -> (step: SpoolStep)
        ensures
            step == (if part@.len() == 0 {
                SpoolStep::Rewind
            } else {
                SpoolStep::Write
            }),
            final(self)@ == (match old(self)@ {
                Some(data) => Some(data + part@),
                None => None,
            }),
    {
        if part.len() == 0 {
            assert(self@ matches Some(data) ==> data + part@ =~= data);
            return SpoolStep::Rewind;
        }
        match self.digest.take() {
            Some(mut hasher) => {
                hasher.update(part);
                self.digest = Some(hasher);
            },
            None => {},
        }
        SpoolStep::Write
    }

    /// The hash of what came in, where it was asked for.
    pub fn finish(self) -> (hash: Option<String>)
        requires
            self@ matches Some(data) ==> hashable(data),
        ensures
            hash is Some <==> self@ is Some,
            hash matches Some(hash) ==> hash@ == content_hash(self@->0) && hash@.len() == 64,
    {
        match self.digest {
            Some(hasher) => {
                let digest: Vec<u8> = hasher.finalize();
                Some(to_lower_hex(digest.as_slice()))
            },
            None => None,
        }
    }
}

/// The value of a hexadecimal digit, of either case.
pub open spec fn hex_value(c: char) -> Option<int> {
    if '0' <= c && c <= '9' {
        Some(c as int - '0' as int)
    } else if 'a' <= c && c <= 'f' {
        Some(c as int - 'a' as int + 10)
    } else if 'A' <= c && c <= 'F' {
        Some(c as int - 'A' as int + 10)
    } else {
        None
    }
}

/// The bytes that hexadecimal digits stand for, two digits for each.
pub open spec fn hex_decoded(text: Seq<char>) -> Option<Seq<u8>> {
    if text.len() % 2 == 0 && (forall|i: int|
        0 <= i < text.len() ==> hex_value(#[trigger] text[i]) is Some) {
        Some(
            Seq::new(
                text.len() / 2,
                |i: int|
                    (16 * hex_value(text[2 * i])->0 + hex_value(text[2 * i + 1])->0) as u8,
            ),
        )
    } else {
        None
    }
}

/// `hex::decode`: the bytes that hexadecimal digits of either case stand for, where there is an
/// even number of them and nothing else.
#[verifier::external_body]
fn hex_decode(text: &str) -> (bytes: Option<Vec<u8>>)
    ensures
        bytes is Some <==> hex_decoded(text@) is Some,
        bytes matches Some(bytes) ==> hex_decoded(text@) == Some(bytes@),
{
    hex::decode(text).ok()
}

/// The symbol of the value `v` in the standard base64 alphabet.
pub open spec fn base64_symbol(v: int) -> char {
    if v < 26 {
        ('A' as int + v) as char
    } else if v < 52 {
        ('a' as int + v - 26) as char
    } else if v < 62 {
        ('0' as int + v - 52) as char
    } else if v == 62 {
        '+'
    } else {
        '/'
    }
}

/// The byte of `data` at `i`, or zero behind its end.
pub open spec fn byte_or_zero(data: Seq<u8>, i: int) -> int {
    if i < data.len() {
        data[i] as int
    } else {
        0
    }
}

/// The 24 bits of the three bytes of `data` from `at` on, with zeros behind its end.
pub open spec fn base64_bits(data: Seq<u8>, at: int) -> int {
    0x10000 * byte_or_zero(data, at) + 0x100 * byte_or_zero(data, at + 1) + byte_or_zero(
        data,
        at + 2,
    )
}

/// The standard base64 encoding of `data`, with padding: each three bytes become four symbols of
/// six bits, the highest first, and padding stands for the symbols that no bit of `data` is in.
pub open spec fn base64_encoded(data: Seq<u8>) -> Seq<char> {
    Seq::new(
        4 * ((data.len() + 2) / 3),
        |i: int|
            {
                let at = i / 4 * 3;
                let bits = base64_bits(data, at);
                if i % 4 == 0 {
                    base64_symbol(bits / 0x40000)
                } else if i % 4 == 1 {
                    base64_symbol(bits / 0x1000 % 64)
                } else if at + i % 4 > data.len() {
                    '='
                } else if i % 4 == 2 {
                    base64_symbol(bits / 64 % 64)
                } else {
                    base64_symbol(bits % 64)
                }
            },
    )
}

/// `base64::encode`: the standard base64 encoding, with padding. It panics where there can be no
/// buffer of the length of the result; a quarter of the largest length is far from that.
#[verifier::external_body]
fn base64_encode(data: &[u8]) -> (text: String)
    requires
        data@.len() <= usize::MAX / 4,
    ensures
        text@ == base64_encoded(data@),
{
    base64::encode(data)
}

/// The checksum of a blob in the form in which object stores take it: the base64 encoding of the
/// bytes that the blob's hash stands for.
pub fn checksum_of_hash(hash: &str) -> (checksum: String)
    requires
        hex_decoded(hash@) is Some,
        hash@.len() <= usize::MAX / 2,
    ensures
        checksum@ == base64_encoded(hex_decoded(hash@)->0),
{
    let bytes: Vec<u8> = hex_decode(hash).unwrap();
    base64_encode(bytes.as_slice())
}

/// The digits of bytes stand for those bytes.
pub proof fn law_hex_round_trip(bytes: Seq<u8>)
    ensures
        hex_decoded(lower_hex(bytes)) == Some(bytes),
{
    let text = lower_hex(bytes);
    assert forall|i: int| 0 <= i < text.len() implies hex_value(#[trigger] text[i]) == Some(
        if i % 2 == 0 {
            bytes[i / 2] as int / 16
        } else {
            bytes[i / 2] as int % 16
        },
    ) by {
        let value = if i % 2 == 0 { bytes[i / 2] as int / 16 } else { bytes[i / 2] as int % 16 };
        assert(0 <= value < 16);
        assert(digit(value) as int == if value < 10 {
            '0' as int + value
        } else {
            'a' as int + value - 10
        });
    }
    assert(hex_decoded(text)->0 =~= bytes) by {
        assert forall|i: int| 0 <= i < bytes.len() implies hex_decoded(text)->0[i]
            == bytes[i] by {
            assert(hex_value(text[2 * i]) == Some(bytes[i] as int / 16));
            assert(hex_value(text[2 * i + 1]) == Some(bytes[i] as int % 16));
        }
    }
}

/// The checksum of a blob that is named by its content hash is the encoding of its SHA-256.
pub proof fn law_checksum_is_of_content(data: Seq<u8>)
    ensures
        hex_decoded(content_hash(data)) is Some,
        base64_encoded(hex_decoded(content_hash(data))->0) == base64_encoded(sha256(data)),
{
    law_hex_round_trip(sha256(data));
}

/// What came in when `parts` came in, one after the other, behind `data`.
pub open spec fn fed(data: Seq<u8>, parts: Seq<Seq<u8>>) -> Seq<u8>
    decreases parts.len(),
{
    if parts.len() == 0 {
        data
    } else {
        fed(data + parts[0], parts.drop_first())
    }
}

/// Parts that came in one after the other make up the blob.
proof fn lemma_fed(data: Seq<u8>, parts: Seq<Seq<u8>>)
    ensures
        fed(data, parts) == data + parts.flatten(),
    decreases parts.len(),
{
    if parts.len() == 0 {
        assert(data + parts.flatten() =~= data);
    } else {
        lemma_fed(data + parts[0], parts.drop_first());
        assert(fed(data, parts) =~= data + parts.flatten());
    }
}

/// A blob has the same hash however it is cut into parts.
pub proof fn law_hash_is_of_whole(parts: Seq<Seq<u8>>)
    ensures
        content_hash(fed(Seq::empty(), parts)) == content_hash(parts.flatten()),
{
    lemma_fed(Seq::empty(), parts);
    assert(Seq::<u8>::empty() + parts.flatten() =~= parts.flatten());
}

/// A hash has two digits for each byte of the digest, in order, those of its upper and of its lower
/// half, in lower case.
pub proof fn law_hash_is_lower_case(digest: Seq<u8>, i: int)
    requires
        0 <= i < digest.len(),
    ensures
        lower_hex(digest).len() == 2 * digest.len(),
        lower_hex(digest)[2 * i] as int == (if digest[i] / 16 < 10 {
            48 + digest[i] / 16
        } else {
            87 + digest[i] / 16
        }),
        lower_hex(digest)[2 * i + 1] as int == (if digest[i] % 16 < 10 {
            48 + digest[i] % 16
        } else {
            87 + digest[i] % 16
        }),
{
    law_hex_byte_is_lower_case(digest[i]);
    assert(lower_hex(digest)[2 * i] == hex_byte(digest[i])[0]);
    assert(lower_hex(digest)[2 * i + 1] == hex_byte(digest[i])[1]);
}

/// A blob is named by the digits of its SHA-256, all of them and no others.
pub proof fn law_blob_is_named_by_its_digest(data: Seq<u8>)
    ensures
        content_hash(data) == lower_hex(sha256(data)),
        content_hash(data).len() == 2 * sha256(data).len(),
{
}

} // verus!
