//! Hashes, text encodings of bytes, random secrets and the clock.
use vstd::prelude::*;
use vstd::utf8::*;

use base64::Engine;
use sha2::Digest;

verus! {

/// The SHA-256 digest of `bytes`.
pub uninterp spec fn sha256(bytes: Seq<u8>) -> Seq<u8>;

/// The bytes that a running hash has taken in.
pub uninterp spec fn absorbed(hash: StreamHash) -> Seq<u8>;

/// `text` as a JSON string, quotes and escapes included.
pub uninterp spec fn json_string(text: Seq<char>) -> Seq<char>;

/// `bytes` in URL-safe base64 without padding.
pub uninterp spec fn base64url(bytes: Seq<u8>) -> Seq<char>;

/// The bytes that a text in URL-safe base64 without padding stands for.
pub uninterp spec fn base64url_bytes(text: Seq<char>) -> Option<Seq<u8>>;

/// The lower-case hexadecimal digit of a value below sixteen.
pub open spec fn hex_digit(value: u8) -> char {
    if value < 10 {
        (48 + value) as char
    } else {
        (87 + value) as char
    }
}

/// The value of a hexadecimal digit of either case.
pub open spec fn hex_value(c: char) -> u8 {
    if '0' <= c <= '9' {
        (c as int - 48) as u8
    } else if 'a' <= c <= 'f' {
        (c as int - 87) as u8
    } else {
        (c as int - 55) as u8
    }
}

/// `bytes` in lower-case hexadecimal, two digits each, high half first.
pub open spec fn hex_text(bytes: Seq<u8>) -> Seq<char> {
    Seq::new(
        2 * bytes.len(),
        |i: int|
            hex_digit(
                if i % 2 == 0 {
                    bytes[i / 2] / 16
                } else {
                    bytes[i / 2] % 16
                },
            ),
    )
}

/// The bytes that a hexadecimal text of either case stands for: an even number of
/// digits and nothing else.
pub open spec fn hex_bytes(text: Seq<char>) -> Option<Seq<u8>> {
    if text.len() % 2 == 0 && (forall|i: int|
        0 <= i < text.len() ==> crate::text::is_hex_digit(#[trigger] text[i])) {
        Some(
            Seq::new(
                (text.len() / 2) as nat,
                |i: int| (16 * hex_value(text[2 * i]) + hex_value(text[2 * i + 1])) as u8,
            ),
        )
    } else {
        None
    }
}

/// `count` bytes in lower-case hexadecimal.
pub open spec fn is_hex_of(text: Seq<char>, count: nat) -> bool {
    exists|bytes: Seq<u8>| bytes.len() == count && text == #[trigger] hex_text(bytes)
}

/// The digest of `bytes` as the protocol writes it.
pub open spec fn hash_text(bytes: Seq<u8>) -> Seq<char> {
    hex_text(sha256(bytes))
}

/// The bytes of an optional byte string.
pub open spec fn opt_bytes(bytes: Option<Vec<u8>>) -> Option<Seq<u8>> {
    match bytes {
        Some(v) => Some(v@),
        None => None,
    }
}

/// Calls `sha2::Sha256::digest`, which returns the 32 bytes of the SHA-256 digest.
#[verifier::external_body]
pub(crate) fn sha256_of(bytes: &[u8]) -> (digest: Vec<u8>)
    ensures
        digest@ == sha256(bytes@),
        digest@.len() == 32,
{
    sha2::Sha256::digest(bytes).to_vec()
}

/// A SHA-256 computation over bytes that arrive in pieces.
#[verifier::external_body]
pub struct StreamHash {
    state: sha2::Sha256,
}

/// Calls `sha2::Sha256::new`: a hash that has taken in nothing.
#[verifier::external_body]
fn stream_new() -> (hash: StreamHash)
    ensures
        absorbed(hash) == Seq::<u8>::empty(),
{
    StreamHash { state: sha2::Sha256::new() }
}

/// Calls `Digest::update`, which takes in further bytes after those before.
#[verifier::external_body]
fn stream_update(hash: &mut StreamHash, bytes: &[u8])
    ensures
        absorbed(*final(hash)) == absorbed(*old(hash)) + bytes@,
{
    hash.state.update(bytes);
}

/// Calls `Digest::finalize`: the digest of everything taken in, as
/// `Sha256::digest` gives it for the same bytes at once.
#[verifier::external_body]
fn stream_finalize(hash: StreamHash) -> (digest: Vec<u8>)
    ensures
        digest@ == sha256(absorbed(hash)),
        digest@.len() == 32,
{
    hash.state.finalize().to_vec()
}

/// Calls `hex::encode`, which writes each byte as two lower-case digits.
#[verifier::external_body]
pub(crate) fn hex_encode(bytes: &[u8]) -> (text: String)
    ensures
        text@ == hex_text(bytes@),
{
    hex::encode(bytes)
}

/// Calls `hex::decode`, which takes an even number of digits of either case and
/// fails on anything else.
#[verifier::external_body]
pub(crate) fn hex_decode(text: &str) -> (bytes: Option<Vec<u8>>)
    ensures
        opt_bytes(bytes) == hex_bytes(text@),
{
    hex::decode(text).ok()
}

/// Calls `Engine::encode` of base64's `URL_SAFE_NO_PAD`. The text holds letters,
/// digits, `-` and `_`, four for every three bytes, and decodes to the same bytes.
#[verifier::external_body]
pub(crate) fn base64_encode(bytes: &[u8]) -> (text: String)
    ensures
        text@ == base64url(bytes@),
        text@.len() == (4 * bytes@.len() + 2) / 3,
        is_ascii_chars(text@),
        base64url_bytes(text@) == Some(bytes@),
{
    base64::engine::general_purpose::URL_SAFE_NO_PAD.encode(bytes)
}

/// Calls `Engine::decode` of base64's `URL_SAFE_NO_PAD`; its error is dropped.
#[verifier::external_body]
pub(crate) fn base64_decode(text: &str) -> (bytes: Option<Vec<u8>>)
    ensures
        opt_bytes(bytes) == base64url_bytes(text@),
{
    base64::engine::general_purpose::URL_SAFE_NO_PAD.decode(text).ok()
}

/// Calls `serde_json::to_string` on a string, which cannot fail.
#[verifier::external_body]
pub(crate) fn json_quote(text: &str) -> (json: String)
    ensures
        json@ == json_string(text@),
{
    serde_json::to_string(text).unwrap()
}

/// Calls `getrandom::fill` on a buffer of `count` bytes; it fails where the
/// system has no random source. The bytes themselves are left to chance.
#[verifier::external_body]
pub(crate) fn random_bytes(count: usize) -> (bytes: Option<Vec<u8>>)
    ensures
        bytes matches Some(v) ==> v@.len() == count,
{
    let mut buffer = vec![0u8; count];
    getrandom::fill(&mut buffer).ok().map(|_| buffer)
}

/// Calls `uuid::Uuid::new_v4` and writes it without hyphens: 16 bytes in lower-case
/// hexadecimal, left to chance otherwise. The program ends where the system has
/// no random source.
#[verifier::external_body]
pub(crate) fn random_uuid() -> (text: String)
    ensures
        is_hex_of(text@, 16),
{
    uuid::Uuid::new_v4().simple().to_string()
}

/// Calls `std::time::SystemTime::now`: the whole seconds since 1970, as the machine's
/// clock has them, or `None` where it stands before that. Nothing is promised of the result.
#[verifier::external_body]
pub(crate) fn unix_seconds() -> (elapsed: Option<u64>) {
    let now = std::time::SystemTime::now();
    now.duration_since(std::time::UNIX_EPOCH).ok().map(|elapsed| elapsed.as_secs())
}

impl StreamHash {
    /// A hash that has taken in nothing.
    pub fn new() -> (hash: Self)
        ensures
            absorbed(hash) == Seq::<u8>::empty(),
    {
        stream_new()
    }

    /// Takes in further bytes.
    pub fn update(&mut self, bytes: &[u8])
        ensures
            absorbed(*final(self)) == absorbed(*old(self)) + bytes@,
    {
        stream_update(self, bytes);
    }

    /// The digest of everything taken in, in hexadecimal.
    pub fn finish(self) -> (text: String)
        ensures
            text@ == hash_text(absorbed(self)),
            text@.len() == 64,
    {
        let digest = stream_finalize(self);
        hex_encode(digest.as_slice())
    }
}

/// The digest and the size of a file that is read in pieces.
pub struct FileDigest {
    hash: StreamHash,
    size: i64,
}

impl FileDigest {
    pub closed spec fn content(self) -> Seq<u8> {
        absorbed(self.hash)
    }

    pub closed spec fn wf(self) -> bool {
        self.size == absorbed(self.hash).len()
    }

    pub fn new() -> (digest: Self)
        ensures
            digest.wf(),
            digest.content() == Seq::<u8>::empty(),
    {
        FileDigest { hash: StreamHash::new(), size: 0 }
    }

    /// Takes in the next piece, unless the size can no longer be told.
    pub fn accept(&mut self, chunk: &[u8]) -> (taken: bool)
        requires
            old(self).wf(),
        ensures
            final(self).wf(),
            taken == (old(self).content().len() + chunk@.len() <= i64::MAX),
            final(self).content() == if taken {
                old(self).content() + chunk@
            } else {
                old(self).content()
            },
    {
        let length: usize = chunk.len();
        if length as u128 + self.size as u128 > i64::MAX as u128 {
            return false;
        }
        self.hash.update(chunk);
        self.size = self.size + length as i64;
        true
    }

    /// The digest in hexadecimal, and the size.
    pub fn finish(self) -> (done: (String, i64))
        requires
            self.wf(),
        ensures
            done.0@ == hash_text(self.content()),
            done.1 == self.content().len(),
    {
        let size: i64 = self.size;
        (self.hash.finish(), size)
    }
}

/// The SHA-256 digest of `bytes` in hexadecimal.
pub fn hash(bytes: &[u8]) -> (text: String)
    ensures
        text@ == hash_text(bytes@),
        text@.len() == 64,
{
    let digest = sha256_of(bytes);
    hex_encode(digest.as_slice())
}

proof fn lemma_hex_digit(value: u8)
    requires
        value < 16,
    ensures
        crate::text::is_hex_digit(hex_digit(value)),
        hex_value(hex_digit(value)) == value,
{
}

/// A lower-case hexadecimal digit.
pub open spec fn is_lower_hex(c: char) -> bool {
    '0' <= c <= '9' || 'a' <= c <= 'f'
}

/// What the text of some bytes is made of.
pub proof fn lemma_hex_of(text: Seq<char>, count: nat)
    requires
        is_hex_of(text, count),
    ensures
        text.len() == 2 * count,
        forall|i: int| 0 <= i < text.len() ==> is_lower_hex(#[trigger] text[i]),
        is_ascii_chars(text),
        hex_bytes(text) is Some,
        hex_bytes(text)->0.len() == count,
{
    let bytes = choose|bytes: Seq<u8>| bytes.len() == count && text == #[trigger] hex_text(bytes);
    law_hex_round_trip(bytes);
    assert forall|i: int| 0 <= i < text.len() implies is_lower_hex(#[trigger] text[i]) by {
        lemma_hex_digit(bytes[i / 2] / 16);
        lemma_hex_digit(bytes[i / 2] % 16);
    }
}

/// Texts of bytes side by side are the text of the bytes side by side.
pub proof fn lemma_hex_join(a: Seq<char>, b: Seq<char>, m: nat, n: nat)
    requires
        is_hex_of(a, m),
        is_hex_of(b, n),
    ensures
        is_hex_of(a + b, m + n),
{
    let x = choose|bytes: Seq<u8>| bytes.len() == m && a == #[trigger] hex_text(bytes);
    let y = choose|bytes: Seq<u8>| bytes.len() == n && b == #[trigger] hex_text(bytes);
    assert forall|i: int| 0 <= i < 2 * (m + n) implies (a + b)[i] == #[trigger] hex_text(x + y)[i] by {
        if i < 2 * m {
            assert((x + y)[i / 2] == x[i / 2]);
        } else {
            let j = i - 2 * m;
            assert(j / 2 == i / 2 - m && j % 2 == i % 2);
            assert((x + y)[i / 2] == y[j / 2]);
        }
    }
    assert(a + b =~= hex_text(x + y));
}

/// Reading back what was written in hexadecimal gives the same bytes.
pub proof fn law_hex_round_trip(bytes: Seq<u8>)
    ensures
        hex_bytes(hex_text(bytes)) == Some(bytes),
{
    let text = hex_text(bytes);
    assert forall|i: int| 0 <= i < text.len() implies crate::text::is_hex_digit(
        #[trigger] text[i],
    ) by {
        lemma_hex_digit(bytes[i / 2] / 16);
        lemma_hex_digit(bytes[i / 2] % 16);
    }
    let back = hex_bytes(text)->0;
    assert(text.len() % 2 == 0);
    assert forall|i: int| 0 <= i < bytes.len() implies #[trigger] back[i] == bytes[i] by {
        let b = bytes[i];
        lemma_hex_digit(b / 16);
        lemma_hex_digit(b % 16);
        assert((2 * i) / 2 == i && (2 * i + 1) / 2 == i && (2 * i) % 2 == 0 && (2 * i + 1) % 2
            == 1);
        assert(text[2 * i] == hex_digit(b / 16));
        assert(text[2 * i + 1] == hex_digit(b % 16));
        assert(16 * (b / 16) + b % 16 == b);
    }
    assert(back =~= bytes);
}

/// Two digits stand for each byte, the higher half first, in lower case.
pub proof fn law_two_digits_for_each_byte(bytes: Seq<u8>, i: int)
    requires
        0 <= i < bytes.len(),
    ensures
        hex_text(bytes).len() == 2 * bytes.len(),
        is_lower_hex(hex_text(bytes)[2 * i]),
        is_lower_hex(hex_text(bytes)[2 * i + 1]),
        16 * hex_value(hex_text(bytes)[2 * i]) + hex_value(hex_text(bytes)[2 * i + 1]) == bytes[i],
{
    assert((2 * i) % 2 == 0 && (2 * i) / 2 == i);
    assert((2 * i + 1) % 2 == 1 && (2 * i + 1) / 2 == i);
}

/// Text is read as bytes exactly where it is an even number of hexadecimal digits, of either
/// case; a digit means the same in both.
pub proof fn law_even_digits_are_read(text: Seq<char>, c: char)
    ensures
        hex_bytes(text) is Some <==> text.len() % 2 == 0 && forall|i: int|
            0 <= i < text.len() ==> (('0' <= (#[trigger] text[i]) <= '9') || ('a' <= text[i] <= 'f')
                || ('A' <= text[i] <= 'F')),
        hex_bytes(text) matches Some(bytes) ==> 2 * bytes.len() == text.len(),
        'a' <= c <= 'f' ==> hex_value(c) == hex_value((c as int - 32) as char) && hex_value(c)
            == c as int - 'a' as int + 10,
        '0' <= c <= '9' ==> hex_value(c) == c as int - '0' as int,
{
    if forall|i: int|
        0 <= i < text.len() ==> (('0' <= (#[trigger] text[i]) <= '9') || ('a' <= text[i] <= 'f') || (
        'A' <= text[i] <= 'F')) {
        assert forall|i: int| 0 <= i < text.len() implies crate::text::is_hex_digit(
            #[trigger] text[i],
        ) by {
            assert(('0' <= text[i] <= '9') || ('a' <= text[i] <= 'f') || ('A' <= text[i] <= 'F'));
        }
    } else {
        let i = choose|i: int|
            0 <= i < text.len() && !(('0' <= (#[trigger] text[i]) <= '9') || ('a' <= text[i] <= 'f')
                || ('A' <= text[i] <= 'F'));
        assert(!crate::text::is_hex_digit(text[i]));
    }
}

} // verus!
