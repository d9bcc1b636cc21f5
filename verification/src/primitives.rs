//! Hashing, encoding, URL parsing, randomness and clocks. Each item here
//! makes one call into `sha2`, `subtle`, `base64`, `reqwest` (its `Url`),
//! `rand`, `uuid` or `std::time`; its contract says what that call returns,
//! and nothing more.
use base64::Engine;
use rand::RngCore;
use sha2::Digest;
use subtle::ConstantTimeEq;
use vstd::prelude::*;

verus! {

/// The SHA-256 digest of the UTF-8 encoding of `text`.
pub uninterp spec fn sha256_utf8(text: Seq<char>) -> Seq<u8>;


/// The character of the 6-bit value `v` in the URL-safe base64 alphabet.
pub open spec fn base64_url_char(v: int) -> char {
    if v < 26 {
        ('A' as int + v) as char
    } else if v < 52 {
        ('a' as int + (v - 26)) as char
    } else if v < 62 {
        ('0' as int + (v - 52)) as char
    } else if v == 62 {
        '-'
    } else {
        '_'
    }
}

/// The base64 text (URL-safe alphabet, no padding) of `bytes`: each three
/// bytes give four characters of six bits each, most significant first; a
/// last one or two bytes give two or three characters, the missing low bits
/// zero.
pub open spec fn base64_url_encoded(bytes: Seq<u8>) -> Seq<char>
    decreases bytes.len(),
{
    if bytes.len() == 0 {
        Seq::empty()
    } else if bytes.len() == 1 {
        let n = bytes[0] as int;
        seq![base64_url_char(n / 4), base64_url_char((n % 4) * 16)]
    } else if bytes.len() == 2 {
        let n = bytes[0] as int * 256 + bytes[1] as int;
        seq![base64_url_char(n / 1024), base64_url_char((n / 16) % 64), base64_url_char((n % 16) * 4)]
    } else {
        let n = bytes[0] as int * 65536 + bytes[1] as int * 256 + bytes[2] as int;
        seq![
            base64_url_char(n / 262144),
            base64_url_char((n / 4096) % 64),
            base64_url_char((n / 64) % 64),
            base64_url_char(n % 64),
        ] + base64_url_encoded(bytes.skip(3))
    }
}

/// Calls `sha2::Sha256::digest` on the UTF-8 bytes of `text`. Claimed: the
/// 32-byte digest is `sha256_utf8(text@)`, a function of the text alone.
#[verifier::external_body]
pub(crate) fn sha256_of_text(text: &str) -> (digest: [u8; 32])
    ensures
        digest@ == sha256_utf8(text@),
{
    sha2::Sha256::digest(text.as_bytes()).into()
}

/// Calls `subtle::ConstantTimeEq::ct_eq` on two byte slices and converts the
/// `Choice` to `bool`. Claimed: true exactly when the slices are equal (the
/// crate answers false at once for slices of different lengths).
#[verifier::external_body]
pub(crate) fn constant_time_eq(left: &[u8], right: &[u8]) -> (equal: bool)
    ensures
        equal == (left@ == right@),
{
    bool::from(left.ct_eq(right))
}

#[verifier::external_type_specification]
#[verifier::external_body]
pub struct ExDecodeError(base64::DecodeError);

/// The bytes whose URL-safe, unpadded base64 text is `text`, or `None` where
/// `text` is no such text (one at most: `law_base64_url_encoding_is_injective`).
pub open spec fn base64_url_decoded(text: Seq<char>) -> Option<Seq<u8>> {
    if exists|bytes: Seq<u8>| base64_url_encoded(bytes) == text {
        Some(choose|bytes: Seq<u8>| base64_url_encoded(bytes) == text)
    } else {
        None
    }
}

/// Calls `base64::Engine::decode` of the `URL_SAFE_NO_PAD` engine on the bytes
/// of `text`. Claimed: the engine accepts exactly the canonical texts (no
/// padding, no leftover bits), so the bytes it gives are those whose text is
/// `text`, and it refuses a text that no bytes have.
#[verifier::external_body]
fn base64_url_decode_raw(text: &str) -> (decoded: Result<Vec<u8>, base64::DecodeError>)
    ensures
        match decoded {
            Ok(bytes) => base64_url_encoded(bytes@) == text@,
            Err(_) => base64_url_decoded(text@) is None,
        },
{
    base64::engine::general_purpose::URL_SAFE_NO_PAD.decode(text)
}

/// Decodes URL-safe, unpadded base64: the bytes `base64_url_decoded` names,
/// or an error where there are none.
pub(crate) fn base64_url_decode(text: &str) -> (decoded: Result<Vec<u8>, base64::DecodeError>)
    ensures
        match decoded {
            Ok(bytes) => base64_url_decoded(text@) == Some(bytes@),
            Err(_) => base64_url_decoded(text@) is None,
        },
{
    let decoded = base64_url_decode_raw(text);
    proof {
        if let Ok(bytes) = &decoded {
            let found = choose|b: Seq<u8>| base64_url_encoded(b) == text@;
            law_base64_url_encoding_is_injective(found, bytes@);
        }
    }
    decoded
}

/// Calls `base64::Engine::encode` of the `URL_SAFE_NO_PAD` engine. Claimed:
/// the text is `base64_url_encoded(bytes@)`, URL-safe base64 without
/// padding.
#[verifier::external_body]
pub(crate) fn base64_url_encode(bytes: &[u8]) -> (text: String)
    ensures
        text@ == base64_url_encoded(bytes@),
{
    base64::engine::general_purpose::URL_SAFE_NO_PAD.encode(bytes)
}

#[verifier::external_type_specification]
#[verifier::external_body]
pub struct ExRandError(rand::Error);

/// Fills `count` bytes from `rand::rngs::OsRng` (`RngCore::try_fill_bytes`).
/// Claimed: where it succeeds, `count` bytes come back. Their values are
/// chance and are not stated; the error comes where the operating system
/// refuses randomness.
#[verifier::external_body]
pub(crate) fn random_bytes(count: usize) -> (bytes: Result<Vec<u8>, rand::Error>)
    ensures
        bytes matches Ok(b) ==> b@.len() == count,
{
    let mut bytes = vec![0u8; count];
    rand::rngs::OsRng.try_fill_bytes(&mut bytes)?;
    Ok(bytes)
}

/// The number that bytes denote, most significant first.
pub open spec fn big_endian(bytes: Seq<u8>) -> nat
    decreases bytes.len(),
{
    if bytes.len() == 0 {
        0
    } else {
        (big_endian(bytes.drop_last()) * 256 + bytes.last()) as nat
    }
}

/// Sixteen random bytes with the version (4) and variant (RFC 4122) bits of
/// a random UUID set.
pub open spec fn uuid_v4_bytes(bytes: Seq<u8>) -> Seq<u8> {
    bytes.update(6, (bytes[6] & 0x0f) | 0x40).update(8, (bytes[8] & 0x3f) | 0x80)
}

/// Calls `uuid::Builder::from_random_bytes` and returns the identifier as its
/// 128-bit value (`into_uuid`, `Uuid::as_u128`). Claimed: the value is the
/// bytes, version and variant bits set, read most significant first.
#[verifier::external_body]
pub(crate) fn uuid_from_random(bytes: [u8; 16]) -> (id: u128)
    ensures
        id as nat == big_endian(uuid_v4_bytes(bytes@)),
{
    uuid::Builder::from_random_bytes(bytes).into_uuid().as_u128()
}

/// A random (version 4) UUID as its 128-bit value, from 16 bytes of the
/// operating system's randomness; the error where randomness is refused.
pub(crate) fn random_uuid() -> (id: Result<u128, rand::Error>)
    ensures
        id matches Ok(v) ==> exists|b: Seq<u8>| b.len() == 16 && v as nat == big_endian(uuid_v4_bytes(b)),
{
    let bytes = random_bytes(16)?;
    let mut raw = [0u8; 16];
    let mut i: usize = 0;
    while i < 16
        invariant
            0 <= i <= 16,
            bytes@.len() == 16,
            raw@.len() == 16,
            forall|j: int| 0 <= j < i ==> raw@[j] == bytes@[j],
        decreases 16 - i,
    {
        raw[i] = bytes[i];
        i = i + 1;
    }
    assert(raw@ =~= bytes@);
    Ok(uuid_from_random(raw))
}

/// The 128-bit value of the UUID that `uuid::Uuid::parse_str` reads from
/// `text`, or `None` where it refuses the text.
pub uninterp spec fn uuid_parsed(text: Seq<char>) -> Option<u128>;

#[verifier::external_type_specification]
#[verifier::external_body]
pub struct ExUuidError(uuid::Error);

/// Calls `uuid::Uuid::parse_str` and returns the identifier as its 128-bit
/// value (`Uuid::as_u128`). Claimed: the result is `uuid_parsed(text@)`, a
/// function of the text alone.
#[verifier::external_body]
pub(crate) fn parse_uuid(text: &str) -> (id: Result<u128, uuid::Error>)
    ensures
        match id {
            Ok(v) => uuid_parsed(text@) == Some(v),
            Err(_) => uuid_parsed(text@) is None,
        },
{
    match uuid::Uuid::parse_str(text) {
        Ok(id) => Ok(id.as_u128()),
        Err(error) => Err(error),
    }
}

#[verifier::external_type_specification]
#[verifier::external_body]
pub struct ExSystemTimeError(std::time::SystemTimeError);

#[verifier::external_type_specification]
#[verifier::external_body]
pub struct ExSystemTime(std::time::SystemTime);

/// Calls `std::time::SystemTime::now`. The time is not stated.
#[verifier::external_body]
fn system_now() -> (now: std::time::SystemTime) {
    std::time::SystemTime::now()
}

/// Calls `SystemTime::duration_since(UNIX_EPOCH)`: the time since the Unix
/// epoch, or the error where `time` lies before it. Not stated which.
#[verifier::external_body]
fn since_epoch(time: std::time::SystemTime) -> (elapsed: Result<
    std::time::Duration,
    std::time::SystemTimeError,
>) {
    time.duration_since(std::time::UNIX_EPOCH)
}

/// Calls `Duration::as_secs`: the whole seconds of the duration. Durations
/// are opaque here, so nothing is stated of the number.
#[verifier::external_body]
fn whole_seconds(duration: std::time::Duration) -> (seconds: u64) {
    duration.as_secs()
}

/// Seconds since the Unix epoch, zero for a clock set before the epoch.
pub(crate) fn unix_now() -> (seconds: u64) {
    match since_epoch(system_now()) {
        Ok(elapsed) => whole_seconds(elapsed),
        Err(_) => 0,
    }
}

/// The parts of a parsed URL that the configuration checks, as
/// `url::Url` reports them.
pub struct UrlParts {
    pub scheme: String,
    pub username: String,
    pub password: Option<String>,
    pub query: Option<String>,
    pub fragment: Option<String>,
    pub host: Option<String>,
}

pub struct UrlPartsView {
    pub scheme: Seq<char>,
    pub username: Seq<char>,
    pub password: Option<Seq<char>>,
    pub query: Option<Seq<char>>,
    pub fragment: Option<Seq<char>>,
    pub host: Option<Seq<char>>,
}

pub open spec fn text_view(text: Option<String>) -> Option<Seq<char>> {
    match text {
        Some(t) => Some(t@),
        None => None,
    }
}

impl View for UrlParts {
    type V = UrlPartsView;

    open spec fn view(&self) -> UrlPartsView {
        UrlPartsView {
            scheme: self.scheme@,
            username: self.username@,
            password: text_view(self.password),
            query: text_view(self.query),
            fragment: text_view(self.fragment),
            host: text_view(self.host),
        }
    }
}

/// What `url::Url::parse` makes of `text`: the scheme, user name, password,
/// query, fragment and host (`host_str`) it reports, or `None` where it
/// refuses the text.
pub uninterp spec fn parsed_url(text: Seq<char>) -> Option<UrlPartsView>;

#[verifier::external_type_specification]
#[verifier::external_body]
pub struct ExUrlParseError(url::ParseError);

/// Calls `reqwest::Url::parse` (the `url` crate's `Url`) and copies out the
/// parts the configuration checks. Claimed: the result is `parsed_url(text@)`,
/// a function of the text alone.
#[verifier::external_body]
pub(crate) fn parse_url(text: &str) -> (parts: Result<UrlParts, url::ParseError>)
    ensures
        match parts {
            Ok(p) => parsed_url(text@) == Some(p@),
            Err(_) => parsed_url(text@) is None,
        },
{
    let url = reqwest::Url::parse(text)?;
    Ok(UrlParts {
        scheme: url.scheme().to_owned(),
        username: url.username().to_owned(),
        password: url.password().map(str::to_owned),
        query: url.query().map(str::to_owned),
        fragment: url.fragment().map(str::to_owned),
        host: url.host_str().map(str::to_owned),
    })
}

#[verifier::external_type_specification]
#[verifier::external_body]
pub struct ExInstant(std::time::Instant);

/// Calls `std::time::Instant::now`. Opaque to the proofs.
#[verifier::external_body]
pub(crate) fn monotonic_origin() -> (origin: std::time::Instant) {
    std::time::Instant::now()
}

/// Calls `Instant::elapsed`: the time since `origin`. Not stated.
#[verifier::external_body]
fn elapsed_since(origin: &std::time::Instant) -> (elapsed: std::time::Duration) {
    origin.elapsed()
}

/// Calls `Duration::as_nanos`: the whole nanoseconds of the duration, opaque
/// here like the duration.
#[verifier::external_body]
fn whole_nanos(duration: std::time::Duration) -> (nanos: u128) {
    duration.as_nanos()
}

/// Nanoseconds elapsed since `origin`, on the monotonic clock.
pub(crate) fn nanos_since(origin: &std::time::Instant) -> (nanos: u128) {
    whole_nanos(elapsed_since(origin))
}

proof fn lemma_base64_char_injective(v: int, w: int)
    requires
        0 <= v < 64,
        0 <= w < 64,
        base64_url_char(v) == base64_url_char(w),
    ensures
        v == w,
{
    let cv = base64_url_char(v) as int;
    let cw = base64_url_char(w) as int;
    assert(cv == cw);
}

proof fn lemma_three_bytes(x: u32, y: u32)
    by (bit_vector)
    requires
        x < 0x100_0000,
        y < 0x100_0000,
        x / 262144 == y / 262144,
        (x / 4096) % 64 == (y / 4096) % 64,
        (x / 64) % 64 == (y / 64) % 64,
        x % 64 == y % 64,
    ensures
        x == y,
{
}

proof fn lemma_two_bytes(x: u32, y: u32)
    by (bit_vector)
    requires
        x < 0x1_0000,
        y < 0x1_0000,
        x / 1024 == y / 1024,
        (x / 16) % 64 == (y / 16) % 64,
        (x % 16) * 4 == (y % 16) * 4,
    ensures
        x == y,
{
}

proof fn lemma_bytes_of_three(a0: u32, a1: u32, a2: u32, b0: u32, b1: u32, b2: u32)
    by (bit_vector)
    requires
        a0 < 256,
        a1 < 256,
        a2 < 256,
        b0 < 256,
        b1 < 256,
        b2 < 256,
        a0 * 65536 + a1 * 256 + a2 == b0 * 65536 + b1 * 256 + b2,
    ensures
        a0 == b0,
        a1 == b1,
        a2 == b2,
{
}

proof fn lemma_bytes_of_two(a0: u32, a1: u32, b0: u32, b1: u32)
    by (bit_vector)
    requires
        a0 < 256,
        a1 < 256,
        b0 < 256,
        b1 < 256,
        a0 * 256 + a1 == b0 * 256 + b1,
    ensures
        a0 == b0,
        a1 == b1,
{
}

/// No two byte strings have the same URL-safe base64 text: the text gives
/// the bytes back.
pub proof fn law_base64_url_encoding_is_injective(a: Seq<u8>, b: Seq<u8>)
    requires
        base64_url_encoded(a) == base64_url_encoded(b),
    ensures
        a == b,
    decreases a.len(),
{
    let ea = base64_url_encoded(a);
    let eb = base64_url_encoded(b);
    if a.len() == 0 || b.len() == 0 {
        assert(ea.len() == 0 <==> a.len() == 0);
        assert(eb.len() == 0 <==> b.len() == 0);
        assert(a =~= b);
    } else if a.len() == 1 && b.len() == 1 {
        let x = a[0] as int;
        let y = b[0] as int;
        lemma_base64_char_injective(x / 4, y / 4);
        lemma_base64_char_injective((x % 4) * 16, (y % 4) * 16);
        assert(a =~= b);
    } else if a.len() == 2 && b.len() == 2 {
        let x = a[0] as int * 256 + a[1] as int;
        let y = b[0] as int * 256 + b[1] as int;
        lemma_base64_char_injective(x / 1024, y / 1024);
        lemma_base64_char_injective((x / 16) % 64, (y / 16) % 64);
        lemma_base64_char_injective((x % 16) * 4, (y % 16) * 4);
        lemma_two_bytes(x as u32, y as u32);
        lemma_bytes_of_two(a[0] as u32, a[1] as u32, b[0] as u32, b[1] as u32);
        assert(a =~= b);
    } else if a.len() >= 3 && b.len() >= 3 {
        let x = a[0] as int * 65536 + a[1] as int * 256 + a[2] as int;
        let y = b[0] as int * 65536 + b[1] as int * 256 + b[2] as int;
        assert(ea[0] == eb[0] && ea[1] == eb[1] && ea[2] == eb[2] && ea[3] == eb[3]);
        lemma_base64_char_injective(x / 262144, y / 262144);
        lemma_base64_char_injective((x / 4096) % 64, (y / 4096) % 64);
        lemma_base64_char_injective((x / 64) % 64, (y / 64) % 64);
        lemma_base64_char_injective(x % 64, y % 64);
        lemma_three_bytes(x as u32, y as u32);
        lemma_bytes_of_three(a[0] as u32, a[1] as u32, a[2] as u32, b[0] as u32, b[1] as u32, b[2] as u32);
        assert(base64_url_encoded(a.skip(3)) =~= ea.skip(4));
        assert(base64_url_encoded(b.skip(3)) =~= eb.skip(4));
        law_base64_url_encoding_is_injective(a.skip(3), b.skip(3));
        assert(a =~= b.take(3) + b.skip(3));
        assert(b =~= b.take(3) + b.skip(3));
    } else {
        assert(ea.len() != eb.len());
    }
}

} // verus!
