//! Access tokens: HS256-signed JSON web tokens that name a Telegram user and a
//! source and grant `events:write`, issued once a pairing is approved and
//! verified on every event delivery.
use crate::primitives::{random_uuid, unix_now};
use crate::table::{assoc_map, keys_unique, lemma_entry};
use crate::text::{chars_of, push_char, split_whitespace, word_bounds, word_spans, lemma_word_spans, range_equals};
use crate::values::{all_digits, digits_value, i64_of, parse_i64};
use std::collections::BTreeMap;
use jsonwebtoken::{Algorithm, DecodingKey, EncodingKey, Header, Validation};
use serde_json::Value;
use vstd::prelude::*;
use vstd::utf8::encode_utf8;

verus! {

#[verifier::external_type_specification]
#[verifier::external_body]
pub struct ExJwtError(jsonwebtoken::errors::Error);

/// The value of one claim, as far as the claims of this crate read it: a
/// string, a number (`None` where it is not a `u64`), or anything else.
pub enum ClaimValue {
    Text(String),
    Number(Option<u64>),
    Other,
}

pub enum ClaimView {
    Text(Seq<char>),
    Number(Option<u64>),
    Other,
}

impl View for ClaimValue {
    type V = ClaimView;

    open spec fn view(&self) -> ClaimView {
        match self {
            ClaimValue::Text(s) => ClaimView::Text(s@),
            ClaimValue::Number(n) => ClaimView::Number(*n),
            ClaimValue::Other => ClaimView::Other,
        }
    }
}

pub open spec fn claim_pairs(claims: Seq<(String, ClaimValue)>) -> Seq<(Seq<char>, ClaimView)> {
    claims.map_values(|c: (String, ClaimValue)| (c.0@, c.1@))
}

/// The claims of a list of named claim values, as a map from names.
pub open spec fn claims_map(claims: Seq<(String, ClaimValue)>) -> Map<Seq<char>, ClaimView> {
    assoc_map(claim_pairs(claims))
}

/// A claim that JSON carries back as it was written: a string or a `u64`.
pub open spec fn is_plain_claim(value: ClaimView) -> bool {
    value is Text || value matches ClaimView::Number(Some(_))
}

/// The claims in the payload of `token` (its second dot-separated part,
/// base64 and JSON decoded), as `jsonwebtoken::decode` reads them into a map
/// of names to values; `None` where the payload is not such a map.
pub uninterp spec fn token_claims(token: Seq<char>) -> Option<Map<Seq<char>, ClaimView>>;

/// The HS256 signature that `jsonwebtoken` computes for `message` under the
/// key `key` (the HMAC-SHA256 of the message's bytes, in URL-safe base64
/// without padding).
pub uninterp spec fn hs256_signature(message: Seq<char>, key: Seq<u8>) -> Seq<char>;

/// The position of the last `c` in `s`.
pub open spec fn last_position(s: Seq<char>, c: char) -> Option<int>
    decreases s.len(),
{
    if s.len() == 0 {
        None
    } else if s.last() == c {
        Some(s.len() - 1)
    } else {
        last_position(s.drop_last(), c)
    }
}

/// The token's last dot-separated part is the HS256 signature, under `key`,
/// of all that comes before that dot (the header and the payload).
pub open spec fn signed_with(token: Seq<char>, key: Seq<u8>) -> bool {
    match last_position(token, '.') {
        Some(p) => token.skip(p + 1) == hs256_signature(token.take(p), key),
        None => false,
    }
}

/// What `jsonwebtoken`'s validation asks of the claims: a string `aud` is the
/// audience, a string `iss` is the issuer, and `exp` is a number (the crate
/// also takes a non-negative float there, rounding it).
pub open spec fn claims_meet(
    claims: Map<Seq<char>, ClaimView>,
    audience: Seq<char>,
    issuer: Seq<char>,
) -> bool {
    &&& (claims.contains_key("aud"@) && claims["aud"@] is Text ==> claims["aud"@] == ClaimView::Text(
        audience,
    ))
    &&& (claims.contains_key("iss"@) && claims["iss"@] is Text ==> claims["iss"@] == ClaimView::Text(
        issuer,
    ))
    &&& claims.contains_key("exp"@)
    &&& claims["exp"@] is Number
}

/// Calls `jsonwebtoken::encode` with an HS256 header and
/// `EncodingKey::from_secret(secret)` on the claims as a JSON object. Claimed:
/// the call succeeds (an HMAC key always fits an HS256 header, and a map of
/// strings and numbers always serializes); the token is signed with `secret`;
/// and its payload holds these claims, as `token_claims` reads them (names
/// once each, strings and `u64` numbers, so that JSON gives them back
/// unchanged).
#[verifier::external_body]
pub(crate) fn sign_hs256(claims: &Vec<(String, ClaimValue)>, secret: &[u8]) -> (token: Result<
    String,
    jsonwebtoken::errors::Error,
>)
    requires
        keys_unique(claim_pairs(claims@)),
        forall|i: int| 0 <= i < claims@.len() ==> is_plain_claim((#[trigger] claims@[i]).1@),
    ensures
        token is Ok,
        token matches Ok(t) ==> (last_position(t@, '.') matches Some(p) && t@.skip(p + 1)
            == hs256_signature(t@.take(p), secret@)) && token_claims(t@) == Some(
            claims_map(claims@),
        ),
{
    let object: BTreeMap<&str, Value> = claims.iter().map(|(name, value)| (name.as_str(), match value {
        ClaimValue::Text(text) => Value::from(text.as_str()),
        ClaimValue::Number(number) => Value::from(*number),
        ClaimValue::Other => Value::Null,
    })).collect();
    jsonwebtoken::encode(&Header::new(Algorithm::HS256), &object, &EncodingKey::from_secret(secret))
}

/// Calls `jsonwebtoken::decode` into a map of claims, with
/// `Validation::new(Algorithm::HS256)` for the given audience and issuer and
/// `DecodingKey::from_secret(secret)`; the crate checks the signature, the
/// audience, the issuer and that `exp` has not passed by the clock. Claimed:
/// where it succeeds, the token is signed with `secret`, the claims meet the
/// audience and issuer and carry `exp`, and the claims that come back are the
/// ones `token_claims` reads from the token, each name once (a payload that
/// repeats a name is read with its last value: the map keeps one). When the
/// call succeeds is not stated beyond this: it also rests on the time.
#[verifier::external_body]
pub(crate) fn decode_hs256(token: &str, secret: &[u8], audience: &str, issuer: &str) -> (claims:
    Result<Vec<(String, ClaimValue)>, jsonwebtoken::errors::Error>)
    ensures
        claims matches Ok(c) ==> keys_unique(claim_pairs(c@)) && token_claims(token@) == Some(
            claims_map(c@),
        ) && (last_position(token@, '.') matches Some(p) && token@.skip(p + 1)
            == hs256_signature(token@.take(p), secret@)) && claims_meet(
            claims_map(c@),
            audience@,
            issuer@,
        ),
{
    let mut validation = Validation::new(Algorithm::HS256);
    validation.set_audience(&[audience]);
    validation.set_issuer(&[issuer]);
    let key = DecodingKey::from_secret(secret);
    let data = jsonwebtoken::decode::<BTreeMap<String, Value>>(token, &key, &validation)?;
    Ok(data.claims.into_iter().map(|(name, value)| (name, match value {
        Value::String(text) => ClaimValue::Text(text),
        Value::Number(number) => ClaimValue::Number(number.as_u64()),
        Value::Null => ClaimValue::Other,
        Value::Bool(_) => ClaimValue::Other,
        Value::Array(_) => ClaimValue::Other,
        Value::Object(_) => ClaimValue::Other,
    })).collect())
}


// ---------------------------------------------------------------------------
// Decimal and hexadecimal text

/// The character of the decimal digit `d`.
pub open spec fn digit_char(d: int) -> char {
    ('0' as int + d) as char
}

/// The decimal digits of `n`, most significant first, without leading zeros.
pub open spec fn digits_of(n: nat) -> Seq<char>
    decreases n,
{
    if n < 10 {
        seq![digit_char(n as int)]
    } else {
        digits_of(n / 10).push(digit_char((n % 10) as int))
    }
}

/// `v` in decimal, as `i64::to_string` writes it.
pub open spec fn decimal_of(v: int) -> Seq<char> {
    if v < 0 {
        seq!['-'] + digits_of((-v) as nat)
    } else {
        digits_of(v as nat)
    }
}

/// The character of the lowercase hexadecimal digit `d`.
pub open spec fn hex_char(d: int) -> char {
    if d < 10 {
        ('0' as int + d) as char
    } else {
        ('a' as int + d - 10) as char
    }
}

/// The last `count` hexadecimal digits of `n`, most significant first.
pub open spec fn hex_digits(n: nat, count: nat) -> Seq<char>
    decreases count,
{
    if count == 0 {
        Seq::empty()
    } else {
        hex_digits(n / 16, (count - 1) as nat).push(hex_char((n % 16) as int))
    }
}

/// The first `k` characters of `h`, with a dash before the characters at 8,
/// 12, 16 and 20.
pub open spec fn hyphenated(h: Seq<char>, k: int) -> Seq<char>
    decreases k,
{
    if k <= 0 {
        Seq::empty()
    } else {
        let before = hyphenated(h, k - 1);
        let dashed = if k - 1 == 8 || k - 1 == 12 || k - 1 == 16 || k - 1 == 20 {
            before.push('-')
        } else {
            before
        };
        dashed.push(h[k - 1])
    }
}

/// A UUID in its hyphenated lowercase form, as `uuid::Uuid` displays it.
pub open spec fn uuid_text_of(id: u128) -> Seq<char> {
    hyphenated(hex_digits(id as nat, 32), 32)
}

pub proof fn lemma_digits_of(n: nat)
    ensures
        digits_of(n).len() >= 1,
        all_digits(digits_of(n)),
        digits_value(digits_of(n)) == n,
    decreases n,
{
    if n < 10 {
        let s = digits_of(n);
        assert(digit_char(n as int) as int == '0' as int + n);
        assert(s.drop_last() =~= Seq::<char>::empty());
        assert(digits_value(s.drop_last()) == 0);
    } else {
        lemma_digits_of(n / 10);
        let s = digits_of(n);
        assert(s.drop_last() =~= digits_of(n / 10));
        assert(digit_char((n % 10) as int) as int == '0' as int + n % 10);
        assert((n / 10) * 10 + n % 10 == n);
        assert(s.last() == digit_char((n % 10) as int));
        assert forall|i: int| 0 <= i < s.len() implies crate::text::is_ascii_digit(#[trigger] s[i]) by {
            if i < s.len() - 1 {
                assert(s[i] == digits_of(n / 10)[i]);
            }
        }
    }
}

/// The decimal text of a number is read back as that number.
pub proof fn lemma_decimal_round_trip(v: i64)
    ensures
        i64_of(decimal_of(v as int)) == Some(v),
{
    if v < 0 {
        let m = (-(v as int)) as nat;
        lemma_digits_of(m);
        let s = decimal_of(v as int);
        assert(s.drop_first() =~= digits_of(m));
    } else {
        lemma_digits_of(v as nat);
        let s = digits_of(v as nat);
        assert(crate::text::is_ascii_digit(s[0]));
    }
}

fn digit(d: u64) -> (c: char)
    requires
        d < 10,
    ensures
        c == digit_char(d as int),
{
    let b: u8 = 48 + (d as u8);
    b as char
}

/// The decimal digits of `n`.
fn digits_text(n: u64) -> (digits: Vec<char>)
    ensures
        digits@ == digits_of(n as nat),
    decreases n,
{
    if n < 10 {
        let mut digits = Vec::new();
        digits.push(digit(n));
        assert(digits@ =~= seq![digit_char(n as int)]);
        digits
    } else {
        let mut digits = digits_text(n / 10);
        digits.push(digit(n % 10));
        digits
    }
}

/// `n` in decimal.
pub fn unsigned_text(n: u64) -> (text: String)
    ensures
        text@ == digits_of(n as nat),
{
    let digits = digits_text(n);
    let mut text = String::new();
    let mut i: usize = 0;
    while i < digits.len()
        invariant
            0 <= i <= digits@.len(),
            text@ == digits@.take(i as int),
        decreases digits@.len() - i,
    {
        push_char(&mut text, digits[i]);
        assert(digits@.take(i + 1) =~= digits@.take(i as int).push(digits@[i as int]));
        i = i + 1;
    }
    assert(digits@.take(digits@.len() as int) =~= digits@);
    text
}

/// `v` in decimal.
pub fn decimal_text(v: i64) -> (text: String)
    ensures
        text@ == decimal_of(v as int),
{
    let mut text = String::new();
    let magnitude: u64 = if v < 0 {
        push_char(&mut text, '-');
        ((-(v + 1)) as u64) + 1
    } else {
        v as u64
    };
    let digits = digits_text(magnitude);
    let ghost start = text@;
    let mut i: usize = 0;
    while i < digits.len()
        invariant
            0 <= i <= digits@.len(),
            text@ == start + digits@.take(i as int),
        decreases digits@.len() - i,
    {
        push_char(&mut text, digits[i]);
        assert(digits@.take(i + 1) =~= digits@.take(i as int).push(digits@[i as int]));
        i = i + 1;
    }
    assert(digits@.take(digits@.len() as int) =~= digits@);
    text
}

fn hex(d: u128) -> (c: char)
    requires
        d < 16,
    ensures
        c == hex_char(d as int),
{
    if d < 10 {
        let b: u8 = 48 + (d as u8);
        b as char
    } else {
        let b: u8 = 87 + (d as u8);
        b as char
    }
}

/// The last `count` hexadecimal digits of `n`.
fn hex_text(n: u128, count: usize) -> (digits: Vec<char>)
    ensures
        digits@ == hex_digits(n as nat, count as nat),
        digits@.len() == count,
    decreases count,
{
    if count == 0 {
        Vec::new()
    } else {
        let mut digits = hex_text(n / 16, count - 1);
        digits.push(hex(n % 16));
        digits
    }
}

/// A UUID in its hyphenated lowercase form.
pub fn uuid_text(id: u128) -> (text: String)
    ensures
        text@ == uuid_text_of(id),
{
    let digits = hex_text(id, 32);
    let mut text = String::new();
    let mut k: usize = 0;
    while k < 32
        invariant
            0 <= k <= 32,
            digits@ == hex_digits(id as nat, 32),
            digits@.len() == 32,
            text@ == hyphenated(digits@, k as int),
        decreases 32 - k,
    {
        if k == 8 || k == 12 || k == 16 || k == 20 {
            push_char(&mut text, '-');
        }
        push_char(&mut text, digits[k]);
        k = k + 1;
    }
    text
}


// ---------------------------------------------------------------------------
// Claims

/// The claims of an access token.
pub struct AccessClaims {
    pub iss: String,
    pub aud: String,
    pub sub: String,
    pub source: String,
    pub jti: String,
    pub iat: u64,
    pub exp: u64,
    pub scope: String,
}

pub struct AccessClaimsView {
    pub iss: Seq<char>,
    pub aud: Seq<char>,
    pub sub: Seq<char>,
    pub source: Seq<char>,
    pub jti: Seq<char>,
    pub iat: u64,
    pub exp: u64,
    pub scope: Seq<char>,
}

impl View for AccessClaims {
    type V = AccessClaimsView;

    open spec fn view(&self) -> AccessClaimsView {
        AccessClaimsView {
            iss: self.iss@,
            aud: self.aud@,
            sub: self.sub@,
            source: self.source@,
            jti: self.jti@,
            iat: self.iat,
            exp: self.exp,
            scope: self.scope@,
        }
    }
}

/// The claims issued to `user` for `source`: issuer `infraBot`, audience
/// `infraCLI`, the user id in decimal as subject, the token id `jti`, issued
/// at `issued_at`, expiring `ttl` seconds later (at the largest time where
/// that overflows), with the scope `events:write`.
pub open spec fn access_claims_of(
    user: i64,
    source: Seq<char>,
    jti: Seq<char>,
    issued_at: u64,
    ttl: u64,
) -> AccessClaimsView {
    AccessClaimsView {
        iss: "infraBot"@,
        aud: "infraCLI"@,
        sub: decimal_of(user as int),
        source,
        jti,
        iat: issued_at,
        exp: issued_at.saturating_add(ttl),
        scope: "events:write"@,
    }
}

/// The claims as a JSON object.
pub open spec fn claims_object(c: AccessClaimsView) -> Map<Seq<char>, ClaimView> {
    map![
        "iss"@ => ClaimView::Text(c.iss),
        "aud"@ => ClaimView::Text(c.aud),
        "sub"@ => ClaimView::Text(c.sub),
        "source"@ => ClaimView::Text(c.source),
        "jti"@ => ClaimView::Text(c.jti),
        "iat"@ => ClaimView::Number(Some(c.iat)),
        "exp"@ => ClaimView::Number(Some(c.exp)),
        "scope"@ => ClaimView::Text(c.scope)
    ]
}

/// The string claim `name`, where there is one.
pub open spec fn text_claim(m: Map<Seq<char>, ClaimView>, name: Seq<char>) -> Option<Seq<char>> {
    if m.contains_key(name) {
        match m[name] {
            ClaimView::Text(t) => Some(t),
            _ => None,
        }
    } else {
        None
    }
}

/// The `u64` claim `name`, where there is one.
pub open spec fn number_claim(m: Map<Seq<char>, ClaimView>, name: Seq<char>) -> Option<u64> {
    if m.contains_key(name) {
        match m[name] {
            ClaimView::Number(Some(n)) => Some(n),
            _ => None,
        }
    } else {
        None
    }
}

/// The access claims of a claims object: each of the eight present, of its
/// type (other claims are ignored).
pub open spec fn claims_read(m: Map<Seq<char>, ClaimView>) -> Option<AccessClaimsView> {
    match (text_claim(m, "iss"@), text_claim(m, "aud"@), text_claim(m, "sub"@), text_claim(m, "source"@)) {
        (Some(iss), Some(aud), Some(sub), Some(source)) => match (
            text_claim(m, "jti"@),
            number_claim(m, "iat"@),
            number_claim(m, "exp"@),
            text_claim(m, "scope"@),
        ) {
            (Some(jti), Some(iat), Some(exp), Some(scope)) => Some(
                AccessClaimsView { iss, aud, sub, source, jti, iat, exp, scope },
            ),
            _ => None,
        },
        _ => None,
    }
}

/// Whether a scope (space-separated words) grants `events:write`.
pub open spec fn grants_events_write(scope: Seq<char>) -> bool {
    split_whitespace(scope).contains("events:write"@)
}

/// Why an access token is not issued or not accepted.
#[derive(Debug, Clone, Copy, PartialEq, Eq, Structural)]
pub enum TokenError {
    /// The operating system refused the randomness for the token id.
    RandomnessUnavailable,
    /// The signature, audience, issuer, expiry or claims are not those of a
    /// valid token.
    Rejected,
    /// The scope does not grant `events:write`.
    MissingScope,
    /// The subject is not a Telegram user id.
    InvalidSubject,
    /// The token names no source.
    MissingSource,
}

/// A token issued to a CLI.
pub struct IssuedToken {
    pub access_token: String,
    pub expires_at: u64,
}

/// Who a verified token speaks for.
pub struct AuthorizedSource {
    pub telegram_user_id: i64,
    pub source: String,
}

pub struct AuthorizedView {
    pub telegram_user_id: i64,
    pub source: Seq<char>,
}

impl View for AuthorizedSource {
    type V = AuthorizedView;

    open spec fn view(&self) -> AuthorizedView {
        AuthorizedView { telegram_user_id: self.telegram_user_id, source: self.source@ }
    }
}

/// What the claims of a token grant: they must read as access claims whose
/// scope grants `events:write`, whose subject is an `i64` user id and whose
/// source is not empty.
pub open spec fn authorized_of(m: Map<Seq<char>, ClaimView>) -> Result<AuthorizedView, TokenError> {
    match claims_read(m) {
        None => Err(TokenError::Rejected),
        Some(c) => if !grants_events_write(c.scope) {
            Err(TokenError::MissingScope)
        } else {
            match i64_of(c.sub) {
                None => Err(TokenError::InvalidSubject),
                Some(id) => if c.source.len() == 0 {
                    Err(TokenError::MissingSource)
                } else {
                    Ok(AuthorizedView { telegram_user_id: id, source: c.source })
                },
            }
        },
    }
}

/// The token is signed with `secret` and carries the claims issued to `user`
/// for `source` with the lifetime `ttl`, at some time and with some token
/// id, and expires when they say.
pub open spec fn issued_for(
    token: Seq<char>,
    expires_at: u64,
    user: i64,
    source: Seq<char>,
    ttl: u64,
    secret: Seq<char>,
) -> bool {
    &&& signed_with(token, encode_utf8(secret))
    &&& exists|issued_at: u64, jti: u128|
        expires_at == issued_at.saturating_add(ttl) && token_claims(token) == Some(
            claims_object(#[trigger] access_claims_of(user, source, uuid_text_of(jti), issued_at, ttl)),
        )
}

/// The token is signed with `secret`, its claims meet the audience
/// `infraCLI` and the issuer `infraBot` and carry `exp`, and they grant
/// `authorized`.
pub open spec fn accepted_as(token: Seq<char>, secret: Seq<char>, authorized: AuthorizedView) -> bool {
    &&& signed_with(token, encode_utf8(secret))
    &&& token_claims(token) is Some
    &&& claims_meet(token_claims(token).unwrap(), "infraCLI"@, "infraBot"@)
    &&& authorized_of(token_claims(token).unwrap()) == Ok::<AuthorizedView, TokenError>(authorized)
}

/// The claims issued to `user` for `source`.
pub fn access_claims(user: i64, source: &str, jti: String, issued_at: u64, ttl: u64) -> (claims:
    AccessClaims)
    ensures
        claims@ == access_claims_of(user, source@, jti@, issued_at, ttl),
{
    AccessClaims {
        iss: "infraBot".to_owned(),
        aud: "infraCLI".to_owned(),
        sub: decimal_text(user),
        source: source.to_owned(),
        jti,
        iat: issued_at,
        exp: issued_at.saturating_add(ttl),
        scope: "events:write".to_owned(),
    }
}

proof fn lemma_claim_names_distinct()
    ensures
        "iss"@ != "aud"@,
        "iss"@ != "sub"@,
        "iss"@ != "source"@,
        "iss"@ != "jti"@,
        "iss"@ != "iat"@,
        "iss"@ != "exp"@,
        "iss"@ != "scope"@,
        "aud"@ != "sub"@,
        "aud"@ != "source"@,
        "aud"@ != "jti"@,
        "aud"@ != "iat"@,
        "aud"@ != "exp"@,
        "aud"@ != "scope"@,
        "sub"@ != "source"@,
        "sub"@ != "jti"@,
        "sub"@ != "iat"@,
        "sub"@ != "exp"@,
        "sub"@ != "scope"@,
        "source"@ != "jti"@,
        "source"@ != "iat"@,
        "source"@ != "exp"@,
        "source"@ != "scope"@,
        "jti"@ != "iat"@,
        "jti"@ != "exp"@,
        "jti"@ != "scope"@,
        "iat"@ != "exp"@,
        "iat"@ != "scope"@,
        "exp"@ != "scope"@,
{
    reveal_strlit("iss");
    reveal_strlit("aud");
    reveal_strlit("sub");
    reveal_strlit("source");
    reveal_strlit("jti");
    reveal_strlit("iat");
    reveal_strlit("exp");
    reveal_strlit("scope");
    assert("iss"@[0] != "aud"@[0]);
    assert("iss"@[0] != "sub"@[0]);
    assert("iss"@[1] != "source"@[1]);
    assert("iss"@[0] != "jti"@[0]);
    assert("iss"@[1] != "iat"@[1]);
    assert("iss"@[0] != "exp"@[0]);
    assert("iss"@[0] != "scope"@[0]);
    assert("aud"@[0] != "sub"@[0]);
    assert("aud"@[0] != "source"@[0]);
    assert("aud"@[0] != "jti"@[0]);
    assert("aud"@[0] != "iat"@[0]);
    assert("aud"@[0] != "exp"@[0]);
    assert("aud"@[0] != "scope"@[0]);
    assert("sub"@[1] != "source"@[1]);
    assert("sub"@[0] != "jti"@[0]);
    assert("sub"@[0] != "iat"@[0]);
    assert("sub"@[0] != "exp"@[0]);
    assert("sub"@[1] != "scope"@[1]);
    assert("source"@[0] != "jti"@[0]);
    assert("source"@[0] != "iat"@[0]);
    assert("source"@[0] != "exp"@[0]);
    assert("source"@[1] != "scope"@[1]);
    assert("jti"@[0] != "iat"@[0]);
    assert("jti"@[0] != "exp"@[0]);
    assert("jti"@[0] != "scope"@[0]);
    assert("iat"@[0] != "exp"@[0]);
    assert("iat"@[0] != "scope"@[0]);
    assert("exp"@[0] != "scope"@[0]);
}

/// The claims as named values, ready to be signed.
pub fn claim_entries(claims: &AccessClaims) -> (entries: Vec<(String, ClaimValue)>)
    ensures
        keys_unique(claim_pairs(entries@)),
        forall|i: int| 0 <= i < entries@.len() ==> is_plain_claim((#[trigger] entries@[i]).1@),
        claims_map(entries@) == claims_object(claims@),
{
    let mut entries: Vec<(String, ClaimValue)> = Vec::new();
    entries.push(("iss".to_owned(), ClaimValue::Text(claims.iss.clone())));
    entries.push(("aud".to_owned(), ClaimValue::Text(claims.aud.clone())));
    entries.push(("sub".to_owned(), ClaimValue::Text(claims.sub.clone())));
    entries.push(("source".to_owned(), ClaimValue::Text(claims.source.clone())));
    entries.push(("jti".to_owned(), ClaimValue::Text(claims.jti.clone())));
    entries.push(("iat".to_owned(), ClaimValue::Number(Some(claims.iat))));
    entries.push(("exp".to_owned(), ClaimValue::Number(Some(claims.exp))));
    entries.push(("scope".to_owned(), ClaimValue::Text(claims.scope.clone())));
    proof {
        lemma_claim_names_distinct();
        let pairs = claim_pairs(entries@);
        assert(pairs[0].0 == "iss"@);
        assert(pairs[1].0 == "aud"@);
        assert(pairs[2].0 == "sub"@);
        assert(pairs[3].0 == "source"@);
        assert(pairs[4].0 == "jti"@);
        assert(pairs[5].0 == "iat"@);
        assert(pairs[6].0 == "exp"@);
        assert(pairs[7].0 == "scope"@);
        assert(keys_unique(pairs));
        let m = claims_map(entries@);
        let o = claims_object(claims@);
        assert forall|k: Seq<char>| m.contains_key(k) <==> o.contains_key(k) by {
            if o.contains_key(k) {
                if k == "iss"@ { lemma_entry(pairs, 0); }
                else if k == "aud"@ { lemma_entry(pairs, 1); }
                else if k == "sub"@ { lemma_entry(pairs, 2); }
                else if k == "source"@ { lemma_entry(pairs, 3); }
                else if k == "jti"@ { lemma_entry(pairs, 4); }
                else if k == "iat"@ { lemma_entry(pairs, 5); }
                else if k == "exp"@ { lemma_entry(pairs, 6); }
                else { lemma_entry(pairs, 7); }
            }
        }
        lemma_entry(pairs, 0);
        lemma_entry(pairs, 1);
        lemma_entry(pairs, 2);
        lemma_entry(pairs, 3);
        lemma_entry(pairs, 4);
        lemma_entry(pairs, 5);
        lemma_entry(pairs, 6);
        lemma_entry(pairs, 7);
        assert(m =~= o);
    }
    entries
}


/// The value of the claim `name`.
fn claim<'a>(claims: &'a Vec<(String, ClaimValue)>, name: &str) -> (value: Option<&'a ClaimValue>)
    requires
        keys_unique(claim_pairs(claims@)),
    ensures
        match value {
            Some(v) => claims_map(claims@).contains_key(name@) && claims_map(claims@)[name@] == v@,
            None => !claims_map(claims@).contains_key(name@),
        },
{
    let wanted = name.to_owned();
    let ghost pairs = claim_pairs(claims@);
    let mut i: usize = 0;
    while i < claims.len()
        invariant
            0 <= i <= claims@.len(),
            wanted@ == name@,
            pairs == claim_pairs(claims@),
            keys_unique(pairs),
            forall|j: int| 0 <= j < i ==> (#[trigger] pairs[j]).0 != name@,
        decreases claims@.len() - i,
    {
        if claims[i].0 == wanted {
            proof {
                lemma_entry(pairs, i as int);
            }
            return Some(&claims[i].1);
        }
        assert(pairs[i as int].0 == claims@[i as int].0@);
        i = i + 1;
    }
    None
}

fn text_claim_of(claims: &Vec<(String, ClaimValue)>, name: &str) -> (text: Option<String>)
    requires
        keys_unique(claim_pairs(claims@)),
    ensures
        match text {
            Some(t) => text_claim(claims_map(claims@), name@) == Some(t@),
            None => text_claim(claims_map(claims@), name@) is None,
        },
{
    match claim(claims, name) {
        Some(ClaimValue::Text(t)) => Some(t.clone()),
        _ => None,
    }
}

fn number_claim_of(claims: &Vec<(String, ClaimValue)>, name: &str) -> (number: Option<u64>)
    requires
        keys_unique(claim_pairs(claims@)),
    ensures
        number == number_claim(claims_map(claims@), name@),
{
    match claim(claims, name) {
        Some(ClaimValue::Number(Some(n))) => Some(*n),
        _ => None,
    }
}

/// Reads the access claims out of decoded claims.
pub fn read_claims(claims: &Vec<(String, ClaimValue)>) -> (read: Option<AccessClaims>)
    requires
        keys_unique(claim_pairs(claims@)),
    ensures
        match read {
            Some(c) => claims_read(claims_map(claims@)) == Some(c@),
            None => claims_read(claims_map(claims@)) is None,
        },
{
    let iss = text_claim_of(claims, "iss");
    let aud = text_claim_of(claims, "aud");
    let sub = text_claim_of(claims, "sub");
    let source = text_claim_of(claims, "source");
    let jti = text_claim_of(claims, "jti");
    let iat = number_claim_of(claims, "iat");
    let exp = number_claim_of(claims, "exp");
    let scope = text_claim_of(claims, "scope");
    match (iss, aud, sub, source, jti, iat, exp, scope) {
        (Some(iss), Some(aud), Some(sub), Some(source), Some(jti), Some(iat), Some(exp), Some(scope)) => {
            Some(AccessClaims { iss, aud, sub, source, jti, iat, exp, scope })
        },
        _ => None,
    }
}

/// Whether `scope` grants `events:write`.
fn grants_write(scope: &str) -> (granted: bool)
    ensures
        granted == grants_events_write(scope@),
{
    let chars = chars_of(scope);
    let spans = word_bounds(chars.as_slice());
    let wanted = chars_of("events:write");
    let ghost words = split_whitespace(scope@);
    proof {
        lemma_word_spans(scope@);
    }
    let mut k: usize = 0;
    while k < spans.len()
        invariant
            0 <= k <= spans@.len(),
            chars@ == scope@,
            wanted@ == "events:write"@,
            words == split_whitespace(scope@),
            spans@.len() == word_spans(chars@).len(),
            forall|j: int|
                0 <= j < spans@.len() ==> spans@[j].0 as int == word_spans(chars@)[j].0
                    && spans@[j].1 as int == word_spans(chars@)[j].1,
            forall|j: int| 0 <= j < spans@.len() ==> (#[trigger] spans@[j]).0 < spans@[j].1 <= chars@.len(),
            forall|j: int| 0 <= j < k ==> (#[trigger] words[j]) != "events:write"@,
        decreases spans@.len() - k,
    {
        let (a, b) = spans[k];
        assert(words[k as int] == chars@.subrange(a as int, b as int));
        if range_equals(chars.as_slice(), a, b, wanted.as_slice()) {
            return true;
        }
        k = k + 1;
    }
    false
}

/// What decoded claims grant.
pub fn authorize(claims: &Vec<(String, ClaimValue)>) -> (authorized: Result<
    AuthorizedSource,
    TokenError,
>)
    requires
        keys_unique(claim_pairs(claims@)),
    ensures
        match authorized {
            Ok(a) => authorized_of(claims_map(claims@)) == Ok::<AuthorizedView, TokenError>(a@),
            Err(e) => authorized_of(claims_map(claims@)) == Err::<AuthorizedView, TokenError>(e),
        },
{
    let c = match read_claims(claims) {
        Some(c) => c,
        None => {
            return Err(TokenError::Rejected);
        },
    };
    if !grants_write(c.scope.as_str()) {
        return Err(TokenError::MissingScope);
    }
    let sub = chars_of(c.sub.as_str());
    assert(sub@.subrange(0, sub@.len() as int) =~= c.sub@);
    let user = match parse_i64(sub.as_slice(), 0, sub.len()) {
        Some(u) => u,
        None => {
            return Err(TokenError::InvalidSubject);
        },
    };
    if c.source.as_str().unicode_len() == 0 {
        return Err(TokenError::MissingSource);
    }
    Ok(AuthorizedSource { telegram_user_id: user, source: c.source })
}

/// Issues a token to `telegram_user_id` for `source`, issued at `issued_at`
/// with the token id `jti`, signed with `secret`.
pub fn issue_access_token_at(
    secret: &str,
    telegram_user_id: i64,
    source: &str,
    ttl_seconds: u64,
    issued_at: u64,
    jti: String,
) -> (issued: IssuedToken)
    ensures
        issued.expires_at == issued_at.saturating_add(ttl_seconds),
        signed_with(issued.access_token@, encode_utf8(secret@)),
        token_claims(issued.access_token@) == Some(
            claims_object(access_claims_of(telegram_user_id, source@, jti@, issued_at, ttl_seconds)),
        ),
{
    let claims = access_claims(telegram_user_id, source, jti, issued_at, ttl_seconds);
    let entries = claim_entries(&claims);
    match sign_hs256(&entries, secret.as_bytes()) {
        Ok(access_token) => IssuedToken { access_token, expires_at: claims.exp },
        Err(_) => {
            proof {
                assert(false);
            }
            IssuedToken { access_token: String::new(), expires_at: claims.exp }
        },
    }
}

/// Issues a token to `telegram_user_id` for `source`, valid for `ttl_seconds`
/// from now, with a random token id, signed with `secret`; refused only
/// where the operating system refuses randomness for the token id.
pub fn issue_access_token(secret: &str, telegram_user_id: i64, source: &str, ttl_seconds: u64) -> (issued:
    Result<IssuedToken, TokenError>)
    ensures
        match issued {
            Ok(t) => issued_for(
                t.access_token@,
                t.expires_at,
                telegram_user_id,
                source@,
                ttl_seconds,
                secret@,
            ),
            Err(e) => e == TokenError::RandomnessUnavailable,
        },
{
    let issued_at = unix_now();
    let id = match random_uuid() {
        Ok(id) => id,
        Err(_) => {
            return Err(TokenError::RandomnessUnavailable);
        },
    };
    let jti = uuid_text(id);
    let issued = issue_access_token_at(secret, telegram_user_id, source, ttl_seconds, issued_at, jti);
    proof {
        let _ = access_claims_of(telegram_user_id, source@, uuid_text_of(id), issued_at, ttl_seconds);
    }
    Ok(issued)
}

/// A verification result as plain values.
pub open spec fn authorized_view(authorized: Result<AuthorizedSource, TokenError>) -> Result<
    AuthorizedView,
    TokenError,
> {
    match authorized {
        Ok(a) => Ok(a@),
        Err(e) => Err(e),
    }
}

/// What verifying `token` under `secret` may answer: an accepted token the
/// subject its claims grant; a refusal `Rejected` (a bad signature, audience,
/// issuer or claims, or an expired token), or the error of the claims of a
/// token that passed those checks.
pub open spec fn verification_outcome(
    token: Seq<char>,
    secret: Seq<char>,
    outcome: Result<AuthorizedView, TokenError>,
) -> bool {
    match outcome {
        Ok(a) => accepted_as(token, secret, a),
        Err(e) => e == TokenError::Rejected || (signed_with(token, encode_utf8(secret))
            && token_claims(token) is Some && claims_meet(
            token_claims(token).unwrap(),
            "infraCLI"@,
            "infraBot"@,
        ) && authorized_of(token_claims(token).unwrap()) == Err::<AuthorizedView, TokenError>(e)),
    }
}

/// Verifies a token against `secret` (signature, audience `infraCLI`,
/// issuer `infraBot`, expiry) and what its claims grant.
pub fn verify_access_token(secret: &str, access_token: &str) -> (authorized: Result<
    AuthorizedSource,
    TokenError,
>)
    ensures
        verification_outcome(access_token@, secret@, authorized_view(authorized)),
{
    match decode_hs256(access_token, secret.as_bytes(), "infraCLI", "infraBot") {
        Err(_) => Err(TokenError::Rejected),
        Ok(claims) => authorize(&claims),
    }
}

proof fn lemma_single_word(s: Seq<char>, k: int)
    requires
        0 < k <= s.len(),
        forall|i: int| 0 <= i < s.len() ==> !crate::text::is_whitespace(#[trigger] s[i]),
    ensures
        word_spans(s.take(k)) == seq![(0int, k)],
    decreases k,
{
    let t = s.take(k);
    assert(t.drop_last() =~= s.take(k - 1));
    assert(t[k - 1] == s[k - 1]);
    assert(!crate::text::is_whitespace(t[k - 1]));
    if k > 1 {
        lemma_single_word(s, k - 1);
        assert(t[k - 2] == s[k - 2]);
        assert(!crate::text::is_whitespace(t[k - 2]));
        let p = word_spans(t.drop_last());
        assert(p == seq![(0int, k - 1)]);
        assert(p.update(p.len() - 1, (p.last().0, k)) =~= seq![(0int, k)]);
    } else {
        assert(s.take(0) =~= Seq::<char>::empty());
        assert(word_spans(t.drop_last()) == Seq::<(int, int)>::empty());
        assert(Seq::<(int, int)>::empty().push((0int, 1int)) =~= seq![(0int, 1int)]);
    }
}

/// The claims issued to a user for a non-empty source are accepted, and
/// grant exactly that user and that source.
pub proof fn law_issued_claims_authorize_their_subject(
    user: i64,
    source: Seq<char>,
    jti: Seq<char>,
    issued_at: u64,
    ttl: u64,
)
    requires
        source.len() > 0,
    ensures
        authorized_of(claims_object(access_claims_of(user, source, jti, issued_at, ttl))) == Ok::<
            AuthorizedView,
            TokenError,
        >(AuthorizedView { telegram_user_id: user, source }),
{
    let c = access_claims_of(user, source, jti, issued_at, ttl);
    let m = claims_object(c);
    lemma_claim_names_distinct();
    assert(claims_read(m) == Some(c));
    reveal_strlit("events:write");
    let scope = "events:write"@;
    assert forall|i: int| 0 <= i < scope.len() implies !crate::text::is_whitespace(#[trigger] scope[i]) by {}
    lemma_single_word(scope, scope.len() as int);
    assert(scope.take(scope.len() as int) =~= scope);
    assert(split_whitespace(scope)[0] == scope.subrange(0, scope.len() as int));
    assert(scope.subrange(0, scope.len() as int) =~= scope);
    assert(grants_events_write(scope));
    lemma_decimal_round_trip(user);
}

/// A token issued to a user for a non-empty source under a secret is signed
/// with that secret, its claims meet the audience and issuer that
/// verification asks for, and they grant exactly that user and source: all
/// that verification checks but the clock.
pub proof fn law_issued_token_is_accepted_under_its_secret(
    token: Seq<char>,
    expires_at: u64,
    user: i64,
    source: Seq<char>,
    ttl: u64,
    secret: Seq<char>,
)
    requires
        issued_for(token, expires_at, user, source, ttl, secret),
        source.len() > 0,
    ensures
        accepted_as(token, secret, AuthorizedView { telegram_user_id: user, source }),
{
    let (issued_at, id) = choose|issued_at: u64, jti: u128|
        expires_at == issued_at.saturating_add(ttl) && token_claims(token) == Some(
            claims_object(#[trigger] access_claims_of(user, source, uuid_text_of(jti), issued_at, ttl)),
        );
    let c = access_claims_of(user, source, uuid_text_of(id), issued_at, ttl);
    lemma_claim_names_distinct();
    reveal_strlit("infraCLI");
    reveal_strlit("infraBot");
    law_issued_claims_authorize_their_subject(user, source, uuid_text_of(id), issued_at, ttl);
    assert(claims_object(c).contains_key("exp"@));
}

/// A token issued to a user for a source, once accepted under any secret,
/// speaks for that user and that source.
pub proof fn law_verified_token_names_its_subject(
    token: Seq<char>,
    expires_at: u64,
    user: i64,
    source: Seq<char>,
    ttl: u64,
    secret: Seq<char>,
    key: Seq<char>,
    authorized: AuthorizedView,
)
    requires
        issued_for(token, expires_at, user, source, ttl, secret),
        accepted_as(token, key, authorized),
    ensures
        authorized == (AuthorizedView { telegram_user_id: user, source }),
{
    let (issued_at, id) = choose|issued_at: u64, jti: u128|
        expires_at == issued_at.saturating_add(ttl) && token_claims(token) == Some(
            claims_object(#[trigger] access_claims_of(user, source, uuid_text_of(jti), issued_at, ttl)),
        );
    let c = access_claims_of(user, source, uuid_text_of(id), issued_at, ttl);
    lemma_claim_names_distinct();
    assert(claims_read(claims_object(c)) == Some(c));
    lemma_decimal_round_trip(user);
}

/// A token issued under one secret is refused under any key whose HS256
/// signature of the token's header and payload differs from the secret's:
/// no claims are accepted under such a key.
pub proof fn law_token_is_refused_under_a_key_that_signs_otherwise(
    token: Seq<char>,
    expires_at: u64,
    user: i64,
    source: Seq<char>,
    ttl: u64,
    secret: Seq<char>,
    key: Seq<char>,
    authorized: AuthorizedView,
)
    requires
        issued_for(token, expires_at, user, source, ttl, secret),
        last_position(token, '.') matches Some(p) && hs256_signature(token.take(p), encode_utf8(key))
            != hs256_signature(token.take(p), encode_utf8(secret)),
    ensures
        !accepted_as(token, key, authorized),
{
}

} // verus!
