use infrabot::token::{
    access_claims, authorize, claim_entries, decimal_text, issue_access_token, issue_access_token_at,
    read_claims, uuid_text, verify_access_token, ClaimValue, TokenError,
};
use std::time::{SystemTime, UNIX_EPOCH};

fn unix_now() -> u64 {
    SystemTime::now().duration_since(UNIX_EPOCH).unwrap_or_default().as_secs()
}

#[test]
fn issues_and_verifies_source_bound_token() {
    let secret = "x".repeat(32);
    let issued = issue_access_token(&secret, 42, "primary", 300).unwrap();
    let authorized = verify_access_token(&secret, &issued.access_token).unwrap();
    assert_eq!(authorized.telegram_user_id, 42);
    assert_eq!(authorized.source, "primary");
    assert!(issued.expires_at > unix_now());
}

#[test]
fn rejects_token_signed_by_another_key() {
    let issued = issue_access_token(&"x".repeat(32), 42, "primary", 300).unwrap();
    assert!(verify_access_token(&"y".repeat(32), &issued.access_token).is_err());
}

#[test]
fn writes_numbers_in_decimal() {
    assert_eq!(decimal_text(0), "0");
    assert_eq!(decimal_text(42), "42");
    assert_eq!(decimal_text(-1001234567890), "-1001234567890");
    assert_eq!(decimal_text(i64::MIN), "-9223372036854775808");
    assert_eq!(decimal_text(i64::MAX), "9223372036854775807");
}

#[test]
fn writes_uuids_hyphenated() {
    let id: u128 = 0x0123_4567_89ab_cdef_0123_4567_89ab_cdef;
    assert_eq!(uuid_text(id), "01234567-89ab-cdef-0123-456789abcdef");
    assert_eq!(uuid_text(id), uuid::Uuid::from_u128(id).to_string());
}

#[test]
fn expired_tokens_are_rejected() {
    let secret = "x".repeat(32);
    let issued = issue_access_token_at(&secret, 42, "primary", 300, 1_000, "id".to_string());
    assert_eq!(issued.expires_at, 1_300);
    assert_eq!(verify_access_token(&secret, &issued.access_token).err(), Some(TokenError::Rejected));
}

#[test]
fn an_empty_source_is_issued_but_not_accepted() {
    let secret = "x".repeat(32);
    let issued = issue_access_token(&secret, 42, "", 300).unwrap();
    assert_eq!(
        verify_access_token(&secret, &issued.access_token).err(),
        Some(TokenError::MissingSource)
    );
}

#[test]
fn garbage_is_rejected() {
    assert_eq!(verify_access_token("secret", "not.a.token").err(), Some(TokenError::Rejected));
}

#[test]
fn claims_carry_the_subject_and_scope() {
    let claims = access_claims(-7, "primary", "jti".to_string(), 10, u64::MAX);
    assert_eq!(claims.iss, "infraBot");
    assert_eq!(claims.aud, "infraCLI");
    assert_eq!(claims.sub, "-7");
    assert_eq!(claims.exp, u64::MAX);
    assert_eq!(claims.scope, "events:write");
    let entries = claim_entries(&claims);
    assert_eq!(entries.len(), 8);
    let read = read_claims(&entries).unwrap();
    assert_eq!(read.sub, "-7");
    let authorized = authorize(&entries).unwrap();
    assert_eq!(authorized.telegram_user_id, -7);
    assert_eq!(authorized.source, "primary");
}

#[test]
fn authorization_errors_follow_the_claims() {
    let claims = access_claims(42, "primary", "jti".to_string(), 10, 300);
    let mut entries = claim_entries(&claims);
    for entry in entries.iter_mut() {
        if entry.0 == "scope" {
            entry.1 = ClaimValue::Text("events:read other".to_string());
        }
    }
    assert_eq!(authorize(&entries).err(), Some(TokenError::MissingScope));
    for entry in entries.iter_mut() {
        if entry.0 == "scope" {
            entry.1 = ClaimValue::Text("other  events:write".to_string());
        }
        if entry.0 == "sub" {
            entry.1 = ClaimValue::Text("user".to_string());
        }
    }
    assert_eq!(authorize(&entries).err(), Some(TokenError::InvalidSubject));
    entries.retain(|entry| entry.0 != "jti");
    assert_eq!(authorize(&entries).err(), Some(TokenError::Rejected));
}

#[test]
fn a_token_with_a_fractional_expiry_is_rejected() {
    let secret = "x".repeat(32);
    let mut claims = std::collections::BTreeMap::new();
    claims.insert("iss".to_string(), serde_json::Value::from("infraBot"));
    claims.insert("aud".to_string(), serde_json::Value::from("infraCLI"));
    claims.insert("sub".to_string(), serde_json::Value::from("42"));
    claims.insert("source".to_string(), serde_json::Value::from("primary"));
    claims.insert("jti".to_string(), serde_json::Value::from("id"));
    claims.insert("iat".to_string(), serde_json::Value::from(unix_now()));
    claims.insert("exp".to_string(), serde_json::Value::from(unix_now() as f64 + 3600.5));
    claims.insert("scope".to_string(), serde_json::Value::from("events:write"));
    let token = jsonwebtoken::encode(
        &jsonwebtoken::Header::new(jsonwebtoken::Algorithm::HS256),
        &claims,
        &jsonwebtoken::EncodingKey::from_secret(secret.as_bytes()),
    )
    .unwrap();
    assert_eq!(verify_access_token(&secret, &token).err(), Some(TokenError::Rejected));
}
