use base64::engine::general_purpose::URL_SAFE_NO_PAD;
use base64::Engine;
use infrabot::api::{
    approval_reply, bearer_token, create_pairing, delivery_result, delivery_targets,
    exchange_pairing, plan_delivery, plan_for, plan_verified, webhook_action, ApiFailure, CreatePairingRequest,
    ExchangeReply, WebhookAction,
};
use infrabot::config::{parse_document, Config, RecipientConfig};
use infrabot::events::EventRequest;
use infrabot::store::{ApproveOutcome, PairingStore};
use infrabot::telegram::{TelegramChat, TelegramMessage, TelegramUpdate, TelegramUser};
use infrabot::token::{issue_access_token, AuthorizedSource, TokenError};
use sha2::{Digest, Sha256};

fn config() -> Config {
    let env = vec![
        ("BOT_TOKEN".to_string(), "bot-token".to_string()),
        ("WEBHOOK_SECRET".to_string(), "webhook-secret-1234".to_string()),
        ("SIGNING_SECRET".to_string(), "x".repeat(32)),
        ("ALLOWED_USERS".to_string(), "42".to_string()),
    ];
    let document = r#"
infrabot {
    public_url = "https://bot.example"
    poll_interval_seconds = 1
    telegram {
        bot_username = "infra_example_bot"
        bot_token = env("BOT_TOKEN")
        webhook_secret = env("WEBHOOK_SECRET")
        signing_secret = env("SIGNING_SECRET")
        allowed_user_ids = env("ALLOWED_USERS")
        subscriber_events = ["service.failed"]
    }
    source "primary" {
        address = "https://primary.example"
    }
    recipient "owner" {
        chat_id = "42"
        events = ["service.failed"]
    }
    recipient "team" {
        chat_id = "-100"
        events = ["*"]
    }
    recipient "again" {
        chat_id = "42"
        events = ["*"]
    }
}
"#;
    parse_document(document, &env).unwrap()
}

fn pkce_pair() -> (String, String) {
    let verifier = "v".repeat(43);
    let challenge = URL_SAFE_NO_PAD.encode(Sha256::digest(verifier.as_bytes()));
    (verifier, challenge)
}

fn request(challenge: &str) -> CreatePairingRequest {
    CreatePairingRequest {
        code_challenge: challenge.to_string(),
        client: "infraCLI".to_string(),
        client_version: "1.0.0".to_string(),
        source: "primary".to_string(),
    }
}

fn start_update(secret_user: i64, kind: &str, text: &str) -> TelegramUpdate {
    TelegramUpdate {
        message: Some(TelegramMessage {
            chat: TelegramChat { id: 500, kind: kind.to_string() },
            from: Some(TelegramUser { id: secret_user }),
            text: Some(text.to_string()),
        }),
    }
}

#[test]
fn failures_have_status_and_code() {
    assert_eq!(ApiFailure::InvalidClient.status(), 400);
    assert_eq!(ApiFailure::InvalidClient.code(), "invalid_client");
    assert_eq!(ApiFailure::PairingCapacityExceeded.status(), 503);
    assert_eq!(ApiFailure::SlowDown.status(), 429);
    assert_eq!(ApiFailure::PairingExpired.status(), 410);
    assert_eq!(ApiFailure::PairingConsumed.code(), "pairing_consumed");
    assert_eq!(ApiFailure::TelegramDeliveryFailed.status(), 502);
    assert_eq!(ApiFailure::InvalidWebhookSecret.code(), "invalid_webhook_secret");
    assert_eq!(ApiFailure::RandomnessUnavailable.status(), 500);
    assert_eq!(ApiFailure::RandomnessUnavailable.code(), "randomness_unavailable");
}

#[test]
fn pairing_requests_are_checked_in_order() {
    let config = config();
    let mut store = PairingStore::new(300, 1, 10, 5);
    let (_, challenge) = pkce_pair();
    let mut wrong_client = request(&challenge);
    wrong_client.client = "curl".to_string();
    assert_eq!(create_pairing(&config, &mut store, wrong_client).err(), Some(ApiFailure::InvalidClient));
    let mut long_version = request(&challenge);
    long_version.client_version = "1".repeat(65);
    assert_eq!(create_pairing(&config, &mut store, long_version).err(), Some(ApiFailure::InvalidClient));
    let mut unknown = request(&challenge);
    unknown.source = "missing".to_string();
    assert_eq!(create_pairing(&config, &mut store, unknown).err(), Some(ApiFailure::UnknownSource));
    assert_eq!(
        create_pairing(&config, &mut store, request("invalid")).err(),
        Some(ApiFailure::InvalidCodeChallenge)
    );
}

#[test]
fn full_pairing_flow_issues_a_token() {
    let config = config();
    let mut store = PairingStore::new(300, 0, 10, 5);
    let (verifier, challenge) = pkce_pair();
    let created = create_pairing(&config, &mut store, request(&challenge)).unwrap();
    assert_eq!(created.expires_in, 300);
    assert_eq!(created.session_id.len(), 36);
    let prefix = "https://t.me/infra_example_bot?start=";
    assert!(created.verification_uri_complete.starts_with(prefix));
    let start_token = created.verification_uri_complete[prefix.len()..].to_string();

    assert!(matches!(
        exchange_pairing(&config, &mut store, &created.session_id, &verifier),
        Ok(ExchangeReply::Pending)
    ));
    let update = start_update(42, "private", &format!("/start {start_token}"));
    let action = webhook_action(&config, &mut store, "webhook-secret-1234", &update);
    assert!(matches!(
        action,
        WebhookAction::Reply { chat_id: 500, ref text } if text == "infraCLI source primary authorized. return to the terminal"
    ));
    let reply = exchange_pairing(&config, &mut store, &created.session_id, &verifier).unwrap();
    let ExchangeReply::Token(grant) = reply else {
        panic!("no token was issued");
    };
    assert_eq!(grant.telegram_user_id, 42);
    assert_eq!(grant.source, "primary");
    assert_eq!(
        exchange_pairing(&config, &mut store, &created.session_id, &verifier).err(),
        Some(ApiFailure::PairingConsumed)
    );
}

#[test]
fn exchange_requests_are_checked() {
    let config = config();
    let mut store = PairingStore::new(300, 0, 10, 5);
    assert_eq!(
        exchange_pairing(&config, &mut store, "whatever", "short").err(),
        Some(ApiFailure::InvalidVerifier)
    );
    assert_eq!(
        exchange_pairing(&config, &mut store, "not-a-uuid", &"v".repeat(43)).err(),
        Some(ApiFailure::PairingNotFound)
    );
    assert_eq!(
        exchange_pairing(&config, &mut store, "01234567-89ab-cdef-0123-456789abcdef", &"v".repeat(43)).err(),
        Some(ApiFailure::PairingNotFound)
    );
}

#[test]
fn webhook_refuses_and_ignores() {
    let config = config();
    let mut store = PairingStore::new(300, 0, 10, 5);
    let update = start_update(42, "private", "/start token");
    assert!(matches!(webhook_action(&config, &mut store, "wrong", &update), WebhookAction::Reject));
    let group = start_update(42, "group", "/start token");
    assert!(matches!(webhook_action(&config, &mut store, "webhook-secret-1234", &group), WebhookAction::Ignore));
    let status = start_update(42, "private", "/status");
    assert!(matches!(webhook_action(&config, &mut store, "webhook-secret-1234", &status), WebhookAction::Ignore));
    let empty = TelegramUpdate { message: None };
    assert!(matches!(webhook_action(&config, &mut store, "webhook-secret-1234", &empty), WebhookAction::Ignore));
    let stranger = start_update(7, "private", "/start token");
    assert!(matches!(
        webhook_action(&config, &mut store, "webhook-secret-1234", &stranger),
        WebhookAction::Reply { chat_id: 500, ref text } if text == "this Telegram account is not authorized for infraCLI"
    ));
    let unknown = start_update(42, "private", "/start token");
    assert!(matches!(
        webhook_action(&config, &mut store, "webhook-secret-1234", &unknown),
        WebhookAction::Reply { ref text, .. } if text == "pairing expired or already used. run infra auth again"
    ));
}

#[test]
fn approval_replies_are_exact() {
    assert_eq!(
        approval_reply(&ApproveOutcome::AlreadyApproved("primary".into())),
        "infraCLI source primary authorized. return to the terminal"
    );
    assert_eq!(
        approval_reply(&ApproveOutcome::DifferentUser),
        "this pairing belongs to another Telegram account"
    );
    assert_eq!(
        approval_reply(&ApproveOutcome::Consumed),
        "pairing expired or already used. run infra auth again"
    );
}

#[test]
fn bearer_tokens_are_read() {
    assert_eq!(bearer_token(Some("Bearer abc")), Some("abc"));
    assert_eq!(bearer_token(Some("Bearer ")), None);
    assert_eq!(bearer_token(Some("Basic abc")), None);
    assert_eq!(bearer_token(None), None);
}

#[test]
fn each_wanting_chat_is_targeted_once() {
    let config = config();
    assert_eq!(delivery_targets(&config.recipients, "service.failed"), vec![42, -100]);
    assert_eq!(delivery_targets(&config.recipients, "service.recovered"), vec![-100, 42]);
    let none: Vec<RecipientConfig> = Vec::new();
    assert!(delivery_targets(&none, "service.failed").is_empty());
}

fn plain_event() -> EventRequest {
    EventRequest {
        kind: "service.failed".into(),
        project: "market".into(),
        service: None,
        status: None,
        message: "down".into(),
        fields: Vec::new(),
    }
}

#[test]
fn deliveries_are_planned_for_authorized_tokens() {
    let config = config();
    let issued = issue_access_token(&config.signing_secret, 42, "primary", 300).unwrap();
    let header = format!("Bearer {}", issued.access_token);
    let plan = plan_delivery(&config, Some(&header), &plain_event()).unwrap();
    assert_eq!(plan.source, "primary");
    assert_eq!(plan.chat_ids, vec![42, -100]);
    assert_eq!(plan.message, "service.failed · market\nsource: primary\n\ndown");
    assert_eq!(plan_delivery(&config, None, &plain_event()).err(), Some(ApiFailure::MissingAccessToken));
    assert_eq!(
        plan_delivery(&config, Some("Bearer forged"), &plain_event()).err(),
        Some(ApiFailure::InvalidAccessToken)
    );
    let stranger = issue_access_token(&config.signing_secret, 7, "primary", 300).unwrap();
    let header = format!("Bearer {}", stranger.access_token);
    assert_eq!(plan_delivery(&config, Some(&header), &plain_event()).err(), Some(ApiFailure::SourceNotAuthorized));
    let unknown = AuthorizedSource { telegram_user_id: 42, source: "missing".into() };
    assert_eq!(plan_for(&config, unknown, &plain_event()).err(), Some(ApiFailure::SourceNotAuthorized));
    let mut invalid = plain_event();
    invalid.message = " ".into();
    let known = AuthorizedSource { telegram_user_id: 42, source: "primary".into() };
    assert_eq!(plan_for(&config, known, &invalid).err(), Some(ApiFailure::InvalidEvent));
}

#[test]
fn deliveries_fail_only_when_nothing_arrived() {
    assert_eq!(delivery_result("primary".into(), 2, 0).err(), Some(ApiFailure::TelegramDeliveryFailed));
    let report = delivery_result("primary".into(), 2, 1).unwrap();
    assert_eq!((report.attempted, report.delivered), (2, 1));
    assert!(delivery_result("primary".into(), 0, 0).is_ok());
}

#[test]
fn every_refused_token_is_answered_invalid_access_token() {
    let config = config();
    for refusal in [
        TokenError::Rejected,
        TokenError::MissingScope,
        TokenError::InvalidSubject,
        TokenError::MissingSource,
    ] {
        assert_eq!(
            plan_verified(&config, Err(refusal), &plain_event()).err(),
            Some(ApiFailure::InvalidAccessToken)
        );
    }
    let known = AuthorizedSource { telegram_user_id: 42, source: "primary".into() };
    let plan = plan_verified(&config, Ok(known), &plain_event()).unwrap();
    assert_eq!(plan.source, "primary");
    assert_eq!(plan.chat_ids, vec![42, -100]);
}
