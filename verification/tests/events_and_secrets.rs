use infrabot::config::RecipientConfig;
use infrabot::events::{
    recipient_matches, render_event, secure_eq, text_is_before, valid_event, valid_text, valid_token,
    EventRequest,
};

#[test]
fn compares_webhook_secrets() {
    assert!(secure_eq("same-secret", "same-secret"));
    assert!(!secure_eq("same-secret", "other-secret"));
    assert!(!secure_eq("short", "longer"));
}

fn event() -> EventRequest {
    EventRequest {
        kind: "service.failed".into(),
        project: "market".into(),
        service: Some("api".into()),
        status: Some("unhealthy".into()),
        message: "health check failed".into(),
        fields: vec![
            ("image".into(), "market:latest".into()),
            ("previous_status".into(), "healthy".into()),
        ],
    }
}

#[test]
fn validates_and_renders_events() {
    let event = event();
    assert!(valid_event(&event));
    let rendered = render_event("primary", &event);
    assert!(rendered.contains("service.failed · market"));
    assert!(rendered.contains("source: primary"));
    assert!(rendered.contains("image: market:latest"));
}

#[test]
fn wildcard_recipient_matches_every_event() {
    let recipient = RecipientConfig { id: "owner".into(), chat_id: 42, events: vec!["*".into()] };
    assert!(recipient_matches(&recipient, "service.failed"));
}

#[test]
fn renders_exactly() {
    let rendered = render_event("primary", &event());
    assert_eq!(
        rendered,
        "service.failed · market\nsource: primary\nimage: market:latest\nprevious_status: healthy\n\nhealth check failed"
    );
    let mut plain = event();
    plain.fields.clear();
    plain.message = "  down \n".into();
    assert_eq!(
        render_event("primary", &plain),
        "service.failed · market\nsource: primary\nservice: api\nstatus: unhealthy\n\ndown"
    );
}

#[test]
fn recipient_matches_only_its_kinds() {
    let recipient = RecipientConfig {
        id: "owner".into(),
        chat_id: 42,
        events: vec!["service.recovered".into()],
    };
    assert!(recipient_matches(&recipient, "service.recovered"));
    assert!(!recipient_matches(&recipient, "service.failed"));
}

#[test]
fn event_limits_are_enforced() {
    assert!(!valid_token("", 10));
    assert!(!valid_token("a b", 10));
    assert!(valid_token("a.b-c_d", 10));
    assert!(!valid_token("abcdefghijk", 10));
    assert!(!valid_text("   ", 10));
    assert!(!valid_text("bell\u{7}", 10));
    assert!(valid_text("é", 2));
    assert!(!valid_text("é", 1));
    let mut too_many = event();
    too_many.fields = (0..25).map(|i| (format!("f{i}"), "v".to_string())).collect();
    assert!(!valid_event(&too_many));
    let mut too_long = event();
    too_long.fields = (0..9).map(|i| (format!("f{i}"), "v".repeat(500))).collect();
    assert!(!valid_event(&too_long));
    let mut bad_kind = event();
    bad_kind.kind = "service failed".into();
    assert!(!valid_event(&bad_kind));
}

#[test]
fn field_names_must_ascend_once_each() {
    let mut swapped = event();
    swapped.fields.reverse();
    assert!(!valid_event(&swapped));
    let mut repeated = event();
    repeated.fields[1].0 = "image".into();
    assert!(!valid_event(&repeated));
    assert!(text_is_before("image", "previous_status"));
    assert!(text_is_before("f1", "f10"));
    assert!(text_is_before("f10", "f2"));
    assert!(!text_is_before("f2", "f10"));
    assert!(!text_is_before("same", "same"));
    assert!(!text_is_before("", ""));
    assert!(text_is_before("", "a"));
}
