use infrabot::config::{parse_document, Block, Config, ConfigError, Field, UrlError, ValueError};
use infrabot::values::SyntaxError;

fn environment() -> Vec<(String, String)> {
    vec![
        ("BOT_TOKEN".to_string(), "bot-token".to_string()),
        ("WEBHOOK_SECRET".to_string(), "webhook-secret-1234".to_string()),
        ("SIGNING_SECRET".to_string(), "x".repeat(32)),
        ("ALLOWED_USERS".to_string(), "42".to_string()),
        ("SUBSCRIBERS".to_string(), "42,77".to_string()),
        ("OWNER_CHAT".to_string(), "42".to_string()),
    ]
}

fn document() -> &'static str {
    r#"
infra 1

project "infrabot" {
    runtime = "docker"
    service "api" {
        source = "."
        build = "Dockerfile"
        expose = 8787
        health = "/health"
    }
}

infrabot {
    public_url = "https://bot.example"

    telegram {
        bot_username = "infra_example_bot"
        bot_token = env("BOT_TOKEN")
        webhook_secret = env("WEBHOOK_SECRET")
        signing_secret = env("SIGNING_SECRET")
        allowed_user_ids = env("ALLOWED_USERS")
        subscriber_user_ids = env("SUBSCRIBERS")
        subscriber_store = "/var/lib/infrabot/subscribers.json"
        subscriber_events = ["service.failed", "service.recovered"]
    }

    source "primary" {
        address = "https://primary.example"
    }

    recipient "owner" {
        chat_id = env("OWNER_CHAT")
        events = ["service.failed", "service.recovered"]
    }
}
"#
}

fn parse(input: &str) -> Result<Config, ConfigError> {
    parse_document(input, &environment())
}

fn contains(texts: &[String], wanted: &str) -> bool {
    texts.iter().any(|text| text == wanted)
}

#[test]
fn parses_infrabot_extension() {
    let config = parse(document()).unwrap();
    assert_eq!(config.public_url, "https://bot.example");
    assert_eq!(config.source("primary").unwrap(), "https://primary.example");
    assert_eq!(config.subscriber_user_ids.len(), 2);
    assert!(contains(&config.subscriber_events, "service.failed"));
    assert_eq!(config.recipients[0].chat_id, 42);
    assert!(contains(&config.recipients[0].events, "service.failed"));
}

#[test]
fn rejects_literal_secrets() {
    let input = document().replace(
        "bot_token = env(\"BOT_TOKEN\")",
        "bot_token = \"committed-secret\"",
    );
    assert!(parse(&input).is_err());
}

#[test]
fn rejects_unknown_sources_during_pairing_lookup() {
    let config = parse(document()).unwrap();
    assert!(config.has_source("primary"));
    assert!(!config.has_source("missing"));
}

#[test]
fn rejects_insecure_remote_urls() {
    let input = document().replace("https://primary.example", "http://primary.example");
    assert!(parse(&input).is_err());
}

#[test]
fn fills_defaults_and_resolved_values() {
    let config = parse(document()).unwrap();
    assert_eq!(config.bind_addr, "0.0.0.0:8787");
    assert_eq!(config.telegram_bot_username, "infra_example_bot");
    assert_eq!(config.telegram_bot_token, "bot-token");
    assert_eq!(config.telegram_webhook_secret, "webhook-secret-1234");
    assert_eq!(config.signing_secret, "x".repeat(32));
    assert_eq!(config.allowed_user_ids, vec![42]);
    assert_eq!(config.subscriber_user_ids, vec![42, 77]);
    assert_eq!(config.subscriber_store, "/var/lib/infrabot/subscribers.json");
    assert_eq!(config.sources.len(), 1);
    assert_eq!(config.recipients.len(), 1);
    assert_eq!(config.recipients[0].id, "owner");
    assert_eq!(config.pairing_ttl_seconds, 300);
    assert_eq!(config.access_token_ttl_seconds, 2_592_000);
    assert_eq!(config.poll_interval_seconds, 2);
    assert_eq!(config.max_active_pairings, 1_000);
    assert_eq!(config.max_exchange_attempts, 20);
}

#[test]
fn subscribers_default_to_allowed_users() {
    let input = document().replace("        subscriber_user_ids = env(\"SUBSCRIBERS\")\n", "");
    let config = parse(&input).unwrap();
    assert_eq!(config.subscriber_user_ids, vec![42]);
}

#[test]
fn repeated_entries_are_kept_once() {
    let mut env = environment();
    env[3].1 = "42, 7,42,,7".to_string();
    let input = document().replace(
        "subscriber_events = [\"service.failed\", \"service.recovered\"]",
        "subscriber_events = [\"service.failed\", \"service.failed\"]",
    );
    let config = parse_document(&input, &env).unwrap();
    assert_eq!(config.allowed_user_ids, vec![42, 7]);
    assert_eq!(config.subscriber_events, vec!["service.failed".to_string()]);
}

#[test]
fn reads_policy_numbers_and_bind() {
    let input = document().replace(
        "    public_url = \"https://bot.example\"\n",
        "    public_url = \"https://bot.example\"\n    bind = \"127.0.0.1:9000\"\n    pairing_ttl_seconds = 120\n    access_token_ttl_seconds = +600\n    poll_interval_seconds = 5\n    max_active_pairings = 50\n    max_exchange_attempts = 3\n",
    );
    let config = parse(&input).unwrap();
    assert_eq!(config.bind_addr, "127.0.0.1:9000");
    assert_eq!(config.pairing_ttl_seconds, 120);
    assert_eq!(config.access_token_ttl_seconds, 600);
    assert_eq!(config.poll_interval_seconds, 5);
    assert_eq!(config.max_active_pairings, 50);
    assert_eq!(config.max_exchange_attempts, 3);
}

#[test]
fn first_environment_entry_wins_and_values_are_trimmed() {
    let mut env = vec![("BOT_TOKEN".to_string(), "  first-token \t".to_string())];
    env.extend(environment());
    let config = parse_document(document(), &env).unwrap();
    assert_eq!(config.telegram_bot_token, "first-token");
}

#[test]
fn strips_leading_at_signs_from_the_bot_name() {
    let input = document().replace("\"infra_example_bot\"", "\"@@infra_example_bot\"");
    assert_eq!(parse(&input).unwrap().telegram_bot_username, "infra_example_bot");
}

#[test]
fn comments_and_blank_lines_are_skipped() {
    let input = document().replace(
        "    public_url = \"https://bot.example\"\n",
        "    # a comment\n    // another comment\n\n    public_url = \"https://bot.example\"\r\n",
    );
    assert!(parse(&input).is_ok());
}

#[test]
fn localhost_may_use_http() {
    let input = document().replace("https://primary.example", "http://localhost:8080");
    assert_eq!(parse(&input).unwrap().source("primary").unwrap(), "http://localhost:8080");
}

fn error_of(input: &str) -> ConfigError {
    match parse(input) {
        Ok(_) => panic!("document was accepted"),
        Err(error) => error,
    }
}

#[test]
fn reports_a_missing_infrabot_block() {
    assert_eq!(error_of("infra 1\n"), ConfigError::MissingInfrabotBlock);
}

#[test]
fn reports_an_assignment_without_equals_with_its_line() {
    let input = document().replace("    public_url = \"https://bot.example\"", "    public_url");
    assert_eq!(
        error_of(&input),
        ConfigError::Syntax { line: 15, error: SyntaxError::ExpectedAssignment }
    );
}

#[test]
fn reports_an_empty_value() {
    let input = document().replace("    public_url = \"https://bot.example\"", "    public_url =");
    assert_eq!(
        error_of(&input),
        ConfigError::Syntax { line: 15, error: SyntaxError::InvalidAssignment }
    );
}

#[test]
fn reports_an_unquoted_value() {
    let input = document().replace("\"https://bot.example\"", "https://bot.example");
    assert_eq!(
        error_of(&input),
        ConfigError::Syntax { line: 15, error: SyntaxError::UnquotedValue }
    );
}

#[test]
fn reports_an_invalid_environment_name() {
    let input = document().replace("env(\"BOT_TOKEN\")", "env(\"bot-token\")");
    assert_eq!(
        error_of(&input),
        ConfigError::Syntax { line: 19, error: SyntaxError::InvalidEnvironmentReference }
    );
}

#[test]
fn reports_a_list_that_is_not_a_list() {
    let input = document().replace(
        "subscriber_events = [\"service.failed\", \"service.recovered\"]",
        "subscriber_events = \"service.failed\"",
    );
    assert_eq!(
        error_of(&input),
        ConfigError::Syntax { line: 25, error: SyntaxError::ExpectedStringList }
    );
}

#[test]
fn reports_an_unquoted_list_entry() {
    let input = document().replace(
        "subscriber_events = [\"service.failed\", \"service.recovered\"]",
        "subscriber_events = [\"service.failed\", service.recovered]",
    );
    assert_eq!(
        error_of(&input),
        ConfigError::Syntax { line: 25, error: SyntaxError::UnquotedListValue }
    );
}

#[test]
fn reports_a_number_out_of_its_type() {
    let input = document().replace(
        "    public_url = \"https://bot.example\"\n",
        "    public_url = \"https://bot.example\"\n    max_exchange_attempts = 300\n",
    );
    assert_eq!(
        error_of(&input),
        ConfigError::Syntax { line: 16, error: SyntaxError::ExpectedInteger }
    );
}

#[test]
fn reports_a_duplicate_telegram_block() {
    let input = document().replace(
        "    source \"primary\" {",
        "    telegram {\n    }\n    source \"primary\" {",
    );
    assert_eq!(error_of(&input), ConfigError::DuplicateTelegramBlock { line: 28 });
}

#[test]
fn reports_a_duplicate_field() {
    let input = document().replace(
        "    public_url = \"https://bot.example\"\n",
        "    public_url = \"https://bot.example\"\n    public_url = \"https://bot.example\"\n",
    );
    assert_eq!(error_of(&input), ConfigError::DuplicateField { line: 16, field: Field::PublicUrl });
}

#[test]
fn reports_an_unknown_field() {
    let input = document().replace("        address = ", "        adress = ");
    assert_eq!(
        error_of(&input),
        ConfigError::UnknownField { line: 29, block: Block::Source, key: "adress".to_string() }
    );
}

#[test]
fn reports_an_unclosed_block() {
    let input = "infrabot {\n    telegram {\n";
    assert_eq!(error_of(input), ConfigError::UnclosedBlock { block: Block::Telegram });
}

#[test]
fn reports_an_invalid_block_identifier() {
    let input = document().replace("source \"primary\" {", "source \"pri mary\" {");
    assert_eq!(error_of(&input), ConfigError::InvalidIdentifier { block: Block::Source });
}

#[test]
fn reports_a_missing_telegram_block() {
    let input = "infrabot {\n    public_url = \"https://bot.example\"\n}\n";
    assert_eq!(error_of(input), ConfigError::MissingTelegramBlock);
}

#[test]
fn reports_a_missing_required_value() {
    let input = document().replace("    public_url = \"https://bot.example\"\n", "");
    assert_eq!(
        error_of(&input),
        ConfigError::Value { field: Field::PublicUrl, error: ValueError::Missing }
    );
}

#[test]
fn reports_a_missing_environment_variable() {
    let input = document().replace("env(\"OWNER_CHAT\")", "env(\"OTHER_CHAT\")");
    assert_eq!(
        error_of(&input),
        ConfigError::RecipientValue {
            id: "owner".to_string(),
            error: ValueError::MissingEnvironment("OTHER_CHAT".to_string()),
        }
    );
}

#[test]
fn reports_a_blank_value() {
    let input = document().replace("\"https://bot.example\"", "\"   \"");
    assert_eq!(
        error_of(&input),
        ConfigError::Value { field: Field::PublicUrl, error: ValueError::Empty }
    );
}

#[test]
fn reports_a_literal_secret() {
    let input = document().replace("env(\"SIGNING_SECRET\")", "\"literal\"");
    assert_eq!(
        error_of(&input),
        ConfigError::Value { field: Field::SigningSecret, error: ValueError::Literal }
    );
}

#[test]
fn reports_a_public_url_with_a_query() {
    let input = document().replace("\"https://bot.example\"", "\"https://bot.example/?a=b\"");
    assert_eq!(
        error_of(&input),
        ConfigError::Url { field: Field::PublicUrl, error: UrlError::Extras }
    );
}

#[test]
fn reports_a_public_url_that_does_not_parse() {
    let input = document().replace("\"https://bot.example\"", "\"not a url\"");
    assert_eq!(
        error_of(&input),
        ConfigError::Url { field: Field::PublicUrl, error: UrlError::Invalid }
    );
}

#[test]
fn reports_a_public_url_without_a_host() {
    let input = document().replace("\"https://bot.example\"", "\"data:text/plain,hello\"");
    assert_eq!(
        error_of(&input),
        ConfigError::Url { field: Field::PublicUrl, error: UrlError::NoHost }
    );
}

#[test]
fn reports_an_insecure_source_address() {
    let input = document().replace("https://primary.example", "http://primary.example");
    assert_eq!(
        error_of(&input),
        ConfigError::SourceUrl { id: "primary".to_string(), error: UrlError::Insecure }
    );
}

#[test]
fn reports_an_invalid_bot_name() {
    let input = document().replace("\"infra_example_bot\"", "\"infra-bot\"");
    assert_eq!(error_of(&input), ConfigError::InvalidBotUsername);
}

#[test]
fn reports_user_ids_that_are_not_integers() {
    let mut env = environment();
    env[3].1 = "42,abc".to_string();
    assert_eq!(
        parse_document(document(), &env).err(),
        Some(ConfigError::InvalidUserIds { field: Field::AllowedUserIds })
    );
}

#[test]
fn reports_an_empty_user_list() {
    let mut env = environment();
    env[4].1 = " , ".to_string();
    assert_eq!(
        parse_document(document(), &env).err(),
        Some(ConfigError::NoUserIds { field: Field::SubscriberUserIds })
    );
}

#[test]
fn reports_a_relative_subscriber_store() {
    let input = document().replace("\"/var/lib/infrabot/subscribers.json\"", "\"subscribers.json\"");
    assert_eq!(error_of(&input), ConfigError::RelativeSubscriberStore);
}

#[test]
fn reports_empty_subscriber_events() {
    let input = document().replace(
        "subscriber_events = [\"service.failed\", \"service.recovered\"]",
        "subscriber_events = [ ]",
    );
    assert_eq!(error_of(&input), ConfigError::NoSubscriberEvents);
}

#[test]
fn reports_a_short_webhook_secret() {
    let mut env = environment();
    env[1].1 = "short".to_string();
    assert_eq!(parse_document(document(), &env).err(), Some(ConfigError::InvalidWebhookSecret));
}

#[test]
fn reports_a_short_signing_secret() {
    let mut env = environment();
    env[2].1 = "x".repeat(31);
    assert_eq!(parse_document(document(), &env).err(), Some(ConfigError::ShortSigningSecret));
}

#[test]
fn reports_a_source_without_address() {
    let input = document().replace("        address = \"https://primary.example\"\n", "");
    assert_eq!(
        error_of(&input),
        ConfigError::SourceValue { id: "primary".to_string(), error: ValueError::Missing }
    );
}

#[test]
fn reports_a_duplicate_source() {
    let input = document().replace(
        "    recipient \"owner\" {",
        "    source \"primary\" {\n        address = \"https://other.example\"\n    }\n    recipient \"owner\" {",
    );
    assert_eq!(error_of(&input), ConfigError::DuplicateSource { id: "primary".to_string() });
}

#[test]
fn reports_no_sources() {
    let input = document().replace(
        "    source \"primary\" {\n        address = \"https://primary.example\"\n    }\n",
        "",
    );
    assert_eq!(error_of(&input), ConfigError::NoSources);
}

#[test]
fn reports_a_duplicate_recipient() {
    let input = document().replace(
        "    recipient \"owner\" {",
        "    recipient \"owner\" {\n        chat_id = \"7\"\n        events = [\"*\"]\n    }\n    recipient \"owner\" {",
    );
    assert_eq!(error_of(&input), ConfigError::DuplicateRecipient { id: "owner".to_string() });
}

#[test]
fn reports_a_chat_id_that_is_not_an_integer() {
    let input = document().replace("env(\"OWNER_CHAT\")", "\"owner\"");
    assert_eq!(error_of(&input), ConfigError::InvalidChatId { id: "owner".to_string() });
}

#[test]
fn reports_a_zero_chat_id() {
    let input = document().replace("env(\"OWNER_CHAT\")", "\"-0\"");
    assert_eq!(error_of(&input), ConfigError::ZeroChatId { id: "owner".to_string() });
}

#[test]
fn reports_recipient_events_missing_or_empty() {
    let missing = document().replace(
        "        events = [\"service.failed\", \"service.recovered\"]\n",
        "",
    );
    assert_eq!(
        error_of(&missing),
        ConfigError::Value { field: Field::RecipientEvents, error: ValueError::Missing }
    );
    let empty = document().replace("events = [\"service.failed\", \"service.recovered\"]\n    }\n}", "events = []\n    }\n}");
    assert_eq!(error_of(&empty), ConfigError::NoRecipientEvents { id: "owner".to_string() });
}

#[test]
fn reports_a_policy_number_out_of_range() {
    let input = document().replace(
        "    public_url = \"https://bot.example\"\n",
        "    public_url = \"https://bot.example\"\n    poll_interval_seconds = 11\n",
    );
    assert_eq!(
        error_of(&input),
        ConfigError::OutOfRange { field: Field::PollIntervalSeconds, minimum: 1, maximum: 10 }
    );
}

#[test]
fn negative_chat_ids_are_read() {
    let input = document().replace("env(\"OWNER_CHAT\")", "\"-1001234567890\"");
    assert_eq!(parse(&input).unwrap().recipients[0].chat_id, -1001234567890);
}

#[test]
fn refusals_read_as_messages() {
    assert_eq!(
        ConfigError::Syntax { line: 15, error: SyntaxError::ExpectedAssignment }.message(),
        "line 15: expected assignment or block"
    );
    assert_eq!(
        ConfigError::Value { field: Field::BotToken, error: ValueError::Literal }.message(),
        "telegram.bot_token must use env(\"NAME\") and must not be committed literally"
    );
    assert_eq!(
        ConfigError::SourceUrl { id: "primary".to_string(), error: UrlError::Insecure }.message(),
        "source primary: source.address must use HTTPS; HTTP is allowed only for localhost"
    );
    assert_eq!(
        ConfigError::OutOfRange { field: Field::PollIntervalSeconds, minimum: 1, maximum: 10 }
            .message(),
        "poll_interval_seconds must be between 1 and 10"
    );
    assert_eq!(
        ConfigError::UnknownField { line: 7, block: Block::Recipient, key: "chat".to_string() }
            .message(),
        "line 7: unknown recipient field chat"
    );
    assert_eq!(
        ConfigError::RecipientValue {
            id: "owner".to_string(),
            error: ValueError::MissingEnvironment("OWNER_CHAT".to_string()),
        }
        .message(),
        "recipient owner: recipient.chat_id references missing environment variable OWNER_CHAT"
    );
    assert_eq!(ConfigError::DuplicateField { line: 3, field: Field::SubscriberStore }.message(), "line 3: duplicate field subscriber_store");
}

#[test]
fn reports_a_signing_secret_that_is_another_secret() {
    let mut env = environment();
    env[2].1 = "webhook-secret-1234-and-more-than-32-bytes".to_string();
    env[1].1 = "webhook-secret-1234-and-more-than-32-bytes".to_string();
    assert_eq!(parse_document(document(), &env).err(), Some(ConfigError::SigningSecretReused));
    let mut env = environment();
    env[0].1 = "x".repeat(32);
    assert_eq!(parse_document(document(), &env).err(), Some(ConfigError::SigningSecretReused));
}
