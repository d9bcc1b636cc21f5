//! The messages of refused configuration documents.
use crate::config::{Block, ConfigError, ConfigErrorView, Field, UrlError, ValueError, ValueErrorView};
use crate::token::{digits_of, unsigned_text};
use crate::values::SyntaxError;
use vstd::prelude::*;

verus! {

/// A field as its key is written in its block.
pub open spec fn field_key(field: Field) -> Seq<char> {
    match field {
        Field::Bind => "bind"@,
        Field::PublicUrl => "public_url"@,
        Field::PairingTtlSeconds => "pairing_ttl_seconds"@,
        Field::AccessTokenTtlSeconds => "access_token_ttl_seconds"@,
        Field::PollIntervalSeconds => "poll_interval_seconds"@,
        Field::MaxActivePairings => "max_active_pairings"@,
        Field::MaxExchangeAttempts => "max_exchange_attempts"@,
        Field::BotUsername => "bot_username"@,
        Field::BotToken => "bot_token"@,
        Field::WebhookSecret => "webhook_secret"@,
        Field::SigningSecret => "signing_secret"@,
        Field::AllowedUserIds => "allowed_user_ids"@,
        Field::SubscriberUserIds => "subscriber_user_ids"@,
        Field::SubscriberStore => "subscriber_store"@,
        Field::SubscriberEvents => "subscriber_events"@,
        Field::SourceAddress => "address"@,
        Field::RecipientChatId => "chat_id"@,
        Field::RecipientEvents => "events"@,
    }
}

/// A field with the block it belongs to, as messages name it.
pub open spec fn field_name(field: Field) -> Seq<char> {
    match field {
        Field::BotUsername => "telegram.bot_username"@,
        Field::BotToken => "telegram.bot_token"@,
        Field::WebhookSecret => "telegram.webhook_secret"@,
        Field::SigningSecret => "telegram.signing_secret"@,
        Field::AllowedUserIds => "telegram.allowed_user_ids"@,
        Field::SubscriberUserIds => "telegram.subscriber_user_ids"@,
        Field::SubscriberStore => "telegram.subscriber_store"@,
        Field::SubscriberEvents => "telegram.subscriber_events"@,
        Field::SourceAddress => "source.address"@,
        Field::RecipientChatId => "recipient.chat_id"@,
        Field::RecipientEvents => "recipient.events"@,
        _ => field_key(field),
    }
}

pub open spec fn block_name(block: Block) -> Seq<char> {
    match block {
        Block::Infrabot => "infrabot"@,
        Block::Telegram => "telegram"@,
        Block::Source => "source"@,
        Block::Recipient => "recipient"@,
    }
}

pub open spec fn syntax_message(error: SyntaxError) -> Seq<char> {
    match error {
        SyntaxError::ExpectedAssignment => "expected assignment or block"@,
        SyntaxError::InvalidAssignment => "invalid assignment"@,
        SyntaxError::InvalidEnvironmentReference => "invalid environment variable reference"@,
        SyntaxError::UnquotedValue => "value must be quoted or use env(\"NAME\")"@,
        SyntaxError::ExpectedStringList => "expected a string list"@,
        SyntaxError::UnquotedListValue => "list values must be quoted"@,
        SyntaxError::ExpectedInteger => "expected an integer"@,
    }
}

pub open spec fn value_message(field: Seq<char>, error: ValueErrorView) -> Seq<char> {
    match error {
        ValueErrorView::Missing => field + " is required"@,
        ValueErrorView::MissingEnvironment(name) => field
            + " references missing environment variable "@ + name,
        ValueErrorView::Empty => field + " must not be empty"@,
        ValueErrorView::Literal => field
            + " must use env(\"NAME\") and must not be committed literally"@,
    }
}

pub open spec fn url_message(field: Seq<char>, error: UrlError) -> Seq<char> {
    match error {
        UrlError::Invalid => field + " must be a valid URL"@,
        UrlError::Extras => field + " must not contain credentials, a query, or a fragment"@,
        UrlError::NoHost => field + " has no host"@,
        UrlError::Insecure => field + " must use HTTPS; HTTP is allowed only for localhost"@,
    }
}

/// The prefix `line N: ` of a message about line `n`.
pub open spec fn at_line(n: int) -> Seq<char> {
    "line "@ + digits_of(n as nat) + ": "@
}

/// The message of a refused configuration document.
pub open spec fn config_message(error: ConfigErrorView) -> Seq<char> {
    match error {
        ConfigErrorView::MissingInfrabotBlock => "missing infrabot block"@,
        ConfigErrorView::Syntax { line, error } => at_line(line) + syntax_message(error),
        ConfigErrorView::DuplicateTelegramBlock { line } => at_line(line)
            + "duplicate telegram block"@,
        ConfigErrorView::DuplicateField { line, field } => at_line(line) + "duplicate field "@
            + field_key(field),
        ConfigErrorView::UnknownField { line, block, key } => at_line(line) + "unknown "@
            + block_name(block) + " field "@ + key,
        ConfigErrorView::UnclosedBlock { block } => block_name(block) + " block is not closed"@,
        ConfigErrorView::InvalidIdentifier { block } => block_name(block)
            + " id must contain 1-64 ASCII letters, digits, dots, dashes, or underscores"@,
        ConfigErrorView::MissingTelegramBlock => "missing telegram block"@,
        ConfigErrorView::Value { field, error } => value_message(field_name(field), error),
        ConfigErrorView::Url { field, error } => url_message(field_name(field), error),
        ConfigErrorView::InvalidBotUsername => "telegram.bot_username is invalid"@,
        ConfigErrorView::InvalidUserIds { field } => field_name(field)
            + " must be comma-separated integers"@,
        ConfigErrorView::NoUserIds { field } => field_name(field)
            + " must contain at least one user id"@,
        ConfigErrorView::RelativeSubscriberStore => "telegram.subscriber_store must be an absolute path"@,
        ConfigErrorView::NoSubscriberEvents => "telegram.subscriber_events must contain at least one event"@,
        ConfigErrorView::InvalidWebhookSecret => "telegram.webhook_secret must be 16-256 URL-safe characters"@,
        ConfigErrorView::ShortSigningSecret => "telegram.signing_secret must contain at least 32 bytes"@,
        ConfigErrorView::SigningSecretReused => "telegram.signing_secret must differ from the bot token and the webhook secret"@,
        ConfigErrorView::SourceValue { id, error } => "source "@ + id + ": "@ + value_message(
            "source.address"@,
            error,
        ),
        ConfigErrorView::SourceUrl { id, error } => "source "@ + id + ": "@ + url_message(
            "source.address"@,
            error,
        ),
        ConfigErrorView::DuplicateSource { id } => "duplicate source "@ + id,
        ConfigErrorView::NoSources => "infrabot must declare at least one source"@,
        ConfigErrorView::DuplicateRecipient { id } => "duplicate recipient "@ + id,
        ConfigErrorView::RecipientValue { id, error } => "recipient "@ + id + ": "@ + value_message(
            "recipient.chat_id"@,
            error,
        ),
        ConfigErrorView::InvalidChatId { id } => "recipient "@ + id + " chat_id must be an integer"@,
        ConfigErrorView::ZeroChatId { id } => "recipient "@ + id + " chat_id must not be zero"@,
        ConfigErrorView::NoRecipientEvents { id } => "recipient "@ + id
            + " must subscribe to at least one event"@,
        ConfigErrorView::OutOfRange { field, minimum, maximum } => field_key(field)
            + " must be between "@ + digits_of(minimum as nat) + " and "@ + digits_of(
            maximum as nat,
        ),
    }
}

fn key_text(field: Field) -> (text: &'static str)
    ensures
        text@ == field_key(field),
{
    match field {
        Field::Bind => "bind",
        Field::PublicUrl => "public_url",
        Field::PairingTtlSeconds => "pairing_ttl_seconds",
        Field::AccessTokenTtlSeconds => "access_token_ttl_seconds",
        Field::PollIntervalSeconds => "poll_interval_seconds",
        Field::MaxActivePairings => "max_active_pairings",
        Field::MaxExchangeAttempts => "max_exchange_attempts",
        Field::BotUsername => "bot_username",
        Field::BotToken => "bot_token",
        Field::WebhookSecret => "webhook_secret",
        Field::SigningSecret => "signing_secret",
        Field::AllowedUserIds => "allowed_user_ids",
        Field::SubscriberUserIds => "subscriber_user_ids",
        Field::SubscriberStore => "subscriber_store",
        Field::SubscriberEvents => "subscriber_events",
        Field::SourceAddress => "address",
        Field::RecipientChatId => "chat_id",
        Field::RecipientEvents => "events",
    }
}

fn name_text(field: Field) -> (text: &'static str)
    ensures
        text@ == field_name(field),
{
    match field {
        Field::BotUsername => "telegram.bot_username",
        Field::BotToken => "telegram.bot_token",
        Field::WebhookSecret => "telegram.webhook_secret",
        Field::SigningSecret => "telegram.signing_secret",
        Field::AllowedUserIds => "telegram.allowed_user_ids",
        Field::SubscriberUserIds => "telegram.subscriber_user_ids",
        Field::SubscriberStore => "telegram.subscriber_store",
        Field::SubscriberEvents => "telegram.subscriber_events",
        Field::SourceAddress => "source.address",
        Field::RecipientChatId => "recipient.chat_id",
        Field::RecipientEvents => "recipient.events",
        _ => key_text(field),
    }
}

fn block_text(block: Block) -> (text: &'static str)
    ensures
        text@ == block_name(block),
{
    match block {
        Block::Infrabot => "infrabot",
        Block::Telegram => "telegram",
        Block::Source => "source",
        Block::Recipient => "recipient",
    }
}

fn syntax_text(error: SyntaxError) -> (text: &'static str)
    ensures
        text@ == syntax_message(error),
{
    match error {
        SyntaxError::ExpectedAssignment => "expected assignment or block",
        SyntaxError::InvalidAssignment => "invalid assignment",
        SyntaxError::InvalidEnvironmentReference => "invalid environment variable reference",
        SyntaxError::UnquotedValue => "value must be quoted or use env(\"NAME\")",
        SyntaxError::ExpectedStringList => "expected a string list",
        SyntaxError::UnquotedListValue => "list values must be quoted",
        SyntaxError::ExpectedInteger => "expected an integer",
    }
}

fn value_text(field: &str, error: &ValueError) -> (text: String)
    ensures
        text@ == value_message(field@, error@),
{
    let text = field.to_owned();
    match error {
        ValueError::Missing => text.concat(" is required"),
        ValueError::MissingEnvironment(name) => text.concat(
            " references missing environment variable ",
        ).concat(name.as_str()),
        ValueError::Empty => text.concat(" must not be empty"),
        ValueError::Literal => text.concat(
            " must use env(\"NAME\") and must not be committed literally",
        ),
    }
}

fn url_text(field: &str, error: UrlError) -> (text: String)
    ensures
        text@ == url_message(field@, error),
{
    let text = field.to_owned();
    match error {
        UrlError::Invalid => text.concat(" must be a valid URL"),
        UrlError::Extras => text.concat(" must not contain credentials, a query, or a fragment"),
        UrlError::NoHost => text.concat(" has no host"),
        UrlError::Insecure => text.concat(" must use HTTPS; HTTP is allowed only for localhost"),
    }
}

fn line_text(line: usize) -> (text: String)
    ensures
        text@ == at_line(line as int),
{
    let number = unsigned_text(line as u64);
    "line ".to_owned().concat(number.as_str()).concat(": ")
}

impl ConfigError {
    /// What is wrong, in words.
    pub fn message(&self) -> (text: String)
        ensures
            text@ == config_message(self@),
    {
        match self {
            ConfigError::MissingInfrabotBlock => "missing infrabot block".to_owned(),
            ConfigError::Syntax { line, error } => line_text(*line).concat(syntax_text(*error)),
            ConfigError::DuplicateTelegramBlock { line } => line_text(*line).concat(
                "duplicate telegram block",
            ),
            ConfigError::DuplicateField { line, field } => line_text(*line).concat(
                "duplicate field ",
            ).concat(key_text(*field)),
            ConfigError::UnknownField { line, block, key } => line_text(*line).concat(
                "unknown ",
            ).concat(block_text(*block)).concat(" field ").concat(key.as_str()),
            ConfigError::UnclosedBlock { block } => block_text(*block).to_owned().concat(
                " block is not closed",
            ),
            ConfigError::InvalidIdentifier { block } => block_text(*block).to_owned().concat(
                " id must contain 1-64 ASCII letters, digits, dots, dashes, or underscores",
            ),
            ConfigError::MissingTelegramBlock => "missing telegram block".to_owned(),
            ConfigError::Value { field, error } => value_text(name_text(*field), error),
            ConfigError::Url { field, error } => url_text(name_text(*field), *error),
            ConfigError::InvalidBotUsername => "telegram.bot_username is invalid".to_owned(),
            ConfigError::InvalidUserIds { field } => name_text(*field).to_owned().concat(
                " must be comma-separated integers",
            ),
            ConfigError::NoUserIds { field } => name_text(*field).to_owned().concat(
                " must contain at least one user id",
            ),
            ConfigError::RelativeSubscriberStore => "telegram.subscriber_store must be an absolute path".to_owned(),
            ConfigError::NoSubscriberEvents => "telegram.subscriber_events must contain at least one event".to_owned(),
            ConfigError::InvalidWebhookSecret => "telegram.webhook_secret must be 16-256 URL-safe characters".to_owned(),
            ConfigError::ShortSigningSecret => "telegram.signing_secret must contain at least 32 bytes".to_owned(),
            ConfigError::SigningSecretReused => "telegram.signing_secret must differ from the bot token and the webhook secret".to_owned(),
            ConfigError::SourceValue { id, error } => {
                let detail = value_text("source.address", error);
                "source ".to_owned().concat(id.as_str()).concat(": ").concat(detail.as_str())
            },
            ConfigError::SourceUrl { id, error } => {
                let detail = url_text("source.address", *error);
                "source ".to_owned().concat(id.as_str()).concat(": ").concat(detail.as_str())
            },
            ConfigError::DuplicateSource { id } => "duplicate source ".to_owned().concat(
                id.as_str(),
            ),
            ConfigError::NoSources => "infrabot must declare at least one source".to_owned(),
            ConfigError::DuplicateRecipient { id } => "duplicate recipient ".to_owned().concat(
                id.as_str(),
            ),
            ConfigError::RecipientValue { id, error } => {
                let detail = value_text("recipient.chat_id", error);
                "recipient ".to_owned().concat(id.as_str()).concat(": ").concat(detail.as_str())
            },
            ConfigError::InvalidChatId { id } => "recipient ".to_owned().concat(id.as_str()).concat(
                " chat_id must be an integer",
            ),
            ConfigError::ZeroChatId { id } => "recipient ".to_owned().concat(id.as_str()).concat(
                " chat_id must not be zero",
            ),
            ConfigError::NoRecipientEvents { id } => "recipient ".to_owned().concat(
                id.as_str(),
            ).concat(" must subscribe to at least one event"),
            ConfigError::OutOfRange { field, minimum, maximum } => {
                let low = unsigned_text(*minimum);
                let high = unsigned_text(*maximum);
                key_text(*field).to_owned().concat(" must be between ").concat(low.as_str()).concat(
                    " and ",
                ).concat(high.as_str())
            },
        }
    }
}

} // verus!
