//! The service configuration: the fields a document sets, how values are
//! resolved against the environment, and the rules a configuration keeps.
use crate::document::{
    blocks_view, draft_of, entries_view, read_draft, Draft, DraftView, FieldValue,
    FieldValueView,
};
use crate::primitives::{parse_url, parsed_url, UrlParts, UrlPartsView};
use crate::text::{
    ascii_alphanumeric, chars_of, is_ascii_alphanumeric, string_of, trim, trim_bounds,
};
use crate::values::{
    dedup, dedup_ids, dedup_texts, i64_of, id_list_of, parse_i64, parse_id_list, ValueRef,
    ValueRefView,
};
use vstd::prelude::*;
use vstd::utf8::encode_utf8;

verus! {

/// A field of the configuration document.
#[derive(Debug, Clone, Copy, PartialEq, Eq, Structural)]
pub enum Field {
    Bind,
    PublicUrl,
    PairingTtlSeconds,
    AccessTokenTtlSeconds,
    PollIntervalSeconds,
    MaxActivePairings,
    MaxExchangeAttempts,
    BotUsername,
    BotToken,
    WebhookSecret,
    SigningSecret,
    AllowedUserIds,
    SubscriberUserIds,
    SubscriberStore,
    SubscriberEvents,
    SourceAddress,
    RecipientChatId,
    RecipientEvents,
}

/// A block of the configuration document.
#[derive(Debug, Clone, Copy, PartialEq, Eq, Structural)]
pub enum Block {
    Infrabot,
    Telegram,
    Source,
    Recipient,
}

/// Why the value of a field could not be resolved.
#[derive(Debug, PartialEq, Eq)]
pub enum ValueError {
    /// The field is required and not set.
    Missing,
    /// The field names an environment variable that is not set.
    MissingEnvironment(String),
    /// The value is blank.
    Empty,
    /// A secret is written literally instead of naming an environment variable.
    Literal,
}

pub enum ValueErrorView {
    Missing,
    MissingEnvironment(Seq<char>),
    Empty,
    Literal,
}

impl View for ValueError {
    type V = ValueErrorView;

    open spec fn view(&self) -> ValueErrorView {
        match self {
            ValueError::Missing => ValueErrorView::Missing,
            ValueError::MissingEnvironment(name) => ValueErrorView::MissingEnvironment(name@),
            ValueError::Empty => ValueErrorView::Empty,
            ValueError::Literal => ValueErrorView::Literal,
        }
    }
}

/// Why an address is refused.
#[derive(Debug, Clone, Copy, PartialEq, Eq, Structural)]
pub enum UrlError {
    /// Not a valid absolute URL.
    Invalid,
    /// It carries credentials, a query or a fragment.
    Extras,
    /// It has no host.
    NoHost,
    /// Not HTTPS, and not HTTP to the local host.
    Insecure,
}

/// Why a configuration document is refused.
#[derive(Debug, PartialEq, Eq)]
#[allow(inconsistent_fields)]
pub enum ConfigError {
    MissingInfrabotBlock,
    Syntax { line: usize, error: crate::values::SyntaxError },
    DuplicateTelegramBlock { line: usize },
    DuplicateField { line: usize, field: Field },
    UnknownField { line: usize, block: Block, key: String },
    UnclosedBlock { block: Block },
    InvalidIdentifier { block: Block },
    MissingTelegramBlock,
    Value { field: Field, error: ValueError },
    Url { field: Field, error: UrlError },
    InvalidBotUsername,
    InvalidUserIds { field: Field },
    NoUserIds { field: Field },
    RelativeSubscriberStore,
    NoSubscriberEvents,
    InvalidWebhookSecret,
    ShortSigningSecret,
    SigningSecretReused,
    SourceValue { id: String, error: ValueError },
    SourceUrl { id: String, error: UrlError },
    DuplicateSource { id: String },
    NoSources,
    DuplicateRecipient { id: String },
    RecipientValue { id: String, error: ValueError },
    InvalidChatId { id: String },
    ZeroChatId { id: String },
    NoRecipientEvents { id: String },
    OutOfRange { field: Field, minimum: u64, maximum: u64 },
}

#[allow(inconsistent_fields)]
pub enum ConfigErrorView {
    MissingInfrabotBlock,
    Syntax { line: int, error: crate::values::SyntaxError },
    DuplicateTelegramBlock { line: int },
    DuplicateField { line: int, field: Field },
    UnknownField { line: int, block: Block, key: Seq<char> },
    UnclosedBlock { block: Block },
    InvalidIdentifier { block: Block },
    MissingTelegramBlock,
    Value { field: Field, error: ValueErrorView },
    Url { field: Field, error: UrlError },
    InvalidBotUsername,
    InvalidUserIds { field: Field },
    NoUserIds { field: Field },
    RelativeSubscriberStore,
    NoSubscriberEvents,
    InvalidWebhookSecret,
    ShortSigningSecret,
    SigningSecretReused,
    SourceValue { id: Seq<char>, error: ValueErrorView },
    SourceUrl { id: Seq<char>, error: UrlError },
    DuplicateSource { id: Seq<char> },
    NoSources,
    DuplicateRecipient { id: Seq<char> },
    RecipientValue { id: Seq<char>, error: ValueErrorView },
    InvalidChatId { id: Seq<char> },
    ZeroChatId { id: Seq<char> },
    NoRecipientEvents { id: Seq<char> },
    OutOfRange { field: Field, minimum: u64, maximum: u64 },
}

impl View for ConfigError {
    type V = ConfigErrorView;

    open spec fn view(&self) -> ConfigErrorView {
        match self {
            ConfigError::MissingInfrabotBlock => ConfigErrorView::MissingInfrabotBlock,
            ConfigError::Syntax { line, error } => ConfigErrorView::Syntax {
                line: *line as int,
                error: *error,
            },
            ConfigError::DuplicateTelegramBlock { line } => ConfigErrorView::DuplicateTelegramBlock {
                line: *line as int,
            },
            ConfigError::DuplicateField { line, field } => ConfigErrorView::DuplicateField {
                line: *line as int,
                field: *field,
            },
            ConfigError::UnknownField { line, block, key } => ConfigErrorView::UnknownField {
                line: *line as int,
                block: *block,
                key: key@,
            },
            ConfigError::UnclosedBlock { block } => ConfigErrorView::UnclosedBlock { block: *block },
            ConfigError::InvalidIdentifier { block } => ConfigErrorView::InvalidIdentifier {
                block: *block,
            },
            ConfigError::MissingTelegramBlock => ConfigErrorView::MissingTelegramBlock,
            ConfigError::Value { field, error } => ConfigErrorView::Value {
                field: *field,
                error: error@,
            },
            ConfigError::Url { field, error } => ConfigErrorView::Url { field: *field, error: *error },
            ConfigError::InvalidBotUsername => ConfigErrorView::InvalidBotUsername,
            ConfigError::InvalidUserIds { field } => ConfigErrorView::InvalidUserIds { field: *field },
            ConfigError::NoUserIds { field } => ConfigErrorView::NoUserIds { field: *field },
            ConfigError::RelativeSubscriberStore => ConfigErrorView::RelativeSubscriberStore,
            ConfigError::NoSubscriberEvents => ConfigErrorView::NoSubscriberEvents,
            ConfigError::InvalidWebhookSecret => ConfigErrorView::InvalidWebhookSecret,
            ConfigError::ShortSigningSecret => ConfigErrorView::ShortSigningSecret,
            ConfigError::SigningSecretReused => ConfigErrorView::SigningSecretReused,
            ConfigError::SourceValue { id, error } => ConfigErrorView::SourceValue {
                id: id@,
                error: error@,
            },
            ConfigError::SourceUrl { id, error } => ConfigErrorView::SourceUrl {
                id: id@,
                error: *error,
            },
            ConfigError::DuplicateSource { id } => ConfigErrorView::DuplicateSource { id: id@ },
            ConfigError::NoSources => ConfigErrorView::NoSources,
            ConfigError::DuplicateRecipient { id } => ConfigErrorView::DuplicateRecipient { id: id@ },
            ConfigError::RecipientValue { id, error } => ConfigErrorView::RecipientValue {
                id: id@,
                error: error@,
            },
            ConfigError::InvalidChatId { id } => ConfigErrorView::InvalidChatId { id: id@ },
            ConfigError::ZeroChatId { id } => ConfigErrorView::ZeroChatId { id: id@ },
            ConfigError::NoRecipientEvents { id } => ConfigErrorView::NoRecipientEvents { id: id@ },
            ConfigError::OutOfRange { field, minimum, maximum } => ConfigErrorView::OutOfRange {
                field: *field,
                minimum: *minimum,
                maximum: *maximum,
            },
        }
    }
}

/// A notification recipient: a Telegram chat and the event kinds it wants
/// (`"*"` for every kind).
pub struct RecipientConfig {
    pub id: String,
    pub chat_id: i64,
    pub events: Vec<String>,
}

pub struct RecipientView {
    pub id: Seq<char>,
    pub chat_id: i64,
    pub events: Seq<Seq<char>>,
}

impl View for RecipientConfig {
    type V = RecipientView;

    open spec fn view(&self) -> RecipientView {
        RecipientView {
            id: self.id@,
            chat_id: self.chat_id,
            events: self.events@.map_values(|s: String| s@),
        }
    }
}


/// A loaded configuration.
pub struct Config {
    /// The socket address to listen on, as written (the caller parses it).
    pub bind_addr: String,
    pub public_url: String,
    pub telegram_bot_token: String,
    pub telegram_bot_username: String,
    pub telegram_webhook_secret: String,
    pub signing_secret: String,
    /// The users allowed to approve pairings, each once.
    pub allowed_user_ids: Vec<i64>,
    /// The users allowed to subscribe to notifications, each once.
    pub subscriber_user_ids: Vec<i64>,
    pub subscriber_store: String,
    /// The event kinds delivered to subscribers, each once.
    pub subscriber_events: Vec<String>,
    /// Each source id with its address, in the order of the document, each
    /// id once.
    pub sources: Vec<(String, String)>,
    pub recipients: Vec<RecipientConfig>,
    pub pairing_ttl_seconds: u64,
    pub access_token_ttl_seconds: u64,
    pub poll_interval_seconds: u64,
    pub max_active_pairings: usize,
    pub max_exchange_attempts: u8,
}

pub struct ConfigView {
    pub bind_addr: Seq<char>,
    pub public_url: Seq<char>,
    pub telegram_bot_token: Seq<char>,
    pub telegram_bot_username: Seq<char>,
    pub telegram_webhook_secret: Seq<char>,
    pub signing_secret: Seq<char>,
    pub allowed_user_ids: Seq<i64>,
    pub subscriber_user_ids: Seq<i64>,
    pub subscriber_store: Seq<char>,
    pub subscriber_events: Seq<Seq<char>>,
    pub sources: Seq<(Seq<char>, Seq<char>)>,
    pub recipients: Seq<RecipientView>,
    pub pairing_ttl_seconds: u64,
    pub access_token_ttl_seconds: u64,
    pub poll_interval_seconds: u64,
    pub max_active_pairings: usize,
    pub max_exchange_attempts: u8,
}

pub open spec fn texts_view(texts: Seq<String>) -> Seq<Seq<char>> {
    texts.map_values(|s: String| s@)
}

pub open spec fn pairs_view(pairs: Seq<(String, String)>) -> Seq<(Seq<char>, Seq<char>)> {
    pairs.map_values(|p: (String, String)| (p.0@, p.1@))
}

pub open spec fn recipients_view(recipients: Seq<RecipientConfig>) -> Seq<RecipientView> {
    recipients.map_values(|r: RecipientConfig| r@)
}

impl View for Config {
    type V = ConfigView;

    open spec fn view(&self) -> ConfigView {
        ConfigView {
            bind_addr: self.bind_addr@,
            public_url: self.public_url@,
            telegram_bot_token: self.telegram_bot_token@,
            telegram_bot_username: self.telegram_bot_username@,
            telegram_webhook_secret: self.telegram_webhook_secret@,
            signing_secret: self.signing_secret@,
            allowed_user_ids: self.allowed_user_ids@,
            subscriber_user_ids: self.subscriber_user_ids@,
            subscriber_store: self.subscriber_store@,
            subscriber_events: texts_view(self.subscriber_events@),
            sources: pairs_view(self.sources@),
            recipients: recipients_view(self.recipients@),
            pairing_ttl_seconds: self.pairing_ttl_seconds,
            access_token_ttl_seconds: self.access_token_ttl_seconds,
            poll_interval_seconds: self.poll_interval_seconds,
            max_active_pairings: self.max_active_pairings,
            max_exchange_attempts: self.max_exchange_attempts,
        }
    }
}

// ---------------------------------------------------------------------------
// Values and the environment

/// The value of the first entry of `s` under `key`.
pub open spec fn first_value<K, V>(s: Seq<(K, V)>, key: K) -> Option<V>
    decreases s.len(),
{
    if s.len() == 0 {
        None
    } else if s[0].0 == key {
        Some(s[0].1)
    } else {
        first_value(s.drop_first(), key)
    }
}

/// The value reference set for `field`.
pub open spec fn ref_field(entries: Seq<(Field, FieldValueView)>, field: Field) -> Option<
    ValueRefView,
> {
    match first_value(entries, field) {
        Some(FieldValueView::Reference(r)) => Some(r),
        _ => None,
    }
}

/// The string list set for `field`.
pub open spec fn list_field(entries: Seq<(Field, FieldValueView)>, field: Field) -> Option<
    Seq<Seq<char>>,
> {
    match first_value(entries, field) {
        Some(FieldValueView::List(l)) => Some(l),
        _ => None,
    }
}

/// The number set for `field`, or `default`.
pub open spec fn number_or(entries: Seq<(Field, FieldValueView)>, field: Field, default: u64) -> u64 {
    match first_value(entries, field) {
        Some(FieldValueView::Number(n)) => n,
        _ => default,
    }
}

/// The environment, as names and values.
pub open spec fn env_view(env: Seq<(String, String)>) -> Seq<(Seq<char>, Seq<char>)> {
    pairs_view(env)
}

/// A value, trimmed; refused where nothing but whitespace is left.
pub open spec fn nonblank(text: Seq<char>) -> Result<Seq<char>, ValueErrorView> {
    if trim(text).len() == 0 {
        Err(ValueErrorView::Empty)
    } else {
        Ok(trim(text))
    }
}

/// A value reference resolved: the literal text, or the value of the named
/// environment variable, trimmed and not blank.
pub open spec fn resolved(r: ValueRefView, env: Seq<(Seq<char>, Seq<char>)>) -> Result<
    Seq<char>,
    ValueErrorView,
> {
    match r {
        ValueRefView::Literal(text) => nonblank(text),
        ValueRefView::Environment(name) => match first_value(env, name) {
            None => Err(ValueErrorView::MissingEnvironment(name)),
            Some(text) => nonblank(text),
        },
    }
}

/// A field that must be set.
pub open spec fn required(r: Option<ValueRefView>, env: Seq<(Seq<char>, Seq<char>)>) -> Result<
    Seq<char>,
    ValueErrorView,
> {
    match r {
        None => Err(ValueErrorView::Missing),
        Some(r) => resolved(r, env),
    }
}

/// A secret: it must be set, and must name an environment variable.
pub open spec fn secret(r: Option<ValueRefView>, env: Seq<(Seq<char>, Seq<char>)>) -> Result<
    Seq<char>,
    ValueErrorView,
> {
    match r {
        None => Err(ValueErrorView::Missing),
        Some(ValueRefView::Literal(_)) => Err(ValueErrorView::Literal),
        Some(r) => resolved(r, env),
    }
}

/// A field with a default for when it is not set.
pub open spec fn or_default(
    r: Option<ValueRefView>,
    default: Seq<char>,
    env: Seq<(Seq<char>, Seq<char>)>,
) -> Result<Seq<char>, ValueErrorView> {
    match r {
        None => Ok(default),
        Some(r) => resolved(r, env),
    }
}

/// The entry of `env` named `name`, the first where several are.
fn lookup<'a>(env: &'a [(String, String)], name: &String) -> (value: Option<&'a String>)
    ensures
        match value {
            Some(v) => first_value(env_view(env@), name@) == Some(v@),
            None => first_value(env_view(env@), name@) is None,
        },
{
    let ghost ev = env_view(env@);
    assert(ev.skip(0) =~= ev);
    let mut i: usize = 0;
    while i < env.len()
        invariant
            0 <= i <= env@.len(),
            ev == env_view(env@),
            first_value(ev, name@) == first_value(ev.skip(i as int), name@),
        decreases env@.len() - i,
    {
        assert(ev.skip(i as int)[0] == ev[i as int]);
        assert(ev.skip(i as int).drop_first() =~= ev.skip(i + 1));
        if env[i].0 == *name {
            return Some(&env[i].1);
        }
        i = i + 1;
    }
    assert(ev.skip(i as int).len() == 0);
    None
}

/// `text`, trimmed.
fn trimmed(text: &str) -> (t: String)
    ensures
        t@ == trim(text@),
{
    let chars = chars_of(text);
    let (a, b) = trim_bounds(chars.as_slice(), 0, chars.len());
    assert(chars@.subrange(0, chars@.len() as int) =~= text@);
    string_of(chars.as_slice(), a, b)
}

/// Resolves a value reference against the environment.
pub fn resolve(r: &ValueRef, env: &[(String, String)]) -> (value: Result<String, ValueError>)
    ensures
        match value {
            Ok(v) => resolved(r@, env_view(env@)) == Ok::<Seq<char>, ValueErrorView>(v@),
            Err(e) => resolved(r@, env_view(env@)) == Err::<Seq<char>, ValueErrorView>(e@),
        },
{
    let raw = match r {
        ValueRef::Literal(text) => text,
        ValueRef::Environment(name) => match lookup(env, name) {
            Some(v) => v,
            None => {
                return Err(ValueError::MissingEnvironment(name.clone()));
            },
        },
    };
    let t = trimmed(raw.as_str());
    if t.as_str().unicode_len() == 0 {
        return Err(ValueError::Empty);
    }
    Ok(t)
}

fn resolve_required(r: Option<&ValueRef>, env: &[(String, String)]) -> (value: Result<
    String,
    ValueError,
>)
    ensures
        ({
            let rv = match r {
                Some(x) => Some(x@),
                None => None,
            };
            match value {
                Ok(v) => required(rv, env_view(env@)) == Ok::<Seq<char>, ValueErrorView>(v@),
                Err(e) => required(rv, env_view(env@)) == Err::<Seq<char>, ValueErrorView>(e@),
            }
        }),
{
    match r {
        None => Err(ValueError::Missing),
        Some(r) => resolve(r, env),
    }
}

fn resolve_secret(r: Option<&ValueRef>, env: &[(String, String)]) -> (value: Result<
    String,
    ValueError,
>)
    ensures
        ({
            let rv = match r {
                Some(x) => Some(x@),
                None => None,
            };
            match value {
                Ok(v) => secret(rv, env_view(env@)) == Ok::<Seq<char>, ValueErrorView>(v@),
                Err(e) => secret(rv, env_view(env@)) == Err::<Seq<char>, ValueErrorView>(e@),
            }
        }),
{
    match r {
        None => Err(ValueError::Missing),
        Some(ValueRef::Literal(_)) => Err(ValueError::Literal),
        Some(r) => resolve(r, env),
    }
}

fn resolve_or(r: Option<&ValueRef>, default: &str, env: &[(String, String)]) -> (value: Result<
    String,
    ValueError,
>)
    ensures
        ({
            let rv = match r {
                Some(x) => Some(x@),
                None => None,
            };
            match value {
                Ok(v) => or_default(rv, default@, env_view(env@)) == Ok::<Seq<char>, ValueErrorView>(
                    v@,
                ),
                Err(e) => or_default(rv, default@, env_view(env@)) == Err::<
                    Seq<char>,
                    ValueErrorView,
                >(e@),
            }
        }),
{
    match r {
        None => Ok(default.to_owned()),
        Some(r) => resolve(r, env),
    }
}

/// The value set for `field` among `entries`.
fn field_entry<'a>(entries: &'a Vec<(Field, FieldValue)>, field: Field) -> (value: Option<
    &'a FieldValue,
>)
    ensures
        match value {
            Some(v) => first_value(entries_view(entries@), field) == Some(v@),
            None => first_value(entries_view(entries@), field) is None,
        },
{
    let ghost ev = entries_view(entries@);
    assert(ev.skip(0) =~= ev);
    let mut i: usize = 0;
    while i < entries.len()
        invariant
            0 <= i <= entries@.len(),
            ev == entries_view(entries@),
            first_value(ev, field) == first_value(ev.skip(i as int), field),
        decreases entries@.len() - i,
    {
        assert(ev.skip(i as int)[0] == ev[i as int]);
        assert(ev.skip(i as int).drop_first() =~= ev.skip(i + 1));
        if entries[i].0 == field {
            return Some(&entries[i].1);
        }
        i = i + 1;
    }
    assert(ev.skip(i as int).len() == 0);
    None
}

/// The value reference set for `field`.
fn ref_entry<'a>(entries: &'a Vec<(Field, FieldValue)>, field: Field) -> (r: Option<&'a ValueRef>)
    ensures
        match r {
            Some(x) => ref_field(entries_view(entries@), field) == Some(x@),
            None => ref_field(entries_view(entries@), field) is None,
        },
{
    match field_entry(entries, field) {
        Some(FieldValue::Reference(r)) => Some(r),
        _ => None,
    }
}

/// The string list set for `field`.
fn list_entry<'a>(entries: &'a Vec<(Field, FieldValue)>, field: Field) -> (l: Option<
    &'a Vec<String>,
>)
    ensures
        match l {
            Some(x) => list_field(entries_view(entries@), field) == Some(texts_view(x@)),
            None => list_field(entries_view(entries@), field) is None,
        },
{
    match field_entry(entries, field) {
        Some(FieldValue::List(l)) => Some(l),
        _ => None,
    }
}

/// The number set for `field`, or `default`.
fn number_entry(entries: &Vec<(Field, FieldValue)>, field: Field, default: u64) -> (n: u64)
    ensures
        n == number_or(entries_view(entries@), field, default),
{
    match field_entry(entries, field) {
        Some(FieldValue::Number(n)) => *n,
        _ => default,
    }
}

// ---------------------------------------------------------------------------
// Addresses

/// What is wrong with the parts of an address: it must parse, carry no
/// credentials, query or fragment, have a host, and use HTTPS (HTTP only to
/// `localhost`, `127.0.0.1` or `::1`).
pub open spec fn url_problem_of(parts: Option<UrlPartsView>) -> Option<UrlError> {
    match parts {
        None => Some(UrlError::Invalid),
        Some(p) => if p.username.len() > 0 || p.password is Some || p.query is Some
            || p.fragment is Some {
            Some(UrlError::Extras)
        } else {
            match p.host {
                None => Some(UrlError::NoHost),
                Some(host) => if p.scheme == "https"@ || (p.scheme == "http"@ && (host
                    == "localhost"@ || host == "127.0.0.1"@ || host == "::1"@)) {
                    None
                } else {
                    Some(UrlError::Insecure)
                },
            }
        },
    }
}

pub open spec fn parts_view(parts: Option<UrlParts>) -> Option<UrlPartsView> {
    match parts {
        Some(p) => Some(p@),
        None => None,
    }
}

/// What is wrong with the parsed parts of an address, if anything.
pub fn url_problem(parts: &Option<UrlParts>) -> (problem: Option<UrlError>)
    ensures
        problem == url_problem_of(parts_view(*parts)),
{
    match parts {
        None => Some(UrlError::Invalid),
        Some(p) => {
            if p.username.as_str().unicode_len() > 0 || p.password.is_some() || p.query.is_some()
                || p.fragment.is_some() {
                return Some(UrlError::Extras);
            }
            match &p.host {
                None => Some(UrlError::NoHost),
                Some(host) => {
                    let https = "https".to_owned();
                    let http = "http".to_owned();
                    let localhost = "localhost".to_owned();
                    let loopback = "127.0.0.1".to_owned();
                    let loopback6 = "::1".to_owned();
                    if p.scheme == https || (p.scheme == http && (*host == localhost || *host
                        == loopback || *host == loopback6)) {
                        None
                    } else {
                        Some(UrlError::Insecure)
                    }
                },
            }
        },
    }
}

/// Checks an address.
pub fn validate_url(text: &str) -> (problem: Option<UrlError>)
    ensures
        problem == url_problem_of(parsed_url(text@)),
{
    let parts = match parse_url(text) {
        Ok(p) => Some(p),
        Err(_) => None,
    };
    url_problem(&parts)
}


// ---------------------------------------------------------------------------
// The telegram block

/// `s` without its leading `c`s (`str::trim_start_matches`).
pub open spec fn without_leading(s: Seq<char>, c: char) -> Seq<char>
    decreases s.len(),
{
    if s.len() > 0 && s[0] == c {
        without_leading(s.drop_first(), c)
    } else {
        s
    }
}

/// A bot user name: ASCII letters, digits and underscores, at least one.
pub open spec fn is_bot_username(name: Seq<char>) -> bool {
    &&& name.len() > 0
    &&& forall|i: int|
        0 <= i < name.len() ==> is_ascii_alphanumeric(#[trigger] name[i]) || name[i] == '_'
}

/// A webhook secret: 16 to 256 bytes of ASCII letters, digits, `_` and `-`.
pub open spec fn is_webhook_secret(secret: Seq<char>) -> bool {
    &&& 16 <= encode_utf8(secret).len() <= 256
    &&& forall|i: int|
        0 <= i < secret.len() ==> is_ascii_alphanumeric(#[trigger] secret[i]) || secret[i] == '_'
            || secret[i] == '-'
}

/// A comma-separated list of user ids, each kept once; refused where an entry
/// is not an integer, or where no id is left.
pub open spec fn user_ids_of(text: Seq<char>, field: Field) -> Result<Seq<i64>, ConfigErrorView> {
    match id_list_of(text) {
        None => Err(ConfigErrorView::InvalidUserIds { field }),
        Some(ids) => if dedup(ids).len() == 0 {
            Err(ConfigErrorView::NoUserIds { field })
        } else {
            Ok(dedup(ids))
        },
    }
}

/// The subscriber ids: the ones set, or else the allowed users.
pub open spec fn subscribers_of(
    r: Option<ValueRefView>,
    allowed: Seq<i64>,
    env: Seq<(Seq<char>, Seq<char>)>,
) -> Result<Seq<i64>, ConfigErrorView> {
    match r {
        None => Ok(allowed),
        Some(r) => match resolved(r, env) {
            Err(e) => Err(ConfigErrorView::Value { field: Field::SubscriberUserIds, error: e }),
            Ok(text) => user_ids_of(text, Field::SubscriberUserIds),
        },
    }
}

/// What the telegram block configures.
pub struct TelegramView {
    pub bot_username: Seq<char>,
    pub bot_token: Seq<char>,
    pub webhook_secret: Seq<char>,
    pub signing_secret: Seq<char>,
    pub allowed_user_ids: Seq<i64>,
    pub subscriber_user_ids: Seq<i64>,
    pub subscriber_store: Seq<char>,
    pub subscriber_events: Seq<Seq<char>>,
}

/// The telegram block resolved and checked, in this order: the bot user name
/// (leading `@`s dropped), the bot token, webhook secret and signing secret
/// (each named by an environment variable), the allowed users, the
/// subscribers, the subscriber store (an absolute path), the subscriber
/// events (each once, at least one), and then the webhook secret's form, the
/// signing secret's length (at least 32 bytes), and that the signing secret
/// is neither the bot token nor the webhook secret.
pub open spec fn telegram_of(
    tg: Seq<(Field, FieldValueView)>,
    env: Seq<(Seq<char>, Seq<char>)>,
) -> Result<TelegramView, ConfigErrorView> {
    match required(ref_field(tg, Field::BotUsername), env) {
        Err(e) => Err(ConfigErrorView::Value { field: Field::BotUsername, error: e }),
        Ok(named) => {
            let username = without_leading(named, '@');
            if !is_bot_username(username) {
                Err(ConfigErrorView::InvalidBotUsername)
            } else {
                match secret(ref_field(tg, Field::BotToken), env) {
                    Err(e) => Err(ConfigErrorView::Value { field: Field::BotToken, error: e }),
                    Ok(token) => match secret(ref_field(tg, Field::WebhookSecret), env) {
                        Err(e) => Err(ConfigErrorView::Value { field: Field::WebhookSecret, error: e }),
                        Ok(webhook) => match secret(ref_field(tg, Field::SigningSecret), env) {
                            Err(e) => Err(
                                ConfigErrorView::Value { field: Field::SigningSecret, error: e },
                            ),
                            Ok(signing) => telegram_audience_of(
                                tg,
                                env,
                                username,
                                token,
                                webhook,
                                signing,
                            ),
                        },
                    },
                }
            }
        },
    }
}

/// The rest of the telegram block, once the name and secrets are resolved.
pub open spec fn telegram_audience_of(
    tg: Seq<(Field, FieldValueView)>,
    env: Seq<(Seq<char>, Seq<char>)>,
    username: Seq<char>,
    token: Seq<char>,
    webhook: Seq<char>,
    signing: Seq<char>,
) -> Result<TelegramView, ConfigErrorView> {
    match required(ref_field(tg, Field::AllowedUserIds), env) {
        Err(e) => Err(ConfigErrorView::Value { field: Field::AllowedUserIds, error: e }),
        Ok(allowed_text) => match user_ids_of(allowed_text, Field::AllowedUserIds) {
            Err(e) => Err(e),
            Ok(allowed) => match subscribers_of(ref_field(tg, Field::SubscriberUserIds), allowed, env) {
                Err(e) => Err(e),
                Ok(subscribers) => match or_default(
                    ref_field(tg, Field::SubscriberStore),
                    "/var/lib/infrabot/subscribers.json"@,
                    env,
                ) {
                    Err(e) => Err(ConfigErrorView::Value { field: Field::SubscriberStore, error: e }),
                    Ok(store) => if !(store.len() > 0 && store[0] == '/') {
                        Err(ConfigErrorView::RelativeSubscriberStore)
                    } else {
                        match list_field(tg, Field::SubscriberEvents) {
                            None => Err(
                                ConfigErrorView::Value {
                                    field: Field::SubscriberEvents,
                                    error: ValueErrorView::Missing,
                                },
                            ),
                            Some(listed) => if dedup(listed).len() == 0 {
                                Err(ConfigErrorView::NoSubscriberEvents)
                            } else if !is_webhook_secret(webhook) {
                                Err(ConfigErrorView::InvalidWebhookSecret)
                            } else if encode_utf8(signing).len() < 32 {
                                Err(ConfigErrorView::ShortSigningSecret)
                            } else if signing == token || signing == webhook {
                                Err(ConfigErrorView::SigningSecretReused)
                            } else {
                                Ok(
                                    TelegramView {
                                        bot_username: username,
                                        bot_token: token,
                                        webhook_secret: webhook,
                                        signing_secret: signing,
                                        allowed_user_ids: allowed,
                                        subscriber_user_ids: subscribers,
                                        subscriber_store: store,
                                        subscriber_events: dedup(listed),
                                    },
                                )
                            },
                        }
                    },
                },
            },
        },
    }
}

proof fn lemma_without_leading(s: Seq<char>, c: char, k: int)
    requires
        0 <= k <= s.len(),
        forall|i: int| 0 <= i < k ==> s[i] == c,
        k == s.len() || s[k] != c,
    ensures
        without_leading(s, c) == s.skip(k),
    decreases k,
{
    if k == 0 {
        assert(s.skip(0) =~= s);
    } else {
        lemma_without_leading(s.drop_first(), c, k - 1);
        assert(s.drop_first().skip(k - 1) =~= s.skip(k));
    }
}

/// The bot user name written in `text`, without its leading `@`s, where it is
/// valid.
fn bot_username(text: &str) -> (name: Option<String>)
    ensures
        match name {
            Some(n) => is_bot_username(without_leading(text@, '@')) && n@ == without_leading(
                text@,
                '@',
            ),
            None => !is_bot_username(without_leading(text@, '@')),
        },
{
    let chars = chars_of(text);
    let mut k: usize = 0;
    while k < chars.len() && chars[k] == '@'
        invariant
            0 <= k <= chars@.len(),
            chars@ == text@,
            forall|i: int| 0 <= i < k ==> chars@[i] == '@',
        decreases chars@.len() - k,
    {
        k = k + 1;
    }
    proof {
        lemma_without_leading(text@, '@', k as int);
        assert(text@.skip(k as int) =~= chars@.subrange(k as int, chars@.len() as int));
    }
    if k == chars.len() {
        return None;
    }
    let mut i = k;
    while i < chars.len()
        invariant
            k <= i <= chars@.len(),
            chars@ == text@,
            without_leading(text@, '@') == chars@.subrange(k as int, chars@.len() as int),
            forall|j: int|
                k <= j < i ==> is_ascii_alphanumeric(#[trigger] chars@[j]) || chars@[j] == '_',
        decreases chars@.len() - i,
    {
        if !(ascii_alphanumeric(chars[i]) || chars[i] == '_') {
            assert(without_leading(text@, '@')[i - k] == chars@[i as int]);
            return None;
        }
        i = i + 1;
    }
    let name = string_of(chars.as_slice(), k, chars.len());
    assert forall|j: int| 0 <= j < name@.len() implies is_ascii_alphanumeric(#[trigger] name@[j])
        || name@[j] == '_' by {
        assert(name@[j] == chars@[k + j]);
    }
    Some(name)
}

/// Whether `secret` is a valid webhook secret.
fn webhook_secret_valid(secret: &str) -> (valid: bool)
    ensures
        valid == is_webhook_secret(secret@),
{
    let n = secret.as_bytes().len();
    if n < 16 || n > 256 {
        return false;
    }
    let chars = chars_of(secret);
    let mut i: usize = 0;
    while i < chars.len()
        invariant
            0 <= i <= chars@.len(),
            chars@ == secret@,
            16 <= encode_utf8(secret@).len() <= 256,
            forall|j: int|
                0 <= j < i ==> is_ascii_alphanumeric(#[trigger] chars@[j]) || chars@[j] == '_'
                    || chars@[j] == '-',
        decreases chars@.len() - i,
    {
        let c = chars[i];
        if !(ascii_alphanumeric(c) || c == '_' || c == '-') {
            return false;
        }
        i = i + 1;
    }
    true
}

/// Reads a list of user ids for `field`.
fn user_ids(text: &str, field: Field) -> (ids: Result<Vec<i64>, ConfigError>)
    ensures
        match ids {
            Ok(v) => user_ids_of(text@, field) == Ok::<Seq<i64>, ConfigErrorView>(v@),
            Err(e) => user_ids_of(text@, field) == Err::<Seq<i64>, ConfigErrorView>(e@),
        },
{
    match parse_id_list(text) {
        None => Err(ConfigError::InvalidUserIds { field }),
        Some(listed) => {
            let unique = dedup_ids(&listed);
            if unique.len() == 0 {
                Err(ConfigError::NoUserIds { field })
            } else {
                Ok(unique)
            }
        },
    }
}

/// The telegram block, resolved and checked.
struct TelegramSettings {
    bot_username: String,
    bot_token: String,
    webhook_secret: String,
    signing_secret: String,
    allowed_user_ids: Vec<i64>,
    subscriber_user_ids: Vec<i64>,
    subscriber_store: String,
    subscriber_events: Vec<String>,
}

spec fn settings_view(t: TelegramSettings) -> TelegramView {
    TelegramView {
        bot_username: t.bot_username@,
        bot_token: t.bot_token@,
        webhook_secret: t.webhook_secret@,
        signing_secret: t.signing_secret@,
        allowed_user_ids: t.allowed_user_ids@,
        subscriber_user_ids: t.subscriber_user_ids@,
        subscriber_store: t.subscriber_store@,
        subscriber_events: texts_view(t.subscriber_events@),
    }
}

fn read_telegram(tg: &Vec<(Field, FieldValue)>, env: &[(String, String)]) -> (settings: Result<
    TelegramSettings,
    ConfigError,
>)
    ensures
        match settings {
            Ok(t) => telegram_of(entries_view(tg@), env_view(env@)) == Ok::<
                TelegramView,
                ConfigErrorView,
            >(settings_view(t)),
            Err(e) => telegram_of(entries_view(tg@), env_view(env@)) == Err::<
                TelegramView,
                ConfigErrorView,
            >(e@),
        },
{
    let named = match resolve_required(ref_entry(tg, Field::BotUsername), env) {
        Ok(v) => v,
        Err(e) => {
            return Err(ConfigError::Value { field: Field::BotUsername, error: e });
        },
    };
    let username = match bot_username(named.as_str()) {
        Some(n) => n,
        None => {
            return Err(ConfigError::InvalidBotUsername);
        },
    };
    let token = match resolve_secret(ref_entry(tg, Field::BotToken), env) {
        Ok(v) => v,
        Err(e) => {
            return Err(ConfigError::Value { field: Field::BotToken, error: e });
        },
    };
    let webhook = match resolve_secret(ref_entry(tg, Field::WebhookSecret), env) {
        Ok(v) => v,
        Err(e) => {
            return Err(ConfigError::Value { field: Field::WebhookSecret, error: e });
        },
    };
    let signing = match resolve_secret(ref_entry(tg, Field::SigningSecret), env) {
        Ok(v) => v,
        Err(e) => {
            return Err(ConfigError::Value { field: Field::SigningSecret, error: e });
        },
    };
    let allowed_text = match resolve_required(ref_entry(tg, Field::AllowedUserIds), env) {
        Ok(v) => v,
        Err(e) => {
            return Err(ConfigError::Value { field: Field::AllowedUserIds, error: e });
        },
    };
    let allowed = match user_ids(allowed_text.as_str(), Field::AllowedUserIds) {
        Ok(v) => v,
        Err(e) => {
            return Err(e);
        },
    };
    let subscribers = match ref_entry(tg, Field::SubscriberUserIds) {
        None => allowed.clone(),
        Some(r) => match resolve(r, env) {
            Err(e) => {
                return Err(ConfigError::Value { field: Field::SubscriberUserIds, error: e });
            },
            Ok(text) => match user_ids(text.as_str(), Field::SubscriberUserIds) {
                Ok(v) => v,
                Err(e) => {
                    return Err(e);
                },
            },
        },
    };
    let store = match resolve_or(
        ref_entry(tg, Field::SubscriberStore),
        "/var/lib/infrabot/subscribers.json",
        env,
    ) {
        Ok(v) => v,
        Err(e) => {
            return Err(ConfigError::Value { field: Field::SubscriberStore, error: e });
        },
    };
    let store_chars = chars_of(store.as_str());
    if !(store_chars.len() > 0 && store_chars[0] == '/') {
        return Err(ConfigError::RelativeSubscriberStore);
    }
    let listed = match list_entry(tg, Field::SubscriberEvents) {
        Some(l) => l,
        None => {
            return Err(ConfigError::Value { field: Field::SubscriberEvents, error: ValueError::Missing });
        },
    };
    let events = dedup_texts(listed.clone());
    if events.len() == 0 {
        return Err(ConfigError::NoSubscriberEvents);
    }
    if !webhook_secret_valid(webhook.as_str()) {
        return Err(ConfigError::InvalidWebhookSecret);
    }
    if signing.as_str().as_bytes().len() < 32 {
        return Err(ConfigError::ShortSigningSecret);
    }
    if signing == token || signing == webhook {
        return Err(ConfigError::SigningSecretReused);
    }
    Ok(
        TelegramSettings {
            bot_username: username,
            bot_token: token,
            webhook_secret: webhook,
            signing_secret: signing,
            allowed_user_ids: allowed,
            subscriber_user_ids: subscribers,
            subscriber_store: store,
            subscriber_events: events,
        },
    )
}


// ---------------------------------------------------------------------------
// Sources and recipients

/// Whether some pair of `s` has the key `k`.
pub open spec fn has_id<V>(s: Seq<(Seq<char>, V)>, k: Seq<char>) -> bool {
    exists|i: int| 0 <= i < s.len() && (#[trigger] s[i]).0 == k
}

/// The first `n` source blocks resolved, in order: each address required and
/// checked, and no id twice.
pub open spec fn sources_of(
    blocks: Seq<(Seq<char>, Seq<(Field, FieldValueView)>)>,
    n: int,
    env: Seq<(Seq<char>, Seq<char>)>,
) -> Result<Seq<(Seq<char>, Seq<char>)>, ConfigErrorView>
    decreases n,
{
    if n <= 0 {
        Ok(Seq::empty())
    } else {
        match sources_of(blocks, n - 1, env) {
            Err(e) => Err(e),
            Ok(done) => {
                let id = blocks[n - 1].0;
                match required(ref_field(blocks[n - 1].1, Field::SourceAddress), env) {
                    Err(e) => Err(ConfigErrorView::SourceValue { id, error: e }),
                    Ok(address) => match url_problem_of(parsed_url(address)) {
                        Some(e) => Err(ConfigErrorView::SourceUrl { id, error: e }),
                        None => if has_id(done, id) {
                            Err(ConfigErrorView::DuplicateSource { id })
                        } else {
                            Ok(done.push((id, address)))
                        },
                    },
                }
            },
        }
    }
}

/// The first `n` recipient blocks resolved, in order: no id twice, a chat id
/// that is a non-zero integer, and a list of events, each kept once, at least
/// one.
pub open spec fn recipients_of(
    blocks: Seq<(Seq<char>, Seq<(Field, FieldValueView)>)>,
    n: int,
    env: Seq<(Seq<char>, Seq<char>)>,
) -> Result<Seq<RecipientView>, ConfigErrorView>
    decreases n,
{
    if n <= 0 {
        Ok(Seq::empty())
    } else {
        match recipients_of(blocks, n - 1, env) {
            Err(e) => Err(e),
            Ok(done) => {
                let id = blocks[n - 1].0;
                let fields = blocks[n - 1].1;
                if exists|j: int| 0 <= j < done.len() && (#[trigger] done[j]).id == id {
                    Err(ConfigErrorView::DuplicateRecipient { id })
                } else {
                    match required(ref_field(fields, Field::RecipientChatId), env) {
                        Err(e) => Err(ConfigErrorView::RecipientValue { id, error: e }),
                        Ok(text) => match i64_of(text) {
                            None => Err(ConfigErrorView::InvalidChatId { id }),
                            Some(chat_id) => if chat_id == 0 {
                                Err(ConfigErrorView::ZeroChatId { id })
                            } else {
                                match list_field(fields, Field::RecipientEvents) {
                                    None => Err(
                                        ConfigErrorView::Value {
                                            field: Field::RecipientEvents,
                                            error: ValueErrorView::Missing,
                                        },
                                    ),
                                    Some(listed) => if dedup(listed).len() == 0 {
                                        Err(ConfigErrorView::NoRecipientEvents { id })
                                    } else {
                                        Ok(done.push(RecipientView { id, chat_id, events: dedup(listed) }))
                                    },
                                }
                            },
                        },
                    }
                }
            },
        }
    }
}

proof fn lemma_sources_error_sticks(
    blocks: Seq<(Seq<char>, Seq<(Field, FieldValueView)>)>,
    k: int,
    m: int,
    env: Seq<(Seq<char>, Seq<char>)>,
)
    requires
        0 <= k <= m,
        sources_of(blocks, k, env) is Err,
    ensures
        sources_of(blocks, m, env) == sources_of(blocks, k, env),
    decreases m - k,
{
    if m > k {
        lemma_sources_error_sticks(blocks, k, m - 1, env);
    }
}

proof fn lemma_recipients_error_sticks(
    blocks: Seq<(Seq<char>, Seq<(Field, FieldValueView)>)>,
    k: int,
    m: int,
    env: Seq<(Seq<char>, Seq<char>)>,
)
    requires
        0 <= k <= m,
        recipients_of(blocks, k, env) is Err,
    ensures
        recipients_of(blocks, m, env) == recipients_of(blocks, k, env),
    decreases m - k,
{
    if m > k {
        lemma_recipients_error_sticks(blocks, k, m - 1, env);
    }
}

/// Whether some pair of `pairs` has the key `id`.
fn has_pair_id(pairs: &Vec<(String, String)>, id: &String) -> (found: bool)
    ensures
        found == has_id(pairs_view(pairs@), id@),
{
    let mut i: usize = 0;
    while i < pairs.len()
        invariant
            0 <= i <= pairs@.len(),
            forall|j: int| 0 <= j < i ==> (#[trigger] pairs_view(pairs@)[j]).0 != id@,
        decreases pairs@.len() - i,
    {
        if pairs[i].0 == *id {
            assert(pairs_view(pairs@)[i as int].0 == id@);
            return true;
        }
        assert(pairs_view(pairs@)[i as int].0 == pairs@[i as int].0@);
        i = i + 1;
    }
    false
}

fn read_sources(blocks: &Vec<(String, Vec<(Field, FieldValue)>)>, env: &[(String, String)]) -> (sources:
    Result<Vec<(String, String)>, ConfigError>)
    ensures
        match sources {
            Ok(v) => sources_of(blocks_view(blocks@), blocks@.len() as int, env_view(env@)) == Ok::<
                Seq<(Seq<char>, Seq<char>)>,
                ConfigErrorView,
            >(pairs_view(v@)),
            Err(e) => sources_of(blocks_view(blocks@), blocks@.len() as int, env_view(env@))
                == Err::<Seq<(Seq<char>, Seq<char>)>, ConfigErrorView>(e@),
        },
{
    let ghost bv = blocks_view(blocks@);
    let ghost ev = env_view(env@);
    let mut sources: Vec<(String, String)> = Vec::new();
    assert(pairs_view(sources@) =~= Seq::<(Seq<char>, Seq<char>)>::empty());
    let mut k: usize = 0;
    while k < blocks.len()
        invariant
            0 <= k <= blocks@.len(),
            bv == blocks_view(blocks@),
            ev == env_view(env@),
            sources_of(bv, k as int, ev) == Ok::<Seq<(Seq<char>, Seq<char>)>, ConfigErrorView>(
                pairs_view(sources@),
            ),
        decreases blocks@.len() - k,
    {
        let id = &blocks[k].0;
        assert(bv[k as int].0 == id@);
        assert(bv[k as int].1 == entries_view(blocks@[k as int].1@));
        let address = match resolve_required(ref_entry(&blocks[k].1, Field::SourceAddress), env) {
            Ok(a) => a,
            Err(e) => {
                proof {
                    lemma_sources_error_sticks(bv, k + 1, bv.len() as int, ev);
                }
                return Err(ConfigError::SourceValue { id: id.clone(), error: e });
            },
        };
        match validate_url(address.as_str()) {
            Some(e) => {
                proof {
                    lemma_sources_error_sticks(bv, k + 1, bv.len() as int, ev);
                }
                return Err(ConfigError::SourceUrl { id: id.clone(), error: e });
            },
            None => {},
        }
        if has_pair_id(&sources, id) {
            proof {
                lemma_sources_error_sticks(bv, k + 1, bv.len() as int, ev);
            }
            return Err(ConfigError::DuplicateSource { id: id.clone() });
        }
        let ghost before = pairs_view(sources@);
        sources.push((id.clone(), address));
        assert(pairs_view(sources@) =~= before.push((bv[k as int].0, address@)));
        k = k + 1;
    }
    Ok(sources)
}

/// Whether some recipient of `recipients` has the id `id`.
fn has_recipient_id(recipients: &Vec<RecipientConfig>, id: &String) -> (found: bool)
    ensures
        found == exists|j: int|
            0 <= j < recipients@.len() && (#[trigger] recipients_view(recipients@)[j]).id == id@,
{
    let mut i: usize = 0;
    while i < recipients.len()
        invariant
            0 <= i <= recipients@.len(),
            forall|j: int| 0 <= j < i ==> (#[trigger] recipients_view(recipients@)[j]).id != id@,
        decreases recipients@.len() - i,
    {
        assert(recipients_view(recipients@)[i as int].id == recipients@[i as int].id@);
        if recipients[i].id == *id {
            return true;
        }
        i = i + 1;
    }
    false
}

fn read_recipients(blocks: &Vec<(String, Vec<(Field, FieldValue)>)>, env: &[(String, String)]) -> (recipients:
    Result<Vec<RecipientConfig>, ConfigError>)
    ensures
        match recipients {
            Ok(v) => recipients_of(blocks_view(blocks@), blocks@.len() as int, env_view(env@))
                == Ok::<Seq<RecipientView>, ConfigErrorView>(recipients_view(v@)),
            Err(e) => recipients_of(blocks_view(blocks@), blocks@.len() as int, env_view(env@))
                == Err::<Seq<RecipientView>, ConfigErrorView>(e@),
        },
{
    let ghost bv = blocks_view(blocks@);
    let ghost ev = env_view(env@);
    let mut recipients: Vec<RecipientConfig> = Vec::new();
    assert(recipients_view(recipients@) =~= Seq::<RecipientView>::empty());
    let mut k: usize = 0;
    while k < blocks.len()
        invariant
            0 <= k <= blocks@.len(),
            bv == blocks_view(blocks@),
            ev == env_view(env@),
            recipients_of(bv, k as int, ev) == Ok::<Seq<RecipientView>, ConfigErrorView>(
                recipients_view(recipients@),
            ),
        decreases blocks@.len() - k,
    {
        let id = &blocks[k].0;
        let fields = &blocks[k].1;
        assert(bv[k as int].0 == id@);
        assert(bv[k as int].1 == entries_view(fields@));
        if has_recipient_id(&recipients, id) {
            proof {
                lemma_recipients_error_sticks(bv, k + 1, bv.len() as int, ev);
            }
            return Err(ConfigError::DuplicateRecipient { id: id.clone() });
        }
        let text = match resolve_required(ref_entry(fields, Field::RecipientChatId), env) {
            Ok(t) => t,
            Err(e) => {
                proof {
                    lemma_recipients_error_sticks(bv, k + 1, bv.len() as int, ev);
                }
                return Err(ConfigError::RecipientValue { id: id.clone(), error: e });
            },
        };
        let text_chars = chars_of(text.as_str());
        assert(text_chars@.subrange(0, text_chars@.len() as int) =~= text@);
        let chat_id = match parse_i64(text_chars.as_slice(), 0, text_chars.len()) {
            Some(c) => c,
            None => {
                proof {
                    lemma_recipients_error_sticks(bv, k + 1, bv.len() as int, ev);
                }
                return Err(ConfigError::InvalidChatId { id: id.clone() });
            },
        };
        if chat_id == 0 {
            proof {
                lemma_recipients_error_sticks(bv, k + 1, bv.len() as int, ev);
            }
            return Err(ConfigError::ZeroChatId { id: id.clone() });
        }
        let listed = match list_entry(fields, Field::RecipientEvents) {
            Some(l) => l,
            None => {
                proof {
                    lemma_recipients_error_sticks(bv, k + 1, bv.len() as int, ev);
                }
                return Err(
                    ConfigError::Value { field: Field::RecipientEvents, error: ValueError::Missing },
                );
            },
        };
        let events = dedup_texts(listed.clone());
        if events.len() == 0 {
            proof {
                lemma_recipients_error_sticks(bv, k + 1, bv.len() as int, ev);
            }
            return Err(ConfigError::NoRecipientEvents { id: id.clone() });
        }
        let ghost before = recipients_view(recipients@);
        let recipient = RecipientConfig { id: id.clone(), chat_id, events };
        let ghost added = recipient@;
        recipients.push(recipient);
        assert(recipients_view(recipients@) =~= before.push(added));
        k = k + 1;
    }
    Ok(recipients)
}


// ---------------------------------------------------------------------------
// The whole configuration

/// A policy number kept within its range.
pub open spec fn bounded(field: Field, value: u64, minimum: u64, maximum: u64) -> Result<
    u64,
    ConfigErrorView,
> {
    if minimum <= value <= maximum {
        Ok(value)
    } else {
        Err(ConfigErrorView::OutOfRange { field, minimum, maximum })
    }
}

/// The configuration of a draft, checked in this order: the telegram block is
/// present; `bind` (default `0.0.0.0:8787`); `public_url`, required and a
/// valid address; the telegram block; the sources, at least one; the
/// recipients; and the policy numbers, each within its range (defaults 300,
/// 2592000, 2, 1000 and 20).
pub open spec fn config_of(draft: DraftView, env: Seq<(Seq<char>, Seq<char>)>) -> Result<
    ConfigView,
    ConfigErrorView,
> {
    match draft.telegram {
        None => Err(ConfigErrorView::MissingTelegramBlock),
        Some(tg) => match or_default(ref_field(draft.fields, Field::Bind), "0.0.0.0:8787"@, env) {
            Err(e) => Err(ConfigErrorView::Value { field: Field::Bind, error: e }),
            Ok(bind) => match required(ref_field(draft.fields, Field::PublicUrl), env) {
                Err(e) => Err(ConfigErrorView::Value { field: Field::PublicUrl, error: e }),
                Ok(public_url) => match url_problem_of(parsed_url(public_url)) {
                    Some(e) => Err(ConfigErrorView::Url { field: Field::PublicUrl, error: e }),
                    None => match telegram_of(tg, env) {
                        Err(e) => Err(e),
                        Ok(t) => match sources_of(draft.sources, draft.sources.len() as int, env) {
                            Err(e) => Err(e),
                            Ok(sources) => if sources.len() == 0 {
                                Err(ConfigErrorView::NoSources)
                            } else {
                                match recipients_of(
                                    draft.recipients,
                                    draft.recipients.len() as int,
                                    env,
                                ) {
                                    Err(e) => Err(e),
                                    Ok(recipients) => policy_of(
                                        draft.fields,
                                        bind,
                                        public_url,
                                        t,
                                        sources,
                                        recipients,
                                    ),
                                }
                            },
                        },
                    },
                },
            },
        },
    }
}

/// The configuration, once everything but the policy numbers is checked.
pub open spec fn policy_of(
    fields: Seq<(Field, FieldValueView)>,
    bind: Seq<char>,
    public_url: Seq<char>,
    t: TelegramView,
    sources: Seq<(Seq<char>, Seq<char>)>,
    recipients: Seq<RecipientView>,
) -> Result<ConfigView, ConfigErrorView> {
    match bounded(Field::PairingTtlSeconds, number_or(fields, Field::PairingTtlSeconds, 300), 60, 900) {
        Err(e) => Err(e),
        Ok(pairing_ttl) => match bounded(
            Field::AccessTokenTtlSeconds,
            number_or(fields, Field::AccessTokenTtlSeconds, 2_592_000),
            300,
            31_536_000,
        ) {
            Err(e) => Err(e),
            Ok(token_ttl) => match bounded(
                Field::PollIntervalSeconds,
                number_or(fields, Field::PollIntervalSeconds, 2),
                1,
                10,
            ) {
                Err(e) => Err(e),
                Ok(poll) => match bounded(
                    Field::MaxActivePairings,
                    number_or(fields, Field::MaxActivePairings, 1_000),
                    1,
                    10_000,
                ) {
                    Err(e) => Err(e),
                    Ok(max_pairings) => match bounded(
                        Field::MaxExchangeAttempts,
                        number_or(fields, Field::MaxExchangeAttempts, 20),
                        3,
                        100,
                    ) {
                        Err(e) => Err(e),
                        Ok(max_attempts) => Ok(
                            ConfigView {
                                bind_addr: bind,
                                public_url,
                                telegram_bot_token: t.bot_token,
                                telegram_bot_username: t.bot_username,
                                telegram_webhook_secret: t.webhook_secret,
                                signing_secret: t.signing_secret,
                                allowed_user_ids: t.allowed_user_ids,
                                subscriber_user_ids: t.subscriber_user_ids,
                                subscriber_store: t.subscriber_store,
                                subscriber_events: t.subscriber_events,
                                sources,
                                recipients,
                                pairing_ttl_seconds: pairing_ttl,
                                access_token_ttl_seconds: token_ttl,
                                poll_interval_seconds: poll,
                                max_active_pairings: max_pairings as usize,
                                max_exchange_attempts: max_attempts as u8,
                            },
                        ),
                    },
                },
            },
        },
    }
}

/// The configuration a document gives, with `env` as the environment (the
/// first entry of a name is its value).
pub open spec fn document_of(input: Seq<char>, env: Seq<(Seq<char>, Seq<char>)>) -> Result<
    ConfigView,
    ConfigErrorView,
> {
    match draft_of(input) {
        Err(e) => Err(e),
        Ok(draft) => config_of(draft, env),
    }
}

fn check_bounded(field: Field, value: u64, minimum: u64, maximum: u64) -> (checked: Result<
    u64,
    ConfigError,
>)
    ensures
        match checked {
            Ok(v) => bounded(field, value, minimum, maximum) == Ok::<u64, ConfigErrorView>(v),
            Err(e) => bounded(field, value, minimum, maximum) == Err::<u64, ConfigErrorView>(e@),
        },
{
    if minimum <= value && value <= maximum {
        Ok(value)
    } else {
        Err(ConfigError::OutOfRange { field, minimum, maximum })
    }
}

/// The configuration of a draft.
fn build_config(draft: Draft, env: &[(String, String)]) -> (config: Result<Config, ConfigError>)
    ensures
        match config {
            Ok(c) => config_of(draft@, env_view(env@)) == Ok::<ConfigView, ConfigErrorView>(c@),
            Err(e) => config_of(draft@, env_view(env@)) == Err::<ConfigView, ConfigErrorView>(e@),
        },
{
    let tg = match &draft.telegram {
        None => {
            return Err(ConfigError::MissingTelegramBlock);
        },
        Some(t) => t,
    };
    let bind = match resolve_or(ref_entry(&draft.fields, Field::Bind), "0.0.0.0:8787", env) {
        Ok(v) => v,
        Err(e) => {
            return Err(ConfigError::Value { field: Field::Bind, error: e });
        },
    };
    let public_url = match resolve_required(ref_entry(&draft.fields, Field::PublicUrl), env) {
        Ok(v) => v,
        Err(e) => {
            return Err(ConfigError::Value { field: Field::PublicUrl, error: e });
        },
    };
    match validate_url(public_url.as_str()) {
        Some(e) => {
            return Err(ConfigError::Url { field: Field::PublicUrl, error: e });
        },
        None => {},
    }
    let t = match read_telegram(tg, env) {
        Ok(t) => t,
        Err(e) => {
            return Err(e);
        },
    };
    let sources = match read_sources(&draft.sources, env) {
        Ok(s) => s,
        Err(e) => {
            return Err(e);
        },
    };
    if sources.len() == 0 {
        return Err(ConfigError::NoSources);
    }
    let recipients = match read_recipients(&draft.recipients, env) {
        Ok(r) => r,
        Err(e) => {
            return Err(e);
        },
    };
    let fields = &draft.fields;
    let pairing_ttl = check_bounded(
        Field::PairingTtlSeconds,
        number_entry(fields, Field::PairingTtlSeconds, 300),
        60,
        900,
    )?;
    let token_ttl = check_bounded(
        Field::AccessTokenTtlSeconds,
        number_entry(fields, Field::AccessTokenTtlSeconds, 2_592_000),
        300,
        31_536_000,
    )?;
    let poll = check_bounded(
        Field::PollIntervalSeconds,
        number_entry(fields, Field::PollIntervalSeconds, 2),
        1,
        10,
    )?;
    let max_pairings = check_bounded(
        Field::MaxActivePairings,
        number_entry(fields, Field::MaxActivePairings, 1_000),
        1,
        10_000,
    )?;
    let max_attempts = check_bounded(
        Field::MaxExchangeAttempts,
        number_entry(fields, Field::MaxExchangeAttempts, 20),
        3,
        100,
    )?;
    Ok(
        Config {
            bind_addr: bind,
            public_url,
            telegram_bot_token: t.bot_token,
            telegram_bot_username: t.bot_username,
            telegram_webhook_secret: t.webhook_secret,
            signing_secret: t.signing_secret,
            allowed_user_ids: t.allowed_user_ids,
            subscriber_user_ids: t.subscriber_user_ids,
            subscriber_store: t.subscriber_store,
            subscriber_events: t.subscriber_events,
            sources,
            recipients,
            pairing_ttl_seconds: pairing_ttl,
            access_token_ttl_seconds: token_ttl,
            poll_interval_seconds: poll,
            max_active_pairings: max_pairings as usize,
            max_exchange_attempts: max_attempts as u8,
        },
    )
}

/// Reads a configuration document, resolving `env("NAME")` references against
/// `env` (the first entry of a name is its value).
pub fn parse_document(input: &str, env: &[(String, String)]) -> (config: Result<
    Config,
    ConfigError,
>)
    ensures
        match config {
            Ok(c) => document_of(input@, env_view(env@)) == Ok::<ConfigView, ConfigErrorView>(c@),
            Err(e) => document_of(input@, env_view(env@)) == Err::<ConfigView, ConfigErrorView>(
                e@,
            ),
        },
{
    match read_draft(input) {
        Err(e) => Err(e),
        Ok(draft) => build_config(draft, env),
    }
}

impl Config {
    /// The address of the source `id`, where it is configured.
    pub fn source(&self, id: &str) -> (address: Option<&String>)
        ensures
            match address {
                Some(a) => first_value(pairs_view(self.sources@), id@) == Some(a@),
                None => first_value(pairs_view(self.sources@), id@) is None,
            },
    {
        let wanted = id.to_owned();
        lookup(self.sources.as_slice(), &wanted)
    }

    /// Whether the source `id` is configured.
    pub fn has_source(&self, id: &str) -> (known: bool)
        ensures
            known == (first_value(pairs_view(self.sources@), id@) is Some),
    {
        self.source(id).is_some()
    }

    /// Whether `user_id` may approve pairings.
    pub fn allows_user(&self, user_id: i64) -> (allowed: bool)
        ensures
            allowed == self.allowed_user_ids@.contains(user_id),
    {
        let mut i: usize = 0;
        while i < self.allowed_user_ids.len()
            invariant
                0 <= i <= self.allowed_user_ids@.len(),
                forall|j: int| 0 <= j < i ==> self.allowed_user_ids@[j] != user_id,
            decreases self.allowed_user_ids@.len() - i,
        {
            if self.allowed_user_ids[i] == user_id {
                return true;
            }
            i = i + 1;
        }
        false
    }
}


// ---------------------------------------------------------------------------
// What every accepted configuration keeps

proof fn lemma_sources_keep_rules(
    blocks: Seq<(Seq<char>, Seq<(Field, FieldValueView)>)>,
    n: int,
    env: Seq<(Seq<char>, Seq<char>)>,
    sources: Seq<(Seq<char>, Seq<char>)>,
)
    requires
        sources_of(blocks, n, env) == Ok::<Seq<(Seq<char>, Seq<char>)>, ConfigErrorView>(sources),
    ensures
        crate::table::keys_unique(sources),
        forall|i: int| 0 <= i < sources.len() ==> url_problem_of(parsed_url(#[trigger] sources[i].1)) is None,
    decreases n,
{
    if n > 0 {
        let done = sources_of(blocks, n - 1, env)->Ok_0;
        lemma_sources_keep_rules(blocks, n - 1, env, done);
        let id = blocks[n - 1].0;
        assert(!has_id(done, id));
        assert(sources == done.push((id, sources.last().1)));
        assert forall|i: int, j: int|
            0 <= i < sources.len() && 0 <= j < sources.len() && i != j implies sources[i].0
            != sources[j].0 by {
            if i == done.len() {
                assert(done[j].0 == sources[j].0);
            } else if j == done.len() {
                assert(done[i].0 == sources[i].0);
            }
        }
        assert forall|i: int| 0 <= i < sources.len() implies url_problem_of(
            parsed_url(#[trigger] sources[i].1),
        ) is None by {
            if i < done.len() {
                assert(sources[i] == done[i]);
            }
        }
    } else {
        assert(sources.len() == 0);
    }
}

proof fn lemma_recipients_keep_rules(
    blocks: Seq<(Seq<char>, Seq<(Field, FieldValueView)>)>,
    n: int,
    env: Seq<(Seq<char>, Seq<char>)>,
    recipients: Seq<RecipientView>,
)
    requires
        recipients_of(blocks, n, env) == Ok::<Seq<RecipientView>, ConfigErrorView>(recipients),
    ensures
        forall|i: int, j: int|
            0 <= i < recipients.len() && 0 <= j < recipients.len() && i != j
                ==> #[trigger] recipients[i].id != #[trigger] recipients[j].id,
        forall|i: int|
            0 <= i < recipients.len() ==> (#[trigger] recipients[i]).chat_id != 0
                && recipients[i].events.len() > 0 && recipients[i].events.no_duplicates(),
    decreases n,
{
    if n > 0 {
        let done = recipients_of(blocks, n - 1, env)->Ok_0;
        lemma_recipients_keep_rules(blocks, n - 1, env, done);
        let id = blocks[n - 1].0;
        let listed = list_field(blocks[n - 1].1, Field::RecipientEvents)->Some_0;
        crate::values::lemma_dedup(listed);
        assert(recipients == done.push(recipients.last()));
        assert forall|i: int, j: int|
            0 <= i < recipients.len() && 0 <= j < recipients.len() && i != j implies #[trigger] recipients[i].id
            != #[trigger] recipients[j].id by {
            if i == done.len() {
                assert(recipients[j] == done[j]);
            } else if j == done.len() {
                assert(recipients[i] == done[i]);
            } else {
                assert(recipients[i] == done[i] && recipients[j] == done[j]);
            }
        }
        assert forall|i: int| 0 <= i < recipients.len() implies (#[trigger] recipients[i]).chat_id
            != 0 && recipients[i].events.len() > 0 && recipients[i].events.no_duplicates() by {
            if i < done.len() {
                assert(recipients[i] == done[i]);
            }
        }
    } else {
        assert(recipients.len() == 0);
    }
}

/// Every configuration a document is accepted as keeps the rules: at least
/// one allowed user, subscriber and subscriber event, each once; a valid bot
/// name; a webhook secret of 16 to 256 URL-safe bytes and a signing secret of
/// at least 32 bytes that is neither it nor the bot token, each named by an
/// environment variable in the document;
/// an absolute subscriber store; a valid public address; at least one
/// source, each id once, each address valid; recipients with distinct ids,
/// non-zero chats and at least one event each, each once; and the policy
/// numbers within their ranges.
pub proof fn law_accepted_configuration_keeps_the_rules(
    input: Seq<char>,
    env: Seq<(Seq<char>, Seq<char>)>,
    config: ConfigView,
)
    requires
        document_of(input, env) == Ok::<ConfigView, ConfigErrorView>(config),
    ensures
        config.allowed_user_ids.len() > 0,
        config.allowed_user_ids.no_duplicates(),
        config.subscriber_user_ids.len() > 0,
        config.subscriber_user_ids.no_duplicates(),
        config.subscriber_events.len() > 0,
        config.subscriber_events.no_duplicates(),
        is_bot_username(config.telegram_bot_username),
        is_webhook_secret(config.telegram_webhook_secret),
        encode_utf8(config.signing_secret).len() >= 32,
        config.signing_secret != config.telegram_bot_token,
        config.signing_secret != config.telegram_webhook_secret,
        ({
            let tg = (draft_of(input)->Ok_0).telegram->Some_0;
            &&& ref_field(tg, Field::BotToken) matches Some(ValueRefView::Environment(_))
            &&& ref_field(tg, Field::WebhookSecret) matches Some(ValueRefView::Environment(_))
            &&& ref_field(tg, Field::SigningSecret) matches Some(ValueRefView::Environment(_))
        }),
        config.subscriber_store.len() > 0 && config.subscriber_store[0] == '/',
        url_problem_of(parsed_url(config.public_url)) is None,
        config.sources.len() > 0,
        crate::table::keys_unique(config.sources),
        forall|i: int|
            0 <= i < config.sources.len() ==> url_problem_of(parsed_url(#[trigger] config.sources[i].1))
                is None,
        forall|i: int, j: int|
            0 <= i < config.recipients.len() && 0 <= j < config.recipients.len() && i != j
                ==> #[trigger] config.recipients[i].id != #[trigger] config.recipients[j].id,
        forall|i: int|
            0 <= i < config.recipients.len() ==> (#[trigger] config.recipients[i]).chat_id != 0
                && config.recipients[i].events.len() > 0 && config.recipients[i].events.no_duplicates(),
        60 <= config.pairing_ttl_seconds <= 900,
        300 <= config.access_token_ttl_seconds <= 31_536_000,
        1 <= config.poll_interval_seconds <= 10,
        1 <= config.max_active_pairings <= 10_000,
        3 <= config.max_exchange_attempts <= 100,
{
    let draft = draft_of(input)->Ok_0;
    let tg = draft.telegram->Some_0;
    let t = telegram_of(tg, env)->Ok_0;
    let allowed_text = required(ref_field(tg, Field::AllowedUserIds), env)->Ok_0;
    crate::values::lemma_dedup(id_list_of(allowed_text)->Some_0);
    match ref_field(tg, Field::SubscriberUserIds) {
        Some(r) => {
            let text = resolved(r, env)->Ok_0;
            crate::values::lemma_dedup(id_list_of(text)->Some_0);
        },
        None => {},
    }
    crate::values::lemma_dedup(list_field(tg, Field::SubscriberEvents)->Some_0);
    let sources = sources_of(draft.sources, draft.sources.len() as int, env)->Ok_0;
    lemma_sources_keep_rules(draft.sources, draft.sources.len() as int, env, sources);
    let recipients = recipients_of(draft.recipients, draft.recipients.len() as int, env)->Ok_0;
    lemma_recipients_keep_rules(draft.recipients, draft.recipients.len() as int, env, recipients);
}

proof fn lemma_sources_follow_blocks(
    blocks: Seq<(Seq<char>, Seq<(Field, FieldValueView)>)>,
    n: int,
    env: Seq<(Seq<char>, Seq<char>)>,
    sources: Seq<(Seq<char>, Seq<char>)>,
)
    requires
        0 <= n <= blocks.len(),
        sources_of(blocks, n, env) == Ok::<Seq<(Seq<char>, Seq<char>)>, ConfigErrorView>(sources),
    ensures
        sources.len() == n,
        forall|k: int|
            0 <= k < n ==> (#[trigger] sources[k]).0 == blocks[k].0 && required(
                ref_field(blocks[k].1, Field::SourceAddress),
                env,
            ) == Ok::<Seq<char>, ValueErrorView>(sources[k].1),
    decreases n,
{
    if n > 0 {
        let done = sources_of(blocks, n - 1, env)->Ok_0;
        lemma_sources_follow_blocks(blocks, n - 1, env, done);
        assert forall|k: int| 0 <= k < n - 1 implies (#[trigger] sources[k]) == done[k] by {}
    }
}

proof fn lemma_first_value_of_unique<V>(s: Seq<(Seq<char>, V)>, k: int)
    requires
        crate::table::keys_unique(s),
        0 <= k < s.len(),
    ensures
        first_value(s, s[k].0) == Some(s[k].1),
    decreases k,
{
    if k > 0 {
        let t = s.drop_first();
        assert(s[0].0 != s[k].0);
        assert(t[k - 1] == s[k]);
        assert forall|i: int, j: int|
            0 <= i < t.len() && 0 <= j < t.len() && i != j implies t[i].0 != t[j].0 by {
            assert(t[i] == s[i + 1] && t[j] == s[j + 1]);
        }
        lemma_first_value_of_unique(t, k - 1);
    }
}

/// Every source block of an accepted document is configured, in order, with
/// the address its `address` field resolves to: there are as many sources as
/// source blocks, and looking up a block's id finds its address.
pub proof fn law_every_source_block_is_configured(
    input: Seq<char>,
    env: Seq<(Seq<char>, Seq<char>)>,
    config: ConfigView,
)
    requires
        document_of(input, env) == Ok::<ConfigView, ConfigErrorView>(config),
    ensures
        ({
            let blocks = (draft_of(input)->Ok_0).sources;
            &&& config.sources.len() == blocks.len()
            &&& forall|k: int|
                0 <= k < blocks.len() ==> (#[trigger] config.sources[k]).0 == blocks[k].0
                    && required(ref_field(blocks[k].1, Field::SourceAddress), env) == Ok::<
                    Seq<char>,
                    ValueErrorView,
                >(config.sources[k].1) && first_value(config.sources, blocks[k].0) == Some(
                    config.sources[k].1,
                )
        }),
{
    let draft = draft_of(input)->Ok_0;
    let blocks = draft.sources;
    let sources = sources_of(blocks, blocks.len() as int, env)->Ok_0;
    lemma_sources_keep_rules(blocks, blocks.len() as int, env, sources);
    lemma_sources_follow_blocks(blocks, blocks.len() as int, env, sources);
    assert(config.sources == sources);
    assert forall|k: int| 0 <= k < blocks.len() implies first_value(
        config.sources,
        blocks[k].0,
    ) == Some(#[trigger] config.sources[k].1) by {
        lemma_first_value_of_unique(sources, k);
    }
}

} // verus!
