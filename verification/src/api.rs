//! What the HTTP API answers: the checks on each request, the calls into the
//! pairing store and the token issuer, and the error each refusal gets. The
//! caller reads requests, holds the store and sends the answers.
use crate::config::{first_value, pairs_view, Config};
use crate::store::{
    bounded, created_with_some_token, exchanged_at_some_time, decode_challenge, ApproveOutcome,
    ApproveView, CreateOutcome, CreateView, ExchangeOutcome, ExchangeView, PairingStore,
    approved_at_some_time, randomness_refused,
};
use crate::primitives::{base64_url_decoded, parse_uuid, uuid_parsed};
use crate::events::{is_valid_event, render_event, recipient_matches, rendered_event, valid_event, wants, EventRequest, secure_eq};
use crate::config::RecipientConfig;
use crate::telegram::{command, command_of, command_view, CommandView, TelegramCommand, TelegramUpdate};
use crate::text::{chars_of, strip_prefix};
use crate::values::{dedup, dedup_ids, lemma_dedup};
use crate::token::{
    issue_access_token, issued_for, uuid_text, uuid_text_of, verify_access_token, signed_with,
    verification_outcome, authorized_view, AuthorizedSource, AuthorizedView, TokenError,
};
use vstd::prelude::*;
use vstd::utf8::encode_utf8;

verus! {

/// A refusal: an HTTP status and an error code.
#[derive(Debug, Clone, Copy, PartialEq, Eq, Structural)]
pub enum ApiFailure {
    InvalidClient,
    UnknownSource,
    InvalidCodeChallenge,
    PairingCapacityExceeded,
    InvalidVerifier,
    PairingNotFound,
    SlowDown,
    TokenIssueFailed,
    RandomnessUnavailable,
    PairingLocked,
    PairingExpired,
    PairingConsumed,
    MissingAccessToken,
    InvalidAccessToken,
    SourceNotAuthorized,
    InvalidEvent,
    TelegramDeliveryFailed,
    InvalidWebhookSecret,
}

pub open spec fn failure_status(failure: ApiFailure) -> u16 {
    match failure {
        ApiFailure::InvalidClient => 400,
        ApiFailure::UnknownSource => 403,
        ApiFailure::InvalidCodeChallenge => 400,
        ApiFailure::PairingCapacityExceeded => 503,
        ApiFailure::InvalidVerifier => 401,
        ApiFailure::PairingNotFound => 404,
        ApiFailure::SlowDown => 429,
        ApiFailure::TokenIssueFailed => 500,
        ApiFailure::RandomnessUnavailable => 500,
        ApiFailure::PairingLocked => 403,
        ApiFailure::PairingExpired => 410,
        ApiFailure::PairingConsumed => 409,
        ApiFailure::MissingAccessToken => 401,
        ApiFailure::InvalidAccessToken => 401,
        ApiFailure::SourceNotAuthorized => 403,
        ApiFailure::InvalidEvent => 400,
        ApiFailure::TelegramDeliveryFailed => 502,
        ApiFailure::InvalidWebhookSecret => 401,
    }
}

pub open spec fn failure_code(failure: ApiFailure) -> Seq<char> {
    match failure {
        ApiFailure::InvalidClient => "invalid_client"@,
        ApiFailure::UnknownSource => "unknown_source"@,
        ApiFailure::InvalidCodeChallenge => "invalid_code_challenge"@,
        ApiFailure::PairingCapacityExceeded => "pairing_capacity_exceeded"@,
        ApiFailure::InvalidVerifier => "invalid_verifier"@,
        ApiFailure::PairingNotFound => "pairing_not_found"@,
        ApiFailure::SlowDown => "slow_down"@,
        ApiFailure::TokenIssueFailed => "token_issue_failed"@,
        ApiFailure::RandomnessUnavailable => "randomness_unavailable"@,
        ApiFailure::PairingLocked => "pairing_locked"@,
        ApiFailure::PairingExpired => "pairing_expired"@,
        ApiFailure::PairingConsumed => "pairing_consumed"@,
        ApiFailure::MissingAccessToken => "missing_access_token"@,
        ApiFailure::InvalidAccessToken => "invalid_access_token"@,
        ApiFailure::SourceNotAuthorized => "source_not_authorized"@,
        ApiFailure::InvalidEvent => "invalid_event"@,
        ApiFailure::TelegramDeliveryFailed => "telegram_delivery_failed"@,
        ApiFailure::InvalidWebhookSecret => "invalid_webhook_secret"@,
    }
}

impl ApiFailure {
    /// The HTTP status of the refusal.
    pub fn status(&self) -> (status: u16)
        ensures
            status == failure_status(*self),
    {
        match self {
            ApiFailure::InvalidClient => 400,
            ApiFailure::UnknownSource => 403,
            ApiFailure::InvalidCodeChallenge => 400,
            ApiFailure::PairingCapacityExceeded => 503,
            ApiFailure::InvalidVerifier => 401,
            ApiFailure::PairingNotFound => 404,
            ApiFailure::SlowDown => 429,
            ApiFailure::TokenIssueFailed => 500,
            ApiFailure::RandomnessUnavailable => 500,
            ApiFailure::PairingLocked => 403,
            ApiFailure::PairingExpired => 410,
            ApiFailure::PairingConsumed => 409,
            ApiFailure::MissingAccessToken => 401,
            ApiFailure::InvalidAccessToken => 401,
            ApiFailure::SourceNotAuthorized => 403,
            ApiFailure::InvalidEvent => 400,
            ApiFailure::TelegramDeliveryFailed => 502,
            ApiFailure::InvalidWebhookSecret => 401,
        }
    }

    /// The error code of the refusal.
    pub fn code(&self) -> (code: &'static str)
        ensures
            code@ == failure_code(*self),
    {
        match self {
            ApiFailure::InvalidClient => "invalid_client",
            ApiFailure::UnknownSource => "unknown_source",
            ApiFailure::InvalidCodeChallenge => "invalid_code_challenge",
            ApiFailure::PairingCapacityExceeded => "pairing_capacity_exceeded",
            ApiFailure::InvalidVerifier => "invalid_verifier",
            ApiFailure::PairingNotFound => "pairing_not_found",
            ApiFailure::SlowDown => "slow_down",
            ApiFailure::TokenIssueFailed => "token_issue_failed",
            ApiFailure::RandomnessUnavailable => "randomness_unavailable",
            ApiFailure::PairingLocked => "pairing_locked",
            ApiFailure::PairingExpired => "pairing_expired",
            ApiFailure::PairingConsumed => "pairing_consumed",
            ApiFailure::MissingAccessToken => "missing_access_token",
            ApiFailure::InvalidAccessToken => "invalid_access_token",
            ApiFailure::SourceNotAuthorized => "source_not_authorized",
            ApiFailure::InvalidEvent => "invalid_event",
            ApiFailure::TelegramDeliveryFailed => "telegram_delivery_failed",
            ApiFailure::InvalidWebhookSecret => "invalid_webhook_secret",
        }
    }
}

// ---------------------------------------------------------------------------
// Creating a pairing

/// A request of a CLI to pair.
pub struct CreatePairingRequest {
    pub code_challenge: String,
    pub client: String,
    pub client_version: String,
    pub source: String,
}

/// The answer to a created pairing.
pub struct PairingCreated {
    pub session_id: String,
    pub verification_uri_complete: String,
    pub expires_in: u64,
    pub interval: u64,
}

pub struct PairingCreatedView {
    pub session_id: Seq<char>,
    pub verification_uri_complete: Seq<char>,
    pub expires_in: u64,
    pub interval: u64,
}

impl View for PairingCreated {
    type V = PairingCreatedView;

    open spec fn view(&self) -> PairingCreatedView {
        PairingCreatedView {
            session_id: self.session_id@,
            verification_uri_complete: self.verification_uri_complete@,
            expires_in: self.expires_in,
            interval: self.interval,
        }
    }
}

pub open spec fn created_view(reply: Result<PairingCreated, ApiFailure>) -> Result<
    PairingCreatedView,
    ApiFailure,
> {
    match reply {
        Ok(c) => Ok(c@),
        Err(e) => Err(e),
    }
}

/// The client is infraCLI, with a version of 1 to 64 bytes.
pub open spec fn client_accepted(client: Seq<char>, version: Seq<char>) -> bool {
    client == "infraCLI"@ && 0 < encode_utf8(version).len() <= 64
}

/// The Telegram deep link that opens the bot with the start token.
pub open spec fn verification_uri(bot_username: Seq<char>, start_token: Seq<char>) -> Seq<char> {
    "https://t.me/"@ + bot_username + "?start="@ + start_token
}

/// The answer to the store's outcome of creating a pairing.
pub open spec fn create_answer(bot_username: Seq<char>, outcome: CreateView) -> Result<
    PairingCreatedView,
    ApiFailure,
> {
    match outcome {
        CreateView::Created { session_id, start_token, expires_in, interval } => Ok(
            PairingCreatedView {
                session_id: uuid_text_of(session_id),
                verification_uri_complete: verification_uri(bot_username, start_token),
                expires_in,
                interval,
            },
        ),
        CreateView::CapacityExceeded => Err(ApiFailure::PairingCapacityExceeded),
        CreateView::RandomnessUnavailable => Err(ApiFailure::RandomnessUnavailable),
    }
}

/// The answer to the store's outcome of creating a pairing.
pub fn create_reply(bot_username: &str, outcome: CreateOutcome) -> (reply: Result<
    PairingCreated,
    ApiFailure,
>)
    ensures
        created_view(reply) == create_answer(bot_username@, outcome@),
{
    match outcome {
        CreateOutcome::Created(created) => {
            let mut uri = "https://t.me/".to_owned();
            uri.append(bot_username);
            uri.append("?start=");
            uri.append(created.start_token.as_str());
            Ok(
                PairingCreated {
                    session_id: uuid_text(created.session_id),
                    verification_uri_complete: uri,
                    expires_in: created.expires_in,
                    interval: created.interval,
                },
            )
        },
        CreateOutcome::CapacityExceeded => Err(ApiFailure::PairingCapacityExceeded),
        CreateOutcome::RandomnessUnavailable => Err(ApiFailure::RandomnessUnavailable),
    }
}

/// Creates a pairing for a CLI: the client must be infraCLI with a version of
/// 1 to 64 bytes, the source must be configured, and the challenge must be
/// the base64 text of 32 bytes; then the store creates the session.
pub fn create_pairing(config: &Config, store: &mut PairingStore, request: CreatePairingRequest) -> (reply:
    Result<PairingCreated, ApiFailure>)
    requires
        old(store).wf(),
    ensures
        final(store).wf(),
        bounded(final(store)@),
        !client_accepted(request.client@, request.client_version@) ==> reply == Err::<
            PairingCreated,
            ApiFailure,
        >(ApiFailure::InvalidClient) && final(store)@ == old(store)@,
        client_accepted(request.client@, request.client_version@) && first_value(
            pairs_view(config.sources@),
            request.source@,
        ) is None ==> reply == Err::<PairingCreated, ApiFailure>(ApiFailure::UnknownSource)
            && final(store)@ == old(store)@,
        client_accepted(request.client@, request.client_version@) && first_value(
            pairs_view(config.sources@),
            request.source@,
        ) is Some && !(base64_url_decoded(request.code_challenge@) matches Some(b) && b.len()
            == 32) ==> reply == Err::<PairingCreated, ApiFailure>(ApiFailure::InvalidCodeChallenge)
            && final(store)@ == old(store)@,
        client_accepted(request.client@, request.client_version@) && first_value(
            pairs_view(config.sources@),
            request.source@,
        ) is Some && (base64_url_decoded(request.code_challenge@) matches Some(b) && b.len()
            == 32) ==> exists|outcome: CreateView|
            (created_with_some_token(
                old(store)@,
                final(store)@,
                outcome,
                request.source@,
                base64_url_decoded(request.code_challenge@).unwrap(),
            ) || (outcome == CreateView::RandomnessUnavailable && randomness_refused(
                old(store)@,
                final(store)@,
            ))) && created_view(reply) == create_answer(config.telegram_bot_username@, outcome),
        reply matches Ok(created) ==> created.interval == old(store)@.poll_interval_seconds
            && created.expires_in == old(store)@.pairing_ttl_seconds,
{
    proof {
        store.lemma_wf_bounded();
    }
    let expected_client = "infraCLI".to_owned();
    if request.client != expected_client || request.client_version.as_str().as_bytes().len()
        == 0 || request.client_version.as_str().as_bytes().len() > 64 {
        return Err(ApiFailure::InvalidClient);
    }
    if !config.has_source(request.source.as_str()) {
        return Err(ApiFailure::UnknownSource);
    }
    let challenge = match decode_challenge(request.code_challenge.as_str()) {
        Some(c) => c,
        None => {
            return Err(ApiFailure::InvalidCodeChallenge);
        },
    };
    let outcome = store.create(request.source, challenge);
    let ghost seen = outcome@;
    create_reply(config.telegram_bot_username.as_str(), outcome)
}


// ---------------------------------------------------------------------------
// Exchanging a pairing

/// An access token handed to a CLI.
pub struct TokenGrant {
    pub access_token: String,
    pub expires_at: u64,
    pub telegram_user_id: i64,
    pub source: String,
}

/// The answer to an exchange that was not refused.
pub enum ExchangeReply {
    /// Not approved yet.
    Pending,
    Token(TokenGrant),
}

/// The answer to the store's outcome of an exchange: the approved outcome
/// gets a token signed with `secret` and issued to its user for its source
/// with the lifetime `ttl` (or, where the randomness for its token id was
/// refused, no token); each other outcome its own answer.
pub open spec fn exchange_answer(
    outcome: ExchangeView,
    reply: Result<ExchangeReply, ApiFailure>,
    ttl: u64,
    secret: Seq<char>,
) -> bool {
    match outcome {
        ExchangeView::Pending => reply matches Ok(ExchangeReply::Pending),
        ExchangeView::SlowDown => reply == Err::<ExchangeReply, ApiFailure>(ApiFailure::SlowDown),
        ExchangeView::Approved { telegram_user_id, source } => match reply {
            Ok(ExchangeReply::Token(g)) => g.telegram_user_id == telegram_user_id && g.source@
                == source && issued_for(
                g.access_token@,
                g.expires_at,
                telegram_user_id,
                source,
                ttl,
                secret,
            ),
            Ok(ExchangeReply::Pending) => false,
            Err(e) => e == ApiFailure::TokenIssueFailed,
        },
        ExchangeView::InvalidVerifier => reply == Err::<ExchangeReply, ApiFailure>(
            ApiFailure::InvalidVerifier,
        ),
        ExchangeView::TooManyAttempts => reply == Err::<ExchangeReply, ApiFailure>(
            ApiFailure::PairingLocked,
        ),
        ExchangeView::Expired => reply == Err::<ExchangeReply, ApiFailure>(ApiFailure::PairingExpired),
        ExchangeView::Consumed => reply == Err::<ExchangeReply, ApiFailure>(
            ApiFailure::PairingConsumed,
        ),
        ExchangeView::NotFound => reply == Err::<ExchangeReply, ApiFailure>(
            ApiFailure::PairingNotFound,
        ),
    }
}

/// The answer to the store's outcome of an exchange, issuing the token of an
/// approved pairing with the configured signing secret and lifetime.
pub fn exchange_reply(config: &Config, outcome: ExchangeOutcome) -> (reply: Result<
    ExchangeReply,
    ApiFailure,
>)
    ensures
        exchange_answer(
            outcome@,
            reply,
            config.access_token_ttl_seconds,
            config.signing_secret@,
        ),
{
    match outcome {
        ExchangeOutcome::Pending => Ok(ExchangeReply::Pending),
        ExchangeOutcome::SlowDown => Err(ApiFailure::SlowDown),
        ExchangeOutcome::Approved { telegram_user_id, source } => {
            match issue_access_token(
                config.signing_secret.as_str(),
                telegram_user_id,
                source.as_str(),
                config.access_token_ttl_seconds,
            ) {
                Ok(token) => Ok(
                    ExchangeReply::Token(
                        TokenGrant {
                            access_token: token.access_token,
                            expires_at: token.expires_at,
                            telegram_user_id,
                            source,
                        },
                    ),
                ),
                Err(_) => Err(ApiFailure::TokenIssueFailed),
            }
        },
        ExchangeOutcome::InvalidVerifier => Err(ApiFailure::InvalidVerifier),
        ExchangeOutcome::TooManyAttempts => Err(ApiFailure::PairingLocked),
        ExchangeOutcome::Expired => Err(ApiFailure::PairingExpired),
        ExchangeOutcome::Consumed => Err(ApiFailure::PairingConsumed),
        ExchangeOutcome::NotFound => Err(ApiFailure::PairingNotFound),
    }
}

/// A verifier of 43 to 128 bytes, as PKCE allows.
pub open spec fn verifier_length_ok(verifier: Seq<char>) -> bool {
    43 <= encode_utf8(verifier).len() <= 128
}

/// Exchanges the verifier of a CLI for the approval of pairing `session_id`
/// (its text): a verifier of the wrong length and an id that is not a UUID
/// are refused before the store is asked.
pub fn exchange_pairing(
    config: &Config,
    store: &mut PairingStore,
    session_id: &str,
    code_verifier: &str,
) -> (reply: Result<ExchangeReply, ApiFailure>)
    requires
        old(store).wf(),
    ensures
        final(store).wf(),
        bounded(final(store)@),
        !verifier_length_ok(code_verifier@) ==> reply == Err::<ExchangeReply, ApiFailure>(
            ApiFailure::InvalidVerifier,
        ) && final(store)@ == old(store)@,
        verifier_length_ok(code_verifier@) && uuid_parsed(session_id@) is None ==> reply
            == Err::<ExchangeReply, ApiFailure>(ApiFailure::PairingNotFound) && final(store)@ == old(
            store,
        )@,
        verifier_length_ok(code_verifier@) && uuid_parsed(session_id@) is Some ==> exists|
            outcome: ExchangeView,
        |
            exchanged_at_some_time(
                old(store)@,
                final(store)@,
                outcome,
                uuid_parsed(session_id@).unwrap(),
                code_verifier@,
            ) && exchange_answer(
                outcome,
                reply,
                config.access_token_ttl_seconds,
                config.signing_secret@,
            ),
{
    proof {
        store.lemma_wf_bounded();
    }
    let length = code_verifier.as_bytes().len();
    if length < 43 || length > 128 {
        return Err(ApiFailure::InvalidVerifier);
    }
    let id = match parse_uuid(session_id) {
        Ok(id) => id,
        Err(_) => {
            return Err(ApiFailure::PairingNotFound);
        },
    };
    let outcome = store.exchange(id, code_verifier);
    let ghost seen = outcome@;
    exchange_reply(config, outcome)
}


// ---------------------------------------------------------------------------
// Delivering an event

/// The chats of the first `n` recipients that want events of `kind`, in the
/// order of the recipients.
pub open spec fn wanting_chats(recipients: Seq<RecipientConfig>, kind: Seq<char>, n: int) -> Seq<i64>
    decreases n,
{
    if n <= 0 {
        Seq::empty()
    } else {
        let earlier = wanting_chats(recipients, kind, n - 1);
        if wants(recipients[n - 1], kind) {
            earlier.push(recipients[n - 1].chat_id)
        } else {
            earlier
        }
    }
}

/// The chats an event of `kind` goes to: each chat of a recipient that wants
/// it, once.
pub open spec fn delivery_targets_of(recipients: Seq<RecipientConfig>, kind: Seq<char>) -> Seq<i64> {
    dedup(wanting_chats(recipients, kind, recipients.len() as int))
}

proof fn lemma_wanting_chats(recipients: Seq<RecipientConfig>, kind: Seq<char>, n: int)
    requires
        0 <= n <= recipients.len(),
    ensures
        forall|c: i64|
            wanting_chats(recipients, kind, n).contains(c) <==> exists|i: int|
                0 <= i < n && wants(recipients[i], kind) && #[trigger] recipients[i].chat_id == c,
    decreases n,
{
    if n > 0 {
        lemma_wanting_chats(recipients, kind, n - 1);
        let earlier = wanting_chats(recipients, kind, n - 1);
        assert forall|c: i64|
            wanting_chats(recipients, kind, n).contains(c) <==> exists|i: int|
                0 <= i < n && wants(recipients[i], kind) && #[trigger] recipients[i].chat_id == c by {
            if wants(recipients[n - 1], kind) {
                let w = earlier.push(recipients[n - 1].chat_id);
                if w.contains(c) {
                    let k = choose|k: int| 0 <= k < w.len() && w[k] == c;
                    if k < earlier.len() {
                        assert(earlier[k] == c);
                        assert(earlier.contains(c));
                    } else {
                        assert(recipients[n - 1].chat_id == c);
                    }
                }
                if exists|i: int|
                    0 <= i < n && wants(recipients[i], kind) && #[trigger] recipients[i].chat_id == c {
                    let i = choose|i: int|
                        0 <= i < n && wants(recipients[i], kind) && #[trigger] recipients[i].chat_id == c;
                    if i < n - 1 {
                        assert(earlier.contains(c));
                        let k = choose|k: int| 0 <= k < earlier.len() && earlier[k] == c;
                        assert(w[k] == c);
                    } else {
                        assert(w[earlier.len() as int] == c);
                    }
                }
            }
        }
    }
}

/// Each chat of a recipient that wants events of `kind` is a target, every
/// target is such a chat, and no chat is a target twice.
pub proof fn law_each_wanting_chat_is_targeted_once(recipients: Seq<RecipientConfig>, kind: Seq<char>)
    ensures
        delivery_targets_of(recipients, kind).no_duplicates(),
        forall|c: i64|
            delivery_targets_of(recipients, kind).contains(c) <==> exists|i: int|
                0 <= i < recipients.len() && wants(recipients[i], kind) && #[trigger] recipients[i].chat_id
                    == c,
{
    let chats = wanting_chats(recipients, kind, recipients.len() as int);
    lemma_wanting_chats(recipients, kind, recipients.len() as int);
    lemma_dedup(chats);
    assert forall|c: i64|
        delivery_targets_of(recipients, kind).contains(c) <==> exists|i: int|
            0 <= i < recipients.len() && wants(recipients[i], kind) && #[trigger] recipients[i].chat_id
                == c by {
        assert(dedup(chats).to_set().contains(c) == dedup(chats).contains(c));
        assert(chats.to_set().contains(c) == chats.contains(c));
        assert(chats.contains(c) <==> exists|i: int|
            0 <= i < recipients.len() && wants(recipients[i], kind) && #[trigger] recipients[i].chat_id
                == c);
    }
}

/// The chats an event of `kind` goes to.
pub fn delivery_targets(recipients: &Vec<RecipientConfig>, kind: &str) -> (chats: Vec<i64>)
    ensures
        chats@ == delivery_targets_of(recipients@, kind@),
{
    let mut wanting: Vec<i64> = Vec::new();
    let mut i: usize = 0;
    while i < recipients.len()
        invariant
            0 <= i <= recipients@.len(),
            wanting@ == wanting_chats(recipients@, kind@, i as int),
        decreases recipients@.len() - i,
    {
        if recipient_matches(&recipients[i], kind) {
            wanting.push(recipients[i].chat_id);
        }
        i = i + 1;
    }
    dedup_ids(&wanting)
}

/// The bearer token of an `Authorization` header: the text after `Bearer `,
/// where there is some.
pub open spec fn bearer_of(header: Option<Seq<char>>) -> Option<Seq<char>> {
    match header {
        None => None,
        Some(h) => match strip_prefix(h, "Bearer "@) {
            Some(token) => if token.len() > 0 {
                Some(token)
            } else {
                None
            },
            None => None,
        },
    }
}

pub open spec fn str_view(text: Option<&str>) -> Option<Seq<char>> {
    match text {
        Some(t) => Some(t@),
        None => None,
    }
}

/// The bearer token of an `Authorization` header.
pub fn bearer_token<'a>(header: Option<&'a str>) -> (token: Option<&'a str>)
    ensures
        str_view(token) == bearer_of(str_view(header)),
{
    let h = match header {
        Some(h) => h,
        None => {
            return None;
        },
    };
    let chars = chars_of(h);
    proof {
        reveal_strlit("Bearer ");
    }
    let n = chars.len();
    assert(chars@.subrange(0, n as int) =~= h@);
    if !crate::values::has_prefix(chars.as_slice(), 0, n, "Bearer ") || n == 7 {
        return None;
    }
    Some(h.substring_char(7, n))
}

/// What an event delivery sends: the source it comes from, the chats it goes
/// to and the message.
pub struct DeliveryPlan {
    pub source: String,
    pub chat_ids: Vec<i64>,
    pub message: String,
}

pub struct DeliveryPlanView {
    pub source: Seq<char>,
    pub chat_ids: Seq<i64>,
    pub message: Seq<char>,
}

impl View for DeliveryPlan {
    type V = DeliveryPlanView;

    open spec fn view(&self) -> DeliveryPlanView {
        DeliveryPlanView { source: self.source@, chat_ids: self.chat_ids@, message: self.message@ }
    }
}

pub open spec fn plan_view(plan: Result<DeliveryPlan, ApiFailure>) -> Result<DeliveryPlanView, ApiFailure> {
    match plan {
        Ok(p) => Ok(p@),
        Err(e) => Err(e),
    }
}

/// The delivery of an event for an authorized token: its user must be
/// allowed and its source configured, and the event valid; it goes to the
/// chats that want its kind.
pub open spec fn plan_answer(config: Config, authorized: AuthorizedView, event: EventRequest) -> Result<
    DeliveryPlanView,
    ApiFailure,
> {
    if !config.allowed_user_ids@.contains(authorized.telegram_user_id) || first_value(
        pairs_view(config.sources@),
        authorized.source,
    ) is None {
        Err(ApiFailure::SourceNotAuthorized)
    } else if !is_valid_event(event) {
        Err(ApiFailure::InvalidEvent)
    } else {
        Ok(
            DeliveryPlanView {
                source: authorized.source,
                chat_ids: delivery_targets_of(config.recipients@, event.kind@),
                message: rendered_event(authorized.source, event),
            },
        )
    }
}

/// The delivery of an event for an authorized token.
pub fn plan_for(config: &Config, authorized: AuthorizedSource, event: &EventRequest) -> (plan:
    Result<DeliveryPlan, ApiFailure>)
    ensures
        plan_view(plan) == plan_answer(*config, authorized@, *event),
{
    if !config.allows_user(authorized.telegram_user_id) || !config.has_source(
        authorized.source.as_str(),
    ) {
        return Err(ApiFailure::SourceNotAuthorized);
    }
    if !valid_event(event) {
        return Err(ApiFailure::InvalidEvent);
    }
    let chat_ids = delivery_targets(&config.recipients, event.kind.as_str());
    let message = render_event(authorized.source.as_str(), event);
    Ok(DeliveryPlan { source: authorized.source, chat_ids, message })
}

/// The answer to a verification: every refused token is answered
/// `InvalidAccessToken`; an accepted one goes on to `plan_answer`.
pub open spec fn verified_answer(
    config: Config,
    verified: Result<AuthorizedView, TokenError>,
    event: EventRequest,
) -> Result<DeliveryPlanView, ApiFailure> {
    match verified {
        Ok(a) => plan_answer(config, a, event),
        Err(_) => Err(ApiFailure::InvalidAccessToken),
    }
}

/// The delivery of an event once its bearer token has been verified.
pub fn plan_verified(
    config: &Config,
    verified: Result<AuthorizedSource, TokenError>,
    event: &EventRequest,
) -> (plan: Result<DeliveryPlan, ApiFailure>)
    ensures
        plan_view(plan) == verified_answer(*config, authorized_view(verified), *event),
{
    match verified {
        Ok(authorized) => plan_for(config, authorized, event),
        Err(_) => Err(ApiFailure::InvalidAccessToken),
    }
}

/// Plans the delivery of an event: the request must carry a bearer token
/// that verifies with the signing secret; then `plan_for` decides.
pub fn plan_delivery(config: &Config, authorization: Option<&str>, event: &EventRequest) -> (plan:
    Result<DeliveryPlan, ApiFailure>)
    ensures
        bearer_of(str_view(authorization)) is None ==> plan_view(plan) == Err::<
            DeliveryPlanView,
            ApiFailure,
        >(ApiFailure::MissingAccessToken),
        bearer_of(str_view(authorization)) matches Some(token) ==> exists|
            verified: Result<AuthorizedView, TokenError>,
        |
            verification_outcome(token, config.signing_secret@, verified) && plan_view(plan)
                == verified_answer(*config, verified, *event),
        bearer_of(str_view(authorization)) matches Some(token) && !signed_with(
            token,
            encode_utf8(config.signing_secret@),
        ) ==> plan_view(plan) == Err::<DeliveryPlanView, ApiFailure>(ApiFailure::InvalidAccessToken),
{
    let token = match bearer_token(authorization) {
        Some(t) => t,
        None => {
            return Err(ApiFailure::MissingAccessToken);
        },
    };
    let verified = verify_access_token(config.signing_secret.as_str(), token);
    let ghost seen = authorized_view(verified);
    plan_verified(config, verified, event)
}

/// How a delivery went.
pub struct DeliveryReport {
    pub source: String,
    pub attempted: usize,
    pub delivered: usize,
}

/// The answer once the messages are sent: a failure where there were chats
/// and none received the message.
pub fn delivery_result(source: String, attempted: usize, delivered: usize) -> (report: Result<
    DeliveryReport,
    ApiFailure,
>)
    ensures
        attempted > 0 && delivered == 0 ==> report matches Err(ApiFailure::TelegramDeliveryFailed),
        !(attempted > 0 && delivered == 0) ==> (report matches Ok(r) && r.source@ == source@
            && r.attempted == attempted && r.delivered == delivered),
{
    if attempted > 0 && delivered == 0 {
        Err(ApiFailure::TelegramDeliveryFailed)
    } else {
        Ok(DeliveryReport { source, attempted, delivered })
    }
}


// ---------------------------------------------------------------------------
// The Telegram webhook

/// What the webhook does with an update.
pub enum WebhookAction {
    /// The secret header is wrong: refuse the request.
    Reject,
    /// Nothing to do.
    Ignore,
    /// Send `text` to the chat `chat_id`.
    Reply { chat_id: i64, text: String },
}

pub enum WebhookActionView {
    Reject,
    Ignore,
    Reply { chat_id: i64, text: Seq<char> },
}

impl View for WebhookAction {
    type V = WebhookActionView;

    open spec fn view(&self) -> WebhookActionView {
        match self {
            WebhookAction::Reject => WebhookActionView::Reject,
            WebhookAction::Ignore => WebhookActionView::Ignore,
            WebhookAction::Reply { chat_id, text } => WebhookActionView::Reply {
                chat_id: *chat_id,
                text: text@,
            },
        }
    }
}

/// The reply to an approval, by the store's outcome.
pub open spec fn approval_text(outcome: ApproveView) -> Seq<char> {
    match outcome {
        ApproveView::Approved(source) => "infraCLI source "@ + source
            + " authorized. return to the terminal"@,
        ApproveView::AlreadyApproved(source) => "infraCLI source "@ + source
            + " authorized. return to the terminal"@,
        ApproveView::DifferentUser => "this pairing belongs to another Telegram account"@,
        _ => "pairing expired or already used. run infra auth again"@,
    }
}

/// The reply to a user that is not allowed to approve pairings.
pub open spec fn unauthorized_text() -> Seq<char> {
    "this Telegram account is not authorized for infraCLI"@
}

/// The reply to an approval.
pub fn approval_reply(outcome: &ApproveOutcome) -> (text: String)
    ensures
        text@ == approval_text(outcome@),
{
    match outcome {
        ApproveOutcome::Approved(source) | ApproveOutcome::AlreadyApproved(source) => {
            let mut text = "infraCLI source ".to_owned();
            text.append(source.as_str());
            text.append(" authorized. return to the terminal");
            text
        },
        ApproveOutcome::DifferentUser => "this pairing belongs to another Telegram account".to_owned(),
        _ => "pairing expired or already used. run infra auth again".to_owned(),
    }
}

/// The approval an update asks for: a text message in a private chat, from a
/// user, that is the command `/start` with a start token; the chat, the user
/// and the token.
pub open spec fn start_request(update: TelegramUpdate) -> Option<(i64, i64, Seq<char>)> {
    match update.message {
        None => None,
        Some(m) => if m.chat.kind@ != "private"@ {
            None
        } else {
            match (m.from, m.text) {
                (Some(user), Some(text)) => match command_of(text@) {
                    Some(CommandView::Approve(token)) => Some((m.chat.id, user.id, token)),
                    _ => None,
                },
                _ => None,
            }
        },
    }
}

/// What the webhook does with an update, from the store `s0` to `s1`: a
/// wrong secret is refused and an update that asks for no approval ignored,
/// both with the store unchanged; a user that is not allowed is told so, the
/// store unchanged; an allowed user's approval goes to the store, and the
/// user is told its outcome.
pub open spec fn webhook_effect(
    config: Config,
    s0: crate::store::StoreState,
    s1: crate::store::StoreState,
    secret: Seq<char>,
    update: TelegramUpdate,
    action: WebhookActionView,
) -> bool {
    if secret != config.telegram_webhook_secret@ {
        action == WebhookActionView::Reject && s1 == s0
    } else {
        match start_request(update) {
            None => action == WebhookActionView::Ignore && s1 == s0,
            Some((chat, user, token)) => if !config.allowed_user_ids@.contains(user) {
                action == (WebhookActionView::Reply { chat_id: chat, text: unauthorized_text() })
                    && s1 == s0
            } else {
                exists|outcome: ApproveView|
                    #[trigger] approved_at_some_time(s0, s1, outcome, token, user) && action == (
                    WebhookActionView::Reply { chat_id: chat, text: approval_text(outcome) })
            },
        }
    }
}

/// Handles an update delivered to the webhook with the secret header
/// `supplied_secret` (empty where there was none).
pub fn webhook_action(
    config: &Config,
    store: &mut PairingStore,
    supplied_secret: &str,
    update: &TelegramUpdate,
) -> (action: WebhookAction)
    requires
        old(store).wf(),
    ensures
        final(store).wf(),
        bounded(final(store)@),
        webhook_effect(*config, old(store)@, final(store)@, supplied_secret@, *update, action@),
{
    proof {
        store.lemma_wf_bounded();
    }
    if !secure_eq(supplied_secret, config.telegram_webhook_secret.as_str()) {
        return WebhookAction::Reject;
    }
    let message = match &update.message {
        Some(m) => m,
        None => {
            return WebhookAction::Ignore;
        },
    };
    let private = "private".to_owned();
    if message.chat.kind != private {
        return WebhookAction::Ignore;
    }
    let user = match &message.from {
        Some(u) => u,
        None => {
            return WebhookAction::Ignore;
        },
    };
    let text = match &message.text {
        Some(t) => t,
        None => {
            return WebhookAction::Ignore;
        },
    };
    let token = match command(text.as_str()) {
        Some(TelegramCommand::Approve(token)) => token,
        _ => {
            return WebhookAction::Ignore;
        },
    };
    if !config.allows_user(user.id) {
        return WebhookAction::Reply {
            chat_id: message.chat.id,
            text: "this Telegram account is not authorized for infraCLI".to_owned(),
        };
    }
    assert(command_view(Some(TelegramCommand::Approve(token))) == Some(CommandView::Approve(token@)));
    let ghost request = start_request(*update);
    assert(request == Some((message.chat.id, user.id, token@)));
    let outcome = store.approve(token, user.id);
    let ghost seen = outcome@;
    let action = WebhookAction::Reply { chat_id: message.chat.id, text: approval_reply(&outcome) };
    assert(request matches Some((c, u, t)) && approved_at_some_time(old(store)@, store@, seen, t, u));
    action
}

/// The webhook changes the pairing store only for an update with the right
/// secret that asks, from a private chat, for an approval by an allowed user.
pub proof fn law_only_allowed_private_approvals_change_pairings(
    config: Config,
    s0: crate::store::StoreState,
    s1: crate::store::StoreState,
    secret: Seq<char>,
    update: TelegramUpdate,
    action: WebhookActionView,
)
    requires
        webhook_effect(config, s0, s1, secret, update, action),
        s1 != s0,
    ensures
        secret == config.telegram_webhook_secret@,
        update.message is Some,
        update.message.unwrap().chat.kind@ == "private"@,
        start_request(update) matches Some((chat, user, token)) && config.allowed_user_ids@.contains(
            user,
        ),
{
}

/// A created pairing is reported as the store made it: the session id as a
/// UUID, the deep link that opens the bot with the start token, the
/// pairing's lifetime as `expires_in` and the polling interval as `interval`.
pub proof fn law_created_reply_reports_the_session(
    bot_username: Seq<char>,
    session_id: u128,
    start_token: Seq<char>,
    expires_in: u64,
    interval: u64,
)
    ensures
        create_answer(
            bot_username,
            CreateView::Created { session_id, start_token, expires_in, interval },
        ) matches Ok(reply) && reply.session_id == uuid_text_of(session_id)
            && reply.verification_uri_complete == "https://t.me/"@ + bot_username + "?start="@
            + start_token && reply.expires_in == expires_in && reply.interval == interval,
{
}

} // verus!
