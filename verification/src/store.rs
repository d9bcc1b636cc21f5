//! The in-memory store of pairing sessions: a CLI creates a session with the
//! SHA-256 challenge of a private verifier, an allowlisted Telegram account
//! approves it through a one-time start token, and the CLI exchanges the
//! verifier for the approval exactly once.
use crate::primitives::{base64_url_decode, base64_url_decoded, monotonic_origin, nanos_since, random_bytes, random_uuid, sha256_of_text, sha256_utf8, unix_now, base64_url_encode, base64_url_encoded, constant_time_eq};
use crate::table::{assoc_map, filter_values, has_key, keys_unique, lemma_absent, lemma_entry, lemma_len, lemma_push, lemma_swap_remove, lemma_update};
use vstd::prelude::*;

verus! {

/// Random bytes behind each one-time start token.
pub const START_TOKEN_BYTES: usize = 24;

/// Nanoseconds per second, for the polling interval.
pub const NANOS_PER_SECOND: u128 = 1_000_000_000;

// ---------------------------------------------------------------------------
// Model
// ---------------------------------------------------------------------------

/// What the store knows of one pairing session.
pub struct SessionState {
    pub source: Seq<char>,
    pub code_challenge: Seq<u8>,
    pub start_token_digest: Seq<u8>,
    pub expires_at: u64,
    pub approved_user_id: Option<i64>,
    pub consumed: bool,
    pub exchange_attempts: u8,
    /// Monotonic nanoseconds of the last exchange that was not throttled.
    pub last_exchange_at: Option<u128>,
}

/// The whole store: sessions by id, the start-token index from token digest to
/// session id, and the policy it was created with.
pub struct StoreState {
    pub sessions: Map<u128, SessionState>,
    pub start_index: Map<Seq<u8>, u128>,
    pub pairing_ttl_seconds: u64,
    pub poll_interval_seconds: u64,
    pub max_active_pairings: usize,
    pub max_exchange_attempts: u8,
}

pub enum CreateView {
    Created { session_id: u128, start_token: Seq<char>, expires_in: u64, interval: u64 },
    CapacityExceeded,
    RandomnessUnavailable,
}

pub enum ApproveView {
    Approved(Seq<char>),
    AlreadyApproved(Seq<char>),
    DifferentUser,
    Expired,
    Consumed,
    NotFound,
}

pub enum ExchangeView {
    Pending,
    SlowDown,
    Approved { telegram_user_id: i64, source: Seq<char> },
    InvalidVerifier,
    TooManyAttempts,
    Expired,
    Consumed,
    NotFound,
}

/// The store with every session that has expired at `now` removed, and every
/// index entry whose session is gone removed with it.
pub open spec fn without_expired(s: StoreState, now: u64) -> StoreState {
    let sessions = filter_values(s.sessions, |x: SessionState| x.expires_at > now);
    StoreState {
        sessions,
        start_index: filter_values(s.start_index, |id: u128| sessions.contains_key(id)),
        ..s
    }
}

/// A fresh session created at `now`.
pub open spec fn new_session(
    source: Seq<char>,
    challenge: Seq<u8>,
    token_digest: Seq<u8>,
    expires_at: u64,
) -> SessionState {
    SessionState {
        source,
        code_challenge: challenge,
        start_token_digest: token_digest,
        expires_at,
        approved_user_id: None,
        consumed: false,
        exchange_attempts: 0,
        last_exchange_at: None,
    }
}

/// Creating a session with identifier `id` and start token `token`: sessions
/// expired at `cleanup_now` are dropped first, and the new session expires
/// `pairing_ttl_seconds` after `issued_now`.
pub open spec fn create_result(
    s: StoreState,
    cleanup_now: u64,
    issued_now: u64,
    id: u128,
    token: Seq<char>,
    source: Seq<char>,
    challenge: Seq<u8>,
) -> (StoreState, CreateView) {
    let t = without_expired(s, cleanup_now);
    if t.sessions.dom().len() >= t.max_active_pairings {
        (t, CreateView::CapacityExceeded)
    } else {
        let digest = sha256_utf8(token);
        let session = new_session(
            source,
            challenge,
            digest,
            issued_now.saturating_add(t.pairing_ttl_seconds),
        );
        (
            StoreState {
                sessions: t.sessions.insert(id, session),
                start_index: t.start_index.insert(digest, id),
                ..t
            },
            CreateView::Created {
                session_id: id,
                start_token: token,
                expires_in: t.pairing_ttl_seconds,
                interval: t.poll_interval_seconds,
            },
        )
    }
}

/// Approving, at `now`, the session whose start token is `token`, for `user`.
pub open spec fn approve_result(s: StoreState, token: Seq<char>, user: i64, now: u64) -> (
    StoreState,
    ApproveView,
) {
    let digest = sha256_utf8(token);
    if !s.start_index.contains_key(digest) {
        (s, ApproveView::NotFound)
    } else {
        let id = s.start_index[digest];
        if s.sessions.contains_key(id) && s.sessions[id].expires_at <= now {
            (
                StoreState {
                    sessions: s.sessions.remove(id),
                    start_index: s.start_index.remove(digest),
                    ..s
                },
                ApproveView::Expired,
            )
        } else if !s.sessions.contains_key(id) {
            (StoreState { start_index: s.start_index.remove(digest), ..s }, ApproveView::NotFound)
        } else {
            let x = s.sessions[id];
            if x.consumed {
                (s, ApproveView::Consumed)
            } else {
                match x.approved_user_id {
                    None => (
                        StoreState {
                            sessions: s.sessions.insert(
                                id,
                                SessionState { approved_user_id: Some(user), ..x },
                            ),
                            ..s
                        },
                        ApproveView::Approved(x.source),
                    ),
                    Some(existing) => if existing == user {
                        (s, ApproveView::AlreadyApproved(x.source))
                    } else {
                        (s, ApproveView::DifferentUser)
                    },
                }
            }
        }
    }
}

/// Whether an exchange at monotonic time `at` comes less than `interval_seconds`
/// after the previous one.
pub open spec fn throttled(previous: Option<u128>, at: u128, interval_seconds: u64) -> bool {
    match previous {
        Some(p) => {
            let elapsed = if at >= p {
                at - p
            } else {
                0
            };
            elapsed < interval_seconds * NANOS_PER_SECOND
        },
        None => false,
    }
}

/// Exchanging `verifier` for session `id` at wall-clock `now`; the polling
/// interval is measured at monotonic time `check_at` and the exchange is
/// recorded at monotonic time `record_at`.
pub open spec fn exchange_result(
    s: StoreState,
    id: u128,
    verifier: Seq<char>,
    now: u64,
    check_at: u128,
    record_at: u128,
) -> (StoreState, ExchangeView) {
    if s.sessions.contains_key(id) && s.sessions[id].expires_at <= now {
        (
            StoreState {
                sessions: s.sessions.remove(id),
                start_index: s.start_index.remove(s.sessions[id].start_token_digest),
                ..s
            },
            ExchangeView::Expired,
        )
    } else if !s.sessions.contains_key(id) {
        (s, ExchangeView::NotFound)
    } else {
        let x = s.sessions[id];
        if x.consumed {
            (s, ExchangeView::Consumed)
        } else if throttled(x.last_exchange_at, check_at, s.poll_interval_seconds) {
            (s, ExchangeView::SlowDown)
        } else {
            let y = SessionState { last_exchange_at: Some(record_at), ..x };
            if sha256_utf8(verifier) != x.code_challenge {
                let attempts = x.exchange_attempts.saturating_add(1);
                if attempts >= s.max_exchange_attempts {
                    (
                        StoreState {
                            sessions: s.sessions.insert(
                                id,
                                SessionState { exchange_attempts: attempts, consumed: true, ..y },
                            ),
                            ..s
                        },
                        ExchangeView::TooManyAttempts,
                    )
                } else {
                    (
                        StoreState {
                            sessions: s.sessions.insert(
                                id,
                                SessionState { exchange_attempts: attempts, ..y },
                            ),
                            ..s
                        },
                        ExchangeView::InvalidVerifier,
                    )
                }
            } else {
                match y.approved_user_id {
                    None => (
                        StoreState { sessions: s.sessions.insert(id, y), ..s },
                        ExchangeView::Pending,
                    ),
                    Some(user) => (
                        StoreState {
                            sessions: s.sessions.insert(id, SessionState { consumed: true, ..y }),
                            start_index: s.start_index.remove(x.start_token_digest),
                            ..s
                        },
                        ExchangeView::Approved { telegram_user_id: user, source: x.source },
                    ),
                }
            }
        }
    }
}

// ---------------------------------------------------------------------------
// Executable store
// ---------------------------------------------------------------------------

struct PairingSession {
    source: String,
    code_challenge: [u8; 32],
    start_token_digest: [u8; 32],
    expires_at: u64,
    approved_user_id: Option<i64>,
    consumed: bool,
    exchange_attempts: u8,
    last_exchange_at: Option<u128>,
}

impl PairingSession {
    spec fn state(&self) -> SessionState {
        SessionState {
            source: self.source@,
            code_challenge: self.code_challenge@,
            start_token_digest: self.start_token_digest@,
            expires_at: self.expires_at,
            approved_user_id: self.approved_user_id,
            consumed: self.consumed,
            exchange_attempts: self.exchange_attempts,
            last_exchange_at: self.last_exchange_at,
        }
    }
}

/// A freshly created pairing.
#[derive(Debug, PartialEq, Eq)]
pub struct CreatedPairing {
    pub session_id: u128,
    pub start_token: String,
    pub expires_in: u64,
    pub interval: u64,
}

#[derive(Debug, PartialEq, Eq)]
pub enum CreateOutcome {
    Created(CreatedPairing),
    CapacityExceeded,
    /// The operating system refused the randomness for the session id or the
    /// start token; nothing was created.
    RandomnessUnavailable,
}

#[derive(Debug, PartialEq, Eq)]
pub enum ApproveOutcome {
    Approved(String),
    AlreadyApproved(String),
    DifferentUser,
    Expired,
    Consumed,
    NotFound,
}

#[derive(Debug, PartialEq, Eq)]
pub enum ExchangeOutcome {
    Pending,
    SlowDown,
    Approved { telegram_user_id: i64, source: String },
    InvalidVerifier,
    TooManyAttempts,
    Expired,
    Consumed,
    NotFound,
}

impl View for CreateOutcome {
    type V = CreateView;

    open spec fn view(&self) -> CreateView {
        match self {
            CreateOutcome::Created(c) => CreateView::Created {
                session_id: c.session_id,
                start_token: c.start_token@,
                expires_in: c.expires_in,
                interval: c.interval,
            },
            CreateOutcome::CapacityExceeded => CreateView::CapacityExceeded,
            CreateOutcome::RandomnessUnavailable => CreateView::RandomnessUnavailable,
        }
    }
}

impl View for ApproveOutcome {
    type V = ApproveView;

    open spec fn view(&self) -> ApproveView {
        match self {
            ApproveOutcome::Approved(s) => ApproveView::Approved(s@),
            ApproveOutcome::AlreadyApproved(s) => ApproveView::AlreadyApproved(s@),
            ApproveOutcome::DifferentUser => ApproveView::DifferentUser,
            ApproveOutcome::Expired => ApproveView::Expired,
            ApproveOutcome::Consumed => ApproveView::Consumed,
            ApproveOutcome::NotFound => ApproveView::NotFound,
        }
    }
}

impl View for ExchangeOutcome {
    type V = ExchangeView;

    open spec fn view(&self) -> ExchangeView {
        match self {
            ExchangeOutcome::Pending => ExchangeView::Pending,
            ExchangeOutcome::SlowDown => ExchangeView::SlowDown,
            ExchangeOutcome::Approved { telegram_user_id, source } => ExchangeView::Approved {
                telegram_user_id: *telegram_user_id,
                source: source@,
            },
            ExchangeOutcome::InvalidVerifier => ExchangeView::InvalidVerifier,
            ExchangeOutcome::TooManyAttempts => ExchangeView::TooManyAttempts,
            ExchangeOutcome::Expired => ExchangeView::Expired,
            ExchangeOutcome::Consumed => ExchangeView::Consumed,
            ExchangeOutcome::NotFound => ExchangeView::NotFound,
        }
    }
}

/// In-memory pairing sessions, bounded in number.
pub struct PairingStore {
    sessions: Vec<(u128, PairingSession)>,
    start_index: Vec<([u8; 32], u128)>,
    pairing_ttl_seconds: u64,
    poll_interval_seconds: u64,
    max_active_pairings: usize,
    max_exchange_attempts: u8,
    clock_origin: std::time::Instant,
}

spec fn session_entries_of(v: Seq<(u128, PairingSession)>) -> Seq<(u128, SessionState)> {
    v.map_values(|e: (u128, PairingSession)| (e.0, e.1.state()))
}

spec fn index_entries_of(v: Seq<([u8; 32], u128)>) -> Seq<(Seq<u8>, u128)> {
    v.map_values(|e: ([u8; 32], u128)| (e.0@, e.1))
}

impl View for PairingStore {
    type V = StoreState;

    closed spec fn view(&self) -> StoreState {
        StoreState {
            sessions: assoc_map(session_entries_of(self.sessions@)),
            start_index: assoc_map(index_entries_of(self.start_index@)),
            pairing_ttl_seconds: self.pairing_ttl_seconds,
            poll_interval_seconds: self.poll_interval_seconds,
            max_active_pairings: self.max_active_pairings,
            max_exchange_attempts: self.max_exchange_attempts,
        }
    }
}

/// The store invariant: finitely many sessions, never more than the capacity.
pub open spec fn bounded(s: StoreState) -> bool {
    &&& s.sessions.dom().finite()
    &&& s.sessions.dom().len() <= s.max_active_pairings
    &&& s.start_index.dom().finite()
}

fn same_digest(a: &[u8; 32], b: &[u8; 32]) -> (same: bool)
    ensures
        same == (a@ == b@),
{
    let mut i: usize = 0;
    while i < 32
        invariant
            0 <= i <= 32,
            a@.len() == 32,
            b@.len() == 32,
            forall|j: int| 0 <= j < i ==> a@[j] == b@[j],
        decreases 32 - i,
    {
        if a[i] != b[i] {
            return false;
        }
        i = i + 1;
    }
    assert(a@ =~= b@);
    true
}

impl PairingStore {
    /// The invariant of the representation: no session id and no digest occurs
    /// twice, and the model is bounded.
    pub closed spec fn wf(&self) -> bool {
        &&& keys_unique(session_entries_of(self.sessions@))
        &&& keys_unique(index_entries_of(self.start_index@))
        &&& bounded(self@)
    }

    /// A well-formed store is bounded.
    pub proof fn lemma_wf_bounded(&self)
        requires
            self.wf(),
        ensures
            bounded(self@),
    {
    }

    /// An empty store with the given policy.
    pub fn new(
        pairing_ttl_seconds: u64,
        poll_interval_seconds: u64,
        max_active_pairings: usize,
        max_exchange_attempts: u8,
    ) -> (store: Self)
        ensures
            store.wf(),
            bounded(store@),
            store@.sessions =~= Map::<u128, SessionState>::empty(),
            store@.start_index =~= Map::<Seq<u8>, u128>::empty(),
            store@.pairing_ttl_seconds == pairing_ttl_seconds,
            store@.poll_interval_seconds == poll_interval_seconds,
            store@.max_active_pairings == max_active_pairings,
            store@.max_exchange_attempts == max_exchange_attempts,
    {
        let store = PairingStore {
            sessions: Vec::new(),
            start_index: Vec::new(),
            pairing_ttl_seconds,
            poll_interval_seconds,
            max_active_pairings,
            max_exchange_attempts,
            clock_origin: monotonic_origin(),
        };
        proof {
            assert(session_entries_of(store.sessions@) =~= Seq::empty());
            assert(index_entries_of(store.start_index@) =~= Seq::empty());
            lemma_len(session_entries_of(store.sessions@));
            lemma_len(index_entries_of(store.start_index@));
        }
        store
    }

    proof fn lemma_view_facts(&self)
        requires
            keys_unique(session_entries_of(self.sessions@)),
            keys_unique(index_entries_of(self.start_index@)),
        ensures
            self@.sessions.dom().finite(),
            self@.sessions.dom().len() == self.sessions@.len(),
            self@.start_index.dom().finite(),
    {
        lemma_len(session_entries_of(self.sessions@));
        lemma_len(index_entries_of(self.start_index@));
    }

    fn find_session(&self, id: u128) -> (found: Option<usize>)
        requires
            keys_unique(session_entries_of(self.sessions@)),
        ensures
            match found {
                Some(i) => {
                    &&& i < self.sessions@.len()
                    &&& self.sessions@[i as int].0 == id
                    &&& self@.sessions.contains_key(id)
                    &&& self@.sessions[id] == self.sessions@[i as int].1.state()
                },
                None => !self@.sessions.contains_key(id),
            },
    {
        let mut i: usize = 0;
        while i < self.sessions.len()
            invariant
                0 <= i <= self.sessions@.len(),
                keys_unique(session_entries_of(self.sessions@)),
                forall|j: int| 0 <= j < i ==> self.sessions@[j].0 != id,
            decreases self.sessions@.len() - i,
        {
            if self.sessions[i].0 == id {
                proof {
                    lemma_entry(session_entries_of(self.sessions@), i as int);
                }
                return Some(i);
            }
            i = i + 1;
        }
        proof {
            lemma_absent(session_entries_of(self.sessions@), id);
        }
        None
    }

    fn find_start(&self, digest: &[u8; 32]) -> (found: Option<usize>)
        requires
            keys_unique(index_entries_of(self.start_index@)),
        ensures
            match found {
                Some(i) => {
                    &&& i < self.start_index@.len()
                    &&& self.start_index@[i as int].0@ == digest@
                    &&& self@.start_index.contains_key(digest@)
                    &&& self@.start_index[digest@] == self.start_index@[i as int].1
                },
                None => !self@.start_index.contains_key(digest@),
            },
    {
        let mut i: usize = 0;
        while i < self.start_index.len()
            invariant
                0 <= i <= self.start_index@.len(),
                keys_unique(index_entries_of(self.start_index@)),
                forall|j: int| 0 <= j < i ==> self.start_index@[j].0@ != digest@,
            decreases self.start_index@.len() - i,
        {
            if same_digest(&self.start_index[i].0, digest) {
                proof {
                    lemma_entry(index_entries_of(self.start_index@), i as int);
                }
                return Some(i);
            }
            i = i + 1;
        }
        proof {
            lemma_absent(index_entries_of(self.start_index@), digest@);
        }
        None
    }

    /// Removes the index entry for `digest`, if there is one.
    fn forget_start(&mut self, digest: &[u8; 32])
        requires
            keys_unique(index_entries_of(old(self).start_index@)),
        ensures
            keys_unique(index_entries_of(final(self).start_index@)),
            final(self).sessions == old(self).sessions,
            final(self).pairing_ttl_seconds == old(self).pairing_ttl_seconds,
            final(self).poll_interval_seconds == old(self).poll_interval_seconds,
            final(self).max_active_pairings == old(self).max_active_pairings,
            final(self).max_exchange_attempts == old(self).max_exchange_attempts,
            final(self)@.start_index =~= old(self)@.start_index.remove(digest@),
            final(self).start_index@.len() <= old(self).start_index@.len(),
    {
        match self.find_start(digest) {
            Some(i) => {
                let ghost before = index_entries_of(self.start_index@);
                self.start_index.swap_remove(i);
                proof {
                    lemma_swap_remove(before, i as int);
                    assert(index_entries_of(self.start_index@) =~= before.update(
                        i as int,
                        before.last(),
                    ).drop_last());
                }
            },
            None => {
                assert(self@.start_index.remove(digest@) =~= self@.start_index);
            },
        }
    }

    /// Removes session `id`, which is at position `i`.
    fn drop_session_at(&mut self, i: usize)
        requires
            keys_unique(session_entries_of(old(self).sessions@)),
            i < old(self).sessions@.len(),
        ensures
            keys_unique(session_entries_of(final(self).sessions@)),
            final(self).start_index == old(self).start_index,
            final(self).pairing_ttl_seconds == old(self).pairing_ttl_seconds,
            final(self).poll_interval_seconds == old(self).poll_interval_seconds,
            final(self).max_active_pairings == old(self).max_active_pairings,
            final(self).max_exchange_attempts == old(self).max_exchange_attempts,
            final(self)@.sessions =~= old(self)@.sessions.remove(old(self).sessions@[i as int].0),
            final(self).sessions@ == old(self).sessions@.update(i as int, old(self).sessions@.last()).drop_last(),
            final(self).sessions@.len() + 1 == old(self).sessions@.len(),
    {
        let ghost before = session_entries_of(self.sessions@);
        self.sessions.swap_remove(i);
        proof {
            lemma_swap_remove(before, i as int);
            assert(session_entries_of(self.sessions@) =~= before.update(i as int, before.last()).drop_last());
        }
    }

    /// Replaces the session at position `i` with `session`.
    fn replace_session_at(&mut self, i: usize, session: PairingSession)
        requires
            keys_unique(session_entries_of(old(self).sessions@)),
            i < old(self).sessions@.len(),
        ensures
            keys_unique(session_entries_of(final(self).sessions@)),
            final(self).start_index == old(self).start_index,
            final(self).pairing_ttl_seconds == old(self).pairing_ttl_seconds,
            final(self).poll_interval_seconds == old(self).poll_interval_seconds,
            final(self).max_active_pairings == old(self).max_active_pairings,
            final(self).max_exchange_attempts == old(self).max_exchange_attempts,
            final(self)@.sessions =~= old(self)@.sessions.insert(
                old(self).sessions@[i as int].0,
                session.state(),
            ),
            final(self).sessions@.len() == old(self).sessions@.len(),
    {
        let ghost before = session_entries_of(self.sessions@);
        let id = self.sessions[i].0;
        self.sessions.set(i, (id, session));
        proof {
            lemma_update(before, i as int, session.state());
            assert(session_entries_of(self.sessions@) =~= before.update(
                i as int,
                (before[i as int].0, session.state()),
            ));
        }
    }
}


impl PairingStore {
    fn copy_session(&self, i: usize) -> (copy: PairingSession)
        requires
            i < self.sessions@.len(),
        ensures
            copy.state() == self.sessions@[i as int].1.state(),
    {
        let s = &self.sessions[i].1;
        PairingSession {
            source: s.source.clone(),
            code_challenge: s.code_challenge,
            start_token_digest: s.start_token_digest,
            expires_at: s.expires_at,
            approved_user_id: s.approved_user_id,
            consumed: s.consumed,
            exchange_attempts: s.exchange_attempts,
            last_exchange_at: s.last_exchange_at,
        }
    }

    /// Drops every session that has expired at `now`, and every index entry
    /// whose session is gone.
    fn remove_expired(&mut self, now: u64)
        requires
            old(self).wf(),
        ensures
            final(self).wf(),
            final(self)@ == without_expired(old(self)@, now),
    {
        let ghost start = self@;
        let ghost keep_session = |x: SessionState| x.expires_at > now;
        let mut i: usize = 0;
        while i < self.sessions.len()
            invariant
                0 <= i <= self.sessions@.len(),
                keys_unique(session_entries_of(self.sessions@)),
                keys_unique(index_entries_of(self.start_index@)),
                self@.start_index == start.start_index,
                self.pairing_ttl_seconds == start.pairing_ttl_seconds,
                self.poll_interval_seconds == start.poll_interval_seconds,
                self.max_active_pairings == start.max_active_pairings,
                self.max_exchange_attempts == start.max_exchange_attempts,
                forall|p: int| 0 <= p < i ==> #[trigger] self.sessions@[p].1.expires_at > now,
                forall|k: u128|
                    #[trigger] self@.sessions.contains_key(k) ==> start.sessions.contains_key(k)
                        && self@.sessions[k] == start.sessions[k],
                forall|k: u128|
                    #[trigger] start.sessions.contains_key(k) && start.sessions[k].expires_at > now
                        ==> self@.sessions.contains_key(k),
            decreases self.sessions@.len() - i,
        {
            if self.sessions[i].1.expires_at > now {
                i = i + 1;
            } else {
                proof {
                    lemma_entry(session_entries_of(self.sessions@), i as int);
                }
                self.drop_session_at(i);
            }
        }
        let ghost kept = self@.sessions;
        assert(kept =~= filter_values(start.sessions, keep_session)) by {
            assert forall|k: u128| #[trigger] kept.contains_key(k) implies kept[k].expires_at > now by {
                let p = choose|p: int|
                    0 <= p < session_entries_of(self.sessions@).len() && session_entries_of(
                        self.sessions@,
                    )[p].0 == k;
                lemma_entry(session_entries_of(self.sessions@), p);
            }
        }
        let mut j: usize = 0;
        while j < self.start_index.len()
            invariant
                0 <= j <= self.start_index@.len(),
                keys_unique(session_entries_of(self.sessions@)),
                keys_unique(index_entries_of(self.start_index@)),
                self@.sessions == kept,
                self.pairing_ttl_seconds == start.pairing_ttl_seconds,
                self.poll_interval_seconds == start.poll_interval_seconds,
                self.max_active_pairings == start.max_active_pairings,
                self.max_exchange_attempts == start.max_exchange_attempts,
                forall|p: int| 0 <= p < j ==> kept.contains_key(#[trigger] self.start_index@[p].1),
                forall|k: Seq<u8>|
                    #[trigger] self@.start_index.contains_key(k) ==> start.start_index.contains_key(k)
                        && self@.start_index[k] == start.start_index[k],
                forall|k: Seq<u8>|
                    #[trigger] start.start_index.contains_key(k) && kept.contains_key(
                        start.start_index[k],
                    ) ==> self@.start_index.contains_key(k),
            decreases self.start_index@.len() - j,
        {
            let id = self.start_index[j].1;
            if self.find_session(id).is_some() {
                j = j + 1;
            } else {
                proof {
                    lemma_entry(index_entries_of(self.start_index@), j as int);
                }
                let ghost before = index_entries_of(self.start_index@);
                let ghost before_map = self@.start_index;
                self.start_index.swap_remove(j);
                proof {
                    lemma_swap_remove(before, j as int);
                    assert(index_entries_of(self.start_index@) =~= before.update(
                        j as int,
                        before.last(),
                    ).drop_last());
                    assert(self@.start_index =~= before_map.remove(before[j as int].0));
                }
            }
        }
        let ghost indexed = self@.start_index;
        assert(indexed =~= filter_values(start.start_index, |id: u128| kept.contains_key(id))) by {
            assert forall|k: Seq<u8>| #[trigger] indexed.contains_key(k) implies kept.contains_key(
                indexed[k],
            ) by {
                let p = choose|p: int|
                    0 <= p < index_entries_of(self.start_index@).len() && index_entries_of(
                        self.start_index@,
                    )[p].0 == k;
                lemma_entry(index_entries_of(self.start_index@), p);
            }
        }
        proof {
            self.lemma_view_facts();
            vstd::set_lib::lemma_len_subset(kept.dom(), start.sessions.dom());
        }
    }

    /// Inserts (or replaces) session `id`.
    fn put_session(&mut self, id: u128, session: PairingSession)
        requires
            keys_unique(session_entries_of(old(self).sessions@)),
        ensures
            keys_unique(session_entries_of(final(self).sessions@)),
            final(self).start_index == old(self).start_index,
            final(self).pairing_ttl_seconds == old(self).pairing_ttl_seconds,
            final(self).poll_interval_seconds == old(self).poll_interval_seconds,
            final(self).max_active_pairings == old(self).max_active_pairings,
            final(self).max_exchange_attempts == old(self).max_exchange_attempts,
            final(self)@.sessions =~= old(self)@.sessions.insert(id, session.state()),
    {
        match self.find_session(id) {
            Some(i) => {
                self.replace_session_at(i, session);
            },
            None => {
                let ghost before = session_entries_of(self.sessions@);
                proof {
                    assert(!has_key(before, id)) by {
                        if has_key(before, id) {
                            let p = choose|p: int| 0 <= p < before.len() && before[p].0 == id;
                            lemma_entry(before, p);
                        }
                    }
                    lemma_push(before, id, session.state());
                }
                self.sessions.push((id, session));
                assert(session_entries_of(self.sessions@) =~= before.push((id, session.state())));
            },
        }
    }

    /// Inserts (or replaces) the index entry for `digest`.
    fn put_start(&mut self, digest: [u8; 32], id: u128)
        requires
            keys_unique(index_entries_of(old(self).start_index@)),
        ensures
            keys_unique(index_entries_of(final(self).start_index@)),
            final(self).sessions == old(self).sessions,
            final(self).pairing_ttl_seconds == old(self).pairing_ttl_seconds,
            final(self).poll_interval_seconds == old(self).poll_interval_seconds,
            final(self).max_active_pairings == old(self).max_active_pairings,
            final(self).max_exchange_attempts == old(self).max_exchange_attempts,
            final(self)@.start_index =~= old(self)@.start_index.insert(digest@, id),
    {
        let ghost before = index_entries_of(self.start_index@);
        match self.find_start(&digest) {
            Some(i) => {
                let key = self.start_index[i].0;
                self.start_index.set(i, (key, id));
                proof {
                    lemma_update(before, i as int, id);
                    assert(index_entries_of(self.start_index@) =~= before.update(
                        i as int,
                        (before[i as int].0, id),
                    ));
                }
            },
            None => {
                proof {
                    assert(!has_key(before, digest@)) by {
                        if has_key(before, digest@) {
                            let p = choose|p: int| 0 <= p < before.len() && before[p].0 == digest@;
                            lemma_entry(before, p);
                        }
                    }
                    lemma_push(before, digest@, id);
                }
                self.start_index.push((digest, id));
                assert(index_entries_of(self.start_index@) =~= before.push((digest@, id)));
            },
        }
    }

    /// Creates a pairing with the given identifier and start token: sessions
    /// expired at `cleanup_now` are dropped, capacity is checked, and the new
    /// session expires `pairing_ttl_seconds` after `issued_now`.
    pub fn create_at(
        &mut self,
        cleanup_now: u64,
        issued_now: u64,
        session_id: u128,
        start_token: String,
        source: String,
        code_challenge: [u8; 32],
    ) -> (outcome: CreateOutcome)
        requires
            old(self).wf(),
        ensures
            final(self).wf(),
            bounded(final(self)@),
            final(self)@ == create_result(
                old(self)@,
                cleanup_now,
                issued_now,
                session_id,
                start_token@,
                source@,
                code_challenge@,
            ).0,
            outcome@ == create_result(
                old(self)@,
                cleanup_now,
                issued_now,
                session_id,
                start_token@,
                source@,
                code_challenge@,
            ).1,
    {
        let ghost start = self@;
        self.remove_expired(cleanup_now);
        proof {
            self.lemma_view_facts();
        }
        if self.sessions.len() >= self.max_active_pairings {
            return CreateOutcome::CapacityExceeded;
        }
        let digest = sha256_of_text(start_token.as_str());
        let expires_at = issued_now.saturating_add(self.pairing_ttl_seconds);
        let session = PairingSession {
            source,
            code_challenge,
            start_token_digest: digest,
            expires_at,
            approved_user_id: None,
            consumed: false,
            exchange_attempts: 0,
            last_exchange_at: None,
        };
        let ghost cleaned = self@;
        let ghost before_len = self.sessions@.len();
        self.put_session(session_id, session);
        self.put_start(digest, session_id);
        proof {
            self.lemma_view_facts();
            assert(self@.sessions.dom() =~= cleaned.sessions.dom().insert(session_id));
        }
        CreateOutcome::Created(
            CreatedPairing {
                session_id,
                start_token,
                expires_in: self.pairing_ttl_seconds,
                interval: self.poll_interval_seconds,
            },
        )
    }

    /// Approves, at `now`, the session whose start token is `start_token`, for
    /// Telegram user `user_id`.
    pub fn approve_at(&mut self, start_token: &str, user_id: i64, now: u64) -> (outcome:
        ApproveOutcome)
        requires
            old(self).wf(),
        ensures
            final(self).wf(),
            bounded(final(self)@),
            final(self)@ == approve_result(old(self)@, start_token@, user_id, now).0,
            outcome@ == approve_result(old(self)@, start_token@, user_id, now).1,
    {
        let ghost start = self@;
        proof {
            self.lemma_view_facts();
        }
        let digest = sha256_of_text(start_token);
        let position = match self.find_start(&digest) {
            Some(position) => position,
            None => {
                return ApproveOutcome::NotFound;
            },
        };
        let session_id = self.start_index[position].1;
        match self.find_session(session_id) {
            None => {
                self.forget_start(&digest);
                proof {
                    self.lemma_view_facts();
                }
                ApproveOutcome::NotFound
            },
            Some(i) => {
                if self.sessions[i].1.expires_at <= now {
                    self.drop_session_at(i);
                    self.forget_start(&digest);
                    proof {
                        self.lemma_view_facts();
                        vstd::set_lib::lemma_len_subset(self@.sessions.dom(), start.sessions.dom());
                    }
                    return ApproveOutcome::Expired;
                }
                if self.sessions[i].1.consumed {
                    return ApproveOutcome::Consumed;
                }
                match self.sessions[i].1.approved_user_id {
                    None => {
                        let mut session = self.copy_session(i);
                        let source = session.source.clone();
                        session.approved_user_id = Some(user_id);
                        self.replace_session_at(i, session);
                        proof {
                            self.lemma_view_facts();
                        }
                        ApproveOutcome::Approved(source)
                    },
                    Some(existing) => {
                        if existing == user_id {
                            ApproveOutcome::AlreadyApproved(self.sessions[i].1.source.clone())
                        } else {
                            ApproveOutcome::DifferentUser
                        }
                    },
                }
            },
        }
    }

    /// Exchanges `verifier` for session `session_id` at wall-clock `now`; the
    /// polling interval is measured at monotonic `check_at` and the attempt is
    /// recorded at monotonic `record_at`.
    pub fn exchange_at(
        &mut self,
        session_id: u128,
        verifier: &str,
        now: u64,
        check_at: u128,
        record_at: u128,
    ) -> (outcome: ExchangeOutcome)
        requires
            old(self).wf(),
        ensures
            final(self).wf(),
            bounded(final(self)@),
            final(self)@ == exchange_result(
                old(self)@,
                session_id,
                verifier@,
                now,
                check_at,
                record_at,
            ).0,
            outcome@ == exchange_result(
                old(self)@,
                session_id,
                verifier@,
                now,
                check_at,
                record_at,
            ).1,
    {
        let ghost start = self@;
        proof {
            self.lemma_view_facts();
        }
        let i = match self.find_session(session_id) {
            Some(i) => i,
            None => {
                return ExchangeOutcome::NotFound;
            },
        };
        if self.sessions[i].1.expires_at <= now {
            let digest = self.sessions[i].1.start_token_digest;
            self.drop_session_at(i);
            self.forget_start(&digest);
            proof {
                self.lemma_view_facts();
                vstd::set_lib::lemma_len_subset(self@.sessions.dom(), start.sessions.dom());
            }
            return ExchangeOutcome::Expired;
        }
        if self.sessions[i].1.consumed {
            return ExchangeOutcome::Consumed;
        }
        match self.sessions[i].1.last_exchange_at {
            Some(previous) => {
                let elapsed: u128 = if check_at >= previous {
                    check_at - previous
                } else {
                    0
                };
                let interval: u128 = (self.poll_interval_seconds as u128) * NANOS_PER_SECOND;
                if elapsed < interval {
                    return ExchangeOutcome::SlowDown;
                }
            },
            None => {},
        }
        let mut session = self.copy_session(i);
        session.last_exchange_at = Some(record_at);
        let candidate = sha256_of_text(verifier);
        if !constant_time_eq(&candidate, &session.code_challenge) {
            session.exchange_attempts = session.exchange_attempts.saturating_add(1);
            if session.exchange_attempts >= self.max_exchange_attempts {
                session.consumed = true;
                self.replace_session_at(i, session);
                proof {
                    self.lemma_view_facts();
                }
                return ExchangeOutcome::TooManyAttempts;
            }
            self.replace_session_at(i, session);
            proof {
                self.lemma_view_facts();
            }
            return ExchangeOutcome::InvalidVerifier;
        }
        match session.approved_user_id {
            None => {
                self.replace_session_at(i, session);
                proof {
                    self.lemma_view_facts();
                }
                ExchangeOutcome::Pending
            },
            Some(telegram_user_id) => {
                session.consumed = true;
                let digest = session.start_token_digest;
                let source = session.source.clone();
                self.replace_session_at(i, session);
                self.forget_start(&digest);
                proof {
                    self.lemma_view_facts();
                }
                ExchangeOutcome::Approved { telegram_user_id, source }
            },
        }
    }
}


/// The create step for some clock readings, session identifier and random
/// start-token bytes.
pub open spec fn created_with_some_token(
    s0: StoreState,
    s1: StoreState,
    outcome: CreateView,
    source: Seq<char>,
    challenge: Seq<u8>,
) -> bool {
    exists|cleanup_now: u64, issued_now: u64, id: u128, token_bytes: Seq<u8>|
        #![trigger create_result(s0, cleanup_now, issued_now, id, base64_url_encoded(token_bytes), source, challenge)]
        token_bytes.len() == START_TOKEN_BYTES && s1 == create_result(
            s0,
            cleanup_now,
            issued_now,
            id,
            base64_url_encoded(token_bytes),
            source,
            challenge,
        ).0 && outcome == create_result(
            s0,
            cleanup_now,
            issued_now,
            id,
            base64_url_encoded(token_bytes),
            source,
            challenge,
        ).1
}

/// Randomness was refused after the sessions expired at some time were
/// dropped and the capacity was found free: the store is the cleaned store.
pub open spec fn randomness_refused(s0: StoreState, s1: StoreState) -> bool {
    exists|cleanup_now: u64|
        #![trigger without_expired(s0, cleanup_now)]
        s1 == without_expired(s0, cleanup_now) && s1.sessions.dom().len() < s1.max_active_pairings
}

proof fn lemma_without_expired_twice(s: StoreState, now: u64)
    ensures
        without_expired(without_expired(s, now), now) == without_expired(s, now),
{
    let t = without_expired(s, now);
    let u = without_expired(t, now);
    assert(u.sessions =~= t.sessions);
    assert(u.start_index =~= t.start_index);
}

/// The approve step at some wall-clock time.
pub open spec fn approved_at_some_time(
    s0: StoreState,
    s1: StoreState,
    outcome: ApproveView,
    token: Seq<char>,
    user: i64,
) -> bool {
    exists|now: u64|
        #![trigger approve_result(s0, token, user, now)]
        s1 == approve_result(s0, token, user, now).0 && outcome == approve_result(
            s0,
            token,
            user,
            now,
        ).1
}

/// The exchange step at some clock readings.
pub open spec fn exchanged_at_some_time(
    s0: StoreState,
    s1: StoreState,
    outcome: ExchangeView,
    id: u128,
    verifier: Seq<char>,
) -> bool {
    exists|now: u64, check_at: u128, record_at: u128|
        #![trigger exchange_result(s0, id, verifier, now, check_at, record_at)]
        s1 == exchange_result(s0, id, verifier, now, check_at, record_at).0 && outcome
            == exchange_result(s0, id, verifier, now, check_at, record_at).1
}

/// A one-time start token: `bytes` random bytes in URL-safe base64; the
/// error where the operating system refuses randomness.
fn random_token(bytes: usize) -> (token: Result<(String, Ghost<Seq<u8>>), rand::Error>)
    ensures
        token matches Ok((text, raw)) ==> raw@.len() == bytes && text@ == base64_url_encoded(
            raw@,
        ),
{
    let value = random_bytes(bytes)?;
    let text = base64_url_encode(value.as_slice());
    Ok((text, Ghost(value@)))
}

/// Decodes a URL-safe, unpadded base64 SHA-256 challenge: `Some` exactly when
/// the text decodes to 32 bytes.
pub fn decode_challenge(value: &str) -> (challenge: Option<[u8; 32]>)
    ensures
        match challenge {
            Some(c) => base64_url_decoded(value@) == Some(c@),
            None => !(base64_url_decoded(value@) matches Some(b) && b.len() == 32),
        },
{
    let decoded = match base64_url_decode(value) {
        Ok(decoded) => decoded,
        Err(_) => {
            return None;
        },
    };
    if decoded.len() != 32 {
        return None;
    }
    let mut out = [0u8; 32];
    let mut i: usize = 0;
    while i < 32
        invariant
            0 <= i <= 32,
            decoded@.len() == 32,
            out@.len() == 32,
            forall|j: int| 0 <= j < i ==> out@[j] == decoded@[j],
        decreases 32 - i,
    {
        out[i] = decoded[i];
        i = i + 1;
    }
    assert(out@ =~= decoded@);
    Some(out)
}

impl PairingStore {
    /// Creates a pairing for `source` with the SHA-256 `code_challenge` of the
    /// CLI's verifier, under a fresh random session id and start token. Where
    /// the operating system refuses randomness, nothing is created.
    pub fn create(&mut self, source: String, code_challenge: [u8; 32]) -> (outcome: CreateOutcome)
        requires
            old(self).wf(),
        ensures
            final(self).wf(),
            bounded(final(self)@),
            created_with_some_token(old(self)@, final(self)@, outcome@, source@, code_challenge@)
                || (outcome@ == CreateView::RandomnessUnavailable && randomness_refused(
                old(self)@,
                final(self)@,
            )),
    {
        let ghost start = self@;
        let ghost source_view = source@;
        let cleanup_now = unix_now();
        self.remove_expired(cleanup_now);
        proof {
            self.lemma_view_facts();
            lemma_without_expired_twice(start, cleanup_now);
        }
        let ghost cleaned = self@;
        if self.sessions.len() >= self.max_active_pairings {
            proof {
                let zeros = Seq::new(START_TOKEN_BYTES as nat, |i: int| 0u8);
                let _ = create_result(
                    start,
                    cleanup_now,
                    cleanup_now,
                    0,
                    base64_url_encoded(zeros),
                    source_view,
                    code_challenge@,
                );
            }
            return CreateOutcome::CapacityExceeded;
        }
        let session_id = match random_uuid() {
            Ok(id) => id,
            Err(_) => {
                return CreateOutcome::RandomnessUnavailable;
            },
        };
        let (start_token, token_bytes) = match random_token(START_TOKEN_BYTES) {
            Ok(token) => token,
            Err(_) => {
                return CreateOutcome::RandomnessUnavailable;
            },
        };
        let issued_now = unix_now();
        let outcome = self.create_at(
            cleanup_now,
            issued_now,
            session_id,
            start_token,
            source,
            code_challenge,
        );
        assert(created_with_some_token(start, self@, outcome@, source_view, code_challenge@)) by {
            let _ = create_result(
                start,
                cleanup_now,
                issued_now,
                session_id,
                base64_url_encoded(token_bytes@),
                source_view,
                code_challenge@,
            );
        }
        outcome
    }

    /// Approves the pairing behind `start_token` for Telegram user `user_id`.
    pub fn approve(&mut self, start_token: &str, user_id: i64) -> (outcome: ApproveOutcome)
        requires
            old(self).wf(),
        ensures
            final(self).wf(),
            bounded(final(self)@),
            approved_at_some_time(old(self)@, final(self)@, outcome@, start_token@, user_id),
    {
        let ghost start = self@;
        let now = unix_now();
        let outcome = self.approve_at(start_token, user_id, now);
        assert(approved_at_some_time(start, self@, outcome@, start_token@, user_id)) by {
            let _ = approve_result(start, start_token@, user_id, now);
        }
        outcome
    }

    /// Exchanges the CLI's `verifier` for the approval of pairing `session_id`.
    pub fn exchange(&mut self, session_id: u128, verifier: &str) -> (outcome: ExchangeOutcome)
        requires
            old(self).wf(),
        ensures
            final(self).wf(),
            bounded(final(self)@),
            exchanged_at_some_time(old(self)@, final(self)@, outcome@, session_id, verifier@),
    {
        let ghost start = self@;
        let now = unix_now();
        let check_at = nanos_since(&self.clock_origin);
        let record_at = nanos_since(&self.clock_origin);
        let outcome = self.exchange_at(session_id, verifier, now, check_at, record_at);
        assert(exchanged_at_some_time(start, self@, outcome@, session_id, verifier@)) by {
            let _ = exchange_result(start, session_id, verifier@, now, check_at, record_at);
        }
        outcome
    }
}


// ---------------------------------------------------------------------------
// Laws
// ---------------------------------------------------------------------------

/// A pairing that has just been created is approved by the first approval of
/// its start token that comes before it expires, and the approval names the
/// source the pairing was created for.
pub proof fn law_created_pairing_is_approvable(
    s: StoreState,
    cleanup_now: u64,
    issued_now: u64,
    id: u128,
    token: Seq<char>,
    source: Seq<char>,
    challenge: Seq<u8>,
    user: i64,
    now: u64,
)
    requires
        create_result(s, cleanup_now, issued_now, id, token, source, challenge).1 is Created,
        now < issued_now.saturating_add(s.pairing_ttl_seconds),
    ensures
        ({
            let created = create_result(s, cleanup_now, issued_now, id, token, source, challenge).0;
            let approved = approve_result(created, token, user, now);
            &&& approved.1 == ApproveView::Approved(source)
            &&& approved.0.sessions[id].approved_user_id == Some(user)
        }),
{
}

/// Exchanging the right verifier before the pairing is approved answers
/// `Pending` and leaves the pairing unapproved and usable.
pub proof fn law_exchange_before_approval_is_pending(
    s: StoreState,
    id: u128,
    verifier: Seq<char>,
    now: u64,
    check_at: u128,
    record_at: u128,
)
    requires
        s.sessions.contains_key(id),
        s.sessions[id].expires_at > now,
        !s.sessions[id].consumed,
        s.sessions[id].approved_user_id is None,
        !throttled(s.sessions[id].last_exchange_at, check_at, s.poll_interval_seconds),
        sha256_utf8(verifier) == s.sessions[id].code_challenge,
    ensures
        ({
            let r = exchange_result(s, id, verifier, now, check_at, record_at);
            &&& r.1 == ExchangeView::Pending
            &&& r.0.sessions.contains_key(id)
            &&& r.0.sessions[id].approved_user_id is None
            &&& !r.0.sessions[id].consumed
            &&& r.0.start_index == s.start_index
        }),
{
}

/// Exchanging the right verifier after approval hands out the approving user
/// and the source, once: the pairing is consumed, a second exchange answers
/// `Consumed`, and its start token no longer finds it.
pub proof fn law_approved_exchange_happens_once(
    s: StoreState,
    id: u128,
    verifier: Seq<char>,
    token: Seq<char>,
    now: u64,
    check_at: u128,
    record_at: u128,
    later_verifier: Seq<char>,
    later_now: u64,
    later_check_at: u128,
    later_record_at: u128,
    user: i64,
    later_user: i64,
)
    requires
        s.sessions.contains_key(id),
        s.sessions[id].expires_at > now,
        s.sessions[id].expires_at > later_now,
        !s.sessions[id].consumed,
        s.sessions[id].approved_user_id == Some(user),
        !throttled(s.sessions[id].last_exchange_at, check_at, s.poll_interval_seconds),
        sha256_utf8(verifier) == s.sessions[id].code_challenge,
        sha256_utf8(token) == s.sessions[id].start_token_digest,
    ensures
        ({
            let first = exchange_result(s, id, verifier, now, check_at, record_at);
            let second = exchange_result(
                first.0,
                id,
                later_verifier,
                later_now,
                later_check_at,
                later_record_at,
            );
            let reapproval = approve_result(first.0, token, later_user, later_now);
            &&& first.1 == ExchangeView::Approved {
                telegram_user_id: user,
                source: s.sessions[id].source,
            }
            &&& first.0.sessions[id].consumed
            &&& second.1 == ExchangeView::Consumed
            &&& reapproval.1 == ApproveView::NotFound
        }),
{
}

/// A wrong verifier is counted; once the count reaches the limit the pairing
/// is locked, and afterwards even the right verifier is refused.
pub proof fn law_wrong_verifiers_are_bounded(
    s: StoreState,
    id: u128,
    verifier: Seq<char>,
    now: u64,
    check_at: u128,
    record_at: u128,
    later_verifier: Seq<char>,
    later_now: u64,
    later_check_at: u128,
    later_record_at: u128,
)
    requires
        s.sessions.contains_key(id),
        s.sessions[id].expires_at > now,
        s.sessions[id].expires_at > later_now,
        !s.sessions[id].consumed,
        !throttled(s.sessions[id].last_exchange_at, check_at, s.poll_interval_seconds),
        sha256_utf8(verifier) != s.sessions[id].code_challenge,
    ensures
        ({
            let r = exchange_result(s, id, verifier, now, check_at, record_at);
            let attempts = s.sessions[id].exchange_attempts.saturating_add(1);
            &&& r.0.sessions[id].exchange_attempts == attempts
            &&& r.0.sessions[id].approved_user_id == s.sessions[id].approved_user_id
            &&& (attempts >= s.max_exchange_attempts ==> r.1 == ExchangeView::TooManyAttempts
                && exchange_result(
                r.0,
                id,
                later_verifier,
                later_now,
                later_check_at,
                later_record_at,
            ).1 == ExchangeView::Consumed)
            &&& (attempts < s.max_exchange_attempts ==> r.1 == ExchangeView::InvalidVerifier
                && !r.0.sessions[id].consumed)
        }),
{
}

/// Polling faster than the interval is refused: after an exchange that was
/// recorded at `record_at`, an exchange measured less than the interval later
/// answers `SlowDown` and changes nothing.
pub proof fn law_polling_is_throttled(
    s: StoreState,
    id: u128,
    verifier: Seq<char>,
    now: u64,
    check_at: u128,
    record_at: u128,
    later_verifier: Seq<char>,
    later_now: u64,
    later_check_at: u128,
    later_record_at: u128,
)
    requires
        s.sessions.contains_key(id),
        s.sessions[id].expires_at > later_now,
        (exchange_result(s, id, verifier, now, check_at, record_at).1 is Pending || exchange_result(
            s,
            id,
            verifier,
            now,
            check_at,
            record_at,
        ).1 is InvalidVerifier),
        record_at <= later_check_at,
        later_check_at - record_at < s.poll_interval_seconds * NANOS_PER_SECOND,
    ensures
        ({
            let first = exchange_result(s, id, verifier, now, check_at, record_at);
            let second = exchange_result(
                first.0,
                id,
                later_verifier,
                later_now,
                later_check_at,
                later_record_at,
            );
            &&& second.1 == ExchangeView::SlowDown
            &&& second.0 == first.0
        }),
{
}

/// An expired pairing is refused and forgotten: the exchange answers
/// `Expired`, and the session and its start token are gone.
pub proof fn law_expired_pairing_is_removed(
    s: StoreState,
    id: u128,
    verifier: Seq<char>,
    now: u64,
    check_at: u128,
    record_at: u128,
    later_verifier: Seq<char>,
    later_now: u64,
    later_check_at: u128,
    later_record_at: u128,
)
    requires
        s.sessions.contains_key(id),
        s.sessions[id].expires_at <= now,
    ensures
        ({
            let r = exchange_result(s, id, verifier, now, check_at, record_at);
            &&& r.1 == ExchangeView::Expired
            &&& !r.0.sessions.contains_key(id)
            &&& !r.0.start_index.contains_key(s.sessions[id].start_token_digest)
            &&& exchange_result(r.0, id, later_verifier, later_now, later_check_at, later_record_at).1
                == ExchangeView::NotFound
        }),
{
}

/// Only the first account to approve a pairing owns it: another account is
/// answered `DifferentUser` and changes nothing, and the owner again is
/// answered `AlreadyApproved`.
pub proof fn law_approval_belongs_to_first_user(
    s: StoreState,
    token: Seq<char>,
    owner: i64,
    other: i64,
    now: u64,
)
    requires
        s.start_index.contains_key(sha256_utf8(token)),
        s.sessions.contains_key(s.start_index[sha256_utf8(token)]),
        s.sessions[s.start_index[sha256_utf8(token)]].expires_at > now,
        !s.sessions[s.start_index[sha256_utf8(token)]].consumed,
        s.sessions[s.start_index[sha256_utf8(token)]].approved_user_id == Some(owner),
        other != owner,
    ensures
        approve_result(s, token, other, now).1 == ApproveView::DifferentUser,
        approve_result(s, token, other, now).0 == s,
        approve_result(s, token, owner, now).1 == ApproveView::AlreadyApproved(
            s.sessions[s.start_index[sha256_utf8(token)]].source,
        ),
        approve_result(s, token, owner, now).0 == s,
{
}

/// Pairings are independent: an exchange touches only its own session, an
/// approval only the session its token names, and a creation keeps every
/// other unexpired session as it was.
pub proof fn law_pairings_are_independent(
    s: StoreState,
    id: u128,
    verifier: Seq<char>,
    now: u64,
    check_at: u128,
    record_at: u128,
    token: Seq<char>,
    user: i64,
    new_id: u128,
    new_token: Seq<char>,
    source: Seq<char>,
    challenge: Seq<u8>,
    issued_now: u64,
    other: u128,
)
    requires
        other != id,
        other != new_id,
        s.start_index.contains_key(sha256_utf8(token)) ==> other != s.start_index[sha256_utf8(token)],
    ensures
        ({
            let e = exchange_result(s, id, verifier, now, check_at, record_at).0;
            e.sessions.contains_key(other) == s.sessions.contains_key(other) && (
            s.sessions.contains_key(other) ==> e.sessions[other] == s.sessions[other])
        }),
        ({
            let a = approve_result(s, token, user, now).0;
            a.sessions.contains_key(other) == s.sessions.contains_key(other) && (
            s.sessions.contains_key(other) ==> a.sessions[other] == s.sessions[other])
        }),
        ({
            let c = create_result(s, now, issued_now, new_id, new_token, source, challenge).0;
            s.sessions.contains_key(other) && s.sessions[other].expires_at > now ==> (
            c.sessions.contains_key(other) && c.sessions[other] == s.sessions[other])
        }),
{
}


/// The store keeps no verifier: an exchange depends on the verifier only
/// through its SHA-256 digest, so two verifiers with the same digest have
/// the same effect and the same answer.
pub proof fn law_exchange_sees_only_the_verifier_digest(
    s: StoreState,
    id: u128,
    verifier: Seq<char>,
    other: Seq<char>,
    now: u64,
    check_at: u128,
    record_at: u128,
)
    requires
        sha256_utf8(verifier) == sha256_utf8(other),
    ensures
        exchange_result(s, id, verifier, now, check_at, record_at) == exchange_result(
            s,
            id,
            other,
            now,
            check_at,
            record_at,
        ),
{
}

/// One call on the store, with the clock readings and random values it met:
/// a create that made a session, a create refused for want of randomness
/// (after the expired sessions were dropped), an approval or an exchange.
pub enum StoreStep {
    Create {
        cleanup_now: u64,
        issued_now: u64,
        id: u128,
        token: Seq<char>,
        source: Seq<char>,
        challenge: Seq<u8>,
    },
    CreateRefused { cleanup_now: u64 },
    Approve { token: Seq<char>, user: i64, now: u64 },
    Exchange { id: u128, verifier: Seq<char>, now: u64, check_at: u128, record_at: u128 },
}

/// The store after one step.
pub open spec fn step_result(s: StoreState, step: StoreStep) -> StoreState {
    match step {
        StoreStep::Create { cleanup_now, issued_now, id, token, source, challenge } => create_result(
            s,
            cleanup_now,
            issued_now,
            id,
            token,
            source,
            challenge,
        ).0,
        StoreStep::CreateRefused { cleanup_now } => without_expired(s, cleanup_now),
        StoreStep::Approve { token, user, now } => approve_result(s, token, user, now).0,
        StoreStep::Exchange { id, verifier, now, check_at, record_at } => exchange_result(
            s,
            id,
            verifier,
            now,
            check_at,
            record_at,
        ).0,
    }
}

/// The store after the first `n` of `steps`.
pub open spec fn run_steps(s: StoreState, steps: Seq<StoreStep>, n: nat) -> StoreState
    decreases n,
{
    if n == 0 {
        s
    } else {
        step_result(run_steps(s, steps, (n - 1) as nat), steps[n - 1])
    }
}

/// Step `k` of `steps` exchanges a verifier for session `id` and is answered
/// `Approved`.
pub open spec fn approved_exchange_at(s: StoreState, steps: Seq<StoreStep>, k: nat, id: u128) -> bool {
    &&& steps[k as int] matches StoreStep::Exchange { id: e, verifier, now, check_at, record_at }
    &&& e == id
    &&& exchange_result(run_steps(s, steps, k), id, verifier, now, check_at, record_at).1 is Approved
}

/// The step creates a session under the identifier `id`.
pub open spec fn creates_id(step: StoreStep, id: u128) -> bool {
    step matches StoreStep::Create { id: c, .. } && c == id
}

/// Session `id` is gone or consumed.
pub open spec fn spent(s: StoreState, id: u128) -> bool {
    !s.sessions.contains_key(id) || s.sessions[id].consumed
}

proof fn lemma_step_keeps_spent(s: StoreState, step: StoreStep, id: u128)
    requires
        spent(s, id),
        !creates_id(step, id),
    ensures
        spent(step_result(s, step), id),
{
}

proof fn lemma_spent_after(s: StoreState, steps: Seq<StoreStep>, id: u128, i: nat, k: nat)
    requires
        i < k <= steps.len(),
        approved_exchange_at(s, steps, i, id),
        forall|m: int| i < m < k ==> !creates_id(#[trigger] steps[m], id),
    ensures
        spent(run_steps(s, steps, k), id),
    decreases k,
{
    if k > i + 1 {
        lemma_spent_after(s, steps, id, i, (k - 1) as nat);
        lemma_step_keeps_spent(run_steps(s, steps, (k - 1) as nat), steps[k - 1], id);
    }
}

/// Over any run of calls, a session's exchange is answered `Approved` at
/// most once: after an approved exchange of session `id`, no later exchange
/// of `id` is approved, unless a create in between made a new session under
/// that same identifier.
pub proof fn law_session_is_exchanged_at_most_once(
    s: StoreState,
    steps: Seq<StoreStep>,
    id: u128,
    first: nat,
    later: nat,
)
    requires
        first < later < steps.len(),
        approved_exchange_at(s, steps, first, id),
        forall|m: int| first < m < later ==> !creates_id(#[trigger] steps[m], id),
    ensures
        !approved_exchange_at(s, steps, later, id),
{
    lemma_spent_after(s, steps, id, first, later);
}

/// Step `m` of `steps` approves, for `user`, the session `id` that its start
/// token finds, and is answered `Approved`.
pub open spec fn approved_by_at(
    s: StoreState,
    steps: Seq<StoreStep>,
    m: nat,
    id: u128,
    user: i64,
) -> bool {
    &&& steps[m as int] matches StoreStep::Approve { token, user: by, now }
    &&& by == user
    &&& run_steps(s, steps, m).start_index.contains_key(sha256_utf8(token))
    &&& run_steps(s, steps, m).start_index[sha256_utf8(token)] == id
    &&& approve_result(run_steps(s, steps, m), token, user, now).1 is Approved
}

proof fn lemma_approval_has_a_source(s: StoreState, steps: Seq<StoreStep>, id: u128, user: i64, k: nat)
    requires
        k <= steps.len(),
        !(s.sessions.contains_key(id) && s.sessions[id].approved_user_id is Some),
        run_steps(s, steps, k).sessions.contains_key(id),
        run_steps(s, steps, k).sessions[id].approved_user_id == Some(user),
    ensures
        exists|m: nat| m < k && #[trigger] approved_by_at(s, steps, m, id, user),
    decreases k,
{
    if k > 0 {
        let t = run_steps(s, steps, (k - 1) as nat);
        let m = (k - 1) as nat;
        if t.sessions.contains_key(id) && t.sessions[id].approved_user_id == Some(user) {
            lemma_approval_has_a_source(s, steps, id, user, m);
            let w = choose|w: nat| w < m && #[trigger] approved_by_at(s, steps, w, id, user);
            assert(w < k && approved_by_at(s, steps, w, id, user));
        } else {
            assert(approved_by_at(s, steps, m, id, user));
        }
    }
}

/// Over any run of calls that starts with session `id` not approved, an
/// exchange of `id` answered `Approved` for a user comes after an approval
/// of that same session, through its start token, by that same user.
pub proof fn law_approved_exchange_follows_an_approval(
    s: StoreState,
    steps: Seq<StoreStep>,
    id: u128,
    k: nat,
)
    requires
        k < steps.len(),
        approved_exchange_at(s, steps, k, id),
        !(s.sessions.contains_key(id) && s.sessions[id].approved_user_id is Some),
    ensures
        exists|m: nat|
            m < k && #[trigger] approved_by_at(
                s,
                steps,
                m,
                id,
                run_steps(s, steps, k).sessions[id].approved_user_id.unwrap(),
            ),
        steps[k as int] matches StoreStep::Exchange { id: e, verifier, now, check_at, record_at }
            && exchange_result(run_steps(s, steps, k), id, verifier, now, check_at, record_at).1
            == (ExchangeView::Approved {
            telegram_user_id: run_steps(s, steps, k).sessions[id].approved_user_id.unwrap(),
            source: run_steps(s, steps, k).sessions[id].source,
        }),
{
    let t = run_steps(s, steps, k);
    lemma_approval_has_a_source(s, steps, id, t.sessions[id].approved_user_id.unwrap(), k);
}

/// Each entry of the start index leads to a session whose start token has
/// that digest.
pub open spec fn index_consistent(s: StoreState) -> bool {
    forall|d: Seq<u8>|
        #[trigger] s.start_index.contains_key(d) ==> s.sessions.contains_key(s.start_index[d])
            && s.sessions[s.start_index[d]].start_token_digest == d
}

/// Every call keeps the start index leading to the sessions of its tokens,
/// where a create's fresh identifier is not already taken.
pub proof fn law_steps_keep_the_index_consistent(s: StoreState, step: StoreStep)
    requires
        index_consistent(s),
        step matches StoreStep::Create { id, .. } ==> !s.sessions.contains_key(id),
    ensures
        index_consistent(step_result(s, step)),
{
    match step {
        StoreStep::Create { cleanup_now, .. } => {
            assert(index_consistent(without_expired(s, cleanup_now)));
        },
        StoreStep::CreateRefused { cleanup_now } => {
            assert(index_consistent(without_expired(s, cleanup_now)));
        },
        _ => {},
    }
}

/// Step `c` of `steps` creates session `id` for `source` with the verifier
/// challenge `challenge`, and the session is made.
pub open spec fn created_at(
    s: StoreState,
    steps: Seq<StoreStep>,
    c: nat,
    id: u128,
    source: Seq<char>,
    challenge: Seq<u8>,
) -> bool {
    &&& steps[c as int] matches StoreStep::Create {
        cleanup_now,
        issued_now,
        id: made,
        token,
        source: for_source,
        challenge: with_challenge,
    }
    &&& made == id
    &&& for_source == source
    &&& with_challenge == challenge
    &&& create_result(run_steps(s, steps, c), cleanup_now, issued_now, id, token, source, challenge).1 is Created
}

/// What step `m` of `steps` is answered, where it is an approval.
pub open spec fn approval_answer_at(s: StoreState, steps: Seq<StoreStep>, m: nat) -> Option<ApproveView> {
    match steps[m as int] {
        StoreStep::Approve { token, user, now } => Some(
            approve_result(run_steps(s, steps, m), token, user, now).1,
        ),
        _ => None,
    }
}

proof fn lemma_session_from_create(s: StoreState, steps: Seq<StoreStep>, id: u128, k: nat)
    requires
        k <= steps.len(),
        !s.sessions.contains_key(id),
        run_steps(s, steps, k).sessions.contains_key(id),
    ensures
        exists|c: nat|
            c < k && #[trigger] created_at(
                s,
                steps,
                c,
                id,
                run_steps(s, steps, k).sessions[id].source,
                run_steps(s, steps, k).sessions[id].code_challenge,
            ),
    decreases k,
{
    let t = run_steps(s, steps, (k - 1) as nat);
    let x = run_steps(s, steps, k).sessions[id];
    let m = (k - 1) as nat;
    if created_at(s, steps, m, id, x.source, x.code_challenge) {
    } else {
        assert(t.sessions.contains_key(id) && t.sessions[id].source == x.source
            && t.sessions[id].code_challenge == x.code_challenge);
        lemma_session_from_create(s, steps, id, m);
        let c = choose|c: nat|
            c < m && #[trigger] created_at(s, steps, c, id, x.source, x.code_challenge);
        assert(c < k && created_at(s, steps, c, id, x.source, x.code_challenge));
    }
}

/// The pairing contract over a whole run of calls, for a session `id` that the
/// run creates once: an exchange of `id` answered `Approved` hands out the
/// source the session was created for, only for the verifier whose SHA-256
/// digest is the challenge it was created with, and for the user whose
/// approval, through the session's start token and after its creation, was
/// answered `Approved` with that same source.
pub proof fn law_approved_exchange_keeps_the_pairing_contract(
    s: StoreState,
    steps: Seq<StoreStep>,
    id: u128,
    k: nat,
)
    requires
        k < steps.len(),
        approved_exchange_at(s, steps, k, id),
        !s.sessions.contains_key(id),
        forall|a: int, b: int|
            #![trigger steps[a], steps[b]]
            0 <= a < b < steps.len() ==> !(creates_id(steps[a], id) && creates_id(steps[b], id)),
    ensures
        ({
            let x = run_steps(s, steps, k).sessions[id];
            let user = x.approved_user_id.unwrap();
            &&& steps[k as int] matches StoreStep::Exchange { verifier, now, check_at, record_at, .. }
                && sha256_utf8(verifier) == x.code_challenge && exchange_result(
                run_steps(s, steps, k),
                id,
                verifier,
                now,
                check_at,
                record_at,
            ).1 == (ExchangeView::Approved { telegram_user_id: user, source: x.source })
            &&& exists|c: nat, m: nat|
                #![trigger created_at(s, steps, c, id, x.source, x.code_challenge), approved_by_at(s, steps, m, id, user)]
                c < m < k && created_at(s, steps, c, id, x.source, x.code_challenge)
                    && approved_by_at(s, steps, m, id, user) && approval_answer_at(s, steps, m)
                    == Some(ApproveView::Approved(x.source))
        }),
{
    let t = run_steps(s, steps, k);
    let x = t.sessions[id];
    let user = x.approved_user_id.unwrap();
    lemma_session_from_create(s, steps, id, k);
    let c = choose|c: nat| c < k && #[trigger] created_at(s, steps, c, id, x.source, x.code_challenge);
    lemma_approval_has_a_source(s, steps, id, user, k);
    let m = choose|m: nat| m < k && #[trigger] approved_by_at(s, steps, m, id, user);
    let tm = run_steps(s, steps, m);
    assert(tm.sessions.contains_key(id));
    lemma_session_from_create(s, steps, id, m);
    let c2 = choose|c2: nat|
        c2 < m && #[trigger] created_at(
            s,
            steps,
            c2,
            id,
            tm.sessions[id].source,
            tm.sessions[id].code_challenge,
        );
    assert(creates_id(steps[c as int], id));
    assert(creates_id(steps[c2 as int], id));
    if c2 < c {
        assert(!(creates_id(steps[c2 as int], id) && creates_id(steps[c as int], id)));
    } else if c < c2 {
        assert(!(creates_id(steps[c as int], id) && creates_id(steps[c2 as int], id)));
    }
    assert(c == c2);
    assert(approval_answer_at(s, steps, m) == Some(ApproveView::Approved(x.source)));
}

/// A poll measured at least the polling interval after the last recorded
/// exchange is not throttled; one measured sooner is.
pub proof fn law_throttle_is_the_interval_since_the_last_exchange(
    previous: u128,
    at: u128,
    interval_seconds: u64,
)
    requires
        previous <= at,
    ensures
        throttled(Some(previous), at, interval_seconds) <==> at - previous < interval_seconds
            * NANOS_PER_SECOND,
        !throttled(None, at, interval_seconds),
{
}

/// An approved, unexpired, unconsumed pairing polled with its verifier once
/// the interval since the last recorded exchange has passed answers
/// `Approved` with the approving user and the session's source.
pub proof fn law_poll_after_the_interval_is_answered(
    s: StoreState,
    id: u128,
    verifier: Seq<char>,
    now: u64,
    check_at: u128,
    record_at: u128,
    user: i64,
)
    requires
        s.sessions.contains_key(id),
        s.sessions[id].expires_at > now,
        !s.sessions[id].consumed,
        s.sessions[id].approved_user_id == Some(user),
        sha256_utf8(verifier) == s.sessions[id].code_challenge,
        s.sessions[id].last_exchange_at matches Some(p) ==> p <= check_at && check_at - p
            >= s.poll_interval_seconds * NANOS_PER_SECOND,
    ensures
        exchange_result(s, id, verifier, now, check_at, record_at).1 == (ExchangeView::Approved {
            telegram_user_id: user,
            source: s.sessions[id].source,
        }),
{
}

/// A CLI that polled before approval, was approved through the session's
/// start token, and polls again with its verifier once the interval has
/// passed, gets the approval.
pub proof fn law_polling_reaches_the_approval(
    s: StoreState,
    id: u128,
    verifier: Seq<char>,
    token: Seq<char>,
    user: i64,
    now: u64,
    check_at: u128,
    record_at: u128,
    approve_now: u64,
    later_now: u64,
    later_check_at: u128,
    later_record_at: u128,
)
    requires
        exchange_result(s, id, verifier, now, check_at, record_at).1 is Pending,
        s.start_index.contains_key(sha256_utf8(token)),
        s.start_index[sha256_utf8(token)] == id,
        s.sessions.contains_key(id),
        s.sessions[id].expires_at > approve_now,
        s.sessions[id].expires_at > later_now,
        record_at <= later_check_at,
        later_check_at - record_at >= s.poll_interval_seconds * NANOS_PER_SECOND,
    ensures
        ({
            let first = exchange_result(s, id, verifier, now, check_at, record_at);
            let approval = approve_result(first.0, token, user, approve_now);
            let second = exchange_result(
                approval.0,
                id,
                verifier,
                later_now,
                later_check_at,
                later_record_at,
            );
            &&& approval.1 == ApproveView::Approved(s.sessions[id].source)
            &&& second.1 == (ExchangeView::Approved {
                telegram_user_id: user,
                source: s.sessions[id].source,
            })
        }),
{
}

/// A created session is answered with its own identifier and start token,
/// the store's pairing lifetime as its `expires_in` and the store's polling
/// interval as its `interval`.
pub proof fn law_created_session_reports_the_policy(
    s: StoreState,
    cleanup_now: u64,
    issued_now: u64,
    id: u128,
    token: Seq<char>,
    source: Seq<char>,
    challenge: Seq<u8>,
)
    ensures
        create_result(s, cleanup_now, issued_now, id, token, source, challenge).1 is Created
            ==> create_result(s, cleanup_now, issued_now, id, token, source, challenge).1 == (
        CreateView::Created {
            session_id: id,
            start_token: token,
            expires_in: s.pairing_ttl_seconds,
            interval: s.poll_interval_seconds,
        }),
{
}

} // verus!
