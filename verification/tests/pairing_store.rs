use base64::engine::general_purpose::URL_SAFE_NO_PAD;
use base64::Engine;
use infrabot::store::{
    decode_challenge, ApproveOutcome, CreateOutcome, ExchangeOutcome, PairingStore,
};
use rand::RngCore;
use sha2::{Digest, Sha256};

fn verifier_and_challenge() -> (String, [u8; 32]) {
    let mut bytes = [0_u8; 32];
    rand::rngs::OsRng.fill_bytes(&mut bytes);
    let verifier = URL_SAFE_NO_PAD.encode(bytes);
    let challenge: [u8; 32] = Sha256::digest(verifier.as_bytes()).into();
    (verifier, challenge)
}

#[test]
fn exchanges_only_after_approval() {
    let (verifier, challenge) = verifier_and_challenge();
    let mut store = PairingStore::new(300, 0, 10, 5);
    let CreateOutcome::Created(created) = store.create("primary".into(), challenge) else {
        panic!("pairing was not created");
    };

    assert_eq!(store.exchange(created.session_id, &verifier), ExchangeOutcome::Pending);
    assert_eq!(
        store.approve(&created.start_token, 42),
        ApproveOutcome::Approved("primary".into())
    );
    assert_eq!(
        store.exchange(created.session_id, &verifier),
        ExchangeOutcome::Approved { telegram_user_id: 42, source: "primary".into() }
    );
    assert_eq!(store.exchange(created.session_id, &verifier), ExchangeOutcome::Consumed);
}

#[test]
fn independent_sources_do_not_replace_each_other() {
    let (first_verifier, first_challenge) = verifier_and_challenge();
    let (second_verifier, second_challenge) = verifier_and_challenge();
    let mut store = PairingStore::new(300, 0, 10, 5);
    let CreateOutcome::Created(first) = store.create("primary".into(), first_challenge) else {
        panic!("first pairing was not created");
    };
    let CreateOutcome::Created(second) = store.create("secondary".into(), second_challenge) else {
        panic!("second pairing was not created");
    };

    assert!(matches!(
        store.approve(&first.start_token, 42),
        ApproveOutcome::Approved(source) if source == "primary"
    ));
    assert!(matches!(
        store.approve(&second.start_token, 42),
        ApproveOutcome::Approved(source) if source == "secondary"
    ));
    assert!(matches!(
        store.exchange(first.session_id, &first_verifier),
        ExchangeOutcome::Approved { source, .. } if source == "primary"
    ));
    assert!(matches!(
        store.exchange(second.session_id, &second_verifier),
        ExchangeOutcome::Approved { source, .. } if source == "secondary"
    ));
}

#[test]
fn rejects_wrong_verifier() {
    let (_, challenge) = verifier_and_challenge();
    let mut store = PairingStore::new(300, 0, 10, 5);
    let CreateOutcome::Created(created) = store.create("primary".into(), challenge) else {
        panic!("pairing was not created");
    };

    assert_eq!(store.exchange(created.session_id, "wrong"), ExchangeOutcome::InvalidVerifier);
}

#[test]
fn decodes_sha256_challenge() {
    let challenge = URL_SAFE_NO_PAD.encode([7_u8; 32]);
    assert_eq!(decode_challenge(&challenge), Some([7_u8; 32]));
    assert!(decode_challenge("invalid").is_none());
}

#[test]
fn challenge_of_other_length_is_refused() {
    let short = URL_SAFE_NO_PAD.encode([7_u8; 31]);
    assert_eq!(decode_challenge(&short), None);
}

#[test]
fn created_pairing_reports_policy() {
    let (_, challenge) = verifier_and_challenge();
    let mut store = PairingStore::new(300, 2, 10, 5);
    let CreateOutcome::Created(created) = store.create("primary".into(), challenge) else {
        panic!("pairing was not created");
    };
    assert_eq!(created.expires_in, 300);
    assert_eq!(created.interval, 2);
    assert_eq!(URL_SAFE_NO_PAD.decode(&created.start_token).unwrap().len(), 24);
}

#[test]
fn capacity_is_bounded() {
    let mut store = PairingStore::new(300, 0, 1, 5);
    let (_, first) = verifier_and_challenge();
    let (_, second) = verifier_and_challenge();
    assert!(matches!(store.create("primary".into(), first), CreateOutcome::Created(_)));
    assert_eq!(store.create("primary".into(), second), CreateOutcome::CapacityExceeded);
}

#[test]
fn wrong_verifiers_lock_the_pairing() {
    let (verifier, challenge) = verifier_and_challenge();
    let mut store = PairingStore::new(300, 0, 10, 3);
    let CreateOutcome::Created(created) = store.create("primary".into(), challenge) else {
        panic!("pairing was not created");
    };
    assert_eq!(store.exchange(created.session_id, "wrong"), ExchangeOutcome::InvalidVerifier);
    assert_eq!(store.exchange(created.session_id, "wrong"), ExchangeOutcome::InvalidVerifier);
    assert_eq!(store.exchange(created.session_id, "wrong"), ExchangeOutcome::TooManyAttempts);
    assert_eq!(store.exchange(created.session_id, &verifier), ExchangeOutcome::Consumed);
}

#[test]
fn polling_too_fast_is_slowed_down() {
    let (verifier, challenge) = verifier_and_challenge();
    let mut store = PairingStore::new(300, 60, 10, 5);
    let CreateOutcome::Created(created) = store.create("primary".into(), challenge) else {
        panic!("pairing was not created");
    };
    assert_eq!(store.exchange(created.session_id, &verifier), ExchangeOutcome::Pending);
    assert_eq!(store.exchange(created.session_id, &verifier), ExchangeOutcome::SlowDown);
}

#[test]
fn approval_belongs_to_the_first_user() {
    let (_, challenge) = verifier_and_challenge();
    let mut store = PairingStore::new(300, 0, 10, 5);
    let CreateOutcome::Created(created) = store.create("primary".into(), challenge) else {
        panic!("pairing was not created");
    };
    assert_eq!(store.approve(&created.start_token, 42), ApproveOutcome::Approved("primary".into()));
    assert_eq!(
        store.approve(&created.start_token, 42),
        ApproveOutcome::AlreadyApproved("primary".into())
    );
    assert_eq!(store.approve(&created.start_token, 7), ApproveOutcome::DifferentUser);
}

#[test]
fn unknown_tokens_and_sessions_are_not_found() {
    let mut store = PairingStore::new(300, 0, 10, 5);
    assert_eq!(store.approve("nothing", 42), ApproveOutcome::NotFound);
    assert_eq!(store.exchange(7, "verifier"), ExchangeOutcome::NotFound);
}

#[test]
fn at_variants_follow_the_given_clock() {
    let (verifier, challenge) = verifier_and_challenge();
    let mut store = PairingStore::new(300, 0, 10, 5);
    let outcome = store.create_at(1_000, 1_000, 9, "token".to_string(), "primary".into(), challenge);
    assert_eq!(
        outcome,
        CreateOutcome::Created(infrabot::store::CreatedPairing {
            session_id: 9,
            start_token: "token".to_string(),
            expires_in: 300,
            interval: 0,
        })
    );
    assert_eq!(store.approve_at("token", 42, 1_300), ApproveOutcome::Expired);
    assert_eq!(store.exchange_at(9, &verifier, 1_300, 0, 0), ExchangeOutcome::NotFound);
}
