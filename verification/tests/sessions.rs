use tsupasswd::error::VaultError;
use tsupasswd::session::{
    authenticate, authenticate_at, end_session, ensure_authenticated, ensure_authenticated_at,
    session_status, session_status_at, start_session, start_session_at, SessionState,
    SessionStore,
};

const SECRET: &str = "test-secret-123";

#[test]
fn no_session_is_unauthenticated() {
    let store = SessionStore::new();
    assert_eq!(store.expiry, None);
    assert_eq!(session_status_at(&store, 1_000), SessionState::NoSession);
    assert_eq!(ensure_authenticated_at(&store, 1_000), Err(VaultError::Unauthenticated));
    assert_eq!(session_status(&store), SessionState::NoSession);
    assert_eq!(ensure_authenticated(&store), Err(VaultError::Unauthenticated));
}

#[test]
fn session_lives_one_minute() {
    let mut store = SessionStore::new();
    assert_eq!(authenticate_at(&mut store, SECRET, Some(SECRET), 1, 1_000), Ok(()));
    assert_eq!(store.expiry, Some(1_060));
    assert_eq!(
        session_status_at(&store, 1_000),
        SessionState::Active { expiry: 1_060, remaining: 60 }
    );
    assert_eq!(
        session_status_at(&store, 1_030),
        SessionState::Active { expiry: 1_060, remaining: 30 }
    );
    assert_eq!(
        session_status_at(&store, 1_059),
        SessionState::Active { expiry: 1_060, remaining: 1 }
    );
    assert_eq!(ensure_authenticated_at(&store, 1_059), Ok(()));
    assert_eq!(session_status_at(&store, 1_060), SessionState::Expired { expiry: 1_060 });
    assert_eq!(session_status_at(&store, 1_061), SessionState::Expired { expiry: 1_060 });
    assert_eq!(ensure_authenticated_at(&store, 1_060), Err(VaultError::SessionExpired));
    assert_eq!(ensure_authenticated_at(&store, 5_000), Err(VaultError::SessionExpired));
}

#[test]
fn time_to_live_is_at_least_one_minute_and_has_no_maximum() {
    let mut store = SessionStore::new();
    start_session_at(&mut store, 0, 100);
    assert_eq!(store.expiry, Some(160));
    start_session_at(&mut store, -5, 100);
    assert_eq!(store.expiry, Some(160));
    start_session_at(&mut store, 30, 100);
    assert_eq!(store.expiry, Some(1_900));
    start_session_at(&mut store, 1_000_000_000, 100);
    assert_eq!(store.expiry, Some(60_000_000_100));
    start_session_at(&mut store, i64::MAX, 100);
    assert_eq!(store.expiry, Some(i64::MAX));
    start_session_at(&mut store, 1, i64::MAX);
    assert_eq!(store.expiry, Some(i64::MAX));
    start_session_at(&mut store, 1, -100);
    assert_eq!(store.expiry, Some(-40));
}

#[test]
fn remaining_seconds_never_overflow() {
    let store = SessionStore { expiry: Some(i64::MAX) };
    assert_eq!(
        session_status_at(&store, i64::MIN),
        SessionState::Active { expiry: i64::MAX, remaining: u64::MAX }
    );
}

#[test]
fn wrong_secret_leaves_the_session_as_it_was() {
    let mut store = SessionStore::new();
    assert_eq!(
        authenticate_at(&mut store, "wrong", Some(SECRET), 5, 1_000),
        Err(VaultError::AuthenticationFailed)
    );
    assert_eq!(store.expiry, None);
    assert_eq!(authenticate_at(&mut store, SECRET, Some(SECRET), 5, 1_000), Ok(()));
    assert_eq!(store.expiry, Some(1_300));
    assert_eq!(
        authenticate_at(&mut store, "wrong", Some(SECRET), 50, 2_000),
        Err(VaultError::AuthenticationFailed)
    );
    assert_eq!(store.expiry, Some(1_300));
}

#[test]
fn authentication_needs_a_configured_secret() {
    let mut store = SessionStore::new();
    assert_eq!(
        authenticate_at(&mut store, SECRET, None, 5, 1_000),
        Err(VaultError::MissingSecret)
    );
    assert_eq!(store.expiry, None);
    assert_eq!(authenticate(&mut store, SECRET, None, 5), Err(VaultError::MissingSecret));
}

#[test]
fn ending_a_session_is_idempotent() {
    let mut store = SessionStore::new();
    end_session(&mut store);
    assert_eq!(store.expiry, None);
    start_session_at(&mut store, 5, 1_000);
    end_session(&mut store);
    assert_eq!(store.expiry, None);
    end_session(&mut store);
    assert_eq!(store.expiry, None);
    assert_eq!(ensure_authenticated_at(&store, 1_001), Err(VaultError::Unauthenticated));
}

#[test]
fn session_opened_now_is_active_now() {
    let mut store = SessionStore::new();
    assert_eq!(authenticate(&mut store, SECRET, Some(SECRET), 5), Ok(()));
    assert_eq!(ensure_authenticated(&store), Ok(()));
    match session_status(&store) {
        SessionState::Active { remaining, .. } => assert!(remaining > 290 && remaining <= 300),
        other => panic!("expected an active session, got {:?}", other),
    }
    start_session(&mut store, 1);
    match session_status(&store) {
        SessionState::Active { remaining, .. } => assert!(remaining > 50 && remaining <= 60),
        other => panic!("expected an active session, got {:?}", other),
    }
    let past = SessionStore { expiry: Some(1) };
    assert_eq!(ensure_authenticated(&past), Err(VaultError::SessionExpired));
    assert_eq!(session_status(&past), SessionState::Expired { expiry: 1 });
}
