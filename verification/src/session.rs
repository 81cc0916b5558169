use vstd::prelude::*;

use crate::clock::now;
use crate::error::VaultError;
use crate::text::same_text;

verus! {

/// The one persisted record of the session: the instant, in seconds since the
/// Unix epoch, until which the vault is open. Its absence means that no
/// session exists.
#[derive(Clone, Copy, Debug, PartialEq, Eq, Structural)]
pub struct SessionStore {
    pub expiry: Option<i64>,
}

/// The state of the session at some instant.
#[derive(Clone, Copy, Debug, PartialEq, Eq, Structural)]
pub enum SessionState {
    /// No expiry is persisted.
    NoSession,
    /// The expiry lies ahead; `remaining` is the number of seconds until it.
    Active { expiry: i64, remaining: u64 },
    /// The expiry has been reached.
    Expired { expiry: i64 },
}

/// Seconds in a minute.
pub const SECONDS_PER_MINUTE: i64 = 60;

/// The shortest time to live of a session, in minutes.
pub const MIN_TTL_MINUTES: i64 = 1;

/// A time to live, raised to the minimum where it is below it. There is no
/// maximum.
pub open spec fn clamped_ttl(ttl_minutes: int) -> int {
    if ttl_minutes < MIN_TTL_MINUTES {
        MIN_TTL_MINUTES as int
    } else {
        ttl_minutes
    }
}

/// The expiry of a session that starts at `now` and lives `ttl_minutes`:
/// `now` plus sixty seconds for each minute, and the last instant that a
/// timestamp can hold where the sum lies beyond it.
pub open spec fn expiry_after(now: int, ttl_minutes: int) -> int {
    let expiry = now + clamped_ttl(ttl_minutes) * SECONDS_PER_MINUTE;
    if expiry > i64::MAX {
        i64::MAX as int
    } else {
        expiry
    }
}

/// The state at `now` of a session with the given persisted expiry.
pub open spec fn state_at(expiry: Option<i64>, now: int) -> SessionState {
    match expiry {
        None => SessionState::NoSession,
        Some(e) => if now >= e {
            SessionState::Expired { expiry: e }
        } else {
            SessionState::Active { expiry: e, remaining: (e - now) as u64 }
        },
    }
}

/// What the guard in front of every vault operation answers in a state: it
/// lets an active session pass and fails closed otherwise.
pub open spec fn admission(state: SessionState) -> Result<(), VaultError> {
    match state {
        SessionState::NoSession => Err(VaultError::Unauthenticated),
        SessionState::Expired { .. } => Err(VaultError::SessionExpired),
        SessionState::Active { .. } => Ok(()),
    }
}

impl SessionStore {
    /// The record of a vault that nobody has opened.
    pub fn new() -> (store: SessionStore)
        ensures
            store.expiry is None,
    {
        SessionStore { expiry: None }
    }
}

/// Starts a session at `now` that lives `ttl_minutes`, replacing any earlier
/// one.
pub fn start_session_at(store: &mut SessionStore, ttl_minutes: i64, now: i64)
    ensures
        final(store).expiry == Some(expiry_after(now as int, ttl_minutes as int) as i64),
{
    let ttl: i128 = if ttl_minutes < MIN_TTL_MINUTES {
        MIN_TTL_MINUTES as i128
    } else {
        ttl_minutes as i128
    };
    let expiry: i128 = now as i128 + ttl * (SECONDS_PER_MINUTE as i128);
    if expiry > i64::MAX as i128 {
        store.expiry = Some(i64::MAX);
    } else {
        store.expiry = Some(expiry as i64);
    }
}

/// Opens the vault at `now` for `ttl_minutes`, if the supplied secret is the
/// configured one.
///
/// Fails with `MissingSecret` when no secret is configured, and with
/// `AuthenticationFailed` when the supplied secret differs from it; the
/// session is then left as it was. The comparison takes no care to run in
/// constant time.
pub fn authenticate_at(
    store: &mut SessionStore,
    supplied: &str,
    expected: Option<&str>,
    ttl_minutes: i64,
    now: i64,
) -> (r: Result<(), VaultError>)
    ensures
        match expected {
            None => r == Err::<(), VaultError>(VaultError::MissingSecret) && *final(store) == *old(
                store,
            ),
            Some(secret) => if secret@ == supplied@ {
                r is Ok && final(store).expiry == Some(
                    expiry_after(now as int, ttl_minutes as int) as i64,
                )
            } else {
                r == Err::<(), VaultError>(VaultError::AuthenticationFailed) && *final(store)
                    == *old(store)
            },
        },
{
    match expected {
        None => Err(VaultError::MissingSecret),
        Some(secret) => {
            if same_text(supplied, secret) {
                start_session_at(store, ttl_minutes, now);
                Ok(())
            } else {
                Err(VaultError::AuthenticationFailed)
            }
        },
    }
}

/// The state of the session at `now`: no session where no expiry is
/// persisted, expired from the expiry on, and active before it, with the
/// seconds that remain.
pub fn session_status_at(store: &SessionStore, now: i64) -> (state: SessionState)
    ensures
        state == state_at(store.expiry, now as int),
{
    match store.expiry {
        None => SessionState::NoSession,
        Some(expiry) => {
            if now >= expiry {
                SessionState::Expired { expiry }
            } else {
                let remaining: i128 = expiry as i128 - now as i128;
                SessionState::Active { expiry, remaining: remaining as u64 }
            }
        },
    }
}

/// The guard in front of every operation that reads or changes the vault, at
/// `now`: it passes an active session, and fails with `Unauthenticated` where
/// no session exists and with `SessionExpired` from the expiry on.
pub fn ensure_authenticated_at(store: &SessionStore, now: i64) -> (r: Result<(), VaultError>)
    ensures
        r == admission(state_at(store.expiry, now as int)),
{
    match session_status_at(store, now) {
        SessionState::NoSession => Err(VaultError::Unauthenticated),
        SessionState::Expired { .. } => Err(VaultError::SessionExpired),
        SessionState::Active { .. } => Ok(()),
    }
}

/// Ends the session, whether or not one exists.
pub fn end_session(store: &mut SessionStore)
    ensures
        final(store).expiry is None,
{
    store.expiry = None;
}

/// Opens the vault for `ttl_minutes` from the present instant, if the
/// supplied secret is the configured one. See `authenticate_at`.
pub fn authenticate(
    store: &mut SessionStore,
    supplied: &str,
    expected: Option<&str>,
    ttl_minutes: i64,
) -> (r: Result<(), VaultError>)
    ensures
        match expected {
            None => r == Err::<(), VaultError>(VaultError::MissingSecret) && *final(store) == *old(
                store,
            ),
            Some(secret) => if secret@ == supplied@ {
                r is Ok && exists|now: i64|
                    final(store).expiry == Some(
                        #[trigger] expiry_after(now as int, ttl_minutes as int) as i64,
                    )
            } else {
                r == Err::<(), VaultError>(VaultError::AuthenticationFailed) && *final(store)
                    == *old(store)
            },
        },
{
    let (now, _) = now();
    authenticate_at(store, supplied, expected, ttl_minutes, now)
}

/// Starts a session at the present instant that lives `ttl_minutes`.
pub fn start_session(store: &mut SessionStore, ttl_minutes: i64)
    ensures
        exists|now: i64|
            final(store).expiry == Some(
                #[trigger] expiry_after(now as int, ttl_minutes as int) as i64,
            ),
{
    let (now, _) = now();
    start_session_at(store, ttl_minutes, now);
}

/// The state of the session at the present instant. Where no expiry is
/// persisted the state is `NoSession`, whatever the clock says.
pub fn session_status(store: &SessionStore) -> (state: SessionState)
    ensures
        exists|now: i64| state == #[trigger] state_at(store.expiry, now as int),
        store.expiry is None <==> state is NoSession,
{
    let (now, _) = now();
    session_status_at(store, now)
}

/// The guard in front of every operation that reads or changes the vault, at
/// the present instant. Where no expiry is persisted it fails with
/// `Unauthenticated`, whatever the clock says; it never passes a vault
/// without a session.
pub fn ensure_authenticated(store: &SessionStore) -> (r: Result<(), VaultError>)
    ensures
        exists|now: i64| r == admission(#[trigger] state_at(store.expiry, now as int)),
        store.expiry is None <==> r == Err::<(), VaultError>(VaultError::Unauthenticated),
{
    let (now, _) = now();
    ensure_authenticated_at(store, now)
}

/// A session that starts at `start` with a time to live of `ttl_minutes`
/// expires sixty seconds after `start` for each minute, one minute at least
/// (and at the last instant that a timestamp can hold, where that lies
/// earlier). At every instant before its expiry it is active, with the
/// seconds up to the expiry remaining, and passes the guard; from its
/// expiry on it is expired and is refused. While it is active, a later
/// instant has fewer seconds remaining.
pub proof fn lemma_session_lives_its_ttl(start: i64, ttl_minutes: i64, now: i64, later: i64)
    ensures
        ({
            let expiry = expiry_after(start as int, ttl_minutes as int);
            let opened = Some(expiry as i64);
            &&& start <= expiry <= i64::MAX
            &&& start + clamped_ttl(ttl_minutes as int) * SECONDS_PER_MINUTE <= i64::MAX ==> expiry
                == start + clamped_ttl(ttl_minutes as int) * SECONDS_PER_MINUTE
            &&& now < expiry ==> state_at(opened, now as int) == (SessionState::Active {
                expiry: expiry as i64,
                remaining: (expiry - now) as u64,
            }) && admission(state_at(opened, now as int)) is Ok
            &&& now >= expiry ==> state_at(opened, now as int) == (SessionState::Expired {
                expiry: expiry as i64,
            }) && admission(state_at(opened, now as int)) == Err::<(), VaultError>(
                VaultError::SessionExpired,
            )
            &&& now < later < expiry ==> state_at(opened, later as int)->remaining < state_at(
                opened,
                now as int,
            )->remaining
        }),
{
}

} // verus!
