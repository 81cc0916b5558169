use chrono::{DateTime, Utc};
use tsupasswd::clock::{created_now, instant_of, timestamp_text};
use tsupasswd::error::VaultError;
use tsupasswd::ident::{draw_seed, seed_from};

#[test]
fn epoch_is_written_as_rfc3339_in_utc() {
    assert_eq!(timestamp_text(0, 0).unwrap(), "1970-01-01T00:00:00+00:00");
}

#[test]
fn timestamp_text_writes_the_fraction_of_the_second() {
    assert_eq!(
        timestamp_text(1_700_000_000, 123_000_000).unwrap(),
        "2023-11-14T22:13:20.123+00:00"
    );
    assert_eq!(
        timestamp_text(1_700_000_000, 1).unwrap(),
        "2023-11-14T22:13:20.000000001+00:00"
    );
}

#[test]
fn timestamp_text_of_an_instant_before_the_epoch() {
    assert_eq!(
        timestamp_text(-1, 500_000_000).unwrap(),
        "1969-12-31T23:59:59.500+00:00"
    );
}

#[test]
fn timestamp_text_fails_outside_the_calendar() {
    assert_eq!(timestamp_text(i64::MAX, 0), Err(VaultError::ClockOutOfRange));
    assert_eq!(timestamp_text(i64::MIN, 0), Err(VaultError::ClockOutOfRange));
    assert_eq!(timestamp_text(0, 1_000_000_000), Err(VaultError::ClockOutOfRange));
}

#[test]
fn instant_of_a_reading_after_the_epoch() {
    assert_eq!(instant_of(true, 5, 7), (5, 7));
    assert_eq!(instant_of(true, 0, 0), (0, 0));
    assert_eq!(instant_of(true, 1_700_000_000, 999_999_999), (1_700_000_000, 999_999_999));
}

#[test]
fn instant_of_a_reading_before_the_epoch_rounds_down() {
    assert_eq!(instant_of(false, 3, 0), (-3, 0));
    assert_eq!(instant_of(false, 1, 250_000_000), (-2, 750_000_000));
    assert_eq!(instant_of(false, 0, 1), (-1, 999_999_999));
}

#[test]
fn instant_of_holds_at_the_ends_of_a_timestamp() {
    assert_eq!(instant_of(true, u64::MAX, 1), (i64::MAX, 1));
    assert_eq!(instant_of(true, i64::MAX as u64, 0), (i64::MAX, 0));
    assert_eq!(instant_of(false, u64::MAX, 1), (i64::MIN, 999_999_999));
    assert_eq!(instant_of(false, 1u64 << 63, 0), (i64::MIN, 0));
}

#[test]
fn created_now_is_the_present_instant_in_utc() {
    let before = Utc::now();
    let text = created_now().unwrap();
    let after = Utc::now();
    assert!(text.ends_with("+00:00"));
    let read = DateTime::parse_from_rfc3339(&text).unwrap().with_timezone(&Utc);
    assert!(before <= read && read <= after);
}

#[test]
fn drawn_seed_carries_the_present_instant() {
    let before = Utc::now();
    let seed = draw_seed().unwrap();
    let after = Utc::now();
    let read = DateTime::parse_from_rfc3339(&seed.created_at).unwrap().with_timezone(&Utc);
    assert!(before <= read && read <= after);
    assert_eq!(seed.id.len(), 36);
}

#[test]
fn seed_is_made_of_what_was_drawn_and_read() {
    let seed = seed_from(&[0u8; 16], [5u8; 12], 1_700_000_000, 0).unwrap();
    assert_eq!(seed.id, "00000000-0000-4000-8000-000000000000");
    assert_eq!(seed.created_at, "2023-11-14T22:13:20+00:00");
    assert_eq!(seed.nonce, [5u8; 12]);
    assert_eq!(
        seed_from(&[0u8; 16], [5u8; 12], i64::MAX, 0).map(|s| s.id),
        Err(VaultError::ClockOutOfRange)
    );
}
