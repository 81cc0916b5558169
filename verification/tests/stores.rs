use tsupasswd::cipher::decrypt_for_id;
use tsupasswd::error::VaultError;
use tsupasswd::record::{CredentialPatch, PasskeyRecord, PasswordRecord};
use tsupasswd::store::{Seed, VaultStore};

const SECRET: &str = "test-secret-123";

fn seed(id: &str, created_at: &str, fill: u8) -> Seed {
    Seed { id: id.to_string(), created_at: created_at.to_string(), nonce: [fill; 12] }
}

fn add(store: &mut VaultStore, id: &str, at: &str, url: &str, user: &str, pw: &str) -> PasswordRecord {
    store
        .insert_password(Some(SECRET), &seed(id, at, 1), url, user, pw, None, None)
        .unwrap()
}

#[test]
fn second_add_for_a_url_merges() {
    let mut store = VaultStore::new();
    let first = store
        .insert_password(
            Some(SECRET),
            &seed("id-1", "2024-01-01T00:00:00+00:00", 1),
            "site.com",
            "alice",
            "pw1",
            Some("T"),
            None,
        )
        .unwrap();
    assert_eq!(first.id, "id-1");
    assert_eq!(first.title, Some("T".to_string()));
    let second = store
        .insert_password(
            Some(SECRET),
            &seed("id-2", "2024-02-02T00:00:00+00:00", 2),
            "site.com",
            "bob",
            "pw2",
            None,
            None,
        )
        .unwrap();
    assert_eq!(store.passwords().len(), 1);
    let kept = &store.passwords()[0];
    assert_eq!(kept, &second);
    assert_eq!(kept.id, "id-1");
    assert_eq!(kept.created_at, "2024-01-01T00:00:00+00:00");
    assert_eq!(kept.username, "bob");
    assert_eq!(kept.title, Some("T".to_string()));
    assert_eq!(kept.note, None);
    assert_eq!(decrypt_for_id(Some(SECRET), "id-1", &kept.password), Ok("pw2".to_string()));
    assert_ne!(kept.password, first.password);
}

#[test]
fn given_title_and_note_win_over_kept_ones() {
    let mut store = VaultStore::new();
    store
        .insert_password(
            Some(SECRET),
            &seed("id-1", "2024-01-01T00:00:00+00:00", 1),
            "site.com",
            "alice",
            "pw1",
            Some("T"),
            Some("N"),
        )
        .unwrap();
    let merged = store
        .insert_password(
            Some(SECRET),
            &seed("id-2", "2024-02-02T00:00:00+00:00", 2),
            "site.com",
            "alice",
            "pw1",
            Some("T2"),
            None,
        )
        .unwrap();
    assert_eq!(merged.title, Some("T2".to_string()));
    assert_eq!(merged.note, Some("N".to_string()));
}

#[test]
fn add_for_another_url_adds_an_entry() {
    let mut store = VaultStore::new();
    add(&mut store, "id-1", "2024-01-01T00:00:00+00:00", "a.com", "alice", "pw1");
    let other = add(&mut store, "id-2", "2024-01-02T00:00:00+00:00", "b.com", "bob", "pw2");
    assert_eq!(store.passwords().len(), 2);
    assert_eq!(other.id, "id-2");
    assert_eq!(other.created_at, "2024-01-02T00:00:00+00:00");
    assert_eq!(store.passwords()[1], other);
}

#[test]
fn password_is_sealed_under_the_key_of_the_entrys_own_id() {
    let mut store = VaultStore::new();
    let record = add(&mut store, "id-1", "2024-01-01T00:00:00+00:00", "a.com", "alice", "pw1");
    assert_ne!(record.password, "pw1");
    assert_eq!(decrypt_for_id(Some(SECRET), "id-1", &record.password), Ok("pw1".to_string()));
    assert_eq!(
        decrypt_for_id(Some(SECRET), "id-2", &record.password),
        Err(VaultError::DecryptFailure)
    );
}

#[test]
fn upsert_takes_the_most_recent_entry_for_the_url() {
    let mut store = VaultStore::new();
    let old = PasswordRecord {
        id: "old".into(),
        url: "site.com".into(),
        username: "alice".into(),
        password: "x".into(),
        title: None,
        note: None,
        created_at: "2023-01-01T00:00:00+00:00".into(),
    };
    let new = PasswordRecord {
        id: "new".into(),
        created_at: "2024-01-01T00:00:00+00:00".into(),
        ..old.clone()
    };
    let tie = PasswordRecord { id: "tie".into(), ..new.clone() };
    store.restore_password(old.clone()).unwrap();
    store.restore_password(new).unwrap();
    store.restore_password(tie.clone()).unwrap();
    assert_eq!(store.find_latest_for_url("site.com"), Some(1));
    assert_eq!(store.find_latest_for_url("other.com"), None);
    let r = store
        .insert_password(
            Some(SECRET),
            &seed("fresh", "2025-01-01T00:00:00+00:00", 3),
            "site.com",
            "carol",
            "pw",
            None,
            None,
        )
        .unwrap();
    assert_eq!(r.id, "new");
    assert_eq!(store.passwords().len(), 3);
    assert_eq!(store.passwords()[0], old);
    assert_eq!(store.passwords()[1].username, "carol");
    assert_eq!(store.passwords()[2], tie);
}

#[test]
fn add_fails_without_a_secret_and_changes_nothing() {
    let mut store = VaultStore::new();
    let r = store.insert_password(
        None,
        &seed("id-1", "2024-01-01T00:00:00+00:00", 1),
        "a.com",
        "alice",
        "pw1",
        None,
        None,
    );
    assert_eq!(r, Err(VaultError::MissingSecret));
    assert!(store.passwords().is_empty());
}

#[test]
fn add_fails_where_the_fresh_id_is_taken() {
    let mut store = VaultStore::new();
    add(&mut store, "id-1", "2024-01-01T00:00:00+00:00", "a.com", "alice", "pw1");
    let r = store.insert_password(
        Some(SECRET),
        &seed("id-1", "2024-01-02T00:00:00+00:00", 2),
        "b.com",
        "bob",
        "pw2",
        None,
        None,
    );
    assert_eq!(r, Err(VaultError::DuplicateId));
    assert_eq!(store.passwords().len(), 1);
    // The id of the seed is not taken up where the url is known.
    let merged = store.insert_password(
        Some(SECRET),
        &seed("id-1", "2024-01-02T00:00:00+00:00", 2),
        "a.com",
        "bob",
        "pw2",
        None,
        None,
    );
    assert_eq!(merged.unwrap().username, "bob");
}

#[test]
fn restore_refuses_a_second_record_of_one_id() {
    let mut store = VaultStore::new();
    let record = add(&mut store, "id-1", "2024-01-01T00:00:00+00:00", "a.com", "alice", "pw1");
    assert_eq!(store.restore_password(record), Err(VaultError::DuplicateId));
    assert_eq!(store.passwords().len(), 1);
    let key = PasskeyRecord {
        id: "k".into(),
        rp_id: "example.com".into(),
        credential_id: "c".into(),
        user_handle: "u".into(),
        public_key: "p".into(),
        sign_count: 1,
        title: None,
        transports: None,
        created_at: "2024-01-01T00:00:00+00:00".into(),
    };
    assert_eq!(store.restore_passkey(key.clone()), Ok(()));
    assert_eq!(store.restore_passkey(key), Err(VaultError::DuplicateId));
    assert_eq!(store.passkeys().len(), 1);
    assert_eq!(store.find_password("id-1"), Some(0));
    assert_eq!(store.find_password("id-2"), None);
    assert_eq!(store.find_passkey("k"), Some(0));
    assert_eq!(store.find_passkey("id-1"), None);
}

#[test]
fn fetch_by_url_matches_exactly_and_decrypts() {
    let mut store = VaultStore::new();
    add(&mut store, "id-1", "2024-01-01T00:00:00+00:00", "site.com", "alice", "pw1");
    add(&mut store, "id-2", "2024-01-02T00:00:00+00:00", "site.com/login", "bob", "pw2");
    add(&mut store, "id-3", "2024-01-03T00:00:00+00:00", "SITE.com", "carol", "pw3");
    let rows = store.fetch_by_url(Some(SECRET), "site.com");
    assert_eq!(rows.len(), 1);
    assert_eq!(rows[0].username, "alice");
    assert_eq!(rows[0].password, "pw1");
    assert!(store.fetch_by_url(Some(SECRET), "nowhere").is_empty());
}

#[test]
fn fetch_falls_back_to_the_stored_ciphertext() {
    let mut store = VaultStore::new();
    let stored = add(&mut store, "id-1", "2024-01-01T00:00:00+00:00", "site.com", "alice", "pw1");
    let rotated = store.fetch_by_url(Some("rotated"), "site.com");
    assert_eq!(rotated[0].password, stored.password);
    let missing = store.fetch_by_url(None, "site.com");
    assert_eq!(missing[0].password, stored.password);
}

#[test]
fn search_matches_without_regard_to_case_and_orders_by_id_descending() {
    let mut store = VaultStore::new();
    add(&mut store, "b", "2024-01-01T00:00:00+00:00", "Example.com", "alice", "pw1");
    add(&mut store, "c", "2024-01-02T00:00:00+00:00", "other.org", "EXAMPLE-user", "pw2");
    add(&mut store, "a", "2024-01-03T00:00:00+00:00", "third.net", "carol", "pw3");
    store
        .insert_password(
            Some(SECRET),
            &seed("d", "2024-01-04T00:00:00+00:00", 1),
            "fourth.net",
            "dave",
            "pw4",
            None,
            Some("see example"),
        )
        .unwrap();
    let rows = store.search_entries(Some(SECRET), "example");
    let ids: Vec<&str> = rows.iter().map(|r| r.id.as_str()).collect();
    assert_eq!(ids, vec!["d", "c", "b"]);
    assert_eq!(rows[0].password, "pw4");
    assert_eq!(rows[2].password, "pw1");
    let all = store.search_entries(Some(SECRET), "");
    let ids: Vec<&str> = all.iter().map(|r| r.id.as_str()).collect();
    assert_eq!(ids, vec!["d", "c", "b", "a"]);
    assert!(store.search_entries(Some(SECRET), "nothing-like-it").is_empty());
    // The password is not searched.
    assert!(store.search_entries(Some(SECRET), "pw3").is_empty());
    // The id is.
    assert_eq!(store.search_entries(Some(SECRET), "A").len(), 4);
}

#[test]
fn update_leaves_unset_fields_as_they_are() {
    let mut store = VaultStore::new();
    let before = store
        .insert_password(
            Some(SECRET),
            &seed("id-1", "2024-01-01T00:00:00+00:00", 1),
            "site.com",
            "alice",
            "pw1",
            Some("T"),
            Some("N"),
        )
        .unwrap();
    let mut patch = CredentialPatch::new();
    assert!(patch.is_empty());
    patch.url = Some("new.com".to_string());
    assert!(!patch.is_empty());
    let after = store.update_entry(Some(SECRET), &[5u8; 12], "id-1", &patch).unwrap();
    assert_eq!(after.url, "new.com");
    assert_eq!(after.note, Some("N".to_string()));
    assert_eq!(after.title, Some("T".to_string()));
    assert_eq!(after.username, "alice");
    assert_eq!(after.password, before.password);
    assert_eq!(after.id, "id-1");
    assert_eq!(after.created_at, before.created_at);
    assert_eq!(store.passwords()[0], after);
}

#[test]
fn update_of_the_password_seals_it_under_the_same_id() {
    let mut store = VaultStore::new();
    let before = add(&mut store, "id-1", "2024-01-01T00:00:00+00:00", "site.com", "alice", "pw1");
    add(&mut store, "id-2", "2024-01-02T00:00:00+00:00", "b.com", "bob", "pw2");
    let patch = CredentialPatch {
        url: None,
        username: Some("alice2".to_string()),
        password: Some("new-pw".to_string()),
        title: Some("T".to_string()),
        note: None,
    };
    let after = store.update_entry(Some(SECRET), &[5u8; 12], "id-1", &patch).unwrap();
    assert_ne!(after.password, before.password);
    assert_eq!(decrypt_for_id(Some(SECRET), "id-1", &after.password), Ok("new-pw".to_string()));
    assert_eq!(after.username, "alice2");
    assert_eq!(after.title, Some("T".to_string()));
    assert_eq!(after.url, "site.com");
    assert_eq!(store.passwords()[1].username, "bob");
    // Without a secret only the password cannot be set.
    assert_eq!(
        store.update_entry(None, &[5u8; 12], "id-1", &patch),
        Err(VaultError::MissingSecret)
    );
    let mut plain = CredentialPatch::new();
    plain.note = Some("N".to_string());
    assert_eq!(
        store.update_entry(None, &[5u8; 12], "id-1", &plain).unwrap().note,
        Some("N".to_string())
    );
}

#[test]
fn update_of_an_unknown_id_is_not_found() {
    let mut store = VaultStore::new();
    add(&mut store, "id-1", "2024-01-01T00:00:00+00:00", "site.com", "alice", "pw1");
    let mut patch = CredentialPatch::new();
    patch.url = Some("new.com".to_string());
    assert_eq!(
        store.update_entry(Some(SECRET), &[5u8; 12], "nope", &patch),
        Err(VaultError::NotFound)
    );
    assert_eq!(store.passwords()[0].url, "site.com");
}

#[test]
fn deleting_an_unknown_credential_succeeds_and_an_unknown_passkey_fails() {
    let mut store = VaultStore::new();
    add(&mut store, "id-1", "2024-01-01T00:00:00+00:00", "site.com", "alice", "pw1");
    store.delete_entry("nope");
    assert_eq!(store.passwords().len(), 1);
    store.delete_entry("id-1");
    assert!(store.passwords().is_empty());
    store.delete_entry("id-1");
    assert!(store.passwords().is_empty());

    assert_eq!(store.delete_passkey("nope"), Err(VaultError::NotFound));
    store
        .insert_passkey("k-1", "2024-01-01T00:00:00+00:00", "example.com", "c", "u", "p", 1, None, None)
        .unwrap();
    assert_eq!(store.delete_passkey("nope"), Err(VaultError::NotFound));
    assert_eq!(store.passkeys().len(), 1);
    assert_eq!(store.delete_passkey("k-1"), Ok(()));
    assert!(store.passkeys().is_empty());
    assert_eq!(store.delete_passkey("k-1"), Err(VaultError::NotFound));
}

#[test]
fn every_passkey_add_inserts_an_entry() {
    let mut store = VaultStore::new();
    let first = store
        .insert_passkey(
            "k-1",
            "2024-01-01T00:00:00+00:00",
            "example.com",
            "cred-123",
            "user-abc",
            "pubkey-xyz",
            42,
            None,
            Some("usb,nfc"),
        )
        .unwrap();
    assert_eq!(first.sign_count, 42);
    assert_eq!(first.public_key, "pubkey-xyz");
    assert_eq!(first.transports, Some("usb,nfc".to_string()));
    let second = store
        .insert_passkey(
            "k-2",
            "2024-01-02T00:00:00+00:00",
            "example.com",
            "cred-123",
            "user-abc",
            "pubkey-xyz",
            -7,
            Some("T"),
            None,
        )
        .unwrap();
    assert_eq!(second.sign_count, 0);
    assert_eq!(store.passkeys().len(), 2);
    assert_eq!(
        store.insert_passkey("k-2", "t", "r", "c", "u", "p", 0, None, None),
        Err(VaultError::DuplicateId)
    );
    assert_eq!(store.passkeys().len(), 2);
}

#[test]
fn passkeys_are_found_by_relying_party_and_user() {
    let mut store = VaultStore::new();
    store.insert_passkey("k-1", "t1", "example.com", "c1", "user-abc", "p", 0, None, None).unwrap();
    store.insert_passkey("k-2", "t2", "example.com", "c2", "user-xyz", "p", 0, None, None).unwrap();
    store.insert_passkey("k-3", "t3", "other.org", "c3", "user-abc", "p", 0, None, None).unwrap();
    store.insert_passkey("k-4", "t4", "example.com", "c4", "user-abc", "p", 0, None, None).unwrap();
    let rows = store.get_passkeys_by_user("example.com", "user-abc");
    let ids: Vec<&str> = rows.iter().map(|r| r.id.as_str()).collect();
    assert_eq!(ids, vec!["k-1", "k-4"]);
    assert!(store.get_passkeys_by_user("example.com", "nobody").is_empty());
}

#[test]
fn passkey_search_covers_its_fields_and_orders_by_id_descending() {
    let mut store = VaultStore::new();
    store.insert_passkey("k-1", "t1", "Example.com", "c1", "u1", "secretkey", 0, None, None).unwrap();
    store.insert_passkey("k-3", "t3", "other.org", "c3", "u3", "p", 0, Some("example"), None).unwrap();
    store.insert_passkey("k-2", "t2", "third.net", "c2", "u2", "p", 0, None, Some("usb,EXAMPLE")).unwrap();
    store.insert_passkey("k-4", "t4", "fourth.net", "c4", "u4", "p", 0, None, None).unwrap();
    let rows = store.search_passkeys("example");
    let ids: Vec<&str> = rows.iter().map(|r| r.id.as_str()).collect();
    assert_eq!(ids, vec!["k-3", "k-2", "k-1"]);
    // The public key is not searched.
    assert!(store.search_passkeys("secretkey").is_empty());
    assert_eq!(store.search_passkeys("C4").len(), 1);
    assert_eq!(store.search_passkeys("u2").len(), 1);
}
