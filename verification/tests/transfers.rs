use tsupasswd::cipher::decrypt_for_id;
use tsupasswd::error::{MissingField, VaultError};
use tsupasswd::store::{Seed, VaultStore};
use tsupasswd::transfer::{
    check_credential_row, check_passkey_row, credential_header_row, export_credential, export_csv, export_passkey, export_passkeys_csv,
    header_position, import_csv, import_passkey_row, import_passkeys_csv, import_row,
    parse_count, passkey_header_row, pick_field, text_or_empty_string,
};

const SECRET: &str = "test-secret-123";

fn row(cells: &[&str]) -> Vec<String> {
    cells.iter().map(|c| c.to_string()).collect()
}

fn seed(id: &str, created_at: &str) -> Seed {
    Seed { id: id.to_string(), created_at: created_at.to_string(), nonce: [3; 12] }
}

fn sample_store() -> VaultStore {
    let mut store = VaultStore::new();
    store
        .insert_password(
            Some(SECRET),
            &seed("id-1", "2024-01-01T00:00:00+00:00"),
            "a.com",
            "alice",
            "pw1",
            Some("A"),
            Some("first"),
        )
        .unwrap();
    store
        .insert_password(
            Some(SECRET),
            &seed("id-2", "2024-03-01T00:00:00+00:00"),
            "b.com",
            "bob",
            "pw2",
            None,
            None,
        )
        .unwrap();
    store
        .insert_password(
            Some(SECRET),
            &seed("id-3", "2024-02-01T00:00:00+00:00"),
            "c.com",
            "carol",
            "pw3",
            Some("C"),
            Some("third"),
        )
        .unwrap();
    store
}

#[test]
fn headers_are_fixed() {
    assert_eq!(
        credential_header_row(),
        row(&["id", "url", "username", "password", "title", "note", "created_at"])
    );
    assert_eq!(
        passkey_header_row(),
        row(&[
            "id",
            "rp_id",
            "credential_id",
            "user_handle",
            "public_key",
            "sign_count",
            "title",
            "transports",
            "created_at"
        ])
    );
}

#[test]
fn export_lists_credentials_from_the_latest_down_with_passwords_in_the_clear() {
    let store = sample_store();
    let table = export_csv(&store, Some(SECRET));
    assert_eq!(table.len(), 4);
    assert_eq!(table[0], credential_header_row());
    assert_eq!(table[1], row(&["id-2", "b.com", "bob", "pw2", "", "", "2024-03-01T00:00:00+00:00"]));
    assert_eq!(
        table[2],
        row(&["id-3", "c.com", "carol", "pw3", "C", "third", "2024-02-01T00:00:00+00:00"])
    );
    assert_eq!(
        table[3],
        row(&["id-1", "a.com", "alice", "pw1", "A", "first", "2024-01-01T00:00:00+00:00"])
    );
    assert_eq!(export_credential(Some(SECRET), &store.passwords()[1]), table[1]);
    assert_eq!(text_or_empty_string(&None), "");
    assert_eq!(text_or_empty_string(&Some("x".to_string())), "x");
}

#[test]
fn export_of_an_empty_store_is_the_header() {
    let store = VaultStore::new();
    assert_eq!(export_csv(&store, Some(SECRET)), vec![credential_header_row()]);
    assert_eq!(export_passkeys_csv(&store), vec![passkey_header_row()]);
}

#[test]
fn export_falls_back_to_the_stored_ciphertext() {
    let store = sample_store();
    let table = export_csv(&store, Some("rotated"));
    assert_eq!(table[1][3], store.passwords()[1].password);
}

#[test]
fn export_then_import_into_an_empty_store_gives_the_same_credentials() {
    let store = sample_store();
    let table = export_csv(&store, Some(SECRET));
    let mut fresh = VaultStore::new();
    assert_eq!(import_csv(&mut fresh, Some(SECRET), &table[0], &table[1..].to_vec()), Ok(()));
    assert_eq!(fresh.passwords().len(), 3);
    let shown = fresh.search_entries(Some(SECRET), "");
    for source in store.search_entries(Some(SECRET), "") {
        let back = shown.iter().find(|r| r.url == source.url).unwrap();
        assert_eq!(back.username, source.username);
        assert_eq!(back.password, source.password);
        if source.title.is_some() {
            assert_eq!(back.title, source.title);
            assert_eq!(back.note, source.note);
        } else {
            assert_eq!(back.title, Some(String::new()));
            assert_eq!(back.note, Some(String::new()));
        }
        assert_ne!(back.id, source.id);
        assert_ne!(back.created_at, source.created_at);
    }
    // The rows are taken in the order of the export.
    let urls: Vec<&str> = fresh.passwords().iter().map(|r| r.url.as_str()).collect();
    assert_eq!(urls, vec!["b.com", "c.com", "a.com"]);
}

#[test]
fn import_merges_rows_into_credentials_of_their_url() {
    let mut store = sample_store();
    let headers = row(&["url", "username", "password"]);
    let records = vec![row(&["a.com", "alice2", "new-pw"]), row(&["d.com", "dave", "pw4"])];
    assert_eq!(import_csv(&mut store, Some(SECRET), &headers, &records), Ok(()));
    assert_eq!(store.passwords().len(), 4);
    let a = &store.passwords()[0];
    assert_eq!(a.id, "id-1");
    assert_eq!(a.username, "alice2");
    assert_eq!(a.title, Some("A".to_string()));
    assert_eq!(a.created_at, "2024-01-01T00:00:00+00:00");
    assert_eq!(decrypt_for_id(Some(SECRET), "id-1", &a.password), Ok("new-pw".to_string()));
    assert_eq!(store.passwords()[3].url, "d.com");
}

#[test]
fn import_row_reads_columns_by_name() {
    let mut store = VaultStore::new();
    let headers = row(&["note", "password", "created_at", "url", "title", "username", "id"]);
    let record = row(&["N", "pw", "1999-01-01T00:00:00+00:00", "site.com", "T", "alice", "old-id"]);
    let r = import_row(
        &mut store,
        Some(SECRET),
        &seed("fresh", "2024-05-05T00:00:00+00:00"),
        &headers,
        &record,
    )
    .unwrap();
    assert_eq!(r.id, "fresh");
    assert_eq!(r.created_at, "2024-05-05T00:00:00+00:00");
    assert_eq!(r.url, "site.com");
    assert_eq!(r.username, "alice");
    assert_eq!(r.title, Some("T".to_string()));
    assert_eq!(r.note, Some("N".to_string()));
    assert_eq!(decrypt_for_id(Some(SECRET), "fresh", &r.password), Ok("pw".to_string()));
}

#[test]
fn import_row_falls_back_to_the_usual_positions() {
    let mut store = VaultStore::new();
    let headers = row(&["adresse", "benutzer", "kennwort"]);
    let record = row(&["site.com", "alice", "pw", "T"]);
    let r = import_row(
        &mut store,
        Some(SECRET),
        &seed("fresh", "2024-05-05T00:00:00+00:00"),
        &headers,
        &record,
    )
    .unwrap();
    assert_eq!(r.url, "site.com");
    assert_eq!(r.username, "alice");
    assert_eq!(r.title, Some("T".to_string()));
    assert_eq!(r.note, None);
    assert_eq!(decrypt_for_id(Some(SECRET), "fresh", &r.password), Ok("pw".to_string()));
}

#[test]
fn field_lookup_prefers_the_first_header_of_a_name() {
    let headers = row(&["a", "url", "b", "url"]);
    assert_eq!(header_position(&headers, "url"), Some(1));
    assert_eq!(header_position(&headers, "b"), Some(2));
    assert_eq!(header_position(&headers, "URL"), None);
    let record = row(&["0", "1", "2", "3"]);
    assert_eq!(pick_field(&headers, &record, "url", 0), Some("1"));
    assert_eq!(pick_field(&headers, &record, "missing", 2), Some("2"));
    assert_eq!(pick_field(&headers, &record, "missing", 4), None);
    let short = row(&["0"]);
    assert_eq!(pick_field(&headers, &short, "url", 0), Some("0"));
    assert_eq!(pick_field(&headers, &short, "url", 1), None);
}

#[test]
fn import_row_without_a_required_column_is_invalid() {
    let headers = row(&["url", "username", "password"]);
    let seed = seed("fresh", "2024-05-05T00:00:00+00:00");
    let mut store = VaultStore::new();
    assert_eq!(
        import_row(&mut store, Some(SECRET), &seed, &headers, &row(&[])),
        Err(VaultError::ImportRowInvalid(MissingField::Url))
    );
    assert_eq!(
        import_row(&mut store, Some(SECRET), &seed, &headers, &row(&["site.com"])),
        Err(VaultError::ImportRowInvalid(MissingField::Username))
    );
    assert_eq!(
        import_row(&mut store, Some(SECRET), &seed, &headers, &row(&["site.com", "alice"])),
        Err(VaultError::ImportRowInvalid(MissingField::Password))
    );
    assert!(store.passwords().is_empty());
}

#[test]
fn invalid_row_ends_the_import_and_keeps_the_rows_before_it() {
    let mut store = VaultStore::new();
    let headers = row(&["url", "username", "password"]);
    let records = vec![
        row(&["a.com", "alice", "pw1"]),
        row(&["b.com", "bob"]),
        row(&["c.com", "carol", "pw3"]),
    ];
    assert_eq!(
        import_csv(&mut store, Some(SECRET), &headers, &records),
        Err(VaultError::ImportRowInvalid(MissingField::Password))
    );
    assert_eq!(store.passwords().len(), 1);
    assert_eq!(store.passwords()[0].url, "a.com");
    let mut locked = VaultStore::new();
    assert_eq!(import_csv(&mut locked, None, &headers, &records), Err(VaultError::MissingSecret));
    assert!(locked.passwords().is_empty());
}

#[test]
fn passkeys_export_and_import() {
    let mut store = VaultStore::new();
    store
        .insert_passkey(
            "k-1",
            "2024-01-01T00:00:00+00:00",
            "example.com",
            "cred-123",
            "user-abc",
            "pubkey-xyz",
            42,
            None,
            Some("usb,nfc"),
        )
        .unwrap();
    store
        .insert_passkey(
            "k-2",
            "2024-02-01T00:00:00+00:00",
            "other.org",
            "cred-456",
            "user-def",
            "pubkey-uvw",
            0,
            Some("T"),
            None,
        )
        .unwrap();
    let table = export_passkeys_csv(&store);
    assert_eq!(table.len(), 3);
    assert_eq!(
        table[1],
        row(&[
            "k-2",
            "other.org",
            "cred-456",
            "user-def",
            "pubkey-uvw",
            "0",
            "T",
            "",
            "2024-02-01T00:00:00+00:00"
        ])
    );
    assert_eq!(
        table[2],
        row(&[
            "k-1",
            "example.com",
            "cred-123",
            "user-abc",
            "pubkey-xyz",
            "42",
            "",
            "usb,nfc",
            "2024-01-01T00:00:00+00:00"
        ])
    );
    assert_eq!(export_passkey(&store.passkeys()[0]), table[2]);

    let mut fresh = VaultStore::new();
    assert_eq!(import_passkeys_csv(&mut fresh, &table[0], &table[1..].to_vec()), Ok(()));
    assert_eq!(fresh.passkeys().len(), 2);
    let back = &fresh.passkeys()[1];
    assert_eq!(back.rp_id, "example.com");
    assert_eq!(back.credential_id, "cred-123");
    assert_eq!(back.user_handle, "user-abc");
    assert_eq!(back.public_key, "pubkey-xyz");
    assert_eq!(back.sign_count, 42);
    assert_eq!(back.title, Some(String::new()));
    assert_eq!(back.transports, Some("usb,nfc".to_string()));
    assert_ne!(back.id, "k-1");
    // Every import adds entries: passkeys are not merged.
    assert_eq!(import_passkeys_csv(&mut fresh, &table[0], &table[1..].to_vec()), Ok(()));
    assert_eq!(fresh.passkeys().len(), 4);
}

#[test]
fn passkey_row_without_a_required_column_is_invalid() {
    let mut store = VaultStore::new();
    let none = row(&[]);
    assert_eq!(
        import_passkey_row(&mut store, "k", "t", &none, &row(&[])),
        Err(VaultError::ImportRowInvalid(MissingField::RpId))
    );
    assert_eq!(
        import_passkey_row(&mut store, "k", "t", &none, &row(&["example.com"])),
        Err(VaultError::ImportRowInvalid(MissingField::CredentialId))
    );
    assert_eq!(
        import_passkey_row(&mut store, "k", "t", &none, &row(&["example.com", "c"])),
        Err(VaultError::ImportRowInvalid(MissingField::UserHandle))
    );
    assert_eq!(
        import_passkey_row(&mut store, "k", "t", &none, &row(&["example.com", "c", "u"])),
        Err(VaultError::ImportRowInvalid(MissingField::PublicKey))
    );
    // Under the header of an export the columns are found by name; a row
    // that ends before a named column falls back to the usual position.
    let headers = passkey_header_row();
    assert_eq!(
        import_passkey_row(&mut store, "k", "t", &headers, &row(&["id", "example.com", "c"])),
        Err(VaultError::ImportRowInvalid(MissingField::PublicKey))
    );
    assert!(store.passkeys().is_empty());
    let taken = import_passkey_row(
        &mut store,
        "k",
        "t",
        &headers,
        &row(&["id", "example.com", "c", "u", "p"]),
    )
    .unwrap();
    assert_eq!(taken.id, "k");
    assert_eq!(taken.rp_id, "example.com");
    assert_eq!(taken.public_key, "p");
    assert_eq!(taken.sign_count, 0);
    assert_eq!(
        import_passkey_row(&mut store, "k", "t", &none, &row(&["example.com", "c", "u", "p"])),
        Err(VaultError::DuplicateId)
    );
    assert_eq!(store.passkeys().len(), 1);
}

#[test]
fn sign_count_of_a_row_is_a_number_or_zero() {
    assert_eq!(parse_count(Some("42")), 42);
    assert_eq!(parse_count(Some("+7")), 7);
    assert_eq!(parse_count(Some("0")), 0);
    assert_eq!(parse_count(Some("-5")), 0);
    assert_eq!(parse_count(Some("")), 0);
    assert_eq!(parse_count(Some("many")), 0);
    assert_eq!(parse_count(Some("9223372036854775807")), i64::MAX);
    assert_eq!(parse_count(Some("9223372036854775808")), 0);
    assert_eq!(parse_count(None), 0);
    let mut store = VaultStore::new();
    let r = import_passkey_row(
        &mut store,
        "k",
        "t",
        &row(&[]),
        &row(&["example.com", "c", "u", "p", "17", "T", "usb"]),
    )
    .unwrap();
    assert_eq!(r.sign_count, 17);
    assert_eq!(r.title, Some("T".to_string()));
    assert_eq!(r.transports, Some("usb".to_string()));
}

#[test]
fn credential_row_is_tested_by_its_required_columns() {
    let headers = row(&["url", "username", "password"]);
    assert_eq!(
        check_credential_row(&headers, &row(&[])),
        Err(VaultError::ImportRowInvalid(MissingField::Url))
    );
    assert_eq!(
        check_credential_row(&headers, &row(&["a.com"])),
        Err(VaultError::ImportRowInvalid(MissingField::Username))
    );
    assert_eq!(
        check_credential_row(&headers, &row(&["a.com", "alice"])),
        Err(VaultError::ImportRowInvalid(MissingField::Password))
    );
    assert_eq!(check_credential_row(&headers, &row(&["a.com", "alice", ""])), Ok(()));
    assert_eq!(check_credential_row(&row(&[]), &row(&["a.com", "alice", "pw", "t", "n"])), Ok(()));
    // A column that the headers name beyond the row's end falls back to its
    // usual position.
    let swapped = row(&["password", "url", "x", "username"]);
    assert_eq!(check_credential_row(&swapped, &row(&["pw", "a.com", "alice"])), Ok(()));
}

#[test]
fn passkey_row_is_tested_by_its_required_columns() {
    let none = row(&[]);
    assert_eq!(
        check_passkey_row(&none, &row(&[])),
        Err(VaultError::ImportRowInvalid(MissingField::RpId))
    );
    assert_eq!(
        check_passkey_row(&none, &row(&["example.com"])),
        Err(VaultError::ImportRowInvalid(MissingField::CredentialId))
    );
    assert_eq!(
        check_passkey_row(&none, &row(&["example.com", "c"])),
        Err(VaultError::ImportRowInvalid(MissingField::UserHandle))
    );
    assert_eq!(
        check_passkey_row(&none, &row(&["example.com", "c", "u"])),
        Err(VaultError::ImportRowInvalid(MissingField::PublicKey))
    );
    assert_eq!(check_passkey_row(&none, &row(&["example.com", "c", "u", "p"])), Ok(()));
    let headers = passkey_header_row();
    assert_eq!(
        check_passkey_row(&headers, &row(&["id", "example.com", "c"])),
        Err(VaultError::ImportRowInvalid(MissingField::PublicKey))
    );
    assert_eq!(check_passkey_row(&headers, &row(&["id", "example.com", "c", "u", "p"])), Ok(()));
}

#[test]
fn invalid_first_row_is_reported_whatever_the_secret() {
    let headers = row(&["url", "username", "password"]);
    let records = vec![row(&["a.com"]), row(&["b.com", "bob", "pw"])];
    let mut store = VaultStore::new();
    assert_eq!(
        import_csv(&mut store, None, &headers, &records),
        Err(VaultError::ImportRowInvalid(MissingField::Username))
    );
    assert_eq!(
        import_csv(&mut store, Some(SECRET), &headers, &records),
        Err(VaultError::ImportRowInvalid(MissingField::Username))
    );
    assert!(store.passwords().is_empty());
    let mut keys = VaultStore::new();
    assert_eq!(
        import_passkeys_csv(&mut keys, &row(&[]), &vec![row(&["example.com", "c", "u"])]),
        Err(VaultError::ImportRowInvalid(MissingField::PublicKey))
    );
    assert!(keys.passkeys().is_empty());
}

#[test]
fn imported_entries_carry_fresh_ids_and_the_present_instant() {
    let headers = row(&["url", "username", "password", "id", "created_at"]);
    let records = vec![
        row(&["a.com", "alice", "pw1", "old-id", "2001-01-01T00:00:00+00:00"]),
        row(&["b.com", "bob", "pw2", "old-id", "2001-01-01T00:00:00+00:00"]),
    ];
    let mut store = VaultStore::new();
    assert_eq!(import_csv(&mut store, Some(SECRET), &headers, &records), Ok(()));
    let rows = store.passwords();
    assert_eq!(rows.len(), 2);
    assert_ne!(rows[0].id, rows[1].id);
    for taken in rows.iter() {
        assert_eq!(taken.id.len(), 36);
        assert_ne!(taken.id, "old-id");
        assert!(taken.created_at.ends_with("+00:00"));
        assert!(taken.created_at.as_str() > "2024");
        assert_ne!(taken.password, "pw1");
        assert_ne!(taken.password, "pw2");
        assert_eq!(taken.password.len(), 4 * ((12 + 3 + 16 + 2) / 3));
    }
    assert_eq!(decrypt_for_id(Some(SECRET), &rows[0].id, &rows[0].password).unwrap(), "pw1");
}
