use tsupasswd::error::VaultError;
use tsupasswd::record::CredentialPatch;
use tsupasswd::session::{SessionState, SessionStore};
use tsupasswd::store::VaultStore;
use tsupasswd::vault::{choose_password, Vault, DEFAULT_LENGTH};

const SECRET: &str = "test-secret-123";

fn open_vault() -> Vault {
    let mut vault = Vault::new(SessionStore::new(), VaultStore::new(), Some(SECRET.to_string()));
    vault.authenticate(SECRET, 5).unwrap();
    vault
}

#[test]
fn passkey_add_get_search_export_delete_flow() {
    let mut vault = Vault::new(SessionStore::new(), VaultStore::new(), Some(SECRET.to_string()));
    assert_eq!(vault.authenticate("test-secret-123", 5), Ok(()));

    let added = vault
        .add_passkey("example.com", "cred-123", "user-abc", "pubkey-xyz", 42, None, Some("usb,nfc"))
        .unwrap();
    assert_eq!(added.rp_id, "example.com");
    assert_eq!(added.sign_count, 42);

    let got = vault.get_passkeys_by_user("example.com", "user-abc").unwrap();
    assert_eq!(got.len(), 1);
    assert_eq!(got[0].rp_id, "example.com");
    assert_eq!(got[0].credential_id, "cred-123");
    assert_eq!(got[0].user_handle, "user-abc");

    let found = vault.search_passkeys("example.com").unwrap();
    assert_eq!(found.len(), 1);
    let id = found[0].id.clone();
    assert_eq!(id, added.id);

    let table = vault.export_passkeys().unwrap();
    assert_eq!(table.len(), 2);
    assert_eq!(table[1][0], id);
    assert_eq!(table[1][5], "42");

    assert_eq!(vault.delete_passkey(&id), Ok(()));
    assert!(vault.get_passkeys_by_user("example.com", "user-abc").unwrap().is_empty());
    assert_eq!(vault.delete_passkey(&id), Err(VaultError::NotFound));
}

#[test]
fn every_operation_is_refused_without_a_session() {
    let mut vault = Vault::new(SessionStore::new(), VaultStore::new(), Some(SECRET.to_string()));
    let unauthenticated = VaultError::Unauthenticated;
    assert_eq!(vault.add_credential("a.com", "alice", Some("pw"), None, None), Err(unauthenticated));
    assert_eq!(vault.get_by_url("a.com"), Err(unauthenticated));
    assert_eq!(vault.search("a"), Err(unauthenticated));
    assert_eq!(vault.update("id", &CredentialPatch::new()), Err(unauthenticated));
    assert_eq!(vault.delete("id"), Err(unauthenticated));
    assert_eq!(
        vault.add_passkey("example.com", "c", "u", "p", 0, None, None),
        Err(unauthenticated)
    );
    assert_eq!(vault.get_passkeys_by_user("example.com", "u"), Err(unauthenticated));
    assert_eq!(vault.search_passkeys("a"), Err(unauthenticated));
    assert_eq!(vault.delete_passkey("id"), Err(unauthenticated));
    assert_eq!(vault.export(), Err(unauthenticated));
    assert_eq!(vault.export_passkeys(), Err(unauthenticated));
    assert_eq!(vault.import(&vec![], &vec![vec!["a.com".to_string()]]), Err(unauthenticated));
    assert_eq!(vault.import_passkeys(&vec![], &vec![]), Err(unauthenticated));
    assert!(vault.store.passwords().is_empty());
    assert_eq!(vault.check_session(), SessionState::NoSession);
    // Generation needs no session.
    assert_eq!(vault.generate(12).unwrap().len(), 12);
}

#[test]
fn every_operation_is_refused_after_the_expiry() {
    let mut vault = open_vault();
    vault.add_credential("a.com", "alice", Some("pw"), None, None).unwrap();
    vault.session.expiry = Some(1);
    let expired = VaultError::SessionExpired;
    assert_eq!(vault.add_credential("a.com", "bob", Some("pw2"), None, None), Err(expired));
    assert_eq!(vault.get_by_url("a.com"), Err(expired));
    assert_eq!(vault.search("a"), Err(expired));
    assert_eq!(vault.delete("id"), Err(expired));
    assert_eq!(vault.export(), Err(expired));
    assert_eq!(vault.delete_passkey("id"), Err(expired));
    assert_eq!(vault.store.passwords()[0].username, "alice");
    assert_eq!(vault.check_session(), SessionState::Expired { expiry: 1 });
    vault.end_session();
    assert_eq!(vault.get_by_url("a.com"), Err(VaultError::Unauthenticated));
    assert_eq!(vault.authenticate("wrong", 5), Err(VaultError::AuthenticationFailed));
    assert_eq!(vault.get_by_url("a.com"), Err(VaultError::Unauthenticated));
    assert_eq!(vault.authenticate(SECRET, 5), Ok(()));
    assert_eq!(vault.get_by_url("a.com").unwrap().len(), 1);
}

#[test]
fn vault_without_a_secret_cannot_be_opened() {
    let mut vault = Vault::new(SessionStore::new(), VaultStore::new(), None);
    assert_eq!(vault.authenticate(SECRET, 5), Err(VaultError::MissingSecret));
    assert_eq!(vault.get_by_url("a.com"), Err(VaultError::Unauthenticated));
}

#[test]
fn add_then_add_again_merges_and_get_decrypts() {
    let mut vault = open_vault();
    let first = vault.add_credential("site.com", "alice", Some("pw1"), Some("T"), None).unwrap();
    let second = vault.add_credential("site.com", "bob", Some("pw2"), None, None).unwrap();
    assert_eq!(second.id, first.id);
    assert_eq!(second.created_at, first.created_at);
    let rows = vault.get_by_url("site.com").unwrap();
    assert_eq!(rows.len(), 1);
    assert_eq!(rows[0].username, "bob");
    assert_eq!(rows[0].password, "pw2");
    assert_eq!(rows[0].title, Some("T".to_string()));
    assert_eq!(first.id.len(), 36);
}

#[test]
fn what_stands_for_a_password_may_be_a_length() {
    let mut vault = open_vault();
    vault.add_credential("gen.com", "alice", Some("24"), None, None).unwrap();
    vault.add_credential("default.com", "alice", None, None, None).unwrap();
    vault.add_credential("zero.com", "alice", Some("0"), None, None).unwrap();
    vault.add_credential("text.com", "alice", Some("12ab"), None, None).unwrap();
    let generated = &vault.get_by_url("gen.com").unwrap()[0].password;
    assert_eq!(generated.len(), 24);
    assert!(generated.bytes().all(|b| b.is_ascii_alphanumeric()));
    assert_eq!(vault.get_by_url("default.com").unwrap()[0].password.len(), DEFAULT_LENGTH);
    assert_eq!(vault.get_by_url("zero.com").unwrap()[0].password, "0");
    assert_eq!(vault.get_by_url("text.com").unwrap()[0].password, "12ab");
    assert_eq!(choose_password(Some("hunter2")), Ok("hunter2".to_string()));
    assert_eq!(choose_password(Some("-3")), Ok("-3".to_string()));
    assert_eq!(choose_password(Some("+5")).unwrap().len(), 5);
    assert_eq!(choose_password(None).unwrap().len(), 16);
}

#[test]
fn update_search_and_delete_through_the_vault() {
    let mut vault = open_vault();
    let a = vault.add_credential("a.com", "alice", Some("pw1"), None, Some("N")).unwrap();
    vault.add_credential("b.com", "bob", Some("pw2"), None, None).unwrap();
    let mut patch = CredentialPatch::new();
    patch.url = Some("new.com".to_string());
    let updated = vault.update(&a.id, &patch).unwrap();
    assert_eq!(updated.note, Some("N".to_string()));
    assert_eq!(updated.password, a.password);
    patch.password = Some("pw3".to_string());
    let updated = vault.update(&a.id, &patch).unwrap();
    assert_ne!(updated.password, a.password);
    assert_eq!(vault.get_by_url("new.com").unwrap()[0].password, "pw3");
    assert_eq!(vault.update("unknown", &patch), Err(VaultError::NotFound));
    assert_eq!(vault.search("NEW").unwrap().len(), 1);
    assert_eq!(vault.search("").unwrap().len(), 2);
    assert_eq!(vault.delete("unknown"), Ok(()));
    assert_eq!(vault.delete(&a.id), Ok(()));
    assert_eq!(vault.search("").unwrap().len(), 1);
    assert_eq!(vault.delete(&a.id), Ok(()));
}

#[test]
fn export_and_import_through_the_vault() {
    let mut vault = open_vault();
    vault.add_credential("a.com", "alice", Some("pw1"), Some("A"), Some("n1")).unwrap();
    vault.add_credential("b.com", "bob", Some("pw2"), Some("B"), Some("n2")).unwrap();
    let table = vault.export().unwrap();
    assert_eq!(table.len(), 3);
    let mut other = open_vault();
    assert_eq!(other.import(&table[0], &table[1..].to_vec()), Ok(()));
    for url in ["a.com", "b.com"] {
        let source = &vault.get_by_url(url).unwrap()[0];
        let back = &other.get_by_url(url).unwrap()[0];
        assert_eq!(
            (&back.url, &back.username, &back.password, &back.title, &back.note),
            (&source.url, &source.username, &source.password, &source.title, &source.note)
        );
        assert_ne!(back.id, source.id);
    }
    let keys = vec![vec![
        "example.com".to_string(),
        "c".to_string(),
        "u".to_string(),
        "p".to_string(),
    ]];
    assert_eq!(other.import_passkeys(&vec![], &keys), Ok(()));
    assert_eq!(other.get_passkeys_by_user("example.com", "u").unwrap().len(), 1);
}
