use vstd::prelude::*;

use crate::entropy::random_nonce;
use crate::error::{is_draw_failure, VaultError};
use crate::generator::{generate_password, is_password};
use crate::clock::{created_now, is_timestamp};
use crate::ident::{draw_seed, fresh_id, is_fresh_id, is_fresh_seed};
use crate::record::{
    borrow_option, credential_views, option_str_text, option_text, passkey_views, CredentialPatch,
    PasskeyRecord, PasskeyView, PasswordRecord,
};
use crate::session::{
    authenticate, end_session, ensure_authenticated, expiry_after, session_status, state_at,
    SessionState, SessionStore,
};
use crate::store::{
    credential_ids, fetched, is_passkey_search_result, is_search_result, of_user, passkey_ids,
    record_outcome, stored_count, update_outcome, upsert_outcome,
    SeedView, VaultStore,
};
use crate::text::{ascii_text, parse_length, parsed_length};
use crate::transfer::{
    export_csv, export_passkeys_csv, import_csv, import_outcome, import_passkeys_csv, is_export,
    is_passkey_export, passkey_import_outcome, row_texts, table_texts,
};

verus! {

/// The length of a generated password where none is asked for.
pub const DEFAULT_LENGTH: usize = 16;

/// The vault: the entries, the session that guards them, and the one
/// configured secret, which is both the password that opens the session and
/// the master secret from which the keys of the entries are derived.
pub struct Vault {
    pub session: SessionStore,
    pub store: VaultStore,
    pub secret: Option<String>,
}

/// Whether an error is a refusal by the session guard.
pub open spec fn is_refusal(e: VaultError) -> bool {
    e == VaultError::Unauthenticated || e == VaultError::SessionExpired
}

/// Whether a call was refused by the session guard.
pub open spec fn was_refused<T>(r: Result<T, VaultError>) -> bool {
    r is Err && is_refusal(r->Err_0)
}

/// Whether `e` is the refusal that the session guard gives with the given
/// persisted expiry: `Unauthenticated` where there is none, and
/// `SessionExpired` where there is one.
pub open spec fn refused(expiry: Option<i64>, e: VaultError) -> bool {
    if expiry is None {
        e == VaultError::Unauthenticated
    } else {
        e == VaultError::SessionExpired
    }
}

/// The length of the password to generate for what is given in place of a
/// password: the default length where nothing is given, the length that the
/// text spells where it spells a positive one, and none where the text is a
/// password itself.
pub open spec fn wanted_length(given: Option<Seq<char>>) -> Option<int> {
    match given {
        None => Some(DEFAULT_LENGTH as int),
        Some(text) => match parsed_length(text) {
            Some(n) => if n >= 1 {
                Some(n)
            } else {
                None
            },
            None => None,
        },
    }
}

/// Whether `password` is a password for what is given in place of one: a
/// generated password of the wanted length, or the given text itself.
pub open spec fn password_choice(given: Option<Seq<char>>, password: Seq<char>) -> bool {
    match wanted_length(given) {
        Some(n) => exists|bytes: Seq<u8>|
            #![trigger ascii_text(bytes)]
            is_password(bytes, n) && password == ascii_text(bytes),
        None => given == Some(password),
    }
}

/// The password for what is given in place of one: where the text spells a
/// positive length a password of that length is generated, where nothing is
/// given one of the default length, and any other text is the password,
/// letter for letter. Fails with `RandomSource` when a password is to be
/// generated and the generator fails.
pub fn choose_password(given: Option<&str>) -> (r: Result<String, VaultError>)
    ensures
        match r {
            Ok(password) => password_choice(option_str_text(given), password@),
            Err(e) => e == VaultError::RandomSource && wanted_length(option_str_text(given)) is Some,
        },
{
    match given {
        None => generate_password(DEFAULT_LENGTH),
        Some(text) => match parse_length(text) {
            Some(n) => {
                if n >= 1 {
                    generate_password(n)
                } else {
                    Ok(text.to_owned())
                }
            },
            None => Ok(text.to_owned()),
        },
    }
}

impl Vault {
    /// Whether the vault is well formed: its store is.
    pub open spec fn wf(&self) -> bool {
        self.store.wf()
    }

    /// The configured secret.
    pub open spec fn key(&self) -> Option<Seq<char>> {
        option_text(self.secret)
    }

    /// A vault over the given entries and session record, with the given
    /// configured secret.
    pub fn new(session: SessionStore, store: VaultStore, secret: Option<String>) -> (vault: Vault)
        requires
            store.wf(),
        ensures
            vault.wf(),
            vault.session == session,
            vault.store == store,
            vault.secret == secret,
    {
        Vault { session, store, secret }
    }

    /// The session guard: lets an operation pass while the session is
    /// active, and refuses it where no session exists or the session has
    /// expired.
    fn guard(&self) -> (r: Result<(), VaultError>)
        ensures
            match r {
                Ok(_) => self.session.expiry is Some,
                Err(e) => is_refusal(e) && refused(self.session.expiry, e),
            },
    {
        ensure_authenticated(&self.session)
    }

    /// Generates a password of `len` characters. Needs no session.
    pub fn generate(&self, len: usize) -> (r: Result<String, VaultError>)
        ensures
            match r {
                Ok(password) => exists|bytes: Seq<u8>|
                    #![trigger ascii_text(bytes)]
                    is_password(bytes, len as int) && password@ == ascii_text(bytes),
                Err(e) => e == VaultError::RandomSource && len > 0,
            },
    {
        generate_password(len)
    }

    /// Opens the session for `ttl_minutes` from the present instant, if the
    /// supplied secret is the configured one. Fails with `MissingSecret`
    /// where none is configured and with `AuthenticationFailed` where the
    /// supplied one differs; the session is then left as it was.
    pub fn authenticate(&mut self, supplied: &str, ttl_minutes: i64) -> (r: Result<(), VaultError>)
        ensures
            final(self).store == old(self).store,
            final(self).secret == old(self).secret,
            match old(self).key() {
                None => r == Err::<(), VaultError>(VaultError::MissingSecret) && final(self).session
                    == old(self).session,
                Some(secret) => if secret == supplied@ {
                    r is Ok && exists|now: i64|
                        final(self).session.expiry == Some(
                            #[trigger] expiry_after(now as int, ttl_minutes as int) as i64,
                        )
                } else {
                    r == Err::<(), VaultError>(VaultError::AuthenticationFailed) && final(self).session == old(self).session
                },
            },
    {
        let expected = borrow_option(&self.secret);
        authenticate(&mut self.session, supplied, expected, ttl_minutes)
    }

    /// Ends the session, whether or not one exists.
    pub fn end_session(&mut self)
        ensures
            final(self).store == old(self).store,
            final(self).secret == old(self).secret,
            final(self).session.expiry is None,
    {
        end_session(&mut self.session);
    }

    /// The state of the session at the present instant.
    pub fn check_session(&self) -> (state: SessionState)
        ensures
            exists|now: i64| state == #[trigger] state_at(self.session.expiry, now as int),
            self.session.expiry is None <==> state is NoSession,
    {
        session_status(&self.session)
    }

    /// Adds a credential for `url`, or overwrites the most recent one for
    /// it, behind the session guard. What is given in place of a password
    /// is read as `password_choice` says; id, creation time and nonce are
    /// drawn afresh.
    ///
    /// A refusal by the guard changes nothing. Past the guard the call does
    /// what `upsert_outcome` says under a seed that `draw_seed` drew, or
    /// fails because nothing could be drawn and changes nothing.
    pub fn add_credential(
        &mut self,
        url: &str,
        username: &str,
        password_or_length: Option<&str>,
        title: Option<&str>,
        note: Option<&str>,
    ) -> (r: Result<PasswordRecord, VaultError>)
        requires
            old(self).wf(),
        ensures
            final(self).wf(),
            final(self).session == old(self).session,
            final(self).secret == old(self).secret,
            final(self).store@.passkeys == old(self).store@.passkeys,
            was_refused(r) ==> refused(old(self).session.expiry, r->Err_0) && final(self).store@ == old(self).store@,
            !was_refused(r) ==> {
                &&& old(self).session.expiry is Some
                &&& (r is Err && is_draw_failure(r->Err_0) && final(self).store@ == old(self).store@) || exists|password: Seq<char>, seed: SeedView|
                    password_choice(option_str_text(password_or_length), password)
                        && is_fresh_seed(seed) && #[trigger] upsert_outcome(
                        old(self).store@.passwords,
                        final(self).store@.passwords,
                        record_outcome(r),
                        old(self).key(),
                        seed,
                        url@,
                        username@,
                        password,
                        option_str_text(title),
                        option_str_text(note),
                    )
            },
    {
        self.guard()?;
        let password = choose_password(password_or_length)?;
        let seed = draw_seed()?;
        let ghost before = self.store@.passwords;
        let r = self.store.insert_password(
            borrow_option(&self.secret),
            &seed,
            url,
            username,
            password.as_str(),
            title,
            note,
        );
        proof {
            assert(password_choice(option_str_text(password_or_length), password@)
                && upsert_outcome(
                before,
                self.store@.passwords,
                record_outcome(r),
                self.key(),
                seed@,
                url@,
                username@,
                password@,
                option_str_text(title),
                option_str_text(note),
            ));
            if r is Err {
                assert(!is_refusal(r->Err_0));
            }
        }
        r
    }

    /// All credentials whose url is exactly `url`, each with its password
    /// decrypted, or with the stored ciphertext where it cannot be
    /// decrypted; behind the session guard.
    pub fn get_by_url(&self, url: &str) -> (r: Result<Vec<PasswordRecord>, VaultError>)
        ensures
            match r {
                Ok(rows) => self.session.expiry is Some && credential_views(rows@) == fetched(
                    self.store@.passwords,
                    self.key(),
                    url@,
                ),
                Err(e) => is_refusal(e) && refused(self.session.expiry, e),
            },
    {
        self.guard()?;
        Ok(self.store.fetch_by_url(borrow_option(&self.secret), url))
    }

    /// The credentials that a keyword matches, passwords decrypted, from
    /// the greatest id down; behind the session guard.
    pub fn search(&self, keyword: &str) -> (r: Result<Vec<PasswordRecord>, VaultError>)
        ensures
            match r {
                Ok(rows) => self.session.expiry is Some && is_search_result(
                    self.store@.passwords,
                    self.key(),
                    keyword@,
                    credential_views(rows@),
                ),
                Err(e) => is_refusal(e) && refused(self.session.expiry, e),
            },
    {
        self.guard()?;
        Ok(self.store.search_entries(borrow_option(&self.secret), keyword))
    }

    /// Changes the credential with the given id as the patch says, behind
    /// the session guard. A new password is sealed under a nonce that is
    /// drawn afresh.
    ///
    /// A refusal by the guard changes nothing. Past the guard the call
    /// does what `update_outcome` says for some nonce, or fails with
    /// `RandomSource` and changes nothing.
    pub fn update(&mut self, id: &str, patch: &CredentialPatch) -> (r: Result<
        PasswordRecord,
        VaultError,
    >)
        requires
            old(self).wf(),
        ensures
            final(self).wf(),
            final(self).session == old(self).session,
            final(self).secret == old(self).secret,
            final(self).store@.passkeys == old(self).store@.passkeys,
            was_refused(r) ==> refused(old(self).session.expiry, r->Err_0) && final(self).store@ == old(self).store@,
            !was_refused(r) ==> {
                &&& old(self).session.expiry is Some
                &&& (r is Err && r->Err_0 == VaultError::RandomSource && final(self).store@ == old(self).store@) || exists|nonce: Seq<u8>| #[trigger]
                    update_outcome(
                        old(self).store@.passwords,
                        final(self).store@.passwords,
                        record_outcome(r),
                        old(self).key(),
                        nonce,
                        id@,
                        patch@,
                    )
            },
    {
        self.guard()?;
        let nonce: [u8; 12] = if patch.password.is_some() {
            random_nonce()?
        } else {
            [0u8; 12]
        };
        let ghost before = self.store@.passwords;
        let r = self.store.update_entry(borrow_option(&self.secret), &nonce, id, patch);
        proof {
            assert(update_outcome(
                before,
                self.store@.passwords,
                record_outcome(r),
                self.key(),
                nonce@,
                id@,
                patch@,
            ));
            if r is Err {
                assert(!is_refusal(r->Err_0));
            }
        }
        r
    }

    /// Removes the credential with the given id, behind the session guard.
    /// Past the guard the call succeeds whether or not a credential has the
    /// id.
    pub fn delete(&mut self, id: &str) -> (r: Result<(), VaultError>)
        requires
            old(self).wf(),
        ensures
            final(self).wf(),
            final(self).session == old(self).session,
            final(self).secret == old(self).secret,
            final(self).store@.passkeys == old(self).store@.passkeys,
            match r {
                Ok(_) => {
                    &&& old(self).session.expiry is Some
                    &&& !credential_ids(final(self).store@.passwords).contains(id@)
                    &&& !credential_ids(old(self).store@.passwords).contains(id@) ==> final(self).store@ == old(self).store@
                    &&& forall|i: int|
                        0 <= i < old(self).store@.passwords.len() && (#[trigger] old(self).store@.passwords[i]).id == id@ ==> final(self).store@.passwords == old(self).store@.passwords.remove(i)
                },
                Err(e) => is_refusal(e) && refused(old(self).session.expiry, e) && final(self).store@ == old(self).store@,
            },
    {
        self.guard()?;
        self.store.delete_entry(id);
        Ok(())
    }

    /// Adds a passkey, behind the session guard, under an id and a creation
    /// time that are drawn afresh. Every call adds an entry.
    pub fn add_passkey(
        &mut self,
        rp_id: &str,
        credential_id: &str,
        user_handle: &str,
        public_key: &str,
        sign_count: i64,
        title: Option<&str>,
        transports: Option<&str>,
    ) -> (r: Result<PasskeyRecord, VaultError>)
        requires
            old(self).wf(),
        ensures
            final(self).wf(),
            final(self).session == old(self).session,
            final(self).secret == old(self).secret,
            final(self).store@.passwords == old(self).store@.passwords,
            match r {
                Ok(record) => {
                    &&& old(self).session.expiry is Some
                    &&& !passkey_ids(old(self).store@.passkeys).contains(record@.id)
                    &&& is_fresh_id(record@.id)
                    &&& is_timestamp(record@.created_at)
                    &&& record@ == (PasskeyView {
                        id: record@.id,
                        rp_id: rp_id@,
                        credential_id: credential_id@,
                        user_handle: user_handle@,
                        public_key: public_key@,
                        sign_count: stored_count(sign_count),
                        title: option_str_text(title),
                        transports: option_str_text(transports),
                        created_at: record@.created_at,
                    })
                    &&& final(self).store@.passkeys == old(self).store@.passkeys.push(record@)
                },
                Err(e) => {
                    &&& final(self).store@ == old(self).store@
                    &&& if is_refusal(e) {
                        refused(old(self).session.expiry, e)
                    } else {
                        old(self).session.expiry is Some && (is_draw_failure(e) || e
                            == VaultError::DuplicateId)
                    }
                },
            },
    {
        self.guard()?;
        let id = fresh_id()?;
        let created_at = created_now()?;
        let r = self.store.insert_passkey(
            id.as_str(),
            created_at.as_str(),
            rp_id,
            credential_id,
            user_handle,
            public_key,
            sign_count,
            title,
            transports,
        );
        proof {
            if r is Err {
                assert(!is_refusal(r->Err_0));
            }
        }
        r
    }

    /// The passkeys of one user of one relying party, behind the session
    /// guard.
    pub fn get_passkeys_by_user(&self, rp_id: &str, user_handle: &str) -> (r: Result<
        Vec<PasskeyRecord>,
        VaultError,
    >)
        ensures
            match r {
                Ok(rows) => self.session.expiry is Some && passkey_views(rows@)
                    == self.store@.passkeys.filter(of_user(rp_id@, user_handle@)),
                Err(e) => is_refusal(e) && refused(self.session.expiry, e),
            },
    {
        self.guard()?;
        Ok(self.store.get_passkeys_by_user(rp_id, user_handle))
    }

    /// The passkeys that a keyword matches, from the greatest id down;
    /// behind the session guard.
    pub fn search_passkeys(&self, keyword: &str) -> (r: Result<Vec<PasskeyRecord>, VaultError>)
        ensures
            match r {
                Ok(rows) => self.session.expiry is Some && is_passkey_search_result(
                    self.store@.passkeys,
                    keyword@,
                    passkey_views(rows@),
                ),
                Err(e) => is_refusal(e) && refused(self.session.expiry, e),
            },
    {
        self.guard()?;
        Ok(self.store.search_passkeys(keyword))
    }

    /// Removes the passkey with the given id, behind the session guard.
    /// Past the guard the call fails with `NotFound`, and changes nothing,
    /// where no passkey has the id.
    pub fn delete_passkey(&mut self, id: &str) -> (r: Result<(), VaultError>)
        requires
            old(self).wf(),
        ensures
            final(self).wf(),
            final(self).session == old(self).session,
            final(self).secret == old(self).secret,
            final(self).store@.passwords == old(self).store@.passwords,
            match r {
                Ok(_) => {
                    &&& old(self).session.expiry is Some
                    &&& passkey_ids(old(self).store@.passkeys).contains(id@)
                    &&& !passkey_ids(final(self).store@.passkeys).contains(id@)
                    &&& forall|i: int|
                        0 <= i < old(self).store@.passkeys.len() && (#[trigger] old(self).store@.passkeys[i]).id == id@ ==> final(self).store@.passkeys == old(self).store@.passkeys.remove(i)
                },
                Err(e) => {
                    &&& final(self).store@ == old(self).store@
                    &&& if is_refusal(e) {
                        refused(old(self).session.expiry, e)
                    } else {
                        old(self).session.expiry is Some && e == VaultError::NotFound
                            && !passkey_ids(old(self).store@.passkeys).contains(id@)
                    }
                },
            },
    {
        self.guard()?;
        self.store.delete_passkey(id)
    }

    /// Exports all credentials, passwords in the clear, behind the session
    /// guard.
    pub fn export(&self) -> (r: Result<Vec<Vec<String>>, VaultError>)
        ensures
            match r {
                Ok(table) => self.session.expiry is Some && is_export(
                    self.store@.passwords,
                    self.key(),
                    table_texts(table@),
                ),
                Err(e) => is_refusal(e) && refused(self.session.expiry, e),
            },
    {
        self.guard()?;
        Ok(export_csv(&self.store, borrow_option(&self.secret)))
    }

    /// Exports all passkeys, behind the session guard.
    pub fn export_passkeys(&self) -> (r: Result<Vec<Vec<String>>, VaultError>)
        ensures
            match r {
                Ok(table) => self.session.expiry is Some && is_passkey_export(
                    self.store@.passkeys,
                    table_texts(table@),
                ),
                Err(e) => is_refusal(e) && refused(self.session.expiry, e),
            },
    {
        self.guard()?;
        Ok(export_passkeys_csv(&self.store))
    }

    /// Imports rows of credentials, behind the session guard. A refusal by
    /// the guard changes nothing; past the guard the call does what
    /// `import_outcome` says.
    pub fn import(&mut self, headers: &Vec<String>, records: &Vec<Vec<String>>) -> (r: Result<
        (),
        VaultError,
    >)
        requires
            old(self).wf(),
        ensures
            final(self).wf(),
            final(self).session == old(self).session,
            final(self).secret == old(self).secret,
            final(self).store@.passkeys == old(self).store@.passkeys,
            was_refused(r) ==> refused(old(self).session.expiry, r->Err_0) && final(self).store@ == old(self).store@,
            !was_refused(r) ==> old(self).session.expiry is Some
                && exists|seeds: Seq<SeedView>, done: nat| #[trigger]
                import_outcome(
                    old(self).store@.passwords,
                    final(self).store@.passwords,
                    r,
                    old(self).key(),
                    row_texts(headers@),
                    table_texts(records@),
                    seeds,
                    done,
                ),
    {
        self.guard()?;
        let r = import_csv(&mut self.store, borrow_option(&self.secret), headers, records);
        proof {
            let (seeds, done) = choose|seeds: Seq<SeedView>, done: nat| #[trigger]
                import_outcome(
                    old(self).store@.passwords,
                    self.store@.passwords,
                    r,
                    old(self).key(),
                    row_texts(headers@),
                    table_texts(records@),
                    seeds,
                    done,
                );
            if r is Err {
                crate::transfer::lemma_import_error_is_no_refusal(
                    self.store@.passwords,
                    old(self).key(),
                    row_texts(headers@),
                    table_texts(records@),
                    seeds,
                    done,
                    r->Err_0,
                );
            }
        }
        r
    }

    /// Imports rows of passkeys, behind the session guard. A refusal by the
    /// guard changes nothing; past the guard the call does what
    /// `passkey_import_outcome` says.
    pub fn import_passkeys(&mut self, headers: &Vec<String>, records: &Vec<Vec<String>>) -> (r:
        Result<(), VaultError>)
        requires
            old(self).wf(),
        ensures
            final(self).wf(),
            final(self).session == old(self).session,
            final(self).secret == old(self).secret,
            final(self).store@.passwords == old(self).store@.passwords,
            was_refused(r) ==> refused(old(self).session.expiry, r->Err_0) && final(self).store@ == old(self).store@,
            !was_refused(r) ==> old(self).session.expiry is Some
                && exists|ids: Seq<Seq<char>>, times: Seq<Seq<char>>, done: nat| #[trigger]
                passkey_import_outcome(
                    old(self).store@.passkeys,
                    final(self).store@.passkeys,
                    r,
                    row_texts(headers@),
                    table_texts(records@),
                    ids,
                    times,
                    done,
                ),
    {
        self.guard()?;
        let r = import_passkeys_csv(&mut self.store, headers, records);
        proof {
            let (ids, times, done) = choose|ids: Seq<Seq<char>>, times: Seq<Seq<char>>, done: nat|
             #[trigger]
                passkey_import_outcome(
                    old(self).store@.passkeys,
                    self.store@.passkeys,
                    r,
                    row_texts(headers@),
                    table_texts(records@),
                    ids,
                    times,
                    done,
                );
            if r is Err {
                assert(!is_refusal(r->Err_0));
            }
        }
        r
    }
}

} // verus!
