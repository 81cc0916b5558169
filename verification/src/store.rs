use vstd::prelude::*;

use crate::cipher::{
    derived_key, encrypt_for_id_with, is_blob_of, revealed, sealable, sealed_blob, secret_text,
    shown_secret,
};
use crate::error::VaultError;
use crate::record::{
    copy_option, credential_views, option_str_text, option_text, own_option,
    passkey_views, CredentialPatch, CredentialView, PasskeyRecord, PasskeyView, PasswordRecord,
    PatchView,
};
use crate::order::{is_ranking, is_wanted, key_texts, lemma_ranking_has_no_duplicates, precedes, ranked_positions};
use crate::text::{
    contains_folded, lemma_text_lt_order, same_text, text_contains, text_less, text_lt,
};

verus! {

/// The entries of the vault: credentials and passkeys, each kind in the
/// order in which its entries were created.
pub struct VaultStore {
    passwords: Vec<PasswordRecord>,
    passkeys: Vec<PasskeyRecord>,
}

/// What a `VaultStore` holds.
pub struct VaultView {
    pub passwords: Seq<CredentialView>,
    pub passkeys: Seq<PasskeyView>,
}

/// What is drawn afresh for a new credential or for a new password of an old
/// one: an id and a creation time, which only a new entry takes, and the
/// nonce under which the password is sealed.
#[derive(Clone, Debug, PartialEq, Eq)]
pub struct Seed {
    pub id: String,
    pub created_at: String,
    pub nonce: [u8; 12],
}

/// What a `Seed` holds, as plain values.
pub struct SeedView {
    pub id: Seq<char>,
    pub created_at: Seq<char>,
    pub nonce: Seq<u8>,
}

impl View for Seed {
    type V = SeedView;

    open spec fn view(&self) -> SeedView {
        SeedView { id: self.id@, created_at: self.created_at@, nonce: self.nonce@ }
    }
}

impl View for VaultStore {
    type V = VaultView;

    closed spec fn view(&self) -> VaultView {
        VaultView {
            passwords: credential_views(self.passwords@),
            passkeys: passkey_views(self.passkeys@),
        }
    }
}

/// The ids of a list of credentials.
pub open spec fn credential_ids(rows: Seq<CredentialView>) -> Seq<Seq<char>> {
    Seq::new(rows.len(), |i: int| rows[i].id)
}

/// The ids of a list of passkeys.
pub open spec fn passkey_ids(rows: Seq<PasskeyView>) -> Seq<Seq<char>> {
    Seq::new(rows.len(), |i: int| rows[i].id)
}

/// Whether what a store holds is well formed: no two credentials share an
/// id, and no two passkeys do.
pub open spec fn well_formed(view: VaultView) -> bool {
    credential_ids(view.passwords).no_duplicates() && passkey_ids(view.passkeys).no_duplicates()
}

/// Whether credential `i` is newer than credential `j`: it was created
/// later, or at the same time and stands first.
pub open spec fn newer(rows: Seq<CredentialView>, i: int, j: int) -> bool {
    text_lt(rows[j].created_at, rows[i].created_at) || (rows[j].created_at == rows[i].created_at
        && i < j)
}

/// Whether credential `i` is the most recent one for `url`.
pub open spec fn is_latest_for_url(rows: Seq<CredentialView>, url: Seq<char>, i: int) -> bool {
    &&& 0 <= i < rows.len()
    &&& rows[i].url == url
    &&& forall|j: int|
        0 <= j < rows.len() && j != i && (#[trigger] rows[j]).url == url ==> newer(rows, i, j)
}

/// The position of the most recent credential for `url`, if there is one.
pub open spec fn latest_for_url(rows: Seq<CredentialView>, url: Seq<char>) -> Option<int> {
    if exists|i: int| is_latest_for_url(rows, url, i) {
        Some(choose|i: int| is_latest_for_url(rows, url, i))
    } else {
        None
    }
}

/// At most one credential is the most recent one for a url.
pub proof fn lemma_latest_is_unique(rows: Seq<CredentialView>, url: Seq<char>, i: int, j: int)
    requires
        is_latest_for_url(rows, url, i),
        is_latest_for_url(rows, url, j),
    ensures
        i == j,
{
    if i != j {
        assert(newer(rows, i, j));
        assert(newer(rows, j, i));
        lemma_text_lt_order(rows[i].created_at, rows[j].created_at, rows[i].created_at);
    }
}

/// An explicitly given value of an optional field wins; without one the
/// field keeps what it had.
pub open spec fn merged(given: Option<Seq<char>>, kept: Option<Seq<char>>) -> Option<Seq<char>> {
    if given is Some {
        given
    } else {
        kept
    }
}

/// The id under whose key an upsert for `url` seals the password: that of
/// the most recent credential for the url, or the fresh id where there is
/// none.
pub open spec fn upsert_id(rows: Seq<CredentialView>, url: Seq<char>, fresh_id: Seq<char>) -> Seq<
    char,
> {
    match latest_for_url(rows, url) {
        Some(i) => rows[i].id,
        None => fresh_id,
    }
}

/// The credential that an upsert for `url` leaves: the most recent one for
/// the url with username and password overwritten and title and note merged,
/// id and creation time as they were; or a new one where there is none.
pub open spec fn upserted_record(
    rows: Seq<CredentialView>,
    url: Seq<char>,
    username: Seq<char>,
    blob: Seq<char>,
    title: Option<Seq<char>>,
    note: Option<Seq<char>>,
    fresh_id: Seq<char>,
    created_at: Seq<char>,
) -> CredentialView {
    match latest_for_url(rows, url) {
        Some(i) => CredentialView {
            id: rows[i].id,
            url: url,
            username: username,
            password: blob,
            title: merged(title, rows[i].title),
            note: merged(note, rows[i].note),
            created_at: rows[i].created_at,
        },
        None => CredentialView {
            id: fresh_id,
            url: url,
            username: username,
            password: blob,
            title: title,
            note: note,
            created_at: created_at,
        },
    }
}

/// The credentials after an upsert for `url` that leaves `record`.
pub open spec fn upserted(rows: Seq<CredentialView>, url: Seq<char>, record: CredentialView) -> Seq<
    CredentialView,
> {
    match latest_for_url(rows, url) {
        Some(i) => rows.update(i, record),
        None => rows.push(record),
    }
}

/// Why an upsert fails, if it does: no master secret is configured, the
/// password is too long to be sealed, or a new entry is due and the fresh id
/// is taken.
pub open spec fn upsert_error(
    rows: Seq<CredentialView>,
    secret: Option<Seq<char>>,
    url: Seq<char>,
    password: Seq<char>,
    fresh_id: Seq<char>,
) -> Option<VaultError> {
    if secret is None {
        Some(VaultError::MissingSecret)
    } else if !sealable(password) {
        Some(VaultError::PlaintextTooLong)
    } else if latest_for_url(rows, url) is None && credential_ids(rows).contains(fresh_id) {
        Some(VaultError::DuplicateId)
    } else {
        None
    }
}

/// A credential as a reader is shown it: with the password decrypted, or as
/// stored where it cannot be decrypted.
pub open spec fn shown(secret: Option<Seq<char>>, row: CredentialView) -> CredentialView {
    CredentialView { password: revealed(secret, row.id, row.password), ..row }
}

/// The view of the outcome of a call that returns a credential.
pub open spec fn record_outcome(r: Result<PasswordRecord, VaultError>) -> Result<
    CredentialView,
    VaultError,
> {
    match r {
        Ok(record) => Ok(record@),
        Err(e) => Err(e),
    }
}

/// Whether `after` and `r` are what an upsert makes of the credentials
/// `before`.
///
/// On success the record is the one that `upserted_record` describes, with
/// the password sealed under the key of the id that the record keeps or
/// takes and under the seed's nonce, which is the blob that `is_blob_of`
/// describes and no copy of the password; the credentials are as `upserted`
/// says; and a reader is shown the password that was given. A failure is the one
/// that `upsert_error` names, and the credentials are as before.
pub open spec fn upsert_outcome(
    before: Seq<CredentialView>,
    after: Seq<CredentialView>,
    r: Result<CredentialView, VaultError>,
    secret: Option<Seq<char>>,
    seed: SeedView,
    url: Seq<char>,
    username: Seq<char>,
    password: Seq<char>,
    title: Option<Seq<char>>,
    note: Option<Seq<char>>,
) -> bool {
    match r {
        Ok(record) => {
            &&& upsert_error(before, secret, url, password, seed.id) is None
            &&& secret is Some
            &&& record == upserted_record(
                before,
                url,
                username,
                sealed_blob(
                    derived_key(secret->0, upsert_id(before, url, seed.id)),
                    seed.nonce,
                    password,
                ),
                title,
                note,
                seed.id,
                seed.created_at,
            )
            &&& after == upserted(before, url, record)
            &&& is_blob_of(derived_key(secret->0, record.id), seed.nonce, password, record.password)
            &&& shown(secret, record).password == password
        },
        Err(e) => {
            &&& upsert_error(before, secret, url, password, seed.id) == Some(e)
            &&& after == before
        },
    }
}

impl VaultStore {
    /// Whether the store is well formed. Every store that this library hands
    /// out is.
    pub open spec fn wf(&self) -> bool {
        well_formed(self@)
    }

    /// The empty store.
    pub fn new() -> (store: VaultStore)
        ensures
            store.wf(),
            store@.passwords.len() == 0,
            store@.passkeys.len() == 0,
    {
        VaultStore { passwords: Vec::new(), passkeys: Vec::new() }
    }

    /// The credentials, in the order in which they were created.
    pub fn passwords(&self) -> (r: &Vec<PasswordRecord>)
        ensures
            credential_views(r@) == self@.passwords,
    {
        &self.passwords
    }

    /// The passkeys, in the order in which they were created.
    pub fn passkeys(&self) -> (r: &Vec<PasskeyRecord>)
        ensures
            passkey_views(r@) == self@.passkeys,
    {
        &self.passkeys
    }

    /// The position of the credential with the given id.
    pub fn find_password(&self, id: &str) -> (r: Option<usize>)
        ensures
            match r {
                Some(i) => i < self@.passwords.len() && self@.passwords[i as int].id == id@,
                None => !credential_ids(self@.passwords).contains(id@),
            },
    {
        let mut i: usize = 0;
        while i < self.passwords.len()
            invariant
                i <= self.passwords@.len(),
                forall|j: int| 0 <= j < i ==> self.passwords@[j]@.id != id@,
            decreases self.passwords@.len() - i,
        {
            if same_text(self.passwords[i].id.as_str(), id) {
                return Some(i);
            }
            i += 1;
        }
        proof {
            let ids = credential_ids(self@.passwords);
            assert forall|j: int| 0 <= j < ids.len() implies ids[j] != id@ by {
                assert(ids[j] == self.passwords@[j]@.id);
            }
        }
        None
    }

    /// The position of the passkey with the given id.
    pub fn find_passkey(&self, id: &str) -> (r: Option<usize>)
        ensures
            match r {
                Some(i) => i < self@.passkeys.len() && self@.passkeys[i as int].id == id@,
                None => !passkey_ids(self@.passkeys).contains(id@),
            },
    {
        let mut i: usize = 0;
        while i < self.passkeys.len()
            invariant
                i <= self.passkeys@.len(),
                forall|j: int| 0 <= j < i ==> self.passkeys@[j]@.id != id@,
            decreases self.passkeys@.len() - i,
        {
            if same_text(self.passkeys[i].id.as_str(), id) {
                return Some(i);
            }
            i += 1;
        }
        proof {
            let ids = passkey_ids(self@.passkeys);
            assert forall|j: int| 0 <= j < ids.len() implies ids[j] != id@ by {
                assert(ids[j] == self.passkeys@[j]@.id);
            }
        }
        None
    }

    /// Takes in a credential as it was stored before, ciphertext and all.
    /// Fails with `DuplicateId`, and takes nothing in, where a credential
    /// with its id is there already.
    pub fn restore_password(&mut self, record: PasswordRecord) -> (r: Result<(), VaultError>)
        requires
            old(self).wf(),
        ensures
            final(self).wf(),
            final(self)@.passkeys == old(self)@.passkeys,
            match r {
                Ok(_) => !credential_ids(old(self)@.passwords).contains(record@.id) && final(self)@.passwords == old(self)@.passwords.push(record@),
                Err(e) => e == VaultError::DuplicateId && credential_ids(
                    old(self)@.passwords,
                ).contains(record@.id) && final(self)@ == old(self)@,
            },
    {
        if self.find_password(record.id.as_str()).is_some() {
            proof {
                let i = choose|i: int|
                    0 <= i < self@.passwords.len() && self@.passwords[i].id == record@.id;
                assert(credential_ids(self@.passwords)[i] == record@.id);
            }
            return Err(VaultError::DuplicateId);
        }
        let ghost before = self@.passwords;
        self.passwords.push(record);
        proof {
            assert(self@.passwords =~= before.push(record@));
            lemma_push_keeps_ids_distinct(before, record@);
        }
        Ok(())
    }

    /// Takes in a passkey as it was stored before. Fails with `DuplicateId`,
    /// and takes nothing in, where a passkey with its id is there already.
    pub fn restore_passkey(&mut self, record: PasskeyRecord) -> (r: Result<(), VaultError>)
        requires
            old(self).wf(),
        ensures
            final(self).wf(),
            final(self)@.passwords == old(self)@.passwords,
            match r {
                Ok(_) => !passkey_ids(old(self)@.passkeys).contains(record@.id) && final(self)@.passkeys == old(self)@.passkeys.push(record@),
                Err(e) => e == VaultError::DuplicateId && passkey_ids(old(self)@.passkeys).contains(
                    record@.id,
                ) && final(self)@ == old(self)@,
            },
    {
        if self.find_passkey(record.id.as_str()).is_some() {
            proof {
                let i = choose|i: int|
                    0 <= i < self@.passkeys.len() && self@.passkeys[i].id == record@.id;
                assert(passkey_ids(self@.passkeys)[i] == record@.id);
            }
            return Err(VaultError::DuplicateId);
        }
        let ghost before = self@.passkeys;
        self.passkeys.push(record);
        proof {
            assert(self@.passkeys =~= before.push(record@));
            lemma_push_keeps_passkey_ids_distinct(before, record@);
        }
        Ok(())
    }
}

/// A credential with an id that no other has can join them.
pub proof fn lemma_push_keeps_ids_distinct(rows: Seq<CredentialView>, record: CredentialView)
    requires
        credential_ids(rows).no_duplicates(),
        !credential_ids(rows).contains(record.id),
    ensures
        credential_ids(rows.push(record)).no_duplicates(),
{
    let ids = credential_ids(rows);
    let after = credential_ids(rows.push(record));
    assert forall|i: int, j: int| 0 <= i < after.len() && 0 <= j < after.len() && i != j implies after[i]
        != after[j] by {
        if i < rows.len() && j < rows.len() {
            assert(after[i] == ids[i] && after[j] == ids[j]);
        } else if i < rows.len() {
            assert(after[i] == ids[i]);
            assert(ids.contains(ids[i]));
        } else {
            assert(after[j] == ids[j]);
            assert(ids.contains(ids[j]));
        }
    }
}

/// A passkey with an id that no other has can join them.
pub proof fn lemma_push_keeps_passkey_ids_distinct(rows: Seq<PasskeyView>, record: PasskeyView)
    requires
        passkey_ids(rows).no_duplicates(),
        !passkey_ids(rows).contains(record.id),
    ensures
        passkey_ids(rows.push(record)).no_duplicates(),
{
    let ids = passkey_ids(rows);
    let after = passkey_ids(rows.push(record));
    assert forall|i: int, j: int| 0 <= i < after.len() && 0 <= j < after.len() && i != j implies after[i]
        != after[j] by {
        if i < rows.len() && j < rows.len() {
            assert(after[i] == ids[i] && after[j] == ids[j]);
        } else if i < rows.len() {
            assert(after[i] == ids[i]);
            assert(ids.contains(ids[i]));
        } else {
            assert(after[j] == ids[j]);
            assert(ids.contains(ids[j]));
        }
    }
}

/// Replacing a credential by one with the same id keeps ids distinct.
pub proof fn lemma_update_keeps_ids_distinct(rows: Seq<CredentialView>, i: int, record: CredentialView)
    requires
        credential_ids(rows).no_duplicates(),
        0 <= i < rows.len(),
        record.id == rows[i].id,
    ensures
        credential_ids(rows.update(i, record)) == credential_ids(rows),
{
    assert(credential_ids(rows.update(i, record)) =~= credential_ids(rows));
}

impl VaultStore {
    /// The position of the most recent credential for `url`: among those
    /// with that url the one created last, and where several were created
    /// at the same time, the one that stands first.
    pub fn find_latest_for_url(&self, url: &str) -> (r: Option<usize>)
        ensures
            match r {
                Some(i) => latest_for_url(self@.passwords, url@) == Some(i as int)
                    && is_latest_for_url(self@.passwords, url@, i as int),
                None => latest_for_url(self@.passwords, url@) is None && forall|j: int|
                    0 <= j < self@.passwords.len() ==> (#[trigger] self@.passwords[j]).url != url@,
            },
    {
        let ghost rows = self@.passwords;
        let mut best: Option<usize> = None;
        let mut k: usize = 0;
        while k < self.passwords.len()
            invariant
                rows == self@.passwords,
                rows.len() == self.passwords@.len(),
                k <= rows.len(),
                match best {
                    None => forall|j: int| 0 <= j < k ==> (#[trigger] rows[j]).url != url@,
                    Some(b) => {
                        &&& b < k
                        &&& rows[b as int].url == url@
                        &&& forall|j: int|
                            0 <= j < k && j != b && (#[trigger] rows[j]).url == url@ ==> newer(
                                rows,
                                b as int,
                                j,
                            )
                    },
                },
            decreases rows.len() - k,
        {
            assert(rows[k as int] == self.passwords@[k as int]@);
            if same_text(self.passwords[k].url.as_str(), url) {
                match best {
                    None => {
                        best = Some(k);
                    },
                    Some(b) => {
                        assert(rows[b as int] == self.passwords@[b as int]@);
                        let later = text_less(
                            self.passwords[b].created_at.as_str(),
                            self.passwords[k].created_at.as_str(),
                        );
                        proof {
                            lemma_text_lt_order(
                                rows[b as int].created_at,
                                rows[k as int].created_at,
                                rows[b as int].created_at,
                            );
                        }
                        if later {
                            proof {
                                assert forall|j: int|
                                    0 <= j < k + 1 && j != k && (#[trigger] rows[j]).url
                                        == url@ implies newer(rows, k as int, j) by {
                                    if j != b {
                                        assert(newer(rows, b as int, j));
                                        lemma_text_lt_order(
                                            rows[j].created_at,
                                            rows[b as int].created_at,
                                            rows[k as int].created_at,
                                        );
                                    }
                                }
                            }
                            best = Some(k);
                        }
                    },
                }
            }
            k += 1;
        }
        proof {
            match best {
                Some(b) => {
                    assert(is_latest_for_url(rows, url@, b as int));
                    let chosen = choose|i: int| is_latest_for_url(rows, url@, i);
                    lemma_latest_is_unique(rows, url@, b as int, chosen);
                },
                None => {
                    assert forall|i: int| !is_latest_for_url(rows, url@, i) by {
                        if 0 <= i < rows.len() {
                            assert(rows[i].url != url@);
                        }
                    }
                },
            }
        }
        best
    }

    /// Adds a credential for `url`, or overwrites the most recent one for
    /// it.
    ///
    /// Where a credential for the url exists, the most recent one has its
    /// username and password overwritten, and its title and note merged: a
    /// value that is given wins, and a field for which none is given keeps
    /// what it had. Its id and creation time stay, and the password is
    /// sealed under the key of that id. Where none exists, a new credential
    /// takes the id and the creation time of the seed. Either way the
    /// password is sealed under the seed's nonce, and the resulting record is
    /// returned.
    ///
    /// What the call leaves and returns is stated by `upsert_outcome`; it
    /// fails as `upsert_error` says and then changes nothing.
    pub fn insert_password(
        &mut self,
        secret: Option<&str>,
        seed: &Seed,
        url: &str,
        username: &str,
        password: &str,
        title: Option<&str>,
        note: Option<&str>,
    ) -> (r: Result<PasswordRecord, VaultError>)
        requires
            old(self).wf(),
        ensures
            final(self).wf(),
            final(self)@.passkeys == old(self)@.passkeys,
            upsert_outcome(
                old(self)@.passwords,
                final(self)@.passwords,
                record_outcome(r),
                secret_text(secret),
                seed@,
                url@,
                username@,
                password@,
                option_str_text(title),
                option_str_text(note),
            ),
    {
        let ghost before = self@.passwords;
        match self.find_latest_for_url(url) {
            Some(i) => {
                assert(before[i as int] == self.passwords@[i as int]@);
                let blob = encrypt_for_id_with(
                    secret,
                    self.passwords[i].id.as_str(),
                    &seed.nonce,
                    password,
                )?;
                let record = PasswordRecord {
                    id: self.passwords[i].id.clone(),
                    url: url.to_owned(),
                    username: username.to_owned(),
                    password: blob,
                    title: match title {
                        Some(t) => Some(t.to_owned()),
                        None => copy_option(&self.passwords[i].title),
                    },
                    note: match note {
                        Some(n) => Some(n.to_owned()),
                        None => copy_option(&self.passwords[i].note),
                    },
                    created_at: self.passwords[i].created_at.clone(),
                };
                let out = record.duplicate();
                self.passwords.set(i, record);
                proof {
                    assert(self@.passwords =~= before.update(i as int, out@));
                    lemma_update_keeps_ids_distinct(before, i as int, out@);
                }
                Ok(out)
            },
            None => {
                let blob = encrypt_for_id_with(secret, seed.id.as_str(), &seed.nonce, password)?;
                if self.find_password(seed.id.as_str()).is_some() {
                    proof {
                        let i = choose|i: int|
                            0 <= i < before.len() && before[i].id == seed.id@;
                        assert(credential_ids(before)[i] == seed.id@);
                    }
                    return Err(VaultError::DuplicateId);
                }
                let record = PasswordRecord {
                    id: seed.id.clone(),
                    url: url.to_owned(),
                    username: username.to_owned(),
                    password: blob,
                    title: own_option(title),
                    note: own_option(note),
                    created_at: seed.created_at.clone(),
                };
                let out = record.duplicate();
                self.passwords.push(record);
                proof {
                    assert(self@.passwords =~= before.push(out@));
                    lemma_push_keeps_ids_distinct(before, out@);
                }
                Ok(out)
            },
        }
    }
}

/// The test that a credential is for `url`.
pub open spec fn for_url(url: Seq<char>) -> spec_fn(CredentialView) -> bool {
    |row: CredentialView| row.url == url
}

/// The step from a stored credential to the one that a reader is shown.
pub open spec fn shown_under(secret: Option<Seq<char>>) -> spec_fn(CredentialView) -> CredentialView {
    |row: CredentialView| shown(secret, row)
}

/// What a reader gets for `url`: the credentials with exactly that url, in
/// the order of the store, each as it is shown.
pub open spec fn fetched(rows: Seq<CredentialView>, secret: Option<Seq<char>>, url: Seq<char>) -> Seq<
    CredentialView,
> {
    rows.filter(for_url(url)).map_values(shown_under(secret))
}

/// The text of an optional field in a search: the empty text where the
/// field holds nothing.
pub open spec fn text_or_empty(field: Option<Seq<char>>) -> Seq<char> {
    match field {
        Some(text) => text,
        None => Seq::empty(),
    }
}

/// Whether a keyword stands in the id, the url, the username, the title or
/// the note of a credential, ASCII letters compared without regard to case.
pub open spec fn credential_matches(row: CredentialView, keyword: Seq<char>) -> bool {
    ||| text_contains(row.id, keyword)
    ||| text_contains(row.url, keyword)
    ||| text_contains(row.username, keyword)
    ||| text_contains(text_or_empty(row.title), keyword)
    ||| text_contains(text_or_empty(row.note), keyword)
}

/// For each credential, whether the keyword matches it.
pub open spec fn credential_flags(rows: Seq<CredentialView>, keyword: Seq<char>) -> Seq<bool> {
    Seq::new(rows.len(), |i: int| credential_matches(rows[i], keyword))
}

/// The credentials at the listed positions, each as it is shown.
pub open spec fn shown_at(rows: Seq<CredentialView>, secret: Option<Seq<char>>, order: Seq<usize>) -> Seq<
    CredentialView,
> {
    Seq::new(order.len(), |k: int| shown(secret, rows[order[k] as int]))
}

/// Whether `result` is what a search for `keyword` gives: the credentials
/// that the keyword matches, each once and as it is shown, from the greatest
/// id down.
pub open spec fn is_search_result(
    rows: Seq<CredentialView>,
    secret: Option<Seq<char>>,
    keyword: Seq<char>,
    result: Seq<CredentialView>,
) -> bool {
    exists|order: Seq<usize>|
        is_ranking(credential_ids(rows), credential_flags(rows, keyword), order) && result
            == #[trigger] shown_at(rows, secret, order)
}

/// The value of a field after a patch: the patch's, where it has one.
pub open spec fn patched_text(given: Option<Seq<char>>, kept: Seq<char>) -> Seq<char> {
    match given {
        Some(text) => text,
        None => kept,
    }
}

/// A credential after a patch: each field that the patch sets has the
/// patch's value, the password in the form of `blob`; every other field, the
/// id and the creation time are as they were.
pub open spec fn patched(row: CredentialView, patch: PatchView, blob: Seq<char>) -> CredentialView {
    CredentialView {
        id: row.id,
        url: patched_text(patch.url, row.url),
        username: patched_text(patch.username, row.username),
        password: if patch.password is Some {
            blob
        } else {
            row.password
        },
        title: merged(patch.title, row.title),
        note: merged(patch.note, row.note),
        created_at: row.created_at,
    }
}

/// Why an update fails, if it does: no credential has the id; or a new
/// password is given and no master secret is configured, or the password is
/// too long to be sealed.
pub open spec fn update_error(
    rows: Seq<CredentialView>,
    secret: Option<Seq<char>>,
    id: Seq<char>,
    patch: PatchView,
) -> Option<VaultError> {
    if !credential_ids(rows).contains(id) {
        Some(VaultError::NotFound)
    } else if patch.password is Some && secret is None {
        Some(VaultError::MissingSecret)
    } else if patch.password is Some && !sealable(patch.password->0) {
        Some(VaultError::PlaintextTooLong)
    } else {
        None
    }
}

/// The stored form of the password after an update: the new password
/// sealed under the key of the same id, or the stored blob as it was where
/// the patch gives no password.
pub open spec fn updated_blob(
    row: CredentialView,
    secret: Option<Seq<char>>,
    nonce: Seq<u8>,
    patch: PatchView,
) -> Seq<char> {
    if patch.password is Some && secret is Some {
        sealed_blob(derived_key(secret->0, row.id), nonce, patch.password->0)
    } else {
        row.password
    }
}

/// Whether `after` and `r` are what an update of the credential `id` makes
/// of the credentials `before`.
///
/// On success the credential with the id is as `patched` says, with the
/// stored form of the password as `updated_blob` says; every other
/// credential is as it was; and where a password was given, its stored
/// form is the blob that `is_blob_of` describes, no copy of the password,
/// and a reader is shown the new password. A failure is the one that `update_error` names, and the
/// credentials are as before.
pub open spec fn update_outcome(
    before: Seq<CredentialView>,
    after: Seq<CredentialView>,
    r: Result<CredentialView, VaultError>,
    secret: Option<Seq<char>>,
    nonce: Seq<u8>,
    id: Seq<char>,
    patch: PatchView,
) -> bool {
    match r {
        Ok(record) => {
            &&& update_error(before, secret, id, patch) is None
            &&& record.id == id
            &&& patch.password matches Some(p) ==> secret is Some && is_blob_of(
                derived_key(secret->0, id),
                nonce,
                p,
                record.password,
            ) && shown(secret, record).password == p
            &&& forall|i: int|
                0 <= i < before.len() && (#[trigger] before[i]).id == id ==> {
                    &&& record == patched(
                        before[i],
                        patch,
                        updated_blob(before[i], secret, nonce, patch),
                    )
                    &&& after == before.update(i, record)
                }
        },
        Err(e) => {
            &&& update_error(before, secret, id, patch) == Some(e)
            &&& after == before
        },
    }
}

/// Taking one credential out keeps ids distinct.
pub proof fn lemma_remove_keeps_ids_distinct(rows: Seq<CredentialView>, i: int)
    requires
        credential_ids(rows).no_duplicates(),
        0 <= i < rows.len(),
    ensures
        credential_ids(rows.remove(i)).no_duplicates(),
        !credential_ids(rows.remove(i)).contains(rows[i].id),
{
    let ids = credential_ids(rows);
    let after = credential_ids(rows.remove(i));
    assert forall|k: int| 0 <= k < after.len() implies after[k] == ids[if k < i {
        k
    } else {
        k + 1
    }] by {}
    assert forall|k: int, l: int| 0 <= k < after.len() && 0 <= l < after.len() && k != l implies after[k]
        != after[l] by {
        let k0 = if k < i {
            k
        } else {
            k + 1
        };
        let l0 = if l < i {
            l
        } else {
            l + 1
        };
        assert(after[k] == ids[k0] && after[l] == ids[l0]);
    }
    assert forall|k: int| 0 <= k < after.len() implies after[k] != rows[i].id by {
        let k0 = if k < i {
            k
        } else {
            k + 1
        };
        assert(after[k] == ids[k0]);
        assert(ids[i] == rows[i].id);
    }
}

/// Taking one passkey out keeps ids distinct.
pub proof fn lemma_remove_keeps_passkey_ids_distinct(rows: Seq<PasskeyView>, i: int)
    requires
        passkey_ids(rows).no_duplicates(),
        0 <= i < rows.len(),
    ensures
        passkey_ids(rows.remove(i)).no_duplicates(),
        !passkey_ids(rows.remove(i)).contains(rows[i].id),
{
    let ids = passkey_ids(rows);
    let after = passkey_ids(rows.remove(i));
    assert forall|k: int, l: int| 0 <= k < after.len() && 0 <= l < after.len() && k != l implies after[k]
        != after[l] by {
        let k0 = if k < i {
            k
        } else {
            k + 1
        };
        let l0 = if l < i {
            l
        } else {
            l + 1
        };
        assert(after[k] == ids[k0] && after[l] == ids[l0]);
    }
    assert forall|k: int| 0 <= k < after.len() implies after[k] != rows[i].id by {
        let k0 = if k < i {
            k
        } else {
            k + 1
        };
        assert(after[k] == ids[k0]);
        assert(ids[i] == rows[i].id);
    }
}

/// A copy of a credential as a reader is shown it: with the password
/// decrypted, or as stored where it cannot be decrypted.
pub fn shown_record(secret: Option<&str>, record: &PasswordRecord) -> (r: PasswordRecord)
    ensures
        r@ == shown(secret_text(secret), record@),
{
    PasswordRecord {
        id: record.id.clone(),
        url: record.url.clone(),
        username: record.username.clone(),
        password: shown_secret(secret, record.id.as_str(), record.password.as_str()),
        title: copy_option(&record.title),
        note: copy_option(&record.note),
        created_at: record.created_at.clone(),
    }
}

/// Whether the keyword stands in an optional field; a field that holds
/// nothing counts as the empty text.
pub fn field_contains(field: &Option<String>, keyword: &str) -> (r: bool)
    ensures
        r == text_contains(text_or_empty(option_text(*field)), keyword@),
{
    match field {
        Some(text) => contains_folded(text.as_str(), keyword),
        None => {
            let empty = String::new();
            contains_folded(empty.as_str(), keyword)
        },
    }
}

/// Whether a keyword matches a credential.
pub fn matches_credential(record: &PasswordRecord, keyword: &str) -> (r: bool)
    ensures
        r == credential_matches(record@, keyword@),
{
    contains_folded(record.id.as_str(), keyword) || contains_folded(record.url.as_str(), keyword)
        || contains_folded(record.username.as_str(), keyword) || field_contains(
        &record.title,
        keyword,
    ) || field_contains(&record.note, keyword)
}

impl VaultStore {
    /// All credentials whose url is exactly `url`, in the order of the
    /// store, each with its password decrypted, or with the stored
    /// ciphertext where it cannot be decrypted.
    pub fn fetch_by_url(&self, secret: Option<&str>, url: &str) -> (r: Vec<PasswordRecord>)
        ensures
            credential_views(r@) == fetched(self@.passwords, secret_text(secret), url@),
    {
        let ghost rows = self@.passwords;
        let ghost key = secret_text(secret);
        let mut out: Vec<PasswordRecord> = Vec::new();
        let mut k: usize = 0;
        proof {
            assert(rows.take(0) =~= Seq::<CredentialView>::empty());
            rows.take(0).lemma_filter_len(for_url(url@));
            assert(credential_views(out@) =~= fetched(rows.take(0), key, url@));
        }
        while k < self.passwords.len()
            invariant
                rows == self@.passwords,
                rows.len() == self.passwords@.len(),
                key == secret_text(secret),
                k <= rows.len(),
                credential_views(out@) == fetched(rows.take(k as int), key, url@),
            decreases rows.len() - k,
        {
            proof {
                assert(rows[k as int] == self.passwords@[k as int]@);
                assert(rows.take(k + 1) =~= rows.take(k as int).push(rows[k as int]));
                rows.take(k as int).lemma_filter_push(rows[k as int], for_url(url@));
            }
            let ghost shown_before = credential_views(out@);
            if same_text(self.passwords[k].url.as_str(), url) {
                out.push(shown_record(secret, &self.passwords[k]));
                proof {
                    assert(credential_views(out@) =~= shown_before.push(shown(key, rows[k as int])));
                    assert(fetched(rows.take(k + 1), key, url@) =~= fetched(
                        rows.take(k as int),
                        key,
                        url@,
                    ).push(shown(key, rows[k as int])));
                }
            }
            k += 1;
        }
        assert(rows.take(rows.len() as int) == rows);
        out
    }

    /// The credentials in whose id, url, username, title or note the keyword
    /// stands, ASCII letters compared without regard to case; each with its
    /// password decrypted, or with the stored ciphertext where it cannot be
    /// decrypted; from the greatest id down.
    pub fn search_entries(&self, secret: Option<&str>, keyword: &str) -> (r: Vec<PasswordRecord>)
        ensures
            is_search_result(
                self@.passwords,
                secret_text(secret),
                keyword@,
                credential_views(r@),
            ),
    {
        let ghost rows = self@.passwords;
        let ghost key = secret_text(secret);
        let mut ids: Vec<&str> = Vec::new();
        let mut flags: Vec<bool> = Vec::new();
        let mut k: usize = 0;
        while k < self.passwords.len()
            invariant
                rows == self@.passwords,
                rows.len() == self.passwords@.len(),
                k <= rows.len(),
                ids@.len() == k,
                flags@.len() == k,
                forall|j: int| 0 <= j < k ==> (#[trigger] ids@[j])@ == rows[j].id,
                forall|j: int| 0 <= j < k ==> #[trigger] flags@[j] == credential_matches(rows[j], keyword@),
            decreases rows.len() - k,
        {
            assert(rows[k as int] == self.passwords@[k as int]@);
            ids.push(self.passwords[k].id.as_str());
            flags.push(matches_credential(&self.passwords[k], keyword));
            k += 1;
        }
        assert(key_texts(ids@) =~= credential_ids(rows));
        assert(flags@ =~= credential_flags(rows, keyword@));
        let order = ranked_positions(&ids, &flags);
        let mut out: Vec<PasswordRecord> = Vec::new();
        let mut n: usize = 0;
        while n < order.len()
            invariant
                rows == self@.passwords,
                rows.len() == self.passwords@.len(),
                key == secret_text(secret),
                is_ranking(credential_ids(rows), credential_flags(rows, keyword@), order@),
                n <= order@.len(),
                out@.len() == n,
                forall|j: int| 0 <= j < n ==> (#[trigger] out@[j])@ == shown(key, rows[order@[j] as int]),
            decreases order@.len() - n,
        {
            let at: usize = order[n];
            assert(at < rows.len());
            assert(rows[at as int] == self.passwords@[at as int]@);
            out.push(shown_record(secret, &self.passwords[at]));
            n += 1;
        }
        assert(credential_views(out@) =~= shown_at(rows, key, order@));
        out
    }

    /// Changes the credential with the given id: each field that the patch
    /// sets takes the patch's value, and every other field stays as it is.
    /// A new password is sealed under the key of the same id and under the
    /// given nonce; without one the stored ciphertext stays as it is. The
    /// id and the creation time never change. The resulting record is
    /// returned.
    ///
    /// What the call leaves and returns is stated by `update_outcome`; it
    /// fails as `update_error` says and then changes nothing.
    pub fn update_entry(
        &mut self,
        secret: Option<&str>,
        nonce: &[u8; 12],
        id: &str,
        patch: &CredentialPatch,
    ) -> (r: Result<PasswordRecord, VaultError>)
        requires
            old(self).wf(),
        ensures
            final(self).wf(),
            final(self)@.passkeys == old(self)@.passkeys,
            update_outcome(
                old(self)@.passwords,
                final(self)@.passwords,
                record_outcome(r),
                secret_text(secret),
                nonce@,
                id@,
                patch@,
            ),
    {
        let ghost before = self@.passwords;
        let at = match self.find_password(id) {
            Some(at) => at,
            None => {
                return Err(VaultError::NotFound);
            },
        };
        proof {
            assert(before[at as int] == self.passwords@[at as int]@);
            assert(credential_ids(before)[at as int] == id@);
            assert forall|i: int| 0 <= i < before.len() && (#[trigger] before[i]).id == id@ implies i
                == at by {
                assert(credential_ids(before)[i] == id@);
            }
        }
        let blob = match &patch.password {
            Some(p) => encrypt_for_id_with(secret, self.passwords[at].id.as_str(), nonce, p.as_str())?,
            None => self.passwords[at].password.clone(),
        };
        let record = PasswordRecord {
            id: self.passwords[at].id.clone(),
            url: match &patch.url {
                Some(u) => u.clone(),
                None => self.passwords[at].url.clone(),
            },
            username: match &patch.username {
                Some(u) => u.clone(),
                None => self.passwords[at].username.clone(),
            },
            password: blob,
            title: match &patch.title {
                Some(t) => Some(t.clone()),
                None => copy_option(&self.passwords[at].title),
            },
            note: match &patch.note {
                Some(n) => Some(n.clone()),
                None => copy_option(&self.passwords[at].note),
            },
            created_at: self.passwords[at].created_at.clone(),
        };
        let out = record.duplicate();
        self.passwords.set(at, record);
        proof {
            assert(self@.passwords =~= before.update(at as int, out@));
            lemma_update_keeps_ids_distinct(before, at as int, out@);
        }
        Ok(out)
    }

    /// Removes the credential with the given id. Where no credential has the
    /// id nothing changes, and that is no error.
    pub fn delete_entry(&mut self, id: &str)
        requires
            old(self).wf(),
        ensures
            final(self).wf(),
            final(self)@.passkeys == old(self)@.passkeys,
            !credential_ids(final(self)@.passwords).contains(id@),
            !credential_ids(old(self)@.passwords).contains(id@) ==> final(self)@ == old(self)@,
            forall|i: int|
                0 <= i < old(self)@.passwords.len() && (#[trigger] old(self)@.passwords[i]).id == id@
                    ==> final(self)@.passwords == old(self)@.passwords.remove(i),
    {
        let ghost before = self@.passwords;
        match self.find_password(id) {
            None => {
                proof {
                    assert forall|i: int| 0 <= i < before.len() implies (#[trigger] before[i]).id
                        != id@ by {
                        assert(credential_ids(before)[i] == before[i].id);
                    }
                }
            },
            Some(at) => {
                proof {
                    assert(credential_ids(before)[at as int] == id@);
                    assert forall|i: int|
                        0 <= i < before.len() && (#[trigger] before[i]).id == id@ implies i
                        == at by {
                        assert(credential_ids(before)[i] == id@);
                        assert(credential_ids(before)[at as int] == id@);
                    }
                }
                let _ = self.passwords.remove(at);
                proof {
                    assert(self@.passwords =~= before.remove(at as int));
                    lemma_remove_keeps_ids_distinct(before, at as int);
                }
            },
        }
    }
}

/// The sign count that is stored for a given one: a counter is never
/// negative.
pub open spec fn stored_count(sign_count: i64) -> i64 {
    if sign_count < 0 {
        0
    } else {
        sign_count
    }
}

/// The test that a passkey belongs to a user of a relying party.
pub open spec fn of_user(rp_id: Seq<char>, user_handle: Seq<char>) -> spec_fn(PasskeyView) -> bool {
    |row: PasskeyView| row.rp_id == rp_id && row.user_handle == user_handle
}

/// Whether a keyword stands in the id, the relying party, the credential
/// id, the user handle, the title or the transports of a passkey, ASCII
/// letters compared without regard to case.
pub open spec fn passkey_matches(row: PasskeyView, keyword: Seq<char>) -> bool {
    ||| text_contains(row.id, keyword)
    ||| text_contains(row.rp_id, keyword)
    ||| text_contains(row.credential_id, keyword)
    ||| text_contains(row.user_handle, keyword)
    ||| text_contains(text_or_empty(row.title), keyword)
    ||| text_contains(text_or_empty(row.transports), keyword)
}

/// For each passkey, whether the keyword matches it.
pub open spec fn passkey_flags(rows: Seq<PasskeyView>, keyword: Seq<char>) -> Seq<bool> {
    Seq::new(rows.len(), |i: int| passkey_matches(rows[i], keyword))
}

/// The passkeys at the listed positions.
pub open spec fn passkeys_at(rows: Seq<PasskeyView>, order: Seq<usize>) -> Seq<PasskeyView> {
    Seq::new(order.len(), |k: int| rows[order[k] as int])
}

/// Whether `result` is what a search for `keyword` gives: the passkeys that
/// the keyword matches, each once, from the greatest id down.
pub open spec fn is_passkey_search_result(
    rows: Seq<PasskeyView>,
    keyword: Seq<char>,
    result: Seq<PasskeyView>,
) -> bool {
    exists|order: Seq<usize>|
        is_ranking(passkey_ids(rows), passkey_flags(rows, keyword), order) && result
            == #[trigger] passkeys_at(rows, order)
}

/// Whether a keyword matches a passkey.
pub fn matches_passkey(record: &PasskeyRecord, keyword: &str) -> (r: bool)
    ensures
        r == passkey_matches(record@, keyword@),
{
    contains_folded(record.id.as_str(), keyword) || contains_folded(record.rp_id.as_str(), keyword)
        || contains_folded(record.credential_id.as_str(), keyword) || contains_folded(
        record.user_handle.as_str(),
        keyword,
    ) || field_contains(&record.title, keyword) || field_contains(&record.transports, keyword)
}

impl VaultStore {
    /// Adds a passkey under the given fresh id and creation time. Every call
    /// adds an entry: passkeys are not merged. A negative sign count is
    /// stored as zero. The new record is returned.
    ///
    /// Fails with `DuplicateId`, and changes nothing, where a passkey with
    /// the id is there already.
    pub fn insert_passkey(
        &mut self,
        id: &str,
        created_at: &str,
        rp_id: &str,
        credential_id: &str,
        user_handle: &str,
        public_key: &str,
        sign_count: i64,
        title: Option<&str>,
        transports: Option<&str>,
    ) -> (r: Result<PasskeyRecord, VaultError>)
        requires
            old(self).wf(),
        ensures
            final(self).wf(),
            final(self)@.passwords == old(self)@.passwords,
            match r {
                Ok(record) => {
                    &&& !passkey_ids(old(self)@.passkeys).contains(id@)
                    &&& record@ == (PasskeyView {
                        id: id@,
                        rp_id: rp_id@,
                        credential_id: credential_id@,
                        user_handle: user_handle@,
                        public_key: public_key@,
                        sign_count: stored_count(sign_count),
                        title: option_str_text(title),
                        transports: option_str_text(transports),
                        created_at: created_at@,
                    })
                    &&& final(self)@.passkeys == old(self)@.passkeys.push(record@)
                },
                Err(e) => {
                    &&& e == VaultError::DuplicateId
                    &&& passkey_ids(old(self)@.passkeys).contains(id@)
                    &&& final(self)@ == old(self)@
                },
            },
    {
        let record = PasskeyRecord {
            id: id.to_owned(),
            rp_id: rp_id.to_owned(),
            credential_id: credential_id.to_owned(),
            user_handle: user_handle.to_owned(),
            public_key: public_key.to_owned(),
            sign_count: if sign_count < 0 {
                0
            } else {
                sign_count
            },
            title: own_option(title),
            transports: own_option(transports),
            created_at: created_at.to_owned(),
        };
        let out = record.duplicate();
        match self.restore_passkey(record) {
            Ok(_) => Ok(out),
            Err(e) => Err(e),
        }
    }

    /// The passkeys of one user of one relying party, in the order of the
    /// store.
    pub fn get_passkeys_by_user(&self, rp_id: &str, user_handle: &str) -> (r: Vec<PasskeyRecord>)
        ensures
            passkey_views(r@) == self@.passkeys.filter(of_user(rp_id@, user_handle@)),
    {
        let ghost rows = self@.passkeys;
        let ghost wanted = of_user(rp_id@, user_handle@);
        let mut out: Vec<PasskeyRecord> = Vec::new();
        let mut k: usize = 0;
        proof {
            assert(rows.take(0) =~= Seq::<PasskeyView>::empty());
            rows.take(0).lemma_filter_len(wanted);
            assert(passkey_views(out@) =~= rows.take(0).filter(wanted));
        }
        while k < self.passkeys.len()
            invariant
                rows == self@.passkeys,
                rows.len() == self.passkeys@.len(),
                wanted == of_user(rp_id@, user_handle@),
                k <= rows.len(),
                passkey_views(out@) == rows.take(k as int).filter(wanted),
            decreases rows.len() - k,
        {
            proof {
                assert(rows[k as int] == self.passkeys@[k as int]@);
                assert(rows.take(k + 1) =~= rows.take(k as int).push(rows[k as int]));
                rows.take(k as int).lemma_filter_push(rows[k as int], wanted);
            }
            let ghost views_before = passkey_views(out@);
            if same_text(self.passkeys[k].rp_id.as_str(), rp_id) && same_text(
                self.passkeys[k].user_handle.as_str(),
                user_handle,
            ) {
                out.push(self.passkeys[k].duplicate());
                proof {
                    assert(passkey_views(out@) =~= views_before.push(rows[k as int]));
                }
            }
            k += 1;
        }
        assert(rows.take(rows.len() as int) == rows);
        out
    }

    /// The passkeys in whose id, relying party, credential id, user handle,
    /// title or transports the keyword stands, ASCII letters compared
    /// without regard to case; from the greatest id down.
    pub fn search_passkeys(&self, keyword: &str) -> (r: Vec<PasskeyRecord>)
        ensures
            is_passkey_search_result(self@.passkeys, keyword@, passkey_views(r@)),
    {
        let ghost rows = self@.passkeys;
        let mut ids: Vec<&str> = Vec::new();
        let mut flags: Vec<bool> = Vec::new();
        let mut k: usize = 0;
        while k < self.passkeys.len()
            invariant
                rows == self@.passkeys,
                rows.len() == self.passkeys@.len(),
                k <= rows.len(),
                ids@.len() == k,
                flags@.len() == k,
                forall|j: int| 0 <= j < k ==> (#[trigger] ids@[j])@ == rows[j].id,
                forall|j: int| 0 <= j < k ==> #[trigger] flags@[j] == passkey_matches(rows[j], keyword@),
            decreases rows.len() - k,
        {
            assert(rows[k as int] == self.passkeys@[k as int]@);
            ids.push(self.passkeys[k].id.as_str());
            flags.push(matches_passkey(&self.passkeys[k], keyword));
            k += 1;
        }
        assert(key_texts(ids@) =~= passkey_ids(rows));
        assert(flags@ =~= passkey_flags(rows, keyword@));
        let order = ranked_positions(&ids, &flags);
        let mut out: Vec<PasskeyRecord> = Vec::new();
        let mut n: usize = 0;
        while n < order.len()
            invariant
                rows == self@.passkeys,
                rows.len() == self.passkeys@.len(),
                is_ranking(passkey_ids(rows), passkey_flags(rows, keyword@), order@),
                n <= order@.len(),
                out@.len() == n,
                forall|j: int| 0 <= j < n ==> (#[trigger] out@[j])@ == rows[order@[j] as int],
            decreases order@.len() - n,
        {
            let at: usize = order[n];
            assert(at < rows.len());
            assert(rows[at as int] == self.passkeys@[at as int]@);
            out.push(self.passkeys[at].duplicate());
            n += 1;
        }
        assert(passkey_views(out@) =~= passkeys_at(rows, order@));
        out
    }

    /// Removes the passkey with the given id. Fails with `NotFound`, and
    /// changes nothing, where no passkey has the id.
    pub fn delete_passkey(&mut self, id: &str) -> (r: Result<(), VaultError>)
        requires
            old(self).wf(),
        ensures
            final(self).wf(),
            final(self)@.passwords == old(self)@.passwords,
            match r {
                Ok(_) => {
                    &&& passkey_ids(old(self)@.passkeys).contains(id@)
                    &&& !passkey_ids(final(self)@.passkeys).contains(id@)
                    &&& forall|i: int|
                        0 <= i < old(self)@.passkeys.len() && (#[trigger] old(self)@.passkeys[i]).id
                            == id@ ==> final(self)@.passkeys == old(self)@.passkeys.remove(i)
                },
                Err(e) => {
                    &&& e == VaultError::NotFound
                    &&& !passkey_ids(old(self)@.passkeys).contains(id@)
                    &&& final(self)@ == old(self)@
                },
            },
    {
        let ghost before = self@.passkeys;
        match self.find_passkey(id) {
            None => Err(VaultError::NotFound),
            Some(at) => {
                proof {
                    assert(passkey_ids(before)[at as int] == id@);
                    assert forall|i: int|
                        0 <= i < before.len() && (#[trigger] before[i]).id == id@ implies i
                        == at by {
                        assert(passkey_ids(before)[i] == id@);
                    }
                }
                let _ = self.passkeys.remove(at);
                proof {
                    assert(self@.passkeys =~= before.remove(at as int));
                    lemma_remove_keeps_passkey_ids_distinct(before, at as int);
                }
                Ok(())
            },
        }
    }
}

/// What a search result is, in plain terms: every credential in it is one
/// that the keyword matches, as a reader is shown it; every credential that
/// the keyword matches is in it; and, where no two credentials share an id,
/// the ids fall strictly from each credential of the result to the next.
pub proof fn lemma_search_result_in_plain_terms(
    rows: Seq<CredentialView>,
    secret: Option<Seq<char>>,
    keyword: Seq<char>,
    result: Seq<CredentialView>,
)
    requires
        is_search_result(rows, secret, keyword, result),
        rows.len() <= usize::MAX,
    ensures
        forall|k: int|
            0 <= k < result.len() ==> exists|i: int|
                0 <= i < rows.len() && credential_matches(rows[i], keyword) && #[trigger] result[k]
                    == shown(secret, #[trigger] rows[i]),
        forall|i: int|
            0 <= i < rows.len() && credential_matches(#[trigger] rows[i], keyword)
                ==> result.contains(shown(secret, rows[i])),
        credential_ids(rows).no_duplicates() ==> forall|k: int, l: int|
            0 <= k < l < result.len() ==> text_lt(
                (#[trigger] result[l]).id,
                (#[trigger] result[k]).id,
            ),
{
    let ids = credential_ids(rows);
    let flags = credential_flags(rows, keyword);
    let order = choose|order: Seq<usize>|
        is_ranking(ids, flags, order) && result == #[trigger] shown_at(rows, secret, order);
    assert forall|k: int| 0 <= k < result.len() implies exists|i: int|
        0 <= i < rows.len() && credential_matches(rows[i], keyword) && #[trigger] result[k]
            == shown(secret, #[trigger] rows[i]) by {
        let i = order[k] as int;
        assert(is_wanted(flags, i));
        assert(credential_matches(rows[i], keyword) && result[k] == shown(secret, rows[i]));
    }
    assert forall|i: int|
        0 <= i < rows.len() && credential_matches(#[trigger] rows[i], keyword) implies result.contains(
        shown(secret, rows[i]),
    ) by {
        assert(is_wanted(flags, i));
        assert(order.contains(i as usize));
        let k = choose|k: int| 0 <= k < order.len() && order[k] == i as usize;
        assert(result[k] == shown(secret, rows[i]));
    }
    if ids.no_duplicates() {
        lemma_ranking_has_no_duplicates(ids, flags, order);
        assert forall|k: int, l: int| 0 <= k < l < result.len() implies text_lt(
            (#[trigger] result[l]).id,
            (#[trigger] result[k]).id,
        ) by {
            let a = order[k] as int;
            let b = order[l] as int;
            assert(precedes(ids, a, b));
            assert(order[k] != order[l]);
            assert(ids[a] != ids[b]);
            assert(result[k].id == ids[a] && result[l].id == ids[b]);
        }
    }
}

/// What a search result of passkeys is, in plain terms: every passkey in it
/// is one that the keyword matches; every passkey that the keyword matches
/// is in it; and, where no two passkeys share an id, the ids fall strictly
/// from each passkey of the result to the next.
pub proof fn lemma_passkey_search_result_in_plain_terms(
    rows: Seq<PasskeyView>,
    keyword: Seq<char>,
    result: Seq<PasskeyView>,
)
    requires
        is_passkey_search_result(rows, keyword, result),
        rows.len() <= usize::MAX,
    ensures
        forall|k: int|
            0 <= k < result.len() ==> rows.contains(#[trigger] result[k]) && passkey_matches(
                result[k],
                keyword,
            ),
        forall|i: int|
            0 <= i < rows.len() && passkey_matches(#[trigger] rows[i], keyword) ==> result.contains(
                rows[i],
            ),
        passkey_ids(rows).no_duplicates() ==> forall|k: int, l: int|
            0 <= k < l < result.len() ==> text_lt(
                (#[trigger] result[l]).id,
                (#[trigger] result[k]).id,
            ),
{
    let ids = passkey_ids(rows);
    let flags = passkey_flags(rows, keyword);
    let order = choose|order: Seq<usize>|
        is_ranking(ids, flags, order) && result == #[trigger] passkeys_at(rows, order);
    assert forall|k: int| 0 <= k < result.len() implies rows.contains(#[trigger] result[k])
        && passkey_matches(result[k], keyword) by {
        let i = order[k] as int;
        assert(is_wanted(flags, i));
        assert(result[k] == rows[i]);
    }
    assert forall|i: int|
        0 <= i < rows.len() && passkey_matches(#[trigger] rows[i], keyword) implies result.contains(
        rows[i],
    ) by {
        assert(is_wanted(flags, i));
        assert(order.contains(i as usize));
        let k = choose|k: int| 0 <= k < order.len() && order[k] == i as usize;
        assert(result[k] == rows[i]);
    }
    if ids.no_duplicates() {
        lemma_ranking_has_no_duplicates(ids, flags, order);
        assert forall|k: int, l: int| 0 <= k < l < result.len() implies text_lt(
            (#[trigger] result[l]).id,
            (#[trigger] result[k]).id,
        ) by {
            let a = order[k] as int;
            let b = order[l] as int;
            assert(precedes(ids, a, b));
            assert(order[k] != order[l]);
            assert(ids[a] != ids[b]);
            assert(result[k].id == ids[a] && result[l].id == ids[b]);
        }
    }
}

} // verus!
