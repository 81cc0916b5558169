use vstd::prelude::*;

use crate::error::{MissingField, VaultError};
use crate::order::{is_ranking, key_texts, lemma_full_ranking_lists_all, ranked_positions};
use crate::record::{
    credential_views, option_str_text, passkey_views, CredentialView, PasskeyRecord, PasskeyView,
    PasswordRecord,
};
use crate::cipher::{derived_key, sealed_blob, secret_text};
use crate::clock::{created_now, is_timestamp};
use crate::error::is_draw_failure;
use crate::ident::{draw_seed, fresh_id, is_fresh_id, is_fresh_seed};
use crate::store::{
    is_latest_for_url, latest_for_url, lemma_latest_is_unique, newer, passkey_ids, record_outcome,
    shown, shown_record, text_or_empty, upsert_error, upsert_id, upsert_outcome,
    upserted, upserted_record, Seed, SeedView, VaultStore,
};
use crate::text::{decimal_string, decimal_text, parse_decimal, parsed_decimal, same_text};

verus! {

/// The texts of a row of cells.
pub open spec fn row_texts(row: Seq<String>) -> Seq<Seq<char>> {
    Seq::new(row.len(), |i: int| row[i]@)
}

/// The texts of a table of rows.
pub open spec fn table_texts(table: Seq<Vec<String>>) -> Seq<Seq<Seq<char>>> {
    Seq::new(table.len(), |i: int| row_texts(table[i]@))
}

/// The first position at which a header has the given name.
pub open spec fn position_of(headers: Seq<Seq<char>>, name: Seq<char>) -> Option<int>
    decreases headers.len(),
{
    if headers.len() == 0 {
        None
    } else if headers[0] == name {
        Some(0)
    } else {
        match position_of(headers.drop_first(), name) {
            Some(i) => Some(i + 1),
            None => None,
        }
    }
}

/// The cell of a record for a column: the cell under the header of that
/// name, where the header exists and the record reaches that far; else the
/// cell at the column's usual position, where the record reaches that far.
pub open spec fn field(
    headers: Seq<Seq<char>>,
    record: Seq<Seq<char>>,
    name: Seq<char>,
    usual: int,
) -> Option<Seq<char>> {
    match position_of(headers, name) {
        Some(i) if i < record.len() => Some(record[i]),
        _ => if 0 <= usual < record.len() {
            Some(record[usual])
        } else {
            None
        },
    }
}

/// The header that stands first with a name is the one that `position_of`
/// names.
pub proof fn lemma_position_of_first(headers: Seq<Seq<char>>, name: Seq<char>, k: int)
    requires
        0 <= k < headers.len(),
        headers[k] == name,
        forall|j: int| 0 <= j < k ==> headers[j] != name,
    ensures
        position_of(headers, name) == Some(k),
    decreases k,
{
    if k > 0 {
        let rest = headers.drop_first();
        assert(headers[0] != name);
        assert forall|j: int| 0 <= j < k - 1 implies rest[j] != name by {
            assert(rest[j] == headers[j + 1]);
        }
        lemma_position_of_first(rest, name, k - 1);
    }
}

/// Where no header has a name, `position_of` names none.
pub proof fn lemma_position_of_none(headers: Seq<Seq<char>>, name: Seq<char>)
    requires
        forall|j: int| 0 <= j < headers.len() ==> headers[j] != name,
    ensures
        position_of(headers, name) is None,
    decreases headers.len(),
{
    if headers.len() > 0 {
        let rest = headers.drop_first();
        assert(headers[0] != name);
        assert forall|j: int| 0 <= j < rest.len() implies rest[j] != name by {
            assert(rest[j] == headers[j + 1]);
        }
        lemma_position_of_none(rest, name);
    }
}

/// The first position at which a header has the given name.
pub fn header_position(headers: &Vec<String>, name: &str) -> (r: Option<usize>)
    ensures
        match r {
            Some(i) => position_of(row_texts(headers@), name@) == Some(i as int),
            None => position_of(row_texts(headers@), name@) is None,
        },
{
    let ghost texts = row_texts(headers@);
    let mut k: usize = 0;
    while k < headers.len()
        invariant
            texts == row_texts(headers@),
            k <= headers@.len(),
            forall|j: int| 0 <= j < k ==> texts[j] != name@,
        decreases headers@.len() - k,
    {
        if same_text(headers[k].as_str(), name) {
            proof {
                lemma_position_of_first(texts, name@, k as int);
            }
            return Some(k);
        }
        k += 1;
    }
    proof {
        lemma_position_of_none(texts, name@);
    }
    None
}

/// The cell of a record for a column, as `field` says.
pub fn pick_field<'a>(
    headers: &Vec<String>,
    record: &'a Vec<String>,
    name: &str,
    usual: usize,
) -> (r: Option<&'a str>)
    ensures
        option_str_text(r) == field(row_texts(headers@), row_texts(record@), name@, usual as int),
{
    match header_position(headers, name) {
        Some(i) => {
            if i < record.len() {
                return Some(record[i].as_str());
            }
        },
        None => {},
    }
    if usual < record.len() {
        Some(record[usual].as_str())
    } else {
        None
    }
}

/// What a row of imported credentials holds.
pub struct CredentialFields {
    pub url: Seq<char>,
    pub username: Seq<char>,
    pub password: Seq<char>,
    pub title: Option<Seq<char>>,
    pub note: Option<Seq<char>>,
}

/// What a row of imported passkeys holds.
pub struct PasskeyFields {
    pub rp_id: Seq<char>,
    pub credential_id: Seq<char>,
    pub user_handle: Seq<char>,
    pub public_key: Seq<char>,
    pub sign_count: i64,
    pub title: Option<Seq<char>>,
    pub transports: Option<Seq<char>>,
}

/// The credential that a row holds. The columns are found by name, and by
/// their usual positions (url, username, password, title, note) where the
/// headers do not name them. A row without url, username or password is
/// invalid. An id or a creation time in the row is not read.
pub open spec fn credential_fields(headers: Seq<Seq<char>>, record: Seq<Seq<char>>) -> Result<
    CredentialFields,
    VaultError,
> {
    let url = field(headers, record, "url"@, 0);
    let username = field(headers, record, "username"@, 1);
    let password = field(headers, record, "password"@, 2);
    if url is None {
        Err(VaultError::ImportRowInvalid(MissingField::Url))
    } else if username is None {
        Err(VaultError::ImportRowInvalid(MissingField::Username))
    } else if password is None {
        Err(VaultError::ImportRowInvalid(MissingField::Password))
    } else {
        Ok(
            CredentialFields {
                url: url->0,
                username: username->0,
                password: password->0,
                title: field(headers, record, "title"@, 3),
                note: field(headers, record, "note"@, 4),
            },
        )
    }
}

/// The sign count that a cell spells: a number that a timestamp-sized
/// counter can hold, and zero for a cell that is absent or spells none.
pub open spec fn count_of(cell: Option<Seq<char>>) -> i64 {
    match cell {
        Some(text) => match parsed_decimal(text, i64::MAX as int) {
            Some(n) => n as i64,
            None => 0,
        },
        None => 0,
    }
}

/// The passkey that a row holds. The columns are found by name, and by
/// their usual positions (relying party, credential id, user handle, public
/// key, sign count, title, transports) where the headers do not name them.
/// A row without relying party, credential id, user handle or public key is
/// invalid. An id or a creation time in the row is not read.
pub open spec fn passkey_fields(headers: Seq<Seq<char>>, record: Seq<Seq<char>>) -> Result<
    PasskeyFields,
    VaultError,
> {
    let rp_id = field(headers, record, "rp_id"@, 0);
    let credential_id = field(headers, record, "credential_id"@, 1);
    let user_handle = field(headers, record, "user_handle"@, 2);
    let public_key = field(headers, record, "public_key"@, 3);
    if rp_id is None {
        Err(VaultError::ImportRowInvalid(MissingField::RpId))
    } else if credential_id is None {
        Err(VaultError::ImportRowInvalid(MissingField::CredentialId))
    } else if user_handle is None {
        Err(VaultError::ImportRowInvalid(MissingField::UserHandle))
    } else if public_key is None {
        Err(VaultError::ImportRowInvalid(MissingField::PublicKey))
    } else {
        Ok(
            PasskeyFields {
                rp_id: rp_id->0,
                credential_id: credential_id->0,
                user_handle: user_handle->0,
                public_key: public_key->0,
                sign_count: count_of(field(headers, record, "sign_count"@, 4)),
                title: field(headers, record, "title"@, 5),
                transports: field(headers, record, "transports"@, 6),
            },
        )
    }
}

/// Tests a row of imported credentials before anything is drawn or stored
/// for it: the error of an invalid row, as `credential_fields` gives it.
pub fn check_credential_row(headers: &Vec<String>, record: &Vec<String>) -> (r: Result<
    (),
    VaultError,
>)
    ensures
        match credential_fields(row_texts(headers@), row_texts(record@)) {
            Err(e) => r == Err::<(), VaultError>(e),
            Ok(_) => r is Ok,
        },
{
    if pick_field(headers, record, "url", 0).is_none() {
        return Err(VaultError::ImportRowInvalid(MissingField::Url));
    }
    if pick_field(headers, record, "username", 1).is_none() {
        return Err(VaultError::ImportRowInvalid(MissingField::Username));
    }
    if pick_field(headers, record, "password", 2).is_none() {
        return Err(VaultError::ImportRowInvalid(MissingField::Password));
    }
    Ok(())
}

/// Tests a row of imported passkeys before anything is drawn or stored for
/// it: the error of an invalid row, as `passkey_fields` gives it.
pub fn check_passkey_row(headers: &Vec<String>, record: &Vec<String>) -> (r: Result<
    (),
    VaultError,
>)
    ensures
        match passkey_fields(row_texts(headers@), row_texts(record@)) {
            Err(e) => r == Err::<(), VaultError>(e),
            Ok(_) => r is Ok,
        },
{
    if pick_field(headers, record, "rp_id", 0).is_none() {
        return Err(VaultError::ImportRowInvalid(MissingField::RpId));
    }
    if pick_field(headers, record, "credential_id", 1).is_none() {
        return Err(VaultError::ImportRowInvalid(MissingField::CredentialId));
    }
    if pick_field(headers, record, "user_handle", 2).is_none() {
        return Err(VaultError::ImportRowInvalid(MissingField::UserHandle));
    }
    if pick_field(headers, record, "public_key", 3).is_none() {
        return Err(VaultError::ImportRowInvalid(MissingField::PublicKey));
    }
    Ok(())
}

/// Takes one row of imported credentials into the store, through the same
/// upsert as every other add: a row for a url that the store knows
/// overwrites the most recent credential for it, and any other row adds a
/// credential under the seed's id and creation time. The password of the row
/// is in the clear and is stored encrypted.
///
/// An invalid row fails with `ImportRowInvalid` and changes nothing. A
/// valid row does what `upsert_outcome` says of its fields.
pub fn import_row(
    store: &mut VaultStore,
    secret: Option<&str>,
    seed: &Seed,
    headers: &Vec<String>,
    record: &Vec<String>,
) -> (r: Result<PasswordRecord, VaultError>)
    requires
        old(store).wf(),
    ensures
        final(store).wf(),
        final(store)@.passkeys == old(store)@.passkeys,
        match credential_fields(row_texts(headers@), row_texts(record@)) {
            Err(e) => r matches Err(x) && x == e && final(store)@ == old(store)@,
            Ok(fields) => upsert_outcome(
                old(store)@.passwords,
                final(store)@.passwords,
                record_outcome(r),
                secret_text(secret),
                seed@,
                fields.url,
                fields.username,
                fields.password,
                fields.title,
                fields.note,
            ),
        },
{
    let url = match pick_field(headers, record, "url", 0) {
        Some(url) => url,
        None => {
            return Err(VaultError::ImportRowInvalid(MissingField::Url));
        },
    };
    let username = match pick_field(headers, record, "username", 1) {
        Some(username) => username,
        None => {
            return Err(VaultError::ImportRowInvalid(MissingField::Username));
        },
    };
    let password = match pick_field(headers, record, "password", 2) {
        Some(password) => password,
        None => {
            return Err(VaultError::ImportRowInvalid(MissingField::Password));
        },
    };
    let title = pick_field(headers, record, "title", 3);
    let note = pick_field(headers, record, "note", 4);
    store.insert_password(secret, seed, url, username, password, title, note)
}

/// Reads a cell as a sign count, as `count_of` says.
pub fn parse_count(cell: Option<&str>) -> (r: i64)
    ensures
        r == count_of(option_str_text(cell)),
        r >= 0,
{
    match cell {
        Some(text) => match parse_decimal(text, i64::MAX as u64) {
            Some(n) => n as i64,
            None => 0,
        },
        None => 0,
    }
}

/// Takes one row of imported passkeys into the store: every valid row adds
/// a passkey under the given fresh id and creation time.
///
/// An invalid row fails with `ImportRowInvalid`, and a fresh id that is
/// taken with `DuplicateId`; the store is then left as it was.
pub fn import_passkey_row(
    store: &mut VaultStore,
    id: &str,
    created_at: &str,
    headers: &Vec<String>,
    record: &Vec<String>,
) -> (r: Result<PasskeyRecord, VaultError>)
    requires
        old(store).wf(),
    ensures
        final(store).wf(),
        final(store)@.passwords == old(store)@.passwords,
        match passkey_fields(row_texts(headers@), row_texts(record@)) {
            Err(e) => r matches Err(x) && x == e && final(store)@ == old(store)@,
            Ok(fields) => match r {
                Ok(record) => {
                    &&& !passkey_ids(old(store)@.passkeys).contains(id@)
                    &&& record@ == (PasskeyView {
                        id: id@,
                        rp_id: fields.rp_id,
                        credential_id: fields.credential_id,
                        user_handle: fields.user_handle,
                        public_key: fields.public_key,
                        sign_count: fields.sign_count,
                        title: fields.title,
                        transports: fields.transports,
                        created_at: created_at@,
                    })
                    &&& final(store)@.passkeys == old(store)@.passkeys.push(record@)
                },
                Err(e) => {
                    &&& e == VaultError::DuplicateId
                    &&& passkey_ids(old(store)@.passkeys).contains(id@)
                    &&& final(store)@ == old(store)@
                },
            },
        },
{
    let rp_id = match pick_field(headers, record, "rp_id", 0) {
        Some(rp_id) => rp_id,
        None => {
            return Err(VaultError::ImportRowInvalid(MissingField::RpId));
        },
    };
    let credential_id = match pick_field(headers, record, "credential_id", 1) {
        Some(credential_id) => credential_id,
        None => {
            return Err(VaultError::ImportRowInvalid(MissingField::CredentialId));
        },
    };
    let user_handle = match pick_field(headers, record, "user_handle", 2) {
        Some(user_handle) => user_handle,
        None => {
            return Err(VaultError::ImportRowInvalid(MissingField::UserHandle));
        },
    };
    let public_key = match pick_field(headers, record, "public_key", 3) {
        Some(public_key) => public_key,
        None => {
            return Err(VaultError::ImportRowInvalid(MissingField::PublicKey));
        },
    };
    let sign_count = parse_count(pick_field(headers, record, "sign_count", 4));
    let title = pick_field(headers, record, "title", 5);
    let transports = pick_field(headers, record, "transports", 6);
    store.insert_passkey(
        id,
        created_at,
        rp_id,
        credential_id,
        user_handle,
        public_key,
        sign_count,
        title,
        transports,
    )
}

/// The header of exported credentials.
pub open spec fn credential_header() -> Seq<Seq<char>> {
    seq!["id"@, "url"@, "username"@, "password"@, "title"@, "note"@, "created_at"@]
}

/// The header of exported passkeys.
pub open spec fn passkey_header() -> Seq<Seq<char>> {
    seq![
        "id"@,
        "rp_id"@,
        "credential_id"@,
        "user_handle"@,
        "public_key"@,
        "sign_count"@,
        "title"@,
        "transports"@,
        "created_at"@,
    ]
}

/// The exported row of a credential as it is shown. A title or a note that
/// is absent is exported as the empty text.
pub open spec fn credential_row(row: CredentialView) -> Seq<Seq<char>> {
    seq![
        row.id,
        row.url,
        row.username,
        row.password,
        text_or_empty(row.title),
        text_or_empty(row.note),
        row.created_at,
    ]
}

/// The exported row of a passkey. A title or transports that are absent are
/// exported as the empty text.
pub open spec fn passkey_row(row: PasskeyView) -> Seq<Seq<char>> {
    seq![
        row.id,
        row.rp_id,
        row.credential_id,
        row.user_handle,
        row.public_key,
        decimal_text(row.sign_count as int),
        text_or_empty(row.title),
        text_or_empty(row.transports),
        row.created_at,
    ]
}

/// The creation times of a list of credentials.
pub open spec fn created_times(rows: Seq<CredentialView>) -> Seq<Seq<char>> {
    Seq::new(rows.len(), |i: int| rows[i].created_at)
}

/// The creation times of a list of passkeys.
pub open spec fn passkey_times(rows: Seq<PasskeyView>) -> Seq<Seq<char>> {
    Seq::new(rows.len(), |i: int| rows[i].created_at)
}

/// Marks that want every one of `n` positions.
pub open spec fn every(n: nat) -> Seq<bool> {
    Seq::new(n, |i: int| true)
}

/// The exported rows of the credentials at the listed positions, each as it
/// is shown.
pub open spec fn credential_rows(
    rows: Seq<CredentialView>,
    secret: Option<Seq<char>>,
    order: Seq<usize>,
) -> Seq<Seq<Seq<char>>> {
    Seq::new(order.len(), |k: int| credential_row(shown(secret, rows[order[k] as int])))
}

/// The exported rows of the passkeys at the listed positions.
pub open spec fn passkey_rows(rows: Seq<PasskeyView>, order: Seq<usize>) -> Seq<Seq<Seq<char>>> {
    Seq::new(order.len(), |k: int| passkey_row(rows[order[k] as int]))
}

/// Whether `table` is the export of the credentials: the header, then one
/// row for each credential with its password as a reader is shown it, from
/// the latest creation time down, credentials of one creation time in the
/// order of the store.
pub open spec fn is_export(
    rows: Seq<CredentialView>,
    secret: Option<Seq<char>>,
    table: Seq<Seq<Seq<char>>>,
) -> bool {
    exists|order: Seq<usize>|
        is_ranking(created_times(rows), every(rows.len()), order) && table == seq![
            credential_header(),
        ] + #[trigger] credential_rows(rows, secret, order)
}

/// Whether `table` is the export of the passkeys: the header, then one row
/// for each passkey, from the latest creation time down, passkeys of one
/// creation time in the order of the store.
pub open spec fn is_passkey_export(rows: Seq<PasskeyView>, table: Seq<Seq<Seq<char>>>) -> bool {
    exists|order: Seq<usize>|
        is_ranking(passkey_times(rows), every(rows.len()), order) && table == seq![
            passkey_header(),
        ] + #[trigger] passkey_rows(rows, order)
}

/// The text of an optional field for export: a copy of it, and the empty
/// text where it is absent.
pub fn text_or_empty_string(field: &Option<String>) -> (r: String)
    ensures
        r@ == text_or_empty(crate::record::option_text(*field)),
{
    match field {
        Some(text) => text.clone(),
        None => String::new(),
    }
}

/// An owned copy of a text.
fn owned(text: &str) -> (r: String)
    ensures
        r@ == text@,
{
    text.to_owned()
}

/// The header row of exported credentials.
pub fn credential_header_row() -> (r: Vec<String>)
    ensures
        row_texts(r@) == credential_header(),
{
    let mut row: Vec<String> = Vec::new();
    row.push(owned("id"));
    row.push(owned("url"));
    row.push(owned("username"));
    row.push(owned("password"));
    row.push(owned("title"));
    row.push(owned("note"));
    row.push(owned("created_at"));
    assert(row_texts(row@) =~= credential_header());
    row
}

/// The header row of exported passkeys.
pub fn passkey_header_row() -> (r: Vec<String>)
    ensures
        row_texts(r@) == passkey_header(),
{
    let mut row: Vec<String> = Vec::new();
    row.push(owned("id"));
    row.push(owned("rp_id"));
    row.push(owned("credential_id"));
    row.push(owned("user_handle"));
    row.push(owned("public_key"));
    row.push(owned("sign_count"));
    row.push(owned("title"));
    row.push(owned("transports"));
    row.push(owned("created_at"));
    assert(row_texts(row@) =~= passkey_header());
    row
}

/// The exported row of a credential, with its password as a reader is shown
/// it.
pub fn export_credential(secret: Option<&str>, record: &PasswordRecord) -> (r: Vec<String>)
    ensures
        row_texts(r@) == credential_row(shown(secret_text(secret), record@)),
{
    let seen = shown_record(secret, record);
    let mut row: Vec<String> = Vec::new();
    row.push(seen.id.clone());
    row.push(seen.url.clone());
    row.push(seen.username.clone());
    row.push(seen.password.clone());
    row.push(text_or_empty_string(&seen.title));
    row.push(text_or_empty_string(&seen.note));
    row.push(seen.created_at.clone());
    assert(row_texts(row@) =~= credential_row(seen@));
    row
}

/// The exported row of a passkey.
pub fn export_passkey(record: &PasskeyRecord) -> (r: Vec<String>)
    ensures
        row_texts(r@) == passkey_row(record@),
{
    let mut row: Vec<String> = Vec::new();
    row.push(record.id.clone());
    row.push(record.rp_id.clone());
    row.push(record.credential_id.clone());
    row.push(record.user_handle.clone());
    row.push(record.public_key.clone());
    row.push(decimal_string(record.sign_count));
    row.push(text_or_empty_string(&record.title));
    row.push(text_or_empty_string(&record.transports));
    row.push(record.created_at.clone());
    assert(row_texts(row@) =~= passkey_row(record@));
    row
}

/// Exports all credentials as flat rows under a fixed header, passwords
/// decrypted (or as stored where they cannot be decrypted), from the latest
/// creation time down.
pub fn export_csv(store: &VaultStore, secret: Option<&str>) -> (table: Vec<Vec<String>>)
    ensures
        is_export(store@.passwords, secret_text(secret), table_texts(table@)),
        table@.len() == store@.passwords.len() + 1,
{
    let records = store.passwords();
    let ghost rows = store@.passwords;
    let ghost key = secret_text(secret);
    let mut times: Vec<&str> = Vec::new();
    let mut wanted: Vec<bool> = Vec::new();
    let mut k: usize = 0;
    while k < records.len()
        invariant
            rows == credential_views(records@),
            k <= records@.len(),
            times@.len() == k,
            wanted@.len() == k,
            forall|j: int| 0 <= j < k ==> (#[trigger] times@[j])@ == rows[j].created_at,
            forall|j: int| 0 <= j < k ==> #[trigger] wanted@[j],
        decreases records@.len() - k,
    {
        times.push(records[k].created_at.as_str());
        wanted.push(true);
        k += 1;
    }
    assert(key_texts(times@) =~= created_times(rows));
    assert(wanted@ =~= every(rows.len()));
    let order = ranked_positions(&times, &wanted);
    proof {
        lemma_full_ranking_lists_all(created_times(rows), every(rows.len()), order@);
    }
    let mut table: Vec<Vec<String>> = Vec::new();
    table.push(credential_header_row());
    let mut n: usize = 0;
    while n < order.len()
        invariant
            rows == credential_views(records@),
            key == secret_text(secret),
            is_ranking(created_times(rows), every(rows.len()), order@),
            n <= order@.len(),
            table@.len() == n + 1,
            row_texts(table@[0]@) == credential_header(),
            forall|j: int|
                0 <= j < n ==> row_texts((#[trigger] table@[j + 1])@) == credential_row(
                    shown(key, rows[order@[j] as int]),
                ),
        decreases order@.len() - n,
    {
        let at: usize = order[n];
        assert(at < rows.len());
        table.push(export_credential(secret, &records[at]));
        n += 1;
    }
    proof {
        let wanted_table = seq![credential_header()] + credential_rows(rows, key, order@);
        assert(table_texts(table@).len() == wanted_table.len());
        assert forall|i: int| 0 <= i < wanted_table.len() implies table_texts(table@)[i]
            == wanted_table[i] by {
            if i > 0 {
                assert(row_texts(table@[(i - 1) + 1]@) == credential_row(
                    shown(key, rows[order@[i - 1] as int]),
                ));
            }
        }
        assert(table_texts(table@) =~= wanted_table);
    }
    table
}

/// Exports all passkeys as flat rows under a fixed header, from the latest
/// creation time down.
pub fn export_passkeys_csv(store: &VaultStore) -> (table: Vec<Vec<String>>)
    ensures
        is_passkey_export(store@.passkeys, table_texts(table@)),
        table@.len() == store@.passkeys.len() + 1,
{
    let records = store.passkeys();
    let ghost rows = store@.passkeys;
    let mut times: Vec<&str> = Vec::new();
    let mut wanted: Vec<bool> = Vec::new();
    let mut k: usize = 0;
    while k < records.len()
        invariant
            rows == passkey_views(records@),
            k <= records@.len(),
            times@.len() == k,
            wanted@.len() == k,
            forall|j: int| 0 <= j < k ==> (#[trigger] times@[j])@ == rows[j].created_at,
            forall|j: int| 0 <= j < k ==> #[trigger] wanted@[j],
        decreases records@.len() - k,
    {
        times.push(records[k].created_at.as_str());
        wanted.push(true);
        k += 1;
    }
    assert(key_texts(times@) =~= passkey_times(rows));
    assert(wanted@ =~= every(rows.len()));
    let order = ranked_positions(&times, &wanted);
    proof {
        lemma_full_ranking_lists_all(passkey_times(rows), every(rows.len()), order@);
    }
    let mut table: Vec<Vec<String>> = Vec::new();
    table.push(passkey_header_row());
    let mut n: usize = 0;
    while n < order.len()
        invariant
            rows == passkey_views(records@),
            is_ranking(passkey_times(rows), every(rows.len()), order@),
            n <= order@.len(),
            table@.len() == n + 1,
            row_texts(table@[0]@) == passkey_header(),
            forall|j: int|
                0 <= j < n ==> row_texts((#[trigger] table@[j + 1])@) == passkey_row(
                    rows[order@[j] as int],
                ),
        decreases order@.len() - n,
    {
        let at: usize = order[n];
        assert(at < rows.len());
        table.push(export_passkey(&records[at]));
        n += 1;
    }
    proof {
        let wanted_table = seq![passkey_header()] + passkey_rows(rows, order@);
        assert(table_texts(table@).len() == wanted_table.len());
        assert forall|i: int| 0 <= i < wanted_table.len() implies table_texts(table@)[i]
            == wanted_table[i] by {
            if i > 0 {
                assert(row_texts(table@[(i - 1) + 1]@) == passkey_row(rows[order@[i - 1] as int]));
            }
        }
        assert(table_texts(table@) =~= wanted_table);
    }
    table
}

/// The credentials as a reader is shown them.
pub open spec fn shown_rows(rows: Seq<CredentialView>, secret: Option<Seq<char>>) -> Seq<
    CredentialView,
> {
    Seq::new(rows.len(), |i: int| shown(secret, rows[i]))
}

/// What taking one row in makes of the stored credentials, under a given
/// seed: the upsert of the row's fields, or the failure of the row or of the
/// upsert.
pub open spec fn import_step(
    rows: Seq<CredentialView>,
    secret: Option<Seq<char>>,
    headers: Seq<Seq<char>>,
    record: Seq<Seq<char>>,
    seed: SeedView,
) -> Result<Seq<CredentialView>, VaultError> {
    match credential_fields(headers, record) {
        Err(e) => Err(e),
        Ok(fields) => match upsert_error(rows, secret, fields.url, fields.password, seed.id) {
            Some(e) => Err(e),
            None => Ok(
                upserted(
                    rows,
                    fields.url,
                    upserted_record(
                        rows,
                        fields.url,
                        fields.username,
                        sealed_blob(
                            derived_key(secret->0, upsert_id(rows, fields.url, seed.id)),
                            seed.nonce,
                            fields.password,
                        ),
                        fields.title,
                        fields.note,
                        seed.id,
                        seed.created_at,
                    ),
                ),
            ),
        },
    }
}

/// What taking the first `done` rows in makes of the stored credentials,
/// one seed for each row.
pub open spec fn imported(
    rows: Seq<CredentialView>,
    secret: Option<Seq<char>>,
    headers: Seq<Seq<char>>,
    records: Seq<Seq<Seq<char>>>,
    seeds: Seq<SeedView>,
    done: nat,
) -> Result<Seq<CredentialView>, VaultError>
    decreases done,
{
    if done == 0 {
        Ok(rows)
    } else {
        match imported(rows, secret, headers, records, seeds, (done - 1) as nat) {
            Err(e) => Err(e),
            Ok(taken) => import_step(taken, secret, headers, records[done - 1], seeds[done - 1]),
        }
    }
}

/// What a valid row makes of the credentials that a reader is shown: the
/// upsert of the row's fields, with the password in the clear.
pub open spec fn replay_step(
    rows: Seq<CredentialView>,
    headers: Seq<Seq<char>>,
    record: Seq<Seq<char>>,
    seed: SeedView,
) -> Result<Seq<CredentialView>, VaultError> {
    match credential_fields(headers, record) {
        Err(e) => Err(e),
        Ok(fields) => Ok(
            upserted(
                rows,
                fields.url,
                upserted_record(
                    rows,
                    fields.url,
                    fields.username,
                    fields.password,
                    fields.title,
                    fields.note,
                    seed.id,
                    seed.created_at,
                ),
            ),
        ),
    }
}

/// What the first `done` rows make of the credentials that a reader is
/// shown.
pub open spec fn replayed(
    rows: Seq<CredentialView>,
    headers: Seq<Seq<char>>,
    records: Seq<Seq<Seq<char>>>,
    seeds: Seq<SeedView>,
    done: nat,
) -> Result<Seq<CredentialView>, VaultError>
    decreases done,
{
    if done == 0 {
        Ok(rows)
    } else {
        match replayed(rows, headers, records, seeds, (done - 1) as nat) {
            Err(e) => Err(e),
            Ok(taken) => replay_step(taken, headers, records[done - 1], seeds[done - 1]),
        }
    }
}

/// Whether `after` and `r` are what an import of `records` makes of the
/// credentials `before`, with the seeds that were drawn for the first rows.
///
/// The first `done` rows were taken in, each through the upsert under its
/// seed, which was drawn as `draw_seed` draws; a reader is shown what the
/// rows hold in the clear. An import that succeeds took every row in. One
/// that fails stopped at row `done` and keeps what the rows before it made:
/// an invalid row fails with its own error, before anything is drawn for
/// it; a valid row fails where nothing could be drawn for it, or with the
/// error of its upsert.
pub open spec fn import_outcome(
    before: Seq<CredentialView>,
    after: Seq<CredentialView>,
    r: Result<(), VaultError>,
    secret: Option<Seq<char>>,
    headers: Seq<Seq<char>>,
    records: Seq<Seq<Seq<char>>>,
    seeds: Seq<SeedView>,
    done: nat,
) -> bool {
    &&& done <= records.len()
    &&& done <= seeds.len()
    &&& imported(before, secret, headers, records, seeds, done) == Ok::<
        Seq<CredentialView>,
        VaultError,
    >(after)
    &&& replayed(shown_rows(before, secret), headers, records, seeds, done) == Ok::<
        Seq<CredentialView>,
        VaultError,
    >(shown_rows(after, secret))
    &&& forall|j: int| 0 <= j < done ==> is_fresh_seed(#[trigger] seeds[j])
    &&& match r {
        Ok(_) => done == records.len(),
        Err(e) => done < records.len() && match credential_fields(headers, records[done as int]) {
            Err(invalid) => e == invalid,
            Ok(_) => is_draw_failure(e) || (done < seeds.len() && import_step(
                after,
                secret,
                headers,
                records[done as int],
                seeds[done as int],
            ) == Err::<Seq<CredentialView>, VaultError>(e)),
        },
    }
}

/// What the first rows make does not depend on the seeds of later rows.
pub proof fn lemma_import_reads_its_seeds(
    rows: Seq<CredentialView>,
    secret: Option<Seq<char>>,
    headers: Seq<Seq<char>>,
    records: Seq<Seq<Seq<char>>>,
    seeds: Seq<SeedView>,
    others: Seq<SeedView>,
    done: nat,
)
    requires
        done <= seeds.len(),
        done <= others.len(),
        forall|j: int| 0 <= j < done ==> seeds[j] == others[j],
    ensures
        imported(rows, secret, headers, records, seeds, done) == imported(
            rows,
            secret,
            headers,
            records,
            others,
            done,
        ),
        replayed(rows, headers, records, seeds, done) == replayed(
            rows,
            headers,
            records,
            others,
            done,
        ),
    decreases done,
{
    if done > 0 {
        lemma_import_reads_its_seeds(
            rows,
            secret,
            headers,
            records,
            seeds,
            others,
            (done - 1) as nat,
        );
    }
}

/// Showing does not change which credential is the most recent for a url.
pub proof fn lemma_shown_keeps_latest(
    rows: Seq<CredentialView>,
    secret: Option<Seq<char>>,
    url: Seq<char>,
)
    ensures
        latest_for_url(shown_rows(rows, secret), url) == latest_for_url(rows, url),
{
    let seen = shown_rows(rows, secret);
    assert forall|i: int| is_latest_for_url(rows, url, i) == is_latest_for_url(seen, url, i) by {
        if 0 <= i < rows.len() {
            if is_latest_for_url(rows, url, i) {
                assert forall|j: int|
                    0 <= j < seen.len() && j != i && (#[trigger] seen[j]).url == url implies newer(
                    seen,
                    i,
                    j,
                ) by {
                    assert(rows[j].url == url);
                    assert(newer(rows, i, j));
                }
            }
            if is_latest_for_url(seen, url, i) {
                assert forall|j: int|
                    0 <= j < rows.len() && j != i && (#[trigger] rows[j]).url == url implies newer(
                    rows,
                    i,
                    j,
                ) by {
                    assert(seen[j].url == url);
                    assert(newer(seen, i, j));
                }
            }
        }
    }
    if exists|i: int| is_latest_for_url(rows, url, i) {
        let a = choose|i: int| is_latest_for_url(rows, url, i);
        assert(is_latest_for_url(seen, url, a));
        let b = choose|i: int| is_latest_for_url(seen, url, i);
        lemma_latest_is_unique(seen, url, a, b);
    }
}

/// An upsert whose password a reader is shown in the clear is, as a reader
/// is shown it, the upsert of the password in the clear.
pub proof fn lemma_shown_upsert(
    rows: Seq<CredentialView>,
    secret: Option<Seq<char>>,
    url: Seq<char>,
    username: Seq<char>,
    blob: Seq<char>,
    password: Seq<char>,
    title: Option<Seq<char>>,
    note: Option<Seq<char>>,
    fresh_id: Seq<char>,
    created_at: Seq<char>,
)
    requires
        shown(
            secret,
            upserted_record(rows, url, username, blob, title, note, fresh_id, created_at),
        ).password == password,
    ensures
        shown_rows(
            upserted(
                rows,
                url,
                upserted_record(rows, url, username, blob, title, note, fresh_id, created_at),
            ),
            secret,
        ) == upserted(
            shown_rows(rows, secret),
            url,
            upserted_record(
                shown_rows(rows, secret),
                url,
                username,
                password,
                title,
                note,
                fresh_id,
                created_at,
            ),
        ),
{
    lemma_shown_keeps_latest(rows, secret, url);
    let seen = shown_rows(rows, secret);
    let record = upserted_record(rows, url, username, blob, title, note, fresh_id, created_at);
    let plain = upserted_record(seen, url, username, password, title, note, fresh_id, created_at);
    match latest_for_url(rows, url) {
        Some(i) => {
            assert(is_latest_for_url(rows, url, i));
            assert(shown(secret, record) == plain);
        },
        None => {
            assert(shown(secret, record) == plain);
        },
    }
    assert(shown_rows(upserted(rows, url, record), secret) =~= upserted(seen, url, plain));
}

/// Takes rows of credentials into the store, one after the other, each
/// through the same upsert as every other add and under an id, a creation
/// time and a nonce that are drawn for it: a row for a url that the store
/// knows overwrites the most recent credential for it, and any other row
/// adds a credential. Creation times in the rows are not read.
///
/// Each row is tested before anything is drawn for it. The first row that
/// is invalid, or for which nothing can be drawn, or whose upsert fails,
/// ends the import with its error; the rows before it stay taken in. What
/// the call leaves is stated by `import_outcome`.
pub fn import_csv(
    store: &mut VaultStore,
    secret: Option<&str>,
    headers: &Vec<String>,
    records: &Vec<Vec<String>>,
) -> (r: Result<(), VaultError>)
    requires
        old(store).wf(),
    ensures
        final(store).wf(),
        final(store)@.passkeys == old(store)@.passkeys,
        exists|seeds: Seq<SeedView>, done: nat| #[trigger]
            import_outcome(
                old(store)@.passwords,
                final(store)@.passwords,
                r,
                secret_text(secret),
                row_texts(headers@),
                table_texts(records@),
                seeds,
                done,
            ),
{
    let ghost before = store@.passwords;
    let ghost key = secret_text(secret);
    let ghost heads = row_texts(headers@);
    let ghost table = table_texts(records@);
    let ghost mut seeds: Seq<SeedView> = Seq::empty();
    let mut k: usize = 0;
    while k < records.len()
        invariant
            store.wf(),
            store@.passkeys == old(store)@.passkeys,
            before == old(store)@.passwords,
            key == secret_text(secret),
            heads == row_texts(headers@),
            table == table_texts(records@),
            k <= records@.len(),
            seeds.len() == k,
            forall|j: int| 0 <= j < k ==> is_fresh_seed(#[trigger] seeds[j]),
            imported(before, key, heads, table, seeds, k as nat) == Ok::<
                Seq<CredentialView>,
                VaultError,
            >(store@.passwords),
            replayed(shown_rows(before, key), heads, table, seeds, k as nat) == Ok::<
                Seq<CredentialView>,
                VaultError,
            >(shown_rows(store@.passwords, key)),
        decreases records@.len() - k,
    {
        assert(table[k as int] == row_texts(records@[k as int]@));
        match check_credential_row(headers, &records[k]) {
            Err(e) => {
                assert(import_outcome(
                    before,
                    store@.passwords,
                    Err::<(), VaultError>(e),
                    key,
                    heads,
                    table,
                    seeds,
                    k as nat,
                ));
                return Err(e);
            },
            Ok(_) => {},
        }
        let seed = match draw_seed() {
            Ok(seed) => seed,
            Err(e) => {
                assert(import_outcome(
                    before,
                    store@.passwords,
                    Err::<(), VaultError>(e),
                    key,
                    heads,
                    table,
                    seeds,
                    k as nat,
                ));
                return Err(e);
            },
        };
        let ghost taken = store@.passwords;
        let ghost longer = seeds.push(seed@);
        proof {
            lemma_import_reads_its_seeds(before, key, heads, table, seeds, longer, k as nat);
            lemma_import_reads_its_seeds(
                shown_rows(before, key),
                key,
                heads,
                table,
                seeds,
                longer,
                k as nat,
            );
            assert(table[k as int] == row_texts(records@[k as int]@));
        }
        match import_row(store, secret, &seed, headers, &records[k]) {
            Err(e) => {
                assert(import_step(taken, key, heads, table[k as int], longer[k as int]) == Err::<
                    Seq<CredentialView>,
                    VaultError,
                >(e));
                assert(import_outcome(
                    before,
                    store@.passwords,
                    Err::<(), VaultError>(e),
                    key,
                    heads,
                    table,
                    longer,
                    k as nat,
                ));
                return Err(e);
            },
            Ok(_) => {
                proof {
                    let fields = credential_fields(heads, table[k as int])->Ok_0;
                    let blob = sealed_blob(
                        derived_key(key->0, upsert_id(taken, fields.url, seed@.id)),
                        seed@.nonce,
                        fields.password,
                    );
                    lemma_shown_upsert(
                        taken,
                        key,
                        fields.url,
                        fields.username,
                        blob,
                        fields.password,
                        fields.title,
                        fields.note,
                        seed@.id,
                        seed@.created_at,
                    );
                    assert(import_step(taken, key, heads, table[k as int], longer[k as int])
                        == Ok::<Seq<CredentialView>, VaultError>(store@.passwords));
                    assert(replay_step(
                        shown_rows(taken, key),
                        heads,
                        table[k as int],
                        longer[k as int],
                    ) == Ok::<Seq<CredentialView>, VaultError>(shown_rows(store@.passwords, key)));
                }
            },
        }
        proof {
            seeds = longer;
        }
        k += 1;
    }
    assert(import_outcome(
        before,
        store@.passwords,
        Ok::<(), VaultError>(()),
        key,
        heads,
        table,
        seeds,
        k as nat,
    ));
    Ok(())
}

/// What taking one row in makes of the stored passkeys, under a given
/// fresh id and creation time: the passkeys with the row's passkey added, or
/// the failure of the row, or `DuplicateId` where the id is taken.
pub open spec fn passkey_import_step(
    rows: Seq<PasskeyView>,
    headers: Seq<Seq<char>>,
    record: Seq<Seq<char>>,
    id: Seq<char>,
    created_at: Seq<char>,
) -> Result<Seq<PasskeyView>, VaultError> {
    match passkey_fields(headers, record) {
        Err(e) => Err(e),
        Ok(fields) => if passkey_ids(rows).contains(id) {
            Err(VaultError::DuplicateId)
        } else {
            Ok(
                rows.push(
                    PasskeyView {
                        id: id,
                        rp_id: fields.rp_id,
                        credential_id: fields.credential_id,
                        user_handle: fields.user_handle,
                        public_key: fields.public_key,
                        sign_count: fields.sign_count,
                        title: fields.title,
                        transports: fields.transports,
                        created_at: created_at,
                    },
                ),
            )
        },
    }
}

/// What taking the first `done` rows in makes of the stored passkeys, one
/// fresh id and one creation time for each row.
pub open spec fn passkeys_imported(
    rows: Seq<PasskeyView>,
    headers: Seq<Seq<char>>,
    records: Seq<Seq<Seq<char>>>,
    ids: Seq<Seq<char>>,
    times: Seq<Seq<char>>,
    done: nat,
) -> Result<Seq<PasskeyView>, VaultError>
    decreases done,
{
    if done == 0 {
        Ok(rows)
    } else {
        match passkeys_imported(rows, headers, records, ids, times, (done - 1) as nat) {
            Err(e) => Err(e),
            Ok(taken) => passkey_import_step(
                taken,
                headers,
                records[done - 1],
                ids[done - 1],
                times[done - 1],
            ),
        }
    }
}

/// Whether `after` and `r` are what an import of `records` makes of the
/// passkeys `before`, with the ids and creation times that were drawn for
/// the first rows.
///
/// The first `done` rows were taken in, each as a new passkey under an id
/// that some sixteen bytes make and the text of some instant. An import that
/// succeeds took every row in. One that fails stopped at row `done` and
/// keeps what the rows before it made: an invalid row fails with its own
/// error, before anything is drawn for it; a valid row fails where nothing
/// could be drawn for it, or with `DuplicateId`.
pub open spec fn passkey_import_outcome(
    before: Seq<PasskeyView>,
    after: Seq<PasskeyView>,
    r: Result<(), VaultError>,
    headers: Seq<Seq<char>>,
    records: Seq<Seq<Seq<char>>>,
    ids: Seq<Seq<char>>,
    times: Seq<Seq<char>>,
    done: nat,
) -> bool {
    &&& done <= records.len()
    &&& done <= ids.len()
    &&& ids.len() == times.len()
    &&& passkeys_imported(before, headers, records, ids, times, done) == Ok::<
        Seq<PasskeyView>,
        VaultError,
    >(after)
    &&& forall|j: int| 0 <= j < done ==> is_fresh_id(#[trigger] ids[j])
    &&& forall|j: int| 0 <= j < done ==> is_timestamp(#[trigger] times[j])
    &&& match r {
        Ok(_) => done == records.len(),
        Err(e) => done < records.len() && match passkey_fields(headers, records[done as int]) {
            Err(invalid) => e == invalid,
            Ok(_) => is_draw_failure(e) || (done < ids.len() && passkey_import_step(
                after,
                headers,
                records[done as int],
                ids[done as int],
                times[done as int],
            ) == Err::<Seq<PasskeyView>, VaultError>(e)),
        },
    }
}

/// What the first rows make does not depend on what is drawn for later
/// rows.
pub proof fn lemma_passkey_import_reads_its_draws(
    rows: Seq<PasskeyView>,
    headers: Seq<Seq<char>>,
    records: Seq<Seq<Seq<char>>>,
    ids: Seq<Seq<char>>,
    times: Seq<Seq<char>>,
    other_ids: Seq<Seq<char>>,
    other_times: Seq<Seq<char>>,
    done: nat,
)
    requires
        forall|j: int| 0 <= j < done ==> ids[j] == other_ids[j] && times[j] == other_times[j],
    ensures
        passkeys_imported(rows, headers, records, ids, times, done) == passkeys_imported(
            rows,
            headers,
            records,
            other_ids,
            other_times,
            done,
        ),
    decreases done,
{
    if done > 0 {
        lemma_passkey_import_reads_its_draws(
            rows,
            headers,
            records,
            ids,
            times,
            other_ids,
            other_times,
            (done - 1) as nat,
        );
    }
}

/// Takes rows of passkeys into the store, one after the other: every valid
/// row adds a passkey, under an id and a creation time that are drawn for
/// it. Ids and creation times in the rows are not read.
///
/// Each row is tested before anything is drawn for it. The first row that
/// fails ends the import with its error; the rows before it stay taken in.
/// What the call leaves is stated by `passkey_import_outcome`.
pub fn import_passkeys_csv(
    store: &mut VaultStore,
    headers: &Vec<String>,
    records: &Vec<Vec<String>>,
) -> (r: Result<(), VaultError>)
    requires
        old(store).wf(),
    ensures
        final(store).wf(),
        final(store)@.passwords == old(store)@.passwords,
        exists|ids: Seq<Seq<char>>, times: Seq<Seq<char>>, done: nat| #[trigger]
            passkey_import_outcome(
                old(store)@.passkeys,
                final(store)@.passkeys,
                r,
                row_texts(headers@),
                table_texts(records@),
                ids,
                times,
                done,
            ),
{
    let ghost before = store@.passkeys;
    let ghost heads = row_texts(headers@);
    let ghost table = table_texts(records@);
    let ghost mut ids: Seq<Seq<char>> = Seq::empty();
    let ghost mut times: Seq<Seq<char>> = Seq::empty();
    let mut k: usize = 0;
    while k < records.len()
        invariant
            store.wf(),
            store@.passwords == old(store)@.passwords,
            before == old(store)@.passkeys,
            heads == row_texts(headers@),
            table == table_texts(records@),
            k <= records@.len(),
            ids.len() == k,
            times.len() == k,
            forall|j: int| 0 <= j < k ==> is_fresh_id(#[trigger] ids[j]),
            forall|j: int| 0 <= j < k ==> is_timestamp(#[trigger] times[j]),
            passkeys_imported(before, heads, table, ids, times, k as nat) == Ok::<
                Seq<PasskeyView>,
                VaultError,
            >(store@.passkeys),
        decreases records@.len() - k,
    {
        assert(table[k as int] == row_texts(records@[k as int]@));
        match check_passkey_row(headers, &records[k]) {
            Err(e) => {
                assert(passkey_import_outcome(
                    before,
                    store@.passkeys,
                    Err::<(), VaultError>(e),
                    heads,
                    table,
                    ids,
                    times,
                    k as nat,
                ));
                return Err(e);
            },
            Ok(_) => {},
        }
        let id = match fresh_id() {
            Ok(id) => id,
            Err(e) => {
                assert(passkey_import_outcome(
                    before,
                    store@.passkeys,
                    Err::<(), VaultError>(e),
                    heads,
                    table,
                    ids,
                    times,
                    k as nat,
                ));
                return Err(e);
            },
        };
        let created_at = match created_now() {
            Ok(created_at) => created_at,
            Err(e) => {
                assert(passkey_import_outcome(
                    before,
                    store@.passkeys,
                    Err::<(), VaultError>(e),
                    heads,
                    table,
                    ids,
                    times,
                    k as nat,
                ));
                return Err(e);
            },
        };
        let ghost taken = store@.passkeys;
        let ghost more_ids = ids.push(id@);
        let ghost more_times = times.push(created_at@);
        proof {
            lemma_passkey_import_reads_its_draws(
                before,
                heads,
                table,
                ids,
                times,
                more_ids,
                more_times,
                k as nat,
            );
            assert(table[k as int] == row_texts(records@[k as int]@));
        }
        match import_passkey_row(store, id.as_str(), created_at.as_str(), headers, &records[k]) {
            Err(e) => {
                assert(passkey_import_step(
                    taken,
                    heads,
                    table[k as int],
                    more_ids[k as int],
                    more_times[k as int],
                ) == Err::<Seq<PasskeyView>, VaultError>(e));
                assert(passkey_import_outcome(
                    before,
                    store@.passkeys,
                    Err::<(), VaultError>(e),
                    heads,
                    table,
                    more_ids,
                    more_times,
                    k as nat,
                ));
                return Err(e);
            },
            Ok(_) => {
                assert(passkey_import_step(
                    taken,
                    heads,
                    table[k as int],
                    more_ids[k as int],
                    more_times[k as int],
                ) == Ok::<Seq<PasskeyView>, VaultError>(store@.passkeys));
            },
        }
        proof {
            ids = more_ids;
            times = more_times;
        }
        k += 1;
    }
    assert(passkey_import_outcome(
        before,
        store@.passkeys,
        Ok::<(), VaultError>(()),
        heads,
        table,
        ids,
        times,
        k as nat,
    ));
    Ok(())
}

/// No row fails with a refusal of the session guard.
pub proof fn lemma_import_error_is_no_refusal(
    rows: Seq<CredentialView>,
    secret: Option<Seq<char>>,
    headers: Seq<Seq<char>>,
    records: Seq<Seq<Seq<char>>>,
    seeds: Seq<SeedView>,
    done: nat,
    e: VaultError,
)
    requires
        is_draw_failure(e) || (done < records.len() && credential_fields(
            headers,
            records[done as int],
        ) == Err::<CredentialFields, VaultError>(e)) || (done < records.len() && done < seeds.len()
            && import_step(
            rows,
            secret,
            headers,
            records[done as int],
            seeds[done as int],
        ) == Err::<Seq<CredentialView>, VaultError>(e)),
    ensures
        e != VaultError::Unauthenticated,
        e != VaultError::SessionExpired,
{
}

} // verus!
