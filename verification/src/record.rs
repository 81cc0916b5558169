use vstd::prelude::*;

verus! {

/// A stored website credential. The password is held as ciphertext: nonce
/// and sealed bytes in base64, sealed under the key derived from this entry's
/// own id.
#[derive(Clone, Debug, PartialEq, Eq)]
pub struct PasswordRecord {
    pub id: String,
    pub url: String,
    pub username: String,
    pub password: String,
    pub title: Option<String>,
    pub note: Option<String>,
    pub created_at: String,
}

/// What a `PasswordRecord` holds, as plain texts.
pub struct CredentialView {
    pub id: Seq<char>,
    pub url: Seq<char>,
    pub username: Seq<char>,
    pub password: Seq<char>,
    pub title: Option<Seq<char>>,
    pub note: Option<Seq<char>>,
    pub created_at: Seq<char>,
}

/// The metadata of a stored WebAuthn passkey. The public key is public
/// material and is held as it is.
#[derive(Clone, Debug, PartialEq, Eq)]
pub struct PasskeyRecord {
    pub id: String,
    pub rp_id: String,
    pub credential_id: String,
    pub user_handle: String,
    pub public_key: String,
    pub sign_count: i64,
    pub title: Option<String>,
    pub transports: Option<String>,
    pub created_at: String,
}

/// What a `PasskeyRecord` holds, as plain texts.
pub struct PasskeyView {
    pub id: Seq<char>,
    pub rp_id: Seq<char>,
    pub credential_id: Seq<char>,
    pub user_handle: Seq<char>,
    pub public_key: Seq<char>,
    pub sign_count: i64,
    pub title: Option<Seq<char>>,
    pub transports: Option<Seq<char>>,
    pub created_at: Seq<char>,
}

/// The fields of a credential that an update sets; an empty slot leaves the
/// field as it is. The password is given in the clear and stored encrypted.
#[derive(Clone, Debug, PartialEq, Eq)]
pub struct CredentialPatch {
    pub url: Option<String>,
    pub username: Option<String>,
    pub password: Option<String>,
    pub title: Option<String>,
    pub note: Option<String>,
}

/// What a `CredentialPatch` holds, as plain texts.
pub struct PatchView {
    pub url: Option<Seq<char>>,
    pub username: Option<Seq<char>>,
    pub password: Option<Seq<char>>,
    pub title: Option<Seq<char>>,
    pub note: Option<Seq<char>>,
}

/// The text of an optional string.
pub open spec fn option_text(field: Option<String>) -> Option<Seq<char>> {
    match field {
        Some(s) => Some(s@),
        None => None,
    }
}

/// The text of an optional string slice.
pub open spec fn option_str_text(field: Option<&str>) -> Option<Seq<char>> {
    match field {
        Some(s) => Some(s@),
        None => None,
    }
}

impl View for PasswordRecord {
    type V = CredentialView;

    open spec fn view(&self) -> CredentialView {
        CredentialView {
            id: self.id@,
            url: self.url@,
            username: self.username@,
            password: self.password@,
            title: option_text(self.title),
            note: option_text(self.note),
            created_at: self.created_at@,
        }
    }
}

impl View for PasskeyRecord {
    type V = PasskeyView;

    open spec fn view(&self) -> PasskeyView {
        PasskeyView {
            id: self.id@,
            rp_id: self.rp_id@,
            credential_id: self.credential_id@,
            user_handle: self.user_handle@,
            public_key: self.public_key@,
            sign_count: self.sign_count,
            title: option_text(self.title),
            transports: option_text(self.transports),
            created_at: self.created_at@,
        }
    }
}

impl View for CredentialPatch {
    type V = PatchView;

    open spec fn view(&self) -> PatchView {
        PatchView {
            url: option_text(self.url),
            username: option_text(self.username),
            password: option_text(self.password),
            title: option_text(self.title),
            note: option_text(self.note),
        }
    }
}

/// The views of a list of credentials.
pub open spec fn credential_views(records: Seq<PasswordRecord>) -> Seq<CredentialView> {
    Seq::new(records.len(), |i: int| records[i]@)
}

/// The views of a list of passkeys.
pub open spec fn passkey_views(records: Seq<PasskeyRecord>) -> Seq<PasskeyView> {
    Seq::new(records.len(), |i: int| records[i]@)
}

/// A copy of an optional string.
pub fn copy_option(field: &Option<String>) -> (r: Option<String>)
    ensures
        option_text(r) == option_text(*field),
{
    match field {
        Some(s) => Some(s.clone()),
        None => None,
    }
}

/// An owned copy of an optional string slice.
pub fn own_option(field: Option<&str>) -> (r: Option<String>)
    ensures
        option_text(r) == option_str_text(field),
{
    match field {
        Some(s) => Some(s.to_owned()),
        None => None,
    }
}

/// The string slice of an optional string.
pub fn borrow_option(field: &Option<String>) -> (r: Option<&str>)
    ensures
        option_str_text(r) == option_text(*field),
{
    match field {
        Some(s) => Some(s.as_str()),
        None => None,
    }
}

impl PasswordRecord {
    /// A copy of the record.
    pub fn duplicate(&self) -> (r: PasswordRecord)
        ensures
            r@ == self@,
    {
        PasswordRecord {
            id: self.id.clone(),
            url: self.url.clone(),
            username: self.username.clone(),
            password: self.password.clone(),
            title: copy_option(&self.title),
            note: copy_option(&self.note),
            created_at: self.created_at.clone(),
        }
    }
}

impl PasskeyRecord {
    /// A copy of the record.
    pub fn duplicate(&self) -> (r: PasskeyRecord)
        ensures
            r@ == self@,
    {
        PasskeyRecord {
            id: self.id.clone(),
            rp_id: self.rp_id.clone(),
            credential_id: self.credential_id.clone(),
            user_handle: self.user_handle.clone(),
            public_key: self.public_key.clone(),
            sign_count: self.sign_count,
            title: copy_option(&self.title),
            transports: copy_option(&self.transports),
            created_at: self.created_at.clone(),
        }
    }
}

impl CredentialPatch {
    /// The patch that changes nothing.
    pub fn new() -> (r: CredentialPatch)
        ensures
            r@ == (PatchView { url: None, username: None, password: None, title: None, note: None }),
    {
        CredentialPatch { url: None, username: None, password: None, title: None, note: None }
    }

    /// Whether the patch sets no field.
    pub fn is_empty(&self) -> (r: bool)
        ensures
            r == (self@.url is None && self@.username is None && self@.password is None
                && self@.title is None && self@.note is None),
    {
        self.url.is_none() && self.username.is_none() && self.password.is_none()
            && self.title.is_none() && self.note.is_none()
    }
}

} // verus!
