use vstd::prelude::*;

verus! {

/// The column that an imported row lacks.
#[derive(Clone, Copy, Debug, PartialEq, Eq, Structural)]
pub enum MissingField {
    Url,
    Username,
    Password,
    RpId,
    CredentialId,
    UserHandle,
    PublicKey,
}

/// Every way in which a vault operation can fail.
#[derive(Clone, Copy, Debug, PartialEq, Eq, Structural)]
pub enum VaultError {
    /// No master secret is configured.
    MissingSecret,
    /// The supplied secret differs from the configured one.
    AuthenticationFailed,
    /// No session exists.
    Unauthenticated,
    /// A session exists, but its expiry has passed.
    SessionExpired,
    /// No entry has the given id.
    NotFound,
    /// A stored blob is not base64, or is shorter than a nonce.
    MalformedCiphertext,
    /// Authentication of a stored blob failed under the derived key.
    DecryptFailure,
    /// The plaintext is too long to be sealed and encoded.
    PlaintextTooLong,
    /// The operating system handed out no random bytes.
    RandomSource,
    /// The system clock reads an instant that no date of the calendar holds.
    ClockOutOfRange,
    /// An entry with the freshly drawn id exists already.
    DuplicateId,
    /// An imported row lacks a required column.
    ImportRowInvalid(MissingField),
}

/// Whether an error says that nothing could be drawn for a new entry: the
/// generator gave no random bytes, or the clock no instant of the calendar.
pub open spec fn is_draw_failure(e: VaultError) -> bool {
    e == VaultError::RandomSource || e == VaultError::ClockOutOfRange
}

} // verus!
