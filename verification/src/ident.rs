use uuid::Builder;
use vstd::prelude::*;

use crate::clock::{is_timestamp, now, rfc3339_text, timestamp_text};
use crate::entropy::{random_id_bytes, random_nonce};
use crate::error::{is_draw_failure, VaultError};
use crate::store::{Seed, SeedView};

verus! {

/// The text of the version 4 UUID (RFC 4122) that sixteen random bytes
/// make: the bytes with version and variant set, as small hexadecimal digits
/// in five groups.
pub uninterp spec fn uuid_v4_text(bytes: Seq<u8>) -> Seq<char>;

/// Makes the text of a version 4 UUID from sixteen random bytes.
///
/// Calls `Builder::from_random_bytes` of the crate `uuid`, which sets the
/// version and the variant in the bytes, then `into_uuid` and `to_string`,
/// which writes the hyphenated form. The contract names the result.
#[verifier::external_body]
fn uuid_from_random(bytes: &[u8; 16]) -> (r: String)
    ensures
        r@ == uuid_v4_text(bytes@),
{
    Builder::from_random_bytes(*bytes).into_uuid().to_string()
}

/// Whether a text is the id that some sixteen bytes make.
pub open spec fn is_fresh_id(id: Seq<char>) -> bool {
    exists|bytes: Seq<u8>| bytes.len() == 16 && id == #[trigger] uuid_v4_text(bytes)
}

/// Whether a seed is one that `draw_seed` draws, which is one that `seed_of`
/// makes of some sixteen bytes, some nonce and some instant: its id is the
/// id that the bytes make, its creation time is the RFC 3339 text of the
/// instant, and its nonce has twelve bytes.
pub open spec fn is_fresh_seed(seed: SeedView) -> bool {
    &&& is_fresh_id(seed.id)
    &&& is_timestamp(seed.created_at)
    &&& seed.nonce.len() == 12
}

/// The id that sixteen given bytes make.
pub fn id_from_bytes(bytes: &[u8; 16]) -> (r: String)
    ensures
        r@ == uuid_v4_text(bytes@),
{
    uuid_from_random(bytes)
}

/// Draws a fresh entry id: a version 4 UUID of sixteen bytes from the
/// operating system's generator.
pub fn fresh_id() -> (r: Result<String, VaultError>)
    ensures
        match r {
            Ok(id) => is_fresh_id(id@),
            Err(e) => e == VaultError::RandomSource,
        },
{
    let bytes = random_id_bytes()?;
    let id = uuid_from_random(&bytes);
    assert(bytes@.len() == 16 && id@ == uuid_v4_text(bytes@));
    Ok(id)
}

/// The seed that sixteen bytes, a nonce and an instant make: the id that the
/// bytes make, the nonce, and the RFC 3339 text of the instant as creation
/// time; `ClockOutOfRange` where the instant has no such text.
pub open spec fn seed_of(bytes: Seq<u8>, nonce: Seq<u8>, secs: int, nanos: int) -> Result<
    SeedView,
    VaultError,
> {
    match rfc3339_text(secs, nanos) {
        Some(text) => Ok(SeedView { id: uuid_v4_text(bytes), created_at: text, nonce: nonce }),
        None => Err(VaultError::ClockOutOfRange),
    }
}

/// The view of the outcome of a call that returns a seed.
pub open spec fn seed_outcome(r: Result<Seed, VaultError>) -> Result<SeedView, VaultError> {
    match r {
        Ok(seed) => Ok(seed@),
        Err(e) => Err(e),
    }
}

/// Makes a seed of what was drawn and read: sixteen random bytes for the
/// id, twelve for the nonce, and the instant of the clock, as `seed_of`
/// says.
pub fn seed_from(bytes: &[u8; 16], nonce: [u8; 12], secs: i64, nanos: u32) -> (r: Result<
    Seed,
    VaultError,
>)
    ensures
        seed_outcome(r) == seed_of(bytes@, nonce@, secs as int, nanos as int),
{
    let created_at = timestamp_text(secs, nanos)?;
    let id = id_from_bytes(bytes);
    Ok(Seed { id, created_at, nonce })
}

/// Draws what a new credential needs: a fresh id, a fresh nonce, and the
/// instant that the clock reads, as creation time. Fails with
/// `RandomSource` when the generator fails, and with `ClockOutOfRange` when
/// the clock reads an instant that no date of the calendar holds.
pub fn draw_seed() -> (r: Result<Seed, VaultError>)
    ensures
        match r {
            Ok(seed) => is_fresh_seed(seed@),
            Err(e) => is_draw_failure(e),
        },
{
    let bytes = random_id_bytes()?;
    let nonce = random_nonce()?;
    let (secs, nanos) = now();
    let r = seed_from(&bytes, nonce, secs, nanos);
    proof {
        if r is Ok {
            assert(r->Ok_0@.id == uuid_v4_text(bytes@) && bytes@.len() == 16);
            assert(rfc3339_text(secs as int, nanos as int) == Some(r->Ok_0@.created_at));
        }
    }
    r
}

} // verus!
