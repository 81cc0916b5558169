use rand::rngs::OsRng;
use rand::RngCore;
use vstd::prelude::*;

use crate::error::VaultError;

verus! {

/// How many draws in a row `rand_index` lets fall outside the accepted zone
/// before it gives up. Each draw falls outside with a probability under one
/// half, so the limit is not met in practice.
pub const MAX_DRAWS: usize = 128;

/// Fills an array with bytes of the operating system's generator.
///
/// Calls `OsRng::try_fill_bytes` of the crate `rand`, which forwards to
/// `getrandom` and reports its failure as an error. Nothing is claimed of the
/// bytes: they differ from call to call.
#[verifier::external_body]
fn os_random<const N: usize>() -> (r: Option<[u8; N]>) {
    let mut buf = [0u8; N];
    match OsRng.try_fill_bytes(&mut buf) {
        Ok(()) => Some(buf),
        Err(_) => None,
    }
}

/// The number that eight bytes spell, least significant byte first.
pub open spec fn le_value(bytes: Seq<u8>) -> int
    recommends
        bytes.len() == 8,
{
    bytes[0] as int + bytes[1] as int * 0x100 + bytes[2] as int * 0x1_0000 + bytes[3] as int
        * 0x100_0000 + bytes[4] as int * 0x1_0000_0000 + bytes[5] as int * 0x100_0000_0000
        + bytes[6] as int * 0x1_0000_0000_0000 + bytes[7] as int * 0x100_0000_0000_0000
}

/// Reads eight bytes as a little-endian number.
pub fn u64_from_le(bytes: &[u8; 8]) -> (v: u64)
    ensures
        v as int == le_value(bytes@),
{
    let b0: u64 = bytes[0] as u64;
    let b1: u64 = bytes[1] as u64;
    let b2: u64 = bytes[2] as u64;
    let b3: u64 = bytes[3] as u64;
    let b4: u64 = bytes[4] as u64;
    let b5: u64 = bytes[5] as u64;
    let b6: u64 = bytes[6] as u64;
    let b7: u64 = bytes[7] as u64;
    b0 + b1 * 0x100 + b2 * 0x1_0000 + b3 * 0x100_0000 + b4 * 0x1_0000_0000 + b5
        * 0x100_0000_0000 + b6 * 0x1_0000_0000_0000 + b7 * 0x100_0000_0000_0000
}

/// The end of the zone of draws that `sample_index` accepts for `bound`: the
/// largest multiple of `bound` that is at most `u64::MAX`.
pub open spec fn accepted_zone(bound: int) -> int
    recommends
        bound > 0,
{
    u64::MAX as int - (u64::MAX as int % bound)
}

/// Turns one 64-bit draw into an index below `bound`, or rejects the draw.
///
/// A draw is accepted when it lies below `accepted_zone(bound)`; the index is
/// then the draw modulo `bound`, and every index comes from equally many
/// accepted draws. No index exists below a `bound` of zero.
pub fn sample_index(draw: u64, bound: usize) -> (r: Option<usize>)
    ensures
        r is Some <==> bound > 0 && (draw as int) < accepted_zone(bound as int),
        r matches Some(i) ==> i as int == draw as int % bound as int,
{
    if bound == 0 {
        return None;
    }
    let wide: u64 = bound as u64;
    let zone: u64 = u64::MAX - (u64::MAX % wide);
    if draw < zone {
        Some((draw % wide) as usize)
    } else {
        None
    }
}

/// Draws 64 bits from the operating system's generator.
pub(crate) fn random_u64() -> (r: Result<u64, VaultError>)
    ensures
        r matches Err(e) ==> e == VaultError::RandomSource,
{
    match os_random::<8>() {
        Some(bytes) => Ok(u64_from_le(&bytes)),
        None => Err(VaultError::RandomSource),
    }
}

/// Draws twelve bytes from the operating system's generator: a fresh nonce.
pub(crate) fn random_nonce() -> (r: Result<[u8; 12], VaultError>)
    ensures
        r matches Err(e) ==> e == VaultError::RandomSource,
{
    match os_random::<12>() {
        Some(bytes) => Ok(bytes),
        None => Err(VaultError::RandomSource),
    }
}

/// Draws sixteen bytes from the operating system's generator: the raw
/// material of a fresh entry id.
pub(crate) fn random_id_bytes() -> (r: Result<[u8; 16], VaultError>)
    ensures
        r matches Err(e) ==> e == VaultError::RandomSource,
{
    match os_random::<16>() {
        Some(bytes) => Ok(bytes),
        None => Err(VaultError::RandomSource),
    }
}

/// Draws an index below `len` without bias, by rejection sampling.
///
/// A `len` of zero or one needs no draw and gives index zero. Otherwise draws
/// are made until `sample_index` accepts one. The call fails with
/// `RandomSource` when the generator fails, or when `MAX_DRAWS` draws in a row
/// were rejected.
pub fn rand_index(len: usize) -> (r: Result<usize, VaultError>)
    ensures
        len <= 1 ==> r == Ok::<usize, VaultError>(0),
        r matches Ok(i) ==> i < len || (len == 0 && i == 0),
        r matches Err(e) ==> e == VaultError::RandomSource,
{
    if len <= 1 {
        return Ok(0);
    }
    let mut tries: usize = 0;
    while tries < MAX_DRAWS
        invariant
            len > 1,
        decreases MAX_DRAWS - tries,
    {
        let draw = random_u64()?;
        match sample_index(draw, len) {
            Some(i) => {
                assert(i as int == draw as int % len as int);
                return Ok(i);
            },
            None => {},
        }
        tries += 1;
    }
    Err(VaultError::RandomSource)
}

} // verus!
