use base64::engine::general_purpose::STANDARD;
use base64::Engine;
use chacha20poly1305::aead::{Aead, KeyInit};
use chacha20poly1305::{ChaCha20Poly1305, Nonce};
use hkdf::Hkdf;
use sha2::Sha256;
use vstd::prelude::*;
use vstd::slice::*;
use vstd::string::*;
use vstd::utf8::*;

use crate::entropy::random_nonce;
use crate::error::VaultError;
use crate::text::{lemma_utf8_is_no_shorter, string_from_utf8};

verus! {

/// Length of a nonce, in bytes.
pub const NONCE_LEN: usize = 12;

/// Length of the authentication tag that sealing appends, in bytes.
pub const TAG_LEN: usize = 16;

/// The 32 bytes that HKDF-SHA256 (RFC 5869) expands from `ikm` under `salt`
/// and `info`.
pub uninterp spec fn hkdf_sha256_okm(salt: Seq<u8>, ikm: Seq<u8>, info: Seq<u8>) -> Seq<u8>;

/// What ChaCha20-Poly1305 (RFC 8439) makes of a plaintext under a key and a
/// nonce, with no associated data: the encrypted bytes, then the tag.
pub uninterp spec fn chacha20poly1305_sealed(key: Seq<u8>, nonce: Seq<u8>, plaintext: Seq<u8>) -> Seq<u8>;

/// What ChaCha20-Poly1305 recovers from sealed bytes under a key and a nonce,
/// with no associated data; `None` where the tag does not authenticate them.
pub uninterp spec fn chacha20poly1305_opened(key: Seq<u8>, nonce: Seq<u8>, sealed: Seq<u8>) -> Option<Seq<u8>>;

/// The standard base64 text (RFC 4648, padded) of some bytes.
pub uninterp spec fn base64_encoded(data: Seq<u8>) -> Seq<char>;

/// The bytes that a standard base64 text stands for; `None` where the text
/// is no such text.
pub uninterp spec fn base64_decoded(text: Seq<char>) -> Option<Seq<u8>>;

/// The most bytes that the cipher takes in one call. Its key stream has
/// 2^32 - 1 blocks of 64 bytes, the first of which is spent on the key of
/// the tag; beyond the blocks that are left the cipher does not return.
pub const MAX_PLAINTEXT: u64 = 274_877_906_816;

/// Whether the cipher takes a plaintext of `len` bytes.
pub open spec fn cipher_takes(len: int) -> bool {
    len <= MAX_PLAINTEXT
}

/// Whether the encoder takes `len` bytes: the length of the text, four
/// characters for every three bytes begun, must fit in `usize`.
pub open spec fn encoder_takes(len: int) -> bool {
    (len / 3) * 4 + 4 <= usize::MAX as int
}

/// The length of the base64 text of `len` bytes: four characters for every
/// three bytes begun.
pub open spec fn encoded_len(len: int) -> int {
    4 * ((len + 2) / 3)
}

/// Expands a 32-byte key with HKDF-SHA256.
///
/// Calls `Hkdf::<Sha256>::new` with the salt and the input key material, then
/// `expand` with `info` into 32 bytes. The contract names the result, and
/// claims that the call succeeds: `expand` fails only for an output longer
/// than 255 hash lengths.
#[verifier::external_body]
fn hkdf_expand_key(salt: &[u8], ikm: &[u8], info: &[u8]) -> (r: Option<[u8; 32]>)
    ensures
        r is Some,
        r matches Some(key) ==> key@ == hkdf_sha256_okm(salt@, ikm@, info@),
{
    let mut okm = [0u8; 32];
    match Hkdf::<Sha256>::new(Some(salt), ikm).expand(info, &mut okm) {
        Ok(()) => Some(okm),
        Err(_) => None,
    }
}

/// Seals a plaintext with ChaCha20-Poly1305.
///
/// Calls `ChaCha20Poly1305::new_from_slice` and `Aead::encrypt`. A plaintext
/// that needs more blocks of key stream than are left makes the call panic:
/// `cipher_takes` leaves those out. The contract names the result, claims
/// that the call succeeds (the key has its length, and the length check of
/// the crate passes every plaintext that `cipher_takes` admits), that the tag
/// makes the result sixteen bytes longer than the plaintext, and that
/// opening the result under the same key and nonce gives the plaintext back:
/// decryption recomputes the tag over the same bytes and undoes the same key
/// stream.
#[verifier::external_body]
fn aead_seal(key: &[u8; 32], nonce: &[u8; 12], plaintext: &[u8]) -> (r: Option<Vec<u8>>)
    requires
        cipher_takes(plaintext@.len() as int),
    ensures
        r is Some,
        r matches Some(sealed) ==> {
            &&& sealed@ == chacha20poly1305_sealed(key@, nonce@, plaintext@)
            &&& sealed@.len() == plaintext@.len() + TAG_LEN
            &&& chacha20poly1305_opened(key@, nonce@, sealed@) == Some(plaintext@)
        },
{
    match ChaCha20Poly1305::new_from_slice(key) {
        Ok(cipher) => cipher.encrypt(Nonce::from_slice(nonce), plaintext).ok(),
        Err(_) => None,
    }
}

/// Opens sealed bytes with ChaCha20-Poly1305.
///
/// Calls `ChaCha20Poly1305::new_from_slice` and `Aead::decrypt`. The nonce
/// must have twelve bytes: `Nonce::from_slice` panics on another length. The
/// sealed bytes must be no more than the cipher takes and a tag: beyond that,
/// bytes with a fitting tag make the call panic. The contract names the
/// result.
#[verifier::external_body]
fn aead_open(key: &[u8; 32], nonce: &[u8], sealed: &[u8]) -> (r: Option<Vec<u8>>)
    requires
        nonce@.len() == NONCE_LEN,
        sealed@.len() <= MAX_PLAINTEXT + TAG_LEN,
    ensures
        match r {
            Some(plaintext) => chacha20poly1305_opened(key@, nonce@, sealed@) == Some(plaintext@),
            None => chacha20poly1305_opened(key@, nonce@, sealed@) is None,
        },
{
    match ChaCha20Poly1305::new_from_slice(key) {
        Ok(cipher) => cipher.decrypt(Nonce::from_slice(nonce), sealed).ok(),
        Err(_) => None,
    }
}

/// Encodes bytes as standard base64.
///
/// Calls `Engine::encode` on `STANDARD` of the crate `base64`, which panics
/// where the length of the text overflows `usize`: `encoder_takes` leaves
/// those inputs out. The contract names the result and claims that it has
/// four characters for every three bytes begun, and that decoding it gives
/// the bytes back.
#[verifier::external_body]
fn base64_encode(data: &[u8]) -> (r: String)
    requires
        encoder_takes(data@.len() as int),
    ensures
        r@ == base64_encoded(data@),
        r@.len() == encoded_len(data@.len() as int),
        base64_decoded(r@) == Some(data@),
{
    STANDARD.encode(data)
}

/// Decodes standard base64.
///
/// Calls `Engine::decode` on `STANDARD` of the crate `base64`. The contract
/// names the result.
#[verifier::external_body]
fn base64_decode(text: &str) -> (r: Option<Vec<u8>>)
    ensures
        match r {
            Some(data) => base64_decoded(text@) == Some(data@),
            None => base64_decoded(text@) is None,
        },
{
    STANDARD.decode(text).ok()
}

/// The key of the entry `id` under the master secret `secret`: HKDF-SHA256
/// with the id as salt, the secret as input key material, and the fixed label
/// `password-at-rest`, which keeps these keys apart from any other key that
/// is derived from the same secret.
pub open spec fn derived_key(secret: Seq<char>, id: Seq<char>) -> Seq<u8> {
    hkdf_sha256_okm(encode_utf8(id), encode_utf8(secret), encode_utf8("password-at-rest"@))
}

/// Whether a plaintext can be sealed and encoded: the cipher and the encoder
/// both take its length.
pub open spec fn sealable(plaintext: Seq<char>) -> bool {
    let len = encode_utf8(plaintext).len() as int;
    cipher_takes(len) && encoder_takes(NONCE_LEN + len + TAG_LEN)
}

/// The blob that stores a plaintext under a key and a nonce: the nonce, then
/// the sealed bytes, in base64.
pub open spec fn sealed_blob(key: Seq<u8>, nonce: Seq<u8>, plaintext: Seq<char>) -> Seq<char> {
    base64_encoded(nonce + chacha20poly1305_sealed(key, nonce, encode_utf8(plaintext)))
}

/// The nonce and the sealed bytes that a blob holds; `MalformedCiphertext`
/// where it is not base64 or is shorter than a nonce.
pub open spec fn blob_parts(blob: Seq<char>) -> Result<(Seq<u8>, Seq<u8>), VaultError> {
    match base64_decoded(blob) {
        None => Err(VaultError::MalformedCiphertext),
        Some(data) => if data.len() < NONCE_LEN {
            Err(VaultError::MalformedCiphertext)
        } else {
            Ok((data.take(NONCE_LEN as int), data.skip(NONCE_LEN as int)))
        },
    }
}

/// The text of decrypted bytes: what they spell in UTF-8, and the empty text
/// where they are not UTF-8.
pub open spec fn text_of(bytes: Seq<u8>) -> Seq<char> {
    if valid_utf8(bytes) {
        decode_utf8(bytes)
    } else {
        Seq::empty()
    }
}

/// What opening the parts of a blob under a key gives: `MalformedCiphertext`
/// where the nonce has not the length of a nonce, or the sealed bytes are
/// more than the cipher makes of any plaintext; and `DecryptFailure` where
/// the tag does not authenticate the parts.
pub open spec fn opened_parts(key: Seq<u8>, nonce: Seq<u8>, sealed: Seq<u8>) -> Result<
    Seq<char>,
    VaultError,
> {
    if nonce.len() != NONCE_LEN || sealed.len() > MAX_PLAINTEXT + TAG_LEN {
        Err(VaultError::MalformedCiphertext)
    } else {
        match chacha20poly1305_opened(key, nonce, sealed) {
            None => Err(VaultError::DecryptFailure),
            Some(bytes) => Ok(text_of(bytes)),
        }
    }
}

/// What opening a blob under a key gives.
pub open spec fn opened_blob(key: Seq<u8>, blob: Seq<char>) -> Result<Seq<char>, VaultError> {
    match blob_parts(blob) {
        Err(e) => Err(e),
        Ok((nonce, sealed)) => opened_parts(key, nonce, sealed),
    }
}

/// The view of the outcome of a call that returns a text.
pub open spec fn text_outcome(r: Result<String, VaultError>) -> Result<Seq<char>, VaultError> {
    match r {
        Ok(s) => Ok(s@),
        Err(e) => Err(e),
    }
}

/// Derives the 256-bit key of an entry from the master secret and the
/// entry's id. The same pair always gives the same key. Fails with
/// `MissingSecret` when no master secret is configured.
pub fn derive_key_for_id(secret: Option<&str>, id: &str) -> (r: Result<[u8; 32], VaultError>)
    ensures
        match r {
            Ok(key) => secret matches Some(s) && key@ == derived_key(s@, id@),
            Err(e) => secret is None && e == VaultError::MissingSecret,
        },
{
    match secret {
        None => Err(VaultError::MissingSecret),
        Some(s) => {
            let key = hkdf_expand_key(id.as_bytes(), s.as_bytes(), "password-at-rest".as_bytes());
            Ok(key.unwrap())
        },
    }
}

/// Whether `blob` is the blob that stores `plaintext` under `key` and
/// `nonce`.
///
/// Such a blob is the base64 text of the nonce, twelve bytes, followed by
/// what the cipher makes of the plaintext's UTF-8 bytes, which is those
/// bytes encrypted and a tag of sixteen bytes. It has four characters for
/// every three of these bytes begun, and so is no copy of the plaintext.
/// Opening it under the same key gives the plaintext back.
pub open spec fn is_blob_of(
    key: Seq<u8>,
    nonce: Seq<u8>,
    plaintext: Seq<char>,
    blob: Seq<char>,
) -> bool {
    let bytes = encode_utf8(plaintext);
    let sealed = chacha20poly1305_sealed(key, nonce, bytes);
    &&& nonce.len() == NONCE_LEN
    &&& sealed.len() == bytes.len() + TAG_LEN
    &&& blob == sealed_blob(key, nonce, plaintext)
    &&& blob.len() == encoded_len(NONCE_LEN + bytes.len() + TAG_LEN)
    &&& base64_decoded(blob) == Some(nonce + sealed)
    &&& blob_parts(blob) == Ok::<(Seq<u8>, Seq<u8>), VaultError>((nonce, sealed))
    &&& opened_blob(key, blob) == Ok::<Seq<char>, VaultError>(plaintext)
    &&& blob != plaintext
}

/// Seals a plaintext under a key and a given nonce, and encodes nonce and
/// sealed bytes as one base64 blob.
///
/// Succeeds exactly on the plaintexts that are `sealable`, and returns the
/// blob that `is_blob_of` describes.
pub fn seal_with_nonce(key: &[u8; 32], nonce: &[u8; 12], plaintext: &str) -> (r: Result<
    String,
    VaultError,
>)
    ensures
        match r {
            Ok(blob) => sealable(plaintext@) && is_blob_of(key@, nonce@, plaintext@, blob@),
            Err(e) => !sealable(plaintext@) && e == VaultError::PlaintextTooLong,
        },
{
    let bytes = plaintext.as_bytes();
    if bytes.len() as u64 > MAX_PLAINTEXT {
        return Err(VaultError::PlaintextTooLong);
    }
    let sealed = match aead_seal(key, nonce, bytes) {
        Some(sealed) => sealed,
        None => {
            return Err(VaultError::PlaintextTooLong);
        },
    };
    if sealed.len() > usize::MAX - NONCE_LEN || (sealed.len() + NONCE_LEN) / 3 > (usize::MAX - 4)
        / 4 {
        return Err(VaultError::PlaintextTooLong);
    }
    let mut data: Vec<u8> = Vec::with_capacity(NONCE_LEN + sealed.len());
    let mut i: usize = 0;
    while i < NONCE_LEN
        invariant
            i <= NONCE_LEN,
            data@ == nonce@.take(i as int),
        decreases NONCE_LEN - i,
    {
        data.push(nonce[i]);
        assert(nonce@.take(i + 1) == nonce@.take(i as int).push(nonce@[i as int]));
        i += 1;
    }
    assert(nonce@.take(NONCE_LEN as int) == nonce@);
    let mut j: usize = 0;
    while j < sealed.len()
        invariant
            j <= sealed@.len(),
            data@ == nonce@ + sealed@.take(j as int),
        decreases sealed@.len() - j,
    {
        data.push(sealed[j]);
        assert(sealed@.take(j + 1) == sealed@.take(j as int).push(sealed@[j as int]));
        j += 1;
    }
    assert(sealed@.take(sealed@.len() as int) == sealed@);
    let blob = base64_encode(data.as_slice());
    proof {
        assert((nonce@ + sealed@).take(NONCE_LEN as int) == nonce@);
        assert((nonce@ + sealed@).skip(NONCE_LEN as int) == sealed@);
        encode_utf8_valid_utf8(plaintext@);
        encode_utf8_decode_utf8(plaintext@);
        lemma_utf8_is_no_shorter(plaintext@);
        assert(blob@.len() > plaintext@.len());
    }
    Ok(blob)
}

/// Seals a plaintext under a key and a nonce drawn afresh from the operating
/// system's generator: no nonce is used twice, and none depends on what is
/// sealed. Fails with `RandomSource` when no nonce can be drawn, and with
/// `PlaintextTooLong` on a plaintext that is not `sealable`.
pub fn seal(key: &[u8; 32], plaintext: &str) -> (r: Result<String, VaultError>)
    ensures
        match r {
            Ok(blob) => {
                &&& sealable(plaintext@)
                &&& exists|nonce: Seq<u8>| #[trigger] is_blob_of(key@, nonce, plaintext@, blob@)
                &&& opened_blob(key@, blob@) == Ok::<Seq<char>, VaultError>(plaintext@)
                &&& blob@ != plaintext@
            },
            Err(e) => e == VaultError::RandomSource || (e == VaultError::PlaintextTooLong
                && !sealable(plaintext@)),
        },
{
    let nonce = random_nonce()?;
    let r = seal_with_nonce(key, &nonce, plaintext);
    proof {
        if r is Ok {
            assert(is_blob_of(key@, nonce@, plaintext@, r->Ok_0@));
        }
    }
    r
}

/// Decodes a blob and splits it into its nonce and its sealed bytes. Rejects
/// with `MalformedCiphertext` a blob that is not base64, and one that is
/// shorter than a nonce.
pub fn split_blob(blob: &str) -> (r: Result<(Vec<u8>, Vec<u8>), VaultError>)
    ensures
        match r {
            Ok((nonce, sealed)) => blob_parts(blob@) == Ok::<(Seq<u8>, Seq<u8>), VaultError>(
                (nonce@, sealed@),
            ),
            Err(e) => blob_parts(blob@) == Err::<(Seq<u8>, Seq<u8>), VaultError>(e),
        },
{
    let data = match base64_decode(blob) {
        Some(data) => data,
        None => {
            return Err(VaultError::MalformedCiphertext);
        },
    };
    if data.len() < NONCE_LEN {
        return Err(VaultError::MalformedCiphertext);
    }
    let mut nonce: Vec<u8> = Vec::with_capacity(NONCE_LEN);
    let mut sealed: Vec<u8> = Vec::with_capacity(data.len() - NONCE_LEN);
    let mut i: usize = 0;
    while i < data.len()
        invariant
            NONCE_LEN <= data@.len(),
            i <= data@.len(),
            i <= NONCE_LEN ==> nonce@ == data@.take(i as int) && sealed@.len() == 0,
            i > NONCE_LEN ==> nonce@ == data@.take(NONCE_LEN as int) && sealed@
                == data@.subrange(NONCE_LEN as int, i as int),
        decreases data@.len() - i,
    {
        if i < NONCE_LEN {
            nonce.push(data[i]);
            assert(data@.take(i + 1) == data@.take(i as int).push(data@[i as int]));
        } else {
            sealed.push(data[i]);
            assert(data@.subrange(NONCE_LEN as int, i + 1) == data@.subrange(
                NONCE_LEN as int,
                i as int,
            ).push(data@[i as int]));
        }
        i += 1;
    }
    assert(sealed@ == data@.skip(NONCE_LEN as int));
    Ok((nonce, sealed))
}

/// Opens the parts of a blob under a key. Fails with `MalformedCiphertext`
/// where the nonce has not the length of a nonce, or the sealed bytes are
/// more than the cipher makes of any plaintext; and with `DecryptFailure`
/// where the tag does not authenticate the parts: the key is wrong, or the
/// data was changed. Decrypted bytes that are not UTF-8 give the empty text.
pub fn open_parts(key: &[u8; 32], nonce: &Vec<u8>, sealed: &Vec<u8>) -> (r: Result<
    String,
    VaultError,
>)
    ensures
        text_outcome(r) == opened_parts(key@, nonce@, sealed@),
{
    if nonce.len() != NONCE_LEN || sealed.len() as u64 > MAX_PLAINTEXT + TAG_LEN as u64 {
        return Err(VaultError::MalformedCiphertext);
    }
    match aead_open(key, nonce.as_slice(), sealed.as_slice()) {
        None => Err(VaultError::DecryptFailure),
        Some(bytes) => match string_from_utf8(bytes) {
            Some(text) => Ok(text),
            None => Ok(String::new()),
        },
    }
}

/// Decodes and opens a blob under a key.
///
/// A blob that is not base64, is shorter than a nonce, or holds more sealed
/// bytes than the cipher makes of any plaintext fails with
/// `MalformedCiphertext`; one that the tag does not authenticate fails with
/// `DecryptFailure`. The blob that sealing made of a plaintext under the same
/// key opens to that plaintext.
pub fn open(key: &[u8; 32], blob: &str) -> (r: Result<String, VaultError>)
    ensures
        text_outcome(r) == opened_blob(key@, blob@),
{
    let (nonce, sealed) = split_blob(blob)?;
    open_parts(key, &nonce, &sealed)
}

/// The characters of a master secret, where one is configured.
pub open spec fn secret_text(secret: Option<&str>) -> Option<Seq<char>> {
    match secret {
        Some(s) => Some(s@),
        None => None,
    }
}

/// What decrypting the stored blob of the entry `id` gives. The blob is
/// decoded and split first, so a malformed blob is reported even where no
/// master secret is configured.
pub open spec fn decrypted_for_id(secret: Option<Seq<char>>, id: Seq<char>, blob: Seq<char>) -> Result<
    Seq<char>,
    VaultError,
> {
    match blob_parts(blob) {
        Err(e) => Err(e),
        Ok((nonce, sealed)) => match secret {
            None => Err(VaultError::MissingSecret),
            Some(s) => opened_parts(derived_key(s, id), nonce, sealed),
        },
    }
}

/// What a reader is shown for the stored blob of the entry `id`: the
/// decrypted text, and the stored blob itself where it cannot be decrypted.
pub open spec fn revealed(secret: Option<Seq<char>>, id: Seq<char>, stored: Seq<char>) -> Seq<char> {
    match decrypted_for_id(secret, id, stored) {
        Ok(text) => text,
        Err(_) => stored,
    }
}

/// Encrypts a secret field of the entry `id` under the entry's own key and a
/// given nonce.
///
/// Fails with `MissingSecret` when no master secret is configured, and with
/// `PlaintextTooLong` on a plaintext that is not `sealable`. The blob is the
/// one that `is_blob_of` describes for the entry's key; decrypting it for the
/// same entry under the same secret gives the plaintext back.
pub fn encrypt_for_id_with(secret: Option<&str>, id: &str, nonce: &[u8; 12], plaintext: &str) -> (r:
    Result<String, VaultError>)
    ensures
        match r {
            Ok(blob) => {
                &&& secret matches Some(s)
                &&& sealable(plaintext@)
                &&& is_blob_of(derived_key(s@, id@), nonce@, plaintext@, blob@)
                &&& decrypted_for_id(secret_text(secret), id@, blob@) == Ok::<Seq<char>, VaultError>(
                    plaintext@,
                )
            },
            Err(e) => if secret is None {
                e == VaultError::MissingSecret
            } else {
                e == VaultError::PlaintextTooLong && !sealable(plaintext@)
            },
        },
{
    let key = derive_key_for_id(secret, id)?;
    seal_with_nonce(&key, nonce, plaintext)
}

/// Encrypts a secret field of the entry `id` under the entry's own key and a
/// fresh random nonce.
///
/// Fails with `MissingSecret` when no master secret is configured, with
/// `RandomSource` when no nonce can be drawn, and with `PlaintextTooLong` on a
/// plaintext that is not `sealable`. The blob is the one that `is_blob_of`
/// describes for the entry's key and some nonce; decrypting it for the same
/// entry under the same secret gives the plaintext back.
pub fn encrypt_for_id(secret: Option<&str>, id: &str, plaintext: &str) -> (r: Result<
    String,
    VaultError,
>)
    ensures
        match r {
            Ok(blob) => {
                &&& secret matches Some(s)
                &&& sealable(plaintext@)
                &&& exists|nonce: Seq<u8>| #[trigger]
                    is_blob_of(derived_key(s@, id@), nonce, plaintext@, blob@)
                &&& decrypted_for_id(secret_text(secret), id@, blob@) == Ok::<Seq<char>, VaultError>(
                    plaintext@,
                )
                &&& blob@ != plaintext@
            },
            Err(e) => if secret is None {
                e == VaultError::MissingSecret
            } else {
                e == VaultError::RandomSource || (e == VaultError::PlaintextTooLong && !sealable(
                    plaintext@,
                ))
            },
        },
{
    let key = derive_key_for_id(secret, id)?;
    seal(&key, plaintext)
}

/// Decrypts the stored blob of the entry `id`.
///
/// Fails with `MalformedCiphertext` on a blob that is not base64 or is
/// shorter than a nonce, with `MissingSecret` when no master secret is
/// configured, with `MalformedCiphertext` again on sealed bytes that are more
/// than the cipher makes of any plaintext, and with `DecryptFailure` when the tag does not authenticate
/// the blob under the entry's key: the blob was sealed for another id or
/// under another secret, or it was changed.
pub fn decrypt_for_id(secret: Option<&str>, id: &str, blob: &str) -> (r: Result<String, VaultError>)
    ensures
        text_outcome(r) == decrypted_for_id(secret_text(secret), id@, blob@),
{
    let (nonce, sealed) = split_blob(blob)?;
    let key = derive_key_for_id(secret, id)?;
    open_parts(&key, &nonce, &sealed)
}

/// What a reader is shown for the stored blob of the entry `id`: the
/// decrypted text, and a copy of the stored blob where it cannot be
/// decrypted, so that no record drops out of sight.
pub fn shown_secret(secret: Option<&str>, id: &str, stored: &str) -> (r: String)
    ensures
        r@ == revealed(secret_text(secret), id@, stored@),
{
    match decrypt_for_id(secret, id, stored) {
        Ok(text) => text,
        Err(_) => stored.to_owned(),
    }
}

/// Blobs that hold different nonces differ: sealing the same plaintext under
/// the same key with another nonce gives another blob.
pub proof fn lemma_blobs_of_distinct_nonces_differ(
    first: Seq<char>,
    second: Seq<char>,
    first_parts: (Seq<u8>, Seq<u8>),
    second_parts: (Seq<u8>, Seq<u8>),
)
    requires
        blob_parts(first) == Ok::<(Seq<u8>, Seq<u8>), VaultError>(first_parts),
        blob_parts(second) == Ok::<(Seq<u8>, Seq<u8>), VaultError>(second_parts),
        first_parts.0 != second_parts.0,
    ensures
        first != second,
{
}

} // verus!
