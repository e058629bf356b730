//! Per-file keys, their base64url text form, and per-chunk authenticated
//! encryption with XChaCha20-Poly1305.
//!
//! Each chunk is sealed under the file key with a nonce derived from
//! `(key, chunk_index)` and associated data binding `(file_id, chunk_index)`,
//! so a chunk cannot be replayed at another index or in another file.

use vstd::prelude::*;
use crate::base64url::{b64url, lemma_b64url_injective};
use crate::text::string_from_chars;
use base64::Engine;
use chacha20poly1305::aead::Aead;
use chacha20poly1305::KeyInit;
use rand::RngCore;

verus! {

/// A 256-bit symmetric key for one shared file.
pub type FileKey = [u8; 32];

/// The 128-bit identifier of a shared file (the bytes of its UUID).
pub type FileId = [u8; 16];

/// Why a cryptographic step failed.
#[derive(Debug, Clone, Copy, PartialEq, Eq, Structural)]
pub enum CryptoError {
    /// The text is not unpadded URL-safe base64.
    InvalidBase64,
    /// The decoded key is not 32 bytes long.
    InvalidKeyLength,
    /// The plaintext is too long for the cipher.
    EncryptFailed,
    /// Wrong key or corrupted data: the tag did not verify.
    DecryptFailed,
}

#[verifier::external_type_specification]
#[verifier::external_body]
pub struct ExDecodeError(base64::DecodeError);

#[verifier::external_type_specification]
#[verifier::external_body]
pub struct ExAeadError(chacha20poly1305::Error);

/// The keyed BLAKE3 hash (32 bytes) of `input` under `key`.
pub uninterp spec fn blake3_keyed(key: Seq<u8>, input: Seq<u8>) -> Seq<u8>;

/// The plain BLAKE3 hash (32 bytes) of `input`.
pub uninterp spec fn blake3_digest(input: Seq<u8>) -> Seq<u8>;

/// The XChaCha20-Poly1305 ciphertext (with its 16-byte tag appended) of `msg`
/// under `key`, `nonce` and associated data `aad`.
pub uninterp spec fn xchacha_seal(key: Seq<u8>, nonce: Seq<u8>, aad: Seq<u8>, msg: Seq<u8>) -> Seq<u8>;

/// The largest plaintext, in 64-byte blocks, that the cipher accepts.
pub open spec fn aead_len_ok(len: nat) -> bool {
    len / 64 < u32::MAX
}

/// Lower-case hexadecimal digit of a nibble.
pub open spec fn hex_digit(v: u8) -> char {
    if v < 10 { (48 + v) as char } else { (87 + v) as char }
}

/// Lower-case hexadecimal text of a byte sequence, two digits per byte.
pub open spec fn hex_lower(b: Seq<u8>) -> Seq<char>
    decreases b.len(),
{
    if b.len() == 0 {
        Seq::empty()
    } else {
        seq![hex_digit(b[0] >> 4), hex_digit(b[0] & 15)] + hex_lower(b.skip(1))
    }
}

/// The bytes whose unpadded URL-safe base64 is `s`, if there are any.
pub open spec fn b64url_decoded(s: Seq<char>) -> Option<Seq<u8>> {
    if exists|v: Seq<u8>| b64url(v) == s {
        Some(choose|v: Seq<u8>| b64url(v) == s)
    } else {
        None
    }
}

/// Decoding undoes encoding: the bytes read back from the base64url text of
/// `b` are `b`. With `key_to_b64url` and `key_from_b64url` this says that a
/// key survives the round trip through its text form.
pub proof fn lemma_b64url_roundtrip(b: Seq<u8>)
    ensures
        b64url_decoded(b64url(b)) == Some(b),
{
    let v = choose|v: Seq<u8>| b64url(v) == b64url(b);
    lemma_b64url_injective(v, b);
}

/// Little-endian bytes of a 64-bit integer.
pub open spec fn u64_le(x: u64) -> Seq<u8> {
    seq![
        x as u8,
        (x >> 8) as u8,
        (x >> 16) as u8,
        (x >> 24) as u8,
        (x >> 32) as u8,
        (x >> 40) as u8,
        (x >> 48) as u8,
        (x >> 56) as u8,
    ]
}

proof fn lemma_u64_le_injective(x: u64, y: u64)
    requires
        u64_le(x) == u64_le(y),
    ensures
        x == y,
{
    assert(u64_le(x)[0] == u64_le(y)[0] && u64_le(x)[1] == u64_le(y)[1] && u64_le(x)[2] == u64_le(y)[2]
        && u64_le(x)[3] == u64_le(y)[3] && u64_le(x)[4] == u64_le(y)[4] && u64_le(x)[5] == u64_le(y)[5]
        && u64_le(x)[6] == u64_le(y)[6] && u64_le(x)[7] == u64_le(y)[7]);
    assert(x == y) by (bit_vector)
        requires
            x as u8 == y as u8,
            (x >> 8) as u8 == (y >> 8) as u8,
            (x >> 16) as u8 == (y >> 16) as u8,
            (x >> 24) as u8 == (y >> 24) as u8,
            (x >> 32) as u8 == (y >> 32) as u8,
            (x >> 40) as u8 == (y >> 40) as u8,
            (x >> 48) as u8 == (y >> 48) as u8,
            (x >> 56) as u8 == (y >> 56) as u8,
    ;
}

/// The associated data binds a chunk to its place: two chunks have the same
/// associated data only if they have the same file id and the same index, so
/// a chunk cannot be passed off as another chunk of the file or as a chunk of
/// another file.
pub proof fn lemma_chunk_aad_binds(id1: Seq<u8>, i1: u64, id2: Seq<u8>, i2: u64)
    requires
        id1.len() == 16,
        id2.len() == 16,
        chunk_aad(id1, i1) == chunk_aad(id2, i2),
    ensures
        id1 == id2,
        i1 == i2,
{
    let a = chunk_aad(id1, i1);
    assert(a.subrange(0, 16) =~= id1);
    assert(chunk_aad(id2, i2).subrange(0, 16) =~= id2);
    assert(a.subrange(16, 24) =~= u64_le(i1));
    assert(chunk_aad(id2, i2).subrange(16, 24) =~= u64_le(i2));
    lemma_u64_le_injective(i1, i2);
}

/// The nonce of chunk `index` of a file sealed under `key`: the first 24
/// bytes of the keyed BLAKE3 hash of the index's little-endian bytes.
pub open spec fn chunk_nonce(key: Seq<u8>, index: u64) -> Seq<u8> {
    blake3_keyed(key, u64_le(index)).take(24)
}

/// The associated data of chunk `index` of file `file_id`: the 16 id bytes
/// followed by the index's little-endian bytes.
pub open spec fn chunk_aad(file_id: Seq<u8>, index: u64) -> Seq<u8> {
    file_id + u64_le(index)
}

/// The ciphertext of chunk `index` of file `file_id` holding `plain`.
pub open spec fn sealed_chunk(key: Seq<u8>, file_id: Seq<u8>, index: u64, plain: Seq<u8>) -> Seq<u8> {
    xchacha_seal(key, chunk_nonce(key, index), chunk_aad(file_id, index), plain)
}

/// The content hash of some bytes: the lower-case hex of their BLAKE3 hash.
pub open spec fn content_hash(data: Seq<u8>) -> Seq<char> {
    hex_lower(blake3_digest(data))
}

/// A fresh key from the operating system's random source.
///
/// Calls `rand::rngs::OsRng::fill_bytes`; nothing is claimed of the bytes.
/// That call panics when the operating system cannot provide randomness.
#[verifier::external_body]
pub fn random_key() -> (k: FileKey) {
    let mut k = [0u8; 32];
    rand::rngs::OsRng.fill_bytes(&mut k);
    k
}

/// The unpadded URL-safe base64 text of a key.
///
/// Calls `base64::engine::general_purpose::URL_SAFE_NO_PAD.encode`, which
/// the contract claims computes exactly `b64url` of the key's bytes.
#[verifier::external_body]
pub fn key_to_b64url(key: &FileKey) -> (s: String)
    ensures
        s@ == b64url(key@),
{
    base64::engine::general_purpose::URL_SAFE_NO_PAD.encode(key)
}

/// Calls `base64::engine::general_purpose::URL_SAFE_NO_PAD.decode`. The
/// contract claims that it succeeds exactly on the texts that are the
/// (canonical, unpadded, URL-safe) encoding of some bytes, and then returns
/// those bytes.
#[verifier::external_body]
fn b64url_decode(s: &str) -> (r: Result<Vec<u8>, base64::DecodeError>)
    ensures
        r matches Ok(v) ==> b64url(v@) == s@,
        (exists|v: Seq<u8>| b64url(v) == s@) ==> r is Ok,
{
    base64::engine::general_purpose::URL_SAFE_NO_PAD.decode(s)
}

/// Reads a key back from its base64url text.
///
/// Fails with `InvalidBase64` when `s` is not the encoding of any bytes, with
/// `InvalidKeyLength` when it encodes something other than 32 bytes, and
/// otherwise returns the 32 bytes it encodes.
pub fn key_from_b64url(s: &str) -> (r: Result<FileKey, CryptoError>)
    ensures
        match b64url_decoded(s@) {
            None => r == Err::<FileKey, CryptoError>(CryptoError::InvalidBase64),
            Some(v) => if v.len() == 32 {
                r matches Ok(k) && k@ == v
            } else {
                r == Err::<FileKey, CryptoError>(CryptoError::InvalidKeyLength)
            },
        },
{
    let raw = match b64url_decode(s) {
        Ok(v) => v,
        Err(_) => {
            return Err(CryptoError::InvalidBase64);
        }
    };
    proof {
        let v = choose|v: Seq<u8>| b64url(v) == s@;
        lemma_b64url_injective(v, raw@);
    }
    if raw.len() != 32 {
        return Err(CryptoError::InvalidKeyLength);
    }
    let mut k = [0u8; 32];
    let mut i: usize = 0;
    while i < 32
        invariant
            raw@.len() == 32,
            i <= 32,
            forall|j: int| 0 <= j < i ==> k@[j] == raw@[j],
        decreases 32 - i,
    {
        k[i] = raw[i];
        i += 1;
    }
    assert(k@ =~= raw@);
    Ok(k)
}

/// Calls `blake3::keyed_hash`; the result is named `blake3_keyed`.
#[verifier::external_body]
fn blake3_keyed_hash(key: &[u8; 32], input: &[u8]) -> (h: [u8; 32])
    ensures
        h@ == blake3_keyed(key@, input@),
{
    *blake3::keyed_hash(key, input).as_bytes()
}

/// Calls `blake3::hash`; the result is named `blake3_digest`.
#[verifier::external_body]
fn blake3_hash(input: &[u8]) -> (h: [u8; 32])
    ensures
        h@ == blake3_digest(input@),
{
    *blake3::hash(input).as_bytes()
}

/// Calls `hex::encode`, which the contract claims writes each byte as two
/// lower-case hexadecimal digits, high nibble first.
#[verifier::external_body]
fn hex_encode(data: &[u8]) -> (s: String)
    ensures
        s@ == hex_lower(data@),
{
    hex::encode(data)
}

/// Lower-case hex of some bytes.
pub fn to_hex(data: &[u8]) -> (s: String)
    ensures
        s@ == hex_lower(data@),
{
    hex_encode(data)
}

/// The little-endian bytes of `x`.
pub fn u64_to_le(x: u64) -> (b: [u8; 8])
    ensures
        b@ == u64_le(x),
{
    let b = [
        x as u8,
        (x >> 8) as u8,
        (x >> 16) as u8,
        (x >> 24) as u8,
        (x >> 32) as u8,
        (x >> 40) as u8,
        (x >> 48) as u8,
        (x >> 56) as u8,
    ];
    assert(b@ =~= u64_le(x));
    b
}

/// Deterministic per-chunk nonce derived from `(key, chunk_index)`: the first
/// 24 bytes of the keyed BLAKE3 hash of the index's little-endian bytes.
pub fn nonce_for_chunk(key: &FileKey, chunk_index: u64) -> (n: [u8; 24])
    ensures
        n@ == chunk_nonce(key@, chunk_index),
{
    let le = u64_to_le(chunk_index);
    let h = blake3_keyed_hash(key, &le);
    let mut n = [0u8; 24];
    let mut i: usize = 0;
    while i < 24
        invariant
            h@.len() == 32,
            i <= 24,
            forall|j: int| 0 <= j < i ==> n@[j] == h@[j],
        decreases 24 - i,
    {
        n[i] = h[i];
        i += 1;
    }
    assert(n@ =~= h@.take(24));
    n
}

/// The associated data of a chunk: file id bytes, then index bytes.
pub fn aad(file_id: &FileId, chunk_index: u64) -> (out: [u8; 24])
    ensures
        out@ == chunk_aad(file_id@, chunk_index),
{
    let le = u64_to_le(chunk_index);
    let mut out = [0u8; 24];
    let mut i: usize = 0;
    while i < 16
        invariant
            i <= 16,
            forall|j: int| 0 <= j < i ==> out@[j] == file_id@[j],
        decreases 16 - i,
    {
        out[i] = file_id[i];
        i += 1;
    }
    while i < 24
        invariant
            16 <= i <= 24,
            forall|j: int| 0 <= j < 16 ==> out@[j] == file_id@[j],
            forall|j: int| 16 <= j < i ==> out@[j] == le@[j - 16],
        decreases 24 - i,
    {
        out[i] = le[i - 16];
        i += 1;
    }
    assert(out@ =~= file_id@ + le@);
    out
}

/// Calls `XChaCha20Poly1305::new` and `Aead::encrypt`. The contract claims:
/// it fails exactly when the message has `u32::MAX` or more 64-byte blocks;
/// otherwise the result, named `xchacha_seal`, is 16 bytes longer than the
/// message.
#[verifier::external_body]
fn xchacha_encrypt(key: &[u8; 32], nonce: &[u8; 24], aad: &[u8; 24], msg: &[u8]) -> (r: Result<Vec<u8>, chacha20poly1305::Error>)
    requires
        msg@.len() + 16 <= usize::MAX,
    ensures
        r is Ok <==> aead_len_ok(msg@.len()),
        r matches Ok(c) ==> c@ == xchacha_seal(key@, nonce@, aad@, msg@) && c@.len() == msg@.len() + 16,
{
    let cipher = chacha20poly1305::XChaCha20Poly1305::new(key.into());
    cipher.encrypt(nonce.into(), chacha20poly1305::aead::Payload { msg, aad })
}

/// Calls `XChaCha20Poly1305::new` and `Aead::decrypt`. The contract claims:
/// a plaintext that comes back seals to the given ciphertext (the cipher is
/// deterministic and the tag was checked), and a ciphertext that is the seal
/// of a message of allowed length opens to that message.
#[verifier::external_body]
fn xchacha_decrypt(key: &[u8; 32], nonce: &[u8; 24], aad: &[u8; 24], ct: &[u8]) -> (r: Result<Vec<u8>, chacha20poly1305::Error>)
    ensures
        r matches Ok(p) ==> xchacha_seal(key@, nonce@, aad@, p@) == ct@ && aead_len_ok(p@.len()),
        forall|p: Seq<u8>|
            #![trigger xchacha_seal(key@, nonce@, aad@, p)]
            xchacha_seal(key@, nonce@, aad@, p) == ct@ && aead_len_ok(p.len())
                ==> r == Ok::<Vec<u8>, chacha20poly1305::Error>(r->Ok_0) && r->Ok_0@ == p,
{
    let cipher = chacha20poly1305::XChaCha20Poly1305::new(key.into());
    cipher.decrypt(nonce.into(), chacha20poly1305::aead::Payload { msg: ct, aad })
}

/// Encrypts chunk `chunk_index` of file `file_id`.
///
/// Succeeds exactly when the plaintext is below the cipher's length limit
/// (and its ciphertext length fits in memory); the ciphertext is
/// `sealed_chunk` of the plaintext, 16 bytes longer.
pub fn encrypt_chunk(key: &FileKey, file_id: &FileId, chunk_index: u64, plaintext: &[u8]) -> (r: Result<Vec<u8>, CryptoError>)
    ensures
        r is Ok <==> aead_len_ok(plaintext@.len()) && plaintext@.len() + 16 <= usize::MAX,
        r is Err ==> r == Err::<Vec<u8>, CryptoError>(CryptoError::EncryptFailed),
        r matches Ok(c) ==> c@ == sealed_chunk(key@, file_id@, chunk_index, plaintext@)
            && c@.len() == plaintext@.len() + 16,
{
    if plaintext.len() > usize::MAX - 16 {
        return Err(CryptoError::EncryptFailed);
    }
    let nonce = nonce_for_chunk(key, chunk_index);
    let ad = aad(file_id, chunk_index);
    match xchacha_encrypt(key, &nonce, &ad, plaintext) {
        Ok(c) => Ok(c),
        Err(_) => Err(CryptoError::EncryptFailed),
    }
}

/// Decrypts chunk `chunk_index` of file `file_id`.
///
/// A plaintext that comes back is one whose sealed chunk is the ciphertext;
/// the sealed chunk of any allowed plaintext decrypts to that plaintext.
pub fn decrypt_chunk(key: &FileKey, file_id: &FileId, chunk_index: u64, ciphertext: &[u8]) -> (r: Result<Vec<u8>, CryptoError>)
    ensures
        r matches Ok(p) ==> sealed_chunk(key@, file_id@, chunk_index, p@) == ciphertext@
            && aead_len_ok(p@.len()),
        r is Err ==> r == Err::<Vec<u8>, CryptoError>(CryptoError::DecryptFailed),
        forall|p: Seq<u8>|
            #![trigger sealed_chunk(key@, file_id@, chunk_index, p)]
            sealed_chunk(key@, file_id@, chunk_index, p) == ciphertext@ && aead_len_ok(p.len())
                ==> r is Ok && r->Ok_0@ == p,
{
    let nonce = nonce_for_chunk(key, chunk_index);
    let ad = aad(file_id, chunk_index);
    let r = xchacha_decrypt(key, &nonce, &ad, ciphertext);
    proof {
        assert forall|p: Seq<u8>|
            #![trigger sealed_chunk(key@, file_id@, chunk_index, p)]
            sealed_chunk(key@, file_id@, chunk_index, p) == ciphertext@ && aead_len_ok(p.len())
                implies r is Ok && r->Ok_0@ == p by {
            assert(xchacha_seal(key@, nonce@, ad@, p) == ciphertext@);
        }
    }
    match r {
        Ok(p) => Ok(p),
        Err(_) => Err(CryptoError::DecryptFailed),
    }
}

proof fn lemma_hex_lower_len(b: Seq<u8>)
    ensures
        hex_lower(b).len() == 2 * b.len(),
    decreases b.len(),
{
    if b.len() > 0 {
        lemma_hex_lower_len(b.skip(1));
    }
}

/// The content hash of some bytes: lower-case hex of their BLAKE3 hash,
/// 64 characters.
pub fn content_hash_hex(data: &[u8]) -> (s: String)
    ensures
        s@ == content_hash(data@),
        s@.len() == 64,
{
    let h = blake3_hash(data);
    proof {
        lemma_hex_lower_len(h@);
    }
    hex_encode(&h)
}

} // verus!
