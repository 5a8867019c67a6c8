//! End-to-end encryption for TEE model instances: ML-KEM-768 key
//! encapsulation, HKDF-SHA256 key derivation, ChaCha20-Poly1305 and gzip.
//!
//! Request blob: `[KEM_CT (1088)] + [NONCE (12)] + [CIPHERTEXT+TAG]`, the
//! plaintext being the gzip of the JSON payload with `e2e_response_pk` added.

use base64::Engine;
use chacha20poly1305::aead::Aead;
use chacha20poly1305::{ChaCha20Poly1305, KeyInit};
use flate2::read::GzDecoder;
use flate2::write::GzEncoder;
use flate2::Compression;
use hkdf::Hkdf;
use pqcrypto_kyber::kyber768;
use pqcrypto_traits::kem::{Ciphertext as _, PublicKey as _, SecretKey as _, SharedSecret as _};
use sha2::Sha256;

use vstd::prelude::*;
use vstd::utf8::encode_utf8;

use crate::text::{copy_range, decimal, push_decimal};

verus! {

/// ML-KEM-768 constant sizes.
pub const ML_KEM_768_PUBKEY_SIZE: usize = 1184;
pub const ML_KEM_768_SECRETKEY_SIZE: usize = 2400;
pub const ML_KEM_768_CIPHERTEXT_SIZE: usize = 1088;
pub const ML_KEM_768_SHARED_SECRET_SIZE: usize = 32;

/// AEAD constants.
pub const CHACHA_NONCE_SIZE: usize = 12;
pub const CHACHA_TAG_SIZE: usize = 16;

/// The length of the HKDF salt: a prefix of the ML-KEM ciphertext.
pub const HKDF_SALT_LEN: usize = 16;

/// The ChaCha20-Poly1305 key length.
pub const CHACHA_KEY_SIZE: usize = 32;

/// The largest plaintext ChaCha20-Poly1305 seals, plus one: 64 bytes per block,
/// `u32::MAX` blocks.
pub const CHACHA_PLAINTEXT_LIMIT: u64 = 274877906880;

// ---------------------------------------------------------------------------
// Names for what the outside primitives compute.
// ---------------------------------------------------------------------------

/// The shared secret that ML-KEM-768 decapsulation of `ciphertext` under
/// `secret_key` gives.
pub uninterp spec fn kyber768_decapsulated(ciphertext: Seq<u8>, secret_key: Seq<u8>) -> Seq<u8>;

/// The 32-byte HKDF-SHA256 output for `salt`, input key material `ikm` and `info`.
pub uninterp spec fn hkdf_sha256_key(salt: Seq<u8>, ikm: Seq<u8>, info: Seq<u8>) -> Seq<u8>;

/// ChaCha20-Poly1305 ciphertext (tag appended) of `plaintext` under `key` and `nonce`.
pub uninterp spec fn chacha20poly1305_sealed(key: Seq<u8>, nonce: Seq<u8>, plaintext: Seq<u8>) -> Seq<u8>;

/// ChaCha20-Poly1305 decryption of `ciphertext` (tag appended) under `key` and
/// `nonce`: the plaintext, or nothing if the tag does not authenticate it.
pub uninterp spec fn chacha20poly1305_opened(key: Seq<u8>, nonce: Seq<u8>, ciphertext: Seq<u8>) -> Option<Seq<u8>>;

/// The gzip encoding (default compression level) of `data`.
pub uninterp spec fn gzip_encoded(data: Seq<u8>) -> Seq<u8>;

/// The data a gzip stream decodes to, or nothing if it is not a valid one.
pub uninterp spec fn gzip_decoded(data: Seq<u8>) -> Option<Seq<u8>>;

/// The standard, padded base64 encoding of `data`.
pub uninterp spec fn base64_encoded(data: Seq<u8>) -> Seq<char>;

/// The bytes that standard, padded base64 text decodes to, if it is valid.
pub uninterp spec fn base64_decoded(text: Seq<char>) -> Option<Seq<u8>>;

/// The JSON text of `json` with the string `value` set under `key`, if `json`
/// is valid JSON.
pub uninterp spec fn json_with_string_field(json: Seq<char>, key: Seq<char>, value: Seq<char>) -> Option<Seq<char>>;

/// Whether `text` is valid JSON.
pub uninterp spec fn json_is_valid(text: Seq<char>) -> bool;

/// Whether `json` is valid JSON whose value is neither an object nor `null`
/// (a key cannot be set in such a value).
pub uninterp spec fn json_is_unkeyable(json: Seq<char>) -> bool;

// ---------------------------------------------------------------------------
// Trusted wrappers of the outside primitives.
// ---------------------------------------------------------------------------

/// `pqcrypto_kyber::kyber768::keypair`: a fresh random key pair, as
/// (public key, secret key) bytes. Only the lengths are claimed. It panics
/// where the system's random source fails; no input leads there.
#[verifier::external_body]
fn kyber768_keypair() -> (r: (Vec<u8>, Vec<u8>))
    ensures
        r.0@.len() == ML_KEM_768_PUBKEY_SIZE,
        r.1@.len() == ML_KEM_768_SECRETKEY_SIZE,
{
    let (pk, sk) = kyber768::keypair();
    (pk.as_bytes().to_vec(), sk.as_bytes().to_vec())
}

/// `pqcrypto_kyber::kyber768::encapsulate` to the public key with bytes
/// `public_key`: a fresh random (shared secret, ciphertext) pair. Only the
/// lengths are claimed. It panics where the system's random source fails; no
/// input leads there.
#[verifier::external_body]
fn kyber768_encapsulate(public_key: &[u8]) -> (r: (Vec<u8>, Vec<u8>))
    requires
        public_key@.len() == ML_KEM_768_PUBKEY_SIZE,
    ensures
        r.0@.len() == ML_KEM_768_SHARED_SECRET_SIZE,
        r.1@.len() == ML_KEM_768_CIPHERTEXT_SIZE,
{
    let pk = kyber768::PublicKey::from_bytes(public_key).unwrap();
    let (ss, ct) = kyber768::encapsulate(&pk);
    (ss.as_bytes().to_vec(), ct.as_bytes().to_vec())
}

/// `pqcrypto_kyber::kyber768::decapsulate`: deterministic in its arguments;
/// claimed to give the named shared secret, 32 bytes long.
#[verifier::external_body]
fn kyber768_decapsulate(ciphertext: &[u8], secret_key: &[u8]) -> (ss: Vec<u8>)
    requires
        ciphertext@.len() == ML_KEM_768_CIPHERTEXT_SIZE,
        secret_key@.len() == ML_KEM_768_SECRETKEY_SIZE,
    ensures
        ss@ == kyber768_decapsulated(ciphertext@, secret_key@),
        ss@.len() == ML_KEM_768_SHARED_SECRET_SIZE,
{
    let ct = kyber768::Ciphertext::from_bytes(ciphertext).unwrap();
    let sk = kyber768::SecretKey::from_bytes(secret_key).unwrap();
    kyber768::decapsulate(&ct, &sk).as_bytes().to_vec()
}

/// Derive symmetric key using HKDF-SHA256 (`Hkdf::<Sha256>::new` then
/// `expand` into 32 bytes, which never exceeds its 8160-byte limit):
/// claimed to give the named key, 32 bytes long.
#[verifier::external_body]
fn derive_key(shared_secret: &[u8], salt: &[u8], info: &[u8]) -> (key: Vec<u8>)
    ensures
        key@ == hkdf_sha256_key(salt@, shared_secret@, info@),
        key@.len() == CHACHA_KEY_SIZE,
{
    let hkdf = Hkdf::<Sha256>::new(Some(salt), shared_secret);
    let mut key = vec![0u8; 32];
    hkdf.expand(info, &mut key).unwrap();
    key
}

/// `ChaCha20Poly1305::encrypt` under a 32-byte key and a 12-byte nonce. Its
/// source fails only on plaintexts of `CHACHA_PLAINTEXT_LIMIT` bytes or more;
/// the ciphertext is the plaintext's length plus the 16-byte tag, and decrypting
/// it under the same key and nonce gives the plaintext back. The error's text
/// is that of `aead::Error`.
#[verifier::external_body]
fn chacha20poly1305_seal(key: &[u8], nonce: &[u8], plaintext: &[u8]) -> (r: Result<Vec<u8>, String>)
    requires
        key@.len() == CHACHA_KEY_SIZE,
        nonce@.len() == CHACHA_NONCE_SIZE,
    ensures
        r is Ok <==> plaintext@.len() < CHACHA_PLAINTEXT_LIMIT,
        r matches Ok(c) ==> c@ == chacha20poly1305_sealed(key@, nonce@, plaintext@),
        r matches Ok(c) ==> c@.len() == plaintext@.len() + CHACHA_TAG_SIZE,
        r matches Ok(c) ==> chacha20poly1305_opened(key@, nonce@, c@) == Some(plaintext@),
{
    let cipher = ChaCha20Poly1305::new(chacha20poly1305::Key::from_slice(key));
    cipher.encrypt(chacha20poly1305::Nonce::from_slice(nonce), plaintext).map_err(|e| e.to_string())
}

/// `ChaCha20Poly1305::decrypt` under a 32-byte key and a 12-byte nonce:
/// claimed to give the named plaintext, and to fail exactly when there is
/// none. The error's text is that of `aead::Error`.
#[verifier::external_body]
fn chacha20poly1305_open(key: &[u8], nonce: &[u8], ciphertext: &[u8]) -> (r: Result<Vec<u8>, String>)
    requires
        key@.len() == CHACHA_KEY_SIZE,
        nonce@.len() == CHACHA_NONCE_SIZE,
    ensures
        match r {
            Ok(p) => chacha20poly1305_opened(key@, nonce@, ciphertext@) == Some(p@),
            Err(_) => chacha20poly1305_opened(key@, nonce@, ciphertext@) is None,
        },
{
    let cipher = ChaCha20Poly1305::new(chacha20poly1305::Key::from_slice(key));
    cipher.decrypt(chacha20poly1305::Nonce::from_slice(nonce), ciphertext).map_err(|e| e.to_string())
}

/// `getrandom::getrandom` into 12 bytes: random; only the length is claimed.
/// The error's text is that of `getrandom::Error`.
#[verifier::external_body]
fn random_nonce() -> (r: Result<Vec<u8>, String>)
    ensures
        r matches Ok(n) ==> n@.len() == CHACHA_NONCE_SIZE,
{
    let mut nonce = [0u8; 12];
    getrandom::getrandom(&mut nonce).map_err(|e| e.to_string())?;
    Ok(nonce.to_vec())
}

/// Where a gzip encoding failed, with the text of the I/O error.
pub enum GzipEncodeFailure {
    Write(String),
    Finish(String),
}

/// `flate2::write::GzEncoder` (default level) over a `Vec`: `write_all` then
/// `finish`. Claimed: it succeeds (writes into a `Vec` do not fail, and the
/// deflate stream reports no error on such input), giving the named encoding,
/// which decodes back to `data`.
#[verifier::external_body]
fn gzip_encode(data: &[u8]) -> (r: Result<Vec<u8>, GzipEncodeFailure>)
    ensures
        r is Ok,
        r matches Ok(v) ==> v@ == gzip_encoded(data@),
        r matches Ok(v) ==> gzip_decoded(v@) == Some(data@),
{
    let mut encoder = GzEncoder::new(Vec::new(), Compression::default());
    std::io::Write::write_all(&mut encoder, data).map_err(|e| GzipEncodeFailure::Write(e.to_string()))?;
    encoder.finish().map_err(|e| GzipEncodeFailure::Finish(e.to_string()))
}

/// `flate2::read::GzDecoder` read to the end: claimed to give the named
/// decoding, and to fail exactly when there is none. The error's text is that
/// of the I/O error.
#[verifier::external_body]
fn gzip_decode(data: &[u8]) -> (r: Result<Vec<u8>, String>)
    ensures
        match r {
            Ok(v) => gzip_decoded(data@) == Some(v@),
            Err(_) => gzip_decoded(data@) is None,
        },
{
    let mut decoder = GzDecoder::new(data);
    let mut decompressed = Vec::new();
    std::io::Read::read_to_end(&mut decoder, &mut decompressed).map_err(|e| e.to_string())?;
    Ok(decompressed)
}

/// `base64::engine::general_purpose::STANDARD.encode`: claimed to give the
/// named encoding, which decodes back to `data`.
#[verifier::external_body]
pub(crate) fn base64_encode(data: &[u8]) -> (s: String)
    ensures
        s@ == base64_encoded(data@),
        base64_decoded(s@) == Some(data@),
{
    base64::engine::general_purpose::STANDARD.encode(data)
}

/// `base64::engine::general_purpose::STANDARD.decode`: claimed to give the
/// named decoding, and to fail exactly when there is none. The error's text is
/// that of `base64::DecodeError`.
#[verifier::external_body]
pub(crate) fn base64_decode(text: &str) -> (r: Result<Vec<u8>, String>)
    ensures
        match r {
            Ok(v) => base64_decoded(text@) == Some(v@),
            Err(_) => base64_decoded(text@) is None,
        },
{
    base64::engine::general_purpose::STANDARD.decode(text).map_err(|e| e.to_string())
}

/// `serde_json::from_str::<Value>`, then `value[key] = Value::String(value)`,
/// then `to_string`: claimed to give the named text, and to fail exactly when
/// the text is not valid JSON (the error's text is that of `serde_json::Error`);
/// `to_string` of a value does not fail. Setting a
/// key panics on a value that is neither an object nor `null`; such input is
/// left out.
#[verifier::external_body]
fn json_set_string_field(json: &str, key: &str, value: &str) -> (r: Result<String, String>)
    requires
        !json_is_unkeyable(json@),
    ensures
        r is Ok <==> json_is_valid(json@),
        match r {
            Ok(s) => json_with_string_field(json@, key@, value@) == Some(s@),
            Err(_) => json_with_string_field(json@, key@, value@) is None,
        },
{
    let mut payload: serde_json::Value = serde_json::from_str(json).map_err(|e| e.to_string())?;
    payload[key] = serde_json::Value::String(value.to_string());
    Ok(payload.to_string())
}

/// `serde_json::from_str::<Value>`, telling the variants apart: whether the
/// text parses, and whether it parses to a value in which a key cannot be set
/// (neither an object nor `null`), which it can only where it parses.
#[verifier::external_body]
pub(crate) fn json_shape(json: &str) -> (r: (bool, bool))
    ensures
        r.0 == json_is_valid(json@),
        r.1 == json_is_unkeyable(json@),
        r.1 ==> r.0,
{
    match serde_json::from_str::<serde_json::Value>(json) {
        Ok(serde_json::Value::Object(_)) => (true, false),
        Ok(serde_json::Value::Null) => (true, false),
        Ok(_) => (true, true),
        Err(_) => (false, false),
    }
}

// ---------------------------------------------------------------------------
// Errors.
// ---------------------------------------------------------------------------

/// Errors of the end-to-end encryption layer.
#[derive(Debug)]
pub enum E2eeError {
    EncryptionFailed(String),
    DecryptionFailed(String),
    CompressionFailed(String),
    DecompressionFailed(String),
    CryptoError(String),
}

impl E2eeError {
    /// The human-readable text of the error.
    pub open spec fn spec_message(&self) -> Seq<char> {
        match self {
            E2eeError::EncryptionFailed(s) => "encryption failed: "@ + s@,
            E2eeError::DecryptionFailed(s) => "decryption failed: "@ + s@,
            E2eeError::CompressionFailed(s) => "compression failed: "@ + s@,
            E2eeError::DecompressionFailed(s) => "decompression failed: "@ + s@,
            E2eeError::CryptoError(s) => "crypto error: "@ + s@,
        }
    }

    /// The human-readable text of the error (what `Display` shows).
    pub fn message(&self) -> (m: String)
        ensures
            m@ == self.spec_message(),
    {
        match self {
            E2eeError::EncryptionFailed(s) => String::from_str("encryption failed: ").concat(s.as_str()),
            E2eeError::DecryptionFailed(s) => String::from_str("decryption failed: ").concat(s.as_str()),
            E2eeError::CompressionFailed(s) => String::from_str("compression failed: ").concat(s.as_str()),
            E2eeError::DecompressionFailed(s) => String::from_str("decompression failed: ").concat(s.as_str()),
            E2eeError::CryptoError(s) => String::from_str("crypto error: ").concat(s.as_str()),
        }
    }
}

// ---------------------------------------------------------------------------
// Gzip.
// ---------------------------------------------------------------------------

/// Gzip compress data.
pub fn compress_gzip(data: &[u8]) -> (r: Result<Vec<u8>, E2eeError>)
    ensures
        r matches Ok(v) && v@ == gzip_encoded(data@) && gzip_decoded(v@) == Some(data@),
{
    match gzip_encode(data) {
        Ok(v) => Ok(v),
        Err(GzipEncodeFailure::Write(m)) => Err(
            E2eeError::CompressionFailed(String::from_str("gzip write: ").concat(m.as_str())),
        ),
        Err(GzipEncodeFailure::Finish(m)) => Err(
            E2eeError::CompressionFailed(String::from_str("gzip finish: ").concat(m.as_str())),
        ),
    }
}

/// Gzip decompress data.
pub fn decompress_gzip(data: &[u8]) -> (r: Result<Vec<u8>, E2eeError>)
    ensures
        match gzip_decoded(data@) {
            Some(v) => r matches Ok(out) && out@ == v,
            None => r matches Err(E2eeError::DecompressionFailed(m)) && m@.take(6) == "gzip: "@,
        },
{
    match gzip_decode(data) {
        Ok(v) => Ok(v),
        Err(m) => {
            let msg = String::from_str("gzip: ").concat(m.as_str());
            proof {
                reveal_strlit("gzip: ");
            }
            assert(msg@.take(6) == "gzip: "@);
            Err(E2eeError::DecompressionFailed(msg))
        },
    }
}

// ---------------------------------------------------------------------------
// The session.
// ---------------------------------------------------------------------------

/// The `info` of the request key: `e2e-req-v1`.
pub open spec fn request_info() -> Seq<u8> {
    seq!['e' as u8, '2' as u8, 'e' as u8, '-' as u8, 'r' as u8, 'e' as u8, 'q' as u8, '-' as u8, 'v' as u8, '1' as u8]
}

/// The `info` of the response key: `e2e-resp-v1`.
pub open spec fn response_info() -> Seq<u8> {
    seq!['e' as u8, '2' as u8, 'e' as u8, '-' as u8, 'r' as u8, 'e' as u8, 's' as u8, 'p' as u8, '-' as u8, 'v' as u8, '1' as u8]
}

/// The `info` of the stream key: `e2e-stream-v1`.
pub open spec fn stream_info() -> Seq<u8> {
    seq!['e' as u8, '2' as u8, 'e' as u8, '-' as u8, 's' as u8, 't' as u8, 'r' as u8, 'e' as u8, 'a' as u8, 'm' as u8, '-' as u8, 'v' as u8, '1' as u8]
}

fn request_info_bytes() -> (v: Vec<u8>)
    ensures
        v@ == request_info(),
{
    let v: Vec<u8> = vec!['e' as u8, '2' as u8, 'e' as u8, '-' as u8, 'r' as u8, 'e' as u8, 'q' as u8, '-' as u8, 'v' as u8, '1' as u8];
    assert(v@ == request_info());
    v
}

fn response_info_bytes() -> (v: Vec<u8>)
    ensures
        v@ == response_info(),
{
    let v: Vec<u8> = vec!['e' as u8, '2' as u8, 'e' as u8, '-' as u8, 'r' as u8, 'e' as u8, 's' as u8, 'p' as u8, '-' as u8, 'v' as u8, '1' as u8];
    assert(v@ == response_info());
    v
}

fn stream_info_bytes() -> (v: Vec<u8>)
    ensures
        v@ == stream_info(),
{
    let v: Vec<u8> = vec!['e' as u8, '2' as u8, 'e' as u8, '-' as u8, 's' as u8, 't' as u8, 'r' as u8, 'e' as u8, 'a' as u8, 'm' as u8, '-' as u8, 'v' as u8, '1' as u8];
    assert(v@ == stream_info());
    v
}

/// The symmetric key HKDF derives from an ML-KEM ciphertext, its shared
/// secret and a context: salt = the first 16 bytes of the ciphertext.
pub open spec fn kem_key(ciphertext: Seq<u8>, shared_secret: Seq<u8>, info: Seq<u8>) -> Seq<u8> {
    hkdf_sha256_key(ciphertext.take(HKDF_SALT_LEN as int), shared_secret, info)
}

/// Full protocol state for a single request/response cycle.
pub struct E2eeSession {
    /// My ephemeral ML-KEM secret key (for decrypting the response).
    pub my_response_sk: Vec<u8>,
    /// My ephemeral ML-KEM public key (sent to the server inside the payload).
    pub my_response_pk: Vec<u8>,
    /// ML-KEM ciphertext for the server to decapsulate.
    pub request_kem_ct: Vec<u8>,
    /// Shared secret from the encapsulation to the server's key.
    shared_secret: Vec<u8>,
}

impl E2eeSession {
    /// The shared secret of the request encapsulation.
    pub closed spec fn spec_shared_secret(&self) -> Seq<u8> {
        self.shared_secret@
    }

    /// My response secret key.
    pub closed spec fn spec_response_sk(&self) -> Seq<u8> {
        self.my_response_sk@
    }

    /// My response public key.
    pub closed spec fn spec_response_pk(&self) -> Seq<u8> {
        self.my_response_pk@
    }

    /// The ML-KEM ciphertext of the request encapsulation.
    pub closed spec fn spec_request_kem_ct(&self) -> Seq<u8> {
        self.request_kem_ct@
    }

    /// Every key and ciphertext has its ML-KEM-768 length.
    pub open spec fn wf(&self) -> bool {
        &&& self.spec_response_sk().len() == ML_KEM_768_SECRETKEY_SIZE
        &&& self.spec_response_pk().len() == ML_KEM_768_PUBKEY_SIZE
        &&& self.spec_request_kem_ct().len() == ML_KEM_768_CIPHERTEXT_SIZE
        &&& self.spec_shared_secret().len() == ML_KEM_768_SHARED_SECRET_SIZE
    }

    /// The key that encrypts the request.
    pub open spec fn request_key(&self) -> Seq<u8> {
        kem_key(self.spec_request_kem_ct(), self.spec_shared_secret(), request_info())
    }

    /// The request payload with my response public key added, if it is valid JSON.
    pub open spec fn augmented_payload(&self, json_payload: Seq<char>) -> Option<Seq<char>> {
        json_with_string_field(json_payload, "e2e_response_pk"@, base64_encoded(self.spec_response_pk()))
    }

    /// The request blob for already compressed data under `nonce`.
    pub open spec fn request_blob(&self, compressed: Seq<u8>, nonce: Seq<u8>) -> Seq<u8> {
        self.spec_request_kem_ct() + nonce + chacha20poly1305_sealed(self.request_key(), nonce, compressed)
    }

    /// Whether `blob` is the request blob of the augmented payload `aug` under
    /// some nonce.
    pub open spec fn is_request_blob_for(&self, aug: Seq<char>, blob: Seq<u8>) -> bool {
        exists|nonce: Seq<u8>|
            nonce.len() == CHACHA_NONCE_SIZE
            && #[trigger] self.request_blob(gzip_encoded(encode_utf8(aug)), nonce) == blob
    }

    /// What encrypting `json_payload` may come to: invalid JSON fails with a
    /// `JSON parse: ` error; valid JSON gives the request blob of its augmented
    /// payload under some nonce, unless drawing the nonce fails (`getrandom: `)
    /// or the compressed payload is too long for the cipher (`AEAD: `).
    pub open spec fn encrypt_outcome(&self, json_payload: Seq<char>, r: Result<Vec<u8>, E2eeError>) -> bool {
        &&& !json_is_valid(json_payload) ==> (r matches Err(E2eeError::EncryptionFailed(m))
            && m@.take(12) == "JSON parse: "@)
        &&& json_is_valid(json_payload) ==> (self.augmented_payload(json_payload) matches Some(aug) && match r {
            Ok(blob) => self.is_request_blob_for(aug, blob@)
                && blob@.len() == ML_KEM_768_CIPHERTEXT_SIZE + CHACHA_NONCE_SIZE
                    + gzip_encoded(encode_utf8(aug)).len() + CHACHA_TAG_SIZE,
            Err(e) => e matches E2eeError::EncryptionFailed(m)
                && (m@.take(11) == "getrandom: "@ || (m@.take(6) == "AEAD: "@
                    && gzip_encoded(encode_utf8(aug)).len() >= CHACHA_PLAINTEXT_LIMIT)),
        })
    }

    /// Generate a fresh session: a fresh response key pair, and an encapsulation
    /// to the instance's public key (given by its bytes).
    pub fn new(instance_pubkey: &[u8]) -> (s: Self)
        requires
            instance_pubkey@.len() == ML_KEM_768_PUBKEY_SIZE,
        ensures
            s.wf(),
    {
        let (my_response_pk, my_response_sk) = kyber768_keypair();
        let (shared_secret, ciphertext) = kyber768_encapsulate(instance_pubkey);
        E2eeSession { my_response_sk, my_response_pk, request_kem_ct: ciphertext, shared_secret }
    }

    /// The request blob for already compressed data under a given nonce:
    /// `[KEM_CT] + [NONCE] + [CIPHERTEXT+TAG]`.
    pub fn seal_request(&self, compressed: &[u8], nonce: &[u8]) -> (r: Result<Vec<u8>, E2eeError>)
        requires
            self.wf(),
            nonce@.len() == CHACHA_NONCE_SIZE,
        ensures
            r is Ok <==> compressed@.len() < CHACHA_PLAINTEXT_LIMIT,
            r matches Ok(blob) ==> blob@ == self.request_blob(compressed@, nonce@),
            r matches Ok(blob) ==> blob@.len() == ML_KEM_768_CIPHERTEXT_SIZE + CHACHA_NONCE_SIZE + compressed@.len()
                + CHACHA_TAG_SIZE,
            r matches Ok(blob) ==> chacha20poly1305_opened(
                self.request_key(),
                nonce@,
                blob@.skip(ML_KEM_768_CIPHERTEXT_SIZE + CHACHA_NONCE_SIZE),
            ) == Some(compressed@),
            r matches Err(e) ==> (e matches E2eeError::EncryptionFailed(m) && m@.take(6) == "AEAD: "@),
    {
        let salt = copy_range(self.request_kem_ct.as_slice(), 0, HKDF_SALT_LEN);
        let info = request_info_bytes();
        let req_key = derive_key(self.shared_secret.as_slice(), salt.as_slice(), info.as_slice());
        assert(salt@ == self.spec_request_kem_ct().take(HKDF_SALT_LEN as int));
        match chacha20poly1305_seal(req_key.as_slice(), nonce, compressed) {
            Ok(ciphertext) => {
                let mut blob: Vec<u8> = Vec::new();
                blob.extend_from_slice(self.request_kem_ct.as_slice());
                blob.extend_from_slice(nonce);
                blob.extend_from_slice(ciphertext.as_slice());
                assert(blob@ =~= self.spec_request_kem_ct() + nonce@ + ciphertext@);
                assert(blob@.skip(ML_KEM_768_CIPHERTEXT_SIZE + CHACHA_NONCE_SIZE) =~= ciphertext@);
                Ok(blob)
            },
            Err(m) => {
                let msg = String::from_str("AEAD: ").concat(m.as_str());
                proof {
                    reveal_strlit("AEAD: ");
                }
                assert(msg@.take(6) == "AEAD: "@);
                Err(E2eeError::EncryptionFailed(msg))
            },
        }
    }

    /// Encrypt complete request payload using the full protocol: add my response
    /// public key (base64) to the JSON payload, gzip it, and seal it under the
    /// request key with a fresh random nonce.
    pub fn encrypt_request(&self, json_payload: &str) -> (r: Result<Vec<u8>, E2eeError>)
        requires
            self.wf(),
            !json_is_unkeyable(json_payload@),
        ensures
            self.encrypt_outcome(json_payload@, r),
    {
        let response_pk_b64 = base64_encode(self.my_response_pk.as_slice());
        let augmented = match json_set_string_field(json_payload, "e2e_response_pk", response_pk_b64.as_str()) {
            Ok(a) => a,
            Err(m) => {
                let msg = String::from_str("JSON parse: ").concat(m.as_str());
                proof {
                    reveal_strlit("JSON parse: ");
                }
                assert(msg@.take(12) == "JSON parse: "@);
                return Err(E2eeError::EncryptionFailed(msg));
            },
        };
        let compressed = match compress_gzip(augmented.as_str().as_bytes()) {
            Ok(c) => c,
            Err(e) => return Err(e),
        };
        let nonce = match random_nonce() {
            Ok(n) => n,
            Err(m) => {
                let msg = String::from_str("getrandom: ").concat(m.as_str());
                proof {
                    reveal_strlit("getrandom: ");
                }
                assert(msg@.take(11) == "getrandom: "@);
                return Err(E2eeError::EncryptionFailed(msg));
            },
        };
        assert(self.augmented_payload(json_payload@) == Some(augmented@));
        assert(compressed@ == gzip_encoded(encode_utf8(augmented@)));
        let r = self.seal_request(compressed.as_slice(), nonce.as_slice());
        proof {
            if r is Ok {
                let blob = r->Ok_0;
                let n = nonce@;
                assert(n.len() == CHACHA_NONCE_SIZE);
                assert(self.request_blob(gzip_encoded(encode_utf8(augmented@)), n) == blob@);
            }
        }
        r
    }

    /// Decrypt a non-streaming response blob:
    /// `[KEM_CT (1088)] + [NONCE (12)] + [CIPHERTEXT+TAG]`, the plaintext being gzip.
    pub fn decrypt_response(&self, response_blob: &[u8]) -> (r: Result<Vec<u8>, E2eeError>)
        requires
            self.wf(),
        ensures
            response_blob@.len() < 1116 ==> (r matches Err(E2eeError::DecryptionFailed(m))
                && m@ == "response too short: expected at least "@ + decimal(1116) + ", got "@ + decimal(response_blob@.len())),
            match response_plaintext(self.spec_response_sk(), response_blob@) {
                Some(p) => r matches Ok(v) && v@ == p,
                None => r is Err,
            },
            response_blob@.len() >= 1116 ==> match response_body(self.spec_response_sk(), response_blob@) {
                None => r matches Err(E2eeError::DecryptionFailed(m)) && m@.take(14) == "decrypt auth: "@,
                Some(z) => gzip_decoded(z) is None ==> r matches Err(E2eeError::DecompressionFailed(_)),
            },
    {
        let len = response_blob.len();
        if len < ML_KEM_768_CIPHERTEXT_SIZE + CHACHA_NONCE_SIZE + CHACHA_TAG_SIZE {
            let mut msg = String::from_str("response too short: expected at least ");
            push_decimal(&mut msg, ML_KEM_768_CIPHERTEXT_SIZE + CHACHA_NONCE_SIZE + CHACHA_TAG_SIZE);
            msg.append(", got ");
            push_decimal(&mut msg, len);
            return Err(E2eeError::DecryptionFailed(msg));
        }
        let mlkem_ct = copy_range(response_blob, 0, ML_KEM_768_CIPHERTEXT_SIZE);
        let nonce = copy_range(response_blob, ML_KEM_768_CIPHERTEXT_SIZE, ML_KEM_768_CIPHERTEXT_SIZE + CHACHA_NONCE_SIZE);
        let ct_with_tag = copy_range(response_blob, ML_KEM_768_CIPHERTEXT_SIZE + CHACHA_NONCE_SIZE, len);
        assert(mlkem_ct@ == response_blob@.take(1088));
        assert(ct_with_tag@ == response_blob@.skip(1100));
        let ss = kyber768_decapsulate(mlkem_ct.as_slice(), self.my_response_sk.as_slice());
        let salt = copy_range(mlkem_ct.as_slice(), 0, HKDF_SALT_LEN);
        assert(salt@ == mlkem_ct@.take(HKDF_SALT_LEN as int));
        let info = response_info_bytes();
        let resp_key = derive_key(ss.as_slice(), salt.as_slice(), info.as_slice());
        let plaintext = match chacha20poly1305_open(resp_key.as_slice(), nonce.as_slice(), ct_with_tag.as_slice()) {
            Ok(p) => p,
            Err(m) => {
                let msg = String::from_str("decrypt auth: ").concat(m.as_str());
                proof {
                    reveal_strlit("decrypt auth: ");
                }
                assert(msg@.take(14) == "decrypt auth: "@);
                return Err(E2eeError::DecryptionFailed(msg));
            },
        };
        decompress_gzip(plaintext.as_slice())
    }

    /// Stream mode: decrypt the `e2e_init` payload (a base64 ML-KEM ciphertext)
    /// to get the stream key.
    pub fn decrypt_stream_init(&self, mlkem_ct_b64: &str) -> (r: Result<Vec<u8>, E2eeError>)
        requires
            self.wf(),
        ensures
            base64_decoded(mlkem_ct_b64@) is None ==> (r matches Err(E2eeError::CryptoError(m))
                && m@.take(29) == "invalid base64 for e2e_init: "@),
            base64_decoded(mlkem_ct_b64@) matches Some(ct) ==> (ct.len() != ML_KEM_768_CIPHERTEXT_SIZE
                ==> (r matches Err(E2eeError::CryptoError(m))
                && m@ == "invalid e2e_init ciphertext length: "@ + decimal(ct.len()))),
            match stream_key_of(self.spec_response_sk(), mlkem_ct_b64@) {
                Some(k) => r matches Ok(v) && v@ == k,
                None => r is Err,
            },
    {
        let mlkem_ct = match base64_decode(mlkem_ct_b64) {
            Ok(v) => v,
            Err(m) => {
                let msg = String::from_str("invalid base64 for e2e_init: ").concat(m.as_str());
                proof {
                    reveal_strlit("invalid base64 for e2e_init: ");
                }
                assert(msg@.take(29) == "invalid base64 for e2e_init: "@);
                return Err(E2eeError::CryptoError(msg));
            },
        };
        if mlkem_ct.len() != ML_KEM_768_CIPHERTEXT_SIZE {
            let mut msg = String::from_str("invalid e2e_init ciphertext length: ");
            push_decimal(&mut msg, mlkem_ct.len());
            return Err(E2eeError::CryptoError(msg));
        }
        let ss = kyber768_decapsulate(mlkem_ct.as_slice(), self.my_response_sk.as_slice());
        let salt = copy_range(mlkem_ct.as_slice(), 0, HKDF_SALT_LEN);
        assert(salt@ == mlkem_ct@.take(HKDF_SALT_LEN as int));
        let info = stream_info_bytes();
        let stream_key = derive_key(ss.as_slice(), salt.as_slice(), info.as_slice());
        Ok(stream_key)
    }

    /// Stream mode: decrypt one encrypted chunk: base64 of
    /// `[NONCE (12)] + [CIPHERTEXT+TAG]`, sealed under the stream key.
    pub fn decrypt_stream_chunk(&self, enc_chunk_b64: &str, stream_key: &[u8]) -> (r: Result<Vec<u8>, E2eeError>)
        ensures
            base64_decoded(enc_chunk_b64@) is None ==> (r matches Err(E2eeError::DecryptionFailed(m))
                && m@.take(14) == "base64 chunk: "@),
            base64_decoded(enc_chunk_b64@) matches Some(raw) && raw.len() < CHACHA_NONCE_SIZE + CHACHA_TAG_SIZE
                ==> (r matches Err(E2eeError::DecryptionFailed(m)) && m@ == "stream chunk too short"@),
            base64_decoded(enc_chunk_b64@) matches Some(raw) && raw.len() >= CHACHA_NONCE_SIZE + CHACHA_TAG_SIZE
                && stream_key@.len() != CHACHA_KEY_SIZE
                ==> (r matches Err(E2eeError::DecryptionFailed(m)) && m@ == "invalid stream key: Invalid Length"@),
            match chunk_plaintext(enc_chunk_b64@, stream_key@) {
                Some(p) => r matches Ok(v) && v@ == p,
                None => r matches Err(E2eeError::DecryptionFailed(_)),
            },
    {
        let raw = match base64_decode(enc_chunk_b64) {
            Ok(v) => v,
            Err(m) => {
                let msg = String::from_str("base64 chunk: ").concat(m.as_str());
                proof {
                    reveal_strlit("base64 chunk: ");
                }
                assert(msg@.take(14) == "base64 chunk: "@);
                return Err(E2eeError::DecryptionFailed(msg));
            },
        };
        let rl = raw.len();
        if rl < CHACHA_NONCE_SIZE + CHACHA_TAG_SIZE {
            return Err(E2eeError::DecryptionFailed(String::from_str("stream chunk too short")));
        }
        let nonce = copy_range(raw.as_slice(), 0, CHACHA_NONCE_SIZE);
        let ct_with_tag = copy_range(raw.as_slice(), CHACHA_NONCE_SIZE, rl);
        assert(nonce@ == raw@.take(12));
        assert(ct_with_tag@ == raw@.skip(12));
        if stream_key.len() != CHACHA_KEY_SIZE {
            // The text `InvalidLength` displays, which the key constructor returns.
            return Err(E2eeError::DecryptionFailed(String::from_str("invalid stream key: Invalid Length")));
        }
        match chacha20poly1305_open(stream_key, nonce.as_slice(), ct_with_tag.as_slice()) {
            Ok(p) => Ok(p),
            Err(m) => Err(E2eeError::DecryptionFailed(String::from_str("stream decrypt: ").concat(m.as_str()))),
        }
    }

    /// Stream mode with a syntax guard: `encrypt_request` where a key can be set
    /// in the payload; `None` where it is valid JSON that is neither an object
    /// nor `null`.
    pub fn encrypt_request_checked(&self, json_payload: &str) -> (r: Option<Result<Vec<u8>, E2eeError>>)
        requires
            self.wf(),
        ensures
            r is None <==> json_is_unkeyable(json_payload@),
            r matches Some(x) ==> self.encrypt_outcome(json_payload@, x),
    {
        if json_shape(json_payload).1 {
            None
        } else {
            Some(self.encrypt_request(json_payload))
        }
    }
}

/// What the sealed body of a response blob of at least 1116 bytes opens to
/// under the response key its ciphertext gives with my secret key: the
/// compressed plaintext, or nothing if it does not authenticate.
pub open spec fn response_body(sk: Seq<u8>, blob: Seq<u8>) -> Option<Seq<u8>> {
    let ct = blob.take(1088);
    let key = kem_key(ct, kyber768_decapsulated(ct, sk), response_info());
    chacha20poly1305_opened(key, blob.subrange(1088, 1100), blob.skip(1100))
}

/// What a response blob decrypts to under my response secret key `sk`: the
/// ciphertext is decapsulated, the response key derived from it, the rest
/// opened and gunzipped; nothing for a blob shorter than 1116 bytes.
pub open spec fn response_plaintext(sk: Seq<u8>, blob: Seq<u8>) -> Option<Seq<u8>> {
    if blob.len() < 1116 {
        None
    } else {
        let ct = blob.take(1088);
        let key = kem_key(ct, kyber768_decapsulated(ct, sk), response_info());
        match chacha20poly1305_opened(key, blob.subrange(1088, 1100), blob.skip(1100)) {
            Some(z) => gzip_decoded(z),
            None => None,
        }
    }
}

/// The stream key that an `e2e_init` payload gives under my response secret key.
pub open spec fn stream_key_of(sk: Seq<u8>, b64: Seq<char>) -> Option<Seq<u8>> {
    match base64_decoded(b64) {
        Some(ct) => if ct.len() == ML_KEM_768_CIPHERTEXT_SIZE {
            Some(kem_key(ct, kyber768_decapsulated(ct, sk), stream_info()))
        } else {
            None
        },
        None => None,
    }
}

/// What an encrypted stream chunk decrypts to under `key`.
pub open spec fn chunk_plaintext(b64: Seq<char>, key: Seq<u8>) -> Option<Seq<u8>> {
    match base64_decoded(b64) {
        Some(raw) => if raw.len() >= CHACHA_NONCE_SIZE + CHACHA_TAG_SIZE && key.len() == CHACHA_KEY_SIZE {
            chacha20poly1305_opened(key, raw.take(12), raw.skip(12))
        } else {
            None
        },
        None => None,
    }
}

/// A stream chunk decrypts to what was sealed in it: base64 of the nonce
/// followed by a ciphertext that opens to `plaintext` under `key` gives
/// `plaintext` back.
pub proof fn law_stream_chunk_roundtrip(key: Seq<u8>, nonce: Seq<u8>, ciphertext: Seq<u8>, plaintext: Seq<u8>, b64: Seq<char>)
    requires
        key.len() == CHACHA_KEY_SIZE,
        nonce.len() == CHACHA_NONCE_SIZE,
        ciphertext.len() >= CHACHA_TAG_SIZE,
        chacha20poly1305_opened(key, nonce, ciphertext) == Some(plaintext),
        base64_decoded(b64) == Some(nonce + ciphertext),
    ensures
        chunk_plaintext(b64, key) == Some(plaintext),
{
    let raw = nonce + ciphertext;
    assert(raw.take(12) == nonce);
    assert(raw.skip(12) == ciphertext);
}

/// A response blob decrypts to what the server sealed in it: ciphertext,
/// nonce and a sealed body that opens under the response key derived from the
/// decapsulated secret to a gzip of `plaintext` give `plaintext` back.
pub proof fn law_response_roundtrip(
    sk: Seq<u8>,
    kem_ct: Seq<u8>,
    nonce: Seq<u8>,
    body: Seq<u8>,
    compressed: Seq<u8>,
    plaintext: Seq<u8>,
)
    requires
        kem_ct.len() == ML_KEM_768_CIPHERTEXT_SIZE,
        nonce.len() == CHACHA_NONCE_SIZE,
        body.len() >= CHACHA_TAG_SIZE,
        chacha20poly1305_opened(kem_key(kem_ct, kyber768_decapsulated(kem_ct, sk), response_info()), nonce, body)
            == Some(compressed),
        gzip_decoded(compressed) == Some(plaintext),
    ensures
        response_plaintext(sk, kem_ct + nonce + body) == Some(plaintext),
{
    let blob = kem_ct + nonce + body;
    assert(blob.take(1088) == kem_ct);
    assert(blob.subrange(1088, 1100) == nonce);
    assert(blob.skip(1100) == body);
}

/// The request blob is laid out as `[KEM_CT] + [NONCE] + [CIPHERTEXT+TAG]`, and
/// a server that decapsulates the session's shared secret from its first part
/// derives the request key and opens the rest to the compressed payload
/// (given that a sealed text opens under the key and nonce that sealed it).
pub proof fn law_request_blob_opens(session: E2eeSession, compressed: Seq<u8>, nonce: Seq<u8>, server_secret: Seq<u8>)
    requires
        session.wf(),
        nonce.len() == CHACHA_NONCE_SIZE,
        server_secret == session.spec_shared_secret(),
        chacha20poly1305_opened(
            session.request_key(),
            nonce,
            chacha20poly1305_sealed(session.request_key(), nonce, compressed),
        ) == Some(compressed),
    ensures
        ({
            let blob = session.request_blob(compressed, nonce);
            &&& blob.take(ML_KEM_768_CIPHERTEXT_SIZE as int) == session.spec_request_kem_ct()
            &&& blob.subrange(1088, 1100) == nonce
            &&& chacha20poly1305_opened(
                kem_key(blob.take(1088), server_secret, request_info()),
                blob.subrange(1088, 1100),
                blob.skip(1100),
            ) == Some(compressed)
        }),
{
    let blob = session.request_blob(compressed, nonce);
    let sealed = chacha20poly1305_sealed(session.request_key(), nonce, compressed);
    assert(blob.take(1088) == session.spec_request_kem_ct());
    assert(blob.subrange(1088, 1100) == nonce);
    assert(blob.skip(1100) == sealed);
}

} // verus!
