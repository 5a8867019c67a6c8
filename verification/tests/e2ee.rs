use base64::Engine;
use chacha20poly1305::aead::Aead;
use chacha20poly1305::{ChaCha20Poly1305, KeyInit};
use getrandom::getrandom;
use hkdf::Hkdf;
use pqcrypto_kyber::kyber768::{self, Ciphertext as KyberCiphertext, PublicKey as KyberPublicKey};
use pqcrypto_traits::kem::{Ciphertext as CiphertextTrait, PublicKey as PublicKeyTrait, SharedSecret as SharedSecretTrait};
use sha2::Sha256;

use claurst::e2ee::{
    compress_gzip, decompress_gzip, E2eeError, E2eeSession, CHACHA_NONCE_SIZE, HKDF_SALT_LEN,
    ML_KEM_768_CIPHERTEXT_SIZE, ML_KEM_768_PUBKEY_SIZE, ML_KEM_768_SECRETKEY_SIZE,
};

const HKDF_INFO_REQ: &[u8] = b"e2e-req-v1";
const HKDF_INFO_RESP: &[u8] = b"e2e-resp-v1";
const HKDF_INFO_STREAM: &[u8] = b"e2e-stream-v1";

#[test]
fn full_protocol_roundtrip() {
    let (server_pk, server_sk) = kyber768::keypair();

    let session = E2eeSession::new(server_pk.as_bytes());
    assert_eq!(session.request_kem_ct.len(), ML_KEM_768_CIPHERTEXT_SIZE);

    let request_json = r#"{"model":"test","messages":[{"role":"user","content":"hello"}],"max_tokens":5,"e2e_response_pk":"will-be-added"}"#;
    let client_blob = session.encrypt_request(request_json).unwrap();

    let server_ml_kem_ct = &client_blob[..ML_KEM_768_CIPHERTEXT_SIZE];
    let server_nonce = &client_blob[ML_KEM_768_CIPHERTEXT_SIZE..ML_KEM_768_CIPHERTEXT_SIZE + CHACHA_NONCE_SIZE];
    let server_encrypted = &client_blob[ML_KEM_768_CIPHERTEXT_SIZE + CHACHA_NONCE_SIZE..];

    let ct_obj = KyberCiphertext::from_bytes(server_ml_kem_ct).unwrap();
    let server_ss = kyber768::decapsulate(&ct_obj, &server_sk);

    let salt = &server_ml_kem_ct[..HKDF_SALT_LEN];
    let hkdf = Hkdf::<Sha256>::new(Some(salt), server_ss.as_bytes());
    let mut server_req_key = vec![0u8; 32];
    hkdf.expand(HKDF_INFO_REQ, &mut server_req_key).unwrap();

    let cipher = ChaCha20Poly1305::new_from_slice(&server_req_key).unwrap();
    let plaintext = cipher.decrypt(server_nonce.into(), server_encrypted).unwrap();
    let decompressed = decompress_gzip(&plaintext).unwrap();

    let payload: serde_json::Value = serde_json::from_slice(&decompressed).unwrap();
    assert!(payload.get("e2e_response_pk").is_some());
    let response_pk_b64 = payload["e2e_response_pk"].as_str().unwrap();

    let response_data = r#"{"choices":[{"message":{"content":"world"}}]}"#;
    let compressed = compress_gzip(response_data.as_bytes()).unwrap();

    let client_response_pk_bytes = base64::engine::general_purpose::STANDARD.decode(response_pk_b64).unwrap();
    let client_response_pk = KyberPublicKey::from_bytes(&client_response_pk_bytes).unwrap();

    let (server_response_ss, response_ml_kem_ct) = kyber768::encapsulate(&client_response_pk);
    let mut response_nonce = [0u8; CHACHA_NONCE_SIZE];
    getrandom(&mut response_nonce).unwrap();

    let salt = &response_ml_kem_ct.as_bytes()[..HKDF_SALT_LEN];
    let hkdf = Hkdf::<Sha256>::new(Some(salt), server_response_ss.as_bytes());
    let mut server_resp_key = vec![0u8; 32];
    hkdf.expand(HKDF_INFO_RESP, &mut server_resp_key).unwrap();

    let resp_cipher = ChaCha20Poly1305::new_from_slice(&server_resp_key).unwrap();
    let resp_encrypted = resp_cipher.encrypt(&response_nonce.into(), compressed.as_ref()).unwrap();

    let mut response_blob = Vec::new();
    response_blob.extend_from_slice(response_ml_kem_ct.as_bytes());
    response_blob.extend_from_slice(&response_nonce);
    response_blob.extend_from_slice(&resp_encrypted);

    let final_decrypted = session.decrypt_response(&response_blob).unwrap();
    let final_json: serde_json::Value = serde_json::from_slice(&final_decrypted).unwrap();

    assert_eq!(final_json["choices"][0]["message"]["content"].as_str(), Some("world"));
}

#[test]
fn stream_roundtrip() {
    let (server_pk, server_sk) = kyber768::keypair();
    let session = E2eeSession::new(server_pk.as_bytes());

    let request_json = r#"{"model":"test","messages":[{"role":"user","content":"hello"}],"max_tokens":5}"#;
    let client_blob = session.encrypt_request(request_json).unwrap();

    let server_ml_kem_ct = &client_blob[..ML_KEM_768_CIPHERTEXT_SIZE];
    let ct_obj = KyberCiphertext::from_bytes(server_ml_kem_ct).unwrap();
    let server_ss = kyber768::decapsulate(&ct_obj, &server_sk);

    let salt = &server_ml_kem_ct[..HKDF_SALT_LEN];
    let hkdf = Hkdf::<Sha256>::new(Some(salt), server_ss.as_bytes());
    let mut server_req_key = vec![0u8; 32];
    hkdf.expand(HKDF_INFO_REQ, &mut server_req_key).unwrap();

    let server_nonce = &client_blob[ML_KEM_768_CIPHERTEXT_SIZE..ML_KEM_768_CIPHERTEXT_SIZE + CHACHA_NONCE_SIZE];
    let server_encrypted = &client_blob[ML_KEM_768_CIPHERTEXT_SIZE + CHACHA_NONCE_SIZE..];

    let cipher = ChaCha20Poly1305::new_from_slice(&server_req_key).unwrap();
    let plaintext = cipher.decrypt(server_nonce.into(), server_encrypted).unwrap();
    let decompressed = decompress_gzip(&plaintext).unwrap();
    let payload: serde_json::Value = serde_json::from_slice(&decompressed).unwrap();
    let response_pk_b64 = payload["e2e_response_pk"].as_str().unwrap();

    let client_response_pk_bytes = base64::engine::general_purpose::STANDARD.decode(response_pk_b64).unwrap();
    let client_response_pk = KyberPublicKey::from_bytes(&client_response_pk_bytes).unwrap();

    let (stream_ss, stream_mlkem_ct) = kyber768::encapsulate(&client_response_pk);
    let stream_ct_bytes = stream_mlkem_ct.as_bytes().to_vec();
    let stream_salt = &stream_ct_bytes[..HKDF_SALT_LEN];
    let stream_hkdf = Hkdf::<Sha256>::new(Some(stream_salt), stream_ss.as_bytes());
    let mut stream_key_server = vec![0u8; 32];
    stream_hkdf.expand(HKDF_INFO_STREAM, &mut stream_key_server).unwrap();

    let stream_ct_b64 = base64::engine::general_purpose::STANDARD.encode(&stream_ct_bytes);
    let stream_key_client = session.decrypt_stream_init(&stream_ct_b64).unwrap();
    assert_eq!(stream_key_server, stream_key_client);

    let sse_line = r#"data: {"id":"chatcmpl-1","object":"chat.completion.chunk","model":"test","choices":[{"index":0,"delta":{"content":"Hello"},"finish_reason":null}]}"#;
    let mut chunk_nonce = [0u8; CHACHA_NONCE_SIZE];
    getrandom(&mut chunk_nonce).unwrap();

    let chunk_cipher = ChaCha20Poly1305::new_from_slice(&stream_key_server).unwrap();
    let chunk_encrypted = chunk_cipher.encrypt(&chunk_nonce.into(), sse_line.as_bytes()).unwrap();

    let mut chunk_blob = Vec::with_capacity(CHACHA_NONCE_SIZE + chunk_encrypted.len());
    chunk_blob.extend_from_slice(&chunk_nonce);
    chunk_blob.extend_from_slice(&chunk_encrypted);
    let chunk_b64 = base64::engine::general_purpose::STANDARD.encode(&chunk_blob);

    let decrypted = session.decrypt_stream_chunk(&chunk_b64, &stream_key_client).unwrap();
    let decrypted_str = String::from_utf8(decrypted).unwrap();
    assert!(decrypted_str.contains("Hello"));
    assert!(decrypted_str.starts_with("data:"));
}

// ----- further cases -----

fn session() -> E2eeSession {
    let (server_pk, _server_sk) = kyber768::keypair();
    E2eeSession::new(server_pk.as_bytes())
}

#[test]
fn session_key_sizes() {
    let s = session();
    assert_eq!(s.my_response_pk.len(), ML_KEM_768_PUBKEY_SIZE);
    assert_eq!(s.my_response_sk.len(), ML_KEM_768_SECRETKEY_SIZE);
    assert_eq!(s.request_kem_ct.len(), ML_KEM_768_CIPHERTEXT_SIZE);
}

#[test]
fn gzip_roundtrip_and_bad_input() {
    let data = b"hello hello hello hello";
    let z = compress_gzip(data).unwrap();
    assert_eq!(&z[..2], &[0x1f, 0x8b]);
    assert_eq!(decompress_gzip(&z).unwrap(), data.to_vec());
    match decompress_gzip(b"not gzip") {
        Err(E2eeError::DecompressionFailed(_)) => {}
        _ => panic!("expected DecompressionFailed"),
    }
}

#[test]
fn request_blob_layout_and_payload() {
    let s = session();
    let blob = s.encrypt_request(r#"{"a":1}"#).unwrap();
    assert_eq!(&blob[..ML_KEM_768_CIPHERTEXT_SIZE], &s.request_kem_ct[..]);
    assert!(blob.len() > ML_KEM_768_CIPHERTEXT_SIZE + CHACHA_NONCE_SIZE + 16);
}

#[test]
fn encrypt_request_refuses_invalid_json() {
    let s = session();
    match s.encrypt_request("{not json") {
        Err(E2eeError::EncryptionFailed(m)) => assert!(!m.is_empty()),
        _ => panic!("expected EncryptionFailed"),
    }
    assert!(s.encrypt_request_checked("[1,2]").is_none());
    assert!(s.encrypt_request_checked("null").unwrap().is_ok());
}

#[test]
fn decrypt_response_too_short() {
    let s = session();
    match s.decrypt_response(&[0u8; 10]) {
        Err(e) => {
            assert!(matches!(e, E2eeError::DecryptionFailed(_)));
            assert_eq!(e.message(), "decryption failed: response too short: expected at least 1116, got 10");
        }
        Ok(_) => panic!("expected an error"),
    }
}

#[test]
fn decrypt_response_rejects_tampering() {
    let s = session();
    let mut blob = vec![7u8; 1200];
    blob[1100] = 1;
    assert!(matches!(s.decrypt_response(&blob), Err(E2eeError::DecryptionFailed(_))));
}

#[test]
fn stream_init_errors() {
    let s = session();
    match s.decrypt_stream_init("%%%") {
        Err(E2eeError::CryptoError(m)) => assert!(m.starts_with("invalid base64 for e2e_init: ")),
        _ => panic!("expected CryptoError"),
    }
    let short = base64::engine::general_purpose::STANDARD.encode([1u8, 2, 3]);
    match s.decrypt_stream_init(&short) {
        Err(E2eeError::CryptoError(m)) => assert_eq!(m, "invalid e2e_init ciphertext length: 3"),
        _ => panic!("expected CryptoError"),
    }
}

#[test]
fn stream_chunk_errors() {
    let s = session();
    let key = vec![0u8; 32];
    match s.decrypt_stream_chunk("%%%", &key) {
        Err(E2eeError::DecryptionFailed(m)) => assert!(m.starts_with("base64 chunk: ")),
        _ => panic!("expected DecryptionFailed"),
    }
    let short = base64::engine::general_purpose::STANDARD.encode([0u8; 20]);
    match s.decrypt_stream_chunk(&short, &key) {
        Err(E2eeError::DecryptionFailed(m)) => assert_eq!(m, "stream chunk too short"),
        _ => panic!("expected DecryptionFailed"),
    }
    let long = base64::engine::general_purpose::STANDARD.encode([0u8; 40]);
    match s.decrypt_stream_chunk(&long, &[1u8; 5]) {
        Err(E2eeError::DecryptionFailed(m)) => assert_eq!(m, "invalid stream key: Invalid Length"),
        _ => panic!("expected DecryptionFailed"),
    }
    match s.decrypt_stream_chunk(&long, &key) {
        Err(E2eeError::DecryptionFailed(m)) => assert!(m.starts_with("stream decrypt: ")),
        _ => panic!("expected DecryptionFailed"),
    }
}

#[test]
fn e2ee_error_messages() {
    assert_eq!(E2eeError::EncryptionFailed("x".into()).message(), "encryption failed: x");
    assert_eq!(E2eeError::CompressionFailed("x".into()).message(), "compression failed: x");
    assert_eq!(E2eeError::DecompressionFailed("x".into()).message(), "decompression failed: x");
    assert_eq!(E2eeError::CryptoError("x".into()).message(), "crypto error: x");
}

#[test]
fn request_blob_length() {
    let (server_pk, server_sk) = kyber768::keypair();
    let s = E2eeSession::new(server_pk.as_bytes());
    let blob = s.encrypt_request(r#"{"model":"m"}"#).unwrap();
    let ct = KyberCiphertext::from_bytes(&blob[..ML_KEM_768_CIPHERTEXT_SIZE]).unwrap();
    let ss = kyber768::decapsulate(&ct, &server_sk);
    let hkdf = Hkdf::<Sha256>::new(Some(&blob[..HKDF_SALT_LEN]), ss.as_bytes());
    let mut key = vec![0u8; 32];
    hkdf.expand(HKDF_INFO_REQ, &mut key).unwrap();
    let cipher = ChaCha20Poly1305::new_from_slice(&key).unwrap();
    let nonce = &blob[ML_KEM_768_CIPHERTEXT_SIZE..ML_KEM_768_CIPHERTEXT_SIZE + CHACHA_NONCE_SIZE];
    let compressed = cipher.decrypt(nonce.into(), &blob[ML_KEM_768_CIPHERTEXT_SIZE + CHACHA_NONCE_SIZE..]).unwrap();
    assert_eq!(blob.len(), ML_KEM_768_CIPHERTEXT_SIZE + CHACHA_NONCE_SIZE + compressed.len() + 16);
    let payload: serde_json::Value = serde_json::from_slice(&decompress_gzip(&compressed).unwrap()).unwrap();
    assert_eq!(payload["model"], "m");
    assert_eq!(
        base64::engine::general_purpose::STANDARD.decode(payload["e2e_response_pk"].as_str().unwrap()).unwrap(),
        s.my_response_pk
    );
}

#[test]
fn compression_always_succeeds() {
    assert!(compress_gzip(b"").is_ok());
    let big = vec![42u8; 100_000];
    assert_eq!(decompress_gzip(&compress_gzip(&big).unwrap()).unwrap(), big);
}

#[test]
fn response_that_is_not_gzip() {
    let s = session();
    let client_pk = KyberPublicKey::from_bytes(&s.my_response_pk).unwrap();
    let (ss, ct) = kyber768::encapsulate(&client_pk);
    let hkdf = Hkdf::<Sha256>::new(Some(&ct.as_bytes()[..HKDF_SALT_LEN]), ss.as_bytes());
    let mut key = vec![0u8; 32];
    hkdf.expand(HKDF_INFO_RESP, &mut key).unwrap();
    let nonce = [9u8; CHACHA_NONCE_SIZE];
    let sealed = ChaCha20Poly1305::new_from_slice(&key).unwrap().encrypt(&nonce.into(), b"plain".as_ref()).unwrap();
    let mut blob = ct.as_bytes().to_vec();
    blob.extend_from_slice(&nonce);
    blob.extend_from_slice(&sealed);
    assert!(matches!(s.decrypt_response(&blob), Err(E2eeError::DecompressionFailed(_))));
    let mut bad = blob.clone();
    let last = bad.len() - 1;
    bad[last] ^= 1;
    match s.decrypt_response(&bad) {
        Err(E2eeError::DecryptionFailed(m)) => assert!(m.starts_with("decrypt auth: ")),
        _ => panic!("expected DecryptionFailed"),
    }
}

#[test]
fn invalid_json_is_refused_and_valid_json_is_not() {
    let s = session();
    match s.encrypt_request("{not json") {
        Err(E2eeError::EncryptionFailed(m)) => assert!(m.starts_with("JSON parse: ")),
        _ => panic!("expected a JSON parse error"),
    }
    assert!(s.encrypt_request("{}").is_ok());
    assert!(s.encrypt_request("null").is_ok());
    assert!(matches!(s.encrypt_request_checked("{\"a\":[1]}"), Some(Ok(_))));
}
