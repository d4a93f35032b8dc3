use aes_gcm::aead::{Aead, KeyInit, Payload};
use aes_gcm::{Aes128Gcm, Nonce};
use base64::engine::general_purpose::URL_SAFE_NO_PAD;
use base64::Engine;
use hirodrop_core::quick_share_qr::{endpoint_if_token_matches, QuickShareQrSession};
use p256::ecdsa::signature::Verifier;

const QR_URL_PREFIX: &str = "https://quickshare.google/qrcode#key=";

#[test]
fn qr_url_contains_versioned_compressed_p256_key() {
    let session = QuickShareQrSession::from_secret_key(vec![7_u8; 32]).unwrap();
    let encoded = session.url();
    let key = encoded.strip_prefix(QR_URL_PREFIX).unwrap();
    let decoded = URL_SAFE_NO_PAD.decode(key).unwrap();
    assert_eq!(decoded.len(), 35);
    assert_eq!(&decoded[..2], &[0, 0]);
    assert!(matches!(decoded[2], 2 | 3));
    assert_eq!(session.advertising_token().len(), 16);
    assert_eq!(session.name_encryption_key().len(), 16);
}

#[test]
fn each_send_session_has_a_different_rendezvous() {
    let first = QuickShareQrSession::generate().unwrap();
    let second = QuickShareQrSession::generate().unwrap();
    assert_ne!(first.url(), second.url());
    assert_ne!(first.advertising_token(), second.advertising_token());
}

#[test]
fn visible_endpoint_matches_only_its_qr_token() {
    let token = [0x5a; 16];
    let name = "測試手機";
    let mut info = vec![2_u8; 17];
    info.push(name.len() as u8);
    info.extend_from_slice(name.as_bytes());
    info.extend_from_slice(&[1, 16]);
    info.extend_from_slice(&token);
    let encoded = URL_SAFE_NO_PAD.encode(info);
    let endpoint = endpoint_if_token_matches(Some(&encoded), "192.168.1.9:44123", &token, &[0x77; 16]).unwrap();
    assert_eq!(endpoint.name, name);
    assert_eq!(endpoint.address, "192.168.1.9:44123");
    assert!(endpoint_if_token_matches(Some(&encoded), "192.168.1.9:44123", &[0; 16], &[0x77; 16]).is_none());
}

#[test]
fn hidden_endpoint_decrypts_name_using_qr_keys() {
    let token = [0x5a; 16];
    let key = [0x77; 16];
    let nonce = [0x33; 12];
    let name = "測試手機";
    let cipher = Aes128Gcm::new_from_slice(&key).unwrap();
    let encrypted = cipher
        .encrypt(Nonce::from_slice(&nonce), Payload { msg: name.as_bytes(), aad: &token })
        .unwrap();
    let mut info = vec![0x10; 17];
    let length = nonce.len() + encrypted.len();
    info.extend_from_slice(&[1, length as u8]);
    info.extend_from_slice(&nonce);
    info.extend_from_slice(&encrypted);
    let encoded = URL_SAFE_NO_PAD.encode(info);

    let endpoint = endpoint_if_token_matches(Some(&encoded), "[fe80::1%3]:44123", &token, &key).unwrap();
    assert_eq!(endpoint.name, name);
    assert_eq!(endpoint.address, "[fe80::1%3]:44123");
    assert!(endpoint_if_token_matches(Some(&encoded), "192.168.1.9:44123", &[0; 16], &key).is_none());
}

#[test]
fn same_secret_gives_the_same_session_values() {
    let a = QuickShareQrSession::from_secret_key(vec![9_u8; 32]).unwrap();
    let b = QuickShareQrSession::from_secret_key(vec![9_u8; 32]).unwrap();
    assert_eq!(a.url(), b.url());
    assert_eq!(a.advertising_token(), b.advertising_token());
    assert_ne!(a.advertising_token(), a.name_encryption_key());
}

#[test]
fn qr_key_is_the_compressed_public_key() {
    let secret = p256::SecretKey::from_slice(&[7_u8; 32]).unwrap();
    let expected = p256::elliptic_curve::sec1::ToEncodedPoint::to_encoded_point(&secret.public_key(), true);
    let session = QuickShareQrSession::from_secret_key(vec![7_u8; 32]).unwrap();
    let decoded = URL_SAFE_NO_PAD.decode(session.url().strip_prefix(QR_URL_PREFIX).unwrap()).unwrap();
    assert_eq!(&decoded[2..], expected.as_bytes());
}

#[test]
fn auth_key_signature_verifies_with_the_qr_key() {
    let session = QuickShareQrSession::from_secret_key(vec![3_u8; 32]).unwrap();
    let auth = [0x21_u8; 32];
    let signature = session.sign_auth_key(&auth);
    assert_eq!(signature.len(), 64);
    let secret = p256::SecretKey::from_slice(&[3_u8; 32]).unwrap();
    let verifying = p256::ecdsa::VerifyingKey::from(&p256::ecdsa::SigningKey::from(&secret));
    let parsed = p256::ecdsa::Signature::from_slice(&signature).unwrap();
    assert!(verifying.verify(&auth, &parsed).is_ok());
}

#[test]
fn records_that_run_past_the_end_stop_the_search() {
    let token = [0x11; 16];
    let mut info = vec![2_u8; 17];
    info.push(1);
    info.push(b'n');
    info.extend_from_slice(&[1, 40]);
    info.extend_from_slice(&token);
    let encoded = URL_SAFE_NO_PAD.encode(info);
    assert!(endpoint_if_token_matches(Some(&encoded), (), &token, &[0; 16]).is_none());
    assert!(endpoint_if_token_matches(None, (), &token, &[0; 16]).is_none());
    assert!(endpoint_if_token_matches(Some("AA"), (), &token, &[0; 16]).is_none());
}

#[test]
fn token_after_other_records_is_found() {
    let token = [0x44; 16];
    let mut info = vec![2_u8; 17];
    info.push(2);
    info.extend_from_slice(b"ab");
    info.extend_from_slice(&[7, 3, 1, 2, 3]);
    info.extend_from_slice(&[1, 16]);
    info.extend_from_slice(&token);
    let encoded = URL_SAFE_NO_PAD.encode(info);
    let found = endpoint_if_token_matches(Some(&encoded), 5u8, &token, &[0; 16]).unwrap();
    assert_eq!(found.name, "ab");
    assert_eq!(found.address, 5);
}
