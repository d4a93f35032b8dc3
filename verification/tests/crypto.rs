use hirodrop_core::quick_share_crypto::{
    decode_generic_public_key, derive_session_keys, encode_generic_public_key, pin_code,
    signed_coordinate, unsigned_coordinate, QuickShareCryptoError, SecureChannel, Ukey2Initiator,
    Ukey2Responder,
};
use hirodrop_core::quick_share_wire::{
    offline_v1, EcP256PublicKey, GenericPublicKey, OfflineFrameType, PublicKeyType, SecureMessage,
};

fn channel_pair() -> (SecureChannel, SecureChannel) {
    let secret = [0x42; 32];
    let transcript = b"client-init || server-init";
    let (server_keys, _) = derive_session_keys(&secret, transcript, true).unwrap();
    let (client_keys, _) = derive_session_keys(&secret, transcript, false).unwrap();
    (SecureChannel::new(server_keys), SecureChannel::new(client_keys))
}

#[test]
fn secure_channels_authenticate_encrypt_and_enforce_sequence() {
    let secret = [0x42; 32];
    let transcript = b"client-init || server-init";
    let (server_keys, server_auth) = derive_session_keys(&secret, transcript, true).unwrap();
    let (client_keys, client_auth) = derive_session_keys(&secret, transcript, false).unwrap();
    assert_eq!(server_auth, client_auth);

    let mut server = SecureChannel::new(server_keys);
    let mut client = SecureChannel::new(client_keys);
    let frame = offline_v1(OfflineFrameType::KeepAlive);
    let encrypted = client.encrypt_offline_frame(&frame).unwrap();
    let decrypted = server.decrypt_offline_frame(&encrypted).unwrap();
    assert_eq!(
        decrypted.v1.unwrap().frame_type,
        Some(OfflineFrameType::KeepAlive.to_i32())
    );
    assert!(matches!(
        server.decrypt_offline_frame(&encrypted),
        Err(QuickShareCryptoError::SequenceMismatch { .. })
    ));
}

#[test]
fn malformed_p256_coordinates_are_rejected() {
    let key = GenericPublicKey {
        key_type: Some(PublicKeyType::EcP256.to_i32()),
        ec_p256_public_key: Some(EcP256PublicKey {
            x: vec![1; 34],
            y: vec![2; 32],
        }),
    };
    assert!(matches!(
        decode_generic_public_key(&key),
        Err(QuickShareCryptoError::InvalidPublicKey)
    ));
}

#[test]
fn initiator_and_responder_establish_matching_channels() {
    let (initiator, client_init) = Ukey2Initiator::begin().unwrap();
    let (responder, server_init) = Ukey2Responder::accept_client_init(&client_init).unwrap();
    let (client_finish, mut client, client_pin, client_auth) =
        initiator.complete(&server_init).unwrap();
    let (mut server, server_pin, _fingerprint) = responder.complete(&client_finish).unwrap();
    assert_eq!(client_pin, server_pin);
    assert_eq!(client_pin, pin_code(&client_auth));

    let frame = offline_v1(OfflineFrameType::KeepAlive);
    let encrypted = client.encrypt_offline_frame(&frame).unwrap();
    assert_eq!(
        server
            .decrypt_offline_frame(&encrypted)
            .unwrap()
            .v1
            .unwrap()
            .frame_type,
        Some(OfflineFrameType::KeepAlive.to_i32())
    );
}

#[test]
fn pin_code_matches_the_reference_fold() {
    assert_eq!(pin_code(&[0x42; 32]), "0755");
    assert_eq!(pin_code(&[0xff; 32]), "6509");
    let ascending: Vec<u8> = (0..32).collect();
    assert_eq!(pin_code(&ascending), "5095");
    assert_eq!(pin_code(&[]), "0000");
}

#[test]
fn channels_answer_in_both_directions_in_order() {
    let (mut server, mut client) = channel_pair();
    for frame_type in [OfflineFrameType::KeepAlive, OfflineFrameType::Disconnection, OfflineFrameType::PayloadTransfer] {
        let frame = offline_v1(frame_type);
        let to_server = client.encrypt_offline_frame(&frame).unwrap();
        assert_eq!(server.decrypt_offline_frame(&to_server).unwrap(), frame);
        let to_client = server.encrypt_offline_frame(&frame).unwrap();
        assert_eq!(client.decrypt_offline_frame(&to_client).unwrap(), frame);
    }
}

#[test]
fn skipped_message_is_a_sequence_mismatch() {
    let (mut server, mut client) = channel_pair();
    let frame = offline_v1(OfflineFrameType::KeepAlive);
    let _first = client.encrypt_offline_frame(&frame).unwrap();
    let second = client.encrypt_offline_frame(&frame).unwrap();
    assert!(matches!(
        server.decrypt_offline_frame(&second),
        Err(QuickShareCryptoError::SequenceMismatch { expected: 1, actual: 2 })
    ));
}

#[test]
fn tampered_signature_fails_authentication() {
    let (mut server, mut client) = channel_pair();
    let encrypted = client.encrypt_offline_frame(&offline_v1(OfflineFrameType::KeepAlive)).unwrap();
    let mut message = SecureMessage::decode(&encrypted).unwrap();
    message.signature[0] ^= 1;
    assert!(matches!(
        server.decrypt_offline_frame(&message.encode_to_vec()),
        Err(QuickShareCryptoError::AuthenticationFailed)
    ));
    let mut message = SecureMessage::decode(&encrypted).unwrap();
    message.header_and_body[3] ^= 1;
    assert!(matches!(
        server.decrypt_offline_frame(&message.encode_to_vec()),
        Err(QuickShareCryptoError::AuthenticationFailed)
    ));
}

#[test]
fn a_channel_does_not_accept_its_own_messages() {
    let (_server, mut client) = channel_pair();
    let encrypted = client.encrypt_offline_frame(&offline_v1(OfflineFrameType::KeepAlive)).unwrap();
    assert!(matches!(
        client.decrypt_offline_frame(&encrypted),
        Err(QuickShareCryptoError::AuthenticationFailed)
    ));
}

#[test]
fn garbage_is_a_protobuf_error() {
    let (mut server, _client) = channel_pair();
    assert!(matches!(server.decrypt_offline_frame(&[0xff, 0xff]), Err(QuickShareCryptoError::Protobuf(_))));
}

#[test]
fn ciphertext_hides_the_frame() {
    let (_server, mut client) = channel_pair();
    let frame = offline_v1(OfflineFrameType::KeepAlive);
    let plain = frame.encode_to_vec();
    let encrypted = client.encrypt_offline_frame(&frame).unwrap();
    assert!(!encrypted.windows(plain.len()).any(|w| w == plain.as_slice()));
    let again = client.encrypt_offline_frame(&frame).unwrap();
    assert_ne!(encrypted, again);
}

#[test]
fn different_transcripts_give_different_keys() {
    let (_, a) = derive_session_keys(&[1; 32], b"one", true).unwrap();
    let (_, b) = derive_session_keys(&[1; 32], b"two", true).unwrap();
    let (_, c) = derive_session_keys(&[2; 32], b"one", true).unwrap();
    assert_eq!(a.len(), 32);
    assert_ne!(a, b);
    assert_ne!(a, c);
}

#[test]
fn coordinates_gain_and_lose_a_sign_byte() {
    let high = [0x80u8; 32];
    let low = [0x7fu8; 32];
    assert_eq!(signed_coordinate(&high).len(), 33);
    assert_eq!(signed_coordinate(&high)[0], 0);
    assert_eq!(signed_coordinate(&low), low.to_vec());
    assert_eq!(unsigned_coordinate(&signed_coordinate(&high)).unwrap(), high.to_vec());
    assert_eq!(unsigned_coordinate(&[5]).unwrap()[31], 5);
    assert_eq!(unsigned_coordinate(&[5]).unwrap()[..31], [0u8; 31]);
    assert!(matches!(unsigned_coordinate(&[]), Err(QuickShareCryptoError::InvalidPublicKey)));
    assert!(matches!(unsigned_coordinate(&[1u8; 33]), Err(QuickShareCryptoError::InvalidPublicKey)));
}

#[test]
fn public_keys_survive_their_wire_form_and_off_curve_points_do_not() {
    let key = encode_generic_public_key(&[0u8; 32], &[0u8; 32]);
    assert!(matches!(decode_generic_public_key(&key), Err(QuickShareCryptoError::InvalidPublicKey)));
    let other_type = GenericPublicKey { key_type: Some(PublicKeyType::Rsa2048.to_i32()), ec_p256_public_key: None };
    assert!(matches!(decode_generic_public_key(&other_type), Err(QuickShareCryptoError::InvalidPublicKey)));
}

#[test]
fn responder_refuses_wrong_message_and_wrong_commitment() {
    let (_initiator, client_init) = Ukey2Initiator::begin().unwrap();
    let (responder, server_init) = Ukey2Responder::accept_client_init(&client_init).unwrap();
    assert!(matches!(
        Ukey2Responder::accept_client_init(&server_init),
        Err(QuickShareCryptoError::UnexpectedUkey2Message)
    ));
    let (other, _) = Ukey2Initiator::begin().unwrap();
    let (other_finish, _, _, _) = other.complete(&server_init).unwrap();
    assert!(matches!(responder.complete(&other_finish), Err(QuickShareCryptoError::CommitmentMismatch)));
}

#[test]
fn initiator_refuses_a_client_init_as_server_init() {
    let (initiator, client_init) = Ukey2Initiator::begin().unwrap();
    assert!(matches!(initiator.complete(&client_init), Err(QuickShareCryptoError::UnexpectedUkey2Message)));
}

#[test]
fn fingerprint_is_64_lowercase_hex_digits() {
    let (initiator, client_init) = Ukey2Initiator::begin().unwrap();
    let (responder, server_init) = Ukey2Responder::accept_client_init(&client_init).unwrap();
    let (finish, _, _, _) = initiator.complete(&server_init).unwrap();
    let (_, _, fingerprint) = responder.complete(&finish).unwrap();
    assert_eq!(fingerprint.len(), 64);
    assert!(fingerprint.chars().all(|c| c.is_ascii_digit() || ('a'..='f').contains(&c)));
}
