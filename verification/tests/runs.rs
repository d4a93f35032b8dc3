use hirodrop_core::interface_text::{activity_text, receive_status_text, send_status_text};
use hirodrop_core::quick_share_crypto::{
    derive_session_keys, QuickShareCryptoError, SecureChannel, Ukey2Initiator, Ukey2Responder,
};
use hirodrop_core::quick_share_frames::{bytes_chunk_frame, LAST_CHUNK};
use hirodrop_core::quick_share_receiver::BytesAssembler;
use hirodrop_core::quick_share_transport::{framed, FrameIoError};
use hirodrop_core::quick_share_wire::{offline_v1, OfflineFrameType};
use hirodrop_core::status_board::{Activity, ReceiveStatus, SendStatus};
use hirodrop_core::{InterfaceLanguage, QuickShareQrSession};

fn channel_pair() -> (SecureChannel, SecureChannel) {
    let secret = [0x17; 32];
    let transcript = b"init || server";
    let (server_keys, _) = derive_session_keys(&secret, transcript, true).unwrap();
    let (client_keys, _) = derive_session_keys(&secret, transcript, false).unwrap();
    (SecureChannel::new(server_keys), SecureChannel::new(client_keys))
}

#[test]
fn a_sealed_run_is_accepted_in_order_and_never_twice() {
    let (mut server, mut client) = channel_pair();
    let kinds = [OfflineFrameType::KeepAlive, OfflineFrameType::Disconnection, OfflineFrameType::PayloadTransfer];
    let sealed: Vec<Vec<u8>> = kinds.iter().map(|k| client.encrypt_offline_frame(&offline_v1(*k)).unwrap()).collect();

    // The third arrives too early and is refused; the first is accepted.
    assert!(matches!(
        server.decrypt_offline_frame(&sealed[2]),
        Err(QuickShareCryptoError::SequenceMismatch { expected: 1, actual: 3 })
    ));
    assert_eq!(server.decrypt_offline_frame(&sealed[0]).unwrap(), offline_v1(kinds[0]));
    // A replay of the first is refused and changes nothing.
    assert!(matches!(
        server.decrypt_offline_frame(&sealed[0]),
        Err(QuickShareCryptoError::SequenceMismatch { expected: 2, actual: 1 })
    ));
    assert_eq!(server.decrypt_offline_frame(&sealed[1]).unwrap(), offline_v1(kinds[1]));
    assert_eq!(server.decrypt_offline_frame(&sealed[2]).unwrap(), offline_v1(kinds[2]));
    assert!(matches!(
        server.decrypt_offline_frame(&sealed[1]),
        Err(QuickShareCryptoError::SequenceMismatch { expected: 4, actual: 2 })
    ));
}

#[test]
fn a_payload_in_many_chunks_assembles_to_their_concatenation() {
    let mut assembler = BytesAssembler::new();
    let chunks: [&[u8]; 4] = [b"qui", b"ck ", b"", b"share"];
    let total: i64 = 11;
    let mut offset = 0_i64;
    for (i, chunk) in chunks.iter().enumerate() {
        let last = i == chunks.len() - 1;
        // A chunk of another payload in between leaves this one alone.
        let other = bytes_chunk_frame(100 + i as i64, 5, 0, 0, Some(b"x".to_vec()));
        assert!(assembler.push(other.v1.as_ref().unwrap().payload_transfer.as_ref().unwrap()).unwrap().is_none());
        let frame = bytes_chunk_frame(7, total, if last { LAST_CHUNK } else { 0 }, offset, Some(chunk.to_vec()));
        let outcome = assembler.push(frame.v1.as_ref().unwrap().payload_transfer.as_ref().unwrap()).unwrap();
        offset += chunk.len() as i64;
        if last {
            assert_eq!(outcome, Some((7, b"quick share".to_vec())));
        } else {
            assert_eq!(outcome, None);
        }
    }
}

#[test]
fn the_responders_fingerprint_is_sixty_four_hex_digits() {
    let (initiator, client_init) = Ukey2Initiator::begin().unwrap();
    let (responder, server_init) = Ukey2Responder::accept_client_init(&client_init).unwrap();
    let (client_finish, _client, _pin, _auth) = initiator.complete(&server_init).unwrap();
    let (_server, _pin, fingerprint) = responder.complete(&client_finish).unwrap();
    assert_eq!(fingerprint.len(), 64);
    assert!(fingerprint.chars().all(|c| c.is_ascii_digit() || ('a'..='f').contains(&c)));
}

#[test]
fn the_qr_key_has_thirty_five_bytes_and_signatures_sixty_four() {
    let session = QuickShareQrSession::from_secret_key(vec![7_u8; 32]).unwrap();
    let url = session.url();
    let key = url.strip_prefix("https://quickshare.google/qrcode#key=").unwrap();
    // 35 bytes in unpadded base64 take 47 characters.
    assert_eq!(key.len(), 47);
    assert_eq!(session.sign_auth_key(&[9_u8; 32]).len(), 64);
}

#[test]
fn a_frame_goes_on_the_wire_behind_its_length() {
    assert_eq!(framed(b"hi").unwrap(), vec![0, 0, 0, 2, b'h', b'i']);
    assert!(matches!(framed(b""), Err(FrameIoError::InvalidLength(0))));
}

#[test]
fn the_board_reads_in_each_language() {
    assert_eq!(receive_status_text(InterfaceLanguage::TraditionalChinese, &ReceiveStatus::Stopped), "接收服務已停止");
    assert_eq!(
        receive_status_text(InterfaceLanguage::English, &ReceiveStatus::Incoming { peer_name: "Pixel".into() }),
        "Pixel wants to share files"
    );
    assert_eq!(activity_text(InterfaceLanguage::English, &Activity::Sent { count: 2 }), "Sent 2 files");
    assert_eq!(
        activity_text(InterfaceLanguage::English, &Activity::Listening { port: 4242 }),
        "Receiving service ready · LAN TCP 4242"
    );
    assert_eq!(send_status_text(InterfaceLanguage::English, &SendStatus::Selected { count: 1 }), "Selected 1 item");
    assert_eq!(
        send_status_text(InterfaceLanguage::English, &SendStatus::QrUnavailable { message: "no key".into() }),
        "no key"
    );
}
