use hirodrop_core::interface_text::{
    connecting_status, failed_status, incoming_notification, is_image_text, is_video_text,
    listening_activity, more_items_label, negotiating_status, offer_summary, peer_label,
    received_activity, selected_kind, selected_status, send_error_message, send_progress_status, sent_activity, tr,
    SelectedPath,
};
use hirodrop_core::quick_share_crypto::QuickShareCryptoError;
use hirodrop_core::quick_share_receiver::device_name_from;
use hirodrop_core::quick_share_transport::{FrameIoError, IoErrorKind, IoFailure};
use hirodrop_core::{
    InterfaceLanguage, QuickShareQrError, QuickShareReceiveError, QuickShareSendError, QuickShareSendProgress,
    TransferOfferItem,
};

const ZH: InterfaceLanguage = InterfaceLanguage::TraditionalChinese;
const JA: InterfaceLanguage = InterfaceLanguage::Japanese;
const EN: InterfaceLanguage = InterfaceLanguage::English;

#[test]
fn phrases_follow_the_language_and_unknown_text_passes_through() {
    assert_eq!(tr(ZH, "接收"), "接收");
    assert_eq!(tr(JA, "接收"), "受信");
    assert_eq!(tr(EN, "接收"), "Receive");
    assert_eq!(tr(EN, "Android（QR）"), "Android (QR)");
    assert_eq!(tr(JA, "設定"), "設定");
    assert_eq!(tr(EN, "沒有這句"), "沒有這句");
    assert_eq!(tr(EN, "設定已儲存"), "Settings saved");
}

#[test]
fn status_lines_put_the_value_where_each_language_wants_it() {
    assert_eq!(peer_label(EN, "Pixel"), "From: Pixel");
    assert_eq!(peer_label(ZH, "Pixel"), "來自：Pixel");
    assert_eq!(connecting_status(JA, "Pixel"), "Pixel に接続中…");
    assert_eq!(connecting_status(EN, "Pixel"), "Connecting to Pixel…");
    assert_eq!(failed_status(EN, "boom"), "Transfer failed: boom");
    assert_eq!(received_activity(EN, "Pixel", "/a, /b"), "Received from Pixel: /a, /b");
    assert_eq!(received_activity(JA, "Pixel", "/a"), "Pixel から受信：/a");
}

#[test]
fn counts_are_decimal_and_english_plurals_follow_them() {
    assert_eq!(more_items_label(EN, 1), "1 more item");
    assert_eq!(more_items_label(EN, 12), "12 more items");
    assert_eq!(more_items_label(ZH, 12), "另有 12 個項目");
    assert_eq!(selected_status(EN, 0), "Selected 0 items");
    assert_eq!(sent_activity(JA, 3), "3 件のファイルを送信しました");
    assert_eq!(listening_activity(EN, 44123), "Receiving service ready · LAN TCP 44123");
    assert_eq!(incoming_notification(EN, "Pixel", 1, "1234"), "Pixel wants to share 1 item. PIN 1234");
    assert_eq!(incoming_notification(ZH, "Pixel", 2, "1234"), "Pixel 想傳送 2 個項目，核對碼 1234");
}

#[test]
fn negotiation_phases_follow_the_language() {
    assert_eq!(negotiating_status(EN, "配對金鑰"), "Negotiating: pairing key…");
    assert_eq!(negotiating_status(ZH, "配對金鑰"), "正在協商：配對金鑰…");
    assert_eq!(negotiating_status(JA, "其他"), "ネゴシエーション中：其他…");
}

#[test]
fn media_names_are_recognised_by_their_last_ending() {
    assert!(is_image_text("holiday.HEIC"));
    assert!(is_image_text("png"));
    assert!(!is_image_text("notes.png.txt"));
    assert!(is_video_text("clip.mkv"));
    assert!(!is_video_text("clip"));
}

fn path(is_dir: bool, name: &str) -> SelectedPath {
    SelectedPath { is_dir, file_name: Some(name.to_string()) }
}

#[test]
fn selections_are_described_by_what_they_hold() {
    assert_eq!(selected_kind(&[path(false, "a.jpg"), path(false, "b.png")], EN), "2 images");
    assert_eq!(selected_kind(&[path(false, "a.mp4")], EN), "1 video");
    assert_eq!(selected_kind(&[path(false, "a.jpg"), path(true, "dir")], ZH), "2 個項目");
    assert_eq!(selected_kind(&[path(false, "a.jpg"), path(false, "b.pdf")], JA), "ファイル 2 件");
}

fn item(name: &str, size: u64, is_text: bool) -> TransferOfferItem {
    TransferOfferItem { name: name.into(), size, is_text }
}

#[test]
fn offers_are_summarised_with_their_size() {
    assert_eq!(offer_summary(&[item("a.jpg", 1, false)], EN, "1 B"), "1 image · 1 B");
    assert_eq!(
        offer_summary(&[item("Shared text", 5, true), item("link", 6, true)], EN, "11 B"),
        "2 text items · 11 B"
    );
    assert_eq!(offer_summary(&[item("a.mov", 1, false), item("b.mp4", 1, false)], ZH, "2 B"), "2 個影片 · 2 B");
    assert_eq!(offer_summary(&[item("a.bin", 1, false)], JA, "1 B"), "ファイル 1 件 · 1 B");
}

#[test]
fn send_failures_read_as_sentences() {
    assert_eq!(send_error_message(EN, &QuickShareSendError::Rejected), "The receiver declined this transfer.");
    assert_eq!(
        send_error_message(JA, &QuickShareSendError::Qr(QuickShareQrError::TimedOut)),
        "スキャン待機がタイムアウトしました。QR コードを表示し直してください。"
    );
    assert_eq!(
        send_error_message(EN, &QuickShareSendError::Protocol("phone disconnected")),
        "The receiver disconnected. Keep its Quick Share screen open and try again."
    );
    assert_eq!(
        send_error_message(EN, &QuickShareSendError::Protocol("missing payload ID")),
        "unexpected Quick Share protocol message: missing payload ID"
    );
    assert_eq!(
        send_error_message(ZH, &QuickShareSendError::InvalidFile("/x".into())),
        "invalid or unreadable file: /x"
    );
}

#[test]
fn errors_describe_themselves() {
    let io = IoFailure { kind: IoErrorKind::Other, message: "refused".into() };
    assert_eq!(QuickShareSendError::Io(io.clone()).describe(), "I/O error: refused");
    assert_eq!(
        QuickShareSendError::Frame(FrameIoError::InvalidLength(9_000_000)).describe(),
        "wire framing error: wire frame length 9000000 is outside the permitted range"
    );
    assert_eq!(
        QuickShareReceiveError::Crypto(QuickShareCryptoError::SequenceMismatch { expected: 2, actual: -1 }).describe(),
        "cryptographic protocol error: unexpected encrypted sequence number: expected 2, got -1"
    );
    assert_eq!(
        QuickShareSendError::Qr(QuickShareQrError::Mdns("daemon gone".into())).describe(),
        "QR rendezvous failed: mDNS operation failed: daemon gone"
    );
    assert_eq!(QuickShareReceiveError::Rejected.describe(), "the transfer was rejected");
}

#[test]
fn the_first_usable_name_wins() {
    assert_eq!(device_name_from(vec![None, Some("  ".into()), Some(" Desk \n".into())]), "Desk");
    assert_eq!(device_name_from(vec![Some("x".repeat(256)), None]), "HiRodrop");
    assert_eq!(device_name_from(Vec::new()), "HiRodrop");
}

#[test]
fn send_steps_read_as_status_lines() {
    assert_eq!(send_progress_status(EN, &QuickShareSendProgress::Connecting), "Establishing an end-to-end encrypted connection…");
    assert_eq!(send_progress_status(ZH, &QuickShareSendProgress::Complete), "傳送完成");
    assert_eq!(
        send_progress_status(EN, &QuickShareSendProgress::Negotiating { phase: "UKEY2" }),
        "Negotiating: UKEY2…"
    );
    assert_eq!(
        send_progress_status(JA, &QuickShareSendProgress::VerificationPin { pin: "0420".into() }),
        "PIN 0420 · 受信端末で確認してください"
    );
    assert_eq!(
        send_progress_status(
            EN,
            &QuickShareSendProgress::Sending { sent_bytes: 1, total_bytes: 2, file_name: "a.txt".into() }
        ),
        "Sending a.txt"
    );
}
