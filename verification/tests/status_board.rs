use hirodrop_core::status_board::{
    offer_total, Activity, OfferReaction, ReceiveBoard, ReceiveStatus, SendBoard, SendStatus, SendTarget,
};
use hirodrop_core::{QuickShareSendProgress, TransferOfferItem};

fn item(name: &str, size: u64) -> TransferOfferItem {
    TransferOfferItem { name: name.into(), size, is_text: false }
}

#[test]
fn the_service_starts_only_with_a_usable_name_and_folder() {
    let mut board = ReceiveBoard::new();
    assert_eq!(board.status, ReceiveStatus::NotStarted);
    assert!(!board.start("", "Downloads"));
    assert_eq!(board.status, ReceiveStatus::InvalidName);
    assert!(!board.start(&"x".repeat(256), "Downloads"));
    assert_eq!(board.status, ReceiveStatus::InvalidName);
    assert!(!board.start("辦公室電腦", ""));
    assert_eq!(board.status, ReceiveStatus::MissingDirectory);
    assert!(board.start("辦公室電腦", "Downloads"));
    assert!(board.running);
    assert_eq!(board.status, ReceiveStatus::Starting);
    // A running service is left alone.
    assert!(!board.start("other", "elsewhere"));
    assert_eq!(board.status, ReceiveStatus::Starting);
}

#[test]
fn a_second_offer_is_declined_while_the_first_waits_for_the_user() {
    let mut board = ReceiveBoard::new();
    board.start("desk", "Downloads");
    board.listening(42001);
    assert_eq!(board.activity, vec![Activity::Listening { port: 42001 }]);

    let first = board.offer("Pixel".into(), &[item("a.jpg", 10), item("b.mov", 32)]);
    assert_eq!(first, OfferReaction::Ask);
    assert_eq!(board.pending.as_deref(), Some("Pixel"));
    assert_eq!(board.status, ReceiveStatus::Incoming { peer_name: "Pixel".into() });
    assert_eq!((board.received_bytes, board.total_bytes), (0, 42));

    let second = board.offer("Galaxy".into(), &[item("c.txt", 1)]);
    assert_eq!(second, OfferReaction::Reject);
    assert_eq!(board.activity.last(), Some(&Activity::ConcurrentReject { peer_name: "Galaxy".into() }));
    assert_eq!(board.status, ReceiveStatus::Incoming { peer_name: "Pixel".into() });
    assert_eq!(board.total_bytes, 42);

    board.decide(true);
    assert_eq!(board.pending, None);
    assert_eq!(board.status, ReceiveStatus::Accepted);
    board.receiving(20, 42, "a.jpg".into());
    assert_eq!(board.status, ReceiveStatus::Receiving { file_name: "a.jpg".into() });
    board.received("Pixel".into(), "a.jpg, b.mov".into());
    assert_eq!(board.received_bytes, 42);
    assert_eq!(board.status, ReceiveStatus::Received);
    assert_eq!(
        board.activity.last(),
        Some(&Activity::Received { peer_name: "Pixel".into(), paths: "a.jpg, b.mov".into() })
    );

    // With nothing waiting, the next offer is asked about again.
    assert_eq!(board.offer("Galaxy".into(), &[]), OfferReaction::Ask);
    board.decide(false);
    assert_eq!(board.status, ReceiveStatus::Declined);
}

#[test]
fn stopping_declines_the_waiting_offer() {
    let mut board = ReceiveBoard::new();
    board.start("desk", "Downloads");
    board.offer("Pixel".into(), &[item("a", 1)]);
    assert_eq!(board.stop(), Some("Pixel".to_string()));
    assert_eq!(board.status, ReceiveStatus::Stopping);
    assert_eq!(board.stop(), None);
    board.connection_failed("broken pipe".into());
    assert_eq!(board.status, ReceiveStatus::ConnectionFailed);
    board.stopped();
    assert!(!board.running);
    assert_eq!(board.status, ReceiveStatus::Stopped);
}

#[test]
fn an_offer_total_stops_at_the_largest_count() {
    assert_eq!(offer_total(&[]), 0);
    assert_eq!(offer_total(&[item("a", 3), item("b", 4)]), 7);
    assert_eq!(offer_total(&[item("a", u64::MAX - 1), item("b", 5), item("c", 1)]), u64::MAX);
}

#[test]
fn a_qr_send_moves_through_its_steps_and_logs_its_completion() {
    let mut board = SendBoard::new();
    assert_eq!(board.status, SendStatus::NothingSelected);
    assert!(!board.can_begin(0));
    board.selection_changed(2);
    assert_eq!(board.status, SendStatus::Selected { count: 2 });
    assert!(board.can_begin(2));
    board.qr_shown(300);
    assert!(board.running && board.waiting_for_scan);
    assert_eq!(board.target, Some(SendTarget::Qr));
    assert_eq!(board.status, SendStatus::AwaitingScan);
    assert!(!board.can_begin(2));
    // While a send runs, a new selection changes nothing.
    board.selection_changed(5);
    assert_eq!(board.status, SendStatus::AwaitingScan);

    assert_eq!(board.progress(QuickShareSendProgress::PhoneFound { name: "Pixel".into() }, 2), None);
    assert!(!board.waiting_for_scan);
    board.progress(QuickShareSendProgress::VerificationPin { pin: "0427".into() }, 2);
    assert_eq!(board.pin.as_deref(), Some("0427"));
    board.progress(
        QuickShareSendProgress::Sending { sent_bytes: 100, total_bytes: 300, file_name: "a".into() },
        2,
    );
    assert_eq!((board.sent_bytes, board.total_bytes), (100, 300));
    board.progress(QuickShareSendProgress::Finalizing, 2);
    assert_eq!(board.status, SendStatus::Progress(QuickShareSendProgress::Finalizing));
    let logged = board.progress(QuickShareSendProgress::Complete, 2);
    assert_eq!(logged, Some(Activity::Sent { count: 2 }));
    assert!(!board.running);
    assert_eq!(board.sent_bytes, 300);
}

#[test]
fn a_direct_send_needs_an_address_and_a_failure_is_logged() {
    let mut board = SendBoard::new();
    assert!(!board.direct("Laptop".into(), true, 0, 10));
    assert_eq!(board.status, SendStatus::NothingSelected);
    assert!(!board.direct("Laptop".into(), false, 1, 10));
    assert_eq!(board.status, SendStatus::NoAddress);
    assert!(board.direct("Laptop".into(), true, 1, 10));
    assert_eq!(board.status, SendStatus::Connecting { device_name: "Laptop".into() });
    assert_eq!(board.target, Some(SendTarget::Device { name: "Laptop".into() }));
    let line = board.failed("timed out".into());
    assert_eq!(line, Activity::SendFailed { message: "timed out".into() });
    assert!(board.failed && !board.running);
    assert_eq!(board.status, SendStatus::Failed { message: "timed out".into() });
    board.selection_changed(1);
    assert!(!board.failed);
}

#[test]
fn giving_up_on_a_scan_resets_the_send() {
    let mut board = SendBoard::new();
    board.selection_changed(1);
    board.qr_shown(9);
    board.qr_cancelled();
    assert!(!board.running && !board.waiting_for_scan && !board.failed);
    assert_eq!(board.target, None);
    assert_eq!(board.status, SendStatus::QrCancelled);
    board.qr_unavailable("no entropy".into());
    assert_eq!(board.status, SendStatus::QrUnavailable { message: "no entropy".into() });
    board.qr_code_failed("too long".into());
    assert_eq!(board.status, SendStatus::QrCodeFailed { message: "too long".into() });
}

#[test]
fn the_qr_code_shows_itself_only_when_no_receiver_is_in_sight() {
    let mut board = SendBoard::new();
    board.selection_changed(1);
    assert!(board.auto_qr_due(true, true, 1, 0, false, Some(1800)));
    assert!(!board.auto_qr_due(true, true, 1, 0, false, Some(1799)));
    assert!(!board.auto_qr_due(true, true, 1, 0, false, None));
    assert!(!board.auto_qr_due(true, true, 1, 1, false, Some(5000)));
    assert!(!board.auto_qr_due(true, false, 1, 0, false, Some(5000)));
    assert!(!board.auto_qr_due(false, true, 1, 0, false, Some(5000)));
    assert!(!board.auto_qr_due(true, true, 0, 0, false, Some(5000)));
    assert!(!board.auto_qr_due(true, true, 1, 0, true, Some(5000)));
    board.failed("refused".into());
    assert!(!board.auto_qr_due(true, true, 1, 0, false, Some(5000)));
}
