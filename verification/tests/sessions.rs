use hirodrop_core::quick_share_receiver::ReceiveAction;
use hirodrop_core::quick_share_sender::{prepare_outgoing, FileCandidate, OutgoingFile};
use hirodrop_core::quick_share_wire::OsType;
use hirodrop_core::receive_session::{ReceiveEvent, ReceivePhase, ReceiveSession};
use hirodrop_core::send_session::{SendPhase, SendSession};
use hirodrop_core::{QuickShareQrSession, QuickShareReceiveError, QuickShareSendError, TransferOffer};
use std::collections::{HashMap, VecDeque};

fn candidate(name: &str, size: usize, folder: Option<&str>) -> FileCandidate<String> {
    FileCandidate {
        path: format!("/selection/{name}"),
        display: format!("/selection/{name}"),
        parent_folder: folder.map(Into::into),
        is_file: true,
        size: size as u64,
        name: Some(name.into()),
        last_modified_millis: 7,
    }
}

/// The bytes of each selected file, by name.
fn contents() -> HashMap<String, Vec<u8>> {
    let mut map = HashMap::new();
    map.insert("notes.txt".to_string(), b"hello, phone".to_vec());
    map.insert("photo.jpg".to_string(), (0..300_u32).map(|i| (i % 251) as u8).collect());
    map
}

fn outgoing() -> Vec<OutgoingFile<String>> {
    let c = contents();
    prepare_outgoing(vec![
        candidate("notes.txt", c["notes.txt"].len(), None),
        candidate("photo.jpg", c["photo.jpg"].len(), Some("Camera")),
    ])
    .unwrap()
}

/// Both sessions, and the frames on their way in each direction.
struct Wire {
    sender: SendSession<String>,
    receiver: ReceiveSession<String>,
    to_receiver: VecDeque<Vec<u8>>,
    to_sender: VecDeque<Vec<u8>>,
}

impl Wire {
    fn open(qr: Option<QuickShareQrSession>) -> Wire {
        let (sender, first) = SendSession::start(outgoing(), "Work laptop", OsType::Linux, qr).unwrap();
        assert_eq!(first.len(), 2);
        assert_eq!(sender.current_phase(), SendPhase::ServerInit);
        Wire {
            sender,
            receiver: ReceiveSession::new("192.0.2.7:4242".to_string(), OsType::Apple),
            to_receiver: first.into(),
            to_sender: VecDeque::new(),
        }
    }

    /// Delivers frames both ways until the receiver has an offer to show.
    fn until_offer(&mut self) -> TransferOffer<String> {
        loop {
            if let Some(raw) = self.to_receiver.pop_front() {
                let reply = self.receiver.take_frame(&raw).unwrap();
                self.to_sender.extend(reply.write);
                if let ReceiveEvent::Offer(offer) = reply.event {
                    return offer;
                }
            } else if let Some(raw) = self.to_sender.pop_front() {
                let written = self.sender.take_frame(&raw).unwrap();
                self.to_receiver.extend(written);
            } else {
                panic!("neither side has anything to read");
            }
        }
    }
}

#[test]
fn a_send_session_and_a_receive_session_complete_a_two_file_transfer() {
    let mut wire = Wire::open(None);
    let offer = wire.until_offer();
    assert_eq!(offer.peer.name, "Work laptop");
    assert_eq!(offer.peer.address, "192.0.2.7:4242");
    assert_eq!(offer.pin, wire.sender.verification_pin());
    assert_eq!(offer.pin.len(), 4);
    let names: Vec<&str> = offer.items.iter().map(|item| item.name.as_str()).collect();
    assert_eq!(names, vec!["notes.txt", "photo.jpg"]);
    assert_eq!(wire.receiver.current_phase(), ReceivePhase::Consent);
    assert_eq!(wire.sender.current_phase(), SendPhase::Response);

    // A keep-alive while the user decides is acknowledged by the sender; the
    // acknowledgement asks nothing more of the receiver.
    let ping = wire.receiver.keep_alive().unwrap();
    let ack = wire.sender.take_frame(&ping).unwrap();
    assert_eq!(ack.len(), 1);
    assert!(wire.receiver.take_frame(&ack[0]).unwrap().write.is_empty());
    assert_eq!(wire.receiver.current_phase(), ReceivePhase::Consent);

    let plan = wire.receiver.accept().unwrap();
    assert_eq!(plan.files.len(), 2);
    assert_eq!(plan.files[1].parent_components, vec!["Camera".to_string()]);
    let accept = wire.receiver.begin_payloads().unwrap();
    assert_eq!(accept.len(), 2);
    assert_eq!(wire.receiver.current_phase(), ReceivePhase::Payloads);
    for raw in accept {
        assert!(wire.sender.take_frame(&raw).unwrap().is_empty());
    }
    assert_eq!(wire.sender.current_phase(), SendPhase::Streaming);

    // The sender streams each file in pieces of 100 bytes.
    let c = contents();
    while let Some(file) = wire.sender.current_file() {
        let body = c[&file.name].clone();
        for piece in body.chunks(100) {
            let sealed = wire.sender.send_chunk(piece).unwrap();
            wire.to_receiver.push_back(sealed);
        }
        let last = wire.sender.end_file().unwrap();
        wire.to_receiver.push_back(last);
    }
    let closing = wire.sender.finish().unwrap();
    assert_eq!(closing.len(), 1);
    assert_eq!(wire.sender.current_phase(), SendPhase::Closing);

    // The receiver writes each chunk where the plan put the file.
    let mut written: HashMap<i64, Vec<u8>> = HashMap::new();
    let mut completed = Vec::new();
    while !wire.receiver.is_complete() {
        let raw = wire.to_receiver.pop_front().unwrap();
        let reply = wire.receiver.take_frame(&raw).unwrap();
        assert!(reply.write.is_empty());
        if let ReceiveEvent::Action(ReceiveAction::FileChunk(action)) = reply.event {
            if let Some(body) = action.body {
                written.entry(action.id).or_default().extend(body);
            }
            if action.complete {
                completed.push(action.id);
            }
        }
    }
    assert_eq!(wire.receiver.transfer_progress(), Some((312, 312)));
    for planned in &plan.files {
        assert_eq!(written[&planned.payload_id], c[&planned.name]);
    }
    assert_eq!(completed.len(), 2);

    // The receiver's disconnection ends the send.
    let goodbye = wire.receiver.finish().unwrap();
    assert_eq!(wire.receiver.current_phase(), ReceivePhase::Finished);
    assert!(wire.sender.take_frame(&goodbye).unwrap().is_empty());
    assert_eq!(wire.sender.current_phase(), SendPhase::Done);
}

#[test]
fn a_declined_offer_reaches_the_sender_as_a_rejection() {
    let mut wire = Wire::open(None);
    wire.until_offer();
    let reject = wire.receiver.decline().unwrap();
    assert_eq!(wire.receiver.current_phase(), ReceivePhase::Rejected);
    let mut outcome = Ok(Vec::new());
    for raw in reject {
        outcome = wire.sender.take_frame(&raw);
    }
    assert!(matches!(outcome, Err(QuickShareSendError::Rejected)));
    assert_eq!(wire.sender.current_phase(), SendPhase::Failed);
}

#[test]
fn a_qr_send_reaches_the_offer_with_its_signature() {
    let qr = QuickShareQrSession::from_secret_key(vec![3_u8; 32]).unwrap();
    let mut wire = Wire::open(Some(qr));
    let offer = wire.until_offer();
    assert_eq!(offer.items.len(), 2);
}

#[test]
fn a_closed_connection_after_the_last_file_completes_the_send() {
    let mut wire = Wire::open(None);
    wire.until_offer();
    let plan = wire.receiver.accept().unwrap();
    for raw in wire.receiver.begin_payloads().unwrap() {
        wire.sender.take_frame(&raw).unwrap();
    }
    while wire.sender.current_file().is_some() {
        wire.sender.end_file().unwrap();
    }
    wire.sender.finish().unwrap();
    let eof = QuickShareSendError::Frame(hirodrop_core::quick_share_transport::FrameIoError::Io(
        hirodrop_core::quick_share_transport::IoFailure {
            kind: hirodrop_core::quick_share_transport::IoErrorKind::UnexpectedEof,
            message: "closed".into(),
        },
    ));
    assert!(wire.sender.read_failed(eof).is_ok());
    assert_eq!(wire.sender.current_phase(), SendPhase::Done);
}

#[test]
fn a_frame_out_of_place_fails_the_receive_session() {
    let mut receiver = ReceiveSession::new((), OsType::Apple);
    let outcome = receiver.take_frame(&[0xff, 0xff, 0xff]);
    assert!(outcome.is_err());
    assert_eq!(receiver.current_phase(), ReceivePhase::Failed);
    let _: Option<QuickShareReceiveError> = outcome.err();
}

#[test]
fn an_invalid_display_name_is_refused_before_anything_is_sent() {
    let outcome = SendSession::start(outgoing(), "", OsType::Linux, None);
    assert!(matches!(outcome, Err(QuickShareSendError::Protocol("invalid desktop device name"))));
}
