use hirodrop_core::quick_share_receiver::ReceiveAction;
use hirodrop_core::quick_share_sender::{prepare_outgoing, FileCandidate, FILE_CHUNK_BYTES};
use hirodrop_core::quick_share_wire::OsType;
use hirodrop_core::receive_session::{ReceiveEvent, ReceiveSession};
use hirodrop_core::send_session::{SendPhase, SendSession};
use hirodrop_core::QuickShareQrSession;
use std::collections::{HashMap, VecDeque};

/// A selected file: its path below the selection, its folder and its bytes.
struct Selected {
    name: &'static str,
    folder: Option<&'static str>,
    bytes: Vec<u8>,
}

/// What the receiving side ended with: each saved file by its path below the
/// download directory, and the last progress it showed.
struct Received {
    saved: HashMap<String, Vec<u8>>,
    progress: Option<(u64, u64)>,
    sender_phase: SendPhase,
}

/// Runs a whole transfer between a send session and a receive session that
/// accepts without asking; the frames travel in memory, as a socket would
/// carry them, and the receiver keeps each file under its planned path.
fn transfer(selection: &[Selected], sender_name: &str, qr: Option<QuickShareQrSession>) -> Received {
    let candidates = selection
        .iter()
        .map(|s| FileCandidate {
            path: s.name.to_string(),
            display: s.name.to_string(),
            parent_folder: s.folder.map(Into::into),
            is_file: true,
            size: s.bytes.len() as u64,
            name: Some(s.name.to_string()),
            last_modified_millis: 0,
        })
        .collect();
    let files = prepare_outgoing(candidates).unwrap();
    let (mut sender, first) = SendSession::start(files, sender_name, OsType::Apple, qr).unwrap();
    let mut receiver = ReceiveSession::new("127.0.0.1:49152".to_string(), OsType::Linux);
    let mut to_receiver: VecDeque<Vec<u8>> = first.into();
    let mut to_sender: VecDeque<Vec<u8>> = VecDeque::new();

    let offer = loop {
        if let Some(raw) = to_receiver.pop_front() {
            let reply = receiver.take_frame(&raw).unwrap();
            to_sender.extend(reply.write);
            if let ReceiveEvent::Offer(offer) = reply.event {
                break offer;
            }
        } else {
            let raw = to_sender.pop_front().expect("a frame for the sender");
            to_receiver.extend(sender.take_frame(&raw).unwrap());
        }
    };
    assert_eq!(offer.peer.name, sender_name);

    let plan = receiver.accept().unwrap();
    let mut destinations: HashMap<i64, String> = HashMap::new();
    for planned in &plan.files {
        let mut path = planned.parent_components.join("/");
        if !path.is_empty() {
            path.push('/');
        }
        path.push_str(&planned.name);
        destinations.insert(planned.payload_id, path);
    }
    for raw in receiver.begin_payloads().unwrap() {
        assert!(sender.take_frame(&raw).unwrap().is_empty());
    }

    let by_name: HashMap<&str, &Vec<u8>> = selection.iter().map(|s| (s.name, &s.bytes)).collect();
    while let Some(file) = sender.current_file() {
        let bytes = by_name[file.name.as_str()].clone();
        for piece in bytes.chunks(FILE_CHUNK_BYTES) {
            to_receiver.push_back(sender.send_chunk(piece).unwrap());
        }
        to_receiver.push_back(sender.end_file().unwrap());
    }
    sender.finish().unwrap();

    let mut partial: HashMap<i64, Vec<u8>> = HashMap::new();
    let mut saved = HashMap::new();
    let mut progress = None;
    while !receiver.is_complete() {
        let raw = to_receiver.pop_front().expect("a frame for the receiver");
        let reply = receiver.take_frame(&raw).unwrap();
        if let ReceiveEvent::Action(ReceiveAction::FileChunk(action)) = reply.event {
            let buffer = partial.entry(action.id).or_default();
            if let Some(body) = action.body {
                buffer.extend(body);
            }
            if action.complete {
                saved.insert(destinations[&action.id].clone(), partial.remove(&action.id).unwrap());
            }
            progress = receiver.transfer_progress();
        }
    }
    let goodbye = receiver.finish().unwrap();
    sender.take_frame(&goodbye).unwrap();
    Received { saved, progress, sender_phase: sender.current_phase() }
}

#[test]
fn sender_and_receiver_complete_a_two_file_encrypted_transfer() {
    let selection = [
        Selected { name: "第一份.txt", folder: None, bytes: b"hello from HiRodrop".to_vec() },
        Selected { name: "photo.jpg", folder: None, bytes: vec![0x5a; FILE_CHUNK_BYTES + 37] },
        Selected { name: "note.txt", folder: Some("資料夾/子目錄"), bytes: b"folder transfer".to_vec() },
    ];
    let files = prepare_outgoing(
        selection
            .iter()
            .map(|s| FileCandidate {
                path: (),
                display: s.name.to_string(),
                parent_folder: s.folder.map(Into::into),
                is_file: true,
                size: s.bytes.len() as u64,
                name: Some(s.name.to_string()),
                last_modified_millis: 0,
            })
            .collect(),
    )
    .unwrap();
    assert_eq!(files[2].parent_folder.as_deref(), Some("資料夾/子目錄"));

    let qr = QuickShareQrSession::generate().unwrap();
    let received = transfer(&selection, "sender", Some(qr));
    assert_eq!(received.saved.len(), 3);
    assert_eq!(received.saved["第一份.txt"], b"hello from HiRodrop".to_vec());
    assert_eq!(received.saved["photo.jpg"], vec![0x5a; FILE_CHUNK_BYTES + 37]);
    assert_eq!(received.saved["資料夾/子目錄/note.txt"], b"folder transfer".to_vec());
    assert_eq!(received.sender_phase, SendPhase::Done);
}

#[test]
fn direct_lan_sender_works_without_qr_signature() {
    let selection = [Selected { name: "from-mac.txt", folder: None, bytes: b"direct LAN Quick Share".to_vec() }];
    let received = transfer(&selection, "mac", None);
    assert_eq!(received.saved.len(), 1);
    assert_eq!(received.saved["from-mac.txt"], b"direct LAN Quick Share".to_vec());
    assert_eq!(received.progress, Some((22, 22)));
    assert_eq!(received.sender_phase, SendPhase::Done);
}
