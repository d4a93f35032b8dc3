use hirodrop_core::quick_share_crypto::{SecureChannel, Ukey2Initiator, Ukey2Responder};
use hirodrop_core::quick_share_frames::{
    bytes_chunk_frame, connection_accept_frame, paired_key_encryption_frame, paired_key_result_frame,
    sharing_response_frame, LAST_CHUNK,
};
use hirodrop_core::quick_share_receiver::{
    parse_connection_request, plan_transfer, require_offline_type, require_sharing_type,
    sharing_step as receiver_sharing_step, transfer_offer, BytesAssembler as ReceiverAssembler, ReceiveAction,
    SharingStep as ReceiverStep, TransferState,
};
use hirodrop_core::quick_share_sender::{
    check_connection_response, check_sharing_response, connection_request, file_chunk_frame, introduction_frame,
    prepare_outgoing, require_sharing_type as sender_require_sharing_type, sharing_step as sender_sharing_step,
    BytesAssembler as SenderAssembler, FileCandidate, SharingStep as SenderStep, FILE_CHUNK_BYTES,
};
use hirodrop_core::quick_share_wire::{
    OfflineFrame, OfflineFrameType, OsType, SharingFrame, SharingFrameType, SharingOsType, SharingResponseStatus,
};
use hirodrop_core::QuickShareQrSession;
use std::collections::HashMap;

/// One side's end of an in-memory encrypted link.
struct Side {
    channel: SecureChannel,
}

impl Side {
    fn seal(&mut self, frame: &OfflineFrame) -> Vec<u8> {
        self.channel.encrypt_offline_frame(frame).unwrap()
    }

    fn open(&mut self, sealed: &[u8]) -> OfflineFrame {
        self.channel.decrypt_offline_frame(sealed).unwrap()
    }

    /// The sealed chunks of a sharing frame sent as a two-chunk byte payload.
    fn seal_sharing(&mut self, id: i64, frame: &SharingFrame, closing: Option<Vec<u8>>) -> Vec<Vec<u8>> {
        let body = frame.encode_to_vec();
        let total = body.len() as i64;
        vec![
            self.seal(&bytes_chunk_frame(id, total, 0, 0, Some(body))),
            self.seal(&bytes_chunk_frame(id, total, LAST_CHUNK, total, closing)),
        ]
    }
}

fn receiver_reads(side: &mut Side, assembler: &mut ReceiverAssembler, sealed: Vec<Vec<u8>>) -> SharingFrame {
    let mut result = None;
    for chunk in sealed {
        let frame = side.open(&chunk);
        if let ReceiverStep::Frame(sharing) = receiver_sharing_step(assembler, &frame).unwrap() {
            result = Some(sharing);
        }
    }
    result.unwrap()
}

fn sender_reads(side: &mut Side, assembler: &mut SenderAssembler, sealed: Vec<Vec<u8>>) -> SharingFrame {
    let mut result = None;
    for chunk in sealed {
        let frame = side.open(&chunk);
        if let SenderStep::Frame(sharing) = sender_sharing_step(assembler, &frame).unwrap() {
            result = Some(sharing);
        }
    }
    result.unwrap()
}

fn candidate(path: &str, name: &str, folder: Option<&str>, size: usize) -> FileCandidate<String> {
    FileCandidate {
        path: path.into(),
        display: path.into(),
        parent_folder: folder.map(Into::into),
        is_file: true,
        size: size as u64,
        name: Some(name.into()),
        last_modified_millis: 1,
    }
}

#[test]
fn two_files_and_a_folder_cross_the_whole_encrypted_protocol() {
    let mut contents: HashMap<String, Vec<u8>> = HashMap::new();
    contents.insert("source/第一份.txt".into(), b"hello from HiRodrop".to_vec());
    contents.insert("source/photo.jpg".into(), vec![0x5a; FILE_CHUNK_BYTES + 37]);
    contents.insert("source/資料夾/子目錄/note.txt".into(), b"folder transfer".to_vec());
    let files = prepare_outgoing(vec![
        candidate("source/第一份.txt", "第一份.txt", None, 19),
        candidate("source/photo.jpg", "photo.jpg", None, FILE_CHUNK_BYTES + 37),
        candidate("source/資料夾/子目錄/note.txt", "note.txt", Some("資料夾/子目錄"), 15),
    ])
    .unwrap();
    assert_eq!(files[2].parent_folder.as_deref(), Some("資料夾/子目錄"));

    // Connection request and UKEY2.
    let request = connection_request("sender").unwrap().encode_to_vec();
    let peer = parse_connection_request(&request, "127.0.0.1:4000").unwrap();
    assert_eq!(peer.name, "sender");
    assert_eq!(peer.device_type, 3);
    let (initiator, client_init) = Ukey2Initiator::begin().unwrap();
    let (responder, server_init) = Ukey2Responder::accept_client_init(&client_init).unwrap();
    let (client_finish, client_channel, sender_pin, auth_key) = initiator.complete(&server_init).unwrap();
    let (server_channel, receiver_pin, _fingerprint) = responder.complete(&client_finish).unwrap();
    assert_eq!(sender_pin, receiver_pin);
    let mut sender = Side { channel: client_channel };
    let mut receiver = Side { channel: server_channel };

    // Plain connection responses.
    let from_sender = OfflineFrame::decode(&connection_accept_frame(OsType::Apple).encode_to_vec()).unwrap();
    require_offline_type(&from_sender, OfflineFrameType::ConnectionResponse).unwrap();
    let from_receiver = OfflineFrame::decode(&connection_accept_frame(OsType::Linux).encode_to_vec()).unwrap();
    assert_eq!(check_connection_response(&from_receiver).unwrap(), 1);

    // Paired-key exchange, with the QR session's signature.
    let qr = QuickShareQrSession::generate().unwrap();
    let key: [u8; 32] = auth_key.as_slice().try_into().unwrap();
    let mut receiver_assembler = ReceiverAssembler::new();
    let mut sender_assembler = SenderAssembler::new();
    let encryption = paired_key_encryption_frame(vec![1; 72], vec![2; 6], Some(qr.sign_auth_key(&key)));
    let sealed = sender.seal_sharing(100, &encryption, Some(Vec::new()));
    let got = receiver_reads(&mut receiver, &mut receiver_assembler, sealed);
    require_sharing_type(&got, SharingFrameType::PairedKeyEncryption).unwrap();
    let sealed = receiver.seal_sharing(
        200,
        &paired_key_encryption_frame(vec![3; 72], vec![4; 6], None),
        None,
    );
    let got = sender_reads(&mut sender, &mut sender_assembler, sealed);
    sender_require_sharing_type(&got, SharingFrameType::PairedKeyEncryption).unwrap();
    let sealed = sender.seal_sharing(101, &paired_key_result_frame(None), Some(Vec::new()));
    let got = receiver_reads(&mut receiver, &mut receiver_assembler, sealed);
    require_sharing_type(&got, SharingFrameType::PairedKeyResult).unwrap();
    let sealed = receiver.seal_sharing(201, &paired_key_result_frame(Some(SharingOsType::Macos.to_i32())), None);
    let got = sender_reads(&mut sender, &mut sender_assembler, sealed);
    sender_require_sharing_type(&got, SharingFrameType::PairedKeyResult).unwrap();

    // Introduction, offer, plan and acceptance.
    let sealed = sender.seal_sharing(102, &introduction_frame(&files), Some(Vec::new()));
    let got = receiver_reads(&mut receiver, &mut receiver_assembler, sealed);
    require_sharing_type(&got, SharingFrameType::Introduction).unwrap();
    let introduction = got.v1.unwrap().introduction.unwrap();
    let offer = transfer_offer(peer, receiver_pin, String::new(), &introduction).unwrap();
    assert_eq!(offer.items.len(), 3);
    let plan = plan_transfer(&introduction).unwrap();
    let sealed = receiver.seal_sharing(202, &sharing_response_frame(SharingResponseStatus::Accept), None);
    let got = sender_reads(&mut sender, &mut sender_assembler, sealed);
    check_sharing_response(&got).unwrap();

    // The files, in chunks of the sender's size, each closed by an empty last chunk.
    let mut state = TransferState::from_plan(&plan);
    let mut saved: HashMap<i64, Vec<u8>> = HashMap::new();
    let mut committed = Vec::new();
    for file in &files {
        let data = &contents[&file.path];
        let mut offset = 0_usize;
        let mut frames = Vec::new();
        for chunk in data.chunks(FILE_CHUNK_BYTES) {
            frames.push(file_chunk_frame(file, offset as u64, chunk, false));
            offset += chunk.len();
        }
        frames.push(file_chunk_frame(file, offset as u64, &[], true));
        for frame in frames {
            let sealed = sender.seal(&frame);
            let opened = receiver.open(&sealed);
            match state.receive_step(&mut receiver_assembler, &opened).unwrap() {
                ReceiveAction::FileChunk(action) => {
                    saved.entry(action.id).or_default().extend_from_slice(action.body.as_deref().unwrap_or_default());
                    if action.complete {
                        committed.push(action.id);
                    }
                }
                other => panic!("unexpected {other:?}"),
            }
        }
    }
    assert!(state.is_done());
    assert_eq!(committed.len(), 3);
    for (file, planned) in files.iter().zip(&plan.files) {
        assert_eq!(planned.payload_id, file.payload_id);
        assert_eq!(&saved[&file.payload_id], &contents[&file.path]);
    }
    assert_eq!(plan.files[0].name, "第一份.txt");
    assert_eq!(plan.files[1].name, "photo.jpg");
    assert_eq!(plan.files[2].parent_components, vec!["資料夾".to_string(), "子目錄".to_string()]);
    assert_eq!(state.received_bytes(), (19 + FILE_CHUNK_BYTES + 37 + 15) as u64);
}
