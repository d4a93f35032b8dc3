use hirodrop_core::quick_share_crypto::{derive_session_keys, SecureChannel};
use hirodrop_core::quick_share_frames::{bytes_chunk_frame, LAST_CHUNK};
use hirodrop_core::quick_share_receiver::{
    plan_transfer, sharing_step as receiver_sharing_step, BytesAssembler as ReceiverAssembler, ReceiveAction,
    SharingStep as ReceiverStep, TransferState,
};
use hirodrop_core::quick_share_sender::{
    file_chunk_frame, introduction_frame, prepare_outgoing, sharing_step as sender_sharing_step,
    BytesAssembler as SenderAssembler, FileCandidate, SharingStep as SenderStep,
};
use hirodrop_core::quick_share_frames::sharing_response_frame;
use hirodrop_core::quick_share_wire::SharingResponseStatus;

fn candidate(name: &str, size: u64, folder: Option<&str>) -> FileCandidate<()> {
    FileCandidate {
        path: (),
        display: name.into(),
        parent_folder: folder.map(Into::into),
        is_file: true,
        size,
        name: Some(name.into()),
        last_modified_millis: 0,
    }
}

#[test]
fn files_the_sender_streams_arrive_whole_at_the_receiver() {
    let files = prepare_outgoing(vec![candidate("第一份.txt", 5, None), candidate("note.txt", 0, Some("資料夾/子目錄"))]).unwrap();
    let introduction = introduction_frame(&files).v1.unwrap().introduction.unwrap();
    let plan = plan_transfer(&introduction).unwrap();
    assert_eq!(plan.files[1].parent_components, vec!["資料夾".to_string(), "子目錄".to_string()]);
    let mut state = TransferState::from_plan(&plan);
    let mut assembler = ReceiverAssembler::new();
    let mut written = Vec::new();
    let frames = [
        file_chunk_frame(&files[0], 0, b"hel", false),
        file_chunk_frame(&files[0], 3, b"lo", false),
        file_chunk_frame(&files[0], 5, b"", true),
        file_chunk_frame(&files[1], 0, b"", true),
    ];
    let mut committed = Vec::new();
    for frame in &frames {
        match state.receive_step(&mut assembler, frame).unwrap() {
            ReceiveAction::FileChunk(action) => {
                if action.id == files[0].payload_id {
                    written.extend_from_slice(action.body.as_deref().unwrap_or_default());
                }
                if action.complete {
                    committed.push(action.id);
                }
            }
            other => panic!("unexpected {other:?}"),
        }
    }
    assert_eq!(written, b"hello");
    assert_eq!(committed, vec![files[0].payload_id, files[1].payload_id]);
    assert!(state.is_done());
    assert_eq!(state.received_bytes(), 5);
}

#[test]
fn sharing_frames_cross_in_both_directions() {
    let frame = sharing_response_frame(SharingResponseStatus::Accept);
    let body = frame.encode_to_vec();
    let total = body.len() as i64;

    // The sender closes its payload with an empty body, the receiver with none.
    let mut receiver = ReceiverAssembler::new();
    let first = bytes_chunk_frame(11, total, 0, 0, Some(body.clone()));
    let last = bytes_chunk_frame(11, total, LAST_CHUNK, total, Some(Vec::new()));
    assert!(matches!(receiver_sharing_step(&mut receiver, &first), Ok(ReceiverStep::Continue)));
    assert!(matches!(receiver_sharing_step(&mut receiver, &last), Ok(ReceiverStep::Frame(f)) if f == frame));

    let mut sender = SenderAssembler::new();
    let first = bytes_chunk_frame(12, total, 0, 0, Some(body));
    let last = bytes_chunk_frame(12, total, LAST_CHUNK, total, None);
    assert!(matches!(sender_sharing_step(&mut sender, &first), Ok(SenderStep::Continue)));
    assert!(matches!(sender_sharing_step(&mut sender, &last), Ok(SenderStep::Frame(f)) if f == frame));
}

#[test]
fn a_sealed_frame_opens_on_the_other_side_once() {
    let secret = [7_u8; 32];
    let transcript = b"client-init || server-init";
    let (client_keys, _) = derive_session_keys(&secret, transcript, false).unwrap();
    let (server_keys, _) = derive_session_keys(&secret, transcript, true).unwrap();
    let mut client = SecureChannel::new(client_keys);
    let mut server = SecureChannel::new(server_keys);
    let frame = bytes_chunk_frame(1, 3, LAST_CHUNK, 0, Some(vec![1, 2, 3]));
    let sealed = client.encrypt_offline_frame(&frame).unwrap();
    assert_eq!(server.decrypt_offline_frame(&sealed).unwrap(), frame);
    assert!(server.decrypt_offline_frame(&sealed).is_err());
}
