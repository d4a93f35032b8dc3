use hirodrop_core::quick_share_frames::{bytes_chunk_frame, keep_alive_frame, LAST_CHUNK};
use hirodrop_core::quick_share_receiver::{
    consent_wait_reply, numbered_file_name, text_file_name,
    parse_connection_request, plan_transfer, require_offline_type, require_sharing_type,
    sanitize_file_name, sanitize_parent_folder, sanitize_path_component, sharing_step,
    transfer_offer, valid_device_name, BytesAssembler, IncomingPeer, QuickShareReceiveError,
    ReceiveAction, SharingStep, TransferState, MAX_TOTAL_TRANSFER_BYTES,
};
use hirodrop_core::quick_share_transport::{FrameIoError, IoErrorKind, IoFailure};
use hirodrop_core::quick_share_wire::{
    offline_v1, sharing_v1, ConnectionRequestFrame, FileMetadata, IntroductionFrame, OfflineFrame,
    OfflineFrameType, PayloadChunk, PayloadHeader, PayloadTransferFrame, PayloadType, SharingFrameType,
    TextMetadata, TextType,
};

fn request_frame(info: Vec<u8>, endpoint_name: Option<Vec<u8>>) -> Vec<u8> {
    let mut frame = offline_v1(OfflineFrameType::ConnectionRequest);
    frame.v1.as_mut().unwrap().connection_request = Some(ConnectionRequestFrame {
        endpoint_name,
        endpoint_info: Some(info),
        ..Default::default()
    });
    frame.encode_to_vec()
}

#[test]
fn sender_cannot_escape_the_download_directory() {
    assert_eq!(sanitize_file_name("../../secret.txt").unwrap(), "secret.txt");
    assert_eq!(sanitize_file_name("C:\\work\\report?.pdf").unwrap(), "report_.pdf");
    assert!(sanitize_file_name("..").is_err());
    assert!(sanitize_parent_folder(&Some("../escape".into())).is_err());
    assert!(sanitize_parent_folder(&Some("folder/./escape".into())).is_err());
    assert_eq!(
        sanitize_parent_folder(&Some("資料夾/子目錄".into())).unwrap(),
        vec!["資料夾".to_string(), "子目錄".to_string()]
    );
}

#[test]
fn endpoint_info_parser_reads_utf8_name_and_device_type() {
    let name = "Galaxy 測試機";
    let mut info = vec![2_u8; 17];
    info[0] = 2;
    info.push(name.len() as u8);
    info.extend_from_slice(name.as_bytes());
    let peer = parse_connection_request(&request_frame(info, None), "127.0.0.1:1234").unwrap();
    assert_eq!(peer.name, name);
    assert_eq!(peer.device_type, 1);
    assert_eq!(peer.address, "127.0.0.1:1234");
}

#[test]
fn windows_binary_endpoint_name_does_not_break_connection_request() {
    let name = "Windows Quick Share";
    let mut info = vec![6_u8; 17];
    info.push(name.len() as u8);
    info.extend_from_slice(name.as_bytes());
    let peer = parse_connection_request(
        &request_frame(info, Some(vec![0xff, 0xfe, 0x00, 0x81])),
        "127.0.0.1:4321",
    )
    .unwrap();
    assert_eq!(peer.name, name);
    assert_eq!(peer.device_type, 3);
}

#[test]
fn connection_request_errors_name_what_is_wrong() {
    let short = parse_connection_request(&request_frame(vec![0; 10], None), ());
    assert!(matches!(short, Err(QuickShareReceiveError::Protocol("endpoint info is too short"))));
    let mut info = vec![0_u8; 17];
    info.push(9);
    let long = parse_connection_request(&request_frame(info, None), ());
    assert!(matches!(long, Err(QuickShareReceiveError::Protocol("invalid endpoint name length"))));
    let mut info = vec![0_u8; 17];
    info.extend_from_slice(&[1, 0xff]);
    let bad = parse_connection_request(&request_frame(info, None), ());
    assert!(matches!(bad, Err(QuickShareReceiveError::Protocol("endpoint name is not UTF-8"))));
    let wrong = offline_v1(OfflineFrameType::KeepAlive).encode_to_vec();
    assert!(matches!(
        parse_connection_request(&wrong, ()),
        Err(QuickShareReceiveError::Protocol("unexpected offline frame type"))
    ));
    assert!(matches!(parse_connection_request(&[0xff], ()), Err(QuickShareReceiveError::Protobuf(_))));
}

#[test]
fn frame_type_checks() {
    let frame = offline_v1(OfflineFrameType::KeepAlive);
    assert!(require_offline_type(&frame, OfflineFrameType::KeepAlive).is_ok());
    assert!(require_offline_type(&frame, OfflineFrameType::Disconnection).is_err());
    assert!(require_offline_type(&OfflineFrame::default(), OfflineFrameType::KeepAlive).is_err());
    let sharing = sharing_v1(SharingFrameType::Introduction);
    assert!(require_sharing_type(&sharing, SharingFrameType::Introduction).is_ok());
    assert!(matches!(
        require_sharing_type(&sharing, SharingFrameType::Response),
        Err(QuickShareReceiveError::Protocol("unexpected sharing frame type"))
    ));
}

fn file(name: &str, id: i64, size: i64) -> FileMetadata {
    FileMetadata { name: Some(name.into()), payload_id: Some(id), size: Some(size), ..Default::default() }
}

fn text(id: i64, size: i64, title: Option<&str>) -> TextMetadata {
    TextMetadata { text_title: title.map(Into::into), payload_id: Some(id), size: Some(size), text_type: Some(TextType::Url.to_i32()), ..Default::default() }
}

#[test]
fn offer_lists_files_then_texts() {
    let introduction = IntroductionFrame {
        file_metadata: vec![file("a.jpg", 1, 10), file("b.pdf", 2, 20)],
        text_metadata: vec![text(3, 5, None), text(4, 6, Some("link"))],
        ..Default::default()
    };
    let peer = IncomingPeer { name: "phone".into(), device_type: 1, address: () };
    let offer = transfer_offer(peer, "1234".into(), "ab".into(), &introduction).unwrap();
    let names: Vec<_> = offer.items.iter().map(|i| (i.name.as_str(), i.size, i.is_text)).collect();
    assert_eq!(names, vec![("a.jpg", 10, false), ("b.pdf", 20, false), ("Shared text", 5, true), ("link", 6, true)]);
    assert_eq!(offer.pin, "1234");
}

#[test]
fn offer_refuses_negative_sizes_and_nameless_files() {
    let peer = IncomingPeer { name: "phone".into(), device_type: 1, address: () };
    let negative = IntroductionFrame { file_metadata: vec![file("a", 1, -1)], ..Default::default() };
    assert!(matches!(transfer_offer(peer.clone(), String::new(), String::new(), &negative), Err(QuickShareReceiveError::UnsafeMetadata)));
    let nameless = IntroductionFrame { file_metadata: vec![FileMetadata { size: Some(1), ..Default::default() }], ..Default::default() };
    assert!(matches!(transfer_offer(peer, String::new(), String::new(), &nameless), Err(QuickShareReceiveError::UnsafeMetadata)));
}

#[test]
fn plan_checks_ids_sizes_and_names() {
    let empty = IntroductionFrame::default();
    assert!(matches!(plan_transfer(&empty), Err(QuickShareReceiveError::UnsafeMetadata)));
    let duplicate = IntroductionFrame { file_metadata: vec![file("a", 1, 1), file("b", 1, 1)], ..Default::default() };
    assert!(matches!(plan_transfer(&duplicate), Err(QuickShareReceiveError::UnsafeMetadata)));
    let clash = IntroductionFrame { file_metadata: vec![file("a", 1, 1)], text_metadata: vec![text(1, 1, None)], ..Default::default() };
    assert!(matches!(plan_transfer(&clash), Err(QuickShareReceiveError::UnsafeMetadata)));
    let huge_text = IntroductionFrame { text_metadata: vec![text(1, 5 * 1024 * 1024 + 1, None)], ..Default::default() };
    assert!(matches!(plan_transfer(&huge_text), Err(QuickShareReceiveError::UnsafeMetadata)));
    let too_large = IntroductionFrame { file_metadata: vec![file("a", 1, MAX_TOTAL_TRANSFER_BYTES as i64 + 1)], ..Default::default() };
    assert!(matches!(plan_transfer(&too_large), Err(QuickShareReceiveError::TransferTooLarge)));
    let overflow = IntroductionFrame { file_metadata: vec![file("a", 1, i64::MAX), file("b", 2, i64::MAX), file("c", 3, i64::MAX)], ..Default::default() };
    assert!(matches!(plan_transfer(&overflow), Err(QuickShareReceiveError::TransferTooLarge)));
    let escape = IntroductionFrame { file_metadata: vec![FileMetadata { parent_folder: Some("../x".into()), ..file("a", 1, 1) }], ..Default::default() };
    assert!(matches!(plan_transfer(&escape), Err(QuickShareReceiveError::UnsafeMetadata)));
}

#[test]
fn plan_sanitizes_names_and_folders() {
    let introduction = IntroductionFrame {
        file_metadata: vec![FileMetadata { parent_folder: Some("docs\\2024".into()), ..file("dir/a:b.txt", 7, 3) }],
        text_metadata: vec![text(8, 2, None)],
        preview_payload_ids: vec![9],
        ..Default::default()
    };
    let plan = plan_transfer(&introduction).unwrap();
    assert_eq!(plan.files[0].name, "a_b.txt");
    assert_eq!(plan.files[0].parent_components, vec!["docs".to_string(), "2024".to_string()]);
    assert_eq!(plan.texts[0].text_type, TextType::Url);
    assert_eq!(plan.total_bytes, 5);
    assert_eq!(plan.preview_payload_ids, vec![9]);
}

#[test]
fn path_components_reject_blank_and_control_names() {
    assert!(sanitize_path_component("").is_err());
    assert!(sanitize_path_component(".").is_err());
    assert!(sanitize_path_component("   ").is_err());
    assert_eq!(sanitize_path_component("a\u{0}b\u{85}").unwrap(), "a_b_");
    assert_eq!(sanitize_path_component("<>:\"|?*").unwrap(), "_______");
    assert!(sanitize_file_name("dir/").is_err());
    assert_eq!(sanitize_file_name("plain").unwrap(), "plain");
    assert!(sanitize_parent_folder(&None).unwrap().is_empty());
    assert!(sanitize_parent_folder(&Some(String::new())).unwrap().is_empty());
}

#[test]
fn device_names_are_trimmed_and_bounded() {
    assert_eq!(valid_device_name("  Desk \n".into()), Some("Desk".into()));
    assert_eq!(valid_device_name(" \t ".into()), None);
    assert_eq!(valid_device_name("é".repeat(127)), Some("é".repeat(127)));
    assert_eq!(valid_device_name("é".repeat(128)), None);
}

fn transfer(id: i64, ty: PayloadType, total: i64, offset: i64, flags: i32, body: Option<Vec<u8>>) -> PayloadTransferFrame {
    PayloadTransferFrame {
        packet_type: None,
        payload_header: Some(PayloadHeader { id: Some(id), payload_type: Some(ty.to_i32()), total_size: Some(total), ..Default::default() }),
        payload_chunk: Some(PayloadChunk { flags: Some(flags), offset: Some(offset), body, index: None }),
    }
}

#[test]
fn assembler_joins_chunks_in_order() {
    let mut assembler = BytesAssembler::new();
    assert!(assembler.push(&transfer(5, PayloadType::Bytes, 4, 0, 0, Some(vec![1, 2]))).unwrap().is_none());
    assert!(assembler.push(&transfer(5, PayloadType::Bytes, 4, 2, 0, Some(vec![3]))).unwrap().is_none());
    let done = assembler.push(&transfer(5, PayloadType::Bytes, 4, 3, LAST_CHUNK, Some(vec![4]))).unwrap();
    assert_eq!(done, Some((5, vec![1, 2, 3, 4])));
}

#[test]
fn assembler_refuses_gaps_overflow_and_short_payloads() {
    let mut assembler = BytesAssembler::new();
    assert!(matches!(
        assembler.push(&transfer(1, PayloadType::Bytes, 4, 1, 0, Some(vec![1]))),
        Err(QuickShareReceiveError::Protocol("unexpected byte-payload offset"))
    ));
    assert!(matches!(
        assembler.push(&transfer(1, PayloadType::Bytes, 1, 0, 0, Some(vec![1, 2]))),
        Err(QuickShareReceiveError::Protocol("byte payload exceeds declared size"))
    ));
    assert!(matches!(
        assembler.push(&transfer(2, PayloadType::Bytes, 3, 0, LAST_CHUNK, Some(vec![1]))),
        Err(QuickShareReceiveError::Protocol("incomplete byte payload"))
    ));
    assert!(matches!(
        assembler.push(&transfer(3, PayloadType::Bytes, 6 * 1024 * 1024, 0, 0, None)),
        Err(QuickShareReceiveError::Protocol("byte payload is too large"))
    ));
}

#[test]
fn sharing_frames_sent_as_two_chunks_come_back_whole() {
    let frame = sharing_v1(SharingFrameType::PairedKeyResult);
    let body = frame.encode_to_vec();
    let first = bytes_chunk_frame(77, body.len() as i64, 0, 0, Some(body.clone()));
    let last = bytes_chunk_frame(77, body.len() as i64, LAST_CHUNK, body.len() as i64, None);
    let mut assembler = BytesAssembler::new();
    assert!(matches!(sharing_step(&mut assembler, &first), Ok(SharingStep::Continue)));
    match sharing_step(&mut assembler, &last) {
        Ok(SharingStep::Frame(f)) => assert_eq!(f, frame),
        other => panic!("unexpected {other:?}"),
    }
}

#[test]
fn keep_alives_are_acknowledged_and_disconnects_end_the_wait() {
    let mut assembler = BytesAssembler::new();
    assert!(matches!(sharing_step(&mut assembler, &keep_alive_frame(false, Some(4))), Ok(SharingStep::AckKeepAlive(Some(4)))));
    assert!(matches!(sharing_step(&mut assembler, &keep_alive_frame(true, Some(4))), Ok(SharingStep::Continue)));
    assert!(matches!(
        sharing_step(&mut assembler, &offline_v1(OfflineFrameType::Disconnection)),
        Err(QuickShareReceiveError::Disconnected)
    ));
    assert!(matches!(
        sharing_step(&mut assembler, &OfflineFrame::default()),
        Err(QuickShareReceiveError::Protocol("missing encrypted v1 frame"))
    ));
}

fn payload_frame(t: PayloadTransferFrame) -> OfflineFrame {
    let mut frame = offline_v1(OfflineFrameType::PayloadTransfer);
    frame.v1.as_mut().unwrap().payload_transfer = Some(t);
    frame
}

#[test]
fn transfer_state_takes_files_texts_and_previews() {
    let introduction = IntroductionFrame {
        file_metadata: vec![file("a.bin", 1, 3), file("b.bin", 2, 2)],
        text_metadata: vec![text(3, 2, None)],
        preview_payload_ids: vec![4],
        ..Default::default()
    };
    let plan = plan_transfer(&introduction).unwrap();
    let mut state = TransferState::from_plan(&plan);
    let mut assembler = BytesAssembler::new();
    assert_eq!(state.total_bytes(), 7);

    let step = state.receive_step(&mut assembler, &payload_frame(transfer(1, PayloadType::File, 3, 0, 0, Some(vec![1, 2])))).unwrap();
    assert!(matches!(step, ReceiveAction::FileChunk(ref a) if a.id == 1 && !a.complete && a.body == Some(vec![1, 2])));
    let step = state.receive_step(&mut assembler, &payload_frame(transfer(1, PayloadType::File, 3, 2, LAST_CHUNK, Some(vec![3])))).unwrap();
    assert!(matches!(step, ReceiveAction::FileChunk(ref a) if a.complete));
    assert_eq!(state.received_bytes(), 3);

    let step = state.receive_step(&mut assembler, &payload_frame(transfer(2, PayloadType::Bytes, 2, 0, LAST_CHUNK, Some(vec![9, 9])))).unwrap();
    assert!(matches!(step, ReceiveAction::FileBytes { id: 2, .. }));
    let step = state.receive_step(&mut assembler, &payload_frame(transfer(4, PayloadType::Bytes, 1, 0, LAST_CHUNK, Some(vec![0])))).unwrap();
    assert!(matches!(step, ReceiveAction::DiscardPreview { id: 4, len: 1 }));
    let step = state.receive_step(&mut assembler, &payload_frame(transfer(9, PayloadType::Bytes, 1, 0, LAST_CHUNK, Some(vec![0])))).unwrap();
    assert!(matches!(step, ReceiveAction::DiscardBytes { id: 9, len: 1 }));
    assert!(!state.is_done());
    let step = state.receive_step(&mut assembler, &payload_frame(transfer(3, PayloadType::Bytes, 2, 0, LAST_CHUNK, Some(b"hi".to_vec())))).unwrap();
    assert!(matches!(step, ReceiveAction::TextBytes { id: 3, text_type: TextType::Url, .. }));
    assert!(state.is_done());
    assert_eq!(state.received_bytes(), 7);
}

#[test]
fn transfer_state_refuses_wrong_offsets_sizes_and_types() {
    let introduction = IntroductionFrame { file_metadata: vec![file("a", 1, 2)], ..Default::default() };
    let plan = plan_transfer(&introduction).unwrap();
    let mut state = TransferState::from_plan(&plan);
    let mut assembler = BytesAssembler::new();
    assert!(matches!(
        state.receive_step(&mut assembler, &payload_frame(transfer(1, PayloadType::File, 2, 1, 0, Some(vec![1])))),
        Err(QuickShareReceiveError::Protocol("unexpected file offset"))
    ));
    assert!(matches!(
        state.receive_step(&mut assembler, &payload_frame(transfer(1, PayloadType::File, 2, 0, 0, Some(vec![1, 2, 3])))),
        Err(QuickShareReceiveError::Protocol("file exceeds declared size"))
    ));
    assert!(matches!(
        state.receive_step(&mut assembler, &payload_frame(transfer(5, PayloadType::File, 2, 0, 0, Some(vec![1])))),
        Err(QuickShareReceiveError::Protocol("unknown file payload ID"))
    ));
    assert!(matches!(
        state.receive_step(&mut assembler, &payload_frame(transfer(1, PayloadType::File, 2, 0, LAST_CHUNK, Some(vec![1])))),
        Err(QuickShareReceiveError::Protocol("incomplete file payload"))
    ));
    assert!(matches!(
        state.receive_step(&mut assembler, &payload_frame(transfer(1, PayloadType::Stream, 2, 0, 0, None))),
        Err(QuickShareReceiveError::Protocol("unsupported payload type"))
    ));
    assert!(matches!(
        state.receive_step(&mut assembler, &offline_v1(OfflineFrameType::Disconnection)),
        Err(QuickShareReceiveError::Disconnected)
    ));
}

#[test]
fn probe_disconnects_are_benign() {
    let eof = IoFailure { kind: IoErrorKind::UnexpectedEof, message: String::new() };
    assert!(QuickShareReceiveError::Frame(FrameIoError::Io(eof.clone())).is_benign_probe_disconnect());
    assert!(QuickShareReceiveError::Io(eof).is_benign_probe_disconnect());
    assert!(QuickShareReceiveError::Disconnected.is_benign_probe_disconnect());
    let timeout = IoFailure { kind: IoErrorKind::TimedOut, message: String::new() };
    assert!(!QuickShareReceiveError::Io(timeout).is_benign_probe_disconnect());
    assert!(!QuickShareReceiveError::Frame(FrameIoError::InvalidLength(0)).is_benign_probe_disconnect());
    assert!(!QuickShareReceiveError::Rejected.is_benign_probe_disconnect());
}

#[test]
fn only_unacknowledged_keep_alives_are_answered_while_waiting_for_consent() {
    assert_eq!(consent_wait_reply(&keep_alive_frame(false, Some(7))), Some(Some(7)));
    assert_eq!(consent_wait_reply(&keep_alive_frame(true, Some(7))), None);
    assert_eq!(consent_wait_reply(&offline_v1(OfflineFrameType::Disconnection)), None);
    assert_eq!(consent_wait_reply(&OfflineFrame::default()), None);
}

#[test]
fn copies_and_texts_get_predictable_names() {
    assert_eq!(numbered_file_name("photo", Some("jpg"), 2), "photo (2).jpg");
    assert_eq!(numbered_file_name("README", None, 10), "README (10)");
    assert_eq!(text_file_name(1700000000, TextType::Url), "Quick Share 1700000000.url.txt");
    assert_eq!(text_file_name(0, TextType::Text), "Quick Share 0.txt");
}
