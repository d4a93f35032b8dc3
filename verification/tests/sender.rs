use hirodrop_core::quick_share_frames::{bytes_chunk_frame, disconnection_frame, keep_alive_frame, LAST_CHUNK};
use hirodrop_core::quick_share_sender::{
    check_connection_response, check_sharing_response, classify_file, connection_request,
    file_chunk_frame, finalize_read_failure, finalize_step, fresh_payload_id, introduction_frame,
    pending_frame_step, prepare_outgoing, sharing_step, BytesAssembler, FileCandidate, FinalizeStep,
    OutgoingFile, PendingStep, QuickShareSendError, SharingStep, MAX_SELECTED_FILES,
};
use hirodrop_core::quick_share_transport::{FrameIoError, IoErrorKind, IoFailure};
use hirodrop_core::quick_share_wire::{
    offline_v1, sharing_v1, ConnectionResponseFrame, ConnectionResponseStatus, FileType, OfflineFrame,
    OfflineFrameType, PayloadChunk, PayloadHeader, PayloadTransferFrame, PayloadType,
    SharingConnectionResponse, SharingFrameType, SharingResponseStatus,
};

fn candidate(name: &str, size: u64) -> FileCandidate<String> {
    FileCandidate {
        path: format!("/tmp/{name}"),
        display: format!("/tmp/{name}"),
        parent_folder: None,
        is_file: true,
        size,
        name: Some(name.to_string()),
        last_modified_millis: 1_700_000_000_000,
    }
}

#[test]
fn common_extensions_get_android_friendly_metadata() {
    assert_eq!(classify_file("photo.JPG"), (FileType::Image, "image/jpeg"));
    assert_eq!(classify_file("archive.bin"), (FileType::Unknown, "application/octet-stream"));
}

#[test]
fn extensions_follow_the_last_dot_only() {
    assert_eq!(classify_file("movie.tar.MP4"), (FileType::Video, "video/mp4"));
    assert_eq!(classify_file(".png"), (FileType::Unknown, "application/octet-stream"));
    assert_eq!(classify_file("README"), (FileType::Unknown, "application/octet-stream"));
    assert_eq!(classify_file("report.pdf"), (FileType::Document, "application/pdf"));
    assert_eq!(classify_file("song.mp3"), (FileType::Audio, "audio/mpeg"));
    assert_eq!(classify_file("app.apk"), (FileType::AndroidApp, "application/vnd.android.package-archive"));
}

#[test]
fn outgoing_attachment_ids_are_positive_and_unique() {
    let files = prepare_outgoing(vec![candidate("first.png", 3), candidate("second.png", 3)]).unwrap();
    assert!(files.iter().all(|file| file.payload_id > 0));
    assert_ne!(files[0].payload_id, files[1].payload_id);
    assert_eq!(files[0].name, "first.png");
    assert_eq!(files[0].file_type, FileType::Image);
    assert_eq!(files[0].mime_type, "image/png");
}

#[test]
fn selection_errors_name_the_first_problem() {
    assert!(matches!(
        prepare_outgoing::<String>(Vec::new()),
        Err(QuickShareSendError::InvalidFile(m)) if m == "the selected folders contain no files"
    ));
    let mut folder = candidate("dir", 0);
    folder.is_file = false;
    assert!(matches!(
        prepare_outgoing(vec![candidate("a.txt", 1), folder]),
        Err(QuickShareSendError::InvalidFile(m)) if m == "/tmp/dir is not a regular file"
    ));
    let big = candidate("big.bin", 100 * 1024 * 1024 * 1024);
    assert!(matches!(
        prepare_outgoing(vec![candidate("a.txt", 1), big]),
        Err(QuickShareSendError::TransferTooLarge)
    ));
    let mut nameless = candidate("x", 1);
    nameless.name = None;
    assert!(matches!(
        prepare_outgoing(vec![nameless]),
        Err(QuickShareSendError::InvalidFile(m)) if m == "/tmp/x"
    ));
    let many: Vec<_> = (0..MAX_SELECTED_FILES + 1).map(|_| candidate("a", 0)).collect();
    assert!(matches!(
        prepare_outgoing(many),
        Err(QuickShareSendError::InvalidFile(m)) if m == "more than 10,000 files were selected"
    ));
}

#[test]
fn fresh_ids_avoid_those_in_use() {
    let used = vec![1, 2, 3];
    let id = fresh_payload_id(&used);
    assert!(id > 0);
    assert!(!used.contains(&id));
}

#[test]
fn connection_request_carries_the_name_and_a_laptop_record() {
    let frame = connection_request("Desk").unwrap();
    let request = frame.v1.unwrap().connection_request.unwrap();
    assert_eq!(request.endpoint_name, Some(b"Desk".to_vec()));
    let info = request.endpoint_info.unwrap();
    assert_eq!(info.len(), 17 + 1 + 4);
    assert_eq!(info[17], 4);
    assert_eq!(&info[18..], b"Desk");
    assert_eq!(request.endpoint_id.unwrap().len(), 4);
    assert!(matches!(connection_request(""), Err(QuickShareSendError::Protocol("invalid desktop device name"))));
}

fn outgoing(name: &str, id: i64, size: u64, folder: Option<&str>) -> OutgoingFile<()> {
    OutgoingFile {
        path: (),
        name: name.into(),
        parent_folder: folder.map(Into::into),
        size,
        payload_id: id,
        file_type: FileType::Document,
        mime_type: "text/plain",
        last_modified_timestamp_millis: 5,
    }
}

#[test]
fn introduction_lists_every_file() {
    let files = vec![outgoing("a.txt", 11, 3, None), outgoing("b.txt", 12, 4, Some("docs"))];
    let frame = introduction_frame(&files);
    let introduction = frame.v1.unwrap().introduction.unwrap();
    assert_eq!(introduction.file_metadata.len(), 2);
    assert_eq!(introduction.file_metadata[0].name.as_deref(), Some("a.txt"));
    assert_eq!(introduction.file_metadata[1].payload_id, Some(12));
    assert_eq!(introduction.file_metadata[1].size, Some(4));
    assert_eq!(introduction.file_metadata[1].parent_folder.as_deref(), Some("docs"));
}

#[test]
fn file_chunks_carry_offset_body_and_last_flag() {
    let file = outgoing("a.txt", 11, 3, None);
    let frame = file_chunk_frame(&file, 2, b"z", true);
    let transfer = frame.v1.unwrap().payload_transfer.unwrap();
    let header = transfer.payload_header.unwrap();
    assert_eq!(header.id, Some(11));
    assert_eq!(header.total_size, Some(3));
    assert_eq!(header.parent_folder.as_deref(), Some(""));
    let chunk = transfer.payload_chunk.unwrap();
    assert_eq!(chunk.offset, Some(2));
    assert_eq!(chunk.flags, Some(LAST_CHUNK));
    assert_eq!(chunk.body, Some(b"z".to_vec()));
}

fn response_frame(response: Option<i32>, version: Option<i32>) -> OfflineFrame {
    let mut frame = offline_v1(OfflineFrameType::ConnectionResponse);
    frame.v1.as_mut().unwrap().connection_response = Some(ConnectionResponseFrame {
        response,
        safe_to_disconnect_version: version,
        ..Default::default()
    });
    frame
}

#[test]
fn connection_response_must_accept() {
    let accept = Some(ConnectionResponseStatus::Accept.to_i32());
    assert_eq!(check_connection_response(&response_frame(accept, Some(1))).unwrap(), 1);
    assert_eq!(check_connection_response(&response_frame(accept, None)).unwrap(), 0);
    assert!(matches!(
        check_connection_response(&response_frame(Some(ConnectionResponseStatus::Reject.to_i32()), None)),
        Err(QuickShareSendError::Protocol("phone rejected the LAN connection"))
    ));
    assert!(matches!(
        check_connection_response(&offline_v1(OfflineFrameType::KeepAlive)),
        Err(QuickShareSendError::Protocol("unexpected offline frame type"))
    ));
}

#[test]
fn sharing_response_must_accept() {
    let mut accepted = sharing_v1(SharingFrameType::Response);
    accepted.v1.as_mut().unwrap().connection_response =
        Some(SharingConnectionResponse { status: Some(SharingResponseStatus::Accept.to_i32()) });
    assert!(check_sharing_response(&accepted).is_ok());
    let mut rejected = sharing_v1(SharingFrameType::Response);
    rejected.v1.as_mut().unwrap().connection_response =
        Some(SharingConnectionResponse { status: Some(SharingResponseStatus::Reject.to_i32()) });
    assert!(matches!(check_sharing_response(&rejected), Err(QuickShareSendError::Rejected)));
    assert!(matches!(
        check_sharing_response(&sharing_v1(SharingFrameType::Introduction)),
        Err(QuickShareSendError::Protocol("unexpected sharing frame type"))
    ));
}

fn byte_transfer(id: i64, total: i64, offset: i64, flags: i32, body: Option<Vec<u8>>) -> PayloadTransferFrame {
    PayloadTransferFrame {
        packet_type: None,
        payload_header: Some(PayloadHeader {
            id: Some(id),
            payload_type: Some(PayloadType::Bytes.to_i32()),
            total_size: Some(total),
            ..Default::default()
        }),
        payload_chunk: Some(PayloadChunk { flags: Some(flags), offset: Some(offset), body, index: None }),
    }
}

#[test]
fn sender_assembler_joins_chunks_and_refuses_gaps() {
    let mut assembler = BytesAssembler::new();
    assert!(assembler.push(&byte_transfer(1, 3, 0, 0, Some(vec![1, 2]))).unwrap().is_none());
    assert_eq!(assembler.push(&byte_transfer(1, 3, 2, LAST_CHUNK, Some(vec![3]))).unwrap(), Some(vec![1, 2, 3]));
    assert!(matches!(
        assembler.push(&byte_transfer(2, 3, 1, 0, Some(vec![1]))),
        Err(QuickShareSendError::Protocol("unexpected byte payload offset"))
    ));
    assert!(matches!(
        assembler.push(&byte_transfer(3, 3, 0, LAST_CHUNK, Some(vec![1]))),
        Err(QuickShareSendError::Protocol("incomplete byte payload"))
    ));
}

#[test]
fn sender_reads_sharing_frames_from_byte_payloads() {
    let frame = sharing_v1(SharingFrameType::PairedKeyResult);
    let body = frame.encode_to_vec();
    let first = bytes_chunk_frame(8, body.len() as i64, 0, 0, Some(body.clone()));
    let last = bytes_chunk_frame(8, body.len() as i64, LAST_CHUNK, body.len() as i64, None);
    let mut assembler = BytesAssembler::new();
    assert!(matches!(sharing_step(&mut assembler, &first), Ok(SharingStep::Continue)));
    match sharing_step(&mut assembler, &last) {
        Ok(SharingStep::Frame(f)) => assert_eq!(f, frame),
        other => panic!("unexpected {other:?}"),
    }
    assert!(matches!(
        sharing_step(&mut assembler, &keep_alive_frame(false, Some(3))),
        Ok(SharingStep::AckKeepAlive(Some(3)))
    ));
    assert!(matches!(
        sharing_step(&mut assembler, &offline_v1(OfflineFrameType::Disconnection)),
        Err(QuickShareSendError::Protocol("phone disconnected"))
    ));
}

#[test]
fn pending_frames_answer_keep_alives_and_stop_on_disconnect() {
    assert_eq!(pending_frame_step(&keep_alive_frame(false, Some(9))).unwrap(), PendingStep::AckKeepAlive(Some(9)));
    assert_eq!(pending_frame_step(&keep_alive_frame(true, Some(9))).unwrap(), PendingStep::Continue);
    assert_eq!(pending_frame_step(&OfflineFrame::default()).unwrap(), PendingStep::Continue);
    assert!(matches!(
        pending_frame_step(&offline_v1(OfflineFrameType::Disconnection)),
        Err(QuickShareSendError::Protocol("receiver disconnected during transfer"))
    ));
}

#[test]
fn finalize_waits_for_the_receivers_disconnection() {
    assert_eq!(finalize_step(&disconnection_frame(true, false)), FinalizeStep::Finished { reply_ack: true });
    assert_eq!(finalize_step(&disconnection_frame(true, true)), FinalizeStep::Finished { reply_ack: false });
    assert_eq!(finalize_step(&disconnection_frame(false, false)), FinalizeStep::Finished { reply_ack: false });
    assert_eq!(finalize_step(&keep_alive_frame(false, None)), FinalizeStep::AckKeepAlive(None));
    assert_eq!(finalize_step(&offline_v1(OfflineFrameType::PayloadTransfer)), FinalizeStep::Continue);
}

fn read_failure(kind: IoErrorKind) -> QuickShareSendError {
    QuickShareSendError::Frame(FrameIoError::Io(IoFailure { kind, message: String::new() }))
}

#[test]
fn a_closed_connection_after_the_last_chunk_is_success() {
    assert!(finalize_read_failure(read_failure(IoErrorKind::UnexpectedEof)).is_ok());
    assert!(finalize_read_failure(read_failure(IoErrorKind::ConnectionReset)).is_ok());
    assert!(matches!(
        finalize_read_failure(read_failure(IoErrorKind::TimedOut)),
        Err(QuickShareSendError::Protocol("receiver did not confirm that the file was committed"))
    ));
    assert!(matches!(
        finalize_read_failure(read_failure(IoErrorKind::BrokenPipe)),
        Err(QuickShareSendError::Frame(FrameIoError::Io(IoFailure { kind: IoErrorKind::BrokenPipe, .. })))
    ));
    assert!(matches!(finalize_read_failure(QuickShareSendError::Rejected), Err(QuickShareSendError::Rejected)));
}

#[test]
fn only_transient_failures_are_retried() {
    assert!(read_failure(IoErrorKind::Other).is_retryable());
    assert!(QuickShareSendError::Protocol("x").is_retryable());
    assert!(!QuickShareSendError::Rejected.is_retryable());
    assert!(!QuickShareSendError::TransferTooLarge.is_retryable());
    assert!(!QuickShareSendError::InvalidFile(String::new()).is_retryable());
}
