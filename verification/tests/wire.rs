use hirodrop_core::quick_share_wire::{
    offline_v1, ConnectionRequestFrame, FileMetadata, IntroductionFrame, OfflineFrame,
    OfflineFrameType, PayloadChunk, SharingFrame, SharingFrameType, TextMetadata,
};

#[test]
fn protobuf_round_trip_preserves_quick_share_file_metadata() {
    let metadata = FileMetadata {
        name: Some("報告.pdf".into()),
        payload_id: Some(42),
        size: Some(1234),
        mime_type: Some("application/pdf".into()),
        ..Default::default()
    };
    let encoded = metadata.encode_to_vec();
    assert_eq!(FileMetadata::decode(encoded.as_slice()).unwrap(), metadata);
}

#[test]
fn file_metadata_encoding_matches_the_wire_format() {
    let metadata = FileMetadata {
        name: Some("a".into()),
        payload_id: Some(300),
        ..Default::default()
    };
    assert_eq!(
        metadata.encode_to_vec(),
        vec![0x0a, 0x01, b'a', 0x18, 0xac, 0x02]
    );
}

#[test]
fn negative_int32_uses_ten_byte_varint() {
    let chunk = PayloadChunk {
        flags: Some(-1),
        ..Default::default()
    };
    let bytes = chunk.encode_to_vec();
    assert_eq!(
        bytes,
        vec![0x08, 0xff, 0xff, 0xff, 0xff, 0xff, 0xff, 0xff, 0xff, 0xff, 0x01]
    );
    assert_eq!(PayloadChunk::decode(&bytes).unwrap().flags, Some(-1));
}

#[test]
fn repeated_enumerations_are_packed_and_accept_both_forms() {
    let request = ConnectionRequestFrame {
        mediums: vec![5, 1],
        ..Default::default()
    };
    assert_eq!(request.encode_to_vec(), vec![0x2a, 0x02, 0x05, 0x01]);
    let unpacked = [0x28, 0x05, 0x28, 0x01];
    assert_eq!(
        ConnectionRequestFrame::decode(&unpacked).unwrap().mediums,
        vec![5, 1]
    );
}

#[test]
fn unknown_fields_and_groups_are_skipped() {
    // field 15 varint, field 14 fixed32, field 13 group holding a varint.
    let mut bytes = vec![0x78, 0x07, 0x75, 1, 2, 3, 4, 0x6b, 0x08, 0x01, 0x6c];
    bytes.extend_from_slice(&[0x0a, 0x01, b'x']);
    let decoded = FileMetadata::decode(&bytes).unwrap();
    assert_eq!(decoded.name.as_deref(), Some("x"));
    assert_eq!(decoded.payload_id, None);
}

#[test]
fn malformed_input_is_rejected() {
    // truncated length-delimited field
    assert!(FileMetadata::decode(&[0x0a, 0x05, b'a']).is_err());
    // field number zero
    assert!(FileMetadata::decode(&[0x00, 0x01]).is_err());
    // wrong wire type for a known field
    assert!(FileMetadata::decode(&[0x0d, 1, 2, 3, 4]).is_err());
    // invalid UTF-8 in a string field
    assert!(FileMetadata::decode(&[0x0a, 0x01, 0xff]).is_err());
    // an end-group key without a group
    assert!(FileMetadata::decode(&[0x0c]).is_err());
    // eleven-byte varint
    assert!(FileMetadata::decode(&[0x18, 0xff, 0xff, 0xff, 0xff, 0xff, 0xff, 0xff, 0xff, 0xff, 0xff, 0x01]).is_err());
}

#[test]
fn later_scalar_wins_and_messages_merge() {
    let bytes = [0x18, 0x01, 0x18, 0x02];
    assert_eq!(FileMetadata::decode(&bytes).unwrap().payload_id, Some(2));
    // Two v1 fields of an offline frame merge: frame type from the first,
    // then a keep-alive from the second.
    let first = offline_v1(OfflineFrameType::KeepAlive).encode_to_vec();
    let mut second = OfflineFrame::default();
    second.v1 = Some(Default::default());
    second.v1.as_mut().unwrap().keep_alive = Some(Default::default());
    let mut merged = first.clone();
    merged.extend_from_slice(&second.encode_to_vec());
    let decoded = OfflineFrame::decode(&merged).unwrap();
    let v1 = decoded.v1.unwrap();
    assert_eq!(v1.frame_type, Some(OfflineFrameType::KeepAlive.to_i32()));
    assert!(v1.keep_alive.is_some());
}

#[test]
fn introduction_round_trip_with_nested_lists() {
    let mut frame = hirodrop_core::quick_share_wire::sharing_v1(SharingFrameType::Introduction);
    frame.v1.as_mut().unwrap().introduction = Some(IntroductionFrame {
        file_metadata: vec![
            FileMetadata {
                name: Some("one.png".into()),
                payload_id: Some(7),
                size: Some(3),
                ..Default::default()
            },
            FileMetadata {
                name: Some("two.txt".into()),
                payload_id: Some(-8),
                ..Default::default()
            },
        ],
        text_metadata: vec![TextMetadata {
            text_title: Some("note".into()),
            size: Some(4),
            ..Default::default()
        }],
        preview_payload_ids: vec![1, -2, 3],
        ..Default::default()
    });
    let bytes = frame.encode_to_vec();
    assert_eq!(SharingFrame::decode(&bytes).unwrap(), frame);
}

#[test]
fn enumeration_numbers() {
    assert_eq!(OfflineFrameType::PayloadTransfer.to_i32(), 3);
    assert_eq!(
        OfflineFrameType::try_from_i32(12),
        Some(OfflineFrameType::BandwidthUpgradeRetry)
    );
    assert_eq!(OfflineFrameType::try_from_i32(13), None);
}
