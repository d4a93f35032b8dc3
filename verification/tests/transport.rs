use hirodrop_core::quick_share_transport::{
    frame_header, frame_length, read_frame, write_frame, FrameIoError, IoErrorKind, IoFailure,
    MAX_WIRE_FRAME_BYTES,
};
use std::io::Cursor;

#[test]
fn frame_round_trip_is_big_endian() {
    let mut wire = Vec::new();
    write_frame(&mut wire, b"hello").unwrap();
    assert_eq!(&wire[..4], &[0, 0, 0, 5]);
    assert_eq!(read_frame(&mut Cursor::new(wire)).unwrap(), b"hello");
}

#[test]
fn oversized_frame_is_rejected_before_allocation() {
    let wire = ((MAX_WIRE_FRAME_BYTES + 1) as u32).to_be_bytes();
    assert!(matches!(
        read_frame(&mut Cursor::new(wire)),
        Err(FrameIoError::InvalidLength(_))
    ));
}

#[test]
fn empty_frames_are_refused_both_ways() {
    let mut wire = Vec::new();
    assert!(matches!(
        write_frame(&mut wire, b""),
        Err(FrameIoError::InvalidLength(0))
    ));
    assert!(wire.is_empty());
    assert!(matches!(
        read_frame(&mut Cursor::new(vec![0, 0, 0, 0])),
        Err(FrameIoError::InvalidLength(0))
    ));
}

#[test]
fn truncated_body_is_an_unexpected_eof() {
    let error = read_frame(&mut Cursor::new(vec![0, 0, 0, 9, 1, 2])).unwrap_err();
    assert!(error.is_peer_disconnect());
    match error {
        FrameIoError::Io(failure) => assert_eq!(failure.kind, IoErrorKind::UnexpectedEof),
        FrameIoError::InvalidLength(_) => panic!("expected an I/O error"),
    }
}

#[test]
fn length_prefix_values() {
    assert_eq!(frame_length([0, 0, 1, 0]).unwrap(), 256);
    assert_eq!(frame_length([0, 0x50, 0, 0]).unwrap(), MAX_WIRE_FRAME_BYTES);
    assert!(matches!(
        frame_length([0, 0x50, 0, 1]),
        Err(FrameIoError::InvalidLength(5242881))
    ));
    assert_eq!(frame_header(0x010203).unwrap(), [0, 1, 2, 3]);
    assert!(matches!(
        frame_header(MAX_WIRE_FRAME_BYTES + 1),
        Err(FrameIoError::InvalidLength(_))
    ));
}

#[test]
fn only_disconnect_kinds_count_as_peer_disconnect() {
    let failure = |kind| {
        FrameIoError::Io(IoFailure {
            kind,
            message: String::new(),
        })
    };
    assert!(failure(IoErrorKind::ConnectionReset).is_peer_disconnect());
    assert!(failure(IoErrorKind::BrokenPipe).is_peer_disconnect());
    assert!(!failure(IoErrorKind::WouldBlock).is_peer_disconnect());
    assert!(!FrameIoError::InvalidLength(0).is_peer_disconnect());
}
