//! The Nearby Connections and Nearby Sharing frames that both the sender and
//! the receiver write, and the frame-type checks they apply to what they read.

use vstd::prelude::*;
use crate::quick_share_wire::{
    offline_v1, sharing_v1, ConnectionResponseFrame, ConnectionResponseFrameModel,
    ConnectionResponseStatus, DisconnectionFrame, DisconnectionFrameModel, KeepAliveFrame,
    KeepAliveFrameModel, OfflineFrame, OfflineFrameModel, OfflineFrameType, OfflineV1FrameModel,
    OfflineVersion, OsInfo, OsInfoModel, OsType, PairedKeyStatus, PayloadChunk, PayloadChunkModel,
    PayloadHeader, PayloadHeaderModel, PayloadPacketType, PayloadTransferFrame,
    PayloadTransferFrameModel, PayloadType, SharingConnectionResponse, SharingConnectionResponseModel,
    SharingFrame, SharingFrameModel, SharingFrameType, SharingPairedKeyEncryption,
    SharingPairedKeyEncryptionModel, SharingPairedKeyResult, SharingPairedKeyResultModel,
    SharingResponseStatus, SharingV1FrameModel, SharingVersion,
};
use crate::wire_format::opt_bytes_view;

verus! {

/// Flag of the last chunk of a payload.
pub const LAST_CHUNK: i32 = 1;

/// The frame type of an offline frame, if it has a version-1 part.
pub open spec fn offline_type_of(frame: OfflineFrameModel) -> Option<i32> {
    match frame.v1 {
        Some(v1) => v1.frame_type,
        None => None,
    }
}

/// The frame type of a sharing frame, if it has a version-1 part.
pub open spec fn sharing_type_of(frame: SharingFrameModel) -> Option<i32> {
    match frame.v1 {
        Some(v1) => v1.frame_type,
        None => None,
    }
}

/// Whether an offline frame has the expected type.
pub fn offline_type_is(frame: &OfflineFrame, expected: OfflineFrameType) -> (r: bool)
    ensures
        r == (offline_type_of(frame@) == Some(expected.code())),
{
    match &frame.v1 {
        Some(v1) => v1.frame_type == Some(expected.to_i32()),
        None => false,
    }
}

/// Whether a sharing frame has the expected type.
pub fn sharing_type_is(frame: &SharingFrame, expected: SharingFrameType) -> (r: bool)
    ensures
        r == (sharing_type_of(frame@) == Some(expected.code())),
{
    match &frame.v1 {
        Some(v1) => v1.frame_type == Some(expected.to_i32()),
        None => false,
    }
}

/// A version-1 offline frame of the given type carrying one part.
pub open spec fn offline_with(frame_type: OfflineFrameType, v1: OfflineV1FrameModel) -> OfflineFrameModel {
    OfflineFrameModel {
        version: Some(OfflineVersion::V1.code()),
        v1: Some(OfflineV1FrameModel { frame_type: Some(frame_type.code()), ..v1 }),
    }
}

/// A version-1 sharing frame of the given type carrying one part.
pub open spec fn sharing_with(frame_type: SharingFrameType, v1: SharingV1FrameModel) -> SharingFrameModel {
    SharingFrameModel {
        version: Some(SharingVersion::V1.code()),
        v1: Some(SharingV1FrameModel { frame_type: Some(frame_type.code()), ..v1 }),
    }
}

/// The plain connection response that accepts the connection, announcing
/// the local operating system, safe-to-disconnect version 1 and a ten-minute
/// keep-alive timeout.
pub open spec fn connection_accept_model(os_type: OsType) -> OfflineFrameModel {
    offline_with(
        OfflineFrameType::ConnectionResponse,
        OfflineV1FrameModel {
            connection_response: Some(
                ConnectionResponseFrameModel {
                    status: Some(0),
                    handshake_data: None,
                    response: Some(ConnectionResponseStatus::Accept.code()),
                    os_info: Some(OsInfoModel { os_type: Some(os_type.code()) }),
                    multiplex_socket_bitmask: Some(0),
                    nearby_connections_version: None,
                    safe_to_disconnect_version: Some(1),
                    keep_alive_timeout_millis: Some(600000),
                },
            ),
            ..OfflineV1FrameModel::empty()
        },
    )
}

/// The plain connection response that accepts the connection.
pub fn connection_accept_frame(os_type: OsType) -> (r: OfflineFrame)
    ensures
        r@ == connection_accept_model(os_type),
{
    let mut frame = offline_v1(OfflineFrameType::ConnectionResponse);
    let response = ConnectionResponseFrame {
        status: Some(0),
        handshake_data: None,
        response: Some(ConnectionResponseStatus::Accept.to_i32()),
        os_info: Some(OsInfo { os_type: Some(os_type.to_i32()) }),
        multiplex_socket_bitmask: Some(0),
        nearby_connections_version: None,
        safe_to_disconnect_version: Some(1),
        keep_alive_timeout_millis: Some(600000),
    };
    match frame.v1 {
        Some(mut v1) => {
            v1.connection_response = Some(response);
            frame.v1 = Some(v1);
        },
        None => {},
    }
    assert(frame@ =~= connection_accept_model(os_type));
    frame
}

/// A keep-alive frame: an acknowledgement (`ack`) or a request, with the
/// sequence number it answers.
pub open spec fn keep_alive_model(ack: bool, seq_num: Option<u32>) -> OfflineFrameModel {
    offline_with(
        OfflineFrameType::KeepAlive,
        OfflineV1FrameModel {
            keep_alive: Some(KeepAliveFrameModel { ack: Some(ack), seq_num }),
            ..OfflineV1FrameModel::empty()
        },
    )
}

/// A keep-alive frame.
pub fn keep_alive_frame(ack: bool, seq_num: Option<u32>) -> (r: OfflineFrame)
    ensures
        r@ == keep_alive_model(ack, seq_num),
{
    let mut frame = offline_v1(OfflineFrameType::KeepAlive);
    match frame.v1 {
        Some(mut v1) => {
            v1.keep_alive = Some(KeepAliveFrame { ack: Some(ack), seq_num });
            frame.v1 = Some(v1);
        },
        None => {},
    }
    assert(frame@ =~= keep_alive_model(ack, seq_num));
    frame
}

/// A disconnection frame with its safe-to-disconnect request and
/// acknowledgement flags.
pub open spec fn disconnection_model(request: bool, ack: bool) -> OfflineFrameModel {
    offline_with(
        OfflineFrameType::Disconnection,
        OfflineV1FrameModel {
            disconnection: Some(
                DisconnectionFrameModel { request_safe_to_disconnect: Some(request), ack_safe_to_disconnect: Some(ack) },
            ),
            ..OfflineV1FrameModel::empty()
        },
    )
}

/// A disconnection frame with its safe-to-disconnect flags.
pub fn disconnection_frame(request: bool, ack: bool) -> (r: OfflineFrame)
    ensures
        r@ == disconnection_model(request, ack),
{
    let mut frame = offline_v1(OfflineFrameType::Disconnection);
    match frame.v1 {
        Some(mut v1) => {
            v1.disconnection = Some(
                DisconnectionFrame { request_safe_to_disconnect: Some(request), ack_safe_to_disconnect: Some(ack) },
            );
            frame.v1 = Some(v1);
        },
        None => {},
    }
    assert(frame@ =~= disconnection_model(request, ack));
    frame
}

/// The paired-key encryption frame with random signed data and secret-ID
/// hash, and the QR signature when there is one.
pub open spec fn paired_key_encryption_model(signed_data: Seq<u8>, secret_id_hash: Seq<u8>, qr_signature: Option<Seq<u8>>) -> SharingFrameModel {
    sharing_with(
        SharingFrameType::PairedKeyEncryption,
        SharingV1FrameModel {
            paired_key_encryption: Some(
                SharingPairedKeyEncryptionModel {
                    signed_data: Some(signed_data),
                    secret_id_hash: Some(secret_id_hash),
                    optional_signed_data: None,
                    qr_code_handshake_data: qr_signature,
                },
            ),
            ..SharingV1FrameModel::empty()
        },
    )
}

/// The paired-key encryption frame.
pub fn paired_key_encryption_frame(signed_data: Vec<u8>, secret_id_hash: Vec<u8>, qr_signature: Option<Vec<u8>>) -> (r: SharingFrame)
    ensures
        r@ == paired_key_encryption_model(signed_data@, secret_id_hash@, opt_bytes_view(qr_signature)),
{
    let ghost signed_view = signed_data@;
    let ghost hash_view = secret_id_hash@;
    let ghost qr_view = opt_bytes_view(qr_signature);
    let mut frame = sharing_v1(SharingFrameType::PairedKeyEncryption);
    match frame.v1 {
        Some(mut v1) => {
            v1.paired_key_encryption = Some(
                SharingPairedKeyEncryption {
                    signed_data: Some(signed_data),
                    secret_id_hash: Some(secret_id_hash),
                    optional_signed_data: None,
                    qr_code_handshake_data: qr_signature,
                },
            );
            frame.v1 = Some(v1);
        },
        None => {},
    }
    assert(frame@ =~= paired_key_encryption_model(signed_view, hash_view, qr_view));
    frame
}

/// The paired-key result frame: the peer's identity could not be checked,
/// with the local operating system when it is announced.
pub open spec fn paired_key_result_model(os_type: Option<i32>) -> SharingFrameModel {
    sharing_with(
        SharingFrameType::PairedKeyResult,
        SharingV1FrameModel {
            paired_key_result: Some(
                SharingPairedKeyResultModel { status: Some(PairedKeyStatus::Unable.code()), os_type },
            ),
            ..SharingV1FrameModel::empty()
        },
    )
}

/// The paired-key result frame.
pub fn paired_key_result_frame(os_type: Option<i32>) -> (r: SharingFrame)
    ensures
        r@ == paired_key_result_model(os_type),
{
    let mut frame = sharing_v1(SharingFrameType::PairedKeyResult);
    match frame.v1 {
        Some(mut v1) => {
            v1.paired_key_result = Some(
                SharingPairedKeyResult { status: Some(PairedKeyStatus::Unable.to_i32()), os_type },
            );
            frame.v1 = Some(v1);
        },
        None => {},
    }
    assert(frame@ =~= paired_key_result_model(os_type));
    frame
}

/// The sharing response that accepts or rejects the offered transfer.
pub open spec fn sharing_response_model(status: SharingResponseStatus) -> SharingFrameModel {
    sharing_with(
        SharingFrameType::Response,
        SharingV1FrameModel {
            connection_response: Some(SharingConnectionResponseModel { status: Some(status.code()) }),
            ..SharingV1FrameModel::empty()
        },
    )
}

/// The sharing response frame.
pub fn sharing_response_frame(status: SharingResponseStatus) -> (r: SharingFrame)
    ensures
        r@ == sharing_response_model(status),
{
    let mut frame = sharing_v1(SharingFrameType::Response);
    match frame.v1 {
        Some(mut v1) => {
            v1.connection_response = Some(SharingConnectionResponse { status: Some(status.to_i32()) });
            frame.v1 = Some(v1);
        },
        None => {},
    }
    assert(frame@ =~= sharing_response_model(status));
    frame
}

/// One chunk of a byte payload carrying a sharing frame: `total` bytes in
/// all, this chunk at `offset` with the given flags and body.
pub open spec fn bytes_chunk_model(payload_id: i64, total: i64, flags: i32, offset: i64, body: Option<Seq<u8>>) -> OfflineFrameModel {
    offline_with(
        OfflineFrameType::PayloadTransfer,
        OfflineV1FrameModel {
            payload_transfer: Some(
                PayloadTransferFrameModel {
                    packet_type: Some(PayloadPacketType::Data.code()),
                    payload_header: Some(
                        PayloadHeaderModel {
                            id: Some(payload_id),
                            payload_type: Some(PayloadType::Bytes.code()),
                            total_size: Some(total),
                            is_sensitive: Some(false),
                            file_name: None,
                            parent_folder: None,
                            last_modified_timestamp_millis: None,
                        },
                    ),
                    payload_chunk: Some(PayloadChunkModel { flags: Some(flags), offset: Some(offset), body, index: None }),
                },
            ),
            ..OfflineV1FrameModel::empty()
        },
    )
}

/// One chunk of a byte payload.
pub fn bytes_chunk_frame(payload_id: i64, total: i64, flags: i32, offset: i64, body: Option<Vec<u8>>) -> (r: OfflineFrame)
    ensures
        r@ == bytes_chunk_model(payload_id, total, flags, offset, opt_bytes_view(body)),
{
    let ghost body_view = opt_bytes_view(body);
    let mut frame = offline_v1(OfflineFrameType::PayloadTransfer);
    let transfer = PayloadTransferFrame {
        packet_type: Some(PayloadPacketType::Data.to_i32()),
        payload_header: Some(
            PayloadHeader {
                id: Some(payload_id),
                payload_type: Some(PayloadType::Bytes.to_i32()),
                total_size: Some(total),
                is_sensitive: Some(false),
                file_name: None,
                parent_folder: None,
                last_modified_timestamp_millis: None,
            },
        ),
        payload_chunk: Some(PayloadChunk { flags: Some(flags), offset: Some(offset), body, index: None }),
    };
    match frame.v1 {
        Some(mut v1) => {
            v1.payload_transfer = Some(transfer);
            frame.v1 = Some(v1);
        },
        None => {},
    }
    assert(frame@ =~= bytes_chunk_model(payload_id, total, flags, offset, body_view));
    frame
}

} // verus!
