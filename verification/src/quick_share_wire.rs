//! Protocol Buffers messages of Nearby Connections, UKEY2, SecureMessage and
//! Quick Share sharing frames.
//!
//! Field numbers and enumeration values follow the published protocol
//! definitions. Unknown fields are ignored when decoding, so newer senders stay
//! compatible.

use vstd::prelude::*;
use vstd::seq_lib::lemma_concat_associative;
use crate::wire_format::{
    all_encodable, bytes_record, extend_i32, extend_i64, fields_bytes, fields_view, i32s_as_u64,
    i32s_to_u64, i64s_as_u64, i64s_to_u64, lemma_fields_bytes_append, lemma_fields_bytes_single,
    lemma_i32_round_trip, lemma_i32s_round_trip, lemma_i64_round_trip, lemma_i64s_round_trip,
    lemma_packed_round_trip, lemma_parse_fields_bytes, lemma_rep_bytes_records_push,
    lemma_string_round_trip, lemma_u32_round_trip, opt_bool_records, opt_bytes_records,
    opt_bytes_view, opt_i32_records, opt_i64_records, opt_str_records, opt_str_view,
    opt_u32_records, packed_records, parse_fields, payload_of, put_bytes_field, put_opt_bool,
    put_opt_bytes, put_opt_i32, put_opt_i64, put_opt_str, put_opt_u32, put_packed,
    put_req_bytes, read_fields, rep_bytes_records, repeated_values, req_bytes_records,
    string_of, u64s_as_i32, u64s_as_i64, varint_of, wire_bool, wire_bytes, wire_i32, wire_i64,
    wire_repeated, wire_string, wire_u32, DecodeError, Field, FieldModel, WireValue,
    RECURSION_BUDGET,
};

verus! {

/// Wire values of `OfflineVersion`.
#[derive(Clone, Copy, Debug, PartialEq, Eq, Structural)]
pub enum OfflineVersion {
    Unknown,
    V1,
}

impl OfflineVersion {
    /// The number this value has on the wire.
    pub open spec fn code(self) -> i32 {
        match self {
            OfflineVersion::Unknown => 0,
            OfflineVersion::V1 => 1,
        }
    }

    pub fn to_i32(self) -> (v: i32)
        ensures
            v == self.code(),
    {
        match self {
            OfflineVersion::Unknown => 0,
            OfflineVersion::V1 => 1,
        }
    }

    /// The value with wire number `v`, if there is one.
    pub fn try_from_i32(v: i32) -> (r: Option<Self>)
        ensures
            match r {
                Some(e) => e.code() == v,
                None => forall|e: Self| e.code() != v,
            },
    {
        if v == 0 {
            Some(OfflineVersion::Unknown)
        } else if v == 1 {
            Some(OfflineVersion::V1)
        } else {
            None
        }
    }
}

/// Wire values of `OfflineFrameType`.
#[derive(Clone, Copy, Debug, PartialEq, Eq, Structural)]
pub enum OfflineFrameType {
    Unknown,
    ConnectionRequest,
    ConnectionResponse,
    PayloadTransfer,
    BandwidthUpgradeNegotiation,
    KeepAlive,
    Disconnection,
    PairedKeyEncryption,
    AuthenticationMessage,
    AuthenticationResult,
    AutoResume,
    AutoReconnect,
    BandwidthUpgradeRetry,
}

impl OfflineFrameType {
    /// The number this value has on the wire.
    pub open spec fn code(self) -> i32 {
        match self {
            OfflineFrameType::Unknown => 0,
            OfflineFrameType::ConnectionRequest => 1,
            OfflineFrameType::ConnectionResponse => 2,
            OfflineFrameType::PayloadTransfer => 3,
            OfflineFrameType::BandwidthUpgradeNegotiation => 4,
            OfflineFrameType::KeepAlive => 5,
            OfflineFrameType::Disconnection => 6,
            OfflineFrameType::PairedKeyEncryption => 7,
            OfflineFrameType::AuthenticationMessage => 8,
            OfflineFrameType::AuthenticationResult => 9,
            OfflineFrameType::AutoResume => 10,
            OfflineFrameType::AutoReconnect => 11,
            OfflineFrameType::BandwidthUpgradeRetry => 12,
        }
    }

    pub fn to_i32(self) -> (v: i32)
        ensures
            v == self.code(),
    {
        match self {
            OfflineFrameType::Unknown => 0,
            OfflineFrameType::ConnectionRequest => 1,
            OfflineFrameType::ConnectionResponse => 2,
            OfflineFrameType::PayloadTransfer => 3,
            OfflineFrameType::BandwidthUpgradeNegotiation => 4,
            OfflineFrameType::KeepAlive => 5,
            OfflineFrameType::Disconnection => 6,
            OfflineFrameType::PairedKeyEncryption => 7,
            OfflineFrameType::AuthenticationMessage => 8,
            OfflineFrameType::AuthenticationResult => 9,
            OfflineFrameType::AutoResume => 10,
            OfflineFrameType::AutoReconnect => 11,
            OfflineFrameType::BandwidthUpgradeRetry => 12,
        }
    }

    /// The value with wire number `v`, if there is one.
    pub fn try_from_i32(v: i32) -> (r: Option<Self>)
        ensures
            match r {
                Some(e) => e.code() == v,
                None => forall|e: Self| e.code() != v,
            },
    {
        if v == 0 {
            Some(OfflineFrameType::Unknown)
        } else if v == 1 {
            Some(OfflineFrameType::ConnectionRequest)
        } else if v == 2 {
            Some(OfflineFrameType::ConnectionResponse)
        } else if v == 3 {
            Some(OfflineFrameType::PayloadTransfer)
        } else if v == 4 {
            Some(OfflineFrameType::BandwidthUpgradeNegotiation)
        } else if v == 5 {
            Some(OfflineFrameType::KeepAlive)
        } else if v == 6 {
            Some(OfflineFrameType::Disconnection)
        } else if v == 7 {
            Some(OfflineFrameType::PairedKeyEncryption)
        } else if v == 8 {
            Some(OfflineFrameType::AuthenticationMessage)
        } else if v == 9 {
            Some(OfflineFrameType::AuthenticationResult)
        } else if v == 10 {
            Some(OfflineFrameType::AutoResume)
        } else if v == 11 {
            Some(OfflineFrameType::AutoReconnect)
        } else if v == 12 {
            Some(OfflineFrameType::BandwidthUpgradeRetry)
        } else {
            None
        }
    }
}

/// Wire values of `ConnectionMedium`.
#[derive(Clone, Copy, Debug, PartialEq, Eq, Structural)]
pub enum ConnectionMedium {
    Unknown,
    Mdns,
    Bluetooth,
    WifiHotspot,
    Ble,
    WifiLan,
    WifiAware,
    Nfc,
    WifiDirect,
    WebRtc,
    BleL2cap,
    Usb,
    WebRtcNonCellular,
    Awdl,
}

impl ConnectionMedium {
    /// The number this value has on the wire.
    pub open spec fn code(self) -> i32 {
        match self {
            ConnectionMedium::Unknown => 0,
            ConnectionMedium::Mdns => 1,
            ConnectionMedium::Bluetooth => 2,
            ConnectionMedium::WifiHotspot => 3,
            ConnectionMedium::Ble => 4,
            ConnectionMedium::WifiLan => 5,
            ConnectionMedium::WifiAware => 6,
            ConnectionMedium::Nfc => 7,
            ConnectionMedium::WifiDirect => 8,
            ConnectionMedium::WebRtc => 9,
            ConnectionMedium::BleL2cap => 10,
            ConnectionMedium::Usb => 11,
            ConnectionMedium::WebRtcNonCellular => 12,
            ConnectionMedium::Awdl => 13,
        }
    }

    pub fn to_i32(self) -> (v: i32)
        ensures
            v == self.code(),
    {
        match self {
            ConnectionMedium::Unknown => 0,
            ConnectionMedium::Mdns => 1,
            ConnectionMedium::Bluetooth => 2,
            ConnectionMedium::WifiHotspot => 3,
            ConnectionMedium::Ble => 4,
            ConnectionMedium::WifiLan => 5,
            ConnectionMedium::WifiAware => 6,
            ConnectionMedium::Nfc => 7,
            ConnectionMedium::WifiDirect => 8,
            ConnectionMedium::WebRtc => 9,
            ConnectionMedium::BleL2cap => 10,
            ConnectionMedium::Usb => 11,
            ConnectionMedium::WebRtcNonCellular => 12,
            ConnectionMedium::Awdl => 13,
        }
    }

    /// The value with wire number `v`, if there is one.
    pub fn try_from_i32(v: i32) -> (r: Option<Self>)
        ensures
            match r {
                Some(e) => e.code() == v,
                None => forall|e: Self| e.code() != v,
            },
    {
        if v == 0 {
            Some(ConnectionMedium::Unknown)
        } else if v == 1 {
            Some(ConnectionMedium::Mdns)
        } else if v == 2 {
            Some(ConnectionMedium::Bluetooth)
        } else if v == 3 {
            Some(ConnectionMedium::WifiHotspot)
        } else if v == 4 {
            Some(ConnectionMedium::Ble)
        } else if v == 5 {
            Some(ConnectionMedium::WifiLan)
        } else if v == 6 {
            Some(ConnectionMedium::WifiAware)
        } else if v == 7 {
            Some(ConnectionMedium::Nfc)
        } else if v == 8 {
            Some(ConnectionMedium::WifiDirect)
        } else if v == 9 {
            Some(ConnectionMedium::WebRtc)
        } else if v == 10 {
            Some(ConnectionMedium::BleL2cap)
        } else if v == 11 {
            Some(ConnectionMedium::Usb)
        } else if v == 12 {
            Some(ConnectionMedium::WebRtcNonCellular)
        } else if v == 13 {
            Some(ConnectionMedium::Awdl)
        } else {
            None
        }
    }
}

/// Wire values of `ConnectionResponseStatus`.
#[derive(Clone, Copy, Debug, PartialEq, Eq, Structural)]
pub enum ConnectionResponseStatus {
    Unknown,
    Accept,
    Reject,
}

impl ConnectionResponseStatus {
    /// The number this value has on the wire.
    pub open spec fn code(self) -> i32 {
        match self {
            ConnectionResponseStatus::Unknown => 0,
            ConnectionResponseStatus::Accept => 1,
            ConnectionResponseStatus::Reject => 2,
        }
    }

    pub fn to_i32(self) -> (v: i32)
        ensures
            v == self.code(),
    {
        match self {
            ConnectionResponseStatus::Unknown => 0,
            ConnectionResponseStatus::Accept => 1,
            ConnectionResponseStatus::Reject => 2,
        }
    }

    /// The value with wire number `v`, if there is one.
    pub fn try_from_i32(v: i32) -> (r: Option<Self>)
        ensures
            match r {
                Some(e) => e.code() == v,
                None => forall|e: Self| e.code() != v,
            },
    {
        if v == 0 {
            Some(ConnectionResponseStatus::Unknown)
        } else if v == 1 {
            Some(ConnectionResponseStatus::Accept)
        } else if v == 2 {
            Some(ConnectionResponseStatus::Reject)
        } else {
            None
        }
    }
}

/// Wire values of `OsType`.
#[derive(Clone, Copy, Debug, PartialEq, Eq, Structural)]
pub enum OsType {
    Unknown,
    Android,
    ChromeOs,
    Windows,
    Apple,
    Linux,
}

impl OsType {
    /// The number this value has on the wire.
    pub open spec fn code(self) -> i32 {
        match self {
            OsType::Unknown => 0,
            OsType::Android => 1,
            OsType::ChromeOs => 2,
            OsType::Windows => 3,
            OsType::Apple => 4,
            OsType::Linux => 100,
        }
    }

    pub fn to_i32(self) -> (v: i32)
        ensures
            v == self.code(),
    {
        match self {
            OsType::Unknown => 0,
            OsType::Android => 1,
            OsType::ChromeOs => 2,
            OsType::Windows => 3,
            OsType::Apple => 4,
            OsType::Linux => 100,
        }
    }

    /// The value with wire number `v`, if there is one.
    pub fn try_from_i32(v: i32) -> (r: Option<Self>)
        ensures
            match r {
                Some(e) => e.code() == v,
                None => forall|e: Self| e.code() != v,
            },
    {
        if v == 0 {
            Some(OsType::Unknown)
        } else if v == 1 {
            Some(OsType::Android)
        } else if v == 2 {
            Some(OsType::ChromeOs)
        } else if v == 3 {
            Some(OsType::Windows)
        } else if v == 4 {
            Some(OsType::Apple)
        } else if v == 100 {
            Some(OsType::Linux)
        } else {
            None
        }
    }
}

/// Wire values of `PayloadPacketType`.
#[derive(Clone, Copy, Debug, PartialEq, Eq, Structural)]
pub enum PayloadPacketType {
    Unknown,
    Data,
    Control,
    PayloadAck,
}

impl PayloadPacketType {
    /// The number this value has on the wire.
    pub open spec fn code(self) -> i32 {
        match self {
            PayloadPacketType::Unknown => 0,
            PayloadPacketType::Data => 1,
            PayloadPacketType::Control => 2,
            PayloadPacketType::PayloadAck => 3,
        }
    }

    pub fn to_i32(self) -> (v: i32)
        ensures
            v == self.code(),
    {
        match self {
            PayloadPacketType::Unknown => 0,
            PayloadPacketType::Data => 1,
            PayloadPacketType::Control => 2,
            PayloadPacketType::PayloadAck => 3,
        }
    }

    /// The value with wire number `v`, if there is one.
    pub fn try_from_i32(v: i32) -> (r: Option<Self>)
        ensures
            match r {
                Some(e) => e.code() == v,
                None => forall|e: Self| e.code() != v,
            },
    {
        if v == 0 {
            Some(PayloadPacketType::Unknown)
        } else if v == 1 {
            Some(PayloadPacketType::Data)
        } else if v == 2 {
            Some(PayloadPacketType::Control)
        } else if v == 3 {
            Some(PayloadPacketType::PayloadAck)
        } else {
            None
        }
    }
}

/// Wire values of `PayloadType`.
#[derive(Clone, Copy, Debug, PartialEq, Eq, Structural)]
pub enum PayloadType {
    Unknown,
    Bytes,
    File,
    Stream,
}

impl PayloadType {
    /// The number this value has on the wire.
    pub open spec fn code(self) -> i32 {
        match self {
            PayloadType::Unknown => 0,
            PayloadType::Bytes => 1,
            PayloadType::File => 2,
            PayloadType::Stream => 3,
        }
    }

    pub fn to_i32(self) -> (v: i32)
        ensures
            v == self.code(),
    {
        match self {
            PayloadType::Unknown => 0,
            PayloadType::Bytes => 1,
            PayloadType::File => 2,
            PayloadType::Stream => 3,
        }
    }

    /// The value with wire number `v`, if there is one.
    pub fn try_from_i32(v: i32) -> (r: Option<Self>)
        ensures
            match r {
                Some(e) => e.code() == v,
                None => forall|e: Self| e.code() != v,
            },
    {
        if v == 0 {
            Some(PayloadType::Unknown)
        } else if v == 1 {
            Some(PayloadType::Bytes)
        } else if v == 2 {
            Some(PayloadType::File)
        } else if v == 3 {
            Some(PayloadType::Stream)
        } else {
            None
        }
    }
}

/// Wire values of `Ukey2MessageType`.
#[derive(Clone, Copy, Debug, PartialEq, Eq, Structural)]
pub enum Ukey2MessageType {
    Unknown,
    Alert,
    ClientInit,
    ServerInit,
    ClientFinish,
}

impl Ukey2MessageType {
    /// The number this value has on the wire.
    pub open spec fn code(self) -> i32 {
        match self {
            Ukey2MessageType::Unknown => 0,
            Ukey2MessageType::Alert => 1,
            Ukey2MessageType::ClientInit => 2,
            Ukey2MessageType::ServerInit => 3,
            Ukey2MessageType::ClientFinish => 4,
        }
    }

    pub fn to_i32(self) -> (v: i32)
        ensures
            v == self.code(),
    {
        match self {
            Ukey2MessageType::Unknown => 0,
            Ukey2MessageType::Alert => 1,
            Ukey2MessageType::ClientInit => 2,
            Ukey2MessageType::ServerInit => 3,
            Ukey2MessageType::ClientFinish => 4,
        }
    }

    /// The value with wire number `v`, if there is one.
    pub fn try_from_i32(v: i32) -> (r: Option<Self>)
        ensures
            match r {
                Some(e) => e.code() == v,
                None => forall|e: Self| e.code() != v,
            },
    {
        if v == 0 {
            Some(Ukey2MessageType::Unknown)
        } else if v == 1 {
            Some(Ukey2MessageType::Alert)
        } else if v == 2 {
            Some(Ukey2MessageType::ClientInit)
        } else if v == 3 {
            Some(Ukey2MessageType::ServerInit)
        } else if v == 4 {
            Some(Ukey2MessageType::ClientFinish)
        } else {
            None
        }
    }
}

/// Wire values of `Ukey2HandshakeCipher`.
#[derive(Clone, Copy, Debug, PartialEq, Eq, Structural)]
pub enum Ukey2HandshakeCipher {
    Reserved,
    P256Sha512,
    Curve25519Sha512,
}

impl Ukey2HandshakeCipher {
    /// The number this value has on the wire.
    pub open spec fn code(self) -> i32 {
        match self {
            Ukey2HandshakeCipher::Reserved => 0,
            Ukey2HandshakeCipher::P256Sha512 => 100,
            Ukey2HandshakeCipher::Curve25519Sha512 => 200,
        }
    }

    pub fn to_i32(self) -> (v: i32)
        ensures
            v == self.code(),
    {
        match self {
            Ukey2HandshakeCipher::Reserved => 0,
            Ukey2HandshakeCipher::P256Sha512 => 100,
            Ukey2HandshakeCipher::Curve25519Sha512 => 200,
        }
    }

    /// The value with wire number `v`, if there is one.
    pub fn try_from_i32(v: i32) -> (r: Option<Self>)
        ensures
            match r {
                Some(e) => e.code() == v,
                None => forall|e: Self| e.code() != v,
            },
    {
        if v == 0 {
            Some(Ukey2HandshakeCipher::Reserved)
        } else if v == 100 {
            Some(Ukey2HandshakeCipher::P256Sha512)
        } else if v == 200 {
            Some(Ukey2HandshakeCipher::Curve25519Sha512)
        } else {
            None
        }
    }
}

/// Wire values of `PublicKeyType`.
#[derive(Clone, Copy, Debug, PartialEq, Eq, Structural)]
pub enum PublicKeyType {
    EcP256,
    Rsa2048,
    Dh2048Modp,
}

impl PublicKeyType {
    /// The number this value has on the wire.
    pub open spec fn code(self) -> i32 {
        match self {
            PublicKeyType::EcP256 => 1,
            PublicKeyType::Rsa2048 => 2,
            PublicKeyType::Dh2048Modp => 3,
        }
    }

    pub fn to_i32(self) -> (v: i32)
        ensures
            v == self.code(),
    {
        match self {
            PublicKeyType::EcP256 => 1,
            PublicKeyType::Rsa2048 => 2,
            PublicKeyType::Dh2048Modp => 3,
        }
    }

    /// The value with wire number `v`, if there is one.
    pub fn try_from_i32(v: i32) -> (r: Option<Self>)
        ensures
            match r {
                Some(e) => e.code() == v,
                None => forall|e: Self| e.code() != v,
            },
    {
        if v == 1 {
            Some(PublicKeyType::EcP256)
        } else if v == 2 {
            Some(PublicKeyType::Rsa2048)
        } else if v == 3 {
            Some(PublicKeyType::Dh2048Modp)
        } else {
            None
        }
    }
}

/// Wire values of `SignatureScheme`.
#[derive(Clone, Copy, Debug, PartialEq, Eq, Structural)]
pub enum SignatureScheme {
    HmacSha256,
    EcdsaP256Sha256,
    Rsa2048Sha256,
}

impl SignatureScheme {
    /// The number this value has on the wire.
    pub open spec fn code(self) -> i32 {
        match self {
            SignatureScheme::HmacSha256 => 1,
            SignatureScheme::EcdsaP256Sha256 => 2,
            SignatureScheme::Rsa2048Sha256 => 3,
        }
    }

    pub fn to_i32(self) -> (v: i32)
        ensures
            v == self.code(),
    {
        match self {
            SignatureScheme::HmacSha256 => 1,
            SignatureScheme::EcdsaP256Sha256 => 2,
            SignatureScheme::Rsa2048Sha256 => 3,
        }
    }

    /// The value with wire number `v`, if there is one.
    pub fn try_from_i32(v: i32) -> (r: Option<Self>)
        ensures
            match r {
                Some(e) => e.code() == v,
                None => forall|e: Self| e.code() != v,
            },
    {
        if v == 1 {
            Some(SignatureScheme::HmacSha256)
        } else if v == 2 {
            Some(SignatureScheme::EcdsaP256Sha256)
        } else if v == 3 {
            Some(SignatureScheme::Rsa2048Sha256)
        } else {
            None
        }
    }
}

/// Wire values of `EncryptionScheme`.
#[derive(Clone, Copy, Debug, PartialEq, Eq, Structural)]
pub enum EncryptionScheme {
    Unencrypted,
    Aes256Cbc,
}

impl EncryptionScheme {
    /// The number this value has on the wire.
    pub open spec fn code(self) -> i32 {
        match self {
            EncryptionScheme::Unencrypted => 1,
            EncryptionScheme::Aes256Cbc => 2,
        }
    }

    pub fn to_i32(self) -> (v: i32)
        ensures
            v == self.code(),
    {
        match self {
            EncryptionScheme::Unencrypted => 1,
            EncryptionScheme::Aes256Cbc => 2,
        }
    }

    /// The value with wire number `v`, if there is one.
    pub fn try_from_i32(v: i32) -> (r: Option<Self>)
        ensures
            match r {
                Some(e) => e.code() == v,
                None => forall|e: Self| e.code() != v,
            },
    {
        if v == 1 {
            Some(EncryptionScheme::Unencrypted)
        } else if v == 2 {
            Some(EncryptionScheme::Aes256Cbc)
        } else {
            None
        }
    }
}

/// Wire values of `GcmMetadataType`.
#[derive(Clone, Copy, Debug, PartialEq, Eq, Structural)]
pub enum GcmMetadataType {
    DeviceToDeviceResponderHelloPayload,
    DeviceToDeviceMessage,
}

impl GcmMetadataType {
    /// The number this value has on the wire.
    pub open spec fn code(self) -> i32 {
        match self {
            GcmMetadataType::DeviceToDeviceResponderHelloPayload => 12,
            GcmMetadataType::DeviceToDeviceMessage => 13,
        }
    }

    pub fn to_i32(self) -> (v: i32)
        ensures
            v == self.code(),
    {
        match self {
            GcmMetadataType::DeviceToDeviceResponderHelloPayload => 12,
            GcmMetadataType::DeviceToDeviceMessage => 13,
        }
    }

    /// The value with wire number `v`, if there is one.
    pub fn try_from_i32(v: i32) -> (r: Option<Self>)
        ensures
            match r {
                Some(e) => e.code() == v,
                None => forall|e: Self| e.code() != v,
            },
    {
        if v == 12 {
            Some(GcmMetadataType::DeviceToDeviceResponderHelloPayload)
        } else if v == 13 {
            Some(GcmMetadataType::DeviceToDeviceMessage)
        } else {
            None
        }
    }
}

/// Wire values of `SharingVersion`.
#[derive(Clone, Copy, Debug, PartialEq, Eq, Structural)]
pub enum SharingVersion {
    Unknown,
    V1,
}

impl SharingVersion {
    /// The number this value has on the wire.
    pub open spec fn code(self) -> i32 {
        match self {
            SharingVersion::Unknown => 0,
            SharingVersion::V1 => 1,
        }
    }

    pub fn to_i32(self) -> (v: i32)
        ensures
            v == self.code(),
    {
        match self {
            SharingVersion::Unknown => 0,
            SharingVersion::V1 => 1,
        }
    }

    /// The value with wire number `v`, if there is one.
    pub fn try_from_i32(v: i32) -> (r: Option<Self>)
        ensures
            match r {
                Some(e) => e.code() == v,
                None => forall|e: Self| e.code() != v,
            },
    {
        if v == 0 {
            Some(SharingVersion::Unknown)
        } else if v == 1 {
            Some(SharingVersion::V1)
        } else {
            None
        }
    }
}

/// Wire values of `SharingFrameType`.
#[derive(Clone, Copy, Debug, PartialEq, Eq, Structural)]
pub enum SharingFrameType {
    Unknown,
    Introduction,
    Response,
    PairedKeyEncryption,
    PairedKeyResult,
    CertificateInfo,
    Cancel,
    ProgressUpdate,
}

impl SharingFrameType {
    /// The number this value has on the wire.
    pub open spec fn code(self) -> i32 {
        match self {
            SharingFrameType::Unknown => 0,
            SharingFrameType::Introduction => 1,
            SharingFrameType::Response => 2,
            SharingFrameType::PairedKeyEncryption => 3,
            SharingFrameType::PairedKeyResult => 4,
            SharingFrameType::CertificateInfo => 5,
            SharingFrameType::Cancel => 6,
            SharingFrameType::ProgressUpdate => 7,
        }
    }

    pub fn to_i32(self) -> (v: i32)
        ensures
            v == self.code(),
    {
        match self {
            SharingFrameType::Unknown => 0,
            SharingFrameType::Introduction => 1,
            SharingFrameType::Response => 2,
            SharingFrameType::PairedKeyEncryption => 3,
            SharingFrameType::PairedKeyResult => 4,
            SharingFrameType::CertificateInfo => 5,
            SharingFrameType::Cancel => 6,
            SharingFrameType::ProgressUpdate => 7,
        }
    }

    /// The value with wire number `v`, if there is one.
    pub fn try_from_i32(v: i32) -> (r: Option<Self>)
        ensures
            match r {
                Some(e) => e.code() == v,
                None => forall|e: Self| e.code() != v,
            },
    {
        if v == 0 {
            Some(SharingFrameType::Unknown)
        } else if v == 1 {
            Some(SharingFrameType::Introduction)
        } else if v == 2 {
            Some(SharingFrameType::Response)
        } else if v == 3 {
            Some(SharingFrameType::PairedKeyEncryption)
        } else if v == 4 {
            Some(SharingFrameType::PairedKeyResult)
        } else if v == 5 {
            Some(SharingFrameType::CertificateInfo)
        } else if v == 6 {
            Some(SharingFrameType::Cancel)
        } else if v == 7 {
            Some(SharingFrameType::ProgressUpdate)
        } else {
            None
        }
    }
}

/// Wire values of `SharingUseCase`.
#[derive(Clone, Copy, Debug, PartialEq, Eq, Structural)]
pub enum SharingUseCase {
    Unknown,
    NearbyShare,
    RemoteCopy,
}

impl SharingUseCase {
    /// The number this value has on the wire.
    pub open spec fn code(self) -> i32 {
        match self {
            SharingUseCase::Unknown => 0,
            SharingUseCase::NearbyShare => 1,
            SharingUseCase::RemoteCopy => 2,
        }
    }

    pub fn to_i32(self) -> (v: i32)
        ensures
            v == self.code(),
    {
        match self {
            SharingUseCase::Unknown => 0,
            SharingUseCase::NearbyShare => 1,
            SharingUseCase::RemoteCopy => 2,
        }
    }

    /// The value with wire number `v`, if there is one.
    pub fn try_from_i32(v: i32) -> (r: Option<Self>)
        ensures
            match r {
                Some(e) => e.code() == v,
                None => forall|e: Self| e.code() != v,
            },
    {
        if v == 0 {
            Some(SharingUseCase::Unknown)
        } else if v == 1 {
            Some(SharingUseCase::NearbyShare)
        } else if v == 2 {
            Some(SharingUseCase::RemoteCopy)
        } else {
            None
        }
    }
}

/// Wire values of `FileType`.
#[derive(Clone, Copy, Debug, PartialEq, Eq, Structural)]
pub enum FileType {
    Unknown,
    Image,
    Video,
    AndroidApp,
    Audio,
    Document,
    ContactCard,
}

impl FileType {
    /// The number this value has on the wire.
    pub open spec fn code(self) -> i32 {
        match self {
            FileType::Unknown => 0,
            FileType::Image => 1,
            FileType::Video => 2,
            FileType::AndroidApp => 3,
            FileType::Audio => 4,
            FileType::Document => 5,
            FileType::ContactCard => 6,
        }
    }

    pub fn to_i32(self) -> (v: i32)
        ensures
            v == self.code(),
    {
        match self {
            FileType::Unknown => 0,
            FileType::Image => 1,
            FileType::Video => 2,
            FileType::AndroidApp => 3,
            FileType::Audio => 4,
            FileType::Document => 5,
            FileType::ContactCard => 6,
        }
    }

    /// The value with wire number `v`, if there is one.
    pub fn try_from_i32(v: i32) -> (r: Option<Self>)
        ensures
            match r {
                Some(e) => e.code() == v,
                None => forall|e: Self| e.code() != v,
            },
    {
        if v == 0 {
            Some(FileType::Unknown)
        } else if v == 1 {
            Some(FileType::Image)
        } else if v == 2 {
            Some(FileType::Video)
        } else if v == 3 {
            Some(FileType::AndroidApp)
        } else if v == 4 {
            Some(FileType::Audio)
        } else if v == 5 {
            Some(FileType::Document)
        } else if v == 6 {
            Some(FileType::ContactCard)
        } else {
            None
        }
    }
}

/// Whether `v` is the wire number of a file type.
pub open spec fn names_file_type(v: i32) -> bool {
    exists|t: FileType| #[trigger] t.code() == v
}

/// The file types are numbered 0 to 6 on the wire, each number naming
/// exactly one of them.
pub proof fn lemma_file_type_numbers()
    ensures
        forall|v: i32| #[trigger] names_file_type(v) <==> 0 <= v <= 6,
        forall|a: FileType, b: FileType| #[trigger] a.code() == #[trigger] b.code() ==> a == b,
{
    assert forall|v: i32| 0 <= v <= 6 implies #[trigger] names_file_type(v) by {
        if v == 0 {
            assert(FileType::Unknown.code() == v);
        } else if v == 1 {
            assert(FileType::Image.code() == v);
        } else if v == 2 {
            assert(FileType::Video.code() == v);
        } else if v == 3 {
            assert(FileType::AndroidApp.code() == v);
        } else if v == 4 {
            assert(FileType::Audio.code() == v);
        } else if v == 5 {
            assert(FileType::Document.code() == v);
        } else {
            assert(FileType::ContactCard.code() == v);
        }
    }
}

/// Wire values of `TextType`.
#[derive(Clone, Copy, Debug, PartialEq, Eq, Structural)]
pub enum TextType {
    Unknown,
    Text,
    Url,
    Address,
    PhoneNumber,
}

impl TextType {
    /// The number this value has on the wire.
    pub open spec fn code(self) -> i32 {
        match self {
            TextType::Unknown => 0,
            TextType::Text => 1,
            TextType::Url => 2,
            TextType::Address => 3,
            TextType::PhoneNumber => 4,
        }
    }

    pub fn to_i32(self) -> (v: i32)
        ensures
            v == self.code(),
    {
        match self {
            TextType::Unknown => 0,
            TextType::Text => 1,
            TextType::Url => 2,
            TextType::Address => 3,
            TextType::PhoneNumber => 4,
        }
    }

    /// The value with wire number `v`, if there is one.
    pub fn try_from_i32(v: i32) -> (r: Option<Self>)
        ensures
            match r {
                Some(e) => e.code() == v,
                None => forall|e: Self| e.code() != v,
            },
    {
        if v == 0 {
            Some(TextType::Unknown)
        } else if v == 1 {
            Some(TextType::Text)
        } else if v == 2 {
            Some(TextType::Url)
        } else if v == 3 {
            Some(TextType::Address)
        } else if v == 4 {
            Some(TextType::PhoneNumber)
        } else {
            None
        }
    }
}

/// Wire values of `SharingResponseStatus`.
#[derive(Clone, Copy, Debug, PartialEq, Eq, Structural)]
pub enum SharingResponseStatus {
    Unknown,
    Accept,
    Reject,
    NotEnoughSpace,
    UnsupportedAttachmentType,
    TimedOut,
}

impl SharingResponseStatus {
    /// The number this value has on the wire.
    pub open spec fn code(self) -> i32 {
        match self {
            SharingResponseStatus::Unknown => 0,
            SharingResponseStatus::Accept => 1,
            SharingResponseStatus::Reject => 2,
            SharingResponseStatus::NotEnoughSpace => 3,
            SharingResponseStatus::UnsupportedAttachmentType => 4,
            SharingResponseStatus::TimedOut => 5,
        }
    }

    pub fn to_i32(self) -> (v: i32)
        ensures
            v == self.code(),
    {
        match self {
            SharingResponseStatus::Unknown => 0,
            SharingResponseStatus::Accept => 1,
            SharingResponseStatus::Reject => 2,
            SharingResponseStatus::NotEnoughSpace => 3,
            SharingResponseStatus::UnsupportedAttachmentType => 4,
            SharingResponseStatus::TimedOut => 5,
        }
    }

    /// The value with wire number `v`, if there is one.
    pub fn try_from_i32(v: i32) -> (r: Option<Self>)
        ensures
            match r {
                Some(e) => e.code() == v,
                None => forall|e: Self| e.code() != v,
            },
    {
        if v == 0 {
            Some(SharingResponseStatus::Unknown)
        } else if v == 1 {
            Some(SharingResponseStatus::Accept)
        } else if v == 2 {
            Some(SharingResponseStatus::Reject)
        } else if v == 3 {
            Some(SharingResponseStatus::NotEnoughSpace)
        } else if v == 4 {
            Some(SharingResponseStatus::UnsupportedAttachmentType)
        } else if v == 5 {
            Some(SharingResponseStatus::TimedOut)
        } else {
            None
        }
    }
}

/// Wire values of `PairedKeyStatus`.
#[derive(Clone, Copy, Debug, PartialEq, Eq, Structural)]
pub enum PairedKeyStatus {
    Unknown,
    Success,
    Fail,
    Unable,
}

impl PairedKeyStatus {
    /// The number this value has on the wire.
    pub open spec fn code(self) -> i32 {
        match self {
            PairedKeyStatus::Unknown => 0,
            PairedKeyStatus::Success => 1,
            PairedKeyStatus::Fail => 2,
            PairedKeyStatus::Unable => 3,
        }
    }

    pub fn to_i32(self) -> (v: i32)
        ensures
            v == self.code(),
    {
        match self {
            PairedKeyStatus::Unknown => 0,
            PairedKeyStatus::Success => 1,
            PairedKeyStatus::Fail => 2,
            PairedKeyStatus::Unable => 3,
        }
    }

    /// The value with wire number `v`, if there is one.
    pub fn try_from_i32(v: i32) -> (r: Option<Self>)
        ensures
            match r {
                Some(e) => e.code() == v,
                None => forall|e: Self| e.code() != v,
            },
    {
        if v == 0 {
            Some(PairedKeyStatus::Unknown)
        } else if v == 1 {
            Some(PairedKeyStatus::Success)
        } else if v == 2 {
            Some(PairedKeyStatus::Fail)
        } else if v == 3 {
            Some(PairedKeyStatus::Unable)
        } else {
            None
        }
    }
}

/// Wire values of `SharingOsType`.
#[derive(Clone, Copy, Debug, PartialEq, Eq, Structural)]
pub enum SharingOsType {
    Unknown,
    Android,
    ChromeOs,
    Ios,
    Windows,
    Macos,
}

impl SharingOsType {
    /// The number this value has on the wire.
    pub open spec fn code(self) -> i32 {
        match self {
            SharingOsType::Unknown => 0,
            SharingOsType::Android => 1,
            SharingOsType::ChromeOs => 2,
            SharingOsType::Ios => 3,
            SharingOsType::Windows => 4,
            SharingOsType::Macos => 5,
        }
    }

    pub fn to_i32(self) -> (v: i32)
        ensures
            v == self.code(),
    {
        match self {
            SharingOsType::Unknown => 0,
            SharingOsType::Android => 1,
            SharingOsType::ChromeOs => 2,
            SharingOsType::Ios => 3,
            SharingOsType::Windows => 4,
            SharingOsType::Macos => 5,
        }
    }

    /// The value with wire number `v`, if there is one.
    pub fn try_from_i32(v: i32) -> (r: Option<Self>)
        ensures
            match r {
                Some(e) => e.code() == v,
                None => forall|e: Self| e.code() != v,
            },
    {
        if v == 0 {
            Some(SharingOsType::Unknown)
        } else if v == 1 {
            Some(SharingOsType::Android)
        } else if v == 2 {
            Some(SharingOsType::ChromeOs)
        } else if v == 3 {
            Some(SharingOsType::Ios)
        } else if v == 4 {
            Some(SharingOsType::Windows)
        } else if v == 5 {
            Some(SharingOsType::Macos)
        } else {
            None
        }
    }
}

// --- OfflineFrame ---

/// Outer Nearby Connections frame.
#[derive(Clone, Debug, Default, PartialEq)]
pub struct OfflineFrame {
    pub version: Option<i32>,
    pub v1: Option<OfflineV1Frame>,
}

/// The value of a [`OfflineFrame`].
#[verifier::ext_equal]
pub struct OfflineFrameModel {
    pub version: Option<i32>,
    pub v1: Option<OfflineV1FrameModel>,
}

impl View for OfflineFrame {
    type V = OfflineFrameModel;

    open spec fn view(&self) -> OfflineFrameModel {
        OfflineFrameModel {
            version: self.version,
            v1: match self.v1 {
                Some(x) => Some(x@),
                None => None,
            },
        }
    }
}

impl OfflineFrameModel {
    /// The message with no field set.
    pub open spec fn empty() -> Self {
        OfflineFrameModel {
            version: None,
            v1: None,
        }
    }

    /// The records this message encodes to, in field-number order.
    pub open spec fn records(self) -> Seq<FieldModel> {
        opt_i32_records(1, self.version)
            + opt_bytes_records(
            2,
            match self.v1 {
                Some(x) => Some(x.encoding()),
                None => None,
            },
        )
    }

    pub open spec fn encoding(self) -> Seq<u8> {
        fields_bytes(self.records())
    }

    /// Every length fits the wire format, here and in every embedded message.
    pub open spec fn wf(self) -> bool {
        &&& all_encodable(self.records())
        &&& match self.v1 {
            Some(x) => x.wf(),
            None => true,
        }
    }

    /// The message after one more record is merged into it: a scalar, string
    /// or bytes field takes the new value, an embedded message merges the new
    /// one into itself, and a repeated field appends.
    pub open spec fn merge_field(self, fld: FieldModel, d: nat) -> Option<Self> {
        if fld.number == 1 {
            match varint_of(fld.value) {
                Some(v) => Some(OfflineFrameModel { version: Some(v as i32), ..self }),
                None => None,
            }
        } else if fld.number == 2 {
            if d == 0 {
                None
            } else {
                match payload_of(fld.value) {
                    Some(b) => match (match self.v1 {
                        Some(x) => x,
                        None => OfflineV1FrameModel::empty(),
                    }).merge_bytes(b, (d - 1) as nat) {
                        Some(x) => Some(OfflineFrameModel { v1: Some(x), ..self }),
                        None => None,
                    },
                    None => None,
                }
            }
        } else if d == 0 {
            None
        } else {
            Some(self)
        }
    }

    pub open spec fn merge_all(self, fs: Seq<FieldModel>, d: nat) -> Option<Self>
        decreases fs.len(),
    {
        if fs.len() == 0 {
            Some(self)
        } else {
            match self.merge_field(fs[0], d) {
                Some(m) => m.merge_all(fs.drop_first(), d),
                None => None,
            }
        }
    }

    /// The message after every record of `s` is merged into it.
    pub open spec fn merge_bytes(self, s: Seq<u8>, d: nat) -> Option<Self> {
        match parse_fields(s, d) {
            Some(fs) => self.merge_all(fs, d),
            None => None,
        }
    }

    /// The message that `s` encodes, if it is a well-formed encoding.
    pub open spec fn decoded(s: Seq<u8>) -> Option<Self> {
        Self::empty().merge_bytes(s, RECURSION_BUDGET as nat)
    }

    pub proof fn lemma_merge_all_append(self, a: Seq<FieldModel>, b: Seq<FieldModel>, d: nat)
        ensures
            self.merge_all(a + b, d) == match self.merge_all(a, d) {
                Some(m) => m.merge_all(b, d),
                None => None,
            },
        decreases a.len(),
    {
        if a.len() == 0 {
            assert(a + b =~= b);
        } else {
            assert((a + b).drop_first() =~= a.drop_first() + b);
            assert((a + b)[0] == a[0]);
            if let Some(m) = self.merge_field(a[0], d) {
                m.lemma_merge_all_append(a.drop_first(), b, d);
            }
        }
    }

    /// Decoding the encoding of a message gives the message back.
    #[verifier::spinoff_prover]
    #[verifier::rlimit(40)]
    pub proof fn lemma_round_trip(self, d: nat)
        requires
            self.wf(),
            d >= 3,
        ensures
            Self::empty().merge_bytes(self.encoding(), d) == Some(self),
    {
        lemma_parse_fields_bytes(self.records(), d);
        reveal_with_fuel(OfflineFrameModel::merge_all, 2);
        let s0 = OfflineFrameModel::empty();
        let s1 = OfflineFrameModel { version: self.version, ..s0 };
        if let Some(x) = self.version {
            lemma_i32_round_trip(x);
        }
        assert(s0.merge_all(opt_i32_records(1, self.version), d) == Some(s1));
        let s2 = OfflineFrameModel { v1: self.v1, ..s1 };
        if let Some(x) = self.v1 {
            x.lemma_round_trip((d - 1) as nat);
        }
        assert(s1.merge_all(opt_bytes_records(
            2,
            match self.v1 {
                Some(x) => Some(x.encoding()),
                None => None,
            },
        ), d) == Some(s2));
        s0.lemma_merge_all_append(opt_i32_records(1, self.version), opt_bytes_records(
            2,
            match self.v1 {
                Some(x) => Some(x.encoding()),
                None => None,
            },
        ), d);
        assert(s2 =~= self);
    }
}

impl OfflineFrame {
    /// The message with no field set.
    pub fn empty() -> (r: Self)
        ensures
            r@ == OfflineFrameModel::empty(),
    {
        let r = OfflineFrame {
            version: None,
            v1: None,
        };
        assert(r@ =~= OfflineFrameModel::empty());
        r
    }

    /// Appends the encoding of this message.
    #[verifier::spinoff_prover]
    #[verifier::rlimit(40)]
    pub fn encode_into(&self, out: &mut Vec<u8>)
        ensures
            final(out)@ == old(out)@ + self@.encoding(),
    {
        let ghost start = out@;
        put_opt_i32(out, 1, self.version);
        let ghost done = opt_i32_records(1, self@.version);
        let ghost mid = out@;
        let enc: Option<Vec<u8>> = match &self.v1 {
            Some(x) => Some(x.encode_to_vec()),
            None => None,
        };
        put_opt_bytes(out, 2, &enc);
        proof {
            lemma_fields_bytes_append(done, opt_bytes_records(
            2,
            match self@.v1 {
                Some(x) => Some(x.encoding()),
                None => None,
            },
        ));
            lemma_concat_associative(start, fields_bytes(done), fields_bytes(opt_bytes_records(
            2,
            match self@.v1 {
                Some(x) => Some(x.encoding()),
                None => None,
            },
        )));
        }
        let ghost done = done + opt_bytes_records(
            2,
            match self@.v1 {
                Some(x) => Some(x.encoding()),
                None => None,
            },
        );
        assert(done == self@.records());
    }

    pub fn encode_to_vec(&self) -> (r: Vec<u8>)
        ensures
            r@ == self@.encoding(),
    {
        let mut out = Vec::new();
        self.encode_into(&mut out);
        assert(out@ =~= self@.encoding());
        out
    }

    fn merge_record(&mut self, fld: &Field, d: u32) -> (r: Result<(), DecodeError>)
        ensures
            match old(self)@.merge_field(fld@, d as nat) {
                Some(m) => r is Ok && final(self)@ == m,
                None => r is Err,
            },
    {
        if fld.number == 1 {
            match wire_i32(&fld.value) {
                Ok(v) => {
                    self.version = Some(v);
                    Ok(())
                },
                Err(e) => Err(e),
            }
        } else if fld.number == 2 {
            if d == 0 {
                return Err(DecodeError);
            }
            match &fld.value {
                WireValue::LengthDelimited(b) => {
                    let mut inner = match self.v1.take() {
                        Some(x) => x,
                        None => OfflineV1Frame::empty(),
                    };
                    match inner.merge_from(b.as_slice(), d - 1) {
                        Ok(()) => {
                            self.v1 = Some(inner);
                            Ok(())
                        },
                        Err(e) => Err(e),
                    }
                },
                _ => Err(DecodeError),
            }
        } else if d == 0 {
            Err(DecodeError)
        } else {
            Ok(())
        }
    }

    /// Merges every record of `bytes` into this message.
    pub fn merge_from(&mut self, bytes: &[u8], d: u32) -> (r: Result<(), DecodeError>)
        ensures
            match old(self)@.merge_bytes(bytes@, d as nat) {
                Some(m) => r is Ok && final(self)@ == m,
                None => r is Err,
            },
    {
        let fields = match read_fields(bytes, d) {
            Some(fs) => fs,
            None => return Err(DecodeError),
        };
        let ghost fs = fields_view(fields@);
        let mut i: usize = 0;
        assert(fs.skip(0) =~= fs);
        while i < fields.len()
            invariant
                i <= fields@.len(),
                fs == fields_view(fields@),
                parse_fields(bytes@, d as nat) == Some(fs),
                old(self)@.merge_all(fs, d as nat) == self@.merge_all(fs.skip(i as int), d as nat),
            decreases fields@.len() - i,
        {
            let ghost before = self@;
            assert(fs.skip(i as int)[0] == fields@[i as int]@);
            match self.merge_record(&fields[i], d) {
                Ok(()) => {},
                Err(e) => {
                    assert(fs.skip(i as int).len() > 0);
                    assert(before.merge_all(fs.skip(i as int), d as nat) is None);
                    return Err(e);
                },
            }
            assert(fs.skip(i as int).drop_first() =~= fs.skip(i + 1));
            i = i + 1;
        }
        assert(fs.skip(i as int) =~= Seq::<FieldModel>::empty());
        Ok(())
    }

    /// Decodes a message, ignoring unknown fields.
    pub fn decode(bytes: &[u8]) -> (r: Result<Self, DecodeError>)
        ensures
            match OfflineFrameModel::decoded(bytes@) {
                Some(m) => r matches Ok(x) && x@ == m,
                None => r is Err,
            },
    {
        let mut m = Self::empty();
        match m.merge_from(bytes, RECURSION_BUDGET) {
            Ok(()) => Ok(m),
            Err(e) => Err(e),
        }
    }
}

// --- OfflineV1Frame ---

/// Version-1 body of an `OfflineFrame`.
#[derive(Clone, Debug, Default, PartialEq)]
pub struct OfflineV1Frame {
    pub frame_type: Option<i32>,
    pub connection_request: Option<ConnectionRequestFrame>,
    pub connection_response: Option<ConnectionResponseFrame>,
    pub payload_transfer: Option<PayloadTransferFrame>,
    pub keep_alive: Option<KeepAliveFrame>,
    pub disconnection: Option<DisconnectionFrame>,
}

/// The value of a [`OfflineV1Frame`].
#[verifier::ext_equal]
pub struct OfflineV1FrameModel {
    pub frame_type: Option<i32>,
    pub connection_request: Option<ConnectionRequestFrameModel>,
    pub connection_response: Option<ConnectionResponseFrameModel>,
    pub payload_transfer: Option<PayloadTransferFrameModel>,
    pub keep_alive: Option<KeepAliveFrameModel>,
    pub disconnection: Option<DisconnectionFrameModel>,
}

impl View for OfflineV1Frame {
    type V = OfflineV1FrameModel;

    open spec fn view(&self) -> OfflineV1FrameModel {
        OfflineV1FrameModel {
            frame_type: self.frame_type,
            connection_request: match self.connection_request {
                Some(x) => Some(x@),
                None => None,
            },
            connection_response: match self.connection_response {
                Some(x) => Some(x@),
                None => None,
            },
            payload_transfer: match self.payload_transfer {
                Some(x) => Some(x@),
                None => None,
            },
            keep_alive: match self.keep_alive {
                Some(x) => Some(x@),
                None => None,
            },
            disconnection: match self.disconnection {
                Some(x) => Some(x@),
                None => None,
            },
        }
    }
}

impl OfflineV1FrameModel {
    /// The message with no field set.
    pub open spec fn empty() -> Self {
        OfflineV1FrameModel {
            frame_type: None,
            connection_request: None,
            connection_response: None,
            payload_transfer: None,
            keep_alive: None,
            disconnection: None,
        }
    }

    /// The records this message encodes to, in field-number order.
    pub open spec fn records(self) -> Seq<FieldModel> {
        opt_i32_records(1, self.frame_type)
            + opt_bytes_records(
            2,
            match self.connection_request {
                Some(x) => Some(x.encoding()),
                None => None,
            },
        )
            + opt_bytes_records(
            3,
            match self.connection_response {
                Some(x) => Some(x.encoding()),
                None => None,
            },
        )
            + opt_bytes_records(
            4,
            match self.payload_transfer {
                Some(x) => Some(x.encoding()),
                None => None,
            },
        )
            + opt_bytes_records(
            6,
            match self.keep_alive {
                Some(x) => Some(x.encoding()),
                None => None,
            },
        )
            + opt_bytes_records(
            7,
            match self.disconnection {
                Some(x) => Some(x.encoding()),
                None => None,
            },
        )
    }

    pub open spec fn encoding(self) -> Seq<u8> {
        fields_bytes(self.records())
    }

    /// Every length fits the wire format, here and in every embedded message.
    pub open spec fn wf(self) -> bool {
        &&& all_encodable(self.records())
        &&& match self.connection_request {
            Some(x) => x.wf(),
            None => true,
        }
        &&& match self.connection_response {
            Some(x) => x.wf(),
            None => true,
        }
        &&& match self.payload_transfer {
            Some(x) => x.wf(),
            None => true,
        }
        &&& match self.keep_alive {
            Some(x) => x.wf(),
            None => true,
        }
        &&& match self.disconnection {
            Some(x) => x.wf(),
            None => true,
        }
    }

    /// The message after one more record is merged into it: a scalar, string
    /// or bytes field takes the new value, an embedded message merges the new
    /// one into itself, and a repeated field appends.
    pub open spec fn merge_field(self, fld: FieldModel, d: nat) -> Option<Self> {
        if fld.number == 1 {
            match varint_of(fld.value) {
                Some(v) => Some(OfflineV1FrameModel { frame_type: Some(v as i32), ..self }),
                None => None,
            }
        } else if fld.number == 2 {
            if d == 0 {
                None
            } else {
                match payload_of(fld.value) {
                    Some(b) => match (match self.connection_request {
                        Some(x) => x,
                        None => ConnectionRequestFrameModel::empty(),
                    }).merge_bytes(b, (d - 1) as nat) {
                        Some(x) => Some(OfflineV1FrameModel { connection_request: Some(x), ..self }),
                        None => None,
                    },
                    None => None,
                }
            }
        } else if fld.number == 3 {
            if d == 0 {
                None
            } else {
                match payload_of(fld.value) {
                    Some(b) => match (match self.connection_response {
                        Some(x) => x,
                        None => ConnectionResponseFrameModel::empty(),
                    }).merge_bytes(b, (d - 1) as nat) {
                        Some(x) => Some(OfflineV1FrameModel { connection_response: Some(x), ..self }),
                        None => None,
                    },
                    None => None,
                }
            }
        } else if fld.number == 4 {
            if d == 0 {
                None
            } else {
                match payload_of(fld.value) {
                    Some(b) => match (match self.payload_transfer {
                        Some(x) => x,
                        None => PayloadTransferFrameModel::empty(),
                    }).merge_bytes(b, (d - 1) as nat) {
                        Some(x) => Some(OfflineV1FrameModel { payload_transfer: Some(x), ..self }),
                        None => None,
                    },
                    None => None,
                }
            }
        } else if fld.number == 6 {
            if d == 0 {
                None
            } else {
                match payload_of(fld.value) {
                    Some(b) => match (match self.keep_alive {
                        Some(x) => x,
                        None => KeepAliveFrameModel::empty(),
                    }).merge_bytes(b, (d - 1) as nat) {
                        Some(x) => Some(OfflineV1FrameModel { keep_alive: Some(x), ..self }),
                        None => None,
                    },
                    None => None,
                }
            }
        } else if fld.number == 7 {
            if d == 0 {
                None
            } else {
                match payload_of(fld.value) {
                    Some(b) => match (match self.disconnection {
                        Some(x) => x,
                        None => DisconnectionFrameModel::empty(),
                    }).merge_bytes(b, (d - 1) as nat) {
                        Some(x) => Some(OfflineV1FrameModel { disconnection: Some(x), ..self }),
                        None => None,
                    },
                    None => None,
                }
            }
        } else if d == 0 {
            None
        } else {
            Some(self)
        }
    }

    pub open spec fn merge_all(self, fs: Seq<FieldModel>, d: nat) -> Option<Self>
        decreases fs.len(),
    {
        if fs.len() == 0 {
            Some(self)
        } else {
            match self.merge_field(fs[0], d) {
                Some(m) => m.merge_all(fs.drop_first(), d),
                None => None,
            }
        }
    }

    /// The message after every record of `s` is merged into it.
    pub open spec fn merge_bytes(self, s: Seq<u8>, d: nat) -> Option<Self> {
        match parse_fields(s, d) {
            Some(fs) => self.merge_all(fs, d),
            None => None,
        }
    }

    /// The message that `s` encodes, if it is a well-formed encoding.
    pub open spec fn decoded(s: Seq<u8>) -> Option<Self> {
        Self::empty().merge_bytes(s, RECURSION_BUDGET as nat)
    }

    pub proof fn lemma_merge_all_append(self, a: Seq<FieldModel>, b: Seq<FieldModel>, d: nat)
        ensures
            self.merge_all(a + b, d) == match self.merge_all(a, d) {
                Some(m) => m.merge_all(b, d),
                None => None,
            },
        decreases a.len(),
    {
        if a.len() == 0 {
            assert(a + b =~= b);
        } else {
            assert((a + b).drop_first() =~= a.drop_first() + b);
            assert((a + b)[0] == a[0]);
            if let Some(m) = self.merge_field(a[0], d) {
                m.lemma_merge_all_append(a.drop_first(), b, d);
            }
        }
    }

    /// Decoding the encoding of a message gives the message back.
    #[verifier::spinoff_prover]
    #[verifier::rlimit(40)]
    pub proof fn lemma_round_trip(self, d: nat)
        requires
            self.wf(),
            d >= 2,
        ensures
            Self::empty().merge_bytes(self.encoding(), d) == Some(self),
    {
        lemma_parse_fields_bytes(self.records(), d);
        reveal_with_fuel(OfflineV1FrameModel::merge_all, 2);
        let s0 = OfflineV1FrameModel::empty();
        let s1 = OfflineV1FrameModel { frame_type: self.frame_type, ..s0 };
        if let Some(x) = self.frame_type {
            lemma_i32_round_trip(x);
        }
        assert(s0.merge_all(opt_i32_records(1, self.frame_type), d) == Some(s1));
        let s2 = OfflineV1FrameModel { connection_request: self.connection_request, ..s1 };
        if let Some(x) = self.connection_request {
            x.lemma_round_trip((d - 1) as nat);
        }
        assert(s1.merge_all(opt_bytes_records(
            2,
            match self.connection_request {
                Some(x) => Some(x.encoding()),
                None => None,
            },
        ), d) == Some(s2));
        let s3 = OfflineV1FrameModel { connection_response: self.connection_response, ..s2 };
        if let Some(x) = self.connection_response {
            x.lemma_round_trip((d - 1) as nat);
        }
        assert(s2.merge_all(opt_bytes_records(
            3,
            match self.connection_response {
                Some(x) => Some(x.encoding()),
                None => None,
            },
        ), d) == Some(s3));
        let s4 = OfflineV1FrameModel { payload_transfer: self.payload_transfer, ..s3 };
        if let Some(x) = self.payload_transfer {
            x.lemma_round_trip((d - 1) as nat);
        }
        assert(s3.merge_all(opt_bytes_records(
            4,
            match self.payload_transfer {
                Some(x) => Some(x.encoding()),
                None => None,
            },
        ), d) == Some(s4));
        let s5 = OfflineV1FrameModel { keep_alive: self.keep_alive, ..s4 };
        if let Some(x) = self.keep_alive {
            x.lemma_round_trip((d - 1) as nat);
        }
        assert(s4.merge_all(opt_bytes_records(
            6,
            match self.keep_alive {
                Some(x) => Some(x.encoding()),
                None => None,
            },
        ), d) == Some(s5));
        let s6 = OfflineV1FrameModel { disconnection: self.disconnection, ..s5 };
        if let Some(x) = self.disconnection {
            x.lemma_round_trip((d - 1) as nat);
        }
        assert(s5.merge_all(opt_bytes_records(
            7,
            match self.disconnection {
                Some(x) => Some(x.encoding()),
                None => None,
            },
        ), d) == Some(s6));
        s0.lemma_merge_all_append(opt_i32_records(1, self.frame_type), opt_bytes_records(
            2,
            match self.connection_request {
                Some(x) => Some(x.encoding()),
                None => None,
            },
        ), d);
        s0.lemma_merge_all_append(opt_i32_records(1, self.frame_type) + opt_bytes_records(
            2,
            match self.connection_request {
                Some(x) => Some(x.encoding()),
                None => None,
            },
        ), opt_bytes_records(
            3,
            match self.connection_response {
                Some(x) => Some(x.encoding()),
                None => None,
            },
        ), d);
        s0.lemma_merge_all_append(opt_i32_records(1, self.frame_type) + opt_bytes_records(
            2,
            match self.connection_request {
                Some(x) => Some(x.encoding()),
                None => None,
            },
        ) + opt_bytes_records(
            3,
            match self.connection_response {
                Some(x) => Some(x.encoding()),
                None => None,
            },
        ), opt_bytes_records(
            4,
            match self.payload_transfer {
                Some(x) => Some(x.encoding()),
                None => None,
            },
        ), d);
        s0.lemma_merge_all_append(opt_i32_records(1, self.frame_type) + opt_bytes_records(
            2,
            match self.connection_request {
                Some(x) => Some(x.encoding()),
                None => None,
            },
        ) + opt_bytes_records(
            3,
            match self.connection_response {
                Some(x) => Some(x.encoding()),
                None => None,
            },
        ) + opt_bytes_records(
            4,
            match self.payload_transfer {
                Some(x) => Some(x.encoding()),
                None => None,
            },
        ), opt_bytes_records(
            6,
            match self.keep_alive {
                Some(x) => Some(x.encoding()),
                None => None,
            },
        ), d);
        s0.lemma_merge_all_append(opt_i32_records(1, self.frame_type) + opt_bytes_records(
            2,
            match self.connection_request {
                Some(x) => Some(x.encoding()),
                None => None,
            },
        ) + opt_bytes_records(
            3,
            match self.connection_response {
                Some(x) => Some(x.encoding()),
                None => None,
            },
        ) + opt_bytes_records(
            4,
            match self.payload_transfer {
                Some(x) => Some(x.encoding()),
                None => None,
            },
        ) + opt_bytes_records(
            6,
            match self.keep_alive {
                Some(x) => Some(x.encoding()),
                None => None,
            },
        ), opt_bytes_records(
            7,
            match self.disconnection {
                Some(x) => Some(x.encoding()),
                None => None,
            },
        ), d);
        assert(s6 =~= self);
    }
}

impl OfflineV1Frame {
    /// The message with no field set.
    pub fn empty() -> (r: Self)
        ensures
            r@ == OfflineV1FrameModel::empty(),
    {
        let r = OfflineV1Frame {
            frame_type: None,
            connection_request: None,
            connection_response: None,
            payload_transfer: None,
            keep_alive: None,
            disconnection: None,
        };
        assert(r@ =~= OfflineV1FrameModel::empty());
        r
    }

    /// Appends the encoding of this message.
    #[verifier::spinoff_prover]
    #[verifier::rlimit(40)]
    pub fn encode_into(&self, out: &mut Vec<u8>)
        ensures
            final(out)@ == old(out)@ + self@.encoding(),
    {
        let ghost start = out@;
        put_opt_i32(out, 1, self.frame_type);
        let ghost done = opt_i32_records(1, self@.frame_type);
        let ghost mid = out@;
        let enc: Option<Vec<u8>> = match &self.connection_request {
            Some(x) => Some(x.encode_to_vec()),
            None => None,
        };
        put_opt_bytes(out, 2, &enc);
        proof {
            lemma_fields_bytes_append(done, opt_bytes_records(
            2,
            match self@.connection_request {
                Some(x) => Some(x.encoding()),
                None => None,
            },
        ));
            lemma_concat_associative(start, fields_bytes(done), fields_bytes(opt_bytes_records(
            2,
            match self@.connection_request {
                Some(x) => Some(x.encoding()),
                None => None,
            },
        )));
        }
        let ghost done = done + opt_bytes_records(
            2,
            match self@.connection_request {
                Some(x) => Some(x.encoding()),
                None => None,
            },
        );
        let ghost mid = out@;
        let enc: Option<Vec<u8>> = match &self.connection_response {
            Some(x) => Some(x.encode_to_vec()),
            None => None,
        };
        put_opt_bytes(out, 3, &enc);
        proof {
            lemma_fields_bytes_append(done, opt_bytes_records(
            3,
            match self@.connection_response {
                Some(x) => Some(x.encoding()),
                None => None,
            },
        ));
            lemma_concat_associative(start, fields_bytes(done), fields_bytes(opt_bytes_records(
            3,
            match self@.connection_response {
                Some(x) => Some(x.encoding()),
                None => None,
            },
        )));
        }
        let ghost done = done + opt_bytes_records(
            3,
            match self@.connection_response {
                Some(x) => Some(x.encoding()),
                None => None,
            },
        );
        let ghost mid = out@;
        let enc: Option<Vec<u8>> = match &self.payload_transfer {
            Some(x) => Some(x.encode_to_vec()),
            None => None,
        };
        put_opt_bytes(out, 4, &enc);
        proof {
            lemma_fields_bytes_append(done, opt_bytes_records(
            4,
            match self@.payload_transfer {
                Some(x) => Some(x.encoding()),
                None => None,
            },
        ));
            lemma_concat_associative(start, fields_bytes(done), fields_bytes(opt_bytes_records(
            4,
            match self@.payload_transfer {
                Some(x) => Some(x.encoding()),
                None => None,
            },
        )));
        }
        let ghost done = done + opt_bytes_records(
            4,
            match self@.payload_transfer {
                Some(x) => Some(x.encoding()),
                None => None,
            },
        );
        let ghost mid = out@;
        let enc: Option<Vec<u8>> = match &self.keep_alive {
            Some(x) => Some(x.encode_to_vec()),
            None => None,
        };
        put_opt_bytes(out, 6, &enc);
        proof {
            lemma_fields_bytes_append(done, opt_bytes_records(
            6,
            match self@.keep_alive {
                Some(x) => Some(x.encoding()),
                None => None,
            },
        ));
            lemma_concat_associative(start, fields_bytes(done), fields_bytes(opt_bytes_records(
            6,
            match self@.keep_alive {
                Some(x) => Some(x.encoding()),
                None => None,
            },
        )));
        }
        let ghost done = done + opt_bytes_records(
            6,
            match self@.keep_alive {
                Some(x) => Some(x.encoding()),
                None => None,
            },
        );
        let ghost mid = out@;
        let enc: Option<Vec<u8>> = match &self.disconnection {
            Some(x) => Some(x.encode_to_vec()),
            None => None,
        };
        put_opt_bytes(out, 7, &enc);
        proof {
            lemma_fields_bytes_append(done, opt_bytes_records(
            7,
            match self@.disconnection {
                Some(x) => Some(x.encoding()),
                None => None,
            },
        ));
            lemma_concat_associative(start, fields_bytes(done), fields_bytes(opt_bytes_records(
            7,
            match self@.disconnection {
                Some(x) => Some(x.encoding()),
                None => None,
            },
        )));
        }
        let ghost done = done + opt_bytes_records(
            7,
            match self@.disconnection {
                Some(x) => Some(x.encoding()),
                None => None,
            },
        );
        assert(done == self@.records());
    }

    pub fn encode_to_vec(&self) -> (r: Vec<u8>)
        ensures
            r@ == self@.encoding(),
    {
        let mut out = Vec::new();
        self.encode_into(&mut out);
        assert(out@ =~= self@.encoding());
        out
    }

    fn merge_record(&mut self, fld: &Field, d: u32) -> (r: Result<(), DecodeError>)
        ensures
            match old(self)@.merge_field(fld@, d as nat) {
                Some(m) => r is Ok && final(self)@ == m,
                None => r is Err,
            },
    {
        if fld.number == 1 {
            match wire_i32(&fld.value) {
                Ok(v) => {
                    self.frame_type = Some(v);
                    Ok(())
                },
                Err(e) => Err(e),
            }
        } else if fld.number == 2 {
            if d == 0 {
                return Err(DecodeError);
            }
            match &fld.value {
                WireValue::LengthDelimited(b) => {
                    let mut inner = match self.connection_request.take() {
                        Some(x) => x,
                        None => ConnectionRequestFrame::empty(),
                    };
                    match inner.merge_from(b.as_slice(), d - 1) {
                        Ok(()) => {
                            self.connection_request = Some(inner);
                            Ok(())
                        },
                        Err(e) => Err(e),
                    }
                },
                _ => Err(DecodeError),
            }
        } else if fld.number == 3 {
            if d == 0 {
                return Err(DecodeError);
            }
            match &fld.value {
                WireValue::LengthDelimited(b) => {
                    let mut inner = match self.connection_response.take() {
                        Some(x) => x,
                        None => ConnectionResponseFrame::empty(),
                    };
                    match inner.merge_from(b.as_slice(), d - 1) {
                        Ok(()) => {
                            self.connection_response = Some(inner);
                            Ok(())
                        },
                        Err(e) => Err(e),
                    }
                },
                _ => Err(DecodeError),
            }
        } else if fld.number == 4 {
            if d == 0 {
                return Err(DecodeError);
            }
            match &fld.value {
                WireValue::LengthDelimited(b) => {
                    let mut inner = match self.payload_transfer.take() {
                        Some(x) => x,
                        None => PayloadTransferFrame::empty(),
                    };
                    match inner.merge_from(b.as_slice(), d - 1) {
                        Ok(()) => {
                            self.payload_transfer = Some(inner);
                            Ok(())
                        },
                        Err(e) => Err(e),
                    }
                },
                _ => Err(DecodeError),
            }
        } else if fld.number == 6 {
            if d == 0 {
                return Err(DecodeError);
            }
            match &fld.value {
                WireValue::LengthDelimited(b) => {
                    let mut inner = match self.keep_alive.take() {
                        Some(x) => x,
                        None => KeepAliveFrame::empty(),
                    };
                    match inner.merge_from(b.as_slice(), d - 1) {
                        Ok(()) => {
                            self.keep_alive = Some(inner);
                            Ok(())
                        },
                        Err(e) => Err(e),
                    }
                },
                _ => Err(DecodeError),
            }
        } else if fld.number == 7 {
            if d == 0 {
                return Err(DecodeError);
            }
            match &fld.value {
                WireValue::LengthDelimited(b) => {
                    let mut inner = match self.disconnection.take() {
                        Some(x) => x,
                        None => DisconnectionFrame::empty(),
                    };
                    match inner.merge_from(b.as_slice(), d - 1) {
                        Ok(()) => {
                            self.disconnection = Some(inner);
                            Ok(())
                        },
                        Err(e) => Err(e),
                    }
                },
                _ => Err(DecodeError),
            }
        } else if d == 0 {
            Err(DecodeError)
        } else {
            Ok(())
        }
    }

    /// Merges every record of `bytes` into this message.
    pub fn merge_from(&mut self, bytes: &[u8], d: u32) -> (r: Result<(), DecodeError>)
        ensures
            match old(self)@.merge_bytes(bytes@, d as nat) {
                Some(m) => r is Ok && final(self)@ == m,
                None => r is Err,
            },
    {
        let fields = match read_fields(bytes, d) {
            Some(fs) => fs,
            None => return Err(DecodeError),
        };
        let ghost fs = fields_view(fields@);
        let mut i: usize = 0;
        assert(fs.skip(0) =~= fs);
        while i < fields.len()
            invariant
                i <= fields@.len(),
                fs == fields_view(fields@),
                parse_fields(bytes@, d as nat) == Some(fs),
                old(self)@.merge_all(fs, d as nat) == self@.merge_all(fs.skip(i as int), d as nat),
            decreases fields@.len() - i,
        {
            let ghost before = self@;
            assert(fs.skip(i as int)[0] == fields@[i as int]@);
            match self.merge_record(&fields[i], d) {
                Ok(()) => {},
                Err(e) => {
                    assert(fs.skip(i as int).len() > 0);
                    assert(before.merge_all(fs.skip(i as int), d as nat) is None);
                    return Err(e);
                },
            }
            assert(fs.skip(i as int).drop_first() =~= fs.skip(i + 1));
            i = i + 1;
        }
        assert(fs.skip(i as int) =~= Seq::<FieldModel>::empty());
        Ok(())
    }

    /// Decodes a message, ignoring unknown fields.
    pub fn decode(bytes: &[u8]) -> (r: Result<Self, DecodeError>)
        ensures
            match OfflineV1FrameModel::decoded(bytes@) {
                Some(m) => r matches Ok(x) && x@ == m,
                None => r is Err,
            },
    {
        let mut m = Self::empty();
        match m.merge_from(bytes, RECURSION_BUDGET) {
            Ok(()) => Ok(m),
            Err(e) => Err(e),
        }
    }
}

// --- ConnectionRequestFrame ---

/// Plain-text connection request that opens a session.
#[derive(Clone, Debug, Default, PartialEq)]
pub struct ConnectionRequestFrame {
    pub endpoint_id: Option<String>,
    pub endpoint_name: Option<Vec<u8>>,
    pub handshake_data: Option<Vec<u8>>,
    pub nonce: Option<i32>,
    pub mediums: Vec<i32>,
    pub endpoint_info: Option<Vec<u8>>,
    pub keep_alive_interval_millis: Option<i32>,
    pub keep_alive_timeout_millis: Option<i32>,
}

/// The value of a [`ConnectionRequestFrame`].
#[verifier::ext_equal]
pub struct ConnectionRequestFrameModel {
    pub endpoint_id: Option<Seq<char>>,
    pub endpoint_name: Option<Seq<u8>>,
    pub handshake_data: Option<Seq<u8>>,
    pub nonce: Option<i32>,
    pub mediums: Seq<i32>,
    pub endpoint_info: Option<Seq<u8>>,
    pub keep_alive_interval_millis: Option<i32>,
    pub keep_alive_timeout_millis: Option<i32>,
}

impl View for ConnectionRequestFrame {
    type V = ConnectionRequestFrameModel;

    open spec fn view(&self) -> ConnectionRequestFrameModel {
        ConnectionRequestFrameModel {
            endpoint_id: opt_str_view(self.endpoint_id),
            endpoint_name: opt_bytes_view(self.endpoint_name),
            handshake_data: opt_bytes_view(self.handshake_data),
            nonce: self.nonce,
            mediums: self.mediums@,
            endpoint_info: opt_bytes_view(self.endpoint_info),
            keep_alive_interval_millis: self.keep_alive_interval_millis,
            keep_alive_timeout_millis: self.keep_alive_timeout_millis,
        }
    }
}

impl ConnectionRequestFrameModel {
    /// The message with no field set.
    pub open spec fn empty() -> Self {
        ConnectionRequestFrameModel {
            endpoint_id: None,
            endpoint_name: None,
            handshake_data: None,
            nonce: None,
            mediums: Seq::empty(),
            endpoint_info: None,
            keep_alive_interval_millis: None,
            keep_alive_timeout_millis: None,
        }
    }

    /// The records this message encodes to, in field-number order.
    pub open spec fn records(self) -> Seq<FieldModel> {
        opt_str_records(1, self.endpoint_id)
            + opt_bytes_records(2, self.endpoint_name)
            + opt_bytes_records(3, self.handshake_data)
            + opt_i32_records(4, self.nonce)
            + packed_records(5, i32s_as_u64(self.mediums))
            + opt_bytes_records(6, self.endpoint_info)
            + opt_i32_records(8, self.keep_alive_interval_millis)
            + opt_i32_records(9, self.keep_alive_timeout_millis)
    }

    pub open spec fn encoding(self) -> Seq<u8> {
        fields_bytes(self.records())
    }

    /// Every length fits the wire format, here and in every embedded message.
    pub open spec fn wf(self) -> bool {
        &&& all_encodable(self.records())
    }

    /// The message after one more record is merged into it: a scalar, string
    /// or bytes field takes the new value, an embedded message merges the new
    /// one into itself, and a repeated field appends.
    pub open spec fn merge_field(self, fld: FieldModel, d: nat) -> Option<Self> {
        if fld.number == 1 {
            match string_of(fld.value) {
                Some(c) => Some(ConnectionRequestFrameModel { endpoint_id: Some(c), ..self }),
                None => None,
            }
        } else if fld.number == 2 {
            match payload_of(fld.value) {
                Some(b) => Some(ConnectionRequestFrameModel { endpoint_name: Some(b), ..self }),
                None => None,
            }
        } else if fld.number == 3 {
            match payload_of(fld.value) {
                Some(b) => Some(ConnectionRequestFrameModel { handshake_data: Some(b), ..self }),
                None => None,
            }
        } else if fld.number == 4 {
            match varint_of(fld.value) {
                Some(v) => Some(ConnectionRequestFrameModel { nonce: Some(v as i32), ..self }),
                None => None,
            }
        } else if fld.number == 5 {
            match repeated_values(fld.value) {
                Some(vs) => Some(ConnectionRequestFrameModel { mediums: self.mediums + u64s_as_i32(vs), ..self }),
                None => None,
            }
        } else if fld.number == 6 {
            match payload_of(fld.value) {
                Some(b) => Some(ConnectionRequestFrameModel { endpoint_info: Some(b), ..self }),
                None => None,
            }
        } else if fld.number == 8 {
            match varint_of(fld.value) {
                Some(v) => Some(ConnectionRequestFrameModel { keep_alive_interval_millis: Some(v as i32), ..self }),
                None => None,
            }
        } else if fld.number == 9 {
            match varint_of(fld.value) {
                Some(v) => Some(ConnectionRequestFrameModel { keep_alive_timeout_millis: Some(v as i32), ..self }),
                None => None,
            }
        } else if d == 0 {
            None
        } else {
            Some(self)
        }
    }

    pub open spec fn merge_all(self, fs: Seq<FieldModel>, d: nat) -> Option<Self>
        decreases fs.len(),
    {
        if fs.len() == 0 {
            Some(self)
        } else {
            match self.merge_field(fs[0], d) {
                Some(m) => m.merge_all(fs.drop_first(), d),
                None => None,
            }
        }
    }

    /// The message after every record of `s` is merged into it.
    pub open spec fn merge_bytes(self, s: Seq<u8>, d: nat) -> Option<Self> {
        match parse_fields(s, d) {
            Some(fs) => self.merge_all(fs, d),
            None => None,
        }
    }

    /// The message that `s` encodes, if it is a well-formed encoding.
    pub open spec fn decoded(s: Seq<u8>) -> Option<Self> {
        Self::empty().merge_bytes(s, RECURSION_BUDGET as nat)
    }

    pub proof fn lemma_merge_all_append(self, a: Seq<FieldModel>, b: Seq<FieldModel>, d: nat)
        ensures
            self.merge_all(a + b, d) == match self.merge_all(a, d) {
                Some(m) => m.merge_all(b, d),
                None => None,
            },
        decreases a.len(),
    {
        if a.len() == 0 {
            assert(a + b =~= b);
        } else {
            assert((a + b).drop_first() =~= a.drop_first() + b);
            assert((a + b)[0] == a[0]);
            if let Some(m) = self.merge_field(a[0], d) {
                m.lemma_merge_all_append(a.drop_first(), b, d);
            }
        }
    }

    /// Decoding the encoding of a message gives the message back.
    #[verifier::spinoff_prover]
    #[verifier::rlimit(40)]
    pub proof fn lemma_round_trip(self, d: nat)
        requires
            self.wf(),
            d >= 0,
        ensures
            Self::empty().merge_bytes(self.encoding(), d) == Some(self),
    {
        lemma_parse_fields_bytes(self.records(), d);
        reveal_with_fuel(ConnectionRequestFrameModel::merge_all, 2);
        let s0 = ConnectionRequestFrameModel::empty();
        let s1 = ConnectionRequestFrameModel { endpoint_id: self.endpoint_id, ..s0 };
        if let Some(x) = self.endpoint_id {
            lemma_string_round_trip(x);
        }
        assert(s0.merge_all(opt_str_records(1, self.endpoint_id), d) == Some(s1));
        let s2 = ConnectionRequestFrameModel { endpoint_name: self.endpoint_name, ..s1 };
        assert(s1.merge_all(opt_bytes_records(2, self.endpoint_name), d) == Some(s2));
        let s3 = ConnectionRequestFrameModel { handshake_data: self.handshake_data, ..s2 };
        assert(s2.merge_all(opt_bytes_records(3, self.handshake_data), d) == Some(s3));
        let s4 = ConnectionRequestFrameModel { nonce: self.nonce, ..s3 };
        if let Some(x) = self.nonce {
            lemma_i32_round_trip(x);
        }
        assert(s3.merge_all(opt_i32_records(4, self.nonce), d) == Some(s4));
        let s5 = ConnectionRequestFrameModel { mediums: self.mediums, ..s4 };
        lemma_packed_round_trip(i32s_as_u64(self.mediums));
        lemma_i32s_round_trip(self.mediums);
        assert(Seq::<i32>::empty() + self.mediums =~= self.mediums);
        assert(s4.merge_all(packed_records(5, i32s_as_u64(self.mediums)), d) == Some(s5));
        let s6 = ConnectionRequestFrameModel { endpoint_info: self.endpoint_info, ..s5 };
        assert(s5.merge_all(opt_bytes_records(6, self.endpoint_info), d) == Some(s6));
        let s7 = ConnectionRequestFrameModel { keep_alive_interval_millis: self.keep_alive_interval_millis, ..s6 };
        if let Some(x) = self.keep_alive_interval_millis {
            lemma_i32_round_trip(x);
        }
        assert(s6.merge_all(opt_i32_records(8, self.keep_alive_interval_millis), d) == Some(s7));
        let s8 = ConnectionRequestFrameModel { keep_alive_timeout_millis: self.keep_alive_timeout_millis, ..s7 };
        if let Some(x) = self.keep_alive_timeout_millis {
            lemma_i32_round_trip(x);
        }
        assert(s7.merge_all(opt_i32_records(9, self.keep_alive_timeout_millis), d) == Some(s8));
        s0.lemma_merge_all_append(opt_str_records(1, self.endpoint_id), opt_bytes_records(2, self.endpoint_name), d);
        s0.lemma_merge_all_append(opt_str_records(1, self.endpoint_id) + opt_bytes_records(2, self.endpoint_name), opt_bytes_records(3, self.handshake_data), d);
        s0.lemma_merge_all_append(opt_str_records(1, self.endpoint_id) + opt_bytes_records(2, self.endpoint_name) + opt_bytes_records(3, self.handshake_data), opt_i32_records(4, self.nonce), d);
        s0.lemma_merge_all_append(opt_str_records(1, self.endpoint_id) + opt_bytes_records(2, self.endpoint_name) + opt_bytes_records(3, self.handshake_data) + opt_i32_records(4, self.nonce), packed_records(5, i32s_as_u64(self.mediums)), d);
        s0.lemma_merge_all_append(opt_str_records(1, self.endpoint_id) + opt_bytes_records(2, self.endpoint_name) + opt_bytes_records(3, self.handshake_data) + opt_i32_records(4, self.nonce) + packed_records(5, i32s_as_u64(self.mediums)), opt_bytes_records(6, self.endpoint_info), d);
        s0.lemma_merge_all_append(opt_str_records(1, self.endpoint_id) + opt_bytes_records(2, self.endpoint_name) + opt_bytes_records(3, self.handshake_data) + opt_i32_records(4, self.nonce) + packed_records(5, i32s_as_u64(self.mediums)) + opt_bytes_records(6, self.endpoint_info), opt_i32_records(8, self.keep_alive_interval_millis), d);
        s0.lemma_merge_all_append(opt_str_records(1, self.endpoint_id) + opt_bytes_records(2, self.endpoint_name) + opt_bytes_records(3, self.handshake_data) + opt_i32_records(4, self.nonce) + packed_records(5, i32s_as_u64(self.mediums)) + opt_bytes_records(6, self.endpoint_info) + opt_i32_records(8, self.keep_alive_interval_millis), opt_i32_records(9, self.keep_alive_timeout_millis), d);
        assert(s8 =~= self);
    }
}

impl ConnectionRequestFrame {
    /// The message with no field set.
    pub fn empty() -> (r: Self)
        ensures
            r@ == ConnectionRequestFrameModel::empty(),
    {
        let r = ConnectionRequestFrame {
            endpoint_id: None,
            endpoint_name: None,
            handshake_data: None,
            nonce: None,
            mediums: Vec::new(),
            endpoint_info: None,
            keep_alive_interval_millis: None,
            keep_alive_timeout_millis: None,
        };
        assert(r@ =~= ConnectionRequestFrameModel::empty());
        r
    }

    /// Appends the encoding of this message.
    #[verifier::spinoff_prover]
    #[verifier::rlimit(40)]
    pub fn encode_into(&self, out: &mut Vec<u8>)
        ensures
            final(out)@ == old(out)@ + self@.encoding(),
    {
        let ghost start = out@;
        put_opt_str(out, 1, &self.endpoint_id);
        let ghost done = opt_str_records(1, self@.endpoint_id);
        let ghost mid = out@;
        put_opt_bytes(out, 2, &self.endpoint_name);
        proof {
            lemma_fields_bytes_append(done, opt_bytes_records(2, self@.endpoint_name));
            lemma_concat_associative(start, fields_bytes(done), fields_bytes(opt_bytes_records(2, self@.endpoint_name)));
        }
        let ghost done = done + opt_bytes_records(2, self@.endpoint_name);
        let ghost mid = out@;
        put_opt_bytes(out, 3, &self.handshake_data);
        proof {
            lemma_fields_bytes_append(done, opt_bytes_records(3, self@.handshake_data));
            lemma_concat_associative(start, fields_bytes(done), fields_bytes(opt_bytes_records(3, self@.handshake_data)));
        }
        let ghost done = done + opt_bytes_records(3, self@.handshake_data);
        let ghost mid = out@;
        put_opt_i32(out, 4, self.nonce);
        proof {
            lemma_fields_bytes_append(done, opt_i32_records(4, self@.nonce));
            lemma_concat_associative(start, fields_bytes(done), fields_bytes(opt_i32_records(4, self@.nonce)));
        }
        let ghost done = done + opt_i32_records(4, self@.nonce);
        let ghost mid = out@;
        let vs = i32s_to_u64(&self.mediums);
        put_packed(out, 5, &vs);
        proof {
            lemma_fields_bytes_append(done, packed_records(5, i32s_as_u64(self@.mediums)));
            lemma_concat_associative(start, fields_bytes(done), fields_bytes(packed_records(5, i32s_as_u64(self@.mediums))));
        }
        let ghost done = done + packed_records(5, i32s_as_u64(self@.mediums));
        let ghost mid = out@;
        put_opt_bytes(out, 6, &self.endpoint_info);
        proof {
            lemma_fields_bytes_append(done, opt_bytes_records(6, self@.endpoint_info));
            lemma_concat_associative(start, fields_bytes(done), fields_bytes(opt_bytes_records(6, self@.endpoint_info)));
        }
        let ghost done = done + opt_bytes_records(6, self@.endpoint_info);
        let ghost mid = out@;
        put_opt_i32(out, 8, self.keep_alive_interval_millis);
        proof {
            lemma_fields_bytes_append(done, opt_i32_records(8, self@.keep_alive_interval_millis));
            lemma_concat_associative(start, fields_bytes(done), fields_bytes(opt_i32_records(8, self@.keep_alive_interval_millis)));
        }
        let ghost done = done + opt_i32_records(8, self@.keep_alive_interval_millis);
        let ghost mid = out@;
        put_opt_i32(out, 9, self.keep_alive_timeout_millis);
        proof {
            lemma_fields_bytes_append(done, opt_i32_records(9, self@.keep_alive_timeout_millis));
            lemma_concat_associative(start, fields_bytes(done), fields_bytes(opt_i32_records(9, self@.keep_alive_timeout_millis)));
        }
        let ghost done = done + opt_i32_records(9, self@.keep_alive_timeout_millis);
        assert(done == self@.records());
    }

    pub fn encode_to_vec(&self) -> (r: Vec<u8>)
        ensures
            r@ == self@.encoding(),
    {
        let mut out = Vec::new();
        self.encode_into(&mut out);
        assert(out@ =~= self@.encoding());
        out
    }

    fn merge_record(&mut self, fld: &Field, d: u32) -> (r: Result<(), DecodeError>)
        ensures
            match old(self)@.merge_field(fld@, d as nat) {
                Some(m) => r is Ok && final(self)@ == m,
                None => r is Err,
            },
    {
        if fld.number == 1 {
            match wire_string(&fld.value) {
                Ok(v) => {
                    self.endpoint_id = Some(v);
                    Ok(())
                },
                Err(e) => Err(e),
            }
        } else if fld.number == 2 {
            match wire_bytes(&fld.value) {
                Ok(v) => {
                    self.endpoint_name = Some(v);
                    Ok(())
                },
                Err(e) => Err(e),
            }
        } else if fld.number == 3 {
            match wire_bytes(&fld.value) {
                Ok(v) => {
                    self.handshake_data = Some(v);
                    Ok(())
                },
                Err(e) => Err(e),
            }
        } else if fld.number == 4 {
            match wire_i32(&fld.value) {
                Ok(v) => {
                    self.nonce = Some(v);
                    Ok(())
                },
                Err(e) => Err(e),
            }
        } else if fld.number == 5 {
            match wire_repeated(&fld.value) {
                Ok(vs) => {
                    extend_i32(&mut self.mediums, &vs);
                    Ok(())
                },
                Err(e) => Err(e),
            }
        } else if fld.number == 6 {
            match wire_bytes(&fld.value) {
                Ok(v) => {
                    self.endpoint_info = Some(v);
                    Ok(())
                },
                Err(e) => Err(e),
            }
        } else if fld.number == 8 {
            match wire_i32(&fld.value) {
                Ok(v) => {
                    self.keep_alive_interval_millis = Some(v);
                    Ok(())
                },
                Err(e) => Err(e),
            }
        } else if fld.number == 9 {
            match wire_i32(&fld.value) {
                Ok(v) => {
                    self.keep_alive_timeout_millis = Some(v);
                    Ok(())
                },
                Err(e) => Err(e),
            }
        } else if d == 0 {
            Err(DecodeError)
        } else {
            Ok(())
        }
    }

    /// Merges every record of `bytes` into this message.
    pub fn merge_from(&mut self, bytes: &[u8], d: u32) -> (r: Result<(), DecodeError>)
        ensures
            match old(self)@.merge_bytes(bytes@, d as nat) {
                Some(m) => r is Ok && final(self)@ == m,
                None => r is Err,
            },
    {
        let fields = match read_fields(bytes, d) {
            Some(fs) => fs,
            None => return Err(DecodeError),
        };
        let ghost fs = fields_view(fields@);
        let mut i: usize = 0;
        assert(fs.skip(0) =~= fs);
        while i < fields.len()
            invariant
                i <= fields@.len(),
                fs == fields_view(fields@),
                parse_fields(bytes@, d as nat) == Some(fs),
                old(self)@.merge_all(fs, d as nat) == self@.merge_all(fs.skip(i as int), d as nat),
            decreases fields@.len() - i,
        {
            let ghost before = self@;
            assert(fs.skip(i as int)[0] == fields@[i as int]@);
            match self.merge_record(&fields[i], d) {
                Ok(()) => {},
                Err(e) => {
                    assert(fs.skip(i as int).len() > 0);
                    assert(before.merge_all(fs.skip(i as int), d as nat) is None);
                    return Err(e);
                },
            }
            assert(fs.skip(i as int).drop_first() =~= fs.skip(i + 1));
            i = i + 1;
        }
        assert(fs.skip(i as int) =~= Seq::<FieldModel>::empty());
        Ok(())
    }

    /// Decodes a message, ignoring unknown fields.
    pub fn decode(bytes: &[u8]) -> (r: Result<Self, DecodeError>)
        ensures
            match ConnectionRequestFrameModel::decoded(bytes@) {
                Some(m) => r matches Ok(x) && x@ == m,
                None => r is Err,
            },
    {
        let mut m = Self::empty();
        match m.merge_from(bytes, RECURSION_BUDGET) {
            Ok(()) => Ok(m),
            Err(e) => Err(e),
        }
    }
}

// --- ConnectionResponseFrame ---

/// Plain-text answer to a connection request.
#[derive(Clone, Debug, Default, PartialEq)]
pub struct ConnectionResponseFrame {
    pub status: Option<i32>,
    pub handshake_data: Option<Vec<u8>>,
    pub response: Option<i32>,
    pub os_info: Option<OsInfo>,
    pub multiplex_socket_bitmask: Option<i32>,
    pub nearby_connections_version: Option<i32>,
    pub safe_to_disconnect_version: Option<i32>,
    pub keep_alive_timeout_millis: Option<i32>,
}

/// The value of a [`ConnectionResponseFrame`].
#[verifier::ext_equal]
pub struct ConnectionResponseFrameModel {
    pub status: Option<i32>,
    pub handshake_data: Option<Seq<u8>>,
    pub response: Option<i32>,
    pub os_info: Option<OsInfoModel>,
    pub multiplex_socket_bitmask: Option<i32>,
    pub nearby_connections_version: Option<i32>,
    pub safe_to_disconnect_version: Option<i32>,
    pub keep_alive_timeout_millis: Option<i32>,
}

impl View for ConnectionResponseFrame {
    type V = ConnectionResponseFrameModel;

    open spec fn view(&self) -> ConnectionResponseFrameModel {
        ConnectionResponseFrameModel {
            status: self.status,
            handshake_data: opt_bytes_view(self.handshake_data),
            response: self.response,
            os_info: match self.os_info {
                Some(x) => Some(x@),
                None => None,
            },
            multiplex_socket_bitmask: self.multiplex_socket_bitmask,
            nearby_connections_version: self.nearby_connections_version,
            safe_to_disconnect_version: self.safe_to_disconnect_version,
            keep_alive_timeout_millis: self.keep_alive_timeout_millis,
        }
    }
}

impl ConnectionResponseFrameModel {
    /// The message with no field set.
    pub open spec fn empty() -> Self {
        ConnectionResponseFrameModel {
            status: None,
            handshake_data: None,
            response: None,
            os_info: None,
            multiplex_socket_bitmask: None,
            nearby_connections_version: None,
            safe_to_disconnect_version: None,
            keep_alive_timeout_millis: None,
        }
    }

    /// The records this message encodes to, in field-number order.
    pub open spec fn records(self) -> Seq<FieldModel> {
        opt_i32_records(1, self.status)
            + opt_bytes_records(2, self.handshake_data)
            + opt_i32_records(3, self.response)
            + opt_bytes_records(
            4,
            match self.os_info {
                Some(x) => Some(x.encoding()),
                None => None,
            },
        )
            + opt_i32_records(5, self.multiplex_socket_bitmask)
            + opt_i32_records(6, self.nearby_connections_version)
            + opt_i32_records(7, self.safe_to_disconnect_version)
            + opt_i32_records(9, self.keep_alive_timeout_millis)
    }

    pub open spec fn encoding(self) -> Seq<u8> {
        fields_bytes(self.records())
    }

    /// Every length fits the wire format, here and in every embedded message.
    pub open spec fn wf(self) -> bool {
        &&& all_encodable(self.records())
        &&& match self.os_info {
            Some(x) => x.wf(),
            None => true,
        }
    }

    /// The message after one more record is merged into it: a scalar, string
    /// or bytes field takes the new value, an embedded message merges the new
    /// one into itself, and a repeated field appends.
    pub open spec fn merge_field(self, fld: FieldModel, d: nat) -> Option<Self> {
        if fld.number == 1 {
            match varint_of(fld.value) {
                Some(v) => Some(ConnectionResponseFrameModel { status: Some(v as i32), ..self }),
                None => None,
            }
        } else if fld.number == 2 {
            match payload_of(fld.value) {
                Some(b) => Some(ConnectionResponseFrameModel { handshake_data: Some(b), ..self }),
                None => None,
            }
        } else if fld.number == 3 {
            match varint_of(fld.value) {
                Some(v) => Some(ConnectionResponseFrameModel { response: Some(v as i32), ..self }),
                None => None,
            }
        } else if fld.number == 4 {
            if d == 0 {
                None
            } else {
                match payload_of(fld.value) {
                    Some(b) => match (match self.os_info {
                        Some(x) => x,
                        None => OsInfoModel::empty(),
                    }).merge_bytes(b, (d - 1) as nat) {
                        Some(x) => Some(ConnectionResponseFrameModel { os_info: Some(x), ..self }),
                        None => None,
                    },
                    None => None,
                }
            }
        } else if fld.number == 5 {
            match varint_of(fld.value) {
                Some(v) => Some(ConnectionResponseFrameModel { multiplex_socket_bitmask: Some(v as i32), ..self }),
                None => None,
            }
        } else if fld.number == 6 {
            match varint_of(fld.value) {
                Some(v) => Some(ConnectionResponseFrameModel { nearby_connections_version: Some(v as i32), ..self }),
                None => None,
            }
        } else if fld.number == 7 {
            match varint_of(fld.value) {
                Some(v) => Some(ConnectionResponseFrameModel { safe_to_disconnect_version: Some(v as i32), ..self }),
                None => None,
            }
        } else if fld.number == 9 {
            match varint_of(fld.value) {
                Some(v) => Some(ConnectionResponseFrameModel { keep_alive_timeout_millis: Some(v as i32), ..self }),
                None => None,
            }
        } else if d == 0 {
            None
        } else {
            Some(self)
        }
    }

    pub open spec fn merge_all(self, fs: Seq<FieldModel>, d: nat) -> Option<Self>
        decreases fs.len(),
    {
        if fs.len() == 0 {
            Some(self)
        } else {
            match self.merge_field(fs[0], d) {
                Some(m) => m.merge_all(fs.drop_first(), d),
                None => None,
            }
        }
    }

    /// The message after every record of `s` is merged into it.
    pub open spec fn merge_bytes(self, s: Seq<u8>, d: nat) -> Option<Self> {
        match parse_fields(s, d) {
            Some(fs) => self.merge_all(fs, d),
            None => None,
        }
    }

    /// The message that `s` encodes, if it is a well-formed encoding.
    pub open spec fn decoded(s: Seq<u8>) -> Option<Self> {
        Self::empty().merge_bytes(s, RECURSION_BUDGET as nat)
    }

    pub proof fn lemma_merge_all_append(self, a: Seq<FieldModel>, b: Seq<FieldModel>, d: nat)
        ensures
            self.merge_all(a + b, d) == match self.merge_all(a, d) {
                Some(m) => m.merge_all(b, d),
                None => None,
            },
        decreases a.len(),
    {
        if a.len() == 0 {
            assert(a + b =~= b);
        } else {
            assert((a + b).drop_first() =~= a.drop_first() + b);
            assert((a + b)[0] == a[0]);
            if let Some(m) = self.merge_field(a[0], d) {
                m.lemma_merge_all_append(a.drop_first(), b, d);
            }
        }
    }

    /// Decoding the encoding of a message gives the message back.
    #[verifier::spinoff_prover]
    #[verifier::rlimit(40)]
    pub proof fn lemma_round_trip(self, d: nat)
        requires
            self.wf(),
            d >= 1,
        ensures
            Self::empty().merge_bytes(self.encoding(), d) == Some(self),
    {
        lemma_parse_fields_bytes(self.records(), d);
        reveal_with_fuel(ConnectionResponseFrameModel::merge_all, 2);
        let s0 = ConnectionResponseFrameModel::empty();
        let s1 = ConnectionResponseFrameModel { status: self.status, ..s0 };
        if let Some(x) = self.status {
            lemma_i32_round_trip(x);
        }
        assert(s0.merge_all(opt_i32_records(1, self.status), d) == Some(s1));
        let s2 = ConnectionResponseFrameModel { handshake_data: self.handshake_data, ..s1 };
        assert(s1.merge_all(opt_bytes_records(2, self.handshake_data), d) == Some(s2));
        let s3 = ConnectionResponseFrameModel { response: self.response, ..s2 };
        if let Some(x) = self.response {
            lemma_i32_round_trip(x);
        }
        assert(s2.merge_all(opt_i32_records(3, self.response), d) == Some(s3));
        let s4 = ConnectionResponseFrameModel { os_info: self.os_info, ..s3 };
        if let Some(x) = self.os_info {
            x.lemma_round_trip((d - 1) as nat);
        }
        assert(s3.merge_all(opt_bytes_records(
            4,
            match self.os_info {
                Some(x) => Some(x.encoding()),
                None => None,
            },
        ), d) == Some(s4));
        let s5 = ConnectionResponseFrameModel { multiplex_socket_bitmask: self.multiplex_socket_bitmask, ..s4 };
        if let Some(x) = self.multiplex_socket_bitmask {
            lemma_i32_round_trip(x);
        }
        assert(s4.merge_all(opt_i32_records(5, self.multiplex_socket_bitmask), d) == Some(s5));
        let s6 = ConnectionResponseFrameModel { nearby_connections_version: self.nearby_connections_version, ..s5 };
        if let Some(x) = self.nearby_connections_version {
            lemma_i32_round_trip(x);
        }
        assert(s5.merge_all(opt_i32_records(6, self.nearby_connections_version), d) == Some(s6));
        let s7 = ConnectionResponseFrameModel { safe_to_disconnect_version: self.safe_to_disconnect_version, ..s6 };
        if let Some(x) = self.safe_to_disconnect_version {
            lemma_i32_round_trip(x);
        }
        assert(s6.merge_all(opt_i32_records(7, self.safe_to_disconnect_version), d) == Some(s7));
        let s8 = ConnectionResponseFrameModel { keep_alive_timeout_millis: self.keep_alive_timeout_millis, ..s7 };
        if let Some(x) = self.keep_alive_timeout_millis {
            lemma_i32_round_trip(x);
        }
        assert(s7.merge_all(opt_i32_records(9, self.keep_alive_timeout_millis), d) == Some(s8));
        s0.lemma_merge_all_append(opt_i32_records(1, self.status), opt_bytes_records(2, self.handshake_data), d);
        s0.lemma_merge_all_append(opt_i32_records(1, self.status) + opt_bytes_records(2, self.handshake_data), opt_i32_records(3, self.response), d);
        s0.lemma_merge_all_append(opt_i32_records(1, self.status) + opt_bytes_records(2, self.handshake_data) + opt_i32_records(3, self.response), opt_bytes_records(
            4,
            match self.os_info {
                Some(x) => Some(x.encoding()),
                None => None,
            },
        ), d);
        s0.lemma_merge_all_append(opt_i32_records(1, self.status) + opt_bytes_records(2, self.handshake_data) + opt_i32_records(3, self.response) + opt_bytes_records(
            4,
            match self.os_info {
                Some(x) => Some(x.encoding()),
                None => None,
            },
        ), opt_i32_records(5, self.multiplex_socket_bitmask), d);
        s0.lemma_merge_all_append(opt_i32_records(1, self.status) + opt_bytes_records(2, self.handshake_data) + opt_i32_records(3, self.response) + opt_bytes_records(
            4,
            match self.os_info {
                Some(x) => Some(x.encoding()),
                None => None,
            },
        ) + opt_i32_records(5, self.multiplex_socket_bitmask), opt_i32_records(6, self.nearby_connections_version), d);
        s0.lemma_merge_all_append(opt_i32_records(1, self.status) + opt_bytes_records(2, self.handshake_data) + opt_i32_records(3, self.response) + opt_bytes_records(
            4,
            match self.os_info {
                Some(x) => Some(x.encoding()),
                None => None,
            },
        ) + opt_i32_records(5, self.multiplex_socket_bitmask) + opt_i32_records(6, self.nearby_connections_version), opt_i32_records(7, self.safe_to_disconnect_version), d);
        s0.lemma_merge_all_append(opt_i32_records(1, self.status) + opt_bytes_records(2, self.handshake_data) + opt_i32_records(3, self.response) + opt_bytes_records(
            4,
            match self.os_info {
                Some(x) => Some(x.encoding()),
                None => None,
            },
        ) + opt_i32_records(5, self.multiplex_socket_bitmask) + opt_i32_records(6, self.nearby_connections_version) + opt_i32_records(7, self.safe_to_disconnect_version), opt_i32_records(9, self.keep_alive_timeout_millis), d);
        assert(s8 =~= self);
    }
}

impl ConnectionResponseFrame {
    /// The message with no field set.
    pub fn empty() -> (r: Self)
        ensures
            r@ == ConnectionResponseFrameModel::empty(),
    {
        let r = ConnectionResponseFrame {
            status: None,
            handshake_data: None,
            response: None,
            os_info: None,
            multiplex_socket_bitmask: None,
            nearby_connections_version: None,
            safe_to_disconnect_version: None,
            keep_alive_timeout_millis: None,
        };
        assert(r@ =~= ConnectionResponseFrameModel::empty());
        r
    }

    /// Appends the encoding of this message.
    #[verifier::spinoff_prover]
    #[verifier::rlimit(40)]
    pub fn encode_into(&self, out: &mut Vec<u8>)
        ensures
            final(out)@ == old(out)@ + self@.encoding(),
    {
        let ghost start = out@;
        put_opt_i32(out, 1, self.status);
        let ghost done = opt_i32_records(1, self@.status);
        let ghost mid = out@;
        put_opt_bytes(out, 2, &self.handshake_data);
        proof {
            lemma_fields_bytes_append(done, opt_bytes_records(2, self@.handshake_data));
            lemma_concat_associative(start, fields_bytes(done), fields_bytes(opt_bytes_records(2, self@.handshake_data)));
        }
        let ghost done = done + opt_bytes_records(2, self@.handshake_data);
        let ghost mid = out@;
        put_opt_i32(out, 3, self.response);
        proof {
            lemma_fields_bytes_append(done, opt_i32_records(3, self@.response));
            lemma_concat_associative(start, fields_bytes(done), fields_bytes(opt_i32_records(3, self@.response)));
        }
        let ghost done = done + opt_i32_records(3, self@.response);
        let ghost mid = out@;
        let enc: Option<Vec<u8>> = match &self.os_info {
            Some(x) => Some(x.encode_to_vec()),
            None => None,
        };
        put_opt_bytes(out, 4, &enc);
        proof {
            lemma_fields_bytes_append(done, opt_bytes_records(
            4,
            match self@.os_info {
                Some(x) => Some(x.encoding()),
                None => None,
            },
        ));
            lemma_concat_associative(start, fields_bytes(done), fields_bytes(opt_bytes_records(
            4,
            match self@.os_info {
                Some(x) => Some(x.encoding()),
                None => None,
            },
        )));
        }
        let ghost done = done + opt_bytes_records(
            4,
            match self@.os_info {
                Some(x) => Some(x.encoding()),
                None => None,
            },
        );
        let ghost mid = out@;
        put_opt_i32(out, 5, self.multiplex_socket_bitmask);
        proof {
            lemma_fields_bytes_append(done, opt_i32_records(5, self@.multiplex_socket_bitmask));
            lemma_concat_associative(start, fields_bytes(done), fields_bytes(opt_i32_records(5, self@.multiplex_socket_bitmask)));
        }
        let ghost done = done + opt_i32_records(5, self@.multiplex_socket_bitmask);
        let ghost mid = out@;
        put_opt_i32(out, 6, self.nearby_connections_version);
        proof {
            lemma_fields_bytes_append(done, opt_i32_records(6, self@.nearby_connections_version));
            lemma_concat_associative(start, fields_bytes(done), fields_bytes(opt_i32_records(6, self@.nearby_connections_version)));
        }
        let ghost done = done + opt_i32_records(6, self@.nearby_connections_version);
        let ghost mid = out@;
        put_opt_i32(out, 7, self.safe_to_disconnect_version);
        proof {
            lemma_fields_bytes_append(done, opt_i32_records(7, self@.safe_to_disconnect_version));
            lemma_concat_associative(start, fields_bytes(done), fields_bytes(opt_i32_records(7, self@.safe_to_disconnect_version)));
        }
        let ghost done = done + opt_i32_records(7, self@.safe_to_disconnect_version);
        let ghost mid = out@;
        put_opt_i32(out, 9, self.keep_alive_timeout_millis);
        proof {
            lemma_fields_bytes_append(done, opt_i32_records(9, self@.keep_alive_timeout_millis));
            lemma_concat_associative(start, fields_bytes(done), fields_bytes(opt_i32_records(9, self@.keep_alive_timeout_millis)));
        }
        let ghost done = done + opt_i32_records(9, self@.keep_alive_timeout_millis);
        assert(done == self@.records());
    }

    pub fn encode_to_vec(&self) -> (r: Vec<u8>)
        ensures
            r@ == self@.encoding(),
    {
        let mut out = Vec::new();
        self.encode_into(&mut out);
        assert(out@ =~= self@.encoding());
        out
    }

    fn merge_record(&mut self, fld: &Field, d: u32) -> (r: Result<(), DecodeError>)
        ensures
            match old(self)@.merge_field(fld@, d as nat) {
                Some(m) => r is Ok && final(self)@ == m,
                None => r is Err,
            },
    {
        if fld.number == 1 {
            match wire_i32(&fld.value) {
                Ok(v) => {
                    self.status = Some(v);
                    Ok(())
                },
                Err(e) => Err(e),
            }
        } else if fld.number == 2 {
            match wire_bytes(&fld.value) {
                Ok(v) => {
                    self.handshake_data = Some(v);
                    Ok(())
                },
                Err(e) => Err(e),
            }
        } else if fld.number == 3 {
            match wire_i32(&fld.value) {
                Ok(v) => {
                    self.response = Some(v);
                    Ok(())
                },
                Err(e) => Err(e),
            }
        } else if fld.number == 4 {
            if d == 0 {
                return Err(DecodeError);
            }
            match &fld.value {
                WireValue::LengthDelimited(b) => {
                    let mut inner = match self.os_info.take() {
                        Some(x) => x,
                        None => OsInfo::empty(),
                    };
                    match inner.merge_from(b.as_slice(), d - 1) {
                        Ok(()) => {
                            self.os_info = Some(inner);
                            Ok(())
                        },
                        Err(e) => Err(e),
                    }
                },
                _ => Err(DecodeError),
            }
        } else if fld.number == 5 {
            match wire_i32(&fld.value) {
                Ok(v) => {
                    self.multiplex_socket_bitmask = Some(v);
                    Ok(())
                },
                Err(e) => Err(e),
            }
        } else if fld.number == 6 {
            match wire_i32(&fld.value) {
                Ok(v) => {
                    self.nearby_connections_version = Some(v);
                    Ok(())
                },
                Err(e) => Err(e),
            }
        } else if fld.number == 7 {
            match wire_i32(&fld.value) {
                Ok(v) => {
                    self.safe_to_disconnect_version = Some(v);
                    Ok(())
                },
                Err(e) => Err(e),
            }
        } else if fld.number == 9 {
            match wire_i32(&fld.value) {
                Ok(v) => {
                    self.keep_alive_timeout_millis = Some(v);
                    Ok(())
                },
                Err(e) => Err(e),
            }
        } else if d == 0 {
            Err(DecodeError)
        } else {
            Ok(())
        }
    }

    /// Merges every record of `bytes` into this message.
    pub fn merge_from(&mut self, bytes: &[u8], d: u32) -> (r: Result<(), DecodeError>)
        ensures
            match old(self)@.merge_bytes(bytes@, d as nat) {
                Some(m) => r is Ok && final(self)@ == m,
                None => r is Err,
            },
    {
        let fields = match read_fields(bytes, d) {
            Some(fs) => fs,
            None => return Err(DecodeError),
        };
        let ghost fs = fields_view(fields@);
        let mut i: usize = 0;
        assert(fs.skip(0) =~= fs);
        while i < fields.len()
            invariant
                i <= fields@.len(),
                fs == fields_view(fields@),
                parse_fields(bytes@, d as nat) == Some(fs),
                old(self)@.merge_all(fs, d as nat) == self@.merge_all(fs.skip(i as int), d as nat),
            decreases fields@.len() - i,
        {
            let ghost before = self@;
            assert(fs.skip(i as int)[0] == fields@[i as int]@);
            match self.merge_record(&fields[i], d) {
                Ok(()) => {},
                Err(e) => {
                    assert(fs.skip(i as int).len() > 0);
                    assert(before.merge_all(fs.skip(i as int), d as nat) is None);
                    return Err(e);
                },
            }
            assert(fs.skip(i as int).drop_first() =~= fs.skip(i + 1));
            i = i + 1;
        }
        assert(fs.skip(i as int) =~= Seq::<FieldModel>::empty());
        Ok(())
    }

    /// Decodes a message, ignoring unknown fields.
    pub fn decode(bytes: &[u8]) -> (r: Result<Self, DecodeError>)
        ensures
            match ConnectionResponseFrameModel::decoded(bytes@) {
                Some(m) => r matches Ok(x) && x@ == m,
                None => r is Err,
            },
    {
        let mut m = Self::empty();
        match m.merge_from(bytes, RECURSION_BUDGET) {
            Ok(()) => Ok(m),
            Err(e) => Err(e),
        }
    }
}

// --- OsInfo ---

/// Operating system of the peer.
#[derive(Clone, Debug, Default, PartialEq)]
pub struct OsInfo {
    pub os_type: Option<i32>,
}

/// The value of a [`OsInfo`].
#[verifier::ext_equal]
pub struct OsInfoModel {
    pub os_type: Option<i32>,
}

impl View for OsInfo {
    type V = OsInfoModel;

    open spec fn view(&self) -> OsInfoModel {
        OsInfoModel {
            os_type: self.os_type,
        }
    }
}

impl OsInfoModel {
    /// The message with no field set.
    pub open spec fn empty() -> Self {
        OsInfoModel {
            os_type: None,
        }
    }

    /// The records this message encodes to, in field-number order.
    pub open spec fn records(self) -> Seq<FieldModel> {
        opt_i32_records(1, self.os_type)
    }

    pub open spec fn encoding(self) -> Seq<u8> {
        fields_bytes(self.records())
    }

    /// Every length fits the wire format, here and in every embedded message.
    pub open spec fn wf(self) -> bool {
        &&& all_encodable(self.records())
    }

    /// The message after one more record is merged into it: a scalar, string
    /// or bytes field takes the new value, an embedded message merges the new
    /// one into itself, and a repeated field appends.
    pub open spec fn merge_field(self, fld: FieldModel, d: nat) -> Option<Self> {
        if fld.number == 1 {
            match varint_of(fld.value) {
                Some(v) => Some(OsInfoModel { os_type: Some(v as i32), ..self }),
                None => None,
            }
        } else if d == 0 {
            None
        } else {
            Some(self)
        }
    }

    pub open spec fn merge_all(self, fs: Seq<FieldModel>, d: nat) -> Option<Self>
        decreases fs.len(),
    {
        if fs.len() == 0 {
            Some(self)
        } else {
            match self.merge_field(fs[0], d) {
                Some(m) => m.merge_all(fs.drop_first(), d),
                None => None,
            }
        }
    }

    /// The message after every record of `s` is merged into it.
    pub open spec fn merge_bytes(self, s: Seq<u8>, d: nat) -> Option<Self> {
        match parse_fields(s, d) {
            Some(fs) => self.merge_all(fs, d),
            None => None,
        }
    }

    /// The message that `s` encodes, if it is a well-formed encoding.
    pub open spec fn decoded(s: Seq<u8>) -> Option<Self> {
        Self::empty().merge_bytes(s, RECURSION_BUDGET as nat)
    }

    pub proof fn lemma_merge_all_append(self, a: Seq<FieldModel>, b: Seq<FieldModel>, d: nat)
        ensures
            self.merge_all(a + b, d) == match self.merge_all(a, d) {
                Some(m) => m.merge_all(b, d),
                None => None,
            },
        decreases a.len(),
    {
        if a.len() == 0 {
            assert(a + b =~= b);
        } else {
            assert((a + b).drop_first() =~= a.drop_first() + b);
            assert((a + b)[0] == a[0]);
            if let Some(m) = self.merge_field(a[0], d) {
                m.lemma_merge_all_append(a.drop_first(), b, d);
            }
        }
    }

    /// Decoding the encoding of a message gives the message back.
    #[verifier::spinoff_prover]
    #[verifier::rlimit(40)]
    pub proof fn lemma_round_trip(self, d: nat)
        requires
            self.wf(),
            d >= 0,
        ensures
            Self::empty().merge_bytes(self.encoding(), d) == Some(self),
    {
        lemma_parse_fields_bytes(self.records(), d);
        reveal_with_fuel(OsInfoModel::merge_all, 2);
        let s0 = OsInfoModel::empty();
        let s1 = OsInfoModel { os_type: self.os_type, ..s0 };
        if let Some(x) = self.os_type {
            lemma_i32_round_trip(x);
        }
        assert(s0.merge_all(opt_i32_records(1, self.os_type), d) == Some(s1));
        assert(s1 =~= self);
    }
}

impl OsInfo {
    /// The message with no field set.
    pub fn empty() -> (r: Self)
        ensures
            r@ == OsInfoModel::empty(),
    {
        let r = OsInfo {
            os_type: None,
        };
        assert(r@ =~= OsInfoModel::empty());
        r
    }

    /// Appends the encoding of this message.
    #[verifier::spinoff_prover]
    #[verifier::rlimit(40)]
    pub fn encode_into(&self, out: &mut Vec<u8>)
        ensures
            final(out)@ == old(out)@ + self@.encoding(),
    {
        let ghost start = out@;
        put_opt_i32(out, 1, self.os_type);
        let ghost done = opt_i32_records(1, self@.os_type);
        assert(done == self@.records());
    }

    pub fn encode_to_vec(&self) -> (r: Vec<u8>)
        ensures
            r@ == self@.encoding(),
    {
        let mut out = Vec::new();
        self.encode_into(&mut out);
        assert(out@ =~= self@.encoding());
        out
    }

    fn merge_record(&mut self, fld: &Field, d: u32) -> (r: Result<(), DecodeError>)
        ensures
            match old(self)@.merge_field(fld@, d as nat) {
                Some(m) => r is Ok && final(self)@ == m,
                None => r is Err,
            },
    {
        if fld.number == 1 {
            match wire_i32(&fld.value) {
                Ok(v) => {
                    self.os_type = Some(v);
                    Ok(())
                },
                Err(e) => Err(e),
            }
        } else if d == 0 {
            Err(DecodeError)
        } else {
            Ok(())
        }
    }

    /// Merges every record of `bytes` into this message.
    pub fn merge_from(&mut self, bytes: &[u8], d: u32) -> (r: Result<(), DecodeError>)
        ensures
            match old(self)@.merge_bytes(bytes@, d as nat) {
                Some(m) => r is Ok && final(self)@ == m,
                None => r is Err,
            },
    {
        let fields = match read_fields(bytes, d) {
            Some(fs) => fs,
            None => return Err(DecodeError),
        };
        let ghost fs = fields_view(fields@);
        let mut i: usize = 0;
        assert(fs.skip(0) =~= fs);
        while i < fields.len()
            invariant
                i <= fields@.len(),
                fs == fields_view(fields@),
                parse_fields(bytes@, d as nat) == Some(fs),
                old(self)@.merge_all(fs, d as nat) == self@.merge_all(fs.skip(i as int), d as nat),
            decreases fields@.len() - i,
        {
            let ghost before = self@;
            assert(fs.skip(i as int)[0] == fields@[i as int]@);
            match self.merge_record(&fields[i], d) {
                Ok(()) => {},
                Err(e) => {
                    assert(fs.skip(i as int).len() > 0);
                    assert(before.merge_all(fs.skip(i as int), d as nat) is None);
                    return Err(e);
                },
            }
            assert(fs.skip(i as int).drop_first() =~= fs.skip(i + 1));
            i = i + 1;
        }
        assert(fs.skip(i as int) =~= Seq::<FieldModel>::empty());
        Ok(())
    }

    /// Decodes a message, ignoring unknown fields.
    pub fn decode(bytes: &[u8]) -> (r: Result<Self, DecodeError>)
        ensures
            match OsInfoModel::decoded(bytes@) {
                Some(m) => r matches Ok(x) && x@ == m,
                None => r is Err,
            },
    {
        let mut m = Self::empty();
        match m.merge_from(bytes, RECURSION_BUDGET) {
            Ok(()) => Ok(m),
            Err(e) => Err(e),
        }
    }
}

// --- PayloadTransferFrame ---

/// One chunk of a byte or file payload.
#[derive(Clone, Debug, Default, PartialEq)]
pub struct PayloadTransferFrame {
    pub packet_type: Option<i32>,
    pub payload_header: Option<PayloadHeader>,
    pub payload_chunk: Option<PayloadChunk>,
}

/// The value of a [`PayloadTransferFrame`].
#[verifier::ext_equal]
pub struct PayloadTransferFrameModel {
    pub packet_type: Option<i32>,
    pub payload_header: Option<PayloadHeaderModel>,
    pub payload_chunk: Option<PayloadChunkModel>,
}

impl View for PayloadTransferFrame {
    type V = PayloadTransferFrameModel;

    open spec fn view(&self) -> PayloadTransferFrameModel {
        PayloadTransferFrameModel {
            packet_type: self.packet_type,
            payload_header: match self.payload_header {
                Some(x) => Some(x@),
                None => None,
            },
            payload_chunk: match self.payload_chunk {
                Some(x) => Some(x@),
                None => None,
            },
        }
    }
}

impl PayloadTransferFrameModel {
    /// The message with no field set.
    pub open spec fn empty() -> Self {
        PayloadTransferFrameModel {
            packet_type: None,
            payload_header: None,
            payload_chunk: None,
        }
    }

    /// The records this message encodes to, in field-number order.
    pub open spec fn records(self) -> Seq<FieldModel> {
        opt_i32_records(1, self.packet_type)
            + opt_bytes_records(
            2,
            match self.payload_header {
                Some(x) => Some(x.encoding()),
                None => None,
            },
        )
            + opt_bytes_records(
            3,
            match self.payload_chunk {
                Some(x) => Some(x.encoding()),
                None => None,
            },
        )
    }

    pub open spec fn encoding(self) -> Seq<u8> {
        fields_bytes(self.records())
    }

    /// Every length fits the wire format, here and in every embedded message.
    pub open spec fn wf(self) -> bool {
        &&& all_encodable(self.records())
        &&& match self.payload_header {
            Some(x) => x.wf(),
            None => true,
        }
        &&& match self.payload_chunk {
            Some(x) => x.wf(),
            None => true,
        }
    }

    /// The message after one more record is merged into it: a scalar, string
    /// or bytes field takes the new value, an embedded message merges the new
    /// one into itself, and a repeated field appends.
    pub open spec fn merge_field(self, fld: FieldModel, d: nat) -> Option<Self> {
        if fld.number == 1 {
            match varint_of(fld.value) {
                Some(v) => Some(PayloadTransferFrameModel { packet_type: Some(v as i32), ..self }),
                None => None,
            }
        } else if fld.number == 2 {
            if d == 0 {
                None
            } else {
                match payload_of(fld.value) {
                    Some(b) => match (match self.payload_header {
                        Some(x) => x,
                        None => PayloadHeaderModel::empty(),
                    }).merge_bytes(b, (d - 1) as nat) {
                        Some(x) => Some(PayloadTransferFrameModel { payload_header: Some(x), ..self }),
                        None => None,
                    },
                    None => None,
                }
            }
        } else if fld.number == 3 {
            if d == 0 {
                None
            } else {
                match payload_of(fld.value) {
                    Some(b) => match (match self.payload_chunk {
                        Some(x) => x,
                        None => PayloadChunkModel::empty(),
                    }).merge_bytes(b, (d - 1) as nat) {
                        Some(x) => Some(PayloadTransferFrameModel { payload_chunk: Some(x), ..self }),
                        None => None,
                    },
                    None => None,
                }
            }
        } else if d == 0 {
            None
        } else {
            Some(self)
        }
    }

    pub open spec fn merge_all(self, fs: Seq<FieldModel>, d: nat) -> Option<Self>
        decreases fs.len(),
    {
        if fs.len() == 0 {
            Some(self)
        } else {
            match self.merge_field(fs[0], d) {
                Some(m) => m.merge_all(fs.drop_first(), d),
                None => None,
            }
        }
    }

    /// The message after every record of `s` is merged into it.
    pub open spec fn merge_bytes(self, s: Seq<u8>, d: nat) -> Option<Self> {
        match parse_fields(s, d) {
            Some(fs) => self.merge_all(fs, d),
            None => None,
        }
    }

    /// The message that `s` encodes, if it is a well-formed encoding.
    pub open spec fn decoded(s: Seq<u8>) -> Option<Self> {
        Self::empty().merge_bytes(s, RECURSION_BUDGET as nat)
    }

    pub proof fn lemma_merge_all_append(self, a: Seq<FieldModel>, b: Seq<FieldModel>, d: nat)
        ensures
            self.merge_all(a + b, d) == match self.merge_all(a, d) {
                Some(m) => m.merge_all(b, d),
                None => None,
            },
        decreases a.len(),
    {
        if a.len() == 0 {
            assert(a + b =~= b);
        } else {
            assert((a + b).drop_first() =~= a.drop_first() + b);
            assert((a + b)[0] == a[0]);
            if let Some(m) = self.merge_field(a[0], d) {
                m.lemma_merge_all_append(a.drop_first(), b, d);
            }
        }
    }

    /// Decoding the encoding of a message gives the message back.
    #[verifier::spinoff_prover]
    #[verifier::rlimit(40)]
    pub proof fn lemma_round_trip(self, d: nat)
        requires
            self.wf(),
            d >= 1,
        ensures
            Self::empty().merge_bytes(self.encoding(), d) == Some(self),
    {
        lemma_parse_fields_bytes(self.records(), d);
        reveal_with_fuel(PayloadTransferFrameModel::merge_all, 2);
        let s0 = PayloadTransferFrameModel::empty();
        let s1 = PayloadTransferFrameModel { packet_type: self.packet_type, ..s0 };
        if let Some(x) = self.packet_type {
            lemma_i32_round_trip(x);
        }
        assert(s0.merge_all(opt_i32_records(1, self.packet_type), d) == Some(s1));
        let s2 = PayloadTransferFrameModel { payload_header: self.payload_header, ..s1 };
        if let Some(x) = self.payload_header {
            x.lemma_round_trip((d - 1) as nat);
        }
        assert(s1.merge_all(opt_bytes_records(
            2,
            match self.payload_header {
                Some(x) => Some(x.encoding()),
                None => None,
            },
        ), d) == Some(s2));
        let s3 = PayloadTransferFrameModel { payload_chunk: self.payload_chunk, ..s2 };
        if let Some(x) = self.payload_chunk {
            x.lemma_round_trip((d - 1) as nat);
        }
        assert(s2.merge_all(opt_bytes_records(
            3,
            match self.payload_chunk {
                Some(x) => Some(x.encoding()),
                None => None,
            },
        ), d) == Some(s3));
        s0.lemma_merge_all_append(opt_i32_records(1, self.packet_type), opt_bytes_records(
            2,
            match self.payload_header {
                Some(x) => Some(x.encoding()),
                None => None,
            },
        ), d);
        s0.lemma_merge_all_append(opt_i32_records(1, self.packet_type) + opt_bytes_records(
            2,
            match self.payload_header {
                Some(x) => Some(x.encoding()),
                None => None,
            },
        ), opt_bytes_records(
            3,
            match self.payload_chunk {
                Some(x) => Some(x.encoding()),
                None => None,
            },
        ), d);
        assert(s3 =~= self);
    }
}

impl PayloadTransferFrame {
    /// The message with no field set.
    pub fn empty() -> (r: Self)
        ensures
            r@ == PayloadTransferFrameModel::empty(),
    {
        let r = PayloadTransferFrame {
            packet_type: None,
            payload_header: None,
            payload_chunk: None,
        };
        assert(r@ =~= PayloadTransferFrameModel::empty());
        r
    }

    /// Appends the encoding of this message.
    #[verifier::spinoff_prover]
    #[verifier::rlimit(40)]
    pub fn encode_into(&self, out: &mut Vec<u8>)
        ensures
            final(out)@ == old(out)@ + self@.encoding(),
    {
        let ghost start = out@;
        put_opt_i32(out, 1, self.packet_type);
        let ghost done = opt_i32_records(1, self@.packet_type);
        let ghost mid = out@;
        let enc: Option<Vec<u8>> = match &self.payload_header {
            Some(x) => Some(x.encode_to_vec()),
            None => None,
        };
        put_opt_bytes(out, 2, &enc);
        proof {
            lemma_fields_bytes_append(done, opt_bytes_records(
            2,
            match self@.payload_header {
                Some(x) => Some(x.encoding()),
                None => None,
            },
        ));
            lemma_concat_associative(start, fields_bytes(done), fields_bytes(opt_bytes_records(
            2,
            match self@.payload_header {
                Some(x) => Some(x.encoding()),
                None => None,
            },
        )));
        }
        let ghost done = done + opt_bytes_records(
            2,
            match self@.payload_header {
                Some(x) => Some(x.encoding()),
                None => None,
            },
        );
        let ghost mid = out@;
        let enc: Option<Vec<u8>> = match &self.payload_chunk {
            Some(x) => Some(x.encode_to_vec()),
            None => None,
        };
        put_opt_bytes(out, 3, &enc);
        proof {
            lemma_fields_bytes_append(done, opt_bytes_records(
            3,
            match self@.payload_chunk {
                Some(x) => Some(x.encoding()),
                None => None,
            },
        ));
            lemma_concat_associative(start, fields_bytes(done), fields_bytes(opt_bytes_records(
            3,
            match self@.payload_chunk {
                Some(x) => Some(x.encoding()),
                None => None,
            },
        )));
        }
        let ghost done = done + opt_bytes_records(
            3,
            match self@.payload_chunk {
                Some(x) => Some(x.encoding()),
                None => None,
            },
        );
        assert(done == self@.records());
    }

    pub fn encode_to_vec(&self) -> (r: Vec<u8>)
        ensures
            r@ == self@.encoding(),
    {
        let mut out = Vec::new();
        self.encode_into(&mut out);
        assert(out@ =~= self@.encoding());
        out
    }

    fn merge_record(&mut self, fld: &Field, d: u32) -> (r: Result<(), DecodeError>)
        ensures
            match old(self)@.merge_field(fld@, d as nat) {
                Some(m) => r is Ok && final(self)@ == m,
                None => r is Err,
            },
    {
        if fld.number == 1 {
            match wire_i32(&fld.value) {
                Ok(v) => {
                    self.packet_type = Some(v);
                    Ok(())
                },
                Err(e) => Err(e),
            }
        } else if fld.number == 2 {
            if d == 0 {
                return Err(DecodeError);
            }
            match &fld.value {
                WireValue::LengthDelimited(b) => {
                    let mut inner = match self.payload_header.take() {
                        Some(x) => x,
                        None => PayloadHeader::empty(),
                    };
                    match inner.merge_from(b.as_slice(), d - 1) {
                        Ok(()) => {
                            self.payload_header = Some(inner);
                            Ok(())
                        },
                        Err(e) => Err(e),
                    }
                },
                _ => Err(DecodeError),
            }
        } else if fld.number == 3 {
            if d == 0 {
                return Err(DecodeError);
            }
            match &fld.value {
                WireValue::LengthDelimited(b) => {
                    let mut inner = match self.payload_chunk.take() {
                        Some(x) => x,
                        None => PayloadChunk::empty(),
                    };
                    match inner.merge_from(b.as_slice(), d - 1) {
                        Ok(()) => {
                            self.payload_chunk = Some(inner);
                            Ok(())
                        },
                        Err(e) => Err(e),
                    }
                },
                _ => Err(DecodeError),
            }
        } else if d == 0 {
            Err(DecodeError)
        } else {
            Ok(())
        }
    }

    /// Merges every record of `bytes` into this message.
    pub fn merge_from(&mut self, bytes: &[u8], d: u32) -> (r: Result<(), DecodeError>)
        ensures
            match old(self)@.merge_bytes(bytes@, d as nat) {
                Some(m) => r is Ok && final(self)@ == m,
                None => r is Err,
            },
    {
        let fields = match read_fields(bytes, d) {
            Some(fs) => fs,
            None => return Err(DecodeError),
        };
        let ghost fs = fields_view(fields@);
        let mut i: usize = 0;
        assert(fs.skip(0) =~= fs);
        while i < fields.len()
            invariant
                i <= fields@.len(),
                fs == fields_view(fields@),
                parse_fields(bytes@, d as nat) == Some(fs),
                old(self)@.merge_all(fs, d as nat) == self@.merge_all(fs.skip(i as int), d as nat),
            decreases fields@.len() - i,
        {
            let ghost before = self@;
            assert(fs.skip(i as int)[0] == fields@[i as int]@);
            match self.merge_record(&fields[i], d) {
                Ok(()) => {},
                Err(e) => {
                    assert(fs.skip(i as int).len() > 0);
                    assert(before.merge_all(fs.skip(i as int), d as nat) is None);
                    return Err(e);
                },
            }
            assert(fs.skip(i as int).drop_first() =~= fs.skip(i + 1));
            i = i + 1;
        }
        assert(fs.skip(i as int) =~= Seq::<FieldModel>::empty());
        Ok(())
    }

    /// Decodes a message, ignoring unknown fields.
    pub fn decode(bytes: &[u8]) -> (r: Result<Self, DecodeError>)
        ensures
            match PayloadTransferFrameModel::decoded(bytes@) {
                Some(m) => r matches Ok(x) && x@ == m,
                None => r is Err,
            },
    {
        let mut m = Self::empty();
        match m.merge_from(bytes, RECURSION_BUDGET) {
            Ok(()) => Ok(m),
            Err(e) => Err(e),
        }
    }
}

// --- PayloadHeader ---

/// Identifies the payload a chunk belongs to.
#[derive(Clone, Debug, Default, PartialEq)]
pub struct PayloadHeader {
    pub id: Option<i64>,
    pub payload_type: Option<i32>,
    pub total_size: Option<i64>,
    pub is_sensitive: Option<bool>,
    pub file_name: Option<String>,
    pub parent_folder: Option<String>,
    pub last_modified_timestamp_millis: Option<i64>,
}

/// The value of a [`PayloadHeader`].
#[verifier::ext_equal]
pub struct PayloadHeaderModel {
    pub id: Option<i64>,
    pub payload_type: Option<i32>,
    pub total_size: Option<i64>,
    pub is_sensitive: Option<bool>,
    pub file_name: Option<Seq<char>>,
    pub parent_folder: Option<Seq<char>>,
    pub last_modified_timestamp_millis: Option<i64>,
}

impl View for PayloadHeader {
    type V = PayloadHeaderModel;

    open spec fn view(&self) -> PayloadHeaderModel {
        PayloadHeaderModel {
            id: self.id,
            payload_type: self.payload_type,
            total_size: self.total_size,
            is_sensitive: self.is_sensitive,
            file_name: opt_str_view(self.file_name),
            parent_folder: opt_str_view(self.parent_folder),
            last_modified_timestamp_millis: self.last_modified_timestamp_millis,
        }
    }
}

impl PayloadHeaderModel {
    /// The message with no field set.
    pub open spec fn empty() -> Self {
        PayloadHeaderModel {
            id: None,
            payload_type: None,
            total_size: None,
            is_sensitive: None,
            file_name: None,
            parent_folder: None,
            last_modified_timestamp_millis: None,
        }
    }

    /// The records this message encodes to, in field-number order.
    pub open spec fn records(self) -> Seq<FieldModel> {
        opt_i64_records(1, self.id)
            + opt_i32_records(2, self.payload_type)
            + opt_i64_records(3, self.total_size)
            + opt_bool_records(4, self.is_sensitive)
            + opt_str_records(5, self.file_name)
            + opt_str_records(6, self.parent_folder)
            + opt_i64_records(7, self.last_modified_timestamp_millis)
    }

    pub open spec fn encoding(self) -> Seq<u8> {
        fields_bytes(self.records())
    }

    /// Every length fits the wire format, here and in every embedded message.
    pub open spec fn wf(self) -> bool {
        &&& all_encodable(self.records())
    }

    /// The message after one more record is merged into it: a scalar, string
    /// or bytes field takes the new value, an embedded message merges the new
    /// one into itself, and a repeated field appends.
    pub open spec fn merge_field(self, fld: FieldModel, d: nat) -> Option<Self> {
        if fld.number == 1 {
            match varint_of(fld.value) {
                Some(v) => Some(PayloadHeaderModel { id: Some(v as i64), ..self }),
                None => None,
            }
        } else if fld.number == 2 {
            match varint_of(fld.value) {
                Some(v) => Some(PayloadHeaderModel { payload_type: Some(v as i32), ..self }),
                None => None,
            }
        } else if fld.number == 3 {
            match varint_of(fld.value) {
                Some(v) => Some(PayloadHeaderModel { total_size: Some(v as i64), ..self }),
                None => None,
            }
        } else if fld.number == 4 {
            match varint_of(fld.value) {
                Some(v) => Some(PayloadHeaderModel { is_sensitive: Some(v != 0), ..self }),
                None => None,
            }
        } else if fld.number == 5 {
            match string_of(fld.value) {
                Some(c) => Some(PayloadHeaderModel { file_name: Some(c), ..self }),
                None => None,
            }
        } else if fld.number == 6 {
            match string_of(fld.value) {
                Some(c) => Some(PayloadHeaderModel { parent_folder: Some(c), ..self }),
                None => None,
            }
        } else if fld.number == 7 {
            match varint_of(fld.value) {
                Some(v) => Some(PayloadHeaderModel { last_modified_timestamp_millis: Some(v as i64), ..self }),
                None => None,
            }
        } else if d == 0 {
            None
        } else {
            Some(self)
        }
    }

    pub open spec fn merge_all(self, fs: Seq<FieldModel>, d: nat) -> Option<Self>
        decreases fs.len(),
    {
        if fs.len() == 0 {
            Some(self)
        } else {
            match self.merge_field(fs[0], d) {
                Some(m) => m.merge_all(fs.drop_first(), d),
                None => None,
            }
        }
    }

    /// The message after every record of `s` is merged into it.
    pub open spec fn merge_bytes(self, s: Seq<u8>, d: nat) -> Option<Self> {
        match parse_fields(s, d) {
            Some(fs) => self.merge_all(fs, d),
            None => None,
        }
    }

    /// The message that `s` encodes, if it is a well-formed encoding.
    pub open spec fn decoded(s: Seq<u8>) -> Option<Self> {
        Self::empty().merge_bytes(s, RECURSION_BUDGET as nat)
    }

    pub proof fn lemma_merge_all_append(self, a: Seq<FieldModel>, b: Seq<FieldModel>, d: nat)
        ensures
            self.merge_all(a + b, d) == match self.merge_all(a, d) {
                Some(m) => m.merge_all(b, d),
                None => None,
            },
        decreases a.len(),
    {
        if a.len() == 0 {
            assert(a + b =~= b);
        } else {
            assert((a + b).drop_first() =~= a.drop_first() + b);
            assert((a + b)[0] == a[0]);
            if let Some(m) = self.merge_field(a[0], d) {
                m.lemma_merge_all_append(a.drop_first(), b, d);
            }
        }
    }

    /// Decoding the encoding of a message gives the message back.
    #[verifier::spinoff_prover]
    #[verifier::rlimit(40)]
    pub proof fn lemma_round_trip(self, d: nat)
        requires
            self.wf(),
            d >= 0,
        ensures
            Self::empty().merge_bytes(self.encoding(), d) == Some(self),
    {
        lemma_parse_fields_bytes(self.records(), d);
        reveal_with_fuel(PayloadHeaderModel::merge_all, 2);
        let s0 = PayloadHeaderModel::empty();
        let s1 = PayloadHeaderModel { id: self.id, ..s0 };
        if let Some(x) = self.id {
            lemma_i64_round_trip(x);
        }
        assert(s0.merge_all(opt_i64_records(1, self.id), d) == Some(s1));
        let s2 = PayloadHeaderModel { payload_type: self.payload_type, ..s1 };
        if let Some(x) = self.payload_type {
            lemma_i32_round_trip(x);
        }
        assert(s1.merge_all(opt_i32_records(2, self.payload_type), d) == Some(s2));
        let s3 = PayloadHeaderModel { total_size: self.total_size, ..s2 };
        if let Some(x) = self.total_size {
            lemma_i64_round_trip(x);
        }
        assert(s2.merge_all(opt_i64_records(3, self.total_size), d) == Some(s3));
        let s4 = PayloadHeaderModel { is_sensitive: self.is_sensitive, ..s3 };
        assert(s3.merge_all(opt_bool_records(4, self.is_sensitive), d) == Some(s4));
        let s5 = PayloadHeaderModel { file_name: self.file_name, ..s4 };
        if let Some(x) = self.file_name {
            lemma_string_round_trip(x);
        }
        assert(s4.merge_all(opt_str_records(5, self.file_name), d) == Some(s5));
        let s6 = PayloadHeaderModel { parent_folder: self.parent_folder, ..s5 };
        if let Some(x) = self.parent_folder {
            lemma_string_round_trip(x);
        }
        assert(s5.merge_all(opt_str_records(6, self.parent_folder), d) == Some(s6));
        let s7 = PayloadHeaderModel { last_modified_timestamp_millis: self.last_modified_timestamp_millis, ..s6 };
        if let Some(x) = self.last_modified_timestamp_millis {
            lemma_i64_round_trip(x);
        }
        assert(s6.merge_all(opt_i64_records(7, self.last_modified_timestamp_millis), d) == Some(s7));
        s0.lemma_merge_all_append(opt_i64_records(1, self.id), opt_i32_records(2, self.payload_type), d);
        s0.lemma_merge_all_append(opt_i64_records(1, self.id) + opt_i32_records(2, self.payload_type), opt_i64_records(3, self.total_size), d);
        s0.lemma_merge_all_append(opt_i64_records(1, self.id) + opt_i32_records(2, self.payload_type) + opt_i64_records(3, self.total_size), opt_bool_records(4, self.is_sensitive), d);
        s0.lemma_merge_all_append(opt_i64_records(1, self.id) + opt_i32_records(2, self.payload_type) + opt_i64_records(3, self.total_size) + opt_bool_records(4, self.is_sensitive), opt_str_records(5, self.file_name), d);
        s0.lemma_merge_all_append(opt_i64_records(1, self.id) + opt_i32_records(2, self.payload_type) + opt_i64_records(3, self.total_size) + opt_bool_records(4, self.is_sensitive) + opt_str_records(5, self.file_name), opt_str_records(6, self.parent_folder), d);
        s0.lemma_merge_all_append(opt_i64_records(1, self.id) + opt_i32_records(2, self.payload_type) + opt_i64_records(3, self.total_size) + opt_bool_records(4, self.is_sensitive) + opt_str_records(5, self.file_name) + opt_str_records(6, self.parent_folder), opt_i64_records(7, self.last_modified_timestamp_millis), d);
        assert(s7 =~= self);
    }
}

impl PayloadHeader {
    /// The message with no field set.
    pub fn empty() -> (r: Self)
        ensures
            r@ == PayloadHeaderModel::empty(),
    {
        let r = PayloadHeader {
            id: None,
            payload_type: None,
            total_size: None,
            is_sensitive: None,
            file_name: None,
            parent_folder: None,
            last_modified_timestamp_millis: None,
        };
        assert(r@ =~= PayloadHeaderModel::empty());
        r
    }

    /// Appends the encoding of this message.
    #[verifier::spinoff_prover]
    #[verifier::rlimit(40)]
    pub fn encode_into(&self, out: &mut Vec<u8>)
        ensures
            final(out)@ == old(out)@ + self@.encoding(),
    {
        let ghost start = out@;
        put_opt_i64(out, 1, self.id);
        let ghost done = opt_i64_records(1, self@.id);
        let ghost mid = out@;
        put_opt_i32(out, 2, self.payload_type);
        proof {
            lemma_fields_bytes_append(done, opt_i32_records(2, self@.payload_type));
            lemma_concat_associative(start, fields_bytes(done), fields_bytes(opt_i32_records(2, self@.payload_type)));
        }
        let ghost done = done + opt_i32_records(2, self@.payload_type);
        let ghost mid = out@;
        put_opt_i64(out, 3, self.total_size);
        proof {
            lemma_fields_bytes_append(done, opt_i64_records(3, self@.total_size));
            lemma_concat_associative(start, fields_bytes(done), fields_bytes(opt_i64_records(3, self@.total_size)));
        }
        let ghost done = done + opt_i64_records(3, self@.total_size);
        let ghost mid = out@;
        put_opt_bool(out, 4, self.is_sensitive);
        proof {
            lemma_fields_bytes_append(done, opt_bool_records(4, self@.is_sensitive));
            lemma_concat_associative(start, fields_bytes(done), fields_bytes(opt_bool_records(4, self@.is_sensitive)));
        }
        let ghost done = done + opt_bool_records(4, self@.is_sensitive);
        let ghost mid = out@;
        put_opt_str(out, 5, &self.file_name);
        proof {
            lemma_fields_bytes_append(done, opt_str_records(5, self@.file_name));
            lemma_concat_associative(start, fields_bytes(done), fields_bytes(opt_str_records(5, self@.file_name)));
        }
        let ghost done = done + opt_str_records(5, self@.file_name);
        let ghost mid = out@;
        put_opt_str(out, 6, &self.parent_folder);
        proof {
            lemma_fields_bytes_append(done, opt_str_records(6, self@.parent_folder));
            lemma_concat_associative(start, fields_bytes(done), fields_bytes(opt_str_records(6, self@.parent_folder)));
        }
        let ghost done = done + opt_str_records(6, self@.parent_folder);
        let ghost mid = out@;
        put_opt_i64(out, 7, self.last_modified_timestamp_millis);
        proof {
            lemma_fields_bytes_append(done, opt_i64_records(7, self@.last_modified_timestamp_millis));
            lemma_concat_associative(start, fields_bytes(done), fields_bytes(opt_i64_records(7, self@.last_modified_timestamp_millis)));
        }
        let ghost done = done + opt_i64_records(7, self@.last_modified_timestamp_millis);
        assert(done == self@.records());
    }

    pub fn encode_to_vec(&self) -> (r: Vec<u8>)
        ensures
            r@ == self@.encoding(),
    {
        let mut out = Vec::new();
        self.encode_into(&mut out);
        assert(out@ =~= self@.encoding());
        out
    }

    fn merge_record(&mut self, fld: &Field, d: u32) -> (r: Result<(), DecodeError>)
        ensures
            match old(self)@.merge_field(fld@, d as nat) {
                Some(m) => r is Ok && final(self)@ == m,
                None => r is Err,
            },
    {
        if fld.number == 1 {
            match wire_i64(&fld.value) {
                Ok(v) => {
                    self.id = Some(v);
                    Ok(())
                },
                Err(e) => Err(e),
            }
        } else if fld.number == 2 {
            match wire_i32(&fld.value) {
                Ok(v) => {
                    self.payload_type = Some(v);
                    Ok(())
                },
                Err(e) => Err(e),
            }
        } else if fld.number == 3 {
            match wire_i64(&fld.value) {
                Ok(v) => {
                    self.total_size = Some(v);
                    Ok(())
                },
                Err(e) => Err(e),
            }
        } else if fld.number == 4 {
            match wire_bool(&fld.value) {
                Ok(v) => {
                    self.is_sensitive = Some(v);
                    Ok(())
                },
                Err(e) => Err(e),
            }
        } else if fld.number == 5 {
            match wire_string(&fld.value) {
                Ok(v) => {
                    self.file_name = Some(v);
                    Ok(())
                },
                Err(e) => Err(e),
            }
        } else if fld.number == 6 {
            match wire_string(&fld.value) {
                Ok(v) => {
                    self.parent_folder = Some(v);
                    Ok(())
                },
                Err(e) => Err(e),
            }
        } else if fld.number == 7 {
            match wire_i64(&fld.value) {
                Ok(v) => {
                    self.last_modified_timestamp_millis = Some(v);
                    Ok(())
                },
                Err(e) => Err(e),
            }
        } else if d == 0 {
            Err(DecodeError)
        } else {
            Ok(())
        }
    }

    /// Merges every record of `bytes` into this message.
    pub fn merge_from(&mut self, bytes: &[u8], d: u32) -> (r: Result<(), DecodeError>)
        ensures
            match old(self)@.merge_bytes(bytes@, d as nat) {
                Some(m) => r is Ok && final(self)@ == m,
                None => r is Err,
            },
    {
        let fields = match read_fields(bytes, d) {
            Some(fs) => fs,
            None => return Err(DecodeError),
        };
        let ghost fs = fields_view(fields@);
        let mut i: usize = 0;
        assert(fs.skip(0) =~= fs);
        while i < fields.len()
            invariant
                i <= fields@.len(),
                fs == fields_view(fields@),
                parse_fields(bytes@, d as nat) == Some(fs),
                old(self)@.merge_all(fs, d as nat) == self@.merge_all(fs.skip(i as int), d as nat),
            decreases fields@.len() - i,
        {
            let ghost before = self@;
            assert(fs.skip(i as int)[0] == fields@[i as int]@);
            match self.merge_record(&fields[i], d) {
                Ok(()) => {},
                Err(e) => {
                    assert(fs.skip(i as int).len() > 0);
                    assert(before.merge_all(fs.skip(i as int), d as nat) is None);
                    return Err(e);
                },
            }
            assert(fs.skip(i as int).drop_first() =~= fs.skip(i + 1));
            i = i + 1;
        }
        assert(fs.skip(i as int) =~= Seq::<FieldModel>::empty());
        Ok(())
    }

    /// Decodes a message, ignoring unknown fields.
    pub fn decode(bytes: &[u8]) -> (r: Result<Self, DecodeError>)
        ensures
            match PayloadHeaderModel::decoded(bytes@) {
                Some(m) => r matches Ok(x) && x@ == m,
                None => r is Err,
            },
    {
        let mut m = Self::empty();
        match m.merge_from(bytes, RECURSION_BUDGET) {
            Ok(()) => Ok(m),
            Err(e) => Err(e),
        }
    }
}

// --- PayloadChunk ---

/// Body bytes of a payload at an offset.
#[derive(Clone, Debug, Default, PartialEq)]
pub struct PayloadChunk {
    pub flags: Option<i32>,
    pub offset: Option<i64>,
    pub body: Option<Vec<u8>>,
    pub index: Option<i32>,
}

/// The value of a [`PayloadChunk`].
#[verifier::ext_equal]
pub struct PayloadChunkModel {
    pub flags: Option<i32>,
    pub offset: Option<i64>,
    pub body: Option<Seq<u8>>,
    pub index: Option<i32>,
}

impl View for PayloadChunk {
    type V = PayloadChunkModel;

    open spec fn view(&self) -> PayloadChunkModel {
        PayloadChunkModel {
            flags: self.flags,
            offset: self.offset,
            body: opt_bytes_view(self.body),
            index: self.index,
        }
    }
}

impl PayloadChunkModel {
    /// The message with no field set.
    pub open spec fn empty() -> Self {
        PayloadChunkModel {
            flags: None,
            offset: None,
            body: None,
            index: None,
        }
    }

    /// The records this message encodes to, in field-number order.
    pub open spec fn records(self) -> Seq<FieldModel> {
        opt_i32_records(1, self.flags)
            + opt_i64_records(2, self.offset)
            + opt_bytes_records(3, self.body)
            + opt_i32_records(4, self.index)
    }

    pub open spec fn encoding(self) -> Seq<u8> {
        fields_bytes(self.records())
    }

    /// Every length fits the wire format, here and in every embedded message.
    pub open spec fn wf(self) -> bool {
        &&& all_encodable(self.records())
    }

    /// The message after one more record is merged into it: a scalar, string
    /// or bytes field takes the new value, an embedded message merges the new
    /// one into itself, and a repeated field appends.
    pub open spec fn merge_field(self, fld: FieldModel, d: nat) -> Option<Self> {
        if fld.number == 1 {
            match varint_of(fld.value) {
                Some(v) => Some(PayloadChunkModel { flags: Some(v as i32), ..self }),
                None => None,
            }
        } else if fld.number == 2 {
            match varint_of(fld.value) {
                Some(v) => Some(PayloadChunkModel { offset: Some(v as i64), ..self }),
                None => None,
            }
        } else if fld.number == 3 {
            match payload_of(fld.value) {
                Some(b) => Some(PayloadChunkModel { body: Some(b), ..self }),
                None => None,
            }
        } else if fld.number == 4 {
            match varint_of(fld.value) {
                Some(v) => Some(PayloadChunkModel { index: Some(v as i32), ..self }),
                None => None,
            }
        } else if d == 0 {
            None
        } else {
            Some(self)
        }
    }

    pub open spec fn merge_all(self, fs: Seq<FieldModel>, d: nat) -> Option<Self>
        decreases fs.len(),
    {
        if fs.len() == 0 {
            Some(self)
        } else {
            match self.merge_field(fs[0], d) {
                Some(m) => m.merge_all(fs.drop_first(), d),
                None => None,
            }
        }
    }

    /// The message after every record of `s` is merged into it.
    pub open spec fn merge_bytes(self, s: Seq<u8>, d: nat) -> Option<Self> {
        match parse_fields(s, d) {
            Some(fs) => self.merge_all(fs, d),
            None => None,
        }
    }

    /// The message that `s` encodes, if it is a well-formed encoding.
    pub open spec fn decoded(s: Seq<u8>) -> Option<Self> {
        Self::empty().merge_bytes(s, RECURSION_BUDGET as nat)
    }

    pub proof fn lemma_merge_all_append(self, a: Seq<FieldModel>, b: Seq<FieldModel>, d: nat)
        ensures
            self.merge_all(a + b, d) == match self.merge_all(a, d) {
                Some(m) => m.merge_all(b, d),
                None => None,
            },
        decreases a.len(),
    {
        if a.len() == 0 {
            assert(a + b =~= b);
        } else {
            assert((a + b).drop_first() =~= a.drop_first() + b);
            assert((a + b)[0] == a[0]);
            if let Some(m) = self.merge_field(a[0], d) {
                m.lemma_merge_all_append(a.drop_first(), b, d);
            }
        }
    }

    /// Decoding the encoding of a message gives the message back.
    #[verifier::spinoff_prover]
    #[verifier::rlimit(40)]
    pub proof fn lemma_round_trip(self, d: nat)
        requires
            self.wf(),
            d >= 0,
        ensures
            Self::empty().merge_bytes(self.encoding(), d) == Some(self),
    {
        lemma_parse_fields_bytes(self.records(), d);
        reveal_with_fuel(PayloadChunkModel::merge_all, 2);
        let s0 = PayloadChunkModel::empty();
        let s1 = PayloadChunkModel { flags: self.flags, ..s0 };
        if let Some(x) = self.flags {
            lemma_i32_round_trip(x);
        }
        assert(s0.merge_all(opt_i32_records(1, self.flags), d) == Some(s1));
        let s2 = PayloadChunkModel { offset: self.offset, ..s1 };
        if let Some(x) = self.offset {
            lemma_i64_round_trip(x);
        }
        assert(s1.merge_all(opt_i64_records(2, self.offset), d) == Some(s2));
        let s3 = PayloadChunkModel { body: self.body, ..s2 };
        assert(s2.merge_all(opt_bytes_records(3, self.body), d) == Some(s3));
        let s4 = PayloadChunkModel { index: self.index, ..s3 };
        if let Some(x) = self.index {
            lemma_i32_round_trip(x);
        }
        assert(s3.merge_all(opt_i32_records(4, self.index), d) == Some(s4));
        s0.lemma_merge_all_append(opt_i32_records(1, self.flags), opt_i64_records(2, self.offset), d);
        s0.lemma_merge_all_append(opt_i32_records(1, self.flags) + opt_i64_records(2, self.offset), opt_bytes_records(3, self.body), d);
        s0.lemma_merge_all_append(opt_i32_records(1, self.flags) + opt_i64_records(2, self.offset) + opt_bytes_records(3, self.body), opt_i32_records(4, self.index), d);
        assert(s4 =~= self);
    }
}

impl PayloadChunk {
    /// The message with no field set.
    pub fn empty() -> (r: Self)
        ensures
            r@ == PayloadChunkModel::empty(),
    {
        let r = PayloadChunk {
            flags: None,
            offset: None,
            body: None,
            index: None,
        };
        assert(r@ =~= PayloadChunkModel::empty());
        r
    }

    /// Appends the encoding of this message.
    #[verifier::spinoff_prover]
    #[verifier::rlimit(40)]
    pub fn encode_into(&self, out: &mut Vec<u8>)
        ensures
            final(out)@ == old(out)@ + self@.encoding(),
    {
        let ghost start = out@;
        put_opt_i32(out, 1, self.flags);
        let ghost done = opt_i32_records(1, self@.flags);
        let ghost mid = out@;
        put_opt_i64(out, 2, self.offset);
        proof {
            lemma_fields_bytes_append(done, opt_i64_records(2, self@.offset));
            lemma_concat_associative(start, fields_bytes(done), fields_bytes(opt_i64_records(2, self@.offset)));
        }
        let ghost done = done + opt_i64_records(2, self@.offset);
        let ghost mid = out@;
        put_opt_bytes(out, 3, &self.body);
        proof {
            lemma_fields_bytes_append(done, opt_bytes_records(3, self@.body));
            lemma_concat_associative(start, fields_bytes(done), fields_bytes(opt_bytes_records(3, self@.body)));
        }
        let ghost done = done + opt_bytes_records(3, self@.body);
        let ghost mid = out@;
        put_opt_i32(out, 4, self.index);
        proof {
            lemma_fields_bytes_append(done, opt_i32_records(4, self@.index));
            lemma_concat_associative(start, fields_bytes(done), fields_bytes(opt_i32_records(4, self@.index)));
        }
        let ghost done = done + opt_i32_records(4, self@.index);
        assert(done == self@.records());
    }

    pub fn encode_to_vec(&self) -> (r: Vec<u8>)
        ensures
            r@ == self@.encoding(),
    {
        let mut out = Vec::new();
        self.encode_into(&mut out);
        assert(out@ =~= self@.encoding());
        out
    }

    fn merge_record(&mut self, fld: &Field, d: u32) -> (r: Result<(), DecodeError>)
        ensures
            match old(self)@.merge_field(fld@, d as nat) {
                Some(m) => r is Ok && final(self)@ == m,
                None => r is Err,
            },
    {
        if fld.number == 1 {
            match wire_i32(&fld.value) {
                Ok(v) => {
                    self.flags = Some(v);
                    Ok(())
                },
                Err(e) => Err(e),
            }
        } else if fld.number == 2 {
            match wire_i64(&fld.value) {
                Ok(v) => {
                    self.offset = Some(v);
                    Ok(())
                },
                Err(e) => Err(e),
            }
        } else if fld.number == 3 {
            match wire_bytes(&fld.value) {
                Ok(v) => {
                    self.body = Some(v);
                    Ok(())
                },
                Err(e) => Err(e),
            }
        } else if fld.number == 4 {
            match wire_i32(&fld.value) {
                Ok(v) => {
                    self.index = Some(v);
                    Ok(())
                },
                Err(e) => Err(e),
            }
        } else if d == 0 {
            Err(DecodeError)
        } else {
            Ok(())
        }
    }

    /// Merges every record of `bytes` into this message.
    pub fn merge_from(&mut self, bytes: &[u8], d: u32) -> (r: Result<(), DecodeError>)
        ensures
            match old(self)@.merge_bytes(bytes@, d as nat) {
                Some(m) => r is Ok && final(self)@ == m,
                None => r is Err,
            },
    {
        let fields = match read_fields(bytes, d) {
            Some(fs) => fs,
            None => return Err(DecodeError),
        };
        let ghost fs = fields_view(fields@);
        let mut i: usize = 0;
        assert(fs.skip(0) =~= fs);
        while i < fields.len()
            invariant
                i <= fields@.len(),
                fs == fields_view(fields@),
                parse_fields(bytes@, d as nat) == Some(fs),
                old(self)@.merge_all(fs, d as nat) == self@.merge_all(fs.skip(i as int), d as nat),
            decreases fields@.len() - i,
        {
            let ghost before = self@;
            assert(fs.skip(i as int)[0] == fields@[i as int]@);
            match self.merge_record(&fields[i], d) {
                Ok(()) => {},
                Err(e) => {
                    assert(fs.skip(i as int).len() > 0);
                    assert(before.merge_all(fs.skip(i as int), d as nat) is None);
                    return Err(e);
                },
            }
            assert(fs.skip(i as int).drop_first() =~= fs.skip(i + 1));
            i = i + 1;
        }
        assert(fs.skip(i as int) =~= Seq::<FieldModel>::empty());
        Ok(())
    }

    /// Decodes a message, ignoring unknown fields.
    pub fn decode(bytes: &[u8]) -> (r: Result<Self, DecodeError>)
        ensures
            match PayloadChunkModel::decoded(bytes@) {
                Some(m) => r matches Ok(x) && x@ == m,
                None => r is Err,
            },
    {
        let mut m = Self::empty();
        match m.merge_from(bytes, RECURSION_BUDGET) {
            Ok(()) => Ok(m),
            Err(e) => Err(e),
        }
    }
}

// --- KeepAliveFrame ---

/// Keep-alive probe or acknowledgement.
#[derive(Clone, Debug, Default, PartialEq)]
pub struct KeepAliveFrame {
    pub ack: Option<bool>,
    pub seq_num: Option<u32>,
}

/// The value of a [`KeepAliveFrame`].
#[verifier::ext_equal]
pub struct KeepAliveFrameModel {
    pub ack: Option<bool>,
    pub seq_num: Option<u32>,
}

impl View for KeepAliveFrame {
    type V = KeepAliveFrameModel;

    open spec fn view(&self) -> KeepAliveFrameModel {
        KeepAliveFrameModel {
            ack: self.ack,
            seq_num: self.seq_num,
        }
    }
}

impl KeepAliveFrameModel {
    /// The message with no field set.
    pub open spec fn empty() -> Self {
        KeepAliveFrameModel {
            ack: None,
            seq_num: None,
        }
    }

    /// The records this message encodes to, in field-number order.
    pub open spec fn records(self) -> Seq<FieldModel> {
        opt_bool_records(1, self.ack)
            + opt_u32_records(2, self.seq_num)
    }

    pub open spec fn encoding(self) -> Seq<u8> {
        fields_bytes(self.records())
    }

    /// Every length fits the wire format, here and in every embedded message.
    pub open spec fn wf(self) -> bool {
        &&& all_encodable(self.records())
    }

    /// The message after one more record is merged into it: a scalar, string
    /// or bytes field takes the new value, an embedded message merges the new
    /// one into itself, and a repeated field appends.
    pub open spec fn merge_field(self, fld: FieldModel, d: nat) -> Option<Self> {
        if fld.number == 1 {
            match varint_of(fld.value) {
                Some(v) => Some(KeepAliveFrameModel { ack: Some(v != 0), ..self }),
                None => None,
            }
        } else if fld.number == 2 {
            match varint_of(fld.value) {
                Some(v) => Some(KeepAliveFrameModel { seq_num: Some(v as u32), ..self }),
                None => None,
            }
        } else if d == 0 {
            None
        } else {
            Some(self)
        }
    }

    pub open spec fn merge_all(self, fs: Seq<FieldModel>, d: nat) -> Option<Self>
        decreases fs.len(),
    {
        if fs.len() == 0 {
            Some(self)
        } else {
            match self.merge_field(fs[0], d) {
                Some(m) => m.merge_all(fs.drop_first(), d),
                None => None,
            }
        }
    }

    /// The message after every record of `s` is merged into it.
    pub open spec fn merge_bytes(self, s: Seq<u8>, d: nat) -> Option<Self> {
        match parse_fields(s, d) {
            Some(fs) => self.merge_all(fs, d),
            None => None,
        }
    }

    /// The message that `s` encodes, if it is a well-formed encoding.
    pub open spec fn decoded(s: Seq<u8>) -> Option<Self> {
        Self::empty().merge_bytes(s, RECURSION_BUDGET as nat)
    }

    pub proof fn lemma_merge_all_append(self, a: Seq<FieldModel>, b: Seq<FieldModel>, d: nat)
        ensures
            self.merge_all(a + b, d) == match self.merge_all(a, d) {
                Some(m) => m.merge_all(b, d),
                None => None,
            },
        decreases a.len(),
    {
        if a.len() == 0 {
            assert(a + b =~= b);
        } else {
            assert((a + b).drop_first() =~= a.drop_first() + b);
            assert((a + b)[0] == a[0]);
            if let Some(m) = self.merge_field(a[0], d) {
                m.lemma_merge_all_append(a.drop_first(), b, d);
            }
        }
    }

    /// Decoding the encoding of a message gives the message back.
    #[verifier::spinoff_prover]
    #[verifier::rlimit(40)]
    pub proof fn lemma_round_trip(self, d: nat)
        requires
            self.wf(),
            d >= 0,
        ensures
            Self::empty().merge_bytes(self.encoding(), d) == Some(self),
    {
        lemma_parse_fields_bytes(self.records(), d);
        reveal_with_fuel(KeepAliveFrameModel::merge_all, 2);
        let s0 = KeepAliveFrameModel::empty();
        let s1 = KeepAliveFrameModel { ack: self.ack, ..s0 };
        assert(s0.merge_all(opt_bool_records(1, self.ack), d) == Some(s1));
        let s2 = KeepAliveFrameModel { seq_num: self.seq_num, ..s1 };
        if let Some(x) = self.seq_num {
            lemma_u32_round_trip(x);
        }
        assert(s1.merge_all(opt_u32_records(2, self.seq_num), d) == Some(s2));
        s0.lemma_merge_all_append(opt_bool_records(1, self.ack), opt_u32_records(2, self.seq_num), d);
        assert(s2 =~= self);
    }
}

impl KeepAliveFrame {
    /// The message with no field set.
    pub fn empty() -> (r: Self)
        ensures
            r@ == KeepAliveFrameModel::empty(),
    {
        let r = KeepAliveFrame {
            ack: None,
            seq_num: None,
        };
        assert(r@ =~= KeepAliveFrameModel::empty());
        r
    }

    /// Appends the encoding of this message.
    #[verifier::spinoff_prover]
    #[verifier::rlimit(40)]
    pub fn encode_into(&self, out: &mut Vec<u8>)
        ensures
            final(out)@ == old(out)@ + self@.encoding(),
    {
        let ghost start = out@;
        put_opt_bool(out, 1, self.ack);
        let ghost done = opt_bool_records(1, self@.ack);
        let ghost mid = out@;
        put_opt_u32(out, 2, self.seq_num);
        proof {
            lemma_fields_bytes_append(done, opt_u32_records(2, self@.seq_num));
            lemma_concat_associative(start, fields_bytes(done), fields_bytes(opt_u32_records(2, self@.seq_num)));
        }
        let ghost done = done + opt_u32_records(2, self@.seq_num);
        assert(done == self@.records());
    }

    pub fn encode_to_vec(&self) -> (r: Vec<u8>)
        ensures
            r@ == self@.encoding(),
    {
        let mut out = Vec::new();
        self.encode_into(&mut out);
        assert(out@ =~= self@.encoding());
        out
    }

    fn merge_record(&mut self, fld: &Field, d: u32) -> (r: Result<(), DecodeError>)
        ensures
            match old(self)@.merge_field(fld@, d as nat) {
                Some(m) => r is Ok && final(self)@ == m,
                None => r is Err,
            },
    {
        if fld.number == 1 {
            match wire_bool(&fld.value) {
                Ok(v) => {
                    self.ack = Some(v);
                    Ok(())
                },
                Err(e) => Err(e),
            }
        } else if fld.number == 2 {
            match wire_u32(&fld.value) {
                Ok(v) => {
                    self.seq_num = Some(v);
                    Ok(())
                },
                Err(e) => Err(e),
            }
        } else if d == 0 {
            Err(DecodeError)
        } else {
            Ok(())
        }
    }

    /// Merges every record of `bytes` into this message.
    pub fn merge_from(&mut self, bytes: &[u8], d: u32) -> (r: Result<(), DecodeError>)
        ensures
            match old(self)@.merge_bytes(bytes@, d as nat) {
                Some(m) => r is Ok && final(self)@ == m,
                None => r is Err,
            },
    {
        let fields = match read_fields(bytes, d) {
            Some(fs) => fs,
            None => return Err(DecodeError),
        };
        let ghost fs = fields_view(fields@);
        let mut i: usize = 0;
        assert(fs.skip(0) =~= fs);
        while i < fields.len()
            invariant
                i <= fields@.len(),
                fs == fields_view(fields@),
                parse_fields(bytes@, d as nat) == Some(fs),
                old(self)@.merge_all(fs, d as nat) == self@.merge_all(fs.skip(i as int), d as nat),
            decreases fields@.len() - i,
        {
            let ghost before = self@;
            assert(fs.skip(i as int)[0] == fields@[i as int]@);
            match self.merge_record(&fields[i], d) {
                Ok(()) => {},
                Err(e) => {
                    assert(fs.skip(i as int).len() > 0);
                    assert(before.merge_all(fs.skip(i as int), d as nat) is None);
                    return Err(e);
                },
            }
            assert(fs.skip(i as int).drop_first() =~= fs.skip(i + 1));
            i = i + 1;
        }
        assert(fs.skip(i as int) =~= Seq::<FieldModel>::empty());
        Ok(())
    }

    /// Decodes a message, ignoring unknown fields.
    pub fn decode(bytes: &[u8]) -> (r: Result<Self, DecodeError>)
        ensures
            match KeepAliveFrameModel::decoded(bytes@) {
                Some(m) => r matches Ok(x) && x@ == m,
                None => r is Err,
            },
    {
        let mut m = Self::empty();
        match m.merge_from(bytes, RECURSION_BUDGET) {
            Ok(()) => Ok(m),
            Err(e) => Err(e),
        }
    }
}

// --- DisconnectionFrame ---

/// Request or acknowledgement of a safe disconnect.
#[derive(Clone, Debug, Default, PartialEq)]
pub struct DisconnectionFrame {
    pub request_safe_to_disconnect: Option<bool>,
    pub ack_safe_to_disconnect: Option<bool>,
}

/// The value of a [`DisconnectionFrame`].
#[verifier::ext_equal]
pub struct DisconnectionFrameModel {
    pub request_safe_to_disconnect: Option<bool>,
    pub ack_safe_to_disconnect: Option<bool>,
}

impl View for DisconnectionFrame {
    type V = DisconnectionFrameModel;

    open spec fn view(&self) -> DisconnectionFrameModel {
        DisconnectionFrameModel {
            request_safe_to_disconnect: self.request_safe_to_disconnect,
            ack_safe_to_disconnect: self.ack_safe_to_disconnect,
        }
    }
}

impl DisconnectionFrameModel {
    /// The message with no field set.
    pub open spec fn empty() -> Self {
        DisconnectionFrameModel {
            request_safe_to_disconnect: None,
            ack_safe_to_disconnect: None,
        }
    }

    /// The records this message encodes to, in field-number order.
    pub open spec fn records(self) -> Seq<FieldModel> {
        opt_bool_records(1, self.request_safe_to_disconnect)
            + opt_bool_records(2, self.ack_safe_to_disconnect)
    }

    pub open spec fn encoding(self) -> Seq<u8> {
        fields_bytes(self.records())
    }

    /// Every length fits the wire format, here and in every embedded message.
    pub open spec fn wf(self) -> bool {
        &&& all_encodable(self.records())
    }

    /// The message after one more record is merged into it: a scalar, string
    /// or bytes field takes the new value, an embedded message merges the new
    /// one into itself, and a repeated field appends.
    pub open spec fn merge_field(self, fld: FieldModel, d: nat) -> Option<Self> {
        if fld.number == 1 {
            match varint_of(fld.value) {
                Some(v) => Some(DisconnectionFrameModel { request_safe_to_disconnect: Some(v != 0), ..self }),
                None => None,
            }
        } else if fld.number == 2 {
            match varint_of(fld.value) {
                Some(v) => Some(DisconnectionFrameModel { ack_safe_to_disconnect: Some(v != 0), ..self }),
                None => None,
            }
        } else if d == 0 {
            None
        } else {
            Some(self)
        }
    }

    pub open spec fn merge_all(self, fs: Seq<FieldModel>, d: nat) -> Option<Self>
        decreases fs.len(),
    {
        if fs.len() == 0 {
            Some(self)
        } else {
            match self.merge_field(fs[0], d) {
                Some(m) => m.merge_all(fs.drop_first(), d),
                None => None,
            }
        }
    }

    /// The message after every record of `s` is merged into it.
    pub open spec fn merge_bytes(self, s: Seq<u8>, d: nat) -> Option<Self> {
        match parse_fields(s, d) {
            Some(fs) => self.merge_all(fs, d),
            None => None,
        }
    }

    /// The message that `s` encodes, if it is a well-formed encoding.
    pub open spec fn decoded(s: Seq<u8>) -> Option<Self> {
        Self::empty().merge_bytes(s, RECURSION_BUDGET as nat)
    }

    pub proof fn lemma_merge_all_append(self, a: Seq<FieldModel>, b: Seq<FieldModel>, d: nat)
        ensures
            self.merge_all(a + b, d) == match self.merge_all(a, d) {
                Some(m) => m.merge_all(b, d),
                None => None,
            },
        decreases a.len(),
    {
        if a.len() == 0 {
            assert(a + b =~= b);
        } else {
            assert((a + b).drop_first() =~= a.drop_first() + b);
            assert((a + b)[0] == a[0]);
            if let Some(m) = self.merge_field(a[0], d) {
                m.lemma_merge_all_append(a.drop_first(), b, d);
            }
        }
    }

    /// Decoding the encoding of a message gives the message back.
    #[verifier::spinoff_prover]
    #[verifier::rlimit(40)]
    pub proof fn lemma_round_trip(self, d: nat)
        requires
            self.wf(),
            d >= 0,
        ensures
            Self::empty().merge_bytes(self.encoding(), d) == Some(self),
    {
        lemma_parse_fields_bytes(self.records(), d);
        reveal_with_fuel(DisconnectionFrameModel::merge_all, 2);
        let s0 = DisconnectionFrameModel::empty();
        let s1 = DisconnectionFrameModel { request_safe_to_disconnect: self.request_safe_to_disconnect, ..s0 };
        assert(s0.merge_all(opt_bool_records(1, self.request_safe_to_disconnect), d) == Some(s1));
        let s2 = DisconnectionFrameModel { ack_safe_to_disconnect: self.ack_safe_to_disconnect, ..s1 };
        assert(s1.merge_all(opt_bool_records(2, self.ack_safe_to_disconnect), d) == Some(s2));
        s0.lemma_merge_all_append(opt_bool_records(1, self.request_safe_to_disconnect), opt_bool_records(2, self.ack_safe_to_disconnect), d);
        assert(s2 =~= self);
    }
}

impl DisconnectionFrame {
    /// The message with no field set.
    pub fn empty() -> (r: Self)
        ensures
            r@ == DisconnectionFrameModel::empty(),
    {
        let r = DisconnectionFrame {
            request_safe_to_disconnect: None,
            ack_safe_to_disconnect: None,
        };
        assert(r@ =~= DisconnectionFrameModel::empty());
        r
    }

    /// Appends the encoding of this message.
    #[verifier::spinoff_prover]
    #[verifier::rlimit(40)]
    pub fn encode_into(&self, out: &mut Vec<u8>)
        ensures
            final(out)@ == old(out)@ + self@.encoding(),
    {
        let ghost start = out@;
        put_opt_bool(out, 1, self.request_safe_to_disconnect);
        let ghost done = opt_bool_records(1, self@.request_safe_to_disconnect);
        let ghost mid = out@;
        put_opt_bool(out, 2, self.ack_safe_to_disconnect);
        proof {
            lemma_fields_bytes_append(done, opt_bool_records(2, self@.ack_safe_to_disconnect));
            lemma_concat_associative(start, fields_bytes(done), fields_bytes(opt_bool_records(2, self@.ack_safe_to_disconnect)));
        }
        let ghost done = done + opt_bool_records(2, self@.ack_safe_to_disconnect);
        assert(done == self@.records());
    }

    pub fn encode_to_vec(&self) -> (r: Vec<u8>)
        ensures
            r@ == self@.encoding(),
    {
        let mut out = Vec::new();
        self.encode_into(&mut out);
        assert(out@ =~= self@.encoding());
        out
    }

    fn merge_record(&mut self, fld: &Field, d: u32) -> (r: Result<(), DecodeError>)
        ensures
            match old(self)@.merge_field(fld@, d as nat) {
                Some(m) => r is Ok && final(self)@ == m,
                None => r is Err,
            },
    {
        if fld.number == 1 {
            match wire_bool(&fld.value) {
                Ok(v) => {
                    self.request_safe_to_disconnect = Some(v);
                    Ok(())
                },
                Err(e) => Err(e),
            }
        } else if fld.number == 2 {
            match wire_bool(&fld.value) {
                Ok(v) => {
                    self.ack_safe_to_disconnect = Some(v);
                    Ok(())
                },
                Err(e) => Err(e),
            }
        } else if d == 0 {
            Err(DecodeError)
        } else {
            Ok(())
        }
    }

    /// Merges every record of `bytes` into this message.
    pub fn merge_from(&mut self, bytes: &[u8], d: u32) -> (r: Result<(), DecodeError>)
        ensures
            match old(self)@.merge_bytes(bytes@, d as nat) {
                Some(m) => r is Ok && final(self)@ == m,
                None => r is Err,
            },
    {
        let fields = match read_fields(bytes, d) {
            Some(fs) => fs,
            None => return Err(DecodeError),
        };
        let ghost fs = fields_view(fields@);
        let mut i: usize = 0;
        assert(fs.skip(0) =~= fs);
        while i < fields.len()
            invariant
                i <= fields@.len(),
                fs == fields_view(fields@),
                parse_fields(bytes@, d as nat) == Some(fs),
                old(self)@.merge_all(fs, d as nat) == self@.merge_all(fs.skip(i as int), d as nat),
            decreases fields@.len() - i,
        {
            let ghost before = self@;
            assert(fs.skip(i as int)[0] == fields@[i as int]@);
            match self.merge_record(&fields[i], d) {
                Ok(()) => {},
                Err(e) => {
                    assert(fs.skip(i as int).len() > 0);
                    assert(before.merge_all(fs.skip(i as int), d as nat) is None);
                    return Err(e);
                },
            }
            assert(fs.skip(i as int).drop_first() =~= fs.skip(i + 1));
            i = i + 1;
        }
        assert(fs.skip(i as int) =~= Seq::<FieldModel>::empty());
        Ok(())
    }

    /// Decodes a message, ignoring unknown fields.
    pub fn decode(bytes: &[u8]) -> (r: Result<Self, DecodeError>)
        ensures
            match DisconnectionFrameModel::decoded(bytes@) {
                Some(m) => r matches Ok(x) && x@ == m,
                None => r is Err,
            },
    {
        let mut m = Self::empty();
        match m.merge_from(bytes, RECURSION_BUDGET) {
            Ok(()) => Ok(m),
            Err(e) => Err(e),
        }
    }
}

// --- Ukey2Message ---

/// Envelope of one UKEY2 handshake message.
#[derive(Clone, Debug, Default, PartialEq)]
pub struct Ukey2Message {
    pub message_type: Option<i32>,
    pub message_data: Option<Vec<u8>>,
}

/// The value of a [`Ukey2Message`].
#[verifier::ext_equal]
pub struct Ukey2MessageModel {
    pub message_type: Option<i32>,
    pub message_data: Option<Seq<u8>>,
}

impl View for Ukey2Message {
    type V = Ukey2MessageModel;

    open spec fn view(&self) -> Ukey2MessageModel {
        Ukey2MessageModel {
            message_type: self.message_type,
            message_data: opt_bytes_view(self.message_data),
        }
    }
}

impl Ukey2MessageModel {
    /// The message with no field set.
    pub open spec fn empty() -> Self {
        Ukey2MessageModel {
            message_type: None,
            message_data: None,
        }
    }

    /// The records this message encodes to, in field-number order.
    pub open spec fn records(self) -> Seq<FieldModel> {
        opt_i32_records(1, self.message_type)
            + opt_bytes_records(2, self.message_data)
    }

    pub open spec fn encoding(self) -> Seq<u8> {
        fields_bytes(self.records())
    }

    /// Every length fits the wire format, here and in every embedded message.
    pub open spec fn wf(self) -> bool {
        &&& all_encodable(self.records())
    }

    /// The message after one more record is merged into it: a scalar, string
    /// or bytes field takes the new value, an embedded message merges the new
    /// one into itself, and a repeated field appends.
    pub open spec fn merge_field(self, fld: FieldModel, d: nat) -> Option<Self> {
        if fld.number == 1 {
            match varint_of(fld.value) {
                Some(v) => Some(Ukey2MessageModel { message_type: Some(v as i32), ..self }),
                None => None,
            }
        } else if fld.number == 2 {
            match payload_of(fld.value) {
                Some(b) => Some(Ukey2MessageModel { message_data: Some(b), ..self }),
                None => None,
            }
        } else if d == 0 {
            None
        } else {
            Some(self)
        }
    }

    pub open spec fn merge_all(self, fs: Seq<FieldModel>, d: nat) -> Option<Self>
        decreases fs.len(),
    {
        if fs.len() == 0 {
            Some(self)
        } else {
            match self.merge_field(fs[0], d) {
                Some(m) => m.merge_all(fs.drop_first(), d),
                None => None,
            }
        }
    }

    /// The message after every record of `s` is merged into it.
    pub open spec fn merge_bytes(self, s: Seq<u8>, d: nat) -> Option<Self> {
        match parse_fields(s, d) {
            Some(fs) => self.merge_all(fs, d),
            None => None,
        }
    }

    /// The message that `s` encodes, if it is a well-formed encoding.
    pub open spec fn decoded(s: Seq<u8>) -> Option<Self> {
        Self::empty().merge_bytes(s, RECURSION_BUDGET as nat)
    }

    pub proof fn lemma_merge_all_append(self, a: Seq<FieldModel>, b: Seq<FieldModel>, d: nat)
        ensures
            self.merge_all(a + b, d) == match self.merge_all(a, d) {
                Some(m) => m.merge_all(b, d),
                None => None,
            },
        decreases a.len(),
    {
        if a.len() == 0 {
            assert(a + b =~= b);
        } else {
            assert((a + b).drop_first() =~= a.drop_first() + b);
            assert((a + b)[0] == a[0]);
            if let Some(m) = self.merge_field(a[0], d) {
                m.lemma_merge_all_append(a.drop_first(), b, d);
            }
        }
    }

    /// Decoding the encoding of a message gives the message back.
    #[verifier::spinoff_prover]
    #[verifier::rlimit(40)]
    pub proof fn lemma_round_trip(self, d: nat)
        requires
            self.wf(),
            d >= 0,
        ensures
            Self::empty().merge_bytes(self.encoding(), d) == Some(self),
    {
        lemma_parse_fields_bytes(self.records(), d);
        reveal_with_fuel(Ukey2MessageModel::merge_all, 2);
        let s0 = Ukey2MessageModel::empty();
        let s1 = Ukey2MessageModel { message_type: self.message_type, ..s0 };
        if let Some(x) = self.message_type {
            lemma_i32_round_trip(x);
        }
        assert(s0.merge_all(opt_i32_records(1, self.message_type), d) == Some(s1));
        let s2 = Ukey2MessageModel { message_data: self.message_data, ..s1 };
        assert(s1.merge_all(opt_bytes_records(2, self.message_data), d) == Some(s2));
        s0.lemma_merge_all_append(opt_i32_records(1, self.message_type), opt_bytes_records(2, self.message_data), d);
        assert(s2 =~= self);
    }
}

impl Ukey2Message {
    /// The message with no field set.
    pub fn empty() -> (r: Self)
        ensures
            r@ == Ukey2MessageModel::empty(),
    {
        let r = Ukey2Message {
            message_type: None,
            message_data: None,
        };
        assert(r@ =~= Ukey2MessageModel::empty());
        r
    }

    /// Appends the encoding of this message.
    #[verifier::spinoff_prover]
    #[verifier::rlimit(40)]
    pub fn encode_into(&self, out: &mut Vec<u8>)
        ensures
            final(out)@ == old(out)@ + self@.encoding(),
    {
        let ghost start = out@;
        put_opt_i32(out, 1, self.message_type);
        let ghost done = opt_i32_records(1, self@.message_type);
        let ghost mid = out@;
        put_opt_bytes(out, 2, &self.message_data);
        proof {
            lemma_fields_bytes_append(done, opt_bytes_records(2, self@.message_data));
            lemma_concat_associative(start, fields_bytes(done), fields_bytes(opt_bytes_records(2, self@.message_data)));
        }
        let ghost done = done + opt_bytes_records(2, self@.message_data);
        assert(done == self@.records());
    }

    pub fn encode_to_vec(&self) -> (r: Vec<u8>)
        ensures
            r@ == self@.encoding(),
    {
        let mut out = Vec::new();
        self.encode_into(&mut out);
        assert(out@ =~= self@.encoding());
        out
    }

    fn merge_record(&mut self, fld: &Field, d: u32) -> (r: Result<(), DecodeError>)
        ensures
            match old(self)@.merge_field(fld@, d as nat) {
                Some(m) => r is Ok && final(self)@ == m,
                None => r is Err,
            },
    {
        if fld.number == 1 {
            match wire_i32(&fld.value) {
                Ok(v) => {
                    self.message_type = Some(v);
                    Ok(())
                },
                Err(e) => Err(e),
            }
        } else if fld.number == 2 {
            match wire_bytes(&fld.value) {
                Ok(v) => {
                    self.message_data = Some(v);
                    Ok(())
                },
                Err(e) => Err(e),
            }
        } else if d == 0 {
            Err(DecodeError)
        } else {
            Ok(())
        }
    }

    /// Merges every record of `bytes` into this message.
    pub fn merge_from(&mut self, bytes: &[u8], d: u32) -> (r: Result<(), DecodeError>)
        ensures
            match old(self)@.merge_bytes(bytes@, d as nat) {
                Some(m) => r is Ok && final(self)@ == m,
                None => r is Err,
            },
    {
        let fields = match read_fields(bytes, d) {
            Some(fs) => fs,
            None => return Err(DecodeError),
        };
        let ghost fs = fields_view(fields@);
        let mut i: usize = 0;
        assert(fs.skip(0) =~= fs);
        while i < fields.len()
            invariant
                i <= fields@.len(),
                fs == fields_view(fields@),
                parse_fields(bytes@, d as nat) == Some(fs),
                old(self)@.merge_all(fs, d as nat) == self@.merge_all(fs.skip(i as int), d as nat),
            decreases fields@.len() - i,
        {
            let ghost before = self@;
            assert(fs.skip(i as int)[0] == fields@[i as int]@);
            match self.merge_record(&fields[i], d) {
                Ok(()) => {},
                Err(e) => {
                    assert(fs.skip(i as int).len() > 0);
                    assert(before.merge_all(fs.skip(i as int), d as nat) is None);
                    return Err(e);
                },
            }
            assert(fs.skip(i as int).drop_first() =~= fs.skip(i + 1));
            i = i + 1;
        }
        assert(fs.skip(i as int) =~= Seq::<FieldModel>::empty());
        Ok(())
    }

    /// Decodes a message, ignoring unknown fields.
    pub fn decode(bytes: &[u8]) -> (r: Result<Self, DecodeError>)
        ensures
            match Ukey2MessageModel::decoded(bytes@) {
                Some(m) => r matches Ok(x) && x@ == m,
                None => r is Err,
            },
    {
        let mut m = Self::empty();
        match m.merge_from(bytes, RECURSION_BUDGET) {
            Ok(()) => Ok(m),
            Err(e) => Err(e),
        }
    }
}

// --- Ukey2ClientInit ---

/// First UKEY2 message, from the client.
#[derive(Clone, Debug, Default, PartialEq)]
pub struct Ukey2ClientInit {
    pub version: Option<i32>,
    pub random: Option<Vec<u8>>,
    pub cipher_commitments: Vec<CipherCommitment>,
    pub next_protocol: Option<String>,
}

/// The value of a [`Ukey2ClientInit`].
#[verifier::ext_equal]
pub struct Ukey2ClientInitModel {
    pub version: Option<i32>,
    pub random: Option<Seq<u8>>,
    pub cipher_commitments: Seq<CipherCommitmentModel>,
    pub next_protocol: Option<Seq<char>>,
}

impl View for Ukey2ClientInit {
    type V = Ukey2ClientInitModel;

    open spec fn view(&self) -> Ukey2ClientInitModel {
        Ukey2ClientInitModel {
            version: self.version,
            random: opt_bytes_view(self.random),
            cipher_commitments: self.cipher_commitments@.map_values(|x: CipherCommitment| x@),
            next_protocol: opt_str_view(self.next_protocol),
        }
    }
}

impl Ukey2ClientInitModel {
    /// The message with no field set.
    pub open spec fn empty() -> Self {
        Ukey2ClientInitModel {
            version: None,
            random: None,
            cipher_commitments: Seq::empty(),
            next_protocol: None,
        }
    }

    /// The records this message encodes to, in field-number order.
    pub open spec fn records(self) -> Seq<FieldModel> {
        opt_i32_records(1, self.version)
            + opt_bytes_records(2, self.random)
            + rep_bytes_records(3, self.cipher_commitments.map_values(|x: CipherCommitmentModel| x.encoding()))
            + opt_str_records(4, self.next_protocol)
    }

    pub open spec fn encoding(self) -> Seq<u8> {
        fields_bytes(self.records())
    }

    /// Every length fits the wire format, here and in every embedded message.
    pub open spec fn wf(self) -> bool {
        &&& all_encodable(self.records())
        &&& forall|i: int| 0 <= i < self.cipher_commitments.len() ==> #[trigger] self.cipher_commitments[i].wf()
    }

    /// The message after one more record is merged into it: a scalar, string
    /// or bytes field takes the new value, an embedded message merges the new
    /// one into itself, and a repeated field appends.
    pub open spec fn merge_field(self, fld: FieldModel, d: nat) -> Option<Self> {
        if fld.number == 1 {
            match varint_of(fld.value) {
                Some(v) => Some(Ukey2ClientInitModel { version: Some(v as i32), ..self }),
                None => None,
            }
        } else if fld.number == 2 {
            match payload_of(fld.value) {
                Some(b) => Some(Ukey2ClientInitModel { random: Some(b), ..self }),
                None => None,
            }
        } else if fld.number == 3 {
            if d == 0 {
                None
            } else {
                match payload_of(fld.value) {
                    Some(b) => match CipherCommitmentModel::empty().merge_bytes(b, (d - 1) as nat) {
                        Some(x) => Some(Ukey2ClientInitModel { cipher_commitments: self.cipher_commitments.push(x), ..self }),
                        None => None,
                    },
                    None => None,
                }
            }
        } else if fld.number == 4 {
            match string_of(fld.value) {
                Some(c) => Some(Ukey2ClientInitModel { next_protocol: Some(c), ..self }),
                None => None,
            }
        } else if d == 0 {
            None
        } else {
            Some(self)
        }
    }

    pub open spec fn merge_all(self, fs: Seq<FieldModel>, d: nat) -> Option<Self>
        decreases fs.len(),
    {
        if fs.len() == 0 {
            Some(self)
        } else {
            match self.merge_field(fs[0], d) {
                Some(m) => m.merge_all(fs.drop_first(), d),
                None => None,
            }
        }
    }

    /// The message after every record of `s` is merged into it.
    pub open spec fn merge_bytes(self, s: Seq<u8>, d: nat) -> Option<Self> {
        match parse_fields(s, d) {
            Some(fs) => self.merge_all(fs, d),
            None => None,
        }
    }

    /// The message that `s` encodes, if it is a well-formed encoding.
    pub open spec fn decoded(s: Seq<u8>) -> Option<Self> {
        Self::empty().merge_bytes(s, RECURSION_BUDGET as nat)
    }

    pub proof fn lemma_merge_all_append(self, a: Seq<FieldModel>, b: Seq<FieldModel>, d: nat)
        ensures
            self.merge_all(a + b, d) == match self.merge_all(a, d) {
                Some(m) => m.merge_all(b, d),
                None => None,
            },
        decreases a.len(),
    {
        if a.len() == 0 {
            assert(a + b =~= b);
        } else {
            assert((a + b).drop_first() =~= a.drop_first() + b);
            assert((a + b)[0] == a[0]);
            if let Some(m) = self.merge_field(a[0], d) {
                m.lemma_merge_all_append(a.drop_first(), b, d);
            }
        }
    }

    /// Decoding the encoding of a message gives the message back.
    #[verifier::spinoff_prover]
    #[verifier::rlimit(40)]
    pub proof fn lemma_round_trip(self, d: nat)
        requires
            self.wf(),
            d >= 1,
        ensures
            Self::empty().merge_bytes(self.encoding(), d) == Some(self),
    {
        lemma_parse_fields_bytes(self.records(), d);
        reveal_with_fuel(Ukey2ClientInitModel::merge_all, 2);
        let s0 = Ukey2ClientInitModel::empty();
        let s1 = Ukey2ClientInitModel { version: self.version, ..s0 };
        if let Some(x) = self.version {
            lemma_i32_round_trip(x);
        }
        assert(s0.merge_all(opt_i32_records(1, self.version), d) == Some(s1));
        let s2 = Ukey2ClientInitModel { random: self.random, ..s1 };
        assert(s1.merge_all(opt_bytes_records(2, self.random), d) == Some(s2));
        let s3 = Ukey2ClientInitModel { cipher_commitments: self.cipher_commitments, ..s2 };
        Ukey2ClientInitModel::lemma_merge_cipher_commitments(s2, self.cipher_commitments, d);
        assert(s2.cipher_commitments + self.cipher_commitments =~= self.cipher_commitments);
        let s4 = Ukey2ClientInitModel { next_protocol: self.next_protocol, ..s3 };
        if let Some(x) = self.next_protocol {
            lemma_string_round_trip(x);
        }
        assert(s3.merge_all(opt_str_records(4, self.next_protocol), d) == Some(s4));
        s0.lemma_merge_all_append(opt_i32_records(1, self.version), opt_bytes_records(2, self.random), d);
        s0.lemma_merge_all_append(opt_i32_records(1, self.version) + opt_bytes_records(2, self.random), rep_bytes_records(3, self.cipher_commitments.map_values(|x: CipherCommitmentModel| x.encoding())), d);
        s0.lemma_merge_all_append(opt_i32_records(1, self.version) + opt_bytes_records(2, self.random) + rep_bytes_records(3, self.cipher_commitments.map_values(|x: CipherCommitmentModel| x.encoding())), opt_str_records(4, self.next_protocol), d);
        assert(s4 =~= self);
    }

    proof fn lemma_merge_one_cipher_commitments(s: Self, x: CipherCommitmentModel, d: nat)
        requires
            d >= 1,
            x.wf(),
        ensures
            s.merge_all(seq![bytes_record(3, x.encoding())], d)
                == Some(Ukey2ClientInitModel { cipher_commitments: s.cipher_commitments.push(x), ..s }),
    {
        reveal_with_fuel(Ukey2ClientInitModel::merge_all, 2);
        x.lemma_round_trip((d - 1) as nat);
        let rec = bytes_record(3, x.encoding());
        assert(seq![rec][0] == rec);
        assert(seq![rec].drop_first() =~= Seq::<FieldModel>::empty());
        assert(s.merge_field(rec, d) == Some(Ukey2ClientInitModel { cipher_commitments: s.cipher_commitments.push(x), ..s }));
    }

    #[verifier::spinoff_prover]
    proof fn lemma_merge_cipher_commitments(s: Self, xs: Seq<CipherCommitmentModel>, d: nat)
        requires
            d >= 1,
            forall|i: int| 0 <= i < xs.len() ==> #[trigger] xs[i].wf(),
        ensures
            s.merge_all(rep_bytes_records(3, xs.map_values(|x: CipherCommitmentModel| x.encoding())), d)
                == Some(Ukey2ClientInitModel { cipher_commitments: s.cipher_commitments + xs, ..s }),
        decreases xs.len(),
    {
        let recs = rep_bytes_records(3, xs.map_values(|x: CipherCommitmentModel| x.encoding()));
        if xs.len() == 0 {
            assert(recs =~= Seq::<FieldModel>::empty());
            assert(s.cipher_commitments + xs =~= s.cipher_commitments);
            assert(Ukey2ClientInitModel { cipher_commitments: s.cipher_commitments + xs, ..s } =~= s);
        } else {
            let init = xs.drop_last();
            let last = xs.last();
            assert forall|i: int| 0 <= i < init.len() implies #[trigger] init[i].wf() by {
                assert(init[i] == xs[i]);
            }
            assert(last.wf()) by {
                assert(xs[xs.len() - 1].wf());
            }
            Self::lemma_merge_cipher_commitments(s, init, d);
            let init_encs = init.map_values(|x: CipherCommitmentModel| x.encoding());
            assert(xs.map_values(|x: CipherCommitmentModel| x.encoding()) =~= init_encs.push(last.encoding()));
            lemma_rep_bytes_records_push(3, init_encs, last.encoding());
            let init_recs = rep_bytes_records(3, init_encs);
            let last_rec = seq![bytes_record(3, last.encoding())];
            s.lemma_merge_all_append(init_recs, last_rec, d);
            let mid = Ukey2ClientInitModel { cipher_commitments: s.cipher_commitments + init, ..s };
            Self::lemma_merge_one_cipher_commitments(mid, last, d);
            assert(mid.cipher_commitments.push(last) =~= s.cipher_commitments + xs);
        }
    }
}

impl Ukey2ClientInit {
    /// The message with no field set.
    pub fn empty() -> (r: Self)
        ensures
            r@ == Ukey2ClientInitModel::empty(),
    {
        let r = Ukey2ClientInit {
            version: None,
            random: None,
            cipher_commitments: Vec::new(),
            next_protocol: None,
        };
        assert(r@ =~= Ukey2ClientInitModel::empty());
        r
    }

    /// Appends the encoding of this message.
    #[verifier::spinoff_prover]
    #[verifier::rlimit(40)]
    pub fn encode_into(&self, out: &mut Vec<u8>)
        ensures
            final(out)@ == old(out)@ + self@.encoding(),
    {
        let ghost start = out@;
        put_opt_i32(out, 1, self.version);
        let ghost done = opt_i32_records(1, self@.version);
        let ghost mid = out@;
        put_opt_bytes(out, 2, &self.random);
        proof {
            lemma_fields_bytes_append(done, opt_bytes_records(2, self@.random));
            lemma_concat_associative(start, fields_bytes(done), fields_bytes(opt_bytes_records(2, self@.random)));
        }
        let ghost done = done + opt_bytes_records(2, self@.random);
        let ghost mid = out@;
        let ghost encs = self@.cipher_commitments.map_values(|x: CipherCommitmentModel| x.encoding());
        let ghost seg = out@;
        let mut i: usize = 0;
        assert(encs.take(0) =~= Seq::<Seq<u8>>::empty());
        assert(rep_bytes_records(3, encs.take(0)) =~= Seq::<FieldModel>::empty());
        assert(seg + fields_bytes(Seq::<FieldModel>::empty()) =~= seg);
        while i < self.cipher_commitments.len()
            invariant
                i <= self.cipher_commitments@.len(),
                encs == self@.cipher_commitments.map_values(|x: CipherCommitmentModel| x.encoding()),
                self@.cipher_commitments == self.cipher_commitments@.map_values(|x: CipherCommitment| x@),
                out@ == seg + fields_bytes(rep_bytes_records(3, encs.take(i as int))),
            decreases self.cipher_commitments@.len() - i,
        {
            let enc = self.cipher_commitments[i].encode_to_vec();
            let ghost before = out@;
            put_bytes_field(out, 3, enc.as_slice());
            proof {
                assert(encs.take(i + 1) =~= encs.take(i as int).push(enc@));
                lemma_rep_bytes_records_push(3, encs.take(i as int), enc@);
                lemma_fields_bytes_append(
                    rep_bytes_records(3, encs.take(i as int)),
                    seq![bytes_record(3, enc@)],
                );
                lemma_fields_bytes_single(bytes_record(3, enc@));
                assert(out@ =~= seg + fields_bytes(rep_bytes_records(3, encs.take(i + 1))));
            }
            i = i + 1;
        }
        assert(encs.take(i as int) =~= encs);
        proof {
            lemma_fields_bytes_append(done, rep_bytes_records(3, self@.cipher_commitments.map_values(|x: CipherCommitmentModel| x.encoding())));
            lemma_concat_associative(start, fields_bytes(done), fields_bytes(rep_bytes_records(3, self@.cipher_commitments.map_values(|x: CipherCommitmentModel| x.encoding()))));
        }
        let ghost done = done + rep_bytes_records(3, self@.cipher_commitments.map_values(|x: CipherCommitmentModel| x.encoding()));
        let ghost mid = out@;
        put_opt_str(out, 4, &self.next_protocol);
        proof {
            lemma_fields_bytes_append(done, opt_str_records(4, self@.next_protocol));
            lemma_concat_associative(start, fields_bytes(done), fields_bytes(opt_str_records(4, self@.next_protocol)));
        }
        let ghost done = done + opt_str_records(4, self@.next_protocol);
        assert(done == self@.records());
    }

    pub fn encode_to_vec(&self) -> (r: Vec<u8>)
        ensures
            r@ == self@.encoding(),
    {
        let mut out = Vec::new();
        self.encode_into(&mut out);
        assert(out@ =~= self@.encoding());
        out
    }

    fn merge_record(&mut self, fld: &Field, d: u32) -> (r: Result<(), DecodeError>)
        ensures
            match old(self)@.merge_field(fld@, d as nat) {
                Some(m) => r is Ok && final(self)@ == m,
                None => r is Err,
            },
    {
        if fld.number == 1 {
            match wire_i32(&fld.value) {
                Ok(v) => {
                    self.version = Some(v);
                    Ok(())
                },
                Err(e) => Err(e),
            }
        } else if fld.number == 2 {
            match wire_bytes(&fld.value) {
                Ok(v) => {
                    self.random = Some(v);
                    Ok(())
                },
                Err(e) => Err(e),
            }
        } else if fld.number == 3 {
            if d == 0 {
                return Err(DecodeError);
            }
            match &fld.value {
                WireValue::LengthDelimited(b) => {
                    let mut inner = CipherCommitment::empty();
                    match inner.merge_from(b.as_slice(), d - 1) {
                        Ok(()) => {
                            let ghost before = self.cipher_commitments@;
                            let ghost iv = inner@;
                            self.cipher_commitments.push(inner);
                            assert(self.cipher_commitments@.map_values(|x: CipherCommitment| x@) =~= before.map_values(
                                |x: CipherCommitment| x@,
                            ).push(iv));
                            Ok(())
                        },
                        Err(e) => Err(e),
                    }
                },
                _ => Err(DecodeError),
            }
        } else if fld.number == 4 {
            match wire_string(&fld.value) {
                Ok(v) => {
                    self.next_protocol = Some(v);
                    Ok(())
                },
                Err(e) => Err(e),
            }
        } else if d == 0 {
            Err(DecodeError)
        } else {
            Ok(())
        }
    }

    /// Merges every record of `bytes` into this message.
    pub fn merge_from(&mut self, bytes: &[u8], d: u32) -> (r: Result<(), DecodeError>)
        ensures
            match old(self)@.merge_bytes(bytes@, d as nat) {
                Some(m) => r is Ok && final(self)@ == m,
                None => r is Err,
            },
    {
        let fields = match read_fields(bytes, d) {
            Some(fs) => fs,
            None => return Err(DecodeError),
        };
        let ghost fs = fields_view(fields@);
        let mut i: usize = 0;
        assert(fs.skip(0) =~= fs);
        while i < fields.len()
            invariant
                i <= fields@.len(),
                fs == fields_view(fields@),
                parse_fields(bytes@, d as nat) == Some(fs),
                old(self)@.merge_all(fs, d as nat) == self@.merge_all(fs.skip(i as int), d as nat),
            decreases fields@.len() - i,
        {
            let ghost before = self@;
            assert(fs.skip(i as int)[0] == fields@[i as int]@);
            match self.merge_record(&fields[i], d) {
                Ok(()) => {},
                Err(e) => {
                    assert(fs.skip(i as int).len() > 0);
                    assert(before.merge_all(fs.skip(i as int), d as nat) is None);
                    return Err(e);
                },
            }
            assert(fs.skip(i as int).drop_first() =~= fs.skip(i + 1));
            i = i + 1;
        }
        assert(fs.skip(i as int) =~= Seq::<FieldModel>::empty());
        Ok(())
    }

    /// Decodes a message, ignoring unknown fields.
    pub fn decode(bytes: &[u8]) -> (r: Result<Self, DecodeError>)
        ensures
            match Ukey2ClientInitModel::decoded(bytes@) {
                Some(m) => r matches Ok(x) && x@ == m,
                None => r is Err,
            },
    {
        let mut m = Self::empty();
        match m.merge_from(bytes, RECURSION_BUDGET) {
            Ok(()) => Ok(m),
            Err(e) => Err(e),
        }
    }
}

// --- CipherCommitment ---

/// Commitment to the client's final handshake message.
#[derive(Clone, Debug, Default, PartialEq)]
pub struct CipherCommitment {
    pub handshake_cipher: Option<i32>,
    pub commitment: Option<Vec<u8>>,
}

/// The value of a [`CipherCommitment`].
#[verifier::ext_equal]
pub struct CipherCommitmentModel {
    pub handshake_cipher: Option<i32>,
    pub commitment: Option<Seq<u8>>,
}

impl View for CipherCommitment {
    type V = CipherCommitmentModel;

    open spec fn view(&self) -> CipherCommitmentModel {
        CipherCommitmentModel {
            handshake_cipher: self.handshake_cipher,
            commitment: opt_bytes_view(self.commitment),
        }
    }
}

impl CipherCommitmentModel {
    /// The message with no field set.
    pub open spec fn empty() -> Self {
        CipherCommitmentModel {
            handshake_cipher: None,
            commitment: None,
        }
    }

    /// The records this message encodes to, in field-number order.
    pub open spec fn records(self) -> Seq<FieldModel> {
        opt_i32_records(1, self.handshake_cipher)
            + opt_bytes_records(2, self.commitment)
    }

    pub open spec fn encoding(self) -> Seq<u8> {
        fields_bytes(self.records())
    }

    /// Every length fits the wire format, here and in every embedded message.
    pub open spec fn wf(self) -> bool {
        &&& all_encodable(self.records())
    }

    /// The message after one more record is merged into it: a scalar, string
    /// or bytes field takes the new value, an embedded message merges the new
    /// one into itself, and a repeated field appends.
    pub open spec fn merge_field(self, fld: FieldModel, d: nat) -> Option<Self> {
        if fld.number == 1 {
            match varint_of(fld.value) {
                Some(v) => Some(CipherCommitmentModel { handshake_cipher: Some(v as i32), ..self }),
                None => None,
            }
        } else if fld.number == 2 {
            match payload_of(fld.value) {
                Some(b) => Some(CipherCommitmentModel { commitment: Some(b), ..self }),
                None => None,
            }
        } else if d == 0 {
            None
        } else {
            Some(self)
        }
    }

    pub open spec fn merge_all(self, fs: Seq<FieldModel>, d: nat) -> Option<Self>
        decreases fs.len(),
    {
        if fs.len() == 0 {
            Some(self)
        } else {
            match self.merge_field(fs[0], d) {
                Some(m) => m.merge_all(fs.drop_first(), d),
                None => None,
            }
        }
    }

    /// The message after every record of `s` is merged into it.
    pub open spec fn merge_bytes(self, s: Seq<u8>, d: nat) -> Option<Self> {
        match parse_fields(s, d) {
            Some(fs) => self.merge_all(fs, d),
            None => None,
        }
    }

    /// The message that `s` encodes, if it is a well-formed encoding.
    pub open spec fn decoded(s: Seq<u8>) -> Option<Self> {
        Self::empty().merge_bytes(s, RECURSION_BUDGET as nat)
    }

    pub proof fn lemma_merge_all_append(self, a: Seq<FieldModel>, b: Seq<FieldModel>, d: nat)
        ensures
            self.merge_all(a + b, d) == match self.merge_all(a, d) {
                Some(m) => m.merge_all(b, d),
                None => None,
            },
        decreases a.len(),
    {
        if a.len() == 0 {
            assert(a + b =~= b);
        } else {
            assert((a + b).drop_first() =~= a.drop_first() + b);
            assert((a + b)[0] == a[0]);
            if let Some(m) = self.merge_field(a[0], d) {
                m.lemma_merge_all_append(a.drop_first(), b, d);
            }
        }
    }

    /// Decoding the encoding of a message gives the message back.
    #[verifier::spinoff_prover]
    #[verifier::rlimit(40)]
    pub proof fn lemma_round_trip(self, d: nat)
        requires
            self.wf(),
            d >= 0,
        ensures
            Self::empty().merge_bytes(self.encoding(), d) == Some(self),
    {
        lemma_parse_fields_bytes(self.records(), d);
        reveal_with_fuel(CipherCommitmentModel::merge_all, 2);
        let s0 = CipherCommitmentModel::empty();
        let s1 = CipherCommitmentModel { handshake_cipher: self.handshake_cipher, ..s0 };
        if let Some(x) = self.handshake_cipher {
            lemma_i32_round_trip(x);
        }
        assert(s0.merge_all(opt_i32_records(1, self.handshake_cipher), d) == Some(s1));
        let s2 = CipherCommitmentModel { commitment: self.commitment, ..s1 };
        assert(s1.merge_all(opt_bytes_records(2, self.commitment), d) == Some(s2));
        s0.lemma_merge_all_append(opt_i32_records(1, self.handshake_cipher), opt_bytes_records(2, self.commitment), d);
        assert(s2 =~= self);
    }
}

impl CipherCommitment {
    /// The message with no field set.
    pub fn empty() -> (r: Self)
        ensures
            r@ == CipherCommitmentModel::empty(),
    {
        let r = CipherCommitment {
            handshake_cipher: None,
            commitment: None,
        };
        assert(r@ =~= CipherCommitmentModel::empty());
        r
    }

    /// Appends the encoding of this message.
    #[verifier::spinoff_prover]
    #[verifier::rlimit(40)]
    pub fn encode_into(&self, out: &mut Vec<u8>)
        ensures
            final(out)@ == old(out)@ + self@.encoding(),
    {
        let ghost start = out@;
        put_opt_i32(out, 1, self.handshake_cipher);
        let ghost done = opt_i32_records(1, self@.handshake_cipher);
        let ghost mid = out@;
        put_opt_bytes(out, 2, &self.commitment);
        proof {
            lemma_fields_bytes_append(done, opt_bytes_records(2, self@.commitment));
            lemma_concat_associative(start, fields_bytes(done), fields_bytes(opt_bytes_records(2, self@.commitment)));
        }
        let ghost done = done + opt_bytes_records(2, self@.commitment);
        assert(done == self@.records());
    }

    pub fn encode_to_vec(&self) -> (r: Vec<u8>)
        ensures
            r@ == self@.encoding(),
    {
        let mut out = Vec::new();
        self.encode_into(&mut out);
        assert(out@ =~= self@.encoding());
        out
    }

    fn merge_record(&mut self, fld: &Field, d: u32) -> (r: Result<(), DecodeError>)
        ensures
            match old(self)@.merge_field(fld@, d as nat) {
                Some(m) => r is Ok && final(self)@ == m,
                None => r is Err,
            },
    {
        if fld.number == 1 {
            match wire_i32(&fld.value) {
                Ok(v) => {
                    self.handshake_cipher = Some(v);
                    Ok(())
                },
                Err(e) => Err(e),
            }
        } else if fld.number == 2 {
            match wire_bytes(&fld.value) {
                Ok(v) => {
                    self.commitment = Some(v);
                    Ok(())
                },
                Err(e) => Err(e),
            }
        } else if d == 0 {
            Err(DecodeError)
        } else {
            Ok(())
        }
    }

    /// Merges every record of `bytes` into this message.
    pub fn merge_from(&mut self, bytes: &[u8], d: u32) -> (r: Result<(), DecodeError>)
        ensures
            match old(self)@.merge_bytes(bytes@, d as nat) {
                Some(m) => r is Ok && final(self)@ == m,
                None => r is Err,
            },
    {
        let fields = match read_fields(bytes, d) {
            Some(fs) => fs,
            None => return Err(DecodeError),
        };
        let ghost fs = fields_view(fields@);
        let mut i: usize = 0;
        assert(fs.skip(0) =~= fs);
        while i < fields.len()
            invariant
                i <= fields@.len(),
                fs == fields_view(fields@),
                parse_fields(bytes@, d as nat) == Some(fs),
                old(self)@.merge_all(fs, d as nat) == self@.merge_all(fs.skip(i as int), d as nat),
            decreases fields@.len() - i,
        {
            let ghost before = self@;
            assert(fs.skip(i as int)[0] == fields@[i as int]@);
            match self.merge_record(&fields[i], d) {
                Ok(()) => {},
                Err(e) => {
                    assert(fs.skip(i as int).len() > 0);
                    assert(before.merge_all(fs.skip(i as int), d as nat) is None);
                    return Err(e);
                },
            }
            assert(fs.skip(i as int).drop_first() =~= fs.skip(i + 1));
            i = i + 1;
        }
        assert(fs.skip(i as int) =~= Seq::<FieldModel>::empty());
        Ok(())
    }

    /// Decodes a message, ignoring unknown fields.
    pub fn decode(bytes: &[u8]) -> (r: Result<Self, DecodeError>)
        ensures
            match CipherCommitmentModel::decoded(bytes@) {
                Some(m) => r matches Ok(x) && x@ == m,
                None => r is Err,
            },
    {
        let mut m = Self::empty();
        match m.merge_from(bytes, RECURSION_BUDGET) {
            Ok(()) => Ok(m),
            Err(e) => Err(e),
        }
    }
}

// --- Ukey2ServerInit ---

/// Second UKEY2 message, from the server.
#[derive(Clone, Debug, Default, PartialEq)]
pub struct Ukey2ServerInit {
    pub version: Option<i32>,
    pub random: Option<Vec<u8>>,
    pub handshake_cipher: Option<i32>,
    pub public_key: Option<Vec<u8>>,
}

/// The value of a [`Ukey2ServerInit`].
#[verifier::ext_equal]
pub struct Ukey2ServerInitModel {
    pub version: Option<i32>,
    pub random: Option<Seq<u8>>,
    pub handshake_cipher: Option<i32>,
    pub public_key: Option<Seq<u8>>,
}

impl View for Ukey2ServerInit {
    type V = Ukey2ServerInitModel;

    open spec fn view(&self) -> Ukey2ServerInitModel {
        Ukey2ServerInitModel {
            version: self.version,
            random: opt_bytes_view(self.random),
            handshake_cipher: self.handshake_cipher,
            public_key: opt_bytes_view(self.public_key),
        }
    }
}

impl Ukey2ServerInitModel {
    /// The message with no field set.
    pub open spec fn empty() -> Self {
        Ukey2ServerInitModel {
            version: None,
            random: None,
            handshake_cipher: None,
            public_key: None,
        }
    }

    /// The records this message encodes to, in field-number order.
    pub open spec fn records(self) -> Seq<FieldModel> {
        opt_i32_records(1, self.version)
            + opt_bytes_records(2, self.random)
            + opt_i32_records(3, self.handshake_cipher)
            + opt_bytes_records(4, self.public_key)
    }

    pub open spec fn encoding(self) -> Seq<u8> {
        fields_bytes(self.records())
    }

    /// Every length fits the wire format, here and in every embedded message.
    pub open spec fn wf(self) -> bool {
        &&& all_encodable(self.records())
    }

    /// The message after one more record is merged into it: a scalar, string
    /// or bytes field takes the new value, an embedded message merges the new
    /// one into itself, and a repeated field appends.
    pub open spec fn merge_field(self, fld: FieldModel, d: nat) -> Option<Self> {
        if fld.number == 1 {
            match varint_of(fld.value) {
                Some(v) => Some(Ukey2ServerInitModel { version: Some(v as i32), ..self }),
                None => None,
            }
        } else if fld.number == 2 {
            match payload_of(fld.value) {
                Some(b) => Some(Ukey2ServerInitModel { random: Some(b), ..self }),
                None => None,
            }
        } else if fld.number == 3 {
            match varint_of(fld.value) {
                Some(v) => Some(Ukey2ServerInitModel { handshake_cipher: Some(v as i32), ..self }),
                None => None,
            }
        } else if fld.number == 4 {
            match payload_of(fld.value) {
                Some(b) => Some(Ukey2ServerInitModel { public_key: Some(b), ..self }),
                None => None,
            }
        } else if d == 0 {
            None
        } else {
            Some(self)
        }
    }

    pub open spec fn merge_all(self, fs: Seq<FieldModel>, d: nat) -> Option<Self>
        decreases fs.len(),
    {
        if fs.len() == 0 {
            Some(self)
        } else {
            match self.merge_field(fs[0], d) {
                Some(m) => m.merge_all(fs.drop_first(), d),
                None => None,
            }
        }
    }

    /// The message after every record of `s` is merged into it.
    pub open spec fn merge_bytes(self, s: Seq<u8>, d: nat) -> Option<Self> {
        match parse_fields(s, d) {
            Some(fs) => self.merge_all(fs, d),
            None => None,
        }
    }

    /// The message that `s` encodes, if it is a well-formed encoding.
    pub open spec fn decoded(s: Seq<u8>) -> Option<Self> {
        Self::empty().merge_bytes(s, RECURSION_BUDGET as nat)
    }

    pub proof fn lemma_merge_all_append(self, a: Seq<FieldModel>, b: Seq<FieldModel>, d: nat)
        ensures
            self.merge_all(a + b, d) == match self.merge_all(a, d) {
                Some(m) => m.merge_all(b, d),
                None => None,
            },
        decreases a.len(),
    {
        if a.len() == 0 {
            assert(a + b =~= b);
        } else {
            assert((a + b).drop_first() =~= a.drop_first() + b);
            assert((a + b)[0] == a[0]);
            if let Some(m) = self.merge_field(a[0], d) {
                m.lemma_merge_all_append(a.drop_first(), b, d);
            }
        }
    }

    /// Decoding the encoding of a message gives the message back.
    #[verifier::spinoff_prover]
    #[verifier::rlimit(40)]
    pub proof fn lemma_round_trip(self, d: nat)
        requires
            self.wf(),
            d >= 0,
        ensures
            Self::empty().merge_bytes(self.encoding(), d) == Some(self),
    {
        lemma_parse_fields_bytes(self.records(), d);
        reveal_with_fuel(Ukey2ServerInitModel::merge_all, 2);
        let s0 = Ukey2ServerInitModel::empty();
        let s1 = Ukey2ServerInitModel { version: self.version, ..s0 };
        if let Some(x) = self.version {
            lemma_i32_round_trip(x);
        }
        assert(s0.merge_all(opt_i32_records(1, self.version), d) == Some(s1));
        let s2 = Ukey2ServerInitModel { random: self.random, ..s1 };
        assert(s1.merge_all(opt_bytes_records(2, self.random), d) == Some(s2));
        let s3 = Ukey2ServerInitModel { handshake_cipher: self.handshake_cipher, ..s2 };
        if let Some(x) = self.handshake_cipher {
            lemma_i32_round_trip(x);
        }
        assert(s2.merge_all(opt_i32_records(3, self.handshake_cipher), d) == Some(s3));
        let s4 = Ukey2ServerInitModel { public_key: self.public_key, ..s3 };
        assert(s3.merge_all(opt_bytes_records(4, self.public_key), d) == Some(s4));
        s0.lemma_merge_all_append(opt_i32_records(1, self.version), opt_bytes_records(2, self.random), d);
        s0.lemma_merge_all_append(opt_i32_records(1, self.version) + opt_bytes_records(2, self.random), opt_i32_records(3, self.handshake_cipher), d);
        s0.lemma_merge_all_append(opt_i32_records(1, self.version) + opt_bytes_records(2, self.random) + opt_i32_records(3, self.handshake_cipher), opt_bytes_records(4, self.public_key), d);
        assert(s4 =~= self);
    }
}

impl Ukey2ServerInit {
    /// The message with no field set.
    pub fn empty() -> (r: Self)
        ensures
            r@ == Ukey2ServerInitModel::empty(),
    {
        let r = Ukey2ServerInit {
            version: None,
            random: None,
            handshake_cipher: None,
            public_key: None,
        };
        assert(r@ =~= Ukey2ServerInitModel::empty());
        r
    }

    /// Appends the encoding of this message.
    #[verifier::spinoff_prover]
    #[verifier::rlimit(40)]
    pub fn encode_into(&self, out: &mut Vec<u8>)
        ensures
            final(out)@ == old(out)@ + self@.encoding(),
    {
        let ghost start = out@;
        put_opt_i32(out, 1, self.version);
        let ghost done = opt_i32_records(1, self@.version);
        let ghost mid = out@;
        put_opt_bytes(out, 2, &self.random);
        proof {
            lemma_fields_bytes_append(done, opt_bytes_records(2, self@.random));
            lemma_concat_associative(start, fields_bytes(done), fields_bytes(opt_bytes_records(2, self@.random)));
        }
        let ghost done = done + opt_bytes_records(2, self@.random);
        let ghost mid = out@;
        put_opt_i32(out, 3, self.handshake_cipher);
        proof {
            lemma_fields_bytes_append(done, opt_i32_records(3, self@.handshake_cipher));
            lemma_concat_associative(start, fields_bytes(done), fields_bytes(opt_i32_records(3, self@.handshake_cipher)));
        }
        let ghost done = done + opt_i32_records(3, self@.handshake_cipher);
        let ghost mid = out@;
        put_opt_bytes(out, 4, &self.public_key);
        proof {
            lemma_fields_bytes_append(done, opt_bytes_records(4, self@.public_key));
            lemma_concat_associative(start, fields_bytes(done), fields_bytes(opt_bytes_records(4, self@.public_key)));
        }
        let ghost done = done + opt_bytes_records(4, self@.public_key);
        assert(done == self@.records());
    }

    pub fn encode_to_vec(&self) -> (r: Vec<u8>)
        ensures
            r@ == self@.encoding(),
    {
        let mut out = Vec::new();
        self.encode_into(&mut out);
        assert(out@ =~= self@.encoding());
        out
    }

    fn merge_record(&mut self, fld: &Field, d: u32) -> (r: Result<(), DecodeError>)
        ensures
            match old(self)@.merge_field(fld@, d as nat) {
                Some(m) => r is Ok && final(self)@ == m,
                None => r is Err,
            },
    {
        if fld.number == 1 {
            match wire_i32(&fld.value) {
                Ok(v) => {
                    self.version = Some(v);
                    Ok(())
                },
                Err(e) => Err(e),
            }
        } else if fld.number == 2 {
            match wire_bytes(&fld.value) {
                Ok(v) => {
                    self.random = Some(v);
                    Ok(())
                },
                Err(e) => Err(e),
            }
        } else if fld.number == 3 {
            match wire_i32(&fld.value) {
                Ok(v) => {
                    self.handshake_cipher = Some(v);
                    Ok(())
                },
                Err(e) => Err(e),
            }
        } else if fld.number == 4 {
            match wire_bytes(&fld.value) {
                Ok(v) => {
                    self.public_key = Some(v);
                    Ok(())
                },
                Err(e) => Err(e),
            }
        } else if d == 0 {
            Err(DecodeError)
        } else {
            Ok(())
        }
    }

    /// Merges every record of `bytes` into this message.
    pub fn merge_from(&mut self, bytes: &[u8], d: u32) -> (r: Result<(), DecodeError>)
        ensures
            match old(self)@.merge_bytes(bytes@, d as nat) {
                Some(m) => r is Ok && final(self)@ == m,
                None => r is Err,
            },
    {
        let fields = match read_fields(bytes, d) {
            Some(fs) => fs,
            None => return Err(DecodeError),
        };
        let ghost fs = fields_view(fields@);
        let mut i: usize = 0;
        assert(fs.skip(0) =~= fs);
        while i < fields.len()
            invariant
                i <= fields@.len(),
                fs == fields_view(fields@),
                parse_fields(bytes@, d as nat) == Some(fs),
                old(self)@.merge_all(fs, d as nat) == self@.merge_all(fs.skip(i as int), d as nat),
            decreases fields@.len() - i,
        {
            let ghost before = self@;
            assert(fs.skip(i as int)[0] == fields@[i as int]@);
            match self.merge_record(&fields[i], d) {
                Ok(()) => {},
                Err(e) => {
                    assert(fs.skip(i as int).len() > 0);
                    assert(before.merge_all(fs.skip(i as int), d as nat) is None);
                    return Err(e);
                },
            }
            assert(fs.skip(i as int).drop_first() =~= fs.skip(i + 1));
            i = i + 1;
        }
        assert(fs.skip(i as int) =~= Seq::<FieldModel>::empty());
        Ok(())
    }

    /// Decodes a message, ignoring unknown fields.
    pub fn decode(bytes: &[u8]) -> (r: Result<Self, DecodeError>)
        ensures
            match Ukey2ServerInitModel::decoded(bytes@) {
                Some(m) => r matches Ok(x) && x@ == m,
                None => r is Err,
            },
    {
        let mut m = Self::empty();
        match m.merge_from(bytes, RECURSION_BUDGET) {
            Ok(()) => Ok(m),
            Err(e) => Err(e),
        }
    }
}

// --- Ukey2ClientFinished ---

/// Third UKEY2 message, carrying the client's public key.
#[derive(Clone, Debug, Default, PartialEq)]
pub struct Ukey2ClientFinished {
    pub public_key: Option<Vec<u8>>,
}

/// The value of a [`Ukey2ClientFinished`].
#[verifier::ext_equal]
pub struct Ukey2ClientFinishedModel {
    pub public_key: Option<Seq<u8>>,
}

impl View for Ukey2ClientFinished {
    type V = Ukey2ClientFinishedModel;

    open spec fn view(&self) -> Ukey2ClientFinishedModel {
        Ukey2ClientFinishedModel {
            public_key: opt_bytes_view(self.public_key),
        }
    }
}

impl Ukey2ClientFinishedModel {
    /// The message with no field set.
    pub open spec fn empty() -> Self {
        Ukey2ClientFinishedModel {
            public_key: None,
        }
    }

    /// The records this message encodes to, in field-number order.
    pub open spec fn records(self) -> Seq<FieldModel> {
        opt_bytes_records(1, self.public_key)
    }

    pub open spec fn encoding(self) -> Seq<u8> {
        fields_bytes(self.records())
    }

    /// Every length fits the wire format, here and in every embedded message.
    pub open spec fn wf(self) -> bool {
        &&& all_encodable(self.records())
    }

    /// The message after one more record is merged into it: a scalar, string
    /// or bytes field takes the new value, an embedded message merges the new
    /// one into itself, and a repeated field appends.
    pub open spec fn merge_field(self, fld: FieldModel, d: nat) -> Option<Self> {
        if fld.number == 1 {
            match payload_of(fld.value) {
                Some(b) => Some(Ukey2ClientFinishedModel { public_key: Some(b), ..self }),
                None => None,
            }
        } else if d == 0 {
            None
        } else {
            Some(self)
        }
    }

    pub open spec fn merge_all(self, fs: Seq<FieldModel>, d: nat) -> Option<Self>
        decreases fs.len(),
    {
        if fs.len() == 0 {
            Some(self)
        } else {
            match self.merge_field(fs[0], d) {
                Some(m) => m.merge_all(fs.drop_first(), d),
                None => None,
            }
        }
    }

    /// The message after every record of `s` is merged into it.
    pub open spec fn merge_bytes(self, s: Seq<u8>, d: nat) -> Option<Self> {
        match parse_fields(s, d) {
            Some(fs) => self.merge_all(fs, d),
            None => None,
        }
    }

    /// The message that `s` encodes, if it is a well-formed encoding.
    pub open spec fn decoded(s: Seq<u8>) -> Option<Self> {
        Self::empty().merge_bytes(s, RECURSION_BUDGET as nat)
    }

    pub proof fn lemma_merge_all_append(self, a: Seq<FieldModel>, b: Seq<FieldModel>, d: nat)
        ensures
            self.merge_all(a + b, d) == match self.merge_all(a, d) {
                Some(m) => m.merge_all(b, d),
                None => None,
            },
        decreases a.len(),
    {
        if a.len() == 0 {
            assert(a + b =~= b);
        } else {
            assert((a + b).drop_first() =~= a.drop_first() + b);
            assert((a + b)[0] == a[0]);
            if let Some(m) = self.merge_field(a[0], d) {
                m.lemma_merge_all_append(a.drop_first(), b, d);
            }
        }
    }

    /// Decoding the encoding of a message gives the message back.
    #[verifier::spinoff_prover]
    #[verifier::rlimit(40)]
    pub proof fn lemma_round_trip(self, d: nat)
        requires
            self.wf(),
            d >= 0,
        ensures
            Self::empty().merge_bytes(self.encoding(), d) == Some(self),
    {
        lemma_parse_fields_bytes(self.records(), d);
        reveal_with_fuel(Ukey2ClientFinishedModel::merge_all, 2);
        let s0 = Ukey2ClientFinishedModel::empty();
        let s1 = Ukey2ClientFinishedModel { public_key: self.public_key, ..s0 };
        assert(s0.merge_all(opt_bytes_records(1, self.public_key), d) == Some(s1));
        assert(s1 =~= self);
    }
}

impl Ukey2ClientFinished {
    /// The message with no field set.
    pub fn empty() -> (r: Self)
        ensures
            r@ == Ukey2ClientFinishedModel::empty(),
    {
        let r = Ukey2ClientFinished {
            public_key: None,
        };
        assert(r@ =~= Ukey2ClientFinishedModel::empty());
        r
    }

    /// Appends the encoding of this message.
    #[verifier::spinoff_prover]
    #[verifier::rlimit(40)]
    pub fn encode_into(&self, out: &mut Vec<u8>)
        ensures
            final(out)@ == old(out)@ + self@.encoding(),
    {
        let ghost start = out@;
        put_opt_bytes(out, 1, &self.public_key);
        let ghost done = opt_bytes_records(1, self@.public_key);
        assert(done == self@.records());
    }

    pub fn encode_to_vec(&self) -> (r: Vec<u8>)
        ensures
            r@ == self@.encoding(),
    {
        let mut out = Vec::new();
        self.encode_into(&mut out);
        assert(out@ =~= self@.encoding());
        out
    }

    fn merge_record(&mut self, fld: &Field, d: u32) -> (r: Result<(), DecodeError>)
        ensures
            match old(self)@.merge_field(fld@, d as nat) {
                Some(m) => r is Ok && final(self)@ == m,
                None => r is Err,
            },
    {
        if fld.number == 1 {
            match wire_bytes(&fld.value) {
                Ok(v) => {
                    self.public_key = Some(v);
                    Ok(())
                },
                Err(e) => Err(e),
            }
        } else if d == 0 {
            Err(DecodeError)
        } else {
            Ok(())
        }
    }

    /// Merges every record of `bytes` into this message.
    pub fn merge_from(&mut self, bytes: &[u8], d: u32) -> (r: Result<(), DecodeError>)
        ensures
            match old(self)@.merge_bytes(bytes@, d as nat) {
                Some(m) => r is Ok && final(self)@ == m,
                None => r is Err,
            },
    {
        let fields = match read_fields(bytes, d) {
            Some(fs) => fs,
            None => return Err(DecodeError),
        };
        let ghost fs = fields_view(fields@);
        let mut i: usize = 0;
        assert(fs.skip(0) =~= fs);
        while i < fields.len()
            invariant
                i <= fields@.len(),
                fs == fields_view(fields@),
                parse_fields(bytes@, d as nat) == Some(fs),
                old(self)@.merge_all(fs, d as nat) == self@.merge_all(fs.skip(i as int), d as nat),
            decreases fields@.len() - i,
        {
            let ghost before = self@;
            assert(fs.skip(i as int)[0] == fields@[i as int]@);
            match self.merge_record(&fields[i], d) {
                Ok(()) => {},
                Err(e) => {
                    assert(fs.skip(i as int).len() > 0);
                    assert(before.merge_all(fs.skip(i as int), d as nat) is None);
                    return Err(e);
                },
            }
            assert(fs.skip(i as int).drop_first() =~= fs.skip(i + 1));
            i = i + 1;
        }
        assert(fs.skip(i as int) =~= Seq::<FieldModel>::empty());
        Ok(())
    }

    /// Decodes a message, ignoring unknown fields.
    pub fn decode(bytes: &[u8]) -> (r: Result<Self, DecodeError>)
        ensures
            match Ukey2ClientFinishedModel::decoded(bytes@) {
                Some(m) => r matches Ok(x) && x@ == m,
                None => r is Err,
            },
    {
        let mut m = Self::empty();
        match m.merge_from(bytes, RECURSION_BUDGET) {
            Ok(()) => Ok(m),
            Err(e) => Err(e),
        }
    }
}

// --- GenericPublicKey ---

/// A public key of one of several kinds.
#[derive(Clone, Debug, Default, PartialEq)]
pub struct GenericPublicKey {
    pub key_type: Option<i32>,
    pub ec_p256_public_key: Option<EcP256PublicKey>,
}

/// The value of a [`GenericPublicKey`].
#[verifier::ext_equal]
pub struct GenericPublicKeyModel {
    pub key_type: Option<i32>,
    pub ec_p256_public_key: Option<EcP256PublicKeyModel>,
}

impl View for GenericPublicKey {
    type V = GenericPublicKeyModel;

    open spec fn view(&self) -> GenericPublicKeyModel {
        GenericPublicKeyModel {
            key_type: self.key_type,
            ec_p256_public_key: match self.ec_p256_public_key {
                Some(x) => Some(x@),
                None => None,
            },
        }
    }
}

impl GenericPublicKeyModel {
    /// The message with no field set.
    pub open spec fn empty() -> Self {
        GenericPublicKeyModel {
            key_type: None,
            ec_p256_public_key: None,
        }
    }

    /// The records this message encodes to, in field-number order.
    pub open spec fn records(self) -> Seq<FieldModel> {
        opt_i32_records(1, self.key_type)
            + opt_bytes_records(
            2,
            match self.ec_p256_public_key {
                Some(x) => Some(x.encoding()),
                None => None,
            },
        )
    }

    pub open spec fn encoding(self) -> Seq<u8> {
        fields_bytes(self.records())
    }

    /// Every length fits the wire format, here and in every embedded message.
    pub open spec fn wf(self) -> bool {
        &&& all_encodable(self.records())
        &&& match self.ec_p256_public_key {
            Some(x) => x.wf(),
            None => true,
        }
    }

    /// The message after one more record is merged into it: a scalar, string
    /// or bytes field takes the new value, an embedded message merges the new
    /// one into itself, and a repeated field appends.
    pub open spec fn merge_field(self, fld: FieldModel, d: nat) -> Option<Self> {
        if fld.number == 1 {
            match varint_of(fld.value) {
                Some(v) => Some(GenericPublicKeyModel { key_type: Some(v as i32), ..self }),
                None => None,
            }
        } else if fld.number == 2 {
            if d == 0 {
                None
            } else {
                match payload_of(fld.value) {
                    Some(b) => match (match self.ec_p256_public_key {
                        Some(x) => x,
                        None => EcP256PublicKeyModel::empty(),
                    }).merge_bytes(b, (d - 1) as nat) {
                        Some(x) => Some(GenericPublicKeyModel { ec_p256_public_key: Some(x), ..self }),
                        None => None,
                    },
                    None => None,
                }
            }
        } else if d == 0 {
            None
        } else {
            Some(self)
        }
    }

    pub open spec fn merge_all(self, fs: Seq<FieldModel>, d: nat) -> Option<Self>
        decreases fs.len(),
    {
        if fs.len() == 0 {
            Some(self)
        } else {
            match self.merge_field(fs[0], d) {
                Some(m) => m.merge_all(fs.drop_first(), d),
                None => None,
            }
        }
    }

    /// The message after every record of `s` is merged into it.
    pub open spec fn merge_bytes(self, s: Seq<u8>, d: nat) -> Option<Self> {
        match parse_fields(s, d) {
            Some(fs) => self.merge_all(fs, d),
            None => None,
        }
    }

    /// The message that `s` encodes, if it is a well-formed encoding.
    pub open spec fn decoded(s: Seq<u8>) -> Option<Self> {
        Self::empty().merge_bytes(s, RECURSION_BUDGET as nat)
    }

    pub proof fn lemma_merge_all_append(self, a: Seq<FieldModel>, b: Seq<FieldModel>, d: nat)
        ensures
            self.merge_all(a + b, d) == match self.merge_all(a, d) {
                Some(m) => m.merge_all(b, d),
                None => None,
            },
        decreases a.len(),
    {
        if a.len() == 0 {
            assert(a + b =~= b);
        } else {
            assert((a + b).drop_first() =~= a.drop_first() + b);
            assert((a + b)[0] == a[0]);
            if let Some(m) = self.merge_field(a[0], d) {
                m.lemma_merge_all_append(a.drop_first(), b, d);
            }
        }
    }

    /// Decoding the encoding of a message gives the message back.
    #[verifier::spinoff_prover]
    #[verifier::rlimit(40)]
    pub proof fn lemma_round_trip(self, d: nat)
        requires
            self.wf(),
            d >= 1,
        ensures
            Self::empty().merge_bytes(self.encoding(), d) == Some(self),
    {
        lemma_parse_fields_bytes(self.records(), d);
        reveal_with_fuel(GenericPublicKeyModel::merge_all, 2);
        let s0 = GenericPublicKeyModel::empty();
        let s1 = GenericPublicKeyModel { key_type: self.key_type, ..s0 };
        if let Some(x) = self.key_type {
            lemma_i32_round_trip(x);
        }
        assert(s0.merge_all(opt_i32_records(1, self.key_type), d) == Some(s1));
        let s2 = GenericPublicKeyModel { ec_p256_public_key: self.ec_p256_public_key, ..s1 };
        if let Some(x) = self.ec_p256_public_key {
            x.lemma_round_trip((d - 1) as nat);
        }
        assert(s1.merge_all(opt_bytes_records(
            2,
            match self.ec_p256_public_key {
                Some(x) => Some(x.encoding()),
                None => None,
            },
        ), d) == Some(s2));
        s0.lemma_merge_all_append(opt_i32_records(1, self.key_type), opt_bytes_records(
            2,
            match self.ec_p256_public_key {
                Some(x) => Some(x.encoding()),
                None => None,
            },
        ), d);
        assert(s2 =~= self);
    }
}

impl GenericPublicKey {
    /// The message with no field set.
    pub fn empty() -> (r: Self)
        ensures
            r@ == GenericPublicKeyModel::empty(),
    {
        let r = GenericPublicKey {
            key_type: None,
            ec_p256_public_key: None,
        };
        assert(r@ =~= GenericPublicKeyModel::empty());
        r
    }

    /// Appends the encoding of this message.
    #[verifier::spinoff_prover]
    #[verifier::rlimit(40)]
    pub fn encode_into(&self, out: &mut Vec<u8>)
        ensures
            final(out)@ == old(out)@ + self@.encoding(),
    {
        let ghost start = out@;
        put_opt_i32(out, 1, self.key_type);
        let ghost done = opt_i32_records(1, self@.key_type);
        let ghost mid = out@;
        let enc: Option<Vec<u8>> = match &self.ec_p256_public_key {
            Some(x) => Some(x.encode_to_vec()),
            None => None,
        };
        put_opt_bytes(out, 2, &enc);
        proof {
            lemma_fields_bytes_append(done, opt_bytes_records(
            2,
            match self@.ec_p256_public_key {
                Some(x) => Some(x.encoding()),
                None => None,
            },
        ));
            lemma_concat_associative(start, fields_bytes(done), fields_bytes(opt_bytes_records(
            2,
            match self@.ec_p256_public_key {
                Some(x) => Some(x.encoding()),
                None => None,
            },
        )));
        }
        let ghost done = done + opt_bytes_records(
            2,
            match self@.ec_p256_public_key {
                Some(x) => Some(x.encoding()),
                None => None,
            },
        );
        assert(done == self@.records());
    }

    pub fn encode_to_vec(&self) -> (r: Vec<u8>)
        ensures
            r@ == self@.encoding(),
    {
        let mut out = Vec::new();
        self.encode_into(&mut out);
        assert(out@ =~= self@.encoding());
        out
    }

    fn merge_record(&mut self, fld: &Field, d: u32) -> (r: Result<(), DecodeError>)
        ensures
            match old(self)@.merge_field(fld@, d as nat) {
                Some(m) => r is Ok && final(self)@ == m,
                None => r is Err,
            },
    {
        if fld.number == 1 {
            match wire_i32(&fld.value) {
                Ok(v) => {
                    self.key_type = Some(v);
                    Ok(())
                },
                Err(e) => Err(e),
            }
        } else if fld.number == 2 {
            if d == 0 {
                return Err(DecodeError);
            }
            match &fld.value {
                WireValue::LengthDelimited(b) => {
                    let mut inner = match self.ec_p256_public_key.take() {
                        Some(x) => x,
                        None => EcP256PublicKey::empty(),
                    };
                    match inner.merge_from(b.as_slice(), d - 1) {
                        Ok(()) => {
                            self.ec_p256_public_key = Some(inner);
                            Ok(())
                        },
                        Err(e) => Err(e),
                    }
                },
                _ => Err(DecodeError),
            }
        } else if d == 0 {
            Err(DecodeError)
        } else {
            Ok(())
        }
    }

    /// Merges every record of `bytes` into this message.
    pub fn merge_from(&mut self, bytes: &[u8], d: u32) -> (r: Result<(), DecodeError>)
        ensures
            match old(self)@.merge_bytes(bytes@, d as nat) {
                Some(m) => r is Ok && final(self)@ == m,
                None => r is Err,
            },
    {
        let fields = match read_fields(bytes, d) {
            Some(fs) => fs,
            None => return Err(DecodeError),
        };
        let ghost fs = fields_view(fields@);
        let mut i: usize = 0;
        assert(fs.skip(0) =~= fs);
        while i < fields.len()
            invariant
                i <= fields@.len(),
                fs == fields_view(fields@),
                parse_fields(bytes@, d as nat) == Some(fs),
                old(self)@.merge_all(fs, d as nat) == self@.merge_all(fs.skip(i as int), d as nat),
            decreases fields@.len() - i,
        {
            let ghost before = self@;
            assert(fs.skip(i as int)[0] == fields@[i as int]@);
            match self.merge_record(&fields[i], d) {
                Ok(()) => {},
                Err(e) => {
                    assert(fs.skip(i as int).len() > 0);
                    assert(before.merge_all(fs.skip(i as int), d as nat) is None);
                    return Err(e);
                },
            }
            assert(fs.skip(i as int).drop_first() =~= fs.skip(i + 1));
            i = i + 1;
        }
        assert(fs.skip(i as int) =~= Seq::<FieldModel>::empty());
        Ok(())
    }

    /// Decodes a message, ignoring unknown fields.
    pub fn decode(bytes: &[u8]) -> (r: Result<Self, DecodeError>)
        ensures
            match GenericPublicKeyModel::decoded(bytes@) {
                Some(m) => r matches Ok(x) && x@ == m,
                None => r is Err,
            },
    {
        let mut m = Self::empty();
        match m.merge_from(bytes, RECURSION_BUDGET) {
            Ok(()) => Ok(m),
            Err(e) => Err(e),
        }
    }
}

// --- EcP256PublicKey ---

/// Affine coordinates of a P-256 point, as signed big-endian integers.
#[derive(Clone, Debug, Default, PartialEq)]
pub struct EcP256PublicKey {
    pub x: Vec<u8>,
    pub y: Vec<u8>,
}

/// The value of a [`EcP256PublicKey`].
#[verifier::ext_equal]
pub struct EcP256PublicKeyModel {
    pub x: Seq<u8>,
    pub y: Seq<u8>,
}

impl View for EcP256PublicKey {
    type V = EcP256PublicKeyModel;

    open spec fn view(&self) -> EcP256PublicKeyModel {
        EcP256PublicKeyModel {
            x: self.x@,
            y: self.y@,
        }
    }
}

impl EcP256PublicKeyModel {
    /// The message with no field set.
    pub open spec fn empty() -> Self {
        EcP256PublicKeyModel {
            x: Seq::empty(),
            y: Seq::empty(),
        }
    }

    /// The records this message encodes to, in field-number order.
    pub open spec fn records(self) -> Seq<FieldModel> {
        req_bytes_records(1, self.x)
            + req_bytes_records(2, self.y)
    }

    pub open spec fn encoding(self) -> Seq<u8> {
        fields_bytes(self.records())
    }

    /// Every length fits the wire format, here and in every embedded message.
    pub open spec fn wf(self) -> bool {
        &&& all_encodable(self.records())
    }

    /// The message after one more record is merged into it: a scalar, string
    /// or bytes field takes the new value, an embedded message merges the new
    /// one into itself, and a repeated field appends.
    pub open spec fn merge_field(self, fld: FieldModel, d: nat) -> Option<Self> {
        if fld.number == 1 {
            match payload_of(fld.value) {
                Some(b) => Some(EcP256PublicKeyModel { x: b, ..self }),
                None => None,
            }
        } else if fld.number == 2 {
            match payload_of(fld.value) {
                Some(b) => Some(EcP256PublicKeyModel { y: b, ..self }),
                None => None,
            }
        } else if d == 0 {
            None
        } else {
            Some(self)
        }
    }

    pub open spec fn merge_all(self, fs: Seq<FieldModel>, d: nat) -> Option<Self>
        decreases fs.len(),
    {
        if fs.len() == 0 {
            Some(self)
        } else {
            match self.merge_field(fs[0], d) {
                Some(m) => m.merge_all(fs.drop_first(), d),
                None => None,
            }
        }
    }

    /// The message after every record of `s` is merged into it.
    pub open spec fn merge_bytes(self, s: Seq<u8>, d: nat) -> Option<Self> {
        match parse_fields(s, d) {
            Some(fs) => self.merge_all(fs, d),
            None => None,
        }
    }

    /// The message that `s` encodes, if it is a well-formed encoding.
    pub open spec fn decoded(s: Seq<u8>) -> Option<Self> {
        Self::empty().merge_bytes(s, RECURSION_BUDGET as nat)
    }

    pub proof fn lemma_merge_all_append(self, a: Seq<FieldModel>, b: Seq<FieldModel>, d: nat)
        ensures
            self.merge_all(a + b, d) == match self.merge_all(a, d) {
                Some(m) => m.merge_all(b, d),
                None => None,
            },
        decreases a.len(),
    {
        if a.len() == 0 {
            assert(a + b =~= b);
        } else {
            assert((a + b).drop_first() =~= a.drop_first() + b);
            assert((a + b)[0] == a[0]);
            if let Some(m) = self.merge_field(a[0], d) {
                m.lemma_merge_all_append(a.drop_first(), b, d);
            }
        }
    }

    /// Decoding the encoding of a message gives the message back.
    #[verifier::spinoff_prover]
    #[verifier::rlimit(40)]
    pub proof fn lemma_round_trip(self, d: nat)
        requires
            self.wf(),
            d >= 0,
        ensures
            Self::empty().merge_bytes(self.encoding(), d) == Some(self),
    {
        lemma_parse_fields_bytes(self.records(), d);
        reveal_with_fuel(EcP256PublicKeyModel::merge_all, 2);
        let s0 = EcP256PublicKeyModel::empty();
        let s1 = EcP256PublicKeyModel { x: self.x, ..s0 };
        assert(s0.merge_all(req_bytes_records(1, self.x), d) == Some(s1));
        let s2 = EcP256PublicKeyModel { y: self.y, ..s1 };
        assert(s1.merge_all(req_bytes_records(2, self.y), d) == Some(s2));
        s0.lemma_merge_all_append(req_bytes_records(1, self.x), req_bytes_records(2, self.y), d);
        assert(s2 =~= self);
    }
}

impl EcP256PublicKey {
    /// The message with no field set.
    pub fn empty() -> (r: Self)
        ensures
            r@ == EcP256PublicKeyModel::empty(),
    {
        let r = EcP256PublicKey {
            x: Vec::new(),
            y: Vec::new(),
        };
        assert(r@ =~= EcP256PublicKeyModel::empty());
        r
    }

    /// Appends the encoding of this message.
    #[verifier::spinoff_prover]
    #[verifier::rlimit(40)]
    pub fn encode_into(&self, out: &mut Vec<u8>)
        ensures
            final(out)@ == old(out)@ + self@.encoding(),
    {
        let ghost start = out@;
        put_req_bytes(out, 1, &self.x);
        let ghost done = req_bytes_records(1, self@.x);
        let ghost mid = out@;
        put_req_bytes(out, 2, &self.y);
        proof {
            lemma_fields_bytes_append(done, req_bytes_records(2, self@.y));
            lemma_concat_associative(start, fields_bytes(done), fields_bytes(req_bytes_records(2, self@.y)));
        }
        let ghost done = done + req_bytes_records(2, self@.y);
        assert(done == self@.records());
    }

    pub fn encode_to_vec(&self) -> (r: Vec<u8>)
        ensures
            r@ == self@.encoding(),
    {
        let mut out = Vec::new();
        self.encode_into(&mut out);
        assert(out@ =~= self@.encoding());
        out
    }

    fn merge_record(&mut self, fld: &Field, d: u32) -> (r: Result<(), DecodeError>)
        ensures
            match old(self)@.merge_field(fld@, d as nat) {
                Some(m) => r is Ok && final(self)@ == m,
                None => r is Err,
            },
    {
        if fld.number == 1 {
            match wire_bytes(&fld.value) {
                Ok(v) => {
                    self.x = v;
                    Ok(())
                },
                Err(e) => Err(e),
            }
        } else if fld.number == 2 {
            match wire_bytes(&fld.value) {
                Ok(v) => {
                    self.y = v;
                    Ok(())
                },
                Err(e) => Err(e),
            }
        } else if d == 0 {
            Err(DecodeError)
        } else {
            Ok(())
        }
    }

    /// Merges every record of `bytes` into this message.
    pub fn merge_from(&mut self, bytes: &[u8], d: u32) -> (r: Result<(), DecodeError>)
        ensures
            match old(self)@.merge_bytes(bytes@, d as nat) {
                Some(m) => r is Ok && final(self)@ == m,
                None => r is Err,
            },
    {
        let fields = match read_fields(bytes, d) {
            Some(fs) => fs,
            None => return Err(DecodeError),
        };
        let ghost fs = fields_view(fields@);
        let mut i: usize = 0;
        assert(fs.skip(0) =~= fs);
        while i < fields.len()
            invariant
                i <= fields@.len(),
                fs == fields_view(fields@),
                parse_fields(bytes@, d as nat) == Some(fs),
                old(self)@.merge_all(fs, d as nat) == self@.merge_all(fs.skip(i as int), d as nat),
            decreases fields@.len() - i,
        {
            let ghost before = self@;
            assert(fs.skip(i as int)[0] == fields@[i as int]@);
            match self.merge_record(&fields[i], d) {
                Ok(()) => {},
                Err(e) => {
                    assert(fs.skip(i as int).len() > 0);
                    assert(before.merge_all(fs.skip(i as int), d as nat) is None);
                    return Err(e);
                },
            }
            assert(fs.skip(i as int).drop_first() =~= fs.skip(i + 1));
            i = i + 1;
        }
        assert(fs.skip(i as int) =~= Seq::<FieldModel>::empty());
        Ok(())
    }

    /// Decodes a message, ignoring unknown fields.
    pub fn decode(bytes: &[u8]) -> (r: Result<Self, DecodeError>)
        ensures
            match EcP256PublicKeyModel::decoded(bytes@) {
                Some(m) => r matches Ok(x) && x@ == m,
                None => r is Err,
            },
    {
        let mut m = Self::empty();
        match m.merge_from(bytes, RECURSION_BUDGET) {
            Ok(()) => Ok(m),
            Err(e) => Err(e),
        }
    }
}

// --- SecureMessage ---

/// Authenticated envelope: header and body with their signature.
#[derive(Clone, Debug, Default, PartialEq)]
pub struct SecureMessage {
    pub header_and_body: Vec<u8>,
    pub signature: Vec<u8>,
}

/// The value of a [`SecureMessage`].
#[verifier::ext_equal]
pub struct SecureMessageModel {
    pub header_and_body: Seq<u8>,
    pub signature: Seq<u8>,
}

impl View for SecureMessage {
    type V = SecureMessageModel;

    open spec fn view(&self) -> SecureMessageModel {
        SecureMessageModel {
            header_and_body: self.header_and_body@,
            signature: self.signature@,
        }
    }
}

impl SecureMessageModel {
    /// The message with no field set.
    pub open spec fn empty() -> Self {
        SecureMessageModel {
            header_and_body: Seq::empty(),
            signature: Seq::empty(),
        }
    }

    /// The records this message encodes to, in field-number order.
    pub open spec fn records(self) -> Seq<FieldModel> {
        req_bytes_records(1, self.header_and_body)
            + req_bytes_records(2, self.signature)
    }

    pub open spec fn encoding(self) -> Seq<u8> {
        fields_bytes(self.records())
    }

    /// Every length fits the wire format, here and in every embedded message.
    pub open spec fn wf(self) -> bool {
        &&& all_encodable(self.records())
    }

    /// The message after one more record is merged into it: a scalar, string
    /// or bytes field takes the new value, an embedded message merges the new
    /// one into itself, and a repeated field appends.
    pub open spec fn merge_field(self, fld: FieldModel, d: nat) -> Option<Self> {
        if fld.number == 1 {
            match payload_of(fld.value) {
                Some(b) => Some(SecureMessageModel { header_and_body: b, ..self }),
                None => None,
            }
        } else if fld.number == 2 {
            match payload_of(fld.value) {
                Some(b) => Some(SecureMessageModel { signature: b, ..self }),
                None => None,
            }
        } else if d == 0 {
            None
        } else {
            Some(self)
        }
    }

    pub open spec fn merge_all(self, fs: Seq<FieldModel>, d: nat) -> Option<Self>
        decreases fs.len(),
    {
        if fs.len() == 0 {
            Some(self)
        } else {
            match self.merge_field(fs[0], d) {
                Some(m) => m.merge_all(fs.drop_first(), d),
                None => None,
            }
        }
    }

    /// The message after every record of `s` is merged into it.
    pub open spec fn merge_bytes(self, s: Seq<u8>, d: nat) -> Option<Self> {
        match parse_fields(s, d) {
            Some(fs) => self.merge_all(fs, d),
            None => None,
        }
    }

    /// The message that `s` encodes, if it is a well-formed encoding.
    pub open spec fn decoded(s: Seq<u8>) -> Option<Self> {
        Self::empty().merge_bytes(s, RECURSION_BUDGET as nat)
    }

    pub proof fn lemma_merge_all_append(self, a: Seq<FieldModel>, b: Seq<FieldModel>, d: nat)
        ensures
            self.merge_all(a + b, d) == match self.merge_all(a, d) {
                Some(m) => m.merge_all(b, d),
                None => None,
            },
        decreases a.len(),
    {
        if a.len() == 0 {
            assert(a + b =~= b);
        } else {
            assert((a + b).drop_first() =~= a.drop_first() + b);
            assert((a + b)[0] == a[0]);
            if let Some(m) = self.merge_field(a[0], d) {
                m.lemma_merge_all_append(a.drop_first(), b, d);
            }
        }
    }

    /// Decoding the encoding of a message gives the message back.
    #[verifier::spinoff_prover]
    #[verifier::rlimit(40)]
    pub proof fn lemma_round_trip(self, d: nat)
        requires
            self.wf(),
            d >= 0,
        ensures
            Self::empty().merge_bytes(self.encoding(), d) == Some(self),
    {
        lemma_parse_fields_bytes(self.records(), d);
        reveal_with_fuel(SecureMessageModel::merge_all, 2);
        let s0 = SecureMessageModel::empty();
        let s1 = SecureMessageModel { header_and_body: self.header_and_body, ..s0 };
        assert(s0.merge_all(req_bytes_records(1, self.header_and_body), d) == Some(s1));
        let s2 = SecureMessageModel { signature: self.signature, ..s1 };
        assert(s1.merge_all(req_bytes_records(2, self.signature), d) == Some(s2));
        s0.lemma_merge_all_append(req_bytes_records(1, self.header_and_body), req_bytes_records(2, self.signature), d);
        assert(s2 =~= self);
    }
}

impl SecureMessage {
    /// The message with no field set.
    pub fn empty() -> (r: Self)
        ensures
            r@ == SecureMessageModel::empty(),
    {
        let r = SecureMessage {
            header_and_body: Vec::new(),
            signature: Vec::new(),
        };
        assert(r@ =~= SecureMessageModel::empty());
        r
    }

    /// Appends the encoding of this message.
    #[verifier::spinoff_prover]
    #[verifier::rlimit(40)]
    pub fn encode_into(&self, out: &mut Vec<u8>)
        ensures
            final(out)@ == old(out)@ + self@.encoding(),
    {
        let ghost start = out@;
        put_req_bytes(out, 1, &self.header_and_body);
        let ghost done = req_bytes_records(1, self@.header_and_body);
        let ghost mid = out@;
        put_req_bytes(out, 2, &self.signature);
        proof {
            lemma_fields_bytes_append(done, req_bytes_records(2, self@.signature));
            lemma_concat_associative(start, fields_bytes(done), fields_bytes(req_bytes_records(2, self@.signature)));
        }
        let ghost done = done + req_bytes_records(2, self@.signature);
        assert(done == self@.records());
    }

    pub fn encode_to_vec(&self) -> (r: Vec<u8>)
        ensures
            r@ == self@.encoding(),
    {
        let mut out = Vec::new();
        self.encode_into(&mut out);
        assert(out@ =~= self@.encoding());
        out
    }

    fn merge_record(&mut self, fld: &Field, d: u32) -> (r: Result<(), DecodeError>)
        ensures
            match old(self)@.merge_field(fld@, d as nat) {
                Some(m) => r is Ok && final(self)@ == m,
                None => r is Err,
            },
    {
        if fld.number == 1 {
            match wire_bytes(&fld.value) {
                Ok(v) => {
                    self.header_and_body = v;
                    Ok(())
                },
                Err(e) => Err(e),
            }
        } else if fld.number == 2 {
            match wire_bytes(&fld.value) {
                Ok(v) => {
                    self.signature = v;
                    Ok(())
                },
                Err(e) => Err(e),
            }
        } else if d == 0 {
            Err(DecodeError)
        } else {
            Ok(())
        }
    }

    /// Merges every record of `bytes` into this message.
    pub fn merge_from(&mut self, bytes: &[u8], d: u32) -> (r: Result<(), DecodeError>)
        ensures
            match old(self)@.merge_bytes(bytes@, d as nat) {
                Some(m) => r is Ok && final(self)@ == m,
                None => r is Err,
            },
    {
        let fields = match read_fields(bytes, d) {
            Some(fs) => fs,
            None => return Err(DecodeError),
        };
        let ghost fs = fields_view(fields@);
        let mut i: usize = 0;
        assert(fs.skip(0) =~= fs);
        while i < fields.len()
            invariant
                i <= fields@.len(),
                fs == fields_view(fields@),
                parse_fields(bytes@, d as nat) == Some(fs),
                old(self)@.merge_all(fs, d as nat) == self@.merge_all(fs.skip(i as int), d as nat),
            decreases fields@.len() - i,
        {
            let ghost before = self@;
            assert(fs.skip(i as int)[0] == fields@[i as int]@);
            match self.merge_record(&fields[i], d) {
                Ok(()) => {},
                Err(e) => {
                    assert(fs.skip(i as int).len() > 0);
                    assert(before.merge_all(fs.skip(i as int), d as nat) is None);
                    return Err(e);
                },
            }
            assert(fs.skip(i as int).drop_first() =~= fs.skip(i + 1));
            i = i + 1;
        }
        assert(fs.skip(i as int) =~= Seq::<FieldModel>::empty());
        Ok(())
    }

    /// Decodes a message, ignoring unknown fields.
    pub fn decode(bytes: &[u8]) -> (r: Result<Self, DecodeError>)
        ensures
            match SecureMessageModel::decoded(bytes@) {
                Some(m) => r matches Ok(x) && x@ == m,
                None => r is Err,
            },
    {
        let mut m = Self::empty();
        match m.merge_from(bytes, RECURSION_BUDGET) {
            Ok(()) => Ok(m),
            Err(e) => Err(e),
        }
    }
}

// --- SecureHeader ---

/// Schemes and IV of a `SecureMessage`.
#[derive(Clone, Debug, Default, PartialEq)]
pub struct SecureHeader {
    pub signature_scheme: Option<i32>,
    pub encryption_scheme: Option<i32>,
    pub iv: Option<Vec<u8>>,
    pub public_metadata: Option<Vec<u8>>,
}

/// The value of a [`SecureHeader`].
#[verifier::ext_equal]
pub struct SecureHeaderModel {
    pub signature_scheme: Option<i32>,
    pub encryption_scheme: Option<i32>,
    pub iv: Option<Seq<u8>>,
    pub public_metadata: Option<Seq<u8>>,
}

impl View for SecureHeader {
    type V = SecureHeaderModel;

    open spec fn view(&self) -> SecureHeaderModel {
        SecureHeaderModel {
            signature_scheme: self.signature_scheme,
            encryption_scheme: self.encryption_scheme,
            iv: opt_bytes_view(self.iv),
            public_metadata: opt_bytes_view(self.public_metadata),
        }
    }
}

impl SecureHeaderModel {
    /// The message with no field set.
    pub open spec fn empty() -> Self {
        SecureHeaderModel {
            signature_scheme: None,
            encryption_scheme: None,
            iv: None,
            public_metadata: None,
        }
    }

    /// The records this message encodes to, in field-number order.
    pub open spec fn records(self) -> Seq<FieldModel> {
        opt_i32_records(1, self.signature_scheme)
            + opt_i32_records(2, self.encryption_scheme)
            + opt_bytes_records(5, self.iv)
            + opt_bytes_records(6, self.public_metadata)
    }

    pub open spec fn encoding(self) -> Seq<u8> {
        fields_bytes(self.records())
    }

    /// Every length fits the wire format, here and in every embedded message.
    pub open spec fn wf(self) -> bool {
        &&& all_encodable(self.records())
    }

    /// The message after one more record is merged into it: a scalar, string
    /// or bytes field takes the new value, an embedded message merges the new
    /// one into itself, and a repeated field appends.
    pub open spec fn merge_field(self, fld: FieldModel, d: nat) -> Option<Self> {
        if fld.number == 1 {
            match varint_of(fld.value) {
                Some(v) => Some(SecureHeaderModel { signature_scheme: Some(v as i32), ..self }),
                None => None,
            }
        } else if fld.number == 2 {
            match varint_of(fld.value) {
                Some(v) => Some(SecureHeaderModel { encryption_scheme: Some(v as i32), ..self }),
                None => None,
            }
        } else if fld.number == 5 {
            match payload_of(fld.value) {
                Some(b) => Some(SecureHeaderModel { iv: Some(b), ..self }),
                None => None,
            }
        } else if fld.number == 6 {
            match payload_of(fld.value) {
                Some(b) => Some(SecureHeaderModel { public_metadata: Some(b), ..self }),
                None => None,
            }
        } else if d == 0 {
            None
        } else {
            Some(self)
        }
    }

    pub open spec fn merge_all(self, fs: Seq<FieldModel>, d: nat) -> Option<Self>
        decreases fs.len(),
    {
        if fs.len() == 0 {
            Some(self)
        } else {
            match self.merge_field(fs[0], d) {
                Some(m) => m.merge_all(fs.drop_first(), d),
                None => None,
            }
        }
    }

    /// The message after every record of `s` is merged into it.
    pub open spec fn merge_bytes(self, s: Seq<u8>, d: nat) -> Option<Self> {
        match parse_fields(s, d) {
            Some(fs) => self.merge_all(fs, d),
            None => None,
        }
    }

    /// The message that `s` encodes, if it is a well-formed encoding.
    pub open spec fn decoded(s: Seq<u8>) -> Option<Self> {
        Self::empty().merge_bytes(s, RECURSION_BUDGET as nat)
    }

    pub proof fn lemma_merge_all_append(self, a: Seq<FieldModel>, b: Seq<FieldModel>, d: nat)
        ensures
            self.merge_all(a + b, d) == match self.merge_all(a, d) {
                Some(m) => m.merge_all(b, d),
                None => None,
            },
        decreases a.len(),
    {
        if a.len() == 0 {
            assert(a + b =~= b);
        } else {
            assert((a + b).drop_first() =~= a.drop_first() + b);
            assert((a + b)[0] == a[0]);
            if let Some(m) = self.merge_field(a[0], d) {
                m.lemma_merge_all_append(a.drop_first(), b, d);
            }
        }
    }

    /// Decoding the encoding of a message gives the message back.
    #[verifier::spinoff_prover]
    #[verifier::rlimit(40)]
    pub proof fn lemma_round_trip(self, d: nat)
        requires
            self.wf(),
            d >= 0,
        ensures
            Self::empty().merge_bytes(self.encoding(), d) == Some(self),
    {
        lemma_parse_fields_bytes(self.records(), d);
        reveal_with_fuel(SecureHeaderModel::merge_all, 2);
        let s0 = SecureHeaderModel::empty();
        let s1 = SecureHeaderModel { signature_scheme: self.signature_scheme, ..s0 };
        if let Some(x) = self.signature_scheme {
            lemma_i32_round_trip(x);
        }
        assert(s0.merge_all(opt_i32_records(1, self.signature_scheme), d) == Some(s1));
        let s2 = SecureHeaderModel { encryption_scheme: self.encryption_scheme, ..s1 };
        if let Some(x) = self.encryption_scheme {
            lemma_i32_round_trip(x);
        }
        assert(s1.merge_all(opt_i32_records(2, self.encryption_scheme), d) == Some(s2));
        let s3 = SecureHeaderModel { iv: self.iv, ..s2 };
        assert(s2.merge_all(opt_bytes_records(5, self.iv), d) == Some(s3));
        let s4 = SecureHeaderModel { public_metadata: self.public_metadata, ..s3 };
        assert(s3.merge_all(opt_bytes_records(6, self.public_metadata), d) == Some(s4));
        s0.lemma_merge_all_append(opt_i32_records(1, self.signature_scheme), opt_i32_records(2, self.encryption_scheme), d);
        s0.lemma_merge_all_append(opt_i32_records(1, self.signature_scheme) + opt_i32_records(2, self.encryption_scheme), opt_bytes_records(5, self.iv), d);
        s0.lemma_merge_all_append(opt_i32_records(1, self.signature_scheme) + opt_i32_records(2, self.encryption_scheme) + opt_bytes_records(5, self.iv), opt_bytes_records(6, self.public_metadata), d);
        assert(s4 =~= self);
    }
}

impl SecureHeader {
    /// The message with no field set.
    pub fn empty() -> (r: Self)
        ensures
            r@ == SecureHeaderModel::empty(),
    {
        let r = SecureHeader {
            signature_scheme: None,
            encryption_scheme: None,
            iv: None,
            public_metadata: None,
        };
        assert(r@ =~= SecureHeaderModel::empty());
        r
    }

    /// Appends the encoding of this message.
    #[verifier::spinoff_prover]
    #[verifier::rlimit(40)]
    pub fn encode_into(&self, out: &mut Vec<u8>)
        ensures
            final(out)@ == old(out)@ + self@.encoding(),
    {
        let ghost start = out@;
        put_opt_i32(out, 1, self.signature_scheme);
        let ghost done = opt_i32_records(1, self@.signature_scheme);
        let ghost mid = out@;
        put_opt_i32(out, 2, self.encryption_scheme);
        proof {
            lemma_fields_bytes_append(done, opt_i32_records(2, self@.encryption_scheme));
            lemma_concat_associative(start, fields_bytes(done), fields_bytes(opt_i32_records(2, self@.encryption_scheme)));
        }
        let ghost done = done + opt_i32_records(2, self@.encryption_scheme);
        let ghost mid = out@;
        put_opt_bytes(out, 5, &self.iv);
        proof {
            lemma_fields_bytes_append(done, opt_bytes_records(5, self@.iv));
            lemma_concat_associative(start, fields_bytes(done), fields_bytes(opt_bytes_records(5, self@.iv)));
        }
        let ghost done = done + opt_bytes_records(5, self@.iv);
        let ghost mid = out@;
        put_opt_bytes(out, 6, &self.public_metadata);
        proof {
            lemma_fields_bytes_append(done, opt_bytes_records(6, self@.public_metadata));
            lemma_concat_associative(start, fields_bytes(done), fields_bytes(opt_bytes_records(6, self@.public_metadata)));
        }
        let ghost done = done + opt_bytes_records(6, self@.public_metadata);
        assert(done == self@.records());
    }

    pub fn encode_to_vec(&self) -> (r: Vec<u8>)
        ensures
            r@ == self@.encoding(),
    {
        let mut out = Vec::new();
        self.encode_into(&mut out);
        assert(out@ =~= self@.encoding());
        out
    }

    fn merge_record(&mut self, fld: &Field, d: u32) -> (r: Result<(), DecodeError>)
        ensures
            match old(self)@.merge_field(fld@, d as nat) {
                Some(m) => r is Ok && final(self)@ == m,
                None => r is Err,
            },
    {
        if fld.number == 1 {
            match wire_i32(&fld.value) {
                Ok(v) => {
                    self.signature_scheme = Some(v);
                    Ok(())
                },
                Err(e) => Err(e),
            }
        } else if fld.number == 2 {
            match wire_i32(&fld.value) {
                Ok(v) => {
                    self.encryption_scheme = Some(v);
                    Ok(())
                },
                Err(e) => Err(e),
            }
        } else if fld.number == 5 {
            match wire_bytes(&fld.value) {
                Ok(v) => {
                    self.iv = Some(v);
                    Ok(())
                },
                Err(e) => Err(e),
            }
        } else if fld.number == 6 {
            match wire_bytes(&fld.value) {
                Ok(v) => {
                    self.public_metadata = Some(v);
                    Ok(())
                },
                Err(e) => Err(e),
            }
        } else if d == 0 {
            Err(DecodeError)
        } else {
            Ok(())
        }
    }

    /// Merges every record of `bytes` into this message.
    pub fn merge_from(&mut self, bytes: &[u8], d: u32) -> (r: Result<(), DecodeError>)
        ensures
            match old(self)@.merge_bytes(bytes@, d as nat) {
                Some(m) => r is Ok && final(self)@ == m,
                None => r is Err,
            },
    {
        let fields = match read_fields(bytes, d) {
            Some(fs) => fs,
            None => return Err(DecodeError),
        };
        let ghost fs = fields_view(fields@);
        let mut i: usize = 0;
        assert(fs.skip(0) =~= fs);
        while i < fields.len()
            invariant
                i <= fields@.len(),
                fs == fields_view(fields@),
                parse_fields(bytes@, d as nat) == Some(fs),
                old(self)@.merge_all(fs, d as nat) == self@.merge_all(fs.skip(i as int), d as nat),
            decreases fields@.len() - i,
        {
            let ghost before = self@;
            assert(fs.skip(i as int)[0] == fields@[i as int]@);
            match self.merge_record(&fields[i], d) {
                Ok(()) => {},
                Err(e) => {
                    assert(fs.skip(i as int).len() > 0);
                    assert(before.merge_all(fs.skip(i as int), d as nat) is None);
                    return Err(e);
                },
            }
            assert(fs.skip(i as int).drop_first() =~= fs.skip(i + 1));
            i = i + 1;
        }
        assert(fs.skip(i as int) =~= Seq::<FieldModel>::empty());
        Ok(())
    }

    /// Decodes a message, ignoring unknown fields.
    pub fn decode(bytes: &[u8]) -> (r: Result<Self, DecodeError>)
        ensures
            match SecureHeaderModel::decoded(bytes@) {
                Some(m) => r matches Ok(x) && x@ == m,
                None => r is Err,
            },
    {
        let mut m = Self::empty();
        match m.merge_from(bytes, RECURSION_BUDGET) {
            Ok(()) => Ok(m),
            Err(e) => Err(e),
        }
    }
}

// --- HeaderAndBody ---

/// Header and encrypted body that a signature covers.
#[derive(Clone, Debug, Default, PartialEq)]
pub struct HeaderAndBody {
    pub header: SecureHeader,
    pub body: Vec<u8>,
}

/// The value of a [`HeaderAndBody`].
#[verifier::ext_equal]
pub struct HeaderAndBodyModel {
    pub header: SecureHeaderModel,
    pub body: Seq<u8>,
}

impl View for HeaderAndBody {
    type V = HeaderAndBodyModel;

    open spec fn view(&self) -> HeaderAndBodyModel {
        HeaderAndBodyModel {
            header: self.header@,
            body: self.body@,
        }
    }
}

impl HeaderAndBodyModel {
    /// The message with no field set.
    pub open spec fn empty() -> Self {
        HeaderAndBodyModel {
            header: SecureHeaderModel::empty(),
            body: Seq::empty(),
        }
    }

    /// The records this message encodes to, in field-number order.
    pub open spec fn records(self) -> Seq<FieldModel> {
        req_bytes_records(1, self.header.encoding())
            + req_bytes_records(2, self.body)
    }

    pub open spec fn encoding(self) -> Seq<u8> {
        fields_bytes(self.records())
    }

    /// Every length fits the wire format, here and in every embedded message.
    pub open spec fn wf(self) -> bool {
        &&& all_encodable(self.records())
        &&& self.header.wf()
    }

    /// The message after one more record is merged into it: a scalar, string
    /// or bytes field takes the new value, an embedded message merges the new
    /// one into itself, and a repeated field appends.
    pub open spec fn merge_field(self, fld: FieldModel, d: nat) -> Option<Self> {
        if fld.number == 1 {
            if d == 0 {
                None
            } else {
                match payload_of(fld.value) {
                    Some(b) => match self.header.merge_bytes(b, (d - 1) as nat) {
                        Some(x) => Some(HeaderAndBodyModel { header: x, ..self }),
                        None => None,
                    },
                    None => None,
                }
            }
        } else if fld.number == 2 {
            match payload_of(fld.value) {
                Some(b) => Some(HeaderAndBodyModel { body: b, ..self }),
                None => None,
            }
        } else if d == 0 {
            None
        } else {
            Some(self)
        }
    }

    pub open spec fn merge_all(self, fs: Seq<FieldModel>, d: nat) -> Option<Self>
        decreases fs.len(),
    {
        if fs.len() == 0 {
            Some(self)
        } else {
            match self.merge_field(fs[0], d) {
                Some(m) => m.merge_all(fs.drop_first(), d),
                None => None,
            }
        }
    }

    /// The message after every record of `s` is merged into it.
    pub open spec fn merge_bytes(self, s: Seq<u8>, d: nat) -> Option<Self> {
        match parse_fields(s, d) {
            Some(fs) => self.merge_all(fs, d),
            None => None,
        }
    }

    /// The message that `s` encodes, if it is a well-formed encoding.
    pub open spec fn decoded(s: Seq<u8>) -> Option<Self> {
        Self::empty().merge_bytes(s, RECURSION_BUDGET as nat)
    }

    pub proof fn lemma_merge_all_append(self, a: Seq<FieldModel>, b: Seq<FieldModel>, d: nat)
        ensures
            self.merge_all(a + b, d) == match self.merge_all(a, d) {
                Some(m) => m.merge_all(b, d),
                None => None,
            },
        decreases a.len(),
    {
        if a.len() == 0 {
            assert(a + b =~= b);
        } else {
            assert((a + b).drop_first() =~= a.drop_first() + b);
            assert((a + b)[0] == a[0]);
            if let Some(m) = self.merge_field(a[0], d) {
                m.lemma_merge_all_append(a.drop_first(), b, d);
            }
        }
    }

    /// Decoding the encoding of a message gives the message back.
    #[verifier::spinoff_prover]
    #[verifier::rlimit(40)]
    pub proof fn lemma_round_trip(self, d: nat)
        requires
            self.wf(),
            d >= 1,
        ensures
            Self::empty().merge_bytes(self.encoding(), d) == Some(self),
    {
        lemma_parse_fields_bytes(self.records(), d);
        reveal_with_fuel(HeaderAndBodyModel::merge_all, 2);
        let s0 = HeaderAndBodyModel::empty();
        let s1 = HeaderAndBodyModel { header: self.header, ..s0 };
        self.header.lemma_round_trip((d - 1) as nat);
        assert(s0.merge_all(req_bytes_records(1, self.header.encoding()), d) == Some(s1));
        let s2 = HeaderAndBodyModel { body: self.body, ..s1 };
        assert(s1.merge_all(req_bytes_records(2, self.body), d) == Some(s2));
        s0.lemma_merge_all_append(req_bytes_records(1, self.header.encoding()), req_bytes_records(2, self.body), d);
        assert(s2 =~= self);
    }
}

impl HeaderAndBody {
    /// The message with no field set.
    pub fn empty() -> (r: Self)
        ensures
            r@ == HeaderAndBodyModel::empty(),
    {
        let r = HeaderAndBody {
            header: SecureHeader::empty(),
            body: Vec::new(),
        };
        assert(r@ =~= HeaderAndBodyModel::empty());
        r
    }

    /// Appends the encoding of this message.
    #[verifier::spinoff_prover]
    #[verifier::rlimit(40)]
    pub fn encode_into(&self, out: &mut Vec<u8>)
        ensures
            final(out)@ == old(out)@ + self@.encoding(),
    {
        let ghost start = out@;
        let enc = self.header.encode_to_vec();
        put_req_bytes(out, 1, &enc);
        let ghost done = req_bytes_records(1, self@.header.encoding());
        let ghost mid = out@;
        put_req_bytes(out, 2, &self.body);
        proof {
            lemma_fields_bytes_append(done, req_bytes_records(2, self@.body));
            lemma_concat_associative(start, fields_bytes(done), fields_bytes(req_bytes_records(2, self@.body)));
        }
        let ghost done = done + req_bytes_records(2, self@.body);
        assert(done == self@.records());
    }

    pub fn encode_to_vec(&self) -> (r: Vec<u8>)
        ensures
            r@ == self@.encoding(),
    {
        let mut out = Vec::new();
        self.encode_into(&mut out);
        assert(out@ =~= self@.encoding());
        out
    }

    fn merge_record(&mut self, fld: &Field, d: u32) -> (r: Result<(), DecodeError>)
        ensures
            match old(self)@.merge_field(fld@, d as nat) {
                Some(m) => r is Ok && final(self)@ == m,
                None => r is Err,
            },
    {
        if fld.number == 1 {
            if d == 0 {
                return Err(DecodeError);
            }
            match &fld.value {
                WireValue::LengthDelimited(b) => self.header.merge_from(b.as_slice(), d - 1),
                _ => Err(DecodeError),
            }
        } else if fld.number == 2 {
            match wire_bytes(&fld.value) {
                Ok(v) => {
                    self.body = v;
                    Ok(())
                },
                Err(e) => Err(e),
            }
        } else if d == 0 {
            Err(DecodeError)
        } else {
            Ok(())
        }
    }

    /// Merges every record of `bytes` into this message.
    pub fn merge_from(&mut self, bytes: &[u8], d: u32) -> (r: Result<(), DecodeError>)
        ensures
            match old(self)@.merge_bytes(bytes@, d as nat) {
                Some(m) => r is Ok && final(self)@ == m,
                None => r is Err,
            },
    {
        let fields = match read_fields(bytes, d) {
            Some(fs) => fs,
            None => return Err(DecodeError),
        };
        let ghost fs = fields_view(fields@);
        let mut i: usize = 0;
        assert(fs.skip(0) =~= fs);
        while i < fields.len()
            invariant
                i <= fields@.len(),
                fs == fields_view(fields@),
                parse_fields(bytes@, d as nat) == Some(fs),
                old(self)@.merge_all(fs, d as nat) == self@.merge_all(fs.skip(i as int), d as nat),
            decreases fields@.len() - i,
        {
            let ghost before = self@;
            assert(fs.skip(i as int)[0] == fields@[i as int]@);
            match self.merge_record(&fields[i], d) {
                Ok(()) => {},
                Err(e) => {
                    assert(fs.skip(i as int).len() > 0);
                    assert(before.merge_all(fs.skip(i as int), d as nat) is None);
                    return Err(e);
                },
            }
            assert(fs.skip(i as int).drop_first() =~= fs.skip(i + 1));
            i = i + 1;
        }
        assert(fs.skip(i as int) =~= Seq::<FieldModel>::empty());
        Ok(())
    }

    /// Decodes a message, ignoring unknown fields.
    pub fn decode(bytes: &[u8]) -> (r: Result<Self, DecodeError>)
        ensures
            match HeaderAndBodyModel::decoded(bytes@) {
                Some(m) => r matches Ok(x) && x@ == m,
                None => r is Err,
            },
    {
        let mut m = Self::empty();
        match m.merge_from(bytes, RECURSION_BUDGET) {
            Ok(()) => Ok(m),
            Err(e) => Err(e),
        }
    }
}

// --- GcmMetadata ---

/// Public metadata of an encrypted device-to-device message.
#[derive(Clone, Debug, Default, PartialEq)]
pub struct GcmMetadata {
    pub metadata_type: Option<i32>,
    pub version: Option<i32>,
}

/// The value of a [`GcmMetadata`].
#[verifier::ext_equal]
pub struct GcmMetadataModel {
    pub metadata_type: Option<i32>,
    pub version: Option<i32>,
}

impl View for GcmMetadata {
    type V = GcmMetadataModel;

    open spec fn view(&self) -> GcmMetadataModel {
        GcmMetadataModel {
            metadata_type: self.metadata_type,
            version: self.version,
        }
    }
}

impl GcmMetadataModel {
    /// The message with no field set.
    pub open spec fn empty() -> Self {
        GcmMetadataModel {
            metadata_type: None,
            version: None,
        }
    }

    /// The records this message encodes to, in field-number order.
    pub open spec fn records(self) -> Seq<FieldModel> {
        opt_i32_records(1, self.metadata_type)
            + opt_i32_records(2, self.version)
    }

    pub open spec fn encoding(self) -> Seq<u8> {
        fields_bytes(self.records())
    }

    /// Every length fits the wire format, here and in every embedded message.
    pub open spec fn wf(self) -> bool {
        &&& all_encodable(self.records())
    }

    /// The message after one more record is merged into it: a scalar, string
    /// or bytes field takes the new value, an embedded message merges the new
    /// one into itself, and a repeated field appends.
    pub open spec fn merge_field(self, fld: FieldModel, d: nat) -> Option<Self> {
        if fld.number == 1 {
            match varint_of(fld.value) {
                Some(v) => Some(GcmMetadataModel { metadata_type: Some(v as i32), ..self }),
                None => None,
            }
        } else if fld.number == 2 {
            match varint_of(fld.value) {
                Some(v) => Some(GcmMetadataModel { version: Some(v as i32), ..self }),
                None => None,
            }
        } else if d == 0 {
            None
        } else {
            Some(self)
        }
    }

    pub open spec fn merge_all(self, fs: Seq<FieldModel>, d: nat) -> Option<Self>
        decreases fs.len(),
    {
        if fs.len() == 0 {
            Some(self)
        } else {
            match self.merge_field(fs[0], d) {
                Some(m) => m.merge_all(fs.drop_first(), d),
                None => None,
            }
        }
    }

    /// The message after every record of `s` is merged into it.
    pub open spec fn merge_bytes(self, s: Seq<u8>, d: nat) -> Option<Self> {
        match parse_fields(s, d) {
            Some(fs) => self.merge_all(fs, d),
            None => None,
        }
    }

    /// The message that `s` encodes, if it is a well-formed encoding.
    pub open spec fn decoded(s: Seq<u8>) -> Option<Self> {
        Self::empty().merge_bytes(s, RECURSION_BUDGET as nat)
    }

    pub proof fn lemma_merge_all_append(self, a: Seq<FieldModel>, b: Seq<FieldModel>, d: nat)
        ensures
            self.merge_all(a + b, d) == match self.merge_all(a, d) {
                Some(m) => m.merge_all(b, d),
                None => None,
            },
        decreases a.len(),
    {
        if a.len() == 0 {
            assert(a + b =~= b);
        } else {
            assert((a + b).drop_first() =~= a.drop_first() + b);
            assert((a + b)[0] == a[0]);
            if let Some(m) = self.merge_field(a[0], d) {
                m.lemma_merge_all_append(a.drop_first(), b, d);
            }
        }
    }

    /// Decoding the encoding of a message gives the message back.
    #[verifier::spinoff_prover]
    #[verifier::rlimit(40)]
    pub proof fn lemma_round_trip(self, d: nat)
        requires
            self.wf(),
            d >= 0,
        ensures
            Self::empty().merge_bytes(self.encoding(), d) == Some(self),
    {
        lemma_parse_fields_bytes(self.records(), d);
        reveal_with_fuel(GcmMetadataModel::merge_all, 2);
        let s0 = GcmMetadataModel::empty();
        let s1 = GcmMetadataModel { metadata_type: self.metadata_type, ..s0 };
        if let Some(x) = self.metadata_type {
            lemma_i32_round_trip(x);
        }
        assert(s0.merge_all(opt_i32_records(1, self.metadata_type), d) == Some(s1));
        let s2 = GcmMetadataModel { version: self.version, ..s1 };
        if let Some(x) = self.version {
            lemma_i32_round_trip(x);
        }
        assert(s1.merge_all(opt_i32_records(2, self.version), d) == Some(s2));
        s0.lemma_merge_all_append(opt_i32_records(1, self.metadata_type), opt_i32_records(2, self.version), d);
        assert(s2 =~= self);
    }
}

impl GcmMetadata {
    /// The message with no field set.
    pub fn empty() -> (r: Self)
        ensures
            r@ == GcmMetadataModel::empty(),
    {
        let r = GcmMetadata {
            metadata_type: None,
            version: None,
        };
        assert(r@ =~= GcmMetadataModel::empty());
        r
    }

    /// Appends the encoding of this message.
    #[verifier::spinoff_prover]
    #[verifier::rlimit(40)]
    pub fn encode_into(&self, out: &mut Vec<u8>)
        ensures
            final(out)@ == old(out)@ + self@.encoding(),
    {
        let ghost start = out@;
        put_opt_i32(out, 1, self.metadata_type);
        let ghost done = opt_i32_records(1, self@.metadata_type);
        let ghost mid = out@;
        put_opt_i32(out, 2, self.version);
        proof {
            lemma_fields_bytes_append(done, opt_i32_records(2, self@.version));
            lemma_concat_associative(start, fields_bytes(done), fields_bytes(opt_i32_records(2, self@.version)));
        }
        let ghost done = done + opt_i32_records(2, self@.version);
        assert(done == self@.records());
    }

    pub fn encode_to_vec(&self) -> (r: Vec<u8>)
        ensures
            r@ == self@.encoding(),
    {
        let mut out = Vec::new();
        self.encode_into(&mut out);
        assert(out@ =~= self@.encoding());
        out
    }

    fn merge_record(&mut self, fld: &Field, d: u32) -> (r: Result<(), DecodeError>)
        ensures
            match old(self)@.merge_field(fld@, d as nat) {
                Some(m) => r is Ok && final(self)@ == m,
                None => r is Err,
            },
    {
        if fld.number == 1 {
            match wire_i32(&fld.value) {
                Ok(v) => {
                    self.metadata_type = Some(v);
                    Ok(())
                },
                Err(e) => Err(e),
            }
        } else if fld.number == 2 {
            match wire_i32(&fld.value) {
                Ok(v) => {
                    self.version = Some(v);
                    Ok(())
                },
                Err(e) => Err(e),
            }
        } else if d == 0 {
            Err(DecodeError)
        } else {
            Ok(())
        }
    }

    /// Merges every record of `bytes` into this message.
    pub fn merge_from(&mut self, bytes: &[u8], d: u32) -> (r: Result<(), DecodeError>)
        ensures
            match old(self)@.merge_bytes(bytes@, d as nat) {
                Some(m) => r is Ok && final(self)@ == m,
                None => r is Err,
            },
    {
        let fields = match read_fields(bytes, d) {
            Some(fs) => fs,
            None => return Err(DecodeError),
        };
        let ghost fs = fields_view(fields@);
        let mut i: usize = 0;
        assert(fs.skip(0) =~= fs);
        while i < fields.len()
            invariant
                i <= fields@.len(),
                fs == fields_view(fields@),
                parse_fields(bytes@, d as nat) == Some(fs),
                old(self)@.merge_all(fs, d as nat) == self@.merge_all(fs.skip(i as int), d as nat),
            decreases fields@.len() - i,
        {
            let ghost before = self@;
            assert(fs.skip(i as int)[0] == fields@[i as int]@);
            match self.merge_record(&fields[i], d) {
                Ok(()) => {},
                Err(e) => {
                    assert(fs.skip(i as int).len() > 0);
                    assert(before.merge_all(fs.skip(i as int), d as nat) is None);
                    return Err(e);
                },
            }
            assert(fs.skip(i as int).drop_first() =~= fs.skip(i + 1));
            i = i + 1;
        }
        assert(fs.skip(i as int) =~= Seq::<FieldModel>::empty());
        Ok(())
    }

    /// Decodes a message, ignoring unknown fields.
    pub fn decode(bytes: &[u8]) -> (r: Result<Self, DecodeError>)
        ensures
            match GcmMetadataModel::decoded(bytes@) {
                Some(m) => r matches Ok(x) && x@ == m,
                None => r is Err,
            },
    {
        let mut m = Self::empty();
        match m.merge_from(bytes, RECURSION_BUDGET) {
            Ok(()) => Ok(m),
            Err(e) => Err(e),
        }
    }
}

// --- DeviceToDeviceMessage ---

/// Plaintext of a `SecureMessage`: a frame and its sequence number.
#[derive(Clone, Debug, Default, PartialEq)]
pub struct DeviceToDeviceMessage {
    pub message: Option<Vec<u8>>,
    pub sequence_number: Option<i32>,
}

/// The value of a [`DeviceToDeviceMessage`].
#[verifier::ext_equal]
pub struct DeviceToDeviceMessageModel {
    pub message: Option<Seq<u8>>,
    pub sequence_number: Option<i32>,
}

impl View for DeviceToDeviceMessage {
    type V = DeviceToDeviceMessageModel;

    open spec fn view(&self) -> DeviceToDeviceMessageModel {
        DeviceToDeviceMessageModel {
            message: opt_bytes_view(self.message),
            sequence_number: self.sequence_number,
        }
    }
}

impl DeviceToDeviceMessageModel {
    /// The message with no field set.
    pub open spec fn empty() -> Self {
        DeviceToDeviceMessageModel {
            message: None,
            sequence_number: None,
        }
    }

    /// The records this message encodes to, in field-number order.
    pub open spec fn records(self) -> Seq<FieldModel> {
        opt_bytes_records(1, self.message)
            + opt_i32_records(2, self.sequence_number)
    }

    pub open spec fn encoding(self) -> Seq<u8> {
        fields_bytes(self.records())
    }

    /// Every length fits the wire format, here and in every embedded message.
    pub open spec fn wf(self) -> bool {
        &&& all_encodable(self.records())
    }

    /// The message after one more record is merged into it: a scalar, string
    /// or bytes field takes the new value, an embedded message merges the new
    /// one into itself, and a repeated field appends.
    pub open spec fn merge_field(self, fld: FieldModel, d: nat) -> Option<Self> {
        if fld.number == 1 {
            match payload_of(fld.value) {
                Some(b) => Some(DeviceToDeviceMessageModel { message: Some(b), ..self }),
                None => None,
            }
        } else if fld.number == 2 {
            match varint_of(fld.value) {
                Some(v) => Some(DeviceToDeviceMessageModel { sequence_number: Some(v as i32), ..self }),
                None => None,
            }
        } else if d == 0 {
            None
        } else {
            Some(self)
        }
    }

    pub open spec fn merge_all(self, fs: Seq<FieldModel>, d: nat) -> Option<Self>
        decreases fs.len(),
    {
        if fs.len() == 0 {
            Some(self)
        } else {
            match self.merge_field(fs[0], d) {
                Some(m) => m.merge_all(fs.drop_first(), d),
                None => None,
            }
        }
    }

    /// The message after every record of `s` is merged into it.
    pub open spec fn merge_bytes(self, s: Seq<u8>, d: nat) -> Option<Self> {
        match parse_fields(s, d) {
            Some(fs) => self.merge_all(fs, d),
            None => None,
        }
    }

    /// The message that `s` encodes, if it is a well-formed encoding.
    pub open spec fn decoded(s: Seq<u8>) -> Option<Self> {
        Self::empty().merge_bytes(s, RECURSION_BUDGET as nat)
    }

    pub proof fn lemma_merge_all_append(self, a: Seq<FieldModel>, b: Seq<FieldModel>, d: nat)
        ensures
            self.merge_all(a + b, d) == match self.merge_all(a, d) {
                Some(m) => m.merge_all(b, d),
                None => None,
            },
        decreases a.len(),
    {
        if a.len() == 0 {
            assert(a + b =~= b);
        } else {
            assert((a + b).drop_first() =~= a.drop_first() + b);
            assert((a + b)[0] == a[0]);
            if let Some(m) = self.merge_field(a[0], d) {
                m.lemma_merge_all_append(a.drop_first(), b, d);
            }
        }
    }

    /// Decoding the encoding of a message gives the message back.
    #[verifier::spinoff_prover]
    #[verifier::rlimit(40)]
    pub proof fn lemma_round_trip(self, d: nat)
        requires
            self.wf(),
            d >= 0,
        ensures
            Self::empty().merge_bytes(self.encoding(), d) == Some(self),
    {
        lemma_parse_fields_bytes(self.records(), d);
        reveal_with_fuel(DeviceToDeviceMessageModel::merge_all, 2);
        let s0 = DeviceToDeviceMessageModel::empty();
        let s1 = DeviceToDeviceMessageModel { message: self.message, ..s0 };
        assert(s0.merge_all(opt_bytes_records(1, self.message), d) == Some(s1));
        let s2 = DeviceToDeviceMessageModel { sequence_number: self.sequence_number, ..s1 };
        if let Some(x) = self.sequence_number {
            lemma_i32_round_trip(x);
        }
        assert(s1.merge_all(opt_i32_records(2, self.sequence_number), d) == Some(s2));
        s0.lemma_merge_all_append(opt_bytes_records(1, self.message), opt_i32_records(2, self.sequence_number), d);
        assert(s2 =~= self);
    }
}

impl DeviceToDeviceMessage {
    /// The message with no field set.
    pub fn empty() -> (r: Self)
        ensures
            r@ == DeviceToDeviceMessageModel::empty(),
    {
        let r = DeviceToDeviceMessage {
            message: None,
            sequence_number: None,
        };
        assert(r@ =~= DeviceToDeviceMessageModel::empty());
        r
    }

    /// Appends the encoding of this message.
    #[verifier::spinoff_prover]
    #[verifier::rlimit(40)]
    pub fn encode_into(&self, out: &mut Vec<u8>)
        ensures
            final(out)@ == old(out)@ + self@.encoding(),
    {
        let ghost start = out@;
        put_opt_bytes(out, 1, &self.message);
        let ghost done = opt_bytes_records(1, self@.message);
        let ghost mid = out@;
        put_opt_i32(out, 2, self.sequence_number);
        proof {
            lemma_fields_bytes_append(done, opt_i32_records(2, self@.sequence_number));
            lemma_concat_associative(start, fields_bytes(done), fields_bytes(opt_i32_records(2, self@.sequence_number)));
        }
        let ghost done = done + opt_i32_records(2, self@.sequence_number);
        assert(done == self@.records());
    }

    pub fn encode_to_vec(&self) -> (r: Vec<u8>)
        ensures
            r@ == self@.encoding(),
    {
        let mut out = Vec::new();
        self.encode_into(&mut out);
        assert(out@ =~= self@.encoding());
        out
    }

    fn merge_record(&mut self, fld: &Field, d: u32) -> (r: Result<(), DecodeError>)
        ensures
            match old(self)@.merge_field(fld@, d as nat) {
                Some(m) => r is Ok && final(self)@ == m,
                None => r is Err,
            },
    {
        if fld.number == 1 {
            match wire_bytes(&fld.value) {
                Ok(v) => {
                    self.message = Some(v);
                    Ok(())
                },
                Err(e) => Err(e),
            }
        } else if fld.number == 2 {
            match wire_i32(&fld.value) {
                Ok(v) => {
                    self.sequence_number = Some(v);
                    Ok(())
                },
                Err(e) => Err(e),
            }
        } else if d == 0 {
            Err(DecodeError)
        } else {
            Ok(())
        }
    }

    /// Merges every record of `bytes` into this message.
    pub fn merge_from(&mut self, bytes: &[u8], d: u32) -> (r: Result<(), DecodeError>)
        ensures
            match old(self)@.merge_bytes(bytes@, d as nat) {
                Some(m) => r is Ok && final(self)@ == m,
                None => r is Err,
            },
    {
        let fields = match read_fields(bytes, d) {
            Some(fs) => fs,
            None => return Err(DecodeError),
        };
        let ghost fs = fields_view(fields@);
        let mut i: usize = 0;
        assert(fs.skip(0) =~= fs);
        while i < fields.len()
            invariant
                i <= fields@.len(),
                fs == fields_view(fields@),
                parse_fields(bytes@, d as nat) == Some(fs),
                old(self)@.merge_all(fs, d as nat) == self@.merge_all(fs.skip(i as int), d as nat),
            decreases fields@.len() - i,
        {
            let ghost before = self@;
            assert(fs.skip(i as int)[0] == fields@[i as int]@);
            match self.merge_record(&fields[i], d) {
                Ok(()) => {},
                Err(e) => {
                    assert(fs.skip(i as int).len() > 0);
                    assert(before.merge_all(fs.skip(i as int), d as nat) is None);
                    return Err(e);
                },
            }
            assert(fs.skip(i as int).drop_first() =~= fs.skip(i + 1));
            i = i + 1;
        }
        assert(fs.skip(i as int) =~= Seq::<FieldModel>::empty());
        Ok(())
    }

    /// Decodes a message, ignoring unknown fields.
    pub fn decode(bytes: &[u8]) -> (r: Result<Self, DecodeError>)
        ensures
            match DeviceToDeviceMessageModel::decoded(bytes@) {
                Some(m) => r matches Ok(x) && x@ == m,
                None => r is Err,
            },
    {
        let mut m = Self::empty();
        match m.merge_from(bytes, RECURSION_BUDGET) {
            Ok(()) => Ok(m),
            Err(e) => Err(e),
        }
    }
}

// --- SharingFrame ---

/// Outer Quick Share frame, carried in byte payloads.
#[derive(Clone, Debug, Default, PartialEq)]
pub struct SharingFrame {
    pub version: Option<i32>,
    pub v1: Option<SharingV1Frame>,
}

/// The value of a [`SharingFrame`].
#[verifier::ext_equal]
pub struct SharingFrameModel {
    pub version: Option<i32>,
    pub v1: Option<SharingV1FrameModel>,
}

impl View for SharingFrame {
    type V = SharingFrameModel;

    open spec fn view(&self) -> SharingFrameModel {
        SharingFrameModel {
            version: self.version,
            v1: match self.v1 {
                Some(x) => Some(x@),
                None => None,
            },
        }
    }
}

impl SharingFrameModel {
    /// The message with no field set.
    pub open spec fn empty() -> Self {
        SharingFrameModel {
            version: None,
            v1: None,
        }
    }

    /// The records this message encodes to, in field-number order.
    pub open spec fn records(self) -> Seq<FieldModel> {
        opt_i32_records(1, self.version)
            + opt_bytes_records(
            2,
            match self.v1 {
                Some(x) => Some(x.encoding()),
                None => None,
            },
        )
    }

    pub open spec fn encoding(self) -> Seq<u8> {
        fields_bytes(self.records())
    }

    /// Every length fits the wire format, here and in every embedded message.
    pub open spec fn wf(self) -> bool {
        &&& all_encodable(self.records())
        &&& match self.v1 {
            Some(x) => x.wf(),
            None => true,
        }
    }

    /// The message after one more record is merged into it: a scalar, string
    /// or bytes field takes the new value, an embedded message merges the new
    /// one into itself, and a repeated field appends.
    pub open spec fn merge_field(self, fld: FieldModel, d: nat) -> Option<Self> {
        if fld.number == 1 {
            match varint_of(fld.value) {
                Some(v) => Some(SharingFrameModel { version: Some(v as i32), ..self }),
                None => None,
            }
        } else if fld.number == 2 {
            if d == 0 {
                None
            } else {
                match payload_of(fld.value) {
                    Some(b) => match (match self.v1 {
                        Some(x) => x,
                        None => SharingV1FrameModel::empty(),
                    }).merge_bytes(b, (d - 1) as nat) {
                        Some(x) => Some(SharingFrameModel { v1: Some(x), ..self }),
                        None => None,
                    },
                    None => None,
                }
            }
        } else if d == 0 {
            None
        } else {
            Some(self)
        }
    }

    pub open spec fn merge_all(self, fs: Seq<FieldModel>, d: nat) -> Option<Self>
        decreases fs.len(),
    {
        if fs.len() == 0 {
            Some(self)
        } else {
            match self.merge_field(fs[0], d) {
                Some(m) => m.merge_all(fs.drop_first(), d),
                None => None,
            }
        }
    }

    /// The message after every record of `s` is merged into it.
    pub open spec fn merge_bytes(self, s: Seq<u8>, d: nat) -> Option<Self> {
        match parse_fields(s, d) {
            Some(fs) => self.merge_all(fs, d),
            None => None,
        }
    }

    /// The message that `s` encodes, if it is a well-formed encoding.
    pub open spec fn decoded(s: Seq<u8>) -> Option<Self> {
        Self::empty().merge_bytes(s, RECURSION_BUDGET as nat)
    }

    pub proof fn lemma_merge_all_append(self, a: Seq<FieldModel>, b: Seq<FieldModel>, d: nat)
        ensures
            self.merge_all(a + b, d) == match self.merge_all(a, d) {
                Some(m) => m.merge_all(b, d),
                None => None,
            },
        decreases a.len(),
    {
        if a.len() == 0 {
            assert(a + b =~= b);
        } else {
            assert((a + b).drop_first() =~= a.drop_first() + b);
            assert((a + b)[0] == a[0]);
            if let Some(m) = self.merge_field(a[0], d) {
                m.lemma_merge_all_append(a.drop_first(), b, d);
            }
        }
    }

    /// Decoding the encoding of a message gives the message back.
    #[verifier::spinoff_prover]
    #[verifier::rlimit(40)]
    pub proof fn lemma_round_trip(self, d: nat)
        requires
            self.wf(),
            d >= 3,
        ensures
            Self::empty().merge_bytes(self.encoding(), d) == Some(self),
    {
        lemma_parse_fields_bytes(self.records(), d);
        reveal_with_fuel(SharingFrameModel::merge_all, 2);
        let s0 = SharingFrameModel::empty();
        let s1 = SharingFrameModel { version: self.version, ..s0 };
        if let Some(x) = self.version {
            lemma_i32_round_trip(x);
        }
        assert(s0.merge_all(opt_i32_records(1, self.version), d) == Some(s1));
        let s2 = SharingFrameModel { v1: self.v1, ..s1 };
        if let Some(x) = self.v1 {
            x.lemma_round_trip((d - 1) as nat);
        }
        assert(s1.merge_all(opt_bytes_records(
            2,
            match self.v1 {
                Some(x) => Some(x.encoding()),
                None => None,
            },
        ), d) == Some(s2));
        s0.lemma_merge_all_append(opt_i32_records(1, self.version), opt_bytes_records(
            2,
            match self.v1 {
                Some(x) => Some(x.encoding()),
                None => None,
            },
        ), d);
        assert(s2 =~= self);
    }
}

impl SharingFrame {
    /// The message with no field set.
    pub fn empty() -> (r: Self)
        ensures
            r@ == SharingFrameModel::empty(),
    {
        let r = SharingFrame {
            version: None,
            v1: None,
        };
        assert(r@ =~= SharingFrameModel::empty());
        r
    }

    /// Appends the encoding of this message.
    #[verifier::spinoff_prover]
    #[verifier::rlimit(40)]
    pub fn encode_into(&self, out: &mut Vec<u8>)
        ensures
            final(out)@ == old(out)@ + self@.encoding(),
    {
        let ghost start = out@;
        put_opt_i32(out, 1, self.version);
        let ghost done = opt_i32_records(1, self@.version);
        let ghost mid = out@;
        let enc: Option<Vec<u8>> = match &self.v1 {
            Some(x) => Some(x.encode_to_vec()),
            None => None,
        };
        put_opt_bytes(out, 2, &enc);
        proof {
            lemma_fields_bytes_append(done, opt_bytes_records(
            2,
            match self@.v1 {
                Some(x) => Some(x.encoding()),
                None => None,
            },
        ));
            lemma_concat_associative(start, fields_bytes(done), fields_bytes(opt_bytes_records(
            2,
            match self@.v1 {
                Some(x) => Some(x.encoding()),
                None => None,
            },
        )));
        }
        let ghost done = done + opt_bytes_records(
            2,
            match self@.v1 {
                Some(x) => Some(x.encoding()),
                None => None,
            },
        );
        assert(done == self@.records());
    }

    pub fn encode_to_vec(&self) -> (r: Vec<u8>)
        ensures
            r@ == self@.encoding(),
    {
        let mut out = Vec::new();
        self.encode_into(&mut out);
        assert(out@ =~= self@.encoding());
        out
    }

    fn merge_record(&mut self, fld: &Field, d: u32) -> (r: Result<(), DecodeError>)
        ensures
            match old(self)@.merge_field(fld@, d as nat) {
                Some(m) => r is Ok && final(self)@ == m,
                None => r is Err,
            },
    {
        if fld.number == 1 {
            match wire_i32(&fld.value) {
                Ok(v) => {
                    self.version = Some(v);
                    Ok(())
                },
                Err(e) => Err(e),
            }
        } else if fld.number == 2 {
            if d == 0 {
                return Err(DecodeError);
            }
            match &fld.value {
                WireValue::LengthDelimited(b) => {
                    let mut inner = match self.v1.take() {
                        Some(x) => x,
                        None => SharingV1Frame::empty(),
                    };
                    match inner.merge_from(b.as_slice(), d - 1) {
                        Ok(()) => {
                            self.v1 = Some(inner);
                            Ok(())
                        },
                        Err(e) => Err(e),
                    }
                },
                _ => Err(DecodeError),
            }
        } else if d == 0 {
            Err(DecodeError)
        } else {
            Ok(())
        }
    }

    /// Merges every record of `bytes` into this message.
    pub fn merge_from(&mut self, bytes: &[u8], d: u32) -> (r: Result<(), DecodeError>)
        ensures
            match old(self)@.merge_bytes(bytes@, d as nat) {
                Some(m) => r is Ok && final(self)@ == m,
                None => r is Err,
            },
    {
        let fields = match read_fields(bytes, d) {
            Some(fs) => fs,
            None => return Err(DecodeError),
        };
        let ghost fs = fields_view(fields@);
        let mut i: usize = 0;
        assert(fs.skip(0) =~= fs);
        while i < fields.len()
            invariant
                i <= fields@.len(),
                fs == fields_view(fields@),
                parse_fields(bytes@, d as nat) == Some(fs),
                old(self)@.merge_all(fs, d as nat) == self@.merge_all(fs.skip(i as int), d as nat),
            decreases fields@.len() - i,
        {
            let ghost before = self@;
            assert(fs.skip(i as int)[0] == fields@[i as int]@);
            match self.merge_record(&fields[i], d) {
                Ok(()) => {},
                Err(e) => {
                    assert(fs.skip(i as int).len() > 0);
                    assert(before.merge_all(fs.skip(i as int), d as nat) is None);
                    return Err(e);
                },
            }
            assert(fs.skip(i as int).drop_first() =~= fs.skip(i + 1));
            i = i + 1;
        }
        assert(fs.skip(i as int) =~= Seq::<FieldModel>::empty());
        Ok(())
    }

    /// Decodes a message, ignoring unknown fields.
    pub fn decode(bytes: &[u8]) -> (r: Result<Self, DecodeError>)
        ensures
            match SharingFrameModel::decoded(bytes@) {
                Some(m) => r matches Ok(x) && x@ == m,
                None => r is Err,
            },
    {
        let mut m = Self::empty();
        match m.merge_from(bytes, RECURSION_BUDGET) {
            Ok(()) => Ok(m),
            Err(e) => Err(e),
        }
    }
}

// --- SharingV1Frame ---

/// Version-1 body of a `SharingFrame`.
#[derive(Clone, Debug, Default, PartialEq)]
pub struct SharingV1Frame {
    pub frame_type: Option<i32>,
    pub introduction: Option<IntroductionFrame>,
    pub connection_response: Option<SharingConnectionResponse>,
    pub paired_key_encryption: Option<SharingPairedKeyEncryption>,
    pub paired_key_result: Option<SharingPairedKeyResult>,
}

/// The value of a [`SharingV1Frame`].
#[verifier::ext_equal]
pub struct SharingV1FrameModel {
    pub frame_type: Option<i32>,
    pub introduction: Option<IntroductionFrameModel>,
    pub connection_response: Option<SharingConnectionResponseModel>,
    pub paired_key_encryption: Option<SharingPairedKeyEncryptionModel>,
    pub paired_key_result: Option<SharingPairedKeyResultModel>,
}

impl View for SharingV1Frame {
    type V = SharingV1FrameModel;

    open spec fn view(&self) -> SharingV1FrameModel {
        SharingV1FrameModel {
            frame_type: self.frame_type,
            introduction: match self.introduction {
                Some(x) => Some(x@),
                None => None,
            },
            connection_response: match self.connection_response {
                Some(x) => Some(x@),
                None => None,
            },
            paired_key_encryption: match self.paired_key_encryption {
                Some(x) => Some(x@),
                None => None,
            },
            paired_key_result: match self.paired_key_result {
                Some(x) => Some(x@),
                None => None,
            },
        }
    }
}

impl SharingV1FrameModel {
    /// The message with no field set.
    pub open spec fn empty() -> Self {
        SharingV1FrameModel {
            frame_type: None,
            introduction: None,
            connection_response: None,
            paired_key_encryption: None,
            paired_key_result: None,
        }
    }

    /// The records this message encodes to, in field-number order.
    pub open spec fn records(self) -> Seq<FieldModel> {
        opt_i32_records(1, self.frame_type)
            + opt_bytes_records(
            2,
            match self.introduction {
                Some(x) => Some(x.encoding()),
                None => None,
            },
        )
            + opt_bytes_records(
            3,
            match self.connection_response {
                Some(x) => Some(x.encoding()),
                None => None,
            },
        )
            + opt_bytes_records(
            4,
            match self.paired_key_encryption {
                Some(x) => Some(x.encoding()),
                None => None,
            },
        )
            + opt_bytes_records(
            5,
            match self.paired_key_result {
                Some(x) => Some(x.encoding()),
                None => None,
            },
        )
    }

    pub open spec fn encoding(self) -> Seq<u8> {
        fields_bytes(self.records())
    }

    /// Every length fits the wire format, here and in every embedded message.
    pub open spec fn wf(self) -> bool {
        &&& all_encodable(self.records())
        &&& match self.introduction {
            Some(x) => x.wf(),
            None => true,
        }
        &&& match self.connection_response {
            Some(x) => x.wf(),
            None => true,
        }
        &&& match self.paired_key_encryption {
            Some(x) => x.wf(),
            None => true,
        }
        &&& match self.paired_key_result {
            Some(x) => x.wf(),
            None => true,
        }
    }

    /// The message after one more record is merged into it: a scalar, string
    /// or bytes field takes the new value, an embedded message merges the new
    /// one into itself, and a repeated field appends.
    pub open spec fn merge_field(self, fld: FieldModel, d: nat) -> Option<Self> {
        if fld.number == 1 {
            match varint_of(fld.value) {
                Some(v) => Some(SharingV1FrameModel { frame_type: Some(v as i32), ..self }),
                None => None,
            }
        } else if fld.number == 2 {
            if d == 0 {
                None
            } else {
                match payload_of(fld.value) {
                    Some(b) => match (match self.introduction {
                        Some(x) => x,
                        None => IntroductionFrameModel::empty(),
                    }).merge_bytes(b, (d - 1) as nat) {
                        Some(x) => Some(SharingV1FrameModel { introduction: Some(x), ..self }),
                        None => None,
                    },
                    None => None,
                }
            }
        } else if fld.number == 3 {
            if d == 0 {
                None
            } else {
                match payload_of(fld.value) {
                    Some(b) => match (match self.connection_response {
                        Some(x) => x,
                        None => SharingConnectionResponseModel::empty(),
                    }).merge_bytes(b, (d - 1) as nat) {
                        Some(x) => Some(SharingV1FrameModel { connection_response: Some(x), ..self }),
                        None => None,
                    },
                    None => None,
                }
            }
        } else if fld.number == 4 {
            if d == 0 {
                None
            } else {
                match payload_of(fld.value) {
                    Some(b) => match (match self.paired_key_encryption {
                        Some(x) => x,
                        None => SharingPairedKeyEncryptionModel::empty(),
                    }).merge_bytes(b, (d - 1) as nat) {
                        Some(x) => Some(SharingV1FrameModel { paired_key_encryption: Some(x), ..self }),
                        None => None,
                    },
                    None => None,
                }
            }
        } else if fld.number == 5 {
            if d == 0 {
                None
            } else {
                match payload_of(fld.value) {
                    Some(b) => match (match self.paired_key_result {
                        Some(x) => x,
                        None => SharingPairedKeyResultModel::empty(),
                    }).merge_bytes(b, (d - 1) as nat) {
                        Some(x) => Some(SharingV1FrameModel { paired_key_result: Some(x), ..self }),
                        None => None,
                    },
                    None => None,
                }
            }
        } else if d == 0 {
            None
        } else {
            Some(self)
        }
    }

    pub open spec fn merge_all(self, fs: Seq<FieldModel>, d: nat) -> Option<Self>
        decreases fs.len(),
    {
        if fs.len() == 0 {
            Some(self)
        } else {
            match self.merge_field(fs[0], d) {
                Some(m) => m.merge_all(fs.drop_first(), d),
                None => None,
            }
        }
    }

    /// The message after every record of `s` is merged into it.
    pub open spec fn merge_bytes(self, s: Seq<u8>, d: nat) -> Option<Self> {
        match parse_fields(s, d) {
            Some(fs) => self.merge_all(fs, d),
            None => None,
        }
    }

    /// The message that `s` encodes, if it is a well-formed encoding.
    pub open spec fn decoded(s: Seq<u8>) -> Option<Self> {
        Self::empty().merge_bytes(s, RECURSION_BUDGET as nat)
    }

    pub proof fn lemma_merge_all_append(self, a: Seq<FieldModel>, b: Seq<FieldModel>, d: nat)
        ensures
            self.merge_all(a + b, d) == match self.merge_all(a, d) {
                Some(m) => m.merge_all(b, d),
                None => None,
            },
        decreases a.len(),
    {
        if a.len() == 0 {
            assert(a + b =~= b);
        } else {
            assert((a + b).drop_first() =~= a.drop_first() + b);
            assert((a + b)[0] == a[0]);
            if let Some(m) = self.merge_field(a[0], d) {
                m.lemma_merge_all_append(a.drop_first(), b, d);
            }
        }
    }

    /// Decoding the encoding of a message gives the message back.
    #[verifier::spinoff_prover]
    #[verifier::rlimit(40)]
    pub proof fn lemma_round_trip(self, d: nat)
        requires
            self.wf(),
            d >= 2,
        ensures
            Self::empty().merge_bytes(self.encoding(), d) == Some(self),
    {
        lemma_parse_fields_bytes(self.records(), d);
        reveal_with_fuel(SharingV1FrameModel::merge_all, 2);
        let s0 = SharingV1FrameModel::empty();
        let s1 = SharingV1FrameModel { frame_type: self.frame_type, ..s0 };
        if let Some(x) = self.frame_type {
            lemma_i32_round_trip(x);
        }
        assert(s0.merge_all(opt_i32_records(1, self.frame_type), d) == Some(s1));
        let s2 = SharingV1FrameModel { introduction: self.introduction, ..s1 };
        if let Some(x) = self.introduction {
            x.lemma_round_trip((d - 1) as nat);
        }
        assert(s1.merge_all(opt_bytes_records(
            2,
            match self.introduction {
                Some(x) => Some(x.encoding()),
                None => None,
            },
        ), d) == Some(s2));
        let s3 = SharingV1FrameModel { connection_response: self.connection_response, ..s2 };
        if let Some(x) = self.connection_response {
            x.lemma_round_trip((d - 1) as nat);
        }
        assert(s2.merge_all(opt_bytes_records(
            3,
            match self.connection_response {
                Some(x) => Some(x.encoding()),
                None => None,
            },
        ), d) == Some(s3));
        let s4 = SharingV1FrameModel { paired_key_encryption: self.paired_key_encryption, ..s3 };
        if let Some(x) = self.paired_key_encryption {
            x.lemma_round_trip((d - 1) as nat);
        }
        assert(s3.merge_all(opt_bytes_records(
            4,
            match self.paired_key_encryption {
                Some(x) => Some(x.encoding()),
                None => None,
            },
        ), d) == Some(s4));
        let s5 = SharingV1FrameModel { paired_key_result: self.paired_key_result, ..s4 };
        if let Some(x) = self.paired_key_result {
            x.lemma_round_trip((d - 1) as nat);
        }
        assert(s4.merge_all(opt_bytes_records(
            5,
            match self.paired_key_result {
                Some(x) => Some(x.encoding()),
                None => None,
            },
        ), d) == Some(s5));
        s0.lemma_merge_all_append(opt_i32_records(1, self.frame_type), opt_bytes_records(
            2,
            match self.introduction {
                Some(x) => Some(x.encoding()),
                None => None,
            },
        ), d);
        s0.lemma_merge_all_append(opt_i32_records(1, self.frame_type) + opt_bytes_records(
            2,
            match self.introduction {
                Some(x) => Some(x.encoding()),
                None => None,
            },
        ), opt_bytes_records(
            3,
            match self.connection_response {
                Some(x) => Some(x.encoding()),
                None => None,
            },
        ), d);
        s0.lemma_merge_all_append(opt_i32_records(1, self.frame_type) + opt_bytes_records(
            2,
            match self.introduction {
                Some(x) => Some(x.encoding()),
                None => None,
            },
        ) + opt_bytes_records(
            3,
            match self.connection_response {
                Some(x) => Some(x.encoding()),
                None => None,
            },
        ), opt_bytes_records(
            4,
            match self.paired_key_encryption {
                Some(x) => Some(x.encoding()),
                None => None,
            },
        ), d);
        s0.lemma_merge_all_append(opt_i32_records(1, self.frame_type) + opt_bytes_records(
            2,
            match self.introduction {
                Some(x) => Some(x.encoding()),
                None => None,
            },
        ) + opt_bytes_records(
            3,
            match self.connection_response {
                Some(x) => Some(x.encoding()),
                None => None,
            },
        ) + opt_bytes_records(
            4,
            match self.paired_key_encryption {
                Some(x) => Some(x.encoding()),
                None => None,
            },
        ), opt_bytes_records(
            5,
            match self.paired_key_result {
                Some(x) => Some(x.encoding()),
                None => None,
            },
        ), d);
        assert(s5 =~= self);
    }
}

impl SharingV1Frame {
    /// The message with no field set.
    pub fn empty() -> (r: Self)
        ensures
            r@ == SharingV1FrameModel::empty(),
    {
        let r = SharingV1Frame {
            frame_type: None,
            introduction: None,
            connection_response: None,
            paired_key_encryption: None,
            paired_key_result: None,
        };
        assert(r@ =~= SharingV1FrameModel::empty());
        r
    }

    /// Appends the encoding of this message.
    #[verifier::spinoff_prover]
    #[verifier::rlimit(40)]
    pub fn encode_into(&self, out: &mut Vec<u8>)
        ensures
            final(out)@ == old(out)@ + self@.encoding(),
    {
        let ghost start = out@;
        put_opt_i32(out, 1, self.frame_type);
        let ghost done = opt_i32_records(1, self@.frame_type);
        let ghost mid = out@;
        let enc: Option<Vec<u8>> = match &self.introduction {
            Some(x) => Some(x.encode_to_vec()),
            None => None,
        };
        put_opt_bytes(out, 2, &enc);
        proof {
            lemma_fields_bytes_append(done, opt_bytes_records(
            2,
            match self@.introduction {
                Some(x) => Some(x.encoding()),
                None => None,
            },
        ));
            lemma_concat_associative(start, fields_bytes(done), fields_bytes(opt_bytes_records(
            2,
            match self@.introduction {
                Some(x) => Some(x.encoding()),
                None => None,
            },
        )));
        }
        let ghost done = done + opt_bytes_records(
            2,
            match self@.introduction {
                Some(x) => Some(x.encoding()),
                None => None,
            },
        );
        let ghost mid = out@;
        let enc: Option<Vec<u8>> = match &self.connection_response {
            Some(x) => Some(x.encode_to_vec()),
            None => None,
        };
        put_opt_bytes(out, 3, &enc);
        proof {
            lemma_fields_bytes_append(done, opt_bytes_records(
            3,
            match self@.connection_response {
                Some(x) => Some(x.encoding()),
                None => None,
            },
        ));
            lemma_concat_associative(start, fields_bytes(done), fields_bytes(opt_bytes_records(
            3,
            match self@.connection_response {
                Some(x) => Some(x.encoding()),
                None => None,
            },
        )));
        }
        let ghost done = done + opt_bytes_records(
            3,
            match self@.connection_response {
                Some(x) => Some(x.encoding()),
                None => None,
            },
        );
        let ghost mid = out@;
        let enc: Option<Vec<u8>> = match &self.paired_key_encryption {
            Some(x) => Some(x.encode_to_vec()),
            None => None,
        };
        put_opt_bytes(out, 4, &enc);
        proof {
            lemma_fields_bytes_append(done, opt_bytes_records(
            4,
            match self@.paired_key_encryption {
                Some(x) => Some(x.encoding()),
                None => None,
            },
        ));
            lemma_concat_associative(start, fields_bytes(done), fields_bytes(opt_bytes_records(
            4,
            match self@.paired_key_encryption {
                Some(x) => Some(x.encoding()),
                None => None,
            },
        )));
        }
        let ghost done = done + opt_bytes_records(
            4,
            match self@.paired_key_encryption {
                Some(x) => Some(x.encoding()),
                None => None,
            },
        );
        let ghost mid = out@;
        let enc: Option<Vec<u8>> = match &self.paired_key_result {
            Some(x) => Some(x.encode_to_vec()),
            None => None,
        };
        put_opt_bytes(out, 5, &enc);
        proof {
            lemma_fields_bytes_append(done, opt_bytes_records(
            5,
            match self@.paired_key_result {
                Some(x) => Some(x.encoding()),
                None => None,
            },
        ));
            lemma_concat_associative(start, fields_bytes(done), fields_bytes(opt_bytes_records(
            5,
            match self@.paired_key_result {
                Some(x) => Some(x.encoding()),
                None => None,
            },
        )));
        }
        let ghost done = done + opt_bytes_records(
            5,
            match self@.paired_key_result {
                Some(x) => Some(x.encoding()),
                None => None,
            },
        );
        assert(done == self@.records());
    }

    pub fn encode_to_vec(&self) -> (r: Vec<u8>)
        ensures
            r@ == self@.encoding(),
    {
        let mut out = Vec::new();
        self.encode_into(&mut out);
        assert(out@ =~= self@.encoding());
        out
    }

    fn merge_record(&mut self, fld: &Field, d: u32) -> (r: Result<(), DecodeError>)
        ensures
            match old(self)@.merge_field(fld@, d as nat) {
                Some(m) => r is Ok && final(self)@ == m,
                None => r is Err,
            },
    {
        if fld.number == 1 {
            match wire_i32(&fld.value) {
                Ok(v) => {
                    self.frame_type = Some(v);
                    Ok(())
                },
                Err(e) => Err(e),
            }
        } else if fld.number == 2 {
            if d == 0 {
                return Err(DecodeError);
            }
            match &fld.value {
                WireValue::LengthDelimited(b) => {
                    let mut inner = match self.introduction.take() {
                        Some(x) => x,
                        None => IntroductionFrame::empty(),
                    };
                    match inner.merge_from(b.as_slice(), d - 1) {
                        Ok(()) => {
                            self.introduction = Some(inner);
                            Ok(())
                        },
                        Err(e) => Err(e),
                    }
                },
                _ => Err(DecodeError),
            }
        } else if fld.number == 3 {
            if d == 0 {
                return Err(DecodeError);
            }
            match &fld.value {
                WireValue::LengthDelimited(b) => {
                    let mut inner = match self.connection_response.take() {
                        Some(x) => x,
                        None => SharingConnectionResponse::empty(),
                    };
                    match inner.merge_from(b.as_slice(), d - 1) {
                        Ok(()) => {
                            self.connection_response = Some(inner);
                            Ok(())
                        },
                        Err(e) => Err(e),
                    }
                },
                _ => Err(DecodeError),
            }
        } else if fld.number == 4 {
            if d == 0 {
                return Err(DecodeError);
            }
            match &fld.value {
                WireValue::LengthDelimited(b) => {
                    let mut inner = match self.paired_key_encryption.take() {
                        Some(x) => x,
                        None => SharingPairedKeyEncryption::empty(),
                    };
                    match inner.merge_from(b.as_slice(), d - 1) {
                        Ok(()) => {
                            self.paired_key_encryption = Some(inner);
                            Ok(())
                        },
                        Err(e) => Err(e),
                    }
                },
                _ => Err(DecodeError),
            }
        } else if fld.number == 5 {
            if d == 0 {
                return Err(DecodeError);
            }
            match &fld.value {
                WireValue::LengthDelimited(b) => {
                    let mut inner = match self.paired_key_result.take() {
                        Some(x) => x,
                        None => SharingPairedKeyResult::empty(),
                    };
                    match inner.merge_from(b.as_slice(), d - 1) {
                        Ok(()) => {
                            self.paired_key_result = Some(inner);
                            Ok(())
                        },
                        Err(e) => Err(e),
                    }
                },
                _ => Err(DecodeError),
            }
        } else if d == 0 {
            Err(DecodeError)
        } else {
            Ok(())
        }
    }

    /// Merges every record of `bytes` into this message.
    pub fn merge_from(&mut self, bytes: &[u8], d: u32) -> (r: Result<(), DecodeError>)
        ensures
            match old(self)@.merge_bytes(bytes@, d as nat) {
                Some(m) => r is Ok && final(self)@ == m,
                None => r is Err,
            },
    {
        let fields = match read_fields(bytes, d) {
            Some(fs) => fs,
            None => return Err(DecodeError),
        };
        let ghost fs = fields_view(fields@);
        let mut i: usize = 0;
        assert(fs.skip(0) =~= fs);
        while i < fields.len()
            invariant
                i <= fields@.len(),
                fs == fields_view(fields@),
                parse_fields(bytes@, d as nat) == Some(fs),
                old(self)@.merge_all(fs, d as nat) == self@.merge_all(fs.skip(i as int), d as nat),
            decreases fields@.len() - i,
        {
            let ghost before = self@;
            assert(fs.skip(i as int)[0] == fields@[i as int]@);
            match self.merge_record(&fields[i], d) {
                Ok(()) => {},
                Err(e) => {
                    assert(fs.skip(i as int).len() > 0);
                    assert(before.merge_all(fs.skip(i as int), d as nat) is None);
                    return Err(e);
                },
            }
            assert(fs.skip(i as int).drop_first() =~= fs.skip(i + 1));
            i = i + 1;
        }
        assert(fs.skip(i as int) =~= Seq::<FieldModel>::empty());
        Ok(())
    }

    /// Decodes a message, ignoring unknown fields.
    pub fn decode(bytes: &[u8]) -> (r: Result<Self, DecodeError>)
        ensures
            match SharingV1FrameModel::decoded(bytes@) {
                Some(m) => r matches Ok(x) && x@ == m,
                None => r is Err,
            },
    {
        let mut m = Self::empty();
        match m.merge_from(bytes, RECURSION_BUDGET) {
            Ok(()) => Ok(m),
            Err(e) => Err(e),
        }
    }
}

// --- IntroductionFrame ---

/// The list of files and texts a sender offers.
#[derive(Clone, Debug, Default, PartialEq)]
pub struct IntroductionFrame {
    pub file_metadata: Vec<FileMetadata>,
    pub text_metadata: Vec<TextMetadata>,
    pub required_package: Option<String>,
    pub start_transfer: Option<bool>,
    pub use_case: Option<i32>,
    pub preview_payload_ids: Vec<i64>,
}

/// The value of a [`IntroductionFrame`].
#[verifier::ext_equal]
pub struct IntroductionFrameModel {
    pub file_metadata: Seq<FileMetadataModel>,
    pub text_metadata: Seq<TextMetadataModel>,
    pub required_package: Option<Seq<char>>,
    pub start_transfer: Option<bool>,
    pub use_case: Option<i32>,
    pub preview_payload_ids: Seq<i64>,
}

impl View for IntroductionFrame {
    type V = IntroductionFrameModel;

    open spec fn view(&self) -> IntroductionFrameModel {
        IntroductionFrameModel {
            file_metadata: self.file_metadata@.map_values(|x: FileMetadata| x@),
            text_metadata: self.text_metadata@.map_values(|x: TextMetadata| x@),
            required_package: opt_str_view(self.required_package),
            start_transfer: self.start_transfer,
            use_case: self.use_case,
            preview_payload_ids: self.preview_payload_ids@,
        }
    }
}

impl IntroductionFrameModel {
    /// The message with no field set.
    pub open spec fn empty() -> Self {
        IntroductionFrameModel {
            file_metadata: Seq::empty(),
            text_metadata: Seq::empty(),
            required_package: None,
            start_transfer: None,
            use_case: None,
            preview_payload_ids: Seq::empty(),
        }
    }

    /// The records this message encodes to, in field-number order.
    pub open spec fn records(self) -> Seq<FieldModel> {
        rep_bytes_records(1, self.file_metadata.map_values(|x: FileMetadataModel| x.encoding()))
            + rep_bytes_records(2, self.text_metadata.map_values(|x: TextMetadataModel| x.encoding()))
            + opt_str_records(3, self.required_package)
            + opt_bool_records(6, self.start_transfer)
            + opt_i32_records(8, self.use_case)
            + packed_records(9, i64s_as_u64(self.preview_payload_ids))
    }

    pub open spec fn encoding(self) -> Seq<u8> {
        fields_bytes(self.records())
    }

    /// Every length fits the wire format, here and in every embedded message.
    pub open spec fn wf(self) -> bool {
        &&& all_encodable(self.records())
        &&& forall|i: int| 0 <= i < self.file_metadata.len() ==> #[trigger] self.file_metadata[i].wf()
        &&& forall|i: int| 0 <= i < self.text_metadata.len() ==> #[trigger] self.text_metadata[i].wf()
    }

    /// The message after one more record is merged into it: a scalar, string
    /// or bytes field takes the new value, an embedded message merges the new
    /// one into itself, and a repeated field appends.
    pub open spec fn merge_field(self, fld: FieldModel, d: nat) -> Option<Self> {
        if fld.number == 1 {
            if d == 0 {
                None
            } else {
                match payload_of(fld.value) {
                    Some(b) => match FileMetadataModel::empty().merge_bytes(b, (d - 1) as nat) {
                        Some(x) => Some(IntroductionFrameModel { file_metadata: self.file_metadata.push(x), ..self }),
                        None => None,
                    },
                    None => None,
                }
            }
        } else if fld.number == 2 {
            if d == 0 {
                None
            } else {
                match payload_of(fld.value) {
                    Some(b) => match TextMetadataModel::empty().merge_bytes(b, (d - 1) as nat) {
                        Some(x) => Some(IntroductionFrameModel { text_metadata: self.text_metadata.push(x), ..self }),
                        None => None,
                    },
                    None => None,
                }
            }
        } else if fld.number == 3 {
            match string_of(fld.value) {
                Some(c) => Some(IntroductionFrameModel { required_package: Some(c), ..self }),
                None => None,
            }
        } else if fld.number == 6 {
            match varint_of(fld.value) {
                Some(v) => Some(IntroductionFrameModel { start_transfer: Some(v != 0), ..self }),
                None => None,
            }
        } else if fld.number == 8 {
            match varint_of(fld.value) {
                Some(v) => Some(IntroductionFrameModel { use_case: Some(v as i32), ..self }),
                None => None,
            }
        } else if fld.number == 9 {
            match repeated_values(fld.value) {
                Some(vs) => Some(IntroductionFrameModel { preview_payload_ids: self.preview_payload_ids + u64s_as_i64(vs), ..self }),
                None => None,
            }
        } else if d == 0 {
            None
        } else {
            Some(self)
        }
    }

    pub open spec fn merge_all(self, fs: Seq<FieldModel>, d: nat) -> Option<Self>
        decreases fs.len(),
    {
        if fs.len() == 0 {
            Some(self)
        } else {
            match self.merge_field(fs[0], d) {
                Some(m) => m.merge_all(fs.drop_first(), d),
                None => None,
            }
        }
    }

    /// The message after every record of `s` is merged into it.
    pub open spec fn merge_bytes(self, s: Seq<u8>, d: nat) -> Option<Self> {
        match parse_fields(s, d) {
            Some(fs) => self.merge_all(fs, d),
            None => None,
        }
    }

    /// The message that `s` encodes, if it is a well-formed encoding.
    pub open spec fn decoded(s: Seq<u8>) -> Option<Self> {
        Self::empty().merge_bytes(s, RECURSION_BUDGET as nat)
    }

    pub proof fn lemma_merge_all_append(self, a: Seq<FieldModel>, b: Seq<FieldModel>, d: nat)
        ensures
            self.merge_all(a + b, d) == match self.merge_all(a, d) {
                Some(m) => m.merge_all(b, d),
                None => None,
            },
        decreases a.len(),
    {
        if a.len() == 0 {
            assert(a + b =~= b);
        } else {
            assert((a + b).drop_first() =~= a.drop_first() + b);
            assert((a + b)[0] == a[0]);
            if let Some(m) = self.merge_field(a[0], d) {
                m.lemma_merge_all_append(a.drop_first(), b, d);
            }
        }
    }

    /// Decoding the encoding of a message gives the message back.
    #[verifier::spinoff_prover]
    #[verifier::rlimit(40)]
    pub proof fn lemma_round_trip(self, d: nat)
        requires
            self.wf(),
            d >= 1,
        ensures
            Self::empty().merge_bytes(self.encoding(), d) == Some(self),
    {
        lemma_parse_fields_bytes(self.records(), d);
        reveal_with_fuel(IntroductionFrameModel::merge_all, 2);
        let s0 = IntroductionFrameModel::empty();
        let s1 = IntroductionFrameModel { file_metadata: self.file_metadata, ..s0 };
        IntroductionFrameModel::lemma_merge_file_metadata(s0, self.file_metadata, d);
        assert(s0.file_metadata + self.file_metadata =~= self.file_metadata);
        let s2 = IntroductionFrameModel { text_metadata: self.text_metadata, ..s1 };
        IntroductionFrameModel::lemma_merge_text_metadata(s1, self.text_metadata, d);
        assert(s1.text_metadata + self.text_metadata =~= self.text_metadata);
        let s3 = IntroductionFrameModel { required_package: self.required_package, ..s2 };
        if let Some(x) = self.required_package {
            lemma_string_round_trip(x);
        }
        assert(s2.merge_all(opt_str_records(3, self.required_package), d) == Some(s3));
        let s4 = IntroductionFrameModel { start_transfer: self.start_transfer, ..s3 };
        assert(s3.merge_all(opt_bool_records(6, self.start_transfer), d) == Some(s4));
        let s5 = IntroductionFrameModel { use_case: self.use_case, ..s4 };
        if let Some(x) = self.use_case {
            lemma_i32_round_trip(x);
        }
        assert(s4.merge_all(opt_i32_records(8, self.use_case), d) == Some(s5));
        let s6 = IntroductionFrameModel { preview_payload_ids: self.preview_payload_ids, ..s5 };
        lemma_packed_round_trip(i64s_as_u64(self.preview_payload_ids));
        lemma_i64s_round_trip(self.preview_payload_ids);
        assert(Seq::<i64>::empty() + self.preview_payload_ids =~= self.preview_payload_ids);
        assert(s5.merge_all(packed_records(9, i64s_as_u64(self.preview_payload_ids)), d) == Some(s6));
        s0.lemma_merge_all_append(rep_bytes_records(1, self.file_metadata.map_values(|x: FileMetadataModel| x.encoding())), rep_bytes_records(2, self.text_metadata.map_values(|x: TextMetadataModel| x.encoding())), d);
        s0.lemma_merge_all_append(rep_bytes_records(1, self.file_metadata.map_values(|x: FileMetadataModel| x.encoding())) + rep_bytes_records(2, self.text_metadata.map_values(|x: TextMetadataModel| x.encoding())), opt_str_records(3, self.required_package), d);
        s0.lemma_merge_all_append(rep_bytes_records(1, self.file_metadata.map_values(|x: FileMetadataModel| x.encoding())) + rep_bytes_records(2, self.text_metadata.map_values(|x: TextMetadataModel| x.encoding())) + opt_str_records(3, self.required_package), opt_bool_records(6, self.start_transfer), d);
        s0.lemma_merge_all_append(rep_bytes_records(1, self.file_metadata.map_values(|x: FileMetadataModel| x.encoding())) + rep_bytes_records(2, self.text_metadata.map_values(|x: TextMetadataModel| x.encoding())) + opt_str_records(3, self.required_package) + opt_bool_records(6, self.start_transfer), opt_i32_records(8, self.use_case), d);
        s0.lemma_merge_all_append(rep_bytes_records(1, self.file_metadata.map_values(|x: FileMetadataModel| x.encoding())) + rep_bytes_records(2, self.text_metadata.map_values(|x: TextMetadataModel| x.encoding())) + opt_str_records(3, self.required_package) + opt_bool_records(6, self.start_transfer) + opt_i32_records(8, self.use_case), packed_records(9, i64s_as_u64(self.preview_payload_ids)), d);
        assert(s6 =~= self);
    }

    proof fn lemma_merge_one_file_metadata(s: Self, x: FileMetadataModel, d: nat)
        requires
            d >= 1,
            x.wf(),
        ensures
            s.merge_all(seq![bytes_record(1, x.encoding())], d)
                == Some(IntroductionFrameModel { file_metadata: s.file_metadata.push(x), ..s }),
    {
        reveal_with_fuel(IntroductionFrameModel::merge_all, 2);
        x.lemma_round_trip((d - 1) as nat);
        let rec = bytes_record(1, x.encoding());
        assert(seq![rec][0] == rec);
        assert(seq![rec].drop_first() =~= Seq::<FieldModel>::empty());
        assert(s.merge_field(rec, d) == Some(IntroductionFrameModel { file_metadata: s.file_metadata.push(x), ..s }));
    }

    #[verifier::spinoff_prover]
    proof fn lemma_merge_file_metadata(s: Self, xs: Seq<FileMetadataModel>, d: nat)
        requires
            d >= 1,
            forall|i: int| 0 <= i < xs.len() ==> #[trigger] xs[i].wf(),
        ensures
            s.merge_all(rep_bytes_records(1, xs.map_values(|x: FileMetadataModel| x.encoding())), d)
                == Some(IntroductionFrameModel { file_metadata: s.file_metadata + xs, ..s }),
        decreases xs.len(),
    {
        let recs = rep_bytes_records(1, xs.map_values(|x: FileMetadataModel| x.encoding()));
        if xs.len() == 0 {
            assert(recs =~= Seq::<FieldModel>::empty());
            assert(s.file_metadata + xs =~= s.file_metadata);
            assert(IntroductionFrameModel { file_metadata: s.file_metadata + xs, ..s } =~= s);
        } else {
            let init = xs.drop_last();
            let last = xs.last();
            assert forall|i: int| 0 <= i < init.len() implies #[trigger] init[i].wf() by {
                assert(init[i] == xs[i]);
            }
            assert(last.wf()) by {
                assert(xs[xs.len() - 1].wf());
            }
            Self::lemma_merge_file_metadata(s, init, d);
            let init_encs = init.map_values(|x: FileMetadataModel| x.encoding());
            assert(xs.map_values(|x: FileMetadataModel| x.encoding()) =~= init_encs.push(last.encoding()));
            lemma_rep_bytes_records_push(1, init_encs, last.encoding());
            let init_recs = rep_bytes_records(1, init_encs);
            let last_rec = seq![bytes_record(1, last.encoding())];
            s.lemma_merge_all_append(init_recs, last_rec, d);
            let mid = IntroductionFrameModel { file_metadata: s.file_metadata + init, ..s };
            Self::lemma_merge_one_file_metadata(mid, last, d);
            assert(mid.file_metadata.push(last) =~= s.file_metadata + xs);
        }
    }

    proof fn lemma_merge_one_text_metadata(s: Self, x: TextMetadataModel, d: nat)
        requires
            d >= 1,
            x.wf(),
        ensures
            s.merge_all(seq![bytes_record(2, x.encoding())], d)
                == Some(IntroductionFrameModel { text_metadata: s.text_metadata.push(x), ..s }),
    {
        reveal_with_fuel(IntroductionFrameModel::merge_all, 2);
        x.lemma_round_trip((d - 1) as nat);
        let rec = bytes_record(2, x.encoding());
        assert(seq![rec][0] == rec);
        assert(seq![rec].drop_first() =~= Seq::<FieldModel>::empty());
        assert(s.merge_field(rec, d) == Some(IntroductionFrameModel { text_metadata: s.text_metadata.push(x), ..s }));
    }

    #[verifier::spinoff_prover]
    proof fn lemma_merge_text_metadata(s: Self, xs: Seq<TextMetadataModel>, d: nat)
        requires
            d >= 1,
            forall|i: int| 0 <= i < xs.len() ==> #[trigger] xs[i].wf(),
        ensures
            s.merge_all(rep_bytes_records(2, xs.map_values(|x: TextMetadataModel| x.encoding())), d)
                == Some(IntroductionFrameModel { text_metadata: s.text_metadata + xs, ..s }),
        decreases xs.len(),
    {
        let recs = rep_bytes_records(2, xs.map_values(|x: TextMetadataModel| x.encoding()));
        if xs.len() == 0 {
            assert(recs =~= Seq::<FieldModel>::empty());
            assert(s.text_metadata + xs =~= s.text_metadata);
            assert(IntroductionFrameModel { text_metadata: s.text_metadata + xs, ..s } =~= s);
        } else {
            let init = xs.drop_last();
            let last = xs.last();
            assert forall|i: int| 0 <= i < init.len() implies #[trigger] init[i].wf() by {
                assert(init[i] == xs[i]);
            }
            assert(last.wf()) by {
                assert(xs[xs.len() - 1].wf());
            }
            Self::lemma_merge_text_metadata(s, init, d);
            let init_encs = init.map_values(|x: TextMetadataModel| x.encoding());
            assert(xs.map_values(|x: TextMetadataModel| x.encoding()) =~= init_encs.push(last.encoding()));
            lemma_rep_bytes_records_push(2, init_encs, last.encoding());
            let init_recs = rep_bytes_records(2, init_encs);
            let last_rec = seq![bytes_record(2, last.encoding())];
            s.lemma_merge_all_append(init_recs, last_rec, d);
            let mid = IntroductionFrameModel { text_metadata: s.text_metadata + init, ..s };
            Self::lemma_merge_one_text_metadata(mid, last, d);
            assert(mid.text_metadata.push(last) =~= s.text_metadata + xs);
        }
    }
}

impl IntroductionFrame {
    /// The message with no field set.
    pub fn empty() -> (r: Self)
        ensures
            r@ == IntroductionFrameModel::empty(),
    {
        let r = IntroductionFrame {
            file_metadata: Vec::new(),
            text_metadata: Vec::new(),
            required_package: None,
            start_transfer: None,
            use_case: None,
            preview_payload_ids: Vec::new(),
        };
        assert(r@ =~= IntroductionFrameModel::empty());
        r
    }

    /// Appends the encoding of this message.
    #[verifier::spinoff_prover]
    #[verifier::rlimit(40)]
    pub fn encode_into(&self, out: &mut Vec<u8>)
        ensures
            final(out)@ == old(out)@ + self@.encoding(),
    {
        let ghost start = out@;
        let ghost encs = self@.file_metadata.map_values(|x: FileMetadataModel| x.encoding());
        let ghost seg = out@;
        let mut i: usize = 0;
        assert(encs.take(0) =~= Seq::<Seq<u8>>::empty());
        assert(rep_bytes_records(1, encs.take(0)) =~= Seq::<FieldModel>::empty());
        assert(seg + fields_bytes(Seq::<FieldModel>::empty()) =~= seg);
        while i < self.file_metadata.len()
            invariant
                i <= self.file_metadata@.len(),
                encs == self@.file_metadata.map_values(|x: FileMetadataModel| x.encoding()),
                self@.file_metadata == self.file_metadata@.map_values(|x: FileMetadata| x@),
                out@ == seg + fields_bytes(rep_bytes_records(1, encs.take(i as int))),
            decreases self.file_metadata@.len() - i,
        {
            let enc = self.file_metadata[i].encode_to_vec();
            let ghost before = out@;
            put_bytes_field(out, 1, enc.as_slice());
            proof {
                assert(encs.take(i + 1) =~= encs.take(i as int).push(enc@));
                lemma_rep_bytes_records_push(1, encs.take(i as int), enc@);
                lemma_fields_bytes_append(
                    rep_bytes_records(1, encs.take(i as int)),
                    seq![bytes_record(1, enc@)],
                );
                lemma_fields_bytes_single(bytes_record(1, enc@));
                assert(out@ =~= seg + fields_bytes(rep_bytes_records(1, encs.take(i + 1))));
            }
            i = i + 1;
        }
        assert(encs.take(i as int) =~= encs);
        let ghost done = rep_bytes_records(1, self@.file_metadata.map_values(|x: FileMetadataModel| x.encoding()));
        let ghost mid = out@;
        let ghost encs = self@.text_metadata.map_values(|x: TextMetadataModel| x.encoding());
        let ghost seg = out@;
        let mut i: usize = 0;
        assert(encs.take(0) =~= Seq::<Seq<u8>>::empty());
        assert(rep_bytes_records(2, encs.take(0)) =~= Seq::<FieldModel>::empty());
        assert(seg + fields_bytes(Seq::<FieldModel>::empty()) =~= seg);
        while i < self.text_metadata.len()
            invariant
                i <= self.text_metadata@.len(),
                encs == self@.text_metadata.map_values(|x: TextMetadataModel| x.encoding()),
                self@.text_metadata == self.text_metadata@.map_values(|x: TextMetadata| x@),
                out@ == seg + fields_bytes(rep_bytes_records(2, encs.take(i as int))),
            decreases self.text_metadata@.len() - i,
        {
            let enc = self.text_metadata[i].encode_to_vec();
            let ghost before = out@;
            put_bytes_field(out, 2, enc.as_slice());
            proof {
                assert(encs.take(i + 1) =~= encs.take(i as int).push(enc@));
                lemma_rep_bytes_records_push(2, encs.take(i as int), enc@);
                lemma_fields_bytes_append(
                    rep_bytes_records(2, encs.take(i as int)),
                    seq![bytes_record(2, enc@)],
                );
                lemma_fields_bytes_single(bytes_record(2, enc@));
                assert(out@ =~= seg + fields_bytes(rep_bytes_records(2, encs.take(i + 1))));
            }
            i = i + 1;
        }
        assert(encs.take(i as int) =~= encs);
        proof {
            lemma_fields_bytes_append(done, rep_bytes_records(2, self@.text_metadata.map_values(|x: TextMetadataModel| x.encoding())));
            lemma_concat_associative(start, fields_bytes(done), fields_bytes(rep_bytes_records(2, self@.text_metadata.map_values(|x: TextMetadataModel| x.encoding()))));
        }
        let ghost done = done + rep_bytes_records(2, self@.text_metadata.map_values(|x: TextMetadataModel| x.encoding()));
        let ghost mid = out@;
        put_opt_str(out, 3, &self.required_package);
        proof {
            lemma_fields_bytes_append(done, opt_str_records(3, self@.required_package));
            lemma_concat_associative(start, fields_bytes(done), fields_bytes(opt_str_records(3, self@.required_package)));
        }
        let ghost done = done + opt_str_records(3, self@.required_package);
        let ghost mid = out@;
        put_opt_bool(out, 6, self.start_transfer);
        proof {
            lemma_fields_bytes_append(done, opt_bool_records(6, self@.start_transfer));
            lemma_concat_associative(start, fields_bytes(done), fields_bytes(opt_bool_records(6, self@.start_transfer)));
        }
        let ghost done = done + opt_bool_records(6, self@.start_transfer);
        let ghost mid = out@;
        put_opt_i32(out, 8, self.use_case);
        proof {
            lemma_fields_bytes_append(done, opt_i32_records(8, self@.use_case));
            lemma_concat_associative(start, fields_bytes(done), fields_bytes(opt_i32_records(8, self@.use_case)));
        }
        let ghost done = done + opt_i32_records(8, self@.use_case);
        let ghost mid = out@;
        let vs = i64s_to_u64(&self.preview_payload_ids);
        put_packed(out, 9, &vs);
        proof {
            lemma_fields_bytes_append(done, packed_records(9, i64s_as_u64(self@.preview_payload_ids)));
            lemma_concat_associative(start, fields_bytes(done), fields_bytes(packed_records(9, i64s_as_u64(self@.preview_payload_ids))));
        }
        let ghost done = done + packed_records(9, i64s_as_u64(self@.preview_payload_ids));
        assert(done == self@.records());
    }

    pub fn encode_to_vec(&self) -> (r: Vec<u8>)
        ensures
            r@ == self@.encoding(),
    {
        let mut out = Vec::new();
        self.encode_into(&mut out);
        assert(out@ =~= self@.encoding());
        out
    }

    fn merge_record(&mut self, fld: &Field, d: u32) -> (r: Result<(), DecodeError>)
        ensures
            match old(self)@.merge_field(fld@, d as nat) {
                Some(m) => r is Ok && final(self)@ == m,
                None => r is Err,
            },
    {
        if fld.number == 1 {
            if d == 0 {
                return Err(DecodeError);
            }
            match &fld.value {
                WireValue::LengthDelimited(b) => {
                    let mut inner = FileMetadata::empty();
                    match inner.merge_from(b.as_slice(), d - 1) {
                        Ok(()) => {
                            let ghost before = self.file_metadata@;
                            let ghost iv = inner@;
                            self.file_metadata.push(inner);
                            assert(self.file_metadata@.map_values(|x: FileMetadata| x@) =~= before.map_values(
                                |x: FileMetadata| x@,
                            ).push(iv));
                            Ok(())
                        },
                        Err(e) => Err(e),
                    }
                },
                _ => Err(DecodeError),
            }
        } else if fld.number == 2 {
            if d == 0 {
                return Err(DecodeError);
            }
            match &fld.value {
                WireValue::LengthDelimited(b) => {
                    let mut inner = TextMetadata::empty();
                    match inner.merge_from(b.as_slice(), d - 1) {
                        Ok(()) => {
                            let ghost before = self.text_metadata@;
                            let ghost iv = inner@;
                            self.text_metadata.push(inner);
                            assert(self.text_metadata@.map_values(|x: TextMetadata| x@) =~= before.map_values(
                                |x: TextMetadata| x@,
                            ).push(iv));
                            Ok(())
                        },
                        Err(e) => Err(e),
                    }
                },
                _ => Err(DecodeError),
            }
        } else if fld.number == 3 {
            match wire_string(&fld.value) {
                Ok(v) => {
                    self.required_package = Some(v);
                    Ok(())
                },
                Err(e) => Err(e),
            }
        } else if fld.number == 6 {
            match wire_bool(&fld.value) {
                Ok(v) => {
                    self.start_transfer = Some(v);
                    Ok(())
                },
                Err(e) => Err(e),
            }
        } else if fld.number == 8 {
            match wire_i32(&fld.value) {
                Ok(v) => {
                    self.use_case = Some(v);
                    Ok(())
                },
                Err(e) => Err(e),
            }
        } else if fld.number == 9 {
            match wire_repeated(&fld.value) {
                Ok(vs) => {
                    extend_i64(&mut self.preview_payload_ids, &vs);
                    Ok(())
                },
                Err(e) => Err(e),
            }
        } else if d == 0 {
            Err(DecodeError)
        } else {
            Ok(())
        }
    }

    /// Merges every record of `bytes` into this message.
    pub fn merge_from(&mut self, bytes: &[u8], d: u32) -> (r: Result<(), DecodeError>)
        ensures
            match old(self)@.merge_bytes(bytes@, d as nat) {
                Some(m) => r is Ok && final(self)@ == m,
                None => r is Err,
            },
    {
        let fields = match read_fields(bytes, d) {
            Some(fs) => fs,
            None => return Err(DecodeError),
        };
        let ghost fs = fields_view(fields@);
        let mut i: usize = 0;
        assert(fs.skip(0) =~= fs);
        while i < fields.len()
            invariant
                i <= fields@.len(),
                fs == fields_view(fields@),
                parse_fields(bytes@, d as nat) == Some(fs),
                old(self)@.merge_all(fs, d as nat) == self@.merge_all(fs.skip(i as int), d as nat),
            decreases fields@.len() - i,
        {
            let ghost before = self@;
            assert(fs.skip(i as int)[0] == fields@[i as int]@);
            match self.merge_record(&fields[i], d) {
                Ok(()) => {},
                Err(e) => {
                    assert(fs.skip(i as int).len() > 0);
                    assert(before.merge_all(fs.skip(i as int), d as nat) is None);
                    return Err(e);
                },
            }
            assert(fs.skip(i as int).drop_first() =~= fs.skip(i + 1));
            i = i + 1;
        }
        assert(fs.skip(i as int) =~= Seq::<FieldModel>::empty());
        Ok(())
    }

    /// Decodes a message, ignoring unknown fields.
    pub fn decode(bytes: &[u8]) -> (r: Result<Self, DecodeError>)
        ensures
            match IntroductionFrameModel::decoded(bytes@) {
                Some(m) => r matches Ok(x) && x@ == m,
                None => r is Err,
            },
    {
        let mut m = Self::empty();
        match m.merge_from(bytes, RECURSION_BUDGET) {
            Ok(()) => Ok(m),
            Err(e) => Err(e),
        }
    }
}

// --- FileMetadata ---

/// Description of one offered file.
#[derive(Clone, Debug, Default, PartialEq)]
pub struct FileMetadata {
    pub name: Option<String>,
    pub file_type: Option<i32>,
    pub payload_id: Option<i64>,
    pub size: Option<i64>,
    pub mime_type: Option<String>,
    pub id: Option<i64>,
    pub parent_folder: Option<String>,
}

/// The value of a [`FileMetadata`].
#[verifier::ext_equal]
pub struct FileMetadataModel {
    pub name: Option<Seq<char>>,
    pub file_type: Option<i32>,
    pub payload_id: Option<i64>,
    pub size: Option<i64>,
    pub mime_type: Option<Seq<char>>,
    pub id: Option<i64>,
    pub parent_folder: Option<Seq<char>>,
}

impl View for FileMetadata {
    type V = FileMetadataModel;

    open spec fn view(&self) -> FileMetadataModel {
        FileMetadataModel {
            name: opt_str_view(self.name),
            file_type: self.file_type,
            payload_id: self.payload_id,
            size: self.size,
            mime_type: opt_str_view(self.mime_type),
            id: self.id,
            parent_folder: opt_str_view(self.parent_folder),
        }
    }
}

impl FileMetadataModel {
    /// The message with no field set.
    pub open spec fn empty() -> Self {
        FileMetadataModel {
            name: None,
            file_type: None,
            payload_id: None,
            size: None,
            mime_type: None,
            id: None,
            parent_folder: None,
        }
    }

    /// The records this message encodes to, in field-number order.
    pub open spec fn records(self) -> Seq<FieldModel> {
        opt_str_records(1, self.name)
            + opt_i32_records(2, self.file_type)
            + opt_i64_records(3, self.payload_id)
            + opt_i64_records(4, self.size)
            + opt_str_records(5, self.mime_type)
            + opt_i64_records(6, self.id)
            + opt_str_records(7, self.parent_folder)
    }

    pub open spec fn encoding(self) -> Seq<u8> {
        fields_bytes(self.records())
    }

    /// Every length fits the wire format, here and in every embedded message.
    pub open spec fn wf(self) -> bool {
        &&& all_encodable(self.records())
    }

    /// The message after one more record is merged into it: a scalar, string
    /// or bytes field takes the new value, an embedded message merges the new
    /// one into itself, and a repeated field appends.
    pub open spec fn merge_field(self, fld: FieldModel, d: nat) -> Option<Self> {
        if fld.number == 1 {
            match string_of(fld.value) {
                Some(c) => Some(FileMetadataModel { name: Some(c), ..self }),
                None => None,
            }
        } else if fld.number == 2 {
            match varint_of(fld.value) {
                Some(v) => Some(FileMetadataModel { file_type: Some(v as i32), ..self }),
                None => None,
            }
        } else if fld.number == 3 {
            match varint_of(fld.value) {
                Some(v) => Some(FileMetadataModel { payload_id: Some(v as i64), ..self }),
                None => None,
            }
        } else if fld.number == 4 {
            match varint_of(fld.value) {
                Some(v) => Some(FileMetadataModel { size: Some(v as i64), ..self }),
                None => None,
            }
        } else if fld.number == 5 {
            match string_of(fld.value) {
                Some(c) => Some(FileMetadataModel { mime_type: Some(c), ..self }),
                None => None,
            }
        } else if fld.number == 6 {
            match varint_of(fld.value) {
                Some(v) => Some(FileMetadataModel { id: Some(v as i64), ..self }),
                None => None,
            }
        } else if fld.number == 7 {
            match string_of(fld.value) {
                Some(c) => Some(FileMetadataModel { parent_folder: Some(c), ..self }),
                None => None,
            }
        } else if d == 0 {
            None
        } else {
            Some(self)
        }
    }

    pub open spec fn merge_all(self, fs: Seq<FieldModel>, d: nat) -> Option<Self>
        decreases fs.len(),
    {
        if fs.len() == 0 {
            Some(self)
        } else {
            match self.merge_field(fs[0], d) {
                Some(m) => m.merge_all(fs.drop_first(), d),
                None => None,
            }
        }
    }

    /// The message after every record of `s` is merged into it.
    pub open spec fn merge_bytes(self, s: Seq<u8>, d: nat) -> Option<Self> {
        match parse_fields(s, d) {
            Some(fs) => self.merge_all(fs, d),
            None => None,
        }
    }

    /// The message that `s` encodes, if it is a well-formed encoding.
    pub open spec fn decoded(s: Seq<u8>) -> Option<Self> {
        Self::empty().merge_bytes(s, RECURSION_BUDGET as nat)
    }

    pub proof fn lemma_merge_all_append(self, a: Seq<FieldModel>, b: Seq<FieldModel>, d: nat)
        ensures
            self.merge_all(a + b, d) == match self.merge_all(a, d) {
                Some(m) => m.merge_all(b, d),
                None => None,
            },
        decreases a.len(),
    {
        if a.len() == 0 {
            assert(a + b =~= b);
        } else {
            assert((a + b).drop_first() =~= a.drop_first() + b);
            assert((a + b)[0] == a[0]);
            if let Some(m) = self.merge_field(a[0], d) {
                m.lemma_merge_all_append(a.drop_first(), b, d);
            }
        }
    }

    /// Decoding the encoding of a message gives the message back.
    #[verifier::spinoff_prover]
    #[verifier::rlimit(40)]
    pub proof fn lemma_round_trip(self, d: nat)
        requires
            self.wf(),
            d >= 0,
        ensures
            Self::empty().merge_bytes(self.encoding(), d) == Some(self),
    {
        lemma_parse_fields_bytes(self.records(), d);
        reveal_with_fuel(FileMetadataModel::merge_all, 2);
        let s0 = FileMetadataModel::empty();
        let s1 = FileMetadataModel { name: self.name, ..s0 };
        if let Some(x) = self.name {
            lemma_string_round_trip(x);
        }
        assert(s0.merge_all(opt_str_records(1, self.name), d) == Some(s1));
        let s2 = FileMetadataModel { file_type: self.file_type, ..s1 };
        if let Some(x) = self.file_type {
            lemma_i32_round_trip(x);
        }
        assert(s1.merge_all(opt_i32_records(2, self.file_type), d) == Some(s2));
        let s3 = FileMetadataModel { payload_id: self.payload_id, ..s2 };
        if let Some(x) = self.payload_id {
            lemma_i64_round_trip(x);
        }
        assert(s2.merge_all(opt_i64_records(3, self.payload_id), d) == Some(s3));
        let s4 = FileMetadataModel { size: self.size, ..s3 };
        if let Some(x) = self.size {
            lemma_i64_round_trip(x);
        }
        assert(s3.merge_all(opt_i64_records(4, self.size), d) == Some(s4));
        let s5 = FileMetadataModel { mime_type: self.mime_type, ..s4 };
        if let Some(x) = self.mime_type {
            lemma_string_round_trip(x);
        }
        assert(s4.merge_all(opt_str_records(5, self.mime_type), d) == Some(s5));
        let s6 = FileMetadataModel { id: self.id, ..s5 };
        if let Some(x) = self.id {
            lemma_i64_round_trip(x);
        }
        assert(s5.merge_all(opt_i64_records(6, self.id), d) == Some(s6));
        let s7 = FileMetadataModel { parent_folder: self.parent_folder, ..s6 };
        if let Some(x) = self.parent_folder {
            lemma_string_round_trip(x);
        }
        assert(s6.merge_all(opt_str_records(7, self.parent_folder), d) == Some(s7));
        s0.lemma_merge_all_append(opt_str_records(1, self.name), opt_i32_records(2, self.file_type), d);
        s0.lemma_merge_all_append(opt_str_records(1, self.name) + opt_i32_records(2, self.file_type), opt_i64_records(3, self.payload_id), d);
        s0.lemma_merge_all_append(opt_str_records(1, self.name) + opt_i32_records(2, self.file_type) + opt_i64_records(3, self.payload_id), opt_i64_records(4, self.size), d);
        s0.lemma_merge_all_append(opt_str_records(1, self.name) + opt_i32_records(2, self.file_type) + opt_i64_records(3, self.payload_id) + opt_i64_records(4, self.size), opt_str_records(5, self.mime_type), d);
        s0.lemma_merge_all_append(opt_str_records(1, self.name) + opt_i32_records(2, self.file_type) + opt_i64_records(3, self.payload_id) + opt_i64_records(4, self.size) + opt_str_records(5, self.mime_type), opt_i64_records(6, self.id), d);
        s0.lemma_merge_all_append(opt_str_records(1, self.name) + opt_i32_records(2, self.file_type) + opt_i64_records(3, self.payload_id) + opt_i64_records(4, self.size) + opt_str_records(5, self.mime_type) + opt_i64_records(6, self.id), opt_str_records(7, self.parent_folder), d);
        assert(s7 =~= self);
    }
}

impl FileMetadata {
    /// The message with no field set.
    pub fn empty() -> (r: Self)
        ensures
            r@ == FileMetadataModel::empty(),
    {
        let r = FileMetadata {
            name: None,
            file_type: None,
            payload_id: None,
            size: None,
            mime_type: None,
            id: None,
            parent_folder: None,
        };
        assert(r@ =~= FileMetadataModel::empty());
        r
    }

    /// Appends the encoding of this message.
    #[verifier::spinoff_prover]
    #[verifier::rlimit(40)]
    pub fn encode_into(&self, out: &mut Vec<u8>)
        ensures
            final(out)@ == old(out)@ + self@.encoding(),
    {
        let ghost start = out@;
        put_opt_str(out, 1, &self.name);
        let ghost done = opt_str_records(1, self@.name);
        let ghost mid = out@;
        put_opt_i32(out, 2, self.file_type);
        proof {
            lemma_fields_bytes_append(done, opt_i32_records(2, self@.file_type));
            lemma_concat_associative(start, fields_bytes(done), fields_bytes(opt_i32_records(2, self@.file_type)));
        }
        let ghost done = done + opt_i32_records(2, self@.file_type);
        let ghost mid = out@;
        put_opt_i64(out, 3, self.payload_id);
        proof {
            lemma_fields_bytes_append(done, opt_i64_records(3, self@.payload_id));
            lemma_concat_associative(start, fields_bytes(done), fields_bytes(opt_i64_records(3, self@.payload_id)));
        }
        let ghost done = done + opt_i64_records(3, self@.payload_id);
        let ghost mid = out@;
        put_opt_i64(out, 4, self.size);
        proof {
            lemma_fields_bytes_append(done, opt_i64_records(4, self@.size));
            lemma_concat_associative(start, fields_bytes(done), fields_bytes(opt_i64_records(4, self@.size)));
        }
        let ghost done = done + opt_i64_records(4, self@.size);
        let ghost mid = out@;
        put_opt_str(out, 5, &self.mime_type);
        proof {
            lemma_fields_bytes_append(done, opt_str_records(5, self@.mime_type));
            lemma_concat_associative(start, fields_bytes(done), fields_bytes(opt_str_records(5, self@.mime_type)));
        }
        let ghost done = done + opt_str_records(5, self@.mime_type);
        let ghost mid = out@;
        put_opt_i64(out, 6, self.id);
        proof {
            lemma_fields_bytes_append(done, opt_i64_records(6, self@.id));
            lemma_concat_associative(start, fields_bytes(done), fields_bytes(opt_i64_records(6, self@.id)));
        }
        let ghost done = done + opt_i64_records(6, self@.id);
        let ghost mid = out@;
        put_opt_str(out, 7, &self.parent_folder);
        proof {
            lemma_fields_bytes_append(done, opt_str_records(7, self@.parent_folder));
            lemma_concat_associative(start, fields_bytes(done), fields_bytes(opt_str_records(7, self@.parent_folder)));
        }
        let ghost done = done + opt_str_records(7, self@.parent_folder);
        assert(done == self@.records());
    }

    pub fn encode_to_vec(&self) -> (r: Vec<u8>)
        ensures
            r@ == self@.encoding(),
    {
        let mut out = Vec::new();
        self.encode_into(&mut out);
        assert(out@ =~= self@.encoding());
        out
    }

    fn merge_record(&mut self, fld: &Field, d: u32) -> (r: Result<(), DecodeError>)
        ensures
            match old(self)@.merge_field(fld@, d as nat) {
                Some(m) => r is Ok && final(self)@ == m,
                None => r is Err,
            },
    {
        if fld.number == 1 {
            match wire_string(&fld.value) {
                Ok(v) => {
                    self.name = Some(v);
                    Ok(())
                },
                Err(e) => Err(e),
            }
        } else if fld.number == 2 {
            match wire_i32(&fld.value) {
                Ok(v) => {
                    self.file_type = Some(v);
                    Ok(())
                },
                Err(e) => Err(e),
            }
        } else if fld.number == 3 {
            match wire_i64(&fld.value) {
                Ok(v) => {
                    self.payload_id = Some(v);
                    Ok(())
                },
                Err(e) => Err(e),
            }
        } else if fld.number == 4 {
            match wire_i64(&fld.value) {
                Ok(v) => {
                    self.size = Some(v);
                    Ok(())
                },
                Err(e) => Err(e),
            }
        } else if fld.number == 5 {
            match wire_string(&fld.value) {
                Ok(v) => {
                    self.mime_type = Some(v);
                    Ok(())
                },
                Err(e) => Err(e),
            }
        } else if fld.number == 6 {
            match wire_i64(&fld.value) {
                Ok(v) => {
                    self.id = Some(v);
                    Ok(())
                },
                Err(e) => Err(e),
            }
        } else if fld.number == 7 {
            match wire_string(&fld.value) {
                Ok(v) => {
                    self.parent_folder = Some(v);
                    Ok(())
                },
                Err(e) => Err(e),
            }
        } else if d == 0 {
            Err(DecodeError)
        } else {
            Ok(())
        }
    }

    /// Merges every record of `bytes` into this message.
    pub fn merge_from(&mut self, bytes: &[u8], d: u32) -> (r: Result<(), DecodeError>)
        ensures
            match old(self)@.merge_bytes(bytes@, d as nat) {
                Some(m) => r is Ok && final(self)@ == m,
                None => r is Err,
            },
    {
        let fields = match read_fields(bytes, d) {
            Some(fs) => fs,
            None => return Err(DecodeError),
        };
        let ghost fs = fields_view(fields@);
        let mut i: usize = 0;
        assert(fs.skip(0) =~= fs);
        while i < fields.len()
            invariant
                i <= fields@.len(),
                fs == fields_view(fields@),
                parse_fields(bytes@, d as nat) == Some(fs),
                old(self)@.merge_all(fs, d as nat) == self@.merge_all(fs.skip(i as int), d as nat),
            decreases fields@.len() - i,
        {
            let ghost before = self@;
            assert(fs.skip(i as int)[0] == fields@[i as int]@);
            match self.merge_record(&fields[i], d) {
                Ok(()) => {},
                Err(e) => {
                    assert(fs.skip(i as int).len() > 0);
                    assert(before.merge_all(fs.skip(i as int), d as nat) is None);
                    return Err(e);
                },
            }
            assert(fs.skip(i as int).drop_first() =~= fs.skip(i + 1));
            i = i + 1;
        }
        assert(fs.skip(i as int) =~= Seq::<FieldModel>::empty());
        Ok(())
    }

    /// Decodes a message, ignoring unknown fields.
    pub fn decode(bytes: &[u8]) -> (r: Result<Self, DecodeError>)
        ensures
            match FileMetadataModel::decoded(bytes@) {
                Some(m) => r matches Ok(x) && x@ == m,
                None => r is Err,
            },
    {
        let mut m = Self::empty();
        match m.merge_from(bytes, RECURSION_BUDGET) {
            Ok(()) => Ok(m),
            Err(e) => Err(e),
        }
    }
}

// --- TextMetadata ---

/// Description of one offered text.
#[derive(Clone, Debug, Default, PartialEq)]
pub struct TextMetadata {
    pub text_title: Option<String>,
    pub text_type: Option<i32>,
    pub payload_id: Option<i64>,
    pub size: Option<i64>,
    pub id: Option<i64>,
    pub is_sensitive_text: Option<bool>,
}

/// The value of a [`TextMetadata`].
#[verifier::ext_equal]
pub struct TextMetadataModel {
    pub text_title: Option<Seq<char>>,
    pub text_type: Option<i32>,
    pub payload_id: Option<i64>,
    pub size: Option<i64>,
    pub id: Option<i64>,
    pub is_sensitive_text: Option<bool>,
}

impl View for TextMetadata {
    type V = TextMetadataModel;

    open spec fn view(&self) -> TextMetadataModel {
        TextMetadataModel {
            text_title: opt_str_view(self.text_title),
            text_type: self.text_type,
            payload_id: self.payload_id,
            size: self.size,
            id: self.id,
            is_sensitive_text: self.is_sensitive_text,
        }
    }
}

impl TextMetadataModel {
    /// The message with no field set.
    pub open spec fn empty() -> Self {
        TextMetadataModel {
            text_title: None,
            text_type: None,
            payload_id: None,
            size: None,
            id: None,
            is_sensitive_text: None,
        }
    }

    /// The records this message encodes to, in field-number order.
    pub open spec fn records(self) -> Seq<FieldModel> {
        opt_str_records(2, self.text_title)
            + opt_i32_records(3, self.text_type)
            + opt_i64_records(4, self.payload_id)
            + opt_i64_records(5, self.size)
            + opt_i64_records(6, self.id)
            + opt_bool_records(7, self.is_sensitive_text)
    }

    pub open spec fn encoding(self) -> Seq<u8> {
        fields_bytes(self.records())
    }

    /// Every length fits the wire format, here and in every embedded message.
    pub open spec fn wf(self) -> bool {
        &&& all_encodable(self.records())
    }

    /// The message after one more record is merged into it: a scalar, string
    /// or bytes field takes the new value, an embedded message merges the new
    /// one into itself, and a repeated field appends.
    pub open spec fn merge_field(self, fld: FieldModel, d: nat) -> Option<Self> {
        if fld.number == 2 {
            match string_of(fld.value) {
                Some(c) => Some(TextMetadataModel { text_title: Some(c), ..self }),
                None => None,
            }
        } else if fld.number == 3 {
            match varint_of(fld.value) {
                Some(v) => Some(TextMetadataModel { text_type: Some(v as i32), ..self }),
                None => None,
            }
        } else if fld.number == 4 {
            match varint_of(fld.value) {
                Some(v) => Some(TextMetadataModel { payload_id: Some(v as i64), ..self }),
                None => None,
            }
        } else if fld.number == 5 {
            match varint_of(fld.value) {
                Some(v) => Some(TextMetadataModel { size: Some(v as i64), ..self }),
                None => None,
            }
        } else if fld.number == 6 {
            match varint_of(fld.value) {
                Some(v) => Some(TextMetadataModel { id: Some(v as i64), ..self }),
                None => None,
            }
        } else if fld.number == 7 {
            match varint_of(fld.value) {
                Some(v) => Some(TextMetadataModel { is_sensitive_text: Some(v != 0), ..self }),
                None => None,
            }
        } else if d == 0 {
            None
        } else {
            Some(self)
        }
    }

    pub open spec fn merge_all(self, fs: Seq<FieldModel>, d: nat) -> Option<Self>
        decreases fs.len(),
    {
        if fs.len() == 0 {
            Some(self)
        } else {
            match self.merge_field(fs[0], d) {
                Some(m) => m.merge_all(fs.drop_first(), d),
                None => None,
            }
        }
    }

    /// The message after every record of `s` is merged into it.
    pub open spec fn merge_bytes(self, s: Seq<u8>, d: nat) -> Option<Self> {
        match parse_fields(s, d) {
            Some(fs) => self.merge_all(fs, d),
            None => None,
        }
    }

    /// The message that `s` encodes, if it is a well-formed encoding.
    pub open spec fn decoded(s: Seq<u8>) -> Option<Self> {
        Self::empty().merge_bytes(s, RECURSION_BUDGET as nat)
    }

    pub proof fn lemma_merge_all_append(self, a: Seq<FieldModel>, b: Seq<FieldModel>, d: nat)
        ensures
            self.merge_all(a + b, d) == match self.merge_all(a, d) {
                Some(m) => m.merge_all(b, d),
                None => None,
            },
        decreases a.len(),
    {
        if a.len() == 0 {
            assert(a + b =~= b);
        } else {
            assert((a + b).drop_first() =~= a.drop_first() + b);
            assert((a + b)[0] == a[0]);
            if let Some(m) = self.merge_field(a[0], d) {
                m.lemma_merge_all_append(a.drop_first(), b, d);
            }
        }
    }

    /// Decoding the encoding of a message gives the message back.
    #[verifier::spinoff_prover]
    #[verifier::rlimit(40)]
    pub proof fn lemma_round_trip(self, d: nat)
        requires
            self.wf(),
            d >= 0,
        ensures
            Self::empty().merge_bytes(self.encoding(), d) == Some(self),
    {
        lemma_parse_fields_bytes(self.records(), d);
        reveal_with_fuel(TextMetadataModel::merge_all, 2);
        let s0 = TextMetadataModel::empty();
        let s1 = TextMetadataModel { text_title: self.text_title, ..s0 };
        if let Some(x) = self.text_title {
            lemma_string_round_trip(x);
        }
        assert(s0.merge_all(opt_str_records(2, self.text_title), d) == Some(s1));
        let s2 = TextMetadataModel { text_type: self.text_type, ..s1 };
        if let Some(x) = self.text_type {
            lemma_i32_round_trip(x);
        }
        assert(s1.merge_all(opt_i32_records(3, self.text_type), d) == Some(s2));
        let s3 = TextMetadataModel { payload_id: self.payload_id, ..s2 };
        if let Some(x) = self.payload_id {
            lemma_i64_round_trip(x);
        }
        assert(s2.merge_all(opt_i64_records(4, self.payload_id), d) == Some(s3));
        let s4 = TextMetadataModel { size: self.size, ..s3 };
        if let Some(x) = self.size {
            lemma_i64_round_trip(x);
        }
        assert(s3.merge_all(opt_i64_records(5, self.size), d) == Some(s4));
        let s5 = TextMetadataModel { id: self.id, ..s4 };
        if let Some(x) = self.id {
            lemma_i64_round_trip(x);
        }
        assert(s4.merge_all(opt_i64_records(6, self.id), d) == Some(s5));
        let s6 = TextMetadataModel { is_sensitive_text: self.is_sensitive_text, ..s5 };
        assert(s5.merge_all(opt_bool_records(7, self.is_sensitive_text), d) == Some(s6));
        s0.lemma_merge_all_append(opt_str_records(2, self.text_title), opt_i32_records(3, self.text_type), d);
        s0.lemma_merge_all_append(opt_str_records(2, self.text_title) + opt_i32_records(3, self.text_type), opt_i64_records(4, self.payload_id), d);
        s0.lemma_merge_all_append(opt_str_records(2, self.text_title) + opt_i32_records(3, self.text_type) + opt_i64_records(4, self.payload_id), opt_i64_records(5, self.size), d);
        s0.lemma_merge_all_append(opt_str_records(2, self.text_title) + opt_i32_records(3, self.text_type) + opt_i64_records(4, self.payload_id) + opt_i64_records(5, self.size), opt_i64_records(6, self.id), d);
        s0.lemma_merge_all_append(opt_str_records(2, self.text_title) + opt_i32_records(3, self.text_type) + opt_i64_records(4, self.payload_id) + opt_i64_records(5, self.size) + opt_i64_records(6, self.id), opt_bool_records(7, self.is_sensitive_text), d);
        assert(s6 =~= self);
    }
}

impl TextMetadata {
    /// The message with no field set.
    pub fn empty() -> (r: Self)
        ensures
            r@ == TextMetadataModel::empty(),
    {
        let r = TextMetadata {
            text_title: None,
            text_type: None,
            payload_id: None,
            size: None,
            id: None,
            is_sensitive_text: None,
        };
        assert(r@ =~= TextMetadataModel::empty());
        r
    }

    /// Appends the encoding of this message.
    #[verifier::spinoff_prover]
    #[verifier::rlimit(40)]
    pub fn encode_into(&self, out: &mut Vec<u8>)
        ensures
            final(out)@ == old(out)@ + self@.encoding(),
    {
        let ghost start = out@;
        put_opt_str(out, 2, &self.text_title);
        let ghost done = opt_str_records(2, self@.text_title);
        let ghost mid = out@;
        put_opt_i32(out, 3, self.text_type);
        proof {
            lemma_fields_bytes_append(done, opt_i32_records(3, self@.text_type));
            lemma_concat_associative(start, fields_bytes(done), fields_bytes(opt_i32_records(3, self@.text_type)));
        }
        let ghost done = done + opt_i32_records(3, self@.text_type);
        let ghost mid = out@;
        put_opt_i64(out, 4, self.payload_id);
        proof {
            lemma_fields_bytes_append(done, opt_i64_records(4, self@.payload_id));
            lemma_concat_associative(start, fields_bytes(done), fields_bytes(opt_i64_records(4, self@.payload_id)));
        }
        let ghost done = done + opt_i64_records(4, self@.payload_id);
        let ghost mid = out@;
        put_opt_i64(out, 5, self.size);
        proof {
            lemma_fields_bytes_append(done, opt_i64_records(5, self@.size));
            lemma_concat_associative(start, fields_bytes(done), fields_bytes(opt_i64_records(5, self@.size)));
        }
        let ghost done = done + opt_i64_records(5, self@.size);
        let ghost mid = out@;
        put_opt_i64(out, 6, self.id);
        proof {
            lemma_fields_bytes_append(done, opt_i64_records(6, self@.id));
            lemma_concat_associative(start, fields_bytes(done), fields_bytes(opt_i64_records(6, self@.id)));
        }
        let ghost done = done + opt_i64_records(6, self@.id);
        let ghost mid = out@;
        put_opt_bool(out, 7, self.is_sensitive_text);
        proof {
            lemma_fields_bytes_append(done, opt_bool_records(7, self@.is_sensitive_text));
            lemma_concat_associative(start, fields_bytes(done), fields_bytes(opt_bool_records(7, self@.is_sensitive_text)));
        }
        let ghost done = done + opt_bool_records(7, self@.is_sensitive_text);
        assert(done == self@.records());
    }

    pub fn encode_to_vec(&self) -> (r: Vec<u8>)
        ensures
            r@ == self@.encoding(),
    {
        let mut out = Vec::new();
        self.encode_into(&mut out);
        assert(out@ =~= self@.encoding());
        out
    }

    fn merge_record(&mut self, fld: &Field, d: u32) -> (r: Result<(), DecodeError>)
        ensures
            match old(self)@.merge_field(fld@, d as nat) {
                Some(m) => r is Ok && final(self)@ == m,
                None => r is Err,
            },
    {
        if fld.number == 2 {
            match wire_string(&fld.value) {
                Ok(v) => {
                    self.text_title = Some(v);
                    Ok(())
                },
                Err(e) => Err(e),
            }
        } else if fld.number == 3 {
            match wire_i32(&fld.value) {
                Ok(v) => {
                    self.text_type = Some(v);
                    Ok(())
                },
                Err(e) => Err(e),
            }
        } else if fld.number == 4 {
            match wire_i64(&fld.value) {
                Ok(v) => {
                    self.payload_id = Some(v);
                    Ok(())
                },
                Err(e) => Err(e),
            }
        } else if fld.number == 5 {
            match wire_i64(&fld.value) {
                Ok(v) => {
                    self.size = Some(v);
                    Ok(())
                },
                Err(e) => Err(e),
            }
        } else if fld.number == 6 {
            match wire_i64(&fld.value) {
                Ok(v) => {
                    self.id = Some(v);
                    Ok(())
                },
                Err(e) => Err(e),
            }
        } else if fld.number == 7 {
            match wire_bool(&fld.value) {
                Ok(v) => {
                    self.is_sensitive_text = Some(v);
                    Ok(())
                },
                Err(e) => Err(e),
            }
        } else if d == 0 {
            Err(DecodeError)
        } else {
            Ok(())
        }
    }

    /// Merges every record of `bytes` into this message.
    pub fn merge_from(&mut self, bytes: &[u8], d: u32) -> (r: Result<(), DecodeError>)
        ensures
            match old(self)@.merge_bytes(bytes@, d as nat) {
                Some(m) => r is Ok && final(self)@ == m,
                None => r is Err,
            },
    {
        let fields = match read_fields(bytes, d) {
            Some(fs) => fs,
            None => return Err(DecodeError),
        };
        let ghost fs = fields_view(fields@);
        let mut i: usize = 0;
        assert(fs.skip(0) =~= fs);
        while i < fields.len()
            invariant
                i <= fields@.len(),
                fs == fields_view(fields@),
                parse_fields(bytes@, d as nat) == Some(fs),
                old(self)@.merge_all(fs, d as nat) == self@.merge_all(fs.skip(i as int), d as nat),
            decreases fields@.len() - i,
        {
            let ghost before = self@;
            assert(fs.skip(i as int)[0] == fields@[i as int]@);
            match self.merge_record(&fields[i], d) {
                Ok(()) => {},
                Err(e) => {
                    assert(fs.skip(i as int).len() > 0);
                    assert(before.merge_all(fs.skip(i as int), d as nat) is None);
                    return Err(e);
                },
            }
            assert(fs.skip(i as int).drop_first() =~= fs.skip(i + 1));
            i = i + 1;
        }
        assert(fs.skip(i as int) =~= Seq::<FieldModel>::empty());
        Ok(())
    }

    /// Decodes a message, ignoring unknown fields.
    pub fn decode(bytes: &[u8]) -> (r: Result<Self, DecodeError>)
        ensures
            match TextMetadataModel::decoded(bytes@) {
                Some(m) => r matches Ok(x) && x@ == m,
                None => r is Err,
            },
    {
        let mut m = Self::empty();
        match m.merge_from(bytes, RECURSION_BUDGET) {
            Ok(()) => Ok(m),
            Err(e) => Err(e),
        }
    }
}

// --- SharingConnectionResponse ---

/// The receiver's answer to an introduction.
#[derive(Clone, Debug, Default, PartialEq)]
pub struct SharingConnectionResponse {
    pub status: Option<i32>,
}

/// The value of a [`SharingConnectionResponse`].
#[verifier::ext_equal]
pub struct SharingConnectionResponseModel {
    pub status: Option<i32>,
}

impl View for SharingConnectionResponse {
    type V = SharingConnectionResponseModel;

    open spec fn view(&self) -> SharingConnectionResponseModel {
        SharingConnectionResponseModel {
            status: self.status,
        }
    }
}

impl SharingConnectionResponseModel {
    /// The message with no field set.
    pub open spec fn empty() -> Self {
        SharingConnectionResponseModel {
            status: None,
        }
    }

    /// The records this message encodes to, in field-number order.
    pub open spec fn records(self) -> Seq<FieldModel> {
        opt_i32_records(1, self.status)
    }

    pub open spec fn encoding(self) -> Seq<u8> {
        fields_bytes(self.records())
    }

    /// Every length fits the wire format, here and in every embedded message.
    pub open spec fn wf(self) -> bool {
        &&& all_encodable(self.records())
    }

    /// The message after one more record is merged into it: a scalar, string
    /// or bytes field takes the new value, an embedded message merges the new
    /// one into itself, and a repeated field appends.
    pub open spec fn merge_field(self, fld: FieldModel, d: nat) -> Option<Self> {
        if fld.number == 1 {
            match varint_of(fld.value) {
                Some(v) => Some(SharingConnectionResponseModel { status: Some(v as i32), ..self }),
                None => None,
            }
        } else if d == 0 {
            None
        } else {
            Some(self)
        }
    }

    pub open spec fn merge_all(self, fs: Seq<FieldModel>, d: nat) -> Option<Self>
        decreases fs.len(),
    {
        if fs.len() == 0 {
            Some(self)
        } else {
            match self.merge_field(fs[0], d) {
                Some(m) => m.merge_all(fs.drop_first(), d),
                None => None,
            }
        }
    }

    /// The message after every record of `s` is merged into it.
    pub open spec fn merge_bytes(self, s: Seq<u8>, d: nat) -> Option<Self> {
        match parse_fields(s, d) {
            Some(fs) => self.merge_all(fs, d),
            None => None,
        }
    }

    /// The message that `s` encodes, if it is a well-formed encoding.
    pub open spec fn decoded(s: Seq<u8>) -> Option<Self> {
        Self::empty().merge_bytes(s, RECURSION_BUDGET as nat)
    }

    pub proof fn lemma_merge_all_append(self, a: Seq<FieldModel>, b: Seq<FieldModel>, d: nat)
        ensures
            self.merge_all(a + b, d) == match self.merge_all(a, d) {
                Some(m) => m.merge_all(b, d),
                None => None,
            },
        decreases a.len(),
    {
        if a.len() == 0 {
            assert(a + b =~= b);
        } else {
            assert((a + b).drop_first() =~= a.drop_first() + b);
            assert((a + b)[0] == a[0]);
            if let Some(m) = self.merge_field(a[0], d) {
                m.lemma_merge_all_append(a.drop_first(), b, d);
            }
        }
    }

    /// Decoding the encoding of a message gives the message back.
    #[verifier::spinoff_prover]
    #[verifier::rlimit(40)]
    pub proof fn lemma_round_trip(self, d: nat)
        requires
            self.wf(),
            d >= 0,
        ensures
            Self::empty().merge_bytes(self.encoding(), d) == Some(self),
    {
        lemma_parse_fields_bytes(self.records(), d);
        reveal_with_fuel(SharingConnectionResponseModel::merge_all, 2);
        let s0 = SharingConnectionResponseModel::empty();
        let s1 = SharingConnectionResponseModel { status: self.status, ..s0 };
        if let Some(x) = self.status {
            lemma_i32_round_trip(x);
        }
        assert(s0.merge_all(opt_i32_records(1, self.status), d) == Some(s1));
        assert(s1 =~= self);
    }
}

impl SharingConnectionResponse {
    /// The message with no field set.
    pub fn empty() -> (r: Self)
        ensures
            r@ == SharingConnectionResponseModel::empty(),
    {
        let r = SharingConnectionResponse {
            status: None,
        };
        assert(r@ =~= SharingConnectionResponseModel::empty());
        r
    }

    /// Appends the encoding of this message.
    #[verifier::spinoff_prover]
    #[verifier::rlimit(40)]
    pub fn encode_into(&self, out: &mut Vec<u8>)
        ensures
            final(out)@ == old(out)@ + self@.encoding(),
    {
        let ghost start = out@;
        put_opt_i32(out, 1, self.status);
        let ghost done = opt_i32_records(1, self@.status);
        assert(done == self@.records());
    }

    pub fn encode_to_vec(&self) -> (r: Vec<u8>)
        ensures
            r@ == self@.encoding(),
    {
        let mut out = Vec::new();
        self.encode_into(&mut out);
        assert(out@ =~= self@.encoding());
        out
    }

    fn merge_record(&mut self, fld: &Field, d: u32) -> (r: Result<(), DecodeError>)
        ensures
            match old(self)@.merge_field(fld@, d as nat) {
                Some(m) => r is Ok && final(self)@ == m,
                None => r is Err,
            },
    {
        if fld.number == 1 {
            match wire_i32(&fld.value) {
                Ok(v) => {
                    self.status = Some(v);
                    Ok(())
                },
                Err(e) => Err(e),
            }
        } else if d == 0 {
            Err(DecodeError)
        } else {
            Ok(())
        }
    }

    /// Merges every record of `bytes` into this message.
    pub fn merge_from(&mut self, bytes: &[u8], d: u32) -> (r: Result<(), DecodeError>)
        ensures
            match old(self)@.merge_bytes(bytes@, d as nat) {
                Some(m) => r is Ok && final(self)@ == m,
                None => r is Err,
            },
    {
        let fields = match read_fields(bytes, d) {
            Some(fs) => fs,
            None => return Err(DecodeError),
        };
        let ghost fs = fields_view(fields@);
        let mut i: usize = 0;
        assert(fs.skip(0) =~= fs);
        while i < fields.len()
            invariant
                i <= fields@.len(),
                fs == fields_view(fields@),
                parse_fields(bytes@, d as nat) == Some(fs),
                old(self)@.merge_all(fs, d as nat) == self@.merge_all(fs.skip(i as int), d as nat),
            decreases fields@.len() - i,
        {
            let ghost before = self@;
            assert(fs.skip(i as int)[0] == fields@[i as int]@);
            match self.merge_record(&fields[i], d) {
                Ok(()) => {},
                Err(e) => {
                    assert(fs.skip(i as int).len() > 0);
                    assert(before.merge_all(fs.skip(i as int), d as nat) is None);
                    return Err(e);
                },
            }
            assert(fs.skip(i as int).drop_first() =~= fs.skip(i + 1));
            i = i + 1;
        }
        assert(fs.skip(i as int) =~= Seq::<FieldModel>::empty());
        Ok(())
    }

    /// Decodes a message, ignoring unknown fields.
    pub fn decode(bytes: &[u8]) -> (r: Result<Self, DecodeError>)
        ensures
            match SharingConnectionResponseModel::decoded(bytes@) {
                Some(m) => r matches Ok(x) && x@ == m,
                None => r is Err,
            },
    {
        let mut m = Self::empty();
        match m.merge_from(bytes, RECURSION_BUDGET) {
            Ok(()) => Ok(m),
            Err(e) => Err(e),
        }
    }
}

// --- SharingPairedKeyEncryption ---

/// Paired-key material exchanged after the handshake.
#[derive(Clone, Debug, Default, PartialEq)]
pub struct SharingPairedKeyEncryption {
    pub signed_data: Option<Vec<u8>>,
    pub secret_id_hash: Option<Vec<u8>>,
    pub optional_signed_data: Option<Vec<u8>>,
    pub qr_code_handshake_data: Option<Vec<u8>>,
}

/// The value of a [`SharingPairedKeyEncryption`].
#[verifier::ext_equal]
pub struct SharingPairedKeyEncryptionModel {
    pub signed_data: Option<Seq<u8>>,
    pub secret_id_hash: Option<Seq<u8>>,
    pub optional_signed_data: Option<Seq<u8>>,
    pub qr_code_handshake_data: Option<Seq<u8>>,
}

impl View for SharingPairedKeyEncryption {
    type V = SharingPairedKeyEncryptionModel;

    open spec fn view(&self) -> SharingPairedKeyEncryptionModel {
        SharingPairedKeyEncryptionModel {
            signed_data: opt_bytes_view(self.signed_data),
            secret_id_hash: opt_bytes_view(self.secret_id_hash),
            optional_signed_data: opt_bytes_view(self.optional_signed_data),
            qr_code_handshake_data: opt_bytes_view(self.qr_code_handshake_data),
        }
    }
}

impl SharingPairedKeyEncryptionModel {
    /// The message with no field set.
    pub open spec fn empty() -> Self {
        SharingPairedKeyEncryptionModel {
            signed_data: None,
            secret_id_hash: None,
            optional_signed_data: None,
            qr_code_handshake_data: None,
        }
    }

    /// The records this message encodes to, in field-number order.
    pub open spec fn records(self) -> Seq<FieldModel> {
        opt_bytes_records(1, self.signed_data)
            + opt_bytes_records(2, self.secret_id_hash)
            + opt_bytes_records(3, self.optional_signed_data)
            + opt_bytes_records(4, self.qr_code_handshake_data)
    }

    pub open spec fn encoding(self) -> Seq<u8> {
        fields_bytes(self.records())
    }

    /// Every length fits the wire format, here and in every embedded message.
    pub open spec fn wf(self) -> bool {
        &&& all_encodable(self.records())
    }

    /// The message after one more record is merged into it: a scalar, string
    /// or bytes field takes the new value, an embedded message merges the new
    /// one into itself, and a repeated field appends.
    pub open spec fn merge_field(self, fld: FieldModel, d: nat) -> Option<Self> {
        if fld.number == 1 {
            match payload_of(fld.value) {
                Some(b) => Some(SharingPairedKeyEncryptionModel { signed_data: Some(b), ..self }),
                None => None,
            }
        } else if fld.number == 2 {
            match payload_of(fld.value) {
                Some(b) => Some(SharingPairedKeyEncryptionModel { secret_id_hash: Some(b), ..self }),
                None => None,
            }
        } else if fld.number == 3 {
            match payload_of(fld.value) {
                Some(b) => Some(SharingPairedKeyEncryptionModel { optional_signed_data: Some(b), ..self }),
                None => None,
            }
        } else if fld.number == 4 {
            match payload_of(fld.value) {
                Some(b) => Some(SharingPairedKeyEncryptionModel { qr_code_handshake_data: Some(b), ..self }),
                None => None,
            }
        } else if d == 0 {
            None
        } else {
            Some(self)
        }
    }

    pub open spec fn merge_all(self, fs: Seq<FieldModel>, d: nat) -> Option<Self>
        decreases fs.len(),
    {
        if fs.len() == 0 {
            Some(self)
        } else {
            match self.merge_field(fs[0], d) {
                Some(m) => m.merge_all(fs.drop_first(), d),
                None => None,
            }
        }
    }

    /// The message after every record of `s` is merged into it.
    pub open spec fn merge_bytes(self, s: Seq<u8>, d: nat) -> Option<Self> {
        match parse_fields(s, d) {
            Some(fs) => self.merge_all(fs, d),
            None => None,
        }
    }

    /// The message that `s` encodes, if it is a well-formed encoding.
    pub open spec fn decoded(s: Seq<u8>) -> Option<Self> {
        Self::empty().merge_bytes(s, RECURSION_BUDGET as nat)
    }

    pub proof fn lemma_merge_all_append(self, a: Seq<FieldModel>, b: Seq<FieldModel>, d: nat)
        ensures
            self.merge_all(a + b, d) == match self.merge_all(a, d) {
                Some(m) => m.merge_all(b, d),
                None => None,
            },
        decreases a.len(),
    {
        if a.len() == 0 {
            assert(a + b =~= b);
        } else {
            assert((a + b).drop_first() =~= a.drop_first() + b);
            assert((a + b)[0] == a[0]);
            if let Some(m) = self.merge_field(a[0], d) {
                m.lemma_merge_all_append(a.drop_first(), b, d);
            }
        }
    }

    /// Decoding the encoding of a message gives the message back.
    #[verifier::spinoff_prover]
    #[verifier::rlimit(40)]
    pub proof fn lemma_round_trip(self, d: nat)
        requires
            self.wf(),
            d >= 0,
        ensures
            Self::empty().merge_bytes(self.encoding(), d) == Some(self),
    {
        lemma_parse_fields_bytes(self.records(), d);
        reveal_with_fuel(SharingPairedKeyEncryptionModel::merge_all, 2);
        let s0 = SharingPairedKeyEncryptionModel::empty();
        let s1 = SharingPairedKeyEncryptionModel { signed_data: self.signed_data, ..s0 };
        assert(s0.merge_all(opt_bytes_records(1, self.signed_data), d) == Some(s1));
        let s2 = SharingPairedKeyEncryptionModel { secret_id_hash: self.secret_id_hash, ..s1 };
        assert(s1.merge_all(opt_bytes_records(2, self.secret_id_hash), d) == Some(s2));
        let s3 = SharingPairedKeyEncryptionModel { optional_signed_data: self.optional_signed_data, ..s2 };
        assert(s2.merge_all(opt_bytes_records(3, self.optional_signed_data), d) == Some(s3));
        let s4 = SharingPairedKeyEncryptionModel { qr_code_handshake_data: self.qr_code_handshake_data, ..s3 };
        assert(s3.merge_all(opt_bytes_records(4, self.qr_code_handshake_data), d) == Some(s4));
        s0.lemma_merge_all_append(opt_bytes_records(1, self.signed_data), opt_bytes_records(2, self.secret_id_hash), d);
        s0.lemma_merge_all_append(opt_bytes_records(1, self.signed_data) + opt_bytes_records(2, self.secret_id_hash), opt_bytes_records(3, self.optional_signed_data), d);
        s0.lemma_merge_all_append(opt_bytes_records(1, self.signed_data) + opt_bytes_records(2, self.secret_id_hash) + opt_bytes_records(3, self.optional_signed_data), opt_bytes_records(4, self.qr_code_handshake_data), d);
        assert(s4 =~= self);
    }
}

impl SharingPairedKeyEncryption {
    /// The message with no field set.
    pub fn empty() -> (r: Self)
        ensures
            r@ == SharingPairedKeyEncryptionModel::empty(),
    {
        let r = SharingPairedKeyEncryption {
            signed_data: None,
            secret_id_hash: None,
            optional_signed_data: None,
            qr_code_handshake_data: None,
        };
        assert(r@ =~= SharingPairedKeyEncryptionModel::empty());
        r
    }

    /// Appends the encoding of this message.
    #[verifier::spinoff_prover]
    #[verifier::rlimit(40)]
    pub fn encode_into(&self, out: &mut Vec<u8>)
        ensures
            final(out)@ == old(out)@ + self@.encoding(),
    {
        let ghost start = out@;
        put_opt_bytes(out, 1, &self.signed_data);
        let ghost done = opt_bytes_records(1, self@.signed_data);
        let ghost mid = out@;
        put_opt_bytes(out, 2, &self.secret_id_hash);
        proof {
            lemma_fields_bytes_append(done, opt_bytes_records(2, self@.secret_id_hash));
            lemma_concat_associative(start, fields_bytes(done), fields_bytes(opt_bytes_records(2, self@.secret_id_hash)));
        }
        let ghost done = done + opt_bytes_records(2, self@.secret_id_hash);
        let ghost mid = out@;
        put_opt_bytes(out, 3, &self.optional_signed_data);
        proof {
            lemma_fields_bytes_append(done, opt_bytes_records(3, self@.optional_signed_data));
            lemma_concat_associative(start, fields_bytes(done), fields_bytes(opt_bytes_records(3, self@.optional_signed_data)));
        }
        let ghost done = done + opt_bytes_records(3, self@.optional_signed_data);
        let ghost mid = out@;
        put_opt_bytes(out, 4, &self.qr_code_handshake_data);
        proof {
            lemma_fields_bytes_append(done, opt_bytes_records(4, self@.qr_code_handshake_data));
            lemma_concat_associative(start, fields_bytes(done), fields_bytes(opt_bytes_records(4, self@.qr_code_handshake_data)));
        }
        let ghost done = done + opt_bytes_records(4, self@.qr_code_handshake_data);
        assert(done == self@.records());
    }

    pub fn encode_to_vec(&self) -> (r: Vec<u8>)
        ensures
            r@ == self@.encoding(),
    {
        let mut out = Vec::new();
        self.encode_into(&mut out);
        assert(out@ =~= self@.encoding());
        out
    }

    fn merge_record(&mut self, fld: &Field, d: u32) -> (r: Result<(), DecodeError>)
        ensures
            match old(self)@.merge_field(fld@, d as nat) {
                Some(m) => r is Ok && final(self)@ == m,
                None => r is Err,
            },
    {
        if fld.number == 1 {
            match wire_bytes(&fld.value) {
                Ok(v) => {
                    self.signed_data = Some(v);
                    Ok(())
                },
                Err(e) => Err(e),
            }
        } else if fld.number == 2 {
            match wire_bytes(&fld.value) {
                Ok(v) => {
                    self.secret_id_hash = Some(v);
                    Ok(())
                },
                Err(e) => Err(e),
            }
        } else if fld.number == 3 {
            match wire_bytes(&fld.value) {
                Ok(v) => {
                    self.optional_signed_data = Some(v);
                    Ok(())
                },
                Err(e) => Err(e),
            }
        } else if fld.number == 4 {
            match wire_bytes(&fld.value) {
                Ok(v) => {
                    self.qr_code_handshake_data = Some(v);
                    Ok(())
                },
                Err(e) => Err(e),
            }
        } else if d == 0 {
            Err(DecodeError)
        } else {
            Ok(())
        }
    }

    /// Merges every record of `bytes` into this message.
    pub fn merge_from(&mut self, bytes: &[u8], d: u32) -> (r: Result<(), DecodeError>)
        ensures
            match old(self)@.merge_bytes(bytes@, d as nat) {
                Some(m) => r is Ok && final(self)@ == m,
                None => r is Err,
            },
    {
        let fields = match read_fields(bytes, d) {
            Some(fs) => fs,
            None => return Err(DecodeError),
        };
        let ghost fs = fields_view(fields@);
        let mut i: usize = 0;
        assert(fs.skip(0) =~= fs);
        while i < fields.len()
            invariant
                i <= fields@.len(),
                fs == fields_view(fields@),
                parse_fields(bytes@, d as nat) == Some(fs),
                old(self)@.merge_all(fs, d as nat) == self@.merge_all(fs.skip(i as int), d as nat),
            decreases fields@.len() - i,
        {
            let ghost before = self@;
            assert(fs.skip(i as int)[0] == fields@[i as int]@);
            match self.merge_record(&fields[i], d) {
                Ok(()) => {},
                Err(e) => {
                    assert(fs.skip(i as int).len() > 0);
                    assert(before.merge_all(fs.skip(i as int), d as nat) is None);
                    return Err(e);
                },
            }
            assert(fs.skip(i as int).drop_first() =~= fs.skip(i + 1));
            i = i + 1;
        }
        assert(fs.skip(i as int) =~= Seq::<FieldModel>::empty());
        Ok(())
    }

    /// Decodes a message, ignoring unknown fields.
    pub fn decode(bytes: &[u8]) -> (r: Result<Self, DecodeError>)
        ensures
            match SharingPairedKeyEncryptionModel::decoded(bytes@) {
                Some(m) => r matches Ok(x) && x@ == m,
                None => r is Err,
            },
    {
        let mut m = Self::empty();
        match m.merge_from(bytes, RECURSION_BUDGET) {
            Ok(()) => Ok(m),
            Err(e) => Err(e),
        }
    }
}

// --- SharingPairedKeyResult ---

/// Outcome of the paired-key check.
#[derive(Clone, Debug, Default, PartialEq)]
pub struct SharingPairedKeyResult {
    pub status: Option<i32>,
    pub os_type: Option<i32>,
}

/// The value of a [`SharingPairedKeyResult`].
#[verifier::ext_equal]
pub struct SharingPairedKeyResultModel {
    pub status: Option<i32>,
    pub os_type: Option<i32>,
}

impl View for SharingPairedKeyResult {
    type V = SharingPairedKeyResultModel;

    open spec fn view(&self) -> SharingPairedKeyResultModel {
        SharingPairedKeyResultModel {
            status: self.status,
            os_type: self.os_type,
        }
    }
}

impl SharingPairedKeyResultModel {
    /// The message with no field set.
    pub open spec fn empty() -> Self {
        SharingPairedKeyResultModel {
            status: None,
            os_type: None,
        }
    }

    /// The records this message encodes to, in field-number order.
    pub open spec fn records(self) -> Seq<FieldModel> {
        opt_i32_records(1, self.status)
            + opt_i32_records(2, self.os_type)
    }

    pub open spec fn encoding(self) -> Seq<u8> {
        fields_bytes(self.records())
    }

    /// Every length fits the wire format, here and in every embedded message.
    pub open spec fn wf(self) -> bool {
        &&& all_encodable(self.records())
    }

    /// The message after one more record is merged into it: a scalar, string
    /// or bytes field takes the new value, an embedded message merges the new
    /// one into itself, and a repeated field appends.
    pub open spec fn merge_field(self, fld: FieldModel, d: nat) -> Option<Self> {
        if fld.number == 1 {
            match varint_of(fld.value) {
                Some(v) => Some(SharingPairedKeyResultModel { status: Some(v as i32), ..self }),
                None => None,
            }
        } else if fld.number == 2 {
            match varint_of(fld.value) {
                Some(v) => Some(SharingPairedKeyResultModel { os_type: Some(v as i32), ..self }),
                None => None,
            }
        } else if d == 0 {
            None
        } else {
            Some(self)
        }
    }

    pub open spec fn merge_all(self, fs: Seq<FieldModel>, d: nat) -> Option<Self>
        decreases fs.len(),
    {
        if fs.len() == 0 {
            Some(self)
        } else {
            match self.merge_field(fs[0], d) {
                Some(m) => m.merge_all(fs.drop_first(), d),
                None => None,
            }
        }
    }

    /// The message after every record of `s` is merged into it.
    pub open spec fn merge_bytes(self, s: Seq<u8>, d: nat) -> Option<Self> {
        match parse_fields(s, d) {
            Some(fs) => self.merge_all(fs, d),
            None => None,
        }
    }

    /// The message that `s` encodes, if it is a well-formed encoding.
    pub open spec fn decoded(s: Seq<u8>) -> Option<Self> {
        Self::empty().merge_bytes(s, RECURSION_BUDGET as nat)
    }

    pub proof fn lemma_merge_all_append(self, a: Seq<FieldModel>, b: Seq<FieldModel>, d: nat)
        ensures
            self.merge_all(a + b, d) == match self.merge_all(a, d) {
                Some(m) => m.merge_all(b, d),
                None => None,
            },
        decreases a.len(),
    {
        if a.len() == 0 {
            assert(a + b =~= b);
        } else {
            assert((a + b).drop_first() =~= a.drop_first() + b);
            assert((a + b)[0] == a[0]);
            if let Some(m) = self.merge_field(a[0], d) {
                m.lemma_merge_all_append(a.drop_first(), b, d);
            }
        }
    }

    /// Decoding the encoding of a message gives the message back.
    #[verifier::spinoff_prover]
    #[verifier::rlimit(40)]
    pub proof fn lemma_round_trip(self, d: nat)
        requires
            self.wf(),
            d >= 0,
        ensures
            Self::empty().merge_bytes(self.encoding(), d) == Some(self),
    {
        lemma_parse_fields_bytes(self.records(), d);
        reveal_with_fuel(SharingPairedKeyResultModel::merge_all, 2);
        let s0 = SharingPairedKeyResultModel::empty();
        let s1 = SharingPairedKeyResultModel { status: self.status, ..s0 };
        if let Some(x) = self.status {
            lemma_i32_round_trip(x);
        }
        assert(s0.merge_all(opt_i32_records(1, self.status), d) == Some(s1));
        let s2 = SharingPairedKeyResultModel { os_type: self.os_type, ..s1 };
        if let Some(x) = self.os_type {
            lemma_i32_round_trip(x);
        }
        assert(s1.merge_all(opt_i32_records(2, self.os_type), d) == Some(s2));
        s0.lemma_merge_all_append(opt_i32_records(1, self.status), opt_i32_records(2, self.os_type), d);
        assert(s2 =~= self);
    }
}

impl SharingPairedKeyResult {
    /// The message with no field set.
    pub fn empty() -> (r: Self)
        ensures
            r@ == SharingPairedKeyResultModel::empty(),
    {
        let r = SharingPairedKeyResult {
            status: None,
            os_type: None,
        };
        assert(r@ =~= SharingPairedKeyResultModel::empty());
        r
    }

    /// Appends the encoding of this message.
    #[verifier::spinoff_prover]
    #[verifier::rlimit(40)]
    pub fn encode_into(&self, out: &mut Vec<u8>)
        ensures
            final(out)@ == old(out)@ + self@.encoding(),
    {
        let ghost start = out@;
        put_opt_i32(out, 1, self.status);
        let ghost done = opt_i32_records(1, self@.status);
        let ghost mid = out@;
        put_opt_i32(out, 2, self.os_type);
        proof {
            lemma_fields_bytes_append(done, opt_i32_records(2, self@.os_type));
            lemma_concat_associative(start, fields_bytes(done), fields_bytes(opt_i32_records(2, self@.os_type)));
        }
        let ghost done = done + opt_i32_records(2, self@.os_type);
        assert(done == self@.records());
    }

    pub fn encode_to_vec(&self) -> (r: Vec<u8>)
        ensures
            r@ == self@.encoding(),
    {
        let mut out = Vec::new();
        self.encode_into(&mut out);
        assert(out@ =~= self@.encoding());
        out
    }

    fn merge_record(&mut self, fld: &Field, d: u32) -> (r: Result<(), DecodeError>)
        ensures
            match old(self)@.merge_field(fld@, d as nat) {
                Some(m) => r is Ok && final(self)@ == m,
                None => r is Err,
            },
    {
        if fld.number == 1 {
            match wire_i32(&fld.value) {
                Ok(v) => {
                    self.status = Some(v);
                    Ok(())
                },
                Err(e) => Err(e),
            }
        } else if fld.number == 2 {
            match wire_i32(&fld.value) {
                Ok(v) => {
                    self.os_type = Some(v);
                    Ok(())
                },
                Err(e) => Err(e),
            }
        } else if d == 0 {
            Err(DecodeError)
        } else {
            Ok(())
        }
    }

    /// Merges every record of `bytes` into this message.
    pub fn merge_from(&mut self, bytes: &[u8], d: u32) -> (r: Result<(), DecodeError>)
        ensures
            match old(self)@.merge_bytes(bytes@, d as nat) {
                Some(m) => r is Ok && final(self)@ == m,
                None => r is Err,
            },
    {
        let fields = match read_fields(bytes, d) {
            Some(fs) => fs,
            None => return Err(DecodeError),
        };
        let ghost fs = fields_view(fields@);
        let mut i: usize = 0;
        assert(fs.skip(0) =~= fs);
        while i < fields.len()
            invariant
                i <= fields@.len(),
                fs == fields_view(fields@),
                parse_fields(bytes@, d as nat) == Some(fs),
                old(self)@.merge_all(fs, d as nat) == self@.merge_all(fs.skip(i as int), d as nat),
            decreases fields@.len() - i,
        {
            let ghost before = self@;
            assert(fs.skip(i as int)[0] == fields@[i as int]@);
            match self.merge_record(&fields[i], d) {
                Ok(()) => {},
                Err(e) => {
                    assert(fs.skip(i as int).len() > 0);
                    assert(before.merge_all(fs.skip(i as int), d as nat) is None);
                    return Err(e);
                },
            }
            assert(fs.skip(i as int).drop_first() =~= fs.skip(i + 1));
            i = i + 1;
        }
        assert(fs.skip(i as int) =~= Seq::<FieldModel>::empty());
        Ok(())
    }

    /// Decodes a message, ignoring unknown fields.
    pub fn decode(bytes: &[u8]) -> (r: Result<Self, DecodeError>)
        ensures
            match SharingPairedKeyResultModel::decoded(bytes@) {
                Some(m) => r matches Ok(x) && x@ == m,
                None => r is Err,
            },
    {
        let mut m = Self::empty();
        match m.merge_from(bytes, RECURSION_BUDGET) {
            Ok(()) => Ok(m),
            Err(e) => Err(e),
        }
    }
}

// --- frame constructors ---

/// A version-1 offline frame of the given type with no other field set.
pub fn offline_v1(frame_type: OfflineFrameType) -> (r: OfflineFrame)
    ensures
        r@ == (OfflineFrameModel {
            version: Some(OfflineVersion::V1.code()),
            v1: Some(
                OfflineV1FrameModel {
                    frame_type: Some(frame_type.code()),
                    ..OfflineV1FrameModel::empty()
                },
            ),
        }),
{
    let mut v1 = OfflineV1Frame::empty();
    v1.frame_type = Some(frame_type.to_i32());
    OfflineFrame { version: Some(OfflineVersion::V1.to_i32()), v1: Some(v1) }
}

/// A version-1 sharing frame of the given type with no other field set.
pub fn sharing_v1(frame_type: SharingFrameType) -> (r: SharingFrame)
    ensures
        r@ == (SharingFrameModel {
            version: Some(SharingVersion::V1.code()),
            v1: Some(
                SharingV1FrameModel {
                    frame_type: Some(frame_type.code()),
                    ..SharingV1FrameModel::empty()
                },
            ),
        }),
{
    let mut v1 = SharingV1Frame::empty();
    v1.frame_type = Some(frame_type.to_i32());
    SharingFrame { version: Some(SharingVersion::V1.to_i32()), v1: Some(v1) }
}


} // verus!
