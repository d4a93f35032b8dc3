//! HiRodrop's Quick Share protocol core.
//!
//! The library covers the LAN advertisement and its endpoint-info record, QR
//! rendezvous, the UKEY2 handshake and the authenticated SecureMessage
//! channel, the receiver's rules for accepting and saving a transfer, and the
//! sender's rules for offering and streaming files, over the Nearby
//! Connections wire format and its length-prefixed framing. Each side of a
//! connection is a session that takes the frames read and gives the frames to
//! write; a status board keeps what the application shows.

pub mod primitives;
pub mod text;
pub mod bytes;
pub mod wire_format;
pub mod quick_share_transport;
pub mod quick_share_wire;
pub mod quick_share_crypto;
pub mod quick_share;
pub mod quick_share_qr;
pub mod quick_share_discovery;
pub mod quick_share_frames;
pub mod sealing;
pub mod quick_share_receiver;
pub mod receive_session;
pub mod quick_share_sender;
pub mod send_session;
pub mod settings;
pub mod interface_text;
pub mod status_board;

pub use quick_share::{
    QuickShareAdvertisementData, QuickShareDeviceType, QuickShareEndpointId, QuickShareError,
    QUICK_SHARE_SERVICE,
};
pub use quick_share_qr::{QuickShareQrEndpoint, QuickShareQrError, QuickShareQrSession};
pub use quick_share_receiver::{
    ConsentMode, IncomingPeer, QuickShareReceiveError, QuickShareReceiveProgress,
    QuickShareReceiverConfig, TransferOffer, TransferOfferItem, TransferSummary,
};
pub use quick_share_sender::{QuickShareSendError, QuickShareSendProgress};
pub use settings::{HirodropSettings, InterfaceLanguage};
