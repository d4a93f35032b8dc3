//! One incoming connection, from the connection request to the last payload:
//! which frame each phase waits for, what the receiver answers, and when the
//! user is asked. The caller reads each frame, hands it in, writes what comes
//! back and carries out the file actions; every decision is made here.

use vstd::prelude::*;
use vstd::utf8::encode_utf8;
use crate::quick_share_crypto::{
    client_finish_point, client_init_commitment, handshake_secret, opened_message, pin_text, sec1_uncompressed,
    server_init_message, session_keys, ukey2_auth_key, QuickShareCryptoError, SecureChannel, SessionKeysModel,
    Ukey2Responder,
};
use crate::primitives::{p256_public, p256_secret_ok, random_bytes, sha256};
use crate::quick_share_frames::{
    connection_accept_frame, connection_accept_model, keep_alive_frame, keep_alive_model,
    paired_key_encryption_frame, paired_key_encryption_model, paired_key_result_frame, paired_key_result_model,
    sharing_response_frame, sharing_response_model, offline_type_of, sharing_type_of,
};
use crate::quick_share_receiver::{
    connection_request_peer, consent_wait_reply, consent_wait_reply_spec, file_entry_ok, parse_connection_request,
    lemma_plan_sizes_fit, plan_outcome, plan_transfer, receive_step_spec, require_offline_type, require_sharing_type, sharing_step,
    sharing_step_spec, shows_file, shows_text, text_entry_ok, transfer_offer, BytesAssembler, IncomingPeer,
    QuickShareReceiveError, ReceiveAction, ReceiveActionModel, SharingStep, TransferOffer, TransferPlan,
    TransferState, TransferStateModel, started_from,
};
use crate::sealing::{seal_frame, seal_sharing, seals, seals_sharing};
use crate::text::hex_text;
use crate::quick_share_wire::{
    offline_v1, IntroductionFrame, IntroductionFrameModel, OfflineFrame, OfflineFrameModel, OfflineFrameType,
    OfflineVersion, OfflineV1FrameModel, OsType, SharingFrameType, SharingOsType, SharingResponseStatus,
};
use crate::wire_format::DecodeError;

verus! {

/// Where an incoming connection stands: the plain frame or the sharing frame
/// it waits for, the user's decision, the payloads, and how it ended.
#[derive(Clone, Copy, Debug, PartialEq, Eq, Structural)]
pub enum ReceivePhase {
    Request,
    ClientInit,
    ClientFinish,
    ConnectionResponse,
    PairedKeyEncryption,
    PairedKeyResult,
    Introduction,
    Consent,
    Accepted,
    Payloads,
    Finishing,
    Finished,
    Rejected,
    Failed,
}

/// What the caller does after a frame: the event to act on.
#[derive(Debug)]
pub enum ReceiveEvent<A> {
    /// Read the next frame.
    Continue,
    /// Ask the user about this offer, then decide.
    Offer(TransferOffer<A>),
    /// Carry out this payload action, then read the next frame unless the
    /// transfer is complete.
    Action(ReceiveAction),
}

/// The frames to write, in order, and the event.
#[derive(Debug)]
pub struct ReceiveReply<A> {
    pub write: Vec<Vec<u8>>,
    pub event: ReceiveEvent<A>,
}

/// The receiving side of one connection.
pub struct ReceiveSession<A> {
    phase: ReceivePhase,
    os_type: OsType,
    address: Option<A>,
    peer: Option<IncomingPeer<A>>,
    responder: Option<Ukey2Responder>,
    channel: Option<SecureChannel>,
    pin: String,
    fingerprint: String,
    assembler: BytesAssembler,
    introduction: Option<IntroductionFrame>,
    plan: Option<TransferPlan>,
    transfer: Option<TransferState>,
}

/// The phases in which the channel is established.
pub open spec fn has_channel(p: ReceivePhase) -> bool {
    ||| p == ReceivePhase::ConnectionResponse
    ||| p == ReceivePhase::PairedKeyEncryption
    ||| p == ReceivePhase::PairedKeyResult
    ||| p == ReceivePhase::Introduction
    ||| p == ReceivePhase::Consent
    ||| p == ReceivePhase::Accepted
    ||| p == ReceivePhase::Payloads
    ||| p == ReceivePhase::Finishing
}

/// The phases that wait for a sharing frame.
pub open spec fn awaits_sharing(p: ReceivePhase) -> bool {
    ||| p == ReceivePhase::PairedKeyEncryption
    ||| p == ReceivePhase::PairedKeyResult
    ||| p == ReceivePhase::Introduction
}

/// The phases that take a frame.
pub open spec fn takes_frame(p: ReceivePhase) -> bool {
    ||| p == ReceivePhase::Request
    ||| p == ReceivePhase::ClientInit
    ||| p == ReceivePhase::ClientFinish
    ||| p == ReceivePhase::ConnectionResponse
    ||| awaits_sharing(p)
    ||| p == ReceivePhase::Consent
    ||| p == ReceivePhase::Payloads
}

impl<A> ReceiveSession<A> {
    /// The session's parts are there for its phase.
    pub closed spec fn wf(self) -> bool {
        &&& self.assembler.wf()
        &&& self.phase == ReceivePhase::Request ==> self.address is Some
        &&& self.phase == ReceivePhase::ClientInit ==> self.peer is Some
        &&& self.phase == ReceivePhase::ClientFinish ==> self.peer is Some && self.responder is Some
        &&& has_channel(self.phase) ==> self.channel is Some
        &&& (self.phase == ReceivePhase::ConnectionResponse || awaits_sharing(self.phase)) ==> self.peer is Some
        &&& (self.phase == ReceivePhase::Consent || self.phase == ReceivePhase::Accepted) ==> self.introduction is Some
        &&& self.phase == ReceivePhase::Accepted ==> (self.plan matches Some(p) && forall|k: int|
            0 <= k < p.files@.len() ==> #[trigger] p.files@[k].size <= i64::MAX)
        &&& (self.phase == ReceivePhase::Payloads || self.phase == ReceivePhase::Finishing) ==> (self.transfer matches Some(
            t,
        ) && t.model().wf())
    }

    pub closed spec fn phase(self) -> ReceivePhase {
        self.phase
    }

    /// The operating system announced in the connection response.
    pub closed spec fn os_type(self) -> OsType {
        self.os_type
    }

    /// The sender's name (as UTF-8) and device type, once its request arrived.
    pub closed spec fn peer_name(self) -> Seq<u8> {
        encode_utf8(self.peer.unwrap().name@)
    }

    pub closed spec fn peer_type(self) -> u8 {
        self.peer.unwrap().device_type
    }

    /// The handshake state while the ClientFinish is awaited.
    pub closed spec fn commitment(self) -> Seq<u8> {
        self.responder.unwrap().commitment()
    }

    pub closed spec fn client_init(self) -> Seq<u8> {
        self.responder.unwrap().client_init()
    }

    pub closed spec fn server_init(self) -> Seq<u8> {
        self.responder.unwrap().server_init()
    }

    pub closed spec fn secret(self) -> Seq<u8> {
        self.responder.unwrap().secret()
    }

    /// The channel's keys and message counts.
    pub closed spec fn keys(self) -> SessionKeysModel {
        self.channel.unwrap().keys()
    }

    pub closed spec fn sent(self) -> i32 {
        self.channel.unwrap().sent()
    }

    pub closed spec fn received(self) -> i32 {
        self.channel.unwrap().received()
    }

    /// The verification PIN and the sender's key fingerprint.
    pub closed spec fn pin(self) -> Seq<char> {
        self.pin@
    }

    pub closed spec fn fingerprint(self) -> Seq<char> {
        self.fingerprint@
    }

    /// The unfinished byte payloads.
    pub closed spec fn buffers(self) -> Map<i64, Seq<u8>> {
        self.assembler.buffers()
    }

    /// The introduction, once it arrived.
    pub closed spec fn introduction(self) -> IntroductionFrameModel {
        self.introduction.unwrap()@
    }

    /// The plan the user accepted.
    pub closed spec fn accepted_plan(self) -> TransferPlan {
        self.plan.unwrap()
    }

    /// The payloads still expected.
    pub closed spec fn transfer(self) -> TransferStateModel {
        self.transfer.unwrap().model()
    }

    /// A session for a connection from `address`, announcing `os_type`.
    pub fn new(address: A, os_type: OsType) -> (r: Self)
        ensures
            r.wf(),
            r.phase() == ReceivePhase::Request,
            r.os_type() == os_type,
    {
        ReceiveSession {
            phase: ReceivePhase::Request,
            os_type,
            address: Some(address),
            peer: None,
            responder: None,
            channel: None,
            pin: String::new(),
            fingerprint: String::new(),
            assembler: BytesAssembler::new(),
            introduction: None,
            plan: None,
            transfer: None,
        }
    }

    /// The phase the session is in.
    pub fn current_phase(&self) -> (r: ReceivePhase)
        ensures
            r == self.phase(),
    {
        self.phase
    }

    /// The bytes received so far and the bytes announced, while the
    /// payloads arrive.
    pub fn transfer_progress(&self) -> (r: Option<(u64, u64)>)
        requires
            self.wf(),
        ensures
            (self.phase() == ReceivePhase::Payloads || self.phase() == ReceivePhase::Finishing) ==> r == Some(
                (self.transfer().received_bytes, self.transfer().total_bytes),
            ),
    {
        match &self.transfer {
            Some(t) => Some((t.received_bytes(), t.total_bytes())),
            None => None,
        }
    }

    /// Whether every payload has arrived.
    pub fn is_complete(&self) -> (r: bool)
        ensures
            r == (self.phase() == ReceivePhase::Finishing),
    {
        self.phase == ReceivePhase::Finishing
    }
}

// ---------------------------------------------------------------------------
// What each phase does with a frame.
// ---------------------------------------------------------------------------

/// A reply that writes nothing and continues.
pub open spec fn quiet<A>(rep: ReceiveReply<A>) -> bool {
    rep.write@.len() == 0 && rep.event is Continue
}

/// The connection request names the sender.
pub open spec fn request_step<A>(
    old: ReceiveSession<A>,
    raw: Seq<u8>,
    r: Result<ReceiveReply<A>, QuickShareReceiveError>,
    new: ReceiveSession<A>,
) -> bool {
    match connection_request_peer(raw) {
        Err(e) => r == Err::<ReceiveReply<A>, QuickShareReceiveError>(e) && new.phase() == ReceivePhase::Failed,
        Ok((name, device_type)) => r matches Ok(rep) && quiet(rep) && new.phase() == ReceivePhase::ClientInit
            && new.peer_name() == name && new.peer_type() == device_type,
    }
}

/// The ClientInit is answered with a ServerInit for a fresh key.
pub open spec fn client_init_step<A>(
    old: ReceiveSession<A>,
    raw: Seq<u8>,
    r: Result<ReceiveReply<A>, QuickShareReceiveError>,
    new: ReceiveSession<A>,
) -> bool {
    match client_init_commitment(raw) {
        Err(e) => r == Err::<ReceiveReply<A>, QuickShareReceiveError>(QuickShareReceiveError::Crypto(e))
            && new.phase() == ReceivePhase::Failed,
        Ok(c) => r matches Ok(rep) && rep.event is Continue && rep.write@.len() == 1 && {
            &&& new.phase() == ReceivePhase::ClientFinish
            &&& new.commitment() == c
            &&& new.client_init() == raw
            &&& new.server_init() == rep.write@[0]@
            &&& p256_secret_ok(new.secret())
            &&& exists|random: Seq<u8>| random.len() == 32 && rep.write@[0]@ == #[trigger] server_init_message(
                random,
                p256_public(new.secret()).0,
                p256_public(new.secret()).1,
            )
            &&& new.peer_name() == old.peer_name()
            &&& new.peer_type() == old.peer_type()
        },
    }
}

/// The ClientFinish completes the handshake and opens the channel.
pub open spec fn client_finish_step<A>(
    old: ReceiveSession<A>,
    raw: Seq<u8>,
    r: Result<ReceiveReply<A>, QuickShareReceiveError>,
    new: ReceiveSession<A>,
) -> bool {
    match client_finish_point(old.commitment(), raw) {
        Err(e) => r == Err::<ReceiveReply<A>, QuickShareReceiveError>(QuickShareReceiveError::Crypto(e))
            && new.phase() == ReceivePhase::Failed,
        Ok((x, y)) => r matches Ok(rep) && quiet(rep) && {
            let shared = handshake_secret(old.secret(), x, y);
            let transcript = old.client_init() + old.server_init();
            &&& new.phase() == ReceivePhase::ConnectionResponse
            &&& new.keys() == session_keys(shared, transcript, true)
            &&& new.sent() == 0
            &&& new.received() == 0
            &&& new.pin() == pin_text(ukey2_auth_key(shared, transcript))
            &&& new.fingerprint() == hex_text(sha256(sec1_uncompressed(x, y)))
            &&& new.peer_name() == old.peer_name()
            &&& new.peer_type() == old.peer_type()
        },
    }
}

/// The sender's plain connection response is answered with the receiver's,
/// followed by the paired-key encryption frame.
pub open spec fn connection_response_step<A>(
    old: ReceiveSession<A>,
    raw: Seq<u8>,
    r: Result<ReceiveReply<A>, QuickShareReceiveError>,
    new: ReceiveSession<A>,
) -> bool {
    match OfflineFrameModel::decoded(raw) {
        None => r == Err::<ReceiveReply<A>, QuickShareReceiveError>(QuickShareReceiveError::Protobuf(DecodeError))
            && new.phase() == ReceivePhase::Failed,
        Some(f) => if offline_type_of(f) != Some(OfflineFrameType::ConnectionResponse.code()) {
            r == Err::<ReceiveReply<A>, QuickShareReceiveError>(
                QuickShareReceiveError::Protocol("unexpected offline frame type"),
            ) && new.phase() == ReceivePhase::Failed
        } else if old.sent() + 2 > i32::MAX {
            r == Err::<ReceiveReply<A>, QuickShareReceiveError>(
                QuickShareReceiveError::Crypto(QuickShareCryptoError::InvalidSecureMessage),
            ) && new.phase() == ReceivePhase::Failed
        } else {
            r matches Ok(rep) && rep.event is Continue && rep.write@.len() == 3 && {
                &&& rep.write@[0]@ == connection_accept_model(old.os_type()).encoding()
                &&& exists|signed: Seq<u8>, hash: Seq<u8>| signed.len() == 72 && hash.len() == 6
                    && #[trigger] seals_sharing(
                    old.keys(),
                    old.sent() as int,
                    paired_key_encryption_model(signed, hash, None),
                    None,
                    rep.write@[1]@,
                    rep.write@[2]@,
                )
                &&& new.phase() == ReceivePhase::PairedKeyEncryption
                &&& new.keys() == old.keys()
                &&& new.sent() == old.sent() + 2
                &&& new.received() == old.received()
                &&& new.buffers() == old.buffers()
                &&& new.pin() == old.pin()
                &&& new.fingerprint() == old.fingerprint()
                &&& new.peer_name() == old.peer_name()
                &&& new.peer_type() == old.peer_type()
            }
        },
    }
}

/// What a phase that waits for a sharing frame does with the sharing frame
/// that arrived: check its type, then answer the paired-key encryption with
/// the paired-key result, take the paired-key result silently, and turn the
/// introduction into the offer.
pub open spec fn sharing_arrived<A>(
    old: ReceiveSession<A>,
    sharing: crate::quick_share_wire::SharingFrameModel,
    r: Result<ReceiveReply<A>, QuickShareReceiveError>,
    new: ReceiveSession<A>,
) -> bool {
    let expected = if old.phase() == ReceivePhase::PairedKeyEncryption {
        SharingFrameType::PairedKeyEncryption
    } else if old.phase() == ReceivePhase::PairedKeyResult {
        SharingFrameType::PairedKeyResult
    } else {
        SharingFrameType::Introduction
    };
    if sharing_type_of(sharing) != Some(expected.code()) {
        r == Err::<ReceiveReply<A>, QuickShareReceiveError>(
            QuickShareReceiveError::Protocol("unexpected sharing frame type"),
        ) && new.phase() == ReceivePhase::Failed
    } else if old.phase() == ReceivePhase::PairedKeyEncryption {
        if old.sent() + 2 > i32::MAX {
            r == Err::<ReceiveReply<A>, QuickShareReceiveError>(
                QuickShareReceiveError::Crypto(QuickShareCryptoError::InvalidSecureMessage),
            ) && new.phase() == ReceivePhase::Failed
        } else {
            r matches Ok(rep) && rep.event is Continue && rep.write@.len() == 2 && seals_sharing(
                old.keys(),
                old.sent() as int,
                paired_key_result_model(Some(SharingOsType::Macos.code())),
                None,
                rep.write@[0]@,
                rep.write@[1]@,
            ) && new.phase() == ReceivePhase::PairedKeyResult && new.sent() == old.sent() + 2
        }
    } else if old.phase() == ReceivePhase::PairedKeyResult {
        r matches Ok(rep) && quiet(rep) && new.phase() == ReceivePhase::Introduction && new.sent() == old.sent()
    } else {
        match sharing.v1.unwrap().introduction {
            None => r == Err::<ReceiveReply<A>, QuickShareReceiveError>(
                QuickShareReceiveError::Protocol("missing introduction"),
            ) && new.phase() == ReceivePhase::Failed,
            Some(intro) => if (forall|i: int| 0 <= i < intro.file_metadata.len() ==> #[trigger] file_entry_ok(
                intro.file_metadata[i],
            )) && (forall|j: int| 0 <= j < intro.text_metadata.len() ==> #[trigger] text_entry_ok(
                intro.text_metadata[j],
            )) {
                match r {
                    Ok(rep) => rep.write@.len() == 0 && new.keys() == old.keys() && (match rep.event {
                        ReceiveEvent::Offer(offer) => {
                            &&& encode_utf8(offer.peer.name@) == old.peer_name()
                            &&& offer.peer.device_type == old.peer_type()
                            &&& offer.pin@ == old.pin()
                            &&& offer.peer_fingerprint@ == old.fingerprint()
                            &&& offer.items@.len() == intro.file_metadata.len() + intro.text_metadata.len()
                            &&& forall|i: int| 0 <= i < intro.file_metadata.len() ==> #[trigger] shows_file(
                        offer.items@[i],
                        intro.file_metadata[i],
                    )
                            &&& forall|j: int| 0 <= j < intro.text_metadata.len() ==> #[trigger] shows_text(
                        offer.items@[intro.file_metadata.len() + j],
                        intro.text_metadata[j],
                    )
                            &&& new.phase() == ReceivePhase::Consent
                            &&& new.introduction() == intro
                            &&& new.sent() == old.sent()
                        },
                        _ => false,
                    }),
                    Err(_) => false,
                }
            } else {
                r == Err::<ReceiveReply<A>, QuickShareReceiveError>(QuickShareReceiveError::UnsafeMetadata)
                    && new.phase() == ReceivePhase::Failed
            },
        }
    }
}

/// A sealed frame while a sharing frame is awaited: keep-alives are
/// acknowledged, chunks are gathered, and a sharing frame that completes is
/// handled as [`sharing_arrived`] says.
pub open spec fn sharing_phase_step<A>(
    old: ReceiveSession<A>,
    raw: Seq<u8>,
    r: Result<ReceiveReply<A>, QuickShareReceiveError>,
    new: ReceiveSession<A>,
) -> bool {
    let (opened, received) = opened_message(old.keys(), old.received(), raw);
    match opened {
        Err(e) => r == Err::<ReceiveReply<A>, QuickShareReceiveError>(QuickShareReceiveError::Crypto(e))
            && new.phase() == ReceivePhase::Failed,
        Ok(frame) => {
            let (step, buffers) = sharing_step_spec(old.buffers(), frame);
            match step {
                Err(e) => r == Err::<ReceiveReply<A>, QuickShareReceiveError>(e) && new.phase() == ReceivePhase::Failed,
                Ok(None) => r matches Ok(rep) && quiet(rep) && new.phase() == old.phase() && new.sent() == old.sent()
                    && new.received() == received && new.buffers() == buffers && new.keys() == old.keys(),
                Ok(Some(Ok(sequence))) => if old.sent() == i32::MAX {
                    r == Err::<ReceiveReply<A>, QuickShareReceiveError>(
                        QuickShareReceiveError::Crypto(QuickShareCryptoError::InvalidSecureMessage),
                    ) && new.phase() == ReceivePhase::Failed
                } else {
                    r matches Ok(rep) && rep.event is Continue && rep.write@.len() == 1 && seals(
                        old.keys(),
                        old.sent() + 1,
                        keep_alive_model(true, sequence),
                        rep.write@[0]@,
                    ) && new.phase() == old.phase() && new.sent() == old.sent() + 1 && new.received() == received
                        && new.buffers() == buffers && new.keys() == old.keys()
                },
                Ok(Some(Err(sharing))) => sharing_arrived(old, sharing, r, new) && (r is Ok ==> new.received()
                    == received && new.buffers() == buffers && new.keys() == old.keys()),
            }
        },
    }
}

/// A sealed frame while the user decides: only a keep-alive that asks for an
/// acknowledgement is answered.
pub open spec fn consent_step<A>(
    old: ReceiveSession<A>,
    raw: Seq<u8>,
    r: Result<ReceiveReply<A>, QuickShareReceiveError>,
    new: ReceiveSession<A>,
) -> bool {
    let (opened, received) = opened_message(old.keys(), old.received(), raw);
    match opened {
        Err(e) => r == Err::<ReceiveReply<A>, QuickShareReceiveError>(QuickShareReceiveError::Crypto(e))
            && new.phase() == ReceivePhase::Failed,
        Ok(frame) => match consent_wait_reply_spec(frame) {
            None => r matches Ok(rep) && quiet(rep) && new.phase() == ReceivePhase::Consent && new.sent() == old.sent()
                && new.received() == received && new.keys() == old.keys(),
            Some(sequence) => if old.sent() == i32::MAX {
                r == Err::<ReceiveReply<A>, QuickShareReceiveError>(
                    QuickShareReceiveError::Crypto(QuickShareCryptoError::InvalidSecureMessage),
                ) && new.phase() == ReceivePhase::Failed
            } else {
                r matches Ok(rep) && rep.event is Continue && rep.write@.len() == 1 && seals(
                    old.keys(),
                    old.sent() + 1,
                    keep_alive_model(true, sequence),
                    rep.write@[0]@,
                ) && new.phase() == ReceivePhase::Consent && new.sent() == old.sent() + 1 && new.received() == received
                    && new.keys() == old.keys()
            },
        },
    }
}

/// A sealed frame while the payloads arrive, as [`receive_step_spec`] says;
/// keep-alives are acknowledged, and the session is finishing once nothing
/// more is expected.
pub open spec fn payload_step<A>(
    old: ReceiveSession<A>,
    raw: Seq<u8>,
    r: Result<ReceiveReply<A>, QuickShareReceiveError>,
    new: ReceiveSession<A>,
) -> bool {
    let (opened, received) = opened_message(old.keys(), old.received(), raw);
    match opened {
        Err(e) => r == Err::<ReceiveReply<A>, QuickShareReceiveError>(QuickShareReceiveError::Crypto(e))
            && new.phase() == ReceivePhase::Failed,
        Ok(frame) => {
            let (step, transfer, buffers) = receive_step_spec(old.transfer(), old.buffers(), frame);
            match step {
                Err(e) => r == Err::<ReceiveReply<A>, QuickShareReceiveError>(e) && new.phase() == ReceivePhase::Failed,
                Ok(ReceiveActionModel::AckKeepAlive(sequence)) => if old.sent() == i32::MAX {
                    r == Err::<ReceiveReply<A>, QuickShareReceiveError>(
                        QuickShareReceiveError::Crypto(QuickShareCryptoError::InvalidSecureMessage),
                    ) && new.phase() == ReceivePhase::Failed
                } else {
                    r matches Ok(rep) && rep.event is Continue && rep.write@.len() == 1 && seals(
                        old.keys(),
                        old.sent() + 1,
                        keep_alive_model(true, sequence),
                        rep.write@[0]@,
                    ) && new.phase() == ReceivePhase::Payloads && new.sent() == old.sent() + 1
                        && new.received() == received && new.transfer() == transfer && new.buffers() == buffers
                        && new.keys() == old.keys()
                },
                Ok(action) => match r {
                    Ok(rep) => rep.write@.len() == 0 && (match rep.event {
                        ReceiveEvent::Action(a) => a@ == action,
                        _ => false,
                    }) && new.transfer() == transfer && new.buffers() == buffers && new.sent() == old.sent()
                        && new.received() == received && new.keys() == old.keys() && new.phase() == (if transfer.files.is_empty()
                        && transfer.texts.is_empty() {
                        ReceivePhase::Finishing
                    } else {
                        ReceivePhase::Payloads
                    }),
                    Err(_) => false,
                },
            }
        },
    }
}

/// What a frame does in the session's phase.
pub open spec fn frame_step<A>(
    old: ReceiveSession<A>,
    raw: Seq<u8>,
    r: Result<ReceiveReply<A>, QuickShareReceiveError>,
    new: ReceiveSession<A>,
) -> bool {
    if old.phase() == ReceivePhase::Request {
        request_step(old, raw, r, new)
    } else if old.phase() == ReceivePhase::ClientInit {
        client_init_step(old, raw, r, new)
    } else if old.phase() == ReceivePhase::ClientFinish {
        client_finish_step(old, raw, r, new)
    } else if old.phase() == ReceivePhase::ConnectionResponse {
        connection_response_step(old, raw, r, new)
    } else if awaits_sharing(old.phase()) {
        sharing_phase_step(old, raw, r, new)
    } else if old.phase() == ReceivePhase::Consent {
        consent_step(old, raw, r, new)
    } else {
        payload_step(old, raw, r, new)
    }
}

/// The plain disconnection frame sent once every payload arrived.
pub open spec fn closing_frame() -> OfflineFrameModel {
    OfflineFrameModel {
        version: Some(OfflineVersion::V1.code()),
        v1: Some(OfflineV1FrameModel { frame_type: Some(OfflineFrameType::Disconnection.code()), ..OfflineV1FrameModel::empty() }),
    }
}

impl<A> ReceiveSession<A> {
    /// Takes one frame read from the connection, as [`frame_step`] says. A
    /// failed step leaves the session failed.
    pub fn take_frame(&mut self, raw: &[u8]) -> (r: Result<ReceiveReply<A>, QuickShareReceiveError>)
        requires
            old(self).wf(),
            takes_frame(old(self).phase()),
        ensures
            final(self).wf(),
            frame_step(*old(self), raw@, r, *final(self)),
            r is Err ==> final(self).phase() == ReceivePhase::Failed,
    {
        match self.phase {
            ReceivePhase::Request => self.take_request(raw),
            ReceivePhase::ClientInit => self.take_client_init(raw),
            ReceivePhase::ClientFinish => self.take_client_finish(raw),
            ReceivePhase::ConnectionResponse => self.take_connection_response(raw),
            ReceivePhase::Consent => self.take_consent_frame(raw),
            ReceivePhase::Payloads => self.take_payload_frame(raw),
            _ => self.take_sharing_frame(raw),
        }
    }

    fn fail<T>(&mut self, e: QuickShareReceiveError) -> (r: Result<T, QuickShareReceiveError>)
        requires
            old(self).assembler.wf(),
        ensures
            final(self).wf(),
            final(self).phase() == ReceivePhase::Failed,
            r == Err::<T, QuickShareReceiveError>(e),
            final(self).assembler == old(self).assembler,
    {
        self.phase = ReceivePhase::Failed;
        Err(e)
    }

    fn take_request(&mut self, raw: &[u8]) -> (r: Result<ReceiveReply<A>, QuickShareReceiveError>)
        requires
            old(self).wf(),
            old(self).phase() == ReceivePhase::Request,
        ensures
            final(self).wf(),
            request_step(*old(self), raw@, r, *final(self)),
            r is Err ==> final(self).phase() == ReceivePhase::Failed,
    {
        let address = self.address.take().unwrap();
        match parse_connection_request(raw, address) {
            Ok(peer) => {
                self.peer = Some(peer);
                self.phase = ReceivePhase::ClientInit;
                Ok(ReceiveReply { write: Vec::new(), event: ReceiveEvent::Continue })
            },
            Err(e) => self.fail(e),
        }
    }

    fn take_client_init(&mut self, raw: &[u8]) -> (r: Result<ReceiveReply<A>, QuickShareReceiveError>)
        requires
            old(self).wf(),
            old(self).phase() == ReceivePhase::ClientInit,
        ensures
            final(self).wf(),
            client_init_step(*old(self), raw@, r, *final(self)),
            r is Err ==> final(self).phase() == ReceivePhase::Failed,
    {
        match Ukey2Responder::accept_client_init(raw) {
            Ok((responder, server_init)) => {
                self.responder = Some(responder);
                self.phase = ReceivePhase::ClientFinish;
                let mut write: Vec<Vec<u8>> = Vec::new();
                write.push(server_init);
                Ok(ReceiveReply { write, event: ReceiveEvent::Continue })
            },
            Err(e) => self.fail(QuickShareReceiveError::Crypto(e)),
        }
    }

    fn take_client_finish(&mut self, raw: &[u8]) -> (r: Result<ReceiveReply<A>, QuickShareReceiveError>)
        requires
            old(self).wf(),
            old(self).phase() == ReceivePhase::ClientFinish,
        ensures
            final(self).wf(),
            client_finish_step(*old(self), raw@, r, *final(self)),
            r is Err ==> final(self).phase() == ReceivePhase::Failed,
    {
        let responder = self.responder.take().unwrap();
        match responder.complete(raw) {
            Ok((channel, pin, fingerprint)) => {
                self.channel = Some(channel);
                self.pin = pin;
                self.fingerprint = fingerprint;
                self.phase = ReceivePhase::ConnectionResponse;
                Ok(ReceiveReply { write: Vec::new(), event: ReceiveEvent::Continue })
            },
            Err(e) => self.fail(QuickShareReceiveError::Crypto(e)),
        }
    }

    #[verifier::spinoff_prover]
    #[verifier::rlimit(40)]
    fn take_connection_response(&mut self, raw: &[u8]) -> (r: Result<ReceiveReply<A>, QuickShareReceiveError>)
        requires
            old(self).wf(),
            old(self).phase() == ReceivePhase::ConnectionResponse,
        ensures
            final(self).wf(),
            connection_response_step(*old(self), raw@, r, *final(self)),
            r is Err ==> final(self).phase() == ReceivePhase::Failed,
    {
        let frame = match OfflineFrame::decode(raw) {
            Ok(f) => f,
            Err(e) => return self.fail(QuickShareReceiveError::Protobuf(e)),
        };
        match require_offline_type(&frame, OfflineFrameType::ConnectionResponse) {
            Ok(()) => {},
            Err(e) => return self.fail(e),
        }
        let accept = connection_accept_frame(self.os_type).encode_to_vec();
        let mut channel = self.channel.take().unwrap();
        let signed = random_bytes(72);
        let hash = random_bytes(6);
        let ghost signed_view = signed@;
        let ghost hash_view = hash@;
        let encryption = paired_key_encryption_frame(signed, hash, None);
        match seal_sharing(&mut channel, &encryption, None) {
            Ok((first, last)) => {
                self.channel = Some(channel);
                self.phase = ReceivePhase::PairedKeyEncryption;
                let mut write: Vec<Vec<u8>> = Vec::new();
                write.push(accept);
                write.push(first);
                write.push(last);
                proof {
                    assert(seals_sharing(
                        old(self).keys(),
                        old(self).sent() as int,
                        paired_key_encryption_model(signed_view, hash_view, None),
                        None,
                        write@[1]@,
                        write@[2]@,
                    ));
                }
                let r: Result<ReceiveReply<A>, QuickShareReceiveError> = Ok(
                    ReceiveReply { write, event: ReceiveEvent::Continue },
                );
                assert(connection_response_step(*old(self), raw@, r, *self));
                r
            },
            Err(e) => self.fail(QuickShareReceiveError::Crypto(e)),
        }
    }
}

impl<A> ReceiveSession<A> {
    fn take_sharing_frame(&mut self, raw: &[u8]) -> (r: Result<ReceiveReply<A>, QuickShareReceiveError>)
        requires
            old(self).wf(),
            awaits_sharing(old(self).phase()),
        ensures
            final(self).wf(),
            sharing_phase_step(*old(self), raw@, r, *final(self)),
            r is Err ==> final(self).phase() == ReceivePhase::Failed,
    {
        let mut channel = self.channel.take().unwrap();
        let frame = match channel.decrypt_offline_frame(raw) {
            Ok(f) => f,
            Err(e) => return self.fail(QuickShareReceiveError::Crypto(e)),
        };
        let step = match sharing_step(&mut self.assembler, &frame) {
            Ok(s) => s,
            Err(e) => return self.fail(e),
        };
        match step {
            SharingStep::Continue => {
                self.channel = Some(channel);
                Ok(ReceiveReply { write: Vec::new(), event: ReceiveEvent::Continue })
            },
            SharingStep::AckKeepAlive(sequence) => match seal_frame(&mut channel, &keep_alive_frame(true, sequence)) {
                Ok(sealed) => {
                    self.channel = Some(channel);
                    let mut write: Vec<Vec<u8>> = Vec::new();
                    write.push(sealed);
                    Ok(ReceiveReply { write, event: ReceiveEvent::Continue })
                },
                Err(e) => self.fail(QuickShareReceiveError::Crypto(e)),
            },
            SharingStep::Frame(sharing) => self.sharing_arrived(channel, sharing),
        }
    }

    fn sharing_arrived(&mut self, channel: SecureChannel, sharing: crate::quick_share_wire::SharingFrame) -> (r: Result<
        ReceiveReply<A>,
        QuickShareReceiveError,
    >)
        requires
            old(self).assembler.wf(),
            awaits_sharing(old(self).phase()),
            old(self).peer is Some,
        ensures
            final(self).wf(),
            ({
                let before = ReceiveSession { channel: Some(channel), ..*old(self) };
                &&& sharing_arrived(before, sharing@, r, *final(self))
                &&& r is Ok ==> final(self).keys() == channel.keys() && final(self).received() == channel.received()
                    && final(self).buffers() == old(self).buffers()
            }),
            r is Err ==> final(self).phase() == ReceivePhase::Failed,
    {
        let mut channel = channel;
        let expected = match self.phase {
            ReceivePhase::PairedKeyEncryption => SharingFrameType::PairedKeyEncryption,
            ReceivePhase::PairedKeyResult => SharingFrameType::PairedKeyResult,
            _ => SharingFrameType::Introduction,
        };
        match require_sharing_type(&sharing, expected) {
            Ok(()) => {},
            Err(e) => return self.fail(e),
        }
        if self.phase == ReceivePhase::PairedKeyEncryption {
            let result = paired_key_result_frame(Some(SharingOsType::Macos.to_i32()));
            match seal_sharing(&mut channel, &result, None) {
                Ok((first, last)) => {
                    self.channel = Some(channel);
                    self.phase = ReceivePhase::PairedKeyResult;
                    let mut write: Vec<Vec<u8>> = Vec::new();
                    write.push(first);
                    write.push(last);
                    Ok(ReceiveReply { write, event: ReceiveEvent::Continue })
                },
                Err(e) => self.fail(QuickShareReceiveError::Crypto(e)),
            }
        } else if self.phase == ReceivePhase::PairedKeyResult {
            self.channel = Some(channel);
            self.phase = ReceivePhase::Introduction;
            Ok(ReceiveReply { write: Vec::new(), event: ReceiveEvent::Continue })
        } else {
            let introduction = match sharing.v1 {
                Some(v1) => match v1.introduction {
                    Some(i) => i,
                    None => return self.fail(QuickShareReceiveError::Protocol("missing introduction")),
                },
                None => return self.fail(QuickShareReceiveError::Protocol("missing introduction")),
            };
            let peer = self.peer.take().unwrap();
            match transfer_offer(peer, self.pin.clone(), self.fingerprint.clone(), &introduction) {
                Ok(offer) => {
                    self.introduction = Some(introduction);
                    self.channel = Some(channel);
                    self.phase = ReceivePhase::Consent;
                    Ok(ReceiveReply { write: Vec::new(), event: ReceiveEvent::Offer(offer) })
                },
                Err(e) => self.fail(e),
            }
        }
    }

    fn take_consent_frame(&mut self, raw: &[u8]) -> (r: Result<ReceiveReply<A>, QuickShareReceiveError>)
        requires
            old(self).wf(),
            old(self).phase() == ReceivePhase::Consent,
        ensures
            final(self).wf(),
            consent_step(*old(self), raw@, r, *final(self)),
            r is Err ==> final(self).phase() == ReceivePhase::Failed,
    {
        let mut channel = self.channel.take().unwrap();
        let frame = match channel.decrypt_offline_frame(raw) {
            Ok(f) => f,
            Err(e) => return self.fail(QuickShareReceiveError::Crypto(e)),
        };
        match consent_wait_reply(&frame) {
            None => {
                self.channel = Some(channel);
                Ok(ReceiveReply { write: Vec::new(), event: ReceiveEvent::Continue })
            },
            Some(sequence) => match seal_frame(&mut channel, &keep_alive_frame(true, sequence)) {
                Ok(sealed) => {
                    self.channel = Some(channel);
                    let mut write: Vec<Vec<u8>> = Vec::new();
                    write.push(sealed);
                    Ok(ReceiveReply { write, event: ReceiveEvent::Continue })
                },
                Err(e) => self.fail(QuickShareReceiveError::Crypto(e)),
            },
        }
    }

    fn take_payload_frame(&mut self, raw: &[u8]) -> (r: Result<ReceiveReply<A>, QuickShareReceiveError>)
        requires
            old(self).wf(),
            old(self).phase() == ReceivePhase::Payloads,
        ensures
            final(self).wf(),
            payload_step(*old(self), raw@, r, *final(self)),
            r is Err ==> final(self).phase() == ReceivePhase::Failed,
    {
        let mut channel = self.channel.take().unwrap();
        let frame = match channel.decrypt_offline_frame(raw) {
            Ok(f) => f,
            Err(e) => return self.fail(QuickShareReceiveError::Crypto(e)),
        };
        let mut transfer = self.transfer.take().unwrap();
        match transfer.receive_step(&mut self.assembler, &frame) {
            Err(e) => self.fail(e),
            Ok(ReceiveAction::AckKeepAlive(sequence)) => match seal_frame(&mut channel, &keep_alive_frame(true, sequence)) {
                Ok(sealed) => {
                    self.channel = Some(channel);
                    self.transfer = Some(transfer);
                    let mut write: Vec<Vec<u8>> = Vec::new();
                    write.push(sealed);
                    Ok(ReceiveReply { write, event: ReceiveEvent::Continue })
                },
                Err(e) => self.fail(QuickShareReceiveError::Crypto(e)),
            },
            Ok(action) => {
                let done = transfer.is_done();
                self.channel = Some(channel);
                self.transfer = Some(transfer);
                self.phase = if done {
                    ReceivePhase::Finishing
                } else {
                    ReceivePhase::Payloads
                };
                Ok(ReceiveReply { write: Vec::new(), event: ReceiveEvent::Action(action) })
            },
        }
    }
}

impl<A> ReceiveSession<A> {
    /// While the user decides: a keep-alive request to send, so that the
    /// sender does not give up.
    pub fn keep_alive(&mut self) -> (r: Result<Vec<u8>, QuickShareReceiveError>)
        requires
            old(self).wf(),
            old(self).phase() == ReceivePhase::Consent,
        ensures
            final(self).wf(),
            old(self).sent() == i32::MAX ==> r == Err::<Vec<u8>, QuickShareReceiveError>(
                QuickShareReceiveError::Crypto(QuickShareCryptoError::InvalidSecureMessage),
            ) && final(self).phase() == ReceivePhase::Failed,
            old(self).sent() < i32::MAX ==> (r matches Ok(b) && seals(
                old(self).keys(),
                old(self).sent() + 1,
                keep_alive_model(false, None),
                b@,
            ) && final(self).phase() == ReceivePhase::Consent && final(self).sent() == old(self).sent() + 1
                && final(self).received() == old(self).received() && final(self).keys() == old(self).keys()),
    {
        let mut channel = self.channel.take().unwrap();
        match seal_frame(&mut channel, &keep_alive_frame(false, None)) {
            Ok(sealed) => {
                self.channel = Some(channel);
                Ok(sealed)
            },
            Err(e) => self.fail(QuickShareReceiveError::Crypto(e)),
        }
    }

    /// The user declined: the rejection to send. The transfer then ends as
    /// rejected.
    pub fn decline(&mut self) -> (r: Result<Vec<Vec<u8>>, QuickShareReceiveError>)
        requires
            old(self).wf(),
            old(self).phase() == ReceivePhase::Consent,
        ensures
            final(self).wf(),
            old(self).sent() + 2 > i32::MAX ==> r == Err::<Vec<Vec<u8>>, QuickShareReceiveError>(
                QuickShareReceiveError::Crypto(QuickShareCryptoError::InvalidSecureMessage),
            ) && final(self).phase() == ReceivePhase::Failed,
            old(self).sent() + 2 <= i32::MAX ==> (r matches Ok(w) && w@.len() == 2 && seals_sharing(
                old(self).keys(),
                old(self).sent() as int,
                sharing_response_model(SharingResponseStatus::Reject),
                None,
                w@[0]@,
                w@[1]@,
            ) && final(self).phase() == ReceivePhase::Rejected),
    {
        let mut channel = self.channel.take().unwrap();
        match seal_sharing(&mut channel, &sharing_response_frame(SharingResponseStatus::Reject), None) {
            Ok((first, last)) => {
                self.phase = ReceivePhase::Rejected;
                let mut write: Vec<Vec<u8>> = Vec::new();
                write.push(first);
                write.push(last);
                Ok(write)
            },
            Err(e) => self.fail(QuickShareReceiveError::Crypto(e)),
        }
    }

    /// The user accepted: what the transfer will save, checked against the
    /// introduction as [`plan_outcome`] says; the session keeps the same
    /// plan. Nothing is answered yet; the caller prepares the files, then
    /// calls [`Self::begin_payloads`].
    pub fn accept(&mut self) -> (r: Result<TransferPlan, QuickShareReceiveError>)
        requires
            old(self).wf(),
            old(self).phase() == ReceivePhase::Consent,
        ensures
            final(self).wf(),
            match plan_outcome(old(self).introduction()) {
                Ok((files, texts, total)) => r matches Ok(plan) && {
                    &&& plan.files@.map_values(|f: crate::quick_share_receiver::PlannedFile| f@) == files
                    &&& plan.texts@.map_values(|t: crate::quick_share_receiver::PlannedText| t@) == texts
                    &&& plan.total_bytes == total
                    &&& plan.preview_payload_ids@ == old(self).introduction().preview_payload_ids
                    &&& final(self).accepted_plan().files@.map_values(
                        |f: crate::quick_share_receiver::PlannedFile| f@,
                    ) == files
                    &&& final(self).accepted_plan().texts@.map_values(
                        |t: crate::quick_share_receiver::PlannedText| t@,
                    ) == texts
                    &&& final(self).accepted_plan().total_bytes == total
                    &&& final(self).accepted_plan().preview_payload_ids@
                        == old(self).introduction().preview_payload_ids
                    &&& final(self).phase() == ReceivePhase::Accepted
                    &&& final(self).keys() == old(self).keys()
                    &&& final(self).sent() == old(self).sent()
                    &&& final(self).received() == old(self).received()
                    &&& final(self).buffers() == old(self).buffers()
                },
                Err(e) => r == Err::<TransferPlan, QuickShareReceiveError>(e) && final(self).phase()
                    == ReceivePhase::Failed,
            },
    {
        let planned = match &self.introduction {
            Some(introduction) => plan_transfer(introduction),
            None => Err(QuickShareReceiveError::UnsafeMetadata),
        };
        let kept = match &self.introduction {
            Some(introduction) => plan_transfer(introduction),
            None => Err(QuickShareReceiveError::UnsafeMetadata),
        };
        proof {
            lemma_plan_sizes_fit(old(self).introduction());
        }
        match (planned, kept) {
            (Ok(plan), Ok(own)) => {
                proof {
                    let files = plan_outcome(old(self).introduction())->Ok_0.0;
                    assert(own.files@.map_values(|f: crate::quick_share_receiver::PlannedFile| f@) == files);
                    assert forall|k: int| 0 <= k < own.files@.len() implies #[trigger] own.files@[k].size
                        <= i64::MAX by {
                        assert(own.files@.map_values(|f: crate::quick_share_receiver::PlannedFile| f@)[k]
                            == own.files@[k]@);
                        assert(files[k].size <= i64::MAX);
                    }
                }
                self.plan = Some(own);
                self.phase = ReceivePhase::Accepted;
                Ok(plan)
            },
            (Err(e), _) => self.fail(e),
            (_, Err(e)) => self.fail(e),
        }
    }

    /// The files are ready: the acceptance to send. The payloads of the
    /// accepted plan are then expected.
    pub fn begin_payloads(&mut self) -> (r: Result<Vec<Vec<u8>>, QuickShareReceiveError>)
        requires
            old(self).wf(),
            old(self).phase() == ReceivePhase::Accepted,
        ensures
            final(self).wf(),
            old(self).sent() + 2 > i32::MAX ==> r == Err::<Vec<Vec<u8>>, QuickShareReceiveError>(
                QuickShareReceiveError::Crypto(QuickShareCryptoError::InvalidSecureMessage),
            ) && final(self).phase() == ReceivePhase::Failed,
            old(self).sent() + 2 <= i32::MAX ==> (r matches Ok(w) && w@.len() == 2 && seals_sharing(
                old(self).keys(),
                old(self).sent() as int,
                sharing_response_model(SharingResponseStatus::Accept),
                None,
                w@[0]@,
                w@[1]@,
            ) && started_from(final(self).transfer(), old(self).accepted_plan()) && final(self).buffers()
                == old(self).buffers() && final(self).keys() == old(self).keys() && final(self).sent() == old(
                self,
            ).sent() + 2 && final(self).received() == old(self).received()
                && final(self).phase() == (if final(self).transfer().files.is_empty()
                    && final(self).transfer().texts.is_empty() {
                    ReceivePhase::Finishing
                } else {
                    ReceivePhase::Payloads
                })),
    {
        let mut channel = self.channel.take().unwrap();
        match seal_sharing(&mut channel, &sharing_response_frame(SharingResponseStatus::Accept), None) {
            Ok((first, last)) => {
                let plan = self.plan.take().unwrap();
                let transfer = TransferState::from_plan(&plan);
                let done = transfer.is_done();
                self.transfer = Some(transfer);
                self.channel = Some(channel);
                self.phase = if done {
                    ReceivePhase::Finishing
                } else {
                    ReceivePhase::Payloads
                };
                let mut write: Vec<Vec<u8>> = Vec::new();
                write.push(first);
                write.push(last);
                Ok(write)
            },
            Err(e) => self.fail(QuickShareReceiveError::Crypto(e)),
        }
    }

    /// Every payload arrived: the disconnection frame to send.
    pub fn finish(&mut self) -> (r: Result<Vec<u8>, QuickShareReceiveError>)
        requires
            old(self).wf(),
            old(self).phase() == ReceivePhase::Finishing,
        ensures
            final(self).wf(),
            old(self).sent() == i32::MAX ==> r == Err::<Vec<u8>, QuickShareReceiveError>(
                QuickShareReceiveError::Crypto(QuickShareCryptoError::InvalidSecureMessage),
            ) && final(self).phase() == ReceivePhase::Failed,
            old(self).sent() < i32::MAX ==> (r matches Ok(b) && seals(old(self).keys(), old(self).sent() + 1, closing_frame(), b@)
                && final(self).phase() == ReceivePhase::Finished),
    {
        let mut channel = self.channel.take().unwrap();
        match seal_frame(&mut channel, &offline_v1(OfflineFrameType::Disconnection)) {
            Ok(sealed) => {
                self.phase = ReceivePhase::Finished;
                Ok(sealed)
            },
            Err(e) => self.fail(QuickShareReceiveError::Crypto(e)),
        }
    }
}

} // verus!
