//! One outgoing transfer, from the connection request to the receiver's
//! final confirmation: what the sender writes at each step, which answer it
//! waits for, and when the files are streamed. The caller writes what comes
//! back, reads the phone's frames and the files' bytes, and hands them in;
//! every decision is made here.

use vstd::prelude::*;
use vstd::string::StringSliceAdditionalSpecFns;
use crate::primitives::{p256_ecdsa_sign, random_bytes};
use crate::quick_share::{endpoint_id_ok, endpoint_info_bytes, name_fits, QuickShareDeviceType};
use vstd::utf8::encode_utf8;
use crate::quick_share_crypto::{
    client_finish_message, client_init_message, handshake_secret, opened_message, pin_text, server_init_point,
    session_keys, ukey2_auth_key, QuickShareCryptoError, SecureChannel, SessionKeysModel, Ukey2Initiator,
};
use crate::primitives::{p256_public, p256_secret_ok, sha512};
use crate::quick_share_frames::{
    connection_accept_frame, connection_accept_model, disconnection_frame, disconnection_model, keep_alive_frame,
    keep_alive_model, paired_key_encryption_frame, paired_key_encryption_model, paired_key_result_frame,
    paired_key_result_model, sharing_type_of,
};
use crate::quick_share_qr::QuickShareQrSession;
use crate::quick_share_receiver::{file_entry_ok, keep_alive_reply, shows_file, QuickShareReceiveError};
use crate::receive_session::{sharing_arrived, ReceiveEvent, ReceivePhase, ReceiveReply, ReceiveSession};
use crate::quick_share_sender::{
    check_connection_response, check_sharing_response, connection_request, connection_request_model,
    connection_response_outcome, file_chunk_frame, file_chunk_model, file_metadata_of, finalize_step, introduction_frame,
    introduction_model, pending_frame_step, require_sharing_type, sender_sharing_step_spec,
    sharing_response_outcome, sharing_step, finalize_read_failure, BytesAssembler, FinalizeStep, OutgoingFile, PendingStep,
    QuickShareSendError, SharingStep,
};
use crate::quick_share_wire::{
    OfflineFrame, OfflineFrameModel, OfflineFrameType, OfflineV1FrameModel, OsType, SharingFrameModel,
    SharingFrameType,
};
use crate::sealing::{seal_frame, seal_sharing, seals, seals_sharing};
use crate::wire_format::{opt_bytes_view, DecodeError};
use crate::quick_share_transport::{FrameIoError, IoErrorKind};

verus! {

/// Where an outgoing transfer stands: the answer it waits for, the file
/// stream, the wait for the receiver's confirmation, and how it ended.
#[derive(Clone, Copy, Debug, PartialEq, Eq, Structural)]
pub enum SendPhase {
    ServerInit,
    ConnectionResponse,
    PairedKeyEncryption,
    PairedKeyResult,
    Response,
    Streaming,
    Closing,
    Done,
    Failed,
}

/// The phases in which the channel is established.
pub open spec fn send_has_channel(p: SendPhase) -> bool {
    ||| p == SendPhase::ConnectionResponse
    ||| p == SendPhase::PairedKeyEncryption
    ||| p == SendPhase::PairedKeyResult
    ||| p == SendPhase::Response
    ||| p == SendPhase::Streaming
    ||| p == SendPhase::Closing
}

/// The phases that wait for one of the phone's sharing frames.
pub open spec fn awaits_phone_sharing(p: SendPhase) -> bool {
    ||| p == SendPhase::PairedKeyEncryption
    ||| p == SendPhase::PairedKeyResult
    ||| p == SendPhase::Response
}

/// The phases that take a frame read from the connection.
pub open spec fn send_takes_frame(p: SendPhase) -> bool {
    ||| p == SendPhase::ServerInit
    ||| p == SendPhase::ConnectionResponse
    ||| awaits_phone_sharing(p)
    ||| p == SendPhase::Streaming
    ||| p == SendPhase::Closing
}

/// Every file's size fits the wire's signed sizes.
pub open spec fn sizes_fit<P>(files: Seq<OutgoingFile<P>>) -> bool {
    forall|i: int| 0 <= i < files.len() ==> #[trigger] files[i].size <= i64::MAX
}

/// The sending side of one connection.
pub struct SendSession<P> {
    phase: SendPhase,
    files: Vec<OutgoingFile<P>>,
    os_type: OsType,
    qr: Option<QuickShareQrSession>,
    initiator: Option<Ukey2Initiator>,
    channel: Option<SecureChannel>,
    pin: String,
    auth_key: Vec<u8>,
    safe_version: i32,
    assembler: BytesAssembler,
    file_index: usize,
    offset: u64,
}

impl<P> SendSession<P> {
    /// The session's parts are there for its phase.
    pub closed spec fn wf(self) -> bool {
        &&& sizes_fit(self.files@)
        &&& self.phase == SendPhase::ServerInit ==> self.initiator is Some
        &&& send_has_channel(self.phase) ==> self.channel is Some
        &&& self.phase == SendPhase::ConnectionResponse ==> self.auth_key@.len() == 32
        &&& self.phase == SendPhase::Streaming ==> self.file_index <= self.files@.len() && self.offset <= i64::MAX
    }

    pub closed spec fn phase(self) -> SendPhase {
        self.phase
    }

    /// The files offered, in order.
    pub closed spec fn files(self) -> Seq<OutgoingFile<P>> {
        self.files@
    }

    /// The operating system announced in the connection accept.
    pub closed spec fn os_type(self) -> OsType {
        self.os_type
    }

    /// The QR session's secret, when the phone was found by QR code.
    pub closed spec fn qr_secret(self) -> Option<Seq<u8>> {
        match self.qr {
            Some(q) => Some(q.secret()),
            None => None,
        }
    }

    /// The handshake state while the ServerInit is awaited.
    pub closed spec fn client_init(self) -> Seq<u8> {
        self.initiator.unwrap().client_init()
    }

    pub closed spec fn client_finish(self) -> Seq<u8> {
        self.initiator.unwrap().client_finish()
    }

    pub closed spec fn secret(self) -> Seq<u8> {
        self.initiator.unwrap().secret()
    }

    /// The channel's keys and message counts.
    pub closed spec fn keys(self) -> SessionKeysModel {
        self.channel.unwrap().keys()
    }

    pub closed spec fn sent(self) -> i32 {
        self.channel.unwrap().sent()
    }

    pub closed spec fn received(self) -> i32 {
        self.channel.unwrap().received()
    }

    /// The verification PIN and the UKEY2 authentication key.
    pub closed spec fn pin(self) -> Seq<char> {
        self.pin@
    }

    pub closed spec fn auth(self) -> Seq<u8> {
        self.auth_key@
    }

    /// The phone's safe-to-disconnect version.
    pub closed spec fn safe_version(self) -> i32 {
        self.safe_version
    }

    /// The phone's unfinished byte payloads.
    pub closed spec fn buffers(self) -> Map<i64, Seq<u8>> {
        self.assembler.buffers()
    }

    /// The file being streamed and how much of it was sent.
    pub closed spec fn file_index(self) -> int {
        self.file_index as int
    }

    pub closed spec fn offset(self) -> u64 {
        self.offset
    }

    /// The phase the session is in.
    pub fn current_phase(&self) -> (r: SendPhase)
        ensures
            r == self.phase(),
    {
        self.phase
    }

    /// The verification PIN, once the handshake is complete.
    pub fn verification_pin(&self) -> (r: &str)
        ensures
            r@ == self.pin(),
    {
        self.pin.as_str()
    }

    /// The files offered.
    pub fn outgoing_files(&self) -> (r: &Vec<OutgoingFile<P>>)
        ensures
            r@ == self.files(),
    {
        &self.files
    }

    /// The file whose bytes are expected next, while files are streamed.
    pub fn current_file(&self) -> (r: Option<&OutgoingFile<P>>)
        ensures
            r matches Some(f) ==> self.phase() == SendPhase::Streaming && 0 <= self.file_index() < self.files().len()
                && *f == self.files()[self.file_index()],
            r is None ==> !(self.phase() == SendPhase::Streaming && 0 <= self.file_index() < self.files().len()),
    {
        if self.phase == SendPhase::Streaming && self.file_index < self.files.len() {
            Some(&self.files[self.file_index])
        } else {
            None
        }
    }

    fn fail<T>(&mut self, e: QuickShareSendError) -> (r: Result<T, QuickShareSendError>)
        requires
            sizes_fit(old(self).files@),
        ensures
            final(self).wf(),
            final(self).phase() == SendPhase::Failed,
            same_setup(*old(self), *final(self)),
            r == Err::<T, QuickShareSendError>(e),
    {
        self.phase = SendPhase::Failed;
        Err(e)
    }
}

/// What starting a send writes: the connection request under the display
/// name, then the ClientInit, which commits to the ClientFinish that carries
/// the session's key.
pub open spec fn start_writes<P>(display_name: Seq<u8>, w: Seq<Seq<u8>>, s: SendSession<P>) -> bool {
    &&& w.len() == 2
    &&& exists|id: Seq<char>, metadata: Seq<u8>|
        endpoint_id_ok(encode_utf8(id)) && metadata.len() == 16 && w[0] == (#[trigger] connection_request_model(
            id,
            display_name,
            endpoint_info_bytes(QuickShareDeviceType::Laptop, metadata, display_name),
        )).encoding()
    &&& w[1] == s.client_init()
    &&& p256_secret_ok(s.secret())
    &&& s.client_finish() == client_finish_message(p256_public(s.secret()).0, p256_public(s.secret()).1)
    &&& exists|random: Seq<u8>| random.len() == 32 && w[1] == #[trigger] client_init_message(
        random,
        sha512(s.client_finish()),
    )
}

impl<P> SendSession<P> {
    /// Starts sending `files` under `display_name`: the session, and the
    /// connection request and ClientInit to write. Refused when the name
    /// does not fit the wire or a file is too large for it.
    pub fn start(
        files: Vec<OutgoingFile<P>>,
        display_name: &str,
        os_type: OsType,
        qr: Option<QuickShareQrSession>,
    ) -> (r: Result<(Self, Vec<Vec<u8>>), QuickShareSendError>)
        ensures
            !name_fits(display_name.spec_bytes()) ==> (r matches Err(e) && e == QuickShareSendError::Protocol(
                "invalid desktop device name",
            )),
            name_fits(display_name.spec_bytes()) && !sizes_fit(files@) ==> (r matches Err(e) && e
                == QuickShareSendError::TransferTooLarge),
            name_fits(display_name.spec_bytes()) && sizes_fit(files@) ==> (r matches Ok((s, w)) && {
                &&& s.wf()
                &&& s.phase() == SendPhase::ServerInit
                &&& s.files() == files@
                &&& s.os_type() == os_type
                &&& s.qr_secret() == (match qr {
                    Some(q) => Some(q.secret()),
                    None => None::<Seq<u8>>,
                })
                &&& start_writes(display_name.spec_bytes(), w@.map_values(|b: Vec<u8>| b@), s)
            }),
    {
        let request = match connection_request(display_name) {
            Ok(f) => f,
            Err(e) => return Err(e),
        };
        let mut i: usize = 0;
        while i < files.len()
            invariant
                i <= files@.len(),
                name_fits(display_name.spec_bytes()),
                forall|k: int| 0 <= k < i ==> #[trigger] files@[k].size <= i64::MAX,
            decreases files@.len() - i,
        {
            if files[i].size > i64::MAX as u64 {
                return Err(QuickShareSendError::TransferTooLarge);
            }
            i = i + 1;
        }
        let (initiator, client_init) = match Ukey2Initiator::begin() {
            Ok(p) => p,
            Err(e) => return Err(QuickShareSendError::Crypto(e)),
        };
        let mut write: Vec<Vec<u8>> = Vec::new();
        write.push(request.encode_to_vec());
        write.push(client_init);
        let session = SendSession {
            phase: SendPhase::ServerInit,
            files,
            os_type,
            qr,
            initiator: Some(initiator),
            channel: None,
            pin: String::new(),
            auth_key: Vec::new(),
            safe_version: 0,
            assembler: BytesAssembler::new(),
            file_index: 0,
            offset: 0,
        };
        assert(write@.map_values(|b: Vec<u8>| b@)[0] == write@[0]@);
        assert(write@.map_values(|b: Vec<u8>| b@)[1] == write@[1]@);
        Ok((session, write))
    }
}

// ---------------------------------------------------------------------------
// What each phase does with a frame.
// ---------------------------------------------------------------------------

/// The QR handoff signature over the authentication key, when the phone was
/// found by QR code.
pub open spec fn qr_signature_of(qr_secret: Option<Seq<u8>>, auth: Seq<u8>) -> Option<Seq<u8>> {
    match qr_secret {
        Some(s) => Some(p256_ecdsa_sign(s, auth)),
        None => None,
    }
}

/// What no step changes: the files, the announced system and the QR key.
pub open spec fn same_setup<P>(a: SendSession<P>, b: SendSession<P>) -> bool {
    a.files() == b.files() && a.os_type() == b.os_type() && a.qr_secret() == b.qr_secret()
}

/// A failed step: the error, and the session failed.
pub open spec fn failed_with<P>(
    r: Result<Vec<Vec<u8>>, QuickShareSendError>,
    e: QuickShareSendError,
    new: SendSession<P>,
) -> bool {
    r == Err::<Vec<Vec<u8>>, QuickShareSendError>(e) && new.phase() == SendPhase::Failed
}

/// The frame could not be sealed: the channel ran out of message numbers.
pub open spec fn exhausted() -> QuickShareSendError {
    QuickShareSendError::Crypto(QuickShareCryptoError::InvalidSecureMessage)
}

/// The ServerInit completes the handshake: the ClientFinish and the plain
/// connection accept are written, and the channel is open.
pub open spec fn server_init_step<P>(
    old: SendSession<P>,
    raw: Seq<u8>,
    r: Result<Vec<Vec<u8>>, QuickShareSendError>,
    new: SendSession<P>,
) -> bool {
    match server_init_point(raw) {
        Err(e) => failed_with(r, QuickShareSendError::Crypto(e), new),
        Ok((x, y)) => r matches Ok(w) && {
            let shared = handshake_secret(old.secret(), x, y);
            let transcript = old.client_init() + raw;
            &&& w@.len() == 2
            &&& w@[0]@ == old.client_finish()
            &&& w@[1]@ == connection_accept_model(old.os_type()).encoding()
            &&& new.phase() == SendPhase::ConnectionResponse
            &&& new.keys() == session_keys(shared, transcript, false)
            &&& new.sent() == 0
            &&& new.received() == 0
            &&& new.auth() == ukey2_auth_key(shared, transcript)
            &&& new.pin() == pin_text(new.auth())
            &&& new.buffers() == old.buffers()
        },
    }
}

/// The phone's plain connection response must accept; the paired-key
/// encryption frame follows, with the QR signature when there is one.
pub open spec fn connection_response_step<P>(
    old: SendSession<P>,
    raw: Seq<u8>,
    r: Result<Vec<Vec<u8>>, QuickShareSendError>,
    new: SendSession<P>,
) -> bool {
    match OfflineFrameModel::decoded(raw) {
        None => failed_with(r, QuickShareSendError::Protobuf(DecodeError), new),
        Some(f) => match connection_response_outcome(f) {
            Err(e) => failed_with(r, e, new),
            Ok(v) => if old.sent() + 2 > i32::MAX {
                failed_with(r, exhausted(), new)
            } else {
                r matches Ok(w) && {
                    &&& w@.len() == 2
                    &&& exists|signed: Seq<u8>, hash: Seq<u8>| signed.len() == 72 && hash.len() == 6
                        && #[trigger] seals_sharing(
                        old.keys(),
                        old.sent() as int,
                        paired_key_encryption_model(signed, hash, qr_signature_of(old.qr_secret(), old.auth())),
                        Some(Seq::<u8>::empty()),
                        w@[0]@,
                        w@[1]@,
                    )
                    &&& new.phase() == SendPhase::PairedKeyEncryption
                    &&& new.safe_version() == v
                    &&& new.keys() == old.keys()
                    &&& new.sent() == old.sent() + 2
                    &&& new.received() == old.received()
                    &&& new.buffers() == old.buffers()
                    &&& new.pin() == old.pin()
                }
            },
        },
    }
}

impl<P> SendSession<P> {
    fn take_server_init(&mut self, raw: &[u8]) -> (r: Result<Vec<Vec<u8>>, QuickShareSendError>)
        requires
            old(self).wf(),
            old(self).phase() == SendPhase::ServerInit,
        ensures
            final(self).wf(),
            same_setup(*old(self), *final(self)),
            server_init_step(*old(self), raw@, r, *final(self)),
    {
        let initiator = self.initiator.take().unwrap();
        match initiator.complete(raw) {
            Ok((finish, channel, pin, auth)) => {
                self.channel = Some(channel);
                self.pin = pin;
                self.auth_key = auth;
                self.phase = SendPhase::ConnectionResponse;
                let mut write: Vec<Vec<u8>> = Vec::new();
                write.push(finish);
                write.push(connection_accept_frame(self.os_type).encode_to_vec());
                Ok(write)
            },
            Err(e) => self.fail(QuickShareSendError::Crypto(e)),
        }
    }

    fn qr_signature(&self) -> (r: Option<Vec<u8>>)
        requires
            self.auth_key@.len() == 32,
        ensures
            opt_bytes_view(r) == qr_signature_of(self.qr_secret(), self.auth()),
    {
        match &self.qr {
            Some(q) => {
                let k = &self.auth_key;
                let key: [u8; 32] = [
                    k[0], k[1], k[2], k[3], k[4], k[5], k[6], k[7], k[8], k[9], k[10], k[11], k[12], k[13], k[14],
                    k[15], k[16], k[17], k[18], k[19], k[20], k[21], k[22], k[23], k[24], k[25], k[26], k[27],
                    k[28], k[29], k[30], k[31],
                ];
                assert(key@ =~= self.auth_key@);
                Some(q.sign_auth_key(&key))
            },
            None => None,
        }
    }

    #[verifier::spinoff_prover]
    #[verifier::rlimit(40)]
    fn take_connection_response(&mut self, raw: &[u8]) -> (r: Result<Vec<Vec<u8>>, QuickShareSendError>)
        requires
            old(self).wf(),
            old(self).phase() == SendPhase::ConnectionResponse,
        ensures
            final(self).wf(),
            same_setup(*old(self), *final(self)),
            connection_response_step(*old(self), raw@, r, *final(self)),
    {
        let frame = match OfflineFrame::decode(raw) {
            Ok(f) => f,
            Err(e) => return self.fail(QuickShareSendError::Protobuf(e)),
        };
        let version = match check_connection_response(&frame) {
            Ok(v) => v,
            Err(e) => return self.fail(e),
        };
        let signature = self.qr_signature();
        let ghost signature_view = opt_bytes_view(signature);
        let signed = random_bytes(72);
        let hash = random_bytes(6);
        let ghost signed_view = signed@;
        let ghost hash_view = hash@;
        let encryption = paired_key_encryption_frame(signed, hash, signature);
        let mut channel = self.channel.take().unwrap();
        let closing: Vec<u8> = Vec::new();
        assert(opt_bytes_view(Some(closing)) == Some(Seq::<u8>::empty()));
        match seal_sharing(&mut channel, &encryption, Some(closing)) {
            Ok((first, last)) => {
                self.channel = Some(channel);
                self.safe_version = version;
                self.phase = SendPhase::PairedKeyEncryption;
                let mut write: Vec<Vec<u8>> = Vec::new();
                write.push(first);
                write.push(last);
                proof {
                    assert(seals_sharing(
                        old(self).keys(),
                        old(self).sent() as int,
                        paired_key_encryption_model(signed_view, hash_view, signature_view),
                        Some(Seq::<u8>::empty()),
                        write@[0]@,
                        write@[1]@,
                    ));
                }
                let r: Result<Vec<Vec<u8>>, QuickShareSendError> = Ok(write);
                assert(connection_response_step(*old(self), raw@, r, *self));
                r
            },
            Err(e) => self.fail(QuickShareSendError::Crypto(e)),
        }
    }
}

/// What the phone's sharing frame does in the phase that waits for it: the
/// paired-key encryption is answered with the paired-key result, the
/// paired-key result with the introduction, and the answer to the
/// introduction must accept, which starts the file stream.
pub open spec fn phone_sharing_arrived<P>(
    old: SendSession<P>,
    sharing: SharingFrameModel,
    r: Result<Vec<Vec<u8>>, QuickShareSendError>,
    new: SendSession<P>,
) -> bool {
    if old.phase() == SendPhase::Response {
        match sharing_response_outcome(sharing) {
            Err(e) => failed_with(r, e, new),
            Ok(()) => r matches Ok(w) && w@.len() == 0 && new.phase() == SendPhase::Streaming && new.file_index() == 0
                && new.offset() == 0 && new.sent() == old.sent() && new.safe_version() == old.safe_version(),
        }
    } else {
        let expected = if old.phase() == SendPhase::PairedKeyEncryption {
            SharingFrameType::PairedKeyEncryption
        } else {
            SharingFrameType::PairedKeyResult
        };
        let reply = if old.phase() == SendPhase::PairedKeyEncryption {
            paired_key_result_model(None)
        } else {
            introduction_model(old.files())
        };
        if sharing_type_of(sharing) != Some(expected.code()) {
            failed_with(r, QuickShareSendError::Protocol("unexpected sharing frame type"), new)
        } else if old.sent() + 2 > i32::MAX {
            failed_with(r, exhausted(), new)
        } else {
            r matches Ok(w) && w@.len() == 2 && seals_sharing(
                old.keys(),
                old.sent() as int,
                reply,
                Some(Seq::<u8>::empty()),
                w@[0]@,
                w@[1]@,
            ) && new.sent() == old.sent() + 2 && new.safe_version() == old.safe_version() && new.phase() == (
            if old.phase() == SendPhase::PairedKeyEncryption {
                SendPhase::PairedKeyResult
            } else {
                SendPhase::Response
            })
        }
    }
}

/// A sealed frame while a sharing frame of the phone is awaited:
/// keep-alives are acknowledged, chunks are gathered, and a sharing frame
/// that completes is handled as [`phone_sharing_arrived`] says.
pub open spec fn sharing_wait_step<P>(
    old: SendSession<P>,
    raw: Seq<u8>,
    r: Result<Vec<Vec<u8>>, QuickShareSendError>,
    new: SendSession<P>,
) -> bool {
    let (opened, received) = opened_message(old.keys(), old.received(), raw);
    match opened {
        Err(e) => failed_with(r, QuickShareSendError::Crypto(e), new),
        Ok(frame) => {
            let (step, buffers) = sender_sharing_step_spec(old.buffers(), frame);
            match step {
                Err(e) => failed_with(r, e, new),
                Ok(None) => r matches Ok(w) && w@.len() == 0 && new.phase() == old.phase() && new.sent() == old.sent()
                    && new.received() == received && new.buffers() == buffers && new.keys() == old.keys()
                    && new.safe_version() == old.safe_version(),
                Ok(Some(Ok(sequence))) => if old.sent() == i32::MAX {
                    failed_with(r, exhausted(), new)
                } else {
                    r matches Ok(w) && w@.len() == 1 && seals(
                        old.keys(),
                        old.sent() + 1,
                        keep_alive_model(true, sequence),
                        w@[0]@,
                    ) && new.phase() == old.phase() && new.sent() == old.sent() + 1 && new.received() == received
                        && new.buffers() == buffers && new.keys() == old.keys()
                        && new.safe_version() == old.safe_version()
                },
                Ok(Some(Err(sharing))) => phone_sharing_arrived(old, sharing, r, new) && (r is Ok ==> new.received()
                    == received && new.buffers() == buffers && new.keys() == old.keys()),
            }
        },
    }
}

impl<P> SendSession<P> {
    fn take_phone_sharing(&mut self, raw: &[u8]) -> (r: Result<Vec<Vec<u8>>, QuickShareSendError>)
        requires
            old(self).wf(),
            awaits_phone_sharing(old(self).phase()),
        ensures
            final(self).wf(),
            same_setup(*old(self), *final(self)),
            sharing_wait_step(*old(self), raw@, r, *final(self)),
    {
        let mut channel = self.channel.take().unwrap();
        let frame = match channel.decrypt_offline_frame(raw) {
            Ok(f) => f,
            Err(e) => return self.fail(QuickShareSendError::Crypto(e)),
        };
        let step = match sharing_step(&mut self.assembler, &frame) {
            Ok(s) => s,
            Err(e) => return self.fail(e),
        };
        match step {
            SharingStep::Continue => {
                self.channel = Some(channel);
                Ok(Vec::new())
            },
            SharingStep::AckKeepAlive(sequence) => match seal_frame(&mut channel, &keep_alive_frame(true, sequence)) {
                Ok(sealed) => {
                    self.channel = Some(channel);
                    let mut write: Vec<Vec<u8>> = Vec::new();
                    write.push(sealed);
                    Ok(write)
                },
                Err(e) => self.fail(QuickShareSendError::Crypto(e)),
            },
            SharingStep::Frame(sharing) => self.phone_sharing_arrived(channel, sharing),
        }
    }

    fn phone_sharing_arrived(&mut self, channel: SecureChannel, sharing: crate::quick_share_wire::SharingFrame) -> (r:
        Result<Vec<Vec<u8>>, QuickShareSendError>)
        requires
            sizes_fit(old(self).files@),
            awaits_phone_sharing(old(self).phase()),
        ensures
            final(self).wf(),
            same_setup(*old(self), *final(self)),
            ({
                let before = SendSession { channel: Some(channel), ..*old(self) };
                &&& phone_sharing_arrived(before, sharing@, r, *final(self))
                &&& r is Ok ==> final(self).keys() == channel.keys() && final(self).received() == channel.received()
                    && final(self).buffers() == old(self).buffers()
            }),
    {
        let mut channel = channel;
        if self.phase == SendPhase::Response {
            match check_sharing_response(&sharing) {
                Ok(()) => {
                    self.channel = Some(channel);
                    self.phase = SendPhase::Streaming;
                    self.file_index = 0;
                    self.offset = 0;
                    Ok(Vec::new())
                },
                Err(e) => self.fail(e),
            }
        } else {
            let first_exchange = self.phase == SendPhase::PairedKeyEncryption;
            let expected = if first_exchange {
                SharingFrameType::PairedKeyEncryption
            } else {
                SharingFrameType::PairedKeyResult
            };
            match require_sharing_type(&sharing, expected) {
                Ok(()) => {},
                Err(e) => return self.fail(e),
            }
            let reply = if first_exchange {
                paired_key_result_frame(None)
            } else {
                introduction_frame(&self.files)
            };
            let closing: Vec<u8> = Vec::new();
            assert(opt_bytes_view(Some(closing)) == Some(Seq::<u8>::empty()));
            match seal_sharing(&mut channel, &reply, Some(closing)) {
                Ok((first, last)) => {
                    self.channel = Some(channel);
                    self.phase = if first_exchange {
                        SendPhase::PairedKeyResult
                    } else {
                        SendPhase::Response
                    };
                    let mut write: Vec<Vec<u8>> = Vec::new();
                    write.push(first);
                    write.push(last);
                    Ok(write)
                },
                Err(e) => self.fail(QuickShareSendError::Crypto(e)),
            }
        }
    }
}

/// A frame that arrives while files are streamed: keep-alives are to be
/// acknowledged, a disconnection stops the transfer, the rest is skipped.
pub open spec fn pending_outcome(frame: OfflineFrameModel) -> Result<PendingStep, QuickShareSendError> {
    match frame.v1 {
        None => Ok(PendingStep::Continue),
        Some(v1) => if v1.frame_type == Some(OfflineFrameType::KeepAlive.code()) {
            match keep_alive_reply(v1) {
                Some(seq) => Ok(PendingStep::AckKeepAlive(seq)),
                None => Ok(PendingStep::Continue),
            }
        } else if v1.frame_type == Some(OfflineFrameType::Disconnection.code()) {
            Err(QuickShareSendError::Protocol("receiver disconnected during transfer"))
        } else {
            Ok(PendingStep::Continue)
        },
    }
}

/// A frame that arrives after the last file: the receiver's disconnection
/// ends the wait, acknowledging its safe-disconnect request when it was not
/// yet acknowledged; keep-alives are to be acknowledged; the rest is
/// skipped.
pub open spec fn finalize_outcome(frame: OfflineFrameModel) -> FinalizeStep {
    match frame.v1 {
        None => FinalizeStep::Continue,
        Some(v1) => if v1.frame_type == Some(OfflineFrameType::Disconnection.code()) {
            let (request, ack) = match v1.disconnection {
                Some(d) => (d.request_safe_to_disconnect == Some(true), d.ack_safe_to_disconnect == Some(true)),
                None => (false, false),
            };
            FinalizeStep::Finished { reply_ack: request && !ack }
        } else if v1.frame_type == Some(OfflineFrameType::KeepAlive.code()) {
            match keep_alive_reply(v1) {
                Some(seq) => FinalizeStep::AckKeepAlive(seq),
                None => FinalizeStep::Continue,
            }
        } else {
            FinalizeStep::Continue
        },
    }
}

/// The session stays where it was, with one more message received.
pub open spec fn keeps_place<P>(old: SendSession<P>, received: i32, new: SendSession<P>) -> bool {
    &&& new.phase() == old.phase()
    &&& new.keys() == old.keys()
    &&& new.received() == received
    &&& new.file_index() == old.file_index()
    &&& new.offset() == old.offset()
    &&& new.safe_version() == old.safe_version()
}

/// A keep-alive acknowledgement is written as the next message, or the
/// channel is exhausted.
pub open spec fn acknowledges<P>(
    old: SendSession<P>,
    sequence: Option<u32>,
    received: i32,
    r: Result<Vec<Vec<u8>>, QuickShareSendError>,
    new: SendSession<P>,
) -> bool {
    if old.sent() == i32::MAX {
        failed_with(r, exhausted(), new)
    } else {
        r matches Ok(w) && w@.len() == 1 && seals(old.keys(), old.sent() + 1, keep_alive_model(true, sequence), w@[0]@)
            && keeps_place(old, received, new) && new.sent() == old.sent() + 1
    }
}

/// A sealed frame read while files are streamed, as [`pending_outcome`] says.
pub open spec fn streaming_step<P>(
    old: SendSession<P>,
    raw: Seq<u8>,
    r: Result<Vec<Vec<u8>>, QuickShareSendError>,
    new: SendSession<P>,
) -> bool {
    let (opened, received) = opened_message(old.keys(), old.received(), raw);
    match opened {
        Err(e) => failed_with(r, QuickShareSendError::Crypto(e), new),
        Ok(frame) => match pending_outcome(frame) {
            Err(e) => failed_with(r, e, new),
            Ok(PendingStep::Continue) => r matches Ok(w) && w@.len() == 0 && keeps_place(old, received, new)
                && new.sent() == old.sent(),
            Ok(PendingStep::AckKeepAlive(sequence)) => acknowledges(old, sequence, received, r, new),
        },
    }
}

/// A sealed frame read after the last file, as [`finalize_outcome`] says.
pub open spec fn closing_step<P>(
    old: SendSession<P>,
    raw: Seq<u8>,
    r: Result<Vec<Vec<u8>>, QuickShareSendError>,
    new: SendSession<P>,
) -> bool {
    let (opened, received) = opened_message(old.keys(), old.received(), raw);
    match opened {
        Err(e) => failed_with(r, QuickShareSendError::Crypto(e), new),
        Ok(frame) => match finalize_outcome(frame) {
            FinalizeStep::Continue => r matches Ok(w) && w@.len() == 0 && keeps_place(old, received, new)
                && new.sent() == old.sent(),
            FinalizeStep::AckKeepAlive(sequence) => acknowledges(old, sequence, received, r, new),
            FinalizeStep::Finished { reply_ack } => if !reply_ack {
                r matches Ok(w) && w@.len() == 0 && new.phase() == SendPhase::Done
            } else if old.sent() == i32::MAX {
                failed_with(r, exhausted(), new)
            } else {
                r matches Ok(w) && w@.len() == 1 && seals(
                    old.keys(),
                    old.sent() + 1,
                    disconnection_model(false, true),
                    w@[0]@,
                ) && new.phase() == SendPhase::Done
            },
        },
    }
}

/// What a frame read from the connection does in the session's phase.
pub open spec fn send_frame_step<P>(
    old: SendSession<P>,
    raw: Seq<u8>,
    r: Result<Vec<Vec<u8>>, QuickShareSendError>,
    new: SendSession<P>,
) -> bool {
    if old.phase() == SendPhase::ServerInit {
        server_init_step(old, raw, r, new)
    } else if old.phase() == SendPhase::ConnectionResponse {
        connection_response_step(old, raw, r, new)
    } else if awaits_phone_sharing(old.phase()) {
        sharing_wait_step(old, raw, r, new)
    } else if old.phase() == SendPhase::Streaming {
        streaming_step(old, raw, r, new)
    } else {
        closing_step(old, raw, r, new)
    }
}

impl<P> SendSession<P> {
    /// Takes one frame read from the connection, as [`send_frame_step`]
    /// says; returns the frames to write, in order. A failed step leaves
    /// the session failed.
    pub fn take_frame(&mut self, raw: &[u8]) -> (r: Result<Vec<Vec<u8>>, QuickShareSendError>)
        requires
            old(self).wf(),
            send_takes_frame(old(self).phase()),
        ensures
            final(self).wf(),
            same_setup(*old(self), *final(self)),
            send_frame_step(*old(self), raw@, r, *final(self)),
            r is Err ==> final(self).phase() == SendPhase::Failed,
    {
        match self.phase {
            SendPhase::ServerInit => self.take_server_init(raw),
            SendPhase::ConnectionResponse => self.take_connection_response(raw),
            SendPhase::Streaming => self.take_pending(raw),
            SendPhase::Closing => self.take_closing(raw),
            _ => self.take_phone_sharing(raw),
        }
    }

    fn take_pending(&mut self, raw: &[u8]) -> (r: Result<Vec<Vec<u8>>, QuickShareSendError>)
        requires
            old(self).wf(),
            old(self).phase() == SendPhase::Streaming,
        ensures
            final(self).wf(),
            same_setup(*old(self), *final(self)),
            streaming_step(*old(self), raw@, r, *final(self)),
    {
        let mut channel = self.channel.take().unwrap();
        let frame = match channel.decrypt_offline_frame(raw) {
            Ok(f) => f,
            Err(e) => return self.fail(QuickShareSendError::Crypto(e)),
        };
        match pending_frame_step(&frame) {
            Err(e) => self.fail(e),
            Ok(PendingStep::Continue) => {
                self.channel = Some(channel);
                Ok(Vec::new())
            },
            Ok(PendingStep::AckKeepAlive(sequence)) => self.acknowledge(channel, sequence),
        }
    }

    fn take_closing(&mut self, raw: &[u8]) -> (r: Result<Vec<Vec<u8>>, QuickShareSendError>)
        requires
            old(self).wf(),
            old(self).phase() == SendPhase::Closing,
        ensures
            final(self).wf(),
            same_setup(*old(self), *final(self)),
            closing_step(*old(self), raw@, r, *final(self)),
    {
        let mut channel = self.channel.take().unwrap();
        let frame = match channel.decrypt_offline_frame(raw) {
            Ok(f) => f,
            Err(e) => return self.fail(QuickShareSendError::Crypto(e)),
        };
        match finalize_step(&frame) {
            FinalizeStep::Continue => {
                self.channel = Some(channel);
                Ok(Vec::new())
            },
            FinalizeStep::AckKeepAlive(sequence) => self.acknowledge(channel, sequence),
            FinalizeStep::Finished { reply_ack } => {
                if reply_ack {
                    match seal_frame(&mut channel, &disconnection_frame(false, true)) {
                        Ok(sealed) => {
                            self.phase = SendPhase::Done;
                            let mut write: Vec<Vec<u8>> = Vec::new();
                            write.push(sealed);
                            Ok(write)
                        },
                        Err(e) => self.fail(QuickShareSendError::Crypto(e)),
                    }
                } else {
                    self.phase = SendPhase::Done;
                    Ok(Vec::new())
                }
            },
        }
    }

    fn acknowledge(&mut self, channel: SecureChannel, sequence: Option<u32>) -> (r: Result<
        Vec<Vec<u8>>,
        QuickShareSendError,
    >)
        requires
            (SendSession { channel: Some(channel), ..*old(self) }).wf(),
            old(self).phase() == SendPhase::Streaming || old(self).phase() == SendPhase::Closing,
        ensures
            final(self).wf(),
            same_setup(*old(self), *final(self)),
            acknowledges(
                SendSession { channel: Some(channel), ..*old(self) },
                sequence,
                channel.received(),
                r,
                *final(self),
            ),
    {
        let mut channel = channel;
        match seal_frame(&mut channel, &keep_alive_frame(true, sequence)) {
            Ok(sealed) => {
                self.channel = Some(channel);
                let mut write: Vec<Vec<u8>> = Vec::new();
                write.push(sealed);
                Ok(write)
            },
            Err(e) => self.fail(QuickShareSendError::Crypto(e)),
        }
    }
}

/// What a failed read after the last file means: the receiver closing the
/// connection finalizes the transfer, a timeout means the receiver never
/// confirmed, and anything else is the failure itself.
pub open spec fn closed_read_outcome(error: QuickShareSendError) -> Result<(), QuickShareSendError> {
    match error {
        QuickShareSendError::Frame(FrameIoError::Io(f)) => if f.kind == IoErrorKind::UnexpectedEof || f.kind
            == IoErrorKind::ConnectionReset || f.kind == IoErrorKind::ConnectionAborted {
            Ok(())
        } else if f.kind == IoErrorKind::WouldBlock || f.kind == IoErrorKind::TimedOut {
            Err(QuickShareSendError::Protocol("receiver did not confirm that the file was committed"))
        } else {
            Err(error)
        },
        _ => Err(error),
    }
}

impl<P> SendSession<P> {
    /// The next piece of the current file, read from it: the sealed chunk to
    /// write. Refused when the file grows past the wire's signed offsets.
    pub fn send_chunk(&mut self, body: &[u8]) -> (r: Result<Vec<u8>, QuickShareSendError>)
        requires
            old(self).wf(),
            old(self).phase() == SendPhase::Streaming,
            old(self).file_index() < old(self).files().len(),
        ensures
            final(self).wf(),
            same_setup(*old(self), *final(self)),
            old(self).offset() + body@.len() > i64::MAX ==> r == Err::<Vec<u8>, QuickShareSendError>(
                QuickShareSendError::TransferTooLarge,
            ) && final(self).phase() == SendPhase::Failed,
            old(self).offset() + body@.len() <= i64::MAX && old(self).sent() == i32::MAX ==> r == Err::<
                Vec<u8>,
                QuickShareSendError,
            >(exhausted()) && final(self).phase() == SendPhase::Failed,
            old(self).offset() + body@.len() <= i64::MAX && old(self).sent() < i32::MAX ==> (r matches Ok(b) && seals(
                old(self).keys(),
                old(self).sent() + 1,
                file_chunk_model(old(self).files()[old(self).file_index()], old(self).offset(), body@, false),
                b@,
            ) && final(self).phase() == SendPhase::Streaming && final(self).file_index() == old(self).file_index()
                && final(self).offset() == old(self).offset() + body@.len() && final(self).keys() == old(self).keys()
                && final(self).sent() == old(self).sent() + 1 && final(self).received() == old(self).received()
                && final(self).safe_version() == old(self).safe_version()),
    {
        let length = body.len() as u64;
        if length > i64::MAX as u64 - self.offset {
            return self.fail(QuickShareSendError::TransferTooLarge);
        }
        let frame = file_chunk_frame(&self.files[self.file_index], self.offset, body, false);
        let mut channel = self.channel.take().unwrap();
        match seal_frame(&mut channel, &frame) {
            Ok(sealed) => {
                self.channel = Some(channel);
                self.offset = self.offset + length;
                Ok(sealed)
            },
            Err(e) => self.fail(QuickShareSendError::Crypto(e)),
        }
    }

    /// The current file was read to its end: the sealed empty last chunk to
    /// write. The next file follows.
    pub fn end_file(&mut self) -> (r: Result<Vec<u8>, QuickShareSendError>)
        requires
            old(self).wf(),
            old(self).phase() == SendPhase::Streaming,
            old(self).file_index() < old(self).files().len(),
        ensures
            final(self).wf(),
            same_setup(*old(self), *final(self)),
            old(self).sent() == i32::MAX ==> r == Err::<Vec<u8>, QuickShareSendError>(exhausted())
                && final(self).phase() == SendPhase::Failed,
            old(self).sent() < i32::MAX ==> (r matches Ok(b) && seals(
                old(self).keys(),
                old(self).sent() + 1,
                file_chunk_model(old(self).files()[old(self).file_index()], old(self).offset(), Seq::empty(), true),
                b@,
            ) && final(self).phase() == SendPhase::Streaming && final(self).file_index() == old(self).file_index() + 1
                && final(self).offset() == 0 && final(self).keys() == old(self).keys() && final(self).sent()
                == old(self).sent() + 1 && final(self).received() == old(self).received()
                && final(self).safe_version() == old(self).safe_version()),
    {
        let empty: [u8; 0] = [];
        let count = self.files.len();
        assert(self.file_index < count);
        let next = self.file_index + 1;
        let frame = file_chunk_frame(&self.files[self.file_index], self.offset, &empty, true);
        assert(empty@ =~= Seq::<u8>::empty());
        let mut channel = self.channel.take().unwrap();
        match seal_frame(&mut channel, &frame) {
            Ok(sealed) => {
                self.channel = Some(channel);
                self.file_index = next;
                self.offset = 0;
                Ok(sealed)
            },
            Err(e) => self.fail(QuickShareSendError::Crypto(e)),
        }
    }

    /// Every file was sent: asks a phone that supports it to confirm a
    /// safe disconnect (the frames to write), then waits for the receiver.
    pub fn finish(&mut self) -> (r: Result<Vec<Vec<u8>>, QuickShareSendError>)
        requires
            old(self).wf(),
            old(self).phase() == SendPhase::Streaming,
            old(self).file_index() == old(self).files().len(),
        ensures
            final(self).wf(),
            same_setup(*old(self), *final(self)),
            old(self).safe_version() < 1 ==> (r matches Ok(w) && w@.len() == 0 && final(self).phase()
                == SendPhase::Closing && final(self).sent() == old(self).sent()),
            old(self).safe_version() >= 1 && old(self).sent() == i32::MAX ==> r == Err::<
                Vec<Vec<u8>>,
                QuickShareSendError,
            >(exhausted()) && final(self).phase() == SendPhase::Failed,
            old(self).safe_version() >= 1 && old(self).sent() < i32::MAX ==> (r matches Ok(w) && w@.len() == 1
                && seals(old(self).keys(), old(self).sent() + 1, disconnection_model(true, false), w@[0]@)
                && final(self).phase() == SendPhase::Closing && final(self).sent() == old(self).sent() + 1),
            r is Ok ==> final(self).keys() == old(self).keys() && final(self).received() == old(self).received(),
    {
        if self.safe_version >= 1 {
            let mut channel = self.channel.take().unwrap();
            match seal_frame(&mut channel, &disconnection_frame(true, false)) {
                Ok(sealed) => {
                    self.channel = Some(channel);
                    self.phase = SendPhase::Closing;
                    let mut write: Vec<Vec<u8>> = Vec::new();
                    write.push(sealed);
                    Ok(write)
                },
                Err(e) => self.fail(QuickShareSendError::Crypto(e)),
            }
        } else {
            self.phase = SendPhase::Closing;
            Ok(Vec::new())
        }
    }

    /// A read from the connection failed with `error`. After the last file
    /// the receiver's closing the connection completes the send, as
    /// [`closed_read_outcome`] says; at any other time the send fails with
    /// the error.
    pub fn read_failed(&mut self, error: QuickShareSendError) -> (r: Result<(), QuickShareSendError>)
        requires
            old(self).wf(),
        ensures
            final(self).wf(),
            same_setup(*old(self), *final(self)),
            old(self).phase() == SendPhase::Closing ==> r == closed_read_outcome(error),
            old(self).phase() != SendPhase::Closing ==> r == Err::<(), QuickShareSendError>(error),
            final(self).phase() == (if r is Ok {
                SendPhase::Done
            } else {
                SendPhase::Failed
            }),
    {
        if self.phase == SendPhase::Closing {
            match finalize_read_failure(error) {
                Ok(()) => {
                    self.phase = SendPhase::Done;
                    Ok(())
                },
                Err(e) => self.fail(e),
            }
        } else {
            self.fail(error)
        }
    }
}

/// What the sender offers is what the receiver shows: when a receiver that
/// waits for the introduction takes the one a send writes, it asks its user
/// about exactly the send's files, in order, by name and size.
pub proof fn lemma_receiver_offers_the_sent_files<A, P>(
    before: ReceiveSession<A>,
    files: Seq<OutgoingFile<P>>,
    r: Result<ReceiveReply<A>, QuickShareReceiveError>,
    after: ReceiveSession<A>,
)
    requires
        before.phase() == ReceivePhase::Introduction,
        sizes_fit(files),
        sharing_arrived(before, introduction_model(files), r, after),
    ensures
        match r {
            Ok(rep) => match rep.event {
                ReceiveEvent::Offer(offer) => {
                    &&& after.phase() == ReceivePhase::Consent
                    &&& offer.items@.len() == files.len()
                    &&& forall|i: int| 0 <= i < files.len() ==> (#[trigger] offer.items@[i]).name@ == files[i].name@
                        && offer.items@[i].size == files[i].size && !offer.items@[i].is_text
                },
                _ => false,
            },
            Err(_) => false,
        },
{
    let intro = introduction_model(files).v1.unwrap().introduction.unwrap();
    assert forall|i: int| 0 <= i < intro.file_metadata.len() implies #[trigger] file_entry_ok(
        intro.file_metadata[i],
    ) by {
        assert(intro.file_metadata[i] == file_metadata_of(files[i]));
        assert(files[i].size <= i64::MAX);
    }
    assert(intro.text_metadata.len() == 0);
    if let Ok(rep) = r {
        if let ReceiveEvent::Offer(offer) = rep.event {
            assert forall|i: int| 0 <= i < files.len() implies (#[trigger] offer.items@[i]).name@ == files[i].name@
                && offer.items@[i].size == files[i].size && !offer.items@[i].is_text by {
                assert(intro.file_metadata[i] == file_metadata_of(files[i]));
                assert(shows_file(offer.items@[i], intro.file_metadata[i]));
                let shown: u64 = offer.items@[i].size;
                let sent: u64 = files[i].size;
                assert(shown as i64 == sent as i64);
                assert(shown == sent) by (bit_vector)
                    requires
                        shown as i64 == sent as i64,
                ;
            }
        }
    }
}

} // verus!
