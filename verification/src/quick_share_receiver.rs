//! Quick Share receiver rules for Android -> HiRodrop transfers: what the
//! receiver accepts from the sender, how it reassembles byte payloads, how it
//! names what it saves, and how it tracks a transfer until every announced
//! payload has arrived.

use vstd::prelude::*;
use crate::text::{decimal_text, push_decimal};
use crate::quick_share_crypto::crypto_error_text;
use crate::quick_share_transport::frame_error_text;
use crate::wire_format::decode_error_text;
use std::collections::{HashMap, HashSet};
use vstd::utf8::{encode_utf8, valid_utf8};
use crate::bytes::copy_range;
use crate::primitives::{push_char, string_from_utf8};
use crate::quick_share::{device_type_bits, endpoint_name_end, name_end};
use crate::quick_share_crypto::QuickShareCryptoError;
use crate::quick_share_frames::{
    bytes_chunk_model, offline_type_is, offline_type_of, sharing_type_is, sharing_type_of, LAST_CHUNK,
};
use crate::quick_share_transport::{FrameIoError, IoErrorKind, IoFailure, MAX_WIRE_FRAME_BYTES};
use crate::quick_share_wire::{
    FileMetadata, FileMetadataModel, IntroductionFrame, TextMetadata, TextType, IntroductionFrameModel, OfflineFrame, OfflineFrameModel,
    OfflineFrameType, OfflineV1Frame, OfflineV1FrameModel, PayloadTransferFrame, PayloadType, SharingFrameModel, PayloadTransferFrameModel, SharingFrame, SharingFrameType,
    TextMetadataModel,
};
use crate::wire_format::{opt_bytes_view, opt_str_view, DecodeError, RECURSION_BUDGET};
use vstd::slice::slice_to_vec;

verus! {

/// Whether the user is asked before a transfer is accepted.
#[derive(Clone, Copy, Debug, PartialEq, Eq, Structural)]
pub enum ConsentMode {
    Prompt,
    AutoAccept,
}

/// What the receiver announces and where it saves.
#[derive(Clone, Debug)]
pub struct QuickShareReceiverConfig {
    pub display_name: String,
    pub download_directory: String,
    pub consent_mode: ConsentMode,
}

impl QuickShareReceiverConfig {
    /// A configuration that asks before accepting.
    pub fn new(display_name: String, download_directory: String) -> (r: Self)
        ensures
            r.display_name == display_name,
            r.download_directory == download_directory,
            r.consent_mode == ConsentMode::Prompt,
    {
        QuickShareReceiverConfig { display_name, download_directory, consent_mode: ConsentMode::Prompt }
    }
}

/// The sender of an incoming connection.
#[derive(Clone, Debug)]
pub struct IncomingPeer<A> {
    pub name: String,
    pub device_type: u8,
    pub address: A,
}

/// What a finished transfer saved.
#[derive(Clone, Debug)]
pub struct TransferSummary<A> {
    pub peer: IncomingPeer<A>,
    pub saved_paths: Vec<String>,
}

/// One file or text of an offered transfer.
#[derive(Clone, Debug)]
pub struct TransferOfferItem {
    pub name: String,
    pub size: u64,
    pub is_text: bool,
}

/// An offered transfer, shown to the user for consent.
#[derive(Clone, Debug)]
pub struct TransferOffer<A> {
    pub peer: IncomingPeer<A>,
    pub pin: String,
    pub peer_fingerprint: String,
    pub items: Vec<TransferOfferItem>,
}

/// Progress of a running transfer.
#[derive(Clone, Debug)]
pub enum QuickShareReceiveProgress {
    Receiving { received_bytes: u64, total_bytes: u64, file_name: String },
}

/// Why receiving failed.
#[derive(Debug)]
pub enum QuickShareReceiveError {
    Io(IoFailure),
    Frame(FrameIoError),
    Crypto(QuickShareCryptoError),
    Protobuf(DecodeError),
    /// An unexpected Quick Share protocol message.
    Protocol(&'static str),
    /// The sender canceled or disconnected.
    Disconnected,
    /// The transfer was rejected.
    Rejected,
    /// Unsafe or unsupported file metadata.
    UnsafeMetadata,
    /// The declared transfer size exceeds the 100 GiB safety limit.
    TransferTooLarge,
}

impl QuickShareReceiveError {
    /// Discovery clients (notably the Windows Quick Share app) sometimes open
    /// the advertised TCP port only to close it immediately. Such a
    /// disconnect is told apart from real protocol errors.
    pub fn is_benign_probe_disconnect(&self) -> (r: bool)
        ensures
            r == match self {
                QuickShareReceiveError::Frame(FrameIoError::Io(f)) => is_peer_gone(f.kind),
                QuickShareReceiveError::Io(f) => is_peer_gone(f.kind),
                QuickShareReceiveError::Disconnected => true,
                _ => false,
            },
    {
        match self {
            QuickShareReceiveError::Frame(error) => error.is_peer_disconnect(),
            QuickShareReceiveError::Io(failure) => match failure.kind {
                IoErrorKind::UnexpectedEof => true,
                IoErrorKind::ConnectionReset => true,
                IoErrorKind::ConnectionAborted => true,
                IoErrorKind::BrokenPipe => true,
                _ => false,
            },
            QuickShareReceiveError::Disconnected => true,
            _ => false,
        }
    }
}

/// The peer closed, reset or aborted the connection.
pub open spec fn is_peer_gone(kind: IoErrorKind) -> bool {
    ||| kind == IoErrorKind::UnexpectedEof
    ||| kind == IoErrorKind::ConnectionReset
    ||| kind == IoErrorKind::ConnectionAborted
    ||| kind == IoErrorKind::BrokenPipe
}

/// The sender's name (its UTF-8 bytes) and device-type bits from a
/// ConnectionRequest, or why it is refused.
pub open spec fn connection_request_peer(raw: Seq<u8>) -> Result<(Seq<u8>, u8), QuickShareReceiveError> {
    match OfflineFrameModel::decoded(raw) {
        None => Err(QuickShareReceiveError::Protobuf(DecodeError)),
        Some(frame) => if offline_type_of(frame) != Some(OfflineFrameType::ConnectionRequest.code()) {
            Err(QuickShareReceiveError::Protocol("unexpected offline frame type"))
        } else {
            match frame.v1.unwrap().connection_request {
                None => Err(QuickShareReceiveError::Protocol("missing connection request")),
                Some(request) => match request.endpoint_info {
                    None => Err(QuickShareReceiveError::Protocol("missing endpoint info")),
                    Some(info) => if info.len() < 18 {
                        Err(QuickShareReceiveError::Protocol("endpoint info is too short"))
                    } else {
                        match name_end(info) {
                            None => Err(QuickShareReceiveError::Protocol("invalid endpoint name length")),
                            Some(end) => if valid_utf8(info.subrange(18, end)) {
                                Ok((info.subrange(18, end), device_type_bits(info[0])))
                            } else {
                                Err(QuickShareReceiveError::Protocol("endpoint name is not UTF-8"))
                            },
                        }
                    },
                },
            }
        },
    }
}

/// The sender's name and device type from the first plain frame of a
/// connection. The name comes from the endpoint info, not from the
/// free-form endpoint name, which Windows fills with binary data.
pub fn parse_connection_request<A>(raw: &[u8], address: A) -> (r: Result<IncomingPeer<A>, QuickShareReceiveError>)
    ensures
        match connection_request_peer(raw@) {
            Ok((name, device_type)) => r matches Ok(peer) && encode_utf8(peer.name@) == name
                && peer.device_type == device_type && peer.address == address,
            Err(e) => r matches Err(x) && x == e,
        },
{
    let frame = match OfflineFrame::decode(raw) {
        Ok(f) => f,
        Err(e) => return Err(QuickShareReceiveError::Protobuf(e)),
    };
    if !offline_type_is(&frame, OfflineFrameType::ConnectionRequest) {
        return Err(QuickShareReceiveError::Protocol("unexpected offline frame type"));
    }
    let v1 = match frame.v1 {
        Some(v1) => v1,
        None => return Err(QuickShareReceiveError::Protocol("unexpected offline frame type")),
    };
    let request = match v1.connection_request {
        Some(r) => r,
        None => return Err(QuickShareReceiveError::Protocol("missing connection request")),
    };
    let info = match request.endpoint_info {
        Some(i) => i,
        None => return Err(QuickShareReceiveError::Protocol("missing endpoint info")),
    };
    if info.len() < 18 {
        return Err(QuickShareReceiveError::Protocol("endpoint info is too short"));
    }
    let end = match endpoint_name_end(&info) {
        Some(e) => e,
        None => return Err(QuickShareReceiveError::Protocol("invalid endpoint name length")),
    };
    let name = match string_from_utf8(copy_range(&info, 18, end)) {
        Some(n) => n,
        None => return Err(QuickShareReceiveError::Protocol("endpoint name is not UTF-8")),
    };
    Ok(IncomingPeer { name, device_type: (info[0] / 2) % 8, address })
}

/// Refuses an offline frame of another type than expected.
pub fn require_offline_type(frame: &OfflineFrame, expected: OfflineFrameType) -> (r: Result<(), QuickShareReceiveError>)
    ensures
        offline_type_of(frame@) == Some(expected.code()) <==> r is Ok,
        r matches Err(e) ==> e == QuickShareReceiveError::Protocol("unexpected offline frame type"),
{
    if offline_type_is(frame, expected) {
        Ok(())
    } else {
        Err(QuickShareReceiveError::Protocol("unexpected offline frame type"))
    }
}

/// Refuses a sharing frame of another type than expected.
pub fn require_sharing_type(frame: &SharingFrame, expected: SharingFrameType) -> (r: Result<(), QuickShareReceiveError>)
    ensures
        sharing_type_of(frame@) == Some(expected.code()) <==> r is Ok,
        r matches Err(e) ==> e == QuickShareReceiveError::Protocol("unexpected sharing frame type"),
{
    if sharing_type_is(frame, expected) {
        Ok(())
    } else {
        Err(QuickShareReceiveError::Protocol("unexpected sharing frame type"))
    }
}

/// A file entry the offer can show: it has a name and a size that is not
/// negative.
pub open spec fn file_entry_ok(f: FileMetadataModel) -> bool {
    f.name is Some && (f.size matches Some(s) && s >= 0)
}

/// A text entry the offer can show: its size is not negative.
pub open spec fn text_entry_ok(t: TextMetadataModel) -> bool {
    t.size matches Some(s) && s >= 0
}

/// `"Shared text"`, the name of a text without a title.
pub open spec fn shared_text_title() -> Seq<char> {
    seq!['S', 'h', 'a', 'r', 'e', 'd', ' ', 't', 'e', 'x', 't']
}

/// Whether `item` shows file entry `f`.
pub open spec fn shows_file(item: TransferOfferItem, f: FileMetadataModel) -> bool {
    &&& f.name == Some(item.name@)
    &&& f.size == Some(item.size as i64)
    &&& !item.is_text
}

/// Whether `item` shows text entry `t`.
pub open spec fn shows_text(item: TransferOfferItem, t: TextMetadataModel) -> bool {
    &&& item.name@ == match t.text_title {
        Some(title) => title,
        None => shared_text_title(),
    }
    &&& t.size == Some(item.size as i64)
    &&& item.is_text
}

fn shared_text_string() -> (r: String)
    ensures
        r@ == shared_text_title(),
{
    let r = String::from_str("Shared text");
    proof {
        reveal_strlit("Shared text");
    }
    assert(r@ =~= shared_text_title());
    r
}

/// The offer shown to the user: every file, then every text, in the order
/// the introduction lists them. Refused when an entry lacks what the offer
/// shows.
pub fn transfer_offer<A>(
    peer: IncomingPeer<A>,
    pin: String,
    peer_fingerprint: String,
    introduction: &IntroductionFrame,
) -> (r: Result<TransferOffer<A>, QuickShareReceiveError>)
    ensures
        ((forall|i: int| 0 <= i < introduction@.file_metadata.len() ==> #[trigger] file_entry_ok(introduction@.file_metadata[i]))
            && (forall|j: int| 0 <= j < introduction@.text_metadata.len() ==> #[trigger] text_entry_ok(introduction@.text_metadata[j])))
            <==> r is Ok,
        r matches Err(e) ==> e == QuickShareReceiveError::UnsafeMetadata,
        r matches Ok(offer) ==> {
            let files = introduction@.file_metadata;
            let texts = introduction@.text_metadata;
            &&& offer.peer == peer
            &&& offer.pin == pin
            &&& offer.peer_fingerprint == peer_fingerprint
            &&& offer.items@.len() == files.len() + texts.len()
            &&& forall|i: int| 0 <= i < files.len() ==> #[trigger] shows_file(offer.items@[i], files[i])
            &&& forall|j: int| 0 <= j < texts.len() ==> #[trigger] shows_text(offer.items@[files.len() + j], texts[j])
        },
{
    let ghost files = introduction@.file_metadata;
    let ghost texts = introduction@.text_metadata;
    let mut items: Vec<TransferOfferItem> = Vec::new();
    let mut i: usize = 0;
    while i < introduction.file_metadata.len()
        invariant
            files == introduction@.file_metadata,
            i <= files.len(),
            items@.len() == i,
            forall|k: int| 0 <= k < i ==> file_entry_ok(#[trigger] files[k]),
            forall|k: int| 0 <= k < i ==> #[trigger] shows_file(items@[k], files[k]),
        decreases files.len() - i,
    {
        let file = &introduction.file_metadata[i];
        assert(files[i as int] == file@);
        let name = match &file.name {
            Some(n) => n.clone(),
            None => {
                assert(!file_entry_ok(files[i as int]));
                return Err(QuickShareReceiveError::UnsafeMetadata);
            },
        };
        let size = match file.size {
            Some(s) => {
                if s < 0 {
                    assert(!file_entry_ok(files[i as int]));
                    return Err(QuickShareReceiveError::UnsafeMetadata);
                }
                s as u64
            },
            None => {
                assert(!file_entry_ok(files[i as int]));
                return Err(QuickShareReceiveError::UnsafeMetadata);
            },
        };
        items.push(TransferOfferItem { name, size, is_text: false });
        i = i + 1;
    }
    let mut j: usize = 0;
    while j < introduction.text_metadata.len()
        invariant
            files == introduction@.file_metadata,
            texts == introduction@.text_metadata,
            j <= texts.len(),
            items@.len() == files.len() + j,
            forall|k: int| 0 <= k < files.len() ==> file_entry_ok(#[trigger] files[k]),
            forall|k: int| 0 <= k < files.len() ==> #[trigger] shows_file(items@[k], files[k]),
            forall|k: int| 0 <= k < j ==> text_entry_ok(#[trigger] texts[k]),
            forall|k: int| 0 <= k < j ==> #[trigger] shows_text(items@[files.len() + k], texts[k]),
        decreases texts.len() - j,
    {
        let text = &introduction.text_metadata[j];
        assert(texts[j as int] == text@);
        let size = match text.size {
            Some(s) => {
                if s < 0 {
                    assert(!text_entry_ok(texts[j as int]));
                    return Err(QuickShareReceiveError::UnsafeMetadata);
                }
                s as u64
            },
            None => {
                assert(!text_entry_ok(texts[j as int]));
                return Err(QuickShareReceiveError::UnsafeMetadata);
            },
        };
        let name = match &text.text_title {
            Some(t) => t.clone(),
            None => shared_text_string(),
        };
        items.push(TransferOfferItem { name, size, is_text: true });
        j = j + 1;
    }
    Ok(TransferOffer { peer, pin, peer_fingerprint, items })
}


// ---------------------------------------------------------------------------
// Byte payloads.
// ---------------------------------------------------------------------------

/// Whether the flags of a chunk mark it as the last one.
pub open spec fn last_chunk(flags: Option<i32>) -> bool {
    match flags {
        Some(f) => f % 2 == 1,
        None => false,
    }
}

/// Whether the flags of a chunk mark it as the last one.
pub fn is_last_chunk(flags: Option<i32>) -> (r: bool)
    ensures
        r == last_chunk(flags),
{
    match flags {
        Some(f) => {
            if f >= 0 {
                f % 2 == 1
            } else {
                (-(f as i64)) % 2 == 1
            }
        },
        None => false,
    }
}

/// One chunk of a byte payload taken in: the payload when it is complete,
/// or the error, and the buffers afterwards. A chunk must start where the
/// payload's buffer ends and stay within the declared size, which is at most
/// the frame limit. A wrong offset drops the buffer; an oversized chunk
/// leaves it (an empty one is created for a new payload); the last chunk
/// removes it.
pub open spec fn assemble_step(
    bufs: Map<i64, Seq<u8>>,
    t: PayloadTransferFrameModel,
) -> (Result<Option<(i64, Seq<u8>)>, QuickShareReceiveError>, Map<i64, Seq<u8>>) {
    match t.payload_header {
        None => (Err(QuickShareReceiveError::Protocol("missing payload header")), bufs),
        Some(h) => match t.payload_chunk {
            None => (Err(QuickShareReceiveError::Protocol("missing payload chunk")), bufs),
            Some(c) => match h.id {
                None => (Err(QuickShareReceiveError::Protocol("missing payload ID")), bufs),
                Some(id) => match h.total_size {
                    None => (Err(QuickShareReceiveError::Protocol("missing payload size")), bufs),
                    Some(total) => if total < 0 || total > MAX_WIRE_FRAME_BYTES {
                        (Err(QuickShareReceiveError::Protocol("byte payload is too large")), bufs)
                    } else {
                        let buf = if bufs.contains_key(id) {
                            bufs[id]
                        } else {
                            Seq::empty()
                        };
                        if c.offset != Some(buf.len() as i64) {
                            (Err(QuickShareReceiveError::Protocol("unexpected byte-payload offset")), bufs.remove(id))
                        } else if c.body matches Some(b) && buf.len() + b.len() > total {
                            (Err(QuickShareReceiveError::Protocol("byte payload exceeds declared size")), bufs.insert(id, buf))
                        } else {
                            let grown = match c.body {
                                Some(b) => buf + b,
                                None => buf,
                            };
                            if last_chunk(c.flags) {
                                if grown.len() != total {
                                    (Err(QuickShareReceiveError::Protocol("incomplete byte payload")), bufs.remove(id))
                                } else {
                                    (Ok(Some((id, grown))), bufs.remove(id))
                                }
                            } else {
                                (Ok(None), bufs.insert(id, grown))
                            }
                        }
                    },
                },
            },
        },
    }
}

/// Reassembles byte payloads (sharing frames, texts, small files) from
/// their chunks.
pub struct BytesAssembler {
    buffers: HashMap<i64, Vec<u8>>,
}

impl BytesAssembler {
    /// Every unfinished payload is within the frame limit.
    pub closed spec fn wf(self) -> bool {
        forall|id: i64| #[trigger] self.buffers@.contains_key(id) ==> self.buffers@[id]@.len() <= MAX_WIRE_FRAME_BYTES
    }

    /// The bytes gathered so far for each unfinished payload.
    pub closed spec fn buffers(self) -> Map<i64, Seq<u8>> {
        self.buffers@.map_values(|v: Vec<u8>| v@)
    }

    /// An assembler with no unfinished payload.
    pub fn new() -> (r: Self)
        ensures
            r.wf(),
            r.buffers() == Map::<i64, Seq<u8>>::empty(),
    {
        broadcast use vstd::std_specs::hash::group_hash_axioms;
        let r = BytesAssembler { buffers: HashMap::new() };
        assert(r.buffers() =~= Map::<i64, Seq<u8>>::empty());
        r
    }

    /// Takes in one chunk of a byte payload; returns the payload's ID and
    /// bytes once its last chunk has arrived.
    pub fn push(&mut self, transfer: &PayloadTransferFrame) -> (r: Result<Option<(i64, Vec<u8>)>, QuickShareReceiveError>)
        requires
            old(self).wf(),
        ensures
            final(self).wf(),
            final(self).buffers() == assemble_step(old(self).buffers(), transfer@).1,
            match assemble_step(old(self).buffers(), transfer@).0 {
                Ok(Some((id, bytes))) => r matches Ok(Some((i, b))) && i == id && b@ == bytes,
                Ok(None) => r matches Ok(None),
                Err(e) => r matches Err(x) && x == e,
            },
    {
        broadcast use vstd::std_specs::hash::group_hash_axioms;
        let ghost before = self.buffers();
        let header = match &transfer.payload_header {
            Some(h) => h,
            None => return Err(QuickShareReceiveError::Protocol("missing payload header")),
        };
        let chunk = match &transfer.payload_chunk {
            Some(c) => c,
            None => return Err(QuickShareReceiveError::Protocol("missing payload chunk")),
        };
        let id = match header.id {
            Some(i) => i,
            None => return Err(QuickShareReceiveError::Protocol("missing payload ID")),
        };
        let total = match header.total_size {
            Some(t) => t,
            None => return Err(QuickShareReceiveError::Protocol("missing payload size")),
        };
        if total < 0 || total > MAX_WIRE_FRAME_BYTES as i64 {
            return Err(QuickShareReceiveError::Protocol("byte payload is too large"));
        }
        let limit = total as usize;
        let existing = self.buffers.remove(&id);
        let mut buffer = match existing {
            Some(b) => b,
            None => Vec::new(),
        };
        proof {
            assert(self.buffers() =~= before.remove(id));
            if before.contains_key(id) {
                assert(buffer@ == before[id]);
            } else {
                assert(buffer@ =~= Seq::<u8>::empty());
            }
        }
        if chunk.offset != Some(buffer.len() as i64) {
            return Err(QuickShareReceiveError::Protocol("unexpected byte-payload offset"));
        }
        match &chunk.body {
            Some(body) => {
                if buffer.len() > limit || body.len() > limit - buffer.len() {
                    let ghost kept = buffer@;
                    self.buffers.insert(id, buffer);
                    assert(self.buffers() =~= before.insert(id, kept));
                    return Err(QuickShareReceiveError::Protocol("byte payload exceeds declared size"));
                }
                let ghost old_buffer = buffer@;
                buffer.extend_from_slice(body);
                assert(buffer@ =~= old_buffer + body@);
            },
            None => {},
        }
        if is_last_chunk(chunk.flags) {
            if buffer.len() != limit {
                return Err(QuickShareReceiveError::Protocol("incomplete byte payload"));
            }
            return Ok(Some((id, buffer)));
        }
        let ghost grown = buffer@;
        self.buffers.insert(id, buffer);
        assert(self.buffers() =~= before.insert(id, grown));
        Ok(None)
    }
}


/// The transfer part of a chunk of a byte payload.
pub open spec fn transfer_of(frame: OfflineFrameModel) -> PayloadTransferFrameModel {
    frame.v1.unwrap().payload_transfer.unwrap()
}

/// A sharing frame sent the way both peers send one, as its whole body at
/// offset 0 and then an empty or bodiless last chunk, is given back whole by
/// the assembler, which then holds what it held before.
pub proof fn lemma_two_chunk_payload(
    bufs: Map<i64, Seq<u8>>,
    id: i64,
    body: Seq<u8>,
    last_body: Option<Seq<u8>>,
)
    requires
        !bufs.contains_key(id),
        body.len() <= MAX_WIRE_FRAME_BYTES,
        last_body matches Some(b) ==> b.len() == 0,
    ensures
        ({
            let first = transfer_of(bytes_chunk_model(id, body.len() as i64, 0, 0, Some(body)));
            let last = transfer_of(bytes_chunk_model(id, body.len() as i64, LAST_CHUNK, body.len() as i64, last_body));
            let (r1, after1) = assemble_step(bufs, first);
            let (r2, after2) = assemble_step(after1, last);
            &&& r1 == Ok::<Option<(i64, Seq<u8>)>, QuickShareReceiveError>(None)
            &&& r2 == Ok::<Option<(i64, Seq<u8>)>, QuickShareReceiveError>(Some((id, body)))
            &&& after2 == bufs
        }),
{
    let after1 = bufs.insert(id, Seq::<u8>::empty() + body);
    assert(Seq::<u8>::empty() + body =~= body);
    assert(after1.remove(id) =~= bufs);
    if let Some(b) = last_body {
        assert(body + b =~= body);
    }
}


/// The chunks of a payload joined in order.
pub open spec fn joined(chunks: Seq<Seq<u8>>) -> Seq<u8>
    decreases chunks.len(),
{
    if chunks.len() == 0 {
        Seq::empty()
    } else {
        joined(chunks.drop_last()) + chunks.last()
    }
}

/// Byte payload `id` sent as `chunks`: chunk `i` carries its bytes at the
/// offset where the chunks before it end, the payload's whole size, and the
/// last-chunk flag on the final one only.
pub open spec fn chunk_transfers(id: i64, chunks: Seq<Seq<u8>>) -> Seq<PayloadTransferFrameModel> {
    Seq::new(
        chunks.len(),
        |i: int|
            transfer_of(
                bytes_chunk_model(
                    id,
                    joined(chunks).len() as i64,
                    if i == chunks.len() - 1 {
                        LAST_CHUNK
                    } else {
                        0
                    },
                    joined(chunks.take(i)).len() as i64,
                    Some(chunks[i]),
                ),
            ),
    )
}

/// Chunks taken in by the assembler one after another: the result of each
/// step, in order, and the buffers afterwards.
pub open spec fn assemble_run(
    bufs: Map<i64, Seq<u8>>,
    ts: Seq<PayloadTransferFrameModel>,
) -> (Seq<Result<Option<(i64, Seq<u8>)>, QuickShareReceiveError>>, Map<i64, Seq<u8>>)
    decreases ts.len(),
{
    if ts.len() == 0 {
        (Seq::empty(), bufs)
    } else {
        let (rs, before) = assemble_run(bufs, ts.drop_last());
        let (r, after) = assemble_step(before, ts.last());
        (rs.push(r), after)
    }
}

proof fn lemma_joined_take(chunks: Seq<Seq<u8>>, i: int)
    requires
        0 <= i < chunks.len(),
    ensures
        joined(chunks.take(i + 1)) == joined(chunks.take(i)) + chunks[i],
        joined(chunks.take(i + 1)).len() <= joined(chunks).len(),
    decreases chunks.len(),
{
    assert(chunks.take(i + 1).drop_last() =~= chunks.take(i));
    if i + 1 < chunks.len() {
        lemma_joined_take(chunks.drop_last(), i);
        assert(chunks.drop_last().take(i + 1) =~= chunks.take(i + 1));
        assert(chunks.drop_last().take(i) =~= chunks.take(i));
    } else {
        assert(chunks.take(i + 1) =~= chunks);
    }
}

/// The steps before the last chunk: each asks for more, and the buffer of
/// the payload holds the chunks taken so far.
proof fn lemma_chunk_prefix(bufs: Map<i64, Seq<u8>>, id: i64, chunks: Seq<Seq<u8>>, n: int)
    requires
        !bufs.contains_key(id),
        0 <= n < chunks.len(),
        joined(chunks).len() <= MAX_WIRE_FRAME_BYTES,
    ensures
        ({
            let (rs, after) = assemble_run(bufs, chunk_transfers(id, chunks).take(n));
            &&& rs.len() == n
            &&& forall|i: int| 0 <= i < n ==> rs[i] == Ok::<Option<(i64, Seq<u8>)>, QuickShareReceiveError>(None)
            &&& after == (if n == 0 {
                bufs
            } else {
                bufs.insert(id, joined(chunks.take(n)))
            })
        }),
    decreases n,
{
    let ts = chunk_transfers(id, chunks);
    if n == 0 {
        assert(ts.take(0) =~= Seq::<PayloadTransferFrameModel>::empty());
    } else {
        let m = n - 1;
        lemma_chunk_prefix(bufs, id, chunks, m);
        assert(ts.take(n).drop_last() =~= ts.take(m));
        assert(ts.take(n).last() == ts[m]);
        let (rs, before) = assemble_run(bufs, ts.take(m));
        lemma_joined_take(chunks, m);
        if m == 0 {
            assert(chunks.take(0) =~= Seq::<Seq<u8>>::empty());
            assert(Seq::<u8>::empty() + chunks[0] =~= chunks[0]);
        }
        let buf = if before.contains_key(id) {
            before[id]
        } else {
            Seq::<u8>::empty()
        };
        assert(buf == joined(chunks.take(m)));
        let (r, after) = assemble_step(before, ts[m]);
        assert(r == Ok::<Option<(i64, Seq<u8>)>, QuickShareReceiveError>(None));
        if m > 0 {
            assert(after =~= bufs.insert(id, joined(chunks.take(n))));
        } else {
            assert(after =~= bufs.insert(id, joined(chunks.take(n))));
        }
    }
}

/// A byte payload sent in any number of chunks, each at the offset where the
/// ones before it end, is given back as the chunks joined in order, by the
/// last step; every step before asks for more, and the assembler then holds
/// what it held before. Chunks of other payloads leave this payload's buffer
/// alone, as [`lemma_other_payload_untouched`] says.
pub proof fn lemma_chunked_payload(bufs: Map<i64, Seq<u8>>, id: i64, chunks: Seq<Seq<u8>>)
    requires
        !bufs.contains_key(id),
        chunks.len() >= 1,
        joined(chunks).len() <= MAX_WIRE_FRAME_BYTES,
    ensures
        ({
            let (rs, after) = assemble_run(bufs, chunk_transfers(id, chunks));
            &&& rs.len() == chunks.len()
            &&& forall|i: int| 0 <= i < chunks.len() - 1 ==> rs[i] == Ok::<
                Option<(i64, Seq<u8>)>,
                QuickShareReceiveError,
            >(None)
            &&& rs[chunks.len() - 1] == Ok::<Option<(i64, Seq<u8>)>, QuickShareReceiveError>(
                Some((id, joined(chunks))),
            )
            &&& after == bufs
        }),
{
    let ts = chunk_transfers(id, chunks);
    let k = chunks.len() as int;
    let m = k - 1;
    lemma_chunk_prefix(bufs, id, chunks, m);
    assert(ts.take(k) =~= ts);
    assert(ts.take(k).drop_last() =~= ts.take(m));
    lemma_joined_take(chunks, m);
    assert(chunks.take(k) =~= chunks);
    if m == 0 {
        assert(chunks.take(0) =~= Seq::<Seq<u8>>::empty());
        assert(Seq::<u8>::empty() + chunks[0] =~= chunks[0]);
    }
    let (rs, before) = assemble_run(bufs, ts.take(m));
    let (r, after) = assemble_step(before, ts[m]);
    assert(r == Ok::<Option<(i64, Seq<u8>)>, QuickShareReceiveError>(Some((id, joined(chunks)))));
    assert(after =~= bufs);
}

/// What a chunk of payload `id` gives depends on that payload's buffer alone:
/// two assemblers that agree on it give the same result and agree on it
/// afterwards. With [`lemma_other_payload_untouched`], chunks of other
/// payloads interleaved with those of `id` change nothing of what
/// [`lemma_chunked_payload`] says of `id`.
pub proof fn lemma_step_depends_on_own_buffer(
    a: Map<i64, Seq<u8>>,
    b: Map<i64, Seq<u8>>,
    t: PayloadTransferFrameModel,
    id: i64,
)
    requires
        t.payload_header matches Some(h) && h.id == Some(id),
        a.contains_key(id) == b.contains_key(id),
        a.contains_key(id) ==> a[id] == b[id],
    ensures
        assemble_step(a, t).0 == assemble_step(b, t).0,
        assemble_step(a, t).1.contains_key(id) == assemble_step(b, t).1.contains_key(id),
        assemble_step(a, t).1.contains_key(id) ==> assemble_step(a, t).1[id] == assemble_step(b, t).1[id],
{
}

/// A chunk of another payload changes nothing of this payload's buffer.
pub proof fn lemma_other_payload_untouched(bufs: Map<i64, Seq<u8>>, t: PayloadTransferFrameModel, id: i64)
    requires
        t.payload_header matches Some(h) && h.id != Some(id),
    ensures
        assemble_step(bufs, t).1.contains_key(id) == bufs.contains_key(id),
        bufs.contains_key(id) ==> assemble_step(bufs, t).1[id] == bufs[id],
{
}

// ---------------------------------------------------------------------------
// Names of saved files.
// ---------------------------------------------------------------------------

/// A control character (Unicode category Cc): U+0000 to U+001F and U+007F to
/// U+009F.
pub open spec fn is_control_char(c: char) -> bool {
    (c as u32) <= 0x1f || (0x7f <= (c as u32) && (c as u32) <= 0x9f)
}

/// A character that file systems refuse or treat specially in a name.
pub open spec fn is_forbidden_char(c: char) -> bool {
    c == '<' || c == '>' || c == ':' || c == '"' || c == '/' || c == '\\' || c == '|' || c == '?' || c == '*'
}

/// A character with the Unicode White_Space property.
pub open spec fn is_white_space(c: char) -> bool {
    let v = c as u32;
    (0x09 <= v && v <= 0x0d) || v == 0x20 || v == 0x85 || v == 0xa0 || v == 0x1680 || (0x2000 <= v && v
        <= 0x200a) || v == 0x2028 || v == 0x2029 || v == 0x202f || v == 0x205f || v == 0x3000
}

/// The character as it is written in a saved name: control and forbidden
/// characters become `_`.
pub open spec fn sanitized_char(c: char) -> char {
    if is_control_char(c) || is_forbidden_char(c) {
        '_'
    } else {
        c
    }
}

/// A name with every character sanitized.
pub open spec fn sanitized_text(s: Seq<char>) -> Seq<char> {
    s.map_values(|c: char| sanitized_char(c))
}

/// `.` or `..`.
pub open spec fn is_dot_name(s: Seq<char>) -> bool {
    s == seq!['.'] || s == seq!['.', '.']
}

/// Text that is empty or only white space.
pub open spec fn is_blank(s: Seq<char>) -> bool {
    forall|i: int| 0 <= i < s.len() ==> is_white_space(#[trigger] s[i])
}

/// A path separator of either platform.
pub open spec fn is_separator(c: char) -> bool {
    c == '/' || c == '\\'
}

/// What follows the last separator of a path (all of it when it has none).
pub open spec fn last_segment(s: Seq<char>) -> Seq<char>
    decreases s.len(),
{
    if s.len() == 0 {
        s
    } else if is_separator(s.last()) {
        Seq::empty()
    } else {
        last_segment(s.drop_last()).push(s.last())
    }
}

fn char_is_white_space(c: char) -> (r: bool)
    ensures
        r == is_white_space(c),
{
    let v = c as u32;
    (0x09 <= v && v <= 0x0d) || v == 0x20 || v == 0x85 || v == 0xa0 || v == 0x1680 || (0x2000 <= v && v
        <= 0x200a) || v == 0x2028 || v == 0x2029 || v == 0x202f || v == 0x205f || v == 0x3000
}

fn is_dot_str(s: &str) -> (r: bool)
    ensures
        r == is_dot_name(s@),
{
    let n = s.unicode_len();
    if n == 1 {
        let r = s.get_char(0) == '.';
        assert(r ==> s@ =~= seq!['.']);
        r
    } else if n == 2 {
        let r = s.get_char(0) == '.' && s.get_char(1) == '.';
        assert(r ==> s@ =~= seq!['.', '.']);
        r
    } else {
        false
    }
}

/// A path component safe to use in a saved path: control and forbidden
/// characters become `_`. Empty, `.`, `..` and names that are blank once
/// sanitized are refused.
pub fn sanitize_path_component(component: &str) -> (r: Result<String, QuickShareReceiveError>)
    ensures
        (component@.len() == 0 || is_dot_name(component@) || is_blank(sanitized_text(component@))) <==> r is Err,
        r matches Err(e) ==> e == QuickShareReceiveError::UnsafeMetadata,
        r matches Ok(s) ==> s@ == sanitized_text(component@),
{
    let n = component.unicode_len();
    if n == 0 || is_dot_str(component) {
        return Err(QuickShareReceiveError::UnsafeMetadata);
    }
    let mut out = String::new();
    let mut blank = true;
    let mut i: usize = 0;
    while i < n
        invariant
            n == component@.len(),
            i <= n,
            out@ == sanitized_text(component@.subrange(0, i as int)),
            blank == is_blank(out@),
        decreases n - i,
    {
        let c = component.get_char(i);
        let v = c as u32;
        let replace = v <= 0x1f || (0x7f <= v && v <= 0x9f) || c == '<' || c == '>' || c == ':' || c == '"'
            || c == '/' || c == '\\' || c == '|' || c == '?' || c == '*';
        let written = if replace {
            '_'
        } else {
            c
        };
        let ghost prev = out@;
        push_char(&mut out, written);
        proof {
            if is_blank(prev) && is_white_space(written) {
                assert forall|k: int| 0 <= k < out@.len() implies is_white_space(#[trigger] out@[k]) by {
                    if k < prev.len() {
                        assert(out@[k] == prev[k]);
                    }
                }
            } else if !is_blank(prev) {
                let k = choose|k: int| 0 <= k < prev.len() && !is_white_space(#[trigger] prev[k]);
                assert(out@[k] == prev[k]);
            } else {
                assert(out@[prev.len() as int] == written);
            }
        }
        blank = blank && char_is_white_space(written);
        assert(component@.subrange(0, i + 1) =~= component@.subrange(0, i as int).push(c));
        assert(sanitized_text(component@.subrange(0, i + 1)) =~= sanitized_text(
            component@.subrange(0, i as int),
        ).push(written));
        i = i + 1;
    }
    assert(component@.subrange(0, n as int) =~= component@);
    if blank {
        Err(QuickShareReceiveError::UnsafeMetadata)
    } else {
        Ok(out)
    }
}

/// The saved name of an offered file: the last segment of the offered path,
/// sanitized. A path that ends in a separator, `.` or `..` is refused.
pub fn sanitize_file_name(name: &str) -> (r: Result<String, QuickShareReceiveError>)
    ensures
        ({
            let leaf = last_segment(name@);
            &&& (leaf.len() == 0 || is_dot_name(leaf) || is_blank(sanitized_text(leaf))) <==> r is Err
            &&& r matches Err(e) ==> e == QuickShareReceiveError::UnsafeMetadata
            &&& r matches Ok(s) ==> s@ == sanitized_text(leaf)
        }),
{
    let n = name.unicode_len();
    let mut start: usize = n;
    assert(name@.subrange(0, n as int) =~= name@);
    assert(last_segment(name@) + name@.subrange(n as int, n as int) =~= last_segment(name@));
    while start > 0 && !(name.get_char(start - 1) == '/' || name.get_char(start - 1) == '\\')
        invariant
            n == name@.len(),
            start <= n,
            last_segment(name@) == last_segment(name@.subrange(0, start as int)) + name@.subrange(start as int, n as int),
        decreases start,
    {
        let ghost pre = name@.subrange(0, start as int);
        assert(pre.drop_last() =~= name@.subrange(0, start - 1));
        assert(name@.subrange(start - 1, n as int) =~= seq![pre.last()] + name@.subrange(start as int, n as int));
        start = start - 1;
    }
    proof {
        if start == 0 {
            assert(name@.subrange(0, 0) =~= Seq::<char>::empty());
        }
        assert(last_segment(name@) =~= name@.subrange(start as int, n as int));
    }
    let leaf = name.substring_char(start, n);
    sanitize_path_component(leaf)
}

/// The device name to announce: the value with white space trimmed from both
/// ends, when that is 1 to 255 bytes of UTF-8.
pub open spec fn trimmed(s: Seq<char>) -> Seq<char>
    decreases s.len(),
{
    if s.len() == 0 {
        s
    } else if is_white_space(s[0]) {
        trimmed(s.drop_first())
    } else if is_white_space(s.last()) {
        trimmed(s.drop_last())
    } else {
        s
    }
}

/// The trimmed value when it is 1 to 255 bytes long.
pub fn valid_device_name(value: String) -> (r: Option<String>)
    ensures
        (0 < trimmed(value@).len() && encode_utf8(trimmed(value@)).len() <= 255) <==> r is Some,
        r matches Some(s) ==> s@ == trimmed(value@),
{
    let text = value.as_str();
    let n = text.unicode_len();
    let mut start: usize = 0;
    let mut end: usize = n;
    assert(value@.subrange(0, n as int) =~= value@);
    while start < end && (char_is_white_space(text.get_char(start)) || char_is_white_space(text.get_char(end - 1)))
        invariant
            n == value@.len(),
            text@ == value@,
            start <= end <= n,
            trimmed(value@) == trimmed(value@.subrange(start as int, end as int)),
        decreases end - start,
    {
        let ghost cur = value@.subrange(start as int, end as int);
        if char_is_white_space(text.get_char(start)) {
            assert(cur.drop_first() =~= value@.subrange(start + 1, end as int));
            start = start + 1;
        } else {
            assert(cur.drop_last() =~= value@.subrange(start as int, end - 1));
            end = end - 1;
        }
    }
    let ghost cur = value@.subrange(start as int, end as int);
    assert(trimmed(cur) == cur);
    let t = text.substring_char(start, end);
    if t.unicode_len() == 0 || t.as_bytes().len() > 255 {
        None
    } else {
        Some(t.to_owned())
    }
}


// ---------------------------------------------------------------------------
// Planning a transfer.
// ---------------------------------------------------------------------------

/// Largest total the receiver accepts: 100 GiB.
pub const MAX_TOTAL_TRANSFER_BYTES: u64 = 107374182400;

/// The components of a relative folder path, split at either separator, as
/// (finished components, component in progress).
pub open spec fn split_fold(s: Seq<char>) -> (Seq<Seq<char>>, Seq<char>)
    decreases s.len(),
{
    if s.len() == 0 {
        (Seq::empty(), Seq::empty())
    } else {
        let (done, cur) = split_fold(s.drop_last());
        if is_separator(s.last()) {
            (done.push(cur), Seq::empty())
        } else {
            (done, cur.push(s.last()))
        }
    }
}

/// The components of a relative folder path, split at either separator.
pub open spec fn path_components(s: Seq<char>) -> Seq<Seq<char>> {
    split_fold(s).0.push(split_fold(s).1)
}

/// A component that [`sanitize_path_component`] accepts.
pub open spec fn component_ok(c: Seq<char>) -> bool {
    !(c.len() == 0 || is_dot_name(c) || is_blank(sanitized_text(c)))
}

/// The sanitized components of an offered parent folder; no folder (or an
/// empty one) means the download directory itself. `None` when a component
/// is refused.
pub open spec fn safe_parent_components(parent: Option<Seq<char>>) -> Option<Seq<Seq<char>>> {
    match parent {
        None => Some(Seq::empty()),
        Some(p) => if p.len() == 0 {
            Some(Seq::empty())
        } else if forall|i: int| 0 <= i < path_components(p).len() ==> #[trigger] component_ok(path_components(p)[i]) {
            Some(path_components(p).map_values(|c: Seq<char>| sanitized_text(c)))
        } else {
            None
        },
    }
}

/// A file the transfer will save.
#[derive(Clone, Debug)]
pub struct PlannedFile {
    pub payload_id: i64,
    pub size: u64,
    /// The sanitized file name.
    pub name: String,
    /// The sanitized folders below the download directory.
    pub parent_components: Vec<String>,
}

/// A text the transfer will save.
#[derive(Clone, Debug)]
pub struct PlannedText {
    pub payload_id: i64,
    pub size: usize,
    pub text_type: TextType,
}

/// Everything the receiver will accept of a transfer, checked before it
/// answers the sender.
#[derive(Clone, Debug)]
pub struct TransferPlan {
    pub files: Vec<PlannedFile>,
    pub texts: Vec<PlannedText>,
    pub preview_payload_ids: Vec<i64>,
    pub total_bytes: u64,
}

/// The value of a planned file.
pub struct PlannedFileModel {
    pub payload_id: i64,
    pub size: u64,
    pub name: Seq<char>,
    pub parent_components: Seq<Seq<char>>,
}

/// The value of a planned text.
pub struct PlannedTextModel {
    pub payload_id: i64,
    pub size: usize,
    pub text_type: TextType,
}

impl View for PlannedFile {
    type V = PlannedFileModel;

    open spec fn view(&self) -> PlannedFileModel {
        PlannedFileModel {
            payload_id: self.payload_id,
            size: self.size,
            name: self.name@,
            parent_components: self.parent_components@.map_values(|c: String| c@),
        }
    }
}

impl View for PlannedText {
    type V = PlannedTextModel;

    open spec fn view(&self) -> PlannedTextModel {
        PlannedTextModel { payload_id: self.payload_id, size: self.size, text_type: self.text_type }
    }
}

/// Whether a payload ID is among the planned files.
pub open spec fn file_id_taken(planned: Seq<PlannedFileModel>, id: i64) -> bool {
    exists|k: int| 0 <= k < planned.len() && #[trigger] planned[k].payload_id == id
}

/// Whether a payload ID is among the planned texts.
pub open spec fn text_id_taken(planned: Seq<PlannedTextModel>, id: i64) -> bool {
    exists|k: int| 0 <= k < planned.len() && #[trigger] planned[k].payload_id == id
}

/// One more file entry checked: it needs a payload ID, a size that is not
/// negative and keeps the running total within 64 bits, a name whose last
/// segment is acceptable, acceptable parent-folder components and an ID not
/// used before.
pub open spec fn plan_file_step(
    acc: (Seq<PlannedFileModel>, int),
    f: FileMetadataModel,
) -> Result<(Seq<PlannedFileModel>, int), QuickShareReceiveError> {
    let (planned, total) = acc;
    match f.payload_id {
        None => Err(QuickShareReceiveError::UnsafeMetadata),
        Some(id) => match f.size {
            None => Err(QuickShareReceiveError::UnsafeMetadata),
            Some(size) => if size < 0 {
                Err(QuickShareReceiveError::UnsafeMetadata)
            } else if total + size > u64::MAX {
                Err(QuickShareReceiveError::TransferTooLarge)
            } else {
                match f.name {
                    None => Err(QuickShareReceiveError::UnsafeMetadata),
                    Some(name) => if !component_ok(last_segment(name)) {
                        Err(QuickShareReceiveError::UnsafeMetadata)
                    } else {
                        match safe_parent_components(f.parent_folder) {
                            None => Err(QuickShareReceiveError::UnsafeMetadata),
                            Some(parents) => if file_id_taken(planned, id) {
                                Err(QuickShareReceiveError::UnsafeMetadata)
                            } else {
                                Ok((
                                    planned.push(
                                        PlannedFileModel {
                                            payload_id: id,
                                            size: size as u64,
                                            name: sanitized_text(last_segment(name)),
                                            parent_components: parents,
                                        },
                                    ),
                                    total + size,
                                ))
                            },
                        }
                    },
                }
            },
        },
    }
}

/// The file entries checked in order.
pub open spec fn plan_files(files: Seq<FileMetadataModel>) -> Result<(Seq<PlannedFileModel>, int), QuickShareReceiveError>
    decreases files.len(),
{
    if files.len() == 0 {
        Ok((Seq::empty(), 0))
    } else {
        match plan_files(files.drop_last()) {
            Err(e) => Err(e),
            Ok(acc) => plan_file_step(acc, files.last()),
        }
    }
}

/// The kind of text a wire number names; numbers without a kind read as
/// unknown.
pub open spec fn text_type_of(code: Option<i32>) -> TextType {
    match code {
        Some(1) => TextType::Text,
        Some(2) => TextType::Url,
        Some(3) => TextType::Address,
        Some(4) => TextType::PhoneNumber,
        _ => TextType::Unknown,
    }
}

/// One more text entry checked: it needs a payload ID, a size that is not
/// negative and at most the frame limit and keeps the total within 64 bits,
/// and an ID that no file or earlier text uses.
pub open spec fn plan_text_step(
    files: Seq<PlannedFileModel>,
    acc: (Seq<PlannedTextModel>, int),
    t: TextMetadataModel,
) -> Result<(Seq<PlannedTextModel>, int), QuickShareReceiveError> {
    let (planned, total) = acc;
    match t.payload_id {
        None => Err(QuickShareReceiveError::UnsafeMetadata),
        Some(id) => match t.size {
            None => Err(QuickShareReceiveError::UnsafeMetadata),
            Some(size) => if size < 0 || size > usize::MAX || size > MAX_WIRE_FRAME_BYTES {
                Err(QuickShareReceiveError::UnsafeMetadata)
            } else if total + size > u64::MAX {
                Err(QuickShareReceiveError::TransferTooLarge)
            } else if text_id_taken(planned, id) || file_id_taken(files, id) {
                Err(QuickShareReceiveError::UnsafeMetadata)
            } else {
                Ok((
                    planned.push(PlannedTextModel { payload_id: id, size: size as usize, text_type: text_type_of(t.text_type) }),
                    total + size,
                ))
            },
        },
    }
}

/// The text entries checked in order, after the files.
pub open spec fn plan_texts(
    files: Seq<PlannedFileModel>,
    file_total: int,
    texts: Seq<TextMetadataModel>,
) -> Result<(Seq<PlannedTextModel>, int), QuickShareReceiveError>
    decreases texts.len(),
{
    if texts.len() == 0 {
        Ok((Seq::empty(), file_total))
    } else {
        match plan_texts(files, file_total, texts.drop_last()) {
            Err(e) => Err(e),
            Ok(acc) => plan_text_step(files, acc, texts.last()),
        }
    }
}

/// The planned files, texts and total of an introduction, or why it is
/// refused: an introduction with nothing in it, an unacceptable entry, or a
/// total above 100 GiB.
pub open spec fn plan_outcome(intro: IntroductionFrameModel) -> Result<
    (Seq<PlannedFileModel>, Seq<PlannedTextModel>, int),
    QuickShareReceiveError,
> {
    if intro.file_metadata.len() == 0 && intro.text_metadata.len() == 0 {
        Err(QuickShareReceiveError::UnsafeMetadata)
    } else {
        match plan_files(intro.file_metadata) {
            Err(e) => Err(e),
            Ok((files, file_total)) => match plan_texts(files, file_total, intro.text_metadata) {
                Err(e) => Err(e),
                Ok((texts, total)) => if total > MAX_TOTAL_TRANSFER_BYTES {
                    Err(QuickShareReceiveError::TransferTooLarge)
                } else {
                    Ok((files, texts, total))
                },
            },
        }
    }
}

/// Every file a plan lists has a size that a signed 64-bit count holds:
/// the sizes come from the introduction's signed sizes, which must not be
/// negative.
pub proof fn lemma_plan_sizes_fit(intro: IntroductionFrameModel)
    ensures
        plan_outcome(intro) matches Ok((files, texts, total)) ==> forall|k: int|
            0 <= k < files.len() ==> #[trigger] files[k].size <= i64::MAX,
{
    lemma_planned_file_sizes_fit(intro.file_metadata);
}

proof fn lemma_planned_file_sizes_fit(files: Seq<FileMetadataModel>)
    ensures
        plan_files(files) matches Ok((planned, total)) ==> forall|k: int|
            0 <= k < planned.len() ==> #[trigger] planned[k].size <= i64::MAX,
    decreases files.len(),
{
    if files.len() > 0 {
        lemma_planned_file_sizes_fit(files.drop_last());
    }
}

/// An error while checking a prefix of the files stays the error.
proof fn lemma_plan_files_error(files: Seq<FileMetadataModel>, i: int)
    requires
        0 <= i <= files.len(),
        plan_files(files.subrange(0, i)) is Err,
    ensures
        plan_files(files) == plan_files(files.subrange(0, i)),
    decreases files.len() - i,
{
    if i < files.len() {
        assert(files.subrange(0, i + 1).drop_last() =~= files.subrange(0, i));
        lemma_plan_files_error(files, i + 1);
    } else {
        assert(files.subrange(0, i) =~= files);
    }
}

/// An error while checking a prefix of the texts stays the error.
proof fn lemma_plan_texts_error(files: Seq<PlannedFileModel>, file_total: int, texts: Seq<TextMetadataModel>, i: int)
    requires
        0 <= i <= texts.len(),
        plan_texts(files, file_total, texts.subrange(0, i)) is Err,
    ensures
        plan_texts(files, file_total, texts) == plan_texts(files, file_total, texts.subrange(0, i)),
    decreases texts.len() - i,
{
    if i < texts.len() {
        assert(texts.subrange(0, i + 1).drop_last() =~= texts.subrange(0, i));
        lemma_plan_texts_error(files, file_total, texts, i + 1);
    } else {
        assert(texts.subrange(0, i) =~= texts);
    }
}

/// The sanitized components of an offered parent folder, as
/// [`safe_parent_components`] says.
pub fn sanitize_parent_folder(parent: &Option<String>) -> (r: Result<Vec<String>, QuickShareReceiveError>)
    ensures
        match safe_parent_components(opt_str_view(*parent)) {
            Some(cs) => r matches Ok(v) && v@.map_values(|c: String| c@) == cs,
            None => r matches Err(e) && e == QuickShareReceiveError::UnsafeMetadata,
        },
{
    let p = match parent {
        Some(p) => p.as_str(),
        None => {
            let v: Vec<String> = Vec::new();
            assert(v@.map_values(|c: String| c@) =~= Seq::<Seq<char>>::empty());
            return Ok(v);
        },
    };
    let n = p.unicode_len();
    assert(opt_str_view(*parent) == Some(p@));
    if n == 0 {
        let v: Vec<String> = Vec::new();
        assert(v@.map_values(|c: String| c@) =~= Seq::<Seq<char>>::empty());
        return Ok(v);
    }
    let mut done: Vec<String> = Vec::new();
    let mut current = String::new();
    let mut i: usize = 0;
    while i < n
        invariant
            n == p@.len(),
            i <= n,
            (done@.map_values(|c: String| c@), current@) == split_fold(p@.subrange(0, i as int)),
        decreases n - i,
    {
        let c = p.get_char(i);
        let ghost pre = p@.subrange(0, i + 1);
        assert(pre.drop_last() =~= p@.subrange(0, i as int));
        assert(pre.last() == c);
        if c == '/' || c == '\\' {
            let ghost old_done = done@.map_values(|s: String| s@);
            let ghost old_cur = current@;
            done.push(current);
            current = String::new();
            assert(done@.map_values(|s: String| s@) =~= old_done.push(old_cur));
        } else {
            push_char(&mut current, c);
        }
        i = i + 1;
    }
    assert(p@.subrange(0, n as int) =~= p@);
    let ghost comps = path_components(p@);
    let ghost old_done = done@.map_values(|s: String| s@);
    done.push(current);
    assert(done@.map_values(|s: String| s@) =~= comps);
    let mut out: Vec<String> = Vec::new();
    let mut k: usize = 0;
    while k < done.len()
        invariant
            k <= done@.len(),
            opt_str_view(*parent) == Some(p@),
            p@.len() > 0,
            comps == path_components(p@),
            done@.map_values(|s: String| s@) == comps,
            forall|j: int| 0 <= j < k ==> #[trigger] component_ok(comps[j]),
            out@.map_values(|s: String| s@) == comps.subrange(0, k as int).map_values(|c: Seq<char>| sanitized_text(c)),
        decreases done@.len() - k,
    {
        assert(comps[k as int] == done@[k as int]@);
        match sanitize_path_component(done[k].as_str()) {
            Ok(s) => {
                let ghost old_out = out@.map_values(|x: String| x@);
                out.push(s);
                assert(comps.subrange(0, k + 1).map_values(|c: Seq<char>| sanitized_text(c)) =~= comps.subrange(
                    0,
                    k as int,
                ).map_values(|c: Seq<char>| sanitized_text(c)).push(sanitized_text(comps[k as int])));
                assert(out@.map_values(|x: String| x@) =~= old_out.push(sanitized_text(comps[k as int])));
            },
            Err(e) => {
                assert(!component_ok(comps[k as int]));
                assert(opt_str_view(*parent) == Some(p@));
                assert(!(forall|i: int| 0 <= i < path_components(p@).len() ==> #[trigger] component_ok(path_components(p@)[i])));
                return Err(e);
            },
        }
        k = k + 1;
    }
    assert(comps.subrange(0, comps.len() as int) =~= comps);
    Ok(out)
}

fn file_id_used(planned: &Vec<PlannedFile>, id: i64) -> (r: bool)
    ensures
        r == file_id_taken(planned@.map_values(|f: PlannedFile| f@), id),
{
    let ghost m = planned@.map_values(|f: PlannedFile| f@);
    let mut k: usize = 0;
    while k < planned.len()
        invariant
            k <= planned@.len(),
            m == planned@.map_values(|f: PlannedFile| f@),
            forall|j: int| 0 <= j < k ==> m[j].payload_id != id,
        decreases planned@.len() - k,
    {
        if planned[k].payload_id == id {
            assert(m[k as int].payload_id == id);
            return true;
        }
        k = k + 1;
    }
    false
}

fn text_id_used(planned: &Vec<PlannedText>, id: i64) -> (r: bool)
    ensures
        r == text_id_taken(planned@.map_values(|t: PlannedText| t@), id),
{
    let ghost m = planned@.map_values(|t: PlannedText| t@);
    let mut k: usize = 0;
    while k < planned.len()
        invariant
            k <= planned@.len(),
            m == planned@.map_values(|t: PlannedText| t@),
            forall|j: int| 0 <= j < k ==> m[j].payload_id != id,
        decreases planned@.len() - k,
    {
        if planned[k].payload_id == id {
            assert(m[k as int].payload_id == id);
            return true;
        }
        k = k + 1;
    }
    false
}

/// Checks one file entry as [`plan_file_step`] says.
fn plan_one_file(planned: &Vec<PlannedFile>, total: u64, f: &FileMetadata) -> (r: Result<(PlannedFile, u64), QuickShareReceiveError>)
    ensures
        match plan_file_step((planned@.map_values(|x: PlannedFile| x@), total as int), f@) {
            Ok((p, t)) => r matches Ok((pf, nt)) && p == planned@.map_values(|x: PlannedFile| x@).push(pf@) && nt == t,
            Err(e) => r matches Err(x) && x == e,
        },
{
    let id = match f.payload_id {
        Some(i) => i,
        None => return Err(QuickShareReceiveError::UnsafeMetadata),
    };
    let size = match f.size {
        Some(s) => {
            if s < 0 {
                return Err(QuickShareReceiveError::UnsafeMetadata);
            }
            s as u64
        },
        None => return Err(QuickShareReceiveError::UnsafeMetadata),
    };
    let new_total = match total.checked_add(size) {
        Some(t) => t,
        None => return Err(QuickShareReceiveError::TransferTooLarge),
    };
    let name = match &f.name {
        Some(n) => n,
        None => return Err(QuickShareReceiveError::UnsafeMetadata),
    };
    let safe_name = match sanitize_file_name(name.as_str()) {
        Ok(s) => s,
        Err(e) => return Err(e),
    };
    let parents = match sanitize_parent_folder(&f.parent_folder) {
        Ok(p) => p,
        Err(e) => return Err(e),
    };
    if file_id_used(planned, id) {
        return Err(QuickShareReceiveError::UnsafeMetadata);
    }
    Ok((PlannedFile { payload_id: id, size, name: safe_name, parent_components: parents }, new_total))
}

/// Checks one text entry as [`plan_text_step`] says.
fn plan_one_text(
    files: &Vec<PlannedFile>,
    planned: &Vec<PlannedText>,
    total: u64,
    t: &TextMetadata,
) -> (r: Result<(PlannedText, u64), QuickShareReceiveError>)
    ensures
        match plan_text_step(
            files@.map_values(|x: PlannedFile| x@),
            (planned@.map_values(|x: PlannedText| x@), total as int),
            t@,
        ) {
            Ok((p, nt)) => r matches Ok((pt, n)) && p == planned@.map_values(|x: PlannedText| x@).push(pt@) && n == nt,
            Err(e) => r matches Err(x) && x == e,
        },
{
    let id = match t.payload_id {
        Some(i) => i,
        None => return Err(QuickShareReceiveError::UnsafeMetadata),
    };
    let size = match t.size {
        Some(s) => {
            if s < 0 || s > MAX_WIRE_FRAME_BYTES as i64 {
                return Err(QuickShareReceiveError::UnsafeMetadata);
            }
            s as usize
        },
        None => return Err(QuickShareReceiveError::UnsafeMetadata),
    };
    let new_total = match total.checked_add(size as u64) {
        Some(n) => n,
        None => return Err(QuickShareReceiveError::TransferTooLarge),
    };
    if text_id_used(planned, id) || file_id_used(files, id) {
        return Err(QuickShareReceiveError::UnsafeMetadata);
    }
    let text_type = match t.text_type {
        Some(code) => match TextType::try_from_i32(code) {
            Some(tt) => {
                assert(tt.code() == code);
                assert(text_type_of(Some(code)) == tt) by {
                    match tt {
                        TextType::Unknown => {},
                        TextType::Text => {},
                        TextType::Url => {},
                        TextType::Address => {},
                        TextType::PhoneNumber => {},
                    }
                }
                tt
            },
            None => {
                assert(TextType::Text.code() != code);
                assert(TextType::Url.code() != code);
                assert(TextType::Address.code() != code);
                assert(TextType::PhoneNumber.code() != code);
                TextType::Unknown
            },
        },
        None => TextType::Unknown,
    };
    Ok((PlannedText { payload_id: id, size, text_type }, new_total))
}

/// Checks an introduction before the transfer is accepted, as
/// [`plan_outcome`] says, and lists what will be saved.
pub fn plan_transfer(introduction: &IntroductionFrame) -> (r: Result<TransferPlan, QuickShareReceiveError>)
    ensures
        match plan_outcome(introduction@) {
            Ok((files, texts, total)) => r matches Ok(plan) && plan.files@.map_values(|f: PlannedFile| f@) == files
                && plan.texts@.map_values(|t: PlannedText| t@) == texts && plan.total_bytes == total
                && plan.preview_payload_ids@ == introduction@.preview_payload_ids,
            Err(e) => r matches Err(x) && x == e,
        },
{
    if introduction.file_metadata.len() == 0 && introduction.text_metadata.len() == 0 {
        return Err(QuickShareReceiveError::UnsafeMetadata);
    }
    let ghost fm = introduction@.file_metadata;
    let ghost tm = introduction@.text_metadata;
    let mut files: Vec<PlannedFile> = Vec::new();
    let mut total: u64 = 0;
    let mut i: usize = 0;
    assert(fm.subrange(0, 0) =~= Seq::<FileMetadataModel>::empty());
    assert(files@.map_values(|x: PlannedFile| x@) =~= Seq::<PlannedFileModel>::empty());
    while i < introduction.file_metadata.len()
        invariant
            fm == introduction@.file_metadata,
            i <= fm.len(),
            plan_files(fm.subrange(0, i as int)) == Ok::<(Seq<PlannedFileModel>, int), QuickShareReceiveError>(
                (files@.map_values(|x: PlannedFile| x@), total as int),
            ),
        decreases fm.len() - i,
    {
        let ghost pre = fm.subrange(0, i + 1);
        assert(pre.drop_last() =~= fm.subrange(0, i as int));
        assert(pre.last() == introduction.file_metadata@[i as int]@);
        match plan_one_file(&files, total, &introduction.file_metadata[i]) {
            Ok((pf, nt)) => {
                let ghost old_files = files@.map_values(|x: PlannedFile| x@);
                files.push(pf);
                assert(files@.map_values(|x: PlannedFile| x@) =~= old_files.push(pf@));
                total = nt;
            },
            Err(e) => {
                proof {
                    lemma_plan_files_error(fm, i + 1);
                }
                return Err(e);
            },
        }
        i = i + 1;
    }
    assert(fm.subrange(0, fm.len() as int) =~= fm);
    let ghost planned_files = files@.map_values(|x: PlannedFile| x@);
    let ghost file_total = total as int;
    let mut texts: Vec<PlannedText> = Vec::new();
    let mut j: usize = 0;
    assert(tm.subrange(0, 0) =~= Seq::<TextMetadataModel>::empty());
    assert(texts@.map_values(|x: PlannedText| x@) =~= Seq::<PlannedTextModel>::empty());
    while j < introduction.text_metadata.len()
        invariant
            tm == introduction@.text_metadata,
            j <= tm.len(),
            planned_files == files@.map_values(|x: PlannedFile| x@),
            plan_files(fm) == Ok::<(Seq<PlannedFileModel>, int), QuickShareReceiveError>((planned_files, file_total)),
            fm == introduction@.file_metadata,
            plan_texts(planned_files, file_total, tm.subrange(0, j as int)) == Ok::<
                (Seq<PlannedTextModel>, int),
                QuickShareReceiveError,
            >((texts@.map_values(|x: PlannedText| x@), total as int)),
        decreases tm.len() - j,
    {
        let ghost pre = tm.subrange(0, j + 1);
        assert(pre.drop_last() =~= tm.subrange(0, j as int));
        assert(pre.last() == introduction.text_metadata@[j as int]@);
        match plan_one_text(&files, &texts, total, &introduction.text_metadata[j]) {
            Ok((pt, nt)) => {
                let ghost old_texts = texts@.map_values(|x: PlannedText| x@);
                texts.push(pt);
                assert(texts@.map_values(|x: PlannedText| x@) =~= old_texts.push(pt@));
                total = nt;
            },
            Err(e) => {
                proof {
                    lemma_plan_texts_error(planned_files, file_total, tm, j + 1);
                }
                return Err(e);
            },
        }
        j = j + 1;
    }
    assert(tm.subrange(0, tm.len() as int) =~= tm);
    if total > MAX_TOTAL_TRANSFER_BYTES {
        return Err(QuickShareReceiveError::TransferTooLarge);
    }
    let preview_payload_ids = slice_to_vec(introduction.preview_payload_ids.as_slice());
    Ok(TransferPlan { files, texts, preview_payload_ids, total_bytes: total })
}


// ---------------------------------------------------------------------------
// Receiving the announced payloads.
// ---------------------------------------------------------------------------

/// How much of an announced file has arrived.
#[derive(Clone, Copy, Debug, PartialEq, Eq, Structural)]
pub struct FileProgress {
    pub expected: u64,
    pub received: u64,
}

/// What the caller does with a chunk of a file payload: append `body` to the
/// file's partial copy, and move it into place when `complete`.
#[derive(Debug)]
pub struct FileChunkAction {
    pub id: i64,
    pub body: Option<Vec<u8>>,
    pub complete: bool,
}

/// The payloads of an accepted transfer that have not fully arrived, and the
/// byte counts shown as progress.
pub struct TransferState {
    files: HashMap<i64, FileProgress>,
    texts: HashMap<i64, PlannedText>,
    previews: HashSet<i64>,
    total_bytes: u64,
    received_bytes: u64,
}

/// The value of a transfer's state.
pub struct TransferStateModel {
    pub files: Map<i64, FileProgress>,
    pub texts: Map<i64, PlannedTextModel>,
    pub previews: Set<i64>,
    pub total_bytes: u64,
    pub received_bytes: u64,
}

impl TransferStateModel {
    /// No file has more than announced, and no announced size exceeds the
    /// largest offset the wire can carry.
    pub open spec fn wf(self) -> bool {
        forall|id: i64| #[trigger] self.files.contains_key(id) ==> self.files[id].received <= self.files[id].expected
            <= i64::MAX
    }

    /// The state with `n` more bytes counted as received (saturating).
    pub open spec fn count(self, n: int) -> Self {
        TransferStateModel {
            received_bytes: if self.received_bytes + n > u64::MAX {
                u64::MAX
            } else {
                (self.received_bytes + n) as u64
            },
            ..self
        }
    }
}

/// One chunk of a file payload taken in: what to write, or the error, and
/// the state afterwards. A chunk must name an announced file, start where
/// the received part ends and stay within the announced size; the last chunk
/// must complete the file, which then leaves the state.
pub open spec fn file_chunk_step(s: TransferStateModel, t: PayloadTransferFrameModel) -> (
    Result<(i64, Option<Seq<u8>>, bool), QuickShareReceiveError>,
    TransferStateModel,
) {
    match t.payload_header {
        None => (Err(QuickShareReceiveError::Protocol("missing file payload header")), s),
        Some(h) => match h.id {
            None => (Err(QuickShareReceiveError::Protocol("missing file payload ID")), s),
            Some(id) => match t.payload_chunk {
                None => (Err(QuickShareReceiveError::Protocol("missing file payload chunk")), s),
                Some(c) => if !s.files.contains_key(id) {
                    (Err(QuickShareReceiveError::Protocol("unknown file payload ID")), s)
                } else {
                    let fp = s.files[id];
                    if c.offset != Some(fp.received as i64) {
                        (Err(QuickShareReceiveError::Protocol("unexpected file offset")), s)
                    } else if c.body matches Some(b) && fp.received + b.len() > u64::MAX {
                        (Err(QuickShareReceiveError::Protocol("file size overflow")), s)
                    } else if c.body matches Some(b) && fp.received + b.len() > fp.expected {
                        (Err(QuickShareReceiveError::Protocol("file exceeds declared size")), s)
                    } else {
                        let s1 = match c.body {
                            Some(b) => TransferStateModel {
                                files: s.files.insert(id, FileProgress { expected: fp.expected, received: (fp.received + b.len()) as u64 }),
                                ..s.count(b.len() as int)
                            },
                            None => s,
                        };
                        if last_chunk(c.flags) {
                            if s1.files[id].received != fp.expected {
                                (Err(QuickShareReceiveError::Protocol("incomplete file payload")), s1)
                            } else {
                                (Ok((id, c.body, true)), TransferStateModel { files: s1.files.remove(id), ..s1 })
                            }
                        } else {
                            (Ok((id, c.body, false)), s1)
                        }
                    }
                },
            },
        },
    }
}

/// The state of a transfer that is about to start, for a plan: every planned
/// file with nothing received (the last entry counts where an ID repeats),
/// every planned text, the preview IDs, the planned total and nothing
/// received.
pub open spec fn started_from(m: TransferStateModel, plan: TransferPlan) -> bool {
    &&& m.total_bytes == plan.total_bytes
    &&& m.received_bytes == 0
    &&& forall|id: i64| m.files.contains_key(id) <==> exists|k: int|
        0 <= k < plan.files@.len() && #[trigger] plan.files@[k].payload_id == id
    &&& forall|k: int| 0 <= k < plan.files@.len() && (forall|j: int| 0 <= j < k ==> plan.files@[j].payload_id != plan.files@[k].payload_id)
        ==> m.files[#[trigger] plan.files@[k].payload_id] == (FileProgress { expected: plan.files@[k].size, received: 0 })
            || exists|j: int| k < j < plan.files@.len() && plan.files@[j].payload_id == plan.files@[k].payload_id
    &&& forall|id: i64| m.texts.contains_key(id) <==> exists|k: int|
        0 <= k < plan.texts@.len() && #[trigger] plan.texts@[k].payload_id == id
    &&& forall|id: i64| m.previews.contains(id) <==> plan.preview_payload_ids@.contains(id)
}

impl TransferState {
    /// The state's value.
    pub closed spec fn model(self) -> TransferStateModel {
        TransferStateModel {
            files: self.files@,
            texts: self.texts@.map_values(|t: PlannedText| t@),
            previews: self.previews@,
            total_bytes: self.total_bytes,
            received_bytes: self.received_bytes,
        }
    }

    /// The state of a transfer that is about to start: every planned file
    /// with nothing received, every planned text, the preview IDs, and the
    /// planned total.
    pub fn from_plan(plan: &TransferPlan) -> (r: Self)
        requires
            forall|k: int| 0 <= k < plan.files@.len() ==> #[trigger] plan.files@[k].size <= i64::MAX,
        ensures
            r.model().wf(),
            started_from(r.model(), *plan),
    {
        broadcast use vstd::std_specs::hash::group_hash_axioms;
        let mut files: HashMap<i64, FileProgress> = HashMap::new();
        let mut i: usize = 0;
        while i < plan.files.len()
            invariant
                i <= plan.files@.len(),
                forall|k: int| 0 <= k < plan.files@.len() ==> #[trigger] plan.files@[k].size <= i64::MAX,
                forall|id: i64| files@.contains_key(id) <==> exists|k: int| 0 <= k < i && #[trigger] plan.files@[k].payload_id == id,
                forall|id: i64| #[trigger] files@.contains_key(id) ==> files@[id].received == 0 && files@[id].expected <= i64::MAX,
                forall|k: int| 0 <= k < i && (forall|j: int| 0 <= j < k ==> plan.files@[j].payload_id != plan.files@[k].payload_id)
                    ==> files@[#[trigger] plan.files@[k].payload_id] == (FileProgress { expected: plan.files@[k].size, received: 0 })
                        || exists|j: int| k < j < i && plan.files@[j].payload_id == plan.files@[k].payload_id,
            decreases plan.files@.len() - i,
        {
            let f = &plan.files[i];
            files.insert(f.payload_id, FileProgress { expected: f.size, received: 0 });
            proof {
                assert forall|id: i64| files@.contains_key(id) <==> exists|k: int| 0 <= k < i + 1 && #[trigger] plan.files@[k].payload_id == id by {
                    if id == f.payload_id {
                        assert(plan.files@[i as int].payload_id == id);
                    }
                }
            }
            i = i + 1;
        }
        let mut texts: HashMap<i64, PlannedText> = HashMap::new();
        let mut j: usize = 0;
        while j < plan.texts.len()
            invariant
                j <= plan.texts@.len(),
                forall|id: i64| texts@.contains_key(id) <==> exists|k: int| 0 <= k < j && #[trigger] plan.texts@[k].payload_id == id,
            decreases plan.texts@.len() - j,
        {
            let t = &plan.texts[j];
            texts.insert(t.payload_id, PlannedText { payload_id: t.payload_id, size: t.size, text_type: t.text_type });
            proof {
                assert forall|id: i64| texts@.contains_key(id) <==> exists|k: int| 0 <= k < j + 1 && #[trigger] plan.texts@[k].payload_id == id by {
                    if id == t.payload_id {
                        assert(plan.texts@[j as int].payload_id == id);
                    }
                }
            }
            j = j + 1;
        }
        let mut previews: HashSet<i64> = HashSet::new();
        let mut k: usize = 0;
        while k < plan.preview_payload_ids.len()
            invariant
                k <= plan.preview_payload_ids@.len(),
                forall|id: i64| previews@.contains(id) <==> plan.preview_payload_ids@.subrange(0, k as int).contains(id),
            decreases plan.preview_payload_ids@.len() - k,
        {
            let id = plan.preview_payload_ids[k];
            previews.insert(id);
            proof {
                let pre = plan.preview_payload_ids@.subrange(0, k + 1);
                assert(pre =~= plan.preview_payload_ids@.subrange(0, k as int).push(id));
                assert forall|x: i64| previews@.contains(x) <==> pre.contains(x) by {
                    if x == id {
                        assert(pre[k as int] == id);
                    }
                    if pre.contains(x) && x != id {
                        let w = choose|w: int| 0 <= w < pre.len() && pre[w] == x;
                        assert(plan.preview_payload_ids@.subrange(0, k as int)[w] == x);
                    }
                }
            }
            k = k + 1;
        }
        assert(plan.preview_payload_ids@.subrange(0, k as int) =~= plan.preview_payload_ids@);
        TransferState { files, texts, previews, total_bytes: plan.total_bytes, received_bytes: 0 }
    }

    /// Whether every announced file and text has arrived.
    pub fn is_done(&self) -> (r: bool)
        ensures
            r == (self.model().files.is_empty() && self.model().texts.is_empty()),
    {
        broadcast use vstd::std_specs::hash::group_hash_axioms;
        self.files.is_empty() && self.texts.is_empty()
    }

    /// Bytes received so far.
    pub fn received_bytes(&self) -> (r: u64)
        ensures
            r == self.model().received_bytes,
    {
        self.received_bytes
    }

    /// Bytes the transfer announced.
    pub fn total_bytes(&self) -> (r: u64)
        ensures
            r == self.model().total_bytes,
    {
        self.total_bytes
    }

    /// Whether an ID is that of an announced file still expected.
    pub fn expects_file(&self, id: i64) -> (r: bool)
        ensures
            r == self.model().files.contains_key(id),
    {
        broadcast use vstd::std_specs::hash::group_hash_axioms;
        self.files.contains_key(&id)
    }

    /// Whether an ID is that of an announced text still expected.
    pub fn expects_text(&self, id: i64) -> (r: bool)
        ensures
            r == self.model().texts.contains_key(id),
    {
        broadcast use vstd::std_specs::hash::group_hash_axioms;
        self.texts.contains_key(&id)
    }

    /// Takes a preview ID out of the set; whether it was there.
    pub fn take_preview(&mut self, id: i64) -> (r: bool)
        ensures
            r == old(self).model().previews.contains(id),
            final(self).model() == (TransferStateModel { previews: old(self).model().previews.remove(id), ..old(self).model() }),
    {
        broadcast use vstd::std_specs::hash::group_hash_axioms;
        let r = self.previews.remove(&id);
        assert(self.model().texts =~= old(self).model().texts);
        r
    }

    /// Takes in one chunk of a file payload, as [`file_chunk_step`] says.
    pub fn file_chunk(&mut self, transfer: &PayloadTransferFrame) -> (r: Result<FileChunkAction, QuickShareReceiveError>)
        requires
            old(self).model().wf(),
        ensures
            final(self).model().wf(),
            final(self).model() == file_chunk_step(old(self).model(), transfer@).1,
            match file_chunk_step(old(self).model(), transfer@).0 {
                Ok((id, body, complete)) => r matches Ok(a) && a.id == id && opt_bytes_view(a.body) == body
                    && a.complete == complete,
                Err(e) => r matches Err(x) && x == e,
            },
    {
        broadcast use vstd::std_specs::hash::group_hash_axioms;
        let ghost s = self.model();
        let header = match &transfer.payload_header {
            Some(h) => h,
            None => return Err(QuickShareReceiveError::Protocol("missing file payload header")),
        };
        let id = match header.id {
            Some(i) => i,
            None => return Err(QuickShareReceiveError::Protocol("missing file payload ID")),
        };
        let chunk = match &transfer.payload_chunk {
            Some(c) => c,
            None => return Err(QuickShareReceiveError::Protocol("missing file payload chunk")),
        };
        let fp = match self.files.get(&id) {
            Some(p) => *p,
            None => return Err(QuickShareReceiveError::Protocol("unknown file payload ID")),
        };
        if chunk.offset != Some(fp.received as i64) {
            return Err(QuickShareReceiveError::Protocol("unexpected file offset"));
        }
        let body = match &chunk.body {
            Some(b) => {
                let len = b.len() as u64;
                if fp.received > u64::MAX - len {
                    return Err(QuickShareReceiveError::Protocol("file size overflow"));
                }
                let next = fp.received + len;
                if next > fp.expected {
                    return Err(QuickShareReceiveError::Protocol("file exceeds declared size"));
                }
                self.files.insert(id, FileProgress { expected: fp.expected, received: next });
                self.received_bytes = if self.received_bytes > u64::MAX - len {
                    u64::MAX
                } else {
                    self.received_bytes + len
                };
                assert(self.model().texts =~= s.texts);
                Some(slice_to_vec(b.as_slice()))
            },
            None => None,
        };
        let ghost s1 = self.model();
        if is_last_chunk(chunk.flags) {
            let now = match self.files.get(&id) {
                Some(p) => p.received,
                None => fp.received,
            };
            if now != fp.expected {
                return Err(QuickShareReceiveError::Protocol("incomplete file payload"));
            }
            self.files.remove(&id);
            assert(self.model() =~= (TransferStateModel { files: s1.files.remove(id), ..s1 }));
            return Ok(FileChunkAction { id, body, complete: true });
        }
        Ok(FileChunkAction { id, body, complete: false })
    }

    /// Takes in a whole file sent as one byte payload: the file leaves the
    /// state; its length must be the announced size.
    pub fn file_bytes(&mut self, id: i64, len: usize) -> (r: Result<(), QuickShareReceiveError>)
        requires
            old(self).model().wf(),
        ensures
            final(self).model().wf(),
            !old(self).model().files.contains_key(id) ==> (r matches Err(e) && e == QuickShareReceiveError::Protocol("unknown file payload ID")
                && final(self).model() == old(self).model()),
            old(self).model().files.contains_key(id) ==> {
                let removed = TransferStateModel { files: old(self).model().files.remove(id), ..old(self).model() };
                if len != old(self).model().files[id].expected {
                    r matches Err(e) && e == QuickShareReceiveError::Protocol("file payload size mismatch")
                        && final(self).model() == removed
                } else {
                    r is Ok && final(self).model() == removed.count(len as int)
                }
            },
    {
        broadcast use vstd::std_specs::hash::group_hash_axioms;
        let ghost s = self.model();
        let fp = match self.files.remove(&id) {
            Some(p) => p,
            None => {
                assert(s.files.remove(id) =~= s.files);
                assert(self.model().texts =~= s.texts);
                assert(self.model() =~= s);
                return Err(QuickShareReceiveError::Protocol("unknown file payload ID"));
            },
        };
        assert(self.model().texts =~= s.texts);
        assert(self.model() =~= (TransferStateModel { files: s.files.remove(id), ..s }));
        if len as u64 != fp.expected {
            return Err(QuickShareReceiveError::Protocol("file payload size mismatch"));
        }
        let n = len as u64;
        self.received_bytes = if self.received_bytes > u64::MAX - n {
            u64::MAX
        } else {
            self.received_bytes + n
        };
        Ok(())
    }

    /// Takes in a text sent as a byte payload: the text leaves the state; its
    /// length must be the announced size. Returns the kind of text.
    pub fn text_bytes(&mut self, id: i64, len: usize) -> (r: Result<TextType, QuickShareReceiveError>)
        requires
            old(self).model().wf(),
        ensures
            final(self).model().wf(),
            !old(self).model().texts.contains_key(id) ==> (r matches Err(e) && e == QuickShareReceiveError::Protocol("unknown text payload ID")
                && final(self).model() == old(self).model()),
            old(self).model().texts.contains_key(id) ==> {
                let removed = TransferStateModel { texts: old(self).model().texts.remove(id), ..old(self).model() };
                if len != old(self).model().texts[id].size {
                    r matches Err(e) && e == QuickShareReceiveError::Protocol("text payload size mismatch")
                        && final(self).model() == removed
                } else {
                    r matches Ok(t) && t == old(self).model().texts[id].text_type && final(self).model() == removed.count(len as int)
                }
            },
    {
        broadcast use vstd::std_specs::hash::group_hash_axioms;
        let ghost s = self.model();
        let pending = match self.texts.remove(&id) {
            Some(p) => p,
            None => {
                assert(old(self).texts@.remove(id) =~= old(self).texts@);
                assert(self.model().texts =~= s.texts);
                assert(self.model() =~= s);
                return Err(QuickShareReceiveError::Protocol("unknown text payload ID"));
            },
        };
        assert(self.model().texts =~= s.texts.remove(id));
        assert(self.model() =~= (TransferStateModel { texts: s.texts.remove(id), ..s }));
        if len != pending.size {
            return Err(QuickShareReceiveError::Protocol("text payload size mismatch"));
        }
        let n = len as u64;
        self.received_bytes = if self.received_bytes > u64::MAX - n {
            u64::MAX
        } else {
            self.received_bytes + n
        };
        Ok(pending.text_type)
    }
}


// ---------------------------------------------------------------------------
// Reacting to decrypted frames.
// ---------------------------------------------------------------------------

/// The sequence number to acknowledge for a keep-alive frame, unless it is
/// itself an acknowledgement.
pub open spec fn keep_alive_reply(v1: OfflineV1FrameModel) -> Option<Option<u32>> {
    match v1.keep_alive {
        Some(k) => if k.ack == Some(true) {
            None
        } else {
            Some(k.seq_num)
        },
        None => Some(None),
    }
}

/// The sequence number to acknowledge for a keep-alive frame, unless it is
/// itself an acknowledgement.
pub fn keep_alive_ack_for(v1: &OfflineV1Frame) -> (r: Option<Option<u32>>)
    ensures
        r == keep_alive_reply(v1@),
{
    match &v1.keep_alive {
        Some(k) => {
            if k.ack == Some(true) {
                None
            } else {
                Some(k.seq_num)
            }
        },
        None => Some(None),
    }
}

/// The payload type a transfer frame declares.
pub open spec fn payload_type_of(t: PayloadTransferFrameModel) -> Option<i32> {
    match t.payload_header {
        Some(h) => h.payload_type,
        None => None,
    }
}

/// What to do while waiting for the next sharing frame.
#[derive(Debug)]
pub enum SharingStep {
    /// Read another frame.
    Continue,
    /// Send a keep-alive acknowledgement with this sequence number, then
    /// read another frame.
    AckKeepAlive(Option<u32>),
    /// The sharing frame that arrived.
    Frame(SharingFrame),
}

/// What a decrypted frame means while waiting for a sharing frame: a
/// keep-alive is answered, byte payloads are reassembled into a sharing
/// frame, a disconnection ends the wait, anything else is skipped.
pub open spec fn sharing_step_spec(bufs: Map<i64, Seq<u8>>, frame: OfflineFrameModel) -> (
    Result<Option<Result<Option<u32>, SharingFrameModel>>, QuickShareReceiveError>,
    Map<i64, Seq<u8>>,
) {
    match frame.v1 {
        None => (Err(QuickShareReceiveError::Protocol("missing encrypted v1 frame")), bufs),
        Some(v1) => if v1.frame_type == Some(OfflineFrameType::KeepAlive.code()) {
            match keep_alive_reply(v1) {
                Some(seq) => (Ok(Some(Ok(seq))), bufs),
                None => (Ok(None), bufs),
            }
        } else if v1.frame_type == Some(OfflineFrameType::PayloadTransfer.code()) {
            match v1.payload_transfer {
                None => (Err(QuickShareReceiveError::Protocol("missing payload transfer")), bufs),
                Some(t) => if payload_type_of(t) == Some(PayloadType::Bytes.code()) {
                    let (r, b2) = assemble_step(bufs, t);
                    match r {
                        Err(e) => (Err(e), b2),
                        Ok(None) => (Ok(None), b2),
                        Ok(Some((_, bytes))) => match SharingFrameModel::decoded(bytes) {
                            None => (Err(QuickShareReceiveError::Protobuf(DecodeError)), b2),
                            Some(f) => (Ok(Some(Err(f))), b2),
                        },
                    }
                } else {
                    (Ok(None), bufs)
                },
            }
        } else if v1.frame_type == Some(OfflineFrameType::Disconnection.code()) {
            (Err(QuickShareReceiveError::Disconnected), bufs)
        } else {
            (Ok(None), bufs)
        },
    }
}

/// A sharing frame that the peer sends as a byte payload of two chunks (its
/// encoding, then an empty or bodiless last chunk) comes out of the second
/// step as the same frame, after the first step asked for more; the buffers
/// end as they began.
pub proof fn lemma_sent_sharing_frame_arrives(
    bufs: Map<i64, Seq<u8>>,
    id: i64,
    sharing: SharingFrameModel,
    last_body: Option<Seq<u8>>,
)
    requires
        !bufs.contains_key(id),
        sharing.wf(),
        sharing.encoding().len() <= MAX_WIRE_FRAME_BYTES,
        last_body matches Some(b) ==> b.len() == 0,
    ensures
        ({
            let body = sharing.encoding();
            let first = bytes_chunk_model(id, body.len() as i64, 0, 0, Some(body));
            let last = bytes_chunk_model(id, body.len() as i64, LAST_CHUNK, body.len() as i64, last_body);
            let (r1, after1) = sharing_step_spec(bufs, first);
            let (r2, after2) = sharing_step_spec(after1, last);
            &&& r1 == Ok::<Option<Result<Option<u32>, SharingFrameModel>>, QuickShareReceiveError>(None)
            &&& r2 == Ok::<Option<Result<Option<u32>, SharingFrameModel>>, QuickShareReceiveError>(Some(Err(sharing)))
            &&& after2 == bufs
        }),
{
    let body = sharing.encoding();
    lemma_two_chunk_payload(bufs, id, body, last_body);
    sharing.lemma_round_trip(RECURSION_BUDGET as nat);
    assert(SharingFrameModel::decoded(body) == Some(sharing));
    let first = bytes_chunk_model(id, body.len() as i64, 0, 0, Some(body));
    let last = bytes_chunk_model(id, body.len() as i64, LAST_CHUNK, body.len() as i64, last_body);
    assert(first.v1.unwrap().payload_transfer == Some(transfer_of(first)));
    assert(last.v1.unwrap().payload_transfer == Some(transfer_of(last)));
    assert(payload_type_of(transfer_of(first)) == Some(PayloadType::Bytes.code()));
    assert(payload_type_of(transfer_of(last)) == Some(PayloadType::Bytes.code()));
}

/// Handles one decrypted frame while waiting for a sharing frame, as
/// [`sharing_step_spec`] says: `Ok(None)` is encoded as `Continue`, an
/// acknowledgement as `AckKeepAlive` and an arrived frame as `Frame`.
pub fn sharing_step(assembler: &mut BytesAssembler, frame: &OfflineFrame) -> (r: Result<SharingStep, QuickShareReceiveError>)
    requires
        old(assembler).wf(),
    ensures
        final(assembler).wf(),
        final(assembler).buffers() == sharing_step_spec(old(assembler).buffers(), frame@).1,
        match sharing_step_spec(old(assembler).buffers(), frame@).0 {
            Err(e) => r matches Err(x) && x == e,
            Ok(None) => r matches Ok(SharingStep::Continue),
            Ok(Some(Ok(seq))) => r matches Ok(SharingStep::AckKeepAlive(s)) && s == seq,
            Ok(Some(Err(f))) => r matches Ok(SharingStep::Frame(x)) && x@ == f,
        },
{
    let v1 = match &frame.v1 {
        Some(v1) => v1,
        None => return Err(QuickShareReceiveError::Protocol("missing encrypted v1 frame")),
    };
    if v1.frame_type == Some(OfflineFrameType::KeepAlive.to_i32()) {
        return match keep_alive_ack_for(v1) {
            Some(seq) => Ok(SharingStep::AckKeepAlive(seq)),
            None => Ok(SharingStep::Continue),
        };
    }
    if v1.frame_type == Some(OfflineFrameType::PayloadTransfer.to_i32()) {
        let transfer = match &v1.payload_transfer {
            Some(t) => t,
            None => return Err(QuickShareReceiveError::Protocol("missing payload transfer")),
        };
        let payload_type = match &transfer.payload_header {
            Some(h) => h.payload_type,
            None => None,
        };
        if payload_type == Some(PayloadType::Bytes.to_i32()) {
            return match assembler.push(transfer) {
                Err(e) => Err(e),
                Ok(None) => Ok(SharingStep::Continue),
                Ok(Some((_, bytes))) => match SharingFrame::decode(&bytes) {
                    Ok(f) => Ok(SharingStep::Frame(f)),
                    Err(e) => Err(QuickShareReceiveError::Protobuf(e)),
                },
            };
        }
        return Ok(SharingStep::Continue);
    }
    if v1.frame_type == Some(OfflineFrameType::Disconnection.to_i32()) {
        return Err(QuickShareReceiveError::Disconnected);
    }
    Ok(SharingStep::Continue)
}

/// What to do with a decrypted frame while the payloads of an accepted
/// transfer arrive.
#[derive(Debug)]
pub enum ReceiveAction {
    /// Nothing to do.
    Nothing,
    /// Send a keep-alive acknowledgement with this sequence number.
    AckKeepAlive(Option<u32>),
    /// Write a chunk of a file.
    FileChunk(FileChunkAction),
    /// Save a whole file that came as a byte payload.
    FileBytes { id: i64, bytes: Vec<u8> },
    /// Save a text.
    TextBytes { id: i64, bytes: Vec<u8>, text_type: TextType },
    /// A listed preview arrived; it is discarded unopened.
    DiscardPreview { id: i64, len: usize },
    /// An unlisted authenticated byte payload (an optional preview) arrived;
    /// it is discarded unopened.
    DiscardBytes { id: i64, len: usize },
}

/// The value of a [`ReceiveAction`].
pub enum ReceiveActionModel {
    Nothing,
    AckKeepAlive(Option<u32>),
    FileChunk(i64, Option<Seq<u8>>, bool),
    FileBytes(i64, Seq<u8>),
    TextBytes(i64, Seq<u8>, TextType),
    DiscardPreview(i64, nat),
    DiscardBytes(i64, nat),
}

impl View for ReceiveAction {
    type V = ReceiveActionModel;

    open spec fn view(&self) -> ReceiveActionModel {
        match self {
            ReceiveAction::Nothing => ReceiveActionModel::Nothing,
            ReceiveAction::AckKeepAlive(s) => ReceiveActionModel::AckKeepAlive(*s),
            ReceiveAction::FileChunk(a) => ReceiveActionModel::FileChunk(a.id, opt_bytes_view(a.body), a.complete),
            ReceiveAction::FileBytes { id, bytes } => ReceiveActionModel::FileBytes(*id, bytes@),
            ReceiveAction::TextBytes { id, bytes, text_type } => ReceiveActionModel::TextBytes(*id, bytes@, *text_type),
            ReceiveAction::DiscardPreview { id, len } => ReceiveActionModel::DiscardPreview(*id, *len as nat),
            ReceiveAction::DiscardBytes { id, len } => ReceiveActionModel::DiscardBytes(*id, *len as nat),
        }
    }
}

/// A completed byte payload matched against the transfer: a file or a text
/// whose announced size it must have, a listed preview, or an extra payload.
pub open spec fn bytes_payload_step(s: TransferStateModel, id: i64, bytes: Seq<u8>) -> (
    Result<ReceiveActionModel, QuickShareReceiveError>,
    TransferStateModel,
) {
    if s.files.contains_key(id) {
        let removed = TransferStateModel { files: s.files.remove(id), ..s };
        if bytes.len() != s.files[id].expected {
            (Err(QuickShareReceiveError::Protocol("file payload size mismatch")), removed)
        } else {
            (Ok(ReceiveActionModel::FileBytes(id, bytes)), removed.count(bytes.len() as int))
        }
    } else if s.texts.contains_key(id) {
        let removed = TransferStateModel { texts: s.texts.remove(id), ..s };
        if bytes.len() != s.texts[id].size {
            (Err(QuickShareReceiveError::Protocol("text payload size mismatch")), removed)
        } else {
            (Ok(ReceiveActionModel::TextBytes(id, bytes, s.texts[id].text_type)), removed.count(bytes.len() as int))
        }
    } else if s.previews.contains(id) {
        (Ok(ReceiveActionModel::DiscardPreview(id, bytes.len())), TransferStateModel { previews: s.previews.remove(id), ..s })
    } else {
        (Ok(ReceiveActionModel::DiscardBytes(id, bytes.len())), s)
    }
}

/// What a decrypted frame does to an accepted transfer: keep-alives are
/// answered, file chunks and byte payloads are taken in, a disconnection or
/// a payload of another type ends the transfer, anything else is skipped.
pub open spec fn receive_step_spec(s: TransferStateModel, bufs: Map<i64, Seq<u8>>, frame: OfflineFrameModel) -> (
    Result<ReceiveActionModel, QuickShareReceiveError>,
    TransferStateModel,
    Map<i64, Seq<u8>>,
) {
    match frame.v1 {
        None => (Err(QuickShareReceiveError::Protocol("missing encrypted v1 frame")), s, bufs),
        Some(v1) => if v1.frame_type == Some(OfflineFrameType::KeepAlive.code()) {
            match keep_alive_reply(v1) {
                Some(seq) => (Ok(ReceiveActionModel::AckKeepAlive(seq)), s, bufs),
                None => (Ok(ReceiveActionModel::Nothing), s, bufs),
            }
        } else if v1.frame_type == Some(OfflineFrameType::PayloadTransfer.code()) {
            match v1.payload_transfer {
                None => (Err(QuickShareReceiveError::Protocol("missing payload transfer")), s, bufs),
                Some(t) => if payload_type_of(t) == Some(PayloadType::File.code()) {
                    let (r, s2) = file_chunk_step(s, t);
                    match r {
                        Ok((id, body, complete)) => (Ok(ReceiveActionModel::FileChunk(id, body, complete)), s2, bufs),
                        Err(e) => (Err(e), s2, bufs),
                    }
                } else if payload_type_of(t) == Some(PayloadType::Bytes.code()) {
                    let (r, b2) = assemble_step(bufs, t);
                    match r {
                        Err(e) => (Err(e), s, b2),
                        Ok(None) => (Ok(ReceiveActionModel::Nothing), s, b2),
                        Ok(Some((id, bytes))) => {
                            let (r2, s2) = bytes_payload_step(s, id, bytes);
                            (r2, s2, b2)
                        },
                    }
                } else {
                    (Err(QuickShareReceiveError::Protocol("unsupported payload type")), s, bufs)
                },
            }
        } else if v1.frame_type == Some(OfflineFrameType::Disconnection.code()) {
            (Err(QuickShareReceiveError::Disconnected), s, bufs)
        } else {
            (Ok(ReceiveActionModel::Nothing), s, bufs)
        },
    }
}

/// Frames taken in one after another, as [`receive_step_spec`] says, until
/// one fails: the actions in order, or the first error, with the state and
/// the byte-payload buffers afterwards.
pub open spec fn receive_all_spec(s: TransferStateModel, bufs: Map<i64, Seq<u8>>, frames: Seq<OfflineFrameModel>) -> (
    Result<Seq<ReceiveActionModel>, QuickShareReceiveError>,
    TransferStateModel,
    Map<i64, Seq<u8>>,
)
    decreases frames.len(),
{
    if frames.len() == 0 {
        (Ok(Seq::empty()), s, bufs)
    } else {
        let (r, s1, b1) = receive_step_spec(s, bufs, frames[0]);
        match r {
            Err(e) => (Err(e), s1, b1),
            Ok(a) => {
                let (rest, s2, b2) = receive_all_spec(s1, b1, frames.drop_first());
                match rest {
                    Ok(actions) => (Ok(seq![a] + actions), s2, b2),
                    Err(e) => (Err(e), s2, b2),
                }
            },
        }
    }
}

/// What a run of actions writes to the file `id`: the bodies of its chunks,
/// in order.
pub open spec fn written_to(actions: Seq<ReceiveActionModel>, id: i64) -> Seq<u8>
    decreases actions.len(),
{
    if actions.len() == 0 {
        Seq::empty()
    } else {
        let here = match actions[0] {
            ReceiveActionModel::FileChunk(i, Some(b), _) => if i == id {
                b
            } else {
                Seq::empty()
            },
            _ => Seq::empty(),
        };
        here + written_to(actions.drop_first(), id)
    }
}

impl TransferState {
    fn bytes_payload(&mut self, id: i64, bytes: Vec<u8>) -> (r: Result<ReceiveAction, QuickShareReceiveError>)
        requires
            old(self).model().wf(),
        ensures
            final(self).model().wf(),
            final(self).model() == bytes_payload_step(old(self).model(), id, bytes@).1,
            match bytes_payload_step(old(self).model(), id, bytes@).0 {
                Ok(a) => r matches Ok(x) && x@ == a,
                Err(e) => r matches Err(x) && x == e,
            },
    {
        let len = bytes.len();
        if self.expects_file(id) {
            match self.file_bytes(id, len) {
                Ok(()) => Ok(ReceiveAction::FileBytes { id, bytes }),
                Err(e) => Err(e),
            }
        } else if self.expects_text(id) {
            match self.text_bytes(id, len) {
                Ok(text_type) => Ok(ReceiveAction::TextBytes { id, bytes, text_type }),
                Err(e) => Err(e),
            }
        } else if self.take_preview(id) {
            Ok(ReceiveAction::DiscardPreview { id, len })
        } else {
            assert(old(self).model().previews.remove(id) =~= old(self).model().previews);
            Ok(ReceiveAction::DiscardBytes { id, len })
        }
    }

    /// Handles one decrypted frame of an accepted transfer, as
    /// [`receive_step_spec`] says.
    pub fn receive_step(&mut self, assembler: &mut BytesAssembler, frame: &OfflineFrame) -> (r: Result<
        ReceiveAction,
        QuickShareReceiveError,
    >)
        requires
            old(self).model().wf(),
            old(assembler).wf(),
        ensures
            final(self).model().wf(),
            final(assembler).wf(),
            ({
                let (out, s2, b2) = receive_step_spec(old(self).model(), old(assembler).buffers(), frame@);
                &&& final(self).model() == s2
                &&& final(assembler).buffers() == b2
                &&& match out {
                    Ok(a) => r matches Ok(x) && x@ == a,
                    Err(e) => r matches Err(x) && x == e,
                }
            }),
    {
        let v1 = match &frame.v1 {
            Some(v1) => v1,
            None => return Err(QuickShareReceiveError::Protocol("missing encrypted v1 frame")),
        };
        if v1.frame_type == Some(OfflineFrameType::KeepAlive.to_i32()) {
            return match keep_alive_ack_for(v1) {
                Some(seq) => Ok(ReceiveAction::AckKeepAlive(seq)),
                None => Ok(ReceiveAction::Nothing),
            };
        }
        if v1.frame_type == Some(OfflineFrameType::PayloadTransfer.to_i32()) {
            let transfer = match &v1.payload_transfer {
                Some(t) => t,
                None => return Err(QuickShareReceiveError::Protocol("missing payload transfer")),
            };
            let payload_type = match &transfer.payload_header {
                Some(h) => h.payload_type,
                None => None,
            };
            if payload_type == Some(PayloadType::File.to_i32()) {
                return match self.file_chunk(transfer) {
                    Ok(a) => Ok(ReceiveAction::FileChunk(a)),
                    Err(e) => Err(e),
                };
            }
            if payload_type == Some(PayloadType::Bytes.to_i32()) {
                return match assembler.push(transfer) {
                    Err(e) => Err(e),
                    Ok(None) => Ok(ReceiveAction::Nothing),
                    Ok(Some((id, bytes))) => self.bytes_payload(id, bytes),
                };
            }
            return Err(QuickShareReceiveError::Protocol("unsupported payload type"));
        }
        if v1.frame_type == Some(OfflineFrameType::Disconnection.to_i32()) {
            return Err(QuickShareReceiveError::Disconnected);
        }
        Ok(ReceiveAction::Nothing)
    }
}


/// A name or folder the receiver writes never leaves the download
/// directory: every accepted component, once sanitized, holds no separator
/// of either platform and is neither `.` nor `..`.
pub proof fn lemma_sanitized_component_stays_inside(c: Seq<char>)
    requires
        component_ok(c),
    ensures
        forall|i: int| 0 <= i < sanitized_text(c).len() ==> !is_separator(#[trigger] sanitized_text(c)[i]),
        !is_dot_name(sanitized_text(c)),
        sanitized_text(c).len() > 0,
{
    let t = sanitized_text(c);
    if is_dot_name(t) {
        assert(t.len() == c.len());
        assert forall|i: int| 0 <= i < c.len() implies c[i] == '.' by {
            assert(t[i] == sanitized_char(c[i]));
        }
        if c.len() == 1 {
            assert(c =~= seq!['.']);
        } else {
            assert(c =~= seq!['.', '.']);
        }
    }
}


/// A path component the receiver may write: not empty, neither `.` nor
/// `..`, and without a separator of either platform.
pub open spec fn safe_component(c: Seq<char>) -> bool {
    &&& c.len() > 0
    &&& !is_dot_name(c)
    &&& forall|i: int| 0 <= i < c.len() ==> !is_separator(#[trigger] c[i])
}

/// Whether a planned file's name and every folder above it are safe.
pub open spec fn planned_file_safe(f: PlannedFileModel) -> bool {
    &&& safe_component(f.name)
    &&& forall|j: int| 0 <= j < f.parent_components.len() ==> safe_component(#[trigger] f.parent_components[j])
}

/// Every file a plan accepts lands inside the download directory: its name
/// and each of its folders is a safe component.
pub proof fn lemma_planned_files_stay_inside(intro: IntroductionFrameModel)
    ensures
        plan_outcome(intro) matches Ok((files, _, _)) ==> forall|k: int| 0 <= k < files.len() ==> #[trigger] planned_file_safe(files[k]),
{
    lemma_plan_files_safe(intro.file_metadata);
}

proof fn lemma_plan_files_safe(files: Seq<FileMetadataModel>)
    ensures
        plan_files(files) matches Ok((planned, _)) ==> forall|k: int| 0 <= k < planned.len() ==> #[trigger] planned_file_safe(planned[k]),
    decreases files.len(),
{
    if files.len() > 0 {
        lemma_plan_files_safe(files.drop_last());
        if let Ok((before, total)) = plan_files(files.drop_last()) {
            let f = files.last();
            if let Ok((planned, _)) = plan_file_step((before, total), f) {
                let name = f.name.unwrap();
                let parents = safe_parent_components(f.parent_folder).unwrap();
                lemma_sanitized_component_stays_inside(last_segment(name));
                assert forall|j: int| 0 <= j < parents.len() implies safe_component(#[trigger] parents[j]) by {
                    let p = f.parent_folder.unwrap();
                    let comps = path_components(p);
                    assert(component_ok(comps[j]));
                    lemma_sanitized_component_stays_inside(comps[j]);
                    assert(parents[j] == sanitized_text(comps[j]));
                }
                assert forall|k: int| 0 <= k < planned.len() implies #[trigger] planned_file_safe(planned[k]) by {
                    if k < before.len() {
                        assert(planned[k] == before[k]);
                    }
                }
            }
        }
    }
}

/// Whether a candidate device name is usable once trimmed.
pub open spec fn usable_name(value: Seq<char>) -> bool {
    0 < trimmed(value).len() && encode_utf8(trimmed(value)).len() <= 255
}

/// The device name taken from the first usable candidate, trimmed, in the
/// order the candidates are given; `HiRodrop` if none is usable.
pub open spec fn chosen_device_name(candidates: Seq<Option<String>>) -> Seq<char>
    decreases candidates.len(),
{
    if candidates.len() == 0 {
        "HiRodrop"@
    } else if candidates[0] matches Some(c) && usable_name(c@) {
        trimmed(candidates[0]->0@)
    } else {
        chosen_device_name(candidates.drop_first())
    }
}

/// The device name a receiver announces by default, from the candidates the
/// system offers in order of preference (the `HIRODROP_NAME` variable, the
/// computer name, the `HOSTNAME` variable, the `hostname` command).
pub fn device_name_from(candidates: Vec<Option<String>>) -> (r: String)
    ensures
        r@ == chosen_device_name(candidates@),
{
    let ghost all = candidates@;
    let mut rest = candidates;
    let count = rest.len();
    assert(all.len() == count);
    let mut i: usize = 0;
    while rest.len() > 0
        invariant
            all == candidates@,
            all.len() <= usize::MAX,
            i <= all.len(),
            rest@.len() == all.len() - i,
            rest@ == all.subrange(i as int, all.len() as int),
            chosen_device_name(all) == chosen_device_name(all.subrange(i as int, all.len() as int)),
        decreases rest@.len(),
    {
        let ghost tail = rest@;
        let first = rest.remove(0);
        assert(tail.drop_first() =~= all.subrange(i + 1, all.len() as int));
        assert(first == tail[0]);
        match first {
            Some(c) => {
                match valid_device_name(c) {
                    Some(name) => return name,
                    None => {},
                }
            },
            None => {},
        }
        i = i + 1;
    }
    String::from_str("HiRodrop")
}

/// While the user decides on an offer, a frame from the sender only matters
/// if it is a keep-alive that asks for an acknowledgement: the sequence number
/// to acknowledge.
pub open spec fn consent_wait_reply_spec(frame: OfflineFrameModel) -> Option<Option<u32>> {
    match frame.v1 {
        Some(v1) => if v1.frame_type == Some(OfflineFrameType::KeepAlive.code()) {
            keep_alive_reply(v1)
        } else {
            None
        },
        None => None,
    }
}

/// What to answer to a frame that arrives while the user decides, as
/// [`consent_wait_reply_spec`] says.
pub fn consent_wait_reply(frame: &OfflineFrame) -> (r: Option<Option<u32>>)
    ensures
        r == consent_wait_reply_spec(frame@),
{
    match &frame.v1 {
        Some(v1) => {
            if v1.frame_type == Some(OfflineFrameType::KeepAlive.to_i32()) {
                keep_alive_ack_for(v1)
            } else {
                None
            }
        },
        None => None,
    }
}

/// The name tried for the `index`-th copy of a file whose name is taken:
/// `stem (index).extension`, or `stem (index)` without an extension.
pub open spec fn numbered_name(stem: Seq<char>, extension: Option<Seq<char>>, index: nat) -> Seq<char> {
    match extension {
        Some(e) => stem + " ("@ + decimal_text(index) + ")."@ + e,
        None => stem + " ("@ + decimal_text(index) + ")"@,
    }
}

/// The name for another copy of a file, as [`numbered_name`] says.
pub fn numbered_file_name(stem: &str, extension: Option<&str>, index: u32) -> (r: String)
    ensures
        r@ == numbered_name(
            stem@,
            match extension {
                Some(e) => Some(e@),
                None => None,
            },
            index as nat,
        ),
{
    let mut s = String::from_str(stem);
    s.append(" (");
    push_decimal(&mut s, index as u64);
    match extension {
        Some(e) => {
            s.append(").");
            s.append(e);
        },
        None => {
            s.append(")");
        },
    }
    s
}

/// The name a received text is saved under: `Quick Share {seconds}.url.txt`
/// for a link, `Quick Share {seconds}.txt` otherwise.
pub open spec fn text_file_name_spec(seconds: nat, text_type: TextType) -> Seq<char> {
    "Quick Share "@ + decimal_text(seconds) + (if text_type == TextType::Url {
        ".url.txt"@
    } else {
        ".txt"@
    })
}

/// The name a received text is saved under, as [`text_file_name_spec`] says.
pub fn text_file_name(seconds: u64, text_type: TextType) -> (r: String)
    ensures
        r@ == text_file_name_spec(seconds as nat, text_type),
{
    let mut s = String::from_str("Quick Share ");
    push_decimal(&mut s, seconds);
    if text_type == TextType::Url {
        s.append(".url.txt");
    } else {
        s.append(".txt");
    }
    s
}

/// What a receive error reads as.
pub open spec fn receive_error_text(e: QuickShareReceiveError) -> Seq<char> {
    match e {
        QuickShareReceiveError::Io(f) => "I/O error: "@ + f.message@,
        QuickShareReceiveError::Frame(f) => "wire framing error: "@ + frame_error_text(f),
        QuickShareReceiveError::Crypto(c) => "cryptographic protocol error: "@ + crypto_error_text(c),
        QuickShareReceiveError::Protobuf(_) => "invalid protobuf: "@ + decode_error_text(),
        QuickShareReceiveError::Protocol(m) => "unexpected Quick Share protocol message: "@ + m@,
        QuickShareReceiveError::Disconnected => "the sender canceled or disconnected"@,
        QuickShareReceiveError::Rejected => "the transfer was rejected"@,
        QuickShareReceiveError::UnsafeMetadata => "unsafe or unsupported file metadata"@,
        QuickShareReceiveError::TransferTooLarge => "declared transfer size exceeds the 100 GiB safety limit"@,
    }
}

impl QuickShareReceiveError {
    /// The error as a sentence.
    pub fn describe(&self) -> (r: String)
        ensures
            r@ == receive_error_text(*self),
    {
        match self {
            QuickShareReceiveError::Io(f) => {
                let mut s = String::from_str("I/O error: ");
                s.append(f.message.as_str());
                s
            },
            QuickShareReceiveError::Frame(f) => {
                let mut s = String::from_str("wire framing error: ");
                s.append(f.describe().as_str());
                s
            },
            QuickShareReceiveError::Crypto(c) => {
                let mut s = String::from_str("cryptographic protocol error: ");
                s.append(c.describe().as_str());
                s
            },
            QuickShareReceiveError::Protobuf(e) => {
                let mut s = String::from_str("invalid protobuf: ");
                s.append(e.describe().as_str());
                s
            },
            QuickShareReceiveError::Protocol(m) => {
                let mut s = String::from_str("unexpected Quick Share protocol message: ");
                s.append(m);
                s
            },
            QuickShareReceiveError::Disconnected => String::from_str("the sender canceled or disconnected"),
            QuickShareReceiveError::Rejected => String::from_str("the transfer was rejected"),
            QuickShareReceiveError::UnsafeMetadata => String::from_str("unsafe or unsupported file metadata"),
            QuickShareReceiveError::TransferTooLarge => String::from_str(
                "declared transfer size exceeds the 100 GiB safety limit",
            ),
        }
    }
}

} // verus!
