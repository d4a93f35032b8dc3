//! Quick Share sender rules: what the sender announces about each file, how
//! it frames files and requests, and how it reads the phone's answers.

use vstd::prelude::*;
use crate::quick_share_crypto::crypto_error_text;
use crate::quick_share_qr::qr_error_text;
use crate::quick_share_transport::frame_error_text;
use crate::wire_format::decode_error_text;
use std::collections::HashMap;
use crate::primitives::{push_char, random_bytes, random_u64};
use crate::quick_share::{
    endpoint_id_ok, endpoint_info_bytes, endpoint_info_record, name_fits, QuickShareDeviceType, QuickShareEndpointId,
};
use vstd::utf8::encode_utf8;
use vstd::string::StringSliceAdditionalSpecFns;
use crate::quick_share_crypto::QuickShareCryptoError;
use crate::quick_share_frames::{
    bytes_chunk_model, offline_type_is, offline_type_of, offline_with, sharing_type_is, sharing_type_of, sharing_with,
    LAST_CHUNK,
};
use crate::quick_share_qr::QuickShareQrError;
use crate::quick_share_receiver::{
    file_chunk_step, is_last_chunk, keep_alive_ack_for, keep_alive_reply, last_chunk, payload_type_of,
    receive_all_spec, receive_step_spec, written_to, FileProgress, QuickShareReceiveError, ReceiveActionModel,
    TransferStateModel,
};
use crate::quick_share_transport::{FrameIoError, IoErrorKind, IoFailure, MAX_WIRE_FRAME_BYTES};
use crate::quick_share_wire::{
    offline_v1, sharing_v1, ConnectionMedium, ConnectionRequestFrame, ConnectionRequestFrameModel,
    ConnectionResponseStatus, FileMetadata, FileMetadataModel, FileType, IntroductionFrame,
    IntroductionFrameModel, OfflineFrame, OfflineFrameModel, OfflineFrameType, OfflineV1FrameModel,
    PayloadChunk, PayloadChunkModel, PayloadHeader, PayloadHeaderModel, PayloadPacketType,
    PayloadTransferFrame, PayloadTransferFrameModel, PayloadType, SharingFrame, SharingFrameModel,
    SharingFrameType, SharingResponseStatus, SharingUseCase, SharingV1FrameModel,
};
use crate::wire_format::{opt_str_view, DecodeError, RECURSION_BUDGET};
use vstd::slice::slice_to_vec;

verus! {

/// Largest total the sender offers: 100 GiB.
pub const MAX_TOTAL_TRANSFER_BYTES: u64 = 107374182400;

/// Size of the file chunks the sender writes.
pub const FILE_CHUNK_BYTES: usize = 524288;

/// Most files a selection may hold.
pub const MAX_SELECTED_FILES: usize = 10000;

/// Progress of a send.
#[derive(Clone, Debug, PartialEq, Eq)]
pub enum QuickShareSendProgress {
    WaitingForQrScan,
    PhoneFound { name: String },
    Connecting,
    Negotiating { phase: &'static str },
    VerificationPin { pin: String },
    WaitingForAcceptance,
    Finalizing,
    Sending { sent_bytes: u64, total_bytes: u64, file_name: String },
    Complete,
}

/// Why sending failed.
#[derive(Debug)]
pub enum QuickShareSendError {
    Io(IoFailure),
    Frame(FrameIoError),
    Crypto(QuickShareCryptoError),
    Protobuf(DecodeError),
    Qr(QuickShareQrError),
    /// An invalid or unreadable file, with a description.
    InvalidFile(String),
    /// The selected files exceed the 100 GiB safety limit.
    TransferTooLarge,
    /// An unexpected Quick Share protocol message.
    Protocol(&'static str),
    /// The phone rejected the transfer.
    Rejected,
}

impl QuickShareSendError {
    /// Whether trying again may help: connection, channel and protocol
    /// failures may; file, size, QR and rejection failures will not.
    pub fn is_retryable(&self) -> (r: bool)
        ensures
            r == (self is Io || self is Frame || self is Crypto || self is Protobuf || self is Protocol),
    {
        match self {
            QuickShareSendError::Io(_) => true,
            QuickShareSendError::Frame(_) => true,
            QuickShareSendError::Crypto(_) => true,
            QuickShareSendError::Protobuf(_) => true,
            QuickShareSendError::Protocol(_) => true,
            _ => false,
        }
    }
}

// ---------------------------------------------------------------------------
// File types.
// ---------------------------------------------------------------------------

/// ASCII letters in lower case; every other character unchanged.
pub open spec fn ascii_lower(c: char) -> char {
    if 'A' <= c && c <= 'Z' {
        ((c as u32) + 32) as char
    } else {
        c
    }
}

/// The position of the last `.` of a name.
pub open spec fn last_dot(s: Seq<char>) -> Option<int>
    decreases s.len(),
{
    if s.len() == 0 {
        None
    } else if s.last() == '.' {
        Some(s.len() - 1)
    } else {
        last_dot(s.drop_last())
    }
}

/// The extension of a file name as `Path::extension` reads it: what follows
/// the last `.`, unless the name is `..`, has no `.`, or its only `.` is the
/// first character.
pub open spec fn extension_of(name: Seq<char>) -> Option<Seq<char>> {
    if name == seq!['.', '.'] {
        None
    } else {
        match last_dot(name) {
            None => None,
            Some(k) => if k == 0 {
                None
            } else {
                Some(name.subrange(k + 1, name.len() as int))
            },
        }
    }
}

/// The Android file type and MIME type announced for a lower-case
/// extension.
pub open spec fn file_kind(ext: Seq<char>) -> (FileType, &'static str) {
    if ext == seq!['j', 'p', 'g'] || ext == seq!['j', 'p', 'e', 'g'] {
        (FileType::Image, "image/jpeg")
    } else if ext == seq!['p', 'n', 'g'] {
        (FileType::Image, "image/png")
    } else if ext == seq!['g', 'i', 'f'] {
        (FileType::Image, "image/gif")
    } else if ext == seq!['w', 'e', 'b', 'p'] {
        (FileType::Image, "image/webp")
    } else if ext == seq!['m', 'p', '4'] {
        (FileType::Video, "video/mp4")
    } else if ext == seq!['m', 'o', 'v'] {
        (FileType::Video, "video/quicktime")
    } else if ext == seq!['m', 'p', '3'] {
        (FileType::Audio, "audio/mpeg")
    } else if ext == seq!['m', '4', 'a'] {
        (FileType::Audio, "audio/mp4")
    } else if ext == seq!['p', 'd', 'f'] {
        (FileType::Document, "application/pdf")
    } else if ext == seq!['t', 'x', 't'] {
        (FileType::Document, "text/plain")
    } else if ext == seq!['a', 'p', 'k'] {
        (FileType::AndroidApp, "application/vnd.android.package-archive")
    } else {
        (FileType::Unknown, "application/octet-stream")
    }
}

/// The extension of a file name, read in lower case (ASCII letters only).
pub open spec fn lower_extension(name: Seq<char>) -> Option<Seq<char>> {
    match extension_of(name) {
        Some(ext) => Some(ext.map_values(|c: char| ascii_lower(c))),
        None => None,
    }
}

/// The Android file type and MIME type announced for a file name.
pub open spec fn announced_kind(name: Seq<char>) -> (FileType, &'static str) {
    match lower_extension(name) {
        Some(ext) => file_kind(ext),
        None => file_kind(Seq::empty()),
    }
}

/// What a file is announced as, by its extension in any case: its file type by
/// the number the Nearby Sharing protocol gives it on the wire (unknown 0,
/// image 1, video 2, Android app 3, audio 4, document 5) and its MIME type.
/// JPEG, PNG, GIF and WebP images, MP4 and QuickTime videos, MP3 and M4A
/// audio, PDF and plain-text documents and APK packages are recognised; any
/// other name is unknown binary data.
pub proof fn lemma_announced_kinds(name: Seq<char>)
    ensures
        lower_extension(name) == Some("jpg"@) ==> announced_kind(name).0.code() == 1
            && announced_kind(name).1@ == "image/jpeg"@,
        lower_extension(name) == Some("jpeg"@) ==> announced_kind(name).0.code() == 1
            && announced_kind(name).1@ == "image/jpeg"@,
        lower_extension(name) == Some("png"@) ==> announced_kind(name).0.code() == 1
            && announced_kind(name).1@ == "image/png"@,
        lower_extension(name) == Some("gif"@) ==> announced_kind(name).0.code() == 1
            && announced_kind(name).1@ == "image/gif"@,
        lower_extension(name) == Some("webp"@) ==> announced_kind(name).0.code() == 1
            && announced_kind(name).1@ == "image/webp"@,
        lower_extension(name) == Some("mp4"@) ==> announced_kind(name).0.code() == 2
            && announced_kind(name).1@ == "video/mp4"@,
        lower_extension(name) == Some("mov"@) ==> announced_kind(name).0.code() == 2
            && announced_kind(name).1@ == "video/quicktime"@,
        lower_extension(name) == Some("mp3"@) ==> announced_kind(name).0.code() == 4
            && announced_kind(name).1@ == "audio/mpeg"@,
        lower_extension(name) == Some("m4a"@) ==> announced_kind(name).0.code() == 4
            && announced_kind(name).1@ == "audio/mp4"@,
        lower_extension(name) == Some("pdf"@) ==> announced_kind(name).0.code() == 5
            && announced_kind(name).1@ == "application/pdf"@,
        lower_extension(name) == Some("txt"@) ==> announced_kind(name).0.code() == 5
            && announced_kind(name).1@ == "text/plain"@,
        lower_extension(name) == Some("apk"@) ==> announced_kind(name).0.code() == 3
            && announced_kind(name).1@ == "application/vnd.android.package-archive"@,
        (match lower_extension(name) {
            None => true,
            Some(e) => e != "jpg"@ && e != "jpeg"@ && e != "png"@ && e != "gif"@ && e != "webp"@ && e != "mp4"@ && e != "mov"@ && e != "mp3"@ && e != "m4a"@ && e != "pdf"@ && e != "txt"@ && e != "apk"@,
        }) ==> announced_kind(name).0.code() == 0 && announced_kind(name).1@ == "application/octet-stream"@,
{
    reveal_strlit("jpg");
    assert("jpg"@ =~= seq!['j', 'p', 'g']);
    reveal_strlit("jpeg");
    assert("jpeg"@ =~= seq!['j', 'p', 'e', 'g']);
    reveal_strlit("png");
    assert("png"@ =~= seq!['p', 'n', 'g']);
    reveal_strlit("gif");
    assert("gif"@ =~= seq!['g', 'i', 'f']);
    reveal_strlit("webp");
    assert("webp"@ =~= seq!['w', 'e', 'b', 'p']);
    reveal_strlit("mp4");
    assert("mp4"@ =~= seq!['m', 'p', '4']);
    reveal_strlit("mov");
    assert("mov"@ =~= seq!['m', 'o', 'v']);
    reveal_strlit("mp3");
    assert("mp3"@ =~= seq!['m', 'p', '3']);
    reveal_strlit("m4a");
    assert("m4a"@ =~= seq!['m', '4', 'a']);
    reveal_strlit("pdf");
    assert("pdf"@ =~= seq!['p', 'd', 'f']);
    reveal_strlit("txt");
    assert("txt"@ =~= seq!['t', 'x', 't']);
    reveal_strlit("apk");
    assert("apk"@ =~= seq!['a', 'p', 'k']);
}

/// A name without an extension is announced as unknown binary data.
proof fn lemma_no_extension_is_unknown()
    ensures
        file_kind(Seq::empty()) == (FileType::Unknown, "application/octet-stream"),
{
    assert(seq!['j', 'p', 'g'].len() == 3);
    assert(seq!['j', 'p', 'e', 'g'].len() == 4);
    assert(seq!['p', 'n', 'g'].len() == 3);
    assert(seq!['g', 'i', 'f'].len() == 3);
    assert(seq!['w', 'e', 'b', 'p'].len() == 4);
    assert(seq!['m', 'p', '4'].len() == 3);
    assert(seq!['m', 'o', 'v'].len() == 3);
    assert(seq!['m', 'p', '3'].len() == 3);
    assert(seq!['m', '4', 'a'].len() == 3);
    assert(seq!['p', 'd', 'f'].len() == 3);
    assert(seq!['t', 'x', 't'].len() == 3);
    assert(seq!['a', 'p', 'k'].len() == 3);
}

/// Whether the lower-case reading of `s[from..]` is the lower-case text `lit`.
pub(crate) fn lower_tail_is(s: &str, from: usize, lit: &str) -> (r: bool)
    requires
        from <= s@.len(),
    ensures
        r == (s@.subrange(from as int, s@.len() as int).map_values(|c: char| ascii_lower(c)) == lit@),
{
    let n = s.unicode_len();
    let m = lit.unicode_len();
    let ghost tail = s@.subrange(from as int, n as int).map_values(|c: char| ascii_lower(c));
    if n - from != m {
        assert(tail.len() != lit@.len());
        return false;
    }
    let mut i: usize = 0;
    while i < m
        invariant
            n == s@.len(),
            m == lit@.len(),
            from + m == n,
            i <= m,
            tail == s@.subrange(from as int, n as int).map_values(|c: char| ascii_lower(c)),
            forall|k: int| 0 <= k < i ==> tail[k] == lit@[k],
        decreases m - i,
    {
        let c = s.get_char(from + i);
        let lower = if 'A' <= c && c <= 'Z' {
            char_from_code((c as u32) + 32)
        } else {
            c
        };
        assert(tail[i as int] == ascii_lower(c));
        if lower != lit.get_char(i) {
            return false;
        }
        i = i + 1;
    }
    assert(tail =~= lit@);
    true
}

/// The character with an ASCII code.
fn char_from_code(v: u32) -> (r: char)
    requires
        v < 128,
    ensures
        r == v as char,
{
    (v as u8) as char
}

/// The Android file type and MIME type announced for a file, from its
/// name's extension (case does not matter).
pub fn classify_file(file_name: &str) -> (r: (FileType, &'static str))
    ensures
        r.0 == announced_kind(file_name@).0 && r.1@ == announced_kind(file_name@).1@,
{
    let n = file_name.unicode_len();
    if n == 2 && file_name.get_char(0) == '.' && file_name.get_char(1) == '.' {
        assert(file_name@ =~= seq!['.', '.']);
        proof { lemma_no_extension_is_unknown(); }
        return (FileType::Unknown, "application/octet-stream");
    }
    let mut k: usize = n;
    assert(file_name@.subrange(0, n as int) =~= file_name@);
    while k > 0 && file_name.get_char(k - 1) != '.'
        invariant
            n == file_name@.len(),
            k <= n,
            last_dot(file_name@) == last_dot(file_name@.subrange(0, k as int)),
        decreases k,
    {
        assert(file_name@.subrange(0, k as int).drop_last() =~= file_name@.subrange(0, k - 1));
        k = k - 1;
    }
    assert(file_name@.subrange(0, n as int) =~= file_name@) by {}
    if k <= 1 {
        proof { lemma_no_extension_is_unknown(); }
        return (FileType::Unknown, "application/octet-stream");
    }
    let from = k;
    proof {
        assert(last_dot(file_name@.subrange(0, k as int)) == Some(k - 1));
    }
    let is_jpg = lower_tail_is(file_name, from, "jpg");
    let is_jpeg = lower_tail_is(file_name, from, "jpeg");
    let is_png = lower_tail_is(file_name, from, "png");
    proof {
        reveal_strlit("jpg");
        reveal_strlit("jpeg");
        reveal_strlit("png");
        assert("jpg"@ =~= seq!['j', 'p', 'g']);
        assert("jpeg"@ =~= seq!['j', 'p', 'e', 'g']);
        assert("png"@ =~= seq!['p', 'n', 'g']);
    }
    if is_jpg || is_jpeg {
        (FileType::Image, "image/jpeg")
    } else if is_png {
        (FileType::Image, "image/png")
    } else {
        classify_rest(file_name, from)
    }
}

fn classify_rest(file_name: &str, from: usize) -> (r: (FileType, &'static str))
    requires
        from <= file_name@.len(),
        ({
            let e = file_name@.subrange(from as int, file_name@.len() as int).map_values(|c: char| ascii_lower(c));
            e != seq!['j', 'p', 'g'] && e != seq!['j', 'p', 'e', 'g'] && e != seq!['p', 'n', 'g']
        }),
    ensures
        ({
            let kind = file_kind(file_name@.subrange(from as int, file_name@.len() as int).map_values(|c: char| ascii_lower(c)));
            r.0 == kind.0 && r.1@ == kind.1@
        }),
{
    let is_gif = lower_tail_is(file_name, from, "gif");
    let is_webp = lower_tail_is(file_name, from, "webp");
    let is_mp4 = lower_tail_is(file_name, from, "mp4");
    let is_mov = lower_tail_is(file_name, from, "mov");
    let is_mp3 = lower_tail_is(file_name, from, "mp3");
    let is_m4a = lower_tail_is(file_name, from, "m4a");
    let is_pdf = lower_tail_is(file_name, from, "pdf");
    let is_txt = lower_tail_is(file_name, from, "txt");
    let is_apk = lower_tail_is(file_name, from, "apk");
    proof {
        reveal_strlit("gif");
        assert("gif"@ =~= seq!['g', 'i', 'f']);
        reveal_strlit("webp");
        assert("webp"@ =~= seq!['w', 'e', 'b', 'p']);
        reveal_strlit("mp4");
        assert("mp4"@ =~= seq!['m', 'p', '4']);
        reveal_strlit("mov");
        assert("mov"@ =~= seq!['m', 'o', 'v']);
        reveal_strlit("mp3");
        assert("mp3"@ =~= seq!['m', 'p', '3']);
        reveal_strlit("m4a");
        assert("m4a"@ =~= seq!['m', '4', 'a']);
        reveal_strlit("pdf");
        assert("pdf"@ =~= seq!['p', 'd', 'f']);
        reveal_strlit("txt");
        assert("txt"@ =~= seq!['t', 'x', 't']);
        reveal_strlit("apk");
        assert("apk"@ =~= seq!['a', 'p', 'k']);
    }
    if is_gif {
        (FileType::Image, "image/gif")
    } else if is_webp {
        (FileType::Image, "image/webp")
    } else if is_mp4 {
        (FileType::Video, "video/mp4")
    } else if is_mov {
        (FileType::Video, "video/quicktime")
    } else if is_mp3 {
        (FileType::Audio, "audio/mpeg")
    } else if is_m4a {
        (FileType::Audio, "audio/mp4")
    } else if is_pdf {
        (FileType::Document, "application/pdf")
    } else if is_txt {
        (FileType::Document, "text/plain")
    } else if is_apk {
        (FileType::AndroidApp, "application/vnd.android.package-archive")
    } else {
        (FileType::Unknown, "application/octet-stream")
    }
}


// ---------------------------------------------------------------------------
// The files of a send.
// ---------------------------------------------------------------------------

/// A selected path after it was looked at: whether it is a regular file, its
/// size, its name as UTF-8 (if it has one), its modification time and the
/// folder it was found in below the selection.
#[derive(Clone, Debug)]
pub struct FileCandidate<P> {
    pub path: P,
    /// The path as it is shown in messages.
    pub display: String,
    pub parent_folder: Option<String>,
    pub is_file: bool,
    pub size: u64,
    pub name: Option<String>,
    pub last_modified_millis: i64,
}

/// A file that will be offered and sent.
#[derive(Clone, Debug)]
pub struct OutgoingFile<P> {
    pub path: P,
    pub name: String,
    pub parent_folder: Option<String>,
    pub size: u64,
    pub payload_id: i64,
    pub file_type: FileType,
    pub mime_type: &'static str,
    pub last_modified_timestamp_millis: i64,
}

/// `" is not a regular file"`.
pub open spec fn not_regular_suffix() -> Seq<char> {
    seq![' ', 'i', 's', ' ', 'n', 'o', 't', ' ', 'a', ' ', 'r', 'e', 'g', 'u', 'l', 'a', 'r', ' ', 'f', 'i', 'l', 'e']
}

/// `"the selected folders contain no files"`.
pub open spec fn no_files_message() -> Seq<char> {
    seq![
        't', 'h', 'e', ' ', 's', 'e', 'l', 'e', 'c', 't', 'e', 'd', ' ', 'f', 'o', 'l', 'd', 'e', 'r', 's', ' ',
        'c', 'o', 'n', 't', 'a', 'i', 'n', ' ', 'n', 'o', ' ', 'f', 'i', 'l', 'e', 's',
    ]
}

/// `"more than 10,000 files were selected"`.
pub open spec fn too_many_message() -> Seq<char> {
    seq![
        'm', 'o', 'r', 'e', ' ', 't', 'h', 'a', 'n', ' ', '1', '0', ',', '0', '0', '0', ' ', 'f', 'i', 'l', 'e', 's',
        ' ', 'w', 'e', 'r', 'e', ' ', 's', 'e', 'l', 'e', 'c', 't', 'e', 'd',
    ]
}

/// Why a selection cannot be sent, by its first candidate that fails: not a
/// regular file, a running total above 100 GiB, or no usable name.
pub enum SelectionProblem {
    NotRegular(Seq<char>),
    TooLarge,
    NoName(Seq<char>),
}

/// One more candidate checked against the running total.
pub open spec fn candidate_step<P>(total: int, c: FileCandidate<P>) -> Result<int, SelectionProblem> {
    if !c.is_file {
        Err(SelectionProblem::NotRegular(c.display@))
    } else if total + c.size > MAX_TOTAL_TRANSFER_BYTES {
        Err(SelectionProblem::TooLarge)
    } else if !(c.name matches Some(n) && n@.len() > 0) {
        Err(SelectionProblem::NoName(c.display@))
    } else {
        Ok(total + c.size)
    }
}

/// The candidates checked in order, with their total size.
pub open spec fn candidates_total<P>(cs: Seq<FileCandidate<P>>) -> Result<int, SelectionProblem>
    decreases cs.len(),
{
    if cs.len() == 0 {
        Ok(0)
    } else {
        match candidates_total(cs.drop_last()) {
            Err(e) => Err(e),
            Ok(t) => candidate_step(t, cs.last()),
        }
    }
}

/// Whether `e` is the error for a problem.
pub open spec fn reports(e: QuickShareSendError, p: SelectionProblem) -> bool {
    match p {
        SelectionProblem::NotRegular(d) => e matches QuickShareSendError::InvalidFile(m) && m@ == d + not_regular_suffix(),
        SelectionProblem::TooLarge => e is TransferTooLarge,
        SelectionProblem::NoName(d) => e matches QuickShareSendError::InvalidFile(m) && m@ == d,
    }
}

/// Whether `f` is the outgoing form of candidate `c`.
pub open spec fn outgoing_of<P>(f: OutgoingFile<P>, c: FileCandidate<P>) -> bool {
    &&& f.path == c.path
    &&& c.name matches Some(n) && f.name@ == n@
    &&& f.parent_folder == c.parent_folder
    &&& f.size == c.size
    &&& f.payload_id > 0
    &&& f.last_modified_timestamp_millis == c.last_modified_millis
    &&& ({
        let kind = match extension_of(f.name@) {
            Some(ext) => file_kind(ext.map_values(|ch: char| ascii_lower(ch))),
            None => file_kind(Seq::empty()),
        };
        f.file_type == kind.0 && f.mime_type@ == kind.1@
    })
}

/// A payload ID that is positive and not among `used`. Random draws are
/// tried first; in the (practically impossible) case that 64 draws all fail,
/// the smallest positive ID not in use is taken.
pub fn fresh_payload_id(used: &Vec<i64>) -> (r: i64)
    requires
        used@.len() <= MAX_SELECTED_FILES,
    ensures
        r > 0,
        !used@.contains(r),
{
    let mut attempt: usize = 0;
    while attempt < 64
        invariant
            attempt <= 64,
        decreases 64 - attempt,
    {
        let draw = random_u64();
        let id = (draw % 9223372036854775808u64) as i64;
        if id != 0 && !contains_id(used, id) {
            return id;
        }
        attempt = attempt + 1;
    }
    let n = used.len() as i64;
    let mut candidate: i64 = 1;
    while candidate <= n && contains_id(used, candidate)
        invariant
            n == used@.len(),
            n <= MAX_SELECTED_FILES,
            1 <= candidate <= n + 1,
            forall|j: i64| 1 <= j < candidate ==> #[trigger] used@.contains(j),
        decreases n + 1 - candidate,
    {
        candidate = candidate + 1;
    }
    if contains_id(used, candidate) {
        proof {
            let ints = used@.map_values(|x: i64| x as int);
            let range = vstd::set_lib::set_int_range(1, n + 2);
            assert forall|j: int| range.contains(j) implies ints.to_set().contains(j) by {
                let jj = j as i64;
                assert(used@.contains(jj));
                let w = choose|w: int| 0 <= w < used@.len() && used@[w] == j as i64;
                assert(ints[w] == j);
            }
            vstd::set_lib::lemma_int_range(1, n + 2);
            ints.lemma_cardinality_of_set();
            vstd::set_lib::lemma_len_subset(range, ints.to_set());
            assert(false);
        }
    }
    candidate
}

fn contains_id(used: &Vec<i64>, id: i64) -> (r: bool)
    ensures
        r == used@.contains(id),
{
    let mut k: usize = 0;
    while k < used.len()
        invariant
            k <= used@.len(),
            forall|j: int| 0 <= j < k ==> used@[j] != id,
        decreases used@.len() - k,
    {
        if used[k] == id {
            return true;
        }
        k = k + 1;
    }
    false
}

fn not_regular_message(display: &String) -> (r: String)
    ensures
        r@ == display@ + not_regular_suffix(),
{
    let mut m = display.clone();
    m.append(" is not a regular file");
    proof {
        reveal_strlit(" is not a regular file");
        assert(" is not a regular file"@ =~= not_regular_suffix());
    }
    m
}

/// The files to send, in selection order, each with a fresh positive
/// payload ID and its announced type. Refused when nothing was found, or for
/// the first candidate that is not a regular file, pushes the total above
/// 100 GiB or has no usable name.
pub fn prepare_outgoing<P>(candidates: Vec<FileCandidate<P>>) -> (r: Result<Vec<OutgoingFile<P>>, QuickShareSendError>)
    ensures
        candidates@.len() == 0 ==> (r matches Err(QuickShareSendError::InvalidFile(m)) && m@ == no_files_message()),
        candidates@.len() > MAX_SELECTED_FILES ==> (r matches Err(QuickShareSendError::InvalidFile(m)) && m@ == too_many_message()),
        0 < candidates@.len() <= MAX_SELECTED_FILES ==> match candidates_total(candidates@) {
            Err(p) => r matches Err(e) && reports(e, p),
            Ok(_) => r matches Ok(files) && files@.len() == candidates@.len()
                && (forall|i: int| 0 <= i < files@.len() ==> #[trigger] outgoing_of(files@[i], candidates@[i]))
                && (forall|i: int, j: int| 0 <= i < j < files@.len() ==> files@[i].payload_id != files@[j].payload_id),
        },
{
    if candidates.len() == 0 {
        let m = String::from_str("the selected folders contain no files");
        proof {
            reveal_strlit("the selected folders contain no files");
            assert("the selected folders contain no files"@ =~= no_files_message());
        }
        return Err(QuickShareSendError::InvalidFile(m));
    }
    if candidates.len() > MAX_SELECTED_FILES {
        let m = String::from_str("more than 10,000 files were selected");
        proof {
            reveal_strlit("more than 10,000 files were selected");
            assert("more than 10,000 files were selected"@ =~= too_many_message());
        }
        return Err(QuickShareSendError::InvalidFile(m));
    }
    let ghost cs = candidates@;
    let mut ids: Vec<i64> = Vec::new();
    let mut files: Vec<OutgoingFile<P>> = Vec::new();
    let mut total: u64 = 0;
    let mut rest = candidates;
    let mut i: usize = 0;
    assert(cs.subrange(0, 0) =~= Seq::<FileCandidate<P>>::empty());
    assert(cs.subrange(0, cs.len() as int) =~= cs);
    while rest.len() > 0
        invariant
            cs.len() > 0,
            cs.len() <= MAX_SELECTED_FILES,
            cs == candidates@,
            i <= cs.len(),
            rest@.len() == cs.len() - i,
            rest@ == cs.subrange(i as int, cs.len() as int),
            candidates_total(cs.subrange(0, i as int)) == Ok::<int, SelectionProblem>(total as int),
            files@.len() == i,
            ids@.len() == i,
            forall|k: int| 0 <= k < i ==> #[trigger] outgoing_of(files@[k], cs[k]),
            forall|k: int| 0 <= k < i ==> ids@[k] == files@[k].payload_id,
            forall|a: int, b: int| 0 <= a < b < i ==> files@[a].payload_id != files@[b].payload_id,
        decreases rest@.len(),
    {
        let c = rest.remove(0);
        assert(c == cs[i as int]);
        assert(rest@ =~= cs.subrange(i + 1, cs.len() as int));
        let ghost pre = cs.subrange(0, i + 1);
        assert(pre.drop_last() =~= cs.subrange(0, i as int));
        if !c.is_file {
            proof { lemma_candidates_error(cs, i + 1); }
            return Err(QuickShareSendError::InvalidFile(not_regular_message(&c.display)));
        }
        if c.size > MAX_TOTAL_TRANSFER_BYTES || total > MAX_TOTAL_TRANSFER_BYTES - c.size {
            proof { lemma_candidates_error(cs, i + 1); }
            return Err(QuickShareSendError::TransferTooLarge);
        }
        let name = match c.name {
            Some(n) => {
                if n.unicode_len() == 0 {
                    proof { lemma_candidates_error(cs, i + 1); }
                    return Err(QuickShareSendError::InvalidFile(c.display));
                }
                n
            },
            None => {
                proof { lemma_candidates_error(cs, i + 1); }
                return Err(QuickShareSendError::InvalidFile(c.display));
            },
        };
        let payload_id = fresh_payload_id(&ids);
        let (file_type, mime_type) = classify_file(name.as_str());
        let ghost old_files = files@;
        ids.push(payload_id);
        files.push(OutgoingFile {
            path: c.path,
            name,
            parent_folder: c.parent_folder,
            size: c.size,
            payload_id,
            file_type,
            mime_type,
            last_modified_timestamp_millis: c.last_modified_millis,
        });
        total = total + c.size;
        proof {
            assert forall|a: int, b: int| 0 <= a < b < i + 1 implies files@[a].payload_id != files@[b].payload_id by {
                if b == i {
                    assert(ids@[a] == files@[a].payload_id);
                    assert(old_files.len() == i);
                }
            }
            assert forall|k: int| 0 <= k < i + 1 implies #[trigger] outgoing_of(files@[k], cs[k]) by {
                if k < i {
                    assert(files@[k] == old_files[k]);
                }
            }
        }
        i = i + 1;
    }
    assert(cs.subrange(0, cs.len() as int) =~= cs);
    Ok(files)
}

/// A failure while checking a prefix of the candidates stays the failure.
proof fn lemma_candidates_error<P>(cs: Seq<FileCandidate<P>>, i: int)
    requires
        0 <= i <= cs.len(),
        candidates_total(cs.subrange(0, i)) is Err,
    ensures
        candidates_total(cs) == candidates_total(cs.subrange(0, i)),
    decreases cs.len() - i,
{
    if i < cs.len() {
        assert(cs.subrange(0, i + 1).drop_last() =~= cs.subrange(0, i));
        lemma_candidates_error(cs, i + 1);
    } else {
        assert(cs.subrange(0, i) =~= cs);
    }
}


// ---------------------------------------------------------------------------
// Frames the sender writes.
// ---------------------------------------------------------------------------

/// The connection request: the endpoint ID, the display name, LAN as the
/// only medium and the endpoint info.
pub open spec fn connection_request_model(endpoint_id: Seq<char>, name: Seq<u8>, info: Seq<u8>) -> OfflineFrameModel {
    offline_with(
        OfflineFrameType::ConnectionRequest,
        OfflineV1FrameModel {
            connection_request: Some(
                ConnectionRequestFrameModel {
                    endpoint_id: Some(endpoint_id),
                    endpoint_name: Some(name),
                    mediums: seq![ConnectionMedium::WifiLan.code()],
                    endpoint_info: Some(info),
                    ..ConnectionRequestFrameModel::empty()
                },
            ),
            ..OfflineV1FrameModel::empty()
        },
    )
}

/// The first frame of a send: a connection request from a laptop with a
/// fresh endpoint ID and fresh metadata, under the display name. Refused
/// when the name does not fit the wire.
pub fn connection_request(display_name: &str) -> (r: Result<OfflineFrame, QuickShareSendError>)
    ensures
        name_fits(display_name.spec_bytes()) <==> r is Ok,
        r matches Err(e) ==> e == QuickShareSendError::Protocol("invalid desktop device name"),
        r matches Ok(frame) ==> exists|id: Seq<char>, metadata: Seq<u8>|
            endpoint_id_ok(encode_utf8(id)) && metadata.len() == 16 && frame@ == #[trigger] connection_request_model(
                id,
                display_name.spec_bytes(),
                endpoint_info_bytes(QuickShareDeviceType::Laptop, metadata, display_name.spec_bytes()),
            ),
{
    let name = display_name.as_bytes();
    if name.len() == 0 || name.len() > 255 {
        return Err(QuickShareSendError::Protocol("invalid desktop device name"));
    }
    let endpoint_id = QuickShareEndpointId::generate();
    let m = random_bytes(16);
    let metadata: [u8; 16] = [
        m[0], m[1], m[2], m[3], m[4], m[5], m[6], m[7], m[8], m[9], m[10], m[11], m[12], m[13], m[14], m[15],
    ];
    let info = endpoint_info_record(QuickShareDeviceType::Laptop, &metadata, name);
    let ghost info_view = info@;
    let id_text = endpoint_id.as_str().to_owned();
    let ghost id_view = id_text@;
    let mut frame = offline_v1(OfflineFrameType::ConnectionRequest);
    let mut request = ConnectionRequestFrame::empty();
    request.endpoint_id = Some(id_text);
    request.endpoint_name = Some(slice_to_vec(name));
    request.mediums = vec![ConnectionMedium::WifiLan.to_i32()];
    request.endpoint_info = Some(info);
    match frame.v1 {
        Some(mut v1) => {
            v1.connection_request = Some(request);
            frame.v1 = Some(v1);
        },
        None => {},
    }
    assert(frame@ =~= connection_request_model(id_view, display_name.spec_bytes(), info_view));
    Ok(frame)
}

/// The introduction's entry for an outgoing file; the attachment ID is the
/// payload ID.
pub open spec fn file_metadata_of<P>(f: OutgoingFile<P>) -> FileMetadataModel {
    FileMetadataModel {
        name: Some(f.name@),
        file_type: Some(f.file_type.code()),
        payload_id: Some(f.payload_id),
        size: Some(f.size as i64),
        mime_type: Some(f.mime_type@),
        id: Some(f.payload_id),
        parent_folder: opt_str_view(f.parent_folder),
    }
}

/// The introduction of a send: one entry per file, in order, for a
/// Nearby Share use, with the start-transfer flag left absent.
pub open spec fn introduction_model<P>(files: Seq<OutgoingFile<P>>) -> SharingFrameModel {
    sharing_with(
        SharingFrameType::Introduction,
        SharingV1FrameModel {
            introduction: Some(
                IntroductionFrameModel {
                    file_metadata: files.map_values(|f: OutgoingFile<P>| file_metadata_of(f)),
                    use_case: Some(SharingUseCase::NearbyShare.code()),
                    ..IntroductionFrameModel::empty()
                },
            ),
            ..SharingV1FrameModel::empty()
        },
    )
}

/// The introduction frame that offers the files.
pub fn introduction_frame<P>(files: &Vec<OutgoingFile<P>>) -> (r: SharingFrame)
    requires
        forall|i: int| 0 <= i < files@.len() ==> #[trigger] files@[i].size <= i64::MAX,
    ensures
        r@ == introduction_model(files@),
{
    let mut entries: Vec<FileMetadata> = Vec::new();
    let mut i: usize = 0;
    while i < files.len()
        invariant
            i <= files@.len(),
            forall|k: int| 0 <= k < files@.len() ==> #[trigger] files@[k].size <= i64::MAX,
            entries@.map_values(|m: FileMetadata| m@) == files@.subrange(0, i as int).map_values(
                |f: OutgoingFile<P>| file_metadata_of(f),
            ),
        decreases files@.len() - i,
    {
        let f = &files[i];
        let entry = FileMetadata {
            name: Some(f.name.clone()),
            file_type: Some(f.file_type.to_i32()),
            payload_id: Some(f.payload_id),
            size: Some(f.size as i64),
            mime_type: Some(f.mime_type.to_owned()),
            id: Some(f.payload_id),
            parent_folder: f.parent_folder.clone(),
        };
        assert(entry@ == file_metadata_of(*f));
        let ghost before = entries@.map_values(|m: FileMetadata| m@);
        entries.push(entry);
        assert(entries@.map_values(|m: FileMetadata| m@) =~= before.push(file_metadata_of(*f)));
        assert(files@.subrange(0, i + 1).map_values(|x: OutgoingFile<P>| file_metadata_of(x)) =~= files@.subrange(
            0,
            i as int,
        ).map_values(|x: OutgoingFile<P>| file_metadata_of(x)).push(file_metadata_of(*f)));
        i = i + 1;
    }
    assert(files@.subrange(0, files@.len() as int) =~= files@);
    let mut introduction = IntroductionFrame::empty();
    introduction.file_metadata = entries;
    introduction.use_case = Some(SharingUseCase::NearbyShare.to_i32());
    let mut frame = sharing_v1(SharingFrameType::Introduction);
    match frame.v1 {
        Some(mut v1) => {
            v1.introduction = Some(introduction);
            frame.v1 = Some(v1);
        },
        None => {},
    }
    assert(frame@ =~= introduction_model(files@));
    frame
}

/// A chunk of an outgoing file: its header names the file and its folder
/// (empty when it has none); the body is always present, also on the empty
/// last chunk.
pub open spec fn file_chunk_model<P>(f: OutgoingFile<P>, offset: u64, body: Seq<u8>, last: bool) -> OfflineFrameModel {
    offline_with(
        OfflineFrameType::PayloadTransfer,
        OfflineV1FrameModel {
            payload_transfer: Some(
                PayloadTransferFrameModel {
                    packet_type: Some(PayloadPacketType::Data.code()),
                    payload_header: Some(
                        PayloadHeaderModel {
                            id: Some(f.payload_id),
                            payload_type: Some(PayloadType::File.code()),
                            total_size: Some(f.size as i64),
                            is_sensitive: Some(false),
                            file_name: Some(f.name@),
                            parent_folder: Some(
                                match f.parent_folder {
                                    Some(p) => p@,
                                    None => Seq::empty(),
                                },
                            ),
                            last_modified_timestamp_millis: Some(f.last_modified_timestamp_millis),
                        },
                    ),
                    payload_chunk: Some(
                        PayloadChunkModel {
                            flags: Some(if last { LAST_CHUNK } else { 0 }),
                            offset: Some(offset as i64),
                            body: Some(body),
                            index: None,
                        },
                    ),
                },
            ),
            ..OfflineV1FrameModel::empty()
        },
    )
}

/// A chunk of an outgoing file.
pub fn file_chunk_frame<P>(file: &OutgoingFile<P>, offset: u64, body: &[u8], last: bool) -> (r: OfflineFrame)
    requires
        offset <= i64::MAX,
        file.size <= i64::MAX,
    ensures
        r@ == file_chunk_model(*file, offset, body@, last),
{
    let parent = match &file.parent_folder {
        Some(p) => p.clone(),
        None => String::new(),
    };
    let transfer = PayloadTransferFrame {
        packet_type: Some(PayloadPacketType::Data.to_i32()),
        payload_header: Some(
            PayloadHeader {
                id: Some(file.payload_id),
                payload_type: Some(PayloadType::File.to_i32()),
                total_size: Some(file.size as i64),
                is_sensitive: Some(false),
                file_name: Some(file.name.clone()),
                parent_folder: Some(parent),
                last_modified_timestamp_millis: Some(file.last_modified_timestamp_millis),
            },
        ),
        payload_chunk: Some(
            PayloadChunk {
                flags: Some(if last { LAST_CHUNK } else { 0 }),
                offset: Some(offset as i64),
                body: Some(slice_to_vec(body)),
                index: None,
            },
        ),
    };
    let mut frame = offline_v1(OfflineFrameType::PayloadTransfer);
    match frame.v1 {
        Some(mut v1) => {
            v1.payload_transfer = Some(transfer);
            frame.v1 = Some(v1);
        },
        None => {},
    }
    assert(frame@ =~= file_chunk_model(*file, offset, body@, last));
    frame
}

// ---------------------------------------------------------------------------
// Reading the phone's answers.
// ---------------------------------------------------------------------------

/// The phone's plain connection response: it must accept; gives the phone's
/// safe-to-disconnect version (0 when absent).
/// The frames the sender sends for a file from offset `start` on, cut into
/// `chunks`: each chunk at the offset where the ones before it end, then an
/// empty last chunk.
pub open spec fn file_frames<P>(f: OutgoingFile<P>, chunks: Seq<Seq<u8>>, start: nat) -> Seq<OfflineFrameModel>
    decreases chunks.len(),
{
    if chunks.len() == 0 {
        seq![file_chunk_model(f, start as u64, Seq::empty(), true)]
    } else {
        seq![file_chunk_model(f, start as u64, chunks[0], false)] + file_frames(
            f,
            chunks.drop_first(),
            start + chunks[0].len(),
        )
    }
}

/// What the receiver does with those frames: write each chunk, then commit
/// the file on the empty last chunk.
pub open spec fn file_actions(id: i64, chunks: Seq<Seq<u8>>) -> Seq<ReceiveActionModel>
    decreases chunks.len(),
{
    if chunks.len() == 0 {
        seq![ReceiveActionModel::FileChunk(id, Some(Seq::empty()), true)]
    } else {
        seq![ReceiveActionModel::FileChunk(id, Some(chunks[0]), false)] + file_actions(id, chunks.drop_first())
    }
}

/// A file arrives whole: when the receiver awaits the file at offset `start`
/// and expects exactly the bytes of `chunks` after it, the frames the sender
/// sends for those chunks are all taken in; the receiver writes exactly the
/// chunks' bytes, in order, and commits the file after the last frame, with
/// nothing else of its state or its byte-payload buffers changed.
pub proof fn lemma_sent_file_arrives_whole<P>(
    s: TransferStateModel,
    bufs: Map<i64, Seq<u8>>,
    f: OutgoingFile<P>,
    chunks: Seq<Seq<u8>>,
    start: nat,
)
    requires
        s.files.contains_key(f.payload_id),
        s.files[f.payload_id].received == start,
        s.files[f.payload_id].expected == start + chunks.flatten().len(),
        s.files[f.payload_id].expected <= i64::MAX,
    ensures
        ({
            let (r, s2, b2) = receive_all_spec(s, bufs, file_frames(f, chunks, start));
            &&& r == Ok::<Seq<ReceiveActionModel>, QuickShareReceiveError>(file_actions(f.payload_id, chunks))
            &&& written_to(file_actions(f.payload_id, chunks), f.payload_id) == chunks.flatten()
            &&& s2.files == s.files.remove(f.payload_id)
            &&& s2.texts == s.texts
            &&& s2.previews == s.previews
            &&& b2 == bufs
        }),
    decreases chunks.len(),
{
    let id = f.payload_id;
    let fp = s.files[id];
    let frames = file_frames(f, chunks, start);
    if chunks.len() == 0 {
        let frame = file_chunk_model(f, start as u64, Seq::empty(), true);
        assert(frames =~= seq![frame]);
        assert(frames.drop_first() =~= Seq::<OfflineFrameModel>::empty());
        let t = frame.v1.unwrap().payload_transfer.unwrap();
        assert(payload_type_of(t) == Some(PayloadType::File.code()));
        assert(last_chunk(Some(LAST_CHUNK)));
        let s1 = TransferStateModel {
            files: s.files.insert(id, FileProgress { expected: fp.expected, received: fp.received }),
            ..s.count(0)
        };
        assert(file_chunk_step(s, t) == (
            Ok::<(i64, Option<Seq<u8>>, bool), QuickShareReceiveError>((id, Some(Seq::<u8>::empty()), true)),
            TransferStateModel { files: s1.files.remove(id), ..s1 },
        ));
        assert(s1.files.remove(id) =~= s.files.remove(id));
        let actions = file_actions(id, chunks);
        assert(actions.drop_first() =~= Seq::<ReceiveActionModel>::empty());
        assert(seq![ReceiveActionModel::FileChunk(id, Some(Seq::<u8>::empty()), true)] + Seq::<ReceiveActionModel>::empty()
            =~= actions);
        assert(written_to(actions.drop_first(), id) == Seq::<u8>::empty());
        assert(chunks.flatten() =~= Seq::<u8>::empty());
        assert(written_to(actions, id) =~= chunks.flatten());
        let after = TransferStateModel { files: s1.files.remove(id), ..s1 };
        let a = ReceiveActionModel::FileChunk(id, Some(Seq::<u8>::empty()), true);
        assert(receive_step_spec(s, bufs, frame) == (Ok::<ReceiveActionModel, QuickShareReceiveError>(a), after, bufs));
        assert(frames[0] == frame);
        assert(receive_all_spec(after, bufs, frames.drop_first()) == (
            Ok::<Seq<ReceiveActionModel>, QuickShareReceiveError>(Seq::empty()),
            after,
            bufs,
        ));
        assert(receive_all_spec(s, bufs, frames) == (
            Ok::<Seq<ReceiveActionModel>, QuickShareReceiveError>(seq![a] + Seq::<ReceiveActionModel>::empty()),
            after,
            bufs,
        ));
    } else {
        let first = chunks[0];
        let rest = chunks.drop_first();
        let frame = file_chunk_model(f, start as u64, first, false);
        assert(frames[0] == frame);
        assert(frames.drop_first() =~= file_frames(f, rest, start + first.len()));
        let t = frame.v1.unwrap().payload_transfer.unwrap();
        assert(payload_type_of(t) == Some(PayloadType::File.code()));
        assert(!last_chunk(Some(0)));
        assert(chunks.flatten() == first + rest.flatten());
        let s1 = TransferStateModel {
            files: s.files.insert(id, FileProgress { expected: fp.expected, received: (fp.received + first.len()) as u64 }),
            ..s.count(first.len() as int)
        };
        assert(file_chunk_step(s, t) == (
            Ok::<(i64, Option<Seq<u8>>, bool), QuickShareReceiveError>((id, Some(first), false)),
            s1,
        ));
        assert(receive_step_spec(s, bufs, frame) == (
            Ok::<ReceiveActionModel, QuickShareReceiveError>(ReceiveActionModel::FileChunk(id, Some(first), false)),
            s1,
            bufs,
        ));
        lemma_sent_file_arrives_whole(s1, bufs, f, rest, start + first.len());
        let later = receive_all_spec(s1, bufs, file_frames(f, rest, start + first.len()));
        assert(receive_all_spec(s, bufs, frames) == (
            Ok::<Seq<ReceiveActionModel>, QuickShareReceiveError>(
                seq![ReceiveActionModel::FileChunk(id, Some(first), false)] + file_actions(id, rest),
            ),
            later.1,
            later.2,
        ));
        assert(s1.files.insert(id, FileProgress { expected: fp.expected, received: (fp.received + first.len()) as u64 }).remove(id)
            =~= s.files.remove(id));
        assert(s1.files.remove(id) =~= s.files.remove(id));
        let actions = file_actions(id, chunks);
        assert(actions[0] == ReceiveActionModel::FileChunk(id, Some(first), false));
        assert(actions.drop_first() =~= file_actions(id, rest));
        assert(seq![ReceiveActionModel::FileChunk(id, Some(first), false)] + file_actions(id, rest) =~= actions);
        assert(written_to(actions, id) == first + written_to(file_actions(id, rest), id));
    }
}

/// The frames of a file, one by one: chunk `i` at the offset where the
/// chunks before it end, then the empty last chunk at the end of the file;
/// these are the frames that [`crate::send_session::SendSession::send_chunk`]
/// and [`crate::send_session::SendSession::end_file`] seal.
pub proof fn lemma_file_frames_are_the_chunks<P>(f: OutgoingFile<P>, chunks: Seq<Seq<u8>>, start: nat)
    ensures
        file_frames(f, chunks, start).len() == chunks.len() + 1,
        forall|i: int| 0 <= i < chunks.len() ==> #[trigger] file_frames(f, chunks, start)[i] == file_chunk_model(
            f,
            (start + chunks.take(i).flatten().len()) as u64,
            chunks[i],
            false,
        ),
        file_frames(f, chunks, start)[chunks.len() as int] == file_chunk_model(
            f,
            (start + chunks.flatten().len()) as u64,
            Seq::empty(),
            true,
        ),
    decreases chunks.len(),
{
    let frames = file_frames(f, chunks, start);
    if chunks.len() == 0 {
        assert(frames =~= seq![file_chunk_model(f, start as u64, Seq::empty(), true)]);
    } else {
        let rest = chunks.drop_first();
        let next = start + chunks[0].len();
        lemma_file_frames_are_the_chunks(f, rest, next);
        let later = file_frames(f, rest, next);
        assert(frames == seq![file_chunk_model(f, start as u64, chunks[0], false)] + later);
        assert(chunks.flatten() == chunks[0] + rest.flatten());
        assert forall|i: int| 0 <= i < chunks.len() implies #[trigger] frames[i] == file_chunk_model(
            f,
            (start + chunks.take(i).flatten().len()) as u64,
            chunks[i],
            false,
        ) by {
            if i == 0 {
                assert(chunks.take(0) =~= Seq::<Seq<u8>>::empty());
            } else {
                assert(frames[i] == later[i - 1]);
                assert(rest[i - 1] == chunks[i]);
                assert(chunks.take(i).drop_first() =~= rest.take(i - 1));
                assert(chunks.take(i).first() == chunks[0]);
                assert(chunks.take(i).flatten() == chunks[0] + rest.take(i - 1).flatten());
            }
        }
        assert(frames[chunks.len() as int] == later[rest.len() as int]);
    }
}

/// The frames a send streams: each file's frames, file after file.
pub open spec fn transfer_frames<P>(files: Seq<OutgoingFile<P>>, contents: Seq<Seq<Seq<u8>>>) -> Seq<OfflineFrameModel>
    decreases files.len(),
{
    if files.len() == 0 || contents.len() == 0 {
        Seq::empty()
    } else {
        file_frames(files[0], contents[0], 0) + transfer_frames(files.drop_first(), contents.drop_first())
    }
}

/// What the receiver does with those frames: each file's actions, in order.
pub open spec fn transfer_actions<P>(files: Seq<OutgoingFile<P>>, contents: Seq<Seq<Seq<u8>>>) -> Seq<ReceiveActionModel>
    decreases files.len(),
{
    if files.len() == 0 || contents.len() == 0 {
        Seq::empty()
    } else {
        file_actions(files[0].payload_id, contents[0]) + transfer_actions(files.drop_first(), contents.drop_first())
    }
}

/// Frames taken in one run after another are taken in as one run.
proof fn lemma_receive_all_append(
    s: TransferStateModel,
    bufs: Map<i64, Seq<u8>>,
    a: Seq<OfflineFrameModel>,
    b: Seq<OfflineFrameModel>,
)
    requires
        receive_all_spec(s, bufs, a).0 is Ok,
    ensures
        ({
            let (ra, sa, ba) = receive_all_spec(s, bufs, a);
            let (rb, sb, bb) = receive_all_spec(sa, ba, b);
            receive_all_spec(s, bufs, a + b) == (
                match rb {
                    Ok(xb) => Ok::<Seq<ReceiveActionModel>, QuickShareReceiveError>(ra->Ok_0 + xb),
                    Err(e) => Err(e),
                },
                sb,
                bb,
            )
        }),
    decreases a.len(),
{
    if a.len() > 0 {
        let (r, s1, b1) = receive_step_spec(s, bufs, a[0]);
        assert((a + b)[0] == a[0]);
        assert((a + b).drop_first() =~= a.drop_first() + b);
        lemma_receive_all_append(s1, b1, a.drop_first(), b);
        let (ra1, sa1, ba1) = receive_all_spec(s1, b1, a.drop_first());
        if let Ok(xa1) = ra1 {
            if let Ok(xb) = receive_all_spec(sa1, ba1, b).0 {
                assert(seq![r->Ok_0] + (xa1 + xb) =~= (seq![r->Ok_0] + xa1) + xb);
            }
        }
    } else {
        assert(a + b =~= b);
        assert(Seq::<ReceiveActionModel>::empty() + receive_all_spec(s, bufs, b).0->Ok_0 =~= receive_all_spec(
            s,
            bufs,
            b,
        ).0->Ok_0);
    }
}

/// What actions write to a file is what each part of them writes, in order.
proof fn lemma_written_to_append(a: Seq<ReceiveActionModel>, b: Seq<ReceiveActionModel>, id: i64)
    ensures
        written_to(a + b, id) == written_to(a, id) + written_to(b, id),
    decreases a.len(),
{
    if a.len() == 0 {
        assert(a + b =~= b);
        assert(Seq::<u8>::empty() + written_to(b, id) =~= written_to(b, id));
    } else {
        assert((a + b)[0] == a[0]);
        assert((a + b).drop_first() =~= a.drop_first() + b);
        lemma_written_to_append(a.drop_first(), b, id);
    }
}

/// The actions for one file write nothing to another.
proof fn lemma_written_to_other(chunks: Seq<Seq<u8>>, id: i64, other: i64)
    requires
        id != other,
    ensures
        written_to(file_actions(id, chunks), other) == Seq::<u8>::empty(),
    decreases chunks.len(),
{
    let actions = file_actions(id, chunks);
    if chunks.len() == 0 {
        assert(actions[0] == ReceiveActionModel::FileChunk(id, Some(Seq::<u8>::empty()), true));
        assert(actions.drop_first() =~= Seq::<ReceiveActionModel>::empty());
        assert(written_to(actions.drop_first(), other) == Seq::<u8>::empty());
        assert(Seq::<u8>::empty() + Seq::<u8>::empty() =~= Seq::<u8>::empty());
    } else {
        assert(actions[0] == ReceiveActionModel::FileChunk(id, Some(chunks[0]), false));
        assert(actions.drop_first() =~= file_actions(id, chunks.drop_first()));
        lemma_written_to_other(chunks.drop_first(), id, other);
        assert(Seq::<u8>::empty() + Seq::<u8>::empty() =~= Seq::<u8>::empty());
    }
}

/// No file of `files` has the payload ID `id`.
pub open spec fn not_among<P>(files: Seq<OutgoingFile<P>>, id: i64) -> bool {
    forall|i: int| 0 <= i < files.len() ==> files[i].payload_id != id
}

/// A whole transfer arrives intact: when the receiver awaits every file of a
/// send from its start, each with the size of the bytes that the sender
/// streams for it, the frames of all the files, file after file, are all
/// taken in; the receiver writes each file's bytes exactly, in order, commits
/// every file, and ends with none of them expected and nothing else of its
/// state or its byte-payload buffers changed.
pub proof fn lemma_transfer_arrives_whole<P>(
    s: TransferStateModel,
    bufs: Map<i64, Seq<u8>>,
    files: Seq<OutgoingFile<P>>,
    contents: Seq<Seq<Seq<u8>>>,
)
    requires
        files.len() == contents.len(),
        forall|i: int, j: int| 0 <= i < j < files.len() ==> files[i].payload_id != files[j].payload_id,
        forall|i: int| 0 <= i < files.len() ==> #[trigger] s.files.contains_key(files[i].payload_id),
        forall|i: int| 0 <= i < files.len() ==> (#[trigger] s.files[files[i].payload_id]).received == 0,
        forall|i: int| 0 <= i < files.len() ==> #[trigger] s.files[files[i].payload_id].expected == contents[i].flatten().len(),
        forall|i: int| 0 <= i < files.len() ==> (#[trigger] s.files[files[i].payload_id]).expected <= i64::MAX,
    ensures
        ({
            let (r, s2, b2) = receive_all_spec(s, bufs, transfer_frames(files, contents));
            &&& r == Ok::<Seq<ReceiveActionModel>, QuickShareReceiveError>(transfer_actions(files, contents))
            &&& forall|i: int| 0 <= i < files.len() ==> written_to(transfer_actions(files, contents), #[trigger] files[i].payload_id)
                == contents[i].flatten()
            &&& forall|i: int| 0 <= i < files.len() ==> !s2.files.contains_key(#[trigger] files[i].payload_id)
            &&& forall|id: i64| #[trigger] not_among(files, id) ==> (s2.files.contains_key(id) == s.files.contains_key(
                id,
            ) && (s.files.contains_key(id) ==> s2.files[id] == s.files[id]))
            &&& s2.texts == s.texts
            &&& s2.previews == s.previews
            &&& b2 == bufs
        }),
    decreases files.len(),
{
    if files.len() == 0 {
        assert(transfer_frames(files, contents) =~= Seq::<OfflineFrameModel>::empty());
    } else {
        let f = files[0];
        let id = f.payload_id;
        assert(s.files.contains_key(files[0].payload_id));
        assert(s.files[files[0].payload_id].received == 0);
        assert(s.files[files[0].payload_id].expected == contents[0].flatten().len());
        assert(s.files[files[0].payload_id].expected <= i64::MAX);
        lemma_sent_file_arrives_whole(s, bufs, f, contents[0], 0);
        let first = file_frames(f, contents[0], 0);
        let (r1, s1, b1) = receive_all_spec(s, bufs, first);
        let rest_files = files.drop_first();
        let rest_contents = contents.drop_first();
        assert forall|i: int, j: int| 0 <= i < j < rest_files.len() implies rest_files[i].payload_id
            != rest_files[j].payload_id by {
            assert(rest_files[i] == files[i + 1]);
            assert(rest_files[j] == files[j + 1]);
        }
        assert forall|i: int| 0 <= i < rest_files.len() implies {
            &&& #[trigger] s1.files.contains_key(rest_files[i].payload_id)
            &&& s1.files[rest_files[i].payload_id] == s.files[files[i + 1].payload_id]
        } by {
            assert(rest_files[i] == files[i + 1]);
            assert(files[0].payload_id != files[i + 1].payload_id);
            assert(s.files.contains_key(files[i + 1].payload_id));
        }
        assert forall|i: int| 0 <= i < rest_files.len() implies (#[trigger] s1.files[rest_files[i].payload_id]).received
            == 0 && s1.files[rest_files[i].payload_id].expected == rest_contents[i].flatten().len()
            && s1.files[rest_files[i].payload_id].expected <= i64::MAX by {
            assert(rest_files[i] == files[i + 1]);
            assert(rest_contents[i] == contents[i + 1]);
            assert(s1.files[rest_files[i].payload_id] == s.files[files[i + 1].payload_id]);
            assert((s.files[files[i + 1].payload_id]).received == 0);
            assert(s.files[files[i + 1].payload_id].expected == contents[i + 1].flatten().len());
            assert((s.files[files[i + 1].payload_id]).expected <= i64::MAX);
        }
        lemma_transfer_arrives_whole(s1, b1, rest_files, rest_contents);
        let later = transfer_frames(rest_files, rest_contents);
        assert(transfer_frames(files, contents) == first + later);
        lemma_receive_all_append(s, bufs, first, later);
        let actions = transfer_actions(files, contents);
        assert(actions == file_actions(id, contents[0]) + transfer_actions(rest_files, rest_contents));
        let (r2, s2, b2) = receive_all_spec(s1, b1, later);
        assert forall|i: int| 0 <= i < files.len() implies written_to(actions, #[trigger] files[i].payload_id)
            == contents[i].flatten() by {
            lemma_written_to_append(file_actions(id, contents[0]), transfer_actions(rest_files, rest_contents), files[i].payload_id);
            if i == 0 {
                assert(!s1.files.contains_key(id));
                assert forall|k: int| 0 <= k < rest_files.len() implies #[trigger] rest_files[k].payload_id != id by {
                    assert(rest_files[k] == files[k + 1]);
                }
                assert(written_to(transfer_actions(rest_files, rest_contents), id) == Seq::<u8>::empty()) by {
                    lemma_written_to_rest_absent(rest_files, rest_contents, id);
                }
                assert(contents[0].flatten() + Seq::<u8>::empty() =~= contents[0].flatten());
            } else {
                assert(rest_files[i - 1] == files[i]);
                assert(rest_contents[i - 1] == contents[i]);
                assert(files[0].payload_id != files[i].payload_id);
                lemma_written_to_other(contents[0], id, files[i].payload_id);
                assert(Seq::<u8>::empty() + written_to(transfer_actions(rest_files, rest_contents), files[i].payload_id)
                    =~= written_to(transfer_actions(rest_files, rest_contents), files[i].payload_id));
            }
        }
        assert(s1.files == s.files.remove(id));
        assert forall|i: int| 0 <= i < files.len() implies !s2.files.contains_key(#[trigger] files[i].payload_id) by {
            if i == 0 {
                assert forall|k: int| 0 <= k < rest_files.len() implies rest_files[k].payload_id != id by {
                    assert(rest_files[k] == files[k + 1]);
                }
                assert(!s1.files.contains_key(id));
                assert(not_among(rest_files, id));
                assert(s2.files.contains_key(id) == s1.files.contains_key(id));
            } else {
                assert(rest_files[i - 1] == files[i]);
            }
        }
        assert forall|other: i64| #[trigger] not_among(files, other) implies (s2.files.contains_key(other)
            == s.files.contains_key(other) && (s.files.contains_key(other) ==> s2.files[other] == s.files[other])) by {
            assert(files[0].payload_id != other);
            assert forall|k: int| 0 <= k < rest_files.len() implies rest_files[k].payload_id != other by {
                assert(rest_files[k] == files[k + 1]);
            }
            assert(not_among(rest_files, other));
            assert(s2.files.contains_key(other) == s1.files.contains_key(other));
            assert(s1.files.contains_key(other) == s.files.contains_key(other));
        }
    }
}

/// No file of a run of files is `id`: their actions write nothing to it.
proof fn lemma_written_to_rest_absent<P>(files: Seq<OutgoingFile<P>>, contents: Seq<Seq<Seq<u8>>>, id: i64)
    requires
        forall|k: int| 0 <= k < files.len() ==> #[trigger] files[k].payload_id != id,
    ensures
        written_to(transfer_actions(files, contents), id) == Seq::<u8>::empty(),
    decreases files.len(),
{
    if files.len() > 0 && contents.len() > 0 {
        let rest = files.drop_first();
        assert forall|k: int| 0 <= k < rest.len() implies #[trigger] rest[k].payload_id != id by {
            assert(rest[k] == files[k + 1]);
        }
        lemma_written_to_rest_absent(rest, contents.drop_first(), id);
        assert(files[0].payload_id != id);
        lemma_written_to_other(contents[0], files[0].payload_id, id);
        lemma_written_to_append(
            file_actions(files[0].payload_id, contents[0]),
            transfer_actions(rest, contents.drop_first()),
            id,
        );
        assert(Seq::<u8>::empty() + Seq::<u8>::empty() =~= Seq::<u8>::empty());
    } else {
        assert(transfer_actions(files, contents) =~= Seq::<ReceiveActionModel>::empty());
    }
}

pub open spec fn connection_response_outcome(frame: OfflineFrameModel) -> Result<i32, QuickShareSendError> {
    if offline_type_of(frame) != Some(OfflineFrameType::ConnectionResponse.code()) {
        Err(QuickShareSendError::Protocol("unexpected offline frame type"))
    } else {
        match frame.v1.unwrap().connection_response {
            Some(r) => if r.response == Some(ConnectionResponseStatus::Accept.code()) {
                Ok(
                    match r.safe_to_disconnect_version {
                        Some(v) => v,
                        None => 0,
                    },
                )
            } else {
                Err(QuickShareSendError::Protocol("phone rejected the LAN connection"))
            },
            None => Err(QuickShareSendError::Protocol("phone rejected the LAN connection")),
        }
    }
}

/// Checks the phone's plain connection response, as
/// [`connection_response_outcome`] says.
pub fn check_connection_response(frame: &OfflineFrame) -> (r: Result<i32, QuickShareSendError>)
    ensures
        match connection_response_outcome(frame@) {
            Ok(v) => r == Ok::<i32, QuickShareSendError>(v),
            Err(e) => r matches Err(x) && x == e,
        },
{
    if !offline_type_is(frame, OfflineFrameType::ConnectionResponse) {
        return Err(QuickShareSendError::Protocol("unexpected offline frame type"));
    }
    let response = match &frame.v1 {
        Some(v1) => match &v1.connection_response {
            Some(r) => r,
            None => return Err(QuickShareSendError::Protocol("phone rejected the LAN connection")),
        },
        None => return Err(QuickShareSendError::Protocol("phone rejected the LAN connection")),
    };
    if response.response != Some(ConnectionResponseStatus::Accept.to_i32()) {
        return Err(QuickShareSendError::Protocol("phone rejected the LAN connection"));
    }
    match response.safe_to_disconnect_version {
        Some(v) => Ok(v),
        None => Ok(0),
    }
}

/// The phone's answer to the introduction: a response frame that accepts.
pub open spec fn sharing_response_outcome(frame: SharingFrameModel) -> Result<(), QuickShareSendError> {
    if sharing_type_of(frame) != Some(SharingFrameType::Response.code()) {
        Err(QuickShareSendError::Protocol("unexpected sharing frame type"))
    } else {
        match frame.v1.unwrap().connection_response {
            Some(r) => if r.status == Some(SharingResponseStatus::Accept.code()) {
                Ok(())
            } else {
                Err(QuickShareSendError::Rejected)
            },
            None => Err(QuickShareSendError::Rejected),
        }
    }
}

/// Checks the phone's answer to the introduction, as
/// [`sharing_response_outcome`] says.
pub fn check_sharing_response(frame: &SharingFrame) -> (r: Result<(), QuickShareSendError>)
    ensures
        match sharing_response_outcome(frame@) {
            Ok(()) => r is Ok,
            Err(e) => r matches Err(x) && x == e,
        },
{
    if !sharing_type_is(frame, SharingFrameType::Response) {
        return Err(QuickShareSendError::Protocol("unexpected sharing frame type"));
    }
    let status = match &frame.v1 {
        Some(v1) => match &v1.connection_response {
            Some(r) => r.status,
            None => None,
        },
        None => None,
    };
    if status == Some(SharingResponseStatus::Accept.to_i32()) {
        Ok(())
    } else {
        Err(QuickShareSendError::Rejected)
    }
}

/// Refuses an offline frame of another type than expected.
pub fn require_offline_type(frame: &OfflineFrame, expected: OfflineFrameType) -> (r: Result<(), QuickShareSendError>)
    ensures
        offline_type_of(frame@) == Some(expected.code()) <==> r is Ok,
        r matches Err(e) ==> e == QuickShareSendError::Protocol("unexpected offline frame type"),
{
    if offline_type_is(frame, expected) {
        Ok(())
    } else {
        Err(QuickShareSendError::Protocol("unexpected offline frame type"))
    }
}

/// Refuses a sharing frame of another type than expected.
pub fn require_sharing_type(frame: &SharingFrame, expected: SharingFrameType) -> (r: Result<(), QuickShareSendError>)
    ensures
        sharing_type_of(frame@) == Some(expected.code()) <==> r is Ok,
        r matches Err(e) ==> e == QuickShareSendError::Protocol("unexpected sharing frame type"),
{
    if sharing_type_is(frame, expected) {
        Ok(())
    } else {
        Err(QuickShareSendError::Protocol("unexpected sharing frame type"))
    }
}


// ---------------------------------------------------------------------------
// Reassembling the phone's byte payloads.
// ---------------------------------------------------------------------------

/// One chunk of a byte payload taken in by the sender: the payload when it
/// is complete, or the error, and the buffers afterwards. The declared size
/// must be within the frame limit and a chunk must start where the buffer
/// ends; a wrong offset drops the buffer, the last chunk removes it and must
/// complete the declared size.
pub open spec fn sender_assemble_step(
    bufs: Map<i64, Seq<u8>>,
    t: PayloadTransferFrameModel,
) -> (Result<Option<Seq<u8>>, QuickShareSendError>, Map<i64, Seq<u8>>) {
    match t.payload_header {
        None => (Err(QuickShareSendError::Protocol("missing payload header")), bufs),
        Some(h) => match t.payload_chunk {
            None => (Err(QuickShareSendError::Protocol("missing payload chunk")), bufs),
            Some(c) => match h.id {
                None => (Err(QuickShareSendError::Protocol("missing payload ID")), bufs),
                Some(id) => match h.total_size {
                    None => (Err(QuickShareSendError::Protocol("missing payload size")), bufs),
                    Some(total) => if total < 0 || total > MAX_WIRE_FRAME_BYTES {
                        (Err(QuickShareSendError::Protocol("byte payload is too large")), bufs)
                    } else {
                        let buf = if bufs.contains_key(id) {
                            bufs[id]
                        } else {
                            Seq::empty()
                        };
                        if c.offset != Some(buf.len() as i64) {
                            (Err(QuickShareSendError::Protocol("unexpected byte payload offset")), bufs.remove(id))
                        } else {
                            let grown = match c.body {
                                Some(b) => buf + b,
                                None => buf,
                            };
                            if last_chunk(c.flags) {
                                if grown.len() != total {
                                    (Err(QuickShareSendError::Protocol("incomplete byte payload")), bufs.remove(id))
                                } else {
                                    (Ok(Some(grown)), bufs.remove(id))
                                }
                            } else {
                                (Ok(None), bufs.insert(id, grown))
                            }
                        }
                    },
                },
            },
        },
    }
}

/// Reassembles the byte payloads (sharing frames) the phone sends.
pub struct BytesAssembler {
    buffers: HashMap<i64, Vec<u8>>,
}

impl BytesAssembler {
    /// The bytes gathered so far for each unfinished payload.
    pub closed spec fn buffers(self) -> Map<i64, Seq<u8>> {
        self.buffers@.map_values(|v: Vec<u8>| v@)
    }

    /// An assembler with no unfinished payload.
    pub fn new() -> (r: Self)
        ensures
            r.buffers() == Map::<i64, Seq<u8>>::empty(),
    {
        broadcast use vstd::std_specs::hash::group_hash_axioms;
        let r = BytesAssembler { buffers: HashMap::new() };
        assert(r.buffers() =~= Map::<i64, Seq<u8>>::empty());
        r
    }

    /// Takes in one chunk of a byte payload; returns the payload once its
    /// last chunk has arrived.
    pub fn push(&mut self, transfer: &PayloadTransferFrame) -> (r: Result<Option<Vec<u8>>, QuickShareSendError>)
        ensures
            final(self).buffers() == sender_assemble_step(old(self).buffers(), transfer@).1,
            match sender_assemble_step(old(self).buffers(), transfer@).0 {
                Ok(Some(bytes)) => r matches Ok(Some(b)) && b@ == bytes,
                Ok(None) => r matches Ok(None),
                Err(e) => r matches Err(x) && x == e,
            },
    {
        broadcast use vstd::std_specs::hash::group_hash_axioms;
        let ghost before = self.buffers();
        let header = match &transfer.payload_header {
            Some(h) => h,
            None => return Err(QuickShareSendError::Protocol("missing payload header")),
        };
        let chunk = match &transfer.payload_chunk {
            Some(c) => c,
            None => return Err(QuickShareSendError::Protocol("missing payload chunk")),
        };
        let id = match header.id {
            Some(i) => i,
            None => return Err(QuickShareSendError::Protocol("missing payload ID")),
        };
        let total = match header.total_size {
            Some(t) => t,
            None => return Err(QuickShareSendError::Protocol("missing payload size")),
        };
        if total < 0 || total > MAX_WIRE_FRAME_BYTES as i64 {
            return Err(QuickShareSendError::Protocol("byte payload is too large"));
        }
        let existing = self.buffers.remove(&id);
        let mut buffer = match existing {
            Some(b) => b,
            None => Vec::new(),
        };
        proof {
            assert(self.buffers() =~= before.remove(id));
            if before.contains_key(id) {
                assert(buffer@ == before[id]);
            } else {
                assert(buffer@ =~= Seq::<u8>::empty());
            }
        }
        if chunk.offset != Some(buffer.len() as i64) {
            return Err(QuickShareSendError::Protocol("unexpected byte payload offset"));
        }
        match &chunk.body {
            Some(body) => {
                let ghost old_buffer = buffer@;
                buffer.extend_from_slice(body);
                assert(buffer@ =~= old_buffer + body@);
            },
            None => {},
        }
        if is_last_chunk(chunk.flags) {
            if buffer.len() as u64 != total as u64 {
                return Err(QuickShareSendError::Protocol("incomplete byte payload"));
            }
            return Ok(Some(buffer));
        }
        let ghost grown = buffer@;
        self.buffers.insert(id, buffer);
        assert(self.buffers() =~= before.insert(id, grown));
        Ok(None)
    }
}

/// What to do while waiting for the phone's next sharing frame.
#[derive(Debug)]
pub enum SharingStep {
    /// Read another frame.
    Continue,
    /// Send a keep-alive acknowledgement with this sequence number.
    AckKeepAlive(Option<u32>),
    /// The sharing frame that arrived.
    Frame(SharingFrame),
}

/// What a decrypted frame means while the sender waits for a sharing frame:
/// keep-alives are answered, every payload transfer goes to the assembler, a
/// disconnection is an error, anything else is skipped.
pub open spec fn sender_sharing_step_spec(bufs: Map<i64, Seq<u8>>, frame: OfflineFrameModel) -> (
    Result<Option<Result<Option<u32>, SharingFrameModel>>, QuickShareSendError>,
    Map<i64, Seq<u8>>,
) {
    match frame.v1 {
        None => (Err(QuickShareSendError::Protocol("missing encrypted v1 frame")), bufs),
        Some(v1) => if v1.frame_type == Some(OfflineFrameType::KeepAlive.code()) {
            match keep_alive_reply(v1) {
                Some(seq) => (Ok(Some(Ok(seq))), bufs),
                None => (Ok(None), bufs),
            }
        } else if v1.frame_type == Some(OfflineFrameType::PayloadTransfer.code()) {
            match v1.payload_transfer {
                None => (Err(QuickShareSendError::Protocol("missing payload transfer")), bufs),
                Some(t) => {
                    let (r, b2) = sender_assemble_step(bufs, t);
                    match r {
                        Err(e) => (Err(e), b2),
                        Ok(None) => (Ok(None), b2),
                        Ok(Some(bytes)) => match SharingFrameModel::decoded(bytes) {
                            None => (Err(QuickShareSendError::Protobuf(DecodeError)), b2),
                            Some(f) => (Ok(Some(Err(f))), b2),
                        },
                    }
                },
            }
        } else if v1.frame_type == Some(OfflineFrameType::Disconnection.code()) {
            (Err(QuickShareSendError::Protocol("phone disconnected")), bufs)
        } else {
            (Ok(None), bufs)
        },
    }
}

/// A sharing frame that the phone sends as a byte payload of two chunks (its
/// encoding, then an empty or bodiless last chunk) comes out of the second
/// step as the same frame, after the first step asked for more; the buffers
/// end as they began.
pub proof fn lemma_phone_sharing_frame_arrives(
    bufs: Map<i64, Seq<u8>>,
    id: i64,
    sharing: SharingFrameModel,
    last_body: Option<Seq<u8>>,
)
    requires
        !bufs.contains_key(id),
        sharing.wf(),
        sharing.encoding().len() <= MAX_WIRE_FRAME_BYTES,
        last_body matches Some(b) ==> b.len() == 0,
    ensures
        ({
            let body = sharing.encoding();
            let first = bytes_chunk_model(id, body.len() as i64, 0, 0, Some(body));
            let last = bytes_chunk_model(id, body.len() as i64, LAST_CHUNK, body.len() as i64, last_body);
            let (r1, after1) = sender_sharing_step_spec(bufs, first);
            let (r2, after2) = sender_sharing_step_spec(after1, last);
            &&& r1 == Ok::<Option<Result<Option<u32>, SharingFrameModel>>, QuickShareSendError>(None)
            &&& r2 == Ok::<Option<Result<Option<u32>, SharingFrameModel>>, QuickShareSendError>(Some(Err(sharing)))
            &&& after2 == bufs
        }),
{
    let body = sharing.encoding();
    sharing.lemma_round_trip(RECURSION_BUDGET as nat);
    assert(SharingFrameModel::decoded(body) == Some(sharing));
    let first = bytes_chunk_model(id, body.len() as i64, 0, 0, Some(body));
    let last = bytes_chunk_model(id, body.len() as i64, LAST_CHUNK, body.len() as i64, last_body);
    let t1 = first.v1.unwrap().payload_transfer.unwrap();
    let t2 = last.v1.unwrap().payload_transfer.unwrap();
    let after1 = bufs.insert(id, Seq::<u8>::empty() + body);
    assert(Seq::<u8>::empty() + body =~= body);
    assert(sender_assemble_step(bufs, t1) == (Ok::<Option<Seq<u8>>, QuickShareSendError>(None), after1));
    assert(after1.remove(id) =~= bufs);
    if let Some(b) = last_body {
        assert(body + b =~= body);
    }
    assert(last_chunk(Some(LAST_CHUNK)));
    assert(sender_assemble_step(after1, t2) == (Ok::<Option<Seq<u8>>, QuickShareSendError>(Some(body)), bufs));
}

/// Handles one decrypted frame while waiting for a sharing frame, as
/// [`sender_sharing_step_spec`] says.
pub fn sharing_step(assembler: &mut BytesAssembler, frame: &OfflineFrame) -> (r: Result<SharingStep, QuickShareSendError>)
    ensures
        final(assembler).buffers() == sender_sharing_step_spec(old(assembler).buffers(), frame@).1,
        match sender_sharing_step_spec(old(assembler).buffers(), frame@).0 {
            Err(e) => r matches Err(x) && x == e,
            Ok(None) => r matches Ok(SharingStep::Continue),
            Ok(Some(Ok(seq))) => r matches Ok(SharingStep::AckKeepAlive(s)) && s == seq,
            Ok(Some(Err(f))) => r matches Ok(SharingStep::Frame(x)) && x@ == f,
        },
{
    let v1 = match &frame.v1 {
        Some(v1) => v1,
        None => return Err(QuickShareSendError::Protocol("missing encrypted v1 frame")),
    };
    if v1.frame_type == Some(OfflineFrameType::KeepAlive.to_i32()) {
        return match keep_alive_ack_for(v1) {
            Some(seq) => Ok(SharingStep::AckKeepAlive(seq)),
            None => Ok(SharingStep::Continue),
        };
    }
    if v1.frame_type == Some(OfflineFrameType::PayloadTransfer.to_i32()) {
        let transfer = match &v1.payload_transfer {
            Some(t) => t,
            None => return Err(QuickShareSendError::Protocol("missing payload transfer")),
        };
        return match assembler.push(transfer) {
            Err(e) => Err(e),
            Ok(None) => Ok(SharingStep::Continue),
            Ok(Some(bytes)) => match SharingFrame::decode(&bytes) {
                Ok(f) => Ok(SharingStep::Frame(f)),
                Err(e) => Err(QuickShareSendError::Protobuf(e)),
            },
        };
    }
    if v1.frame_type == Some(OfflineFrameType::Disconnection.to_i32()) {
        return Err(QuickShareSendError::Protocol("phone disconnected"));
    }
    Ok(SharingStep::Continue)
}

// ---------------------------------------------------------------------------
// During and after the file stream.
// ---------------------------------------------------------------------------

/// What to do with a frame that arrives while files are streamed.
#[derive(Debug, PartialEq, Eq)]
pub enum PendingStep {
    /// Nothing to answer.
    Continue,
    /// Send a keep-alive acknowledgement with this sequence number.
    AckKeepAlive(Option<u32>),
}

/// A frame that arrives while files are streamed: keep-alives are answered,
/// a disconnection stops the transfer, anything else (such as payload
/// progress acknowledgements) is read and skipped.
pub fn pending_frame_step(frame: &OfflineFrame) -> (r: Result<PendingStep, QuickShareSendError>)
    ensures
        match frame@.v1 {
            None => r == Ok::<PendingStep, QuickShareSendError>(PendingStep::Continue),
            Some(v1) => if v1.frame_type == Some(OfflineFrameType::KeepAlive.code()) {
                match keep_alive_reply(v1) {
                    Some(seq) => r == Ok::<PendingStep, QuickShareSendError>(PendingStep::AckKeepAlive(seq)),
                    None => r == Ok::<PendingStep, QuickShareSendError>(PendingStep::Continue),
                }
            } else if v1.frame_type == Some(OfflineFrameType::Disconnection.code()) {
                r matches Err(e) && e == QuickShareSendError::Protocol("receiver disconnected during transfer")
            } else {
                r == Ok::<PendingStep, QuickShareSendError>(PendingStep::Continue)
            },
        },
{
    let v1 = match &frame.v1 {
        Some(v1) => v1,
        None => return Ok(PendingStep::Continue),
    };
    if v1.frame_type == Some(OfflineFrameType::KeepAlive.to_i32()) {
        return match keep_alive_ack_for(v1) {
            Some(seq) => Ok(PendingStep::AckKeepAlive(seq)),
            None => Ok(PendingStep::Continue),
        };
    }
    if v1.frame_type == Some(OfflineFrameType::Disconnection.to_i32()) {
        return Err(QuickShareSendError::Protocol("receiver disconnected during transfer"));
    }
    Ok(PendingStep::Continue)
}

/// What to do with a frame that arrives after the last file.
#[derive(Debug, PartialEq, Eq)]
pub enum FinalizeStep {
    /// Keep waiting.
    Continue,
    /// Send a keep-alive acknowledgement with this sequence number and keep
    /// waiting.
    AckKeepAlive(Option<u32>),
    /// The receiver finalized; when `reply_ack`, acknowledge its
    /// safe-to-disconnect request first.
    Finished { reply_ack: bool },
}

/// A frame that arrives after the last file: the receiver's disconnection
/// ends the wait (its request for a safe disconnect, not yet acknowledged,
/// is acknowledged), keep-alives are answered, anything else is skipped.
pub fn finalize_step(frame: &OfflineFrame) -> (r: FinalizeStep)
    ensures
        match frame@.v1 {
            None => r == FinalizeStep::Continue,
            Some(v1) => if v1.frame_type == Some(OfflineFrameType::Disconnection.code()) {
                let (request, ack) = match v1.disconnection {
                    Some(d) => (d.request_safe_to_disconnect == Some(true), d.ack_safe_to_disconnect == Some(true)),
                    None => (false, false),
                };
                r == FinalizeStep::Finished { reply_ack: request && !ack }
            } else if v1.frame_type == Some(OfflineFrameType::KeepAlive.code()) {
                match keep_alive_reply(v1) {
                    Some(seq) => r == FinalizeStep::AckKeepAlive(seq),
                    None => r == FinalizeStep::Continue,
                }
            } else {
                r == FinalizeStep::Continue
            },
        },
{
    let v1 = match &frame.v1 {
        Some(v1) => v1,
        None => return FinalizeStep::Continue,
    };
    if v1.frame_type == Some(OfflineFrameType::Disconnection.to_i32()) {
        let (request, ack) = match &v1.disconnection {
            Some(d) => (d.request_safe_to_disconnect == Some(true), d.ack_safe_to_disconnect == Some(true)),
            None => (false, false),
        };
        return FinalizeStep::Finished { reply_ack: request && !ack };
    }
    if v1.frame_type == Some(OfflineFrameType::KeepAlive.to_i32()) {
        return match keep_alive_ack_for(v1) {
            Some(seq) => FinalizeStep::AckKeepAlive(seq),
            None => FinalizeStep::Continue,
        };
    }
    FinalizeStep::Continue
}

/// A read failure after the last file: the receiver closing the connection
/// finalizes the transfer; a timeout means the receiver never confirmed;
/// anything else is the failure itself.
pub fn finalize_read_failure(error: QuickShareSendError) -> (r: Result<(), QuickShareSendError>)
    ensures
        match error {
            QuickShareSendError::Frame(FrameIoError::Io(f)) => if f.kind == IoErrorKind::UnexpectedEof
                || f.kind == IoErrorKind::ConnectionReset || f.kind == IoErrorKind::ConnectionAborted {
                r is Ok
            } else if f.kind == IoErrorKind::WouldBlock || f.kind == IoErrorKind::TimedOut {
                r matches Err(e) && e == QuickShareSendError::Protocol("receiver did not confirm that the file was committed")
            } else {
                r matches Err(e) && e == error
            },
            _ => r matches Err(e) && e == error,
        },
{
    let kind = match &error {
        QuickShareSendError::Frame(FrameIoError::Io(f)) => Some(f.kind),
        _ => None,
    };
    match kind {
        Some(IoErrorKind::UnexpectedEof) => Ok(()),
        Some(IoErrorKind::ConnectionReset) => Ok(()),
        Some(IoErrorKind::ConnectionAborted) => Ok(()),
        Some(IoErrorKind::WouldBlock) => Err(QuickShareSendError::Protocol("receiver did not confirm that the file was committed")),
        Some(IoErrorKind::TimedOut) => Err(QuickShareSendError::Protocol("receiver did not confirm that the file was committed")),
        _ => Err(error),
    }
}


/// What a send error reads as.
pub open spec fn send_error_text(e: QuickShareSendError) -> Seq<char> {
    match e {
        QuickShareSendError::Io(f) => "I/O error: "@ + f.message@,
        QuickShareSendError::Frame(f) => "wire framing error: "@ + frame_error_text(f),
        QuickShareSendError::Crypto(c) => "cryptographic protocol error: "@ + crypto_error_text(c),
        QuickShareSendError::Protobuf(_) => "invalid protobuf: "@ + decode_error_text(),
        QuickShareSendError::Qr(q) => "QR rendezvous failed: "@ + qr_error_text(q),
        QuickShareSendError::InvalidFile(m) => "invalid or unreadable file: "@ + m@,
        QuickShareSendError::TransferTooLarge => "the selected files exceed the 100 GiB safety limit"@,
        QuickShareSendError::Protocol(m) => "unexpected Quick Share protocol message: "@ + m@,
        QuickShareSendError::Rejected => "the phone rejected the transfer"@,
    }
}

impl QuickShareSendError {
    /// The error as a sentence.
    pub fn describe(&self) -> (r: String)
        ensures
            r@ == send_error_text(*self),
    {
        match self {
            QuickShareSendError::Io(f) => {
                let mut s = String::from_str("I/O error: ");
                s.append(f.message.as_str());
                s
            },
            QuickShareSendError::Frame(f) => {
                let mut s = String::from_str("wire framing error: ");
                s.append(f.describe().as_str());
                s
            },
            QuickShareSendError::Crypto(c) => {
                let mut s = String::from_str("cryptographic protocol error: ");
                s.append(c.describe().as_str());
                s
            },
            QuickShareSendError::Protobuf(e) => {
                let mut s = String::from_str("invalid protobuf: ");
                s.append(e.describe().as_str());
                s
            },
            QuickShareSendError::Qr(q) => {
                let mut s = String::from_str("QR rendezvous failed: ");
                s.append(q.describe().as_str());
                s
            },
            QuickShareSendError::InvalidFile(m) => {
                let mut s = String::from_str("invalid or unreadable file: ");
                s.append(m.as_str());
                s
            },
            QuickShareSendError::TransferTooLarge => String::from_str(
                "the selected files exceed the 100 GiB safety limit",
            ),
            QuickShareSendError::Protocol(m) => {
                let mut s = String::from_str("unexpected Quick Share protocol message: ");
                s.append(m);
                s
            },
            QuickShareSendError::Rejected => String::from_str("the phone rejected the transfer"),
        }
    }
}

} // verus!
