//! Length-prefixed TCP framing shared by Nearby Connections messages: each
//! frame is a four-byte big-endian length followed by that many bytes.

use vstd::prelude::*;
use crate::text::{decimal_text, push_decimal};
use crate::primitives::{flush_writer, read_exact_bytes, write_all_bytes};

verus! {

/// Largest frame body accepted on the wire (5 MiB).
pub const MAX_WIRE_FRAME_BYTES: usize = 5242880;

/// The kinds of I/O failure that the protocol logic tells apart.
#[derive(Clone, Copy, Debug, PartialEq, Eq, Structural)]
pub enum IoErrorKind {
    UnexpectedEof,
    ConnectionReset,
    ConnectionAborted,
    BrokenPipe,
    WouldBlock,
    TimedOut,
    Other,
}

/// An I/O failure: its kind and the operating system's description.
#[derive(Clone, Debug, PartialEq, Eq)]
pub struct IoFailure {
    pub kind: IoErrorKind,
    pub message: String,
}

#[derive(Debug)]
pub enum FrameIoError {
    Io(IoFailure),
    InvalidLength(usize),
}

/// The peer closed or reset the connection.
pub open spec fn is_disconnect_kind(kind: IoErrorKind) -> bool {
    ||| kind == IoErrorKind::UnexpectedEof
    ||| kind == IoErrorKind::ConnectionReset
    ||| kind == IoErrorKind::ConnectionAborted
    ||| kind == IoErrorKind::BrokenPipe
}

impl FrameIoError {
    /// Nearby clients may probe an advertised port and disconnect before
    /// sending a complete frame. This is not a transfer failure.
    pub fn is_peer_disconnect(&self) -> (r: bool)
        ensures
            r == (self matches FrameIoError::Io(f) && is_disconnect_kind(f.kind)),
    {
        match self {
            FrameIoError::Io(failure) => {
                match failure.kind {
                    IoErrorKind::UnexpectedEof => true,
                    IoErrorKind::ConnectionReset => true,
                    IoErrorKind::ConnectionAborted => true,
                    IoErrorKind::BrokenPipe => true,
                    _ => false,
                }
            },
            FrameIoError::InvalidLength(_) => false,
        }
    }
}

/// The value of a four-byte big-endian prefix.
pub open spec fn be_u32_value(prefix: Seq<u8>) -> nat {
    (prefix[0] as nat) * 16777216 + (prefix[1] as nat) * 65536 + (prefix[2] as nat) * 256
        + prefix[3] as nat
}

/// The four-byte big-endian prefix of a frame of `len` bytes.
pub open spec fn frame_prefix(len: nat) -> Seq<u8> {
    seq![
        (len / 16777216 % 256) as u8,
        (len / 65536 % 256) as u8,
        (len / 256 % 256) as u8,
        (len % 256) as u8,
    ]
}

/// A body length the wire accepts.
pub open spec fn valid_frame_len(len: nat) -> bool {
    1 <= len <= MAX_WIRE_FRAME_BYTES
}

/// The body length announced by a prefix, or the error for a length that is
/// empty or above the limit.
pub fn frame_length(prefix: [u8; 4]) -> (r: Result<usize, FrameIoError>)
    ensures
        match r {
            Ok(n) => n == be_u32_value(prefix@) && valid_frame_len(n as nat),
            Err(FrameIoError::InvalidLength(n)) => n == be_u32_value(prefix@) && !valid_frame_len(
                n as nat,
            ),
            Err(FrameIoError::Io(_)) => false,
        },
{
    let length = (prefix[0] as usize) * 16777216 + (prefix[1] as usize) * 65536 + (prefix[2] as usize)
        * 256 + prefix[3] as usize;
    if length == 0 || length > MAX_WIRE_FRAME_BYTES {
        Err(FrameIoError::InvalidLength(length))
    } else {
        Ok(length)
    }
}

/// The prefix announcing a frame of `len` bytes, or the error for a length the
/// wire does not accept.
pub fn frame_header(len: usize) -> (r: Result<[u8; 4], FrameIoError>)
    ensures
        match r {
            Ok(p) => valid_frame_len(len as nat) && p@ == frame_prefix(len as nat),
            Err(FrameIoError::InvalidLength(n)) => n == len && !valid_frame_len(len as nat),
            Err(FrameIoError::Io(_)) => false,
        },
{
    if len == 0 || len > MAX_WIRE_FRAME_BYTES {
        return Err(FrameIoError::InvalidLength(len));
    }
    let p = [
        (len / 16777216 % 256) as u8,
        (len / 65536 % 256) as u8,
        (len / 256 % 256) as u8,
        (len % 256) as u8,
    ];
    assert(p@ =~= frame_prefix(len as nat));
    Ok(p)
}

/// A prefix written for an accepted length is read back as that length.
pub proof fn lemma_frame_prefix_round_trip(len: nat)
    requires
        valid_frame_len(len),
    ensures
        be_u32_value(frame_prefix(len)) == len,
{
}

/// Reads one frame: the prefix, then exactly the announced number of bytes.
/// A length of zero or above the limit is refused before any body is read.
pub fn read_frame<R: std::io::Read>(reader: &mut R) -> (r: Result<Vec<u8>, FrameIoError>)
    ensures
        match r {
            Ok(body) => valid_frame_len(body@.len()),
            Err(FrameIoError::InvalidLength(n)) => !valid_frame_len(n as nat),
            Err(FrameIoError::Io(_)) => true,
        },
{
    let prefix = match read_exact_bytes(reader, 4) {
        Ok(p) => p,
        Err(e) => return Err(FrameIoError::Io(e)),
    };
    let length = match frame_length([prefix[0], prefix[1], prefix[2], prefix[3]]) {
        Ok(n) => n,
        Err(e) => return Err(e),
    };
    match read_exact_bytes(reader, length) {
        Ok(body) => Ok(body),
        Err(e) => Err(FrameIoError::Io(e)),
    }
}

/// The bytes of one frame on the wire: its big-endian length, then the
/// frame; an empty frame or one above the limit is refused.
pub fn framed(frame: &[u8]) -> (r: Result<Vec<u8>, FrameIoError>)
    ensures
        match r {
            Ok(b) => valid_frame_len(frame@.len()) && b@ == frame_prefix(frame@.len()) + frame@,
            Err(FrameIoError::InvalidLength(n)) => n == frame@.len() && !valid_frame_len(frame@.len()),
            Err(FrameIoError::Io(_)) => false,
        },
{
    let header = match frame_header(frame.len()) {
        Ok(h) => h,
        Err(e) => return Err(e),
    };
    let mut bytes: Vec<u8> = Vec::new();
    bytes.extend_from_slice(&header);
    bytes.extend_from_slice(frame);
    assert(bytes@ =~= frame_prefix(frame@.len()) + frame@);
    Ok(bytes)
}

/// Writes one frame, as [`framed`] gives its bytes, in one write, then
/// flushes. An empty frame or one above the limit is refused before anything
/// is written.
pub fn write_frame<W: std::io::Write>(writer: &mut W, frame: &[u8]) -> (r: Result<
    (),
    FrameIoError,
>)
    ensures
        match r {
            Ok(()) => valid_frame_len(frame@.len()),
            Err(FrameIoError::InvalidLength(n)) => n == frame@.len() && !valid_frame_len(
                frame@.len(),
            ),
            Err(FrameIoError::Io(_)) => valid_frame_len(frame@.len()),
        },
{
    let bytes = match framed(frame) {
        Ok(b) => b,
        Err(e) => return Err(e),
    };
    if let Err(e) = write_all_bytes(writer, &bytes) {
        return Err(FrameIoError::Io(e));
    }
    match flush_writer(writer) {
        Ok(()) => Ok(()),
        Err(e) => Err(FrameIoError::Io(e)),
    }
}


/// What a framing error reads as.
pub open spec fn frame_error_text(e: FrameIoError) -> Seq<char> {
    match e {
        FrameIoError::Io(f) => "I/O error: "@ + f.message@,
        FrameIoError::InvalidLength(n) => "wire frame length "@ + decimal_text(n as nat)
            + " is outside the permitted range"@,
    }
}

impl FrameIoError {
    /// The error as a sentence.
    pub fn describe(&self) -> (r: String)
        ensures
            r@ == frame_error_text(*self),
    {
        match self {
            FrameIoError::Io(f) => {
                let mut s = String::from_str("I/O error: ");
                s.append(f.message.as_str());
                s
            },
            FrameIoError::InvalidLength(n) => {
                let mut s = String::from_str("wire frame length ");
                push_decimal(&mut s, *n as u64);
                s.append(" is outside the permitted range");
                s
            },
        }
    }
}

} // verus!
