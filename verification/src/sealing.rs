//! Frames sealed on a SecureChannel, as both peers send them: a single
//! offline frame, or a sharing frame carried as a byte payload of two chunks.

use vstd::prelude::*;
use crate::primitives::random_u64;
use crate::quick_share_crypto::{sealed_message, QuickShareCryptoError, SecureChannel, SessionKeysModel};
use crate::quick_share_frames::{bytes_chunk_frame, bytes_chunk_model, LAST_CHUNK};
use crate::quick_share_wire::{OfflineFrame, OfflineFrameModel, SharingFrame, SharingFrameModel};
use crate::wire_format::opt_bytes_view;

verus! {

/// `bytes` is `frame` sealed under `keys` as message number `n`, with some IV.
pub open spec fn seals(keys: SessionKeysModel, n: int, frame: OfflineFrameModel, bytes: Seq<u8>) -> bool {
    exists|iv: Seq<u8>| iv.len() == 16 && bytes == #[trigger] sealed_message(keys, n as i32, frame, iv)
}

/// The two chunks of a sharing frame sent as byte payload `id`: the whole
/// encoding at offset 0, then the last chunk with `closing` as its body.
pub open spec fn sharing_chunks(id: i64, sharing: SharingFrameModel, closing: Option<Seq<u8>>) -> (OfflineFrameModel, OfflineFrameModel) {
    let body = sharing.encoding();
    (
        bytes_chunk_model(id, body.len() as i64, 0, 0, Some(body)),
        bytes_chunk_model(id, body.len() as i64, LAST_CHUNK, body.len() as i64, closing),
    )
}

/// `first` and `last` are the two chunks of `sharing`, for some payload ID,
/// sealed under `keys` as messages `n + 1` and `n + 2`.
pub open spec fn seals_sharing(
    keys: SessionKeysModel,
    n: int,
    sharing: SharingFrameModel,
    closing: Option<Seq<u8>>,
    first: Seq<u8>,
    last: Seq<u8>,
) -> bool {
    exists|id: i64| #[trigger] seals(keys, n + 1, sharing_chunks(id, sharing, closing).0, first)
        && seals(keys, n + 2, sharing_chunks(id, sharing, closing).1, last)
}

/// Seals one frame as the channel's next message.
pub fn seal_frame(channel: &mut SecureChannel, frame: &OfflineFrame) -> (r: Result<Vec<u8>, QuickShareCryptoError>)
    ensures
        final(channel).keys() == old(channel).keys(),
        final(channel).received() == old(channel).received(),
        old(channel).sent() < i32::MAX ==> (r matches Ok(b) && seals(old(channel).keys(), old(channel).sent() + 1, frame@, b@)
            && final(channel).sent() == old(channel).sent() + 1),
        old(channel).sent() == i32::MAX ==> r == Err::<Vec<u8>, QuickShareCryptoError>(
            QuickShareCryptoError::InvalidSecureMessage,
        ),
{
    let r = channel.encrypt_offline_frame(frame);
    proof {
        if old(channel).sent() < i32::MAX {
            if let Ok(b) = &r {
                let iv = choose|iv: Seq<u8>| iv.len() == 16 && b@ == #[trigger] sealed_message(
                    old(channel).keys(),
                    channel.sent(),
                    frame@,
                    iv,
                );
                assert(((old(channel).sent() + 1) as int) as i32 == channel.sent());
                assert(b@ == sealed_message(old(channel).keys(), ((old(channel).sent() + 1) as int) as i32, frame@, iv));
            }
        }
    }
    r
}

/// Seals a sharing frame as the channel's next two messages, under a fresh
/// payload ID.
pub fn seal_sharing(channel: &mut SecureChannel, sharing: &SharingFrame, closing: Option<Vec<u8>>) -> (r: Result<
    (Vec<u8>, Vec<u8>),
    QuickShareCryptoError,
>)
    ensures
        final(channel).keys() == old(channel).keys(),
        final(channel).received() == old(channel).received(),
        old(channel).sent() + 2 <= i32::MAX ==> (r matches Ok((first, last)) && seals_sharing(
            old(channel).keys(),
            old(channel).sent() as int,
            sharing@,
            opt_bytes_view(closing),
            first@,
            last@,
        ) && final(channel).sent() == old(channel).sent() + 2),
        old(channel).sent() + 2 > i32::MAX ==> r == Err::<(Vec<u8>, Vec<u8>), QuickShareCryptoError>(
            QuickShareCryptoError::InvalidSecureMessage,
        ),
{
    let ghost closing_view = opt_bytes_view(closing);
    let body = sharing.encode_to_vec();
    let id = random_u64() as i64;
    let total = body.len() as i64;
    let ghost chunks = sharing_chunks(id, sharing@, closing_view);
    let first_frame = bytes_chunk_frame(id, total, 0, 0, Some(body));
    let last_frame = bytes_chunk_frame(id, total, LAST_CHUNK, total, closing);
    assert(first_frame@ == chunks.0);
    assert(last_frame@ == chunks.1);
    let first = match seal_frame(channel, &first_frame) {
        Ok(b) => b,
        Err(e) => return Err(e),
    };
    let last = match seal_frame(channel, &last_frame) {
        Ok(b) => b,
        Err(e) => return Err(e),
    };
    assert(seals(old(channel).keys(), old(channel).sent() + 1, sharing_chunks(id, sharing@, closing_view).0, first@));
    Ok((first, last))
}

} // verus!
