//! Passive Quick Share discovery over the computer's existing LAN: reading the
//! endpoint-info record that Quick Share listeners publish.

use vstd::prelude::*;
use vstd::utf8::{encode_utf8, valid_utf8};
use crate::bytes::copy_range;
use crate::primitives::{b64url, base64url_decode, lemma_b64url_injective, string_from_utf8};
use crate::quick_share::{
    endpoint_info_bytes, endpoint_name_end, hidden_flag, is_hidden, name_end, name_fits, visible_endpoint,
    QuickShareDeviceType,
};

verus! {

/// The name and device type that an advertised `n` TXT record carries, when
/// it is the unpadded URL-safe base64 of a visible endpoint-info record with
/// a UTF-8 name.
pub fn decode_visible_endpoint_info(encoded: &str) -> (r: Option<(String, QuickShareDeviceType)>)
    ensures
        match r {
            Some((name, device_type)) => exists|info: Seq<u8>|
                b64url(info) == encoded@
                && #[trigger] visible_endpoint(info) == Some((encode_utf8(name@), device_type)),
            None => forall|info: Seq<u8>| b64url(info) == encoded@ ==> #[trigger] visible_endpoint(info) is None,
        },
{
    let info = match base64url_decode(encoded) {
        Some(b) => b,
        None => return None,
    };
    proof {
        assert forall|other: Seq<u8>| b64url(other) == encoded@ implies other == info@ by {
            lemma_b64url_injective(other, info@);
        }
    }
    if info.len() < 18 || is_hidden(info[0]) {
        return None;
    }
    let device_type = QuickShareDeviceType::from_bits((info[0] / 2) % 8);
    let end = match endpoint_name_end(&info) {
        Some(e) => e,
        None => return None,
    };
    match string_from_utf8(copy_range(&info, 18, end)) {
        Some(name) => {
            assert(visible_endpoint(info@) == Some((encode_utf8(name@), device_type)));
            Some((name, device_type))
        },
        None => None,
    }
}

/// A published endpoint-info record reads back as the name and the device
/// type it was built from, whatever its metadata, when the name is UTF-8 that
/// fits the length byte.
pub proof fn lemma_advertised_info_reads_back(device_type: QuickShareDeviceType, metadata: Seq<u8>, name: Seq<u8>)
    requires
        metadata.len() == 16,
        name_fits(name),
        valid_utf8(name),
    ensures
        visible_endpoint(endpoint_info_bytes(device_type, metadata, name)) == Some((name, device_type)),
{
    let info = endpoint_info_bytes(device_type, metadata, name);
    assert(info[0] == (device_type.code() * 2) as u8);
    assert(!hidden_flag(info[0]));
    assert(info[17] == name.len() as u8);
    assert(name_end(info) == Some(18 + name.len() as int));
    assert(info.subrange(18, 18 + name.len() as int) =~= name);
}

} // verus!
