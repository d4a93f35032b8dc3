//! Quick Share-compatible LAN discovery advertisement.
//!
//! This covers the values of the discovery record that Android's built-in
//! Quick Share UI understands: the DNS-SD instance label and the `n` TXT
//! record. It uses the host's existing LAN interfaces and does not enable
//! Bluetooth, Wi-Fi Direct, or a hotspot.

use vstd::prelude::*;
use vstd::string::StringSliceAdditionalSpecFns;
use vstd::utf8::{
    codepoint_width_1, decode_first_codepoint, encode_utf8, is_leading_byte_width_1,
    length_of_first_codepoint, pop_first_scalar, valid_first_scalar, valid_utf8,
};
use crate::primitives::{b64url, base64url_encode, random_bytes, string_from_utf8};

verus! {

/// Service type used by Nearby Connections / Quick Share for LAN discovery.
pub const QUICK_SHARE_SERVICE: &'static str = "_FC9F5ED42C8A._tcp.local.";

/// Why an advertisement could not be built, started or stopped.
#[derive(Debug, PartialEq, Eq)]
pub enum QuickShareError {
    /// The device name must be 1 to 255 bytes of UTF-8.
    InvalidDeviceName,
    /// An endpoint ID is exactly four ASCII letters or digits.
    InvalidEndpointId,
    /// The mDNS daemon failed; the text is its description.
    Mdns(String),
    /// The mDNS service did not stop within the requested timeout.
    ShutdownTimedOut,
}

/// An ASCII letter or digit.
pub open spec fn ascii_alnum(b: u8) -> bool {
    (48 <= b <= 57) || (65 <= b <= 90) || (97 <= b <= 122)
}

/// An endpoint ID: four ASCII letters or digits.
pub open spec fn endpoint_id_ok(b: Seq<u8>) -> bool {
    b.len() == 4 && forall|i: int| 0 <= i < 4 ==> ascii_alnum(#[trigger] b[i])
}

/// The character of `v % 62` in `A-Z a-z 0-9`.
pub open spec fn endpoint_alphabet(v: int) -> u8 {
    let i = v % 62;
    if i < 26 {
        (65 + i) as u8
    } else if i < 52 {
        (97 + i - 26) as u8
    } else {
        (48 + i - 52) as u8
    }
}

/// The endpoint ID that entropy bytes pick, one character per byte.
pub open spec fn endpoint_id_from(entropy: Seq<u8>) -> Seq<u8> {
    entropy.map_values(|b: u8| endpoint_alphabet(b as int))
}

/// ASCII bytes are valid UTF-8.
pub proof fn lemma_ascii_is_utf8(s: Seq<u8>)
    requires
        forall|i: int| 0 <= i < s.len() ==> s[i] < 128,
    ensures
        valid_utf8(s),
    decreases s.len(),
{
    if s.len() > 0 {
        assert(is_leading_byte_width_1(s[0]));
        assert(length_of_first_codepoint(s) == 1);
        assert(decode_first_codepoint(s) == codepoint_width_1(s[0]));
        let b = s[0];
        assert(codepoint_width_1(b) < 128) by (bit_vector)
            requires
                b < 128,
        ;
        assert(valid_first_scalar(s));
        let rest = pop_first_scalar(s);
        assert(rest =~= s.subrange(1, s.len() as int));
        lemma_ascii_is_utf8(rest);
    }
}

/// Four-character ephemeral identifier expected by Nearby Connections.
#[derive(Debug)]
pub struct QuickShareEndpointId {
    bytes: [u8; 4],
    text: String,
}

impl View for QuickShareEndpointId {
    type V = Seq<u8>;

    /// The four ASCII bytes.
    closed spec fn view(&self) -> Seq<u8> {
        self.bytes@
    }
}

impl QuickShareEndpointId {
    #[verifier::type_invariant]
    spec fn four_ascii_alnum(self) -> bool {
        &&& forall|i: int| 0 <= i < 4 ==> ascii_alnum(#[trigger] self.bytes@[i])
        &&& encode_utf8(self.text@) == self.bytes@
    }

    /// The ID made of `value`, when its four bytes are ASCII letters or
    /// digits.
    pub fn new(value: [u8; 4]) -> (r: Result<Self, QuickShareError>)
        ensures
            (forall|i: int| 0 <= i < 4 ==> ascii_alnum(#[trigger] value@[i])) <==> r is Ok,
            r matches Ok(id) ==> id@ == value@,
            r matches Err(e) ==> e == QuickShareError::InvalidEndpointId,
    {
        let mut i: usize = 0;
        while i < 4
            invariant
                i <= 4,
                forall|k: int| 0 <= k < i ==> ascii_alnum(#[trigger] value@[k]),
            decreases 4 - i,
        {
            let b = value[i];
            if !((48 <= b && b <= 57) || (65 <= b && b <= 90) || (97 <= b && b <= 122)) {
                return Err(QuickShareError::InvalidEndpointId);
            }
            i = i + 1;
        }
        let copy: Vec<u8> = vec![value[0], value[1], value[2], value[3]];
        assert(copy@ =~= value@);
        proof {
            lemma_ascii_is_utf8(copy@);
        }
        match string_from_utf8(copy) {
            Some(text) => Ok(QuickShareEndpointId { bytes: value, text }),
            None => Err(QuickShareError::InvalidEndpointId),
        }
    }

    /// The ID whose characters are picked from `A-Z a-z 0-9` by the entropy
    /// bytes, each taken modulo 62.
    pub fn from_entropy(entropy: [u8; 4]) -> (r: Self)
        ensures
            r@ == endpoint_id_from(entropy@),
    {
        let mut bytes: [u8; 4] = [0u8; 4];
        let mut i: usize = 0;
        while i < 4
            invariant
                i <= 4,
                forall|k: int| 0 <= k < i ==> #[trigger] bytes@[k] == endpoint_alphabet(entropy@[k] as int),
            decreases 4 - i,
        {
            let v = entropy[i] % 62;
            let c: u8 = if v < 26 {
                65 + v
            } else if v < 52 {
                97 + v - 26
            } else {
                48 + v - 52
            };
            bytes.set(i, c);
            i = i + 1;
        }
        assert(bytes@ =~= endpoint_id_from(entropy@));
        assert(forall|k: int| 0 <= k < 4 ==> ascii_alnum(#[trigger] bytes@[k]));
        match Self::new(bytes) {
            Ok(id) => id,
            Err(_) => unreached(),
        }
    }

    /// A fresh random ID.
    pub fn generate() -> (r: Self)
        ensures
            exists|entropy: Seq<u8>|
                entropy.len() == 4 && r@ == #[trigger] endpoint_id_from(entropy),
            endpoint_id_ok(r@),
    {
        let entropy = random_bytes(4);
        let id = Self::from_entropy([entropy[0], entropy[1], entropy[2], entropy[3]]);
        let ghost e = seq![entropy@[0], entropy@[1], entropy@[2], entropy@[3]];
        assert(e =~= entropy@);
        proof {
            use_type_invariant(&id);
        }
        id
    }

    /// The four bytes.
    pub fn as_bytes(&self) -> (r: &[u8; 4])
        ensures
            r@ == self@,
    {
        &self.bytes
    }

    /// The four characters as text.
    pub fn as_str(&self) -> (r: &str)
        ensures
            r.spec_bytes() == self@,
    {
        proof { use_type_invariant(self); }
        self.text.as_str()
    }
}

impl Clone for QuickShareEndpointId {
    fn clone(&self) -> (r: Self)
        ensures
            r@ == self@,
    {
        proof { use_type_invariant(self); }
        QuickShareEndpointId { bytes: self.bytes, text: self.text.clone() }
    }
}

/// The wire values used by Quick Share's endpoint-info field.
#[derive(Clone, Copy, Debug, PartialEq, Eq, Structural)]
pub enum QuickShareDeviceType {
    Unknown,
    Phone,
    Tablet,
    Laptop,
}

impl QuickShareDeviceType {
    /// The number of the type on the wire.
    pub open spec fn code(self) -> u8 {
        match self {
            QuickShareDeviceType::Unknown => 0,
            QuickShareDeviceType::Phone => 1,
            QuickShareDeviceType::Tablet => 2,
            QuickShareDeviceType::Laptop => 3,
        }
    }

    /// The number of the type on the wire.
    pub fn wire_value(self) -> (r: u8)
        ensures
            r == self.code(),
    {
        match self {
            QuickShareDeviceType::Unknown => 0,
            QuickShareDeviceType::Phone => 1,
            QuickShareDeviceType::Tablet => 2,
            QuickShareDeviceType::Laptop => 3,
        }
    }

    /// The type that the three device-type bits of an endpoint-info byte
    /// name; numbers without a type read as unknown.
    pub open spec fn from_bits_spec(bits: u8) -> Self {
        if bits == 1 {
            QuickShareDeviceType::Phone
        } else if bits == 2 {
            QuickShareDeviceType::Tablet
        } else if bits == 3 {
            QuickShareDeviceType::Laptop
        } else {
            QuickShareDeviceType::Unknown
        }
    }

    /// The type that the three device-type bits of an endpoint-info byte
    /// name; numbers without a type read as unknown.
    pub fn from_bits(bits: u8) -> (r: Self)
        ensures
            r == Self::from_bits_spec(bits),
    {
        if bits == 1 {
            QuickShareDeviceType::Phone
        } else if bits == 2 {
            QuickShareDeviceType::Tablet
        } else if bits == 3 {
            QuickShareDeviceType::Laptop
        } else {
            QuickShareDeviceType::Unknown
        }
    }
}

/// The ten bytes of the DNS-SD instance label: point-to-point strategy, the
/// endpoint ID, the Quick Share service ID and two zero bytes.
pub open spec fn instance_bytes(endpoint_id: Seq<u8>) -> Seq<u8> {
    seq![0x23u8] + endpoint_id + seq![0xFCu8, 0x9F, 0x5E, 0, 0]
}

/// The endpoint-info bytes: the device type shifted left by one, the 16
/// metadata bytes, the name's length and the name.
pub open spec fn endpoint_info_bytes(device_type: QuickShareDeviceType, metadata: Seq<u8>, name: Seq<u8>) -> Seq<u8> {
    seq![(device_type.code() * 2) as u8] + metadata + seq![name.len() as u8] + name
}

/// A display name fits the one-byte length on the wire and is not empty.
pub open spec fn name_fits(name: Seq<u8>) -> bool {
    0 < name.len() <= 255
}

/// The endpoint-info bytes of a device with the given type, metadata and
/// name, for a name of 1 to 255 bytes.
pub fn endpoint_info_record(device_type: QuickShareDeviceType, metadata: &[u8; 16], name: &[u8]) -> (r: Vec<u8>)
    requires
        name_fits(name@),
    ensures
        r@ == endpoint_info_bytes(device_type, metadata@, name@),
{
    let mut info: Vec<u8> = Vec::new();
    info.push(device_type.wire_value() * 2);
    info.extend_from_slice(metadata);
    info.push(name.len() as u8);
    info.extend_from_slice(name);
    assert(info@ =~= endpoint_info_bytes(device_type, metadata@, name@));
    info
}

/// Exact values placed in the DNS-SD instance label and `n` TXT record.
#[derive(Clone, Debug)]
pub struct QuickShareAdvertisementData {
    pub endpoint_id: QuickShareEndpointId,
    pub instance_name: String,
    pub endpoint_info: String,
}

impl QuickShareAdvertisementData {
    /// The advertisement of a laptop with a fresh endpoint ID and fresh
    /// metadata.
    pub fn generate(display_name: &str) -> (r: Result<Self, QuickShareError>)
        ensures
            name_fits(display_name.spec_bytes()) <==> r is Ok,
            r matches Err(e) ==> e == QuickShareError::InvalidDeviceName,
            r matches Ok(d) ==> {
                &&& d.instance_name@ == b64url(instance_bytes(d.endpoint_id@))
                &&& exists|metadata: Seq<u8>| metadata.len() == 16 && d.endpoint_info@ == #[trigger] b64url(
                    endpoint_info_bytes(QuickShareDeviceType::Laptop, metadata, display_name.spec_bytes()),
                )
            },
    {
        let endpoint_id = QuickShareEndpointId::generate();
        let m = random_bytes(16);
        let metadata: [u8; 16] = [
            m[0], m[1], m[2], m[3], m[4], m[5], m[6], m[7], m[8], m[9], m[10], m[11], m[12], m[13], m[14], m[15],
        ];
        Self::from_parts(endpoint_id, metadata, QuickShareDeviceType::Laptop, display_name)
    }

    /// The advertisement values for these parts: the instance label and the
    /// endpoint info, each in unpadded URL-safe base64.
    pub fn from_parts(
        endpoint_id: QuickShareEndpointId,
        metadata: [u8; 16],
        device_type: QuickShareDeviceType,
        display_name: &str,
    ) -> (r: Result<Self, QuickShareError>)
        ensures
            name_fits(display_name.spec_bytes()) <==> r is Ok,
            r matches Err(e) ==> e == QuickShareError::InvalidDeviceName,
            r matches Ok(d) ==> {
                &&& d.endpoint_id@ == endpoint_id@
                &&& d.instance_name@ == b64url(instance_bytes(endpoint_id@))
                &&& d.endpoint_info@ == b64url(endpoint_info_bytes(device_type, metadata@, display_name.spec_bytes()))
            },
    {
        let name = display_name.as_bytes();
        if name.len() == 0 || name.len() > 255 {
            return Err(QuickShareError::InvalidDeviceName);
        }
        let mut instance: Vec<u8> = Vec::new();
        instance.push(0x23u8);
        instance.extend_from_slice(endpoint_id.as_bytes());
        instance.push(0xFCu8);
        instance.push(0x9Fu8);
        instance.push(0x5Eu8);
        instance.push(0u8);
        instance.push(0u8);
        assert(instance@ =~= instance_bytes(endpoint_id@));
        let info = endpoint_info_record(device_type, &metadata, name);
        Ok(QuickShareAdvertisementData {
            endpoint_id,
            instance_name: base64url_encode(&instance),
            endpoint_info: base64url_encode(&info),
        })
    }
}


// ---------------------------------------------------------------------------
// Reading endpoint info.
// ---------------------------------------------------------------------------

/// Bit 4 of the first endpoint-info byte marks a hidden endpoint, whose name
/// is encrypted.
pub open spec fn hidden_flag(first: u8) -> bool {
    (first / 16) % 2 == 1
}

/// The device-type bits of the first endpoint-info byte.
pub open spec fn device_type_bits(first: u8) -> u8 {
    ((first / 2) % 8) as u8
}

/// Where the name of an endpoint-info record ends: the name's length is the
/// byte at offset 17 and the name follows it. `None` when the record is too
/// short for its declared name.
pub open spec fn name_end(info: Seq<u8>) -> Option<int> {
    if info.len() < 18 {
        None
    } else if 18 + info[17] <= info.len() {
        Some(18 + info[17])
    } else {
        None
    }
}

/// Where the name of an endpoint-info record ends.
pub fn endpoint_name_end(info: &[u8]) -> (r: Option<usize>)
    ensures
        match name_end(info@) {
            Some(e) => r == Some(e as usize),
            None => r is None,
        },
{
    if info.len() < 18 {
        return None;
    }
    let end = 18 + info[17] as usize;
    if end <= info.len() {
        Some(end)
    } else {
        None
    }
}

/// Whether an endpoint-info byte marks a hidden endpoint.
pub fn is_hidden(first: u8) -> (r: bool)
    ensures
        r == hidden_flag(first),
{
    (first / 16) % 2 == 1
}

/// The name and device type of a visible endpoint-info record.
pub open spec fn visible_endpoint(info: Seq<u8>) -> Option<(Seq<u8>, QuickShareDeviceType)> {
    if info.len() < 18 || hidden_flag(info[0]) {
        None
    } else {
        match name_end(info) {
            None => None,
            Some(end) => if valid_utf8(info.subrange(18, end)) {
                Some((info.subrange(18, end), QuickShareDeviceType::from_bits_spec(device_type_bits(info[0]))))
            } else {
                None
            },
        }
    }
}


/// What an advertisement error reads as.
pub open spec fn advertisement_error_text(e: QuickShareError) -> Seq<char> {
    match e {
        QuickShareError::InvalidDeviceName => "Quick Share device name must contain 1 to 255 UTF-8 bytes"@,
        QuickShareError::InvalidEndpointId => "Quick Share endpoint ID must contain exactly four ASCII letters or digits"@,
        QuickShareError::Mdns(m) => "mDNS operation failed: "@ + m@,
        QuickShareError::ShutdownTimedOut => "mDNS service did not stop within the requested timeout"@,
    }
}

impl QuickShareError {
    /// The error as a sentence.
    pub fn describe(&self) -> (r: String)
        ensures
            r@ == advertisement_error_text(*self),
    {
        match self {
            QuickShareError::InvalidDeviceName => String::from_str(
                "Quick Share device name must contain 1 to 255 UTF-8 bytes",
            ),
            QuickShareError::InvalidEndpointId => String::from_str(
                "Quick Share endpoint ID must contain exactly four ASCII letters or digits",
            ),
            QuickShareError::Mdns(m) => {
                let mut s = String::from_str("mDNS operation failed: ");
                s.append(m.as_str());
                s
            },
            QuickShareError::ShutdownTimedOut => String::from_str(
                "mDNS service did not stop within the requested timeout",
            ),
        }
    }
}

} // verus!
