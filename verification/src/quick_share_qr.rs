//! Quick Share QR handoff used when the sender has no Bluetooth adapter.
//!
//! Android scans the QR URL and briefly advertises a matching endpoint on the
//! existing LAN. The QR private key is ephemeral and lives only for one send
//! session.

use vstd::prelude::*;
use vstd::string::StringSliceAdditionalSpecFns;
use vstd::utf8::{encode_utf8, valid_utf8};
use crate::bytes::{bytes_equal, copy_range};
use crate::primitives::{
    aes128_gcm_decrypt, aes128_gcm_open, b64url, lemma_b64url_injective, base64url_decode, base64url_encode, hkdf_sha256,
    hkdf_sha256_expand, p256_ecdsa_sign, p256_public, p256_public_key, p256_random_secret,
    p256_secret_ok, p256_sign, sec1_compressed, string_from_utf8,
};
use crate::quick_share::{endpoint_name_end, hidden_flag, is_hidden, name_end};

verus! {

/// Why a QR rendezvous failed.
#[derive(Debug, PartialEq, Eq)]
pub enum QuickShareQrError {
    /// Key derivation failed.
    KeyDerivation,
    /// The mDNS daemon failed; the text is its description.
    Mdns(String),
    /// The phone did not scan the code in time.
    TimedOut,
    /// The session was cancelled.
    Cancelled,
}

/// A receiver found through the QR rendezvous: its name and the address it
/// was found at.
#[derive(Clone, Debug, PartialEq, Eq)]
pub struct QuickShareQrEndpoint<A> {
    pub name: String,
    pub address: A,
}

/// `https://quickshare.google/qrcode#key=`.
pub open spec fn qr_url_prefix() -> Seq<char> {
    seq![
        'h', 't', 't', 'p', 's', ':', '/', '/', 'q', 'u', 'i', 'c', 'k', 's', 'h', 'a', 'r', 'e', '.', 'g', 'o',
        'o', 'g', 'l', 'e', '/', 'q', 'r', 'c', 'o', 'd', 'e', '#', 'k', 'e', 'y', '=',
    ]
}

/// `"advertisingContext"`.
pub open spec fn advertising_label() -> Seq<u8> {
    seq![0x61u8, 0x64, 0x76, 0x65, 0x72, 0x74, 0x69, 0x73, 0x69, 0x6e, 0x67, 0x43, 0x6f, 0x6e, 0x74, 0x65, 0x78, 0x74]
}

/// `"encryptionKey"`.
pub open spec fn encryption_label() -> Seq<u8> {
    seq![0x65u8, 0x6e, 0x63, 0x72, 0x79, 0x70, 0x74, 0x69, 0x6f, 0x6e, 0x4b, 0x65, 0x79]
}

/// The advertising token and the name encryption key of a QR session are
/// HKDF-SHA256 without salt of the 35-byte QR key, truncated to 16 bytes, with
/// the infos `"advertisingContext"` and `"encryptionKey"`; the QR code's URL
/// starts with `https://quickshare.google/qrcode#key=`.
pub proof fn lemma_qr_derivation_labels(secret: Seq<u8>)
    ensures
        derive16(qr_key_bytes(secret), advertising_label()) == hkdf_sha256(
            None,
            qr_key_bytes(secret),
            "advertisingContext".spec_bytes(),
            16,
        ),
        derive16(qr_key_bytes(secret), encryption_label()) == hkdf_sha256(
            None,
            qr_key_bytes(secret),
            "encryptionKey".spec_bytes(),
            16,
        ),
        qr_url_prefix() == "https://quickshare.google/qrcode#key="@,
{
    broadcast use vstd::string::is_ascii_spec_bytes;

    assert(advertising_label() =~= "advertisingContext".spec_bytes()) by {
        reveal_strlit("advertisingContext");
        assert(vstd::string::is_ascii("advertisingContext"));
    }
    assert(encryption_label() =~= "encryptionKey".spec_bytes()) by {
        reveal_strlit("encryptionKey");
        assert(vstd::string::is_ascii("encryptionKey"));
    }
    assert(qr_url_prefix() =~= "https://quickshare.google/qrcode#key="@) by {
        reveal_strlit("https://quickshare.google/qrcode#key=");
    }
}

/// The 35-byte key in the QR code: two zero version bytes and the compressed
/// public key.
pub open spec fn qr_key_bytes(secret: Seq<u8>) -> Seq<u8> {
    seq![0u8, 0u8] + sec1_compressed(p256_public(secret).0, p256_public(secret).1)
}

/// HKDF-SHA256 without salt into 16 bytes.
pub open spec fn derive16(ikm: Seq<u8>, info: Seq<u8>) -> Seq<u8> {
    hkdf_sha256(None, ikm, info, 16)
}

fn derive_16(ikm: &[u8], info: &[u8]) -> (r: Result<[u8; 16], QuickShareQrError>)
    ensures
        r matches Ok(v) && v@ == derive16(ikm@, info@),
{
    let out = hkdf_sha256_expand(None, ikm, info, 16);
    let mut arr = [0u8; 16];
    let mut i: usize = 0;
    while i < 16
        invariant
            i <= 16,
            out@.len() == 16,
            forall|k: int| 0 <= k < i ==> arr@[k] == out@[k],
        decreases 16 - i,
    {
        arr.set(i, out[i]);
        i = i + 1;
    }
    assert(arr@ =~= out@);
    Ok(arr)
}

/// One short-lived QR rendezvous. Dropping it discards the private key.
pub struct QuickShareQrSession {
    secret_key: Vec<u8>,
    encoded_public_key: Vec<u8>,
    advertising_token: [u8; 16],
    name_encryption_key: [u8; 16],
}

impl QuickShareQrSession {
    #[verifier::type_invariant]
    spec fn derived_from_secret(self) -> bool {
        &&& p256_secret_ok(self.secret_key@)
        &&& p256_public(self.secret_key@).0.len() == 32
        &&& self.encoded_public_key@ == qr_key_bytes(self.secret_key@)
        &&& self.advertising_token@ == derive16(self.encoded_public_key@, advertising_label())
        &&& self.name_encryption_key@ == derive16(self.encoded_public_key@, encryption_label())
    }

    /// The session's secret scalar.
    pub closed spec fn secret(self) -> Seq<u8> {
        self.secret_key@
    }

    /// A session with a fresh key.
    pub fn generate() -> (r: Result<Self, QuickShareQrError>)
        ensures
            r matches Ok(s) && p256_secret_ok(s.secret()),
    {
        Self::from_secret_key(p256_random_secret())
    }

    /// The session of a given secret scalar. The advertising token and the
    /// name key are derived from the QR key.
    pub fn from_secret_key(secret_key: Vec<u8>) -> (r: Result<Self, QuickShareQrError>)
        requires
            p256_secret_ok(secret_key@),
        ensures
            r matches Ok(s) && s.secret() == secret_key@ && qr_key_bytes(s.secret()).len() == 35,
    {
        let (x, y) = p256_public_key(&secret_key);
        let prefix: u8 = if y[31] % 2 == 1 {
            3
        } else {
            2
        };
        let mut encoded_public_key: Vec<u8> = vec![0u8, 0u8, prefix];
        encoded_public_key.extend_from_slice(&x);
        assert(encoded_public_key@ =~= qr_key_bytes(secret_key@));
        let advertising_token = match derive_16(&encoded_public_key, &advertising_label_bytes()) {
            Ok(v) => v,
            Err(e) => return Err(e),
        };
        let name_encryption_key = match derive_16(&encoded_public_key, &encryption_label_bytes()) {
            Ok(v) => v,
            Err(e) => return Err(e),
        };
        Ok(QuickShareQrSession { secret_key, encoded_public_key, advertising_token, name_encryption_key })
    }

    /// The URL shown as a QR code: the prefix and the QR key in unpadded
    /// URL-safe base64.
    pub fn url(&self) -> (r: String)
        ensures
            r@ == qr_url_prefix() + b64url(qr_key_bytes(self.secret())),
            qr_key_bytes(self.secret()).len() == 35,
    {
        proof { use_type_invariant(self); }
        let mut s = String::from_str("https://quickshare.google/qrcode#key=");
        proof {
            reveal_strlit("https://quickshare.google/qrcode#key=");
        }
        assert(s@ =~= qr_url_prefix());
        let key = base64url_encode(&self.encoded_public_key);
        s.append(key.as_str());
        s
    }

    /// The token that the phone's advertisement carries.
    pub fn advertising_token(&self) -> (r: &[u8; 16])
        ensures
            r@ == derive16(qr_key_bytes(self.secret()), advertising_label()),
    {
        proof { use_type_invariant(self); }
        &self.advertising_token
    }

    /// The key that encrypts a hidden phone's name.
    pub fn name_encryption_key(&self) -> (r: &[u8; 16])
        ensures
            r@ == derive16(qr_key_bytes(self.secret()), encryption_label()),
    {
        proof { use_type_invariant(self); }
        &self.name_encryption_key
    }

    /// Signs the UKEY2 authentication key in the IEEE P1363 `r || s` format
    /// expected by Android's QR handoff.
    pub fn sign_auth_key(&self, auth_key: &[u8; 32]) -> (r: Vec<u8>)
        ensures
            r@ == p256_ecdsa_sign(self.secret(), auth_key@),
            r@.len() == 64,
    {
        proof { use_type_invariant(self); }
        p256_sign(&self.secret_key, auth_key)
    }
}

fn advertising_label_bytes() -> (r: Vec<u8>)
    ensures
        r@ == advertising_label(),
{
    let r = vec![0x61u8, 0x64, 0x76, 0x65, 0x72, 0x74, 0x69, 0x73, 0x69, 0x6e, 0x67, 0x43, 0x6f, 0x6e, 0x74, 0x65, 0x78, 0x74];
    assert(r@ =~= advertising_label());
    r
}

fn encryption_label_bytes() -> (r: Vec<u8>)
    ensures
        r@ == encryption_label(),
{
    let r = vec![0x65u8, 0x6e, 0x63, 0x72, 0x79, 0x70, 0x74, 0x69, 0x6f, 0x6e, 0x4b, 0x65, 0x79];
    assert(r@ =~= encryption_label());
    r
}

/// Whether a record of type 1 holding exactly `token` appears among the
/// type-length-value records that start at `offset`. The walk stops at the
/// first record that runs past the end.
pub open spec fn token_record_at(info: Seq<u8>, offset: int, token: Seq<u8>) -> bool
    decreases info.len() - offset,
{
    if offset < 0 || info.len() - offset < 2 {
        false
    } else {
        let end = offset + 2 + info[offset + 1];
        if end > info.len() {
            false
        } else if info[offset] == 1 && info.subrange(offset + 2, end) == token {
            true
        } else {
            token_record_at(info, end, token)
        }
    }
}

/// The name that a hidden endpoint's records reveal under the QR keys: the
/// first type-1 record of at least 28 bytes whose content, a 12-byte nonce
/// and the ciphertext, decrypts with the token as associated data to UTF-8.
pub open spec fn hidden_name_at(info: Seq<u8>, offset: int, token: Seq<u8>, key: Seq<u8>) -> Option<Seq<u8>>
    decreases info.len() - offset,
{
    if offset < 0 || info.len() - offset < 2 {
        None
    } else {
        let end = offset + 2 + info[offset + 1];
        if end > info.len() {
            None
        } else {
            let value = info.subrange(offset + 2, end);
            let opened = if info[offset] == 1 && value.len() >= 28 {
                aes128_gcm_open(key, value.subrange(0, 12), value.subrange(12, value.len() as int), token)
            } else {
                None
            };
            match opened {
                Some(p) => if valid_utf8(p) {
                    Some(p)
                } else {
                    hidden_name_at(info, end, token, key)
                },
                None => hidden_name_at(info, end, token, key),
            }
        }
    }
}

/// The UTF-8 name of the phone whose decoded endpoint info matches the QR
/// session: a visible endpoint lists the advertising token in a type-1
/// record after its name; a hidden one encrypts its name under the name key.
pub open spec fn matching_name(info: Seq<u8>, token: Seq<u8>, key: Seq<u8>) -> Option<Seq<u8>> {
    if info.len() < 17 {
        None
    } else if hidden_flag(info[0]) {
        hidden_name_at(info, 17, token, key)
    } else {
        match name_end(info) {
            None => None,
            Some(end) => if valid_utf8(info.subrange(18, end)) && token_record_at(info, end, token) {
                Some(info.subrange(18, end))
            } else {
                None
            },
        }
    }
}

/// The name and end of a visible endpoint-info record, when its name is
/// UTF-8.
fn parse_visible_name(info: &[u8]) -> (r: Option<(String, usize)>)
    ensures
        match name_end(info@) {
            Some(end) => if info@.len() >= 18 && !hidden_flag(info@[0]) && valid_utf8(info@.subrange(18, end)) {
                r matches Some((name, e)) && e == end && encode_utf8(name@) == info@.subrange(18, end)
            } else {
                r is None
            },
            None => r is None,
        },
{
    if info.len() < 18 || is_hidden(info[0]) {
        return None;
    }
    let end = match endpoint_name_end(info) {
        Some(e) => e,
        None => return None,
    };
    match string_from_utf8(copy_range(info, 18, end)) {
        Some(name) => Some((name, end)),
        None => None,
    }
}

fn token_record_from(info: &[u8], offset: usize, token: &[u8]) -> (r: bool)
    ensures
        r == token_record_at(info@, offset as int, token@),
{
    let mut pos = offset;
    while pos <= info.len() && info.len() - pos >= 2
        invariant
            token_record_at(info@, pos as int, token@) == token_record_at(info@, offset as int, token@),
        decreases info@.len() - pos,
    {
        let value_start = pos + 2;
        let length = info[pos + 1] as usize;
        if length > info.len() - value_start {
            return false;
        }
        let end = value_start + length;
        if info[pos] == 1 && bytes_equal(&copy_range(info, value_start, end), token) {
            return true;
        }
        pos = end;
    }
    false
}

fn hidden_name_from(info: &[u8], offset: usize, token: &[u8; 16], key: &[u8; 16]) -> (r: Option<String>)
    ensures
        match hidden_name_at(info@, offset as int, token@, key@) {
            Some(p) => r matches Some(name) && encode_utf8(name@) == p,
            None => r is None,
        },
{
    let mut pos = offset;
    while pos <= info.len() && info.len() - pos >= 2
        invariant
            hidden_name_at(info@, pos as int, token@, key@) == hidden_name_at(info@, offset as int, token@, key@),
        decreases info@.len() - pos,
    {
        let value_start = pos + 2;
        let length = info[pos + 1] as usize;
        if length > info.len() - value_start {
            return None;
        }
        let end = value_start + length;
        if info[pos] == 1 && length >= 28 {
            let nonce = copy_range(info, value_start, value_start + 12);
            let ciphertext = copy_range(info, value_start + 12, end);
            proof {
                let value = info@.subrange(value_start as int, end as int);
                assert(value.subrange(0, 12) =~= nonce@);
                assert(value.subrange(12, value.len() as int) =~= ciphertext@);
            }
            match aes128_gcm_decrypt(key, &nonce, &ciphertext, token) {
                Some(plaintext) => {
                    let ghost p = plaintext@;
                    match string_from_utf8(plaintext) {
                        Some(name) => return Some(name),
                        None => {},
                    }
                },
                None => {},
            }
        }
        pos = end;
    }
    None
}

/// The phone behind an advertised endpoint-info record, if the record
/// matches this QR session's token (visible phones) or decrypts under its
/// name key (hidden phones).
pub fn endpoint_if_token_matches<A>(
    encoded_info: Option<&str>,
    address: A,
    expected_token: &[u8; 16],
    name_encryption_key: &[u8; 16],
) -> (r: Option<QuickShareQrEndpoint<A>>)
    ensures
        match r {
            Some(ep) => ep.address == address && exists|info: Seq<u8>|
                encoded_info matches Some(text) && b64url(info) == text@
                && #[trigger] matching_name(info, expected_token@, name_encryption_key@) == Some(encode_utf8(ep.name@)),
            None => forall|info: Seq<u8>|
                encoded_info matches Some(text) && b64url(info) == text@
                ==> #[trigger] matching_name(info, expected_token@, name_encryption_key@) is None,
        },
{
    let text = match encoded_info {
        Some(t) => t,
        None => return None,
    };
    let info = match base64url_decode(text) {
        Some(b) => b,
        None => return None,
    };
    proof {
        assert forall|other: Seq<u8>| b64url(other) == text@ implies other == info@ by {
            lemma_b64url_injective(other, info@);
        }
    }
    if info.len() < 17 {
        return None;
    }
    if is_hidden(info[0]) {
        return match hidden_name_from(&info, 17, expected_token, name_encryption_key) {
            Some(name) => {
                assert(matching_name(info@, expected_token@, name_encryption_key@) == Some(encode_utf8(name@)));
                Some(QuickShareQrEndpoint { name, address })
            },
            None => None,
        };
    }
    let (name, records_offset) = match parse_visible_name(&info) {
        Some(v) => v,
        None => return None,
    };
    if token_record_from(&info, records_offset, expected_token) {
        assert(matching_name(info@, expected_token@, name_encryption_key@) == Some(encode_utf8(name@)));
        Some(QuickShareQrEndpoint { name, address })
    } else {
        None
    }
}


/// What a rendezvous error reads as.
pub open spec fn qr_error_text(e: QuickShareQrError) -> Seq<char> {
    match e {
        QuickShareQrError::KeyDerivation => "Quick Share QR key derivation failed"@,
        QuickShareQrError::Mdns(m) => "mDNS operation failed: "@ + m@,
        QuickShareQrError::TimedOut => "timed out waiting for the phone to scan the Quick Share QR code"@,
        QuickShareQrError::Cancelled => "the Quick Share QR session was cancelled"@,
    }
}

impl QuickShareQrError {
    /// The error as a sentence.
    pub fn describe(&self) -> (r: String)
        ensures
            r@ == qr_error_text(*self),
    {
        match self {
            QuickShareQrError::KeyDerivation => String::from_str("Quick Share QR key derivation failed"),
            QuickShareQrError::Mdns(m) => {
                let mut s = String::from_str("mDNS operation failed: ");
                s.append(m.as_str());
                s
            },
            QuickShareQrError::TimedOut => String::from_str(
                "timed out waiting for the phone to scan the Quick Share QR code",
            ),
            QuickShareQrError::Cancelled => String::from_str("the Quick Share QR session was cancelled"),
        }
    }
}

} // verus!
