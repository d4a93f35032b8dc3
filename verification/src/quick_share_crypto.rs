//! UKEY2 handshake and the SecureMessage channel used by Quick Share.
//!
//! The handshake is P-256 ECDH with a SHA-512 commitment; the channel is
//! AES-256-CBC with an HMAC-SHA256 signature over header and body, and a
//! sequence number inside every encrypted message that must grow by one.

use vstd::prelude::*;
use vstd::string::StringSliceAdditionalSpecFns;
use crate::text::{push_signed_decimal, signed_decimal_text};
use crate::wire_format::decode_error_text;
use crate::primitives::{
    aes256_cbc_decrypt, aes256_cbc_encrypt, aes256_cbc_open, aes256_cbc_seal, hkdf_sha256,
    hkdf_sha256_expand, hmac_sha256, hmac_sha256_tag, hmac_sha256_verify, p256_diffie_hellman,
    p256_ecdh, p256_on_curve, p256_point_check, p256_public, p256_public_key, p256_random_secret,
    p256_secret_ok, random_bytes, sha256, sha256_digest, sha512, sha512_digest,
};
use crate::text::{decimal4, four_digits, hex_lower, hex_text, lemma_hex_text_len};
use crate::bytes::bytes_equal;
use vstd::slice::slice_to_vec;
use crate::wire_format::{
    bytes_record, fields_bytes, lemma_fields_bytes_append, lemma_fields_bytes_single, pow128,
    req_bytes_records, varint_bytes, DecodeError, FieldModel, WireValueModel, RECURSION_BUDGET,
};
use vstd::utf8::{encode_utf8, is_ascii_chars, is_ascii_chars_encode_utf8};
use crate::quick_share_wire::{
    CipherCommitment, CipherCommitmentModel, DeviceToDeviceMessage, DeviceToDeviceMessageModel,
    EcP256PublicKey, EcP256PublicKeyModel, EncryptionScheme, GcmMetadata, GcmMetadataModel,
    GcmMetadataType, GenericPublicKey, GenericPublicKeyModel, HeaderAndBody, HeaderAndBodyModel,
    OfflineFrame, OfflineFrameModel, PublicKeyType, SecureHeader, SecureHeaderModel, SecureMessage,
    SecureMessageModel, SignatureScheme, Ukey2ClientFinished, Ukey2ClientFinishedModel,
    Ukey2ClientInit, Ukey2ClientInitModel, Ukey2HandshakeCipher, Ukey2Message, Ukey2MessageModel,
    Ukey2MessageType, Ukey2ServerInit, Ukey2ServerInitModel,
};

verus! {

/// Why a handshake step or a channel operation failed.
#[derive(Debug)]
pub enum QuickShareCryptoError {
    /// A protobuf message did not decode.
    Protobuf(DecodeError),
    UnexpectedUkey2Message,
    InvalidClientInit,
    CommitmentMismatch,
    InvalidPublicKey,
    KeyDerivation,
    InvalidSecureMessage,
    AuthenticationFailed,
    DecryptionFailed,
    SequenceMismatch { expected: i32, actual: i32 },
}

// ---------------------------------------------------------------------------
// Verification PIN.
// ---------------------------------------------------------------------------

/// A byte read as a two's-complement `i8`.
pub open spec fn signed_byte(b: u8) -> int {
    if b < 128 {
        b as int
    } else {
        b as int - 256
    }
}

/// Remainder that takes the sign of the dividend, as Rust's `%` does.
pub open spec fn rem_toward_zero(a: int, m: int) -> int {
    if a >= 0 {
        a % m
    } else {
        -((-a) % m)
    }
}

/// `(hash, multiplier)` after folding the bytes of `key`: each byte, read as
/// a signed value, is weighted by a power of 31, everything modulo 9973.
pub open spec fn pin_state(key: Seq<u8>) -> (int, int)
    decreases key.len(),
{
    if key.len() == 0 {
        (0, 1)
    } else {
        let p = pin_state(key.drop_last());
        (
            rem_toward_zero(p.0 + signed_byte(key.last()) * p.1, 9973),
            (p.1 * 31) % 9973,
        )
    }
}

/// The PIN as a number: the absolute value of the folded hash.
pub open spec fn pin_number(key: Seq<u8>) -> int {
    let h = pin_state(key).0;
    if h < 0 {
        -h
    } else {
        h
    }
}

/// The PIN both peers show: four decimal digits.
pub open spec fn pin_text(key: Seq<u8>) -> Seq<char> {
    four_digits(pin_number(key))
}

/// The four-digit verification PIN derived from a UKEY2 authentication key.
pub fn pin_code(auth_key: &[u8]) -> (r: String)
    ensures
        r@ == pin_text(auth_key@),
{
    let mut hash: i32 = 0;
    let mut multiplier: i32 = 1;
    let mut i: usize = 0;
    while i < auth_key.len()
        invariant
            i <= auth_key@.len(),
            (hash as int, multiplier as int) == pin_state(auth_key@.subrange(0, i as int)),
            -9973 < hash < 9973,
            0 <= multiplier < 9973,
        decreases auth_key@.len() - i,
    {
        let b = auth_key[i];
        let sb: i32 = if b < 128 {
            b as i32
        } else {
            b as i32 - 256
        };
        assert(-128 * 9973 <= sb * multiplier <= 127 * 9973) by (nonlinear_arith)
            requires
                -128 <= sb <= 127,
                0 <= multiplier < 9973,
        ;
        let sum: i32 = hash + sb * multiplier;
        hash = if sum >= 0 {
            sum % 9973
        } else {
            -((-sum) % 9973)
        };
        multiplier = (multiplier * 31) % 9973;
        proof {
            let pre = auth_key@.subrange(0, i + 1);
            assert(pre.drop_last() =~= auth_key@.subrange(0, i as int));
            assert(pre.last() == b);
        }
        i = i + 1;
    }
    assert(auth_key@.subrange(0, auth_key@.len() as int) =~= auth_key@);
    let magnitude: u32 = if hash < 0 {
        (-hash) as u32
    } else {
        hash as u32
    };
    decimal4(magnitude)
}

// ---------------------------------------------------------------------------
// Public keys on the wire.
// ---------------------------------------------------------------------------

/// A big-endian coordinate as a non-negative two's-complement integer: a
/// zero byte is put in front when the top bit is set.
pub open spec fn signed_coordinate_of(c: Seq<u8>) -> Seq<u8> {
    if c.len() > 0 && c[0] >= 0x80 {
        seq![0u8] + c
    } else {
        c
    }
}

/// The 32-byte coordinate that a wire value stands for: one leading zero is
/// dropped from a 33-byte value; an empty value or one longer than 32 bytes
/// stands for none; a shorter one is padded with zeros in front.
pub open spec fn unsigned_coordinate_of(v: Seq<u8>) -> Option<Seq<u8>> {
    let w = if v.len() == 33 && v[0] == 0 {
        v.subrange(1, 33)
    } else {
        v
    };
    if w.len() == 0 || w.len() > 32 {
        None
    } else {
        Some(Seq::new((32 - w.len()) as nat, |i: int| 0u8) + w)
    }
}

/// The wire form of the P-256 point `(x, y)`.
pub open spec fn generic_key_of(x: Seq<u8>, y: Seq<u8>) -> GenericPublicKeyModel {
    GenericPublicKeyModel {
        key_type: Some(PublicKeyType::EcP256.code()),
        ec_p256_public_key: Some(
            EcP256PublicKeyModel { x: signed_coordinate_of(x), y: signed_coordinate_of(y) },
        ),
    }
}

/// The point that a wire public key names, if it is a P-256 point on the
/// curve.
pub open spec fn point_of_generic_key(key: GenericPublicKeyModel) -> Option<(Seq<u8>, Seq<u8>)> {
    if key.key_type != Some(PublicKeyType::EcP256.code()) {
        None
    } else {
        match key.ec_p256_public_key {
            None => None,
            Some(k) => match (unsigned_coordinate_of(k.x), unsigned_coordinate_of(k.y)) {
                (Some(x), Some(y)) => if p256_on_curve(x, y) {
                    Some((x, y))
                } else {
                    None
                },
                _ => None,
            },
        }
    }
}

/// Writes a big-endian coordinate as a non-negative two's-complement value.
pub fn signed_coordinate(coordinate: &[u8]) -> (r: Vec<u8>)
    ensures
        r@ == signed_coordinate_of(coordinate@),
{
    let mut output: Vec<u8> = Vec::new();
    if coordinate.len() > 0 && coordinate[0] >= 0x80 {
        output.push(0u8);
    }
    let mut i: usize = 0;
    let ghost start = output@;
    while i < coordinate.len()
        invariant
            i <= coordinate@.len(),
            output@ == start + coordinate@.subrange(0, i as int),
        decreases coordinate@.len() - i,
    {
        output.push(coordinate[i]);
        assert(coordinate@.subrange(0, i + 1) =~= coordinate@.subrange(0, i as int).push(
            coordinate@[i as int],
        ));
        i = i + 1;
    }
    assert(coordinate@.subrange(0, coordinate@.len() as int) =~= coordinate@);
    assert(output@ =~= signed_coordinate_of(coordinate@));
    output
}

/// Reads a wire coordinate back into 32 big-endian bytes.
pub fn unsigned_coordinate(value: &[u8]) -> (r: Result<Vec<u8>, QuickShareCryptoError>)
    ensures
        match unsigned_coordinate_of(value@) {
            Some(c) => r matches Ok(v) && v@ == c,
            None => r matches Err(QuickShareCryptoError::InvalidPublicKey),
        },
{
    let skip: usize = if value.len() == 33 && value[0] == 0 {
        1
    } else {
        0
    };
    let len = value.len() - skip;
    if len == 0 || len > 32 {
        return Err(QuickShareCryptoError::InvalidPublicKey);
    }
    let ghost w = value@.subrange(skip as int, value@.len() as int);
    assert(skip == 0 ==> w =~= value@);
    let mut result: Vec<u8> = Vec::new();
    while result.len() < 32 - len
        invariant
            result@.len() <= 32 - len,
            forall|k: int| 0 <= k < result@.len() ==> result@[k] == 0u8,
        decreases 32 - len - result@.len(),
    {
        result.push(0u8);
    }
    let ghost zeros = result@;
    let mut i: usize = skip;
    while i < value.len()
        invariant
            skip <= i <= value@.len(),
            value@.len() - skip == len,
            zeros.len() == 32 - len,
            result@ == zeros + value@.subrange(skip as int, i as int),
        decreases value@.len() - i,
    {
        result.push(value[i]);
        assert(value@.subrange(skip as int, i + 1) =~= value@.subrange(skip as int, i as int).push(
            value@[i as int],
        ));
        i = i + 1;
    }
    assert(zeros =~= Seq::new((32 - len) as nat, |k: int| 0u8));
    assert(result@ =~= Seq::new((32 - w.len()) as nat, |k: int| 0u8) + w);
    Ok(result)
}

/// The wire form of the P-256 public key with coordinates `(x, y)`.
pub fn encode_generic_public_key(x: &[u8], y: &[u8]) -> (r: GenericPublicKey)
    ensures
        r@ == generic_key_of(x@, y@),
{
    GenericPublicKey {
        key_type: Some(PublicKeyType::EcP256.to_i32()),
        ec_p256_public_key: Some(EcP256PublicKey { x: signed_coordinate(x), y: signed_coordinate(y) }),
    }
}

/// The P-256 point that a wire public key names.
pub fn decode_generic_public_key(key: &GenericPublicKey) -> (r: Result<
    (Vec<u8>, Vec<u8>),
    QuickShareCryptoError,
>)
    ensures
        match point_of_generic_key(key@) {
            Some(p) => r matches Ok(v) && (v.0@, v.1@) == p,
            None => r matches Err(QuickShareCryptoError::InvalidPublicKey),
        },
{
    match key.key_type {
        Some(t) => {
            if t != PublicKeyType::EcP256.to_i32() {
                return Err(QuickShareCryptoError::InvalidPublicKey);
            }
        },
        None => return Err(QuickShareCryptoError::InvalidPublicKey),
    }
    let k = match &key.ec_p256_public_key {
        Some(k) => k,
        None => return Err(QuickShareCryptoError::InvalidPublicKey),
    };
    let x = unsigned_coordinate(&k.x)?;
    let y = unsigned_coordinate(&k.y)?;
    if p256_point_check(&x, &y) {
        Ok((x, y))
    } else {
        Err(QuickShareCryptoError::InvalidPublicKey)
    }
}

/// Reading a coordinate back from its wire form gives the coordinate.
pub proof fn lemma_coordinate_round_trip(c: Seq<u8>)
    requires
        c.len() == 32,
    ensures
        unsigned_coordinate_of(signed_coordinate_of(c)) == Some(c),
{
    let s = signed_coordinate_of(c);
    if c[0] >= 0x80 {
        assert(s.subrange(1, 33) =~= c);
    }
    assert(Seq::new(0, |i: int| 0u8) + c =~= c);
}

/// A public key read back from its wire form is the key that was written,
/// when the point is on the curve.
pub proof fn lemma_generic_key_round_trip(x: Seq<u8>, y: Seq<u8>)
    requires
        x.len() == 32,
        y.len() == 32,
        p256_on_curve(x, y),
    ensures
        point_of_generic_key(generic_key_of(x, y)) == Some((x, y)),
{
    lemma_coordinate_round_trip(x);
    lemma_coordinate_round_trip(y);
}

// ---------------------------------------------------------------------------
// Session keys.
// ---------------------------------------------------------------------------

/// HKDF-SHA256 into 32 bytes, with a salt.
pub open spec fn hkdf32(ikm: Seq<u8>, salt: Seq<u8>, info: Seq<u8>) -> Seq<u8> {
    hkdf_sha256(Some(salt), ikm, info, 32)
}

/// `"UKEY2 v1 auth"`.
pub open spec fn auth_label() -> Seq<u8> {
    seq![0x55u8, 0x4b, 0x45, 0x59, 0x32, 0x20, 0x76, 0x31, 0x20, 0x61, 0x75, 0x74, 0x68]
}

/// `"UKEY2 v1 next"`.
pub open spec fn next_label() -> Seq<u8> {
    seq![0x55u8, 0x4b, 0x45, 0x59, 0x32, 0x20, 0x76, 0x31, 0x20, 0x6e, 0x65, 0x78, 0x74]
}

/// The device-to-device salt of the SecureMessage key schedule.
pub open spec fn d2d_salt() -> Seq<u8> {
    seq![
        0x82u8, 0xAA, 0x55, 0xA0, 0xD3, 0x97, 0xF8, 0x83, 0x46, 0xCA, 0x1C, 0xEE, 0x8D, 0x39, 0x09, 0xB9,
        0x5F, 0x13, 0xFA, 0x7D, 0xEB, 0x1D, 0x4A, 0xB3, 0x83, 0x76, 0xB8, 0x25, 0x6D, 0xA8, 0x55, 0x10,
    ]
}

/// `"client"`.
pub open spec fn client_label() -> Seq<u8> {
    seq![0x63u8, 0x6c, 0x69, 0x65, 0x6e, 0x74]
}

/// `"server"`.
pub open spec fn server_label() -> Seq<u8> {
    seq![0x73u8, 0x65, 0x72, 0x76, 0x65, 0x72]
}

/// `"ENC:2"`.
pub open spec fn enc_label() -> Seq<u8> {
    seq![0x45u8, 0x4e, 0x43, 0x3a, 0x32]
}

/// `"SIG:1"`.
pub open spec fn sig_label() -> Seq<u8> {
    seq![0x53u8, 0x49, 0x47, 0x3a, 0x31]
}

/// `"SecureMessage"`.
pub open spec fn secure_message_label() -> Seq<u8> {
    seq![0x53u8, 0x65, 0x63, 0x75, 0x72, 0x65, 0x4d, 0x65, 0x73, 0x73, 0x61, 0x67, 0x65]
}

/// The authentication key both peers derive from the shared secret and the
/// handshake transcript; the PIN is computed from it.
pub open spec fn ukey2_auth_key(secret: Seq<u8>, transcript: Seq<u8>) -> Seq<u8> {
    hkdf32(secret, auth_label(), transcript)
}

/// The key of one direction's device-to-device channel (`label`: client or
/// server).
pub open spec fn d2d_key(secret: Seq<u8>, transcript: Seq<u8>, label: Seq<u8>) -> Seq<u8> {
    hkdf32(hkdf32(secret, next_label(), transcript), d2d_salt(), label)
}

/// The encryption key of one direction.
pub open spec fn direction_encrypt_key(secret: Seq<u8>, transcript: Seq<u8>, label: Seq<u8>) -> Seq<u8> {
    hkdf32(d2d_key(secret, transcript, label), sha256(secure_message_label()), enc_label())
}

/// The signing key of one direction.
pub open spec fn direction_hmac_key(secret: Seq<u8>, transcript: Seq<u8>, label: Seq<u8>) -> Seq<u8> {
    hkdf32(d2d_key(secret, transcript, label), sha256(secure_message_label()), sig_label())
}

/// The four keys of one side of a channel.
pub struct SessionKeysModel {
    pub decrypt_key: Seq<u8>,
    pub receive_hmac_key: Seq<u8>,
    pub encrypt_key: Seq<u8>,
    pub send_hmac_key: Seq<u8>,
}

/// The keys of the server side (`server`) or of the client side: each side
/// encrypts and signs with its own direction's keys and decrypts and checks
/// with the other's.
pub open spec fn session_keys(secret: Seq<u8>, transcript: Seq<u8>, server: bool) -> SessionKeysModel {
    let mine = if server { server_label() } else { client_label() };
    let theirs = if server { client_label() } else { server_label() };
    SessionKeysModel {
        decrypt_key: direction_encrypt_key(secret, transcript, theirs),
        receive_hmac_key: direction_hmac_key(secret, transcript, theirs),
        encrypt_key: direction_encrypt_key(secret, transcript, mine),
        send_hmac_key: direction_hmac_key(secret, transcript, mine),
    }
}

/// Whether `b` receives what `a` sends: `b` decrypts and checks with the keys
/// that `a` encrypts and signs with.
pub open spec fn receives_from(b: SessionKeysModel, a: SessionKeysModel) -> bool {
    b.decrypt_key == a.encrypt_key && b.receive_hmac_key == a.send_hmac_key
}

/// The keys of one side of a SecureMessage channel.
pub struct SessionKeys {
    pub decrypt_key: Vec<u8>,
    pub receive_hmac_key: Vec<u8>,
    pub encrypt_key: Vec<u8>,
    pub send_hmac_key: Vec<u8>,
}

impl View for SessionKeys {
    type V = SessionKeysModel;

    open spec fn view(&self) -> SessionKeysModel {
        SessionKeysModel {
            decrypt_key: self.decrypt_key@,
            receive_hmac_key: self.receive_hmac_key@,
            encrypt_key: self.encrypt_key@,
            send_hmac_key: self.send_hmac_key@,
        }
    }
}

impl SessionKeysModel {
    /// Every key is 32 bytes long.
    pub open spec fn wf(self) -> bool {
        &&& self.decrypt_key.len() == 32
        &&& self.receive_hmac_key.len() == 32
        &&& self.encrypt_key.len() == 32
        &&& self.send_hmac_key.len() == 32
    }
}

fn hkdf(ikm: &[u8], salt: &[u8], info: &[u8]) -> (r: Result<Vec<u8>, QuickShareCryptoError>)
    ensures
        r matches Ok(v) && v@ == hkdf32(ikm@, salt@, info@) && v@.len() == 32,
{
    Ok(hkdf_sha256_expand(Some(salt), ikm, info, 32))
}

fn bytes_auth_label() -> (r: Vec<u8>)
    ensures
        r@ == auth_label(),
{
    let r = vec![0x55u8, 0x4b, 0x45, 0x59, 0x32, 0x20, 0x76, 0x31, 0x20, 0x61, 0x75, 0x74, 0x68];
    assert(r@ =~= auth_label());
    r
}

fn bytes_next_label() -> (r: Vec<u8>)
    ensures
        r@ == next_label(),
{
    let r = vec![0x55u8, 0x4b, 0x45, 0x59, 0x32, 0x20, 0x76, 0x31, 0x20, 0x6e, 0x65, 0x78, 0x74];
    assert(r@ =~= next_label());
    r
}

fn bytes_d2d_salt() -> (r: Vec<u8>)
    ensures
        r@ == d2d_salt(),
{
    let r = vec![
        0x82u8, 0xAA, 0x55, 0xA0, 0xD3, 0x97, 0xF8, 0x83, 0x46, 0xCA, 0x1C, 0xEE, 0x8D, 0x39, 0x09, 0xB9,
        0x5F, 0x13, 0xFA, 0x7D, 0xEB, 0x1D, 0x4A, 0xB3, 0x83, 0x76, 0xB8, 0x25, 0x6D, 0xA8, 0x55, 0x10,
    ];
    assert(r@ =~= d2d_salt());
    r
}

fn bytes_client_label() -> (r: Vec<u8>)
    ensures
        r@ == client_label(),
{
    let r = vec![0x63u8, 0x6c, 0x69, 0x65, 0x6e, 0x74];
    assert(r@ =~= client_label());
    r
}

fn bytes_server_label() -> (r: Vec<u8>)
    ensures
        r@ == server_label(),
{
    let r = vec![0x73u8, 0x65, 0x72, 0x76, 0x65, 0x72];
    assert(r@ =~= server_label());
    r
}

fn bytes_enc_label() -> (r: Vec<u8>)
    ensures
        r@ == enc_label(),
{
    let r = vec![0x45u8, 0x4e, 0x43, 0x3a, 0x32];
    assert(r@ =~= enc_label());
    r
}

fn bytes_sig_label() -> (r: Vec<u8>)
    ensures
        r@ == sig_label(),
{
    let r = vec![0x53u8, 0x49, 0x47, 0x3a, 0x31];
    assert(r@ =~= sig_label());
    r
}

fn bytes_secure_message_label() -> (r: Vec<u8>)
    ensures
        r@ == secure_message_label(),
{
    let r = vec![0x53u8, 0x65, 0x63, 0x75, 0x72, 0x65, 0x4d, 0x65, 0x73, 0x73, 0x61, 0x67, 0x65];
    assert(r@ =~= secure_message_label());
    r
}

/// The session keys of one side (`server` or client) and the authentication
/// key, derived from the shared secret and the handshake transcript.
pub fn derive_session_keys(secret: &[u8], transcript: &[u8], server: bool) -> (r: Result<
    (SessionKeys, Vec<u8>),
    QuickShareCryptoError,
>)
    ensures
        r matches Ok((keys, auth)) && keys@ == session_keys(secret@, transcript@, server)
            && keys@.wf() && auth@ == ukey2_auth_key(secret@, transcript@) && auth@.len() == 32,
{
    let auth_key = hkdf(secret, &bytes_auth_label(), transcript)?;
    let next_secret = hkdf(secret, &bytes_next_label(), transcript)?;
    let salt = bytes_d2d_salt();
    let client_d2d = hkdf(&next_secret, &salt, &bytes_client_label())?;
    let server_d2d = hkdf(&next_secret, &salt, &bytes_server_label())?;
    let secure_message_salt = sha256_digest(&bytes_secure_message_label());
    let enc = bytes_enc_label();
    let sig = bytes_sig_label();
    let client_encrypt = hkdf(&client_d2d, &secure_message_salt, &enc)?;
    let client_hmac = hkdf(&client_d2d, &secure_message_salt, &sig)?;
    let server_encrypt = hkdf(&server_d2d, &secure_message_salt, &enc)?;
    let server_hmac = hkdf(&server_d2d, &secure_message_salt, &sig)?;
    let keys = if server {
        SessionKeys {
            decrypt_key: client_encrypt,
            receive_hmac_key: client_hmac,
            encrypt_key: server_encrypt,
            send_hmac_key: server_hmac,
        }
    } else {
        SessionKeys {
            decrypt_key: server_encrypt,
            receive_hmac_key: server_hmac,
            encrypt_key: client_encrypt,
            send_hmac_key: client_hmac,
        }
    };
    Ok((keys, auth_key))
}

/// The key schedule is that of UKEY2: the authentication key (from which the
/// PIN is computed) is HKDF-SHA256 of the shared secret with the salt
/// `"UKEY2 v1 auth"` and the handshake transcript as info; the next secret
/// uses the salt `"UKEY2 v1 next"`, each direction's key is expanded from it
/// with the info `"client"` or `"server"`, and the SecureMessage keys use the
/// SHA-256 of `"SecureMessage"` as salt with the infos `"ENC:2"` and `"SIG:1"`.
pub proof fn lemma_key_schedule_labels(secret: Seq<u8>, transcript: Seq<u8>)
    ensures
        ukey2_auth_key(secret, transcript) == hkdf_sha256(
            Some("UKEY2 v1 auth".spec_bytes()),
            secret,
            transcript,
            32,
        ),
        d2d_key(secret, transcript, client_label()) == hkdf_sha256(
            Some(d2d_salt()),
            hkdf_sha256(Some("UKEY2 v1 next".spec_bytes()), secret, transcript, 32),
            "client".spec_bytes(),
            32,
        ),
        d2d_key(secret, transcript, server_label()) == hkdf_sha256(
            Some(d2d_salt()),
            hkdf_sha256(Some("UKEY2 v1 next".spec_bytes()), secret, transcript, 32),
            "server".spec_bytes(),
            32,
        ),
        forall|label: Seq<u8>|
            #![trigger direction_encrypt_key(secret, transcript, label)]
            direction_encrypt_key(secret, transcript, label) == hkdf_sha256(
                Some(sha256("SecureMessage".spec_bytes())),
                d2d_key(secret, transcript, label),
                "ENC:2".spec_bytes(),
                32,
            ),
        forall|label: Seq<u8>|
            #![trigger direction_hmac_key(secret, transcript, label)]
            direction_hmac_key(secret, transcript, label) == hkdf_sha256(
                Some(sha256("SecureMessage".spec_bytes())),
                d2d_key(secret, transcript, label),
                "SIG:1".spec_bytes(),
                32,
            ),
{
    broadcast use vstd::string::is_ascii_spec_bytes;

    assert(auth_label() =~= "UKEY2 v1 auth".spec_bytes()) by {
        reveal_strlit("UKEY2 v1 auth");
        assert(vstd::string::is_ascii("UKEY2 v1 auth"));
    }
    assert(next_label() =~= "UKEY2 v1 next".spec_bytes()) by {
        reveal_strlit("UKEY2 v1 next");
        assert(vstd::string::is_ascii("UKEY2 v1 next"));
    }
    assert(client_label() =~= "client".spec_bytes()) by {
        reveal_strlit("client");
        assert(vstd::string::is_ascii("client"));
    }
    assert(server_label() =~= "server".spec_bytes()) by {
        reveal_strlit("server");
        assert(vstd::string::is_ascii("server"));
    }
    assert(secure_message_label() =~= "SecureMessage".spec_bytes()) by {
        reveal_strlit("SecureMessage");
        assert(vstd::string::is_ascii("SecureMessage"));
    }
    assert(enc_label() =~= "ENC:2".spec_bytes()) by {
        reveal_strlit("ENC:2");
        assert(vstd::string::is_ascii("ENC:2"));
    }
    assert(sig_label() =~= "SIG:1".spec_bytes()) by {
        reveal_strlit("SIG:1");
        assert(vstd::string::is_ascii("SIG:1"));
    }
}

/// The server and the client derive the same authentication key, and each
/// receives what the other sends.
pub proof fn lemma_session_keys_mirror(secret: Seq<u8>, transcript: Seq<u8>)
    ensures
        receives_from(session_keys(secret, transcript, true), session_keys(secret, transcript, false)),
        receives_from(session_keys(secret, transcript, false), session_keys(secret, transcript, true)),
{
}

// ---------------------------------------------------------------------------
// SecureMessage channel.
// ---------------------------------------------------------------------------

/// The encrypted inner message: the frame and its sequence number.
pub open spec fn d2d_plaintext(frame: OfflineFrameModel, sequence: i32) -> Seq<u8> {
    DeviceToDeviceMessageModel {
        message: Some(frame.encoding()),
        sequence_number: Some(sequence),
    }.encoding()
}

/// The public metadata of every channel message.
pub open spec fn channel_metadata() -> Seq<u8> {
    GcmMetadataModel {
        metadata_type: Some(GcmMetadataType::DeviceToDeviceMessage.code()),
        version: Some(1),
    }.encoding()
}

/// Header and ciphertext of a channel message.
pub open spec fn channel_envelope(iv: Seq<u8>, body: Seq<u8>) -> HeaderAndBodyModel {
    HeaderAndBodyModel {
        header: SecureHeaderModel {
            signature_scheme: Some(SignatureScheme::HmacSha256.code()),
            encryption_scheme: Some(EncryptionScheme::Aes256Cbc.code()),
            iv: Some(iv),
            public_metadata: Some(channel_metadata()),
        },
        body,
    }
}

/// The bytes that sending `frame` as message number `sequence` with the given
/// IV produces: the encrypted inner message in its envelope, signed.
pub open spec fn sealed_message(keys: SessionKeysModel, sequence: i32, frame: OfflineFrameModel, iv: Seq<u8>) -> Seq<u8> {
    let hb = channel_envelope(iv, aes256_cbc_seal(keys.encrypt_key, iv, d2d_plaintext(frame, sequence))).encoding();
    SecureMessageModel { header_and_body: hb, signature: hmac_sha256(keys.send_hmac_key, hb) }.encoding()
}

/// The decrypted inner message of channel bytes, checked up to the sequence
/// number: signature, schemes, IV, padding and protobuf framing.
pub open spec fn opened_inner(keys: SessionKeysModel, bytes: Seq<u8>) -> Result<DeviceToDeviceMessageModel, QuickShareCryptoError> {
    match SecureMessageModel::decoded(bytes) {
        None => Err(QuickShareCryptoError::Protobuf(DecodeError)),
        Some(sm) => if sm.signature != hmac_sha256(keys.receive_hmac_key, sm.header_and_body) {
            Err(QuickShareCryptoError::AuthenticationFailed)
        } else {
            match HeaderAndBodyModel::decoded(sm.header_and_body) {
                None => Err(QuickShareCryptoError::Protobuf(DecodeError)),
                Some(hb) => if hb.header.signature_scheme != Some(SignatureScheme::HmacSha256.code())
                    || hb.header.encryption_scheme != Some(EncryptionScheme::Aes256Cbc.code()) {
                    Err(QuickShareCryptoError::InvalidSecureMessage)
                } else {
                    match hb.header.iv {
                        Some(iv) => if iv.len() != 16 {
                            Err(QuickShareCryptoError::InvalidSecureMessage)
                        } else {
                            match aes256_cbc_open(keys.decrypt_key, iv, hb.body) {
                                None => Err(QuickShareCryptoError::DecryptionFailed),
                                Some(p) => match DeviceToDeviceMessageModel::decoded(p) {
                                    None => Err(QuickShareCryptoError::Protobuf(DecodeError)),
                                    Some(m) => Ok(m),
                                },
                            }
                        },
                        None => Err(QuickShareCryptoError::InvalidSecureMessage),
                    }
                }
            }
        },
    }
}

/// What receiving channel bytes gives after `received` messages: the frame or
/// the error, and the count of received messages afterwards. The count moves
/// on once the sequence number checks, even if the frame then fails to decode.
pub open spec fn opened_message(keys: SessionKeysModel, received: i32, bytes: Seq<u8>) -> (Result<OfflineFrameModel, QuickShareCryptoError>, i32) {
    match opened_inner(keys, bytes) {
        Err(e) => (Err(e), received),
        Ok(m) => match m.sequence_number {
            None => (Err(QuickShareCryptoError::InvalidSecureMessage), received),
            Some(actual) => if received == i32::MAX {
                (Err(QuickShareCryptoError::InvalidSecureMessage), received)
            } else if actual != received + 1 {
                (Err(QuickShareCryptoError::SequenceMismatch { expected: (received + 1) as i32, actual }), received)
            } else {
                match m.message {
                    None => (Err(QuickShareCryptoError::InvalidSecureMessage), actual),
                    Some(mb) => match OfflineFrameModel::decoded(mb) {
                        None => (Err(QuickShareCryptoError::Protobuf(DecodeError)), actual),
                        Some(f) => (Ok(f), actual),
                    },
                }
            }
        },
    }
}

/// Stateful AES-256-CBC + HMAC-SHA256 channel with replay protection.
pub struct SecureChannel {
    keys: SessionKeys,
    receive_sequence: i32,
    send_sequence: i32,
}

impl SecureChannel {
    #[verifier::type_invariant]
    spec fn keys_are_32_bytes(self) -> bool {
        &&& self.keys@.wf()
        &&& self.receive_sequence >= 0
        &&& self.send_sequence >= 0
    }

    /// The channel's keys.
    pub closed spec fn keys(self) -> SessionKeysModel {
        self.keys@
    }

    /// How many messages were received.
    pub closed spec fn received(self) -> i32 {
        self.receive_sequence
    }

    /// How many messages were sent.
    pub closed spec fn sent(self) -> i32 {
        self.send_sequence
    }

    /// A channel with these keys that has sent and received nothing.
    pub fn new(keys: SessionKeys) -> (r: Self)
        requires
            keys@.wf(),
        ensures
            r.keys() == keys@,
            r.received() == 0,
            r.sent() == 0,
    {
        SecureChannel { keys, receive_sequence: 0, send_sequence: 0 }
    }

    /// Encrypts and signs `frame` as the next message. Fails, changing
    /// nothing, when the send count is at its limit. Whatever IV was drawn, a
    /// peer that receives from these keys and has received as many messages
    /// opens the result to the frame.
    pub fn encrypt_offline_frame(&mut self, frame: &OfflineFrame) -> (r: Result<Vec<u8>, QuickShareCryptoError>)
        ensures
            final(self).keys() == old(self).keys(),
            final(self).received() == old(self).received(),
            old(self).sent() == i32::MAX ==> (r matches Err(QuickShareCryptoError::InvalidSecureMessage)
                && final(self).sent() == old(self).sent()),
            old(self).sent() < i32::MAX ==> {
                &&& final(self).sent() == old(self).sent() + 1
                &&& r matches Ok(bytes) && exists|iv: Seq<u8>|
                    iv.len() == 16 && bytes@ == #[trigger] sealed_message(old(self).keys(), final(self).sent(), frame@, iv)
                &&& frame@.wf() ==> forall|peer: SessionKeysModel| #[trigger] receives_from(peer, old(self).keys())
                    ==> (r matches Ok(bytes) && opened_message(peer, old(self).sent(), bytes@) == (
                        Ok::<OfflineFrameModel, QuickShareCryptoError>(frame@),
                        final(self).sent(),
                    ))
            },
    {
        proof { use_type_invariant(&*self); }
        if self.send_sequence == i32::MAX {
            return Err(QuickShareCryptoError::InvalidSecureMessage);
        }
        let sequence = self.send_sequence + 1;
        self.send_sequence = sequence;
        let encoded_frame = frame.encode_to_vec();
        let ghost frame_len = encoded_frame.len();
        let inner = DeviceToDeviceMessage { message: Some(encoded_frame), sequence_number: Some(sequence) };
        let plaintext = inner.encode_to_vec();
        let iv = random_bytes(16);
        let body = aes256_cbc_encrypt(&self.keys.encrypt_key, &iv, &plaintext);
        let ghost body_len = body.len();
        let metadata = GcmMetadata {
            metadata_type: Some(GcmMetadataType::DeviceToDeviceMessage.to_i32()),
            version: Some(1),
        }.encode_to_vec();
        let ghost metadata_len = metadata.len();
        let envelope = HeaderAndBody {
            header: SecureHeader {
                signature_scheme: Some(SignatureScheme::HmacSha256.to_i32()),
                encryption_scheme: Some(EncryptionScheme::Aes256Cbc.to_i32()),
                iv: Some(iv),
                public_metadata: Some(metadata),
            },
            body,
        };
        let header_and_body = envelope.encode_to_vec();
        let ghost hb_len = header_and_body.len();
        let signature = hmac_sha256_tag(&self.keys.send_hmac_key, &header_and_body);
        let message = SecureMessage { header_and_body, signature };
        let out = message.encode_to_vec();
        proof {
            let ivs = envelope.header.iv.unwrap()@;
            assert(envelope@ == channel_envelope(ivs, envelope.body@));
            assert(out@ == sealed_message(old(self).keys(), sequence, frame@, ivs));
            assert(frame@.encoding().len() == frame_len);
            assert(channel_metadata().len() == metadata_len);
            assert(envelope.body@.len() == body_len);
            assert(header_and_body@.len() == hb_len);
            if frame@.wf() {
                lemma_sealed_opens(old(self).keys(), sequence, frame@, ivs, envelope.body@,
                    header_and_body@, signature@, out@, plaintext@);
            }
        }
        Ok(out)
    }

    /// Checks, decrypts and decodes a message from the peer. The received count
    /// moves to the message's sequence number once that number is the next one.
    pub fn decrypt_offline_frame(&mut self, secure_message: &[u8]) -> (r: Result<OfflineFrame, QuickShareCryptoError>)
        ensures
            final(self).keys() == old(self).keys(),
            final(self).sent() == old(self).sent(),
            final(self).received() == opened_message(old(self).keys(), old(self).received(), secure_message@).1,
            match opened_message(old(self).keys(), old(self).received(), secure_message@).0 {
                Ok(f) => r matches Ok(x) && x@ == f,
                Err(e) => r matches Err(x) && x == e,
            },
    {
        proof { use_type_invariant(&*self); }
        let secure = match SecureMessage::decode(secure_message) {
            Ok(m) => m,
            Err(e) => return Err(QuickShareCryptoError::Protobuf(e)),
        };
        if !hmac_sha256_verify(&self.keys.receive_hmac_key, &secure.header_and_body, &secure.signature) {
            return Err(QuickShareCryptoError::AuthenticationFailed);
        }
        let envelope = match HeaderAndBody::decode(&secure.header_and_body) {
            Ok(m) => m,
            Err(e) => return Err(QuickShareCryptoError::Protobuf(e)),
        };
        if envelope.header.signature_scheme != Some(SignatureScheme::HmacSha256.to_i32())
            || envelope.header.encryption_scheme != Some(EncryptionScheme::Aes256Cbc.to_i32()) {
            return Err(QuickShareCryptoError::InvalidSecureMessage);
        }
        let iv = match &envelope.header.iv {
            Some(v) => {
                if v.len() != 16 {
                    return Err(QuickShareCryptoError::InvalidSecureMessage);
                }
                v
            },
            None => return Err(QuickShareCryptoError::InvalidSecureMessage),
        };
        let plaintext = match aes256_cbc_decrypt(&self.keys.decrypt_key, iv, &envelope.body) {
            Some(p) => p,
            None => return Err(QuickShareCryptoError::DecryptionFailed),
        };
        let inner = match DeviceToDeviceMessage::decode(&plaintext) {
            Ok(m) => m,
            Err(e) => return Err(QuickShareCryptoError::Protobuf(e)),
        };
        let actual = match inner.sequence_number {
            Some(n) => n,
            None => return Err(QuickShareCryptoError::InvalidSecureMessage),
        };
        if self.receive_sequence == i32::MAX {
            return Err(QuickShareCryptoError::InvalidSecureMessage);
        }
        let expected = self.receive_sequence + 1;
        if actual != expected {
            return Err(QuickShareCryptoError::SequenceMismatch { expected, actual });
        }
        self.receive_sequence = actual;
        match &inner.message {
            Some(m) => match OfflineFrame::decode(m) {
                Ok(f) => Ok(f),
                Err(e) => Err(QuickShareCryptoError::Protobuf(e)),
            },
            None => Err(QuickShareCryptoError::InvalidSecureMessage),
        }
    }
}

/// The header of a message with a well-formed encoding is no longer than the
/// whole.
proof fn lemma_header_within(hb: HeaderAndBodyModel)
    ensures
        hb.header.encoding().len() <= hb.encoding().len(),
{
    let a = req_bytes_records(1, hb.header.encoding());
    let b = req_bytes_records(2, hb.body);
    lemma_fields_bytes_append(a, b);
    lemma_fields_bytes_single(bytes_record(1, hb.header.encoding()));
    assert(hb.records() == a + b);
}

/// The sealed bytes of a well-formed frame open, under keys that receive from
/// the sender's, to the frame and its sequence number.
proof fn lemma_sealed_opens(
    keys: SessionKeysModel,
    sequence: i32,
    frame: OfflineFrameModel,
    iv: Seq<u8>,
    body: Seq<u8>,
    hb: Seq<u8>,
    signature: Seq<u8>,
    out: Seq<u8>,
    plaintext: Seq<u8>,
)
    requires
        frame.wf(),
        frame.encoding().len() <= usize::MAX,
        channel_metadata().len() <= usize::MAX,
        1 <= sequence,
        iv.len() == 16,
        plaintext == d2d_plaintext(frame, sequence),
        aes256_cbc_open(keys.encrypt_key, iv, body) == Some(plaintext),
        body.len() <= usize::MAX,
        hb == channel_envelope(iv, body).encoding(),
        hb.len() <= usize::MAX,
        signature == hmac_sha256(keys.send_hmac_key, hb),
        signature.len() == 32,
        out == (SecureMessageModel { header_and_body: hb, signature }).encoding(),
    ensures
        forall|peer: SessionKeysModel| #[trigger] receives_from(peer, keys)
            ==> opened_message(peer, (sequence - 1) as i32, out) == (
                Ok::<OfflineFrameModel, QuickShareCryptoError>(frame),
                sequence,
            ),
{
    let d = RECURSION_BUDGET as nat;
    let sm = SecureMessageModel { header_and_body: hb, signature };
    assert(sm.wf());
    sm.lemma_round_trip(d);
    let env = channel_envelope(iv, body);
    lemma_header_within(env);
    assert(env.header.wf());
    assert(env.wf());
    env.lemma_round_trip(d);
    let inner = DeviceToDeviceMessageModel { message: Some(frame.encoding()), sequence_number: Some(sequence) };
    assert(inner.wf());
    inner.lemma_round_trip(d);
    frame.lemma_round_trip(d);
    assert forall|peer: SessionKeysModel| #[trigger] receives_from(peer, keys) implies opened_message(
        peer,
        (sequence - 1) as i32,
        out,
    ) == (Ok::<OfflineFrameModel, QuickShareCryptoError>(frame), sequence) by {
        assert(opened_inner(peer, out) == Ok::<DeviceToDeviceMessageModel, QuickShareCryptoError>(inner));
    }
}

/// A message that was accepted carries the next sequence number, and the same
/// bytes are refused if they arrive again.
pub proof fn lemma_replay_rejected(keys: SessionKeysModel, received: i32, bytes: Seq<u8>)
    requires
        opened_message(keys, received, bytes).0 is Ok,
    ensures
        opened_message(keys, received, bytes).1 == received + 1,
        ({
            let next = opened_message(keys, received, bytes).1;
            opened_message(keys, next, bytes) == (
                Err::<OfflineFrameModel, QuickShareCryptoError>(
                    if next == i32::MAX {
                        QuickShareCryptoError::InvalidSecureMessage
                    } else {
                        QuickShareCryptoError::SequenceMismatch { expected: (next + 1) as i32, actual: next }
                    },
                ),
                next,
            )
        }),
{
}

/// Messages `ms` that a channel sealed in order, frames `fs`, as the peer
/// receives them: message `k` opens to frame `k` when `k` messages were
/// received before it. [`SecureChannel::encrypt_offline_frame`] states this
/// of each message it seals.
pub open spec fn sealed_run(peer: SessionKeysModel, ms: Seq<Seq<u8>>, fs: Seq<OfflineFrameModel>) -> bool {
    &&& ms.len() == fs.len()
    &&& ms.len() < i32::MAX
    &&& forall|k: int| 0 <= k < ms.len() ==> #[trigger] opened_message(peer, k as i32, ms[k]) == (
        Ok::<OfflineFrameModel, QuickShareCryptoError>(fs[k]),
        (k + 1) as i32,
    )
}

/// A receiver that starts with nothing received takes `xs` one after
/// another: for each message, its result and the count of received messages
/// afterwards.
pub open spec fn delivered(peer: SessionKeysModel, xs: Seq<Seq<u8>>) -> Seq<(Result<OfflineFrameModel, QuickShareCryptoError>, i32)>
    decreases xs.len(),
{
    if xs.len() == 0 {
        Seq::empty()
    } else {
        let before = delivered(peer, xs.drop_last());
        let count = if before.len() == 0 {
            0i32
        } else {
            before.last().1
        };
        before.push(opened_message(peer, count, xs.last()))
    }
}

/// One message of a sealed run arriving after `k` of the run were received:
/// the next one is accepted, any other (a replay or one out of order) is
/// refused with the sequence numbers and changes nothing.
pub proof fn lemma_run_step(peer: SessionKeysModel, ms: Seq<Seq<u8>>, fs: Seq<OfflineFrameModel>, k: int, j: int)
    requires
        sealed_run(peer, ms, fs),
        0 <= k <= ms.len(),
        0 <= j < ms.len(),
    ensures
        j == k ==> opened_message(peer, k as i32, ms[j]) == (
            Ok::<OfflineFrameModel, QuickShareCryptoError>(fs[k]),
            (k + 1) as i32,
        ),
        j != k ==> opened_message(peer, k as i32, ms[j]) == (
            Err::<OfflineFrameModel, QuickShareCryptoError>(
                QuickShareCryptoError::SequenceMismatch { expected: (k + 1) as i32, actual: (j + 1) as i32 },
            ),
            k as i32,
        ),
{
    assert(opened_message(peer, j as i32, ms[j]) == (
        Ok::<OfflineFrameModel, QuickShareCryptoError>(fs[j]),
        (j + 1) as i32,
    ));
}

/// Whether `x` is one of the messages `ms`.
pub open spec fn in_run(ms: Seq<Seq<u8>>, x: Seq<u8>) -> bool {
    exists|j: int| 0 <= j < ms.len() && x == ms[j]
}

/// The count of received messages before arrival `t` of a delivery.
pub open spec fn count_before(d: Seq<(Result<OfflineFrameModel, QuickShareCryptoError>, i32)>, t: int) -> int {
    if t == 0 {
        0
    } else {
        d[t - 1].1 as int
    }
}

/// Message `x` of a sealed run, arriving after `count` of the run were
/// received, gave `out`: the frame of the next message and a count moved on
/// by one when `x` is that message, else an error and the count unchanged.
pub open spec fn handled_in_order(
    ms: Seq<Seq<u8>>,
    fs: Seq<OfflineFrameModel>,
    x: Seq<u8>,
    count: int,
    out: (Result<OfflineFrameModel, QuickShareCryptoError>, i32),
) -> bool {
    &&& 0 <= count <= ms.len()
    &&& count < ms.len() && x == ms[count] ==> out == (
        Ok::<OfflineFrameModel, QuickShareCryptoError>(fs[count]),
        (count + 1) as i32,
    )
    &&& !(count < ms.len() && x == ms[count]) ==> out.0 is Err && out.1 == count
}

/// Messages sealed in order are accepted in order and never twice: when a
/// receiver that has received nothing takes any messages of the run, in any
/// order and any number of times, each one is accepted exactly when it is
/// the next of the run (its frame comes out and the count moves on by one);
/// every other one is refused and leaves the count as it was.
pub proof fn lemma_sealed_run_delivered(
    peer: SessionKeysModel,
    ms: Seq<Seq<u8>>,
    fs: Seq<OfflineFrameModel>,
    xs: Seq<Seq<u8>>,
)
    requires
        sealed_run(peer, ms, fs),
        forall|t: int| 0 <= t < xs.len() ==> #[trigger] in_run(ms, xs[t]),
    ensures
        delivered(peer, xs).len() == xs.len(),
        forall|t: int| 0 <= t < xs.len() ==> #[trigger] handled_in_order(
            ms,
            fs,
            xs[t],
            count_before(delivered(peer, xs), t),
            delivered(peer, xs)[t],
        ),
    decreases xs.len(),
{
    if xs.len() > 0 {
        let front = xs.drop_last();
        assert forall|t: int| 0 <= t < front.len() implies #[trigger] in_run(ms, front[t]) by {
            assert(front[t] == xs[t]);
        }
        lemma_sealed_run_delivered(peer, ms, fs, front);
        let before = delivered(peer, front);
        let d = delivered(peer, xs);
        let n = xs.len() - 1;
        assert(d == before.push(opened_message(peer, count_before(before, n) as i32, xs[n]))) by {
            if n > 0 {
                assert(before.last() == before[n - 1]);
            }
        }
        let count = count_before(before, n);
        assert(0 <= count <= ms.len()) by {
            if n > 0 {
                assert(handled_in_order(ms, fs, front[n - 1], count_before(before, n - 1), before[n - 1]));
            }
        }
        assert(in_run(ms, xs[n]));
        let j = choose|j: int| 0 <= j < ms.len() && xs[n] == ms[j];
        lemma_run_step(peer, ms, fs, count, j);
        assert forall|t: int| 0 <= t < xs.len() implies #[trigger] handled_in_order(
            ms,
            fs,
            xs[t],
            count_before(d, t),
            d[t],
        ) by {
            if t < n {
                assert(d[t] == before[t]);
                assert(xs[t] == front[t]);
                assert(count_before(d, t) == count_before(before, t));
                assert(handled_in_order(ms, fs, front[t], count_before(before, t), before[t]));
            } else {
                assert(count_before(d, t) == count);
                if count < ms.len() && xs[t] == ms[count] {
                    lemma_run_step(peer, ms, fs, count, count);
                }
            }
        }
    }
}

// ---------------------------------------------------------------------------
// UKEY2 handshake.
// ---------------------------------------------------------------------------

/// `"AES_256_CBC-HMAC_SHA256"`: what the channel speaks after UKEY2.
pub open spec fn next_protocol() -> Seq<char> {
    seq!['A', 'E', 'S', '_', '2', '5', '6', '_', 'C', 'B', 'C', '-', 'H', 'M', 'A', 'C', '_', 'S', 'H', 'A', '2', '5', '6']
}

fn next_protocol_string() -> (r: String)
    ensures
        r@ == next_protocol(),
{
    let r = String::from_str("AES_256_CBC-HMAC_SHA256");
    proof {
        reveal_strlit("AES_256_CBC-HMAC_SHA256");
    }
    assert(r@ =~= next_protocol());
    r
}

/// A UKEY2 envelope of the given type around `data`.
pub open spec fn ukey2_message(t: Ukey2MessageType, data: Seq<u8>) -> Seq<u8> {
    Ukey2MessageModel { message_type: Some(t.code()), message_data: Some(data) }.encoding()
}

/// The ClientFinish message carrying the client's public key `(x, y)`.
pub open spec fn client_finish_message(x: Seq<u8>, y: Seq<u8>) -> Seq<u8> {
    ukey2_message(
        Ukey2MessageType::ClientFinish,
        Ukey2ClientFinishedModel { public_key: Some(generic_key_of(x, y).encoding()) }.encoding(),
    )
}

/// The single P-256/SHA-512 commitment that a ClientInit carries.
pub open spec fn p256_commitment(commitment: Seq<u8>) -> CipherCommitmentModel {
    CipherCommitmentModel {
        handshake_cipher: Some(Ukey2HandshakeCipher::P256Sha512.code()),
        commitment: Some(commitment),
    }
}

/// The ClientInit message with its random bytes and its commitment to the
/// ClientFinish.
pub open spec fn client_init_message(random: Seq<u8>, commitment: Seq<u8>) -> Seq<u8> {
    ukey2_message(
        Ukey2MessageType::ClientInit,
        Ukey2ClientInitModel {
            version: Some(1),
            random: Some(random),
            cipher_commitments: seq![p256_commitment(commitment)],
            next_protocol: Some(next_protocol()),
        }.encoding(),
    )
}

/// The ServerInit message with its random bytes and the server's public key.
pub open spec fn server_init_message(random: Seq<u8>, x: Seq<u8>, y: Seq<u8>) -> Seq<u8> {
    ukey2_message(
        Ukey2MessageType::ServerInit,
        Ukey2ServerInitModel {
            version: Some(1),
            random: Some(random),
            handshake_cipher: Some(Ukey2HandshakeCipher::P256Sha512.code()),
            public_key: Some(generic_key_of(x, y).encoding()),
        }.encoding(),
    )
}

/// The commitment of the first P-256/SHA-512 entry, if there is such an
/// entry and it has one.
pub open spec fn first_p256_commitment(cs: Seq<CipherCommitmentModel>) -> Option<Seq<u8>>
    decreases cs.len(),
{
    if cs.len() == 0 {
        None
    } else if cs[0].handshake_cipher == Some(Ukey2HandshakeCipher::P256Sha512.code()) {
        cs[0].commitment
    } else {
        first_p256_commitment(cs.drop_first())
    }
}

/// What the server checks of a ClientInit: the commitment to the client's
/// ClientFinish, or why the message is refused.
pub open spec fn client_init_commitment(raw: Seq<u8>) -> Result<Seq<u8>, QuickShareCryptoError> {
    match Ukey2MessageModel::decoded(raw) {
        None => Err(QuickShareCryptoError::Protobuf(DecodeError)),
        Some(outer) => if outer.message_type != Some(Ukey2MessageType::ClientInit.code()) {
            Err(QuickShareCryptoError::UnexpectedUkey2Message)
        } else {
            match outer.message_data {
                None => Err(QuickShareCryptoError::InvalidClientInit),
                Some(data) => match Ukey2ClientInitModel::decoded(data) {
                    None => Err(QuickShareCryptoError::Protobuf(DecodeError)),
                    Some(init) => if init.version != Some(1i32) || !(init.random matches Some(r) && r.len() == 32)
                        || init.next_protocol != Some(next_protocol()) {
                        Err(QuickShareCryptoError::InvalidClientInit)
                    } else {
                        match first_p256_commitment(init.cipher_commitments) {
                            Some(c) => if c.len() == 64 {
                                Ok(c)
                            } else {
                                Err(QuickShareCryptoError::InvalidClientInit)
                            },
                            None => Err(QuickShareCryptoError::InvalidClientInit),
                        }
                    }
                },
            }
        },
    }
}

/// What the client checks of a ServerInit: the server's public key, or why
/// the message is refused.
pub open spec fn server_init_point(raw: Seq<u8>) -> Result<(Seq<u8>, Seq<u8>), QuickShareCryptoError> {
    match Ukey2MessageModel::decoded(raw) {
        None => Err(QuickShareCryptoError::Protobuf(DecodeError)),
        Some(outer) => if outer.message_type != Some(Ukey2MessageType::ServerInit.code()) {
            Err(QuickShareCryptoError::UnexpectedUkey2Message)
        } else {
            match outer.message_data {
                None => Err(QuickShareCryptoError::InvalidClientInit),
                Some(data) => match Ukey2ServerInitModel::decoded(data) {
                    None => Err(QuickShareCryptoError::Protobuf(DecodeError)),
                    Some(init) => if init.version != Some(1i32) || !(init.random matches Some(r) && r.len() == 32)
                        || init.handshake_cipher != Some(Ukey2HandshakeCipher::P256Sha512.code()) {
                        Err(QuickShareCryptoError::InvalidClientInit)
                    } else {
                        match init.public_key {
                            None => Err(QuickShareCryptoError::InvalidPublicKey),
                            Some(pk) => match GenericPublicKeyModel::decoded(pk) {
                                None => Err(QuickShareCryptoError::Protobuf(DecodeError)),
                                Some(g) => match point_of_generic_key(g) {
                                    None => Err(QuickShareCryptoError::InvalidPublicKey),
                                    Some(p) => Ok(p),
                                },
                            },
                        }
                    }
                },
            }
        },
    }
}

/// What the server checks of a ClientFinish: it must hash to the committed
/// value and carry a public key on the curve.
pub open spec fn client_finish_point(commitment: Seq<u8>, raw: Seq<u8>) -> Result<(Seq<u8>, Seq<u8>), QuickShareCryptoError> {
    if sha512(raw) != commitment {
        Err(QuickShareCryptoError::CommitmentMismatch)
    } else {
        match Ukey2MessageModel::decoded(raw) {
            None => Err(QuickShareCryptoError::Protobuf(DecodeError)),
            Some(outer) => if outer.message_type != Some(Ukey2MessageType::ClientFinish.code()) {
                Err(QuickShareCryptoError::UnexpectedUkey2Message)
            } else {
                match outer.message_data {
                    None => Err(QuickShareCryptoError::InvalidPublicKey),
                    Some(data) => match Ukey2ClientFinishedModel::decoded(data) {
                        None => Err(QuickShareCryptoError::Protobuf(DecodeError)),
                        Some(fin) => match fin.public_key {
                            None => Err(QuickShareCryptoError::InvalidPublicKey),
                            Some(pk) => match GenericPublicKeyModel::decoded(pk) {
                                None => Err(QuickShareCryptoError::Protobuf(DecodeError)),
                                Some(g) => match point_of_generic_key(g) {
                                    None => Err(QuickShareCryptoError::InvalidPublicKey),
                                    Some(p) => Ok(p),
                                },
                            },
                        },
                    },
                }
            }
        }
    }
}

/// The shared secret that the channel keys come from: the SHA-256 of the
/// ECDH secret.
pub open spec fn handshake_secret(secret: Seq<u8>, x: Seq<u8>, y: Seq<u8>) -> Seq<u8> {
    sha256(p256_ecdh(secret, x, y))
}

/// The uncompressed SEC1 encoding `04 || x || y` of a point.
pub open spec fn sec1_uncompressed(x: Seq<u8>, y: Seq<u8>) -> Seq<u8> {
    seq![4u8] + x + y
}

fn decode_error(e: DecodeError) -> (r: QuickShareCryptoError)
    ensures
        r == QuickShareCryptoError::Protobuf(e),
{
    QuickShareCryptoError::Protobuf(e)
}

/// The server's public key from a ServerInit, checked as
/// [`server_init_point`] says.
fn check_server_init(server_init_raw: &[u8]) -> (r: Result<(Vec<u8>, Vec<u8>), QuickShareCryptoError>)
    ensures
        match server_init_point(server_init_raw@) {
            Err(e) => r matches Err(x) && x == e,
            Ok(p) => r matches Ok(v) && (v.0@, v.1@) == p,
        },
{
        let outer = match Ukey2Message::decode(server_init_raw) {
            Ok(m) => m,
            Err(e) => return Err(decode_error(e)),
        };
        if outer.message_type != Some(Ukey2MessageType::ServerInit.to_i32()) {
            return Err(QuickShareCryptoError::UnexpectedUkey2Message);
        }
        let data = match &outer.message_data {
            Some(d) => d,
            None => return Err(QuickShareCryptoError::InvalidClientInit),
        };
        let init = match Ukey2ServerInit::decode(data) {
            Ok(m) => m,
            Err(e) => return Err(decode_error(e)),
        };
        let random_ok = match &init.random {
            Some(r) => r.len() == 32,
            None => false,
        };
        if init.version != Some(1) || !random_ok
            || init.handshake_cipher != Some(Ukey2HandshakeCipher::P256Sha512.to_i32()) {
            return Err(QuickShareCryptoError::InvalidClientInit);
        }
        let public_key = match &init.public_key {
            Some(pk) => pk,
            None => return Err(QuickShareCryptoError::InvalidPublicKey),
        };
        let generic_key = match GenericPublicKey::decode(public_key) {
            Ok(m) => m,
            Err(e) => return Err(decode_error(e)),
        };
        decode_generic_public_key(&generic_key)
}

/// The commitment from a ClientInit, checked as [`client_init_commitment`]
/// says.
fn check_client_init(raw: &[u8]) -> (r: Result<Vec<u8>, QuickShareCryptoError>)
    ensures
        match client_init_commitment(raw@) {
            Err(e) => r matches Err(x) && x == e,
            Ok(c) => r matches Ok(v) && v@ == c,
        },
{
        let outer = match Ukey2Message::decode(raw) {
            Ok(m) => m,
            Err(e) => return Err(decode_error(e)),
        };
        if outer.message_type != Some(Ukey2MessageType::ClientInit.to_i32()) {
            return Err(QuickShareCryptoError::UnexpectedUkey2Message);
        }
        let data = match &outer.message_data {
            Some(d) => d,
            None => return Err(QuickShareCryptoError::InvalidClientInit),
        };
        let init = match Ukey2ClientInit::decode(data) {
            Ok(m) => m,
            Err(e) => return Err(decode_error(e)),
        };
        let random_ok = match &init.random {
            Some(r) => r.len() == 32,
            None => false,
        };
        let protocol_ok = match &init.next_protocol {
            Some(p) => *p == next_protocol_string(),
            None => false,
        };
        if init.version != Some(1) || !random_ok || !protocol_ok {
            return Err(QuickShareCryptoError::InvalidClientInit);
        }
        match find_p256_commitment(&init.cipher_commitments) {
            Some(c) => {
                if c.len() != 64 {
                    return Err(QuickShareCryptoError::InvalidClientInit);
                }
                Ok(c)
            },
            None => Err(QuickShareCryptoError::InvalidClientInit),
        }
}

/// The client's public key from a ClientFinish, checked as
/// [`client_finish_point`] says.
fn check_client_finish(commitment: &[u8], client_finish_raw: &[u8]) -> (r: Result<(Vec<u8>, Vec<u8>), QuickShareCryptoError>)
    ensures
        match client_finish_point(commitment@, client_finish_raw@) {
            Err(e) => r matches Err(x) && x == e,
            Ok(p) => r matches Ok(v) && (v.0@, v.1@) == p,
        },
{
        let actual_commitment = sha512_digest(client_finish_raw);
        if !bytes_equal(&actual_commitment, commitment) {
            return Err(QuickShareCryptoError::CommitmentMismatch);
        }
        let outer = match Ukey2Message::decode(client_finish_raw) {
            Ok(m) => m,
            Err(e) => return Err(decode_error(e)),
        };
        if outer.message_type != Some(Ukey2MessageType::ClientFinish.to_i32()) {
            return Err(QuickShareCryptoError::UnexpectedUkey2Message);
        }
        let data = match &outer.message_data {
            Some(d) => d,
            None => return Err(QuickShareCryptoError::InvalidPublicKey),
        };
        let finish = match Ukey2ClientFinished::decode(data) {
            Ok(m) => m,
            Err(e) => return Err(decode_error(e)),
        };
        let public_key = match &finish.public_key {
            Some(pk) => pk,
            None => return Err(QuickShareCryptoError::InvalidPublicKey),
        };
        let generic_key = match GenericPublicKey::decode(public_key) {
            Ok(m) => m,
            Err(e) => return Err(decode_error(e)),
        };
        decode_generic_public_key(&generic_key)
}

/// Client half of the UKEY2 P-256 exchange.
pub struct Ukey2Initiator {
    client_init_raw: Vec<u8>,
    client_finish_raw: Vec<u8>,
    secret_key: Vec<u8>,
}

impl Ukey2Initiator {
    #[verifier::type_invariant]
    spec fn secret_is_a_scalar(self) -> bool {
        p256_secret_ok(self.secret_key@)
    }

    /// The ClientInit that was sent.
    pub closed spec fn client_init(self) -> Seq<u8> {
        self.client_init_raw@
    }

    /// The ClientFinish kept for the third message.
    pub closed spec fn client_finish(self) -> Seq<u8> {
        self.client_finish_raw@
    }

    /// The client's secret scalar.
    pub closed spec fn secret(self) -> Seq<u8> {
        self.secret_key@
    }

    /// Draws a key pair and the random bytes, and returns the state with the
    /// ClientInit to send. The ClientInit commits to the ClientFinish that
    /// carries the client's public key.
    pub fn begin() -> (r: Result<(Self, Vec<u8>), QuickShareCryptoError>)
        ensures
            r matches Ok((st, init)) && {
                &&& init@ == st.client_init()
                &&& p256_secret_ok(st.secret())
                &&& p256_public(st.secret()).0.len() == 32
                &&& p256_public(st.secret()).1.len() == 32
                &&& p256_on_curve(p256_public(st.secret()).0, p256_public(st.secret()).1)
                &&& st.client_finish() == client_finish_message(p256_public(st.secret()).0, p256_public(st.secret()).1)
                &&& sha512(st.client_finish()).len() == 64
                &&& exists|random: Seq<u8>| random.len() == 32
                    && init@ == #[trigger] client_init_message(random, sha512(st.client_finish()))
            },
    {
        let secret_key = p256_random_secret();
        let (x, y) = p256_public_key(&secret_key);
        let finish = Ukey2ClientFinished { public_key: Some(encode_generic_public_key(&x, &y).encode_to_vec()) };
        let client_finish_raw = Ukey2Message {
            message_type: Some(Ukey2MessageType::ClientFinish.to_i32()),
            message_data: Some(finish.encode_to_vec()),
        }.encode_to_vec();
        let commitment = sha512_digest(&client_finish_raw);
        let random = random_bytes(32);
        let ghost random_view = random@;
        let ghost commitment_view = commitment@;
        let init = Ukey2ClientInit {
            version: Some(1),
            random: Some(random),
            cipher_commitments: vec![CipherCommitment {
                handshake_cipher: Some(Ukey2HandshakeCipher::P256Sha512.to_i32()),
                commitment: Some(commitment),
            }],
            next_protocol: Some(next_protocol_string()),
        };
        assert(init@.cipher_commitments =~= seq![p256_commitment(commitment_view)]);
        let client_init_raw = Ukey2Message {
            message_type: Some(Ukey2MessageType::ClientInit.to_i32()),
            message_data: Some(init.encode_to_vec()),
        }.encode_to_vec();
        assert(client_init_raw@ == client_init_message(random_view, sha512(client_finish_raw@)));
        let sent = slice_to_vec(client_init_raw.as_slice());
        Ok((Ukey2Initiator { client_init_raw, client_finish_raw, secret_key }, sent))
    }

    /// Checks the ServerInit and returns the ClientFinish to send, the
    /// channel, the PIN and the authentication key. The keys come from the
    /// ECDH secret with the server's key and the transcript ClientInit ||
    /// ServerInit; any server secret whose public key the ServerInit carries
    /// computes the same shared secret from the client's public key.
    pub fn complete(self, server_init_raw: &[u8]) -> (r: Result<
        (Vec<u8>, SecureChannel, String, Vec<u8>),
        QuickShareCryptoError,
    >)
        ensures
            match server_init_point(server_init_raw@) {
                Err(e) => r matches Err(x) && x == e,
                Ok((x, y)) => r matches Ok((finish, channel, pin, auth)) && {
                    let shared = handshake_secret(self.secret(), x, y);
                    let transcript = self.client_init() + server_init_raw@;
                    &&& finish@ == self.client_finish()
                    &&& channel.keys() == session_keys(shared, transcript, false)
                    &&& channel.received() == 0
                    &&& channel.sent() == 0
                    &&& auth@ == ukey2_auth_key(shared, transcript)
                    &&& auth@.len() == 32
                    &&& pin@ == pin_text(auth@)
                    &&& forall|s: Seq<u8>|
                        p256_secret_ok(s) && #[trigger] p256_public(s) == (x, y) ==> shared == handshake_secret(
                            s,
                            p256_public(self.secret()).0,
                            p256_public(self.secret()).1,
                        )
                },
            },
    {
        proof { use_type_invariant(&self); }
        let (x, y) = match check_server_init(server_init_raw) {
            Ok(p) => p,
            Err(e) => return Err(e),
        };
        let shared = p256_diffie_hellman(&self.secret_key, &x, &y);
        let derived_secret = sha256_digest(&shared);
        let ghost init_view = self.client_init_raw@;
        let mut transcript = self.client_init_raw;
        transcript.extend_from_slice(server_init_raw);
        assert(transcript@ =~= init_view + server_init_raw@);
        let (keys, auth_key) = match derive_session_keys(&derived_secret, &transcript, false) {
            Ok(k) => k,
            Err(e) => return Err(e),
        };
        let pin = pin_code(&auth_key);
        Ok((self.client_finish_raw, SecureChannel::new(keys), pin, auth_key))
    }
}

fn find_p256_commitment(cs: &Vec<CipherCommitment>) -> (r: Option<Vec<u8>>)
    ensures
        r matches Some(v) ==> first_p256_commitment(cs@.map_values(|x: CipherCommitment| x@)) == Some(v@),
        r is None ==> first_p256_commitment(cs@.map_values(|x: CipherCommitment| x@)) is None,
{
    let ghost all = cs@.map_values(|x: CipherCommitment| x@);
    let mut i: usize = 0;
    assert(all.skip(0) =~= all);
    while i < cs.len()
        invariant
            i <= cs@.len(),
            all == cs@.map_values(|x: CipherCommitment| x@),
            first_p256_commitment(all) == first_p256_commitment(all.skip(i as int)),
        decreases cs@.len() - i,
    {
        assert(all.skip(i as int)[0] == cs@[i as int]@);
        if cs[i].handshake_cipher == Some(Ukey2HandshakeCipher::P256Sha512.to_i32()) {
            return match &cs[i].commitment {
                Some(c) => Some(slice_to_vec(c.as_slice())),
                None => None,
            };
        }
        assert(all.skip(i as int).drop_first() =~= all.skip(i + 1));
        i = i + 1;
    }
    assert(all.skip(i as int) =~= Seq::<CipherCommitmentModel>::empty());
    None
}

/// Server half of the three-message UKEY2 P-256 handshake.
pub struct Ukey2Responder {
    commitment: Vec<u8>,
    client_init_raw: Vec<u8>,
    server_init_raw: Vec<u8>,
    secret_key: Vec<u8>,
}

impl Ukey2Responder {
    #[verifier::type_invariant]
    spec fn secret_is_a_scalar(self) -> bool {
        p256_secret_ok(self.secret_key@)
    }

    /// The client's commitment to its ClientFinish.
    pub closed spec fn commitment(self) -> Seq<u8> {
        self.commitment@
    }

    /// The ClientInit that was received.
    pub closed spec fn client_init(self) -> Seq<u8> {
        self.client_init_raw@
    }

    /// The ServerInit that was sent.
    pub closed spec fn server_init(self) -> Seq<u8> {
        self.server_init_raw@
    }

    /// The server's secret scalar.
    pub closed spec fn secret(self) -> Seq<u8> {
        self.secret_key@
    }

    /// Checks the ClientInit and returns the state with the ServerInit to
    /// send, which carries a fresh public key and fresh random bytes.
    pub fn accept_client_init(raw: &[u8]) -> (r: Result<(Self, Vec<u8>), QuickShareCryptoError>)
        ensures
            match client_init_commitment(raw@) {
                Err(e) => r matches Err(x) && x == e,
                Ok(c) => r matches Ok((st, server_init)) && {
                    &&& st.commitment() == c
                    &&& st.client_init() == raw@
                    &&& st.server_init() == server_init@
                    &&& p256_secret_ok(st.secret())
                    &&& p256_public(st.secret()).0.len() == 32
                    &&& p256_public(st.secret()).1.len() == 32
                    &&& p256_on_curve(p256_public(st.secret()).0, p256_public(st.secret()).1)
                    &&& exists|random: Seq<u8>| random.len() == 32
                        && server_init@ == #[trigger] server_init_message(
                            random,
                            p256_public(st.secret()).0,
                            p256_public(st.secret()).1,
                        )
                },
            },
    {
        let commitment = match check_client_init(raw) {
            Ok(c) => c,
            Err(e) => return Err(e),
        };
        let secret_key = p256_random_secret();
        let (x, y) = p256_public_key(&secret_key);
        let public_key = encode_generic_public_key(&x, &y).encode_to_vec();
        let random = random_bytes(32);
        let ghost random_view = random@;
        let server_init = Ukey2ServerInit {
            version: Some(1),
            random: Some(random),
            handshake_cipher: Some(Ukey2HandshakeCipher::P256Sha512.to_i32()),
            public_key: Some(public_key),
        };
        let server_init_raw = Ukey2Message {
            message_type: Some(Ukey2MessageType::ServerInit.to_i32()),
            message_data: Some(server_init.encode_to_vec()),
        }.encode_to_vec();
        assert(server_init_raw@ == server_init_message(random_view, x@, y@));
        assert(server_init_raw@ == server_init_message(
            random_view,
            p256_public(secret_key@).0,
            p256_public(secret_key@).1,
        ));
        let sent = slice_to_vec(server_init_raw.as_slice());
        Ok((
            Ukey2Responder {
                commitment,
                client_init_raw: slice_to_vec(raw),
                server_init_raw,
                secret_key,
            },
            sent,
        ))
    }

    /// Checks the ClientFinish against the commitment, performs ECDH and
    /// returns the channel, the PIN and the hexadecimal SHA-256 fingerprint of
    /// the client's public key.
    pub fn complete(self, client_finish_raw: &[u8]) -> (r: Result<
        (SecureChannel, String, String),
        QuickShareCryptoError,
    >)
        ensures
            match client_finish_point(self.commitment(), client_finish_raw@) {
                Err(e) => r matches Err(x) && x == e,
                Ok((x, y)) => r matches Ok((channel, pin, fingerprint)) && {
                    let shared = handshake_secret(self.secret(), x, y);
                    let transcript = self.client_init() + self.server_init();
                    &&& channel.keys() == session_keys(shared, transcript, true)
                    &&& channel.received() == 0
                    &&& channel.sent() == 0
                    &&& pin@ == pin_text(ukey2_auth_key(shared, transcript))
                    &&& fingerprint@ == hex_text(sha256(sec1_uncompressed(x, y)))
                    &&& fingerprint@.len() == 64
                },
            },
    {
        proof { use_type_invariant(&self); }
        let (x, y) = match check_client_finish(&self.commitment, client_finish_raw) {
            Ok(p) => p,
            Err(e) => return Err(e),
        };
        let shared = p256_diffie_hellman(&self.secret_key, &x, &y);
        let derived_secret = sha256_digest(&shared);
        let ghost init_view = self.client_init_raw@;
        let mut transcript = self.client_init_raw;
        transcript.extend_from_slice(&self.server_init_raw);
        assert(transcript@ =~= init_view + self.server_init_raw@);
        let (keys, auth_key) = match derive_session_keys(&derived_secret, &transcript, true) {
            Ok(k) => k,
            Err(e) => return Err(e),
        };
        let pin = pin_code(&auth_key);
        let mut encoded_point: Vec<u8> = vec![4u8];
        encoded_point.extend_from_slice(&x);
        encoded_point.extend_from_slice(&y);
        assert(encoded_point@ =~= sec1_uncompressed(x@, y@));
        let digest = sha256_digest(&encoded_point);
        let fingerprint = hex_lower(&digest);
        proof {
            lemma_hex_text_len(digest@);
        }
        Ok((SecureChannel::new(keys), pin, fingerprint))
    }
}


// ---------------------------------------------------------------------------
// Honest peers agree.
// ---------------------------------------------------------------------------

/// A varint takes at most ten bytes.
proof fn lemma_varint_len(v: u64)
    ensures
        varint_bytes(v).len() <= 10,
{
    lemma_varint_len_bound(v, 10);
}

proof fn lemma_varint_len_bound(v: u64, k: nat)
    requires
        1 <= k <= 10,
        k == 10 || v < pow128(k),
    ensures
        varint_bytes(v).len() <= k,
    decreases k,
{
    if v >= 128 {
        assert(k > 1) by {
            if k == 1 {
                reveal_with_fuel(pow128, 2);
            }
        };
        if k < 10 {
            assert(pow128(k) == 128 * pow128((k - 1) as nat));
            assert(v / 128 < pow128((k - 1) as nat));
        } else {
            assert(v / 128 < pow128(9)) by {
                reveal_with_fuel(pow128, 10);
            }
        }
        lemma_varint_len_bound(v / 128, (k - 1) as nat);
    }
}

/// Records whose values are varints or byte strings of at most `k` bytes
/// take at most `20 + k` bytes each.
proof fn lemma_fields_len(fs: Seq<FieldModel>, k: nat)
    requires
        forall|i: int| 0 <= i < fs.len() ==> (#[trigger] fs[i]).value is Varint
            || (fs[i].value matches WireValueModel::LengthDelimited(b) && b.len() <= k),
    ensures
        fields_bytes(fs).len() <= fs.len() * (20 + k),
    decreases fs.len(),
{
    if fs.len() > 0 {
        let f = fs[0];
        lemma_fields_len(fs.drop_first(), k);
        match f.value {
            WireValueModel::Varint(v) => {
                lemma_varint_len((f.number * 8 + 0) as u64);
                lemma_varint_len(v);
            },
            WireValueModel::LengthDelimited(b) => {
                lemma_varint_len((f.number * 8 + 2) as u64);
                lemma_varint_len(b.len() as u64);
            },
            _ => {},
        }
        assert(fs.len() * (20 + k) == (20 + k) + (fs.len() - 1) * (20 + k)) by (nonlinear_arith);
    }
}

/// The wire form of an honest public key is small and well formed.
proof fn lemma_generic_key_small(x: Seq<u8>, y: Seq<u8>)
    requires
        x.len() == 32,
        y.len() == 32,
    ensures
        generic_key_of(x, y).wf(),
        generic_key_of(x, y).encoding().len() <= 300,
{
    let ec = EcP256PublicKeyModel { x: signed_coordinate_of(x), y: signed_coordinate_of(y) };
    assert(ec.records().len() == 2);
    lemma_fields_len(ec.records(), 33);
    assert(ec.encoding().len() <= 106);
    assert(ec.wf());
    let g = generic_key_of(x, y);
    assert(g.records().len() == 2);
    lemma_fields_len(g.records(), 106);
    assert(g.encoding().len() <= 252);
}

/// The `"AES_256_CBC-HMAC_SHA256"` protocol name is 23 ASCII bytes.
proof fn lemma_next_protocol_len()
    ensures
        encode_utf8(next_protocol()).len() == 23,
{
    assert(is_ascii_chars(next_protocol()));
    is_ascii_chars_encode_utf8(next_protocol());
}

/// An honest ClientInit passes the server's checks with its commitment.
/// A ClientInit that the initiator writes is read back with its commitment.
pub proof fn lemma_client_init_accepted(random: Seq<u8>, commitment: Seq<u8>)
    requires
        random.len() == 32,
        commitment.len() == 64,
    ensures
        client_init_commitment(client_init_message(random, commitment)) == Ok::<Seq<u8>, QuickShareCryptoError>(
            commitment,
        ),
{
    let d = RECURSION_BUDGET as nat;
    let cc = p256_commitment(commitment);
    assert(cc.records().len() == 2);
    lemma_fields_len(cc.records(), 64);
    assert(cc.encoding().len() <= 168);
    assert(cc.wf());
    let init = Ukey2ClientInitModel {
        version: Some(1),
        random: Some(random),
        cipher_commitments: seq![cc],
        next_protocol: Some(next_protocol()),
    };
    lemma_next_protocol_len();
    assert(init.records().len() == 4);
    lemma_fields_len(init.records(), 168);
    assert(init.encoding().len() <= 752);
    assert(init.wf());
    init.lemma_round_trip(d);
    let outer = Ukey2MessageModel {
        message_type: Some(Ukey2MessageType::ClientInit.code()),
        message_data: Some(init.encoding()),
    };
    assert(outer.records().len() == 2);
    lemma_fields_len(outer.records(), 1000);
    assert(outer.wf());
    outer.lemma_round_trip(d);
    assert(first_p256_commitment(seq![cc]) == Some(commitment));
}

/// An honest ServerInit passes the client's checks with the server's key.
/// A ServerInit that the responder writes is read back with its point.
pub proof fn lemma_server_init_accepted(random: Seq<u8>, x: Seq<u8>, y: Seq<u8>)
    requires
        random.len() == 32,
        x.len() == 32,
        y.len() == 32,
        p256_on_curve(x, y),
    ensures
        server_init_point(server_init_message(random, x, y)) == Ok::<(Seq<u8>, Seq<u8>), QuickShareCryptoError>(
            (x, y),
        ),
{
    let d = RECURSION_BUDGET as nat;
    let g = generic_key_of(x, y);
    lemma_generic_key_small(x, y);
    g.lemma_round_trip(d);
    lemma_generic_key_round_trip(x, y);
    let init = Ukey2ServerInitModel {
        version: Some(1),
        random: Some(random),
        handshake_cipher: Some(Ukey2HandshakeCipher::P256Sha512.code()),
        public_key: Some(g.encoding()),
    };
    assert(init.records().len() == 4);
    lemma_fields_len(init.records(), 300);
    assert(init.encoding().len() <= 1280);
    assert(init.wf());
    init.lemma_round_trip(d);
    let outer = Ukey2MessageModel {
        message_type: Some(Ukey2MessageType::ServerInit.code()),
        message_data: Some(init.encoding()),
    };
    assert(outer.records().len() == 2);
    lemma_fields_len(outer.records(), 2000);
    assert(outer.wf());
    outer.lemma_round_trip(d);
}

/// An honest ClientFinish passes the server's checks against its own
/// commitment, with the client's key.
/// A ClientFinish that the initiator writes matches the commitment to it and
/// is read back with its point.
pub proof fn lemma_client_finish_accepted(x: Seq<u8>, y: Seq<u8>)
    requires
        x.len() == 32,
        y.len() == 32,
        p256_on_curve(x, y),
    ensures
        client_finish_point(sha512(client_finish_message(x, y)), client_finish_message(x, y)) == Ok::<
            (Seq<u8>, Seq<u8>),
            QuickShareCryptoError,
        >((x, y)),
{
    let d = RECURSION_BUDGET as nat;
    let g = generic_key_of(x, y);
    lemma_generic_key_small(x, y);
    g.lemma_round_trip(d);
    lemma_generic_key_round_trip(x, y);
    let fin = Ukey2ClientFinishedModel { public_key: Some(g.encoding()) };
    assert(fin.records().len() == 1);
    lemma_fields_len(fin.records(), 300);
    assert(fin.encoding().len() <= 320);
    assert(fin.wf());
    fin.lemma_round_trip(d);
    let outer = Ukey2MessageModel {
        message_type: Some(Ukey2MessageType::ClientFinish.code()),
        message_data: Some(fin.encoding()),
    };
    assert(outer.records().len() == 2);
    lemma_fields_len(outer.records(), 400);
    assert(outer.wf());
    outer.lemma_round_trip(d);
}

/// UKEY2 between an honest client and an honest server succeeds and gives
/// them matching channels: the server accepts the client's ClientInit with
/// the commitment to its ClientFinish, the client accepts the ServerInit
/// with the server's key, the server accepts the ClientFinish with the
/// client's key, and each side receives what the other sends and shows the
/// same PIN. The premises are what the P-256 and SHA-512 items state of
/// their results: public keys are 32-byte coordinates on the curve, a
/// SHA-512 digest is 64 bytes, and both sides of ECDH compute the same
/// secret.
pub proof fn lemma_handshake_agreement(
    client_secret: Seq<u8>,
    server_secret: Seq<u8>,
    client_random: Seq<u8>,
    server_random: Seq<u8>,
)
    requires
        p256_secret_ok(client_secret),
        p256_secret_ok(server_secret),
        client_random.len() == 32,
        server_random.len() == 32,
        p256_public(client_secret).0.len() == 32,
        p256_public(client_secret).1.len() == 32,
        p256_on_curve(p256_public(client_secret).0, p256_public(client_secret).1),
        p256_public(server_secret).0.len() == 32,
        p256_public(server_secret).1.len() == 32,
        p256_on_curve(p256_public(server_secret).0, p256_public(server_secret).1),
        sha512(client_finish_message(p256_public(client_secret).0, p256_public(client_secret).1)).len() == 64,
        handshake_secret(client_secret, p256_public(server_secret).0, p256_public(server_secret).1)
            == handshake_secret(server_secret, p256_public(client_secret).0, p256_public(client_secret).1),
    ensures
        ({
            let (cx, cy) = p256_public(client_secret);
            let (sx, sy) = p256_public(server_secret);
            let finish = client_finish_message(cx, cy);
            let commitment = sha512(finish);
            let init = client_init_message(client_random, commitment);
            let server_init = server_init_message(server_random, sx, sy);
            let transcript = init + server_init;
            let client_shared = handshake_secret(client_secret, sx, sy);
            let server_shared = handshake_secret(server_secret, cx, cy);
            &&& client_init_commitment(init) == Ok::<Seq<u8>, QuickShareCryptoError>(commitment)
            &&& server_init_point(server_init) == Ok::<(Seq<u8>, Seq<u8>), QuickShareCryptoError>((sx, sy))
            &&& client_finish_point(commitment, finish) == Ok::<(Seq<u8>, Seq<u8>), QuickShareCryptoError>((cx, cy))
            &&& receives_from(session_keys(server_shared, transcript, true), session_keys(client_shared, transcript, false))
            &&& receives_from(session_keys(client_shared, transcript, false), session_keys(server_shared, transcript, true))
            &&& pin_text(ukey2_auth_key(client_shared, transcript)) == pin_text(ukey2_auth_key(server_shared, transcript))
        }),
{
    let (cx, cy) = p256_public(client_secret);
    let (sx, sy) = p256_public(server_secret);
    let finish = client_finish_message(cx, cy);
    lemma_client_init_accepted(client_random, sha512(finish));
    lemma_server_init_accepted(server_random, sx, sy);
    lemma_client_finish_accepted(cx, cy);
    let transcript = client_init_message(client_random, sha512(finish)) + server_init_message(server_random, sx, sy);
    lemma_session_keys_mirror(handshake_secret(client_secret, sx, sy), transcript);
}


/// What a handshake or channel error reads as.
pub open spec fn crypto_error_text(e: QuickShareCryptoError) -> Seq<char> {
    match e {
        QuickShareCryptoError::Protobuf(_) => "invalid protobuf: "@ + decode_error_text(),
        QuickShareCryptoError::UnexpectedUkey2Message => "unexpected UKEY2 message type"@,
        QuickShareCryptoError::InvalidClientInit => "unsupported or malformed UKEY2 client init"@,
        QuickShareCryptoError::CommitmentMismatch => "UKEY2 client-finish commitment did not match"@,
        QuickShareCryptoError::InvalidPublicKey => "invalid P-256 public key"@,
        QuickShareCryptoError::KeyDerivation => "key derivation failed"@,
        QuickShareCryptoError::InvalidSecureMessage => "invalid SecureMessage envelope"@,
        QuickShareCryptoError::AuthenticationFailed => "SecureMessage authentication failed"@,
        QuickShareCryptoError::DecryptionFailed => "SecureMessage decryption failed"@,
        QuickShareCryptoError::SequenceMismatch { expected, actual } => "unexpected encrypted sequence number: expected "@
            + signed_decimal_text(expected as int) + ", got "@ + signed_decimal_text(actual as int),
    }
}

impl QuickShareCryptoError {
    /// The error as a sentence.
    pub fn describe(&self) -> (r: String)
        ensures
            r@ == crypto_error_text(*self),
    {
        match self {
            QuickShareCryptoError::Protobuf(e) => {
                let mut s = String::from_str("invalid protobuf: ");
                s.append(e.describe().as_str());
                s
            },
            QuickShareCryptoError::UnexpectedUkey2Message => String::from_str("unexpected UKEY2 message type"),
            QuickShareCryptoError::InvalidClientInit => String::from_str("unsupported or malformed UKEY2 client init"),
            QuickShareCryptoError::CommitmentMismatch => String::from_str("UKEY2 client-finish commitment did not match"),
            QuickShareCryptoError::InvalidPublicKey => String::from_str("invalid P-256 public key"),
            QuickShareCryptoError::KeyDerivation => String::from_str("key derivation failed"),
            QuickShareCryptoError::InvalidSecureMessage => String::from_str("invalid SecureMessage envelope"),
            QuickShareCryptoError::AuthenticationFailed => String::from_str("SecureMessage authentication failed"),
            QuickShareCryptoError::DecryptionFailed => String::from_str("SecureMessage decryption failed"),
            QuickShareCryptoError::SequenceMismatch { expected, actual } => {
                let mut s = String::from_str("unexpected encrypted sequence number: expected ");
                push_signed_decimal(&mut s, *expected);
                s.append(", got ");
                push_signed_decimal(&mut s, *actual);
                s
            },
        }
    }
}

} // verus!
