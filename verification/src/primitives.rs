//! Calls into std and into the outside crates whose results the library
//! relies on: encodings, hashes, key derivation, ciphers, elliptic-curve
//! operations and randomness. Each item states what its contract claims of the
//! outside function; nothing here is proved.

use vstd::prelude::*;
use vstd::utf8::{encode_utf8, valid_utf8};
use crate::quick_share_transport::{IoErrorKind, IoFailure};
use base64::Engine;
use cbc::cipher::block_padding::Pkcs7;
use cbc::cipher::{BlockDecryptMut, BlockEncryptMut, KeyIvInit};
use aes_gcm::aead::{Aead, KeyInit};
use hmac::Mac;
use p256::elliptic_curve::sec1::ToEncodedPoint;
use p256::ecdsa::signature::Signer;
use rand::RngCore;
use sha2::Digest;

verus! {

/// `String::from_utf8` (std): a string exactly when the bytes are valid UTF-8,
/// and then the string whose UTF-8 encoding is those bytes.
#[verifier::external_body]
pub(crate) fn string_from_utf8(bytes: Vec<u8>) -> (r: Option<String>)
    ensures
        r is Some <==> valid_utf8(bytes@),
        r matches Some(s) ==> encode_utf8(s@) == bytes@,
{
    String::from_utf8(bytes).ok()
}

/// `String::push` (std): appends one character.
#[verifier::external_body]
pub(crate) fn push_char(s: &mut String, c: char)
    ensures
        final(s)@ == old(s)@.push(c),
{
    s.push(c)
}

#[verifier::external_type_specification]
#[verifier::external_body]
pub struct ExIoError(std::io::Error);

/// Converts a std I/O error to its kind and description (`io::Error::kind`,
/// `ToString`); the contract claims nothing.
#[verifier::external_body]
pub(crate) fn io_failure(e: std::io::Error) -> IoFailure {
    let kind = match e.kind() {
        std::io::ErrorKind::UnexpectedEof => IoErrorKind::UnexpectedEof,
        std::io::ErrorKind::ConnectionReset => IoErrorKind::ConnectionReset,
        std::io::ErrorKind::ConnectionAborted => IoErrorKind::ConnectionAborted,
        std::io::ErrorKind::BrokenPipe => IoErrorKind::BrokenPipe,
        std::io::ErrorKind::WouldBlock => IoErrorKind::WouldBlock,
        std::io::ErrorKind::TimedOut => IoErrorKind::TimedOut,
        _ => IoErrorKind::Other,
    };
    IoFailure { kind, message: e.to_string() }
}

/// `Read::read_exact` (std): either exactly `len` bytes from the reader or a
/// failure. What the bytes are depends on the reader, so nothing more is said.
#[verifier::external_body]
pub(crate) fn read_exact_bytes<R: std::io::Read>(reader: &mut R, len: usize) -> (r: Result<
    Vec<u8>,
    IoFailure,
>)
    ensures
        r matches Ok(v) ==> v@.len() == len,
{
    let mut buf = vec![0u8; len];
    match reader.read_exact(&mut buf) {
        Ok(()) => Ok(buf),
        Err(e) => Err(io_failure(e)),
    }
}

/// `Write::write_all` (std): writes all of `bytes` or fails; the contract
/// claims nothing of the writer.
#[verifier::external_body]
pub(crate) fn write_all_bytes<W: std::io::Write>(writer: &mut W, bytes: &[u8]) -> Result<
    (),
    IoFailure,
> {
    writer.write_all(bytes).map_err(io_failure)
}

/// `Write::flush` (std); the contract claims nothing.
#[verifier::external_body]
pub(crate) fn flush_writer<W: std::io::Write>(writer: &mut W) -> Result<(), IoFailure> {
    writer.flush().map_err(io_failure)
}

// ---------------------------------------------------------------------------
// Base64, URL-safe alphabet, no padding (RFC 4648 section 5).
// ---------------------------------------------------------------------------

/// The character of a six-bit value in the URL-safe alphabet.
pub open spec fn b64_char(v: int) -> char {
    if v < 26 {
        (65 + v) as char
    } else if v < 52 {
        (97 + v - 26) as char
    } else if v < 62 {
        (48 + v - 52) as char
    } else if v == 62 {
        '-'
    } else {
        '_'
    }
}

/// URL-safe base64 of `b` without padding: each group of three bytes gives
/// four characters, a final group of two gives three and one gives two.
pub open spec fn b64url(b: Seq<u8>) -> Seq<char>
    decreases b.len(),
{
    if b.len() == 0 {
        Seq::empty()
    } else if b.len() == 1 {
        seq![b64_char(b[0] as int / 4), b64_char((b[0] % 4) * 16)]
    } else if b.len() == 2 {
        seq![
            b64_char(b[0] as int / 4),
            b64_char((b[0] % 4) * 16 + b[1] / 16),
            b64_char((b[1] as int % 16) * 4),
        ]
    } else {
        seq![
            b64_char(b[0] as int / 4),
            b64_char((b[0] % 4) * 16 + b[1] / 16),
            b64_char((b[1] % 16) * 4 + b[2] / 64),
            b64_char(b[2] as int % 64),
        ] + b64url(b.subrange(3, b.len() as int))
    }
}

/// Distinct six-bit values have distinct characters.
pub proof fn lemma_b64_char_injective(u: int, v: int)
    requires
        0 <= u < 64,
        0 <= v < 64,
        b64_char(u) == b64_char(v),
    ensures
        u == v,
{
}

/// The length of the encoding: four characters per full group of three
/// bytes, and two or three for a final partial group.
pub proof fn lemma_b64url_len(b: Seq<u8>)
    ensures
        b64url(b).len() == 4 * (b.len() / 3) + (if b.len() % 3 == 0 {
            0int
        } else if b.len() % 3 == 1 {
            2int
        } else {
            3int
        }),
    decreases b.len(),
{
    if b.len() >= 3 {
        lemma_b64url_len(b.subrange(3, b.len() as int));
    }
}

/// Different byte strings have different encodings.
pub proof fn lemma_b64url_injective(a: Seq<u8>, b: Seq<u8>)
    requires
        b64url(a) == b64url(b),
    ensures
        a == b,
    decreases a.len(),
{
    lemma_b64url_len(a);
    lemma_b64url_len(b);
    assert(a.len() == b.len());
    let ea = b64url(a);
    let eb = b64url(b);
    if a.len() == 0 {
        assert(a =~= b);
    } else {
        assert(ea[0] == eb[0]);
        assert(ea[1] == eb[1]);
        lemma_b64_char_injective(a[0] as int / 4, b[0] as int / 4);
        if a.len() == 1 {
            lemma_b64_char_injective((a[0] as int % 4) * 16, (b[0] as int % 4) * 16);
            assert(a =~= b);
        } else {
            lemma_b64_char_injective((a[0] as int % 4) * 16 + a[1] as int / 16, (b[0] as int % 4) * 16 + b[1] as int / 16);
            assert(ea[2] == eb[2]);
            if a.len() == 2 {
                lemma_b64_char_injective((a[1] as int % 16) * 4, (b[1] as int % 16) * 4);
                assert(a =~= b);
            } else {
                assert(ea[3] == eb[3]);
                lemma_b64_char_injective((a[1] as int % 16) * 4 + a[2] as int / 64, (b[1] as int % 16) * 4 + b[2] as int / 64);
                lemma_b64_char_injective(a[2] as int % 64, b[2] as int % 64);
                let ra = a.subrange(3, a.len() as int);
                let rb = b.subrange(3, b.len() as int);
                assert(b64url(ra) =~= ea.subrange(4, ea.len() as int));
                assert(b64url(rb) =~= eb.subrange(4, eb.len() as int));
                lemma_b64url_injective(ra, rb);
                assert(a[0] == b[0]);
                assert(a[1] == b[1]);
                assert(a[2] == b[2]);
                assert forall|k: int| 0 <= k < a.len() implies a[k] == b[k] by {
                    if k >= 3 {
                        assert(a[k] == ra[k - 3]);
                        assert(b[k] == rb[k - 3]);
                    }
                }
                assert(a =~= b);
            }
        }
    }
}

/// `URL_SAFE_NO_PAD.encode` (base64): the unpadded URL-safe encoding.
#[verifier::external_body]
pub(crate) fn base64url_encode(bytes: &[u8]) -> (r: String)
    ensures
        r@ == b64url(bytes@),
{
    base64::engine::general_purpose::URL_SAFE_NO_PAD.encode(bytes)
}

/// `URL_SAFE_NO_PAD.decode` (base64): the engine refuses padding and
/// non-canonical trailing bits, so it returns the bytes whose encoding is the
/// text exactly when there are such bytes.
#[verifier::external_body]
pub(crate) fn base64url_decode(text: &str) -> (r: Option<Vec<u8>>)
    ensures
        r matches Some(b) ==> b64url(b@) == text@,
        r is None ==> forall|b: Seq<u8>| b64url(b) != text@,
{
    base64::engine::general_purpose::URL_SAFE_NO_PAD.decode(text).ok()
}

// ---------------------------------------------------------------------------
// Hashes and key derivation.
// ---------------------------------------------------------------------------

/// SHA-256 of a message.
pub uninterp spec fn sha256(data: Seq<u8>) -> Seq<u8>;

/// SHA-512 of a message.
pub uninterp spec fn sha512(data: Seq<u8>) -> Seq<u8>;

/// HKDF-SHA256 (RFC 5869): `len` bytes expanded with `info` from the key
/// extracted from `ikm` with `salt` (`None`: no salt).
pub uninterp spec fn hkdf_sha256(salt: Option<Seq<u8>>, ikm: Seq<u8>, info: Seq<u8>, len: nat) -> Seq<u8>;

/// HMAC-SHA256 tag of `data` under `key`.
pub uninterp spec fn hmac_sha256(key: Seq<u8>, data: Seq<u8>) -> Seq<u8>;

/// `Sha256::digest` (sha2): the 32-byte digest.
#[verifier::external_body]
pub(crate) fn sha256_digest(data: &[u8]) -> (r: Vec<u8>)
    ensures
        r@ == sha256(data@),
        r@.len() == 32,
{
    sha2::Sha256::digest(data).to_vec()
}

/// `Sha512::digest` (sha2): the 64-byte digest.
#[verifier::external_body]
pub(crate) fn sha512_digest(data: &[u8]) -> (r: Vec<u8>)
    ensures
        r@ == sha512(data@),
        r@.len() == 64,
{
    sha2::Sha512::digest(data).to_vec()
}

/// `Hkdf::<Sha256>::new(salt, ikm).expand(info, ..)` (hkdf) into `len` bytes.
/// The crate refuses only outputs longer than 255 hash lengths.
#[verifier::external_body]
pub(crate) fn hkdf_sha256_expand(salt: Option<&[u8]>, ikm: &[u8], info: &[u8], len: usize) -> (r: Vec<u8>)
    requires
        len <= 255 * 32,
    ensures
        r@ == hkdf_sha256(
            match salt {
                Some(s) => Some(s@),
                None => None,
            },
            ikm@,
            info@,
            len as nat,
        ),
        r@.len() == len,
{
    let mut out = vec![0u8; len];
    hkdf::Hkdf::<sha2::Sha256>::new(salt, ikm).expand(info, &mut out).expect("length within the HKDF limit");
    out
}

/// `Hmac::<Sha256>` (hmac): the 32-byte tag of `data` under `key`; HMAC takes
/// keys of any length.
#[verifier::external_body]
pub(crate) fn hmac_sha256_tag(key: &[u8], data: &[u8]) -> (r: Vec<u8>)
    ensures
        r@ == hmac_sha256(key@, data@),
        r@.len() == 32,
{
    let mut mac = <hmac::Hmac<sha2::Sha256> as Mac>::new_from_slice(key).expect("HMAC takes any key length");
    mac.update(data);
    mac.finalize().into_bytes().to_vec()
}

/// `Mac::verify_slice` (digest, for `Hmac<Sha256>`): true exactly when the tag
/// equals the HMAC of `data` under `key`, compared in constant time.
#[verifier::external_body]
pub(crate) fn hmac_sha256_verify(key: &[u8], data: &[u8], tag: &[u8]) -> (r: bool)
    ensures
        r == (tag@ == hmac_sha256(key@, data@)),
{
    let mut mac = <hmac::Hmac<sha2::Sha256> as Mac>::new_from_slice(key).expect("HMAC takes any key length");
    mac.update(data);
    mac.verify_slice(tag).is_ok()
}

// ---------------------------------------------------------------------------
// Ciphers.
// ---------------------------------------------------------------------------

/// AES-256-CBC encryption with PKCS#7 padding.
pub uninterp spec fn aes256_cbc_seal(key: Seq<u8>, iv: Seq<u8>, plaintext: Seq<u8>) -> Seq<u8>;

/// AES-256-CBC decryption with PKCS#7 padding; `None` when the padding is bad.
pub uninterp spec fn aes256_cbc_open(key: Seq<u8>, iv: Seq<u8>, ciphertext: Seq<u8>) -> Option<Seq<u8>>;

/// AES-128-GCM decryption of `ciphertext` (tag appended) with associated data
/// `aad`; `None` when authentication fails.
pub uninterp spec fn aes128_gcm_open(key: Seq<u8>, nonce: Seq<u8>, ciphertext: Seq<u8>, aad: Seq<u8>) -> Option<Seq<u8>>;

/// `cbc::Encryptor::<Aes256>::encrypt_padded_vec_mut::<Pkcs7>` (cbc): the
/// ciphertext, which decryption with the same key and IV turns back into the
/// plaintext.
#[verifier::external_body]
pub(crate) fn aes256_cbc_encrypt(key: &[u8], iv: &[u8], plaintext: &[u8]) -> (r: Vec<u8>)
    requires
        key@.len() == 32,
        iv@.len() == 16,
    ensures
        r@ == aes256_cbc_seal(key@, iv@, plaintext@),
        aes256_cbc_open(key@, iv@, r@) == Some(plaintext@),
{
    cbc::Encryptor::<aes::Aes256>::new_from_slices(key, iv).expect("key and IV lengths").encrypt_padded_vec_mut::<Pkcs7>(plaintext)
}

/// `cbc::Decryptor::<Aes256>::decrypt_padded_vec_mut::<Pkcs7>` (cbc): the
/// plaintext, or `None` on a bad length or padding.
#[verifier::external_body]
pub(crate) fn aes256_cbc_decrypt(key: &[u8], iv: &[u8], ciphertext: &[u8]) -> (r: Option<Vec<u8>>)
    requires
        key@.len() == 32,
        iv@.len() == 16,
    ensures
        match aes256_cbc_open(key@, iv@, ciphertext@) {
            Some(p) => r matches Some(v) && v@ == p,
            None => r is None,
        },
{
    cbc::Decryptor::<aes::Aes256>::new_from_slices(key, iv).expect("key and IV lengths").decrypt_padded_vec_mut::<Pkcs7>(ciphertext).ok()
}

/// `Aes128Gcm::decrypt` (aes-gcm) with a 12-byte nonce.
#[verifier::external_body]
pub(crate) fn aes128_gcm_decrypt(key: &[u8], nonce: &[u8], ciphertext: &[u8], aad: &[u8]) -> (r: Option<Vec<u8>>)
    requires
        key@.len() == 16,
        nonce@.len() == 12,
    ensures
        match aes128_gcm_open(key@, nonce@, ciphertext@, aad@) {
            Some(p) => r matches Some(v) && v@ == p,
            None => r is None,
        },
{
    let cipher = aes_gcm::Aes128Gcm::new_from_slice(key).expect("16-byte key");
    cipher.decrypt(aes_gcm::Nonce::from_slice(nonce), aes_gcm::aead::Payload { msg: ciphertext, aad }).ok()
}

// ---------------------------------------------------------------------------
// Randomness.
// ---------------------------------------------------------------------------

/// `OsRng::fill_bytes` (rand): `len` bytes from the operating system; what
/// they are is left open.
#[verifier::external_body]
pub(crate) fn random_bytes(len: usize) -> (r: Vec<u8>)
    ensures
        r@.len() == len,
{
    let mut out = vec![0u8; len];
    rand::rngs::OsRng.fill_bytes(&mut out);
    out
}

/// `OsRng::next_u64` (rand): a random number; which one is left open.
#[verifier::external_body]
pub(crate) fn random_u64() -> u64 {
    rand::rngs::OsRng.next_u64()
}

// ---------------------------------------------------------------------------
// NIST P-256.
// ---------------------------------------------------------------------------

/// The big-endian value of a byte string.
pub open spec fn be_value(s: Seq<u8>) -> nat
    decreases s.len(),
{
    if s.len() == 0 {
        0
    } else {
        be_value(s.drop_last()) * 256 + s.last() as nat
    }
}

/// The order of the P-256 group.
pub open spec fn p256_order() -> nat {
    0xFFFFFFFF00000000FFFFFFFFFFFFFFFFBCE6FAADA7179E84F3B9CAC2FC632551nat
}

/// A P-256 secret key: a 32-byte big-endian scalar in `1..n`.
pub open spec fn p256_secret_ok(s: Seq<u8>) -> bool {
    s.len() == 32 && 0 < be_value(s) < p256_order()
}

/// The affine coordinates `(x, y)`, 32 bytes each, of the public key of a
/// secret scalar.
pub uninterp spec fn p256_public(secret: Seq<u8>) -> (Seq<u8>, Seq<u8>);

/// Whether 32-byte coordinates `(x, y)` name a point of the curve.
pub uninterp spec fn p256_on_curve(x: Seq<u8>, y: Seq<u8>) -> bool;

/// The ECDH shared secret (the x coordinate of `secret * (x, y)`).
pub uninterp spec fn p256_ecdh(secret: Seq<u8>, x: Seq<u8>, y: Seq<u8>) -> Seq<u8>;

/// The deterministic (RFC 6979) ECDSA-SHA256 signature `r || s`.
pub uninterp spec fn p256_ecdsa_sign(secret: Seq<u8>, message: Seq<u8>) -> Seq<u8>;

/// SEC1 compressed encoding of a point: `2` or `3` by the parity of `y`,
/// then `x`.
pub open spec fn sec1_compressed(x: Seq<u8>, y: Seq<u8>) -> Seq<u8> {
    seq![if y.len() > 0 && y.last() % 2 == 1 { 3u8 } else { 2u8 }] + x
}

/// `SecretKey::random` (p256 / elliptic-curve): a fresh secret scalar, as its
/// 32 big-endian bytes; which one is left open.
#[verifier::external_body]
pub(crate) fn p256_random_secret() -> (r: Vec<u8>)
    ensures
        p256_secret_ok(r@),
{
    p256::SecretKey::random(&mut rand::rngs::OsRng).to_bytes().to_vec()
}

/// `SecretKey::public_key` and `to_encoded_point(false)` (p256): the affine
/// coordinates of the public key, which lie on the curve.
#[verifier::external_body]
pub(crate) fn p256_public_key(secret: &[u8]) -> (r: (Vec<u8>, Vec<u8>))
    requires
        p256_secret_ok(secret@),
    ensures
        (r.0@, r.1@) == p256_public(secret@),
        r.0@.len() == 32,
        r.1@.len() == 32,
        p256_on_curve(r.0@, r.1@),
{
    let point = p256::SecretKey::from_slice(secret).expect("valid scalar").public_key().to_encoded_point(false);
    (point.x().expect("affine x").to_vec(), point.y().expect("affine y").to_vec())
}

/// `PublicKey::from_sec1_bytes` (p256) on the uncompressed encoding
/// `04 || x || y`: accepted exactly when the point is on the curve.
#[verifier::external_body]
pub(crate) fn p256_point_check(x: &[u8], y: &[u8]) -> (r: bool)
    requires
        x@.len() == 32,
        y@.len() == 32,
    ensures
        r == p256_on_curve(x@, y@),
{
    let point = p256::EncodedPoint::from_affine_coordinates(p256::FieldBytes::from_slice(x), p256::FieldBytes::from_slice(y), false);
    p256::PublicKey::from_sec1_bytes(point.as_bytes()).is_ok()
}

/// `ecdh::diffie_hellman` (p256): the 32-byte shared secret. Both sides of an
/// exchange compute the same value.
#[verifier::external_body]
pub(crate) fn p256_diffie_hellman(secret: &[u8], x: &[u8], y: &[u8]) -> (r: Vec<u8>)
    requires
        p256_secret_ok(secret@),
        x@.len() == 32,
        y@.len() == 32,
        p256_on_curve(x@, y@),
    ensures
        r@ == p256_ecdh(secret@, x@, y@),
        r@.len() == 32,
        forall|other: Seq<u8>|
            p256_secret_ok(other) && #[trigger] p256_public(other) == (x@, y@) ==> r@ == p256_ecdh(
                other,
                p256_public(secret@).0,
                p256_public(secret@).1,
            ),
{
    let sk = p256::SecretKey::from_slice(secret).expect("valid scalar");
    let point = p256::EncodedPoint::from_affine_coordinates(p256::FieldBytes::from_slice(x), p256::FieldBytes::from_slice(y), false);
    let peer = p256::PublicKey::from_sec1_bytes(point.as_bytes()).expect("point on the curve");
    p256::ecdh::diffie_hellman(sk.to_nonzero_scalar(), peer.as_affine()).raw_secret_bytes().to_vec()
}

/// `SigningKey::sign` (p256 ecdsa): the 64-byte `r || s` signature of the
/// message.
#[verifier::external_body]
pub(crate) fn p256_sign(secret: &[u8], message: &[u8]) -> (r: Vec<u8>)
    requires
        p256_secret_ok(secret@),
    ensures
        r@ == p256_ecdsa_sign(secret@, message@),
        r@.len() == 64,
{
    let key = p256::ecdsa::SigningKey::from(&p256::SecretKey::from_slice(secret).expect("valid scalar"));
    let signature: p256::ecdsa::Signature = key.sign(message);
    signature.to_bytes().to_vec()
}

} // verus!
