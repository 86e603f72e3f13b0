use vstd::prelude::*;

use aes_gcm::aead::{Aead, KeyInit, Payload};
use base64::Engine;
use hkdf::Hkdf;
use rand_core::RngCore;
use curve25519_dalek::edwards::CompressedEdwardsY;
use curve25519_dalek::scalar::Scalar;
use ed25519_dalek::Verifier;
use sha2::Digest;

verus! {

/// SHA-256 digest of a byte string.
pub uninterp spec fn sha256_spec(data: Seq<u8>) -> Seq<u8>;

/// SHA-512 digest of a byte string.
pub uninterp spec fn sha512_spec(data: Seq<u8>) -> Seq<u8>;

/// First 64 bytes of HKDF-SHA256 (RFC 5869) with the given salt and input
/// keying material, and empty info.
pub uninterp spec fn hkdf_sha256_64_spec(salt: Seq<u8>, ikm: Seq<u8>) -> Seq<u8>;

/// AES-256-GCM ciphertext (with appended 16-byte tag) of `msg`.
pub uninterp spec fn aes_gcm_seal(key: Seq<u8>, nonce: Seq<u8>, msg: Seq<u8>, aad: Seq<u8>) -> Seq<u8>;

/// AES-256-GCM decryption: the plaintext, or `None` when authentication fails.
pub uninterp spec fn aes_gcm_open(key: Seq<u8>, nonce: Seq<u8>, ct: Seq<u8>, aad: Seq<u8>) -> Option<Seq<u8>>;

/// X25519 shared secret of a private scalar (clamped by the function) and a peer public key.
pub uninterp spec fn x25519_spec(private: Seq<u8>, peer_public: Seq<u8>) -> Seq<u8>;

/// X25519 public key of a private scalar.
pub uninterp spec fn x25519_public_spec(private: Seq<u8>) -> Seq<u8>;

/// Largest plaintext (and associated data) that AES-GCM accepts, in bytes.
pub open spec fn aes_gcm_max_len() -> nat {
    68719476736
}

/// `sha2::Sha256::digest`: the SHA-256 digest of `data`.
#[verifier::external_body]
pub(crate) fn sha256(data: &[u8]) -> (r: [u8; 32])
    ensures
        r@ == sha256_spec(data@),
{
    let digest = sha2::Sha256::digest(data);
    let mut out = [0u8; 32];
    out.copy_from_slice(&digest);
    out
}

/// `sha2::Sha512::digest`: the SHA-512 digest of `data`.
#[verifier::external_body]
pub(crate) fn sha512(data: &[u8]) -> (r: [u8; 64])
    ensures
        r@ == sha512_spec(data@),
{
    let digest = sha2::Sha512::digest(data);
    let mut out = [0u8; 64];
    out.copy_from_slice(&digest);
    out
}

/// `hkdf::Hkdf::<Sha256>::new(Some(salt), ikm).expand(&[], 64 bytes)`.
/// Expanding to 64 bytes never fails (the limit is 255 * 32 bytes).
#[verifier::external_body]
pub(crate) fn hkdf_sha256_64(salt: &[u8; 32], ikm: &[u8]) -> (r: [u8; 64])
    ensures
        r@ == hkdf_sha256_64_spec(salt@, ikm@),
{
    let hk = Hkdf::<sha2::Sha256>::new(Some(salt), ikm);
    let mut output = [0_u8; 64];
    let _ = hk.expand(&[], &mut output);
    output
}

/// `aes_gcm::Aes256Gcm::encrypt`: fails only when the message or the associated
/// data exceeds 2^36 bytes; the ciphertext carries the 16-byte tag at the end and
/// decrypts back to the message under the same key, nonce and associated data.
#[verifier::external_body]
pub(crate) fn aes256gcm_encrypt(key: &[u8; 32], nonce: &[u8; 12], msg: &[u8], aad: &[u8]) -> (r: Option<Vec<u8>>)
    ensures
        r is Some <==> (msg@.len() <= aes_gcm_max_len() && aad@.len() <= aes_gcm_max_len()),
        r matches Some(c) ==> c@ == aes_gcm_seal(key@, nonce@, msg@, aad@) && c@.len() == msg@.len() + 16
            && aes_gcm_open(key@, nonce@, c@, aad@) == Some(msg@),
{
    let cipher = aes_gcm::Aes256Gcm::new_from_slice(key).ok()?;
    cipher.encrypt(aes_gcm::Nonce::from_slice(nonce), Payload { msg, aad }).ok()
}

/// `aes_gcm::Aes256Gcm::decrypt`: the authenticated plaintext, or `None`.
#[verifier::external_body]
pub(crate) fn aes256gcm_decrypt(key: &[u8; 32], nonce: &[u8; 12], ct: &[u8], aad: &[u8]) -> (r: Option<Vec<u8>>)
    ensures
        r matches Some(p) ==> aes_gcm_open(key@, nonce@, ct@, aad@) == Some(p@),
        r is None ==> aes_gcm_open(key@, nonce@, ct@, aad@) is None,
{
    let cipher = aes_gcm::Aes256Gcm::new_from_slice(key).ok()?;
    cipher.decrypt(aes_gcm::Nonce::from_slice(nonce), Payload { msg: ct, aad }).ok()
}

/// `x25519_dalek::StaticSecret::diffie_hellman`: the X25519 shared secret.
#[verifier::external_body]
pub(crate) fn x25519_dh(private: [u8; 32], peer_public: [u8; 32]) -> (r: [u8; 32])
    ensures
        r@ == x25519_spec(private@, peer_public@),
{
    let secret = x25519_dalek::StaticSecret::from(private);
    let public = x25519_dalek::PublicKey::from(peer_public);
    secret.diffie_hellman(&public).to_bytes()
}

/// `x25519_dalek::PublicKey::from(&StaticSecret)`: the public key of a private scalar.
#[verifier::external_body]
pub(crate) fn x25519_public(private: [u8; 32]) -> (r: [u8; 32])
    ensures
        r@ == x25519_public_spec(private@),
{
    let secret = x25519_dalek::StaticSecret::from(private);
    x25519_dalek::PublicKey::from(&secret).to_bytes()
}

/// `rand_core::OsRng::fill_bytes`: 32 bytes from the operating system's generator.
/// Nothing is stated of the bytes.
#[verifier::external_body]
pub(crate) fn random_32() -> [u8; 32] {
    let mut bytes = [0_u8; 32];
    rand_core::OsRng.fill_bytes(&mut bytes);
    bytes
}

/// `rand_core::OsRng::fill_bytes` into four bytes.  Nothing is stated of the bytes.
#[verifier::external_body]
pub(crate) fn random_4() -> [u8; 4] {
    let mut bytes = [0_u8; 4];
    rand_core::OsRng.fill_bytes(&mut bytes);
    bytes
}

/// The `len` little-endian bytes of `n` (taken modulo 256^len).
pub open spec fn le_encode(n: nat, len: nat) -> Seq<u8>
    decreases len,
{
    if len == 0 {
        Seq::empty()
    } else {
        seq![(n % 256) as u8] + le_encode(n / 256, (len - 1) as nat)
    }
}

/// Canonical 32-byte form of a scalar value: its residue modulo the group order.
pub open spec fn scalar_bytes(n: nat) -> Seq<u8> {
    le_encode(n % ed25519_group_order(), 32)
}

/// Canonical bytes of a 32-byte little-endian integer reduced modulo the
/// order of the Ed25519 group.
pub open spec fn scalar_reduce_spec(bytes: Seq<u8>) -> Seq<u8> {
    scalar_bytes(le_value(bytes))
}

/// Canonical bytes of a 64-byte little-endian integer reduced modulo the
/// order of the Ed25519 group.
pub open spec fn scalar_reduce_wide_spec(bytes: Seq<u8>) -> Seq<u8> {
    scalar_bytes(le_value(bytes))
}

/// Compressed Edwards Y form of the Ed25519 base point multiplied by a scalar
/// (the scalar's bytes are first reduced modulo the group order).
pub uninterp spec fn basepoint_mul_spec(scalar: Seq<u8>) -> Seq<u8>;

/// Canonical bytes of the product of two scalars modulo the group order.
pub open spec fn scalar_mul_spec(a: Seq<u8>, b: Seq<u8>) -> Seq<u8> {
    scalar_bytes(le_value(a) * le_value(b))
}

/// Canonical bytes of the sum of two scalars modulo the group order.
pub open spec fn scalar_add_spec(a: Seq<u8>, b: Seq<u8>) -> Seq<u8> {
    scalar_bytes(le_value(a) + le_value(b))
}

/// Character of a 6-bit value in the standard base64 alphabet (RFC 4648):
/// `A`-`Z`, `a`-`z`, `0`-`9`, `+`, `/`.
pub open spec fn base64_char(v: int) -> char {
    if v < 26 {
        (65 + v) as char
    } else if v < 52 {
        (71 + v) as char
    } else if v < 62 {
        (v - 4) as char
    } else if v == 62 {
        '+'
    } else {
        '/'
    }
}

/// Standard base64 (RFC 4648 alphabet, with padding) of a byte string: each
/// group of three bytes gives four characters; a final group of one or two
/// bytes gives two or three characters and `=` padding.
pub open spec fn base64_standard_spec(data: Seq<u8>) -> Seq<char>
    decreases data.len(),
{
    let a = data[0] as int;
    let b = data[1] as int;
    let c = data[2] as int;
    if data.len() == 0 {
        Seq::empty()
    } else if data.len() == 1 {
        seq![base64_char(a / 4), base64_char((a % 4) * 16), '=', '=']
    } else if data.len() == 2 {
        seq![base64_char(a / 4), base64_char((a % 4) * 16 + b / 16), base64_char((b % 16) * 4), '=']
    } else {
        seq![base64_char(a / 4), base64_char((a % 4) * 16 + b / 16), base64_char((b % 16) * 4 + c / 64), base64_char(c % 64)]
            + base64_standard_spec(data.skip(3))
    }
}

/// MD5 digest of a byte string.
pub uninterp spec fn md5_spec(data: Seq<u8>) -> Seq<u8>;

/// `curve25519_dalek::Scalar::from_bytes_mod_order(bytes).to_bytes()`.
#[verifier::external_body]
pub(crate) fn scalar_reduce(bytes: [u8; 32]) -> (r: [u8; 32])
    ensures
        r@ == scalar_reduce_spec(bytes@),
{
    curve25519_dalek::scalar::Scalar::from_bytes_mod_order(bytes).to_bytes()
}

/// `curve25519_dalek::Scalar::from_bytes_mod_order_wide(&bytes).to_bytes()`.
#[verifier::external_body]
pub(crate) fn scalar_reduce_wide(bytes: &[u8; 64]) -> (r: [u8; 32])
    ensures
        r@ == scalar_reduce_wide_spec(bytes@),
{
    curve25519_dalek::scalar::Scalar::from_bytes_mod_order_wide(bytes).to_bytes()
}

/// `(&scalar * ED25519_BASEPOINT_TABLE).compress().to_bytes()` in curve25519-dalek;
/// the compressed form of a curve point decompresses.
#[verifier::external_body]
pub(crate) fn basepoint_mul(scalar: [u8; 32]) -> (r: [u8; 32])
    ensures
        r@ == basepoint_mul_spec(scalar@),
        edwards_decompresses(r@),
{
    let s = curve25519_dalek::scalar::Scalar::from_bytes_mod_order(scalar);
    (&s * curve25519_dalek::constants::ED25519_BASEPOINT_TABLE).compress().to_bytes()
}

/// `a * b` on curve25519-dalek scalars read with `Scalar::from_bytes_mod_order`,
/// as canonical bytes.
#[verifier::external_body]
pub(crate) fn scalar_mul(a: [u8; 32], b: [u8; 32]) -> (r: [u8; 32])
    ensures
        r@ == scalar_mul_spec(a@, b@),
{
    (Scalar::from_bytes_mod_order(a) * Scalar::from_bytes_mod_order(b)).to_bytes()
}

/// `a + b` on curve25519-dalek scalars read with `Scalar::from_bytes_mod_order`,
/// as canonical bytes.
#[verifier::external_body]
pub(crate) fn scalar_add(a: [u8; 32], b: [u8; 32]) -> (r: [u8; 32])
    ensures
        r@ == scalar_add_spec(a@, b@),
{
    (Scalar::from_bytes_mod_order(a) + Scalar::from_bytes_mod_order(b)).to_bytes()
}

/// `base64::engine::general_purpose::STANDARD.encode`.
#[verifier::external_body]
pub(crate) fn base64_standard_encode(data: &[u8]) -> (r: String)
    ensures
        r@ == base64_standard_spec(data@),
{
    base64::engine::general_purpose::STANDARD.encode(data)
}

/// `md5::compute`: the MD5 digest.
#[verifier::external_body]
pub(crate) fn md5_digest(data: &[u8]) -> (r: [u8; 16])
    ensures
        r@ == md5_spec(data@),
{
    md5::compute(data).0
}

/// Whether `signature` is a valid Ed25519 signature of `message` under the
/// public key `public` (RFC 8032 verification as ed25519-dalek performs it).
pub uninterp spec fn ed25519_verify_spec(public: Seq<u8>, message: Seq<u8>, signature: Seq<u8>) -> bool;

/// `ed25519_dalek::VerifyingKey::from_bytes(public)` then `verify(message, signature)`:
/// true exactly when the key decodes and the signature verifies.
#[verifier::external_body]
pub(crate) fn ed25519_verify(public: &[u8; 32], message: &[u8], signature: &[u8; 64]) -> (r: bool)
    ensures
        r == ed25519_verify_spec(public@, message@, signature@),
{
    match ed25519_dalek::VerifyingKey::from_bytes(public) {
        Ok(key) => key.verify(message, &ed25519_dalek::Signature::from_bytes(signature)).is_ok(),
        Err(_) => false,
    }
}

/// Whether 32 bytes are the compressed Edwards Y form of a curve point.
pub uninterp spec fn edwards_decompresses(bytes: Seq<u8>) -> bool;

/// `curve25519_dalek::edwards::CompressedEdwardsY(bytes).decompress().is_some()`.
#[verifier::external_body]
pub(crate) fn edwards_point_valid(bytes: &[u8; 32]) -> (r: bool)
    ensures
        r == edwards_decompresses(bytes@),
{
    curve25519_dalek::edwards::CompressedEdwardsY(*bytes).decompress().is_some()
}

/// Little-endian value of a byte string.
pub open spec fn le_value(b: Seq<u8>) -> nat
    decreases b.len(),
{
    if b.len() == 0 {
        0
    } else {
        b[0] as nat + 256 * le_value(b.drop_first())
    }
}

/// Order of the Ed25519 prime-order group, 2^252 + 27742317777372353535851937790883648493.
pub open spec fn ed25519_group_order() -> nat {
    7237005577332262213973186563042994240857116359379907606001950938285454250989nat
}

/// `curve25519_dalek::Scalar::from_canonical_bytes(bytes).is_some()`: the bytes
/// are canonical exactly when their little-endian value is below the group order.
#[verifier::external_body]
pub(crate) fn scalar_is_canonical(bytes: &[u8; 32]) -> (r: bool)
    ensures
        r == (le_value(bytes@) < ed25519_group_order()),
{
    bool::from(curve25519_dalek::scalar::Scalar::from_canonical_bytes(*bytes).is_some())
}

/// Compressed Edwards Y form of the point whose Montgomery u-coordinate is `u`
/// and whose sign bit is `sign`, when `u` lies on the curve.
pub uninterp spec fn montgomery_to_edwards_spec(u: Seq<u8>, sign: u8) -> Option<Seq<u8>>;

/// `curve25519_dalek::montgomery::MontgomeryPoint(u).to_edwards(sign)`, compressed.
#[verifier::external_body]
pub(crate) fn montgomery_to_edwards(u: &[u8; 32], sign: u8) -> (r: Option<[u8; 32]>)
    ensures
        match montgomery_to_edwards_spec(u@, sign) {
            Some(b) => r matches Some(a) && a@ == b,
            None => r is None,
        },
        r matches Some(a) ==> edwards_decompresses(a@),
{
    curve25519_dalek::montgomery::MontgomeryPoint(*u).to_edwards(sign).map(|p| p.compress().to_bytes())
}

/// Compressed form of the sum of the curve points compressed as `a` and `b`.
pub uninterp spec fn edwards_add_spec(a: Seq<u8>, b: Seq<u8>) -> Seq<u8>;

/// `EdwardsPoint` addition in curve25519-dalek, on the points that `a` and `b`
/// decompress to; the result is compressed, and decompresses.
#[verifier::external_body]
pub(crate) fn edwards_add(a: &[u8; 32], b: &[u8; 32]) -> (r: [u8; 32])
    requires
        edwards_decompresses(a@),
        edwards_decompresses(b@),
    ensures
        r@ == edwards_add_spec(a@, b@),
        edwards_decompresses(r@),
{
    let p = CompressedEdwardsY(*a).decompress().unwrap();
    let q = CompressedEdwardsY(*b).decompress().unwrap();
    (p + q).compress().to_bytes()
}

/// Compressed form of the point compressed as `point` multiplied by a scalar
/// (the scalar's bytes read modulo the group order).
pub uninterp spec fn edwards_scalar_mul_spec(scalar: Seq<u8>, point: Seq<u8>) -> Seq<u8>;

/// `Scalar * EdwardsPoint` in curve25519-dalek, with the scalar read by
/// `Scalar::from_bytes_mod_order` and the point decompressed; the result is
/// compressed, and decompresses.
#[verifier::external_body]
pub(crate) fn edwards_scalar_mul(scalar: &[u8; 32], point: &[u8; 32]) -> (r: [u8; 32])
    requires
        edwards_decompresses(point@),
    ensures
        r@ == edwards_scalar_mul_spec(scalar@, point@),
        edwards_decompresses(r@),
{
    let p = CompressedEdwardsY(*point).decompress().unwrap();
    (Scalar::from_bytes_mod_order(*scalar) * p).compress().to_bytes()
}

} // verus!
