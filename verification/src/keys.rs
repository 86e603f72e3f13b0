use vstd::prelude::*;

use crate::crypto::{
    ed25519_group_order, ed25519_verify, ed25519_verify_spec, edwards_decompresses, edwards_point_valid, le_value,
    montgomery_to_edwards, montgomery_to_edwards_spec, scalar_is_canonical, edwards_add, edwards_add_spec,
    edwards_scalar_mul, edwards_scalar_mul_spec,
    basepoint_mul, basepoint_mul_spec, random_32, random_4, scalar_add, scalar_add_spec, scalar_mul, scalar_mul_spec,
    scalar_reduce,
    scalar_reduce_spec, scalar_reduce_wide, scalar_reduce_wide_spec, sha512, sha512_spec, x25519_public,
    x25519_public_spec,
};
use crate::text::{bytes_eq, concat, push_all};

verus! {

/// X25519 keypair used in WA handshake and identity primitives.
#[derive(Debug, Clone, Copy, PartialEq, Eq)]
pub struct KeyPair {
    /// Public key bytes.
    pub public: [u8; 32],
    /// Private key bytes.
    pub private: [u8; 32],
}

impl KeyPair {
    /// Builds a keypair from a private key.
    pub fn from_private(private: [u8; 32]) -> (r: Self)
        ensures
            r.private == private,
            r.public@ == x25519_public_spec(private@),
    {
        let public = x25519_public(private);
        KeyPair { public, private }
    }
}

/// Generates a new random X25519 keypair: the public key belongs to the private key.
pub fn generate_keypair() -> (r: KeyPair)
    ensures
        r.public@ == x25519_public_spec(r.private@),
{
    let private = random_32();
    KeyPair::from_private(private)
}

/// Registration identifier drawn from four bytes: the low 14 bits of their
/// little-endian value.
pub open spec fn registration_id_spec(raw: Seq<u8>) -> int {
    (raw[0] + 256 * raw[1] + 65536 * raw[2] + 16777216 * raw[3]) % 16384
}

/// Generates a 14-bit registration identifier (little-endian random bytes, masked).
pub fn generate_registration_id() -> (r: u32)
    ensures
        r <= 0x3FFF,
        exists|raw: Seq<u8>| raw.len() == 4 && r == #[trigger] registration_id_spec(raw),
{
    let raw = random_4();
    let b0 = raw[0] as u32;
    let b1 = raw[1] as u32;
    let b2 = raw[2] as u32;
    let b3 = raw[3] as u32;
    let value = b0 | (b1 << 8) | (b2 << 16) | (b3 << 24);
    let r = value & 0x3FFF;
    assert(r <= 0x3FFF && r == (b0 + 256 * b1 + 65536 * b2 + 16777216 * b3) % 16384) by (bit_vector)
        requires
            b0 < 256,
            b1 < 256,
            b2 < 256,
            b3 < 256,
            value == b0 | (b1 << 8) | (b2 << 16) | (b3 << 24),
            r == value & 0x3FFF,
    ;
    assert(r == registration_id_spec(raw@));
    r
}

/// Prefix used by WhatsApp/libsignal when signing public keys.
pub const KEY_BUNDLE_TYPE: u8 = 5;

/// Prepends the libsignal key-bundle prefix to a 32-byte public key.
pub fn signal_public_key(public: &[u8; 32]) -> (r: [u8; 33])
    ensures
        r@ == seq![KEY_BUNDLE_TYPE] + public@,
{
    let mut out = [0_u8; 33];
    out[0] = KEY_BUNDLE_TYPE;
    let mut i: usize = 0;
    while i < 32
        invariant
            i <= 32,
            out@.len() == 33,
            out@[0] == KEY_BUNDLE_TYPE,
            forall|j: int| 0 <= j < i ==> out@[j + 1] == public@[j],
        decreases 32 - i,
    {
        out[i + 1] = public[i];
        i += 1;
    }
    assert(out@ =~= seq![KEY_BUNDLE_TYPE] + public@);
    out
}

/// Scalar of a byte string: its SHA-512 digest reduced modulo the group order.
pub open spec fn hash_to_scalar_spec(data: Seq<u8>) -> Seq<u8> {
    scalar_reduce_wide_spec(sha512_spec(data))
}

/// XEdDSA-style signature of `message`: `R || s` with nonce
/// `r = H(private || public || message)`, `R = r * B`,
/// challenge `c = H(R || public || message)` and `s = r + c * private`.
pub open spec fn signature_spec(private: Seq<u8>, public: Seq<u8>, message: Seq<u8>) -> Seq<u8> {
    let nonce = hash_to_scalar_spec(private + public + message);
    let nonce_point = basepoint_mul_spec(nonce);
    let challenge = hash_to_scalar_spec(nonce_point + public + message);
    nonce_point + scalar_add_spec(nonce, scalar_mul_spec(challenge, scalar_reduce_spec(private)))
}

/// Hashes a byte string to a scalar.
fn hash_to_scalar(data: &[u8]) -> (r: [u8; 32])
    ensures
        r@ == hash_to_scalar_spec(data@),
{
    let wide = sha512(data);
    scalar_reduce_wide(&wide)
}

/// Signs an arbitrary message using a Curve25519-compatible XEdDSA-style flow.
pub fn sign_message(private: [u8; 32], public: [u8; 32], message: &[u8]) -> (r: [u8; 64])
    ensures
        r@ == signature_spec(private@, public@, message@),
{
    let secret = scalar_reduce(private);
    let mut nonce_input = concat(private.as_slice(), public.as_slice());
    push_all(&mut nonce_input, message);
    let nonce = hash_to_scalar(nonce_input.as_slice());
    let nonce_point = basepoint_mul(nonce);
    let mut challenge_input = concat(nonce_point.as_slice(), public.as_slice());
    push_all(&mut challenge_input, message);
    let challenge = hash_to_scalar(challenge_input.as_slice());
    let product = scalar_mul(challenge, secret);
    let s = scalar_add(nonce, product);
    let mut out = [0u8; 64];
    let mut i: usize = 0;
    while i < 32
        invariant
            i <= 32,
            out@.len() == 64,
            forall|j: int| 0 <= j < i ==> out@[j] == nonce_point@[j],
            forall|j: int| 0 <= j < i ==> out@[j + 32] == s@[j],
        decreases 32 - i,
    {
        out[i] = nonce_point[i];
        out[i + 32] = s[i];
        i += 1;
    }
    assert(out@ =~= nonce_point@ + s@);
    out
}

/// The XEdDSA equation `s * B == R + c * A`, compared on compressed points,
/// for the Edwards form `A` of the Montgomery key `public` with one sign bit.
pub open spec fn xeddsa_sign_holds(public: Seq<u8>, r: Seq<u8>, s: Seq<u8>, c: Seq<u8>, sign: u8) -> bool {
    match montgomery_to_edwards_spec(public, sign) {
        Some(a) => basepoint_mul_spec(s) == edwards_add_spec(r, edwards_scalar_mul_spec(c, a)),
        None => false,
    }
}

/// XEdDSA acceptance of `R || s`: `R` decompresses, `s` is canonical, and
/// `s * B == R + c * A` for `c = H(R || public || message)` and one of the two
/// Edwards points `A` of the Montgomery key.
pub open spec fn xeddsa_accepts(public: Seq<u8>, message: Seq<u8>, r: Seq<u8>, s: Seq<u8>) -> bool {
    let c = hash_to_scalar_spec(r + public + message);
    &&& edwards_decompresses(r)
    &&& le_value(s) < ed25519_group_order()
    &&& (xeddsa_sign_holds(public, r, s, c, 0) || xeddsa_sign_holds(public, r, s, c, 1))
}

/// A signature is accepted when it is 64 bytes long and verifies as Ed25519
/// under `public`, or else as XEdDSA for the Curve25519 key `public`.
pub open spec fn signature_accepted(public: Seq<u8>, message: Seq<u8>, signature: Seq<u8>) -> bool {
    &&& signature.len() == 64
    &&& (ed25519_verify_spec(public, message, signature) || xeddsa_accepts(
        public,
        message,
        signature.take(32),
        signature.skip(32),
    ))
}

/// Verifies a Curve25519-compatible XEdDSA-style signature (pure Ed25519 first).
pub fn verify_message(public: [u8; 32], message: &[u8], signature: &[u8]) -> (r: bool)
    ensures
        r == signature_accepted(public@, message@, signature@),
{
    if signature.len() != 64 {
        return false;
    }
    let mut sig = [0u8; 64];
    let mut r_bytes = [0u8; 32];
    let mut s_bytes = [0u8; 32];
    let mut i: usize = 0;
    while i < 64
        invariant
            i <= 64,
            signature@.len() == 64,
            sig@.len() == 64,
            r_bytes@.len() == 32,
            s_bytes@.len() == 32,
            forall|j: int| 0 <= j < i ==> sig@[j] == signature@[j],
            forall|j: int| 0 <= j < i && j < 32 ==> r_bytes@[j] == signature@[j],
            forall|j: int| 32 <= j < i ==> s_bytes@[j - 32] == signature@[j],
        decreases 64 - i,
    {
        sig[i] = signature[i];
        if i < 32 {
            r_bytes[i] = signature[i];
        } else {
            s_bytes[i - 32] = signature[i];
        }
        i += 1;
    }
    assert(sig@ =~= signature@);
    assert(r_bytes@ =~= signature@.take(32));
    assert(s_bytes@ =~= signature@.skip(32));
    if ed25519_verify(&public, message, &sig) {
        return true;
    }
    if !edwards_point_valid(&r_bytes) {
        return false;
    }
    if !scalar_is_canonical(&s_bytes) {
        return false;
    }
    let mut challenge_input = concat(r_bytes.as_slice(), public.as_slice());
    push_all(&mut challenge_input, message);
    let challenge = hash_to_scalar(challenge_input.as_slice());
    let ghost c = challenge@;
    let lhs = basepoint_mul(s_bytes);
    let mut sign: u8 = 0;
    while sign < 2
        invariant
            sign <= 2,
            c == hash_to_scalar_spec(r_bytes@ + public@ + message@),
            c == challenge@,
            signature@.len() == 64,
            r_bytes@ == signature@.take(32),
            s_bytes@ == signature@.skip(32),
            edwards_decompresses(r_bytes@),
            le_value(s_bytes@) < ed25519_group_order(),
            lhs@ == basepoint_mul_spec(s_bytes@),
            forall|t: u8| t < sign ==> !#[trigger] xeddsa_sign_holds(public@, r_bytes@, s_bytes@, c, t),
        decreases 2 - sign,
    {
        match montgomery_to_edwards(&public, sign) {
            Some(a) => {
                let ca = edwards_scalar_mul(&challenge, &a);
                let rhs = edwards_add(&r_bytes, &ca);
                if bytes_eq(lhs.as_slice(), rhs.as_slice()) {
                    assert(xeddsa_sign_holds(public@, r_bytes@, s_bytes@, c, sign));
                    return true;
                }
            },
            None => {},
        }
        sign += 1;
    }
    assert(!xeddsa_sign_holds(public@, r_bytes@, s_bytes@, c, 0));
    assert(!xeddsa_sign_holds(public@, r_bytes@, s_bytes@, c, 1));
    false
}

} // verus!
