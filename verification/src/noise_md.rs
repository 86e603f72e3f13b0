use vstd::prelude::*;

use crate::crypto::{aes256gcm_decrypt, aes256gcm_encrypt, aes_gcm_max_len, aes_gcm_open, aes_gcm_seal, hkdf_sha256_64, hkdf_sha256_64_spec, sha256, sha256_spec, x25519_dh, x25519_spec};
use crate::error::{HandshakeError, HandshakePhase, PhaseDetail};
use crate::frame::{first_frame, frame_of, header_len, max_frame_len, push_u24_be, read_u24_be, copy_range, u24_be};
use crate::keys::KeyPair;
use crate::proto::{CertChainRead, CertDetails, CertDetailsRead, ClientHello, MdHandshakeMessage, ServerHello};
use crate::text::{bytes_to_vec, concat, push_all};

verus! {

/// Noise protocol name, already 32 bytes long ("Noise_XX_25519_AESGCM_SHA256" and four NULs).
pub const NOISE_MODE: [u8; 32] = [
    78, 111, 105, 115, 101, 95, 88, 88, 95, 50, 53, 53, 49, 57, 95, 65, 69, 83, 71, 67, 77, 95, 83,
    72, 65, 50, 53, 54, 0, 0, 0, 0,
];

/// WA prologue ("WA", protocol version 6, dictionary version 3).
pub const NOISE_WA_HEADER: [u8; 4] = [87, 65, 6, 3];

/// Serial expected for the issuer of the intermediate certificate.
pub const WA_CERT_SERIAL: u32 = 0;

/// Keys and counters of the post-handshake transport.
#[derive(Debug, Clone, Copy)]
pub struct TransportKeys {
    pub enc_key: [u8; 32],
    pub dec_key: [u8; 32],
    pub write_counter: u32,
    pub read_counter: u32,
}

/// MD noise handler compatible with the WA web transport framing.
#[derive(Debug, Clone)]
pub struct NoiseMdState {
    hash: [u8; 32],
    salt: [u8; 32],
    /// Handshake key: each mixing sets the encrypting and the decrypting key
    /// to the same value, so one field holds both.
    key: [u8; 32],
    counter: u32,
    intro_header: Vec<u8>,
    sent_intro: bool,
    frame_buffer: Vec<u8>,
    transport: Option<TransportKeys>,
}

/// Model of a [`NoiseMdState`].
pub struct NoiseMdView {
    pub hash: Seq<u8>,
    pub salt: Seq<u8>,
    pub enc_key: Seq<u8>,
    pub dec_key: Seq<u8>,
    pub counter: u32,
    pub intro_header: Seq<u8>,
    pub sent_intro: bool,
    pub frame_buffer: Seq<u8>,
    pub transport: Option<TransportKeys>,
}

impl View for NoiseMdState {
    type V = NoiseMdView;

    closed spec fn view(&self) -> NoiseMdView {
        NoiseMdView {
            hash: self.hash@,
            salt: self.salt@,
            enc_key: self.key@,
            dec_key: self.key@,
            counter: self.counter,
            intro_header: self.intro_header@,
            sent_intro: self.sent_intro,
            frame_buffer: self.frame_buffer@,
            transport: self.transport,
        }
    }
}

/// The counter after one use: `counter.wrapping_add(1)`.
pub open spec fn next_counter(c: u32) -> u32 {
    if c == u32::MAX {
        0
    } else {
        (c + 1) as u32
    }
}

/// AES-GCM nonce for a message counter: eight zero bytes, then the counter big-endian.
pub open spec fn nonce_spec(counter: u32) -> Seq<u8> {
    seq![0u8, 0u8, 0u8, 0u8, 0u8, 0u8, 0u8, 0u8] + crate::binary_node::u32_be(counter as int)
}

/// Initial handshake hash: the protocol name zero-padded to 32 bytes, or its
/// SHA-256 when longer.
pub open spec fn initial_hash(name: Seq<u8>) -> Seq<u8> {
    if name.len() <= 32 {
        name + Seq::new((32 - name.len()) as nat, |i: int| 0u8)
    } else {
        sha256_spec(name)
    }
}

/// Prefix sent before the first frame: "ED", 0, 1, the 24-bit routing length,
/// the routing info and the WA header; or the WA header alone.
pub open spec fn intro_header_spec(routing_info: Option<Seq<u8>>) -> Seq<u8> {
    match routing_info {
        Some(r) => seq![69u8, 68u8, 0u8, 1u8] + u24_be(r.len() as int) + r + NOISE_WA_HEADER@,
        None => NOISE_WA_HEADER@,
    }
}

/// Mixes bytes into the handshake hash (only before the transport is set up).
pub open spec fn authenticate_spec(v: NoiseMdView, b: Seq<u8>) -> NoiseMdView {
    if v.transport is None {
        NoiseMdView { hash: sha256_spec(v.hash + b), ..v }
    } else {
        v
    }
}

/// Mixes key material: HKDF output splits into the new salt and the new key.
pub open spec fn mix_into_key_spec(v: NoiseMdView, ikm: Seq<u8>) -> NoiseMdView {
    let okm = hkdf_sha256_64_spec(v.salt, ikm);
    NoiseMdView {
        salt: okm.subrange(0, 32),
        enc_key: okm.subrange(32, 64),
        dec_key: okm.subrange(32, 64),
        counter: 0,
        ..v
    }
}

/// Handshake encryption: ciphertext under the current key and counter, with the
/// handshake hash as associated data; the counter advances and the ciphertext is
/// mixed into the hash.
pub open spec fn encrypt_handshake_spec(v: NoiseMdView, pt: Seq<u8>) -> Option<(NoiseMdView, Seq<u8>)> {
    if pt.len() <= aes_gcm_max_len() && v.hash.len() <= aes_gcm_max_len() {
        let ct = aes_gcm_seal(v.enc_key, nonce_spec(v.counter), pt, v.hash);
        Some((authenticate_spec(NoiseMdView { counter: next_counter(v.counter), ..v }, ct), ct))
    } else {
        None
    }
}

/// Handshake decryption, the mirror of [`encrypt_handshake_spec`].
pub open spec fn decrypt_handshake_spec(v: NoiseMdView, ct: Seq<u8>) -> Option<(NoiseMdView, Seq<u8>)> {
    match aes_gcm_open(v.dec_key, nonce_spec(v.counter), ct, v.hash) {
        None => None,
        Some(pt) => Some((authenticate_spec(NoiseMdView { counter: next_counter(v.counter), ..v }, ct), pt)),
    }
}

/// Error reported for a failed cipher operation in a phase.
pub open spec fn phase_error(phase: HandshakePhase, message: &'static str) -> HandshakeError {
    HandshakeError::Phase { phase, message, detail: PhaseDetail::Plain }
}

/// Error reported in a phase with the values that complete its message.
pub open spec fn phase_error_with(phase: HandshakePhase, message: &'static str, detail: PhaseDetail) -> HandshakeError {
    HandshakeError::Phase { phase, message, detail }
}

/// Lengths of the server hello fields, reported when a decryption fails.
pub open spec fn hello_lengths(eph: Seq<u8>, stat: Seq<u8>, ext_stat: Seq<u8>, payload: Seq<u8>) -> PhaseDetail {
    PhaseDetail::HelloLengths {
        ephemeral_len: eph.len() as u64,
        static_len: stat.len() as u64,
        extended_static_len: ext_stat.len() as u64,
        payload_len: payload.len() as u64,
    }
}


/// Transport encryption with the write key and counter (no associated data).
pub open spec fn transport_encrypt_spec(t: TransportKeys, pt: Seq<u8>) -> Option<(TransportKeys, Seq<u8>)> {
    if pt.len() <= aes_gcm_max_len() {
        Some((
            TransportKeys { write_counter: next_counter(t.write_counter), ..t },
            aes_gcm_seal(t.enc_key@, nonce_spec(t.write_counter), pt, Seq::empty()),
        ))
    } else {
        None
    }
}

/// Transport decryption with the read key and counter (no associated data).
pub open spec fn transport_decrypt_spec(t: TransportKeys, ct: Seq<u8>) -> Option<(TransportKeys, Seq<u8>)> {
    match aes_gcm_open(t.dec_key@, nonce_spec(t.read_counter), ct, Seq::empty()) {
        None => None,
        Some(pt) => Some((TransportKeys { read_counter: next_counter(t.read_counter), ..t }, pt)),
    }
}

/// Reads every complete frame of `buf`, decrypting each when transport keys are set.
/// Returns the remaining buffer, the keys after use and the payloads (or the error
/// of the first frame that fails to decrypt, that frame having left the buffer).
pub open spec fn decode_frames_spec(buf: Seq<u8>, t: Option<TransportKeys>) -> (Seq<u8>, Option<TransportKeys>, Result<Seq<Seq<u8>>, HandshakeError>)
    decreases buf.len(),
{
    match first_frame(buf) {
        None => (buf, t, Ok(Seq::empty())),
        Some((p, rest)) => {
            if rest.len() >= buf.len() {
                (rest, t, Ok(Seq::empty()))
            } else {
                match t {
                    None => {
                        let (b2, t2, r) = decode_frames_spec(rest, t);
                        (b2, t2, match r {
                            Err(e) => Err(e),
                            Ok(l) => Ok(seq![p] + l),
                        })
                    },
                    Some(keys) => match transport_decrypt_spec(keys, p) {
                        None => (rest, t, Err(phase_error(HandshakePhase::PostFinish, "decrypt failed"))),
                        Some((k2, pt)) => {
                            let (b2, t2, r) = decode_frames_spec(rest, Some(k2));
                            (b2, t2, match r {
                                Err(e) => Err(e),
                                Ok(l) => Ok(seq![pt] + l),
                            })
                        },
                    },
                }
            }
        },
    }
}

/// Views of a list of byte vectors.
pub open spec fn vecs_view(v: Seq<Vec<u8>>) -> Seq<Seq<u8>> {
    Seq::new(v.len(), |i: int| v[i]@)
}

/// Outcome of the first half of `ServerHello` processing.
pub struct ServerHelloSecrets {
    /// Server ephemeral public key.
    pub server_ephemeral: [u8; 32],
    /// Server static public key, decrypted.
    pub server_static: [u8; 32],
    /// Decrypted certificate chain payload (a protobuf `CertChain`).
    pub cert_payload: Vec<u8>,
}

/// First half of `ServerHello` processing: mix the server ephemeral key, derive
/// the first key, decrypt the static key (or the extended static key when the
/// static key is empty), derive the second key, decrypt the certificate payload.
/// Returns the state reached (also on error) and the values recovered.
pub open spec fn server_hello_spec(
    v: NoiseMdView,
    eph: Seq<u8>,
    stat: Seq<u8>,
    ext_stat: Seq<u8>,
    payload: Seq<u8>,
    eph_private: Seq<u8>,
) -> (NoiseMdView, Result<(Seq<u8>, Seq<u8>, Seq<u8>), HandshakeError>) {
    let v1 = authenticate_spec(v, eph);
    if eph.len() != 32 {
        (v1, Err(phase_error_with(
            HandshakePhase::ServerHello,
            "invalid key length for server_hello.ephemeral",
            PhaseDetail::Length(eph.len() as u64),
        )))
    } else {
        let v2 = mix_into_key_spec(v1, x25519_spec(eph_private, eph));
        let sc = if stat.len() != 0 { stat } else { ext_stat };
        if sc.len() == 0 {
            (v2, Err(phase_error(HandshakePhase::ServerHello, "missing server_hello.static")))
        } else {
            match decrypt_handshake_spec(v2, sc) {
                None => (v2, Err(phase_error_with(
                    HandshakePhase::ServerHello,
                    "decrypt failed at server_hello.static",
                    hello_lengths(eph, stat, ext_stat, payload),
                ))),
                Some((v3, ss)) => if ss.len() != 32 {
                    (v3, Err(phase_error_with(
                        HandshakePhase::ServerHello,
                        "invalid key length for server_hello.static",
                        PhaseDetail::Length(ss.len() as u64),
                    )))
                } else {
                    let v4 = mix_into_key_spec(v3, x25519_spec(eph_private, ss));
                    match decrypt_handshake_spec(v4, payload) {
                        None => (v4, Err(phase_error_with(
                            HandshakePhase::ServerHello,
                            "decrypt failed at server_hello.payload",
                            hello_lengths(eph, stat, ext_stat, payload),
                        ))),
                        Some((v5, cert)) => (v5, Ok((eph, ss, cert))),
                    }
                },
            }
        }
    }
}

/// Second half of `ServerHello` processing: encrypt the static noise public key,
/// then mix the DH of the noise private key with the server ephemeral key.
pub open spec fn finish_server_hello_spec(
    v: NoiseMdView,
    server_ephemeral: Seq<u8>,
    noise_public: Seq<u8>,
    noise_private: Seq<u8>,
) -> (NoiseMdView, Result<Seq<u8>, HandshakeError>) {
    match encrypt_handshake_spec(v, noise_public) {
        None => (v, Err(phase_error(HandshakePhase::ServerHello, "encrypt failed"))),
        Some((v1, ct)) => (mix_into_key_spec(v1, x25519_spec(noise_private, server_ephemeral)), Ok(ct)),
    }
}

/// Error for certificate bytes that do not decode, carrying the decoder's message.
pub open spec fn cert_decode_error(text: String) -> HandshakeError {
    phase_error_with(HandshakePhase::ServerHello, "certificate decode failed", PhaseDetail::Decoder(text))
}

/// Checks the certificate chain read from the server hello payload, in order:
/// the chain decodes; the intermediate is present, has details, and they
/// decode; it is issued by the WA root serial; the leaf is present, has
/// details, and they decode; it is issued by the intermediate; its key is the
/// server static key.
pub open spec fn cert_chain_spec(chain: Result<CertChainRead, String>, static_key: Seq<u8>) -> Result<(), HandshakeError> {
    match chain {
        Err(text) => Err(cert_decode_error(text)),
        Ok(c) => match c.intermediate {
            None => Err(phase_error(HandshakePhase::ServerHello, "missing intermediate cert")),
            Some(CertDetailsRead::Empty) => Err(phase_error(HandshakePhase::ServerHello, "missing intermediate cert details")),
            Some(CertDetailsRead::Invalid(text)) => Err(cert_decode_error(text)),
            Some(CertDetailsRead::Decoded(inter)) => if inter.issuer_serial != WA_CERT_SERIAL {
                Err(phase_error_with(
                    HandshakePhase::ServerHello,
                    "unexpected cert issuer serial",
                    PhaseDetail::IssuerSerial(inter.issuer_serial),
                ))
            } else {
                match c.leaf {
                    None => Err(phase_error(HandshakePhase::ServerHello, "missing leaf cert")),
                    Some(CertDetailsRead::Empty) => Err(phase_error(HandshakePhase::ServerHello, "invalid noise leaf certificate")),
                    Some(CertDetailsRead::Invalid(text)) => Err(cert_decode_error(text)),
                    Some(CertDetailsRead::Decoded(leaf)) => if leaf.issuer_serial != inter.serial {
                        Err(phase_error_with(
                            HandshakePhase::ServerHello,
                            "noise leaf certificate chain mismatch",
                            PhaseDetail::Serials { leaf_issuer_serial: leaf.issuer_serial, intermediate_serial: inter.serial },
                        ))
                    } else if leaf.key@ != static_key {
                        Err(phase_error(HandshakePhase::ServerHello, "noise leaf certificate key does not match server static key"))
                    } else {
                        Ok(())
                    },
                }
            },
        },
    }
}

/// Builds the 12-byte nonce for a counter.
pub fn build_nonce(counter: u32) -> (r: [u8; 12])
    ensures
        r@ == nonce_spec(counter),
{
    let mut nonce = [0_u8; 12];
    nonce[8] = (counter / 16777216) as u8;
    nonce[9] = (counter / 65536 % 256) as u8;
    nonce[10] = (counter / 256 % 256) as u8;
    nonce[11] = (counter % 256) as u8;
    assert(nonce@ =~= nonce_spec(counter));
    nonce
}

/// Initial handshake hash for a protocol name.
pub fn initialize_handshake_hash(protocol_name: &[u8]) -> (r: [u8; 32])
    ensures
        r@ == initial_hash(protocol_name@),
{
    let mut hash = [0_u8; 32];
    if protocol_name.len() <= 32 {
        let mut i: usize = 0;
        while i < protocol_name.len()
            invariant
                i <= protocol_name@.len() <= 32,
                hash@.len() == 32,
                forall|j: int| 0 <= j < i ==> hash@[j] == protocol_name@[j],
                forall|j: int| i <= j < 32 ==> hash@[j] == 0u8,
            decreases protocol_name@.len() - i,
        {
            hash[i] = protocol_name[i];
            i += 1;
        }
        assert(hash@ =~= initial_hash(protocol_name@));
        return hash;
    }
    sha256(protocol_name)
}

/// Builds the intro header sent before the first frame.
pub fn build_intro_header(routing_info: Option<&[u8]>) -> (r: Vec<u8>)
    ensures
        r@ == intro_header_spec(match routing_info {
            Some(x) => Some(x@),
            None => None,
        }),
{
    match routing_info {
        Some(routing_info) => {
            let mut out: Vec<u8> = Vec::new();
            out.push(69);
            out.push(68);
            out.push(0);
            out.push(1);
            push_u24_be(&mut out, routing_info.len());
            push_all(&mut out, routing_info);
            push_all(&mut out, NOISE_WA_HEADER.as_slice());
            assert(out@ =~= seq![69u8, 68u8, 0u8, 1u8] + u24_be(routing_info@.len() as int) + routing_info@ + NOISE_WA_HEADER@);
            out
        },
        None => bytes_to_vec(NOISE_WA_HEADER.as_slice()),
    }
}

/// Copies the first and second halves of a 64-byte block.
fn split_64(okm: &[u8; 64]) -> (r: ([u8; 32], [u8; 32]))
    ensures
        r.0@ == okm@.subrange(0, 32),
        r.1@ == okm@.subrange(32, 64),
{
    let mut a = [0_u8; 32];
    let mut b = [0_u8; 32];
    let mut i: usize = 0;
    while i < 32
        invariant
            i <= 32,
            a@.len() == 32,
            b@.len() == 32,
            forall|j: int| 0 <= j < i ==> a@[j] == okm@[j] && b@[j] == okm@[j + 32],
        decreases 32 - i,
    {
        a[i] = okm[i];
        b[i] = okm[i + 32];
        i += 1;
    }
    assert(a@ =~= okm@.subrange(0, 32));
    assert(b@ =~= okm@.subrange(32, 64));
    (a, b)
}

/// Converts a 32-byte slice into an array.
pub fn to_array_32(bytes: &[u8]) -> (r: [u8; 32])
    requires
        bytes@.len() == 32,
    ensures
        r@ == bytes@,
{
    let mut out = [0_u8; 32];
    let mut i: usize = 0;
    while i < 32
        invariant
            i <= 32,
            bytes@.len() == 32,
            out@.len() == 32,
            forall|j: int| 0 <= j < i ==> out@[j] == bytes@[j],
        decreases 32 - i,
    {
        out[i] = bytes[i];
        i += 1;
    }
    assert(out@ =~= bytes@);
    out
}

impl NoiseMdState {
    pub fn new(ephemeral_public: [u8; 32], routing_info: Option<&[u8]>) -> (r: Self)
        ensures
            ({
                let v0 = NoiseMdView {
                    hash: NOISE_MODE@,
                    salt: NOISE_MODE@,
                    enc_key: NOISE_MODE@,
                    dec_key: NOISE_MODE@,
                    counter: 0,
                    intro_header: intro_header_spec(match routing_info {
                        Some(x) => Some(x@),
                        None => None,
                    }),
                    sent_intro: false,
                    frame_buffer: Seq::empty(),
                    transport: None,
                };
                r@ == authenticate_spec(authenticate_spec(v0, NOISE_WA_HEADER@), ephemeral_public@)
            }),
    {
        let hash = initialize_handshake_hash(NOISE_MODE.as_slice());
        assert(initial_hash(NOISE_MODE@) =~= NOISE_MODE@);
        let intro_header = build_intro_header(routing_info);
        let mut state = NoiseMdState {
            hash,
            salt: hash,
            key: hash,
            counter: 0,
            intro_header,
            sent_intro: false,
            frame_buffer: Vec::new(),
            transport: None,
        };
        state.authenticate(NOISE_WA_HEADER.as_slice());
        state.authenticate(ephemeral_public.as_slice());
        state
    }

    /// The hash, salt and keys of a state are 32 bytes long, and the handshake
    /// encrypting and decrypting keys agree.
    pub proof fn lemma_lengths(&self)
        ensures
            self@.hash.len() == 32,
            self@.salt.len() == 32,
            self@.enc_key.len() == 32,
            self@.dec_key.len() == 32,
            self@.enc_key == self@.dec_key,
    {
    }

    /// The `ClientHello` envelope carrying the ephemeral public key.
    pub fn build_client_hello(ephemeral_public: [u8; 32]) -> (r: MdHandshakeMessage)
        ensures
            r.client_hello is Some,
            r.client_hello->Some_0.ephemeral@ == ephemeral_public@,
            r.client_hello->Some_0.static_key@.len() == 0,
            r.client_hello->Some_0.payload@.len() == 0,
            !r.client_hello->Some_0.use_extended,
            r.client_hello->Some_0.extended_ciphertext@.len() == 0,
            r.server_hello is None,
            r.client_finish is None,
    {
        MdHandshakeMessage {
            client_hello: Some(ClientHello {
                ephemeral: bytes_to_vec(ephemeral_public.as_slice()),
                static_key: Vec::new(),
                payload: Vec::new(),
                use_extended: false,
                extended_ciphertext: Vec::new(),
            }),
            server_hello: None,
            client_finish: None,
        }
    }

    fn authenticate(&mut self, bytes: &[u8])
        ensures
            final(self)@ == authenticate_spec(old(self)@, bytes@),
    {
        if self.transport.is_none() {
            let data = concat(self.hash.as_slice(), bytes);
            self.hash = sha256(data.as_slice());
        }
    }

    fn local_hkdf(&self, ikm: &[u8]) -> (r: ([u8; 32], [u8; 32]))
        ensures
            r.0@ == hkdf_sha256_64_spec(self@.salt, ikm@).subrange(0, 32),
            r.1@ == hkdf_sha256_64_spec(self@.salt, ikm@).subrange(32, 64),
    {
        let output = hkdf_sha256_64(&self.salt, ikm);
        split_64(&output)
    }

    fn mix_into_key(&mut self, ikm: &[u8])
        ensures
            final(self)@ == mix_into_key_spec(old(self)@, ikm@),
    {
        let (write, read) = self.local_hkdf(ikm);
        self.salt = write;
        self.key = read;
        self.counter = 0;
    }

    fn encrypt_handshake(&mut self, plaintext: &[u8]) -> (r: Result<Vec<u8>, HandshakeError>)
        ensures
            match encrypt_handshake_spec(old(self)@, plaintext@) {
                Some((v, ct)) => r is Ok && r->Ok_0@ == ct && final(self)@ == v,
                None => r == Err::<Vec<u8>, HandshakeError>(phase_error(HandshakePhase::ServerHello, "encrypt failed"))
                    && final(self)@ == old(self)@,
            },
            r is Ok <==> plaintext@.len() <= aes_gcm_max_len(),
            r matches Ok(c) ==> c@.len() == plaintext@.len() + 16 && aes_gcm_open(
                old(self)@.enc_key,
                nonce_spec(old(self)@.counter),
                c@,
                old(self)@.hash,
            ) == Some(plaintext@),
            r matches Ok(c) ==> decrypt_handshake_spec(old(self)@, c@) == Some((final(self)@, plaintext@)),
    {
        let nonce = build_nonce(self.counter);
        let encrypted = match aes256gcm_encrypt(&self.key, &nonce, plaintext, self.hash.as_slice()) {
            Some(c) => c,
            None => {
                return Err(HandshakeError::Phase { phase: HandshakePhase::ServerHello, message: "encrypt failed", detail: PhaseDetail::Plain });
            },
        };
        self.counter = self.counter.wrapping_add(1);
        self.authenticate(encrypted.as_slice());
        Ok(encrypted)
    }

    fn decrypt_handshake(&mut self, ciphertext: &[u8]) -> (r: Result<Vec<u8>, HandshakeError>)
        ensures
            match decrypt_handshake_spec(old(self)@, ciphertext@) {
                Some((v, pt)) => r is Ok && r->Ok_0@ == pt && final(self)@ == v,
                None => r == Err::<Vec<u8>, HandshakeError>(phase_error(HandshakePhase::ServerHello, "decrypt failed"))
                    && final(self)@ == old(self)@,
            },
    {
        let nonce = build_nonce(self.counter);
        let decrypted = match aes256gcm_decrypt(&self.key, &nonce, ciphertext, self.hash.as_slice()) {
            Some(p) => p,
            None => {
                return Err(HandshakeError::Phase { phase: HandshakePhase::ServerHello, message: "decrypt failed", detail: PhaseDetail::Plain });
            },
        };
        self.counter = self.counter.wrapping_add(1);
        self.authenticate(ciphertext);
        Ok(decrypted)
    }

    /// Decrypts a handshake payload with the current handshake key.
    pub fn decrypt_handshake_message(&mut self, payload: &[u8]) -> (r: Result<Vec<u8>, HandshakeError>)
        ensures
            match decrypt_handshake_spec(old(self)@, payload@) {
                Some((v, pt)) => r is Ok && r->Ok_0@ == pt && final(self)@ == v,
                None => r == Err::<Vec<u8>, HandshakeError>(phase_error(HandshakePhase::ServerHello, "decrypt failed"))
                    && final(self)@ == old(self)@,
            },
    {
        self.decrypt_handshake(payload)
    }

    /// Encrypts a handshake payload with the current handshake key.
    pub fn encrypt_handshake_payload(&mut self, payload: &[u8]) -> (r: Result<Vec<u8>, HandshakeError>)
        ensures
            match encrypt_handshake_spec(old(self)@, payload@) {
                Some((v, ct)) => r is Ok && r->Ok_0@ == ct && final(self)@ == v,
                None => r == Err::<Vec<u8>, HandshakeError>(phase_error(HandshakePhase::ServerHello, "encrypt failed"))
                    && final(self)@ == old(self)@,
            },
            r is Ok <==> payload@.len() <= aes_gcm_max_len(),
            r matches Ok(c) ==> c@.len() == payload@.len() + 16 && aes_gcm_open(
                old(self)@.enc_key,
                nonce_spec(old(self)@.counter),
                c@,
                old(self)@.hash,
            ) == Some(payload@),
            r matches Ok(c) ==> decrypt_handshake_spec(old(self)@, c@) == Some((final(self)@, payload@)),
    {
        self.encrypt_handshake(payload)
    }

    /// Derives the transport keys from the final salt; handshake hashing stops.
    pub fn finish_init(&mut self)
        ensures
            final(self)@ == (NoiseMdView {
                transport: Some(TransportKeys {
                    enc_key: final(self)@.transport->Some_0.enc_key,
                    dec_key: final(self)@.transport->Some_0.dec_key,
                    write_counter: 0,
                    read_counter: 0,
                }),
                ..old(self)@
            }),
            final(self)@.transport->Some_0.enc_key@ == hkdf_sha256_64_spec(old(self)@.salt, Seq::empty()).subrange(0, 32),
            final(self)@.transport->Some_0.dec_key@ == hkdf_sha256_64_spec(old(self)@.salt, Seq::empty()).subrange(32, 64),
    {
        let empty: [u8; 0] = [];
        let (write, read) = self.local_hkdf(empty.as_slice());
        assert(empty@ =~= Seq::<u8>::empty());
        self.transport = Some(TransportKeys { enc_key: write, dec_key: read, write_counter: 0, read_counter: 0 });
    }

    /// Opens a `ServerHello` (see [`server_hello_spec`]): returns the server
    /// keys and the certificate payload, whose decoded chain
    /// [`NoiseMdState::process_server_hello`] then checks before finishing.
    pub fn open_server_hello(
        &mut self,
        server_hello: &ServerHello,
        ephemeral_key: &KeyPair,
    ) -> (r: Result<ServerHelloSecrets, HandshakeError>)
        ensures
            ({
                let (v, res) = server_hello_spec(
                    old(self)@,
                    server_hello.ephemeral@,
                    server_hello.static_key@,
                    server_hello.extended_static@,
                    server_hello.payload@,
                    ephemeral_key.private@,
                );
                &&& final(self)@ == v
                &&& match res {
                    Ok((se, ss, cert)) => r is Ok && r->Ok_0.server_ephemeral@ == se && r->Ok_0.server_static@ == ss
                        && r->Ok_0.cert_payload@ == cert,
                    Err(e) => r == Err::<ServerHelloSecrets, HandshakeError>(e),
                }
            }),
    {
        let lengths = PhaseDetail::HelloLengths {
            ephemeral_len: server_hello.ephemeral.len() as u64,
            static_len: server_hello.static_key.len() as u64,
            extended_static_len: server_hello.extended_static.len() as u64,
            payload_len: server_hello.payload.len() as u64,
        };
        self.authenticate(server_hello.ephemeral.as_slice());
        if server_hello.ephemeral.len() != 32 {
            return Err(HandshakeError::Phase {
                phase: HandshakePhase::ServerHello,
                message: "invalid key length for server_hello.ephemeral",
                detail: PhaseDetail::Length(server_hello.ephemeral.len() as u64),
            });
        }
        let server_ephemeral = to_array_32(server_hello.ephemeral.as_slice());
        let dh_ephemeral = x25519_dh(ephemeral_key.private, server_ephemeral);
        self.mix_into_key(dh_ephemeral.as_slice());
        let static_ciphertext = if !server_hello.static_key.is_empty() {
            server_hello.static_key.as_slice()
        } else {
            server_hello.extended_static.as_slice()
        };
        if static_ciphertext.len() == 0 {
            return Err(HandshakeError::Phase { phase: HandshakePhase::ServerHello, message: "missing server_hello.static", detail: PhaseDetail::Plain });
        }
        let decrypted_static = match self.decrypt_handshake(static_ciphertext) {
            Ok(d) => d,
            Err(_) => {
                return Err(HandshakeError::Phase {
                    phase: HandshakePhase::ServerHello,
                    message: "decrypt failed at server_hello.static",
                    detail: lengths,
                });
            },
        };
        if decrypted_static.len() != 32 {
            return Err(HandshakeError::Phase {
                phase: HandshakePhase::ServerHello,
                message: "invalid key length for server_hello.static",
                detail: PhaseDetail::Length(decrypted_static.len() as u64),
            });
        }
        let server_static = to_array_32(decrypted_static.as_slice());
        let dh_static = x25519_dh(ephemeral_key.private, server_static);
        self.mix_into_key(dh_static.as_slice());
        let cert_payload = match self.decrypt_handshake(server_hello.payload.as_slice()) {
            Ok(d) => d,
            Err(_) => {
                return Err(HandshakeError::Phase {
                    phase: HandshakePhase::ServerHello,
                    message: "decrypt failed at server_hello.payload",
                    detail: lengths,
                });
            },
        };
        Ok(ServerHelloSecrets { server_ephemeral, server_static, cert_payload })
    }

    /// Second half of `ServerHello` processing (see [`finish_server_hello_spec`]):
    /// returns the encrypted static noise key for `ClientFinish`.
    fn finish_server_hello(&mut self, server_ephemeral: &[u8; 32], noise_key: &KeyPair) -> (r: Result<Vec<u8>, HandshakeError>)
        ensures
            ({
                let (v, res) = finish_server_hello_spec(old(self)@, server_ephemeral@, noise_key.public@, noise_key.private@);
                &&& final(self)@ == v
                &&& match res {
                    Ok(ct) => r is Ok && r->Ok_0@ == ct,
                    Err(e) => r == Err::<Vec<u8>, HandshakeError>(e),
                }
            }),
            r is Ok,
            r matches Ok(c) ==> c@.len() == 48,
    {
        proof {
            self.lemma_lengths();
        }
        let key_enc = self.encrypt_handshake(noise_key.public.as_slice())?;
        let dh_noise = x25519_dh(noise_key.private, *server_ephemeral);
        self.mix_into_key(dh_noise.as_slice());
        Ok(key_enc)
    }

    /// Checks the certificate chain read from a server hello payload against
    /// the server static key (see [`cert_chain_spec`]).
    pub fn verify_cert_chain(&self, cert_chain: &Result<CertChainRead, String>, static_key: &[u8; 32]) -> (r: Result<(), HandshakeError>)
        ensures
            r == cert_chain_spec(*cert_chain, static_key@),
    {
        let chain = match cert_chain {
            Err(text) => return Err(cert_decode_failed(text)),
            Ok(c) => c,
        };
        let intermediate = match &chain.intermediate {
            None => {
                return Err(HandshakeError::Phase {
                    phase: HandshakePhase::ServerHello,
                    message: "missing intermediate cert",
                    detail: PhaseDetail::Plain,
                })
            },
            Some(CertDetailsRead::Empty) => {
                return Err(HandshakeError::Phase {
                    phase: HandshakePhase::ServerHello,
                    message: "missing intermediate cert details",
                    detail: PhaseDetail::Plain,
                })
            },
            Some(CertDetailsRead::Invalid(text)) => return Err(cert_decode_failed(text)),
            Some(CertDetailsRead::Decoded(d)) => d,
        };
        if intermediate.issuer_serial != WA_CERT_SERIAL {
            return Err(HandshakeError::Phase {
                phase: HandshakePhase::ServerHello,
                message: "unexpected cert issuer serial",
                detail: PhaseDetail::IssuerSerial(intermediate.issuer_serial),
            });
        }
        let leaf = match &chain.leaf {
            None => {
                return Err(HandshakeError::Phase {
                    phase: HandshakePhase::ServerHello,
                    message: "missing leaf cert",
                    detail: PhaseDetail::Plain,
                })
            },
            Some(CertDetailsRead::Empty) => {
                return Err(HandshakeError::Phase {
                    phase: HandshakePhase::ServerHello,
                    message: "invalid noise leaf certificate",
                    detail: PhaseDetail::Plain,
                })
            },
            Some(CertDetailsRead::Invalid(text)) => return Err(cert_decode_failed(text)),
            Some(CertDetailsRead::Decoded(d)) => d,
        };
        if leaf.issuer_serial != intermediate.serial {
            return Err(HandshakeError::Phase {
                phase: HandshakePhase::ServerHello,
                message: "noise leaf certificate chain mismatch",
                detail: PhaseDetail::Serials { leaf_issuer_serial: leaf.issuer_serial, intermediate_serial: intermediate.serial },
            });
        }
        if !crate::text::bytes_eq(leaf.key.as_slice(), static_key.as_slice()) {
            return Err(HandshakeError::Phase {
                phase: HandshakePhase::ServerHello,
                message: "noise leaf certificate key does not match server static key",
                detail: PhaseDetail::Plain,
            });
        }
        Ok(())
    }

    /// Completes `ServerHello` processing once its certificate payload is read:
    /// the chain is checked against the server static key, and only when it
    /// holds is the static noise key encrypted and the DH of the noise private
    /// key with the server ephemeral key mixed in. Returns the encrypted static
    /// noise key for `ClientFinish`; on a bad chain the state is unchanged.
    pub fn process_server_hello(
        &mut self,
        secrets: &ServerHelloSecrets,
        cert_chain: &Result<CertChainRead, String>,
        noise_key: &KeyPair,
    ) -> (r: Result<Vec<u8>, HandshakeError>)
        ensures
            match cert_chain_spec(*cert_chain, secrets.server_static@) {
                Err(e) => r == Err::<Vec<u8>, HandshakeError>(e) && final(self)@ == old(self)@,
                Ok(()) => {
                    let (v, res) = finish_server_hello_spec(
                        old(self)@,
                        secrets.server_ephemeral@,
                        noise_key.public@,
                        noise_key.private@,
                    );
                    &&& final(self)@ == v
                    &&& match res {
                        Ok(ct) => r is Ok && r->Ok_0@ == ct,
                        Err(e) => r == Err::<Vec<u8>, HandshakeError>(e),
                    }
                },
            },
            r is Ok <==> cert_chain_spec(*cert_chain, secrets.server_static@) is Ok,
            r matches Ok(c) ==> c@.len() == 48,
    {
        self.verify_cert_chain(cert_chain, &secrets.server_static)?;
        self.finish_server_hello(&secrets.server_ephemeral, noise_key)
    }

    fn encrypt_transport(&mut self, plaintext: &[u8]) -> (r: Result<Vec<u8>, HandshakeError>)
        ensures
            match old(self)@.transport {
                None => r is Ok && r->Ok_0@ == plaintext@ && final(self)@ == old(self)@,
                Some(t) => match transport_encrypt_spec(t, plaintext@) {
                    Some((t2, ct)) => r is Ok && r->Ok_0@ == ct && final(self)@ == (NoiseMdView { transport: Some(t2), ..old(self)@ }),
                    None => r == Err::<Vec<u8>, HandshakeError>(phase_error(HandshakePhase::PostFinish, "encrypt failed"))
                        && final(self)@ == old(self)@,
                },
            },
            old(self)@.transport is Some ==> (r matches Ok(c) ==> c@.len() == plaintext@.len() + 16),
    {
        match self.transport {
            None => Ok(bytes_to_vec(plaintext)),
            Some(t) => {
                let nonce = build_nonce(t.write_counter);
                let empty: [u8; 0] = [];
                assert(empty@ =~= Seq::<u8>::empty());
                let encrypted = match aes256gcm_encrypt(&t.enc_key, &nonce, plaintext, empty.as_slice()) {
                    Some(c) => c,
                    None => {
                        return Err(HandshakeError::Phase { phase: HandshakePhase::PostFinish, message: "encrypt failed", detail: PhaseDetail::Plain });
                    },
                };
                self.transport = Some(TransportKeys { write_counter: t.write_counter.wrapping_add(1), ..t });
                Ok(encrypted)
            },
        }
    }

    fn decrypt_transport(&mut self, ciphertext: &[u8]) -> (r: Result<Vec<u8>, HandshakeError>)
        ensures
            match old(self)@.transport {
                None => r is Ok && r->Ok_0@ == ciphertext@ && final(self)@ == old(self)@,
                Some(t) => match transport_decrypt_spec(t, ciphertext@) {
                    Some((t2, pt)) => r is Ok && r->Ok_0@ == pt && final(self)@ == (NoiseMdView { transport: Some(t2), ..old(self)@ }),
                    None => r == Err::<Vec<u8>, HandshakeError>(phase_error(HandshakePhase::PostFinish, "decrypt failed"))
                        && final(self)@ == old(self)@,
                },
            },
    {
        match self.transport {
            None => Ok(bytes_to_vec(ciphertext)),
            Some(t) => {
                let nonce = build_nonce(t.read_counter);
                let empty: [u8; 0] = [];
                assert(empty@ =~= Seq::<u8>::empty());
                let decrypted = match aes256gcm_decrypt(&t.dec_key, &nonce, ciphertext, empty.as_slice()) {
                    Some(p) => p,
                    None => {
                        return Err(HandshakeError::Phase { phase: HandshakePhase::PostFinish, message: "decrypt failed", detail: PhaseDetail::Plain });
                    },
                };
                self.transport = Some(TransportKeys { read_counter: t.read_counter.wrapping_add(1), ..t });
                Ok(decrypted)
            },
        }
    }

    /// Frames a payload (encrypted once the transport is set up), prefixed by the
    /// intro header the first time.
    pub fn encode_frame(&mut self, data: &[u8]) -> (r: Result<Vec<u8>, HandshakeError>)
        ensures
            ({
                let v = old(self)@;
                let enc: Option<(NoiseMdView, Seq<u8>)> = match v.transport {
                    None => Some((v, data@)),
                    Some(t) => match transport_encrypt_spec(t, data@) {
                        Some((t2, ct)) => Some((NoiseMdView { transport: Some(t2), ..v }, ct)),
                        None => None,
                    },
                };
                match enc {
                    None => r == Err::<Vec<u8>, HandshakeError>(phase_error(HandshakePhase::PostFinish, "encrypt failed"))
                        && final(self)@ == v,
                    Some((v1, payload)) => if payload.len() > max_frame_len() {
                        r == Err::<Vec<u8>, HandshakeError>(phase_error(HandshakePhase::PostFinish, "payload too large for 24-bit frame"))
                            && final(self)@ == v1
                    } else {
                        r is Ok && r->Ok_0@ == (if v.sent_intro { Seq::empty() } else { v.intro_header }) + frame_of(payload)
                            && final(self)@ == (NoiseMdView { sent_intro: true, ..v1 })
                    },
                }
            }),
            old(self)@.transport is Some ==> (r matches Ok(f) ==> f@.len() == (if old(self)@.sent_intro {
                0
            } else {
                old(self)@.intro_header.len()
            }) + 3 + data@.len() + 16),
            old(self)@.transport is Some && data@.len() + 16 <= max_frame_len() ==> r is Ok,
    {
        let payload = if self.transport.is_some() {
            self.encrypt_transport(data)?
        } else {
            bytes_to_vec(data)
        };
        if payload.len() > 16777215 {
            return Err(HandshakeError::Phase {
                phase: HandshakePhase::PostFinish,
                message: "payload too large for 24-bit frame", detail: PhaseDetail::Plain
            });
        }
        let mut out: Vec<u8> = Vec::new();
        if !self.sent_intro {
            push_all(&mut out, self.intro_header.as_slice());
            self.sent_intro = true;
        }
        let ghost prefix = out@;
        push_u24_be(&mut out, payload.len());
        push_all(&mut out, payload.as_slice());
        assert(out@ =~= prefix + frame_of(payload@));
        Ok(out)
    }

    /// Appends a received chunk to the frame buffer and returns the payloads of
    /// all complete frames, decrypted once the transport is set up.
    pub fn decode_frames(&mut self, chunk: &[u8]) -> (r: Result<Vec<Vec<u8>>, HandshakeError>)
        ensures
            chunk@.len() == 0 ==> r is Ok && r->Ok_0@.len() == 0 && final(self)@ == old(self)@,
            chunk@.len() > 0 ==> ({
                let (b, t, res) = decode_frames_spec(old(self)@.frame_buffer + chunk@, old(self)@.transport);
                &&& final(self)@ == (NoiseMdView { frame_buffer: b, transport: t, ..old(self)@ })
                &&& match res {
                    Ok(l) => r is Ok && vecs_view(r->Ok_0@) == l,
                    Err(e) => r == Err::<Vec<Vec<u8>>, HandshakeError>(e),
                }
            }),
    {
        if chunk.len() == 0 {
            return Ok(Vec::new());
        }
        push_all(&mut self.frame_buffer, chunk);
        let ghost whole = decode_frames_spec(self.frame_buffer@, self.transport);
        let mut out: Vec<Vec<u8>> = Vec::new();
        assert(vecs_view(out@) =~= Seq::<Seq<u8>>::empty());
        loop
            invariant
                chunk@.len() > 0,
                whole == decode_frames_spec(old(self)@.frame_buffer + chunk@, old(self)@.transport),
                self@.hash == old(self)@.hash,
                self@.salt == old(self)@.salt,
                self@.enc_key == old(self)@.enc_key,
                self@.dec_key == old(self)@.dec_key,
                self@.counter == old(self)@.counter,
                self@.intro_header == old(self)@.intro_header,
                self@.sent_intro == old(self)@.sent_intro,
                whole.0 == decode_frames_spec(self.frame_buffer@, self.transport).0,
                whole.1 == decode_frames_spec(self.frame_buffer@, self.transport).1,
                whole.2 == (match decode_frames_spec(self.frame_buffer@, self.transport).2 {
                    Err(e) => Err(e),
                    Ok(l) => Ok(vecs_view(out@) + l),
                }),
            ensures
                first_frame(self.frame_buffer@) is None,
                chunk@.len() > 0,
                whole == decode_frames_spec(old(self)@.frame_buffer + chunk@, old(self)@.transport),
                self@.hash == old(self)@.hash,
                self@.salt == old(self)@.salt,
                self@.enc_key == old(self)@.enc_key,
                self@.dec_key == old(self)@.dec_key,
                self@.counter == old(self)@.counter,
                self@.intro_header == old(self)@.intro_header,
                self@.sent_intro == old(self)@.sent_intro,
                whole.0 == decode_frames_spec(self.frame_buffer@, self.transport).0,
                whole.1 == decode_frames_spec(self.frame_buffer@, self.transport).1,
                whole.2 == (match decode_frames_spec(self.frame_buffer@, self.transport).2 {
                    Err(e) => Err(e),
                    Ok(l) => Ok(vecs_view(out@) + l),
                }),
            decreases self.frame_buffer@.len(),
        {
            if self.frame_buffer.len() < 3 {
                break;
            }
            let expected_len = read_u24_be(self.frame_buffer[0], self.frame_buffer[1], self.frame_buffer[2]);
            if self.frame_buffer.len() - 3 < expected_len {
                break;
            }
            let full_len = 3 + expected_len;
            let payload = copy_range(self.frame_buffer.as_slice(), 3, full_len);
            let rest = copy_range(self.frame_buffer.as_slice(), full_len, self.frame_buffer.len());
            let ghost before = self.frame_buffer@;
            assert(rest@ == before.skip(full_len as int));
            self.frame_buffer = rest;
            let ghost outv = vecs_view(out@);
            if self.transport.is_some() {
                let ghost t0 = self.transport;
                let plain = match self.decrypt_transport(payload.as_slice()) {
                    Ok(p) => p,
                    Err(e) => {
                        assert(first_frame(before) == Some((payload@, rest@)));
                        assert(decode_frames_spec(before, t0).2 == Err::<Seq<Seq<u8>>, HandshakeError>(e));
                        return Err(e);
                    },
                };
                out.push(plain);
            } else {
                out.push(payload);
            }
            assert(vecs_view(out@) =~= outv.push(out@[out@.len() - 1]@));
            proof {
                let (b2, t2, r2) = decode_frames_spec(self.frame_buffer@, self.transport);
                match r2 {
                    Err(e) => {},
                    Ok(l) => {
                        assert(outv + (seq![out@[out@.len() - 1]@] + l) =~= vecs_view(out@) + l);
                    },
                }
            }
        }
        proof {
            assert(vecs_view(out@) + Seq::<Seq<u8>>::empty() =~= vecs_view(out@));
        }
        Ok(out)
    }
}

/// The error for certificate bytes that do not decode.
fn cert_decode_failed(text: &String) -> (r: HandshakeError)
    ensures
        r == cert_decode_error(*text),
{
    HandshakeError::Phase {
        phase: HandshakePhase::ServerHello,
        message: "certificate decode failed",
        detail: PhaseDetail::Decoder(text.clone()),
    }
}

/// Reading on after `d`, the outcome of reading a buffer: the bytes `y` are
/// appended to what remained and reading resumes with the keys reached; after
/// an error nothing more is read.
pub open spec fn decode_continue(
    d: (Seq<u8>, Option<TransportKeys>, Result<Seq<Seq<u8>>, HandshakeError>),
    y: Seq<u8>,
) -> (Seq<u8>, Option<TransportKeys>, Result<Seq<Seq<u8>>, HandshakeError>) {
    match d.2 {
        Err(e) => (d.0 + y, d.1, Err(e)),
        Ok(l1) => {
            let (b2, t2, r2) = decode_frames_spec(d.0 + y, d.1);
            (b2, t2, match r2 {
                Ok(l2) => Ok(l1 + l2),
                Err(e) => Err(e),
            })
        },
    }
}

proof fn lemma_first_frame_append(x: Seq<u8>, y: Seq<u8>)
    requires
        first_frame(x) is Some,
    ensures
        first_frame(x + y) == Some((first_frame(x)->Some_0.0, first_frame(x)->Some_0.1 + y)),
{
    let h = header_len(x);
    assert(header_len(x + y) == h);
    assert((x + y).subrange(3, 3 + h) =~= x.subrange(3, 3 + h));
    assert((x + y).skip(3 + h) =~= x.skip(3 + h) + y);
}

/// Frames come out whole and in order whatever the chunking: reading `x`
/// followed by `y` gives what reading `x`, then `y` after the remainder, gives.
pub proof fn law_decode_frames_chunking(x: Seq<u8>, y: Seq<u8>, t: Option<TransportKeys>)
    ensures
        decode_frames_spec(x + y, t) == decode_continue(decode_frames_spec(x, t), y),
    decreases x.len(),
{
    match first_frame(x) {
        None => {
            if x.len() >= 3 {
                assert(header_len(x + y) == header_len(x));
            }
            let (b2, t2, r2) = decode_frames_spec(x + y, t);
            match r2 {
                Ok(l2) => {
                    assert(Seq::<Seq<u8>>::empty() + l2 =~= l2);
                },
                Err(_) => {},
            }
        },
        Some((p, rest)) => {
            lemma_first_frame_append(x, y);
            assert(rest + y =~= (x + y).skip(3 + header_len(x)));
            match t {
                None => {
                    law_decode_frames_chunking(rest, y, t);
                    let (b1, t1, r1) = decode_frames_spec(rest, t);
                    match r1 {
                        Ok(l1) => {
                            let (b2, t2, r2) = decode_frames_spec(b1 + y, t1);
                            match r2 {
                                Ok(l2) => {
                                    assert(seq![p] + (l1 + l2) =~= (seq![p] + l1) + l2);
                                },
                                Err(_) => {},
                            }
                        },
                        Err(_) => {},
                    }
                },
                Some(keys) => match transport_decrypt_spec(keys, p) {
                    None => {},
                    Some((k2, pt)) => {
                        law_decode_frames_chunking(rest, y, Some(k2));
                        let (b1, t1, r1) = decode_frames_spec(rest, Some(k2));
                        match r1 {
                            Ok(l1) => {
                                let (b2, t2, r2) = decode_frames_spec(b1 + y, t1);
                                match r2 {
                                    Ok(l2) => {
                                        assert(seq![pt] + (l1 + l2) =~= (seq![pt] + l1) + l2);
                                    },
                                    Err(_) => {},
                                }
                            },
                            Err(_) => {},
                        }
                    },
                },
            }
        },
    }
}

/// Transport encryption of successive payloads, each with the keys the
/// previous one left.
pub open spec fn seal_sequence(t: TransportKeys, ds: Seq<Seq<u8>>) -> Option<(TransportKeys, Seq<Seq<u8>>)>
    decreases ds.len(),
{
    if ds.len() == 0 {
        Some((t, Seq::empty()))
    } else {
        match seal_sequence(t, ds.drop_last()) {
            None => None,
            Some((t1, cs)) => match transport_encrypt_spec(t1, ds.last()) {
                None => None,
                Some((t2, c)) => Some((t2, cs.push(c))),
            },
        }
    }
}

/// The write counter after `n` more messages (wrapping).
pub open spec fn counter_after(c: u32, n: nat) -> u32 {
    ((c + n) % 4294967296) as u32
}

/// After the transport keys are set, the i-th payload sent is sealed with the
/// write key, the nonce of counter `write_counter + i` and no associated
/// data; the write counter ends `n` further on, the rest of the keys unchanged.
pub proof fn law_transport_sequence(t: TransportKeys, ds: Seq<Seq<u8>>)
    requires
        forall|i: int| 0 <= i < ds.len() ==> (#[trigger] ds[i]).len() <= aes_gcm_max_len(),
    ensures
        seal_sequence(t, ds) == Some((
            TransportKeys { write_counter: counter_after(t.write_counter, ds.len()), ..t },
            Seq::new(
                ds.len(),
                |i: int| aes_gcm_seal(t.enc_key@, nonce_spec(counter_after(t.write_counter, i as nat)), ds[i], Seq::empty()),
            ),
        )),
    decreases ds.len(),
{
    if ds.len() > 0 {
        let n = (ds.len() - 1) as nat;
        law_transport_sequence(t, ds.drop_last());
        let t1 = TransportKeys { write_counter: counter_after(t.write_counter, n), ..t };
        assert(next_counter(counter_after(t.write_counter, n)) == counter_after(t.write_counter, n + 1));
        assert(ds.last() == ds[ds.len() - 1]);
        let cs = Seq::new(
            n,
            |i: int| aes_gcm_seal(t.enc_key@, nonce_spec(counter_after(t.write_counter, i as nat)), ds.drop_last()[i], Seq::empty()),
        );
        let c = aes_gcm_seal(t1.enc_key@, nonce_spec(t1.write_counter), ds.last(), Seq::empty());
        assert(cs.push(c) =~= Seq::new(
            ds.len(),
            |i: int| aes_gcm_seal(t.enc_key@, nonce_spec(counter_after(t.write_counter, i as nat)), ds[i], Seq::empty()),
        ));
    } else {
        assert(Seq::<Seq<u8>>::empty() =~= Seq::new(
            ds.len(),
            |i: int| aes_gcm_seal(t.enc_key@, nonce_spec(counter_after(t.write_counter, i as nat)), ds[i], Seq::empty()),
        ));
    }
}

/// Once the transport keys are set the handshake hash stops changing: no
/// handshake step mixes anything more into it.
pub proof fn law_hash_frozen_after_finish(v: NoiseMdView, b: Seq<u8>)
    requires
        v.transport is Some,
    ensures
        authenticate_spec(v, b).hash == v.hash,
        encrypt_handshake_spec(v, b) matches Some((v1, _)) ==> v1.hash == v.hash,
        decrypt_handshake_spec(v, b) matches Some((v1, _)) ==> v1.hash == v.hash,
{
}

/// The frames of successive payloads, one after another.
pub open spec fn frames_concat(cs: Seq<Seq<u8>>) -> Seq<u8>
    decreases cs.len(),
{
    if cs.len() == 0 {
        Seq::empty()
    } else {
        frame_of(cs[0]) + frames_concat(cs.drop_first())
    }
}

proof fn lemma_counter_after_next(c: u32, i: nat)
    ensures
        counter_after(next_counter(c), i) == counter_after(c, i + 1),
        counter_after(c, 0) == c,
{
}

/// With the transport keys set, reading the frames of successive payloads
/// opens the j-th with the read key and the nonce of counter
/// `read_counter + j`: when each opens, the plaintexts come out in order, the
/// buffer is empty, and the read counter ends `n` further on.
#[verifier::spinoff_prover]
#[verifier::rlimit(40)]
pub proof fn law_open_sequence(t: TransportKeys, cs: Seq<Seq<u8>>, ps: Seq<Seq<u8>>)
    requires
        cs.len() == ps.len(),
        forall|i: int| 0 <= i < cs.len() ==> (#[trigger] cs[i]).len() <= max_frame_len(),
        forall|i: int|
            0 <= i < cs.len() ==> aes_gcm_open(
                t.dec_key@,
                nonce_spec(counter_after(t.read_counter, i as nat)),
                #[trigger] cs[i],
                Seq::empty(),
            ) == Some(ps[i]),
    ensures
        decode_frames_spec(frames_concat(cs), Some(t)) == (
            Seq::<u8>::empty(),
            Some(TransportKeys { read_counter: counter_after(t.read_counter, cs.len()), ..t }),
            Ok::<Seq<Seq<u8>>, HandshakeError>(ps),
        ),
    decreases cs.len(),
{
    lemma_counter_after_next(t.read_counter, 0);
    if cs.len() == 0 {
        assert(ps =~= Seq::<Seq<u8>>::empty());
        assert(first_frame(Seq::<u8>::empty()) is None);
    } else {
        let c0 = cs[0];
        let tail = cs.drop_first();
        let ptail = ps.drop_first();
        let rest = frames_concat(tail);
        let buf = frame_of(c0) + rest;
        assert(frames_concat(cs) == buf);
        crate::frame::law_frame_roundtrip(c0, rest);
        assert(first_frame(buf) == Some((c0, rest)));
        assert(rest.len() < buf.len());
        let t1 = TransportKeys { read_counter: next_counter(t.read_counter), ..t };
        assert(aes_gcm_open(t.dec_key@, nonce_spec(counter_after(t.read_counter, 0)), cs[0], Seq::empty()) == Some(ps[0]));
        assert(transport_decrypt_spec(t, c0) == Some((t1, ps[0])));
        assert forall|i: int| 0 <= i < tail.len() implies aes_gcm_open(
            t1.dec_key@,
            nonce_spec(counter_after(t1.read_counter, i as nat)),
            #[trigger] tail[i],
            Seq::empty(),
        ) == Some(ptail[i]) by {
            lemma_counter_after_next(t.read_counter, i as nat);
            assert(tail[i] == cs[i + 1]);
            assert(cs[i + 1].len() >= 0);
        }
        assert forall|i: int| 0 <= i < tail.len() implies (#[trigger] tail[i]).len() <= max_frame_len() by {
            assert(tail[i] == cs[i + 1]);
        }
        law_open_sequence(t1, tail, ptail);
        lemma_counter_after_next(t.read_counter, tail.len());
        assert(seq![ps[0]] + ptail =~= ps);
    }
}

/// Before the transport keys are set, reading a frame followed by more bytes
/// gives its payload first, then what the remaining bytes give.
pub proof fn law_plain_frame_decode(p: Seq<u8>, rest: Seq<u8>)
    requires
        p.len() <= max_frame_len(),
    ensures
        decode_frames_spec(frame_of(p) + rest, None) == ({
            let (b, t, r) = decode_frames_spec(rest, None);
            (b, t, match r {
                Ok(l) => Ok(seq![p] + l),
                Err(e) => Err(e),
            })
        }),
{
    crate::frame::law_frame_roundtrip(p, rest);
}


impl NoiseMdState {
    /// Payloads that may hold the server hello, in the order they are tried:
    /// the frames read from the raw message (when reading succeeds), the raw
    /// message itself, then the payload of a frame at its start.
    pub fn server_hello_candidates(&mut self, raw_frame: &[u8]) -> (r: Vec<Vec<u8>>)
        ensures
            raw_frame@.len() == 0 ==> final(self)@ == old(self)@,
            raw_frame@.len() > 0 ==> ({
                let (b, t, _) = decode_frames_spec(old(self)@.frame_buffer + raw_frame@, old(self)@.transport);
                final(self)@ == (NoiseMdView { frame_buffer: b, transport: t, ..old(self)@ })
            }),
            ({
                let read: Seq<Seq<u8>> = if raw_frame@.len() == 0 {
                    Seq::empty()
                } else {
                    match decode_frames_spec(old(self)@.frame_buffer + raw_frame@, old(self)@.transport).2 {
                        Ok(l) => l,
                        Err(_) => Seq::empty(),
                    }
                };
                vecs_view(r@) == read + seq![raw_frame@] + match first_frame(raw_frame@) {
                    Some((p, _)) => seq![p],
                    None => Seq::empty(),
                }
            }),
    {
        let mut candidates: Vec<Vec<u8>> = match self.decode_frames(raw_frame) {
            Ok(frames) => frames,
            Err(_) => Vec::new(),
        };
        let ghost read = vecs_view(candidates@);
        candidates.push(bytes_to_vec(raw_frame));
        match crate::frame::maybe_unframe(raw_frame) {
            Some(p) => {
                candidates.push(bytes_to_vec(p));
                assert(vecs_view(candidates@) =~= read + seq![raw_frame@] + seq![p@]);
            },
            None => {
                assert(vecs_view(candidates@) =~= read + seq![raw_frame@] + Seq::<Seq<u8>>::empty());
            },
        }
        assert(vecs_view(Seq::<Vec<u8>>::empty()) =~= Seq::<Seq<u8>>::empty());
        candidates
    }
}

} // verus!
