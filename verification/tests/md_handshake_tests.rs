use aes_gcm::aead::{Aead, KeyInit, Payload};
use chatwarp_api::keys::KeyPair;
use chatwarp_api::noise_md::{NoiseMdState, NOISE_MODE, NOISE_WA_HEADER};
use chatwarp_api::error::{HandshakeError, HandshakePhase, PhaseDetail};
use chatwarp_api::proto::{CertChainRead, CertDetails, CertDetailsRead, ServerHello};
use sha2::Digest;

/// The server side of the WA handshake, written with the crypto crates directly.
struct Server {
    hash: [u8; 32],
    salt: [u8; 32],
    key: [u8; 32],
    counter: u32,
}

fn sha256(data: &[u8]) -> [u8; 32] {
    let mut out = [0u8; 32];
    out.copy_from_slice(&sha2::Sha256::digest(data));
    out
}

fn hkdf64(salt: &[u8; 32], ikm: &[u8]) -> [u8; 64] {
    let mut okm = [0u8; 64];
    hkdf::Hkdf::<sha2::Sha256>::new(Some(salt), ikm).expand(&[], &mut okm).expect("hkdf");
    okm
}

fn dh(private: [u8; 32], public: [u8; 32]) -> [u8; 32] {
    x25519_dalek::StaticSecret::from(private).diffie_hellman(&x25519_dalek::PublicKey::from(public)).to_bytes()
}

fn nonce(counter: u32) -> [u8; 12] {
    let mut n = [0u8; 12];
    n[8..].copy_from_slice(&counter.to_be_bytes());
    n
}

fn seal(key: &[u8; 32], counter: u32, msg: &[u8], aad: &[u8]) -> Vec<u8> {
    aes_gcm::Aes256Gcm::new_from_slice(key)
        .expect("key")
        .encrypt(aes_gcm::Nonce::from_slice(&nonce(counter)), Payload { msg, aad })
        .expect("seal")
}

fn open(key: &[u8; 32], counter: u32, ct: &[u8], aad: &[u8]) -> Vec<u8> {
    aes_gcm::Aes256Gcm::new_from_slice(key)
        .expect("key")
        .decrypt(aes_gcm::Nonce::from_slice(&nonce(counter)), Payload { msg: ct, aad })
        .expect("open")
}

fn frame(payload: &[u8]) -> Vec<u8> {
    let n = payload.len();
    let mut out = vec![(n >> 16) as u8, (n >> 8) as u8, n as u8];
    out.extend_from_slice(payload);
    out
}

impl Server {
    fn new() -> Self {
        Server { hash: NOISE_MODE, salt: NOISE_MODE, key: NOISE_MODE, counter: 0 }
    }
    fn authenticate(&mut self, data: &[u8]) {
        let mut input = self.hash.to_vec();
        input.extend_from_slice(data);
        self.hash = sha256(&input);
    }
    fn mix(&mut self, ikm: &[u8]) {
        let okm = hkdf64(&self.salt, ikm);
        self.salt.copy_from_slice(&okm[..32]);
        self.key.copy_from_slice(&okm[32..]);
        self.counter = 0;
    }
    fn encrypt(&mut self, msg: &[u8]) -> Vec<u8> {
        let ct = seal(&self.key, self.counter, msg, &self.hash);
        self.counter += 1;
        self.authenticate(&ct);
        ct
    }
    fn decrypt(&mut self, ct: &[u8]) -> Vec<u8> {
        let pt = open(&self.key, self.counter, ct, &self.hash);
        self.counter += 1;
        self.authenticate(ct);
        pt
    }
}

fn details(serial: u32, issuer_serial: u32, key: [u8; 32]) -> CertDetails {
    CertDetails { serial, issuer_serial, key: key.to_vec(), not_before: 0, not_after: 0 }
}

fn chain_for(static_key: [u8; 32]) -> CertChainRead {
    CertChainRead {
        intermediate: Some(CertDetailsRead::Decoded(details(1, 0, [0; 32]))),
        leaf: Some(CertDetailsRead::Decoded(details(2, 1, static_key))),
    }
}

#[test]
fn md_handshake_against_a_simulated_server() {
    let client_eph = KeyPair::from_private([3; 32]);
    let noise_key = KeyPair::from_private([4; 32]);
    let server_eph = KeyPair::from_private([5; 32]);
    let server_static = KeyPair::from_private([6; 32]);

    let mut client = NoiseMdState::new(client_eph.public, None);
    let hello = client.encode_frame(b"client-hello").expect("hello frame");
    assert_eq!(&hello[..4], &NOISE_WA_HEADER);

    let mut server = Server::new();
    server.authenticate(&NOISE_WA_HEADER);
    server.authenticate(&client_eph.public);
    server.authenticate(&server_eph.public);
    server.mix(&dh(server_eph.private, client_eph.public));
    let static_ct = server.encrypt(&server_static.public);
    server.mix(&dh(server_static.private, client_eph.public));
    let payload_ct = server.encrypt(b"certificate-chain");

    let server_hello = ServerHello {
        ephemeral: server_eph.public.to_vec(),
        static_key: static_ct,
        payload: payload_ct,
        extended_static: vec![],
    };
    let secrets = client.open_server_hello(&server_hello, &client_eph).expect("server hello");
    assert_eq!(secrets.server_ephemeral, server_eph.public);
    assert_eq!(secrets.server_static, server_static.public);
    assert_eq!(secrets.cert_payload, b"certificate-chain".to_vec());

    let chain = Ok(chain_for(server_static.public));
    let key_ct = client.process_server_hello(&secrets, &chain, &noise_key).expect("finish");
    assert_eq!(server.decrypt(&key_ct), noise_key.public.to_vec());
    server.mix(&dh(server_eph.private, noise_key.public));

    let payload = client.encrypt_handshake_payload(b"client-payload").expect("payload");
    assert_eq!(server.decrypt(&payload), b"client-payload".to_vec());

    client.finish_init();
    let okm = hkdf64(&server.salt, &[]);
    let mut client_write = [0u8; 32];
    client_write.copy_from_slice(&okm[..32]);
    let mut client_read = [0u8; 32];
    client_read.copy_from_slice(&okm[32..]);

    let ping = client.encode_frame(b"ping").expect("ping");
    assert_eq!(open(&client_write, 0, &ping[3..], &[]), b"ping".to_vec());

    let pong = frame(&seal(&client_read, 0, b"pong", &[]));
    let mut bytes = pong.clone();
    bytes.extend(frame(&seal(&client_read, 1, b"again", &[])));
    assert_eq!(client.decode_frames(&bytes).expect("decode"), vec![b"pong".to_vec(), b"again".to_vec()]);
}

#[test]
fn tampered_server_hello_is_refused() {
    let client_eph = KeyPair::from_private([3; 32]);
    let server_eph = KeyPair::from_private([5; 32]);
    let mut client = NoiseMdState::new(client_eph.public, None);
    let hello = ServerHello {
        ephemeral: server_eph.public.to_vec(),
        static_key: vec![1; 48],
        payload: vec![],
        extended_static: vec![],
    };
    assert_eq!(
        client.open_server_hello(&hello, &client_eph).err(),
        Some(HandshakeError::Phase {
            phase: HandshakePhase::ServerHello,
            message: "decrypt failed at server_hello.static",
            detail: PhaseDetail::HelloLengths { ephemeral_len: 32, static_len: 48, extended_static_len: 0, payload_len: 0 },
        })
    );
    let short = ServerHello { ephemeral: vec![1, 2], static_key: vec![], payload: vec![], extended_static: vec![] };
    let mut client = NoiseMdState::new(client_eph.public, None);
    assert_eq!(
        client.open_server_hello(&short, &client_eph).err(),
        Some(HandshakeError::Phase {
            phase: HandshakePhase::ServerHello,
            message: "invalid key length for server_hello.ephemeral",
            detail: PhaseDetail::Length(2),
        })
    );
}

#[test]
fn hello_and_finish_envelopes() {
    let hello = NoiseMdState::build_client_hello([8; 32]);
    let inner = hello.client_hello.expect("client hello");
    assert_eq!(inner.ephemeral, vec![8; 32]);
    assert!(inner.static_key.is_empty() && inner.payload.is_empty() && !inner.use_extended);
    assert!(hello.server_hello.is_none() && hello.client_finish.is_none());

    let finish = chatwarp_api::handshake::build_client_finish(vec![1, 2], vec![3]);
    let f = finish.client_finish.expect("client finish");
    assert_eq!(f.static_key, vec![1, 2]);
    assert_eq!(f.payload, vec![3]);
    assert!(f.extended_ciphertext.is_empty());
    assert!(finish.client_hello.is_none() && finish.server_hello.is_none());
}

#[test]
fn handshake_message_decrypt_failure() {
    let mut client = NoiseMdState::new([3; 32], None);
    assert!(client.decrypt_handshake_message(&[0; 20]).is_err());
}

fn phase(message: &'static str, detail: PhaseDetail) -> HandshakeError {
    HandshakeError::Phase { phase: HandshakePhase::ServerHello, message, detail }
}

#[test]
fn certificate_chain_is_checked_before_finishing() {
    let state = NoiseMdState::new([1; 32], None);
    let key = [7u8; 32];
    assert_eq!(state.verify_cert_chain(&Ok(chain_for(key)), &key), Ok(()));
    assert_eq!(
        state.verify_cert_chain(&Err("bad wire type".to_string()), &key),
        Err(phase("certificate decode failed", PhaseDetail::Decoder("bad wire type".to_string())))
    );
    let missing = CertChainRead { intermediate: None, leaf: None };
    assert_eq!(state.verify_cert_chain(&Ok(missing), &key), Err(phase("missing intermediate cert", PhaseDetail::Plain)));
    let wrong_issuer = CertChainRead {
        intermediate: Some(CertDetailsRead::Decoded(details(1, 9, [0; 32]))),
        leaf: Some(CertDetailsRead::Decoded(details(2, 1, key))),
    };
    assert_eq!(
        state.verify_cert_chain(&Ok(wrong_issuer), &key),
        Err(phase("unexpected cert issuer serial", PhaseDetail::IssuerSerial(9)))
    );
    let empty_leaf = CertChainRead { intermediate: Some(CertDetailsRead::Decoded(details(1, 0, [0; 32]))), leaf: Some(CertDetailsRead::Empty) };
    assert_eq!(state.verify_cert_chain(&Ok(empty_leaf), &key), Err(phase("invalid noise leaf certificate", PhaseDetail::Plain)));
    let mismatch = CertChainRead {
        intermediate: Some(CertDetailsRead::Decoded(details(1, 0, [0; 32]))),
        leaf: Some(CertDetailsRead::Decoded(details(2, 5, key))),
    };
    assert_eq!(
        state.verify_cert_chain(&Ok(mismatch), &key),
        Err(phase("noise leaf certificate chain mismatch", PhaseDetail::Serials { leaf_issuer_serial: 5, intermediate_serial: 1 }))
    );
    assert_eq!(
        state.verify_cert_chain(&Ok(chain_for([8; 32])), &key),
        Err(phase("noise leaf certificate key does not match server static key", PhaseDetail::Plain))
    );
}
