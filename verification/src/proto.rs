use vstd::prelude::*;

verus! {

/// Minimal handshake envelope of the synthetic Noise flow.
#[derive(Debug, Clone, PartialEq, Eq)]
pub struct HandshakeMessage {
    pub client_ephemeral: Vec<u8>,
    pub server_ephemeral: Vec<u8>,
    pub encrypted_static: Vec<u8>,
    pub payload: Vec<u8>,
}

/// `ClientHello` of the WA MD handshake.
#[derive(Debug, Clone, PartialEq, Eq)]
pub struct ClientHello {
    pub ephemeral: Vec<u8>,
    pub static_key: Vec<u8>,
    pub payload: Vec<u8>,
    pub use_extended: bool,
    pub extended_ciphertext: Vec<u8>,
}

/// `ServerHello` of the WA MD handshake.
#[derive(Debug, Clone, PartialEq, Eq)]
pub struct ServerHello {
    pub ephemeral: Vec<u8>,
    pub static_key: Vec<u8>,
    pub payload: Vec<u8>,
    pub extended_static: Vec<u8>,
}

/// `ClientFinish` of the WA MD handshake.
#[derive(Debug, Clone, PartialEq, Eq)]
pub struct ClientFinish {
    pub static_key: Vec<u8>,
    pub payload: Vec<u8>,
    pub extended_ciphertext: Vec<u8>,
}

/// WA MD handshake envelope: one of its three parts is set.
#[derive(Debug, Clone, PartialEq, Eq)]
pub struct MdHandshakeMessage {
    pub client_hello: Option<ClientHello>,
    pub server_hello: Option<ServerHello>,
    pub client_finish: Option<ClientFinish>,
}

/// Decoded details of a Noise certificate.
#[derive(Debug, Clone, PartialEq, Eq)]
pub struct CertDetails {
    pub serial: u32,
    pub issuer_serial: u32,
    pub key: Vec<u8>,
    pub not_before: u64,
    pub not_after: u64,
}

/// A certificate of the chain as read: details absent or empty, details that
/// fail to decode (with the decoder's message), or decoded details.
#[derive(Debug, Clone, PartialEq, Eq)]
pub enum CertDetailsRead {
    Empty,
    Invalid(String),
    Decoded(CertDetails),
}

/// The certificate chain of a server hello as read: each certificate when present.
#[derive(Debug, Clone, PartialEq, Eq)]
pub struct CertChainRead {
    pub intermediate: Option<CertDetailsRead>,
    pub leaf: Option<CertDetailsRead>,
}

} // verus!
