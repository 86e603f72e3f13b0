use vstd::prelude::*;

verus! {

/// Errors for binary node codec operations.
#[derive(Debug, Clone, PartialEq, Eq)]
pub enum BinaryNodeError {
    UnexpectedEof,
    InvalidSymbolType(u8),
    InvalidContentType(u8),
    InvalidUtf8,
    UnknownToken(u8),
    SymbolTooLong,
    PayloadTooLarge,
    TooManyAttributes,
    TooManyChildren,
    TrailingBytes,
    AttributeLookupFailed,
    InvalidFrame(&'static str),
    InvalidListTag(u8),
    UnknownTokenDictionary(u8),
    UnknownDoubleToken { dict: u8, index: u8 },
    InvalidPackedChar(u8),
    InvalidCompressedNode,
    InflateFailed,
}

/// Errors for Noise state operations.
#[derive(Debug, Clone, Copy, PartialEq, Eq)]
pub enum NoiseError {
    Cipher,
    InvalidKeyMaterial,
}

/// Errors for QR helpers.
#[derive(Debug, Clone, Copy, PartialEq, Eq)]
pub enum QrError {
    ChannelFull,
    ChannelClosed,
}

/// Errors for synthetic Signal session operations.
#[derive(Debug, Clone, Copy, PartialEq, Eq)]
pub enum SignalError {
    StorePoisoned(&'static str),
    MissingSession,
    InvalidCiphertext,
}

/// Errors for websocket framing.
#[derive(Debug, Clone, Copy, PartialEq, Eq)]
pub enum TransportError {
    InvalidFrame(&'static str),
    FrameTooLarge,
    Closed,
    ClosedWithCode(u16),
}

/// Errors for outbound message API and node construction.
#[derive(Debug, Clone, PartialEq, Eq)]
pub enum MessageError {
    InvalidOperation(String),
    InvalidContentForOperation { operation: String },
    Serialization,
    BinaryNode(BinaryNodeError),
}

/// Handshake phase in which a failure happened.
#[derive(Debug, Clone, Copy, PartialEq, Eq)]
pub enum HandshakePhase {
    ClientHello,
    ServerHello,
    ClientFinish,
    PostFinish,
}

/// Errors for handshake operations.
#[derive(Debug, Clone, PartialEq, Eq)]
pub enum HandshakeError {
    Transport(TransportError),
    Noise(NoiseError),
    Decode,
    Encode,
    MissingField(&'static str),
    InvalidKeyLength(&'static str),
    Phase { phase: HandshakePhase, message: &'static str, detail: PhaseDetail },
}

/// Values that complete the message of a phase error.
#[derive(Debug, Clone, PartialEq, Eq)]
pub enum PhaseDetail {
    /// The message says all.
    Plain,
    /// The length found where a key was expected.
    Length(u64),
    /// Lengths of the server hello fields: ephemeral, static, extended static, payload.
    HelloLengths { ephemeral_len: u64, static_len: u64, extended_static_len: u64, payload_len: u64 },
    /// The issuer serial found.
    IssuerSerial(u32),
    /// The leaf's issuer serial and the intermediate's serial.
    Serials { leaf_issuer_serial: u32, intermediate_serial: u32 },
    /// The decoder's own message.
    Decoder(String),
}

} // verus!
