pub mod auth;
pub mod binary_node;
pub mod contacts;
pub mod crypto;
pub mod error;
pub mod events;
pub mod frame;
pub mod handshake;
pub mod json;
pub mod keys;
pub mod message;
pub mod noise;
pub mod noise_md;
pub mod payload;
pub mod proto;
pub mod server;
pub mod qr;
pub mod session;
pub mod signal;
pub mod spam_report;
pub mod text;
pub mod transport;
pub mod version;
pub mod webhooks;
pub mod wabinary;
pub mod wabinary_roundtrip;
