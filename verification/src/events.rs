use vstd::prelude::*;

verus! {

/// Events emitted by WA runtime components.
#[derive(Debug, PartialEq, Eq)]
pub enum Event {
    /// QR code payload generated for login.
    QrCode(String),
    /// Instance has entered connected state.
    Connected { instance_name: String },
    /// Instance has entered disconnected state.
    Disconnected { instance_name: String, reason: String },
    /// Outbound payload acknowledged by runner.
    OutboundAck { instance_name: String, bytes: usize },
    /// Reconnect backoff has been scheduled.
    ReconnectScheduled { instance_name: String, delay_secs: u64 },
}

/// Runtime record of one WA instance.
#[derive(Debug)]
pub struct RuntimeInstance {
    pub id: String,
    pub integration: String,
    pub state: String,
    pub token: Option<String>,
    pub number: Option<String>,
    pub owner_jid: Option<String>,
    pub profile_name: Option<String>,
    pub profile_pic_url: Option<String>,
}

} // verus!
