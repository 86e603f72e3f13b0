# chatwarp_api

A verified library for the WhatsApp Web client protocol and the HTTP API
around it, written in Verus. Every public function under `src/` carries a contract
that Verus proves; calls into cryptography, compression, regular expressions,
JSON and QR crates go through small trusted wrappers whose contracts name or
state what those crates compute.

## Layout

- `src/frame.rs`, `src/transport.rs`: 24-bit framing and the websocket reader's decisions.
- `src/noise.rs`, `src/noise_md.rs`: Noise state of the simple and the multi-device handshakes.
- `src/handshake.rs`, `src/payload.rs`, `src/proto.rs`: handshake steps, client payload, envelopes.
- `src/binary_node.rs`, `src/wabinary.rs`, `src/wabinary_roundtrip.rs`: the compact node codec
  and the WA binary codec, with their round-trip laws.
- `src/keys.rs`, `src/auth.rs`, `src/crypto.rs`: key pairs, XEdDSA signatures, auth state, crypto wrappers.
- `src/signal.rs`, `src/session.rs`: Signal-style stores and sessions.
- `src/message.rs`, `src/spam_report.rs`, `src/contacts.rs`: outbound messages, spam reports, JIDs.
- `src/server.rs`, `src/webhooks.rs`, `src/json.rs`: HTTP API rules, webhook delivery decisions, JSON documents.
- `src/version.rs`, `src/qr.rs`, `src/events.rs`, `src/error.rs`, `src/text.rs`: the rest.
- `app/`: websocket transport, the handshake driver, persisted JSON forms, version fetching,
  environment settings (ordinary Rust).
- `tests/`: tests of the library.
