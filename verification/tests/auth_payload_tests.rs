use ed25519_dalek::Signer;
use chatwarp_api::auth::{default_adv_secret_key, default_browser_metadata, default_country_code, AuthState, MeInfo};
use chatwarp_api::keys::{generate_registration_id, sign_message, signal_public_key, KeyPair};
use chatwarp_api::payload::{build_client_payload, build_registration_payload, default_history_sync_config};
use chatwarp_api::version::WaWebVersion;

fn hex(bytes: &[u8]) -> String {
    bytes.iter().map(|b| format!("{b:02x}")).collect()
}

fn unhex(text: &str) -> [u8; 32] {
    let mut out = [0u8; 32];
    for i in 0..32 {
        out[i] = u8::from_str_radix(&text[2 * i..2 * i + 2], 16).expect("hex");
    }
    out
}

#[test]
fn x25519_public_key_of_known_private_key() {
    let private = unhex("77076d0a7318a57d3c16c17251b26645df4c2f87ebc0992ab177fba51db92c2a");
    let pair = KeyPair::from_private(private);
    assert_eq!(hex(&pair.public), "8520f0098930a754748b7ddcb43ef75a0dbf3a0d26381af4eba4a98eaa9b4e6a");
    assert_eq!(pair.private, private);
}

#[test]
fn signal_key_has_type_prefix() {
    let key = signal_public_key(&[3; 32]);
    assert_eq!(key[0], 5);
    assert_eq!(&key[1..], &[3; 32]);
}

#[test]
fn signatures_are_deterministic_per_message() {
    let pair = KeyPair::from_private([11; 32]);
    let a = sign_message(pair.private, pair.public, b"one");
    let b = sign_message(pair.private, pair.public, b"one");
    let c = sign_message(pair.private, pair.public, b"two");
    assert_eq!(a, b);
    assert_ne!(a, c);
}

#[test]
fn new_auth_state_is_consistent() {
    let auth = AuthState::new();
    assert!(auth.identity.registration_id <= 0x3fff);
    assert_eq!(auth.identity.one_time_pre_keys.len(), 16);
    assert_eq!(KeyPair::from_private(auth.noise_key.private).public, auth.noise_key.public);
    assert_eq!(auth.metadata.country_code, "US");
    assert!(auth.metadata.me.is_none());
    assert!(generate_registration_id() <= 0x3fff);
}

#[test]
fn defaults() {
    let browser = default_browser_metadata();
    assert_eq!(browser.os, "Mac OS");
    assert_eq!(browser.browser, "Chrome");
    assert_eq!(browser.os_version, "14.4.1");
    assert_eq!(default_country_code(), "US");
    assert_eq!(default_adv_secret_key().len(), 44);
    let history = default_history_sync_config();
    assert_eq!(history.storage_quota_mb, 10240);
}

#[test]
fn registration_payload_fields() {
    let auth = AuthState::new();
    let version = WaWebVersion { major: 2, minor: 3000, patch: 1033846690 };
    let reg = build_registration_payload(&auth, version);
    assert_eq!(reg.e_regid, auth.identity.registration_id.to_be_bytes().to_vec());
    assert_eq!(reg.e_keytype, vec![5]);
    assert_eq!(reg.e_skey_id, vec![0, 0, 1]);
    assert_eq!(reg.e_ident, auth.identity.identity_key.public.to_vec());
    assert_eq!(hex(&reg.build_hash), "3a48d3fb30289cf97d8e79ce7005f1de");
}

#[test]
fn client_payload_for_new_and_known_devices() {
    let mut auth = AuthState::new();
    let version = WaWebVersion::fallback();
    let fresh = build_client_payload(&auth, version).expect("payload");
    assert_eq!(fresh.username, 0);
    assert!(fresh.device_pairing_data.is_some());
    assert!(!fresh.passive);

    auth.metadata.me = Some(MeInfo { jid: "5511:3@s.whatsapp.net".to_string(), push_name: None });
    let known = build_client_payload(&auth, version).expect("payload");
    assert_eq!(known.username, 5511);
    assert_eq!(known.device, 3);
    assert!(known.passive);
    assert!(known.pull);
    assert!(known.device_pairing_data.is_none());

    auth.metadata.me = Some(MeInfo { jid: "nobody".to_string(), push_name: None });
    assert!(build_client_payload(&auth, version).is_err());
}

fn clamped(mut bytes: [u8; 32]) -> [u8; 32] {
    bytes[0] &= 248;
    bytes[31] &= 127;
    bytes[31] |= 64;
    bytes
}

#[test]
fn xeddsa_signature_of_clamped_key_verifies() {
    let pair = KeyPair::from_private(clamped([11; 32]));
    let sig = sign_message(pair.private, pair.public, b"hello");
    assert!(chatwarp_api::keys::verify_message(pair.public, b"hello", &sig));
    assert!(!chatwarp_api::keys::verify_message(pair.public, b"hellp", &sig));
    let mut tampered = sig;
    tampered[40] ^= 1;
    assert!(!chatwarp_api::keys::verify_message(pair.public, b"hello", &tampered));
    assert!(!chatwarp_api::keys::verify_message(pair.public, b"hello", &sig[..63]));
}

#[test]
fn plain_ed25519_signature_verifies() {
    let signing = ed25519_dalek::SigningKey::from_bytes(&[7; 32]);
    let sig = signing.sign(b"cert");
    let public = signing.verifying_key().to_bytes();
    assert!(chatwarp_api::keys::verify_message(public, b"cert", &sig.to_bytes()));
    assert!(!chatwarp_api::keys::verify_message(public, b"other", &sig.to_bytes()));
}
