use vstd::prelude::*;

use crate::crypto::{base64_standard_encode, base64_standard_spec, random_32, x25519_public_spec};
use crate::keys::{generate_keypair, generate_registration_id, sign_message, signal_public_key, signature_spec, KeyPair};

verus! {

/// A key pair whose public half belongs to its private half.
pub open spec fn key_pair_valid(k: KeyPair) -> bool {
    k.public@ == x25519_public_spec(k.private@)
}

/// Default static noise key: a freshly generated key pair.
pub fn default_noise_key() -> (r: KeyPair)
    ensures
        key_pair_valid(r),
{
    generate_keypair()
}

/// Default adv secret: the base64 of 32 random bytes.
pub fn default_adv_secret_key() -> (r: String)
    ensures
        exists|b: Seq<u8>| b.len() == 32 && r@ == #[trigger] base64_standard_spec(b),
{
    let bytes = random_32();
    let r = base64_standard_encode(bytes.as_slice());
    assert(bytes@.len() == 32 && r@ == base64_standard_spec(bytes@));
    r
}

/// Default browser tuple.
pub fn default_browser_metadata() -> (r: BrowserMetadata)
    ensures
        r.os@ == "Mac OS"@,
        r.browser@ == "Chrome"@,
        r.os_version@ == "14.4.1"@,
{
    BrowserMetadata::default()
}

/// Default country code of the user agent.
pub fn default_country_code() -> (r: String)
    ensures
        r@ == "US"@,
{
    "US".to_owned()
}

/// WhatsApp account information available after successful login.
#[derive(Debug, PartialEq, Eq)]
pub struct MeInfo {
    /// Full JID for the connected account.
    pub jid: String,
    /// Optional profile display name.
    pub push_name: Option<String>,
}

/// Session metadata that evolves after authentication.
#[derive(Debug, PartialEq, Eq)]
pub struct SessionMetadata {
    /// Information about the currently logged in account.
    pub me: Option<MeInfo>,
    /// Last routing info advertised by WA edge routing stanza.
    pub routing_info: Option<Vec<u8>>,
    /// Browser/device metadata sent in client payload.
    pub browser: BrowserMetadata,
    /// ISO-3166 alpha-2 country code used in user agent payload.
    pub country_code: String,
}

impl Default for SessionMetadata {
    fn default() -> (r: Self)
        ensures
            r.me is None,
            r.routing_info is None,
            r.browser.os@ == "Mac OS"@,
            r.browser.browser@ == "Chrome"@,
            r.browser.os_version@ == "14.4.1"@,
            r.country_code@ == "US"@,
    {
        SessionMetadata {
            me: None,
            routing_info: None,
            browser: BrowserMetadata::default(),
            country_code: default_country_code(),
        }
    }
}

/// Browser/platform tuple used by the WA client payload.
#[derive(Debug, PartialEq, Eq)]
pub struct BrowserMetadata {
    /// OS/platform (example: Mac OS, Windows, Ubuntu).
    pub os: String,
    /// Browser family (example: Chrome).
    pub browser: String,
    /// OS version string.
    pub os_version: String,
}

impl Default for BrowserMetadata {
    fn default() -> (r: Self)
        ensures
            r.os@ == "Mac OS"@,
            r.browser@ == "Chrome"@,
            r.os_version@ == "14.4.1"@,
    {
        BrowserMetadata { os: "Mac OS".to_owned(), browser: "Chrome".to_owned(), os_version: "14.4.1".to_owned() }
    }
}

/// Identity and pre-key material persisted per instance.
#[derive(Debug, PartialEq, Eq)]
pub struct IdentityState {
    /// Static identity key used by Signal-compatible flows.
    pub identity_key: KeyPair,
    /// Registration identifier (14-bit) for the account.
    pub registration_id: u32,
    /// Signed pre-key pair.
    pub signed_pre_key: KeyPair,
    /// Signature for the signed pre-key.
    pub signed_pre_key_sig: [u8; 64],
    /// One-time pre-keys consumed during session bootstrap.
    pub one_time_pre_keys: Vec<KeyPair>,
}

/// Full auth state persisted for each instance.
#[derive(Debug, PartialEq, Eq)]
pub struct AuthState {
    /// Identity-related cryptographic state.
    pub identity: IdentityState,
    /// Static noise key persisted for MD handshake compatibility.
    pub noise_key: KeyPair,
    /// Base64-encoded adv secret used during pairing validation.
    pub adv_secret_key: String,
    /// Session metadata unrelated to cryptographic identity.
    pub metadata: SessionMetadata,
}

/// Number of one-time pre-keys generated with a new identity.
pub const ONE_TIME_PRE_KEY_COUNT: usize = 16;

impl AuthState {
    /// Creates a new auth state with generated identity and pre-keys: every key
    /// pair is consistent, the signed pre-key is signed by the identity key over
    /// its libsignal form, and the metadata holds the defaults.
    pub fn new() -> (r: Self)
        ensures
            key_pair_valid(r.identity.identity_key),
            key_pair_valid(r.identity.signed_pre_key),
            r.identity.signed_pre_key_sig@ == signature_spec(
                r.identity.identity_key.private@,
                r.identity.identity_key.public@,
                seq![5u8] + r.identity.signed_pre_key.public@,
            ),
            r.identity.registration_id <= 0x3FFF,
            r.identity.one_time_pre_keys@.len() == ONE_TIME_PRE_KEY_COUNT,
            forall|i: int|
                0 <= i < r.identity.one_time_pre_keys@.len() ==> key_pair_valid(
                    #[trigger] r.identity.one_time_pre_keys@[i],
                ),
            key_pair_valid(r.noise_key),
            exists|b: Seq<u8>| b.len() == 32 && r.adv_secret_key@ == #[trigger] base64_standard_spec(b),
            r.metadata.me is None,
            r.metadata.routing_info is None,
            r.metadata.browser.os@ == "Mac OS"@,
            r.metadata.browser.browser@ == "Chrome"@,
            r.metadata.browser.os_version@ == "14.4.1"@,
            r.metadata.country_code@ == "US"@,
    {
        let identity_key = generate_keypair();
        let signed_pre_key = generate_keypair();
        let bundle_key = signal_public_key(&signed_pre_key.public);
        let signed_pre_key_sig = sign_message(identity_key.private, identity_key.public, bundle_key.as_slice());
        let mut one_time_pre_keys: Vec<KeyPair> = Vec::new();
        let mut i: usize = 0;
        while i < ONE_TIME_PRE_KEY_COUNT
            invariant
                i <= ONE_TIME_PRE_KEY_COUNT,
                one_time_pre_keys@.len() == i,
                forall|j: int| 0 <= j < i ==> key_pair_valid(#[trigger] one_time_pre_keys@[j]),
            decreases ONE_TIME_PRE_KEY_COUNT - i,
        {
            one_time_pre_keys.push(generate_keypair());
            i += 1;
        }
        let registration_id = generate_registration_id();
        AuthState {
            identity: IdentityState {
                identity_key,
                registration_id,
                signed_pre_key,
                signed_pre_key_sig,
                one_time_pre_keys,
            },
            noise_key: default_noise_key(),
            adv_secret_key: default_adv_secret_key(),
            metadata: SessionMetadata::default(),
        }
    }
}

impl Default for AuthState {
    fn default() -> (r: Self)
        ensures
            key_pair_valid(r.identity.identity_key),
            key_pair_valid(r.noise_key),
            r.identity.registration_id <= 0x3FFF,
    {
        Self::new()
    }
}

} // verus!
