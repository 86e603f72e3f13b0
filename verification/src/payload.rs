use vstd::prelude::*;

use crate::auth::AuthState;
use crate::crypto::{md5_digest, md5_spec};
use crate::error::{HandshakeError, HandshakePhase, PhaseDetail};
use crate::handshake::{encode_big_endian, jid_login_spec, parse_jid_for_login, big_endian_spec};
use crate::text::{bytes_to_vec, decimal_bytes, push_decimal, str_eq, trim, trim_spec};
use crate::version::WaWebVersion;

verus! {

/// Five-part application version.
#[derive(Debug, Clone, Copy, PartialEq, Eq, Structural)]
pub struct AppVersion {
    pub primary: u32,
    pub secondary: u32,
    pub tertiary: u32,
    pub quaternary: u32,
    pub quinary: u32,
}

/// Client platform announced in the user agent.
#[derive(Debug, Clone, Copy, PartialEq, Eq, Structural)]
pub enum Platform {
    Web,
}

/// Release channel announced in the user agent.
#[derive(Debug, Clone, Copy, PartialEq, Eq, Structural)]
pub enum ReleaseChannel {
    Release,
}

/// Operating system family of a web client.
#[derive(Debug, Clone, Copy, PartialEq, Eq, Structural)]
pub enum WebSubPlatform {
    WebBrowser,
    Darwin,
    Win32,
}

/// Network kind announced at login.
#[derive(Debug, Clone, Copy, PartialEq, Eq, Structural)]
pub enum ConnectType {
    WifiUnknown,
}

/// Reason announced for a connection.
#[derive(Debug, Clone, Copy, PartialEq, Eq, Structural)]
pub enum ConnectReason {
    UserActivated,
}

/// Browser announced in the device properties.
#[derive(Debug, Clone, Copy, PartialEq, Eq, Structural)]
pub enum PlatformType {
    Chrome,
}

/// User agent of the client payload.
#[derive(Debug)]
pub struct UserAgent {
    pub platform: Platform,
    pub app_version: Option<AppVersion>,
    pub mcc: String,
    pub mnc: String,
    pub os_version: String,
    pub manufacturer: String,
    pub device: String,
    pub os_build_number: String,
    pub phone_id: String,
    pub release_channel: ReleaseChannel,
    pub locale_language_iso_639_1: String,
    pub locale_country_iso_3166_1_alpha_2: String,
}

/// Web details of the client payload.
#[derive(Debug)]
pub struct WebInfo {
    pub web_sub_platform: WebSubPlatform,
}

/// History sync capabilities announced at registration.
#[derive(Debug, Clone, Copy, PartialEq, Eq, Structural)]
pub struct HistorySyncConfig {
    pub storage_quota_mb: u32,
    pub inline_initial_payload_in_e2ee_msg: bool,
    pub support_call_log_history: bool,
    pub support_bot_user_agent_chat_history: bool,
    pub support_cag_reactions_and_polls: bool,
    pub support_biz_hosted_msg: bool,
    pub support_recent_sync_chunk_message_count_tuning: bool,
    pub support_hosted_group_msg: bool,
    pub support_fbid_bot_chat_history: bool,
    pub support_message_association: bool,
    pub support_group_history: bool,
}

/// Device properties announced at registration.
#[derive(Debug)]
pub struct DeviceProps {
    pub os: String,
    pub version: Option<AppVersion>,
    pub platform_type: PlatformType,
    pub require_full_sync: bool,
    pub history_sync_config: Option<HistorySyncConfig>,
}

/// Key material sent when registering a new device.
#[derive(Debug)]
pub struct DevicePairingRegistrationData {
    pub e_regid: Vec<u8>,
    pub e_keytype: Vec<u8>,
    pub e_ident: Vec<u8>,
    pub e_skey_id: Vec<u8>,
    pub e_skey_val: Vec<u8>,
    pub e_skey_sig: Vec<u8>,
    pub build_hash: Vec<u8>,
    pub device_props: DeviceProps,
}

/// Login payload sent encrypted in the client finish message.
#[derive(Debug)]
pub struct ClientPayload {
    pub username: u64,
    pub passive: bool,
    pub user_agent: Option<UserAgent>,
    pub web_info: Option<WebInfo>,
    pub push_name: String,
    pub connect_type: ConnectType,
    pub connect_reason: ConnectReason,
    pub device: u32,
    pub device_pairing_data: Option<DevicePairingRegistrationData>,
    pub pull: bool,
    pub lid_db_migrated: bool,
}

/// History sync capabilities sent with every registration.
pub open spec fn history_sync_config_spec() -> HistorySyncConfig {
    HistorySyncConfig {
        storage_quota_mb: 10240,
        inline_initial_payload_in_e2ee_msg: true,
        support_call_log_history: false,
        support_bot_user_agent_chat_history: true,
        support_cag_reactions_and_polls: true,
        support_biz_hosted_msg: true,
        support_recent_sync_chunk_message_count_tuning: true,
        support_hosted_group_msg: true,
        support_fbid_bot_chat_history: true,
        support_message_association: true,
        support_group_history: false,
    }
}

/// History sync capabilities sent with every registration.
pub fn default_history_sync_config() -> (r: HistorySyncConfig)
    ensures
        r == history_sync_config_spec(),
{
    HistorySyncConfig {
        storage_quota_mb: 10240,
        inline_initial_payload_in_e2ee_msg: true,
        support_call_log_history: false,
        support_bot_user_agent_chat_history: true,
        support_cag_reactions_and_polls: true,
        support_biz_hosted_msg: true,
        support_recent_sync_chunk_message_count_tuning: true,
        support_hosted_group_msg: true,
        support_fbid_bot_chat_history: true,
        support_message_association: true,
        support_group_history: false,
    }
}

/// `major.minor.patch` in ASCII.
pub open spec fn version_text(v: WaWebVersion) -> Seq<u8> {
    decimal_bytes(v.major as nat) + seq![46u8] + decimal_bytes(v.minor as nat) + seq![46u8] + decimal_bytes(
        v.patch as nat,
    )
}

/// Registration data of a new device: registration id (4 bytes), key type,
/// identity key, signed pre-key id (3 bytes) with its key and signature, the
/// MD5 of the version text, and the device properties.
pub fn build_registration_payload(auth: &AuthState, version: WaWebVersion) -> (r: DevicePairingRegistrationData)
    ensures
        registration_spec(r, *auth, version),
{
    let mut text: Vec<u8> = Vec::new();
    push_decimal(&mut text, version.major as u128);
    text.push(46);
    push_decimal(&mut text, version.minor as u128);
    text.push(46);
    push_decimal(&mut text, version.patch as u128);
    assert(text@ =~= version_text(version));
    let build_hash = md5_digest(text.as_slice());
    let device_props = DeviceProps {
        os: auth.metadata.browser.os.clone(),
        version: Some(AppVersion { primary: 10, secondary: 15, tertiary: 7, quaternary: 0, quinary: 0 }),
        platform_type: PlatformType::Chrome,
        require_full_sync: false,
        history_sync_config: Some(default_history_sync_config()),
    };
    let r = DevicePairingRegistrationData {
        e_regid: encode_big_endian(auth.identity.registration_id, 4),
        e_keytype: vec![5u8],
        e_ident: bytes_to_vec(auth.identity.identity_key.public.as_slice()),
        e_skey_id: encode_big_endian(1, 3),
        e_skey_val: bytes_to_vec(auth.identity.signed_pre_key.public.as_slice()),
        e_skey_sig: bytes_to_vec(auth.identity.signed_pre_key_sig.as_slice()),
        build_hash: bytes_to_vec(build_hash.as_slice()),
        device_props,
    };
    assert(r.e_keytype@ =~= seq![5u8]);
    r
}

/// Sub-platform announced for an operating system name.
pub open spec fn web_sub_platform_spec(os: Seq<char>) -> WebSubPlatform {
    if os == "Mac OS"@ {
        WebSubPlatform::Darwin
    } else if os == "Windows"@ {
        WebSubPlatform::Win32
    } else {
        WebSubPlatform::WebBrowser
    }
}

/// Country announced in the user agent: the trimmed code, `US` when empty.
pub open spec fn locale_country_spec(code: Seq<char>) -> Seq<char> {
    if trim_spec(code).len() == 0 {
        "US"@
    } else {
        trim_spec(code)
    }
}

/// Registration data for `auth` and `version`: the registration id (4 bytes,
/// big-endian), key type 5, the identity key, signed pre-key id 1 (3 bytes),
/// the signed pre-key and its signature, the MD5 of `major.minor.patch`, and
/// the device properties (the browser's OS, app version 10.15.7, Chrome, no
/// full sync, the default history sync configuration).
pub open spec fn registration_spec(r: DevicePairingRegistrationData, auth: AuthState, version: WaWebVersion) -> bool {
    &&& r.e_regid@ == big_endian_spec(auth.identity.registration_id, 4)
    &&& r.e_keytype@ == seq![5u8]
    &&& r.e_ident@ == auth.identity.identity_key.public@
    &&& r.e_skey_id@ == big_endian_spec(1, 3)
    &&& r.e_skey_val@ == auth.identity.signed_pre_key.public@
    &&& r.e_skey_sig@ == auth.identity.signed_pre_key_sig@
    &&& r.build_hash@ == md5_spec(version_text(version))
    &&& r.device_props.os@ == auth.metadata.browser.os@
    &&& r.device_props.version == Some(AppVersion { primary: 10, secondary: 15, tertiary: 7, quaternary: 0, quinary: 0 })
    &&& r.device_props.platform_type == PlatformType::Chrome
    &&& !r.device_props.require_full_sync
    &&& r.device_props.history_sync_config == Some(history_sync_config_spec())
}

/// Builds the login payload: a web user agent for the given version, and
/// either the persisted account (number and device from `me.jid`) or, for a
/// new device, the registration data.
pub fn build_client_payload(auth: &AuthState, version: WaWebVersion) -> (r: Result<ClientPayload, HandshakeError>)
    ensures
        match &auth.metadata.me {
            Some(me) => match jid_login_spec(me.jid@) {
                None => r == Err::<ClientPayload, HandshakeError>(
                    HandshakeError::Phase { phase: HandshakePhase::ClientFinish, message: "invalid persisted me.jid", detail: PhaseDetail::Plain },
                ),
                Some((username, device)) => r matches Ok(p) && p.username == username && p.device == device
                    && p.passive && p.pull && !p.lid_db_migrated && p.device_pairing_data is None,
            },
            None => r matches Ok(p) && p.username == 0 && p.device == 0 && !p.passive && !p.pull
                && !p.lid_db_migrated && (p.device_pairing_data matches Some(d) && registration_spec(d, *auth, version)),
        },
        r matches Ok(p) ==> ({
            &&& p.user_agent matches Some(ua) && ua.platform == Platform::Web && ua.app_version == Some(
                AppVersion {
                    primary: version.major,
                    secondary: version.minor,
                    tertiary: version.patch,
                    quaternary: 0,
                    quinary: 0,
                },
            ) && ua.mcc@ == "000"@ && ua.mnc@ == "000"@ && ua.os_version@ == auth.metadata.browser.os_version@
                && ua.manufacturer@.len() == 0 && ua.device@ == "Desktop"@ && ua.os_build_number@ == "0.1"@
                && ua.phone_id@.len() == 0 && ua.release_channel == ReleaseChannel::Release
                && ua.locale_language_iso_639_1@ == "en"@ && ua.locale_country_iso_3166_1_alpha_2@
                == locale_country_spec(auth.metadata.country_code@)
            &&& p.web_info matches Some(w) && w.web_sub_platform == web_sub_platform_spec(auth.metadata.browser.os@)
            &&& p.push_name@ == match &auth.metadata.me {
                Some(me) => match &me.push_name {
                    Some(n) => n@,
                    None => "Chatwarp"@,
                },
                None => "Chatwarp"@,
            }
            &&& p.connect_type == ConnectType::WifiUnknown
            &&& p.connect_reason == ConnectReason::UserActivated
        }),
{
    let browser = &auth.metadata.browser;
    let country_code = trim(auth.metadata.country_code.as_str());
    let locale_country = if country_code.unicode_len() == 0 {
        "US"
    } else {
        country_code
    };
    let user_agent = UserAgent {
        platform: Platform::Web,
        app_version: Some(
            AppVersion {
                primary: version.major,
                secondary: version.minor,
                tertiary: version.patch,
                quaternary: 0,
                quinary: 0,
            },
        ),
        mcc: "000".to_owned(),
        mnc: "000".to_owned(),
        os_version: browser.os_version.clone(),
        manufacturer: String::new(),
        device: "Desktop".to_owned(),
        os_build_number: "0.1".to_owned(),
        phone_id: String::new(),
        release_channel: ReleaseChannel::Release,
        locale_language_iso_639_1: "en".to_owned(),
        locale_country_iso_3166_1_alpha_2: locale_country.to_owned(),
    };
    let web_sub_platform = if str_eq(browser.os.as_str(), "Mac OS") {
        WebSubPlatform::Darwin
    } else if str_eq(browser.os.as_str(), "Windows") {
        WebSubPlatform::Win32
    } else {
        WebSubPlatform::WebBrowser
    };
    let push_name = match &auth.metadata.me {
        Some(me) => match &me.push_name {
            Some(n) => n.clone(),
            None => "Chatwarp".to_owned(),
        },
        None => "Chatwarp".to_owned(),
    };
    let mut payload = ClientPayload {
        username: 0,
        passive: false,
        user_agent: Some(user_agent),
        web_info: Some(WebInfo { web_sub_platform }),
        push_name,
        connect_type: ConnectType::WifiUnknown,
        connect_reason: ConnectReason::UserActivated,
        device: 0,
        device_pairing_data: None,
        pull: false,
        lid_db_migrated: false,
    };
    match &auth.metadata.me {
        Some(me) => {
            let (username, device) = match parse_jid_for_login(me.jid.as_str()) {
                Some(v) => v,
                None => {
                    return Err(
                        HandshakeError::Phase { phase: HandshakePhase::ClientFinish, message: "invalid persisted me.jid", detail: PhaseDetail::Plain },
                    );
                },
            };
            payload.username = username;
            payload.device = device;
            payload.passive = true;
            payload.pull = true;
            payload.lid_db_migrated = false;
        },
        None => {
            payload.device_pairing_data = Some(build_registration_payload(auth, version));
        },
    }
    Ok(payload)
}

} // verus!
