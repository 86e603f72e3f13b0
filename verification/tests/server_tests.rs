use chatwarp_api::json::JsonValue;
use chatwarp_api::server::{login, logout_cookie, request_authorized, LoginOutcome};
use chatwarp_api::server::{
    backoff_seconds, constant_time_eq_bytes, event_allowed, event_path, get_cookie, hash_key, hash_password, hex_32,
    parse_hex_32, split_data_url, QueueStatus, Settings, ToggleEventReq,
};

fn vars(list: &[(&str, &str)]) -> Vec<(String, String)> {
    list.iter().map(|(k, v)| (k.to_string(), v.to_string())).collect()
}

#[test]
fn settings_read_switches_from_environment() {
    let settings = Settings::new(
        &vars(&[
            ("WEBHOOK_EVENTS_MESSAGES_UPSERT", "true"),
            ("WEBHOOK_EVENTS_QRCODE_UPDATED", "0"),
            ("WEBHOOK_EVENTS_SEND_MESSAGE", "1"),
            ("OTHER", "true"),
        ]),
        None,
    );
    assert!(settings.is_event_enabled("MESSAGES_UPSERT"));
    assert!(!settings.is_event_enabled("QRCODE_UPDATED"));
    assert!(settings.is_event_enabled("SEND_MESSAGE"));
    assert!(settings.is_event_enabled("UNLISTED"));
}

#[test]
fn allowed_list_restricts_events() {
    let settings = Settings::new(&vars(&[]), Some(r#"["MESSAGES_UPSERT"]"#));
    assert!(settings.is_event_enabled("MESSAGES_UPSERT"));
    assert!(!settings.is_event_enabled("SEND_MESSAGE"));
    let malformed = Settings::new(&vars(&[]), Some("not json"));
    assert!(malformed.allowed_events.is_none());
    assert!(malformed.is_event_enabled("SEND_MESSAGE"));
}

#[test]
fn toggled_event_reads_back() {
    let mut settings = Settings::default();
    settings.toggle_event(ToggleEventReq { event: "CALL".to_string(), enabled: false });
    assert!(!settings.is_event_enabled("CALL"));
    settings.toggle_event(ToggleEventReq { event: "CALL".to_string(), enabled: true });
    assert!(settings.is_event_enabled("CALL"));
}

#[test]
fn backoff_schedule() {
    assert_eq!(backoff_seconds(1), 5);
    assert_eq!(backoff_seconds(2), 30);
    assert_eq!(backoff_seconds(3), 120);
    assert_eq!(backoff_seconds(4), 600);
    assert_eq!(backoff_seconds(0), 600);
}

#[test]
fn queue_status_names() {
    assert_eq!(QueueStatus::Pending.as_str(), "pending");
    assert_eq!(QueueStatus::Processing.as_str(), "processing");
    assert_eq!(QueueStatus::Sent.as_str(), "sent");
    assert_eq!(QueueStatus::Failed.as_str(), "failed");
}

#[test]
fn event_path_lowercases_and_dashes() {
    assert_eq!(event_path("MESSAGES_UPSERT"), "messages-upsert");
    assert_eq!(event_path("qrcode"), "qrcode");
}

#[test]
fn webhook_event_filter() {
    assert!(event_allowed(&None, "X"));
    assert!(event_allowed(&Some(vec![]), "X"));
    assert!(event_allowed(&Some(vec!["X".to_string()]), "X"));
    assert!(!event_allowed(&Some(vec!["Y".to_string()]), "X"));
}

#[test]
fn password_hash_hex_roundtrip() {
    let digest = hash_password("abc");
    let text = hex_32(&digest);
    assert_eq!(text, "ba7816bf8f01cfea414140de5dae2223b00361a396177a9cb410ff61f20015ad");
    assert_eq!(parse_hex_32(&text), Some(digest));
    assert_eq!(parse_hex_32(&text.to_uppercase()), Some(digest));
    assert!(constant_time_eq_bytes(&digest, &hash_password("abc")));
    assert!(!constant_time_eq_bytes(&digest, &hash_password("abd")));
}

#[test]
fn hex_parse_rejects_bad_text() {
    assert_eq!(parse_hex_32("00"), None);
    let mut bad = "0".repeat(62);
    bad.push_str("zz");
    assert_eq!(parse_hex_32(&bad), None);
}

#[test]
fn cookie_lookup_finds_named_value() {
    assert_eq!(get_cookie("a=1; session = xyz ; b=2", "session"), Some("xyz".to_string()));
    assert_eq!(get_cookie("a=1; b=2", "c"), None);
    assert_eq!(get_cookie("a=1; broken; c=3", "c"), None);
}

#[test]
fn data_url_split() {
    let (mime, data) = split_data_url("data:image/png;base64,AAAA");
    assert_eq!(mime, Some("image/png".to_string()));
    assert_eq!(data, "AAAA");
    let (mime, data) = split_data_url("data:,xyz");
    assert_eq!(mime, None);
    assert_eq!(data, "xyz");
    let (mime, data) = split_data_url("AAAA");
    assert_eq!(mime, None);
    assert_eq!(data, "AAAA");
}

#[test]
fn authorization_paths() {
    let expected = hash_password("secret");
    assert!(request_authorized(None, "/anything", None, None, None));
    assert!(request_authorized(Some(expected), "/healthz", None, None, None));
    assert!(!request_authorized(Some(expected), "/instance", None, None, None));
    assert!(request_authorized(Some(expected), "/instance", None, Some("secret"), None));
    assert!(!request_authorized(Some(expected), "/instance", None, Some("wrong"), Some("Bearer secret")));
    assert!(request_authorized(Some(expected), "/instance", None, None, Some("Bearer secret")));
    assert!(!request_authorized(Some(expected), "/instance", None, None, Some("Basic secret")));
    let cookie = format!("a=1; chatwarp_auth={}", hex_32(&expected));
    assert!(request_authorized(Some(expected), "/instance", Some(&cookie), None, None));
    assert!(!request_authorized(Some(expected), "/instance", Some("chatwarp_auth=00"), None, None));
}

#[test]
fn login_sets_cookie() {
    let expected = hash_password("secret");
    assert_eq!(login(None, "x", 60), LoginOutcome::Open);
    assert_eq!(login(Some(expected), "nope", 60), LoginOutcome::Rejected);
    assert_eq!(
        login(Some(expected), "secret", 3600),
        LoginOutcome::Accepted {
            cookie: format!("chatwarp_auth={}; Max-Age=3600; HttpOnly; SameSite=Lax; Path=/", hex_32(&expected))
        }
    );
    assert_eq!(logout_cookie(), "chatwarp_auth=; Max-Age=0; HttpOnly; SameSite=Lax; Path=/");
}

#[test]
fn api_key_is_stored_as_sha256_hex() {
    assert_eq!(
        hash_key("abc"),
        "ba7816bf8f01cfea414140de5dae2223b00361a396177a9cb410ff61f20015ad"
    );
    assert_eq!(
        hash_key(""),
        "e3b0c44298fc1c149afbf4c8996fb92427ae41e4649b934ca495991b7852b855"
    );
}

#[test]
fn hex_text_stops_at_the_first_pair_that_is_not_hex() {
    let mut text = String::from("zza\u{e9}");
    while text.len() < 64 {
        text.push('a');
    }
    assert_eq!(text.len(), 64);
    assert_eq!(parse_hex_32(&text), None);
    let digest = hash_password("x");
    assert_eq!(parse_hex_32(&hex_32(&digest)), Some(digest));
}

#[test]
fn unimplemented_route_answers_501_with_its_path() {
    let (status, body) = chatwarp_api::server::not_implemented("/version");
    assert_eq!(status, 501);
    assert_eq!(
        body,
        JsonValue::Object(vec![
            ("error".to_string(), JsonValue::Str("not_implemented".to_string())),
            ("route".to_string(), JsonValue::Str("/version".to_string())),
        ])
    );
}
