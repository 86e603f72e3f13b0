use chatwarp_api::json::{get_field, json_clone, obj_insert, obj_remove, JsonValue};
use chatwarp_api::server::{chat_id_from_body, session_from_body, session_request, should_fail_missing_session};
use chatwarp_api::webhooks::{enrich_payload, webhook_config_from_row};

fn from_serde(v: &serde_json::Value) -> JsonValue {
    match v {
        serde_json::Value::Null => JsonValue::Null,
        serde_json::Value::Bool(b) => JsonValue::Bool(*b),
        serde_json::Value::Number(n) => JsonValue::Number(n.to_string()),
        serde_json::Value::String(s) => JsonValue::Str(s.clone()),
        serde_json::Value::Array(a) => JsonValue::Array(a.iter().map(from_serde).collect()),
        serde_json::Value::Object(o) => JsonValue::Object(o.iter().map(|(k, v)| (k.clone(), from_serde(v))).collect()),
    }
}

fn to_serde(v: &JsonValue) -> serde_json::Value {
    match v {
        JsonValue::Null => serde_json::Value::Null,
        JsonValue::Bool(b) => serde_json::Value::Bool(*b),
        JsonValue::Number(n) => serde_json::Value::Number(n.parse().expect("number")),
        JsonValue::Str(s) => serde_json::Value::String(s.clone()),
        JsonValue::Array(a) => serde_json::Value::Array(a.iter().map(to_serde).collect()),
        JsonValue::Object(o) => {
            serde_json::Value::Object(o.iter().map(|(k, v)| (k.clone(), to_serde(v))).collect())
        },
    }
}

fn parse(text: &str) -> JsonValue {
    from_serde(&serde_json::from_str::<serde_json::Value>(text).expect("json"))
}

#[test]
fn object_insert_replaces_and_remove_drops() {
    let entries = vec![("a".to_string(), JsonValue::Bool(true)), ("b".to_string(), JsonValue::Null)];
    let replaced = obj_insert(entries, "a".to_string(), JsonValue::Str("x".to_string()));
    assert_eq!(replaced[0], ("a".to_string(), JsonValue::Str("x".to_string())));
    assert_eq!(replaced.len(), 2);
    let added = obj_insert(replaced, "c".to_string(), JsonValue::Null);
    assert_eq!(added.len(), 3);
    let removed = obj_remove(added, "b");
    assert_eq!(removed.iter().map(|e| e.0.as_str()).collect::<Vec<_>>(), vec!["a", "c"]);
}

#[test]
fn clone_and_field_access() {
    let doc = parse(r#"{"k": [1, "two", {"z": null}]}"#);
    let copy = json_clone(&doc);
    assert_eq!(copy, doc);
    assert!(get_field(&doc, "k").is_some());
    assert!(get_field(&doc, "missing").is_none());
    assert!(get_field(&JsonValue::Null, "k").is_none());
}

#[test]
fn enrich_strips_base64_unless_asked() {
    let payload = parse(
        r#"{"event":"MESSAGES_UPSERT","data":{"message":{"base64":"AAAA","text":"hi"},"messages":[{"message":{"base64":"BB","id":1}},{"other":true}]}}"#,
    );
    let enriched = to_serde(&enrich_payload(json_clone(&payload), "http://x/y", false, "2024-01-01T00:00:00+00:00", "http://localhost:8080"));
    let expected: serde_json::Value = serde_json::from_str(
        r#"{"event":"MESSAGES_UPSERT","data":{"message":{"text":"hi"},"messages":[{"message":{"id":1}},{"other":true}]},"destination":"http://x/y","date_time":"2024-01-01T00:00:00+00:00","server_url":"http://localhost:8080"}"#,
    )
    .expect("json");
    assert_eq!(enriched, expected);

    let kept = to_serde(&enrich_payload(payload, "d", true, "t", "s"));
    assert_eq!(kept["data"]["message"]["base64"], serde_json::Value::String("AAAA".to_string()));
    assert_eq!(kept["destination"], serde_json::Value::String("d".to_string()));

    let not_object = to_serde(&enrich_payload(JsonValue::Null, "d", false, "t", "s"));
    assert_eq!(not_object, serde_json::from_str::<serde_json::Value>(r#"{"destination":"d","date_time":"t","server_url":"s"}"#).expect("json"));
}

#[test]
fn webhook_row_parsing() {
    let row = parse(
        r#"{"webhook_enabled":true,"webhook_url":"http://hook","webhook_by_events":false,"webhook_base64":true,"webhook_headers":{"X-Key":"abc","n":1},"webhook_events":["A",2,"B"]}"#,
    );
    let c = webhook_config_from_row(&row).expect("config");
    assert!(c.enabled && !c.by_events && c.base64);
    assert_eq!(c.url, "http://hook");
    assert_eq!(c.headers, vec![("X-Key".to_string(), "abc".to_string())]);
    assert_eq!(c.events, Some(vec!["A".to_string(), "B".to_string()]));
    assert!(webhook_config_from_row(&parse(r#"{"webhook_url":""}"#)).is_none());
    let bare = webhook_config_from_row(&parse(r#"{"webhook_url":"u"}"#)).expect("config");
    assert!(!bare.enabled && bare.headers.is_empty() && bare.events.is_none());
}

#[test]
fn session_request_defaults() {
    let r = session_request(&parse(r#"{"session":"","webhook":{"url":"http://h","webhookByEvents":true,"headers":{"a":"b"}},"phone_number":"5511"}"#));
    assert_eq!(r.session, "default");
    assert!(r.webhook_enabled);
    assert_eq!(r.webhook_url, Some("http://h".to_string()));
    assert!(r.webhook_by_events);
    assert!(!r.webhook_base64);
    assert!(r.webhook_headers.is_some());
    assert!(r.webhook_events.is_none());
    assert_eq!(r.phone_number, Some("5511".to_string()));
    let named = session_request(&parse(r#"{"session":"s1","webhook":{"enabled":false}}"#));
    assert_eq!(named.session, "s1");
    assert!(!named.webhook_enabled);
    assert_eq!(named.webhook_url, None);
}

#[test]
fn body_helpers() {
    assert_eq!(session_from_body(&parse(r#"{"session":"abc"}"#)), "abc");
    assert_eq!(session_from_body(&parse(r#"{"session":1}"#)), "default");
    assert_eq!(chat_id_from_body(&parse(r#"{"chat_id":"c1","to":"t"}"#)), Some("c1".to_string()));
    assert_eq!(chat_id_from_body(&parse(r#"{"to":"t"}"#)), Some("t".to_string()));
    assert_eq!(chat_id_from_body(&parse(r#"{"chatId":5,"to":"t"}"#)), None);
    assert_eq!(chat_id_from_body(&parse(r#"{}"#)), None);
}

#[test]
fn missing_session_timeout() {
    let minute: i64 = 60_000_000_000;
    assert!(!should_fail_missing_session(None, 10 * minute, 1));
    assert!(should_fail_missing_session(Some(0), 2 * minute, 1));
    assert!(!should_fail_missing_session(Some(0), minute, 1));
}
