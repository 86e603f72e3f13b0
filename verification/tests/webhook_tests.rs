use chatwarp_api::server::{claim_for_sessions_sql, signed_decimal_string, QueueStatus};
use chatwarp_api::webhooks::{
    webhook_cache_fresh,
    delivery_error, env_flag, global_webhook_config, instance_webhook_config, job_outcome, retry_plan, target_url,
    trim_end_matches_char, webhook_targets, JobOutcome, WebhookConfig,
};

fn config(url: &str, enabled: bool, by_events: bool, events: Option<Vec<String>>) -> WebhookConfig {
    WebhookConfig { enabled, url: url.to_string(), by_events, base64: false, headers: vec![], events }
}

#[test]
fn flags_are_true_or_one() {
    assert!(env_flag(Some("true")));
    assert!(env_flag(Some("1")));
    assert!(!env_flag(Some("yes")));
    assert!(!env_flag(None));
}

#[test]
fn instance_config_needs_a_url() {
    assert!(instance_webhook_config(Some(true), None, None, None, vec![], None).is_none());
    assert!(instance_webhook_config(Some(true), Some(String::new()), None, None, vec![], None).is_none());
    let c = instance_webhook_config(None, Some("http://h".to_string()), Some(true), None, vec![], None).expect("config");
    assert!(!c.enabled);
    assert!(c.by_events);
    assert!(!c.base64);
    assert_eq!(c.url, "http://h");
}

#[test]
fn global_config_needs_flag_event_and_url() {
    let c = global_webhook_config(Some("1"), true, Some("http://g".to_string()), Some("true"), None).expect("config");
    assert!(c.enabled && c.by_events && !c.base64);
    assert!(c.events.is_none());
    assert!(global_webhook_config(Some("0"), true, Some("http://g".to_string()), None, None).is_none());
    assert!(global_webhook_config(Some("1"), false, Some("http://g".to_string()), None, None).is_none());
    assert!(global_webhook_config(Some("1"), true, None, None, None).is_none());
}

#[test]
fn targets_filter_the_instance_webhook() {
    let only_calls = config("http://i", true, false, Some(vec!["CALL".to_string()]));
    let targets = webhook_targets(Some(only_calls), Some(config("http://g", true, false, None)), "SEND_MESSAGE");
    assert_eq!(targets.len(), 1);
    assert_eq!(targets[0].url, "http://g");
    let targets = webhook_targets(Some(config("http://i", true, false, None)), None, "SEND_MESSAGE");
    assert_eq!(targets.len(), 1);
    assert!(webhook_targets(Some(config("http://i", false, false, None)), None, "X").is_empty());
}

#[test]
fn target_urls() {
    assert_eq!(target_url(&config("http://h/hook//", true, true, None), "MESSAGES_UPSERT"), "http://h/hook/messages-upsert");
    assert_eq!(target_url(&config("http://h/hook/", true, false, None), "MESSAGES_UPSERT"), "http://h/hook/");
    assert_eq!(trim_end_matches_char("a//", '/'), "a");
    assert_eq!(trim_end_matches_char("///", '/'), "");
}

#[test]
fn delivery_errors_and_outcomes() {
    assert_eq!(delivery_error(&Ok(204)), None);
    assert_eq!(delivery_error(&Ok(500)), Some("http 500".to_string()));
    assert_eq!(delivery_error(&Ok(199)), Some("http 199".to_string()));
    assert_eq!(delivery_error(&Err("timeout".to_string())), Some("timeout".to_string()));
    assert_eq!(job_outcome(2, &vec![None, None]), JobOutcome::Sent);
    assert_eq!(
        job_outcome(2, &vec![Some("a".to_string()), Some("b".to_string()), None]),
        JobOutcome::Retry { attempts: 3, error: "b".to_string() }
    );
}

#[test]
fn retry_plans() {
    assert_eq!(retry_plan(1), (QueueStatus::Pending, 5));
    assert_eq!(retry_plan(4), (QueueStatus::Pending, 600));
    assert_eq!(retry_plan(5), (QueueStatus::Failed, 600));
}

#[test]
fn claim_query_lists_one_placeholder_per_session() {
    assert_eq!(claim_for_sessions_sql(0, 10), None);
    let sql = claim_for_sessions_sql(3, 25).expect("query");
    assert!(sql.starts_with(
        "WITH claimed AS ( SELECT id FROM api_messages WHERE status = 'queued' AND session IN ($1, $2, $3) ORDER BY created_at LIMIT 25 FOR UPDATE SKIP LOCKED ), updated AS ("
    ));
    assert!(sql.ends_with("SELECT row_to_json(updated)::jsonb as value FROM updated"));
    assert_eq!(signed_decimal_string(-42), "-42");
    assert_eq!(signed_decimal_string(i64::MIN), "-9223372036854775808");
    assert_eq!(signed_decimal_string(0), "0");
}

#[test]
fn webhook_config_is_served_from_memory_for_thirty_seconds() {
    assert!(webhook_cache_fresh(1_000, 1_000));
    assert!(webhook_cache_fresh(1_000, 30_999));
    assert!(!webhook_cache_fresh(1_000, 31_000));
    assert!(webhook_cache_fresh(5_000, 1_000));
}
