use vstd::prelude::*;

use crate::server::{backoff_seconds, backoff_spec, event_allowed, event_allowed_spec, event_path, lowercase_spec, strings_view, QueueStatus};
use crate::json::{
    as_bool, as_str, entries_view, find_key, get_field, items_view, jget, jinsert, jremove, json_clone, json_view,
    lemma_entries_drop_first, lemma_jinsert_at, lemma_json_view_unfold, obj_insert, obj_remove, view_bool, view_field,
    view_str, JsonValue, JsonView,
};
use crate::text::{decimal_chars, decimal_string, replace_char_spec, str_chars, str_concat, str_eq};

verus! {

/// Where and how the webhook of an instance (or the global one) is delivered.
#[derive(Debug, Clone)]
pub struct WebhookConfig {
    pub enabled: bool,
    pub url: String,
    pub by_events: bool,
    pub base64: bool,
    pub headers: Vec<(String, String)>,
    pub events: Option<Vec<String>>,
}

/// An environment flag is on when its value is `true` or `1`.
pub open spec fn flag_spec(value: Option<Seq<char>>) -> bool {
    match value {
        Some(v) => v == "true"@ || v == "1"@,
        None => false,
    }
}

/// Whether an environment flag is on.
pub fn env_flag(value: Option<&str>) -> (r: bool)
    ensures
        r == flag_spec(
            match value {
                Some(v) => Some(v@),
                None => None,
            },
        ),
{
    match value {
        Some(v) => str_eq(v, "true") || str_eq(v, "1"),
        None => false,
    }
}

/// How long an instance's webhook configuration, once read, is served from
/// memory, in milliseconds.
pub const WEBHOOK_CACHE_TTL_MS: u64 = 30000;

/// Whether a configuration read at `cached_at_ms` is still served at `now_ms`
/// (monotonic milliseconds): its age, never negative, is under the time to live.
pub fn webhook_cache_fresh(cached_at_ms: u64, now_ms: u64) -> (r: bool)
    ensures
        r == (now_ms < cached_at_ms + WEBHOOK_CACHE_TTL_MS),
{
    if now_ms <= cached_at_ms {
        true
    } else {
        now_ms - cached_at_ms < WEBHOOK_CACHE_TTL_MS
    }
}

/// Webhook of an instance read from its stored row: none without a URL;
/// missing switches are off.
pub fn instance_webhook_config(
    enabled: Option<bool>,
    url: Option<String>,
    by_events: Option<bool>,
    base64: Option<bool>,
    headers: Vec<(String, String)>,
    events: Option<Vec<String>>,
) -> (r: Option<WebhookConfig>)
    ensures
        match url {
            Some(u) if u@.len() > 0 => r matches Some(c) && c.url@ == u@ && c.enabled == (enabled == Some(true))
                && c.by_events == (by_events == Some(true)) && c.base64 == (base64 == Some(true))
                && c.headers@ == headers@ && c.events == events,
            _ => r is None,
        },
{
    let url = match url {
        Some(u) => u,
        None => return None,
    };
    if url.as_str().unicode_len() == 0 {
        return None;
    }
    Some(
        WebhookConfig {
            enabled: match enabled {
                Some(b) => b,
                None => false,
            },
            url,
            by_events: match by_events {
                Some(b) => b,
                None => false,
            },
            base64: match base64 {
                Some(b) => b,
                None => false,
            },
            headers,
            events,
        },
    )
}

/// The global webhook: present when its flag is on, the event is enabled
/// in the settings and a URL is set; it has no headers and no event list.
pub fn global_webhook_config(
    enabled_flag: Option<&str>,
    event_enabled: bool,
    url: Option<String>,
    by_events_flag: Option<&str>,
    base64_flag: Option<&str>,
) -> (r: Option<WebhookConfig>)
    ensures
        (flag_spec(
            match enabled_flag {
                Some(v) => Some(v@),
                None => None,
            },
        ) && event_enabled && url is Some) ==> (r matches Some(c) && c.enabled && c.url@ == url->Some_0@
            && c.by_events == flag_spec(
            match by_events_flag {
                Some(v) => Some(v@),
                None => None,
            },
        ) && c.base64 == flag_spec(
            match base64_flag {
                Some(v) => Some(v@),
                None => None,
            },
        ) && c.headers@.len() == 0 && c.events is None),
        !(flag_spec(
            match enabled_flag {
                Some(v) => Some(v@),
                None => None,
            },
        ) && event_enabled && url is Some) ==> r is None,
{
    if !env_flag(enabled_flag) {
        return None;
    }
    if !event_enabled {
        return None;
    }
    let url = match url {
        Some(u) => u,
        None => return None,
    };
    Some(
        WebhookConfig {
            enabled: true,
            url,
            by_events: env_flag(by_events_flag),
            base64: env_flag(base64_flag),
            headers: Vec::new(),
            events: None,
        },
    )
}

/// Whether an instance webhook receives an event: it is enabled and its
/// event list (if any) lets the event through.
pub open spec fn instance_receives(c: WebhookConfig, event: Seq<char>) -> bool {
    c.enabled && event_allowed_spec(
        match c.events {
            Some(v) => Some(strings_view(v@)),
            None => None,
        },
        event,
    )
}

/// Targets of an event: the instance webhook when it receives the event,
/// then the global webhook.
pub fn webhook_targets(instance: Option<WebhookConfig>, global: Option<WebhookConfig>, event: &str) -> (r: Vec<
    WebhookConfig,
>)
    ensures
        r@ == (match instance {
            Some(c) => if instance_receives(c, event@) {
                seq![c]
            } else {
                Seq::empty()
            },
            None => Seq::empty(),
        }) + (match global {
            Some(g) => seq![g],
            None => Seq::empty(),
        }),
{
    let mut targets: Vec<WebhookConfig> = Vec::new();
    match instance {
        Some(c) => {
            if c.enabled && event_allowed(&c.events, event) {
                targets.push(c);
            }
        },
        None => {},
    }
    let ghost first = targets@;
    match global {
        Some(g) => {
            targets.push(g);
        },
        None => {},
    }
    assert(targets@ =~= first + (match global {
        Some(g) => seq![g],
        None => Seq::<WebhookConfig>::empty(),
    }));
    targets
}

/// `s` without its trailing `c` characters (`str::trim_end_matches`).
pub open spec fn trim_end_char(s: Seq<char>, c: char) -> Seq<char>
    decreases s.len(),
{
    if s.len() > 0 && s.last() == c {
        trim_end_char(s.drop_last(), c)
    } else {
        s
    }
}

/// Removes the trailing `c` characters of a string.
pub fn trim_end_matches_char(s: &str, c: char) -> (r: String)
    ensures
        r@ == trim_end_char(s@, c),
{
    let chars = str_chars(s);
    let mut end: usize = chars.len();
    assert(s@.take(end as int) =~= s@);
    while end > 0 && chars[end - 1] == c
        invariant
            end <= chars@.len(),
            chars@ == s@,
            trim_end_char(s@, c) == trim_end_char(s@.take(end as int), c),
        decreases end,
    {
        assert(s@.take(end as int).drop_last() =~= s@.take(end - 1));
        end -= 1;
    }
    assert(s@.subrange(0, end as int) =~= s@.take(end as int));
    assert(trim_end_char(s@.take(end as int), c) == s@.take(end as int));
    s.substring_char(0, end).to_owned()
}

/// URL a target is posted to: with events in the path, the URL without its
/// trailing slashes, `/`, and the event's path segment.
pub open spec fn target_url_spec(url: Seq<char>, by_events: bool, event: Seq<char>) -> Seq<char> {
    if by_events {
        trim_end_char(url, '/') + seq!['/'] + replace_char_spec(lowercase_spec(event), '_', "-"@)
    } else {
        url
    }
}

/// URL a webhook target is posted to for an event.
pub fn target_url(target: &WebhookConfig, event: &str) -> (r: String)
    ensures
        r@ == target_url_spec(target.url@, target.by_events, event@),
{
    if target.by_events {
        proof {
            reveal_strlit("/");
        }
        let base = trim_end_matches_char(target.url.as_str(), '/');
        let with_slash = str_concat(base.as_str(), "/");
        let path = event_path(event);
        str_concat(with_slash.as_str(), path.as_str())
    } else {
        target.url.clone()
    }
}

/// Error of one delivery: none for a 2xx status, `http <status>` for
/// another status, the transport's message when the request failed.
pub open spec fn delivery_error_spec(result: Result<u16, Seq<char>>) -> Option<Seq<char>> {
    match result {
        Ok(status) => if 200 <= status < 300 {
            None
        } else {
            Some("http "@ + decimal_chars(status as nat))
        },
        Err(e) => Some(e),
    }
}

/// Error of one delivery attempt, from its HTTP status or transport error.
pub fn delivery_error(result: &Result<u16, String>) -> (r: Option<String>)
    ensures
        r matches Some(s) ==> delivery_error_spec(
            match result {
                Ok(x) => Ok(*x),
                Err(e) => Err(e@),
            },
        ) == Some(s@),
        r is None ==> delivery_error_spec(
            match result {
                Ok(x) => Ok(*x),
                Err(e) => Err(e@),
            },
        ) is None,
{
    match result {
        Ok(status) => {
            if 200 <= *status && *status < 300 {
                None
            } else {
                let digits = decimal_string(*status as u128);
                Some(str_concat("http ", digits.as_str()))
            }
        },
        Err(e) => Some(e.clone()),
    }
}

/// What becomes of a job once every target was tried.
#[derive(Debug, Clone, PartialEq, Eq)]
pub enum JobOutcome {
    /// Every delivery succeeded.
    Sent,
    /// Some delivery failed: the job is retried with one more attempt and
    /// the last error.
    Retry { attempts: i32, error: String },
}

/// The last error of a list of delivery results.
pub open spec fn last_error(errors: Seq<Option<String>>) -> Option<Seq<char>>
    decreases errors.len(),
{
    if errors.len() == 0 {
        None
    } else {
        match errors.last() {
            Some(e) => Some(e@),
            None => last_error(errors.drop_last()),
        }
    }
}

/// Outcome of a job from the errors of its deliveries.
pub fn job_outcome(attempts: i32, errors: &Vec<Option<String>>) -> (r: JobOutcome)
    requires
        last_error(errors@) is Some ==> attempts < i32::MAX,
    ensures
        match last_error(errors@) {
            None => r == JobOutcome::Sent,
            Some(e) => r matches JobOutcome::Retry { attempts: a, error: s } && a == attempts + 1 && s@ == e,
        },
{
    let mut i: usize = errors.len();
    assert(errors@.take(i as int) =~= errors@);
    while i > 0
        invariant
            i <= errors@.len(),
            last_error(errors@) is Some ==> attempts < i32::MAX,
            last_error(errors@) == last_error(errors@.take(i as int)),
        decreases i,
    {
        match &errors[i - 1] {
            Some(e) => {
                assert(errors@.take(i as int).last() == errors@[i - 1]);
                return JobOutcome::Retry { attempts: attempts + 1, error: e.clone() };
            },
            None => {
                assert(errors@.take(i as int).drop_last() =~= errors@.take(i - 1));
            },
        }
        i -= 1;
    }
    JobOutcome::Sent
}

/// Status and delay (seconds) of a job retried for the `attempts`-th time:
/// failed for good from the fifth attempt on, else pending with backoff.
pub fn retry_plan(attempts: i32) -> (r: (QueueStatus, i32))
    ensures
        attempts >= 5 ==> r == (QueueStatus::Failed, 600i32),
        attempts < 5 ==> r == (QueueStatus::Pending, backoff_spec(attempts)),
{
    if attempts >= 5 {
        (QueueStatus::Failed, 600)
    } else {
        (QueueStatus::Pending, backoff_seconds(attempts))
    }
}

/// The entries with the `base64` field removed from the object under `key`,
/// when `key` holds an object.
pub open spec fn strip_base64_under(e: Seq<(Seq<char>, JsonView)>, key: Seq<char>) -> Seq<(Seq<char>, JsonView)> {
    match jget(e, key) {
        Some(JsonView::Object(m)) => jinsert(e, key, JsonView::Object(jremove(m, "base64"@))),
        _ => e,
    }
}

/// An entry of `data.messages` without the `base64` field of its `message`.
pub open spec fn strip_entry(entry: JsonView) -> JsonView {
    match entry {
        JsonView::Object(e) => JsonView::Object(strip_base64_under(e, "message"@)),
        _ => entry,
    }
}

/// `data` without the `base64` field of `message`, nor of the `message` of
/// each entry of `messages`.
pub open spec fn strip_data(e: Seq<(Seq<char>, JsonView)>) -> Seq<(Seq<char>, JsonView)> {
    let e1 = strip_base64_under(e, "message"@);
    match jget(e1, "messages"@) {
        Some(JsonView::Array(a)) => jinsert(
            e1,
            "messages"@,
            JsonView::Array(Seq::new(a.len(), |i: int| strip_entry(a[i]))),
        ),
        _ => e1,
    }
}

/// Payload posted to a webhook: the event payload's fields (none when it is
/// not an object), without the media base64 unless the target asked for it,
/// with the destination, the time and the server URL set.
pub open spec fn enrich_spec(
    payload: JsonView,
    destination: Seq<char>,
    base64_enabled: bool,
    date_time: Seq<char>,
    server_url: Seq<char>,
) -> JsonView {
    let obj = match payload {
        JsonView::Object(e) => e,
        _ => Seq::empty(),
    };
    let obj1 = if base64_enabled {
        obj
    } else {
        match jget(obj, "data"@) {
            Some(JsonView::Object(d)) => jinsert(obj, "data"@, JsonView::Object(strip_data(d))),
            _ => obj,
        }
    };
    JsonView::Object(
        jinsert(
            jinsert(jinsert(obj1, "destination"@, JsonView::Str(destination)), "date_time"@, JsonView::Str(date_time)),
            "server_url"@,
            JsonView::Str(server_url),
        ),
    )
}

fn strip_base64_under_exec(e: Vec<(String, JsonValue)>, key: &str) -> (r: Vec<(String, JsonValue)>)
    ensures
        entries_view(r@) == strip_base64_under(entries_view(e@), key@),
{
    let mut e = e;
    match find_key(&e, key) {
        Some(i) => {
            let is_object = match &e[i].1 {
                JsonValue::Object(_) => true,
                _ => false,
            };
            if !is_object {
                proof {
                    lemma_json_view_unfold(&e@[i as int].1);
                }
                return e;
            }
            let ghost before = e@;
            let (k, v) = e.remove(i);
            match v {
                JsonValue::Object(m) => {
                    proof {
                        lemma_json_view_unfold(&before[i as int].1);
                    }
                    let stripped = JsonValue::Object(obj_remove(m, "base64"));
                    proof {
                        lemma_json_view_unfold(&stripped);
                        lemma_jinsert_at(entries_view(before), i as int, key@, stripped@);
                    }
                    e.insert(i, (k, stripped));
                    assert(entries_view(e@) =~= entries_view(before).update(i as int, (key@, stripped@)));
                    e
                },
                other => {
                    e.insert(i, (k, other));
                    assert(e@ =~= before);
                    e
                },
            }
        },
        None => e,
    }
}

fn strip_entry_exec(entry: JsonValue) -> (r: JsonValue)
    ensures
        r@ == strip_entry(entry@),
{
    proof {
        lemma_json_view_unfold(&entry);
    }
    match entry {
        JsonValue::Object(e) => {
            let r = JsonValue::Object(strip_base64_under_exec(e, "message"));
            proof {
                lemma_json_view_unfold(&r);
            }
            r
        },
        other => other,
    }
}

fn strip_items(a: Vec<JsonValue>) -> (r: Vec<JsonValue>)
    ensures
        items_view(r@) == Seq::new(items_view(a@).len(), |i: int| strip_entry(items_view(a@)[i])),
{
    let ghost all = items_view(a@);
    let mut rest = a;
    let mut out: Vec<JsonValue> = Vec::new();
    while rest.len() > 0
        invariant
            items_view(out@) + Seq::new(items_view(rest@).len(), |i: int| strip_entry(items_view(rest@)[i]))
                == Seq::new(all.len(), |i: int| strip_entry(all[i])),
        decreases rest@.len(),
    {
        let ghost before = rest@;
        let item = rest.remove(0);
        let stripped = strip_entry_exec(item);
        let ghost prev = out@;
        out.push(stripped);
        assert(items_view(out@) + Seq::new(items_view(rest@).len(), |i: int| strip_entry(items_view(rest@)[i]))
            =~= items_view(prev) + Seq::new(items_view(before).len(), |i: int| strip_entry(items_view(before)[i])));
    }
    assert(items_view(out@) + Seq::new(0, |i: int| strip_entry(items_view(rest@)[i])) =~= items_view(out@));
    out
}

fn strip_data_exec(e: Vec<(String, JsonValue)>) -> (r: Vec<(String, JsonValue)>)
    ensures
        entries_view(r@) == strip_data(entries_view(e@)),
{
    let mut e1 = strip_base64_under_exec(e, "message");
    match find_key(&e1, "messages") {
        Some(i) => {
            let is_array = match &e1[i].1 {
                JsonValue::Array(_) => true,
                _ => false,
            };
            if !is_array {
                proof {
                    lemma_json_view_unfold(&e1@[i as int].1);
                }
                return e1;
            }
            let ghost before = e1@;
            let (k, v) = e1.remove(i);
            match v {
                JsonValue::Array(a) => {
                    proof {
                        lemma_json_view_unfold(&before[i as int].1);
                    }
                    let stripped = JsonValue::Array(strip_items(a));
                    proof {
                        lemma_json_view_unfold(&stripped);
                        lemma_jinsert_at(entries_view(before), i as int, "messages"@, stripped@);
                    }
                    e1.insert(i, (k, stripped));
                    assert(entries_view(e1@) =~= entries_view(before).update(i as int, ("messages"@, stripped@)));
                    e1
                },
                other => {
                    e1.insert(i, (k, other));
                    assert(e1@ =~= before);
                    e1
                },
            }
        },
        None => e1,
    }
}

/// Builds the payload posted to a webhook target.
pub fn enrich_payload(
    payload: JsonValue,
    destination: &str,
    base64_enabled: bool,
    date_time: &str,
    server_url: &str,
) -> (r: JsonValue)
    ensures
        r@ == enrich_spec(payload@, destination@, base64_enabled, date_time@, server_url@),
{
    proof {
        lemma_json_view_unfold(&payload);
    }
    let mut obj = match payload {
        JsonValue::Object(e) => e,
        _ => Vec::new(),
    };
    assert(entries_view(Seq::<(String, JsonValue)>::empty()) =~= Seq::<(Seq<char>, JsonView)>::empty());
    if !base64_enabled {
        match find_key(&obj, "data") {
            Some(i) => {
                let is_object = match &obj[i].1 {
                    JsonValue::Object(_) => true,
                    _ => false,
                };
                if is_object {
                    let ghost before = obj@;
                    let (k, v) = obj.remove(i);
                    match v {
                        JsonValue::Object(d) => {
                            proof {
                                lemma_json_view_unfold(&before[i as int].1);
                            }
                            let stripped = JsonValue::Object(strip_data_exec(d));
                            proof {
                                lemma_json_view_unfold(&stripped);
                                lemma_jinsert_at(entries_view(before), i as int, "data"@, stripped@);
                            }
                            obj.insert(i, (k, stripped));
                            assert(entries_view(obj@) =~= entries_view(before).update(i as int, ("data"@, stripped@)));
                        },
                        other => {
                            obj.insert(i, (k, other));
                            assert(obj@ =~= before);
                        },
                    }
                } else {
                    proof {
                        lemma_json_view_unfold(&obj@[i as int].1);
                    }
                }
            },
            None => {},
        }
    }
    let obj = obj_insert(obj, "destination".to_owned(), JsonValue::Str(destination.to_owned()));
    let obj = obj_insert(obj, "date_time".to_owned(), JsonValue::Str(date_time.to_owned()));
    let obj = obj_insert(obj, "server_url".to_owned(), JsonValue::Str(server_url.to_owned()));
    let r = JsonValue::Object(obj);
    proof {
        lemma_json_view_unfold(&r);
    }
    r
}

/// `(key, text)` for each entry of an object whose value is text.
pub open spec fn text_entries(e: Seq<(Seq<char>, JsonView)>) -> Seq<(Seq<char>, Seq<char>)>
    decreases e.len(),
{
    if e.len() == 0 {
        Seq::empty()
    } else {
        (match e[0].1 {
            JsonView::Str(t) => seq![(e[0].0, t)],
            _ => Seq::empty(),
        }) + text_entries(e.drop_first())
    }
}

/// The text items of an array.
pub open spec fn text_items(a: Seq<JsonView>) -> Seq<Seq<char>>
    decreases a.len(),
{
    if a.len() == 0 {
        Seq::empty()
    } else {
        (match a[0] {
            JsonView::Str(t) => seq![t],
            _ => Seq::empty(),
        }) + text_items(a.drop_first())
    }
}

/// The characters of each pair of strings.
pub open spec fn pairs_view(v: Seq<(String, String)>) -> Seq<(Seq<char>, Seq<char>)> {
    Seq::new(v.len(), |i: int| (v[i].0@, v[i].1@))
}

fn text_entries_exec(o: &Vec<(String, JsonValue)>) -> (r: Vec<(String, String)>)
    ensures
        pairs_view(r@) == text_entries(entries_view(o@)),
{
    let ghost all = entries_view(o@);
    let mut out: Vec<(String, String)> = Vec::new();
    let mut i: usize = o.len();
    assert(all.skip(i as int) =~= Seq::<(Seq<char>, JsonView)>::empty());
    while i > 0
        invariant
            i <= o@.len(),
            all == entries_view(o@),
            pairs_view(out@) == text_entries(all.skip(i as int)),
        decreases i,
    {
        i -= 1;
        assert(all.skip(i as int).drop_first() =~= all.skip(i + 1));
        assert(all.skip(i as int)[0] == all[i as int]);
        match &o[i].1 {
            JsonValue::Str(t) => {
                let ghost prev = out@;
                out.insert(0, (o[i].0.clone(), t.clone()));
                assert(pairs_view(out@) =~= seq![(o@[i as int].0@, t@)] + pairs_view(prev));
            },
            _ => {},
        }
    }
    assert(all.skip(0) =~= all);
    out
}

fn text_items_exec(a: &Vec<JsonValue>) -> (r: Vec<String>)
    ensures
        strings_view(r@) == text_items(items_view(a@)),
{
    let ghost all = items_view(a@);
    let mut out: Vec<String> = Vec::new();
    let mut i: usize = a.len();
    assert(all.skip(i as int) =~= Seq::<JsonView>::empty());
    while i > 0
        invariant
            i <= a@.len(),
            all == items_view(a@),
            strings_view(out@) == text_items(all.skip(i as int)),
        decreases i,
    {
        i -= 1;
        assert(all.skip(i as int).drop_first() =~= all.skip(i + 1));
        assert(all.skip(i as int)[0] == all[i as int]);
        match &a[i] {
            JsonValue::Str(t) => {
                let ghost prev = out@;
                out.insert(0, t.clone());
                assert(strings_view(out@) =~= seq![t@] + strings_view(prev));
            },
            _ => {},
        }
    }
    assert(all.skip(0) =~= all);
    out
}

/// The instance webhook stored in a session row (`webhook_*` columns): none
/// without a URL; missing switches are off, headers keep their text values,
/// the event list its text items.
pub fn webhook_config_from_row(row: &JsonValue) -> (r: Option<WebhookConfig>)
    ensures
        match view_str(view_field(row@, "webhook_url"@)) {
            Some(u) if u.len() > 0 => r matches Some(c) && c.url@ == u && c.enabled == (view_bool(
                view_field(row@, "webhook_enabled"@),
            ) == Some(true)) && c.by_events == (view_bool(view_field(row@, "webhook_by_events"@)) == Some(true))
                && c.base64 == (view_bool(view_field(row@, "webhook_base64"@)) == Some(true)) && pairs_view(
                c.headers@,
            ) == (match view_field(row@, "webhook_headers"@) {
                Some(JsonView::Object(e)) => text_entries(e),
                _ => Seq::empty(),
            }) && (match view_field(row@, "webhook_events"@) {
                Some(JsonView::Array(a)) => c.events matches Some(v) && strings_view(v@) == text_items(a),
                _ => c.events is None,
            }),
            _ => r is None,
        },
{
    let enabled = as_bool(get_field(row, "webhook_enabled"));
    let url = match as_str(get_field(row, "webhook_url")) {
        Some(u) => Some(u.clone()),
        None => None,
    };
    let by_events = as_bool(get_field(row, "webhook_by_events"));
    let base64 = as_bool(get_field(row, "webhook_base64"));
    let headers_field = get_field(row, "webhook_headers");
    let headers = match headers_field {
        Some(JsonValue::Object(o)) => {
            proof {
                lemma_json_view_unfold(headers_field->Some_0);
            }
            text_entries_exec(o)
        },
        _ => {
            proof {
                if headers_field is Some {
                    lemma_json_view_unfold(headers_field->Some_0);
                }
            }
            Vec::new()
        },
    };
    assert(pairs_view(Seq::<(String, String)>::empty()) =~= Seq::<(Seq<char>, Seq<char>)>::empty());
    let events_field = get_field(row, "webhook_events");
    let events = match events_field {
        Some(JsonValue::Array(a)) => {
            proof {
                lemma_json_view_unfold(events_field->Some_0);
            }
            Some(text_items_exec(a))
        },
        _ => {
            proof {
                if events_field is Some {
                    lemma_json_view_unfold(events_field->Some_0);
                }
            }
            None
        },
    };
    instance_webhook_config(enabled, url, by_events, base64, headers, events)
}

} // verus!
