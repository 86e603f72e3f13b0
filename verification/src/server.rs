use vstd::prelude::*;

use crate::crypto::{sha256, sha256_spec};
use crate::message::{lower_hex, push_lower_hex};
use crate::json::{as_bool, as_str, get_field, json_clone, view_bool, view_field, view_str, JsonValue, JsonView};
use crate::text::{
    decimal_chars, decimal_string, str_concat,
    ascii_chars, ascii_string, char_index, replace_char, replace_char_spec, split_once_char, split_once_spec,
    str_chars, str_eq, strip_prefix, trim, trim_spec,
};

verus! {

/// Text of a JSON document read as an array of strings, or `None` when it is
/// not one.
pub uninterp spec fn json_string_list_spec(text: Seq<char>) -> Option<Seq<Seq<char>>>;

/// Unicode lower-case mapping of a string (`str::to_lowercase`).
pub uninterp spec fn lowercase_spec(s: Seq<char>) -> Seq<char>;

/// The characters of each string of a vector.
pub open spec fn strings_view(v: Seq<String>) -> Seq<Seq<char>> {
    Seq::new(v.len(), |i: int| v[i]@)
}

/// `serde_json::from_str::<Vec<String>>`: the strings of a JSON array of strings.
#[verifier::external_body]
fn json_string_list(text: &str) -> (r: Option<Vec<String>>)
    ensures
        match json_string_list_spec(text@) {
            Some(l) => r matches Some(v) && strings_view(v@) == l,
            None => r is None,
        },
{
    serde_json::from_str::<Vec<String>>(text).ok()
}

/// `str::to_lowercase`.
#[verifier::external_body]
fn to_lowercase(s: &str) -> (r: String)
    ensures
        r@ == lowercase_spec(s@),
{
    s.to_lowercase()
}

/// Webhook event switches and the optional list of allowed events.
///
/// `webhook_events` is an association list: a later entry for an event
/// overrides an earlier one.
#[derive(Debug)]
pub struct Settings {
    pub webhook_events: Vec<(String, bool)>,
    pub allowed_events: Option<Vec<String>>,
}

/// The switches denoted by an association list.
pub open spec fn events_map(s: Seq<(String, bool)>) -> Map<Seq<char>, bool>
    decreases s.len(),
{
    if s.len() == 0 {
        Map::empty()
    } else {
        events_map(s.drop_last()).insert(s.last().0@, s.last().1)
    }
}

/// The set of names held by a vector of strings.
pub open spec fn names_set(s: Seq<String>) -> Set<Seq<char>> {
    Set::new(|x: Seq<char>| exists|i: int| 0 <= i < s.len() && #[trigger] s[i]@ == x)
}

/// An event is delivered when the allowed list (if any) holds it and its
/// switch (if any) is on.
pub open spec fn event_enabled_spec(
    events: Map<Seq<char>, bool>,
    allowed: Option<Set<Seq<char>>>,
    event: Seq<char>,
) -> bool {
    &&& match allowed {
        Some(a) => a.contains(event),
        None => true,
    }
    &&& if events.contains_key(event) {
        events[event]
    } else {
        true
    }
}

/// Switches read from environment variables `WEBHOOK_EVENTS_<EVENT>`: on when
/// the value is `true` or `1`.
pub open spec fn env_events(vars: Seq<(String, String)>) -> Map<Seq<char>, bool>
    decreases vars.len(),
{
    if vars.len() == 0 {
        Map::empty()
    } else {
        let rest = env_events(vars.drop_last());
        let (k, v) = vars.last();
        let prefix = "WEBHOOK_EVENTS_"@;
        if prefix.len() <= k@.len() && k@.take(prefix.len() as int) == prefix {
            rest.insert(k@.skip(prefix.len() as int), v@ == "true"@ || v@ == "1"@)
        } else {
            rest
        }
    }
}

/// Request body of the event toggle route.
#[derive(Debug)]
pub struct ToggleEventReq {
    pub event: String,
    pub enabled: bool,
}

fn last_event_index(events: &Vec<(String, bool)>, event: &str) -> (r: Option<usize>)
    ensures
        match r {
            Some(j) => j < events@.len() && events@[j as int].0@ == event@ && forall|i: int|
                j < i < events@.len() ==> events@[i].0@ != event@,
            None => forall|i: int| 0 <= i < events@.len() ==> events@[i].0@ != event@,
        },
{
    let mut i: usize = events.len();
    while i > 0
        invariant
            i <= events@.len(),
            forall|k: int| i <= k < events@.len() ==> events@[k].0@ != event@,
        decreases i,
    {
        i -= 1;
        if str_eq(events[i].0.as_str(), event) {
            return Some(i);
        }
    }
    None
}

proof fn lemma_events_map_last(s: Seq<(String, bool)>, k: Seq<char>, j: int)
    requires
        -1 <= j < s.len(),
        j >= 0 ==> s[j].0@ == k,
        forall|i: int| j < i < s.len() ==> s[i].0@ != k,
    ensures
        j >= 0 ==> events_map(s).contains_key(k) && events_map(s)[k] == s[j].1,
        j < 0 ==> !events_map(s).contains_key(k),
    decreases s.len(),
{
    if s.len() > 0 && j < s.len() - 1 {
        lemma_events_map_last(s.drop_last(), k, j);
    }
}

fn contains_name(names: &Vec<String>, name: &str) -> (r: bool)
    ensures
        r == names_set(names@).contains(name@),
{
    let mut i: usize = 0;
    while i < names.len()
        invariant
            i <= names@.len(),
            forall|k: int| 0 <= k < i ==> names@[k]@ != name@,
        decreases names@.len() - i,
    {
        if str_eq(names[i].as_str(), name) {
            assert(names@[i as int]@ == name@);
            return true;
        }
        i += 1;
    }
    false
}

impl Settings {
    /// Event switches by name.
    pub open spec fn events_view(&self) -> Map<Seq<char>, bool> {
        events_map(self.webhook_events@)
    }

    /// Allowed event names, when a list was configured.
    pub open spec fn allowed_view(&self) -> Option<Set<Seq<char>>> {
        match &self.allowed_events {
            Some(v) => Some(names_set(v@)),
            None => None,
        }
    }

    /// Builds settings from environment variables (name, value) and the raw
    /// `ALLOWED_EVENTS` value: switches come from `WEBHOOK_EVENTS_*`, the
    /// allowed list from a JSON array of strings (ignored when malformed).
    pub fn new(vars: &Vec<(String, String)>, allowed_events_raw: Option<&str>) -> (r: Self)
        ensures
            r.events_view() == env_events(vars@),
            r.allowed_view() == match allowed_events_raw {
                Some(raw) => match json_string_list_spec(raw@) {
                    Some(l) => Some(Set::new(|x: Seq<char>| exists|i: int| 0 <= i < l.len() && #[trigger] l[i] == x)),
                    None => None,
                },
                None => None,
            },
    {
        let allowed_events = match allowed_events_raw {
            Some(raw) => json_string_list(raw),
            None => None,
        };
        proof {
            if let Some(raw) = allowed_events_raw {
                if let Some(l) = json_string_list_spec(raw@) {
                    let v = allowed_events->Some_0;
                    assert(names_set(v@) =~= Set::new(
                        |x: Seq<char>| exists|i: int| 0 <= i < l.len() && #[trigger] l[i] == x,
                    )) by {
                        assert forall|x: Seq<char>| names_set(v@).contains(x) implies (exists|i: int|
                            0 <= i < l.len() && #[trigger] l[i] == x) by {
                            let i = choose|i: int| 0 <= i < v@.len() && #[trigger] v@[i]@ == x;
                            assert(l[i] == strings_view(v@)[i]);
                        }
                        assert forall|x: Seq<char>|
                            (exists|i: int| 0 <= i < l.len() && #[trigger] l[i] == x) implies names_set(v@).contains(x) by {
                            let i = choose|i: int| 0 <= i < l.len() && #[trigger] l[i] == x;
                            assert(v@[i]@ == strings_view(v@)[i]);
                        }
                    }
                }
            }
        }
        let mut webhook_events: Vec<(String, bool)> = Vec::new();
        let mut i: usize = 0;
        while i < vars.len()
            invariant
                i <= vars@.len(),
                events_map(webhook_events@) == env_events(vars@.take(i as int)),
            decreases vars@.len() - i,
        {
            assert(vars@.take(i + 1).drop_last() == vars@.take(i as int));
            let key = vars[i].0.as_str();
            let val = vars[i].1.as_str();
            match strip_prefix(key, "WEBHOOK_EVENTS_") {
                Some(event) => {
                    let enabled = str_eq(val, "true") || str_eq(val, "1");
                    proof {
                        assert(key@.take("WEBHOOK_EVENTS_"@.len() as int) =~= "WEBHOOK_EVENTS_"@);
                        assert(key@.skip("WEBHOOK_EVENTS_"@.len() as int) =~= event@);
                    }
                    let ghost before = webhook_events@;
                    webhook_events.push((event.to_owned(), enabled));
                    assert(webhook_events@.drop_last() == before);
                },
                None => {},
            }
            i += 1;
        }
        assert(vars@.take(vars@.len() as int) == vars@);
        Settings { webhook_events, allowed_events }
    }

    /// Whether an event is delivered (see [`event_enabled_spec`]).
    pub fn is_event_enabled(&self, event: &str) -> (r: bool)
        ensures
            r == event_enabled_spec(self.events_view(), self.allowed_view(), event@),
    {
        match &self.allowed_events {
            Some(allowed) => {
                if !contains_name(allowed, event) {
                    return false;
                }
            },
            None => {},
        }
        match last_event_index(&self.webhook_events, event) {
            Some(j) => {
                proof {
                    lemma_events_map_last(self.webhook_events@, event@, j as int);
                }
                self.webhook_events[j].1
            },
            None => {
                proof {
                    lemma_events_map_last(self.webhook_events@, event@, -1);
                }
                true
            },
        }
    }

    /// Sets the switch of one event (the toggle route).
    pub fn toggle_event(&mut self, req: ToggleEventReq)
        ensures
            final(self).events_view() == old(self).events_view().insert(req.event@, req.enabled),
            final(self).allowed_view() == old(self).allowed_view(),
    {
        let ToggleEventReq { event, enabled } = req;
        self.webhook_events.push((event, enabled));
        assert(self.webhook_events@.drop_last() == old(self).webhook_events@);
    }
}

impl Default for Settings {
    fn default() -> (r: Self)
        ensures
            r.events_view() == Map::<Seq<char>, bool>::empty(),
            r.allowed_view() is None,
    {
        Settings { webhook_events: Vec::new(), allowed_events: None }
    }
}

/// Reading an event's state right after toggling it gives the new switch,
/// unless an allowed list excludes the event.
pub proof fn law_toggle_then_read(settings: Settings, event: Seq<char>, enabled: bool)
    ensures
        event_enabled_spec(settings.events_view().insert(event, enabled), settings.allowed_view(), event) == (
        enabled && match settings.allowed_view() {
            Some(a) => a.contains(event),
            None => true,
        }),
{
}

/// Generic state of a queued job.
#[derive(Debug, Clone, Copy, PartialEq, Eq, Structural)]
pub enum QueueStatus {
    Pending,
    Processing,
    Sent,
    Failed,
}

/// Stored name of a queue status.
pub open spec fn queue_status_name(s: QueueStatus) -> Seq<char> {
    match s {
        QueueStatus::Pending => "pending"@,
        QueueStatus::Processing => "processing"@,
        QueueStatus::Sent => "sent"@,
        QueueStatus::Failed => "failed"@,
    }
}

impl QueueStatus {
    /// Stored name of the status.
    pub fn as_str(self) -> (r: &'static str)
        ensures
            r@ == queue_status_name(self),
    {
        match self {
            QueueStatus::Pending => "pending",
            QueueStatus::Processing => "processing",
            QueueStatus::Sent => "sent",
            QueueStatus::Failed => "failed",
        }
    }
}

/// A job held by a queue.
pub trait QueueJob {
    type Id;

    /// Identifier of the job.
    fn id(&self) -> Self::Id;
}

/// Retry delay in seconds after a failed delivery attempt.
pub open spec fn backoff_spec(attempts: i32) -> i32 {
    if attempts == 1 {
        5
    } else if attempts == 2 {
        30
    } else if attempts == 3 {
        120
    } else {
        600
    }
}

/// Retry delay in seconds after `attempts` failed attempts.
pub fn backoff_seconds(attempts: i32) -> (r: i32)
    ensures
        r == backoff_spec(attempts),
{
    match attempts {
        1 => 5,
        2 => 30,
        3 => 120,
        _ => 600,
    }
}

/// Retry delays never shrink as attempts accumulate.
pub proof fn law_backoff_monotone(a: i32, b: i32)
    requires
        1 <= a <= b,
    ensures
        backoff_spec(a) <= backoff_spec(b),
{
}

/// Webhook path segment of an event: lower case, `_` replaced by `-`.
pub fn event_path(event: &str) -> (r: String)
    ensures
        r@ == replace_char_spec(lowercase_spec(event@), '_', "-"@),
{
    let lower = to_lowercase(event);
    replace_char(lower.as_str(), '_', "-")
}

/// Whether a webhook subscribed to `events` receives `event`: no list or an
/// empty list receives everything.
pub open spec fn event_allowed_spec(events: Option<Seq<Seq<char>>>, event: Seq<char>) -> bool {
    match events {
        None => true,
        Some(l) => l.len() == 0 || exists|i: int| 0 <= i < l.len() && #[trigger] l[i] == event,
    }
}

/// Whether a webhook subscribed to `events` receives `event`.
pub fn event_allowed(events: &Option<Vec<String>>, event: &str) -> (r: bool)
    ensures
        r == event_allowed_spec(
            match events {
                Some(v) => Some(strings_view(v@)),
                None => None,
            },
            event@,
        ),
{
    match events {
        None => true,
        Some(list) => {
            if list.len() == 0 {
                return true;
            }
            let r = contains_name(list, event);
            proof {
                if r {
                    let i = choose|i: int| 0 <= i < list@.len() && #[trigger] list@[i]@ == event@;
                    assert(strings_view(list@)[i] == event@);
                } else {
                    assert forall|i: int| 0 <= i < list@.len() implies strings_view(list@)[i] != event@ by {
                        assert(strings_view(list@)[i] == list@[i]@);
                        assert(!names_set(list@).contains(event@));
                    }
                }
            }
            r
        },
    }
}

/// Compares two 32-byte values, touching every byte whatever the outcome.
pub fn constant_time_eq_bytes(a: &[u8; 32], b: &[u8; 32]) -> (r: bool)
    ensures
        r == (a@ == b@),
{
    let mut diff: u8 = 0;
    let mut i: usize = 0;
    while i < 32
        invariant
            i <= 32,
            a@.len() == 32,
            b@.len() == 32,
            (diff == 0) == (forall|j: int| 0 <= j < i ==> a@[j] == b@[j]),
        decreases 32 - i,
    {
        let x = a[i];
        let y = b[i];
        assert(((diff | (x ^ y)) == 0) == (diff == 0 && x == y)) by (bit_vector);
        diff = diff | (x ^ y);
        i += 1;
    }
    proof {
        if diff == 0 {
            assert(a@ =~= b@);
        }
    }
    diff == 0
}

/// SHA-256 of a password's UTF-8 bytes.
pub fn hash_password(value: &str) -> (r: [u8; 32])
    ensures
        r@ == sha256_spec(vstd::utf8::encode_utf8(value@)),
{
    sha256(value.as_bytes())
}

/// Value of an ASCII hexadecimal digit (either case).
pub open spec fn hex_digit_value(b: u8) -> Option<u8> {
    if 48 <= b <= 57 {
        Some((b - 48) as u8)
    } else if 97 <= b <= 102 {
        Some((b - 87) as u8)
    } else if 65 <= b <= 70 {
        Some((b - 55) as u8)
    } else {
        None
    }
}

/// `u8::from_str_radix(text, 16)` on a two-byte text: an optional `+` and one
/// digit, or two digits.
pub open spec fn hex_pair_value(b0: u8, b1: u8) -> Option<u8> {
    if b0 == 43 {
        hex_digit_value(b1)
    } else {
        match (hex_digit_value(b0), hex_digit_value(b1)) {
            (Some(h), Some(l)) => Some((h * 16 + l) as u8),
            _ => None,
        }
    }
}

/// The 32 bytes written by 64 hexadecimal characters, two per byte.
pub open spec fn parse_hex_32_spec(b: Seq<u8>) -> Option<Seq<u8>> {
    if b.len() != 64 {
        None
    } else if forall|i: int| 0 <= i < 32 ==> (#[trigger] hex_pair_value(b[2 * i], b[2 * i + 1])) is Some {
        Some(Seq::new(32, |i: int| hex_pair_value(b[2 * i], b[2 * i + 1])->Some_0))
    } else {
        None
    }
}

fn hex_value(b: u8) -> (r: Option<u8>)
    ensures
        r == hex_digit_value(b),
{
    if 48 <= b && b <= 57 {
        Some(b - 48)
    } else if 97 <= b && b <= 102 {
        Some(b - 87)
    } else if 65 <= b && b <= 70 {
        Some(b - 55)
    } else {
        None
    }
}

/// Parses a 32-byte value written as 64 hexadecimal characters.  Each pair of
/// bytes is read as `u8::from_str_radix(.., 16)` reads it, stopping at the
/// first pair that is not hexadecimal; each pair read must end on a character
/// boundary.
pub fn parse_hex_32(value: &str) -> (r: Option<[u8; 32]>)
    requires
        hex_pairs_on_boundaries(value@),
    ensures
        match parse_hex_32_spec(vstd::utf8::encode_utf8(value@)) {
            Some(b) => r matches Some(a) && a@ == b,
            None => r is None,
        },
{
    let bytes = value.as_bytes();
    if bytes.len() != 64 {
        return None;
    }
    let mut out = [0u8; 32];
    let mut i: usize = 0;
    while i < 32
        invariant
            i <= 32,
            bytes@.len() == 64,
            bytes@ == vstd::utf8::encode_utf8(value@),
            out@.len() == 32,
            forall|k: int| 0 <= k < i ==> (#[trigger] hex_pair_value(bytes@[2 * k], bytes@[2 * k + 1])) is Some,
            forall|k: int| 0 <= k < i ==> out@[k] == hex_pair_value(bytes@[2 * k], bytes@[2 * k + 1])->Some_0,
        decreases 32 - i,
    {
        let b0 = bytes[2 * i];
        let b1 = bytes[2 * i + 1];
        let v = if b0 == 43 {
            hex_value(b1)
        } else {
            match (hex_value(b0), hex_value(b1)) {
                (Some(h), Some(l)) => Some(h * 16 + l),
                _ => None,
            }
        };
        assert(v == hex_pair_value(bytes@[2 * i as int], bytes@[2 * i + 1]));
        match v {
            Some(byte) => {
                out[i] = byte;
            },
            None => {
                proof {
                    let k = i as int;
                    let b = vstd::utf8::encode_utf8(value@);
                    assert(b == bytes@);
                    assert(hex_pair_value(b[2 * k], b[2 * k + 1]) is None);
                    assert(!(forall|j: int| 0 <= j < 32 ==> (#[trigger] hex_pair_value(b[2 * j], b[2 * j + 1])) is Some));
                }
                return None;
            },
        }
        i += 1;
    }
    assert(out@ =~= Seq::new(32, |k: int| hex_pair_value(bytes@[2 * k], bytes@[2 * k + 1])->Some_0));
    Some(out)
}

/// Lower-case hexadecimal text of a 32-byte value.
pub fn hex_32(value: &[u8; 32]) -> (r: String)
    ensures
        r@ == ascii_chars(lower_hex(value@)),
{
    let mut out: Vec<u8> = Vec::new();
    push_lower_hex(&mut out, value.as_slice());
    proof {
        assert forall|i: int| 0 <= i < out@.len() implies out@[i] < 128 by {
            assert(out@[i] == lower_hex(value@)[i]);
        }
    }
    ascii_string(out)
}

/// Hexadecimal round trip: the 64 lower-case hexadecimal characters of 32
/// bytes cut into pairs on character boundaries and parse back to those bytes.
pub proof fn law_hex_roundtrip(b: Seq<u8>)
    requires
        b.len() == 32,
    ensures
        ({
            let text = vstd::utf8::encode_utf8(ascii_chars(lower_hex(b)));
            &&& text.len() == 64
            &&& forall|i: int| 0 <= i < 32 ==> !vstd::utf8::is_continuation_byte(#[trigger] text[2 * i])
            &&& hex_pairs_on_boundaries(ascii_chars(lower_hex(b)))
            &&& parse_hex_32_spec(text) == Some(b)
        }),
{
    let h = lower_hex(b);
    assert forall|i: int| 0 <= i < h.len() implies 48 <= #[trigger] h[i] <= 102 by {
        let v = if i % 2 == 0 { b[i / 2] / 16 } else { b[i / 2] % 16 };
        assert(v < 16);
    }
    let chars = ascii_chars(h);
    assert(vstd::utf8::is_ascii_chars(chars));
    vstd::utf8::is_ascii_chars_encode_utf8(chars);
    assert(vstd::utf8::encode_utf8(chars) =~= h);
    assert forall|i: int| 0 <= i < 32 implies (#[trigger] hex_pair_value(h[2 * i], h[2 * i + 1])) == Some(b[i]) by {
        assert((2 * i) % 2 == 0 && (2 * i) / 2 == i);
        assert((2 * i + 1) % 2 == 1 && (2 * i + 1) / 2 == i);
        let hi = b[i] / 16;
        let lo = b[i] % 16;
        assert(h[2 * i] == crate::message::lower_hex_digit(hi));
        assert(h[2 * i + 1] == crate::message::lower_hex_digit(lo));
        assert(hi * 16 + lo == b[i]);
    }
    assert forall|i: int| 0 <= i < 32 implies !vstd::utf8::is_continuation_byte(#[trigger] h[2 * i]) by {
        assert(48 <= h[2 * i] <= 102);
    }
    assert(Seq::new(32, |i: int| hex_pair_value(h[2 * i], h[2 * i + 1])->Some_0) =~= b);
}

/// Stored form of an API key: the lower-case hexadecimal text of the SHA-256
/// of its UTF-8 bytes.
pub fn hash_key(key: &str) -> (r: String)
    ensures
        r@ == ascii_chars(lower_hex(sha256_spec(vstd::utf8::encode_utf8(key@)))),
{
    let digest = sha256(key.as_bytes());
    hex_32(&digest)
}

/// One step of a cookie lookup on a `;`-separated part: `None` stops the
/// lookup with no result (a part without `=`), `Some(None)` moves on, and
/// `Some(Some(v))` is the value found.
pub open spec fn cookie_part(part: Seq<char>, name: Seq<char>) -> Option<Option<Seq<char>>> {
    match split_once_spec(trim_spec(part), '=') {
        None => None,
        Some((k, v)) => if trim_spec(k) == name {
            Some(Some(trim_spec(v)))
        } else {
            Some(None)
        },
    }
}

/// Value of cookie `name` in a `Cookie` header value.
pub open spec fn cookie_lookup(s: Seq<char>, name: Seq<char>) -> Option<Seq<char>>
    decreases s.len(),
{
    let i = char_index(s, ';');
    if i < 0 || i >= s.len() {
        match cookie_part(s, name) {
            Some(Some(v)) => Some(v),
            _ => None,
        }
    } else {
        match cookie_part(s.take(i), name) {
            None => None,
            Some(Some(v)) => Some(v),
            Some(None) => cookie_lookup(s.skip(i + 1), name),
        }
    }
}

/// Value of cookie `name` in the value of a `Cookie` header.
pub fn get_cookie(cookie: &str, name: &str) -> (r: Option<String>)
    ensures
        match cookie_lookup(cookie@, name@) {
            Some(v) => r matches Some(s) && s@ == v,
            None => r is None,
        },
    decreases cookie@.len(),
{
    proof {
        crate::text::lemma_char_index(cookie@, ';');
    }
    let (part, rest) = match split_once_char(cookie, ';') {
        Some((p, q)) => (p, Some(q)),
        None => (cookie, None),
    };
    let t = trim(part);
    let (key, value) = match split_once_char(t, '=') {
        Some(kv) => kv,
        None => return None,
    };
    if str_eq(trim(key), name) {
        return Some(trim(value).to_owned());
    }
    match rest {
        Some(q) => get_cookie(q, name),
        None => None,
    }
}

/// Media type and payload of a `data:` URL.
pub open spec fn split_data_url_spec(input: Seq<char>) -> (Option<Seq<char>>, Seq<char>) {
    let prefix = "data:"@;
    if prefix.len() <= input.len() && input.take(prefix.len() as int) == prefix {
        match split_once_spec(input.skip(prefix.len() as int), ',') {
            Some((meta, data)) => {
                let first = meta.take(char_index(meta, ';'));
                (if first.len() > 0 {
                    Some(first)
                } else {
                    None
                }, data)
            },
            None => (None, input),
        }
    } else {
        (None, input)
    }
}

/// Splits a `data:` URL into its media type (the part before the first `;`,
/// when not empty) and its payload; other text comes back unchanged.
pub fn split_data_url(input: &str) -> (r: (Option<String>, &str))
    ensures
        r.1@ == split_data_url_spec(input@).1,
        match split_data_url_spec(input@).0 {
            Some(m) => r.0 matches Some(s) && s@ == m,
            None => r.0 is None,
        },
{
    proof {
        reveal_strlit("data:");
    }
    let rest = match strip_prefix(input, "data:") {
        Some(rest) => rest,
        None => return (None, input),
    };
    assert(input@.skip(5) =~= rest@);
    assert(input@.take(5) =~= "data:"@);
    let (meta, data) = match split_once_char(rest, ',') {
        Some(md) => md,
        None => return (None, input),
    };
    let first = match split_once_char(meta, ';') {
        Some((f, _)) => f,
        None => meta,
    };
    proof {
        crate::text::lemma_char_index(meta@, ';');
        if char_index(meta@, ';') >= meta@.len() {
            assert(meta@.take(char_index(meta@, ';')) =~= meta@);
        }
    }
    let mime = if first.unicode_len() > 0 {
        Some(first.to_owned())
    } else {
        None
    };
    (mime, data)
}

/// `$1, $2, ..., $n`: the SQL placeholders of `n` bound values.
pub open spec fn placeholders(n: nat) -> Seq<char>
    decreases n,
{
    if n == 0 {
        Seq::empty()
    } else {
        (if n > 1 {
            placeholders((n - 1) as nat) + ", "@
        } else {
            Seq::empty()
        }) + seq!['$'] + decimal_chars(n)
    }
}

/// Decimal text of a signed integer (`i64::to_string`).
pub open spec fn signed_decimal(x: int) -> Seq<char> {
    if x < 0 {
        seq!['-'] + decimal_chars((-x) as nat)
    } else {
        decimal_chars(x as nat)
    }
}

/// Start of the claim query, up to the list of sessions.
pub open spec fn claim_sql_head() -> Seq<char> {
    "WITH claimed AS ( SELECT id FROM api_messages WHERE status = 'queued' AND session IN ("@
}

/// Part of the claim query between the sessions and the limit.
pub open spec fn claim_sql_order() -> Seq<char> {
    ") ORDER BY created_at LIMIT "@
}

/// End of the claim query, after the limit.
pub open spec fn claim_sql_tail() -> Seq<char> {
    " FOR UPDATE SKIP LOCKED ), updated AS ( UPDATE api_messages SET status = 'processing' FROM claimed WHERE api_messages.id = claimed.id RETURNING api_messages.id, api_messages.session, api_messages.chat_id, api_messages.message_type, api_messages.payload, api_messages.created_at, COALESCE(api_messages.attempts, 0) AS attempts ) SELECT row_to_json(updated)::jsonb as value FROM updated"@
}

/// `i64::to_string`.
pub fn signed_decimal_string(x: i64) -> (r: String)
    ensures
        r@ == signed_decimal(x as int),
{
    if x < 0 {
        proof {
            reveal_strlit("-");
        }
        let magnitude: i128 = -(x as i128);
        let digits = decimal_string(magnitude as u128);
        str_concat("-", digits.as_str())
    } else {
        decimal_string(x as u128)
    }
}

/// Query that claims up to `limit` queued messages of `session_count` bound
/// sessions, oldest first, marking them as processing; none without sessions.
pub fn claim_for_sessions_sql(session_count: usize, limit: i64) -> (r: Option<String>)
    ensures
        session_count == 0 ==> r is None,
        session_count > 0 ==> (r matches Some(q) && q@ == claim_sql_head() + placeholders(session_count as nat)
            + claim_sql_order() + signed_decimal(limit as int) + claim_sql_tail()),
{
    if session_count == 0 {
        return None;
    }
    proof {
        reveal_strlit(", ");
        reveal_strlit("$");
    }
    let mut list = String::new();
    let mut k: usize = 0;
    while k < session_count
        invariant
            k <= session_count,
            list@ == placeholders(k as nat),
        decreases session_count - k,
    {
        let ghost prev = list@;
        proof {
            reveal_strlit(", ");
        }
        k += 1;
        if k > 1 {
            list = str_concat(list.as_str(), ", ");
        }
        let ghost sep = list@;
        assert(sep == (if k > 1 { prev + ", "@ } else { prev }));
        let with_dollar = str_concat(list.as_str(), "$");
        let digits = decimal_string(k as u128);
        list = str_concat(with_dollar.as_str(), digits.as_str());
        proof {
            reveal_strlit("$");
        }
        assert("$"@ =~= seq!['$']);
        assert(k == 1 ==> prev =~= Seq::<char>::empty());
        assert(list@ =~= (if k > 1 { prev + ", "@ } else { Seq::<char>::empty() }) + seq!['$'] + decimal_chars(k as nat));
        assert(list@ =~= placeholders(k as nat));
    }
    let a = str_concat(
        "WITH claimed AS ( SELECT id FROM api_messages WHERE status = 'queued' AND session IN (",
        list.as_str(),
    );
    let b = str_concat(a.as_str(), ") ORDER BY created_at LIMIT ");
    let limit_text = signed_decimal_string(limit);
    let c = str_concat(b.as_str(), limit_text.as_str());
    Some(
        str_concat(
            c.as_str(),
            " FOR UPDATE SKIP LOCKED ), updated AS ( UPDATE api_messages SET status = 'processing' FROM claimed WHERE api_messages.id = claimed.id RETURNING api_messages.id, api_messages.session, api_messages.chat_id, api_messages.message_type, api_messages.payload, api_messages.created_at, COALESCE(api_messages.attempts, 0) AS attempts ) SELECT row_to_json(updated)::jsonb as value FROM updated",
        ),
    )
}

/// A session creation request as the sessions route reads it.
#[derive(Debug)]
pub struct SessionRequest {
    pub session: String,
    pub webhook_enabled: bool,
    pub webhook_url: Option<String>,
    pub webhook_by_events: bool,
    pub webhook_base64: bool,
    pub webhook_headers: Option<JsonValue>,
    pub webhook_events: Option<JsonValue>,
    pub phone_number: Option<String>,
}

/// Field `key` of an optional document.
pub open spec fn opt_field(v: Option<JsonView>, key: Seq<char>) -> Option<JsonView> {
    match v {
        Some(x) => view_field(x, key),
        None => None,
    }
}

/// Reads a session creation request: the session name (`default` when
/// missing or empty), the webhook switches (enabled unless said otherwise,
/// the others off), its URL, headers and events, and the phone number.
pub fn session_request(body: &JsonValue) -> (r: SessionRequest)
    ensures
        r.session@ == (match view_str(view_field(body@, "session"@)) {
            Some(s) if s.len() > 0 => s,
            _ => "default"@,
        }),
        r.webhook_enabled == (match view_bool(opt_field(view_field(body@, "webhook"@), "enabled"@)) {
            Some(b) => b,
            None => true,
        }),
        match view_str(opt_field(view_field(body@, "webhook"@), "url"@)) {
            Some(u) => r.webhook_url matches Some(x) && x@ == u,
            None => r.webhook_url is None,
        },
        r.webhook_by_events == (view_bool(opt_field(view_field(body@, "webhook"@), "webhookByEvents"@)) == Some(true)),
        r.webhook_base64 == (view_bool(opt_field(view_field(body@, "webhook"@), "webhookBase64"@)) == Some(true)),
        match opt_field(view_field(body@, "webhook"@), "headers"@) {
            Some(h) => r.webhook_headers matches Some(x) && x@ == h,
            None => r.webhook_headers is None,
        },
        match opt_field(view_field(body@, "webhook"@), "events"@) {
            Some(e) => r.webhook_events matches Some(x) && x@ == e,
            None => r.webhook_events is None,
        },
        match view_str(view_field(body@, "phone_number"@)) {
            Some(p) => r.phone_number matches Some(x) && x@ == p,
            None => r.phone_number is None,
        },
{
    let session = session_from_body(body);
    let webhook = get_field(body, "webhook");
    let field = |key: &str| -> (f: Option<&JsonValue>)
        ensures
            match webhook {
                Some(w) => match view_field(w@, key@) {
                    Some(x) => f matches Some(y) && y@ == x,
                    None => f is None,
                },
                None => f is None,
            },
        {
            match webhook {
                Some(w) => get_field(w, key),
                None => None,
            }
        };
    let webhook_enabled = match as_bool(field("enabled")) {
        Some(b) => b,
        None => true,
    };
    let webhook_url = match as_str(field("url")) {
        Some(u) => Some(u.clone()),
        None => None,
    };
    let webhook_by_events = match as_bool(field("webhookByEvents")) {
        Some(b) => b,
        None => false,
    };
    let webhook_base64 = match as_bool(field("webhookBase64")) {
        Some(b) => b,
        None => false,
    };
    let webhook_headers = match field("headers") {
        Some(h) => Some(json_clone(h)),
        None => None,
    };
    let webhook_events = match field("events") {
        Some(e) => Some(json_clone(e)),
        None => None,
    };
    let phone_number = match as_str(get_field(body, "phone_number")) {
        Some(p) => Some(p.clone()),
        None => None,
    };
    SessionRequest {
        session,
        webhook_enabled,
        webhook_url,
        webhook_by_events,
        webhook_base64,
        webhook_headers,
        webhook_events,
        phone_number,
    }
}

/// Session named by a request body: its non-empty `session` text, else `default`.
pub open spec fn session_name_spec(body: JsonView) -> Seq<char> {
    match view_str(view_field(body, "session"@)) {
        Some(s) if s.len() > 0 => s,
        _ => "default"@,
    }
}

/// The session a request body names.
pub fn session_from_body(body: &JsonValue) -> (r: String)
    ensures
        r@ == session_name_spec(body@),
{
    match as_str(get_field(body, "session")) {
        Some(s) => {
            if s.as_str().unicode_len() > 0 {
                s.clone()
            } else {
                "default".to_owned()
            }
        },
        None => "default".to_owned(),
    }
}

/// The chat a request body names: the first present field among `chatId`,
/// `chat_id` and `to`, when it holds text.
pub open spec fn chat_id_spec(body: JsonView) -> Option<Seq<char>> {
    let f = match view_field(body, "chatId"@) {
        Some(x) => Some(x),
        None => match view_field(body, "chat_id"@) {
            Some(x) => Some(x),
            None => view_field(body, "to"@),
        },
    };
    view_str(f)
}

/// The chat a request body names.
pub fn chat_id_from_body(body: &JsonValue) -> (r: Option<String>)
    ensures
        match chat_id_spec(body@) {
            Some(c) => r matches Some(s) && s@ == c,
            None => r is None,
        },
{
    let f = match get_field(body, "chatId") {
        Some(x) => Some(x),
        None => match get_field(body, "chat_id") {
            Some(x) => Some(x),
            None => get_field(body, "to"),
        },
    };
    match as_str(f) {
        Some(s) => Some(s.clone()),
        None => None,
    }
}

/// Whether a queued message whose session is missing has waited longer than
/// `ttl_minutes` (times in nanoseconds since the epoch); a message without
/// creation time never fails on that account.
pub fn should_fail_missing_session(created_at_ns: Option<i64>, now_ns: i64, ttl_minutes: i64) -> (r: bool)
    requires
        -153722867280912 <= ttl_minutes <= 153722867280912,
    ensures
        r == match created_at_ns {
            Some(c) => now_ns - c > ttl_minutes * 60000000000,
            None => false,
        },
{
    match created_at_ns {
        Some(c) => (now_ns as i128) - (c as i128) > (ttl_minutes as i128) * 60000000000,
        None => false,
    }
}

/// Paths served without authentication.
pub open spec fn public_path(path: Seq<char>) -> bool {
    ||| path == "/auth/login"@
    ||| path == "/auth/logout"@
    ||| path == "/healthz"@
    ||| path == "/readyz"@
    ||| path == "/health"@
    ||| path == "/ping"@
    ||| path == "/metrics"@
    ||| path == "/openapi.json"@
    ||| path == "/docs/openapi.json"@
    ||| path == "/swagger"@
    ||| path == "/docs/swagger"@
}

fn is_public_path(path: &str) -> (r: bool)
    ensures
        r == public_path(path@),
{
    str_eq(path, "/auth/login") || str_eq(path, "/auth/logout") || str_eq(path, "/healthz") || str_eq(path, "/readyz")
        || str_eq(path, "/health") || str_eq(path, "/ping") || str_eq(path, "/metrics") || str_eq(
        path,
        "/openapi.json",
    ) || str_eq(path, "/docs/openapi.json") || str_eq(path, "/swagger") || str_eq(path, "/docs/swagger")
}

/// Name of the authentication cookie.
pub open spec fn auth_cookie_name() -> Seq<char> {
    "chatwarp_auth"@
}

/// The password a request offers: the `x-chatwarp-password` header, else the
/// bearer token of the `Authorization` header.
pub open spec fn offered_password(password_header: Option<Seq<char>>, authorization: Option<Seq<char>>) -> Option<
    Seq<char>,
> {
    match password_header {
        Some(p) => Some(p),
        None => match authorization {
            Some(a) => if "Bearer "@.len() <= a.len() && a.take("Bearer "@.len() as int) == "Bearer "@ {
                Some(a.skip("Bearer "@.len() as int))
            } else {
                None
            },
            None => None,
        },
    }
}

/// Whether the first `i` two-byte pairs of `b` are hexadecimal.
pub open spec fn hex_pairs_before(b: Seq<u8>, i: int) -> bool {
    forall|j: int| 0 <= j < i ==> (#[trigger] hex_pair_value(b[2 * j], b[2 * j + 1])) is Some
}

/// A 64-byte text can be read pair by pair as far as its pairs are
/// hexadecimal without cutting a character: every pair reached ends on a
/// character boundary.
pub open spec fn hex_pairs_on_boundaries(v: Seq<char>) -> bool {
    let b = vstd::utf8::encode_utf8(v);
    b.len() == 64 ==> forall|i: int|
        0 <= i < 31 && #[trigger] hex_pairs_before(b, i) ==> !vstd::utf8::is_continuation_byte(b[2 * i + 2])
}

/// Whether a request passes the password check: no password is set, the
/// path is public, the authentication cookie carries the password's hash, or
/// the offered password hashes to it.
pub open spec fn authorized_spec(
    expected: Option<Seq<u8>>,
    path: Seq<char>,
    cookie_header: Option<Seq<char>>,
    password_header: Option<Seq<char>>,
    authorization: Option<Seq<char>>,
) -> bool {
    match expected {
        None => true,
        Some(e) => {
            ||| public_path(path)
            ||| match cookie_header {
                Some(c) => match cookie_lookup(c, auth_cookie_name()) {
                    Some(v) => parse_hex_32_spec(vstd::utf8::encode_utf8(v)) == Some(e),
                    None => false,
                },
                None => false,
            }
            ||| match offered_password(password_header, authorization) {
                Some(p) => sha256_spec(vstd::utf8::encode_utf8(p)) == e,
                None => false,
            }
        },
    }
}

/// The password check of the HTTP middleware (headers as text).
pub fn request_authorized(
    expected: Option<[u8; 32]>,
    path: &str,
    cookie_header: Option<&str>,
    password_header: Option<&str>,
    authorization: Option<&str>,
) -> (r: bool)
    requires
        match cookie_header {
            Some(c) => match cookie_lookup(c@, auth_cookie_name()) {
                Some(v) => hex_pairs_on_boundaries(v),
                None => true,
            },
            None => true,
        },
    ensures
        r == authorized_spec(
            match expected {
                Some(e) => Some(e@),
                None => None,
            },
            path@,
            match cookie_header {
                Some(c) => Some(c@),
                None => None,
            },
            match password_header {
                Some(p) => Some(p@),
                None => None,
            },
            match authorization {
                Some(a) => Some(a@),
                None => None,
            },
        ),
{
    let expected_hash = match expected {
        Some(e) => e,
        None => return true,
    };
    if is_public_path(path) {
        return true;
    }
    proof {
        reveal_strlit("chatwarp_auth");
        reveal_strlit("Bearer ");
    }
    let cookie_ok = match cookie_header {
        Some(c) => match get_cookie(c, "chatwarp_auth") {
            Some(v) => match parse_hex_32(v.as_str()) {
                Some(h) => constant_time_eq_bytes(&h, &expected_hash),
                None => false,
            },
            None => false,
        },
        None => false,
    };
    if cookie_ok {
        return true;
    }
    let offered = match password_header {
        Some(p) => Some(p),
        None => match authorization {
            Some(a) => strip_prefix(a, "Bearer "),
            None => None,
        },
    };
    proof {
        if password_header is None && authorization is Some {
            let a = authorization->Some_0@;
            if let Some(t) = offered {
                assert(a.take("Bearer "@.len() as int) =~= "Bearer "@);
                assert(a.skip("Bearer "@.len() as int) =~= t@);
            }
        }
    }
    match offered {
        Some(p) => {
            let h = hash_password(p);
            constant_time_eq_bytes(&h, &expected_hash)
        },
        None => false,
    }
}

/// Result of a login attempt.
#[derive(Debug, Clone, PartialEq, Eq)]
pub enum LoginOutcome {
    /// No password is set: nothing to log into.
    Open,
    /// The password matches: set this cookie.
    Accepted { cookie: String },
    /// The password does not match.
    Rejected,
}

/// `Set-Cookie` value of a successful login: the password hash in hex, kept
/// for `ttl_seconds`.
pub open spec fn login_cookie_spec(expected: Seq<u8>, ttl_seconds: u64) -> Seq<char> {
    "chatwarp_auth="@ + ascii_chars(lower_hex(expected)) + "; Max-Age="@ + decimal_chars(ttl_seconds as nat)
        + "; HttpOnly; SameSite=Lax; Path=/"@
}

/// `Set-Cookie` value that ends the login session.
pub open spec fn logout_cookie_spec() -> Seq<char> {
    "chatwarp_auth=; Max-Age=0; HttpOnly; SameSite=Lax; Path=/"@
}

/// The cookie that logs out.
pub fn logout_cookie() -> (r: String)
    ensures
        r@ == logout_cookie_spec(),
{
    "chatwarp_auth=; Max-Age=0; HttpOnly; SameSite=Lax; Path=/".to_owned()
}

/// Checks a login form's password against the configured hash.
pub fn login(expected: Option<[u8; 32]>, password: &str, ttl_seconds: u64) -> (r: LoginOutcome)
    ensures
        match expected {
            None => r == LoginOutcome::Open,
            Some(e) => if sha256_spec(vstd::utf8::encode_utf8(password@)) == e@ {
                r matches LoginOutcome::Accepted { cookie } && cookie@ == login_cookie_spec(e@, ttl_seconds)
            } else {
                r == LoginOutcome::Rejected
            },
        },
{
    let expected_hash = match expected {
        Some(e) => e,
        None => return LoginOutcome::Open,
    };
    let provided = hash_password(password);
    if constant_time_eq_bytes(&provided, &expected_hash) {
        let token = hex_32(&expected_hash);
        let a = str_concat("chatwarp_auth=", token.as_str());
        let b = str_concat(a.as_str(), "; Max-Age=");
        let ttl = decimal_string(ttl_seconds as u128);
        let c = str_concat(b.as_str(), ttl.as_str());
        let cookie = str_concat(c.as_str(), "; HttpOnly; SameSite=Lax; Path=/");
        LoginOutcome::Accepted { cookie }
    } else {
        LoginOutcome::Rejected
    }
}

/// Status of a route that is not implemented: 501.
pub const NOT_IMPLEMENTED_STATUS: u16 = 501;

/// Body of the answer to a route that is not implemented: the error
/// `not_implemented` and the requested path.
pub open spec fn not_implemented_spec(path: Seq<char>) -> JsonView {
    JsonView::Object(seq![("error"@, JsonView::Str("not_implemented"@)), ("route"@, JsonView::Str(path))])
}

/// Answer to a route that is not implemented: status 501 and its body.
pub fn not_implemented(path: &str) -> (r: (u16, JsonValue))
    ensures
        r.0 == NOT_IMPLEMENTED_STATUS,
        r.1@ == not_implemented_spec(path@),
{
    let error = JsonValue::Str("not_implemented".to_owned());
    let route = JsonValue::Str(path.to_owned());
    assert(error@ == JsonView::Str("not_implemented"@));
    assert(route@ == JsonView::Str(path@));
    let mut entries: Vec<(String, JsonValue)> = Vec::new();
    entries.push(("error".to_owned(), error));
    entries.push(("route".to_owned(), route));
    let body = JsonValue::Object(entries);
    proof {
        crate::json::lemma_json_view_unfold(&body);
        assert(crate::json::entries_view(entries@) =~= seq![
            ("error"@, JsonView::Str("not_implemented"@)),
            ("route"@, JsonView::Str(path@)),
        ]);
    }
    (NOT_IMPLEMENTED_STATUS, body)
}

} // verus!
