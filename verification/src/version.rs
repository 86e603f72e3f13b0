use vstd::prelude::*;

use crate::text::{parse_unsigned, parse_unsigned_spec, str_chars};

verus! {

/// WhatsApp Web version triple.
#[derive(Debug, Clone, Copy, PartialEq, Eq, Structural)]
pub struct WaWebVersion {
    pub major: u32,
    pub minor: u32,
    pub patch: u32,
}

impl WaWebVersion {
    /// Version used when none can be fetched.
    pub fn fallback() -> (r: Self)
        ensures
            r == (WaWebVersion { major: 2, minor: 3000, patch: 1033846690 }),
    {
        WaWebVersion { major: 2, minor: 3000, patch: 1033846690 }
    }
}

/// Capture groups of the first match of `pattern` in `text` (group 0 is the
/// whole match; an unmatched group is `None`), or `None` when nothing matches.
pub uninterp spec fn regex_captures_spec(pattern: Seq<char>, text: Seq<char>) -> Option<Seq<Option<Seq<char>>>>;

/// The characters of each group of a capture list.
pub open spec fn groups_view(v: Seq<Option<String>>) -> Seq<Option<Seq<char>>> {
    Seq::new(
        v.len(),
        |i: int|
            match &v[i] {
                Some(s) => Some(s@),
                None => None,
            },
    )
}

/// `regex::Regex::new(pattern)` then `captures(text)`, groups as owned strings.
#[verifier::external_body]
fn regex_captures(pattern: &str, text: &str) -> (r: Option<Vec<Option<String>>>)
    ensures
        match regex_captures_spec(pattern@, text@) {
            Some(g) => r matches Some(v) && groups_view(v@) == g,
            None => r is None,
        },
{
    let re = regex::Regex::new(pattern).ok()?;
    let caps = re.captures(text)?;
    Some(caps.iter().map(|m| m.map(|m| m.as_str().to_owned())).collect())
}

/// Group `i` of a capture list, when present.
pub open spec fn group(g: Seq<Option<Seq<char>>>, i: int) -> Option<Seq<char>> {
    if 0 <= i < g.len() {
        g[i]
    } else {
        None
    }
}

/// Group `i` read as a `u32`.
pub open spec fn group_u32(g: Seq<Option<Seq<char>>>, i: int) -> Option<u32> {
    match group(g, i) {
        Some(s) => match parse_unsigned_spec(s, u32::MAX as nat) {
            Some(v) => Some(v as u32),
            None => None,
        },
        None => None,
    }
}


/// A dotted version whose last part has at least six digits.
pub open spec fn semver_pattern() -> Seq<char> {
    "\\b(\\d+)\\.(\\d+)\\.(\\d{6,})\\b"@
}

/// `client_revision`, an optional (possibly escaped) quote, `:` and digits.
pub open spec fn client_revision_pattern() -> Seq<char> {
    "client_revision\\\\?\\\"?\\s*:\\s*(\\d+)"@
}

/// Version found in the WA Web page: `2.3000.<client_revision>` when the page
/// carries a client revision, else the first `x.y.zzzzzz` version.
pub open spec fn html_version_spec(html: Seq<char>) -> Option<WaWebVersion> {
    match regex_captures_spec(client_revision_pattern(), html) {
        Some(g) => match group_u32(g, 1) {
            Some(patch) => Some(WaWebVersion { major: 2, minor: 3000, patch }),
            None => None,
        },
        None => match regex_captures_spec(semver_pattern(), html) {
            Some(g) => match (group_u32(g, 1), group_u32(g, 2), group_u32(g, 3)) {
                (Some(major), Some(minor), Some(patch)) => Some(WaWebVersion { major, minor, patch }),
                _ => None,
            },
            None => None,
        },
    }
}

/// Version found in the service worker script: `2.3000.<client_revision>`.
pub open spec fn sw_js_version_spec(sw_js: Seq<char>) -> Option<WaWebVersion> {
    match regex_captures_spec(client_revision_pattern(), sw_js) {
        Some(g) => match group_u32(g, 1) {
            Some(patch) => Some(WaWebVersion { major: 2, minor: 3000, patch }),
            None => None,
        },
        None => None,
    }
}

/// Reads group `i` of a capture list as a `u32`.
fn capture_u32(caps: &Vec<Option<String>>, i: usize) -> (r: Option<u32>)
    ensures
        r == group_u32(groups_view(caps@), i as int),
{
    if i >= caps.len() {
        return None;
    }
    match &caps[i] {
        Some(text) => {
            let digits = str_chars(text.as_str());
            match parse_unsigned(digits.as_slice(), 4294967295) {
                Some(v) => Some(v as u32),
                None => None,
            }
        },
        None => None,
    }
}

/// Extracts the WA Web version from the web page.
pub fn extract_version_from_html(html: &str) -> (r: Option<WaWebVersion>)
    ensures
        r == html_version_spec(html@),
{
    match regex_captures("client_revision\\\\?\\\"?\\s*:\\s*(\\d+)", html) {
        Some(caps) => {
            let patch = capture_u32(&caps, 1)?;
            return Some(WaWebVersion { major: 2, minor: 3000, patch });
        },
        None => {},
    }
    let caps = regex_captures("\\b(\\d+)\\.(\\d+)\\.(\\d{6,})\\b", html)?;
    let major = capture_u32(&caps, 1);
    let minor = capture_u32(&caps, 2);
    let patch = capture_u32(&caps, 3);
    match (major, minor, patch) {
        (Some(major), Some(minor), Some(patch)) => Some(WaWebVersion { major, minor, patch }),
        _ => None,
    }
}

/// Extracts the WA Web version from the service worker script.
pub fn extract_version_from_sw_js(sw_js: &str) -> (r: Option<WaWebVersion>)
    ensures
        r == sw_js_version_spec(sw_js@),
{
    let caps = regex_captures("client_revision\\\\?\\\"?\\s*:\\s*(\\d+)", sw_js)?;
    let patch = capture_u32(&caps, 1)?;
    Some(WaWebVersion { major: 2, minor: 3000, patch })
}

/// Cached version with the time it was stored (milliseconds on a monotonic clock).
#[derive(Debug, Clone, Copy)]
pub struct CachedVersion {
    pub version: WaWebVersion,
    pub at_ms: u64,
}

/// Version cache with a time to live.
#[derive(Debug)]
pub struct VersionCache {
    pub ttl_ms: u64,
    pub entry: Option<CachedVersion>,
}

/// The cached version, while younger than the time to live.
pub open spec fn cache_lookup_spec(ttl_ms: u64, entry: Option<CachedVersion>, now_ms: u64) -> Option<WaWebVersion> {
    match entry {
        Some(c) => if now_ms >= c.at_ms && now_ms - c.at_ms < ttl_ms {
            Some(c.version)
        } else {
            None
        },
        None => None,
    }
}

impl VersionCache {
    /// An empty cache.
    pub fn new(ttl_ms: u64) -> (r: Self)
        ensures
            r.ttl_ms == ttl_ms,
            r.entry is None,
    {
        VersionCache { ttl_ms, entry: None }
    }

    /// The cached version, when one was stored less than the time to live ago.
    pub fn get(&self, now_ms: u64) -> (r: Option<WaWebVersion>)
        ensures
            r == cache_lookup_spec(self.ttl_ms, self.entry, now_ms),
    {
        match self.entry {
            Some(c) => {
                if now_ms >= c.at_ms && now_ms - c.at_ms < self.ttl_ms {
                    Some(c.version)
                } else {
                    None
                }
            },
            None => None,
        }
    }

    /// Stores a freshly resolved version: the fetched one, or the fallback.
    pub fn resolve(&mut self, fetched: Option<WaWebVersion>, now_ms: u64) -> (r: WaWebVersion)
        ensures
            r == match fetched {
                Some(v) => v,
                None => WaWebVersion { major: 2, minor: 3000, patch: 1033846690 },
            },
            final(self).ttl_ms == old(self).ttl_ms,
            final(self).entry == Some(CachedVersion { version: r, at_ms: now_ms }),
    {
        let version = match fetched {
            Some(v) => v,
            None => WaWebVersion::fallback(),
        };
        self.entry = Some(CachedVersion { version, at_ms: now_ms });
        version
    }

    /// Forgets the cached version.
    pub fn invalidate(&mut self)
        ensures
            final(self).ttl_ms == old(self).ttl_ms,
            final(self).entry is None,
    {
        self.entry = None;
    }
}

/// A version read back within the time to live of storing it is the stored
/// version; after invalidation nothing is read back.
pub proof fn law_cache_read_after_store(ttl_ms: u64, version: WaWebVersion, at_ms: u64, now_ms: u64)
    requires
        at_ms <= now_ms,
        now_ms - at_ms < ttl_ms,
    ensures
        cache_lookup_spec(ttl_ms, Some(CachedVersion { version, at_ms }), now_ms) == Some(version),
        cache_lookup_spec(ttl_ms, None, now_ms) is None,
{
}

/// The client revision wins: on a page that carries a `client_revision`
/// readable as a `u32`, the page version is `2.3000.<revision>` whatever
/// other version the page holds, and it is the version the service worker
/// script would give for the same text.
pub proof fn law_client_revision_wins(html: Seq<char>, g: Seq<Option<Seq<char>>>, revision: u32)
    requires
        regex_captures_spec(client_revision_pattern(), html) == Some(g),
        group_u32(g, 1) == Some(revision),
    ensures
        html_version_spec(html) == Some(WaWebVersion { major: 2, minor: 3000, patch: revision }),
        html_version_spec(html) == sw_js_version_spec(html),
{
}

/// A page without a client revision falls back to its first dotted version
/// `x.y.zzzzzz`, and only such a page does.
pub proof fn law_dotted_version_fallback(html: Seq<char>, g: Seq<Option<Seq<char>>>, major: u32, minor: u32, patch: u32)
    requires
        regex_captures_spec(client_revision_pattern(), html) is None,
        regex_captures_spec(semver_pattern(), html) == Some(g),
        group_u32(g, 1) == Some(major),
        group_u32(g, 2) == Some(minor),
        group_u32(g, 3) == Some(patch),
    ensures
        html_version_spec(html) == Some(WaWebVersion { major, minor, patch }),
        sw_js_version_spec(html) is None,
{
}

} // verus!
