use vstd::prelude::*;

use crate::error::TransportError;
use crate::frame::decode_raw_close_code;
use crate::text::str_chars;

verus! {

/// Additional websocket request headers used during connect.
#[derive(Debug)]
pub struct WsConnectOptions {
    pub origin: Option<String>,
    pub user_agent: Option<String>,
    pub subprotocol: Option<String>,
    pub headers: Vec<(String, String)>,
}

impl Default for WsConnectOptions {
    fn default() -> (r: Self)
        ensures
            r.origin is None,
            r.user_agent is None,
            r.subprotocol is None,
            r.headers@.len() == 0,
    {
        WsConnectOptions { origin: None, user_agent: None, subprotocol: None, headers: Vec::new() }
    }
}

/// Metadata captured from the websocket HTTP upgrade response.
#[derive(Debug)]
pub struct WsUpgradeMetadata {
    pub status: u16,
    pub headers: Vec<(String, String)>,
}

impl Default for WsUpgradeMetadata {
    fn default() -> (r: Self)
        ensures
            r.status == 0,
            r.headers@.len() == 0,
    {
        WsUpgradeMetadata { status: 0, headers: Vec::new() }
    }
}

/// Whether `needle` occurs in `hay` at position `i`.
pub open spec fn occurs_in_at(hay: Seq<char>, needle: Seq<char>, i: int) -> bool {
    0 <= i && i + needle.len() <= hay.len() && hay.subrange(i, i + needle.len()) == needle
}

/// `str::contains` for a string pattern.
pub open spec fn contains_spec(hay: Seq<char>, needle: Seq<char>) -> bool {
    exists|i: int| occurs_in_at(hay, needle, i)
}

/// `str::contains` for a string pattern.
pub fn str_contains(hay: &str, needle: &str) -> (r: bool)
    ensures
        r == contains_spec(hay@, needle@),
{
    let h = str_chars(hay);
    let n = str_chars(needle);
    if n.len() > h.len() {
        proof {
            assert forall|i: int| !occurs_in_at(hay@, needle@, i) by {}
        }
        return false;
    }
    if n.len() == 0 {
        assert(hay@.subrange(0, 0) =~= needle@);
        assert(occurs_in_at(hay@, needle@, 0));
        return true;
    }
    let last = h.len() - n.len();
    let mut i: usize = 0;
    while i <= last
        invariant
            h@ == hay@,
            n@ == needle@,
            1 <= n@.len() <= h@.len(),
            last == h@.len() - n@.len(),
            i <= last + 1,
            forall|k: int| 0 <= k < i ==> !occurs_in_at(hay@, needle@, k),
        decreases last + 1 - i,
    {
        let mut j: usize = 0;
        let mut same = true;
        while j < n.len()
            invariant
                h@ == hay@,
                n@ == needle@,
                i <= last,
                1 <= n@.len() <= h@.len(),
                last == h@.len() - n@.len(),
                i + n@.len() <= h@.len(),
                h@.len() == h.len(),
                j <= n@.len(),
                same == (forall|k: int| 0 <= k < j ==> h@[i + k] == n@[k]),
            decreases n@.len() - j,
        {
            if h[i + j] != n[j] {
                same = false;
            }
            j += 1;
        }
        if same {
            assert(hay@.subrange(i as int, i + needle@.len()) =~= needle@);
            assert(occurs_in_at(hay@, needle@, i as int));
            return true;
        }
        assert(!occurs_in_at(hay@, needle@, i as int)) by {
            if hay@.subrange(i as int, i + needle@.len()) == needle@ {
                assert forall|k: int| 0 <= k < n@.len() implies h@[i + k] == n@[k] by {
                    assert(hay@.subrange(i as int, i + needle@.len())[k] == h@[i + k]);
                }
            }
        }
        i += 1;
    }
    false
}

/// Default options of a connection: the WA Web origin for WA Web URLs.
pub fn connect_options_for(url: &str) -> (r: WsConnectOptions)
    ensures
        contains_spec(url@, "web.whatsapp.com"@) ==> (r.origin matches Some(o) && o@ == "https://web.whatsapp.com"@),
        !contains_spec(url@, "web.whatsapp.com"@) ==> r.origin is None,
        r.user_agent is None,
        r.subprotocol is None,
        r.headers@.len() == 0,
{
    let mut options = WsConnectOptions::default();
    if str_contains(url, "web.whatsapp.com") {
        options.origin = Some("https://web.whatsapp.com".to_owned());
    }
    options
}

/// A websocket message as the transport sees it.
#[derive(Debug)]
pub enum WsEvent {
    Ping(Vec<u8>),
    Pong,
    Text,
    Binary(Vec<u8>),
    Close(Option<u16>),
    Other,
}

/// What the transport does with a received message.
#[derive(Debug)]
pub enum WsAction {
    /// Answer a ping and keep reading.
    SendPong(Vec<u8>),
    /// Hand a binary payload to the caller.
    Deliver(Vec<u8>),
    /// Stop with an error.
    Fail(TransportError),
    /// Ignore the message and keep reading.
    Continue,
}

/// Raw close code carried by a 4-byte binary payload (`0x88 0x02` and a
/// big-endian code).
pub open spec fn raw_close_code_spec(d: Seq<u8>) -> Option<u16> {
    if d.len() == 4 && d[0] == 0x88 && d[1] == 0x02 {
        Some((d[2] as int * 256 + d[3] as int) as u16)
    } else {
        None
    }
}

/// Decision of the raw-frame reader on one received message: pings are
/// answered, binary payloads delivered unless they carry a raw close code,
/// close frames end the stream, anything else is skipped.
pub fn next_raw_step(event: WsEvent) -> (r: WsAction)
    ensures
        match event {
            WsEvent::Ping(p) => r matches WsAction::SendPong(q) && q@ == p@,
            WsEvent::Binary(d) => match raw_close_code_spec(d@) {
                Some(code) => r matches WsAction::Fail(e) && e == TransportError::ClosedWithCode(code),
                None => r matches WsAction::Deliver(q) && q@ == d@,
            },
            WsEvent::Close(Some(code)) => r matches WsAction::Fail(e) && e == TransportError::ClosedWithCode(code),
            WsEvent::Close(None) => r matches WsAction::Fail(e) && e == TransportError::Closed,
            _ => r is Continue,
        },
{
    match event {
        WsEvent::Ping(payload) => WsAction::SendPong(payload),
        WsEvent::Binary(data) => {
            match decode_raw_close_code(data.as_slice()) {
                Some(code) => WsAction::Fail(TransportError::ClosedWithCode(code)),
                None => WsAction::Deliver(data),
            }
        },
        WsEvent::Close(Some(code)) => WsAction::Fail(TransportError::ClosedWithCode(code)),
        WsEvent::Close(None) => WsAction::Fail(TransportError::Closed),
        _ => WsAction::Continue,
    }
}

} // verus!
