use vstd::prelude::*;

use crate::auth::AuthState;
use crate::binary_node::{attrs_map, decode, spec_decode_synthetic, BinaryNode, ContentView, NodeContent, NodeView};
use crate::crypto::{aes_gcm_open, md5_digest, md5_spec, x25519_dh, x25519_spec};
use crate::error::{HandshakeError, HandshakePhase, NoiseError, PhaseDetail};
use crate::frame::{first_frame, maybe_unframe};
use crate::keys::KeyPair;
use crate::message::{lower_hex, push_lower_hex};
use crate::noise::{NoiseState, NoiseView};
use crate::noise_md::{next_counter, nonce_spec, NoiseMdState};
use crate::proto::{ClientFinish, HandshakeMessage, MdHandshakeMessage};
use crate::text::{
    ascii_chars, ascii_string, bytes_to_vec, decimal_bytes, parse_unsigned, parse_unsigned_spec, push_all,
    push_decimal, split_once_char, split_once_spec, str_chars, str_eq, string_from_utf8, trim, trim_spec,
};
use crate::version::WaWebVersion;
use crate::wabinary::{decode_real, decompress_spec, nodes_view, spec_decode_real_body, TokenTables};

verus! {

broadcast use vstd::utf8::group_utf8_lib;

/// Handshake result of the synthetic Noise flow.
#[derive(Debug)]
pub struct HandshakeOutcome {
    /// Initialized Noise state ready for encrypted session traffic.
    pub noise: NoiseState,
    /// Optional QR reference for first-time login.
    pub qr_reference: Option<String>,
    /// Raw server payload returned after client finish.
    pub server_payload: Vec<u8>,
    /// Optional JID when server confirms resumed login.
    pub login_jid: Option<String>,
    /// Client Noise public key used to build QR payload.
    pub noise_public: [u8; 32],
}

/// Handshake result of the WA MD bootstrap.
#[derive(Debug)]
pub struct MdHandshakeOutcome {
    /// Initialized MD noise transport state.
    pub noise: NoiseMdState,
    /// QR references extracted from early server stanzas.
    pub qr_references: Vec<String>,
    /// Raw payloads received immediately after client finish.
    pub server_payloads: Vec<Vec<u8>>,
    /// JID when server confirms resumed login.
    pub login_jid: Option<String>,
    /// Client Noise public key used to build QR payload.
    pub noise_public: [u8; 32],
}

// ---------------------------------------------------------------------------
// Small helpers
// ---------------------------------------------------------------------------

/// A 32-byte key field: missing when empty, of invalid length otherwise.
pub open spec fn fixed_key_spec(bytes: Seq<u8>, field: &'static str) -> Result<Seq<u8>, HandshakeError> {
    if bytes.len() == 0 {
        Err(HandshakeError::MissingField(field))
    } else if bytes.len() != 32 {
        Err(HandshakeError::InvalidKeyLength(field))
    } else {
        Ok(bytes)
    }
}

/// Reads a 32-byte key field.
pub fn fixed_key(bytes: &[u8], field: &'static str) -> (r: Result<[u8; 32], HandshakeError>)
    ensures
        match fixed_key_spec(bytes@, field) {
            Ok(k) => r matches Ok(a) && a@ == k,
            Err(e) => r == Err::<[u8; 32], HandshakeError>(e),
        },
{
    if bytes.len() == 0 {
        return Err(HandshakeError::MissingField(field));
    }
    if bytes.len() != 32 {
        return Err(HandshakeError::InvalidKeyLength(field));
    }
    Ok(crate::noise_md::to_array_32(bytes))
}

/// `width` big-endian bytes of `value` (most significant first).
pub open spec fn big_endian_spec(value: u32, width: nat) -> Seq<u8> {
    crate::wabinary::be_bytes(value as nat, width)
}

/// Writes `value` as `width` big-endian bytes (a shift of 32 bits or more is
/// refused, so `width` is at most 4).
pub fn encode_big_endian(value: u32, width: usize) -> (r: Vec<u8>)
    requires
        width <= 4,
    ensures
        r@ == big_endian_spec(value, width as nat),
{
    let mut out: Vec<u8> = Vec::new();
    crate::wabinary::push_be(&mut out, value as usize, width);
    assert(out@ =~= big_endian_spec(value, width as nat));
    out
}

/// Account number and device of a persisted JID: `user[:device]@server`, the
/// user a `u64`, the device a `u32` (0 when absent or unreadable).
pub open spec fn jid_login_spec(jid: Seq<char>) -> Option<(u64, u32)> {
    match split_once_spec(jid, '@') {
        None => None,
        Some((user_part, _)) => {
            let (user_raw, device_raw) = match split_once_spec(user_part, ':') {
                Some((u, d)) => (u, Some(d)),
                None => (user_part, None),
            };
            match parse_unsigned_spec(user_raw, u64::MAX as nat) {
                None => None,
                Some(username) => Some((
                    username as u64,
                    match device_raw {
                        Some(d) => match parse_unsigned_spec(d, u32::MAX as nat) {
                            Some(v) => v as u32,
                            None => 0,
                        },
                        None => 0,
                    },
                )),
            }
        },
    }
}

/// Reads account number and device from a persisted JID.
pub fn parse_jid_for_login(jid: &str) -> (r: Option<(u64, u32)>)
    ensures
        r == jid_login_spec(jid@),
{
    let (user_part, _) = split_once_char(jid, '@')?;
    let (user_raw, device_raw) = match split_once_char(user_part, ':') {
        Some((user, device)) => (user, Some(device)),
        None => (user_part, None),
    };
    let user_chars = str_chars(user_raw);
    let username = parse_unsigned(user_chars.as_slice(), 18446744073709551615)?;
    let device: u32 = match device_raw {
        Some(value) => {
            let chars = str_chars(value);
            match parse_unsigned(chars.as_slice(), 4294967295) {
                Some(v) => v as u32,
                None => 0,
            }
        },
        None => 0,
    };
    Some((username, device))
}

/// Space-separated lower-case hexadecimal of the first `max_len` bytes.
pub open spec fn preview_hex_spec(bytes: Seq<u8>, max_len: nat) -> Seq<u8> {
    let take = if bytes.len() < max_len { bytes.len() } else { max_len };
    Seq::new(
        if take == 0 { 0 } else { (3 * take - 1) as nat },
        |i: int|
            if i % 3 == 2 {
                32u8
            } else {
                lower_hex(bytes.take(take as int))[2 * (i / 3) + i % 3]
            },
    )
}

/// Short hexadecimal preview of a byte string, for error messages.
pub fn preview_hex(bytes: &[u8], max_len: usize) -> (r: String)
    ensures
        r@ == ascii_chars(preview_hex_spec(bytes@, max_len as nat)),
{
    let take = if bytes.len() < max_len { bytes.len() } else { max_len };
    let ghost want = preview_hex_spec(bytes@, max_len as nat);
    let ghost hex = lower_hex(bytes@.take(take as int));
    let mut out: Vec<u8> = Vec::new();
    let mut i: usize = 0;
    while i < take
        invariant
            take <= bytes@.len(),
            take <= max_len,
            take == (if bytes@.len() < max_len { bytes@.len() } else { max_len as nat }),
            i <= take,
            want == preview_hex_spec(bytes@, max_len as nat),
            hex == lower_hex(bytes@.take(take as int)),
            out@.len() == (if i == 0 { 0 } else { 3 * i - 1 }),
            forall|k: int| 0 <= k < out@.len() ==> out@[k] == want[k],
        decreases take - i,
    {
        if i > 0 {
            out.push(32);
        }
        let b = bytes[i];
        let hi = b / 16;
        let lo = b % 16;
        out.push(if hi < 10 { 48 + hi } else { 87 + hi });
        out.push(if lo < 10 { 48 + lo } else { 87 + lo });
        proof {
            assert(bytes@.take(take as int)[i as int] == b);
            let n = out@.len() as int;
            assert(want[n - 2] == hex[2 * i]);
            assert(want[n - 1] == hex[2 * i + 1]);
        }
        i += 1;
    }
    proof {
        assert(out@ =~= want);
        assert forall|k: int| 0 <= k < out@.len() implies out@[k] < 128 by {
            if k % 3 != 2 {
                assert(out@[k] == hex[2 * (k / 3) + k % 3]);
            }
        }
    }
    ascii_string(out)
}

// ---------------------------------------------------------------------------
// QR references and login JIDs in server payloads
// ---------------------------------------------------------------------------

/// Text of a JSON document's string field, or `None` when the document is not
/// a JSON object holding a string under `key`.
pub uninterp spec fn json_str_field_spec(payload: Seq<u8>, key: Seq<char>) -> Option<Seq<char>>;

/// `serde_json::from_slice::<Value>(payload)`, then `get(key)` and `as_str`.
#[verifier::external_body]
fn json_str_field(payload: &[u8], key: &str) -> (r: Option<String>)
    ensures
        match json_str_field_spec(payload@, key@) {
            Some(v) => r matches Some(s) && s@ == v,
            None => r is None,
        },
{
    let value = serde_json::from_slice::<serde_json::Value>(payload).ok()?;
    value.get(key).and_then(serde_json::Value::as_str).map(|s| s.to_owned())
}

/// Trimmed text when not empty.
pub open spec fn non_empty_trimmed(s: Seq<char>) -> Option<Seq<char>> {
    if trim_spec(s).len() > 0 {
        Some(trim_spec(s))
    } else {
        None
    }
}

/// Trimmed UTF-8 text of bytes, when valid and not empty.
pub open spec fn utf8_reference(b: Seq<u8>) -> Option<Seq<char>> {
    if vstd::utf8::valid_utf8(b) {
        non_empty_trimmed(vstd::utf8::decode_utf8(b))
    } else {
        None
    }
}

/// QR reference of a plain server payload: a non-empty `ref` (else
/// `reference`) string field of a JSON object, else the whole payload as text.
pub open spec fn qr_reference_spec(payload: Seq<u8>) -> Option<Seq<char>> {
    if payload.len() == 0 {
        None
    } else {
        match json_str_field_spec(payload, "ref"@) {
            Some(v) if non_empty_trimmed(v) is Some => non_empty_trimmed(v),
            _ => match json_str_field_spec(payload, "reference"@) {
                Some(v) if non_empty_trimmed(v) is Some => non_empty_trimmed(v),
                _ => utf8_reference(payload),
            },
        }
    }
}

fn trimmed_non_empty(s: &str) -> (r: Option<String>)
    ensures
        match non_empty_trimmed(s@) {
            Some(v) => r matches Some(t) && t@ == v,
            None => r is None,
        },
{
    let t = trim(s);
    if t.unicode_len() > 0 {
        Some(t.to_owned())
    } else {
        None
    }
}

fn utf8_trimmed(bytes: &[u8]) -> (r: Option<String>)
    ensures
        match utf8_reference(bytes@) {
            Some(v) => r matches Some(t) && t@ == v,
            None => r is None,
        },
{
    match string_from_utf8(bytes_to_vec(bytes)) {
        Some(text) => trimmed_non_empty(text.as_str()),
        None => None,
    }
}

/// Extracts a QR reference from a plain server payload.
pub fn parse_qr_reference(payload: &[u8]) -> (r: Option<String>)
    ensures
        match qr_reference_spec(payload@) {
            Some(v) => r matches Some(t) && t@ == v,
            None => r is None,
        },
{
    if payload.len() == 0 {
        return None;
    }
    proof {
        reveal_strlit("ref");
        reveal_strlit("reference");
    }
    match json_str_field(payload, "ref") {
        Some(v) => {
            match trimmed_non_empty(v.as_str()) {
                Some(t) => return Some(t),
                None => {},
            }
        },
        None => {},
    }
    match json_str_field(payload, "reference") {
        Some(v) => {
            match trimmed_non_empty(v.as_str()) {
                Some(t) => return Some(t),
                None => {},
            }
        },
        None => {},
    }
    utf8_trimmed(payload)
}

/// Value of attribute `key`, if the node has one.
pub fn attr_value<'a>(node: &'a BinaryNode, key: &str) -> (r: Option<&'a String>)
    requires
        node.wf(),
    ensures
        match r {
            Some(v) => attrs_map(node.attrs@).contains_key(key@) && attrs_map(node.attrs@)[key@] == v@,
            None => !attrs_map(node.attrs@).contains_key(key@),
        },
{
    let mut i: usize = node.attrs.len();
    while i > 0
        invariant
            i <= node.attrs@.len(),
            forall|k: int| i <= k < node.attrs@.len() ==> node.attrs@[k].0@ != key@,
        decreases i,
    {
        i -= 1;
        if str_eq(node.attrs[i].0.as_str(), key) {
            proof {
                crate::binary_node::lemma_attrs_map_last(node.attrs@, key@, i as int);
            }
            return Some(&node.attrs[i].1);
        }
    }
    proof {
        crate::binary_node::lemma_attrs_map_last(node.attrs@, key@, -1);
    }
    None
}

/// QR reference carried by a node: the trimmed text of a `ref` node's bytes,
/// else its non-empty trimmed `ref` attribute.
pub open spec fn node_qr_reference_spec(n: NodeView) -> Option<Seq<char>> {
    if n.tag == "ref"@ && n.content is Bytes {
        utf8_reference(n.content->Bytes_0)
    } else if n.attrs.contains_key("ref"@) {
        non_empty_trimmed(n.attrs["ref"@])
    } else {
        None
    }
}

/// Extracts a QR reference from a synthetic binary node payload.
pub fn extract_qr_reference_from_node(payload: &[u8]) -> (r: Option<String>)
    ensures
        match spec_decode_synthetic(payload@) {
            Ok(n) => match node_qr_reference_spec(n) {
                Some(v) => r matches Some(t) && t@ == v,
                None => r is None,
            },
            Err(_) => r is None,
        },
{
    proof {
        reveal_strlit("ref");
    }
    let node = match decode(payload) {
        Ok(n) => n,
        Err(_) => return None,
    };
    proof {
        crate::binary_node::lemma_node_view_unfold(&node);
    }
    if str_eq(node.tag.as_str(), "ref") {
        if let NodeContent::Bytes(bytes) = &node.content {
            return utf8_trimmed(bytes.as_slice());
        }
    }
    match attr_value(&node, "ref") {
        Some(v) => trimmed_non_empty(v.as_str()),
        None => None,
    }
}

/// First node of a list with the given tag.
pub open spec fn find_tag(ns: Seq<NodeView>, tag: Seq<char>) -> Option<NodeView>
    decreases ns.len(),
{
    if ns.len() == 0 {
        None
    } else if ns[0].tag == tag {
        Some(ns[0])
    } else {
        find_tag(ns.drop_first(), tag)
    }
}

/// Position of the first child with the given tag.
fn find_child(children: &Vec<BinaryNode>, tag: &str) -> (r: Option<usize>)
    ensures
        match find_tag(nodes_view(children@), tag@) {
            Some(v) => r matches Some(i) && i < children@.len() && children@[i as int]@ == v,
            None => r is None,
        },
{
    let ghost all = nodes_view(children@);
    assert(all.skip(0) =~= all);
    let mut i: usize = 0;
    while i < children.len()
        invariant
            i <= children@.len(),
            all == nodes_view(children@),
            find_tag(all, tag@) == find_tag(all.skip(i as int), tag@),
        decreases children@.len() - i,
    {
        assert(all.skip(i as int)[0] == children@[i as int]@);
        if str_eq(children[i].tag.as_str(), tag) {
            return Some(i);
        }
        assert(all.skip(i as int).drop_first() =~= all.skip(i + 1));
        i += 1;
    }
    assert(all.skip(i as int).len() == 0);
    None
}

/// The first child of a node with the given tag.
pub fn child_by_tag<'a>(node: &'a BinaryNode, tag: &str) -> (r: Option<&'a BinaryNode>)
    ensures
        match node@.content {
            ContentView::Nodes(ns) => match find_tag(ns, tag@) {
                Some(v) => r matches Some(c) && c@ == v,
                None => r is None,
            },
            _ => r is None,
        },
{
    proof {
        crate::binary_node::lemma_node_view_unfold(node);
    }
    match &node.content {
        NodeContent::Nodes(children) => {
            assert(node@.content == ContentView::Nodes(nodes_view(children@)));
            match find_child(children, tag) {
                Some(i) => Some(&children[i]),
                None => None,
            }
        },
        _ => None,
    }
}

/// QR reference carried by a real node: the trimmed text of a `ref` node, or
/// of the `ref` child of the `pair-device` child of an `iq` node.
pub open spec fn real_qr_reference_spec(n: NodeView) -> Option<Seq<char>> {
    if n.tag == "ref"@ && n.content is Bytes {
        utf8_reference(n.content->Bytes_0)
    } else if n.tag == "iq"@ && n.content is Nodes {
        match find_tag(n.content->Nodes_0, "pair-device"@) {
            Some(pd) => if pd.content is Nodes {
                match find_tag(pd.content->Nodes_0, "ref"@) {
                    Some(rf) => if rf.content is Bytes {
                        utf8_reference(rf.content->Bytes_0)
                    } else {
                        None
                    },
                    None => None,
                }
            } else {
                None
            },
            None => None,
        }
    } else {
        None
    }
}

/// Result of decoding a real payload, as a node view.
pub open spec fn real_payload_node(t: crate::wabinary::TablesView, payload: Seq<u8>) -> Option<NodeView> {
    match decompress_spec(payload) {
        Ok(b) => match spec_decode_real_body(t, b) {
            Ok(n) => Some(n),
            Err(_) => None,
        },
        Err(_) => None,
    }
}

/// Extracts a QR reference from a real WA binary payload.
pub fn extract_qr_reference_from_real_payload(tables: &TokenTables, payload: &[u8]) -> (r: Option<String>)
    requires
        tables.wf(),
    ensures
        match real_payload_node(tables@, payload@) {
            Some(n) => match real_qr_reference_spec(n) {
                Some(v) => r matches Some(t) && t@ == v,
                None => r is None,
            },
            None => r is None,
        },
{
    proof {
        reveal_strlit("ref");
        reveal_strlit("iq");
        reveal_strlit("pair-device");
    }
    let node = match decode_real(tables, payload) {
        Ok(n) => n,
        Err(_) => return None,
    };
    proof {
        crate::binary_node::lemma_node_view_unfold(&node);
    }
    if str_eq(node.tag.as_str(), "ref") {
        if let NodeContent::Bytes(bytes) = &node.content {
            return utf8_trimmed(bytes.as_slice());
        }
    }
    if str_eq(node.tag.as_str(), "iq") {
        let children = match &node.content {
            NodeContent::Nodes(c) => c,
            _ => return None,
        };
        let pd = find_child(children, "pair-device")?;
        proof {
            crate::binary_node::lemma_node_view_unfold(&children@[pd as int]);
        }
        let pair_children = match &children[pd].content {
            NodeContent::Nodes(c) => c,
            _ => return None,
        };
        let rf = find_child(pair_children, "ref")?;
        proof {
            crate::binary_node::lemma_node_view_unfold(&pair_children@[rf as int]);
        }
        if let NodeContent::Bytes(bytes) = &pair_children[rf].content {
            return utf8_trimmed(bytes.as_slice());
        }
        return None;
    }
    None
}

/// Login JID of a real payload: an `iq` node with a `pair-success` child whose
/// non-empty trimmed `jid` attribute, else whose `device` child's `jid` attribute.
pub open spec fn real_login_jid_spec(n: NodeView) -> Option<Seq<char>> {
    if n.tag == "iq"@ && n.content is Nodes {
        match find_tag(n.content->Nodes_0, "pair-success"@) {
            Some(ps) => if ps.attrs.contains_key("jid"@) && trim_spec(ps.attrs["jid"@]).len() > 0 {
                Some(trim_spec(ps.attrs["jid"@]))
            } else if ps.content is Nodes {
                match find_tag(ps.content->Nodes_0, "device"@) {
                    Some(d) => if d.attrs.contains_key("jid"@) {
                        Some(d.attrs["jid"@])
                    } else {
                        None
                    },
                    None => None,
                }
            } else {
                None
            },
            None => None,
        }
    } else {
        None
    }
}

/// Extracts the login JID from a real WA binary payload.
pub fn extract_login_jid_from_real_payload(tables: &TokenTables, payload: &[u8]) -> (r: Option<String>)
    requires
        tables.wf(),
    ensures
        match real_payload_node(tables@, payload@) {
            Some(n) => match real_login_jid_spec(n) {
                Some(v) => r matches Some(t) && t@ == v,
                None => r is None,
            },
            None => r is None,
        },
{
    proof {
        reveal_strlit("iq");
        reveal_strlit("pair-success");
        reveal_strlit("jid");
        reveal_strlit("device");
    }
    let node = match decode_real(tables, payload) {
        Ok(n) => n,
        Err(_) => return None,
    };
    proof {
        crate::binary_node::lemma_node_view_unfold(&node);
    }
    if !str_eq(node.tag.as_str(), "iq") {
        return None;
    }
    let children = match &node.content {
        NodeContent::Nodes(c) => c,
        _ => return None,
    };
    let ps = find_child(children, "pair-success")?;
    let pair = &children[ps];
    proof {
        crate::binary_node::lemma_node_view_unfold(pair);
    }
    match attr_value(pair, "jid") {
        Some(jid) => {
            let t = trim(jid.as_str());
            if t.unicode_len() > 0 {
                return Some(t.to_owned());
            }
        },
        None => {},
    }
    let pair_children = match &pair.content {
        NodeContent::Nodes(c) => c,
        _ => return None,
    };
    let d = find_child(pair_children, "device")?;
    proof {
        crate::binary_node::lemma_node_view_unfold(&pair_children@[d as int]);
    }
    match attr_value(&pair_children[d], "jid") {
        Some(jid) => Some(jid.clone()),
        None => None,
    }
}

// ---------------------------------------------------------------------------
// Synthetic Noise XX flow
// ---------------------------------------------------------------------------

/// Result of decrypting the post-finish frame: the raw frame first, then the
/// payload of its 3-byte length frame.
pub open spec fn server_finish_spec(v: NoiseView, frame: Seq<u8>) -> (NoiseView, Result<Seq<u8>, HandshakeError>) {
    let advanced = NoiseView { recv_counter: next_counter(v.recv_counter), ..v };
    match aes_gcm_open(v.session_key, nonce_spec(v.recv_counter), frame, v.h) {
        Some(p) => (advanced, Ok(p)),
        None => match first_frame(frame) {
            Some((payload, _)) => match aes_gcm_open(v.session_key, nonce_spec(v.recv_counter), payload, v.h) {
                Some(p) => (advanced, Ok(p)),
                None => (v, Err(HandshakeError::Noise(NoiseError::Cipher))),
            },
            None => (v, Err(HandshakeError::Noise(NoiseError::Cipher))),
        },
    }
}

/// Decrypts the server's post-finish frame with the handshake hash as
/// associated data; the state only advances when a decryption succeeds.
pub fn decrypt_server_finish_frame(noise: &mut NoiseState, frame: &[u8]) -> (r: Result<Vec<u8>, HandshakeError>)
    ensures
        ({
            let (v, res) = server_finish_spec(old(noise)@, frame@);
            &&& final(noise)@ == v
            &&& match res {
                Ok(p) => r matches Ok(x) && x@ == p,
                Err(e) => r == Err::<Vec<u8>, HandshakeError>(e),
            }
        }),
{
    let ad = noise.handshake_hash();
    let mut raw_noise = *noise;
    match raw_noise.decrypt_with_ad(frame, ad.as_slice()) {
        Ok(decrypted) => {
            *noise = raw_noise;
            return Ok(decrypted);
        },
        Err(_) => {},
    }
    if let Some(payload) = maybe_unframe(frame) {
        let mut framed_noise = *noise;
        match framed_noise.decrypt_with_ad(payload, ad.as_slice()) {
            Ok(decrypted) => {
                *noise = framed_noise;
                return Ok(decrypted);
            },
            Err(_) => {},
        }
    }
    Err(HandshakeError::Noise(NoiseError::Cipher))
}

/// Client hello of the synthetic flow: only the ephemeral public key is set.
pub fn client_hello_message(ephemeral_public: &[u8; 32]) -> (r: HandshakeMessage)
    ensures
        r.client_ephemeral@ == ephemeral_public@,
        r.server_ephemeral@.len() == 0,
        r.encrypted_static@.len() == 0,
        r.payload@.len() == 0,
{
    HandshakeMessage {
        client_ephemeral: bytes_to_vec(ephemeral_public.as_slice()),
        server_ephemeral: Vec::new(),
        encrypted_static: Vec::new(),
        payload: Vec::new(),
    }
}

/// Error of a failed cipher step in a handshake phase.
pub open spec fn cipher_phase_error(phase: HandshakePhase) -> HandshakeError {
    HandshakeError::Phase { phase, message: "cipher error", detail: PhaseDetail::Plain }
}

/// Processes the server hello of the synthetic flow: mixes the server
/// ephemeral key and both Diffie-Hellman secrets, decrypts the server static
/// key, and returns the client finish carrying the encrypted client static key.
pub fn process_server_hello(
    noise: &mut NoiseState,
    ephemeral: &KeyPair,
    static_keypair: &KeyPair,
    server_hello: &HandshakeMessage,
) -> (r: Result<HandshakeMessage, HandshakeError>)
    ensures
        match fixed_key_spec(server_hello.server_ephemeral@, "server_ephemeral") {
            Err(e) => r == Err::<HandshakeMessage, HandshakeError>(e),
            Ok(se) => {
                let v1 = NoiseView { h: crate::crypto::sha256_spec(old(noise)@.h + se), ..old(noise)@ };
                let k1 = crate::crypto::hkdf_sha256_64_spec(v1.chaining_key, x25519_spec(ephemeral.private@, se));
                let v2 = NoiseView { chaining_key: k1.subrange(0, 32), session_key: k1.subrange(32, 64), ..v1 };
                match aes_gcm_open(v2.session_key, nonce_spec(v2.recv_counter), server_hello.encrypted_static@, v2.h) {
                    None => r == Err::<HandshakeMessage, HandshakeError>(cipher_phase_error(HandshakePhase::ServerHello)),
                    Some(ss) => match fixed_key_spec(ss, "server_static") {
                        Err(e) => r == Err::<HandshakeMessage, HandshakeError>(e),
                        Ok(ss) => {
                            let v3 = NoiseView { recv_counter: next_counter(v2.recv_counter), ..v2 };
                            let k2 = crate::crypto::hkdf_sha256_64_spec(v3.chaining_key, x25519_spec(ephemeral.private@, ss));
                            let v4 = NoiseView { chaining_key: k2.subrange(0, 32), session_key: k2.subrange(32, 64), ..v3 };
                            &&& r matches Ok(m)
                            &&& m.encrypted_static@ == crate::crypto::aes_gcm_seal(
                                v4.session_key,
                                nonce_spec(v4.send_counter),
                                static_keypair.public@,
                                v4.h,
                            )
                            &&& m.client_ephemeral@.len() == 0
                            &&& m.server_ephemeral@.len() == 0
                            &&& m.payload@.len() == 0
                            &&& final(noise)@ == NoiseView { send_counter: next_counter(v4.send_counter), ..v4 }
                        },
                    },
                }
            },
        },
{
    let server_ephemeral = fixed_key(server_hello.server_ephemeral.as_slice(), "server_ephemeral")?;
    noise.mix_hash(server_ephemeral.as_slice());
    let dh1 = x25519_dh(ephemeral.private, server_ephemeral);
    noise.mix_into_key(dh1.as_slice());
    let ad1 = noise.handshake_hash();
    let decrypted_server_static = match noise.decrypt_with_ad(server_hello.encrypted_static.as_slice(), ad1.as_slice()) {
        Ok(d) => d,
        Err(_) => return Err(HandshakeError::Phase { phase: HandshakePhase::ServerHello, message: "cipher error", detail: PhaseDetail::Plain }),
    };
    let server_static = fixed_key(decrypted_server_static.as_slice(), "server_static")?;
    let dh2 = x25519_dh(ephemeral.private, server_static);
    noise.mix_into_key(dh2.as_slice());
    let ad2 = noise.handshake_hash();
    let encrypted_client_static = match noise.encrypt_with_ad(static_keypair.public.as_slice(), ad2.as_slice()) {
        Ok(c) => c,
        Err(_) => return Err(HandshakeError::Phase { phase: HandshakePhase::ClientFinish, message: "cipher error", detail: PhaseDetail::Plain }),
    };
    Ok(HandshakeMessage {
        client_ephemeral: Vec::new(),
        server_ephemeral: Vec::new(),
        encrypted_static: encrypted_client_static,
        payload: Vec::new(),
    })
}

/// Completes the synthetic flow with the server's post-finish frame: the
/// decrypted payload, and a QR reference read from it as a node, else as text.
pub fn finish_handshake(noise: NoiseState, frame: &[u8], noise_public: [u8; 32]) -> (r: Result<HandshakeOutcome, HandshakeError>)
    ensures
        ({
            let (v, res) = server_finish_spec(noise@, frame@);
            match res {
                Err(e) => r == Err::<HandshakeOutcome, HandshakeError>(e),
                Ok(p) => r matches Ok(o) && o.noise@ == v && o.server_payload@ == p && o.login_jid is None
                    && o.noise_public == noise_public && match (
                        match spec_decode_synthetic(p) {
                            Ok(n) => node_qr_reference_spec(n),
                            Err(_) => None,
                        }
                    ) {
                        Some(q) => o.qr_reference matches Some(t) && t@ == q,
                        None => match qr_reference_spec(p) {
                            Some(q) => o.qr_reference matches Some(t) && t@ == q,
                            None => o.qr_reference is None,
                        },
                    },
            }
        }),
{
    let mut noise = noise;
    let decrypted = decrypt_server_finish_frame(&mut noise, frame)?;
    let qr_reference = match extract_qr_reference_from_node(decrypted.as_slice()) {
        Some(q) => Some(q),
        None => parse_qr_reference(decrypted.as_slice()),
    };
    Ok(HandshakeOutcome { noise, qr_reference, server_payload: decrypted, login_jid: None, noise_public })
}

// ---------------------------------------------------------------------------
// WA MD flow
// ---------------------------------------------------------------------------

/// Client finish message of the MD flow.
pub fn build_client_finish(encrypted_static: Vec<u8>, encrypted_payload: Vec<u8>) -> (r: MdHandshakeMessage)
    ensures
        r.client_hello is None,
        r.server_hello is None,
        r.client_finish matches Some(f) && f.static_key@ == encrypted_static@ && f.payload@ == encrypted_payload@
            && f.extended_ciphertext@.len() == 0,
{
    MdHandshakeMessage {
        client_hello: None,
        server_hello: None,
        client_finish: Some(
            ClientFinish { static_key: encrypted_static, payload: encrypted_payload, extended_ciphertext: Vec::new() },
        ),
    }
}

/// QR references found in a list of payloads, in order.
pub open spec fn qr_references_spec(t: crate::wabinary::TablesView, ps: Seq<Seq<u8>>) -> Seq<Seq<char>>
    decreases ps.len(),
{
    if ps.len() == 0 {
        Seq::empty()
    } else {
        let rest = qr_references_spec(t, ps.drop_last());
        match real_payload_node(t, ps.last()) {
            Some(n) => match real_qr_reference_spec(n) {
                Some(q) => rest.push(q),
                None => rest,
            },
            None => rest,
        }
    }
}

/// First login JID found in a list of payloads.
pub open spec fn login_jid_spec(t: crate::wabinary::TablesView, ps: Seq<Seq<u8>>) -> Option<Seq<char>>
    decreases ps.len(),
{
    if ps.len() == 0 {
        None
    } else {
        match login_jid_spec(t, ps.drop_last()) {
            Some(j) => Some(j),
            None => match real_payload_node(t, ps.last()) {
                Some(n) => real_login_jid_spec(n),
                None => None,
            },
        }
    }
}

/// The characters of each string of a vector.
pub open spec fn strings_view(v: Seq<String>) -> Seq<Seq<char>> {
    Seq::new(v.len(), |i: int| v[i]@)
}

/// Reads the first transport payloads after the MD handshake: collects QR
/// references and the first login JID, and keeps every payload.
pub fn scan_post_finish_payloads(tables: &TokenTables, payloads: Vec<Vec<u8>>) -> (r: (Vec<String>, Vec<Vec<u8>>, Option<String>))
    requires
        tables.wf(),
    ensures
        strings_view(r.0@) == qr_references_spec(tables@, crate::noise_md::vecs_view(payloads@)),
        crate::noise_md::vecs_view(r.1@) == crate::noise_md::vecs_view(payloads@),
        match login_jid_spec(tables@, crate::noise_md::vecs_view(payloads@)) {
            Some(j) => r.2 matches Some(s) && s@ == j,
            None => r.2 is None,
        },
{
    let ghost all = crate::noise_md::vecs_view(payloads@);
    let mut qr_references: Vec<String> = Vec::new();
    let mut server_payloads: Vec<Vec<u8>> = Vec::new();
    let mut login_jid: Option<String> = None;
    let mut i: usize = 0;
    while i < payloads.len()
        invariant
            i <= payloads@.len(),
            tables.wf(),
            all == crate::noise_md::vecs_view(payloads@),
            strings_view(qr_references@) == qr_references_spec(tables@, all.take(i as int)),
            crate::noise_md::vecs_view(server_payloads@) == all.take(i as int),
            match login_jid_spec(tables@, all.take(i as int)) {
                Some(j) => login_jid matches Some(s) && s@ == j,
                None => login_jid is None,
            },
        decreases payloads@.len() - i,
    {
        let payload = &payloads[i];
        proof {
            assert(all.take(i + 1).drop_last() =~= all.take(i as int));
            assert(all.take(i + 1).last() == payload@);
        }
        match extract_qr_reference_from_real_payload(tables, payload.as_slice()) {
            Some(reference) => {
                qr_references.push(reference);
            },
            None => {},
        }
        assert(strings_view(qr_references@) =~= qr_references_spec(tables@, all.take(i + 1)));
        if login_jid.is_none() {
            login_jid = extract_login_jid_from_real_payload(tables, payload.as_slice());
        }
        server_payloads.push(bytes_to_vec(payload.as_slice()));
        assert(crate::noise_md::vecs_view(server_payloads@) =~= all.take(i + 1));
        i += 1;
    }
    assert(all.take(i as int) =~= all);
    (qr_references, server_payloads, login_jid)
}

/// A `ref` node sent as a real payload gives its body as the QR reference:
/// whenever a bodied `ref` node without attributes encodes, the frame reads
/// back as that node, and the reference read from it is the body decoded as
/// UTF-8 and trimmed (none when that is empty or not UTF-8).
pub proof fn law_ref_payload_reference(tables: &TokenTables, n: &BinaryNode)
    requires
        tables.wf(),
        tables@.single.len() > 0 ==> tables@.single[0].len() == 0,
        n.wf(),
        n.tag@ == "ref"@,
        n.attrs@.len() == 0,
        n.content is Bytes,
        crate::wabinary::encode_real_spec(tables@, n) is Ok,
    ensures
        real_payload_node(tables@, crate::wabinary::encode_real_spec(tables@, n)->Ok_0) == Some(n@),
        real_qr_reference_spec(n@) == utf8_reference(n.content->Bytes_0@),
{
    reveal_strlit("ref");
    assert(!n.tag@.contains('@')) by {
        if n.tag@.contains('@') {
            let k = choose|k: int| 0 <= k < n.tag@.len() && n.tag@[k] == '@';
            assert(n.tag@ == "ref"@);
        }
    }
    assert(crate::wabinary_roundtrip::texts_without_at(n));
    crate::wabinary_roundtrip::law_real_roundtrip_without_at(tables, n);
    crate::binary_node::lemma_node_view_unfold(n);
}

proof fn lemma_find_tag_first(ns: Seq<NodeView>, tag: Seq<char>, i: int)
    requires
        0 <= i < ns.len(),
        ns[i].tag == tag,
        forall|j: int| 0 <= j < i ==> ns[j].tag != tag,
    ensures
        find_tag(ns, tag) == Some(ns[i]),
    decreases i,
{
    if i > 0 {
        assert(ns.drop_first()[i - 1] == ns[i]);
        lemma_find_tag_first(ns.drop_first(), tag, i - 1);
    }
}

/// A pairing `iq` gives as QR reference the body of the first `ref` inside
/// its first `pair-device` child, decoded as UTF-8 and trimmed.
pub proof fn law_pairing_iq_reference(n: NodeView, i: int, k: int, b: Seq<u8>)
    requires
        n.tag == "iq"@,
        n.content is Nodes,
        0 <= i < n.content->Nodes_0.len(),
        n.content->Nodes_0[i].tag == "pair-device"@,
        forall|j: int| 0 <= j < i ==> n.content->Nodes_0[j].tag != "pair-device"@,
        n.content->Nodes_0[i].content is Nodes,
        0 <= k < n.content->Nodes_0[i].content->Nodes_0.len(),
        n.content->Nodes_0[i].content->Nodes_0[k].tag == "ref"@,
        forall|j: int| 0 <= j < k ==> n.content->Nodes_0[i].content->Nodes_0[j].tag != "ref"@,
        n.content->Nodes_0[i].content->Nodes_0[k].content == ContentView::Bytes(b),
    ensures
        real_qr_reference_spec(n) == utf8_reference(b),
{
    reveal_strlit("ref");
    reveal_strlit("iq");
    lemma_find_tag_first(n.content->Nodes_0, "pair-device"@, i);
    lemma_find_tag_first(n.content->Nodes_0[i].content->Nodes_0, "ref"@, k);
}

} // verus!
